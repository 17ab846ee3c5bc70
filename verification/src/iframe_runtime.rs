//! The iframes of the documents a content process hosts: which document an
//! iframe embeds (a document parsed here, a child navigable's document, or
//! a cross-origin frame painted elsewhere), the state of each iframe's
//! content navigable, and the post-connection, load and removing steps.
//! Sending the requests to the user agent, parsing documents and firing
//! events are left to the caller, which performs the effects returned.
use vstd::prelude::*;
use crate::dom::{get_attribute_spec, live, node, opt_seq, subtree_ids, DataModel, DomTree, NodeData, NodeModel};
use crate::lookup::{first_match, lemma_first_match_exists, lemma_first_match_is, lemma_first_match_none};
use crate::navigation::{process_iframe_attributes, ContainerState, IframeAction, IframePlan};

verus! {

/// The document an iframe shows from this process.
pub enum SubDocument {
    /// The empty about:blank document, made here.
    AboutBlank,
    /// A document parsed here from the srcdoc markup, with its base URL.
    Srcdoc { base_url: String, html: String },
    /// The active document of the iframe's child navigable, hosted here.
    Child { document_id: u64 },
}

/// What an iframe node embeds.
pub struct IframeEmbedding {
    pub sub_document: Option<SubDocument>,
    /// The token of the cross-origin frame painted in its place.
    pub cross_origin_frame: Option<u64>,
}

/// A document this process hosts.
pub struct ContentDocument {
    pub document_id: u64,
    pub traversable_id: u64,
    pub frame_id: u64,
    /// The document's creation URL.
    pub creation_url: String,
    pub tree: DomTree,
    /// What each iframe node embeds.
    pub embeddings: Vec<(usize, IframeEmbedding)>,
    /// The state of each iframe's content navigable.
    pub containers: Vec<(usize, ContainerState)>,
}

/// A hosted document as values.
pub struct DocModel {
    pub document_id: u64,
    pub traversable_id: u64,
    pub frame_id: u64,
    pub creation_url: String,
    pub tree: Seq<Option<NodeModel>>,
    pub embeddings: Seq<(usize, IframeEmbedding)>,
    pub containers: Seq<(usize, ContainerState)>,
}

impl View for ContentDocument {
    type V = DocModel;

    open spec fn view(&self) -> DocModel {
        DocModel {
            document_id: self.document_id,
            traversable_id: self.traversable_id,
            frame_id: self.frame_id,
            creation_url: self.creation_url,
            tree: self.tree@,
            embeddings: self.embeddings@,
            containers: self.containers@,
        }
    }
}

/// The hosted documents as values.
pub open spec fn docs_view(v: Seq<ContentDocument>) -> Seq<DocModel> {
    v.map_values(|d: ContentDocument| d@)
}

/// The documents of a content process, and the active document of each
/// traversable.
pub struct ContentRuntime {
    pub documents: Vec<ContentDocument>,
    pub active_documents_by_traversable: Vec<(u64, u64)>,
}

/// What the iframe steps ask of the rest of the system.
pub enum IframeEffect {
    /// Ask the user agent to create the child navigable.
    CreateChildNavigable { parent_traversable_id: u64, content_navigable_id: u64, content_frame_id: u64 },
    /// Tell the user agent that the cross-origin traversable of an iframe
    /// is gone.
    RetireTraversable { parent_traversable_id: u64, content_navigable_id: u64, content_frame_id: u64 },
    /// Fire an event named load at the iframe element.
    FireLoad { document_id: u64, iframe_node_id: usize },
    /// Ask the user agent to navigate the iframe's content navigable.
    Navigate { content_navigable_id: u64, parent_traversable_id: u64, content_frame_id: u64, url: String },
}

pub open spec fn doc_is(id: u64) -> spec_fn(DocModel) -> bool {
    |d: DocModel| d.document_id == id
}

pub open spec fn key_is<V>(k: usize) -> spec_fn((usize, V)) -> bool {
    |e: (usize, V)| e.0 == k
}

/// An entry set in a list keyed by node: the first entry of the node takes
/// the value, or a new entry is appended.
pub open spec fn keyed_set<V>(s: Seq<(usize, V)>, k: usize, v: V) -> Seq<(usize, V)> {
    let i = first_match(s, key_is::<V>(k));
    if i >= 0 {
        s.update(i, (k, v))
    } else {
        s.push((k, v))
    }
}

/// The first entry of a node removed from a list keyed by node.
pub open spec fn keyed_remove<V>(s: Seq<(usize, V)>, k: usize) -> Seq<(usize, V)> {
    let i = first_match(s, key_is::<V>(k));
    if i >= 0 {
        s.remove(i)
    } else {
        s
    }
}

/// The value of a node's first entry.
pub open spec fn keyed_get<V>(s: Seq<(usize, V)>, k: usize) -> Option<V> {
    let i = first_match(s, key_is::<V>(k));
    if i >= 0 {
        Some(s[i].1)
    } else {
        None
    }
}

fn keyed_position<V>(s: &Vec<(usize, V)>, k: usize) -> (r: Option<usize>)
    ensures
        match r {
            Some(i) => i < s@.len() && first_match(s@, key_is::<V>(k)) == i,
            None => first_match(s@, key_is::<V>(k)) == -1,
        },
{
    let mut i: usize = 0;
    while i < s.len()
        invariant
            i <= s@.len(),
            forall|j: int| 0 <= j < i ==> !(#[trigger] key_is::<V>(k)(s@[j])),
        decreases s@.len() - i,
    {
        if s[i].0 == k {
            proof {
                lemma_first_match_is(s@, key_is::<V>(k), i as int);
            }
            return Some(i);
        }
        i = i + 1;
    }
    proof {
        lemma_first_match_none(s@, key_is::<V>(k));
    }
    None
}

fn keyed_set_exec<V>(s: &mut Vec<(usize, V)>, k: usize, v: V)
    ensures
        final(s)@ == keyed_set(old(s)@, k, v),
{
    match keyed_position(s, k) {
        Some(i) => {
            s.set(i, (k, v));
        },
        None => {
            s.push((k, v));
        },
    }
}

fn keyed_remove_exec<V>(s: &mut Vec<(usize, V)>, k: usize)
    ensures
        final(s)@ == keyed_remove(old(s)@, k),
{
    match keyed_position(s, k) {
        Some(i) => {
            s.remove(i);
        },
        None => {},
    }
}

/// The index of a hosted document, or -1.
pub open spec fn doc_index(docs: Seq<DocModel>, id: u64) -> int {
    first_match(docs, doc_is(id))
}

/// Whether the document's tree holds the node.
pub open spec fn holds_node(d: DocModel, n: usize) -> bool {
    live(d.tree, n as int)
}

/// The documents with one document's embeddings replaced.
pub open spec fn with_embeddings(docs: Seq<DocModel>, i: int, e: Seq<(usize, IframeEmbedding)>) -> Seq<DocModel> {
    docs.update(i, DocModel { embeddings: e, ..docs[i] })
}

/// The documents with one document's containers replaced.
pub open spec fn with_containers(docs: Seq<DocModel>, i: int, c: Seq<(usize, ContainerState)>) -> Seq<DocModel> {
    docs.update(i, DocModel { containers: c, ..docs[i] })
}

/// The documents after an iframe node's embedding is set, where the
/// document is hosted and holds the node; unchanged otherwise.
pub open spec fn embed_spec(docs: Seq<DocModel>, document_id: u64, n: usize, e: IframeEmbedding) -> Seq<DocModel> {
    let i = doc_index(docs, document_id);
    if i >= 0 && holds_node(docs[i], n) {
        with_embeddings(docs, i, keyed_set(docs[i].embeddings, n, e))
    } else {
        docs
    }
}

/// The HTML iframe elements among a list of nodes, in order.
pub open spec fn iframes_among(t: Seq<Option<NodeModel>>, ids: Seq<usize>) -> Seq<usize>
    decreases ids.len(),
{
    if ids.len() == 0 {
        Seq::empty()
    } else {
        let rest = iframes_among(t, ids.drop_last());
        if is_html_iframe(t, ids.last()) {
            rest.push(ids.last())
        } else {
            rest
        }
    }
}

/// An HTML iframe element.
pub open spec fn is_html_iframe(t: Seq<Option<NodeModel>>, id: usize) -> bool {
    live(t, id as int) && node(t, id as int).data is Element && node(t, id as int).data->Element_ns
        == crate::dom::html_ns() && node(t, id as int).data->Element_local == "iframe"@
}

/// The iframe elements connected to a document, in tree order.
pub open spec fn connected_iframes_spec(t: Seq<Option<NodeModel>>) -> Seq<usize> {
    iframes_among(t, subtree_ids(t, 0, t.len()))
}

fn is_html_iframe_exec(tree: &DomTree, id: usize) -> (b: bool)
    ensures
        b == is_html_iframe(tree@, id),
{
    proof {
        reveal_strlit("iframe");
        reveal_strlit("http://www.w3.org/1999/xhtml");
    }
    match tree.get(id) {
        Some(n) => match &n.data {
            NodeData::Element { ns, local, .. } => crate::text::str_eq(ns.as_str(), "http://www.w3.org/1999/xhtml")
                && crate::text::str_eq(local.as_str(), "iframe"),
            _ => false,
        },
        None => false,
    }
}

/// The HTML iframe elements connected to a document, in tree order.
pub fn connected_iframe_node_ids(tree: &DomTree) -> (ids: Vec<usize>)
    ensures
        ids@ == connected_iframes_spec(tree@),
{
    let all = tree.subtree_node_ids(0);
    let mut out: Vec<usize> = Vec::new();
    let mut i: usize = 0;
    while i < all.len()
        invariant
            i <= all@.len(),
            all@ == subtree_ids(tree@, 0, tree@.len()),
            out@ == iframes_among(tree@, all@.take(i as int)),
        decreases all@.len() - i,
    {
        assert(all@.take(i + 1).drop_last() =~= all@.take(i as int));
        if is_html_iframe_exec(tree, all[i]) {
            out.push(all[i]);
        }
        i = i + 1;
    }
    assert(all@.take(all@.len() as int) =~= all@);
    out
}

impl ContentRuntime {
    fn document_position(&self, id: u64) -> (r: Option<usize>)
        ensures
            match r {
                Some(i) => i < self.documents@.len() && doc_index(docs_view(self.documents@), id) == i,
                None => doc_index(docs_view(self.documents@), id) == -1,
            },
    {
        let mut i: usize = 0;
        while i < self.documents.len()
            invariant
                i <= self.documents@.len(),
                forall|j: int| 0 <= j < i ==> !(#[trigger] doc_is(id)(docs_view(self.documents@)[j])),
            decreases self.documents@.len() - i,
        {
            if self.documents[i].document_id == id {
                proof {
                    lemma_first_match_is(docs_view(self.documents@), doc_is(id), i as int);
                }
                return Some(i);
            }
            i = i + 1;
        }
        proof {
            lemma_first_match_none(docs_view(self.documents@), doc_is(id));
        }
        None
    }

    fn set_embedding(&mut self, i: usize, n: usize, e: IframeEmbedding)
        requires
            i < docs_view(old(self).documents@).len(),
        ensures
            docs_view(final(self).documents@) == with_embeddings(
                docs_view(old(self).documents@),
                i as int,
                keyed_set(docs_view(old(self).documents@)[i as int].embeddings, n, e),
            ),
            final(self).active_documents_by_traversable@ == old(self).active_documents_by_traversable@,
    {
        let mut embeddings: Vec<(usize, IframeEmbedding)> = Vec::new();
        std::mem::swap(&mut embeddings, &mut self.documents[i].embeddings);
        keyed_set_exec(&mut embeddings, n, e);
        std::mem::swap(&mut embeddings, &mut self.documents[i].embeddings);
        assert(docs_view(self.documents@) =~= with_embeddings(
            docs_view(old(self).documents@),
            i as int,
            keyed_set(docs_view(old(self).documents@)[i as int].embeddings, n, e),
        ));
    }

    fn embed(&mut self, document_id: u64, n: usize, e: IframeEmbedding)
        ensures
            docs_view(final(self).documents@) == embed_spec(docs_view(old(self).documents@), document_id, n, e),
            final(self).active_documents_by_traversable@ == old(self).active_documents_by_traversable@,
    {
        let i = match self.document_position(document_id) {
            Some(i) => i,
            None => {
                return;
            },
        };
        if self.documents[i].tree.get(n).is_none() {
            return;
        }
        self.set_embedding(i, n, e);
    }

    /// Embeds a cross-origin frame in an iframe, in place of any document.
    pub fn attach_cross_origin_iframe(&mut self, parent_document_id: u64, iframe_node_id: usize, frame_token: u64)
        ensures
            docs_view(final(self).documents@) == embed_spec(
                docs_view(old(self).documents@),
                parent_document_id,
                iframe_node_id,
                IframeEmbedding { sub_document: None, cross_origin_frame: Some(frame_token) },
            ),
            final(self).active_documents_by_traversable@ == old(self).active_documents_by_traversable@,
    {
        self.embed(
            parent_document_id,
            iframe_node_id,
            IframeEmbedding { sub_document: None, cross_origin_frame: Some(frame_token) },
        )
    }

    /// Embeds a document parsed here from srcdoc markup in an iframe, in
    /// place of any cross-origin frame.
    pub fn attach_iframe_subdocument_from_html(
        &mut self,
        parent_document_id: u64,
        iframe_node_id: usize,
        base_url: String,
        html: String,
    )
        ensures
            docs_view(final(self).documents@) == embed_spec(
                docs_view(old(self).documents@),
                parent_document_id,
                iframe_node_id,
                IframeEmbedding {
                    sub_document: Some(SubDocument::Srcdoc { base_url, html }),
                    cross_origin_frame: None,
                },
            ),
            final(self).active_documents_by_traversable@ == old(self).active_documents_by_traversable@,
    {
        self.embed(
            parent_document_id,
            iframe_node_id,
            IframeEmbedding {
                sub_document: Some(SubDocument::Srcdoc { base_url, html }),
                cross_origin_frame: None,
            },
        )
    }

    /// Embeds the empty about:blank document in an iframe.
    pub fn attach_iframe_about_blank(&mut self, parent_document_id: u64, iframe_node_id: usize)
        ensures
            docs_view(final(self).documents@) == embed_spec(
                docs_view(old(self).documents@),
                parent_document_id,
                iframe_node_id,
                IframeEmbedding { sub_document: Some(SubDocument::AboutBlank), cross_origin_frame: None },
            ),
            final(self).active_documents_by_traversable@ == old(self).active_documents_by_traversable@,
    {
        self.embed(
            parent_document_id,
            iframe_node_id,
            IframeEmbedding { sub_document: Some(SubDocument::AboutBlank), cross_origin_frame: None },
        )
    }

    /// Removes whatever an iframe embeds.
    pub fn remove_iframe_subdocument(&mut self, parent_document_id: u64, iframe_node_id: usize)
        ensures
            docs_view(final(self).documents@) == embed_spec(
                docs_view(old(self).documents@),
                parent_document_id,
                iframe_node_id,
                IframeEmbedding { sub_document: None, cross_origin_frame: None },
            ),
            final(self).active_documents_by_traversable@ == old(self).active_documents_by_traversable@,
    {
        self.embed(
            parent_document_id,
            iframe_node_id,
            IframeEmbedding { sub_document: None, cross_origin_frame: None },
        )
    }

    /// The active document of a traversable, if it is hosted here.
    fn active_document(&self, traversable_id: u64) -> (r: Option<u64>)
        ensures
            r == keyed_active(self.active_documents_by_traversable@, traversable_id),
    {
        let mut i: usize = 0;
        while i < self.active_documents_by_traversable.len()
            invariant
                i <= self.active_documents_by_traversable@.len(),
                forall|j: int| 0 <= j < i ==> !(#[trigger] traversable_is(traversable_id)(self.active_documents_by_traversable@[j])),
            decreases self.active_documents_by_traversable@.len() - i,
        {
            if self.active_documents_by_traversable[i].0 == traversable_id {
                proof {
                    lemma_first_match_is(self.active_documents_by_traversable@, traversable_is(traversable_id), i as int);
                }
                return Some(self.active_documents_by_traversable[i].1);
            }
            i = i + 1;
        }
        proof {
            lemma_first_match_none(self.active_documents_by_traversable@, traversable_is(traversable_id));
        }
        None
    }

    /// The iframe whose content navigable has the frame, as the hosting
    /// document and the iframe node: the first found, documents in order.
    fn container_for_child_navigable(&self, content_frame_id: u64) -> (r: Option<(u64, usize)>)
        ensures
            r == container_for_frame(docs_view(self.documents@), content_frame_id),
    {
        let mut i: usize = 0;
        assert(docs_view(self.documents@).skip(0) =~= docs_view(self.documents@));
        while i < self.documents.len()
            invariant
                i <= self.documents@.len(),
                container_for_frame(docs_view(self.documents@), content_frame_id) == container_for_frame(docs_view(self.documents@).skip(i as int), content_frame_id),
            decreases self.documents@.len() - i,
        {
            let ghost rest = docs_view(self.documents@).skip(i as int);
            assert(rest.drop_first() =~= docs_view(self.documents@).skip(i + 1));
            assert(rest[0] == self.documents@[i as int]@);
            match first_container_with_frame(&self.documents[i], content_frame_id) {
                Some(k) => {
                    return Some((self.documents[i].document_id, self.documents[i].containers[k].0));
                },
                None => {},
            }
            i = i + 1;
        }
        assert(docs_view(self.documents@).skip(i as int) =~= Seq::<DocModel>::empty());
        None
    }

    /// Embeds the active document of a traversable, hosted here, in the
    /// iframe whose content navigable it is, unless that iframe's content
    /// is cross-origin.
    pub fn attach_same_origin_child_document_for_traversable(&mut self, traversable_id: u64)
        ensures
            final(self).active_documents_by_traversable@ == old(self).active_documents_by_traversable@,
            docs_view(final(self).documents@) == same_origin_attach_spec(
                docs_view(old(self).documents@),
                old(self).active_documents_by_traversable@,
                traversable_id,
            ),
    {
        let document_id = match self.active_document(traversable_id) {
            Some(d) => d,
            None => {
                return;
            },
        };
        let ci = match self.document_position(document_id) {
            Some(ci) => ci,
            None => {
                return;
            },
        };
        let frame_id = self.documents[ci].frame_id;
        let (parent_document_id, iframe_node_id) = match self.container_for_child_navigable(frame_id) {
            Some(p) => p,
            None => {
                return;
            },
        };
        let pi = match self.document_position(parent_document_id) {
            Some(pi) => pi,
            None => {
                return;
            },
        };
        let cross = match keyed_position(&self.documents[pi].containers, iframe_node_id) {
            Some(k) => self.documents[pi].containers[k].1.cross_origin,
            None => {
                return;
            },
        };
        if cross {
            return;
        }
        self.embed(
            parent_document_id,
            iframe_node_id,
            IframeEmbedding {
                sub_document: Some(SubDocument::Child { document_id }),
                cross_origin_frame: None,
            },
        );
    }

    /// The iframe load event steps: an event named load is fired at the
    /// iframe where its document is hosted and holds it.
    pub fn run_iframe_load_event_steps(&self, parent_document_id: u64, iframe_node_id: usize) -> (r: Option<IframeEffect>)
        ensures
            ({
                let i = doc_index(docs_view(self.documents@), parent_document_id);
                if i >= 0 && holds_node(docs_view(self.documents@)[i], iframe_node_id) {
                    r matches Some(IframeEffect::FireLoad { document_id, iframe_node_id: n })
                        && document_id == parent_document_id && n == iframe_node_id
                } else {
                    r is None
                }
            }),
    {
        let i = match self.document_position(parent_document_id) {
            Some(i) => i,
            None => {
                return None;
            },
        };
        if self.documents[i].tree.get(iframe_node_id).is_none() {
            return None;
        }
        Some(IframeEffect::FireLoad { document_id: parent_document_id, iframe_node_id })
    }

    /// The load event steps for the iframe whose content navigable shows
    /// the active document of a traversable.
    pub fn run_iframe_load_event_steps_for_traversable(&self, traversable_id: u64) -> (r: Option<IframeEffect>)
        ensures
            ({
                match keyed_active(self.active_documents_by_traversable@, traversable_id) {
                    None => r is None,
                    Some(d) => {
                        let ci = doc_index(docs_view(self.documents@), d);
                        if ci < 0 {
                            r is None
                        } else {
                            match container_for_frame(docs_view(self.documents@), docs_view(self.documents@)[ci].frame_id) {
                                None => r is None,
                                Some((p, n)) => {
                                    let i = doc_index(docs_view(self.documents@), p);
                                    if i >= 0 && holds_node(docs_view(self.documents@)[i], n) {
                                        r matches Some(IframeEffect::FireLoad { document_id, iframe_node_id })
                                            && document_id == p && iframe_node_id == n
                                    } else {
                                        r is None
                                    }
                                },
                            }
                        }
                    },
                }
            }),
    {
        let document_id = match self.active_document(traversable_id) {
            Some(d) => d,
            None => {
                return None;
            },
        };
        let ci = match self.document_position(document_id) {
            Some(ci) => ci,
            None => {
                return None;
            },
        };
        match self.container_for_child_navigable(self.documents[ci].frame_id) {
            Some((p, n)) => self.run_iframe_load_event_steps(p, n),
            None => None,
        }
    }
}

fn first_container_with_frame(d: &ContentDocument, f: u64) -> (r: Option<usize>)
    ensures
        match r {
            Some(k) => k < d.containers@.len() && first_match(d.containers@, frame_is(f)) == k,
            None => first_match(d.containers@, frame_is(f)) == -1,
        },
{
    let mut k: usize = 0;
    while k < d.containers.len()
        invariant
            k <= d.containers@.len(),
            forall|j: int| 0 <= j < k ==> !(#[trigger] frame_is(f)(d.containers@[j])),
        decreases d.containers@.len() - k,
    {
        if d.containers[k].1.content_frame_id == f {
            proof {
                lemma_first_match_is(d.containers@, frame_is(f), k as int);
            }
            return Some(k);
        }
        k = k + 1;
    }
    proof {
        lemma_first_match_none(d.containers@, frame_is(f));
    }
    None
}

pub open spec fn traversable_is(t: u64) -> spec_fn((u64, u64)) -> bool {
    |e: (u64, u64)| e.0 == t
}

/// The active document of a traversable.
pub open spec fn keyed_active(s: Seq<(u64, u64)>, t: u64) -> Option<u64> {
    let i = first_match(s, traversable_is(t));
    if i >= 0 {
        Some(s[i].1)
    } else {
        None
    }
}

pub open spec fn frame_is(f: u64) -> spec_fn((usize, ContainerState)) -> bool {
    |e: (usize, ContainerState)| e.1.content_frame_id == f
}

/// The first iframe, documents in order, whose content navigable has the
/// frame: its hosting document and node.
pub open spec fn container_for_frame(docs: Seq<DocModel>, f: u64) -> Option<(u64, usize)>
    decreases docs.len(),
{
    if docs.len() == 0 {
        None
    } else {
        let k = first_match(docs[0].containers, frame_is(f));
        if k >= 0 {
            Some((docs[0].document_id, docs[0].containers[k].0))
        } else {
            container_for_frame(docs.drop_first(), f)
        }
    }
}

/// What attaching the active document of a traversable to its iframe does
/// to the documents.
pub open spec fn same_origin_attach_spec(docs: Seq<DocModel>, active: Seq<(u64, u64)>, t: u64) -> Seq<DocModel> {
    match keyed_active(active, t) {
        None => docs,
        Some(d) => {
            let ci = doc_index(docs, d);
            if ci < 0 {
                docs
            } else {
                match container_for_frame(docs, docs[ci].frame_id) {
                    None => docs,
                    Some((p, n)) => {
                        let pi = doc_index(docs, p);
                        if pi < 0 {
                            docs
                        } else {
                            match keyed_get(docs[pi].containers, n) {
                                None => docs,
                                Some(c) => if c.cross_origin {
                                    docs
                                } else {
                                    embed_spec(
                                        docs,
                                        p,
                                        n,
                                        IframeEmbedding {
                                            sub_document: Some(SubDocument::Child { document_id: d }),
                                            cross_origin_frame: None,
                                        },
                                    )
                                },
                            }
                        }
                    },
                }
            }
        },
    }
}

/// The documents after an iframe's container state is set, where its
/// document is hosted.
pub open spec fn set_container_spec(docs: Seq<DocModel>, p: u64, n: usize, st: ContainerState) -> Seq<DocModel> {
    let i = doc_index(docs, p);
    if i >= 0 {
        with_containers(docs, i, keyed_set(docs[i].containers, n, st))
    } else {
        docs
    }
}

/// The documents after an iframe's container state is dropped.
pub open spec fn remove_container_spec(docs: Seq<DocModel>, p: u64, n: usize) -> Seq<DocModel> {
    let i = doc_index(docs, p);
    if i >= 0 {
        with_containers(docs, i, keyed_remove(docs[i].containers, n))
    } else {
        docs
    }
}

/// The load event the load steps fire, where the iframe's document is
/// hosted and holds it.
pub open spec fn load_effects(docs: Seq<DocModel>, p: u64, n: usize) -> Seq<IframeEffect> {
    let i = doc_index(docs, p);
    if i >= 0 && holds_node(docs[i], n) {
        seq![IframeEffect::FireLoad { document_id: p, iframe_node_id: n }]
    } else {
        Seq::empty()
    }
}

/// The retirement of an iframe's cross-origin traversable, where its
/// content is cross-origin.
pub open spec fn retire_effects(parent_traversable_id: u64, st: ContainerState) -> Seq<IframeEffect> {
    if st.cross_origin {
        seq![
            IframeEffect::RetireTraversable {
                parent_traversable_id,
                content_navigable_id: st.content_navigable_id,
                content_frame_id: st.content_frame_id,
            },
        ]
    } else {
        Seq::empty()
    }
}

/// What the removing steps of an iframe do: where its document is hosted
/// and keeps state for its content navigable, the cross-origin traversable
/// is retired, whatever the iframe embeds is removed, and the state is
/// dropped; nothing otherwise.
pub open spec fn removing_spec(docs: Seq<DocModel>, p: u64, n: usize) -> (Seq<DocModel>, Seq<IframeEffect>) {
    let i = doc_index(docs, p);
    if i < 0 {
        (docs, Seq::empty())
    } else {
        match keyed_get(docs[i].containers, n) {
            None => (docs, Seq::empty()),
            Some(st) => {
                let d1 = embed_spec(docs, p, n, IframeEmbedding { sub_document: None, cross_origin_frame: None });
                (remove_container_spec(d1, p, n), retire_effects(docs[i].traversable_id, st))
            },
        }
    }
}

/// The removing steps run for each of a list of iframes, in order.
pub open spec fn removing_fold(docs: Seq<DocModel>, p: u64, ns: Seq<usize>) -> (Seq<DocModel>, Seq<IframeEffect>)
    decreases ns.len(),
{
    if ns.len() == 0 {
        (docs, Seq::empty())
    } else {
        let (d1, e1) = removing_fold(docs, p, ns.drop_last());
        let (d2, e2) = removing_spec(d1, p, ns.last());
        (d2, e1 + e2)
    }
}

/// The iframes connected to a hosted document, none where it is not hosted.
pub open spec fn document_iframes(docs: Seq<DocModel>, p: u64) -> Seq<usize> {
    let i = doc_index(docs, p);
    if i >= 0 {
        connected_iframes_spec(docs[i].tree)
    } else {
        Seq::empty()
    }
}

/// What carrying out an iframe plan does.
pub open spec fn apply_plan_spec(
    docs: Seq<DocModel>,
    p: u64,
    n: usize,
    previous: Option<ContainerState>,
    plan: IframePlan,
) -> (Seq<DocModel>, Seq<IframeEffect>) {
    let i = doc_index(docs, p);
    let traversable = docs[i].traversable_id;
    match plan {
        IframePlan::Unchanged => (docs, Seq::empty()),
        IframePlan::NoContentNavigable => (docs, Seq::empty()),
        IframePlan::InitialAboutBlank { retire_previous, state } => {
            let e1 = if retire_previous { retire_effects(traversable, previous->0) } else { Seq::empty() };
            let d1 = set_container_spec(docs, p, n, state);
            (d1, e1 + load_effects(d1, p, n))
        },
        IframePlan::Navigate { retire_previous, state, action } => {
            let e1 = if retire_previous { retire_effects(traversable, previous->0) } else { Seq::empty() };
            let d1 = set_container_spec(docs, p, n, state);
            match action {
                IframeAction::AttachAboutBlank => {
                    let d2 = embed_spec(d1, p, n, IframeEmbedding { sub_document: Some(SubDocument::AboutBlank), cross_origin_frame: None });
                    (d2, e1 + load_effects(d2, p, n))
                },
                IframeAction::AttachSrcdoc { html } => {
                    let d2 = embed_spec(
                        d1,
                        p,
                        n,
                        IframeEmbedding {
                            sub_document: Some(SubDocument::Srcdoc { base_url: docs[i].creation_url, html }),
                            cross_origin_frame: None,
                        },
                    );
                    (d2, e1 + load_effects(d2, p, n))
                },
                IframeAction::NavigateUrl { url, cross_origin } => {
                    let d2 = if cross_origin {
                        embed_spec(d1, p, n, IframeEmbedding { sub_document: None, cross_origin_frame: Some(state.content_frame_token) })
                    } else {
                        d1
                    };
                    (
                        d2,
                        e1 + seq![
                            IframeEffect::Navigate {
                                content_navigable_id: state.content_navigable_id,
                                parent_traversable_id: traversable,
                                content_frame_id: state.content_frame_id,
                                url,
                            },
                        ],
                    )
                },
            }
        },
    }
}

/// The plan processing the iframe attributes may give, for an iframe of a
/// hosted document that is an element.
pub open spec fn plan_for(docs: Seq<DocModel>, p: u64, n: usize, initial: bool, plan: IframePlan) -> bool {
    let i = doc_index(docs, p);
    crate::navigation::iframe_plan_spec(
        docs[i].creation_url@,
        crate::dom::attr_by_local_spec(docs[i].tree, n as int, "src"@),
        crate::dom::attr_by_local_spec(docs[i].tree, n as int, "srcdoc"@),
        keyed_get(docs[i].containers, n),
        initial,
        plan,
    )
}

/// Whether an iframe node of a hosted document is an element.
pub open spec fn is_element_node(docs: Seq<DocModel>, p: u64, n: usize) -> bool {
    let i = doc_index(docs, p);
    i >= 0 && live(docs[i].tree, n as int) && node(docs[i].tree, n as int).data is Element
}

/// Fresh identifiers for a child navigable: its navigable, frame and
/// placeholder frame token.
#[derive(Clone, Copy, Debug, PartialEq, Eq, Structural)]
pub struct ChildNavigableIds {
    pub content_navigable_id: u64,
    pub content_frame_id: u64,
    pub content_frame_token: u64,
}

impl ContentRuntime {
    fn set_container(&mut self, i: usize, n: usize, st: ContainerState)
        requires
            i < old(self).documents@.len(),
        ensures
            docs_view(final(self).documents@) == with_containers(
                docs_view(old(self).documents@),
                i as int,
                keyed_set(docs_view(old(self).documents@)[i as int].containers, n, st),
            ),
            final(self).active_documents_by_traversable@ == old(self).active_documents_by_traversable@,
    {
        let mut containers: Vec<(usize, ContainerState)> = Vec::new();
        std::mem::swap(&mut containers, &mut self.documents[i].containers);
        keyed_set_exec(&mut containers, n, st);
        std::mem::swap(&mut containers, &mut self.documents[i].containers);
        assert(docs_view(self.documents@) =~= with_containers(
            docs_view(old(self).documents@),
            i as int,
            keyed_set(docs_view(old(self).documents@)[i as int].containers, n, st),
        ));
    }

    fn remove_container(&mut self, i: usize, n: usize)
        requires
            i < old(self).documents@.len(),
        ensures
            docs_view(final(self).documents@) == with_containers(
                docs_view(old(self).documents@),
                i as int,
                keyed_remove(docs_view(old(self).documents@)[i as int].containers, n),
            ),
            final(self).active_documents_by_traversable@ == old(self).active_documents_by_traversable@,
    {
        let mut containers: Vec<(usize, ContainerState)> = Vec::new();
        std::mem::swap(&mut containers, &mut self.documents[i].containers);
        keyed_remove_exec(&mut containers, n);
        std::mem::swap(&mut containers, &mut self.documents[i].containers);
        assert(docs_view(self.documents@) =~= with_containers(
            docs_view(old(self).documents@),
            i as int,
            keyed_remove(docs_view(old(self).documents@)[i as int].containers, n),
        ));
    }

    /// The iframe removing steps (see [`removing_spec`]).
    pub fn run_iframe_removing_steps(&mut self, parent_document_id: u64, iframe_node_id: usize) -> (effects: Vec<IframeEffect>)
        ensures
            (docs_view(final(self).documents@), effects@) == removing_spec(
                docs_view(old(self).documents@),
                parent_document_id,
                iframe_node_id,
            ),
            final(self).active_documents_by_traversable@ == old(self).active_documents_by_traversable@,
    {
        let mut effects: Vec<IframeEffect> = Vec::new();
        let i = match self.document_position(parent_document_id) {
            Some(i) => i,
            None => {
                assert(effects@ =~= Seq::<IframeEffect>::empty());
                return effects;
            },
        };
        let k = match keyed_position(&self.documents[i].containers, iframe_node_id) {
            Some(k) => k,
            None => {
                assert(effects@ =~= Seq::<IframeEffect>::empty());
                return effects;
            },
        };
        let traversable = self.documents[i].traversable_id;
        let cross = self.documents[i].containers[k].1.cross_origin;
        let navigable = self.documents[i].containers[k].1.content_navigable_id;
        let frame = self.documents[i].containers[k].1.content_frame_id;
        if cross {
            effects.push(
                IframeEffect::RetireTraversable {
                    parent_traversable_id: traversable,
                    content_navigable_id: navigable,
                    content_frame_id: frame,
                },
            );
        }
        let ghost d0 = docs_view(self.documents@);
        self.remove_iframe_subdocument(parent_document_id, iframe_node_id);
        let ghost d1 = docs_view(self.documents@);
        proof {
            assert(d1.len() == d0.len());
            assert(d1[i as int].document_id == d0[i as int].document_id);
            assert forall|j: int| 0 <= j < d1.len() implies d1[j].document_id == d0[j].document_id by {}
            crate::lookup::lemma_first_match_range(d0, doc_is(parent_document_id));
            assert forall|j: int| 0 <= j < i implies !(#[trigger] doc_is(parent_document_id)(d1[j])) by {
                assert(!doc_is(parent_document_id)(d0[j]));
            }
            lemma_first_match_is(d1, doc_is(parent_document_id), i as int);
        }
        self.remove_container(i, iframe_node_id);
        proof {
            assert(effects@ =~= retire_effects(traversable, d0[i as int].containers[k as int].1));
        }
        effects
    }
}

/// Documents with the same identities at the same places are found at the
/// same index.
pub proof fn lemma_doc_index_stable(d0: Seq<DocModel>, d1: Seq<DocModel>, p: u64)
    requires
        d0.len() == d1.len(),
        forall|j: int| 0 <= j < d0.len() ==> (#[trigger] d1[j]).document_id == d0[j].document_id,
    ensures
        doc_index(d1, p) == doc_index(d0, p),
{
    crate::lookup::lemma_first_match_range(d0, doc_is(p));
    let i = doc_index(d0, p);
    if i >= 0 {
        assert forall|j: int| 0 <= j < i implies !(#[trigger] doc_is(p)(d1[j])) by {
            assert(!doc_is(p)(d0[j]));
        }
        lemma_first_match_is(d1, doc_is(p), i);
    } else {
        assert forall|j: int| 0 <= j < d1.len() implies !(#[trigger] doc_is(p)(d1[j])) by {
            if doc_is(p)(d1[j]) {
                lemma_first_match_exists(d0, doc_is(p), j);
            }
        }
        lemma_first_match_none(d1, doc_is(p));
    }
}

/// Whether a new content navigable's state uses the fresh identifiers,
/// with no target yet and same-origin content.
pub open spec fn allocated_state(st: ContainerState, ids: ChildNavigableIds) -> bool {
    &&& st.content_navigable_id == ids.content_navigable_id
    &&& st.content_frame_id == ids.content_frame_id
    &&& st.content_frame_token == ids.content_frame_token
    &&& st.current_key@.len() == 0
    &&& !st.cross_origin
}

/// How many requests allocating an iframe's child navigable state makes:
/// none where it has state already, one otherwise.
pub open spec fn allocation_len(docs: Seq<DocModel>, p: u64, n: usize) -> nat {
    if keyed_get(docs[doc_index(docs, p)].containers, n) is Some {
        0
    } else {
        1
    }
}

/// What allocating the child navigable state of an iframe of a hosted
/// document may do: nothing where it has state already; otherwise record a
/// new state and ask the user agent to create the child navigable.
pub open spec fn allocation_spec(
    docs: Seq<DocModel>,
    p: u64,
    n: usize,
    ids: ChildNavigableIds,
    d1: Seq<DocModel>,
    e1: Seq<IframeEffect>,
) -> bool {
    let i = doc_index(docs, p);
    if keyed_get(docs[i].containers, n) is Some {
        d1 == docs && e1 == Seq::<IframeEffect>::empty()
    } else {
        exists|st: ContainerState|
            allocated_state(st, ids) && d1 == set_container_spec(docs, p, n, st) && e1 == seq![
                IframeEffect::CreateChildNavigable {
                    parent_traversable_id: docs[i].traversable_id,
                    content_navigable_id: ids.content_navigable_id,
                    content_frame_id: ids.content_frame_id,
                },
            ]
    }
}

/// What processing the iframe attributes of an iframe of a hosted
/// document may do: nothing where the node is not an element; otherwise
/// carry out a plan the attributes give.
pub open spec fn processing_spec(
    docs: Seq<DocModel>,
    p: u64,
    n: usize,
    initial: bool,
    d2: Seq<DocModel>,
    e2: Seq<IframeEffect>,
) -> bool {
    if !is_element_node(docs, p, n) {
        d2 == docs && e2 == Seq::<IframeEffect>::empty()
    } else {
        exists|plan: IframePlan|
            plan_for(docs, p, n, initial, plan) && (d2, e2) == apply_plan_spec(
                docs,
                p,
                n,
                keyed_get(docs[doc_index(docs, p)].containers, n),
                plan,
            )
    }
}

impl ContentRuntime {
    fn apply_iframe_plan(&mut self, i: usize, p: u64, n: usize, plan: IframePlan, previous: Option<(bool, u64, u64)>) -> (effects: Vec<IframeEffect>)
        requires
            i < old(self).documents@.len(),
            doc_index(docs_view(old(self).documents@), p) == i,
            match keyed_get(docs_view(old(self).documents@)[i as int].containers, n) {
                Some(st) => previous == Some((st.cross_origin, st.content_navigable_id, st.content_frame_id)),
                None => previous is None,
            },
            (plan is InitialAboutBlank || plan is Navigate) ==> previous is Some,
        ensures
            (docs_view(final(self).documents@), effects@) == apply_plan_spec(
                docs_view(old(self).documents@),
                p,
                n,
                keyed_get(docs_view(old(self).documents@)[i as int].containers, n),
                plan,
            ),
            final(self).active_documents_by_traversable@ == old(self).active_documents_by_traversable@,
    {
        let ghost d0 = docs_view(self.documents@);
        let traversable = self.documents[i].traversable_id;
        let mut effects: Vec<IframeEffect> = Vec::new();
        match plan {
            IframePlan::Unchanged => {
                assert(effects@ =~= Seq::<IframeEffect>::empty());
                effects
            },
            IframePlan::NoContentNavigable => {
                assert(effects@ =~= Seq::<IframeEffect>::empty());
                effects
            },
            IframePlan::InitialAboutBlank { retire_previous, state } => {
                if retire_previous {
                    if let Some((cross, navigable, frame)) = previous {
                        if cross {
                            effects.push(
                                IframeEffect::RetireTraversable {
                                    parent_traversable_id: traversable,
                                    content_navigable_id: navigable,
                                    content_frame_id: frame,
                                },
                            );
                        }
                    }
                }
                let ghost e1 = effects@;
                let ghost st = state;
                self.set_container(i, n, state);
                proof {
                    lemma_doc_index_stable(d0, docs_view(self.documents@), p);
                }
                if let Some(e) = self.run_iframe_load_event_steps(p, n) {
                    effects.push(e);
                }
                proof {
                    let d1 = set_container_spec(d0, p, n, st);
                    assert(docs_view(self.documents@) == d1);
                    assert(e1 =~= if retire_previous { retire_effects(traversable, keyed_get(d0[i as int].containers, n)->0) } else { Seq::empty() });
                    assert(effects@ =~= e1 + load_effects(d1, p, n));
                }
                effects
            },
            IframePlan::Navigate { retire_previous, state, action } => {
                if retire_previous {
                    if let Some((cross, navigable, frame)) = previous {
                        if cross {
                            effects.push(
                                IframeEffect::RetireTraversable {
                                    parent_traversable_id: traversable,
                                    content_navigable_id: navigable,
                                    content_frame_id: frame,
                                },
                            );
                        }
                    }
                }
                let ghost e1 = effects@;
                let navigable = state.content_navigable_id;
                let frame = state.content_frame_id;
                let token = state.content_frame_token;
                let ghost st = state;
                self.set_container(i, n, state);
                proof {
                    lemma_doc_index_stable(d0, docs_view(self.documents@), p);
                    assert(e1 =~= if retire_previous { retire_effects(traversable, keyed_get(d0[i as int].containers, n)->0) } else { Seq::empty() });
                }
                let ghost d1 = docs_view(self.documents@);
                match action {
                    IframeAction::AttachAboutBlank => {
                        self.attach_iframe_about_blank(p, n);
                        proof {
                            lemma_doc_index_stable(d1, docs_view(self.documents@), p);
                        }
                        if let Some(e) = self.run_iframe_load_event_steps(p, n) {
                            effects.push(e);
                        }
                        proof {
                            let d2 = docs_view(self.documents@);
                            assert(effects@ =~= e1 + load_effects(d2, p, n));
                        }
                        effects
                    },
                    IframeAction::AttachSrcdoc { html } => {
                        let base = self.documents[i].creation_url.clone();
                        self.attach_iframe_subdocument_from_html(p, n, base, html);
                        proof {
                            lemma_doc_index_stable(d1, docs_view(self.documents@), p);
                        }
                        if let Some(e) = self.run_iframe_load_event_steps(p, n) {
                            effects.push(e);
                        }
                        proof {
                            let d2 = docs_view(self.documents@);
                            assert(effects@ =~= e1 + load_effects(d2, p, n));
                        }
                        effects
                    },
                    IframeAction::NavigateUrl { url, cross_origin } => {
                        if cross_origin {
                            self.attach_cross_origin_iframe(p, n, token);
                        }
                        effects.push(
                            IframeEffect::Navigate {
                                content_navigable_id: navigable,
                                parent_traversable_id: traversable,
                                content_frame_id: frame,
                                url,
                            },
                        );
                        effects
                    },
                }
            },
        }
    }

    /// Allocates the state of an iframe's content navigable, where it has
    /// none, with the fresh identifiers; an error where the document is not
    /// hosted.
    pub fn allocate_child_navigable_state(&mut self, parent_document_id: u64, iframe_node_id: usize, ids: ChildNavigableIds) -> (r: Result<Vec<IframeEffect>, String>)
        ensures
            final(self).active_documents_by_traversable@ == old(self).active_documents_by_traversable@,
            doc_index(docs_view(old(self).documents@), parent_document_id) < 0 ==> (r matches Err(e)
                && e@ == "allocate_child_navigable_state: parent document "@ + crate::text::decimal_string(
                parent_document_id as nat,
            ) + " not found"@ && final(self).documents@ == old(self).documents@),
            doc_index(docs_view(old(self).documents@), parent_document_id) >= 0 ==> (r matches Ok(e1)
                && allocation_spec(
                docs_view(old(self).documents@),
                parent_document_id,
                iframe_node_id,
                ids,
                docs_view(final(self).documents@),
                e1@,
            )),
    {
        let i = match self.document_position(parent_document_id) {
            Some(i) => i,
            None => {
                let id = crate::text::u64_to_decimal(parent_document_id);
                let head = crate::text::concat_str("allocate_child_navigable_state: parent document ", id.as_str());
                return Err(crate::text::concat_str(head.as_str(), " not found"));
            },
        };
        let mut effects: Vec<IframeEffect> = Vec::new();
        if keyed_position(&self.documents[i].containers, iframe_node_id).is_some() {
            assert(effects@ =~= Seq::<IframeEffect>::empty());
            return Ok(effects);
        }
        let ghost d0 = docs_view(self.documents@);
        let st = ContainerState {
            content_navigable_id: ids.content_navigable_id,
            content_frame_id: ids.content_frame_id,
            content_frame_token: ids.content_frame_token,
            current_key: String::new(),
            cross_origin: false,
        };
        let ghost stg = st;
        let traversable = self.documents[i].traversable_id;
        self.set_container(i, iframe_node_id, st);
        effects.push(
            IframeEffect::CreateChildNavigable {
                parent_traversable_id: traversable,
                content_navigable_id: ids.content_navigable_id,
                content_frame_id: ids.content_frame_id,
            },
        );
        proof {
            assert(allocated_state(stg, ids));
            assert(docs_view(self.documents@) == set_container_spec(d0, parent_document_id, iframe_node_id, stg));
            assert(effects@ =~= seq![
                IframeEffect::CreateChildNavigable {
                    parent_traversable_id: d0[i as int].traversable_id,
                    content_navigable_id: ids.content_navigable_id,
                    content_frame_id: ids.content_frame_id,
                },
            ]);
        }
        Ok(effects)
    }

    /// Process the iframe attributes of an iframe of a hosted document (see
    /// [`processing_spec`]); where the document is not hosted, nothing
    /// changes and nothing is to be done.
    pub fn process_iframe_attributes(&mut self, parent_document_id: u64, iframe_node_id: usize, initial_insertion: bool) -> (effects: Vec<IframeEffect>)
        ensures
            final(self).active_documents_by_traversable@ == old(self).active_documents_by_traversable@,
            doc_index(docs_view(old(self).documents@), parent_document_id) < 0 ==> docs_view(final(self).documents@)
                == docs_view(old(self).documents@) && effects@.len() == 0,
            doc_index(docs_view(old(self).documents@), parent_document_id) >= 0 ==> processing_spec(
                docs_view(old(self).documents@),
                parent_document_id,
                iframe_node_id,
                initial_insertion,
                docs_view(final(self).documents@),
                effects@,
            ),
    {
        let ghost d0 = docs_view(self.documents@);
        let i = match self.document_position(parent_document_id) {
            Some(i) => i,
            None => {
                return Vec::new();
            },
        };
        let is_element = match self.documents[i].tree.get(iframe_node_id) {
            Some(nd) => match &nd.data {
                NodeData::Element { .. } => true,
                _ => false,
            },
            None => false,
        };
        if !is_element {
            let effects: Vec<IframeEffect> = Vec::new();
            assert(effects@ =~= Seq::<IframeEffect>::empty());
            return effects;
        }
        proof {
            reveal_strlit("src");
            reveal_strlit("srcdoc");
        }
        let src = self.documents[i].tree.attr_by_local_name(iframe_node_id, "src");
        let srcdoc = self.documents[i].tree.attr_by_local_name(iframe_node_id, "srcdoc");
        let src_ref: Option<&str> = match &src {
            Some(x) => Some(x.as_str()),
            None => None,
        };
        let srcdoc_ref: Option<&str> = match &srcdoc {
            Some(x) => Some(x.as_str()),
            None => None,
        };
        let k = keyed_position(&self.documents[i].containers, iframe_node_id);
        let previous_info: Option<(bool, u64, u64)> = match k {
            Some(k) => Some(
                (
                    self.documents[i].containers[k].1.cross_origin,
                    self.documents[i].containers[k].1.content_navigable_id,
                    self.documents[i].containers[k].1.content_frame_id,
                ),
            ),
            None => None,
        };
        let plan = match k {
            Some(k) => process_iframe_attributes(
                self.documents[i].creation_url.as_str(),
                src_ref,
                srcdoc_ref,
                Some(&self.documents[i].containers[k].1),
                initial_insertion,
            ),
            None => process_iframe_attributes(
                self.documents[i].creation_url.as_str(),
                src_ref,
                srcdoc_ref,
                None,
                initial_insertion,
            ),
        };
        let ghost pl = plan;
        proof {
            assert(crate::navigation::opt_view(src_ref) == crate::dom::attr_by_local_spec(d0[i as int].tree, iframe_node_id as int, "src"@));
            assert(crate::navigation::opt_view(srcdoc_ref) == crate::dom::attr_by_local_spec(d0[i as int].tree, iframe_node_id as int, "srcdoc"@));
            assert(plan_for(d0, parent_document_id, iframe_node_id, initial_insertion, pl));
        }
        let effects = self.apply_iframe_plan(i, parent_document_id, iframe_node_id, plan, previous_info);
        effects
    }

    /// The post-connection steps of an iframe: allocate its child navigable
    /// state, then process its attributes as on first insertion; an error
    /// where its document is not hosted.
    pub fn run_iframe_post_connection_steps(&mut self, parent_document_id: u64, iframe_node_id: usize, ids: ChildNavigableIds) -> (r: Result<Vec<IframeEffect>, String>)
        ensures
            final(self).active_documents_by_traversable@ == old(self).active_documents_by_traversable@,
            doc_index(docs_view(old(self).documents@), parent_document_id) < 0 ==> (r matches Err(e)
                && e@ == "allocate_child_navigable_state: parent document "@ + crate::text::decimal_string(
                parent_document_id as nat,
            ) + " not found"@ && final(self).documents@ == old(self).documents@),
            doc_index(docs_view(old(self).documents@), parent_document_id) >= 0 ==> (r matches Ok(effects)
                && {
                let n1 = allocation_len(docs_view(old(self).documents@), parent_document_id, iframe_node_id);
                &&& n1 <= effects@.len()
                &&& exists|d1: Seq<DocModel>|
                    #[trigger] allocation_spec(
                        docs_view(old(self).documents@),
                        parent_document_id,
                        iframe_node_id,
                        ids,
                        d1,
                        effects@.take(n1 as int),
                    ) && processing_spec(
                        d1,
                        parent_document_id,
                        iframe_node_id,
                        true,
                        docs_view(final(self).documents@),
                        effects@.skip(n1 as int),
                    )
            }),
    {
        let ghost d0 = docs_view(self.documents@);
        let mut effects = match self.allocate_child_navigable_state(parent_document_id, iframe_node_id, ids) {
            Ok(e) => e,
            Err(e) => {
                return Err(e);
            },
        };
        let ghost d1 = docs_view(self.documents@);
        let ghost e1 = effects@;
        proof {
            if keyed_get(d0[doc_index(d0, parent_document_id)].containers, iframe_node_id) is Some {
            } else {
                let st = choose|st: ContainerState| allocated_state(st, ids) && d1 == set_container_spec(d0, parent_document_id, iframe_node_id, st) && e1 == seq![
                    IframeEffect::CreateChildNavigable {
                        parent_traversable_id: d0[doc_index(d0, parent_document_id)].traversable_id,
                        content_navigable_id: ids.content_navigable_id,
                        content_frame_id: ids.content_frame_id,
                    },
                ];
                lemma_doc_index_stable(d0, d1, parent_document_id);
            }
        }
        let mut more = self.process_iframe_attributes(parent_document_id, iframe_node_id, true);
        let ghost e2 = more@;
        effects.append(&mut more);
        proof {
            assert(effects@.take(e1.len() as int) =~= e1);
            assert(effects@.skip(e1.len() as int) =~= e2);
            assert(allocation_spec(d0, parent_document_id, iframe_node_id, ids, d1, effects@.take(e1.len() as int)));
            assert(processing_spec(d1, parent_document_id, iframe_node_id, true, docs_view(self.documents@), effects@.skip(e1.len() as int)));
        }
        Ok(effects)
    }

    /// The iframes whose post-connection steps run when a document's nodes
    /// are connected: its connected iframes, none where it is not hosted.
    pub fn run_iframe_post_connection_steps_for_document(&self, parent_document_id: u64) -> (ids: Vec<usize>)
        ensures
            ids@ == document_iframes(docs_view(self.documents@), parent_document_id),
    {
        match self.document_position(parent_document_id) {
            Some(i) => connected_iframe_node_ids(&self.documents[i].tree),
            None => Vec::new(),
        }
    }

    /// The DOM post-connection steps of a document: those of its iframes.
    pub fn run_dom_post_connection_steps_for_document(&self, document_id: u64) -> (ids: Vec<usize>)
        ensures
            ids@ == document_iframes(docs_view(self.documents@), document_id),
    {
        self.run_iframe_post_connection_steps_for_document(document_id)
    }

    /// The removing steps of each iframe connected to a document, in tree
    /// order.
    pub fn run_iframe_removing_steps_for_document(&mut self, parent_document_id: u64) -> (effects: Vec<IframeEffect>)
        ensures
            final(self).active_documents_by_traversable@ == old(self).active_documents_by_traversable@,
            (docs_view(final(self).documents@), effects@) == removing_fold(
                docs_view(old(self).documents@),
                parent_document_id,
                document_iframes(docs_view(old(self).documents@), parent_document_id),
            ),
    {
        let ids = self.run_iframe_post_connection_steps_for_document(parent_document_id);
        let ghost d0 = docs_view(self.documents@);
        let mut effects: Vec<IframeEffect> = Vec::new();
        let mut k: usize = 0;
        while k < ids.len()
            invariant
                k <= ids@.len(),
                ids@ == document_iframes(d0, parent_document_id),
                (docs_view(self.documents@), effects@) == removing_fold(d0, parent_document_id, ids@.take(k as int)),
                self.active_documents_by_traversable@ == old(self).active_documents_by_traversable@,
            decreases ids@.len() - k,
        {
            assert(ids@.take(k + 1).drop_last() =~= ids@.take(k as int));
            let mut more = self.run_iframe_removing_steps(parent_document_id, ids[k]);
            effects.append(&mut more);
            k = k + 1;
        }
        assert(ids@.take(ids@.len() as int) =~= ids@);
        effects
    }

    /// The DOM removing steps of a document: those of its iframes.
    pub fn run_dom_removing_steps_for_document(&mut self, document_id: u64) -> (effects: Vec<IframeEffect>)
        ensures
            final(self).active_documents_by_traversable@ == old(self).active_documents_by_traversable@,
            (docs_view(final(self).documents@), effects@) == removing_fold(
                docs_view(old(self).documents@),
                document_id,
                document_iframes(docs_view(old(self).documents@), document_id),
            ),
    {
        self.run_iframe_removing_steps_for_document(document_id)
    }
}

} // verus!
