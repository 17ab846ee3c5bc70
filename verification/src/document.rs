//! The title of a document: read from and written to its title element,
//! which the caller finds in the document.
use vstd::prelude::*;
use crate::dom::{get_text_content_spec, set_text_content_spec, subtree_ids, tree_wf, DomTree};
use crate::text::{ascii_tokens, chars_of, concat_str, split_ascii_whitespace, string_from_chars};

verus! {

/// Words joined with a single space between each two.
pub open spec fn join_with_space(tokens: Seq<Seq<char>>) -> Seq<char>
    decreases tokens.len(),
{
    if tokens.len() == 0 {
        Seq::empty()
    } else if tokens.len() == 1 {
        tokens[0]
    } else {
        join_with_space(tokens.drop_last()) + " "@ + tokens.last()
    }
}

/// A string with its ASCII whitespace stripped from both ends and each run
/// of it inside collapsed to one space.
pub open spec fn strip_and_collapse_spec(s: Seq<char>) -> Seq<char> {
    join_with_space(ascii_tokens(s))
}

/// Strips and collapses ASCII whitespace.
pub fn strip_and_collapse_ascii_whitespace(s: &str) -> (out: String)
    ensures
        out@ == strip_and_collapse_spec(s@),
{
    let chars = chars_of(s);
    let tokens = split_ascii_whitespace(chars.as_slice());
    let ghost all = ascii_tokens(s@);
    let mut out = String::new();
    let mut i: usize = 0;
    proof {
        reveal_strlit(" ");
    }
    while i < tokens.len()
        invariant
            chars@ == s@,
            tokens@.len() == all.len(),
            forall|k: int| 0 <= k < tokens@.len() ==> (#[trigger] tokens@[k])@ == all[k],
            i <= tokens@.len(),
            out@ == join_with_space(all.take(i as int)),
        decreases tokens@.len() - i,
    {
        let word = string_from_chars(tokens[i].as_slice());
        assert(all.take(i + 1).drop_last() =~= all.take(i as int));
        if i == 0 {
            out = word;
        } else {
            let spaced = concat_str(out.as_str(), " ");
            out = concat_str(spaced.as_str(), word.as_str());
        }
        i = i + 1;
    }
    assert(all.take(all.len() as int) =~= all);
    out
}

/// The title of a document: the text of its title element, stripped and
/// collapsed, or empty where it has none.
pub open spec fn document_title_spec(t: Seq<Option<crate::dom::NodeModel>>, title_node: Option<usize>) -> Seq<
    char,
> {
    strip_and_collapse_spec(
        match title_node {
            Some(id) => match get_text_content_spec(t, id as int) {
                Some(v) => v,
                None => Seq::empty(),
            },
            None => Seq::empty(),
        },
    )
}

/// document.title, given the document's title element, if it has one.
pub fn title(tree: &DomTree, title_node: Option<usize>) -> (s: String)
    ensures
        s@ == document_title_spec(tree@, title_node),
{
    let value = match title_node {
        Some(id) => match tree.get_text_content(id) {
            Some(v) => v,
            None => String::new(),
        },
        None => String::new(),
    };
    strip_and_collapse_ascii_whitespace(value.as_str())
}

/// Setting document.title: the text content of the title element, where
/// there is one, becomes the given title.
pub fn set_title(tree: &mut DomTree, title_node: Option<usize>, title: &str)
    requires
        old(tree)@.len() < usize::MAX,
    ensures
        tree_wf(final(tree)@),
        final(tree)@ == match title_node {
            Some(id) => set_text_content_spec(old(tree)@, id as int, title@),
            None => old(tree)@,
        },
{
    proof {
        use_type_invariant(&*tree);
    }
    if let Some(id) = title_node {
        tree.set_text_content(id, Some(title));
    }
}

/// The nodes of the title element's subtree, the element first, in tree
/// order; none where the document has no title element.
pub fn title_subtree_node_ids(tree: &DomTree, title_node: Option<usize>) -> (ids: Vec<usize>)
    ensures
        ids@ == match title_node {
            Some(id) => subtree_ids(tree@, id, tree@.len()),
            None => Seq::<usize>::empty(),
        },
{
    match title_node {
        Some(id) => tree.subtree_node_ids(id),
        None => Vec::new(),
    }
}

} // verus!
