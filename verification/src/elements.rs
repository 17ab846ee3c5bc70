//! The `a` and `iframe` elements: the IDL attributes that reflect their
//! content attributes, and the hyperlink steps of an `a` element over its
//! attributes.
use vstd::prelude::*;
use crate::dom::{get_attribute_spec, opt_seq, tree_wf, DomTree};
use crate::html_element::set_string_attr_spec;
use crate::media::{get_reflected_string, reflected_string};
use crate::navigation::{
    anchor_activation_behavior, get_noopener, href_getter_spec, hyperlink_href, hyperlink_navigable_spec,
    hyperlink_url, hyperlink_url_spec, noopener_spec, NavigationRequest,
};

verus! {

/// An `a` element, by its node.
pub struct HTMLAnchorElement {
    pub node_id: usize,
}

impl HTMLAnchorElement {
    pub fn new(node_id: usize) -> (a: Self)
        ensures
            a.node_id == node_id,
    {
        HTMLAnchorElement { node_id }
    }

    /// The `href` content attribute, if present.
    pub fn href_attribute(&self, tree: &DomTree) -> (r: Option<String>)
        ensures
            opt_seq(r) == get_attribute_spec(tree@, self.node_id as int, "href"@),
    {
        proof {
            reveal_strlit("href");
        }
        tree.get_attribute(self.node_id, "href")
    }

    /// Whether the `download` content attribute is present.
    pub fn has_download_attribute(&self, tree: &DomTree) -> (b: bool)
        ensures
            b == (get_attribute_spec(tree@, self.node_id as int, "download"@) is Some),
    {
        proof {
            reveal_strlit("download");
        }
        tree.has_attribute(self.node_id, "download")
    }

    /// href: the URL the `href` attribute resolves to against the
    /// document's URL, serialized; the attribute's value where it does not
    /// resolve; empty without the attribute.
    pub fn href(&self, tree: &DomTree, document_creation_url: &str) -> (s: String)
        ensures
            s@ == href_getter_spec(
                document_creation_url@,
                get_attribute_spec(tree@, self.node_id as int, "href"@),
            ),
    {
        let h = self.href_attribute(tree);
        let h_ref: Option<&str> = match &h {
            Some(x) => Some(x.as_str()),
            None => None,
        };
        hyperlink_href(document_creation_url, h_ref)
    }

    /// Setting href: sets the `href` content attribute.
    pub fn set_href(&self, tree: &mut DomTree, href: &str)
        ensures
            tree_wf(final(tree)@),
            final(tree)@ == set_string_attr_spec(old(tree)@, self.node_id as int, "href"@, href@),
    {
        proof {
            use_type_invariant(&*tree);
        }
        proof {
            reveal_strlit("href");
        }
        tree.set_attribute(self.node_id, "href", href)
    }

    /// target: the `target` content attribute, or empty.
    pub fn target(&self, tree: &DomTree) -> (s: String)
        ensures
            s@ == reflected_string(tree@, self.node_id as int, "target"@),
    {
        proof {
            reveal_strlit("target");
        }
        get_reflected_string(tree, self.node_id, "target")
    }

    /// Setting target: sets the `target` content attribute.
    pub fn set_target(&self, tree: &mut DomTree, value: &str)
        ensures
            tree_wf(final(tree)@),
            final(tree)@ == set_string_attr_spec(old(tree)@, self.node_id as int, "target"@, value@),
    {
        proof {
            use_type_invariant(&*tree);
        }
        proof {
            reveal_strlit("target");
        }
        tree.set_attribute(self.node_id, "target", value)
    }

    /// download: the `download` content attribute, or empty.
    pub fn download(&self, tree: &DomTree) -> (s: String)
        ensures
            s@ == reflected_string(tree@, self.node_id as int, "download"@),
    {
        proof {
            reveal_strlit("download");
        }
        get_reflected_string(tree, self.node_id, "download")
    }

    /// Setting download: sets the `download` content attribute.
    pub fn set_download(&self, tree: &mut DomTree, value: &str)
        ensures
            tree_wf(final(tree)@),
            final(tree)@ == set_string_attr_spec(old(tree)@, self.node_id as int, "download"@, value@),
    {
        proof {
            use_type_invariant(&*tree);
        }
        proof {
            reveal_strlit("download");
        }
        tree.set_attribute(self.node_id, "download", value)
    }

    /// rel: the `rel` content attribute, or empty.
    pub fn rel(&self, tree: &DomTree) -> (s: String)
        ensures
            s@ == reflected_string(tree@, self.node_id as int, "rel"@),
    {
        proof {
            reveal_strlit("rel");
        }
        get_reflected_string(tree, self.node_id, "rel")
    }

    /// Setting rel: sets the `rel` content attribute.
    pub fn set_rel(&self, tree: &mut DomTree, value: &str)
        ensures
            tree_wf(final(tree)@),
            final(tree)@ == set_string_attr_spec(old(tree)@, self.node_id as int, "rel"@, value@),
    {
        proof {
            use_type_invariant(&*tree);
        }
        proof {
            reveal_strlit("rel");
        }
        tree.set_attribute(self.node_id, "rel", value)
    }

    /// referrer_policy: the `referrerpolicy` content attribute, or empty.
    pub fn referrer_policy(&self, tree: &DomTree) -> (s: String)
        ensures
            s@ == reflected_string(tree@, self.node_id as int, "referrerpolicy"@),
    {
        proof {
            reveal_strlit("referrerpolicy");
        }
        get_reflected_string(tree, self.node_id, "referrerpolicy")
    }

    /// Setting referrer_policy: sets the `referrerpolicy` content attribute.
    pub fn set_referrer_policy(&self, tree: &mut DomTree, value: &str)
        ensures
            tree_wf(final(tree)@),
            final(tree)@ == set_string_attr_spec(old(tree)@, self.node_id as int, "referrerpolicy"@, value@),
    {
        proof {
            use_type_invariant(&*tree);
        }
        proof {
            reveal_strlit("referrerpolicy");
        }
        tree.set_attribute(self.node_id, "referrerpolicy", value)
    }

    /// Get an element's noopener, from its `rel` and `target` attributes.
    pub fn noopener(&self, tree: &DomTree) -> (b: bool)
        ensures
            b == noopener_spec(
                reflected_string(tree@, self.node_id as int, "rel"@),
                reflected_string(tree@, self.node_id as int, "target"@),
            ),
    {
        let rel = self.rel(tree);
        let target = self.target(tree);
        get_noopener(rel.as_str(), target.as_str())
    }

    /// Set the url: the `href` attribute resolved against the document's
    /// URL, if it is present and resolves.
    pub fn set_the_url(&self, tree: &DomTree, document_creation_url: &str) -> (r: Option<String>)
        ensures
            opt_seq(r) == hyperlink_url_spec(
                document_creation_url@,
                get_attribute_spec(tree@, self.node_id as int, "href"@),
            ),
    {
        let h = self.href_attribute(tree);
        let h_ref: Option<&str> = match &h {
            Some(x) => Some(x.as_str()),
            None => None,
        };
        hyperlink_url(document_creation_url, h_ref)
    }

    /// Follow the hyperlink: the URL to navigate to, if there is one.
    pub fn follow_hyperlink(&self, tree: &DomTree, document_creation_url: &str) -> (r: Option<String>)
        ensures
            opt_seq(r) == hyperlink_url_spec(
                document_creation_url@,
                get_attribute_spec(tree@, self.node_id as int, "href"@),
            ),
    {
        self.set_the_url(tree, document_creation_url)
    }

    /// Update href: the `href` content attribute takes the URL.
    pub fn update_href(&self, tree: &mut DomTree, url: &str)
        ensures
            tree_wf(final(tree)@),
            final(tree)@ == set_string_attr_spec(old(tree)@, self.node_id as int, "href"@, url@),
    {
        proof {
            use_type_invariant(&*tree);
        }
        self.set_href(tree, url)
    }

    /// The activation behavior: nothing without `href`, with a `download`
    /// attribute, or where the URL does not resolve; otherwise a navigation
    /// request to the resolved URL, with the element's target and noopener
    /// and the navigable chosen for them.
    pub fn activation_behavior(
        &self,
        tree: &DomTree,
        source_navigable_id: u64,
        parent_navigable_id: Option<u64>,
        top_level_navigable_id: u64,
        document_creation_url: &str,
    ) -> (r: Option<NavigationRequest>)
        ensures
            ({
                let href = get_attribute_spec(tree@, self.node_id as int, "href"@);
                let has_download = get_attribute_spec(tree@, self.node_id as int, "download"@) is Some;
                let target = reflected_string(tree@, self.node_id as int, "target"@);
                let rel = reflected_string(tree@, self.node_id as int, "rel"@);
                match r {
                    None => href is None || has_download || hyperlink_url_spec(document_creation_url@, href) is None,
                    Some(req) => {
                        &&& href is Some && !has_download
                        &&& hyperlink_url_spec(document_creation_url@, href) == Some(req.destination_url@)
                        &&& req.target@ == target
                        &&& req.noopener == noopener_spec(rel, target)
                        &&& req.chosen_navigable_id == hyperlink_navigable_spec(
                            source_navigable_id,
                            parent_navigable_id,
                            top_level_navigable_id,
                            target,
                            req.noopener,
                        )
                    },
                }
            }),
    {
        let h = self.href_attribute(tree);
        let h_ref: Option<&str> = match &h {
            Some(x) => Some(x.as_str()),
            None => None,
        };
        let has_download = self.has_download_attribute(tree);
        let target = self.target(tree);
        let rel = self.rel(tree);
        anchor_activation_behavior(
            source_navigable_id,
            parent_navigable_id,
            top_level_navigable_id,
            document_creation_url,
            h_ref,
            has_download,
            target.as_str(),
            rel.as_str(),
        )
    }
}

/// An `iframe` element, by its node.
pub struct HTMLIFrameElement {
    pub node_id: usize,
}

impl HTMLIFrameElement {
    pub fn new(node_id: usize) -> (e: Self)
        ensures
            e.node_id == node_id,
    {
        HTMLIFrameElement { node_id }
    }

    /// src: the `src` content attribute, or empty.
    pub fn src(&self, tree: &DomTree) -> (s: String)
        ensures
            s@ == reflected_string(tree@, self.node_id as int, "src"@),
    {
        proof {
            reveal_strlit("src");
        }
        get_reflected_string(tree, self.node_id, "src")
    }

    /// Setting src: sets the `src` content attribute.
    pub fn set_src(&self, tree: &mut DomTree, value: &str)
        ensures
            tree_wf(final(tree)@),
            final(tree)@ == set_string_attr_spec(old(tree)@, self.node_id as int, "src"@, value@),
    {
        proof {
            use_type_invariant(&*tree);
        }
        proof {
            reveal_strlit("src");
        }
        tree.set_attribute(self.node_id, "src", value)
    }

    /// srcdoc: the `srcdoc` content attribute, or empty.
    pub fn srcdoc(&self, tree: &DomTree) -> (s: String)
        ensures
            s@ == reflected_string(tree@, self.node_id as int, "srcdoc"@),
    {
        proof {
            reveal_strlit("srcdoc");
        }
        get_reflected_string(tree, self.node_id, "srcdoc")
    }

    /// Setting srcdoc: sets the `srcdoc` content attribute.
    pub fn set_srcdoc(&self, tree: &mut DomTree, value: &str)
        ensures
            tree_wf(final(tree)@),
            final(tree)@ == set_string_attr_spec(old(tree)@, self.node_id as int, "srcdoc"@, value@),
    {
        proof {
            use_type_invariant(&*tree);
        }
        proof {
            reveal_strlit("srcdoc");
        }
        tree.set_attribute(self.node_id, "srcdoc", value)
    }

    /// name: the `name` content attribute, or empty.
    pub fn name(&self, tree: &DomTree) -> (s: String)
        ensures
            s@ == reflected_string(tree@, self.node_id as int, "name"@),
    {
        proof {
            reveal_strlit("name");
        }
        get_reflected_string(tree, self.node_id, "name")
    }

    /// Setting name: sets the `name` content attribute.
    pub fn set_name(&self, tree: &mut DomTree, value: &str)
        ensures
            tree_wf(final(tree)@),
            final(tree)@ == set_string_attr_spec(old(tree)@, self.node_id as int, "name"@, value@),
    {
        proof {
            use_type_invariant(&*tree);
        }
        proof {
            reveal_strlit("name");
        }
        tree.set_attribute(self.node_id, "name", value)
    }

    /// width: the `width` content attribute, or empty.
    pub fn width(&self, tree: &DomTree) -> (s: String)
        ensures
            s@ == reflected_string(tree@, self.node_id as int, "width"@),
    {
        proof {
            reveal_strlit("width");
        }
        get_reflected_string(tree, self.node_id, "width")
    }

    /// Setting width: sets the `width` content attribute.
    pub fn set_width(&self, tree: &mut DomTree, value: &str)
        ensures
            tree_wf(final(tree)@),
            final(tree)@ == set_string_attr_spec(old(tree)@, self.node_id as int, "width"@, value@),
    {
        proof {
            use_type_invariant(&*tree);
        }
        proof {
            reveal_strlit("width");
        }
        tree.set_attribute(self.node_id, "width", value)
    }

    /// height: the `height` content attribute, or empty.
    pub fn height(&self, tree: &DomTree) -> (s: String)
        ensures
            s@ == reflected_string(tree@, self.node_id as int, "height"@),
    {
        proof {
            reveal_strlit("height");
        }
        get_reflected_string(tree, self.node_id, "height")
    }

    /// Setting height: sets the `height` content attribute.
    pub fn set_height(&self, tree: &mut DomTree, value: &str)
        ensures
            tree_wf(final(tree)@),
            final(tree)@ == set_string_attr_spec(old(tree)@, self.node_id as int, "height"@, value@),
    {
        proof {
            use_type_invariant(&*tree);
        }
        proof {
            reveal_strlit("height");
        }
        tree.set_attribute(self.node_id, "height", value)
    }
}

} // verus!
