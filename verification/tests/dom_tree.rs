use content::document::{set_title, strip_and_collapse_ascii_whitespace, title, title_subtree_node_ids};
use content::dom::DomTree;

/// document > html > body > p > "hi"
fn small_document() -> (DomTree, usize, usize, usize, usize) {
    let mut tree = DomTree::new();
    let html = tree.create_element("html");
    let body = tree.create_element("body");
    let p = tree.create_element("p");
    let text = tree.create_text_node("hi");
    assert_eq!(tree.append_child(0, html).unwrap(), html);
    assert_eq!(tree.append_child(html, body).unwrap(), body);
    assert_eq!(tree.append_child(body, p).unwrap(), p);
    assert_eq!(tree.append_child(p, text).unwrap(), text);
    (tree, html, body, p, text)
}

#[test]
fn appended_child_is_last() {
    let (mut tree, _html, body, p, _text) = small_document();
    let q = tree.create_element("q");
    tree.append_child(body, q).unwrap();
    assert_eq!(tree.child_node_ids(body), vec![p, q]);
    assert_eq!(tree.last_child(body), Some(q));
    assert_eq!(tree.first_child(body), Some(p));
    assert_eq!(tree.next_sibling(p), Some(q));
    assert_eq!(tree.previous_sibling(q), Some(p));
    assert_eq!(tree.parent_node(q), Some(body));
    assert!(tree.is_connected(q));
}

#[test]
fn insert_before_places_before_the_reference() {
    let (mut tree, _html, body, p, _text) = small_document();
    let h1 = tree.create_element("h1");
    assert_eq!(tree.insert_before(body, h1, Some(p)).unwrap(), h1);
    assert_eq!(tree.child_node_ids(body), vec![h1, p]);
}

#[test]
fn pre_insertion_errors() {
    let (mut tree, html, body, p, text) = small_document();
    let second = tree.create_element("html");
    let e = tree.append_child(0, second).unwrap_err();
    assert_eq!(e.name_value(), "HierarchyRequestError");
    let e = tree.append_child(p, html).unwrap_err();
    assert_eq!(e.name_value(), "HierarchyRequestError");
    let e = tree.append_child(text, second).unwrap_err();
    assert_eq!(e.name_value(), "HierarchyRequestError");
    let stray = tree.create_element("span");
    let e = tree.insert_before(p, stray, Some(body)).unwrap_err();
    assert_eq!(e.name_value(), "NotFoundError");
    let loose_text = tree.create_text_node("x");
    let e = tree.append_child(0, loose_text).unwrap_err();
    assert_eq!(e.name_value(), "HierarchyRequestError");
    assert_eq!(tree.child_node_ids(0), vec![html]);
}

#[test]
fn removed_node_is_detached() {
    let (mut tree, _html, body, p, text) = small_document();
    tree.remove(p);
    assert_eq!(tree.parent_node(p), None);
    assert!(tree.child_node_ids(body).is_empty());
    assert!(!tree.is_connected(p));
    assert!(!tree.is_connected(text));
    assert_eq!(tree.parent_node(text), Some(p));
}

#[test]
fn remove_child_requires_a_child() {
    let (mut tree, html, body, p, _text) = small_document();
    assert!(tree.remove_child(html, p).is_err());
    assert_eq!(tree.parent_node(p), Some(body));
    assert!(tree.remove_child(body, p).is_ok());
    assert_eq!(tree.parent_node(p), None);
}

#[test]
fn text_content_round_trip() {
    let (mut tree, html, body, p, text) = small_document();
    assert_eq!(tree.get_text_content(p), Some(String::from("hi")));
    assert_eq!(tree.get_text_content(text), Some(String::from("hi")));
    assert_eq!(tree.get_text_content(0), None);
    tree.set_text_content(body, Some("replaced"));
    assert_eq!(tree.get_text_content(body), Some(String::from("replaced")));
    assert_eq!(tree.get_text_content(html), Some(String::from("replaced")));
    assert_eq!(tree.parent_node(p), None);
    tree.set_text_content(body, None);
    assert_eq!(tree.get_text_content(body), Some(String::new()));
    assert!(!tree.has_child_nodes(body));
}

#[test]
fn attributes_set_get_remove() {
    let (mut tree, _html, _body, p, _text) = small_document();
    tree.set_attribute(p, "ID", "main");
    assert_eq!(tree.get_attribute(p, "id"), Some(String::from("main")));
    assert!(tree.has_attribute(p, "Id"));
    assert_eq!(tree.element_id(p), "main");
    tree.set_attribute(p, "id", "other");
    assert_eq!(tree.get_attribute(p, "id"), Some(String::from("other")));
    tree.remove_attribute(p, "id");
    assert_eq!(tree.get_attribute(p, "id"), None);
    assert_eq!(tree.element_id(p), "");
}

#[test]
fn node_names_and_types() {
    let (mut tree, html, _body, _p, text) = small_document();
    let comment = tree.create_comment();
    assert_eq!(tree.node_name(html), "HTML");
    assert_eq!(tree.tag_name(html), "HTML");
    assert_eq!(tree.node_name(text), "#text");
    assert_eq!(tree.node_name(0), "#document");
    assert_eq!(tree.node_type(html), 1);
    assert_eq!(tree.node_type(text), 3);
    assert_eq!(tree.node_type(comment), 8);
    assert_eq!(tree.node_type(0), 9);
    assert_eq!(tree.node_value(text), Some(String::from("hi")));
    assert_eq!(tree.node_value(html), None);
}

#[test]
fn create_element_ns_accepts_only_html() {
    let mut tree = DomTree::new();
    assert!(tree.create_element_ns(None, "div").is_ok());
    assert!(tree.create_element_ns(Some("http://www.w3.org/1999/xhtml"), "div").is_ok());
    assert!(tree.create_element_ns(Some("http://www.w3.org/2000/svg"), "svg").is_err());
}

#[test]
fn insert_adjacent_text_positions() {
    let (mut tree, html, body, p, text) = small_document();
    assert_eq!(
        tree.insert_adjacent_text(html, "beforebegin", "x").unwrap_err().name_value(),
        "HierarchyRequestError"
    );
    assert_eq!(
        tree.insert_adjacent_text(p, "sideways", "x").unwrap_err().name_value(),
        "SyntaxError"
    );
    tree.insert_adjacent_text(p, "afterbegin", "A").unwrap();
    tree.insert_adjacent_text(p, "beforeend", "Z").unwrap();
    assert_eq!(tree.get_text_content(p), Some(String::from("AhiZ")));
    assert_eq!(tree.child_node_ids(p)[1], text);
    tree.insert_adjacent_text(p, "afterend", "!").unwrap();
    assert_eq!(tree.child_node_ids(body).len(), 2);
    assert_eq!(tree.get_text_content(body), Some(String::from("AhiZ!")));
}

#[test]
fn document_dir_is_canonical() {
    let (mut tree, html, _body, _p, _text) = small_document();
    assert_eq!(tree.document_element(), Some(html));
    assert_eq!(tree.dir(), "");
    tree.set_dir("RTL");
    assert_eq!(tree.dir(), "rtl");
    tree.set_dir("sideways");
    assert_eq!(tree.dir(), "");
}

#[test]
fn ancestry() {
    let (tree, html, body, p, text) = small_document();
    assert!(tree.is_inclusive_ancestor(html, text));
    assert!(tree.is_inclusive_ancestor(p, p));
    assert!(!tree.is_inclusive_ancestor(p, body));
    assert_eq!(tree.subtree_node_ids(body), vec![body, p, text]);
    assert_eq!(tree.child_subtree_node_ids(body), vec![p, text]);
    assert!(tree.document_has_element_child(0));
}

#[test]
fn document_title_collapses_whitespace() {
    let (mut tree, html, _body, _p, _text) = small_document();
    let title_el = tree.create_element("title");
    tree.append_child(html, title_el).unwrap();
    set_title(&mut tree, Some(title_el), "  Hello \n  world  ");
    assert_eq!(title(&tree, Some(title_el)), "Hello world");
    assert_eq!(title(&tree, None), "");
    assert_eq!(title_subtree_node_ids(&tree, Some(title_el)).len(), 2);
    assert!(title_subtree_node_ids(&tree, None).is_empty());
    assert_eq!(strip_and_collapse_ascii_whitespace("\t a  b \r"), "a b");
}

#[test]
fn the_tree_never_gains_a_cycle() {
    let (mut tree, html, body, p, text) = small_document();
    assert_eq!(tree.append_child(p, body).unwrap_err().name_value(), "HierarchyRequestError");
    assert_eq!(tree.insert_before(p, html, None).unwrap_err().name_value(), "HierarchyRequestError");
    assert_eq!(tree.append_child(p, p).unwrap_err().name_value(), "HierarchyRequestError");
    tree.set_text_content(body, Some("x"));
    tree.insert_adjacent_text(html, "afterbegin", "y").unwrap();
    for node in [html, body, text] {
        assert!(tree.is_inclusive_ancestor(0, node) || tree.parent_node(node).is_none());
        assert!(!tree.is_inclusive_ancestor(node, 0));
    }
    assert_eq!(tree.parent_node(p), None);
}

#[test]
fn set_attribute_changes_the_first_attribute_of_that_name() {
    let (mut tree, _html, _body, p, _text) = small_document();
    tree.set_attribute_ns(p, Some("urn:a"), "p:q", "1");
    tree.set_attribute(p, "p:q", "2");
    assert_eq!(tree.get_attribute(p, "p:q"), Some(String::from("2")));
}

#[test]
fn insert_adjacent_text_positions_ignore_ascii_case() {
    let (mut tree, _html, _body, p, _text) = small_document();
    tree.insert_adjacent_text(p, "BeforeEnd", "!").unwrap();
    tree.insert_adjacent_text(p, "AFTERBEGIN", "<").unwrap();
    assert_eq!(tree.get_text_content(p), Some(String::from("<hi!")));
}
