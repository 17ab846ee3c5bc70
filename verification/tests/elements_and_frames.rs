use content::dom::DomTree;
use content::elements::{HTMLAnchorElement, HTMLIFrameElement};
use content::html_element::{
    default_display_for_tag_name, inline_style_properties_for_element, parse_inline_style,
    resolved_style_properties_for_element, value_to_string, BoxMetricsText, HTMLElement,
    HTMLInputElement,
};
use content::iframe_runtime::{
    connected_iframe_node_ids, ChildNavigableIds, ContentDocument, ContentRuntime, IframeEffect,
    SubDocument,
};
use content::style_map::StyleProperties;

const DOC: &str = "https://example.com/index.html";

fn element_in_body(tag: &str) -> (DomTree, usize) {
    let mut tree = DomTree::new();
    let html = tree.create_element("html");
    let body = tree.create_element("body");
    let el = tree.create_element(tag);
    tree.append_child(0, html).unwrap();
    tree.append_child(html, body).unwrap();
    tree.append_child(body, el).unwrap();
    (tree, el)
}

#[test]
fn anchor_href_and_activation() {
    let (mut tree, a) = element_in_body("a");
    let anchor = HTMLAnchorElement::new(a);
    assert_eq!(anchor.href(&tree, DOC), "");
    anchor.set_href(&mut tree, "page2.html");
    assert_eq!(anchor.href_attribute(&tree), Some(String::from("page2.html")));
    assert_eq!(anchor.href(&tree, DOC), "https://example.com/page2.html");
    assert_eq!(anchor.set_the_url(&tree, DOC), Some(String::from("https://example.com/page2.html")));
    anchor.set_target(&mut tree, "_top");
    let req = anchor.activation_behavior(&tree, 3, Some(2), 1, DOC).unwrap();
    assert_eq!(req.destination_url, "https://example.com/page2.html");
    assert_eq!(req.chosen_navigable_id, Some(1));
    anchor.set_rel(&mut tree, "noreferrer");
    assert!(anchor.noopener(&tree));
    anchor.set_download(&mut tree, "file.txt");
    assert!(anchor.has_download_attribute(&tree));
    assert!(anchor.activation_behavior(&tree, 3, Some(2), 1, DOC).is_none());
    anchor.set_referrer_policy(&mut tree, "no-referrer");
    assert_eq!(anchor.referrer_policy(&tree), "no-referrer");
}

#[test]
fn iframe_reflected_attributes() {
    let (mut tree, f) = element_in_body("iframe");
    let iframe = HTMLIFrameElement::new(f);
    iframe.set_src(&mut tree, "a.html");
    iframe.set_srcdoc(&mut tree, "<p>x</p>");
    iframe.set_name(&mut tree, "frame1");
    iframe.set_width(&mut tree, "100");
    assert_eq!(iframe.src(&tree), "a.html");
    assert_eq!(iframe.srcdoc(&tree), "<p>x</p>");
    assert_eq!(iframe.name(&tree), "frame1");
    assert_eq!(iframe.width(&tree), "100");
    assert_eq!(iframe.height(&tree), "");
}

#[test]
fn html_element_reflection() {
    let (mut tree, d) = element_in_body("div");
    let el = HTMLElement::new(d);
    assert_eq!(el.title(&tree), "");
    el.set_title(&mut tree, "tip");
    el.set_lang(&mut tree, "en");
    el.set_dir(&mut tree, "rtl");
    assert_eq!((el.title(&tree), el.lang(&tree), el.dir(&tree)), (String::from("tip"), String::from("en"), String::from("rtl")));
    assert!(!el.hidden(&tree));
    el.set_hidden(&mut tree, true);
    assert!(el.hidden(&tree));
    el.set_hidden(&mut tree, false);
    assert!(!el.hidden(&tree));
}

#[test]
fn default_display() {
    assert_eq!(default_display_for_tag_name("DIV"), "block");
    assert_eq!(default_display_for_tag_name("BUTTON"), "inline-block");
    assert_eq!(default_display_for_tag_name("SPAN"), "inline");
    assert_eq!(default_display_for_tag_name("div"), "inline");
}

#[test]
fn inline_style_declarations() {
    let props = parse_inline_style(" Color : red ; ; bad ; :x; width: 10px; color: blue");
    assert_eq!(props.get("color"), Some(String::from("blue")));
    assert_eq!(props.get("width"), Some(String::from("10px")));
    assert!(!props.contains_key("bad"));
    assert_eq!(props.entries().len(), 2);
    let (mut tree, d) = element_in_body("div");
    assert!(inline_style_properties_for_element(&tree, d).entries().is_empty());
    tree.set_attribute(d, "style", "display: flex");
    assert_eq!(inline_style_properties_for_element(&tree, d).get("display"), Some(String::from("flex")));
}

fn metrics() -> BoxMetricsText {
    let px = |s: &str| String::from(s);
    BoxMetricsText {
        border_top: px("1px"),
        border_right: px("2px"),
        border_bottom: px("3px"),
        border_left: px("4px"),
        padding_top: px("5px"),
        padding_right: px("6px"),
        padding_bottom: px("7px"),
        padding_left: px("8px"),
    }
}

#[test]
fn resolved_style_fills_defaults() {
    let (mut tree, d) = element_in_body("div");
    tree.set_attribute(d, "style", "overflow: hidden; padding-top: 9px");
    let props = resolved_style_properties_for_element(&tree, d, &metrics());
    assert_eq!(props.get("display"), Some(String::from("block")));
    assert_eq!(props.get("overflow-x"), Some(String::from("hidden")));
    assert_eq!(props.get("opacity"), Some(String::from("1")));
    assert_eq!(props.get("padding-top"), Some(String::from("9px")));
    assert_eq!(props.get("border-left-width"), Some(String::from("4px")));
    assert_eq!(props.get("margin-top"), Some(String::from("0px")));
    tree.set_attribute(d, "hidden", "");
    let hidden = resolved_style_properties_for_element(&tree, d, &metrics());
    assert_eq!(hidden.get("display"), Some(String::from("none")));
}

#[test]
fn style_properties_map() {
    let mut props = StyleProperties::new();
    props.insert("a", "1");
    props.insert_if_absent("a", "2");
    props.insert_if_absent("b", "3");
    props.insert("a", "4");
    assert_eq!(props.get("a"), Some(String::from("4")));
    assert_eq!(props.get("b"), Some(String::from("3")));
    assert!(props.contains_key("b"));
    assert!(!props.contains_key("c"));
}

#[test]
fn input_values_are_sanitized() {
    assert_eq!(value_to_string("a\nb\r\nc"), "abc");
    let (mut tree, i) = element_in_body("input");
    let input = HTMLInputElement::new(i);
    input.set_value(&mut tree, "line\none");
    assert_eq!(input.value(&tree, None), "lineone");
    assert_eq!(input.value(&tree, Some("typed")), "typed");
    input.set_value(&mut tree, "");
    assert_eq!(tree.get_attribute(i, "value"), None);
}

fn runtime_with_iframe(src: Option<&str>) -> (ContentRuntime, usize) {
    let (mut tree, f) = element_in_body("iframe");
    if let Some(s) = src {
        tree.set_attribute(f, "src", s);
    }
    let document = ContentDocument {
        document_id: 1,
        traversable_id: 100,
        frame_id: 200,
        creation_url: String::from(DOC),
        tree,
        embeddings: Vec::new(),
        containers: Vec::new(),
    };
    let runtime = ContentRuntime { documents: vec![document], active_documents_by_traversable: Vec::new() };
    (runtime, f)
}

fn ids() -> ChildNavigableIds {
    ChildNavigableIds { content_navigable_id: 10, content_frame_id: 11, content_frame_token: 12 }
}

#[test]
fn connected_iframes_are_found_in_tree_order() {
    let (runtime, f) = runtime_with_iframe(None);
    assert_eq!(connected_iframe_node_ids(&runtime.documents[0].tree), vec![f]);
    assert_eq!(runtime.run_iframe_post_connection_steps_for_document(1), vec![f]);
    assert_eq!(runtime.run_dom_post_connection_steps_for_document(1), vec![f]);
    assert!(runtime.run_iframe_post_connection_steps_for_document(9).is_empty());
}

#[test]
fn processing_attributes_in_a_document_not_hosted_does_nothing() {
    let (mut runtime, f) = runtime_with_iframe(Some("https://example.org/frame"));
    assert!(runtime.process_iframe_attributes(9, f, true).is_empty());
    assert!(runtime.documents[0].containers.is_empty());
    assert_eq!(runtime.documents.len(), 1);
}

#[test]
fn an_iframe_without_src_keeps_about_blank_and_loads() {
    let (mut runtime, f) = runtime_with_iframe(None);
    let effects = runtime.run_iframe_post_connection_steps(1, f, ids()).unwrap();
    assert_eq!(effects.len(), 2);
    assert!(matches!(effects[0], IframeEffect::CreateChildNavigable {
        parent_traversable_id: 100, content_navigable_id: 10, content_frame_id: 11 }));
    assert!(matches!(effects[1], IframeEffect::FireLoad { document_id: 1, iframe_node_id } if iframe_node_id == f));
    assert_eq!(runtime.documents[0].containers.len(), 1);
    assert_eq!(runtime.documents[0].containers[0].1.current_key, "about:blank");
    let again = runtime.run_iframe_post_connection_steps(1, f, ids()).unwrap();
    assert!(again.is_empty());
    assert!(runtime.run_iframe_removing_steps(1, f).is_empty());
    assert!(runtime.documents[0].containers.is_empty());
}

#[test]
fn a_same_origin_src_is_navigated_to() {
    let (mut runtime, f) = runtime_with_iframe(Some("child.html"));
    let effects = runtime.run_iframe_post_connection_steps(1, f, ids()).unwrap();
    assert_eq!(effects.len(), 2);
    match &effects[1] {
        IframeEffect::Navigate { content_navigable_id, parent_traversable_id, content_frame_id, url } => {
            assert_eq!((*content_navigable_id, *parent_traversable_id, *content_frame_id), (10, 100, 11));
            assert_eq!(url, "https://example.com/child.html");
        }
        _ => panic!("expected a navigation"),
    }
}

#[test]
fn a_cross_origin_frame_is_retired_on_removal() {
    let (mut runtime, f) = runtime_with_iframe(Some("https://other.org/"));
    runtime.run_iframe_post_connection_steps(1, f, ids()).unwrap();
    assert_eq!(runtime.documents[0].embeddings[0].1.cross_origin_frame, Some(12));
    let effects = runtime.run_iframe_removing_steps(1, f);
    assert_eq!(effects.len(), 1);
    assert!(matches!(effects[0], IframeEffect::RetireTraversable {
        parent_traversable_id: 100, content_navigable_id: 10, content_frame_id: 11 }));
    assert!(runtime.documents[0].embeddings[0].1.cross_origin_frame.is_none());
}

#[test]
fn srcdoc_attaches_a_subdocument() {
    let (mut runtime, f) = runtime_with_iframe(None);
    runtime.documents[0].tree.set_attribute(f, "srcdoc", "<b>hi</b>");
    let effects = runtime.run_iframe_post_connection_steps(1, f, ids()).unwrap();
    assert!(matches!(effects[1], IframeEffect::FireLoad { .. }));
    match &runtime.documents[0].embeddings[0].1.sub_document {
        Some(SubDocument::Srcdoc { base_url, html }) => {
            assert_eq!(base_url, DOC);
            assert_eq!(html, "<b>hi</b>");
        }
        _ => panic!("expected a srcdoc document"),
    }
    assert!(runtime.run_iframe_post_connection_steps(5, f, ids()).is_err());
    assert!(runtime.run_iframe_load_event_steps(1, f).is_some());
    assert!(runtime.run_iframe_load_event_steps(1, 999).is_none());
}
