use content::navigation::{
    anchor_activation_behavior, choose_navigable_for_hyperlink_activation, get_noopener,
    hyperlink_href, hyperlink_url, iframe_navigation_target_for_attributes, matches_about_blank,
    process_iframe_attributes, the_rules_for_choosing_a_navigable, ContainerState, IframeAction,
    IframePlan, IframeTarget, NavigableChoice,
};
use content::settings::{auxiliary_creator_origin, settings_origin, Origin, VideoPaintRegistry};

const DOC: &str = "https://example.com/dir/page.html";

#[test]
fn reserved_target_names_pick_existing_navigables() {
    assert_eq!(
        the_rules_for_choosing_a_navigable(5, Some(3), 1, "", false, true),
        NavigableChoice::Existing { navigable: 5 }
    );
    assert_eq!(
        the_rules_for_choosing_a_navigable(5, Some(3), 1, "_SELF", false, true),
        NavigableChoice::Existing { navigable: 5 }
    );
    assert_eq!(
        the_rules_for_choosing_a_navigable(5, Some(3), 1, "_parent", false, true),
        NavigableChoice::Existing { navigable: 3 }
    );
    assert_eq!(
        the_rules_for_choosing_a_navigable(5, None, 1, "_parent", false, true),
        NavigableChoice::Existing { navigable: 5 }
    );
    assert_eq!(
        the_rules_for_choosing_a_navigable(5, Some(3), 1, "_Top", false, true),
        NavigableChoice::Existing { navigable: 1 }
    );
}

#[test]
fn other_target_names_create_or_delegate() {
    assert_eq!(
        the_rules_for_choosing_a_navigable(5, None, 1, "_blank", false, true),
        NavigableChoice::CreateAuxiliary
    );
    assert_eq!(
        the_rules_for_choosing_a_navigable(5, None, 1, "_blank", true, true),
        NavigableChoice::DelegateToUserAgent
    );
    assert_eq!(
        the_rules_for_choosing_a_navigable(5, None, 1, "named", false, false),
        NavigableChoice::DelegateToUserAgent
    );
}

#[test]
fn hyperlink_choice_agrees_with_the_rules_on_concrete_names() {
    for name in ["", "_self", "_parent", "_top", "_blank", "other"] {
        let rules = the_rules_for_choosing_a_navigable(7, Some(2), 1, name, false, true);
        let link = choose_navigable_for_hyperlink_activation(7, Some(2), 1, name, false);
        match rules {
            NavigableChoice::Existing { navigable } => assert_eq!(link, Some(navigable)),
            _ => assert_eq!(link, None),
        }
    }
    for noopener in [false, true] {
        for name in ["", "_self", "_parent", "_top", "_blank", "other"] {
            let rules = the_rules_for_choosing_a_navigable(7, Some(2), 1, name, noopener, true);
            let link = choose_navigable_for_hyperlink_activation(7, Some(2), 1, name, noopener);
            match rules {
                NavigableChoice::Existing { navigable } => assert_eq!(link, Some(navigable)),
                _ => assert_eq!(link, None),
            }
        }
    }
    assert_eq!(choose_navigable_for_hyperlink_activation(7, Some(2), 1, "_TOP", true), Some(1));
    assert_eq!(choose_navigable_for_hyperlink_activation(7, None, 1, "_parent", true), Some(7));
    assert_eq!(choose_navigable_for_hyperlink_activation(7, None, 1, "", true), Some(7));
}

#[test]
fn noopener_from_rel_and_target() {
    assert!(get_noopener("NoOpener", ""));
    assert!(get_noopener("external noreferrer", "x"));
    assert!(get_noopener("", "_BLANK"));
    assert!(!get_noopener("opener", "_blank"));
    assert!(!get_noopener("nofollow", "frame"));
}

#[test]
fn hyperlink_urls_resolve_against_the_document() {
    assert_eq!(
        hyperlink_url(DOC, Some("other.html#top")),
        Some(String::from("https://example.com/dir/other.html#top"))
    );
    assert_eq!(hyperlink_url(DOC, None), None);
    assert_eq!(hyperlink_href(DOC, Some("/x")), "https://example.com/x");
    assert_eq!(hyperlink_href("not a url", Some("rel")), "rel");
    assert_eq!(hyperlink_href(DOC, None), "");
}

#[test]
fn anchor_activation_requests_navigation() {
    let req = anchor_activation_behavior(4, Some(2), 1, DOC, Some("next.html"), false, "_parent", "")
        .unwrap();
    assert_eq!(req.destination_url, "https://example.com/dir/next.html");
    assert_eq!(req.chosen_navigable_id, Some(2));
    assert_eq!(req.target, "_parent");
    assert!(!req.noopener);
    let blank = anchor_activation_behavior(4, None, 1, DOC, Some("n"), false, "_blank", "").unwrap();
    assert!(blank.noopener);
    assert_eq!(blank.chosen_navigable_id, None);
    assert!(anchor_activation_behavior(4, None, 1, DOC, None, false, "", "").is_none());
    assert!(anchor_activation_behavior(4, None, 1, DOC, Some("n"), true, "", "").is_none());
    assert!(anchor_activation_behavior(4, None, 1, "nope", Some("n"), false, "", "").is_none());
}

#[test]
fn iframe_targets_from_attributes() {
    let (key, target) = iframe_navigation_target_for_attributes(DOC, Some("a.html"), Some("<p>hi"));
    assert_eq!(key, "srcdoc:<p>hi");
    assert!(matches!(target, IframeTarget::Srcdoc { html } if html == "<p>hi"));
    let (key, target) = iframe_navigation_target_for_attributes(DOC, Some("  a.html \n"), None);
    assert_eq!(key, "src:https://example.com/dir/a.html");
    assert!(matches!(target, IframeTarget::Url { url } if url == "https://example.com/dir/a.html"));
    let (key, target) = iframe_navigation_target_for_attributes(DOC, Some("   "), None);
    assert_eq!(key, "about:blank");
    assert!(matches!(target, IframeTarget::AboutBlank));
    let (key, _) = iframe_navigation_target_for_attributes(DOC, None, None);
    assert_eq!(key, "about:blank");
}

#[test]
fn about_blank_matching() {
    assert!(matches_about_blank("about:blank"));
    assert!(matches_about_blank("about:blank#frag"));
    assert!(!matches_about_blank("about:srcdoc"));
    assert!(!matches_about_blank("https://example.com/blank"));
    assert!(!matches_about_blank("no url"));
}

fn state(key: &str, cross_origin: bool) -> ContainerState {
    ContainerState {
        content_navigable_id: 11,
        content_frame_id: 12,
        content_frame_token: 13,
        current_key: String::from(key),
        cross_origin,
    }
}

#[test]
fn processing_iframe_attributes_plans_navigation() {
    assert!(matches!(
        process_iframe_attributes(DOC, None, None, None, true),
        IframePlan::NoContentNavigable
    ));
    let unchanged = state("about:blank", false);
    assert!(matches!(
        process_iframe_attributes(DOC, None, None, Some(&unchanged), false),
        IframePlan::Unchanged
    ));
    let fresh = state("", false);
    match process_iframe_attributes(DOC, None, None, Some(&fresh), true) {
        IframePlan::InitialAboutBlank { retire_previous, state } => {
            assert!(!retire_previous);
            assert_eq!(state.current_key, "about:blank");
            assert_eq!(state.content_navigable_id, 11);
        }
        _ => panic!("expected the initial about:blank"),
    }
    match process_iframe_attributes(DOC, Some("https://other.org/"), None, Some(&fresh), true) {
        IframePlan::Navigate { retire_previous, state, action } => {
            assert!(!retire_previous);
            assert!(state.cross_origin);
            assert_eq!(state.current_key, "src:https://other.org/");
            assert!(matches!(action, IframeAction::NavigateUrl { url, cross_origin: true }
                if url == "https://other.org/"));
        }
        _ => panic!("expected a navigation"),
    }
    let was_cross = state("src:https://other.org/", true);
    match process_iframe_attributes(DOC, None, Some("<b>x</b>"), Some(&was_cross), false) {
        IframePlan::Navigate { retire_previous, state, action } => {
            assert!(retire_previous);
            assert!(!state.cross_origin);
            assert!(matches!(action, IframeAction::AttachSrcdoc { html } if html == "<b>x</b>"));
        }
        _ => panic!("expected a navigation"),
    }
}

#[test]
fn settings_origin_prefers_the_creator() {
    let creator = Origin { serialized: String::from("https://creator.test") };
    let r = settings_origin(Some(creator), DOC).unwrap();
    assert_eq!(r.serialized, "https://creator.test");
    let r = settings_origin(None, DOC).unwrap();
    assert_eq!(r.serialized, "https://example.com");
    assert!(settings_origin(None, "no url").is_none());
}

#[test]
fn auxiliary_creator_origin_drops_opaque_origins() {
    let r = auxiliary_creator_origin(Some("http://example.org:8080/a")).unwrap();
    assert_eq!(r.serialized, "http://example.org:8080");
    assert!(auxiliary_creator_origin(Some("data:text/html,hi")).is_none());
    assert!(auxiliary_creator_origin(None).is_none());
}

#[test]
fn video_paint_ids_keep_the_first_registration() {
    let mut registry = VideoPaintRegistry::new();
    registry.register_video_paint_id(1, 7, 100);
    registry.register_video_paint_id(1, 7, 200);
    registry.register_video_paint_id(2, 7, 300);
    assert_eq!(registry.registered(), vec![((1, 7), 100), ((2, 7), 300)]);
    assert_eq!(registry.paint_id(1, 7), Some(100));
    assert_eq!(registry.paint_id(3, 7), None);
}
