//! Choosing the navigable a navigation targets, hyperlink attributes, and
//! what processing an iframe's attributes asks for.
use vstd::prelude::*;
use crate::text::{
    ascii_lower_seq, ascii_tokens, chars_eq, chars_of, concat_str, eq_ignore_ascii_case,
    split_ascii_whitespace, str_eq_ignore_ascii_case, to_ascii_lowercase, trim_whitespace,
    trimmed, string_from_chars,
};
use crate::url::{joined_url, url_join, url_path, url_path_of, url_same_origin, url_scheme, url_scheme_of, same_origin_urls};

verus! {

/// Where the rules for choosing a navigable lead.
#[derive(PartialEq, Eq, Structural, Debug)]
pub enum NavigableChoice {
    /// An existing navigable is chosen.
    Existing { navigable: u64 },
    /// A new auxiliary navigable is to be created here, for the opener.
    CreateAuxiliary,
    /// A new top-level traversable is requested from the user agent.
    DelegateToUserAgent,
}

pub open spec fn names_self(name: Seq<char>) -> bool {
    name.len() == 0 || eq_ignore_ascii_case(name, "_self"@)
}

/// The rules for choosing a navigable, as far as this process resolves
/// them: the reserved names, then a new navigable.
pub open spec fn choose_navigable_spec(
    source: u64,
    parent: Option<u64>,
    top: u64,
    name: Seq<char>,
    noopener: bool,
    can_create_auxiliary: bool,
) -> NavigableChoice {
    if names_self(name) {
        NavigableChoice::Existing { navigable: source }
    } else if eq_ignore_ascii_case(name, "_parent"@) {
        NavigableChoice::Existing {
            navigable: match parent {
                Some(p) => p,
                None => source,
            },
        }
    } else if eq_ignore_ascii_case(name, "_top"@) {
        NavigableChoice::Existing { navigable: top }
    } else if noopener {
        NavigableChoice::DelegateToUserAgent
    } else if can_create_auxiliary {
        NavigableChoice::CreateAuxiliary
    } else {
        NavigableChoice::DelegateToUserAgent
    }
}

/// The rules for choosing a navigable given a target name. Looking a name
/// up among the navigables is left to the user agent; where no navigable is
/// chosen, a new auxiliary one is created here when there is an opener
/// window (`can_create_auxiliary`) and noopener is false.
pub fn the_rules_for_choosing_a_navigable(
    source_navigable_id: u64,
    parent_navigable_id: Option<u64>,
    top_level_navigable_id: u64,
    target_name: &str,
    noopener: bool,
    can_create_auxiliary: bool,
) -> (choice: NavigableChoice)
    ensures
        choice == choose_navigable_spec(
            source_navigable_id,
            parent_navigable_id,
            top_level_navigable_id,
            target_name@,
            noopener,
            can_create_auxiliary,
        ),
{
    // Step 4: the empty string or "_self" is the current navigable.
    if target_name.is_empty() || str_eq_ignore_ascii_case(target_name, "_self") {
        return NavigableChoice::Existing { navigable: source_navigable_id };
    }
    // Step 5: "_parent" is the parent, if any, and the current navigable
    // otherwise.
    if str_eq_ignore_ascii_case(target_name, "_parent") {
        let navigable = match parent_navigable_id {
            Some(p) => p,
            None => source_navigable_id,
        };
        return NavigableChoice::Existing { navigable };
    }
    // Step 6: "_top" is the traversable navigable.
    if str_eq_ignore_ascii_case(target_name, "_top") {
        return NavigableChoice::Existing { navigable: top_level_navigable_id };
    }
    // Step 8: no navigable chosen: a new top-level traversable.
    if noopener {
        return NavigableChoice::DelegateToUserAgent;
    }
    if can_create_auxiliary {
        NavigableChoice::CreateAuxiliary
    } else {
        NavigableChoice::DelegateToUserAgent
    }
}

/// The navigable hyperlink activation resolves here (steps 4 to 6 of the
/// rules for choosing a navigable): the empty name and `_self`, `_parent`
/// and `_top`, whatever noopener is. Any other name, `_blank` among them, is
/// left to the user agent, which continues with target names, noopener and
/// new traversables.
pub open spec fn hyperlink_navigable_spec(
    source: u64,
    parent: Option<u64>,
    top: u64,
    name: Seq<char>,
    noopener: bool,
) -> Option<u64> {
    if names_self(name) {
        Some(source)
    } else if eq_ignore_ascii_case(name, "_parent"@) {
        Some(
            match parent {
                Some(p) => p,
                None => source,
            },
        )
    } else if eq_ignore_ascii_case(name, "_top"@) {
        Some(top)
    } else {
        None
    }
}

/// The content-local prefix of the rules for choosing a navigable, for a
/// followed hyperlink: the empty name, `_self`, `_parent` and `_top`
/// resolve here; every other name leaves the choice to the user agent.
pub fn choose_navigable_for_hyperlink_activation(
    source_navigable_id: u64,
    parent_navigable_id: Option<u64>,
    top_level_navigable_id: u64,
    target_name: &str,
    noopener: bool,
) -> (r: Option<u64>)
    ensures
        r == hyperlink_navigable_spec(
            source_navigable_id,
            parent_navigable_id,
            top_level_navigable_id,
            target_name@,
            noopener,
        ),
{
    // Step 4: the empty string or "_self" is the current navigable.
    if target_name.is_empty() || str_eq_ignore_ascii_case(target_name, "_self") {
        return Some(source_navigable_id);
    }
    // Step 5: "_parent" is the parent, if any, and the current navigable
    // otherwise.
    if str_eq_ignore_ascii_case(target_name, "_parent") {
        return Some(
            match parent_navigable_id {
                Some(p) => p,
                None => source_navigable_id,
            },
        );
    }
    // Step 6: "_top" is the traversable navigable.
    if str_eq_ignore_ascii_case(target_name, "_top") {
        return Some(top_level_navigable_id);
    }
    None
}

/// Whether the tokens of a string, ASCII-lowercased, include a keyword.
pub open spec fn has_keyword(s: Seq<char>, keyword: Seq<char>) -> bool {
    exists|k: int| 0 <= k < ascii_tokens(s).len() && ascii_lower_seq(#[trigger] ascii_tokens(s)[k]) == keyword
}

/// An element's noopener, from its rel and target attributes.
pub open spec fn noopener_spec(rel: Seq<char>, target: Seq<char>) -> bool {
    has_keyword(rel, "noopener"@) || has_keyword(rel, "noreferrer"@) || (eq_ignore_ascii_case(
        target,
        "_blank"@,
    ) && !has_keyword(rel, "opener"@))
}

fn has_keyword_exec(tokens: &Vec<Vec<char>>, keyword: &str) -> (b: bool)
    ensures
        b == exists|k: int| 0 <= k < tokens@.len() && ascii_lower_seq((#[trigger] tokens@[k])@) == keyword@,
{
    let kw = chars_of(keyword);
    let mut i: usize = 0;
    while i < tokens.len()
        invariant
            i <= tokens@.len(),
            kw@ == keyword@,
            forall|k: int| 0 <= k < i ==> ascii_lower_seq((#[trigger] tokens@[k])@) != keyword@,
        decreases tokens@.len() - i,
    {
        let lowered = to_ascii_lowercase(tokens[i].as_slice());
        if chars_eq(lowered.as_slice(), kw.as_slice()) {
            return true;
        }
        i = i + 1;
    }
    false
}

/// Get an element's noopener: its rel keywords include noopener or
/// noreferrer, or its target is `_blank` and the keywords do not include
/// opener.
pub fn get_noopener(rel: &str, target: &str) -> (b: bool)
    ensures
        b == noopener_spec(rel@, target@),
{
    let rel_chars = chars_of(rel);
    let tokens = split_ascii_whitespace(rel_chars.as_slice());
    proof {
        assert forall|kw: Seq<char>| (exists|k: int| 0 <= k < tokens@.len() && ascii_lower_seq((#[trigger] tokens@[k])@) == kw) == has_keyword(rel@, kw) by {
            if exists|k: int| 0 <= k < tokens@.len() && ascii_lower_seq((#[trigger] tokens@[k])@) == kw {
                let k = choose|k: int| 0 <= k < tokens@.len() && ascii_lower_seq((#[trigger] tokens@[k])@) == kw;
                assert(ascii_lower_seq(ascii_tokens(rel@)[k]) == kw);
            }
            if has_keyword(rel@, kw) {
                let k = choose|k: int| 0 <= k < ascii_tokens(rel@).len() && ascii_lower_seq(#[trigger] ascii_tokens(rel@)[k]) == kw;
                assert(ascii_lower_seq(tokens@[k]@) == kw);
            }
        }
    }
    if has_keyword_exec(&tokens, "noopener") || has_keyword_exec(&tokens, "noreferrer") {
        return true;
    }
    str_eq_ignore_ascii_case(target, "_blank") && !has_keyword_exec(&tokens, "opener")
}

/// The URL a hyperlink element's href attribute resolves to against the
/// document's URL, if any.
pub open spec fn hyperlink_url_spec(base: Seq<char>, href: Option<Seq<char>>) -> Option<Seq<char>> {
    match href {
        None => None,
        Some(h) => joined_url(base, h),
    }
}

/// The href getter of a hyperlink element: the resolved URL serialized;
/// the attribute's value where it does not resolve; the empty string
/// without the attribute.
pub open spec fn href_getter_spec(base: Seq<char>, href: Option<Seq<char>>) -> Seq<char> {
    match hyperlink_url_spec(base, href) {
        Some(u) => u,
        None => match href {
            Some(h) => h,
            None => Seq::empty(),
        },
    }
}

/// Set the url: the element's href attribute, resolved against the
/// document's URL.
pub fn hyperlink_url(base: &str, href: Option<&str>) -> (r: Option<String>)
    ensures
        match r {
            Some(u) => hyperlink_url_spec(base@, match href { Some(h) => Some(h@), None => None }) == Some(u@),
            None => hyperlink_url_spec(base@, match href { Some(h) => Some(h@), None => None }) is None,
        },
{
    match href {
        None => None,
        Some(h) => url_join(base, h),
    }
}

/// The href getter of a hyperlink element.
pub fn hyperlink_href(base: &str, href: Option<&str>) -> (r: String)
    ensures
        r@ == href_getter_spec(base@, match href { Some(h) => Some(h@), None => None }),
{
    match hyperlink_url(base, href) {
        Some(u) => u,
        None => match href {
            Some(h) => h.to_owned(),
            None => String::new(),
        },
    }
}

/// What activating a hyperlink asks for: a navigation request.
pub struct NavigationRequest {
    pub chosen_navigable_id: Option<u64>,
    pub destination_url: String,
    pub target: String,
    pub noopener: bool,
}

/// The activation behaviour of an a element: without href, or with a
/// download attribute, nothing; where the URL does not resolve, nothing;
/// otherwise a navigation to the resolved URL, with the locally chosen
/// navigable.
pub fn anchor_activation_behavior(
    source_navigable_id: u64,
    parent_navigable_id: Option<u64>,
    top_level_navigable_id: u64,
    base: &str,
    href: Option<&str>,
    has_download: bool,
    target: &str,
    rel: &str,
) -> (r: Option<NavigationRequest>)
    ensures
        match r {
            None => href is None || has_download || hyperlink_url_spec(base@, match href { Some(h) => Some(h@), None => None }) is None,
            Some(req) => {
                &&& href is Some && !has_download
                &&& hyperlink_url_spec(base@, match href { Some(h) => Some(h@), None => None }) == Some(req.destination_url@)
                &&& req.target@ == target@
                &&& req.noopener == noopener_spec(rel@, target@)
                &&& req.chosen_navigable_id == hyperlink_navigable_spec(
                    source_navigable_id,
                    parent_navigable_id,
                    top_level_navigable_id,
                    target@,
                    req.noopener,
                )
            },
        },
{
    if href.is_none() || has_download {
        return None;
    }
    let destination_url = match hyperlink_url(base, href) {
        Some(u) => u,
        None => return None,
    };
    let noopener = get_noopener(rel, target);
    let chosen_navigable_id = choose_navigable_for_hyperlink_activation(
        source_navigable_id,
        parent_navigable_id,
        top_level_navigable_id,
        target,
        noopener,
    );
    Some(NavigationRequest { chosen_navigable_id, destination_url, target: target.to_owned(), noopener })
}

/// The navigable hyperlink activation resolves is the existing navigable
/// the rules for choosing a navigable pick, and none where they pick none
/// (for the same noopener).
pub proof fn law_hyperlink_choice_agrees_with_rules(
    source: u64,
    parent: Option<u64>,
    top: u64,
    name: Seq<char>,
    noopener: bool,
    can_create_auxiliary: bool,
)
    ensures
        ({
            let rules = choose_navigable_spec(source, parent, top, name, noopener, can_create_auxiliary);
            let link = hyperlink_navigable_spec(source, parent, top, name, noopener);
            match rules {
                NavigableChoice::Existing { navigable } => link == Some(navigable),
                _ => link is None,
            }
        }),
{
    reveal_strlit("_self");
    reveal_strlit("_blank");
    reveal_strlit("_parent");
    reveal_strlit("_top");
    let l = ascii_lower_seq(name);
    assert(ascii_lower_seq("_self"@).len() == 5);
    assert(ascii_lower_seq("_blank"@).len() == 6);
    assert(ascii_lower_seq("_parent"@).len() == 7);
    assert(ascii_lower_seq("_top"@).len() == 4);
    if eq_ignore_ascii_case(name, "_blank"@) {
        assert(l.len() == 6);
        assert(name.len() == 6);
    }
}


/// What an iframe's attributes ask it to navigate to.
pub enum IframeTarget {
    AboutBlank,
    Srcdoc { html: String },
    Url { url: String },
}

pub enum IframeTargetModel {
    AboutBlank,
    Srcdoc(Seq<char>),
    Url(Seq<char>),
}

impl View for IframeTarget {
    type V = IframeTargetModel;

    open spec fn view(&self) -> IframeTargetModel {
        match self {
            IframeTarget::AboutBlank => IframeTargetModel::AboutBlank,
            IframeTarget::Srcdoc { html } => IframeTargetModel::Srcdoc(html@),
            IframeTarget::Url { url } => IframeTargetModel::Url(url@),
        }
    }
}

pub open spec fn opt_view(o: Option<&str>) -> Option<Seq<char>> {
    match o {
        Some(s) => Some(s@),
        None => None,
    }
}

/// The process-the-iframe-attributes target and the key that identifies
/// it: srcdoc where specified; else the src attribute, trimmed, resolved
/// against the document's URL where it is not empty and resolves; else
/// about:blank.
pub open spec fn iframe_target_spec(creation: Seq<char>, src: Option<Seq<char>>, srcdoc: Option<Seq<char>>) -> (
    Seq<char>,
    IframeTargetModel,
) {
    match srcdoc {
        Some(d) => ("srcdoc:"@ + d, IframeTargetModel::Srcdoc(d)),
        None => match src {
            Some(raw) => {
                let t = trimmed(raw);
                if t.len() > 0 && joined_url(creation, t) is Some {
                    let u = joined_url(creation, t)->0;
                    ("src:"@ + u, IframeTargetModel::Url(u))
                } else {
                    ("about:blank"@, IframeTargetModel::AboutBlank)
                }
            },
            None => ("about:blank"@, IframeTargetModel::AboutBlank),
        },
    }
}

/// The navigation target for an iframe's src and srcdoc attributes, with
/// its key.
pub fn iframe_navigation_target_for_attributes(creation_url: &str, src: Option<&str>, srcdoc: Option<&str>) -> (r: (
    String,
    IframeTarget,
))
    ensures
        (r.0@, r.1@) == iframe_target_spec(creation_url@, opt_view(src), opt_view(srcdoc)),
{
    if let Some(d) = srcdoc {
        return (concat_str("srcdoc:", d), IframeTarget::Srcdoc { html: d.to_owned() });
    }
    if let Some(raw) = src {
        let raw_chars = chars_of(raw);
        let t = trim_whitespace(raw_chars.as_slice());
        if t.len() > 0 {
            let ts = string_from_chars(t.as_slice());
            if let Some(u) = url_join(creation_url, ts.as_str()) {
                let key = concat_str("src:", u.as_str());
                return (key, IframeTarget::Url { url: u });
            }
        }
    }
    (String::from_str("about:blank"), IframeTarget::AboutBlank)
}

/// Whether a URL matches about:blank: scheme about and path blank.
pub open spec fn matches_about_blank_spec(url: Seq<char>) -> bool {
    url_scheme_of(url) == Some("about"@) && url_path_of(url) == Some("blank"@)
}

pub fn matches_about_blank(url: &str) -> (b: bool)
    ensures
        b == matches_about_blank_spec(url@),
{
    let scheme_is_about = match url_scheme(url) {
        Some(s) => crate::text::str_eq(s.as_str(), "about"),
        None => false,
    };
    if !scheme_is_about {
        return false;
    }
    match url_path(url) {
        Some(p) => crate::text::str_eq(p.as_str(), "blank"),
        None => false,
    }
}

/// The state kept for an iframe's content navigable.
pub struct ContainerState {
    pub content_navigable_id: u64,
    pub content_frame_id: u64,
    pub content_frame_token: u64,
    /// The key of the target last navigated to.
    pub current_key: String,
    pub cross_origin: bool,
}

/// How the content navigable is brought to its target.
pub enum IframeAction {
    /// about:blank is attached here, then the load event steps run.
    AttachAboutBlank,
    /// The srcdoc document is attached here, then the load event steps run.
    AttachSrcdoc { html: String },
    /// The URL is navigated to through the user agent; a cross-origin frame
    /// is attached first where `cross_origin` holds.
    NavigateUrl { url: String, cross_origin: bool },
}

/// What processing the iframe attributes asks for.
pub enum IframePlan {
    /// The target did not change since the last navigation.
    Unchanged,
    /// The element has no content navigable.
    NoContentNavigable,
    /// On first insertion, about:blank is kept: the state is recorded and
    /// the load event steps run.
    InitialAboutBlank { retire_previous: bool, state: ContainerState },
    /// The state is recorded and the content navigable is navigated.
    Navigate { retire_previous: bool, state: ContainerState, action: IframeAction },
}

/// Whether the target is a URL of another origin than the document's.
pub open spec fn cross_origin_spec(creation: Seq<char>, t: IframeTargetModel) -> bool {
    match t {
        IframeTargetModel::Url(u) => !same_origin_urls(creation, u),
        _ => false,
    }
}

/// What processing the iframe attributes decides: nothing where the
/// target is unchanged or there is no content navigable; on first
/// insertion, about:blank is kept; otherwise the content navigable is
/// navigated to the target, retiring a cross-origin traversable that the
/// new target leaves.
pub open spec fn iframe_plan_spec(
    creation: Seq<char>,
    src: Option<Seq<char>>,
    srcdoc: Option<Seq<char>>,
    previous: Option<ContainerState>,
    initial_insertion: bool,
    plan: IframePlan,
) -> bool {
    let (key, t) = iframe_target_spec(creation, src, srcdoc);
    let cross = cross_origin_spec(creation, t);
    match plan {
        IframePlan::Unchanged => previous is Some && previous->0.current_key@ == key,
        IframePlan::NoContentNavigable => previous is None,
        IframePlan::InitialAboutBlank { retire_previous, state } => {
            let p = previous->0;
            &&& previous is Some && p.current_key@ != key
            &&& initial_insertion
            &&& (t == IframeTargetModel::AboutBlank || (t is Url && matches_about_blank_spec(t->Url_0)))
            &&& retire_previous == (p.cross_origin && !cross)
            &&& state.content_navigable_id == p.content_navigable_id
            &&& state.content_frame_id == p.content_frame_id
            &&& state.content_frame_token == p.content_frame_token
            &&& state.current_key@ == key
            &&& !state.cross_origin
        },
        IframePlan::Navigate { retire_previous, state, action } => {
            let p = previous->0;
            &&& previous is Some && p.current_key@ != key
            &&& !(initial_insertion && (t == IframeTargetModel::AboutBlank || (t is Url && matches_about_blank_spec(t->Url_0))))
            &&& retire_previous == (p.cross_origin && !cross)
            &&& state.content_navigable_id == p.content_navigable_id
            &&& state.content_frame_id == p.content_frame_id
            &&& state.content_frame_token == p.content_frame_token
            &&& state.current_key@ == key
            &&& state.cross_origin == cross
            &&& match action {
                IframeAction::AttachAboutBlank => t == IframeTargetModel::AboutBlank,
                IframeAction::AttachSrcdoc { html } => t == IframeTargetModel::Srcdoc(html@),
                IframeAction::NavigateUrl { url, cross_origin } => t == IframeTargetModel::Url(url@) && cross_origin == cross,
            }
        },
    }
}

/// Process the iframe attributes, from the element's attributes and the
/// state of its content navigable to what is to be done.
pub fn process_iframe_attributes(
    creation_url: &str,
    src: Option<&str>,
    srcdoc: Option<&str>,
    previous: Option<&ContainerState>,
    initial_insertion: bool,
) -> (plan: IframePlan)
    ensures
        iframe_plan_spec(
            creation_url@,
            opt_view(src),
            opt_view(srcdoc),
            match previous {
                Some(p) => Some(*p),
                None => None,
            },
            initial_insertion,
            plan,
        ),
{
    let (key, target) = iframe_navigation_target_for_attributes(creation_url, src, srcdoc);
    let p = match previous {
        None => {
            return IframePlan::NoContentNavigable;
        },
        Some(p) => p,
    };
    if crate::text::str_eq(p.current_key.as_str(), key.as_str()) {
        return IframePlan::Unchanged;
    }
    let cross_origin = match &target {
        IframeTarget::Url { url } => !url_same_origin(creation_url, url.as_str()),
        _ => false,
    };
    let retire_previous = p.cross_origin && !cross_origin;
    let blank = match &target {
        IframeTarget::AboutBlank => true,
        IframeTarget::Url { url } => matches_about_blank(url.as_str()),
        IframeTarget::Srcdoc { .. } => false,
    };
    if initial_insertion && blank {
        let state = ContainerState {
            content_navigable_id: p.content_navigable_id,
            content_frame_id: p.content_frame_id,
            content_frame_token: p.content_frame_token,
            current_key: key,
            cross_origin: false,
        };
        return IframePlan::InitialAboutBlank { retire_previous, state };
    }
    let state = ContainerState {
        content_navigable_id: p.content_navigable_id,
        content_frame_id: p.content_frame_id,
        content_frame_token: p.content_frame_token,
        current_key: key,
        cross_origin,
    };
    let action = match target {
        IframeTarget::AboutBlank => IframeAction::AttachAboutBlank,
        IframeTarget::Srcdoc { html } => IframeAction::AttachSrcdoc { html },
        IframeTarget::Url { url } => IframeAction::NavigateUrl { url, cross_origin },
    };
    IframePlan::Navigate { retire_previous, state, action }
}

} // verus!
