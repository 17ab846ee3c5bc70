//! Media elements: the state of an `<audio>` or `<video>` element, the
//! media element load algorithm, resource selection, the internal play and
//! pause steps, and the IDL attributes that reflect content attributes.
//!
//! Playback positions and the duration are floating-point values; they are
//! kept beside this state by the caller, which resets them where the load
//! algorithm says so.
use vstd::prelude::*;
use crate::dom::{
    get_attribute_spec, normalized_name, opt_seq, remove_attribute_spec, set_attr_by_name_spec, tree_wf,
    DomTree,
};
use crate::url::{joined_url, url_join};

verus! {

/// networkState: no resource selected.
pub const NETWORK_EMPTY: u16 = 0;
/// networkState: a resource is selected but not being fetched.
pub const NETWORK_IDLE: u16 = 1;
/// networkState: the resource is being fetched.
pub const NETWORK_LOADING: u16 = 2;
/// networkState: no resource could be found.
pub const NETWORK_NO_SOURCE: u16 = 3;

/// readyState: nothing is known of the resource.
pub const HAVE_NOTHING: u16 = 0;
/// readyState: the metadata is known.
pub const HAVE_METADATA: u16 = 1;
/// readyState: the data for the current position is there.
pub const HAVE_CURRENT_DATA: u16 = 2;
/// readyState: data beyond the current position is there.
pub const HAVE_FUTURE_DATA: u16 = 3;
/// readyState: enough data to play through.
pub const HAVE_ENOUGH_DATA: u16 = 4;

/// MediaError code: fetching was aborted.
pub const MEDIA_ERR_ABORTED: u16 = 1;
/// MediaError code: a network error.
pub const MEDIA_ERR_NETWORK: u16 = 2;
/// MediaError code: a decoding error.
pub const MEDIA_ERR_DECODE: u16 = 3;
/// MediaError code: the source is not supported.
pub const MEDIA_ERR_SRC_NOT_SUPPORTED: u16 = 4;

/// A media error: its code and message.
pub struct MediaError {
    pub code: u16,
    pub message: String,
}

impl MediaError {
    /// Creates a media error.
    pub fn new(code: u16, message: String) -> (e: Self)
        ensures
            e.code == code,
            e.message@ == message@,
    {
        MediaError { code, message }
    }

    /// A copy of the error.
    pub fn copy(&self) -> (e: Self)
        ensures
            e.code == self.code,
            e.message@ == self.message@,
    {
        MediaError { code: self.code, message: self.message.clone() }
    }
}

/// What a string-reflecting IDL attribute reads: the content attribute's
/// value, or the empty string where it is absent.
pub open spec fn reflected_string(t: Seq<Option<crate::dom::NodeModel>>, id: int, name: Seq<char>) -> Seq<
    char,
> {
    match get_attribute_spec(t, id, name) {
        Some(v) => v,
        None => Seq::empty(),
    }
}

/// What setting a boolean-reflecting IDL attribute does to the tree: true
/// sets the content attribute to the empty string, false removes it.
pub open spec fn set_bool_attr_spec(
    t: Seq<Option<crate::dom::NodeModel>>,
    id: int,
    name: Seq<char>,
    value: bool,
) -> Seq<Option<crate::dom::NodeModel>> {
    if value {
        set_attr_by_name_spec(t, id, normalized_name(t, id, name), Seq::empty())
    } else {
        remove_attribute_spec(t, id, name)
    }
}

/// Reads a string-reflecting IDL attribute.
pub fn get_reflected_string(tree: &DomTree, id: usize, name: &str) -> (s: String)
    ensures
        s@ == reflected_string(tree@, id as int, name@),
{
    match tree.get_attribute(id, name) {
        Some(v) => v,
        None => String::new(),
    }
}

/// Reads a boolean-reflecting IDL attribute: whether the content attribute
/// is present.
pub fn get_reflected_bool(tree: &DomTree, id: usize, name: &str) -> (b: bool)
    ensures
        b == (get_attribute_spec(tree@, id as int, name@) is Some),
{
    tree.has_attribute(id, name)
}

/// Sets a boolean-reflecting IDL attribute.
pub fn set_reflected_bool(tree: &mut DomTree, id: usize, name: &str, value: bool)
    ensures
        tree_wf(final(tree)@),
        final(tree)@ == set_bool_attr_spec(old(tree)@, id as int, name@, value),
{
    proof {
        use_type_invariant(&*tree);
    }
    if value {
        proof {
            reveal_strlit("");
            assert(""@ =~= Seq::<char>::empty());
        }
        tree.set_attribute(id, name, "");
    } else {
        tree.remove_attribute(id, name);
    }
}

/// The state of a media element.
pub struct HTMLMediaElement {
    /// The element's node in the document tree.
    pub node_id: usize,
    pub network_state: u16,
    pub ready_state: u16,
    pub current_src: String,
    pub error: Option<MediaError>,
    pub paused: bool,
    pub seeking: bool,
    pub can_autoplay: bool,
    pub delaying_the_load_event: bool,
    pub is_currently_stalled: bool,
    pub show_poster: bool,
}

/// The absolute URL resource selection fetches: the `src` attribute, where
/// present and non-empty, resolved against the base URL.
pub open spec fn resource_selection_url(
    t: Seq<Option<crate::dom::NodeModel>>,
    id: int,
    base_url: Option<Seq<char>>,
) -> Option<Seq<char>> {
    match get_attribute_spec(t, id, "src"@) {
        Some(src) => if src.len() == 0 {
            None
        } else {
            match base_url {
                Some(b) => joined_url(b, src),
                None => None,
            }
        },
        None => None,
    }
}

/// What the state of a media element is after the resource selection
/// algorithm (its synchronous steps): no source yet, the poster shown and
/// the load event delayed.
pub open spec fn after_resource_selection(m: HTMLMediaElement) -> HTMLMediaElement {
    HTMLMediaElement {
        network_state: NETWORK_NO_SOURCE,
        show_poster: true,
        delaying_the_load_event: true,
        ..m
    }
}

/// What the media element load algorithm leaves of the state, resource
/// selection included.
pub open spec fn after_load(m: HTMLMediaElement) -> HTMLMediaElement {
    let m1 = HTMLMediaElement { is_currently_stalled: false, ..m };
    let m2 = if m.network_state != NETWORK_EMPTY {
        HTMLMediaElement { ready_state: HAVE_NOTHING, paused: true, seeking: false, ..m1 }
    } else {
        m1
    };
    after_resource_selection(HTMLMediaElement { error: None, can_autoplay: true, ..m2 })
}

/// What the internal play steps leave of the state, where no resource
/// selection is needed.
pub open spec fn after_play_steps(m: HTMLMediaElement) -> HTMLMediaElement {
    let m1 = if m.network_state == NETWORK_EMPTY {
        after_resource_selection(m)
    } else {
        m
    };
    let m2 = if m1.paused {
        HTMLMediaElement { paused: false, show_poster: false, ..m1 }
    } else {
        m1
    };
    HTMLMediaElement { can_autoplay: false, ..m2 }
}

/// What the internal pause steps leave of the state.
pub open spec fn after_pause_steps(m: HTMLMediaElement) -> HTMLMediaElement {
    HTMLMediaElement { can_autoplay: false, paused: true, ..m }
}

/// What the media element load algorithm decided beyond the element's own
/// state.
pub struct MediaLoad {
    /// The playback positions are reset to 0 and the duration to NaN (the
    /// network state was not empty).
    pub reset_playback: bool,
    /// The URL of the media resource to fetch, where resource selection
    /// found one.
    pub resolved_src: Option<String>,
}

/// The state of a new media element: no network activity, nothing known,
/// no source, no error, paused, not seeking, allowed to autoplay, not
/// delaying the load event, not stalled, showing its poster.
pub open spec fn is_new_media_element(m: HTMLMediaElement, node_id: usize) -> bool {
    &&& m.node_id == node_id
    &&& m.network_state == NETWORK_EMPTY
    &&& m.ready_state == HAVE_NOTHING
    &&& m.current_src@.len() == 0
    &&& m.error is None
    &&& m.paused
    &&& !m.seeking
    &&& m.can_autoplay
    &&& !m.delaying_the_load_event
    &&& !m.is_currently_stalled
    &&& m.show_poster
}

impl HTMLMediaElement {
    /// A new media element.
    pub fn new(node_id: usize) -> (m: Self)
        ensures
            is_new_media_element(m, node_id),
    {
        HTMLMediaElement {
            node_id,
            network_state: NETWORK_EMPTY,
            ready_state: HAVE_NOTHING,
            current_src: String::new(),
            error: None,
            paused: true,
            seeking: false,
            can_autoplay: true,
            delaying_the_load_event: false,
            is_currently_stalled: false,
            show_poster: true,
        }
    }

    /// networkState.
    pub fn network_state(&self) -> (s: u16)
        ensures
            s == self.network_state,
    {
        self.network_state
    }

    /// readyState.
    pub fn ready_state(&self) -> (s: u16)
        ensures
            s == self.ready_state,
    {
        self.ready_state
    }

    /// currentSrc.
    pub fn current_src(&self) -> (s: String)
        ensures
            s@ == self.current_src@,
    {
        self.current_src.clone()
    }

    /// paused.
    pub fn paused(&self) -> (b: bool)
        ensures
            b == self.paused,
    {
        self.paused
    }

    /// seeking.
    pub fn seeking(&self) -> (b: bool)
        ensures
            b == self.seeking,
    {
        self.seeking
    }

    /// error: a copy of the current error, if any.
    pub fn error(&self) -> (e: Option<MediaError>)
        ensures
            match (e, self.error) {
                (Some(a), Some(b)) => a.code == b.code && a.message@ == b.message@,
                (None, None) => true,
                _ => false,
            },
    {
        match &self.error {
            Some(e) => Some(e.copy()),
            None => None,
        }
    }

    /// Whether setting the current time moves the default playback start
    /// position (nothing is known of the resource yet) rather than the
    /// official playback position.
    pub fn current_time_sets_default_start(&self) -> (b: bool)
        ensures
            b == (self.ready_state == HAVE_NOTHING),
    {
        self.ready_state == HAVE_NOTHING
    }

    /// The resource selection algorithm, up to its synchronous section:
    /// sets the network state to NETWORK_NO_SOURCE, shows the poster and
    /// delays the load event; returns the URL to fetch, the `src` attribute
    /// resolved against the base URL where it is present and non-empty.
    pub fn resource_selection_algorithm(&mut self, tree: &DomTree, base_url: Option<&str>) -> (r:
        Option<String>)
        ensures
            *final(self) == after_resource_selection(*old(self)),
            opt_seq(r) == resource_selection_url(
                tree@,
                old(self).node_id as int,
                match base_url {
                    Some(b) => Some(b@),
                    None => None,
                },
            ),
    {
        self.network_state = NETWORK_NO_SOURCE;
        self.show_poster = true;
        self.delaying_the_load_event = true;
        proof {
            reveal_strlit("src");
        }
        let src = tree.get_attribute(self.node_id, "src");
        match src {
            Some(s) => {
                if s.as_str().unicode_len() == 0 {
                    None
                } else {
                    match base_url {
                        Some(b) => url_join(b, s.as_str()),
                        None => None,
                    }
                }
            },
            None => None,
        }
    }

    /// The media element load algorithm: clears the stalled flag; where the
    /// network state is not empty, forgets what is known of the resource
    /// (nothing known, paused, not seeking) and asks for the playback
    /// positions to be reset; clears the error, allows autoplay, and runs
    /// resource selection.
    pub fn media_element_load_algorithm(&mut self, tree: &DomTree, base_url: Option<&str>) -> (r:
        MediaLoad)
        ensures
            *final(self) == after_load(*old(self)),
            r.reset_playback == (old(self).network_state != NETWORK_EMPTY),
            opt_seq(r.resolved_src) == resource_selection_url(
                tree@,
                old(self).node_id as int,
                match base_url {
                    Some(b) => Some(b@),
                    None => None,
                },
            ),
    {
        self.is_currently_stalled = false;
        let reset_playback = self.network_state != NETWORK_EMPTY;
        if reset_playback {
            if self.ready_state != HAVE_NOTHING {
                self.ready_state = HAVE_NOTHING;
            }
            if !self.paused {
                self.paused = true;
            }
            if self.seeking {
                self.seeking = false;
            }
        }
        self.error = None;
        self.can_autoplay = true;
        let resolved_src = self.resource_selection_algorithm(tree, base_url);
        MediaLoad { reset_playback, resolved_src }
    }

    /// load(): runs the media element load algorithm.
    pub fn load(&mut self, tree: &DomTree, base_url: Option<&str>) -> (r: MediaLoad)
        ensures
            *final(self) == after_load(*old(self)),
            r.reset_playback == (old(self).network_state != NETWORK_EMPTY),
            opt_seq(r.resolved_src) == resource_selection_url(
                tree@,
                old(self).node_id as int,
                match base_url {
                    Some(b) => Some(b@),
                    None => None,
                },
            ),
    {
        self.media_element_load_algorithm(tree, base_url)
    }

    /// src: the `src` content attribute, or empty.
    pub fn src(&self, tree: &DomTree) -> (s: String)
        ensures
            s@ == reflected_string(tree@, self.node_id as int, "src"@),
    {
        proof {
            reveal_strlit("src");
        }
        get_reflected_string(tree, self.node_id, "src")
    }

    /// Setting src: sets the `src` content attribute, then runs the media
    /// element load algorithm.
    pub fn set_src(&mut self, tree: &mut DomTree, src: &str, base_url: Option<&str>) -> (r:
        MediaLoad)
        ensures
            tree_wf(final(tree)@),
            final(tree)@ == set_attr_by_name_spec(old(tree)@, old(self).node_id as int, normalized_name(old(tree)@, old(self).node_id as int, "src"@),
                src@,
            ),
            *final(self) == after_load(*old(self)),
            r.reset_playback == (old(self).network_state != NETWORK_EMPTY),
            opt_seq(r.resolved_src) == resource_selection_url(
                final(tree)@,
                old(self).node_id as int,
                match base_url {
                    Some(b) => Some(b@),
                    None => None,
                },
            ),
    {
        proof {
            use_type_invariant(&*tree);
        }
        proof {
            reveal_strlit("src");
        }
        tree.set_attribute(self.node_id, "src", src);
        self.media_element_load_algorithm(tree, base_url)
    }

    /// The internal play steps: runs resource selection where the network
    /// state is empty; where paused, starts playing and hides the poster;
    /// then forbids autoplay. Returns the URL resource selection found, if
    /// it ran.
    pub fn internal_play_steps(&mut self, tree: &DomTree, base_url: Option<&str>) -> (r: Option<
        String,
    >)
        ensures
            *final(self) == after_play_steps(*old(self)),
            old(self).network_state != NETWORK_EMPTY ==> r is None,
            old(self).network_state == NETWORK_EMPTY ==> opt_seq(r) == resource_selection_url(
                tree@,
                old(self).node_id as int,
                match base_url {
                    Some(b) => Some(b@),
                    None => None,
                },
            ),
    {
        let mut resolved = None;
        if self.network_state == NETWORK_EMPTY {
            resolved = self.resource_selection_algorithm(tree, base_url);
        }
        if self.paused {
            self.paused = false;
            if self.show_poster {
                self.show_poster = false;
            }
        }
        self.can_autoplay = false;
        resolved
    }

    /// play(): runs the internal play steps.
    pub fn play(&mut self, tree: &DomTree, base_url: Option<&str>) -> (r: Option<String>)
        ensures
            *final(self) == after_play_steps(*old(self)),
            old(self).network_state != NETWORK_EMPTY ==> r is None,
            old(self).network_state == NETWORK_EMPTY ==> opt_seq(r) == resource_selection_url(
                tree@,
                old(self).node_id as int,
                match base_url {
                    Some(b) => Some(b@),
                    None => None,
                },
            ),
    {
        self.internal_play_steps(tree, base_url)
    }

    /// The internal pause steps: forbids autoplay; where playing, pauses.
    /// Returns whether the official playback position is to take the
    /// current playback position (the element was playing).
    pub fn internal_pause_steps(&mut self) -> (sync_position: bool)
        ensures
            *final(self) == after_pause_steps(*old(self)),
            sync_position == !old(self).paused,
    {
        self.can_autoplay = false;
        if !self.paused {
            self.paused = true;
            true
        } else {
            false
        }
    }

    /// pause(): runs resource selection where the network state is empty,
    /// then the internal pause steps. Returns the URL resource selection
    /// found, if it ran, and whether the official playback position is to
    /// take the current playback position.
    pub fn pause(&mut self, tree: &DomTree, base_url: Option<&str>) -> (r: (Option<String>, bool))
        ensures
            *final(self) == after_pause_steps(
                if old(self).network_state == NETWORK_EMPTY {
                    after_resource_selection(*old(self))
                } else {
                    *old(self)
                },
            ),
            old(self).network_state != NETWORK_EMPTY ==> r.0 is None,
            old(self).network_state == NETWORK_EMPTY ==> opt_seq(r.0) == resource_selection_url(
                tree@,
                old(self).node_id as int,
                match base_url {
                    Some(b) => Some(b@),
                    None => None,
                },
            ),
            r.1 == !old(self).paused,
    {
        let mut resolved = None;
        if self.network_state == NETWORK_EMPTY {
            resolved = self.resource_selection_algorithm(tree, base_url);
        }
        let sync = self.internal_pause_steps();
        (resolved, sync)
    }

    /// autoplay: whether the `autoplay` content attribute is present.
    pub fn autoplay(&self, tree: &DomTree) -> (b: bool)
        ensures
            b == (get_attribute_spec(tree@, self.node_id as int, "autoplay"@) is Some),
    {
        proof {
            reveal_strlit("autoplay");
        }
        get_reflected_bool(tree, self.node_id, "autoplay")
    }

    /// Setting autoplay.
    pub fn set_autoplay(&self, tree: &mut DomTree, value: bool)
        ensures
            tree_wf(final(tree)@),
            final(tree)@ == set_bool_attr_spec(old(tree)@, self.node_id as int, "autoplay"@, value),
    {
        proof {
            use_type_invariant(&*tree);
        }
        proof {
            reveal_strlit("autoplay");
        }
        set_reflected_bool(tree, self.node_id, "autoplay", value)
    }

    /// loop: whether the `loop` content attribute is present.
    pub fn loop_(&self, tree: &DomTree) -> (b: bool)
        ensures
            b == (get_attribute_spec(tree@, self.node_id as int, "loop"@) is Some),
    {
        proof {
            reveal_strlit("loop");
        }
        get_reflected_bool(tree, self.node_id, "loop")
    }

    /// Setting loop.
    pub fn set_loop(&self, tree: &mut DomTree, value: bool)
        ensures
            tree_wf(final(tree)@),
            final(tree)@ == set_bool_attr_spec(old(tree)@, self.node_id as int, "loop"@, value),
    {
        proof {
            use_type_invariant(&*tree);
        }
        proof {
            reveal_strlit("loop");
        }
        set_reflected_bool(tree, self.node_id, "loop", value)
    }

    /// controls: whether the `controls` content attribute is present.
    pub fn controls(&self, tree: &DomTree) -> (b: bool)
        ensures
            b == (get_attribute_spec(tree@, self.node_id as int, "controls"@) is Some),
    {
        proof {
            reveal_strlit("controls");
        }
        get_reflected_bool(tree, self.node_id, "controls")
    }

    /// Setting controls.
    pub fn set_controls(&self, tree: &mut DomTree, value: bool)
        ensures
            tree_wf(final(tree)@),
            final(tree)@ == set_bool_attr_spec(old(tree)@, self.node_id as int, "controls"@, value),
    {
        proof {
            use_type_invariant(&*tree);
        }
        proof {
            reveal_strlit("controls");
        }
        set_reflected_bool(tree, self.node_id, "controls", value)
    }

    /// muted: whether the `muted` content attribute is present.
    pub fn muted(&self, tree: &DomTree) -> (b: bool)
        ensures
            b == (get_attribute_spec(tree@, self.node_id as int, "muted"@) is Some),
    {
        proof {
            reveal_strlit("muted");
        }
        get_reflected_bool(tree, self.node_id, "muted")
    }

    /// Setting muted.
    pub fn set_muted(&self, tree: &mut DomTree, value: bool)
        ensures
            tree_wf(final(tree)@),
            final(tree)@ == set_bool_attr_spec(old(tree)@, self.node_id as int, "muted"@, value),
    {
        proof {
            use_type_invariant(&*tree);
        }
        proof {
            reveal_strlit("muted");
        }
        set_reflected_bool(tree, self.node_id, "muted", value)
    }

    /// preload: the `preload` content attribute, or "metadata" where it is
    /// absent.
    pub fn preload(&self, tree: &DomTree) -> (s: String)
        ensures
            s@ == match get_attribute_spec(tree@, self.node_id as int, "preload"@) {
                Some(v) => v,
                None => "metadata"@,
            },
    {
        proof {
            reveal_strlit("preload");
        }
        match tree.get_attribute(self.node_id, "preload") {
            Some(v) => v,
            None => String::from_str("metadata"),
        }
    }

    /// Setting preload: sets the `preload` content attribute.
    pub fn set_preload(&self, tree: &mut DomTree, value: &str)
        ensures
            tree_wf(final(tree)@),
            final(tree)@ == set_attr_by_name_spec(old(tree)@, self.node_id as int, normalized_name(old(tree)@, self.node_id as int, "preload"@),
                value@,
            ),
    {
        proof {
            use_type_invariant(&*tree);
        }
        proof {
            reveal_strlit("preload");
        }
        tree.set_attribute(self.node_id, "preload", value)
    }
}

/// The state of a video element: its media element state and the natural
/// size of the video.
pub struct HTMLVideoElement {
    pub media_element: HTMLMediaElement,
    pub video_width: u32,
    pub video_height: u32,
}

impl HTMLVideoElement {
    /// A new video element, with no known size.
    pub fn new(node_id: usize) -> (v: Self)
        ensures
            is_new_media_element(v.media_element, node_id),
            v.video_width == 0,
            v.video_height == 0,
    {
        HTMLVideoElement { media_element: HTMLMediaElement::new(node_id), video_width: 0, video_height: 0 }
    }

    /// videoWidth: 0 while nothing is known of the resource, otherwise the
    /// natural width.
    pub fn video_width(&self) -> (w: u32)
        ensures
            w == if self.media_element.ready_state == HAVE_NOTHING {
                0
            } else {
                self.video_width
            },
    {
        if self.media_element.ready_state == HAVE_NOTHING {
            return 0;
        }
        self.video_width
    }

    /// videoHeight: 0 while nothing is known of the resource, otherwise the
    /// natural height.
    pub fn video_height(&self) -> (h: u32)
        ensures
            h == if self.media_element.ready_state == HAVE_NOTHING {
                0
            } else {
                self.video_height
            },
    {
        if self.media_element.ready_state == HAVE_NOTHING {
            return 0;
        }
        self.video_height
    }

    /// poster: the `poster` content attribute, or empty.
    pub fn poster(&self, tree: &DomTree) -> (s: String)
        ensures
            s@ == reflected_string(tree@, self.media_element.node_id as int, "poster"@),
    {
        proof {
            reveal_strlit("poster");
        }
        get_reflected_string(tree, self.media_element.node_id, "poster")
    }

    /// Setting poster.
    pub fn set_poster(&self, tree: &mut DomTree, poster: &str)
        ensures
            tree_wf(final(tree)@),
            final(tree)@ == set_attr_by_name_spec(old(tree)@, self.media_element.node_id as int, normalized_name(old(tree)@, self.media_element.node_id as int, "poster"@),
                poster@,
            ),
    {
        proof {
            use_type_invariant(&*tree);
        }
        proof {
            reveal_strlit("poster");
        }
        tree.set_attribute(self.media_element.node_id, "poster", poster)
    }

    /// playsInline: whether the `playsinline` content attribute is present.
    pub fn plays_inline(&self, tree: &DomTree) -> (b: bool)
        ensures
            b == (get_attribute_spec(tree@, self.media_element.node_id as int, "playsinline"@) is Some),
    {
        proof {
            reveal_strlit("playsinline");
        }
        get_reflected_bool(tree, self.media_element.node_id, "playsinline")
    }

    /// Setting playsInline.
    pub fn set_plays_inline(&self, tree: &mut DomTree, value: bool)
        ensures
            tree_wf(final(tree)@),
            final(tree)@ == set_bool_attr_spec(
                old(tree)@,
                self.media_element.node_id as int,
                "playsinline"@,
                value,
            ),
    {
        proof {
            use_type_invariant(&*tree);
        }
        proof {
            reveal_strlit("playsinline");
        }
        set_reflected_bool(tree, self.media_element.node_id, "playsinline", value)
    }

    /// width: the `width` content attribute, or empty.
    pub fn width(&self, tree: &DomTree) -> (s: String)
        ensures
            s@ == reflected_string(tree@, self.media_element.node_id as int, "width"@),
    {
        proof {
            reveal_strlit("width");
        }
        get_reflected_string(tree, self.media_element.node_id, "width")
    }

    /// Setting width.
    pub fn set_width(&self, tree: &mut DomTree, value: &str)
        ensures
            tree_wf(final(tree)@),
            final(tree)@ == set_attr_by_name_spec(old(tree)@, self.media_element.node_id as int, normalized_name(old(tree)@, self.media_element.node_id as int, "width"@),
                value@,
            ),
    {
        proof {
            use_type_invariant(&*tree);
        }
        proof {
            reveal_strlit("width");
        }
        tree.set_attribute(self.media_element.node_id, "width", value)
    }

    /// height: the `height` content attribute, or empty.
    pub fn height(&self, tree: &DomTree) -> (s: String)
        ensures
            s@ == reflected_string(tree@, self.media_element.node_id as int, "height"@),
    {
        proof {
            reveal_strlit("height");
        }
        get_reflected_string(tree, self.media_element.node_id, "height")
    }

    /// Setting height.
    pub fn set_height(&self, tree: &mut DomTree, value: &str)
        ensures
            tree_wf(final(tree)@),
            final(tree)@ == set_attr_by_name_spec(old(tree)@, self.media_element.node_id as int, normalized_name(old(tree)@, self.media_element.node_id as int, "height"@),
                value@,
            ),
    {
        proof {
            use_type_invariant(&*tree);
        }
        proof {
            reveal_strlit("height");
        }
        tree.set_attribute(self.media_element.node_id, "height", value)
    }
}

/// The load algorithm always leaves the element without an error, not
/// stalled, allowed to autoplay, showing its poster, delaying the load
/// event and with no source found yet, on the same node and source. An
/// element whose network state was not empty is then paused, not seeking,
/// with nothing known of the resource; one whose network state was empty
/// keeps its paused and seeking flags and ready state.
pub proof fn law_load_resets_the_element(m: HTMLMediaElement)
    ensures
        ({
            let a = after_load(m);
            &&& a.error is None && !a.is_currently_stalled && a.can_autoplay
            &&& a.network_state == NETWORK_NO_SOURCE && a.show_poster && a.delaying_the_load_event
            &&& a.node_id == m.node_id && a.current_src == m.current_src
            &&& m.network_state != NETWORK_EMPTY ==> a.paused && !a.seeking && a.ready_state == HAVE_NOTHING
            &&& m.network_state == NETWORK_EMPTY ==> a.paused == m.paused && a.seeking == m.seeking
                && a.ready_state == m.ready_state
        }),
{
}

/// play() leaves the element playing; pause() leaves it paused; and load()
/// after play() pauses it again, as does pause() after play().
pub proof fn law_play_pause_and_load(m: HTMLMediaElement)
    ensures
        !after_play_steps(m).paused,
        !after_play_steps(m).can_autoplay,
        after_play_steps(m).network_state != NETWORK_EMPTY,
        after_pause_steps(m).paused,
        !after_pause_steps(m).can_autoplay,
        after_load(after_play_steps(m)).paused,
        after_pause_steps(after_play_steps(m)).paused,
        !after_play_steps(after_load(m)).paused,
{
}

/// A boolean-reflecting IDL attribute reads back what was set: after
/// setting it to `value`, the content attribute is present exactly when
/// `value` is true (for false, on an element whose attributes of that name
/// carry no prefix or namespace, as parsed HTML attributes do: otherwise
/// removeAttribute() may leave a namespaced one of that name).
pub proof fn law_bool_reflection_round_trip(
    t: Seq<Option<crate::dom::NodeModel>>,
    id: int,
    name: Seq<char>,
    value: bool,
)
    requires
        tree_wf(t),
        crate::dom::live(t, id),
        crate::dom::node(t, id).data is Element,
        !value ==> forall|k: int|
            0 <= k < crate::dom::element_attrs(t, id).len() && crate::dom::attr_qualified_name(
                #[trigger] crate::dom::element_attrs(t, id)[k],
            ) == normalized_name(t, id, name) ==> crate::dom::element_attrs(t, id)[k].prefix is None
                && crate::dom::element_attrs(t, id)[k].ns == Seq::<char>::empty(),
    ensures
        (get_attribute_spec(set_bool_attr_spec(t, id, name, value), id, name) is Some) == value,
{
    let attrs = crate::dom::element_attrs(t, id);
    if value {
        crate::dom::law_set_then_get_attribute(t, id, name, Seq::empty());
    } else {
        assert forall|k: int, m: int|
            0 <= k < attrs.len() && 0 <= m < attrs.len() && crate::dom::attr_qualified_name(
                #[trigger] attrs[k],
            ) == normalized_name(t, id, name) && crate::dom::attr_qualified_name(#[trigger] attrs[m])
                == normalized_name(t, id, name) implies attrs[k].prefix == attrs[m].prefix
            && attrs[k].ns == attrs[m].ns && attrs[k].local == attrs[m].local by {
            assert(attrs[k].prefix is None);
            assert(attrs[m].prefix is None);
        }
        crate::dom::law_remove_then_get_attribute(t, id, name);
    }
}

} // verus!
