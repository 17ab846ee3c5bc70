//! Events and event targets: the event listener list of a target, the
//! event handlers, the flags of an event, and the dispatch algorithm's
//! decisions (which listeners run, in which phase, and when propagation
//! stops).
//!
//! Callbacks are named by an identity the caller assigns; running them is
//! left to the caller, which hands control back between listeners.
use vstd::prelude::*;
use crate::lookup::{first_match, without, lemma_first_match_is, lemma_first_match_none};
use crate::text::str_eq;

verus! {

pub const NONE: u16 = 0;

pub const CAPTURING_PHASE: u16 = 1;

pub const AT_TARGET: u16 = 2;

pub const BUBBLING_PHASE: u16 = 3;

/// An event listener.
#[derive(Clone, Debug)]
pub struct EventListener {
    pub id: u64,
    pub type_: String,
    /// The identity of the listener's callback.
    pub callback: Option<u64>,
    pub capture: bool,
    pub passive: Option<bool>,
    pub once: bool,
    /// The identity of the abort signal the listener was added with.
    pub signal: Option<u64>,
    pub removed: bool,
}

pub struct ListenerModel {
    pub id: u64,
    pub type_: Seq<char>,
    pub callback: Option<u64>,
    pub capture: bool,
    pub passive: Option<bool>,
    pub once: bool,
    pub signal: Option<u64>,
    pub removed: bool,
}

impl View for EventListener {
    type V = ListenerModel;

    open spec fn view(&self) -> ListenerModel {
        ListenerModel {
            id: self.id,
            type_: self.type_@,
            callback: self.callback,
            capture: self.capture,
            passive: self.passive,
            once: self.once,
            signal: self.signal,
            removed: self.removed,
        }
    }
}

pub open spec fn listeners_view(v: Seq<EventListener>) -> Seq<ListenerModel> {
    v.map_values(|l: EventListener| l@)
}

/// The listener matches the type, callback and capture given.
pub open spec fn same_listener(t: Seq<char>, callback: u64, capture: bool) -> spec_fn(ListenerModel) -> bool {
    |l: ListenerModel| l.type_ == t && l.capture == capture && l.callback == Some(callback)
}

pub open spec fn listener_id_is(id: u64) -> spec_fn(ListenerModel) -> bool {
    |l: ListenerModel| l.id == id
}

pub open spec fn handler_type_is(t: Seq<char>) -> spec_fn((Seq<char>, u64)) -> bool {
    |h: (Seq<char>, u64)| h.0 == t
}

/// The options addEventListener() reads.
#[derive(Clone, Copy, Debug)]
pub struct AddEventListenerOptions {
    pub capture: bool,
    pub once: bool,
    pub passive: Option<bool>,
    /// The identity of the abort signal, if any.
    pub signal: Option<u64>,
}

/// The options argument: a boolean (capture) or a dictionary.
#[derive(Clone, Copy, Debug)]
pub enum BooleanOrAddEventListenerOptions {
    Boolean(bool),
    Dict(AddEventListenerOptions),
}

/// Flatten: the capture option.
pub fn flatten(options: &BooleanOrAddEventListenerOptions) -> (capture: bool)
    ensures
        capture == match *options {
            BooleanOrAddEventListenerOptions::Boolean(b) => b,
            BooleanOrAddEventListenerOptions::Dict(d) => d.capture,
        },
{
    match options {
        BooleanOrAddEventListenerOptions::Boolean(b) => *b,
        BooleanOrAddEventListenerOptions::Dict(d) => d.capture,
    }
}

/// Flatten more: a boolean gives capture and the defaults of the others.
pub fn flatten_more(options: BooleanOrAddEventListenerOptions) -> (o: AddEventListenerOptions)
    ensures
        o == match options {
            BooleanOrAddEventListenerOptions::Boolean(b) => AddEventListenerOptions {
                capture: b,
                once: false,
                passive: None,
                signal: None,
            },
            BooleanOrAddEventListenerOptions::Dict(d) => d,
        },
{
    match options {
        BooleanOrAddEventListenerOptions::Boolean(b) => AddEventListenerOptions { capture: b, once: false, passive: None, signal: None },
        BooleanOrAddEventListenerOptions::Dict(d) => d,
    }
}

/// An event target: its event listener list and its event handlers.
pub struct EventTarget {
    listeners: Vec<EventListener>,
    handlers: Vec<(String, u64)>,
    next_listener_id: u64,
}

pub open spec fn handlers_view(v: Seq<(String, u64)>) -> Seq<(Seq<char>, u64)> {
    v.map_values(|h: (String, u64)| (h.0@, h.1))
}

/// The listener list after addEventListener(): unchanged where the signal
/// is aborted, there is no callback, or an equal listener is listed;
/// otherwise the listener is appended with the next identifier, passive
/// defaulting to false.
pub open spec fn add_listener_spec(
    s: Seq<ListenerModel>,
    next_id: u64,
    t: Seq<char>,
    callback: Option<u64>,
    capture: bool,
    once: bool,
    passive: Option<bool>,
    signal: Option<u64>,
    signal_aborted: bool,
) -> (Seq<ListenerModel>, u64, Option<u64>) {
    if signal_aborted || callback is None {
        (s, next_id, None)
    } else if first_match(s, same_listener(t, callback->0, capture)) >= 0 {
        (s, next_id, None)
    } else {
        let id = (next_id + 1) as u64;
        let id = if next_id == u64::MAX { 0u64 } else { id };
        (
            s.push(
                ListenerModel {
                    id,
                    type_: t,
                    callback,
                    capture,
                    passive: Some(
                        match passive {
                            Some(p) => p,
                            None => false,
                        },
                    ),
                    once,
                    signal,
                    removed: false,
                },
            ),
            id,
            Some(id),
        )
    }
}

impl EventTarget {
    pub closed spec fn listeners(&self) -> Seq<ListenerModel> {
        listeners_view(self.listeners@)
    }

    pub closed spec fn handlers(&self) -> Seq<(Seq<char>, u64)> {
        handlers_view(self.handlers@)
    }

    pub closed spec fn next_id(&self) -> u64 {
        self.next_listener_id
    }

    /// A target without listeners or handlers.
    pub fn new() -> (t: Self)
        ensures
            t.listeners() == Seq::<ListenerModel>::empty(),
            t.handlers() == Seq::<(Seq<char>, u64)>::empty(),
            t.next_id() == 0,
    {
        let t = EventTarget { listeners: Vec::new(), handlers: Vec::new(), next_listener_id: 0 };
        assert(t.listeners() =~= Seq::<ListenerModel>::empty());
        assert(t.handlers() =~= Seq::<(Seq<char>, u64)>::empty());
        t
    }

    /// A copy of the listener list, as dispatch takes it before invoking.
    pub fn listeners_snapshot(&self) -> (v: Vec<EventListener>)
        ensures
            listeners_view(v@) == self.listeners(),
    {
        let mut v: Vec<EventListener> = Vec::new();
        let mut i: usize = 0;
        while i < self.listeners.len()
            invariant
                i <= self.listeners@.len(),
                listeners_view(v@) == listeners_view(self.listeners@).take(i as int),
            decreases self.listeners@.len() - i,
        {
            let l = &self.listeners[i];
            let copy = EventListener {
                id: l.id,
                type_: l.type_.clone(),
                callback: l.callback,
                capture: l.capture,
                passive: l.passive,
                once: l.once,
                signal: l.signal,
                removed: l.removed,
            };
            let ghost v0 = listeners_view(v@);
            v.push(copy);
            assert(listeners_view(v@) =~= v0.push(copy@));
            assert(listeners_view(self.listeners@)[i as int] == self.listeners@[i as int]@);
            i = i + 1;
            assert(listeners_view(v@) =~= listeners_view(self.listeners@).take(i as int));
        }
        assert(listeners_view(self.listeners@).take(i as int) =~= listeners_view(self.listeners@));
        v
    }

    /// The callback of the event handler of a type, if set.
    pub fn event_handler_value(&self, type_: &str) -> (r: Option<u64>)
        ensures
            ({
                let i = first_match(self.handlers(), handler_type_is(type_@));
                r == if i >= 0 { Some(self.handlers()[i].1) } else { None }
            }),
    {
        let ghost v = self.handlers();
        let mut i: usize = 0;
        while i < self.handlers.len()
            invariant
                i <= self.handlers@.len(),
                v == handlers_view(self.handlers@),
                forall|j: int| 0 <= j < i ==> !(#[trigger] handler_type_is(type_@)(v[j])),
            decreases self.handlers@.len() - i,
        {
            assert(v[i as int] == (self.handlers@[i as int].0@, self.handlers@[i as int].1));
            if str_eq(self.handlers[i].0.as_str(), type_) {
                proof {
                    lemma_first_match_is(v, handler_type_is(type_@), i as int);
                }
                return Some(self.handlers[i].1);
            }
            i = i + 1;
        }
        proof {
            lemma_first_match_none(v, handler_type_is(type_@));
        }
        None
    }

    /// Sets or clears the event handler of a type: handlers of that type are
    /// removed and the new one, if any, appended.
    pub fn set_event_handler_value(&mut self, type_: &str, callback: Option<u64>)
        ensures
            final(self).handlers() == (match callback {
                Some(c) => without(old(self).handlers(), handler_type_is(type_@)).push((type_@, c)),
                None => without(old(self).handlers(), handler_type_is(type_@)),
            }),
            final(self).listeners() == old(self).listeners(),
            final(self).next_id() == old(self).next_id(),
    {
        let mut rest: Vec<(String, u64)> = Vec::new();
        std::mem::swap(&mut rest, &mut self.handlers);
        let ghost orig = handlers_view(rest@);
        let ghost p = handler_type_is(type_@);
        let mut kept: Vec<(String, u64)> = Vec::new();
        while rest.len() > 0
            invariant
                p == handler_type_is(type_@),
                handlers_view(kept@) + without(handlers_view(rest@), p) == without(orig, p),
            decreases rest@.len(),
        {
            let ghost r0 = handlers_view(rest@);
            proof {
                crate::global_scope::lemma_without_step(r0, p);
            }
            let h = rest.remove(0);
            assert(handlers_view(rest@) =~= r0.drop_first());
            if !str_eq(h.0.as_str(), type_) {
                let ghost k0 = handlers_view(kept@);
                let ghost hm = (h.0@, h.1);
                kept.push(h);
                assert(handlers_view(kept@) =~= k0.push(hm));
                assert(handlers_view(kept@) + without(handlers_view(rest@), p) =~= k0 + (seq![hm] + without(r0.drop_first(), p)));
            }
        }
        assert(handlers_view(rest@) =~= Seq::<(Seq<char>, u64)>::empty());
        assert(handlers_view(kept@) =~= without(orig, p));
        if let Some(c) = callback {
            let ghost k0 = handlers_view(kept@);
            kept.push((type_.to_owned(), c));
            assert(handlers_view(kept@) =~= k0.push((type_@, c)));
        }
        self.handlers = kept;
    }

    /// addEventListener(): the listener is appended unless the signal is
    /// aborted, the callback is null, or an equal listener (same type,
    /// callback and capture) is listed. Returns the new listener's
    /// identifier, for the caller to register the signal's abort algorithm.
    pub fn add_event_listener(
        &mut self,
        type_: &str,
        callback: Option<u64>,
        capture: bool,
        once: bool,
        passive: Option<bool>,
        signal: Option<u64>,
        signal_aborted: bool,
    ) -> (added: Option<u64>)
        ensures
            (final(self).listeners(), final(self).next_id(), added) == add_listener_spec(
                old(self).listeners(),
                old(self).next_id(),
                type_@,
                callback,
                capture,
                once,
                passive,
                signal,
                signal_aborted,
            ),
            final(self).handlers() == old(self).handlers(),
    {
        if signal_aborted {
            return None;
        }
        let cb = match callback {
            Some(c) => c,
            None => return None,
        };
        let passive = match passive {
            Some(p) => Some(p),
            None => Some(false),
        };
        let listener_id = self.next_listener_id.wrapping_add(1);
        let ghost v = self.listeners();
        let mut i: usize = 0;
        let mut duplicate = false;
        while i < self.listeners.len()
            invariant_except_break
                !duplicate,
            invariant
                i <= self.listeners@.len(),
                v == listeners_view(self.listeners@),
                forall|j: int| 0 <= j < i ==> !(#[trigger] same_listener(type_@, cb, capture)(v[j])),
            ensures
                i <= self.listeners@.len(),
                forall|j: int| 0 <= j < i ==> !(#[trigger] same_listener(type_@, cb, capture)(v[j])),
                duplicate ==> i < self.listeners@.len() && same_listener(type_@, cb, capture)(v[i as int]),
                !duplicate ==> i == self.listeners@.len(),
            decreases self.listeners@.len() - i,
        {
            let l = &self.listeners[i];
            assert(v[i as int] == l@);
            let same_cb = match l.callback {
                Some(c) => c == cb,
                None => false,
            };
            if str_eq(l.type_.as_str(), type_) && l.capture == capture && same_cb {
                duplicate = true;
                break;
            }
            i = i + 1;
        }
        if duplicate {
            proof {
                lemma_first_match_is(v, same_listener(type_@, cb, capture), i as int);
            }
            return None;
        }
        proof {
            lemma_first_match_none(v, same_listener(type_@, cb, capture));
        }
        self.next_listener_id = listener_id;
        let l = EventListener {
            id: listener_id,
            type_: type_.to_owned(),
            callback: Some(cb),
            capture,
            passive,
            once,
            signal,
            removed: false,
        };
        let ghost lm = l@;
        self.listeners.push(l);
        assert(self.listeners() =~= v.push(lm));
        Some(listener_id)
    }

    /// Removes the listeners whose identifier is given.
    pub fn remove_event_listener_by_id(&mut self, listener_id: u64)
        ensures
            final(self).listeners() == without(old(self).listeners(), listener_id_is(listener_id)),
            final(self).handlers() == old(self).handlers(),
            final(self).next_id() == old(self).next_id(),
    {
        let mut rest: Vec<EventListener> = Vec::new();
        std::mem::swap(&mut rest, &mut self.listeners);
        let ghost orig = listeners_view(rest@);
        let ghost p = listener_id_is(listener_id);
        let mut kept: Vec<EventListener> = Vec::new();
        while rest.len() > 0
            invariant
                p == listener_id_is(listener_id),
                listeners_view(kept@) + without(listeners_view(rest@), p) == without(orig, p),
            decreases rest@.len(),
        {
            let ghost r0 = listeners_view(rest@);
            proof {
                crate::global_scope::lemma_without_step(r0, p);
            }
            let l = rest.remove(0);
            assert(listeners_view(rest@) =~= r0.drop_first());
            if l.id != listener_id {
                let ghost k0 = listeners_view(kept@);
                let ghost lm = l@;
                kept.push(l);
                assert(listeners_view(kept@) =~= k0.push(lm));
                assert(listeners_view(kept@) + without(listeners_view(rest@), p) =~= k0 + (seq![lm] + without(r0.drop_first(), p)));
            }
        }
        assert(listeners_view(rest@) =~= Seq::<ListenerModel>::empty());
        assert(listeners_view(kept@) =~= without(orig, p));
        self.listeners = kept;
    }

    /// removeEventListener(): the listeners equal to the one given (same
    /// type, callback and capture) are removed.
    pub fn remove_event_listener_entry(&mut self, type_: &str, callback: u64, capture: bool)
        ensures
            final(self).listeners() == without(old(self).listeners(), same_listener(type_@, callback, capture)),
            final(self).handlers() == old(self).handlers(),
            final(self).next_id() == old(self).next_id(),
    {
        let mut rest: Vec<EventListener> = Vec::new();
        std::mem::swap(&mut rest, &mut self.listeners);
        let ghost orig = listeners_view(rest@);
        let ghost p = same_listener(type_@, callback, capture);
        let mut kept: Vec<EventListener> = Vec::new();
        while rest.len() > 0
            invariant
                p == same_listener(type_@, callback, capture),
                listeners_view(kept@) + without(listeners_view(rest@), p) == without(orig, p),
            decreases rest@.len(),
        {
            let ghost r0 = listeners_view(rest@);
            proof {
                crate::global_scope::lemma_without_step(r0, p);
            }
            let l = rest.remove(0);
            assert(listeners_view(rest@) =~= r0.drop_first());
            let same_cb = match l.callback {
                Some(c) => c == callback,
                None => false,
            };
            let matches = str_eq(l.type_.as_str(), type_) && l.capture == capture && same_cb;
            if !matches {
                let ghost k0 = listeners_view(kept@);
                let ghost lm = l@;
                kept.push(l);
                assert(listeners_view(kept@) =~= k0.push(lm));
                assert(listeners_view(kept@) + without(listeners_view(rest@), p) =~= k0 + (seq![lm] + without(r0.drop_first(), p)));
            }
        }
        assert(listeners_view(rest@) =~= Seq::<ListenerModel>::empty());
        assert(listeners_view(kept@) =~= without(orig, p));
        self.listeners = kept;
    }

    /// Whether a listener with the identifier is listed and not removed.
    pub fn listener_is_active(&self, listener_id: u64) -> (b: bool)
        ensures
            b == exists|k: int|
                0 <= k < self.listeners().len() && (#[trigger] self.listeners()[k]).id == listener_id
                    && !self.listeners()[k].removed,
    {
        let ghost v = self.listeners();
        let mut i: usize = 0;
        while i < self.listeners.len()
            invariant
                i <= self.listeners@.len(),
                v == listeners_view(self.listeners@),
                forall|k: int| 0 <= k < i ==> !((#[trigger] v[k]).id == listener_id && !v[k].removed),
            decreases self.listeners@.len() - i,
        {
            assert(v[i as int] == self.listeners@[i as int]@);
            if self.listeners[i].id == listener_id && !self.listeners[i].removed {
                return true;
            }
            i = i + 1;
        }
        false
    }

    /// Drops every listener and handler, returning how many there were.
    pub fn clear_all_listeners_and_handlers(&mut self) -> (count: usize)
        requires
            old(self).listeners().len() + old(self).handlers().len() <= usize::MAX,
        ensures
            count == old(self).listeners().len() + old(self).handlers().len(),
            final(self).listeners() == Seq::<ListenerModel>::empty(),
            final(self).handlers() == Seq::<(Seq<char>, u64)>::empty(),
            final(self).next_id() == old(self).next_id(),
    {
        let count = self.listeners.len() + self.handlers.len();
        self.listeners = Vec::new();
        self.handlers = Vec::new();
        assert(self.listeners() =~= Seq::<ListenerModel>::empty());
        assert(self.handlers() =~= Seq::<(Seq<char>, u64)>::empty());
        count
    }
}


/// An event and its flags. Targets are named by the identities the caller
/// assigns to them.
#[derive(Clone, Debug)]
pub struct Event {
    pub type_: String,
    pub target: Option<u64>,
    pub current_target: Option<u64>,
    pub event_phase: u16,
    pub bubbles: bool,
    pub cancelable: bool,
    pub composed: bool,
    pub is_trusted: bool,
    pub stop_propagation_flag: bool,
    pub stop_immediate_propagation_flag: bool,
    pub canceled_flag: bool,
    pub in_passive_listener_flag: bool,
    pub dispatch_flag: bool,
    pub initialized_flag: bool,
}

impl Event {
    /// A new, initialized event that is not being dispatched.
    pub fn new(type_: String, bubbles: bool, cancelable: bool, composed: bool, is_trusted: bool) -> (e: Self)
        ensures
            e.type_@ == type_@,
            e.target is None,
            e.current_target is None,
            e.event_phase == NONE,
            e.bubbles == bubbles,
            e.cancelable == cancelable,
            e.composed == composed,
            e.is_trusted == is_trusted,
            !e.stop_propagation_flag,
            !e.stop_immediate_propagation_flag,
            !e.canceled_flag,
            !e.in_passive_listener_flag,
            !e.dispatch_flag,
            e.initialized_flag,
    {
        Event {
            type_,
            target: None,
            current_target: None,
            event_phase: NONE,
            bubbles,
            cancelable,
            composed,
            is_trusted,
            stop_propagation_flag: false,
            stop_immediate_propagation_flag: false,
            canceled_flag: false,
            in_passive_listener_flag: false,
            dispatch_flag: false,
            initialized_flag: true,
        }
    }

    pub fn type_value(&self) -> (t: &str)
        ensures
            t@ == self.type_@,
    {
        self.type_.as_str()
    }

    pub fn target_value(&self) -> (t: Option<u64>)
        ensures
            t == self.target,
    {
        self.target
    }

    pub fn current_target_value(&self) -> (t: Option<u64>)
        ensures
            t == self.current_target,
    {
        self.current_target
    }

    pub fn event_phase_value(&self) -> (p: u16)
        ensures
            p == self.event_phase,
    {
        self.event_phase
    }

    pub fn bubbles_value(&self) -> (b: bool)
        ensures
            b == self.bubbles,
    {
        self.bubbles
    }

    pub fn cancelable_value(&self) -> (b: bool)
        ensures
            b == self.cancelable,
    {
        self.cancelable
    }

    /// defaultPrevented: the canceled flag.
    pub fn default_prevented(&self) -> (b: bool)
        ensures
            b == self.canceled_flag,
    {
        self.canceled_flag
    }

    /// cancelBubble: the stop propagation flag.
    pub fn cancel_bubble(&self) -> (b: bool)
        ensures
            b == self.stop_propagation_flag,
    {
        self.stop_propagation_flag
    }

    /// Setting cancelBubble to true sets the stop propagation flag; false
    /// does nothing.
    pub fn set_cancel_bubble(&mut self, value: bool)
        ensures
            *final(self) == (if value {
                Event { stop_propagation_flag: true, ..*old(self) }
            } else {
                *old(self)
            }),
    {
        if value {
            self.stop_propagation_flag = true;
        }
    }

    pub fn is_trusted_value(&self) -> (b: bool)
        ensures
            b == self.is_trusted,
    {
        self.is_trusted
    }

    /// stopPropagation().
    pub fn stop_propagation(&mut self)
        ensures
            *final(self) == (Event { stop_propagation_flag: true, ..*old(self) }),
    {
        self.stop_propagation_flag = true;
    }

    /// stopImmediatePropagation(): sets both stop flags.
    pub fn stop_immediate_propagation(&mut self)
        ensures
            *final(self) == (Event { stop_propagation_flag: true, stop_immediate_propagation_flag: true, ..*old(self) }),
    {
        self.stop_propagation_flag = true;
        self.stop_immediate_propagation_flag = true;
    }

    /// preventDefault(): cancels a cancelable event, unless a passive
    /// listener is running.
    pub fn prevent_default(&mut self)
        ensures
            *final(self) == (if old(self).cancelable && !old(self).in_passive_listener_flag {
                Event { canceled_flag: true, ..*old(self) }
            } else {
                *old(self)
            }),
    {
        if self.cancelable && !self.in_passive_listener_flag {
            self.canceled_flag = true;
        }
    }

    /// What dispatchEvent() tests before dispatching: an event being
    /// dispatched, or not initialized, cannot be; otherwise it is marked
    /// untrusted.
    pub fn prepare_script_dispatch(&mut self) -> (ok: bool)
        ensures
            ok == (!old(self).dispatch_flag && old(self).initialized_flag),
            ok ==> *final(self) == (Event { is_trusted: false, ..*old(self) }),
            !ok ==> *final(self) == *old(self),
    {
        if self.dispatch_flag || !self.initialized_flag {
            return false;
        }
        self.is_trusted = false;
        true
    }

    /// The start of dispatch: the dispatch flag is set.
    pub fn begin_dispatch(&mut self)
        ensures
            *final(self) == (Event { dispatch_flag: true, ..*old(self) }),
    {
        self.dispatch_flag = true;
    }

    /// The end of dispatch: phase and current target are reset, the dispatch
    /// and stop flags unset. Returns whether the event was not canceled.
    pub fn finish_dispatch(&mut self) -> (not_canceled: bool)
        ensures
            not_canceled == !old(self).canceled_flag,
            *final(self) == (Event {
                event_phase: NONE,
                current_target: None,
                dispatch_flag: false,
                stop_propagation_flag: false,
                stop_immediate_propagation_flag: false,
                ..*old(self)
            }),
    {
        let canceled = self.canceled_flag;
        self.event_phase = NONE;
        self.current_target = None;
        self.dispatch_flag = false;
        self.stop_propagation_flag = false;
        self.stop_immediate_propagation_flag = false;
        !canceled
    }
}

/// An item of an event's path.
#[derive(Clone, Copy, PartialEq, Eq, Structural, Debug)]
pub struct EventPathItem {
    pub invocation_target: u64,
    pub shadow_adjusted_target: Option<u64>,
}

/// The phase listeners are invoked in.
#[derive(Clone, Copy, PartialEq, Eq, Structural, Debug)]
pub enum ListenerPhase {
    Capturing,
    Bubbling,
}

/// One invocation of the dispatch algorithm: the path item, the listener
/// phase and the event phase to set.
#[derive(Clone, Copy, PartialEq, Eq, Structural, Debug)]
pub struct InvokeStep {
    pub index: usize,
    pub phase: ListenerPhase,
    pub event_phase: u16,
}

/// The capturing invocation of a path item.
pub open spec fn capture_step(path: Seq<EventPathItem>, i: int) -> InvokeStep {
    InvokeStep {
        index: i as usize,
        phase: ListenerPhase::Capturing,
        event_phase: if path[i].shadow_adjusted_target is Some { AT_TARGET } else { CAPTURING_PHASE },
    }
}

/// The invocations of the bubbling phase for the first `n` path items: the
/// target items, and, for a bubbling event, the others.
pub open spec fn bubbling_steps(path: Seq<EventPathItem>, bubbles: bool, n: int) -> Seq<InvokeStep>
    decreases n,
{
    if n <= 0 {
        Seq::empty()
    } else {
        let rest = bubbling_steps(path, bubbles, n - 1);
        let i = n - 1;
        if path[i].shadow_adjusted_target is Some {
            rest.push(InvokeStep { index: i as usize, phase: ListenerPhase::Bubbling, event_phase: AT_TARGET })
        } else if bubbles {
            rest.push(InvokeStep { index: i as usize, phase: ListenerPhase::Bubbling, event_phase: BUBBLING_PHASE })
        } else {
            rest
        }
    }
}

/// The invocations of dispatch, in order: the path in reverse for the
/// capturing phase, then in order for the bubbling phase.
pub open spec fn dispatch_steps_spec(path: Seq<EventPathItem>, bubbles: bool) -> Seq<InvokeStep> {
    Seq::new(path.len(), |k: int| capture_step(path, path.len() - 1 - k)) + bubbling_steps(path, bubbles, path.len() as int)
}

/// The invocations the dispatch algorithm makes along a path.
pub fn dispatch_steps(path: &[EventPathItem], bubbles: bool) -> (steps: Vec<InvokeStep>)
    ensures
        steps@ == dispatch_steps_spec(path@, bubbles),
{
    let mut steps: Vec<InvokeStep> = Vec::new();
    let n = path.len();
    let mut k: usize = 0;
    while k < n
        invariant
            n == path@.len(),
            k <= n,
            steps@ == Seq::new(k as nat, |j: int| capture_step(path@, path@.len() - 1 - j)),
        decreases n - k,
    {
        let i = n - 1 - k;
        let event_phase = if path[i].shadow_adjusted_target.is_some() {
            AT_TARGET
        } else {
            CAPTURING_PHASE
        };
        steps.push(InvokeStep { index: i, phase: ListenerPhase::Capturing, event_phase });
        k = k + 1;
        assert(steps@ =~= Seq::new(k as nat, |j: int| capture_step(path@, path@.len() - 1 - j)));
    }
    let ghost caps = steps@;
    let mut i: usize = 0;
    while i < n
        invariant
            n == path@.len(),
            i <= n,
            caps == Seq::new(n as nat, |j: int| capture_step(path@, path@.len() - 1 - j)),
            steps@ == caps + bubbling_steps(path@, bubbles, i as int),
        decreases n - i,
    {
        if path[i].shadow_adjusted_target.is_some() {
            steps.push(InvokeStep { index: i, phase: ListenerPhase::Bubbling, event_phase: AT_TARGET });
        } else if bubbles {
            steps.push(InvokeStep { index: i, phase: ListenerPhase::Bubbling, event_phase: BUBBLING_PHASE });
        }
        i = i + 1;
        assert(steps@ =~= caps + bubbling_steps(path@, bubbles, i as int));
    }
    steps
}

/// The target for an invocation at a path item: the shadow-adjusted target
/// of the nearest item at or before it that has one.
pub open spec fn target_for(path: Seq<EventPathItem>, index: int) -> Option<u64>
    decreases index + 1,
{
    if index < 0 {
        None
    } else if path[index].shadow_adjusted_target is Some {
        path[index].shadow_adjusted_target
    } else {
        target_for(path, index - 1)
    }
}

/// The first steps of invoke: the event phase and target are set; unless
/// propagation stopped, the current target becomes the item's invocation
/// target. Returns whether the listeners are to be run.
pub fn begin_invoke(event: &mut Event, path: &[EventPathItem], step: InvokeStep) -> (proceed: bool)
    requires
        step.index < path@.len(),
    ensures
        proceed == !old(event).stop_propagation_flag,
        proceed ==> *final(event) == (Event {
            event_phase: step.event_phase,
            target: target_for(path@, step.index as int),
            current_target: Some(path@[step.index as int].invocation_target),
            ..*old(event)
        }),
        !proceed ==> *final(event) == (Event {
            event_phase: step.event_phase,
            target: target_for(path@, step.index as int),
            ..*old(event)
        }),
{
    event.event_phase = step.event_phase;
    let n = path.len();
    assert(step.index < n);
    let mut j: usize = step.index + 1;
    let mut target: Option<u64> = None;
    loop
        invariant
            j <= step.index + 1,
            step.index < path@.len(),
            target_for(path@, step.index as int) == target_for(path@, j - 1),
        ensures
            target == target_for(path@, step.index as int),
        decreases j,
    {
        if j == 0 {
            target = None;
            break;
        }
        if path[j - 1].shadow_adjusted_target.is_some() {
            target = path[j - 1].shadow_adjusted_target;
            break;
        }
        j = j - 1;
    }
    event.target = target;
    if event.stop_propagation_flag {
        return false;
    }
    event.current_target = Some(path[step.index].invocation_target);
    true
}

/// For a bubbling event, the bubbling phase visits every path item once,
/// from the target outwards: the target items at target, the others in the
/// bubbling phase.
proof fn lemma_bubbling_steps_all(path: Seq<EventPathItem>, n: int)
    requires
        0 <= n <= path.len(),
    ensures
        bubbling_steps(path, true, n).len() == n,
        forall|i: int|
            0 <= i < n ==> #[trigger] bubbling_steps(path, true, n)[i] == (InvokeStep {
                index: i as usize,
                phase: ListenerPhase::Bubbling,
                event_phase: if path[i].shadow_adjusted_target is Some { 2u16 } else { 3u16 },
            }),
    decreases n,
{
    if n > 0 {
        lemma_bubbling_steps_all(path, n - 1);
        let rest = bubbling_steps(path, true, n - 1);
        assert forall|i: int| 0 <= i < n - 1 implies #[trigger] bubbling_steps(path, true, n)[i] == rest[i] by {}
    }
}

/// Where only the first path item has a shadow-adjusted target, an event
/// that does not bubble visits only that item in the bubbling phase.
proof fn lemma_bubbling_steps_target_only(path: Seq<EventPathItem>, n: int)
    requires
        1 <= n <= path.len(),
        path[0].shadow_adjusted_target is Some,
        forall|i: int| 1 <= i < path.len() ==> (#[trigger] path[i]).shadow_adjusted_target is None,
    ensures
        bubbling_steps(path, false, n) == seq![
            InvokeStep { index: 0usize, phase: ListenerPhase::Bubbling, event_phase: 2u16 },
        ],
    decreases n,
{
    if n > 1 {
        lemma_bubbling_steps_target_only(path, n - 1);
    } else {
        assert(bubbling_steps(path, false, 0) =~= Seq::<InvokeStep>::empty());
    }
}

/// The order of dispatch: first the capturing phase, from the outermost
/// path item in to the target, at target (event phase 2) on items with a
/// shadow-adjusted target and capturing (event phase 1) on the others; then
/// the bubbling phase from the target out, at target on target items and
/// bubbling (event phase 3) on the others, which an event that does not
/// bubble skips.
pub proof fn law_dispatch_order(path: Seq<EventPathItem>, bubbles: bool)
    ensures
        ({
            let st = dispatch_steps_spec(path, bubbles);
            let n = path.len() as int;
            &&& forall|k: int|
                0 <= k < n ==> #[trigger] st[k] == (InvokeStep {
                    index: (n - 1 - k) as usize,
                    phase: ListenerPhase::Capturing,
                    event_phase: if path[n - 1 - k].shadow_adjusted_target is Some { 2u16 } else { 1u16 },
                })
            &&& bubbles ==> st.len() == 2 * n && forall|i: int|
                0 <= i < n ==> #[trigger] st[n + i] == (InvokeStep {
                    index: i as usize,
                    phase: ListenerPhase::Bubbling,
                    event_phase: if path[i].shadow_adjusted_target is Some { 2u16 } else { 3u16 },
                })
            &&& (!bubbles && n >= 1 && path[0].shadow_adjusted_target is Some && (forall|i: int|
                1 <= i < n ==> (#[trigger] path[i]).shadow_adjusted_target is None)) ==> st.len() == n + 1 && st[n]
                == (InvokeStep { index: 0usize, phase: ListenerPhase::Bubbling, event_phase: 2u16 })
        }),
{
    let n = path.len() as int;
    let caps = Seq::new(path.len(), |k: int| capture_step(path, path.len() - 1 - k));
    let st = dispatch_steps_spec(path, bubbles);
    assert forall|k: int| 0 <= k < n implies #[trigger] st[k] == caps[k] by {}
    if bubbles {
        lemma_bubbling_steps_all(path, n);
        assert forall|i: int| 0 <= i < n implies #[trigger] st[n + i] == bubbling_steps(path, true, n)[i] by {}
    }
    if !bubbles && n >= 1 && path[0].shadow_adjusted_target is Some && (forall|i: int|
        1 <= i < n ==> (#[trigger] path[i]).shadow_adjusted_target is None) {
        lemma_bubbling_steps_target_only(path, n);
    }
}

/// A listener runs in the capturing phase exactly when it is a capture
/// listener, and in the bubbling phase exactly when it is not; in either
/// only while it is not removed and only for its own event type.
pub proof fn law_listener_phase(l: ListenerModel, event_type: Seq<char>)
    ensures
        listener_runs(l, event_type, ListenerPhase::Capturing) <==> (!l.removed && l.type_ == event_type && l.capture),
        listener_runs(l, event_type, ListenerPhase::Bubbling) <==> (!l.removed && l.type_ == event_type && !l.capture),
{
}

/// Whether inner invoke runs a listener in a phase for an event type: it is
/// not removed, has the type, and its capture matches the phase.
pub open spec fn listener_runs(l: ListenerModel, event_type: Seq<char>, phase: ListenerPhase) -> bool {
    &&& !l.removed
    &&& l.type_ == event_type
    &&& (phase == ListenerPhase::Capturing ==> l.capture)
    &&& (phase == ListenerPhase::Bubbling ==> !l.capture)
}

/// What inner invoke asks of the caller next.
#[derive(Clone, Copy, PartialEq, Eq, Structural, Debug)]
pub enum ListenerCall {
    /// Call the listener's callback, if it has one, with the event.
    Call { callback: Option<u64> },
    /// No listener is left to run.
    Done,
}

/// The inner invoke algorithm over a copy of a target's listeners, one
/// listener at a time.
pub struct InnerInvoke {
    next: usize,
    found: bool,
    stopped: bool,
}

impl InnerInvoke {
    pub closed spec fn position(&self) -> nat {
        self.next as nat
    }

    pub closed spec fn found_flag(&self) -> bool {
        self.found
    }

    pub closed spec fn is_stopped(&self) -> bool {
        self.stopped
    }

    pub fn new() -> (r: Self)
        ensures
            r.position() == 0,
            !r.found_flag(),
            !r.is_stopped(),
    {
        InnerInvoke { next: 0, found: false, stopped: false }
    }

    /// Whether a listener of the event's type was met.
    pub fn found(&self) -> (b: bool)
        ensures
            b == self.found_flag(),
    {
        self.found
    }

    /// The next listener to run: listeners that do not run are passed over;
    /// a once listener is removed from the current target before it runs;
    /// a passive one sets the event's in passive listener flag.
    pub fn next_listener(
        &mut self,
        listeners: &[EventListener],
        event: &mut Event,
        phase: ListenerPhase,
        current_target: &mut EventTarget,
    ) -> (call: ListenerCall)
        ensures
            old(self).is_stopped() || old(self).position() >= listeners@.len() ==> call == ListenerCall::Done
                && *final(event) == *old(event) && final(current_target).listeners() == old(current_target).listeners(),
            final(self).is_stopped() == old(self).is_stopped(),
            final(current_target).handlers() == old(current_target).handlers(),
            final(current_target).next_id() == old(current_target).next_id(),
            match call {
                ListenerCall::Done => {
                    &&& forall|k: int|
                        old(self).position() <= k < listeners@.len() && !old(self).is_stopped() ==> !listener_runs(
                            #[trigger] listeners@[k]@,
                            old(event).type_@,
                            phase,
                        )
                    &&& *final(event) == *old(event)
                    &&& final(current_target).listeners() == old(current_target).listeners()
                },
                ListenerCall::Call { callback } => {
                    let k = final(self).position() - 1;
                    &&& old(self).position() <= k < listeners@.len()
                    &&& listener_runs(listeners@[k]@, old(event).type_@, phase)
                    &&& callback == listeners@[k].callback
                    &&& forall|j: int| old(self).position() <= j < k ==> !listener_runs(#[trigger] listeners@[j]@, old(event).type_@, phase)
                    &&& final(current_target).listeners() == (if listeners@[k].once {
                        without(old(current_target).listeners(), listener_id_is(listeners@[k].id))
                    } else {
                        old(current_target).listeners()
                    })
                    &&& *final(event) == (if listeners@[k].passive == Some(true) {
                        Event { in_passive_listener_flag: true, ..*old(event) }
                    } else {
                        *old(event)
                    })
                },
            },
    {
        if self.stopped {
            return ListenerCall::Done;
        }
        while self.next < listeners.len()
            invariant
                !self.stopped,
                old(self).position() <= self.next,
                self.next <= listeners@.len() || self.next == old(self).position(),
                self.stopped == old(self).is_stopped(),
                *event == *old(event),
                current_target.listeners() == old(current_target).listeners(),
                current_target.handlers() == old(current_target).handlers(),
                current_target.next_id() == old(current_target).next_id(),
                forall|j: int| old(self).position() <= j < self.next ==> !listener_runs(#[trigger] listeners@[j]@, old(event).type_@, phase),
            decreases listeners@.len() - self.next,
        {
            let l = &listeners[self.next];
            self.next = self.next + 1;
            if l.removed {
                continue;
            }
            if !str_eq(event.type_.as_str(), l.type_.as_str()) {
                continue;
            }
            self.found = true;
            let skip = match phase {
                ListenerPhase::Capturing => !l.capture,
                ListenerPhase::Bubbling => l.capture,
            };
            if skip {
                continue;
            }
            if l.once {
                current_target.remove_event_listener_by_id(l.id);
            }
            if l.passive == Some(true) {
                event.in_passive_listener_flag = true;
            }
            return ListenerCall::Call { callback: l.callback };
        }
        ListenerCall::Done
    }

    /// After a listener ran: the in passive listener flag is unset, and
    /// inner invoke stops if immediate propagation was stopped. Returns
    /// whether to go on.
    pub fn after_listener(&mut self, event: &mut Event) -> (go_on: bool)
        ensures
            go_on == !old(event).stop_immediate_propagation_flag,
            *final(event) == (Event { in_passive_listener_flag: false, ..*old(event) }),
            final(self).position() == old(self).position(),
            final(self).is_stopped() == (old(self).is_stopped() || old(event).stop_immediate_propagation_flag),
    {
        event.in_passive_listener_flag = false;
        if event.stop_immediate_propagation_flag {
            self.stopped = true;
            return false;
        }
        true
    }
}

/// Adding a listener equal to one already listed (same type, callback and
/// capture) leaves the list as it is: a listener is registered once.
pub proof fn law_listener_added_once(
    s: Seq<ListenerModel>,
    next_id: u64,
    t: Seq<char>,
    callback: u64,
    capture: bool,
    once: bool,
    passive: Option<bool>,
    once2: bool,
    passive2: Option<bool>,
)
    ensures
        ({
            let (s1, n1, _) = add_listener_spec(s, next_id, t, Some(callback), capture, once, passive, None, false);
            let (s2, n2, added) = add_listener_spec(s1, n1, t, Some(callback), capture, once2, passive2, None, false);
            &&& s2 == s1
            &&& n2 == n1
            &&& added is None
            &&& exists|k: int| 0 <= k < s1.len() && #[trigger] same_listener(t, callback, capture)(s1[k])
        }),
{
    let p = same_listener(t, callback, capture);
    let (s1, n1, _) = add_listener_spec(s, next_id, t, Some(callback), capture, once, passive, None, false);
    crate::lookup::lemma_first_match_range(s, p);
    if first_match(s, p) >= 0 {
        let i = first_match(s, p);
        assert(p(s1[i]));
    } else {
        let k = s.len() as int;
        assert(p(s1[k]));
        crate::lookup::lemma_first_match_exists(s1, p, k);
    }
    crate::lookup::lemma_first_match_range(s1, p);
}

/// addEventListener() with a callback, a signal not aborted and no equal
/// listener listed appends one listener and keeps the others in place: it
/// has the given type, callback, capture, once and signal, is not removed,
/// and is passive only where asked: passive defaults to false, so a
/// listener added without the option can cancel the event. Its identifier
/// is the next one, and is what the call returns.
pub proof fn law_added_listener_fields(
    s: Seq<ListenerModel>,
    next_id: u64,
    t: Seq<char>,
    callback: u64,
    capture: bool,
    once: bool,
    passive: Option<bool>,
    signal: Option<u64>,
)
    requires
        forall|j: int| 0 <= j < s.len() ==> !(#[trigger] same_listener(t, callback, capture)(s[j])),
    ensures
        ({
            let (s1, n1, added) = add_listener_spec(s, next_id, t, Some(callback), capture, once, passive, signal, false);
            let l = s1[s.len() as int];
            &&& s1.len() == s.len() + 1
            &&& s1.take(s.len() as int) == s
            &&& l.type_ == t && l.callback == Some(callback) && l.capture == capture
            &&& l.once == once && l.signal == signal && !l.removed
            &&& passive is None ==> l.passive == Some(false)
            &&& passive matches Some(p) ==> l.passive == Some(p)
            &&& l.passive != Some(true) <== passive != Some(true)
            &&& added == Some(l.id) && n1 == l.id
            &&& next_id < u64::MAX ==> l.id == next_id + 1
        }),
{
    lemma_first_match_none(s, same_listener(t, callback, capture));
    let s1 = add_listener_spec(s, next_id, t, Some(callback), capture, once, passive, signal, false).0;
    assert(s1.take(s.len() as int) =~= s);
}

/// No two listeners with a callback share their type, capture flag and
/// callback.
pub open spec fn listeners_distinct(s: Seq<ListenerModel>) -> bool {
    forall|i: int, j: int|
        #![trigger s[i], s[j]]
        0 <= i < j < s.len() && s[i].callback is Some ==> !(s[i].type_ == s[j].type_ && s[i].capture == s[j].capture
            && s[i].callback == s[j].callback)
}

/// addEventListener() never lists a listener twice: a list with no two
/// equal listeners keeps none after any call.
pub proof fn law_add_keeps_listeners_distinct(
    s: Seq<ListenerModel>,
    next_id: u64,
    t: Seq<char>,
    callback: Option<u64>,
    capture: bool,
    once: bool,
    passive: Option<bool>,
    signal: Option<u64>,
    signal_aborted: bool,
)
    requires
        listeners_distinct(s),
    ensures
        listeners_distinct(add_listener_spec(s, next_id, t, callback, capture, once, passive, signal, signal_aborted).0),
{
    if !signal_aborted && callback is Some {
        let p = same_listener(t, callback->0, capture);
        crate::lookup::lemma_first_match_range(s, p);
        if first_match(s, p) < 0 {
            let s1 = add_listener_spec(s, next_id, t, callback, capture, once, passive, signal, signal_aborted).0;
            assert forall|j: int| 0 <= j < s.len() implies !p(#[trigger] s[j]) by {
                if p(s[j]) {
                    crate::lookup::lemma_first_match_exists(s, p, j);
                }
            }
            assert forall|i: int, j: int|
                #![trigger s1[i], s1[j]]
                0 <= i < j < s1.len() && s1[i].callback is Some implies !(s1[i].type_ == s1[j].type_
                    && s1[i].capture == s1[j].capture && s1[i].callback == s1[j].callback) by {
                assert(s1[i] == s[i]);
                if j < s.len() {
                    assert(s1[j] == s[j]);
                } else {
                    assert(!p(s[i]));
                }
            }
        }
    }
}

/// removeEventListener() undoes addEventListener(): where no equal
/// listener is listed, adding a listener and then removing that type,
/// callback and capture flag gives back the list as it was.
pub proof fn law_add_then_remove_restores(
    s: Seq<ListenerModel>,
    next_id: u64,
    t: Seq<char>,
    callback: u64,
    capture: bool,
    once: bool,
    passive: Option<bool>,
    signal: Option<u64>,
)
    requires
        forall|j: int| 0 <= j < s.len() ==> !(#[trigger] same_listener(t, callback, capture)(s[j])),
    ensures
        without(
            add_listener_spec(s, next_id, t, Some(callback), capture, once, passive, signal, false).0,
            same_listener(t, callback, capture),
        ) == s,
{
    let p = same_listener(t, callback, capture);
    lemma_first_match_none(s, p);
    let s1 = add_listener_spec(s, next_id, t, Some(callback), capture, once, passive, signal, false).0;
    let x = s1[s.len() as int];
    assert(s1 == s.push(x));
    crate::lookup::lemma_without_push(s, x, p);
    crate::lookup::lemma_without_none(s, p);
}

/// The path of an event dispatched at a target that has no parent: the
/// target alone, as its own shadow-adjusted target.
pub fn simple_path(target: u64) -> (path: Vec<EventPathItem>)
    ensures
        path@ == seq![EventPathItem { invocation_target: target, shadow_adjusted_target: Some(target) }],
{
    let mut path: Vec<EventPathItem> = Vec::new();
    path.push(EventPathItem { invocation_target: target, shadow_adjusted_target: Some(target) });
    assert(path@ =~= seq![EventPathItem { invocation_target: target, shadow_adjusted_target: Some(target) }]);
    path
}

/// Appends an item to an event path.
pub fn append_to_event_path(path: &mut Vec<EventPathItem>, invocation_target: u64, shadow_adjusted_target: Option<u64>)
    ensures
        final(path)@ == old(path)@.push(EventPathItem { invocation_target, shadow_adjusted_target }),
{
    path.push(EventPathItem { invocation_target, shadow_adjusted_target });
}

/// The event path of a target given the chain of its parents (each the
/// result of getting the parent of the one before): the target as its own
/// shadow-adjusted target, then each parent without one.
pub open spec fn path_for_target(target: u64, parents: Seq<u64>) -> Seq<EventPathItem> {
    seq![EventPathItem { invocation_target: target, shadow_adjusted_target: Some(target) }] + parents.map_values(
        |p: u64| EventPathItem { invocation_target: p, shadow_adjusted_target: None },
    )
}

/// Builds the event path of a target from its chain of parents.
pub fn build_path_for_target(target: u64, parents: &[u64]) -> (path: Vec<EventPathItem>)
    ensures
        path@ == path_for_target(target, parents@),
{
    let mut path = simple_path(target);
    let mut i: usize = 0;
    while i < parents.len()
        invariant
            i <= parents@.len(),
            path@ == path_for_target(target, parents@.take(i as int)),
        decreases parents@.len() - i,
    {
        let ghost before = path@;
        append_to_event_path(&mut path, parents[i], None);
        assert(parents@.take(i + 1) =~= parents@.take(i as int).push(parents@[i as int]));
        assert(path@ =~= path_for_target(target, parents@.take(i + 1)));
        i = i + 1;
    }
    assert(parents@.take(parents@.len() as int) =~= parents@);
    path
}

/// The activation target of a dispatch: for a click, the target (the
/// first path item) where it has activation behavior.
pub fn activation_target_index(event_type: &str, path: &[EventPathItem], target_has_activation_behavior: bool) -> (r: Option<usize>)
    ensures
        r == if event_type@ == "click"@ && path@.len() > 0 && target_has_activation_behavior {
            Some(0usize)
        } else {
            None
        },
{
    if crate::text::str_eq(event_type, "click") && path.len() > 0 && target_has_activation_behavior {
        Some(0)
    } else {
        None
    }
}

} // verus!
