//! The map of setTimeout and setInterval identifiers of a global object, its
//! timer nesting level, and the steps of a timer task that decide whether
//! the timer goes away or is scheduled again.
//!
//! Waiting for the timeout and running the handler are left to the caller:
//! the operations return the key and timeout to schedule, and the handler
//! to run is read from the map.
use vstd::prelude::*;
use crate::identifiers::{next_free_id, is_next_free_id};
use crate::lookup::{first_match, is_first_match, lemma_first_match_is, lemma_first_match_none, without, lemma_without_single, lemma_without_none};

verus! {

/// One entry of the map of setTimeout and setInterval identifiers.
pub struct WindowTimer<H> {
    /// The identifier handed to script.
    pub id: u32,
    /// The unique handle of the current scheduling of the timer.
    pub timer_key: u128,
    /// The handler and its arguments.
    pub handler: H,
    /// Whether the timer repeats (setInterval).
    pub repeat: bool,
    /// The timeout, in milliseconds.
    pub timeout_ms: u32,
}

/// No two entries share an identifier.
pub open spec fn ids_unique<H>(s: Seq<WindowTimer<H>>) -> bool {
    forall|i: int, j: int| 0 <= i < s.len() && 0 <= j < s.len() && i != j ==> #[trigger] s[i].id != #[trigger] s[j].id
}

pub open spec fn has_id<H>(id: u32) -> spec_fn(WindowTimer<H>) -> bool {
    |t: WindowTimer<H>| t.id == id
}

pub open spec fn has_id_and_key<H>(id: u32, key: u128) -> spec_fn(WindowTimer<H>) -> bool {
    |t: WindowTimer<H>| t.id == id && t.timer_key == key
}

/// The identifiers in use, in order.
pub open spec fn timer_ids<H>(s: Seq<WindowTimer<H>>) -> Seq<u32> {
    s.map_values(|t: WindowTimer<H>| t.id)
}

/// What completing a timer task asks of the caller.
#[derive(PartialEq, Eq, Structural, Debug)]
pub enum TimerCompletion {
    /// The timer was cleared or rescheduled meanwhile: nothing to do.
    Missing,
    /// A one-shot timer: it has been removed from the map.
    Removed,
    /// A repeating timer: its new key is to be scheduled after
    /// `timeout_ms`, with the given nesting level.
    Rescheduled { timeout_ms: u32, nesting_level: u32 },
}

/// The nesting level a repeating timer is scheduled again with.
pub open spec fn next_nesting_level(current: Option<u32>) -> u32 {
    let level = match current {
        Some(l) => l,
        None => 0,
    };
    if level < u32::MAX {
        (level + 1) as u32
    } else {
        level
    }
}

/// The map after completing the task of the timer `(id, key)`, and what is
/// asked of the caller.
pub open spec fn complete_step<H>(
    s: Seq<WindowTimer<H>>,
    nesting: Option<u32>,
    id: u32,
    key: u128,
    next_key: u128,
) -> (Seq<WindowTimer<H>>, TimerCompletion) {
    let i = first_match(s, has_id_and_key::<H>(id, key));
    if i < 0 {
        (s, TimerCompletion::Missing)
    } else if !s[i].repeat {
        (without(s, has_id_and_key::<H>(id, key)), TimerCompletion::Removed)
    } else {
        (
            s.update(i, WindowTimer { timer_key: next_key, ..s[i] }),
            TimerCompletion::Rescheduled {
                timeout_ms: s[i].timeout_ms,
                nesting_level: next_nesting_level(nesting),
            },
        )
    }
}

/// A global object's timers: the map of setTimeout and setInterval
/// identifiers, the last identifier handed out, and the timer nesting level.
pub struct TimerMap<H> {
    timer_callback_identifier: u32,
    timers: Vec<WindowTimer<H>>,
    current_timer_nesting_level: Option<u32>,
}

impl<H> TimerMap<H> {
    /// The entries of the map, oldest first.
    pub closed spec fn entries(&self) -> Seq<WindowTimer<H>> {
        self.timers@
    }

    /// The last identifier handed out.
    pub closed spec fn counter(&self) -> u32 {
        self.timer_callback_identifier
    }

    /// The timer nesting level of the task being run, if any.
    pub closed spec fn nesting(&self) -> Option<u32> {
        self.current_timer_nesting_level
    }

    /// The map's invariant: identifiers are unique.
    pub open spec fn wf(&self) -> bool {
        ids_unique(self.entries())
    }

    /// Every map keeps its identifiers unique.
    #[verifier::type_invariant]
    closed spec fn timers_unique(&self) -> bool {
        ids_unique(self.timers@)
    }

    /// An empty map.
    pub fn new() -> (m: Self)
        ensures
            m.wf(),
            m.entries() == Seq::<WindowTimer<H>>::empty(),
            m.counter() == 0,
            m.nesting() is None,
    {
        TimerMap { timer_callback_identifier: 0, timers: Vec::new(), current_timer_nesting_level: None }
    }

    /// The number of entries.
    pub fn len(&self) -> (n: usize)
        ensures
            n == self.entries().len(),
    {
        self.timers.len()
    }

    /// The timer nesting level.
    pub fn current_timer_nesting_level(&self) -> (l: Option<u32>)
        ensures
            l == self.nesting(),
    {
        self.current_timer_nesting_level
    }

    /// Sets the timer nesting level, returning the previous one.
    pub fn set_current_timer_nesting_level(&mut self, nesting_level: Option<u32>) -> (previous: Option<u32>)
        ensures
            previous == old(self).nesting(),
            final(self).nesting() == nesting_level,
            final(self).entries() == old(self).entries(),
            final(self).counter() == old(self).counter(),
    {
        let previous = self.current_timer_nesting_level;
        proof {
            use_type_invariant(&*self);
        }
        self.current_timer_nesting_level = nesting_level;
        previous
    }

    fn ids(&self) -> (v: Vec<u32>)
        ensures
            v@ == timer_ids(self.entries()),
    {
        let mut v: Vec<u32> = Vec::new();
        let mut i: usize = 0;
        while i < self.timers.len()
            invariant
                i <= self.timers@.len(),
                v@ == timer_ids(self.timers@.take(i as int)),
            decreases self.timers@.len() - i,
        {
            v.push(self.timers[i].id);
            i = i + 1;
            assert(v@ =~= timer_ids(self.timers@.take(i as int)));
        }
        assert(self.timers@.take(i as int) =~= self.timers@);
        v
    }

    /// The index of the entry with the given identifier.
    fn position_of_id(&self, id: u32) -> (r: Option<usize>)
        ensures
            match r {
                Some(i) => i < self.entries().len() && first_match(self.entries(), has_id::<H>(id)) == i,
                None => first_match(self.entries(), has_id::<H>(id)) == -1,
            },
    {
        let mut i: usize = 0;
        while i < self.timers.len()
            invariant
                i <= self.timers@.len(),
                forall|j: int| 0 <= j < i ==> !(#[trigger] has_id::<H>(id)(self.timers@[j])),
            decreases self.timers@.len() - i,
        {
            if self.timers[i].id == id {
                proof {
                    lemma_first_match_is(self.timers@, has_id::<H>(id), i as int);
                }
                return Some(i);
            }
            i = i + 1;
        }
        proof {
            lemma_first_match_none(self.timers@, has_id::<H>(id));
        }
        None
    }

    /// The index of the entry with the given identifier and key.
    fn position_of(&self, id: u32, key: u128) -> (r: Option<usize>)
        ensures
            match r {
                Some(i) => i < self.entries().len() && first_match(self.entries(), has_id_and_key::<H>(id, key)) == i,
                None => first_match(self.entries(), has_id_and_key::<H>(id, key)) == -1,
            },
    {
        let mut i: usize = 0;
        while i < self.timers.len()
            invariant
                i <= self.timers@.len(),
                forall|j: int| 0 <= j < i ==> !(#[trigger] has_id_and_key::<H>(id, key)(self.timers@[j])),
            decreases self.timers@.len() - i,
        {
            if self.timers[i].id == id && self.timers[i].timer_key == key {
                proof {
                    lemma_first_match_is(self.timers@, has_id_and_key::<H>(id, key), i as int);
                }
                return Some(i);
            }
            i = i + 1;
        }
        proof {
            lemma_first_match_none(self.timers@, has_id_and_key::<H>(id, key));
        }
        None
    }

    /// The timer initialisation steps, from the choice of the identifier to
    /// its entry in the map: `previous_id` where given, else a fresh
    /// identifier; an entry already under that identifier is replaced.
    /// Scheduling `timer_key` after `timeout_ms` is left to the caller.
    pub fn timer_initialization_steps(
        &mut self,
        previous_id: Option<u32>,
        handler: H,
        repeat: bool,
        timeout_ms: u32,
        timer_key: u128,
    ) -> (id: u32)
        requires
            previous_id is None ==> old(self).entries().len() < u32::MAX,
        ensures
            final(self).wf(),
            final(self).nesting() == old(self).nesting(),
            match previous_id {
                Some(p) => id == p && final(self).counter() == old(self).counter(),
                None => {
                    &&& id != 0
                    &&& !timer_ids(old(self).entries()).contains(id)
                    &&& is_next_free_id(old(self).counter(), timer_ids(old(self).entries()), id)
                    &&& final(self).counter() == id
                },
            },
            final(self).entries() == without(old(self).entries(), has_id::<H>(id)).push(
                WindowTimer { id, timer_key, handler, repeat, timeout_ms },
            ),
    {
        proof {
            use_type_invariant(&*self);
        }
        let timer_id = match previous_id {
            Some(p) => p,
            None => {
                let used = self.ids();
                let fresh = next_free_id(self.timer_callback_identifier, &used);
                self.timer_callback_identifier = fresh;
                fresh
            },
        };
        let ghost s0 = self.timers@;
        let position = self.position_of_id(timer_id);
        let mut timers: Vec<WindowTimer<H>> = Vec::new();
        std::mem::swap(&mut timers, &mut self.timers);
        match position {
            Some(i) => {
                proof {
                    lemma_first_match_is(s0, has_id::<H>(timer_id), i as int);
                    assert forall|j: int| 0 <= j < s0.len() && j != i implies !(#[trigger] has_id::<H>(timer_id)(s0[j])) by {
                        assert(s0[i as int].id == timer_id);
                    }
                    lemma_without_single(s0, has_id::<H>(timer_id), i as int);
                }
                timers.remove(i);
            },
            None => {
                proof {
                    assert forall|j: int| 0 <= j < s0.len() implies !(#[trigger] has_id::<H>(timer_id)(s0[j])) by {
                        if has_id::<H>(timer_id)(s0[j]) {
                            crate::lookup::lemma_first_match_exists(s0, has_id::<H>(timer_id), j);
                        }
                    }
                    lemma_without_none(s0, has_id::<H>(timer_id));
                }
            },
        }
        let ghost s1 = timers@;
        assert(forall|j: int| 0 <= j < s1.len() ==> (#[trigger] s1[j]).id != timer_id) by {
            crate::lookup::lemma_without_excludes(s0, has_id::<H>(timer_id));
        }
        assert(ids_unique(s1)) by {
            assert(s1 == without(s0, has_id::<H>(timer_id)));
            lemma_without_unique(s0, has_id::<H>(timer_id));
        }
        timers.push(WindowTimer { id: timer_id, timer_key, handler, repeat, timeout_ms });
        assert(ids_unique(timers@)) by {
            assert forall|a: int, b: int| 0 <= a < timers@.len() && 0 <= b < timers@.len() && a != b implies #[trigger] timers@[a].id
                != #[trigger] timers@[b].id by {
                if a < s1.len() && b < s1.len() {
                    assert(timers@[a] == s1[a] && timers@[b] == s1[b]);
                } else if a < s1.len() {
                    assert(timers@[a] == s1[a]);
                } else if b < s1.len() {
                    assert(timers@[b] == s1[b]);
                }
            }
        }
        self.timers = timers;
        timer_id
    }
    /// clearTimeout() and clearInterval(): removes the entry with the given
    /// identifier, returning its key so that the caller can drop the
    /// pending scheduling.
    pub fn clear_timer(&mut self, timer_id: u32) -> (removed_key: Option<u128>)
        ensures
            final(self).wf(),
            final(self).nesting() == old(self).nesting(),
            final(self).counter() == old(self).counter(),
            final(self).entries() == without(old(self).entries(), has_id::<H>(timer_id)),
            match removed_key {
                None => first_match(old(self).entries(), has_id::<H>(timer_id)) == -1,
                Some(k) => {
                    let i = first_match(old(self).entries(), has_id::<H>(timer_id));
                    i >= 0 && k == old(self).entries()[i].timer_key
                },
            },
    {
        proof {
            use_type_invariant(&*self);
        }
        let ghost s0 = self.timers@;
        match self.position_of_id(timer_id) {
            Some(i) => {
                proof {
                    assert forall|j: int| 0 <= j < s0.len() && j != i implies !(#[trigger] has_id::<H>(timer_id)(s0[j])) by {
                        assert(s0[i as int].id == timer_id);
                    }
                    lemma_without_single(s0, has_id::<H>(timer_id), i as int);
                    lemma_without_unique(s0, has_id::<H>(timer_id));
                }
                let mut timers: Vec<WindowTimer<H>> = Vec::new();
                std::mem::swap(&mut timers, &mut self.timers);
                let t = timers.remove(i);
                self.timers = timers;
                Some(t.timer_key)
            },
            None => {
                proof {
                    assert forall|j: int| 0 <= j < s0.len() implies !(#[trigger] has_id::<H>(timer_id)(s0[j])) by {
                        if has_id::<H>(timer_id)(s0[j]) {
                            crate::lookup::lemma_first_match_exists(s0, has_id::<H>(timer_id), j);
                        }
                    }
                    lemma_without_none(s0, has_id::<H>(timer_id));
                }
                None
            },
        }
    }

    /// The entry registered under the identifier with the given key, if the
    /// timer still exists and still maps to that key.
    pub fn window_timer(&self, timer_id: u32, timer_key: u128) -> (t: Option<&WindowTimer<H>>)
        ensures
            match t {
                Some(e) => {
                    let i = first_match(self.entries(), has_id_and_key::<H>(timer_id, timer_key));
                    i >= 0 && *e == self.entries()[i]
                },
                None => first_match(self.entries(), has_id_and_key::<H>(timer_id, timer_key)) == -1,
            },
    {
        match self.position_of(timer_id, timer_key) {
            Some(i) => Some(&self.timers[i]),
            None => None,
        }
    }

    /// Completes the task of the timer `(timer_id, timer_key)` once its
    /// handler ran: a one-shot timer is removed; a repeating one keeps its
    /// identifier and takes `next_key`, to be scheduled again.
    pub fn complete_window_timer(&mut self, timer_id: u32, timer_key: u128, next_key: u128) -> (out: TimerCompletion)
        ensures
            final(self).wf(),
            final(self).nesting() == old(self).nesting(),
            final(self).counter() == old(self).counter(),
            (final(self).entries(), out) == complete_step(
                old(self).entries(),
                old(self).nesting(),
                timer_id,
                timer_key,
                next_key,
            ),
    {
        proof {
            use_type_invariant(&*self);
        }
        let ghost s0 = self.timers@;
        let i = match self.position_of(timer_id, timer_key) {
            None => return TimerCompletion::Missing,
            Some(i) => i,
        };
        if !self.timers[i].repeat {
            proof {
                assert forall|j: int| 0 <= j < s0.len() && j != i implies !(#[trigger] has_id_and_key::<H>(timer_id, timer_key)(s0[j])) by {
                    assert(s0[i as int].id == timer_id);
                }
                lemma_without_single(s0, has_id_and_key::<H>(timer_id, timer_key), i as int);
                lemma_without_unique(s0, has_id_and_key::<H>(timer_id, timer_key));
            }
            let mut timers: Vec<WindowTimer<H>> = Vec::new();
            std::mem::swap(&mut timers, &mut self.timers);
            timers.remove(i);
            self.timers = timers;
            return TimerCompletion::Removed;
        }
        let level = match self.current_timer_nesting_level {
            Some(l) => l,
            None => 0,
        };
        let nesting_level = level.saturating_add(1);
        let timeout_ms = self.timers[i].timeout_ms;
        let mut timers: Vec<WindowTimer<H>> = Vec::new();
        std::mem::swap(&mut timers, &mut self.timers);
        timers[i].timer_key = next_key;
        proof {
            assert(timers@ =~= s0.update(i as int, WindowTimer { timer_key: next_key, ..s0[i as int] }));
            assert forall|a: int, b: int| 0 <= a < timers@.len() && 0 <= b < timers@.len() && a != b implies #[trigger] timers@[a].id != #[trigger] timers@[b].id by {
                assert(timers@[a].id == s0[a].id && timers@[b].id == s0[b].id);
            }
        }
        self.timers = timers;
        TimerCompletion::Rescheduled { timeout_ms, nesting_level }
    }

    /// Empties the map, returning the keys of the timers that were pending,
    /// oldest first.
    pub fn clear_all_timers(&mut self) -> (keys: Vec<u128>)
        ensures
            final(self).wf(),
            final(self).entries() == Seq::<WindowTimer<H>>::empty(),
            final(self).nesting() == old(self).nesting(),
            final(self).counter() == old(self).counter(),
            keys@ == old(self).entries().map_values(|t: WindowTimer<H>| t.timer_key),
    {
        let mut keys: Vec<u128> = Vec::new();
        let mut i: usize = 0;
        while i < self.timers.len()
            invariant
                i <= self.timers@.len(),
                keys@ == self.timers@.take(i as int).map_values(|t: WindowTimer<H>| t.timer_key),
            decreases self.timers@.len() - i,
        {
            keys.push(self.timers[i].timer_key);
            i = i + 1;
            assert(keys@ =~= self.timers@.take(i as int).map_values(|t: WindowTimer<H>| t.timer_key));
        }
        assert(self.timers@.take(i as int) =~= self.timers@);
        self.timers = Vec::new();
        keys
    }

    /// The first half of a timer task: the nesting level becomes the task's;
    /// where the timer no longer exists the level is put back at once.
    /// Returns the previous level and whether the handler is to run.
    pub fn begin_timer_task(&mut self, timer_id: u32, timer_key: u128, nesting_level: u32) -> (r: (
        Option<u32>,
        bool,
    ))
        ensures
            r.0 == old(self).nesting(),
            r.1 == (first_match(old(self).entries(), has_id_and_key::<H>(timer_id, timer_key)) >= 0),
            final(self).nesting() == (if r.1 {
                Some(nesting_level)
            } else {
                old(self).nesting()
            }),
            final(self).entries() == old(self).entries(),
            final(self).counter() == old(self).counter(),
    {
        proof {
            use_type_invariant(&*self);
        }
        let previous = self.current_timer_nesting_level;
        self.current_timer_nesting_level = Some(nesting_level);
        let found = self.position_of(timer_id, timer_key).is_some();
        if !found {
            self.current_timer_nesting_level = previous;
        }
        (previous, found)
    }

    /// The second half of a timer task, once the handler ran: the timer is
    /// completed and the nesting level put back to `previous`.
    pub fn end_timer_task(&mut self, timer_id: u32, timer_key: u128, next_key: u128, previous: Option<u32>) -> (out: TimerCompletion)
        ensures
            final(self).wf(),
            (final(self).entries(), out) == complete_step(
                old(self).entries(),
                old(self).nesting(),
                timer_id,
                timer_key,
                next_key,
            ),
            final(self).nesting() == previous,
            final(self).counter() == old(self).counter(),
    {
        let out = self.complete_window_timer(timer_id, timer_key, next_key);
        proof {
            use_type_invariant(&*self);
        }
        self.current_timer_nesting_level = previous;
        out
    }

}

/// Removing entries keeps identifiers unique.
pub proof fn lemma_without_unique<H>(s: Seq<WindowTimer<H>>, p: spec_fn(WindowTimer<H>) -> bool)
    requires
        ids_unique(s),
    ensures
        ids_unique(without(s, p)),
        forall|x: WindowTimer<H>| without(s, p).contains(x) ==> s.contains(x),
    decreases s.len(),
{
    if s.len() > 0 {
        let t = s.drop_first();
        assert(ids_unique(t)) by {
            assert forall|i: int, j: int| 0 <= i < t.len() && 0 <= j < t.len() && i != j implies #[trigger] t[i].id != #[trigger] t[j].id by {
                assert(t[i] == s[i + 1] && t[j] == s[j + 1]);
            }
        }
        lemma_without_unique(t, p);
        if !p(s[0]) {
            let w = without(t, p);
            let r = seq![s[0]] + w;
            assert forall|x: WindowTimer<H>| r.contains(x) implies s.contains(x) by {
                let k = choose|k: int| 0 <= k < r.len() && r[k] == x;
                if k > 0 {
                    assert(r[k] == w[k - 1]);
                    assert(w.contains(x));
                    assert(t.contains(x));
                    let m = choose|m: int| 0 <= m < t.len() && t[m] == x;
                    assert(s[m + 1] == x);
                } else {
                    assert(s[0] == x);
                }
            }
            assert forall|i: int, j: int| 0 <= i < r.len() && 0 <= j < r.len() && i != j implies #[trigger] r[i].id != #[trigger] r[j].id by {
                if i > 0 && j > 0 {
                    assert(r[i] == w[i - 1] && r[j] == w[j - 1]);
                } else {
                    let k = if i == 0 { j } else { i };
                    assert(r[k] == w[k - 1]);
                    assert(w.contains(w[k - 1]));
                    assert(t.contains(w[k - 1]));
                    let m = choose|m: int| 0 <= m < t.len() && t[m] == w[k - 1];
                    assert(s[m + 1] == t[m]);
                    assert(s[0].id != s[m + 1].id);
                }
            }
        } else {
            assert forall|x: WindowTimer<H>| without(s, p).contains(x) implies s.contains(x) by {
                assert(t.contains(x));
                let m = choose|m: int| 0 <= m < t.len() && t[m] == x;
                assert(s[m + 1] == x);
            }
        }
    }
}


/// A one-shot timer whose task completes leaves the map: no entry keeps
/// its identifier, and every other entry stays, in order.
pub proof fn law_one_shot_timer_is_removed<H>(
    s: Seq<WindowTimer<H>>,
    nesting: Option<u32>,
    id: u32,
    key: u128,
    next_key: u128,
)
    requires
        ids_unique(s),
        first_match(s, has_id_and_key::<H>(id, key)) >= 0,
        !s[first_match(s, has_id_and_key::<H>(id, key))].repeat,
    ensures
        ({
            let (s1, out) = complete_step(s, nesting, id, key, next_key);
            &&& out == TimerCompletion::Removed
            &&& s1 == s.remove(first_match(s, has_id_and_key::<H>(id, key)))
            &&& forall|j: int| 0 <= j < s1.len() ==> (#[trigger] s1[j]).id != id
        }),
{
    let i = first_match(s, has_id_and_key::<H>(id, key));
    crate::lookup::lemma_first_match_range(s, has_id_and_key::<H>(id, key));
    assert forall|j: int| 0 <= j < s.len() && j != i implies !(#[trigger] has_id_and_key::<H>(id, key)(s[j])) by {
        assert(s[i].id == id);
    }
    lemma_without_single(s, has_id_and_key::<H>(id, key), i);
    let s1 = s.remove(i);
    assert forall|j: int| 0 <= j < s1.len() implies (#[trigger] s1[j]).id != id by {
        if j < i {
            assert(s1[j] == s[j]);
        } else {
            assert(s1[j] == s[j + 1]);
        }
    }
}

/// A repeating timer whose task completes keeps its identifier and its
/// place, takes the new key, and is scheduled again one nesting level
/// deeper.
pub proof fn law_interval_is_rescheduled<H>(
    s: Seq<WindowTimer<H>>,
    nesting: Option<u32>,
    id: u32,
    key: u128,
    next_key: u128,
)
    requires
        ids_unique(s),
        first_match(s, has_id_and_key::<H>(id, key)) >= 0,
        s[first_match(s, has_id_and_key::<H>(id, key))].repeat,
    ensures
        ({
            let i = first_match(s, has_id_and_key::<H>(id, key));
            let (s1, out) = complete_step(s, nesting, id, key, next_key);
            &&& s1.len() == s.len()
            &&& s1[i].id == id
            &&& s1[i].timer_key == next_key
            &&& s1[i].handler == s[i].handler
            &&& out == TimerCompletion::Rescheduled {
                timeout_ms: s[i].timeout_ms,
                nesting_level: next_nesting_level(nesting),
            }
            &&& ids_unique(s1)
        }),
{
    let i = first_match(s, has_id_and_key::<H>(id, key));
    crate::lookup::lemma_first_match_range(s, has_id_and_key::<H>(id, key));
    let s1 = s.update(i, WindowTimer { timer_key: next_key, ..s[i] });
    assert forall|a: int, b: int| 0 <= a < s1.len() && 0 <= b < s1.len() && a != b implies #[trigger] s1[a].id != #[trigger] s1[b].id by {
        assert(s1[a].id == s[a].id && s1[b].id == s[b].id);
    }
}

} // verus!
