//! Abort signals: their aborted state and reason, their abort algorithms,
//! and the source and dependent signals that tie signals made with
//! AbortSignal.any() to the signals they follow.
//!
//! Signals are kept in an arena and named by index. Reasons, callbacks and
//! the targets of algorithms are named by identities the caller assigns;
//! signal abort takes the algorithms of each signal it aborts and hands
//! them over; running them and firing abort events is left to the caller.
use vstd::prelude::*;
use crate::lookup::{without};

verus! {

/// An abort algorithm, named by what identifies it.
#[derive(Clone, Copy, PartialEq, Eq, Structural, Debug)]
pub enum AbortAlgorithm {
    /// A native callback.
    Native { callback: u64 },
    /// Removing an event listener from a target.
    RemoveEventListener { event_target: u64, listener_id: u64 },
    /// The abort algorithm of a pipe.
    ReadableStreamPipeTo { state: u64 },
}

/// Whether two entries name the same algorithm: the same callback, the same
/// listener (whatever the target), or the same pipe.
pub open spec fn matches_entry_spec(a: AbortAlgorithm, b: AbortAlgorithm) -> bool {
    match (a, b) {
        (AbortAlgorithm::Native { callback: x }, AbortAlgorithm::Native { callback: y }) => x == y,
        (
            AbortAlgorithm::RemoveEventListener { listener_id: x, .. },
            AbortAlgorithm::RemoveEventListener { listener_id: y, .. },
        ) => x == y,
        (AbortAlgorithm::ReadableStreamPipeTo { state: x }, AbortAlgorithm::ReadableStreamPipeTo { state: y }) => x == y,
        _ => false,
    }
}

impl AbortAlgorithm {
    pub fn matches_entry(&self, other: &Self) -> (b: bool)
        ensures
            b == matches_entry_spec(*self, *other),
    {
        match (self, other) {
            (AbortAlgorithm::Native { callback: x }, AbortAlgorithm::Native { callback: y }) => *x == *y,
            (
                AbortAlgorithm::RemoveEventListener { listener_id: x, .. },
                AbortAlgorithm::RemoveEventListener { listener_id: y, .. },
            ) => *x == *y,
            (AbortAlgorithm::ReadableStreamPipeTo { state: x }, AbortAlgorithm::ReadableStreamPipeTo { state: y }) => *x
                == *y,
            _ => false,
        }
    }
}

pub open spec fn matches_alg(a: AbortAlgorithm) -> spec_fn(AbortAlgorithm) -> bool {
    |c: AbortAlgorithm| matches_entry_spec(c, a)
}

/// The state of one signal.
pub struct SignalState {
    pub aborted: bool,
    /// The abort reason; none while it is undefined.
    pub reason: Option<u64>,
    pub algorithms: Vec<AbortAlgorithm>,
    pub dependent: bool,
    pub sources: Vec<usize>,
    pub dependents: Vec<usize>,
    pub onabort: Option<u64>,
}

pub struct SignalModel {
    pub aborted: bool,
    pub reason: Option<u64>,
    pub algorithms: Seq<AbortAlgorithm>,
    pub dependent: bool,
    pub sources: Seq<usize>,
    pub dependents: Seq<usize>,
    pub onabort: Option<u64>,
}

impl View for SignalState {
    type V = SignalModel;

    open spec fn view(&self) -> SignalModel {
        SignalModel {
            aborted: self.aborted,
            reason: self.reason,
            algorithms: self.algorithms@,
            dependent: self.dependent,
            sources: self.sources@,
            dependents: self.dependents@,
            onabort: self.onabort,
        }
    }
}

/// The arena's invariant: the signals named in source and dependent lists
/// exist, a signal's sources are not dependent themselves, and each
/// source lists the signal among its dependents.
pub open spec fn signals_wf(s: Seq<SignalModel>) -> bool {
    forall|r: int, k: int|
        #![trigger s[r].sources[k]]
        0 <= r < s.len() && 0 <= k < s[r].sources.len() ==> {
            let src = s[r].sources[k] as int;
            &&& 0 <= src < s.len()
            &&& !s[src].dependent
            &&& s[src].dependents.contains(r as usize)
        }
}

/// A list with a value appended where it is not listed yet.
pub open spec fn append_unique_spec(v: Seq<usize>, x: usize) -> Seq<usize> {
    if v.contains(x) {
        v
    } else {
        v.push(x)
    }
}

/// Appending each value in order where it is not listed yet.
pub open spec fn append_all_unique_spec(v: Seq<usize>, xs: Seq<usize>) -> Seq<usize>
    decreases xs.len(),
{
    if xs.len() == 0 {
        v
    } else {
        append_unique_spec(append_all_unique_spec(v, xs.drop_last()), xs.last())
    }
}

/// What a dependent signal follows for the given signals, in order: each
/// signal that is not dependent itself, and the sources of each one that
/// is.
pub open spec fn followed_sources(s: Seq<SignalModel>, signals: Seq<usize>) -> Seq<usize>
    decreases signals.len(),
{
    if signals.len() == 0 {
        Seq::empty()
    } else {
        let last = signals.last();
        followed_sources(s, signals.drop_last()) + (if s[last as int].dependent {
            s[last as int].sources
        } else {
            seq![last]
        })
    }
}

/// The signals, by index.
struct SignalArena {
    signals: Vec<SignalState>,
}

impl View for SignalArena {
    type V = Seq<SignalModel>;

    closed spec fn view(&self) -> Seq<SignalModel> {
        self.signals@.map_values(|st: SignalState| st@)
    }
}

/// A new signal's state.
pub open spec fn fresh_signal(aborted: bool, reason: Option<u64>) -> SignalModel {
    SignalModel {
        aborted,
        reason,
        algorithms: Seq::empty(),
        dependent: false,
        sources: Seq::empty(),
        dependents: Seq::empty(),
        onabort: None,
    }
}

/// Aborting a signal: nothing where it is aborted already; otherwise it
/// and each of its dependents not aborted yet take the reason. The second
/// component lists the signals whose abort steps are to run, in order.
pub open spec fn signal_abort_spec(s: Seq<SignalModel>, id: int, reason: u64) -> (Seq<SignalModel>, Seq<usize>) {
    if s[id].aborted {
        (s, Seq::empty())
    } else {
        let s1 = s.update(id, SignalModel { aborted: true, reason: Some(reason), ..s[id] });
        let (s2, deps) = abort_dependents(s1, s[id].dependents, reason);
        (s2, seq![id as usize] + deps)
    }
}

/// Aborting, in order, the listed dependents not aborted yet.
pub open spec fn abort_dependents(s: Seq<SignalModel>, deps: Seq<usize>, reason: u64) -> (Seq<SignalModel>, Seq<usize>)
    decreases deps.len(),
{
    if deps.len() == 0 {
        (s, Seq::empty())
    } else {
        let (s1, done) = abort_dependents(s, deps.drop_last(), reason);
        let d = deps.last() as int;
        if 0 <= d < s1.len() && !s1[d].aborted {
            (s1.update(d, SignalModel { aborted: true, reason: Some(reason), ..s1[d] }), done.push(d as usize))
        } else {
            (s1, done)
        }
    }
}

/// The abort steps of one signal: the signal, at which `abort` is fired,
/// and the abort algorithms it gave up, to be run in order first.
#[derive(Clone, Debug)]
pub struct AbortStep {
    pub signal: usize,
    pub algorithms: Vec<AbortAlgorithm>,
}

/// The listed signals give up their abort algorithms, in order.
pub open spec fn take_algorithms_spec(s: Seq<SignalModel>, ids: Seq<usize>) -> Seq<SignalModel>
    decreases ids.len(),
{
    if ids.len() == 0 {
        s
    } else {
        let s1 = take_algorithms_spec(s, ids.drop_last());
        let d = ids.last() as int;
        if 0 <= d < s1.len() {
            s1.update(d, SignalModel { algorithms: Seq::empty(), ..s1[d] })
        } else {
            s1
        }
    }
}

impl SignalArena {
    pub fn new() -> (a: Self)
        ensures
            a@ == Seq::<SignalModel>::empty(),
    {
        let a = SignalArena { signals: Vec::new() };
        assert(a@ =~= Seq::<SignalModel>::empty());
        a
    }

    pub fn len(&self) -> (n: usize)
        ensures
            n == self@.len(),
    {
        self.signals.len()
    }

    proof fn lemma_view(&self, i: int)
        requires
            0 <= i < self.signals@.len(),
        ensures
            self@[i] == self.signals@[i]@,
            self@.len() == self.signals@.len(),
    {
    }

    fn push_signal(&mut self, aborted: bool, reason: Option<u64>) -> (id: usize)
        requires
            signals_wf(old(self)@),
            old(self)@.len() < usize::MAX,
        ensures
            id == old(self)@.len(),
            final(self)@ == old(self)@.push(fresh_signal(aborted, reason)),
            signals_wf(final(self)@),
    {
        let id = self.signals.len();
        let st = SignalState {
            aborted,
            reason,
            algorithms: Vec::new(),
            dependent: false,
            sources: Vec::new(),
            dependents: Vec::new(),
            onabort: None,
        };
        let ghost old_v = self.signals@;
        self.signals.push(st);
        proof {
            assert(st@ == fresh_signal(aborted, reason)) by {
                assert(st@.algorithms =~= Seq::<AbortAlgorithm>::empty());
                assert(st@.sources =~= Seq::<usize>::empty());
                assert(st@.dependents =~= Seq::<usize>::empty());
            }
            assert(self@ =~= old(self)@.push(st@));
            let s = self@;
            let s0 = old(self)@;
            assert forall|r: int, k: int| #![trigger s[r].sources[k]] 0 <= r < s.len() && 0 <= k < s[r].sources.len() implies {
                let src = s[r].sources[k] as int;
                &&& 0 <= src < s.len()
                &&& !s[src].dependent
                &&& s[src].dependents.contains(r as usize)
            } by {
                assert(r < s0.len());
                assert(s[r] == s0[r]);
                let src = s0[r].sources[k] as int;
                assert(s[src] == s0[src]);
            }
        }
        id
    }

    /// A new signal, not aborted.
    pub fn new_signal(&mut self) -> (id: usize)
        requires
            signals_wf(old(self)@),
            old(self)@.len() < usize::MAX,
        ensures
            id == old(self)@.len(),
            final(self)@ == old(self)@.push(fresh_signal(false, None)),
            signals_wf(final(self)@),
    {
        self.push_signal(false, None)
    }

    /// A new signal, aborted with the given reason.
    pub fn aborted_with_reason(&mut self, reason: u64) -> (id: usize)
        requires
            signals_wf(old(self)@),
            old(self)@.len() < usize::MAX,
        ensures
            id == old(self)@.len(),
            final(self)@ == old(self)@.push(fresh_signal(true, Some(reason))),
            signals_wf(final(self)@),
    {
        self.push_signal(true, Some(reason))
    }

    pub fn aborted_value(&self, id: usize) -> (b: bool)
        requires
            id < self@.len(),
        ensures
            b == self@[id as int].aborted,
    {
        proof {
            self.lemma_view(id as int);
        }
        self.signals[id].aborted
    }

    pub fn reason_value(&self, id: usize) -> (r: Option<u64>)
        requires
            id < self@.len(),
        ensures
            r == self@[id as int].reason,
    {
        proof {
            self.lemma_view(id as int);
        }
        self.signals[id].reason
    }

    pub fn dependent_value(&self, id: usize) -> (b: bool)
        requires
            id < self@.len(),
        ensures
            b == self@[id as int].dependent,
    {
        proof {
            self.lemma_view(id as int);
        }
        self.signals[id].dependent
    }

    pub fn onabort_value(&self, id: usize) -> (r: Option<u64>)
        requires
            id < self@.len(),
        ensures
            r == self@[id as int].onabort,
    {
        proof {
            self.lemma_view(id as int);
        }
        self.signals[id].onabort
    }

    pub fn source_signals_value(&self, id: usize) -> (v: Vec<usize>)
        requires
            id < self@.len(),
        ensures
            v@ == self@[id as int].sources,
    {
        proof {
            self.lemma_view(id as int);
        }
        crate::dom::copy_ids(&self.signals[id].sources)
    }

    pub fn dependent_signals_value(&self, id: usize) -> (v: Vec<usize>)
        requires
            id < self@.len(),
        ensures
            v@ == self@[id as int].dependents,
    {
        proof {
            self.lemma_view(id as int);
        }
        crate::dom::copy_ids(&self.signals[id].dependents)
    }

    /// Takes a signal's state out, leaving an empty one until it is put
    /// back.
    fn take(&mut self, id: usize) -> (st: SignalState)
        requires
            id < old(self)@.len(),
        ensures
            st@ == old(self)@[id as int],
            final(self)@.len() == old(self)@.len(),
            forall|j: int| 0 <= j < old(self)@.len() && j != id ==> final(self)@[j] == old(self)@[j],
    {
        let ghost old_v = self.signals@;
        let mut tmp = SignalState {
            aborted: false,
            reason: None,
            algorithms: Vec::new(),
            dependent: false,
            sources: Vec::new(),
            dependents: Vec::new(),
            onabort: None,
        };
        std::mem::swap(&mut tmp, &mut self.signals[id]);
        proof {
            assert(old(self)@[id as int] == old_v[id as int]@);
            assert forall|j: int| 0 <= j < old(self)@.len() && j != id implies self@[j] == old(self)@[j] by {
                assert(self.signals@[j] == old_v[j]);
            }
        }
        tmp
    }

    fn put(&mut self, id: usize, st: SignalState)
        requires
            id < old(self)@.len(),
        ensures
            final(self)@ == old(self)@.update(id as int, st@),
    {
        let ghost old_v = self.signals@;
        self.signals.set(id, st);
        proof {
            assert(old(self)@ == old_v.map_values(|st: SignalState| st@));
            assert(self@ =~= old(self)@.update(id as int, st@));
        }
    }

    /// Sets the onabort handler, returning the previous one.
    pub fn replace_onabort(&mut self, id: usize, callback: Option<u64>) -> (previous: Option<u64>)
        requires
            id < old(self)@.len(),
            signals_wf(old(self)@),
        ensures
            previous == old(self)@[id as int].onabort,
            final(self)@ == old(self)@.update(id as int, SignalModel { onabort: callback, ..old(self)@[id as int] }),
            signals_wf(final(self)@),
    {
        let ghost s0 = self@;
        let mut st = self.take(id);
        let previous = st.onabort;
        st.onabort = callback;
        self.put(id, st);
        proof {
            assert(self@ =~= s0.update(id as int, SignalModel { onabort: callback, ..s0[id as int] }));
            lemma_wf_same_links(s0, self@);
        }
        previous
    }

    /// Adds an abort algorithm.
    pub fn add_abort_algorithm(&mut self, id: usize, algorithm: AbortAlgorithm)
        requires
            id < old(self)@.len(),
            signals_wf(old(self)@),
        ensures
            final(self)@ == old(self)@.update(
                id as int,
                SignalModel { algorithms: old(self)@[id as int].algorithms.push(algorithm), ..old(self)@[id as int] },
            ),
            signals_wf(final(self)@),
    {
        let ghost s0 = self@;
        let mut st = self.take(id);
        st.algorithms.push(algorithm);
        self.put(id, st);
        proof {
            assert(self@ =~= s0.update(id as int, SignalModel { algorithms: s0[id as int].algorithms.push(algorithm), ..s0[id as int] }));
            lemma_wf_same_links(s0, self@);
        }
    }

    /// Removes the abort algorithms matching the one given.
    pub fn remove_abort_algorithm(&mut self, id: usize, algorithm: &AbortAlgorithm)
        requires
            id < old(self)@.len(),
            signals_wf(old(self)@),
        ensures
            final(self)@ == old(self)@.update(
                id as int,
                SignalModel {
                    algorithms: without(old(self)@[id as int].algorithms, matches_alg(*algorithm)),
                    ..old(self)@[id as int]
                },
            ),
            signals_wf(final(self)@),
    {
        let ghost s0 = self@;
        let mut st = self.take(id);
        let mut rest: Vec<AbortAlgorithm> = Vec::new();
        std::mem::swap(&mut rest, &mut st.algorithms);
        let ghost orig = rest@;
        let ghost p = matches_alg(*algorithm);
        let mut kept: Vec<AbortAlgorithm> = Vec::new();
        while rest.len() > 0
            invariant
                p == matches_alg(*algorithm),
                kept@ + without(rest@, p) == without(orig, p),
            decreases rest@.len(),
        {
            let ghost r0 = rest@;
            proof {
                crate::global_scope::lemma_without_step(r0, p);
            }
            let a = rest.remove(0);
            assert(rest@ =~= r0.drop_first());
            if !a.matches_entry(algorithm) {
                let ghost k0 = kept@;
                kept.push(a);
                assert(kept@ + without(rest@, p) =~= k0 + (seq![a] + without(r0.drop_first(), p)));
            }
        }
        assert(without(rest@, p) =~= Seq::<AbortAlgorithm>::empty());
        assert(kept@ =~= without(orig, p));
        st.algorithms = kept;
        self.put(id, st);
        proof {
            assert(self@ =~= s0.update(id as int, SignalModel { algorithms: without(s0[id as int].algorithms, p), ..s0[id as int] }));
            lemma_wf_same_links(s0, self@);
        }
    }

    /// Takes the abort algorithms of a signal, leaving it none.
    pub fn take_abort_algorithms(&mut self, id: usize) -> (algorithms: Vec<AbortAlgorithm>)
        requires
            id < old(self)@.len(),
            signals_wf(old(self)@),
        ensures
            algorithms@ == old(self)@[id as int].algorithms,
            final(self)@ == old(self)@.update(id as int, SignalModel { algorithms: Seq::empty(), ..old(self)@[id as int] }),
            signals_wf(final(self)@),
    {
        let ghost s0 = self@;
        let mut st = self.take(id);
        let mut taken: Vec<AbortAlgorithm> = Vec::new();
        std::mem::swap(&mut taken, &mut st.algorithms);
        self.put(id, st);
        proof {
            assert(self@ =~= s0.update(id as int, SignalModel { algorithms: Seq::empty(), ..s0[id as int] }));
            lemma_wf_same_links(s0, self@);
        }
        taken
    }

    /// Marks a signal aborted with a reason.
    fn mark_aborted(&mut self, id: usize, reason: u64)
        requires
            id < old(self)@.len(),
            signals_wf(old(self)@),
        ensures
            final(self)@ == old(self)@.update(id as int, SignalModel { aborted: true, reason: Some(reason), ..old(self)@[id as int] }),
            signals_wf(final(self)@),
    {
        let ghost s0 = self@;
        let mut st = self.take(id);
        st.aborted = true;
        st.reason = Some(reason);
        self.put(id, st);
        proof {
            assert(self@ =~= s0.update(id as int, SignalModel { aborted: true, reason: Some(reason), ..s0[id as int] }));
            lemma_wf_same_links(s0, self@);
        }
    }

    /// Sets a signal's abort reason, marking it aborted.
    pub fn set_aborted_reason(&mut self, id: usize, reason: u64)
        requires
            id < old(self)@.len(),
            signals_wf(old(self)@),
        ensures
            final(self)@ == old(self)@.update(id as int, SignalModel { aborted: true, reason: Some(reason), ..old(self)@[id as int] }),
            signals_wf(final(self)@),
    {
        self.mark_aborted(id, reason);
    }

    /// The signal and its dependents not aborted yet take the reason;
    /// returns the signals so aborted, in order.
    fn abort_with_dependents(&mut self, id: usize, reason: u64) -> (to_run: Vec<usize>)
        requires
            id < old(self)@.len(),
            signals_wf(old(self)@),
        ensures
            (final(self)@, to_run@) == signal_abort_spec(old(self)@, id as int, reason),
            signals_wf(final(self)@),
    {
        let mut to_run: Vec<usize> = Vec::new();
        if self.aborted_value(id) {
            assert(to_run@ =~= Seq::<usize>::empty());
            return to_run;
        }
        let deps = self.dependent_signals_value(id);
        self.mark_aborted(id, reason);
        to_run.push(id);
        let ghost s1 = self@;
        let mut i: usize = 0;
        while i < deps.len()
            invariant
                i <= deps@.len(),
                signals_wf(self@),
                self@.len() == old(self)@.len(),
                (self@, to_run@) == (
                    abort_dependents(s1, deps@.take(i as int), reason).0,
                    seq![id] + abort_dependents(s1, deps@.take(i as int), reason).1,
                ),
            decreases deps@.len() - i,
        {
            let d = deps[i];
            proof {
                let t = deps@.take(i as int + 1);
                assert(t.drop_last() =~= deps@.take(i as int));
                assert(t.last() == d);
                lemma_abort_dependents_len(s1, deps@.take(i as int), reason);
            }
            if d < self.signals.len() && !self.aborted_value(d) {
                self.mark_aborted(d, reason);
                to_run.push(d);
            }
            i = i + 1;
            assert(to_run@ =~= seq![id] + abort_dependents(s1, deps@.take(i as int), reason).1);
        }
        assert(deps@.take(i as int) =~= deps@);
        to_run
    }

    /// Signal abort: the signal and its dependents not aborted yet take the
    /// reason (the caller makes the AbortError reason for an undefined
    /// one). Then the abort steps of each signal so aborted, in order, take
    /// its abort algorithms, leaving it none; the steps are returned so
    /// that the caller runs the algorithms and fires `abort` at each
    /// signal. Nothing changes and nothing is returned where the signal was
    /// aborted already.
    pub fn signal_abort(&mut self, id: usize, reason: u64) -> (steps: Vec<AbortStep>)
        requires
            id < old(self)@.len(),
            signals_wf(old(self)@),
        ensures
            ({
                let (s2, ids) = signal_abort_spec(old(self)@, id as int, reason);
                &&& final(self)@ == take_algorithms_spec(s2, ids)
                &&& steps@.len() == ids.len()
                &&& forall|k: int|
                    0 <= k < ids.len() ==> (#[trigger] steps@[k]).signal == ids[k] && steps@[k].algorithms@
                        == take_algorithms_spec(s2, ids.take(k))[ids[k] as int].algorithms
            }),
            signals_wf(final(self)@),
    {
        let ghost s0 = self@;
        let ids = self.abort_with_dependents(id, reason);
        let ghost s2 = self@;
        proof {
            lemma_signal_abort_ids(s0, id as int, reason);
        }
        let mut steps: Vec<AbortStep> = Vec::new();
        let mut k: usize = 0;
        while k < ids.len()
            invariant
                k <= ids@.len(),
                signals_wf(self@),
                s2.len() == s0.len(),
                forall|j: int| 0 <= j < ids@.len() ==> #[trigger] ids@[j] < s0.len(),
                self@ == take_algorithms_spec(s2, ids@.take(k as int)),
                steps@.len() == k,
                forall|j: int|
                    0 <= j < k ==> (#[trigger] steps@[j]).signal == ids@[j] && steps@[j].algorithms@
                        == take_algorithms_spec(s2, ids@.take(j))[ids@[j] as int].algorithms,
            decreases ids@.len() - k,
        {
            let d = ids[k];
            proof {
                lemma_take_algorithms_len(s2, ids@.take(k as int));
                let t = ids@.take(k as int + 1);
                assert(t.drop_last() =~= ids@.take(k as int));
                assert(t.last() == d);
            }
            let algorithms = self.take_abort_algorithms(d);
            steps.push(AbortStep { signal: d, algorithms });
            k = k + 1;
        }
        assert(ids@.take(k as int) =~= ids@);
        steps
    }

    fn append_unique(v: &mut Vec<usize>, x: usize)
        ensures
            final(v)@ == append_unique_spec(old(v)@, x),
    {
        let mut i: usize = 0;
        while i < v.len()
            invariant
                i <= v@.len(),
                v@ == old(v)@,
                forall|j: int| 0 <= j < i ==> v@[j] != x,
            decreases v@.len() - i,
        {
            if v[i] == x {
                return;
            }
            i = i + 1;
        }
        v.push(x);
    }

    /// Appends `src` to the sources of `r`, and `r` to the dependents of
    /// `src`, each where it is not listed yet.
    fn link(&mut self, r: usize, src: usize)
        requires
            r < old(self)@.len(),
            src < old(self)@.len(),
            r != src,
            !old(self)@[src as int].dependent,
            signals_wf(old(self)@),
        ensures
            signals_wf(final(self)@),
            final(self)@.len() == old(self)@.len(),
            final(self)@ == old(self)@.update(
                r as int,
                SignalModel { sources: append_unique_spec(old(self)@[r as int].sources, src), ..old(self)@[r as int] },
            ).update(
                src as int,
                SignalModel { dependents: append_unique_spec(old(self)@[src as int].dependents, r), ..old(self)@[src as int] },
            ),
            forall|j: int| #![trigger final(self)@[j]] 0 <= j < old(self)@.len() ==> final(self)@[j].aborted == old(self)@[j].aborted
                && final(self)@[j].dependent == old(self)@[j].dependent && final(self)@[j].reason == old(self)@[j].reason,
            final(self)@[r as int].sources.contains(src),
            final(self)@[src as int].dependents.contains(r),
            forall|j: int, k: int| #![trigger final(self)@[j].sources[k]] 0 <= j < old(self)@.len() && 0 <= k < final(self)@[j].sources.len() ==> (
                (j == r && final(self)@[j].sources[k] == src) || old(self)@[j].sources.contains(final(self)@[j].sources[k])),
    {
        let ghost s0 = self@;
        let mut st = self.take(r);
        Self::append_unique(&mut st.sources, src);
        self.put(r, st);
        let ghost s1 = self@;
        assert(s1 =~= s0.update(r as int, SignalModel { sources: append_unique_spec(s0[r as int].sources, src), ..s0[r as int] }));
        let mut sd = self.take(src);
        Self::append_unique(&mut sd.dependents, r);
        self.put(src, sd);
        proof {
            let s2 = self@;
            assert(s2 =~= s1.update(src as int, SignalModel { dependents: append_unique_spec(s1[src as int].dependents, r), ..s1[src as int] }));
            assert(s2[r as int].sources.contains(src)) by {
                if !s0[r as int].sources.contains(src) {
                    assert(s2[r as int].sources[s0[r as int].sources.len() as int] == src);
                }
            }
            assert(s2[src as int].dependents.contains(r)) by {
                if !s1[src as int].dependents.contains(r) {
                    assert(s2[src as int].dependents[s1[src as int].dependents.len() as int] == r);
                }
            }
            assert forall|j: int, k: int| #![trigger s2[j].sources[k]] 0 <= j < s0.len() && 0 <= k < s2[j].sources.len() implies (
                (j == r && s2[j].sources[k] == src) || s0[j].sources.contains(s2[j].sources[k])) by {
                if j == r {
                    if k < s0[r as int].sources.len() {
                        assert(s2[j].sources[k] == s0[j].sources[k]);
                    }
                } else {
                    assert(s2[j].sources == s0[j].sources);
                    assert(s0[j].sources[k] == s2[j].sources[k]);
                }
            }
            assert forall|q: int, k: int| #![trigger s2[q].sources[k]] 0 <= q < s2.len() && 0 <= k < s2[q].sources.len() implies {
                let x = s2[q].sources[k] as int;
                &&& 0 <= x < s2.len()
                &&& !s2[x].dependent
                &&& s2[x].dependents.contains(q as usize)
            } by {
                let x = s2[q].sources[k] as int;
                if q == r && x == src {
                } else {
                    assert(s0[q].sources.contains(s2[q].sources[k]));
                    let m = choose|m: int| 0 <= m < s0[q].sources.len() && s0[q].sources[m] == s2[q].sources[k];
                    assert(s0[q].sources[m] as int == x);
                    assert(0 <= x < s0.len());
                    assert(s0[x].dependents.contains(q as usize));
                    assert(s2[x].dependent == s0[x].dependent);
                    if x == src {
                        let n = choose|n: int| 0 <= n < s0[x].dependents.len() && s0[x].dependents[n] == q as usize;
                        assert(s2[x].dependents[n] == q as usize);
                    } else {
                        assert(s2[x].dependents == s0[x].dependents);
                    }
                }
            }
        }
    }

    /// Marks a signal dependent.
    fn set_dependent(&mut self, id: usize)
        requires
            id < old(self)@.len(),
            signals_wf(old(self)@),
            forall|r: int| 0 <= r < old(self)@.len() ==> !(#[trigger] old(self)@[r].sources).contains(id),
        ensures
            final(self)@ == old(self)@.update(id as int, SignalModel { dependent: true, ..old(self)@[id as int] }),
            signals_wf(final(self)@),
    {
        let ghost s0 = self@;
        let mut st = self.take(id);
        st.dependent = true;
        self.put(id, st);
        proof {
            let s2 = self@;
            assert(s2 =~= s0.update(id as int, SignalModel { dependent: true, ..s0[id as int] }));
            assert forall|q: int, k: int| #![trigger s2[q].sources[k]] 0 <= q < s2.len() && 0 <= k < s2[q].sources.len() implies {
                let x = s2[q].sources[k] as int;
                &&& 0 <= x < s2.len()
                &&& !s2[x].dependent
                &&& s2[x].dependents.contains(q as usize)
            } by {
                assert(s2[q].sources == s0[q].sources);
                let x = s0[q].sources[k] as int;
                assert(s0[q].sources[k] == s2[q].sources[k]);
                if x == id as int {
                    assert(s0[q].sources.contains(id));
                }
            }
        }
    }

    /// Initialize a dependent abort signal from the signals it follows:
    /// aborted at once with the first aborted one's reason; otherwise it is
    /// marked dependent and follows each signal, or the sources of a
    /// dependent one.
    pub fn initialize_dependent_abort_signal(&mut self, result: usize, signals: &[usize])
        requires
            result < old(self)@.len(),
            signals_wf(old(self)@),
            forall|k: int| 0 <= k < signals@.len() ==> #[trigger] signals@[k] < old(self)@.len() && signals@[k] != result,
            forall|r: int| 0 <= r < old(self)@.len() ==> !(#[trigger] old(self)@[r].sources).contains(result),
            old(self)@[result as int].dependents.len() == 0,
        ensures
            signals_wf(final(self)@),
            final(self)@.len() == old(self)@.len(),
            (exists|k: int| 0 <= k < signals@.len() && old(self)@[#[trigger] signals@[k] as int].aborted) ==> {
                let k = choose|k: int| 0 <= k < signals@.len() && old(self)@[#[trigger] signals@[k] as int].aborted && forall|j: int| 0 <= j < k ==> !old(self)@[#[trigger] signals@[j] as int].aborted;
                final(self)@ == old(self)@.update(result as int, SignalModel { aborted: true, reason: old(self)@[signals@[k] as int].reason, ..old(self)@[result as int] })
            },
            !(exists|k: int| 0 <= k < signals@.len() && old(self)@[#[trigger] signals@[k] as int].aborted) ==> {
                &&& final(self)@[result as int].dependent
                &&& final(self)@[result as int].sources == append_all_unique_spec(
                    old(self)@[result as int].sources,
                    followed_sources(old(self)@, signals@),
                )
                &&& forall|k: int| 0 <= k < signals@.len() && !old(self)@[#[trigger] signals@[k] as int].dependent
                    ==> final(self)@[result as int].sources.contains(signals@[k])
                &&& forall|k: int, m: int| 0 <= k < signals@.len() && old(self)@[#[trigger] signals@[k] as int].dependent
                    && 0 <= m < old(self)@[signals@[k] as int].sources.len() ==> final(self)@[result as int].sources.contains(
                    #[trigger] old(self)@[signals@[k] as int].sources[m])
                &&& forall|j: int| #![trigger final(self)@[j]] 0 <= j < old(self)@.len() ==> final(self)@[j].aborted == old(self)@[j].aborted
            },
    {
        let ghost s0 = self@;
        let mut i: usize = 0;
        let mut found: Option<usize> = None;
        while i < signals.len()
            invariant_except_break
                found is None,
            invariant
                i <= signals@.len(),
                self@ == s0,
                forall|k: int| 0 <= k < signals@.len() ==> #[trigger] signals@[k] < s0.len(),
                forall|j: int| 0 <= j < i ==> !s0[#[trigger] signals@[j] as int].aborted,
            ensures
                self@ == s0,
                match found {
                    Some(k) => k < signals@.len() && k == i && s0[signals@[k as int] as int].aborted,
                    None => i == signals@.len(),
                },
                forall|j: int| 0 <= j < i ==> !s0[#[trigger] signals@[j] as int].aborted,
            decreases signals@.len() - i,
        {
            if self.aborted_value(signals[i]) {
                found = Some(i);
                break;
            }
            i = i + 1;
        }
        if let Some(k) = found {
            let reason = self.reason_value(signals[k]);
            proof {
                let c = choose|c: int| 0 <= c < signals@.len() && s0[#[trigger] signals@[c] as int].aborted && forall|j: int| 0 <= j < c ==> !s0[#[trigger] signals@[j] as int].aborted;
                assert(c == k) by {
                    if c < k {
                        assert(!s0[signals@[c] as int].aborted);
                    }
                    if k < c {
                        assert(!s0[signals@[k as int] as int].aborted);
                    }
                }
            }
            let mut st = self.take(result);
            st.aborted = true;
            st.reason = reason;
            self.put(result, st);
            proof {
                assert(self@ =~= s0.update(result as int, SignalModel { aborted: true, reason: s0[signals@[k as int] as int].reason, ..s0[result as int] }));
                lemma_wf_same_links(s0, self@);
            }
            return;
        }
        self.set_dependent(result);
        let ghost s1 = self@;
        let mut i: usize = 0;
        while i < signals.len()
            invariant
                i <= signals@.len(),
                result < s0.len(),
                signals_wf(self@),
                self@.len() == s0.len(),
                s1 == s0.update(result as int, SignalModel { dependent: true, ..s0[result as int] }),
                forall|k: int| 0 <= k < signals@.len() ==> #[trigger] signals@[k] < s0.len() && signals@[k] != result,
                forall|j: int| #![trigger self@[j]] 0 <= j < s0.len() ==> self@[j].aborted == s1[j].aborted && self@[j].dependent
                    == s1[j].dependent && self@[j].reason == s1[j].reason,
                forall|j: int| #![trigger self@[j]] 0 <= j < s0.len() && j != result ==> self@[j].sources == s0[j].sources,
                self@[result as int].sources == append_all_unique_spec(
                    s0[result as int].sources,
                    followed_sources(s0, signals@.take(i as int)),
                ),
                forall|k: int| 0 <= k < i && !s0[#[trigger] signals@[k] as int].dependent ==> self@[result as int].sources.contains(signals@[k]),
                forall|k: int, m: int| 0 <= k < i && s0[#[trigger] signals@[k] as int].dependent && 0 <= m < s0[signals@[k] as int].sources.len()
                    ==> self@[result as int].sources.contains(#[trigger] s0[signals@[k] as int].sources[m]),
            decreases signals@.len() - i,
        {
            let s = signals[i];
            let ghost before = self@;
            let ghost followed = followed_sources(s0, signals@.take(i as int));
            proof {
                let t = signals@.take(i as int + 1);
                assert(t.drop_last() =~= signals@.take(i as int));
                assert(t.last() == s);
                assert(s0[s as int].dependent == s1[s as int].dependent);
            }
            if !self.dependent_value(s) {
                self.link(result, s);
                proof {
                    lemma_append_unique_keeps(before[result as int].sources, s);
                    lemma_append_all_unique_concat(s0[result as int].sources, followed, seq![s]);
                    let x0 = before[result as int].sources;
                    assert(seq![s].drop_last() =~= Seq::<usize>::empty());
                    assert(seq![s].last() == s);
                    assert(append_all_unique_spec(x0, Seq::<usize>::empty()) == x0);
                    assert(append_all_unique_spec(x0, seq![s]) == append_unique_spec(x0, s));
                    assert(self@[result as int].sources == append_unique_spec(x0, s));
                }
            } else {
                let srcs = self.source_signals_value(s);
                let mut m: usize = 0;
                while m < srcs.len()
                    invariant
                        m <= srcs@.len(),
                        result < s0.len(),
                        srcs@ == s0[s as int].sources,
                        s < s0.len(),
                        s != result,
                        s0[s as int].dependent,
                        signals_wf(self@),
                        self@.len() == s0.len(),
                        s1 == s0.update(result as int, SignalModel { dependent: true, ..s0[result as int] }),
                        forall|j: int| #![trigger self@[j]] 0 <= j < s0.len() ==> self@[j].aborted == s1[j].aborted && self@[j].dependent
                            == s1[j].dependent && self@[j].reason == s1[j].reason,
                        forall|j: int| #![trigger self@[j]] 0 <= j < s0.len() && j != result ==> self@[j].sources == s0[j].sources,
                        forall|x: usize| before[result as int].sources.contains(x) ==> self@[result as int].sources.contains(x),
                        forall|q: int| 0 <= q < m ==> self@[result as int].sources.contains(#[trigger] srcs@[q]),
                        followed == followed_sources(s0, signals@.take(i as int)),
                        self@[result as int].sources == append_all_unique_spec(
                            append_all_unique_spec(s0[result as int].sources, followed),
                            srcs@.take(m as int),
                        ),
                    decreases srcs@.len() - m,
                {
                    let src = srcs[m];
                    let ghost b2 = self@;
                    proof {
                        assert(self@[s as int].sources == s0[s as int].sources);
                        assert(self@[s as int].sources[m as int] == src);
                        assert(0 <= src < self@.len());
                        assert(!self@[src as int].dependent);
                        assert(src != result) by {
                            assert(self@[result as int].dependent == s1[result as int].dependent);
                            assert(self@[result as int].dependent);
                        }
                    }
                    self.link(result, src);
                    proof {
                        lemma_append_unique_keeps(b2[result as int].sources, src);
                        let t = srcs@.take(m as int + 1);
                        assert(t.drop_last() =~= srcs@.take(m as int));
                        assert(t.last() == src);
                    }
                    m = m + 1;
                }
                proof {
                    assert(srcs@.take(m as int) =~= srcs@);
                    lemma_append_all_unique_concat(s0[result as int].sources, followed, srcs@);
                }
            }
            proof {
                let piece = if s0[s as int].dependent { s0[s as int].sources } else { seq![s] };
                assert(followed_sources(s0, signals@.take(i as int + 1)) == followed + piece);
                assert(self@[result as int].sources == append_all_unique_spec(s0[result as int].sources, followed + piece));
            }
            i = i + 1;
        }
        proof {
            assert forall|j: int| #![trigger self@[j]] 0 <= j < s0.len() implies self@[j].aborted == s0[j].aborted by {
                assert(s1[j].aborted == s0[j].aborted);
            }
            assert(self@[result as int].dependent);
            assert(signals@.take(i as int) =~= signals@);
        }
    }
}

/// The arena of abort signals, named by index; it is always well formed.
pub struct AbortSignals {
    arena: SignalArena,
}

impl View for AbortSignals {
    type V = Seq<SignalModel>;

    closed spec fn view(&self) -> Seq<SignalModel> {
        self.arena@
    }
}

impl AbortSignals {
    /// Every arena is well formed.
    #[verifier::type_invariant]
    closed spec fn arena_wf(&self) -> bool {
        signals_wf(self.arena@)
    }

    pub fn new() -> (a: Self)
        ensures
            a@ == Seq::<SignalModel>::empty(),
            signals_wf(a@),
    {
        AbortSignals { arena: SignalArena::new() }
    }

    pub fn len(&self) -> (n: usize)
        ensures
            n == self@.len(),
    {
        self.arena.len()
    }

    /// A new signal, not aborted.
    pub fn new_signal(&mut self) -> (id: usize)
        requires
            old(self)@.len() < usize::MAX,
        ensures
            id == old(self)@.len(),
            final(self)@ == old(self)@.push(fresh_signal(false, None)),
            signals_wf(final(self)@),
    {
        proof {
            use_type_invariant(&*self);
        }
        let mut arena = SignalArena::new();
        std::mem::swap(&mut arena, &mut self.arena);
        let r = arena.new_signal();
        self.arena = arena;
        r
    }

    /// A new signal, aborted with the given reason.
    pub fn aborted_with_reason(&mut self, reason: u64) -> (id: usize)
        requires
            old(self)@.len() < usize::MAX,
        ensures
            id == old(self)@.len(),
            final(self)@ == old(self)@.push(fresh_signal(true, Some(reason))),
            signals_wf(final(self)@),
    {
        proof {
            use_type_invariant(&*self);
        }
        let mut arena = SignalArena::new();
        std::mem::swap(&mut arena, &mut self.arena);
        let r = arena.aborted_with_reason(reason);
        self.arena = arena;
        r
    }

    pub fn aborted_value(&self, id: usize) -> (b: bool)
        requires
            id < self@.len(),
        ensures
            b == self@[id as int].aborted,
    {
        self.arena.aborted_value(id)
    }

    pub fn reason_value(&self, id: usize) -> (r: Option<u64>)
        requires
            id < self@.len(),
        ensures
            r == self@[id as int].reason,
    {
        self.arena.reason_value(id)
    }

    pub fn dependent_value(&self, id: usize) -> (b: bool)
        requires
            id < self@.len(),
        ensures
            b == self@[id as int].dependent,
    {
        self.arena.dependent_value(id)
    }

    pub fn onabort_value(&self, id: usize) -> (r: Option<u64>)
        requires
            id < self@.len(),
        ensures
            r == self@[id as int].onabort,
    {
        self.arena.onabort_value(id)
    }

    pub fn source_signals_value(&self, id: usize) -> (v: Vec<usize>)
        requires
            id < self@.len(),
        ensures
            v@ == self@[id as int].sources,
    {
        self.arena.source_signals_value(id)
    }

    pub fn dependent_signals_value(&self, id: usize) -> (v: Vec<usize>)
        requires
            id < self@.len(),
        ensures
            v@ == self@[id as int].dependents,
    {
        self.arena.dependent_signals_value(id)
    }

    /// Sets the onabort handler, returning the previous one.
    pub fn replace_onabort(&mut self, id: usize, callback: Option<u64>) -> (previous: Option<u64>)
        requires
            id < old(self)@.len(),
        ensures
            previous == old(self)@[id as int].onabort,
            final(self)@ == old(self)@.update(id as int, SignalModel { onabort: callback, ..old(self)@[id as int] }),
            signals_wf(final(self)@),
    {
        proof {
            use_type_invariant(&*self);
        }
        let mut arena = SignalArena::new();
        std::mem::swap(&mut arena, &mut self.arena);
        let r = arena.replace_onabort(id, callback);
        self.arena = arena;
        r
    }

    /// Adds an abort algorithm.
    pub fn add_abort_algorithm(&mut self, id: usize, algorithm: AbortAlgorithm)
        requires
            id < old(self)@.len(),
        ensures
            final(self)@ == old(self)@.update(
                id as int,
                SignalModel { algorithms: old(self)@[id as int].algorithms.push(algorithm), ..old(self)@[id as int] },
            ),
            signals_wf(final(self)@),
    {
        proof {
            use_type_invariant(&*self);
        }
        let mut arena = SignalArena::new();
        std::mem::swap(&mut arena, &mut self.arena);
        let r = arena.add_abort_algorithm(id, algorithm);
        self.arena = arena;
        r
    }

    /// Removes the abort algorithms matching the one given.
    pub fn remove_abort_algorithm(&mut self, id: usize, algorithm: &AbortAlgorithm)
        requires
            id < old(self)@.len(),
        ensures
            final(self)@ == old(self)@.update(
                id as int,
                SignalModel {
                    algorithms: without(old(self)@[id as int].algorithms, matches_alg(*algorithm)),
                    ..old(self)@[id as int]
                },
            ),
            signals_wf(final(self)@),
    {
        proof {
            use_type_invariant(&*self);
        }
        let mut arena = SignalArena::new();
        std::mem::swap(&mut arena, &mut self.arena);
        let r = arena.remove_abort_algorithm(id, algorithm);
        self.arena = arena;
        r
    }

    /// Takes the abort algorithms of a signal, leaving it none.
    pub fn take_abort_algorithms(&mut self, id: usize) -> (algorithms: Vec<AbortAlgorithm>)
        requires
            id < old(self)@.len(),
        ensures
            algorithms@ == old(self)@[id as int].algorithms,
            final(self)@ == old(self)@.update(id as int, SignalModel { algorithms: Seq::empty(), ..old(self)@[id as int] }),
            signals_wf(final(self)@),
    {
        proof {
            use_type_invariant(&*self);
        }
        let mut arena = SignalArena::new();
        std::mem::swap(&mut arena, &mut self.arena);
        let r = arena.take_abort_algorithms(id);
        self.arena = arena;
        r
    }

    /// Sets a signal's abort reason, marking it aborted.
    pub fn set_aborted_reason(&mut self, id: usize, reason: u64)
        requires
            id < old(self)@.len(),
        ensures
            final(self)@ == old(self)@.update(id as int, SignalModel { aborted: true, reason: Some(reason), ..old(self)@[id as int] }),
            signals_wf(final(self)@),
    {
        proof {
            use_type_invariant(&*self);
        }
        let mut arena = SignalArena::new();
        std::mem::swap(&mut arena, &mut self.arena);
        let r = arena.set_aborted_reason(id, reason);
        self.arena = arena;
        r
    }

    /// Signal abort: the signal and its dependents not aborted yet take the
    /// reason (the caller makes the AbortError reason for an undefined
    /// one). Then the abort steps of each signal so aborted, in order, take
    /// its abort algorithms, leaving it none; the steps are returned so
    /// that the caller runs the algorithms and fires `abort` at each
    /// signal. Nothing changes and nothing is returned where the signal was
    /// aborted already.
    pub fn signal_abort(&mut self, id: usize, reason: u64) -> (steps: Vec<AbortStep>)
        requires
            id < old(self)@.len(),
        ensures
            ({
                let (s2, ids) = signal_abort_spec(old(self)@, id as int, reason);
                &&& final(self)@ == take_algorithms_spec(s2, ids)
                &&& steps@.len() == ids.len()
                &&& forall|k: int|
                    0 <= k < ids.len() ==> (#[trigger] steps@[k]).signal == ids[k] && steps@[k].algorithms@
                        == take_algorithms_spec(s2, ids.take(k))[ids[k] as int].algorithms
            }),
            signals_wf(final(self)@),
    {
        proof {
            use_type_invariant(&*self);
        }
        let mut arena = SignalArena::new();
        std::mem::swap(&mut arena, &mut self.arena);
        let r = arena.signal_abort(id, reason);
        self.arena = arena;
        r
    }

    /// Initialize a dependent abort signal from the signals it follows:
    /// aborted at once with the first aborted one's reason; otherwise it is
    /// marked dependent and follows each signal, or the sources of a
    /// dependent one.
    pub fn initialize_dependent_abort_signal(&mut self, result: usize, signals: &[usize])
        requires
            result < old(self)@.len(),
            forall|k: int| 0 <= k < signals@.len() ==> #[trigger] signals@[k] < old(self)@.len() && signals@[k] != result,
            forall|r: int| 0 <= r < old(self)@.len() ==> !(#[trigger] old(self)@[r].sources).contains(result),
            old(self)@[result as int].dependents.len() == 0,
        ensures
            signals_wf(final(self)@),
            final(self)@.len() == old(self)@.len(),
            (exists|k: int| 0 <= k < signals@.len() && old(self)@[#[trigger] signals@[k] as int].aborted) ==> {
                let k = choose|k: int| 0 <= k < signals@.len() && old(self)@[#[trigger] signals@[k] as int].aborted && forall|j: int| 0 <= j < k ==> !old(self)@[#[trigger] signals@[j] as int].aborted;
                final(self)@ == old(self)@.update(result as int, SignalModel { aborted: true, reason: old(self)@[signals@[k] as int].reason, ..old(self)@[result as int] })
            },
            !(exists|k: int| 0 <= k < signals@.len() && old(self)@[#[trigger] signals@[k] as int].aborted) ==> {
                &&& final(self)@[result as int].dependent
                &&& final(self)@[result as int].sources == append_all_unique_spec(
                    old(self)@[result as int].sources,
                    followed_sources(old(self)@, signals@),
                )
                &&& forall|k: int| 0 <= k < signals@.len() && !old(self)@[#[trigger] signals@[k] as int].dependent
                    ==> final(self)@[result as int].sources.contains(signals@[k])
                &&& forall|k: int, m: int| 0 <= k < signals@.len() && old(self)@[#[trigger] signals@[k] as int].dependent
                    && 0 <= m < old(self)@[signals@[k] as int].sources.len() ==> final(self)@[result as int].sources.contains(
                    #[trigger] old(self)@[signals@[k] as int].sources[m])
                &&& forall|j: int| #![trigger final(self)@[j]] 0 <= j < old(self)@.len() ==> final(self)@[j].aborted == old(self)@[j].aborted
            },
    {
        proof {
            use_type_invariant(&*self);
        }
        let mut arena = SignalArena::new();
        std::mem::swap(&mut arena, &mut self.arena);
        let r = arena.initialize_dependent_abort_signal(result, signals);
        self.arena = arena;
        r
    }
}

/// Appending the values of two lists one after the other is appending
/// those of the joined list.
pub proof fn lemma_append_all_unique_concat(v: Seq<usize>, a: Seq<usize>, b: Seq<usize>)
    ensures
        append_all_unique_spec(v, a + b) == append_all_unique_spec(append_all_unique_spec(v, a), b),
    decreases b.len(),
{
    if b.len() == 0 {
        assert(a + b =~= a);
    } else {
        assert((a + b).drop_last() =~= a + b.drop_last());
        assert((a + b).last() == b.last());
        lemma_append_all_unique_concat(v, a, b.drop_last());
    }
}

/// A source list built by appending where not listed yet lists nothing
/// twice, and lists exactly what it started with and what was appended.
pub proof fn law_sources_listed_once(v: Seq<usize>, xs: Seq<usize>)
    requires
        v.no_duplicates(),
    ensures
        append_all_unique_spec(v, xs).no_duplicates(),
        forall|x: usize| #[trigger] append_all_unique_spec(v, xs).contains(x) <==> (v.contains(x) || xs.contains(x)),
    decreases xs.len(),
{
    if xs.len() > 0 {
        let p = xs.drop_last();
        law_sources_listed_once(v, p);
        let w = append_all_unique_spec(v, p);
        let x = xs.last();
        if !w.contains(x) {
            let w2 = w.push(x);
            assert forall|i: int, j: int| 0 <= i < w2.len() && 0 <= j < w2.len() && i != j implies w2[i] != w2[j] by {
                if i == w.len() {
                    assert(w2[j] == w[j]);
                } else if j == w.len() {
                    assert(w2[i] == w[i]);
                } else {
                    assert(w2[i] == w[i] && w2[j] == w[j]);
                }
            }
        }
        lemma_append_unique_keeps(w, x);
        let r = append_all_unique_spec(v, xs);
        assert(r == append_unique_spec(w, x));
        assert forall|y: usize| #[trigger] r.contains(y) <==> (v.contains(y) || xs.contains(y)) by {
            assert(r.contains(y) <==> (w.contains(y) || y == x)) by {
                if r.contains(y) && !w.contains(x) {
                    let k = choose|k: int| 0 <= k < r.len() && r[k] == y;
                    if k < w.len() {
                        assert(w[k] == y);
                    }
                }
            }
            assert(xs.contains(y) <==> (p.contains(y) || y == x)) by {
                if xs.contains(y) {
                    let k = choose|k: int| 0 <= k < xs.len() && xs[k] == y;
                    if k < p.len() {
                        assert(p[k] == y);
                    }
                }
                if p.contains(y) {
                    let k = choose|k: int| 0 <= k < p.len() && p[k] == y;
                    assert(xs[k] == y);
                }
                assert(xs[xs.len() - 1] == x);
            }
        }
    }
}

/// Appending where not listed keeps what was listed and lists the value.
pub proof fn lemma_append_unique_keeps(v: Seq<usize>, x: usize)
    ensures
        forall|y: usize| v.contains(y) ==> append_unique_spec(v, x).contains(y),
        append_unique_spec(v, x).contains(x),
{
    if !v.contains(x) {
        assert(v.push(x)[v.len() as int] == x);
        assert forall|y: usize| v.contains(y) implies v.push(x).contains(y) by {
            let k = choose|k: int| 0 <= k < v.len() && v[k] == y;
            assert(v.push(x)[k] == y);
        }
    }
}

/// Changes that keep every signal's sources, dependents and dependent flag
/// keep the arena well formed.
pub proof fn lemma_wf_same_links(s0: Seq<SignalModel>, s1: Seq<SignalModel>)
    requires
        signals_wf(s0),
        s1.len() == s0.len(),
        forall|j: int|
            #![trigger s1[j]]
            0 <= j < s0.len() ==> s1[j].sources == s0[j].sources && s1[j].dependents == s0[j].dependents && s1[j].dependent
                == s0[j].dependent,
    ensures
        signals_wf(s1),
{
    assert forall|r: int, k: int| #![trigger s1[r].sources[k]] 0 <= r < s1.len() && 0 <= k < s1[r].sources.len() implies {
        let src = s1[r].sources[k] as int;
        &&& 0 <= src < s1.len()
        &&& !s1[src].dependent
        &&& s1[src].dependents.contains(r as usize)
    } by {
        assert(s1[r].sources == s0[r].sources);
        let src = s0[r].sources[k] as int;
        assert(s0[r].sources[k] == s1[r].sources[k]);
        assert(s1[src].dependent == s0[src].dependent);
    }
}

/// Taking algorithms keeps the arena's length.
pub proof fn lemma_take_algorithms_len(s: Seq<SignalModel>, ids: Seq<usize>)
    ensures
        take_algorithms_spec(s, ids).len() == s.len(),
    decreases ids.len(),
{
    if ids.len() > 0 {
        lemma_take_algorithms_len(s, ids.drop_last());
    }
}

/// After the listed signals give up their algorithms, each of them has
/// none, and every signal keeps everything else.
pub proof fn lemma_take_algorithms(s: Seq<SignalModel>, ids: Seq<usize>)
    requires
        forall|k: int| 0 <= k < ids.len() ==> #[trigger] ids[k] < s.len(),
    ensures
        ({
            let s3 = take_algorithms_spec(s, ids);
            &&& s3.len() == s.len()
            &&& forall|k: int| 0 <= k < ids.len() ==> s3[#[trigger] ids[k] as int].algorithms == Seq::<AbortAlgorithm>::empty()
            &&& forall|j: int|
                #![trigger s3[j]]
                0 <= j < s.len() ==> s3[j] == SignalModel { algorithms: s3[j].algorithms, ..s[j] }
            &&& forall|j: int|
                #![trigger s3[j]]
                0 <= j < s.len() && !ids.contains(j as usize) ==> s3[j] == s[j]
        }),
    decreases ids.len(),
{
    if ids.len() > 0 {
        let p = ids.drop_last();
        assert forall|k: int| 0 <= k < p.len() implies #[trigger] p[k] < s.len() by {
            assert(p[k] == ids[k]);
        }
        lemma_take_algorithms(s, p);
        let s3 = take_algorithms_spec(s, ids);
        assert forall|k: int| 0 <= k < ids.len() implies s3[#[trigger] ids[k] as int].algorithms
            == Seq::<AbortAlgorithm>::empty() by {
            if k < p.len() {
                assert(p[k] == ids[k]);
            }
        }
        assert forall|j: int| 0 <= j < s.len() && !ids.contains(j as usize) implies #[trigger] s3[j] == s[j] by {
            assert(ids[ids.len() - 1] == ids.last());
            if p.contains(j as usize) {
                let k = choose|k: int| 0 <= k < p.len() && p[k] == j as usize;
                assert(ids[k] == p[k]);
            }
        }
    }
}

/// The signals whose abort steps run exist.
pub proof fn lemma_abort_dependents_ids(s: Seq<SignalModel>, deps: Seq<usize>, reason: u64)
    ensures
        forall|k: int|
            0 <= k < abort_dependents(s, deps, reason).1.len() ==> #[trigger] abort_dependents(s, deps, reason).1[k]
                < s.len(),
    decreases deps.len(),
{
    if deps.len() > 0 {
        lemma_abort_dependents_ids(s, deps.drop_last(), reason);
        lemma_abort_dependents_len(s, deps.drop_last(), reason);
        let done = abort_dependents(s, deps.drop_last(), reason).1;
        let r = abort_dependents(s, deps, reason).1;
        assert forall|k: int| 0 <= k < r.len() implies #[trigger] r[k] < s.len() by {
            if k < done.len() {
                assert(r[k] == done[k]);
            }
        }
    }
}

/// The signals that signal abort lists exist, and the arena keeps its
/// length.
pub proof fn lemma_signal_abort_ids(s: Seq<SignalModel>, id: int, reason: u64)
    requires
        0 <= id < s.len(),
    ensures
        ({
            let (s2, ids) = signal_abort_spec(s, id, reason);
            &&& s2.len() == s.len()
            &&& forall|k: int| 0 <= k < ids.len() ==> #[trigger] ids[k] < s.len()
        }),
{
    if !s[id].aborted {
        let s1 = s.update(id, SignalModel { aborted: true, reason: Some(reason), ..s[id] });
        lemma_abort_dependents_ids(s1, s[id].dependents, reason);
        lemma_abort_dependents_len(s1, s[id].dependents, reason);
        let ids = signal_abort_spec(s, id, reason).1;
        let deps = abort_dependents(s1, s[id].dependents, reason).1;
        assert forall|k: int| 0 <= k < ids.len() implies #[trigger] ids[k] < s.len() by {
            if k > 0 {
                assert(ids[k] == deps[k - 1]);
            }
        }
    }
}

/// After signal abort, every signal whose abort steps ran has no abort
/// algorithms left, and the signal is aborted, so that a second signal
/// abort, with any reason, changes nothing and runs no steps.
pub proof fn law_abort_steps_leave_no_algorithms(s: Seq<SignalModel>, id: int, reason: u64, again: u64)
    requires
        signals_wf(s),
        0 <= id < s.len(),
    ensures
        ({
            let (s2, ids) = signal_abort_spec(s, id, reason);
            let s3 = take_algorithms_spec(s2, ids);
            &&& forall|k: int| 0 <= k < ids.len() ==> s3[#[trigger] ids[k] as int].algorithms == Seq::<AbortAlgorithm>::empty()
            &&& s3[id].aborted
            &&& signal_abort_spec(s3, id, again) == (s3, Seq::<usize>::empty())
        }),
{
    lemma_signal_abort_ids(s, id, reason);
    let (s2, ids) = signal_abort_spec(s, id, reason);
    lemma_take_algorithms(s2, ids);
    let s3 = take_algorithms_spec(s2, ids);
    if !s[id].aborted {
        let s1 = s.update(id, SignalModel { aborted: true, reason: Some(reason), ..s[id] });
        lemma_abort_dependents_preserves(s1, s[id].dependents, reason);
        assert(s2[id].aborted);
    }
    assert(s3[id] == SignalModel { algorithms: s3[id].algorithms, ..s2[id] });
    assert(s3[id].aborted);
}

/// Aborting dependents keeps every signal that was aborted aborted.
pub proof fn lemma_abort_dependents_preserves(s: Seq<SignalModel>, deps: Seq<usize>, reason: u64)
    ensures
        ({
            let s2 = abort_dependents(s, deps, reason).0;
            &&& s2.len() == s.len()
            &&& forall|j: int| #![trigger s2[j]] 0 <= j < s.len() && s[j].aborted ==> s2[j].aborted
        }),
    decreases deps.len(),
{
    lemma_abort_dependents_len(s, deps, reason);
    if deps.len() > 0 {
        lemma_abort_dependents_preserves(s, deps.drop_last(), reason);
        lemma_abort_dependents_len(s, deps.drop_last(), reason);
    }
}

/// The length of the arena does not change while dependents are aborted.
pub proof fn lemma_abort_dependents_len(s: Seq<SignalModel>, deps: Seq<usize>, reason: u64)
    ensures
        abort_dependents(s, deps, reason).0.len() == s.len(),
    decreases deps.len(),
{
    if deps.len() > 0 {
        lemma_abort_dependents_len(s, deps.drop_last(), reason);
    }
}

/// Aborting a signal aborts it and every one of its dependents, and aborts
/// nothing twice: a signal already aborted is left as it is.
pub proof fn law_abort_reaches_dependents(s: Seq<SignalModel>, id: int, reason: u64)
    requires
        signals_wf(s),
        0 <= id < s.len(),
        forall|k: int| 0 <= k < s[id].dependents.len() ==> #[trigger] s[id].dependents[k] < s.len(),
    ensures
        ({
            let (s2, to_run) = signal_abort_spec(s, id, reason);
            &&& s2[id].aborted
            &&& s[id].aborted ==> s2 == s && to_run.len() == 0
            &&& !s[id].aborted ==> s2[id].reason == Some(reason) && to_run[0] == id as usize
            &&& !s[id].aborted ==> forall|k: int| 0 <= k < s[id].dependents.len() ==> s2[#[trigger] s[id].dependents[k] as int].aborted
        }),
{
    if !s[id].aborted {
        let s1 = s.update(id, SignalModel { aborted: true, reason: Some(reason), ..s[id] });
        lemma_abort_dependents_marks(s1, s[id].dependents, reason);
        let s2 = abort_dependents(s1, s[id].dependents, reason).0;
        assert(s1[id].aborted);
        assert(s2[id].aborted && s2[id].reason == s1[id].reason);
    }
}

/// After aborting a list of dependents, each of them is aborted, and what
/// was aborted stays aborted with its reason.
pub proof fn lemma_abort_dependents_marks(s: Seq<SignalModel>, deps: Seq<usize>, reason: u64)
    requires
        forall|k: int| 0 <= k < deps.len() ==> #[trigger] deps[k] < s.len(),
    ensures
        ({
            let s2 = abort_dependents(s, deps, reason).0;
            &&& s2.len() == s.len()
            &&& forall|k: int| 0 <= k < deps.len() ==> s2[#[trigger] deps[k] as int].aborted
            &&& forall|j: int| #![trigger s2[j]] 0 <= j < s.len() && s[j].aborted ==> s2[j].aborted && s2[j].reason == s[j].reason
        }),
    decreases deps.len(),
{
    if deps.len() > 0 {
        let p = deps.drop_last();
        assert forall|k: int| 0 <= k < p.len() implies #[trigger] p[k] < s.len() by {
            assert(p[k] == deps[k]);
        }
        lemma_abort_dependents_marks(s, p, reason);
        lemma_abort_dependents_len(s, p, reason);
        let s1 = abort_dependents(s, p, reason).0;
        let s2 = abort_dependents(s, deps, reason).0;
        assert forall|k: int| 0 <= k < deps.len() implies s2[#[trigger] deps[k] as int].aborted by {
            if k < p.len() {
                assert(p[k] == deps[k]);
            }
        }
    }
}

} // verus!
