//! The bookkeeping a global object keeps beside its timers: the list of
//! animation frame callbacks, the cache of node wrappers, the cache of
//! WindowProxy objects per navigable, and the message queues of the
//! dedicated workers it owns.
//!
//! The platform objects themselves (callbacks, wrappers, proxies, event
//! targets, messages) are carried as opaque values of the caller's types.
use vstd::prelude::*;
use std::collections::VecDeque;
use crate::channel_messaging::queue_into_vec;
use crate::identifiers::{next_free_id, is_next_free_id};
use crate::lookup::{first_match, last_match, is_first_match, lemma_first_match_is, lemma_first_match_none, lemma_last_match_is, lemma_last_match_none, without, lemma_first_match_exists};

verus! {

/// The kind of a global object.
#[derive(Clone, Copy, PartialEq, Eq, Structural, Debug)]
pub enum GlobalScopeKind {
    Window,
    Worker,
}

/// One entry of the list of animation frame callbacks.
pub struct AnimationFrameCallback<C> {
    /// The animation frame callback identifier.
    pub handle: u32,
    pub callback: C,
}

pub open spec fn handle_is<C>(h: u32) -> spec_fn(AnimationFrameCallback<C>) -> bool {
    |e: AnimationFrameCallback<C>| e.handle == h
}

pub open spec fn handles_unique<C>(s: Seq<AnimationFrameCallback<C>>) -> bool {
    forall|i: int, j: int| 0 <= i < s.len() && 0 <= j < s.len() && i != j ==> #[trigger] s[i].handle != #[trigger] s[j].handle
}

/// Every listed callback has a nonzero identifier.
pub open spec fn handles_nonzero<C>(s: Seq<AnimationFrameCallback<C>>) -> bool {
    forall|i: int| 0 <= i < s.len() ==> #[trigger] s[i].handle != 0
}

pub open spec fn frame_handles<C>(s: Seq<AnimationFrameCallback<C>>) -> Seq<u32> {
    s.map_values(|e: AnimationFrameCallback<C>| e.handle)
}

/// Removing the first element of a list and keeping it where `p` does not
/// hold of it: one step of removing the matches.
pub proof fn lemma_without_step<T>(s: Seq<T>, p: spec_fn(T) -> bool)
    requires
        s.len() > 0,
    ensures
        without(s, p) == if p(s[0]) {
            without(s.drop_first(), p)
        } else {
            seq![s[0]] + without(s.drop_first(), p)
        },
{
}

/// The list of animation frame callbacks of a window, with the last
/// identifier handed out.
pub struct AnimationFrameCallbacks<C> {
    identifier: u32,
    callbacks: Vec<AnimationFrameCallback<C>>,
}

impl<C> AnimationFrameCallbacks<C> {
    pub closed spec fn entries(&self) -> Seq<AnimationFrameCallback<C>> {
        self.callbacks@
    }

    pub closed spec fn counter(&self) -> u32 {
        self.identifier
    }

    /// Identifiers are unique and nonzero.
    pub open spec fn wf(&self) -> bool {
        handles_unique(self.entries()) && handles_nonzero(self.entries())
    }

    /// Every list keeps its identifiers unique and nonzero.
    #[verifier::type_invariant]
    closed spec fn callbacks_unique(&self) -> bool {
        handles_unique(self.callbacks@) && handles_nonzero(self.callbacks@)
    }

    pub fn new() -> (l: Self)
        ensures
            l.wf(),
            l.entries() == Seq::<AnimationFrameCallback<C>>::empty(),
            l.counter() == 0,
    {
        AnimationFrameCallbacks { identifier: 0, callbacks: Vec::new() }
    }

    fn handles(&self) -> (v: Vec<u32>)
        ensures
            v@ == frame_handles(self.entries()),
    {
        let mut v: Vec<u32> = Vec::new();
        let mut i: usize = 0;
        while i < self.callbacks.len()
            invariant
                i <= self.callbacks@.len(),
                v@ == frame_handles(self.callbacks@.take(i as int)),
            decreases self.callbacks@.len() - i,
        {
            v.push(self.callbacks[i].handle);
            i = i + 1;
            assert(v@ =~= frame_handles(self.callbacks@.take(i as int)));
        }
        assert(self.callbacks@.take(i as int) =~= self.callbacks@);
        v
    }

    /// requestAnimationFrame(): appends the callback under a fresh
    /// identifier, which is returned.
    pub fn request_animation_frame(&mut self, callback: C) -> (handle: u32)
        requires
            old(self).entries().len() < u32::MAX,
        ensures
            final(self).wf(),
            handle != 0,
            !frame_handles(old(self).entries()).contains(handle),
            is_next_free_id(old(self).counter(), frame_handles(old(self).entries()), handle),
            final(self).counter() == handle,
            final(self).entries() == old(self).entries().push(AnimationFrameCallback { handle, callback }),
    {
        proof {
            use_type_invariant(&*self);
        }
        let used = self.handles();
        let handle = next_free_id(self.identifier, &used);
        self.identifier = handle;
        let ghost s0 = self.callbacks@;
        let mut callbacks: Vec<AnimationFrameCallback<C>> = Vec::new();
        std::mem::swap(&mut callbacks, &mut self.callbacks);
        callbacks.push(AnimationFrameCallback { handle, callback });
        proof {
            let s1 = callbacks@;
            assert forall|i: int, j: int| 0 <= i < s1.len() && 0 <= j < s1.len() && i != j implies #[trigger] s1[i].handle != #[trigger] s1[j].handle by {
                if i == s0.len() {
                    assert(frame_handles(s0)[j] == s0[j].handle);
                } else if j == s0.len() {
                    assert(frame_handles(s0)[i] == s0[i].handle);
                }
            }
        }
        self.callbacks = callbacks;
        handle
    }

    /// cancelAnimationFrame(): removes the callback with the given
    /// identifier.
    pub fn cancel_animation_frame(&mut self, handle: u32)
        ensures
            final(self).wf(),
            final(self).counter() == old(self).counter(),
            final(self).entries() == without(old(self).entries(), handle_is::<C>(handle)),
    {
        proof {
            use_type_invariant(&*self);
        }
        let mut rest: Vec<AnimationFrameCallback<C>> = Vec::new();
        std::mem::swap(&mut rest, &mut self.callbacks);
        let ghost orig = rest@;
        assert(handles_nonzero(orig));
        let mut kept: Vec<AnimationFrameCallback<C>> = Vec::new();
        while rest.len() > 0
            invariant
                kept@ + without(rest@, handle_is::<C>(handle)) == without(orig, handle_is::<C>(handle)),
            decreases rest@.len(),
        {
            let ghost r0 = rest@;
            proof {
                lemma_without_step(r0, handle_is::<C>(handle));
            }
            let e = rest.remove(0);
            assert(rest@ =~= r0.drop_first());
            if e.handle != handle {
                let ghost k0 = kept@;
                kept.push(e);
                assert(kept@ + without(rest@, handle_is::<C>(handle)) =~= k0 + (seq![e] + without(rest@, handle_is::<C>(handle))));
            }
        }
        assert(without(rest@, handle_is::<C>(handle)) =~= Seq::<AnimationFrameCallback<C>>::empty());
        assert(kept@ =~= without(orig, handle_is::<C>(handle)));
        proof {
            lemma_without_keeps_unique(orig, handle_is::<C>(handle));
            assert forall|i: int| 0 <= i < kept@.len() implies #[trigger] kept@[i].handle != 0 by {
                let w = without(orig, handle_is::<C>(handle));
                assert(w[i] == kept@[i]);
                assert(w.contains(kept@[i]));
                assert(orig.contains(kept@[i]));
                let k = choose|k: int| 0 <= k < orig.len() && orig[k] == kept@[i];
                assert(orig[k].handle != 0);
            }
        }
        self.callbacks = kept;
    }

    /// Whether callbacks wait for the next rendering opportunity.
    pub fn has_pending_animation_frame_callbacks(&self) -> (b: bool)
        ensures
            b == (self.entries().len() > 0),
    {
        self.callbacks.len() > 0
    }

    /// The callbacks to run at a rendering opportunity, in the order they
    /// were requested; the list is left empty.
    pub fn take_animation_frame_callbacks(&mut self) -> (taken: Vec<C>)
        ensures
            final(self).wf(),
            final(self).counter() == old(self).counter(),
            final(self).entries() == Seq::<AnimationFrameCallback<C>>::empty(),
            taken@ == old(self).entries().map_values(|e: AnimationFrameCallback<C>| e.callback),
    {
        let mut rest: Vec<AnimationFrameCallback<C>> = Vec::new();
        std::mem::swap(&mut rest, &mut self.callbacks);
        let ghost orig = rest@;
        let mut taken: Vec<C> = Vec::new();
        while rest.len() > 0
            invariant
                taken@ + rest@.map_values(|e: AnimationFrameCallback<C>| e.callback) == orig.map_values(
                    |e: AnimationFrameCallback<C>| e.callback,
                ),
            decreases rest@.len(),
        {
            let ghost r0 = rest@;
            let ghost t0 = taken@;
            let e = rest.remove(0);
            taken.push(e.callback);
            assert(r0.map_values(|e: AnimationFrameCallback<C>| e.callback) =~= seq![e.callback] + rest@.map_values(
                |e: AnimationFrameCallback<C>| e.callback,
            ));
            assert(taken@ + rest@.map_values(|e: AnimationFrameCallback<C>| e.callback) =~= t0 + r0.map_values(
                |e: AnimationFrameCallback<C>| e.callback,
            ));
        }
        assert(taken@ =~= orig.map_values(|e: AnimationFrameCallback<C>| e.callback));
        taken
    }
}

/// requestAnimationFrame() keeps the pending identifiers distinct and
/// nonzero: appending a callback under a nonzero identifier not pending
/// yet, as the call does, leaves every pending identifier distinct and
/// nonzero.
pub proof fn law_animation_frame_handles_stay_distinct<C>(s: Seq<AnimationFrameCallback<C>>, handle: u32, callback: C)
    requires
        handles_unique(s),
        handles_nonzero(s),
        handle != 0,
        !frame_handles(s).contains(handle),
    ensures
        handles_unique(s.push(AnimationFrameCallback { handle, callback })),
        handles_nonzero(s.push(AnimationFrameCallback { handle, callback })),
{
    let s1 = s.push(AnimationFrameCallback { handle, callback });
    assert forall|i: int, j: int| 0 <= i < s1.len() && 0 <= j < s1.len() && i != j implies #[trigger] s1[i].handle
        != #[trigger] s1[j].handle by {
        if i == s.len() {
            assert(frame_handles(s)[j] == s[j].handle);
        } else if j == s.len() {
            assert(frame_handles(s)[i] == s[i].handle);
        }
    }
    assert forall|i: int| 0 <= i < s1.len() implies #[trigger] s1[i].handle != 0 by {
        if i < s.len() {
            assert(s1[i] == s[i]);
        }
    }
}

/// Removing entries keeps identifiers unique.
pub proof fn lemma_without_keeps_unique<C>(s: Seq<AnimationFrameCallback<C>>, p: spec_fn(AnimationFrameCallback<C>) -> bool)
    requires
        handles_unique(s),
    ensures
        handles_unique(without(s, p)),
        forall|x: AnimationFrameCallback<C>| without(s, p).contains(x) ==> s.contains(x),
    decreases s.len(),
{
    if s.len() > 0 {
        let t = s.drop_first();
        assert(handles_unique(t)) by {
            assert forall|i: int, j: int| 0 <= i < t.len() && 0 <= j < t.len() && i != j implies #[trigger] t[i].handle != #[trigger] t[j].handle by {
                assert(t[i] == s[i + 1] && t[j] == s[j + 1]);
            }
        }
        lemma_without_keeps_unique(t, p);
        let w = without(t, p);
        assert forall|x: AnimationFrameCallback<C>| w.contains(x) implies s.contains(x) by {
            assert(t.contains(x));
            let m = choose|m: int| 0 <= m < t.len() && t[m] == x;
            assert(s[m + 1] == x);
        }
        if !p(s[0]) {
            let r = seq![s[0]] + w;
            assert forall|x: AnimationFrameCallback<C>| r.contains(x) implies s.contains(x) by {
                let k = choose|k: int| 0 <= k < r.len() && r[k] == x;
                if k > 0 {
                    assert(r[k] == w[k - 1]);
                    assert(w.contains(x));
                }
            }
            assert forall|i: int, j: int| 0 <= i < r.len() && 0 <= j < r.len() && i != j implies #[trigger] r[i].handle != #[trigger] r[j].handle by {
                if i > 0 && j > 0 {
                    assert(r[i] == w[i - 1] && r[j] == w[j - 1]);
                } else {
                    let k = if i == 0 { j } else { i };
                    assert(r[k] == w[k - 1]);
                    assert(w.contains(w[k - 1]));
                    assert(t.contains(w[k - 1]));
                    let m = choose|m: int| 0 <= m < t.len() && t[m] == w[k - 1];
                    assert(s[m + 1] == t[m]);
                    assert(s[0].handle != s[m + 1].handle);
                }
            }
        }
    }
}

/// One cached node wrapper.
pub struct CachedNodeObject<O> {
    pub node_id: usize,
    pub object: O,
}

pub open spec fn node_is<O>(id: usize) -> spec_fn(CachedNodeObject<O>) -> bool {
    |e: CachedNodeObject<O>| e.node_id == id
}

pub open spec fn node_in<O>(ids: Seq<usize>) -> spec_fn(CachedNodeObject<O>) -> bool {
    |e: CachedNodeObject<O>| ids.contains(e.node_id)
}

/// The cache of the platform objects that wrap the document's nodes.
pub struct NodeObjectCache<O> {
    entries: Vec<CachedNodeObject<O>>,
}

impl<O> NodeObjectCache<O> {
    pub closed spec fn entries(&self) -> Seq<CachedNodeObject<O>> {
        self.entries@
    }

    pub fn new() -> (c: Self)
        ensures
            c.entries() == Seq::<CachedNodeObject<O>>::empty(),
    {
        NodeObjectCache { entries: Vec::new() }
    }

    /// The wrapper cached for a node, the first one where there are several.
    pub fn cached_node_object(&self, node_id: usize) -> (o: Option<&O>)
        ensures
            match o {
                Some(x) => {
                    let i = first_match(self.entries(), node_is::<O>(node_id));
                    i >= 0 && *x == self.entries()[i].object
                },
                None => first_match(self.entries(), node_is::<O>(node_id)) == -1,
            },
    {
        let mut i: usize = 0;
        while i < self.entries.len()
            invariant
                i <= self.entries@.len(),
                forall|j: int| 0 <= j < i ==> !(#[trigger] node_is::<O>(node_id)(self.entries@[j])),
            decreases self.entries@.len() - i,
        {
            if self.entries[i].node_id == node_id {
                proof {
                    lemma_first_match_is(self.entries@, node_is::<O>(node_id), i as int);
                }
                return Some(&self.entries[i].object);
            }
            i = i + 1;
        }
        proof {
            lemma_first_match_none(self.entries@, node_is::<O>(node_id));
        }
        None
    }

    /// Caches a wrapper for a node.
    pub fn cache_node_object(&mut self, node_id: usize, object: O)
        ensures
            final(self).entries() == old(self).entries().push(CachedNodeObject { node_id, object }),
    {
        self.entries.push(CachedNodeObject { node_id, object });
    }

    /// Drops every cached wrapper.
    pub fn clear(&mut self)
        ensures
            final(self).entries() == Seq::<CachedNodeObject<O>>::empty(),
    {
        self.entries = Vec::new();
    }

    /// Drops the wrappers of the given nodes, keeping the others in order.
    pub fn invalidate_cached_node_ids(&mut self, node_ids: &[usize])
        ensures
            final(self).entries() == without(old(self).entries(), node_in::<O>(node_ids@)),
    {
        if node_ids.len() == 0 {
            proof {
                assert forall|j: int| 0 <= j < self.entries@.len() implies !(#[trigger] node_in::<O>(node_ids@)(self.entries@[j])) by {}
                crate::lookup::lemma_without_none(self.entries@, node_in::<O>(node_ids@));
            }
            return;
        }
        let mut rest: Vec<CachedNodeObject<O>> = Vec::new();
        std::mem::swap(&mut rest, &mut self.entries);
        let ghost orig = rest@;
        let mut kept: Vec<CachedNodeObject<O>> = Vec::new();
        while rest.len() > 0
            invariant
                kept@ + without(rest@, node_in::<O>(node_ids@)) == without(orig, node_in::<O>(node_ids@)),
            decreases rest@.len(),
        {
            let ghost r0 = rest@;
            proof {
                lemma_without_step(r0, node_in::<O>(node_ids@));
            }
            let e = rest.remove(0);
            assert(rest@ =~= r0.drop_first());
            if !slice_contains(node_ids, e.node_id) {
                let ghost k0 = kept@;
                kept.push(e);
                assert(kept@ + without(rest@, node_in::<O>(node_ids@)) =~= k0 + (seq![e] + without(rest@, node_in::<O>(node_ids@))));
            }
        }
        assert(without(rest@, node_in::<O>(node_ids@)) =~= Seq::<CachedNodeObject<O>>::empty());
        assert(kept@ =~= without(orig, node_in::<O>(node_ids@)));
        self.entries = kept;
    }

    /// The cached wrappers, oldest first.
    pub fn cached_node_objects(&self) -> (objects: Vec<&O>)
        ensures
            objects@.len() == self.entries().len(),
            forall|i: int| 0 <= i < objects@.len() ==> *objects@[i] == self.entries()[i].object,
    {
        let mut objects: Vec<&O> = Vec::new();
        let mut i: usize = 0;
        while i < self.entries.len()
            invariant
                i <= self.entries@.len(),
                objects@.len() == i,
                forall|k: int| 0 <= k < i ==> *objects@[k] == self.entries@[k].object,
            decreases self.entries@.len() - i,
        {
            objects.push(&self.entries[i].object);
            i = i + 1;
        }
        objects
    }
}

/// Whether a slice of node ids holds a value.
pub fn slice_contains(ids: &[usize], x: usize) -> (b: bool)
    ensures
        b == ids@.contains(x),
{
    let mut i: usize = 0;
    while i < ids.len()
        invariant
            i <= ids@.len(),
            forall|j: int| 0 <= j < i ==> ids@[j] != x,
        decreases ids@.len() - i,
    {
        if ids[i] == x {
            return true;
        }
        i = i + 1;
    }
    false
}

/// After the wrappers of some nodes are dropped, none of those nodes has a
/// cached wrapper, and the wrappers of the other nodes are kept.
pub proof fn law_invalidated_nodes_have_no_wrapper<O>(s: Seq<CachedNodeObject<O>>, ids: Seq<usize>, id: usize)
    ensures
        ids.contains(id) ==> first_match(without(s, node_in::<O>(ids)), node_is::<O>(id)) == -1,
        !ids.contains(id) ==> forall|e: CachedNodeObject<O>| #![trigger s.contains(e)] s.contains(e) && e.node_id == id ==> without(s, node_in::<O>(ids)).contains(e),
    decreases s.len(),
{
    let w = without(s, node_in::<O>(ids));
    if ids.contains(id) {
        crate::lookup::lemma_without_excludes(s, node_in::<O>(ids));
        assert forall|j: int| 0 <= j < w.len() implies !(#[trigger] node_is::<O>(id)(w[j])) by {
            assert(!node_in::<O>(ids)(w[j]));
        }
        lemma_first_match_none(w, node_is::<O>(id));
    }
    if s.len() > 0 {
        law_invalidated_nodes_have_no_wrapper(s.drop_first(), ids, id);
        if !ids.contains(id) {
            assert forall|e: CachedNodeObject<O>| #![trigger s.contains(e)] s.contains(e) && e.node_id == id implies w.contains(e) by {
                let k = choose|k: int| 0 <= k < s.len() && s[k] == e;
                if k == 0 {
                    assert(!node_in::<O>(ids)(s[0]));
                    assert((seq![s[0]] + without(s.drop_first(), node_in::<O>(ids)))[0] == e);
                } else {
                    assert(s.drop_first()[k - 1] == e);
                    assert(s.drop_first().contains(e));
                    let w1 = without(s.drop_first(), node_in::<O>(ids));
                    assert(w1.contains(e));
                    let m = choose|m: int| 0 <= m < w1.len() && w1[m] == e;
                    if !node_in::<O>(ids)(s[0]) {
                        assert((seq![s[0]] + w1)[m + 1] == e);
                    }
                }
            }
        }
    }
}


/// One entry of the WindowProxy cache: the proxy of a navigable, the object
/// handed to script for it, and the iframe node whose content navigable it
/// is.
pub struct CachedWindowProxy<W, J> {
    pub navigable_id: u64,
    pub window_proxy: Option<W>,
    pub js_object: Option<J>,
    pub iframe_node_id: Option<usize>,
}

pub open spec fn navigable_is<W, J>(n: u64) -> spec_fn(CachedWindowProxy<W, J>) -> bool {
    |e: CachedWindowProxy<W, J>| e.navigable_id == n
}

pub open spec fn iframe_is<W, J>(node: usize) -> spec_fn(CachedWindowProxy<W, J>) -> bool {
    |e: CachedWindowProxy<W, J>| e.iframe_node_id == Some(node)
}

/// The entries with the iframe node's mapping cleared.
pub open spec fn clear_iframe<W, J>(s: Seq<CachedWindowProxy<W, J>>, node: usize) -> Seq<CachedWindowProxy<W, J>> {
    s.map_values(
        |e: CachedWindowProxy<W, J>|
            if e.iframe_node_id == Some(node) {
                CachedWindowProxy { iframe_node_id: None, ..e }
            } else {
                e
            },
    )
}

/// The proxies cached for a navigable, in order.
pub open spec fn proxies_of<W, J>(s: Seq<CachedWindowProxy<W, J>>, n: u64) -> Seq<W>
    decreases s.len(),
{
    if s.len() == 0 {
        Seq::empty()
    } else {
        let e = s.last();
        let rest = proxies_of(s.drop_last(), n);
        if e.navigable_id == n && e.window_proxy is Some {
            rest.push(e.window_proxy->0)
        } else {
            rest
        }
    }
}

/// The cache after registering `node` as the iframe whose content
/// navigable is `n`.
pub open spec fn register_iframe_step<W, J>(
    s: Seq<CachedWindowProxy<W, J>>,
    node: usize,
    n: u64,
    window_proxy: Option<W>,
) -> Seq<CachedWindowProxy<W, J>> {
    let s1 = clear_iframe(s, node);
    let i = first_match(s1, navigable_is::<W, J>(n));
    if i >= 0 {
        s1.update(
            i,
            CachedWindowProxy {
                iframe_node_id: Some(node),
                window_proxy: if s1[i].window_proxy is None {
                    window_proxy
                } else {
                    s1[i].window_proxy
                },
                ..s1[i]
            },
        )
    } else {
        s1.push(CachedWindowProxy { navigable_id: n, window_proxy, js_object: None, iframe_node_id: Some(node) })
    }
}

/// The WindowProxy cache of a realm, keyed by navigable.
pub struct WindowProxyCache<W, J> {
    entries: Vec<CachedWindowProxy<W, J>>,
}

impl<W, J> WindowProxyCache<W, J> {
    pub closed spec fn entries(&self) -> Seq<CachedWindowProxy<W, J>> {
        self.entries@
    }

    pub fn new() -> (c: Self)
        ensures
            c.entries() == Seq::<CachedWindowProxy<W, J>>::empty(),
    {
        WindowProxyCache { entries: Vec::new() }
    }

    fn position_of_navigable(&self, n: u64) -> (r: Option<usize>)
        ensures
            match r {
                Some(i) => i < self.entries().len() && first_match(self.entries(), navigable_is::<W, J>(n)) == i,
                None => first_match(self.entries(), navigable_is::<W, J>(n)) == -1,
            },
    {
        let mut i: usize = 0;
        while i < self.entries.len()
            invariant
                i <= self.entries@.len(),
                forall|j: int| 0 <= j < i ==> !(#[trigger] navigable_is::<W, J>(n)(self.entries@[j])),
            decreases self.entries@.len() - i,
        {
            if self.entries[i].navigable_id == n {
                proof {
                    lemma_first_match_is(self.entries@, navigable_is::<W, J>(n), i as int);
                }
                return Some(i);
            }
            i = i + 1;
        }
        proof {
            lemma_first_match_none(self.entries@, navigable_is::<W, J>(n));
        }
        None
    }

    /// The proxy and the script object cached for a navigable, as the last
    /// entry for it holds them.
    pub fn cached_window_proxy_state(&self, n: u64) -> (r: (Option<&W>, Option<&J>))
        ensures
            ({
                let i = last_match(self.entries(), navigable_is::<W, J>(n));
                if i < 0 {
                    r.0 is None && r.1 is None
                } else {
                    &&& match r.0 {
                        Some(w) => self.entries()[i].window_proxy == Some(*w),
                        None => self.entries()[i].window_proxy is None,
                    }
                    &&& match r.1 {
                        Some(j) => self.entries()[i].js_object == Some(*j),
                        None => self.entries()[i].js_object is None,
                    }
                }
            }),
    {
        let mut i: usize = self.entries.len();
        while i > 0
            invariant
                i <= self.entries@.len(),
                forall|j: int| i <= j < self.entries@.len() ==> !(#[trigger] navigable_is::<W, J>(n)(self.entries@[j])),
            decreases i,
        {
            i = i - 1;
            if self.entries[i].navigable_id == n {
                proof {
                    lemma_last_match_is(self.entries@, navigable_is::<W, J>(n), i as int);
                }
                let e = &self.entries[i];
                let w = match &e.window_proxy {
                    Some(w) => Some(w),
                    None => None,
                };
                let j = match &e.js_object {
                    Some(j) => Some(j),
                    None => None,
                };
                return (w, j);
            }
        }
        proof {
            lemma_last_match_none(self.entries@, navigable_is::<W, J>(n));
        }
        (None, None)
    }

    /// Caches the proxy of a navigable: the first entry for it takes the
    /// proxy if it has none; without an entry, one is appended.
    pub fn cache_window_proxy(&mut self, n: u64, window_proxy: W)
        ensures
            ({
                let s = old(self).entries();
                let i = first_match(s, navigable_is::<W, J>(n));
                final(self).entries() == if i < 0 {
                    s.push(CachedWindowProxy { navigable_id: n, window_proxy: Some(window_proxy), js_object: None, iframe_node_id: None })
                } else if s[i].window_proxy is None {
                    s.update(i, CachedWindowProxy { window_proxy: Some(window_proxy), ..s[i] })
                } else {
                    s
                }
            }),
    {
        match self.position_of_navigable(n) {
            Some(i) => {
                if self.entries[i].window_proxy.is_none() {
                    self.entries[i].window_proxy = Some(window_proxy);
                }
            },
            None => {
                self.entries.push(CachedWindowProxy { navigable_id: n, window_proxy: Some(window_proxy), js_object: None, iframe_node_id: None });
            },
        }
    }

    /// Caches the script object of a navigable's proxy: the first entry for
    /// it takes the object if it has none; without an entry, one is appended.
    pub fn cache_window_proxy_object(&mut self, n: u64, js_object: J)
        ensures
            ({
                let s = old(self).entries();
                let i = first_match(s, navigable_is::<W, J>(n));
                final(self).entries() == if i < 0 {
                    s.push(CachedWindowProxy { navigable_id: n, window_proxy: None, js_object: Some(js_object), iframe_node_id: None })
                } else if s[i].js_object is None {
                    s.update(i, CachedWindowProxy { js_object: Some(js_object), ..s[i] })
                } else {
                    s
                }
            }),
    {
        match self.position_of_navigable(n) {
            Some(i) => {
                if self.entries[i].js_object.is_none() {
                    self.entries[i].js_object = Some(js_object);
                }
            },
            None => {
                self.entries.push(CachedWindowProxy { navigable_id: n, window_proxy: None, js_object: Some(js_object), iframe_node_id: None });
            },
        }
    }

    /// The proxies cached for a navigable, whose backing the caller
    /// re-points.
    pub fn window_proxies_for(&self, n: u64) -> (out: Vec<&W>)
        ensures
            out@.len() == proxies_of(self.entries(), n).len(),
            forall|k: int| 0 <= k < out@.len() ==> *out@[k] == proxies_of(self.entries(), n)[k],
    {
        let mut out: Vec<&W> = Vec::new();
        let mut i: usize = 0;
        while i < self.entries.len()
            invariant
                i <= self.entries@.len(),
                out@.len() == proxies_of(self.entries@.take(i as int), n).len(),
                forall|k: int| 0 <= k < out@.len() ==> *out@[k] == proxies_of(self.entries@.take(i as int), n)[k],
            decreases self.entries@.len() - i,
        {
            let ghost t0 = self.entries@.take(i as int);
            assert(self.entries@.take(i as int + 1).drop_last() =~= t0);
            if self.entries[i].navigable_id == n {
                match &self.entries[i].window_proxy {
                    Some(w) => {
                        out.push(w);
                    },
                    None => {},
                }
            }
            i = i + 1;
        }
        assert(self.entries@.take(i as int) =~= self.entries@);
        out
    }

    /// The navigable whose content navigable the iframe node is, if any.
    pub fn content_navigable_for_iframe(&self, node_id: usize) -> (r: Option<u64>)
        ensures
            ({
                let i = first_match(self.entries(), iframe_is::<W, J>(node_id));
                match r {
                    Some(n) => i >= 0 && n == self.entries()[i].navigable_id,
                    None => i == -1,
                }
            }),
    {
        let mut i: usize = 0;
        while i < self.entries.len()
            invariant
                i <= self.entries@.len(),
                forall|j: int| 0 <= j < i ==> !(#[trigger] iframe_is::<W, J>(node_id)(self.entries@[j])),
            decreases self.entries@.len() - i,
        {
            let hit = match self.entries[i].iframe_node_id {
                Some(x) => x == node_id,
                None => false,
            };
            if hit {
                proof {
                    lemma_first_match_is(self.entries@, iframe_is::<W, J>(node_id), i as int);
                }
                return Some(self.entries[i].navigable_id);
            }
            i = i + 1;
        }
        proof {
            lemma_first_match_none(self.entries@, iframe_is::<W, J>(node_id));
        }
        None
    }

    /// Whether registering a content navigable needs a new proxy: the first
    /// entry for the navigable holds none.
    pub fn needs_window_proxy(&self, n: u64) -> (b: bool)
        ensures
            ({
                let i = first_match(self.entries(), navigable_is::<W, J>(n));
                b == !(i >= 0 && self.entries()[i].window_proxy is Some)
            }),
    {
        match self.position_of_navigable(n) {
            Some(i) => self.entries[i].window_proxy.is_none(),
            None => true,
        }
    }

    /// Clears the iframe node's mapping on every entry.
    pub fn unregister_iframe_content_navigable(&mut self, node_id: usize)
        ensures
            final(self).entries() == clear_iframe(old(self).entries(), node_id),
    {
        let ghost s0 = self.entries@;
        let mut i: usize = 0;
        while i < self.entries.len()
            invariant
                i <= self.entries@.len(),
                self.entries@.len() == s0.len(),
                forall|j: int| 0 <= j < i ==> self.entries@[j] == clear_iframe(s0, node_id)[j],
                forall|j: int| i <= j < s0.len() ==> self.entries@[j] == s0[j],
            decreases self.entries@.len() - i,
        {
            let hit = match self.entries[i].iframe_node_id {
                Some(x) => x == node_id,
                None => false,
            };
            if hit {
                self.entries[i].iframe_node_id = None;
            }
            i = i + 1;
        }
        assert(self.entries@ =~= clear_iframe(s0, node_id));
    }

    /// Registers `node_id` as the iframe whose content navigable is `n`: no
    /// other entry keeps the node, and the first entry for the navigable
    /// takes it, with `window_proxy` where it holds no proxy yet.
    pub fn register_iframe_content_navigable(&mut self, node_id: usize, n: u64, window_proxy: Option<W>)
        ensures
            final(self).entries() == register_iframe_step(old(self).entries(), node_id, n, window_proxy),
    {
        self.unregister_iframe_content_navigable(node_id);
        match self.position_of_navigable(n) {
            Some(i) => {
                self.entries[i].iframe_node_id = Some(node_id);
                if self.entries[i].window_proxy.is_none() {
                    self.entries[i].window_proxy = window_proxy;
                }
            },
            None => {
                self.entries.push(CachedWindowProxy { navigable_id: n, window_proxy, js_object: None, iframe_node_id: Some(node_id) });
            },
        }
    }
}

/// A node is the iframe of at most one content navigable: once registered
/// for a navigable, looking the node up finds that navigable.
pub proof fn law_iframe_maps_to_registered_navigable<W, J>(
    s: Seq<CachedWindowProxy<W, J>>,
    node: usize,
    n: u64,
    window_proxy: Option<W>,
)
    ensures
        ({
            let s2 = register_iframe_step(s, node, n, window_proxy);
            let k = first_match(s2, iframe_is::<W, J>(node));
            k >= 0 && s2[k].navigable_id == n && forall|j: int|
                0 <= j < s2.len() && j != k ==> !(#[trigger] iframe_is::<W, J>(node)(s2[j]))
        }),
{
    let s1 = clear_iframe(s, node);
    assert forall|j: int| 0 <= j < s1.len() implies !(#[trigger] iframe_is::<W, J>(node)(s1[j])) by {}
    let i = first_match(s1, navigable_is::<W, J>(n));
    crate::lookup::lemma_first_match_range(s1, navigable_is::<W, J>(n));
    let s2 = register_iframe_step(s, node, n, window_proxy);
    let k = if i >= 0 { i } else { s1.len() as int };
    assert forall|j: int| 0 <= j < s2.len() && j != k implies !(#[trigger] iframe_is::<W, J>(node)(s2[j])) by {
        assert(s2[j] == s1[j]);
    }
    assert forall|j: int| 0 <= j < k implies !(#[trigger] iframe_is::<W, J>(node)(s2[j])) by {}
    lemma_first_match_is(s2, iframe_is::<W, J>(node), k);
}

/// The owner's side of a dedicated worker's channel: the worker's event
/// target and the queue of the messages it posted.
pub struct OwnedWorkerChannel<T, P> {
    pub worker_id: u64,
    pub worker_target: T,
    /// Whether the queue is enabled; it starts disabled.
    pub enabled: bool,
    /// The messages posted while the queue was disabled, oldest first.
    pub pending: VecDeque<P>,
}

pub struct OwnedWorkerModel<T, P> {
    pub worker_id: u64,
    pub worker_target: T,
    pub enabled: bool,
    pub pending: Seq<P>,
}

impl<T, P> View for OwnedWorkerChannel<T, P> {
    type V = OwnedWorkerModel<T, P>;

    open spec fn view(&self) -> OwnedWorkerModel<T, P> {
        OwnedWorkerModel {
            worker_id: self.worker_id,
            worker_target: self.worker_target,
            enabled: self.enabled,
            pending: self.pending@,
        }
    }
}

pub open spec fn worker_is<T, P>(id: u64) -> spec_fn(OwnedWorkerModel<T, P>) -> bool {
    |e: OwnedWorkerModel<T, P>| e.worker_id == id
}

/// What becomes of a message a worker posted to its owner.
pub enum WorkerMessageDelivery<P> {
    /// The worker is not owned here: the message is dropped.
    Dropped,
    /// The queue is disabled: the message waits in it.
    Queued,
    /// The queue is enabled: a message task is to be queued for it.
    Deliver { payload: P },
}

/// The owner's channels after a worker posted a message, and what becomes
/// of the message.
pub open spec fn post_from_worker_step<T, P>(s: Seq<OwnedWorkerModel<T, P>>, id: u64, payload: P) -> (
    Seq<OwnedWorkerModel<T, P>>,
    WorkerMessageDelivery<P>,
) {
    let i = first_match(s, worker_is::<T, P>(id));
    if i < 0 {
        (s, WorkerMessageDelivery::Dropped)
    } else if s[i].enabled {
        (s, WorkerMessageDelivery::Deliver { payload })
    } else {
        (s.update(i, OwnedWorkerModel { pending: s[i].pending.push(payload), ..s[i] }), WorkerMessageDelivery::Queued)
    }
}

/// The owner's channels after a worker's queue is enabled, and the waiting
/// messages, oldest first, to be queued as message tasks.
pub open spec fn enable_worker_step<T, P>(s: Seq<OwnedWorkerModel<T, P>>, id: u64) -> (Seq<OwnedWorkerModel<T, P>>, Seq<P>) {
    let i = first_match(s, worker_is::<T, P>(id));
    if i < 0 {
        (s, Seq::empty())
    } else {
        (s.update(i, OwnedWorkerModel { enabled: true, pending: Seq::empty(), ..s[i] }), s[i].pending)
    }
}

/// The dedicated workers a realm owns.
pub struct OwnedWorkers<T, P> {
    channels: Vec<OwnedWorkerChannel<T, P>>,
}

impl<T, P> View for OwnedWorkers<T, P> {
    type V = Seq<OwnedWorkerModel<T, P>>;

    closed spec fn view(&self) -> Seq<OwnedWorkerModel<T, P>> {
        self.channels@.map_values(|c: OwnedWorkerChannel<T, P>| c@)
    }
}

impl<T, P> OwnedWorkers<T, P> {
    pub fn new() -> (w: Self)
        ensures
            w@ == Seq::<OwnedWorkerModel<T, P>>::empty(),
    {
        let w = OwnedWorkers { channels: Vec::new() };
        assert(w@ =~= Seq::<OwnedWorkerModel<T, P>>::empty());
        w
    }

    fn position_of(&self, id: u64) -> (r: Option<usize>)
        ensures
            match r {
                Some(i) => i < self@.len() && first_match(self@, worker_is::<T, P>(id)) == i,
                None => first_match(self@, worker_is::<T, P>(id)) == -1,
            },
    {
        let mut i: usize = 0;
        while i < self.channels.len()
            invariant
                i <= self.channels@.len(),
                self@ == self.channels@.map_values(|c: OwnedWorkerChannel<T, P>| c@),
                forall|j: int| 0 <= j < i ==> !(#[trigger] worker_is::<T, P>(id)(self@[j])),
            decreases self.channels@.len() - i,
        {
            if self.channels[i].worker_id == id {
                proof {
                    lemma_first_match_is(self@, worker_is::<T, P>(id), i as int);
                }
                return Some(i);
            }
            i = i + 1;
        }
        proof {
            lemma_first_match_none(self@, worker_is::<T, P>(id));
        }
        None
    }

    /// Registers a worker this realm owns, its queue disabled; a worker
    /// already registered is left as it is.
    pub fn register_owned_worker(&mut self, worker_id: u64, worker_target: T)
        ensures
            first_match(old(self)@, worker_is::<T, P>(worker_id)) >= 0 ==> final(self)@ == old(self)@,
            first_match(old(self)@, worker_is::<T, P>(worker_id)) < 0 ==> final(self)@ == old(self)@.push(
                OwnedWorkerModel { worker_id, worker_target, enabled: false, pending: Seq::empty() },
            ),
    {
        if self.position_of(worker_id).is_some() {
            return;
        }
        let ghost s0 = self.channels@;
        let c = OwnedWorkerChannel { worker_id, worker_target, enabled: false, pending: VecDeque::new() };
        self.channels.push(c);
        proof {
            assert(c@.pending =~= Seq::<P>::empty());
            assert(old(self)@ == s0.map_values(|c: OwnedWorkerChannel<T, P>| c@));
            assert(self@ =~= old(self)@.push(c@));
        }
    }

    /// The event target of a worker this realm owns.
    pub fn owned_worker_event_target(&self, worker_id: u64) -> (t: Option<&T>)
        ensures
            ({
                let i = first_match(self@, worker_is::<T, P>(worker_id));
                match t {
                    Some(x) => i >= 0 && *x == self@[i].worker_target,
                    None => i == -1,
                }
            }),
    {
        match self.position_of(worker_id) {
            Some(i) => {
                proof {
                    assert(self@[i as int] == self.channels@[i as int]@);
                }
                Some(&self.channels[i].worker_target)
            },
            None => None,
        }
    }

    /// A message a worker this realm owns posted: delivered at once where
    /// its queue is enabled, kept in the queue otherwise, dropped where the
    /// worker is not owned here.
    pub fn handle_worker_posted_message(&mut self, worker_id: u64, payload: P) -> (out: WorkerMessageDelivery<P>)
        ensures
            (final(self)@, out) == post_from_worker_step(old(self)@, worker_id, payload),
    {
        let i = match self.position_of(worker_id) {
            None => return WorkerMessageDelivery::Dropped,
            Some(i) => i,
        };
        proof {
            assert(self@[i as int] == self.channels@[i as int]@);
        }
        if self.channels[i].enabled {
            return WorkerMessageDelivery::Deliver { payload };
        }
        let ghost s0 = self@;
        let ghost c0 = self.channels@;
        self.channels[i].pending.push_back(payload);
        proof {
            assert(s0 == c0.map_values(|c: OwnedWorkerChannel<T, P>| c@));
            assert(self@ =~= s0.update(i as int, OwnedWorkerModel { pending: s0[i as int].pending.push(payload), ..s0[i as int] }));
        }
        WorkerMessageDelivery::Queued
    }

    /// Enables the queue of a worker this realm owns, handing out the
    /// messages that waited, oldest first.
    pub fn enable_owned_worker_messages(&mut self, worker_id: u64) -> (pending: Vec<P>)
        ensures
            (final(self)@, pending@) == enable_worker_step(old(self)@, worker_id),
    {
        let i = match self.position_of(worker_id) {
            None => return Vec::new(),
            Some(i) => i,
        };
        let ghost s0 = self@;
        let ghost c0 = self.channels@;
        proof {
            assert(s0 == c0.map_values(|c: OwnedWorkerChannel<T, P>| c@));
            assert(s0[i as int] == c0[i as int]@);
        }
        self.channels[i].enabled = true;
        let mut taken: VecDeque<P> = VecDeque::new();
        std::mem::swap(&mut taken, &mut self.channels[i].pending);
        proof {
            assert(self@ =~= s0.update(i as int, OwnedWorkerModel { enabled: true, pending: Seq::empty(), ..s0[i as int] }));
        }
        queue_into_vec(taken)
    }

    /// Drops the channel of a worker this realm owned.
    pub fn discard_owned_worker(&mut self, worker_id: u64)
        ensures
            final(self)@ == without(old(self)@, worker_is::<T, P>(worker_id)),
    {
        let mut rest: Vec<OwnedWorkerChannel<T, P>> = Vec::new();
        std::mem::swap(&mut rest, &mut self.channels);
        let ghost orig = rest@.map_values(|c: OwnedWorkerChannel<T, P>| c@);
        proof {
            assert(orig == old(self)@);
        }
        let mut kept: Vec<OwnedWorkerChannel<T, P>> = Vec::new();
        while rest.len() > 0
            invariant
                kept@.map_values(|c: OwnedWorkerChannel<T, P>| c@) + without(
                    rest@.map_values(|c: OwnedWorkerChannel<T, P>| c@),
                    worker_is::<T, P>(worker_id),
                ) == without(orig, worker_is::<T, P>(worker_id)),
            decreases rest@.len(),
        {
            let ghost r0 = rest@.map_values(|c: OwnedWorkerChannel<T, P>| c@);
            let ghost k0 = kept@.map_values(|c: OwnedWorkerChannel<T, P>| c@);
            proof {
                lemma_without_step(r0, worker_is::<T, P>(worker_id));
            }
            let ghost raw0 = rest@;
            let e = rest.remove(0);
            assert(rest@.map_values(|c: OwnedWorkerChannel<T, P>| c@) =~= r0.drop_first());
            assert(r0[0] == e@);
            if e.worker_id != worker_id {
                kept.push(e);
                assert(kept@.map_values(|c: OwnedWorkerChannel<T, P>| c@) =~= k0.push(e@));
                assert(kept@.map_values(|c: OwnedWorkerChannel<T, P>| c@) + without(
                    rest@.map_values(|c: OwnedWorkerChannel<T, P>| c@),
                    worker_is::<T, P>(worker_id),
                ) =~= k0 + (seq![e@] + without(r0.drop_first(), worker_is::<T, P>(worker_id))));
            }
        }
        assert(rest@.map_values(|c: OwnedWorkerChannel<T, P>| c@) =~= Seq::<OwnedWorkerModel<T, P>>::empty());
        self.channels = kept;
        assert(self@ =~= without(orig, worker_is::<T, P>(worker_id)));
    }
}

/// The messages a worker posts while its owner's queue is disabled are
/// handed out in the order they were posted once the queue is enabled, and
/// later messages are delivered at once.
pub proof fn law_worker_messages_wait_in_order<T, P>(s: Seq<OwnedWorkerModel<T, P>>, id: u64, m1: P, m2: P, m3: P)
    requires
        first_match(s, worker_is::<T, P>(id)) >= 0,
        !s[first_match(s, worker_is::<T, P>(id))].enabled,
    ensures
        ({
            let i = first_match(s, worker_is::<T, P>(id));
            let (s1, d1) = post_from_worker_step(s, id, m1);
            let (s2, d2) = post_from_worker_step(s1, id, m2);
            let (s3, released) = enable_worker_step(s2, id);
            let (s4, d3) = post_from_worker_step(s3, id, m3);
            &&& d1 is Queued
            &&& d2 is Queued
            &&& released == s[i].pending.push(m1).push(m2)
            &&& d3 == WorkerMessageDelivery::Deliver { payload: m3 }
            &&& s4[i].pending.len() == 0
        }),
{
    let i = first_match(s, worker_is::<T, P>(id));
    crate::lookup::lemma_first_match_range(s, worker_is::<T, P>(id));
    let s1 = s.update(i, OwnedWorkerModel { pending: s[i].pending.push(m1), ..s[i] });
    lemma_first_match_update_same_key(s, i, s1[i], id);
    let s2 = s1.update(i, OwnedWorkerModel { pending: s1[i].pending.push(m2), ..s1[i] });
    lemma_first_match_update_same_key(s1, i, s2[i], id);
    let s3 = s2.update(i, OwnedWorkerModel { enabled: true, pending: Seq::empty(), ..s2[i] });
    lemma_first_match_update_same_key(s2, i, s3[i], id);
}

/// Replacing a channel by one of the same worker keeps every lookup.
pub proof fn lemma_first_match_update_same_key<T, P>(s: Seq<OwnedWorkerModel<T, P>>, k: int, r: OwnedWorkerModel<T, P>, id: u64)
    requires
        0 <= k < s.len(),
        r.worker_id == s[k].worker_id,
    ensures
        first_match(s.update(k, r), worker_is::<T, P>(id)) == first_match(s, worker_is::<T, P>(id)),
{
    let t = s.update(k, r);
    crate::lookup::lemma_first_match_range(s, worker_is::<T, P>(id));
    let i = first_match(s, worker_is::<T, P>(id));
    if i >= 0 {
        assert forall|j: int| 0 <= j < i implies !(#[trigger] worker_is::<T, P>(id)(t[j])) by {
            assert(!worker_is::<T, P>(id)(s[j]));
        }
        lemma_first_match_is(t, worker_is::<T, P>(id), i);
    } else {
        assert forall|j: int| 0 <= j < t.len() implies !(#[trigger] worker_is::<T, P>(id)(t[j])) by {
            if worker_is::<T, P>(id)(s[j]) {
                lemma_first_match_exists(s, worker_is::<T, P>(id), j);
            }
        }
        lemma_first_match_none(t, worker_is::<T, P>(id));
    }
}

} // verus!
