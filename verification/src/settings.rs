//! What an environment settings object records beside its realm: its
//! origin, referrer policy, the handlers of its timers, and the video paint
//! identifiers registered for its media elements.
use vstd::prelude::*;
use crate::url::{url_origin, url_origin_of};

verus! {

/// An origin, by its serialization.
#[derive(Debug)]
pub struct Origin {
    pub serialized: String,
}

/// A referrer policy.
#[derive(Clone, Copy, Debug, PartialEq, Eq, Structural)]
pub enum ReferrerPolicy {
    NoReferrerWhenDowngrade,
}

impl Default for ReferrerPolicy {
    /// The default policy: no-referrer-when-downgrade.
    fn default() -> (p: Self)
        ensures
            p == ReferrerPolicy::NoReferrerWhenDowngrade,
    {
        ReferrerPolicy::NoReferrerWhenDowngrade
    }
}

/// A timer's handler: a callback, or a string of source to evaluate.
pub enum TimerHandler<C> {
    Function { callback: C },
    String { source: String },
}

/// The origin of a new settings object: the creator's, where there is
/// one; otherwise that of the creation URL, serialized (nothing where the
/// creation URL does not parse).
pub open spec fn settings_origin_spec(creator: Option<Seq<char>>, creation_url: Seq<char>) -> Option<
    Seq<char>,
> {
    match creator {
        Some(c) => Some(c),
        None => match url_origin_of(creation_url) {
            Some((_, s)) => Some(s),
            None => None,
        },
    }
}

/// The origin a new window or worker settings object takes.
pub fn settings_origin(creator_origin: Option<Origin>, creation_url: &str) -> (r: Option<Origin>)
    ensures
        match r {
            Some(o) => settings_origin_spec(
                match creator_origin {
                    Some(c) => Some(c.serialized@),
                    None => None,
                },
                creation_url@,
            ) == Some(o.serialized@),
            None => settings_origin_spec(
                match creator_origin {
                    Some(c) => Some(c.serialized@),
                    None => None,
                },
                creation_url@,
            ) is None,
        },
{
    match creator_origin {
        Some(c) => Some(c),
        None => match url_origin(creation_url) {
            Some((_, s)) => Some(Origin { serialized: s }),
            None => None,
        },
    }
}

/// The creator origin an auxiliary browsing context inherits from the
/// opener's creation URL: its origin where that is not opaque.
pub fn auxiliary_creator_origin(creation_url: Option<&str>) -> (r: Option<Origin>)
    ensures
        match creation_url {
            None => r is None,
            Some(u) => match url_origin_of(u@) {
                Some((opaque, s)) => if opaque {
                    r is None
                } else {
                    r matches Some(o) && o.serialized@ == s
                },
                None => r is None,
            },
        },
{
    match creation_url {
        None => None,
        Some(u) => match url_origin(u) {
            Some((opaque, s)) => if opaque {
                None
            } else {
                Some(Origin { serialized: s })
            },
            None => None,
        },
    }
}

/// The video paint identifiers of media elements, by document and node:
/// the first one registered for an element stays.
pub struct VideoPaintRegistry {
    entries: Vec<((u128, usize), u128)>,
}

/// The registry as a map.
pub open spec fn paint_map(s: Seq<((u128, usize), u128)>) -> Map<(u128, usize), u128>
    decreases s.len(),
{
    if s.len() == 0 {
        Map::empty()
    } else {
        paint_map(s.drop_last()).insert(s.last().0, s.last().1)
    }
}

pub open spec fn paint_keys_unique(s: Seq<((u128, usize), u128)>) -> bool {
    forall|i: int, j: int| 0 <= i < j < s.len() ==> (#[trigger] s[i]).0 != (#[trigger] s[j]).0
}

proof fn lemma_paint_lacks(s: Seq<((u128, usize), u128)>, k: (u128, usize))
    requires
        forall|i: int| 0 <= i < s.len() ==> (#[trigger] s[i]).0 != k,
    ensures
        !paint_map(s).dom().contains(k),
    decreases s.len(),
{
    if s.len() > 0 {
        let p = s.drop_last();
        assert forall|i: int| 0 <= i < p.len() implies (#[trigger] p[i]).0 != k by {
            assert(p[i] == s[i]);
        }
        lemma_paint_lacks(p, k);
    }
}

proof fn lemma_paint_has(s: Seq<((u128, usize), u128)>, i: int)
    requires
        0 <= i < s.len(),
    ensures
        paint_map(s).dom().contains(s[i].0),
    decreases s.len(),
{
    if i < s.len() - 1 {
        assert(s.drop_last()[i] == s[i]);
        lemma_paint_has(s.drop_last(), i);
    }
}

impl VideoPaintRegistry {
    /// The registrations, oldest first.
    pub closed spec fn registrations(&self) -> Seq<((u128, usize), u128)> {
        self.entries@
    }

    /// The registry as a map from (document, node) to paint identifier.
    pub open spec fn paint_ids_map(&self) -> Map<(u128, usize), u128> {
        paint_map(self.registrations())
    }

    /// Every registry lists each (document, node) once.
    #[verifier::type_invariant]
    closed spec fn keys_listed_once(&self) -> bool {
        paint_keys_unique(self.entries@)
    }

    pub fn new() -> (r: Self)
        ensures
            r.paint_ids_map() == Map::<(u128, usize), u128>::empty(),
            paint_keys_unique(r.registrations()),
    {
        VideoPaintRegistry { entries: Vec::new() }
    }

    /// Registers the paint identifier of a document's node, unless one is
    /// registered already.
    pub fn register_video_paint_id(&mut self, document_id: u128, node_id: usize, paint_id: u128)
        ensures
            paint_keys_unique(final(self).registrations()),
            final(self).paint_ids_map() == if old(self).paint_ids_map().dom().contains((document_id, node_id)) {
                old(self).paint_ids_map()
            } else {
                old(self).paint_ids_map().insert((document_id, node_id), paint_id)
            },
    {
        proof {
            use_type_invariant(&*self);
        }
        let mut i: usize = 0;
        while i < self.entries.len()
            invariant
                i <= self.entries@.len(),
                self.entries@ == old(self).entries@,
                paint_keys_unique(self.entries@),
                forall|j: int| 0 <= j < i ==> (#[trigger] self.entries@[j]).0 != (document_id, node_id),
            decreases self.entries@.len() - i,
        {
            let (k, _) = self.entries[i];
            if k.0 == document_id && k.1 == node_id {
                proof {
                    lemma_paint_has(self.entries@, i as int);
                }
                return;
            }
            i = i + 1;
        }
        proof {
            lemma_paint_lacks(self.entries@, (document_id, node_id));
        }
        let ghost s0 = self.entries@;
        let mut entries: Vec<((u128, usize), u128)> = Vec::new();
        std::mem::swap(&mut entries, &mut self.entries);
        entries.push(((document_id, node_id), paint_id));
        assert(entries@.drop_last() =~= s0);
        assert(paint_keys_unique(entries@)) by {
            assert forall|a: int, b: int| 0 <= a < b < entries@.len() implies (#[trigger] entries@[a]).0
                != (#[trigger] entries@[b]).0 by {
                assert(entries@[a] == s0[a]);
                if b < s0.len() {
                    assert(entries@[b] == s0[b]);
                }
            }
        }
        self.entries = entries;
    }

    /// The paint identifier registered for a document's node, if any.
    pub fn paint_id(&self, document_id: u128, node_id: usize) -> (r: Option<u128>)
        ensures
            match r {
                Some(v) => self.paint_ids_map().dom().contains((document_id, node_id))
                    && self.paint_ids_map()[(document_id, node_id)] == v,
                None => !self.paint_ids_map().dom().contains((document_id, node_id)),
            },
    {
        proof {
            use_type_invariant(&*self);
        }
        let mut i: usize = 0;
        while i < self.entries.len()
            invariant
                i <= self.entries@.len(),
                paint_keys_unique(self.entries@),
                forall|j: int| 0 <= j < i ==> (#[trigger] self.entries@[j]).0 != (document_id, node_id),
            decreases self.entries@.len() - i,
        {
            let (k, v) = self.entries[i];
            if k.0 == document_id && k.1 == node_id {
                proof {
                    lemma_paint_value(self.entries@, i as int);
                }
                return Some(v);
            }
            i = i + 1;
        }
        proof {
            lemma_paint_lacks(self.entries@, (document_id, node_id));
        }
        None
    }

    /// The registrations, oldest first.
    pub fn registered(&self) -> (v: Vec<((u128, usize), u128)>)
        ensures
            v@ == self.registrations(),
    {
        let mut v: Vec<((u128, usize), u128)> = Vec::new();
        let mut i: usize = 0;
        while i < self.entries.len()
            invariant
                i <= self.entries@.len(),
                v@ == self.entries@.take(i as int),
            decreases self.entries@.len() - i,
        {
            v.push(self.entries[i]);
            i = i + 1;
            assert(v@ =~= self.entries@.take(i as int));
        }
        assert(self.entries@.take(i as int) =~= self.entries@);
        v
    }
}

/// In a registry that lists each key once, a listed key maps to the value
/// listed with it.
proof fn lemma_paint_value(s: Seq<((u128, usize), u128)>, i: int)
    requires
        0 <= i < s.len(),
        paint_keys_unique(s),
    ensures
        paint_map(s).dom().contains(s[i].0),
        paint_map(s)[s[i].0] == s[i].1,
    decreases s.len(),
{
    lemma_paint_has(s, i);
    if i < s.len() - 1 {
        let p = s.drop_last();
        assert(p[i] == s[i]);
        assert forall|a: int, b: int| 0 <= a < b < p.len() implies (#[trigger] p[a]).0 != (#[trigger] p[b]).0 by {
            assert(p[a] == s[a] && p[b] == s[b]);
        }
        lemma_paint_value(p, i);
        assert(s.last().0 != s[i].0);
    }
}

} // verus!
