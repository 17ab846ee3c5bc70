//! A map from CSS property names to values, as the style getters build it:
//! entries with distinct names, read as a `Map`.
use vstd::prelude::*;
use crate::text::str_eq;

verus! {

/// The map a list of name/value pairs stands for: later pairs win.
pub open spec fn pairs_to_map(s: Seq<(Seq<char>, Seq<char>)>) -> Map<Seq<char>, Seq<char>>
    decreases s.len(),
{
    if s.len() == 0 {
        Map::empty()
    } else {
        pairs_to_map(s.drop_last()).insert(s.last().0, s.last().1)
    }
}

/// No name occurs twice.
pub open spec fn keys_unique(s: Seq<(Seq<char>, Seq<char>)>) -> bool {
    forall|i: int, j: int| 0 <= i < j < s.len() ==> (#[trigger] s[i]).0 != (#[trigger] s[j]).0
}

/// Property names and values.
pub struct StyleProperties {
    entries: Vec<(String, String)>,
}

impl StyleProperties {
    /// The entries as name/value character sequences.
    pub closed spec fn pairs(&self) -> Seq<(Seq<char>, Seq<char>)> {
        self.entries@.map_values(|e: (String, String)| (e.0@, e.1@))
    }

    /// The well-formedness of the map: no name twice.
    pub closed spec fn wf(&self) -> bool {
        keys_unique(self.pairs())
    }
}

impl View for StyleProperties {
    type V = Map<Seq<char>, Seq<char>>;

    closed spec fn view(&self) -> Map<Seq<char>, Seq<char>> {
        pairs_to_map(self.pairs())
    }
}

proof fn lemma_map_has(s: Seq<(Seq<char>, Seq<char>)>, i: int)
    requires
        keys_unique(s),
        0 <= i < s.len(),
    ensures
        pairs_to_map(s).dom().contains(s[i].0),
        pairs_to_map(s)[s[i].0] == s[i].1,
    decreases s.len(),
{
    if i < s.len() - 1 {
        let p = s.drop_last();
        assert(p[i] == s[i]);
        assert forall|a: int, b: int| 0 <= a < b < p.len() implies (#[trigger] p[a]).0 != (#[trigger] p[b]).0 by {
            assert(p[a] == s[a] && p[b] == s[b]);
        }
        lemma_map_has(p, i);
        assert(s[i].0 != s[s.len() - 1].0);
    }
}

proof fn lemma_map_lacks(s: Seq<(Seq<char>, Seq<char>)>, k: Seq<char>)
    requires
        forall|i: int| 0 <= i < s.len() ==> (#[trigger] s[i]).0 != k,
    ensures
        !pairs_to_map(s).dom().contains(k),
    decreases s.len(),
{
    if s.len() > 0 {
        let p = s.drop_last();
        assert forall|i: int| 0 <= i < p.len() implies (#[trigger] p[i]).0 != k by {
            assert(p[i] == s[i]);
        }
        lemma_map_lacks(p, k);
        assert(s[s.len() - 1].0 != k);
    }
}

proof fn lemma_map_update(s: Seq<(Seq<char>, Seq<char>)>, i: int, v: Seq<char>)
    requires
        keys_unique(s),
        0 <= i < s.len(),
    ensures
        pairs_to_map(s.update(i, (s[i].0, v))) =~= pairs_to_map(s).insert(s[i].0, v),
    decreases s.len(),
{
    let t = s.update(i, (s[i].0, v));
    let p = s.drop_last();
    assert(t.drop_last() =~= if i == s.len() - 1 { p } else { p.update(i, (s[i].0, v)) });
    if i < s.len() - 1 {
        assert(p[i] == s[i]);
        assert forall|a: int, b: int| 0 <= a < b < p.len() implies (#[trigger] p[a]).0 != (#[trigger] p[b]).0 by {
            assert(p[a] == s[a] && p[b] == s[b]);
        }
        lemma_map_update(p, i, v);
        assert(s[i].0 != s[s.len() - 1].0);
    }
}

impl StyleProperties {
    /// An empty map.
    pub fn new() -> (m: Self)
        ensures
            m.wf(),
            m@ == Map::<Seq<char>, Seq<char>>::empty(),
    {
        let m = StyleProperties { entries: Vec::new() };
        assert(m.pairs() =~= Seq::<(Seq<char>, Seq<char>)>::empty());
        m
    }

    fn position(&self, name: &str) -> (r: Option<usize>)
        requires
            self.wf(),
        ensures
            match r {
                Some(i) => i < self.pairs().len() && self.pairs()[i as int].0 == name@,
                None => forall|j: int| 0 <= j < self.pairs().len() ==> (#[trigger] self.pairs()[j]).0 != name@,
            },
    {
        let mut i: usize = 0;
        while i < self.entries.len()
            invariant
                i <= self.entries@.len(),
                forall|j: int| 0 <= j < i ==> (#[trigger] self.pairs()[j]).0 != name@,
            decreases self.entries@.len() - i,
        {
            assert(self.pairs()[i as int] == (self.entries@[i as int].0@, self.entries@[i as int].1@));
            if str_eq(self.entries[i].0.as_str(), name) {
                return Some(i);
            }
            i = i + 1;
        }
        None
    }

    /// The value of a name, if it has one.
    pub fn get(&self, name: &str) -> (r: Option<String>)
        requires
            self.wf(),
        ensures
            match r {
                Some(v) => self@.dom().contains(name@) && self@[name@] == v@,
                None => !self@.dom().contains(name@),
            },
    {
        match self.position(name) {
            Some(i) => {
                proof {
                    lemma_map_has(self.pairs(), i as int);
                }
                assert(self.pairs()[i as int] == (self.entries@[i as int].0@, self.entries@[i as int].1@));
                Some(self.entries[i].1.clone())
            },
            None => {
                proof {
                    lemma_map_lacks(self.pairs(), name@);
                }
                None
            },
        }
    }

    /// Whether a name has a value.
    pub fn contains_key(&self, name: &str) -> (b: bool)
        requires
            self.wf(),
        ensures
            b == self@.dom().contains(name@),
    {
        self.get(name).is_some()
    }

    /// Sets the value of a name.
    pub fn insert(&mut self, name: &str, value: &str)
        requires
            old(self).wf(),
        ensures
            final(self).wf(),
            final(self)@ == old(self)@.insert(name@, value@),
    {
        match self.position(name) {
            Some(i) => {
                let ghost s0 = self.pairs();
                let k = self.entries[i].0.clone();
                self.entries.set(i, (k, String::from_str(value)));
                proof {
                    assert(self.pairs() =~= s0.update(i as int, (s0[i as int].0, value@)));
                    lemma_map_update(s0, i as int, value@);
                }
            },
            None => {
                let ghost s0 = self.pairs();
                self.entries.push((String::from_str(name), String::from_str(value)));
                proof {
                    assert(self.pairs() =~= s0.push((name@, value@)));
                    assert(self.pairs().drop_last() =~= s0);
                }
            },
        }
    }

    /// Sets the value of a name that has none; a name with a value keeps it.
    pub fn insert_if_absent(&mut self, name: &str, value: &str)
        requires
            old(self).wf(),
        ensures
            final(self).wf(),
            final(self)@ == if old(self)@.dom().contains(name@) {
                old(self)@
            } else {
                old(self)@.insert(name@, value@)
            },
    {
        if !self.contains_key(name) {
            self.insert(name, value);
        }
    }

    /// The entries, in the order they were first set.
    pub fn entries(&self) -> (v: &Vec<(String, String)>)
        ensures
            v@.map_values(|e: (String, String)| (e.0@, e.1@)) == self.pairs(),
    {
        &self.entries
    }
}

/// Each entry the map lists is in the map, with its value.
pub proof fn law_listed_entries_are_in_the_map(m: &StyleProperties, i: int)
    requires
        m.wf(),
        0 <= i < m.pairs().len(),
    ensures
        m@.dom().contains(m.pairs()[i].0),
        m@[m.pairs()[i].0] == m.pairs()[i].1,
{
    lemma_map_has(m.pairs(), i);
}

} // verus!
