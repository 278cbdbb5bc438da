//! A small text store: a map from string keys to string values, held as
//! a vector of pairs with distinct keys and viewed as a `Map` of
//! character sequences. The buffer cache and the scanner's snapshot of
//! script files are both stores of this shape.

use vstd::prelude::*;
use vstd::string::*;

verus! {

/// The view pairs of the stored entries.
pub open spec fn entry_views(s: Seq<(String, String)>) -> Seq<(Seq<char>, Seq<char>)> {
    s.map_values(|p: (String, String)| (p.0@, p.1@))
}

/// The map an association list denotes; a later pair wins, though with
/// distinct keys none ever shadows another.
pub open spec fn assoc_map(s: Seq<(Seq<char>, Seq<char>)>) -> Map<Seq<char>, Seq<char>>
    decreases s.len(),
{
    if s.len() == 0 {
        Map::empty()
    } else {
        assoc_map(s.drop_last()).insert(s.last().0, s.last().1)
    }
}

/// Whether no two pairs share a key.
pub open spec fn distinct_keys(s: Seq<(Seq<char>, Seq<char>)>) -> bool {
    forall|i: int, j: int| 0 <= i < j < s.len() ==> (#[trigger] s[i]).0 != (#[trigger] s[j]).0
}

pub proof fn lemma_assoc_map_contains(s: Seq<(Seq<char>, Seq<char>)>, k: Seq<char>)
    ensures
        assoc_map(s).contains_key(k) <==> exists|i: int| 0 <= i < s.len() && (#[trigger] s[i]).0
            == k,
    decreases s.len(),
{
    if s.len() > 0 {
        lemma_assoc_map_contains(s.drop_last(), k);
        if s.last().0 == k {
            assert(s[s.len() - 1].0 == k);
        } else if assoc_map(s).contains_key(k) {
            let i = choose|i: int| 0 <= i < s.drop_last().len() && (#[trigger] s.drop_last()[i]).0
                == k;
            assert(s[i].0 == k);
        } else {
            if exists|i: int| 0 <= i < s.len() && (#[trigger] s[i]).0 == k {
                let i = choose|i: int| 0 <= i < s.len() && (#[trigger] s[i]).0 == k;
                assert(s.drop_last()[i].0 == k);
            }
        }
    }
}

pub proof fn lemma_assoc_map_value(s: Seq<(Seq<char>, Seq<char>)>, i: int)
    requires
        distinct_keys(s),
        0 <= i < s.len(),
    ensures
        assoc_map(s).contains_key(s[i].0),
        assoc_map(s)[s[i].0] == s[i].1,
    decreases s.len(),
{
    if s.len() > 0 {
        if i == s.len() - 1 {
            assert(s[i] == s.last());
        } else {
            assert(distinct_keys(s.drop_last()));
            assert(s.drop_last()[i] == s[i]);
            lemma_assoc_map_value(s.drop_last(), i);
            assert(s[s.len() - 1].0 != s[i].0);
        }
    }
}

pub proof fn lemma_assoc_map_update(s: Seq<(Seq<char>, Seq<char>)>, i: int, v: Seq<char>)
    requires
        distinct_keys(s),
        0 <= i < s.len(),
    ensures
        assoc_map(s.update(i, (s[i].0, v))) == assoc_map(s).insert(s[i].0, v),
    decreases s.len(),
{
    let t = s.update(i, (s[i].0, v));
    if i == s.len() - 1 {
        assert(t.drop_last() =~= s.drop_last());
        assert(t.last() == (s[i].0, v));
    } else {
        assert(t.drop_last() =~= s.drop_last().update(i, (s[i].0, v)));
        assert(s.drop_last()[i] == s[i]);
        assert(distinct_keys(s.drop_last()));
        lemma_assoc_map_update(s.drop_last(), i, v);
        assert(t.last() == s.last());
        assert(s[s.len() - 1].0 != s[i].0);
        assert(assoc_map(t) =~= assoc_map(s).insert(s[i].0, v)) by {
            assert(assoc_map(t) == assoc_map(s.drop_last()).insert(s[i].0, v).insert(
                s.last().0,
                s.last().1,
            ));
            assert(assoc_map(s).insert(s[i].0, v) == assoc_map(s.drop_last()).insert(
                s.last().0,
                s.last().1,
            ).insert(s[i].0, v));
        }
    }
}

/// A key-to-text store with distinct keys.
pub struct TextStore {
    pub entries: Vec<(String, String)>,
}

impl View for TextStore {
    type V = Map<Seq<char>, Seq<char>>;

    open spec fn view(&self) -> Map<Seq<char>, Seq<char>> {
        assoc_map(entry_views(self.entries@))
    }
}

impl TextStore {
    /// No two entries share a key.
    pub open spec fn wf(self) -> bool {
        distinct_keys(entry_views(self.entries@))
    }

    /// The stored pairs, in insertion order.
    pub open spec fn entries_seq(self) -> Seq<(String, String)> {
        self.entries@
    }

    /// An empty store.
    pub fn new() -> (r: TextStore)
        ensures
            r.wf(),
            r@ == Map::<Seq<char>, Seq<char>>::empty(),
            r.entries_seq().len() == 0,
    {
        TextStore { entries: Vec::new() }
    }

    /// How many keys are stored.
    pub fn len(&self) -> (n: usize)
        ensures
            n == self.entries_seq().len(),
    {
        self.entries.len()
    }

    /// The pair at one position.
    pub fn entry_at(&self, i: usize) -> (r: (&String, &String))
        requires
            i < self.entries_seq().len(),
        ensures
            *r.0 == self.entries_seq()[i as int].0,
            *r.1 == self.entries_seq()[i as int].1,
    {
        let p = &self.entries[i];
        (&p.0, &p.1)
    }

    /// Every stored pair is in the map view.
    pub proof fn lemma_entry_in_view(self, i: int)
        requires
            self.wf(),
            0 <= i < self.entries_seq().len(),
        ensures
            self@.contains_key(self.entries_seq()[i].0@),
            self@[self.entries_seq()[i].0@] == self.entries_seq()[i].1@,
    {
        lemma_assoc_map_value(entry_views(self.entries@), i);
        assert(entry_views(self.entries@)[i] == (self.entries@[i].0@, self.entries@[i].1@));
    }

    /// The text under a key, if any.
    pub fn get(&self, key: &str) -> (r: Option<&String>)
        requires
            self.wf(),
        ensures
            r is Some <==> self@.contains_key(key@),
            r matches Some(t) ==> t@ == self@[key@],
    {
        let ghost views = entry_views(self.entries@);
        proof {
            lemma_assoc_map_contains(views, key@);
        }
        let mut i: usize = 0;
        while i < self.entries.len()
            invariant
                i <= self.entries@.len(),
                self.wf(),
                views == entry_views(self.entries@),
                forall|k: int| 0 <= k < i ==> (#[trigger] views[k]).0 != key@,
            decreases self.entries@.len() - i,
        {
            if crate::strutil::str_eq(self.entries[i].0.as_str(), key) {
                proof {
                    assert(views[i as int].0 == key@);
                    lemma_assoc_map_value(views, i as int);
                }
                return Some(&self.entries[i].1);
            }
            proof {
                assert(views[i as int].0 == self.entries@[i as int].0@);
            }
            i += 1;
        }
        proof {
            lemma_assoc_map_contains(views, key@);
            if self@.contains_key(key@) {
                let w = choose|w: int| 0 <= w < views.len() && (#[trigger] views[w]).0 == key@;
                assert(views[w].0 != key@);
            }
        }
        None
    }

    /// Stores `text` under `key`, replacing what the key held.
    pub fn put(&mut self, key: &str, text: &str)
        requires
            old(self).wf(),
        ensures
            final(self).wf(),
            final(self)@ == old(self)@.insert(key@, text@),
    {
        let ghost views = entry_views(self.entries@);
        let mut i: usize = 0;
        while i < self.entries.len()
            invariant
                i <= self.entries@.len(),
                *self == *old(self),
                old(self).wf(),
                views == entry_views(self.entries@),
                forall|k: int| 0 <= k < i ==> (#[trigger] views[k]).0 != key@,
            decreases self.entries@.len() - i,
        {
            if crate::strutil::str_eq(self.entries[i].0.as_str(), key) {
                let ghost before = self.entries@;
                let owned_key = self.entries[i].0.clone();
                self.entries.set(i, (owned_key, String::from_str(text)));
                proof {
                    assert(views[i as int].0 == key@);
                    assert(entry_views(self.entries@) =~~= views.update(i as int, (key@, text@)));
                    assert(views.update(i as int, (key@, text@)) =~~= views.update(
                        i as int,
                        (views[i as int].0, text@),
                    ));
                    lemma_assoc_map_update(views, i as int, text@);
                    assert(distinct_keys(entry_views(self.entries@))) by {
                        assert forall|x: int, y: int|
                            0 <= x < y < entry_views(self.entries@).len() implies (
                        #[trigger] entry_views(self.entries@)[x]).0 != (#[trigger] entry_views(
                            self.entries@,
                        )[y]).0 by {
                            assert(views[x].0 != views[y].0);
                        }
                    }
                }
                return ;
            }
            proof {
                assert(views[i as int].0 == self.entries@[i as int].0@);
            }
            i += 1;
        }
        proof {
            lemma_assoc_map_contains(views, key@);
            if self@.contains_key(key@) {
                let w = choose|w: int| 0 <= w < views.len() && (#[trigger] views[w]).0 == key@;
                assert(views[w].0 != key@);
            }
        }
        let ghost before = self.entries@;
        self.entries.push((String::from_str(key), String::from_str(text)));
        proof {
            assert(entry_views(self.entries@) =~~= views.push((key@, text@)));
            assert(entry_views(self.entries@).drop_last() =~= views);
            assert(distinct_keys(entry_views(self.entries@))) by {
                let nviews = entry_views(self.entries@);
                assert forall|x: int, y: int|
                    0 <= x < y < nviews.len() implies (#[trigger] nviews[x]).0 != (
                #[trigger] nviews[y]).0 by {
                    if y < views.len() {
                        assert(views[x].0 != views[y].0);
                    } else {
                        assert(nviews[y].0 == key@);
                        assert(views[x].0 != key@);
                    }
                }
            }
        }
    }

    /// Stores `text` under `key` only where the key is absent.
    pub fn put_if_absent(&mut self, key: &str, text: &str)
        requires
            old(self).wf(),
        ensures
            final(self).wf(),
            old(self)@.contains_key(key@) ==> *final(self) == *old(self),
            !old(self)@.contains_key(key@) ==> final(self)@ == old(self)@.insert(key@, text@),
    {
        let present = match self.get(key) {
            Some(_) => true,
            None => false,
        };
        if !present {
            self.put(key, text);
        }
    }
}

} // verus!
