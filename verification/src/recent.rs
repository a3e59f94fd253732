//! The books seen on this machine, most recent last, and the places their
//! files were seen.
use vstd::prelude::*;

use crate::keyed::{first_index_of, lemma_first_index_absent, lemma_first_index_at, lemma_first_index_of};
use crate::text::{same_text, views};

verus! {

/// `v` with every occurrence of `t` left out.
pub open spec fn without(v: Seq<Seq<char>>, t: Seq<char>) -> Seq<Seq<char>>
    decreases v.len(),
{
    if v.len() == 0 {
        Seq::empty()
    } else if v.last() == t {
        without(v.drop_last(), t)
    } else {
        without(v.drop_last(), t).push(v.last())
    }
}

/// `v` with `t` moved to (or added at) its back, and held there once.
pub open spec fn moved_to_back(v: Seq<Seq<char>>, t: Seq<char>) -> Seq<Seq<char>> {
    without(v, t).push(t)
}

proof fn lemma_without_contains(v: Seq<Seq<char>>, t: Seq<char>, x: Seq<char>)
    ensures
        without(v, t).contains(x) <==> (v.contains(x) && x != t),
    decreases v.len(),
{
    if v.len() > 0 {
        lemma_without_contains(v.drop_last(), t, x);
        assert(v =~= v.drop_last().push(v.last()));
        if v.contains(x) && x != t && !v.drop_last().contains(x) {
            let k = choose|k: int| 0 <= k < v.len() && v[k] == x;
            if k < v.len() - 1 {
                assert(v.drop_last()[k] == x);
            }
            assert(without(v, t).last() == x);
        }
        if without(v, t).contains(x) && !without(v.drop_last(), t).contains(x) {
            let k = choose|k: int| 0 <= k < without(v, t).len() && without(v, t)[k] == x;
            if v.last() != t {
                if k < without(v, t).len() - 1 {
                    assert(without(v.drop_last(), t)[k] == x);
                }
            }
            assert(v[v.len() - 1] == v.last());
        }
        if without(v.drop_last(), t).contains(x) {
            let k = choose|k: int| 0 <= k < without(v.drop_last(), t).len() && without(
                v.drop_last(),
                t,
            )[k] == x;
            if v.last() != t {
                assert(without(v, t)[k] == x);
            }
        }
        if v.drop_last().contains(x) {
            let k = choose|k: int| 0 <= k < v.drop_last().len() && v.drop_last()[k] == x;
            assert(v[k] == x);
        }
    }
}

proof fn lemma_without_no_duplicates(v: Seq<Seq<char>>, t: Seq<char>)
    requires
        v.no_duplicates(),
    ensures
        without(v, t).no_duplicates(),
        !without(v, t).contains(t),
    decreases v.len(),
{
    if v.len() > 0 {
        let init = v.drop_last();
        assert(init.no_duplicates()) by {
            assert forall|i: int, j: int|
                0 <= i < init.len() && 0 <= j < init.len() && i != j implies init[i]
                != init[j] by {
                assert(init[i] == v[i] && init[j] == v[j]);
            }
        }
        lemma_without_no_duplicates(init, t);
        lemma_without_contains(init, t, t);
        if v.last() != t {
            lemma_without_contains(init, t, v.last());
            assert(!init.contains(v.last())) by {
                if init.contains(v.last()) {
                    let k = choose|k: int| 0 <= k < init.len() && init[k] == v.last();
                    assert(v[k] == v[v.len() - 1]);
                }
            }
            let w = without(init, t);
            assert forall|i: int, j: int|
                0 <= i < w.push(v.last()).len() && 0 <= j < w.push(v.last()).len() && i != j implies w.push(
                v.last(),
            )[i] != w.push(v.last())[j] by {
                if i == w.len() && j < w.len() {
                    assert(w.contains(w[j]));
                } else if j == w.len() && i < w.len() {
                    assert(w.contains(w[i]));
                }
            }
            if without(v, t).contains(t) {
                let k = choose|k: int| 0 <= k < without(v, t).len() && without(v, t)[k] == t;
                if k < w.len() {
                    assert(w[k] == t);
                }
            }
        }
    }
}

proof fn lemma_moved_to_back_contains(v: Seq<Seq<char>>, thing: Seq<char>, x: Seq<char>)
    ensures
        moved_to_back(v, thing).contains(x) <==> (v.contains(x) || x == thing),
{
    let w = without(v, thing);
    lemma_without_contains(v, thing, x);
    if moved_to_back(v, thing).contains(x) && x != thing {
        let k = choose|k: int| 0 <= k < w.push(thing).len() && w.push(thing)[k] == x;
        assert(w[k] == x);
    }
    if w.contains(x) {
        let k = choose|k: int| 0 <= k < w.len() && w[k] == x;
        assert(w.push(thing)[k] == x);
    }
    assert(w.push(thing)[w.len() as int] == thing);
}

/// Moving `thing` to the back of a list that holds each item once gives a
/// list that still holds each item once, with `thing` at its back, and holds
/// exactly the items it held before, with `thing`.
pub proof fn lemma_moved_to_back_keeps_items_once(v: Seq<Seq<char>>, thing: Seq<char>)
    requires
        v.no_duplicates(),
    ensures
        moved_to_back(v, thing).no_duplicates(),
        moved_to_back(v, thing).last() == thing,
        forall|x: Seq<char>|
            #[trigger] moved_to_back(v, thing).contains(x) <==> (v.contains(x) || x == thing),
{
    lemma_without_no_duplicates(v, thing);
    let w = without(v, thing);
    assert forall|i: int, j: int|
        0 <= i < w.push(thing).len() && 0 <= j < w.push(thing).len() && i != j implies w.push(
        thing,
    )[i] != w.push(thing)[j] by {
        if i == w.len() && j < w.len() {
            assert(w.contains(w[j]));
        } else if j == w.len() && i < w.len() {
            assert(w.contains(w[i]));
        }
    }
    assert forall|x: Seq<char>|
        #[trigger] moved_to_back(v, thing).contains(x) <==> (v.contains(x) || x == thing) by {
        lemma_moved_to_back_contains(v, thing, x);
    }
}

/// Moves `thing` to the back of `set_vec`, adding it if it is not there, so
/// that it is held there once: the list stays in order of most recent use.
pub fn put_thing_at_back_of_set_vector(set_vec: &mut Vec<String>, thing: String)
    ensures
        views(final(set_vec)@) == moved_to_back(views(old(set_vec)@), thing@),
{
    if set_vec.len() == 1 && set_vec[0] == thing {
        proof {
            let v = views(old(set_vec)@);
            assert(v.drop_last() =~= Seq::<Seq<char>>::empty());
            assert(v.last() == thing@);
            assert(without(v.drop_last(), thing@) =~= Seq::<Seq<char>>::empty());
            assert(without(v, thing@) =~= Seq::<Seq<char>>::empty());
            assert(moved_to_back(v, thing@) =~= v);
        }
        return ;
    }
    let mut new_vec: Vec<String> = Vec::new();
    let mut i: usize = 0;
    while i < set_vec.len()
        invariant
            i <= set_vec@.len(),
            views(new_vec@) == without(views(set_vec@.take(i as int)), thing@),
        decreases set_vec@.len() - i,
    {
        let ghost prefix = views(set_vec@.take(i + 1));
        assert(prefix.drop_last() =~= views(set_vec@.take(i as int)));
        assert(prefix.last() == set_vec@[i as int]@);
        if set_vec[i] != thing {
            let l = set_vec[i].clone();
            new_vec.push(l);
            assert(views(new_vec@) =~= without(views(set_vec@.take(i as int)), thing@).push(
                set_vec@[i as int]@,
            ));
        }
        i = i + 1;
    }
    assert(set_vec@.take(set_vec@.len() as int) =~= set_vec@);
    let ghost nv = new_vec@;
    new_vec.push(thing);
    assert(views(new_vec@) =~= views(nv).push(thing@));
    *set_vec = new_vec;
}

/// The books seen on this machine, most recently opened last, and for each
/// book (by fingerprint) the places its file was seen, most recent last.
pub struct RecentDocumentsWithLocations {
    pub fingerprints: Vec<String>,
    pub locations: Vec<(String, Vec<String>)>,
}

impl RecentDocumentsWithLocations {
    /// The fingerprints that have a list of places, in list order.
    pub open spec fn location_keys(self) -> Seq<Seq<char>> {
        self.locations@.map_values(|e: (String, Vec<String>)| e.0@)
    }

    /// The places where the book with fingerprint `fp` was seen, most recent last
    /// (the first entry for `fp` counts), or none.
    pub open spec fn places_of(self, fp: Seq<char>) -> Option<Seq<Seq<char>>> {
        let i = first_index_of(self.location_keys(), fp);
        if i < 0 {
            None
        } else {
            Some(views(self.locations@[i].1@))
        }
    }

    /// No book seen, no place known.
    pub fn new() -> (r: Self)
        ensures
            r.fingerprints@.len() == 0,
            r.locations@.len() == 0,
    {
        RecentDocumentsWithLocations { fingerprints: Vec::new(), locations: Vec::new() }
    }

    fn location_entry(&self, fingerprint: &str) -> (r: Option<usize>)
        ensures
            match r {
                Some(i) => i == first_index_of(self.location_keys(), fingerprint@) && i
                    < self.locations@.len(),
                None => first_index_of(self.location_keys(), fingerprint@) < 0,
            },
    {
        let ghost keys = self.location_keys();
        let mut i: usize = 0;
        while i < self.locations.len()
            invariant
                keys == self.location_keys(),
                i <= self.locations@.len(),
                forall|j: int| 0 <= j < i ==> keys[j] != fingerprint@,
            decreases self.locations@.len() - i,
        {
            if same_text(self.locations[i].0.as_str(), fingerprint) {
                proof {
                    lemma_first_index_at(keys, fingerprint@, i as int);
                }
                return Some(i);
            }
            i = i + 1;
        }
        proof {
            lemma_first_index_absent(keys, fingerprint@);
        }
        None
    }

    /// The places where the book with this fingerprint was seen, most recent last.
    pub fn locations_of(&self, fingerprint: &str) -> (r: Option<Vec<String>>)
        ensures
            match r {
                Some(v) => self.places_of(fingerprint@) == Some(views(v@)),
                None => self.places_of(fingerprint@) is None,
            },
    {
        match self.location_entry(fingerprint) {
            Some(i) => {
                let v = self.locations[i].1.clone();
                assert(views(v@) =~= views(self.locations@[i as int].1@));
                Some(v)
            },
            None => None,
        }
    }

    /// Notes that the book with `fingerprint` was just opened from `path`: the
    /// book moves to the back of the recent list, and `path` to the back of the
    /// book's places.
    pub fn record_sighting(&mut self, fingerprint: &str, path: &str)
        ensures
            views(final(self).fingerprints@) == moved_to_back(
                views(old(self).fingerprints@),
                fingerprint@,
            ),
            ({
                let i = first_index_of(old(self).location_keys(), fingerprint@);
                if i >= 0 {
                    &&& final(self).locations@.len() == old(self).locations@.len()
                    &&& final(self).location_keys() == old(self).location_keys()
                    &&& views(final(self).locations@[i].1@) == moved_to_back(
                        views(old(self).locations@[i].1@),
                        path@,
                    )
                    &&& forall|j: int|
                        0 <= j < old(self).locations@.len() && j != i
                            ==> #[trigger] final(self).locations@[j] == old(self).locations@[j]
                } else {
                    &&& final(self).locations@.len() == old(self).locations@.len() + 1
                    &&& final(self).locations@.drop_last() == old(self).locations@
                    &&& final(self).locations@.last().0@ == fingerprint@
                    &&& views(final(self).locations@.last().1@) == seq![path@]
                }
            }),
    {
        match self.location_entry(fingerprint) {
            Some(i) => {
                let ghost old_locations = self.locations@;
                let mut entry = self.locations.remove(i);
                put_thing_at_back_of_set_vector(&mut entry.1, path.to_owned());
                self.locations.insert(i, entry);
                assert(self.locations@ =~= old_locations.update(i as int, entry));
                assert(self.location_keys() =~= old(self).location_keys());
            },
            None => {
                let mut paths: Vec<String> = Vec::new();
                put_thing_at_back_of_set_vector(&mut paths, path.to_owned());
                proof {
                    assert(without(Seq::<Seq<char>>::empty(), path@) =~= Seq::<Seq<char>>::empty());
                    assert(views(paths@) =~= seq![path@]);
                }
                self.locations.push((fingerprint.to_owned(), paths));
                assert(self.locations@.drop_last() =~= old(self).locations@);
            },
        }
        put_thing_at_back_of_set_vector(&mut self.fingerprints, fingerprint.to_owned());
    }
}

} // verus!
