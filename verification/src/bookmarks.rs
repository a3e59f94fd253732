//! Bookmarks: names (single letters, as the reader types them) for pages.
use vstd::prelude::*;

use crate::keyed::{first_index_of, lemma_first_index_absent, lemma_first_index_at, lemma_first_index_of};
use crate::text::same_text;

verus! {

/// The names of entries given by their text.
pub open spec fn names_of(e: Seq<(Seq<char>, usize)>) -> Seq<Seq<char>> {
    e.map_values(|x: (Seq<char>, usize)| x.0)
}

/// Entries after naming `page` with `name`: the entry with that name moves to
/// `page`, or a new entry is added at the end.
pub open spec fn entries_with(e: Seq<(Seq<char>, usize)>, name: Seq<char>, page: usize) -> Seq<
    (Seq<char>, usize),
> {
    let i = first_index_of(names_of(e), name);
    if i >= 0 {
        e.update(i, (name, page))
    } else {
        e.push((name, page))
    }
}

/// Entries after taking the name `name` away.
pub open spec fn entries_without(e: Seq<(Seq<char>, usize)>, name: Seq<char>) -> Seq<
    (Seq<char>, usize),
> {
    let i = first_index_of(names_of(e), name);
    if i >= 0 {
        e.remove(i)
    } else {
        e
    }
}

/// Taking a name away from entries whose names occur once leaves names that
/// occur once, all of them names the entries had, the taken name not among them.
pub proof fn lemma_entries_without(e: Seq<(Seq<char>, usize)>, name: Seq<char>)
    requires
        names_of(e).no_duplicates(),
    ensures
        names_of(entries_without(e, name)).no_duplicates(),
        !names_of(entries_without(e, name)).contains(name),
        forall|x: Seq<char>|
            #[trigger] names_of(entries_without(e, name)).contains(x) ==> names_of(e).contains(x),
{
    let ns = names_of(e);
    lemma_first_index_of(ns, name);
    let i = first_index_of(ns, name);
    if i >= 0 {
        let w = entries_without(e, name);
        let wn = names_of(w);
        assert(wn =~= ns.remove(i));
        assert forall|a: int, b: int|
            0 <= a < wn.len() && 0 <= b < wn.len() && a != b implies wn[a] != wn[b] by {
            let a0 = if a < i { a } else { a + 1 };
            let b0 = if b < i { b } else { b + 1 };
            assert(wn[a] == ns[a0]);
            assert(wn[b] == ns[b0]);
        }
        assert forall|x: Seq<char>| #[trigger] wn.contains(x) implies ns.contains(x) && x != name by {
            let j = choose|j: int| 0 <= j < wn.len() && wn[j] == x;
            let j0 = if j < i { j } else { j + 1 };
            assert(ns[j0] == x);
            assert(ns[i] == name);
        }
    } else {
        assert(entries_without(e, name) == e);
    }
}

/// Naming a page in entries whose names occur once leaves names that occur
/// once, and the name then names that page.
pub proof fn lemma_entries_with(e: Seq<(Seq<char>, usize)>, name: Seq<char>, page: usize)
    requires
        names_of(e).no_duplicates(),
    ensures
        names_of(entries_with(e, name, page)).no_duplicates(),
        first_index_of(names_of(entries_with(e, name, page)), name) >= 0,
        entries_with(e, name, page)[first_index_of(names_of(entries_with(e, name, page)), name)].1
            == page,
        forall|x: Seq<char>|
            #[trigger] names_of(entries_with(e, name, page)).contains(x) ==> (x == name
                || names_of(e).contains(x)),
{
    let ns = names_of(e);
    lemma_first_index_of(ns, name);
    let i = first_index_of(ns, name);
    let w = entries_with(e, name, page);
    let wn = names_of(w);
    if i >= 0 {
        assert(wn =~= ns.update(i, name));
        assert(wn =~= ns);
        lemma_first_index_of(wn, name);
        assert(first_index_of(wn, name) == i) by {
            assert forall|j: int| 0 <= j < i implies wn[j] != name by {}
            crate::keyed::lemma_first_index_at(wn, name, i);
        }
    } else {
        assert(wn =~= ns.push(name));
        assert forall|a: int, b: int|
            0 <= a < wn.len() && 0 <= b < wn.len() && a != b implies wn[a] != wn[b] by {
            if a == wn.len() - 1 {
                assert(ns.contains(wn[b]));
            } else if b == wn.len() - 1 {
                assert(ns.contains(wn[a]));
            }
        }
        assert forall|j: int| 0 <= j < wn.len() - 1 implies wn[j] != name by {
            assert(wn[j] == ns[j]);
        }
        crate::keyed::lemma_first_index_at(wn, name, wn.len() - 1);
        assert forall|x: Seq<char>| #[trigger] wn.contains(x) implies (x == name || ns.contains(x)) by {
            let j = choose|j: int| 0 <= j < wn.len() && wn[j] == x;
            if j < ns.len() {
                assert(ns[j] == x);
            }
        }
    }
}

/// Named pages. Each name occurs once in `entries`; entries keep the order in
/// which names were first given.
pub struct Bookmarks {
    pub entries: Vec<(String, usize)>,
}

impl Bookmarks {
    /// The entries, names taken by their text.
    pub open spec fn entries_view(self) -> Seq<(Seq<char>, usize)> {
        self.entries@.map_values(|e: (String, usize)| (e.0@, e.1))
    }

    /// The names, in entry order.
    pub open spec fn names(self) -> Seq<Seq<char>> {
        self.entries@.map_values(|e: (String, usize)| e.0@)
    }

    /// Each name occurs once.
    pub open spec fn wf(self) -> bool {
        self.names().no_duplicates()
    }

    /// The page of each name.
    pub open spec fn view(self) -> Map<Seq<char>, usize> {
        Map::new(
            |k: Seq<char>| self.names().contains(k),
            |k: Seq<char>| self.entries@[first_index_of(self.names(), k)].1,
        )
    }

    /// No bookmarks.
    pub fn new() -> (r: Self)
        ensures
            r.wf(),
            r.entries@.len() == 0,
            r@ == Map::<Seq<char>, usize>::empty(),
    {
        let r = Bookmarks { entries: Vec::new() };
        assert(r@ =~= Map::<Seq<char>, usize>::empty());
        r
    }

    /// A copy of the bookmarks, entry for entry.
    pub fn duplicate(&self) -> (r: Self)
        ensures
            r.entries_view() == self.entries_view(),
            self.wf() ==> r.wf(),
            r@ == self@,
    {
        let mut entries: Vec<(String, usize)> = Vec::new();
        let mut i: usize = 0;
        while i < self.entries.len()
            invariant
                i <= self.entries@.len(),
                entries@.len() == i,
                forall|j: int| 0 <= j < i ==> (#[trigger] entries@[j]).0@ == self.entries@[j].0@
                    && entries@[j].1 == self.entries@[j].1,
            decreases self.entries@.len() - i,
        {
            entries.push((self.entries[i].0.clone(), self.entries[i].1));
            i = i + 1;
        }
        let r = Bookmarks { entries };
        assert(r.entries_view() =~= self.entries_view());
        assert(r.names() =~= self.names());
        assert forall|k: Seq<char>| #[trigger] r@.contains_key(k) implies r@[k] == self@[k] by {
            lemma_first_index_of(self.names(), k);
        }
        assert(r@ =~= self@);
        r
    }

    /// Where the entry named `name` stands, if any.
    pub fn position(&self, name: &str) -> (r: Option<usize>)
        ensures
            match r {
                Some(i) => i == first_index_of(self.names(), name@) && i < self.entries@.len()
                    && self.names().contains(name@),
                None => first_index_of(self.names(), name@) < 0 && !self.names().contains(
                    name@,
                ),
            },
    {
        let ghost keys = self.names();
        proof {
            lemma_first_index_of(keys, name@);
        }
        let mut i: usize = 0;
        while i < self.entries.len()
            invariant
                keys == self.names(),
                i <= self.entries@.len(),
                forall|j: int| 0 <= j < i ==> keys[j] != name@,
            decreases self.entries@.len() - i,
        {
            if same_text(self.entries[i].0.as_str(), name) {
                proof {
                    lemma_first_index_at(keys, name@, i as int);
                }
                return Some(i);
            }
            i = i + 1;
        }
        proof {
            lemma_first_index_absent(keys, name@);
        }
        None
    }

    /// The page named `name`, if any.
    pub fn get(&self, name: &str) -> (r: Option<usize>)
        ensures
            match r {
                Some(p) => self@.contains_key(name@) && self@[name@] == p,
                None => !self@.contains_key(name@),
            },
    {
        match self.position(name) {
            Some(i) => Some(self.entries[i].1),
            None => None,
        }
    }

    /// Gives `page` the name `name`; a name already given moves to the new page.
    pub fn insert(&mut self, name: &str, page: usize)
        requires
            old(self).wf(),
        ensures
            final(self).wf(),
            final(self)@ == old(self)@.insert(name@, page),
            final(self).entries_view() == entries_with(old(self).entries_view(), name@, page),
            ({
                let i = first_index_of(old(self).names(), name@);
                if i >= 0 {
                    final(self).entries@ == old(self).entries@.update(
                        i,
                        (old(self).entries@[i].0, page),
                    )
                } else {
                    &&& final(self).entries@.drop_last() == old(self).entries@
                    &&& final(self).entries@.last().0@ == name@
                    &&& final(self).entries@.last().1 == page
                }
            }),
    {
        let ghost old_names = self.names();
        match self.position(name) {
            Some(i) => {
                let key = self.entries[i].0.clone();
                self.entries.set(i, (key, page));
                assert(self.names() =~= old_names);
                proof {
                    lemma_first_index_of(old_names, name@);
                    assert forall|k: Seq<char>| old_names.contains(k) implies first_index_of(
                        old_names,
                        k,
                    ) == i <==> k == name@ by {
                        lemma_first_index_of(old_names, k);
                        if k != name@ && first_index_of(old_names, k) == i {
                            assert(old_names[i as int] == name@);
                        }
                    }
                }
                assert forall|k: Seq<char>| #[trigger] self@.contains_key(k) implies self@[k]
                    == old(self)@.insert(name@, page)[k] by {
                    if k != name@ {
                        lemma_first_index_of(old_names, k);
                        assert(first_index_of(old_names, k) != i);
                    }
                }
                assert(self@ =~= old(self)@.insert(name@, page));
                assert(names_of(old(self).entries_view()) =~= old_names);
                assert(self.entries_view() =~= entries_with(old(self).entries_view(), name@, page));
            },
            None => {
                self.entries.push((name.to_owned(), page));
                let ghost names = self.names();
                assert(names =~= old_names.push(name@));
                proof {
                    assert forall|a: int, b: int|
                        0 <= a < names.len() && 0 <= b < names.len() && a != b implies names[a]
                        != names[b] by {
                        if a == names.len() - 1 {
                            assert(old_names.contains(names[b]));
                        } else if b == names.len() - 1 {
                            assert(old_names.contains(names[a]));
                        }
                    }
                    assert forall|k: Seq<char>| #[trigger] names.contains(k) implies (k == name@
                        || old_names.contains(k)) by {
                        let j = choose|j: int| 0 <= j < names.len() && names[j] == k;
                        if j < old_names.len() {
                            assert(old_names[j] == k);
                        }
                    }
                    assert forall|k: Seq<char>| old_names.contains(k) implies #[trigger] names.contains(
                        k,
                    ) && first_index_of(names, k) == first_index_of(old_names, k) by {
                        lemma_first_index_of(old_names, k);
                        let j = first_index_of(old_names, k);
                        assert(names[j] == k);
                        lemma_first_index_at(names, k, j);
                    }
                    assert(names[names.len() - 1] == name@);
                    assert(forall|j: int| 0 <= j < names.len() - 1 ==> names[j] == old_names[j]);
                    lemma_first_index_absent(old_names, name@);
                    lemma_first_index_at(names, name@, names.len() - 1);
                    assert forall|k: Seq<char>| #[trigger] self@.contains_key(k) implies self@[k]
                        == old(self)@.insert(name@, page)[k] by {
                        if k != name@ {
                            assert(old_names.contains(k));
                            lemma_first_index_of(old_names, k);
                        }
                    }
                    assert forall|k: Seq<char>| #[trigger] old(self)@.insert(name@, page).contains_key(k)
                        implies self@.contains_key(k) by {
                        if k == name@ {
                            assert(names.contains(names[names.len() - 1]));
                        }
                    }
                }
                assert(self@ =~= old(self)@.insert(name@, page));
                assert(names_of(old(self).entries_view()) =~= old_names);
                assert(self.entries_view() =~= entries_with(old(self).entries_view(), name@, page));
            },
        }
    }

    /// Takes the name `name` away, if it was given.
    pub fn remove(&mut self, name: &str)
        requires
            old(self).wf(),
        ensures
            final(self).wf(),
            final(self)@ == old(self)@.remove(name@),
            final(self).entries_view() == entries_without(old(self).entries_view(), name@),
            ({
                let i = first_index_of(old(self).names(), name@);
                if i >= 0 {
                    final(self).entries@ == old(self).entries@.remove(i)
                } else {
                    final(self).entries@ == old(self).entries@
                }
            }),
    {
        let ghost old_names = self.names();
        match self.position(name) {
            Some(i) => {
                proof {
                    lemma_first_index_of(old_names, name@);
                }
                self.entries.remove(i);
                let ghost names = self.names();
                assert(names =~= old_names.remove(i as int));
                proof {
                    assert forall|a: int, b: int|
                        0 <= a < names.len() && 0 <= b < names.len() && a != b implies names[a]
                        != names[b] by {
                        let a0 = if a < i { a } else { a + 1 };
                        let b0 = if b < i { b } else { b + 1 };
                        assert(names[a] == old_names[a0]);
                        assert(names[b] == old_names[b0]);
                    }
                    assert forall|k: Seq<char>| #[trigger] names.contains(k) <==> (
                    old_names.contains(k) && k != name@) by {
                        if names.contains(k) {
                            let j = choose|j: int| 0 <= j < names.len() && names[j] == k;
                            let j0 = if j < i { j } else { j + 1 };
                            assert(old_names[j0] == k);
                            assert(old_names[i as int] == name@);
                        }
                        if old_names.contains(k) && k != name@ {
                            let j0 = choose|j: int| 0 <= j < old_names.len() && old_names[j] == k;
                            assert(j0 != i);
                            let j = if j0 < i { j0 } else { j0 - 1 };
                            assert(names[j] == k);
                        }
                    }
                    assert forall|k: Seq<char>| #[trigger] names.contains(k) implies self.entries@[first_index_of(names, k)].1
                        == old(self).entries@[first_index_of(old_names, k)].1 by {
                        lemma_first_index_of(names, k);
                        lemma_first_index_of(old_names, k);
                        let j = first_index_of(names, k);
                        let j0 = if j < i { j } else { j + 1 };
                        assert(old_names[j0] == k);
                        assert forall|m: int| 0 <= m < j0 implies old_names[m] != k by {
                            if m < i {
                                assert(old_names[m] == names[m]);
                            } else if m > i {
                                assert(old_names[m] == names[m - 1]);
                            } else {
                                assert(old_names[i as int] == name@);
                            }
                        }
                        lemma_first_index_at(old_names, k, j0);
                    }
                }
                assert(self@ =~= old(self)@.remove(name@));
                assert(names_of(old(self).entries_view()) =~= old_names);
                assert(self.entries_view() =~= entries_without(old(self).entries_view(), name@));
            },
            None => {
                assert(self@ =~= old(self)@.remove(name@));
                assert(names_of(old(self).entries_view()) =~= old_names);
            },
        }
    }
}

} // verus!
