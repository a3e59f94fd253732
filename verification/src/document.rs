//! A book open in the reader: where its file is, and which bookmark, if any,
//! names each page.
use std::collections::HashMap;
use vstd::prelude::*;

use crate::bookmarks::Bookmarks;
use crate::document_info::DocumentInfo;
use crate::keyed::{first_index_of, lemma_first_index_at};

verus! {

broadcast use vstd::std_specs::hash::group_hash_axioms;

/// For each named page, the name of the last entry that names it.
pub open spec fn reverse_of(entries: Seq<(Seq<char>, usize)>) -> Map<usize, Seq<char>>
    decreases entries.len(),
{
    if entries.len() == 0 {
        Map::empty()
    } else {
        reverse_of(entries.drop_last()).insert(entries.last().1, entries.last().0)
    }
}

/// A book open in the reader.
pub struct Document {
    pub fingerprint: String,
    pub filepath: String,
    pub user_facing_path: String,
    pub reverse_bookmarks: HashMap<usize, String>,
    pub doc_info_changed: bool,
}

impl Document {
    /// The bookmark name shown on each page.
    pub open spec fn reverse(self) -> Map<usize, Seq<char>> {
        self.reverse_bookmarks@.map_values(|s: String| s@)
    }

    /// `self` and `other` hold the same text and the same bookmark names.
    pub open spec fn same_content(self, other: Self) -> bool {
        &&& self.fingerprint@ == other.fingerprint@
        &&& self.filepath@ == other.filepath@
        &&& self.user_facing_path@ == other.user_facing_path@
        &&& self.reverse() == other.reverse()
        &&& self.doc_info_changed == other.doc_info_changed
    }

    /// A copy of the book's record.
    pub fn duplicate(&self) -> (r: Self)
        ensures
            r.same_content(*self),
    {
        let r = Document {
            fingerprint: self.fingerprint.clone(),
            filepath: self.filepath.clone(),
            user_facing_path: self.user_facing_path.clone(),
            reverse_bookmarks: self.reverse_bookmarks.clone(),
            doc_info_changed: self.doc_info_changed,
        };
        assert(r.reverse() =~= self.reverse());
        r
    }

    /// A book just opened from `filepath`, described by `info`.
    pub fn from_info<R: Copy>(info: &DocumentInfo<R>, filepath: String, user_facing_path: String) -> (r: Self)
        ensures
            r.fingerprint@ == info.fingerprint@,
            r.filepath == filepath,
            r.user_facing_path == user_facing_path,
            r.reverse() == reverse_of(info.bookmarks.entries_view()),
            !r.doc_info_changed,
    {
        let mut doc = Document {
            fingerprint: info.fingerprint.clone(),
            filepath,
            user_facing_path,
            reverse_bookmarks: HashMap::new(),
            doc_info_changed: false,
        };
        doc.generate_reverse_bookmarks(info);
        doc
    }

    /// Rebuilds, from the book's bookmarks, the name shown on each page.
    pub fn generate_reverse_bookmarks<R: Copy>(&mut self, info: &DocumentInfo<R>)
        ensures
            final(self).reverse() == reverse_of(info.bookmarks.entries_view()),
            final(self).fingerprint == old(self).fingerprint,
            final(self).filepath == old(self).filepath,
            final(self).user_facing_path == old(self).user_facing_path,
            final(self).doc_info_changed == old(self).doc_info_changed,
    {
        self.reverse_bookmarks.clear();
        let entries = &info.bookmarks.entries;
        let ghost ev = info.bookmarks.entries_view();
        let mut i: usize = 0;
        assert(self.reverse() =~= reverse_of(ev.take(0)));
        while i < entries.len()
            invariant
                i <= entries@.len(),
                ev == entries@.map_values(|e: (String, usize)| (e.0@, e.1)),
                self.reverse() == reverse_of(ev.take(i as int)),
                self.fingerprint == old(self).fingerprint,
                self.filepath == old(self).filepath,
                self.user_facing_path == old(self).user_facing_path,
                self.doc_info_changed == old(self).doc_info_changed,
            decreases entries@.len() - i,
        {
            let name = entries[i].0.clone();
            self.reverse_bookmarks.insert(entries[i].1, name);
            assert(ev.take(i + 1).drop_last() =~= ev.take(i as int));
            assert(ev.take(i + 1).last() == (entries@[i as int].0@, entries@[i as int].1));
            assert(self.reverse() =~= reverse_of(ev.take(i as int)).insert(
                entries@[i as int].1,
                entries@[i as int].0@,
            ));
            i = i + 1;
        }
        assert(ev.take(ev.len() as int) =~= ev);
    }

    /// The bookmark name shown on page `page`, if any.
    pub fn check_for_bookmark(&self, page: usize) -> (r: Option<&String>)
        ensures
            match r {
                Some(s) => self.reverse().contains_key(page) && self.reverse()[page] == s@,
                None => !self.reverse().contains_key(page),
            },
    {
        self.reverse_bookmarks.get(&page)
    }
}

proof fn lemma_reverse_of(entries: Seq<(Seq<char>, usize)>)
    ensures
        forall|p: usize|
            #[trigger] reverse_of(entries).contains_key(p) ==> exists|i: int|
                0 <= i < entries.len() && entries[i].1 == p && entries[i].0 == reverse_of(
                    entries,
                )[p],
        forall|i: int|
            0 <= i < entries.len() ==> reverse_of(entries).contains_key(#[trigger] entries[i].1),
    decreases entries.len(),
{
    if entries.len() > 0 {
        let init = entries.drop_last();
        lemma_reverse_of(init);
        assert forall|p: usize| #[trigger] reverse_of(entries).contains_key(p) implies exists|i: int|
            0 <= i < entries.len() && entries[i].1 == p && entries[i].0 == reverse_of(entries)[p] by {
            if p == entries.last().1 {
                assert(entries[entries.len() - 1].1 == p);
            } else {
                let i = choose|i: int|
                    0 <= i < init.len() && init[i].1 == p && init[i].0 == reverse_of(init)[p];
                assert(entries[i] == init[i]);
            }
        }
        assert forall|i: int| 0 <= i < entries.len() implies reverse_of(entries).contains_key(
            #[trigger] entries[i].1,
        ) by {
            if i < init.len() {
                assert(entries[i] == init[i]);
                assert(reverse_of(init).contains_key(init[i].1));
            }
        }
    }
}

/// The page names shown by a book agree with its bookmarks: a page shows a
/// name exactly when some bookmark names it, and the name it shows is a
/// bookmark for that page.
pub proof fn lemma_reverse_agrees_with_bookmarks(b: Bookmarks, page: usize)
    requires
        b.wf(),
    ensures
        reverse_of(b.entries_view()).contains_key(page) <==> exists|name: Seq<char>|
            #[trigger] b@.contains_key(name) && b@[name] == page,
        reverse_of(b.entries_view()).contains_key(page) ==> b@.contains_key(
            reverse_of(b.entries_view())[page],
        ) && b@[reverse_of(b.entries_view())[page]] == page,
{
    let ev = b.entries_view();
    lemma_reverse_of(ev);
    let names = b.names();
    assert forall|i: int| 0 <= i < ev.len() implies first_index_of(names, #[trigger] ev[i].0)
        == i by {
        assert(names[i] == ev[i].0);
        assert forall|j: int| 0 <= j < i implies names[j] != names[i] by {}
        lemma_first_index_at(names, names[i], i);
    }
    if reverse_of(ev).contains_key(page) {
        let i = choose|i: int|
            0 <= i < ev.len() && ev[i].1 == page && ev[i].0 == reverse_of(ev)[page];
        assert(names[i] == ev[i].0);
        assert(names.contains(ev[i].0));
        assert(b@.contains_key(ev[i].0));
        assert(first_index_of(names, ev[i].0) == i);
    }
    if exists|name: Seq<char>| #[trigger] b@.contains_key(name) && b@[name] == page {
        let name = choose|name: Seq<char>| #[trigger] b@.contains_key(name) && b@[name] == page;
        let i = choose|i: int| 0 <= i < names.len() && names[i] == name;
        assert(ev[i].0 == name);
        assert(first_index_of(names, name) == i);
        assert(reverse_of(ev).contains_key(ev[i].1));
    }
}

} // verus!
