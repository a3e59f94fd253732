//! The list of recently read books in the "open another book" window: which
//! books match the filter typed by the reader, and which one is selected.
use vstd::prelude::*;

use crate::document_info::DocumentInfo;
use crate::fuzzy::{fuzzy_match, spec_fuzzy_match};
use crate::keyed::{first_index_of, lemma_first_index_absent, lemma_first_index_at, lemma_first_index_of};
use crate::text::{same_text, views};

verus! {

/// The lower-case form of a text, as Unicode defines it.
pub uninterp spec fn lowercase_of(s: Seq<char>) -> Seq<char>;

/// Calls `str::to_lowercase`, which gives the Unicode lower-case form of the
/// text (a function of the text alone, with context-dependent rules such as
/// that for a final capital sigma). The contract names the result and says
/// nothing more of it.
#[verifier::external_body]
fn to_lowercase(s: &str) -> (r: String)
    ensures
        r@ == lowercase_of(s@),
{
    s.to_lowercase()
}

/// The fingerprints of known books.
pub open spec fn book_keys<R>(books: Seq<DocumentInfo<R>>) -> Seq<Seq<char>> {
    books.map_values(|i: DocumentInfo<R>| i.fingerprint@)
}

/// The book with fingerprint `fp` is known and its description, in lower case,
/// matches the lower-case filter `search`.
pub open spec fn book_matches<R>(
    books: Seq<DocumentInfo<R>>,
    fp: Seq<char>,
    search: Seq<char>,
) -> bool {
    let i = first_index_of(book_keys(books), fp);
    i >= 0 && spec_fuzzy_match(lowercase_of(books[i].description@), search)
}

/// The books of `history` that match, most recently read first.
pub open spec fn matching_books<R>(
    books: Seq<DocumentInfo<R>>,
    history: Seq<Seq<char>>,
    search: Seq<char>,
) -> Seq<Seq<char>>
    decreases history.len(),
{
    if history.len() == 0 {
        Seq::empty()
    } else {
        let rest = matching_books(books, history.drop_last(), search);
        if book_matches(books, history.last(), search) {
            seq![history.last()] + rest
        } else {
            rest
        }
    }
}

/// The index an arrow key moves the selection to: down goes to the next
/// match (or stays on the last), up to the previous one (or stays on the
/// first); with no match selected, down goes to the first, up to the last.
pub open spec fn arrow_index(position: Option<usize>, len: usize, down: bool) -> usize {
    match position {
        Some(i) => if down {
            if i + 1 < len {
                (i + 1) as usize
            } else {
                (len - 1) as usize
            }
        } else {
            if i >= 1 {
                (i - 1) as usize
            } else {
                0
            }
        },
        None => if down {
            0
        } else {
            (len - 1) as usize
        },
    }
}

/// The filterable list of recently read books.
pub struct FilterableList<R> {
    pub search_filter: String,
    /// The fingerprints of the matching books, most recently read first.
    pub matches: Vec<String>,
    pub selected_result: String,
    pub all_books: Vec<DocumentInfo<R>>,
    pub access_history: Vec<String>,
}

impl<R: Copy> FilterableList<R> {
    /// A list with no filter, no match and no selection.
    pub fn new(all_books: Vec<DocumentInfo<R>>, access_history: Vec<String>) -> (r: Self)
        ensures
            r.search_filter@.len() == 0,
            r.matches@.len() == 0,
            r.selected_result@.len() == 0,
            r.all_books == all_books,
            r.access_history == access_history,
    {
        FilterableList {
            search_filter: String::new(),
            matches: Vec::new(),
            selected_result: String::new(),
            all_books,
            access_history,
        }
    }

    fn book_position(&self, fp: &str) -> (r: Option<usize>)
        ensures
            match r {
                Some(i) => i == first_index_of(book_keys(self.all_books@), fp@) && i
                    < self.all_books@.len(),
                None => first_index_of(book_keys(self.all_books@), fp@) < 0,
            },
    {
        let ghost keys = book_keys(self.all_books@);
        let mut i: usize = 0;
        while i < self.all_books.len()
            invariant
                keys == book_keys(self.all_books@),
                i <= self.all_books@.len(),
                forall|j: int| 0 <= j < i ==> keys[j] != fp@,
            decreases self.all_books@.len() - i,
        {
            if same_text(self.all_books[i].fingerprint.as_str(), fp) {
                proof {
                    lemma_first_index_at(keys, fp@, i as int);
                }
                return Some(i);
            }
            i = i + 1;
        }
        proof {
            lemma_first_index_absent(keys, fp@);
        }
        None
    }

    /// Fills the matches: the books read, most recent first, whose description
    /// matches the filter (both taken in lower case).
    pub fn find_matches(&mut self)
        ensures
            views(final(self).matches@) == matching_books(
                old(self).all_books@,
                views(old(self).access_history@),
                lowercase_of(old(self).search_filter@),
            ),
            final(self).search_filter == old(self).search_filter,
            final(self).selected_result == old(self).selected_result,
            final(self).all_books == old(self).all_books,
            final(self).access_history == old(self).access_history,
    {
        let search = to_lowercase(self.search_filter.as_str());
        let mut found: Vec<String> = Vec::new();
        let n = self.access_history.len();
        let mut k: usize = n;
        assert(self.access_history@.take(n as int) =~= self.access_history@);
        assert(views(found@) =~= Seq::<Seq<char>>::empty());
        assert(Seq::<Seq<char>>::empty() + matching_books(
            self.all_books@,
            views(self.access_history@),
            search@,
        ) =~= matching_books(self.all_books@, views(self.access_history@), search@));
        while k > 0
            invariant
                k <= n == self.access_history@.len(),
                search@ == lowercase_of(self.search_filter@),
                views(found@) + matching_books(
                    self.all_books@,
                    views(self.access_history@.take(k as int)),
                    search@,
                ) == matching_books(self.all_books@, views(self.access_history@), search@),
            decreases k,
        {
            k = k - 1;
            let ghost h = views(self.access_history@.take(k + 1));
            assert(h.drop_last() =~= views(self.access_history@.take(k as int)));
            assert(h.last() == self.access_history@[k as int]@);
            let fp = self.access_history[k].as_str();
            match self.book_position(fp) {
                Some(i) => {
                    let d = to_lowercase(self.all_books[i].description.as_str());
                    if fuzzy_match(d.as_str(), search.as_str()) {
                        let ghost before = views(found@);
                        found.push(self.access_history[k].clone());
                        assert(views(found@) =~= before.push(fp@));
                        assert(before.push(fp@) + matching_books(
                            self.all_books@,
                            views(self.access_history@.take(k as int)),
                            search@,
                        ) =~= before + (seq![fp@] + matching_books(
                            self.all_books@,
                            views(self.access_history@.take(k as int)),
                            search@,
                        )));
                    }
                },
                None => {},
            }
        }
        assert(matching_books(self.all_books@, views(self.access_history@.take(0)), search@)
            =~= Seq::<Seq<char>>::empty());
        assert(views(found@) + Seq::<Seq<char>>::empty() =~= views(found@));
        self.matches = found;
    }

    fn selected_position(&self) -> (r: Option<usize>)
        ensures
            match r {
                Some(i) => i == first_index_of(views(self.matches@), self.selected_result@) && i
                    < self.matches@.len(),
                None => first_index_of(views(self.matches@), self.selected_result@) < 0,
            },
    {
        let ghost keys = views(self.matches@);
        let mut i: usize = 0;
        while i < self.matches.len()
            invariant
                keys == views(self.matches@),
                i <= self.matches@.len(),
                forall|j: int| 0 <= j < i ==> keys[j] != self.selected_result@,
            decreases self.matches@.len() - i,
        {
            if same_text(self.matches[i].as_str(), self.selected_result.as_str()) {
                proof {
                    lemma_first_index_at(keys, self.selected_result@, i as int);
                }
                return Some(i);
            }
            i = i + 1;
        }
        proof {
            lemma_first_index_absent(keys, self.selected_result@);
        }
        None
    }

    /// Selects match number `idx`, when there is one; says whether it did.
    pub fn select_item(&mut self, idx: usize) -> (r: bool)
        ensures
            r == (idx < old(self).matches@.len()),
            r ==> final(self).selected_result@ == old(self).matches@[idx as int]@,
            !r ==> final(self).selected_result == old(self).selected_result,
            final(self).search_filter == old(self).search_filter,
            final(self).matches == old(self).matches,
            final(self).all_books == old(self).all_books,
            final(self).access_history == old(self).access_history,
    {
        if idx < self.matches.len() {
            self.selected_result = self.matches[idx].clone();
            true
        } else {
            false
        }
    }

    /// Moves the selection with the down or up arrow key; returns the index it
    /// moved to, when that index is a match.
    pub fn move_selection(&mut self, down: bool) -> (r: Option<usize>)
        requires
            !down ==> old(self).matches@.len() > 0,
        ensures
            ({
                let f = first_index_of(views(old(self).matches@), old(self).selected_result@);
                let idx = arrow_index(
                    if f >= 0 {
                        Some(f as usize)
                    } else {
                        None
                    },
                    old(self).matches@.len() as usize,
                    down,
                );
                &&& r == if idx < old(self).matches@.len() {
                    Some(idx)
                } else {
                    None
                }
                &&& idx < old(self).matches@.len() ==> final(self).selected_result@ == old(
                    self,
                ).matches@[idx as int]@
                &&& idx >= old(self).matches@.len() ==> final(self).selected_result == old(
                    self,
                ).selected_result
            }),
            final(self).search_filter == old(self).search_filter,
            final(self).matches == old(self).matches,
            final(self).all_books == old(self).all_books,
            final(self).access_history == old(self).access_history,
    {
        let len = self.matches.len();
        let idx = match self.selected_position() {
            Some(i) => {
                if down {
                    if i + 1 < len {
                        i + 1
                    } else {
                        len - 1
                    }
                } else {
                    if i >= 1 {
                        i - 1
                    } else {
                        0
                    }
                }
            },
            None => {
                if down {
                    0
                } else {
                    len - 1
                }
            },
        };
        if self.select_item(idx) {
            Some(idx)
        } else {
            None
        }
    }

    /// Takes in descriptions edited in the list: for each listed book (by
    /// fingerprint) whose description differs from the one it had before, the
    /// known book with that fingerprint gets the new description.
    pub fn apply_description_edits(&mut self, before: &Vec<String>, edited: &Vec<(String, String)>)
        requires
            before@.len() >= edited@.len(),
        ensures
            final(self).all_books@ == apply_edits(
                old(self).all_books@,
                views(before@),
                edited@.map_values(|e: (String, String)| (e.0@, e.1)),
            ),
            final(self).search_filter == old(self).search_filter,
            final(self).matches == old(self).matches,
            final(self).selected_result == old(self).selected_result,
            final(self).access_history == old(self).access_history,
    {
        let ghost ev = edited@.map_values(|e: (String, String)| (e.0@, e.1));
        let mut i: usize = 0;
        while i < edited.len()
            invariant
                i <= edited@.len() <= before@.len(),
                ev == edited@.map_values(|e: (String, String)| (e.0@, e.1)),
                self.all_books@ == apply_edits(old(self).all_books@, views(before@), ev.take(i as int)),
                self.search_filter == old(self).search_filter,
                self.matches == old(self).matches,
                self.selected_result == old(self).selected_result,
                self.access_history == old(self).access_history,
            decreases edited@.len() - i,
        {
            assert(ev.take(i + 1).drop_last() =~= ev.take(i as int));
            assert(ev.take(i + 1).last() == (edited@[i as int].0@, edited@[i as int].1));
            if !same_text(before[i].as_str(), edited[i].1.as_str()) {
                match self.book_position(edited[i].0.as_str()) {
                    Some(k) => {
                        let mut info = self.all_books.remove(k);
                        info.description = edited[i].1.clone();
                        self.all_books.insert(k, info);
                        proof {
                            let old_books = apply_edits(old(self).all_books@, views(before@), ev.take(i as int));
                            assert(self.all_books@ =~= old_books.update(k as int, DocumentInfo { description: edited@[i as int].1, ..old_books[k as int] }));
                        }
                    },
                    None => {},
                }
            }
            i = i + 1;
        }
        assert(ev.take(edited@.len() as int) =~= ev);
    }
}

/// Books after taking in edited descriptions: edit `k` (a fingerprint and a
/// description) applies when its description differs from `before[k]`, and
/// then goes to the first book with that fingerprint.
pub open spec fn apply_edits<R>(
    books: Seq<DocumentInfo<R>>,
    before: Seq<Seq<char>>,
    edits: Seq<(Seq<char>, String)>,
) -> Seq<DocumentInfo<R>>
    decreases edits.len(),
{
    if edits.len() == 0 {
        books
    } else {
        let prev = apply_edits(books, before, edits.drop_last());
        let k = edits.len() - 1;
        let e = edits.last();
        let i = first_index_of(book_keys(prev), e.0);
        if before[k] != e.1@ && i >= 0 {
            prev.update(i, DocumentInfo { description: e.1, ..prev[i] })
        } else {
            prev
        }
    }
}

/// Taking in edited descriptions keeps the books in their places, with their
/// fingerprints.
pub proof fn lemma_edits_keep_books<R>(
    books: Seq<DocumentInfo<R>>,
    before: Seq<Seq<char>>,
    edits: Seq<(Seq<char>, String)>,
)
    ensures
        apply_edits(books, before, edits).len() == books.len(),
        book_keys(apply_edits(books, before, edits)) == book_keys(books),
    decreases edits.len(),
{
    if edits.len() > 0 {
        lemma_edits_keep_books(books, before, edits.drop_last());
        let prev = apply_edits(books, before, edits.drop_last());
        let e = edits.last();
        let i = first_index_of(book_keys(prev), e.0);
        lemma_first_index_of(book_keys(prev), e.0);
        if before[edits.len() - 1] != e.1@ && i >= 0 {
            let next = prev.update(i, DocumentInfo { description: e.1, ..prev[i] });
            assert(book_keys(next) =~= book_keys(prev));
        }
    }
}

/// A book that no applied edit names (an edit applies when its description
/// differs from the one shown before) comes out of the edits unchanged.
pub proof fn lemma_edits_leave_other_books<R>(
    books: Seq<DocumentInfo<R>>,
    before: Seq<Seq<char>>,
    edits: Seq<(Seq<char>, String)>,
    j: int,
)
    requires
        0 <= j < books.len(),
        forall|k: int|
            0 <= k < edits.len() && (#[trigger] edits[k]).0 == books[j].fingerprint@ ==> before[k]
                == edits[k].1@,
    ensures
        apply_edits(books, before, edits)[j] == books[j],
    decreases edits.len(),
{
    if edits.len() > 0 {
        let rest = edits.drop_last();
        assert forall|k: int|
            0 <= k < rest.len() && (#[trigger] rest[k]).0 == books[j].fingerprint@ implies before[k]
                == rest[k].1@ by {
            assert(rest[k] == edits[k]);
        }
        lemma_edits_leave_other_books(books, before, rest, j);
        lemma_edits_keep_books(books, before, rest);
        let prev = apply_edits(books, before, rest);
        let e = edits.last();
        let n = edits.len() - 1;
        let i = first_index_of(book_keys(prev), e.0);
        lemma_first_index_of(book_keys(prev), e.0);
        if before[n] != e.1@ && i >= 0 {
            assert(edits[n] == e);
            assert(book_keys(prev)[j] == books[j].fingerprint@);
            assert(i != j);
        }
    }
}

/// An applied edit gives its description to the book with its fingerprint,
/// when no later edit names that book (fingerprints of the books being
/// distinct).
pub proof fn lemma_edit_reaches_its_book<R>(
    books: Seq<DocumentInfo<R>>,
    before: Seq<Seq<char>>,
    edits: Seq<(Seq<char>, String)>,
    k: int,
    j: int,
)
    requires
        book_keys(books).no_duplicates(),
        before.len() >= edits.len(),
        0 <= k < edits.len(),
        0 <= j < books.len(),
        books[j].fingerprint@ == edits[k].0,
        before[k] != edits[k].1@,
        forall|k2: int| k < k2 < edits.len() ==> (#[trigger] edits[k2]).0 != edits[k].0,
    ensures
        apply_edits(books, before, edits)[j].description == edits[k].1,
    decreases edits.len(),
{
    let n = edits.len() - 1;
    let rest = edits.drop_last();
    lemma_edits_keep_books(books, before, rest);
    let prev = apply_edits(books, before, rest);
    let e = edits.last();
    let i = first_index_of(book_keys(prev), e.0);
    lemma_first_index_of(book_keys(prev), e.0);
    assert(book_keys(prev)[j] == books[j].fingerprint@);
    if k == n {
        assert(e == edits[k]);
        assert(i >= 0);
        assert(book_keys(books)[i] == book_keys(books)[j]);
        assert(i == j);
    } else {
        assert forall|k2: int| k < k2 < rest.len() implies (#[trigger] rest[k2]).0 != rest[k].0 by {
            assert(rest[k2] == edits[k2]);
        }
        assert(rest[k] == edits[k]);
        lemma_edit_reaches_its_book(books, before, rest, k, j);
        assert(edits[n] == e);
        if before[n] != e.1@ && i >= 0 {
            assert(book_keys(prev)[i] == e.0);
            assert(i != j);
        }
    }
}

} // verus!
