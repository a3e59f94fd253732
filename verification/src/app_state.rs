//! The reader's state across windows: the books open, what is known of every
//! book seen on this machine, where books were seen, and which files the
//! reader itself has just written.
use vstd::prelude::*;

use crate::document::{reverse_of, Document};
use crate::document_info::{first_description, DocumentInfo};
use crate::keyed::{first_index_of, lemma_first_index_absent, lemma_first_index_at, lemma_first_index_of};
use crate::recent::{moved_to_back, RecentDocumentsWithLocations};
use crate::text::{same_text, views};

verus! {

/// `after` is `before` with what is learnt when a book is first opened filled
/// in: the page count when none was known, the description when there was none.
pub open spec fn sighted<R>(
    before: DocumentInfo<R>,
    after: DocumentInfo<R>,
    pdf_page_count: usize,
    title: Option<Seq<char>>,
    authors: Option<Seq<char>>,
    user_facing_path: Seq<char>,
) -> bool {
    &&& after.page_count == if before.page_count == 0 {
        pdf_page_count
    } else {
        before.page_count
    }
    &&& after.description@ == if before.description@.len() == 0 {
        first_description(title, authors, user_facing_path)
    } else {
        before.description@
    }
    &&& after.default_margins == before.default_margins
    &&& after.custom_margins == before.custom_margins
    &&& after.color_inversion_rectangles == before.color_inversion_rectangles
    &&& after.fingerprint == before.fingerprint
    &&& after.contents_page == before.contents_page
    &&& after.bookmarks == before.bookmarks
    &&& after.tags == before.tags
    &&& after.most_recent_page == before.most_recent_page
}

/// The text of an optional string.
pub open spec fn opt_view(s: Option<&str>) -> Option<Seq<char>> {
    match s {
        Some(t) => Some(t@),
        None => None,
    }
}

/// What became of a book that was opened.
pub struct Admission {
    /// Its index among the open books.
    pub index: usize,
    /// Whether it was not open before (its file handle must be kept at `index`).
    pub newly_loaded: bool,
    /// Whether what is known of it changed and must be saved.
    pub save_needed: bool,
}

/// How to open a book known by its fingerprint.
pub enum OpenPlan {
    /// It is open already, at this index.
    AlreadyLoaded(usize),
    /// Try these files in turn; the first that opens is the book.
    TryLocations(Vec<String>),
    /// Nothing is known of where it is.
    Unknown,
}

/// The reader's state across windows.
pub struct AppState<R> {
    pub loaded_documents: Vec<Document>,
    pub all_local_documents_info: Vec<DocumentInfo<R>>,
    pub recent_document_locations: RecentDocumentsWithLocations,
    pub just_saved: Vec<String>,
    pub search_filter: String,
}

impl<R: Copy> AppState<R> {
    /// The fingerprints of the open books, by index.
    pub open spec fn loaded_keys(self) -> Seq<Seq<char>> {
        self.loaded_documents@.map_values(|d: Document| d.fingerprint@)
    }

    /// The fingerprints of the books known on this machine.
    pub open spec fn info_keys(self) -> Seq<Seq<char>> {
        self.all_local_documents_info@.map_values(|i: DocumentInfo<R>| i.fingerprint@)
    }

    /// Each known book has one entry, with well-formed bookmarks.
    pub open spec fn wf(self) -> bool {
        &&& self.info_keys().no_duplicates()
        &&& forall|i: int|
            0 <= i < self.all_local_documents_info@.len()
                ==> #[trigger] self.all_local_documents_info@[i].wf()
        &&& views(self.just_saved@).no_duplicates()
    }

    /// No book open, the given knowledge of books and of where they were seen.
    pub fn from_parts(
        all_local_documents_info: Vec<DocumentInfo<R>>,
        recent_document_locations: RecentDocumentsWithLocations,
    ) -> (r: Self)
        ensures
            r.loaded_documents@.len() == 0,
            r.all_local_documents_info == all_local_documents_info,
            r.recent_document_locations == recent_document_locations,
            r.just_saved@.len() == 0,
            r.search_filter@.len() == 0,
    {
        AppState {
            loaded_documents: Vec::new(),
            all_local_documents_info,
            recent_document_locations,
            just_saved: Vec::new(),
            search_filter: String::new(),
        }
    }

    /// The index of the first open book with this fingerprint.
    pub fn already_loaded(&self, fingerprint: String) -> (r: Option<usize>)
        ensures
            match r {
                Some(i) => i == first_index_of(self.loaded_keys(), fingerprint@) && i
                    < self.loaded_documents@.len(),
                None => first_index_of(self.loaded_keys(), fingerprint@) < 0,
            },
    {
        let ghost keys = self.loaded_keys();
        let mut i: usize = 0;
        while i < self.loaded_documents.len()
            invariant
                keys == self.loaded_keys(),
                i <= self.loaded_documents@.len(),
                forall|j: int| 0 <= j < i ==> keys[j] != fingerprint@,
            decreases self.loaded_documents@.len() - i,
        {
            if same_text(self.loaded_documents[i].fingerprint.as_str(), fingerprint.as_str()) {
                proof {
                    lemma_first_index_at(keys, fingerprint@, i as int);
                }
                return Some(i);
            }
            i = i + 1;
        }
        proof {
            lemma_first_index_absent(keys, fingerprint@);
        }
        None
    }

    /// Where the entry for the book with this fingerprint stands, if any.
    pub fn info_position(&self, fingerprint: &str) -> (r: Option<usize>)
        ensures
            match r {
                Some(i) => i == first_index_of(self.info_keys(), fingerprint@) && i
                    < self.all_local_documents_info@.len(),
                None => first_index_of(self.info_keys(), fingerprint@) < 0,
            },
    {
        let ghost keys = self.info_keys();
        let mut i: usize = 0;
        while i < self.all_local_documents_info.len()
            invariant
                keys == self.info_keys(),
                i <= self.all_local_documents_info@.len(),
                forall|j: int| 0 <= j < i ==> keys[j] != fingerprint@,
            decreases self.all_local_documents_info@.len() - i,
        {
            if same_text(self.all_local_documents_info[i].fingerprint.as_str(), fingerprint) {
                proof {
                    lemma_first_index_at(keys, fingerprint@, i as int);
                }
                return Some(i);
            }
            i = i + 1;
        }
        proof {
            lemma_first_index_absent(keys, fingerprint@);
        }
        None
    }

    /// What is known of the book with this fingerprint.
    pub fn document_info(&self, fingerprint: &str) -> (r: Option<&DocumentInfo<R>>)
        ensures
            match r {
                Some(info) => {
                    let i = first_index_of(self.info_keys(), fingerprint@);
                    i >= 0 && *info == self.all_local_documents_info@[i]
                },
                None => first_index_of(self.info_keys(), fingerprint@) < 0,
            },
    {
        match self.info_position(fingerprint) {
            Some(i) => Some(&self.all_local_documents_info[i]),
            None => None,
        }
    }

    /// Keeps `info` as what is known of its book, in place of an older entry.
    pub fn store_info(&mut self, info: DocumentInfo<R>)
        requires
            old(self).wf(),
            info.wf(),
        ensures
            final(self).wf(),
            ({
                let i = first_index_of(old(self).info_keys(), info.fingerprint@);
                if i >= 0 {
                    final(self).all_local_documents_info@ == old(
                        self,
                    ).all_local_documents_info@.update(i, info)
                } else {
                    final(self).all_local_documents_info@ == old(
                        self,
                    ).all_local_documents_info@.push(info)
                }
            }),
            final(self).loaded_documents == old(self).loaded_documents,
            final(self).recent_document_locations == old(self).recent_document_locations,
            final(self).just_saved == old(self).just_saved,
            final(self).search_filter == old(self).search_filter,
    {
        let ghost old_keys = self.info_keys();
        proof {
            lemma_first_index_of(old_keys, info.fingerprint@);
        }
        match self.info_position(info.fingerprint.as_str()) {
            Some(i) => {
                self.all_local_documents_info.set(i, info);
                assert(self.info_keys() =~= old_keys);
            },
            None => {
                let ghost fp = info.fingerprint@;
                self.all_local_documents_info.push(info);
                let ghost keys = self.info_keys();
                assert(keys =~= old_keys.push(fp));
                assert forall|a: int, b: int|
                    0 <= a < keys.len() && 0 <= b < keys.len() && a != b implies keys[a]
                    != keys[b] by {
                    if a == keys.len() - 1 {
                        assert(old_keys[b] == keys[b]);
                    } else if b == keys.len() - 1 {
                        assert(old_keys[a] == keys[a]);
                    } else {
                        assert(old_keys[a] == keys[a] && old_keys[b] == keys[b]);
                    }
                }
            },
        }
        assert forall|i: int| 0 <= i < self.all_local_documents_info@.len() implies #[trigger] self.all_local_documents_info@[i].wf() by {
            let k = first_index_of(old_keys, info.fingerprint@);
            if i < old(self).all_local_documents_info@.len() && i != k {
                assert(self.all_local_documents_info@[i] == old(self).all_local_documents_info@[i]);
            }
        }
    }

    /// Takes in a book whose file was just opened from `path_string`: fills
    /// in what its file tells of it the first time (`pdf_page_count`, `title`,
    /// `authors`), keeps that as what is known of it, notes where it was seen,
    /// and opens it unless it is open already.
    pub fn admit_opened_book(
        &mut self,
        doc_info: DocumentInfo<R>,
        path_string: String,
        user_facing_path: String,
        pdf_page_count: usize,
        title: Option<&str>,
        authors: Option<&str>,
    ) -> (r: Admission)
        requires
            old(self).wf(),
            doc_info.wf(),
        ensures
            final(self).wf(),
            r.save_needed == (doc_info.page_count == 0 || doc_info.description@.len() == 0),
            exists|stored: DocumentInfo<R>|
                {
                    &&& sighted(
                        doc_info,
                        stored,
                        pdf_page_count,
                        opt_view(title),
                        opt_view(authors),
                        user_facing_path@,
                    )
                    &&& {
                        let i = first_index_of(old(self).info_keys(), doc_info.fingerprint@);
                        if i >= 0 {
                            final(self).all_local_documents_info@ == old(
                                self,
                            ).all_local_documents_info@.update(i, stored)
                        } else {
                            final(self).all_local_documents_info@ == old(
                                self,
                            ).all_local_documents_info@.push(stored)
                        }
                    }
                    &&& {
                        let j = first_index_of(old(self).loaded_keys(), doc_info.fingerprint@);
                        if j >= 0 {
                            &&& r.index == j
                            &&& !r.newly_loaded
                            &&& final(self).loaded_documents == old(self).loaded_documents
                        } else {
                            &&& r.index == old(self).loaded_documents@.len()
                            &&& r.newly_loaded
                            &&& final(self).loaded_documents@.len() == old(
                                self,
                            ).loaded_documents@.len() + 1
                            &&& final(self).loaded_documents@.drop_last() == old(
                                self,
                            ).loaded_documents@
                            &&& final(self).loaded_documents@.last().fingerprint@
                                == doc_info.fingerprint@
                            &&& final(self).loaded_documents@.last().filepath == path_string
                            &&& final(self).loaded_documents@.last().user_facing_path
                                == user_facing_path
                            &&& final(self).loaded_documents@.last().reverse() == reverse_of(
                                stored.bookmarks.entries_view(),
                            )
                            &&& !final(self).loaded_documents@.last().doc_info_changed
                        }
                    }
                },
            views(final(self).recent_document_locations.fingerprints@) == moved_to_back(
                views(old(self).recent_document_locations.fingerprints@),
                doc_info.fingerprint@,
            ),
            ({
                let i = first_index_of(
                    old(self).recent_document_locations.location_keys(),
                    doc_info.fingerprint@,
                );
                if i >= 0 {
                    &&& final(self).recent_document_locations.locations@.len() == old(
                        self,
                    ).recent_document_locations.locations@.len()
                    &&& final(self).recent_document_locations.location_keys() == old(
                        self,
                    ).recent_document_locations.location_keys()
                    &&& views(final(self).recent_document_locations.locations@[i].1@)
                        == moved_to_back(
                        views(old(self).recent_document_locations.locations@[i].1@),
                        path_string@,
                    )
                    &&& forall|j: int|
                        0 <= j < old(self).recent_document_locations.locations@.len() && j != i
                            ==> #[trigger] final(self).recent_document_locations.locations@[j]
                            == old(self).recent_document_locations.locations@[j]
                } else {
                    &&& final(self).recent_document_locations.locations@.len() == old(
                        self,
                    ).recent_document_locations.locations@.len() + 1
                    &&& final(self).recent_document_locations.locations@.drop_last() == old(
                        self,
                    ).recent_document_locations.locations@
                    &&& final(self).recent_document_locations.locations@.last().0@
                        == doc_info.fingerprint@
                    &&& views(final(self).recent_document_locations.locations@.last().1@)
                        == seq![path_string@]
                }
            }),
            final(self).just_saved == old(self).just_saved,
            final(self).search_filter == old(self).search_filter,
    {
        let mut doc_info = doc_info;
        let ghost given_info = doc_info;
        let ghost ufp = user_facing_path;
        let ghost path = path_string;
        let changed = doc_info.note_first_sighting(
            pdf_page_count,
            title,
            authors,
            user_facing_path.as_str(),
        );
        let fingerprint = doc_info.fingerprint.clone();
        self.recent_document_locations.record_sighting(fingerprint.as_str(), path_string.as_str());
        let loaded = self.already_loaded(fingerprint.clone());
        let ghost stored = doc_info;
        let admission = match loaded {
            None => {
                let doc = Document::from_info(&doc_info, path_string, user_facing_path);
                self.loaded_documents.push(doc);
                Admission {
                    index: self.loaded_documents.len() - 1,
                    newly_loaded: true,
                    save_needed: changed,
                }
            },
            Some(id) => Admission { index: id, newly_loaded: false, save_needed: changed },
        };
        self.store_info(doc_info);
        proof {
            assert(sighted(
                given_info,
                stored,
                pdf_page_count,
                opt_view(title),
                opt_view(authors),
                ufp@,
            ));
            let j = first_index_of(old(self).loaded_keys(), given_info.fingerprint@);
            if j < 0 {
                assert(self.loaded_documents@.drop_last() =~= old(self).loaded_documents@);
            }
            let i = first_index_of(old(self).info_keys(), given_info.fingerprint@);
            assert(i >= 0 ==> self.all_local_documents_info@ == old(
                self,
            ).all_local_documents_info@.update(i, stored));
            assert(i < 0 ==> self.all_local_documents_info@ == old(
                self,
            ).all_local_documents_info@.push(stored));
        }
        admission
    }

    /// How to open the book with fingerprint `fp`: it may be open already;
    /// else the places where it was seen are tried, the most recent first.
    pub fn plan_open(&self, fp: &str) -> (r: OpenPlan)
        ensures
            ({
                let j = first_index_of(self.loaded_keys(), fp@);
                if j >= 0 {
                    r == OpenPlan::AlreadyLoaded(j as usize)
                } else {
                    match self.recent_document_locations.places_of(fp@) {
                        Some(places) => r is TryLocations && views(r->TryLocations_0@)
                            == places.reverse(),
                        None => r is Unknown,
                    }
                }
            }),
    {
        match self.already_loaded(fp.to_owned()) {
            Some(idx) => OpenPlan::AlreadyLoaded(idx),
            None => match self.recent_document_locations.locations_of(fp) {
                Some(paths) => OpenPlan::TryLocations(newest_first(&paths)),
                None => OpenPlan::Unknown,
            },
        }
    }

    /// Notes that the information of the book with `fingerprint` was saved (to
    /// the file `saved_path`, when saving succeeded): the first open copy of the
    /// book has no unsaved changes, and the file is remembered as written by
    /// the reader itself.
    pub fn note_saved(&mut self, fingerprint: &str, saved_path: Option<&str>)
        requires
            old(self).wf(),
        ensures
            final(self).wf(),
            ({
                let j = first_index_of(old(self).loaded_keys(), fingerprint@);
                if j >= 0 {
                    &&& final(self).loaded_documents@.len() == old(self).loaded_documents@.len()
                    &&& !final(self).loaded_documents@[j].doc_info_changed
                    &&& forall|k: int|
                        0 <= k < old(self).loaded_documents@.len() && k != j
                            ==> #[trigger] final(self).loaded_documents@[k]
                            == old(self).loaded_documents@[k]
                    &&& final(self).loaded_documents@[j].fingerprint == old(
                        self,
                    ).loaded_documents@[j].fingerprint
                    &&& final(self).loaded_documents@[j].filepath == old(
                        self,
                    ).loaded_documents@[j].filepath
                    &&& final(self).loaded_documents@[j].user_facing_path == old(
                        self,
                    ).loaded_documents@[j].user_facing_path
                    &&& final(self).loaded_documents@[j].reverse_bookmarks == old(
                        self,
                    ).loaded_documents@[j].reverse_bookmarks
                } else {
                    final(self).loaded_documents == old(self).loaded_documents
                }
            }),
            match saved_path {
                Some(p) => views(final(self).just_saved@).to_set() == views(
                    old(self).just_saved@,
                ).to_set().insert(p@),
                None => final(self).just_saved == old(self).just_saved,
            },
            final(self).all_local_documents_info == old(self).all_local_documents_info,
            final(self).recent_document_locations == old(self).recent_document_locations,
            final(self).search_filter == old(self).search_filter,
    {
        match self.already_loaded(fingerprint.to_owned()) {
            Some(idx) => {
                let mut doc = self.loaded_documents.remove(idx);
                doc.doc_info_changed = false;
                self.loaded_documents.insert(idx, doc);
            },
            None => {},
        }
        if let Some(p) = saved_path {
            self.remember_own_write(p);
        }
    }

    fn just_saved_position(&self, path: &str) -> (r: Option<usize>)
        ensures
            match r {
                Some(i) => i < self.just_saved@.len() && self.just_saved@[i as int]@ == path@,
                None => !views(self.just_saved@).contains(path@),
            },
    {
        let mut i: usize = 0;
        while i < self.just_saved.len()
            invariant
                i <= self.just_saved@.len(),
                forall|j: int| 0 <= j < i ==> self.just_saved@[j]@ != path@,
            decreases self.just_saved@.len() - i,
        {
            if same_text(self.just_saved[i].as_str(), path) {
                return Some(i);
            }
            i = i + 1;
        }
        assert(!views(self.just_saved@).contains(path@)) by {
            if views(self.just_saved@).contains(path@) {
                let j = choose|j: int|
                    0 <= j < views(self.just_saved@).len() && views(self.just_saved@)[j] == path@;
                assert(self.just_saved@[j]@ == path@);
            }
        }
        None
    }

    /// Remembers that the reader itself just wrote the file at `path`.
    pub fn remember_own_write(&mut self, path: &str)
        requires
            old(self).wf(),
        ensures
            final(self).wf(),
            views(final(self).just_saved@).to_set() == views(old(self).just_saved@).to_set().insert(
                path@,
            ),
            final(self).loaded_documents == old(self).loaded_documents,
            final(self).all_local_documents_info == old(self).all_local_documents_info,
            final(self).recent_document_locations == old(self).recent_document_locations,
            final(self).search_filter == old(self).search_filter,
    {
        match self.just_saved_position(path) {
            Some(i) => {
                assert(views(self.just_saved@)[i as int] == path@);
                assert(views(self.just_saved@).to_set().insert(path@) =~= views(
                    self.just_saved@,
                ).to_set());
            },
            None => {
                let ghost old_v = views(self.just_saved@);
                self.just_saved.push(path.to_owned());
                let ghost v = views(self.just_saved@);
                assert(v =~= old_v.push(path@));
                assert forall|a: int, b: int|
                    0 <= a < v.len() && 0 <= b < v.len() && a != b implies v[a] != v[b] by {
                    if a == v.len() - 1 {
                        assert(old_v.contains(old_v[b]));
                    } else if b == v.len() - 1 {
                        assert(old_v.contains(old_v[a]));
                    }
                }
                assert(v.to_set() =~= old_v.to_set().insert(path@)) by {
                    assert forall|x: Seq<char>| v.to_set().contains(x) <==> old_v.to_set().insert(
                        path@,
                    ).contains(x) by {
                        if v.contains(x) {
                            let j = choose|j: int| 0 <= j < v.len() && v[j] == x;
                            if j < old_v.len() {
                                assert(old_v[j] == x);
                            }
                        }
                        if old_v.contains(x) {
                            let j = choose|j: int| 0 <= j < old_v.len() && old_v[j] == x;
                            assert(v[j] == x);
                        }
                        assert(v[v.len() - 1] == path@);
                    }
                }
            },
        }
    }

    /// A file of the syncable directory changed: when the reader wrote it
    /// itself, forgets that write and says so (the change needs no reloading).
    pub fn consume_own_write(&mut self, path: &str) -> (r: bool)
        requires
            old(self).wf(),
        ensures
            final(self).wf(),
            r == views(old(self).just_saved@).contains(path@),
            views(final(self).just_saved@).to_set() == views(old(self).just_saved@).to_set().remove(
                path@,
            ),
            final(self).loaded_documents == old(self).loaded_documents,
            final(self).all_local_documents_info == old(self).all_local_documents_info,
            final(self).recent_document_locations == old(self).recent_document_locations,
            final(self).search_filter == old(self).search_filter,
    {
        match self.just_saved_position(path) {
            Some(i) => {
                let ghost old_v = views(self.just_saved@);
                self.just_saved.remove(i);
                let ghost v = views(self.just_saved@);
                assert(v =~= old_v.remove(i as int));
                assert(old_v[i as int] == path@);
                assert forall|a: int, b: int|
                    0 <= a < v.len() && 0 <= b < v.len() && a != b implies v[a] != v[b] by {
                    let a0 = if a < i { a } else { a + 1 };
                    let b0 = if b < i { b } else { b + 1 };
                    assert(v[a] == old_v[a0] && v[b] == old_v[b0]);
                }
                assert(v.to_set() =~= old_v.to_set().remove(path@)) by {
                    assert forall|x: Seq<char>| v.to_set().contains(x) <==> old_v.to_set().remove(
                        path@,
                    ).contains(x) by {
                        if v.contains(x) {
                            let j = choose|j: int| 0 <= j < v.len() && v[j] == x;
                            let j0 = if j < i { j } else { j + 1 };
                            assert(old_v[j0] == x);
                        }
                        if old_v.contains(x) && x != path@ {
                            let j0 = choose|j: int| 0 <= j < old_v.len() && old_v[j] == x;
                            let j = if j0 < i { j0 } else { j0 - 1 };
                            assert(v[j] == x);
                        }
                    }
                }
                assert(old_v.contains(path@));
                true
            },
            None => {
                assert(views(self.just_saved@).to_set().remove(path@) =~= views(
                    self.just_saved@,
                ).to_set());
                false
            },
        }
    }

    /// Takes in information of a book that changed on disk: the first open copy
    /// of the book updates the bookmark names it shows, and the information
    /// replaces what was known of the book.
    pub fn absorb_reloaded_info(&mut self, info: DocumentInfo<R>)
        requires
            old(self).wf(),
            info.wf(),
        ensures
            final(self).wf(),
            ({
                let i = first_index_of(old(self).info_keys(), info.fingerprint@);
                if i >= 0 {
                    final(self).all_local_documents_info@ == old(
                        self,
                    ).all_local_documents_info@.update(i, info)
                } else {
                    final(self).all_local_documents_info@ == old(
                        self,
                    ).all_local_documents_info@.push(info)
                }
            }),
            final(self).loaded_documents@.len() == old(self).loaded_documents@.len(),
            ({
                let j = first_index_of(old(self).loaded_keys(), info.fingerprint@);
                forall|k: int|
                    0 <= k < old(self).loaded_documents@.len() ==> {
                        if k == j {
                            &&& (#[trigger] final(self).loaded_documents@[k]).reverse()
                                == reverse_of(info.bookmarks.entries_view())
                            &&& final(self).loaded_documents@[k].fingerprint == old(
                                self,
                            ).loaded_documents@[k].fingerprint
                            &&& final(self).loaded_documents@[k].filepath == old(
                                self,
                            ).loaded_documents@[k].filepath
                            &&& final(self).loaded_documents@[k].user_facing_path == old(
                                self,
                            ).loaded_documents@[k].user_facing_path
                            &&& final(self).loaded_documents@[k].doc_info_changed == old(
                                self,
                            ).loaded_documents@[k].doc_info_changed
                        } else {
                            final(self).loaded_documents@[k] == old(self).loaded_documents@[k]
                        }
                    }
            }),
            final(self).recent_document_locations == old(self).recent_document_locations,
            final(self).just_saved == old(self).just_saved,
            final(self).search_filter == old(self).search_filter,
    {
        match self.already_loaded(info.fingerprint.clone()) {
            Some(idx) => {
                let mut doc = self.loaded_documents.remove(idx);
                doc.generate_reverse_bookmarks(&info);
                self.loaded_documents.insert(idx, doc);
            },
            None => {},
        }
        self.store_info(info);
    }

    /// The fingerprints of the open books whose information has unsaved
    /// changes, in the order the books were opened.
    pub fn unsaved_fingerprints(&self) -> (r: Vec<String>)
        ensures
            views(r@) == unsaved_of(self.loaded_documents@),
    {
        let mut r: Vec<String> = Vec::new();
        let mut i: usize = 0;
        while i < self.loaded_documents.len()
            invariant
                i <= self.loaded_documents@.len(),
                views(r@) == unsaved_of(self.loaded_documents@.take(i as int)),
            decreases self.loaded_documents@.len() - i,
        {
            let ghost before = r@;
            assert(self.loaded_documents@.take(i + 1).drop_last() =~= self.loaded_documents@.take(
                i as int,
            ));
            if self.loaded_documents[i].doc_info_changed {
                r.push(self.loaded_documents[i].fingerprint.clone());
                assert(views(r@) =~= views(before).push(self.loaded_documents@[i as int].fingerprint@));
            }
            i = i + 1;
        }
        assert(self.loaded_documents@.take(self.loaded_documents@.len() as int)
            =~= self.loaded_documents@);
        r
    }
}

/// The places, the last kept (the most recent) first.
fn newest_first(paths: &Vec<String>) -> (r: Vec<String>)
    ensures
        views(r@) == views(paths@).reverse(),
{
    let mut r: Vec<String> = Vec::new();
    let mut k: usize = paths.len();
    while k > 0
        invariant
            k <= paths@.len(),
            views(r@) == views(paths@).subrange(k as int, paths@.len() as int).reverse(),
        decreases k,
    {
        k = k - 1;
        let ghost before = r@;
        r.push(paths[k].clone());
        assert(views(r@) =~= views(before).push(paths@[k as int]@));
        assert(views(paths@).subrange(k as int, paths@.len() as int).reverse() =~= views(paths@).subrange(
            k + 1,
            paths@.len() as int,
        ).reverse().push(paths@[k as int]@));
    }
    assert(views(paths@).subrange(0, paths@.len() as int) =~= views(paths@));
    r
}

/// The fingerprints of the books with unsaved changes, in order.
pub open spec fn unsaved_of(docs: Seq<Document>) -> Seq<Seq<char>>
    decreases docs.len(),
{
    if docs.len() == 0 {
        Seq::empty()
    } else if docs.last().doc_info_changed {
        unsaved_of(docs.drop_last()).push(docs.last().fingerprint@)
    } else {
        unsaved_of(docs.drop_last())
    }
}

/// Counts the reader's windows; the reader quits when the last one closes.
pub struct WindowCount {
    pub window_count: usize,
    pub windows_to_open: Vec<usize>,
}

impl WindowCount {
    /// No window yet, and the books to open in windows of their own.
    pub fn new(windows: Vec<usize>) -> (r: Self)
        ensures
            r.window_count == 0,
            r.windows_to_open == windows,
    {
        WindowCount { window_count: 0, windows_to_open: windows }
    }

    /// A window opened.
    pub fn window_added(&mut self)
        requires
            old(self).window_count < usize::MAX,
        ensures
            final(self).window_count == old(self).window_count + 1,
            final(self).windows_to_open == old(self).windows_to_open,
    {
        self.window_count = self.window_count + 1;
    }

    /// A window closed; says whether it was the last one, after which the
    /// reader saves everything and quits.
    pub fn window_removed(&mut self) -> (last: bool)
        requires
            old(self).window_count > 0,
        ensures
            final(self).window_count == old(self).window_count - 1,
            last == (final(self).window_count == 0),
            final(self).windows_to_open == old(self).windows_to_open,
    {
        self.window_count = self.window_count - 1;
        self.window_count == 0
    }

    /// The books still waiting for a window of their own; none wait after.
    pub fn take_windows_to_open(&mut self) -> (r: Vec<usize>)
        ensures
            r@ == old(self).windows_to_open@,
            final(self).windows_to_open@.len() == 0,
            final(self).window_count == old(self).window_count,
    {
        let mut r: Vec<usize> = Vec::new();
        std::mem::swap(&mut r, &mut self.windows_to_open);
        r
    }
}

/// A file the reader wrote itself is recognised as such when the watcher
/// reports it, and only once: after `remember_own_write(path)` the next
/// `consume_own_write(path)` answers true, and one after that answers false.
pub proof fn lemma_own_write_recognised_once(
    before: Seq<Seq<char>>,
    remembered: Seq<Seq<char>>,
    consumed: Seq<Seq<char>>,
    path: Seq<char>,
)
    requires
        remembered.to_set() == before.to_set().insert(path),
        consumed.to_set() == remembered.to_set().remove(path),
    ensures
        remembered.contains(path),
        !consumed.contains(path),
{
    assert(remembered.to_set().contains(path));
    assert(!consumed.to_set().contains(path));
}

} // verus!
