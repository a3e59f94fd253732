//! What the reader keeps about each book: crop margins, colour inversion
//! areas, bookmarks, page tags, reading position and a description.
use std::collections::HashMap;
use vstd::prelude::*;

use crate::bookmarks::{Bookmarks, entries_with, entries_without};
use crate::text::push_char;

verus! {

broadcast use vstd::std_specs::hash::group_hash_axioms;

/// The crop margins used for pages that have none of their own: one area for
/// all pages, or one for even-numbered pages and one for odd-numbered pages.
#[derive(Clone, Copy)]
pub enum CropMargins<R> {
    AllPagesSame(R),
    DistinguishEvenAndOddPages(R, R),
}

impl<R> CropMargins<R> {
    /// The area these margins give page `page`.
    pub open spec fn for_page(self, page: usize) -> R {
        match self {
            CropMargins::AllPagesSame(m) => m,
            CropMargins::DistinguishEvenAndOddPages(even, odd) => if page % 2 == 0 {
                even
            } else {
                odd
            },
        }
    }
}

/// The margins of a book as a pair: the default margins and the pages that have
/// margins of their own.
pub type MarginsModel<R> = (CropMargins<R>, Map<usize, R>);

/// The visible area of page `page`: its own margins if it has them, else the
/// default margins for it.
pub open spec fn margins_for<R>(m: MarginsModel<R>, page: usize) -> R {
    if m.1.contains_key(page) {
        m.1[page]
    } else {
        m.0.for_page(page)
    }
}

/// Page `page` gets margins of its own, a copy of what it showed; or, when it
/// had its own, loses them.
pub open spec fn toggled_custom<R>(m: MarginsModel<R>, page: usize) -> MarginsModel<R> {
    if m.1.contains_key(page) {
        (m.0, m.1.remove(page))
    } else {
        (m.0, m.1.insert(page, m.0.for_page(page)))
    }
}

/// One default area becomes two (even and odd pages) that both start as it; two
/// become one, the one that page `page` showed.
pub open spec fn toggled_even_odd<R>(m: MarginsModel<R>, page: usize) -> MarginsModel<R> {
    match m.0 {
        CropMargins::AllPagesSame(a) => (CropMargins::DistinguishEvenAndOddPages(a, a), m.1),
        CropMargins::DistinguishEvenAndOddPages(_, _) => (
            CropMargins::AllPagesSame(m.0.for_page(page)),
            m.1,
        ),
    }
}

/// Page `page` is given the area `rect`: its own margins if it has them, else
/// the default margins that it uses.
pub open spec fn with_page_margins<R>(m: MarginsModel<R>, page: usize, rect: R) -> MarginsModel<
    R,
> {
    if m.1.contains_key(page) {
        (m.0, m.1.insert(page, rect))
    } else {
        match m.0 {
            CropMargins::AllPagesSame(_) => (CropMargins::AllPagesSame(rect), m.1),
            CropMargins::DistinguishEvenAndOddPages(even, odd) => if page % 2 == 0 {
                (CropMargins::DistinguishEvenAndOddPages(rect, odd), m.1)
            } else {
                (CropMargins::DistinguishEvenAndOddPages(even, rect), m.1)
            },
        }
    }
}

/// The tag bits of page `page`: none when the page has no entry.
pub open spec fn tag_bits_of(tags: Map<usize, u16>, page: usize) -> u16 {
    if tags.contains_key(page) {
        tags[page]
    } else {
        0
    }
}

/// Tags after flipping bit `bit` of page `page`.
pub open spec fn toggled_tag(tags: Map<usize, u16>, page: usize, bit: u32) -> Map<usize, u16> {
    tags.insert(page, tag_bits_of(tags, page) ^ (1u16 << bit))
}

/// The description given to a book the first time it is seen: its title,
/// followed directly by the path it was opened from, then " by " and its
/// authors when these are known.
pub open spec fn first_description(
    title: Option<Seq<char>>,
    authors: Option<Seq<char>>,
    user_facing_path: Seq<char>,
) -> Seq<char> {
    let t = match title {
        Some(t) => t,
        None => Seq::empty(),
    };
    let with_path = if t.len() > 0 {
        t + user_facing_path
    } else {
        t
    };
    match authors {
        Some(a) => if a.len() > 0 {
            with_path + seq![' ', 'b', 'y', ' '] + a
        } else {
            with_path
        },
        None => with_path,
    }
}

/// Everything the reader keeps about one book, `R` being the type of a page
/// area (a rectangle in coordinates where the page is the unit square).
pub struct DocumentInfo<R> {
    pub default_margins: CropMargins<R>,
    pub custom_margins: HashMap<usize, R>,
    pub color_inversion_rectangles: HashMap<usize, Vec<R>>,
    pub fingerprint: String,
    pub contents_page: usize,
    pub bookmarks: Bookmarks,
    pub tags: HashMap<usize, u16>,
    pub most_recent_page: usize,
    pub page_count: usize,
    pub description: String,
}

impl<R: Copy> DocumentInfo<R> {
    /// The margins, as a model.
    pub open spec fn margins(self) -> MarginsModel<R> {
        (self.default_margins, self.custom_margins@)
    }

    /// The colour inversion areas of each page, in the order they were made.
    pub open spec fn inversions(self) -> Map<usize, Seq<R>> {
        self.color_inversion_rectangles@.map_values(|v: Vec<R>| v@)
    }

    /// The bookmarks are well formed.
    pub open spec fn wf(self) -> bool {
        self.bookmarks.wf()
    }

    /// `self` and `other` agree on everything but the margins.
    pub open spec fn same_but_margins(self, other: Self) -> bool {
        &&& self.color_inversion_rectangles == other.color_inversion_rectangles
        &&& self.fingerprint == other.fingerprint
        &&& self.contents_page == other.contents_page
        &&& self.bookmarks == other.bookmarks
        &&& self.tags == other.tags
        &&& self.most_recent_page == other.most_recent_page
        &&& self.page_count == other.page_count
        &&& self.description == other.description
    }

    /// `self` and `other` agree on everything but the tags.
    pub open spec fn same_but_tags(self, other: Self) -> bool {
        &&& self.default_margins == other.default_margins
        &&& self.custom_margins == other.custom_margins
        &&& self.color_inversion_rectangles == other.color_inversion_rectangles
        &&& self.fingerprint == other.fingerprint
        &&& self.contents_page == other.contents_page
        &&& self.bookmarks == other.bookmarks
        &&& self.most_recent_page == other.most_recent_page
        &&& self.page_count == other.page_count
        &&& self.description == other.description
    }

    /// `self` and `other` agree on everything but the bookmarks.
    pub open spec fn same_but_bookmarks(self, other: Self) -> bool {
        &&& self.default_margins == other.default_margins
        &&& self.custom_margins == other.custom_margins
        &&& self.color_inversion_rectangles == other.color_inversion_rectangles
        &&& self.fingerprint == other.fingerprint
        &&& self.contents_page == other.contents_page
        &&& self.tags == other.tags
        &&& self.most_recent_page == other.most_recent_page
        &&& self.page_count == other.page_count
        &&& self.description == other.description
    }

    /// `self` and `other` agree on everything but the colour inversion areas.
    pub open spec fn same_but_inversions(self, other: Self) -> bool {
        &&& self.default_margins == other.default_margins
        &&& self.custom_margins == other.custom_margins
        &&& self.fingerprint == other.fingerprint
        &&& self.contents_page == other.contents_page
        &&& self.bookmarks == other.bookmarks
        &&& self.tags == other.tags
        &&& self.most_recent_page == other.most_recent_page
        &&& self.page_count == other.page_count
        &&& self.description == other.description
    }

    /// `self` and `other` hold the same knowledge of the book.
    pub open spec fn same_content(self, other: Self) -> bool {
        &&& self.default_margins == other.default_margins
        &&& self.custom_margins@ == other.custom_margins@
        &&& self.color_inversion_rectangles@ == other.color_inversion_rectangles@
        &&& self.fingerprint@ == other.fingerprint@
        &&& self.contents_page == other.contents_page
        &&& self.bookmarks.entries_view() == other.bookmarks.entries_view()
        &&& self.bookmarks@ == other.bookmarks@
        &&& self.tags@ == other.tags@
        &&& self.most_recent_page == other.most_recent_page
        &&& self.page_count == other.page_count
        &&& self.description@ == other.description@
    }

    /// A copy of what the reader knows of the book.
    pub fn duplicate(&self) -> (r: Self)
        ensures
            r.same_content(*self),
            self.wf() ==> r.wf(),
    {
        DocumentInfo {
            default_margins: self.default_margins,
            custom_margins: self.custom_margins.clone(),
            color_inversion_rectangles: self.color_inversion_rectangles.clone(),
            fingerprint: self.fingerprint.clone(),
            contents_page: self.contents_page,
            bookmarks: self.bookmarks.duplicate(),
            tags: self.tags.clone(),
            most_recent_page: self.most_recent_page,
            page_count: self.page_count,
            description: self.description.clone(),
        }
    }

    /// What the reader knows of a book it has not seen before: the given default
    /// margins for all pages, and nothing else.
    pub fn fresh(fingerprint: &str, default_margins: R) -> (r: Self)
        ensures
            r.wf(),
            r.default_margins == CropMargins::AllPagesSame(default_margins),
            r.custom_margins@ == Map::<usize, R>::empty(),
            r.inversions() == Map::<usize, Seq<R>>::empty(),
            r.fingerprint@ == fingerprint@,
            r.contents_page == 0,
            r.bookmarks@ == Map::<Seq<char>, usize>::empty(),
            r.bookmarks.entries@.len() == 0,
            r.tags@ == Map::<usize, u16>::empty(),
            r.most_recent_page == 0,
            r.page_count == 0,
            r.description@ == Seq::<char>::empty(),
    {
        let r = DocumentInfo {
            default_margins: CropMargins::AllPagesSame(default_margins),
            custom_margins: HashMap::new(),
            color_inversion_rectangles: HashMap::new(),
            fingerprint: fingerprint.to_owned(),
            contents_page: 0,
            bookmarks: Bookmarks::new(),
            tags: HashMap::new(),
            most_recent_page: 0,
            page_count: 0,
            description: String::new(),
        };
        assert(r.inversions() =~= Map::<usize, Seq<R>>::empty());
        r
    }

    /// Whether page `page_number` has margins of its own.
    pub fn has_custom_margins(&self, page_number: usize) -> (r: bool)
        ensures
            r == self.custom_margins@.contains_key(page_number),
    {
        self.custom_margins.contains_key(&page_number)
    }

    /// Whether all pages without margins of their own share one area.
    pub fn are_all_pages_same(&self) -> (r: bool)
        ensures
            r == (self.default_margins is AllPagesSame),
    {
        match self.default_margins {
            CropMargins::AllPagesSame(_) => true,
            _ => false,
        }
    }

    /// Whether even- and odd-numbered pages have different default margins.
    pub fn are_even_and_odd_distinguished(&self) -> (r: bool)
        ensures
            r == (self.default_margins is DistinguishEvenAndOddPages),
    {
        match self.default_margins {
            CropMargins::AllPagesSame(_) => false,
            CropMargins::DistinguishEvenAndOddPages(_, _) => true,
        }
    }

    /// Gives page `page_number` margins of its own, a copy of those it shows;
    /// or takes them away, when it has them.
    pub fn toggle_custom_margins(&mut self, page_number: usize)
        ensures
            final(self).margins() == toggled_custom(old(self).margins(), page_number),
            final(self).same_but_margins(*old(self)),
    {
        if self.has_custom_margins(page_number) {
            self.custom_margins.remove(&page_number);
        } else {
            let m = match self.default_margins {
                CropMargins::AllPagesSame(margins) => margins,
                CropMargins::DistinguishEvenAndOddPages(even, odd) => {
                    if page_number % 2 == 0 {
                        even
                    } else {
                        odd
                    }
                },
            };
            self.custom_margins.insert(page_number, m);
        }
    }

    /// Switches between one default area for all pages and one for even- and
    /// one for odd-numbered pages; going back to one area keeps the one that
    /// page `page_number` shows.
    pub fn toggle_even_odd_page_distinction(&mut self, page_number: usize)
        ensures
            final(self).margins() == toggled_even_odd(old(self).margins(), page_number),
            final(self).same_but_margins(*old(self)),
    {
        self.default_margins = match self.default_margins {
            CropMargins::AllPagesSame(margins) => CropMargins::DistinguishEvenAndOddPages(
                margins,
                margins,
            ),
            CropMargins::DistinguishEvenAndOddPages(even, odd) => {
                if page_number % 2 == 0 {
                    CropMargins::AllPagesSame(even)
                } else {
                    CropMargins::AllPagesSame(odd)
                }
            },
        }
    }

    /// The visible area of page `page_number`.
    pub fn page_margins_in_normalized_coords(&self, page_number: usize) -> (r: R)
        ensures
            r == margins_for(self.margins(), page_number),
    {
        match self.custom_margins.get(&page_number) {
            Some(margins) => *margins,
            None => match self.default_margins {
                CropMargins::AllPagesSame(margins) => margins,
                CropMargins::DistinguishEvenAndOddPages(even, odd) => {
                    if page_number % 2 == 0 {
                        even
                    } else {
                        odd
                    }
                },
            },
        }
    }

    /// Sets the visible area of page `page_number`: its own margins when it has
    /// them, else the default margins it uses (and so those of the pages that
    /// share them).
    pub fn set_page_margins(&mut self, page_number: usize, rect: R)
        ensures
            final(self).margins() == with_page_margins(old(self).margins(), page_number, rect),
            final(self).same_but_margins(*old(self)),
    {
        if self.custom_margins.contains_key(&page_number) {
            self.custom_margins.insert(page_number, rect);
        } else {
            match self.default_margins {
                CropMargins::AllPagesSame(_) => self.default_margins = CropMargins::AllPagesSame(
                    rect,
                ),
                CropMargins::DistinguishEvenAndOddPages(even, odd) => {
                    if page_number % 2 == 0 {
                        self.default_margins = CropMargins::DistinguishEvenAndOddPages(rect, odd);
                    } else {
                        self.default_margins = CropMargins::DistinguishEvenAndOddPages(even, rect);
                    }
                },
            }
        }
    }

    /// The tag bits of page `page`.
    pub fn tag_bits(&self, page: usize) -> (r: u16)
        ensures
            r == tag_bits_of(self.tags@, page),
    {
        match self.tags.get(&page) {
            Some(t) => *t,
            None => 0,
        }
    }

    /// Removes all tags of page `page`.
    pub fn clear_tags(&mut self, page: usize)
        ensures
            final(self).tags@ == old(self).tags@.remove(page),
            final(self).same_but_tags(*old(self)),
    {
        self.tags.remove(&page);
    }

    /// Sets the tag bits of page `page`.
    pub fn set_tags(&mut self, page: usize, tags: u16)
        ensures
            final(self).tags@ == old(self).tags@.insert(page, tags),
            final(self).same_but_tags(*old(self)),
    {
        self.tags.insert(page, tags);
    }

    /// Flips tag bit `bit` of page `page`.
    pub fn toggle_tag_bit(&mut self, page: usize, bit: u32)
        requires
            bit < 16,
        ensures
            final(self).tags@ == toggled_tag(old(self).tags@, page, bit),
            final(self).same_but_tags(*old(self)),
    {
        let t = self.tag_bits(page);
        self.tags.insert(page, t ^ (1u16 << bit));
    }

    /// Names page `page` with `c`; a name already given moves to this page.
    pub fn add_bookmark(&mut self, c: &str, page: usize)
        requires
            old(self).wf(),
        ensures
            final(self).wf(),
            final(self).bookmarks@ == old(self).bookmarks@.insert(c@, page),
            final(self).bookmarks.entries_view() == entries_with(
                old(self).bookmarks.entries_view(),
                c@,
                page,
            ),
            final(self).same_but_bookmarks(*old(self)),
    {
        self.bookmarks.insert(c, page);
    }

    /// Takes the bookmark named `c` away.
    pub fn remove_bookmark(&mut self, c: &str)
        requires
            old(self).wf(),
        ensures
            final(self).wf(),
            final(self).bookmarks@ == old(self).bookmarks@.remove(c@),
            final(self).bookmarks.entries_view() == entries_without(
                old(self).bookmarks.entries_view(),
                c@,
            ),
            final(self).same_but_bookmarks(*old(self)),
    {
        self.bookmarks.remove(c);
    }

    /// The page named `c`, if any.
    pub fn lookup_bookmark(&self, c: String) -> (r: Option<usize>)
        ensures
            match r {
                Some(p) => self.bookmarks@.contains_key(c@) && self.bookmarks@[c@] == p,
                None => !self.bookmarks@.contains_key(c@),
            },
    {
        self.bookmarks.get(c.as_str())
    }

    /// The colour inversion areas of page `page`, in the order they were made.
    pub fn color_inversion_rects(&self, page: usize) -> (r: Option<&Vec<R>>)
        ensures
            match r {
                Some(v) => self.inversions().contains_key(page) && self.inversions()[page] == v@,
                None => !self.inversions().contains_key(page),
            },
    {
        self.color_inversion_rectangles.get(&page)
    }

    /// Whether page `page` has at least one colour inversion area.
    pub fn has_color_inversion_rects(&self, page: usize) -> (r: bool)
        ensures
            r == (self.inversions().contains_key(page) && self.inversions()[page].len() > 0),
    {
        match self.color_inversion_rectangles.get(&page) {
            Some(rects) => rects.len() > 0,
            None => false,
        }
    }

    /// Adds a colour inversion area to page `page`, after those it has.
    pub fn add_color_inversion_rect(&mut self, page: usize, rect: R)
        ensures
            final(self).inversions() == old(self).inversions().insert(
                page,
                if old(self).inversions().contains_key(page) {
                    old(self).inversions()[page].push(rect)
                } else {
                    seq![rect]
                },
            ),
            final(self).same_but_inversions(*old(self)),
    {
        let mut rects = match self.color_inversion_rectangles.remove(&page) {
            Some(v) => v,
            None => Vec::new(),
        };
        let ghost before = rects@;
        rects.push(rect);
        self.color_inversion_rectangles.insert(page, rects);
        proof {
            if !old(self).inversions().contains_key(page) {
                assert(before =~= Seq::<R>::empty());
                assert(rects@ =~= seq![rect]);
            }
        }
        assert(final(self).inversions() =~= old(self).inversions().insert(
            page,
            if old(self).inversions().contains_key(page) {
                old(self).inversions()[page].push(rect)
            } else {
                seq![rect]
            },
        ));
    }

    /// Takes colour inversion area number `idx` away from page `page`.
    pub fn remove_color_inversion_rect(&mut self, page: usize, idx: usize)
        requires
            old(self).inversions().contains_key(page),
            idx < old(self).inversions()[page].len(),
        ensures
            final(self).inversions() == old(self).inversions().insert(
                page,
                old(self).inversions()[page].remove(idx as int),
            ),
            final(self).same_but_inversions(*old(self)),
    {
        let mut rects = match self.color_inversion_rectangles.remove(&page) {
            Some(v) => v,
            None => Vec::new(),
        };
        rects.remove(idx);
        self.color_inversion_rectangles.insert(page, rects);
        assert(final(self).inversions() =~= old(self).inversions().insert(
            page,
            old(self).inversions()[page].remove(idx as int),
        ));
    }

    /// Takes the most recent colour inversion area away from page `page`, and
    /// says whether the page had an entry for such areas.
    pub fn remove_last_color_inversion_rect(&mut self, page: usize) -> (r: bool)
        ensures
            r == old(self).inversions().contains_key(page),
            r ==> final(self).inversions() == old(self).inversions().insert(
                page,
                if old(self).inversions()[page].len() > 0 {
                    old(self).inversions()[page].drop_last()
                } else {
                    old(self).inversions()[page]
                },
            ),
            !r ==> final(self).inversions() == old(self).inversions(),
            final(self).same_but_inversions(*old(self)),
    {
        match self.color_inversion_rectangles.remove(&page) {
            Some(mut rects) => {
                let ghost before = rects@;
                rects.pop();
                proof {
                    if before.len() > 0 {
                        assert(rects@ =~= before.drop_last());
                    }
                }
                self.color_inversion_rectangles.insert(page, rects);
                assert(final(self).inversions() =~= old(self).inversions().insert(
                    page,
                    if old(self).inversions()[page].len() > 0 {
                        old(self).inversions()[page].drop_last()
                    } else {
                        old(self).inversions()[page]
                    },
                ));
                true
            },
            None => {
                assert(final(self).inversions() =~= old(self).inversions());
                false
            },
        }
    }

    /// Fills in what is learnt of a book the first time it is opened: its page
    /// count, when none is known, and its description, when it has none. Says
    /// whether anything changed, in which case the book's information should be
    /// saved.
    pub fn note_first_sighting(
        &mut self,
        pdf_page_count: usize,
        title: Option<&str>,
        authors: Option<&str>,
        user_facing_path: &str,
    ) -> (changed: bool)
        ensures
            changed == (old(self).page_count == 0 || old(self).description@.len() == 0),
            final(self).page_count == if old(self).page_count == 0 {
                pdf_page_count
            } else {
                old(self).page_count
            },
            final(self).description@ == if old(self).description@.len() == 0 {
                first_description(
                    match title {
                        Some(t) => Some(t@),
                        None => None,
                    },
                    match authors {
                        Some(a) => Some(a@),
                        None => None,
                    },
                    user_facing_path@,
                )
            } else {
                old(self).description@
            },
            final(self).default_margins == old(self).default_margins,
            final(self).custom_margins == old(self).custom_margins,
            final(self).color_inversion_rectangles == old(self).color_inversion_rectangles,
            final(self).fingerprint == old(self).fingerprint,
            final(self).contents_page == old(self).contents_page,
            final(self).bookmarks == old(self).bookmarks,
            final(self).tags == old(self).tags,
            final(self).most_recent_page == old(self).most_recent_page,
    {
        let mut changed = false;
        if self.page_count == 0 {
            self.page_count = pdf_page_count;
            changed = true;
        }
        if self.description.as_str().is_empty() {
            changed = true;
            let mut d = String::new();
            if let Some(t) = title {
                d.append(t);
            }
            if !d.as_str().is_empty() {
                d.append(user_facing_path);
            }
            if let Some(a) = authors {
                if !a.is_empty() {
                    push_char(&mut d, ' ');
                    push_char(&mut d, 'b');
                    push_char(&mut d, 'y');
                    push_char(&mut d, ' ');
                    d.append(a);
                }
            }
            self.description = d;
        }
        changed
    }
}

/// A page given an area shows that area.
pub proof fn lemma_set_margins_then_read<R>(m: MarginsModel<R>, page: usize, rect: R)
    ensures
        margins_for(with_page_margins(m, page, rect), page) == rect,
{
}

/// Giving a page an area changes how no other page with margins of its own
/// looks, and, when even and odd pages have default margins of their own,
/// how no page of the other parity looks.
pub proof fn lemma_set_margins_keeps_other_pages<R>(
    m: MarginsModel<R>,
    page: usize,
    rect: R,
    other: usize,
)
    requires
        other != page,
        m.1.contains_key(other) || m.1.contains_key(page) || (m.0 is DistinguishEvenAndOddPages
            && other % 2 != page % 2),
    ensures
        margins_for(with_page_margins(m, page, rect), other) == margins_for(m, other),
{
}

/// A page with margins of its own can be given an area without changing how
/// any other page looks.
pub proof fn lemma_custom_margins_are_private<R>(m: MarginsModel<R>, page: usize, rect: R, other: usize)
    requires
        m.1.contains_key(page),
        other != page,
    ensures
        margins_for(with_page_margins(m, page, rect), other) == margins_for(m, other),
{
}

/// Switching between shared and even/odd default margins never changes how the
/// page on which it is done looks.
pub proof fn lemma_even_odd_toggle_keeps_page<R>(m: MarginsModel<R>, page: usize)
    ensures
        margins_for(toggled_even_odd(m, page), page) == margins_for(m, page),
{
}

/// From shared default margins, switching to even/odd margins and back, on any
/// page, restores the margins.
pub proof fn lemma_even_odd_toggle_round_trip<R>(m: MarginsModel<R>, page: usize, page2: usize)
    requires
        m.0 is AllPagesSame,
    ensures
        toggled_even_odd(toggled_even_odd(m, page), page2) == m,
{
}

/// Giving a page margins of its own changes how no page looks.
pub proof fn lemma_custom_toggle_keeps_look<R>(m: MarginsModel<R>, page: usize, other: usize)
    requires
        !m.1.contains_key(page),
    ensures
        margins_for(toggled_custom(m, page), other) == margins_for(m, other),
{
}

/// Giving a page margins of its own and taking them away again restores the
/// margins.
pub proof fn lemma_custom_toggle_round_trip<R>(m: MarginsModel<R>, page: usize)
    requires
        !m.1.contains_key(page),
    ensures
        toggled_custom(toggled_custom(m, page), page) == m,
{
    assert(m.1.insert(page, m.0.for_page(page)).remove(page) =~= m.1);
}

/// Flipping the same tag bit of a page twice leaves every page's tags as they were.
pub proof fn lemma_toggle_tag_twice(tags: Map<usize, u16>, page: usize, bit: u32, other: usize)
    requires
        bit < 16,
    ensures
        tag_bits_of(toggled_tag(toggled_tag(tags, page, bit), page, bit), other) == tag_bits_of(
            tags,
            other,
        ),
{
    let b = tag_bits_of(tags, page);
    assert((b ^ (1u16 << bit)) ^ (1u16 << bit) == b) by (bit_vector);
}

/// Flipping a tag bit changes that bit of that page and nothing else.
pub proof fn lemma_toggle_tag_flips_one_bit(
    tags: Map<usize, u16>,
    page: usize,
    bit: u32,
    other: usize,
    other_bit: u32,
)
    requires
        bit < 16,
        other_bit < 16,
    ensures
        ((tag_bits_of(toggled_tag(tags, page, bit), other) >> other_bit) & 1 == (tag_bits_of(
            tags,
            other,
        ) >> other_bit) & 1) <==> (other != page || other_bit != bit),
{
    let b = tag_bits_of(tags, page);
    if other == page {
        assert(((b ^ (1u16 << bit)) >> other_bit) & 1 == (b >> other_bit) & 1 <==> other_bit
            != bit) by (bit_vector)
            requires
                bit < 16,
                other_bit < 16,
        ;
    }
}

/// Tags set on a page are read back; cleared tags read as none.
pub proof fn lemma_set_and_clear_tags(tags: Map<usize, u16>, page: usize, bits: u16)
    ensures
        tag_bits_of(tags.insert(page, bits), page) == bits,
        tag_bits_of(tags.remove(page), page) == 0,
{
}

} // verus!
