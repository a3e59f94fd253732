//! A window on a book: which page it shows, which page the overview panel has
//! selected, the history of jumps, and what the keyboard does to them.
use vstd::prelude::*;

use crate::bookmarks::{entries_with, entries_without, lemma_entries_with, lemma_entries_without, names_of};
use crate::document::{reverse_of, Document};
use crate::document_info::{lemma_toggle_tag_twice, tag_bits_of, toggled_tag, DocumentInfo};
use crate::keyed::{first_index_of, lemma_first_index_of};
use crate::preferences::ScrollbarLayout;
use crate::text::{chars_of, views};

verus! {

/// Where the page overview panel stands beside the page view.
#[derive(Clone, Copy, Debug, PartialEq, Eq, Structural)]
pub enum PageOverviewPosition {
    Nowhere,
    North,
    South,
    East,
    West,
}

impl PageOverviewPosition {
    /// The position the panel moves to when the reader repositions it.
    pub open spec fn following(self) -> Self {
        match self {
            PageOverviewPosition::Nowhere => PageOverviewPosition::East,
            PageOverviewPosition::West => PageOverviewPosition::North,
            PageOverviewPosition::North => PageOverviewPosition::East,
            PageOverviewPosition::East => PageOverviewPosition::South,
            PageOverviewPosition::South => PageOverviewPosition::Nowhere,
        }
    }

    /// The position the panel moves to when the reader repositions it.
    pub fn next(&mut self) -> (r: Self)
        ensures
            r == old(self).following(),
            *final(self) == *old(self),
    {
        match *self {
            PageOverviewPosition::Nowhere => PageOverviewPosition::East,
            PageOverviewPosition::West => PageOverviewPosition::North,
            PageOverviewPosition::North => PageOverviewPosition::East,
            PageOverviewPosition::East => PageOverviewPosition::South,
            PageOverviewPosition::South => PageOverviewPosition::Nowhere,
        }
    }
}

/// Repositioning the overview panel cycles through east, south and nowhere;
/// from west or north it joins that cycle.
pub proof fn lemma_overview_position_cycle(p: PageOverviewPosition)
    ensures
        p.following().following().following() == p <==> (p == PageOverviewPosition::Nowhere || p
            == PageOverviewPosition::East || p == PageOverviewPosition::South),
        p.following().following().following().following().following() == p.following().following(),
{
}

/// Whether a text search is under way, and over which pages.
#[derive(Clone, Copy, Debug, PartialEq, Eq, Structural)]
pub enum SearchState {
    NotSearching,
    Searching(usize, usize),
}

/// A key press that the page view handles, ctrl not held. Keys that zoom or
/// search, and keys pressed with ctrl, are not among them.
pub enum NavKey {
    /// Enter: the page shown becomes the selected page.
    Enter,
    /// Tab without shift: the overview panel moves.
    Tab,
    /// Backspace: back to the page before the last jump.
    Backspace,
    /// Arrow left or up; with shift, ten pages.
    ArrowBack { shift: bool },
    /// Arrow right or down; with shift, ten pages.
    ArrowForward { shift: bool },
    /// Any other key, by the text it stands for (a typed character, or the
    /// name of the key), and whether alt was held.
    Text { text: String, alt: bool },
}

/// What the window must do after a key press.
pub struct KeyResponse {
    /// False when the key belongs to the widgets inside the window.
    pub handled: bool,
    /// The page the window now shows, when it moved to one.
    pub shown_page: Option<usize>,
    /// Whether the window must be painted again.
    pub repaint: bool,
}

/// The part of a window's state that page navigation reads and writes.
pub ghost struct NavModel {
    pub page_number: usize,
    pub overview_selected_page: usize,
    pub history: Seq<usize>,
    pub hover_link: Option<(usize, Seq<char>)>,
    pub scrollbar_position: PageOverviewPosition,
    pub tags: Map<usize, u16>,
    pub bookmarks: Seq<(Seq<char>, usize)>,
    pub most_recent_page: usize,
    pub doc_info_changed: bool,
    pub reverse: Map<usize, Seq<char>>,
    pub page_count: usize,
}

/// The page becomes the selected one, and the book's reading position.
pub open spec fn nav_select(m: NavModel, page: usize) -> NavModel {
    NavModel { overview_selected_page: page, most_recent_page: page, doc_info_changed: true, ..m }
}

/// The window shows the page, and no link is under the mouse.
pub open spec fn nav_set_visible(m: NavModel, page: usize) -> NavModel {
    NavModel { page_number: page, hover_link: None, ..m }
}

/// A page number held within the book (which has at least one page).
pub open spec fn clamp_page(m: NavModel, page: usize) -> usize {
    if page < m.page_count - 1 {
        page
    } else {
        (m.page_count - 1) as usize
    }
}

/// The window moves to a page, held within the book; when the window showed
/// the selected page, the new page becomes the selected one.
pub open spec fn nav_show(m: NavModel, page: usize) -> NavModel {
    let p = clamp_page(m, page);
    let m1 = if m.page_number == m.overview_selected_page {
        nav_select(m, p)
    } else {
        m
    };
    nav_set_visible(m1, p)
}

/// The page a tag or bookmark goes to: the page at the other end of the link
/// under the mouse, when there is one, else the page shown.
pub open spec fn link_or_page(m: NavModel) -> usize {
    match m.hover_link {
        Some(l) => l.0,
        None => m.page_number,
    }
}

/// `a - b`, or 0 when `b` is larger.
pub open spec fn saturating_sub(a: usize, b: usize) -> usize {
    if a >= b {
        (a - b) as usize
    } else {
        0
    }
}

/// How far an arrow key moves.
pub open spec fn arrow_step(shift: bool) -> usize {
    if shift {
        10
    } else {
        1
    }
}

/// An ASCII digit.
pub open spec fn is_ascii_digit(c: char) -> bool {
    '0' <= c <= '9'
}

/// An ASCII letter.
pub open spec fn is_ascii_letter(c: char) -> bool {
    ('a' <= c <= 'z') || ('A' <= c <= 'Z')
}

/// The response to a key that was handled without moving the window.
pub open spec fn stays() -> KeyResponse {
    KeyResponse { handled: true, shown_page: None, repaint: false }
}

/// The response to a key that moved the window to a page.
pub open spec fn moves_to(page: usize) -> KeyResponse {
    KeyResponse { handled: true, shown_page: Some(page), repaint: false }
}

/// What a key standing for the text `t` does.
pub open spec fn text_step(m: NavModel, t: Seq<char>, alt: bool) -> (NavModel, KeyResponse) {
    if t == seq![','] {
        let p = saturating_sub(m.page_number, 1);
        let m1 = NavModel { tags: m.tags.insert(p, tag_bits_of(m.tags, m.page_number)), ..m };
        (nav_show(m1, p), moves_to(clamp_page(m1, p)))
    } else if t == seq!['.'] {
        let p = (m.page_number + 1) as usize;
        let m1 = NavModel { tags: m.tags.insert(p, tag_bits_of(m.tags, m.page_number)), ..m };
        (nav_show(m1, p), moves_to(clamp_page(m1, p)))
    } else if alt {
        (m, KeyResponse { handled: false, shown_page: None, repaint: false })
    } else if t == seq![' '] {
        let target = link_or_page(m);
        if m.reverse.contains_key(target) {
            let e = entries_without(m.bookmarks, m.reverse[target]);
            (NavModel { doc_info_changed: true, bookmarks: e, reverse: reverse_of(e), ..m }, stays())
        } else {
            (m, stays())
        }
    } else if t.len() == 1 && (t[0] as u32) < 128 {
        let c = t[0];
        if is_ascii_digit(c) {
            let d = ((c as u32) - 48) as u32;
            let target = link_or_page(m);
            let tags = if d == 0 {
                m.tags.remove(target)
            } else {
                toggled_tag(m.tags, target, d)
            };
            (NavModel { doc_info_changed: true, tags, ..m }, stays())
        } else if is_ascii_letter(c) {
            let i = first_index_of(names_of(m.bookmarks), t);
            if i >= 0 {
                let pn = m.bookmarks[i].1;
                let m1 = nav_set_visible(NavModel { doc_info_changed: true, ..m }, pn);
                (
                    nav_select(NavModel { history: m1.history.push(m.overview_selected_page), ..m1 }, pn),
                    KeyResponse { handled: true, shown_page: Some(pn), repaint: true },
                )
            } else {
                let target = link_or_page(m);
                let e1 = if m.reverse.contains_key(target) {
                    entries_without(m.bookmarks, m.reverse[target])
                } else {
                    m.bookmarks
                };
                let e2 = entries_with(e1, t, target);
                (
                    NavModel { doc_info_changed: true, bookmarks: e2, reverse: reverse_of(e2), ..m },
                    KeyResponse { handled: true, shown_page: None, repaint: true },
                )
            }
        } else {
            (m, stays())
        }
    } else {
        (m, stays())
    }
}

/// What a key press does to a window, and what the window must do after it.
pub open spec fn key_step(m: NavModel, key: NavKey) -> (NavModel, KeyResponse) {
    match key {
        NavKey::Tab => (
            NavModel { scrollbar_position: m.scrollbar_position.following(), ..m },
            stays(),
        ),
        NavKey::Enter => if m.page_number != m.overview_selected_page {
            (
                nav_select(
                    NavModel { history: m.history.push(m.overview_selected_page), ..m },
                    m.page_number,
                ),
                stays(),
            )
        } else {
            (m, stays())
        },
        NavKey::ArrowBack { shift } => {
            let p = saturating_sub(m.page_number, arrow_step(shift));
            (nav_show(m, p), moves_to(clamp_page(m, p)))
        },
        NavKey::ArrowForward { shift } => {
            let p = (m.page_number + arrow_step(shift)) as usize;
            (nav_show(m, p), moves_to(clamp_page(m, p)))
        },
        NavKey::Backspace => if m.history.len() > 0 {
            let p = m.history.last();
            (
                nav_select(nav_set_visible(NavModel { history: m.history.drop_last(), ..m }, p), p),
                moves_to(p),
            )
        } else {
            (m, stays())
        },
        NavKey::Text { text, alt } => text_step(m, text@, alt),
    }
}

/// Whether a key needs the book to have pages, and how far forward it may
/// move: keys that move the window need a page count above zero, and must not
/// move past the largest page number.
pub open spec fn key_allowed(m: NavModel, key: NavKey) -> bool {
    match key {
        NavKey::ArrowBack { .. } => m.page_count > 0,
        NavKey::ArrowForward { shift } => m.page_count > 0 && m.page_number + arrow_step(shift)
            <= usize::MAX,
        NavKey::Text { text, .. } => (text@ == seq![','] ==> m.page_count > 0) && (text@
            == seq!['.'] ==> m.page_count > 0 && m.page_number + 1 <= usize::MAX),
        _ => true,
    }
}

/// A window on a book: what it shows and what the reader did in it. Sizes,
/// zoom, crop animation and scrolling within a page belong to the widgets.
pub struct PdfViewState<R> {
    pub docu_idx: usize,
    pub document: Document,
    pub document_info: DocumentInfo<R>,
    pub scrollbar_position: PageOverviewPosition,
    pub page_number: usize,
    pub history: Vec<usize>,
    pub ignore_next_mouse_move: bool,
    pub overview_selected_page: usize,
    pub mouse_over_hyperlink: Option<(usize, String)>,
    pub scrollbar_layout: ScrollbarLayout,
}

impl<R: Copy> PdfViewState<R> {
    /// The navigation part of the state.
    pub open spec fn nav(self) -> NavModel {
        NavModel {
            page_number: self.page_number,
            overview_selected_page: self.overview_selected_page,
            history: self.history@,
            hover_link: match self.mouse_over_hyperlink {
                Some(l) => Some((l.0, l.1@)),
                None => None,
            },
            scrollbar_position: self.scrollbar_position,
            tags: self.document_info.tags@,
            bookmarks: self.document_info.bookmarks.entries_view(),
            most_recent_page: self.document_info.most_recent_page,
            doc_info_changed: self.document.doc_info_changed,
            reverse: self.document.reverse(),
            page_count: self.document_info.page_count,
        }
    }

    /// `self` and `other` agree on all that navigation leaves alone.
    pub open spec fn same_fixed_parts(self, other: Self) -> bool {
        &&& self.docu_idx == other.docu_idx
        &&& self.document.fingerprint == other.document.fingerprint
        &&& self.document.filepath == other.document.filepath
        &&& self.document.user_facing_path == other.document.user_facing_path
        &&& self.document_info.default_margins == other.document_info.default_margins
        &&& self.document_info.custom_margins == other.document_info.custom_margins
        &&& self.document_info.color_inversion_rectangles
            == other.document_info.color_inversion_rectangles
        &&& self.document_info.fingerprint == other.document_info.fingerprint
        &&& self.document_info.contents_page == other.document_info.contents_page
        &&& self.document_info.page_count == other.document_info.page_count
        &&& self.document_info.description == other.document_info.description
        &&& self.scrollbar_layout == other.scrollbar_layout
        &&& self.ignore_next_mouse_move == other.ignore_next_mouse_move
    }

    /// The state is well formed: the book's bookmarks are.
    pub open spec fn wf(self) -> bool {
        self.document_info.wf()
    }

    /// A new window on book number `docu_idx`, showing and selecting the page the
    /// reader was last on, with the overview panel east of the page.
    pub fn new(
        docu_idx: usize,
        document: Document,
        document_info: DocumentInfo<R>,
        scrollbar_layout: ScrollbarLayout,
    ) -> (r: Self)
        ensures
            r.docu_idx == docu_idx,
            r.document == document,
            r.document_info == document_info,
            r.scrollbar_layout == scrollbar_layout,
            r.scrollbar_position == PageOverviewPosition::East,
            r.page_number == document_info.most_recent_page,
            r.overview_selected_page == document_info.most_recent_page,
            r.history@.len() == 0,
            !r.ignore_next_mouse_move,
            r.mouse_over_hyperlink is None,
    {
        let most_recent_page = document_info.most_recent_page;
        PdfViewState {
            docu_idx,
            document,
            document_info,
            scrollbar_position: PageOverviewPosition::East,
            page_number: most_recent_page,
            history: Vec::new(),
            ignore_next_mouse_move: false,
            overview_selected_page: most_recent_page,
            mouse_over_hyperlink: None,
            scrollbar_layout,
        }
    }

    /// A new window state carrying on from `old`: the same book, page, history
    /// and overview, with no link under the mouse.
    pub fn from_preexisting(old: &Self) -> (r: Self)
        ensures
            r.docu_idx == old.docu_idx,
            r.document.same_content(old.document),
            r.document_info.same_content(old.document_info),
            r.scrollbar_position == old.scrollbar_position,
            r.page_number == old.page_number,
            r.history@ == old.history@,
            r.ignore_next_mouse_move == old.ignore_next_mouse_move,
            r.overview_selected_page == old.overview_selected_page,
            r.mouse_over_hyperlink is None,
            r.scrollbar_layout == old.scrollbar_layout,
            old.wf() ==> r.wf(),
    {
        PdfViewState {
            docu_idx: old.docu_idx,
            document: old.document.duplicate(),
            document_info: old.document_info.duplicate(),
            scrollbar_position: old.scrollbar_position,
            page_number: old.page_number,
            history: old.history.clone(),
            ignore_next_mouse_move: old.ignore_next_mouse_move,
            overview_selected_page: old.overview_selected_page,
            mouse_over_hyperlink: None,
            scrollbar_layout: old.scrollbar_layout,
        }
    }

    /// Selects page `page`: the overview panel marks it, and it becomes the
    /// book's reading position.
    pub fn select_page(&mut self, page: usize)
        ensures
            final(self).nav() == nav_select(old(self).nav(), page),
            final(self).same_fixed_parts(*old(self)),
            final(self).document_info.bookmarks == old(self).document_info.bookmarks,
    {
        self.overview_selected_page = page;
        self.document_info.most_recent_page = page;
        self.document.doc_info_changed = true;
    }

    /// The window shows page `page`, and no link is under the mouse.
    pub fn set_visible_page(&mut self, page: usize)
        ensures
            final(self).nav() == nav_set_visible(old(self).nav(), page),
            final(self).same_fixed_parts(*old(self)),
            final(self).document_info == old(self).document_info,
    {
        self.page_number = page;
        self.mouse_over_hyperlink = None;
    }

    /// The page a tag or bookmark goes to: the page at the other end of the
    /// link under the mouse, when there is one, else the page shown.
    pub fn page_number_or_link_target(&self) -> (r: usize)
        ensures
            r == link_or_page(self.nav()),
    {
        if let Some((hyperlink_to_page_number, _)) = &self.mouse_over_hyperlink {
            return *hyperlink_to_page_number;
        }
        self.page_number
    }

    /// Moves the window to page `page`, held within the book; returns the page
    /// shown.
    pub fn show_page(&mut self, page: usize) -> (r: usize)
        requires
            old(self).document_info.page_count > 0,
        ensures
            final(self).nav() == nav_show(old(self).nav(), page),
            r == clamp_page(old(self).nav(), page),
            final(self).same_fixed_parts(*old(self)),
            final(self).document_info.bookmarks == old(self).document_info.bookmarks,
    {
        let last = self.document_info.page_count - 1;
        let page = if page < last {
            page
        } else {
            last
        };
        if self.page_number == self.overview_selected_page {
            self.select_page(page);
        }
        self.set_visible_page(page);
        page
    }

    /// Goes back to the page before the last jump, when there was one; returns
    /// the page shown.
    pub fn history_back(&mut self) -> (r: Option<usize>)
        ensures
            old(self).nav().history.len() > 0 ==> {
                let p = old(self).nav().history.last();
                &&& final(self).nav() == nav_select(
                    nav_set_visible(
                        NavModel { history: old(self).nav().history.drop_last(), ..old(self).nav() },
                        p,
                    ),
                    p,
                )
                &&& r == Some(p)
            },
            old(self).nav().history.len() == 0 ==> final(self).nav() == old(self).nav() && r
                is None,
            final(self).same_fixed_parts(*old(self)),
            final(self).document_info.bookmarks == old(self).document_info.bookmarks,
    {
        match self.history.pop() {
            Some(page) => {
                self.set_visible_page(page);
                self.select_page(page);
                Some(page)
            },
            None => None,
        }
    }

    /// The overview panel was clicked: its selected page goes on the history and
    /// the page shown becomes the selected one.
    pub fn select_shown_page(&mut self)
        ensures
            final(self).nav() == nav_select(
                NavModel {
                    history: old(self).nav().history.push(old(self).nav().overview_selected_page),
                    ..old(self).nav()
                },
                old(self).nav().page_number,
            ),
            final(self).same_fixed_parts(*old(self)),
            final(self).document_info.bookmarks == old(self).document_info.bookmarks,
    {
        self.history.push(self.overview_selected_page);
        let p = self.page_number;
        self.select_page(p);
    }

    /// A link to page `page` was followed from page `from_page`: `from_page`
    /// goes on the history, and `page` is shown and selected.
    pub fn follow_link(&mut self, from_page: usize, page: usize)
        ensures
            final(self).nav() == nav_select(
                nav_set_visible(
                    NavModel { history: old(self).nav().history.push(from_page), ..old(self).nav() },
                    page,
                ),
                page,
            ),
            final(self).same_fixed_parts(*old(self)),
            final(self).document_info.bookmarks == old(self).document_info.bookmarks,
    {
        self.history.push(from_page);
        self.set_visible_page(page);
        self.select_page(page);
    }

    fn copy_tags_and_show(&mut self, page: usize) -> (r: KeyResponse)
        requires
            old(self).document_info.page_count > 0,
        ensures
            ({
                let m = old(self).nav();
                let m1 = NavModel { tags: m.tags.insert(page, tag_bits_of(m.tags, m.page_number)), ..m };
                &&& final(self).nav() == nav_show(m1, page)
                &&& r == moves_to(clamp_page(m1, page))
            }),
            final(self).same_fixed_parts(*old(self)),
            final(self).document_info.bookmarks == old(self).document_info.bookmarks,
    {
        let bits = self.document_info.tag_bits(self.page_number);
        self.document_info.set_tags(page, bits);
        let shown = self.show_page(page);
        KeyResponse { handled: true, shown_page: Some(shown), repaint: false }
    }

    /// Takes away the bookmark named `name`, and updates the names shown on pages.
    fn forget_bookmark(&mut self, name: &str)
        requires
            old(self).wf(),
        ensures
            final(self).wf(),
            final(self).nav() == (NavModel {
                bookmarks: entries_without(old(self).nav().bookmarks, name@),
                reverse: reverse_of(entries_without(old(self).nav().bookmarks, name@)),
                ..old(self).nav()
            }),
            final(self).same_fixed_parts(*old(self)),
    {
        self.document_info.remove_bookmark(name);
        self.document.generate_reverse_bookmarks(&self.document_info);
    }

    fn handle_text(&mut self, t: &str, alt: bool) -> (r: KeyResponse)
        requires
            old(self).wf(),
            t@ == seq![','] ==> old(self).document_info.page_count > 0,
            t@ == seq!['.'] ==> old(self).document_info.page_count > 0 && old(self).page_number
                + 1 <= usize::MAX,
        ensures
            final(self).wf(),
            final(self).nav() == text_step(old(self).nav(), t@, alt).0,
            r == text_step(old(self).nav(), t@, alt).1,
            final(self).same_fixed_parts(*old(self)),
    {
        let cs = chars_of(t);
        let single = cs.len() == 1;
        if single && cs[0] == ',' {
            assert(t@ =~= seq![',']);
            let p = if self.page_number >= 1 {
                self.page_number - 1
            } else {
                0
            };
            return self.copy_tags_and_show(p);
        }
        assert(t@ != seq![',']) by {
            if t@ == seq![','] {
                assert(t@[0] == ',');
            }
        }
        if single && cs[0] == '.' {
            assert(t@ =~= seq!['.']);
            let p = self.page_number + 1;
            return self.copy_tags_and_show(p);
        }
        assert(t@ != seq!['.']) by {
            if t@ == seq!['.'] {
                assert(t@[0] == '.');
            }
        }
        let handled = KeyResponse { handled: true, shown_page: None, repaint: false };
        if alt {
            return KeyResponse { handled: false, shown_page: None, repaint: false };
        }
        if single && cs[0] == ' ' {
            assert(t@ =~= seq![' ']);
            let target = self.page_number_or_link_target();
            match self.document.check_for_bookmark(target) {
                Some(s) => {
                    let name = s.clone();
                    self.document.doc_info_changed = true;
                    self.forget_bookmark(name.as_str());
                },
                None => {},
            }
            return handled;
        }
        assert(t@ != seq![' ']) by {
            if t@ == seq![' '] {
                assert(t@[0] == ' ');
            }
        }
        if single && (cs[0] as u32) < 128 {
            let c = cs[0];
            if '0' <= c && c <= '9' {
                let d = (c as u32) - 48;
                self.document.doc_info_changed = true;
                let page = self.page_number_or_link_target();
                if d == 0 {
                    self.document_info.clear_tags(page);
                } else {
                    self.document_info.toggle_tag_bit(page, d);
                }
                return handled;
            } else if ('a' <= c && c <= 'z') || ('A' <= c && c <= 'Z') {
                self.document.doc_info_changed = true;
                proof {
                    assert(names_of(self.document_info.bookmarks.entries_view())
                        =~= self.document_info.bookmarks.names());
                    lemma_first_index_of(self.document_info.bookmarks.names(), t@);
                }
                match self.document_info.bookmarks.get(t) {
                    Some(pn) => {
                        self.set_visible_page(pn);
                        self.history.push(self.overview_selected_page);
                        self.select_page(pn);
                        return KeyResponse { handled: true, shown_page: Some(pn), repaint: true };
                    },
                    None => {
                        let page = self.page_number_or_link_target();
                        match self.document.check_for_bookmark(page) {
                            Some(s) => {
                                let name = s.clone();
                                self.document_info.remove_bookmark(name.as_str());
                            },
                            None => {},
                        }
                        self.document_info.add_bookmark(t, page);
                        self.document.generate_reverse_bookmarks(&self.document_info);
                        return KeyResponse { handled: true, shown_page: None, repaint: true };
                    },
                }
            }
        }
        handled
    }

    /// Handles a key press: moves between pages, selects pages, goes back in
    /// the history, copies, sets and clears page tags, and sets, follows and
    /// erases bookmarks, as `key_step` says.
    pub fn handle_key(&mut self, key: &NavKey) -> (r: KeyResponse)
        requires
            old(self).wf(),
            key_allowed(old(self).nav(), *key),
        ensures
            final(self).wf(),
            final(self).nav() == key_step(old(self).nav(), *key).0,
            r == key_step(old(self).nav(), *key).1,
            final(self).same_fixed_parts(*old(self)),
    {
        match key {
            NavKey::Tab => {
                self.scrollbar_position = self.scrollbar_position.next();
                KeyResponse { handled: true, shown_page: None, repaint: false }
            },
            NavKey::Enter => {
                if self.page_number != self.overview_selected_page {
                    self.select_shown_page();
                }
                KeyResponse { handled: true, shown_page: None, repaint: false }
            },
            NavKey::ArrowBack { shift } => {
                let step: usize = if *shift {
                    10
                } else {
                    1
                };
                let p = if self.page_number >= step {
                    self.page_number - step
                } else {
                    0
                };
                let shown = self.show_page(p);
                KeyResponse { handled: true, shown_page: Some(shown), repaint: false }
            },
            NavKey::ArrowForward { shift } => {
                let step: usize = if *shift {
                    10
                } else {
                    1
                };
                let p = self.page_number + step;
                let shown = self.show_page(p);
                KeyResponse { handled: true, shown_page: Some(shown), repaint: false }
            },
            NavKey::Backspace => {
                match self.history_back() {
                    Some(p) => KeyResponse { handled: true, shown_page: Some(p), repaint: false },
                    None => KeyResponse { handled: true, shown_page: None, repaint: false },
                }
            },
            NavKey::Text { text, alt } => self.handle_text(text.as_str(), *alt),
        }
    }
}

/// Bookmark names occur once, and the names shown on pages are those the
/// bookmarks give.
pub open spec fn nav_consistent(m: NavModel) -> bool {
    &&& names_of(m.bookmarks).no_duplicates()
    &&& m.reverse == reverse_of(m.bookmarks)
}

/// Every key keeps bookmark names unique and the names shown on pages in step
/// with the bookmarks.
pub proof fn lemma_keys_keep_bookmarks_consistent(m: NavModel, key: NavKey)
    requires
        nav_consistent(m),
    ensures
        nav_consistent(key_step(m, key).0),
{
    if let NavKey::Text { text, alt } = key {
        let t = text@;
        if m.reverse.contains_key(link_or_page(m)) {
            lemma_entries_without(m.bookmarks, m.reverse[link_or_page(m)]);
            lemma_entries_with(
                entries_without(m.bookmarks, m.reverse[link_or_page(m)]),
                t,
                link_or_page(m),
            );
        } else {
            lemma_entries_with(m.bookmarks, t, link_or_page(m));
        }
    }
}

/// A letter typed on a page that no bookmark uses names that page (or the
/// page a link under the mouse leads to); typing the letter again, whatever
/// the window shows by then, jumps back there.
pub proof fn lemma_bookmark_then_jump(m: NavModel, text: String, later: NavModel)
    requires
        nav_consistent(m),
        text@.len() == 1,
        is_ascii_letter(text@[0]),
        !names_of(m.bookmarks).contains(text@),
        later.bookmarks == key_step(m, NavKey::Text { text, alt: false }).0.bookmarks,
    ensures
        key_step(later, NavKey::Text { text, alt: false }).0.page_number == link_or_page(m),
        key_step(later, NavKey::Text { text, alt: false }).1.shown_page == Some(link_or_page(m)),
{
    let t = text@;
    assert(t != seq![',']) by {
        if t == seq![','] {
            assert(t[0] == ',');
        }
    }
    assert(t != seq!['.']) by {
        if t == seq!['.'] {
            assert(t[0] == '.');
        }
    }
    assert(t != seq![' ']) by {
        if t == seq![' '] {
            assert(t[0] == ' ');
        }
    }
    crate::keyed::lemma_first_index_of(names_of(m.bookmarks), t);
    let target = link_or_page(m);
    let e1 = if m.reverse.contains_key(target) {
        entries_without(m.bookmarks, m.reverse[target])
    } else {
        m.bookmarks
    };
    if m.reverse.contains_key(target) {
        lemma_entries_without(m.bookmarks, m.reverse[target]);
    }
    lemma_entries_with(e1, t, target);
}

/// Backspace after jumping to a bookmark returns to the page that was selected
/// before the jump, with the history as it was.
pub proof fn lemma_jump_then_back(m: NavModel, text: String)
    requires
        text@.len() == 1,
        is_ascii_letter(text@[0]),
        names_of(m.bookmarks).contains(text@),
    ensures
        ({
            let jumped = key_step(m, NavKey::Text { text, alt: false }).0;
            let back = key_step(jumped, NavKey::Backspace).0;
            &&& back.page_number == m.overview_selected_page
            &&& back.overview_selected_page == m.overview_selected_page
            &&& back.history == m.history
        }),
{
    let t = text@;
    assert(t != seq![',']) by {
        if t == seq![','] {
            assert(t[0] == ',');
        }
    }
    assert(t != seq!['.']) by {
        if t == seq!['.'] {
            assert(t[0] == '.');
        }
    }
    assert(t != seq![' ']) by {
        if t == seq![' '] {
            assert(t[0] == ' ');
        }
    }
    crate::keyed::lemma_first_index_of(names_of(m.bookmarks), t);
    let jumped = key_step(m, NavKey::Text { text, alt: false }).0;
    assert(jumped.history.drop_last() =~= m.history);
}

/// Enter on a page other than the selected one, then Backspace, returns to
/// the page that was selected, with the history as it was.
pub proof fn lemma_enter_then_back(m: NavModel)
    requires
        m.page_number != m.overview_selected_page,
    ensures
        ({
            let entered = key_step(m, NavKey::Enter).0;
            let back = key_step(entered, NavKey::Backspace).0;
            &&& back.page_number == m.overview_selected_page
            &&& back.overview_selected_page == m.overview_selected_page
            &&& back.history == m.history
        }),
{
    let entered = key_step(m, NavKey::Enter).0;
    assert(entered.history.drop_last() =~= m.history);
}

/// Space on a page with a bookmark erases that bookmark.
pub proof fn lemma_space_erases_bookmark(m: NavModel, text: String)
    requires
        nav_consistent(m),
        text@ == seq![' '],
        m.reverse.contains_key(link_or_page(m)),
    ensures
        !names_of(key_step(m, NavKey::Text { text, alt: false }).0.bookmarks).contains(
            m.reverse[link_or_page(m)],
        ),
{
    assert(text@ != seq![',']);
    assert(text@ != seq!['.']);
    lemma_entries_without(m.bookmarks, m.reverse[link_or_page(m)]);
}

/// A digit from 1 to 9 typed twice leaves the tags of every page as they were;
/// the digit 0 clears the tags of the page.
pub proof fn lemma_digit_tags(m: NavModel, text: String, page: usize)
    requires
        text@.len() == 1,
        is_ascii_digit(text@[0]),
    ensures
        text@[0] != '0' ==> tag_bits_of(
            key_step(
                key_step(m, NavKey::Text { text, alt: false }).0,
                NavKey::Text { text, alt: false },
            ).0.tags,
            page,
        ) == tag_bits_of(m.tags, page),
        text@[0] == '0' ==> tag_bits_of(
            key_step(m, NavKey::Text { text, alt: false }).0.tags,
            link_or_page(m),
        ) == 0,
{
    let t = text@;
    assert(t != seq![',']) by {
        if t == seq![','] {
            assert(t[0] == ',');
        }
    }
    assert(t != seq!['.']) by {
        if t == seq!['.'] {
            assert(t[0] == '.');
        }
    }
    assert(t != seq![' ']) by {
        if t == seq![' '] {
            assert(t[0] == ' ');
        }
    }
    let d = ((t[0] as u32) - 48) as u32;
    if t[0] != '0' {
        lemma_toggle_tag_twice(m.tags, link_or_page(m), d, page);
    }
}

/// A tag typed while a link is under the mouse goes to the page at the other
/// end of the link.
pub proof fn lemma_tag_goes_to_link_target(m: NavModel, text: String, target: usize, link: Seq<char>)
    requires
        text@.len() == 1,
        is_ascii_digit(text@[0]),
        text@[0] != '0',
        m.hover_link == Some((target, link)),
    ensures
        key_step(m, NavKey::Text { text, alt: false }).0.tags == toggled_tag(
            m.tags,
            target,
            ((text@[0] as u32) - 48) as u32,
        ),
{
    let t = text@;
    assert(t != seq![',']) by {
        if t == seq![','] {
            assert(t[0] == ',');
        }
    }
    assert(t != seq!['.']) by {
        if t == seq!['.'] {
            assert(t[0] == '.');
        }
    }
    assert(t != seq![' ']) by {
        if t == seq![' '] {
            assert(t[0] == ' ');
        }
    }
}

/// "." moves to the next page and gives it a copy of the current page's tags;
/// "," does the same with the previous page. Every other page, the current one
/// among them, keeps its tags.
pub proof fn lemma_comma_period_copy_tags(m: NavModel, text: String)
    requires
        m.page_count > 0,
        m.page_number + 1 <= usize::MAX,
        text@ == seq!['.'] || text@ == seq![','],
    ensures
        ({
            let r = key_step(m, NavKey::Text { text, alt: false }).0;
            let p = if text@ == seq!['.'] {
                (m.page_number + 1) as usize
            } else {
                saturating_sub(m.page_number, 1)
            };
            &&& tag_bits_of(r.tags, p) == tag_bits_of(m.tags, m.page_number)
            &&& p < m.page_count ==> r.page_number == p
            &&& forall|q: usize| q != p ==> tag_bits_of(r.tags, q) == tag_bits_of(m.tags, q)
        }),
{
}

/// A digit key changes the tags of the page it goes to (the page at the end
/// of a link under the mouse, else the page shown) and of no other page.
pub proof fn lemma_digit_changes_only_its_page(m: NavModel, text: String, q: usize)
    requires
        text@.len() == 1,
        is_ascii_digit(text@[0]),
        q != link_or_page(m),
    ensures
        tag_bits_of(key_step(m, NavKey::Text { text, alt: false }).0.tags, q) == tag_bits_of(
            m.tags,
            q,
        ),
{
    let t = text@;
    assert(t != seq![',']) by {
        if t == seq![','] {
            assert(t[0] == ',');
        }
    }
    assert(t != seq!['.']) by {
        if t == seq!['.'] {
            assert(t[0] == '.');
        }
    }
    assert(t != seq![' ']) by {
        if t == seq![' '] {
            assert(t[0] == ' ');
        }
    }
}

/// An arrow key moves the selection and the reading position along with the
/// window only when the window showed the selected page; when the window was
/// showing another page (as while browsing the overview), only the window
/// moves.
pub proof fn lemma_arrows_move_selection_only_from_it(m: NavModel, shift: bool, forward: bool)
    requires
        m.page_count > 0,
        m.page_number + 10 <= usize::MAX,
    ensures
        ({
            let key = if forward {
                NavKey::ArrowForward { shift }
            } else {
                NavKey::ArrowBack { shift }
            };
            let r = key_step(m, key).0;
            if m.page_number == m.overview_selected_page {
                &&& r.overview_selected_page == r.page_number
                &&& r.most_recent_page == r.page_number
            } else {
                &&& r.overview_selected_page == m.overview_selected_page
                &&& r.most_recent_page == m.most_recent_page
                &&& r.doc_info_changed == m.doc_info_changed
            }
        }),
{
}

/// The arrow keys keep the window within the book.
pub proof fn lemma_arrows_stay_in_book(m: NavModel, shift: bool)
    requires
        m.page_count > 0,
        m.page_number + 10 <= usize::MAX,
    ensures
        key_step(m, NavKey::ArrowBack { shift }).0.page_number < m.page_count,
        key_step(m, NavKey::ArrowForward { shift }).0.page_number < m.page_count,
{
}

} // verus!
