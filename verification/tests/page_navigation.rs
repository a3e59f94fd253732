use pdf_studier::document::Document;
use pdf_studier::document_info::DocumentInfo;
use pdf_studier::preferences::ScrollbarLayout;
use pdf_studier::view::{KeyResponse, NavKey, PageOverviewPosition, PdfViewState};

type Area = (i32, i32, i32, i32);

fn view_at(page: usize, pages: usize) -> PdfViewState<Area> {
    let mut info: DocumentInfo<Area> = DocumentInfo::fresh("book", (0, 0, 1, 1));
    info.page_count = pages;
    info.most_recent_page = page;
    let doc = Document::from_info(&info, "/b.pdf".to_string(), "/b.pdf".to_string());
    PdfViewState::new(0, doc, info, ScrollbarLayout::Grid)
}

fn text(t: &str) -> NavKey {
    NavKey::Text { text: t.to_string(), alt: false }
}

fn shown(r: &KeyResponse) -> Option<usize> {
    assert!(r.handled);
    r.shown_page
}

#[test]
fn new_view_opens_at_last_read_page() {
    let v = view_at(7, 20);
    assert_eq!(v.page_number, 7);
    assert_eq!(v.overview_selected_page, 7);
    assert_eq!(v.scrollbar_position, PageOverviewPosition::East);
    assert!(v.history.is_empty());
    assert!(v.mouse_over_hyperlink.is_none());
}

#[test]
fn arrows_move_and_stay_in_book() {
    let mut v = view_at(0, 20);
    let r = v.handle_key(&NavKey::ArrowForward { shift: false });
    assert_eq!(shown(&r), Some(1));
    assert_eq!(v.page_number, 1);
    // The view showed the selected page, so the selection follows.
    assert_eq!(v.overview_selected_page, 1);
    assert_eq!(v.document_info.most_recent_page, 1);
    let r = v.handle_key(&NavKey::ArrowForward { shift: true });
    assert_eq!(shown(&r), Some(11));
    let r = v.handle_key(&NavKey::ArrowForward { shift: true });
    assert_eq!(shown(&r), Some(19));
    let r = v.handle_key(&NavKey::ArrowForward { shift: false });
    assert_eq!(shown(&r), Some(19));
    let r = v.handle_key(&NavKey::ArrowBack { shift: true });
    assert_eq!(shown(&r), Some(9));
    let r = v.handle_key(&NavKey::ArrowBack { shift: true });
    assert_eq!(shown(&r), Some(0));
    let r = v.handle_key(&NavKey::ArrowBack { shift: false });
    assert_eq!(shown(&r), Some(0));
}

#[test]
fn tab_cycles_overview_position() {
    let mut v = view_at(0, 5);
    v.handle_key(&NavKey::Tab);
    assert_eq!(v.scrollbar_position, PageOverviewPosition::South);
    v.handle_key(&NavKey::Tab);
    assert_eq!(v.scrollbar_position, PageOverviewPosition::Nowhere);
    v.handle_key(&NavKey::Tab);
    assert_eq!(v.scrollbar_position, PageOverviewPosition::East);
    let mut w = PageOverviewPosition::West;
    assert_eq!(w.next(), PageOverviewPosition::North);
    let mut n = PageOverviewPosition::North;
    assert_eq!(n.next(), PageOverviewPosition::East);
}

#[test]
fn bookmark_then_jump_then_back() {
    let mut v = view_at(4, 30);
    // A letter names the page shown.
    let r = v.handle_key(&text("m"));
    assert!(r.handled && r.repaint && r.shown_page.is_none());
    assert_eq!(v.document_info.lookup_bookmark("m".to_string()), Some(4));
    assert_eq!(v.document.check_for_bookmark(4).map(|s| s.as_str()), Some("m"));
    assert!(v.document.doc_info_changed);
    // Move away, then jump back by the bookmark.
    v.handle_key(&NavKey::ArrowForward { shift: true });
    assert_eq!(v.page_number, 14);
    let r = v.handle_key(&text("m"));
    assert_eq!(r.shown_page, Some(4));
    assert!(r.repaint);
    assert_eq!(v.page_number, 4);
    assert_eq!(v.overview_selected_page, 4);
    assert_eq!(v.history, vec![14]);
    // Backspace goes back to where the jump started.
    let r = v.handle_key(&NavKey::Backspace);
    assert_eq!(shown(&r), Some(14));
    assert_eq!(v.page_number, 14);
    assert!(v.history.is_empty());
    // With no history, backspace does nothing.
    let r = v.handle_key(&NavKey::Backspace);
    assert_eq!(shown(&r), None);
    assert_eq!(v.page_number, 14);
}

#[test]
fn space_erases_bookmark_of_page() {
    let mut v = view_at(2, 10);
    v.handle_key(&text("q"));
    assert_eq!(v.document_info.lookup_bookmark("q".to_string()), Some(2));
    let r = v.handle_key(&text(" "));
    assert!(r.handled && r.shown_page.is_none());
    assert_eq!(v.document_info.lookup_bookmark("q".to_string()), None);
    assert_eq!(v.document.check_for_bookmark(2), None);
}

#[test]
fn renaming_a_page_drops_its_old_bookmark() {
    let mut v = view_at(2, 10);
    v.handle_key(&text("a"));
    v.handle_key(&text("b"));
    assert_eq!(v.document_info.lookup_bookmark("a".to_string()), None);
    assert_eq!(v.document_info.lookup_bookmark("b".to_string()), Some(2));
    assert_eq!(v.document.check_for_bookmark(2).map(|s| s.as_str()), Some("b"));
}

#[test]
fn digits_toggle_tags_and_zero_clears() {
    let mut v = view_at(3, 10);
    v.handle_key(&text("1"));
    v.handle_key(&text("4"));
    assert_eq!(v.document_info.tag_bits(3), 0b10010);
    v.handle_key(&text("1"));
    assert_eq!(v.document_info.tag_bits(3), 0b10000);
    v.handle_key(&text("0"));
    assert_eq!(v.document_info.tag_bits(3), 0);
}

#[test]
fn tags_go_to_link_target_under_mouse() {
    let mut v = view_at(3, 10);
    v.mouse_over_hyperlink = Some((7, "chapter 2".to_string()));
    v.handle_key(&text("2"));
    assert_eq!(v.document_info.tag_bits(7), 0b100);
    assert_eq!(v.document_info.tag_bits(3), 0);
    // A link to the first page sends the tag there too.
    v.mouse_over_hyperlink = Some((0, "cover".to_string()));
    v.handle_key(&text("2"));
    assert_eq!(v.document_info.tag_bits(0), 0b100);
    assert_eq!(v.document_info.tag_bits(3), 0);
    // A bookmark typed over a link names the link's target.
    v.handle_key(&text("c"));
    assert_eq!(v.document_info.lookup_bookmark("c".to_string()), Some(0));
    assert_eq!(v.page_number_or_link_target(), 0);
}

#[test]
fn comma_and_period_copy_tags_to_neighbours() {
    let mut v = view_at(5, 10);
    v.handle_key(&text("3"));
    let r = v.handle_key(&text("."));
    assert_eq!(shown(&r), Some(6));
    assert_eq!(v.document_info.tag_bits(6), 0b1000);
    let r = v.handle_key(&text(","));
    assert_eq!(shown(&r), Some(5));
    assert_eq!(v.document_info.tag_bits(5), 0b1000);
}

#[test]
fn alt_letters_are_left_to_the_menus() {
    let mut v = view_at(5, 10);
    let r = v.handle_key(&NavKey::Text { text: "a".to_string(), alt: true });
    assert!(!r.handled);
    assert_eq!(v.document_info.lookup_bookmark("a".to_string()), None);
}

#[test]
fn enter_selects_shown_page() {
    let mut v = view_at(5, 10);
    v.set_visible_page(8);
    assert_eq!(v.overview_selected_page, 5);
    v.handle_key(&NavKey::Enter);
    assert_eq!(v.overview_selected_page, 8);
    assert_eq!(v.history, vec![5]);
    v.handle_key(&NavKey::Backspace);
    assert_eq!(v.page_number, 5);
    assert_eq!(v.overview_selected_page, 5);
}

#[test]
fn from_preexisting_carries_on() {
    let mut v = view_at(5, 10);
    v.handle_key(&text("k"));
    v.handle_key(&NavKey::ArrowForward { shift: false });
    v.mouse_over_hyperlink = Some((2, "x".to_string()));
    let w = PdfViewState::from_preexisting(&v);
    assert_eq!(w.page_number, 6);
    assert_eq!(w.document_info.lookup_bookmark("k".to_string()), Some(5));
    assert_eq!(w.document.check_for_bookmark(5).map(|s| s.as_str()), Some("k"));
    assert!(w.mouse_over_hyperlink.is_none());
    assert_eq!(w.scrollbar_position, v.scrollbar_position);
}
