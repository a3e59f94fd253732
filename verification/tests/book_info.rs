use pdf_studier::document::Document;
use pdf_studier::document_info::{CropMargins, DocumentInfo};

type Area = (i32, i32, i32, i32);

const FULL: Area = (0, 0, 100, 100);
const NARROW: Area = (10, 5, 90, 95);

fn fresh() -> DocumentInfo<Area> {
    DocumentInfo::fresh("fp", FULL)
}

#[test]
fn fresh_info_knows_nothing() {
    let info = fresh();
    assert_eq!(info.fingerprint, "fp");
    assert!(info.are_all_pages_same());
    assert!(!info.are_even_and_odd_distinguished());
    assert_eq!(info.page_margins_in_normalized_coords(7), FULL);
    assert_eq!(info.tag_bits(3), 0);
    assert_eq!(info.page_count, 0);
    assert_eq!(info.most_recent_page, 0);
    assert!(info.description.is_empty());
    assert_eq!(info.lookup_bookmark("a".to_string()), None);
}

#[test]
fn set_margins_then_read_them_back() {
    let mut info = fresh();
    info.set_page_margins(4, NARROW);
    assert_eq!(info.page_margins_in_normalized_coords(4), NARROW);
    // All pages share the default margins.
    assert_eq!(info.page_margins_in_normalized_coords(5), NARROW);
}

#[test]
fn even_odd_distinction_splits_defaults() {
    let mut info = fresh();
    info.toggle_even_odd_page_distinction(0);
    assert!(info.are_even_and_odd_distinguished());
    info.set_page_margins(3, NARROW);
    assert_eq!(info.page_margins_in_normalized_coords(3), NARROW);
    assert_eq!(info.page_margins_in_normalized_coords(5), NARROW);
    assert_eq!(info.page_margins_in_normalized_coords(4), FULL);
    // Back to one area: the one that page 3 shows.
    info.toggle_even_odd_page_distinction(3);
    assert!(info.are_all_pages_same());
    assert_eq!(info.page_margins_in_normalized_coords(4), NARROW);
    match info.default_margins {
        CropMargins::AllPagesSame(a) => assert_eq!(a, NARROW),
        CropMargins::DistinguishEvenAndOddPages(_, _) => panic!("still split"),
    }
}

#[test]
fn custom_margins_are_private_to_a_page() {
    let mut info = fresh();
    info.toggle_custom_margins(2);
    assert!(info.has_custom_margins(2));
    info.set_page_margins(2, NARROW);
    assert_eq!(info.page_margins_in_normalized_coords(2), NARROW);
    assert_eq!(info.page_margins_in_normalized_coords(1), FULL);
    assert_eq!(info.page_margins_in_normalized_coords(3), FULL);
    info.toggle_custom_margins(2);
    assert!(!info.has_custom_margins(2));
    assert_eq!(info.page_margins_in_normalized_coords(2), FULL);
}

#[test]
fn tag_bits_toggle_set_clear() {
    let mut info = fresh();
    info.toggle_tag_bit(5, 3);
    assert_eq!(info.tag_bits(5), 0b1000);
    info.toggle_tag_bit(5, 1);
    assert_eq!(info.tag_bits(5), 0b1010);
    info.toggle_tag_bit(5, 3);
    assert_eq!(info.tag_bits(5), 0b0010);
    info.set_tags(6, 0xffff);
    assert_eq!(info.tag_bits(6), 0xffff);
    info.clear_tags(6);
    assert_eq!(info.tag_bits(6), 0);
    assert_eq!(info.tag_bits(5), 0b0010);
}

#[test]
fn bookmarks_through_info() {
    let mut info = fresh();
    info.add_bookmark("a", 12);
    assert_eq!(info.lookup_bookmark("a".to_string()), Some(12));
    info.add_bookmark("a", 13);
    assert_eq!(info.lookup_bookmark("a".to_string()), Some(13));
    info.remove_bookmark("a");
    assert_eq!(info.lookup_bookmark("a".to_string()), None);
}

#[test]
fn colour_inversion_areas() {
    let mut info = fresh();
    assert!(!info.has_color_inversion_rects(1));
    assert!(!info.remove_last_color_inversion_rect(1));
    info.add_color_inversion_rect(1, FULL);
    info.add_color_inversion_rect(1, NARROW);
    assert_eq!(info.color_inversion_rects(1), Some(&vec![FULL, NARROW]));
    assert!(info.remove_last_color_inversion_rect(1));
    assert_eq!(info.color_inversion_rects(1), Some(&vec![FULL]));
    info.remove_color_inversion_rect(1, 0);
    assert_eq!(info.color_inversion_rects(1), Some(&vec![]));
    assert!(!info.has_color_inversion_rects(1));
    assert!(info.remove_last_color_inversion_rect(1));
}

#[test]
fn first_sighting_fills_count_and_description() {
    let mut info = fresh();
    let changed = info.note_first_sighting(320, Some("Rust"), Some("Klabnik"), "~/b/rust.pdf");
    assert!(changed);
    assert_eq!(info.page_count, 320);
    assert_eq!(info.description, "Rust~/b/rust.pdf by Klabnik");
    let again = info.note_first_sighting(999, Some("Other"), None, "/x.pdf");
    assert!(!again);
    assert_eq!(info.page_count, 320);
    assert_eq!(info.description, "Rust~/b/rust.pdf by Klabnik");
}

#[test]
fn first_sighting_without_title() {
    let mut info = fresh();
    assert!(info.note_first_sighting(10, None, Some(""), "/x.pdf"));
    assert_eq!(info.description, "");
    let mut info2 = fresh();
    assert!(info2.note_first_sighting(10, Some(""), Some("Anon"), "/x.pdf"));
    assert_eq!(info2.description, " by Anon");
}

#[test]
fn document_shows_bookmark_names_on_pages() {
    let mut info = fresh();
    info.add_bookmark("a", 3);
    info.add_bookmark("b", 8);
    let mut doc = Document::from_info(&info, "/p.pdf".to_string(), "/p.pdf".to_string());
    assert_eq!(doc.check_for_bookmark(3).map(|s| s.as_str()), Some("a"));
    assert_eq!(doc.check_for_bookmark(8).map(|s| s.as_str()), Some("b"));
    assert_eq!(doc.check_for_bookmark(4), None);
    assert!(!doc.doc_info_changed);
    info.remove_bookmark("a");
    doc.generate_reverse_bookmarks(&info);
    assert_eq!(doc.check_for_bookmark(3), None);
    let copy = doc.duplicate();
    assert_eq!(copy.fingerprint, "fp");
    assert_eq!(copy.check_for_bookmark(8).map(|s| s.as_str()), Some("b"));
}

#[test]
fn info_duplicate_keeps_everything() {
    let mut info = fresh();
    info.add_bookmark("z", 1);
    info.set_tags(2, 7);
    info.add_color_inversion_rect(3, NARROW);
    info.toggle_custom_margins(4);
    info.description = "d".to_string();
    let d = info.duplicate();
    assert_eq!(d.lookup_bookmark("z".to_string()), Some(1));
    assert_eq!(d.tag_bits(2), 7);
    assert_eq!(d.color_inversion_rects(3), Some(&vec![NARROW]));
    assert!(d.has_custom_margins(4));
    assert_eq!(d.description, "d");
    assert_eq!(d.fingerprint, "fp");
}
