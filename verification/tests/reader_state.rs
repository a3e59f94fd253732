use pdf_studier::app_state::{AppState, OpenPlan, WindowCount};
use pdf_studier::document_info::DocumentInfo;
use pdf_studier::recent::RecentDocumentsWithLocations;

type Area = (i32, i32, i32, i32);

fn info(fp: &str) -> DocumentInfo<Area> {
    DocumentInfo::fresh(fp, (0, 0, 1, 1))
}

fn empty_state() -> AppState<Area> {
    AppState::from_parts(Vec::new(), RecentDocumentsWithLocations::new())
}

#[test]
fn opening_a_book_twice_loads_it_once() {
    let mut s = empty_state();
    let a = s.admit_opened_book(
        info("fpA"),
        "/books/a.pdf".to_string(),
        "~/a.pdf".to_string(),
        120,
        Some("Title"),
        Some("Author"),
    );
    assert_eq!(a.index, 0);
    assert!(a.newly_loaded);
    assert!(a.save_needed);
    assert_eq!(s.loaded_documents.len(), 1);
    assert_eq!(s.loaded_documents[0].filepath, "/books/a.pdf");
    let stored = s.document_info("fpA").unwrap();
    assert_eq!(stored.page_count, 120);
    assert_eq!(stored.description, "Title~/a.pdf by Author");

    let known = s.document_info("fpA").unwrap().duplicate();
    let b = s.admit_opened_book(
        known,
        "/copy/a.pdf".to_string(),
        "/copy/a.pdf".to_string(),
        999,
        Some("Other"),
        None,
    );
    assert_eq!(b.index, 0);
    assert!(!b.newly_loaded);
    assert!(!b.save_needed);
    assert_eq!(s.loaded_documents.len(), 1);
    assert_eq!(s.document_info("fpA").unwrap().page_count, 120);
    assert_eq!(
        s.recent_document_locations.locations_of("fpA"),
        Some(vec!["/books/a.pdf".to_string(), "/copy/a.pdf".to_string()])
    );
}

#[test]
fn plan_open_prefers_loaded_then_known_places() {
    let mut s = empty_state();
    assert!(matches!(s.plan_open("fpX"), OpenPlan::Unknown));
    s.recent_document_locations.record_sighting("fpX", "/x1.pdf");
    s.recent_document_locations.record_sighting("fpX", "/x2.pdf");
    match s.plan_open("fpX") {
        OpenPlan::TryLocations(v) => assert_eq!(v, vec!["/x2.pdf".to_string(), "/x1.pdf".to_string()]),
        _ => panic!("expected places to try"),
    }
    s.admit_opened_book(info("fpX"), "/x2.pdf".to_string(), "/x2.pdf".to_string(), 3, None, None);
    assert!(matches!(s.plan_open("fpX"), OpenPlan::AlreadyLoaded(0)));
    assert_eq!(s.already_loaded("fpX".to_string()), Some(0));
    assert_eq!(s.already_loaded("nope".to_string()), None);
}

#[test]
fn own_writes_are_not_reloaded() {
    let mut s = empty_state();
    s.admit_opened_book(info("fp1"), "/1.pdf".to_string(), "/1.pdf".to_string(), 3, None, None);
    s.loaded_documents[0].doc_info_changed = true;
    assert_eq!(s.unsaved_fingerprints(), vec!["fp1".to_string()]);
    s.note_saved("fp1", Some("/sync/fp1.json"));
    assert!(!s.loaded_documents[0].doc_info_changed);
    assert!(s.unsaved_fingerprints().is_empty());
    assert!(s.consume_own_write("/sync/fp1.json"));
    assert!(!s.consume_own_write("/sync/fp1.json"));
    assert!(!s.consume_own_write("/sync/other.json"));
}

#[test]
fn reloaded_info_replaces_and_updates_names() {
    let mut s = empty_state();
    s.admit_opened_book(info("fp1"), "/1.pdf".to_string(), "/1.pdf".to_string(), 3, None, None);
    let mut newer = info("fp1");
    newer.add_bookmark("n", 2);
    newer.page_count = 3;
    s.absorb_reloaded_info(newer);
    assert_eq!(s.all_local_documents_info.len(), 1);
    assert_eq!(s.document_info("fp1").unwrap().lookup_bookmark("n".to_string()), Some(2));
    assert_eq!(s.loaded_documents[0].check_for_bookmark(2).map(|x| x.as_str()), Some("n"));
    s.absorb_reloaded_info(info("fp2"));
    assert_eq!(s.all_local_documents_info.len(), 2);
    assert_eq!(s.info_position("fp2"), Some(1));
}

#[test]
fn store_info_keeps_one_entry_per_book() {
    let mut s = empty_state();
    s.store_info(info("a"));
    s.store_info(info("b"));
    let mut a2 = info("a");
    a2.most_recent_page = 9;
    s.store_info(a2);
    assert_eq!(s.all_local_documents_info.len(), 2);
    assert_eq!(s.document_info("a").unwrap().most_recent_page, 9);
    assert!(s.document_info("c").is_none());
}

#[test]
fn window_count_quits_on_last_close() {
    let mut w = WindowCount::new(vec![2, 5]);
    assert_eq!(w.take_windows_to_open(), vec![2, 5]);
    assert!(w.take_windows_to_open().is_empty());
    w.window_added();
    w.window_added();
    assert!(!w.window_removed());
    assert!(w.window_removed());
    assert_eq!(w.window_count, 0);
}
