use pdf_studier::book_list::FilterableList;
use pdf_studier::document_info::DocumentInfo;

type Area = (i32, i32, i32, i32);

fn book(fp: &str, description: &str) -> DocumentInfo<Area> {
    let mut i = DocumentInfo::fresh(fp, (0, 0, 1, 1));
    i.description = description.to_string();
    i
}

fn list() -> FilterableList<Area> {
    FilterableList::new(
        vec![
            book("r", "The Rust Programming Language"),
            book("s", "Structure and Interpretation of Computer Programs"),
            book("t", "TCP/IP Illustrated"),
        ],
        vec!["r".to_string(), "gone".to_string(), "s".to_string(), "t".to_string()],
    )
}

#[test]
fn find_matches_most_recent_first() {
    let mut l = list();
    l.find_matches();
    assert_eq!(l.matches, vec!["t".to_string(), "s".to_string(), "r".to_string()]);
    l.search_filter = "PROG".to_string();
    l.find_matches();
    assert_eq!(l.matches, vec!["s".to_string(), "r".to_string()]);
    l.search_filter = "rust lang".to_string();
    l.find_matches();
    assert_eq!(l.matches, vec!["r".to_string()]);
    l.search_filter = "zzz".to_string();
    l.find_matches();
    assert!(l.matches.is_empty());
}

#[test]
fn select_and_move_selection() {
    let mut l = list();
    l.find_matches();
    assert!(!l.select_item(3));
    assert!(l.selected_result.is_empty());
    assert!(l.select_item(1));
    assert_eq!(l.selected_result, "s");
    assert_eq!(l.move_selection(true), Some(2));
    assert_eq!(l.selected_result, "r");
    assert_eq!(l.move_selection(true), Some(2));
    assert_eq!(l.move_selection(false), Some(1));
    assert_eq!(l.move_selection(false), Some(0));
    assert_eq!(l.move_selection(false), Some(0));
    assert_eq!(l.selected_result, "t");
}

#[test]
fn move_selection_without_selection() {
    let mut l = list();
    l.find_matches();
    assert_eq!(l.move_selection(false), Some(2));
    assert_eq!(l.selected_result, "r");
    let mut m = list();
    m.find_matches();
    assert_eq!(m.move_selection(true), Some(0));
    let mut empty = FilterableList::<Area>::new(Vec::new(), Vec::new());
    assert_eq!(empty.move_selection(true), None);
}

#[test]
fn description_edits_reach_known_books() {
    let mut l = list();
    let before = vec!["old r".to_string(), "TCP/IP Illustrated".to_string()];
    let edited = vec![
        ("r".to_string(), "Rust, second edition".to_string()),
        ("t".to_string(), "TCP/IP Illustrated".to_string()),
    ];
    l.apply_description_edits(&before, &edited);
    assert_eq!(l.all_books[0].description, "Rust, second edition");
    assert_eq!(l.all_books[2].description, "TCP/IP Illustrated");
    assert_eq!(l.all_books[1].description, "Structure and Interpretation of Computer Programs");
}
