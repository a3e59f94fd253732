use pdf_studier::bookmarks::Bookmarks;

#[test]
fn bookmarks_insert_get_remove() {
    let mut b = Bookmarks::new();
    assert_eq!(b.get("a"), None);
    b.insert("a", 10);
    b.insert("b", 20);
    assert_eq!(b.get("a"), Some(10));
    assert_eq!(b.get("b"), Some(20));
    b.insert("a", 30);
    assert_eq!(b.get("a"), Some(30));
    assert_eq!(b.entries.len(), 2);
    b.remove("a");
    assert_eq!(b.get("a"), None);
    assert_eq!(b.get("b"), Some(20));
    b.remove("zzz");
    assert_eq!(b.entries.len(), 1);
}

#[test]
fn bookmarks_keep_insertion_order() {
    let mut b = Bookmarks::new();
    b.insert("x", 1);
    b.insert("y", 2);
    b.insert("x", 3);
    let names: Vec<&str> = b.entries.iter().map(|e| e.0.as_str()).collect();
    assert_eq!(names, vec!["x", "y"]);
    assert_eq!(b.position("y"), Some(1));
    assert_eq!(b.position("q"), None);
}

#[test]
fn bookmarks_duplicate_is_equal() {
    let mut b = Bookmarks::new();
    b.insert("k", 4);
    b.insert("j", 9);
    let d = b.duplicate();
    assert_eq!(d.entries, b.entries);
}
