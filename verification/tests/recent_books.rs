use pdf_studier::recent::{put_thing_at_back_of_set_vector, RecentDocumentsWithLocations};

fn strings(v: &[&str]) -> Vec<String> {
    v.iter().map(|s| s.to_string()).collect()
}

#[test]
fn put_thing_at_back_moves_existing_item() {
    let mut v = strings(&["a", "b", "c"]);
    put_thing_at_back_of_set_vector(&mut v, "b".to_string());
    assert_eq!(v, strings(&["a", "c", "b"]));
}

#[test]
fn put_thing_at_back_appends_new_item() {
    let mut v = strings(&["a", "b"]);
    put_thing_at_back_of_set_vector(&mut v, "z".to_string());
    assert_eq!(v, strings(&["a", "b", "z"]));
    let mut e: Vec<String> = Vec::new();
    put_thing_at_back_of_set_vector(&mut e, "x".to_string());
    assert_eq!(e, strings(&["x"]));
}

#[test]
fn put_thing_at_back_single_item_unchanged() {
    let mut v = strings(&["a"]);
    put_thing_at_back_of_set_vector(&mut v, "a".to_string());
    assert_eq!(v, strings(&["a"]));
}

#[test]
fn put_thing_at_back_removes_every_copy() {
    let mut v = strings(&["b", "a", "b", "c"]);
    put_thing_at_back_of_set_vector(&mut v, "b".to_string());
    assert_eq!(v, strings(&["a", "c", "b"]));
}

#[test]
fn put_thing_at_back_twice_is_once() {
    let mut v = strings(&["a", "b", "c"]);
    put_thing_at_back_of_set_vector(&mut v, "a".to_string());
    let once = v.clone();
    put_thing_at_back_of_set_vector(&mut v, "a".to_string());
    assert_eq!(v, once);
    assert_eq!(v.iter().filter(|s| s.as_str() == "a").count(), 1);
}

#[test]
fn record_sighting_keeps_recent_order_and_places() {
    let mut r = RecentDocumentsWithLocations::new();
    assert_eq!(r.locations_of("fp1"), None);
    r.record_sighting("fp1", "/a/one.pdf");
    r.record_sighting("fp2", "/b/two.pdf");
    r.record_sighting("fp1", "/c/one-copy.pdf");
    r.record_sighting("fp1", "/a/one.pdf");
    assert_eq!(r.fingerprints, strings(&["fp2", "fp1"]));
    assert_eq!(r.locations_of("fp1"), Some(strings(&["/c/one-copy.pdf", "/a/one.pdf"])));
    assert_eq!(r.locations_of("fp2"), Some(strings(&["/b/two.pdf"])));
    assert_eq!(r.locations_of("fp3"), None);
}
