use pdf_studier::gallery::{AppState, FolderGalleryState, FolderView, GalleryTransfer, ImageFolder};
use pdf_studier::pixels::invert_area;
use pdf_studier::positions::{min_max_keys, NO_FIRST_PAGE};
use pdf_studier::preferences::{DoubleClickAction, ScrollbarLayout};
use pdf_studier::scrollbar::tag_colours;
use std::collections::BTreeMap;

#[test]
fn invert_area_flips_only_the_area() {
    // A 3 by 2 image, every byte 10.
    let mut px = vec![10u8; 3 * 3 * 2];
    invert_area(&mut px, 3, 2, 1, 3, 0, 1);
    let mut expected = vec![10u8; 18];
    for i in 3..9 {
        expected[i] = 245;
    }
    assert_eq!(px, expected);
}

#[test]
fn invert_area_is_cut_to_the_image_and_undone_by_itself() {
    let mut px: Vec<u8> = (0..24).map(|i| i as u8).collect();
    let orig = px.clone();
    invert_area(&mut px, 2, 4, 1, 100, 2, 100);
    for y in 0..4 {
        for x in 0..2 {
            for c in 0..3 {
                let i = 3 * (x + y * 2) + c;
                let want = if x >= 1 && y >= 2 { 255 - orig[i] } else { orig[i] };
                assert_eq!(px[i], want);
            }
        }
    }
    invert_area(&mut px, 2, 4, 1, 100, 2, 100);
    assert_eq!(px, orig);
}

#[test]
fn invert_area_empty_when_corners_cross() {
    let mut px = vec![1u8; 12];
    invert_area(&mut px, 2, 2, 2, 1, 0, 2);
    assert_eq!(px, vec![1u8; 12]);
}

#[test]
fn min_max_keys_of_layout() {
    let mut m: BTreeMap<usize, f64> = BTreeMap::new();
    assert_eq!(min_max_keys(&m), (NO_FIRST_PAGE, 0));
    m.insert(17, 0.5);
    m.insert(4, 1.5);
    m.insert(9, 2.5);
    assert_eq!(min_max_keys(&m), (4, 17));
    let mut big: BTreeMap<usize, ()> = BTreeMap::new();
    big.insert(200000000, ());
    assert_eq!(min_max_keys(&big), (100000000, 200000000));
}

#[test]
fn tag_colours_lists_set_tags_up_to_nine() {
    assert_eq!(tag_colours(0), Vec::<usize>::new());
    assert_eq!(tag_colours(0b10_0000_0101), vec![0, 2, 9]);
    assert_eq!(tag_colours(1 << 10 | 1 << 15), Vec::<usize>::new());
    assert_eq!(tag_colours(0xffff), (0..10).collect::<Vec<usize>>());
}

#[test]
fn preference_defaults() {
    assert_eq!(DoubleClickAction::default(), DoubleClickAction::CropMode);
    assert_eq!(ScrollbarLayout::default(), ScrollbarLayout::Grid);
}

fn gallery_app(selected: Option<usize>) -> AppState<u32, ()> {
    AppState {
        folder_paths: vec!["/pics".to_string()],
        current_image_idx: 0,
        views: vec![],
        all_images: vec![
            ImageFolder { name: "one".to_string(), thumbnails: vec![1, 2], paths: vec!["/pics/1".to_string()] },
            ImageFolder { name: "two".to_string(), thumbnails: vec![3], paths: vec!["/pics/3".to_string()] },
        ],
        selected_folder: selected,
    }
}

#[test]
fn gallery_follows_the_selected_folder() {
    let g = FolderGalleryState::new(gallery_app(None));
    assert_eq!(g.selected_folder, None);
    assert!(g.name.is_empty() && g.images.is_empty() && g.paths.is_empty());
    assert_eq!(g.views, vec![FolderView::Folder]);

    let mut g = FolderGalleryState::new(gallery_app(Some(0)));
    assert_eq!(g.name, "one");
    assert_eq!(g.images, vec![1, 2]);
    g.selected_image = 1;
    GalleryTransfer.read_input(&mut g, &gallery_app(Some(0)));
    assert_eq!(g.selected_image, 1);
    assert_eq!(g.name, "one");
    GalleryTransfer.read_input(&mut g, &gallery_app(Some(1)));
    assert_eq!(g.selected_folder, Some(1));
    assert_eq!(g.name, "two");
    assert_eq!(g.images, vec![3]);
    assert_eq!(g.paths, vec!["/pics/3".to_string()]);
    GalleryTransfer.read_input(&mut g, &gallery_app(None));
    assert_eq!(g.selected_folder, Some(1));
}

#[test]
fn gallery_writes_back_name_and_thumbnails() {
    let mut app = gallery_app(Some(1));
    let mut g = FolderGalleryState::new(gallery_app(Some(1)));
    g.name = "renamed".to_string();
    g.images = vec![7, 8];
    GalleryTransfer.write_back_input(&g, &mut app);
    assert_eq!(app.all_images[1].name, "renamed");
    assert_eq!(app.all_images[1].thumbnails, vec![7, 8]);
    assert_eq!(app.all_images[0].name, "one");
    let none = FolderGalleryState::new(gallery_app(None));
    GalleryTransfer.write_back_input(&none, &mut app);
    assert_eq!(app.all_images[1].name, "renamed");
}
