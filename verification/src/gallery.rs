//! A folder gallery's own view of the application state: which folder is
//! open, its name, thumbnails and image paths, kept in step with the
//! application state in both directions.
use crate::text::views;
use vstd::prelude::*;

verus! {

/// What the gallery shows: the folder as a whole, or a single image of it.
#[derive(Clone, Copy, Debug, PartialEq, Eq, Structural)]
pub enum FolderView {
    Folder,
    SingleImage,
}

/// One folder of images: its name, the thumbnails of its images and their paths.
pub struct ImageFolder<Th> {
    pub name: String,
    pub thumbnails: Vec<Th>,
    pub paths: Vec<String>,
}

/// The application state the gallery is cut from. `V` is the type of the
/// application's views.
pub struct AppState<Th, V> {
    pub folder_paths: Vec<String>,
    pub current_image_idx: usize,
    pub views: Vec<V>,
    pub all_images: Vec<ImageFolder<Th>>,
    pub selected_folder: Option<usize>,
}

/// The gallery's state: the open folder's name, thumbnails and paths, which
/// folder that is, which of its images is selected, and the stack of views.
pub struct FolderGalleryState<Th> {
    pub name: String,
    pub images: Vec<Th>,
    pub selected_folder: Option<usize>,
    pub selected_image: usize,
    pub views: Vec<FolderView>,
    pub paths: Vec<String>,
}

/// `b` holds clones of the items of `a`, in the same order.
pub open spec fn clones_of<Th: Clone>(a: Seq<Th>, b: Seq<Th>) -> bool {
    a.len() == b.len() && forall|i: int| 0 <= i < a.len() ==> cloned::<Th>(a[i], b[i])
}

/// The folder selected in the application state exists.
pub open spec fn selection_exists<Th, V>(state: &AppState<Th, V>) -> bool {
    match state.selected_folder {
        Some(idx) => idx < state.all_images.len(),
        None => true,
    }
}

/// `g` shows folder `f` of the application state, numbered `idx`.
pub open spec fn shows_folder<Th: Clone>(g: &FolderGalleryState<Th>, f: &ImageFolder<Th>, idx: usize) -> bool {
    &&& g.selected_folder == Some(idx)
    &&& g.name@ == f.name@
    &&& clones_of(f.thumbnails@, g.images@)
    &&& views(g.paths@) == views(f.paths@)
}

fn copy_strings(v: &Vec<String>) -> (r: Vec<String>)
    ensures
        views(r@) == views(v@),
{
    let r = v.clone();
    assert(views(r@) =~= views(v@));
    r
}

impl<Th: Clone> FolderGalleryState<Th> {
    /// The gallery's state for the application state: the selected folder, if
    /// there is one, with its first image selected; else an empty gallery.
    /// Either way the view stack holds the folder view alone.
    pub fn new<V>(state: AppState<Th, V>) -> (r: Self)
        requires
            selection_exists(&state),
        ensures
            r.selected_image == 0,
            r.views@ == seq![FolderView::Folder],
            match state.selected_folder {
                Some(idx) => shows_folder(&r, &state.all_images@[idx as int], idx),
                None => {
                    &&& r.selected_folder is None
                    &&& r.name@.len() == 0
                    &&& r.images@.len() == 0
                    &&& r.paths@.len() == 0
                },
            },
    {
        let mut views: Vec<FolderView> = Vec::new();
        views.push(FolderView::Folder);
        if let Some(idx) = state.selected_folder {
            let folder = &state.all_images[idx];
            FolderGalleryState {
                name: folder.name.clone(),
                images: folder.thumbnails.clone(),
                selected_folder: Some(idx),
                selected_image: 0,
                views,
                paths: copy_strings(&folder.paths),
            }
        } else {
            FolderGalleryState {
                name: String::new(),
                images: Vec::new(),
                selected_folder: None,
                selected_image: 0,
                views,
                paths: Vec::new(),
            }
        }
    }
}

/// Keeps a [`FolderGalleryState`] in step with the application state.
pub struct GalleryTransfer;

impl GalleryTransfer {
    /// Takes a newly selected folder of the application state into the
    /// gallery: when the application state selects a folder other than the
    /// one the gallery shows, or the gallery shows none, the gallery now shows
    /// it, with the image selection and views left as they were. Otherwise the
    /// gallery is left unchanged.
    pub fn read_input<Th: Clone, V>(&self, state: &mut FolderGalleryState<Th>, inner: &AppState<Th, V>)
        requires
            selection_exists(inner),
        ensures
            final(state).selected_image == old(state).selected_image,
            final(state).views@ == old(state).views@,
            match inner.selected_folder {
                Some(idx) => if old(state).selected_folder == Some(idx) {
                    *final(state) == *old(state)
                } else {
                    shows_folder(final(state), &inner.all_images@[idx as int], idx)
                },
                None => *final(state) == *old(state),
            },
    {
        match inner.selected_folder {
            Some(idx) => {
                let change = match state.selected_folder {
                    Some(current_idx) => idx != current_idx,
                    None => true,
                };
                if change {
                    let folder = &inner.all_images[idx];
                    state.selected_folder = Some(idx);
                    state.name = folder.name.clone();
                    state.images = folder.thumbnails.clone();
                    state.paths = copy_strings(&folder.paths);
                }
            },
            None => {},
        }
    }

    /// Writes the gallery's folder name and thumbnails back into the folder it
    /// shows; with no folder shown, nothing changes.
    pub fn write_back_input<Th: Clone, V>(&self, state: &FolderGalleryState<Th>, inner: &mut AppState<Th, V>)
        requires
            match state.selected_folder {
                Some(idx) => idx < old(inner).all_images.len(),
                None => true,
            },
        ensures
            match state.selected_folder {
                Some(idx) => {
                    let before = old(inner).all_images@[idx as int];
                    let after = final(inner).all_images@[idx as int];
                    &&& final(inner).all_images@.len() == old(inner).all_images@.len()
                    &&& forall|j: int| 0 <= j < old(inner).all_images@.len() && j != idx
                        ==> #[trigger] final(inner).all_images@[j] == old(inner).all_images@[j]
                    &&& after.name@ == state.name@
                    &&& clones_of(state.images@, after.thumbnails@)
                    &&& after.paths == before.paths
                    &&& final(inner).folder_paths == old(inner).folder_paths
                    &&& final(inner).current_image_idx == old(inner).current_image_idx
                    &&& final(inner).views == old(inner).views
                    &&& final(inner).selected_folder == old(inner).selected_folder
                },
                None => *final(inner) == *old(inner),
            },
    {
        if let Some(idx) = state.selected_folder {
            let name = state.name.clone();
            let thumbnails = state.images.clone();
            inner.all_images[idx].name = name;
            inner.all_images[idx].thumbnails = thumbnails;
        }
    }
}

} // verus!
