//! The library: the root directories of a photo collection, and the media
//! files that a walk of them finds.
use crate::file_types::{path_media_type, Media, MediaType, MediaView};
use vstd::prelude::*;

verus! {

/// An entry that a walk of a library root came upon.
#[derive(Debug)]
pub struct Entry {
    /// The entry's path: the root joined with the names below it.
    pub path: String,
    /// Whether the entry is a directory.
    pub is_dir: bool,
}

/// The media file that an entry stands for under a type filter: none for a
/// directory, for a path of no known type, or for a type the filter leaves out.
pub open spec fn entry_media(e: Entry, filter: Option<MediaType>) -> Option<MediaView> {
    if e.is_dir {
        None
    } else {
        match path_media_type(e.path@) {
            Some(t) => if filter is None || filter == Some(t) {
                Some(MediaView { type_: t, path: e.path@ })
            } else {
                None
            },
            None => None,
        }
    }
}

/// The media files among the entries, in the order of the entries, one for
/// each qualifying entry.
pub open spec fn listing(found: Seq<Entry>, filter: Option<MediaType>) -> Seq<MediaView>
    decreases found.len(),
{
    if found.len() == 0 {
        Seq::empty()
    } else {
        let rest = listing(found.drop_last(), filter);
        match entry_media(found.last(), filter) {
            Some(m) => rest.push(m),
            None => rest,
        }
    }
}

/// The media values as their contracts see them.
pub open spec fn media_views(media: Seq<Media>) -> Seq<MediaView> {
    media.map_values(|m: Media| m@)
}

/// Filesystem entry point(s) for a photo collection.
#[derive(Debug)]
pub struct Library {
    paths: Vec<String>,
}

impl View for Library {
    type V = Seq<Seq<char>>;

    closed spec fn view(&self) -> Seq<Seq<char>> {
        self.paths@.map_values(|p: String| p@)
    }
}

impl Library {
    /// Create a [`Library`] given a path.
    pub fn new(root: String) -> (r: Library)
        ensures
            r@ == seq![root@],
    {
        let ghost rv = root@;
        let r = Library::with_paths(vec![root]);
        assert(r@ =~= seq![rv]);
        r
    }

    /// Create a [`Library`] given multiple paths.
    pub fn with_paths(paths: Vec<String>) -> (r: Library)
        ensures
            r@ == paths@.map_values(|p: String| p@),
    {
        Library { paths }
    }

    /// The root paths, in the order given; a walk of each, one after the
    /// other, gives the entries that the listing functions take.
    pub fn paths(&self) -> (r: &Vec<String>)
        ensures
            r@.map_values(|p: String| p@) == self@,
    {
        &self.paths
    }

    /// The media files among the entries that a walk of the roots found,
    /// keeping those of the filter's type, or of any known type.
    fn iter_extensions(&self, found: &Vec<Entry>, filter: Option<MediaType>) -> (r: Vec<Media>)
        ensures
            media_views(r@) == listing(found@, filter),
    {
        let mut out: Vec<Media> = Vec::new();
        let mut i: usize = 0;
        while i < found.len()
            invariant
                i <= found@.len(),
                media_views(out@) == listing(found@.take(i as int), filter),
            decreases found@.len() - i,
        {
            let entry = &found[i];
            assert(found@.take(i + 1).drop_last() =~= found@.take(i as int));
            assert(found@.take(i + 1).last() == found@[i as int]);
            if !entry.is_dir {
                match Media::from_path(entry.path.clone()) {
                    Some(m) => {
                        let t = m.type_();
                        let keep = match filter {
                            Some(f) => f == t,
                            None => true,
                        };
                        if keep {
                            let ghost before = out@;
                            let ghost mv = m@;
                            out.push(m);
                            assert(media_views(out@) =~= media_views(before).push(mv));
                        }
                    },
                    None => {},
                }
            }
            i += 1;
        }
        assert(found@.take(found@.len() as int) =~= found@);
        out
    }

    /// The media files of a given [`MediaType`] among the entries that a walk
    /// of the roots found.
    pub fn iter_type(&self, resource_type: MediaType, found: &Vec<Entry>) -> (r: Vec<Media>)
        ensures
            media_views(r@) == listing(found@, Some(resource_type)),
    {
        self.iter_extensions(found, Some(resource_type))
    }

    /// The media files of all supported [`MediaType`]s among the entries that
    /// a walk of the roots found.
    pub fn iter_all(&self, found: &Vec<Entry>) -> (r: Vec<Media>)
        ensures
            media_views(r@) == listing(found@, None),
    {
        self.iter_extensions(found, None)
    }

    /// The media files of a particular [`MediaType`], or of all supported
    /// ones, among the entries that a walk of the roots found.
    pub fn iter(&self, resource_type: Option<MediaType>, found: &Vec<Entry>) -> (r: Vec<Media>)
        ensures
            media_views(r@) == listing(found@, resource_type),
    {
        match resource_type {
            Some(t) => self.iter_type(t, found),
            None => self.iter_all(found),
        }
    }
}

/// Every listed media file has a path of a known extension, whose type is
/// the type it is listed with and the type the filter asks for, if any.
pub proof fn lemma_listed_are_classified(found: Seq<Entry>, filter: Option<MediaType>)
    ensures
        forall|k: int|
            0 <= k < listing(found, filter).len() ==> {
                let m = #[trigger] listing(found, filter)[k];
                &&& path_media_type(m.path) == Some(m.type_)
                &&& (filter is Some ==> filter == Some(m.type_))
            },
    decreases found.len(),
{
    if found.len() > 0 {
        lemma_listed_are_classified(found.drop_last(), filter);
    }
}

/// A file whose extension belongs to no media type is left out of every
/// listing, filtered or not.
pub proof fn lemma_unknown_extension_excluded(
    found: Seq<Entry>,
    filter: Option<MediaType>,
    path: Seq<char>,
)
    requires
        path_media_type(path) is None,
    ensures
        forall|k: int| 0 <= k < listing(found, filter).len() ==> (#[trigger] listing(found, filter)[k]).path != path,
{
    lemma_listed_are_classified(found, filter);
}

/// Where no entry is a media file that the filter keeps, the listing is
/// empty.
pub proof fn lemma_nothing_matching_lists_nothing(found: Seq<Entry>, filter: Option<MediaType>)
    requires
        forall|i: int| 0 <= i < found.len() ==> (#[trigger] entry_media(found[i], filter)) is None,
    ensures
        listing(found, filter) == Seq::<MediaView>::empty(),
    decreases found.len(),
{
    if found.len() > 0 {
        let d = found.drop_last();
        assert forall|i: int| 0 <= i < d.len() implies (#[trigger] entry_media(d[i], filter)) is None by {
            assert(d[i] == found[i]);
        }
        lemma_nothing_matching_lists_nothing(d, filter);
        assert(entry_media(found[found.len() - 1], filter) is None);
    }
}

} // verus!
