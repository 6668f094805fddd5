//! Media types, the extensions that belong to them, and the file-name
//! arithmetic that classifies a path.
use vstd::prelude::*;

verus! {

/// High-level type of a photo-video resource.
#[derive(Debug, Clone, Copy, PartialEq, Eq, Structural)]
pub enum MediaType {
    Photo,
    Animation,
    Video,
}

/// Lower-cases an ASCII letter; every other character stays as it is.
pub open spec fn ascii_lower(c: char) -> char {
    if 'A' <= c && c <= 'Z' {
        ((c as u32) + 32) as char
    } else {
        c
    }
}

/// The text with each ASCII letter lower-cased.
pub open spec fn ascii_lowercase(s: Seq<char>) -> Seq<char> {
    s.map_values(|c: char| ascii_lower(c))
}

impl MediaType {
    /// The lowercase extensions that belong to the type.
    pub open spec fn extensions(self) -> Seq<Seq<char>> {
        match self {
            MediaType::Photo => seq![seq!['j', 'p', 'g'], seq!['j', 'p', 'e', 'g'], seq!['p', 'n', 'g']],
            MediaType::Animation => seq![seq!['g', 'i', 'f']],
            MediaType::Video => seq![seq!['m', 'p', '4']],
        }
    }

    /// Which file extensions are associated with the type.
    pub fn supported_extensions(self) -> (r: Vec<&'static str>)
        ensures
            r@.map_values(|e: &'static str| e@) == self.extensions(),
    {
        proof {
            reveal_strlit("jpg");
            reveal_strlit("jpeg");
            reveal_strlit("png");
            reveal_strlit("gif");
            reveal_strlit("mp4");
        }
        assert("jpg"@ =~= seq!['j', 'p', 'g']);
        assert("jpeg"@ =~= seq!['j', 'p', 'e', 'g']);
        assert("png"@ =~= seq!['p', 'n', 'g']);
        assert("gif"@ =~= seq!['g', 'i', 'f']);
        assert("mp4"@ =~= seq!['m', 'p', '4']);
        let r = match self {
            MediaType::Photo => vec!["jpg", "jpeg", "png"],
            MediaType::Animation => vec!["gif"],
            MediaType::Video => vec!["mp4"],
        };
        assert(r@.map_values(|e: &'static str| e@) =~= self.extensions());
        r
    }
}


impl MediaType {
    /// The name under which the type is shown.
    pub open spec fn spec_label(self) -> Seq<char> {
        match self {
            MediaType::Photo => seq!['P', 'H', 'O', 'T', 'O'],
            MediaType::Animation => seq!['A', 'N', 'I', 'M', 'A', 'T', 'I', 'O', 'N'],
            MediaType::Video => seq!['V', 'I', 'D', 'E', 'O'],
        }
    }

    /// The name under which the type is shown: `PHOTO`, `ANIMATION` or `VIDEO`.
    pub fn label(self) -> (r: &'static str)
        ensures
            r@ == self.spec_label(),
    {
        proof {
            reveal_strlit("PHOTO");
            reveal_strlit("ANIMATION");
            reveal_strlit("VIDEO");
        }
        match self {
            MediaType::Photo => {
                assert("PHOTO"@ =~= seq!['P', 'H', 'O', 'T', 'O']);
                "PHOTO"
            },
            MediaType::Animation => {
                assert("ANIMATION"@ =~= seq!['A', 'N', 'I', 'M', 'A', 'T', 'I', 'O', 'N']);
                "ANIMATION"
            },
            MediaType::Video => {
                assert("VIDEO"@ =~= seq!['V', 'I', 'D', 'E', 'O']);
                "VIDEO"
            },
        }
    }
}

/// The media type that an extension belongs to, the extension compared with
/// each type's set after ASCII letters are lower-cased.
pub open spec fn media_type_of(ext: Seq<char>) -> Option<MediaType> {
    let lower = ascii_lowercase(ext);
    if MediaType::Photo.extensions().contains(lower) {
        Some(MediaType::Photo)
    } else if MediaType::Animation.extensions().contains(lower) {
        Some(MediaType::Animation)
    } else if MediaType::Video.extensions().contains(lower) {
        Some(MediaType::Video)
    } else {
        None
    }
}

/// An extension that reads `jpg`, `jpeg` or `png` once its ASCII letters are
/// lower-cased is a photo's, whatever its case.
pub proof fn lemma_photo_extensions(ext: Seq<char>)
    requires
        ascii_lowercase(ext) == seq!['j', 'p', 'g'] || ascii_lowercase(ext) == seq!['j', 'p', 'e', 'g']
            || ascii_lowercase(ext) == seq!['p', 'n', 'g'],
    ensures
        media_type_of(ext) == Some(MediaType::Photo),
{
    let exts = MediaType::Photo.extensions();
    assert(exts[0] == seq!['j', 'p', 'g']);
    assert(exts[1] == seq!['j', 'p', 'e', 'g']);
    assert(exts[2] == seq!['p', 'n', 'g']);
}

/// An extension that is in no media type's set, once lower-cased, belongs
/// to no media type.
pub proof fn lemma_unknown_extension(ext: Seq<char>)
    requires
        forall|t: MediaType| !(#[trigger] t.extensions()).contains(ascii_lowercase(ext)),
    ensures
        media_type_of(ext) is None,
{
    assert(!MediaType::Photo.extensions().contains(ascii_lowercase(ext)));
    assert(!MediaType::Animation.extensions().contains(ascii_lowercase(ext)));
    assert(!MediaType::Video.extensions().contains(ascii_lowercase(ext)));
}

/// The types in the order in which extensions are looked up.
pub open spec fn all_media_types() -> Seq<MediaType> {
    seq![MediaType::Photo, MediaType::Animation, MediaType::Video]
}

fn media_types() -> (r: Vec<MediaType>)
    ensures
        r@ == all_media_types(),
{
    let r = vec![MediaType::Photo, MediaType::Animation, MediaType::Video];
    assert(r@ =~= all_media_types());
    r
}

fn to_ascii_lower(c: char) -> (r: char)
    ensures
        r == ascii_lower(c),
{
    if 'A' <= c && c <= 'Z' {
        let b: u8 = c as u8;
        ((b + 32) as u8) as char
    } else {
        c
    }
}

/// Whether `s` with its ASCII letters lower-cased is `lower`.
fn lowercase_equals(s: &str, lower: &str) -> (r: bool)
    ensures
        r == (ascii_lowercase(s@) == lower@),
{
    let n = s.unicode_len();
    let m = lower.unicode_len();
    if n != m {
        assert(ascii_lowercase(s@).len() == s@.len());
        return false;
    }
    let mut i: usize = 0;
    while i < n
        invariant
            n == s@.len(),
            n == lower@.len(),
            i <= n,
            forall|k: int| 0 <= k < i ==> ascii_lower(#[trigger] s@[k]) == lower@[k],
        decreases n - i,
    {
        let c = s.get_char(i);
        let d = lower.get_char(i);
        if to_ascii_lower(c) != d {
            assert(ascii_lowercase(s@)[i as int] != lower@[i as int]);
            return false;
        }
        i += 1;
    }
    assert(ascii_lowercase(s@) =~= lower@);
    true
}

impl MediaType {
    /// The media type that a file extension belongs to, without regard to
    /// ASCII case; `None` for an extension of no known type.
    pub fn classify(extension: &str) -> (r: Option<MediaType>)
        ensures
            r == media_type_of(extension@),
    {
        let types = media_types();
        let ghost lower = ascii_lowercase(extension@);
        let mut i: usize = 0;
        while i < types.len()
            invariant
                types@ == all_media_types(),
                i <= types@.len(),
                lower == ascii_lowercase(extension@),
                forall|k: int| 0 <= k < i ==> !(#[trigger] types@[k]).extensions().contains(lower),
            decreases types@.len() - i,
        {
            let t = types[i];
            let exts = t.supported_extensions();
            let mut j: usize = 0;
            while j < exts.len()
                invariant
                    exts@.map_values(|e: &'static str| e@) == t.extensions(),
                    j <= exts@.len(),
                    forall|k: int| 0 <= k < j ==> exts@[k]@ != lower,
                    lower == ascii_lowercase(extension@),
                    types@ == all_media_types(),
                    i < types@.len(),
                    t == types@[i as int],
                    forall|k: int| 0 <= k < i ==> !(#[trigger] types@[k]).extensions().contains(lower),
                decreases exts@.len() - j,
            {
                if lowercase_equals(extension, exts[j]) {
                    assert(t.extensions()[j as int] == lower);
                    assert(t.extensions().contains(lower));
                    return Some(t);
                }
                j += 1;
            }
            assert(!t.extensions().contains(lower)) by {
                if t.extensions().contains(lower) {
                    let k = choose|k: int| 0 <= k < t.extensions().len() && t.extensions()[k] == lower;
                    assert(exts@[k]@ == lower);
                }
            }
            i += 1;
        }
        None
    }
}

/// The path with its trailing separators taken off.
pub open spec fn trim_trailing_slashes(p: Seq<char>) -> Seq<char>
    decreases p.len(),
{
    if p.len() > 0 && p.last() == '/' {
        trim_trailing_slashes(p.drop_last())
    } else {
        p
    }
}

/// The index just past the last occurrence of `c` in `p`, or 0 where `c`
/// does not occur.
pub open spec fn after_last(p: Seq<char>, c: char) -> int
    decreases p.len(),
{
    if p.len() == 0 {
        0
    } else if p.last() == c {
        p.len() as int
    } else {
        after_last(p.drop_last(), c)
    }
}

/// The final component of a path: what follows its last `/` once trailing
/// separators are dropped; none when that is empty, `.` or `..`.
pub open spec fn base_name_of(path: Seq<char>) -> Option<Seq<char>> {
    let t = trim_trailing_slashes(path);
    let name = t.subrange(after_last(t, '/'), t.len() as int);
    if name.len() == 0 || name == seq!['.'] || name == seq!['.', '.'] {
        None
    } else {
        Some(name)
    }
}

/// The extension of a file name: what follows its last `.`; none where the
/// name has no `.` or its only `.` is the first character.
pub open spec fn extension_of(name: Seq<char>) -> Option<Seq<char>> {
    let k = after_last(name, '.');
    if k <= 1 {
        None
    } else {
        Some(name.subrange(k, name.len() as int))
    }
}

/// The media type that a path's extension gives it, if any.
pub open spec fn path_media_type(path: Seq<char>) -> Option<MediaType> {
    match base_name_of(path) {
        Some(name) => match extension_of(name) {
            Some(ext) => media_type_of(ext),
            None => None,
        },
        None => None,
    }
}

fn position_after_last(s: &str, end: usize, c: char) -> (r: usize)
    requires
        end <= s@.len(),
    ensures
        r <= end,
        r as int == after_last(s@.subrange(0, end as int), c),
{
    let mut i = end;
    while i > 0
        invariant
            i <= end <= s@.len(),
            after_last(s@.subrange(0, end as int), c) == after_last(s@.subrange(0, i as int), c),
        decreases i,
    {
        if s.get_char(i - 1) == c {
            return i;
        }
        assert(s@.subrange(0, i as int).drop_last() =~= s@.subrange(0, i - 1));
        i -= 1;
    }
    0
}

fn trimmed_len(s: &str) -> (r: usize)
    ensures
        r <= s@.len(),
        trim_trailing_slashes(s@) == s@.subrange(0, r as int),
{
    let n = s.unicode_len();
    let mut i = n;
    let mut done = false;
    assert(s@.subrange(0, n as int) =~= s@);
    while i > 0 && !done
        invariant
            n == s@.len(),
            i <= n,
            trim_trailing_slashes(s@) == trim_trailing_slashes(s@.subrange(0, i as int)),
            done ==> trim_trailing_slashes(s@.subrange(0, i as int)) == s@.subrange(0, i as int),
        decreases i + if done { 0int } else { 1int },
    {
        if s.get_char(i - 1) != '/' {
            done = true;
        } else {
            assert(s@.subrange(0, i as int).drop_last() =~= s@.subrange(0, i - 1));
            i -= 1;
        }
    }
    i
}

/// The final component of a path, as `base_name_of` gives it.
pub(crate) fn base_name(path: &str) -> (r: Option<&str>)
    ensures
        match r {
            Some(name) => base_name_of(path@) == Some(name@),
            None => base_name_of(path@) is None,
        },
{
    let t = trimmed_len(path);
    let start = position_after_last(path, t, '/');
    let ghost tv = path@.subrange(0, t as int);
    assert(tv.subrange(start as int, t as int) =~= path@.subrange(start as int, t as int));
    let name = path.substring_char(start, t);
    let len = t - start;
    if len == 0 {
        None
    } else if len == 1 && name.get_char(0) == '.' {
        assert(name@ =~= seq!['.']);
        None
    } else if len == 2 && name.get_char(0) == '.' && name.get_char(1) == '.' {
        assert(name@ =~= seq!['.', '.']);
        None
    } else {
        assert(name@ != seq!['.']) by {
            if len == 1 {
                assert(name@[0] != '.');
            }
        }
        assert(name@ != seq!['.', '.']) by {
            if len == 2 {
                assert(name@[0] != '.' || name@[1] != '.');
            }
        }
        Some(name)
    }
}

/// The extension of a file name, as `extension_of` gives it.
fn extension(name: &str) -> (r: Option<&str>)
    ensures
        match r {
            Some(ext) => extension_of(name@) == Some(ext@),
            None => extension_of(name@) is None,
        },
{
    let n = name.unicode_len();
    assert(name@.subrange(0, n as int) =~= name@);
    let k = position_after_last(name, n, '.');
    if k <= 1 {
        None
    } else {
        Some(name.substring_char(k, n))
    }
}

/// The media type of a path by its extension.
fn media_type_of_path(path: &str) -> (r: Option<MediaType>)
    ensures
        r == path_media_type(path@),
{
    match base_name(path) {
        Some(name) => match extension(name) {
            Some(ext) => MediaType::classify(ext),
            None => None,
        },
        None => None,
    }
}

/// What a [`Media`] is to its contracts: its type and its path.
pub struct MediaView {
    pub type_: MediaType,
    pub path: Seq<char>,
}

/// A single media resource: a path whose extension gives its type.
#[derive(Debug)]
pub struct Media {
    type_: MediaType,
    path: String,
}

impl View for Media {
    type V = MediaView;

    closed spec fn view(&self) -> MediaView {
        MediaView { type_: self.type_, path: self.path@ }
    }
}

impl Clone for Media {
    fn clone(&self) -> (r: Media)
        ensures
            r@ == self@,
    {
        proof {
            use_type_invariant(self);
        }
        Media { type_: self.type_, path: self.path.clone() }
    }
}

impl Media {
    #[verifier::type_invariant]
    spec fn classified(&self) -> bool {
        path_media_type(self.path@) == Some(self.type_)
    }

    /// The media resource at a path, typed by the path's extension; `None`
    /// where the extension belongs to no media type.
    pub fn from_path(path: String) -> (r: Option<Media>)
        ensures
            match r {
                Some(m) => path_media_type(path@) == Some(m@.type_) && m@.path == path@,
                None => path_media_type(path@) is None,
            },
    {
        match media_type_of_path(path.as_str()) {
            Some(type_) => Some(Media { type_, path }),
            None => None,
        }
    }

    /// The [type][MediaType] of the resource, which its path's extension gives.
    pub fn type_(&self) -> (r: MediaType)
        ensures
            r == self@.type_,
            path_media_type(self@.path) == Some(r),
    {
        proof {
            use_type_invariant(self);
        }
        self.type_
    }

    /// Path to the media resource.
    pub fn path(&self) -> (r: &str)
        ensures
            r@ == self@.path,
    {
        self.path.as_str()
    }
}

} // verus!
