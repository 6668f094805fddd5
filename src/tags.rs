//! Metadata tags of media files, normalised into one map from tag name to
//! tag value whatever the format they were read from.
use crate::assoc::{keys_distinct, lemma_distinct_push, lemma_map_of_dom, lemma_map_of_index, lemma_map_of_update, map_of};
use crate::file_types::{Media, MediaType};
use vstd::prelude::*;

verus! {

/// Whether two texts are the same.
pub(crate) fn str_eq(a: &str, b: &str) -> (r: bool)
    ensures
        r == (a@ == b@),
{
    let n = a.unicode_len();
    if n != b.unicode_len() {
        return false;
    }
    let mut i: usize = 0;
    while i < n
        invariant
            n == a@.len(),
            n == b@.len(),
            i <= n,
            forall|k: int| 0 <= k < i ==> a@[k] == b@[k],
        decreases n - i,
    {
        if a.get_char(i) != b.get_char(i) {
            return false;
        }
        i += 1;
    }
    assert(a@ =~= b@);
    true
}

/// The pairs of a tag map as texts.
pub open spec fn pair_views(pairs: Seq<(String, String)>) -> Seq<(Seq<char>, Seq<char>)> {
    pairs.map_values(|p: (String, String)| (p.0@, p.1@))
}

/// Tag names mapped to tag values; each name occurs once.
#[derive(Debug)]
pub struct TagMap {
    entries: Vec<(String, String)>,
}

impl View for TagMap {
    type V = Map<Seq<char>, Seq<char>>;

    closed spec fn view(&self) -> Map<Seq<char>, Seq<char>> {
        map_of(pair_views(self.entries@))
    }
}

impl TagMap {
    /// Each name occurs once among the pairs.
    pub closed spec fn wf(&self) -> bool {
        keys_distinct(pair_views(self.entries@))
    }

    /// The pairs of the map, in the order in which their names were first
    /// inserted.
    pub closed spec fn pairs(&self) -> Seq<(String, String)> {
        self.entries@
    }

    /// A map without tags.
    pub fn new() -> (r: TagMap)
        ensures
            r.wf(),
            r@ == Map::<Seq<char>, Seq<char>>::empty(),
            r.pairs().len() == 0,
    {
        let r = TagMap { entries: Vec::new() };
        assert(pair_views(r.entries@) =~= Seq::empty());
        r
    }

    /// The map that a list of pairs gives, a later pair overriding an earlier
    /// one with the same name.
    pub fn from_pairs(pairs: &Vec<(String, String)>) -> (r: TagMap)
        ensures
            r.wf(),
            r@ == map_of(pair_views(pairs@)),
    {
        let mut r = TagMap::new();
        let mut i: usize = 0;
        while i < pairs.len()
            invariant
                i <= pairs@.len(),
                r.wf(),
                r@ == map_of(pair_views(pairs@.take(i as int))),
            decreases pairs@.len() - i,
        {
            let (name, value) = &pairs[i];
            r.insert(name.clone(), value.clone());
            assert(pair_views(pairs@.take(i + 1)).drop_last() =~= pair_views(pairs@.take(i as int)));
            i += 1;
        }
        assert(pairs@.take(pairs@.len() as int) =~= pairs@);
        r
    }

    /// The position of the pair with a name.
    fn position(&self, name: &str) -> (r: Option<usize>)
        ensures
            match r {
                Some(i) => i < self.pairs().len() && self.pairs()[i as int].0@ == name@,
                None => forall|i: int| 0 <= i < self.pairs().len() ==> self.pairs()[i].0@ != name@,
            },
    {
        let mut i: usize = 0;
        while i < self.entries.len()
            invariant
                i <= self.entries@.len(),
                forall|k: int| 0 <= k < i ==> self.entries@[k].0@ != name@,
            decreases self.entries@.len() - i,
        {
            if str_eq(self.entries[i].0.as_str(), name) {
                return Some(i);
            }
            i += 1;
        }
        None
    }

    /// The value of a tag; `None` where the map has no tag of that name.
    pub fn get(&self, name: &str) -> (r: Option<&String>)
        requires
            self.wf(),
        ensures
            match r {
                Some(v) => self@.contains_key(name@) && self@[name@] == v@,
                None => !self@.contains_key(name@),
            },
    {
        proof {
            lemma_map_of_dom(pair_views(self.entries@), name@);
        }
        match self.position(name) {
            Some(i) => {
                proof {
                    lemma_map_of_index(pair_views(self.entries@), i as int);
                    assert(pair_views(self.entries@)[i as int] == (
                        self.entries@[i as int].0@,
                        self.entries@[i as int].1@,
                    ));
                }
                Some(&self.entries[i].1)
            },
            None => {
                proof {
                    if exists|k: int| 0 <= k < self.entries@.len() && pair_views(self.entries@)[k].0 == name@ {
                        let k = choose|k: int| 0 <= k < self.entries@.len() && pair_views(self.entries@)[k].0 == name@;
                        assert(self.entries@[k].0@ == name@);
                        assert(self.pairs()[k].0@ != name@);
                    }
                }
                None
            },
        }
    }

    /// Sets a tag to a value, replacing the value it had.
    pub fn insert(&mut self, name: String, value: String)
        requires
            old(self).wf(),
        ensures
            final(self).wf(),
            final(self)@ == old(self)@.insert(name@, value@),
    {
        let ghost views = pair_views(self.entries@);
        match self.position(name.as_str()) {
            Some(i) => {
                proof {
                    lemma_map_of_update(views, i as int, value@);
                }
                self.entries.set(i, (name, value));
                assert(pair_views(self.entries@) =~= views.update(i as int, (views[i as int].0, value@)));
            },
            None => {
                proof {
                    assert forall|k: int| 0 <= k < views.len() implies views[k].0 != name@ by {
                        assert(views[k].0 == self.entries@[k].0@);
                        assert(self.pairs()[k].0@ != name@);
                    }
                    lemma_distinct_push(views, name@, value@);
                }
                let ghost nv = name@;
                let ghost vv = value@;
                self.entries.push((name, value));
                assert(pair_views(self.entries@) =~= views.push((nv, vv)));
            },
        }
    }

    /// The pairs of the map, each name once.
    pub fn entries(&self) -> (r: &Vec<(String, String)>)
        requires
            self.wf(),
        ensures
            r@ == self.pairs(),
            keys_distinct(pair_views(r@)),
            self@ == map_of(pair_views(r@)),
    {
        &self.entries
    }
}


/// Why the tags of a media file could not be had.
#[derive(Debug, Clone, Copy, PartialEq, Eq, Structural)]
pub enum ExtractionError {
    /// The file could not be read.
    Io,
    /// The file's metadata container is not well formed.
    Malformed,
    /// The video backend could not be initialised.
    BackendInit,
}

/// The reader that extracts the tags of a media type.
#[derive(Debug, Clone, Copy, PartialEq, Eq, Structural)]
pub enum TagReader {
    /// The Exif data embedded in an image file.
    Image,
    /// The metadata of a video container, read through a demuxer.
    Container,
}

impl MediaType {
    /// Photos and animations carry Exif data; videos carry container metadata.
    pub fn tag_reader(self) -> (r: TagReader)
        ensures
            r == (match self {
                MediaType::Video => TagReader::Container,
                _ => TagReader::Image,
            }),
    {
        match self {
            MediaType::Photo | MediaType::Animation => TagReader::Image,
            MediaType::Video => TagReader::Container,
        }
    }
}

/// What a tag reader took from a media file.
#[derive(Debug)]
pub enum TagData {
    /// The content of an image file.
    ImageFile(Vec<u8>),
    /// The metadata pairs of a video container, in the order the demuxer gave them.
    ContainerMetadata(Vec<(String, String)>),
}

/// One field of an image's Exif data: the standard description of its tag,
/// where the tag has one, and the `Debug` text of its value.
#[derive(Debug)]
pub struct ExifField {
    pub description: Option<String>,
    pub value: String,
}

/// The fields as texts.
pub open spec fn field_views(fields: Seq<ExifField>) -> Seq<(Option<Seq<char>>, Seq<char>)> {
    fields.map_values(
        |f: ExifField|
            (
                match f.description {
                    Some(d) => Some(d@),
                    None => None,
                },
                f.value@,
            ),
    )
}

/// The Exif fields that kamadak-exif reads from the content of an image
/// file, in the order it lists them; none where it finds no well-formed
/// Exif data.
pub uninterp spec fn exif_fields(content: Seq<u8>) -> Option<Seq<(Option<Seq<char>>, Seq<char>)>>;

#[verifier::external_type_specification]
#[verifier::external_body]
pub struct ExExifError(exif::Error);

/// Relies on kamadak-exif's `Reader::read_from_container` (Exif data in a
/// TIFF, JPEG, PNG, HEIF or WebP file), with `Exif::fields`,
/// `Tag::description` and the `Debug` text of `Value` to list what it read.
#[verifier::external_body]
fn read_exif_fields(content: &[u8]) -> (r: Result<Vec<ExifField>, exif::Error>)
    ensures
        match r {
            Ok(fields) => exif_fields(content@) == Some(field_views(fields@)),
            Err(_) => exif_fields(content@) is None,
        },
{
    let exif = exif::Reader::new().read_from_container(&mut std::io::Cursor::new(content))?;
    Ok(exif.fields().map(|f| ExifField {
        description: f.tag.description().map(|d| d.to_string()),
        value: format!("{:?}", f.value),
    }).collect())
}

/// The tags of Exif fields: each field with a description, under it, a later
/// field overriding an earlier one of the same description.
pub open spec fn image_tags(fields: Seq<(Option<Seq<char>>, Seq<char>)>) -> Map<Seq<char>, Seq<char>>
    decreases fields.len(),
{
    if fields.len() == 0 {
        Map::empty()
    } else {
        let rest = image_tags(fields.drop_last());
        match fields.last().0 {
            Some(d) => rest.insert(d, fields.last().1),
            None => rest,
        }
    }
}

/// The tags that Exif fields give: each field with a description, under it;
/// a field whose tag has no description is left out.
pub fn tags_from_fields(fields: &Vec<ExifField>) -> (r: TagMap)
    ensures
        r.wf(),
        r@ == image_tags(field_views(fields@)),
{
    let ghost views = field_views(fields@);
    let mut tags = TagMap::new();
    let mut i: usize = 0;
    while i < fields.len()
        invariant
            views == field_views(fields@),
            i <= fields@.len(),
            tags.wf(),
            tags@ == image_tags(views.take(i as int)),
        decreases fields@.len() - i,
    {
        assert(views.take(i + 1).drop_last() =~= views.take(i as int));
        let field = &fields[i];
        match &field.description {
            Some(d) => {
                tags.insert(d.clone(), field.value.clone());
            },
            None => {},
        }
        i += 1;
    }
    assert(views.take(fields@.len() as int) =~= views);
    tags
}

/// The tags of an image from the content of its file: the fields of its
/// Exif data under their descriptions.
pub fn get_image_tags(content: &[u8]) -> (r: Result<TagMap, ExtractionError>)
    ensures
        match exif_fields(content@) {
            Some(fields) => r is Ok && r->Ok_0.wf() && r->Ok_0@ == image_tags(fields),
            None => r == Err::<TagMap, ExtractionError>(ExtractionError::Malformed),
        },
{
    match read_exif_fields(content) {
        Ok(fields) => Ok(tags_from_fields(&fields)),
        Err(_) => Err(ExtractionError::Malformed),
    }
}

/// The tags that the data read from a media file give.
pub open spec fn tags_of(data: TagData) -> Result<Map<Seq<char>, Seq<char>>, ExtractionError> {
    match data {
        TagData::ImageFile(content) => match exif_fields(content@) {
            Some(fields) => Ok(image_tags(fields)),
            None => Err(ExtractionError::Malformed),
        },
        TagData::ContainerMetadata(pairs) => Ok(map_of(pair_views(pairs@))),
    }
}

impl Media {
    /// Fetch the tags' collection from what the reader of the media's type
    /// ([`MediaType::tag_reader`]) took from its file.
    pub fn get_tags(&self, data: TagData) -> (r: Result<TagMap, ExtractionError>)
        ensures
            match tags_of(data) {
                Ok(m) => r is Ok && r->Ok_0.wf() && r->Ok_0@ == m,
                Err(e) => r == Err::<TagMap, ExtractionError>(e),
            },
    {
        match data {
            TagData::ImageFile(content) => get_image_tags(content.as_slice()),
            TagData::ContainerMetadata(pairs) => Ok(TagMap::from_pairs(&pairs)),
        }
    }
}

} // verus!
