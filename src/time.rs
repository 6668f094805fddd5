//! The time a media file was shot, resolved from an ordered chain of sources:
//! the file's name or one of its tags, each with the layout to parse it by.
use crate::calendar::{parsed_date, parsed_date_time, Date, DateTime, DateTimeView};
use crate::file_types::{base_name, base_name_of, Media};
use crate::tags::TagMap;
use vstd::prelude::*;

verus! {

/// How to extract the datetime from a text.
#[derive(Debug, PartialEq, Eq)]
pub struct Format {
    /// strftime-style layout for parsing the datetime.
    pub fmt: String,
    /// If specified, only this many leading characters of the text are
    /// matched against the layout.
    pub take_prefix: Option<usize>,
    /// If set, only a date is parsed, and 00:00:00 is taken as its time.
    pub only_date: bool,
}

impl Clone for Format {
    fn clone(&self) -> (r: Format)
        ensures
            r == *self,
    {
        Format { fmt: self.fmt.clone(), take_prefix: self.take_prefix, only_date: self.only_date }
    }
}

impl From<String> for Format {
    fn from(value: String) -> (r: Format) {
        Format { fmt: value, take_prefix: None, only_date: false }
    }
}

impl vstd::std_specs::convert::FromSpecImpl<String> for Format {
    open spec fn obeys_from_spec() -> bool {
        true
    }

    open spec fn from_spec(v: String) -> Format {
        Format { fmt: v, take_prefix: None, only_date: false }
    }
}

/// Source of the time of a media file.
#[derive(Debug, PartialEq, Eq)]
pub enum InfoSource {
    /// The file's name: many cameras write the time the file was shot
    /// into it.
    FileName {
        /// How to parse the datetime.
        format: Format,
    },
    /// The value of a tag.
    Tag {
        /// Which tag name to use.
        name: String,
        /// How to parse the datetime.
        format: Format,
    },
}

impl Clone for InfoSource {
    fn clone(&self) -> (r: InfoSource)
        ensures
            r == *self,
    {
        match self {
            InfoSource::FileName { format } => InfoSource::FileName { format: format.clone() },
            InfoSource::Tag { name, format } => InfoSource::Tag { name: name.clone(), format: format.clone() },
        }
    }
}

impl InfoSource {
    /// The layout of the source.
    pub open spec fn spec_format(self) -> Format {
        match self {
            InfoSource::FileName { format } => format,
            InfoSource::Tag { format, .. } => format,
        }
    }

    /// How to parse the datetime of the source.
    pub fn format(&self) -> (r: &Format)
        ensures
            *r == self.spec_format(),
    {
        match self {
            InfoSource::FileName { format } => format,
            InfoSource::Tag { format, .. } => format,
        }
    }
}

/// The tags that a resolution may consult, as a map.
pub open spec fn tags_view(tags: Option<&TagMap>) -> Option<Map<Seq<char>, Seq<char>>> {
    match tags {
        Some(m) => Some(m@),
        None => None,
    }
}

/// Tag maps handed in are well formed.
pub open spec fn tags_wf(tags: Option<&TagMap>) -> bool {
    match tags {
        Some(m) => m.wf(),
        None => true,
    }
}

/// The text that a source reads for the media file at `path`: the file's
/// base name, or the value of the named tag where tags are at hand and hold it.
pub open spec fn source_value(
    path: Seq<char>,
    source: InfoSource,
    tags: Option<Map<Seq<char>, Seq<char>>>,
) -> Option<Seq<char>> {
    match source {
        InfoSource::FileName { .. } => base_name_of(path),
        InfoSource::Tag { name, .. } => match tags {
            Some(m) => if m.contains_key(name@) {
                Some(m[name@])
            } else {
                None
            },
            None => None,
        },
    }
}

/// The first `n` characters of a text, all of it where it is shorter.
pub open spec fn prefix(s: Seq<char>, take_prefix: Option<usize>) -> Seq<char> {
    match take_prefix {
        Some(n) => if n < s.len() {
            s.take(n as int)
        } else {
            s
        },
        None => s,
    }
}

/// The date-time that a text gives under a format.
pub open spec fn parsed_under(s: Seq<char>, format: Format) -> Option<DateTimeView> {
    let t = prefix(s, format.take_prefix);
    if format.only_date {
        match parsed_date(t, format.fmt@) {
            Some(d) => Some(DateTimeView::midnight(d)),
            None => None,
        }
    } else {
        parsed_date_time(t, format.fmt@)
    }
}

/// The date-time that one source gives for the media file at `path`.
pub open spec fn time_from_source(
    path: Seq<char>,
    source: InfoSource,
    tags: Option<Map<Seq<char>, Seq<char>>>,
) -> Option<DateTimeView> {
    match source_value(path, source, tags) {
        Some(v) => parsed_under(v, source.spec_format()),
        None => None,
    }
}

/// The first source of the list that gives a date-time, with that date-time.
pub open spec fn resolved(
    path: Seq<char>,
    sources: Seq<InfoSource>,
    tags: Option<Map<Seq<char>, Seq<char>>>,
) -> Option<(DateTimeView, InfoSource)>
    decreases sources.len(),
{
    if sources.len() == 0 {
        None
    } else {
        match time_from_source(path, sources[0], tags) {
            Some(t) => Some((t, sources[0])),
            None => resolved(path, sources.drop_first(), tags),
        }
    }
}

/// Describes the time a media file was shot, and the source that gave it.
#[derive(Debug, PartialEq, Eq)]
pub struct Time {
    inner: DateTime,
    source: InfoSource,
}

impl View for Time {
    type V = (DateTimeView, InfoSource);

    closed spec fn view(&self) -> (DateTimeView, InfoSource) {
        (self.inner@, self.source)
    }
}

impl Time {
    /// The date and time of day.
    pub fn timestamp(&self) -> (r: DateTime)
        ensures
            r@ == self@.0,
    {
        self.inner
    }

    /// The source that gave the time.
    pub fn source(&self) -> (r: &InfoSource)
        ensures
            *r == self@.1,
    {
        &self.source
    }
}

impl Media {
    /// The text that a source reads: the file's base name, or the value of
    /// the named tag among `cached_tags` (none where no tags are at hand).
    pub fn get_value<'a>(&'a self, source: &'a InfoSource, cached_tags: Option<&'a TagMap>) -> (r:
        Option<&'a str>)
        requires
            tags_wf(cached_tags),
        ensures
            match r {
                Some(v) => source_value(self@.path, *source, tags_view(cached_tags)) == Some(v@),
                None => source_value(self@.path, *source, tags_view(cached_tags)) is None,
            },
    {
        match source {
            InfoSource::FileName { .. } => base_name(self.path()),
            InfoSource::Tag { name, .. } => match cached_tags {
                Some(tags) => match tags.get(name.as_str()) {
                    Some(v) => Some(v.as_str()),
                    None => None,
                },
                None => None,
            },
        }
    }

    /// Retrieves the datetime that one source gives; the tags of a `Tag`
    /// source are looked up in `cached_tags`.
    pub fn get_datetime_from_source(&self, source: &InfoSource, cached_tags: Option<&TagMap>) -> (r:
        Option<DateTime>)
        requires
            tags_wf(cached_tags),
        ensures
            match r {
                Some(t) => time_from_source(self@.path, *source, tags_view(cached_tags)) == Some(t@)
                    && t@.wf(),
                None => time_from_source(self@.path, *source, tags_view(cached_tags)) is None,
            },
    {
        let value = match self.get_value(source, cached_tags) {
            Some(v) => v,
            None => return None,
        };
        let format = source.format();
        let value = match format.take_prefix {
            Some(n) => {
                if n < value.unicode_len() {
                    value.substring_char(0, n)
                } else {
                    value
                }
            },
            None => value,
        };
        if format.only_date {
            match Date::parse_from_str(value, format.fmt.as_str()) {
                Some(d) => Some(d.and_midnight()),
                None => None,
            }
        } else {
            DateTime::parse_from_str(value, format.fmt.as_str())
        }
    }

    /// Retrieves the datetime from the first of the sources that gives one,
    /// trying them in order; `None` where none does.
    pub fn get_datetime(&self, sources: &[InfoSource], cached_tags: Option<&TagMap>) -> (r: Option<
        Time,
    >)
        requires
            tags_wf(cached_tags),
        ensures
            match r {
                Some(t) => resolved(self@.path, sources@, tags_view(cached_tags)) == Some(t@)
                    && t@.0.wf(),
                None => resolved(self@.path, sources@, tags_view(cached_tags)) is None,
            },
    {
        let ghost path = self@.path;
        let ghost tags = tags_view(cached_tags);
        let mut i: usize = 0;
        assert(sources@.skip(0) =~= sources@);
        while i < sources.len()
            invariant
                i <= sources@.len(),
                tags_wf(cached_tags),
                path == self@.path,
                tags == tags_view(cached_tags),
                resolved(path, sources@, tags) == resolved(path, sources@.skip(i as int), tags),
            decreases sources@.len() - i,
        {
            let ghost rest = sources@.skip(i as int);
            assert(rest[0] == sources@[i as int]);
            match self.get_datetime_from_source(&sources[i], cached_tags) {
                Some(dt) => {
                    return Some(Time { inner: dt, source: sources[i].clone() });
                },
                None => {},
            }
            assert(rest.drop_first() =~= sources@.skip(i + 1));
            i += 1;
        }
        None
    }
}

/// With no source, no time is resolved.
pub proof fn lemma_no_sources_no_time(path: Seq<char>, tags: Option<Map<Seq<char>, Seq<char>>>)
    ensures
        resolved(path, Seq::empty(), tags) is None,
{
}

/// The resolved time comes from the earliest source that gives one: the
/// reported source stands at some position of the list, gives the reported
/// time there, and every source before it gives none.
pub proof fn lemma_first_match_wins(
    path: Seq<char>,
    sources: Seq<InfoSource>,
    tags: Option<Map<Seq<char>, Seq<char>>>,
)
    ensures
        match resolved(path, sources, tags) {
            Some((t, s)) => exists|i: int|
                0 <= i < sources.len() && sources[i] == s && time_from_source(path, sources[i], tags)
                    == Some(t) && forall|j: int|
                    0 <= j < i ==> (#[trigger] time_from_source(path, sources[j], tags)) is None,
            None => forall|j: int|
                0 <= j < sources.len() ==> (#[trigger] time_from_source(path, sources[j], tags)) is None,
        },
    decreases sources.len(),
{
    if sources.len() > 0 {
        let rest = sources.drop_first();
        lemma_first_match_wins(path, rest, tags);
        if time_from_source(path, sources[0], tags) is None {
            match resolved(path, rest, tags) {
                Some((t, s)) => {
                    let i = choose|i: int|
                        0 <= i < rest.len() && rest[i] == s && time_from_source(path, rest[i], tags)
                            == Some(t) && forall|j: int|
                            0 <= j < i ==> (#[trigger] time_from_source(path, rest[j], tags)) is None;
                    assert(sources[i + 1] == rest[i]);
                    assert forall|j: int| 0 <= j < i + 1 implies (#[trigger] time_from_source(
                        path,
                        sources[j],
                        tags,
                    )) is None by {
                        if j > 0 {
                            assert(sources[j] == rest[j - 1]);
                        }
                    }
                },
                None => {
                    assert forall|j: int| 0 <= j < sources.len() implies (#[trigger] time_from_source(
                        path,
                        sources[j],
                        tags,
                    )) is None by {
                        if j > 0 {
                            assert(sources[j] == rest[j - 1]);
                        }
                    }
                },
            }
        }
    }
}

/// When two sources both give a time, the one listed first is reported,
/// whichever of the two orders they are listed in.
pub proof fn lemma_order_decides(
    path: Seq<char>,
    a: InfoSource,
    b: InfoSource,
    tags: Option<Map<Seq<char>, Seq<char>>>,
)
    requires
        time_from_source(path, a, tags) is Some,
        time_from_source(path, b, tags) is Some,
    ensures
        resolved(path, seq![a, b], tags) == Some((time_from_source(path, a, tags)->Some_0, a)),
        resolved(path, seq![b, a], tags) == Some((time_from_source(path, b, tags)->Some_0, b)),
{
    assert(seq![a, b][0] == a);
    assert(seq![b, a][0] == b);
}

} // verus!
