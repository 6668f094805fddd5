//! Catalogue of a photo and video collection: discovery and classification of
//! media files, normalised metadata tags, and resolution of the time a media
//! file was shot from an ordered chain of sources.
mod assoc;
mod calendar;
mod dir;
mod distribution;
mod event;
mod file_types;
mod tags;
mod time;

pub use calendar::{Date, DateTime};
pub use dir::{Entry, Library};
pub use distribution::{tag_name_distribution, tag_value_distribution, TagCounts};
pub use event::Event;
pub use file_types::{Media, MediaType, MediaView};
pub use tags::{get_image_tags, tags_from_fields, ExifField, ExtractionError, TagData, TagMap, TagReader};
pub use time::{Format, Format as TimeFormat, InfoSource, InfoSource as TimeSource, Time};
