//! Bridge between a presentation-playlist source and a rundown-scheduling
//! destination: a draft model of timed entries, groups and insertion-point
//! references, and a push engine that turns the draft into an ordered
//! sequence of create-entry operations with `parent`/`after` chaining.

pub mod model;
pub mod ontime;
pub mod propresenter;
pub mod push;
pub mod settings;
pub mod time_format;

pub use model::FormatterGroup;
pub use model::FormatterItem;
pub use model::FormatterModel;
pub use model::InsertionMode;
pub use model::TimeEditContext;
pub use model::TimeField;
pub use model::TimedEntry;
pub use ontime::OntimeEntry;
pub use ontime::OntimeEvent;
pub use ontime::OntimeRundown;
pub use propresenter::Dictionary;
pub use propresenter::PlaylistInfo;
pub use propresenter::PlaylistItem;
pub use propresenter::PlaylistResponse;
pub use settings::AppSettings;
pub use time_format::format_ms_to_duration;
pub use time_format::parse_duration_to_ms;
