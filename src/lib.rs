pub mod text;
pub mod markdown;
pub mod calendar;
pub mod serialize;
pub mod buffer;
pub mod ui;
pub mod editor;
pub mod typewriter;
pub mod journal;
pub mod store;

pub use buffer::{Cursor, TextBuffer};
pub use markdown::LineKind;
pub use serialize::{
    deserialize_config, deserialize_document, serialize_config, serialize_document, WriterConfig,
};
