//! Builds an in-memory tree of named nodes from a linear sequence of
//! tokenized markup events.
//!
//! The event sequence (element starts and ends, text runs, trivia) either
//! comes from the caller directly or is produced from raw bytes by
//! [`get_events`]. The tree builder [`read_xml`] consumes the sequence left
//! to right, exactly once, and returns the ordered sequence of root
//! [`XmlItem`] nodes, or the first structural violation it finds.

pub mod events;
pub mod model;
pub mod builder;
pub mod laws;
pub mod tokenize;

pub use events::Event;
pub use events::ParseError;
pub use builder::XmlItem;
pub use builder::read_xml;
pub use tokenize::get_events;
