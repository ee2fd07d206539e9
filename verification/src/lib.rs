//! Combat-log analysis: decoding of event records, segmentation of a trace
//! into encounters, filtered views over a trace, and per-actor extraction
//! of damage and healing totals.

pub mod encounter;
pub mod event;
pub mod extract;
pub mod filter;
pub mod filtered_events;
pub mod log;
pub mod parser;
pub mod text;
pub mod unit;

pub use encounter::Encounter;
pub use encounter::EncounterV;
pub use event::Event;
pub use event::EventType;
pub use event::EventV;
pub use event::ParseError;
pub use event::ParseErrorType;
pub use filter::DamagingFilter;
pub use filter::Filter;
pub use filter::HealingFilter;
pub use filter::HostileFilter;
pub use filtered_events::FilteredEvents;
pub use log::Log;
pub use parser::parse;
pub use unit::Unit;
pub use unit::UnitV;
