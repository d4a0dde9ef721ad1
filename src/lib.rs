//! Android font-configuration manifests: loading the family / alias model and
//! resolving fonts by family name, alias and language.
//!
//! `manifest` folds the events of a manifest into families and aliases;
//! `config` holds the loaded model and answers the queries over it.

pub mod config;
pub mod events;
pub mod manifest;
pub mod model;
pub mod text;

pub use config::{AndroidFontConfig, ConfigView, Pick};
pub use events::{Attribute, Event, EventView};
pub use manifest::{parse_events, LoadError};
pub use model::{FontAlias, FontAxis, FontEntry, FontFamily};
