//! Expansion of parsed feature documents into concrete scenarios.
//!
//! A [`Feature`] is taken as an already-parsed tree. The library selects its
//! scenarios by tag, puts the shared background steps in front of each of
//! them, resolves the example tables of a scenario into one concrete scenario
//! per data row, and renders single-scenario features back into text.
//!
//! All contracts are stated over the views of [`model`]: texts are sequences
//! of characters, and every tree has a view that holds sequences of views.

pub mod expand;
pub mod files;
pub mod laws;
pub mod model;
pub mod pipeline;
pub mod render;
pub mod select;
pub mod table;
pub mod text;

pub use expand::{can_expand, expand_feature, substitute};
pub use files::{decimal_string, output_files, output_path};
pub use model::{Background, Examples, Feature, Scenario, Step, StepType, Table};
pub use pipeline::{list_scenarios, materialize, prepare, RaggedTables};
pub use render::{feature_to_string, split_feature};
pub use select::{filter_and_prepend_background, has_tag, prepend_background_steps};
pub use table::Example;
