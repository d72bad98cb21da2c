pub mod adapters;
pub mod deps;
pub mod detect;
pub mod engine;
pub mod entries;
pub mod error;
pub mod formats;
pub mod paths;
pub mod presets;
pub mod queue;
pub mod registry;
pub mod serial;
pub mod text;
