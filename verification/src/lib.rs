//! Verified core of the stencilwright mapping toolchain: URL signature
//! matching and page recognition, secret-provider references and item
//! discovery, the masking decisions and slot derivation, place-graph
//! validation and the `place goto` decisions, the daemon's session and
//! window records, and the adapter visibility model.

pub mod blacklist;
pub mod browser;
pub mod chars;
pub mod cli;
pub mod describer;
pub mod discovery;
pub mod graph;
pub mod mask;
pub mod model;
pub mod order;
pub mod paths;
pub mod percent;
pub mod rawtext;
pub mod recognize;
pub mod resolver;
pub mod runner;
pub mod secrets;
pub mod slot;
pub mod text;
pub mod url_match;
pub mod values;
pub mod visibility;
