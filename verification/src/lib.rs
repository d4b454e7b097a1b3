//! A small string-interpolation engine.
//!
//! A template is a string with `${key}` markers.  Parsing scans the text once,
//! extracts the keys in left-to-right order and validates them against a
//! policy ([`Opts`]).  Applying a template consumes it and replaces every
//! resolved marker with the text supplied for its key ([`Args`]).
//!
//! Every operation is specified against a mathematical model: the scanner, the
//! policy checks and the substitution engine each have a spec-level definition,
//! and the executable code is proved to agree with it.

pub mod args;
pub mod error;
pub mod laws;
pub mod opts;
pub mod replace;
pub mod scan;
pub mod state;
pub mod template;

pub use args::Args;
pub use error::Error;
pub use opts::Opts;
pub use state::State;
pub use template::Template;
