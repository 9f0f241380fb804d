//! Result records of the chain analyzer bridge, and their JSON text.
//!
//! The analyzer itself lives elsewhere: the host hands this library what the
//! analyzer reported, and the library builds the record that goes back to the
//! user interface, together with its JSON text.

pub mod bridge;
pub mod decode;
pub mod entities;
pub mod text;

pub use bridge::{respond, Verdict};
pub use entities::{AnalyzeError, AnalyzeSuccess, Message};
