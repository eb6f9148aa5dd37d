//! A filesystem-path value with `pathlib`-style decomposition and derivation.
//!
//! A [`Path`] holds a text and nothing else, and the text is never empty:
//! where an operation would leave none, the path is `.`. What the text means
//! is laid down in [`syntax`], over sequences of characters: the head, the
//! body, the components, the name with its stem and suffixes, the parent,
//! the join. Every operation of `Path` is verified against that model, and
//! [`laws`] proves how the operations go together.
//!
//! The separator is `/`. No operation here reads or writes the filesystem;
//! those in [`system`] take what the operating system reported as an
//! argument and decide what follows from it.

pub mod equality;
pub mod error;
pub mod laws;
pub mod path;
pub mod scan;
pub mod syntax;
pub mod system;
pub mod text;

pub use error::{os_reply, ErrorClass, PathError};
pub use path::Path;
