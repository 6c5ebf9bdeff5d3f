//! Decoder for the JVM class file format.
//!
//! Every decoder works on a byte slice, a start position and an end bound,
//! and returns the decoded value with the position just past it. Each one is
//! specified twice over: a spec function that gives the position reached (or
//! the error met) for every input, and a predicate that ties the decoded value
//! to the bytes it came from.

pub mod error;
pub mod bytes;
pub mod mutf8;
pub mod constant_pool;
pub mod flags;
pub mod list;
pub mod stack_map;
pub mod annotations;
pub mod attributes;
pub mod class;
pub mod archive;
pub mod strict;
pub mod laws;
pub mod determinism;

pub use crate::attributes::Attribute;
pub use crate::class::{Class, FieldInfo, Interface, MethodInfo};
pub use crate::constant_pool::{Constant, ConstantPool, ConstUtf8};
pub use crate::error::{ClassLoadError, ClassLoadingError, ErrorKind, FlagScope};
