use vstd::prelude::*;

verus! {

/// The part of a class file whose access flags were rejected.
#[derive(Debug, Clone, Copy, PartialEq, Eq, Structural)]
pub enum FlagScope {
    Class,
    Field,
    Method,
    InnerClass,
}

/// What went wrong while decoding a class file.
#[derive(Debug, Clone, Copy, PartialEq, Eq, Structural)]
pub enum ErrorKind {
    /// The input ended (or an attribute body ended) before a value was complete.
    UnexpectedEof,
    /// The first four bytes are not `0xCAFEBABE`.
    BadMagic,
    /// A constant pool entry starts with an unknown tag.
    UnknownConstantTag(u8),
    /// A constant pool index is zero, out of range, or the second slot of a
    /// Long or Double.
    InvalidPoolIndex(u16),
    /// A Utf8 constant is neither modified UTF-8 nor standard UTF-8.
    MalformedUtf8,
    /// The name of an attribute (given by its pool index) is not a Utf8 constant.
    UnknownAttributeStructure(u16),
    /// A known attribute (given by its name index) left bytes of its body unread.
    TrailingAttributeBytes(u16, u32),
    /// A stack map frame with a reserved frame type.
    ReservedStackFrame(u8),
    /// A verification type with an unknown tag.
    UnknownVerificationType(u8),
    /// An annotation element value with an unknown tag.
    UnknownElementValueTag(u8),
    /// Access flags with a bit outside the recognised set.
    InvalidAccessFlags(FlagScope, u16),
    /// Bytes left after the class.
    TrailingBytes(usize),
}

/// The error of a class parse.
#[derive(Debug, Clone, Copy, PartialEq, Eq, Structural)]
pub struct ClassLoadingError {
    pub kind: ErrorKind,
}

impl ClassLoadingError {
    pub fn new(kind: ErrorKind) -> (r: ClassLoadingError)
        ensures
            r.kind == kind,
    {
        ClassLoadingError { kind }
    }
}

/// A failed class entry of an archive: the entry's name and what went wrong.
#[derive(Debug)]
pub struct ClassLoadError {
    pub entry: String,
    pub error: ClassLoadingError,
}

impl ClassLoadError {
    pub fn new(entry: String, error: ClassLoadingError) -> (r: ClassLoadError)
        ensures
            r.entry@ == entry@,
            r.error == error,
    {
        ClassLoadError { entry, error }
    }
}

} // verus!
