use vstd::prelude::*;

verus! {

/// The class flags: PUBLIC, FINAL, SUPER, INTERFACE, ABSTRACT, SYNTHETIC,
/// ANNOTATION, ENUM.
pub const CLASS_FLAGS_MASK: u16 = 0x7631;

/// The field flags: PUBLIC, PRIVATE, PROTECTED, STATIC, FINAL, VOLATILE,
/// TRANSIENT, SYNTHETIC, ENUM.
pub const FIELD_FLAGS_MASK: u16 = 0x50DF;

/// The method flags: PUBLIC, PRIVATE, PROTECTED, STATIC, FINAL, SYNCHRONIZED,
/// BRIDGE, VARARGS, NATIVE, ABSTRACT, STRICT, SYNTHETIC.
pub const METHOD_FLAGS_MASK: u16 = 0x1DFF;

/// The inner class flags: PUBLIC, PRIVATE, PROTECTED, STATIC, FINAL,
/// INTERFACE, ABSTRACT, SYNTHETIC, ANNOTATION, ENUM.
pub const INNER_CLASS_FLAGS_MASK: u16 = 0x761F;

/// No bit of `bits` lies outside `mask`.
pub open spec fn within_mask(bits: u16, mask: u16) -> bool {
    bits & !mask == 0
}

fn check_mask(bits: u16, mask: u16) -> (r: bool)
    ensures
        r == within_mask(bits, mask),
{
    bits & !mask == 0
}

/// Access flags of a class; only the bits of `CLASS_FLAGS_MASK` may be set.
#[derive(Debug, Clone, Copy, PartialEq, Eq, Structural)]
pub struct ClassAccessFlags {
    pub bits: u16,
}

impl ClassAccessFlags {
    /// The flags with these bits, or `None` where a bit outside the
    /// recognised set is set.
    pub fn from_bits(bits: u16) -> (r: Option<ClassAccessFlags>)
        ensures
            r is Some <==> within_mask(bits, CLASS_FLAGS_MASK),
            r matches Some(f) ==> f.bits == bits,
    {
        if check_mask(bits, CLASS_FLAGS_MASK) {
            Some(ClassAccessFlags { bits })
        } else {
            None
        }
    }

    pub fn bits(&self) -> (r: u16)
        ensures
            r == self.bits,
    {
        self.bits
    }

    /// All the bits of `flag` are set.
    pub fn contains(&self, flag: u16) -> (r: bool)
        ensures
            r == (self.bits & flag == flag),
    {
        self.bits & flag == flag
    }
}

/// Access flags of a field; only the bits of `FIELD_FLAGS_MASK` may be set.
#[derive(Debug, Clone, Copy, PartialEq, Eq, Structural)]
pub struct FieldAccessFlags {
    pub bits: u16,
}

impl FieldAccessFlags {
    /// The flags with these bits, or `None` where a bit outside the
    /// recognised set is set.
    pub fn from_bits(bits: u16) -> (r: Option<FieldAccessFlags>)
        ensures
            r is Some <==> within_mask(bits, FIELD_FLAGS_MASK),
            r matches Some(f) ==> f.bits == bits,
    {
        if check_mask(bits, FIELD_FLAGS_MASK) {
            Some(FieldAccessFlags { bits })
        } else {
            None
        }
    }

    pub fn bits(&self) -> (r: u16)
        ensures
            r == self.bits,
    {
        self.bits
    }

    /// All the bits of `flag` are set.
    pub fn contains(&self, flag: u16) -> (r: bool)
        ensures
            r == (self.bits & flag == flag),
    {
        self.bits & flag == flag
    }
}

/// Access flags of a method; only the bits of `METHOD_FLAGS_MASK` may be set.
#[derive(Debug, Clone, Copy, PartialEq, Eq, Structural)]
pub struct MethodAccessFlags {
    pub bits: u16,
}

impl MethodAccessFlags {
    /// The flags with these bits, or `None` where a bit outside the
    /// recognised set is set.
    pub fn from_bits(bits: u16) -> (r: Option<MethodAccessFlags>)
        ensures
            r is Some <==> within_mask(bits, METHOD_FLAGS_MASK),
            r matches Some(f) ==> f.bits == bits,
    {
        if check_mask(bits, METHOD_FLAGS_MASK) {
            Some(MethodAccessFlags { bits })
        } else {
            None
        }
    }

    pub fn bits(&self) -> (r: u16)
        ensures
            r == self.bits,
    {
        self.bits
    }

    /// All the bits of `flag` are set.
    pub fn contains(&self, flag: u16) -> (r: bool)
        ensures
            r == (self.bits & flag == flag),
    {
        self.bits & flag == flag
    }
}

/// Access flags of an inner class; only the bits of `INNER_CLASS_FLAGS_MASK` may be set.
#[derive(Debug, Clone, Copy, PartialEq, Eq, Structural)]
pub struct InnerClassAccessFlags {
    pub bits: u16,
}

impl InnerClassAccessFlags {
    /// The flags with these bits, or `None` where a bit outside the
    /// recognised set is set.
    pub fn from_bits(bits: u16) -> (r: Option<InnerClassAccessFlags>)
        ensures
            r is Some <==> within_mask(bits, INNER_CLASS_FLAGS_MASK),
            r matches Some(f) ==> f.bits == bits,
    {
        if check_mask(bits, INNER_CLASS_FLAGS_MASK) {
            Some(InnerClassAccessFlags { bits })
        } else {
            None
        }
    }

    pub fn bits(&self) -> (r: u16)
        ensures
            r == self.bits,
    {
        self.bits
    }

    /// All the bits of `flag` are set.
    pub fn contains(&self, flag: u16) -> (r: bool)
        ensures
            r == (self.bits & flag == flag),
    {
        self.bits & flag == flag
    }
}

} // verus!
