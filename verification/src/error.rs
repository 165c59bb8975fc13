use vstd::prelude::*;

verus! {

/// Errors raised by the layout and buffer layer.
#[derive(Clone, Copy, Debug, PartialEq, Eq, Structural)]
pub enum BufferError {
    /// A layout's fixed prefix exceeds the configured maximum size.
    LayoutOverflow,
    /// A value's shape disagrees with the layout it is serialized under.
    SizeMismatch,
    /// A byte-length computation exceeds the representable range.
    CapacityOverflow,
}

impl BufferError {
    /// A short diagnostic name for the error.
    pub fn describe(&self) -> (r: &'static str)
        ensures
            r@ == self.spec_describe(),
    {
        match self {
            BufferError::LayoutOverflow => "layout overflow",
            BufferError::SizeMismatch => "size mismatch",
            BufferError::CapacityOverflow => "capacity overflow",
        }
    }

    /// The name that `describe` returns.
    pub open spec fn spec_describe(self) -> Seq<char> {
        match self {
            BufferError::LayoutOverflow => "layout overflow"@,
            BufferError::SizeMismatch => "size mismatch"@,
            BufferError::CapacityOverflow => "capacity overflow"@,
        }
    }
}

} // verus!
