//! The ways in which the machine can fail.

use vstd::prelude::*;

verus! {

/// A failure that ends the run of the machine.
///
/// Java exceptions are not errors of this kind: they are objects, raised and
/// caught by the interpreted program. Only one that no frame catches surfaces
/// here, as `UnhandledException`.
#[derive(Clone, Copy, Debug, PartialEq, Eq, Structural)]
pub enum VmError {
    /// The bytes are no class file: bad magic number, a version that is too
    /// new, an unknown constant tag, or a region that overruns the buffer.
    Format,
    /// A field or method descriptor does not follow the grammar.
    Descriptor,
    /// A constant-pool entry is missing, out of range or of the wrong kind.
    Resolution,
    /// The host found no class file for a class that the program needs, or a
    /// class that must be there already is not.
    ClassNotFound,
    /// No class in the superclass chain declares the method.
    NoSuchMethod,
    /// No field of that name is in the layout.
    NoSuchField,
    /// The native method is not in the catalog.
    NativeMissing,
    /// The interpreter does not implement this opcode.
    UnsupportedOpcode(u8),
    /// An exception reached the bottom of the frame stack; the payload is the
    /// reference to the exception object.
    UnhandledException(u32),
    /// An instruction needs more operands than the operand stack holds.
    StackUnderflow,
    /// A push would make the operand stack deeper than the method allows.
    StackOverflow,
    /// An index into the local variables is beyond what the method allows.
    BadLocal,
    /// The instruction counter, an operand or a branch target lies outside
    /// the code.
    BadCode,
    /// A reference does not lead to an object of the kind that the
    /// instruction needs.
    BadReference,
    /// The heap cannot hold another object, or an array would be too large.
    OutOfMemory,
    /// The machine was handed something that it did not ask for.
    Unexpected,
}

} // verus!
