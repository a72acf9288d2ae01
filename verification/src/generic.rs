//! Register values: what was read, what will be written, and one field of it.
use vstd::prelude::*;

verus! {

/// A register of the device, named by a type.
pub trait RegisterSpec: Sized {
    /// The integer that holds the register's bits.
    type Ux;
}

/// A register that can be read.
pub trait Readable: RegisterSpec {
    /// What a read hands out.
    type Reader: From<R<Self>>;
}

/// A register that can be written.
pub trait Writable: RegisterSpec {
    /// What a write is built from.
    type Writer: From<W<Self>>;
}

/// A register with a value after reset.
pub trait Resettable: RegisterSpec {
    /// The bits that a reset leaves.
    spec fn reset_bits() -> Self::Ux;

    /// The bits that a reset leaves.
    fn reset_value() -> (bits: Self::Ux)
        ensures
            bits == Self::reset_bits(),
    ;
}

/// The bits that were read from register `REG`.
pub struct R<REG: RegisterSpec> {
    /// The register's bits.
    pub bits: REG::Ux,
}

/// The bits that will be written to register `REG`.
pub struct W<REG: RegisterSpec> {
    /// The register's bits.
    pub bits: REG::Ux,
}

impl<REG: RegisterSpec> W<REG> {
    /// Sets all the register's bits.
    pub fn bits(&mut self, bits: REG::Ux) -> (res: &mut Self)
        ensures
            res.bits == bits,
            *final(self) == *final(res),
    {
        self.bits = bits;
        self
    }
}

/// The bits of one field of a register.
pub struct FieldReader<U> {
    /// The field's bits, shifted down to bit 0.
    pub bits: U,
}

impl<U> FieldReader<U> {
    /// A field that holds `bits`.
    pub fn new(bits: U) -> (res: Self)
        ensures
            res.bits == bits,
    {
        FieldReader { bits }
    }
}

} // verus!
