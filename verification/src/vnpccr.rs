//! DSI Host Video Null Packet Current Configuration Register
//!
//! The register can be read, written, modified and reset. Its lowest fourteen bits are the field
//! `NPSIZE`, the size of a null packet.
use crate::generic;
use vstd::prelude::*;

verus! {

/// How many values the field `NPSIZE` can have.
pub const NPSIZE_VALUES: u32 = 0x4000;

/// What the field `NPSIZE` holds when the register holds `bits`.
pub open spec fn npsize_of(bits: u32) -> u16 {
    (bits % NPSIZE_VALUES) as u16
}

/// What the register holds once `value` is written to the field `NPSIZE`: of the value as much
/// as the field holds, and otherwise what it held before.
pub open spec fn with_npsize(bits: u32, value: u16) -> u32 {
    (bits - bits % NPSIZE_VALUES + value as u32 % NPSIZE_VALUES) as u32
}

/// The register `VNPCCR`
#[allow(non_camel_case_types)]
pub struct VNPCCR_SPEC;

impl generic::RegisterSpec for VNPCCR_SPEC {
    type Ux = u32;
}

/// A read hands out `R`.
impl generic::Readable for VNPCCR_SPEC {
    type Reader = R;
}

/// A write is built from `W`.
impl generic::Writable for VNPCCR_SPEC {
    type Writer = W;
}

/// A reset sets `VNPCCR` to 0.
impl generic::Resettable for VNPCCR_SPEC {
    open spec fn reset_bits() -> u32 {
        0
    }

    fn reset_value() -> (bits: u32) {
        0
    }
}

/// Reader of the register `VNPCCR`
pub struct R(generic::R<VNPCCR_SPEC>);

impl View for R {
    type V = u32;

    closed spec fn view(&self) -> u32 {
        self.0.bits
    }
}

impl core::ops::Deref for R {
    type Target = generic::R<VNPCCR_SPEC>;

    fn deref(&self) -> (res: &generic::R<VNPCCR_SPEC>)
        ensures
            res.bits == self@,
    {
        &self.0
    }
}

impl From<generic::R<VNPCCR_SPEC>> for R {
    fn from(reader: generic::R<VNPCCR_SPEC>) -> (res: Self)
        ensures
            res@ == reader.bits,
    {
        R(reader)
    }
}

impl vstd::std_specs::convert::FromSpecImpl<generic::R<VNPCCR_SPEC>> for R {
    open spec fn obeys_from_spec() -> bool {
        true
    }

    closed spec fn from_spec(reader: generic::R<VNPCCR_SPEC>) -> Self {
        R(reader)
    }
}

/// Writer of the register `VNPCCR`
pub struct W(generic::W<VNPCCR_SPEC>);

impl View for W {
    type V = u32;

    closed spec fn view(&self) -> u32 {
        self.0.bits
    }
}

impl core::ops::Deref for W {
    type Target = generic::W<VNPCCR_SPEC>;

    fn deref(&self) -> (res: &generic::W<VNPCCR_SPEC>)
        ensures
            res.bits == self@,
    {
        &self.0
    }
}

impl core::ops::DerefMut for W {
    fn deref_mut(&mut self) -> (res: &mut generic::W<VNPCCR_SPEC>)
        ensures
            res.bits == old(self)@,
            final(self)@ == final(res).bits,
    {
        &mut self.0
    }
}

impl From<generic::W<VNPCCR_SPEC>> for W {
    fn from(writer: generic::W<VNPCCR_SPEC>) -> (res: Self)
        ensures
            res@ == writer.bits,
    {
        W(writer)
    }
}

impl vstd::std_specs::convert::FromSpecImpl<generic::W<VNPCCR_SPEC>> for W {
    open spec fn obeys_from_spec() -> bool {
        true
    }

    closed spec fn from_spec(writer: generic::W<VNPCCR_SPEC>) -> Self {
        W(writer)
    }
}

/// Reader of the field `NPSIZE` - Null Packet Size
#[allow(non_camel_case_types)]
pub struct NPSIZE_R(generic::FieldReader<u16>);

impl View for NPSIZE_R {
    type V = u16;

    closed spec fn view(&self) -> u16 {
        self.0.bits
    }
}

impl NPSIZE_R {
    pub(crate) fn new(bits: u16) -> (res: Self)
        ensures
            res@ == bits,
    {
        NPSIZE_R(generic::FieldReader::new(bits))
    }
}

impl core::ops::Deref for NPSIZE_R {
    type Target = generic::FieldReader<u16>;

    fn deref(&self) -> (res: &generic::FieldReader<u16>)
        ensures
            res.bits == self@,
    {
        &self.0
    }
}

/// Writer of the field `NPSIZE` - Null Packet Size
#[allow(non_camel_case_types)]
pub struct NPSIZE_W<'a> {
    w: &'a mut W,
}

impl<'a> NPSIZE_W<'a> {
    /// The writer of the register that the field belongs to.
    pub closed spec fn writer(self) -> &'a mut W {
        self.w
    }

    /// Writes raw bits to the field
    pub fn bits(self, value: u16) -> (res: &'a mut W)
        ensures
            res@ == with_npsize(old(self.writer())@, value),
            *final(res) == *final(self.writer()),
    {
        let bits: u32 = self.w.0.bits;
        assert((bits & !0x3fff) | (value as u32 & 0x3fff) == bits - bits % 0x4000 + value as u32
            % 0x4000) by (bit_vector);
        self.w.0.bits = (bits & !0x3fff) | (value as u32 & 0x3fff);
        self.w
    }
}

impl R {
    /// Bits 0:13 - Null Packet Size
    pub fn npsize(&self) -> (res: NPSIZE_R)
        ensures
            res@ == npsize_of(self@),
    {
        let bits: u32 = self.0.bits;
        assert(bits & 0x3fff == bits % 0x4000) by (bit_vector);
        NPSIZE_R::new((bits & 0x3fff) as u16)
    }
}

impl W {
    /// Bits 0:13 - Null Packet Size
    pub fn npsize(&mut self) -> (res: NPSIZE_W<'_>)
        ensures
            *res.writer() == *old(self),
            *final(self) == *final(res.writer()),
    {
        NPSIZE_W { w: self }
    }

    /// Writes raw bits to the register.
    pub fn bits(&mut self, bits: u32) -> (res: &mut Self)
        ensures
            res@ == bits,
            *final(self) == *final(res),
    {
        self.0.bits(bits);
        self
    }
}

/// Reading the field gives back what was written to it, as far as the field holds it.
pub proof fn lemma_read_gives_back_write(bits: u32, value: u16)
    ensures
        npsize_of(with_npsize(bits, value)) == value % 0x4000,
        value < NPSIZE_VALUES ==> npsize_of(with_npsize(bits, value)) == value,
{
    assert((bits - bits % 0x4000 + value as u32 % 0x4000) as u32 % 0x4000 == value as u32 % 0x4000)
        by (bit_vector);
}

/// Writing to the field leaves the register's other bits as they are.
pub proof fn lemma_other_bits_are_kept(bits: u32, value: u16)
    ensures
        with_npsize(bits, value) / NPSIZE_VALUES == bits / NPSIZE_VALUES,
{
    assert((bits - bits % 0x4000 + value as u32 % 0x4000) as u32 / 0x4000 == bits / 0x4000)
        by (bit_vector);
}

/// Of two writes to the field the second counts.
pub proof fn lemma_last_write_counts(bits: u32, first: u16, second: u16)
    ensures
        with_npsize(with_npsize(bits, first), second) == with_npsize(bits, second),
{
    lemma_read_gives_back_write(bits, first);
    lemma_other_bits_are_kept(bits, first);
}

/// Writing to the field what it holds changes nothing.
pub proof fn lemma_rewrite_changes_nothing(bits: u32)
    ensures
        with_npsize(bits, npsize_of(bits)) == bits,
{
}

} // verus!
