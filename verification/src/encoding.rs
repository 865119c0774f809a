use crate::tag::Tag;
use crate::vr::VR;
use vstd::prelude::*;

verus! {

/// The three ways in which a data set is written: with or without value
/// representations, and in either byte order.
#[derive(Clone, Copy, Debug, PartialEq, Eq, Hash, Structural)]
pub enum Encoding {
    ImplicitLittleEndian,
    ExplicitLittleEndian,
    ExplicitBigEndian,
}

/// The input ends before the header does.
#[derive(Clone, Copy, Debug, PartialEq, Eq, Structural)]
pub struct InsufficientBytes;

impl Encoding {
    pub open spec fn is_big_endian(self) -> bool {
        self is ExplicitBigEndian
    }

    pub open spec fn is_explicit(self) -> bool {
        !(self is ImplicitLittleEndian)
    }

    /// The 16-bit number written as the bytes `first`, `second`.
    pub open spec fn spec_u16(self, first: u8, second: u8) -> u16 {
        if self.is_big_endian() {
            (first * 0x100 + second) as u16
        } else {
            (first + second * 0x100) as u16
        }
    }

    /// The 32-bit number written as the four bytes given, in stream order.
    pub open spec fn spec_u32(self, first: u8, second: u8, third: u8, fourth: u8) -> u32 {
        if self.is_big_endian() {
            (first * 0x100_0000 + second * 0x1_0000 + third * 0x100 + fourth) as u32
        } else {
            (first + second * 0x100 + third * 0x1_0000 + fourth * 0x100_0000) as u32
        }
    }

    /// The 16-bit number at offset `at` of `bytes`.
    pub open spec fn u16_at(self, bytes: Seq<u8>, at: int) -> u16 {
        self.spec_u16(bytes[at], bytes[at + 1])
    }

    /// The 32-bit number at offset `at` of `bytes`.
    pub open spec fn u32_at(self, bytes: Seq<u8>, at: int) -> u32 {
        self.spec_u32(bytes[at], bytes[at + 1], bytes[at + 2], bytes[at + 3])
    }

    /// The tag at offset `at` of `bytes`: its group, then its element.
    pub open spec fn tag_at(self, bytes: Seq<u8>, at: int) -> Tag {
        Tag { group: self.u16_at(bytes, at), element: self.u16_at(bytes, at + 2) }
    }

    /// Reads a 16-bit number from its two bytes.
    pub fn u16(&self, bytes: &[u8; 2]) -> (value: u16)
        ensures
            value == self.spec_u16(bytes@[0], bytes@[1]),
    {
        let first: u16 = bytes[0] as u16;
        let second: u16 = bytes[1] as u16;
        match self {
            Encoding::ExplicitBigEndian => first * 0x100 + second,
            _ => first + second * 0x100,
        }
    }

    /// Reads a 32-bit number from its four bytes.
    pub fn u32(&self, bytes: &[u8; 4]) -> (value: u32)
        ensures
            value == self.spec_u32(bytes@[0], bytes@[1], bytes@[2], bytes@[3]),
    {
        let first: u32 = bytes[0] as u32;
        let second: u32 = bytes[1] as u32;
        let third: u32 = bytes[2] as u32;
        let fourth: u32 = bytes[3] as u32;
        match self {
            Encoding::ExplicitBigEndian => {
                first * 0x100_0000 + second * 0x1_0000 + third * 0x100 + fourth
            },
            _ => first + second * 0x100 + third * 0x1_0000 + fourth * 0x100_0000,
        }
    }

    /// Reads the 16-bit number at offset `at`.
    pub(crate) fn read_u16(&self, bytes: &[u8], at: usize) -> (value: u16)
        requires
            at + 2 <= bytes.len(),
        ensures
            value == self.u16_at(bytes@, at as int),
    {
        let first: u16 = bytes[at] as u16;
        let second: u16 = bytes[at + 1] as u16;
        match self {
            Encoding::ExplicitBigEndian => first * 0x100 + second,
            _ => first + second * 0x100,
        }
    }

    /// Reads the 32-bit number at offset `at`.
    pub(crate) fn read_u32(&self, bytes: &[u8], at: usize) -> (value: u32)
        requires
            at + 4 <= bytes.len(),
        ensures
            value == self.u32_at(bytes@, at as int),
    {
        let first: u32 = bytes[at] as u32;
        let second: u32 = bytes[at + 1] as u32;
        let third: u32 = bytes[at + 2] as u32;
        let fourth: u32 = bytes[at + 3] as u32;
        match self {
            Encoding::ExplicitBigEndian => {
                first * 0x100_0000 + second * 0x1_0000 + third * 0x100 + fourth
            },
            _ => first + second * 0x100 + third * 0x1_0000 + fourth * 0x100_0000,
        }
    }

    /// Reads the tag at offset `at`.
    pub(crate) fn read_tag(&self, bytes: &[u8], at: usize) -> (tag: Tag)
        requires
            at + 4 <= bytes.len(),
        ensures
            tag == self.tag_at(bytes@, at as int),
    {
        Tag { group: self.read_u16(bytes, at), element: self.read_u16(bytes, at + 2) }
    }

    /// What follows the four bytes of a tag, as read from a header that
    /// starts at the tag: the value representation, the length of the value
    /// and the number of bytes of the whole header.  `None` where the header
    /// is longer than `bytes`.
    ///
    /// - Implicit: no value representation; a 32-bit length at offset 4; 8
    ///   bytes.
    /// - Explicit, long form: two letters at offset 4, two reserved bytes, a
    ///   32-bit length at offset 8; 12 bytes.
    /// - Explicit, short form: two letters at offset 4, a 16-bit length at
    ///   offset 6; 8 bytes.
    pub open spec fn spec_vr_and_length(self, bytes: Seq<u8>) -> Option<(Option<VR>, u32, nat)> {
        if !self.is_explicit() {
            if bytes.len() < 8 {
                None
            } else {
                Some((None, self.u32_at(bytes, 4), 8nat))
            }
        } else if bytes.len() < 6 {
            None
        } else {
            let vr = VR::spec_from_bytes(bytes[4], bytes[5]);
            if vr.spec_is_long_form() {
                if bytes.len() < 12 {
                    None
                } else {
                    Some((Some(vr), self.u32_at(bytes, 8), 12nat))
                }
            } else {
                if bytes.len() < 8 {
                    None
                } else {
                    Some((Some(vr), self.u16_at(bytes, 6) as u32, 8nat))
                }
            }
        }
    }

    pub fn vr_and_length(&self, bytes: &[u8]) -> (result: Result<
        (Option<VR>, u32, usize),
        InsufficientBytes,
    >)
        ensures
            match result {
                Ok((vr, length, header_bytes)) => self.spec_vr_and_length(bytes@) == Some(
                    (vr, length, header_bytes as nat),
                ),
                Err(_) => self.spec_vr_and_length(bytes@) is None,
            },
    {
        match self {
            Encoding::ImplicitLittleEndian => {
                if bytes.len() < 8 {
                    return Err(InsufficientBytes);
                }
                Ok((None, self.read_u32(bytes, 4), 8))
            },
            _ => {
                if bytes.len() < 6 {
                    return Err(InsufficientBytes);
                }
                let vr = VR::from_bytes(bytes[4], bytes[5]);
                if vr.is_long_form() {
                    if bytes.len() < 12 {
                        return Err(InsufficientBytes);
                    }
                    Ok((Some(vr), self.read_u32(bytes, 8), 12))
                } else {
                    if bytes.len() < 8 {
                        return Err(InsufficientBytes);
                    }
                    Ok((Some(vr), self.read_u16(bytes, 6) as u32, 8))
                }
            },
        }
    }
}

} // verus!
