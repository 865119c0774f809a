use vstd::prelude::*;

verus! {

/// A value representation: the two-letter code that names the lexical type
/// of an attribute's value.  A code outside the known set is kept as it was
/// read.
#[derive(Clone, Copy, Debug, PartialEq, Eq, Hash)]
pub enum VR {
    AE,
    AS,
    AT,
    CS,
    DA,
    DS,
    DT,
    FD,
    FL,
    IS,
    LO,
    LT,
    OB,
    OF,
    OW,
    PN,
    SH,
    SL,
    SQ,
    SS,
    ST,
    TM,
    UI,
    UL,
    UN,
    US,
    UT,
    Unknown { first: u8, second: u8 },
}

impl VR {
    /// The two ASCII letters of the code, in stream order.
    pub open spec fn code(self) -> (u8, u8) {
        match self {
            VR::AE => (0x41u8, 0x45u8),
            VR::AS => (0x41u8, 0x53u8),
            VR::AT => (0x41u8, 0x54u8),
            VR::CS => (0x43u8, 0x53u8),
            VR::DA => (0x44u8, 0x41u8),
            VR::DS => (0x44u8, 0x53u8),
            VR::DT => (0x44u8, 0x54u8),
            VR::FD => (0x46u8, 0x44u8),
            VR::FL => (0x46u8, 0x4Cu8),
            VR::IS => (0x49u8, 0x53u8),
            VR::LO => (0x4Cu8, 0x4Fu8),
            VR::LT => (0x4Cu8, 0x54u8),
            VR::OB => (0x4Fu8, 0x42u8),
            VR::OF => (0x4Fu8, 0x46u8),
            VR::OW => (0x4Fu8, 0x57u8),
            VR::PN => (0x50u8, 0x4Eu8),
            VR::SH => (0x53u8, 0x48u8),
            VR::SL => (0x53u8, 0x4Cu8),
            VR::SQ => (0x53u8, 0x51u8),
            VR::SS => (0x53u8, 0x53u8),
            VR::ST => (0x53u8, 0x54u8),
            VR::TM => (0x54u8, 0x4Du8),
            VR::UI => (0x55u8, 0x49u8),
            VR::UL => (0x55u8, 0x4Cu8),
            VR::UN => (0x55u8, 0x4Eu8),
            VR::US => (0x55u8, 0x53u8),
            VR::UT => (0x55u8, 0x54u8),
            VR::Unknown { first, second } => (first, second),
        }
    }

    /// Whether the value representation is one of the known codes.
    pub open spec fn is_known(self) -> bool {
        !(self is Unknown)
    }

    /// The value representation written as the letters `first`, `second`:
    /// the known code with these letters if there is one, and otherwise the
    /// two bytes themselves.
    pub open spec fn spec_from_bytes(first: u8, second: u8) -> VR {
        if exists|vr: VR| vr.is_known() && #[trigger] vr.code() == (first, second) {
            choose|vr: VR| vr.is_known() && #[trigger] vr.code() == (first, second)
        } else {
            VR::Unknown { first, second }
        }
    }

    /// Two known codes with the same letters are the same code.
    pub proof fn lemma_code_injective(a: VR, b: VR)
        requires
            a.is_known(),
            b.is_known(),
            a.code() == b.code(),
        ensures
            a == b,
    {
    }

    /// Reading a code back from its own letters gives the same code.
    pub proof fn lemma_from_bytes_of_code(vr: VR)
        requires
            vr.is_known(),
        ensures
            VR::spec_from_bytes(vr.code().0, vr.code().1) == vr,
    {
        let (first, second) = vr.code();
        let found = choose|other: VR| other.is_known() && #[trigger] other.code() == (first, second);
        Self::lemma_code_injective(found, vr);
    }

    /// The letters of what was read are the letters that were given.
    pub proof fn lemma_code_of_from_bytes(first: u8, second: u8)
        ensures
            VR::spec_from_bytes(first, second).code() == (first, second),
    {
    }

    #[verifier::when_used_as_spec(spec_from_bytes)]
    pub fn from_bytes(first: u8, second: u8) -> (vr: VR)
        ensures
            vr == VR::spec_from_bytes(first, second),
    {
        let vr = match (first, second) {
            (0x41u8, 0x45u8) => VR::AE,
            (0x41u8, 0x53u8) => VR::AS,
            (0x41u8, 0x54u8) => VR::AT,
            (0x43u8, 0x53u8) => VR::CS,
            (0x44u8, 0x41u8) => VR::DA,
            (0x44u8, 0x53u8) => VR::DS,
            (0x44u8, 0x54u8) => VR::DT,
            (0x46u8, 0x44u8) => VR::FD,
            (0x46u8, 0x4Cu8) => VR::FL,
            (0x49u8, 0x53u8) => VR::IS,
            (0x4Cu8, 0x4Fu8) => VR::LO,
            (0x4Cu8, 0x54u8) => VR::LT,
            (0x4Fu8, 0x42u8) => VR::OB,
            (0x4Fu8, 0x46u8) => VR::OF,
            (0x4Fu8, 0x57u8) => VR::OW,
            (0x50u8, 0x4Eu8) => VR::PN,
            (0x53u8, 0x48u8) => VR::SH,
            (0x53u8, 0x4Cu8) => VR::SL,
            (0x53u8, 0x51u8) => VR::SQ,
            (0x53u8, 0x53u8) => VR::SS,
            (0x53u8, 0x54u8) => VR::ST,
            (0x54u8, 0x4Du8) => VR::TM,
            (0x55u8, 0x49u8) => VR::UI,
            (0x55u8, 0x4Cu8) => VR::UL,
            (0x55u8, 0x4Eu8) => VR::UN,
            (0x55u8, 0x53u8) => VR::US,
            (0x55u8, 0x54u8) => VR::UT,
            _ => VR::Unknown { first, second },
        };
        proof {
            if vr.is_known() {
                assert(vr.code() == (first, second));
                Self::lemma_from_bytes_of_code(vr);
            } else {
                assert forall|other: VR| other.is_known() implies #[trigger] other.code() != (
                    first,
                    second,
                ) by {}
            }
        }
        vr
    }

    /// In an explicit encoding these value representations are followed by
    /// two reserved bytes and a 32-bit length; every other one by a 16-bit
    /// length.
    pub open spec fn spec_is_long_form(&self) -> bool {
        *self is OB || *self is OW || *self is OF || *self is SQ || *self is UT || *self is UN
    }

    #[verifier::when_used_as_spec(spec_is_long_form)]
    pub fn is_long_form(&self) -> (b: bool)
        ensures
            b == self.spec_is_long_form(),
    {
        match self {
            VR::OB | VR::OW | VR::OF | VR::SQ | VR::UT | VR::UN => true,
            _ => false,
        }
    }

    pub open spec fn spec_is_sequence(&self) -> bool {
        *self is SQ
    }

    #[verifier::when_used_as_spec(spec_is_sequence)]
    pub fn is_sequence(&self) -> (b: bool)
        ensures
            b == self.spec_is_sequence(),
    {
        match self {
            VR::SQ => true,
            _ => false,
        }
    }
}

} // verus!
