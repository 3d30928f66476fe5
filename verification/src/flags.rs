//! The condition flags of a register file.
use vstd::prelude::*;

verus! {

/// One condition flag.
#[derive(Clone, Copy, PartialEq, Eq, Structural, Debug)]
pub enum Flag {
    Zero,
    Negative,
    Carry,
    Overflow,
}

/// Bit of a flag within the flags byte.
pub open spec fn flag_bit(f: Flag) -> u8 {
    match f {
        Flag::Zero => 1,
        Flag::Negative => 2,
        Flag::Carry => 4,
        Flag::Overflow => 8,
    }
}

/// The four condition flags, one bit each in the low nibble.
#[derive(Clone, Copy, Debug)]
pub struct Flags(pub u8);

impl Flags {
    /// Whether a flag is set.
    pub open spec fn has(self, f: Flag) -> bool {
        self.0 & flag_bit(f) != 0
    }

    /// Only the four flag bits are used.
    pub open spec fn wf(self) -> bool {
        self.0 < 16
    }

    /// No flag set.
    pub fn new() -> (r: Self)
        ensures
            r.wf(),
            r.0 == 0,
            forall|f: Flag| !r.has(f),
    {
        proof {
            assert forall|f: Flag| !Flags(0).has(f) by {
                let b = flag_bit(f);
                assert(0u8 & b == 0) by (bit_vector);
            }
        }
        Flags(0)
    }

    /// Flags from a byte; bits above the four flags are dropped.
    pub fn from_bits(bits: u8) -> (r: Self)
        ensures
            r.wf(),
            r.0 == bits & 0x0F,
    {
        assert(bits & 0x0F < 16) by (bit_vector);
        Flags(bits & 0x0F)
    }

    /// The flags as a byte (only the four flag bits).
    pub fn bits(self) -> (b: u8)
        ensures
            b == self.0 & 0x0F,
            b < 16,
    {
        let v = self.0;
        assert(v & 0x0F < 16) by (bit_vector);
        v & 0x0F
    }

    /// Sets one flag.
    pub fn set(&mut self, flag: Flag)
        requires
            old(self).wf(),
        ensures
            final(self).wf(),
            final(self).has(flag),
            forall|g: Flag| g != flag ==> (final(self).has(g) == old(self).has(g)),
    {
        let b: u8 = match flag {
            Flag::Zero => 1,
            Flag::Negative => 2,
            Flag::Carry => 4,
            Flag::Overflow => 8,
        };
        let v = self.0;
        proof {
            assert forall|g: Flag| g != flag implies ((v | b) & flag_bit(g) != 0) == (v & flag_bit(g) != 0) by {
                let c = flag_bit(g);
                assert(b == 1 || b == 2 || b == 4 || b == 8);
                assert(c == 1 || c == 2 || c == 4 || c == 8);
                assert(b != c);
                assert((b == 1u8 || b == 2u8 || b == 4u8 || b == 8u8) && (c == 1u8 || c == 2u8 || c == 4u8 || c == 8u8) && b != c ==> (((v | b) & c != 0) == (v & c != 0))) by (bit_vector);
            }
            assert((b == 1u8 || b == 2u8 || b == 4u8 || b == 8u8) ==> (v | b) & b != 0) by (bit_vector);
            assert((b == 1u8 || b == 2u8 || b == 4u8 || b == 8u8) && v < 16 ==> (v | b) < 16) by (bit_vector);
        }
        self.0 = v | b;
    }

    /// Clears one flag.
    pub fn clear(&mut self, flag: Flag)
        requires
            old(self).wf(),
        ensures
            final(self).wf(),
            !final(self).has(flag),
            forall|g: Flag| g != flag ==> (final(self).has(g) == old(self).has(g)),
    {
        let b: u8 = match flag {
            Flag::Zero => 1,
            Flag::Negative => 2,
            Flag::Carry => 4,
            Flag::Overflow => 8,
        };
        let v = self.0;
        proof {
            assert forall|g: Flag| g != flag implies ((v & !b) & flag_bit(g) != 0) == (v & flag_bit(g) != 0) by {
                let c = flag_bit(g);
                assert(b == 1 || b == 2 || b == 4 || b == 8);
                assert(c == 1 || c == 2 || c == 4 || c == 8);
                assert(b != c);
                assert((b == 1u8 || b == 2u8 || b == 4u8 || b == 8u8) && (c == 1u8 || c == 2u8 || c == 4u8 || c == 8u8) && b != c ==> (((v & !b) & c != 0) == (v & c != 0))) by (bit_vector);
            }
            assert((v & !b) & b == 0) by (bit_vector);
            assert(v < 16 ==> (v & !b) < 16) by (bit_vector);
        }
        self.0 = v & !b;
    }

    /// Whether a flag is set.
    pub fn is_set(&self, flag: Flag) -> (r: bool)
        ensures
            r == self.has(flag),
    {
        match flag {
            Flag::Zero => self.0 & 1 != 0,
            Flag::Negative => self.0 & 2 != 0,
            Flag::Carry => self.0 & 4 != 0,
            Flag::Overflow => self.0 & 8 != 0,
        }
    }

    /// Sets the flag when `value` holds, clears it otherwise.
    pub fn assign(&mut self, flag: Flag, value: bool)
        requires
            old(self).wf(),
        ensures
            final(self).wf(),
            final(self).has(flag) == value,
            forall|g: Flag| g != flag ==> (final(self).has(g) == old(self).has(g)),
    {
        if value {
            self.set(flag);
        } else {
            self.clear(flag);
        }
    }
}

/// Reading flags back from their byte gives the same flags.
pub proof fn law_flags_bits_roundtrip(f: Flags)
    requires
        f.wf(),
    ensures
        f.0 & 0x0F == f.0,
        forall|g: Flag| Flags(f.0 & 0x0F).has(g) == f.has(g),
{
    let v = f.0;
    assert(v < 16 ==> v & 0x0F == v) by (bit_vector);
}

/// Setting a flag and then clearing it leaves every other flag as it was, and the flag
/// itself clear.
pub proof fn law_set_then_clear(f: Flags, g: Flags, h: Flags, flag: Flag)
    requires
        f.wf(),
        g.wf(),
        h.wf(),
        g.has(flag),
        forall|x: Flag| x != flag ==> (g.has(x) == f.has(x)),
        !h.has(flag),
        forall|x: Flag| x != flag ==> (h.has(x) == g.has(x)),
    ensures
        !h.has(flag),
        forall|x: Flag| x != flag ==> (h.has(x) == f.has(x)),
{
}


/// `c` when `on`, nothing otherwise.
pub open spec fn letter_if(on: bool, c: char) -> Seq<char> {
    if on {
        seq![c]
    } else {
        seq![]
    }
}

/// How flags are shown: `Flags(` then the letters of the set flags in the order `Z`, `N`,
/// `C`, `O`, then `)`.
pub open spec fn flags_text(f: Flags) -> Seq<char> {
    "Flags("@ + letter_if(f.has(Flag::Zero), 'Z') + letter_if(f.has(Flag::Negative), 'N') + letter_if(
        f.has(Flag::Carry),
        'C',
    ) + letter_if(f.has(Flag::Overflow), 'O') + ")"@
}

impl Flags {
    /// The flags as text, such as `Flags(ZC)` (see `flags_text`).
    pub fn describe(&self) -> (s: String)
        ensures
            s@ == flags_text(*self),
    {
        let mut s = crate::text::owned("Flags(");
        if self.is_set(Flag::Zero) {
            crate::text::push_char(&mut s, 'Z');
        }
        if self.is_set(Flag::Negative) {
            crate::text::push_char(&mut s, 'N');
        }
        if self.is_set(Flag::Carry) {
            crate::text::push_char(&mut s, 'C');
        }
        if self.is_set(Flag::Overflow) {
            crate::text::push_char(&mut s, 'O');
        }
        crate::text::concat(s, ")")
    }
}

} // verus!
