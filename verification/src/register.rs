use vstd::prelude::*;

verus! {

/// Encoding of a register operand: the top three bits select the view
/// (word, half, byte, stack pointer, context, instruction pointer, memory-context)
/// and the low four bits select one of the sixteen general registers.
#[derive(Clone, Copy, PartialEq, Eq, Structural, Debug)]
pub struct RegisterEncoding(pub u8);

/// Bits of the encoding that select the view.
pub const VIEW_MASK: u8 = 0xE0;
/// Bits of the encoding that select the general register.
pub const INDEX_MASK: u8 = 0x0F;
/// 32-bit view of a general register.
pub const VIEW_RW: u8 = 0x20;
/// Low 16-bit view of a general register.
pub const VIEW_RH: u8 = 0x40;
/// Low 8-bit view of a general register.
pub const VIEW_RB: u8 = 0x60;
/// The stack pointer.
pub const VIEW_SP: u8 = 0x80;
/// The context register (privileged).
pub const VIEW_CR: u8 = 0xA0;
/// The instruction pointer (privileged).
pub const VIEW_IP: u8 = 0xC0;
/// The memory-mapping context register (privileged).
pub const VIEW_MR: u8 = 0xE0;

/// View bits of an encoding byte.
pub open spec fn view_of(b: u8) -> u8 {
    b & VIEW_MASK
}

/// Register index bits of an encoding byte.
pub open spec fn index_of(b: u8) -> u8 {
    b & INDEX_MASK
}

/// An encoding byte is valid when its view is one of the seven defined views.
pub open spec fn valid_view(v: u8) -> bool {
    v == VIEW_RW || v == VIEW_RH || v == VIEW_RB || v == VIEW_SP || v == VIEW_CR || v == VIEW_IP
        || v == VIEW_MR
}

/// Width in bytes of a valid view.
pub open spec fn view_width(v: u8) -> u8 {
    if v == VIEW_RH {
        2
    } else if v == VIEW_RB {
        1
    } else {
        4
    }
}

/// The register index of an encoding names one of the sixteen general registers.
pub proof fn lemma_index_bound(b: u8)
    ensures
        index_of(b) < 16,
{
    assert((b & 0x0F) < 16) by (bit_vector);
}

proof fn lemma_view_bits(b: u8)
    ensures
        (b & 0xE0) == 0x00 || (b & 0xE0) == 0x20 || (b & 0xE0) == 0x40 || (b & 0xE0) == 0x60 || (b
            & 0xE0) == 0x80 || (b & 0xE0) == 0xA0 || (b & 0xE0) == 0xC0 || (b & 0xE0) == 0xE0,
        (b & 0x0F) < 16,
{
    assert((b & 0xE0) == 0x00 || (b & 0xE0) == 0x20 || (b & 0xE0) == 0x40 || (b & 0xE0) == 0x60
        || (b & 0xE0) == 0x80 || (b & 0xE0) == 0xA0 || (b & 0xE0) == 0xC0 || (b & 0xE0) == 0xE0)
        by (bit_vector);
    assert((b & 0x0F) < 16) by (bit_vector);
}

impl RegisterEncoding {
    /// The view bits of this register.
    pub open spec fn view_bits(self) -> u8 {
        view_of(self.0)
    }

    /// The general-register index of this register.
    pub open spec fn index_bits(self) -> u8 {
        index_of(self.0)
    }

    /// Whether the encoding names a defined register view.
    pub open spec fn is_valid(self) -> bool {
        valid_view(self.view_bits())
    }

    /// Width in bytes of the register (valid encodings only).
    pub open spec fn width(self) -> u8 {
        view_width(self.view_bits())
    }

    /// 32-bit view of general register `index`.
    pub fn rw(index: u8) -> (r: Self)
        requires
            index < 16,
        ensures
            r.view_bits() == VIEW_RW,
            r.index_bits() == index,
            r.0 == 0x20 + index,
    {
        assert(index < 16 ==> (0x20u8 | (index & 0x0F)) & 0xE0 == 0x20 && (0x20u8 | (index & 0x0F))
            & 0x0F == index && (0x20u8 | (index & 0x0F)) == 0x20 + index) by (bit_vector);
        Self(VIEW_RW | (index & INDEX_MASK))
    }

    /// Low 16-bit view of general register `index`.
    pub fn rh(index: u8) -> (r: Self)
        requires
            index < 16,
        ensures
            r.view_bits() == VIEW_RH,
            r.index_bits() == index,
            r.0 == 0x40 + index,
    {
        assert(index < 16 ==> (0x40u8 | (index & 0x0F)) & 0xE0 == 0x40 && (0x40u8 | (index & 0x0F))
            & 0x0F == index && (0x40u8 | (index & 0x0F)) == 0x40 + index) by (bit_vector);
        Self(VIEW_RH | (index & INDEX_MASK))
    }

    /// Low 8-bit view of general register `index`.
    pub fn rb(index: u8) -> (r: Self)
        requires
            index < 16,
        ensures
            r.view_bits() == VIEW_RB,
            r.index_bits() == index,
            r.0 == 0x60 + index,
    {
        assert(index < 16 ==> (0x60u8 | (index & 0x0F)) & 0xE0 == 0x60 && (0x60u8 | (index & 0x0F))
            & 0x0F == index && (0x60u8 | (index & 0x0F)) == 0x60 + index) by (bit_vector);
        Self(VIEW_RB | (index & INDEX_MASK))
    }

    /// The stack pointer.
    pub fn sp() -> (r: Self)
        ensures
            r.0 == VIEW_SP,
            r.view_bits() == VIEW_SP,
    {
        assert(0x80u8 & 0xE0 == 0x80) by (bit_vector);
        Self(VIEW_SP)
    }

    /// The context register.
    pub fn cr() -> (r: Self)
        ensures
            r.0 == VIEW_CR,
            r.view_bits() == VIEW_CR,
    {
        assert(0xA0u8 & 0xE0 == 0xA0) by (bit_vector);
        Self(VIEW_CR)
    }

    /// The instruction pointer.
    pub fn ip() -> (r: Self)
        ensures
            r.0 == VIEW_IP,
            r.view_bits() == VIEW_IP,
    {
        assert(0xC0u8 & 0xE0 == 0xC0) by (bit_vector);
        Self(VIEW_IP)
    }

    /// The memory-mapping context register.
    pub fn mr() -> (r: Self)
        ensures
            r.0 == VIEW_MR,
            r.view_bits() == VIEW_MR,
    {
        assert(0xE0u8 & 0xE0 == 0xE0) by (bit_vector);
        Self(VIEW_MR)
    }

    /// The view bits of the encoding.
    pub fn view(self) -> (v: u8)
        ensures
            v == self.view_bits(),
    {
        self.0 & VIEW_MASK
    }

    /// The general-register index of the encoding.
    pub fn index(self) -> (i: u8)
        ensures
            i == self.index_bits(),
            i < 16,
    {
        proof {
            lemma_view_bits(self.0);
        }
        self.0 & INDEX_MASK
    }

    /// Whether this is a 32-bit general-register view.
    pub fn is_rw(self) -> (b: bool)
        ensures
            b == (self.view_bits() == VIEW_RW),
    {
        self.view() == VIEW_RW
    }

    /// Whether this is a 16-bit general-register view.
    pub fn is_rh(self) -> (b: bool)
        ensures
            b == (self.view_bits() == VIEW_RH),
    {
        self.view() == VIEW_RH
    }

    /// Whether this is an 8-bit general-register view.
    pub fn is_rb(self) -> (b: bool)
        ensures
            b == (self.view_bits() == VIEW_RB),
    {
        self.view() == VIEW_RB
    }

    /// Whether this is the stack pointer.
    pub fn is_sp(self) -> (b: bool)
        ensures
            b == (self.view_bits() == VIEW_SP),
    {
        self.view() == VIEW_SP
    }

    /// Whether this is the instruction pointer.
    pub fn is_ip(self) -> (b: bool)
        ensures
            b == (self.view_bits() == VIEW_IP),
    {
        self.view() == VIEW_IP
    }

    /// Whether this is the memory-mapping context register.
    pub fn is_mr(self) -> (b: bool)
        ensures
            b == (self.view_bits() == VIEW_MR),
    {
        self.view() == VIEW_MR
    }

    /// Whether this is the context register.
    pub fn is_cr(self) -> (b: bool)
        ensures
            b == (self.view_bits() == VIEW_CR),
    {
        self.view() == VIEW_CR
    }

    /// Whether the encoding names one of the defined register views.
    pub fn is_defined(self) -> (b: bool)
        ensures
            b == self.is_valid(),
    {
        let v = self.view();
        v == VIEW_RW || v == VIEW_RH || v == VIEW_RB || v == VIEW_SP || v == VIEW_CR || v == VIEW_IP
            || v == VIEW_MR
    }

    /// Privileged registers are the context register, the instruction pointer and the
    /// memory-mapping context register.
    pub fn is_privileged(self) -> (b: bool)
        ensures
            b == (self.view_bits() == VIEW_CR || self.view_bits() == VIEW_IP || self.view_bits()
                == VIEW_MR),
    {
        let v = self.view();
        v == VIEW_CR || v == VIEW_IP || v == VIEW_MR
    }

    /// Width in bytes of the register: 4 for word views and special registers,
    /// 2 for half views, 1 for byte views.
    pub fn width_bytes(self) -> (w: u8)
        requires
            self.is_valid(),
        ensures
            w == self.width(),
            w == 1 || w == 2 || w == 4,
    {
        let v = self.view();
        if v == VIEW_RH {
            2
        } else if v == VIEW_RB {
            1
        } else {
            4
        }
    }

    /// Decodes an encoding byte: `Some` exactly when its view is one of the defined views.
    pub fn from_byte(byte: u8) -> (r: Option<Self>)
        ensures
            r.is_some() <==> valid_view(view_of(byte)),
            r.is_some() ==> r.unwrap().0 == byte,
    {
        let view = byte & VIEW_MASK;
        if view == VIEW_RW || view == VIEW_RH || view == VIEW_RB || view == VIEW_SP || view
            == VIEW_CR || view == VIEW_IP || view == VIEW_MR {
            Some(Self(byte))
        } else {
            None
        }
    }
}


/// How a register encoding is shown: `rw`, `rh` or `rb` followed by the register number,
/// `sp`, `cr`, `ip`, `mr`, or `Register(0x..)` with the byte in hexadecimal for an
/// undefined view.
pub open spec fn register_text(r: RegisterEncoding) -> Seq<char> {
    let v = view_of(r.0);
    let n = crate::text::decimal(index_of(r.0) as nat);
    if v == VIEW_RW {
        "rw"@ + n
    } else if v == VIEW_RH {
        "rh"@ + n
    } else if v == VIEW_RB {
        "rb"@ + n
    } else if v == VIEW_SP {
        "sp"@
    } else if v == VIEW_CR {
        "cr"@
    } else if v == VIEW_IP {
        "ip"@
    } else if v == VIEW_MR {
        "mr"@
    } else {
        "Register(0x"@ + crate::text::hex2(r.0) + ")"@
    }
}

impl RegisterEncoding {
    /// The register's name (see `register_text`).
    pub fn describe(self) -> (s: String)
        ensures
            s@ == register_text(self),
    {
        let v = self.0 & VIEW_MASK;
        let i = self.0 & INDEX_MASK;
        if v == VIEW_RW || v == VIEW_RH || v == VIEW_RB {
            let mut s = if v == VIEW_RW {
                crate::text::owned("rw")
            } else if v == VIEW_RH {
                crate::text::owned("rh")
            } else {
                crate::text::owned("rb")
            };
            crate::text::push_decimal(&mut s, i as u32);
            s
        } else if v == VIEW_SP {
            crate::text::owned("sp")
        } else if v == VIEW_CR {
            crate::text::owned("cr")
        } else if v == VIEW_IP {
            crate::text::owned("ip")
        } else if v == VIEW_MR {
            crate::text::owned("mr")
        } else {
            let mut s = crate::text::owned("Register(0x");
            crate::text::push_hex2(&mut s, self.0);
            crate::text::concat(s, ")")
        }
    }
}

} // verus!
