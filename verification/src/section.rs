use vstd::prelude::*;

verus! {

/// The three sections of an object file, in their on-disk order.
#[derive(Clone, Copy, PartialEq, Eq, Structural, Debug)]
pub enum Section {
    RoData,
    Code,
    Data,
}

impl Section {
    /// Byte that stands for the section in the relocation table.
    pub open spec fn code_of(self) -> u8 {
        match self {
            Section::RoData => 0,
            Section::Code => 1,
            Section::Data => 2,
        }
    }

    /// Byte that stands for the section in the relocation table.
    pub fn as_byte(self) -> (b: u8)
        ensures
            b == self.code_of(),
    {
        match self {
            Section::RoData => 0,
            Section::Code => 1,
            Section::Data => 2,
        }
    }

    /// The section a relocation byte stands for; `None` for any byte above 2.
    pub fn from_byte(b: u8) -> (r: Option<Section>)
        ensures
            r.is_some() <==> b < 3,
            r.is_some() ==> r.unwrap().code_of() == b,
    {
        if b == 0 {
            Some(Section::RoData)
        } else if b == 1 {
            Some(Section::Code)
        } else if b == 2 {
            Some(Section::Data)
        } else {
            None
        }
    }

    /// Index of the section in section-ordered tables.
    pub fn index(self) -> (i: usize)
        ensures
            i == self.code_of(),
    {
        match self {
            Section::RoData => 0,
            Section::Code => 1,
            Section::Data => 2,
        }
    }
}

/// Every section byte decodes back to its section.
pub proof fn law_section_byte_roundtrip(s: Section)
    ensures
        s.code_of() < 3,
        forall|t: Section| t.code_of() == s.code_of() ==> t == s,
{
}

} // verus!
