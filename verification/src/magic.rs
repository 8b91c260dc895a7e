use vstd::prelude::*;

verus! {

/// The four-byte signatures that open the records of an archive.
#[derive(Debug, Clone, Copy, PartialEq, Eq, Structural)]
pub enum Magic {
    /// End of central directory, `PK\x05\x06`.
    EoCd,
    /// Central directory entry, `PK\x01\x02`.
    Directory,
    /// Local file header, `PK\x03\x04`.
    File,
}

impl Magic {
    /// The signature as the number that its four little-endian bytes spell.
    pub open spec fn value(self) -> u32 {
        match self {
            Magic::EoCd => 0x06054b50,
            Magic::Directory => 0x02014b50,
            Magic::File => 0x04034b50,
        }
    }

    /// The signature that a number stands for, if any.
    pub open spec fn of(v: u32) -> Option<Magic> {
        if v == 0x06054b50 {
            Some(Magic::EoCd)
        } else if v == 0x02014b50 {
            Some(Magic::Directory)
        } else if v == 0x04034b50 {
            Some(Magic::File)
        } else {
            None
        }
    }

    /// The width of a signature on the wire.
    pub fn byte_size() -> (n: usize)
        ensures
            n == 4,
    {
        4
    }

    /// The signature as the number that its four little-endian bytes spell.
    pub fn number(&self) -> (v: u32)
        ensures
            v == self.value(),
    {
        match self {
            Magic::EoCd => 0x06054b50,
            Magic::Directory => 0x02014b50,
            Magic::File => 0x04034b50,
        }
    }

    /// The signature that a number stands for, if any.
    pub fn from_number(v: u32) -> (m: Option<Magic>)
        ensures
            m == Magic::of(v),
    {
        if v == 0x06054b50 {
            Some(Magic::EoCd)
        } else if v == 0x02014b50 {
            Some(Magic::Directory)
        } else if v == 0x04034b50 {
            Some(Magic::File)
        } else {
            None
        }
    }
}

impl From<Magic> for u32 {
    /// The signature as the number that its four little-endian bytes spell.
    fn from(m: Magic) -> (v: u32) {
        m.number()
    }
}

impl vstd::std_specs::convert::FromSpecImpl<Magic> for u32 {
    open spec fn obeys_from_spec() -> bool {
        true
    }

    open spec fn from_spec(m: Magic) -> u32 {
        m.value()
    }
}

} // verus!
