//! The six PNM kinds and their magic names.

use vstd::prelude::*;
use vstd::string::StrSliceExecFns;
use crate::text::digit_char;
use super::error::{PnmError, PnmResult};

verus! {

broadcast use vstd::string::group_string_axioms;

/// A PNM kind, named by the magic line of its file.
#[derive(Copy, Clone, Debug, PartialEq, Eq, Structural)]
pub enum PnmKind {
    /// ASCII bitmap
    P1,
    /// ASCII graymap
    P2,
    /// ASCII pixmap
    P3,
    /// Binary bitmap
    P4,
    /// Binary graymap
    P5,
    /// Binary pixmap
    P6,
}

impl PnmKind {
    /// The number in the magic name, 1 to 6.
    pub open spec fn number(self) -> nat {
        match self {
            PnmKind::P1 => 1,
            PnmKind::P2 => 2,
            PnmKind::P3 => 3,
            PnmKind::P4 => 4,
            PnmKind::P5 => 5,
            PnmKind::P6 => 6,
        }
    }

    /// The magic name, such as `P6`.
    pub open spec fn name(self) -> Seq<char> {
        seq!['P', digit_char(self.number() as int)]
    }

    pub open spec fn spec_is_ascii(self) -> bool {
        self.number() <= 3
    }

    pub open spec fn spec_is_pbm(self) -> bool {
        self == PnmKind::P1 || self == PnmKind::P4
    }

    pub open spec fn spec_is_pgm(self) -> bool {
        self == PnmKind::P2 || self == PnmKind::P5
    }

    pub open spec fn spec_is_ppm(self) -> bool {
        self == PnmKind::P3 || self == PnmKind::P6
    }

    /// The file extension of the kind's format.
    pub open spec fn extension_name(self) -> Seq<char> {
        if self.spec_is_pbm() {
            "pbm"@
        } else if self.spec_is_pgm() {
            "pgm"@
        } else {
            "ppm"@
        }
    }

    /// The kind whose magic name is `s`, if any.
    pub open spec fn from_name_spec(s: Seq<char>) -> Option<PnmKind> {
        if s.len() == 2 && s[0] == 'P' && '1' <= s[1] <= '6' {
            Some(
                if s[1] == '1' { PnmKind::P1 } else if s[1] == '2' { PnmKind::P2 }
                else if s[1] == '3' { PnmKind::P3 } else if s[1] == '4' { PnmKind::P4 }
                else if s[1] == '5' { PnmKind::P5 } else { PnmKind::P6 },
            )
        } else {
            None
        }
    }

    /// Returns `true` if the PNM kind is ASCII.
    pub fn is_ascii(&self) -> (r: bool)
        ensures
            r == self.spec_is_ascii(),
    {
        matches!(self, PnmKind::P1 | PnmKind::P2 | PnmKind::P3)
    }

    /// Returns `true` if the PNM kind is binary.
    pub fn is_binary(&self) -> (r: bool)
        ensures
            r == !self.spec_is_ascii(),
    {
        matches!(self, PnmKind::P4 | PnmKind::P5 | PnmKind::P6)
    }

    /// Returns `true` if the PNM kind is PBM.
    pub fn is_pbm(&self) -> (r: bool)
        ensures
            r == self.spec_is_pbm(),
    {
        matches!(self, PnmKind::P1 | PnmKind::P4)
    }

    /// Returns `true` if the PNM kind is PGM.
    pub fn is_pgm(&self) -> (r: bool)
        ensures
            r == self.spec_is_pgm(),
    {
        matches!(self, PnmKind::P2 | PnmKind::P5)
    }

    /// Returns `true` if the PNM kind is PPM.
    pub fn is_ppm(&self) -> (r: bool)
        ensures
            r == self.spec_is_ppm(),
    {
        matches!(self, PnmKind::P3 | PnmKind::P6)
    }

    /// The file extension: `pbm`, `pgm` or `ppm`.
    pub fn extension(&self) -> (r: &'static str)
        ensures
            r@ == self.extension_name(),
    {
        match self {
            PnmKind::P1 | PnmKind::P4 => "pbm",
            PnmKind::P2 | PnmKind::P5 => "pgm",
            PnmKind::P3 | PnmKind::P6 => "ppm",
        }
    }

    /// The magic name as a string slice, such as `"P6"`.
    pub fn as_str(&self) -> (r: &'static str)
        ensures
            r@ == self.name(),
    {
        proof {
            reveal_strlit("P1"); reveal_strlit("P2"); reveal_strlit("P3");
            reveal_strlit("P4"); reveal_strlit("P5"); reveal_strlit("P6");
        }
        match self {
            PnmKind::P1 => "P1",
            PnmKind::P2 => "P2",
            PnmKind::P3 => "P3",
            PnmKind::P4 => "P4",
            PnmKind::P5 => "P5",
            PnmKind::P6 => "P6",
        }
    }

    /// The magic name, as `Display` would write it.
    pub fn to_string(&self) -> (r: String)
        ensures
            r@ == self.name(),
    {
        self.as_str().to_string()
    }

    /// The kind whose magic name is `s`; `UnknownKind(s)` otherwise.
    pub fn from_name(s: &str) -> (r: PnmResult<PnmKind>)
        ensures
            match PnmKind::from_name_spec(s@) {
                Some(k) => r == Ok::<PnmKind, PnmError>(k),
                None => r matches Err(PnmError::UnknownKind(m)) && m@ == s@,
            },
    {
        if s.unicode_len() == 2 && s.get_char(0) == 'P' {
            let c = s.get_char(1);
            if c == '1' {
                return Ok(PnmKind::P1);
            } else if c == '2' {
                return Ok(PnmKind::P2);
            } else if c == '3' {
                return Ok(PnmKind::P3);
            } else if c == '4' {
                return Ok(PnmKind::P4);
            } else if c == '5' {
                return Ok(PnmKind::P5);
            } else if c == '6' {
                return Ok(PnmKind::P6);
            }
        }
        Err(PnmError::UnknownKind(s.to_string()))
    }
}

impl std::str::FromStr for PnmKind {
    type Err = PnmError;

    /// The kind whose magic name is `s`; `UnknownKind(s)` otherwise.
    fn from_str(s: &str) -> (r: Result<Self, Self::Err>)
        ensures
            match PnmKind::from_name_spec(s@) {
                Some(k) => r == Ok::<PnmKind, PnmError>(k),
                None => r matches Err(PnmError::UnknownKind(m)) && m@ == s@,
            },
    {
        PnmKind::from_name(s)
    }
}

} // verus!
