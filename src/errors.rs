use vstd::prelude::*;

verus! {

/// Why a text could not be read as a color.
#[derive(Clone, Copy, Debug, PartialEq, Eq, Structural)]
pub enum RgbaParseErrorKind {
    /// The text after `#` is not a hexadecimal number that fits in 32 bits.
    HexParse,
    /// The text does not start with `#`.
    Unrecognized,
}

/// The error returned when a text cannot be read as a color.
#[derive(Clone, Copy, Debug, PartialEq, Eq, Structural)]
pub struct RgbaParseError {
    pub kind: RgbaParseErrorKind,
}

impl RgbaParseError {
    pub fn kind(&self) -> (r: RgbaParseErrorKind)
        ensures
            r == self.kind,
    {
        self.kind
    }

    /// A sentence that describes the error.
    pub fn message(&self) -> String {
        match self.kind {
            RgbaParseErrorKind::HexParse => "Error when parsing color as a hexadecimal number".to_owned(),
            RgbaParseErrorKind::Unrecognized => "Unrecognized color option".to_owned(),
        }
    }
}

} // verus!
