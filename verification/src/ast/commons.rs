//! Small value types shared by several commands.

use vstd::prelude::*;

verus! {

/// 1-D barcode symbologies that share the generic rendering pipeline.
#[derive(Debug, Clone, Copy, PartialEq, Eq, Hash, Structural)]
pub enum Barcode1DKind {
    /// `^BE` — EAN-13 (retail).
    Ean13,
    /// `^B8` — EAN-8 (short retail).
    Ean8,
    /// `^BU` — UPC-A (retail).
    UpcA,
    /// `^B9` — UPC-E (zero-suppressed retail).
    UpcE,
    /// `^B2` — Interleaved 2 of 5 (cartons, ITF-14).
    Interleaved2of5,
    /// `^BA` — Code 93.
    Code93,
    /// `^BB` — Codabar.
    Codabar,
    /// `^BM` — MSI / Modified Plessey.
    Msi,
    /// `^BZ` — POSTNET.
    Postnet,
    /// `^BR` — GS1 DataBar / RSS.
    GS1DataBar,
    /// `^BS` — UPC/EAN 2 and 5 digit supplemental extensions.
    Extension25,
}

/// Text justification of a field block.
#[derive(Debug, Clone, Copy, PartialEq, Eq, Structural)]
pub enum Justification {
    /// Left justification (the default).
    L,
    /// Centered.
    C,
    /// Right justification.
    R,
    /// Justified (full width).
    J,
}

/// The justification a parameter letter selects; any other letter selects
/// left justification.
pub open spec fn justification_of(value: char) -> Justification {
    if value == 'C' {
        Justification::C
    } else if value == 'R' {
        Justification::R
    } else if value == 'J' {
        Justification::J
    } else {
        Justification::L
    }
}

/// The parameter letter of a justification.
pub open spec fn justification_letter(value: Justification) -> char {
    match value {
        Justification::L => 'L',
        Justification::C => 'C',
        Justification::R => 'R',
        Justification::J => 'J',
    }
}

impl From<char> for Justification {
    fn from(value: char) -> (r: Self) {
        if value == 'C' {
            Justification::C
        } else if value == 'R' {
            Justification::R
        } else if value == 'J' {
            Justification::J
        } else {
            Justification::L
        }
    }
}

impl vstd::std_specs::convert::FromSpecImpl<char> for Justification {
    open spec fn obeys_from_spec() -> bool {
        true
    }

    open spec fn from_spec(v: char) -> Self {
        justification_of(v)
    }
}

impl From<Justification> for char {
    fn from(value: Justification) -> (r: Self) {
        match value {
            Justification::L => 'L',
            Justification::C => 'C',
            Justification::R => 'R',
            Justification::J => 'J',
        }
    }
}

impl vstd::std_specs::convert::FromSpecImpl<Justification> for char {
    open spec fn obeys_from_spec() -> bool {
        true
    }

    open spec fn from_spec(v: Justification) -> Self {
        justification_letter(v)
    }
}

impl Justification {
    /// The parameter letter of this justification as a string.
    pub fn to_letter_string(self) -> (s: String)
        ensures
            s@ == seq![justification_letter(self)],
    {
        let mut v: Vec<char> = Vec::new();
        v.push(char::from(self));
        crate::text::string_of(v.as_slice())
    }
}

/// A yes/no parameter.
#[derive(Debug, Clone, Copy, PartialEq, Eq, Structural)]
pub enum YesNo {
    /// Yes (`Y`).
    Y,
    /// No (`N`).
    N,
}

/// The value a parameter letter selects: `Y` is yes, anything else no.
pub open spec fn yes_no_of(value: char) -> YesNo {
    if value == 'Y' {
        YesNo::Y
    } else {
        YesNo::N
    }
}

impl From<char> for YesNo {
    fn from(value: char) -> (r: Self) {
        if value == 'Y' {
            YesNo::Y
        } else {
            YesNo::N
        }
    }
}

impl vstd::std_specs::convert::FromSpecImpl<char> for YesNo {
    open spec fn obeys_from_spec() -> bool {
        true
    }

    open spec fn from_spec(v: char) -> Self {
        yes_no_of(v)
    }
}

impl From<YesNo> for char {
    fn from(value: YesNo) -> (r: Self) {
        match value {
            YesNo::Y => 'Y',
            YesNo::N => 'N',
        }
    }
}

impl vstd::std_specs::convert::FromSpecImpl<YesNo> for char {
    open spec fn obeys_from_spec() -> bool {
        true
    }

    open spec fn from_spec(v: YesNo) -> Self {
        yes_no_letter(v)
    }
}

impl From<bool> for YesNo {
    fn from(value: bool) -> (r: Self) {
        if value {
            YesNo::Y
        } else {
            YesNo::N
        }
    }
}

impl vstd::std_specs::convert::FromSpecImpl<bool> for YesNo {
    open spec fn obeys_from_spec() -> bool {
        true
    }

    open spec fn from_spec(v: bool) -> Self {
        if v {
            YesNo::Y
        } else {
            YesNo::N
        }
    }
}

impl From<YesNo> for bool {
    fn from(value: YesNo) -> (r: Self) {
        match value {
            YesNo::Y => true,
            YesNo::N => false,
        }
    }
}

impl vstd::std_specs::convert::FromSpecImpl<YesNo> for bool {
    open spec fn obeys_from_spec() -> bool {
        true
    }

    open spec fn from_spec(v: YesNo) -> Self {
        v == YesNo::Y
    }
}

/// The parameter letter of a yes/no value.
pub open spec fn yes_no_letter(v: YesNo) -> char {
    match v {
        YesNo::Y => 'Y',
        YesNo::N => 'N',
    }
}

/// Converting a letter to a yes/no value and back gives `Y` for `Y` and `N`
/// for every other letter; a yes/no value survives the round trip through
/// its letter.
pub proof fn lemma_yes_no_round_trips(c: char, v: YesNo)
    ensures
        yes_no_letter(yes_no_of(c)) == (if c == 'Y' {
            'Y'
        } else {
            'N'
        }),
        yes_no_of(yes_no_letter(v)) == v,
{
}

/// A justification survives the round trip through its letter.
pub proof fn lemma_justification_round_trip(j: Justification)
    ensures
        justification_of(justification_letter(j)) == j,
{
}

} // verus!
