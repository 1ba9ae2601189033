//! Catalog of experiment types and of the header fields each one requires.
//!
//! The set of experiment types is closed; each variant owns an ordered list
//! of required header fields with display names and units.  Resolution is
//! pure and total; only the parsing of a type token can fail.

use vstd::prelude::*;

use crate::errors::IngestionError;

verus! {

/// Represents different types of experiments.
#[derive(Clone, Copy, Debug, PartialEq, Eq, Structural)]
pub enum ExperimentType {
    Xrr,
    Xrs,
    Other,
}

/// Represents different header values.
#[derive(Clone, Copy, Debug, PartialEq, Eq, Structural)]
pub enum HeaderValue {
    SampleTheta,
    CCDTheta,
    BeamlineEnergy,
    EPUPolarization,
    BeamCurrent,
    HorizontalExitSlitSize,
    HigherOrderSuppressor,
    Exposure,
}

/// The ASCII code of `c` with an upper-case letter folded to lower case.
pub open spec fn spec_lower_code(c: char) -> u32 {
    if 65 <= c as u32 && c as u32 <= 90 {
        (c as u32 + 32) as u32
    } else {
        c as u32
    }
}

/// ASCII case-insensitive equality of two character sequences.
pub open spec fn spec_ci_eq(s: Seq<char>, pat: Seq<char>) -> bool {
    &&& s.len() == pat.len()
    &&& forall|i: int| 0 <= i < s.len() ==> spec_lower_code(s[i]) == spec_lower_code(pat[i])
}

/// ASCII case-insensitive comparison of two string slices.
pub fn ascii_ci_eq(s: &str, pat: &str) -> (b: bool)
    ensures
        b == spec_ci_eq(s@, pat@),
{
    let n = s.unicode_len();
    if n != pat.unicode_len() {
        return false;
    }
    for i in 0..n
        invariant
            n == s@.len(),
            n == pat@.len(),
            forall|j: int| 0 <= j < i ==> spec_lower_code(s@[j]) == spec_lower_code(pat@[j]),
    {
        let a: u32 = s.get_char(i) as u32;
        let b: u32 = pat.get_char(i) as u32;
        let a_low: u32 = if 65 <= a && a <= 90 {
            a + 32
        } else {
            a
        };
        let b_low: u32 = if 65 <= b && b <= 90 {
            b + 32
        } else {
            b
        };
        if a_low != b_low {
            return false;
        }
    }
    true
}

impl ExperimentType {
    /// Creates an `ExperimentType` from a string, matching the token
    /// case-insensitively; an unrecognized token is a hard error carrying
    /// the token itself.
    pub fn from_str(exp_type: &str) -> (r: Result<Self, IngestionError>)
        ensures
            spec_ci_eq(exp_type@, "xrr"@) ==> r == Ok::<Self, IngestionError>(ExperimentType::Xrr),
            spec_ci_eq(exp_type@, "xrs"@) ==> r == Ok::<Self, IngestionError>(ExperimentType::Xrs),
            spec_ci_eq(exp_type@, "other"@) ==> r == Ok::<Self, IngestionError>(
                ExperimentType::Other,
            ),
            !spec_ci_eq(exp_type@, "xrr"@) && !spec_ci_eq(exp_type@, "xrs"@) && !spec_ci_eq(
                exp_type@,
                "other"@,
            ) ==> (r matches Err(e) && e matches IngestionError::InvalidExperimentType(t) && t@
                == exp_type@),
    {
        proof {
            reveal_strlit("xrr");
            reveal_strlit("xrs");
            reveal_strlit("other");
            if spec_ci_eq(exp_type@, "xrr"@) && spec_ci_eq(exp_type@, "xrs"@) {
                assert(spec_lower_code(exp_type@[2]) == spec_lower_code("xrr"@[2]));
                assert(spec_lower_code(exp_type@[2]) == spec_lower_code("xrs"@[2]));
                assert(false);
            }
        }
        if ascii_ci_eq(exp_type, "xrr") {
            Ok(ExperimentType::Xrr)
        } else if ascii_ci_eq(exp_type, "xrs") {
            Ok(ExperimentType::Xrs)
        } else if ascii_ci_eq(exp_type, "other") {
            Ok(ExperimentType::Other)
        } else {
            Err(IngestionError::InvalidExperimentType(String::from_str(exp_type)))
        }
    }

    /// The ordered list of header fields required for the experiment type.
    pub open spec fn spec_keys(self) -> Seq<HeaderValue> {
        match self {
            ExperimentType::Xrr => seq![
                HeaderValue::SampleTheta,
                HeaderValue::CCDTheta,
                HeaderValue::BeamlineEnergy,
                HeaderValue::BeamCurrent,
                HeaderValue::EPUPolarization,
                HeaderValue::HorizontalExitSlitSize,
                HeaderValue::HigherOrderSuppressor,
                HeaderValue::Exposure,
            ],
            ExperimentType::Xrs => seq![HeaderValue::BeamlineEnergy],
            ExperimentType::Other => seq![],
        }
    }

    /// Retrieves the relevant header keys for the experiment type.
    pub fn get_keys(&self) -> (r: Vec<HeaderValue>)
        ensures
            r@ == self.spec_keys(),
    {
        match self {
            ExperimentType::Xrr => {
                let mut v: Vec<HeaderValue> = Vec::new();
                v.push(HeaderValue::SampleTheta);
                v.push(HeaderValue::CCDTheta);
                v.push(HeaderValue::BeamlineEnergy);
                v.push(HeaderValue::BeamCurrent);
                v.push(HeaderValue::EPUPolarization);
                v.push(HeaderValue::HorizontalExitSlitSize);
                v.push(HeaderValue::HigherOrderSuppressor);
                v.push(HeaderValue::Exposure);
                assert(v@ =~= self.spec_keys());
                v
            },
            ExperimentType::Xrs => {
                let mut v: Vec<HeaderValue> = Vec::new();
                v.push(HeaderValue::BeamlineEnergy);
                assert(v@ =~= self.spec_keys());
                v
            },
            ExperimentType::Other => {
                let v: Vec<HeaderValue> = Vec::new();
                assert(v@ =~= self.spec_keys());
                v
            },
        }
    }

    /// The display names of the required header fields, in the same order
    /// as `spec_keys`.
    pub open spec fn spec_names(self) -> Seq<Seq<char>> {
        self.spec_keys().map_values(|k: HeaderValue| k.spec_hdu())
    }

    /// Retrieves the header names for display purposes.
    pub fn names(&self) -> (r: Vec<&'static str>)
        ensures
            r@.map_values(|s: &'static str| s@) == self.spec_names(),
    {
        let keys = self.get_keys();
        let mut r: Vec<&'static str> = Vec::new();
        let n = keys.len();
        for i in 0..n
            invariant
                n == keys@.len(),
                keys@ == self.spec_keys(),
                r@.len() == i,
                forall|j: int| 0 <= j < i ==> #[trigger] r@[j]@ == keys@[j].spec_hdu(),
        {
            r.push(keys[i].hdu());
        }
        assert(r@.map_values(|s: &'static str| s@) =~= self.spec_names());
        r
    }
}

impl HeaderValue {
    /// The unit string of the header value.
    pub open spec fn spec_unit(self) -> Seq<char> {
        match self {
            HeaderValue::SampleTheta => "[deg]"@,
            HeaderValue::CCDTheta => "[deg]"@,
            HeaderValue::BeamlineEnergy => "[eV]"@,
            HeaderValue::BeamCurrent => "[mA]"@,
            HeaderValue::EPUPolarization => "[deg]"@,
            HeaderValue::HorizontalExitSlitSize => "[um]"@,
            HeaderValue::HigherOrderSuppressor => "[mm]"@,
            HeaderValue::Exposure => "[s]"@,
        }
    }

    /// Returns the unit associated with the header value.
    pub fn unit(&self) -> (r: &'static str)
        ensures
            r@ == self.spec_unit(),
    {
        match self {
            HeaderValue::SampleTheta => "[deg]",
            HeaderValue::CCDTheta => "[deg]",
            HeaderValue::BeamlineEnergy => "[eV]",
            HeaderValue::BeamCurrent => "[mA]",
            HeaderValue::EPUPolarization => "[deg]",
            HeaderValue::HorizontalExitSlitSize => "[um]",
            HeaderValue::HigherOrderSuppressor => "[mm]",
            HeaderValue::Exposure => "[s]",
        }
    }

    /// The key under which the field is stored in a file's primary header.
    pub open spec fn spec_hdu(self) -> Seq<char> {
        match self {
            HeaderValue::SampleTheta => "Sample Theta"@,
            HeaderValue::CCDTheta => "CCD Theta"@,
            HeaderValue::BeamlineEnergy => "Beamline Energy"@,
            HeaderValue::BeamCurrent => "Beam Current"@,
            HeaderValue::EPUPolarization => "EPU Polarization"@,
            HeaderValue::HorizontalExitSlitSize => "Horizontal Exit Slit Size"@,
            HeaderValue::HigherOrderSuppressor => "Higher Order Suppressor"@,
            HeaderValue::Exposure => "EXPOSURE"@,
        }
    }

    /// Returns the HDU key associated with the header value.
    pub fn hdu(&self) -> (r: &'static str)
        ensures
            r@ == self.spec_hdu(),
    {
        match self {
            HeaderValue::SampleTheta => "Sample Theta",
            HeaderValue::CCDTheta => "CCD Theta",
            HeaderValue::BeamlineEnergy => "Beamline Energy",
            HeaderValue::BeamCurrent => "Beam Current",
            HeaderValue::EPUPolarization => "EPU Polarization",
            HeaderValue::HorizontalExitSlitSize => "Horizontal Exit Slit Size",
            HeaderValue::HigherOrderSuppressor => "Higher Order Suppressor",
            HeaderValue::Exposure => "EXPOSURE",
        }
    }

    /// The display name with the unit appended.
    pub open spec fn spec_name(self) -> Seq<char> {
        match self {
            HeaderValue::SampleTheta => "Sample Theta [deg]"@,
            HeaderValue::CCDTheta => "CCD Theta [deg]"@,
            HeaderValue::BeamlineEnergy => "Beamline Energy [eV]"@,
            HeaderValue::BeamCurrent => "Beam Current [mA]"@,
            HeaderValue::EPUPolarization => "EPU Polarization [deg]"@,
            HeaderValue::HorizontalExitSlitSize => "Horizontal Exit Slit Size [um]"@,
            HeaderValue::HigherOrderSuppressor => "Higher Order Suppressor [mm]"@,
            HeaderValue::Exposure => "EXPOSURE [s]"@,
        }
    }

    /// Returns the full name with units for display.
    pub fn name(&self) -> (r: &'static str)
        ensures
            r@ == self.spec_name(),
    {
        match self {
            HeaderValue::SampleTheta => "Sample Theta [deg]",
            HeaderValue::CCDTheta => "CCD Theta [deg]",
            HeaderValue::BeamlineEnergy => "Beamline Energy [eV]",
            HeaderValue::BeamCurrent => "Beam Current [mA]",
            HeaderValue::EPUPolarization => "EPU Polarization [deg]",
            HeaderValue::HorizontalExitSlitSize => "Horizontal Exit Slit Size [um]",
            HeaderValue::HigherOrderSuppressor => "Higher Order Suppressor [mm]",
            HeaderValue::Exposure => "EXPOSURE [s]",
        }
    }
}

} // verus!
