use vstd::prelude::*;

verus! {

use crate::errors::CodecError;

/// Package status carried by every descriptor.
///
/// The order of the variants matters: callers compare against `Outdated`
/// to decide whether a package is installable, so each variant has a fixed
/// byte value given by [`PackageStatus::spec_byte`].
#[derive(Debug, Clone, Copy, PartialEq, Eq, Structural)]
pub enum PackageStatus {
    NA,
    Prohibited,
    Outdated,
    Fine,
    Recommended,
    HighlyRecommended,
}

impl PackageStatus {
    /// The byte that stands for this status on the wire and in storage.
    pub open spec fn spec_byte(self) -> u8 {
        match self {
            PackageStatus::NA => 0,
            PackageStatus::Prohibited => 1,
            PackageStatus::Outdated => 2,
            PackageStatus::Fine => 3,
            PackageStatus::Recommended => 4,
            PackageStatus::HighlyRecommended => 5,
        }
    }

    /// The status a byte stands for, if any: bytes above 5 name no status.
    pub open spec fn spec_from_byte(value: u8) -> Option<PackageStatus> {
        if value == 0 {
            Some(PackageStatus::NA)
        } else if value == 1 {
            Some(PackageStatus::Prohibited)
        } else if value == 2 {
            Some(PackageStatus::Outdated)
        } else if value == 3 {
            Some(PackageStatus::Fine)
        } else if value == 4 {
            Some(PackageStatus::Recommended)
        } else if value == 5 {
            Some(PackageStatus::HighlyRecommended)
        } else {
            None
        }
    }

    /// Encode this status as its wire byte.
    pub fn to_byte(&self) -> (r: u8)
        ensures
            r == self.spec_byte(),
            r <= 5,
    {
        match self {
            PackageStatus::NA => 0,
            PackageStatus::Prohibited => 1,
            PackageStatus::Outdated => 2,
            PackageStatus::Fine => 3,
            PackageStatus::Recommended => 4,
            PackageStatus::HighlyRecommended => 5,
        }
    }

    /// Decode a wire byte; bytes outside `0..=5` are rejected.
    pub fn try_from(value: u8) -> (r: Result<PackageStatus, CodecError>)
        ensures
            match r {
                Ok(s) => PackageStatus::spec_from_byte(value) == Some(s) && s.spec_byte() == value,
                Err(e) => PackageStatus::spec_from_byte(value) is None && value > 5 && e
                    == CodecError::UnknownStatus,
            },
    {
        match value {
            0 => Ok(PackageStatus::NA),
            1 => Ok(PackageStatus::Prohibited),
            2 => Ok(PackageStatus::Outdated),
            3 => Ok(PackageStatus::Fine),
            4 => Ok(PackageStatus::Recommended),
            5 => Ok(PackageStatus::HighlyRecommended),
            _ => Err(CodecError::UnknownStatus),
        }
    }

    /// The human-readable name of this status.
    pub fn display_string(&self) -> (r: String)
        ensures
            r@ == self.spec_display(),
    {
        match self {
            PackageStatus::NA => String::from_str("NA"),
            PackageStatus::Prohibited => String::from_str("Prohibited"),
            PackageStatus::Outdated => String::from_str("Outdated"),
            PackageStatus::Fine => String::from_str("Fine"),
            PackageStatus::Recommended => String::from_str("Recommended"),
            PackageStatus::HighlyRecommended => String::from_str("Highly recommended"),
        }
    }

    /// The characters of the human-readable name of this status.
    pub open spec fn spec_display(self) -> Seq<char> {
        match self {
            PackageStatus::NA => "NA"@,
            PackageStatus::Prohibited => "Prohibited"@,
            PackageStatus::Outdated => "Outdated"@,
            PackageStatus::Fine => "Fine"@,
            PackageStatus::Recommended => "Recommended"@,
            PackageStatus::HighlyRecommended => "Highly recommended"@,
        }
    }
}

/// Round trip: every status survives encoding to its byte and decoding back.
pub proof fn lemma_status_byte_round_trip(s: PackageStatus)
    ensures
        PackageStatus::spec_from_byte(s.spec_byte()) == Some(s),
{
}

} // verus!
