//! Categorical fields of the records and their on-disk codes.
use crate::error::Error;
use vstd::prelude::*;

verus! {

/// Clinical significance, from least to most severe.
#[derive(Debug, Clone, Copy, PartialEq, Eq, Structural, Hash)]
pub enum Pathogenicity {
    Benign,
    LikelyBenign,
    Uncertain,
    LikelyPathogenic,
    Pathogenic,
}

/// Position of a pathogenicity in the severity order.
pub open spec fn patho_rank(p: Pathogenicity) -> nat {
    match p {
        Pathogenicity::Benign => 0,
        Pathogenicity::LikelyBenign => 1,
        Pathogenicity::Uncertain => 2,
        Pathogenicity::LikelyPathogenic => 3,
        Pathogenicity::Pathogenic => 4,
    }
}

/// The pathogenicity whose on-disk code is `code`, if any.
pub open spec fn patho_of_code(code: u8) -> Option<Pathogenicity> {
    if code == 0 {
        Some(Pathogenicity::Benign)
    } else if code == 1 {
        Some(Pathogenicity::LikelyBenign)
    } else if code == 2 {
        Some(Pathogenicity::Uncertain)
    } else if code == 3 {
        Some(Pathogenicity::LikelyPathogenic)
    } else if code == 4 {
        Some(Pathogenicity::Pathogenic)
    } else {
        None
    }
}

impl Pathogenicity {
    pub fn rank(&self) -> (r: u8)
        ensures
            r as nat == patho_rank(*self),
    {
        match self {
            Pathogenicity::Benign => 0,
            Pathogenicity::LikelyBenign => 1,
            Pathogenicity::Uncertain => 2,
            Pathogenicity::LikelyPathogenic => 3,
            Pathogenicity::Pathogenic => 4,
        }
    }

    /// Whether `self` is at least as severe as `other`.
    pub fn at_least(&self, other: &Pathogenicity) -> (r: bool)
        ensures
            r == (patho_rank(*self) >= patho_rank(*other)),
    {
        self.rank() >= other.rank()
    }

    /// Decodes an on-disk pathogenicity code.
    pub fn from_code(code: u8) -> (r: Result<Pathogenicity, Error>)
        ensures
            match patho_of_code(code) {
                Some(p) => r == Ok::<Pathogenicity, Error>(p),
                None => r == Err::<Pathogenicity, Error>(Error::Decode),
            },
    {
        match code {
            0 => Ok(Pathogenicity::Benign),
            1 => Ok(Pathogenicity::LikelyBenign),
            2 => Ok(Pathogenicity::Uncertain),
            3 => Ok(Pathogenicity::LikelyPathogenic),
            4 => Ok(Pathogenicity::Pathogenic),
            _ => Err(Error::Decode),
        }
    }
}

/// Kind of a ClinVar structural variation.
#[derive(Debug, Clone, Copy, PartialEq, Eq, Structural, Hash)]
pub enum VariationType {
    Complex,
    Microsatellite,
    Dup,
    Del,
    Bnd,
    Cnv,
    Inv,
    Ins,
}

/// The variation type whose on-disk code is `code`, if any.
pub open spec fn variation_of_code(code: u8) -> Option<VariationType> {
    if code == 0 {
        Some(VariationType::Complex)
    } else if code == 1 {
        Some(VariationType::Microsatellite)
    } else if code == 2 {
        Some(VariationType::Dup)
    } else if code == 3 {
        Some(VariationType::Del)
    } else if code == 4 {
        Some(VariationType::Bnd)
    } else if code == 5 {
        Some(VariationType::Cnv)
    } else if code == 6 {
        Some(VariationType::Inv)
    } else if code == 7 {
        Some(VariationType::Ins)
    } else {
        None
    }
}

impl VariationType {
    /// Decodes an on-disk variation type code.
    pub fn from_code(code: u8) -> (r: Result<VariationType, Error>)
        ensures
            match variation_of_code(code) {
                Some(v) => r == Ok::<VariationType, Error>(v),
                None => r == Err::<VariationType, Error>(Error::Decode),
            },
    {
        match code {
            0 => Ok(VariationType::Complex),
            1 => Ok(VariationType::Microsatellite),
            2 => Ok(VariationType::Dup),
            3 => Ok(VariationType::Del),
            4 => Ok(VariationType::Bnd),
            5 => Ok(VariationType::Cnv),
            6 => Ok(VariationType::Inv),
            7 => Ok(VariationType::Ins),
            _ => Err(Error::Decode),
        }
    }
}

/// Type of a called structural variant.
#[derive(Debug, Clone, Copy, PartialEq, Eq, Structural, Hash)]
pub enum SvType {
    Del,
    Dup,
    Inv,
    Ins,
    Bnd,
    Cnv,
}

/// Insertions and breakends carry no meaningful span.
pub open spec fn spanless(t: SvType) -> bool {
    t == SvType::Ins || t == SvType::Bnd
}

impl SvType {
    pub fn is_spanless(&self) -> (r: bool)
        ensures
            r == spanless(*self),
    {
        match self {
            SvType::Ins | SvType::Bnd => true,
            _ => false,
        }
    }
}

} // verus!
