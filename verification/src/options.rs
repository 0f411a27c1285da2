//! The options a mosaic run is configured with.

use vstd::prelude::*;
use vstd::std_specs::convert::FromSpecImpl;

verus! {

/// How a tile is summarised before it is compared.
#[derive(Debug, Clone, Copy, Eq, PartialEq, Structural)]
pub enum CalculationUnit {
    /// One colour: the mean of the tile.
    Average,
    /// Every pixel of the tile.
    Pixel,
    /// The representatives of a few colour clusters.
    KMeans,
}

impl Default for CalculationUnit {
    fn default() -> (unit: Self)
        ensures
            unit == CalculationUnit::Average,
    {
        CalculationUnit::Average
    }
}

/// The colour space in which colours are compared.
#[derive(Debug, Clone, Copy, Eq, PartialEq, Structural)]
pub enum ColorSpace {
    RGB,
    HSV,
    CIELAB,
}

impl ColorSpace {
    /// The name shown for the colour space.
    pub open spec fn label(self) -> Seq<char> {
        match self {
            ColorSpace::RGB => "RGB"@,
            ColorSpace::HSV => "HSV"@,
            ColorSpace::CIELAB => "CIE L*a*b*"@,
        }
    }
}

impl Default for ColorSpace {
    fn default() -> (space: Self)
        ensures
            space == ColorSpace::RGB,
    {
        ColorSpace::RGB
    }
}

// Two strings of the same characters need not be the same value, so the
// conversion is stated by the characters of its result, on `from` itself.
impl FromSpecImpl<ColorSpace> for String {
    open spec fn obeys_from_spec() -> bool {
        false
    }

    open spec fn from_spec(cs: ColorSpace) -> String {
        arbitrary()
    }
}

impl From<ColorSpace> for String {
    /// The name of the colour space.
    fn from(cs: ColorSpace) -> (name: String)
        ensures
            name@ == cs.label(),
    {
        match cs {
            ColorSpace::RGB => String::from_str("RGB"),
            ColorSpace::HSV => String::from_str("HSV"),
            ColorSpace::CIELAB => String::from_str("CIE L*a*b*"),
        }
    }
}

/// The formula by which the distance between two colours is measured.
#[derive(Debug, Clone, Copy, Eq, PartialEq, Structural)]
pub enum DistanceAlgorithm {
    Euclidean,
    CIEDE2000,
}

impl DistanceAlgorithm {
    /// The name shown for the formula.
    pub open spec fn label(self) -> Seq<char> {
        match self {
            DistanceAlgorithm::Euclidean => "Euclidean"@,
            DistanceAlgorithm::CIEDE2000 => "CIEDE2000"@,
        }
    }
}

impl Default for DistanceAlgorithm {
    fn default() -> (algorithm: Self)
        ensures
            algorithm == DistanceAlgorithm::Euclidean,
    {
        DistanceAlgorithm::Euclidean
    }
}

impl FromSpecImpl<DistanceAlgorithm> for String {
    open spec fn obeys_from_spec() -> bool {
        false
    }

    open spec fn from_spec(da: DistanceAlgorithm) -> String {
        arbitrary()
    }
}

impl From<DistanceAlgorithm> for String {
    /// The name of the formula.
    fn from(da: DistanceAlgorithm) -> (name: String)
        ensures
            name@ == da.label(),
    {
        match da {
            DistanceAlgorithm::Euclidean => String::from_str("Euclidean"),
            DistanceAlgorithm::CIEDE2000 => String::from_str("CIEDE2000"),
        }
    }
}

/// A resampling filter, as it is offered to the user.
#[derive(Debug, Clone, Copy, Eq, PartialEq, Structural)]
pub enum Filter {
    Nearest,
    Triangle,
    CatmullRom,
    Gaussian,
    Lanczos3,
}

} // verus!
