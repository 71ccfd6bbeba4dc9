use vstd::prelude::*;

verus! {

/// How a segment of a border line behaves when the image is scaled.
#[derive(Debug, PartialEq, Eq, Clone, Copy, Structural)]
pub enum PatchKind {
    /// Placeholder while a segment is being built; never in a finished list.
    Unknown,
    /// Keeps its length in every target size.
    Fixed,
    /// Shares the extra space with the other stretching segments.
    Stretching,
    /// Reserved for repeated content; the border reader never produces it.
    Tiling,
}

/// A run of samples along one axis of the content area, in pixels.
#[derive(Debug, PartialEq, Eq, Clone, Copy, Structural)]
pub struct Section {
    pub start: usize,
    pub len: usize,
    pub kind: PatchKind,
}

/// An exact coordinate: `num / den`.
#[derive(Debug, PartialEq, Eq, Clone, Copy, Structural)]
pub struct Ratio {
    pub num: u128,
    pub den: u128,
}

/// A rectangle given by its four edges.
#[derive(Debug, PartialEq, Eq, Clone, Copy, Structural)]
pub struct RectF {
    pub left: Ratio,
    pub top: Ratio,
    pub right: Ratio,
    pub bottom: Ratio,
}

/// One cell of the scaled grid: where it is read from and where it goes.
#[derive(Debug, PartialEq, Eq, Clone, Copy, Structural)]
pub struct Patch {
    pub source: RectF,
    pub target: RectF,
    pub h_kind: PatchKind,
    pub v_kind: PatchKind,
}

/// Why a bitmap could not be read as a nine-patch.
#[derive(Debug, PartialEq, Eq, Clone, Copy, Structural)]
pub enum NinePatchError {
    /// The buffer's length, stride or dimensions do not fit together.
    InvalidBitmap,
    /// A margin line (right column or bottom row) does not have three segments.
    InvalidMargin,
}

impl Ratio {
    /// The value `num / den` compared with another without dividing.
    pub open spec fn same_value(self, other: Ratio) -> bool {
        self.num * other.den == other.num * self.den
    }
}

impl NinePatchError {
    /// A short description of the error.
    pub fn to_string(&self) -> (r: String)
        ensures
            *self == NinePatchError::InvalidBitmap ==> r@ == "invalid bitmap"@,
            *self == NinePatchError::InvalidMargin ==> r@ == "invalid margin"@,
    {
        match self {
            NinePatchError::InvalidBitmap => "invalid bitmap".to_owned(),
            NinePatchError::InvalidMargin => "invalid margin".to_owned(),
        }
    }
}

} // verus!
