use vstd::prelude::*;

use crate::scan::{is_partition, len_sum, line_kinds, runs, scan_line, lemma_len_sum_mono, lemma_runs_count,
    lemma_runs_ends, lemma_runs_kinds, lemma_runs_partition};
use crate::types::{NinePatchError, PatchKind, Section};

verus! {

/// A decoded nine-patch: its size with the border, the horizontal and
/// vertical sections of its content, and the four margins in pixels.
#[derive(Debug)]
pub struct NinePatchDrawable {
    pub width: usize,
    pub height: usize,
    pub h_sections: Vec<Section>,
    pub v_sections: Vec<Section>,
    pub margin_left: usize,
    pub margin_top: usize,
    pub margin_right: usize,
    pub margin_bottom: usize,
}

/// The buffer's length, stride and dimensions do not describe a bitmap of
/// four-byte pixels at least 3 by 3 in size.
pub open spec fn bad_buffer(len: int, stride: int, width: int, height: int) -> bool {
    len != stride * height || stride < width * 4 || width < 3 || height < 3
}

/// A margin line has no sections, or a leading margin, a span and a trailing margin.
pub open spec fn margin_shape_ok(secs: Seq<Section>) -> bool {
    secs.len() == 0 || secs.len() == 3
}

/// The length of the first section, or 0 when there is none.
pub open spec fn first_len(secs: Seq<Section>) -> usize {
    if secs.len() == 0 {
        0
    } else {
        secs[0].len
    }
}

/// The length of the last section, or 0 when there is none.
pub open spec fn last_len(secs: Seq<Section>) -> usize {
    if secs.len() == 0 {
        0
    } else {
        secs.last().len
    }
}

/// The sections of the top row.
pub open spec fn top_runs(b: Seq<u8>, width: int) -> Seq<Section> {
    runs(line_kinds(b, 0, 4, width))
}

/// The sections of the left column.
pub open spec fn left_runs(b: Seq<u8>, stride: int, height: int) -> Seq<Section> {
    runs(line_kinds(b, 0, stride, height))
}

/// The sections of the right column.
pub open spec fn right_runs(b: Seq<u8>, stride: int, width: int, height: int) -> Seq<Section> {
    runs(line_kinds(b, (width - 1) * 4, stride, height))
}

/// The sections of the bottom row.
pub open spec fn bottom_runs(b: Seq<u8>, stride: int, width: int, height: int) -> Seq<Section> {
    runs(line_kinds(b, (height - 1) * stride, 4, width))
}

/// The sections of one axis cover its `n` content pixels end to end, and
/// each is fixed, stretching or tiling.
pub open spec fn axis_wf(secs: Seq<Section>, n: int) -> bool {
    &&& secs.len() >= 1
    &&& is_partition(secs, n)
    &&& forall|j: int| 0 <= j < secs.len() ==> #[trigger] secs[j].kind != PatchKind::Unknown
}

/// The runs of a line of fixed and stretching samples form a well-formed axis.
proof fn lemma_scanned_axis(ks: Seq<PatchKind>)
    requires
        1 <= ks.len() < usize::MAX,
        forall|t: int| 0 <= t < ks.len() ==> #[trigger] ks[t] != PatchKind::Unknown,
    ensures
        axis_wf(runs(ks), ks.len() as int),
{
    lemma_runs_count(ks);
    lemma_runs_ends(ks);
    lemma_runs_kinds(ks);
    lemma_runs_partition(ks);
    let r = runs(ks);
    assert forall|j: int| 0 <= j < r.len() implies #[trigger] r[j].kind != PatchKind::Unknown by {
        assert(ks[r[j].start as int] == r[j].kind);
    }
}

impl NinePatchDrawable {
    /// Both axes are well formed for a bitmap at least 3 by 3 in size.
    pub open spec fn wf(&self) -> bool {
        &&& self.width >= 3
        &&& self.height >= 3
        &&& axis_wf(self.h_sections@, self.width - 2)
        &&& axis_wf(self.v_sections@, self.height - 2)
    }

    /// Whether the drawable is well formed, as `new` leaves it.
    pub fn is_well_formed(&self) -> (r: bool)
        ensures
            r == self.wf(),
    {
        self.width >= 3 && self.height >= 3 && axis_is_wf(&self.h_sections, self.width - 2)
            && axis_is_wf(&self.v_sections, self.height - 2)
    }

    /// Reads a nine-patch from a bitmap of `height` rows, `stride` bytes
    /// apart, of `width` four-byte pixels (RGBA or BGRA). The top row gives
    /// the horizontal sections, the left column the vertical ones; the bottom
    /// row gives the left and right margins and the right column the top and
    /// bottom margins.
    #[verifier::rlimit(20)]
    pub fn new(bitmap: &[u8], stride: usize, width: usize, height: usize) -> (r: Result<
        NinePatchDrawable,
        NinePatchError,
    >)
        ensures
            match r {
                Ok(d) => {
                    let b = bitmap@;
                    let right = right_runs(b, stride as int, width as int, height as int);
                    let bottom = bottom_runs(b, stride as int, width as int, height as int);
                    &&& !bad_buffer(b.len() as int, stride as int, width as int, height as int)
                    &&& margin_shape_ok(right)
                    &&& margin_shape_ok(bottom)
                    &&& d.width == width
                    &&& d.height == height
                    &&& d.h_sections@ == top_runs(b, width as int)
                    &&& d.v_sections@ == left_runs(b, stride as int, height as int)
                    &&& d.margin_left == first_len(bottom)
                    &&& d.margin_top == first_len(right)
                    &&& d.margin_right == last_len(bottom)
                    &&& d.margin_bottom == last_len(right)
                    &&& len_sum(d.h_sections@) == width - 2
                    &&& len_sum(d.v_sections@) == height - 2
                    &&& d.wf()
                },
                Err(e) => {
                    let b = bitmap@;
                    let bad = bad_buffer(b.len() as int, stride as int, width as int, height as int);
                    let right = right_runs(b, stride as int, width as int, height as int);
                    let bottom = bottom_runs(b, stride as int, width as int, height as int);
                    ||| bad && e == NinePatchError::InvalidBitmap
                    ||| !bad && !(margin_shape_ok(right) && margin_shape_ok(bottom)) && e
                        == NinePatchError::InvalidMargin
                },
            },
    {
        let total = bitmap.len();
        let rows_ok = match stride.checked_mul(height) {
            Some(p) => p == total,
            None => false,
        };
        let stride_ok = match width.checked_mul(4) {
            Some(p) => stride >= p,
            None => false,
        };
        if !rows_ok || !stride_ok || width < 3 || height < 3 {
            return Err(NinePatchError::InvalidBitmap);
        }
        assert((width - 1) * 4 + (height - 1) * stride + 2 < stride * height) by (nonlinear_arith)
            requires
                stride >= width * 4,
                width >= 3,
                height >= 3,
        ;
        assert((height - 1) * stride + 2 < stride * height) by (nonlinear_arith)
            requires
                stride >= 12,
        ;
        assert((width - 1) * 4 + 2 < stride * height) by (nonlinear_arith)
            requires
                stride >= width * 4,
                height >= 3,
        ;
        let top_sections = scan_line(bitmap, 0, 4, width);
        let left_sections = scan_line(bitmap, 0, stride, height);
        let right_sections = scan_line(bitmap, (width - 1) * 4, stride, height);
        let bottom_sections = scan_line(bitmap, (height - 1) * stride, 4, width);
        if right_sections.len() != 0 && right_sections.len() != 3 {
            return Err(NinePatchError::InvalidMargin);
        }
        if bottom_sections.len() != 0 && bottom_sections.len() != 3 {
            return Err(NinePatchError::InvalidMargin);
        }
        proof {
            lemma_scanned_axis(line_kinds(bitmap@, 0, 4, width as int));
            lemma_scanned_axis(line_kinds(bitmap@, 0, stride as int, height as int));
        }
        Ok(
            NinePatchDrawable {
                width,
                height,
                h_sections: top_sections,
                v_sections: left_sections,
                margin_left: first_section_len(&bottom_sections),
                margin_top: first_section_len(&right_sections),
                margin_right: last_section_len(&bottom_sections),
                margin_bottom: last_section_len(&right_sections),
            },
        )
    }
}

/// The first `i` sections lie end to end from 0, each non-empty and of a final kind.
spec fn prefix_wf(secs: Seq<Section>, i: int) -> bool {
    forall|j: int| #![trigger secs[j]]
        0 <= j < i ==> (secs[j].start == len_sum(secs.take(j)) && secs[j].len >= 1 && secs[j].kind
            != PatchKind::Unknown)
}

/// Whether the sections of one axis satisfy `axis_wf` for `n` pixels.
fn axis_is_wf(secs: &Vec<Section>, n: usize) -> (r: bool)
    ensures
        r == axis_wf(secs@, n as int),
{
    let mut next: usize = 0;
    let mut i: usize = 0;
    while i < secs.len()
        invariant
            i <= secs@.len(),
            next == len_sum(secs@.take(i as int)),
            prefix_wf(secs@, i as int),
        decreases secs@.len() - i,
    {
        let s = secs[i];
        proof {
            assert(secs@.take(i + 1).drop_last() =~= secs@.take(i as int));
        }
        if s.start != next || s.len == 0 || s.kind == PatchKind::Unknown {
            proof {
                assert(secs@[i as int] == s);
            }
            return false;
        }
        if next > n || s.len > n - next {
            proof {
                if axis_wf(secs@, n as int) {
                    lemma_len_sum_mono(secs@, i + 1);
                }
            }
            return false;
        }
        proof {
            assert(secs@[i as int] == s);
            assert(prefix_wf(secs@, i + 1));
        }
        next = next + s.len;
        i = i + 1;
    }
    proof {
        assert(secs@.take(secs@.len() as int) =~= secs@);
        assert(prefix_wf(secs@, secs@.len() as int));
    }
    secs.len() >= 1 && next == n
}

/// The length of the first section, or 0 when there is none.
fn first_section_len(secs: &Vec<Section>) -> (r: usize)
    ensures
        r == first_len(secs@),
{
    if secs.len() == 0 {
        0
    } else {
        secs[0].len
    }
}

/// The length of the last section, or 0 when there is none.
fn last_section_len(secs: &Vec<Section>) -> (r: usize)
    ensures
        r == last_len(secs@),
{
    if secs.len() == 0 {
        0
    } else {
        secs[secs.len() - 1].len
    }
}

} // verus!
