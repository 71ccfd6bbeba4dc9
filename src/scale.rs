use vstd::prelude::*;

use vstd::arithmetic::div_mod::lemma_fundamental_div_mod_converse;

use crate::drawable::{axis_wf, NinePatchDrawable};
use crate::scan::{lemma_len_sum_mono, len_sum};
use crate::types::{Patch, PatchKind, Ratio, RectF, Section};

verus! {

/// The total length of the sections that are not fixed.
pub open spec fn stretch_sum(secs: Seq<Section>) -> int
    decreases secs.len(),
{
    if secs.len() == 0 {
        0
    } else {
        stretch_sum(secs.drop_last()) + if secs.last().kind == PatchKind::Fixed {
            0
        } else {
            secs.last().len as int
        }
    }
}

/// The common denominator of the scaled edges of one axis.
pub open spec fn axis_den(secs: Seq<Section>) -> int {
    if stretch_sum(secs) > 0 {
        stretch_sum(secs)
    } else {
        1
    }
}

/// The target space left to the stretching sections of an axis of `size`
/// pixels scaled to `target` pixels.
pub open spec fn axis_extra(secs: Seq<Section>, size: int, target: int) -> int {
    target - (size - stretch_sum(secs))
}

/// The scaled length of a section, in units of `1 / den`: a fixed section
/// keeps its length, a stretching one gets its share `len / stretch` of the
/// extra space.
pub open spec fn scaled_len(s: Section, den: int, extra: int) -> int {
    if s.kind == PatchKind::Fixed {
        s.len * den
    } else {
        s.len * extra
    }
}

/// The scaled position of the start of section `j`, in units of `1 / den`:
/// the border pixel, then the scaled lengths of the sections before it.
pub open spec fn edge(secs: Seq<Section>, den: int, extra: int, j: int) -> int
    decreases j,
{
    if j <= 0 {
        den
    } else {
        edge(secs, den, extra, j - 1) + scaled_len(secs[j - 1], den, extra)
    }
}

/// The target edge `j` of an axis of `size` pixels scaled to `target`.
pub open spec fn target_edge(secs: Seq<Section>, size: int, target: int, j: int) -> int {
    edge(secs, axis_den(secs), axis_extra(secs, size, target), j)
}

impl NinePatchDrawable {
    /// The patch of row `row` and column `col` when scaled to `w` by `h`.
    #[verifier::opaque]
    pub open spec fn patch_at(&self, w: int, h: int, row: int, col: int) -> Patch {
        let hs = self.h_sections@;
        let vs = self.v_sections@;
        let x = hs[col];
        let y = vs[row];
        let dx = axis_den(hs) as u128;
        let dy = axis_den(vs) as u128;
        Patch {
            source: RectF {
                left: Ratio { num: (x.start + 1) as u128, den: 1 },
                top: Ratio { num: (y.start + 1) as u128, den: 1 },
                right: Ratio { num: (x.start + 1 + x.len) as u128, den: 1 },
                bottom: Ratio { num: (y.start + 1 + y.len) as u128, den: 1 },
            },
            target: RectF {
                left: Ratio { num: target_edge(hs, self.width as int, w, col) as u128, den: dx },
                top: Ratio { num: target_edge(vs, self.height as int, h, row) as u128, den: dy },
                right: Ratio { num: target_edge(hs, self.width as int, w, col + 1) as u128, den: dx },
                bottom: Ratio { num: target_edge(vs, self.height as int, h, row + 1) as u128, den: dy },
            },
            h_kind: x.kind,
            v_kind: y.kind,
        }
    }

    /// All patches for the target size `w` by `h`, row by row, each row
    /// from left to right.
    pub open spec fn patches_of(&self, w: int, h: int) -> Seq<Patch> {
        let n = self.h_sections@.len();
        Seq::new(self.v_sections@.len() * n, |p: int| self.patch_at(w, h, p / n as int, p % n as int))
    }
}

/// One more section adds its length, and its length again to the
/// stretching part when it is not fixed.
proof fn lemma_len_sum_prefix(secs: Seq<Section>, j: int)
    requires
        0 <= j < secs.len(),
    ensures
        len_sum(secs.take(j + 1)) == len_sum(secs.take(j)) + secs[j].len,
        stretch_sum(secs.take(j + 1)) == stretch_sum(secs.take(j)) + if secs[j].kind
            == PatchKind::Fixed {
            0
        } else {
            secs[j].len as int
        },
{
    assert(secs.take(j + 1).drop_last() =~= secs.take(j));
}

/// The stretching part of an axis is at most its whole length.
proof fn lemma_stretch_le(secs: Seq<Section>, j: int)
    requires
        0 <= j <= secs.len(),
    ensures
        0 <= stretch_sum(secs.take(j)) <= len_sum(secs.take(j)),
    decreases j,
{
    if j > 0 {
        lemma_stretch_le(secs, j - 1);
        lemma_len_sum_prefix(secs, j - 1);
    } else {
        assert(secs.take(0) =~= Seq::<Section>::empty());
    }
}

/// Edge `j` counts the border, the fixed length before it at `den` and the
/// stretching length before it at `extra`.
proof fn lemma_edge_formula(secs: Seq<Section>, den: int, extra: int, j: int)
    requires
        0 <= j <= secs.len(),
    ensures
        edge(secs, den, extra, j) == den * (1 + len_sum(secs.take(j)) - stretch_sum(secs.take(j)))
            + extra * stretch_sum(secs.take(j)),
    decreases j,
{
    if j > 0 {
        lemma_edge_formula(secs, den, extra, j - 1);
        lemma_len_sum_prefix(secs, j - 1);
        let a = len_sum(secs.take(j - 1));
        let s = stretch_sum(secs.take(j - 1));
        let l = secs[j - 1].len as int;
        if secs[j - 1].kind == PatchKind::Fixed {
            assert(den * (1 + a - s) + extra * s + l * den == den * (1 + (a + l) - s) + extra * s)
                by (nonlinear_arith);
        } else {
            assert(den * (1 + a - s) + extra * s + l * extra == den * (1 + (a + l) - (s + l))
                + extra * (s + l)) by (nonlinear_arith);
        }
    } else {
        assert(secs.take(0) =~= Seq::<Section>::empty());
        assert(len_sum(secs.take(0)) == 0);
        assert(stretch_sum(secs.take(0)) == 0);
        assert(den * 1 + extra * 0 == den) by (nonlinear_arith);
    }
}

/// Edges never decrease along an axis.
proof fn lemma_edge_mono(secs: Seq<Section>, den: int, extra: int, j: int, k: int)
    requires
        0 <= j <= k <= secs.len(),
        den >= 0,
        extra >= 0,
    ensures
        den <= edge(secs, den, extra, j) <= edge(secs, den, extra, k),
    decreases k,
{
    if j < k {
        lemma_edge_mono(secs, den, extra, j, k - 1);
        let s = secs[k - 1];
        assert(s.len * den >= 0 && s.len * extra >= 0) by (nonlinear_arith)
            requires
                den >= 0,
                extra >= 0,
                s.len >= 0,
        ;
    } else if k > 0 {
        lemma_edge_mono(secs, den, extra, k - 1, k - 1);
        let s = secs[k - 1];
        assert(s.len * den >= 0 && s.len * extra >= 0) by (nonlinear_arith)
            requires
                den >= 0,
                extra >= 0,
                s.len >= 0,
        ;
    }
}

/// The last edge of a well-formed axis scaled from `size` to `target`.
proof fn lemma_last_edge(secs: Seq<Section>, size: int, target: int)
    requires
        axis_wf(secs, size - 2),
        target >= size,
    ensures
        stretch_sum(secs) > 0 ==> target_edge(secs, size, target, secs.len() as int) == axis_den(
            secs,
        ) * (target - 1),
        stretch_sum(secs) == 0 ==> target_edge(secs, size, target, secs.len() as int) == size - 1,
        0 <= stretch_sum(secs) <= size - 2,
        target_edge(secs, size, target, secs.len() as int) <= axis_den(secs) * (target - 1),
{
    let n = secs.len() as int;
    assert(secs.take(n) =~= secs);
    lemma_stretch_le(secs, n);
    lemma_edge_formula(secs, axis_den(secs), axis_extra(secs, size, target), n);
    let s = stretch_sum(secs);
    let d = axis_den(secs);
    if s > 0 {
        assert(s * (1 + (size - 2) - s) + (target - (size - s)) * s == s * (target - 1))
            by (nonlinear_arith);
    } else {
        assert(d * (target - 1) >= size - 1) by (nonlinear_arith)
            requires
                d == 1,
                target >= size,
        ;
    }
}

/// The total length of the sections of a well-formed axis that are not fixed.
fn stretch_total(secs: &Vec<Section>, Ghost(n): Ghost<int>) -> (r: usize)
    requires
        axis_wf(secs@, n),
        n <= usize::MAX,
    ensures
        r == stretch_sum(secs@),
{
    proof {
        assert(secs@.take(secs@.len() as int) =~= secs@);
    }
    let mut total: usize = 0;
    let mut i: usize = 0;
    while i < secs.len()
        invariant
            i <= secs@.len(),
            axis_wf(secs@, n),
            n <= usize::MAX,
            secs@.take(secs@.len() as int) == secs@,
            total == stretch_sum(secs@.take(i as int)),
        decreases secs@.len() - i,
    {
        proof {
            lemma_len_sum_prefix(secs@, i as int);
            lemma_stretch_le(secs@, i + 1);
            lemma_len_sum_mono(secs@, i + 1);
        }
        if secs[i].kind != PatchKind::Fixed {
            total = total + secs[i].len;
        }
        i = i + 1;
    }
    total
}

/// The scaled edges of an axis, from the start of its first section to the
/// end of its last, in units of `1 / den`.
fn axis_edges(secs: &Vec<Section>, den: u128, extra: u128) -> (r: Vec<u128>)
    requires
        edge(secs@, den as int, extra as int, secs@.len() as int) <= u128::MAX,
    ensures
        r@.len() == secs@.len() + 1,
        forall|j: int| 0 <= j <= secs@.len() ==> #[trigger] r@[j] == edge(secs@, den as int, extra as int, j),
{
    let mut edges: Vec<u128> = Vec::new();
    edges.push(den);
    let mut cur: u128 = den;
    let mut i: usize = 0;
    while i < secs.len()
        invariant
            i <= secs@.len(),
            edge(secs@, den as int, extra as int, secs@.len() as int) <= u128::MAX,
            edges@.len() == i + 1,
            cur == edge(secs@, den as int, extra as int, i as int),
            forall|j: int| 0 <= j <= i ==> #[trigger] edges@[j] == edge(secs@, den as int, extra as int, j),
        decreases secs@.len() - i,
    {
        proof {
            lemma_edge_mono(secs@, den as int, extra as int, i as int, i + 1);
            lemma_edge_mono(secs@, den as int, extra as int, i + 1, secs@.len() as int);
        }
        let s = secs[i];
        let step: u128 = if s.kind == PatchKind::Fixed {
            s.len as u128 * den
        } else {
            s.len as u128 * extra
        };
        cur = cur + step;
        edges.push(cur);
        i = i + 1;
    }
    edges
}

/// The denominator and the scaled edges of a well-formed axis of `size`
/// pixels scaled to `target` pixels.
fn scaled_edges(secs: &Vec<Section>, size: usize, target: usize) -> (r: (u128, Vec<u128>))
    requires
        size >= 3,
        axis_wf(secs@, size - 2),
        target >= size,
    ensures
        r.0 == axis_den(secs@),
        r.1@.len() == secs@.len() + 1,
        forall|j: int| 0 <= j <= secs@.len() ==> #[trigger] r.1@[j] == target_edge(secs@, size as int, target as int, j),
{
    let stretching = stretch_total(secs, Ghost(size - 2));
    proof {
        lemma_last_edge(secs@, size as int, target as int);
        assert(axis_den(secs@) * (target - 1) <= u128::MAX) by (nonlinear_arith)
            requires
                0 <= axis_den(secs@) <= usize::MAX,
                0 <= target - 1 <= usize::MAX,
        ;
    }
    let den: u128 = if stretching > 0 {
        stretching as u128
    } else {
        1
    };
    let extra: u128 = (target - size) as u128 + stretching as u128;
    let edges = axis_edges(secs, den, extra);
    (den, edges)
}

impl NinePatchDrawable {
    /// `xs` and `ys` hold the scaled edges of both axes.
    spec fn edges_ok(&self, w: int, h: int, xs: Seq<u128>, ys: Seq<u128>) -> bool {
        &&& xs.len() == self.h_sections@.len() + 1
        &&& ys.len() == self.v_sections@.len() + 1
        &&& xs.len() <= usize::MAX
        &&& ys.len() <= usize::MAX
        &&& forall|j: int|
            0 <= j < xs.len() ==> #[trigger] xs[j] == target_edge(self.h_sections@, self.width as int, w, j)
        &&& forall|j: int|
            0 <= j < ys.len() ==> #[trigger] ys[j] == target_edge(self.v_sections@, self.height as int, h, j)
    }

    /// `ps` holds the first `k` patches.
    spec fn built(&self, w: int, h: int, ps: Seq<Patch>, k: int) -> bool {
        let n = self.h_sections@.len() as int;
        &&& ps.len() == k
        &&& forall|p: int| 0 <= p < k ==> #[trigger] ps[p] == self.patch_at(w, h, p / n, p % n)
    }

    /// Once all rows are built, the list is the whole scaled list.
    proof fn lemma_built_all(&self, w: int, h: int, ps: Seq<Patch>)
        requires
            self.built(w, h, ps, (self.v_sections@.len() * self.h_sections@.len()) as int),
        ensures
            ps == self.patches_of(w, h),
    {
        assert(ps =~= self.patches_of(w, h));
    }

    /// The patch of row `row` and column `col`, from the scaled edges of both axes.
    fn cell(
        &self,
        width: usize,
        height: usize,
        row: usize,
        col: usize,
        xs: &Vec<u128>,
        ys: &Vec<u128>,
        den_x: u128,
        den_y: u128,
    ) -> (r: Patch)
        requires
            row < self.v_sections@.len(),
            col < self.h_sections@.len(),
            den_x == axis_den(self.h_sections@),
            den_y == axis_den(self.v_sections@),
            self.edges_ok(width as int, height as int, xs@, ys@),
        ensures
            r == self.patch_at(width as int, height as int, row as int, col as int),
    {
        proof {
            reveal(NinePatchDrawable::patch_at);
        }
        let x = self.h_sections[col];
        let y = self.v_sections[row];
        Patch {
            source: RectF {
                left: Ratio { num: x.start as u128 + 1, den: 1 },
                top: Ratio { num: y.start as u128 + 1, den: 1 },
                right: Ratio { num: x.start as u128 + 1 + x.len as u128, den: 1 },
                bottom: Ratio { num: y.start as u128 + 1 + y.len as u128, den: 1 },
            },
            target: RectF {
                left: Ratio { num: xs[col], den: den_x },
                top: Ratio { num: ys[row], den: den_y },
                right: Ratio { num: xs[col + 1], den: den_x },
                bottom: Ratio { num: ys[row + 1], den: den_y },
            },
            h_kind: x.kind,
            v_kind: y.kind,
        }
    }

    /// Appends the patches of row `row`, from left to right.
    fn push_row(
        &self,
        width: usize,
        height: usize,
        row: usize,
        xs: &Vec<u128>,
        ys: &Vec<u128>,
        den_x: u128,
        den_y: u128,
        patches: &mut Vec<Patch>,
    )
        requires
            row < self.v_sections@.len(),
            den_x == axis_den(self.h_sections@),
            den_y == axis_den(self.v_sections@),
            self.edges_ok(width as int, height as int, xs@, ys@),
            self.built(width as int, height as int, old(patches)@, row * self.h_sections@.len()),
        ensures
            self.built(width as int, height as int, final(patches)@, (row + 1) * self.h_sections@.len()),
    {
        let n = self.h_sections.len();
        let mut col: usize = 0;
        while col < n
            invariant
                n == self.h_sections@.len(),
                row < self.v_sections@.len(),
                col <= n,
                den_x == axis_den(self.h_sections@),
                den_y == axis_den(self.v_sections@),
                self.edges_ok(width as int, height as int, xs@, ys@),
                self.built(width as int, height as int, patches@, row * n + col),
            decreases n - col,
        {
            let patch = self.cell(width, height, row, col, xs, ys, den_x, den_y);
            proof {
                lemma_fundamental_div_mod_converse((row * n + col) as int, n as int, row as int, col as int);
            }
            patches.push(patch);
            col = col + 1;
        }
        assert((row + 1) * n == row * n + n) by (nonlinear_arith);
    }

    /// Scales the nine-patch to `width` by `height` pixels. Fixed sections
    /// keep their length; stretching sections share what is left in
    /// proportion to their lengths. The patches come row by row, each row
    /// from left to right, and each edge is exact.
    #[verifier::rlimit(20)]
    pub fn scale_to(&self, width: usize, height: usize) -> (r: Vec<Patch>)
        requires
            self.wf(),
            width >= self.width,
            height >= self.height,
        ensures
            r@ == self.patches_of(width as int, height as int),
    {
        let (den_x, xs) = scaled_edges(&self.h_sections, self.width, width);
        let (den_y, ys) = scaled_edges(&self.v_sections, self.height, height);
        let _ = xs.len();
        let _ = ys.len();
        let mut patches: Vec<Patch> = Vec::new();
        let mut row: usize = 0;
        assert(self.built(width as int, height as int, patches@, 0));
        while row < self.v_sections.len()
            invariant
                row <= self.v_sections@.len(),
                den_x == axis_den(self.h_sections@),
                den_y == axis_den(self.v_sections@),
                self.edges_ok(width as int, height as int, xs@, ys@),
                self.built(width as int, height as int, patches@, row * self.h_sections@.len()),
            decreases self.v_sections@.len() - row,
        {
            self.push_row(width, height, row, &xs, &ys, den_x, den_y, &mut patches);
            row = row + 1;
        }
        proof {
            self.lemma_built_all(width as int, height as int, patches@);
        }
        patches
    }
}

/// The stretching part of a prefix is at most that of the whole axis.
proof fn lemma_stretch_mono(secs: Seq<Section>, j: int)
    requires
        0 <= j <= secs.len(),
    ensures
        0 <= stretch_sum(secs.take(j)) <= stretch_sum(secs),
    decreases secs.len() - j,
{
    if j < secs.len() {
        lemma_stretch_mono(secs, j + 1);
        lemma_len_sum_prefix(secs, j);
        lemma_stretch_le(secs, j);
    } else {
        assert(secs.take(j) =~= secs);
        lemma_stretch_le(secs, j);
    }
}

/// Every edge of a well-formed axis fits its `u128` field.
proof fn lemma_edge_range(secs: Seq<Section>, size: int, target: int, j: int)
    requires
        axis_wf(secs, size - 2),
        size <= target <= usize::MAX,
        0 <= j <= secs.len(),
    ensures
        1 <= axis_den(secs) <= usize::MAX,
        0 <= target_edge(secs, size, target, j) <= u128::MAX,
{
    let n = secs.len() as int;
    lemma_last_edge(secs, size, target);
    lemma_edge_mono(secs, axis_den(secs), axis_extra(secs, size, target), j, n);
    assert(axis_den(secs) * (target - 1) <= u128::MAX) by (nonlinear_arith)
        requires
            0 <= axis_den(secs) <= usize::MAX,
            0 <= target - 1 <= usize::MAX,
    ;
}

/// Scaled to its own size, edge `j` of a well-formed axis sits where the
/// section starts in the source, over the axis's denominator.
proof fn lemma_identity_edge(secs: Seq<Section>, size: int, j: int)
    requires
        axis_wf(secs, size - 2),
        0 <= j <= secs.len(),
    ensures
        target_edge(secs, size, size, j) == axis_den(secs) * (1 + len_sum(secs.take(j))),
{
    let den = axis_den(secs);
    let extra = axis_extra(secs, size, size);
    lemma_edge_formula(secs, den, extra, j);
    lemma_stretch_mono(secs, j);
    lemma_stretch_le(secs, secs.len() as int);
    assert(secs.take(secs.len() as int) =~= secs);
    let l = len_sum(secs.take(j));
    let s = stretch_sum(secs.take(j));
    if stretch_sum(secs) > 0 {
        assert(den * (1 + l - s) + den * s == den * (1 + l)) by (nonlinear_arith);
    } else {
        assert(den * (1 + l - 0) + extra * 0 == den * (1 + l)) by (nonlinear_arith);
    }
}

impl NinePatchDrawable {
    /// The patch at row `row` and column `col` is the one at index
    /// `row * n + col` of the scaled list, `n` being the number of columns.
    pub proof fn lemma_patch_index(&self, w: int, h: int, row: int, col: int)
        requires
            0 <= row < self.v_sections@.len(),
            0 <= col < self.h_sections@.len(),
        ensures
            row * self.h_sections@.len() + col < self.patches_of(w, h).len(),
            self.patches_of(w, h)[row * self.h_sections@.len() + col] == self.patch_at(w, h, row, col),
    {
        let n = self.h_sections@.len() as int;
        lemma_fundamental_div_mod_converse(row * n + col, n, row, col);
        assert(row * n + col < self.v_sections@.len() * n) by (nonlinear_arith)
            requires
                0 <= row < self.v_sections@.len(),
                0 <= col < n,
        ;
    }

    /// The fields of a patch, as integers.
    proof fn lemma_patch_fields(&self, w: int, h: int, row: int, col: int)
        requires
            self.wf(),
            self.width <= w <= usize::MAX,
            self.height <= h <= usize::MAX,
            0 <= row < self.v_sections@.len(),
            0 <= col < self.h_sections@.len(),
        ensures
            ({
                let q = self.patch_at(w, h, row, col);
                let hs = self.h_sections@;
                let vs = self.v_sections@;
                let x = hs[col];
                let y = vs[row];
                &&& q.source.left.num == x.start + 1
                &&& q.source.right.num == x.start + 1 + x.len
                &&& q.source.top.num == y.start + 1
                &&& q.source.bottom.num == y.start + 1 + y.len
                &&& q.source.left.den == 1 && q.source.right.den == 1
                &&& q.source.top.den == 1 && q.source.bottom.den == 1
                &&& q.target.left.num == target_edge(hs, self.width as int, w, col)
                &&& q.target.right.num == target_edge(hs, self.width as int, w, col + 1)
                &&& q.target.top.num == target_edge(vs, self.height as int, h, row)
                &&& q.target.bottom.num == target_edge(vs, self.height as int, h, row + 1)
                &&& q.target.left.den == axis_den(hs) && q.target.right.den == axis_den(hs)
                &&& q.target.top.den == axis_den(vs) && q.target.bottom.den == axis_den(vs)
                &&& q.h_kind == x.kind
                &&& q.v_kind == y.kind
            }),
    {
        reveal(NinePatchDrawable::patch_at);
        let hs = self.h_sections@;
        let vs = self.v_sections@;
        lemma_edge_range(hs, self.width as int, w, col);
        lemma_edge_range(hs, self.width as int, w, col + 1);
        lemma_edge_range(vs, self.height as int, h, row);
        lemma_edge_range(vs, self.height as int, h, row + 1);
    }

    /// Scaling keeps the length of every fixed section: a patch whose
    /// column (row) is fixed is exactly as wide (tall) in the target as in
    /// the source.
    pub proof fn lemma_fixed_keeps_length(&self, w: int, h: int, row: int, col: int)
        requires
            self.wf(),
            self.width <= w <= usize::MAX,
            self.height <= h <= usize::MAX,
            0 <= row < self.v_sections@.len(),
            0 <= col < self.h_sections@.len(),
        ensures
            ({
                let q = self.patches_of(w, h)[row * self.h_sections@.len() + col];
                &&& q.target.left.den == q.target.right.den
                &&& q.target.top.den == q.target.bottom.den
                &&& q.h_kind == PatchKind::Fixed ==> q.target.right.num - q.target.left.num == (
                q.source.right.num - q.source.left.num) * q.target.left.den
                &&& q.v_kind == PatchKind::Fixed ==> q.target.bottom.num - q.target.top.num == (
                q.source.bottom.num - q.source.top.num) * q.target.top.den
            }),
    {
        self.lemma_patch_index(w, h, row, col);
        self.lemma_patch_fields(w, h, row, col);
        let hs = self.h_sections@;
        let vs = self.v_sections@;
        let (dx, ex) = (axis_den(hs), axis_extra(hs, self.width as int, w));
        let (dy, ey) = (axis_den(vs), axis_extra(vs, self.height as int, h));
        assert(edge(hs, dx, ex, col + 1) == edge(hs, dx, ex, col) + scaled_len(hs[col], dx, ex));
        assert(edge(vs, dy, ey, row + 1) == edge(vs, dy, ey, row) + scaled_len(vs[row], dy, ey));
    }

    /// Neighbours in a row share their vertical edge.
    proof fn lemma_row_neighbours(&self, w: int, h: int, row: int, c: int)
        requires
            self.wf(),
            self.width <= w <= usize::MAX,
            self.height <= h <= usize::MAX,
            0 <= row < self.v_sections@.len(),
            0 <= c < self.h_sections@.len() - 1,
        ensures
            ({
                let n = self.h_sections@.len() as int;
                let ps = self.patches_of(w, h);
                ps[row * n + c].target.right == ps[row * n + c + 1].target.left
            }),
    {
        self.lemma_patch_index(w, h, row, c);
        self.lemma_patch_index(w, h, row, c + 1);
        self.lemma_patch_fields(w, h, row, c);
        self.lemma_patch_fields(w, h, row, c + 1);
    }

    /// Neighbours in a column share their horizontal edge.
    proof fn lemma_column_neighbours(&self, w: int, h: int, r: int, col: int)
        requires
            self.wf(),
            self.width <= w <= usize::MAX,
            self.height <= h <= usize::MAX,
            0 <= r < self.v_sections@.len() - 1,
            0 <= col < self.h_sections@.len(),
        ensures
            ({
                let n = self.h_sections@.len() as int;
                let ps = self.patches_of(w, h);
                ps[r * n + col].target.bottom == ps[(r + 1) * n + col].target.top
            }),
    {
        self.lemma_patch_index(w, h, r, col);
        self.lemma_patch_index(w, h, r + 1, col);
        self.lemma_patch_fields(w, h, r, col);
        self.lemma_patch_fields(w, h, r + 1, col);
    }

    /// Where stretching can absorb the extra width (or none is asked for),
    /// the patches of each row lie edge to edge and together span exactly
    /// `[1, w - 1]`.
    #[verifier::rlimit(20)]
    pub proof fn lemma_rows_cover(&self, w: int, h: int, row: int)
        requires
            self.wf(),
            self.width <= w <= usize::MAX,
            self.height <= h <= usize::MAX,
            stretch_sum(self.h_sections@) > 0 || w == self.width,
            0 <= row < self.v_sections@.len(),
        ensures
            ({
                let n = self.h_sections@.len() as int;
                let ps = self.patches_of(w, h);
                &&& ps[row * n].target.left.num == ps[row * n].target.left.den
                &&& ps[row * n + n - 1].target.right.num == (w - 1) * ps[row * n + n - 1].target.right.den
                &&& forall|c: int|
                    0 <= c < n - 1 ==> #[trigger] ps[row * n + c].target.right == ps[row * n + c + 1].target.left
            }),
    {
        let n = self.h_sections@.len() as int;
        let hs = self.h_sections@;
        let ps = self.patches_of(w, h);
        self.lemma_patch_index(w, h, row, 0);
        self.lemma_patch_fields(w, h, row, 0);
        self.lemma_patch_index(w, h, row, n - 1);
        self.lemma_patch_fields(w, h, row, n - 1);
        lemma_last_edge(hs, self.width as int, w);
        assert(target_edge(hs, self.width as int, w, 0) == axis_den(hs));
        if stretch_sum(hs) == 0 {
            assert((w - 1) * 1 == w - 1);
        } else {
            assert(axis_den(hs) * (w - 1) == (w - 1) * axis_den(hs)) by (nonlinear_arith);
        }
        assert forall|c: int| 0 <= c < n - 1 implies #[trigger] ps[row * n + c].target.right == ps[row * n + c
            + 1].target.left by {
            self.lemma_row_neighbours(w, h, row, c);
        }
    }

    /// Where stretching can absorb the extra height (or none is asked for),
    /// the patches of each column lie edge to edge and together span exactly
    /// `[1, h - 1]`.
    #[verifier::rlimit(20)]
    pub proof fn lemma_columns_cover(&self, w: int, h: int, col: int)
        requires
            self.wf(),
            self.width <= w <= usize::MAX,
            self.height <= h <= usize::MAX,
            stretch_sum(self.v_sections@) > 0 || h == self.height,
            0 <= col < self.h_sections@.len(),
        ensures
            ({
                let n = self.h_sections@.len() as int;
                let m = self.v_sections@.len() as int;
                let ps = self.patches_of(w, h);
                &&& ps[col].target.top.num == ps[col].target.top.den
                &&& ps[(m - 1) * n + col].target.bottom.num == (h - 1) * ps[(m - 1) * n
                    + col].target.bottom.den
                &&& forall|r: int|
                    0 <= r < m - 1 ==> #[trigger] ps[r * n + col].target.bottom == ps[(r + 1) * n
                        + col].target.top
            }),
    {
        let n = self.h_sections@.len() as int;
        let m = self.v_sections@.len() as int;
        let vs = self.v_sections@;
        let ps = self.patches_of(w, h);
        self.lemma_patch_index(w, h, 0, col);
        self.lemma_patch_fields(w, h, 0, col);
        self.lemma_patch_index(w, h, m - 1, col);
        self.lemma_patch_fields(w, h, m - 1, col);
        assert(0 * n + col == col);
        lemma_last_edge(vs, self.height as int, h);
        assert(target_edge(vs, self.height as int, h, 0) == axis_den(vs));
        if stretch_sum(vs) == 0 {
            assert((h - 1) * 1 == h - 1);
        } else {
            assert(axis_den(vs) * (h - 1) == (h - 1) * axis_den(vs)) by (nonlinear_arith);
        }
        assert forall|r: int| 0 <= r < m - 1 implies #[trigger] ps[r * n + col].target.bottom == ps[(r + 1)
            * n + col].target.top by {
            self.lemma_column_neighbours(w, h, r, col);
        }
    }

    /// Scaled to its own size, every patch's target rectangle is its
    /// source rectangle.
    #[verifier::rlimit(20)]
    pub proof fn lemma_identity_scaling(&self)
        requires
            self.wf(),
        ensures
            forall|p: int|
                0 <= p < self.patches_of(self.width as int, self.height as int).len() ==> {
                    let q = #[trigger] self.patches_of(self.width as int, self.height as int)[p];
                    &&& q.target.left.same_value(q.source.left)
                    &&& q.target.top.same_value(q.source.top)
                    &&& q.target.right.same_value(q.source.right)
                    &&& q.target.bottom.same_value(q.source.bottom)
                },
    {
        let w = self.width as int;
        let h = self.height as int;
        let n = self.h_sections@.len() as int;
        let hs = self.h_sections@;
        let vs = self.v_sections@;
        assert forall|p: int| 0 <= p < self.patches_of(w, h).len() implies {
            let q = #[trigger] self.patches_of(w, h)[p];
            &&& q.target.left.same_value(q.source.left)
            &&& q.target.top.same_value(q.source.top)
            &&& q.target.right.same_value(q.source.right)
            &&& q.target.bottom.same_value(q.source.bottom)
        } by {
            let row = p / n;
            let col = p % n;
            assert(0 <= row < vs.len() && 0 <= col < n) by {
                vstd::arithmetic::div_mod::lemma_div_pos_is_pos(p, n);
                vstd::arithmetic::div_mod::lemma_mod_bound(p, n);
                vstd::arithmetic::div_mod::lemma_div_by_multiple_is_strongly_ordered(p, vs.len() * n, vs.len() as int, n);
                assert(vs.len() * n / n == vs.len()) by {
                    vstd::arithmetic::div_mod::lemma_div_by_multiple(vs.len() as int, n);
                }
            }
            self.lemma_identity_cell(row, col);
        }
    }

    /// One patch of the identity scaling has equal source and target.
    proof fn lemma_identity_cell(&self, row: int, col: int)
        requires
            self.wf(),
            0 <= row < self.v_sections@.len(),
            0 <= col < self.h_sections@.len(),
        ensures
            ({
                let q = self.patch_at(self.width as int, self.height as int, row, col);
                &&& q.target.left.same_value(q.source.left)
                &&& q.target.top.same_value(q.source.top)
                &&& q.target.right.same_value(q.source.right)
                &&& q.target.bottom.same_value(q.source.bottom)
            }),
    {
        reveal(NinePatchDrawable::patch_at);
        let hs = self.h_sections@;
        let vs = self.v_sections@;
        let w = self.width as int;
        let h = self.height as int;
        lemma_identity_axis(hs, w, col);
        lemma_identity_axis(vs, h, row);
    }
}

/// Scaled to its own size, the edges of section `j` of a well-formed axis
/// equal its source edges (`start + 1` and `start + 1 + len`) as fractions.
proof fn lemma_identity_axis(secs: Seq<Section>, size: int, j: int)
    requires
        axis_wf(secs, size - 2),
        size <= usize::MAX,
        0 <= j < secs.len(),
    ensures
        ({
            let d = axis_den(secs);
            let s = secs[j];
            &&& (target_edge(secs, size, size, j) as u128) as int * 1 == ((s.start + 1) as u128) as int * (d as u128) as int
            &&& (target_edge(secs, size, size, j + 1) as u128) as int * 1 == ((s.start + 1 + s.len) as u128) as int * (d as u128) as int
        }),
{
    let d = axis_den(secs);
    let s = secs[j];
    lemma_edge_range(secs, size, size, j);
    lemma_edge_range(secs, size, size, j + 1);
    lemma_identity_edge(secs, size, j);
    lemma_identity_edge(secs, size, j + 1);
    lemma_len_sum_prefix(secs, j);
    let l = len_sum(secs.take(j));
    assert(s.start == l);
    assert(d * (1 + l) == (l + 1) * d) by (nonlinear_arith);
    assert(d * (1 + (l + s.len)) == (l + 1 + s.len) * d) by (nonlinear_arith);
}

} // verus!
