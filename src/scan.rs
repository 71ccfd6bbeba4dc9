use vstd::prelude::*;

use crate::types::{PatchKind, Section};

verus! {

/// The three colour channels of the pixel at byte offset `o` are all 255.
pub open spec fn is_white(b: Seq<u8>, o: int) -> bool {
    b[o] == 0xFF && b[o + 1] == 0xFF && b[o + 2] == 0xFF
}

/// White marks a fixed sample; any other colour a stretching one.
pub open spec fn pixel_kind(b: Seq<u8>, o: int) -> PatchKind {
    if is_white(b, o) {
        PatchKind::Fixed
    } else {
        PatchKind::Stretching
    }
}

/// The kinds of the samples of a border line, without its two corner samples.
pub open spec fn line_kinds(b: Seq<u8>, offset: int, step: int, count: int) -> Seq<PatchKind> {
    Seq::new((count - 2) as nat, |i: int| pixel_kind(b, offset + (i + 1) * step))
}

/// The maximal runs of equal kinds in `ks`, in order, as sections.
pub open spec fn runs(ks: Seq<PatchKind>) -> Seq<Section>
    decreases ks.len(),
{
    if ks.len() == 0 {
        seq![]
    } else {
        let prev = runs(ks.drop_last());
        let k = ks.last();
        if prev.len() > 0 && prev.last().kind == k {
            prev.update(
                prev.len() - 1,
                Section { start: prev.last().start, len: (prev.last().len + 1) as usize, kind: k },
            )
        } else {
            prev.push(Section { start: (ks.len() - 1) as usize, len: 1, kind: k })
        }
    }
}

/// The total length of a list of sections.
pub open spec fn len_sum(secs: Seq<Section>) -> int
    decreases secs.len(),
{
    if secs.len() == 0 {
        0
    } else {
        len_sum(secs.drop_last()) + secs.last().len
    }
}

/// The sections lie end to end from 0, each non-empty, and cover `n` samples.
pub open spec fn is_partition(secs: Seq<Section>, n: int) -> bool {
    &&& len_sum(secs) == n
    &&& forall|j: int| #![trigger secs[j]]
        0 <= j < secs.len() ==> secs[j].start == len_sum(secs.take(j)) && secs[j].len >= 1
}

/// One more section adds its length to the total.
proof fn lemma_len_sum_take(secs: Seq<Section>, j: int)
    requires
        0 <= j < secs.len(),
    ensures
        len_sum(secs.take(j + 1)) == len_sum(secs.take(j)) + secs[j].len,
{
    assert(secs.take(j + 1).drop_last() =~= secs.take(j));
}

/// A prefix of a list of sections is no longer than the whole list.
pub proof fn lemma_len_sum_mono(secs: Seq<Section>, j: int)
    requires
        0 <= j <= secs.len(),
    ensures
        len_sum(secs.take(j)) <= len_sum(secs),
    decreases secs.len() - j,
{
    if j < secs.len() {
        lemma_len_sum_mono(secs, j + 1);
        lemma_len_sum_take(secs, j);
    } else {
        assert(secs.take(j) =~= secs);
    }
}

/// Runs of a non-empty line: at least one, at most one per sample.
pub proof fn lemma_runs_count(ks: Seq<PatchKind>)
    ensures
        runs(ks).len() <= ks.len(),
        ks.len() > 0 ==> runs(ks).len() >= 1,
    decreases ks.len(),
{
    if ks.len() > 0 {
        lemma_runs_count(ks.drop_last());
    }
}

/// Each run ends where the next begins, and the last ends at the line's end.
pub proof fn lemma_runs_ends(ks: Seq<PatchKind>)
    requires
        ks.len() < usize::MAX,
    ensures
        forall|j: int|
            0 <= j < runs(ks).len() ==> #[trigger] runs(ks)[j].start + runs(ks)[j].len <= ks.len()
                && runs(ks)[j].len >= 1,
        ks.len() > 0 ==> runs(ks)[0].start == 0,
        forall|j: int|
            0 <= j < runs(ks).len() - 1 ==> #[trigger] runs(ks)[j].start + runs(ks)[j].len == runs(ks)[j + 1].start,
        ks.len() > 0 ==> runs(ks).last().start + runs(ks).last().len == ks.len(),
    decreases ks.len(),
{
    if ks.len() > 0 {
        lemma_runs_ends(ks.drop_last());
        lemma_runs_count(ks.drop_last());
    }
}

/// The runs lie end to end from 0 and cover the whole line.
#[verifier::rlimit(20)]
pub proof fn lemma_runs_partition(ks: Seq<PatchKind>)
    requires
        ks.len() < usize::MAX,
    ensures
        is_partition(runs(ks), ks.len() as int),
    decreases ks.len(),
{
    if ks.len() > 0 {
        let ks0 = ks.drop_last();
        lemma_runs_partition(ks0);
        let prev = runs(ks0);
        let r = runs(ks);
        if prev.len() > 0 && prev.last().kind == ks.last() {
            let last = prev.len() - 1;
            assert(prev[last].len <= len_sum(prev)) by {
                assert(prev.drop_last() =~= prev.take(last));
                lemma_len_sum_take(prev, last);
            }
            assert(r.drop_last() =~= prev.drop_last());
            assert forall|j: int| 0 <= j < r.len() implies #[trigger] r[j].start == len_sum(r.take(j))
                && r[j].len >= 1 by {
                assert(r.take(j) =~= prev.take(j));
            }
        } else {
            assert(r.drop_last() =~= prev);
            assert forall|j: int| 0 <= j < r.len() implies #[trigger] r[j].start == len_sum(r.take(j))
                && r[j].len >= 1 by {
                if j < prev.len() {
                    assert(r.take(j) =~= prev.take(j));
                } else {
                    assert(r.take(j) =~= prev);
                }
            }
        }
    }
}

/// Every sample has the kind of the run that covers it.
#[verifier::rlimit(20)]
pub proof fn lemma_runs_kinds(ks: Seq<PatchKind>)
    requires
        ks.len() < usize::MAX,
    ensures
        forall|j: int, t: int|
            0 <= j < runs(ks).len() && runs(ks)[j].start <= t < runs(ks)[j].start + runs(ks)[j].len
                && t < ks.len() ==> #[trigger] ks[t] == #[trigger] runs(ks)[j].kind,
    decreases ks.len(),
{
    if ks.len() > 0 {
        let ks0 = ks.drop_last();
        lemma_runs_kinds(ks0);
        lemma_runs_ends(ks0);
        lemma_runs_count(ks0);
        let prev = runs(ks0);
        let r = runs(ks);
        let n = ks.len() - 1;
        assert forall|j: int, t: int|
            0 <= j < r.len() && r[j].start <= t < r[j].start + r[j].len && t < ks.len() implies #[trigger] ks[t]
            == #[trigger] r[j].kind by {
            if t < n {
                assert(ks[t] == ks0[t]);
                if j == prev.len() {
                    assert(false);
                }
            }
        }
    }
}

/// A sequence of one kind is a single run.
pub proof fn lemma_uniform_runs(ks: Seq<PatchKind>, k: PatchKind)
    requires
        1 <= ks.len() < usize::MAX,
        forall|t: int| 0 <= t < ks.len() ==> #[trigger] ks[t] == k,
    ensures
        runs(ks) == seq![Section { start: 0, len: ks.len() as usize, kind: k }],
    decreases ks.len(),
{
    let prev = runs(ks.drop_last());
    if ks.len() == 1 {
        assert(ks.drop_last() =~= Seq::<PatchKind>::empty());
        assert(prev == Seq::<Section>::empty());
    } else {
        lemma_uniform_runs(ks.drop_last(), k);
    }
    assert(runs(ks) =~= seq![Section { start: 0, len: ks.len() as usize, kind: k }]);
}

/// A line whose content samples all have one kind reads as a single section
/// spanning the whole content.
pub proof fn lemma_uniform_line(b: Seq<u8>, offset: int, step: int, count: int)
    requires
        3 <= count < usize::MAX,
        forall|i: int| 1 <= i < count - 1 ==> #[trigger] pixel_kind(b, offset + i * step) == pixel_kind(b, offset + step),
    ensures
        runs(line_kinds(b, offset, step, count)) == seq![
            Section { start: 0, len: (count - 2) as usize, kind: pixel_kind(b, offset + step) },
        ],
{
    let ks = line_kinds(b, offset, step, count);
    let k = pixel_kind(b, offset + step);
    assert forall|t: int| 0 <= t < ks.len() implies #[trigger] ks[t] == k by {
        assert(pixel_kind(b, offset + (t + 1) * step) == k);
    }
    lemma_uniform_runs(ks, k);
}

/// The kind of the pixel at byte offset `o`.
fn sample_kind(bitmap: &[u8], o: usize) -> (r: PatchKind)
    requires
        o + 2 < bitmap@.len(),
    ensures
        r == pixel_kind(bitmap@, o as int),
{
    if bitmap[o] == 0xFF && bitmap[o + 1] == 0xFF && bitmap[o + 2] == 0xFF {
        PatchKind::Fixed
    } else {
        PatchKind::Stretching
    }
}

/// Reads one border line of `count` samples, `step` bytes apart from byte
/// `offset` on, into the runs of its content samples (the two corner samples
/// are left out).
#[verifier::rlimit(20)]
pub fn scan_line(bitmap: &[u8], offset: usize, step: usize, count: usize) -> (r: Vec<Section>)
    requires
        3 <= count,
        offset + (count - 1) * step + 2 < bitmap@.len(),
    ensures
        r@ == runs(line_kinds(bitmap@, offset as int, step as int, count as int)),
{
    let ghost ks = line_kinds(bitmap@, offset as int, step as int, count as int);
    // every sample offset stays below the slice's length, itself a usize
    let total = bitmap.len();
    assert(step <= (count - 1) * step) by (nonlinear_arith)
        requires count >= 3;
    let mut sections: Vec<Section> = Vec::new();
    let mut cur = Section { start: 0, len: 1, kind: sample_kind(bitmap, offset + step) };
    assert(ks[0] == pixel_kind(bitmap@, offset + 1 * step));
    assert(ks.take(1).drop_last() =~= Seq::<PatchKind>::empty());
    assert(runs(Seq::<PatchKind>::empty()) == Seq::<Section>::empty());
    assert(sections@.push(cur) =~= runs(ks.take(1)));
    let mut i: usize = 2;
    while i < count - 1
        invariant
            2 <= i <= count - 1,
            offset + (count - 1) * step + 2 < bitmap@.len(),
            total == bitmap@.len(),
            ks == line_kinds(bitmap@, offset as int, step as int, count as int),
            sections@.push(cur) == runs(ks.take(i - 1)),
            cur.len < i,
        decreases count - i,
    {
        assert(i * step <= (count - 1) * step) by (nonlinear_arith)
            requires i <= count - 1;
        let k = sample_kind(bitmap, offset + i * step);
        assert(ks.take(i as int).drop_last() =~= ks.take(i - 1));
        assert(ks.take(i as int).last() == k);
        if k == cur.kind {
            cur = Section { start: cur.start, len: cur.len + 1, kind: k };
            assert(sections@.push(cur) =~= runs(ks.take(i as int)));
        } else {
            sections.push(cur);
            cur = Section { start: i - 1, len: 1, kind: k };
            assert(sections@.push(cur) =~= runs(ks.take(i as int)));
        }
        i = i + 1;
    }
    sections.push(cur);
    assert(ks.take(i - 1) =~= ks);
    sections
}

} // verus!
