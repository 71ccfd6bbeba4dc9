use ninepatch::scan::scan_line;
use ninepatch::{NinePatchDrawable, NinePatchError, PatchKind, Ratio, Section};

const W: u8 = 0xFF;

/// Builds a bitmap of `width` by `height` pixels from one code per pixel:
/// 9 is white, 0 black, 1 a dark grey.
fn bitmap(codes: &[u8], width: usize, stride_pixels: usize) -> Vec<u8> {
    let mut out = vec![];
    for (i, c) in codes.iter().enumerate() {
        let px = match c {
            9 => [W, W, W, 0],
            1 => [1, 1, 1, 0],
            _ => [0, 0, 0, 0xFF],
        };
        out.extend_from_slice(&px);
        if (i + 1) % width == 0 {
            for _ in width..stride_pixels {
                out.extend_from_slice(&[0, 0, 0, 0]);
            }
        }
    }
    out
}

fn nine_slice_drawable() -> NinePatchDrawable {
    let codes = [
        0, 9, 0, 0, 0, 9, 0,
        9, 1, 1, 1, 1, 1, 0,
        0, 1, 1, 1, 1, 1, 9,
        0, 1, 1, 1, 1, 1, 9,
        0, 1, 1, 1, 1, 1, 9,
        9, 1, 1, 1, 1, 1, 0,
        0, 0, 9, 9, 9, 0, 0,
    ];
    NinePatchDrawable::new(&bitmap(&codes, 7, 9), 36, 7, 7).unwrap()
}

fn sum(secs: &[Section]) -> usize {
    secs.iter().map(|s| s.len).sum()
}

fn lens(secs: &[Section]) -> Vec<usize> {
    secs.iter().map(|s| s.len).collect()
}

fn approx(r: Ratio) -> f64 {
    r.num as f64 / r.den as f64
}

#[test]
fn sections_cover_content() {
    let codes = [
        0, 9, 0, 9, 9, 0, 0, 9, 0,
        0, 1, 1, 1, 1, 1, 1, 1, 0,
        9, 1, 1, 1, 1, 1, 1, 1, 9,
        0, 1, 1, 1, 1, 1, 1, 1, 0,
        0, 0, 0, 0, 9, 9, 0, 0, 0,
    ];
    let d = NinePatchDrawable::new(&bitmap(&codes, 9, 9), 36, 9, 5).unwrap();
    assert_eq!(sum(&d.h_sections), 7);
    assert_eq!(sum(&d.v_sections), 3);
    assert_eq!(lens(&d.h_sections), vec![1, 1, 2, 2, 1]);
    assert_eq!(d.h_sections[2].start, 2);
    assert_eq!(d.h_sections[3].kind, PatchKind::Stretching);
    assert_eq!(d.margin_left, 3);
    assert_eq!(d.margin_right, 2);
    assert_eq!(d.margin_top, 1);
    assert_eq!(d.margin_bottom, 1);
}

#[test]
fn uniform_line_is_one_section() {
    let white = vec![W; 4 * 6];
    assert_eq!(
        scan_line(&white, 0, 4, 6),
        vec![Section { start: 0, len: 4, kind: PatchKind::Fixed }]
    );
    let black = vec![0u8; 4 * 6];
    assert_eq!(
        scan_line(&black, 0, 4, 6),
        vec![Section { start: 0, len: 4, kind: PatchKind::Stretching }]
    );
    // corners of another colour are not part of any section
    let mut cornered = vec![0u8; 4 * 3];
    cornered[4..7].copy_from_slice(&[W, W, W]);
    assert_eq!(
        scan_line(&cornered, 0, 4, 3),
        vec![Section { start: 0, len: 1, kind: PatchKind::Fixed }]
    );
}

#[test]
fn alternating_line_has_one_section_per_sample() {
    let mut line = vec![0u8; 4 * 7];
    for i in [1usize, 3, 5] {
        line[4 * i..4 * i + 3].copy_from_slice(&[W, W, W]);
    }
    let secs = scan_line(&line, 0, 4, 7);
    assert_eq!(secs.len(), 5);
    assert!(secs.iter().all(|s| s.len == 1));
    assert_eq!(secs[4].start, 4);
}

#[test]
fn column_scan_uses_the_stride() {
    // a 2-pixel wide, 5-pixel tall column read at stride 8
    let mut b = vec![0u8; 8 * 5];
    for row in [1usize, 2] {
        b[8 * row..8 * row + 3].copy_from_slice(&[W, W, W]);
    }
    let secs = scan_line(&b, 0, 8, 5);
    assert_eq!(
        secs,
        vec![
            Section { start: 0, len: 2, kind: PatchKind::Fixed },
            Section { start: 2, len: 1, kind: PatchKind::Stretching },
        ]
    );
}

#[test]
fn fixed_sections_keep_length_and_rows_span_target() {
    let d = nine_slice_drawable();
    let patches = d.scale_to(14, 11);
    assert_eq!(patches.len(), 9);
    for p in &patches {
        let tw = approx(p.target.right) - approx(p.target.left);
        let th = approx(p.target.bottom) - approx(p.target.top);
        let sw = approx(p.source.right) - approx(p.source.left);
        let sh = approx(p.source.bottom) - approx(p.source.top);
        if p.h_kind == PatchKind::Fixed {
            assert_eq!(tw, sw);
        } else {
            assert_eq!(tw, 10.0);
        }
        if p.v_kind == PatchKind::Fixed {
            assert_eq!(th, sh);
        } else {
            assert_eq!(th, 7.0);
        }
    }
    for row in 0..3 {
        assert_eq!(approx(patches[row * 3].target.left), 1.0);
        assert_eq!(approx(patches[row * 3 + 2].target.right), 13.0);
        assert_eq!(patches[row * 3].target.right, patches[row * 3 + 1].target.left);
        assert_eq!(patches[row * 3 + 1].target.right, patches[row * 3 + 2].target.left);
    }
    for col in 0..3 {
        assert_eq!(approx(patches[col].target.top), 1.0);
        assert_eq!(approx(patches[6 + col].target.bottom), 10.0);
    }
}

#[test]
fn identity_scaling_keeps_rectangles() {
    let codes = [
        0, 9, 0, 0, 9, 0, 9, 0,
        0, 1, 1, 1, 1, 1, 1, 0,
        9, 1, 1, 1, 1, 1, 1, 9,
        9, 1, 1, 1, 1, 1, 1, 9,
        0, 1, 1, 1, 1, 1, 1, 0,
        0, 0, 9, 9, 9, 0, 0, 0,
    ];
    let d = NinePatchDrawable::new(&bitmap(&codes, 8, 8), 32, 8, 6).unwrap();
    let patches = d.scale_to(8, 6);
    assert_eq!(patches.len(), d.h_sections.len() * d.v_sections.len());
    for p in &patches {
        assert_eq!(approx(p.target.left), approx(p.source.left));
        assert_eq!(approx(p.target.top), approx(p.source.top));
        assert_eq!(approx(p.target.right), approx(p.source.right));
        assert_eq!(approx(p.target.bottom), approx(p.source.bottom));
    }
}

#[test]
fn exact_fractional_edges() {
    // two stretching columns of one pixel share 43 extra pixels
    let codes = [
        0, 9, 0, 9, 0, 9, 0,
        9, 1, 1, 1, 1, 1, 0,
        0, 1, 1, 1, 1, 1, 9,
        0, 1, 1, 1, 1, 1, 9,
        0, 1, 1, 1, 1, 1, 9,
        9, 1, 1, 1, 1, 1, 0,
        0, 0, 9, 9, 9, 0, 0,
    ];
    let d = NinePatchDrawable::new(&bitmap(&codes, 7, 7), 28, 7, 7).unwrap();
    let patches = d.scale_to(48, 7);
    assert_eq!(patches[1].target.left, Ratio { num: 4, den: 2 });
    assert_eq!(patches[1].target.right, Ratio { num: 47, den: 2 });
    assert_eq!(patches[3].target.right, Ratio { num: 92, den: 2 });
    assert_eq!(patches[4].target.right, Ratio { num: 94, den: 2 });
}

#[test]
fn all_fixed_axis_keeps_its_size() {
    let codes = [
        0, 9, 9, 9, 0,
        0, 1, 1, 1, 0,
        0, 1, 1, 1, 9,
        0, 1, 1, 1, 0,
        0, 0, 9, 0, 0,
    ];
    let d = NinePatchDrawable::new(&bitmap(&codes, 5, 5), 20, 5, 5).unwrap();
    assert_eq!(lens(&d.h_sections), vec![3]);
    let patches = d.scale_to(9, 9);
    assert_eq!(patches.len(), 1);
    assert_eq!(approx(patches[0].target.right), 4.0);
    assert_eq!(approx(patches[0].target.bottom), 8.0);
}

#[test]
fn smallest_bitmap() {
    let codes = [
        0, 0, 0,
        0, 1, 0,
        0, 0, 0,
    ];
    let d = NinePatchDrawable::new(&bitmap(&codes, 3, 3), 12, 3, 3);
    // the margin lines are uniform: one section each, which is not a margin
    assert!(matches!(d, Err(NinePatchError::InvalidMargin)));
    let codes = [
        0, 0, 0, 0, 0,
        0, 1, 1, 1, 0,
        0, 1, 1, 1, 9,
        0, 1, 1, 1, 0,
        0, 0, 9, 0, 0,
    ];
    let d = NinePatchDrawable::new(&bitmap(&codes, 5, 5), 20, 5, 5).unwrap();
    assert_eq!(d.h_sections, vec![Section { start: 0, len: 3, kind: PatchKind::Stretching }]);
    assert_eq!(d.v_sections, vec![Section { start: 0, len: 3, kind: PatchKind::Stretching }]);
}

#[test]
fn margin_with_one_or_two_sections_is_rejected() {
    // right column uniform: one section
    let one = [
        0, 9, 0, 0, 0,
        0, 1, 1, 1, 0,
        0, 1, 1, 1, 0,
        0, 1, 1, 1, 0,
        0, 0, 9, 0, 0,
    ];
    let r = NinePatchDrawable::new(&bitmap(&one, 5, 5), 20, 5, 5);
    assert_eq!(r.unwrap_err(), NinePatchError::InvalidMargin);
    // bottom row with two sections
    let two = [
        0, 9, 0, 0, 0,
        0, 1, 1, 1, 0,
        0, 1, 1, 1, 9,
        0, 1, 1, 1, 0,
        0, 9, 9, 0, 0,
    ];
    let r = NinePatchDrawable::new(&bitmap(&two, 5, 5), 20, 5, 5);
    assert_eq!(r.unwrap_err(), NinePatchError::InvalidMargin);
    assert_eq!(NinePatchError::InvalidMargin.to_string(), "invalid margin");
}

#[test]
fn malformed_buffer_is_rejected() {
    let ok = vec![0u8; 36 * 7];
    assert_eq!(
        NinePatchDrawable::new(&ok[..36 * 7 - 1], 36, 7, 7).unwrap_err(),
        NinePatchError::InvalidBitmap
    );
    assert_eq!(
        NinePatchDrawable::new(&ok, 36, 7, 8).unwrap_err(),
        NinePatchError::InvalidBitmap
    );
    assert_eq!(
        NinePatchDrawable::new(&ok, 36, 10, 7).unwrap_err(),
        NinePatchError::InvalidBitmap
    );
    assert_eq!(
        NinePatchDrawable::new(&vec![0u8; 36 * 2], 36, 7, 2).unwrap_err(),
        NinePatchError::InvalidBitmap
    );
    assert_eq!(
        NinePatchDrawable::new(&vec![0u8; 8 * 7], 8, 2, 7).unwrap_err(),
        NinePatchError::InvalidBitmap
    );
    assert_eq!(
        NinePatchDrawable::new(&[], usize::MAX, usize::MAX, 2).unwrap_err(),
        NinePatchError::InvalidBitmap
    );
    assert_eq!(NinePatchError::InvalidBitmap.to_string(), "invalid bitmap");
}

#[test]
fn seven_by_seven_scenario() {
    let d = nine_slice_drawable();
    assert_eq!(lens(&d.h_sections), vec![1, 3, 1]);
    assert_eq!(lens(&d.v_sections), vec![1, 3, 1]);
    assert_eq!(
        (d.margin_left, d.margin_top, d.margin_right, d.margin_bottom),
        (1, 1, 1, 1)
    );
    let patches = d.scale_to(7, 7);
    assert_eq!(patches.len(), 9);
    for p in &patches {
        assert_eq!(approx(p.target.left), approx(p.source.left));
        assert_eq!(approx(p.target.right), approx(p.source.right));
        assert_eq!(approx(p.target.top), approx(p.source.top));
        assert_eq!(approx(p.target.bottom), approx(p.source.bottom));
    }
}

#[test]
fn fourteen_by_fourteen_scenario() {
    let d = nine_slice_drawable();
    let patches = d.scale_to(14, 14);
    let widths: Vec<f64> = patches[..3]
        .iter()
        .map(|p| approx(p.target.right) - approx(p.target.left))
        .collect();
    assert_eq!(widths, vec![1.0, 10.0, 1.0]);
    let heights: Vec<f64> = [0usize, 3, 6]
        .iter()
        .map(|&i| approx(patches[i].target.bottom) - approx(patches[i].target.top))
        .collect();
    assert_eq!(heights, vec![1.0, 10.0, 1.0]);
    assert_eq!(approx(patches[1].target.right), 12.0);
}

#[test]
fn well_formedness_check() {
    let mut d = nine_slice_drawable();
    assert!(d.is_well_formed());
    d.h_sections[1].len = 2;
    assert!(!d.is_well_formed());
    let mut d = nine_slice_drawable();
    d.v_sections[0].kind = PatchKind::Unknown;
    assert!(!d.is_well_formed());
    let mut d = nine_slice_drawable();
    d.h_sections.clear();
    assert!(!d.is_well_formed());
}
