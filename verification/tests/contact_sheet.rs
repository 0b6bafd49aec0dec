use c41_darkroom::contact_sheet::{
    compose, fit_size, glyph_bits, sheet_size, ContactSheetCell, ContactSheetLayout, SheetError,
};

#[test]
fn grid_math() {
    let layout = ContactSheetLayout {
        columns: 4,
        cell_long: 100,
        gap: 10,
        caption_height: 10,
        background: [0, 0, 0],
    };
    let size = sheet_size(10, &layout).unwrap();
    assert_eq!(size.rows, 3);
    assert_eq!(size.width, 4 * 100 + 5 * 10);
    assert_eq!(size.height, 3 * 110 + 4 * 10);
}

#[test]
fn compose_fills_background() {
    let cell = ContactSheetCell {
        width: 2,
        height: 2,
        rgb: vec![255, 0, 0, 255, 0, 0, 255, 0, 0, 255, 0, 0],
        caption: "A".to_string(),
    };
    let layout = ContactSheetLayout {
        columns: 1,
        cell_long: 4,
        gap: 1,
        caption_height: 8,
        background: [10, 20, 30],
    };
    let (w, h, rgb) = compose(&[cell], &layout).unwrap();
    assert_eq!(w, 6);
    assert_eq!(rgb.len(), (w * h * 3) as usize);
    assert_eq!(&rgb[0..3], &[10, 20, 30]);
}

#[test]
fn default_layout() {
    let d = ContactSheetLayout::default();
    assert_eq!((d.columns, d.cell_long, d.gap, d.caption_height), (4, 400, 16, 18));
    assert_eq!(d.background, [18, 18, 20]);
}

#[test]
fn refused_sheets() {
    let layout = ContactSheetLayout::default();
    assert_eq!(sheet_size(0, &layout), Err(SheetError::NoImages));
    let empty = ContactSheetLayout {
        columns: 1,
        cell_long: 0,
        gap: 0,
        caption_height: 0,
        background: [0, 0, 0],
    };
    assert_eq!(sheet_size(3, &empty), Err(SheetError::ZeroSize));
    assert!(matches!(compose(&[], &layout), Err(SheetError::NoImages)));
    assert_eq!(SheetError::NoImages.message(), "Contact sheet needs at least one image");
    assert_eq!(SheetError::ZeroSize.message(), "Contact sheet size is zero");
}

#[test]
fn fit_matches_single_precision() {
    let mut seed = 1u64;
    let mut next = |m: u64| {
        seed = seed
            .wrapping_mul(6364136223846793005)
            .wrapping_add(1442695040888963407);
        ((seed >> 20) % m) as u32
    };
    for i in 0..20000 {
        let m = if i % 2 == 0 { 700 } else { 1 << 32 };
        let (a, b, c, d) = (next(m), next(m), next(m), next(m));
        let sw = a.max(1) as f32;
        let sh = b.max(1) as f32;
        let scale = (c as f32 / sw).min(d as f32 / sh).min(1.0);
        let want = (
            ((sw * scale).round().max(1.0) as u32).min(c),
            ((sh * scale).round().max(1.0) as u32).min(d),
        );
        assert_eq!(fit_size(a, b, c, d), want);
    }
}

#[test]
fn pictures_sit_centred_with_their_caption_below() {
    let cell = ContactSheetCell {
        width: 4,
        height: 2,
        rgb: (0..24).collect(),
        caption: "1-very-long-caption".to_string(),
    };
    let layout = ContactSheetLayout {
        columns: 1,
        cell_long: 8,
        gap: 2,
        caption_height: 9,
        background: [9, 9, 9],
    };
    let (w, h, rgb) = compose(&[cell], &layout).unwrap();
    assert_eq!((w, h), (12, 2 + 17 + 2));
    let at = |x: usize, y: usize| {
        let i = (y * 12 + x) * 3;
        [rgb[i], rgb[i + 1], rgb[i + 2]]
    };
    // no enlargement: a 4 by 2 picture in the middle of an 8 by 8 box
    assert_eq!(at(4, 5), [0, 1, 2]);
    assert_eq!(at(7, 6), [21, 22, 23]);
    assert_eq!(at(3, 5), [9, 9, 9]);
    assert_eq!(at(4, 4), [9, 9, 9]);
    // one character fits; the digit's top row has its middle dot at column 2
    let y0 = 2 + 8 + 1;
    let x0 = 2 + 1;
    assert_eq!(at(x0 + 2, y0), [210, 210, 214]);
    assert_eq!(at(x0, y0), [9, 9, 9]);
    assert_eq!(at(x0 + 1, y0 + 1), [210, 210, 214]);
    assert_eq!(at(x0 + 1, y0 + 6), [210, 210, 214]);
}

#[test]
fn cells_without_their_pixels_are_left_out() {
    let cell = ContactSheetCell {
        width: 4,
        height: 4,
        rgb: vec![255; 10],
        caption: String::new(),
    };
    let layout = ContactSheetLayout {
        columns: 2,
        cell_long: 6,
        gap: 1,
        caption_height: 7,
        background: [1, 2, 3],
    };
    let (_, _, rgb) = compose(&[cell.clone(), cell], &layout).unwrap();
    assert!(rgb.chunks(3).all(|p| p == [1, 2, 3]));
}

#[test]
fn fits_lie_in_their_box() {
    assert_eq!(fit_size(10, 10, 0, 5), (0, 1));
    assert_eq!(fit_size(10, 10, 5, 0), (1, 0));
    assert_eq!(fit_size(10, 10, 0, 0), (0, 0));
    assert_eq!(fit_size(1, 1000, 8, 10), (1, 10));
    let (w, h) = fit_size(u32::MAX, u32::MAX, (1 << 24) + 3, u32::MAX - 1);
    assert!(w <= (1 << 24) + 3 && h <= u32::MAX - 1);
}

#[test]
fn fits_are_tight() {
    for w in 1..60 {
        for h in 1..60 {
            for (bw, bh) in [(7, 9), (30, 4), (1, 50), (100, 20), (65536, 3)] {
                let r = fit_size(w, h, bw, bh);
                if w <= bw && h <= bh {
                    assert_eq!(r, (w, h));
                } else {
                    assert!(r.0 == bw || r.1 == bh);
                }
                assert_eq!(fit_size(r.0, r.1, bw, bh), r);
            }
        }
    }
}

#[test]
fn cells_without_a_side_show_no_picture() {
    let cell = ContactSheetCell { width: 2, height: 2, rgb: vec![9; 12], caption: String::new() };
    let layout = ContactSheetLayout {
        columns: 1,
        cell_long: 0,
        gap: 3,
        caption_height: 0,
        background: [1, 2, 3],
    };
    let (w, h, rgb) = compose(&[cell], &layout).ok().unwrap();
    assert_eq!((w, h), (6, 6));
    assert!(rgb.chunks(3).all(|c| c == [1, 2, 3]));
}

#[test]
fn letters_know_no_case() {
    for ch in (0u32..0x300).filter_map(char::from_u32) {
        let g = glyph_bits(ch);
        assert!(g > 0 && g < 1 << 35);
        assert_eq!(g, glyph_bits(ch.to_ascii_uppercase()));
    }
    assert_eq!(glyph_bits('-'), 0b11111_00000_00000_00000);
}
