use splitwm::quantize::{lut_texels, palette_lut, ColorMode, Levels, Quantize};

const NA16: [u32; 16] = [
    0x8c8fae, 0x584563, 0x3e2137, 0x9a6348, 0xd79b7d, 0xf5edba, 0xc0c741, 0x647d34, 0xe4943a,
    0x9d303b, 0xd26471, 0x70377f, 0x7ec4c1, 0x34859d, 0x17434b, 0x1f0e1c,
];

/// The remap must contain every na16 colour and waste no slots on
/// duplicates.
#[test]
fn palette_lut_covers_na16_without_duplicates() {
    let remap: Vec<u32> = palette_lut();
    let unique: std::collections::HashSet<u32> = remap.iter().copied().collect();
    assert_eq!(unique.len(), remap.len());
    for rgb in NA16 {
        assert!(unique.contains(&rgb), "na16 colour {rgb:06x} missing");
    }
}

#[test]
fn modes_cycle_back_to_true_colour() {
    let m = ColorMode::True;
    assert_eq!(m.next(), ColorMode::Rgb332);
    assert_eq!(m.next().next(), ColorMode::Palette);
    assert_eq!(m.next().next().next(), ColorMode::True);
    assert_eq!(m.levels(), None);
    assert_eq!(ColorMode::Rgb332.levels(), Some(Levels { r: 7, g: 7, b: 3 }));
    assert_eq!(ColorMode::Palette.levels(), Some(Levels { r: 2, g: 3, b: 1 }));
}

#[test]
fn texels_are_opaque_lut_colours() {
    let t = lut_texels();
    assert_eq!(t.len(), 96);
    assert_eq!(&t[0..4], &[0x1f, 0x0e, 0x1c, 0xff]);
    assert_eq!(&t[92..96], &[0xf5, 0xed, 0xba, 0xff]);
}

#[test]
fn unsupported_post_passes_stay_true_colour() {
    let mut q = Quantize::new();
    q.unsupported = true;
    assert!(!q.cycle());
    assert_eq!(q.mode, ColorMode::True);
    let mut q = Quantize::new();
    assert!(!q.cycle());
    assert_eq!(q.mode, ColorMode::Rgb332);
    q.gpu = true;
    assert!(q.cycle());
    q.invalidate();
    assert!(!q.gpu);
}
