use splitwm::image::{
    icon_samples, load_image, map_argb, pack, parse_pam_rgba, quantize_argb, unpack, Icon, IconIds,
    Rgb, Rgba,
};

fn pam(header: &str, pixels: &[u8]) -> Vec<u8> {
    let mut bytes = header.as_bytes().to_vec();
    bytes.extend_from_slice(pixels);
    bytes
}

#[test]
fn pam_parses_the_shape_magick_emits() {
    let bytes = pam(
        "P7\nWIDTH 2\nHEIGHT 1\nDEPTH 4\nMAXVAL 255\nTUPLTYPE RGB_ALPHA\nENDHDR\n",
        &[1, 2, 3, 4, 5, 6, 7, 8],
    );
    let px = |r, g, b, a| Rgba { r, g, b, a };
    assert_eq!(
        parse_pam_rgba(&bytes, 2048),
        Some((2, 1, vec![px(1, 2, 3, 4), px(5, 6, 7, 8)]))
    );
}

#[test]
fn pam_rejects_non_rgba_truncated_oversized_and_non_pam_input() {
    // Wrong tuple type / depth / maxval.
    for hdr in [
        "P7\nWIDTH 1\nHEIGHT 1\nDEPTH 2\nMAXVAL 255\nTUPLTYPE GRAYSCALE_ALPHA\nENDHDR\n",
        "P7\nWIDTH 1\nHEIGHT 1\nDEPTH 4\nMAXVAL 65535\nTUPLTYPE RGB_ALPHA\nENDHDR\n",
    ] {
        assert_eq!(parse_pam_rgba(&pam(hdr, &[0; 8]), 2048), None);
    }
    // Fewer samples than WIDTH*HEIGHT*4 claims.
    let hdr = "P7\nWIDTH 2\nHEIGHT 2\nDEPTH 4\nMAXVAL 255\nTUPLTYPE RGB_ALPHA\nENDHDR\n";
    assert_eq!(parse_pam_rgba(&pam(hdr, &[0; 15]), 2048), None);
    // Declared dimensions above the cap are rejected before any copy.
    assert_eq!(parse_pam_rgba(&pam(hdr, &[0; 16]), 1), None);
    // Arbitrary non-PAM bytes.
    assert_eq!(parse_pam_rgba(b"JFIF-not-a-pam", 2048), None);
    assert_eq!(parse_pam_rgba(&[0u8; 64], 2048), None);
}

#[test]
fn pam_headers_must_be_text_and_must_end() {
    let bad = [b'P', b'7', b'\n', 0xff, 0xfe, b'\n', b'E'];
    assert_eq!(parse_pam_rgba(&bad, 16), None);
    assert_eq!(parse_pam_rgba(b"P7\nWIDTH 1\nHEIGHT 1\n", 16), None);
    // Unknown lines are passed over, and values are trimmed.
    let odd = pam("P7\n# a note\nWIDTH  1\nHEIGHT 1 \nENDHDR\n", &[9, 8, 7, 6]);
    assert_eq!(
        parse_pam_rgba(&odd, 16),
        Some((1, 1, vec![Rgba { r: 9, g: 8, b: 7, a: 6 }]))
    );
    // A later size that is no number takes the earlier one back.
    let twice = pam("P7\nWIDTH 1\nWIDTH x\nHEIGHT 1\nENDHDR\n", &[0; 4]);
    assert_eq!(parse_pam_rgba(&twice, 16), None);
}

#[test]
fn short_icons_are_padded_and_numbered() {
    let mut ids = IconIds { next: 5 };
    let a = Icon::new(&mut ids, 2, 2, vec![0xff00_0001]);
    let b = Icon::new(&mut ids, 1, 1, vec![1, 2, 3]);
    assert_eq!(a.argb, vec![0xff00_0001, 0, 0, 0]);
    assert_eq!(b.argb, vec![1, 2, 3]);
    assert_eq!((a.id(), b.id()), (5, 6));
}

#[test]
fn images_load_as_packed_pixels() {
    let mut ids = IconIds { next: 0 };
    let bytes = pam(
        "P7\nWIDTH 1\nHEIGHT 1\nDEPTH 4\nMAXVAL 255\nTUPLTYPE RGB_ALPHA\nENDHDR\n",
        &[1, 2, 3, 4],
    );
    let icon = load_image(&mut ids, &bytes).unwrap();
    assert_eq!(icon.argb, vec![0x0401_0203]);
    assert!(load_image(&mut ids, b"no image").is_none());
    assert_eq!(ids.next, 1);
}

#[test]
fn packing_round_trips_on_pixels() {
    let p = Rgba { r: 1, g: 2, b: 3, a: 200 };
    assert_eq!(pack(p), 0xc801_0203);
    assert_eq!(unpack(pack(p)), p);
}

#[test]
fn snapping_keeps_alpha_and_leaves_holes() {
    let c = Rgb { r: 10, g: 20, b: 30 };
    assert_eq!(quantize_argb(0x8011_2233, c), 0x800a_141e);
    assert_eq!(quantize_argb(0x0011_2233, c), 0x0011_2233);
}

#[test]
fn mapping_an_icon_makes_another() {
    let mut ids = IconIds { next: 0 };
    let a = Icon::new(&mut ids, 1, 2, vec![1, 2]);
    let b = map_argb(&mut ids, &a, |px| px + 10);
    assert_eq!(b.argb, vec![11, 12]);
    assert_eq!((b.w, b.h, b.id()), (1, 2, 1));
}

#[test]
fn icons_scale_letterboxed_and_centred() {
    let mut ids = IconIds { next: 0 };
    let opaque = 0xff01_0203;
    let faint = 0x7f01_0203;
    let icon = Icon::new(&mut ids, 2, 1, vec![opaque, faint]);
    let c = Some(Rgb { r: 1, g: 2, b: 3 });
    // Two wide, one high, in a box of four: two rows of four columns, one
    // row of padding above and below.
    assert_eq!(
        icon_samples(&icon, 4),
        vec![
            None, None, None, None,
            c, c, None, None,
            c, c, None, None,
            None, None, None, None,
        ]
    );
}
