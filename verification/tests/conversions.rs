use easy_color::{CMYK, HSL, HSV, Hex, RGB, RGBA};

#[test]
fn hsl_to_rgb_reference_value() {
    let hsl = HSL::try_new(125, 60, 75).unwrap();
    let rgb: RGB = hsl.to_rgb();
    assert_eq!((rgb.red(), rgb.green(), rgb.blue()), (153, 229, 159));
    assert_eq!(rgb.render(), "rgb(153,229,159)");
}

#[test]
fn red_round_trips_exactly_through_hsl() {
    let rgb = RGB::try_new(255, 0, 0).unwrap();
    let hsl = rgb.to_hsl();
    assert_eq!((hsl.hue(), hsl.saturation(), hsl.lightness()), (0, 100, 50));
    let back = hsl.to_rgb();
    assert_eq!((back.red(), back.green(), back.blue()), (255, 0, 0));
}

/// Whole-percent HSL carries about half a percent of quantization per
/// channel, which is a handful of 0..=255 units on dark saturated colors
/// (rgb(0,0,17) comes back as rgb(0,0,15)), so the round trip is checked
/// against that quantization bound rather than exactness.
#[test]
fn rgb_hsl_round_trip_within_quantization_bound() {
    let mut worst: i64 = 0;
    let mut c: u32 = 0;
    while c < 16 * 16 * 16 {
        let r = (c / 256) * 17;
        let g = ((c / 16) % 16) * 17;
        let b = (c % 16) * 17;
        let rgb = RGB::try_new(r, g, b).unwrap();
        let back = rgb.to_hsl().to_rgb();
        let dr = (back.red() as i64 - r as i64).abs();
        let dg = (back.green() as i64 - g as i64).abs();
        let db = (back.blue() as i64 - b as i64).abs();
        let d = dr.max(dg).max(db);
        if d > worst {
            worst = d;
        }
        assert!(d <= 6, "drift {} at rgb({},{},{})", d, r, g, b);
        c += 1;
    }
    assert!(worst >= 1);
}

/// On colors bright enough that one percent of lightness stays under one
/// channel unit of error, the round trip stays within one unit per channel.
#[test]
fn rgb_hsl_round_trip_within_one_on_bright_grays() {
    let mut v: u32 = 0;
    while v <= 255 {
        let rgb = RGB::try_new(v, v, v).unwrap();
        let back = rgb.to_hsl().to_rgb();
        let dv = (back.red() as i64 - v as i64).abs();
        assert!(dv <= 1, "drift at gray {}", v);
        assert_eq!(back.red(), back.green());
        assert_eq!(back.green(), back.blue());
        v += 1;
    }
}

#[test]
fn hex_round_trip_is_exact_for_every_sampled_rgb() {
    let mut c: u32 = 0;
    while c < 16 * 16 * 16 {
        let r = (c / 256) * 17;
        let g = ((c / 16) % 16) * 17;
        let b = (c % 16) * 17;
        let rgb = RGB::try_new(r, g, b).unwrap();
        let back = rgb.to_hex().to_rgb();
        assert_eq!((back.red(), back.green(), back.blue()), (r, g, b));
        c += 1;
    }
}

#[test]
fn cmyk_black_boundary() {
    let rgb = RGB::try_new(0, 0, 0).unwrap();
    let cmyk = rgb.to_cmyk();
    assert_eq!(
        (cmyk.cyan(), cmyk.magenta(), cmyk.yellow(), cmyk.key()),
        (0, 0, 0, 100)
    );
    assert_eq!(cmyk.render(), "cmyk(0%,0%,0%,100%)");
    let back = cmyk.to_rgb();
    assert_eq!((back.red(), back.green(), back.blue()), (0, 0, 0));
}

#[test]
fn every_ordered_pair_of_types_converts() {
    let rgb = RGB::try_new(10, 200, 30).unwrap();
    let rgba = RGBA::try_new(10, 200, 30, 500).unwrap();
    let hsl = HSL::try_new(300, 40, 60).unwrap();
    let hsla = hsl.to_hsla();
    let hsv = HSV::try_new(300, 40, 60).unwrap();
    let cmyk = CMYK::try_new(10, 20, 30, 40).unwrap();
    let hex = Hex::try_parse("#01020304").unwrap();

    let _ = (rgb.to_rgba(), rgb.to_hsl(), rgb.to_hsla(), rgb.to_hsv(), rgb.to_cmyk(), rgb.to_hex());
    let _ = (rgba.to_rgb(), rgba.to_hsl(), rgba.to_hsla(), rgba.to_hsv(), rgba.to_cmyk(), rgba.to_hex());
    let _ = (hsl.to_rgb(), hsl.to_rgba(), hsl.to_hsla(), hsl.to_hsv(), hsl.to_cmyk(), hsl.to_hex());
    let _ = (hsla.to_rgb(), hsla.to_rgba(), hsla.to_hsl(), hsla.to_hsv(), hsla.to_cmyk(), hsla.to_hex());
    let _ = (hsv.to_rgb(), hsv.to_rgba(), hsv.to_hsl(), hsv.to_hsla(), hsv.to_cmyk(), hsv.to_hex());
    let _ = (cmyk.to_rgb(), cmyk.to_rgba(), cmyk.to_hsl(), cmyk.to_hsla(), cmyk.to_hsv(), cmyk.to_hex());
    let _ = (hex.to_rgb(), hex.to_rgba(), hex.to_hsl(), hex.to_hsla(), hex.to_hsv(), hex.to_cmyk());
}

#[test]
fn alpha_defaults_and_discards() {
    let rgb = RGB::try_new(1, 2, 3).unwrap();
    assert_eq!(rgb.to_rgba().alpha(), 1000);
    assert_eq!(rgb.to_hsla().alpha(), 1000);
    let rgba = RGBA::try_new(1, 2, 3, 250).unwrap();
    let dropped = rgba.to_rgb();
    assert_eq!((dropped.red(), dropped.green(), dropped.blue()), (1, 2, 3));
    assert_eq!(rgba.to_hsla().alpha(), 250);
}

#[test]
fn hex_alpha_byte_survives_rgba_round_trip() {
    let hex = Hex::try_parse("#00000080").unwrap();
    let rgba = hex.to_rgba();
    assert_eq!(rgba.alpha(), 502);
    let back = rgba.to_hex();
    assert_eq!(back.alpha(), Some(128));
    assert_eq!(back.render(), "#00000080");
}

#[test]
fn hsv_reference_values() {
    let rgb = RGB::try_new(255, 0, 0).unwrap();
    let hsv = rgb.to_hsv();
    assert_eq!((hsv.hue(), hsv.saturation(), hsv.value()), (0, 100, 100));
    let back = hsv.to_rgb();
    assert_eq!((back.red(), back.green(), back.blue()), (255, 0, 0));
    let gray = RGB::try_new(128, 128, 128).unwrap().to_hsv();
    assert_eq!((gray.hue(), gray.saturation(), gray.value()), (0, 0, 50));
}
