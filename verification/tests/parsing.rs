use easy_color::{CMYK, ColorError, HSL, HSLA, HSV, Hex, RGB, RGBA};

#[test]
fn hsl_parse_accepts_valid_string() {
    let hsl = HSL::try_parse("hsl(262,85%,79%)").unwrap();
    assert_eq!((hsl.hue(), hsl.saturation(), hsl.lightness()), (262, 85, 79));
}

#[test]
fn hsl_parse_rejects_out_of_range_hue_as_value_error() {
    let err = HSL::try_parse("hsl(361,0%,0%)").unwrap_err();
    assert!(matches!(err, ColorError::ValueErr(_)));
}

#[test]
fn hsl_parse_rejects_wrong_field_count_as_format_error() {
    let err = HSL::try_parse("hsl(10,20%)").unwrap_err();
    assert!(matches!(err, ColorError::FormatErr(_)));
}

#[test]
fn parsing_is_case_insensitive_and_trims() {
    let hsl = HSL::try_parse("  HSL(120, 100%, 50%)  ").unwrap();
    assert_eq!((hsl.hue(), hsl.saturation(), hsl.lightness()), (120, 100, 50));
    let rgb = RGB::try_parse("RGB(1, 2, 3)").unwrap();
    assert_eq!((rgb.red(), rgb.green(), rgb.blue()), (1, 2, 3));
}

#[test]
fn percent_signs_are_optional_on_input() {
    let hsl = HSL::try_parse("hsl(120,100,50)").unwrap();
    assert_eq!(hsl.render(), "hsl(120,100%,50%)");
}

#[test]
fn rgb_parse_errors() {
    assert!(matches!(
        RGB::try_parse("rgb(256,0,0)").unwrap_err(),
        ColorError::ValueErr(_)
    ));
    assert!(matches!(
        RGB::try_parse("rgb(1,2,x)").unwrap_err(),
        ColorError::FormatErr(_)
    ));
    assert!(matches!(
        RGB::try_parse("rgb(1,2,3,4)").unwrap_err(),
        ColorError::FormatErr(_)
    ));
    assert!(matches!(
        RGB::try_parse("rgb 1,2,3").unwrap_err(),
        ColorError::FormatErr(_)
    ));
    assert!(matches!(
        RGB::try_parse("rgb(99999999999,0,0)").unwrap_err(),
        ColorError::FormatErr(_)
    ));
}

#[test]
fn format_then_parse_round_trips_every_type() {
    let rgb = RGB::try_new(12, 0, 255).unwrap();
    assert_eq!(RGB::try_parse(&rgb.render()).unwrap(), rgb);

    let hsl = HSL::try_new(360, 0, 100).unwrap();
    assert_eq!(HSL::try_parse(&hsl.render()).unwrap(), hsl);

    let hsv = HSV::try_new(17, 5, 93).unwrap();
    assert_eq!(HSV::try_parse(&hsv.render()).unwrap(), hsv);

    let cmyk = CMYK::try_new(0, 100, 37, 4).unwrap();
    assert_eq!(CMYK::try_parse(&cmyk.render()).unwrap(), cmyk);

    let rgba = RGBA::try_new(9, 8, 7, 350).unwrap();
    assert_eq!(RGBA::try_parse(&rgba.render()).unwrap(), rgba);

    let hsla = HSLA::try_new(200, 50, 50, 123).unwrap();
    assert_eq!(HSLA::try_parse(&hsla.render()).unwrap(), hsla);

    let hex = Hex::try_parse("#a1B2c3").unwrap();
    assert_eq!(Hex::try_parse(&hex.render()).unwrap(), hex);
}

#[test]
fn hex_parse_forms() {
    let h = Hex::try_parse("0C2238").unwrap();
    assert_eq!((h.red(), h.green(), h.blue(), h.alpha()), (12, 34, 56, None));
    assert_eq!(h.render(), "#0c2238");

    let h8 = Hex::try_parse("#11223344").unwrap();
    assert_eq!(h8.alpha(), Some(0x44));
    assert_eq!(h8.render(), "#11223344");

    assert!(matches!(
        Hex::try_parse("#12345").unwrap_err(),
        ColorError::FormatErr(_)
    ));
    assert!(matches!(
        Hex::try_parse("#1122gg").unwrap_err(),
        ColorError::FormatErr(_)
    ));
}

#[test]
fn rgb_to_hex_renders_reference_string() {
    let rgb = RGB::try_new(12, 34, 56).unwrap();
    assert_eq!(rgb.to_hex().render(), "#0c2238");
}

#[test]
fn alpha_textual_forms() {
    assert_eq!(RGBA::try_new(0, 0, 0, 1000).unwrap().render(), "rgba(0,0,0,1)");
    assert_eq!(RGBA::try_new(0, 0, 0, 0).unwrap().render(), "rgba(0,0,0,0)");
    assert_eq!(RGBA::try_new(0, 0, 0, 500).unwrap().render(), "rgba(0,0,0,0.5)");
    assert_eq!(RGBA::try_new(0, 0, 0, 123).unwrap().render(), "rgba(0,0,0,0.123)");
    assert_eq!(RGBA::try_new(0, 0, 0, 120).unwrap().render(), "rgba(0,0,0,0.12)");

    let c = RGBA::try_parse("rgba(1,2,3,0.35)").unwrap();
    assert_eq!(c.alpha(), 350);
    let c = RGBA::try_parse("rgba(1,2,3,1.0)").unwrap();
    assert_eq!(c.alpha(), 1000);

    assert!(matches!(
        RGBA::try_parse("rgba(1,2,3,1.5)").unwrap_err(),
        ColorError::ValueErr(_)
    ));
    assert!(matches!(
        RGBA::try_parse("rgba(1,2,3,2)").unwrap_err(),
        ColorError::ValueErr(_)
    ));
    assert!(matches!(
        RGBA::try_parse("rgba(1,2,3,0.1234)").unwrap_err(),
        ColorError::FormatErr(_)
    ));
    assert!(matches!(
        RGBA::try_parse("rgba(1,2,3,x)").unwrap_err(),
        ColorError::FormatErr(_)
    ));
}

#[test]
fn hsla_parse_and_render() {
    let c = HSLA::try_parse("hsla(262,85%,79%,0.5)").unwrap();
    assert_eq!(
        (c.hue(), c.saturation(), c.lightness(), c.alpha()),
        (262, 85, 79, 500)
    );
    assert_eq!(c.render(), "hsla(262,85%,79%,0.5)");
    assert!(matches!(
        HSLA::try_parse("hsla(361,0%,0%,0)").unwrap_err(),
        ColorError::ValueErr(_)
    ));
}

#[test]
fn tuple_constructors_validate() {
    assert!(HSL::try_new(360, 100, 100).is_ok());
    assert!(matches!(
        HSL::try_new(361, 0, 0).unwrap_err(),
        ColorError::ValueErr(_)
    ));
    assert!(matches!(
        CMYK::try_new(0, 0, 0, 101).unwrap_err(),
        ColorError::ValueErr(_)
    ));
    assert!(matches!(
        RGBA::try_new(0, 0, 0, 1001).unwrap_err(),
        ColorError::ValueErr(_)
    ));
}

#[test]
fn cmyk_and_hsv_parse() {
    let c = CMYK::try_parse("cmyk(0%,0%,0%,100%)").unwrap();
    assert_eq!((c.cyan(), c.magenta(), c.yellow(), c.key()), (0, 0, 0, 100));
    let v = HSV::try_parse("hsv(300, 40%, 60%)").unwrap();
    assert_eq!((v.hue(), v.saturation(), v.value()), (300, 40, 60));
    assert!(matches!(
        HSV::try_parse("hsb(300,40%,60%)").unwrap_err(),
        ColorError::FormatErr(_)
    ));
}
