use easy_color::{HSL, HSLA, HSV};

#[test]
fn darken_and_lighten_reference_values() {
    let mut color = HSL::try_parse("hsl(120, 100%, 50%)").unwrap();
    color.darken(20);
    assert_eq!(color.lightness(), 40);
    assert_eq!(color.render(), "hsl(120,100%,40%)");

    let mut color = HSL::try_parse("hsl(120, 100%, 50%)").unwrap();
    color.lighten(20);
    assert_eq!(color.lightness(), 60);
    assert_eq!(color.render(), "hsl(120,100%,60%)");
}

#[test]
fn rotate_wraps_in_both_directions() {
    let mut color = HSL::try_parse("hsl(120, 100%, 50%)").unwrap();
    color.rotate(60);
    assert_eq!(color.hue(), 180);
    assert_eq!(color.render(), "hsl(180,100%,50%)");

    let mut color = HSL::try_parse("hsl(120, 100%, 50%)").unwrap();
    color.rotate(-150);
    assert_eq!(color.hue(), 330);

    let mut color = HSL::try_new(350, 10, 10).unwrap();
    color.rotate(20);
    assert_eq!(color.hue(), 10);

    let mut color = HSL::try_new(10, 10, 10).unwrap();
    color.rotate(-730);
    assert_eq!(color.hue(), 0);
}

#[test]
fn setters_clamp_to_the_valid_range() {
    let mut color = HSL::try_new(0, 0, 0).unwrap();
    color.set_hue(400);
    assert_eq!(color.hue(), 360);
    color.set_saturation(150);
    assert_eq!(color.saturation(), 100);
    color.set_lightness(101);
    assert_eq!(color.lightness(), 100);
    color.set_lightness(50);
    assert_eq!(color.render(), "hsl(360,100%,50%)");
}

#[test]
fn darken_saturates_at_zero_for_large_ratios() {
    let mut color = HSL::try_new(10, 10, 40).unwrap();
    color.darken(300);
    assert_eq!(color.lightness(), 0);

    let mut color = HSL::try_new(10, 10, 40).unwrap();
    color.lighten(300);
    assert_eq!(color.lightness(), 100);
}

#[test]
fn darken_truncates_like_the_ratio_product() {
    let mut color = HSL::try_new(0, 0, 33).unwrap();
    color.darken(10);
    assert_eq!(color.lightness(), 30);

    let mut color = HSL::try_new(0, 0, 33).unwrap();
    color.lighten(10);
    assert_eq!(color.lightness(), 36);
}

#[test]
fn hsv_mutators() {
    let mut v = HSV::try_new(120, 100, 50).unwrap();
    v.darken(20);
    assert_eq!(v.value(), 40);
    v.lighten(50);
    assert_eq!(v.value(), 60);
    v.rotate(-121);
    assert_eq!(v.hue(), 359);
    v.set_value(200);
    assert_eq!(v.value(), 100);
    v.set_saturation(7);
    assert_eq!(v.saturation(), 7);
    v.set_hue(361);
    assert_eq!(v.hue(), 360);
}

#[test]
fn hsla_mutators_keep_alpha() {
    let mut c = HSLA::try_new(120, 100, 50, 250).unwrap();
    c.darken(20);
    assert_eq!((c.lightness(), c.alpha()), (40, 250));
    c.lighten(25);
    assert_eq!(c.lightness(), 50);
    c.rotate(240);
    assert_eq!(c.hue(), 0);
    c.set_alpha(2000);
    assert_eq!(c.alpha(), 1000);
    c.set_hue(10);
    c.set_saturation(20);
    c.set_lightness(30);
    assert_eq!(c.render(), "hsla(10,20%,30%,1)");
}
