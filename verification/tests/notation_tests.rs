use duck_color_picker::cmyk::cmyk;
use duck_color_picker::color::{hex, rgb};
use duck_color_picker::hsl::hsl;
use duck_color_picker::copy_format::{copied_toast_url, CopyFormat};
use duck_color_picker::naming::{classify_color, color_name, ColorName};
use duck_color_picker::sample::sample;
use duck_color_picker::text::decimal_string;

#[test]
fn sample_of_red_has_every_notation() {
    let c = sample(255, 0, 0);
    assert_eq!((c.r, c.g, c.b), (255, 0, 0));
    assert_eq!(c.hex, "#FF0000");
    assert_eq!(c.rgb, "rgb(255, 0, 0)");
    assert_eq!(c.hsl, "hsl(0, 100%, 50%)");
    assert_eq!(c.cmyk, "cmyk(0%, 100%, 100%, 0%)");
    assert_eq!(c.name, "红色");
}

#[test]
fn plain_hex_copy_drops_the_hash() {
    let c = sample(0x12, 0xab, 0xef);
    assert_eq!(c.hex, "#12ABEF");
    assert_eq!(CopyFormat::Hex.value(&c), "12ABEF");
    assert_eq!(CopyFormat::HexWithHash.value(&c), "#12ABEF");
    assert_eq!(CopyFormat::default(), CopyFormat::Hex);
    assert_eq!(CopyFormat::default().value(&sample(255, 0, 0)), "FF0000");
}

#[test]
fn plain_hex_copy_drops_every_leading_hash() {
    let mut c = sample(1, 2, 3);
    c.hex = String::from("##AB#C");
    assert_eq!(CopyFormat::Hex.value(&c), "AB#C");
    c.hex = String::from("###");
    assert_eq!(CopyFormat::Hex.value(&c), "");
}

#[test]
fn hsl_of_known_colors() {
    assert_eq!(hsl(0, 0, 0), "hsl(0, 0%, 0%)");
    assert_eq!(hsl(255, 255, 255), "hsl(0, 0%, 100%)");
    assert_eq!(hsl(0, 255, 0), "hsl(120, 100%, 50%)");
    assert_eq!(hsl(0, 0, 255), "hsl(240, 100%, 50%)");
    assert_eq!(hsl(255, 0, 255), "hsl(300, 100%, 50%)");
    assert_eq!(hsl(128, 128, 128), "hsl(0, 0%, 50%)");
    assert_eq!(hsl(255, 128, 0), "hsl(30, 100%, 50%)");
    // Hue just below 360 degrees rounds up to 360.
    assert_eq!(hsl(255, 0, 1), "hsl(360, 100%, 50%)");
    assert_eq!(hsl(222, 222, 222), "hsl(0, 0%, 87%)");
}

#[test]
fn hsl_rounds_as_f64_arithmetic_does() {
    // The exact hue of (0, 39, 120) is 220.5 degrees; in f64 it falls just below.
    assert_eq!(hsl(0, 39, 120), "hsl(220, 100%, 24%)");
    assert_eq!(hsl(0, 87, 120), "hsl(196, 100%, 24%)");
}

#[test]
fn cmyk_of_known_colors() {
    assert_eq!(cmyk(0, 0, 0), "cmyk(0%, 0%, 0%, 100%)");
    assert_eq!(cmyk(255, 255, 255), "cmyk(0%, 0%, 0%, 0%)");
    assert_eq!(cmyk(0, 128, 255), "cmyk(100%, 50%, 0%, 0%)");
    assert_eq!(cmyk(222, 222, 222), "cmyk(0%, 0%, 0%, 13%)");
    assert_eq!(cmyk(100, 50, 0), "cmyk(0%, 50%, 100%, 61%)");
}

#[test]
fn cmyk_rounds_as_f64_arithmetic_does() {
    // The exact magenta of (0, 15, 40) is 62.5%; in f64 it falls just below.
    assert_eq!(cmyk(0, 15, 40), "cmyk(100%, 62%, 0%, 84%)");
    assert_eq!(cmyk(0, 21, 200), "cmyk(100%, 89%, 0%, 22%)");
}

#[test]
fn hex_and_rgb_notations() {
    assert_eq!(hex(0, 0, 0), "#000000");
    assert_eq!(hex(10, 160, 255), "#0AA0FF");
    assert_eq!(rgb(0, 9, 10), "rgb(0, 9, 10)");
    assert_eq!(rgb(255, 100, 1), "rgb(255, 100, 1)");
}

#[test]
fn decimal_text() {
    assert_eq!(decimal_string(0), "0");
    assert_eq!(decimal_string(7), "7");
    assert_eq!(decimal_string(10), "10");
    assert_eq!(decimal_string(18446744073709551615), "18446744073709551615");
}

#[test]
fn names_of_dark_grays_and_hues() {
    assert_eq!(color_name(0, 0, 0), "黑色");
    assert_eq!(color_name(24, 0, 0), "黑色");
    assert_eq!(color_name(255, 255, 255), "白色");
    assert_eq!(color_name(40, 40, 44), "深灰色");
    assert_eq!(color_name(200, 200, 200), "浅灰色");
    assert_eq!(color_name(0, 255, 0), "绿色");
    assert_eq!(color_name(0, 0, 255), "蓝色");
    assert_eq!(color_name(0, 255, 255), "青绿色");
    assert_eq!(color_name(255, 255, 0), "黄色");
    assert_eq!(color_name(255, 0, 255), "紫色");
    assert_eq!(color_name(128, 0, 128), "深紫色");
    assert_eq!(color_name(255, 0, 64), "玫红色");
    assert_eq!(color_name(255, 0, 128), "粉色");
    assert_eq!(color_name(60, 0, 0), "深红色");
    assert_eq!(color_name(0, 60, 0), "深绿色");
    assert_eq!(classify_color(60, 30, 10), ColorName::DarkBrown);
    assert_eq!(ColorName::DarkBrown.text(), "深棕色");
}

#[test]
fn names_follow_f32_hue_arithmetic() {
    // The exact hue of (2, 135, 230) is 205 degrees; in f32 it is just below,
    // so the colour is named cyan rather than blue.
    assert_eq!(color_name(2, 135, 230), "青色");
    assert_eq!(color_name(3, 150, 255), "青色");
}

#[test]
fn toast_url_encodes_every_utf8_byte() {
    let url = copied_toast_url(CopyFormat::Rgb, "红 1");
    assert_eq!(url, "toast.html?format=RGB&value=%E7%BA%A2%20%31");
    let url = copied_toast_url(CopyFormat::HexWithHash, "");
    assert_eq!(url, "toast.html?format=HEX&value=");
}

#[test]
fn labels_and_setting_names() {
    assert_eq!(CopyFormat::Cmyk.label(), "CMYK");
    assert_eq!(CopyFormat::HexWithHash.label(), "HEX");
    for f in [CopyFormat::Hex, CopyFormat::HexWithHash, CopyFormat::Rgb, CopyFormat::Hsl, CopyFormat::Cmyk] {
        assert_eq!(CopyFormat::from_setting_name(f.setting_name()), Some(f));
    }
    assert_eq!(CopyFormat::from_setting_name("Hex"), None);
}

#[test]
fn gray_lightness_and_channel_order() {
    // A gray of channel v has lightness round(100 * v / 255).
    assert_eq!(hsl(51, 51, 51), "hsl(0, 0%, 20%)");
    // Saturation and lightness ignore the order of the channels.
    assert_eq!(hsl(10, 200, 60), "hsl(136, 90%, 41%)");
    assert_eq!(hsl(60, 10, 200), "hsl(256, 90%, 41%)");
    assert_eq!(hsl(200, 60, 10), "hsl(16, 90%, 41%)");
}

#[test]
fn cmyk_key_and_gray_inks() {
    // The key is round(100 - 100 * max / 255); grays take no ink.
    assert_eq!(cmyk(77, 77, 77), "cmyk(0%, 0%, 0%, 70%)");
    // Both channels equal to the largest take no ink.
    assert_eq!(cmyk(30, 200, 200), "cmyk(85%, 0%, 0%, 22%)");
}
