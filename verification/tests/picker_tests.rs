use duck_color_picker::capture::encode_capture_image;
use duck_color_picker::copy_format::{copied_toast_url, CopyFormat};
use duck_color_picker::naming::color_name;
use duck_color_picker::picker::PickerSource;
use duck_color_picker::sample::sample;
use base64::Engine;

#[test]
fn only_main_button_changes_the_main_window_for_picking() {
    assert!(PickerSource::MainButton.changes_main_window());
    assert!(!PickerSource::Tray.changes_main_window());
    assert!(!PickerSource::Shortcut.changes_main_window());
}

#[test]
fn selected_copy_format_uses_its_own_color_value() {
    let color = sample(255, 0, 0);
    assert_eq!(CopyFormat::Rgb.value(&color), "rgb(255, 0, 0)");
    assert_eq!(CopyFormat::Hsl.value(&color), "hsl(0, 100%, 50%)");
    assert_eq!(CopyFormat::Cmyk.value(&color), "cmyk(0%, 100%, 100%, 0%)");
    assert_eq!(CopyFormat::HexWithHash.value(&color), "#FF0000");
    let stored: String = serde_json::from_str("\"hexwithhash\"").unwrap();
    assert!(matches!(CopyFormat::from_setting_name(&stored), Some(CopyFormat::HexWithHash)));
    let unknown: String = serde_json::from_str("\"unknown\"").unwrap();
    assert!(CopyFormat::from_setting_name(&unknown).is_none());
}

#[test]
fn copied_toast_url_uses_the_selected_format_and_copied_value() {
    let color = sample(222, 222, 222);
    for format in [CopyFormat::Hex, CopyFormat::HexWithHash, CopyFormat::Rgb, CopyFormat::Hsl, CopyFormat::Cmyk] {
        let value = format.value(&color);
        let url = copied_toast_url(format, value);
        assert!(url.starts_with(&format!("toast.html?format={}&value=", format.label())));
        let encoded_value: String = value.bytes().map(|byte| format!("%{byte:02X}")).collect();
        assert!(url.ends_with(&encoded_value));
    }
}

#[test]
fn muted_and_brown_colors_have_specific_chinese_names() {
    assert_eq!(color_name(128, 80, 40), "棕色");
    assert_eq!(color_name(145, 160, 170), "灰蓝色");
    assert_eq!(color_name(180, 170, 130), "灰黄色");
    assert_eq!(color_name(128, 128, 128), "灰色");
    assert_eq!(color_name(255, 0, 0), "红色");
}

#[test]
fn pale_colors_keep_their_hue_instead_of_becoming_gray() {
    assert_eq!(color_name(0xfa, 0xe0, 0xec), "浅粉色");
    assert_eq!(color_name(0xff, 0xb6, 0xc1), "粉红色");
    assert_eq!(color_name(0xff, 0xfa, 0xcd), "浅黄色");
    assert_eq!(color_name(0xdf, 0xf6, 0xdd), "浅绿色");
    assert_eq!(color_name(0xed, 0xe7, 0xf2), "浅灰紫色");
    assert_eq!(color_name(0xfd, 0xf4, 0xff), "浅灰紫色");
    assert_eq!(color_name(0xf1, 0xf1, 0xf1), "近白色");
}

#[test]
fn displayed_capture_uses_the_same_pixels_as_sampling() {
    let rgba = [0xcc, 0xe8, 0xff, 0xff, 0xe0, 0xe0, 0xe0, 0xff];
    let url = encode_capture_image(&rgba, 2, 1).unwrap();
    let png = base64::engine::general_purpose::STANDARD
        .decode(url.strip_prefix("data:image/png;base64,").unwrap())
        .unwrap();
    assert_eq!(image::load_from_memory(&png).unwrap().into_rgba8().into_raw(), rgba);
}

#[test]
fn old_settings_keep_hex_as_default_copy_format() {
    let old = r##"{"shortcut":"CommandOrControl+Shift+C","theme":"system","formats":{"hex":true,"rgb":true,"hsl":false,"cmyk":false},"autoStart":false,"history":[]}"##;
    let settings: serde_json::Value = serde_json::from_str(old).unwrap();
    // A settings file written before copy formats existed has no `copyFormat`;
    // the default format takes its place.
    let copy_format = match settings.get("copyFormat").and_then(|v| v.as_str()) {
        Some(name) => CopyFormat::from_setting_name(name).unwrap(),
        None => CopyFormat::default(),
    };
    assert!(matches!(copy_format, CopyFormat::Hex));
    let color = sample(255, 0, 0);
    assert_eq!(copy_format.value(&color), "FF0000");
}
