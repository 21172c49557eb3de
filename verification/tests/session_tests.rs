use duck_color_picker::capture::{capture_data_url, encode_capture_image};
use duck_color_picker::frame::sample_pixel;
use duck_color_picker::launch::{is_translocated_path, launched_hidden, menu_action, MenuAction};
use duck_color_picker::picker::{
    is_picker_label, is_toast_label, picker_label, toast_label, toast_origin, FinishAction,
    PickerSession, PickerSource, ReadyDecision, SetupOutcome,
};
use duck_color_picker::sample::sample;
use duck_color_picker::settings::{
    shortcut_has_modifier, ColorRecord, Formats, Preferences, Settings, HISTORY_LIMIT,
};

#[test]
fn a_session_runs_from_request_to_ready() {
    let mut s = PickerSession::new();
    let request = s.next_request();
    assert_eq!(request, 1);
    assert!(s.begin(request));
    // A second request while picking joins the session and cannot restart it.
    assert_eq!(s.next_request(), request);
    assert!(!s.begin(request));
    assert_eq!(s.ready_check(true), ReadyDecision::NotReady);
    s.minimize_main_once_ready();
    assert_eq!(s.finish(request, PickerSource::MainButton, SetupOutcome::Done),
        FinishAction { close_pickers: false, show_main: false, report_permission: false });
    assert_eq!(s.ready_check(false), ReadyDecision::NoCapture);
    assert_eq!(s.ready_check(true), ReadyDecision::Show { minimize_main: true });
    assert_eq!(s.ready_check(true), ReadyDecision::Show { minimize_main: false });
    s.close();
    assert!(!s.is_current(request));
    assert!(!s.picking);
    assert_eq!(s.next_request(), request + 2);
}

#[test]
fn failed_setups_close_and_restore() {
    let mut s = PickerSession::new();
    let r = s.next_request();
    assert!(s.begin(r));
    let a = s.finish(r, PickerSource::Tray, SetupOutcome::PermissionMissing);
    assert_eq!(a, FinishAction { close_pickers: true, show_main: true, report_permission: true });
    assert!(!s.picking && !s.is_current(r));
    let r = s.next_request();
    assert!(s.begin(r));
    let a = s.finish(r, PickerSource::Shortcut, SetupOutcome::Failed);
    assert_eq!(a, FinishAction { close_pickers: true, show_main: false, report_permission: false });
    let r = s.next_request();
    assert!(s.begin(r));
    let a = s.finish(r, PickerSource::MainButton, SetupOutcome::Failed);
    assert_eq!(a, FinishAction { close_pickers: true, show_main: true, report_permission: false });
}

#[test]
fn stale_setups_do_not_make_windows_ready() {
    let mut s = PickerSession::new();
    let r = s.next_request();
    assert!(s.begin(r));
    assert!(!s.begin(r + 1));
    s.finish(r + 1, PickerSource::Tray, SetupOutcome::Done);
    assert_eq!(s.ready_check(true), ReadyDecision::NotReady);
}

#[test]
fn generations_wrap_around() {
    let mut s = PickerSession::new();
    s.generation = u64::MAX;
    s.toast_generation = u64::MAX;
    assert_eq!(s.next_request(), 0);
    assert_eq!(s.next_toast(), 0);
    assert!(s.is_latest_toast(0));
    assert_eq!(s.next_toast(), 1);
    assert!(!s.is_latest_toast(0));
}

#[test]
fn permission_prompt_is_claimed_once() {
    let mut s = PickerSession::new();
    assert!(s.claim_permission_prompt());
    assert!(!s.claim_permission_prompt());
}

#[test]
fn window_labels() {
    assert_eq!(picker_label(0), "picker-0");
    assert_eq!(picker_label(12), "picker-12");
    assert_eq!(toast_label(3), "copied-toast-3");
    assert!(is_picker_label("picker-3"));
    assert!(!is_picker_label("main"));
    assert!(!is_picker_label("picker"));
    assert!(is_toast_label("copied-toast-9"));
    assert!(!is_toast_label("picker-9"));
}

#[test]
fn toast_sits_centred_at_68_percent() {
    assert_eq!(toast_origin((0, 0, 1920, 1080), 390), (765, 734));
    assert_eq!(toast_origin((-1920, 100, 300, 1000), 390), (-1920, 780));
    assert_eq!(toast_origin((10, 0, 391, 1), 390), (10, 0));
    // 68% of a very tall display passes i32::MAX and stops there.
    assert_eq!(toast_origin((0, -1_000_000_000, 390, 4_000_000_000), 390), (0, 1_147_483_647));
}

#[test]
fn sampling_reads_the_right_pixel() {
    let rgba = [1, 2, 3, 255, 255, 0, 0, 255, 0, 0, 255, 255, 9, 9, 9, 255];
    let c = sample_pixel(&rgba, 2, 1, 0).unwrap();
    assert_eq!((c.r, c.g, c.b), (255, 0, 0));
    assert_eq!(c.name, "红色");
    let c = sample_pixel(&rgba, 2, 0, 1).unwrap();
    assert_eq!(c.hex, "#0000FF");
    assert!(sample_pixel(&rgba, 2, 0, 2).is_none());
    assert!(sample_pixel(&rgba[..14], 2, 1, 1).is_none());
}

#[test]
fn history_keeps_the_latest_picks_first() {
    let mut settings = Settings::default();
    assert_eq!(settings.shortcut, "CommandOrControl+Shift+C");
    assert_eq!(settings.theme, "system");
    for i in 0..30u8 {
        let c = sample(i, i, i);
        settings.record_pick(ColorRecord::from_sample(format!("id-{i}"), i as u64, &c));
    }
    assert_eq!(settings.history.len(), HISTORY_LIMIT);
    assert_eq!(settings.history[0].id, "id-29");
    assert_eq!(settings.history[23].id, "id-6");
    settings.delete_history("id-10");
    assert_eq!(settings.history.len(), 23);
    assert!(settings.history.iter().all(|r| r.id != "id-10"));
    assert_eq!(settings.history[0].id, "id-29");
    settings.delete_history("missing");
    assert_eq!(settings.history.len(), 23);
    settings.history[0].name = String::from("old name");
    settings.refresh_history_names();
    assert_eq!(settings.history[0].name, "深灰色");
    settings.clear_history();
    assert!(settings.history.is_empty());
}

#[test]
fn preferences_update_only_given_fields() {
    let mut settings = Settings::default();
    settings.apply_preferences(Preferences {
        theme: Some(String::from("dark")),
        formats: None,
        copy_format: Some(duck_color_picker::copy_format::CopyFormat::Rgb),
        auto_start: None,
    });
    assert_eq!(settings.theme, "dark");
    assert!(settings.formats.hex && settings.formats.rgb && !settings.formats.hsl);
    assert_eq!(settings.copy_format, duck_color_picker::copy_format::CopyFormat::Rgb);
    assert!(!settings.auto_start);
    settings.apply_preferences(Preferences {
        theme: None,
        formats: Some(Formats { hex: false, rgb: false, hsl: true, cmyk: true }),
        copy_format: None,
        auto_start: Some(true),
    });
    assert!(settings.formats.cmyk && !settings.formats.hex);
    assert!(settings.auto_start);
    assert_eq!(settings.theme, "dark");
}

#[test]
fn shortcuts_need_a_modifier() {
    assert!(shortcut_has_modifier("CommandOrControl+Shift+C"));
    assert!(shortcut_has_modifier("Alt+P"));
    assert!(!shortcut_has_modifier("F9"));
    assert!(!shortcut_has_modifier(""));
}

#[test]
fn tray_menu_and_launch_flags() {
    assert_eq!(menu_action("show"), MenuAction::ShowMain);
    assert_eq!(menu_action("pick"), MenuAction::Pick);
    assert_eq!(menu_action("quit"), MenuAction::Quit);
    assert_eq!(menu_action("other"), MenuAction::Ignore);
    assert!(launched_hidden(&vec![String::from("app"), String::from("--hidden")]));
    assert!(!launched_hidden(&vec![String::from("app"), String::from("--hiddenx")]));
    assert!(is_translocated_path("/private/var/folders/x/AppTranslocation/ABC/d/取色鸭.app"));
    assert!(!is_translocated_path("/Applications/取色鸭.app"));
    assert!(!is_translocated_path("AppTransl"));
}

#[test]
fn capture_encoding_errors_and_data_urls() {
    let err = encode_capture_image(&[], 0, 0).unwrap_err();
    assert!(err.starts_with("无法编码取色画面："));
    assert!(err.len() > "无法编码取色画面：".len());
    assert_eq!(capture_data_url(&[]), "data:image/png;base64,");
    assert_eq!(capture_data_url(b"M"), "data:image/png;base64,TQ==");
    assert_eq!(capture_data_url(b"Ma"), "data:image/png;base64,TWE=");
    assert_eq!(capture_data_url(b"Man"), "data:image/png;base64,TWFu");
    assert_eq!(capture_data_url(&[0xfb, 0xff]), "data:image/png;base64,+/8=");
    let url = encode_capture_image(&[10, 20, 30, 40], 1, 1).unwrap();
    assert!(url.starts_with("data:image/png;base64,iVBORw0KGgo"));
}
