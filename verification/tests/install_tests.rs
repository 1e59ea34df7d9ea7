use betwall::autostart::{
    registry_value, startup_folder, startup_script, vbs_script, RUN_SUBKEY, VALUE_NAME,
};
use betwall::config::Config;
use betwall::install::{
    install_dir, install_dir_in, install_if_needed, target_exe, target_exe_in, zone_identifier,
    InstallAction, InstallEvent,
};
use betwall::tray::{listening_text, opens_at_start, opens_panel, panel_url, TrayEvent};
use std::path::PathBuf;

#[test]
fn program_lives_below_the_local_data() {
    let base = PathBuf::from("data");
    assert_eq!(install_dir_in(Some(base.clone())), base.join("BetWall"));
    assert_eq!(target_exe_in(Some(base.clone())), base.join("BetWall").join("betwall.exe"));
    assert_eq!(install_dir_in(None), PathBuf::from(".").join("BetWall"));
    assert!(install_dir().ends_with("BetWall"));
    assert!(target_exe().ends_with("BetWall/betwall.exe"));
}

#[test]
fn installing_goes_step_by_step() {
    assert_eq!(install_if_needed(InstallEvent::NotFound), InstallAction::GoOn);
    assert_eq!(install_if_needed(InstallEvent::InPlace), InstallAction::UnmarkAndGoOn);
    assert_eq!(install_if_needed(InstallEvent::Elsewhere), InstallAction::MakeFolder);
    assert_eq!(install_if_needed(InstallEvent::NoFolder), InstallAction::GoOn);
    assert_eq!(install_if_needed(InstallEvent::Folder), InstallAction::Copy);
    assert_eq!(install_if_needed(InstallEvent::NotCopied), InstallAction::GoOn);
    assert_eq!(install_if_needed(InstallEvent::Copied), InstallAction::HandOver);
}

#[test]
fn download_mark_is_a_stream_of_the_file() {
    assert_eq!(zone_identifier(r"C:\x\betwall.exe"), r"C:\x\betwall.exe:Zone.Identifier");
}

#[test]
fn startup_script_lies_in_the_startup_folder() {
    let data = PathBuf::from("appdata");
    let folder = startup_folder(&data);
    assert_eq!(folder, data.join(r"Microsoft\Windows\Start Menu\Programs\Startup"));
    assert_eq!(startup_script(&folder), folder.join("BetWall.vbs"));
}

#[test]
fn script_runs_the_quoted_program() {
    assert_eq!(
        vbs_script(r"C:\a b\betwall.exe"),
        "' BetWall autostart\r\nCreateObject(\"Wscript.Shell\").Run \"\"\"C:\\a b\\betwall.exe\"\"\", 0, False\r\n"
    );
    assert!(vbs_script("a\"b").contains("\"\"\"a\"\"b\"\"\""));
}

#[test]
fn registry_holds_the_quoted_program() {
    assert_eq!(
        registry_value("aé"),
        vec![0x22, 0, 0x61, 0, 0xe9, 0, 0x22, 0, 0, 0]
    );
    let bytes = registry_value("\u{1f600}");
    let units: Vec<u16> = bytes.chunks(2).map(|p| u16::from_le_bytes([p[0], p[1]])).collect();
    assert_eq!(String::from_utf16(&units).unwrap(), "\"\u{1f600}\"\0");
    assert_eq!(RUN_SUBKEY, r"Software\Microsoft\Windows\CurrentVersion\Run");
    assert_eq!(VALUE_NAME, "BetWall");
}

#[test]
fn tray_leads_to_the_panel() {
    assert_eq!(panel_url(8080), "http://127.0.0.1:8080/");
    assert_eq!(panel_url(0), "http://127.0.0.1:0/");
    assert_eq!(listening_text(65535), "Listening on 127.0.0.1:65535");
    let mut cfg = Config::fresh();
    assert!(opens_at_start(&cfg));
    cfg.setup_complete = true;
    assert!(!opens_at_start(&cfg));
    assert!(opens_panel(&TrayEvent::DoubleClick, "7"));
    assert!(opens_panel(&TrayEvent::Menu { id: "7".to_string() }, "7"));
    assert!(!opens_panel(&TrayEvent::Menu { id: "8".to_string() }, "7"));
    assert!(!opens_panel(&TrayEvent::Other, "7"));
}
