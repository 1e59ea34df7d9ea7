use betwall::config::Config;
use betwall::monitor::{
    browser_windows, close_tab_keys, is_browser, looks_like_url, process_name, url_matches,
    values_hit, Key, KeyInput, Watch, WatchAction, Window,
};

fn window(handle: u64, program: &str) -> Window {
    Window { handle, program: Some(program.to_string()) }
}

fn texts(v: &[&str]) -> Vec<String> {
    v.iter().map(|s| s.to_string()).collect()
}

fn blocking_stake() -> Config {
    let mut cfg = Config::fresh();
    cfg.casinos[0].blocked_all = true;
    cfg
}

#[test]
fn browsers_are_known_by_name() {
    for name in [
        "chrome.exe",
        "msedge.exe",
        "firefox.exe",
        "brave.exe",
        "opera.exe",
        "vivaldi.exe",
        "arc.exe",
        "zen.exe",
        "librewolf.exe",
    ] {
        assert!(is_browser(name));
    }
    assert!(!is_browser("Chrome.exe"));
    assert!(!is_browser("chrome"));
    assert!(!is_browser(""));
}

#[test]
fn program_names_are_lowered() {
    let units: Vec<u16> = "Chrome.EXE\0\0".encode_utf16().collect();
    assert_eq!(process_name(&units, 10).unwrap(), "chrome.exe");
    assert!(process_name(&units, 0).is_none());
    assert_eq!(process_name(&[0xd800, 0x41], 2).unwrap(), "\u{fffd}a");
}

#[test]
fn addresses_are_told_from_other_texts() {
    for s in ["http://x", "HTTPS://X", "stake.COM/x", "a.io", "b.net", "c.org", "x.community"] {
        assert!(looks_like_url(s));
    }
    for s in ["", "hello", "ftp://x", "bc.game", " http:// "] {
        assert!(!looks_like_url(s));
    }
}

#[test]
fn patterns_match_within_addresses() {
    let patterns = texts(&["stake.com", "x.org/y"]);
    assert!(url_matches("https://STAKE.com/casino", &patterns));
    assert!(url_matches("mystake.com.evil", &patterns));
    assert!(url_matches("x.org/yz", &patterns));
    assert!(!url_matches("x.org/z", &patterns));
    assert!(!url_matches("stake", &patterns));
    assert!(!url_matches("stake.com", &Vec::new()));
    assert!(url_matches("anything", &texts(&[""])));
}

#[test]
fn window_is_hit_by_an_address_only() {
    let patterns = texts(&["bc.game"]);
    assert!(values_hit(&texts(&["x", "https://bc.game/"]), &patterns));
    assert!(!values_hit(&texts(&["bc.game"]), &patterns));
    assert!(!values_hit(&texts(&["", "https://other.com"]), &patterns));
    assert!(!values_hit(&Vec::new(), &patterns));
}

#[test]
fn windows_of_browsers_are_picked_out() {
    let windows = vec![
        window(1, "explorer.exe"),
        window(2, "firefox.exe"),
        Window { handle: 3, program: None },
        window(4, "zen.exe"),
    ];
    assert_eq!(browser_windows(&windows), vec![2, 4]);
}

#[test]
fn tab_is_closed_by_control_and_w() {
    assert_eq!(
        close_tab_keys(),
        vec![
            KeyInput { key: Key::Control, up: false },
            KeyInput { key: Key::W, up: false },
            KeyInput { key: Key::W, up: true },
            KeyInput { key: Key::Control, up: true },
        ]
    );
}

#[test]
fn watcher_waits_while_nothing_is_blocked() {
    let (_, action) = Watch::begin(false, &Config::fresh());
    assert_eq!(action, WatchAction::Sleep { millis: 700 });
    let (_, action) = Watch::begin(true, &blocking_stake());
    assert_eq!(action, WatchAction::Exit);
    let mut paused = blocking_stake();
    paused.enabled = false;
    let (_, action) = Watch::begin(false, &paused);
    assert_eq!(action, WatchAction::Sleep { millis: 700 });
}

#[test]
fn browser_in_front_loses_its_tab() {
    let (w, action) = Watch::begin(false, &blocking_stake());
    assert_eq!(action, WatchAction::AskForeground);
    let (w, action) = w.foreground(&window(7, "chrome.exe"));
    assert_eq!(action, WatchAction::ReadValues { window: 7 });
    let (w, action) = w.values(&texts(&["https://stake.com/"]));
    assert_eq!(action, WatchAction::AskFront);
    let (_, action) = w.front(7, 800_000_001);
    assert_eq!(action, WatchAction::CloseTab { millis: 450 });
}

fn found() -> Watch {
    Watch::Found { window: 7 }
}

#[test]
fn tab_is_not_closed_too_soon_or_behind() {
    let (_, action) = found().front(7, 800_000_000);
    assert_eq!(action, WatchAction::Sleep { millis: 350 });
    let (_, action) = found().front(8, 60_000_000_000);
    assert_eq!(action, WatchAction::Sleep { millis: 350 });
}

#[test]
fn other_browsers_are_read_in_turn() {
    let (w, _) = Watch::begin(false, &blocking_stake());
    let (w, action) = w.foreground(&window(1, "notepad.exe"));
    assert_eq!(action, WatchAction::ListWindows);
    let (w, action) = w.windows(&vec![
        window(1, "notepad.exe"),
        window(2, "chrome.exe"),
        window(3, "opera.exe"),
    ]);
    assert_eq!(action, WatchAction::ReadValues { window: 2 });
    let (w, action) = w.values(&texts(&["https://ok.org"]));
    assert_eq!(action, WatchAction::ReadValues { window: 3 });
    let (_, action) = w.values(&Vec::new());
    assert_eq!(action, WatchAction::Sleep { millis: 350 });
}

#[test]
fn round_without_browsers_ends() {
    let (w, _) = Watch::begin(false, &blocking_stake());
    let (w, action) = w.foreground(&Window { handle: 0, program: Some("chrome.exe".to_string()) });
    assert_eq!(action, WatchAction::ListWindows);
    let (_, action) = w.windows(&Vec::new());
    assert_eq!(action, WatchAction::Sleep { millis: 350 });
}

#[test]
fn answer_out_of_turn_begins_anew() {
    assert_eq!(Watch::Idle.values(&Vec::new()).1, WatchAction::Begin);
    assert_eq!(Watch::Idle.windows(&Vec::new()).1, WatchAction::Begin);
    assert_eq!(Watch::Idle.front(1, 1).1, WatchAction::Begin);
    assert_eq!(found().foreground(&window(1, "chrome.exe")).1, WatchAction::Begin);
}
