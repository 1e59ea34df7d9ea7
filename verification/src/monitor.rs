//! Watching the browsers: which windows to read, and when to close a tab.
use crate::config::{active_patterns, optional_text, patterns_in_force, Config, ConfigView};
use crate::text::{contains_chars, has_part, same_text, starts_with_chars, texts, to_chars};
use crate::unicode::{decode_utf16_units, lowercase, utf16_decoded};
use vstd::prelude::*;
use vstd::slice::slice_subrange;

verus! {

// ---------------------------------------------------------------------------
// Browsers
// ---------------------------------------------------------------------------

/// The programs that are browsers.
pub open spec fn browser_names() -> Seq<Seq<char>> {
    seq![
        "chrome.exe"@,
        "msedge.exe"@,
        "firefox.exe"@,
        "brave.exe"@,
        "opera.exe"@,
        "vivaldi.exe"@,
        "arc.exe"@,
        "zen.exe"@,
        "librewolf.exe"@,
    ]
}

/// Whether a program is a browser.
pub fn is_browser(name: &str) -> (r: bool)
    ensures
        r == browser_names().contains(name@),
{
    let names: [&str; 9] = [
        "chrome.exe",
        "msedge.exe",
        "firefox.exe",
        "brave.exe",
        "opera.exe",
        "vivaldi.exe",
        "arc.exe",
        "zen.exe",
        "librewolf.exe",
    ];
    let ghost all = browser_names();
    for i in 0..9usize
        invariant
            all == browser_names(),
            all.len() == 9,
            forall|j: int| 0 <= j < 9 ==> (#[trigger] names@[j])@ == all[j],
            forall|j: int| 0 <= j < i ==> name@ != #[trigger] all[j],
    {
        assert(names@[i as int]@ == all[i as int]);
        if same_text(name, names[i]) {
            return true;
        }
    }
    false
}

/// The name of a program in the first `len` of some UTF-16 units, in lower case.
/// A name without units is none.
pub open spec fn program_name(units: Seq<u16>, len: int) -> Option<Seq<char>> {
    if len == 0 {
        None
    } else {
        Some(lowercase(utf16_decoded(units.take(len))))
    }
}

/// The name of a program in the first `len` of some UTF-16 units.
pub fn process_name(units: &[u16], len: usize) -> (r: Option<String>)
    requires
        len <= units@.len(),
    ensures
        optional_text(r) == program_name(units@, len as int),
{
    if len == 0 {
        return None;
    }
    let used = slice_subrange(units, 0, len);
    assert(used@ =~= units@.take(len as int));
    Some(decode_utf16_units(used).as_str().to_lowercase())
}

/// The program of a window is known and is a browser.
pub open spec fn names_browser(name: Option<Seq<char>>) -> bool {
    match name {
        Some(n) => browser_names().contains(n),
        None => false,
    }
}

/// A window, and the name of its program where that is known.
pub struct Window {
    pub handle: u64,
    pub program: Option<String>,
}

/// What a `Window` says.
pub struct WindowView {
    pub handle: u64,
    pub program: Option<Seq<char>>,
}

impl View for Window {
    type V = WindowView;

    open spec fn view(&self) -> WindowView {
        WindowView { handle: self.handle, program: optional_text(self.program) }
    }
}

/// What a list of windows says.
pub open spec fn window_views(v: Seq<Window>) -> Seq<WindowView> {
    v.map_values(|w: Window| w@)
}

/// The windows of browsers.
pub open spec fn of_browser() -> spec_fn(WindowView) -> bool {
    |w: WindowView| names_browser(w.program)
}

/// The handles of the windows of browsers.
pub open spec fn browser_handles(windows: Seq<WindowView>) -> Seq<u64> {
    windows.filter(of_browser()).map_values(|w: WindowView| w.handle)
}

/// Whether the program of a window is known and is a browser.
fn is_browser_window(name: &Option<String>) -> (r: bool)
    ensures
        r == names_browser(optional_text(*name)),
{
    match name {
        Some(n) => is_browser(n.as_str()),
        None => false,
    }
}

/// The handles of the windows of browsers.
pub fn browser_windows(windows: &Vec<Window>) -> (r: Vec<u64>)
    ensures
        r@ == browser_handles(window_views(windows@)),
{
    let ghost all = window_views(windows@);
    let mut out: Vec<u64> = Vec::new();
    proof {
        reveal(Seq::filter);
        assert(out@ =~= browser_handles(all.take(0)));
    }
    for i in 0..windows.len()
        invariant
            all == window_views(windows@),
            out@ == browser_handles(all.take(i as int)),
    {
        let ghost before = out@;
        proof {
            reveal(Seq::filter);
            assert(all.take(i + 1).drop_last() =~= all.take(i as int));
            assert(all[i as int] == windows@[i as int]@);
        }
        if is_browser_window(&windows[i].program) {
            out.push(windows[i].handle);
        }
        assert(out@ =~= browser_handles(all.take(i + 1)));
    }
    assert(all.take(all.len() as int) =~= all);
    out
}

// ---------------------------------------------------------------------------
// Addresses
// ---------------------------------------------------------------------------

/// A text that may be an address.
pub open spec fn is_url_like(s: Seq<char>) -> bool {
    let lower = lowercase(s);
    ||| "http://"@.is_prefix_of(lower)
    ||| "https://"@.is_prefix_of(lower)
    ||| has_part(lower, ".com"@)
    ||| has_part(lower, ".io"@)
    ||| has_part(lower, ".net"@)
    ||| has_part(lower, ".org"@)
}

/// Whether a text may be an address.
pub fn looks_like_url(s: &str) -> (r: bool)
    ensures
        r == is_url_like(s@),
{
    let lower = s.to_lowercase();
    let v = to_chars(lower.as_str());
    starts_with_chars(&v, &to_chars("http://")) || starts_with_chars(&v, &to_chars("https://"))
        || contains_chars(&v, &to_chars(".com")) || contains_chars(&v, &to_chars(".io"))
        || contains_chars(&v, &to_chars(".net")) || contains_chars(&v, &to_chars(".org"))
}

/// An address matches if it holds one of the patterns, whatever the case of its
/// letters.
pub open spec fn is_match(url: Seq<char>, patterns: Seq<Seq<char>>) -> bool {
    exists|i: int| 0 <= i < patterns.len() && has_part(lowercase(url), #[trigger] patterns[i])
}

/// Whether an address matches one of the patterns.
pub fn url_matches(url: &str, patterns: &Vec<String>) -> (r: bool)
    ensures
        r == is_match(url@, texts(patterns@)),
{
    let lower = url.to_lowercase();
    let v = to_chars(lower.as_str());
    let ghost all = texts(patterns@);
    for i in 0..patterns.len()
        invariant
            v@ == lowercase(url@),
            all == texts(patterns@),
            forall|j: int| 0 <= j < i ==> !has_part(v@, #[trigger] all[j]),
    {
        assert(all[i as int] == patterns@[i as int]@);
        if contains_chars(&v, &to_chars(patterns[i].as_str())) {
            return true;
        }
    }
    false
}

/// A value of a text field that is taken for an address.
pub open spec fn is_url_value(value: Seq<char>) -> bool {
    value.len() > 0 && is_url_like(value)
}

/// A window is hit if one of its text fields holds an address that matches.
pub open spec fn is_hit(values: Seq<Seq<char>>, patterns: Seq<Seq<char>>) -> bool {
    exists|i: int|
        0 <= i < values.len() && is_url_value(#[trigger] values[i]) && is_match(values[i], patterns)
}

/// Whether a window with those text fields is hit.
pub fn values_hit(values: &Vec<String>, patterns: &Vec<String>) -> (r: bool)
    ensures
        r == is_hit(texts(values@), texts(patterns@)),
{
    let ghost all = texts(values@);
    let ghost wanted = texts(patterns@);
    for i in 0..values.len()
        invariant
            all == texts(values@),
            wanted == texts(patterns@),
            forall|j: int|
                0 <= j < i ==> !(is_url_value(#[trigger] all[j]) && is_match(all[j], wanted)),
    {
        let value = values[i].as_str();
        assert(all[i as int] == value@);
        let v = to_chars(value);
        if v.len() > 0 && looks_like_url(value) && url_matches(value, patterns) {
            return true;
        }
    }
    false
}

// ---------------------------------------------------------------------------
// Closing a tab
// ---------------------------------------------------------------------------

/// A key.
#[derive(Debug, PartialEq, Eq, Structural)]
pub enum Key {
    Control,
    W,
}

/// A key that goes down or up.
#[derive(Debug, PartialEq, Eq, Structural)]
pub struct KeyInput {
    pub key: Key,
    pub up: bool,
}

/// The keys that close a tab: control and W, released in reverse.
pub open spec fn ctrl_w() -> Seq<KeyInput> {
    seq![
        KeyInput { key: Key::Control, up: false },
        KeyInput { key: Key::W, up: false },
        KeyInput { key: Key::W, up: true },
        KeyInput { key: Key::Control, up: true },
    ]
}

/// The keys that close a tab.
pub fn close_tab_keys() -> (r: Vec<KeyInput>)
    ensures
        r@ == ctrl_w(),
{
    let r = vec![
        KeyInput { key: Key::Control, up: false },
        KeyInput { key: Key::W, up: false },
        KeyInput { key: Key::W, up: true },
        KeyInput { key: Key::Control, up: true },
    ];
    assert(r@ =~= ctrl_w());
    r
}

// ---------------------------------------------------------------------------
// Rounds
// ---------------------------------------------------------------------------

/// Milliseconds to the next round while nothing is blocked.
pub const IDLE_SLEEP: u64 = 700;

/// Milliseconds to the next round.
pub const ROUND_SLEEP: u64 = 350;

/// Milliseconds to the next round after a tab was closed.
pub const CLOSED_SLEEP: u64 = 450;

/// Nanoseconds that have to pass between two tabs that are closed.
pub const COOLDOWN: u128 = 800_000_000;

/// How far a round has come.
pub enum Watch {
    /// No round is under way.
    Idle,
    /// The window in front is next.
    Looking { patterns: Vec<String> },
    /// The list of the windows is next.
    Listing { patterns: Vec<String> },
    /// The text fields of a window are next, then those of the rest.
    Scanning { patterns: Vec<String>, window: u64, rest: Vec<u64> },
    /// A window was hit.
    Found { window: u64 },
}

/// What a `Watch` says.
#[verifier::ext_equal]
pub enum WatchView {
    Idle,
    Looking { patterns: Seq<Seq<char>> },
    Listing { patterns: Seq<Seq<char>> },
    Scanning { patterns: Seq<Seq<char>>, window: u64, rest: Seq<u64> },
    Found { window: u64 },
}

impl View for Watch {
    type V = WatchView;

    open spec fn view(&self) -> WatchView {
        match self {
            Watch::Idle => WatchView::Idle,
            Watch::Looking { patterns } => WatchView::Looking { patterns: texts(patterns@) },
            Watch::Listing { patterns } => WatchView::Listing { patterns: texts(patterns@) },
            Watch::Scanning { patterns, window, rest } => WatchView::Scanning {
                patterns: texts(patterns@),
                window: *window,
                rest: rest@,
            },
            Watch::Found { window } => WatchView::Found { window: *window },
        }
    }
}

/// What the watcher does next.
#[derive(Debug, PartialEq, Eq, Structural)]
pub enum WatchAction {
    /// Ends.
    Exit,
    /// Sleeps for some milliseconds, then begins a round.
    Sleep { millis: u64 },
    /// Asks for the window in front and its program.
    AskForeground,
    /// Asks for the windows that can be seen and their programs.
    ListWindows,
    /// Reads the text fields of a window.
    ReadValues { window: u64 },
    /// Asks for the window in front, and for the time since the last tab was
    /// closed.
    AskFront,
    /// Closes the tab, sleeps for some milliseconds, then begins a round.
    CloseTab { millis: u64 },
    /// Begins a round.
    Begin,
}

/// No round is under way, and the next begins at once.
pub open spec fn anew() -> (WatchView, WatchAction) {
    (WatchView::Idle, WatchAction::Begin)
}

/// Beginning a round: the watcher ends once the program is stopping, and waits
/// while nothing is blocked.
pub open spec fn watch_begun(stopping: bool, cfg: ConfigView) -> (WatchView, WatchAction) {
    let patterns = patterns_in_force(cfg);
    if stopping {
        (WatchView::Idle, WatchAction::Exit)
    } else if patterns.len() == 0 {
        (WatchView::Idle, WatchAction::Sleep { millis: IDLE_SLEEP })
    } else {
        (WatchView::Looking { patterns }, WatchAction::AskForeground)
    }
}

/// Going on to read a window, or to the next round where there is none.
pub open spec fn scan_next(
    patterns: Seq<Seq<char>>,
    windows: Seq<u64>,
) -> (WatchView, WatchAction) {
    if windows.len() == 0 {
        (WatchView::Idle, WatchAction::Sleep { millis: ROUND_SLEEP })
    } else {
        (
            WatchView::Scanning { patterns, window: windows[0], rest: windows.skip(1) },
            WatchAction::ReadValues { window: windows[0] },
        )
    }
}

/// With the window in front, zero where there is none: a browser in front is the
/// only window that is read.
pub open spec fn watch_foreground(
    state: WatchView,
    front: WindowView,
) -> (WatchView, WatchAction) {
    match state {
        WatchView::Looking { patterns } => if front.handle != 0 && names_browser(front.program) {
            scan_next(patterns, seq![front.handle])
        } else {
            (WatchView::Listing { patterns }, WatchAction::ListWindows)
        },
        _ => anew(),
    }
}

/// With the list of the windows: those of browsers are read.
pub open spec fn watch_windows(
    state: WatchView,
    windows: Seq<WindowView>,
) -> (WatchView, WatchAction) {
    match state {
        WatchView::Listing { patterns } => scan_next(patterns, browser_handles(windows)),
        _ => anew(),
    }
}

/// With the text fields of a window: reading ends with the first that is hit.
pub open spec fn watch_values(
    state: WatchView,
    values: Seq<Seq<char>>,
) -> (WatchView, WatchAction) {
    match state {
        WatchView::Scanning { patterns, window, rest } => if is_hit(values, patterns) {
            (WatchView::Found { window }, WatchAction::AskFront)
        } else {
            scan_next(patterns, rest)
        },
        _ => anew(),
    }
}

/// With the window in front and the nanoseconds since the last tab was closed:
/// the tab is closed if the window that was hit is in front, and not too soon.
pub open spec fn watch_front(
    state: WatchView,
    front: u64,
    elapsed: u128,
) -> (WatchView, WatchAction) {
    match state {
        WatchView::Found { window } => (
            WatchView::Idle,
            if front == window && elapsed > COOLDOWN {
                WatchAction::CloseTab { millis: CLOSED_SLEEP }
            } else {
                WatchAction::Sleep { millis: ROUND_SLEEP }
            },
        ),
        _ => anew(),
    }
}

/// Goes on to read a window, or to the next round.
fn go_on(patterns: Vec<String>, windows: Vec<u64>) -> (r: (Watch, WatchAction))
    ensures
        (r.0@, r.1) == scan_next(texts(patterns@), windows@),
{
    if windows.len() == 0 {
        (Watch::Idle, WatchAction::Sleep { millis: ROUND_SLEEP })
    } else {
        let mut rest = windows;
        let window: u64 = rest.remove(0);
        assert(rest@ =~= windows@.skip(1));
        (Watch::Scanning { patterns, window, rest }, WatchAction::ReadValues { window })
    }
}

impl Watch {
    /// Begins a round.
    pub fn begin(stopping: bool, cfg: &Config) -> (r: (Watch, WatchAction))
        ensures
            (r.0@, r.1) == watch_begun(stopping, cfg@),
    {
        if stopping {
            return (Watch::Idle, WatchAction::Exit);
        }
        let patterns = active_patterns(cfg);
        assert(texts(patterns@).len() == patterns@.len());
        if patterns.len() == 0 {
            (Watch::Idle, WatchAction::Sleep { millis: IDLE_SLEEP })
        } else {
            (Watch::Looking { patterns }, WatchAction::AskForeground)
        }
    }

    /// Takes in the window in front.
    pub fn foreground(self, front: &Window) -> (r: (Watch, WatchAction))
        ensures
            (r.0@, r.1) == watch_foreground(self@, front@),
    {
        match self {
            Watch::Looking { patterns } => if front.handle != 0 && is_browser_window(
                &front.program,
            ) {
                let windows: Vec<u64> = vec![front.handle];
                assert(windows@ =~= seq![front.handle]);
                go_on(patterns, windows)
            } else {
                (Watch::Listing { patterns }, WatchAction::ListWindows)
            },
            _ => (Watch::Idle, WatchAction::Begin),
        }
    }

    /// Takes in the list of the windows.
    pub fn windows(self, windows: &Vec<Window>) -> (r: (Watch, WatchAction))
        ensures
            (r.0@, r.1) == watch_windows(self@, window_views(windows@)),
    {
        match self {
            Watch::Listing { patterns } => go_on(patterns, browser_windows(windows)),
            _ => (Watch::Idle, WatchAction::Begin),
        }
    }

    /// Takes in the text fields of a window.
    pub fn values(self, values: &Vec<String>) -> (r: (Watch, WatchAction))
        ensures
            (r.0@, r.1) == watch_values(self@, texts(values@)),
    {
        match self {
            Watch::Scanning { patterns, window, rest } => if values_hit(values, &patterns) {
                (Watch::Found { window }, WatchAction::AskFront)
            } else {
                go_on(patterns, rest)
            },
            _ => (Watch::Idle, WatchAction::Begin),
        }
    }

    /// Takes in the window in front, after a hit, and the nanoseconds since the
    /// last tab was closed.
    pub fn front(self, front: u64, elapsed: u128) -> (r: (Watch, WatchAction))
        ensures
            (r.0@, r.1) == watch_front(self@, front, elapsed),
    {
        match self {
            Watch::Found { window } => if front == window && elapsed > COOLDOWN {
                (Watch::Idle, WatchAction::CloseTab { millis: CLOSED_SLEEP })
            } else {
                (Watch::Idle, WatchAction::Sleep { millis: ROUND_SLEEP })
            },
            _ => (Watch::Idle, WatchAction::Begin),
        }
    }
}

// ---------------------------------------------------------------------------
// What a round comes to
// ---------------------------------------------------------------------------

/// The windows that a round reads: the one in front, if it is a browser, else all
/// that are browsers.
pub open spec fn windows_to_scan(front: WindowView, windows: Seq<WindowView>) -> Seq<u64> {
    if front.handle != 0 && names_browser(front.program) {
        seq![front.handle]
    } else {
        browser_handles(windows)
    }
}

/// The first of some windows that is hit, where `fields` gives the text fields of
/// each.
pub open spec fn first_hit(
    windows: Seq<u64>,
    fields: spec_fn(u64) -> Seq<Seq<char>>,
    patterns: Seq<Seq<char>>,
) -> Option<u64>
    decreases windows.len(),
{
    if windows.len() == 0 {
        None
    } else if is_hit(fields(windows[0]), patterns) {
        Some(windows[0])
    } else {
        first_hit(windows.skip(1), fields, patterns)
    }
}

/// Reading window after window, until none is left or one is hit.
pub open spec fn scanned(
    step: (WatchView, WatchAction),
    fields: spec_fn(u64) -> Seq<Seq<char>>,
) -> (WatchView, WatchAction)
    decreases
            (match step.0 {
                WatchView::Scanning { rest, .. } => rest.len() + 1,
                _ => 0,
            }),
{
    match step.0 {
        WatchView::Scanning { window, .. } => scanned(
            watch_values(step.0, fields(window)),
            fields,
        ),
        _ => step,
    }
}

/// A whole round, with what the system answers in the course of it.
pub open spec fn watch_round(
    cfg: ConfigView,
    front: WindowView,
    windows: Seq<WindowView>,
    fields: spec_fn(u64) -> Seq<Seq<char>>,
    front_then: u64,
    elapsed: u128,
) -> WatchAction {
    let begun = watch_begun(false, cfg);
    if begun.1 != WatchAction::AskForeground {
        begun.1
    } else {
        let looked = watch_foreground(begun.0, front);
        let listed = if looked.1 == WatchAction::ListWindows {
            watch_windows(looked.0, windows)
        } else {
            looked
        };
        let read = scanned(listed, fields);
        if read.1 == WatchAction::AskFront {
            watch_front(read.0, front_then, elapsed).1
        } else {
            read.1
        }
    }
}

pub(crate) proof fn lemma_scanned(
    patterns: Seq<Seq<char>>,
    windows: Seq<u64>,
    fields: spec_fn(u64) -> Seq<Seq<char>>,
)
    ensures
        scanned(scan_next(patterns, windows), fields) == match first_hit(
            windows,
            fields,
            patterns,
        ) {
            Some(window) => (WatchView::Found { window }, WatchAction::AskFront),
            None => (WatchView::Idle, WatchAction::Sleep { millis: ROUND_SLEEP }),
        },
    decreases windows.len(),
{
    reveal_with_fuel(scanned, 2);
    if windows.len() > 0 && !is_hit(fields(windows[0]), patterns) {
        lemma_scanned(patterns, windows.skip(1), fields);
    }
}

/// A round closes a tab exactly if, of the windows that it reads, the first with
/// an address that matches a pattern in force is still in front afterwards, and
/// the last tab was not closed a moment ago.
pub proof fn lemma_round_closes_tab(
    cfg: ConfigView,
    front: WindowView,
    windows: Seq<WindowView>,
    fields: spec_fn(u64) -> Seq<Seq<char>>,
    front_then: u64,
    elapsed: u128,
)
    ensures
        watch_round(cfg, front, windows, fields, front_then, elapsed) is CloseTab <==> first_hit(
            windows_to_scan(front, windows),
            fields,
            patterns_in_force(cfg),
        ) == Some(front_then) && elapsed > COOLDOWN,
{
    let patterns = patterns_in_force(cfg);
    if patterns.len() == 0 {
        lemma_no_hit_without_patterns(windows_to_scan(front, windows), fields, patterns);
    } else {
        lemma_scanned(patterns, windows_to_scan(front, windows), fields);
    }
}

proof fn lemma_no_hit_without_patterns(
    windows: Seq<u64>,
    fields: spec_fn(u64) -> Seq<Seq<char>>,
    patterns: Seq<Seq<char>>,
)
    requires
        patterns.len() == 0,
    ensures
        first_hit(windows, fields, patterns) is None,
    decreases windows.len(),
{
    if windows.len() > 0 {
        lemma_no_hit_without_patterns(windows.skip(1), fields, patterns);
    }
}

/// A round never closes a tab of a window without an address that matches a
/// pattern in force.
pub proof fn lemma_closed_tab_matches(
    cfg: ConfigView,
    front: WindowView,
    windows: Seq<WindowView>,
    fields: spec_fn(u64) -> Seq<Seq<char>>,
    front_then: u64,
    elapsed: u128,
)
    requires
        watch_round(cfg, front, windows, fields, front_then, elapsed) is CloseTab,
    ensures
        cfg.enabled,
        is_hit(fields(front_then), patterns_in_force(cfg)),
        windows_to_scan(front, windows).contains(front_then),
{
    lemma_round_closes_tab(cfg, front, windows, fields, front_then, elapsed);
    lemma_first_hit_is_hit(windows_to_scan(front, windows), fields, patterns_in_force(cfg));
}

proof fn lemma_first_hit_is_hit(
    windows: Seq<u64>,
    fields: spec_fn(u64) -> Seq<Seq<char>>,
    patterns: Seq<Seq<char>>,
)
    ensures
        first_hit(windows, fields, patterns) matches Some(w) ==> windows.contains(w) && is_hit(
            fields(w),
            patterns,
        ),
    decreases windows.len(),
{
    if windows.len() > 0 {
        if is_hit(fields(windows[0]), patterns) {
            assert(windows.contains(windows[0]));
        } else {
            lemma_first_hit_is_hit(windows.skip(1), fields, patterns);
            if let Some(w) = first_hit(windows.skip(1), fields, patterns) {
                let i = choose|i: int| 0 <= i < windows.skip(1).len() && windows.skip(1)[i] == w;
                assert(windows[i + 1] == w);
            }
        }
    }
}

} // verus!
