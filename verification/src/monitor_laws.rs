//! What the watcher takes for an address, and whose tab it closes.
use crate::config::{fresh_config, patterns_in_force, standard_casinos, ConfigView};
use crate::config_laws::{lemma_shut_by_a_switch, lemma_standard_domains};
use crate::defaults::lemma_fresh_is_sound;
use crate::monitor::{
    browser_handles, browser_names, ctrl_w, first_hit, is_hit, is_match, is_url_like, is_url_value,
    lemma_round_closes_tab, lemma_scanned, names_browser, of_browser, program_name, scanned,
    watch_begun, watch_foreground, watch_front, watch_round, watch_values, watch_windows,
    windows_to_scan, Key, KeyInput, WatchAction, WatchView, WindowView,
};
use crate::text::has_part;
use crate::text_laws::{lemma_lowercase_of_parts, lemma_part_between, lemma_part_means_between};
use crate::unicode::{lemma_utf16_round_trip, lowercase, utf16_decoded, utf16_encoded, utf16_units};
use vstd::prelude::*;
use vstd::utf8::*;

verus! {

// ---------------------------------------------------------------------------
// Addresses
// ---------------------------------------------------------------------------

/// A text is taken for an address exactly if it starts with a scheme, or holds one
/// of four endings of a host anywhere, its own end not excepted.
pub proof fn lemma_address_has_a_mark(s: Seq<char>)
    ensures
        is_url_like(s) <==> {
            let lower = lowercase(s);
            ||| exists|b: Seq<char>| lower == #[trigger] ("http://"@ + b)
            ||| exists|b: Seq<char>| lower == #[trigger] ("https://"@ + b)
            ||| exists|a: Seq<char>, b: Seq<char>| lower == #[trigger] (a + ".com"@ + b)
            ||| exists|a: Seq<char>, b: Seq<char>| lower == #[trigger] (a + ".io"@ + b)
            ||| exists|a: Seq<char>, b: Seq<char>| lower == #[trigger] (a + ".net"@ + b)
            ||| exists|a: Seq<char>, b: Seq<char>| lower == #[trigger] (a + ".org"@ + b)
        },
{
    let lower = lowercase(s);
    lemma_start_means_before(lower, "http://"@);
    lemma_start_means_before(lower, "https://"@);
    lemma_part_means_between(lower, ".com"@);
    lemma_part_means_between(lower, ".io"@);
    lemma_part_means_between(lower, ".net"@);
    lemma_part_means_between(lower, ".org"@);
}

proof fn lemma_start_means_before(s: Seq<char>, part: Seq<char>)
    ensures
        part.is_prefix_of(s) <==> exists|b: Seq<char>| s == #[trigger] (part + b),
{
    if part.is_prefix_of(s) {
        assert(s =~= part + s.skip(part.len() as int));
    }
    if exists|b: Seq<char>| s == #[trigger] (part + b) {
        let b = choose|b: Seq<char>| s == #[trigger] (part + b);
        assert(s.subrange(0, part.len() as int) =~= part);
    }
}

/// Whatever the case of its letters, a text in ASCII with `.com`, `.io`, `.net` or
/// `.org` in it is taken for an address, wherever that stands, and so is one that
/// starts with `http://` or `https://`.
pub proof fn lemma_marked_text_is_address(a: Seq<char>, mark: Seq<char>, b: Seq<char>)
    requires
        is_ascii_chars(a),
        is_ascii_chars(mark),
        is_ascii_chars(b),
    ensures
        lowercase(mark) == ".com"@ ==> is_url_like(a + mark + b),
        lowercase(mark) == ".io"@ ==> is_url_like(a + mark + b),
        lowercase(mark) == ".net"@ ==> is_url_like(a + mark + b),
        lowercase(mark) == ".org"@ ==> is_url_like(a + mark + b),
        lowercase(mark) == "http://"@ ==> is_url_like(mark + b),
        lowercase(mark) == "https://"@ ==> is_url_like(mark + b),
{
    lemma_lowercase_of_parts(a, mark);
    lemma_lowercase_of_parts(a + mark, b);
    lemma_lowercase_of_parts(mark, b);
    lemma_part_between(lowercase(a), lowercase(mark), lowercase(b));
    lemma_start_means_before(lowercase(mark) + lowercase(b), lowercase(mark));
    assert(lowercase(mark) + lowercase(b) == lowercase(mark + b));
}

/// A text that holds `.com` as it stands is taken for an address, whatever stands
/// before it and behind it.
pub proof fn lemma_com_anywhere(a: Seq<char>, b: Seq<char>)
    requires
        is_ascii_chars(a),
        is_ascii_chars(b),
    ensures
        is_url_like(a + ".com"@ + b),
{
    reveal_strlit(".com");
    assert(lowercase(".com"@) =~= ".com"@);
    lemma_marked_text_is_address(a, ".com"@, b);
}

/// An address matches exactly if one of the patterns stands somewhere in it once
/// it is in lower case.
pub proof fn lemma_match_holds_a_pattern(url: Seq<char>, patterns: Seq<Seq<char>>)
    ensures
        is_match(url, patterns) <==> exists|i: int, a: Seq<char>, b: Seq<char>|
            #![trigger a + patterns[i] + b]
            0 <= i < patterns.len() && lowercase(url) == a + patterns[i] + b,
{
    let lower = lowercase(url);
    if is_match(url, patterns) {
        let i = choose|i: int| 0 <= i < patterns.len() && has_part(lower, #[trigger] patterns[i]);
        lemma_part_means_between(lower, patterns[i]);
        let (a, b) = choose|a: Seq<char>, b: Seq<char>| lower == #[trigger] (a + patterns[i] + b);
        assert(lower == a + patterns[i] + b);
    }
    if exists|i: int, a: Seq<char>, b: Seq<char>|
        #![trigger a + patterns[i] + b]
        0 <= i < patterns.len() && lower == a + patterns[i] + b {
        let (i, a, b) = choose|i: int, a: Seq<char>, b: Seq<char>|
            #![trigger a + patterns[i] + b]
            0 <= i < patterns.len() && lower == a + patterns[i] + b;
        lemma_part_between(a, patterns[i], b);
        assert(has_part(lower, patterns[i]));
    }
}

/// A window is hit exactly if one of its text fields, whichever, is no empty one,
/// is taken for an address and matches.
pub proof fn lemma_any_field_hits(values: Seq<Seq<char>>, patterns: Seq<Seq<char>>)
    ensures
        is_hit(values, patterns) <==> exists|i: int|
            0 <= i < values.len() && (#[trigger] values[i]).len() > 0 && is_url_like(values[i])
                && is_match(values[i], patterns),
{
    if exists|i: int|
        0 <= i < values.len() && (#[trigger] values[i]).len() > 0 && is_url_like(values[i])
            && is_match(values[i], patterns) {
        let i = choose|i: int|
            0 <= i < values.len() && (#[trigger] values[i]).len() > 0 && is_url_like(values[i])
                && is_match(values[i], patterns);
        assert(is_url_value(values[i]));
    }
}

// ---------------------------------------------------------------------------
// Browsers
// ---------------------------------------------------------------------------

/// Nine programs are browsers, and no other is. A program that is not known is
/// none.
pub proof fn lemma_nine_browsers(name: Seq<char>)
    ensures
        names_browser(Some(name)) <==> {
            ||| name == "chrome.exe"@ || name == "msedge.exe"@ || name == "firefox.exe"@
            ||| name == "brave.exe"@ || name == "opera.exe"@ || name == "vivaldi.exe"@
            ||| name == "arc.exe"@ || name == "zen.exe"@ || name == "librewolf.exe"@
        },
        !names_browser(None),
{
    let all = browser_names();
    assert(all[0] == "chrome.exe"@ && all[1] == "msedge.exe"@ && all[2] == "firefox.exe"@);
    assert(all[3] == "brave.exe"@ && all[4] == "opera.exe"@ && all[5] == "vivaldi.exe"@);
    assert(all[6] == "arc.exe"@ && all[7] == "zen.exe"@ && all[8] == "librewolf.exe"@);
    if all.contains(name) {
        let i = choose|i: int| 0 <= i < all.len() && all[i] == name;
        assert(0 <= i < 9);
    }
}

/// The name of a program is read in lower case from the units it was written in,
/// whatever comes behind them. No units are no name.
pub proof fn lemma_program_name_read(name: Seq<char>, rest: Seq<u16>)
    ensures
        name.len() > 0 ==> program_name(
            utf16_encoded(name) + rest,
            utf16_encoded(name).len() as int,
        ) == Some(lowercase(name)),
        program_name(rest, 0) is None,
        rest.len() > 0 ==> program_name(rest, rest.len() as int) == Some(
            lowercase(utf16_decoded(rest)),
        ),
{
    assert(rest.take(rest.len() as int) =~= rest);
    let units = utf16_encoded(name);
    assert((units + rest).take(units.len() as int) =~= units);
    lemma_utf16_round_trip(name);
    if name.len() > 0 {
        assert(units.len() > 0) by {
            assert(utf16_units(name.last()).len() > 0);
        }
    }
}

/// Going through the windows, those of browsers are kept and the others are not,
/// in their order.
pub proof fn lemma_browsers_kept(windows: Seq<WindowView>, w: WindowView)
    ensures
        browser_handles(Seq::empty()) == Seq::<u64>::empty(),
        browser_handles(windows.push(w)) == if names_browser(w.program) {
            browser_handles(windows).push(w.handle)
        } else {
            browser_handles(windows)
        },
{
    reveal(Seq::filter);
    assert(windows.push(w).drop_last() =~= windows);
    assert(browser_handles(Seq::empty()) =~= Seq::<u64>::empty());
    assert(browser_handles(windows.push(w)) =~= if names_browser(w.program) {
        browser_handles(windows).push(w.handle)
    } else {
        browser_handles(windows)
    });
}

// ---------------------------------------------------------------------------
// Rounds
// ---------------------------------------------------------------------------

/// A program that is stopping ends the watch. One that blocks nothing waits for
/// seven tenths of a second. Otherwise the window in front is asked for.
pub proof fn lemma_round_begins(stopping: bool, cfg: ConfigView)
    ensures
        watch_begun(true, cfg).1 == WatchAction::Exit,
        patterns_in_force(cfg).len() == 0 ==> watch_begun(false, cfg).1 == (WatchAction::Sleep {
            millis: 700,
        }),
        patterns_in_force(cfg).len() > 0 ==> watch_begun(false, cfg) == (
            (WatchView::Looking { patterns: patterns_in_force(cfg) }),
            WatchAction::AskForeground,
        ),
{
}

/// With a browser in front, its tab is closed exactly if it is hit, is still in
/// front and more than eight tenths of a second have passed since the last one.
/// Other windows make no difference. Otherwise the next round comes a moment later.
pub proof fn lemma_browser_in_front(
    cfg: ConfigView,
    front: WindowView,
    windows: Seq<WindowView>,
    fields: spec_fn(u64) -> Seq<Seq<char>>,
    front_then: u64,
    elapsed: u128,
)
    requires
        patterns_in_force(cfg).len() > 0,
        front.handle != 0,
        names_browser(front.program),
    ensures
        watch_round(cfg, front, windows, fields, front_then, elapsed) == if is_hit(
            fields(front.handle),
            patterns_in_force(cfg),
        ) && front_then == front.handle && elapsed > 800_000_000 {
            (WatchAction::CloseTab { millis: 450 })
        } else {
            (WatchAction::Sleep { millis: 350 })
        },
{
    reveal_with_fuel(scanned, 3);
    let patterns = patterns_in_force(cfg);
    let one = seq![front.handle];
    assert(one.skip(1) =~= Seq::empty());
    lemma_round_closes_tab(cfg, front, windows, fields, front_then, elapsed);
}

proof fn lemma_handles_of_parts(a: Seq<WindowView>, b: Seq<WindowView>)
    ensures
        browser_handles(a + b) == browser_handles(a) + browser_handles(b),
{
    Seq::filter_distributes_over_add(a, b, of_browser());
    assert(browser_handles(a + b) =~= browser_handles(a) + browser_handles(b));
}

proof fn lemma_first_hit_behind(
    a: Seq<u64>,
    h: u64,
    b: Seq<u64>,
    fields: spec_fn(u64) -> Seq<Seq<char>>,
    patterns: Seq<Seq<char>>,
)
    requires
        forall|i: int| 0 <= i < a.len() ==> !is_hit(fields(#[trigger] a[i]), patterns),
    ensures
        is_hit(fields(h), patterns) ==> first_hit(a + seq![h] + b, fields, patterns) == Some(h),
        first_hit(a, fields, patterns) is None,
    decreases a.len(),
{
    let all = a + seq![h] + b;
    if a.len() > 0 {
        assert(!is_hit(fields(a[0]), patterns));
        assert(all.skip(1) =~= a.skip(1) + seq![h] + b);
        assert forall|i: int| 0 <= i < a.skip(1).len() implies !is_hit(
            fields(#[trigger] a.skip(1)[i]),
            patterns,
        ) by {
            assert(a.skip(1)[i] == a[i + 1]);
        }
        lemma_first_hit_behind(a.skip(1), h, b, fields, patterns);
    }
}

proof fn lemma_no_hit_before(
    before: Seq<WindowView>,
    fields: spec_fn(u64) -> Seq<Seq<char>>,
    patterns: Seq<Seq<char>>,
    i: int,
)
    requires
        forall|k: int|
            0 <= k < before.len() && names_browser((#[trigger] before[k]).program) ==> !is_hit(
                fields(before[k].handle),
                patterns,
            ),
        0 <= i < browser_handles(before).len(),
    ensures
        !is_hit(fields(browser_handles(before)[i]), patterns),
{
    let kept = before.filter(of_browser());
    before.lemma_filter_pred(of_browser(), i);
    assert(kept.contains(kept[i]));
    before.lemma_filter_contains_rev(of_browser(), kept[i]);
    let k = choose|k: int| 0 <= k < before.len() && before[k] == kept[i];
    assert(names_browser(before[k].program));
}

/// With no browser in front, the browsers among the windows are read in turn, and
/// the first that is hit counts: its tab is closed if it has come to the front and
/// the last tab was not closed a moment ago.
pub proof fn lemma_browser_behind(
    cfg: ConfigView,
    front: WindowView,
    before: Seq<WindowView>,
    w: WindowView,
    after: Seq<WindowView>,
    fields: spec_fn(u64) -> Seq<Seq<char>>,
    front_then: u64,
    elapsed: u128,
)
    requires
        patterns_in_force(cfg).len() > 0,
        front.handle == 0 || !names_browser(front.program),
        forall|k: int|
            0 <= k < before.len() && names_browser((#[trigger] before[k]).program) ==> !is_hit(
                fields(before[k].handle),
                patterns_in_force(cfg),
            ),
    ensures
        names_browser(w.program) && is_hit(fields(w.handle), patterns_in_force(cfg))
            ==> watch_round(
            cfg,
            front,
            before + seq![w] + after,
            fields,
            front_then,
            elapsed,
        ) == if front_then == w.handle && elapsed > 800_000_000 {
            (WatchAction::CloseTab { millis: 450 })
        } else {
            (WatchAction::Sleep { millis: 350 })
        },
        watch_round(cfg, front, before, fields, front_then, elapsed) == (WatchAction::Sleep {
            millis: 350,
        }),
{
    let patterns = patterns_in_force(cfg);
    let a = browser_handles(before);
    let b = browser_handles(after);
    assert forall|i: int| 0 <= i < a.len() implies !is_hit(fields(#[trigger] a[i]), patterns) by {
        lemma_no_hit_before(before, fields, patterns, i);
    }
    lemma_first_hit_behind(a, w.handle, b, fields, patterns);
    lemma_scanned_to_hit(cfg, front, before, fields, front_then, elapsed);
    if names_browser(w.program) && is_hit(fields(w.handle), patterns) {
        lemma_handles_of_parts(before, seq![w]);
        lemma_handles_of_parts(before + seq![w], after);
        lemma_browsers_kept(Seq::empty(), w);
        assert(Seq::<WindowView>::empty().push(w) =~= seq![w]);
        assert(browser_handles(seq![w]) =~= seq![w.handle]);
        lemma_scanned_to_hit(cfg, front, before + seq![w] + after, fields, front_then, elapsed);
    }
}

proof fn lemma_scanned_to_hit(
    cfg: ConfigView,
    front: WindowView,
    windows: Seq<WindowView>,
    fields: spec_fn(u64) -> Seq<Seq<char>>,
    front_then: u64,
    elapsed: u128,
)
    requires
        patterns_in_force(cfg).len() > 0,
    ensures
        watch_round(cfg, front, windows, fields, front_then, elapsed) == if first_hit(
            windows_to_scan(front, windows),
            fields,
            patterns_in_force(cfg),
        ) == Some(front_then) && elapsed > 800_000_000 {
            (WatchAction::CloseTab { millis: 450 })
        } else {
            (WatchAction::Sleep { millis: 350 })
        },
{
    lemma_scanned(
        patterns_in_force(cfg),
        windows_to_scan(front, windows),
        fields,
    );
}

/// Step by step: a browser in front is read alone, and otherwise the windows are
/// listed; those of browsers are read in turn, each for as long as none was hit;
/// one that was hit has to be in front, and not too soon.
pub proof fn lemma_round_step_by_step(
    patterns: Seq<Seq<char>>,
    front: WindowView,
    windows: Seq<WindowView>,
    window: u64,
    rest: Seq<u64>,
    values: Seq<Seq<char>>,
    elapsed: u128,
)
    ensures
        front.handle != 0 && names_browser(front.program) ==> watch_foreground(
            WatchView::Looking { patterns },
            front,
        ) == (
            (WatchView::Scanning { patterns, window: front.handle, rest: Seq::empty() }),
            (WatchAction::ReadValues { window: front.handle }),
        ),
        front.handle == 0 || !names_browser(front.program) ==> watch_foreground(
            WatchView::Looking { patterns },
            front,
        ) == ((WatchView::Listing { patterns }), WatchAction::ListWindows),
        browser_handles(windows).len() == 0 ==> watch_windows(
            WatchView::Listing { patterns },
            windows,
        ) == (WatchView::Idle, (WatchAction::Sleep { millis: 350 })),
        browser_handles(windows).len() > 0 ==> watch_windows(
            WatchView::Listing { patterns },
            windows,
        ) == (
            (WatchView::Scanning {
                patterns,
                window: browser_handles(windows)[0],
                rest: browser_handles(windows).skip(1),
            }),
            (WatchAction::ReadValues { window: browser_handles(windows)[0] }),
        ),
        is_hit(values, patterns) ==> watch_values(
            WatchView::Scanning { patterns, window, rest },
            values,
        ) == ((WatchView::Found { window }), WatchAction::AskFront),
        !is_hit(values, patterns) && rest.len() == 0 ==> watch_values(
            WatchView::Scanning { patterns, window, rest },
            values,
        ) == (WatchView::Idle, (WatchAction::Sleep { millis: 350 })),
        !is_hit(values, patterns) && rest.len() > 0 ==> watch_values(
            WatchView::Scanning { patterns, window, rest },
            values,
        ) == (
            (WatchView::Scanning { patterns, window: rest[0], rest: rest.skip(1) }),
            (WatchAction::ReadValues { window: rest[0] }),
        ),
        watch_front(WatchView::Found { window }, front.handle, elapsed) == (
            WatchView::Idle,
            if front.handle == window && elapsed > 800_000_000 {
                (WatchAction::CloseTab { millis: 450 })
            } else {
                (WatchAction::Sleep { millis: 350 })
            },
        ),
{
    assert(seq![front.handle].skip(1) =~= Seq::empty());
}

/// What comes at a time when it was not asked for begins a round anew.
pub proof fn lemma_unasked_begins_anew(
    state: WatchView,
    front: WindowView,
    windows: Seq<WindowView>,
    values: Seq<Seq<char>>,
    elapsed: u128,
)
    ensures
        !(state is Looking) ==> watch_foreground(state, front) == (
            WatchView::Idle,
            WatchAction::Begin,
        ),
        !(state is Listing) ==> watch_windows(state, windows) == (
            WatchView::Idle,
            WatchAction::Begin,
        ),
        !(state is Scanning) ==> watch_values(state, values) == (
            WatchView::Idle,
            WatchAction::Begin,
        ),
        !(state is Found) ==> watch_front(state, front.handle, elapsed) == (
            WatchView::Idle,
            WatchAction::Begin,
        ),
{
}

/// A tab is closed by control and W, pressed in this order and released in the
/// other.
pub proof fn lemma_closing_keys()
    ensures
        ctrl_w() == seq![
            KeyInput { key: Key::Control, up: false },
            KeyInput { key: Key::W, up: false },
            KeyInput { key: Key::W, up: true },
            KeyInput { key: Key::Control, up: true },
        ],
{
}

// ---------------------------------------------------------------------------
// Casinos that are shut
// ---------------------------------------------------------------------------

/// A browser in front loses its tab if one of its text fields holds the domain of
/// a casino that is blocked as a whole, and that domain has `.com` in it: the bare
/// domain does, and so does any address with the domain in it.
pub proof fn lemma_com_casino_is_closed(
    cfg: ConfigView,
    i: int,
    front: WindowView,
    windows: Seq<WindowView>,
    fields: spec_fn(u64) -> Seq<Seq<char>>,
    k: int,
    name: Seq<char>,
    before: Seq<char>,
    after: Seq<char>,
    elapsed: u128,
)
    requires
        cfg.enabled,
        0 <= i < cfg.casinos.len(),
        cfg.casinos[i].blocked_all,
        cfg.casinos[i].domain == name + ".com"@,
        is_ascii_chars(name),
        is_ascii_chars(before),
        is_ascii_chars(after),
        front.handle != 0,
        names_browser(front.program),
        0 <= k < fields(front.handle).len(),
        fields(front.handle)[k] == before + (name + ".com"@) + after,
        elapsed > 800_000_000,
    ensures
        watch_round(cfg, front, windows, fields, front.handle, elapsed) == (WatchAction::CloseTab {
            millis: 450,
        }),
{
    reveal_strlit(".com");
    let domain = name + ".com"@;
    let value = before + domain + after;
    assert(is_ascii_chars(domain));
    assert(value =~= (before + name) + ".com"@ + after);
    lemma_com_anywhere(before + name, after);
    lemma_lowercase_of_parts(before, domain);
    lemma_lowercase_of_parts(before + domain, after);
    lemma_shut_by_a_switch(cfg, value);
    assert(lowercase(value) == lowercase(before) + lowercase(cfg.casinos[i].domain) + lowercase(
        after,
    ));
    assert(is_match(value, patterns_in_force(cfg)));
    lemma_any_field_hits(fields(front.handle), patterns_in_force(cfg));
    let shut = choose|j: int|
        0 <= j < patterns_in_force(cfg).len() && has_part(
            lowercase(value),
            #[trigger] patterns_in_force(cfg)[j],
        );
    assert(patterns_in_force(cfg).len() > 0);
    lemma_browser_in_front(cfg, front, windows, fields, front.handle, elapsed);
}

/// The casinos of a new configuration below `.com`: with one of them blocked as a
/// whole, a browser in front whose address bar reads its bare domain loses its tab.
pub proof fn lemma_standard_casino_is_closed(
    cfg: ConfigView,
    i: int,
    front: WindowView,
    windows: Seq<WindowView>,
    fields: spec_fn(u64) -> Seq<Seq<char>>,
    k: int,
    elapsed: u128,
)
    requires
        cfg.enabled,
        0 <= i < 18,
        i != 2 && i != 8 && i != 10 && i != 15,
        i < cfg.casinos.len(),
        cfg.casinos[i].domain == standard_casinos()[i].domain,
        cfg.casinos[i].blocked_all,
        front.handle != 0,
        names_browser(front.program),
        0 <= k < fields(front.handle).len(),
        fields(front.handle)[k] == standard_casinos()[i].domain,
        elapsed > 800_000_000,
    ensures
        watch_round(cfg, front, windows, fields, front.handle, elapsed) == (WatchAction::CloseTab {
            millis: 450,
        }),
{
    let casino = standard_casinos()[i];
    let name = casino.id;
    lemma_standard_domains();
    lemma_fresh_is_sound();
    assert(is_ascii_chars(fresh_config().casinos[i].domain));
    assert(casino.domain == name + ".com"@);
    assert(is_ascii_chars(name)) by {
        assert forall|j: int| 0 <= j < name.len() implies '\0' <= #[trigger] name[j]
            <= '\u{7f}' by {
            assert(casino.domain[j] == name[j]);
        }
    }
    let empty = Seq::<char>::empty();
    assert(empty + (name + ".com"@) + empty =~= name + ".com"@);
    lemma_com_casino_is_closed(
        cfg,
        i,
        front,
        windows,
        fields,
        k,
        name,
        empty,
        empty,
        elapsed,
    );
}

} // verus!
