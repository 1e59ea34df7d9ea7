//! What holds of the program as a whole: what is blocked stays blocked until a
//! right code comes.
use crate::config::{
    casino_blocked, casino_patterns, game_patterns, is_blocked_all, is_blocked_alone, pattern_of,
    patterns_in_force, without_scheme, CasinoView, ConfigView, GameView,
};
use crate::edit::{
    added_game, added_pattern, asked_game, base_id, can_add, casino_domain, casino_field,
    casino_freed, casino_was_blocked, checked_casino, checked_config, checked_game, game_field,
    game_freed, game_was_blocked, id_used, lemma_unused_id, other_than, weakens, with_added,
    with_removed,
};
use crate::form::field;
use crate::http::RequestView;
use crate::monitor::{
    first_hit, is_hit, is_match, is_url_value, lemma_round_closes_tab, names_browser, watch_round,
    windows_to_scan, COOLDOWN, WindowView,
};
use crate::server::{
    code_right, decided, handled, is_new_secret, is_set_up, panel_reply, plain_answer, saved,
    sent_to, setup_verified, AnswerView, DecisionView, Effect, ReplyView, ServerView,
};
use crate::text::{
    has_part, has_part_at, lemma_part_of_part, lemma_trimmed_ascii, trimmed, trimmed_start,
    without_leading, without_trailing,
};
use crate::totp::{code_accepted, lemma_code_near_now_accepted, secret_key, step_code};
use crate::unicode::{ascii_lower, lowercase};
use vstd::prelude::*;
use vstd::utf8::*;

verus! {

// ---------------------------------------------------------------------------
// Which addresses are blocked
// ---------------------------------------------------------------------------

/// While the program is paused, no address matches.
pub proof fn lemma_paused_blocks_nothing(cfg: ConfigView, url: Seq<char>)
    requires
        !cfg.enabled,
    ensures
        !is_match(url, patterns_in_force(cfg)),
{
}

/// The domain of every casino that is blocked as a whole is a pattern in force.
pub proof fn lemma_blocked_casino_in_force(cfg: ConfigView, i: int)
    requires
        cfg.enabled,
        0 <= i < cfg.casinos.len(),
        cfg.casinos[i].blocked_all,
    ensures
        patterns_in_force(cfg).contains(lowercase(cfg.casinos[i].domain)),
{
    let chosen = cfg.casinos.filter(is_blocked_all());
    cfg.casinos.lemma_filter_contains(is_blocked_all(), i);
    let k = choose|k: int| 0 <= k < chosen.len() && chosen[k] == cfg.casinos[i];
    assert(casino_patterns(cfg.casinos)[k] == lowercase(cfg.casinos[i].domain));
    assert(patterns_in_force(cfg)[k] == lowercase(cfg.casinos[i].domain));
}

/// The pattern of every game that is blocked is in force, unless its casino is
/// blocked as a whole.
pub proof fn lemma_blocked_game_in_force(cfg: ConfigView, i: int)
    requires
        cfg.enabled,
        0 <= i < cfg.games.len(),
        cfg.games[i].blocked,
    ensures
        patterns_in_force(cfg).contains(lowercase(cfg.games[i].url_pattern)) || casino_blocked(
            cfg.casinos,
            cfg.games[i].casino,
        ),
{
    if !casino_blocked(cfg.casinos, cfg.games[i].casino) {
        let alone = is_blocked_alone(cfg.casinos);
        let chosen = cfg.games.filter(alone);
        cfg.games.lemma_filter_contains(alone, i);
        let k = choose|k: int| 0 <= k < chosen.len() && chosen[k] == cfg.games[i];
        let before = casino_patterns(cfg.casinos).len();
        assert(game_patterns(cfg.casinos, cfg.games)[k] == lowercase(cfg.games[i].url_pattern));
        assert(patterns_in_force(cfg)[before + k] == lowercase(cfg.games[i].url_pattern));
    }
}

/// Every pattern in force is the domain of a casino that is blocked as a whole,
/// or the pattern of a game that is blocked. Nothing else is shut.
pub proof fn lemma_patterns_come_from_switches(cfg: ConfigView, pattern: Seq<char>)
    requires
        patterns_in_force(cfg).contains(pattern),
    ensures
        cfg.enabled,
        (exists|i: int|
            0 <= i < cfg.casinos.len() && (#[trigger] cfg.casinos[i]).blocked_all && lowercase(
                cfg.casinos[i].domain,
            ) == pattern) || (exists|i: int|
            0 <= i < cfg.games.len() && (#[trigger] cfg.games[i]).blocked && !casino_blocked(
                cfg.casinos,
                cfg.games[i].casino,
            ) && lowercase(cfg.games[i].url_pattern) == pattern),
{
    let all = patterns_in_force(cfg);
    let k = choose|k: int| 0 <= k < all.len() && all[k] == pattern;
    let casinos = cfg.casinos.filter(is_blocked_all());
    let alone = is_blocked_alone(cfg.casinos);
    let games = cfg.games.filter(alone);
    if k < casinos.len() {
        cfg.casinos.lemma_filter_pred(is_blocked_all(), k);
        assert(casinos.contains(casinos[k]));
        cfg.casinos.lemma_filter_contains_rev(is_blocked_all(), casinos[k]);
        let i = choose|i: int| 0 <= i < cfg.casinos.len() && cfg.casinos[i] == casinos[k];
        assert(cfg.casinos[i].blocked_all);
    } else {
        let m = k - casinos.len();
        cfg.games.lemma_filter_pred(alone, m);
        assert(games.contains(games[m]));
        cfg.games.lemma_filter_contains_rev(alone, games[m]);
        let i = choose|i: int| 0 <= i < cfg.games.len() && cfg.games[i] == games[m];
        assert(cfg.games[i].blocked);
    }
}

proof fn lemma_match_by_pattern(
    url: Seq<char>,
    patterns: Seq<Seq<char>>,
    pattern: Seq<char>,
)
    requires
        patterns.contains(pattern),
        has_part(lowercase(url), pattern),
    ensures
        is_match(url, patterns),
{
    let k = choose|k: int| 0 <= k < patterns.len() && patterns[k] == pattern;
    assert(has_part(lowercase(url), patterns[k]));
}

/// Every address that holds the domain of a casino that is blocked as a whole
/// matches, whatever the case of its letters.
pub proof fn lemma_blocked_casino_matches(cfg: ConfigView, i: int, url: Seq<char>)
    requires
        cfg.enabled,
        0 <= i < cfg.casinos.len(),
        cfg.casinos[i].blocked_all,
        has_part(lowercase(url), lowercase(cfg.casinos[i].domain)),
    ensures
        is_match(url, patterns_in_force(cfg)),
{
    lemma_blocked_casino_in_force(cfg, i);
    lemma_match_by_pattern(url, patterns_in_force(cfg), lowercase(cfg.casinos[i].domain));
}

/// A browser in front whose address holds the domain of a casino that is blocked
/// as a whole loses its tab, if it is still in front and no tab was closed a
/// moment ago.
pub proof fn lemma_blocked_casino_is_closed(
    cfg: ConfigView,
    i: int,
    front: WindowView,
    windows: Seq<WindowView>,
    fields: spec_fn(u64) -> Seq<Seq<char>>,
    k: int,
    elapsed: u128,
)
    requires
        cfg.enabled,
        0 <= i < cfg.casinos.len(),
        cfg.casinos[i].blocked_all,
        front.handle != 0,
        names_browser(front.program),
        0 <= k < fields(front.handle).len(),
        is_url_value(fields(front.handle)[k]),
        has_part(lowercase(fields(front.handle)[k]), lowercase(cfg.casinos[i].domain)),
        elapsed > COOLDOWN,
    ensures
        watch_round(cfg, front, windows, fields, front.handle, elapsed) is CloseTab,
{
    let patterns = patterns_in_force(cfg);
    lemma_blocked_casino_matches(cfg, i, fields(front.handle)[k]);
    assert(is_hit(fields(front.handle), patterns));
    assert(first_hit(windows_to_scan(front, windows), fields, patterns) == Some(front.handle));
    lemma_round_closes_tab(cfg, front, windows, fields, front.handle, elapsed);
}

// ---------------------------------------------------------------------------
// Nothing gets weaker without a code
// ---------------------------------------------------------------------------

/// Of several casinos, or games, with one identifier, the last is blocked if any
/// is. Where each has an identifier of its own this holds.
pub open spec fn switches_agree(cfg: ConfigView) -> bool {
    &&& forall|i: int|
        0 <= i < cfg.casinos.len() && (
        #[trigger] cfg.casinos[i]).blocked_all ==> casino_was_blocked(
            cfg.casinos,
            cfg.casinos[i].id,
        )
    &&& forall|i: int|
        0 <= i < cfg.games.len() && (#[trigger] cfg.games[i]).blocked ==> game_was_blocked(
            cfg.games,
            cfg.games[i].id,
        )
}

/// The pattern of every blocked game holds the domain of its casino.
pub open spec fn blocked_below_casinos(cfg: ConfigView) -> bool {
    forall|i: int, j: int|
        #![trigger cfg.games[i], cfg.casinos[j]]
        0 <= i < cfg.games.len() && 0 <= j < cfg.casinos.len() && cfg.games[i].blocked
            && cfg.casinos[j].id == cfg.games[i].casino ==> has_part(
            lowercase(cfg.games[i].url_pattern),
            lowercase(cfg.casinos[j].domain),
        )
}

/// The pattern of every game holds the domain of its casino.
pub open spec fn games_below_casinos(cfg: ConfigView) -> bool {
    forall|i: int, j: int|
        #![trigger cfg.games[i], cfg.casinos[j]]
        0 <= i < cfg.games.len() && 0 <= j < cfg.casinos.len() && cfg.casinos[j].id
            == cfg.games[i].casino ==> has_part(
            lowercase(cfg.games[i].url_pattern),
            lowercase(cfg.casinos[j].domain),
        )
}

/// A save that weakens nothing, and so takes no code, leaves every address shut
/// that was shut.
pub proof fn lemma_save_without_code_keeps_blocks(
    cfg: ConfigView,
    body: Map<Seq<char>, Seq<char>>,
    url: Seq<char>,
)
    requires
        switches_agree(cfg),
        blocked_below_casinos(cfg),
        !weakens(cfg, checked_config(cfg, body)),
        is_match(url, patterns_in_force(cfg)),
    ensures
        is_match(url, patterns_in_force(checked_config(cfg, body))),
{
    let after = checked_config(cfg, body);
    let all = patterns_in_force(cfg);
    let k = choose|k: int| 0 <= k < all.len() && has_part(lowercase(url), #[trigger] all[k]);
    let pattern = all[k];
    assert(all.contains(pattern));
    lemma_patterns_come_from_switches(cfg, pattern);
    if exists|i: int|
        0 <= i < cfg.casinos.len() && (#[trigger] cfg.casinos[i]).blocked_all && lowercase(
            cfg.casinos[i].domain,
        ) == pattern {
        let i = choose|i: int|
            0 <= i < cfg.casinos.len() && (#[trigger] cfg.casinos[i]).blocked_all && lowercase(
                cfg.casinos[i].domain,
            ) == pattern;
        assert(after.casinos[i] == checked_casino(body)(cfg.casinos[i]));
        assert(after.casinos[i].blocked_all);
        lemma_blocked_casino_matches(after, i, url);
    } else {
        let i = choose|i: int|
            0 <= i < cfg.games.len() && (#[trigger] cfg.games[i]).blocked && !casino_blocked(
                cfg.casinos,
                cfg.games[i].casino,
            ) && lowercase(cfg.games[i].url_pattern) == pattern;
        assert(after.games[i] == checked_game(body)(cfg.games[i]));
        assert(after.games[i].blocked);
        lemma_blocked_game_in_force(after, i);
        if casino_blocked(after.casinos, after.games[i].casino) {
            let j = choose|j: int|
                0 <= j < after.casinos.len() && (#[trigger] after.casinos[j]).blocked_all
                    && after.casinos[j].id == after.games[i].casino;
            assert(after.casinos[j] == checked_casino(body)(cfg.casinos[j]));
            assert(cfg.casinos[j].id == cfg.games[i].casino);
            lemma_part_of_part(lowercase(url), pattern, lowercase(cfg.casinos[j].domain));
            lemma_blocked_casino_matches(after, j, url);
        } else {
            lemma_match_by_pattern(url, patterns_in_force(after), pattern);
        }
    }
}

/// Adding a game leaves every address shut that was shut.
pub proof fn lemma_adding_keeps_blocks(
    cfg: ConfigView,
    body: Map<Seq<char>, Seq<char>>,
    url: Seq<char>,
)
    requires
        is_match(url, patterns_in_force(cfg)),
    ensures
        is_match(url, patterns_in_force(with_added(cfg, body))),
{
    let after = with_added(cfg, body);
    let all = patterns_in_force(cfg);
    let k = choose|k: int| 0 <= k < all.len() && has_part(lowercase(url), #[trigger] all[k]);
    let pattern = all[k];
    assert(all.contains(pattern));
    lemma_patterns_come_from_switches(cfg, pattern);
    if exists|i: int|
        0 <= i < cfg.casinos.len() && (#[trigger] cfg.casinos[i]).blocked_all && lowercase(
            cfg.casinos[i].domain,
        ) == pattern {
        let i = choose|i: int|
            0 <= i < cfg.casinos.len() && (#[trigger] cfg.casinos[i]).blocked_all && lowercase(
                cfg.casinos[i].domain,
            ) == pattern;
        lemma_blocked_casino_matches(after, i, url);
    } else {
        let i = choose|i: int|
            0 <= i < cfg.games.len() && (#[trigger] cfg.games[i]).blocked && !casino_blocked(
                cfg.casinos,
                cfg.games[i].casino,
            ) && lowercase(cfg.games[i].url_pattern) == pattern;
        assert(after.games[i] == cfg.games[i]);
        lemma_blocked_game_in_force(after, i);
        lemma_match_by_pattern(url, patterns_in_force(after), pattern);
    }
}

/// The effect of what a request comes to. The set-up page has none.
pub open spec fn effect_of(decision: DecisionView) -> Effect {
    match decision {
        DecisionView::Answered { reply } => reply.effect,
        DecisionView::Setup { .. } => Effect::Nothing,
    }
}

/// Whatever is requested without a right code: the program is not paused, quit or
/// replaced, no game goes, and every address stays shut that was shut.
pub proof fn lemma_nothing_weaker_without_code(
    state: ServerView,
    request: RequestView,
    now: Option<u64>,
)
    requires
        !code_right(state.cfg, request.body, now),
        switches_agree(state.cfg),
        blocked_below_casinos(state.cfg),
    ensures
        ({
            let (after, decision) = decided(state, request, now);
            &&& state.cfg.enabled ==> after.cfg.enabled
            &&& after.stop == state.stop
            &&& effect_of(decision) == Effect::Nothing || effect_of(decision) == Effect::Save
            &&& after.cfg.games.len() >= state.cfg.games.len()
            &&& forall|i: int|
                0 <= i < state.cfg.games.len() ==> (#[trigger] after.cfg.games[i]) == (GameView {
                    blocked: after.cfg.games[i].blocked,
                    ..state.cfg.games[i]
                })
            &&& forall|url: Seq<char>|
                is_match(url, patterns_in_force(state.cfg)) ==> #[trigger] is_match(
                    url,
                    patterns_in_force(after.cfg),
                )
        }),
{
    let (after, decision) = decided(state, request, now);
    let checked = checked_config(state.cfg, request.body);
    assert forall|url: Seq<char>|
        is_match(url, patterns_in_force(state.cfg)) implies #[trigger] is_match(
        url,
        patterns_in_force(after.cfg),
    ) by {
        if after.cfg == with_added(state.cfg, request.body) {
            lemma_adding_keeps_blocks(state.cfg, request.body, url);
        } else if after.cfg == checked && !weakens(state.cfg, checked) {
            lemma_save_without_code_keeps_blocks(state.cfg, request.body, url);
        } else {
            assert(patterns_in_force(after.cfg) == patterns_in_force(state.cfg));
        }
    }
    if after.cfg == checked {
        assert forall|i: int| 0 <= i < state.cfg.games.len() implies (#[trigger] after.cfg.games[i])
            == (GameView { blocked: after.cfg.games[i].blocked, ..state.cfg.games[i] }) by {
            assert(after.cfg.games[i] == checked_game(request.body)(state.cfg.games[i]));
        }
    }
}

/// A right code takes effect where it is asked for: what is refused without it is
/// done with it.
pub proof fn lemma_weakening_save_takes_a_code(
    state: ServerView,
    body: Map<Seq<char>, Seq<char>>,
    now: Option<u64>,
)
    requires
        weakens(state.cfg, checked_config(state.cfg, body)),
    ensures
        !code_right(state.cfg, body, now) ==> saved(state, body, now).0 == state,
        code_right(state.cfg, body, now) ==> saved(state, body, now).0.cfg == checked_config(
            state.cfg,
            body,
        ),
{
}

/// A code that is refused changes nothing and does nothing.
pub proof fn lemma_bad_code_changes_nothing(
    state: ServerView,
    request: RequestView,
    now: Option<u64>,
)
    ensures
        ({
            let (after, decision) = decided(state, request, now);
            decision matches DecisionView::Answered { reply } ==> reply.answer == (
            AnswerView::Redirect { location: "/?msg=bad_code"@ }) ==> after == state && reply.effect
                == Effect::Nothing
        }),
{
    reveal_strlit("/?msg=bad_code");
    reveal_strlit("/?msg=setup_ok");
    reveal_strlit("/?msg=ok");
    reveal_strlit("/?msg=added");
    reveal_strlit("/?msg=removed");
    assert("/?msg=bad_code"@.len() == 14);
    assert("/?msg=setup_ok"@[6] != "/?msg=bad_code"@[6]);
}

/// Without duplicates, a change of the switches weakens the protection exactly if
/// it pauses the program or turns some switch off that was on.
pub proof fn lemma_weakens_means_switched_off(cfg: ConfigView, body: Map<Seq<char>, Seq<char>>)
    requires
        casino_ids_distinct(cfg.casinos),
        game_ids_distinct(cfg.games),
    ensures
        weakens(cfg, checked_config(cfg, body)) <==> {
            let after = checked_config(cfg, body);
            ||| cfg.enabled && !after.enabled
            ||| exists|i: int|
                0 <= i < cfg.casinos.len() && (#[trigger] cfg.casinos[i]).blocked_all
                    && !after.casinos[i].blocked_all
            ||| exists|i: int|
                0 <= i < cfg.games.len() && (#[trigger] cfg.games[i]).blocked
                    && !after.games[i].blocked
        },
{
    let after = checked_config(cfg, body);
    assert forall|i: int| 0 <= i < cfg.casinos.len() implies casino_was_blocked(
        cfg.casinos,
        (#[trigger] after.casinos[i]).id,
    ) == cfg.casinos[i].blocked_all by {
        assert(after.casinos[i] == checked_casino(body)(cfg.casinos[i]));
    }
    assert forall|i: int| 0 <= i < cfg.games.len() implies game_was_blocked(
        cfg.games,
        (#[trigger] after.games[i]).id,
    ) == cfg.games[i].blocked by {
        assert(after.games[i] == checked_game(body)(cfg.games[i]));
    }
    if exists|i: int|
        0 <= i < cfg.casinos.len() && (#[trigger] cfg.casinos[i]).blocked_all
            && !after.casinos[i].blocked_all {
        let i = choose|i: int|
            0 <= i < cfg.casinos.len() && (#[trigger] cfg.casinos[i]).blocked_all
                && !after.casinos[i].blocked_all;
        assert(casino_freed(cfg.casinos, after.casinos[i]));
    }
    if exists|i: int|
        0 <= i < cfg.games.len() && (#[trigger] cfg.games[i]).blocked && !after.games[i].blocked {
        let i = choose|i: int|
            0 <= i < cfg.games.len() && (#[trigger] cfg.games[i]).blocked
                && !after.games[i].blocked;
        assert(game_freed(cfg.games, after.games[i]));
    }
}

/// Saving the switches as they are changes nothing and takes no code.
pub proof fn lemma_save_as_shown(
    state: ServerView,
    body: Map<Seq<char>, Seq<char>>,
    now: Option<u64>,
)
    requires
        switches_agree(state.cfg),
        body.contains_key("enabled"@) == state.cfg.enabled,
        forall|i: int|
            0 <= i < state.cfg.casinos.len() ==> body.contains_key(
                casino_field((#[trigger] state.cfg.casinos[i]).id),
            ) == state.cfg.casinos[i].blocked_all,
        forall|i: int|
            0 <= i < state.cfg.games.len() ==> body.contains_key(
                game_field((#[trigger] state.cfg.games[i]).id),
            ) == state.cfg.games[i].blocked,
    ensures
        saved(state, body, now) == (state, sent_to("/?msg=ok"@, Effect::Save)),
{
    let after = checked_config(state.cfg, body);
    assert(after.casinos =~= state.cfg.casinos);
    assert(after.games =~= state.cfg.games);
    assert(after =~= state.cfg);
    assert(!weakens(after, after)) by {
        assert forall|i: int| 0 <= i < after.casinos.len() implies !casino_freed(
            after.casinos,
            #[trigger] after.casinos[i],
        ) by {
            lemma_last_casino_decides(after.casinos, body, i);
        }
        assert forall|i: int| 0 <= i < after.games.len() implies !game_freed(
            after.games,
            #[trigger] after.games[i],
        ) by {
            lemma_last_game_decides(after.games, body, i);
        }
    }
}

proof fn lemma_last_casino_decides(
    casinos: Seq<CasinoView>,
    body: Map<Seq<char>, Seq<char>>,
    i: int,
)
    requires
        0 <= i < casinos.len(),
        forall|j: int|
            0 <= j < casinos.len() ==> body.contains_key(casino_field((#[trigger] casinos[j]).id))
                == casinos[j].blocked_all,
    ensures
        casino_was_blocked(casinos, casinos[i].id) == casinos[i].blocked_all,
{
    if casinos[i].blocked_all {
        let k = lemma_last_casino(casinos, casinos[i].id, i);
        assert(casinos[k].blocked_all);
    }
}

proof fn lemma_last_game_decides(games: Seq<GameView>, body: Map<Seq<char>, Seq<char>>, i: int)
    requires
        0 <= i < games.len(),
        forall|j: int|
            0 <= j < games.len() ==> body.contains_key(game_field((#[trigger] games[j]).id))
                == games[j].blocked,
    ensures
        game_was_blocked(games, games[i].id) == games[i].blocked,
{
    if games[i].blocked {
        let k = lemma_last_game(games, games[i].id, i);
        assert(games[k].blocked);
    }
}

proof fn lemma_last_casino(casinos: Seq<CasinoView>, id: Seq<char>, i: int) -> (k: int)
    requires
        0 <= i < casinos.len(),
        casinos[i].id == id,
    ensures
        i <= k < casinos.len(),
        casinos[k].id == id,
        forall|j: int| k < j < casinos.len() ==> (#[trigger] casinos[j]).id != id,
    decreases casinos.len() - i,
{
    if exists|j: int| i < j < casinos.len() && (#[trigger] casinos[j]).id == id {
        let j = choose|j: int| i < j < casinos.len() && (#[trigger] casinos[j]).id == id;
        lemma_last_casino(casinos, id, j)
    } else {
        i
    }
}

proof fn lemma_last_game(games: Seq<GameView>, id: Seq<char>, i: int) -> (k: int)
    requires
        0 <= i < games.len(),
        games[i].id == id,
    ensures
        i <= k < games.len(),
        games[k].id == id,
        forall|j: int| k < j < games.len() ==> (#[trigger] games[j]).id != id,
    decreases games.len() - i,
{
    if exists|j: int| i < j < games.len() && (#[trigger] games[j]).id == id {
        let j = choose|j: int| i < j < games.len() && (#[trigger] games[j]).id == id;
        lemma_last_game(games, id, j)
    } else {
        i
    }
}

// ---------------------------------------------------------------------------
// What every request keeps
// ---------------------------------------------------------------------------

/// Each casino has an identifier of its own.
pub open spec fn casino_ids_distinct(casinos: Seq<CasinoView>) -> bool {
    forall|i: int, j: int|
        0 <= i < j < casinos.len() ==> (#[trigger] casinos[i]).id != (#[trigger] casinos[j]).id
}

/// Each game has an identifier of its own.
pub open spec fn game_ids_distinct(games: Seq<GameView>) -> bool {
    forall|i: int, j: int|
        0 <= i < j < games.len() ==> (#[trigger] games[i]).id != (#[trigger] games[j]).id
}

/// Where each casino and each game has an identifier of its own, the switches
/// agree.
pub proof fn lemma_distinct_ids_agree(cfg: ConfigView)
    requires
        casino_ids_distinct(cfg.casinos),
        game_ids_distinct(cfg.games),
    ensures
        switches_agree(cfg),
{
}

/// No request gives two casinos or two games one identifier.
pub proof fn lemma_requests_keep_ids_distinct(
    state: ServerView,
    request: RequestView,
    now: Option<u64>,
)
    requires
        casino_ids_distinct(state.cfg.casinos),
        game_ids_distinct(state.cfg.games),
    ensures
        casino_ids_distinct(decided(state, request, now).0.cfg.casinos),
        game_ids_distinct(decided(state, request, now).0.cfg.games),
{
    let cfg = state.cfg;
    let after = decided(state, request, now).0.cfg;
    let body = request.body;
    let checked = checked_config(cfg, body);
    assert(casino_ids_distinct(checked.casinos) && game_ids_distinct(checked.games)) by {
        assert forall|i: int| 0 <= i < cfg.casinos.len() implies (#[trigger] checked.casinos[i]).id
            == cfg.casinos[i].id by {}
        assert forall|i: int| 0 <= i < cfg.games.len() implies (#[trigger] checked.games[i]).id
            == cfg.games[i].id by {}
    }
    assert(game_ids_distinct(with_added(cfg, body).games)) by {
        let (label, casino, address) = asked_game(body);
        lemma_unused_id(cfg.games, base_id(label, casino, cfg.games.len()));
        let games = with_added(cfg, body).games;
        let new = added_game(cfg, label, casino, address);
        assert forall|i: int| 0 <= i < cfg.games.len() implies (#[trigger] cfg.games[i]).id
            != new.id by {}
        assert forall|i: int, j: int| 0 <= i < j < games.len() implies (#[trigger] games[i]).id
            != (#[trigger] games[j]).id by {
            assert(games[i] == cfg.games[i]);
        }
    }
    lemma_filter_keeps_ids_distinct(cfg.games, field(body, "remove_id"@));
}

proof fn lemma_filter_keeps_ids_distinct(games: Seq<GameView>, id: Seq<char>)
    requires
        game_ids_distinct(games),
    ensures
        game_ids_distinct(games.filter(other_than(id))),
    decreases games.len(),
{
    reveal(Seq::filter);
    if games.len() > 0 {
        let head = games.drop_last();
        let kept = head.filter(other_than(id));
        lemma_filter_keeps_ids_distinct(head, id);
        assert forall|i: int| 0 <= i < kept.len() implies (#[trigger] kept[i]).id
            != games.last().id by {
            assert(kept.contains(kept[i]));
            head.lemma_filter_contains_rev(other_than(id), kept[i]);
            let k = choose|k: int| 0 <= k < head.len() && head[k] == kept[i];
            assert(games[k] == kept[i]);
        }
    }
}

/// Every request keeps the switches in agreement.
pub proof fn lemma_requests_keep_agreement(
    state: ServerView,
    request: RequestView,
    now: Option<u64>,
)
    requires
        switches_agree(state.cfg),
    ensures
        switches_agree(decided(state, request, now).0.cfg),
{
    let cfg = state.cfg;
    let body = request.body;
    let checked = checked_config(cfg, body);
    assert(switches_agree(checked)) by {
        assert forall|i: int|
            0 <= i < checked.casinos.len() && (
            #[trigger] checked.casinos[i]).blocked_all implies casino_was_blocked(
            checked.casinos,
            checked.casinos[i].id,
        ) by {
            lemma_last_casino_decides(checked.casinos, body, i);
        }
        assert forall|i: int|
            0 <= i < checked.games.len() && (
            #[trigger] checked.games[i]).blocked implies game_was_blocked(
            checked.games,
            checked.games[i].id,
        ) by {
            lemma_last_game_decides(checked.games, body, i);
        }
    }
    assert(switches_agree(with_added(cfg, body))) by {
        let (label, casino, address) = asked_game(body);
        lemma_unused_id(cfg.games, base_id(label, casino, cfg.games.len()));
        let games = with_added(cfg, body).games;
        let new = added_game(cfg, label, casino, address);
        assert(games[cfg.games.len() as int] == new);
        assert forall|i: int| 0 <= i < games.len() && (
        #[trigger] games[i]).blocked implies game_was_blocked(games, games[i].id) by {
            if i < cfg.games.len() {
                assert(games[i] == cfg.games[i]);
                let k = choose|k: int|
                    #![trigger cfg.games[k]]
                    0 <= k < cfg.games.len() && cfg.games[k].id == games[i].id
                        && cfg.games[k].blocked && (forall|j: int|
                        k < j < cfg.games.len() ==> (#[trigger] cfg.games[j]).id != games[i].id);
                assert(games[k] == cfg.games[k]);
                assert forall|j: int| k < j < games.len() implies (#[trigger] games[j]).id
                    != games[i].id by {
                    if j < cfg.games.len() {
                        assert(games[j] == cfg.games[j]);
                    }
                }
            }
        }
    }
    let id = field(body, "remove_id"@);
    assert(switches_agree(with_removed(cfg, id))) by {
        let games = with_removed(cfg, id).games;
        assert forall|i: int| 0 <= i < games.len() && (
        #[trigger] games[i]).blocked implies game_was_blocked(games, games[i].id) by {
            cfg.games.lemma_filter_pred(other_than(id), i);
            assert(games.contains(games[i]));
            cfg.games.lemma_filter_contains_rev(other_than(id), games[i]);
            let k = choose|k: int| 0 <= k < cfg.games.len() && cfg.games[k] == games[i];
            assert(game_was_blocked(cfg.games, cfg.games[k].id));
            lemma_filter_keeps_last(cfg.games, id, games[i].id);
        }
    }
}

proof fn lemma_filter_keeps_last(games: Seq<GameView>, removed: Seq<char>, id: Seq<char>)
    requires
        removed != id,
    ensures
        game_was_blocked(games.filter(other_than(removed)), id) == game_was_blocked(games, id),
    decreases games.len(),
{
    reveal(Seq::filter);
    if games.len() > 0 {
        let head = games.drop_last();
        let kept = head.filter(other_than(removed));
        lemma_filter_keeps_last(head, removed, id);
        lemma_last_of_push(head, games.last(), id);
        assert(head.push(games.last()) =~= games);
        if games.last().id != removed {
            lemma_last_of_push(kept, games.last(), id);
        }
    }
}

proof fn lemma_last_of_push(games: Seq<GameView>, g: GameView, id: Seq<char>)
    ensures
        game_was_blocked(games.push(g), id) == if g.id == id {
            g.blocked
        } else {
            game_was_blocked(games, id)
        },
{
    let all = games.push(g);
    assert(all[games.len() as int] == g);
    if g.id != id && game_was_blocked(games, id) {
        let k = choose|k: int|
            #![trigger games[k]]
            0 <= k < games.len() && games[k].id == id && games[k].blocked && (forall|j: int|
                k < j < games.len() ==> (#[trigger] games[j]).id != id);
        assert(all[k] == games[k]);
        assert forall|j: int| k < j < all.len() implies (#[trigger] all[j]).id != id by {
            if j < games.len() {
                assert(all[j] == games[j]);
            }
        }
    }
    if g.id != id && game_was_blocked(all, id) {
        let k = choose|k: int|
            #![trigger all[k]]
            0 <= k < all.len() && all[k].id == id && all[k].blocked && (forall|j: int|
                k < j < all.len() ==> (#[trigger] all[j]).id != id);
        assert(games[k] == all[k]);
        assert forall|j: int| k < j < games.len() implies (#[trigger] games[j]).id != id by {
            assert(all[j] == games[j]);
        }
    }
}

// ---------------------------------------------------------------------------
// Adding and removing
// ---------------------------------------------------------------------------

/// A game that is added comes behind the others, which stay as they are. It has
/// an identifier that no other has, and it is blocked: its pattern is in force,
/// unless its casino is blocked as a whole.
pub proof fn lemma_added_game_is_blocked(cfg: ConfigView, body: Map<Seq<char>, Seq<char>>)
    requires
        can_add(cfg, body),
    ensures
        ({
            let after = with_added(cfg, body);
            let game = after.games.last();
            &&& after.games.drop_last() == cfg.games
            &&& after == (ConfigView { games: after.games, ..cfg })
            &&& !id_used(cfg.games, game.id)
            &&& game.blocked
            &&& game.label.len() > 0
            &&& game.url_pattern.len() > 0
            &&& cfg.enabled ==> patterns_in_force(after).contains(lowercase(game.url_pattern))
                || casino_blocked(after.casinos, game.casino)
        }),
{
    let after = with_added(cfg, body);
    let (label, casino, address) = asked_game(body);
    lemma_unused_id(cfg.games, base_id(label, casino, cfg.games.len()));
    assert(after.games.drop_last() =~= cfg.games);
    if cfg.enabled {
        lemma_blocked_game_in_force(after, cfg.games.len() as int);
    }
}

/// The pattern of a game that is added to a casino starts with the casino's
/// domain.
pub proof fn lemma_added_pattern_below_domain(
    casinos: Seq<CasinoView>,
    casino: Seq<char>,
    address: Seq<char>,
)
    requires
        casino.len() > 0,
    ensures
        casino_domain(casinos, casino).is_prefix_of(added_pattern(casinos, casino, address)),
{
    let domain = casino_domain(casinos, casino);
    let pattern = added_pattern(casinos, casino, address);
    assert(pattern.subrange(0, domain.len() as int) =~= domain);
}

/// Removing an identifier removes every game that has it and no other.
pub proof fn lemma_removed_games(cfg: ConfigView, id: Seq<char>, g: GameView)
    ensures
        with_removed(cfg, id).games.contains(g) <==> cfg.games.contains(g) && g.id != id,
        !id_used(with_removed(cfg, id).games, id),
{
    let kept = with_removed(cfg, id).games;
    if kept.contains(g) {
        let k = choose|k: int| 0 <= k < kept.len() && kept[k] == g;
        cfg.games.lemma_filter_pred(other_than(id), k);
        cfg.games.lemma_filter_contains_rev(other_than(id), g);
    }
    if cfg.games.contains(g) && g.id != id {
        let k = choose|k: int| 0 <= k < cfg.games.len() && cfg.games[k] == g;
        cfg.games.lemma_filter_contains(other_than(id), k);
    }
    assert forall|i: int| 0 <= i < kept.len() implies (#[trigger] kept[i]).id != id by {
        cfg.games.lemma_filter_pred(other_than(id), i);
    }
}

/// Removing the game that was just added gives the configuration back.
pub proof fn lemma_remove_undoes_add(cfg: ConfigView, body: Map<Seq<char>, Seq<char>>)
    ensures
        with_removed(with_added(cfg, body), with_added(cfg, body).games.last().id) == cfg,
{
    let after = with_added(cfg, body);
    let game = after.games.last();
    let (label, casino, address) = asked_game(body);
    lemma_unused_id(cfg.games, base_id(label, casino, cfg.games.len()));
    assert(after.games.drop_last() =~= cfg.games);
    assert forall|i: int| 0 <= i < cfg.games.len() implies (#[trigger] cfg.games[i]).id
        != game.id by {}
    lemma_filter_keeps_all(cfg.games, game.id);
    reveal(Seq::filter);
    assert(with_removed(after, game.id).games =~= cfg.games);
}

proof fn lemma_filter_keeps_all(games: Seq<GameView>, id: Seq<char>)
    requires
        forall|i: int| 0 <= i < games.len() ==> (#[trigger] games[i]).id != id,
    ensures
        games.filter(other_than(id)) == games,
    decreases games.len(),
{
    reveal(Seq::filter);
    if games.len() > 0 {
        assert(games.last().id != id);
        lemma_filter_keeps_all(games.drop_last(), id);
        assert(games.drop_last().push(games.last()) =~= games);
    } else {
        assert(games.filter(other_than(id)) =~= games);
    }
}

proof fn lemma_domain_of_casino(casinos: Seq<CasinoView>, j: int)
    requires
        casino_ids_distinct(casinos),
        0 <= j < casinos.len(),
    ensures
        casino_domain(casinos, casinos[j].id) == lowercase(casinos[j].domain),
    decreases casinos.len(),
{
    if j > 0 {
        assert(casinos[0].id != casinos[j].id);
        let rest = casinos.skip(1);
        assert(casino_ids_distinct(rest)) by {
            assert forall|a: int, b: int| 0 <= a < b < rest.len() implies (#[trigger] rest[a]).id
                != (#[trigger] rest[b]).id by {
                assert(rest[a] == casinos[a + 1]);
                assert(rest[b] == casinos[b + 1]);
            }
        }
        assert(rest[j - 1] == casinos[j]);
        lemma_domain_of_casino(rest, j - 1);
    }
}

proof fn lemma_without_ascii(s: Seq<char>, part: Seq<char>, c: char)
    requires
        is_ascii_chars(s),
    ensures
        is_ascii_chars(without_leading(s, part)),
        is_ascii_chars(without_trailing(s, c)),
    decreases s.len(),
{
    if part.len() > 0 && part.is_prefix_of(s) {
        lemma_without_ascii(s.skip(part.len() as int), part, c);
    }
    if s.len() > 0 {
        lemma_without_ascii(s.drop_last(), part, c);
    }
}

proof fn lemma_pattern_ascii(s: Seq<char>)
    requires
        is_ascii_chars(s),
    ensures
        is_ascii_chars(pattern_of(s)),
{
    lemma_trimmed_ascii(s);
    lemma_trimmed_ascii(trimmed_start(s));
    let lower = lowercase(trimmed(s));
    assert(is_ascii_chars(lower));
    let bare = without_scheme(lower);
    assert(is_ascii_chars(bare));
    lemma_without_ascii(bare, "www."@, '/');
    lemma_without_ascii(without_leading(bare, "www."@), "www."@, '/');
}

/// The domains of all casinos are in ASCII.
pub open spec fn domains_in_ascii(casinos: Seq<CasinoView>) -> bool {
    forall|j: int| 0 <= j < casinos.len() ==> is_ascii_chars((#[trigger] casinos[j]).domain)
}

/// A game that a request adds lies below the domain of its casino, whatever the
/// case of the letters. Its pattern starts with that domain in lower case, so
/// what this asks for is that lower-casing the whole pattern keeps the domain in
/// it. In ASCII it does.
pub open spec fn adds_below_casino(cfg: ConfigView, request: RequestView) -> bool {
    let (label, casino, address) = asked_game(request.body);
    request.method == "POST"@ && request.path == "/add"@ && casino.len() > 0 ==> has_part(
        lowercase(added_pattern(cfg.casinos, casino, address)),
        casino_domain(cfg.casinos, casino),
    )
}

proof fn lemma_domain_in_ascii(casinos: Seq<CasinoView>, id: Seq<char>)
    requires
        domains_in_ascii(casinos),
    ensures
        is_ascii_chars(casino_domain(casinos, id)),
        lowercase(casino_domain(casinos, id)) == casino_domain(casinos, id),
    decreases casinos.len(),
{
    if casinos.len() > 0 {
        let rest = casinos.skip(1);
        assert forall|j: int| 0 <= j < rest.len() implies is_ascii_chars(
            (#[trigger] rest[j]).domain,
        ) by {
            assert(rest[j] == casinos[j + 1]);
        }
        lemma_domain_in_ascii(rest, id);
        assert(is_ascii_chars(casinos[0].domain));
        let lower = lowercase(casinos[0].domain);
        assert(lowercase(lower) =~= lower);
    } else {
        assert(lowercase(Seq::<char>::empty()) =~= Seq::<char>::empty());
    }
}

/// Where the domains and the address in a request are in ASCII, a game that it
/// adds lies below the domain of its casino.
pub proof fn lemma_ascii_adds_below_casino(cfg: ConfigView, request: RequestView)
    requires
        domains_in_ascii(cfg.casinos),
        is_ascii_chars(field(request.body, "url_pattern"@)),
    ensures
        adds_below_casino(cfg, request),
{
    let (label, casino, address) = asked_game(request.body);
    lemma_trimmed_ascii(field(request.body, "url_pattern"@));
    lemma_trimmed_ascii(trimmed_start(field(request.body, "url_pattern"@)));
    if casino.len() > 0 {
        let domain = casino_domain(cfg.casinos, casino);
        let pattern = pattern_of(address);
        let below = added_pattern(cfg.casinos, casino, address);
        lemma_domain_in_ascii(cfg.casinos, casino);
        lemma_pattern_ascii(address);
        let tail = if domain.is_prefix_of(pattern) {
            pattern.skip(domain.len() as int)
        } else {
            pattern
        };
        lemma_without_ascii(tail, "/"@, '/');
        reveal_strlit("/");
        assert(is_ascii_chars(below));
        lemma_added_pattern_below_domain(cfg.casinos, casino, address);
        assert forall|i: int| 0 <= i < domain.len() implies ascii_lower(#[trigger] domain[i])
            == domain[i] by {
            assert(lowercase(domain)[i] == domain[i]);
        }
        assert(lowercase(below).subrange(0, domain.len() as int) =~= domain);
        assert(has_part_at(lowercase(below), domain, 0));
    }
}

/// Every request keeps the games below the domains of their casinos, as long as a
/// game that it adds lies below the domain of its own. So what a save without a
/// code keeps shut, it keeps shut after any number of requests.
pub proof fn lemma_requests_keep_games_below_casinos(
    state: ServerView,
    request: RequestView,
    now: Option<u64>,
)
    requires
        games_below_casinos(state.cfg),
        casino_ids_distinct(state.cfg.casinos),
        forall|j: int|
            0 <= j < state.cfg.casinos.len() ==> (#[trigger] state.cfg.casinos[j]).id.len() > 0,
        adds_below_casino(state.cfg, request),
    ensures
        games_below_casinos(decided(state, request, now).0.cfg),
        decided(state, request, now).0.cfg.casinos.len() == state.cfg.casinos.len(),
        forall|j: int|
            0 <= j < state.cfg.casinos.len() ==> (#[trigger] decided(
                state,
                request,
                now,
            ).0.cfg.casinos[j]).id == state.cfg.casinos[j].id && decided(
                state,
                request,
                now,
            ).0.cfg.casinos[j].domain == state.cfg.casinos[j].domain,
{
    let cfg = state.cfg;
    let body = request.body;
    let checked = checked_config(cfg, body);
    assert(games_below_casinos(checked)) by {
        assert forall|i: int, j: int|
            #![trigger checked.games[i], checked.casinos[j]]
            0 <= i < checked.games.len() && 0 <= j < checked.casinos.len() && checked.casinos[j].id
                == checked.games[i].casino implies has_part(
            lowercase(checked.games[i].url_pattern),
            lowercase(checked.casinos[j].domain),
        ) by {
            assert(cfg.casinos[j].id == cfg.games[i].casino);
        }
    }
    let grown = with_added(cfg, body);
    if request.method == "POST"@ && request.path == "/add"@ {
        assert(games_below_casinos(grown)) by {
            assert forall|i: int, j: int|
                #![trigger grown.games[i], grown.casinos[j]]
                0 <= i < grown.games.len() && 0 <= j < grown.casinos.len() && grown.casinos[j].id
                    == grown.games[i].casino implies has_part(
                lowercase(grown.games[i].url_pattern),
                lowercase(grown.casinos[j].domain),
            ) by {
                if i < cfg.games.len() {
                    assert(grown.games[i] == cfg.games[i]);
                    assert(cfg.casinos[j].id == cfg.games[i].casino);
                } else {
                    lemma_domain_of_casino(cfg.casinos, j);
                }
            }
        }
    }
    let id = field(body, "remove_id"@);
    let kept = with_removed(cfg, id);
    assert(games_below_casinos(kept)) by {
        assert forall|i: int, j: int|
            #![trigger kept.games[i], kept.casinos[j]]
            0 <= i < kept.games.len() && 0 <= j < kept.casinos.len() && kept.casinos[j].id
                == kept.games[i].casino implies has_part(
            lowercase(kept.games[i].url_pattern),
            lowercase(kept.casinos[j].domain),
        ) by {
            lemma_removed_games(cfg, id, kept.games[i]);
            assert(kept.games.contains(kept.games[i]));
            let k = choose|k: int| 0 <= k < cfg.games.len() && cfg.games[k] == kept.games[i];
            assert(cfg.casinos[j].id == cfg.games[k].casino);
        }
    }
}

// ---------------------------------------------------------------------------
// Requests
// ---------------------------------------------------------------------------

/// Whatever a request changes in the configuration is written down.
pub proof fn lemma_changes_are_saved(state: ServerView, request: RequestView, now: Option<u64>)
    ensures
        decided(state, request, now).0.cfg != state.cfg ==> effect_of(
            decided(state, request, now).1,
        ) == Effect::Save,
{
}

/// A request that is no POST changes nothing and does nothing.
pub proof fn lemma_reading_changes_nothing(
    state: ServerView,
    request: RequestView,
    now: Option<u64>,
)
    requires
        request.method != "POST"@,
    ensures
        decided(state, request, now).0 == state,
        effect_of(decided(state, request, now).1) == Effect::Nothing,
{
    reveal_strlit("GET");
    reveal_strlit("POST");
}

/// A request for anything but the pages and actions of the panel is not found.
pub proof fn lemma_unknown_request_not_found(
    state: ServerView,
    request: RequestView,
    now: Option<u64>,
)
    requires
        !(request.method == "GET"@ && request.path == "/"@),
        !(request.method == "POST"@ && (request.path == "/setup/verify"@ || request.path
            == "/save"@ || request.path == "/add"@ || request.path == "/remove"@ || request.path
            == "/quit"@ || request.path == "/update"@)),
    ensures
        decided(state, request, now) == (
            state,
            (DecisionView::Answered {
                reply: ReplyView {
                    answer: plain_answer(404, "not found"@),
                    effect: Effect::Nothing,
                },
            }),
        ),
{
}

/// The front page is the set-up page until the set-up is done, and the control
/// panel from then on.
pub proof fn lemma_front_page(state: ServerView, request: RequestView, now: Option<u64>)
    requires
        request.method == "GET"@,
        request.path == "/"@,
    ensures
        decided(state, request, now).1 is Setup <==> !is_set_up(state.cfg),
        is_set_up(state.cfg) ==> decided(state, request, now) == (
            state,
            (DecisionView::Answered { reply: panel_reply(state, request.query) }),
        ),
{
}

/// Once the set-up is done it stays done.
pub proof fn lemma_set_up_stays(state: ServerView, request: RequestView, now: Option<u64>)
    requires
        is_set_up(state.cfg),
    ensures
        is_set_up(decided(state, request, now).0.cfg),
{
}

/// The secret that counts changes only on the set-up page, to the secret shown
/// there, with a right code for it.
pub proof fn lemma_secret_changes_only_at_setup(
    state: ServerView,
    request: RequestView,
    now: Option<u64>,
)
    requires
        decided(state, request, now).0.cfg.totp_secret_b32 != state.cfg.totp_secret_b32,
    ensures
        request.method == "POST"@,
        request.path == "/setup/verify"@,
        state.pending_secret is Some,
        decided(state, request, now).0.cfg.totp_secret_b32 == state.pending_secret,
        code_accepted(state.pending_secret->0, field(request.body, "code"@), now),
{
}

/// The code of the moment for the secret on the set-up page completes the set-up:
/// the secret counts from then on, and nothing else in the configuration changes.
/// The same code is then right for the panel.
pub proof fn lemma_set_up_completes(
    state: ServerView,
    request: RequestView,
    secret: Seq<char>,
    now: u64,
)
    requires
        request.method == "POST"@,
        request.path == "/setup/verify"@,
        state.pending_secret == Some(secret),
        is_new_secret(secret),
        field(request.body, "code"@) == step_code(secret_key(secret)->0, (now / 30) as u64),
    ensures
        ({
            let (after, decision) = decided(state, request, Some(now));
            &&& is_set_up(after.cfg)
            &&& after.cfg == (ConfigView {
                totp_secret_b32: Some(secret),
                setup_complete: true,
                ..state.cfg
            })
            &&& after.pending_secret is None
            &&& effect_of(decision) == Effect::Save
            &&& code_right(after.cfg, request.body, Some(now))
        }),
{
    lemma_code_near_now_accepted(secret, (now / 30) as u64, now);
    lemma_right_first_code(state, request, secret, Some(now));
}

proof fn lemma_right_first_code(
    state: ServerView,
    request: RequestView,
    secret: Seq<char>,
    now: Option<u64>,
)
    requires
        request.method == "POST"@,
        request.path == "/setup/verify"@,
        state.pending_secret == Some(secret),
        code_accepted(secret, field(request.body, "code"@), now),
    ensures
        decided(state, request, now).0 == (ServerView {
            cfg: ConfigView {
                totp_secret_b32: Some(secret),
                setup_complete: true,
                ..state.cfg
            },
            pending_secret: None,
            ..state
        }),
        effect_of(decided(state, request, now).1) == Effect::Save,
{
    assert("GET"@ != "POST"@) by {
        reveal_strlit("GET");
        reveal_strlit("POST");
        assert("GET"@.len() != "POST"@.len());
    }
    assert(decided(state, request, now) == setup_verified(state, request.body, now));
}

/// Quitting, updating and removing take a right code.
pub proof fn lemma_actions_take_a_code(
    state: ServerView,
    request: RequestView,
    now: Option<u64>,
)
    ensures
        ({
            let (after, decision) = decided(state, request, now);
            &&& effect_of(decision) == Effect::Quit || effect_of(decision) == Effect::Install
                || after.stop != state.stop || after.cfg.games.len() < state.cfg.games.len()
                ==> code_right(state.cfg, request.body, now)
            &&& effect_of(decision) == Effect::Quit ==> after.stop
            &&& effect_of(decision) == Effect::Install
                ==> state.update_status.latest_version is Some
        }),
{
}

// ---------------------------------------------------------------------------
// Any number of requests
// ---------------------------------------------------------------------------

/// Each casino and each game has an identifier of its own, no casino's is empty,
/// and every game lies below the domain of its casino.
pub open spec fn is_sound(cfg: ConfigView) -> bool {
    &&& casino_ids_distinct(cfg.casinos)
    &&& game_ids_distinct(cfg.games)
    &&& games_below_casinos(cfg)
    &&& forall|j: int| 0 <= j < cfg.casinos.len() ==> (#[trigger] cfg.casinos[j]).id.len() > 0
}

/// A sound configuration is one that no request weakens without a code.
pub proof fn lemma_sound_is_protected(cfg: ConfigView)
    requires
        is_sound(cfg),
    ensures
        switches_agree(cfg),
        blocked_below_casinos(cfg),
{
    lemma_distinct_ids_agree(cfg);
}

/// Every request keeps a configuration sound, as long as a game that it adds lies
/// below the domain of its casino. No request changes a domain.
pub proof fn lemma_requests_keep_sound(state: ServerView, request: RequestView, now: Option<u64>)
    requires
        is_sound(state.cfg),
        adds_below_casino(state.cfg, request),
    ensures
        is_sound(decided(state, request, now).0.cfg),
        domains_in_ascii(state.cfg.casinos) ==> domains_in_ascii(
            decided(state, request, now).0.cfg.casinos,
        ),
{
    lemma_requests_keep_ids_distinct(state, request, now);
    lemma_requests_keep_games_below_casinos(state, request, now);
}

/// What came over a connection, with the time and the fresh secret at hand.
pub struct Connection {
    pub request: Option<RequestView>,
    pub now: Option<u64>,
    pub fresh: Option<Seq<char>>,
}

/// The state after some connections.
pub open spec fn state_after(state: ServerView, connections: Seq<Connection>) -> ServerView
    decreases connections.len(),
{
    if connections.len() == 0 {
        state
    } else {
        let last = connections.last();
        handled(
            state_after(state, connections.drop_last()),
            last.request,
            last.now,
            last.fresh,
        ).0
    }
}

/// None of the connections brings a right code, and every game that they add lies
/// below the domain of its casino: one whose address is in ASCII does, if the
/// domains are.
pub open spec fn no_code_comes(state: ServerView, connections: Seq<Connection>) -> bool
    decreases connections.len(),
{
    connections.len() > 0 ==> {
        let before = state_after(state, connections.drop_last());
        let last = connections.last();
        &&& no_code_comes(state, connections.drop_last())
        &&& last.request matches Some(request) ==> !code_right(before.cfg, request.body, last.now)
            && (adds_below_casino(before.cfg, request) || (domains_in_ascii(state.cfg.casinos)
            && is_ascii_chars(field(request.body, "url_pattern"@))))
    }
}

/// Whatever comes over any number of connections without a right code, the
/// program stays on, and every address stays shut that was shut. What is asked of
/// the games that come in meanwhile is that each lies below the domain of its
/// casino once it is lower-cased, as all of them do in ASCII.
pub proof fn lemma_nothing_weaker_until_a_code_comes(
    state: ServerView,
    connections: Seq<Connection>,
    url: Seq<char>,
)
    requires
        is_sound(state.cfg),
        no_code_comes(state, connections),
    ensures
        ({
            let after = state_after(state, connections);
            &&& is_sound(after.cfg)
            &&& domains_in_ascii(state.cfg.casinos) ==> domains_in_ascii(after.cfg.casinos)
            &&& state.cfg.enabled ==> after.cfg.enabled
            &&& after.stop == state.stop
            &&& is_match(url, patterns_in_force(state.cfg)) ==> is_match(
                url,
                patterns_in_force(after.cfg),
            )
        }),
    decreases connections.len(),
{
    if connections.len() > 0 {
        let before = state_after(state, connections.drop_last());
        let last = connections.last();
        lemma_nothing_weaker_until_a_code_comes(state, connections.drop_last(), url);
        if let Some(request) = last.request {
            lemma_sound_is_protected(before.cfg);
            if !adds_below_casino(before.cfg, request) {
                lemma_ascii_adds_below_casino(before.cfg, request);
            }
            lemma_requests_keep_sound(before, request, last.now);
            lemma_nothing_weaker_without_code(before, request, last.now);
        }
    }
}

} // verus!
