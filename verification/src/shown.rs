//! What the control panel shows of the configuration.
use crate::config::{is_blocked_all, patterns_in_force, CasinoView, ConfigView, GameView};
use crate::edit::{casino_field, game_field};
use crate::guarantees::casino_ids_distinct;
use crate::html::{
    active_count, casino_card_html, casino_cards_html, casino_pill_text, checked_attr,
    custom_card_html, custom_pill_text, escaped, game_row_html, is_blocked, message_html, of_casino,
    options_html, panel_html, pill_class, rows_html, status_line, update_html, PANEL_TITLE,
};
use crate::templates::{
    CARD_BLOCK_ALL, CARD_CHECKED, CARD_CLOSE, CARD_DOMAIN, CARD_GAMES, CARD_LABEL, CARD_NAME,
    CARD_OPEN, CARD_PILL, CARD_PILL_TEXT, CUSTOM_GAMES, CUSTOM_OPEN, NO_GAMES, PAGE_CLOSE,
    PAGE_OPEN, PAGE_STYLE, PANEL_ADD, PANEL_BANNER, PANEL_CASINOS, PANEL_CLOSE, PANEL_OPEN,
    PANEL_STATUS, PANEL_STATUS_TEXT, PANEL_SUB, PANEL_SWITCH, PANEL_UPDATE, ROW_ARIA, ROW_CHECKED,
    ROW_CLOSE, ROW_LABEL, ROW_NAME, ROW_OPEN, ROW_REMOVE, ROW_SLUG, ROW_TITLE,
};
use crate::text::{
    after_last, has_part, lemma_part_of_back, lemma_part_of_concat, lemma_part_of_front,
    lemma_part_of_itself,
};
use vstd::prelude::*;

verus! {

/// A checkbox with a name, ticked or not.
pub open spec fn checkbox_html(name: Seq<char>, on: bool) -> Seq<char> {
    r#"<input type="checkbox" name=""#@ + escaped(name) + r#"" "#@ + checked_attr(on) + ">"@
}

pub(crate) proof fn lemma_escaped_parts(a: Seq<char>, b: Seq<char>)
    ensures
        escaped(a + b) == escaped(a) + escaped(b),
    decreases b.len(),
{
    if b.len() == 0 {
        assert(a + b =~= a);
        assert(escaped(a) + escaped(b) =~= escaped(a));
    } else {
        lemma_escaped_parts(a, b.drop_last());
        assert((a + b).drop_last() =~= a + b.drop_last());
        assert(escaped(a + b) =~= escaped(a) + escaped(b));
    }
}

proof fn lemma_escaped_plain(s: Seq<char>)
    requires
        forall|i: int|
            0 <= i < s.len() ==> s[i] != '&' && s[i] != '<' && s[i] != '>' && s[i] != '"' && s[i]
                != '\'',
    ensures
        escaped(s) == s,
    decreases s.len(),
{
    if s.len() > 0 {
        lemma_escaped_plain(s.drop_last());
        assert(escaped(s) =~= s);
    } else {
        assert(escaped(s) =~= s);
    }
}

/// A checkbox in the midst of markup: `lead` ends in the start of the checkbox and
/// of its name, `tail` starts with its end.
proof fn lemma_checkbox_in_markup(
    x: Seq<char>,
    lead: Seq<char>,
    start: Seq<char>,
    id: Seq<char>,
    mid: Seq<char>,
    attr: Seq<char>,
    end: Seq<char>,
    tail: Seq<char>,
)
    requires
        start.len() <= lead.len(),
        lead.skip(lead.len() - start.len()) == start,
        end.is_prefix_of(tail),
    ensures
        has_part(x + lead + id + mid + attr + tail, start + id + mid + attr + end),
{
    let whole = x + lead + id + mid + attr + tail;
    let part = start + id + mid + attr + end;
    let front = x + lead.take(lead.len() - start.len());
    let back = tail.skip(end.len() as int);
    assert(lead =~= lead.take(lead.len() - start.len()) + start);
    assert(tail =~= end + back);
    assert(whole =~= front + part + back);
    lemma_part_of_itself(part);
    lemma_part_of_back(front, part, part);
    lemma_part_of_front(front + part, back, part);
}

proof fn lemma_game_checkbox(id: Seq<char>, on: bool)
    ensures
        checkbox_html(game_field(id), on) == (r#"<input type="checkbox" name=""#@ + "g_"@) + escaped(
            id,
        ) + r#"" "#@ + checked_attr(on) + ">"@,
{
    reveal_strlit("g_");
    lemma_escaped_plain("g_"@);
    lemma_escaped_parts("g_"@, id);
    let before = r#"<input type="checkbox" name=""#@;
    assert(before + ("g_"@ + escaped(id)) =~= (before + "g_"@) + escaped(id));
}

proof fn lemma_row_markup()
    ensures
        ({
            let start = r#"<input type="checkbox" name=""#@ + "g_"@;
            &&& start.len() <= ROW_NAME@.len()
            &&& ROW_NAME@.skip(ROW_NAME@.len() - start.len()) == start
            &&& ">"@.is_prefix_of(ROW_LABEL@)
        }),
{
    reveal_strlit("g_");
    reveal_strlit(">");
    reveal_strlit(r#"<input type="checkbox" name=""#);
    reveal_strlit(r#""><label><input type="checkbox" name="g_"#);
    reveal_strlit(r#"><span class="name">"#);
    let start = r#"<input type="checkbox" name=""#@ + "g_"@;
    assert(ROW_NAME@.skip(ROW_NAME@.len() - start.len()) =~= start);
    assert(ROW_LABEL@.subrange(0, 1) =~= ">"@);
}

/// The row of a game holds a checkbox with the name that a save looks for,
/// ticked if the game is blocked.
pub proof fn lemma_row_has_checkbox(g: GameView, muted: bool)
    ensures
        has_part(game_row_html(g, muted), checkbox_html(game_field(g.id), g.blocked)),
{
    let part = checkbox_html(game_field(g.id), g.blocked);
    let class = if muted {
        "game muted"@
    } else {
        "game"@
    };
    let start = r#"<input type="checkbox" name=""#@ + "g_"@;
    lemma_row_markup();
    lemma_game_checkbox(g.id, g.blocked);
    lemma_checkbox_in_markup(
        ROW_OPEN@ + class,
        ROW_NAME@,
        start,
        escaped(g.id),
        ROW_CHECKED@,
        checked_attr(g.blocked),
        ">"@,
        ROW_LABEL@,
    );
    let s0 = ROW_OPEN@ + class + ROW_NAME@ + escaped(g.id) + ROW_CHECKED@ + checked_attr(g.blocked)
        + ROW_LABEL@;
    let s1 = s0 + escaped(g.label);
    let s2 = s1 + ROW_SLUG@;
    let s3 = s2 + escaped(after_last(g.url_pattern, '/'));
    let s4 = s3 + ROW_REMOVE@;
    let s5 = s4 + escaped(g.id);
    let s6 = s5 + ROW_TITLE@;
    let s7 = s6 + escaped(g.label);
    let s8 = s7 + ROW_ARIA@;
    let s9 = s8 + escaped(g.label);
    lemma_part_of_front(s0, escaped(g.label), part);
    lemma_part_of_front(s1, ROW_SLUG@, part);
    lemma_part_of_front(s2, escaped(after_last(g.url_pattern, '/')), part);
    lemma_part_of_front(s3, ROW_REMOVE@, part);
    lemma_part_of_front(s4, escaped(g.id), part);
    lemma_part_of_front(s5, ROW_TITLE@, part);
    lemma_part_of_front(s6, escaped(g.label), part);
    lemma_part_of_front(s7, ROW_ARIA@, part);
    lemma_part_of_front(s8, escaped(g.label), part);
    lemma_part_of_front(s9, ROW_CLOSE@, part);
}

proof fn lemma_casino_checkbox(id: Seq<char>, on: bool)
    ensures
        checkbox_html(casino_field(id), on) == (r#"<input type="checkbox" name=""#@ + "c_"@)
            + escaped(id) + r#"_all" "#@ + checked_attr(on) + ">"@,
{
    reveal_strlit("c_");
    reveal_strlit("_all");
    reveal_strlit(r#"" "#);
    reveal_strlit(r#"_all" "#);
    lemma_escaped_plain("c_"@);
    lemma_escaped_plain("_all"@);
    lemma_escaped_parts("c_"@, id);
    lemma_escaped_parts("c_"@ + id, "_all"@);
    let before = r#"<input type="checkbox" name=""#@;
    let all = "_all"@;
    let quote = r#"" "#@;
    assert(r#"_all" "#@ =~= all + quote);
    assert(before + ("c_"@ + escaped(id) + all) + quote =~= (before + "c_"@) + escaped(id) + (all
        + quote));
}

proof fn lemma_card_markup()
    ensures
        ({
            let start = r#"<input type="checkbox" name=""#@ + "c_"@;
            &&& start.len() <= CARD_NAME@.len()
            &&& CARD_NAME@.skip(CARD_NAME@.len() - start.len()) == start
            &&& ">"@.is_prefix_of(CARD_GAMES@)
        }),
{
    reveal_strlit("c_");
    reveal_strlit(">");
    reveal_strlit(r#"<input type="checkbox" name=""#);
    reveal_strlit(r#", regardless of game.</span></span>
      <label class="switch sm" title="Block entire casino">
        <input type="checkbox" name="c_"#);
    reveal_strlit(r#">
        <span class="track"><span class="thumb"></span></span>
      </label>
    </div>
    <div class="games">"#);
    let start = r#"<input type="checkbox" name=""#@ + "c_"@;
    assert(CARD_NAME@.skip(CARD_NAME@.len() - start.len()) =~= start);
    assert(CARD_GAMES@.subrange(0, 1) =~= ">"@);
}

/// The markup of a card up to its checkbox.
spec fn card_head(c: CasinoView, games: Seq<GameView>) -> Seq<char> {
    let blocked = games.filter(is_blocked()).len();
    CARD_OPEN@ + (if c.blocked_all || blocked > 0 {
        "open"@
    } else {
        ""@
    }) + CARD_LABEL@ + escaped(c.label) + CARD_DOMAIN@ + escaped(c.domain) + CARD_PILL@ + (
    if c.blocked_all {
        "all"@
    } else {
        pill_class(blocked, games.len())
    }) + CARD_PILL_TEXT@ + escaped(casino_pill_text(c.blocked_all, blocked, games.len()))
        + CARD_BLOCK_ALL@ + escaped(c.domain)
}

/// The card of a casino holds a checkbox with the name that a save looks for,
/// ticked if the casino is blocked as a whole.
pub proof fn lemma_card_has_checkbox(c: CasinoView, all_games: Seq<GameView>)
    ensures
        has_part(
            casino_card_html(c, all_games),
            checkbox_html(casino_field(c.id), c.blocked_all),
        ),
{
    let part = checkbox_html(casino_field(c.id), c.blocked_all);
    let games = all_games.filter(of_casino(c.id));
    let start = r#"<input type="checkbox" name=""#@ + "c_"@;
    let head = card_head(c, games);
    lemma_card_markup();
    lemma_casino_checkbox(c.id, c.blocked_all);
    lemma_checkbox_in_markup(
        head,
        CARD_NAME@,
        start,
        escaped(c.id),
        CARD_CHECKED@,
        checked_attr(c.blocked_all),
        ">"@,
        CARD_GAMES@,
    );
    let s0 = head + CARD_NAME@ + escaped(c.id) + CARD_CHECKED@ + checked_attr(c.blocked_all)
        + CARD_GAMES@;
    let rows = if games.len() == 0 {
        NO_GAMES@
    } else {
        rows_html(games, c.blocked_all)
    };
    lemma_part_of_front(s0, rows, part);
    lemma_part_of_front(s0 + rows, CARD_CLOSE@, part);
}

proof fn lemma_rows_have(games: Seq<GameView>, g: GameView, muted: bool, part: Seq<char>)
    requires
        games.contains(g),
        has_part(game_row_html(g, muted), part),
    ensures
        has_part(rows_html(games, muted), part),
{
    let i = choose|i: int| 0 <= i < games.len() && games[i] == g;
    let rows = games.map_values(|g: GameView| game_row_html(g, muted));
    assert(rows[i] == game_row_html(g, muted));
    lemma_part_of_concat(rows, i, part);
}

proof fn lemma_card_has_game(c: CasinoView, all_games: Seq<GameView>, i: int)
    requires
        0 <= i < all_games.len(),
        all_games[i].casino == c.id,
    ensures
        has_part(
            casino_card_html(c, all_games),
            checkbox_html(game_field(all_games[i].id), all_games[i].blocked),
        ),
{
    let g = all_games[i];
    let part = checkbox_html(game_field(g.id), g.blocked);
    let games = all_games.filter(of_casino(c.id));
    all_games.lemma_filter_contains(of_casino(c.id), i);
    lemma_row_has_checkbox(g, c.blocked_all);
    lemma_rows_have(games, g, c.blocked_all, part);
    let s0 = card_head(c, games) + CARD_NAME@ + escaped(c.id) + CARD_CHECKED@ + checked_attr(
        c.blocked_all,
    ) + CARD_GAMES@;
    lemma_part_of_back(s0, rows_html(games, c.blocked_all), part);
    lemma_part_of_front(s0 + rows_html(games, c.blocked_all), CARD_CLOSE@, part);
}

proof fn lemma_custom_card_has_game(all_games: Seq<GameView>, i: int)
    requires
        0 <= i < all_games.len(),
        all_games[i].casino.len() == 0,
    ensures
        has_part(
            custom_card_html(all_games),
            checkbox_html(game_field(all_games[i].id), all_games[i].blocked),
        ),
{
    let g = all_games[i];
    let part = checkbox_html(game_field(g.id), g.blocked);
    assert(g.casino =~= Seq::empty());
    let own = of_casino(Seq::empty());
    let games = all_games.filter(own);
    all_games.lemma_filter_contains(own, i);
    let blocked = games.filter(is_blocked()).len();
    lemma_row_has_checkbox(g, false);
    lemma_rows_have(games, g, false, part);
    let s0 = CUSTOM_OPEN@ + pill_class(blocked, games.len()) + CARD_PILL_TEXT@ + escaped(
        custom_pill_text(blocked, games.len()),
    ) + CUSTOM_GAMES@;
    lemma_part_of_back(s0, rows_html(games, false), part);
    lemma_part_of_front(s0 + rows_html(games, false), CARD_CLOSE@, part);
}

proof fn lemma_switch_markup()
    ensures
        ({
            let start = r#"<input type="checkbox" name=""#@ + "enabled"@ + r#"" "#@;
            &&& start.len() <= PANEL_SWITCH@.len()
            &&& PANEL_SWITCH@.skip(PANEL_SWITCH@.len() - start.len()) == start
            &&& ">"@.is_prefix_of(PANEL_UPDATE@)
        }),
        escaped("enabled"@) == "enabled"@,
{
    reveal_strlit("enabled");
    reveal_strlit(">");
    reveal_strlit(r#"" "#);
    reveal_strlit(r#"<input type="checkbox" name=""#);
    reveal_strlit(r#"</span>
        </div>
      </div>
      <label class="switch" title="Master toggle (turning off requires 2FA)">
        <input type="checkbox" name="enabled" "#);
    reveal_strlit(r#">
        <span class="track"><span class="thumb"></span></span>
      </label>
    </div>

    "#);
    let start = r#"<input type="checkbox" name=""#@ + "enabled"@ + r#"" "#@;
    assert(PANEL_SWITCH@.skip(PANEL_SWITCH@.len() - start.len()) =~= start);
    assert(PANEL_UPDATE@.subrange(0, 1) =~= ">"@);
    lemma_escaped_plain("enabled"@);
}

/// The markup of the panel up to its main switch.
spec fn panel_head(cfg: ConfigView, version: Seq<char>) -> Seq<char> {
    PANEL_OPEN@ + escaped(version) + PANEL_STATUS@ + (if cfg.enabled {
        "on"@
    } else {
        "off"@
    }) + PANEL_STATUS_TEXT@ + (if cfg.enabled {
        "Blocking"@
    } else {
        "Paused"@
    }) + PANEL_SUB@ + status_line(cfg.enabled, active_count(cfg))
}

/// The panel holds what its body holds: up to the update banner, in the cards of
/// the casinos, or in the card of the user's own games.
proof fn lemma_panel_has(
    cfg: ConfigView,
    latest: Option<Seq<char>>,
    version: Seq<char>,
    msg: Option<Seq<char>>,
    part: Seq<char>,
)
    requires
        ({
            ||| has_part(
                panel_head(cfg, version) + PANEL_SWITCH@ + checked_attr(cfg.enabled)
                    + PANEL_UPDATE@,
                part,
            )
            ||| has_part(casino_cards_html(cfg.casinos, cfg.games), part)
            ||| has_part(custom_card_html(cfg.games), part)
        }),
    ensures
        has_part(panel_html(cfg, latest, version, msg), part),
{
    let s0 = panel_head(cfg, version) + PANEL_SWITCH@ + checked_attr(cfg.enabled) + PANEL_UPDATE@;
    let cards = casino_cards_html(cfg.casinos, cfg.games);
    let own = custom_card_html(cfg.games);
    let s1 = s0 + update_html(latest, version);
    let s2 = s1 + PANEL_BANNER@;
    let s3 = s2 + message_html(msg);
    let s4 = s3 + PANEL_CASINOS@;
    let s5 = s4 + cards;
    let s6 = s5 + own;
    let s7 = s6 + PANEL_ADD@;
    let s8 = s7 + options_html(cfg.casinos);
    let s9 = s8 + PANEL_CLOSE@;
    let head = PAGE_OPEN@ + escaped(PANEL_TITLE@) + PAGE_STYLE@;
    if has_part(s0, part) {
        lemma_part_of_front(s0, update_html(latest, version), part);
        lemma_part_of_front(s1, PANEL_BANNER@, part);
        lemma_part_of_front(s2, message_html(msg), part);
        lemma_part_of_front(s3, PANEL_CASINOS@, part);
        lemma_part_of_front(s4, cards, part);
        lemma_part_of_front(s5, own, part);
    } else if has_part(cards, part) {
        lemma_part_of_back(s4, cards, part);
        lemma_part_of_front(s5, own, part);
    } else {
        lemma_part_of_back(s5, own, part);
    }
    lemma_part_of_front(s6, PANEL_ADD@, part);
    lemma_part_of_front(s7, options_html(cfg.casinos), part);
    lemma_part_of_front(s8, PANEL_CLOSE@, part);
    lemma_part_of_back(head, s9, part);
    lemma_part_of_front(head + s9, PAGE_CLOSE@, part);
}

/// The panel has the main switch, ticked while the program is on.
pub proof fn lemma_panel_shows_main_switch(
    cfg: ConfigView,
    latest: Option<Seq<char>>,
    version: Seq<char>,
    msg: Option<Seq<char>>,
)
    ensures
        has_part(
            panel_html(cfg, latest, version, msg),
            checkbox_html("enabled"@, cfg.enabled),
        ),
{
    let part = checkbox_html("enabled"@, cfg.enabled);
    let start = r#"<input type="checkbox" name=""#@ + "enabled"@ + r#"" "#@;
    let none = Seq::<char>::empty();
    let head = panel_head(cfg, version);
    lemma_switch_markup();
    lemma_checkbox_in_markup(
        head,
        PANEL_SWITCH@,
        start,
        none,
        none,
        checked_attr(cfg.enabled),
        ">"@,
        PANEL_UPDATE@,
    );
    assert(start + none + none =~= start);
    assert(head + PANEL_SWITCH@ + none + none =~= head + PANEL_SWITCH@);
    lemma_panel_has(cfg, latest, version, msg, part);
}

/// The panel has a switch for every casino, ticked if the casino is blocked as a
/// whole.
pub proof fn lemma_panel_shows_casino(
    cfg: ConfigView,
    latest: Option<Seq<char>>,
    version: Seq<char>,
    msg: Option<Seq<char>>,
    j: int,
)
    requires
        0 <= j < cfg.casinos.len(),
    ensures
        has_part(
            panel_html(cfg, latest, version, msg),
            checkbox_html(casino_field(cfg.casinos[j].id), cfg.casinos[j].blocked_all),
        ),
{
    let part = checkbox_html(casino_field(cfg.casinos[j].id), cfg.casinos[j].blocked_all);
    let cards = cfg.casinos.map_values(|c: CasinoView| casino_card_html(c, cfg.games));
    lemma_card_has_checkbox(cfg.casinos[j], cfg.games);
    assert(cards[j] == casino_card_html(cfg.casinos[j], cfg.games));
    lemma_part_of_concat(cards, j, part);
    lemma_panel_has(cfg, latest, version, msg, part);
}

/// The panel has a switch for every game that belongs to a listed casino or to
/// none, ticked if the game is blocked.
pub proof fn lemma_panel_shows_game(
    cfg: ConfigView,
    latest: Option<Seq<char>>,
    version: Seq<char>,
    msg: Option<Seq<char>>,
    i: int,
)
    requires
        0 <= i < cfg.games.len(),
        cfg.games[i].casino.len() == 0 || exists|j: int|
            0 <= j < cfg.casinos.len() && (#[trigger] cfg.casinos[j]).id == cfg.games[i].casino,
    ensures
        has_part(
            panel_html(cfg, latest, version, msg),
            checkbox_html(game_field(cfg.games[i].id), cfg.games[i].blocked),
        ),
{
    let part = checkbox_html(game_field(cfg.games[i].id), cfg.games[i].blocked);
    if cfg.games[i].casino.len() == 0 {
        lemma_custom_card_has_game(cfg.games, i);
    } else {
        let j = choose|j: int|
            0 <= j < cfg.casinos.len() && (#[trigger] cfg.casinos[j]).id == cfg.games[i].casino;
        let cards = cfg.casinos.map_values(|c: CasinoView| casino_card_html(c, cfg.games));
        lemma_card_has_game(cfg.casinos[j], cfg.games, i);
        assert(cards[j] == casino_card_html(cfg.casinos[j], cfg.games));
        lemma_part_of_concat(cards, j, part);
    }
    lemma_panel_has(cfg, latest, version, msg, part);
}

/// The number that the panel shows is the number of patterns that are in force
/// while the program is on, as long as each casino that is blocked as a whole has
/// an identifier of its own.
pub proof fn lemma_count_is_number_of_patterns(cfg: ConfigView)
    requires
        casino_ids_distinct(cfg.casinos.filter(is_blocked_all())),
    ensures
        active_count(cfg) == patterns_in_force((ConfigView { enabled: true, ..cfg })).len(),
{
    let chosen = cfg.casinos.filter(is_blocked_all());
    let ids = chosen.map_values(|c: CasinoView| c.id);
    assert(ids.no_duplicates()) by {
        assert forall|i: int, j: int| 0 <= i < ids.len() && 0 <= j < ids.len() && i
            != j implies ids[i] != ids[j] by {
            if i < j {
                assert(chosen[i].id != chosen[j].id);
            } else {
                assert(chosen[j].id != chosen[i].id);
            }
        }
    }
    ids.unique_seq_to_set();
}

} // verus!
