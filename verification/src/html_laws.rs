//! What the pages show.
use crate::config::{CasinoView, ConfigView, GameView};
use crate::html::{
    active_count, banner_html, casino_card_html, casino_cards_html, casino_pill_text, checked_attr,
    custom_card_html, custom_pill_text, escaped, escaped_char, game_row_html, is_blocked,
    message_banner, message_html, of_casino, option_html, options_html, page_html, panel_html,
    pill_class, rows_html, setup_html, status_line, update_html, PANEL_TITLE, SETUP_TITLE,
};
use crate::shown::{checkbox_html, lemma_escaped_parts};
use crate::templates::{
    CARD_BLOCK_ALL, CARD_CHECKED, CARD_CLOSE, CARD_DOMAIN, CARD_GAMES, CARD_LABEL, CARD_NAME,
    CARD_OPEN, CARD_PILL, CARD_PILL_TEXT, CUSTOM_GAMES, CUSTOM_OPEN, CUSTOM_OPTION, NO_GAMES,
    PAGE_CLOSE, PAGE_OPEN, PAGE_STYLE, PANEL_ADD, PANEL_BANNER, PANEL_CASINOS, PANEL_CLOSE,
    PANEL_OPEN, PANEL_STATUS, PANEL_STATUS_TEXT, PANEL_SUB, PANEL_SWITCH, PANEL_UPDATE, ROW_ARIA,
    ROW_CHECKED, ROW_CLOSE, ROW_LABEL, ROW_NAME, ROW_OPEN, ROW_REMOVE, ROW_SLUG, ROW_TITLE,
    SETUP_ERROR, SETUP_FORM, SETUP_OPEN, SETUP_SECRET, UPDATE_CLOSE, UPDATE_CURRENT, UPDATE_OPEN,
};
use crate::text::{
    after_last, concat, decimal, has_part, has_part_at, lemma_part_of_back, lemma_part_of_concat,
    lemma_part_of_front, lemma_part_of_itself,
};
use crate::text_laws::lemma_part_between;
use vstd::prelude::*;

verus! {

// ---------------------------------------------------------------------------
// Escaping
// ---------------------------------------------------------------------------

/// Texts side by side are escaped each on its own. Five characters become
/// entities, and every other stands for itself.
pub proof fn lemma_escaped_by_character(a: Seq<char>, b: Seq<char>, c: char)
    ensures
        escaped(Seq::empty()).len() == 0,
        escaped(a + b) == escaped(a) + escaped(b),
        escaped(seq!['&']) == "&amp;"@,
        escaped(seq!['<']) == "&lt;"@,
        escaped(seq!['>']) == "&gt;"@,
        escaped(seq!['"']) == "&quot;"@,
        escaped(seq!['\'']) == "&#39;"@,
        c != '&' && c != '<' && c != '>' && c != '"' && c != '\'' ==> escaped(seq![c]) == seq![c],
{
    lemma_escaped_parts(a, b);
    lemma_escaped_one('&');
    lemma_escaped_one('<');
    lemma_escaped_one('>');
    lemma_escaped_one('"');
    lemma_escaped_one('\'');
    lemma_escaped_one(c);
}

proof fn lemma_escaped_one(c: char)
    ensures
        escaped(seq![c]) == escaped_char(c),
{
    assert(seq![c].drop_last() =~= Seq::empty());
    assert(escaped(Seq::empty()) =~= Seq::empty());
    assert(escaped(seq![c]) =~= escaped_char(c));
}

proof fn lemma_between_markup(
    a: Seq<char>,
    before: Seq<char>,
    text: Seq<char>,
    behind: Seq<char>,
    start: Seq<char>,
    end: Seq<char>,
)
    requires
        start.len() <= before.len(),
        before.skip(before.len() - start.len()) == start,
        end.is_prefix_of(behind),
    ensures
        has_part(a + before + text + behind, start + text + end),
{
    let part = start + text + end;
    let front = a + before.take(before.len() - start.len());
    let back = behind.skip(end.len() as int);
    assert(behind =~= end + back);
    assert(a + before + text + behind =~= front + part + back);
    lemma_part_between(front, part, back);
}

// ---------------------------------------------------------------------------
// Banners and counts
// ---------------------------------------------------------------------------

/// Each outcome of a request has its banner. No other text has one.
pub proof fn lemma_banner_of_outcome(msg: Seq<char>)
    ensures
        msg == "setup_ok"@ ==> message_banner(msg) == Some(
            ("ok"@, "2FA active. Pausing and quitting require a code."@),
        ),
        msg == "ok"@ ==> message_banner(msg) == Some(("ok"@, "Saved."@)),
        msg == "added"@ ==> message_banner(msg) == Some(("ok"@, "Game added."@)),
        msg == "removed"@ ==> message_banner(msg) == Some(("ok"@, "Game removed."@)),
        msg == "bad_input"@ ==> message_banner(msg) == Some(
            ("err"@, "Name and URL pattern are required."@),
        ),
        msg == "bad_code"@ ==> message_banner(msg) == Some(
            ("err"@, "Wrong 2FA code — that action needs one."@),
        ),
        msg == "no_update"@ ==> message_banner(msg) == Some(("info"@, "No update available."@)),
        msg == "update_err"@ ==> message_banner(msg) == Some(
            ("err"@, "Update failed. Check network and try again."@),
        ),
        msg != "setup_ok"@ && msg != "ok"@ && msg != "added"@ && msg != "removed"@ && msg
            != "bad_input"@ && msg != "bad_code"@ && msg != "no_update"@ && msg != "update_err"@
            ==> message_banner(msg) is None,
{
    reveal_strlit("setup_ok");
    reveal_strlit("ok");
    reveal_strlit("added");
    reveal_strlit("removed");
    reveal_strlit("bad_input");
    reveal_strlit("bad_code");
    reveal_strlit("no_update");
    reveal_strlit("update_err");
    assert("setup_ok"@.len() == 8 && "setup_ok"@[0] == 's');
    assert("ok"@.len() == 2);
    assert("added"@.len() == 5);
    assert("removed"@.len() == 7);
    assert("bad_input"@.len() == 9 && "bad_input"@[0] == 'b');
    assert("bad_code"@.len() == 8 && "bad_code"@[0] == 'b');
    assert("no_update"@.len() == 9 && "no_update"@[0] == 'n');
    assert("update_err"@.len() == 10);
}

/// The banner of an outcome: its class and its text, escaped. There is none for
/// an outcome that is not known, or without one.
pub proof fn lemma_banner_shows_text(msg: Seq<char>, class: Seq<char>, text: Seq<char>)
    ensures
        message_html(None).len() == 0,
        message_banner(msg) is None ==> message_html(Some(msg)).len() == 0,
        message_banner(msg) == Some((class, text)) ==> message_html(Some(msg)) == banner_html(
            class,
            text,
        ),
        banner_html(class, text) == r#"<div class="banner "#@ + class + r#"">"#@ + escaped(text)
            + "</div>"@,
{
}

/// A checkbox is ticked exactly if its switch is on.
pub proof fn lemma_ticked_means_on(name: Seq<char>)
    ensures
        checkbox_html(name, true) == r#"<input type="checkbox" name=""#@ + escaped(name)
            + r#"" checked>"#@,
        checkbox_html(name, false) == r#"<input type="checkbox" name=""#@ + escaped(name)
            + r#"" >"#@,
        checked_attr(true) == "checked"@,
        checked_attr(false).len() == 0,
{
    reveal_strlit("");
    reveal_strlit(">");
    reveal_strlit("checked");
    reveal_strlit(r#"" "#);
    reveal_strlit(r#"" checked>"#);
    reveal_strlit(r#"" >"#);
    assert(r#"" checked>"#@ =~= r#"" "#@ + "checked"@ + ">"@);
    assert(r#"" >"#@ =~= r#"" "#@ + ""@ + ">"@);
    let start = r#"<input type="checkbox" name=""#@ + escaped(name);
    assert(checkbox_html(name, true) =~= start + (r#"" "#@ + "checked"@ + ">"@));
    assert(checkbox_html(name, false) =~= start + (r#"" "#@ + ""@ + ">"@));
}

/// What the pill of a casino says: that all is blocked, how many games of how many
/// are, that none is, or that there are none.
pub proof fn lemma_pills(blocked: nat, total: nat)
    ensures
        casino_pill_text(true, blocked, total) == "All blocked"@,
        blocked > 0 ==> casino_pill_text(false, blocked, total) == decimal(blocked) + " / "@
            + decimal(total),
        blocked == 0 && total > 0 ==> casino_pill_text(false, blocked, total) == "None"@,
        blocked == 0 && total == 0 ==> casino_pill_text(false, blocked, total) == "no games"@,
        blocked > 0 ==> custom_pill_text(blocked, total) == decimal(blocked) + " / "@ + decimal(
            total,
        ),
        blocked == 0 ==> custom_pill_text(blocked, total) == "None"@,
        blocked == 0 ==> pill_class(blocked, total) == "none"@,
        0 < blocked < total ==> pill_class(blocked, total) == "some"@,
        0 < blocked == total ==> pill_class(blocked, total) == "all"@,
{
}

/// The line below the status counts the patterns, one in the singular, or says
/// that the program is paused.
pub proof fn lemma_status_lines(count: nat)
    ensures
        status_line(true, 1) == "<b>"@ + decimal(1)
            + "</b> pattern active · all browsers monitored"@,
        count != 1 ==> status_line(true, count) == "<b>"@ + decimal(count)
            + "</b> patterns active · all browsers monitored"@,
        status_line(false, count)
            == "Pausing lets everything through. Flip the switch to resume."@,
{
    reveal_strlit("");
    reveal_strlit("s");
    reveal_strlit("</b> pattern");
    reveal_strlit(" active · all browsers monitored");
    reveal_strlit("</b> pattern active · all browsers monitored");
    reveal_strlit("</b> patterns active · all browsers monitored");
    let end = " active · all browsers monitored"@;
    assert("</b> pattern"@ + ""@ + end =~= "</b> pattern active · all browsers monitored"@);
    assert("</b> pattern"@ + "s"@ + end =~= "</b> patterns active · all browsers monitored"@);
    assert(status_line(true, 1) =~= "<b>"@ + decimal(1) + ("</b> pattern"@ + ""@ + end));
    if count != 1 {
        assert(status_line(true, count) =~= "<b>"@ + decimal(count) + ("</b> pattern"@ + "s"@
            + end));
    }
}

/// An update is offered with its version and this one. There is no offer without
/// one.
pub proof fn lemma_update_offer(latest: Seq<char>, version: Seq<char>)
    ensures
        update_html(None, version).len() == 0,
        has_part(
            update_html(Some(latest), version),
            "<b>v"@ + escaped(latest) + "</b> (you have v"@,
        ),
        has_part(update_html(Some(latest), version), "</b> (you have v"@ + escaped(version) + ")"@),
        has_part(update_html(Some(latest), version), r#"formaction="/update""#@),
{
    reveal_strlit(r#"<div class="banner info"><span>Update available — <b>v"#);
    reveal_strlit("</b> (you have v");
    reveal_strlit(
        r#").</span><button type="submit" formaction="/update" class="warn">Install update</button></div>"#,
    );
    reveal_strlit("<b>v");
    reveal_strlit(")");
    reveal_strlit(r#"formaction="/update""#);
    let none = Seq::<char>::empty();
    assert(UPDATE_OPEN@.skip(UPDATE_OPEN@.len() - 4) =~= "<b>v"@);
    assert(UPDATE_CURRENT@.skip(0) =~= "</b> (you have v"@);
    assert(UPDATE_CURRENT@.subrange(0, UPDATE_CURRENT@.len() as int) =~= "</b> (you have v"@);
    assert(UPDATE_CLOSE@.subrange(0, 1) =~= ")"@);
    lemma_between_markup(
        none,
        UPDATE_OPEN@,
        escaped(latest),
        UPDATE_CURRENT@,
        "<b>v"@,
        "</b> (you have v"@,
    );
    assert(none + UPDATE_OPEN@ =~= UPDATE_OPEN@);
    let s = UPDATE_OPEN@ + escaped(latest) + UPDATE_CURRENT@;
    let first = "<b>v"@ + escaped(latest) + "</b> (you have v"@;
    lemma_part_of_front(s, escaped(version), first);
    lemma_part_of_front(s + escaped(version), UPDATE_CLOSE@, first);
    lemma_between_markup(
        UPDATE_OPEN@ + escaped(latest),
        UPDATE_CURRENT@,
        escaped(version),
        UPDATE_CLOSE@,
        "</b> (you have v"@,
        ")"@,
    );
    let action = r#"formaction="/update""#@;
    let a = UPDATE_CLOSE@.take(31);
    let b = UPDATE_CLOSE@.skip(51);
    assert(action.len() == 20);
    assert(UPDATE_CLOSE@ =~= a + action + b);
    lemma_part_between(a, action, b);
    lemma_part_of_back(s + escaped(version), UPDATE_CLOSE@, action);
}

// ---------------------------------------------------------------------------
// Rows
// ---------------------------------------------------------------------------

/// The row of a game shows its label, the last part of its pattern, and a button
/// that removes the game by its identifier. It is muted where it makes no
/// difference, as its casino is blocked as a whole.
pub proof fn lemma_row_shows_game(g: GameView, muted: bool)
    ensures
        has_part(
            game_row_html(g, muted),
            r#"<span class="name">"#@ + escaped(g.label) + "</span>"@,
        ),
        has_part(
            game_row_html(g, muted),
            r#"<span class="slug">"#@ + escaped(after_last(g.url_pattern, '/')) + "</span>"@,
        ),
        has_part(
            game_row_html(g, muted),
            r#"name="remove_id" value=""#@ + escaped(g.id) + r#"" formaction="/remove""#@,
        ),
        muted ==> r#"<div class="game muted">"#@.is_prefix_of(game_row_html(g, muted)),
        !muted ==> r#"<div class="game">"#@.is_prefix_of(game_row_html(g, muted)),
{
    lemma_row_literals();
    lemma_row_class(g, muted);
    let class = if muted {
        "game muted"@
    } else {
        "game"@
    };
    let slug = escaped(after_last(g.url_pattern, '/'));
    let s0 = ROW_OPEN@ + class + ROW_NAME@ + escaped(g.id) + ROW_CHECKED@ + checked_attr(g.blocked);
    let s1 = s0 + ROW_LABEL@ + escaped(g.label);
    let s2 = s1 + ROW_SLUG@ + slug;
    let s3 = s2 + ROW_REMOVE@ + escaped(g.id);
    let s4 = s3 + ROW_TITLE@;
    let name = r#"<span class="name">"#@ + escaped(g.label) + "</span>"@;
    let last = r#"<span class="slug">"#@ + slug + "</span>"@;
    let button = r#"name="remove_id" value=""#@ + escaped(g.id) + r#"" formaction="/remove""#@;
    lemma_between_markup(
        s0,
        ROW_LABEL@,
        escaped(g.label),
        ROW_SLUG@,
        r#"<span class="name">"#@,
        "</span>"@,
    );
    lemma_between_markup(s1, ROW_SLUG@, slug, ROW_REMOVE@, r#"<span class="slug">"#@, "</span>"@);
    lemma_between_markup(
        s2,
        ROW_REMOVE@,
        escaped(g.id),
        ROW_TITLE@,
        r#"name="remove_id" value=""#@,
        r#"" formaction="/remove""#@,
    );
    lemma_part_of_front(s1 + ROW_SLUG@, slug, name);
    lemma_part_of_front(s2, ROW_REMOVE@, name);
    lemma_part_of_front(s2 + ROW_REMOVE@, escaped(g.id), name);
    lemma_part_of_front(s3, ROW_TITLE@, name);
    lemma_part_of_front(s2 + ROW_REMOVE@, escaped(g.id), last);
    lemma_part_of_front(s3, ROW_TITLE@, last);
    lemma_row_end(s4, g, name);
    lemma_row_end(s4, g, last);
    lemma_row_end(s4, g, button);
}

proof fn lemma_row_class(g: GameView, muted: bool)
    ensures
        muted ==> r#"<div class="game muted">"#@.is_prefix_of(game_row_html(g, muted)),
        !muted ==> r#"<div class="game">"#@.is_prefix_of(game_row_html(g, muted)),
{
    reveal_strlit(r#"<div class="game muted">"#);
    reveal_strlit(r#"<div class="game">"#);
    reveal_strlit(r#"<div class=""#);
    reveal_strlit("game muted");
    reveal_strlit("game");
    reveal_strlit(r#""><label><input type="checkbox" name="g_"#);
    let row = game_row_html(g, muted);
    let class = if muted {
        "game muted"@
    } else {
        "game"@
    };
    let start = ROW_OPEN@ + class + ROW_NAME@;
    assert(row.subrange(0, start.len() as int) =~= start);
    if muted {
        let part = r#"<div class="game muted">"#@;
        assert(start.subrange(0, part.len() as int) =~= part);
        assert(row.subrange(0, part.len() as int) =~= start.subrange(0, part.len() as int));
    } else {
        let part = r#"<div class="game">"#@;
        assert(start.subrange(0, part.len() as int) =~= part);
        assert(row.subrange(0, part.len() as int) =~= start.subrange(0, part.len() as int));
    }
}

proof fn lemma_row_end(s: Seq<char>, g: GameView, part: Seq<char>)
    requires
        has_part(s, part),
    ensures
        has_part(
            s + escaped(g.label) + ROW_ARIA@ + escaped(g.label) + ROW_CLOSE@,
            part,
        ),
{
    lemma_part_of_front(s, escaped(g.label), part);
    lemma_part_of_front(s + escaped(g.label), ROW_ARIA@, part);
    lemma_part_of_front(s + escaped(g.label) + ROW_ARIA@, escaped(g.label), part);
    lemma_part_of_front(s + escaped(g.label) + ROW_ARIA@ + escaped(g.label), ROW_CLOSE@, part);
}

proof fn lemma_row_literals()
    ensures
        r#"<span class="name">"#@.len() <= ROW_LABEL@.len(),
        ROW_LABEL@.skip(ROW_LABEL@.len() - r#"<span class="name">"#@.len())
            == r#"<span class="name">"#@,
        "</span>"@.is_prefix_of(ROW_SLUG@),
        r#"<span class="slug">"#@.len() <= ROW_SLUG@.len(),
        ROW_SLUG@.skip(ROW_SLUG@.len() - r#"<span class="slug">"#@.len())
            == r#"<span class="slug">"#@,
        "</span>"@.is_prefix_of(ROW_REMOVE@),
        r#"name="remove_id" value=""#@.len() <= ROW_REMOVE@.len(),
        ROW_REMOVE@.skip(ROW_REMOVE@.len() - r#"name="remove_id" value=""#@.len())
            == r#"name="remove_id" value=""#@,
        r#"" formaction="/remove""#@.is_prefix_of(ROW_TITLE@),
{
    reveal_strlit(r#"<span class="name">"#);
    reveal_strlit(r#"<span class="slug">"#);
    reveal_strlit("</span>");
    reveal_strlit(r#"name="remove_id" value=""#);
    reveal_strlit(r#"" formaction="/remove""#);
    reveal_strlit(r#"><span class="name">"#);
    reveal_strlit(r#"</span><span class="slug">"#);
    reveal_strlit(r#"</span></label><button type="submit" name="remove_id" value=""#);
    reveal_strlit(r#"" formaction="/remove" class="rm" title="Remove "#);
    assert(ROW_LABEL@.skip(ROW_LABEL@.len() - r#"<span class="name">"#@.len())
        =~= r#"<span class="name">"#@);
    assert(ROW_SLUG@.subrange(0, "</span>"@.len() as int) =~= "</span>"@);
    assert(ROW_SLUG@.skip(ROW_SLUG@.len() - r#"<span class="slug">"#@.len())
        =~= r#"<span class="slug">"#@);
    assert(ROW_REMOVE@.subrange(0, "</span>"@.len() as int) =~= "</span>"@);
    assert(ROW_REMOVE@.skip(ROW_REMOVE@.len() - r#"name="remove_id" value=""#@.len())
        =~= r#"name="remove_id" value=""#@);
    assert(ROW_TITLE@.subrange(0, r#"" formaction="/remove""#@.len() as int)
        =~= r#"" formaction="/remove""#@);
}

// ---------------------------------------------------------------------------
// Choices of casino
// ---------------------------------------------------------------------------

/// A new game can be given to no casino or to any that is listed: the choice has
/// its identifier for a value and shows its label.
pub proof fn lemma_choices_of_casino(casinos: Seq<CasinoView>, j: int)
    requires
        0 <= j < casinos.len(),
    ensures
        has_part(options_html(casinos), r#"<option value="">"#@),
        has_part(
            options_html(casinos),
            r#"<option value=""#@ + escaped(casinos[j].id) + r#"">"#@ + escaped(casinos[j].label)
                + "</option>"@,
        ),
{
    reveal_strlit(r#"<option value="">"#);
    reveal_strlit(r#"<option value="">Custom (full URL)</option>"#);
    let options = casinos.map_values(|c: CasinoView| option_html(c));
    let one = option_html(casinos[j]);
    let own = r#"<option value="">"#@;
    lemma_part_of_itself(one);
    assert(options[j] == one);
    lemma_part_of_concat(options, j, one);
    lemma_part_of_back(CUSTOM_OPTION@, concat(options), one);
    let none = Seq::<char>::empty();
    assert(CUSTOM_OPTION@ =~= none + own + CUSTOM_OPTION@.skip(own.len() as int));
    lemma_part_between(none, own, CUSTOM_OPTION@.skip(own.len() as int));
    lemma_part_of_front(CUSTOM_OPTION@, concat(options), own);
}

// ---------------------------------------------------------------------------
// Cards
// ---------------------------------------------------------------------------

/// The card of a casino shows its label, its domain, what is blocked of it, and
/// the rows of exactly its own games, in their order, or that it has none. It is
/// open where something of it is blocked.
pub proof fn lemma_card_shows_casino(c: CasinoView, all_games: Seq<GameView>)
    ensures
        ({
            let card = casino_card_html(c, all_games);
            let games = all_games.filter(|g: GameView| g.casino == c.id);
            let blocked = games.filter(|g: GameView| g.blocked).len();
            &&& has_part(card, escaped(c.label) + r#"</span><span class="domain">"#@ + escaped(
                c.domain,
            ))
            &&& has_part(
                card,
                r#"<span class="pill "#@ + (if c.blocked_all {
                    "all"@
                } else {
                    pill_class(blocked, games.len())
                }) + r#""><span class="pdot"></span>"#@ + escaped(
                    casino_pill_text(c.blocked_all, blocked, games.len()),
                ) + "</span>"@,
            )
            &&& c.blocked_all || blocked > 0
                ==> r#"<details class="card" open>"#@.is_prefix_of(card)
            &&& !c.blocked_all && blocked == 0
                ==> r#"<details class="card" >"#@.is_prefix_of(card)
            &&& games.len() == 0 ==> has_part(
                card,
                r#"<div class="empty">No games yet. Add one below.</div>"#@,
            )
            &&& games.len() > 0 ==> has_part(
                card,
                concat(games.map_values(|g: GameView| game_row_html(g, c.blocked_all))),
            )
        }),
{
    let picked = |g: GameView| g.casino == c.id;
    let shut = |g: GameView| g.blocked;
    lemma_games_picked_alike(all_games, of_casino(c.id), picked);
    let games = all_games.filter(of_casino(c.id));
    lemma_games_picked_alike(games, is_blocked(), shut);
    let blocked = games.filter(is_blocked()).len();
    let pill = escaped(casino_pill_text(c.blocked_all, blocked, games.len()));
    let class = if c.blocked_all {
        "all"@
    } else {
        pill_class(blocked, games.len())
    };
    let rows = if games.len() == 0 {
        NO_GAMES@
    } else {
        rows_html(games, c.blocked_all)
    };
    let s0 = CARD_OPEN@ + (if c.blocked_all || blocked > 0 {
        "open"@
    } else {
        ""@
    }) + CARD_LABEL@;
    let s1 = s0 + escaped(c.label) + CARD_DOMAIN@ + escaped(c.domain);
    let s2 = s1 + CARD_PILL@ + class;
    let s3 = s2 + CARD_PILL_TEXT@ + pill + CARD_BLOCK_ALL@;
    let s4 = s3 + escaped(c.domain) + CARD_NAME@ + escaped(c.id) + CARD_CHECKED@ + checked_attr(
        c.blocked_all,
    ) + CARD_GAMES@;
    let card = casino_card_html(c, all_games);
    assert(card == s4 + rows + CARD_CLOSE@);
    let named = escaped(c.label) + CARD_DOMAIN@ + escaped(c.domain);
    assert(s1 =~= s0 + named);
    lemma_part_of_itself(named);
    lemma_part_of_back(s0, named, named);
    lemma_part_of_front(s1, CARD_PILL@, named);
    lemma_part_of_front(s1 + CARD_PILL@, class, named);
    lemma_part_of_front(s2, CARD_PILL_TEXT@, named);
    lemma_part_of_front(s2 + CARD_PILL_TEXT@, pill, named);
    lemma_part_of_front(s2 + CARD_PILL_TEXT@ + pill, CARD_BLOCK_ALL@, named);
    lemma_card_literals();
    let told = r#"<span class="pill "#@ + class + r#""><span class="pdot"></span>"#@ + pill
        + "</span>"@;
    let text = class + CARD_PILL_TEXT@ + pill;
    lemma_between_markup(
        s1,
        CARD_PILL@,
        text,
        CARD_BLOCK_ALL@,
        r#"<span class="pill "#@,
        "</span>"@,
    );
    assert(s1 + CARD_PILL@ + text + CARD_BLOCK_ALL@ =~= s3);
    assert(r#"<span class="pill "#@ + text + "</span>"@ =~= told);
    lemma_card_opens(c, all_games);
    lemma_card_end(s3, c, rows, named);
    lemma_card_end(s3, c, rows, told);
    lemma_part_of_itself(rows);
    lemma_part_of_back(s4, rows, rows);
    lemma_part_of_front(s4 + rows, CARD_CLOSE@, rows);
    assert(games.map_values(|g: GameView| game_row_html(g, c.blocked_all)) =~= games.map_values(
        |g: GameView| game_row_html(g, c.blocked_all),
    ));
}

proof fn lemma_card_end(s: Seq<char>, c: CasinoView, rows: Seq<char>, part: Seq<char>)
    requires
        has_part(s, part),
    ensures
        has_part(
            s + escaped(c.domain) + CARD_NAME@ + escaped(c.id) + CARD_CHECKED@ + checked_attr(
                c.blocked_all,
            ) + CARD_GAMES@ + rows + CARD_CLOSE@,
            part,
        ),
{
    let s1 = s + escaped(c.domain);
    let s2 = s1 + CARD_NAME@;
    let s3 = s2 + escaped(c.id);
    let s4 = s3 + CARD_CHECKED@;
    let s5 = s4 + checked_attr(c.blocked_all);
    let s6 = s5 + CARD_GAMES@;
    lemma_part_of_front(s, escaped(c.domain), part);
    lemma_part_of_front(s1, CARD_NAME@, part);
    lemma_part_of_front(s2, escaped(c.id), part);
    lemma_part_of_front(s3, CARD_CHECKED@, part);
    lemma_part_of_front(s4, checked_attr(c.blocked_all), part);
    lemma_part_of_front(s5, CARD_GAMES@, part);
    lemma_part_of_front(s6, rows, part);
    lemma_part_of_front(s6 + rows, CARD_CLOSE@, part);
}

proof fn lemma_card_literals()
    ensures
        r#"<span class="pill "#@.len() <= CARD_PILL@.len(),
        CARD_PILL@.skip(CARD_PILL@.len() - r#"<span class="pill "#@.len())
            == r#"<span class="pill "#@,
        "</span>"@.is_prefix_of(CARD_BLOCK_ALL@),
{
    reveal_strlit(r#"<span class="pill "#);
    reveal_strlit("</span>");
    reveal_strlit(r#"</span></span>
    <span class="pill "#);
    reveal_strlit(r#"</span>
    <span class="chev">▸</span>
  </summary>
  <div class="card-body">
    <div class="blockall">
      <span class="lbl"><b>Block entire casino</b><span>All traffic on "#);
    assert(CARD_PILL@.skip(CARD_PILL@.len() - r#"<span class="pill "#@.len())
        =~= r#"<span class="pill "#@);
    assert(CARD_BLOCK_ALL@.subrange(0, "</span>"@.len() as int) =~= "</span>"@);
}

proof fn lemma_card_opens(c: CasinoView, all_games: Seq<GameView>)
    ensures
        ({
            let card = casino_card_html(c, all_games);
            let games = all_games.filter(of_casino(c.id));
            let blocked = games.filter(is_blocked()).len();
            &&& c.blocked_all || blocked > 0
                ==> r#"<details class="card" open>"#@.is_prefix_of(card)
            &&& !c.blocked_all && blocked == 0
                ==> r#"<details class="card" >"#@.is_prefix_of(card)
        }),
{
    reveal_strlit(r#"<details class="card" open>"#);
    reveal_strlit(r#"<details class="card" >"#);
    reveal_strlit(r#"<details class="card" "#);
    reveal_strlit("open");
    reveal_strlit("");
    reveal_strlit(r#">
  <summary>
    <span class="title"><span class="cname">"#);
    let card = casino_card_html(c, all_games);
    let games = all_games.filter(of_casino(c.id));
    let blocked = games.filter(is_blocked()).len();
    let start = CARD_OPEN@ + (if c.blocked_all || blocked > 0 {
        "open"@
    } else {
        ""@
    }) + CARD_LABEL@;
    assert(start.is_prefix_of(card)) by {
        assert(card.subrange(0, start.len() as int) =~= start);
    }
    let opened = r#"<details class="card" open>"#@;
    let closed = r#"<details class="card" >"#@;
    if c.blocked_all || blocked > 0 {
        assert(start.subrange(0, opened.len() as int) =~= opened);
        assert(card.subrange(0, opened.len() as int) =~= start.subrange(0, opened.len() as int));
    } else {
        assert(start.subrange(0, closed.len() as int) =~= closed);
        assert(card.subrange(0, closed.len() as int) =~= start.subrange(0, closed.len() as int));
    }
}

proof fn lemma_games_picked_alike(
    games: Seq<GameView>,
    p: spec_fn(GameView) -> bool,
    q: spec_fn(GameView) -> bool,
)
    requires
        forall|g: GameView| #[trigger] p(g) == q(g),
    ensures
        games.filter(p) == games.filter(q),
    decreases games.len(),
{
    reveal(Seq::filter);
    if games.len() > 0 {
        lemma_games_picked_alike(games.drop_last(), p, q);
        assert(p(games.last()) == q(games.last()));
    }
}

/// The games without a casino have a card of their own, where there are any, with
/// their rows and how many of them are blocked.
pub proof fn lemma_own_games_card(all_games: Seq<GameView>)
    ensures
        ({
            let games = all_games.filter(|g: GameView| g.casino == Seq::<char>::empty());
            &&& games.len() == 0 ==> custom_card_html(all_games).len() == 0
            &&& games.len() > 0 ==> has_part(
                custom_card_html(all_games),
                concat(games.map_values(|g: GameView| game_row_html(g, false))),
            )
            &&& games.len() > 0 ==> has_part(
                custom_card_html(all_games),
                pill_class(games.filter(|g: GameView| g.blocked).len(), games.len())
                    + r#""><span class="pdot"></span>"#@ + escaped(
                    custom_pill_text(games.filter(|g: GameView| g.blocked).len(), games.len()),
                ),
            )
        }),
{
    let picked = |g: GameView| g.casino == Seq::<char>::empty();
    lemma_games_picked_alike(all_games, of_casino(Seq::empty()), picked);
    let games = all_games.filter(of_casino(Seq::empty()));
    let blocked = games.filter(is_blocked()).len();
    if games.len() > 0 {
        let rows = rows_html(games, false);
        let s = CUSTOM_OPEN@ + pill_class(blocked, games.len()) + CARD_PILL_TEXT@ + escaped(
            custom_pill_text(blocked, games.len()),
        ) + CUSTOM_GAMES@;
        lemma_part_of_itself(rows);
        lemma_part_of_back(s, rows, rows);
        lemma_part_of_front(s + rows, CARD_CLOSE@, rows);
        let shut = |g: GameView| g.blocked;
        lemma_games_picked_alike(games, is_blocked(), shut);
        let pill = pill_class(blocked, games.len()) + CARD_PILL_TEXT@ + escaped(
            custom_pill_text(blocked, games.len()),
        );
        lemma_part_between(CUSTOM_OPEN@, pill, CUSTOM_GAMES@);
        assert(CUSTOM_OPEN@ + pill + CUSTOM_GAMES@ =~= s);
        lemma_part_of_front(s, rows, pill);
        lemma_part_of_front(s + rows, CARD_CLOSE@, pill);
    }
}

// ---------------------------------------------------------------------------
// Pages
// ---------------------------------------------------------------------------

proof fn lemma_page_has(title: Seq<char>, body: Seq<char>, part: Seq<char>)
    requires
        has_part(body, part),
    ensures
        has_part(page_html(title, body), part),
{
    let head = PAGE_OPEN@ + escaped(title) + PAGE_STYLE@;
    lemma_part_of_back(head, body, part);
    lemma_part_of_front(head + body, PAGE_CLOSE@, part);
}

/// A page shows its title, escaped, and its body as it is.
pub proof fn lemma_page_shows_body(title: Seq<char>, body: Seq<char>)
    ensures
        has_part(page_html(title, body), escaped(title)),
        has_part(page_html(title, body), body),
{
    lemma_part_of_itself(body);
    lemma_page_has(title, body, body);
    lemma_part_of_itself(escaped(title));
    lemma_part_of_back(PAGE_OPEN@, escaped(title), escaped(title));
    let s = PAGE_OPEN@ + escaped(title);
    lemma_part_of_front(s, PAGE_STYLE@, escaped(title));
    lemma_part_of_front(s + PAGE_STYLE@, body, escaped(title));
    lemma_part_of_front(s + PAGE_STYLE@ + body, PAGE_CLOSE@, escaped(title));
}

/// The set-up page shows the drawing, the secret, the error where there is one, and
/// the field for the code, which is sent to be checked.
pub proof fn lemma_setup_page_parts(svg: Seq<char>, secret: Seq<char>, error: Option<Seq<char>>)
    ensures
        has_part(setup_html(svg, secret, error), svg),
        has_part(
            setup_html(svg, secret, error),
            r#"<code class="secret">"#@ + escaped(secret) + "</code>"@,
        ),
        error matches Some(e) ==> has_part(setup_html(svg, secret, error), banner_html("err"@, e)),
        has_part(
            setup_html(svg, secret, error),
            r#"<form method="POST" action="/setup/verify""#@,
        ),
        has_part(
            setup_html(svg, secret, error),
            r#"<input class="code" type="text" name="code""#@,
        ),
{
    lemma_setup_literals();
    let shown_error = match error {
        Some(e) => banner_html("err"@, e),
        None => Seq::empty(),
    };
    let s1 = SETUP_OPEN@ + svg;
    let s2 = s1 + SETUP_SECRET@ + escaped(secret) + SETUP_ERROR@;
    let s3 = s2 + shown_error;
    let body = s3 + SETUP_FORM@;
    let told = r#"<code class="secret">"#@ + escaped(secret) + "</code>"@;
    lemma_part_of_itself(svg);
    lemma_part_of_back(SETUP_OPEN@, svg, svg);
    lemma_part_of_front(s1, SETUP_SECRET@, svg);
    lemma_part_of_front(s1 + SETUP_SECRET@, escaped(secret), svg);
    lemma_part_of_front(s1 + SETUP_SECRET@ + escaped(secret), SETUP_ERROR@, svg);
    lemma_between_markup(
        s1,
        SETUP_SECRET@,
        escaped(secret),
        SETUP_ERROR@,
        r#"<code class="secret">"#@,
        "</code>"@,
    );
    lemma_part_of_itself(shown_error);
    lemma_part_of_back(s2, shown_error, shown_error);
    lemma_part_of_front(s2, shown_error, svg);
    lemma_part_of_front(s2, shown_error, told);
    lemma_part_of_front(s3, SETUP_FORM@, svg);
    lemma_part_of_front(s3, SETUP_FORM@, told);
    lemma_part_of_front(s3, SETUP_FORM@, shown_error);
    lemma_part_of_back(s3, SETUP_FORM@, r#"<form method="POST" action="/setup/verify""#@);
    lemma_part_of_back(s3, SETUP_FORM@, r#"<input class="code" type="text" name="code""#@);
    lemma_page_has(SETUP_TITLE@, body, svg);
    lemma_page_has(SETUP_TITLE@, body, told);
    lemma_page_has(SETUP_TITLE@, body, shown_error);
    lemma_page_has(SETUP_TITLE@, body, r#"<form method="POST" action="/setup/verify""#@);
    lemma_page_has(SETUP_TITLE@, body, r#"<input class="code" type="text" name="code""#@);
}

proof fn lemma_setup_literals()
    ensures
        r#"<code class="secret">"#@.len() <= SETUP_SECRET@.len(),
        SETUP_SECRET@.skip(SETUP_SECRET@.len() - r#"<code class="secret">"#@.len())
            == r#"<code class="secret">"#@,
        "</code>"@.is_prefix_of(SETUP_ERROR@),
        has_part(SETUP_FORM@, r#"<form method="POST" action="/setup/verify""#@),
        has_part(SETUP_FORM@, r#"<input class="code" type="text" name="code""#@),
{
    reveal_strlit(r#"<code class="secret">"#);
    reveal_strlit("</code>");
    reveal_strlit(r#"</div>
  <p>Or type the secret manually: <code class="secret">"#);
    reveal_strlit(r#"</code></p>
  "#);
    assert(SETUP_SECRET@.skip(SETUP_SECRET@.len() - r#"<code class="secret">"#@.len())
        =~= r#"<code class="secret">"#@);
    assert(SETUP_ERROR@.subrange(0, "</code>"@.len() as int) =~= "</code>"@);
    reveal_strlit(r#"<form method="POST" action="/setup/verify""#);
    reveal_strlit(r#"<input class="code" type="text" name="code""#);
    reveal_strlit(r#"
  <form method="POST" action="/setup/verify" class="setup-actions">
    <input class="code" type="text" name="code" inputmode="numeric" pattern="[0-9]{6}" maxlength="6" placeholder="000000" autofocus autocomplete="one-time-code" required>
    <button type="submit">Confirm</button>
  </form>
</div>"#);
    let s = SETUP_FORM@;
    let form = r#"<form method="POST" action="/setup/verify""#@;
    let input = r#"<input class="code" type="text" name="code""#@;
    assert(s.subrange(3, 3 + form.len() as int) =~= form);
    assert(has_part_at(s, form, 3));
    assert(s.subrange(73, 73 + input.len() as int) =~= input);
    assert(has_part_at(s, input, 73));
}

/// The panel shows this version, whether the program is on, the line below that,
/// the update on offer, the outcome of the last request, the cards and the choices
/// of casino.
pub proof fn lemma_panel_parts(
    cfg: ConfigView,
    latest: Option<Seq<char>>,
    version: Seq<char>,
    msg: Option<Seq<char>>,
)
    ensures
        ({
            let panel = panel_html(cfg, latest, version, msg);
            let on = r#"on"><span class="dot"></span>Blocking</span>"#@;
            let off = r#"off"><span class="dot"></span>Paused</span>"#@;
            &&& has_part(panel, r#"<span class="ver">v"#@ + escaped(version) + "</span>"@)
            &&& cfg.enabled ==> has_part(panel, r#"<span class="status "#@ + on)
            &&& !cfg.enabled ==> has_part(panel, r#"<span class="status "#@ + off)
            &&& has_part(panel, status_line(cfg.enabled, active_count(cfg)))
            &&& has_part(panel, update_html(latest, version))
            &&& has_part(panel, message_html(msg))
            &&& has_part(panel, casino_cards_html(cfg.casinos, cfg.games))
            &&& has_part(panel, custom_card_html(cfg.games))
            &&& has_part(panel, options_html(cfg.casinos))
        }),
{
    let head = panel_head(cfg, version);
    let body = panel_body(head, cfg, latest, version, msg);
    let ver = r#"<span class="ver">v"#@ + escaped(version) + "</span>"@;
    let on = r#"<span class="status "#@ + r#"on"><span class="dot"></span>Blocking</span>"#@;
    let off = r#"<span class="status "#@ + r#"off"><span class="dot"></span>Paused</span>"#@;
    let state = if cfg.enabled {
        on
    } else {
        off
    };
    let line = status_line(cfg.enabled, active_count(cfg));
    assert(panel_html(cfg, latest, version, msg) == page_html(PANEL_TITLE@, body));
    lemma_panel_head(cfg, version);
    lemma_panel_rest(cfg, latest, version, msg, head, ver);
    lemma_panel_rest(cfg, latest, version, msg, head, state);
    lemma_panel_rest(cfg, latest, version, msg, head, line);
    lemma_panel_tail(head, cfg, latest, version, msg);
    lemma_page_has(PANEL_TITLE@, body, ver);
    lemma_page_has(PANEL_TITLE@, body, state);
    lemma_page_has(PANEL_TITLE@, body, line);
    lemma_page_has(PANEL_TITLE@, body, update_html(latest, version));
    lemma_page_has(PANEL_TITLE@, body, message_html(msg));
    lemma_page_has(PANEL_TITLE@, body, casino_cards_html(cfg.casinos, cfg.games));
    lemma_page_has(PANEL_TITLE@, body, custom_card_html(cfg.games));
    lemma_page_has(PANEL_TITLE@, body, options_html(cfg.casinos));
}

/// The markup of the panel up to the offer of an update.
spec fn panel_head(cfg: ConfigView, version: Seq<char>) -> Seq<char> {
    PANEL_OPEN@ + escaped(version) + PANEL_STATUS@ + (if cfg.enabled {
        "on"@
    } else {
        "off"@
    }) + PANEL_STATUS_TEXT@ + (if cfg.enabled {
        "Blocking"@
    } else {
        "Paused"@
    }) + PANEL_SUB@ + status_line(cfg.enabled, active_count(cfg)) + PANEL_SWITCH@ + checked_attr(
        cfg.enabled,
    ) + PANEL_UPDATE@
}

/// The markup of the panel behind that.
spec fn panel_body(
    head: Seq<char>,
    cfg: ConfigView,
    latest: Option<Seq<char>>,
    version: Seq<char>,
    msg: Option<Seq<char>>,
) -> Seq<char> {
    head + update_html(latest, version) + PANEL_BANNER@ + message_html(msg) + PANEL_CASINOS@
        + casino_cards_html(cfg.casinos, cfg.games) + custom_card_html(cfg.games) + PANEL_ADD@
        + options_html(cfg.casinos) + PANEL_CLOSE@
}

proof fn lemma_panel_head(cfg: ConfigView, version: Seq<char>)
    ensures
        has_part(
            panel_head(cfg, version),
            r#"<span class="ver">v"#@ + escaped(version) + "</span>"@,
        ),
        cfg.enabled ==> has_part(
            panel_head(cfg, version),
            r#"<span class="status "#@ + r#"on"><span class="dot"></span>Blocking</span>"#@,
        ),
        !cfg.enabled ==> has_part(
            panel_head(cfg, version),
            r#"<span class="status "#@ + r#"off"><span class="dot"></span>Paused</span>"#@,
        ),
        has_part(panel_head(cfg, version), status_line(cfg.enabled, active_count(cfg))),
{
    let class = if cfg.enabled {
        "on"@
    } else {
        "off"@
    };
    let word = if cfg.enabled {
        "Blocking"@
    } else {
        "Paused"@
    };
    let line = status_line(cfg.enabled, active_count(cfg));
    let s0 = PANEL_OPEN@ + escaped(version) + PANEL_STATUS@;
    let s1 = s0 + class + PANEL_STATUS_TEXT@ + word + PANEL_SUB@;
    let s2 = s1 + line;
    let ver = r#"<span class="ver">v"#@ + escaped(version) + "</span>"@;
    lemma_panel_literals();
    let none = Seq::<char>::empty();
    lemma_between_markup(
        none,
        PANEL_OPEN@,
        escaped(version),
        PANEL_STATUS@,
        r#"<span class="ver">v"#@,
        "</span>"@,
    );
    assert(none + PANEL_OPEN@ =~= PANEL_OPEN@);
    lemma_part_of_front(s0, class, ver);
    lemma_part_of_front(s0 + class, PANEL_STATUS_TEXT@, ver);
    lemma_part_of_front(s0 + class + PANEL_STATUS_TEXT@, word, ver);
    lemma_part_of_front(s0 + class + PANEL_STATUS_TEXT@ + word, PANEL_SUB@, ver);
    lemma_part_of_front(s1, line, ver);
    lemma_panel_status(cfg, version, class, word);
    let state = r#"<span class="status "#@ + (class + PANEL_STATUS_TEXT@ + word + "</span>"@);
    lemma_part_of_front(s1, line, state);
    lemma_part_of_itself(line);
    lemma_part_of_back(s1, line, line);
    lemma_panel_front(s2, cfg, ver);
    lemma_panel_front(s2, cfg, state);
    lemma_panel_front(s2, cfg, line);
    lemma_status_literals();
}

proof fn lemma_panel_status(
    cfg: ConfigView,
    version: Seq<char>,
    class: Seq<char>,
    word: Seq<char>,
)
    ensures
        has_part(
            PANEL_OPEN@ + escaped(version) + PANEL_STATUS@ + class + PANEL_STATUS_TEXT@ + word
                + PANEL_SUB@,
            r#"<span class="status "#@ + (class + PANEL_STATUS_TEXT@ + word + "</span>"@),
        ),
{
    let text = class + PANEL_STATUS_TEXT@ + word;
    let start = r#"<span class="status "#@;
    let end = "</span>"@;
    lemma_panel_literals();
    lemma_between_markup(
        PANEL_OPEN@ + escaped(version),
        PANEL_STATUS@,
        text,
        PANEL_SUB@,
        start,
        end,
    );
    let s0 = PANEL_OPEN@ + escaped(version) + PANEL_STATUS@;
    assert(s0 + text + PANEL_SUB@ =~= s0 + class + PANEL_STATUS_TEXT@ + word + PANEL_SUB@);
    assert(start + text + end =~= start + (class + PANEL_STATUS_TEXT@ + word + end));
}

proof fn lemma_panel_tail(
    head: Seq<char>,
    cfg: ConfigView,
    latest: Option<Seq<char>>,
    version: Seq<char>,
    msg: Option<Seq<char>>,
)
    ensures
        has_part(panel_body(head, cfg, latest, version, msg), update_html(latest, version)),
        has_part(panel_body(head, cfg, latest, version, msg), message_html(msg)),
        has_part(
            panel_body(head, cfg, latest, version, msg),
            casino_cards_html(cfg.casinos, cfg.games),
        ),
        has_part(panel_body(head, cfg, latest, version, msg), custom_card_html(cfg.games)),
        has_part(panel_body(head, cfg, latest, version, msg), options_html(cfg.casinos)),
{
    let offer = update_html(latest, version);
    let told = message_html(msg);
    let cards = casino_cards_html(cfg.casinos, cfg.games);
    let own = custom_card_html(cfg.games);
    let options = options_html(cfg.casinos);
    let s4 = head + offer;
    let s5 = s4 + PANEL_BANNER@;
    let s6 = s5 + told;
    let s7 = s6 + PANEL_CASINOS@;
    let s8 = s7 + cards;
    let s9 = s8 + own;
    let s10 = s9 + PANEL_ADD@;
    let s11 = s10 + options;
    let body = s11 + PANEL_CLOSE@;
    lemma_part_of_itself(offer);
    lemma_part_of_itself(told);
    lemma_part_of_itself(cards);
    lemma_part_of_itself(own);
    lemma_part_of_itself(options);
    lemma_part_of_back(head, offer, offer);
    lemma_part_of_back(s5, told, told);
    lemma_part_of_back(s7, cards, cards);
    lemma_part_of_back(s8, own, own);
    lemma_part_of_back(s10, options, options);
    lemma_panel_end(s4, s5, s6, s7, s8, s9, s10, s11, body, cfg, msg, offer);
    lemma_panel_end(s4, s5, s6, s7, s8, s9, s10, s11, body, cfg, msg, told);
    lemma_panel_end(s4, s5, s6, s7, s8, s9, s10, s11, body, cfg, msg, cards);
    lemma_panel_end(s4, s5, s6, s7, s8, s9, s10, s11, body, cfg, msg, own);
    lemma_part_of_front(s11, PANEL_CLOSE@, options);
}

proof fn lemma_status_literals()
    ensures
        "on"@ + PANEL_STATUS_TEXT@ + "Blocking"@ + "</span>"@
            == r#"on"><span class="dot"></span>Blocking</span>"#@,
        "off"@ + PANEL_STATUS_TEXT@ + "Paused"@ + "</span>"@
            == r#"off"><span class="dot"></span>Paused</span>"#@,
{
    reveal_strlit("on");
    reveal_strlit("off");
    reveal_strlit("Blocking");
    reveal_strlit("Paused");
    reveal_strlit("</span>");
    reveal_strlit(r#""><span class="dot"></span>"#);
    reveal_strlit(r#"on"><span class="dot"></span>Blocking</span>"#);
    reveal_strlit(r#"off"><span class="dot"></span>Paused</span>"#);
    assert("on"@ + PANEL_STATUS_TEXT@ + "Blocking"@ + "</span>"@
        =~= r#"on"><span class="dot"></span>Blocking</span>"#@);
    assert("off"@ + PANEL_STATUS_TEXT@ + "Paused"@ + "</span>"@
        =~= r#"off"><span class="dot"></span>Paused</span>"#@);
}

proof fn lemma_panel_literals()
    ensures
        r#"<span class="ver">v"#@.len() <= PANEL_OPEN@.len(),
        PANEL_OPEN@.skip(PANEL_OPEN@.len() - r#"<span class="ver">v"#@.len())
            == r#"<span class="ver">v"#@,
        "</span>"@.is_prefix_of(PANEL_STATUS@),
        r#"<span class="status "#@.len() <= PANEL_STATUS@.len(),
        PANEL_STATUS@.skip(PANEL_STATUS@.len() - r#"<span class="status "#@.len())
            == r#"<span class="status "#@,
        "</span>"@.is_prefix_of(PANEL_SUB@),
{
    reveal_strlit("</span>");
    reveal_strlit(r#"<span class="ver">v"#);
    reveal_strlit(r#"<span class="status "#);
    reveal_strlit(r#"<form method="POST" action="/save">
  <div class="wrap">
    <div class="hero">
      <div class="info">
        <h1>BetWall <span class="ver">v"#);
    reveal_strlit(r#"</span></h1>
        <div class="sub">
          <span class="status "#);
    reveal_strlit(r#"</span>
          <span>"#);
    assert(PANEL_OPEN@.skip(PANEL_OPEN@.len() - r#"<span class="ver">v"#@.len())
        =~= r#"<span class="ver">v"#@);
    assert(PANEL_STATUS@.subrange(0, "</span>"@.len() as int) =~= "</span>"@);
    assert(PANEL_STATUS@.skip(PANEL_STATUS@.len() - r#"<span class="status "#@.len())
        =~= r#"<span class="status "#@);
    assert(PANEL_SUB@.subrange(0, "</span>"@.len() as int) =~= "</span>"@);
}

proof fn lemma_panel_front(s: Seq<char>, cfg: ConfigView, part: Seq<char>)
    requires
        has_part(s, part),
    ensures
        has_part(s + PANEL_SWITCH@ + checked_attr(cfg.enabled) + PANEL_UPDATE@, part),
{
    lemma_part_of_front(s, PANEL_SWITCH@, part);
    lemma_part_of_front(s + PANEL_SWITCH@, checked_attr(cfg.enabled), part);
    lemma_part_of_front(s + PANEL_SWITCH@ + checked_attr(cfg.enabled), PANEL_UPDATE@, part);
}

proof fn lemma_panel_rest(
    cfg: ConfigView,
    latest: Option<Seq<char>>,
    version: Seq<char>,
    msg: Option<Seq<char>>,
    s3: Seq<char>,
    part: Seq<char>,
)
    requires
        has_part(s3, part),
    ensures
        has_part(panel_body(s3, cfg, latest, version, msg), part),
{
    let s4 = s3 + update_html(latest, version);
    let s5 = s4 + PANEL_BANNER@;
    let s6 = s5 + message_html(msg);
    let s7 = s6 + PANEL_CASINOS@;
    let s8 = s7 + casino_cards_html(cfg.casinos, cfg.games);
    let s9 = s8 + custom_card_html(cfg.games);
    let s10 = s9 + PANEL_ADD@;
    let s11 = s10 + options_html(cfg.casinos);
    let body = s11 + PANEL_CLOSE@;
    lemma_part_of_front(s3, update_html(latest, version), part);
    lemma_panel_end(s4, s5, s6, s7, s8, s9, s10, s11, body, cfg, msg, part);
}

proof fn lemma_panel_end(
    s4: Seq<char>,
    s5: Seq<char>,
    s6: Seq<char>,
    s7: Seq<char>,
    s8: Seq<char>,
    s9: Seq<char>,
    s10: Seq<char>,
    s11: Seq<char>,
    body: Seq<char>,
    cfg: ConfigView,
    msg: Option<Seq<char>>,
    part: Seq<char>,
)
    requires
        s5 == s4 + PANEL_BANNER@,
        s6 == s5 + message_html(msg),
        s7 == s6 + PANEL_CASINOS@,
        s8 == s7 + casino_cards_html(cfg.casinos, cfg.games),
        s9 == s8 + custom_card_html(cfg.games),
        s10 == s9 + PANEL_ADD@,
        s11 == s10 + options_html(cfg.casinos),
        body == s11 + PANEL_CLOSE@,
        has_part(s4, part) || has_part(s6, part) || has_part(s8, part) || has_part(s9, part),
    ensures
        has_part(body, part),
{
    if has_part(s4, part) {
        lemma_part_of_front(s4, PANEL_BANNER@, part);
        lemma_part_of_front(s5, message_html(msg), part);
    }
    if has_part(s6, part) {
        lemma_part_of_front(s6, PANEL_CASINOS@, part);
        lemma_part_of_front(s7, casino_cards_html(cfg.casinos, cfg.games), part);
    }
    if has_part(s8, part) {
        lemma_part_of_front(s8, custom_card_html(cfg.games), part);
    }
    lemma_part_of_front(s9, PANEL_ADD@, part);
    lemma_part_of_front(s10, options_html(cfg.casinos), part);
    lemma_part_of_front(s11, PANEL_CLOSE@, part);
}

/// The panel sends its switches to be saved, its fields for a new game to be added,
/// and the field for a code along with them; it can be told to quit.
pub proof fn lemma_panel_controls(
    cfg: ConfigView,
    latest: Option<Seq<char>>,
    version: Seq<char>,
    msg: Option<Seq<char>>,
)
    ensures
        has_part(
            panel_html(cfg, latest, version, msg),
            r#"<form method="POST" action="/save">"#@,
        ),
        has_part(panel_html(cfg, latest, version, msg), r#"<select name="casino""#@),
        has_part(
            panel_html(cfg, latest, version, msg),
            r#"<input class="input" type="text" name="label""#@,
        ),
        has_part(
            panel_html(cfg, latest, version, msg),
            r#"<input class="input" type="text" name="url_pattern""#@,
        ),
        has_part(panel_html(cfg, latest, version, msg), r#"formaction="/add""#@),
        has_part(
            panel_html(cfg, latest, version, msg),
            r#"<input class="code" type="text" name="code""#@,
        ),
        has_part(panel_html(cfg, latest, version, msg), r#"<button type="submit">Save</button>"#@),
        has_part(panel_html(cfg, latest, version, msg), r#"formaction="/quit""#@),
{
    lemma_control_literals();
    lemma_open_literals();
    lemma_control(
        cfg,
        latest,
        version,
        msg,
        r#"<input class="input" type="text" name="label""#@,
    );
    lemma_control(
        cfg,
        latest,
        version,
        msg,
        r#"<input class="input" type="text" name="url_pattern""#@,
    );
    lemma_control(cfg, latest, version, msg, r#"formaction="/add""#@);
    lemma_control(cfg, latest, version, msg, r#"<input class="code" type="text" name="code""#@);
    lemma_control(cfg, latest, version, msg, r#"<button type="submit">Save</button>"#@);
    lemma_control(cfg, latest, version, msg, r#"formaction="/quit""#@);
    lemma_control(cfg, latest, version, msg, r#"<form method="POST" action="/save">"#@);
    lemma_control(cfg, latest, version, msg, r#"<select name="casino""#@);
}

proof fn lemma_control(
    cfg: ConfigView,
    latest: Option<Seq<char>>,
    version: Seq<char>,
    msg: Option<Seq<char>>,
    part: Seq<char>,
)
    requires
        has_part(PANEL_OPEN@, part) || has_part(PANEL_ADD@, part) || has_part(PANEL_CLOSE@, part),
    ensures
        has_part(panel_html(cfg, latest, version, msg), part),
{
    let head = panel_head(cfg, version);
    let body = panel_body(head, cfg, latest, version, msg);
    assert(panel_html(cfg, latest, version, msg) == page_html(PANEL_TITLE@, body));
    let s9 = head + update_html(latest, version) + PANEL_BANNER@ + message_html(msg)
        + PANEL_CASINOS@ + casino_cards_html(cfg.casinos, cfg.games) + custom_card_html(cfg.games);
    let s10 = s9 + PANEL_ADD@;
    let s11 = s10 + options_html(cfg.casinos);
    if has_part(PANEL_OPEN@, part) {
        lemma_panel_opens(cfg, version, part);
        lemma_panel_rest(cfg, latest, version, msg, head, part);
    } else if has_part(PANEL_ADD@, part) {
        lemma_part_of_back(s9, PANEL_ADD@, part);
        lemma_part_of_front(s10, options_html(cfg.casinos), part);
        lemma_part_of_front(s11, PANEL_CLOSE@, part);
    } else {
        lemma_part_of_back(s11, PANEL_CLOSE@, part);
    }
    lemma_page_has(PANEL_TITLE@, body, part);
}

proof fn lemma_panel_opens(cfg: ConfigView, version: Seq<char>, part: Seq<char>)
    requires
        has_part(PANEL_OPEN@, part),
    ensures
        has_part(panel_head(cfg, version), part),
{
    let class = if cfg.enabled {
        "on"@
    } else {
        "off"@
    };
    let word = if cfg.enabled {
        "Blocking"@
    } else {
        "Paused"@
    };
    let line = status_line(cfg.enabled, active_count(cfg));
    let s0 = PANEL_OPEN@ + escaped(version);
    let s1 = s0 + PANEL_STATUS@;
    let s2 = s1 + class;
    let s3 = s2 + PANEL_STATUS_TEXT@;
    let s4 = s3 + word;
    let s5 = s4 + PANEL_SUB@;
    lemma_part_of_front(PANEL_OPEN@, escaped(version), part);
    lemma_part_of_front(s0, PANEL_STATUS@, part);
    lemma_part_of_front(s1, class, part);
    lemma_part_of_front(s2, PANEL_STATUS_TEXT@, part);
    lemma_part_of_front(s3, word, part);
    lemma_part_of_front(s4, PANEL_SUB@, part);
    lemma_part_of_front(s5, line, part);
    lemma_panel_front(s5 + line, cfg, part);
}

proof fn lemma_open_literals()
    ensures
        has_part(PANEL_OPEN@, r#"<form method="POST" action="/save">"#@),
        has_part(PANEL_ADD@, r#"<select name="casino""#@),
{
    reveal_strlit(r#"<form method="POST" action="/save">"#);
    reveal_strlit(r#"<select name="casino""#);
    reveal_strlit(r#"<form method="POST" action="/save">
  <div class="wrap">
    <div class="hero">
      <div class="info">
        <h1>BetWall <span class="ver">v"#);
    reveal_strlit(r#"</div>

    <h2>Add a game</h2>
    <div class="addbox">
      <div class="row">
        <select name="casino" class="select">"#);
    let form = r#"<form method="POST" action="/save">"#@;
    let select = r#"<select name="casino""#@;
    assert(PANEL_OPEN@.subrange(0, form.len() as int) =~= form);
    assert(has_part_at(PANEL_OPEN@, form, 0));
    assert(PANEL_ADD@.subrange(89, 89 + select.len() as int) =~= select);
    assert(has_part_at(PANEL_ADD@, select, 89));
}

proof fn lemma_control_literals()
    ensures
        has_part(PANEL_CLOSE@, r#"<input class="input" type="text" name="label""#@),
        has_part(PANEL_CLOSE@, r#"<input class="input" type="text" name="url_pattern""#@),
        has_part(PANEL_CLOSE@, r#"formaction="/add""#@),
        has_part(PANEL_CLOSE@, r#"<input class="code" type="text" name="code""#@),
        has_part(PANEL_CLOSE@, r#"<button type="submit">Save</button>"#@),
        has_part(PANEL_CLOSE@, r#"formaction="/quit""#@),
{
    reveal_strlit(r#"<input class="input" type="text" name="label""#);
    reveal_strlit(r#"<input class="input" type="text" name="url_pattern""#);
    reveal_strlit(r#"formaction="/add""#);
    reveal_strlit(r#"<input class="code" type="text" name="code""#);
    reveal_strlit(r#"<button type="submit">Save</button>"#);
    reveal_strlit(r#"formaction="/quit""#);
    reveal_strlit(r#"</select>
        <input class="input" type="text" name="label" placeholder="Game name (e.g. Dice)" autocomplete="off">
        <input class="input" type="text" name="url_pattern" placeholder="path or full URL" autocomplete="off">
        <button type="submit" class="ghost" formaction="/add">Add</button>
      </div>
    </div>
  </div>

  <div class="dock">
    <div class="dock-inner">
      <span class="hint">2FA only needed to pause, unblock, quit, or install updates.</span>
      <input class="code" type="text" name="code" inputmode="numeric" pattern="[0-9]{6}" maxlength="6" placeholder="2FA" autocomplete="one-time-code">
      <button type="submit">Save</button>
      <button type="submit" class="ghost" formaction="/quit">Quit</button>
    </div>
  </div>
</form>"#);
    let s = PANEL_CLOSE@;
    assert(s.subrange(18, 63) =~= r#"<input class="input" type="text" name="label""#@);
    assert(has_part_at(s, r#"<input class="input" type="text" name="label""#@, 18));
    assert(s.subrange(128, 179) =~= r#"<input class="input" type="text" name="url_pattern""#@);
    assert(has_part_at(s, r#"<input class="input" type="text" name="url_pattern""#@, 128));
    assert(s.subrange(275, 292) =~= r#"formaction="/add""#@);
    assert(has_part_at(s, r#"formaction="/add""#@, 275));
    assert(s.subrange(489, 532) =~= r#"<input class="code" type="text" name="code""#@);
    assert(has_part_at(s, r#"<input class="code" type="text" name="code""#@, 489));
    assert(s.subrange(640, 675) =~= r#"<button type="submit">Save</button>"#@);
    assert(has_part_at(s, r#"<button type="submit">Save</button>"#@, 640));
    assert(s.subrange(718, 736) =~= r#"formaction="/quit""#@);
    assert(has_part_at(s, r#"formaction="/quit""#@, 718));
}

} // verus!
