//! The pages of the control panel.
use crate::config::{
    casino_views, game_views, is_blocked_all, is_blocked_alone, is_casino_blocked, optional_text,
    Casino, CasinoView, Config, ConfigView, GameEntry, GameView,
};
use crate::templates::{
    BANNER_CLOSE, BANNER_OPEN, BANNER_TEXT, CARD_BLOCK_ALL, CARD_CHECKED, CARD_CLOSE, CARD_DOMAIN,
    CARD_GAMES, CARD_LABEL, CARD_NAME, CARD_OPEN, CARD_PILL, CARD_PILL_TEXT, CUSTOM_GAMES,
    CUSTOM_OPEN, CUSTOM_OPTION, NO_GAMES, OPTION_CLOSE, OPTION_LABEL, OPTION_OPEN, PAGE_CLOSE,
    PAGE_OPEN, PAGE_STYLE, PANEL_ADD, PANEL_BANNER, PANEL_CASINOS, PANEL_CLOSE, PANEL_OPEN,
    PANEL_STATUS, PANEL_STATUS_TEXT, PANEL_SUB, PANEL_SWITCH, PANEL_UPDATE, ROW_ARIA, ROW_CHECKED,
    ROW_CLOSE, ROW_LABEL, ROW_NAME, ROW_OPEN, ROW_REMOVE, ROW_SLUG, ROW_TITLE, SETUP_ERROR,
    SETUP_FORM, SETUP_OPEN, SETUP_SECRET, UPDATE_CLOSE, UPDATE_CURRENT, UPDATE_OPEN,
};
use crate::text::{
    after_last, after_last_chars, concat, decimal, decimal_text, same_text, to_chars, to_text,
};
use vstd::prelude::*;

verus! {

// ---------------------------------------------------------------------------
// Escaping
// ---------------------------------------------------------------------------

/// A character as it stands in a page.
pub open spec fn escaped_char(c: char) -> Seq<char> {
    if c == '&' {
        "&amp;"@
    } else if c == '<' {
        "&lt;"@
    } else if c == '>' {
        "&gt;"@
    } else if c == '"' {
        "&quot;"@
    } else if c == '\'' {
        "&#39;"@
    } else {
        seq![c]
    }
}

/// A text as it stands in a page.
pub open spec fn escaped(s: Seq<char>) -> Seq<char>
    decreases s.len(),
{
    if s.len() == 0 {
        Seq::empty()
    } else {
        escaped(s.drop_last()) + escaped_char(s.last())
    }
}

/// Escapes a text for a page.
pub fn html_escape(s: &str) -> (r: String)
    ensures
        r@ == escaped(s@),
{
    let v = to_chars(s);
    let mut out = String::new();
    assert(v@.take(0) =~= Seq::empty());
    for i in 0..v.len()
        invariant
            v@ == s@,
            out@ == escaped(v@.take(i as int)),
    {
        let ghost before = out@;
        let c: char = v[i];
        assert(v@.take(i + 1).drop_last() =~= v@.take(i as int));
        if c == '&' {
            out.append("&amp;");
        } else if c == '<' {
            out.append("&lt;");
        } else if c == '>' {
            out.append("&gt;");
        } else if c == '"' {
            out.append("&quot;");
        } else if c == '\'' {
            out.append("&#39;");
        } else {
            out.push(c);
            assert(out@ =~= before + seq![c]);
        }
    }
    assert(v@.take(v@.len() as int) =~= v@);
    out
}

/// An escaped text holds no character that ends a piece of text or an attribute.
pub proof fn lemma_escaped_has_no_markup(s: Seq<char>, i: int)
    requires
        0 <= i < escaped(s).len(),
    ensures
        escaped(s)[i] != '<',
        escaped(s)[i] != '>',
        escaped(s)[i] != '"',
        escaped(s)[i] != '\'',
    decreases s.len(),
{
    reveal_strlit("&amp;");
    reveal_strlit("&lt;");
    reveal_strlit("&gt;");
    reveal_strlit("&quot;");
    reveal_strlit("&#39;");
    let head = escaped(s.drop_last());
    if i < head.len() {
        lemma_escaped_has_no_markup(s.drop_last(), i);
    } else {
        assert(escaped(s)[i] == escaped_char(s.last())[i - head.len()]);
    }
}

/// A text ends in another.
pub open spec fn ends_in(s: Seq<char>, part: Seq<char>) -> bool {
    s.len() >= part.len() && s.skip(s.len() - part.len()) == part
}

/// What a page shows for an escaped text: the text with its entities resolved.
pub open spec fn shown(s: Seq<char>) -> Seq<char>
    decreases s.len(),
{
    if s.len() == 0 {
        Seq::empty()
    } else if s.len() >= 5 && ends_in(s, "&amp;"@) {
        shown(s.take(s.len() - 5)).push('&')
    } else if s.len() >= 4 && ends_in(s, "&lt;"@) {
        shown(s.take(s.len() - 4)).push('<')
    } else if s.len() >= 4 && ends_in(s, "&gt;"@) {
        shown(s.take(s.len() - 4)).push('>')
    } else if s.len() >= 6 && ends_in(s, "&quot;"@) {
        shown(s.take(s.len() - 6)).push('"')
    } else if s.len() >= 5 && ends_in(s, "&#39;"@) {
        shown(s.take(s.len() - 5)).push('\'')
    } else {
        shown(s.drop_last()).push(s.last())
    }
}

/// A page shows every text as it was before it was escaped.
pub proof fn lemma_escaped_shows_text(s: Seq<char>)
    ensures
        shown(escaped(s)) == s,
    decreases s.len(),
{
    if s.len() > 0 {
        let head = escaped(s.drop_last());
        lemma_escaped_shows_text(s.drop_last());
        lemma_last_shown(s.drop_last(), s.last());
        assert(shown(head + escaped_char(s.last())) == s.drop_last().push(s.last()));
        assert(s.drop_last().push(s.last()) =~= s);
    }
}

/// The last character of an escaped text is shown as it was.
proof fn lemma_last_shown(t: Seq<char>, c: char)
    ensures
        shown(escaped(t) + escaped_char(c)) == shown(escaped(t)).push(c),
{
    reveal_strlit("&amp;");
    reveal_strlit("&lt;");
    reveal_strlit("&gt;");
    reveal_strlit("&quot;");
    reveal_strlit("&#39;");
    let head = escaped(t);
    let tail = escaped_char(c);
    let e = head + tail;
    let n = e.len() as int;
    assert(e.take(n - tail.len()) =~= head);
    assert(e.skip(n - tail.len()) =~= tail);
    if tail.len() == 1 {
        assert(e.drop_last() =~= head);
        if ends_in(e, "&amp;"@) {
            assert(e.skip(n - 5)[4] == ';' && e.skip(n - 5)[0] == '&' && e.skip(n - 5)[1] == 'a'
                && e.skip(n - 5)[2] == 'm' && e.skip(n - 5)[3] == 'p');
            lemma_entity_is_closed(t, 4);
        }
        if ends_in(e, "&lt;"@) {
            assert(e.skip(n - 4)[3] == ';' && e.skip(n - 4)[0] == '&' && e.skip(n - 4)[1] == 'l'
                && e.skip(n - 4)[2] == 't');
            lemma_entity_is_closed(t, 3);
        }
        if ends_in(e, "&gt;"@) {
            assert(e.skip(n - 4)[3] == ';' && e.skip(n - 4)[0] == '&' && e.skip(n - 4)[1] == 'g'
                && e.skip(n - 4)[2] == 't');
            lemma_entity_is_closed(t, 3);
        }
        if ends_in(e, "&quot;"@) {
            assert(e.skip(n - 6)[5] == ';' && e.skip(n - 6)[0] == '&' && e.skip(n - 6)[1] == 'q'
                && e.skip(n - 6)[2] == 'u' && e.skip(n - 6)[3] == 'o' && e.skip(n - 6)[4] == 't');
            lemma_entity_is_closed(t, 5);
        }
        if ends_in(e, "&#39;"@) {
            assert(e.skip(n - 5)[4] == ';' && e.skip(n - 5)[0] == '&' && e.skip(n - 5)[1] == '#'
                && e.skip(n - 5)[2] == '3' && e.skip(n - 5)[3] == '9');
            lemma_entity_is_closed(t, 4);
        }
    } else {
        if c != '&' && ends_in(e, "&amp;"@) {
            assert(e.skip(n - 5)[3] == 'p');
            assert(e[n - 2] == tail[tail.len() - 2]);
        }
        if c != '<' && ends_in(e, "&lt;"@) {
            assert(e.skip(n - 4)[1] == 'l' && e.skip(n - 4)[2] == 't');
            assert(e[n - 2] == tail[tail.len() - 2] && e[n - 3] == tail[tail.len() - 3]);
        }
        if c != '>' && ends_in(e, "&gt;"@) {
            assert(e.skip(n - 4)[1] == 'g' && e.skip(n - 4)[2] == 't');
            assert(e[n - 2] == tail[tail.len() - 2] && e[n - 3] == tail[tail.len() - 3]);
        }
        if c != '"' && ends_in(e, "&quot;"@) {
            assert(e.skip(n - 6)[3] == 'o' && e.skip(n - 6)[4] == 't');
            assert(e[n - 2] == tail[tail.len() - 2] && e[n - 3] == tail[tail.len() - 3]);
        }
        if c != '\'' && ends_in(e, "&#39;"@) {
            assert(e.skip(n - 5)[3] == '9');
            assert(e[n - 2] == tail[tail.len() - 2]);
        }
    }
}

/// Behind an ampersand in an escaped text there comes a semicolon.
proof fn lemma_entity_is_closed(s: Seq<char>, k: int)
    requires
        1 <= k <= escaped(s).len(),
        forall|j: int| escaped(s).len() - k < j < escaped(s).len() ==> escaped(s)[j] != ';',
    ensures
        escaped(s)[escaped(s).len() - k] != '&',
    decreases s.len(),
{
    reveal_strlit("&amp;");
    reveal_strlit("&lt;");
    reveal_strlit("&gt;");
    reveal_strlit("&quot;");
    reveal_strlit("&#39;");
    let e = escaped(s);
    let n = e.len() as int;
    let head = escaped(s.drop_last());
    let tail = escaped_char(s.last());
    assert(e[n - 1] == tail[tail.len() - 1]);
    if k > 1 {
        assert(e[n - 1] != ';');
        assert(tail.len() == 1);
        assert(e[n - k] == head[head.len() - (k - 1)]);
        assert forall|j: int| head.len() - (k - 1) < j < head.len() implies head[j] != ';' by {
            assert(e[j] == head[j]);
        }
        lemma_entity_is_closed(s.drop_last(), k - 1);
    }
}

// ---------------------------------------------------------------------------
// Pages
// ---------------------------------------------------------------------------

/// A page with a title, which is escaped, and a body, which is not.
pub open spec fn page_html(title: Seq<char>, body: Seq<char>) -> Seq<char> {
    PAGE_OPEN@ + escaped(title) + PAGE_STYLE@ + body + PAGE_CLOSE@
}

/// A page with a title and a body.
pub fn page(title: &str, body: &str) -> (r: String)
    ensures
        r@ == page_html(title@, body@),
{
    let mut r = PAGE_OPEN.to_owned();
    r.append(html_escape(title).as_str());
    r.append(PAGE_STYLE);
    r.append(body);
    r.append(PAGE_CLOSE);
    r
}

/// A banner with a class and a text.
pub open spec fn banner_html(class: Seq<char>, text: Seq<char>) -> Seq<char> {
    BANNER_OPEN@ + class + BANNER_TEXT@ + escaped(text) + BANNER_CLOSE@
}

fn banner(class: &str, text: &str) -> (r: String)
    ensures
        r@ == banner_html(class@, text@),
{
    let mut r = BANNER_OPEN.to_owned();
    r.append(class);
    r.append(BANNER_TEXT);
    r.append(html_escape(text).as_str());
    r.append(BANNER_CLOSE);
    r
}

// ---------------------------------------------------------------------------
// Set-up
// ---------------------------------------------------------------------------

/// The title of the set-up page.
pub const SETUP_TITLE: &'static str = "BetWall — Setup";

/// The set-up page: the QR code, the secret, and an error where there is one.
pub open spec fn setup_html(
    svg: Seq<char>,
    secret: Seq<char>,
    error: Option<Seq<char>>,
) -> Seq<char> {
    page_html(
        SETUP_TITLE@,
        SETUP_OPEN@ + svg + SETUP_SECRET@ + escaped(secret) + SETUP_ERROR@ + match error {
            Some(e) => banner_html("err"@, e),
            None => Seq::empty(),
        } + SETUP_FORM@,
    )
}

/// The set-up page.
pub fn setup_page(svg: &str, secret: &str, error: Option<&str>) -> (r: String)
    ensures
        r@ == setup_html(
            svg@,
            secret@,
            match error {
                Some(e) => Some(e@),
                None => None,
            },
        ),
{
    let err_html = match error {
        Some(e) => banner("err", e),
        None => String::new(),
    };
    let mut body = SETUP_OPEN.to_owned();
    body.append(svg);
    body.append(SETUP_SECRET);
    body.append(html_escape(secret).as_str());
    body.append(SETUP_ERROR);
    body.append(err_html.as_str());
    body.append(SETUP_FORM);
    page(SETUP_TITLE, body.as_str())
}

// ---------------------------------------------------------------------------
// Games
// ---------------------------------------------------------------------------

/// The attribute of a checkbox that is ticked, or nothing.
pub open spec fn checked_attr(on: bool) -> Seq<char> {
    if on {
        "checked"@
    } else {
        ""@
    }
}

fn checked_text(on: bool) -> (r: &'static str)
    ensures
        r@ == checked_attr(on),
{
    if on {
        "checked"
    } else {
        ""
    }
}

/// The row of a game: its checkbox, its label, the last part of its pattern and
/// a button that removes it.
pub open spec fn game_row_html(g: GameView, muted: bool) -> Seq<char> {
    ROW_OPEN@ + (if muted {
        "game muted"@
    } else {
        "game"@
    }) + ROW_NAME@ + escaped(g.id) + ROW_CHECKED@ + checked_attr(g.blocked) + ROW_LABEL@ + escaped(
        g.label,
    ) + ROW_SLUG@ + escaped(after_last(g.url_pattern, '/')) + ROW_REMOVE@ + escaped(g.id)
        + ROW_TITLE@ + escaped(g.label) + ROW_ARIA@ + escaped(g.label) + ROW_CLOSE@
}

/// The row of a game.
pub fn render_game_row(g: &GameEntry, muted: bool) -> (r: String)
    ensures
        r@ == game_row_html(g@, muted),
{
    let pattern = to_chars(g.url_pattern.as_str());
    let slug = to_text(after_last_chars(&pattern, '/'));
    let id = html_escape(g.id.as_str());
    let label = html_escape(g.label.as_str());
    let mut r = ROW_OPEN.to_owned();
    r.append(
        if muted {
            "game muted"
        } else {
            "game"
        },
    );
    r.append(ROW_NAME);
    r.append(id.as_str());
    r.append(ROW_CHECKED);
    r.append(checked_text(g.blocked));
    r.append(ROW_LABEL);
    r.append(label.as_str());
    r.append(ROW_SLUG);
    r.append(html_escape(slug.as_str()).as_str());
    r.append(ROW_REMOVE);
    r.append(id.as_str());
    r.append(ROW_TITLE);
    r.append(label.as_str());
    r.append(ROW_ARIA);
    r.append(label.as_str());
    r.append(ROW_CLOSE);
    r
}

/// The games of a casino.
pub open spec fn of_casino(id: Seq<char>) -> spec_fn(GameView) -> bool {
    |g: GameView| g.casino == id
}

/// The games that are marked as blocked.
pub open spec fn is_blocked() -> spec_fn(GameView) -> bool {
    |g: GameView| g.blocked
}

/// The rows of some games, one below the other.
pub open spec fn rows_html(games: Seq<GameView>, muted: bool) -> Seq<char> {
    concat(games.map_values(|g: GameView| game_row_html(g, muted)))
}

/// The rows of a casino's games, how many there are, and how many of them are
/// marked as blocked.
fn casino_rows(games: &Vec<GameEntry>, id: &str, muted: bool) -> (r: (String, usize, usize))
    ensures
        r.0@ == rows_html(game_views(games@).filter(of_casino(id@)), muted),
        r.1 == game_views(games@).filter(of_casino(id@)).len(),
        r.2 == game_views(games@).filter(of_casino(id@)).filter(is_blocked()).len(),
{
    let ghost all = game_views(games@);
    let mut rows = String::new();
    let mut total: usize = 0;
    let mut blocked: usize = 0;
    proof {
        reveal(Seq::filter);
        assert(all.take(0).filter(of_casino(id@)) =~= Seq::empty());
        assert(Seq::<GameView>::empty().map_values(|g: GameView| game_row_html(g, muted))
            =~= Seq::empty());
        assert(Seq::<GameView>::empty().filter(is_blocked()) =~= Seq::empty());
    }
    for i in 0..games.len()
        invariant
            all == game_views(games@),
            blocked <= total <= i,
            rows@ == rows_html(all.take(i as int).filter(of_casino(id@)), muted),
            total == all.take(i as int).filter(of_casino(id@)).len(),
            blocked == all.take(i as int).filter(of_casino(id@)).filter(is_blocked()).len(),
    {
        let ghost before = all.take(i as int).filter(of_casino(id@));
        proof {
            reveal(Seq::filter);
            assert(all.take(i + 1).drop_last() =~= all.take(i as int));
        }
        if same_text(games[i].casino.as_str(), id) {
            let row = render_game_row(&games[i], muted);
            rows.append(row.as_str());
            total = total + 1;
            if games[i].blocked {
                blocked = blocked + 1;
            }
            proof {
                let g = all[i as int];
                let f = |g: GameView| game_row_html(g, muted);
                assert(before.push(g).drop_last() =~= before);
                assert(before.push(g).map_values(f) =~= before.map_values(f).push(f(g)));
                assert(before.push(g).map_values(f).drop_last() =~= before.map_values(f));
            }
        }
    }
    assert(all.take(all.len() as int) =~= all);
    (rows, total, blocked)
}

// ---------------------------------------------------------------------------
// Casinos
// ---------------------------------------------------------------------------

/// A count in front of a total.
pub open spec fn share_text(part: nat, total: nat) -> Seq<char> {
    decimal(part) + " / "@ + decimal(total)
}

fn share(part: usize, total: usize) -> (r: String)
    ensures
        r@ == share_text(part as nat, total as nat),
{
    let mut r = decimal_text(part as u128);
    r.append(" / ");
    r.append(decimal_text(total as u128).as_str());
    r
}

/// The class of the pill that tells what is blocked of a number of games.
pub open spec fn pill_class(blocked: nat, total: nat) -> Seq<char> {
    if blocked == 0 {
        "none"@
    } else if blocked == total {
        "all"@
    } else {
        "some"@
    }
}

/// The text of the pill of a casino.
pub open spec fn casino_pill_text(blocked_all: bool, blocked: nat, total: nat) -> Seq<char> {
    if blocked_all {
        "All blocked"@
    } else if blocked > 0 {
        share_text(blocked, total)
    } else if total == 0 {
        "no games"@
    } else {
        "None"@
    }
}

/// The text of the pill of the user's own games.
pub open spec fn custom_pill_text(blocked: nat, total: nat) -> Seq<char> {
    if blocked > 0 {
        share_text(blocked, total)
    } else {
        "None"@
    }
}

fn pill_class_text(blocked: usize, total: usize) -> (r: &'static str)
    ensures
        r@ == pill_class(blocked as nat, total as nat),
{
    if blocked == 0 {
        "none"
    } else if blocked == total {
        "all"
    } else {
        "some"
    }
}

/// The card of a casino: what is blocked of it, the switch that blocks all of
/// it, and its games. It is open where something of it is blocked.
pub open spec fn casino_card_html(c: CasinoView, all_games: Seq<GameView>) -> Seq<char> {
    let games = all_games.filter(of_casino(c.id));
    let blocked = games.filter(is_blocked()).len();
    CARD_OPEN@ + (if c.blocked_all || blocked > 0 {
        "open"@
    } else {
        ""@
    }) + CARD_LABEL@ + escaped(c.label) + CARD_DOMAIN@ + escaped(c.domain) + CARD_PILL@ + (
    if c.blocked_all {
        "all"@
    } else {
        pill_class(blocked, games.len())
    }) + CARD_PILL_TEXT@ + escaped(casino_pill_text(c.blocked_all, blocked, games.len()))
        + CARD_BLOCK_ALL@ + escaped(c.domain) + CARD_NAME@ + escaped(c.id) + CARD_CHECKED@
        + checked_attr(c.blocked_all) + CARD_GAMES@ + (if games.len() == 0 {
        NO_GAMES@
    } else {
        rows_html(games, c.blocked_all)
    }) + CARD_CLOSE@
}

/// The card of a casino.
pub fn render_casino_card(c: &Casino, games: &Vec<GameEntry>) -> (r: String)
    ensures
        r@ == casino_card_html(c@, game_views(games@)),
{
    let (rows, total, blocked) = casino_rows(games, c.id.as_str(), c.blocked_all);
    let pill_text = if c.blocked_all {
        "All blocked".to_owned()
    } else if blocked > 0 {
        share(blocked, total)
    } else if total == 0 {
        "no games".to_owned()
    } else {
        "None".to_owned()
    };
    let domain = html_escape(c.domain.as_str());
    let mut r = CARD_OPEN.to_owned();
    r.append(
        if c.blocked_all || blocked > 0 {
            "open"
        } else {
            ""
        },
    );
    r.append(CARD_LABEL);
    r.append(html_escape(c.label.as_str()).as_str());
    r.append(CARD_DOMAIN);
    r.append(domain.as_str());
    r.append(CARD_PILL);
    r.append(
        if c.blocked_all {
            "all"
        } else {
            pill_class_text(blocked, total)
        },
    );
    r.append(CARD_PILL_TEXT);
    r.append(html_escape(pill_text.as_str()).as_str());
    r.append(CARD_BLOCK_ALL);
    r.append(domain.as_str());
    r.append(CARD_NAME);
    r.append(html_escape(c.id.as_str()).as_str());
    r.append(CARD_CHECKED);
    r.append(checked_text(c.blocked_all));
    r.append(CARD_GAMES);
    if total == 0 {
        r.append(NO_GAMES);
    } else {
        r.append(rows.as_str());
    }
    r.append(CARD_CLOSE);
    r
}

/// The cards of the casinos, one below the other.
pub open spec fn casino_cards_html(casinos: Seq<CasinoView>, games: Seq<GameView>) -> Seq<char> {
    concat(casinos.map_values(|c: CasinoView| casino_card_html(c, games)))
}

fn casino_cards(casinos: &Vec<Casino>, games: &Vec<GameEntry>) -> (r: String)
    ensures
        r@ == casino_cards_html(casino_views(casinos@), game_views(games@)),
{
    let ghost all = casino_views(casinos@);
    let ghost cards = all.map_values(|c: CasinoView| casino_card_html(c, game_views(games@)));
    let mut r = String::new();
    assert(cards.take(0) =~= Seq::empty());
    for i in 0..casinos.len()
        invariant
            all == casino_views(casinos@),
            cards == all.map_values(|c: CasinoView| casino_card_html(c, game_views(games@))),
            r@ == concat(cards.take(i as int)),
    {
        assert(cards.take(i + 1).drop_last() =~= cards.take(i as int));
        r.append(render_casino_card(&casinos[i], games).as_str());
    }
    assert(cards.take(cards.len() as int) =~= cards);
    r
}

/// The card of the games that the user added outside the casinos. There is none
/// without such games.
pub open spec fn custom_card_html(all_games: Seq<GameView>) -> Seq<char> {
    let games = all_games.filter(of_casino(Seq::empty()));
    let blocked = games.filter(is_blocked()).len();
    if games.len() == 0 {
        Seq::empty()
    } else {
        CUSTOM_OPEN@ + pill_class(blocked, games.len()) + CARD_PILL_TEXT@ + escaped(
            custom_pill_text(blocked, games.len()),
        ) + CUSTOM_GAMES@ + rows_html(games, false) + CARD_CLOSE@
    }
}

/// The card of the user's own games.
pub fn render_custom_card(games: &Vec<GameEntry>) -> (r: String)
    ensures
        r@ == custom_card_html(game_views(games@)),
{
    let none = String::new();
    let (rows, total, blocked) = casino_rows(games, none.as_str(), false);
    if total == 0 {
        return String::new();
    }
    let pill_text = if blocked > 0 {
        share(blocked, total)
    } else {
        "None".to_owned()
    };
    let mut r = CUSTOM_OPEN.to_owned();
    r.append(pill_class_text(blocked, total));
    r.append(CARD_PILL_TEXT);
    r.append(html_escape(pill_text.as_str()).as_str());
    r.append(CUSTOM_GAMES);
    r.append(rows.as_str());
    r.append(CARD_CLOSE);
    r
}

/// A choice of casino for a new game.
pub open spec fn option_html(c: CasinoView) -> Seq<char> {
    OPTION_OPEN@ + escaped(c.id) + OPTION_LABEL@ + escaped(c.label) + OPTION_CLOSE@
}

/// The choices of casino for a new game: none, then every casino.
pub open spec fn options_html(casinos: Seq<CasinoView>) -> Seq<char> {
    CUSTOM_OPTION@ + concat(casinos.map_values(|c: CasinoView| option_html(c)))
}

fn casino_options(casinos: &Vec<Casino>) -> (r: String)
    ensures
        r@ == options_html(casino_views(casinos@)),
{
    let ghost all = casino_views(casinos@);
    let ghost options = all.map_values(|c: CasinoView| option_html(c));
    let mut r = CUSTOM_OPTION.to_owned();
    assert(options.take(0) =~= Seq::empty());
    assert(CUSTOM_OPTION@ + Seq::<char>::empty() =~= CUSTOM_OPTION@);
    for i in 0..casinos.len()
        invariant
            all == casino_views(casinos@),
            options == all.map_values(|c: CasinoView| option_html(c)),
            r@ == CUSTOM_OPTION@ + concat(options.take(i as int)),
    {
        let ghost before = r@;
        assert(options.take(i + 1).drop_last() =~= options.take(i as int));
        r.append(OPTION_OPEN);
        r.append(html_escape(casinos[i].id.as_str()).as_str());
        r.append(OPTION_LABEL);
        r.append(html_escape(casinos[i].label.as_str()).as_str());
        r.append(OPTION_CLOSE);
        assert(r@ =~= before + option_html(all[i as int]));
        assert(r@ =~= CUSTOM_OPTION@ + (concat(options.take(i as int)) + options[i as int]));
    }
    assert(options.take(options.len() as int) =~= options);
    r
}

// ---------------------------------------------------------------------------
// The control panel
// ---------------------------------------------------------------------------

/// The class and the text of the banner for the outcome of a request.
pub open spec fn message_banner(msg: Seq<char>) -> Option<(Seq<char>, Seq<char>)> {
    if msg == "setup_ok"@ {
        Some(("ok"@, "2FA active. Pausing and quitting require a code."@))
    } else if msg == "ok"@ {
        Some(("ok"@, "Saved."@))
    } else if msg == "added"@ {
        Some(("ok"@, "Game added."@))
    } else if msg == "removed"@ {
        Some(("ok"@, "Game removed."@))
    } else if msg == "bad_input"@ {
        Some(("err"@, "Name and URL pattern are required."@))
    } else if msg == "bad_code"@ {
        Some(("err"@, "Wrong 2FA code — that action needs one."@))
    } else if msg == "no_update"@ {
        Some(("info"@, "No update available."@))
    } else if msg == "update_err"@ {
        Some(("err"@, "Update failed. Check network and try again."@))
    } else {
        None
    }
}

/// The banner for the outcome of a request. There is none without an outcome,
/// nor for one that is not known.
pub open spec fn message_html(msg: Option<Seq<char>>) -> Seq<char> {
    match msg {
        Some(m) => match message_banner(m) {
            Some((class, text)) => banner_html(class, text),
            None => Seq::empty(),
        },
        None => Seq::empty(),
    }
}

/// The banner for the outcome of a request.
pub fn render_message(msg: Option<&str>) -> (r: String)
    ensures
        r@ == message_html(
            match msg {
                Some(m) => Some(m@),
                None => None,
            },
        ),
{
    let Some(m) = msg else {
        return String::new();
    };
    if same_text(m, "setup_ok") {
        banner("ok", "2FA active. Pausing and quitting require a code.")
    } else if same_text(m, "ok") {
        banner("ok", "Saved.")
    } else if same_text(m, "added") {
        banner("ok", "Game added.")
    } else if same_text(m, "removed") {
        banner("ok", "Game removed.")
    } else if same_text(m, "bad_input") {
        banner("err", "Name and URL pattern are required.")
    } else if same_text(m, "bad_code") {
        banner("err", "Wrong 2FA code — that action needs one.")
    } else if same_text(m, "no_update") {
        banner("info", "No update available.")
    } else if same_text(m, "update_err") {
        banner("err", "Update failed. Check network and try again.")
    } else {
        String::new()
    }
}

/// The identifiers of the casinos that are blocked as a whole.
pub open spec fn blocked_casino_ids(casinos: Seq<CasinoView>) -> Set<Seq<char>> {
    casinos.filter(is_blocked_all()).map_values(|c: CasinoView| c.id).to_set()
}

/// The number that the panel shows: the casinos that are blocked as a whole,
/// each identifier once, and the games that are blocked on their own.
pub open spec fn active_count(cfg: ConfigView) -> nat {
    blocked_casino_ids(cfg.casinos).len() + cfg.games.filter(is_blocked_alone(cfg.casinos)).len()
}

/// One more casino adds its identifier where it is blocked as a whole.
proof fn lemma_blocked_ids_step(casinos: Seq<CasinoView>, n: int)
    requires
        0 <= n < casinos.len(),
    ensures
        blocked_casino_ids(casinos.take(n + 1)) == (if casinos[n].blocked_all {
            blocked_casino_ids(casinos.take(n)).insert(casinos[n].id)
        } else {
            blocked_casino_ids(casinos.take(n))
        }),
{
    reveal(Seq::filter);
    let f = |c: CasinoView| c.id;
    let before = casinos.take(n).filter(is_blocked_all());
    assert(casinos.take(n + 1).drop_last() =~= casinos.take(n));
    if casinos[n].blocked_all {
        assert(before.push(casinos[n]).map_values(f) =~= before.map_values(f).push(casinos[n].id));
        let ids = before.map_values(f);
        let more = ids.push(casinos[n].id);
        assert forall|x: Seq<char>| more.to_set().contains(x) == ids.to_set().insert(
            casinos[n].id,
        ).contains(x) by {
            if ids.contains(x) {
                let k = choose|k: int| 0 <= k < ids.len() && ids[k] == x;
                assert(more[k] == x);
            }
            if x == casinos[n].id {
                assert(more[ids.len() as int] == x);
            }
            if more.contains(x) {
                let k = choose|k: int| 0 <= k < more.len() && more[k] == x;
                if k < ids.len() {
                    assert(ids[k] == x);
                }
            }
        }
        assert(more.to_set() =~= ids.to_set().insert(casinos[n].id));
    }
}

/// A set of blocked identifiers holds one exactly if a casino with it is
/// blocked as a whole.
proof fn lemma_blocked_ids_member(casinos: Seq<CasinoView>, n: int, id: Seq<char>)
    requires
        0 <= n <= casinos.len(),
    ensures
        blocked_casino_ids(casinos.take(n)).contains(id) == (exists|j: int|
            0 <= j < n && (#[trigger] casinos[j]).blocked_all && casinos[j].id == id),
        blocked_casino_ids(casinos.take(n)).finite(),
        blocked_casino_ids(casinos.take(n)).len() <= n,
    decreases n,
{
    if n == 0 {
        reveal(Seq::filter);
        assert(casinos.take(0).filter(is_blocked_all()) =~= Seq::empty());
        assert(blocked_casino_ids(casinos.take(0)) =~= Set::empty());
    } else {
        lemma_blocked_ids_member(casinos, n - 1, id);
        lemma_blocked_ids_step(casinos, n - 1);
        if casinos[n - 1].blocked_all && casinos[n - 1].id == id {
            assert(casinos[n - 1].blocked_all && casinos[n - 1].id == id);
        }
    }
}

/// Whether one of the first `n` casinos has that identifier and is blocked as a
/// whole.
fn blocked_before(casinos: &Vec<Casino>, n: usize, id: &String) -> (r: bool)
    requires
        n <= casinos@.len(),
    ensures
        r == (exists|j: int|
            0 <= j < n && (#[trigger] casino_views(casinos@)[j]).blocked_all && casino_views(
                casinos@,
            )[j].id == id@),
{
    let ghost all = casino_views(casinos@);
    for i in 0..n
        invariant
            n <= casinos@.len(),
            all == casino_views(casinos@),
            forall|j: int| 0 <= j < i ==> !((#[trigger] all[j]).blocked_all && all[j].id == id@),
    {
        if casinos[i].blocked_all && casinos[i].id == *id {
            assert(all[i as int].blocked_all && all[i as int].id == id@);
            return true;
        }
    }
    false
}

/// How many patterns the panel counts as active.
pub fn active_pattern_count(cfg: &Config) -> (r: u128)
    ensures
        r == active_count(cfg@),
{
    let ghost casinos = cfg@.casinos;
    let ghost games = cfg@.games;
    let mut casino_all: usize = 0;
    proof {
        lemma_blocked_ids_member(casinos, 0, Seq::empty());
    }
    for i in 0..cfg.casinos.len()
        invariant
            casinos == casino_views(cfg.casinos@),
            casino_all == blocked_casino_ids(casinos.take(i as int)).len(),
            casino_all <= i,
    {
        proof {
            lemma_blocked_ids_step(casinos, i as int);
            lemma_blocked_ids_member(casinos, i as int, casinos[i as int].id);
        }
        if cfg.casinos[i].blocked_all && !blocked_before(&cfg.casinos, i, &cfg.casinos[i].id) {
            casino_all = casino_all + 1;
        }
    }
    let mut individual: usize = 0;
    proof {
        reveal(Seq::filter);
        assert(casinos.take(casinos.len() as int) =~= casinos);
        assert(games.take(0).filter(is_blocked_alone(casinos)) =~= Seq::empty());
    }
    for i in 0..cfg.games.len()
        invariant
            casinos == casino_views(cfg.casinos@),
            games == game_views(cfg.games@),
            individual == games.take(i as int).filter(is_blocked_alone(casinos)).len(),
            individual <= i,
    {
        proof {
            reveal(Seq::filter);
            assert(games.take(i + 1).drop_last() =~= games.take(i as int));
        }
        if cfg.games[i].blocked && !is_casino_blocked(&cfg.casinos, &cfg.games[i].casino) {
            individual = individual + 1;
        }
    }
    assert(games.take(games.len() as int) =~= games);
    casino_all as u128 + individual as u128
}

/// The line below the status.
pub open spec fn status_line(enabled: bool, count: nat) -> Seq<char> {
    if enabled {
        "<b>"@ + decimal(count) + "</b> pattern"@ + (if count == 1 {
            ""@
        } else {
            "s"@
        }) + " active · all browsers monitored"@
    } else {
        "Pausing lets everything through. Flip the switch to resume."@
    }
}

fn render_status_line(enabled: bool, count: u128) -> (r: String)
    ensures
        r@ == status_line(enabled, count as nat),
{
    if !enabled {
        return "Pausing lets everything through. Flip the switch to resume.".to_owned();
    }
    let mut r = "<b>".to_owned();
    r.append(decimal_text(count).as_str());
    r.append("</b> pattern");
    r.append(
        if count == 1 {
            ""
        } else {
            "s"
        },
    );
    r.append(" active · all browsers monitored");
    r
}

/// The banner that offers an update. There is none without one.
pub open spec fn update_html(latest: Option<Seq<char>>, version: Seq<char>) -> Seq<char> {
    match latest {
        Some(v) => UPDATE_OPEN@ + escaped(v) + UPDATE_CURRENT@ + escaped(version) + UPDATE_CLOSE@,
        None => Seq::empty(),
    }
}

fn render_update(latest: &Option<String>, version: &str) -> (r: String)
    ensures
        r@ == update_html(optional_text(*latest), version@),
{
    match latest {
        Some(v) => {
            let mut r = UPDATE_OPEN.to_owned();
            r.append(html_escape(v.as_str()).as_str());
            r.append(UPDATE_CURRENT);
            r.append(html_escape(version).as_str());
            r.append(UPDATE_CLOSE);
            r
        },
        None => String::new(),
    }
}

/// The title of the control panel.
pub const PANEL_TITLE: &'static str = "BetWall";

/// The control panel.
pub open spec fn panel_html(
    cfg: ConfigView,
    latest: Option<Seq<char>>,
    version: Seq<char>,
    msg: Option<Seq<char>>,
) -> Seq<char> {
    page_html(
        PANEL_TITLE@,
        PANEL_OPEN@ + escaped(version) + PANEL_STATUS@ + (if cfg.enabled {
            "on"@
        } else {
            "off"@
        }) + PANEL_STATUS_TEXT@ + (if cfg.enabled {
            "Blocking"@
        } else {
            "Paused"@
        }) + PANEL_SUB@ + status_line(cfg.enabled, active_count(cfg)) + PANEL_SWITCH@
            + checked_attr(cfg.enabled) + PANEL_UPDATE@ + update_html(latest, version)
            + PANEL_BANNER@ + message_html(msg) + PANEL_CASINOS@ + casino_cards_html(
            cfg.casinos,
            cfg.games,
        ) + custom_card_html(cfg.games) + PANEL_ADD@ + options_html(cfg.casinos) + PANEL_CLOSE@,
    )
}

/// The control panel.
pub fn render_panel(
    cfg: &Config,
    latest: &Option<String>,
    version: &str,
    msg: Option<&str>,
) -> (r: String)
    ensures
        r@ == panel_html(
            cfg@,
            optional_text(*latest),
            version@,
            match msg {
                Some(m) => Some(m@),
                None => None,
            },
        ),
{
    let count: u128 = active_pattern_count(cfg);
    let mut body = PANEL_OPEN.to_owned();
    body.append(html_escape(version).as_str());
    body.append(PANEL_STATUS);
    body.append(
        if cfg.enabled {
            "on"
        } else {
            "off"
        },
    );
    body.append(PANEL_STATUS_TEXT);
    body.append(
        if cfg.enabled {
            "Blocking"
        } else {
            "Paused"
        },
    );
    body.append(PANEL_SUB);
    body.append(render_status_line(cfg.enabled, count).as_str());
    body.append(PANEL_SWITCH);
    body.append(checked_text(cfg.enabled));
    body.append(PANEL_UPDATE);
    body.append(render_update(latest, version).as_str());
    body.append(PANEL_BANNER);
    body.append(render_message(msg).as_str());
    body.append(PANEL_CASINOS);
    body.append(casino_cards(&cfg.casinos, &cfg.games).as_str());
    body.append(render_custom_card(&cfg.games).as_str());
    body.append(PANEL_ADD);
    body.append(casino_options(&cfg.casinos).as_str());
    body.append(PANEL_CLOSE);
    page(PANEL_TITLE, body.as_str())
}

} // verus!
