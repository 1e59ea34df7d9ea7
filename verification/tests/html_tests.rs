use betwall::config::{Config, GameEntry};
use betwall::html::{
    active_pattern_count, html_escape, page, render_casino_card, render_custom_card,
    render_game_row, render_message, render_panel, setup_page,
};

fn dice() -> GameEntry {
    GameEntry {
        id: "stake-dice".to_string(),
        casino: "stake".to_string(),
        label: "D<i>ce".to_string(),
        url_pattern: "stake.com/casino/games/dice".to_string(),
        blocked: true,
    }
}

fn panel(cfg: &Config) -> String {
    render_panel(cfg, &None, "1.2.3", None)
}

#[test]
fn markup_is_escaped() {
    assert_eq!(html_escape("<a href=\"x\">&'"), "&lt;a href=&quot;x&quot;&gt;&amp;&#39;");
    assert_eq!(html_escape("&amp;"), "&amp;amp;");
    assert_eq!(html_escape("plain é"), "plain é");
}

#[test]
fn page_has_a_title_and_a_body() {
    let p = page("A<B", "<p>x</p>");
    assert!(p.contains("<title>A&lt;B</title>"));
    assert!(p.contains("<p>x</p>"));
    assert!(p.starts_with("<!"));
}

#[test]
fn set_up_page_escapes_secret_and_error() {
    let p = setup_page("<svg/>", "S&S", Some("it's"));
    assert!(p.contains("<div class=\"qr\"><svg/></div>"));
    assert!(p.contains("<code class=\"secret\">S&amp;S</code>"));
    assert!(p.contains("<div class=\"banner err\">it&#39;s</div>"));
    assert!(p.contains("pattern=\"[0-9]{6}\""));
    assert!(p.contains("BetWall — Setup"));
    assert!(!setup_page("", "S", None).contains("banner err\">"));
}

#[test]
fn row_is_written_out() {
    assert_eq!(
        render_game_row(&dice(), false),
        r#"<div class="game"><label><input type="checkbox" name="g_stake-dice" checked><span class="name">D&lt;i&gt;ce</span><span class="slug">dice</span></label><button type="submit" name="remove_id" value="stake-dice" formaction="/remove" class="rm" title="Remove D&lt;i&gt;ce" aria-label="Remove D&lt;i&gt;ce">×</button></div>"#
    );
    let mut g = dice();
    g.blocked = false;
    g.url_pattern = "noslash".to_string();
    let row = render_game_row(&g, true);
    assert!(row.starts_with(r#"<div class="game muted">"#));
    assert!(row.contains(r#"name="g_stake-dice" >"#));
    assert!(row.contains(r#"<span class="slug">noslash</span>"#));
}

#[test]
fn card_counts_the_blocked_games() {
    let cfg = Config::fresh();
    let mut games = vec![dice(), dice()];
    games[1].blocked = false;
    let card = render_casino_card(&cfg.casinos[0], &games);
    assert!(card.starts_with(r#"<details class="card" open>"#));
    assert!(card.contains(r#"<span class="pill some"><span class="pdot"></span>1 / 2</span>"#));
    assert!(card.contains(r#"<input type="checkbox" name="c_stake_all" >"#));
    games[1].blocked = true;
    let card = render_casino_card(&cfg.casinos[0], &games);
    assert!(card.contains(r#"<span class="pill all"><span class="pdot"></span>2 / 2</span>"#));
    games[0].blocked = false;
    games[1].blocked = false;
    let card = render_casino_card(&cfg.casinos[0], &games);
    assert!(card.starts_with(r#"<details class="card" >"#));
    assert!(card.contains(r#"<span class="pill none"><span class="pdot"></span>None</span>"#));
}

#[test]
fn card_of_a_blocked_casino_mutes_its_games() {
    let mut cfg = Config::fresh();
    cfg.casinos[0].blocked_all = true;
    let card = render_casino_card(&cfg.casinos[0], &vec![dice()]);
    assert!(card.contains("All blocked"));
    assert!(card.contains("game muted"));
    assert!(card.contains(r#"name="c_stake_all" checked>"#));
    let card = render_casino_card(&cfg.casinos[2], &vec![dice()]);
    assert!(card.contains("no games"));
    assert!(card.contains("No games yet. Add one below."));
    assert!(card.contains("All traffic on bc.game, regardless of game."));
}

#[test]
fn own_games_have_a_card() {
    assert_eq!(render_custom_card(&vec![dice()]), "");
    let mut own = dice();
    own.casino = String::new();
    let mut other = dice();
    other.casino = String::new();
    other.blocked = false;
    let card = render_custom_card(&vec![own, other, dice()]);
    assert!(card.contains("user-added"));
    assert!(card.contains("1 / 2"));
    assert_eq!(card.matches("class=\"game\"").count(), 2);
}

#[test]
fn messages_are_known_by_name() {
    assert_eq!(render_message(None), "");
    assert_eq!(render_message(Some("nonsense")), "");
    assert_eq!(render_message(Some("ok")), r#"<div class="banner ok">Saved.</div>"#);
    assert_eq!(
        render_message(Some("setup_ok")),
        r#"<div class="banner ok">2FA active. Pausing and quitting require a code.</div>"#
    );
    assert_eq!(render_message(Some("added")), r#"<div class="banner ok">Game added.</div>"#);
    assert_eq!(render_message(Some("removed")), r#"<div class="banner ok">Game removed.</div>"#);
    assert_eq!(
        render_message(Some("bad_input")),
        r#"<div class="banner err">Name and URL pattern are required.</div>"#
    );
    assert_eq!(
        render_message(Some("bad_code")),
        r#"<div class="banner err">Wrong 2FA code — that action needs one.</div>"#
    );
    assert_eq!(
        render_message(Some("no_update")),
        r#"<div class="banner info">No update available.</div>"#
    );
    assert_eq!(
        render_message(Some("update_err")),
        r#"<div class="banner err">Update failed. Check network and try again.</div>"#
    );
}

#[test]
fn panel_counts_the_patterns() {
    let mut cfg = Config::fresh();
    assert_eq!(active_pattern_count(&cfg), 0);
    assert!(panel(&cfg).contains("<b>0</b> patterns active · all browsers monitored"));
    cfg.games[0].blocked = true;
    assert_eq!(active_pattern_count(&cfg), 1);
    assert!(panel(&cfg).contains("<b>1</b> pattern active"));
    cfg.casinos[0].blocked_all = true;
    cfg.casinos[3].blocked_all = true;
    assert_eq!(active_pattern_count(&cfg), 2);
    let copy = cfg.casinos[3].clone();
    cfg.casinos.push(copy);
    assert_eq!(active_pattern_count(&cfg), 2);
    cfg.enabled = false;
    assert_eq!(active_pattern_count(&cfg), 2);
    let p = panel(&cfg);
    assert!(p.contains("Paused"));
    assert!(p.contains("Pausing lets everything through. Flip the switch to resume."));
}

#[test]
fn panel_shows_every_switch() {
    let mut cfg = Config::fresh();
    cfg.games[5].blocked = true;
    cfg.casinos[7].blocked_all = true;
    let p = panel(&cfg);
    assert!(p.contains(r#"<input type="checkbox" name="enabled" checked>"#));
    for c in &cfg.casinos {
        let on = if c.blocked_all { "checked" } else { "" };
        assert!(p.contains(&format!(r#"<input type="checkbox" name="c_{}_all" {}>"#, c.id, on)));
        assert!(p.contains(&format!(r#"<option value="{}">{}</option>"#, c.id, c.label)));
    }
    for g in &cfg.games {
        let on = if g.blocked { "checked" } else { "" };
        assert!(p.contains(&format!(r#"<input type="checkbox" name="g_{}" {}>"#, g.id, on)));
    }
    assert!(p.contains(r#"<option value="">Custom (full URL)</option>"#));
    assert!(p.contains(r#"<span class="ver">v1.2.3</span>"#));
}

#[test]
fn panel_offers_an_update() {
    let cfg = Config::fresh();
    let p = render_panel(&cfg, &Some("2.0.0".to_string()), "1.2.3", Some("ok"));
    assert!(p.contains("Update available — <b>v2.0.0</b> (you have v1.2.3)."));
    assert!(p.contains(r#"<div class="banner ok">Saved.</div>"#));
    assert!(!panel(&cfg).contains("Update available"));
}

#[test]
fn escaped_text_is_shown_as_it_was() {
    for s in ["", "a&b", "&amp;", "<&lt;>", "\"'&#39;;", "amp;", "&;"] {
        let escaped = html_escape(s);
        assert!(!escaped.contains(['<', '>', '"', '\'']));
        let shown = escaped
            .replace("&#39;", "'")
            .replace("&quot;", "\"")
            .replace("&gt;", ">")
            .replace("&lt;", "<")
            .replace("&amp;", "&");
        assert_eq!(shown, s);
    }
}
