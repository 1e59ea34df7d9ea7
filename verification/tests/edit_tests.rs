use betwall::config::{active_patterns, Config, GameEntry};
use betwall::edit::{
    add_game, apply_checkbox_state, casino_field_name, game_field_name, id_base, pattern_to_add,
    remove_game, save_weakens,
};
use betwall::form::{parse_form, Form};
use betwall::monitor::url_matches;

fn entry(id: &str, casino: &str, blocked: bool) -> GameEntry {
    GameEntry {
        id: id.to_string(),
        casino: casino.to_string(),
        label: id.to_string(),
        url_pattern: format!("{id}.com"),
        blocked,
    }
}

/// The form as the panel submits it unchanged.
fn as_shown(cfg: &Config) -> Form {
    let mut form = Form::new();
    if cfg.enabled {
        form.insert("enabled".to_string(), "on".to_string());
    }
    for c in &cfg.casinos {
        if c.blocked_all {
            form.insert(casino_field_name(&c.id), "on".to_string());
        }
    }
    for g in &cfg.games {
        if g.blocked {
            form.insert(game_field_name(&g.id), "on".to_string());
        }
    }
    form
}

#[test]
fn checkboxes_have_names() {
    assert_eq!(casino_field_name("stake"), "c_stake_all");
    assert_eq!(game_field_name("stake-dice"), "g_stake-dice");
}

#[test]
fn switches_follow_the_form() {
    let mut cfg = Config::fresh();
    cfg.games[3].blocked = true;
    apply_checkbox_state(&mut cfg, &parse_form("c_stake_all=on&g_stake-limbo=on&g_unknown=on"));
    assert!(!cfg.enabled);
    assert!(cfg.casinos[0].blocked_all);
    assert!(!cfg.casinos[1].blocked_all);
    assert!(cfg.games[1].blocked);
    assert!(!cfg.games[3].blocked);
    assert_eq!(cfg.games.len(), 42);
    apply_checkbox_state(&mut cfg, &parse_form("enabled="));
    assert!(cfg.enabled);
    assert!(!cfg.casinos[0].blocked_all);
}

#[test]
fn switches_as_shown_change_nothing() {
    let mut cfg = Config::fresh();
    cfg.casinos[4].blocked_all = true;
    cfg.games[7].blocked = true;
    let form = as_shown(&cfg);
    let mut after = cfg.clone();
    apply_checkbox_state(&mut after, &form);
    assert_eq!(format!("{:?}", after), format!("{:?}", cfg));
    assert!(!save_weakens(&cfg, &after));
}

#[test]
fn turning_something_off_weakens() {
    let mut cfg = Config::fresh();
    cfg.casinos[0].blocked_all = true;
    cfg.games[20].blocked = true;
    let mut paused = cfg.clone();
    paused.enabled = false;
    assert!(save_weakens(&cfg, &paused));
    assert!(!save_weakens(&paused, &cfg));
    let mut casino_off = cfg.clone();
    casino_off.casinos[0].blocked_all = false;
    assert!(save_weakens(&cfg, &casino_off));
    let mut game_off = cfg.clone();
    game_off.games[20].blocked = false;
    assert!(save_weakens(&cfg, &game_off));
    let mut more = cfg.clone();
    more.casinos[1].blocked_all = true;
    more.games[21].blocked = true;
    assert!(!save_weakens(&cfg, &more));
    let mut fewer = cfg.clone();
    fewer.games.clear();
    assert!(!save_weakens(&cfg, &fewer));
}

#[test]
fn last_of_several_with_one_identifier_decides() {
    let mut cfg = Config::fresh();
    cfg.games = vec![entry("x", "", true), entry("x", "", false)];
    let mut off = cfg.clone();
    off.games[0].blocked = false;
    assert!(!save_weakens(&cfg, &off));
    cfg.games = vec![entry("x", "", false), entry("x", "", true)];
    off.games[1].blocked = false;
    assert!(save_weakens(&cfg, &off));
}

#[test]
fn what_is_shut_stays_shut_when_a_casino_is_blocked() {
    let mut cfg = Config::fresh();
    cfg.games[0].blocked = true;
    let url = "https://stake.com/casino/games/dice?x";
    assert!(url_matches(url, &active_patterns(&cfg)));
    let mut after = cfg.clone();
    after.casinos[0].blocked_all = true;
    assert!(!save_weakens(&cfg, &after));
    assert_eq!(active_patterns(&after), vec!["stake.com"]);
    assert!(url_matches(url, &active_patterns(&after)));
}

#[test]
fn game_of_a_casino_is_added_below_its_domain() {
    let cfg = Config::fresh();
    let add = |casino: &str, address: &str| {
        pattern_to_add(&cfg.casinos, &casino.to_string(), address)
    };
    assert_eq!(add("stake", "casino/games/pump"), "stake.com/casino/games/pump");
    assert_eq!(add("stake", "/casino/games/pump/"), "stake.com/casino/games/pump");
    assert_eq!(add("stake", "https://www.Stake.com/Casino"), "stake.com/casino");
    assert_eq!(add("stake", "stake.com"), "stake.com");
    assert_eq!(add("stake", "https://"), "stake.com");
    assert_eq!(add("stake", "stake.community"), "stake.com/munity");
    assert_eq!(add("unknown", "https://x.org/y"), "x.org/y");
    assert_eq!(add("", "HTTP://X.org/"), "x.org");
    assert_eq!(add("", "/"), "");
}

#[test]
fn identifiers_start_from_label_and_casino() {
    assert_eq!(id_base("My Game", &"".to_string(), 3), "custom-my-game");
    assert_eq!(id_base("My Game", &"stake".to_string(), 3), "stake-my-game");
    assert_eq!(id_base("!!!", &"stake".to_string(), 3), "game-4");
}

#[test]
fn added_game_is_blocked_and_has_an_identifier_of_its_own() {
    let mut cfg = Config::fresh();
    let form = parse_form("label=+Dice+&url_pattern=casino%2Fgames%2Fdice&casino=stake");
    assert!(add_game(&mut cfg, &form));
    assert!(add_game(&mut cfg, &form));
    assert!(add_game(&mut cfg, &form));
    assert_eq!(cfg.games.len(), 45);
    let ids: Vec<&str> = cfg.games[42..].iter().map(|g| g.id.as_str()).collect();
    assert_eq!(ids, vec!["stake-dice-2", "stake-dice-3", "stake-dice-4"]);
    let g = &cfg.games[42];
    assert_eq!(g.label, "Dice");
    assert_eq!(g.casino, "stake");
    assert_eq!(g.url_pattern, "stake.com/casino/games/dice");
    assert!(g.blocked);
    assert!(active_patterns(&cfg).contains(&"stake.com/casino/games/dice".to_string()));
}

#[test]
fn first_gap_in_the_numbers_is_used() {
    let mut cfg = Config::fresh();
    cfg.games = vec![entry("custom-x", "", true), entry("custom-x-3", "", true)];
    let form = parse_form("label=x&url_pattern=x.org");
    assert!(add_game(&mut cfg, &form));
    assert_eq!(cfg.games[2].id, "custom-x-2");
    assert!(add_game(&mut cfg, &form));
    assert_eq!(cfg.games[3].id, "custom-x-4");
}

#[test]
fn form_without_label_or_pattern_adds_nothing() {
    let mut cfg = Config::fresh();
    for s in [
        "",
        "label=x",
        "url_pattern=x",
        "label=+&url_pattern=x",
        "label=x&url_pattern=+",
        "label=x&url_pattern=https%3A%2F%2F",
        "label=x&url_pattern=%2F&casino=unknown",
    ] {
        assert!(!add_game(&mut cfg, &parse_form(s)));
        assert_eq!(cfg.games.len(), 42);
    }
    assert!(add_game(&mut cfg, &parse_form("label=%21&url_pattern=x")));
    assert_eq!(cfg.games[42].id, "game-43");
}

#[test]
fn removing_takes_every_game_with_the_identifier() {
    let mut cfg = Config::fresh();
    cfg.games = vec![entry("a", "", true), entry("b", "", false), entry("a", "", false)];
    remove_game(&mut cfg, &"a".to_string());
    assert_eq!(cfg.games.len(), 1);
    assert_eq!(cfg.games[0].id, "b");
    remove_game(&mut cfg, &"zzz".to_string());
    assert_eq!(cfg.games.len(), 1);
}

#[test]
fn removing_undoes_adding() {
    let mut cfg = Config::fresh();
    let before = format!("{:?}", cfg);
    assert!(add_game(&mut cfg, &parse_form("label=New&url_pattern=new.org")));
    assert_ne!(format!("{:?}", cfg), before);
    let id = cfg.games[42].id.clone();
    remove_game(&mut cfg, &id);
    assert_eq!(format!("{:?}", cfg), before);
}

#[test]
fn path_and_full_address_add_the_same_pattern() {
    let r = "casino/games/pump";
    for address in [
        r.to_string(),
        format!("/{r}"),
        format!("stake.com/{r}"),
        format!("https://www.stake.com/{r}/"),
    ] {
        let mut cfg = Config::fresh();
        let mut form = Form::new();
        form.insert("label".to_string(), "Pump".to_string());
        form.insert("casino".to_string(), "stake".to_string());
        form.insert("url_pattern".to_string(), address);
        assert!(add_game(&mut cfg, &form));
        assert_eq!(cfg.games[42].url_pattern, "stake.com/casino/games/pump");
    }
}

#[test]
fn case_and_white_space_of_an_address_do_not_matter() {
    for address in [
        "spiele/über",
        "/Spiele/Über",
        "Stake.com/SPIELE/ÜBER",
        "https://www.stake.com/spiele/über/",
        " HTTPS://WWW.Stake.com/Spiele/ÜBER/\t",
    ] {
        let mut cfg = Config::fresh();
        let mut form = Form::new();
        form.insert("label".to_string(), "Über".to_string());
        form.insert("casino".to_string(), "stake".to_string());
        form.insert("url_pattern".to_string(), address.to_string());
        assert!(add_game(&mut cfg, &form));
        assert_eq!(cfg.games[42].url_pattern, "stake.com/spiele/über");
        assert_eq!(cfg.games[42].id, "stake-über");
    }
}
