use betwall::config::{
    active_patterns, config_dir_in, config_path, config_path_in, default_casinos, default_enabled,
    default_games, is_casino_blocked, load, normalize_pattern, slugify, Casino, Config, GameEntry,
};
use std::path::PathBuf;

fn game(id: &str, casino: &str, pattern: &str, blocked: bool) -> GameEntry {
    GameEntry {
        id: id.to_string(),
        casino: casino.to_string(),
        label: id.to_string(),
        url_pattern: pattern.to_string(),
        blocked,
    }
}

#[test]
fn default_lists_have_the_standard_sizes() {
    assert_eq!(default_casinos().len(), 18);
    assert_eq!(default_games().len(), 42);
    assert!(default_enabled());
}

#[test]
fn default_entries_read_as_listed() {
    let casinos = default_casinos();
    assert_eq!(casinos[2].id, "bcgame");
    assert_eq!(casinos[2].label, "BC.Game");
    assert_eq!(casinos[2].domain, "bc.game");
    assert_eq!(casinos[15].id, "500casino");
    assert_eq!(casinos[17].domain, "degen.com");
    let games = default_games();
    assert_eq!(games[0].id, "stake-dice");
    assert_eq!(games[0].url_pattern, "stake.com/casino/games/dice");
    assert_eq!(games[12].label, "Dragon Tower");
    assert_eq!(games[15].url_pattern, "shuffle.com/games/originals/dice");
    assert_eq!(games[28].url_pattern, "roobet.com/casino/game/dice");
    assert_eq!(games[35].label, "Mission Uncrossable");
    assert_eq!(games[36].id, "thrill-limbo");
    assert_eq!(games[41].url_pattern, "thrill.com/casino/play/thrill-plinko");
}

#[test]
fn default_identifiers_are_distinct_and_games_lie_below_their_casinos() {
    let casinos = default_casinos();
    let games = default_games();
    for i in 0..casinos.len() {
        for j in 0..i {
            assert_ne!(casinos[i].id, casinos[j].id);
        }
    }
    for i in 0..games.len() {
        for j in 0..i {
            assert_ne!(games[i].id, games[j].id);
        }
        let own: Vec<&Casino> = casinos.iter().filter(|c| c.id == games[i].casino).collect();
        assert_eq!(own.len(), 1);
        assert!(games[i].url_pattern.starts_with(&own[0].domain));
        assert!(!games[i].blocked);
    }
}

#[test]
fn fresh_configuration_blocks_nothing() {
    let cfg = Config::fresh();
    assert!(cfg.enabled);
    assert!(!cfg.setup_complete);
    assert!(cfg.totp_secret_b32.is_none());
    assert!(active_patterns(&cfg).is_empty());
}

#[test]
fn empty_configuration_is_the_default() {
    let cfg = Config::default();
    assert!(!cfg.enabled);
    assert!(cfg.casinos.is_empty());
    assert!(cfg.games.is_empty());
}

#[test]
fn loading_fills_in_what_is_missing() {
    let cfg = load(None);
    assert_eq!(cfg.casinos.len(), 18);
    assert_eq!(cfg.games.len(), 42);
    let mut stored = Config::fresh();
    stored.casinos.clear();
    stored.games.truncate(3);
    let cfg = load(Some(stored.clone()));
    assert_eq!(cfg.casinos.len(), 18);
    assert_eq!(cfg.games.len(), 3);
    stored.setup_complete = true;
    let cfg = load(Some(stored));
    assert_eq!(cfg.casinos.len(), 0);
    let again = load(Some(load(None)));
    assert_eq!(again.casinos.len(), 18);
}

#[test]
fn slugs_are_words_with_hyphens() {
    assert_eq!(slugify("Dragon Tower"), "dragon-tower");
    assert_eq!(slugify("  --Hi!!  Lo-- "), "hi-lo");
    assert_eq!(slugify("a--b"), "a-b");
    assert_eq!(slugify("500 Casino"), "500-casino");
    assert_eq!(slugify("!!!"), "");
    assert_eq!(slugify(""), "");
    assert_eq!(slugify("ÉTÉ Größe"), "été-größe");
    assert_eq!(slugify("日本 x"), "日本-x");
}

#[test]
fn patterns_are_trimmed_and_bare() {
    assert_eq!(normalize_pattern("  HTTPS://www.Stake.com/Casino/  "), "stake.com/casino");
    assert_eq!(normalize_pattern("http://stake.com"), "stake.com");
    assert_eq!(normalize_pattern("stake.com///"), "stake.com");
    assert_eq!(normalize_pattern("www.www.stake.com"), "stake.com");
    assert_eq!(normalize_pattern("https://http://x"), "http://x");
    assert_eq!(normalize_pattern("https://"), "");
    assert_eq!(normalize_pattern("/"), "");
    assert_eq!(normalize_pattern("ftp://x/"), "ftp://x");
    assert_eq!(normalize_pattern("ÄPFEL.de/"), "äpfel.de");
}

#[test]
fn pattern_is_the_same_with_a_scheme_and_without() {
    for s in ["Stake.com/x", "www.roobet.com", "a"] {
        assert_eq!(normalize_pattern(&format!("https://{s}")), normalize_pattern(s));
        assert_eq!(normalize_pattern(&format!("http://{s}")), normalize_pattern(s));
    }
}

#[test]
fn patterns_in_force_come_from_the_switches() {
    let mut cfg = Config::fresh();
    cfg.casinos[1].domain = "Shuffle.COM".to_string();
    cfg.casinos[1].blocked_all = true;
    cfg.games[0].blocked = true;
    cfg.games[16].blocked = true;
    cfg.games.push(game("custom-x", "", "Example.ORG/X", true));
    assert_eq!(
        active_patterns(&cfg),
        vec!["shuffle.com", "stake.com/casino/games/dice", "example.org/x"]
    );
    assert!(is_casino_blocked(&cfg.casinos, &"shuffle".to_string()));
    assert!(!is_casino_blocked(&cfg.casinos, &"stake".to_string()));
    cfg.enabled = false;
    assert!(active_patterns(&cfg).is_empty());
}

#[test]
fn copies_are_equal() {
    let cfg = Config::fresh();
    let copy = cfg.clone();
    assert_eq!(format!("{:?}", cfg), format!("{:?}", copy));
}

#[test]
fn configuration_file_lies_below_the_settings_folder() {
    let base = PathBuf::from("settings");
    assert_eq!(config_dir_in(Some(base.clone())), base.join("betwall"));
    assert_eq!(config_path_in(Some(base.clone())), base.join("betwall").join("config.json"));
    assert_eq!(config_path_in(None), PathBuf::from(".").join("betwall").join("config.json"));
    assert!(config_path().ends_with("betwall/config.json"));
    assert!(betwall::config::config_dir().ends_with("betwall"));
}

#[test]
fn slug_of_a_slug_is_itself() {
    for s in ["Dragon Tower", "--a  b--", "", "!", "500 Casino", "x"] {
        let slug = slugify(s);
        assert_eq!(slugify(&slug), slug);
        assert_eq!(slugify(&s.to_ascii_uppercase()), slug);
    }
}

#[test]
fn pattern_ignores_what_stands_around_the_address() {
    for p in ["", "Stake.com/x ", "www.a/", "x\t", "/", "ftp://y"] {
        let n = normalize_pattern(p);
        assert_eq!(normalize_pattern(&format!("http://{p}")), n);
        assert_eq!(normalize_pattern(&format!("HTTPS://{p}")), n);
        assert_eq!(normalize_pattern(&format!("www.{p}")), n);
        assert_eq!(normalize_pattern(&format!("  {p}\n")), n);
        assert_eq!(normalize_pattern(&p.to_uppercase()), n);
    }
}

#[test]
fn default_games_are_named_after_their_labels() {
    let games = default_games();
    for (i, g) in games.iter().enumerate() {
        let slug = slugify(&g.label);
        assert_eq!(g.id, format!("{}-{}", g.casino, slug));
        assert!(g.url_pattern.ends_with(&slug));
        assert_eq!(normalize_pattern(&g.url_pattern), g.url_pattern);
        assert!(g.url_pattern.starts_with(&format!("{}.com/", g.casino)));
        for other in &games[..i] {
            assert_ne!(other.url_pattern, g.url_pattern);
        }
    }
    let count = |casino: &str| games.iter().filter(|g| g.casino == casino).count();
    assert_eq!((count("stake"), count("shuffle"), count("roobet"), count("thrill")), (15, 13, 8, 6));
}
