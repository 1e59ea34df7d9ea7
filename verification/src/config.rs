//! What is blocked: the casinos, their games, and the patterns they give.
use crate::paths::{base_folder, below, join_path, joined, settings_folder};
use crate::text::{
    all_white, is_white, lemma_split_by_last, lemma_split_by_single, lemma_trimmed_end_behind,
    lemma_trimmed_end_is_start, lemma_trimmed_within_white, nonempty, split_by, starts_with_chars,
    strip_leading_chars, strip_trailing_chars, texts, to_chars, to_text, trim_text, trimmed,
    trimmed_end, without_leading, without_trailing,
};
use crate::unicode::{
    ascii_lower, ascii_lowercase, ascii_uppercase, is_alnum, lemma_uppercase_lowered, lowercase,
};
use std::path::PathBuf;
use vstd::prelude::*;
use vstd::slice::slice_subrange;
use vstd::utf8::*;

verus! {

// ---------------------------------------------------------------------------
// Types
// ---------------------------------------------------------------------------

/// A casino that can be blocked as a whole.
#[derive(Debug)]
pub struct Casino {
    pub id: String,
    pub label: String,
    pub domain: String,
    pub blocked_all: bool,
}

/// A single game that can be blocked. `casino` is empty for one that the user
/// added outside the listed casinos.
#[derive(Debug)]
pub struct GameEntry {
    pub id: String,
    pub casino: String,
    pub label: String,
    pub url_pattern: String,
    pub blocked: bool,
}

/// Everything that the program remembers between runs.
#[derive(Debug)]
pub struct Config {
    pub enabled: bool,
    pub casinos: Vec<Casino>,
    pub games: Vec<GameEntry>,
    pub totp_secret_b32: Option<String>,
    pub setup_complete: bool,
}

/// What a `Casino` says.
pub struct CasinoView {
    pub id: Seq<char>,
    pub label: Seq<char>,
    pub domain: Seq<char>,
    pub blocked_all: bool,
}

/// What a `GameEntry` says.
pub struct GameView {
    pub id: Seq<char>,
    pub casino: Seq<char>,
    pub label: Seq<char>,
    pub url_pattern: Seq<char>,
    pub blocked: bool,
}

/// What a `Config` says.
#[verifier::ext_equal]
pub struct ConfigView {
    pub enabled: bool,
    pub casinos: Seq<CasinoView>,
    pub games: Seq<GameView>,
    pub totp_secret_b32: Option<Seq<char>>,
    pub setup_complete: bool,
}

impl View for Casino {
    type V = CasinoView;

    open spec fn view(&self) -> CasinoView {
        CasinoView {
            id: self.id@,
            label: self.label@,
            domain: self.domain@,
            blocked_all: self.blocked_all,
        }
    }
}

impl View for GameEntry {
    type V = GameView;

    open spec fn view(&self) -> GameView {
        GameView {
            id: self.id@,
            casino: self.casino@,
            label: self.label@,
            url_pattern: self.url_pattern@,
            blocked: self.blocked,
        }
    }
}

/// What a list of casinos says.
pub open spec fn casino_views(v: Seq<Casino>) -> Seq<CasinoView> {
    v.map_values(|c: Casino| c@)
}

/// What a list of games says.
pub open spec fn game_views(v: Seq<GameEntry>) -> Seq<GameView> {
    v.map_values(|g: GameEntry| g@)
}

/// The text in an optional text.
pub open spec fn optional_text(s: Option<String>) -> Option<Seq<char>> {
    match s {
        Some(t) => Some(t@),
        None => None,
    }
}

impl View for Config {
    type V = ConfigView;

    open spec fn view(&self) -> ConfigView {
        ConfigView {
            enabled: self.enabled,
            casinos: casino_views(self.casinos@),
            games: game_views(self.games@),
            totp_secret_b32: optional_text(self.totp_secret_b32),
            setup_complete: self.setup_complete,
        }
    }
}

impl Clone for Casino {
    fn clone(&self) -> (r: Self)
        ensures
            r@ == self@,
    {
        Casino {
            id: self.id.clone(),
            label: self.label.clone(),
            domain: self.domain.clone(),
            blocked_all: self.blocked_all,
        }
    }
}

impl Clone for GameEntry {
    fn clone(&self) -> (r: Self)
        ensures
            r@ == self@,
    {
        GameEntry {
            id: self.id.clone(),
            casino: self.casino.clone(),
            label: self.label.clone(),
            url_pattern: self.url_pattern.clone(),
            blocked: self.blocked,
        }
    }
}

impl Clone for Config {
    fn clone(&self) -> (r: Self)
        ensures
            r@ == self@,
    {
        let casinos = self.casinos.clone();
        let games = self.games.clone();
        assert(casino_views(casinos@) =~= casino_views(self.casinos@));
        assert(game_views(games@) =~= game_views(self.games@));
        Config {
            enabled: self.enabled,
            casinos,
            games,
            totp_secret_b32: self.totp_secret_b32.clone(),
            setup_complete: self.setup_complete,
        }
    }
}

impl Default for Config {
    /// A configuration with nothing in it.
    fn default() -> (r: Self)
        ensures
            r@ == (ConfigView {
                enabled: false,
                casinos: Seq::empty(),
                games: Seq::empty(),
                totp_secret_b32: None,
                setup_complete: false,
            }),
    {
        let r = Config {
            enabled: false,
            casinos: Vec::new(),
            games: Vec::new(),
            totp_secret_b32: None,
            setup_complete: false,
        };
        assert(r@.casinos =~= Seq::empty());
        assert(r@.games =~= Seq::empty());
        r
    }
}

// ---------------------------------------------------------------------------
// What a new configuration holds
// ---------------------------------------------------------------------------

/// A casino that is not blocked.
pub open spec fn open_casino(id: Seq<char>, label: Seq<char>, domain: Seq<char>) -> CasinoView {
    CasinoView { id, label, domain, blocked_all: false }
}

/// The casinos of a new configuration.
pub open spec fn standard_casinos() -> Seq<CasinoView> {
    seq![
        open_casino("stake"@, "Stake"@, "stake.com"@),
        open_casino("shuffle"@, "Shuffle"@, "shuffle.com"@),
        open_casino("bcgame"@, "BC.Game"@, "bc.game"@),
        open_casino("rainbet"@, "Rainbet"@, "rainbet.com"@),
        open_casino("roobet"@, "Roobet"@, "roobet.com"@),
        open_casino("gamdom"@, "Gamdom"@, "gamdom.com"@),
        open_casino("thrill"@, "Thrill"@, "thrill.com"@),
        open_casino("razed"@, "Razed"@, "razed.com"@),
        open_casino("chips"@, "Chips"@, "chips.gg"@),
        open_casino("shock"@, "Shock"@, "shock.com"@),
        open_casino("menace"@, "Menace"@, "menace.bet"@),
        open_casino("metawin"@, "MetaWin"@, "metawin.com"@),
        open_casino("yeet"@, "Yeet"@, "yeet.com"@),
        open_casino("winna"@, "Winna"@, "winna.com"@),
        open_casino("acebet"@, "Acebet"@, "acebet.com"@),
        open_casino("500casino"@, "500 Casino"@, "500.casino"@),
        open_casino("spartans"@, "Spartans"@, "spartans.com"@),
        open_casino("degen"@, "Degen"@, "degen.com"@),
    ]
}

/// The games of one casino, not blocked: the identifier is the casino's with
/// the slug behind a hyphen, the pattern is the address of the casino's games
/// with the slug behind it. A row is a slug and a label.
pub open spec fn games_of(
    casino: Seq<char>,
    address: Seq<char>,
    rows: Seq<(Seq<char>, Seq<char>)>,
) -> Seq<GameView> {
    rows.map_values(
        |row: (Seq<char>, Seq<char>)|
            GameView {
                id: casino + "-"@ + row.0,
                casino,
                label: row.1,
                url_pattern: address + row.0,
                blocked: false,
            },
    )
}

pub open spec fn stake_rows() -> Seq<(Seq<char>, Seq<char>)> {
    seq![
        ("dice"@, "Dice"@),
        ("limbo"@, "Limbo"@),
        ("mines"@, "Mines"@),
        ("plinko"@, "Plinko"@),
        ("crash"@, "Crash"@),
        ("hilo"@, "Hilo"@),
        ("keno"@, "Keno"@),
        ("wheel"@, "Wheel"@),
        ("blackjack"@, "Blackjack"@),
        ("baccarat"@, "Baccarat"@),
        ("roulette"@, "Roulette"@),
        ("diamonds"@, "Diamonds"@),
        ("dragon-tower"@, "Dragon Tower"@),
        ("slide"@, "Slide"@),
        ("video-poker"@, "Video Poker"@),
    ]
}

pub open spec fn shuffle_rows() -> Seq<(Seq<char>, Seq<char>)> {
    seq![
        ("dice"@, "Dice"@),
        ("mines"@, "Mines"@),
        ("plinko"@, "Plinko"@),
        ("limbo"@, "Limbo"@),
        ("keno"@, "Keno"@),
        ("baccarat"@, "Baccarat"@),
        ("blackjack"@, "Blackjack"@),
        ("chicken"@, "Chicken"@),
        ("tower"@, "Tower"@),
        ("crash"@, "Crash"@),
        ("hilo"@, "Hilo"@),
        ("wheel"@, "Wheel"@),
        ("roulette"@, "Roulette"@),
    ]
}

pub open spec fn roobet_rows() -> Seq<(Seq<char>, Seq<char>)> {
    seq![
        ("dice"@, "Dice"@),
        ("mines"@, "Mines"@),
        ("plinko"@, "Plinko"@),
        ("crash"@, "Crash"@),
        ("keno"@, "Keno"@),
        ("towers"@, "Towers"@),
        ("slide"@, "Slide"@),
        ("mission-uncrossable"@, "Mission Uncrossable"@),
    ]
}

pub open spec fn thrill_rows() -> Seq<(Seq<char>, Seq<char>)> {
    seq![
        ("limbo"@, "Limbo"@),
        ("blackjack"@, "Blackjack"@),
        ("dice"@, "Dice"@),
        ("mines"@, "Mines"@),
        ("crash"@, "Crash"@),
        ("plinko"@, "Plinko"@),
    ]
}

/// The games of a new configuration.
pub open spec fn standard_games() -> Seq<GameView> {
    games_of("stake"@, "stake.com/casino/games/"@, stake_rows()) + games_of(
        "shuffle"@,
        "shuffle.com/games/originals/"@,
        shuffle_rows(),
    ) + games_of("roobet"@, "roobet.com/casino/game/"@, roobet_rows()) + games_of(
        "thrill"@,
        "thrill.com/casino/play/thrill-"@,
        thrill_rows(),
    )
}

/// A new configuration.
pub open spec fn fresh_config() -> ConfigView {
    ConfigView {
        enabled: true,
        casinos: standard_casinos(),
        games: standard_games(),
        totp_secret_b32: None,
        setup_complete: false,
    }
}

/// Whether a configuration that does not say is enabled.
pub fn default_enabled() -> (r: bool)
    ensures
        r,
{
    true
}

fn new_casino(id: &str, label: &str, domain: &str) -> (c: Casino)
    ensures
        c@ == open_casino(id@, label@, domain@),
{
    Casino {
        id: id.to_owned(),
        label: label.to_owned(),
        domain: domain.to_owned(),
        blocked_all: false,
    }
}

/// The casinos of a new configuration, none of them blocked.
pub fn default_casinos() -> (r: Vec<Casino>)
    ensures
        casino_views(r@) == standard_casinos(),
{
    let r = vec![
        new_casino("stake", "Stake", "stake.com"),
        new_casino("shuffle", "Shuffle", "shuffle.com"),
        new_casino("bcgame", "BC.Game", "bc.game"),
        new_casino("rainbet", "Rainbet", "rainbet.com"),
        new_casino("roobet", "Roobet", "roobet.com"),
        new_casino("gamdom", "Gamdom", "gamdom.com"),
        new_casino("thrill", "Thrill", "thrill.com"),
        new_casino("razed", "Razed", "razed.com"),
        new_casino("chips", "Chips", "chips.gg"),
        new_casino("shock", "Shock", "shock.com"),
        new_casino("menace", "Menace", "menace.bet"),
        new_casino("metawin", "MetaWin", "metawin.com"),
        new_casino("yeet", "Yeet", "yeet.com"),
        new_casino("winna", "Winna", "winna.com"),
        new_casino("acebet", "Acebet", "acebet.com"),
        new_casino("500casino", "500 Casino", "500.casino"),
        new_casino("spartans", "Spartans", "spartans.com"),
        new_casino("degen", "Degen", "degen.com"),
    ];
    assert(casino_views(r@) =~= standard_casinos());
    r
}

/// The characters of a list of slugs and labels.
spec fn row_views(rows: Seq<(&str, &str)>) -> Seq<(Seq<char>, Seq<char>)> {
    rows.map_values(|row: (&str, &str)| (row.0@, row.1@))
}

/// Appends the games of one casino.
fn push_games(out: &mut Vec<GameEntry>, casino: &str, address: &str, rows: &[(&str, &str)])
    ensures
        game_views(final(out)@) == game_views(old(out)@) + games_of(
            casino@,
            address@,
            row_views(rows@),
        ),
{
    let ghost start = game_views(out@);
    let ghost all = games_of(casino@, address@, row_views(rows@));
    for i in 0..rows.len()
        invariant
            all == games_of(casino@, address@, row_views(rows@)),
            game_views(out@) == start + all.take(i as int),
    {
        let ghost before = game_views(out@);
        let mut id = casino.to_owned();
        id.append("-");
        id.append(rows[i].0);
        let mut url_pattern = address.to_owned();
        url_pattern.append(rows[i].0);
        out.push(
            GameEntry {
                id,
                casino: casino.to_owned(),
                label: rows[i].1.to_owned(),
                url_pattern,
                blocked: false,
            },
        );
        assert(game_views(out@) =~= before.push(all[i as int]));
        assert(all.take(i + 1) =~= all.take(i as int).push(all[i as int]));
        assert(start + all.take(i + 1) =~= before.push(all[i as int]));
    }
    assert(all.take(all.len() as int) =~= all);
}

/// The games of a new configuration, none of them blocked.
pub fn default_games() -> (r: Vec<GameEntry>)
    ensures
        game_views(r@) == standard_games(),
{
    let mut out: Vec<GameEntry> = Vec::new();
    assert(game_views(out@) =~= Seq::empty());

    let stake = [
        ("dice", "Dice"),
        ("limbo", "Limbo"),
        ("mines", "Mines"),
        ("plinko", "Plinko"),
        ("crash", "Crash"),
        ("hilo", "Hilo"),
        ("keno", "Keno"),
        ("wheel", "Wheel"),
        ("blackjack", "Blackjack"),
        ("baccarat", "Baccarat"),
        ("roulette", "Roulette"),
        ("diamonds", "Diamonds"),
        ("dragon-tower", "Dragon Tower"),
        ("slide", "Slide"),
        ("video-poker", "Video Poker"),
    ];
    assert(row_views(stake@) =~= stake_rows());
    push_games(&mut out, "stake", "stake.com/casino/games/", &stake);

    let shuffle = [
        ("dice", "Dice"),
        ("mines", "Mines"),
        ("plinko", "Plinko"),
        ("limbo", "Limbo"),
        ("keno", "Keno"),
        ("baccarat", "Baccarat"),
        ("blackjack", "Blackjack"),
        ("chicken", "Chicken"),
        ("tower", "Tower"),
        ("crash", "Crash"),
        ("hilo", "Hilo"),
        ("wheel", "Wheel"),
        ("roulette", "Roulette"),
    ];
    assert(row_views(shuffle@) =~= shuffle_rows());
    push_games(&mut out, "shuffle", "shuffle.com/games/originals/", &shuffle);

    let roobet = [
        ("dice", "Dice"),
        ("mines", "Mines"),
        ("plinko", "Plinko"),
        ("crash", "Crash"),
        ("keno", "Keno"),
        ("towers", "Towers"),
        ("slide", "Slide"),
        ("mission-uncrossable", "Mission Uncrossable"),
    ];
    assert(row_views(roobet@) =~= roobet_rows());
    push_games(&mut out, "roobet", "roobet.com/casino/game/", &roobet);

    let thrill = [
        ("limbo", "Limbo"),
        ("blackjack", "Blackjack"),
        ("dice", "Dice"),
        ("mines", "Mines"),
        ("crash", "Crash"),
        ("plinko", "Plinko"),
    ];
    assert(row_views(thrill@) =~= thrill_rows());
    push_games(&mut out, "thrill", "thrill.com/casino/play/thrill-", &thrill);
    out
}

impl Config {
    /// A new configuration: on, with nothing blocked and no code set up.
    pub fn fresh() -> (r: Self)
        ensures
            r@ == fresh_config(),
    {
        Config {
            enabled: true,
            casinos: default_casinos(),
            games: default_games(),
            totp_secret_b32: None,
            setup_complete: false,
        }
    }
}

/// The folder of the configuration, with the folder for settings that the system
/// names.
pub open spec fn config_folder(base: Option<PathBuf>) -> PathBuf {
    joined(base_folder(base), "betwall"@)
}

/// The file with the configuration, with the folder for settings that the system
/// names.
pub open spec fn config_file(base: Option<PathBuf>) -> PathBuf {
    joined(config_folder(base), "config.json"@)
}

/// The folder of the configuration, below that folder for settings.
pub fn config_dir_in(base: Option<PathBuf>) -> (r: PathBuf)
    ensures
        r == config_folder(base),
{
    below(base, "betwall")
}

/// The file with the configuration, below that folder for settings.
pub fn config_path_in(base: Option<PathBuf>) -> (r: PathBuf)
    ensures
        r == config_file(base),
{
    join_path(&config_dir_in(base), "config.json")
}

/// The folder of the configuration.
pub fn config_dir() -> (r: PathBuf)
    ensures
        exists|base: Option<PathBuf>| r == #[trigger] config_folder(base),
{
    config_dir_in(settings_folder())
}

/// The file with the configuration.
pub fn config_path() -> (r: PathBuf)
    ensures
        exists|base: Option<PathBuf>| r == #[trigger] config_file(base),
{
    config_path_in(settings_folder())
}

/// The configuration to run with: the stored one where it could be read, a new
/// one otherwise. A stored one without casinos gets the standard ones as long
/// as the set-up has not been completed.
pub open spec fn loaded_config(stored: Option<ConfigView>) -> ConfigView {
    match stored {
        None => fresh_config(),
        Some(cfg) => if cfg.casinos.len() == 0 && !cfg.setup_complete {
            ConfigView { casinos: standard_casinos(), ..cfg }
        } else {
            cfg
        },
    }
}

/// The configuration to run with, from the one that was stored.
pub fn load(stored: Option<Config>) -> (r: Config)
    ensures
        r@ == loaded_config(
            match stored {
                Some(cfg) => Some(cfg@),
                None => None,
            },
        ),
{
    let mut cfg = match stored {
        Some(cfg) => cfg,
        None => Config::fresh(),
    };
    if cfg.casinos.len() == 0 && !cfg.setup_complete {
        cfg.casinos = default_casinos();
    }
    cfg
}

/// The program never runs without casinos before the set-up is complete.
pub proof fn lemma_loaded_has_casinos(stored: Option<ConfigView>)
    requires
        !loaded_config(stored).setup_complete,
    ensures
        loaded_config(stored).casinos.len() > 0,
{
}

/// Loading what was loaded and stored again changes nothing.
pub proof fn lemma_loading_settles(stored: Option<ConfigView>)
    ensures
        loaded_config(Some(loaded_config(stored))) == loaded_config(stored),
{
}

// ---------------------------------------------------------------------------
// Identifiers and patterns
// ---------------------------------------------------------------------------

/// The characters that separate the words of a slug.
pub open spec fn not_alnum() -> spec_fn(char) -> bool {
    |c: char| !is_alnum(c)
}

/// Words with a hyphen between each two.
pub open spec fn hyphenated(words: Seq<Seq<char>>) -> Seq<char>
    decreases words.len(),
{
    if words.len() == 0 {
        Seq::empty()
    } else if words.len() == 1 {
        words[0]
    } else {
        hyphenated(words.drop_last()).push('-') + words.last()
    }
}

/// The slug of a label: the runs of letters and numbers in its lower-case form,
/// with a hyphen between each two.
pub open spec fn slug_of(s: Seq<char>) -> Seq<char> {
    hyphenated(split_by(lowercase(s), not_alnum()).filter(nonempty()))
}

/// The slug of a label.
pub fn slugify(s: &str) -> (r: String)
    ensures
        r@ == slug_of(s@),
{
    let lower = s.to_lowercase();
    let v = to_chars(lower.as_str());
    let mut out: Vec<char> = Vec::new();
    let mut prev_dash: bool = false;
    // The words that are complete, and the one that is being read.
    let ghost mut pieces: Seq<Seq<char>> = Seq::empty();
    let ghost mut open: Seq<char> = Seq::empty();
    proof {
        reveal(Seq::filter);
        assert(v@.take(0) =~= Seq::empty());
        assert(pieces.push(open) =~= seq![open]);
    }
    for i in 0..v.len()
        invariant
            pieces.push(open) == split_by(v@.take(i as int), not_alnum()),
            slug_state(out@, prev_dash, pieces.filter(nonempty()), open),
    {
        let ghost words = pieces.filter(nonempty());
        let ghost before = out@;
        let ch: char = v[i];
        assert(v@.take(i + 1).drop_last() =~= v@.take(i as int));
        assert(pieces.push(open).drop_last() =~= pieces);
        if ch.is_alphanumeric() {
            out.push(ch);
            prev_dash = false;
            proof {
                lemma_slug_letter(before, words, open, ch);
                open = open.push(ch);
            }
        } else {
            if !prev_dash && out.len() > 0 {
                out.push('-');
                prev_dash = true;
            }
            proof {
                lemma_slug_gap(before, words, open);
                reveal(Seq::filter);
                assert(pieces.push(open).filter(nonempty()) == (if open.len() > 0 {
                    words.push(open)
                } else {
                    words
                }));
                pieces = pieces.push(open);
                open = Seq::empty();
            }
        }
    }
    assert(v@.take(v@.len() as int) =~= v@);
    let ghost words = pieces.filter(nonempty());
    proof {
        reveal(Seq::filter);
        assert(pieces.push(open).drop_last() =~= pieces);
    }
    let ghost full = out@;
    while out.len() > 0 && out[out.len() - 1] == '-'
        invariant
            slug_state(full, prev_dash, words, open),
            out@ == full || (out@ == full.drop_last() && full.len() > 0 && full.last() == '-'),
        decreases out.len(),
    {
        proof {
            lemma_slug_end(full, prev_dash, words, open);
        }
        out.pop();
    }
    proof {
        lemma_slug_end(full, prev_dash, words, open);
    }
    to_text(&out)
}

/// What the slug holds when `words` are complete and `open` is the word that is
/// being read: the words so far, and a hyphen behind the last complete one where
/// no new word has begun.
spec fn slug_state(
    out: Seq<char>,
    prev_dash: bool,
    words: Seq<Seq<char>>,
    open: Seq<char>,
) -> bool {
    &&& forall|i: int| 0 <= i < words.len() ==> (#[trigger] words[i]).len() > 0
    &&& words.len() > 0 ==> hyphenated(words).len() > 0 && hyphenated(words).last() != '-'
    &&& if open.len() > 0 {
        &&& !prev_dash
        &&& open.last() != '-'
        &&& out == hyphenated(words.push(open))
    } else {
        &&& prev_dash == (words.len() > 0)
        &&& out == (if words.len() > 0 {
            hyphenated(words).push('-')
        } else {
            Seq::empty()
        })
    }
}

proof fn lemma_hyphenated_push(words: Seq<Seq<char>>, word: Seq<char>)
    ensures
        hyphenated(words.push(word)) == (if words.len() > 0 {
            hyphenated(words).push('-') + word
        } else {
            word
        }),
{
    assert(words.push(word).drop_last() =~= words);
}

proof fn lemma_slug_letter(out: Seq<char>, words: Seq<Seq<char>>, open: Seq<char>, ch: char)
    requires
        slug_state(out, words.len() > 0 && open.len() == 0, words, open),
        ch != '-',
    ensures
        slug_state(out.push(ch), false, words, open.push(ch)),
{
    lemma_hyphenated_push(words, open);
    lemma_hyphenated_push(words, open.push(ch));
    if open.len() > 0 {
        assert(out.push(ch) =~= hyphenated(words.push(open.push(ch))));
    } else {
        assert(open.push(ch) =~= seq![ch]);
        assert(out.push(ch) =~= hyphenated(words.push(open.push(ch))));
    }
}

proof fn lemma_slug_gap(out: Seq<char>, words: Seq<Seq<char>>, open: Seq<char>)
    requires
        slug_state(out, words.len() > 0 && open.len() == 0, words, open),
    ensures
        open.len() > 0 ==> out.len() > 0 && slug_state(
            out.push('-'),
            true,
            words.push(open),
            Seq::empty(),
        ),
        open.len() == 0 ==> slug_state(out, words.len() > 0, words, Seq::empty()),
        open.len() == 0 && words.len() == 0 ==> out.len() == 0,
{
    if open.len() > 0 {
        lemma_hyphenated_push(words, open);
    } else {
        assert(open =~= Seq::empty());
    }
}

proof fn lemma_slug_end(out: Seq<char>, prev_dash: bool, words: Seq<Seq<char>>, open: Seq<char>)
    requires
        slug_state(out, prev_dash, words, open),
    ensures
        open.len() > 0 ==> out == hyphenated(words.push(open)) && (out.len() > 0 ==> out.last()
            != '-'),
        open.len() == 0 && words.len() > 0 ==> out.len() > 0 && out.last() == '-'
            && out.drop_last() == hyphenated(words) && (out.drop_last().len() > 0
            ==> out.drop_last().last() != '-'),
        open.len() == 0 && words.len() == 0 ==> out == hyphenated(words),
{
    lemma_hyphenated_push(words, open);
    if open.len() == 0 && words.len() > 0 {
        assert(out.drop_last() =~= hyphenated(words));
    }
    if open.len() == 0 && words.len() == 0 {
        assert(out =~= hyphenated(words));
    }
}

/// A slug: letters and numbers, with single hyphens between them and none at its
/// ends.
pub open spec fn is_slug(s: Seq<char>) -> bool {
    &&& forall|i: int| 0 <= i < s.len() ==> is_alnum(#[trigger] s[i]) || s[i] == '-'
    &&& s.len() > 0 ==> s[0] != '-' && s.last() != '-'
    &&& forall|i: int| 0 < i < s.len() ==> (#[trigger] s[i]) != '-' || s[i - 1] != '-'
}

/// What a label is turned into is a slug. It is empty if the label has no letter
/// and no number.
pub proof fn lemma_slug_shape(s: Seq<char>)
    ensures
        is_slug(slug_of(s)),
        slug_of(s).len() == 0 <==> (forall|i: int|
            0 <= i < lowercase(s).len() ==> !is_alnum(#[trigger] lowercase(s)[i])),
{
    let lower = lowercase(s);
    let pieces = split_by(lower, not_alnum());
    let words = pieces.filter(nonempty());
    lemma_words_alnum(lower);
    lemma_hyphenated_is_slug(words);
    if words.len() == 0 {
        assert forall|i: int| 0 <= i < lower.len() implies !is_alnum(#[trigger] lower[i]) by {
            if is_alnum(lower[i]) {
                lemma_alnum_in_piece(lower, i);
                let k = choose|k: int| 0 <= k < pieces.len() && (#[trigger] pieces[k]).len() > 0;
                pieces.lemma_filter_contains(nonempty(), k);
            }
        }
    } else {
        pieces.lemma_filter_pred(nonempty(), 0);
        assert(words.contains(words[0]));
        pieces.lemma_filter_contains_rev(nonempty(), words[0]);
        lemma_nonempty_piece(lower);
    }
}

/// Letters and numbers only.
pub open spec fn alnum_only(s: Seq<char>) -> bool {
    forall|i: int| 0 <= i < s.len() ==> is_alnum(#[trigger] s[i])
}

proof fn lemma_pieces_alnum(s: Seq<char>)
    ensures
        split_by(s, not_alnum()).len() > 0,
        forall|k: int|
            0 <= k < split_by(s, not_alnum()).len() ==> alnum_only(
                #[trigger] split_by(s, not_alnum())[k],
            ),
    decreases s.len(),
{
    if s.len() > 0 {
        lemma_pieces_alnum(s.drop_last());
        let before = split_by(s.drop_last(), not_alnum());
        assert(alnum_only(before[before.len() - 1]));
    }
}

/// A letter or a number stands in some piece.
proof fn lemma_alnum_in_piece(s: Seq<char>, i: int)
    requires
        0 <= i < s.len(),
        is_alnum(s[i]),
    ensures
        exists|k: int|
            0 <= k < split_by(s, not_alnum()).len() && (
            #[trigger] split_by(s, not_alnum())[k]).len() > 0,
    decreases s.len(),
{
    let pieces = split_by(s, not_alnum());
    let before = split_by(s.drop_last(), not_alnum());
    lemma_pieces_alnum(s.drop_last());
    if is_alnum(s.last()) {
        assert(pieces[pieces.len() - 1].len() > 0);
    } else {
        lemma_alnum_in_piece(s.drop_last(), i);
        let k = choose|k: int| 0 <= k < before.len() && (#[trigger] before[k]).len() > 0;
        assert(pieces[k] == before[k]);
    }
}

/// A piece that is not empty comes from a letter or a number.
proof fn lemma_nonempty_piece(s: Seq<char>)
    requires
        exists|k: int|
            0 <= k < split_by(s, not_alnum()).len() && (
            #[trigger] split_by(s, not_alnum())[k]).len() > 0,
    ensures
        exists|i: int| 0 <= i < s.len() && is_alnum(#[trigger] s[i]),
    decreases s.len(),
{
    let pieces = split_by(s, not_alnum());
    let k = choose|k: int| 0 <= k < pieces.len() && (#[trigger] pieces[k]).len() > 0;
    if s.len() > 0 {
        let before = split_by(s.drop_last(), not_alnum());
        lemma_pieces_alnum(s.drop_last());
        if is_alnum(s.last()) {
            assert(is_alnum(s[s.len() - 1]));
        } else {
            assert(before[k] == pieces[k]);
            lemma_nonempty_piece(s.drop_last());
            let i = choose|i: int| 0 <= i < s.drop_last().len() && is_alnum(
                #[trigger] s.drop_last()[i],
            );
            assert(is_alnum(s[i]));
        }
    }
}

proof fn lemma_hyphenated_is_slug(words: Seq<Seq<char>>)
    requires
        forall|k: int|
            0 <= k < words.len() ==> (#[trigger] words[k]).len() > 0 && alnum_only(words[k]),
    ensures
        is_slug(hyphenated(words)),
        hyphenated(words).len() == 0 <==> words.len() == 0,
    decreases words.len(),
{
    if words.len() == 1 {
        assert(alnum_only(words[0]));
    } else if words.len() > 1 {
        let head = hyphenated(words.drop_last());
        let word = words[words.len() - 1];
        lemma_hyphenated_is_slug(words.drop_last());
        let all = head.push('-') + word;
        assert(alnum_only(word));
        assert forall|i: int| 0 <= i < all.len() implies is_alnum(#[trigger] all[i]) || all[i]
            == '-' by {
            if i < head.len() {
                assert(all[i] == head[i]);
            } else if i > head.len() {
                assert(all[i] == word[i - head.len() - 1]);
            }
        }
        assert forall|i: int| 0 < i < all.len() implies (#[trigger] all[i]) != '-' || all[i - 1]
            != '-' by {
            if i < head.len() {
                assert(all[i] == head[i] && all[i - 1] == head[i - 1]);
            } else if i == head.len() {
                assert(all[i - 1] == head.last());
            } else {
                assert(all[i] == word[i - head.len() - 1]);
            }
        }
        assert(all[0] == head[0]);
        assert(all.last() == word[word.len() - 1]);
    }
}

/// Small letters and other characters of ASCII only.
pub open spec fn small_ascii(s: Seq<char>) -> bool {
    forall|i: int| 0 <= i < s.len() ==> (#[trigger] s[i] as u32) < 128 && ascii_lower(s[i]) == s[i]
}

/// The slug of a slug is the slug itself, where its lower-case form is itself. That
/// is so in ASCII.
pub proof fn lemma_slug_of_slug(s: Seq<char>)
    ensures
        lowercase(slug_of(s)) == slug_of(s) ==> slug_of(slug_of(s)) == slug_of(s),
        is_ascii_chars(s) ==> slug_of(slug_of(s)) == slug_of(s),
{
    let lower = lowercase(s);
    let pieces = split_by(lower, not_alnum());
    let words = pieces.filter(nonempty());
    let slug = slug_of(s);
    lemma_words_alnum(lower);
    lemma_words_of_hyphenated(words);
    if is_ascii_chars(s) {
        lemma_pieces_small(lower);
        assert forall|k: int| 0 <= k < words.len() implies small_ascii(#[trigger] words[k]) by {
            assert(words.contains(words[k]));
            pieces.lemma_filter_contains_rev(nonempty(), words[k]);
            let i = choose|i: int| 0 <= i < pieces.len() && pieces[i] == words[k];
            assert(small_ascii(pieces[i]));
        }
        lemma_hyphenated_small(words);
        assert(is_ascii_chars(slug));
        assert(lowercase(slug) =~= slug);
    }
}

/// In ASCII, the case of the letters of a label does not matter to its slug.
pub proof fn lemma_slug_ignores_case(s: Seq<char>)
    requires
        is_ascii_chars(s),
    ensures
        slug_of(ascii_uppercase(s)) == slug_of(s),
        slug_of(ascii_lowercase(s)) == slug_of(s),
{
    lemma_uppercase_lowered(s);
    assert(ascii_lowercase(ascii_lowercase(s)) =~= ascii_lowercase(s));
}

proof fn lemma_words_alnum(lower: Seq<char>)
    ensures
        forall|k: int|
            0 <= k < split_by(lower, not_alnum()).filter(nonempty()).len() ==> (
            #[trigger] split_by(lower, not_alnum()).filter(nonempty())[k]).len() > 0 && alnum_only(
                split_by(lower, not_alnum()).filter(nonempty())[k],
            ),
{
    let pieces = split_by(lower, not_alnum());
    let words = pieces.filter(nonempty());
    lemma_pieces_alnum(lower);
    assert forall|k: int| 0 <= k < words.len() implies (#[trigger] words[k]).len() > 0
        && alnum_only(words[k]) by {
        pieces.lemma_filter_pred(nonempty(), k);
        assert(words.contains(words[k]));
        pieces.lemma_filter_contains_rev(nonempty(), words[k]);
        let i = choose|i: int| 0 <= i < pieces.len() && pieces[i] == words[k];
        assert(alnum_only(pieces[i]));
    }
}

/// The words of a slug are those that it was made of.
proof fn lemma_words_of_hyphenated(words: Seq<Seq<char>>)
    requires
        forall|k: int|
            0 <= k < words.len() ==> (#[trigger] words[k]).len() > 0 && alnum_only(words[k]),
    ensures
        split_by(hyphenated(words), not_alnum()).filter(nonempty()) == words,
{
    let slug = hyphenated(words);
    if words.len() == 0 {
        let one = seq![Seq::<char>::empty()];
        assert(split_by(slug, not_alnum()) =~= one);
        reveal(Seq::filter);
        assert(one.drop_last() =~= Seq::empty());
        assert(one.drop_last().filter(nonempty()).len() == 0);
        assert(!nonempty()(one.last()));
        assert(one.filter(nonempty()) =~= words);
    } else {
        lemma_split_hyphenated(words);
        lemma_all_kept(words);
    }
}

/// Words that are not empty are all kept.
pub proof fn lemma_all_kept(words: Seq<Seq<char>>)
    requires
        forall|k: int| 0 <= k < words.len() ==> (#[trigger] words[k]).len() > 0,
    ensures
        words.filter(nonempty()) == words,
    decreases words.len(),
{
    reveal(Seq::filter);
    if words.len() > 0 {
        assert(words[words.len() - 1].len() > 0);
        lemma_all_kept(words.drop_last());
        assert(words.drop_last().push(words.last()) =~= words);
    } else {
        assert(words.filter(nonempty()) =~= words);
    }
}

proof fn lemma_split_hyphenated(words: Seq<Seq<char>>)
    requires
        words.len() > 0,
        forall|k: int|
            0 <= k < words.len() ==> (#[trigger] words[k]).len() > 0 && alnum_only(words[k]),
    ensures
        split_by(hyphenated(words), not_alnum()) == words,
    decreases words.len(),
{
    let last = words[words.len() - 1];
    assert(alnum_only(last));
    if words.len() == 1 {
        lemma_split_by_single(last, not_alnum());
        assert(seq![last] =~= words);
    } else {
        let head = words.drop_last();
        lemma_split_hyphenated(head);
        lemma_split_by_last(hyphenated(head), '-', last, not_alnum());
        assert(head.push(last) =~= words);
    }
}

proof fn lemma_pieces_small(s: Seq<char>)
    requires
        small_ascii(s),
    ensures
        split_by(s, not_alnum()).len() > 0,
        forall|k: int|
            0 <= k < split_by(s, not_alnum()).len() ==> small_ascii(
                #[trigger] split_by(s, not_alnum())[k],
            ),
    decreases s.len(),
{
    if s.len() > 0 {
        lemma_pieces_small(s.drop_last());
        let before = split_by(s.drop_last(), not_alnum());
        let c = s[s.len() - 1];
        assert((c as u32) < 128 && ascii_lower(c) == c);
        assert(small_ascii(before[before.len() - 1]));
    }
}

proof fn lemma_hyphenated_small(words: Seq<Seq<char>>)
    requires
        forall|k: int| 0 <= k < words.len() ==> small_ascii(#[trigger] words[k]),
    ensures
        small_ascii(hyphenated(words)),
    decreases words.len(),
{
    if words.len() == 1 {
        assert(small_ascii(words[0]));
    } else if words.len() > 1 {
        let head = hyphenated(words.drop_last());
        let word = words[words.len() - 1];
        lemma_hyphenated_small(words.drop_last());
        let all = head.push('-') + word;
        assert forall|i: int| 0 <= i < all.len() implies (#[trigger] all[i] as u32) < 128
            && ascii_lower(all[i]) == all[i] by {
            if i < head.len() {
                assert(all[i] == head[i]);
            } else if i > head.len() {
                assert(all[i] == word[i - head.len() - 1]);
            }
        }
    }
}

/// An address without its scheme.
pub open spec fn without_scheme(s: Seq<char>) -> Seq<char> {
    if "https://"@.is_prefix_of(s) {
        s.skip("https://"@.len() as int)
    } else if "http://"@.is_prefix_of(s) {
        s.skip("http://"@.len() as int)
    } else {
        s
    }
}

/// The pattern that an address gives: trimmed, in lower case, without scheme,
/// without leading `www.` and without slashes at its end.
pub open spec fn pattern_of(s: Seq<char>) -> Seq<char> {
    without_trailing(without_leading(without_scheme(lowercase(trimmed(s))), "www."@), '/')
}

/// The characters behind a prefix, where they start with it.
fn strip_prefix_chars<'a>(s: &'a [char], part: &[char]) -> (r: Option<&'a [char]>)
    ensures
        r is Some <==> part@.is_prefix_of(s@),
        r matches Some(rest) ==> rest@ == s@.skip(part@.len() as int),
{
    if starts_with_chars(s, part) {
        let rest = slice_subrange(s, part.len(), s.len());
        assert(rest@ =~= s@.skip(part@.len() as int));
        Some(rest)
    } else {
        None
    }
}

/// The pattern that an address gives.
pub fn normalize_pattern(s: &str) -> (r: String)
    ensures
        r@ == pattern_of(s@),
{
    let trimmed = trim_text(s);
    let lower = trimmed.as_str().to_lowercase();
    let v = to_chars(lower.as_str());
    let https = to_chars("https://");
    let http = to_chars("http://");
    let www = to_chars("www.");
    let stripped: &[char] = match strip_prefix_chars(&v, &https) {
        Some(rest) => rest,
        None => match strip_prefix_chars(&v, &http) {
            Some(rest) => rest,
            None => &v,
        },
    };
    to_text(strip_trailing_chars(strip_leading_chars(stripped, &www), '/'))
}

/// A pattern ends in no slash and does not start with `www.`.
pub proof fn lemma_pattern_shape(s: Seq<char>)
    ensures
        pattern_of(s).len() > 0 ==> pattern_of(s).last() != '/',
        !"www."@.is_prefix_of(pattern_of(s)),
{
    reveal_strlit("www.");
    let bare = without_scheme(lowercase(trimmed(s)));
    let rest = without_leading(bare, "www."@);
    lemma_without_leading(bare, "www."@);
    lemma_without_trailing(rest, '/');
    let p = pattern_of(s);
    if "www."@.is_prefix_of(p) {
        assert(rest.subrange(0, 4) =~= p.subrange(0, 4));
    }
}

/// White space around an address does not matter to its pattern.
pub proof fn lemma_pattern_ignores_white(a: Seq<char>, s: Seq<char>, b: Seq<char>)
    requires
        all_white(a),
        all_white(b),
    ensures
        pattern_of(a + s + b) == pattern_of(s),
{
    lemma_trimmed_within_white(a, s, b);
}

/// In ASCII, the case of the letters of an address does not matter to its
/// pattern.
pub proof fn lemma_pattern_ignores_case(s: Seq<char>)
    requires
        is_ascii_chars(s),
    ensures
        pattern_of(ascii_uppercase(s)) == pattern_of(s),
        pattern_of(ascii_lowercase(s)) == pattern_of(s),
{
    lemma_uppercase_lowered(s);
    lemma_trimmed_alike(ascii_uppercase(s), s);
    assert(ascii_lowercase(ascii_lowercase(s)) =~= ascii_lowercase(s));
    lemma_trimmed_alike(ascii_lowercase(s), s);
}

/// Texts in ASCII that differ in the case of letters alone are trimmed alike.
proof fn lemma_trimmed_alike(s: Seq<char>, t: Seq<char>)
    requires
        is_ascii_chars(s),
        is_ascii_chars(t),
        ascii_lowercase(s) == ascii_lowercase(t),
    ensures
        lowercase(trimmed(s)) == lowercase(trimmed(t)),
    decreases s.len(),
{
    assert(ascii_lowercase(s).len() == s.len() && ascii_lowercase(t).len() == t.len());
    if s.len() > 0 {
        assert(ascii_lowercase(s)[0] == ascii_lower(s[0]));
        assert(ascii_lowercase(t)[0] == ascii_lower(t[0]));
        if is_white(s[0]) {
            assert(ascii_lowercase(s.drop_first()) =~= ascii_lowercase(s).drop_first());
            assert(ascii_lowercase(t.drop_first()) =~= ascii_lowercase(t).drop_first());
            lemma_trimmed_alike(s.drop_first(), t.drop_first());
        } else {
            lemma_trimmed_end_alike(s, t);
        }
    } else {
        assert(s =~= t);
    }
}

proof fn lemma_trimmed_end_alike(s: Seq<char>, t: Seq<char>)
    requires
        is_ascii_chars(s),
        is_ascii_chars(t),
        ascii_lowercase(s) == ascii_lowercase(t),
    ensures
        lowercase(trimmed_end(s)) == lowercase(trimmed_end(t)),
    decreases s.len(),
{
    assert(ascii_lowercase(s).len() == s.len() && ascii_lowercase(t).len() == t.len());
    if s.len() > 0 {
        assert(ascii_lowercase(s).last() == ascii_lower(s.last()));
        assert(ascii_lowercase(t).last() == ascii_lower(t.last()));
        if is_white(s.last()) {
            assert(ascii_lowercase(s.drop_last()) =~= ascii_lowercase(s).drop_last());
            assert(ascii_lowercase(t.drop_last()) =~= ascii_lowercase(t).drop_last());
            lemma_trimmed_end_alike(s.drop_last(), t.drop_last());
        }
    } else {
        assert(s =~= t);
    }
}

/// What a pattern is made of when something stands before an address.
proof fn lemma_lowered_behind(a: Seq<char>, s: Seq<char>)
    requires
        is_ascii_chars(a),
        is_ascii_chars(s),
        a.len() > 0,
        !is_white(a[0]),
        !is_white(a.last()),
    ensures
        lowercase(trimmed(a + s)) == lowercase(a) + lowercase(trimmed_end(s)),
{
    lemma_trimmed_end_behind(a, s);
    lemma_trimmed_end_is_start(s);
    assert(is_ascii_chars(trimmed_end(s)));
    assert(is_ascii_chars(a + trimmed_end(s)));
    assert(lowercase(a + trimmed_end(s)) =~= lowercase(a) + lowercase(trimmed_end(s)));
}

/// An address in ASCII, with nothing before it, that has no scheme.
pub open spec fn is_bare(s: Seq<char>) -> bool {
    &&& is_ascii_chars(s)
    &&& s.len() > 0 ==> !is_white(s[0])
    &&& !"http://"@.is_prefix_of(lowercase(s))
    &&& !"https://"@.is_prefix_of(lowercase(s))
}

proof fn lemma_bare_lowered(s: Seq<char>)
    requires
        is_bare(s),
    ensures
        lowercase(trimmed(s)) == lowercase(trimmed_end(s)),
        without_scheme(lowercase(trimmed_end(s))) == lowercase(trimmed_end(s)),
{
    lemma_trimmed_end_is_start(s);
    let kept = trimmed_end(s);
    let n = kept.len() as int;
    assert(is_ascii_chars(kept));
    assert(lowercase(s).subrange(0, n) =~= lowercase(kept));
    if "https://"@.is_prefix_of(lowercase(kept)) {
        let m = "https://"@.len() as int;
        assert(lowercase(s).subrange(0, m) =~= lowercase(kept).subrange(0, m));
    }
    if "http://"@.is_prefix_of(lowercase(kept)) {
        let m = "http://"@.len() as int;
        assert(lowercase(s).subrange(0, m) =~= lowercase(kept).subrange(0, m));
    }
}

/// An address in ASCII gives the same pattern with a scheme and without, whatever
/// the case of the scheme.
pub proof fn lemma_pattern_ignores_scheme(scheme: Seq<char>, s: Seq<char>)
    requires
        is_bare(s),
        is_ascii_chars(scheme),
        lowercase(scheme) == "http://"@ || lowercase(scheme) == "https://"@,
    ensures
        pattern_of(scheme + s) == pattern_of(s),
{
    reveal_strlit("https://");
    reveal_strlit("http://");
    let lower = lowercase(scheme);
    assert(lower[0] == ascii_lower(scheme[0]));
    assert(lower.last() == ascii_lower(scheme.last()));
    lemma_lowered_behind(scheme, s);
    lemma_bare_lowered(s);
    let rest = lowercase(trimmed_end(s));
    let whole = lower + rest;
    assert(whole.subrange(0, lower.len() as int) =~= lower);
    assert(whole.skip(lower.len() as int) =~= rest);
    if lower == "http://"@ && "https://"@.is_prefix_of(whole) {
        assert(whole.subrange(0, 8)[4] == 's');
        assert(whole[4] == ':');
    }
    assert(without_scheme(whole) == rest);
}

/// An address in ASCII gives the same pattern with `www.` before it and without.
pub proof fn lemma_pattern_ignores_www(s: Seq<char>)
    requires
        is_bare(s),
    ensures
        pattern_of("www."@ + s) == pattern_of(s),
{
    reveal_strlit("https://");
    reveal_strlit("http://");
    reveal_strlit("www.");
    let www = "www."@;
    assert(lowercase(www) =~= www);
    lemma_lowered_behind(www, s);
    lemma_bare_lowered(s);
    let rest = lowercase(trimmed_end(s));
    let whole = www + rest;
    assert(whole[0] == 'w');
    assert(!"https://"@.is_prefix_of(whole)) by {
        if "https://"@.is_prefix_of(whole) {
            assert(whole.subrange(0, 8)[0] == 'h');
        }
    }
    assert(!"http://"@.is_prefix_of(whole)) by {
        if "http://"@.is_prefix_of(whole) {
            assert(whole.subrange(0, 7)[0] == 'h');
        }
    }
    assert(whole.subrange(0, 4) =~= www);
    assert(whole.skip(4) =~= rest);
    assert(without_leading(whole, www) == without_leading(rest, www));
}

proof fn lemma_without_leading(s: Seq<char>, part: Seq<char>)
    requires
        part.len() > 0,
    ensures
        !part.is_prefix_of(without_leading(s, part)),
    decreases s.len(),
{
    if part.is_prefix_of(s) {
        lemma_without_leading(s.skip(part.len() as int), part);
    }
}

proof fn lemma_without_trailing(s: Seq<char>, c: char)
    ensures
        without_trailing(s, c).len() > 0 ==> without_trailing(s, c).last() != c,
        without_trailing(s, c).is_prefix_of(s),
    decreases s.len(),
{
    if s.len() > 0 && s.last() == c {
        lemma_without_trailing(s.drop_last(), c);
        let r = without_trailing(s, c);
        assert(s.subrange(0, r.len() as int) =~= s.drop_last().subrange(0, r.len() as int));
    } else {
        assert(s.subrange(0, s.len() as int) =~= s);
    }
}

/// A casino that is blocked as a whole.
pub open spec fn is_blocked_all() -> spec_fn(CasinoView) -> bool {
    |c: CasinoView| c.blocked_all
}

/// One of the casinos with that identifier is blocked as a whole.
pub open spec fn casino_blocked(casinos: Seq<CasinoView>, id: Seq<char>) -> bool {
    exists|i: int| 0 <= i < casinos.len() && (#[trigger] casinos[i]).blocked_all && casinos[i].id
        == id
}

/// A game that is blocked on its own: its casino is not blocked as a whole.
pub open spec fn is_blocked_alone(casinos: Seq<CasinoView>) -> spec_fn(GameView) -> bool {
    |g: GameView| g.blocked && !casino_blocked(casinos, g.casino)
}

/// The patterns of the casinos that are blocked as a whole: their domains.
pub open spec fn casino_patterns(casinos: Seq<CasinoView>) -> Seq<Seq<char>> {
    casinos.filter(is_blocked_all()).map_values(|c: CasinoView| lowercase(c.domain))
}

/// The patterns of the games that are blocked on their own.
pub open spec fn game_patterns(casinos: Seq<CasinoView>, games: Seq<GameView>) -> Seq<Seq<char>> {
    games.filter(is_blocked_alone(casinos)).map_values(|g: GameView| lowercase(g.url_pattern))
}

/// The patterns in force: none while the program is paused; otherwise the
/// domains of the casinos that are blocked as a whole, then the patterns of the
/// games that are blocked on their own.
pub open spec fn patterns_in_force(cfg: ConfigView) -> Seq<Seq<char>> {
    if cfg.enabled {
        casino_patterns(cfg.casinos) + game_patterns(cfg.casinos, cfg.games)
    } else {
        Seq::empty()
    }
}

/// Whether a casino with that identifier is blocked as a whole.
pub fn is_casino_blocked(casinos: &Vec<Casino>, id: &String) -> (r: bool)
    ensures
        r == casino_blocked(casino_views(casinos@), id@),
{
    let ghost all = casino_views(casinos@);
    for i in 0..casinos.len()
        invariant
            all == casino_views(casinos@),
            forall|j: int| 0 <= j < i ==> !((#[trigger] all[j]).blocked_all && all[j].id == id@),
    {
        if casinos[i].blocked_all && casinos[i].id == *id {
            assert(all[i as int].blocked_all && all[i as int].id == id@);
            return true;
        }
    }
    false
}

/// The patterns in force.
pub fn active_patterns(cfg: &Config) -> (r: Vec<String>)
    ensures
        texts(r@) == patterns_in_force(cfg@),
{
    let mut out: Vec<String> = Vec::new();
    assert(texts(out@) =~= Seq::empty());
    if !cfg.enabled {
        return out;
    }
    let ghost casinos = cfg@.casinos;
    let ghost games = cfg@.games;
    proof {
        reveal(Seq::filter);
        assert(casino_patterns(casinos.take(0)) =~= Seq::empty());
    }
    for i in 0..cfg.casinos.len()
        invariant
            casinos == casino_views(cfg.casinos@),
            texts(out@) == casino_patterns(casinos.take(i as int)),
    {
        let ghost before = texts(out@);
        proof {
            reveal(Seq::filter);
            assert(casinos.take(i + 1).drop_last() =~= casinos.take(i as int));
        }
        if cfg.casinos[i].blocked_all {
            out.push(cfg.casinos[i].domain.as_str().to_lowercase());
            assert(texts(out@) =~= before.push(lowercase(casinos[i as int].domain)));
        }
        assert(texts(out@) =~= casino_patterns(casinos.take(i + 1)));
    }
    assert(casinos.take(casinos.len() as int) =~= casinos);
    let ghost first = texts(out@);
    proof {
        reveal(Seq::filter);
        assert(game_patterns(casinos, games.take(0)) =~= Seq::empty());
        assert(first + game_patterns(casinos, games.take(0)) =~= first);
    }
    for i in 0..cfg.games.len()
        invariant
            casinos == casino_views(cfg.casinos@),
            games == game_views(cfg.games@),
            texts(out@) == first + game_patterns(casinos, games.take(i as int)),
    {
        let ghost before = texts(out@);
        proof {
            reveal(Seq::filter);
            assert(games.take(i + 1).drop_last() =~= games.take(i as int));
        }
        if cfg.games[i].blocked && !is_casino_blocked(&cfg.casinos, &cfg.games[i].casino) {
            out.push(cfg.games[i].url_pattern.as_str().to_lowercase());
            assert(texts(out@) =~= before.push(lowercase(games[i as int].url_pattern)));
        }
        assert(texts(out@) =~= first + game_patterns(casinos, games.take(i + 1)));
    }
    assert(games.take(games.len() as int) =~= games);
    out
}

} // verus!
