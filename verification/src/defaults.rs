//! What holds of a new configuration.
use crate::config::{
    alnum_only, fresh_config, games_of, hyphenated, lemma_all_kept, not_alnum, pattern_of,
    patterns_in_force, roobet_rows, shuffle_rows, slug_of, stake_rows, standard_casinos,
    standard_games, thrill_rows, GameView,
};
use crate::edit::lemma_own_pattern;
use crate::guarantees::{
    casino_ids_distinct, domains_in_ascii, game_ids_distinct, games_below_casinos, is_sound,
    lemma_patterns_come_from_switches,
};
use crate::html::ends_in;
use crate::text::{has_part, has_part_at, lemma_split_by_last, lemma_split_by_single};
use crate::unicode::{ascii_lowercase, lowercase};
use vstd::prelude::*;
use vstd::utf8::*;

verus! {

/// The length of a text and its first two characters.
spec fn mark(s: Seq<char>) -> (nat, char, char) {
    (s.len(), s[0], s[1])
}

/// Small letters, digits, hyphens, dots and slashes only.
spec fn is_plain(s: Seq<char>) -> bool {
    forall|i: int| 0 <= i < s.len() ==> '-' <= #[trigger] s[i] <= '9' || 'a' <= s[i] <= 'z'
}

proof fn lemma_plain_lowercase(s: Seq<char>)
    requires
        is_plain(s),
    ensures
        lowercase(s) == s,
{
    assert(is_ascii_chars(s));
    assert(ascii_lowercase(s) =~= s);
}

/// The slug of a label that is a single word is the word in lower case.
proof fn lemma_slug_of_word(label: Seq<char>, word: Seq<char>)
    requires
        lowercase(label) == word,
        word.len() > 0,
        alnum_only(word),
    ensures
        slug_of(label) == word,
{
    lemma_split_by_single(word, not_alnum());
    let words = seq![word];
    lemma_all_kept(words);
    assert(hyphenated(words) == word);
}

/// The slug of a label of two words has a hyphen between them.
proof fn lemma_slug_of_two_words(label: Seq<char>, first: Seq<char>, second: Seq<char>)
    requires
        lowercase(label) == first.push(' ') + second,
        first.len() > 0,
        second.len() > 0,
        alnum_only(first),
        alnum_only(second),
    ensures
        slug_of(label) == first.push('-') + second,
{
    lemma_split_by_single(first, not_alnum());
    lemma_split_by_last(first, ' ', second, not_alnum());
    let words = seq![first].push(second);
    lemma_all_kept(words);
    assert(words.drop_last() =~= seq![first]);
    assert(hyphenated(words.drop_last()) == first);
}

/// The rows of a casino: their slugs have those marks and are the slugs of the
/// labels.
spec fn rows_marked(rows: Seq<(Seq<char>, Seq<char>)>, marks: Seq<(nat, char, char)>) -> bool {
    &&& rows.len() == marks.len()
    &&& marks.no_duplicates()
    &&& forall|i: int|
        0 <= i < rows.len() ==> mark((#[trigger] rows[i]).0) == marks[i] && is_plain(rows[i].0)
            && rows[i].0.len() > 0 && rows[i].0.last() != '/' && slug_of(rows[i].1) == rows[i].0
}

/// A slug is that of a label.
spec fn slug_fits(slug: Seq<char>, label: Seq<char>) -> bool {
    is_plain(slug) && slug.len() > 0 && slug.last() != '/' && slug_of(label) == slug
}

proof fn lemma_baccarat()
    ensures
        slug_fits("baccarat"@, "Baccarat"@),
{
    reveal_strlit("baccarat");
    reveal_strlit("Baccarat");
    assert(is_ascii_chars("Baccarat"@));
    assert(lowercase("Baccarat"@) =~= "baccarat"@);
    lemma_slug_of_word("Baccarat"@, "baccarat"@);
}

proof fn lemma_blackjack()
    ensures
        slug_fits("blackjack"@, "Blackjack"@),
{
    reveal_strlit("blackjack");
    reveal_strlit("Blackjack");
    assert(is_ascii_chars("Blackjack"@));
    assert(lowercase("Blackjack"@) =~= "blackjack"@);
    lemma_slug_of_word("Blackjack"@, "blackjack"@);
}

proof fn lemma_chicken()
    ensures
        slug_fits("chicken"@, "Chicken"@),
{
    reveal_strlit("chicken");
    reveal_strlit("Chicken");
    assert(is_ascii_chars("Chicken"@));
    assert(lowercase("Chicken"@) =~= "chicken"@);
    lemma_slug_of_word("Chicken"@, "chicken"@);
}

proof fn lemma_crash()
    ensures
        slug_fits("crash"@, "Crash"@),
{
    reveal_strlit("crash");
    reveal_strlit("Crash");
    assert(is_ascii_chars("Crash"@));
    assert(lowercase("Crash"@) =~= "crash"@);
    lemma_slug_of_word("Crash"@, "crash"@);
}

proof fn lemma_diamonds()
    ensures
        slug_fits("diamonds"@, "Diamonds"@),
{
    reveal_strlit("diamonds");
    reveal_strlit("Diamonds");
    assert(is_ascii_chars("Diamonds"@));
    assert(lowercase("Diamonds"@) =~= "diamonds"@);
    lemma_slug_of_word("Diamonds"@, "diamonds"@);
}

proof fn lemma_dice()
    ensures
        slug_fits("dice"@, "Dice"@),
{
    reveal_strlit("dice");
    reveal_strlit("Dice");
    assert(is_ascii_chars("Dice"@));
    assert(lowercase("Dice"@) =~= "dice"@);
    lemma_slug_of_word("Dice"@, "dice"@);
}

proof fn lemma_dragon_tower()
    ensures
        slug_fits("dragon-tower"@, "Dragon Tower"@),
{
    reveal_strlit("dragon-tower");
    reveal_strlit("Dragon Tower");
    reveal_strlit("dragon");
    reveal_strlit("tower");
    assert(is_ascii_chars("Dragon Tower"@));
    assert(lowercase("Dragon Tower"@) =~= "dragon"@.push(' ') + "tower"@);
    assert("dragon-tower"@ =~= "dragon"@.push('-') + "tower"@);
    lemma_slug_of_two_words("Dragon Tower"@, "dragon"@, "tower"@);
}

proof fn lemma_hilo()
    ensures
        slug_fits("hilo"@, "Hilo"@),
{
    reveal_strlit("hilo");
    reveal_strlit("Hilo");
    assert(is_ascii_chars("Hilo"@));
    assert(lowercase("Hilo"@) =~= "hilo"@);
    lemma_slug_of_word("Hilo"@, "hilo"@);
}

proof fn lemma_keno()
    ensures
        slug_fits("keno"@, "Keno"@),
{
    reveal_strlit("keno");
    reveal_strlit("Keno");
    assert(is_ascii_chars("Keno"@));
    assert(lowercase("Keno"@) =~= "keno"@);
    lemma_slug_of_word("Keno"@, "keno"@);
}

proof fn lemma_limbo()
    ensures
        slug_fits("limbo"@, "Limbo"@),
{
    reveal_strlit("limbo");
    reveal_strlit("Limbo");
    assert(is_ascii_chars("Limbo"@));
    assert(lowercase("Limbo"@) =~= "limbo"@);
    lemma_slug_of_word("Limbo"@, "limbo"@);
}

proof fn lemma_mines()
    ensures
        slug_fits("mines"@, "Mines"@),
{
    reveal_strlit("mines");
    reveal_strlit("Mines");
    assert(is_ascii_chars("Mines"@));
    assert(lowercase("Mines"@) =~= "mines"@);
    lemma_slug_of_word("Mines"@, "mines"@);
}

proof fn lemma_mission_uncrossable()
    ensures
        slug_fits("mission-uncrossable"@, "Mission Uncrossable"@),
{
    reveal_strlit("mission-uncrossable");
    reveal_strlit("Mission Uncrossable");
    reveal_strlit("mission");
    reveal_strlit("uncrossable");
    assert(is_ascii_chars("Mission Uncrossable"@));
    assert(lowercase("Mission Uncrossable"@) =~= "mission"@.push(' ') + "uncrossable"@);
    assert("mission-uncrossable"@ =~= "mission"@.push('-') + "uncrossable"@);
    lemma_slug_of_two_words("Mission Uncrossable"@, "mission"@, "uncrossable"@);
}

proof fn lemma_plinko()
    ensures
        slug_fits("plinko"@, "Plinko"@),
{
    reveal_strlit("plinko");
    reveal_strlit("Plinko");
    assert(is_ascii_chars("Plinko"@));
    assert(lowercase("Plinko"@) =~= "plinko"@);
    lemma_slug_of_word("Plinko"@, "plinko"@);
}

proof fn lemma_roulette()
    ensures
        slug_fits("roulette"@, "Roulette"@),
{
    reveal_strlit("roulette");
    reveal_strlit("Roulette");
    assert(is_ascii_chars("Roulette"@));
    assert(lowercase("Roulette"@) =~= "roulette"@);
    lemma_slug_of_word("Roulette"@, "roulette"@);
}

proof fn lemma_slide()
    ensures
        slug_fits("slide"@, "Slide"@),
{
    reveal_strlit("slide");
    reveal_strlit("Slide");
    assert(is_ascii_chars("Slide"@));
    assert(lowercase("Slide"@) =~= "slide"@);
    lemma_slug_of_word("Slide"@, "slide"@);
}

proof fn lemma_tower()
    ensures
        slug_fits("tower"@, "Tower"@),
{
    reveal_strlit("tower");
    reveal_strlit("Tower");
    assert(is_ascii_chars("Tower"@));
    assert(lowercase("Tower"@) =~= "tower"@);
    lemma_slug_of_word("Tower"@, "tower"@);
}

proof fn lemma_towers()
    ensures
        slug_fits("towers"@, "Towers"@),
{
    reveal_strlit("towers");
    reveal_strlit("Towers");
    assert(is_ascii_chars("Towers"@));
    assert(lowercase("Towers"@) =~= "towers"@);
    lemma_slug_of_word("Towers"@, "towers"@);
}

proof fn lemma_video_poker()
    ensures
        slug_fits("video-poker"@, "Video Poker"@),
{
    reveal_strlit("video-poker");
    reveal_strlit("Video Poker");
    reveal_strlit("video");
    reveal_strlit("poker");
    assert(is_ascii_chars("Video Poker"@));
    assert(lowercase("Video Poker"@) =~= "video"@.push(' ') + "poker"@);
    assert("video-poker"@ =~= "video"@.push('-') + "poker"@);
    lemma_slug_of_two_words("Video Poker"@, "video"@, "poker"@);
}

proof fn lemma_wheel()
    ensures
        slug_fits("wheel"@, "Wheel"@),
{
    reveal_strlit("wheel");
    reveal_strlit("Wheel");
    assert(is_ascii_chars("Wheel"@));
    assert(lowercase("Wheel"@) =~= "wheel"@);
    lemma_slug_of_word("Wheel"@, "wheel"@);
}

spec fn stake_marks() -> Seq<(nat, char, char)> {
    seq![
        (4, 'd', 'i'),
        (5, 'l', 'i'),
        (5, 'm', 'i'),
        (6, 'p', 'l'),
        (5, 'c', 'r'),
        (4, 'h', 'i'),
        (4, 'k', 'e'),
        (5, 'w', 'h'),
        (9, 'b', 'l'),
        (8, 'b', 'a'),
        (8, 'r', 'o'),
        (8, 'd', 'i'),
        (12, 'd', 'r'),
        (5, 's', 'l'),
        (11, 'v', 'i'),
    ]
}

proof fn lemma_stake_rows()
    ensures
        rows_marked(stake_rows(), stake_marks()),
{
    reveal_strlit("dice");
    reveal_strlit("limbo");
    reveal_strlit("mines");
    reveal_strlit("plinko");
    reveal_strlit("crash");
    reveal_strlit("hilo");
    reveal_strlit("keno");
    reveal_strlit("wheel");
    reveal_strlit("blackjack");
    reveal_strlit("baccarat");
    reveal_strlit("roulette");
    reveal_strlit("diamonds");
    reveal_strlit("dragon-tower");
    reveal_strlit("slide");
    reveal_strlit("video-poker");
    lemma_dice();
    lemma_limbo();
    lemma_mines();
    lemma_plinko();
    lemma_crash();
    lemma_hilo();
    lemma_keno();
    lemma_wheel();
    lemma_blackjack();
    lemma_baccarat();
    lemma_roulette();
    lemma_diamonds();
    lemma_dragon_tower();
    lemma_slide();
    lemma_video_poker();
}

spec fn shuffle_marks() -> Seq<(nat, char, char)> {
    seq![
        (4, 'd', 'i'),
        (5, 'm', 'i'),
        (6, 'p', 'l'),
        (5, 'l', 'i'),
        (4, 'k', 'e'),
        (8, 'b', 'a'),
        (9, 'b', 'l'),
        (7, 'c', 'h'),
        (5, 't', 'o'),
        (5, 'c', 'r'),
        (4, 'h', 'i'),
        (5, 'w', 'h'),
        (8, 'r', 'o'),
    ]
}

proof fn lemma_shuffle_rows()
    ensures
        rows_marked(shuffle_rows(), shuffle_marks()),
{
    reveal_strlit("dice");
    reveal_strlit("mines");
    reveal_strlit("plinko");
    reveal_strlit("limbo");
    reveal_strlit("keno");
    reveal_strlit("baccarat");
    reveal_strlit("blackjack");
    reveal_strlit("chicken");
    reveal_strlit("tower");
    reveal_strlit("crash");
    reveal_strlit("hilo");
    reveal_strlit("wheel");
    reveal_strlit("roulette");
    lemma_dice();
    lemma_mines();
    lemma_plinko();
    lemma_limbo();
    lemma_keno();
    lemma_baccarat();
    lemma_blackjack();
    lemma_chicken();
    lemma_tower();
    lemma_crash();
    lemma_hilo();
    lemma_wheel();
    lemma_roulette();
}

spec fn roobet_marks() -> Seq<(nat, char, char)> {
    seq![
        (4, 'd', 'i'),
        (5, 'm', 'i'),
        (6, 'p', 'l'),
        (5, 'c', 'r'),
        (4, 'k', 'e'),
        (6, 't', 'o'),
        (5, 's', 'l'),
        (19, 'm', 'i'),
    ]
}

proof fn lemma_roobet_rows()
    ensures
        rows_marked(roobet_rows(), roobet_marks()),
{
    reveal_strlit("dice");
    reveal_strlit("mines");
    reveal_strlit("plinko");
    reveal_strlit("crash");
    reveal_strlit("keno");
    reveal_strlit("towers");
    reveal_strlit("slide");
    reveal_strlit("mission-uncrossable");
    lemma_dice();
    lemma_mines();
    lemma_plinko();
    lemma_crash();
    lemma_keno();
    lemma_towers();
    lemma_slide();
    lemma_mission_uncrossable();
}

spec fn thrill_marks() -> Seq<(nat, char, char)> {
    seq![
        (5, 'l', 'i'),
        (9, 'b', 'l'),
        (4, 'd', 'i'),
        (5, 'm', 'i'),
        (5, 'c', 'r'),
        (6, 'p', 'l'),
    ]
}

proof fn lemma_thrill_rows()
    ensures
        rows_marked(thrill_rows(), thrill_marks()),
{
    reveal_strlit("limbo");
    reveal_strlit("blackjack");
    reveal_strlit("dice");
    reveal_strlit("mines");
    reveal_strlit("crash");
    reveal_strlit("plinko");
    lemma_limbo();
    lemma_blackjack();
    lemma_dice();
    lemma_mines();
    lemma_crash();
    lemma_plinko();
}

spec fn casino_marks() -> Seq<(nat, char, char)> {
    seq![
        (5, 's', 't'),
        (7, 's', 'h'),
        (6, 'b', 'c'),
        (7, 'r', 'a'),
        (6, 'r', 'o'),
        (6, 'g', 'a'),
        (6, 't', 'h'),
        (5, 'r', 'a'),
        (5, 'c', 'h'),
        (5, 's', 'h'),
        (6, 'm', 'e'),
        (7, 'm', 'e'),
        (4, 'y', 'e'),
        (5, 'w', 'i'),
        (6, 'a', 'c'),
        (9, '5', '0'),
        (8, 's', 'p'),
        (5, 'd', 'e'),
    ]
}

/// Each of the standard casinos has an identifier of its own.
pub proof fn lemma_standard_casinos()
    ensures
        casino_ids_distinct(standard_casinos()),
        forall|i: int|
            0 <= i < standard_casinos().len() ==> (#[trigger] standard_casinos()[i]).id.len() > 0,
{
    reveal_strlit("stake");
    reveal_strlit("shuffle");
    reveal_strlit("bcgame");
    reveal_strlit("rainbet");
    reveal_strlit("roobet");
    reveal_strlit("gamdom");
    reveal_strlit("thrill");
    reveal_strlit("razed");
    reveal_strlit("chips");
    reveal_strlit("shock");
    reveal_strlit("menace");
    reveal_strlit("metawin");
    reveal_strlit("yeet");
    reveal_strlit("winna");
    reveal_strlit("acebet");
    reveal_strlit("500casino");
    reveal_strlit("spartans");
    reveal_strlit("degen");
    let casinos = standard_casinos();
    let marks = casino_marks();
    assert(marks.no_duplicates());
    assert forall|i: int| 0 <= i < casinos.len() implies mark((#[trigger] casinos[i]).id)
        == marks[i] by {}
    assert forall|i: int, j: int| 0 <= i < j < casinos.len() implies (#[trigger] casinos[i]).id != (
    #[trigger] casinos[j]).id by {
        assert(mark(casinos[i].id) == marks[i]);
        assert(mark(casinos[j].id) == marks[j]);
    }
}

/// Each game has a pattern of its own.
pub open spec fn patterns_distinct(games: Seq<GameView>) -> bool {
    forall|i: int, j: int|
        0 <= i < j < games.len() ==> (#[trigger] games[i]).url_pattern != (
        #[trigger] games[j]).url_pattern
}

/// A game is named after its label: its identifier is the casino's with the slug of
/// the label behind a hyphen, its pattern ends in that slug and is a pattern as
/// it stands.
pub open spec fn named_after_label(g: GameView) -> bool {
    &&& g.id == g.casino + "-"@ + slug_of(g.label)
    &&& ends_in(g.url_pattern, slug_of(g.label))
    &&& pattern_of(g.url_pattern) == g.url_pattern
}

/// The games of a casino: they belong to it, lie below its domain, are named after
/// their labels and are not blocked. Their identifiers and patterns start with
/// those two characters.
spec fn is_group(
    games: Seq<GameView>,
    casino: Seq<char>,
    domain: Seq<char>,
    a: char,
    b: char,
) -> bool {
    &&& game_ids_distinct(games)
    &&& patterns_distinct(games)
    &&& forall|i: int| 0 <= i < games.len() ==> in_group(#[trigger] games[i], casino, domain, a, b)
}

spec fn in_group(g: GameView, casino: Seq<char>, domain: Seq<char>, a: char, b: char) -> bool {
    &&& g.casino == casino
    &&& g.id.len() >= 2 && g.id[0] == a && g.id[1] == b
    &&& g.url_pattern.len() >= 2 && g.url_pattern[0] == a && g.url_pattern[1] == b
    &&& (domain + "/"@).is_prefix_of(g.url_pattern)
    &&& has_part(lowercase(g.url_pattern), lowercase(domain))
    &&& named_after_label(g)
    &&& !g.blocked
}

/// A plain address with a slug behind it is its own pattern.
proof fn lemma_plain_pattern(address: Seq<char>, slug: Seq<char>)
    requires
        is_plain(address),
        is_plain(slug),
        address.len() > 0,
        slug.len() > 0,
        slug.last() != '/',
        address[0] != 'h',
        address[0] != 'w',
    ensures
        pattern_of(address + slug) == address + slug,
{
    reveal_strlit("https://");
    reveal_strlit("http://");
    reveal_strlit("www.");
    let p = address + slug;
    assert(is_plain(p));
    lemma_plain_lowercase(p);
    assert(is_ascii_chars(p));
    assert(p[0] == address[0] && p.last() == slug.last());
    assert('-' <= p[0] <= '9' || 'a' <= p[0] <= 'z');
    assert('-' <= p[p.len() - 1] <= '9' || 'a' <= p[p.len() - 1] <= 'z');
    if "https://"@.is_prefix_of(p) {
        assert(p.subrange(0, 8)[0] == 'h');
    }
    if "http://"@.is_prefix_of(p) {
        assert(p.subrange(0, 7)[0] == 'h');
    }
    if "www."@.is_prefix_of(p) {
        assert(p.subrange(0, 4)[0] == 'w');
    }
    lemma_own_pattern(p);
}

proof fn lemma_games_of(
    casino: Seq<char>,
    address: Seq<char>,
    domain: Seq<char>,
    rows: Seq<(Seq<char>, Seq<char>)>,
    marks: Seq<(nat, char, char)>,
)
    requires
        rows_marked(rows, marks),
        casino.len() >= 2,
        address.len() >= 2,
        address[0] == casino[0],
        address[1] == casino[1],
        address[0] != 'h',
        address[0] != 'w',
        is_plain(address),
        is_plain(domain),
        (domain + "/"@).is_prefix_of(address),
    ensures
        is_group(games_of(casino, address, rows), casino, domain, casino[0], casino[1]),
{
    let games = games_of(casino, address, rows);
    assert forall|i: int, j: int| 0 <= i < j < games.len() implies (#[trigger] games[i]).id != (
    #[trigger] games[j]).id && games[i].url_pattern != games[j].url_pattern by {
        if games[i].id == games[j].id {
            let head = casino + "-"@;
            assert(games[i].id.skip(head.len() as int) =~= rows[i].0);
            assert(games[j].id.skip(head.len() as int) =~= rows[j].0);
            assert(marks[i] == marks[j]);
        }
        if games[i].url_pattern == games[j].url_pattern {
            assert(games[i].url_pattern.skip(address.len() as int) =~= rows[i].0);
            assert(games[j].url_pattern.skip(address.len() as int) =~= rows[j].0);
            assert(marks[i] == marks[j]);
        }
    }
    assert forall|i: int| 0 <= i < rows.len() implies in_group(
        #[trigger] games[i],
        casino,
        domain,
        casino[0],
        casino[1],
    ) by {
        let slug = rows[i].0;
        let pattern = address + slug;
        let below = domain + "/"@;
        assert(is_plain(pattern));
        lemma_plain_lowercase(pattern);
        lemma_plain_lowercase(domain);
        assert(pattern.subrange(0, below.len() as int) =~= address.subrange(0, below.len() as int));
        assert(pattern.subrange(0, domain.len() as int) =~= below.subrange(
            0,
            domain.len() as int,
        ));
        assert(below.subrange(0, domain.len() as int) =~= domain);
        assert(has_part_at(pattern, domain, 0));
        assert(pattern.skip(pattern.len() - slug.len()) =~= slug);
        lemma_plain_pattern(address, slug);
    }
}

/// The games of a new configuration, casino by casino.
spec fn standard_groups() -> (Seq<GameView>, Seq<GameView>, Seq<GameView>, Seq<GameView>) {
    (
        games_of("stake"@, "stake.com/casino/games/"@, stake_rows()),
        games_of("shuffle"@, "shuffle.com/games/originals/"@, shuffle_rows()),
        games_of("roobet"@, "roobet.com/casino/game/"@, roobet_rows()),
        games_of("thrill"@, "thrill.com/casino/play/thrill-"@, thrill_rows()),
    )
}

proof fn lemma_stake_group()
    ensures
        stake_rows().len() == 15,
        is_group(
            games_of("stake"@, "stake.com/casino/games/"@, stake_rows()),
            "stake"@,
            "stake.com"@,
            's',
            't',
        ),
{
    reveal_strlit("/");
    reveal_strlit("stake");
    reveal_strlit("stake.com/casino/games/");
    reveal_strlit("stake.com");
    lemma_stake_rows();
    let below = "stake.com"@ + "/"@;
    assert("stake.com/casino/games/"@.subrange(0, below.len() as int) =~= below);
    lemma_games_of(
        "stake"@,
        "stake.com/casino/games/"@,
        "stake.com"@,
        stake_rows(),
        stake_marks(),
    );
}

proof fn lemma_shuffle_group()
    ensures
        shuffle_rows().len() == 13,
        is_group(
            games_of("shuffle"@, "shuffle.com/games/originals/"@, shuffle_rows()),
            "shuffle"@,
            "shuffle.com"@,
            's',
            'h',
        ),
{
    reveal_strlit("/");
    reveal_strlit("shuffle");
    reveal_strlit("shuffle.com/games/originals/");
    reveal_strlit("shuffle.com");
    lemma_shuffle_rows();
    let below = "shuffle.com"@ + "/"@;
    assert("shuffle.com/games/originals/"@.subrange(0, below.len() as int) =~= below);
    lemma_games_of(
        "shuffle"@,
        "shuffle.com/games/originals/"@,
        "shuffle.com"@,
        shuffle_rows(),
        shuffle_marks(),
    );
}

proof fn lemma_roobet_group()
    ensures
        roobet_rows().len() == 8,
        is_group(
            games_of("roobet"@, "roobet.com/casino/game/"@, roobet_rows()),
            "roobet"@,
            "roobet.com"@,
            'r',
            'o',
        ),
{
    reveal_strlit("/");
    reveal_strlit("roobet");
    reveal_strlit("roobet.com/casino/game/");
    reveal_strlit("roobet.com");
    lemma_roobet_rows();
    let below = "roobet.com"@ + "/"@;
    assert("roobet.com/casino/game/"@.subrange(0, below.len() as int) =~= below);
    lemma_games_of(
        "roobet"@,
        "roobet.com/casino/game/"@,
        "roobet.com"@,
        roobet_rows(),
        roobet_marks(),
    );
}

proof fn lemma_thrill_group()
    ensures
        thrill_rows().len() == 6,
        is_group(
            games_of("thrill"@, "thrill.com/casino/play/thrill-"@, thrill_rows()),
            "thrill"@,
            "thrill.com"@,
            't',
            'h',
        ),
{
    reveal_strlit("/");
    reveal_strlit("thrill");
    reveal_strlit("thrill.com/casino/play/thrill-");
    reveal_strlit("thrill.com");
    lemma_thrill_rows();
    let below = "thrill.com"@ + "/"@;
    assert("thrill.com/casino/play/thrill-"@.subrange(0, below.len() as int) =~= below);
    lemma_games_of(
        "thrill"@,
        "thrill.com/casino/play/thrill-"@,
        "thrill.com"@,
        thrill_rows(),
        thrill_marks(),
    );
}

/// The standard games are forty-two: fifteen of Stake, then thirteen of Shuffle,
/// eight of Roobet and six of Thrill. Each has an identifier and a pattern of its
/// own, is named after its label, and is not blocked.
pub proof fn lemma_standard_games()
    ensures
        standard_games().len() == 42,
        game_ids_distinct(standard_games()),
        patterns_distinct(standard_games()),
        forall|i: int|
            0 <= i < 42 ==> (#[trigger] standard_games()[i]).casino == (if i < 15 {
                "stake"@
            } else if i < 28 {
                "shuffle"@
            } else if i < 36 {
                "roobet"@
            } else {
                "thrill"@
            }),
        forall|i: int|
            0 <= i < 42 ==> named_after_label(#[trigger] standard_games()[i])
                && !standard_games()[i].blocked,
{
    lemma_stake_group();
    lemma_shuffle_group();
    lemma_roobet_group();
    lemma_thrill_group();
    let (stake, shuffle, roobet, thrill) = standard_groups();
    let games = standard_games();
    assert(stake.len() == 15 && shuffle.len() == 13 && roobet.len() == 8 && thrill.len() == 6);
    assert forall|i: int| 0 <= i < 42 implies in_standard_group(#[trigger] games[i], i) by {
        lemma_standard_game(i);
    }
    assert forall|i: int, j: int| 0 <= i < j < games.len() implies (#[trigger] games[i]).id != (
    #[trigger] games[j]).id && games[i].url_pattern != games[j].url_pattern by {
        lemma_standard_game(i);
        lemma_standard_game(j);
        if i < 15 && j < 15 {
            assert(games[i] == stake[i] && games[j] == stake[j]);
        } else if 15 <= i && j < 28 {
            assert(games[i] == shuffle[i - 15] && games[j] == shuffle[j - 15]);
        } else if 28 <= i && j < 36 {
            assert(games[i] == roobet[i - 28] && games[j] == roobet[j - 28]);
        } else if 36 <= i {
            assert(games[i] == thrill[i - 36] && games[j] == thrill[j - 36]);
        }
    }
}

/// The game at that place is in the group that stands there.
spec fn in_standard_group(g: GameView, i: int) -> bool {
    if i < 15 {
        in_group(g, "stake"@, "stake.com"@, 's', 't')
    } else if i < 28 {
        in_group(g, "shuffle"@, "shuffle.com"@, 's', 'h')
    } else if i < 36 {
        in_group(g, "roobet"@, "roobet.com"@, 'r', 'o')
    } else {
        in_group(g, "thrill"@, "thrill.com"@, 't', 'h')
    }
}

proof fn lemma_standard_game(i: int)
    requires
        0 <= i < 42,
    ensures
        standard_games().len() == 42,
        in_standard_group(standard_games()[i], i),
{
    lemma_stake_group();
    lemma_shuffle_group();
    lemma_roobet_group();
    lemma_thrill_group();
    let (stake, shuffle, roobet, thrill) = standard_groups();
    let games = standard_games();
    assert(stake.len() == 15 && shuffle.len() == 13 && roobet.len() == 8 && thrill.len() == 6);
    if i < 15 {
        assert(games[i] == stake[i]);
    } else if i < 28 {
        assert(games[i] == shuffle[i - 15]);
    } else if i < 36 {
        assert(games[i] == roobet[i - 28]);
    } else {
        assert(games[i] == thrill[i - 36]);
    }
}

/// The place of the casino that the game at that place belongs to.
spec fn casino_place(i: int) -> int {
    if i < 15 {
        0
    } else if i < 28 {
        1
    } else if i < 36 {
        4
    } else {
        6
    }
}

/// Every game of a new configuration belongs to exactly one casino that is listed,
/// and its pattern starts with the domain of that casino and a slash.
pub proof fn lemma_standard_games_below_casinos()
    ensures
        games_below_casinos(fresh_config()),
        forall|i: int|
            0 <= i < standard_games().len() ==> exists|j: int|
                0 <= j < standard_casinos().len() && (#[trigger] standard_casinos()[j]).id == (
                #[trigger] standard_games()[i]).casino,
        forall|i: int, j: int|
            0 <= i < standard_games().len() && 0 <= j < standard_casinos().len() && (
            #[trigger] standard_casinos()[j]).id == (#[trigger] standard_games()[i]).casino ==> (
            standard_casinos()[j].domain + "/"@).is_prefix_of(standard_games()[i].url_pattern),
        casino_ids_distinct(standard_casinos()),
{
    lemma_standard_casinos();
    let cfg = fresh_config();
    let casinos = standard_casinos();
    let games = standard_games();
    lemma_standard_game(0);
    assert forall|i: int| 0 <= i < games.len() implies 0 <= casino_place(i) < casinos.len()
        && casinos[casino_place(i)].id == (#[trigger] games[i]).casino && (
    casinos[casino_place(i)].domain + "/"@).is_prefix_of(games[i].url_pattern) && has_part(
        lowercase(games[i].url_pattern),
        lowercase(casinos[casino_place(i)].domain),
    ) by {
        lemma_standard_game(i);
    }
    assert forall|i: int, j: int|
        0 <= i < games.len() && 0 <= j < casinos.len() && (#[trigger] casinos[j]).id == (
        #[trigger] games[i]).casino implies j == casino_place(i) by {
        let k = casino_place(i);
        assert(casinos[k].id == casinos[j].id);
    }
    assert forall|i: int, j: int|
        #![trigger cfg.games[i], cfg.casinos[j]]
        0 <= i < cfg.games.len() && 0 <= j < cfg.casinos.len() && cfg.casinos[j].id
            == cfg.games[i].casino implies has_part(
        lowercase(cfg.games[i].url_pattern),
        lowercase(cfg.casinos[j].domain),
    ) by {
        assert(casinos[j].id == games[i].casino);
    }
}

/// A new configuration is switched on and blocks nothing yet.
pub proof fn lemma_fresh_blocks_nothing()
    ensures
        fresh_config().enabled,
        patterns_in_force(fresh_config()).len() == 0,
{
    let cfg = fresh_config();
    if patterns_in_force(cfg).len() > 0 {
        let pattern = patterns_in_force(cfg)[0];
        assert(patterns_in_force(cfg).contains(pattern));
        lemma_patterns_come_from_switches(cfg, pattern);
        lemma_standard_games();
    }
}

proof fn lemma_standard_domains()
    ensures
        domains_in_ascii(standard_casinos()),
{
    reveal_strlit("stake.com");
    reveal_strlit("shuffle.com");
    reveal_strlit("bc.game");
    reveal_strlit("rainbet.com");
    reveal_strlit("roobet.com");
    reveal_strlit("gamdom.com");
    reveal_strlit("thrill.com");
    reveal_strlit("razed.com");
    reveal_strlit("chips.gg");
    reveal_strlit("shock.com");
    reveal_strlit("menace.bet");
    reveal_strlit("metawin.com");
    reveal_strlit("yeet.com");
    reveal_strlit("winna.com");
    reveal_strlit("acebet.com");
    reveal_strlit("500.casino");
    reveal_strlit("spartans.com");
    reveal_strlit("degen.com");
    assert(is_ascii_chars("stake.com"@));
    assert(is_ascii_chars("shuffle.com"@));
    assert(is_ascii_chars("bc.game"@));
    assert(is_ascii_chars("rainbet.com"@));
    assert(is_ascii_chars("roobet.com"@));
    assert(is_ascii_chars("gamdom.com"@));
    assert(is_ascii_chars("thrill.com"@));
    assert(is_ascii_chars("razed.com"@));
    assert(is_ascii_chars("chips.gg"@));
    assert(is_ascii_chars("shock.com"@));
    assert(is_ascii_chars("menace.bet"@));
    assert(is_ascii_chars("metawin.com"@));
    assert(is_ascii_chars("yeet.com"@));
    assert(is_ascii_chars("winna.com"@));
    assert(is_ascii_chars("acebet.com"@));
    assert(is_ascii_chars("500.casino"@));
    assert(is_ascii_chars("spartans.com"@));
    assert(is_ascii_chars("degen.com"@));
}

/// A new configuration is sound, and its domains are in ASCII. So nothing that is
/// blocked in it later gets weaker until a right code comes.
pub proof fn lemma_fresh_is_sound()
    ensures
        is_sound(fresh_config()),
        domains_in_ascii(fresh_config().casinos),
{
    lemma_standard_casinos();
    lemma_standard_domains();
    lemma_standard_games();
    lemma_standard_games_below_casinos();
}

} // verus!
