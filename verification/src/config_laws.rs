//! What configurations, patterns and changes to them mean, said by their parts.
use crate::config::{
    casino_blocked, fresh_config, game_patterns, hyphenated, is_blocked_all, loaded_config,
    not_alnum, pattern_of, patterns_in_force, roobet_rows, shuffle_rows, slug_of, stake_rows,
    standard_casinos, standard_games, thrill_rows, without_scheme, CasinoView, ConfigView, GameView,
};
use crate::defaults::{lemma_standard_games, named_after_label};
use crate::guarantees::{
    lemma_blocked_casino_in_force, lemma_blocked_game_in_force, lemma_patterns_come_from_switches,
};
use crate::html::{active_count, blocked_casino_ids};
use crate::monitor::is_match;
use crate::text::{has_part, lemma_split_by_single, nonempty, split_by, trimmed};
use crate::text_laws::{
    copies, lemma_copies_of_char, lemma_leading_copies_go, lemma_lowercase_of_parts,
    lemma_part_means_between, lemma_trailing_copies_go,
};
use crate::unicode::{is_alnum, lowercase};
use vstd::prelude::*;
use vstd::utf8::*;

verus! {

// ---------------------------------------------------------------------------
// What is shut
// ---------------------------------------------------------------------------

/// An address is shut exactly if the program is on and the address, in lower case,
/// holds the domain of a casino that is blocked as a whole, or the pattern of a
/// game that is blocked and has no casino that is blocked as a whole.
pub proof fn lemma_shut_by_a_switch(cfg: ConfigView, url: Seq<char>)
    ensures
        is_match(url, patterns_in_force(cfg)) <==> {
            &&& cfg.enabled
            &&& {
                ||| exists|i: int, a: Seq<char>, b: Seq<char>|
                    #![trigger cfg.casinos[i], a + lowercase(cfg.casinos[i].domain) + b]
                    0 <= i < cfg.casinos.len() && cfg.casinos[i].blocked_all && lowercase(url) == a
                        + lowercase(cfg.casinos[i].domain) + b
                ||| exists|i: int, a: Seq<char>, b: Seq<char>|
                    #![trigger cfg.games[i], a + lowercase(cfg.games[i].url_pattern) + b]
                    0 <= i < cfg.games.len() && cfg.games[i].blocked && (forall|j: int|
                        0 <= j < cfg.casinos.len() && (#[trigger] cfg.casinos[j]).id
                            == cfg.games[i].casino ==> !cfg.casinos[j].blocked_all) && lowercase(
                        url,
                    ) == a + lowercase(cfg.games[i].url_pattern) + b
            }
        },
{
    let patterns = patterns_in_force(cfg);
    let lower = lowercase(url);
    if is_match(url, patterns) {
        let k = choose|k: int| 0 <= k < patterns.len() && has_part(lower, #[trigger] patterns[k]);
        let pattern = patterns[k];
        assert(patterns.contains(pattern));
        lemma_patterns_come_from_switches(cfg, pattern);
        lemma_part_means_between(lower, pattern);
        let (a, b) = choose|a: Seq<char>, b: Seq<char>| lower == #[trigger] (a + pattern + b);
        if exists|i: int|
            0 <= i < cfg.casinos.len() && (#[trigger] cfg.casinos[i]).blocked_all && lowercase(
                cfg.casinos[i].domain,
            ) == pattern {
            let i = choose|i: int|
                0 <= i < cfg.casinos.len() && (#[trigger] cfg.casinos[i]).blocked_all && lowercase(
                    cfg.casinos[i].domain,
                ) == pattern;
            assert(lower == a + lowercase(cfg.casinos[i].domain) + b);
        } else {
            let i = choose|i: int|
                0 <= i < cfg.games.len() && (#[trigger] cfg.games[i]).blocked && !casino_blocked(
                    cfg.casinos,
                    cfg.games[i].casino,
                ) && lowercase(cfg.games[i].url_pattern) == pattern;
            assert(lower == a + lowercase(cfg.games[i].url_pattern) + b);
        }
    }
    if cfg.enabled {
        assert forall|i: int, a: Seq<char>, b: Seq<char>|
            #![trigger cfg.casinos[i], a + lowercase(cfg.casinos[i].domain) + b]
            0 <= i < cfg.casinos.len() && cfg.casinos[i].blocked_all && lower == a + lowercase(
                cfg.casinos[i].domain,
            ) + b implies is_match(url, patterns) by {
            let pattern = lowercase(cfg.casinos[i].domain);
            lemma_blocked_casino_in_force(cfg, i);
            lemma_part_means_between(lower, pattern);
            let k = choose|k: int| 0 <= k < patterns.len() && patterns[k] == pattern;
            assert(has_part(lower, patterns[k]));
        }
        assert forall|i: int, a: Seq<char>, b: Seq<char>|
            #![trigger cfg.games[i], a + lowercase(cfg.games[i].url_pattern) + b]
            0 <= i < cfg.games.len() && cfg.games[i].blocked && (forall|j: int|
                0 <= j < cfg.casinos.len() && (#[trigger] cfg.casinos[j]).id == cfg.games[i].casino
                    ==> !cfg.casinos[j].blocked_all) && lower == a + lowercase(
                cfg.games[i].url_pattern,
            ) + b implies is_match(url, patterns) by {
            let pattern = lowercase(cfg.games[i].url_pattern);
            lemma_blocked_game_in_force(cfg, i);
            lemma_part_means_between(lower, pattern);
            let k = choose|k: int| 0 <= k < patterns.len() && patterns[k] == pattern;
            assert(has_part(lower, patterns[k]));
        }
    }
}

// ---------------------------------------------------------------------------
// Loading
// ---------------------------------------------------------------------------

/// A stored configuration that has a casino, or whose set-up is complete, is run
/// with as it was stored. Any other keeps everything but its casinos, which are
/// the standard ones then. Without a stored configuration a new one is run with.
pub proof fn lemma_stored_is_kept(cfg: ConfigView)
    ensures
        cfg.casinos.len() > 0 || cfg.setup_complete ==> loaded_config(Some(cfg)) == cfg,
        loaded_config(Some(cfg)).enabled == cfg.enabled,
        loaded_config(Some(cfg)).games == cfg.games,
        loaded_config(Some(cfg)).totp_secret_b32 == cfg.totp_secret_b32,
        loaded_config(Some(cfg)).setup_complete == cfg.setup_complete,
        cfg.casinos.len() == 0 && !cfg.setup_complete ==> loaded_config(Some(cfg)).casinos
            == standard_casinos(),
        loaded_config(None) == fresh_config(),
{
}

/// Every address that was shut when a configuration was stored is shut after it
/// is loaded, and no other is.
pub proof fn lemma_loading_keeps_blocks(cfg: ConfigView, url: Seq<char>)
    ensures
        is_match(url, patterns_in_force(loaded_config(Some(cfg)))) == is_match(
            url,
            patterns_in_force(cfg),
        ),
{
    let after = loaded_config(Some(cfg));
    if cfg.casinos.len() == 0 && !cfg.setup_complete {
        let casinos = after.casinos;
        assert forall|i: int|
            0 <= i < casinos.len() implies !(#[trigger] casinos[i]).blocked_all by {}
        assert forall|id: Seq<char>| !casino_blocked(casinos, id) && !casino_blocked(
            cfg.casinos,
            id,
        ) by {}
        lemma_shut_by_a_switch(cfg, url);
        lemma_shut_by_a_switch(after, url);
        assert(after.games == cfg.games);
        if is_match(url, patterns_in_force(cfg)) {
            let (i, a, b) = choose|i: int, a: Seq<char>, b: Seq<char>|
                #![trigger cfg.games[i], a + lowercase(cfg.games[i].url_pattern) + b]
                0 <= i < cfg.games.len() && cfg.games[i].blocked && (forall|j: int|
                    0 <= j < cfg.casinos.len() && (#[trigger] cfg.casinos[j]).id
                        == cfg.games[i].casino ==> !cfg.casinos[j].blocked_all) && lowercase(url)
                    == a + lowercase(cfg.games[i].url_pattern) + b;
            assert(after.games[i].blocked && lowercase(url) == a + lowercase(
                after.games[i].url_pattern,
            ) + b);
        }
        if is_match(url, patterns_in_force(after)) {
            let (i, a, b) = choose|i: int, a: Seq<char>, b: Seq<char>|
                #![trigger after.games[i], a + lowercase(after.games[i].url_pattern) + b]
                0 <= i < after.games.len() && after.games[i].blocked && (forall|j: int|
                    0 <= j < after.casinos.len() && (#[trigger] after.casinos[j]).id
                        == after.games[i].casino ==> !after.casinos[j].blocked_all) && lowercase(
                    url,
                ) == a + lowercase(after.games[i].url_pattern) + b;
            assert(cfg.games[i].blocked && lowercase(url) == a + lowercase(
                cfg.games[i].url_pattern,
            ) + b);
        }
    }
}

/// A new configuration is on, has no secret and has yet to be set up. None of its
/// casinos is blocked.
pub proof fn lemma_new_configuration()
    ensures
        fresh_config().enabled,
        fresh_config().totp_secret_b32 is None,
        !fresh_config().setup_complete,
        fresh_config().casinos == standard_casinos(),
        fresh_config().games == standard_games(),
        standard_casinos().len() == 18,
        forall|i: int|
            0 <= i < 18 ==> !(#[trigger] standard_casinos()[i]).blocked_all,
{
}

/// Fourteen of the standard casinos are at the name they go by, below `.com`; the
/// others are BC.Game, Chips, Menace and 500 Casino.
pub proof fn lemma_standard_domains()
    ensures
        forall|i: int|
            0 <= i < 18 && i != 2 && i != 8 && i != 10 && i != 15 ==> (
            #[trigger] standard_casinos()[i]).domain == standard_casinos()[i].id + ".com"@,
        standard_casinos()[2].domain == "bc.game"@,
        standard_casinos()[8].domain == "chips.gg"@,
        standard_casinos()[10].domain == "menace.bet"@,
        standard_casinos()[15].domain == "500.casino"@,
{
    reveal_strlit(".com");
    reveal_strlit("stake");
    reveal_strlit("stake.com");
    reveal_strlit("shuffle");
    reveal_strlit("shuffle.com");
    reveal_strlit("rainbet");
    reveal_strlit("rainbet.com");
    reveal_strlit("roobet");
    reveal_strlit("roobet.com");
    reveal_strlit("gamdom");
    reveal_strlit("gamdom.com");
    reveal_strlit("thrill");
    reveal_strlit("thrill.com");
    reveal_strlit("razed");
    reveal_strlit("razed.com");
    reveal_strlit("shock");
    reveal_strlit("shock.com");
    reveal_strlit("metawin");
    reveal_strlit("metawin.com");
    reveal_strlit("yeet");
    reveal_strlit("yeet.com");
    reveal_strlit("winna");
    reveal_strlit("winna.com");
    reveal_strlit("acebet");
    reveal_strlit("acebet.com");
    reveal_strlit("spartans");
    reveal_strlit("spartans.com");
    reveal_strlit("degen");
    reveal_strlit("degen.com");
    assert("stake.com"@ =~= "stake"@ + ".com"@);
    assert("shuffle.com"@ =~= "shuffle"@ + ".com"@);
    assert("rainbet.com"@ =~= "rainbet"@ + ".com"@);
    assert("roobet.com"@ =~= "roobet"@ + ".com"@);
    assert("gamdom.com"@ =~= "gamdom"@ + ".com"@);
    assert("thrill.com"@ =~= "thrill"@ + ".com"@);
    assert("razed.com"@ =~= "razed"@ + ".com"@);
    assert("shock.com"@ =~= "shock"@ + ".com"@);
    assert("metawin.com"@ =~= "metawin"@ + ".com"@);
    assert("yeet.com"@ =~= "yeet"@ + ".com"@);
    assert("winna.com"@ =~= "winna"@ + ".com"@);
    assert("acebet.com"@ =~= "acebet"@ + ".com"@);
    assert("spartans.com"@ =~= "spartans"@ + ".com"@);
    assert("degen.com"@ =~= "degen"@ + ".com"@);
}

/// The standard casinos by name.
pub proof fn lemma_standard_casino_names()
    ensures
        standard_casinos()[0].id == "stake"@ && standard_casinos()[0].label == "Stake"@,
        standard_casinos()[1].id == "shuffle"@ && standard_casinos()[1].label == "Shuffle"@,
        standard_casinos()[2].id == "bcgame"@ && standard_casinos()[2].label == "BC.Game"@,
        standard_casinos()[3].id == "rainbet"@ && standard_casinos()[3].label == "Rainbet"@,
        standard_casinos()[4].id == "roobet"@ && standard_casinos()[4].label == "Roobet"@,
        standard_casinos()[5].id == "gamdom"@ && standard_casinos()[5].label == "Gamdom"@,
        standard_casinos()[6].id == "thrill"@ && standard_casinos()[6].label == "Thrill"@,
        standard_casinos()[7].id == "razed"@ && standard_casinos()[7].label == "Razed"@,
        standard_casinos()[8].id == "chips"@ && standard_casinos()[8].label == "Chips"@,
        standard_casinos()[9].id == "shock"@ && standard_casinos()[9].label == "Shock"@,
        standard_casinos()[10].id == "menace"@ && standard_casinos()[10].label == "Menace"@,
        standard_casinos()[11].id == "metawin"@ && standard_casinos()[11].label == "MetaWin"@,
        standard_casinos()[12].id == "yeet"@ && standard_casinos()[12].label == "Yeet"@,
        standard_casinos()[13].id == "winna"@ && standard_casinos()[13].label == "Winna"@,
        standard_casinos()[14].id == "acebet"@ && standard_casinos()[14].label == "Acebet"@,
        standard_casinos()[15].id == "500casino"@ && standard_casinos()[15].label == "500 Casino"@,
        standard_casinos()[16].id == "spartans"@ && standard_casinos()[16].label == "Spartans"@,
        standard_casinos()[17].id == "degen"@ && standard_casinos()[17].label == "Degen"@,
{
}

/// The standard games by label: those of Stake, then those of Shuffle, Roobet and
/// Thrill.
pub proof fn lemma_standard_game_labels()
    ensures
        standard_games()[0].label == "Dice"@,
        standard_games()[1].label == "Limbo"@,
        standard_games()[2].label == "Mines"@,
        standard_games()[3].label == "Plinko"@,
        standard_games()[4].label == "Crash"@,
        standard_games()[5].label == "Hilo"@,
        standard_games()[6].label == "Keno"@,
        standard_games()[7].label == "Wheel"@,
        standard_games()[8].label == "Blackjack"@,
        standard_games()[9].label == "Baccarat"@,
        standard_games()[10].label == "Roulette"@,
        standard_games()[11].label == "Diamonds"@,
        standard_games()[12].label == "Dragon Tower"@,
        standard_games()[13].label == "Slide"@,
        standard_games()[14].label == "Video Poker"@,
        standard_games()[15].label == "Dice"@,
        standard_games()[16].label == "Mines"@,
        standard_games()[17].label == "Plinko"@,
        standard_games()[18].label == "Limbo"@,
        standard_games()[19].label == "Keno"@,
        standard_games()[20].label == "Baccarat"@,
        standard_games()[21].label == "Blackjack"@,
        standard_games()[22].label == "Chicken"@,
        standard_games()[23].label == "Tower"@,
        standard_games()[24].label == "Crash"@,
        standard_games()[25].label == "Hilo"@,
        standard_games()[26].label == "Wheel"@,
        standard_games()[27].label == "Roulette"@,
        standard_games()[28].label == "Dice"@,
        standard_games()[29].label == "Mines"@,
        standard_games()[30].label == "Plinko"@,
        standard_games()[31].label == "Crash"@,
        standard_games()[32].label == "Keno"@,
        standard_games()[33].label == "Towers"@,
        standard_games()[34].label == "Slide"@,
        standard_games()[35].label == "Mission Uncrossable"@,
        standard_games()[36].label == "Limbo"@,
        standard_games()[37].label == "Blackjack"@,
        standard_games()[38].label == "Dice"@,
        standard_games()[39].label == "Mines"@,
        standard_games()[40].label == "Crash"@,
        standard_games()[41].label == "Plinko"@,
{
}

/// The address of each standard game is its label, as a slug, below the place that
/// its casino has for games.
pub proof fn lemma_standard_game_addresses(i: int)
    requires
        0 <= i < 42,
    ensures
        standard_games()[i].url_pattern == (if i < 15 {
            "stake.com/casino/games/"@
        } else if i < 28 {
            "shuffle.com/games/originals/"@
        } else if i < 36 {
            "roobet.com/casino/game/"@
        } else {
            "thrill.com/casino/play/thrill-"@
        }) + slug_of(standard_games()[i].label),
        standard_games()[i].id == standard_games()[i].casino + "-"@ + slug_of(
            standard_games()[i].label,
        ),
{
    lemma_standard_games();
    let g = standard_games()[i];
    assert(named_after_label(g));
    let slug = if i < 15 {
        stake_rows()[i].0
    } else if i < 28 {
        shuffle_rows()[i - 15].0
    } else if i < 36 {
        roobet_rows()[i - 28].0
    } else {
        thrill_rows()[i - 36].0
    };
    let head = g.casino + "-"@;
    assert(g.id == head + slug);
    assert(slug =~= g.id.skip(head.len() as int));
    assert(slug_of(g.label) =~= g.id.skip(head.len() as int));
}

// ---------------------------------------------------------------------------
// Patterns
// ---------------------------------------------------------------------------

/// An address, trimmed and in lower case, is taken apart as a scheme or none,
/// `www.` any number of times, a host with a path, and any number of slashes. The
/// host with its path is its pattern, whole.
pub proof fn lemma_pattern_is_host_and_path(
    address: Seq<char>,
    scheme: Seq<char>,
    n: nat,
    p: Seq<char>,
    m: nat,
)
    requires
        lowercase(trimmed(address)) == scheme + copies("www."@, n) + p + copies(seq!['/'], m),
        scheme == Seq::<char>::empty() || scheme == "http://"@ || scheme == "https://"@,
        !"www."@.is_prefix_of(p),
        p.len() > 0 ==> p.last() != '/',
        scheme.len() == 0 && n == 0 ==> !"http://"@.is_prefix_of(p + copies(seq!['/'], m))
            && !"https://"@.is_prefix_of(p + copies(seq!['/'], m)),
    ensures
        pattern_of(address) == p,
{
    reveal_strlit("http://");
    reveal_strlit("https://");
    reveal_strlit("www.");
    let tail = p + copies(seq!['/'], m);
    let rest = copies("www."@, n) + tail;
    let whole = lowercase(trimmed(address));
    assert(whole =~= scheme + rest);
    lemma_copies_of_char('/', m);
    if scheme.len() == 0 {
        assert(whole =~= rest);
        if n > 0 {
            assert(whole[0] == 'w');
            if "http://"@.is_prefix_of(whole) {
                assert(whole.subrange(0, 7)[0] == 'h');
            }
            if "https://"@.is_prefix_of(whole) {
                assert(whole.subrange(0, 8)[0] == 'h');
            }
        } else {
            assert(rest =~= tail);
        }
        assert(without_scheme(whole) == rest);
    } else {
        assert(whole.subrange(0, scheme.len() as int) =~= scheme);
        assert(whole.skip(scheme.len() as int) =~= rest);
        if scheme == "http://"@ && "https://"@.is_prefix_of(whole) {
            assert(whole.subrange(0, 8)[4] == 's');
            assert(whole[4] == ':');
        }
        assert(without_scheme(whole) == rest);
    }
    assert(!"www."@.is_prefix_of(tail)) by {
        if "www."@.is_prefix_of(tail) {
            assert(tail.subrange(0, 4) == "www."@);
            if p.len() >= 4 {
                assert(p.subrange(0, 4) =~= tail.subrange(0, 4));
            } else {
                assert(tail.subrange(0, 4)[3] == '.');
                assert(tail[3] == '/');
            }
        }
    }
    lemma_leading_copies_go("www."@, n, tail);
    lemma_trailing_copies_go(p, '/', m);
}

// ---------------------------------------------------------------------------
// Slugs
// ---------------------------------------------------------------------------

/// The slug of a label that is all letters and numbers is the label in lower case.
pub proof fn lemma_slug_of_word(s: Seq<char>)
    requires
        forall|i: int| 0 <= i < lowercase(s).len() ==> is_alnum(#[trigger] lowercase(s)[i]),
    ensures
        slug_of(s) == lowercase(s),
{
    let lower = lowercase(s);
    assert forall|i: int| 0 <= i < lower.len() implies !not_alnum()(#[trigger] lower[i]) by {}
    lemma_split_by_single(lower, not_alnum());
    reveal(Seq::filter);
    let pieces = seq![lower];
    assert(pieces.drop_last() =~= Seq::empty());
    assert(Seq::<Seq<char>>::empty().filter(nonempty()) =~= Seq::empty());
    if lower.len() > 0 {
        assert(pieces.filter(nonempty()) =~= seq![lower]);
    } else {
        assert(pieces.filter(nonempty()) =~= Seq::empty());
        assert(lower =~= Seq::empty());
    }
}

proof fn lemma_words_parted(a: Seq<char>, c: char, b: Seq<char>)
    requires
        !is_alnum(c),
    ensures
        split_by(a + seq![c] + b, not_alnum()).filter(nonempty()) == split_by(
            a,
            not_alnum(),
        ).filter(nonempty()) + split_by(b, not_alnum()).filter(nonempty()),
    decreases b.len(),
{
    let sep = not_alnum();
    lemma_split_parted(a, c, b);
    Seq::filter_distributes_over_add(split_by(a, sep), split_by(b, sep), nonempty());
}

proof fn lemma_split_parted(a: Seq<char>, c: char, b: Seq<char>)
    requires
        !is_alnum(c),
    ensures
        split_by(a + seq![c] + b, not_alnum()) == split_by(a, not_alnum()) + split_by(
            b,
            not_alnum(),
        ),
        split_by(b, not_alnum()).len() > 0,
    decreases b.len(),
{
    let sep = not_alnum();
    let whole = a + seq![c] + b;
    if b.len() == 0 {
        assert(whole =~= a.push(c));
        assert(whole.drop_last() =~= a);
        assert(sep(c));
        assert(split_by(b, sep) =~= seq![Seq::<char>::empty()]);
        assert(split_by(whole, sep) =~= split_by(a, sep) + split_by(b, sep));
    } else {
        let front = b.drop_last();
        lemma_split_parted(a, c, front);
        assert(whole.drop_last() =~= a + seq![c] + front);
        assert(whole.last() == b.last());
        let before = split_by(whole.drop_last(), sep);
        assert(before.last() == split_by(front, sep).last());
        assert(split_by(whole, sep) =~= split_by(a, sep) + split_by(b, sep));
    }
}

proof fn lemma_hyphenated_parts(a: Seq<Seq<char>>, b: Seq<Seq<char>>)
    requires
        a.len() > 0,
        b.len() > 0,
    ensures
        hyphenated(a + b) == hyphenated(a) + seq!['-'] + hyphenated(b),
    decreases b.len(),
{
    let all = a + b;
    assert(all.drop_last() =~= a + b.drop_last());
    assert(all.last() == b.last());
    if b.len() == 1 {
        assert(all.drop_last() =~= a);
        assert(hyphenated(all) =~= hyphenated(a) + seq!['-'] + b[0]);
    } else {
        lemma_hyphenated_parts(a, b.drop_last());
        assert(hyphenated(all) =~= hyphenated(a) + seq!['-'] + (hyphenated(b.drop_last()).push('-')
            + b.last()));
    }
}

proof fn lemma_hyphenated_len(words: Seq<Seq<char>>)
    requires
        words.len() > 0,
        forall|k: int| 0 <= k < words.len() ==> (#[trigger] words[k]).len() > 0,
    ensures
        hyphenated(words).len() > 0,
{
    if words.len() == 1 {
        assert(words[0].len() > 0);
    }
}

/// Whatever is neither a letter nor a number parts a label in two: its slug is the
/// slugs of both with one hyphen between them, or one of them where the other is
/// empty.
pub proof fn lemma_slug_of_parts(s: Seq<char>, a: Seq<char>, c: char, b: Seq<char>)
    requires
        lowercase(s) == lowercase(a) + seq![c] + lowercase(b),
        !is_alnum(c),
    ensures
        slug_of(s) == if slug_of(a).len() == 0 {
            slug_of(b)
        } else if slug_of(b).len() == 0 {
            slug_of(a)
        } else {
            slug_of(a) + seq!['-'] + slug_of(b)
        },
{
    let x = split_by(lowercase(a), not_alnum()).filter(nonempty());
    let y = split_by(lowercase(b), not_alnum()).filter(nonempty());
    lemma_words_parted(lowercase(a), c, lowercase(b));
    assert forall|k: int| 0 <= k < x.len() implies (#[trigger] x[k]).len() > 0 by {
        split_by(lowercase(a), not_alnum()).lemma_filter_pred(nonempty(), k);
    }
    assert forall|k: int| 0 <= k < y.len() implies (#[trigger] y[k]).len() > 0 by {
        split_by(lowercase(b), not_alnum()).lemma_filter_pred(nonempty(), k);
    }
    if x.len() == 0 {
        assert(x + y =~= y);
    } else if y.len() == 0 {
        assert(x + y =~= x);
        lemma_hyphenated_len(x);
    } else {
        lemma_hyphenated_len(x);
        lemma_hyphenated_len(y);
        lemma_hyphenated_parts(x, y);
    }
}

/// In ASCII every character that is neither a letter nor a digit does so.
pub proof fn lemma_slug_of_parts_in_ascii(a: Seq<char>, c: char, b: Seq<char>)
    requires
        is_ascii_chars(a),
        is_ascii_chars(b),
        (c as u32) < 128,
        !('0' <= c <= '9' || 'A' <= c <= 'Z' || 'a' <= c <= 'z'),
    ensures
        slug_of(a + seq![c] + b) == if slug_of(a).len() == 0 {
            slug_of(b)
        } else if slug_of(b).len() == 0 {
            slug_of(a)
        } else {
            slug_of(a) + seq!['-'] + slug_of(b)
        },
{
    lemma_lowercase_of_parts(a, seq![c]);
    lemma_lowercase_of_parts(a + seq![c], b);
    assert(lowercase(seq![c]) =~= seq![c]);
    lemma_slug_of_parts(a + seq![c] + b, a, c, b);
}

// ---------------------------------------------------------------------------
// The list of patterns
// ---------------------------------------------------------------------------

/// The list of patterns has the domain of each casino that is blocked as a whole,
/// in their order, then the pattern of each game that is blocked and has no such
/// casino, in theirs, and nothing while the program is paused.
pub proof fn lemma_patterns_one_by_one(cfg: ConfigView, c: CasinoView, g: GameView)
    ensures
        !cfg.enabled ==> patterns_in_force(cfg).len() == 0,
        cfg.casinos.len() == 0 && cfg.games.len() == 0 ==> patterns_in_force(cfg).len() == 0,
        cfg.enabled && cfg.games.len() == 0 ==> patterns_in_force(
            (ConfigView { casinos: cfg.casinos.push(c), ..cfg }),
        ) == if c.blocked_all {
            patterns_in_force(cfg).push(lowercase(c.domain))
        } else {
            patterns_in_force(cfg)
        },
        cfg.enabled ==> patterns_in_force((ConfigView { games: cfg.games.push(g), ..cfg })) == if (
        g.blocked && forall|j: int|
            0 <= j < cfg.casinos.len() && (#[trigger] cfg.casinos[j]).id == g.casino
                ==> !cfg.casinos[j].blocked_all) {
            patterns_in_force(cfg).push(lowercase(g.url_pattern))
        } else {
            patterns_in_force(cfg)
        },
{
    reveal(Seq::filter);
    let more = ConfigView { casinos: cfg.casinos.push(c), ..cfg };
    let grown = ConfigView { games: cfg.games.push(g), ..cfg };
    assert(cfg.casinos.push(c).drop_last() =~= cfg.casinos);
    assert(cfg.games.push(g).drop_last() =~= cfg.games);
    if cfg.enabled && cfg.games.len() == 0 {
        assert(game_patterns(more.casinos, more.games) =~= Seq::empty());
        assert(game_patterns(cfg.casinos, cfg.games) =~= Seq::empty());
        assert(patterns_in_force(more) =~= if c.blocked_all {
            patterns_in_force(cfg).push(lowercase(c.domain))
        } else {
            patterns_in_force(cfg)
        });
    }
    if cfg.enabled {
        let alone = g.blocked && !casino_blocked(cfg.casinos, g.casino);
        assert(patterns_in_force(grown) =~= if alone {
            patterns_in_force(cfg).push(lowercase(g.url_pattern))
        } else {
            patterns_in_force(cfg)
        });
    }
}

/// The number on the panel goes up by one with a casino that is blocked as a whole
/// and shares its identifier with no other such, and by one with a game that is
/// blocked on its own.
pub proof fn lemma_count_one_by_one(cfg: ConfigView, c: CasinoView, g: GameView)
    ensures
        cfg.casinos.len() == 0 && cfg.games.len() == 0 ==> active_count(cfg) == 0,
        cfg.games.len() == 0 ==> active_count((ConfigView { casinos: cfg.casinos.push(c), ..cfg }))
            == active_count(cfg) + if (c.blocked_all && forall|j: int|
            0 <= j < cfg.casinos.len() && (#[trigger] cfg.casinos[j]).id == c.id
                ==> !cfg.casinos[j].blocked_all) {
            1nat
        } else {
            0nat
        },
        active_count((ConfigView { games: cfg.games.push(g), ..cfg })) == active_count(cfg) + if (
        g.blocked && forall|j: int|
            0 <= j < cfg.casinos.len() && (#[trigger] cfg.casinos[j]).id == g.casino
                ==> !cfg.casinos[j].blocked_all) {
            1nat
        } else {
            0nat
        },
{
    reveal(Seq::filter);
    let more = cfg.casinos.push(c);
    assert(more.drop_last() =~= cfg.casinos);
    assert(cfg.games.push(g).drop_last() =~= cfg.games);
    assert forall|id: Seq<char>| blocked_casino_ids(more).contains(id) == (blocked_casino_ids(
        cfg.casinos,
    ).contains(id) || (c.blocked_all && c.id == id)) by {
        lemma_blocked_id(more, id);
        lemma_blocked_id(cfg.casinos, id);
        assert(more[cfg.casinos.len() as int] == c);
        if casino_blocked(cfg.casinos, id) {
            let i = choose|i: int|
                0 <= i < cfg.casinos.len() && (#[trigger] cfg.casinos[i]).blocked_all
                    && cfg.casinos[i].id == id;
            assert(more[i].blocked_all && more[i].id == id);
        }
        if casino_blocked(more, id) && !(c.blocked_all && c.id == id) {
            let i = choose|i: int|
                0 <= i < more.len() && (#[trigger] more[i]).blocked_all && more[i].id == id;
            assert(cfg.casinos[i] == more[i]);
        }
    }
    if c.blocked_all {
        assert(blocked_casino_ids(more) =~= blocked_casino_ids(cfg.casinos).insert(c.id));
    } else {
        assert(blocked_casino_ids(more) =~= blocked_casino_ids(cfg.casinos));
    }
    lemma_blocked_id(cfg.casinos, c.id);
    if cfg.casinos.len() == 0 {
        assert forall|id: Seq<char>| !blocked_casino_ids(cfg.casinos).contains(id) by {
            lemma_blocked_id(cfg.casinos, id);
        }
        assert(blocked_casino_ids(cfg.casinos) =~= Set::empty());
    }
}

proof fn lemma_blocked_id(casinos: Seq<CasinoView>, id: Seq<char>)
    ensures
        blocked_casino_ids(casinos).contains(id) == casino_blocked(casinos, id),
{
    let kept = casinos.filter(is_blocked_all());
    let ids = kept.map_values(|c: CasinoView| c.id);
    if ids.contains(id) {
        let k = choose|k: int| 0 <= k < ids.len() && ids[k] == id;
        casinos.lemma_filter_pred(is_blocked_all(), k);
        assert(kept.contains(kept[k]));
        casinos.lemma_filter_contains_rev(is_blocked_all(), kept[k]);
        let i = choose|i: int| 0 <= i < casinos.len() && casinos[i] == kept[k];
        assert(casinos[i].blocked_all && casinos[i].id == id);
    }
    if casino_blocked(casinos, id) {
        let i = choose|i: int|
            0 <= i < casinos.len() && (#[trigger] casinos[i]).blocked_all && casinos[i].id == id;
        casinos.lemma_filter_contains(is_blocked_all(), i);
        let k = choose|k: int| 0 <= k < kept.len() && kept[k] == casinos[i];
        assert(ids[k] == id);
    }
}

} // verus!
