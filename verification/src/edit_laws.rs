//! What the changes that the control panel asks for come to.
use crate::config::{pattern_of, patterns_in_force, slug_of, CasinoView, ConfigView, GameView};
use crate::config_laws::{lemma_pattern_is_host_and_path, lemma_shut_by_a_switch};
use crate::edit::{
    added_pattern, base_id, can_add, casino_domain, casino_field, casino_freed, casino_was_blocked,
    checked_config, game_field, game_freed, game_was_blocked, id_used, is_first_unused,
    lemma_trimmed_twice, lemma_unused_id, numbered_id, unused_id, weakens, with_added, with_removed,
};
use crate::form::field;
use crate::guarantees::{casino_ids_distinct, game_ids_distinct, lemma_adding_keeps_blocks};
use crate::monitor::is_match;
use crate::text::{decimal, has_part, trimmed};
use crate::text_laws::{
    copies, lemma_copies_of_char, lemma_leading_copies_go, lemma_part_means_between,
};
use crate::unicode::lowercase;
use vstd::prelude::*;

verus! {

// ---------------------------------------------------------------------------
// Switches
// ---------------------------------------------------------------------------

/// After a save every switch is on exactly if its checkbox came with the form: the
/// one of the program, that of each casino and that of each game. Nothing else
/// changes.
pub proof fn lemma_switches_follow_the_form(
    cfg: ConfigView,
    body: Map<Seq<char>, Seq<char>>,
    i: int,
)
    ensures
        ({
            let after = checked_config(cfg, body);
            &&& after.enabled == body.contains_key("enabled"@)
            &&& after.totp_secret_b32 == cfg.totp_secret_b32
            &&& after.setup_complete == cfg.setup_complete
            &&& after.casinos.len() == cfg.casinos.len()
            &&& after.games.len() == cfg.games.len()
            &&& 0 <= i < cfg.casinos.len() ==> {
                &&& after.casinos[i].id == cfg.casinos[i].id
                &&& after.casinos[i].label == cfg.casinos[i].label
                &&& after.casinos[i].domain == cfg.casinos[i].domain
                &&& after.casinos[i].blocked_all == body.contains_key(
                    "c_"@ + cfg.casinos[i].id + "_all"@,
                )
            }
            &&& 0 <= i < cfg.games.len() ==> {
                &&& after.games[i].id == cfg.games[i].id
                &&& after.games[i].casino == cfg.games[i].casino
                &&& after.games[i].label == cfg.games[i].label
                &&& after.games[i].url_pattern == cfg.games[i].url_pattern
                &&& after.games[i].blocked == body.contains_key("g_"@ + cfg.games[i].id)
            }
        }),
{
}

/// The names of the checkboxes of a casino and of a game.
pub proof fn lemma_checkbox_names(id: Seq<char>)
    ensures
        casino_field(id) == "c_"@ + id + "_all"@,
        game_field(id) == "g_"@ + id,
{
}

/// Where several casinos share an identifier, the last of them tells whether it
/// was blocked; others make no difference. So it is with games.
pub proof fn lemma_last_one_tells(
    casinos: Seq<CasinoView>,
    c: CasinoView,
    games: Seq<GameView>,
    g: GameView,
    id: Seq<char>,
)
    ensures
        !casino_was_blocked(Seq::empty(), id),
        casino_was_blocked(casinos.push(c), c.id) == c.blocked_all,
        id != c.id ==> casino_was_blocked(casinos.push(c), id) == casino_was_blocked(casinos, id),
        !game_was_blocked(Seq::empty(), id),
        game_was_blocked(games.push(g), g.id) == g.blocked,
        id != g.id ==> game_was_blocked(games.push(g), id) == game_was_blocked(games, id),
{
    lemma_last_casino(casinos, c, id);
    lemma_last_game(games, g, id);
}

proof fn lemma_last_casino(casinos: Seq<CasinoView>, c: CasinoView, id: Seq<char>)
    ensures
        casino_was_blocked(casinos.push(c), c.id) == c.blocked_all,
        id != c.id ==> casino_was_blocked(casinos.push(c), id) == casino_was_blocked(casinos, id),
{
    let all = casinos.push(c);
    let n = casinos.len() as int;
    assert(all[n] == c);
    if casino_was_blocked(all, c.id) {
        let k = choose|k: int|
            #![trigger all[k]]
            0 <= k < all.len() && all[k].id == c.id && all[k].blocked_all && (forall|j: int|
                k < j < all.len() ==> (#[trigger] all[j]).id != c.id);
        assert(!(k < n));
    }
    if id != c.id {
        if casino_was_blocked(casinos, id) {
            let k = choose|k: int|
                #![trigger casinos[k]]
                0 <= k < casinos.len() && casinos[k].id == id && casinos[k].blocked_all && (
                forall|j: int| k < j < casinos.len() ==> (#[trigger] casinos[j]).id != id);
            assert(all[k] == casinos[k]);
            assert forall|j: int| k < j < all.len() implies (#[trigger] all[j]).id != id by {
                if j < n {
                    assert(casinos[j].id != id);
                }
            }
        }
        if casino_was_blocked(all, id) {
            let k = choose|k: int|
                #![trigger all[k]]
                0 <= k < all.len() && all[k].id == id && all[k].blocked_all && (forall|j: int|
                    k < j < all.len() ==> (#[trigger] all[j]).id != id);
            assert(casinos[k] == all[k]);
            assert forall|j: int|
                k < j < casinos.len() implies (#[trigger] casinos[j]).id != id by {
                assert(all[j].id != id);
            }
        }
    }
}

proof fn lemma_last_game(games: Seq<GameView>, g: GameView, id: Seq<char>)
    ensures
        game_was_blocked(games.push(g), g.id) == g.blocked,
        id != g.id ==> game_was_blocked(games.push(g), id) == game_was_blocked(games, id),
{
    let all = games.push(g);
    let n = games.len() as int;
    assert(all[n] == g);
    if game_was_blocked(all, g.id) {
        let k = choose|k: int|
            #![trigger all[k]]
            0 <= k < all.len() && all[k].id == g.id && all[k].blocked && (forall|j: int|
                k < j < all.len() ==> (#[trigger] all[j]).id != g.id);
        assert(!(k < n));
    }
    if id != g.id {
        if game_was_blocked(games, id) {
            let k = choose|k: int|
                #![trigger games[k]]
                0 <= k < games.len() && games[k].id == id && games[k].blocked && (forall|j: int|
                    k < j < games.len() ==> (#[trigger] games[j]).id != id);
            assert(all[k] == games[k]);
            assert forall|j: int| k < j < all.len() implies (#[trigger] all[j]).id != id by {
                if j < n {
                    assert(games[j].id != id);
                }
            }
        }
        if game_was_blocked(all, id) {
            let k = choose|k: int|
                #![trigger all[k]]
                0 <= k < all.len() && all[k].id == id && all[k].blocked && (forall|j: int|
                    k < j < all.len() ==> (#[trigger] all[j]).id != id);
            assert(games[k] == all[k]);
            assert forall|j: int| k < j < games.len() implies (#[trigger] games[j]).id != id by {
                assert(all[j].id != id);
            }
        }
    }
}

/// A change weakens the protection exactly if it pauses the program, or if some
/// casino or game is listed as not blocked whose identifier was blocked before.
pub proof fn lemma_weakens_by_identifier(before: ConfigView, after: ConfigView)
    ensures
        weakens(before, after) <==> {
            ||| before.enabled && !after.enabled
            ||| exists|j: int|
                0 <= j < after.casinos.len() && !(#[trigger] after.casinos[j]).blocked_all
                    && casino_was_blocked(before.casinos, after.casinos[j].id)
            ||| exists|j: int|
                0 <= j < after.games.len() && !(#[trigger] after.games[j]).blocked
                    && game_was_blocked(before.games, after.games[j].id)
        },
{
    if exists|j: int|
        0 <= j < after.casinos.len() && !(#[trigger] after.casinos[j]).blocked_all
            && casino_was_blocked(before.casinos, after.casinos[j].id) {
        let j = choose|j: int|
            0 <= j < after.casinos.len() && !(#[trigger] after.casinos[j]).blocked_all
                && casino_was_blocked(before.casinos, after.casinos[j].id);
        assert(casino_freed(before.casinos, after.casinos[j]));
    }
    if exists|j: int|
        0 <= j < after.games.len() && !(#[trigger] after.games[j]).blocked && game_was_blocked(
            before.games,
            after.games[j].id,
        ) {
        let j = choose|j: int|
            0 <= j < after.games.len() && !(#[trigger] after.games[j]).blocked && game_was_blocked(
                before.games,
                after.games[j].id,
            );
        assert(game_freed(before.games, after.games[j]));
    }
}

/// Where each casino and each game has an identifier of its own, a change weakens
/// the protection exactly if it pauses the program, or if some casino or game was
/// blocked before and is listed as not blocked afterwards.
pub proof fn lemma_weakens_by_a_switch(before: ConfigView, after: ConfigView)
    requires
        casino_ids_distinct(before.casinos),
        game_ids_distinct(before.games),
    ensures
        weakens(before, after) <==> {
            ||| before.enabled && !after.enabled
            ||| exists|i: int, j: int|
                #![trigger before.casinos[i], after.casinos[j]]
                0 <= i < before.casinos.len() && 0 <= j < after.casinos.len()
                    && before.casinos[i].id == after.casinos[j].id && before.casinos[i].blocked_all
                    && !after.casinos[j].blocked_all
            ||| exists|i: int, j: int|
                #![trigger before.games[i], after.games[j]]
                0 <= i < before.games.len() && 0 <= j < after.games.len() && before.games[i].id
                    == after.games[j].id && before.games[i].blocked && !after.games[j].blocked
        },
{
    if exists|j: int|
        0 <= j < after.casinos.len() && casino_freed(before.casinos, #[trigger] after.casinos[j]) {
        let j = choose|j: int|
            0 <= j < after.casinos.len() && casino_freed(
                before.casinos,
                #[trigger] after.casinos[j],
            );
        let id = after.casinos[j].id;
        let i = choose|i: int|
            #![trigger before.casinos[i]]
            0 <= i < before.casinos.len() && before.casinos[i].id == id
                && before.casinos[i].blocked_all && (forall|m: int|
                i < m < before.casinos.len() ==> (#[trigger] before.casinos[m]).id != id);
        assert(before.casinos[i].blocked_all);
    }
    if exists|j: int|
        0 <= j < after.games.len() && game_freed(before.games, #[trigger] after.games[j]) {
        let j = choose|j: int|
            0 <= j < after.games.len() && game_freed(before.games, #[trigger] after.games[j]);
        let id = after.games[j].id;
        let i = choose|i: int|
            #![trigger before.games[i]]
            0 <= i < before.games.len() && before.games[i].id == id && before.games[i].blocked && (
            forall|m: int| i < m < before.games.len() ==> (#[trigger] before.games[m]).id != id);
        assert(before.games[i].blocked);
    }
    assert forall|i: int, j: int|
        #![trigger before.casinos[i], after.casinos[j]]
        0 <= i < before.casinos.len() && 0 <= j < after.casinos.len() && before.casinos[i].id
            == after.casinos[j].id && before.casinos[i].blocked_all && !after.casinos[j].blocked_all
        implies weakens(before, after) by {
        assert(casino_was_blocked(before.casinos, after.casinos[j].id));
        assert(casino_freed(before.casinos, after.casinos[j]));
    }
    assert forall|i: int, j: int|
        #![trigger before.games[i], after.games[j]]
        0 <= i < before.games.len() && 0 <= j < after.games.len() && before.games[i].id
            == after.games[j].id && before.games[i].blocked && !after.games[j].blocked
        implies weakens(before, after) by {
        assert(game_was_blocked(before.games, after.games[j].id));
        assert(game_freed(before.games, after.games[j]));
    }
}

// ---------------------------------------------------------------------------
// Adding a game
// ---------------------------------------------------------------------------

/// A game is added exactly if the form gives a label and an address that leaves a
/// pattern. It comes behind the others with that label and casino, without white
/// space around them, is blocked, and everything else stays as it was.
pub proof fn lemma_added_as_asked(cfg: ConfigView, body: Map<Seq<char>, Seq<char>>)
    ensures
        ({
            let label = trimmed(field(body, "label"@));
            let casino = trimmed(field(body, "casino"@));
            let address = trimmed(field(body, "url_pattern"@));
            let pattern = added_pattern(cfg.casinos, casino, address);
            let after = with_added(cfg, body);
            let game = after.games.last();
            &&& can_add(cfg, body) <==> label.len() > 0 && address.len() > 0 && pattern.len() > 0
            &&& after.games == cfg.games.push(game)
            &&& after.casinos == cfg.casinos
            &&& after.enabled == cfg.enabled
            &&& after.totp_secret_b32 == cfg.totp_secret_b32
            &&& after.setup_complete == cfg.setup_complete
            &&& game.label == label
            &&& game.casino == casino
            &&& game.url_pattern == pattern
            &&& game.blocked
        }),
{
}

/// The identifier of a game that is added: it starts from the slug of the label
/// behind the casino, or behind `custom` without one, and from a running number
/// where the label has no slug. The first number from two on that makes it new is
/// put behind it where some game has it.
pub proof fn lemma_identifier_of_added(
    games: Seq<GameView>,
    label: Seq<char>,
    casino: Seq<char>,
    count: nat,
)
    ensures
        slug_of(label).len() == 0 ==> base_id(label, casino, count) == "game-"@ + decimal(
            count + 1,
        ),
        slug_of(label).len() > 0 && casino.len() == 0 ==> base_id(label, casino, count)
            == "custom-"@ + slug_of(label),
        slug_of(label).len() > 0 && casino.len() > 0 ==> base_id(label, casino, count) == casino
            + "-"@ + slug_of(label),
{
}

/// The identifier of a game that is added is the one it starts from where no game
/// has that. Otherwise it is that with a hyphen and a number, the first from two
/// on that no game has.
pub proof fn lemma_identifier_is_new(cfg: ConfigView, body: Map<Seq<char>, Seq<char>>)
    ensures
        ({
            let label = trimmed(field(body, "label"@));
            let casino = trimmed(field(body, "casino"@));
            let base = base_id(label, casino, cfg.games.len());
            let id = with_added(cfg, body).games.last().id;
            &&& forall|i: int| 0 <= i < cfg.games.len() ==> (#[trigger] cfg.games[i]).id != id
            &&& (forall|i: int| 0 <= i < cfg.games.len() ==> (#[trigger] cfg.games[i]).id != base)
                ==> id == base
            &&& id != base ==> exists|n: nat|
                n >= 2 && id == base + "-"@ + #[trigger] decimal(n) && (forall|m: nat|
                    2 <= m < n ==> exists|i: int|
                        0 <= i < cfg.games.len() && (#[trigger] cfg.games[i]).id == base + "-"@
                            + #[trigger] decimal(m))
        }),
{
    let label = trimmed(field(body, "label"@));
    let casino = trimmed(field(body, "casino"@));
    let base = base_id(label, casino, cfg.games.len());
    let id = with_added(cfg, body).games.last().id;
    lemma_unused_id(cfg.games, base);
    assert(id == unused_id(cfg.games, base));
    let n = choose|n: nat|
        #[trigger] is_first_unused(cfg.games, base, n) && n <= cfg.games.len() + 1 && unused_id(
            cfg.games,
            base,
        ) == numbered_id(base, n);
    if id != base {
        assert(n >= 2);
        assert forall|m: nat| 2 <= m < n implies exists|i: int|
            0 <= i < cfg.games.len() && (#[trigger] cfg.games[i]).id == base + "-"@
                + #[trigger] decimal(m) by {
            assert(id_used(cfg.games, numbered_id(base, m)));
        }
        assert(id == base + "-"@ + decimal(n));
    }
}

/// The domain of a casino is that of the first one listed with its identifier, in
/// lower case. A casino that is not listed has none.
pub proof fn lemma_domain_of_first(
    before: Seq<CasinoView>,
    c: CasinoView,
    after: Seq<CasinoView>,
    id: Seq<char>,
)
    requires
        forall|i: int| 0 <= i < before.len() ==> (#[trigger] before[i]).id != id,
    ensures
        c.id == id ==> casino_domain(before + seq![c] + after, id) == lowercase(c.domain),
        casino_domain(before, id).len() == 0,
    decreases before.len(),
{
    let all = before + seq![c] + after;
    if before.len() > 0 {
        assert(before[0].id != id);
        assert(all[0] == before[0]);
        assert(all.skip(1) =~= before.skip(1) + seq![c] + after);
        assert forall|i: int| 0 <= i < before.skip(1).len() implies (
        #[trigger] before.skip(1)[i]).id != id by {
            assert(before.skip(1)[i] == before[i + 1]);
        }
        lemma_domain_of_first(before.skip(1), c, after, id);
    } else {
        assert(all[0] == c);
    }
}

/// A game that is added to a casino with a domain lies below it: the pattern is
/// the domain, a slash, and what the address holds behind the domain, if it starts
/// with that, and behind any slashes. An address with nothing of the kind gives
/// the domain alone.
pub proof fn lemma_added_below_domain(
    casinos: Seq<CasinoView>,
    casino: Seq<char>,
    address: Seq<char>,
    lead: Seq<char>,
    m: nat,
    rest: Seq<char>,
)
    requires
        casino.len() > 0,
        casino_domain(casinos, casino).len() > 0,
        pattern_of(address) == lead + copies(seq!['/'], m) + rest,
        lead == casino_domain(casinos, casino) || (lead.len() == 0 && !casino_domain(
            casinos,
            casino,
        ).is_prefix_of(pattern_of(address))),
        rest.len() > 0 ==> rest[0] != '/',
    ensures
        rest.len() > 0 ==> added_pattern(casinos, casino, address) == casino_domain(casinos, casino)
            + "/"@ + rest,
        rest.len() == 0 ==> added_pattern(casinos, casino, address) == casino_domain(
            casinos,
            casino,
        ),
{
    reveal_strlit("/");
    let domain = casino_domain(casinos, casino);
    let pattern = pattern_of(address);
    let tail = copies(seq!['/'], m) + rest;
    assert("/"@ =~= seq!['/']);
    assert(pattern =~= lead + tail);
    if lead.len() > 0 {
        assert(pattern.subrange(0, domain.len() as int) =~= domain);
        assert(pattern.skip(domain.len() as int) =~= tail);
    } else {
        assert(pattern =~= tail);
    }
    if "/"@.is_prefix_of(rest) {
        assert(rest.subrange(0, 1)[0] == '/');
    }
    lemma_leading_copies_go("/"@, m, rest);
}

/// A game that is added without a casino, or to one without a domain, gets the
/// pattern of its address, whole.
pub proof fn lemma_added_without_domain(
    casinos: Seq<CasinoView>,
    casino: Seq<char>,
    address: Seq<char>,
)
    requires
        casino.len() == 0 || casino_domain(casinos, casino).len() == 0,
    ensures
        added_pattern(casinos, casino, address) == pattern_of(address),
{
}

/// A game that is added without a casino is shut by its whole address, host and
/// path: given as it is, or with a scheme, `www.` and a slash at its end.
pub proof fn lemma_own_game_keeps_host(
    cfg: ConfigView,
    body: Map<Seq<char>, Seq<char>>,
    host: Seq<char>,
    path: Seq<char>,
)
    requires
        trimmed(field(body, "label"@)).len() > 0,
        trimmed(field(body, "casino"@)).len() == 0,
        path.len() > 0 && path.last() != '/',
        !"www."@.is_prefix_of(host + "/"@ + path),
        !"http://"@.is_prefix_of(host + "/"@ + path),
        !"https://"@.is_prefix_of(host + "/"@ + path),
        ({
            let typed = lowercase(trimmed(field(body, "url_pattern"@)));
            typed == host + "/"@ + path || typed == "https://www."@ + host + "/"@ + path + "/"@
        }),
    ensures
        can_add(cfg, body),
        with_added(cfg, body).games.last().url_pattern == host + "/"@ + path,
{
    reveal_strlit("/");
    reveal_strlit("www.");
    reveal_strlit("https://");
    reveal_strlit("https://www.");
    let whole = host + "/"@ + path;
    let given = field(body, "url_pattern"@);
    let address = trimmed(given);
    let typed = lowercase(address);
    lemma_trimmed_twice(given);
    lemma_copies_of_char('/', 0);
    lemma_copies_of_char('/', 1);
    assert(copies("www."@, 0) =~= Seq::empty());
    assert(copies("www."@, 1) =~= "www."@ + copies("www."@, 0));
    assert(copies("www."@, 1) =~= "www."@);
    assert(copies(seq!['/'], 0) =~= Seq::empty());
    assert(copies(seq!['/'], 1) =~= seq!['/']);
    assert(whole + copies(seq!['/'], 0) =~= whole);
    if typed == whole {
        let none = Seq::<char>::empty();
        assert(none + copies("www."@, 0) + whole + copies(seq!['/'], 0) =~= whole);
        lemma_pattern_is_host_and_path(address, none, 0, whole, 0);
    } else {
        assert(typed =~= "https://"@ + copies("www."@, 1) + whole + copies(seq!['/'], 1));
        lemma_pattern_is_host_and_path(address, "https://"@, 1, whole, 1);
    }
    if address.len() == 0 {
        assert(lowercase(address).len() == 0);
    }
}

/// Adding a game shuts the addresses that hold its pattern and no others, unless
/// its casino is blocked as a whole; whatever was shut stays shut.
pub proof fn lemma_adding_shuts_its_addresses(
    cfg: ConfigView,
    body: Map<Seq<char>, Seq<char>>,
    url: Seq<char>,
)
    ensures
        ({
            let after = with_added(cfg, body);
            let game = after.games.last();
            is_match(url, patterns_in_force(after)) <==> {
                ||| is_match(url, patterns_in_force(cfg))
                ||| {
                    &&& cfg.enabled
                    &&& forall|j: int|
                        0 <= j < cfg.casinos.len() && (#[trigger] cfg.casinos[j]).id == game.casino
                            ==> !cfg.casinos[j].blocked_all
                    &&& exists|a: Seq<char>, b: Seq<char>|
                        lowercase(url) == #[trigger] (a + lowercase(game.url_pattern) + b)
                }
            }
        }),
{
    let after = with_added(cfg, body);
    let game = after.games.last();
    let lower = lowercase(url);
    let n = cfg.games.len() as int;
    assert(after.games[n] == game);
    lemma_shut_by_a_switch(cfg, url);
    lemma_shut_by_a_switch(after, url);
    if is_match(url, patterns_in_force(cfg)) {
        lemma_adding_keeps_blocks(cfg, body, url);
    }
    if is_match(url, patterns_in_force(after)) && !is_match(url, patterns_in_force(cfg)) {
        if exists|i: int, a: Seq<char>, b: Seq<char>|
            #![trigger after.casinos[i], a + lowercase(after.casinos[i].domain) + b]
            0 <= i < after.casinos.len() && after.casinos[i].blocked_all && lower == a + lowercase(
                after.casinos[i].domain,
            ) + b {
            let (i, a, b) = choose|i: int, a: Seq<char>, b: Seq<char>|
                #![trigger after.casinos[i], a + lowercase(after.casinos[i].domain) + b]
                0 <= i < after.casinos.len() && after.casinos[i].blocked_all && lower == a
                    + lowercase(after.casinos[i].domain) + b;
            assert(cfg.casinos[i].blocked_all && lower == a + lowercase(cfg.casinos[i].domain) + b);
            assert(false);
        }
        let (i, a, b) = choose|i: int, a: Seq<char>, b: Seq<char>|
            #![trigger after.games[i], a + lowercase(after.games[i].url_pattern) + b]
            0 <= i < after.games.len() && after.games[i].blocked && (forall|j: int|
                0 <= j < after.casinos.len() && (#[trigger] after.casinos[j]).id
                    == after.games[i].casino ==> !after.casinos[j].blocked_all) && lower == a
                + lowercase(after.games[i].url_pattern) + b;
        if i < n {
            assert(cfg.games[i] == after.games[i]);
            assert(cfg.games[i].blocked && lower == a + lowercase(cfg.games[i].url_pattern) + b);
            assert(false);
        }
        assert(lower == a + lowercase(game.url_pattern) + b);
        assert forall|j: int|
            0 <= j < cfg.casinos.len() && (#[trigger] cfg.casinos[j]).id
                == game.casino implies !cfg.casinos[j].blocked_all by {
            assert(after.casinos[j].id == after.games[i].casino);
        }
    }
    if cfg.enabled && (forall|j: int|
        0 <= j < cfg.casinos.len() && (#[trigger] cfg.casinos[j]).id == game.casino
            ==> !cfg.casinos[j].blocked_all) && (exists|a: Seq<char>, b: Seq<char>|
        lower == #[trigger] (a + lowercase(game.url_pattern) + b)) {
        let (a, b) = choose|a: Seq<char>, b: Seq<char>|
            lower == #[trigger] (a + lowercase(game.url_pattern) + b);
        assert(after.games[n].blocked);
        assert(lower == a + lowercase(after.games[n].url_pattern) + b);
    }
}

/// A game of one's own shuts the addresses that hold its host and path, and no
/// other: one that does not hold them, and was not shut before, is not shut.
pub proof fn lemma_own_game_shuts_nothing_else(
    cfg: ConfigView,
    body: Map<Seq<char>, Seq<char>>,
    host: Seq<char>,
    path: Seq<char>,
    url: Seq<char>,
)
    requires
        trimmed(field(body, "label"@)).len() > 0,
        trimmed(field(body, "casino"@)).len() == 0,
        path.len() > 0 && path.last() != '/',
        !"www."@.is_prefix_of(host + "/"@ + path),
        !"http://"@.is_prefix_of(host + "/"@ + path),
        !"https://"@.is_prefix_of(host + "/"@ + path),
        lowercase(host + "/"@ + path) == host + "/"@ + path,
        ({
            let typed = lowercase(trimmed(field(body, "url_pattern"@)));
            typed == host + "/"@ + path || typed == "https://www."@ + host + "/"@ + path + "/"@
        }),
        forall|j: int|
            0 <= j < cfg.casinos.len() && (#[trigger] cfg.casinos[j]).id.len() == 0
                ==> !cfg.casinos[j].blocked_all,
    ensures
        cfg.enabled && has_part(lowercase(url), host + "/"@ + path) ==> is_match(
            url,
            patterns_in_force(with_added(cfg, body)),
        ),
        !has_part(lowercase(url), host + "/"@ + path) ==> is_match(
            url,
            patterns_in_force(with_added(cfg, body)),
        ) == is_match(url, patterns_in_force(cfg)),
{
    let whole = host + "/"@ + path;
    lemma_own_game_keeps_host(cfg, body, host, path);
    lemma_adding_shuts_its_addresses(cfg, body, url);
    lemma_part_means_between(lowercase(url), whole);
    let game = with_added(cfg, body).games.last();
    assert(game.casino =~= Seq::empty());
    assert forall|j: int|
        0 <= j < cfg.casinos.len() && (#[trigger] cfg.casinos[j]).id
            == game.casino implies !cfg.casinos[j].blocked_all by {
        assert(cfg.casinos[j].id.len() == 0);
    }
}

// ---------------------------------------------------------------------------
// Removing a game
// ---------------------------------------------------------------------------

/// Removing an identifier takes out the games that have it, keeps the others in
/// their order, and changes nothing else.
pub proof fn lemma_removed_by_identifier(
    cfg: ConfigView,
    a: Seq<GameView>,
    g: GameView,
    id: Seq<char>,
)
    requires
        cfg.games == a.push(g),
    ensures
        ({
            let after = with_removed(cfg, id);
            let before = with_removed(ConfigView { games: a, ..cfg }, id);
            &&& g.id == id ==> after.games == before.games
            &&& g.id != id ==> after.games == before.games.push(g)
            &&& a.len() == 0 ==> before.games.len() == 0
            &&& after.casinos == cfg.casinos
            &&& after.enabled == cfg.enabled
            &&& after.totp_secret_b32 == cfg.totp_secret_b32
            &&& after.setup_complete == cfg.setup_complete
        }),
{
    reveal(Seq::filter);
    assert(cfg.games.drop_last() =~= a);
    assert(cfg.games.last() == g);
}

} // verus!
