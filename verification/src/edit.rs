//! Changes to what is blocked, as the control panel asks for them.
use crate::config::{
    casino_views, game_views, normalize_pattern, pattern_of, slug_of, slugify, without_scheme,
    Casino, CasinoView, Config, ConfigView, GameEntry, GameView,
};
use crate::form::{field, Form};
use crate::text::{
    decimal, decimal_text, is_white, lemma_decimal_injective, lemma_decimal_len,
    lemma_trimmed_ascii, starts_with_chars, strip_leading_chars, to_chars, to_text, trim_text,
    trimmed, trimmed_end, trimmed_start, without_leading, without_trailing,
};
use crate::unicode::{ascii_lower, lowercase};
use vstd::prelude::*;
use vstd::slice::slice_subrange;
use vstd::utf8::*;

verus! {

// ---------------------------------------------------------------------------
// Checkboxes
// ---------------------------------------------------------------------------

/// The name of the checkbox that blocks a casino as a whole.
pub open spec fn casino_field(id: Seq<char>) -> Seq<char> {
    "c_"@ + id + "_all"@
}

/// The name of the checkbox that blocks a game.
pub open spec fn game_field(id: Seq<char>) -> Seq<char> {
    "g_"@ + id
}

/// A casino that is blocked as a whole if its checkbox is among the fields.
pub open spec fn checked_casino(body: Map<Seq<char>, Seq<char>>) -> spec_fn(
    CasinoView,
) -> CasinoView {
    |c: CasinoView| CasinoView { blocked_all: body.contains_key(casino_field(c.id)), ..c }
}

/// A game that is blocked if its checkbox is among the fields.
pub open spec fn checked_game(body: Map<Seq<char>, Seq<char>>) -> spec_fn(GameView) -> GameView {
    |g: GameView| GameView { blocked: body.contains_key(game_field(g.id)), ..g }
}

/// A configuration with every switch as the fields of the form have it: a
/// checkbox that is ticked comes as a field, one that is not does not come.
pub open spec fn checked_config(cfg: ConfigView, body: Map<Seq<char>, Seq<char>>) -> ConfigView {
    ConfigView {
        enabled: body.contains_key("enabled"@),
        casinos: cfg.casinos.map_values(checked_casino(body)),
        games: cfg.games.map_values(checked_game(body)),
        ..cfg
    }
}

/// The name of the checkbox that blocks a casino as a whole.
pub fn casino_field_name(id: &str) -> (r: String)
    ensures
        r@ == casino_field(id@),
{
    let mut r = "c_".to_owned();
    r.append(id);
    r.append("_all");
    r
}

/// The name of the checkbox that blocks a game.
pub fn game_field_name(id: &str) -> (r: String)
    ensures
        r@ == game_field(id@),
{
    let mut r = "g_".to_owned();
    r.append(id);
    r
}

/// Sets every switch as the fields of the form have it.
pub fn apply_checkbox_state(cfg: &mut Config, body: &Form)
    ensures
        final(cfg)@ == checked_config(old(cfg)@, body@),
{
    let ghost before = cfg@;
    cfg.enabled = body.contains_key("enabled");
    let n: usize = cfg.casinos.len();
    for i in 0..n
        invariant
            n == before.casinos.len(),
            before == old(cfg)@,
            cfg@ == (ConfigView {
                enabled: body@.contains_key("enabled"@),
                casinos: cfg@.casinos,
                ..before
            }),
            cfg.casinos@.len() == before.casinos.len(),
            forall|j: int|
                0 <= j < i ==> #[trigger] cfg.casinos@[j]@ == checked_casino(body@)(
                    before.casinos[j],
                ),
            forall|j: int| i <= j < before.casinos.len() ==> #[trigger] cfg.casinos@[j]@
                == before.casinos[j],
    {
        assert(cfg.casinos@[i as int]@ == before.casinos[i as int]);
        let name = casino_field_name(cfg.casinos[i].id.as_str());
        cfg.casinos[i].blocked_all = body.contains_key(name.as_str());
        assert(cfg.casinos@[i as int]@ == checked_casino(body@)(before.casinos[i as int]));
    }
    assert(cfg@.casinos =~= before.casinos.map_values(checked_casino(body@)));
    let ghost casinos = cfg@.casinos;
    let n: usize = cfg.games.len();
    for i in 0..n
        invariant
            n == before.games.len(),
            before == old(cfg)@,
            cfg@ == (ConfigView {
                enabled: body@.contains_key("enabled"@),
                casinos,
                games: cfg@.games,
                ..before
            }),
            cfg.games@.len() == before.games.len(),
            forall|j: int|
                0 <= j < i ==> #[trigger] cfg.games@[j]@ == checked_game(body@)(before.games[j]),
            forall|j: int| i <= j < before.games.len() ==> #[trigger] cfg.games@[j]@
                == before.games[j],
    {
        assert(cfg.games@[i as int]@ == before.games[i as int]);
        let name = game_field_name(cfg.games[i].id.as_str());
        cfg.games[i].blocked = body.contains_key(name.as_str());
        assert(cfg.games@[i as int]@ == checked_game(body@)(before.games[i as int]));
    }
    assert(cfg@.games =~= before.games.map_values(checked_game(body@)));
}

// ---------------------------------------------------------------------------
// Weakening
// ---------------------------------------------------------------------------

/// The last casino with that identifier is blocked as a whole.
pub open spec fn casino_was_blocked(casinos: Seq<CasinoView>, id: Seq<char>) -> bool {
    exists|i: int|
        #![trigger casinos[i]]
        0 <= i < casinos.len() && casinos[i].id == id && casinos[i].blocked_all && (forall|j: int|
            i < j < casinos.len() ==> (#[trigger] casinos[j]).id != id)
}

/// The last game with that identifier is blocked.
pub open spec fn game_was_blocked(games: Seq<GameView>, id: Seq<char>) -> bool {
    exists|i: int|
        #![trigger games[i]]
        0 <= i < games.len() && games[i].id == id && games[i].blocked && (forall|j: int|
            i < j < games.len() ==> (#[trigger] games[j]).id != id)
}

/// The switch of a casino that was blocked is off.
pub open spec fn casino_freed(old_casinos: Seq<CasinoView>, c: CasinoView) -> bool {
    casino_was_blocked(old_casinos, c.id) && !c.blocked_all
}

/// The switch of a game that was blocked is off.
pub open spec fn game_freed(old_games: Seq<GameView>, g: GameView) -> bool {
    game_was_blocked(old_games, g.id) && !g.blocked
}

/// A change weakens the protection if it pauses the program, or if it turns off
/// the switch of a casino or of a game that was blocked.
pub open spec fn weakens(before: ConfigView, after: ConfigView) -> bool {
    ||| before.enabled && !after.enabled
    ||| exists|i: int|
        0 <= i < after.casinos.len() && casino_freed(before.casinos, #[trigger] after.casinos[i])
    ||| exists|i: int|
        0 <= i < after.games.len() && game_freed(before.games, #[trigger] after.games[i])
}

/// Whether the last casino with that identifier is blocked as a whole.
fn was_casino_blocked(casinos: &Vec<Casino>, id: &String) -> (r: bool)
    ensures
        r == casino_was_blocked(casino_views(casinos@), id@),
{
    let ghost all = casino_views(casinos@);
    let mut n: usize = casinos.len();
    while n > 0
        invariant
            n <= casinos@.len(),
            all == casino_views(casinos@),
            forall|j: int| n <= j < all.len() ==> (#[trigger] all[j]).id != id@,
        decreases n,
    {
        assert(all[n - 1] == casinos@[n - 1]@);
        if casinos[n - 1].id == *id {
            return casinos[n - 1].blocked_all;
        }
        n = n - 1;
    }
    false
}

/// Whether the last game with that identifier is blocked.
fn was_game_blocked(games: &Vec<GameEntry>, id: &String) -> (r: bool)
    ensures
        r == game_was_blocked(game_views(games@), id@),
{
    let ghost all = game_views(games@);
    let mut n: usize = games.len();
    while n > 0
        invariant
            n <= games@.len(),
            all == game_views(games@),
            forall|j: int| n <= j < all.len() ==> (#[trigger] all[j]).id != id@,
        decreases n,
    {
        assert(all[n - 1] == games@[n - 1]@);
        if games[n - 1].id == *id {
            return games[n - 1].blocked;
        }
        n = n - 1;
    }
    false
}

/// Whether a change weakens the protection.
pub fn save_weakens(old_cfg: &Config, new_cfg: &Config) -> (r: bool)
    ensures
        r == weakens(old_cfg@, new_cfg@),
{
    if old_cfg.enabled && !new_cfg.enabled {
        return true;
    }
    let ghost before = old_cfg@;
    let ghost after = new_cfg@;
    for i in 0..new_cfg.casinos.len()
        invariant
            before == old_cfg@,
            after == new_cfg@,
            forall|j: int|
                0 <= j < i ==> !casino_freed(before.casinos, #[trigger] after.casinos[j]),
    {
        let c = &new_cfg.casinos[i];
        assert(after.casinos[i as int] == c@);
        if was_casino_blocked(&old_cfg.casinos, &c.id) && !c.blocked_all {
            return true;
        }
    }
    for i in 0..new_cfg.games.len()
        invariant
            before == old_cfg@,
            after == new_cfg@,
            forall|j: int| 0 <= j < i ==> !game_freed(before.games, #[trigger] after.games[j]),
    {
        let g = &new_cfg.games[i];
        assert(after.games[i as int] == g@);
        if was_game_blocked(&old_cfg.games, &g.id) && !g.blocked {
            return true;
        }
    }
    false
}

// ---------------------------------------------------------------------------
// Adding a game
// ---------------------------------------------------------------------------

/// The domain of the first casino with that identifier, in lower case; empty
/// where there is none.
pub open spec fn casino_domain(casinos: Seq<CasinoView>, id: Seq<char>) -> Seq<char>
    decreases casinos.len(),
{
    if casinos.len() == 0 {
        Seq::empty()
    } else if casinos[0].id == id {
        lowercase(casinos[0].domain)
    } else {
        casino_domain(casinos.skip(1), id)
    }
}

/// A pattern put below a domain: what is left of it behind the domain, if it
/// starts with that, and behind slashes. A pattern without a domain is left as
/// it is.
pub open spec fn pattern_below(domain: Seq<char>, pattern: Seq<char>) -> Seq<char> {
    let rest = without_leading(
        if domain.is_prefix_of(pattern) {
            pattern.skip(domain.len() as int)
        } else {
            pattern
        },
        "/"@,
    );
    if domain.len() == 0 {
        pattern
    } else if rest.len() == 0 {
        domain
    } else {
        domain + "/"@ + rest
    }
}

/// The pattern of a game to be added: the address that was given, below the
/// domain of its casino where it has one.
pub open spec fn added_pattern(
    casinos: Seq<CasinoView>,
    casino: Seq<char>,
    address: Seq<char>,
) -> Seq<char> {
    if casino.len() == 0 {
        pattern_of(address)
    } else {
        pattern_below(casino_domain(casinos, casino), pattern_of(address))
    }
}

/// What the identifier of a game to be added starts from.
pub open spec fn base_id(label: Seq<char>, casino: Seq<char>, count: nat) -> Seq<char> {
    if slug_of(label).len() == 0 {
        "game-"@ + decimal(count + 1)
    } else if casino.len() == 0 {
        "custom-"@ + slug_of(label)
    } else {
        casino + "-"@ + slug_of(label)
    }
}

/// The identifiers tried in turn: the base, then the base with a number from two
/// on.
pub open spec fn numbered_id(base: Seq<char>, n: nat) -> Seq<char> {
    if n <= 1 {
        base
    } else {
        base + "-"@ + decimal(n)
    }
}

/// Some game has that identifier.
pub open spec fn id_used(games: Seq<GameView>, id: Seq<char>) -> bool {
    exists|i: int| 0 <= i < games.len() && (#[trigger] games[i]).id == id
}

/// The first of the identifiers tried in turn that no game has is the one with
/// that number.
pub open spec fn is_first_unused(games: Seq<GameView>, base: Seq<char>, n: nat) -> bool {
    &&& n >= 1
    &&& !id_used(games, numbered_id(base, n))
    &&& forall|m: nat| 1 <= m < n ==> id_used(games, #[trigger] numbered_id(base, m))
}

/// The first of the identifiers tried in turn that no game has.
pub open spec fn unused_id(games: Seq<GameView>, base: Seq<char>) -> Seq<char> {
    numbered_id(base, choose|n: nat| is_first_unused(games, base, n))
}

/// A game to be added. It is blocked from the start.
pub open spec fn added_game(
    cfg: ConfigView,
    label: Seq<char>,
    casino: Seq<char>,
    address: Seq<char>,
) -> GameView {
    GameView {
        id: unused_id(cfg.games, base_id(label, casino, cfg.games.len())),
        casino,
        label,
        url_pattern: added_pattern(cfg.casinos, casino, address),
        blocked: true,
    }
}

/// The identifiers tried in turn differ.
proof fn lemma_numbered_ids_differ(base: Seq<char>, m: nat, n: nat)
    requires
        1 <= m < n,
    ensures
        numbered_id(base, m) != numbered_id(base, n),
{
    lemma_decimal_len(n);
    if m == 1 {
        assert(numbered_id(base, n).len() > base.len());
    } else if numbered_id(base, m) == numbered_id(base, n) {
        let head = base + "-"@;
        assert(numbered_id(base, m).skip(head.len() as int) =~= decimal(m));
        assert(numbered_id(base, n).skip(head.len() as int) =~= decimal(n));
        lemma_decimal_injective(m, n);
    }
}

/// No more of the identifiers tried in turn are used than there are games.
proof fn lemma_used_ids_bounded(games: Seq<GameView>, base: Seq<char>, n: nat)
    requires
        forall|m: nat| 1 <= m <= n ==> id_used(games, #[trigger] numbered_id(base, m)),
    ensures
        n <= games.len(),
{
    let tried = Seq::new(n, |i: int| numbered_id(base, (i + 1) as nat));
    let ids = games.map_values(|g: GameView| g.id);
    assert(tried.no_duplicates()) by {
        assert forall|i: int, j: int|
            0 <= i < tried.len() && 0 <= j < tried.len() && i != j implies tried[i] != tried[j] by {
            if i < j {
                lemma_numbered_ids_differ(base, (i + 1) as nat, (j + 1) as nat);
            } else {
                lemma_numbered_ids_differ(base, (j + 1) as nat, (i + 1) as nat);
            }
        }
    }
    tried.unique_seq_to_set();
    ids.lemma_cardinality_of_set();
    assert(tried.to_set().subset_of(ids.to_set())) by {
        assert forall|id: Seq<char>| tried.to_set().contains(id) implies ids.to_set().contains(
            id,
        ) by {
            let i = choose|i: int| 0 <= i < tried.len() && tried[i] == id;
            assert(id_used(games, numbered_id(base, (i + 1) as nat)));
            let k = choose|k: int| 0 <= k < games.len() && (#[trigger] games[k]).id == id;
            assert(ids[k] == id);
        }
    }
    vstd::set_lib::lemma_len_subset(tried.to_set(), ids.to_set());
}

/// There is an identifier for every game to be added, and no game has it yet. It
/// is the base where no game has that.
pub proof fn lemma_unused_id(games: Seq<GameView>, base: Seq<char>)
    ensures
        !id_used(games, unused_id(games, base)),
        exists|n: nat| #[trigger] is_first_unused(games, base, n) && n <= games.len() + 1
            && unused_id(games, base) == numbered_id(base, n),
        !id_used(games, base) ==> unused_id(games, base) == base,
{
    lemma_first_unused_exists(games, base, 1);
    let n = choose|n: nat| is_first_unused(games, base, n);
    assert(is_first_unused(games, base, n));
    assert forall|m: nat| 1 <= m <= (n - 1) as nat implies id_used(
        games,
        #[trigger] numbered_id(base, m),
    ) by {}
    lemma_used_ids_bounded(games, base, (n - 1) as nat);
    if !id_used(games, base) && n > 1 {
        assert(id_used(games, numbered_id(base, 1)));
    }
}

proof fn lemma_first_unused_exists(games: Seq<GameView>, base: Seq<char>, n: nat)
    requires
        n >= 1,
        forall|m: nat| 1 <= m < n ==> id_used(games, #[trigger] numbered_id(base, m)),
    ensures
        exists|k: nat| is_first_unused(games, base, k),
    decreases games.len() + 2 - n,
{
    assert forall|m: nat| 1 <= m <= (n - 1) as nat implies id_used(
        games,
        #[trigger] numbered_id(base, m),
    ) by {}
    lemma_used_ids_bounded(games, base, (n - 1) as nat);
    if id_used(games, numbered_id(base, n)) {
        lemma_first_unused_exists(games, base, n + 1);
    } else {
        assert(is_first_unused(games, base, n));
    }
}

proof fn lemma_first_unused_unique(games: Seq<GameView>, base: Seq<char>, m: nat, n: nat)
    requires
        is_first_unused(games, base, m),
        is_first_unused(games, base, n),
    ensures
        m == n,
{
    if m < n {
        assert(id_used(games, numbered_id(base, m)));
    } else if n < m {
        assert(id_used(games, numbered_id(base, n)));
    }
}

/// Whether some game has that identifier.
fn is_id_used(games: &Vec<GameEntry>, id: &String) -> (r: bool)
    ensures
        r == id_used(game_views(games@), id@),
{
    let ghost all = game_views(games@);
    for i in 0..games.len()
        invariant
            all == game_views(games@),
            forall|j: int| 0 <= j < i ==> (#[trigger] all[j]).id != id@,
    {
        assert(all[i as int] == games@[i as int]@);
        if games[i].id == *id {
            return true;
        }
    }
    false
}

/// The first of the identifiers tried in turn that no game has.
fn find_unused_id(games: &Vec<GameEntry>, base: &String) -> (r: String)
    ensures
        r@ == unused_id(game_views(games@), base@),
{
    let ghost all = game_views(games@);
    let count: usize = games.len();
    let mut id = base.clone();
    let mut n: u128 = 1;
    while is_id_used(games, &id)
        invariant
            all == game_views(games@),
            1 <= n,
            n <= all.len() + 1,
            all.len() == count,
            id@ == numbered_id(base@, n as nat),
            forall|m: nat| 1 <= m < n ==> id_used(all, #[trigger] numbered_id(base@, m)),
        decreases all.len() + 1 - n,
    {
        proof {
            lemma_used_ids_bounded(all, base@, n as nat);
        }
        n = n + 1;
        id = base.clone();
        id.append("-");
        id.append(decimal_text(n).as_str());
    }
    proof {
        assert(is_first_unused(all, base@, n as nat));
        let k = choose|k: nat| is_first_unused(all, base@, k);
        lemma_first_unused_unique(all, base@, k, n as nat);
    }
    id
}

/// The domain of the first casino with that identifier, in lower case.
fn find_domain(casinos: &Vec<Casino>, id: &String) -> (r: String)
    ensures
        r@ == casino_domain(casino_views(casinos@), id@),
{
    let ghost all = casino_views(casinos@);
    assert(all.skip(0) =~= all);
    for i in 0..casinos.len()
        invariant
            all == casino_views(casinos@),
            casino_domain(all.skip(i as int), id@) == casino_domain(all, id@),
    {
        assert(all[i as int] == casinos@[i as int]@);
        assert(all.skip(i as int)[0] == all[i as int]);
        assert(all.skip(i as int).skip(1) =~= all.skip(i + 1));
        if casinos[i].id == *id {
            return casinos[i].domain.as_str().to_lowercase();
        }
    }
    String::new()
}

/// A pattern put below a domain.
fn put_below(domain: String, pattern: String) -> (r: String)
    ensures
        r@ == pattern_below(domain@, pattern@),
{
    let d = to_chars(domain.as_str());
    let p = to_chars(pattern.as_str());
    let slash = to_chars("/");
    let tail: &[char] = if starts_with_chars(&p, &d) {
        let tail = slice_subrange(&p, d.len(), p.len());
        assert(tail@ =~= p@.skip(d@.len() as int));
        tail
    } else {
        &p
    };
    let rest = strip_leading_chars(tail, &slash);
    if d.len() == 0 {
        pattern
    } else if rest.len() == 0 {
        domain
    } else {
        let mut r = domain;
        r.append("/");
        r.append(to_text(rest).as_str());
        r
    }
}

/// The pattern of a game to be added.
pub fn pattern_to_add(casinos: &Vec<Casino>, casino: &String, address: &str) -> (r: String)
    ensures
        r@ == added_pattern(casino_views(casinos@), casino@, address@),
{
    let normalized = normalize_pattern(address);
    let c = to_chars(casino.as_str());
    if c.len() == 0 {
        normalized
    } else {
        put_below(find_domain(casinos, casino), normalized)
    }
}

/// What the identifier of a game to be added starts from.
pub fn id_base(label: &str, casino: &String, count: usize) -> (r: String)
    ensures
        r@ == base_id(label@, casino@, count as nat),
{
    let slug = slugify(label);
    let s = to_chars(slug.as_str());
    let c = to_chars(casino.as_str());
    if s.len() == 0 {
        let mut r = "game-".to_owned();
        r.append(decimal_text(count as u128 + 1).as_str());
        r
    } else if c.len() == 0 {
        let mut r = "custom-".to_owned();
        r.append(slug.as_str());
        r
    } else {
        let mut r = casino.clone();
        r.append("-");
        r.append(slug.as_str());
        r
    }
}

/// The game that a form asks for: its label, the casino it belongs to and its
/// address, without white space around them.
pub open spec fn asked_game(body: Map<Seq<char>, Seq<char>>) -> (Seq<char>, Seq<char>, Seq<char>) {
    (
        trimmed(field(body, "label"@)),
        trimmed(field(body, "casino"@)),
        trimmed(field(body, "url_pattern"@)),
    )
}

/// A form can be followed if it gives a label and an address that leaves a
/// pattern.
pub open spec fn can_add(cfg: ConfigView, body: Map<Seq<char>, Seq<char>>) -> bool {
    let (label, casino, address) = asked_game(body);
    &&& label.len() > 0
    &&& address.len() > 0
    &&& added_pattern(cfg.casinos, casino, address).len() > 0
}

/// A configuration with the game that a form asks for at the end of its games.
pub open spec fn with_added(cfg: ConfigView, body: Map<Seq<char>, Seq<char>>) -> ConfigView {
    let (label, casino, address) = asked_game(body);
    ConfigView { games: cfg.games.push(added_game(cfg, label, casino, address)), ..cfg }
}

/// Adds the game that a form asks for, if the form can be followed. Returns
/// whether it can.
pub fn add_game(cfg: &mut Config, body: &Form) -> (r: bool)
    ensures
        r == can_add(old(cfg)@, body@),
        r ==> final(cfg)@ == with_added(old(cfg)@, body@),
        !r ==> *final(cfg) == *old(cfg),
{
    let label = trim_text(body.text("label").as_str());
    let address = trim_text(body.text("url_pattern").as_str());
    let casino = trim_text(body.text("casino").as_str());
    let l = to_chars(label.as_str());
    let a = to_chars(address.as_str());
    if l.len() == 0 || a.len() == 0 {
        return false;
    }
    let url_pattern = pattern_to_add(&cfg.casinos, &casino, address.as_str());
    let p = to_chars(url_pattern.as_str());
    if p.len() == 0 {
        return false;
    }
    let base = id_base(label.as_str(), &casino, cfg.games.len());
    let id = find_unused_id(&cfg.games, &base);
    cfg.games.push(GameEntry { id, casino, label, url_pattern, blocked: true });
    assert(cfg@.games =~= with_added(old(cfg)@, body@).games);
    true
}

// ---------------------------------------------------------------------------
// Paths and full addresses
// ---------------------------------------------------------------------------

/// A text that holds nothing that a pattern leaves out, but for the case of its
/// letters.
pub open spec fn is_bare(s: Seq<char>) -> bool {
    &&& s.len() > 0
    &&& !is_white(s[0])
    &&& !is_white(s.last())
    &&& !"https://"@.is_prefix_of(s)
    &&& !"http://"@.is_prefix_of(s)
    &&& !"www."@.is_prefix_of(s)
    &&& s.last() != '/'
}

/// A text in lower case with nothing that a pattern leaves out.
pub open spec fn is_normal(s: Seq<char>) -> bool {
    is_bare(s) && lowercase(s) == s
}

/// A text with nothing that a pattern leaves out is its own pattern. In ASCII no
/// other text is, but the empty one.
pub proof fn lemma_own_pattern(s: Seq<char>)
    ensures
        is_normal(s) ==> pattern_of(s) == s,
        is_ascii_chars(s) && s.len() > 0 && pattern_of(s) == s ==> is_normal(s),
{
    reveal_strlit("https://");
    reveal_strlit("http://");
    reveal_strlit("www.");
    if is_ascii_chars(s) && s.len() > 0 && pattern_of(s) == s {
        let start = trimmed_start(s);
        let kept = trimmed(s);
        lemma_trimmed_no_longer(s);
        lemma_trimmed_no_longer(start);
        lemma_trimmed_ascii(s);
        lemma_trimmed_ascii(start);
        let lower = lowercase(kept);
        assert(lower.len() == kept.len());
        let bare = without_scheme(lower);
        let rest = without_leading(bare, "www."@);
        lemma_without_no_longer(bare, "www."@, '/');
        lemma_without_no_longer(rest, "www."@, '/');
        if is_white(s[0]) {
            lemma_trimmed_no_longer(s.drop_first());
        }
        assert(start == s);
        if is_white(s.last()) {
            lemma_trimmed_no_longer(s.drop_last());
        }
        assert(kept == s);
        assert(bare == lower);
        if "www."@.is_prefix_of(bare) {
            lemma_without_no_longer(bare.skip(4), "www."@, '/');
        }
        assert(rest == bare);
        if rest.last() == '/' {
            lemma_without_no_longer(rest.drop_last(), "www."@, '/');
        }
    }
}

proof fn lemma_trimmed_no_longer(s: Seq<char>)
    ensures
        trimmed_start(s).len() <= s.len(),
        trimmed_end(s).len() <= s.len(),
    decreases s.len(),
{
    if s.len() > 0 {
        lemma_trimmed_no_longer(s.drop_first());
        lemma_trimmed_no_longer(s.drop_last());
    }
}

proof fn lemma_without_no_longer(s: Seq<char>, part: Seq<char>, c: char)
    ensures
        without_leading(s, part).len() <= s.len(),
        without_trailing(s, c).len() <= s.len(),
    decreases s.len(),
{
    if part.len() > 0 && part.is_prefix_of(s) {
        lemma_without_no_longer(s.skip(part.len() as int), part, c);
    }
    if s.len() > 0 {
        lemma_without_no_longer(s.drop_last(), part, c);
    }
}

/// The ways to give the address of a game of a casino: the path, with a slash
/// before it or not, the path behind the domain, and the full address.
pub open spec fn ways_to_give(domain: Seq<char>, path: Seq<char>) -> Seq<Seq<char>> {
    seq![
        path,
        "/"@ + path,
        domain + "/"@ + path,
        "https://www."@ + domain + "/"@ + path + "/"@,
    ]
}

/// A path that can be told from the domain it stands behind.
pub open spec fn is_path_below(domain: Seq<char>, path: Seq<char>) -> bool {
    &&& is_bare(domain)
    &&& is_bare(path)
    &&& domain[0] != '/'
    &&& path[0] != '/'
    &&& !domain.is_prefix_of(path)
}

proof fn lemma_joined_is_bare(domain: Seq<char>, path: Seq<char>)
    requires
        is_path_below(domain, path),
    ensures
        is_bare("/"@ + path),
        is_bare(domain + "/"@ + path),
{
    reveal_strlit("https://");
    reveal_strlit("http://");
    reveal_strlit("www.");
    reveal_strlit("/");
    let slashed = "/"@ + path;
    assert(slashed[0] == '/');
    assert(is_bare(slashed)) by {
        if "https://"@.is_prefix_of(slashed) {
            assert(slashed.subrange(0, 8)[0] == 'h');
        }
        if "http://"@.is_prefix_of(slashed) {
            assert(slashed.subrange(0, 7)[0] == 'h');
        }
        if "www."@.is_prefix_of(slashed) {
            assert(slashed.subrange(0, 4)[0] == 'w');
        }
    }
    let joined = domain + "/"@ + path;
    let n = domain.len() as int;
    assert(joined[n] == '/' && joined[n + 1] == path[0]);
    lemma_no_start_across("https://"@, domain, joined);
    lemma_no_start_across("http://"@, domain, joined);
    lemma_no_start_across("www."@, domain, joined);
    if "https://"@.is_prefix_of(joined) {
        assert(joined.subrange(0, 8) == "https://"@);
        assert(joined.subrange(0, 8)[n] == joined[n]);
        assert(n == 6 || n == 7);
        assert(joined.subrange(0, 8)[7] == joined[7]);
        assert(joined.subrange(0, 8)[6] == joined[6]);
        assert(n == 7 ==> domain.last() == joined[6]);
    }
    if "http://"@.is_prefix_of(joined) {
        assert(joined.subrange(0, 7) == "http://"@);
        assert(joined.subrange(0, 7)[n] == joined[n]);
        assert(n == 5 || n == 6);
        assert(joined.subrange(0, 7)[6] == joined[6]);
        assert(joined.subrange(0, 7)[5] == joined[5]);
        assert(n == 6 ==> domain.last() == joined[5]);
    }
    if "www."@.is_prefix_of(joined) {
        assert(joined.subrange(0, 4)[n] == joined[n]);
    }
}

/// What starts a text starts its beginning too, if it is no longer.
proof fn lemma_no_start_across(part: Seq<char>, head: Seq<char>, whole: Seq<char>)
    requires
        head.is_prefix_of(whole),
        !part.is_prefix_of(head),
    ensures
        part.is_prefix_of(whole) ==> part.len() > head.len(),
{
    if part.is_prefix_of(whole) && part.len() <= head.len() {
        let n = part.len() as int;
        assert(head.subrange(0, n) =~= whole.subrange(0, n));
    }
}

proof fn lemma_full_address_pattern(domain: Seq<char>, path: Seq<char>)
    requires
        is_path_below(domain, path),
    ensures
        ({
            let full = "https://www."@ + domain + "/"@ + path + "/"@;
            &&& trimmed(full) == full
            &&& without_trailing(without_leading(without_scheme(full), "www."@), '/') == domain
                + "/"@ + path
        }),
{
    reveal_strlit("https://www.");
    reveal_strlit("https://");
    reveal_strlit("www.");
    reveal_strlit("/");
    lemma_joined_is_bare(domain, path);
    let joined = domain + "/"@ + path;
    let ended = joined.push('/');
    let full = "https://www."@ + domain + "/"@ + path + "/"@;
    assert(full =~= "https://www."@ + ended);
    assert(full[0] == 'h' && full.last() == '/');
    assert(trimmed(full) == full);
    assert(full.subrange(0, 8) =~= "https://"@);
    let bare = full.skip(8);
    assert(bare =~= "www."@ + ended);
    assert(bare.subrange(0, 4) =~= "www."@);
    assert(bare.skip(4) =~= ended);
    assert(!"www."@.is_prefix_of(ended)) by {
        if "www."@.is_prefix_of(ended) {
            if joined.len() >= 4 {
                assert(joined.subrange(0, 4) =~= ended.subrange(0, 4));
            } else {
                assert(ended.subrange(0, 4)[3] == '.');
            }
        }
    }
    reveal_with_fuel(without_leading, 2);
    reveal_with_fuel(without_trailing, 2);
    assert(without_leading(bare, "www."@) == ended);
    assert(ended.drop_last() =~= joined);
    assert(without_trailing(ended, '/') == joined);
}

/// None of the ways to give an address has white space around it, and in ASCII
/// none of them changes in lower case, if the domain and the path do not.
pub proof fn lemma_ways_to_give(domain: Seq<char>, path: Seq<char>, k: int)
    requires
        is_path_below(domain, path),
        0 <= k < 4,
    ensures
        trimmed(ways_to_give(domain, path)[k]) == ways_to_give(domain, path)[k],
        is_ascii_chars(domain) && is_ascii_chars(path) && lowercase(domain) == domain && lowercase(
            path,
        ) == path ==> lowercase(ways_to_give(domain, path)[k]) == ways_to_give(domain, path)[k],
{
    reveal_strlit("https://www.");
    reveal_strlit("/");
    lemma_joined_is_bare(domain, path);
    lemma_full_address_pattern(domain, path);
    let way = ways_to_give(domain, path)[k];
    if is_ascii_chars(domain) && is_ascii_chars(path) && lowercase(domain) == domain && lowercase(
        path,
    ) == path {
        assert forall|i: int| 0 <= i < domain.len() implies ascii_lower(#[trigger] domain[i])
            == domain[i] by {
            assert(lowercase(domain)[i] == domain[i]);
        }
        assert forall|i: int| 0 <= i < path.len() implies ascii_lower(#[trigger] path[i])
            == path[i] by {
            assert(lowercase(path)[i] == path[i]);
        }
        assert(is_ascii_chars(way));
        assert(lowercase(way) =~= way);
    }
}

/// However the address of a game of a casino is given, by its path or in full, the
/// game gets the same pattern: the path behind the domain. White space around the
/// address and the case of its letters make no difference.
pub proof fn lemma_path_and_full_address_agree(
    casinos: Seq<CasinoView>,
    casino: Seq<char>,
    path: Seq<char>,
    address: Seq<char>,
    k: int,
)
    requires
        casino.len() > 0,
        is_path_below(casino_domain(casinos, casino), path),
        0 <= k < 4,
        lowercase(trimmed(address)) == ways_to_give(casino_domain(casinos, casino), path)[k],
    ensures
        added_pattern(casinos, casino, address) == casino_domain(casinos, casino) + "/"@ + path,
{
    reveal_strlit("/");
    let domain = casino_domain(casinos, casino);
    let joined = domain + "/"@ + path;
    lemma_joined_is_bare(domain, path);
    lemma_full_address_pattern(domain, path);
    lemma_slash_stripped(path);
    let slashed = "/"@ + path;
    if domain.is_prefix_of(slashed) {
        assert(slashed.subrange(0, domain.len() as int)[0] == '/');
    }
    assert(joined.subrange(0, domain.len() as int) =~= domain);
    assert(joined.skip(domain.len() as int) =~= slashed);
}

proof fn lemma_slash_stripped(path: Seq<char>)
    requires
        path.len() > 0,
        path[0] != '/',
    ensures
        without_leading(path, "/"@) == path,
        without_leading("/"@ + path, "/"@) == path,
{
    reveal_strlit("/");
    let slashed = "/"@ + path;
    if "/"@.is_prefix_of(path) {
        assert(path.subrange(0, 1)[0] == '/');
    }
    assert(slashed.subrange(0, 1) =~= "/"@);
    assert(slashed.skip(1) =~= path);
    assert(without_leading(slashed, "/"@) == without_leading(path, "/"@));
}

pub(crate) proof fn lemma_trimmed_twice(s: Seq<char>)
    ensures
        trimmed(trimmed(s)) == trimmed(s),
{
    lemma_trimmed_starts(s);
    lemma_trimmed_ends(trimmed_start(s));
}

proof fn lemma_trimmed_starts(s: Seq<char>)
    ensures
        trimmed_start(s).len() > 0 ==> !is_white(trimmed_start(s)[0]),
    decreases s.len(),
{
    if s.len() > 0 && is_white(s[0]) {
        lemma_trimmed_starts(s.drop_first());
    }
}

proof fn lemma_trimmed_ends(s: Seq<char>)
    ensures
        trimmed_end(s).len() > 0 ==> !is_white(trimmed_end(s).last()) && trimmed_end(s)[0] == s[0],
    decreases s.len(),
{
    if s.len() > 0 && is_white(s.last()) {
        lemma_trimmed_ends(s.drop_last());
    }
}

/// A form that gives a label and the address of a game of a casino, by its path or
/// in full, adds that game with the path behind the domain. White space around the
/// address and the case of its letters make no difference.
pub proof fn lemma_same_game_is_added(
    cfg: ConfigView,
    body: Map<Seq<char>, Seq<char>>,
    path: Seq<char>,
    k: int,
)
    requires
        trimmed(field(body, "label"@)).len() > 0,
        trimmed(field(body, "casino"@)).len() > 0,
        is_path_below(casino_domain(cfg.casinos, trimmed(field(body, "casino"@))), path),
        0 <= k < 4,
        lowercase(trimmed(field(body, "url_pattern"@))) == ways_to_give(
            casino_domain(cfg.casinos, trimmed(field(body, "casino"@))),
            path,
        )[k],
    ensures
        can_add(cfg, body),
        with_added(cfg, body).games.last().url_pattern == casino_domain(
            cfg.casinos,
            trimmed(field(body, "casino"@)),
        ) + "/"@ + path,
{
    let (label, casino, address) = asked_game(body);
    lemma_trimmed_twice(field(body, "url_pattern"@));
    lemma_path_and_full_address_agree(cfg.casinos, casino, path, address, k);
    assert(address.len() > 0) by {
        if address.len() == 0 {
            assert(lowercase(address).len() == 0);
        }
    }
}

// ---------------------------------------------------------------------------
// Removing a game
// ---------------------------------------------------------------------------

/// The games with another identifier.
pub open spec fn other_than(id: Seq<char>) -> spec_fn(GameView) -> bool {
    |g: GameView| g.id != id
}

/// A configuration without the games with that identifier.
pub open spec fn with_removed(cfg: ConfigView, id: Seq<char>) -> ConfigView {
    ConfigView { games: cfg.games.filter(other_than(id)), ..cfg }
}

/// Removes the games with that identifier.
pub fn remove_game(cfg: &mut Config, id: &String)
    ensures
        final(cfg)@ == with_removed(old(cfg)@, id@),
{
    let ghost all = cfg@.games;
    let mut kept: Vec<GameEntry> = Vec::new();
    proof {
        reveal(Seq::filter);
        assert(game_views(kept@) =~= all.take(0).filter(other_than(id@)));
    }
    for i in 0..cfg.games.len()
        invariant
            all == game_views(cfg.games@),
            game_views(kept@) == all.take(i as int).filter(other_than(id@)),
    {
        let ghost before = game_views(kept@);
        proof {
            reveal(Seq::filter);
            assert(all.take(i + 1).drop_last() =~= all.take(i as int));
            assert(all[i as int] == cfg.games@[i as int]@);
        }
        if cfg.games[i].id != *id {
            kept.push(cfg.games[i].clone());
            assert(game_views(kept@) =~= before.push(all[i as int]));
        }
    }
    assert(all.take(all.len() as int) =~= all);
    cfg.games = kept;
}

} // verus!
