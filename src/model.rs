//! Signups, their games and opponents, and how a proposal becomes a signup.
use vstd::prelude::*;
use crate::clock::{Date, TimeOfDay, time_lt, lemma_minute_order};
use crate::parser::{ProposedSignup, has_earlier_twin, times_distinct};

verus! {

/// A record kind with a table in the store.
pub trait DbModel {
    /// The statement that creates the kind's table where it does not exist yet.
    fn create_query() -> &'static str;
}

/// A named opponent of one game.
#[derive(Clone, Debug)]
pub struct Opponent {
    pub id: u128,
    pub name: String,
}

/// One scheduled match of a signup.
#[derive(Clone, Copy, Debug, PartialEq, Eq, Structural)]
pub struct Game {
    pub id: u128,
    pub signup_id: u128,
    pub time: TimeOfDay,
    pub opponent_id: u128,
}

/// One proposal for a date. The game at position `i` plays the opponent at
/// position `i`; games are kept in strictly ascending time order.
#[derive(Clone, Debug)]
pub struct Signup {
    pub id: u128,
    pub date: Date,
    pub games: Vec<Game>,
    pub opponents: Vec<Opponent>,
}

impl Signup {
    pub open spec fn wf(&self) -> bool {
        &&& self.date.wf()
        &&& self.games@.len() == self.opponents@.len()
        &&& forall|i: int|
            0 <= i < self.games@.len() ==> {
                &&& (#[trigger] self.games@[i]).signup_id == self.id
                &&& self.games@[i].opponent_id == self.opponents@[i].id
                &&& self.games@[i].time.wf()
            }
        &&& forall|i: int, j: int|
            0 <= i < j < self.games@.len() ==> time_lt(
                #[trigger] self.games@[i].time,
                #[trigger] self.games@[j].time,
            )
    }
}

impl DbModel for Signup {
    fn create_query() -> (r: &'static str)
        ensures
            r@ == "CREATE TABLE IF NOT EXISTS signup (id BLOB PRIMARY KEY, date TEXT NOT NULL)"@,
    {
        proof {
            reveal_strlit("CREATE TABLE IF NOT EXISTS signup (id BLOB PRIMARY KEY, date TEXT NOT NULL)");
        }
        "CREATE TABLE IF NOT EXISTS signup (id BLOB PRIMARY KEY, date TEXT NOT NULL)"
    }
}

impl DbModel for Game {
    fn create_query() -> (r: &'static str)
        ensures
            r@ == "CREATE TABLE IF NOT EXISTS game (id BLOB PRIMARY KEY, time TEXT NOT NULL, opponent_id BLOB NOT NULL, signup_id BLOB NOT NULL)"@,
    {
        proof {
            reveal_strlit("CREATE TABLE IF NOT EXISTS game (id BLOB PRIMARY KEY, time TEXT NOT NULL, opponent_id BLOB NOT NULL, signup_id BLOB NOT NULL)");
        }
        "CREATE TABLE IF NOT EXISTS game (id BLOB PRIMARY KEY, time TEXT NOT NULL, opponent_id BLOB NOT NULL, signup_id BLOB NOT NULL)"
    }
}

impl DbModel for Opponent {
    fn create_query() -> (r: &'static str)
        ensures
            r@ == "CREATE TABLE IF NOT EXISTS opponent (id BLOB PRIMARY KEY, name TEXT NOT NULL)"@,
    {
        proof {
            reveal_strlit("CREATE TABLE IF NOT EXISTS opponent (id BLOB PRIMARY KEY, name TEXT NOT NULL)");
        }
        "CREATE TABLE IF NOT EXISTS opponent (id BLOB PRIMARY KEY, name TEXT NOT NULL)"
    }
}

/// One change of a role slot, kept for durability of the rosters: the game,
/// the role's position, the participant, and whether the slot was claimed
/// (or released).
#[derive(Clone, Copy, Debug, PartialEq, Eq, Structural)]
pub struct ClaimEvent {
    pub game_id: u128,
    pub role: u32,
    pub participant: u64,
    pub claimed: bool,
}

impl DbModel for ClaimEvent {
    fn create_query() -> (r: &'static str)
        ensures
            r@ == "CREATE TABLE IF NOT EXISTS claim_event (game_id BLOB NOT NULL, role INTEGER NOT NULL, participant INTEGER NOT NULL, claimed INTEGER NOT NULL)"@,
    {
        proof {
            reveal_strlit("CREATE TABLE IF NOT EXISTS claim_event (game_id BLOB NOT NULL, role INTEGER NOT NULL, participant INTEGER NOT NULL, claimed INTEGER NOT NULL)");
        }
        "CREATE TABLE IF NOT EXISTS claim_event (game_id BLOB NOT NULL, role INTEGER NOT NULL, participant INTEGER NOT NULL, claimed INTEGER NOT NULL)"
    }
}

/// The kickoff times of a proposal, in the order typed.
pub open spec fn proposal_times(p: ProposedSignup) -> Seq<TimeOfDay> {
    p.pairs@.map_values(|q: (TimeOfDay, String)| q.0)
}

impl ProposedSignup {
    /// A valid date, valid times, and no time twice.
    pub open spec fn wf(&self) -> bool {
        &&& self.date.wf()
        &&& forall|i: int| 0 <= i < self.pairs@.len() ==> (#[trigger] self.pairs@[i]).0.wf()
        &&& times_distinct(proposal_times(*self))
    }
}

/// Game `j` of `s` and its opponent are the ones made for pair `i` of `p`.
pub open spec fn made_from(
    s: Signup,
    j: int,
    p: ProposedSignup,
    i: int,
    game_ids: Seq<u128>,
    opponent_ids: Seq<u128>,
) -> bool {
    &&& s.games@[j] == Game {
        id: game_ids[i],
        signup_id: s.id,
        time: p.pairs@[i].0,
        opponent_id: opponent_ids[i],
    }
    &&& s.opponents@[j].id == opponent_ids[i]
    &&& s.opponents@[j].name@ == p.pairs@[i].1@
}

/// Some of the first `k` pairs of `p` has time `t` and opponent name `name`.
pub open spec fn from_pair(p: ProposedSignup, k: int, t: TimeOfDay, name: Seq<char>) -> bool {
    exists|i: int|
        0 <= i < k && (#[trigger] p.pairs@[i]).0 == t && p.pairs@[i].1@ == name
}

/// Pair `i` of `p` became some game of `s`.
pub open spec fn appears_in(
    s: Signup,
    p: ProposedSignup,
    i: int,
    game_ids: Seq<u128>,
    opponent_ids: Seq<u128>,
) -> bool {
    exists|j: int| 0 <= j < s.games@.len() && #[trigger] made_from(s, j, p, i, game_ids, opponent_ids)
}

/// Position at which a game at time `t` keeps `games` in time order.
fn insert_position(games: &Vec<Game>, t: TimeOfDay) -> (r: usize)
    requires
        forall|i: int, j: int|
            0 <= i < j < games@.len() ==> time_lt(
                #[trigger] games@[i].time,
                #[trigger] games@[j].time,
            ),
        forall|i: int| 0 <= i < games@.len() ==> (#[trigger] games@[i]).time != t,
    ensures
        r <= games@.len(),
        forall|i: int| 0 <= i < r ==> time_lt((#[trigger] games@[i]).time, t),
        forall|i: int| r <= i < games@.len() ==> time_lt(t, (#[trigger] games@[i]).time),
{
    let mut k: usize = 0;
    while k < games.len() && games[k].time.is_before(&t)
        invariant
            k <= games@.len(),
            forall|i: int| 0 <= i < k ==> time_lt((#[trigger] games@[i]).time, t),
        decreases games@.len() - k,
    {
        k = k + 1;
    }
    assert forall|i: int| k <= i < games@.len() implies time_lt(t, (#[trigger] games@[i]).time) by {
        if i > k {
            assert(time_lt(games@[k as int].time, games@[i].time));
        }
    }
    k
}

/// Builds the signup of a proposal from the identifiers given for it: one
/// game and one opponent per pair, with the pair's time and name, ordered by
/// time.
pub fn assemble_with_ids(
    p: &ProposedSignup,
    signup_id: u128,
    game_ids: &Vec<u128>,
    opponent_ids: &Vec<u128>,
) -> (r: Signup)
    requires
        p.wf(),
        game_ids@.len() == p.pairs@.len(),
        opponent_ids@.len() == p.pairs@.len(),
    ensures
        r.wf(),
        r.id == signup_id,
        r.date == p.date,
        r.games@.len() == p.pairs@.len(),
        forall|i: int|
            0 <= i < p.pairs@.len() ==> #[trigger] appears_in(r, *p, i, game_ids@, opponent_ids@),
        lists_pairs(r, *p),
{
    let n = p.pairs.len();
    let ghost ts = proposal_times(*p);
    let mut games: Vec<Game> = Vec::new();
    let mut opponents: Vec<Opponent> = Vec::new();
    let mut k: usize = 0;
    while k < n
        invariant
            n == p.pairs@.len(),
            p.wf(),
            ts == proposal_times(*p),
            game_ids@.len() == n,
            opponent_ids@.len() == n,
            k <= n,
            games@.len() == k,
            opponents@.len() == k,
            forall|i: int|
                0 <= i < k ==> {
                    &&& (#[trigger] games@[i]).signup_id == signup_id
                    &&& games@[i].opponent_id == opponents@[i].id
                    &&& games@[i].time.wf()
                },
            forall|i: int, j: int|
                0 <= i < j < games@.len() ==> time_lt(
                    #[trigger] games@[i].time,
                    #[trigger] games@[j].time,
                ),
            forall|j: int|
                0 <= j < k ==> from_pair(*p, k as int, (#[trigger] games@[j]).time, opponents@[j].name@),
            forall|i: int|
                0 <= i < k ==> #[trigger] appears_in(
                    Signup { id: signup_id, date: p.date, games, opponents },
                    *p,
                    i,
                    game_ids@,
                    opponent_ids@,
                ),
        decreases n - k,
    {
        let t = p.pairs[k].0;
        assert(ts[k as int] == t);
        assert forall|j: int| 0 <= j < games@.len() implies (#[trigger] games@[j]).time != t by {
            assert(from_pair(*p, k as int, games@[j].time, opponents@[j].name@));
            let i = choose|i: int|
                0 <= i < k && (#[trigger] p.pairs@[i]).0 == games@[j].time && p.pairs@[i].1@
                    == opponents@[j].name@;
            assert(ts[i] == p.pairs@[i].0);
            if games@[j].time == t {
                assert(has_earlier_twin(ts, k as int));
            }
        }
        let pos = insert_position(&games, t);
        let ghost old_games = games@;
        let ghost old_opps = opponents@;
        let ghost old_s = Signup { id: signup_id, date: p.date, games, opponents };
        let g = Game { id: game_ids[k], signup_id, time: t, opponent_id: opponent_ids[k] };
        let o = Opponent { id: opponent_ids[k], name: p.pairs[k].1.clone() };
        games.insert(pos, g);
        opponents.insert(pos, o);
        let ghost new_s = Signup { id: signup_id, date: p.date, games, opponents };
        proof {
            assert(games@[pos as int] == g);
            assert forall|i: int| 0 <= i < k + 1 implies #[trigger] appears_in(new_s, *p, i, game_ids@, opponent_ids@) by {
                if i == k {
                    assert(made_from(new_s, pos as int, *p, i, game_ids@, opponent_ids@));
                } else {
                    assert(appears_in(old_s, *p, i, game_ids@, opponent_ids@));
                    let j = choose|j: int| 0 <= j < k && made_from(old_s, j, *p, i, game_ids@, opponent_ids@);
                    if j < pos {
                        assert(made_from(new_s, j, *p, i, game_ids@, opponent_ids@));
                    } else {
                        assert(made_from(new_s, j + 1, *p, i, game_ids@, opponent_ids@));
                    }
                }
            }
            assert forall|j: int| 0 <= j < k + 1 implies from_pair(
                *p,
                k + 1,
                (#[trigger] games@[j]).time,
                opponents@[j].name@,
            ) by {
                if j == pos {
                    assert(p.pairs@[k as int].0 == games@[j].time);
                } else if j < pos {
                    assert(games@[j] == old_games[j] && opponents@[j] == old_opps[j]);
                    assert(from_pair(*p, k as int, old_games[j].time, old_opps[j].name@));
                } else {
                    assert(games@[j] == old_games[j - 1] && opponents@[j] == old_opps[j - 1]);
                    assert(from_pair(*p, k as int, old_games[j - 1].time, old_opps[j - 1].name@));
                }
            }
            assert forall|i: int, j: int|
                0 <= i < j < games@.len() implies time_lt(
                    #[trigger] games@[i].time,
                    #[trigger] games@[j].time,
                ) by {
                if j < pos {
                } else if j == pos {
                    assert(games@[i] == old_games[i]);
                } else if i == pos {
                    assert(games@[j] == old_games[j - 1]);
                } else if i < pos {
                    assert(games@[j] == old_games[j - 1]);
                    assert(games@[i] == old_games[i]);
                    assert(time_lt(old_games[i].time, t));
                    assert(time_lt(t, old_games[j - 1].time));
                } else {
                    assert(games@[j] == old_games[j - 1]);
                    assert(games@[i] == old_games[i - 1]);
                }
            }
            assert forall|i: int| 0 <= i < k + 1 implies {
                &&& (#[trigger] games@[i]).signup_id == signup_id
                &&& games@[i].opponent_id == opponents@[i].id
                &&& games@[i].time.wf()
            } by {
                if i < pos {
                    assert(games@[i] == old_games[i] && opponents@[i] == old_opps[i]);
                } else if i > pos {
                    assert(games@[i] == old_games[i - 1] && opponents@[i] == old_opps[i - 1]);
                }
            }
        }
        k = k + 1;
    }
    let r = Signup { id: signup_id, date: p.date, games, opponents };
    assert forall|i: int| 0 <= i < p.pairs@.len() implies has_game(
        r,
        (#[trigger] p.pairs@[i]).0,
        p.pairs@[i].1@,
    ) by {
        assert(appears_in(r, *p, i, game_ids@, opponent_ids@));
        let j = choose|j: int| 0 <= j < r.games@.len() && made_from(r, j, *p, i, game_ids@, opponent_ids@);
        assert(r.games@[j].time == p.pairs@[i].0 && r.opponents@[j].name@ == p.pairs@[i].1@);
    }
    assert forall|j: int| 0 <= j < r.games@.len() implies from_pair(
        *p,
        p.pairs@.len() as int,
        (#[trigger] r.games@[j]).time,
        r.opponents@[j].name@,
    ) by {
        assert(from_pair(*p, n as int, r.games@[j].time, r.opponents@[j].name@));
    }
    r
}

/// Some game of `s` is at time `t` against an opponent named `name`.
pub open spec fn has_game(s: Signup, t: TimeOfDay, name: Seq<char>) -> bool {
    exists|j: int|
        0 <= j < s.games@.len() && (#[trigger] s.games@[j]).time == t && s.opponents@[j].name@
            == name
}

/// Relies on `uuid::Uuid::new_v4` and `Uuid::as_u128`: a random identifier,
/// of which nothing is promised.
#[verifier::external_body]
fn fresh_id() -> (r: u128) {
    uuid::Uuid::new_v4().as_u128()
}

/// `n` freshly drawn identifiers.
fn fresh_ids(n: usize) -> (r: Vec<u128>)
    ensures
        r@.len() == n,
{
    let mut ids: Vec<u128> = Vec::new();
    let mut k: usize = 0;
    while k < n
        invariant
            k <= n,
            ids@.len() == k,
        decreases n - k,
    {
        ids.push(fresh_id());
        k = k + 1;
    }
    ids
}

/// Builds the signup of a proposal with freshly drawn identifiers: one game and
/// one opponent per pair, with the pair's time and name, ordered by time.
pub fn assemble(p: &ProposedSignup) -> (r: Signup)
    requires
        p.wf(),
    ensures
        r.wf(),
        r.date == p.date,
        r.games@.len() == p.pairs@.len(),
        forall|i: int|
            0 <= i < p.pairs@.len() ==> has_game(r, (#[trigger] p.pairs@[i]).0, p.pairs@[i].1@),
        lists_pairs(r, *p),
{
    let n = p.pairs.len();
    let signup_id = fresh_id();
    let game_ids = fresh_ids(n);
    let opponent_ids = fresh_ids(n);
    let r = assemble_with_ids(p, signup_id, &game_ids, &opponent_ids);
    assert forall|i: int| 0 <= i < p.pairs@.len() implies has_game(
        r,
        (#[trigger] p.pairs@[i]).0,
        p.pairs@[i].1@,
    ) by {
        assert(appears_in(r, *p, i, game_ids@, opponent_ids@));
        let j = choose|j: int| 0 <= j < r.games@.len() && made_from(r, j, *p, i, game_ids@, opponent_ids@);
        assert(r.games@[j].time == p.pairs@[i].0 && r.opponents@[j].name@ == p.pairs@[i].1@);
    }
    r
}

/// The decimal digit `d`.
pub open spec fn digit_char(d: int) -> char {
    if d == 0 { '0' } else if d == 1 { '1' } else if d == 2 { '2' } else if d == 3 { '3' }
    else if d == 4 { '4' } else if d == 5 { '5' } else if d == 6 { '6' } else if d == 7 { '7' }
    else if d == 8 { '8' } else { '9' }
}

/// `n` written with two digits.
pub open spec fn two_digits(n: int) -> Seq<char> {
    seq![digit_char(n / 10), digit_char(n % 10)]
}

/// The line of one game: `HH:MM :: <opponent name>`.
pub open spec fn game_line(t: TimeOfDay, name: Seq<char>) -> Seq<char> {
    two_digits(t.hour_spec()) + seq![':'] + two_digits(t.minute_spec()) + seq![' ', ':', ':', ' ']
        + name
}

/// The lines of the first `k` games of `s`, separated by newlines.
pub open spec fn game_lines(s: Signup, k: int) -> Seq<char>
    decreases k,
{
    if k <= 0 {
        Seq::<char>::empty()
    } else if k == 1 {
        game_line(s.games@[0].time, s.opponents@[0].name@)
    } else {
        game_lines(s, k - 1) + seq!['\n'] + game_line(s.games@[k - 1].time, s.opponents@[k - 1].name@)
    }
}

/// The header line of a summary.
pub open spec fn summary_header() -> Seq<char> {
    seq!['#', 'G', 'a', 'm', 'i', 'n', 'g', ' ', 't', 'i', 'm', 'e', '!', '\n']
}

/// The summary of a signup: the header, then one line per game in the
/// signup's order, then a final newline.
pub open spec fn summary_text(s: Signup) -> Seq<char> {
    summary_header() + game_lines(s, s.games@.len() as int) + seq!['\n']
}

/// The lines of fewer games are a prefix of the lines of more.
proof fn lemma_game_lines_prefix(s: Signup, k1: int, k2: int)
    requires
        0 <= k1 <= k2,
    ensures
        game_lines(s, k1).len() <= game_lines(s, k2).len(),
        game_lines(s, k2).subrange(0, game_lines(s, k1).len() as int) == game_lines(s, k1),
    decreases k2 - k1,
{
    if k1 < k2 {
        lemma_game_lines_prefix(s, k1, k2 - 1);
        let a = game_lines(s, k1);
        let b = game_lines(s, k2 - 1);
        let c = game_lines(s, k2);
        if k2 - 1 == 0 {
            assert(a =~= Seq::<char>::empty());
            assert(c.subrange(0, 0) =~= a);
        } else {
            assert(c.subrange(0, a.len() as int) =~= b.subrange(0, a.len() as int));
        }
    } else {
        assert(game_lines(s, k2).subrange(0, game_lines(s, k1).len() as int) =~= game_lines(s, k1));
    }
}

/// The summary of a well-formed signup lists its games in strictly ascending
/// time order: for games `i < j`, game `i` is earlier, and the text up to game
/// `i`'s line is a prefix of the text up to game `j`'s, which ends with the
/// line of game `j`. Where both games start on a whole minute, their `HH:MM`
/// readings ascend strictly too.
pub proof fn lemma_summary_ascending(s: Signup, i: int, j: int)
    requires
        s.wf(),
        0 <= i < j < s.games@.len(),
    ensures
        time_lt(s.games@[i].time, s.games@[j].time),
        s.games@[i].time.whole_minute() && s.games@[j].time.whole_minute() ==> {
            let a = s.games@[i].time;
            let b = s.games@[j].time;
            a.hour_spec() < b.hour_spec() || (a.hour_spec() == b.hour_spec() && a.minute_spec()
                < b.minute_spec())
        },
        game_lines(s, j + 1) == game_lines(s, j) + seq!['\n'] + game_line(
            s.games@[j].time,
            s.opponents@[j].name@,
        ),
        game_lines(s, j).subrange(0, game_lines(s, i + 1).len() as int) == game_lines(s, i + 1),
        game_lines(s, i + 1).len() <= game_lines(s, j).len(),
        summary_text(s).subrange(
            summary_header().len() as int,
            (summary_header().len() + game_lines(s, s.games@.len() as int).len()) as int,
        ) == game_lines(s, s.games@.len() as int),
{
    if s.games@[i].time.whole_minute() && s.games@[j].time.whole_minute() {
        lemma_minute_order(s.games@[i].time, s.games@[j].time);
    }
    lemma_game_lines_prefix(s, i + 1, j);
    assert(summary_text(s).subrange(
        summary_header().len() as int,
        (summary_header().len() + game_lines(s, s.games@.len() as int).len()) as int,
    ) =~= game_lines(s, s.games@.len() as int));
}

/// Two well-formed signups list the same games: each (time, opponent name) of
/// one is a game of the other.
pub open spec fn same_games(s1: Signup, s2: Signup) -> bool {
    &&& forall|i: int|
        0 <= i < s1.games@.len() ==> has_game(s2, (#[trigger] s1.games@[i]).time, s1.opponents@[i].name@)
    &&& forall|j: int|
        0 <= j < s2.games@.len() ==> has_game(s1, (#[trigger] s2.games@[j]).time, s2.opponents@[j].name@)
}

proof fn lemma_position_agrees(s1: Signup, s2: Signup, i: int)
    requires
        s1.wf(),
        s2.wf(),
        same_games(s1, s2),
        0 <= i,
        i < s1.games@.len() || i < s2.games@.len(),
    ensures
        i < s1.games@.len(),
        i < s2.games@.len(),
        s1.games@[i].time == s2.games@[i].time,
        s1.opponents@[i].name@ == s2.opponents@[i].name@,
    decreases i,
{
    assert forall|k: int| 0 <= k < i implies k < s1.games@.len() && k < s2.games@.len()
        && #[trigger] s1.games@[k].time == s2.games@[k].time by {
        lemma_position_agrees(s1, s2, k);
    }
    if i < s1.games@.len() {
        let t = s1.games@[i].time;
        assert(has_game(s2, t, s1.opponents@[i].name@));
        let j = choose|j: int|
            0 <= j < s2.games@.len() && (#[trigger] s2.games@[j]).time == t && s2.opponents@[j].name@
                == s1.opponents@[i].name@;
        if j < i {
            assert(time_lt(s1.games@[j].time, s1.games@[i].time));
        } else if j > i {
            let u = s2.games@[i].time;
            assert(has_game(s1, u, s2.opponents@[i].name@));
            let g = choose|g: int|
                0 <= g < s1.games@.len() && (#[trigger] s1.games@[g]).time == u
                    && s1.opponents@[g].name@ == s2.opponents@[i].name@;
            if g < i {
                assert(time_lt(s2.games@[g].time, s2.games@[i].time));
            } else if g > i {
                assert(time_lt(s1.games@[i].time, s1.games@[g].time));
                assert(time_lt(s2.games@[i].time, s2.games@[j].time));
            } else {
                assert(time_lt(s2.games@[i].time, s2.games@[j].time));
            }
        }
    } else {
        let u = s2.games@[i].time;
        assert(has_game(s1, u, s2.opponents@[i].name@));
        let g = choose|g: int|
            0 <= g < s1.games@.len() && (#[trigger] s1.games@[g]).time == u
                && s1.opponents@[g].name@ == s2.opponents@[i].name@;
        assert(time_lt(s2.games@[g].time, s2.games@[i].time));
    }
}

proof fn lemma_game_lines_agree(s1: Signup, s2: Signup, k: int)
    requires
        s1.wf(),
        s2.wf(),
        same_games(s1, s2),
        0 <= k <= s1.games@.len(),
        s1.games@.len() == s2.games@.len(),
    ensures
        game_lines(s1, k) == game_lines(s2, k),
    decreases k,
{
    if k > 0 {
        lemma_game_lines_agree(s1, s2, k - 1);
        lemma_position_agrees(s1, s2, k - 1);
        if k > 1 {
            lemma_position_agrees(s1, s2, 0);
        }
    }
}

/// The summary does not depend on the order in which games were given: two
/// well-formed signups that list the same games have the same summary.
pub proof fn lemma_summary_order_independent(s1: Signup, s2: Signup)
    requires
        s1.wf(),
        s2.wf(),
        same_games(s1, s2),
    ensures
        s1.games@.len() == s2.games@.len(),
        summary_text(s1) == summary_text(s2),
{
    let n1 = s1.games@.len() as int;
    let n2 = s2.games@.len() as int;
    if n1 < n2 {
        lemma_position_agrees(s1, s2, n1);
    } else if n2 < n1 {
        lemma_position_agrees(s1, s2, n2);
    }
    lemma_game_lines_agree(s1, s2, n1);
}

/// Every game of `s` is the time and opponent name of some pair of `p`, and
/// every pair of `p` is a game of `s`.
pub open spec fn lists_pairs(s: Signup, p: ProposedSignup) -> bool {
    &&& forall|i: int|
        0 <= i < p.pairs@.len() ==> has_game(s, (#[trigger] p.pairs@[i]).0, p.pairs@[i].1@)
    &&& forall|j: int|
        0 <= j < s.games@.len() ==> from_pair(
            p,
            p.pairs@.len() as int,
            (#[trigger] s.games@[j]).time,
            s.opponents@[j].name@,
        )
}

/// Two proposals that hold the same (time, opponent name) pairs, in any
/// order, give signups with the same summary.
pub proof fn lemma_summary_ignores_input_order(
    first: ProposedSignup,
    second: ProposedSignup,
    s1: Signup,
    s2: Signup,
)
    requires
        s1.wf(),
        s2.wf(),
        lists_pairs(s1, first),
        lists_pairs(s2, second),
        forall|i: int|
            0 <= i < first.pairs@.len() ==> exists|j: int|
                0 <= j < second.pairs@.len() && (#[trigger] first.pairs@[i]).0 == (#[trigger] second.pairs@[j]).0
                    && first.pairs@[i].1@ == second.pairs@[j].1@,
        forall|j: int|
            0 <= j < second.pairs@.len() ==> exists|i: int|
                0 <= i < first.pairs@.len() && (#[trigger] first.pairs@[i]).0 == (#[trigger] second.pairs@[j]).0
                    && first.pairs@[i].1@ == second.pairs@[j].1@,
    ensures
        summary_text(s1) == summary_text(s2),
{
    assert forall|i: int| 0 <= i < s1.games@.len() implies has_game(
        s2,
        (#[trigger] s1.games@[i]).time,
        s1.opponents@[i].name@,
    ) by {
        assert(from_pair(first, first.pairs@.len() as int, s1.games@[i].time, s1.opponents@[i].name@));
        let a = choose|a: int|
            0 <= a < first.pairs@.len() && (#[trigger] first.pairs@[a]).0 == s1.games@[i].time
                && first.pairs@[a].1@ == s1.opponents@[i].name@;
        let b = choose|b: int|
            0 <= b < second.pairs@.len() && first.pairs@[a].0 == (#[trigger] second.pairs@[b]).0
                && first.pairs@[a].1@ == second.pairs@[b].1@;
        assert(has_game(s2, second.pairs@[b].0, second.pairs@[b].1@));
    }
    assert forall|j: int| 0 <= j < s2.games@.len() implies has_game(
        s1,
        (#[trigger] s2.games@[j]).time,
        s2.opponents@[j].name@,
    ) by {
        assert(from_pair(second, second.pairs@.len() as int, s2.games@[j].time, s2.opponents@[j].name@));
        let b = choose|b: int|
            0 <= b < second.pairs@.len() && (#[trigger] second.pairs@[b]).0 == s2.games@[j].time
                && second.pairs@[b].1@ == s2.opponents@[j].name@;
        let a = choose|a: int|
            0 <= a < first.pairs@.len() && (#[trigger] first.pairs@[a]).0 == second.pairs@[b].0
                && first.pairs@[a].1@ == second.pairs@[b].1@;
        assert(has_game(s1, first.pairs@[a].0, first.pairs@[a].1@));
    }
    lemma_summary_order_independent(s1, s2);
}

/// The digit `d` as text.
pub(crate) fn digit_str(d: u32) -> (r: &'static str)
    requires
        d < 10,
    ensures
        r@ == seq![digit_char(d as int)],
{
    proof {
        reveal_strlit("0");
        reveal_strlit("1");
        reveal_strlit("2");
        reveal_strlit("3");
        reveal_strlit("4");
        reveal_strlit("5");
        reveal_strlit("6");
        reveal_strlit("7");
        reveal_strlit("8");
        reveal_strlit("9");
    }
    if d == 0 { "0" } else if d == 1 { "1" } else if d == 2 { "2" } else if d == 3 { "3" }
    else if d == 4 { "4" } else if d == 5 { "5" } else if d == 6 { "6" } else if d == 7 { "7" }
    else if d == 8 { "8" } else { "9" }
}

/// Appends the line of one game to `out`.
fn push_game_line(out: &mut String, t: TimeOfDay, name: &String)
    requires
        t.wf(),
    ensures
        final(out)@ == old(out)@ + game_line(t, name@),
{
    let h = t.hour();
    let m = t.minute();
    out.append(digit_str(h / 10));
    out.append(digit_str(h % 10));
    proof { reveal_strlit(":"); reveal_strlit(" :: "); }
    out.append(":");
    out.append(digit_str(m / 10));
    out.append(digit_str(m % 10));
    out.append(" :: ");
    out.append(name.as_str());
    assert(final(out)@ =~= old(out)@ + game_line(t, name@));
}

/// A readable listing of the signup: a header line, then one line per game in
/// ascending time order, formatted `HH:MM :: <opponent name>`.
pub fn render_summary(s: &Signup) -> (r: String)
    requires
        s.wf(),
    ensures
        r@ == summary_text(*s),
{
    let mut out = String::new();
    proof { reveal_strlit("#Gaming time!\n"); reveal_strlit("\n"); }
    out.append("#Gaming time!\n");
    assert(out@ =~= summary_header());
    let n = s.games.len();
    let mut k: usize = 0;
    while k < n
        invariant
            s.wf(),
            n == s.games@.len(),
            k <= n,
            out@ == summary_header() + game_lines(*s, k as int),
        decreases n - k,
    {
        let ghost before = out@;
        proof { reveal_strlit("\n"); }
        if k > 0 {
            out.append("\n");
        }
        assert(s.games@[k as int].time.wf());
        push_game_line(&mut out, s.games[k].time, &s.opponents[k].name);
        let ghost line = game_line(s.games@[k as int].time, s.opponents@[k as int].name@);
        if k == 0 {
            assert(game_lines(*s, 1) == line);
            assert(before =~= summary_header());
            assert(out@ =~= summary_header() + game_lines(*s, k + 1));
        } else {
            assert(game_lines(*s, k + 1) == game_lines(*s, k as int) + seq!['\n'] + line);
            assert(out@ =~= summary_header() + game_lines(*s, k + 1));
        }
        k = k + 1;
    }
    proof { reveal_strlit("\n"); }
    out.append("\n");
    assert(out@ =~= summary_text(*s));
    out
}

} // verus!
