//! Results of games between two players, the move limit of a game, the
//! per-player tournament counters, the order in which a round-robin
//! tournament plays its games, and the recording of all of its results.

use vstd::prelude::*;

verus! {

/// The result of a game, from white's point of view. A game that ends without
/// a winner (stalemate, agreed or declared draw, move limit) is decided by
/// material: a win by points, or a draw by points when material is level.
#[allow(non_camel_case_types)]
#[derive(Debug, Clone, Copy, PartialEq, Eq, Structural)]
pub enum GameResult_ {
    WhiteWins,
    BlackWins,
    WhiteWinsByPoints,
    BlackWinsByPoints,
    DrawByPoints,
}

impl GameResult_ {
    pub open spec fn spec_to_char(self) -> char {
        match self {
            GameResult_::WhiteWins => 'W',
            GameResult_::BlackWins => 'B',
            GameResult_::WhiteWinsByPoints => 'w',
            GameResult_::BlackWinsByPoints => 'b',
            GameResult_::DrawByPoints => '.',
        }
    }

    /// The one-character symbol of the result: `W`, `B`, `w`, `b` or `.`.
    pub fn to_char(self) -> (r: char)
        ensures
            r == self.spec_to_char(),
    {
        match self {
            GameResult_::WhiteWins => 'W',
            GameResult_::BlackWins => 'B',
            GameResult_::WhiteWinsByPoints => 'w',
            GameResult_::BlackWinsByPoints => 'b',
            GameResult_::DrawByPoints => '.',
        }
    }

    /// The same result with the sides' roles exchanged.
    pub open spec fn mirrored(self) -> GameResult_ {
        match self {
            GameResult_::WhiteWins => GameResult_::BlackWins,
            GameResult_::BlackWins => GameResult_::WhiteWins,
            GameResult_::WhiteWinsByPoints => GameResult_::BlackWinsByPoints,
            GameResult_::BlackWinsByPoints => GameResult_::WhiteWinsByPoints,
            GameResult_::DrawByPoints => GameResult_::DrawByPoints,
        }
    }
}

/// Distinct results have distinct symbols.
pub proof fn lemma_to_char_injective(a: GameResult_, b: GameResult_)
    ensures
        a.spec_to_char() == b.spec_to_char() ==> a == b,
{
}

/// How a game of chess ended, when it ended by the rules or by agreement.
#[derive(Debug, Clone, Copy, PartialEq, Eq, Structural)]
pub enum ChessOutcome {
    WhiteCheckmates,
    WhiteResigns,
    BlackCheckmates,
    BlackResigns,
    Stalemate,
    DrawAccepted,
    DrawDeclared,
}

impl ChessOutcome {
    /// The same outcome with the sides' roles exchanged.
    pub open spec fn mirrored(self) -> ChessOutcome {
        match self {
            ChessOutcome::WhiteCheckmates => ChessOutcome::BlackCheckmates,
            ChessOutcome::BlackCheckmates => ChessOutcome::WhiteCheckmates,
            ChessOutcome::WhiteResigns => ChessOutcome::BlackResigns,
            ChessOutcome::BlackResigns => ChessOutcome::WhiteResigns,
            ChessOutcome::Stalemate => ChessOutcome::Stalemate,
            ChessOutcome::DrawAccepted => ChessOutcome::DrawAccepted,
            ChessOutcome::DrawDeclared => ChessOutcome::DrawDeclared,
        }
    }
}

/// The result of a game without a winner, decided by white's material
/// advantage (in any unit; only its sign counts).
pub open spec fn result_by_points(material_delta: int) -> GameResult_ {
    if material_delta < 0 {
        GameResult_::BlackWinsByPoints
    } else if material_delta == 0 {
        GameResult_::DrawByPoints
    } else {
        GameResult_::WhiteWinsByPoints
    }
}

/// The result of a game that ended with `outcome` (`None` when the move limit
/// stopped it first, which counts as a stalemate) and with white's material
/// advantage `material_delta`.
pub open spec fn spec_game_result(outcome: Option<ChessOutcome>, material_delta: int) -> GameResult_ {
    match outcome {
        Some(ChessOutcome::WhiteCheckmates) | Some(ChessOutcome::BlackResigns) => GameResult_::WhiteWins,
        Some(ChessOutcome::WhiteResigns) | Some(ChessOutcome::BlackCheckmates) => GameResult_::BlackWins,
        _ => result_by_points(material_delta),
    }
}

/// The result of a finished game (see `spec_game_result`).
pub fn game_result(outcome: Option<ChessOutcome>, material_delta: i32) -> (r: GameResult_)
    ensures
        r == spec_game_result(outcome, material_delta as int),
{
    let outcome = match outcome {
        Some(o) => o,
        None => ChessOutcome::Stalemate,
    };
    match outcome {
        ChessOutcome::WhiteCheckmates | ChessOutcome::BlackResigns => GameResult_::WhiteWins,
        ChessOutcome::WhiteResigns | ChessOutcome::BlackCheckmates => GameResult_::BlackWins,
        ChessOutcome::Stalemate | ChessOutcome::DrawAccepted | ChessOutcome::DrawDeclared => {
            if material_delta < 0 {
                GameResult_::BlackWinsByPoints
            } else if material_delta == 0 {
                GameResult_::DrawByPoints
            } else {
                GameResult_::WhiteWinsByPoints
            }
        },
    }
}

/// Exchanging the sides' roles in a game (its outcome and its material)
/// exchanges them in its result.
pub proof fn lemma_game_result_mirrored(outcome: Option<ChessOutcome>, material_delta: int)
    ensures
        spec_game_result(
            match outcome { Some(o) => Some(o.mirrored()), None => None },
            -material_delta,
        ) == spec_game_result(outcome, material_delta).mirrored(),
{
}

/// How a game ends: a checkmate or a resignation decides it for the side that
/// did not lose; any other end (stalemate, an accepted or declared draw, the
/// move limit) is decided by material alone, for the side ahead, and is a draw
/// by points only when material is level.
pub proof fn lemma_game_result_decided(outcome: Option<ChessOutcome>, material_delta: int)
    ensures
        outcome == Some(ChessOutcome::WhiteCheckmates) || outcome == Some(ChessOutcome::BlackResigns)
            ==> spec_game_result(outcome, material_delta) == GameResult_::WhiteWins,
        outcome == Some(ChessOutcome::BlackCheckmates) || outcome == Some(ChessOutcome::WhiteResigns)
            ==> spec_game_result(outcome, material_delta) == GameResult_::BlackWins,
        outcome == None::<ChessOutcome> || outcome == Some(ChessOutcome::Stalemate)
            || outcome == Some(ChessOutcome::DrawAccepted) || outcome == Some(ChessOutcome::DrawDeclared) ==> {
            &&& (spec_game_result(outcome, material_delta) == GameResult_::WhiteWinsByPoints <==> material_delta > 0)
            &&& (spec_game_result(outcome, material_delta) == GameResult_::BlackWinsByPoints <==> material_delta < 0)
            &&& (spec_game_result(outcome, material_delta) == GameResult_::DrawByPoints <==> material_delta == 0)
        },
{
}

/// A player's results in one tournament.
#[derive(Debug, Clone, Copy, PartialEq, Eq, Structural)]
pub struct PlayerInTournamentStats {
    pub wins: u32,
    pub loses: u32,
    pub wins_by_points: u32,
    pub loses_by_points: u32,
    pub draws_by_points: u32,
}

impl PlayerInTournamentStats {
    /// No games yet.
    pub fn new() -> (r: Self)
        ensures
            r == (PlayerInTournamentStats { wins: 0, loses: 0, wins_by_points: 0, loses_by_points: 0, draws_by_points: 0 }),
    {
        PlayerInTournamentStats { wins: 0, loses: 0, wins_by_points: 0, loses_by_points: 0, draws_by_points: 0 }
    }

    /// The number of games recorded.
    pub open spec fn games(self) -> int {
        self.wins + self.loses + self.wins_by_points + self.loses_by_points + self.draws_by_points
    }
}

/// Whether recording `result` overflows none of the counters it increments.
pub open spec fn can_record(white: PlayerInTournamentStats, black: PlayerInTournamentStats, result: GameResult_) -> bool {
    match result {
        GameResult_::WhiteWins => white.wins < u32::MAX && black.loses < u32::MAX,
        GameResult_::BlackWins => black.wins < u32::MAX && white.loses < u32::MAX,
        GameResult_::WhiteWinsByPoints => white.wins_by_points < u32::MAX && black.loses_by_points < u32::MAX,
        GameResult_::BlackWinsByPoints => black.wins_by_points < u32::MAX && white.loses_by_points < u32::MAX,
        GameResult_::DrawByPoints => white.draws_by_points < u32::MAX && black.draws_by_points < u32::MAX,
    }
}

/// The two players' results after recording `result`: the winner's win
/// counter and the loser's loss counter (of the kind of the result), or both
/// draw counters, go up by one.
pub open spec fn spec_update_stats(
    white: PlayerInTournamentStats,
    black: PlayerInTournamentStats,
    result: GameResult_,
) -> (PlayerInTournamentStats, PlayerInTournamentStats) {
    match result {
        GameResult_::WhiteWins => (
            PlayerInTournamentStats { wins: (white.wins + 1) as u32, ..white },
            PlayerInTournamentStats { loses: (black.loses + 1) as u32, ..black },
        ),
        GameResult_::BlackWins => (
            PlayerInTournamentStats { loses: (white.loses + 1) as u32, ..white },
            PlayerInTournamentStats { wins: (black.wins + 1) as u32, ..black },
        ),
        GameResult_::WhiteWinsByPoints => (
            PlayerInTournamentStats { wins_by_points: (white.wins_by_points + 1) as u32, ..white },
            PlayerInTournamentStats { loses_by_points: (black.loses_by_points + 1) as u32, ..black },
        ),
        GameResult_::BlackWinsByPoints => (
            PlayerInTournamentStats { loses_by_points: (white.loses_by_points + 1) as u32, ..white },
            PlayerInTournamentStats { wins_by_points: (black.wins_by_points + 1) as u32, ..black },
        ),
        GameResult_::DrawByPoints => (
            PlayerInTournamentStats { draws_by_points: (white.draws_by_points + 1) as u32, ..white },
            PlayerInTournamentStats { draws_by_points: (black.draws_by_points + 1) as u32, ..black },
        ),
    }
}

/// Records the result of a game between `white` and `black`.
pub fn update_stats(white: &mut PlayerInTournamentStats, black: &mut PlayerInTournamentStats, game_result: GameResult_)
    requires
        can_record(*old(white), *old(black), game_result),
    ensures
        (*final(white), *final(black)) == spec_update_stats(*old(white), *old(black), game_result),
{
    match game_result {
        GameResult_::WhiteWins => {
            white.wins = white.wins + 1;
            black.loses = black.loses + 1;
        },
        GameResult_::BlackWins => {
            black.wins = black.wins + 1;
            white.loses = white.loses + 1;
        },
        GameResult_::WhiteWinsByPoints => {
            white.wins_by_points = white.wins_by_points + 1;
            black.loses_by_points = black.loses_by_points + 1;
        },
        GameResult_::BlackWinsByPoints => {
            black.wins_by_points = black.wins_by_points + 1;
            white.loses_by_points = white.loses_by_points + 1;
        },
        GameResult_::DrawByPoints => {
            white.draws_by_points = white.draws_by_points + 1;
            black.draws_by_points = black.draws_by_points + 1;
        },
    }
}

/// Recording a game counts exactly one more game for each player, and keeps
/// the two players' wins equal to their losses, and their wins by points
/// equal to their losses by points, when they were so before.
pub proof fn lemma_update_stats_counts_one_game(
    white: PlayerInTournamentStats,
    black: PlayerInTournamentStats,
    result: GameResult_,
)
    requires
        can_record(white, black, result),
    ensures
        ({
            let (w, b) = spec_update_stats(white, black, result);
            &&& w.games() == white.games() + 1
            &&& b.games() == black.games() + 1
            &&& w.wins + b.wins - w.loses - b.loses == white.wins + black.wins - white.loses - black.loses
            &&& w.wins_by_points + b.wins_by_points - w.loses_by_points - b.loses_by_points
                == white.wins_by_points + black.wins_by_points - white.loses_by_points - black.loses_by_points
        }),
{
}

/// Exchanging the players' colors exchanges their records of the game.
pub proof fn lemma_update_stats_mirrored(
    white: PlayerInTournamentStats,
    black: PlayerInTournamentStats,
    result: GameResult_,
)
    requires
        can_record(white, black, result),
    ensures
        ({
            let (w, b) = spec_update_stats(white, black, result);
            let (b2, w2) = spec_update_stats(black, white, result.mirrored());
            w == w2 && b == b2
        }),
{
}

/// The game at position `k` of a round robin between `n` players where each
/// pair meets twice, once with each color: `(white, black)`, in increasing
/// order of white, then of black.
pub open spec fn pairing_at(n: int, k: int) -> (int, int) {
    let i = k / (n - 1);
    let r = k % (n - 1);
    (i, if r < i { r } else { r + 1 })
}

/// The games of a tournament between `players_n` players: every ordered pair
/// `(white, black)` of distinct players, in increasing order of white, then of black.
pub fn tournament_pairings(players_n: usize) -> (r: Vec<(usize, usize)>)
    requires
        players_n * players_n <= usize::MAX,
    ensures
        is_tournament(r@, players_n as int),
{
    let n = players_n;
    let mut r: Vec<(usize, usize)> = Vec::new();
    if n == 0 {
        return r;
    }
    let mut white_i: usize = 0;
    while white_i < n
        invariant
            n == players_n,
            n >= 1,
            white_i <= n,
            r@.len() == white_i * (n - 1),
            forall|k: int| 0 <= k < r@.len() ==> (#[trigger] r@[k]).0 == pairing_at(n as int, k).0
                && r@[k].1 == pairing_at(n as int, k).1,
        decreases n - white_i,
    {
        let mut black_i: usize = 0;
        while black_i < n
            invariant
                n == players_n,
                n >= 1,
                white_i < n,
                black_i <= n,
                r@.len() == white_i * (n - 1) + black_i - (if black_i > white_i { 1int } else { 0int }),
                forall|k: int| 0 <= k < r@.len() ==> (#[trigger] r@[k]).0 == pairing_at(n as int, k).0
                    && r@[k].1 == pairing_at(n as int, k).1,
            decreases n - black_i,
        {
            if white_i != black_i {
                let ghost k = r@.len() as int;
                let ghost jj = black_i - (if black_i > white_i { 1int } else { 0int });
                proof {
                    assert(0 <= jj < n - 1);
                    vstd::arithmetic::div_mod::lemma_fundamental_div_mod_converse(k, n - 1, white_i as int, jj);
                }
                r.push((white_i, black_i));
            }
            black_i = black_i + 1;
        }
        proof {
            assert(white_i * (n - 1) + (n - 1) == (white_i + 1) * (n - 1)) by (nonlinear_arith);
        }
        white_i = white_i + 1;
    }
    r
}

/// Every game of the tournament is played exactly once: each ordered pair of
/// distinct players is at one position, and the positions are in strictly
/// increasing order of (white, black).
pub proof fn lemma_pairings_complete(n: int, white: int, black: int)
    requires
        0 <= white < n,
        0 <= black < n,
        white != black,
    ensures
        ({
            let k = white * (n - 1) + (if black < white { black } else { black - 1 });
            &&& 0 <= k < n * (n - 1)
            &&& pairing_at(n, k) == (white, black)
        }),
{
    let jj = if black < white { black } else { black - 1 };
    let k = white * (n - 1) + jj;
    vstd::arithmetic::div_mod::lemma_fundamental_div_mod_converse(k, n - 1, white, jj);
    assert(0 <= k < n * (n - 1)) by (nonlinear_arith)
        requires k == white * (n - 1) + jj, 0 <= white < n, 0 <= jj < n - 1;
}

/// Every position of a tournament between `n` players holds a game between
/// two distinct players among the `n`.
pub proof fn lemma_pairing_in_range(n: int, k: int)
    requires
        n >= 2,
        0 <= k < n * (n - 1),
    ensures
        0 <= pairing_at(n, k).0 < n,
        0 <= pairing_at(n, k).1 < n,
        pairing_at(n, k).0 != pairing_at(n, k).1,
{
    let d = n - 1;
    vstd::arithmetic::div_mod::lemma_fundamental_div_mod(k, d);
    vstd::arithmetic::div_mod::lemma_mod_pos_bound(k, d);
    vstd::arithmetic::div_mod::lemma_div_pos_is_pos(k, d);
    let q = k / d;
    assert(q < n) by (nonlinear_arith)
        requires k == d * q + k % d, 0 <= k % d, k < n * d, d > 0;
}

/// Later positions hold later games: white's index does not decrease, and for
/// the same white, black's index increases.
pub proof fn lemma_pairings_sorted(n: int, k1: int, k2: int)
    requires
        n >= 2,
        0 <= k1 < k2 < n * (n - 1),
    ensures
        pairing_at(n, k1).0 < pairing_at(n, k2).0
            || (pairing_at(n, k1).0 == pairing_at(n, k2).0 && pairing_at(n, k1).1 < pairing_at(n, k2).1),
        pairing_at(n, k1).0 != pairing_at(n, k1).1,
        0 <= pairing_at(n, k1).0 < n && 0 <= pairing_at(n, k1).1 < n,
{
    let d = n - 1;
    vstd::arithmetic::div_mod::lemma_fundamental_div_mod(k1, d);
    vstd::arithmetic::div_mod::lemma_fundamental_div_mod(k2, d);
    vstd::arithmetic::div_mod::lemma_div_is_ordered(k1, k2, d);
    vstd::arithmetic::div_mod::lemma_mod_pos_bound(k1, d);
    vstd::arithmetic::div_mod::lemma_mod_pos_bound(k2, d);
    vstd::arithmetic::div_mod::lemma_div_pos_is_pos(k1, d);
    let q1 = k1 / d;
    assert(q1 < n) by (nonlinear_arith)
        requires k1 == d * q1 + k1 % d, 0 <= k1 % d, k1 < n * d, d > 0;
    if k1 / d == k2 / d {
        assert(k1 % d < k2 % d);
    }
}


/// The table of players' results after recording, in order, the game
/// `pairings[k]` (white's index, black's index) with result `results[k]`.
pub open spec fn spec_record_results(
    stats: Seq<PlayerInTournamentStats>,
    pairings: Seq<(usize, usize)>,
    results: Seq<GameResult_>,
) -> Seq<PlayerInTournamentStats>
    decreases pairings.len(),
{
    if pairings.len() == 0 {
        stats
    } else {
        let before = spec_record_results(stats, pairings.drop_last(), results.drop_last());
        let (white_i, black_i) = pairings.last();
        let (w, b) = spec_update_stats(before[white_i as int], before[black_i as int], results.last());
        before.update(white_i as int, w).update(black_i as int, b)
    }
}

/// Whether every game of `pairings` is between two distinct players of the
/// table and has a result.
pub open spec fn valid_games(
    stats: Seq<PlayerInTournamentStats>,
    pairings: Seq<(usize, usize)>,
    results: Seq<GameResult_>,
) -> bool {
    &&& results.len() == pairings.len()
    &&& forall|k: int| 0 <= k < pairings.len() ==> (#[trigger] pairings[k]).0 < stats.len()
            && pairings[k].1 < stats.len() && pairings[k].0 != pairings[k].1
}

/// Whether recording the games in order overflows no counter: each game can
/// be recorded on the table that the games before it left.
pub open spec fn can_record_all(
    stats: Seq<PlayerInTournamentStats>,
    pairings: Seq<(usize, usize)>,
    results: Seq<GameResult_>,
) -> bool {
    forall|k: int| 0 <= k < pairings.len() ==> {
        let before = #[trigger] spec_record_results(stats, pairings.take(k), results.take(k));
        can_record(before[pairings[k].0 as int], before[pairings[k].1 as int], results[k])
    }
}

/// Records the result of every game of a tournament, in the order of the
/// games, in the table of the players' results.
pub fn record_results(
    stats: &mut Vec<PlayerInTournamentStats>,
    pairings: &[(usize, usize)],
    results: &[GameResult_],
)
    requires
        valid_games(old(stats)@, pairings@, results@),
        can_record_all(old(stats)@, pairings@, results@),
    ensures
        final(stats)@ == spec_record_results(old(stats)@, pairings@, results@),
{
    let ghost initial = stats@;
    let mut k: usize = 0;
    while k < pairings.len()
        invariant
            k <= pairings@.len(),
            valid_games(initial, pairings@, results@),
            can_record_all(initial, pairings@, results@),
            stats@ == spec_record_results(initial, pairings@.take(k as int), results@.take(k as int)),
            stats@.len() == initial.len(),
        decreases pairings@.len() - k,
    {
        let (white_i, black_i) = pairings[k];
        let result = results[k];
        proof {
            assert(pairings@[k as int].0 < initial.len());
            assert(pairings@.take(k as int + 1).drop_last() =~= pairings@.take(k as int));
            assert(results@.take(k as int + 1).drop_last() =~= results@.take(k as int));
        }
        let mut white = stats[white_i];
        let mut black = stats[black_i];
        update_stats(&mut white, &mut black, result);
        stats.set(white_i, white);
        stats.set(black_i, black);
        k = k + 1;
    }
    proof {
        assert(pairings@.take(k as int) =~= pairings@);
        assert(results@.take(k as int) =~= results@);
    }
}


/// The number of games of `pairings` in which player `j` plays, with either color.
pub open spec fn appearances(pairings: Seq<(usize, usize)>, j: int) -> int
    decreases pairings.len(),
{
    if pairings.len() == 0 {
        0
    } else {
        appearances(pairings.drop_last(), j) + (if pairings.last().0 == j || pairings.last().1 == j {
            1int
        } else {
            0int
        })
    }
}

/// The sum of `f` over the players' results.
pub open spec fn sum_of(stats: Seq<PlayerInTournamentStats>, f: spec_fn(PlayerInTournamentStats) -> int) -> int
    decreases stats.len(),
{
    if stats.len() == 0 {
        0
    } else {
        sum_of(stats.drop_last(), f) + f(stats.last())
    }
}

/// A player's wins less their losses.
pub open spec fn balance(x: PlayerInTournamentStats) -> int {
    x.wins - x.loses
}

/// A player's wins by points less their losses by points.
pub open spec fn balance_by_points(x: PlayerInTournamentStats) -> int {
    x.wins_by_points - x.loses_by_points
}

proof fn lemma_sum_of_update(
    stats: Seq<PlayerInTournamentStats>,
    i: int,
    x: PlayerInTournamentStats,
    f: spec_fn(PlayerInTournamentStats) -> int,
)
    requires
        0 <= i < stats.len(),
    ensures
        sum_of(stats.update(i, x), f) == sum_of(stats, f) - f(stats[i]) + f(x),
    decreases stats.len(),
{
    let u = stats.update(i, x);
    if i == stats.len() - 1 {
        assert(u.drop_last() =~= stats.drop_last());
    } else {
        assert(u.drop_last() =~= stats.drop_last().update(i, x));
        lemma_sum_of_update(stats.drop_last(), i, x, f);
    }
}

proof fn lemma_prefix_games(
    stats: Seq<PlayerInTournamentStats>,
    pairings: Seq<(usize, usize)>,
    results: Seq<GameResult_>,
)
    requires
        pairings.len() > 0,
        valid_games(stats, pairings, results),
        can_record_all(stats, pairings, results),
    ensures
        valid_games(stats, pairings.drop_last(), results.drop_last()),
        can_record_all(stats, pairings.drop_last(), results.drop_last()),
        can_record(
            spec_record_results(stats, pairings.drop_last(), results.drop_last())[pairings.last().0 as int],
            spec_record_results(stats, pairings.drop_last(), results.drop_last())[pairings.last().1 as int],
            results.last(),
        ),
{
    let p = pairings.drop_last();
    let r = results.drop_last();
    assert forall|k: int| 0 <= k < p.len() implies {
        let before = #[trigger] spec_record_results(stats, p.take(k), r.take(k));
        can_record(before[p[k].0 as int], before[p[k].1 as int], r[k])
    } by {
        assert(p.take(k) =~= pairings.take(k));
        assert(r.take(k) =~= results.take(k));
        assert(spec_record_results(stats, pairings.take(k), results.take(k)) == spec_record_results(
            stats,
            pairings.take(k),
            results.take(k),
        ));
    }
    let n = pairings.len() - 1;
    assert(pairings.take(n) =~= p);
    assert(results.take(n) =~= r);
    assert(spec_record_results(stats, pairings.take(n), results.take(n)) == spec_record_results(
        stats,
        pairings.take(n),
        results.take(n),
    ));
}

/// Recording a tournament's games keeps the table's size, and adds to each
/// player's count of games the number of games that they played.
pub proof fn lemma_record_results_counts_games(
    stats: Seq<PlayerInTournamentStats>,
    pairings: Seq<(usize, usize)>,
    results: Seq<GameResult_>,
    j: int,
)
    requires
        valid_games(stats, pairings, results),
        can_record_all(stats, pairings, results),
        0 <= j < stats.len(),
    ensures
        spec_record_results(stats, pairings, results).len() == stats.len(),
        spec_record_results(stats, pairings, results)[j].games() == stats[j].games() + appearances(pairings, j),
    decreases pairings.len(),
{
    if pairings.len() > 0 {
        lemma_prefix_games(stats, pairings, results);
        lemma_record_results_counts_games(stats, pairings.drop_last(), results.drop_last(), j);
        let before = spec_record_results(stats, pairings.drop_last(), results.drop_last());
        let (white_i, black_i) = pairings.last();
        lemma_update_stats_counts_one_game(before[white_i as int], before[black_i as int], results.last());
    }
}

/// Recording a tournament's games keeps the sum over all players of wins less
/// losses, and of wins by points less losses by points: every game adds a win
/// and a loss of the same kind, or two draws. In particular, in a table that
/// starts empty, the players together have as many wins as losses.
pub proof fn lemma_record_results_balanced(
    stats: Seq<PlayerInTournamentStats>,
    pairings: Seq<(usize, usize)>,
    results: Seq<GameResult_>,
)
    requires
        valid_games(stats, pairings, results),
        can_record_all(stats, pairings, results),
    ensures
        sum_of(spec_record_results(stats, pairings, results), |x: PlayerInTournamentStats| balance(x))
            == sum_of(stats, |x: PlayerInTournamentStats| balance(x)),
        sum_of(spec_record_results(stats, pairings, results), |x: PlayerInTournamentStats| balance_by_points(x))
            == sum_of(stats, |x: PlayerInTournamentStats| balance_by_points(x)),
    decreases pairings.len(),
{
    if pairings.len() > 0 {
        let f = |x: PlayerInTournamentStats| balance(x);
        let g = |x: PlayerInTournamentStats| balance_by_points(x);
        lemma_prefix_games(stats, pairings, results);
        lemma_record_results_balanced(stats, pairings.drop_last(), results.drop_last());
        let before = spec_record_results(stats, pairings.drop_last(), results.drop_last());
        lemma_record_results_counts_games(stats, pairings.drop_last(), results.drop_last(), 0);
        let (white_i, black_i) = pairings.last();
        let (w, b) = spec_update_stats(before[white_i as int], before[black_i as int], results.last());
        let mid = before.update(white_i as int, w);
        lemma_sum_of_update(before, white_i as int, w, f);
        lemma_sum_of_update(mid, black_i as int, b, f);
        lemma_sum_of_update(before, white_i as int, w, g);
        lemma_sum_of_update(mid, black_i as int, b, g);
        lemma_update_stats_counts_one_game(before[white_i as int], before[black_i as int], results.last());
    }
}


proof fn lemma_appearances_add(a: Seq<(usize, usize)>, b: Seq<(usize, usize)>, j: int)
    ensures
        appearances(a + b, j) == appearances(a, j) + appearances(b, j),
    decreases b.len(),
{
    if b.len() == 0 {
        assert(a + b =~= a);
    } else {
        assert((a + b).drop_last() =~= a + b.drop_last());
        lemma_appearances_add(a, b.drop_last(), j);
    }
}

/// Whether `pairings` lists, position by position, the games of a tournament
/// between `n` players (see `pairing_at`).
pub open spec fn is_tournament(pairings: Seq<(usize, usize)>, n: int) -> bool {
    &&& pairings.len() == n * (n - 1)
    &&& forall|k: int| 0 <= k < pairings.len() ==> (#[trigger] pairings[k]).0 == pairing_at(n, k).0
            && pairings[k].1 == pairing_at(n, k).1
}

proof fn lemma_row_prefix_appearances(pairings: Seq<(usize, usize)>, n: int, i: int, c: int, j: int)
    requires
        n >= 2,
        is_tournament(pairings, n),
        0 <= i < n,
        0 <= j < n,
        0 <= c <= n - 1,
    ensures
        ({
            let lo = i * (n - 1);
            let jj = if j < i { j } else { j - 1 };
            &&& 0 <= lo
            &&& lo + (n - 1) <= n * (n - 1)
            &&& appearances(pairings.subrange(lo, lo + c), j) == if i == j {
                c
            } else if jj < c {
                1int
            } else {
                0int
            }
        }),
    decreases c,
{
    let lo = i * (n - 1);
    assert(0 <= lo && lo + (n - 1) <= n * (n - 1)) by (nonlinear_arith)
        requires lo == i * (n - 1), 0 <= i < n, n >= 2;
    if c > 0 {
        lemma_row_prefix_appearances(pairings, n, i, c - 1, j);
        assert(pairings.subrange(lo, lo + c).drop_last() =~= pairings.subrange(lo, lo + c - 1));
        vstd::arithmetic::div_mod::lemma_fundamental_div_mod_converse(lo + c - 1, n - 1, i, c - 1);
        assert(pairings.subrange(lo, lo + c).last() == pairings[lo + c - 1]);
    } else {
        assert(pairings.subrange(lo, lo) =~= Seq::<(usize, usize)>::empty());
    }
}

proof fn lemma_rows_appearances(pairings: Seq<(usize, usize)>, n: int, i: int, j: int)
    requires
        n >= 2,
        is_tournament(pairings, n),
        0 <= i <= n,
        0 <= j < n,
    ensures
        0 <= i * (n - 1) <= n * (n - 1),
        appearances(pairings.take(i * (n - 1)), j) == if j < i { (n - 1) + (i - 1) } else { i },
    decreases i,
{
    assert(0 <= i * (n - 1) <= n * (n - 1)) by (nonlinear_arith)
        requires 0 <= i <= n, n >= 2;
    if i == 0 {
        assert(i * (n - 1) == 0) by (nonlinear_arith)
            requires i == 0;
        assert(pairings.take(0) =~= Seq::<(usize, usize)>::empty());
    } else {
        let lo = (i - 1) * (n - 1);
        assert(lo + (n - 1) == i * (n - 1)) by (nonlinear_arith)
            requires lo == (i - 1) * (n - 1);
        lemma_rows_appearances(pairings, n, i - 1, j);
        lemma_row_prefix_appearances(pairings, n, i - 1, n - 1, j);
        assert(pairings.take(i * (n - 1)) =~= pairings.take(lo) + pairings.subrange(lo, lo + (n - 1)));
        lemma_appearances_add(pairings.take(lo), pairings.subrange(lo, lo + (n - 1)), j);
    }
}

/// In a tournament between `n` players each player plays `2 * (n - 1)`
/// games: one with each color against each other player.
pub proof fn lemma_tournament_appearances(pairings: Seq<(usize, usize)>, n: int, j: int)
    requires
        n >= 1,
        is_tournament(pairings, n),
        0 <= j < n,
    ensures
        appearances(pairings, j) == 2 * (n - 1),
{
    if n == 1 {
        assert(n * (n - 1) == 0) by (nonlinear_arith)
            requires n == 1;
    } else {
        lemma_rows_appearances(pairings, n, n, j);
        assert(pairings.take(n * (n - 1)) =~= pairings);
    }
}

/// Recording all the games of a tournament between the `n` players of the
/// table counts `2 * (n - 1)` more games for each player.
pub proof fn lemma_tournament_counts_games(
    stats: Seq<PlayerInTournamentStats>,
    pairings: Seq<(usize, usize)>,
    results: Seq<GameResult_>,
    j: int,
)
    requires
        is_tournament(pairings, stats.len() as int),
        results.len() == pairings.len(),
        can_record_all(stats, pairings, results),
        0 <= j < stats.len(),
    ensures
        spec_record_results(stats, pairings, results)[j].games() == stats[j].games() + 2 * (stats.len() - 1),
{
    let n = stats.len() as int;
    if n < 2 {
        assert(n * (n - 1) == 0) by (nonlinear_arith)
            requires 0 <= n < 2;
    }
    assert forall|k: int| 0 <= k < pairings.len() implies (#[trigger] pairings[k]).0 < stats.len()
        && pairings[k].1 < stats.len() && pairings[k].0 != pairings[k].1 by {
        lemma_pairing_in_range(n, k);
    }
    lemma_record_results_counts_games(stats, pairings, results, j);
    lemma_tournament_appearances(pairings, n, j);
}


/// One turn of a game's loop: whether a move is made next, given whether the
/// game has ended, the number of moves made so far and the move limit. When it
/// is, the result is the number of moves made after it.
pub fn next_move_number(game_ended: bool, move_number: u32, move_limit: u32) -> (r: Option<u32>)
    ensures
        r == if !game_ended && move_number < move_limit {
            Some((move_number + 1) as u32)
        } else {
            None::<u32>
        },
        r matches Some(m) ==> m <= move_limit,
{
    if !game_ended && move_number < move_limit {
        Some(move_number + 1)
    } else {
        None
    }
}

} // verus!
