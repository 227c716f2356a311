use chess_nn::board::{
    board_to_vector_for_nn, board_to_vector_with_channels, material_delta_in_half_pawns, piece_to_half_pawns, Color,
    NumberOfDepthChannels, Piece, Square,
};
use chess_nn::game::{
    game_result, next_move_number, record_results, tournament_pairings, update_stats, ChessOutcome, GameResult_,
    PlayerInTournamentStats,
};

fn start_position() -> Vec<Square> {
    let back = [Piece::Rook, Piece::Knight, Piece::Bishop, Piece::Queen, Piece::King, Piece::Bishop, Piece::Knight, Piece::Rook];
    let mut squares: Vec<Square> = vec![None; 64];
    for file in 0..8 {
        squares[file] = Some((back[file], Color::White));
        squares[8 + file] = Some((Piece::Pawn, Color::White));
        squares[48 + file] = Some((Piece::Pawn, Color::Black));
        squares[56 + file] = Some((back[file], Color::Black));
    }
    squares
}

#[test]
fn encoding_of_a_lone_pawn() {
    let mut squares: Vec<Square> = vec![None; 64];
    squares[9] = Some((Piece::Pawn, Color::Black));
    let v = board_to_vector_for_nn(&squares);
    assert_eq!(v.len(), 1536);
    assert_eq!(v[64 * 6 + 9], 1);
    assert_eq!(v[64 * 12 + 9], 1);
    assert_eq!(v[64 * 18 + 9], -1);
    assert_eq!(v.iter().filter(|x| **x != 0).count(), 3);
}

#[test]
fn encoding_with_fewer_channels() {
    let mut squares: Vec<Square> = vec![None; 64];
    squares[63] = Some((Piece::King, Color::White));
    squares[0] = Some((Piece::Queen, Color::Black));
    let two = board_to_vector_with_channels(&squares, NumberOfDepthChannels::Two);
    assert_eq!(two.len(), 768);
    assert_eq!(two[64 * 5 + 63], 1);
    assert_eq!(two[64 * 10], 1);
    assert_eq!(two.iter().filter(|x| **x != 0).count(), 2);
    let three = board_to_vector_with_channels(&squares, NumberOfDepthChannels::Three { use_opposite_signs: true });
    assert_eq!(three.len(), 1152);
    assert_eq!(three[64 * 17 + 63], 1);
    assert_eq!(three[64 * 16], -1);
    let three_plain = board_to_vector_with_channels(&squares, NumberOfDepthChannels::Three { use_opposite_signs: false });
    assert_eq!(three_plain[64 * 16], 1);
}

#[test]
fn encoding_of_the_start_position_has_three_entries_per_piece() {
    let v = board_to_vector_for_nn(&start_position());
    assert_eq!(v.iter().filter(|x| **x != 0).count(), 3 * 32);
    assert_eq!(v.iter().map(|x| *x as i32).sum::<i32>(), 2 * 32);
}

#[test]
fn material_of_positions() {
    assert_eq!(material_delta_in_half_pawns(&start_position()), 0);
    let mut squares = start_position();
    squares[56 + 3] = None; // black queen gone
    assert_eq!(material_delta_in_half_pawns(&squares), 16);
    squares[1] = None; // white knight gone
    assert_eq!(material_delta_in_half_pawns(&squares), 11);
    assert_eq!(material_delta_in_half_pawns(&vec![None; 64]), 0);
    assert_eq!(piece_to_half_pawns(Piece::Knight), 5);
    assert_eq!(Color::Black.to_sign(), -1);
}

#[test]
fn result_symbols() {
    assert_eq!(GameResult_::WhiteWins.to_char(), 'W');
    assert_eq!(GameResult_::BlackWins.to_char(), 'B');
    assert_eq!(GameResult_::WhiteWinsByPoints.to_char(), 'w');
    assert_eq!(GameResult_::BlackWinsByPoints.to_char(), 'b');
    assert_eq!(GameResult_::DrawByPoints.to_char(), '.');
}

#[test]
fn results_of_games() {
    assert_eq!(game_result(Some(ChessOutcome::WhiteCheckmates), -40), GameResult_::WhiteWins);
    assert_eq!(game_result(Some(ChessOutcome::BlackResigns), 0), GameResult_::WhiteWins);
    assert_eq!(game_result(Some(ChessOutcome::BlackCheckmates), 40), GameResult_::BlackWins);
    assert_eq!(game_result(Some(ChessOutcome::WhiteResigns), 0), GameResult_::BlackWins);
    assert_eq!(game_result(Some(ChessOutcome::Stalemate), 3), GameResult_::WhiteWinsByPoints);
    assert_eq!(game_result(Some(ChessOutcome::DrawAccepted), -1), GameResult_::BlackWinsByPoints);
    assert_eq!(game_result(Some(ChessOutcome::DrawDeclared), 0), GameResult_::DrawByPoints);
    assert_eq!(game_result(None, 5), GameResult_::WhiteWinsByPoints);
    assert_eq!(game_result(None, 0), GameResult_::DrawByPoints);
}

#[test]
fn stats_count_each_kind_of_result() {
    let mut w = PlayerInTournamentStats::new();
    let mut b = PlayerInTournamentStats::new();
    update_stats(&mut w, &mut b, GameResult_::WhiteWins);
    update_stats(&mut w, &mut b, GameResult_::BlackWins);
    update_stats(&mut w, &mut b, GameResult_::BlackWins);
    update_stats(&mut w, &mut b, GameResult_::WhiteWinsByPoints);
    update_stats(&mut w, &mut b, GameResult_::BlackWinsByPoints);
    update_stats(&mut w, &mut b, GameResult_::DrawByPoints);
    assert_eq!(w, PlayerInTournamentStats { wins: 1, loses: 2, wins_by_points: 1, loses_by_points: 1, draws_by_points: 1 });
    assert_eq!(b, PlayerInTournamentStats { wins: 2, loses: 1, wins_by_points: 1, loses_by_points: 1, draws_by_points: 1 });
}

#[test]
fn round_robin_order() {
    assert_eq!(tournament_pairings(3), vec![(0, 1), (0, 2), (1, 0), (1, 2), (2, 0), (2, 1)]);
    assert_eq!(tournament_pairings(1), vec![]);
    assert_eq!(tournament_pairings(0), vec![]);
    let p = tournament_pairings(7);
    assert_eq!(p.len(), 42);
    let mut sorted = p.clone();
    sorted.sort();
    sorted.dedup();
    assert_eq!(sorted, p);
    assert!(p.iter().all(|(w, b)| w != b && *w < 7 && *b < 7));
}

fn mirror_result(r: GameResult_) -> GameResult_ {
    match r {
        GameResult_::WhiteWins => GameResult_::BlackWins,
        GameResult_::BlackWins => GameResult_::WhiteWins,
        GameResult_::WhiteWinsByPoints => GameResult_::BlackWinsByPoints,
        GameResult_::BlackWinsByPoints => GameResult_::WhiteWinsByPoints,
        GameResult_::DrawByPoints => GameResult_::DrawByPoints,
    }
}

fn mirror_outcome(o: ChessOutcome) -> ChessOutcome {
    match o {
        ChessOutcome::WhiteCheckmates => ChessOutcome::BlackCheckmates,
        ChessOutcome::BlackCheckmates => ChessOutcome::WhiteCheckmates,
        ChessOutcome::WhiteResigns => ChessOutcome::BlackResigns,
        ChessOutcome::BlackResigns => ChessOutcome::WhiteResigns,
        other => other,
    }
}

#[test]
fn exchanging_sides_mirrors_results() {
    let outcomes = [
        None,
        Some(ChessOutcome::WhiteCheckmates),
        Some(ChessOutcome::WhiteResigns),
        Some(ChessOutcome::BlackCheckmates),
        Some(ChessOutcome::BlackResigns),
        Some(ChessOutcome::Stalemate),
        Some(ChessOutcome::DrawAccepted),
        Some(ChessOutcome::DrawDeclared),
    ];
    for o in outcomes {
        for d in [-7, 0, 12] {
            assert_eq!(game_result(o.map(mirror_outcome), -d), mirror_result(game_result(o, d)));
        }
    }
}

#[test]
fn exchanging_colors_negates_material() {
    let mut squares = start_position();
    squares[59] = None;
    squares[10] = None;
    let swapped: Vec<Square> = squares.iter().map(|sq| sq.map(|(p, c)| (p, match c { Color::White => Color::Black, Color::Black => Color::White }))).collect();
    assert_eq!(material_delta_in_half_pawns(&swapped), -material_delta_in_half_pawns(&squares));
    assert_eq!(material_delta_in_half_pawns(&squares), 14);
}

#[test]
fn recording_with_exchanged_colors_exchanges_records() {
    for r in [GameResult_::WhiteWins, GameResult_::BlackWins, GameResult_::WhiteWinsByPoints, GameResult_::BlackWinsByPoints, GameResult_::DrawByPoints] {
        let (mut w1, mut b1) = (PlayerInTournamentStats::new(), PlayerInTournamentStats::new());
        update_stats(&mut w1, &mut b1, r);
        let (mut w2, mut b2) = (PlayerInTournamentStats::new(), PlayerInTournamentStats::new());
        update_stats(&mut b2, &mut w2, mirror_result(r));
        assert_eq!((w1, b1), (w2, b2));
    }
}

#[test]
fn recording_a_tournament_counts_every_game() {
    let pairings = tournament_pairings(3);
    let results = vec![
        GameResult_::WhiteWins,
        GameResult_::DrawByPoints,
        GameResult_::BlackWinsByPoints,
        GameResult_::WhiteWins,
        GameResult_::BlackWins,
        GameResult_::WhiteWinsByPoints,
    ];
    let mut stats = vec![PlayerInTournamentStats::new(); 3];
    record_results(&mut stats, &pairings, &results);
    // (0,1) W, (0,2) ., (1,0) b, (1,2) W, (2,0) B, (2,1) w
    assert_eq!(stats[0], PlayerInTournamentStats { wins: 2, loses: 0, wins_by_points: 1, loses_by_points: 0, draws_by_points: 1 });
    assert_eq!(stats[1], PlayerInTournamentStats { wins: 1, loses: 1, wins_by_points: 0, loses_by_points: 2, draws_by_points: 0 });
    assert_eq!(stats[2], PlayerInTournamentStats { wins: 0, loses: 2, wins_by_points: 1, loses_by_points: 0, draws_by_points: 1 });
    for s in &stats {
        assert_eq!(s.wins + s.loses + s.wins_by_points + s.loses_by_points + s.draws_by_points, 4);
    }
    let total = |f: fn(&PlayerInTournamentStats) -> u32| stats.iter().map(f).sum::<u32>();
    assert_eq!(total(|s| s.wins), total(|s| s.loses));
    assert_eq!(total(|s| s.wins_by_points), total(|s| s.loses_by_points));
}

#[test]
fn recording_adds_to_earlier_results() {
    let mut stats = vec![
        PlayerInTournamentStats { wins: 5, loses: 1, wins_by_points: 0, loses_by_points: 0, draws_by_points: 2 },
        PlayerInTournamentStats::new(),
    ];
    record_results(&mut stats, &[(1, 0), (0, 1)], &[GameResult_::WhiteWins, GameResult_::DrawByPoints]);
    assert_eq!(stats[0], PlayerInTournamentStats { wins: 5, loses: 2, wins_by_points: 0, loses_by_points: 0, draws_by_points: 3 });
    assert_eq!(stats[1], PlayerInTournamentStats { wins: 1, loses: 0, wins_by_points: 0, loses_by_points: 0, draws_by_points: 1 });
    let mut unchanged = stats.clone();
    record_results(&mut unchanged, &[], &[]);
    assert_eq!(unchanged, stats);
}

#[test]
fn game_loop_stops_at_the_move_limit_or_the_end() {
    assert_eq!(next_move_number(false, 0, 3), Some(1));
    assert_eq!(next_move_number(false, 2, 3), Some(3));
    assert_eq!(next_move_number(false, 3, 3), None);
    assert_eq!(next_move_number(true, 0, 3), None);
    assert_eq!(next_move_number(false, 0, 0), None);
    let mut moves = 0;
    let mut m = 0;
    while let Some(next) = next_move_number(false, m, 5) {
        m = next;
        moves += 1;
    }
    assert_eq!((moves, m), (5, 5));
}
