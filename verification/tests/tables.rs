use rand::{RngCore, SeedableRng};
use chess_engine::board::Board;
use chess_engine::game_state::{CastlingRights, GameState};
use chess_engine::heuristics::SearchHeuristics;
use chess_engine::pieces::{Color, PieceType};
use chess_engine::rep_stack::RepetitionStack;
use chess_engine::tt::{
    decode_move, encode_move, from_tt_score, pack_data, pow2_for_hash_mb, to_tt_score, unpack_data, Bound,
    TranspositionTable,
};
use chess_engine::zobrist::{
    compute_zobrist_full, zobrist_toggle_piece, zobrist_toggle_side, zobrist_update_castling, zobrist_update_ep,
    ZobristKeys,
};

#[test]
fn tt_store_then_probe_returns_entry() {
    let mut tt = TranspositionTable::with_capacity_pow2(10);
    assert!(tt.probe(0xABCDEF).is_none());
    tt.store(0xABCDEF, 5, Bound::Lower, -123, Some(12), Some(28));
    let e = tt.probe(0xABCDEF).unwrap();
    assert_eq!(e.key, 0xABCDEF);
    assert_eq!(e.depth, 5);
    assert_eq!(e.bound, Bound::Lower);
    assert_eq!(e.score, -123);
    assert_eq!((e.best_from, e.best_to), (12, 28));
    tt.clear();
    assert!(tt.probe(0xABCDEF).is_none());
}

#[test]
fn pack_unpack_round_trip() {
    let d = pack_data(-4567, -3, Bound::Upper, 63, 0, 200);
    assert_eq!(unpack_data(d), (-4567, -3, Bound::Upper, 63, 0, 200));
    let d2 = pack_data(1_000_000, 127, Bound::Exact, 1, 2, 3);
    assert_eq!(unpack_data(d2), (1_000_000, 127, Bound::Exact, 1, 2, 3));
}

#[test]
fn move_encoding_round_trip() {
    assert_eq!(encode_move((1, 4), (3, 4)), (12, 28));
    assert_eq!(decode_move(12, 28), ((1, 4), (3, 4)));
    assert_eq!(decode_move(63, 0), ((7, 7), (0, 0)));
}

#[test]
fn mate_scores_are_stored_relative_to_node() {
    assert_eq!(to_tt_score(29_990, 4), 29_994);
    assert_eq!(from_tt_score(29_994, 4), 29_990);
    assert_eq!(to_tt_score(-29_990, 4), -29_994);
    assert_eq!(to_tt_score(150, 4), 150);
    for s in [-29_999, -29_001, -5, 0, 77, 29_500] {
        assert_eq!(from_tt_score(to_tt_score(s, 7), 7), s);
    }
}

#[test]
fn hash_size_exponent() {
    assert_eq!(pow2_for_hash_mb(0), 16);
    assert_eq!(pow2_for_hash_mb(1), 16);
    assert_eq!(pow2_for_hash_mb(16), 20);
    assert_eq!(pow2_for_hash_mb(64), 22);
}

#[test]
fn zobrist_incremental_updates_match_full_hash() {
    let keys = ZobristKeys::init_tables();
    let g = GameState::new();
    let full = compute_zobrist_full(&keys, g.board(), g.active_color(), &g.castling_rights(), g.en_passant_target());
    // lift the e2 pawn
    let mut b = *g.board();
    b.set(1, 4, None);
    let lifted = compute_zobrist_full(&keys, &b, Color::White, &g.castling_rights(), None);
    assert_eq!(zobrist_toggle_piece(&keys, full, PieceType::Pawn, Color::White, (1, 4)), lifted);
    // put it on e4
    let mut b2 = b;
    b2.set(3, 4, Some(chess_engine::pieces::Piece::new(PieceType::Pawn, Color::White)));
    let placed = compute_zobrist_full(&keys, &b2, Color::White, &g.castling_rights(), None);
    assert_eq!(zobrist_toggle_piece(&keys, lifted, PieceType::Pawn, Color::White, (3, 4)), placed);
    // side, castling and en passant
    let black = compute_zobrist_full(&keys, &b2, Color::Black, &g.castling_rights(), None);
    assert_eq!(zobrist_toggle_side(&keys, placed), black);
    let no_rights = compute_zobrist_full(&keys, &b2, Color::Black, &CastlingRights::none(), None);
    assert_eq!(zobrist_update_castling(&keys, black, &g.castling_rights(), &CastlingRights::none()), no_rights);
    let with_ep = compute_zobrist_full(&keys, &b2, Color::Black, &CastlingRights::none(), Some((2, 4)));
    assert_eq!(zobrist_update_ep(&keys, no_rights, None, Some((2, 4))), with_ep);
    assert_eq!(zobrist_update_ep(&keys, with_ep, Some((2, 4)), None), no_rights);
}

#[test]
fn zobrist_toggle_twice_is_identity() {
    let keys = ZobristKeys::init_tables();
    let k = 0x1234_5678_9ABC_DEF0u64;
    let once = zobrist_toggle_piece(&keys, k, PieceType::Queen, Color::Black, (4, 4));
    assert_ne!(once, k);
    assert_eq!(zobrist_toggle_piece(&keys, once, PieceType::Queen, Color::Black, (4, 4)), k);
    assert_eq!(zobrist_toggle_side(&keys, zobrist_toggle_side(&keys, k)), k);
}

#[test]
fn zobrist_keys_are_deterministic_and_distinguish_positions() {
    let a = ZobristKeys::init_tables();
    let b = ZobristKeys::init_tables();
    assert_eq!(a.piece, b.piece);
    let g = GameState::new();
    let empty = Board::empty();
    let h1 = compute_zobrist_full(&a, g.board(), Color::White, &CastlingRights::all(), None);
    let h2 = compute_zobrist_full(&a, &empty, Color::White, &CastlingRights::all(), None);
    assert_ne!(h1, h2);
}

#[test]
fn repetition_stack_counts_and_restores() {
    let mut rs = RepetitionStack::from_vec(vec![7, 9, 7]);
    assert_eq!(rs.count(7), 2);
    assert_eq!(rs.count(9), 1);
    assert!(rs.contains(&9));
    assert!(!rs.contains(&3));
    assert_eq!(rs.last(), Some(7));
    rs.push(3);
    assert_eq!(rs.count(3), 1);
    assert_eq!(rs.pop(), Some(3));
    assert!(!rs.contains(&3));
    assert_eq!(rs.pop(), Some(7));
    assert_eq!(rs.count(7), 1);
    assert_eq!(rs.pop(), Some(9));
    assert_eq!(rs.pop(), Some(7));
    assert_eq!(rs.pop(), None);
    assert_eq!(rs.count(7), 0);
    let mut empty = RepetitionStack::default();
    assert_eq!(empty.pop(), None);
    assert_eq!(empty.last(), None);
}

#[test]
fn killers_keep_two_most_recent() {
    let mut h = SearchHeuristics::new(10);
    assert_eq!(h.get_killers(3), [None, None]);
    h.add_killer(3, (0, 6), (2, 5));
    h.add_killer(3, (1, 4), (3, 4));
    assert!(h.is_killer(3, (0, 6), (2, 5)));
    assert!(h.is_killer(3, (1, 4), (3, 4)));
    assert_eq!(h.get_killers(3), [Some(((1, 4), (3, 4))), Some(((0, 6), (2, 5)))]);
    h.add_killer(3, (1, 3), (3, 3));
    assert!(!h.is_killer(3, (0, 6), (2, 5)));
    // plies beyond the table (at least 64 plies) are ignored
    h.add_killer(500, (1, 3), (3, 3));
    assert!(!h.is_killer(500, (1, 3), (3, 3)));
    assert_eq!(h.get_killers(500), [None, None]);
    h.clear();
    assert!(!h.is_killer(3, (1, 3), (3, 3)));
}

#[test]
fn history_is_capped() {
    let mut h = SearchHeuristics::new(64);
    h.add_history(Color::White, (1, 4), (3, 4), 600_000);
    assert_eq!(h.history_score(Color::White, (1, 4), (3, 4)), 600_000);
    h.add_history(Color::White, (1, 4), (3, 4), 600_000);
    assert_eq!(h.history_score(Color::White, (1, 4), (3, 4)), 1_000_000);
    h.add_history(Color::Black, (1, 4), (3, 4), -2_000_000);
    assert_eq!(h.history_score(Color::Black, (1, 4), (3, 4)), -1_000_000);
    assert_eq!(h.history_score(Color::White, (1, 3), (3, 3)), 0);
    h.add_continuation_history(Color::White, (3, 4), (0, 6), (2, 5), 32);
    assert_eq!(h.continuation_score(Color::White, (3, 4), (0, 6), (2, 5)), 32);
    assert_eq!(h.continuation_score(Color::Black, (3, 4), (0, 6), (2, 5)), 0);
}

#[test]
fn counter_moves_are_remembered() {
    let mut h = SearchHeuristics::new(64);
    assert!(!h.is_counter_move(Color::Black, (1, 4), (3, 4), (6, 4), (4, 4)));
    h.set_counter_move(Color::Black, (1, 4), (3, 4), (6, 4), (4, 4));
    assert!(h.is_counter_move(Color::Black, (1, 4), (3, 4), (6, 4), (4, 4)));
    assert!(!h.is_counter_move(Color::White, (1, 4), (3, 4), (6, 4), (4, 4)));
}

#[test]
fn zobrist_keys_are_the_seeded_stream_in_order() {
    let k = ZobristKeys::init_tables();
    let mut rng = rand::rngs::StdRng::seed_from_u64(chess_engine::zobrist::ZOBRIST_SEED);
    for i in 0..768 {
        assert_eq!(k.piece[i], rng.next_u64());
    }
    assert_eq!(k.side, rng.next_u64());
    for j in 0..16 {
        assert_eq!(k.castling[j], rng.next_u64());
    }
    for e in 0..8 {
        assert_eq!(k.ep[e], rng.next_u64());
    }
    assert_ne!(k.piece[0], k.piece[1]);
}

#[test]
fn tt_store_after_clear_is_taken_and_shadows_the_slot() {
    let mut tt = TranspositionTable::with_capacity_pow2(4);
    assert_eq!(tt.hashfull_permille(), 0);
    tt.store(5, 9, Bound::Exact, 40, Some(1), Some(2));
    tt.clear();
    assert_eq!(tt.hashfull_permille(), 0);
    tt.store(5, 0, Bound::Upper, -7, Some(3), Some(4));
    let e = tt.probe(5).unwrap();
    assert_eq!((e.depth, e.score, e.bound, e.best_from, e.best_to), (0, -7, Bound::Upper, 3, 4));
    // 5 + 16 falls into the same slot of a 16-slot table
    assert!(tt.probe(5 + 16).is_none());
}
