use chess::CastleType;
use chess::GamePhase;
use chess::GameState;
use chess::Interaction;
use chess::Move;
use chess::Piece;
use chess::PieceKind;
use chess::PlayerColor;
use chess::Position;

/// Perform one two-click move: select the piece, then place it.
fn mv(state: GameState, from: (i32, i32), to: (i32, i32)) -> GameState {
    let state = state.interact(Interaction::StartMovingPiece(Position(from.0, from.1)));
    state.interact(Interaction::PlacedPiece(Position(to.0, to.1)))
}

fn moves_of(state: &GameState, pos: (i32, i32)) -> Vec<Move> {
    let p = Position(pos.0, pos.1);
    let piece = state.piece_at(p).expect("no piece on that square");
    piece.moves(p, state)
}

#[test]
fn initial_position_layout() {
    let s = GameState::new();
    assert_eq!(
        s.piece_at(Position(0, 0)),
        Some(Piece { kind: PieceKind::Rook, color: PlayerColor::Black })
    );
    assert_eq!(
        s.piece_at(Position(4, 0)),
        Some(Piece { kind: PieceKind::King, color: PlayerColor::Black })
    );
    assert_eq!(
        s.piece_at(Position(4, 7)),
        Some(Piece { kind: PieceKind::King, color: PlayerColor::White })
    );
    assert_eq!(
        s.piece_at(Position(3, 7)),
        Some(Piece { kind: PieceKind::Queen, color: PlayerColor::White })
    );
    for file in 0..8 {
        assert_eq!(
            s.piece_at(Position(file, 1)),
            Some(Piece { kind: PieceKind::Pawn, color: PlayerColor::Black })
        );
        assert_eq!(
            s.piece_at(Position(file, 6)),
            Some(Piece { kind: PieceKind::Pawn, color: PlayerColor::White })
        );
        for rank in 2..6 {
            assert_eq!(s.piece_at(Position(file, rank)), None);
        }
    }
    assert_eq!(s.phase(), GamePhase::Turn(PlayerColor::White));
    assert!(s.interaction().is_none());
}

#[test]
fn opponent_swaps_colors() {
    assert_eq!(PlayerColor::White.oppnent(), PlayerColor::Black);
    assert_eq!(PlayerColor::Black.oppnent(), PlayerColor::White);
    assert_eq!(PlayerColor::White.oppnent().oppnent(), PlayerColor::White);
}

#[test]
fn position_index_is_file_plus_rank_times_eight() {
    assert_eq!(Position(0, 0).idx(), 0);
    assert_eq!(Position(4, 7).idx(), 60);
    assert_eq!(Position(7, 7).idx(), 63);
}

#[test]
fn castle_positions_short_white() {
    let cm = CastleType::Short.positions(PlayerColor::White);
    assert_eq!(cm.rook_start, Position(7, 7));
    assert_eq!(cm.king_start, Position(4, 7));
    assert_eq!(cm.rook_end, Position(5, 7));
    assert_eq!(cm.king_end, Position(6, 7));
    let cm = CastleType::Long.positions(PlayerColor::Black);
    assert_eq!(cm.rook_start, Position(0, 0));
    assert_eq!(cm.king_end, Position(2, 0));
}

#[test]
fn ttf_glyphs() {
    assert_eq!(PieceKind::King.to_ttf(PlayerColor::White), "k");
    assert_eq!(PieceKind::Queen.to_ttf(PlayerColor::Black), "w");
    assert_eq!(PieceKind::Pawn.to_ttf(PlayerColor::Black), "o");
}

#[test]
fn initial_pawn_has_single_and_double_push() {
    let s = GameState::new();
    let ms = moves_of(&s, (4, 6));
    assert_eq!(ms, vec![Move::Move(Position(4, 5)), Move::Move(Position(4, 4))]);
}

#[test]
fn initial_knight_has_two_moves() {
    let s = GameState::new();
    let ms = moves_of(&s, (6, 7));
    assert_eq!(ms.len(), 2);
    assert!(ms.contains(&Move::Move(Position(7, 5))));
    assert!(ms.contains(&Move::Move(Position(5, 5))));
}

#[test]
fn selecting_empty_or_opposing_square_is_ignored() {
    let s = GameState::new();
    let s = s.interact(Interaction::StartMovingPiece(Position(4, 4)));
    assert!(s.interaction().is_none());
    let s = s.interact(Interaction::StartMovingPiece(Position(0, 0)));
    assert!(s.interaction().is_none());
    let s = s.interact(Interaction::StartMovingPiece(Position(0, 6)));
    assert!(matches!(
        s.interaction(),
        Some(Interaction::StartMovingPiece(Position(0, 6)))
    ));
}

#[test]
fn placing_without_matching_move_is_a_no_op() {
    let s = GameState::new();
    let s = mv(s, (4, 6), (4, 2));
    assert_eq!(s.phase(), GamePhase::Turn(PlayerColor::White));
    assert_eq!(
        s.piece_at(Position(4, 6)),
        Some(Piece { kind: PieceKind::Pawn, color: PlayerColor::White })
    );
    assert!(s.interaction().is_none());
}

#[test]
fn fools_mate_ends_won_black() {
    let s = GameState::new();
    let s = mv(s, (5, 6), (5, 5)); // white f-pawn one step
    assert_eq!(s.phase(), GamePhase::Turn(PlayerColor::Black));
    let s = mv(s, (4, 1), (4, 3)); // black e-pawn two steps
    let s = mv(s, (6, 6), (6, 4)); // white g-pawn two steps
    let s = mv(s, (3, 0), (7, 4)); // black queen to the h-file
    assert_eq!(s.phase(), GamePhase::Won(PlayerColor::Black));
}

#[test]
fn finished_game_absorbs_interactions() {
    let s = GameState::new();
    let s = mv(s, (5, 6), (5, 5));
    let s = mv(s, (4, 1), (4, 3));
    let s = mv(s, (6, 6), (6, 4));
    let s = mv(s, (3, 0), (7, 4));
    assert_eq!(s.phase(), GamePhase::Won(PlayerColor::Black));
    let s = mv(s, (4, 6), (4, 5));
    assert_eq!(s.phase(), GamePhase::Won(PlayerColor::Black));
    assert_eq!(
        s.piece_at(Position(4, 6)),
        Some(Piece { kind: PieceKind::Pawn, color: PlayerColor::White })
    );
}

#[test]
fn en_passant_capture_works_immediately() {
    let s = GameState::new();
    let s = mv(s, (7, 6), (7, 5)); // white h3
    let s = mv(s, (3, 1), (3, 3)); // black d5
    let s = mv(s, (7, 5), (7, 4)); // white h4
    let s = mv(s, (3, 3), (3, 4)); // black d4
    let s = mv(s, (4, 6), (4, 4)); // white e4, double step past e3
    // the black d-pawn may now capture en passant onto e3
    let ms = moves_of(&s, (3, 4));
    assert!(ms.contains(&Move::Take(Position(4, 5), Position(4, 4))));
    let s = mv(s, (3, 4), (4, 5));
    assert_eq!(
        s.piece_at(Position(4, 5)),
        Some(Piece { kind: PieceKind::Pawn, color: PlayerColor::Black })
    );
    assert_eq!(s.piece_at(Position(4, 4)), None, "the captured pawn is gone");
    assert_eq!(s.piece_at(Position(3, 4)), None);
}

#[test]
fn en_passant_one_half_move_too_late_is_refused() {
    let s = GameState::new();
    let s = mv(s, (7, 6), (7, 5)); // white h3
    let s = mv(s, (3, 1), (3, 3)); // black d5
    let s = mv(s, (7, 5), (7, 4)); // white h4
    let s = mv(s, (3, 3), (3, 4)); // black d4
    let s = mv(s, (4, 6), (4, 4)); // white e4: en passant is open for one half-move
    let s = mv(s, (0, 1), (0, 2)); // black declines and plays a6
    let s = mv(s, (0, 6), (0, 5)); // white a3
    // the late en-passant try must be absorbed as a no-op
    let ms = moves_of(&s, (3, 4));
    assert!(!ms.contains(&Move::Take(Position(4, 5), Position(4, 4))));
    let s = mv(s, (3, 4), (4, 5));
    assert_eq!(s.phase(), GamePhase::Turn(PlayerColor::Black));
    assert_eq!(
        s.piece_at(Position(3, 4)),
        Some(Piece { kind: PieceKind::Pawn, color: PlayerColor::Black })
    );
    assert_eq!(
        s.piece_at(Position(4, 4)),
        Some(Piece { kind: PieceKind::Pawn, color: PlayerColor::White })
    );
    assert_eq!(s.piece_at(Position(4, 5)), None);
}

/// Clear f1 and g1 so White's short side is free, with quiet replies by Black.
fn cleared_short_side() -> GameState {
    let s = GameState::new();
    let s = mv(s, (6, 7), (5, 5)); // white knight g1 to f3
    let s = mv(s, (0, 1), (0, 2)); // black a6
    let s = mv(s, (4, 6), (4, 5)); // white e3
    let s = mv(s, (1, 1), (1, 2)); // black b6
    let s = mv(s, (5, 7), (4, 6)); // white bishop f1 to e2
    mv(s, (2, 1), (2, 2)) // black c6
}

#[test]
fn free_short_side_offers_castling() {
    let s = cleared_short_side();
    let ms = moves_of(&s, (4, 7));
    assert!(ms.contains(&Move::Castle(CastleType::Short)));
    assert!(!ms.contains(&Move::Castle(CastleType::Long)));
    // perform it through the two-click protocol: place the king on g1
    let s = mv(s, (4, 7), (6, 7));
    assert_eq!(
        s.piece_at(Position(6, 7)),
        Some(Piece { kind: PieceKind::King, color: PlayerColor::White })
    );
    assert_eq!(
        s.piece_at(Position(5, 7)),
        Some(Piece { kind: PieceKind::Rook, color: PlayerColor::White })
    );
    assert_eq!(s.piece_at(Position(4, 7)), None);
    assert_eq!(s.piece_at(Position(7, 7)), None);
}

#[test]
fn moving_the_rook_and_back_does_not_restore_castling() {
    let s = cleared_short_side();
    let s = mv(s, (7, 7), (6, 7)); // white rook h1 to g1
    let s = mv(s, (3, 1), (3, 2)); // black d6
    let s = mv(s, (6, 7), (7, 7)); // white rook back to h1
    let s = mv(s, (4, 1), (4, 2)); // black e6
    let ms = moves_of(&s, (4, 7));
    assert!(!ms.contains(&Move::Castle(CastleType::Short)));
}

#[test]
fn occupied_short_side_refuses_castling() {
    let s = GameState::new();
    let ms = moves_of(&s, (4, 7));
    assert!(!ms.contains(&Move::Castle(CastleType::Short)));
    assert!(!ms.contains(&Move::Castle(CastleType::Long)));
}

/// Walk a white pawn to h7 with the eighth rank square h8 cleared.
fn pawn_about_to_promote() -> GameState {
    let s = GameState::new();
    let s = mv(s, (6, 6), (6, 4)); // white g4
    let s = mv(s, (7, 1), (7, 3)); // black h5
    let s = mv(s, (6, 4), (7, 3)); // white gxh5
    let s = mv(s, (6, 0), (5, 2)); // black knight g8 to f6
    let s = mv(s, (7, 3), (7, 2)); // white h6
    let s = mv(s, (7, 0), (6, 0)); // black rook h8 to g8
    let s = mv(s, (7, 2), (7, 1)); // white h7
    mv(s, (0, 1), (0, 2)) // black a6
}

#[test]
fn push_to_last_rank_offers_exactly_four_promotions() {
    let s = pawn_about_to_promote();
    let ms = moves_of(&s, (7, 1));
    let to_h8: Vec<&Move> = ms
        .iter()
        .filter(|m| match m {
            Move::Move(p) => *p == Position(7, 0),
            Move::Take(p, _) => *p == Position(7, 0),
            Move::Promote(p, _) => *p == Position(7, 0),
            Move::Castle(_) => false,
        })
        .collect();
    assert_eq!(to_h8.len(), 4, "exactly four candidates reach the last rank");
    let kinds: Vec<PieceKind> = to_h8
        .iter()
        .map(|m| match m {
            Move::Promote(_, piece) => piece.kind,
            _ => panic!("a pawn reaching the last rank must only promote"),
        })
        .collect();
    assert_eq!(
        kinds,
        vec![PieceKind::Queen, PieceKind::Rook, PieceKind::Knight, PieceKind::Bishop]
    );
}

#[test]
fn promotion_goes_through_the_choice_dialog() {
    let s = pawn_about_to_promote();
    let s = mv(s, (7, 1), (7, 0));
    // several candidates match, so the engine asks for a choice
    match s.interaction() {
        Some(Interaction::PickingPromotion(from, onto, choices)) => {
            assert_eq!(*from, Position(7, 1));
            assert_eq!(*onto, Position(7, 0));
            assert_eq!(choices.len(), 4);
        },
        other => panic!("expected a promotion choice, got {:?}", other),
    }
    // a piece outside the candidate set is absorbed
    let s = s.interact(Interaction::PickedPromotion(Piece {
        kind: PieceKind::King,
        color: PlayerColor::White,
    }));
    assert!(matches!(s.interaction(), Some(Interaction::PickingPromotion(_, _, _))));
    assert_eq!(s.phase(), GamePhase::Turn(PlayerColor::White));
    // a proper pick applies the promotion
    let s = s.interact(Interaction::PickedPromotion(Piece {
        kind: PieceKind::Queen,
        color: PlayerColor::White,
    }));
    assert_eq!(
        s.piece_at(Position(7, 0)),
        Some(Piece { kind: PieceKind::Queen, color: PlayerColor::White })
    );
    assert_eq!(s.piece_at(Position(7, 1)), None);
    assert_eq!(s.phase(), GamePhase::Turn(PlayerColor::Black));
    assert!(s.interaction().is_none());
}

#[test]
fn threefold_repetition_draws() {
    let mut s = GameState::new();
    // each knight shuffle returns to the starting placement; its third
    // recurrence ends the game
    for round in 0..3 {
        s = mv(s, (6, 7), (5, 5));
        s = mv(s, (6, 0), (5, 2));
        s = mv(s, (5, 5), (6, 7));
        s = mv(s, (5, 2), (6, 0));
        if round < 2 {
            assert_eq!(s.phase(), GamePhase::Turn(PlayerColor::White));
        }
    }
    assert_eq!(s.phase(), GamePhase::Draw(chess::DrawReason::Repeat));
}

#[test]
fn second_recurrence_is_not_yet_a_draw() {
    let mut s = GameState::new();
    for _ in 0..2 {
        s = mv(s, (6, 7), (5, 5));
        s = mv(s, (6, 0), (5, 2));
        s = mv(s, (5, 5), (6, 7));
        s = mv(s, (5, 2), (6, 0));
    }
    assert_eq!(s.phase(), GamePhase::Turn(PlayerColor::White));
}

#[test]
fn quickest_stalemate_draws() {
    let s = GameState::new();
    let s = mv(s, (4, 6), (4, 5)); // 1. e3
    let s = mv(s, (0, 1), (0, 3)); // 1... a5
    let s = mv(s, (3, 7), (7, 3)); // 2. Qh5
    let s = mv(s, (0, 0), (0, 2)); // 2... Ra6
    let s = mv(s, (7, 3), (0, 3)); // 3. Qxa5
    let s = mv(s, (7, 1), (7, 3)); // 3... h5
    let s = mv(s, (0, 3), (2, 1)); // 4. Qxc7
    let s = mv(s, (0, 2), (7, 2)); // 4... Rah6
    let s = mv(s, (7, 6), (7, 4)); // 5. h4
    let s = mv(s, (5, 1), (5, 2)); // 5... f6
    let s = mv(s, (2, 1), (3, 1)); // 6. Qxd7
    let s = mv(s, (4, 0), (5, 1)); // 6... Kf7
    let s = mv(s, (3, 1), (1, 1)); // 7. Qxb7
    let s = mv(s, (3, 0), (3, 5)); // 7... Qd3
    let s = mv(s, (1, 1), (1, 0)); // 8. Qxb8
    let s = mv(s, (3, 5), (7, 1)); // 8... Qh7
    let s = mv(s, (1, 0), (2, 0)); // 9. Qxc8
    let s = mv(s, (5, 1), (6, 2)); // 9... Kg6
    let s = mv(s, (2, 0), (4, 2)); // 10. Qe6: Black has no move and is not in check
    assert_eq!(s.phase(), GamePhase::Draw(chess::DrawReason::Stalemate));
}

#[test]
fn king_cannot_step_onto_attacked_square() {
    let s = GameState::new();
    let s = mv(s, (4, 6), (4, 4)); // white e4
    let s = mv(s, (4, 1), (4, 3)); // black e5
    let s = mv(s, (3, 7), (7, 3)); // white Qh5, eyeing e8's diagonal out
    let s = mv(s, (1, 0), (2, 2)); // black Nc6
    let s = mv(s, (7, 3), (4, 3)); // white Qxe5+, check along the e-file
    // the black king may not step onto e7, still on the queen's file
    let ms = moves_of(&s, (4, 0));
    assert!(!ms.contains(&Move::Move(Position(4, 1))));
}

#[test]
fn checked_side_may_only_block() {
    let s = GameState::new();
    let s = mv(s, (4, 6), (4, 4)); // white e4
    let s = mv(s, (3, 1), (3, 3)); // black d5
    let s = mv(s, (4, 4), (3, 3)); // white pawn takes on d5, opening the e-file
    let s = mv(s, (3, 0), (3, 3)); // black queen recaptures
    let s = mv(s, (7, 6), (7, 5)); // white h3
    let s = mv(s, (3, 3), (4, 3)); // black queen to e5: check down the open e-file
    // the white king-side knight can do nothing but interpose on e2
    let ms = moves_of(&s, (6, 7));
    assert_eq!(ms, vec![Move::Move(Position(4, 6))]);
}

#[test]
fn placing_onto_the_selected_square_deselects() {
    let s = GameState::new();
    let s = s.interact(Interaction::StartMovingPiece(Position(4, 6)));
    let s = s.interact(Interaction::PlacedPiece(Position(4, 6)));
    assert!(s.interaction().is_none());
    assert_eq!(s.phase(), GamePhase::Turn(PlayerColor::White));
    assert_eq!(
        s.piece_at(Position(4, 6)),
        Some(Piece { kind: PieceKind::Pawn, color: PlayerColor::White })
    );
}

#[test]
fn picked_promotion_outside_the_dialog_is_ignored() {
    let s = GameState::new();
    let s = s.interact(Interaction::StartMovingPiece(Position(4, 6)));
    let s = s.interact(Interaction::PickedPromotion(Piece {
        kind: PieceKind::Queen,
        color: PlayerColor::White,
    }));
    assert!(matches!(
        s.interaction(),
        Some(Interaction::StartMovingPiece(_))
    ));
    assert_eq!(s.phase(), GamePhase::Turn(PlayerColor::White));
}
