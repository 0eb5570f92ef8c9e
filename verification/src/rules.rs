//! The mathematical model of the rules: what squares a piece attacks, which
//! candidate moves are legal, and how applying a move transforms the game
//! state. The executable functions in `game` are proved to return exactly
//! what these spec functions describe.

use vstd::prelude::*;

use crate::board::CastleType;
use crate::board::CastlingAvailability;
use crate::board::CastlingMovement;
use crate::board::DrawReason;
use crate::board::GamePhase;
use crate::board::InteractionView;
use crate::board::Move;
use crate::board::Piece;
use crate::board::PieceKind;
use crate::board::PlayerColor;
use crate::board::Position;
use crate::board::castle_positions;
use crate::board::opponent_of;
use crate::board::pos_idx;
use crate::board::pos_on_board;

verus! {

/// A board is a sequence of 64 optional piece slots, indexed by `pos_idx`.
pub type BoardSeq = Seq<Option<Piece>>;

/// A board has exactly 64 slots.
pub open spec fn board_wf(b: BoardSeq) -> bool {
    b.len() == 64
}

/// The mathematical value of a whole game state.
pub struct GameView {
    pub castling_white: CastlingAvailability,
    pub castling_black: CastlingAvailability,
    pub white_king: Position,
    pub black_king: Position,
    pub board: BoardSeq,
    pub phase: GamePhase,
    pub en_passant: Option<Position>,
    pub interaction: Option<InteractionView>,
    pub clock: u8,
    pub table: Map<BoardSeq, u8>,
}

/// The structural well-formedness a game state never loses: a 64-slot board
/// and on-board king positions.
pub open spec fn view_wf(s: GameView) -> bool {
    &&& board_wf(s.board)
    &&& pos_on_board(s.white_king)
    &&& pos_on_board(s.black_king)
}

/// The cached king position of a color.
pub open spec fn king_pos_of(s: GameView, c: PlayerColor) -> Position {
    match c {
        PlayerColor::Black => s.black_king,
        PlayerColor::White => s.white_king,
    }
}

/// The castling availability of a color.
pub open spec fn castling_of(s: GameView, c: PlayerColor) -> CastlingAvailability {
    match c {
        PlayerColor::Black => s.castling_black,
        PlayerColor::White => s.castling_white,
    }
}

/// The rank direction a color's pawns push toward.
pub open spec fn pawn_dir(c: PlayerColor) -> int {
    match c {
        PlayerColor::Black => 1,
        PlayerColor::White => -1,
    }
}

/// The rank a color's pawns start on.
pub open spec fn pawn_start_rank(c: PlayerColor) -> int {
    match c {
        PlayerColor::Black => 1,
        PlayerColor::White => 6,
    }
}

/// The rank on which a color's pawns promote.
pub open spec fn pawn_promotion_rank(c: PlayerColor) -> int {
    match c {
        PlayerColor::Black => 7,
        PlayerColor::White => 0,
    }
}

/// True iff `p` shifted by `(dx, dy)` is still on the board.
pub open spec fn shift_on_board(p: Position, dx: int, dy: int) -> bool {
    &&& 0 <= p.0 + dx < 8
    &&& 0 <= p.1 + dy < 8
}

/// `p` shifted by `(dx, dy)`.
pub open spec fn shifted(p: Position, dx: int, dy: int) -> Position {
    Position((p.0 + dx) as i32, (p.1 + dy) as i32)
}

/// The attacked squares a single-step offset contributes: its target iff the
/// target is on the board, independent of occupancy.
pub open spec fn step_target(p: Position, dx: int, dy: int) -> Seq<Position> {
    if shift_on_board(p, dx, dy) {
        seq![shifted(p, dx, dy)]
    } else {
        Seq::empty()
    }
}

/// The squares a sliding ray attacks: walk from `p` in direction `(dx, dy)`
/// while on the board; every visited square is attacked, and the ray stops at
/// the first occupied square, inclusive. `fuel` bounds the walk; 8 is enough
/// on an 8x8 board.
pub open spec fn ray(b: BoardSeq, p: Position, dx: int, dy: int, fuel: nat) -> Seq<Position>
    decreases fuel,
{
    if fuel == 0 {
        Seq::empty()
    } else if !shift_on_board(p, dx, dy) {
        Seq::empty()
    } else {
        let q = shifted(p, dx, dy);
        if b[pos_idx(q)] is Some {
            seq![q]
        } else {
            seq![q] + ray(b, q, dx, dy, (fuel - 1) as nat)
        }
    }
}

/// The full walk of a ray on an 8x8 board.
pub open spec fn ray8(b: BoardSeq, p: Position, dx: int, dy: int) -> Seq<Position> {
    ray(b, p, dx, dy, 8)
}

/// The squares a piece at `p` attacks on board `b`, in generation order.
/// Pawn attacks are the two diagonal-forward squares only; a sliding piece
/// attacks along its rays, blocker included; occupancy by either color does
/// not remove a square from the attack set.
pub open spec fn attacks_spec(piece: Piece, p: Position, b: BoardSeq) -> Seq<Position> {
    match piece.kind {
        PieceKind::Pawn => {
            let dir = pawn_dir(piece.color);
            step_target(p, -1, dir) + step_target(p, 1, dir)
        },
        PieceKind::Knight => step_target(p, -1, -2) + step_target(p, -1, 2) + step_target(p, 1, -2)
            + step_target(p, 1, 2) + step_target(p, -2, -1) + step_target(p, -2, 1) + step_target(
            p,
            2,
            -1,
        ) + step_target(p, 2, 1),
        PieceKind::King => step_target(p, -1, -1) + step_target(p, -1, 1) + step_target(p, 1, -1)
            + step_target(p, 1, 1) + step_target(p, 0, -1) + step_target(p, 0, 1) + step_target(
            p,
            -1,
            0,
        ) + step_target(p, 1, 0),
        PieceKind::Rook => ray8(b, p, -1, 0) + ray8(b, p, 1, 0) + ray8(b, p, 0, -1) + ray8(
            b,
            p,
            0,
            1,
        ),
        PieceKind::Bishop => ray8(b, p, -1, -1) + ray8(b, p, -1, 1) + ray8(b, p, 1, -1) + ray8(
            b,
            p,
            1,
            1,
        ),
        PieceKind::Queen => ray8(b, p, -1, 0) + ray8(b, p, 1, 0) + ray8(b, p, 0, -1) + ray8(
            b,
            p,
            0,
            1,
        ) + ray8(b, p, -1, -1) + ray8(b, p, -1, 1) + ray8(b, p, 1, -1) + ray8(b, p, 1, 1),
    }
}

/// True iff the piece standing at `p` on `b` belongs to `by` and attacks
/// `target`.
pub open spec fn attacked_from(b: BoardSeq, target: Position, by: PlayerColor, p: Position) -> bool {
    match b[pos_idx(p)] {
        Some(pc) => pc.color == by && attacks_spec(pc, p, b).contains(target),
        None => false,
    }
}

/// True iff some piece of `by` attacks `target` on board `b`.
pub open spec fn is_attacked(b: BoardSeq, target: Position, by: PlayerColor) -> bool {
    exists|p: Position| pos_on_board(p) && #[trigger] attacked_from(b, target, by, p)
}

/// The four promotion candidates offered when a pawn of `color` reaches the
/// last rank at `to`, in order: queen, rook, knight, bishop.
pub open spec fn promotion_moves(color: PlayerColor, to: Position) -> Seq<Move> {
    seq![
        Move::Promote(to, Piece { kind: PieceKind::Queen, color }),
        Move::Promote(to, Piece { kind: PieceKind::Rook, color }),
        Move::Promote(to, Piece { kind: PieceKind::Knight, color }),
        Move::Promote(to, Piece { kind: PieceKind::Bishop, color }),
    ]
}

/// The check-safety test: the mover's king at `king` is not attacked by `opp`
/// on the scratch board `b` that reflects a candidate move already applied.
pub open spec fn safe_for_king(b: BoardSeq, king: Position, opp: PlayerColor) -> bool {
    !is_attacked(b, king, opp)
}

/// The moves a pawn's forward pushes contribute. `base` is the board with the
/// pawn lifted off its square.
pub open spec fn pawn_forward_moves(piece: Piece, p: Position, s: GameView) -> Seq<Move> {
    let dir = pawn_dir(piece.color);
    let base = s.board.update(pos_idx(p), None);
    let king = king_pos_of(s, piece.color);
    let opp = opponent_of(piece.color);
    let fwd = shifted(p, 0, dir);
    if shift_on_board(p, 0, dir) && s.board[pos_idx(fwd)] is None {
        let single = if safe_for_king(base.update(pos_idx(fwd), Some(piece)), king, opp) {
            if fwd.1 == pawn_promotion_rank(piece.color) {
                promotion_moves(piece.color, fwd)
            } else {
                seq![Move::Move(fwd)]
            }
        } else {
            Seq::empty()
        };
        let double = if p.1 == pawn_start_rank(piece.color) {
            let fwd2 = shifted(p, 0, 2 * dir);
            if s.board[pos_idx(fwd2)] is None {
                if safe_for_king(base.update(pos_idx(fwd2), Some(piece)), king, opp) {
                    seq![Move::Move(fwd2)]
                } else {
                    Seq::empty()
                }
            } else {
                Seq::empty()
            }
        } else {
            Seq::empty()
        };
        single + double
    } else {
        Seq::empty()
    }
}

/// The moves one diagonal attack square `a` contributes for a pawn: a capture
/// (or promotion-captures) of an opponent piece, or an en-passant capture
/// when `a` is the recorded en-passant target.
pub open spec fn pawn_capture_moves_at(piece: Piece, p: Position, s: GameView, a: Position) -> Seq<
    Move,
> {
    let dir = pawn_dir(piece.color);
    let base = s.board.update(pos_idx(p), None);
    let king = king_pos_of(s, piece.color);
    let opp = opponent_of(piece.color);
    let scratch = base.update(pos_idx(a), Some(piece));
    match s.board[pos_idx(a)] {
        Some(t) => {
            if t.color == opp && safe_for_king(scratch, king, opp) {
                if a.1 == pawn_promotion_rank(piece.color) {
                    promotion_moves(piece.color, a)
                } else {
                    seq![Move::Take(a, a)]
                }
            } else {
                Seq::empty()
            }
        },
        None => {
            let victim = shifted(a, 0, -dir);
            if s.en_passant == Some(a) {
                if safe_for_king(scratch.update(pos_idx(victim), None), king, opp) {
                    seq![Move::Take(a, victim)]
                } else {
                    Seq::empty()
                }
            } else {
                Seq::empty()
            }
        },
    }
}

/// The pawn capture moves contributed by the first `i` attack squares.
pub open spec fn pawn_captures_upto(piece: Piece, p: Position, s: GameView, i: int) -> Seq<Move>
    decreases i,
{
    let atk = attacks_spec(piece, p, s.board);
    if i <= 0 {
        Seq::empty()
    } else {
        pawn_captures_upto(piece, p, s, i - 1) + pawn_capture_moves_at(piece, p, s, atk[i - 1])
    }
}

/// All legal moves of a pawn: forward pushes, then captures in attack order.
pub open spec fn pawn_moves_spec(piece: Piece, p: Position, s: GameView) -> Seq<Move> {
    pawn_forward_moves(piece, p, s) + pawn_captures_upto(
        piece,
        p,
        s,
        attacks_spec(piece, p, s.board).len() as int,
    )
}

/// The moves one attack square `a` contributes for a queen, rook, bishop or
/// knight: a relocation onto an empty square or a capture of an opponent
/// piece, either one only if it does not leave the mover's king attacked.
pub open spec fn qrbn_moves_at(piece: Piece, p: Position, s: GameView, a: Position) -> Seq<Move> {
    let base = s.board.update(pos_idx(p), None);
    let king = king_pos_of(s, piece.color);
    let opp = opponent_of(piece.color);
    let scratch = base.update(pos_idx(a), Some(piece));
    match s.board[pos_idx(a)] {
        None => {
            if safe_for_king(scratch, king, opp) {
                seq![Move::Move(a)]
            } else {
                Seq::empty()
            }
        },
        Some(t) => {
            if t.color == opp && safe_for_king(scratch, king, opp) {
                seq![Move::Take(a, a)]
            } else {
                Seq::empty()
            }
        },
    }
}

/// The queen/rook/bishop/knight moves contributed by the first `i` attack
/// squares.
pub open spec fn qrbn_moves_upto(piece: Piece, p: Position, s: GameView, i: int) -> Seq<Move>
    decreases i,
{
    let atk = attacks_spec(piece, p, s.board);
    if i <= 0 {
        Seq::empty()
    } else {
        qrbn_moves_upto(piece, p, s, i - 1) + qrbn_moves_at(piece, p, s, atk[i - 1])
    }
}

/// All legal moves of a queen, rook, bishop or knight.
pub open spec fn qrbn_moves_spec(piece: Piece, p: Position, s: GameView) -> Seq<Move> {
    qrbn_moves_upto(piece, p, s, attacks_spec(piece, p, s.board).len() as int)
}

/// The moves one attack square `a` contributes for a king: the king may step
/// there iff the square is not attacked by the opponent on the current board
/// and is empty or holds an opponent piece.
pub open spec fn king_step_moves_at(piece: Piece, p: Position, s: GameView, a: Position) -> Seq<
    Move,
> {
    let opp = opponent_of(piece.color);
    if is_attacked(s.board, a, opp) {
        Seq::empty()
    } else {
        match s.board[pos_idx(a)] {
            None => seq![Move::Move(a)],
            Some(t) => if t.color == opp {
                seq![Move::Take(a, a)]
            } else {
                Seq::empty()
            },
        }
    }
}

/// The king step moves contributed by the first `i` attack squares.
pub open spec fn king_steps_upto(piece: Piece, p: Position, s: GameView, i: int) -> Seq<Move>
    decreases i,
{
    let atk = attacks_spec(piece, p, s.board);
    if i <= 0 {
        Seq::empty()
    } else {
        king_steps_upto(piece, p, s, i - 1) + king_step_moves_at(piece, p, s, atk[i - 1])
    }
}

/// Castling on `side` is legal for `color` iff every square strictly between
/// the rook's and the king's start squares is empty and no square of the full
/// span, endpoints included, is attacked by the opponent.
/// One square of a castling walk passes: strictly-between squares must be
/// empty, and no square of the span may be attacked by the opponent.
pub open spec fn castle_square_ok(
    b: BoardSeq,
    opp: PlayerColor,
    lo: int,
    hi: int,
    rank: int,
    x: int,
) -> bool {
    &&& (x != lo && x != hi ==> b[x + rank * 8] is None)
    &&& !is_attacked(b, Position(x as i32, rank as i32), opp)
}

pub open spec fn castle_legal(s: GameView, color: PlayerColor, side: CastleType) -> bool {
    forall|x: int|
        castle_span(side, color).0 <= x <= castle_span(side, color).1
            ==> #[trigger] castle_square_ok(
            s.board,
            opponent_of(color),
            castle_span(side, color).0,
            castle_span(side, color).1,
            castle_span(side, color).2,
            x,
        )
}

/// The castling moves offered to a king: per side, only while that side's
/// availability flag still stands and the walk-through test passes; the short
/// side is tried first.
pub open spec fn castle_moves_spec(piece: Piece, s: GameView) -> Seq<Move> {
    let av = castling_of(s, piece.color);
    let short = if av.short_side_available && castle_legal(s, piece.color, CastleType::Short) {
        seq![Move::Castle(CastleType::Short)]
    } else {
        Seq::empty()
    };
    let long = if av.long_side_available && castle_legal(s, piece.color, CastleType::Long) {
        seq![Move::Castle(CastleType::Long)]
    } else {
        Seq::empty()
    };
    short + long
}

/// All legal moves of a king: safe steps in attack order, then castling.
pub open spec fn king_moves_spec(piece: Piece, p: Position, s: GameView) -> Seq<Move> {
    king_steps_upto(piece, p, s, attacks_spec(piece, p, s.board).len() as int) + castle_moves_spec(
        piece,
        s,
    )
}

/// All legal moves of `piece` standing at `p`, in generation order.
pub open spec fn moves_spec(piece: Piece, p: Position, s: GameView) -> Seq<Move> {
    match piece.kind {
        PieceKind::Pawn => pawn_moves_spec(piece, p, s),
        PieceKind::King => king_moves_spec(piece, p, s),
        _ => qrbn_moves_spec(piece, p, s),
    }
}

} // verus!

verus! {

/// Castling rights after `moved` leaves `from`: a king move clears both of
/// its color's flags; a rook move from file 0 clears the long flag, from file
/// 7 the short flag; nothing ever sets a flag back.
pub open spec fn strip_castling(av: CastlingAvailability, moved: Piece, from: Position) -> CastlingAvailability {
    if moved.kind == PieceKind::King {
        CastlingAvailability { long_side_available: false, short_side_available: false }
    } else if moved.kind == PieceKind::Rook && from.0 == 0 {
        CastlingAvailability { long_side_available: false, short_side_available: av.short_side_available }
    } else if moved.kind == PieceKind::Rook && from.0 == 7 {
        CastlingAvailability { long_side_available: av.long_side_available, short_side_available: false }
    } else {
        av
    }
}

/// The board after applying `m` to the piece standing at `from`: clear the
/// source slot, set the destination slot; a capture first clears the captured
/// slot; a promotion places the promoted piece; castling relocates both king
/// and rook.
pub open spec fn board_after(b: BoardSeq, from: Position, m: Move, player: PlayerColor) -> BoardSeq {
    match m {
        Move::Move(to) => b.update(pos_idx(to), b[pos_idx(from)]).update(pos_idx(from), None),
        Move::Take(to, victim) => {
            let b1 = b.update(pos_idx(victim), None);
            let b2 = b1.update(pos_idx(to), b1[pos_idx(from)]);
            b2.update(pos_idx(from), None)
        },
        Move::Promote(to, promoted) => b.update(pos_idx(to), Some(promoted)).update(pos_idx(from), None),
        Move::Castle(side) => {
            let cm = castle_positions(side, player);
            let b1 = b.update(pos_idx(cm.rook_end), b[pos_idx(cm.rook_start)]);
            let b2 = b1.update(pos_idx(cm.king_end), b1[pos_idx(from)]);
            b2.update(pos_idx(cm.rook_start), None).update(pos_idx(from), None)
        },
    }
}

/// The mover's cached king position after the move: updated when the king
/// itself relocates or castles.
pub open spec fn king_after(s: GameView, player: PlayerColor, moved: Piece, m: Move) -> Position {
    match m {
        Move::Move(to) => if moved.kind == PieceKind::King { to } else { king_pos_of(s, player) },
        Move::Take(to, _) => if moved.kind == PieceKind::King { to } else { king_pos_of(s, player) },
        Move::Promote(_, _) => king_pos_of(s, player),
        Move::Castle(side) => castle_positions(side, player).king_end,
    }
}

/// The en-passant target after the move: the skipped square of a pawn
/// double-step, and nothing otherwise.
pub open spec fn ep_after(moved: Piece, from: Position, m: Move) -> Option<Position> {
    match m {
        Move::Move(to) => if moved.kind == PieceKind::Pawn && (to.1 - from.1 == 2 || from.1 - to.1 == 2) {
            Some(Position(to.0, ((from.1 + to.1) / 2) as i32))
        } else {
            None
        },
        _ => None,
    }
}

/// True iff the move resets the half-move clock: any pawn relocation, any
/// capture, any promotion.
pub open spec fn clock_resets(moved: Piece, m: Move) -> bool {
    match m {
        Move::Move(_) => moved.kind == PieceKind::Pawn,
        Move::Take(_, _) => true,
        Move::Promote(_, _) => true,
        Move::Castle(_) => false,
    }
}

/// How often board `b` has been recorded in the repetition table.
pub open spec fn count_of(table: Map<BoardSeq, u8>, b: BoardSeq) -> int {
    if table.contains_key(b) {
        table[b] as int
    } else {
        0
    }
}

/// The state right after the move is applied and the turn flipped, before the
/// terminal status is recomputed.
pub open spec fn pre_terminal_state(s: GameView, player: PlayerColor, moved: Piece, from: Position, m: Move) -> GameView {
    let b2 = board_after(s.board, from, m, player);
    GameView {
        castling_white: if player == PlayerColor::White { strip_castling(s.castling_white, moved, from) } else { s.castling_white },
        castling_black: if player == PlayerColor::Black { strip_castling(s.castling_black, moved, from) } else { s.castling_black },
        white_king: if player == PlayerColor::White { king_after(s, player, moved, m) } else { s.white_king },
        black_king: if player == PlayerColor::Black { king_after(s, player, moved, m) } else { s.black_king },
        board: b2,
        phase: GamePhase::Turn(opponent_of(player)),
        en_passant: ep_after(moved, from, m),
        interaction: None,
        clock: if clock_resets(moved, m) { 0u8 } else { ((s.clock + 1) as u8) },
        table: s.table.insert(b2, ((count_of(s.table, b2) + 1) as u8)),
    }
}

/// True iff `c` has at least one legal move from square `p` in state `s`.
pub open spec fn has_move_at(s: GameView, c: PlayerColor, p: Position) -> bool {
    match s.board[pos_idx(p)] {
        Some(pc) => pc.color == c && moves_spec(pc, p, s).len() > 0,
        None => false,
    }
}

/// True iff `c` has at least one legal move anywhere in state `s`.
pub open spec fn has_any_move(s: GameView, c: PlayerColor) -> bool {
    exists|p: Position| pos_on_board(p) && #[trigger] has_move_at(s, c, p)
}

/// The full transition for an applied move: flip the turn, record the new
/// board in the repetition table, then recompute the terminal status. If the
/// new player has no legal move the mover has won iff that player's king is
/// attacked, else the game is a stalemate draw; a repetition count of exactly
/// 3 overrides this with a repetition draw; a half-move clock of 50 or more
/// overrides everything with a fifty-move draw.
pub open spec fn next_applied(s: GameView, player: PlayerColor, moved: Piece, from: Position, m: Move) -> GameView {
    let s2 = pre_terminal_state(s, player, moved, from, m);
    let opp = opponent_of(player);
    let cnt = s2.table[s2.board];
    let phase_moves = if has_any_move(s2, opp) {
        GamePhase::Turn(opp)
    } else if is_attacked(s2.board, king_pos_of(s2, opp), player) {
        GamePhase::Won(player)
    } else {
        GamePhase::Draw(DrawReason::Stalemate)
    };
    let phase_repeat = if cnt == 3 { GamePhase::Draw(DrawReason::Repeat) } else { phase_moves };
    let phase_final = if s2.clock >= 50 { GamePhase::Draw(DrawReason::Fifty) } else { phase_repeat };
    GameView { phase: phase_final, ..s2 }
}

/// Every square a move names lies on the board; castling names its squares
/// itself, so nothing is demanded of it.
pub open spec fn move_positions_ok(m: Move) -> bool {
    match m {
        Move::Move(to) => pos_on_board(to),
        Move::Take(to, victim) => pos_on_board(to) && pos_on_board(victim),
        Move::Promote(to, _) => pos_on_board(to),
        Move::Castle(_) => true,
    }
}

/// What applying move `m` to the piece at `from` yields: the unchanged state
/// when a named square is off the board, when the game is already over, or
/// when the source square is empty, and the applied transition otherwise.
pub open spec fn next_spec(s: GameView, from: Position, m: Move) -> GameView {
    if !pos_on_board(from) || !move_positions_ok(m) {
        s
    } else {
        match s.phase {
            GamePhase::Turn(player) => match s.board[pos_idx(from)] {
                Some(moved) => next_applied(s, player, moved, from, m),
                None => s,
            },
            _ => s,
        }
    }
}

/// The piece standing on square `i` when a game begins.
pub open spec fn initial_piece(i: int) -> Option<Piece> {
    let black = PlayerColor::Black;
    let white = PlayerColor::White;
    if i == 0 || i == 7 {
        Some(Piece { kind: PieceKind::Rook, color: black })
    } else if i == 1 || i == 6 {
        Some(Piece { kind: PieceKind::Knight, color: black })
    } else if i == 2 || i == 5 {
        Some(Piece { kind: PieceKind::Bishop, color: black })
    } else if i == 3 {
        Some(Piece { kind: PieceKind::Queen, color: black })
    } else if i == 4 {
        Some(Piece { kind: PieceKind::King, color: black })
    } else if 8 <= i < 16 {
        Some(Piece { kind: PieceKind::Pawn, color: black })
    } else if 48 <= i < 56 {
        Some(Piece { kind: PieceKind::Pawn, color: white })
    } else if i == 56 || i == 63 {
        Some(Piece { kind: PieceKind::Rook, color: white })
    } else if i == 57 || i == 62 {
        Some(Piece { kind: PieceKind::Knight, color: white })
    } else if i == 58 || i == 61 {
        Some(Piece { kind: PieceKind::Bishop, color: white })
    } else if i == 59 {
        Some(Piece { kind: PieceKind::Queen, color: white })
    } else if i == 60 {
        Some(Piece { kind: PieceKind::King, color: white })
    } else {
        None
    }
}

/// The standard initial board.
pub open spec fn initial_board() -> BoardSeq {
    Seq::new(64, |i: int| initial_piece(i))
}

/// The square a move leaves the moved piece on, as the interaction protocol
/// matches a click against it: the destination, or the king's arrival square
/// for castling.
pub open spec fn move_dest(m: Move, player: PlayerColor) -> Position {
    match m {
        Move::Move(p) => p,
        Move::Take(p, _) => p,
        Move::Promote(p, _) => p,
        Move::Castle(side) => castle_positions(side, player).king_end,
    }
}

/// The moves among the first `i` of `ms` whose destination is `onto`.
pub open spec fn matching_upto(ms: Seq<Move>, player: PlayerColor, onto: Position, i: int) -> Seq<Move>
    decreases i,
{
    if i <= 0 {
        Seq::empty()
    } else {
        matching_upto(ms, player, onto, i - 1) + if move_dest(ms[i - 1], player) == onto {
            seq![ms[i - 1]]
        } else {
            Seq::empty()
        }
    }
}

/// The promoted pieces of the promotion moves among the first `i` of `ms`.
pub open spec fn promotion_pieces_upto(ms: Seq<Move>, i: int) -> Seq<Piece>
    decreases i,
{
    if i <= 0 {
        Seq::empty()
    } else {
        promotion_pieces_upto(ms, i - 1) + match ms[i - 1] {
            Move::Promote(_, pc) => seq![pc],
            _ => Seq::empty(),
        }
    }
}

/// The interaction state machine. A selection click is accepted only on an
/// own piece; a placement click resolves against the legal moves of the
/// selected piece, applying a unique match, offering a promotion choice for
/// several matches, and deselecting otherwise; a promotion pick applies the
/// chosen candidate. Everything else, and everything in a finished game, is
/// absorbed without effect.
pub open spec fn interact_spec(s: GameView, ev: InteractionView) -> GameView {
    match s.phase {
        GamePhase::Turn(player) => match ev {
            InteractionView::StartMovingPiece(start) => {
                if pos_on_board(start) && (match s.board[pos_idx(start)] {
                    Some(pc) => pc.color == player,
                    None => false,
                }) {
                    GameView { interaction: Some(ev), ..s }
                } else {
                    s
                }
            },
            InteractionView::PlacedPiece(onto) => match s.interaction {
                Some(InteractionView::StartMovingPiece(from)) => {
                    if from != onto {
                        match s.board[pos_idx(from)] {
                            Some(piece) => {
                                let ms = moves_spec(piece, from, s);
                                let matched = matching_upto(ms, player, onto, ms.len() as int);
                                if matched.len() == 0 {
                                    GameView { interaction: None, ..s }
                                } else if matched.len() == 1 {
                                    next_spec(s, from, matched[0])
                                } else {
                                    GameView {
                                        interaction: Some(InteractionView::PickingPromotion(
                                            from,
                                            onto,
                                            promotion_pieces_upto(matched, matched.len() as int),
                                        )),
                                        ..s
                                    }
                                }
                            },
                            None => s,
                        }
                    } else {
                        GameView { interaction: None, ..s }
                    }
                },
                _ => s,
            },
            InteractionView::PickedPromotion(choice) => match s.interaction {
                Some(InteractionView::PickingPromotion(from, onto, cands)) => {
                    if cands.contains(choice) {
                        next_spec(GameView { interaction: None, ..s }, from, Move::Promote(onto, choice))
                    } else {
                        s
                    }
                },
                _ => s,
            },
            InteractionView::PickingPromotion(_, _, _) => s,
        },
        _ => s,
    }
}

} // verus!

verus! {

/// True iff every element of `s` satisfies `pred`.
pub open spec fn all_elems(s: Seq<Position>, pred: spec_fn(Position) -> bool) -> bool {
    forall|k: int| 0 <= k < s.len() ==> pred(#[trigger] s[k])
}

/// Concatenation preserves an elementwise property.
pub proof fn lemma_concat_all(a: Seq<Position>, b: Seq<Position>, pred: spec_fn(Position) -> bool)
    requires
        all_elems(a, pred),
        all_elems(b, pred),
    ensures
        all_elems(a + b, pred),
{
    assert forall|k: int| 0 <= k < (a + b).len() implies pred(#[trigger] (a + b)[k]) by {
        if k < a.len() {
            assert((a + b)[k] == a[k]);
        } else {
            assert((a + b)[k] == b[k - a.len()]);
        }
    }
}

/// Every square a ray visits is on the board and strictly advanced from the
/// ray's origin along the ray's direction.
pub proof fn lemma_ray_elems(b: BoardSeq, p: Position, dx: int, dy: int, fuel: nat)
    requires
        -1 <= dx <= 1,
        -1 <= dy <= 1,
        !(dx == 0 && dy == 0),
        pos_on_board(p),
    ensures
        all_elems(
            ray(b, p, dx, dy, fuel),
            |e: Position|
                {
                    &&& pos_on_board(e)
                    &&& (dx > 0 ==> e.0 > p.0)
                    &&& (dx < 0 ==> e.0 < p.0)
                    &&& (dy > 0 ==> e.1 > p.1)
                    &&& (dy < 0 ==> e.1 < p.1)
                },
        ),
    decreases fuel,
{
    let pred = |e: Position|
        {
            &&& pos_on_board(e)
            &&& (dx > 0 ==> e.0 > p.0)
            &&& (dx < 0 ==> e.0 < p.0)
            &&& (dy > 0 ==> e.1 > p.1)
            &&& (dy < 0 ==> e.1 < p.1)
        };
    let r = ray(b, p, dx, dy, fuel);
    if fuel > 0 && shift_on_board(p, dx, dy) {
        let q = shifted(p, dx, dy);
        if b[pos_idx(q)] is Some {
            assert forall|k: int| 0 <= k < r.len() implies pred(#[trigger] r[k]) by {
                assert(r[k] == q);
            }
        } else {
            lemma_ray_elems(b, q, dx, dy, (fuel - 1) as nat);
            let tail = ray(b, q, dx, dy, (fuel - 1) as nat);
            assert forall|k: int| 0 <= k < r.len() implies pred(#[trigger] r[k]) by {
                if k == 0 {
                    assert(r[k] == q);
                } else {
                    assert(r[k] == tail[k - 1]);
                }
            }
        }
    }
}

/// Every attack square is on the board and differs from the attacker's own
/// square; a pawn's attack squares sit one rank ahead of the pawn.
pub proof fn lemma_attacks_elems(piece: Piece, p: Position, b: BoardSeq)
    requires
        pos_on_board(p),
    ensures
        all_elems(
            attacks_spec(piece, p, b),
            |e: Position|
                {
                    &&& pos_on_board(e)
                    &&& e != p
                    &&& (piece.kind == PieceKind::Pawn ==> e.1 == p.1 + pawn_dir(piece.color))
                },
        ),
{
    let pred = |e: Position|
        {
            &&& pos_on_board(e)
            &&& e != p
            &&& (piece.kind == PieceKind::Pawn ==> e.1 == p.1 + pawn_dir(piece.color))
        };
    match piece.kind {
        PieceKind::Pawn => {
            let dir = pawn_dir(piece.color);
            lemma_concat_all(step_target(p, -1, dir), step_target(p, 1, dir), pred);
        },
        PieceKind::Knight => {
            let s1 = step_target(p, -1, -2);
            let s2 = step_target(p, -1, 2);
            let s3 = step_target(p, 1, -2);
            let s4 = step_target(p, 1, 2);
            let s5 = step_target(p, -2, -1);
            let s6 = step_target(p, -2, 1);
            let s7 = step_target(p, 2, -1);
            let s8 = step_target(p, 2, 1);
            lemma_concat_all(s1, s2, pred);
            lemma_concat_all(s1 + s2, s3, pred);
            lemma_concat_all(s1 + s2 + s3, s4, pred);
            lemma_concat_all(s1 + s2 + s3 + s4, s5, pred);
            lemma_concat_all(s1 + s2 + s3 + s4 + s5, s6, pred);
            lemma_concat_all(s1 + s2 + s3 + s4 + s5 + s6, s7, pred);
            lemma_concat_all(s1 + s2 + s3 + s4 + s5 + s6 + s7, s8, pred);
        },
        PieceKind::King => {
            let s1 = step_target(p, -1, -1);
            let s2 = step_target(p, -1, 1);
            let s3 = step_target(p, 1, -1);
            let s4 = step_target(p, 1, 1);
            let s5 = step_target(p, 0, -1);
            let s6 = step_target(p, 0, 1);
            let s7 = step_target(p, -1, 0);
            let s8 = step_target(p, 1, 0);
            lemma_concat_all(s1, s2, pred);
            lemma_concat_all(s1 + s2, s3, pred);
            lemma_concat_all(s1 + s2 + s3, s4, pred);
            lemma_concat_all(s1 + s2 + s3 + s4, s5, pred);
            lemma_concat_all(s1 + s2 + s3 + s4 + s5, s6, pred);
            lemma_concat_all(s1 + s2 + s3 + s4 + s5 + s6, s7, pred);
            lemma_concat_all(s1 + s2 + s3 + s4 + s5 + s6 + s7, s8, pred);
        },
        PieceKind::Rook => {
            lemma_ray_elems(b, p, -1, 0, 8);
            lemma_ray_elems(b, p, 1, 0, 8);
            lemma_ray_elems(b, p, 0, -1, 8);
            lemma_ray_elems(b, p, 0, 1, 8);
            let r1 = ray8(b, p, -1, 0);
            let r2 = ray8(b, p, 1, 0);
            let r3 = ray8(b, p, 0, -1);
            let r4 = ray8(b, p, 0, 1);
            lemma_concat_all(r1, r2, pred);
            lemma_concat_all(r1 + r2, r3, pred);
            lemma_concat_all(r1 + r2 + r3, r4, pred);
        },
        PieceKind::Bishop => {
            lemma_ray_elems(b, p, -1, -1, 8);
            lemma_ray_elems(b, p, -1, 1, 8);
            lemma_ray_elems(b, p, 1, -1, 8);
            lemma_ray_elems(b, p, 1, 1, 8);
            let r1 = ray8(b, p, -1, -1);
            let r2 = ray8(b, p, -1, 1);
            let r3 = ray8(b, p, 1, -1);
            let r4 = ray8(b, p, 1, 1);
            lemma_concat_all(r1, r2, pred);
            lemma_concat_all(r1 + r2, r3, pred);
            lemma_concat_all(r1 + r2 + r3, r4, pred);
        },
        PieceKind::Queen => {
            lemma_ray_elems(b, p, -1, 0, 8);
            lemma_ray_elems(b, p, 1, 0, 8);
            lemma_ray_elems(b, p, 0, -1, 8);
            lemma_ray_elems(b, p, 0, 1, 8);
            lemma_ray_elems(b, p, -1, -1, 8);
            lemma_ray_elems(b, p, -1, 1, 8);
            lemma_ray_elems(b, p, 1, -1, 8);
            lemma_ray_elems(b, p, 1, 1, 8);
            let r1 = ray8(b, p, -1, 0);
            let r2 = ray8(b, p, 1, 0);
            let r3 = ray8(b, p, 0, -1);
            let r4 = ray8(b, p, 0, 1);
            let r5 = ray8(b, p, -1, -1);
            let r6 = ray8(b, p, -1, 1);
            let r7 = ray8(b, p, 1, -1);
            let r8 = ray8(b, p, 1, 1);
            lemma_concat_all(r1, r2, pred);
            lemma_concat_all(r1 + r2, r3, pred);
            lemma_concat_all(r1 + r2 + r3, r4, pred);
            lemma_concat_all(r1 + r2 + r3 + r4, r5, pred);
            lemma_concat_all(r1 + r2 + r3 + r4 + r5, r6, pred);
            lemma_concat_all(r1 + r2 + r3 + r4 + r5 + r6, r7, pred);
            lemma_concat_all(r1 + r2 + r3 + r4 + r5 + r6 + r7, r8, pred);
        },
    }
}

} // verus!

verus! {

/// The file span a castling side's walk covers, and its rank.
pub open spec fn castle_span(side: CastleType, color: PlayerColor) -> (int, int, int) {
    let cm = castle_positions(side, color);
    let lo = if cm.rook_start.0 <= cm.king_start.0 {
        cm.rook_start.0 as int
    } else {
        cm.king_start.0 as int
    };
    let hi = if cm.rook_start.0 <= cm.king_start.0 {
        cm.king_start.0 as int
    } else {
        cm.rook_start.0 as int
    };
    (lo, hi, cm.rook_start.1 as int)
}

/// One failing square of the walk refutes the whole castling test.
pub proof fn lemma_castle_not_legal(s: GameView, color: PlayerColor, side: CastleType, x: int)
    requires
        ({
            let (lo, hi, rank) = castle_span(side, color);
            lo <= x <= hi && !castle_square_ok(s.board, opponent_of(color), lo, hi, rank, x)
        }),
    ensures
        !castle_legal(s, color, side),
{
    if castle_legal(s, color, side) {
        assert(castle_square_ok(
            s.board,
            opponent_of(color),
            castle_span(side, color).0,
            castle_span(side, color).1,
            castle_span(side, color).2,
            x,
        ));
    }
}

/// A walk whose every square passes makes castling legal.
pub proof fn lemma_castle_legal_intro(s: GameView, color: PlayerColor, side: CastleType)
    requires
        ({
            let (lo, hi, rank) = castle_span(side, color);
            forall|t: int|
                lo <= t <= hi ==> #[trigger] castle_square_ok(
                    s.board,
                    opponent_of(color),
                    lo,
                    hi,
                    rank,
                    t,
                )
        }),
    ensures
        castle_legal(s, color, side),
{
}

} // verus!
