//! The laws of the engine, each proved once and for all over the spec model:
//! check-safety of generated moves, king-step safety, the en-passant window,
//! the castling conditions, and the terminal-outcome rules.

use vstd::prelude::*;

use crate::board::DrawReason;
use crate::board::GamePhase;
use crate::board::Move;
use crate::board::Piece;
use crate::board::PieceKind;
use crate::board::PlayerColor;
use crate::board::Position;
use crate::board::opponent_of;
use crate::board::pos_idx;
use crate::board::pos_on_board;
use crate::rules::BoardSeq;
use crate::rules::GameView;
use crate::rules::attacked_from;
use crate::rules::attacks_spec;
use crate::rules::board_after;
use crate::rules::castle_legal;
use crate::rules::castle_moves_spec;
use crate::rules::castle_span;
use crate::rules::castle_square_ok;
use crate::rules::castling_of;
use crate::rules::clock_resets;
use crate::rules::count_of;
use crate::rules::ep_after;
use crate::rules::has_any_move;
use crate::rules::is_attacked;
use crate::rules::king_pos_of;
use crate::rules::king_step_moves_at;
use crate::rules::king_steps_upto;
use crate::rules::lemma_attacks_elems;
use crate::rules::moves_spec;
use crate::rules::move_dest;
use crate::rules::next_spec;
use crate::rules::pawn_capture_moves_at;
use crate::rules::pawn_captures_upto;
use crate::rules::pawn_dir;
use crate::rules::pawn_forward_moves;
use crate::rules::pawn_promotion_rank;
use crate::rules::promotion_moves;
use crate::rules::qrbn_moves_at;
use crate::rules::qrbn_moves_upto;
use crate::rules::ray;
use crate::rules::safe_for_king;
use crate::rules::shifted;
use crate::rules::view_wf;

verus! {

/// An element of a concatenation comes from one of the two halves.
pub proof fn lemma_contains_concat<T>(a: Seq<T>, b: Seq<T>, x: T)
    requires
        (a + b).contains(x),
    ensures
        a.contains(x) || b.contains(x),
{
    let k = choose|k: int| 0 <= k < (a + b).len() && (a + b)[k] == x;
    if k < a.len() {
        assert(a[k] == x);
    } else {
        assert(b[k - a.len()] == x);
    }
}

/// Two board slots that either agree or both hold a piece not of color `by`.
pub open spec fn same_slot_for(by: PlayerColor, o1: Option<Piece>, o2: Option<Piece>) -> bool {
    ||| o1 == o2
    ||| (o1 matches Some(x) && o2 matches Some(y) && x.color != by && y.color != by)
}

/// A ray sees only occupancy, so two boards occupied in the same places give
/// it the same squares.
proof fn lemma_ray_same_occupancy(
    b1: BoardSeq,
    b2: BoardSeq,
    by: PlayerColor,
    p: Position,
    dx: int,
    dy: int,
    fuel: nat,
)
    requires
        forall|i: int| 0 <= i < 64 ==> same_slot_for(by, #[trigger] b1[i], b2[i]),
        pos_on_board(p),
        -1 <= dx <= 1,
        -1 <= dy <= 1,
    ensures
        ray(b1, p, dx, dy, fuel) == ray(b2, p, dx, dy, fuel),
    decreases fuel,
{
    if fuel > 0 && crate::rules::shift_on_board(p, dx, dy) {
        let q = shifted(p, dx, dy);
        assert(same_slot_for(by, b1[pos_idx(q)], b2[pos_idx(q)]));
        if !(b1[pos_idx(q)] is Some) {
            lemma_ray_same_occupancy(b1, b2, by, q, dx, dy, (fuel - 1) as nat);
        }
    }
}

/// A piece's attack squares depend only on where pieces stand, not on which
/// pieces they are.
proof fn lemma_attacks_same_occupancy(
    b1: BoardSeq,
    b2: BoardSeq,
    by: PlayerColor,
    piece: Piece,
    p: Position,
)
    requires
        forall|i: int| 0 <= i < 64 ==> same_slot_for(by, #[trigger] b1[i], b2[i]),
        pos_on_board(p),
    ensures
        attacks_spec(piece, p, b1) == attacks_spec(piece, p, b2),
{
    match piece.kind {
        PieceKind::Rook | PieceKind::Bishop | PieceKind::Queen => {
            lemma_ray_same_occupancy(b1, b2, by, p, -1, 0, 8);
            lemma_ray_same_occupancy(b1, b2, by, p, 1, 0, 8);
            lemma_ray_same_occupancy(b1, b2, by, p, 0, -1, 8);
            lemma_ray_same_occupancy(b1, b2, by, p, 0, 1, 8);
            lemma_ray_same_occupancy(b1, b2, by, p, -1, -1, 8);
            lemma_ray_same_occupancy(b1, b2, by, p, -1, 1, 8);
            lemma_ray_same_occupancy(b1, b2, by, p, 1, -1, 8);
            lemma_ray_same_occupancy(b1, b2, by, p, 1, 1, 8);
        },
        _ => {},
    }
}

/// Whether `by` attacks a square is unchanged between two boards that are
/// occupied in the same places and carry the same pieces of `by`.
pub proof fn lemma_is_attacked_same(b1: BoardSeq, b2: BoardSeq, target: Position, by: PlayerColor)
    requires
        forall|i: int| 0 <= i < 64 ==> same_slot_for(by, #[trigger] b1[i], b2[i]),
    ensures
        is_attacked(b1, target, by) == is_attacked(b2, target, by),
{
    if is_attacked(b1, target, by) {
        let p = choose|p: Position| pos_on_board(p) && #[trigger] attacked_from(b1, target, by, p);
        assert(same_slot_for(by, b1[pos_idx(p)], b2[pos_idx(p)]));
        lemma_attacks_same_occupancy(b1, b2, by, b1[pos_idx(p)]->0, p);
        assert(attacked_from(b2, target, by, p));
    }
    if is_attacked(b2, target, by) {
        let p = choose|p: Position| pos_on_board(p) && #[trigger] attacked_from(b2, target, by, p);
        assert(same_slot_for(by, b1[pos_idx(p)], b2[pos_idx(p)]));
        lemma_attacks_same_occupancy(b1, b2, by, b2[pos_idx(p)]->0, p);
        assert(attacked_from(b1, target, by, p));
    }
}

/// Safety of every pawn capture among the first `i` attack squares.
proof fn lemma_pawn_captures_safe(piece: Piece, p: Position, s: GameView, i: int, m: Move)
    requires
        view_wf(s),
        pos_on_board(p),
        piece.kind == PieceKind::Pawn,
        s.board[pos_idx(p)] == Some(piece),
        0 <= i <= attacks_spec(piece, p, s.board).len(),
        pawn_captures_upto(piece, p, s, i).contains(m),
    ensures
        !is_attacked(
            board_after(s.board, p, m, piece.color),
            king_pos_of(s, piece.color),
            opponent_of(piece.color),
        ),
    decreases i,
{
    let b = s.board;
    let king = king_pos_of(s, piece.color);
    let opp = opponent_of(piece.color);
    let atk = attacks_spec(piece, p, b);
    let base = b.update(pos_idx(p), None);
    lemma_contains_concat(
        pawn_captures_upto(piece, p, s, i - 1),
        pawn_capture_moves_at(piece, p, s, atk[i - 1]),
        m,
    );
    if pawn_captures_upto(piece, p, s, i - 1).contains(m) {
        lemma_pawn_captures_safe(piece, p, s, i - 1, m);
    } else {
        lemma_attacks_elems(piece, p, b);
        let a = atk[i - 1];
        assert(crate::rules::all_elems(
            atk,
            |e: Position|
                {
                    &&& pos_on_board(e)
                    &&& e != p
                    &&& (piece.kind == PieceKind::Pawn ==> e.1 == p.1 + pawn_dir(piece.color))
                },
        ));
        assert(pos_on_board(a) && a != p && a.1 == p.1 + pawn_dir(piece.color));
        let scratch = base.update(pos_idx(a), Some(piece));
        match b[pos_idx(a)] {
            Some(t) => {
                assert(safe_for_king(scratch, king, opp));
                if a.1 == pawn_promotion_rank(piece.color) {
                    let idx = choose|k: int|
                        0 <= k < promotion_moves(piece.color, a).len() && promotion_moves(
                            piece.color,
                            a,
                        )[k] == m;
                    let promoted = m->Promote_1;
                    assert(promoted.color == piece.color);
                    assert(m == Move::Promote(a, promoted));
                    let after = board_after(b, p, m, piece.color);
                    assert(after == b.update(pos_idx(a), Some(promoted)).update(pos_idx(p), None));
                    assert forall|k: int| 0 <= k < 64 implies same_slot_for(
                        opp,
                        #[trigger] scratch[k],
                        after[k],
                    ) by {}
                    lemma_is_attacked_same(scratch, after, king, opp);
                } else {
                    assert(m == Move::Take(a, a));
                    let after = board_after(b, p, m, piece.color);
                    assert(after =~= scratch);
                    lemma_is_attacked_same(scratch, after, king, opp);
                }
            },
            None => {
                let victim = shifted(a, 0, -pawn_dir(piece.color));
                assert(m == Move::Take(a, victim));
                assert(victim.1 == p.1 && victim.0 == a.0);
                assert(pos_on_board(victim) && victim != p && victim != a);
                let scratch2 = scratch.update(pos_idx(victim), None);
                assert(safe_for_king(scratch2, king, opp));
                let after = board_after(b, p, m, piece.color);
                assert(after =~= scratch2);
                lemma_is_attacked_same(scratch2, after, king, opp);
            },
        }
    }
}

/// Safety of every queen, rook, bishop or knight move among the first `i`
/// attack squares.
proof fn lemma_qrbn_safe(piece: Piece, p: Position, s: GameView, i: int, m: Move)
    requires
        view_wf(s),
        pos_on_board(p),
        piece.kind == PieceKind::Queen || piece.kind == PieceKind::Rook || piece.kind
            == PieceKind::Bishop || piece.kind == PieceKind::Knight,
        s.board[pos_idx(p)] == Some(piece),
        0 <= i <= attacks_spec(piece, p, s.board).len(),
        qrbn_moves_upto(piece, p, s, i).contains(m),
    ensures
        !is_attacked(
            board_after(s.board, p, m, piece.color),
            king_pos_of(s, piece.color),
            opponent_of(piece.color),
        ),
    decreases i,
{
    let b = s.board;
    let king = king_pos_of(s, piece.color);
    let opp = opponent_of(piece.color);
    let atk = attacks_spec(piece, p, b);
    let base = b.update(pos_idx(p), None);
    lemma_contains_concat(
        qrbn_moves_upto(piece, p, s, i - 1),
        qrbn_moves_at(piece, p, s, atk[i - 1]),
        m,
    );
    if qrbn_moves_upto(piece, p, s, i - 1).contains(m) {
        lemma_qrbn_safe(piece, p, s, i - 1, m);
    } else {
        lemma_attacks_elems(piece, p, b);
        let a = atk[i - 1];
        assert(crate::rules::all_elems(
            atk,
            |e: Position|
                {
                    &&& pos_on_board(e)
                    &&& e != p
                    &&& (piece.kind == PieceKind::Pawn ==> e.1 == p.1 + pawn_dir(piece.color))
                },
        ));
        assert(pos_on_board(a) && a != p);
        let scratch = base.update(pos_idx(a), Some(piece));
        assert(safe_for_king(scratch, king, opp));
        let after = board_after(b, p, m, piece.color);
        match b[pos_idx(a)] {
            None => {
                assert(m == Move::Move(a));
                assert(after =~= scratch);
            },
            Some(t) => {
                assert(m == Move::Take(a, a));
                assert(after =~= scratch);
            },
        }
        lemma_is_attacked_same(scratch, after, king, opp);
    }
}

/// Safety of the pawn's forward pushes.
proof fn lemma_pawn_forward_safe(piece: Piece, p: Position, s: GameView, m: Move)
    requires
        view_wf(s),
        pos_on_board(p),
        piece.kind == PieceKind::Pawn,
        s.board[pos_idx(p)] == Some(piece),
        pawn_forward_moves(piece, p, s).contains(m),
    ensures
        !is_attacked(
            board_after(s.board, p, m, piece.color),
            king_pos_of(s, piece.color),
            opponent_of(piece.color),
        ),
{
    let b = s.board;
    let king = king_pos_of(s, piece.color);
    let opp = opponent_of(piece.color);
    let dir = pawn_dir(piece.color);
    let base = b.update(pos_idx(p), None);
    let fwd = shifted(p, 0, dir);
    let single = if safe_for_king(base.update(pos_idx(fwd), Some(piece)), king, opp) {
        if fwd.1 == pawn_promotion_rank(piece.color) {
            promotion_moves(piece.color, fwd)
        } else {
            seq![Move::Move(fwd)]
        }
    } else {
        Seq::<Move>::empty()
    };
    let double = if p.1 == crate::rules::pawn_start_rank(piece.color) {
        let fwd2 = shifted(p, 0, 2 * dir);
        if b[pos_idx(fwd2)] is None {
            if safe_for_king(base.update(pos_idx(fwd2), Some(piece)), king, opp) {
                seq![Move::Move(fwd2)]
            } else {
                Seq::<Move>::empty()
            }
        } else {
            Seq::<Move>::empty()
        }
    } else {
        Seq::<Move>::empty()
    };
    assert(crate::rules::shift_on_board(p, 0, dir) && b[pos_idx(fwd)] is None);
    assert(pawn_forward_moves(piece, p, s) == single + double);
    lemma_contains_concat(single, double, m);
    assert(pos_on_board(fwd) && fwd != p);
    if single.contains(m) {
        let scratch = base.update(pos_idx(fwd), Some(piece));
        assert(safe_for_king(scratch, king, opp));
        if fwd.1 == pawn_promotion_rank(piece.color) {
            let promoted = m->Promote_1;
            assert(m == Move::Promote(fwd, promoted) && promoted.color == piece.color);
            let after = board_after(b, p, m, piece.color);
            assert(after == b.update(pos_idx(fwd), Some(promoted)).update(pos_idx(p), None));
            assert forall|k: int| 0 <= k < 64 implies same_slot_for(
                opp,
                #[trigger] scratch[k],
                after[k],
            ) by {}
            lemma_is_attacked_same(scratch, after, king, opp);
        } else {
            assert(m == Move::Move(fwd));
            let after = board_after(b, p, m, piece.color);
            assert(after =~= scratch);
            lemma_is_attacked_same(scratch, after, king, opp);
        }
    } else {
        let fwd2 = shifted(p, 0, 2 * dir);
        assert(p.1 == crate::rules::pawn_start_rank(piece.color) && b[pos_idx(fwd2)] is None);
        assert(pos_on_board(fwd2) && fwd2 != p);
        assert(m == Move::Move(fwd2));
        let scratch = base.update(pos_idx(fwd2), Some(piece));
        assert(safe_for_king(scratch, king, opp));
        let after = board_after(b, p, m, piece.color);
        assert(after =~= scratch);
        lemma_is_attacked_same(scratch, after, king, opp);
    }
}

/// Law: applying any generated move of a pawn, rook, knight, bishop or queen
/// never leaves the mover's own king attacked by the opponent on the
/// resulting board. (The king's own step moves are filtered only against the
/// pre-move board, so they are covered by the king-step law instead.)
pub proof fn lemma_moves_keep_king_safe(piece: Piece, p: Position, s: GameView, m: Move)
    requires
        view_wf(s),
        pos_on_board(p),
        s.board[pos_idx(p)] == Some(piece),
        piece.kind != PieceKind::King,
        moves_spec(piece, p, s).contains(m),
    ensures
        !is_attacked(
            board_after(s.board, p, m, piece.color),
            king_pos_of(s, piece.color),
            opponent_of(piece.color),
        ),
{
    if piece.kind == PieceKind::Pawn {
        let n = attacks_spec(piece, p, s.board).len() as int;
        lemma_contains_concat(
            pawn_forward_moves(piece, p, s),
            pawn_captures_upto(piece, p, s, n),
            m,
        );
        if pawn_forward_moves(piece, p, s).contains(m) {
            lemma_pawn_forward_safe(piece, p, s, m);
        } else {
            lemma_pawn_captures_safe(piece, p, s, n, m);
        }
    } else {
        lemma_qrbn_safe(piece, p, s, attacks_spec(piece, p, s.board).len() as int, m);
    }
}

} // verus!

verus! {

use crate::board::CastleType;

/// The shape and safety of every king step among the first `i` attack
/// squares: a plain relocation or a same-square capture onto a square the
/// opponent does not attack on the current board.
proof fn lemma_king_steps_props(piece: Piece, p: Position, s: GameView, i: int, m: Move)
    requires
        piece.kind == PieceKind::King,
        king_steps_upto(piece, p, s, i).contains(m),
    ensures
        !(m is Castle),
        !(m is Promote),
        m matches Move::Move(to) ==> !is_attacked(s.board, to, opponent_of(piece.color)),
        m matches Move::Take(to, v) ==> v == to && !is_attacked(
            s.board,
            to,
            opponent_of(piece.color),
        ),
    decreases i,
{
    let atk = attacks_spec(piece, p, s.board);
    lemma_contains_concat(
        king_steps_upto(piece, p, s, i - 1),
        king_step_moves_at(piece, p, s, atk[i - 1]),
        m,
    );
    if king_steps_upto(piece, p, s, i - 1).contains(m) {
        lemma_king_steps_props(piece, p, s, i - 1, m);
    }
}

/// The shape of every queen, rook, bishop or knight move among the first `i`
/// attack squares: a plain relocation or a same-square capture.
proof fn lemma_qrbn_shape(piece: Piece, p: Position, s: GameView, i: int, m: Move)
    requires
        qrbn_moves_upto(piece, p, s, i).contains(m),
    ensures
        !(m is Castle),
        !(m is Promote),
        m matches Move::Take(to, v) ==> v == to,
    decreases i,
{
    let atk = attacks_spec(piece, p, s.board);
    lemma_contains_concat(
        qrbn_moves_upto(piece, p, s, i - 1),
        qrbn_moves_at(piece, p, s, atk[i - 1]),
        m,
    );
    if qrbn_moves_upto(piece, p, s, i - 1).contains(m) {
        lemma_qrbn_shape(piece, p, s, i - 1, m);
    }
}

/// Any capture whose captured square differs from its destination, among a
/// pawn's first `i` capture candidates, is an en-passant capture onto the
/// recorded en-passant target.
proof fn lemma_pawn_captures_ep(piece: Piece, p: Position, s: GameView, i: int, to: Position, v: Position)
    requires
        piece.kind == PieceKind::Pawn,
        pawn_captures_upto(piece, p, s, i).contains(Move::Take(to, v)),
        v != to,
    ensures
        s.en_passant == Some(to),
        v == shifted(to, 0, -pawn_dir(piece.color)),
    decreases i,
{
    let atk = attacks_spec(piece, p, s.board);
    lemma_contains_concat(
        pawn_captures_upto(piece, p, s, i - 1),
        pawn_capture_moves_at(piece, p, s, atk[i - 1]),
        Move::Take(to, v),
    );
    if pawn_captures_upto(piece, p, s, i - 1).contains(Move::Take(to, v)) {
        lemma_pawn_captures_ep(piece, p, s, i - 1, to, v);
    }
}

/// Law: a king's legal destination, its castling arrival square included, is
/// never a square the opponent attacks on the pre-move board.
pub proof fn lemma_king_destination_safe(piece: Piece, p: Position, s: GameView, m: Move)
    requires
        piece.kind == PieceKind::King,
        moves_spec(piece, p, s).contains(m),
    ensures
        !is_attacked(s.board, move_dest(m, piece.color), opponent_of(piece.color)),
{
    let n = attacks_spec(piece, p, s.board).len() as int;
    lemma_contains_concat(king_steps_upto(piece, p, s, n), castle_moves_spec(piece, s), m);
    if king_steps_upto(piece, p, s, n).contains(m) {
        lemma_king_steps_props(piece, p, s, n, m);
    } else {
        let av = castling_of(s, piece.color);
        let short = if av.short_side_available && castle_legal(s, piece.color, CastleType::Short) {
            seq![Move::Castle(CastleType::Short)]
        } else {
            Seq::<Move>::empty()
        };
        let long = if av.long_side_available && castle_legal(s, piece.color, CastleType::Long) {
            seq![Move::Castle(CastleType::Long)]
        } else {
            Seq::<Move>::empty()
        };
        lemma_contains_concat(short, long, m);
        let side = m->Castle_0;
        assert(castle_legal(s, piece.color, side));
        let ke = crate::board::castle_positions(side, piece.color).king_end;
        assert(castle_square_ok(
            s.board,
            opponent_of(piece.color),
            castle_span(side, piece.color).0,
            castle_span(side, piece.color).1,
            castle_span(side, piece.color).2,
            ke.0 as int,
        ));
        assert(move_dest(m, piece.color) == ke);
    }
}

/// The square of a castling walk at file `x`.
pub open spec fn span_square(side: CastleType, color: PlayerColor, x: int) -> Position {
    Position(x as i32, castle_span(side, color).2 as i32)
}

/// Law: a castling move is offered only while that side's availability flag
/// still stands, every square strictly between the rook's and the king's
/// start squares is empty, and no square of the walked span, endpoints
/// included, is attacked by the opponent.
pub proof fn lemma_castle_requirements(piece: Piece, p: Position, s: GameView, side: CastleType)
    requires
        piece.kind == PieceKind::King,
        moves_spec(piece, p, s).contains(Move::Castle(side)),
    ensures
        side == CastleType::Short ==> castling_of(s, piece.color).short_side_available,
        side == CastleType::Long ==> castling_of(s, piece.color).long_side_available,
        forall|x: int|
            castle_span(side, piece.color).0 < x < castle_span(side, piece.color).1 ==> (
            #[trigger] s.board[x + castle_span(side, piece.color).2 * 8]) is None,
        forall|x: int|
            castle_span(side, piece.color).0 <= x <= castle_span(side, piece.color).1
                ==> !is_attacked(
                s.board,
                #[trigger] span_square(side, piece.color, x),
                opponent_of(piece.color),
            ),
{
    let m = Move::Castle(side);
    let n = attacks_spec(piece, p, s.board).len() as int;
    lemma_contains_concat(king_steps_upto(piece, p, s, n), castle_moves_spec(piece, s), m);
    if king_steps_upto(piece, p, s, n).contains(m) {
        lemma_king_steps_props(piece, p, s, n, m);
        assert(false);
    }
    let av = castling_of(s, piece.color);
    let short = if av.short_side_available && castle_legal(s, piece.color, CastleType::Short) {
        seq![Move::Castle(CastleType::Short)]
    } else {
        Seq::<Move>::empty()
    };
    let long = if av.long_side_available && castle_legal(s, piece.color, CastleType::Long) {
        seq![Move::Castle(CastleType::Long)]
    } else {
        Seq::<Move>::empty()
    };
    lemma_contains_concat(short, long, m);
    assert(castle_legal(s, piece.color, side));
    let lo = castle_span(side, piece.color).0;
    let hi = castle_span(side, piece.color).1;
    let rank = castle_span(side, piece.color).2;
    assert forall|x: int| lo < x < hi implies (#[trigger] s.board[x + rank * 8]) is None by {
        assert(castle_square_ok(s.board, opponent_of(piece.color), lo, hi, rank, x));
    }
    assert forall|x: int| lo < x < hi implies (#[trigger] s.board[x + castle_span(
        side,
        piece.color,
    ).2 * 8]) is None by {
        assert(castle_square_ok(s.board, opponent_of(piece.color), lo, hi, rank, x));
    }
    assert forall|x: int| lo <= x <= hi implies !is_attacked(
        s.board,
        span_square(side, piece.color, x),
        opponent_of(piece.color),
    ) by {
        assert(castle_square_ok(s.board, opponent_of(piece.color), lo, hi, rank, x));
    }
}

/// Law, first half: an en-passant capture (the one move whose captured square
/// differs from its destination) is generated only when its destination is
/// the currently recorded en-passant target, and the captured pawn stands
/// directly behind that target.
pub proof fn lemma_en_passant_needs_window(
    piece: Piece,
    p: Position,
    s: GameView,
    to: Position,
    v: Position,
)
    requires
        moves_spec(piece, p, s).contains(Move::Take(to, v)),
        v != to,
    ensures
        piece.kind == PieceKind::Pawn,
        s.en_passant == Some(to),
        v == shifted(to, 0, -pawn_dir(piece.color)),
{
    let m = Move::Take(to, v);
    let n = attacks_spec(piece, p, s.board).len() as int;
    match piece.kind {
        PieceKind::Pawn => {
            lemma_contains_concat(
                pawn_forward_moves(piece, p, s),
                pawn_captures_upto(piece, p, s, n),
                m,
            );
            if pawn_forward_moves(piece, p, s).contains(m) {
                lemma_pawn_forward_shape(piece, p, s, m);
                assert(false);
            }
            lemma_pawn_captures_ep(piece, p, s, n, to, v);
        },
        PieceKind::King => {
            lemma_contains_concat(king_steps_upto(piece, p, s, n), castle_moves_spec(piece, s), m);
            if king_steps_upto(piece, p, s, n).contains(m) {
                lemma_king_steps_props(piece, p, s, n, m);
            } else {
                let av = castling_of(s, piece.color);
                let short = if av.short_side_available && castle_legal(
                    s,
                    piece.color,
                    CastleType::Short,
                ) {
                    seq![Move::Castle(CastleType::Short)]
                } else {
                    Seq::<Move>::empty()
                };
                let long = if av.long_side_available && castle_legal(
                    s,
                    piece.color,
                    CastleType::Long,
                ) {
                    seq![Move::Castle(CastleType::Long)]
                } else {
                    Seq::<Move>::empty()
                };
                lemma_contains_concat(short, long, m);
            }
            assert(false);
        },
        _ => {
            lemma_qrbn_shape(piece, p, s, n, m);
            assert(false);
        },
    }
}

/// Every pawn forward push is a plain relocation or a promotion, never a
/// capture.
proof fn lemma_pawn_forward_shape(piece: Piece, p: Position, s: GameView, m: Move)
    requires
        pawn_forward_moves(piece, p, s).contains(m),
    ensures
        !(m is Take),
        !(m is Castle),
{
    let b = s.board;
    let king = king_pos_of(s, piece.color);
    let opp = opponent_of(piece.color);
    let dir = pawn_dir(piece.color);
    let base = b.update(pos_idx(p), None);
    let fwd = shifted(p, 0, dir);
    let single = if safe_for_king(base.update(pos_idx(fwd), Some(piece)), king, opp) {
        if fwd.1 == pawn_promotion_rank(piece.color) {
            promotion_moves(piece.color, fwd)
        } else {
            seq![Move::Move(fwd)]
        }
    } else {
        Seq::<Move>::empty()
    };
    let double = if p.1 == crate::rules::pawn_start_rank(piece.color) {
        let fwd2 = shifted(p, 0, 2 * dir);
        if b[pos_idx(fwd2)] is None {
            if safe_for_king(base.update(pos_idx(fwd2), Some(piece)), king, opp) {
                seq![Move::Move(fwd2)]
            } else {
                Seq::<Move>::empty()
            }
        } else {
            Seq::<Move>::empty()
        }
    } else {
        Seq::<Move>::empty()
    };
    assert(pawn_forward_moves(piece, p, s) == single + double);
    lemma_contains_concat(single, double, m);
}

/// Law, second half: right after a move is applied, the en-passant window is
/// open exactly when that move was a pawn double-step, and it points at the
/// skipped square; every other move closes it. With the first half this says
/// en passant is legal only on the half-move immediately following the
/// double-step.
pub proof fn lemma_en_passant_window_origin(s: GameView, from: Position, m: Move, moved: Piece)
    requires
        pos_on_board(from),
        crate::rules::move_positions_ok(m),
        s.phase is Turn,
        s.board[pos_idx(from)] == Some(moved),
    ensures
        next_spec(s, from, m).en_passant == ep_after(moved, from, m),
        next_spec(s, from, m).en_passant matches Some(t) ==> {
            &&& moved.kind == PieceKind::Pawn
            &&& m matches Move::Move(to) && (to.1 - from.1 == 2 || from.1 - to.1 == 2) && t
                == Position(to.0, ((from.1 + to.1) / 2) as i32)
        },
{
}

/// Law: the repetition table of the new state records the new board once more
/// than before, and the repetition draw is declared exactly when that count
/// reaches 3 and the fifty-move rule does not override it.
pub proof fn lemma_repetition_draw(s: GameView, from: Position, m: Move, moved: Piece)
    requires
        pos_on_board(from),
        crate::rules::move_positions_ok(m),
        s.phase is Turn,
        s.board[pos_idx(from)] == Some(moved),
        count_of(s.table, board_after(s.board, from, m, s.phase->Turn_0)) <= 2,
    ensures
        ({
            let r = next_spec(s, from, m);
            let c = count_of(s.table, r.board) + 1;
            &&& r.table == s.table.insert(r.board, c as u8)
            &&& (r.phase == GamePhase::Draw(DrawReason::Repeat) <==> (c == 3 && r.clock < 50))
        }),
{
}

/// Law: the fifty-move draw is declared exactly when the half-move clock of
/// the new state has reached 50, and that clock resets to zero exactly on a
/// pawn move, a capture, or a promotion, counting up otherwise.
pub proof fn lemma_fifty_move_rule(s: GameView, from: Position, m: Move, moved: Piece)
    requires
        pos_on_board(from),
        crate::rules::move_positions_ok(m),
        s.phase is Turn,
        s.board[pos_idx(from)] == Some(moved),
        s.clock <= 49,
    ensures
        ({
            let r = next_spec(s, from, m);
            &&& r.clock == (if clock_resets(moved, m) {
                0
            } else {
                s.clock + 1
            })
            &&& (r.phase == GamePhase::Draw(DrawReason::Fifty) <==> r.clock >= 50)
        }),
{
}

/// Law: when the player now to move has no legal move anywhere, and neither
/// draw override applies, the mover has won exactly when that player's king
/// is attacked, and the game is a stalemate draw otherwise.
pub proof fn lemma_no_moves_outcome(s: GameView, from: Position, m: Move, moved: Piece)
    requires
        pos_on_board(from),
        crate::rules::move_positions_ok(m),
        s.phase is Turn,
        s.board[pos_idx(from)] == Some(moved),
        !has_any_move(next_spec(s, from, m), opponent_of(s.phase->Turn_0)),
        count_of(s.table, next_spec(s, from, m).board) <= 2,
        count_of(s.table, next_spec(s, from, m).board) + 1 != 3,
        next_spec(s, from, m).clock < 50,
    ensures
        ({
            let player = s.phase->Turn_0;
            let r = next_spec(s, from, m);
            r.phase == (if is_attacked(r.board, king_pos_of(r, opponent_of(player)), player) {
                GamePhase::Won(player)
            } else {
                GamePhase::Draw(DrawReason::Stalemate)
            })
        }),
{
}

} // verus!
