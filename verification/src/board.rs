//! The plain data of the game: piece kinds, colors, positions, moves, and the
//! board addressing scheme (an 8x8 grid stored as 64 optional piece slots).

use vstd::prelude::*;

verus! {

/// The six kinds of chess piece.
#[derive(Copy, Clone, Debug, Eq, PartialEq, Hash, Structural)]
pub enum PieceKind {
    Pawn,
    Rook,
    Knight,
    Bishop,
    King,
    Queen,
}

/// The two players. Black's pieces start on ranks 0 and 1, White's on 6 and 7.
#[derive(Copy, Clone, Debug, Eq, PartialEq, Hash, Structural)]
pub enum PlayerColor {
    Black,
    White,
}

/// What `PlayerColor::oppnent` returns: the other color.
pub open spec fn opponent_of(c: PlayerColor) -> PlayerColor {
    match c {
        PlayerColor::Black => PlayerColor::White,
        PlayerColor::White => PlayerColor::Black,
    }
}

impl PlayerColor {
    /// The other color.
    pub fn oppnent(&self) -> (r: PlayerColor)
        ensures
            r == opponent_of(*self),
    {
        match self {
            PlayerColor::Black => PlayerColor::White,
            PlayerColor::White => PlayerColor::Black,
        }
    }
}

/// A piece is its kind and its color; it has no identity beyond that.
#[derive(Copy, Clone, Debug, Eq, PartialEq, Hash, Structural)]
pub struct Piece {
    pub kind: PieceKind,
    pub color: PlayerColor,
}

/// A square, as (file, rank), each in 0..8 when on the board. Rank 0 is
/// Black's back rank, rank 7 is White's.
#[derive(Eq, PartialEq, Copy, Clone, Debug, Hash, Structural)]
pub struct Position(pub i32, pub i32);

/// True iff both coordinates lie in 0..8.
pub open spec fn pos_on_board(p: Position) -> bool {
    0 <= p.0 < 8 && 0 <= p.1 < 8
}

/// The linear board index of an on-board position: file + rank * 8.
pub open spec fn pos_idx(p: Position) -> int {
    p.0 + p.1 * 8
}

impl Position {
    /// The linear board index of this position.
    pub fn idx(&self) -> (r: usize)
        requires
            pos_on_board(*self),
        ensures
            r == pos_idx(*self),
    {
        (self.0 + self.1 * 8) as usize
    }
}

/// Which castling moves are still available to one color. A flag only ever
/// goes from true to false, never back.
#[derive(Copy, Clone, Debug, Eq, PartialEq, Structural)]
pub struct CastlingAvailability {
    pub long_side_available: bool,
    pub short_side_available: bool,
}

/// The two castling sides: long toward file 0, short toward file 7.
#[derive(Copy, Clone, Debug, Eq, PartialEq, Structural)]
pub enum CastleType {
    Long,
    Short,
}

/// The four squares a castling move touches.
#[derive(Copy, Clone, Debug, Eq, PartialEq, Structural)]
pub struct CastlingMovement {
    pub rook_start: Position,
    pub king_start: Position,
    pub rook_end: Position,
    pub king_end: Position,
}

/// What `CastleType::positions` returns for a side and a color.
pub open spec fn castle_positions(side: CastleType, color: PlayerColor) -> CastlingMovement {
    let rank: i32 = match color {
        PlayerColor::Black => 0,
        PlayerColor::White => 7,
    };
    match side {
        CastleType::Long => CastlingMovement {
            rook_start: Position(0, rank),
            king_start: Position(4, rank),
            rook_end: Position(3, rank),
            king_end: Position(2, rank),
        },
        CastleType::Short => CastlingMovement {
            rook_start: Position(7, rank),
            king_start: Position(4, rank),
            rook_end: Position(5, rank),
            king_end: Position(6, rank),
        },
    }
}

impl CastleType {
    /// The start and end squares of king and rook for this side and color.
    pub fn positions(&self, color: PlayerColor) -> (r: CastlingMovement)
        ensures
            r == castle_positions(*self, color),
    {
        let rank: i32 = match color {
            PlayerColor::Black => 0,
            PlayerColor::White => 7,
        };
        match self {
            CastleType::Long => CastlingMovement {
                rook_start: Position(0, rank),
                king_start: Position(4, rank),
                rook_end: Position(3, rank),
                king_end: Position(2, rank),
            },
            CastleType::Short => CastlingMovement {
                rook_start: Position(7, rank),
                king_start: Position(4, rank),
                rook_end: Position(5, rank),
                king_end: Position(6, rank),
            },
        }
    }
}

/// A candidate move: a plain relocation, a capture (the captured square can
/// differ from the destination, for en passant only), a pawn promotion, or a
/// castling move of the given side.
#[derive(Copy, Clone, Debug, Eq, PartialEq, Structural)]
pub enum Move {
    Move(Position),
    Take(Position, Position),
    Promote(Position, Piece),
    Castle(CastleType),
}

/// Why a finished game is drawn.
#[derive(Copy, Clone, Debug, Eq, PartialEq, Structural)]
pub enum DrawReason {
    Fifty,
    Repeat,
    Stalemate,
}

/// Whose turn it is, or how the game ended. Terminal once `Won` or `Draw`.
#[derive(Copy, Clone, Debug, Eq, PartialEq, Structural)]
pub enum GamePhase {
    Won(PlayerColor),
    Draw(DrawReason),
    Turn(PlayerColor),
}

/// A UI-facing event or sub-state of the two-click input protocol.
#[derive(Clone, Debug)]
pub enum Interaction {
    StartMovingPiece(Position),
    PlacedPiece(Position),
    PickingPromotion(Position, Position, Vec<Piece>),
    PickedPromotion(Piece),
}

/// The mathematical value of an `Interaction` (the promotion candidate list
/// becomes a sequence).
pub enum InteractionView {
    StartMovingPiece(Position),
    PlacedPiece(Position),
    PickingPromotion(Position, Position, Seq<Piece>),
    PickedPromotion(Piece),
}

impl View for Interaction {
    type V = InteractionView;

    open spec fn view(&self) -> InteractionView {
        match self {
            Interaction::StartMovingPiece(p) => InteractionView::StartMovingPiece(*p),
            Interaction::PlacedPiece(p) => InteractionView::PlacedPiece(*p),
            Interaction::PickingPromotion(f, o, c) => InteractionView::PickingPromotion(
                *f,
                *o,
                c@,
            ),
            Interaction::PickedPromotion(p) => InteractionView::PickedPromotion(*p),
        }
    }
}

/// The glyph for a piece in the chess TTF font used by the UI layer.
pub open spec fn ttf_glyph(kind: PieceKind, color: PlayerColor) -> Seq<char> {
    match (kind, color) {
        (PieceKind::Pawn, PlayerColor::White) => "p"@,
        (PieceKind::Rook, PlayerColor::White) => "r"@,
        (PieceKind::Knight, PlayerColor::White) => "h"@,
        (PieceKind::Bishop, PlayerColor::White) => "b"@,
        (PieceKind::King, PlayerColor::White) => "k"@,
        (PieceKind::Queen, PlayerColor::White) => "q"@,
        (PieceKind::Pawn, PlayerColor::Black) => "o"@,
        (PieceKind::Rook, PlayerColor::Black) => "t"@,
        (PieceKind::Knight, PlayerColor::Black) => "j"@,
        (PieceKind::Bishop, PlayerColor::Black) => "n"@,
        (PieceKind::King, PlayerColor::Black) => "l"@,
        (PieceKind::Queen, PlayerColor::Black) => "w"@,
    }
}

impl PieceKind {
    /// The glyph drawn for a piece of this kind and the given color.
    pub fn to_ttf(&self, color: PlayerColor) -> (r: &'static str)
        ensures
            r@ == ttf_glyph(*self, color),
    {
        match (self, color) {
            (PieceKind::Pawn, PlayerColor::White) => "p",
            (PieceKind::Rook, PlayerColor::White) => "r",
            (PieceKind::Knight, PlayerColor::White) => "h",
            (PieceKind::Bishop, PlayerColor::White) => "b",
            (PieceKind::King, PlayerColor::White) => "k",
            (PieceKind::Queen, PlayerColor::White) => "q",
            (PieceKind::Pawn, PlayerColor::Black) => "o",
            (PieceKind::Rook, PlayerColor::Black) => "t",
            (PieceKind::Knight, PlayerColor::Black) => "j",
            (PieceKind::Bishop, PlayerColor::Black) => "n",
            (PieceKind::King, PlayerColor::Black) => "l",
            (PieceKind::Queen, PlayerColor::Black) => "w",
        }
    }
}

} // verus!
