//! A rules engine for standard chess: board state, legal-move generation
//! respecting check and pin constraints, move application, and terminal
//! outcome detection (checkmate, stalemate, threefold repetition, fifty-move
//! rule), together with a two-click interaction state machine for a UI layer.

pub mod board;
pub mod game;
pub mod laws;
pub mod rules;

pub use board::CastleType;
pub use board::CastlingAvailability;
pub use board::CastlingMovement;
pub use board::DrawReason;
pub use board::GamePhase;
pub use board::Interaction;
pub use board::Move;
pub use board::Piece;
pub use board::PieceKind;
pub use board::PlayerColor;
pub use board::Position;

pub use game::GameState;
pub use game::RepetitionTable;
