//! The executable game state and its operations: attack scanning, legal-move
//! generation, move application, and the interaction state machine. Every
//! function is proved to return exactly what the spec model in `rules`
//! describes.

use vstd::prelude::*;

use crate::board::CastleType;
use crate::board::CastlingAvailability;
use crate::board::GamePhase;
use crate::board::Interaction;
use crate::board::InteractionView;
use crate::board::Move;
use crate::board::Piece;
use crate::board::PieceKind;
use crate::board::PlayerColor;
use crate::board::Position;
use crate::board::pos_idx;
use crate::board::pos_on_board;
use crate::rules::BoardSeq;
use crate::rules::GameView;
use crate::rules::attacked_from;
use crate::rules::attacks_spec;
use crate::rules::is_attacked;
use crate::rules::ray;
use crate::rules::ray8;
use crate::rules::shift_on_board;
use crate::rules::shifted;
use crate::rules::step_target;
use crate::rules::view_wf;

verus! {

/// True iff no two entries of a repetition-table entry list share a key.
spec fn entries_distinct(entries: Seq<(Vec<Option<Piece>>, u8)>) -> bool {
    forall|i: int, j: int| 0 <= i < j < entries.len() ==> (#[trigger] entries[i]).0@ != (
    #[trigger] entries[j]).0@
}

/// The map an entry list stands for.
spec fn entries_view(entries: Seq<(Vec<Option<Piece>>, u8)>) -> Map<BoardSeq, u8>
    decreases entries.len(),
{
    if entries.len() == 0 {
        Map::empty()
    } else {
        entries_view(entries.drop_last()).insert(entries.last().0@, entries.last().1)
    }
}

proof fn lemma_entries_view(entries: Seq<(Vec<Option<Piece>>, u8)>)
    ensures
        forall|k: BoardSeq| #[trigger]
            entries_view(entries).contains_key(k) ==> exists|i: int|
                0 <= i < entries.len() && (#[trigger] entries[i]).0@ == k,
        entries_distinct(entries) ==> forall|i: int|
            0 <= i < entries.len() ==> entries_view(entries).contains_key(
                (#[trigger] entries[i]).0@,
            ) && entries_view(entries)[entries[i].0@] == entries[i].1,
    decreases entries.len(),
{
    if entries.len() > 0 {
        let prefix = entries.drop_last();
        lemma_entries_view(prefix);
        assert forall|k: BoardSeq| #[trigger] entries_view(entries).contains_key(k) implies exists|
            i: int,
        | 0 <= i < entries.len() && (#[trigger] entries[i]).0@ == k by {
            if k == entries.last().0@ {
                assert(entries[entries.len() - 1].0@ == k);
            } else {
                assert(entries_view(prefix).contains_key(k));
                let i = choose|i: int| 0 <= i < prefix.len() && (#[trigger] prefix[i]).0@ == k;
                assert(entries[i].0@ == k);
            }
        }
        if entries_distinct(entries) {
            assert forall|i: int| 0 <= i < entries.len() implies entries_view(
                entries,
            ).contains_key((#[trigger] entries[i]).0@) && entries_view(entries)[entries[i].0@]
                == entries[i].1 by {
                if i == entries.len() - 1 {
                } else {
                    assert(prefix[i] == entries[i]);
                    assert(entries[i].0@ != entries[entries.len() - 1].0@);
                }
            }
        }
    }
}

proof fn lemma_entries_view_update(
    entries: Seq<(Vec<Option<Piece>>, u8)>,
    i: int,
    key: Vec<Option<Piece>>,
    count: u8,
)
    requires
        0 <= i < entries.len(),
        entries_distinct(entries),
        entries[i].0@ == key@,
    ensures
        entries_view(entries.update(i, (key, count))) == entries_view(entries).insert(key@, count),
    decreases entries.len(),
{
    let e2 = entries.update(i, (key, count));
    if i == entries.len() - 1 {
        assert(e2.drop_last() =~= entries.drop_last());
        assert(entries_view(e2) =~= entries_view(entries).insert(key@, count));
    } else {
        assert(e2.drop_last() =~= entries.drop_last().update(i, (key, count)));
        assert(entries.drop_last()[i] == entries[i]);
        lemma_entries_view_update(entries.drop_last(), i, key, count);
        let last = entries.last();
        assert(e2.last() == last);
        assert(last.0@ != key@);
        assert(entries_view(e2) =~= entries_view(entries).insert(key@, count));
    }
}

/// The table that counts how often each board configuration has been reached,
/// keyed by the exact 64-slot board contents.
pub struct RepetitionTable {
    entries: Vec<(Vec<Option<Piece>>, u8)>,
}

impl View for RepetitionTable {
    type V = Map<BoardSeq, u8>;

    closed spec fn view(&self) -> Map<BoardSeq, u8> {
        entries_view(self.entries@)
    }
}

impl RepetitionTable {
    /// The entry list never holds two entries for the same board.
    pub closed spec fn wf(&self) -> bool {
        entries_distinct(self.entries@)
    }

    /// An empty table.
    pub fn new() -> (r: RepetitionTable)
        ensures
            r@ == Map::<BoardSeq, u8>::empty(),
            r.wf(),
    {
        RepetitionTable { entries: Vec::new() }
    }

    /// The recorded count for `key`, zero when absent.
    pub fn count(&self, key: &Vec<Option<Piece>>) -> (r: u8)
        requires
            self.wf(),
        ensures
            r as int == crate::rules::count_of(self@, key@),
    {
        let n = self.entries.len();
        let mut i: usize = 0;
        while i < n
            invariant
                n == self.entries.len(),
                0 <= i <= n,
                self.wf(),
                forall|j: int| 0 <= j < i ==> (#[trigger] self.entries@[j]).0@ != key@,
            decreases n - i,
        {
            if boards_equal(&self.entries[i].0, key) {
                proof {
                    lemma_entries_view(self.entries@);
                    assert(self.entries@[i as int].0@ == key@);
                }
                return self.entries[i].1;
            }
            i += 1;
        }
        proof {
            lemma_entries_view(self.entries@);
            if self@.contains_key(key@) {
                let j = choose|j: int|
                    0 <= j < self.entries@.len() && (#[trigger] self.entries@[j]).0@ == key@;
                assert(false);
            }
        }
        0
    }

    /// Record `count` for `key`, replacing any previous count.
    pub fn record(&mut self, key: Vec<Option<Piece>>, count: u8)
        requires
            old(self).wf(),
        ensures
            final(self)@ == old(self)@.insert(key@, count),
            final(self).wf(),
    {
        let n = self.entries.len();
        let mut i: usize = 0;
        while i < n
            invariant
                n == self.entries.len(),
                0 <= i <= n,
                self == old(self),
                old(self).wf(),
                forall|j: int| 0 <= j < i ==> (#[trigger] self.entries@[j]).0@ != key@,
            decreases n - i,
        {
            if boards_equal(&self.entries[i].0, &key) {
                proof {
                    lemma_entries_view_update(self.entries@, i as int, key, count);
                }
                let ghost old_entries = self.entries@;
                self.entries[i] = (key, count);
                proof {
                    assert(self.entries@ == old_entries.update(i as int, (key, count)));
                    assert forall|j: int| 0 <= j < self.entries@.len() implies (
                    #[trigger] self.entries@[j]).0@ == old_entries[j].0@ by {
                        if j == i as int {
                            assert(old_entries[j].0@ == key@);
                        }
                    }
                }
                return ;
            }
            i += 1;
        }
        proof {
            lemma_entries_view(self.entries@);
        }
        let ghost old_entries = self.entries@;
        self.entries.push((key, count));
        proof {
            assert(self.entries@.drop_last() =~= old_entries);
            assert(self@ == old(self)@.insert(key@, count));
            assert forall|a: int, b: int|
                0 <= a < b < self.entries@.len() implies (#[trigger] self.entries@[a]).0@ != (
            #[trigger] self.entries@[b]).0@ by {
                if b < self.entries@.len() - 1 {
                    assert(old_entries[a].0@ != old_entries[b].0@);
                } else {
                    assert(self.entries@[a] == old_entries[a]);
                }
            }
        }
    }

    /// A copy of the table.
    pub fn duplicate(&self) -> (r: RepetitionTable)
        requires
            self.wf(),
        ensures
            r@ == self@,
            r.wf(),
    {
        let n = self.entries.len();
        let mut entries: Vec<(Vec<Option<Piece>>, u8)> = Vec::new();
        let mut i: usize = 0;
        while i < n
            invariant
                n == self.entries.len(),
                0 <= i <= n,
                entries@.len() == i,
                forall|j: int| 0 <= j < i ==> #[trigger] entries@[j].0@ == self.entries@[j].0@
                    && entries@[j].1 == self.entries@[j].1,
            decreases n - i,
        {
            let b = copy_board(&self.entries[i].0);
            let c = self.entries[i].1;
            entries.push((b, c));
            i += 1;
        }
        proof {
            lemma_entries_view_congruent(entries@, self.entries@);
        }
        RepetitionTable { entries }
    }
}

proof fn lemma_entries_view_congruent(
    a: Seq<(Vec<Option<Piece>>, u8)>,
    b: Seq<(Vec<Option<Piece>>, u8)>,
)
    requires
        a.len() == b.len(),
        forall|j: int| 0 <= j < a.len() ==> #[trigger] a[j].0@ == b[j].0@ && a[j].1 == b[j].1,
    ensures
        entries_view(a) == entries_view(b),
        entries_distinct(b) ==> entries_distinct(a),
    decreases a.len(),
{
    if a.len() > 0 {
        lemma_entries_view_congruent(a.drop_last(), b.drop_last());
        assert(a[a.len() - 1].0@ == b[b.len() - 1].0@);
    }
}

/// Compare two boards slot by slot.
fn boards_equal(a: &Vec<Option<Piece>>, b: &Vec<Option<Piece>>) -> (r: bool)
    ensures
        r == (a@ == b@),
{
    if a.len() != b.len() {
        return false;
    }
    let n = a.len();
    let mut i: usize = 0;
    while i < n
        invariant
            n == a@.len() == b@.len(),
            0 <= i <= n,
            forall|j: int| 0 <= j < i ==> a@[j] == b@[j],
        decreases n - i,
    {
        let sa = a[i];
        let sb = b[i];
        let same = match (sa, sb) {
            (None, None) => true,
            (Some(x), Some(y)) => x == y,
            _ => false,
        };
        if !same {
            assert(a@[i as int] != b@[i as int]);
            return false;
        }
        i += 1;
    }
    proof {
        assert(a@ =~= b@);
    }
    true
}

/// A copy of a board.
fn copy_board(v: &Vec<Option<Piece>>) -> (r: Vec<Option<Piece>>)
    ensures
        r@ == v@,
{
    let n = v.len();
    let mut r: Vec<Option<Piece>> = Vec::new();
    let mut i: usize = 0;
    while i < n
        invariant
            n == v@.len(),
            0 <= i <= n,
            r@.len() == i,
            forall|j: int| 0 <= j < i ==> r@[j] == v@[j],
        decreases n - i,
    {
        r.push(v[i]);
        i += 1;
    }
    proof {
        assert(r@ =~= v@);
    }
    r
}

/// Linear search for a position in a list.
fn contains_position(v: &Vec<Position>, t: Position) -> (r: bool)
    ensures
        r == v@.contains(t),
{
    let n = v.len();
    let mut i: usize = 0;
    while i < n
        invariant
            n == v@.len(),
            0 <= i <= n,
            forall|j: int| 0 <= j < i ==> v@[j] != t,
        decreases n - i,
    {
        if v[i] == t {
            return true;
        }
        i += 1;
    }
    false
}

/// Linear search for a piece in a list.
fn contains_piece(v: &Vec<Piece>, t: Piece) -> (r: bool)
    ensures
        r == v@.contains(t),
{
    let n = v.len();
    let mut i: usize = 0;
    while i < n
        invariant
            n == v@.len(),
            0 <= i <= n,
            forall|j: int| 0 <= j < i ==> v@[j] != t,
        decreases n - i,
    {
        if v[i] == t {
            return true;
        }
        i += 1;
    }
    false
}

/// The whole state of one game: the board, the redundant king caches, the
/// castling flags, the en-passant window, the clocks and repetition table,
/// the phase, and the transient interaction sub-state.
pub struct GameState {
    castling_white: CastlingAvailability,
    castling_black: CastlingAvailability,
    white_king: Position,
    black_king: Position,
    board: Vec<Option<Piece>>,
    state: GamePhase,
    previous_en_passe_move: Option<Position>,
    interaction: Option<Interaction>,
    moves_since_interesting: u8,
    position_counter: RepetitionTable,
}

impl View for GameState {
    type V = GameView;

    closed spec fn view(&self) -> GameView {
        GameView {
            castling_white: self.castling_white,
            castling_black: self.castling_black,
            white_king: self.white_king,
            black_king: self.black_king,
            board: self.board@,
            phase: self.state,
            en_passant: self.previous_en_passe_move,
            interaction: match self.interaction {
                Some(i) => Some(i@),
                None => None,
            },
            clock: self.moves_since_interesting,
            table: self.position_counter@,
        }
    }
}

impl GameState {
    /// The invariant every reachable game state satisfies: a 64-slot board,
    /// on-board king caches and stored interaction squares, and, while the
    /// game is running, a half-move clock under 50 and repetition counts
    /// under 3 (higher values end the game at once).
    pub closed spec fn wf(&self) -> bool {
        &&& view_wf(self@)
        &&& self.position_counter.wf()
        &&& (self.state is Turn ==> self.moves_since_interesting <= 49)
        &&& (self.state is Turn ==> forall|k: BoardSeq|
            #[trigger] self.position_counter@.contains_key(k)
                ==> self.position_counter@[k] <= 2)
        &&& match self.interaction {
            Some(Interaction::StartMovingPiece(p)) => pos_on_board(p),
            _ => true,
        }
    }

    /// The part of the invariant the board operations need: a 64-slot board
    /// and on-board king caches.
    pub closed spec fn base_wf(&self) -> bool {
        view_wf(self@)
    }

    /// The full invariant implies the structural part.
    pub proof fn lemma_wf_base(&self)
        requires
            self.wf(),
        ensures
            self.base_wf(),
    {
    }

    /// A well-formed state has a well-formed mathematical value.
    pub proof fn lemma_wf_view(&self)
        requires
            self.wf(),
        ensures
            view_wf(self@),
    {
    }

    /// True iff both coordinates of `pos` lie in 0..8.
    pub fn is_valid_position_on_board(pos: Position) -> (r: bool)
        ensures
            r == pos_on_board(pos),
    {
        pos.0 >= 0 && pos.0 < 8 && pos.1 >= 0 && pos.1 < 8
    }

    /// The piece on a square, if any.
    pub fn piece_at(&self, position: Position) -> (r: Option<Piece>)
        requires
            self.base_wf(),
            pos_on_board(position),
        ensures
            r == self@.board[pos_idx(position)],
    {
        self.board[position.idx()]
    }

    /// Whose turn it is, or how the game ended.
    pub fn phase(&self) -> (r: GamePhase)
        ensures
            r == self@.phase,
    {
        self.state
    }

    /// The pending interaction sub-state, if any.
    pub fn interaction(&self) -> (r: Option<&Interaction>)
        ensures
            match r {
                Some(i) => self@.interaction == Some(i@),
                None => self@.interaction is None,
            },
    {
        self.interaction.as_ref()
    }

    /// True iff some piece of `player` attacks `position` on the current
    /// board.
    pub fn position_is_attacked_by(&self, position: Position, player: PlayerColor) -> (r: bool)
        requires
            self.base_wf(),
        ensures
            r == is_attacked(self@.board, position, player),
    {
        board_is_attacked(&self.board, position, player)
    }
}

/// One single-step offset: add the target square iff it is on the board.
fn add_attacks_single_step(start: Position, step: (i32, i32), positions: &mut Vec<Position>)
    requires
        pos_on_board(start),
        -8 <= step.0 <= 8,
        -8 <= step.1 <= 8,
    ensures
        final(positions)@ == old(positions)@ + step_target(start, step.0 as int, step.1 as int),
{
    let pos = Position(start.0 + step.0, start.1 + step.1);
    if GameState::is_valid_position_on_board(pos) {
        positions.push(pos);
        assert(positions@ =~= old(positions)@ + step_target(
            start,
            step.0 as int,
            step.1 as int,
        ));
    } else {
        assert(positions@ =~= old(positions)@ + step_target(
            start,
            step.0 as int,
            step.1 as int,
        ));
    }
}

/// How many steps a ray can still take before its driving coordinate leaves
/// the board.
spec fn ray_room(p: Position, dx: int, dy: int) -> int {
    if dx > 0 {
        7 - p.0
    } else if dx < 0 {
        p.0 as int
    } else if dy > 0 {
        7 - p.1
    } else {
        p.1 as int
    }
}

/// One sliding ray: walk while on the board, record every visited square, and
/// stop at the first occupied square, inclusive.
fn add_attacks_pattern(
    start: Position,
    step: (i32, i32),
    board: &Vec<Option<Piece>>,
    positions: &mut Vec<Position>,
)
    requires
        pos_on_board(start),
        board@.len() == 64,
        -1 <= step.0 <= 1,
        -1 <= step.1 <= 1,
        !(step.0 == 0 && step.1 == 0),
    ensures
        final(positions)@ == old(positions)@ + ray8(board@, start, step.0 as int, step.1 as int),
{
    let ghost dx = step.0 as int;
    let ghost dy = step.1 as int;
    let mut pos = Position(start.0 + step.0, start.1 + step.1);
    let ghost mut prev = start;
    let ghost mut fuel: nat = 8;
    loop
        invariant_except_break
            old(positions)@ + ray(board@, start, dx, dy, 8) == positions@ + ray(
                board@,
                prev,
                dx,
                dy,
                fuel,
            ),
        invariant
            pos_on_board(prev),
            -1 <= step.0 <= 1,
            -1 <= step.1 <= 1,
            !(step.0 == 0 && step.1 == 0),
            dx == step.0 as int,
            dy == step.1 as int,
            pos.0 == prev.0 + step.0,
            pos.1 == prev.1 + step.1,
            board@.len() == 64,
            fuel >= ray_room(prev, dx, dy) + 1,
        ensures
            positions@ == old(positions)@ + ray8(board@, start, step.0 as int, step.1 as int),
        decreases fuel,
    {
        if !GameState::is_valid_position_on_board(pos) {
            proof {
                assert(!shift_on_board(prev, dx, dy));
                assert(ray(board@, prev, dx, dy, fuel) =~= Seq::<Position>::empty());
                assert(positions@ =~= old(positions)@ + ray8(board@, start, dx, dy));
            }
            break ;
        }
        proof {
            assert(shift_on_board(prev, dx, dy));
            assert(pos == shifted(prev, dx, dy));
        }
        positions.push(pos);
        let occupied = match board[pos.idx()] {
            Some(_) => true,
            None => false,
        };
        if occupied {
            proof {
                assert(ray(board@, prev, dx, dy, fuel) =~= seq![pos]);
                assert(positions@ =~= old(positions)@ + ray8(board@, start, dx, dy));
            }
            break ;
        }
        proof {
            assert(ray(board@, prev, dx, dy, fuel) =~= seq![pos] + ray(
                board@,
                pos,
                dx,
                dy,
                (fuel - 1) as nat,
            ));
            assert(ray_room(pos, dx, dy) <= ray_room(prev, dx, dy) - 1);
            prev = pos;
            fuel = (fuel - 1) as nat;
        }
        pos = Position(pos.0 + step.0, pos.1 + step.1);
    }
}

/// The attack squares of `piece` standing at `position` on a bare board.
fn attacks_on(piece: Piece, position: Position, board: &Vec<Option<Piece>>) -> (r: Vec<Position>)
    requires
        pos_on_board(position),
        board@.len() == 64,
    ensures
        r@ == attacks_spec(piece, position, board@),
{
    let mut attacks: Vec<Position> = Vec::new();
    match piece.kind {
        PieceKind::Pawn => {
            let dir: i32 = match piece.color {
                PlayerColor::Black => 1,
                PlayerColor::White => -1,
            };
            add_attacks_single_step(position, (-1, dir), &mut attacks);
            add_attacks_single_step(position, (1, dir), &mut attacks);
        },
        PieceKind::Rook => {
            add_attacks_pattern(position, (-1, 0), board, &mut attacks);
            add_attacks_pattern(position, (1, 0), board, &mut attacks);
            add_attacks_pattern(position, (0, -1), board, &mut attacks);
            add_attacks_pattern(position, (0, 1), board, &mut attacks);
        },
        PieceKind::Knight => {
            add_attacks_single_step(position, (-1, -2), &mut attacks);
            add_attacks_single_step(position, (-1, 2), &mut attacks);
            add_attacks_single_step(position, (1, -2), &mut attacks);
            add_attacks_single_step(position, (1, 2), &mut attacks);
            add_attacks_single_step(position, (-2, -1), &mut attacks);
            add_attacks_single_step(position, (-2, 1), &mut attacks);
            add_attacks_single_step(position, (2, -1), &mut attacks);
            add_attacks_single_step(position, (2, 1), &mut attacks);
        },
        PieceKind::Bishop => {
            add_attacks_pattern(position, (-1, -1), board, &mut attacks);
            add_attacks_pattern(position, (-1, 1), board, &mut attacks);
            add_attacks_pattern(position, (1, -1), board, &mut attacks);
            add_attacks_pattern(position, (1, 1), board, &mut attacks);
        },
        PieceKind::King => {
            add_attacks_single_step(position, (-1, -1), &mut attacks);
            add_attacks_single_step(position, (-1, 1), &mut attacks);
            add_attacks_single_step(position, (1, -1), &mut attacks);
            add_attacks_single_step(position, (1, 1), &mut attacks);
            add_attacks_single_step(position, (0, -1), &mut attacks);
            add_attacks_single_step(position, (0, 1), &mut attacks);
            add_attacks_single_step(position, (-1, 0), &mut attacks);
            add_attacks_single_step(position, (1, 0), &mut attacks);
        },
        PieceKind::Queen => {
            add_attacks_pattern(position, (-1, 0), board, &mut attacks);
            add_attacks_pattern(position, (1, 0), board, &mut attacks);
            add_attacks_pattern(position, (0, -1), board, &mut attacks);
            add_attacks_pattern(position, (0, 1), board, &mut attacks);
            add_attacks_pattern(position, (-1, -1), board, &mut attacks);
            add_attacks_pattern(position, (-1, 1), board, &mut attacks);
            add_attacks_pattern(position, (1, -1), board, &mut attacks);
            add_attacks_pattern(position, (1, 1), board, &mut attacks);
        },
    }
    proof {
        assert(attacks@ =~= attacks_spec(piece, position, board@));
    }
    attacks
}

/// Scan the whole board for a piece of `player` that attacks `target`.
fn board_is_attacked(board: &Vec<Option<Piece>>, target: Position, player: PlayerColor) -> (r: bool)
    requires
        board@.len() == 64,
    ensures
        r == is_attacked(board@, target, player),
{
    let mut x: i32 = 0;
    while x < 8
        invariant
            0 <= x <= 8,
            board@.len() == 64,
            forall|p: Position|
                pos_on_board(p) && p.0 < x ==> !#[trigger] attacked_from(board@, target, player, p),
        decreases 8 - x,
    {
        let mut y: i32 = 0;
        while y < 8
            invariant
                0 <= x < 8,
                0 <= y <= 8,
                board@.len() == 64,
                forall|p: Position|
                    pos_on_board(p) && p.0 < x ==> !#[trigger] attacked_from(
                        board@,
                        target,
                        player,
                        p,
                    ),
                forall|p: Position|
                    pos_on_board(p) && p.0 == x && p.1 < y ==> !#[trigger] attacked_from(
                        board@,
                        target,
                        player,
                        p,
                    ),
            decreases 8 - y,
        {
            let pos = Position(x, y);
            if let Some(piece) = board[pos.idx()] {
                if piece.color == player {
                    let atk = attacks_on(piece, pos, board);
                    if contains_position(&atk, target) {
                        proof {
                            assert(attacked_from(board@, target, player, pos));
                        }
                        return true;
                    }
                }
            }
            proof {
                assert(!attacked_from(board@, target, player, pos));
            }
            y += 1;
        }
        x += 1;
    }
    proof {
        assert forall|p: Position| pos_on_board(p) implies !attacked_from(
            board@,
            target,
            player,
            p,
        ) by {
            assert(p.0 < 8);
        }
    }
    false
}

impl Piece {
    /// The squares this piece attacks from `position`, in generation order.
    pub fn attacks(&self, position: Position, board: &GameState) -> (r: Vec<Position>)
        requires
            board.base_wf(),
            pos_on_board(position),
        ensures
            r@ == attacks_spec(*self, position, board@.board),
    {
        attacks_on(*self, position, &board.board)
    }
}

} // verus!

verus! {

use crate::rules::GameView as GV;
use crate::rules::all_elems;
use crate::rules::castle_legal;
use crate::board::castle_positions;
use crate::rules::castle_square_ok;
use crate::rules::king_pos_of;
use crate::rules::king_steps_upto;
use crate::rules::king_moves_spec;
use crate::rules::castle_moves_spec;
use crate::rules::lemma_attacks_elems;
use crate::rules::moves_spec;
use crate::rules::pawn_captures_upto;
use crate::rules::pawn_dir;
use crate::rules::pawn_forward_moves;
use crate::rules::pawn_promotion_rank;
use crate::rules::pawn_start_rank;
use crate::rules::promotion_moves;
use crate::rules::qrbn_moves_upto;
use crate::board::opponent_of;

/// Append the four promotion candidates, in order: queen, rook, knight,
/// bishop.
fn push_promotions(moves: &mut Vec<Move>, color: PlayerColor, to: Position)
    ensures
        final(moves)@ == old(moves)@ + promotion_moves(color, to),
{
    moves.push(Move::Promote(to, Piece { kind: PieceKind::Queen, color }));
    moves.push(Move::Promote(to, Piece { kind: PieceKind::Rook, color }));
    moves.push(Move::Promote(to, Piece { kind: PieceKind::Knight, color }));
    moves.push(Move::Promote(to, Piece { kind: PieceKind::Bishop, color }));
    proof {
        assert(moves@ =~= old(moves)@ + promotion_moves(color, to));
    }
}

/// The walk-through test for one castling side: every square strictly between
/// rook and king must be empty and no square of the span may be attacked.
fn castle_walk_ok(board: &GameState, color: PlayerColor, side: CastleType) -> (r: bool)
    requires
        board.base_wf(),
    ensures
        r == castle_legal(board@, color, side),
{
    let cm = side.positions(color);
    let opponent = color.oppnent();
    let lo = if cm.rook_start.0 <= cm.king_start.0 {
        cm.rook_start.0
    } else {
        cm.king_start.0
    };
    let hi = if cm.rook_start.0 <= cm.king_start.0 {
        cm.king_start.0
    } else {
        cm.rook_start.0
    };
    let rank = cm.rook_start.1;
    let mut x = lo;
    while x <= hi
        invariant
            board.base_wf(),
            cm == castle_positions(side, color),
            opponent == opponent_of(color),
            lo as int == if cm.rook_start.0 <= cm.king_start.0 {
                cm.rook_start.0 as int
            } else {
                cm.king_start.0 as int
            },
            hi as int == if cm.rook_start.0 <= cm.king_start.0 {
                cm.king_start.0 as int
            } else {
                cm.rook_start.0 as int
            },
            rank == cm.rook_start.1,
            0 <= lo <= hi < 8,
            0 <= rank < 8,
            lo <= x <= hi + 1,
            forall|t: int|
                lo <= t < x ==> #[trigger] castle_square_ok(
                    board@.board,
                    opponent_of(color),
                    lo as int,
                    hi as int,
                    rank as int,
                    t,
                ),
        decreases hi + 1 - x,
    {
        let test_position = Position(x, rank);
        if x != lo && x != hi {
            if let Some(_) = board.piece_at(test_position) {
                proof {
                    assert(pos_idx(test_position) == x + rank * 8);
                    assert(!castle_square_ok(
                        board@.board,
                        opponent_of(color),
                        lo as int,
                        hi as int,
                        rank as int,
                        x as int,
                    ));
                    crate::rules::lemma_castle_not_legal(board@, color, side, x as int);
                }
                return false;
            }
        }
        if board.position_is_attacked_by(test_position, opponent) {
            proof {
                assert(!castle_square_ok(
                    board@.board,
                    opponent_of(color),
                    lo as int,
                    hi as int,
                    rank as int,
                    x as int,
                ));
                crate::rules::lemma_castle_not_legal(board@, color, side, x as int);
            }
            return false;
        }
        x += 1;
    }
    proof {
        crate::rules::lemma_castle_legal_intro(board@, color, side);
    }
    true
}

impl Piece {
    /// Every legal move of this piece from `position`: pseudo-legal candidates
    /// filtered by the check-safety simulation, pawn double-steps, promotions
    /// and en passant included, plus castling for the king.
    pub fn moves(&self, position: Position, board: &GameState) -> (r: Vec<Move>)
        requires
            board.base_wf(),
            pos_on_board(position),
        ensures
            r@ == moves_spec(*self, position, board@),
    {
        let ghost s: GV = board@;
        let mut scratch = copy_board(&board.board);
        let mut moves: Vec<Move> = Vec::new();
        let opponent = self.color.oppnent();
        let king_position = match self.color {
            PlayerColor::Black => board.black_king,
            PlayerColor::White => board.white_king,
        };
        proof {
            assert(king_position == king_pos_of(s, self.color));
        }
        match self.kind {
            PieceKind::Pawn => {
                scratch[position.idx()] = None;
                let ghost base = s.board.update(pos_idx(position), None);
                let dir: i32 = match self.color {
                    PlayerColor::Black => 1,
                    PlayerColor::White => -1,
                };
                let start_rank: i32 = match self.color {
                    PlayerColor::Black => 1,
                    PlayerColor::White => 6,
                };
                let promotion_rank: i32 = match self.color {
                    PlayerColor::Black => 7,
                    PlayerColor::White => 0,
                };
                let forward = Position(position.0, position.1 + dir);
                if GameState::is_valid_position_on_board(forward) {
                    let fwd_empty = match board.piece_at(forward) {
                        Some(_) => false,
                        None => true,
                    };
                    if fwd_empty {
                        scratch[forward.idx()] = Some(*self);
                        if !board_is_attacked(&scratch, king_position, opponent) {
                            if forward.1 == promotion_rank {
                                push_promotions(&mut moves, self.color, forward);
                            } else {
                                moves.push(Move::Move(forward));
                            }
                        }
                        scratch[forward.idx()] = None;
                        proof {
                            assert(scratch@ =~= base);
                        }
                        if start_rank == position.1 {
                            let forward2 = Position(forward.0, forward.1 + dir);
                            let f2_empty = match board.piece_at(forward2) {
                                Some(_) => false,
                                None => true,
                            };
                            if f2_empty {
                                scratch[forward2.idx()] = Some(*self);
                                if !board_is_attacked(&scratch, king_position, opponent) {
                                    moves.push(Move::Move(forward2));
                                }
                                scratch[forward2.idx()] = None;
                                proof {
                                    assert(scratch@ =~= base);
                                }
                            }
                        }
                    }
                }
                proof {
                    assert(moves@ =~= pawn_forward_moves(*self, position, s));
                }
                let attacks = attacks_on(*self, position, &board.board);
                proof {
                    lemma_attacks_elems(*self, position, s.board);
                    assert forall|k: int| 0 <= k < attacks@.len() implies pos_on_board(
                        #[trigger] attacks@[k],
                    ) && attacks@[k] != position && attacks@[k].1 == position.1 + pawn_dir(
                        self.color,
                    ) by {
                        assert(all_elems(
                            crate::rules::attacks_spec(*self, position, s.board),
                            |e: Position|
                                {
                                    &&& pos_on_board(e)
                                    &&& e != position
                                    &&& (self.kind == PieceKind::Pawn ==> e.1 == position.1
                                        + pawn_dir(self.color))
                                },
                        ));
                    }
                }
                let n = attacks.len();
                let mut i: usize = 0;
                while i < n
                    invariant
                        board.base_wf(),
                        s == board@,
                        self.kind == PieceKind::Pawn,
                        pos_on_board(position),
                        n == attacks@.len(),
                        0 <= i <= n,
                        attacks@ == crate::rules::attacks_spec(*self, position, s.board),
                        forall|k: int|
                            0 <= k < attacks@.len() ==> pos_on_board(#[trigger] attacks@[k])
                                && attacks@[k] != position && attacks@[k].1 == position.1
                                + pawn_dir(self.color),
                        dir as int == pawn_dir(self.color),
                        promotion_rank as int == pawn_promotion_rank(self.color),
                        king_position == king_pos_of(s, self.color),
                        opponent == opponent_of(self.color),
                        base == s.board.update(pos_idx(position), None),
                        scratch@ == base,
                        scratch@.len() == 64,
                        moves@ == pawn_forward_moves(*self, position, s) + pawn_captures_upto(
                            *self,
                            position,
                            s,
                            i as int,
                        ),
                    decreases n - i,
                {
                    let a = attacks[i];
                    let target_piece = scratch[a.idx()];
                    proof {
                        assert(target_piece == s.board[pos_idx(a)]);
                    }
                    scratch[a.idx()] = Some(*self);
                    match target_piece {
                        Some(t) => {
                            if t.color == opponent {
                                if !board_is_attacked(&scratch, king_position, opponent) {
                                    if a.1 == promotion_rank {
                                        push_promotions(&mut moves, self.color, a);
                                    } else {
                                        moves.push(Move::Take(a, a));
                                    }
                                }
                            }
                        },
                        None => {
                            let is_ep = match board.previous_en_passe_move {
                                Some(e) => e == a,
                                None => false,
                            };
                            if is_ep {
                                let victim = Position(a.0, a.1 - dir);
                                proof {
                                    assert(victim == crate::rules::shifted(
                                        a,
                                        0,
                                        -pawn_dir(self.color),
                                    ));
                                    assert(pos_on_board(victim));
                                }
                                let victim_piece = scratch[victim.idx()];
                                scratch[victim.idx()] = None;
                                if !board_is_attacked(&scratch, king_position, opponent) {
                                    moves.push(Move::Take(a, victim));
                                }
                                scratch[victim.idx()] = victim_piece;
                            }
                        },
                    }
                    scratch[a.idx()] = target_piece;
                    proof {
                        assert(scratch@ =~= base);
                        assert(moves@ =~= pawn_forward_moves(*self, position, s)
                            + pawn_captures_upto(*self, position, s, i + 1));
                    }
                    i += 1;
                }
                proof {
                    assert(moves@ == moves_spec(*self, position, s));
                }
            },
            PieceKind::Queen | PieceKind::Rook | PieceKind::Bishop | PieceKind::Knight => {
                scratch[position.idx()] = None;
                let ghost base = s.board.update(pos_idx(position), None);
                let attacks = attacks_on(*self, position, &board.board);
                proof {
                    lemma_attacks_elems(*self, position, s.board);
                    assert forall|k: int| 0 <= k < attacks@.len() implies pos_on_board(
                        #[trigger] attacks@[k],
                    ) && attacks@[k] != position by {
                        assert(all_elems(
                            crate::rules::attacks_spec(*self, position, s.board),
                            |e: Position|
                                {
                                    &&& pos_on_board(e)
                                    &&& e != position
                                    &&& (self.kind == PieceKind::Pawn ==> e.1 == position.1
                                        + pawn_dir(self.color))
                                },
                        ));
                    }
                }
                let n = attacks.len();
                let mut i: usize = 0;
                while i < n
                    invariant
                        board.base_wf(),
                        s == board@,
                        self.kind == PieceKind::Queen || self.kind == PieceKind::Rook || self.kind
                            == PieceKind::Bishop || self.kind == PieceKind::Knight,
                        pos_on_board(position),
                        n == attacks@.len(),
                        0 <= i <= n,
                        attacks@ == crate::rules::attacks_spec(*self, position, s.board),
                        forall|k: int|
                            0 <= k < attacks@.len() ==> pos_on_board(#[trigger] attacks@[k])
                                && attacks@[k] != position,
                        king_position == king_pos_of(s, self.color),
                        opponent == opponent_of(self.color),
                        base == s.board.update(pos_idx(position), None),
                        scratch@ == base,
                        scratch@.len() == 64,
                        moves@ == qrbn_moves_upto(*self, position, s, i as int),
                    decreases n - i,
                {
                    let a = attacks[i];
                    let target_piece = scratch[a.idx()];
                    proof {
                        assert(target_piece == s.board[pos_idx(a)]);
                    }
                    scratch[a.idx()] = Some(*self);
                    match target_piece {
                        None => {
                            if !board_is_attacked(&scratch, king_position, opponent) {
                                moves.push(Move::Move(a));
                            }
                        },
                        Some(t) => {
                            if t.color == opponent {
                                if !board_is_attacked(&scratch, king_position, opponent) {
                                    moves.push(Move::Take(a, a));
                                }
                            }
                        },
                    }
                    scratch[a.idx()] = target_piece;
                    proof {
                        assert(scratch@ =~= base);
                        assert(moves@ =~= qrbn_moves_upto(*self, position, s, i + 1));
                    }
                    i += 1;
                }
                proof {
                    assert(moves@ == moves_spec(*self, position, s));
                }
            },
            PieceKind::King => {
                let attacks = attacks_on(*self, position, &board.board);
                proof {
                    lemma_attacks_elems(*self, position, s.board);
                    assert forall|k: int| 0 <= k < attacks@.len() implies pos_on_board(
                        #[trigger] attacks@[k],
                    ) by {
                        assert(all_elems(
                            crate::rules::attacks_spec(*self, position, s.board),
                            |e: Position|
                                {
                                    &&& pos_on_board(e)
                                    &&& e != position
                                    &&& (self.kind == PieceKind::Pawn ==> e.1 == position.1
                                        + pawn_dir(self.color))
                                },
                        ));
                    }
                }
                let n = attacks.len();
                let mut i: usize = 0;
                while i < n
                    invariant
                        board.base_wf(),
                        s == board@,
                        self.kind == PieceKind::King,
                        pos_on_board(position),
                        n == attacks@.len(),
                        0 <= i <= n,
                        attacks@ == crate::rules::attacks_spec(*self, position, s.board),
                        forall|k: int|
                            0 <= k < attacks@.len() ==> pos_on_board(#[trigger] attacks@[k]),
                        opponent == opponent_of(self.color),
                        moves@ == king_steps_upto(*self, position, s, i as int),
                    decreases n - i,
                {
                    let a = attacks[i];
                    if !board.position_is_attacked_by(a, opponent) {
                        match board.piece_at(a) {
                            None => moves.push(Move::Move(a)),
                            Some(other) => {
                                if other.color == opponent {
                                    moves.push(Move::Take(a, a));
                                }
                            },
                        }
                    }
                    proof {
                        assert(moves@ =~= king_steps_upto(*self, position, s, i + 1));
                    }
                    i += 1;
                }
                let castling = match self.color {
                    PlayerColor::Black => board.castling_black,
                    PlayerColor::White => board.castling_white,
                };
                if castling.short_side_available {
                    if castle_walk_ok(board, self.color, CastleType::Short) {
                        moves.push(Move::Castle(CastleType::Short));
                    }
                }
                if castling.long_side_available {
                    if castle_walk_ok(board, self.color, CastleType::Long) {
                        moves.push(Move::Castle(CastleType::Long));
                    }
                }
                proof {
                    assert(moves@ =~= king_steps_upto(
                        *self,
                        position,
                        s,
                        crate::rules::attacks_spec(*self, position, s.board).len() as int,
                    ) + castle_moves_spec(*self, s));
                    assert(moves@ == king_moves_spec(*self, position, s));
                }
            },
        }
        moves
    }
}

} // verus!

verus! {

use crate::board::DrawReason;
use crate::rules::count_of;
use crate::rules::has_any_move;
use crate::rules::has_move_at;
use crate::rules::initial_board;
use crate::rules::initial_piece;
use crate::rules::interact_spec;
use crate::rules::matching_upto;
use crate::rules::move_dest;
use crate::rules::next_spec;
use crate::rules::pre_terminal_state;
use crate::rules::promotion_pieces_upto;
use crate::rules::strip_castling;

/// Push the next slot of the standard initial position.
fn push_slot(board: &mut Vec<Option<Piece>>, slot: Option<Piece>)
    requires
        old(board)@.len() < 64,
        forall|j: int| 0 <= j < old(board)@.len() ==> old(board)@[j] == initial_piece(j),
        slot == initial_piece(old(board)@.len() as int),
    ensures
        final(board)@.len() == old(board)@.len() + 1,
        forall|j: int| 0 <= j < final(board)@.len() ==> final(board)@[j] == initial_piece(j),
{
    board.push(slot);
}

/// A copy of a piece list.
fn copy_pieces(v: &Vec<Piece>) -> (r: Vec<Piece>)
    ensures
        r@ == v@,
{
    let n = v.len();
    let mut r: Vec<Piece> = Vec::new();
    let mut i: usize = 0;
    while i < n
        invariant
            n == v@.len(),
            0 <= i <= n,
            r@.len() == i,
            forall|j: int| 0 <= j < i ==> r@[j] == v@[j],
        decreases n - i,
    {
        r.push(v[i]);
        i += 1;
    }
    proof {
        assert(r@ =~= v@);
    }
    r
}

/// Scan every square of `state` for a piece of `player`'s opponent that has
/// at least one legal move.
fn any_opponent_move(state: &GameState, player: PlayerColor) -> (r: bool)
    requires
        state.base_wf(),
    ensures
        r == has_any_move(state@, crate::board::opponent_of(player)),
{
    let ghost s2 = state@;
    let ghost opp = crate::board::opponent_of(player);
    let mut legal_moves = false;
    let mut x: i32 = 0;
    while x < 8
        invariant
            0 <= x <= 8,
            state.base_wf(),
            s2 == state@,
            opp == crate::board::opponent_of(player),
            legal_moves ==> has_any_move(s2, opp),
            !legal_moves ==> forall|p: Position|
                pos_on_board(p) && p.0 < x ==> !#[trigger] has_move_at(s2, opp, p),
        decreases 8 - x,
    {
        let mut y: i32 = 0;
        while y < 8
            invariant
                0 <= x < 8,
                0 <= y <= 8,
                state.base_wf(),
                s2 == state@,
                opp == crate::board::opponent_of(player),
                legal_moves ==> has_any_move(s2, opp),
                !legal_moves ==> forall|p: Position|
                    pos_on_board(p) && p.0 < x ==> !#[trigger] has_move_at(s2, opp, p),
                !legal_moves ==> forall|p: Position|
                    pos_on_board(p) && p.0 == x && p.1 < y ==> !#[trigger] has_move_at(s2, opp, p),
            decreases 8 - y,
        {
            let pos = Position(x, y);
            if let Some(p2) = state.piece_at(pos) {
                if p2.color != player {
                    let ms = p2.moves(pos, state);
                    if ms.len() > 0 {
                        proof {
                            assert(p2.color == opp);
                            assert(has_move_at(s2, opp, pos));
                        }
                        legal_moves = true;
                    }
                }
            }
            proof {
                if !legal_moves {
                    assert(!has_move_at(s2, opp, pos));
                }
            }
            y += 1;
        }
        x += 1;
    }
    proof {
        if !legal_moves {
            assert forall|p: Position| pos_on_board(p) implies !has_move_at(s2, opp, p) by {
                assert(p.0 < 8);
            }
            assert(!has_any_move(s2, opp));
        }
    }
    legal_moves
}

impl GameState {
    /// The standard initial position: full castling rights, White to move,
    /// empty repetition table.
    pub fn new() -> (r: GameState)
        ensures
            r.wf(),
            r@.board == initial_board(),
            r@.castling_white == (CastlingAvailability {
                long_side_available: true,
                short_side_available: true,
            }),
            r@.castling_black == (CastlingAvailability {
                long_side_available: true,
                short_side_available: true,
            }),
            r@.white_king == Position(4, 7),
            r@.black_king == Position(4, 0),
            r@.phase == GamePhase::Turn(PlayerColor::White),
            r@.en_passant is None,
            r@.interaction is None,
            r@.clock == 0,
            r@.table == Map::<BoardSeq, u8>::empty(),
    {
        let black = PlayerColor::Black;
        let white = PlayerColor::White;
        let mut board: Vec<Option<Piece>> = Vec::new();
        push_slot(&mut board, Some(Piece { kind: PieceKind::Rook, color: black }));
        push_slot(&mut board, Some(Piece { kind: PieceKind::Knight, color: black }));
        push_slot(&mut board, Some(Piece { kind: PieceKind::Bishop, color: black }));
        push_slot(&mut board, Some(Piece { kind: PieceKind::Queen, color: black }));
        push_slot(&mut board, Some(Piece { kind: PieceKind::King, color: black }));
        push_slot(&mut board, Some(Piece { kind: PieceKind::Bishop, color: black }));
        push_slot(&mut board, Some(Piece { kind: PieceKind::Knight, color: black }));
        push_slot(&mut board, Some(Piece { kind: PieceKind::Rook, color: black }));
        let mut i: usize = 8;
        while i < 16
            invariant
                8 <= i <= 16,
                board@.len() == i,
                forall|j: int| 0 <= j < i ==> board@[j] == initial_piece(j),
            decreases 16 - i,
        {
            push_slot(&mut board, Some(Piece { kind: PieceKind::Pawn, color: PlayerColor::Black }));
            i += 1;
        }
        let mut i: usize = 16;
        while i < 48
            invariant
                16 <= i <= 48,
                board@.len() == i,
                forall|j: int| 0 <= j < i ==> board@[j] == initial_piece(j),
            decreases 48 - i,
        {
            push_slot(&mut board, None);
            i += 1;
        }
        let mut i: usize = 48;
        while i < 56
            invariant
                48 <= i <= 56,
                board@.len() == i,
                forall|j: int| 0 <= j < i ==> board@[j] == initial_piece(j),
            decreases 56 - i,
        {
            push_slot(&mut board, Some(Piece { kind: PieceKind::Pawn, color: PlayerColor::White }));
            i += 1;
        }
        push_slot(&mut board, Some(Piece { kind: PieceKind::Rook, color: white }));
        push_slot(&mut board, Some(Piece { kind: PieceKind::Knight, color: white }));
        push_slot(&mut board, Some(Piece { kind: PieceKind::Bishop, color: white }));
        push_slot(&mut board, Some(Piece { kind: PieceKind::Queen, color: white }));
        push_slot(&mut board, Some(Piece { kind: PieceKind::King, color: white }));
        push_slot(&mut board, Some(Piece { kind: PieceKind::Bishop, color: white }));
        push_slot(&mut board, Some(Piece { kind: PieceKind::Knight, color: white }));
        push_slot(&mut board, Some(Piece { kind: PieceKind::Rook, color: white }));
        proof {
            assert(board@ =~= initial_board());
        }
        GameState {
            castling_white: CastlingAvailability {
                long_side_available: true,
                short_side_available: true,
            },
            castling_black: CastlingAvailability {
                long_side_available: true,
                short_side_available: true,
            },
            white_king: Position(4, 7),
            black_king: Position(4, 0),
            board,
            state: GamePhase::Turn(PlayerColor::White),
            previous_en_passe_move: None,
            interaction: None,
            moves_since_interesting: 0,
            position_counter: RepetitionTable::new(),
        }
    }

    /// A copy of the whole state.
    fn clone_state(&self) -> (r: GameState)
        requires
            self.wf(),
        ensures
            r@ == self@,
            r.wf(),
    {
        let interaction: Option<Interaction> = match &self.interaction {
            None => None,
            Some(Interaction::StartMovingPiece(p)) => Some(Interaction::StartMovingPiece(*p)),
            Some(Interaction::PlacedPiece(p)) => Some(Interaction::PlacedPiece(*p)),
            Some(Interaction::PickingPromotion(f, o, c)) => Some(
                Interaction::PickingPromotion(*f, *o, copy_pieces(c)),
            ),
            Some(Interaction::PickedPromotion(p)) => Some(Interaction::PickedPromotion(*p)),
        };
        let r = GameState {
            castling_white: self.castling_white,
            castling_black: self.castling_black,
            white_king: self.white_king,
            black_king: self.black_king,
            board: copy_board(&self.board),
            state: self.state,
            previous_en_passe_move: self.previous_en_passe_move,
            interaction,
            moves_since_interesting: self.moves_since_interesting,
            position_counter: self.position_counter.duplicate(),
        };
        proof {
            assert(r@.interaction == self@.interaction);
            assert(r@ == self@);
        }
        r
    }

    /// Apply the move to a fresh copy of the state: castling rights, caches,
    /// board, en-passant window, half-move clock, turn flip, and the
    /// repetition record, everything but the terminal-status recomputation.
    #[verifier::rlimit(100)]
    fn apply_move(&self, player: PlayerColor, moved_piece: Piece, piece: Position, m: Move) -> (r: (
        GameState,
        u8,
    ))
        requires
            self.wf(),
            pos_on_board(piece),
            crate::rules::move_positions_ok(m),
            self@.phase == GamePhase::Turn(player),
            self@.board[pos_idx(piece)] == Some(moved_piece),
        ensures
            r.0@ == pre_terminal_state(self@, player, moved_piece, piece, m),
            r.0.base_wf(),
            r.0.position_counter.wf(),
            r.1 as int == count_of(self@.table, pre_terminal_state(
                self@,
                player,
                moved_piece,
                piece,
                m,
            ).board) + 1,
            r.1 <= 3,
    {
        let from = piece.idx();
        let mut new = GameState {
            castling_white: self.castling_white,
            castling_black: self.castling_black,
            white_king: self.white_king,
            black_king: self.black_king,
            board: copy_board(&self.board),
            state: self.state,
            previous_en_passe_move: self.previous_en_passe_move,
            interaction: None,
            moves_since_interesting: self.moves_since_interesting,
            position_counter: self.position_counter.duplicate(),
        };
        if moved_piece.kind == PieceKind::King {
            match player {
                PlayerColor::Black => {
                    new.castling_black = CastlingAvailability {
                        long_side_available: false,
                        short_side_available: false,
                    };
                },
                PlayerColor::White => {
                    new.castling_white = CastlingAvailability {
                        long_side_available: false,
                        short_side_available: false,
                    };
                },
            }
        }
        if moved_piece.kind == PieceKind::Rook {
            if piece.0 == 0 {
                match player {
                    PlayerColor::Black => {
                        new.castling_black = CastlingAvailability {
                            long_side_available: false,
                            short_side_available: new.castling_black.short_side_available,
                        };
                    },
                    PlayerColor::White => {
                        new.castling_white = CastlingAvailability {
                            long_side_available: false,
                            short_side_available: new.castling_white.short_side_available,
                        };
                    },
                }
            } else if piece.0 == 7 {
                match player {
                    PlayerColor::Black => {
                        new.castling_black = CastlingAvailability {
                            long_side_available: new.castling_black.long_side_available,
                            short_side_available: false,
                        };
                    },
                    PlayerColor::White => {
                        new.castling_white = CastlingAvailability {
                            long_side_available: new.castling_white.long_side_available,
                            short_side_available: false,
                        };
                    },
                }
            }
        }
        proof {
            assert(new.castling_white == (if player == PlayerColor::White {
                strip_castling(self@.castling_white, moved_piece, piece)
            } else {
                self@.castling_white
            }));
            assert(new.castling_black == (if player == PlayerColor::Black {
                strip_castling(self@.castling_black, moved_piece, piece)
            } else {
                self@.castling_black
            }));
        }
        new.previous_en_passe_move = None;
        new.moves_since_interesting = self.moves_since_interesting + 1;
        match m {
            Move::Move(to) => {
                if moved_piece.kind == PieceKind::Pawn {
                    if to.1 - piece.1 == 2 || piece.1 - to.1 == 2 {
                        new.previous_en_passe_move = Some(Position(to.0, (piece.1 + to.1) / 2));
                    }
                    new.moves_since_interesting = 0;
                }
                if moved_piece.kind == PieceKind::King {
                    match player {
                        PlayerColor::Black => new.black_king = to,
                        PlayerColor::White => new.white_king = to,
                    }
                }
                let toi = to.idx();
                let v = new.board[from];
                new.board[toi] = v;
                new.board[from] = None;
            },
            Move::Take(to, victim) => {
                if moved_piece.kind == PieceKind::King {
                    match player {
                        PlayerColor::Black => new.black_king = to,
                        PlayerColor::White => new.white_king = to,
                    }
                }
                let vi = victim.idx();
                new.board[vi] = None;
                let toi = to.idx();
                let v = new.board[from];
                new.board[toi] = v;
                new.board[from] = None;
                new.moves_since_interesting = 0;
            },
            Move::Promote(to, butterfly) => {
                let toi = to.idx();
                new.board[toi] = Some(butterfly);
                new.board[from] = None;
                new.moves_since_interesting = 0;
            },
            Move::Castle(side) => {
                let cm = side.positions(player);
                match player {
                    PlayerColor::Black => new.black_king = cm.king_end,
                    PlayerColor::White => new.white_king = cm.king_end,
                }
                let rv = new.board[cm.rook_start.idx()];
                new.board[cm.rook_end.idx()] = rv;
                let kv = new.board[from];
                new.board[cm.king_end.idx()] = kv;
                new.board[cm.rook_start.idx()] = None;
                new.board[from] = None;
            },
        }
        new.state = GamePhase::Turn(player.oppnent());
        let key = copy_board(&new.board);
        let c0 = new.position_counter.count(&key);
        proof {
            assert(c0 <= 2);
        }
        let counter = c0 + 1;
        new.position_counter.record(key, counter);
        let ghost s2 = pre_terminal_state(self@, player, moved_piece, piece, m);
        proof {
            assert(new@.board =~= s2.board);
            assert(new@ == s2);
        }
        (new, counter)
    }

    /// Apply move `m` to the piece standing at `piece`. A finished game, an
    /// empty source square, and any off-board square named by the move are
    /// absorbed: the state comes back unchanged. Otherwise the board is
    /// updated, castling rights and caches follow, the turn flips, the new
    /// board is recorded for repetition, and the terminal status is
    /// recomputed.
    #[verifier::rlimit(100)]
    pub fn next(&self, piece: Position, m: Move) -> (r: GameState)
        requires
            self.wf(),
        ensures
            r.wf(),
            r@ == next_spec(self@, piece, m),
    {
        let valid_m = match m {
            Move::Move(to) => GameState::is_valid_position_on_board(to),
            Move::Take(to, victim) => GameState::is_valid_position_on_board(to)
                && GameState::is_valid_position_on_board(victim),
            Move::Promote(to, _) => GameState::is_valid_position_on_board(to),
            Move::Castle(_) => true,
        };
        if !GameState::is_valid_position_on_board(piece) || !valid_m {
            return self.clone_state();
        }
        let player = match self.state {
            GamePhase::Won(_) => {
                return self.clone_state();
            },
            GamePhase::Draw(_) => {
                return self.clone_state();
            },
            GamePhase::Turn(player) => player,
        };
        let from = piece.idx();
        let moved_piece = match self.board[from] {
            None => {
                return self.clone_state();
            },
            Some(p) => p,
        };
        let pm = self.apply_move(player, moved_piece, piece, m);
        let mut new = pm.0;
        let counter = pm.1;
        let ghost s2 = pre_terminal_state(self@, player, moved_piece, piece, m);
        let legal_moves = any_opponent_move(&new, player);
        if !legal_moves {
            let attacked = match player {
                PlayerColor::Black => new.position_is_attacked_by(new.white_king, player),
                PlayerColor::White => new.position_is_attacked_by(new.black_king, player),
            };
            if attacked {
                new.state = GamePhase::Won(player);
            } else {
                new.state = GamePhase::Draw(DrawReason::Stalemate);
            }
        }
        if counter == 3 {
            new.state = GamePhase::Draw(DrawReason::Repeat);
        }
        if new.moves_since_interesting >= 50 {
            new.state = GamePhase::Draw(DrawReason::Fifty);
        }
        proof {
            assert(s2.table[s2.board] == counter);
            assert(new@ == crate::rules::next_applied(self@, player, moved_piece, piece, m));
            assert(new@ == next_spec(self@, piece, m));
            assert forall|k: BoardSeq| #[trigger]
                new.position_counter@.contains_key(k) && new.state is Turn implies
            new.position_counter@[k] <= 2 by {
                if k != s2.board {
                    assert(self.position_counter@.contains_key(k));
                }
            }
        }
        new
    }

    /// Feed one interaction event through the two-click protocol: select an
    /// own piece, resolve a placement against the legal moves of the selected
    /// piece, or apply a picked promotion candidate. Everything else, and
    /// everything in a finished game, leaves the state unchanged.
    #[verifier::rlimit(100)]
    pub fn interact(self, interaction: Interaction) -> (r: GameState)
        requires
            self.wf(),
        ensures
            r.wf(),
            r@ == interact_spec(self@, interaction@),
    {
        let ghost s0 = self@;
        let ghost ev = interaction@;
        let mut this = self;
        let player = match this.state {
            GamePhase::Won(_) => {
                return this;
            },
            GamePhase::Draw(_) => {
                return this;
            },
            GamePhase::Turn(player) => player,
        };
        match interaction {
            Interaction::StartMovingPiece(start) => {
                if GameState::is_valid_position_on_board(start) {
                    if let Some(p) = this.piece_at(start) {
                        if p.color == player {
                            this.interaction = Some(Interaction::StartMovingPiece(start));
                            proof {
                                assert(this@ == interact_spec(s0, ev));
                            }
                            return this;
                        }
                    }
                }
                this
            },
            Interaction::PlacedPiece(onto) => {
                let from_opt: Option<Position> = match &this.interaction {
                    Some(Interaction::StartMovingPiece(f)) => Some(*f),
                    _ => None,
                };
                if let Some(from) = from_opt {
                    if from != onto {
                        if let Some(piece) = this.piece_at(from) {
                            let ms = piece.moves(from, &this);
                            let mut matched: Vec<Move> = Vec::new();
                            let n = ms.len();
                            let mut i: usize = 0;
                            while i < n
                                invariant
                                    n == ms@.len(),
                                    0 <= i <= n,
                                    matched@ == matching_upto(ms@, player, onto, i as int),
                                decreases n - i,
                            {
                                let mv = ms[i];
                                let dest = match mv {
                                    Move::Move(p) => p,
                                    Move::Take(p, _) => p,
                                    Move::Promote(p, _) => p,
                                    Move::Castle(side) => side.positions(player).king_end,
                                };
                                proof {
                                    assert(dest == move_dest(ms@[i as int], player));
                                }
                                if dest == onto {
                                    matched.push(mv);
                                }
                                proof {
                                    assert(matched@ =~= matching_upto(
                                        ms@,
                                        player,
                                        onto,
                                        i as int + 1,
                                    ));
                                }
                                i += 1;
                            }
                            if matched.len() == 0 {
                                this.interaction = None;
                                proof {
                                    assert(this@ == interact_spec(s0, ev));
                                }
                                this
                            } else if matched.len() == 1 {
                                let m0 = matched[0];
                                let r = this.next(from, m0);
                                proof {
                                    assert(r@ == interact_spec(s0, ev));
                                }
                                r
                            } else {
                                let mut promotions: Vec<Piece> = Vec::new();
                                let k = matched.len();
                                let mut j: usize = 0;
                                while j < k
                                    invariant
                                        k == matched@.len(),
                                        0 <= j <= k,
                                        promotions@ == promotion_pieces_upto(matched@, j as int),
                                    decreases k - j,
                                {
                                    if let Move::Promote(_, pc) = matched[j] {
                                        promotions.push(pc);
                                    }
                                    proof {
                                        assert(promotions@ =~= promotion_pieces_upto(
                                            matched@,
                                            j as int + 1,
                                        ));
                                    }
                                    j += 1;
                                }
                                this.interaction = Some(
                                    Interaction::PickingPromotion(from, onto, promotions),
                                );
                                proof {
                                    assert(this@ == interact_spec(s0, ev));
                                }
                                this
                            }
                        } else {
                            this
                        }
                    } else {
                        this.interaction = None;
                        proof {
                            assert(this@ == interact_spec(s0, ev));
                        }
                        this
                    }
                } else {
                    this
                }
            },
            Interaction::PickedPromotion(choice) => {
                let picking: Option<(Position, Position)> = match &this.interaction {
                    Some(Interaction::PickingPromotion(f, o, _)) => Some((*f, *o)),
                    _ => None,
                };
                if let Some((from, onto)) = picking {
                    let ok = match &this.interaction {
                        Some(Interaction::PickingPromotion(_, _, cands)) => contains_piece(
                            cands,
                            choice,
                        ),
                        _ => false,
                    };
                    if ok {
                        this.interaction = None;
                        let r = this.next(from, Move::Promote(onto, choice));
                        proof {
                            assert(r@ == interact_spec(s0, ev));
                        }
                        r
                    } else {
                        this
                    }
                } else {
                    this
                }
            },
            Interaction::PickingPromotion(_, _, _) => this,
        }
    }
}

} // verus!
