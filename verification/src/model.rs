//! The rules as mathematics. Every contract of the engine is stated over the
//! predicates of this module, which speak of a board as a map from squares to
//! pieces and of a square as a pair of integers, file first.

use vstd::prelude::*;
use crate::board::{cell_index, on_board, without_flags, Squares};
use crate::components::{GameStatus, GridPosition, Piece, PieceColor, PieceType};

verus! {

// Squares and what stands on them.

/// The absolute value of a difference of coordinates.
pub open spec fn magnitude(d: int) -> int {
    if d < 0 {
        -d
    } else {
        d
    }
}

/// The sign of a difference of coordinates: 1, 0 or -1.
pub open spec fn sign(d: int) -> int {
    if d > 0 {
        1
    } else if d < 0 {
        -1
    } else {
        0
    }
}

/// What has to be added to `from` to reach `to`.
pub open spec fn offset(from: (int, int), to: (int, int)) -> (int, int) {
    (to.0 - from.0, to.1 - from.1)
}

/// The direction in which `to` lies from `from`.
pub open spec fn heading(from: (int, int), to: (int, int)) -> (int, int) {
    (sign(to.0 - from.0), sign(to.1 - from.1))
}

/// The number of king steps between two squares.
pub open spec fn span(from: (int, int), to: (int, int)) -> int {
    let dx = magnitude(to.0 - from.0);
    let dy = magnitude(to.1 - from.1);
    if dx >= dy {
        dx
    } else {
        dy
    }
}

/// The square with the given coordinates.
pub open spec fn square(p: (int, int)) -> GridPosition {
    GridPosition { x: p.0 as u32, y: p.1 as u32 }
}

pub open spec fn empty_at(b: Squares, p: (int, int)) -> bool {
    !b.dom().contains(p)
}

/// A piece of colour `c` stands on `p`.
pub open spec fn friend_at(b: Squares, p: (int, int), c: PieceColor) -> bool {
    b.dom().contains(p) && b[p].color == c
}

/// A piece of the colour other than `c` stands on `p`.
pub open spec fn enemy_at(b: Squares, p: (int, int), c: PieceColor) -> bool {
    b.dom().contains(p) && b[p].color != c
}

/// The list `v` names every square of `s` once, and no other square.
pub open spec fn lists_exactly(v: Seq<GridPosition>, s: Set<(int, int)>) -> bool {
    &&& v.no_duplicates()
    &&& forall|i: int| 0 <= i < v.len() ==> s.contains(#[trigger] v[i]@)
    &&& forall|q: GridPosition| s.contains(q@) ==> v.contains(q)
}

// Bishop, rook and queen.

/// The coordinate reached from `a` after `k` steps in direction `s`, of which
/// only the sign counts.
pub open spec fn shift(a: int, s: int, k: int) -> int {
    if s > 0 {
        a + k
    } else if s < 0 {
        a - k
    } else {
        a
    }
}

/// The `k`-th square of the ray that leaves `from` in direction (`dx`, `dy`).
pub open spec fn ray_square(from: (int, int), dx: int, dy: int, k: int) -> (int, int) {
    (shift(from.0, dx, k), shift(from.1, dy, k))
}

/// Two different squares on one file or one rank.
pub open spec fn on_line(from: (int, int), to: (int, int)) -> bool {
    from != to && (from.0 == to.0 || from.1 == to.1)
}

/// Two different squares on one diagonal.
pub open spec fn on_diagonal(from: (int, int), to: (int, int)) -> bool {
    from != to && magnitude(to.0 - from.0) == magnitude(to.1 - from.1)
}

/// Whether a sliding piece of the given kind travels from `from` towards `to`.
pub open spec fn slides_along(kind: PieceType, from: (int, int), to: (int, int)) -> bool {
    match kind {
        PieceType::Rook => on_line(from, to),
        PieceType::Bishop => on_diagonal(from, to),
        PieceType::Queen => on_line(from, to) || on_diagonal(from, to),
        _ => false,
    }
}

/// Every square strictly between `from` and `to`, which share a line or a
/// diagonal, is empty.
pub open spec fn path_clear(b: Squares, from: (int, int), to: (int, int)) -> bool {
    forall|k: int|
        0 < k < span(from, to) ==> empty_at(
            b,
            #[trigger] ray_square(from, sign(to.0 - from.0), sign(to.1 - from.1), k),
        )
}

/// A bishop, rook or queen reaches `to`: along one of its lines, past empty
/// squares only, onto an empty square or an enemy.
pub open spec fn sliding_move(b: Squares, from: (int, int), piece: Piece, to: (int, int)) -> bool {
    &&& on_board(to)
    &&& slides_along(piece.kind, from, to)
    &&& path_clear(b, from, to)
    &&& !friend_at(b, to, piece.color)
}

/// The eight directions, counter-clockwise from east. The even ones run
/// along files and ranks, the odd ones along diagonals.
pub open spec fn direction(i: int) -> (int, int) {
    if i == 0 {
        (1, 0)
    } else if i == 1 {
        (1, 1)
    } else if i == 2 {
        (0, 1)
    } else if i == 3 {
        (-1, 1)
    } else if i == 4 {
        (-1, 0)
    } else if i == 5 {
        (-1, -1)
    } else if i == 6 {
        (0, -1)
    } else {
        (1, -1)
    }
}

/// The place of a direction among the eight; eight for what is no direction.
pub open spec fn direction_order(d: (int, int)) -> int {
    if d == (1int, 0int) {
        0
    } else if d == (1int, 1int) {
        1
    } else if d == (0int, 1int) {
        2
    } else if d == (-1int, 1int) {
        3
    } else if d == (-1int, 0int) {
        4
    } else if d == (-1int, -1int) {
        5
    } else if d == (0int, -1int) {
        6
    } else if d == (1int, -1int) {
        7
    } else {
        8
    }
}

/// Whether a sliding piece of the given kind travels in direction `i`.
pub open spec fn travels(kind: PieceType, i: int) -> bool {
    match kind {
        PieceType::Rook => i % 2 == 0,
        PieceType::Bishop => i % 2 == 1,
        PieceType::Queen => true,
        _ => false,
    }
}

/// The ray from `from` in direction (`dx`, `dy`) reaches its `k`-th square:
/// the squares before it are empty and no piece of colour `c` stands on it.
pub open spec fn ray_reach(
    b: Squares,
    from: (int, int),
    c: PieceColor,
    dx: int,
    dy: int,
    k: int,
) -> bool {
    &&& on_board(ray_square(from, dx, dy, k))
    &&& !friend_at(b, ray_square(from, dx, dy, k), c)
    &&& forall|j: int| 0 < j < k ==> empty_at(b, #[trigger] ray_square(from, dx, dy, j))
}

// Knight.

/// The eight jumps of a knight.
pub open spec fn knight_delta(i: int) -> (int, int) {
    if i == 0 {
        (2, 1)
    } else if i == 1 {
        (1, 2)
    } else if i == 2 {
        (-1, 2)
    } else if i == 3 {
        (-2, 1)
    } else if i == 4 {
        (-2, -1)
    } else if i == 5 {
        (-1, -2)
    } else if i == 6 {
        (1, -2)
    } else {
        (2, -1)
    }
}

/// The place of a jump among the eight; eight for what is no knight's jump.
pub open spec fn knight_order(d: (int, int)) -> int {
    if d == (2int, 1int) {
        0
    } else if d == (1int, 2int) {
        1
    } else if d == (-1int, 2int) {
        2
    } else if d == (-2int, 1int) {
        3
    } else if d == (-2int, -1int) {
        4
    } else if d == (-1int, -2int) {
        5
    } else if d == (1int, -2int) {
        6
    } else if d == (2int, -1int) {
        7
    } else {
        8
    }
}

/// One square along a file or rank and two along the other.
pub open spec fn knight_jump(from: (int, int), to: (int, int)) -> bool {
    let dx = magnitude(to.0 - from.0);
    let dy = magnitude(to.1 - from.1);
    (dx == 1 && dy == 2) || (dx == 2 && dy == 1)
}

/// A knight reaches `to`: by a jump that lands on the board and not on a
/// friend.
pub open spec fn knight_move(b: Squares, from: (int, int), piece: Piece, to: (int, int)) -> bool {
    on_board(to) && knight_jump(from, to) && !friend_at(b, to, piece.color)
}

// Pawn.

/// A pawn of the colour other than `c` stands on `p` and has just advanced
/// two ranks.
pub open spec fn en_passant_victim(b: Squares, p: (int, int), c: PieceColor) -> bool {
    &&& b.dom().contains(p)
    &&& b[p].kind == PieceType::Pawn
    &&& b[p].color != c
    &&& b[p].just_double_jumped
}

/// One step forward onto an empty square.
pub open spec fn pawn_single_step(
    b: Squares,
    from: (int, int),
    piece: Piece,
    to: (int, int),
) -> bool {
    to == (from.0, from.1 + piece.color.forward()) && empty_at(b, to)
}

/// Two steps forward by a pawn that has not moved, past an empty square onto
/// an empty square.
pub open spec fn pawn_double_step(
    b: Squares,
    from: (int, int),
    piece: Piece,
    to: (int, int),
) -> bool {
    &&& to == (from.0, from.1 + 2 * piece.color.forward())
    &&& piece.is_first_move
    &&& empty_at(b, (from.0, from.1 + piece.color.forward()))
    &&& empty_at(b, to)
}

/// A diagonal step forward onto an enemy, or onto the empty square behind a
/// pawn that has just advanced two ranks (en passant).
pub open spec fn pawn_capture(b: Squares, from: (int, int), piece: Piece, to: (int, int)) -> bool {
    &&& magnitude(to.0 - from.0) == 1
    &&& to.1 == from.1 + piece.color.forward()
    &&& (enemy_at(b, to, piece.color) || (empty_at(b, to) && en_passant_victim(
        b,
        (to.0, from.1),
        piece.color,
    )))
}

pub open spec fn pawn_move(b: Squares, from: (int, int), piece: Piece, to: (int, int)) -> bool {
    on_board(to) && (pawn_single_step(b, from, piece, to) || pawn_double_step(b, from, piece, to)
        || pawn_capture(b, from, piece, to))
}

// Attack.

/// The piece on `p` attacks `target`. A pawn attacks the two squares
/// diagonally ahead of it and a king every square within one step, whatever
/// stands there; a knight, bishop, rook or queen attacks the squares it could
/// move to.
pub open spec fn attacks(b: Squares, p: (int, int), target: (int, int)) -> bool {
    b.dom().contains(p) && match b[p].kind {
        PieceType::Pawn => target.1 == p.1 + b[p].color.forward() && magnitude(p.0 - target.0)
            == 1,
        PieceType::King => magnitude(p.0 - target.0) <= 1 && magnitude(p.1 - target.1) <= 1,
        PieceType::Knight => knight_move(b, p, b[p], target),
        _ => sliding_move(b, p, b[p], target),
    }
}

/// Some piece of colour `by` attacks `target`.
pub open spec fn attacked(b: Squares, target: (int, int), by: PieceColor) -> bool {
    exists|p: (int, int)| friend_at(b, p, by) && #[trigger] attacks(b, p, target)
}

// King.

/// One step of a king onto a square of the board that holds no friend.
pub open spec fn king_step(b: Squares, from: (int, int), piece: Piece, to: (int, int)) -> bool {
    on_board(to) && span(from, to) == 1 && !friend_at(b, to, piece.color)
}

/// An unmoved rook of colour `c` stands on the given file of its home rank.
pub open spec fn rook_ready(b: Squares, c: PieceColor, file: int) -> bool {
    let p = (file, c.home_rank());
    &&& b.dom().contains(p)
    &&& b[p].kind == PieceType::Rook
    &&& b[p].color == c
    &&& b[p].is_first_move
}

/// The king has not moved, stands on its home square, the fifth of its home
/// rank, and is not attacked.
pub open spec fn king_ready(b: Squares, from: (int, int), piece: Piece) -> bool {
    &&& piece.is_first_move
    &&& from == (4int, piece.color.home_rank())
    &&& !attacked(b, from, piece.color.other())
}

/// The way to the king's side is open: the rook has not moved, and the two
/// squares between king and rook are empty and not attacked.
pub open spec fn kingside_open(b: Squares, c: PieceColor) -> bool {
    let r = c.home_rank();
    &&& rook_ready(b, c, 7)
    &&& empty_at(b, (5, r))
    &&& empty_at(b, (6, r))
    &&& !attacked(b, (5, r), c.other())
    &&& !attacked(b, (6, r), c.other())
}

/// The way to the queen's side is open: the rook has not moved, the three
/// squares between king and rook are empty, and the two of them that the
/// king crosses or lands on are not attacked.
pub open spec fn queenside_open(b: Squares, c: PieceColor) -> bool {
    let r = c.home_rank();
    &&& rook_ready(b, c, 0)
    &&& empty_at(b, (1, r))
    &&& empty_at(b, (2, r))
    &&& empty_at(b, (3, r))
    &&& !attacked(b, (2, r), c.other())
    &&& !attacked(b, (3, r), c.other())
}

/// The king castles from `from` to `to`: two files towards a side that is
/// open to it.
pub open spec fn castling_move(b: Squares, from: (int, int), piece: Piece, to: (int, int)) -> bool {
    let r = piece.color.home_rank();
    &&& king_ready(b, from, piece)
    &&& (to == (6int, r) && kingside_open(b, piece.color)) || (to == (2int, r) && queenside_open(
        b,
        piece.color,
    ))
}

pub open spec fn king_move(b: Squares, from: (int, int), piece: Piece, to: (int, int)) -> bool {
    king_step(b, from, piece, to) || castling_move(b, from, piece, to)
}

// Moves.

/// The piece on `from` may move to `to`, whether or not that leaves its own
/// king attacked.
pub open spec fn pseudo_legal(b: Squares, from: (int, int), to: (int, int)) -> bool {
    b.dom().contains(from) && match b[from].kind {
        PieceType::Pawn => pawn_move(b, from, b[from], to),
        PieceType::Knight => knight_move(b, from, b[from], to),
        PieceType::King => king_move(b, from, b[from], to),
        _ => sliding_move(b, from, b[from], to),
    }
}

/// The squares that the piece on `from` may move to.
pub open spec fn destinations(b: Squares, from: (int, int)) -> Set<(int, int)> {
    Set::new(|to: (int, int)| pseudo_legal(b, from, to))
}

/// The move from `from` to `to` is a pawn's diagonal move onto an empty
/// square, which captures en passant.
pub open spec fn is_en_passant(b: Squares, from: (int, int), to: (int, int)) -> bool {
    &&& b.dom().contains(from)
    &&& b[from].kind == PieceType::Pawn
    &&& from.0 != to.0
    &&& empty_at(b, to)
}

/// The move from `from` to `to` is a king's move across two files, which
/// is how castling is played.
pub open spec fn is_castling(b: Squares, from: (int, int), to: (int, int)) -> bool {
    b.dom().contains(from) && b[from].kind == PieceType::King && magnitude(to.0 - from.0) == 2
}

/// The board after the hypothetical move from `from` to `to`: the occupant
/// of `to` is gone, after a capture en passant also the occupant of the
/// square beside `from` on the file of `to`, and the piece from `from`, if
/// there is one, stands on `to`. Flags are left as they are.
pub open spec fn simulate(b: Squares, from: (int, int), to: (int, int)) -> Squares {
    let cleared = if is_en_passant(b, from, to) {
        b.remove(to).remove((to.0, from.1))
    } else {
        b.remove(to)
    };
    if cleared.dom().contains(from) {
        cleared.remove(from).insert(to, cleared[from])
    } else {
        cleared
    }
}

/// The king of colour `c` stands on `p`.
pub open spec fn is_king_of(b: Squares, p: (int, int), c: PieceColor) -> bool {
    b.dom().contains(p) && b[p].kind == PieceType::King && b[p].color == c
}

/// The square of the king of colour `c`; of several, the first in rank-major
/// order.
pub open spec fn king_square(b: Squares, c: PieceColor) -> Option<(int, int)> {
    if exists|p: (int, int)| is_king_of(b, p, c) {
        Some(
            choose|p: (int, int)|
                is_king_of(b, p, c) && forall|q: (int, int)|
                    is_king_of(b, q, c) ==> cell_index(p) <= cell_index(q),
        )
    } else {
        None
    }
}

/// The king of colour `c` is attacked. A side without a king is never in check.
pub open spec fn in_check(b: Squares, c: PieceColor) -> bool {
    match king_square(b, c) {
        Some(k) => attacked(b, k, c.other()),
        None => false,
    }
}

/// After the hypothetical move from `from` to `to` the king of colour `c` is
/// attacked. A destination outside the board is no move, and leaves no king
/// attacked.
pub open spec fn self_check(b: Squares, from: (int, int), to: (int, int), c: PieceColor) -> bool {
    on_board(to) && in_check(simulate(b, from, to), c)
}

/// The piece on `from` may move to `to` and does not leave its own king
/// attacked by doing so.
pub open spec fn legal(b: Squares, from: (int, int), to: (int, int)) -> bool {
    pseudo_legal(b, from, to) && !self_check(b, from, to, b[from].color)
}

/// The squares that the piece on `from` may legally move to.
pub open spec fn legal_destinations(b: Squares, from: (int, int)) -> Set<(int, int)> {
    Set::new(|to: (int, int)| legal(b, from, to))
}

/// Some piece of colour `c` has a legal move.
pub open spec fn has_legal_move(b: Squares, c: PieceColor) -> bool {
    exists|from: (int, int), to: (int, int)| friend_at(b, from, c) && #[trigger] legal(b, from, to)
}

// The game.

/// The piece as it stands after its move from `from` to `to`: it has moved,
/// it is flagged if it is a pawn that advanced two ranks, and a pawn that
/// reached the far rank has become a queen.
pub open spec fn settled(piece: Piece, from: (int, int), to: (int, int)) -> Piece {
    Piece {
        color: piece.color,
        kind: if piece.kind == PieceType::Pawn && to.1 == piece.color.far_rank() {
            PieceType::Queen
        } else {
            piece.kind
        },
        is_first_move: false,
        just_double_jumped: piece.kind == PieceType::Pawn && magnitude(to.1 - from.1) == 2,
    }
}

/// The corner from which, and the square to which, the rook goes when the
/// king castles from `from` to `to`.
pub open spec fn rook_route(from: (int, int), to: (int, int)) -> ((int, int), (int, int)) {
    if to.0 > from.0 {
        ((7, from.1), (5, from.1))
    } else {
        ((0, from.1), (3, from.1))
    }
}

/// The board after the castling rook, if it is there, has gone to the
/// square that the king crossed, and is marked as moved.
pub open spec fn rook_hop(b: Squares, from: (int, int), to: (int, int)) -> Squares {
    let (corner, landing) = rook_route(from, to);
    if b.dom().contains(corner) {
        b.remove(corner).insert(landing, Piece { is_first_move: false, ..b[corner] })
    } else {
        b
    }
}

/// The board after the move from `from` to `to` has been made: what is
/// captured is gone, every double-jump flag is cleared, the piece stands on
/// `to` as `settled` describes it, and after castling the rook has gone too.
pub open spec fn apply_move(b: Squares, from: (int, int), to: (int, int)) -> Squares {
    let placed = without_flags(simulate(b, from, to)).insert(to, settled(b[from], from, to));
    if is_castling(b, from, to) {
        rook_hop(placed, from, to)
    } else {
        placed
    }
}

/// At most one piece on the board is flagged as having just advanced two ranks.
pub open spec fn single_double_jump(b: Squares) -> bool {
    forall|p: (int, int), q: (int, int)|
        #![trigger b[p], b[q]]
        b.dom().contains(p) && b.dom().contains(q) && b[p].just_double_jumped
            && b[q].just_double_jumped ==> p == q
}

/// The status of a game in which colour `turn` is to move on board `b`:
/// without a legal move it is checkmate if the king is attacked and
/// stalemate if not; with one it is check if the king is attacked.
pub open spec fn status_of(b: Squares, turn: PieceColor) -> GameStatus {
    if has_legal_move(b, turn) {
        if in_check(b, turn) {
            GameStatus::Check(turn)
        } else {
            GameStatus::InProgress
        }
    } else if in_check(b, turn) {
        GameStatus::Checkmate(turn.other())
    } else {
        GameStatus::Stalemate
    }
}

} // verus!
