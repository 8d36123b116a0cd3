//! The move generator, the attack detector, the check simulator and the
//! legality filter.

use vstd::prelude::*;
use crate::board::{Board, cell_index, on_board, Squares};
use crate::components::{GameStatus, GridPosition, Piece, PieceColor, PieceType};
use crate::laws::{lemma_ray_is_slide, lemma_slide_is_ray};
use crate::model::{
    attacked, attacks, castling_move, destinations, direction, direction_order, empty_at, enemy_at,
    friend_at, has_legal_move, heading, in_check, is_king_of, king_move,
    king_square, king_step, kingside_open, knight_delta, knight_move, knight_order, legal,
    legal_destinations, lists_exactly, offset, pawn_capture, pawn_double_step, pawn_move,
    pawn_single_step, pseudo_legal, queenside_open, ray_reach, ray_square, self_check, simulate,
    slides_along, sliding_move, span, square, status_of, travels,
};

verus! {

/// How deep the move generator may call into the attack detector: only the
/// moves of a king ask which squares are attacked, and the attack detector
/// never generates the moves of a king.
pub open spec fn generator_depth(b: Squares, from: (int, int)) -> int {
    if b.dom().contains(from) && b[from].kind == PieceType::King {
        4
    } else {
        0
    }
}

/// The square with the given coordinates, if it is on the board.
pub fn to_grid_pos(x: i32, y: i32) -> (r: Option<GridPosition>)
    ensures
        r is Some <==> on_board((x as int, y as int)),
        r matches Some(pos) ==> pos@ == (x as int, y as int),
{
    if 0 <= x && x < 8 && 0 <= y && y < 8 {
        Some(GridPosition::new(x as u32, y as u32))
    } else {
        None
    }
}

/// Whether `target` occurs in `moves`.
pub fn contains_square(moves: &Vec<GridPosition>, target: GridPosition) -> (r: bool)
    ensures
        r == moves@.contains(target),
{
    let mut i: usize = 0;
    while i < moves.len()
        invariant
            i <= moves.len(),
            forall|j: int| 0 <= j < i ==> moves@[j] != target,
        decreases moves.len() - i,
    {
        if moves[i].x == target.x && moves[i].y == target.y {
            return true;
        }
        i += 1;
    }
    false
}

/// Appends the diagonal capture towards file `x + dx`, where the pawn may make it.
fn push_pawn_capture(
    moves: &mut Vec<GridPosition>,
    position: GridPosition,
    piece: &Piece,
    board: &Board,
    dx: i32,
)
    requires
        on_board(position@),
        dx == 1 || dx == -1,
    ensures
        ({
            let to = (position.x + dx, position.y + piece.color.forward());
            if on_board(to) && pawn_capture(board@, position@, *piece, to) {
                final(moves)@ == old(moves)@.push(square(to))
            } else {
                final(moves)@ == old(moves)@
            }
        }),
{
    let direction: i32 = match piece.color {
        PieceColor::White => 1,
        PieceColor::Black => -1,
    };
    let target_x = position.x as i32 + dx;
    let target_y = position.y as i32 + direction;
    if let Some(pos) = to_grid_pos(target_x, target_y) {
        if let Some(other_piece) = board.get_piece_at(pos.x, pos.y) {
            if other_piece.color != piece.color {
                moves.push(pos);
            }
        } else if let Some(other_piece) = board.get_piece_at(pos.x, position.y) {
            if other_piece.kind == PieceType::Pawn && other_piece.color != piece.color
                && other_piece.just_double_jumped {
                moves.push(pos);
            }
        }
    }
}

/// The destinations of a pawn: one step forward onto an empty square, two
/// steps on its first move past an empty square, a diagonal capture, and the
/// capture en passant.
fn get_pawn_moves(position: GridPosition, piece: &Piece, board: &Board) -> (moves: Vec<
    GridPosition,
>)
    requires
        on_board(position@),
    ensures
        lists_exactly(moves@, Set::new(|to: (int, int)| pawn_move(board@, position@, *piece, to))),
{
    let mut moves: Vec<GridPosition> = Vec::new();
    let direction: i32 = match piece.color {
        PieceColor::White => 1,
        PieceColor::Black => -1,
    };
    let start_x = position.x as i32;
    let start_y = position.y as i32;

    let one_step_y = start_y + direction;
    if let Some(pos) = to_grid_pos(start_x, one_step_y) {
        if board.get_piece_at(pos.x, pos.y).is_none() {
            moves.push(pos);
            if piece.is_first_move {
                let two_step_y = start_y + 2 * direction;
                if let Some(pos2) = to_grid_pos(start_x, two_step_y) {
                    if board.get_piece_at(pos2.x, pos2.y).is_none() {
                        moves.push(pos2);
                    }
                }
            }
        }
    }
    let ghost ahead = moves@;
    push_pawn_capture(&mut moves, position, piece, board, -1);
    let ghost left = moves@;
    push_pawn_capture(&mut moves, position, piece, board, 1);
    proof {
        let b = board@;
        let from = position@;
        assert forall|q: GridPosition| pawn_move(b, from, *piece, q@) implies moves@.contains(
            q,
        ) by {
            if pawn_single_step(b, from, *piece, q@) {
                assert(ahead[0] == q);
                assert(moves@[0] == q);
            } else if pawn_double_step(b, from, *piece, q@) {
                assert(ahead[1] == q);
                assert(moves@[1] == q);
            } else if q@.0 == from.0 - 1 {
                assert(left[ahead.len() as int] == q);
                assert(moves@[ahead.len() as int] == q);
            } else {
                assert(moves@[left.len() as int] == q);
            }
        }
    }
    moves
}

/// A list without repetitions stays so when a square that it lacks is appended.
proof fn lemma_push_fresh(v: Seq<GridPosition>, p: GridPosition)
    requires
        v.no_duplicates(),
        forall|j: int| 0 <= j < v.len() ==> #[trigger] v[j] != p,
    ensures
        v.push(p).no_duplicates(),
{
}

/// Appends the square at offset (`dx`, `dy`) from `position` if it is on the
/// board and holds no piece of `color`.
fn push_if_free(
    moves: &mut Vec<GridPosition>,
    position: GridPosition,
    color: PieceColor,
    board: &Board,
    dx: i32,
    dy: i32,
)
    requires
        on_board(position@),
        -2 <= dx <= 2,
        -2 <= dy <= 2,
    ensures
        ({
            let to = (position.x + dx, position.y + dy);
            if on_board(to) && !friend_at(board@, to, color) {
                final(moves)@ == old(moves)@.push(square(to))
            } else {
                final(moves)@ == old(moves)@
            }
        }),
{
    let new_x = position.x as i32 + dx;
    let new_y = position.y as i32 + dy;
    if let Some(pos) = to_grid_pos(new_x, new_y) {
        if let Some(other_piece) = board.get_piece_at(pos.x, pos.y) {
            if other_piece.color != color {
                moves.push(pos);
            }
        } else {
            moves.push(pos);
        }
    }
}

fn knight_offset(i: usize) -> (d: (i32, i32))
    requires
        i < 8,
    ensures
        (d.0 as int, d.1 as int) == knight_delta(i as int),
{
    if i == 0 {
        (2, 1)
    } else if i == 1 {
        (1, 2)
    } else if i == 2 {
        (-1, 2)
    } else if i == 3 {
        (-2, 1)
    } else if i == 4 {
        (-2, -1)
    } else if i == 5 {
        (-1, -2)
    } else if i == 6 {
        (1, -2)
    } else {
        (2, -1)
    }
}

/// The destinations of a knight: each of its eight jumps that lands on the
/// board and not on a friend.
fn get_knight_moves(position: GridPosition, piece: &Piece, board: &Board) -> (moves: Vec<
    GridPosition,
>)
    requires
        on_board(position@),
    ensures
        lists_exactly(
            moves@,
            Set::new(|to: (int, int)| knight_move(board@, position@, *piece, to)),
        ),
{
    let mut moves: Vec<GridPosition> = Vec::new();
    let mut i: usize = 0;
    while i < 8
        invariant
            i <= 8,
            on_board(position@),
            moves@.no_duplicates(),
            forall|j: int|
                0 <= j < moves@.len() ==> knight_move(
                    board@,
                    position@,
                    *piece,
                    #[trigger] moves@[j]@,
                ) && knight_order(offset(position@, moves@[j]@)) < i,
            forall|q: GridPosition|
                knight_move(board@, position@, *piece, q@) && knight_order(offset(position@, q@))
                    < i ==> moves@.contains(q),
        decreases 8 - i,
    {
        let (dx, dy) = knight_offset(i);
        let ghost before = moves@;
        push_if_free(&mut moves, position, piece.color, board, dx, dy);
        proof {
            let to = (position.x + dx, position.y + dy);
            assert(knight_order(offset(position@, to)) == i);
            if moves@.len() > before.len() {
                assert forall|j: int| 0 <= j < before.len() implies #[trigger] before[j] != square(
                    to,
                ) by {
                    assert(knight_order(offset(position@, before[j]@)) < i);
                }
                lemma_push_fresh(before, square(to));
            }
            assert forall|q: GridPosition|
                knight_move(board@, position@, *piece, q@) && knight_order(offset(position@, q@))
                    < i + 1 implies moves@.contains(q) by {
                if knight_order(offset(position@, q@)) < i {
                    assert(before.contains(q));
                    let j = choose|j: int| 0 <= j < before.len() && before[j] == q;
                    assert(moves@[j] == q);
                } else {
                    assert(q@ == to);
                    assert(moves@[before.len() as int] == q);
                }
            }
        }
        i += 1;
    }
    proof {
        assert forall|q: GridPosition|
            knight_move(board@, position@, *piece, q@) implies moves@.contains(q) by {
            assert(knight_order(offset(position@, q@)) < 8);
        }
    }
    moves
}

fn direction_offset(i: usize) -> (d: (i32, i32))
    requires
        i < 8,
    ensures
        (d.0 as int, d.1 as int) == direction(i as int),
{
    if i == 0 {
        (1, 0)
    } else if i == 1 {
        (1, 1)
    } else if i == 2 {
        (0, 1)
    } else if i == 3 {
        (-1, 1)
    } else if i == 4 {
        (-1, 0)
    } else if i == 5 {
        (-1, -1)
    } else if i == 6 {
        (0, -1)
    } else {
        (1, -1)
    }
}

/// Whether a piece of the given kind slides in direction `i`: a rook along
/// files and ranks, a bishop along diagonals, a queen along both.
fn slides_in(kind: PieceType, i: usize) -> (r: bool)
    requires
        i < 8,
    ensures
        r == travels(kind, i as int),
{
    match kind {
        PieceType::Rook => i % 2 == 0,
        PieceType::Bishop => i % 2 == 1,
        PieceType::Queen => true,
        _ => false,
    }
}

/// Walks from `position` in direction (`dx`, `dy`) one square at a time and
/// appends each square reached. The walk ends at the edge of the board or at
/// the first occupied square, which is appended only if it holds an enemy.
fn cast_ray(
    moves: &mut Vec<GridPosition>,
    position: GridPosition,
    color: PieceColor,
    board: &Board,
    dx: i32,
    dy: i32,
)
    requires
        on_board(position@),
        -1 <= dx <= 1,
        -1 <= dy <= 1,
        dx != 0 || dy != 0,
    ensures
        old(moves)@.len() <= final(moves)@.len(),
        forall|j: int| 0 <= j < old(moves)@.len() ==> final(moves)@[j] == old(moves)@[j],
        forall|j: int|
            old(moves)@.len() <= j < final(moves)@.len() ==> #[trigger] final(moves)@[j] == square(
                ray_square(position@, dx as int, dy as int, j - old(moves)@.len() + 1),
            ) && ray_reach(
                board@,
                position@,
                color,
                dx as int,
                dy as int,
                j - old(moves)@.len() + 1,
            ),
        forall|k: int|
            k >= 1 && #[trigger] ray_reach(board@, position@, color, dx as int, dy as int, k) ==> k
                <= final(moves)@.len() - old(moves)@.len(),
{
    let ghost start = moves@;
    let ghost from = position@;
    let ghost mut n: int = 0;
    let mut cx: i32 = position.x as i32 + dx;
    let mut cy: i32 = position.y as i32 + dy;
    let mut step: i32 = 1;
    let mut open = true;
    while open && step < 8
        invariant
            on_board(position@),
            from == position@,
            -1 <= dx <= 1,
            -1 <= dy <= 1,
            dx != 0 || dy != 0,
            1 <= step <= 8,
            (cx as int, cy as int) == ray_square(from, dx as int, dy as int, step as int),
            moves@.len() == start.len() + n,
            n >= 0,
            forall|j: int| 0 <= j < start.len() ==> moves@[j] == start[j],
            forall|j: int|
                start.len() <= j < moves@.len() ==> #[trigger] moves@[j] == square(
                    ray_square(from, dx as int, dy as int, j - start.len() + 1),
                ) && ray_reach(board@, from, color, dx as int, dy as int, j - start.len() + 1),
            forall|k: int|
                0 < k < step ==> on_board(#[trigger] ray_square(from, dx as int, dy as int, k))
                    && empty_at(board@, ray_square(from, dx as int, dy as int, k)),
            open ==> n == step - 1,
            !open ==> (n == step - 1 && (!on_board((cx as int, cy as int)) || friend_at(
                board@,
                (cx as int, cy as int),
                color,
            ))) || (n == step && enemy_at(board@, (cx as int, cy as int), color)),
        decreases (8 - step) + (if open { 1int } else { 0int }),
    {
        match to_grid_pos(cx, cy) {
            None => {
                open = false;
            },
            Some(pos) => {
                match board.get_piece_at(pos.x, pos.y) {
                    Some(other_piece) => {
                        if other_piece.color != color {
                            moves.push(pos);
                            proof {
                                n = n + 1;
                            }
                        }
                        open = false;
                    },
                    None => {
                        moves.push(pos);
                        proof {
                            n = n + 1;
                        }
                        cx = cx + dx;
                        cy = cy + dy;
                        step = step + 1;
                    },
                }
            },
        }
    }
    proof {
        assert forall|k: int|
            k >= 1 && #[trigger] ray_reach(board@, from, color, dx as int, dy as int, k) implies k
            <= n by {
            // A square beyond the end of the walk is off the board or behind a piece.
            if k > n && !open && k > step {
                assert(empty_at(board@, ray_square(from, dx as int, dy as int, step as int)));
            }
        }
    }
}

/// The destinations of a bishop, rook or queen: along each of its rays every
/// empty square up to the first occupied one, and that one if it holds an
/// enemy. Nothing lies beyond an occupied square.
fn get_sliding_moves(position: GridPosition, piece: &Piece, board: &Board) -> (moves: Vec<
    GridPosition,
>)
    requires
        on_board(position@),
    ensures
        lists_exactly(
            moves@,
            Set::new(|to: (int, int)| sliding_move(board@, position@, *piece, to)),
        ),
{
    let mut moves: Vec<GridPosition> = Vec::new();
    let ghost from = position@;
    let mut i: usize = 0;
    while i < 8
        invariant
            i <= 8,
            on_board(position@),
            from == position@,
            moves@.no_duplicates(),
            forall|j: int|
                0 <= j < moves@.len() ==> sliding_move(board@, from, *piece, #[trigger] moves@[j]@)
                    && direction_order(heading(from, moves@[j]@)) < i,
            forall|q: GridPosition|
                sliding_move(board@, from, *piece, q@) && direction_order(heading(from, q@)) < i
                    ==> moves@.contains(q),
        decreases 8 - i,
    {
        let ghost before = moves@;
        if slides_in(piece.kind, i) {
            let (dx, dy) = direction_offset(i);
            cast_ray(&mut moves, position, piece.color, board, dx, dy);
            proof {
                let after = moves@;
                let base = before.len() as int;
                assert forall|j: int| base <= j < after.len() implies sliding_move(
                    board@,
                    from,
                    *piece,
                    #[trigger] after[j]@,
                ) && direction_order(heading(from, after[j]@)) == i && after[j]@ == ray_square(
                    from,
                    dx as int,
                    dy as int,
                    j - base + 1,
                ) by {
                    lemma_ray_is_slide(board@, from, *piece, i as int, j - base + 1);
                }
                assert forall|j: int| 0 <= j < base implies sliding_move(
                    board@,
                    from,
                    *piece,
                    #[trigger] after[j]@,
                ) && direction_order(heading(from, after[j]@)) < i by {
                    assert(after[j] == before[j]);
                    assert(sliding_move(board@, from, *piece, before[j]@));
                }
                assert forall|x: int, y: int| 0 <= x < y < after.len() implies after[x]
                    != after[y] by {
                    if y < base {
                        assert(after[x] == before[x] && after[y] == before[y]);
                    } else if x < base {
                        assert(direction_order(heading(from, after[x]@)) < i);
                        assert(direction_order(heading(from, after[y]@)) == i);
                    } else {
                        assert(after[x]@ == ray_square(from, dx as int, dy as int, x - base + 1));
                        assert(after[y]@ == ray_square(from, dx as int, dy as int, y - base + 1));
                    }
                }
                assert forall|q: GridPosition|
                    sliding_move(board@, from, *piece, q@) && direction_order(heading(from, q@))
                        < i + 1 implies after.contains(q) by {
                    if direction_order(heading(from, q@)) < i {
                        assert(before.contains(q));
                        let j = choose|j: int| 0 <= j < before.len() && before[j] == q;
                        assert(after[j] == q);
                    } else {
                        lemma_slide_is_ray(piece.kind, from, q@);
                        let k = span(from, q@);
                        lemma_ray_is_slide(board@, from, *piece, i as int, k);
                        assert(ray_reach(board@, from, piece.color, dx as int, dy as int, k));
                        assert(after[base + k - 1] == q);
                    }
                }
            }
        } else {
            proof {
                assert forall|q: GridPosition|
                    sliding_move(board@, from, *piece, q@) && direction_order(heading(from, q@))
                        < i + 1 implies moves@.contains(q) by {
                    lemma_slide_is_ray(piece.kind, from, q@);
                }
            }
        }
        i += 1;
    }
    proof {
        assert forall|q: GridPosition|
            sliding_move(board@, from, *piece, q@) implies moves@.contains(q) by {
            lemma_slide_is_ray(piece.kind, from, q@);
        }
    }
    moves
}

/// The square with the given place in rank-major order.
fn square_at(idx: usize) -> (pos: GridPosition)
    requires
        idx < 64,
    ensures
        on_board(pos@),
        cell_index(pos@) == idx,
{
    GridPosition::new((idx % 8) as u32, (idx / 8) as u32)
}

/// Whether castling towards one side is open to the unmoved, unattacked king
/// of `king`'s colour: the rook of that side stands unmoved on its home
/// square, every square between king and rook is empty, and no square that
/// the king crosses or lands on is attacked.
fn check_castling_path(king: &Piece, board: &Board, kingside: bool) -> (r: bool)
    ensures
        r == if kingside {
            kingside_open(board@, king.color)
        } else {
            queenside_open(board@, king.color)
        },
    decreases 2int,
{
    let (rank, opponent_color): (u32, PieceColor) = match king.color {
        PieceColor::White => (0, PieceColor::Black),
        PieceColor::Black => (7, PieceColor::White),
    };
    let rook_x: u32 = if kingside {
        7
    } else {
        0
    };
    let rook_exists = match board.get_piece_at(rook_x, rank) {
        Some(p) => p.kind == PieceType::Rook && p.color == king.color && p.is_first_move,
        None => false,
    };
    if !rook_exists {
        return false;
    }
    if kingside {
        if board.get_piece_at(5, rank).is_some() || board.get_piece_at(6, rank).is_some() {
            return false;
        }
        if is_square_under_attack(GridPosition::new(5, rank), board, opponent_color) {
            return false;
        }
        if is_square_under_attack(GridPosition::new(6, rank), board, opponent_color) {
            return false;
        }
    } else {
        if board.get_piece_at(1, rank).is_some() || board.get_piece_at(2, rank).is_some()
            || board.get_piece_at(3, rank).is_some() {
            return false;
        }
        if is_square_under_attack(GridPosition::new(2, rank), board, opponent_color) {
            return false;
        }
        if is_square_under_attack(GridPosition::new(3, rank), board, opponent_color) {
            return false;
        }
    }
    true
}

/// The destinations of a king: each neighbouring square that is on the board
/// and holds no friend, and the castling squares. Castling is offered only to
/// a king that has not moved, stands on its home square and is not attacked,
/// and only towards a side that `check_castling_path` finds open.
fn get_king_moves(position: GridPosition, piece: &Piece, board: &Board) -> (moves: Vec<
    GridPosition,
>)
    requires
        on_board(position@),
    ensures
        lists_exactly(moves@, Set::new(|to: (int, int)| king_move(board@, position@, *piece, to))),
    decreases 3int,
{
    let mut moves: Vec<GridPosition> = Vec::new();
    let ghost from = position@;
    let mut i: usize = 0;
    while i < 8
        invariant
            i <= 8,
            on_board(position@),
            from == position@,
            moves@.no_duplicates(),
            forall|j: int|
                0 <= j < moves@.len() ==> king_step(board@, from, *piece, #[trigger] moves@[j]@)
                    && direction_order(offset(from, moves@[j]@)) < i,
            forall|q: GridPosition|
                king_step(board@, from, *piece, q@) && direction_order(offset(from, q@)) < i
                    ==> moves@.contains(q),
        decreases 8 - i,
    {
        let (dx, dy) = direction_offset(i);
        let ghost before = moves@;
        push_if_free(&mut moves, position, piece.color, board, dx, dy);
        proof {
            let to = (position.x + dx, position.y + dy);
            assert(direction_order(offset(from, to)) == i);
            if moves@.len() > before.len() {
                assert forall|j: int| 0 <= j < before.len() implies #[trigger] before[j] != square(
                    to,
                ) by {
                    assert(direction_order(offset(from, before[j]@)) < i);
                }
                lemma_push_fresh(before, square(to));
            }
            assert forall|q: GridPosition|
                king_step(board@, from, *piece, q@) && direction_order(offset(from, q@)) < i + 1
                implies moves@.contains(q) by {
                if direction_order(offset(from, q@)) < i {
                    assert(before.contains(q));
                    let j = choose|j: int| 0 <= j < before.len() && before[j] == q;
                    assert(moves@[j] == q);
                } else {
                    assert(q@ == to);
                    assert(moves@[before.len() as int] == q);
                }
            }
        }
        i += 1;
    }
    let ghost steps = moves@;
    proof {
        assert forall|q: GridPosition| king_step(board@, from, *piece, q@) implies steps.contains(
            q,
        ) by {
            assert(direction_order(offset(from, q@)) < 8);
        }
    }

    let (rank, opponent_color): (u32, PieceColor) = match piece.color {
        PieceColor::White => (0, PieceColor::Black),
        PieceColor::Black => (7, PieceColor::White),
    };
    let ghost mut short_side = false;
    let ghost mut long_side = false;
    if piece.is_first_move && position.x == 4 && position.y == rank {
        if !is_square_under_attack(position, board, opponent_color) {
            if check_castling_path(piece, board, true) {
                moves.push(GridPosition::new(6, rank));
                proof {
                    short_side = true;
                }
            }
            if check_castling_path(piece, board, false) {
                moves.push(GridPosition::new(2, rank));
                proof {
                    long_side = true;
                }
            }
        }
    }
    proof {
        let r = rank as int;
        let short_to = square((6int, r));
        let long_to = square((2int, r));
        let mid = if short_side {
            steps.push(short_to)
        } else {
            steps
        };
        assert(moves@ == if long_side {
            mid.push(long_to)
        } else {
            mid
        });
        assert(short_side == castling_move(board@, from, *piece, (6int, r)));
        assert(long_side == castling_move(board@, from, *piece, (2int, r)));
        if short_side || long_side {
            assert forall|j: int| 0 <= j < steps.len() implies #[trigger] steps[j] != short_to
                && steps[j] != long_to by {
                assert(king_step(board@, from, *piece, steps[j]@));
            }
        }
        if short_side {
            lemma_push_fresh(steps, short_to);
        }
        if long_side {
            lemma_push_fresh(mid, long_to);
        }
        assert forall|j: int| 0 <= j < moves@.len() implies king_move(
            board@,
            from,
            *piece,
            #[trigger] moves@[j]@,
        ) by {
            if j < steps.len() {
                assert(moves@[j] == steps[j]);
                assert(king_step(board@, from, *piece, steps[j]@));
            }
        }
        assert forall|q: GridPosition| king_move(board@, from, *piece, q@) implies moves@.contains(
            q,
        ) by {
            if king_step(board@, from, *piece, q@) {
                assert(steps.contains(q));
                let j = choose|j: int| 0 <= j < steps.len() && steps[j] == q;
                assert(moves@[j] == q);
            } else if q@ == (6int, r) {
                assert(moves@[steps.len() as int] == q);
            } else {
                assert(moves@[moves@.len() - 1] == q);
            }
        }
    }
    moves
}

/// Whether some piece of `attacker_color` attacks `position`. A pawn attacks
/// the two squares diagonally ahead of it and a king every square within one
/// step of it, whatever stands there; a knight, bishop, rook or queen attacks
/// the squares among its destinations. The search ends at the first attacker
/// found.
pub fn is_square_under_attack(
    position: GridPosition,
    board: &Board,
    attacker_color: PieceColor,
) -> (r: bool)
    ensures
        r == attacked(board@, position@, attacker_color),
    decreases 1int,
{
    let mut idx: usize = 0;
    while idx < 64
        invariant
            idx <= 64,
            forall|p: (int, int)|
                on_board(p) && cell_index(p) < idx ==> !(friend_at(board@, p, attacker_color)
                    && #[trigger] attacks(board@, p, position@)),
        decreases 64 - idx,
    {
        let pos = square_at(idx);
        proof {
            assert forall|p: (int, int)| on_board(p) && cell_index(p) == idx implies p == pos@ by {}
        }
        if let Some(piece) = board.get_piece_at(pos.x, pos.y) {
            if piece.color == attacker_color {
                let hit = match piece.kind {
                    PieceType::Pawn => {
                        let direction: i64 = match piece.color {
                            PieceColor::White => 1,
                            PieceColor::Black => -1,
                        };
                        let attack_y = pos.y as i64 + direction;
                        let dx = pos.x as i64 - position.x as i64;
                        attack_y == position.y as i64 && (dx == 1 || dx == -1)
                    },
                    PieceType::King => {
                        let dx = pos.x as i64 - position.x as i64;
                        let dy = pos.y as i64 - position.y as i64;
                        -1 <= dx && dx <= 1 && -1 <= dy && dy <= 1
                    },
                    _ => {
                        let moves = get_valid_moves(pos, board);
                        contains_square(&moves, position)
                    },
                };
                if hit {
                    assert(friend_at(board@, pos@, attacker_color) && attacks(
                        board@,
                        pos@,
                        position@,
                    ));
                    return true;
                }
            }
        }
        idx += 1;
    }
    proof {
        board.lemma_within_board();
        assert forall|p: (int, int)| friend_at(board@, p, attacker_color) implies !attacks(
            board@,
            p,
            position@,
        ) by {
            assert(on_board(p) && cell_index(p) < 64);
        }
    }
    false
}

/// The pseudo-legal destinations of the piece on `position`: where the rules
/// of its kind let it go, whether or not its own king is then attacked. Every
/// destination is on the board and none is listed twice. An empty square and
/// a square outside the board have no destinations.
pub fn get_valid_moves(position: GridPosition, board: &Board) -> (moves: Vec<GridPosition>)
    ensures
        lists_exactly(moves@, destinations(board@, position@)),
        forall|i: int| 0 <= i < moves@.len() ==> on_board(#[trigger] moves@[i]@),
    decreases generator_depth(board@, position@),
{
    proof {
        board.lemma_within_board();
    }
    let moves = match board.get_piece_at(position.x, position.y) {
        None => Vec::new(),
        Some(piece) => {
            match piece.kind {
                PieceType::Pawn => get_pawn_moves(position, &piece, board),
                PieceType::Knight => get_knight_moves(position, &piece, board),
                PieceType::Bishop => get_sliding_moves(position, &piece, board),
                PieceType::Rook => get_sliding_moves(position, &piece, board),
                PieceType::Queen => get_sliding_moves(position, &piece, board),
                PieceType::King => get_king_moves(position, &piece, board),
            }
        },
    };
    proof {
        assert forall|i: int| 0 <= i < moves@.len() implies on_board(#[trigger] moves@[i]@) by {
            assert(destinations(board@, position@).contains(moves@[i]@));
        }
    }
    moves
}

/// Whether the piece on `position` may move to `target_position`, whether or
/// not its own king is then attacked.
pub fn is_valid_move(target_position: GridPosition, position: GridPosition, board: &Board) -> (r:
    bool)
    ensures
        r == pseudo_legal(board@, position@, target_position@),
{
    let moves = get_valid_moves(position, board);
    contains_square(&moves, target_position)
}

/// The square of the king of `color`; of several, the first in rank-major
/// order.
pub fn find_king(board: &Board, color: PieceColor) -> (r: Option<GridPosition>)
    ensures
        r is Some <==> king_square(board@, color) is Some,
        r matches Some(pos) ==> king_square(board@, color) == Some(pos@),
{
    let mut idx: usize = 0;
    while idx < 64
        invariant
            idx <= 64,
            forall|p: (int, int)|
                on_board(p) && cell_index(p) < idx ==> !#[trigger] is_king_of(board@, p, color),
        decreases 64 - idx,
    {
        let pos = square_at(idx);
        if let Some(piece) = board.get_piece_at(pos.x, pos.y) {
            if piece.kind == PieceType::King && piece.color == color {
                proof {
                    board.lemma_within_board();
                    assert(is_king_of(board@, pos@, color));
                    let k = king_square(board@, color)->0;
                    assert(is_king_of(board@, k, color));
                    assert(cell_index(k) <= cell_index(pos@));
                    assert(on_board(k));
                }
                return Some(pos);
            }
        }
        idx += 1;
    }
    proof {
        board.lemma_within_board();
        assert forall|p: (int, int)| !is_king_of(board@, p, color) by {
            if board@.dom().contains(p) {
                assert(on_board(p) && cell_index(p) < 64);
            }
        }
    }
    None
}

/// Whether the king of `color` is attacked by the other side. A side without
/// a king is not in check.
pub fn is_in_check(board: &Board, color: PieceColor) -> (r: bool)
    ensures
        r == in_check(board@, color),
{
    match find_king(board, color) {
        Some(k_pos) => is_square_under_attack(k_pos, board, color.opponent()),
        None => false,
    }
}

/// Whether the move from `from` to `to` would leave the king of
/// `current_turn` attacked. The move is tried on a copy: the occupant of `to`
/// is taken off, after a capture en passant also the pawn that was passed,
/// and the piece from `from` is set on `to`. The board itself is not touched.
pub fn is_self_check(
    from: GridPosition,
    to: GridPosition,
    board: &Board,
    current_turn: PieceColor,
) -> (r: bool)
    ensures
        r == self_check(board@, from@, to@, current_turn),
{
    if !to.is_on_board() {
        return false;
    }
    let mut simulated: Board = *board;
    let mover = board.get_piece_at(from.x, from.y);
    let target_empty = board.get_piece_at(to.x, to.y).is_none();
    simulated.remove(to);
    if let Some(piece) = mover {
        if piece.kind == PieceType::Pawn && from.x != to.x && target_empty {
            simulated.remove(GridPosition::new(to.x, from.y));
        }
    }
    if let Some(piece) = simulated.remove(from) {
        simulated.place(to, piece);
    }
    assert(simulated@ == simulate(board@, from@, to@));
    is_in_check(&simulated, current_turn)
}

/// The legal destinations of the piece on `position`: its pseudo-legal
/// destinations without those that would leave its own king attacked.
pub fn legal_moves(position: GridPosition, board: &Board) -> (moves: Vec<GridPosition>)
    ensures
        lists_exactly(moves@, legal_destinations(board@, position@)),
        forall|i: int| 0 <= i < moves@.len() ==> on_board(#[trigger] moves@[i]@),
{
    let mut moves: Vec<GridPosition> = Vec::new();
    let color = match board.get_piece_at(position.x, position.y) {
        Some(piece) => piece.color,
        None => {
            return moves;
        },
    };
    let candidates = get_valid_moves(position, board);
    let ghost from = position@;
    let ghost mut origin: Seq<int> = Seq::empty();
    let mut i: usize = 0;
    while i < candidates.len()
        invariant
            i <= candidates.len(),
            from == position@,
            board@.dom().contains(from),
            color == board@[from].color,
            lists_exactly(candidates@, destinations(board@, from)),
            origin.len() == moves@.len(),
            forall|k: int|
                0 <= k < moves@.len() ==> 0 <= #[trigger] origin[k] < i && moves@[k]
                    == candidates@[origin[k]],
            forall|k: int| 0 <= k < moves@.len() ==> legal(board@, from, #[trigger] moves@[k]@),
            moves@.no_duplicates(),
            forall|j: int|
                0 <= j < i && legal(board@, from, #[trigger] candidates@[j]@) ==> moves@.contains(
                    candidates@[j],
                ),
        decreases candidates.len() - i,
    {
        let target = candidates[i];
        let ghost before = moves@;
        if !is_self_check(position, target, board, color) {
            proof {
                assert(destinations(board@, from).contains(candidates@[i as int]@));
                assert forall|k: int| 0 <= k < before.len() implies #[trigger] before[k]
                    != target by {
                    assert(before[k] == candidates@[origin[k]]);
                }
                lemma_push_fresh(before, target);
                origin = origin.push(i as int);
            }
            moves.push(target);
        }
        proof {
            assert forall|j: int|
                0 <= j < i + 1 && legal(
                    board@,
                    from,
                    #[trigger] candidates@[j]@,
                ) implies moves@.contains(candidates@[j]) by {
                if j < i {
                    assert(before.contains(candidates@[j]));
                    let k = choose|k: int| 0 <= k < before.len() && before[k] == candidates@[j];
                    assert(moves@[k] == candidates@[j]);
                } else {
                    assert(moves@[before.len() as int] == candidates@[j]);
                }
            }
        }
        i += 1;
    }
    proof {
        assert forall|q: GridPosition| legal(board@, from, q@) implies moves@.contains(q) by {
            assert(destinations(board@, from).contains(q@));
            assert(candidates@.contains(q));
            let j = choose|j: int| 0 <= j < candidates@.len() && candidates@[j] == q;
            assert(legal(board@, from, candidates@[j]@));
        }
        assert forall|k: int| 0 <= k < moves@.len() implies on_board(#[trigger] moves@[k]@) by {
            assert(legal(board@, from, moves@[k]@));
            board.lemma_within_board();
        }
    }
    moves
}

/// Whether the side `current_turn` has no legal move at all: true exactly
/// when no piece of that colour has a legal destination. With the king
/// attacked that is checkmate, with the king safe it is stalemate.
pub fn is_checkmate(current_turn: PieceColor, board: &Board) -> (r: bool)
    ensures
        r == !has_legal_move(board@, current_turn),
        r <==> forall|from: (int, int), to: (int, int)|
            friend_at(board@, from, current_turn) ==> !#[trigger] legal(board@, from, to),
{
    let mut idx: usize = 0;
    while idx < 64
        invariant
            idx <= 64,
            forall|from: (int, int), to: (int, int)|
                on_board(from) && cell_index(from) < idx && friend_at(board@, from, current_turn)
                    ==> !#[trigger] legal(board@, from, to),
        decreases 64 - idx,
    {
        let pos = square_at(idx);
        proof {
            assert forall|p: (int, int)| on_board(p) && cell_index(p) == idx implies p == pos@ by {}
        }
        if let Some(piece) = board.get_piece_at(pos.x, pos.y) {
            if piece.color == current_turn {
                let moves = get_valid_moves(pos, board);
                let mut j: usize = 0;
                while j < moves.len()
                    invariant
                        j <= moves.len(),
                        board@.dom().contains(pos@),
                        board@[pos@].color == current_turn,
                        lists_exactly(moves@, destinations(board@, pos@)),
                        forall|k: int| 0 <= k < j ==> !legal(board@, pos@, #[trigger] moves@[k]@),
                    decreases moves.len() - j,
                {
                    if !is_self_check(pos, moves[j], board, current_turn) {
                        proof {
                            assert(destinations(board@, pos@).contains(moves@[j as int]@));
                            assert(friend_at(board@, pos@, current_turn) && legal(
                                board@,
                                pos@,
                                moves@[j as int]@,
                            ));
                        }
                        return false;
                    }
                    j += 1;
                }
                proof {
                    assert forall|to: (int, int)| !legal(board@, pos@, to) by {
                        if legal(board@, pos@, to) {
                            board.lemma_within_board();
                            assert(destinations(board@, pos@).contains(to));
                            assert(to == square(to)@);
                            assert(moves@.contains(square(to)));
                            let k = choose|k: int| 0 <= k < moves@.len() && moves@[k] == square(to);
                            assert(!legal(board@, pos@, moves@[k]@));
                        }
                    }
                }
            }
        }
        idx += 1;
    }
    proof {
        board.lemma_within_board();
        assert forall|from: (int, int), to: (int, int)|
            friend_at(board@, from, current_turn) implies !#[trigger] legal(board@, from, to) by {
            assert(on_board(from) && cell_index(from) < 64);
        }
    }
    true
}

/// The status of the game when `turn` is to move: without a legal move it is
/// checkmate if the king is attacked and stalemate if not; with one it is
/// check if the king is attacked.
pub fn game_status(board: &Board, turn: PieceColor) -> (status: GameStatus)
    ensures
        status == status_of(board@, turn),
{
    let stuck = is_checkmate(turn, board);
    let checked = is_in_check(board, turn);
    if stuck {
        if checked {
            GameStatus::Checkmate(turn.opponent())
        } else {
            GameStatus::Stalemate
        }
    } else if checked {
        GameStatus::Check(turn)
    } else {
        GameStatus::InProgress
    }
}

} // verus!
