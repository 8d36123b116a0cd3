//! What holds of the rules on every board, proved from the definitions of
//! the model.

use vstd::prelude::*;
use vstd::set_lib::{lemma_int_range, lemma_set_subset_finite, set_int_range};
use crate::board::{
    cell_index, described, first_entry, is_first_entry, lists_pieces, lookup, on_board, Squares,
    starting_position, within_board, without_flags,
};
use crate::components::{GameStatus, GridPosition, Piece, PieceColor, PieceType};
use crate::game::{activate_step, GameView};
use crate::model::{
    apply_move, attacked, attacks, direction, direction_order, empty_at, en_passant_victim,
    enemy_at, friend_at, has_legal_move, heading, in_check, is_castling, is_en_passant, is_king_of,
    king_square, legal, legal_destinations, lists_exactly, magnitude, path_clear, pseudo_legal,
    ray_reach, ray_square, rook_route, self_check, settled, sign, simulate, single_double_jump,
    slides_along, sliding_move, span, square, status_of, travels,
};

verus! {

// The board.

/// A board whose pieces all stand on the sixty-four squares holds finitely
/// many.
pub proof fn lemma_board_is_finite(b: Squares)
    requires
        within_board(b),
    ensures
        b.dom().finite(),
{
    let cells = set_int_range(0, 64);
    let all = cells.map(|i: int| (i % 8, i / 8));
    lemma_int_range(0, 64);
    cells.lemma_map_finite(|i: int| (i % 8, i / 8));
    assert forall|p: (int, int)| b.dom().contains(p) implies all.contains(p) by {
        let i = p.1 * 8 + p.0;
        assert(cells.contains(i) && p == (i % 8, i / 8));
    }
    lemma_set_subset_finite(all, b.dom());
}

/// A list of the pieces of a board describes that board: what it puts on a
/// square is what stands there. So the board made from the list of a
/// board's pieces is that board again.
pub proof fn lemma_listing_describes_board(list: Seq<(GridPosition, Piece)>, b: Squares)
    requires
        within_board(b),
        lists_pieces(list, b),
    ensures
        forall|p: (int, int)| #[trigger] first_entry(list, p) == lookup(b, p),
        described(list) == b,
{
    assert forall|p: (int, int)| #[trigger] first_entry(list, p) == lookup(b, p) by {
        if b.dom().contains(p) {
            let i = choose|i: int| 0 <= i < list.len() && (#[trigger] list[i]).0@ == p;
            assert(is_first_entry(list, i)) by {
                assert forall|j: int| 0 <= j < i implies (#[trigger] list[j]).0@ != list[i].0@ by {
                    assert(cell_index(list[j].0@) < cell_index(list[i].0@));
                }
            }
            let m = choose|m: int| is_first_entry(list, m) && list[m].0@ == p;
            assert(m == i) by {
                if m < i {
                    assert(cell_index(list[m].0@) < cell_index(list[i].0@));
                } else if i < m {
                    assert(cell_index(list[i].0@) < cell_index(list[m].0@));
                }
            }
        } else if first_entry(list, p) is Some {
            let m = choose|m: int| is_first_entry(list, m) && list[m].0@ == p;
            assert(lookup(b, list[m].0@) == Some(list[m].1));
        }
    }
    assert(described(list) =~= b);
}

// Destinations.

/// Every destination of every piece on every board is on the board.
pub proof fn lemma_destinations_on_board(b: Squares, from: (int, int), to: (int, int))
    requires
        pseudo_legal(b, from, to),
    ensures
        on_board(to),
{
}

/// Every legal destination is a destination, and so on the board.
pub proof fn lemma_legal_destinations_on_board(b: Squares, from: (int, int), to: (int, int))
    requires
        legal(b, from, to),
    ensures
        pseudo_legal(b, from, to),
        on_board(to),
{
}

/// The `k`-th square of a ray in which a piece travels is a square towards
/// which it slides, `k` steps away in that direction; and it is a destination
/// exactly when the ray reaches it.
pub proof fn lemma_ray_is_slide(b: Squares, from: (int, int), piece: Piece, i: int, k: int)
    requires
        0 <= i < 8,
        travels(piece.kind, i),
        k >= 1,
    ensures
        ({
            let d = direction(i);
            let to = ray_square(from, d.0, d.1, k);
            &&& heading(from, to) == d
            &&& span(from, to) == k
            &&& slides_along(piece.kind, from, to)
            &&& ray_reach(b, from, piece.color, d.0, d.1, k) <==> sliding_move(b, from, piece, to)
        }),
{
    let d = direction(i);
    let to = ray_square(from, d.0, d.1, k);
    assert(heading(from, to) == d);
    assert(span(from, to) == k);
    assert(slides_along(piece.kind, from, to));
    assert(ray_reach(b, from, piece.color, d.0, d.1, k) == sliding_move(b, from, piece, to));
}

/// A square towards which a piece slides lies on one of the rays in which it
/// travels, as many steps away as the two squares are apart.
pub proof fn lemma_slide_is_ray(kind: PieceType, from: (int, int), to: (int, int))
    requires
        slides_along(kind, from, to),
    ensures
        ({
            let d = heading(from, to);
            let i = direction_order(d);
            &&& 0 <= i < 8
            &&& travels(kind, i)
            &&& direction(i) == d
            &&& span(from, to) >= 1
            &&& to == ray_square(from, d.0, d.1, span(from, to))
        }),
{
}

/// Along a ray in which a bishop, rook or queen travels, the `j`-th square is
/// a destination exactly when it is on the board, every square before it is
/// empty and no friend stands on it.
pub proof fn lemma_ray_destination(b: Squares, from: (int, int), i: int, j: int)
    requires
        b.dom().contains(from),
        b[from].kind == PieceType::Bishop || b[from].kind == PieceType::Rook || b[from].kind
            == PieceType::Queen,
        0 <= i < 8,
        travels(b[from].kind, i),
        j >= 1,
    ensures
        pseudo_legal(b, from, ray_square(from, direction(i).0, direction(i).1, j)) <==> {
            &&& on_board(ray_square(from, direction(i).0, direction(i).1, j))
            &&& !friend_at(b, ray_square(from, direction(i).0, direction(i).1, j), b[from].color)
            &&& forall|m: int|
                0 < m < j ==> empty_at(
                    b,
                    #[trigger] ray_square(from, direction(i).0, direction(i).1, m),
                )
        },
{
    let d = direction(i);
    let to = ray_square(from, d.0, d.1, j);
    assert(heading(from, to) == d);
    assert(span(from, to) == j);
    assert(slides_along(b[from].kind, from, to));
}

/// A ray stops at the first occupied square. Where the `k`-th square of a
/// ray in which a bishop, rook or queen travels is the first occupied one,
/// every square before it is a destination, no square beyond it is, and it
/// is one itself exactly when it holds a piece of the other colour.
pub proof fn lemma_ray_stops_at_first_piece(b: Squares, from: (int, int), i: int, k: int, j: int)
    requires
        within_board(b),
        b.dom().contains(from),
        b[from].kind == PieceType::Bishop || b[from].kind == PieceType::Rook || b[from].kind
            == PieceType::Queen,
        0 <= i < 8,
        travels(b[from].kind, i),
        k >= 1,
        !empty_at(b, ray_square(from, direction(i).0, direction(i).1, k)),
        forall|m: int|
            0 < m < k ==> empty_at(
                b,
                #[trigger] ray_square(from, direction(i).0, direction(i).1, m),
            ),
        j >= 1,
    ensures
        j < k ==> pseudo_legal(b, from, ray_square(from, direction(i).0, direction(i).1, j)),
        j > k ==> !pseudo_legal(b, from, ray_square(from, direction(i).0, direction(i).1, j)),
        pseudo_legal(b, from, ray_square(from, direction(i).0, direction(i).1, k)) <==> enemy_at(
            b,
            ray_square(from, direction(i).0, direction(i).1, k),
            b[from].color,
        ),
{
    let d = direction(i);
    lemma_ray_destination(b, from, i, j);
    lemma_ray_destination(b, from, i, k);
    assert(on_board(from));
    assert(on_board(ray_square(from, d.0, d.1, k)));
    if j < k {
        assert(on_board(ray_square(from, d.0, d.1, j)));
        assert(empty_at(b, ray_square(from, d.0, d.1, j)));
    }
}

/// A pawn is offered its double step exactly when it has not moved and both
/// squares ahead of it are empty, wherever the square two ranks ahead is on
/// the board.
pub proof fn lemma_pawn_double_step(b: Squares, from: (int, int))
    requires
        b.dom().contains(from),
        b[from].kind == PieceType::Pawn,
        on_board((from.0, from.1 + 2 * b[from].color.forward())),
    ensures
        pseudo_legal(b, from, (from.0, from.1 + 2 * b[from].color.forward())) <==> {
            &&& b[from].is_first_move
            &&& empty_at(b, (from.0, from.1 + b[from].color.forward()))
            &&& empty_at(b, (from.0, from.1 + 2 * b[from].color.forward()))
        },
{
}

/// A pawn is offered the empty square diagonally ahead of it, towards
/// `side`, exactly when the square beside it on that side holds a pawn of
/// the other colour that has just advanced two ranks. An occupied square
/// diagonally ahead is offered exactly when it holds a piece of the other
/// colour.
pub proof fn lemma_en_passant(b: Squares, from: (int, int), side: int)
    requires
        b.dom().contains(from),
        b[from].kind == PieceType::Pawn,
        side == 1 || side == -1,
        on_board((from.0 + side, from.1 + b[from].color.forward())),
    ensures
        empty_at(b, (from.0 + side, from.1 + b[from].color.forward())) ==> (pseudo_legal(
            b,
            from,
            (from.0 + side, from.1 + b[from].color.forward()),
        ) <==> en_passant_victim(b, (from.0 + side, from.1), b[from].color)),
        !empty_at(b, (from.0 + side, from.1 + b[from].color.forward())) ==> (pseudo_legal(
            b,
            from,
            (from.0 + side, from.1 + b[from].color.forward()),
        ) <==> enemy_at(b, (from.0 + side, from.1 + b[from].color.forward()), b[from].color)),
{
}

/// A king's move across two files is offered only as castling: the king has
/// not moved, the rook in the corner towards which it goes is its own and has
/// not moved, every square between king and rook is empty, and neither the
/// king's square nor the square it crosses nor the square it lands on is
/// attacked.
pub proof fn lemma_castling_conditions(b: Squares, from: (int, int), to: (int, int))
    requires
        is_castling(b, from, to),
        pseudo_legal(b, from, to),
    ensures
        b[from].is_first_move,
        ({
            let (corner, landing) = rook_route(from, to);
            &&& b.dom().contains(corner)
            &&& b[corner].kind == PieceType::Rook
            &&& b[corner].color == b[from].color
            &&& b[corner].is_first_move
            &&& forall|x: int|
                (from.0 < x < corner.0 || corner.0 < x < from.0) ==> empty_at(b, (x, from.1))
            &&& !attacked(b, from, b[from].color.other())
            &&& !attacked(b, landing, b[from].color.other())
            &&& !attacked(b, to, b[from].color.other())
        }),
{
}

// The king and self-check.

/// Among the squares whose place in rank-major order is below `n`, the first
/// that holds the king of colour `c`, if one does.
proof fn lemma_first_king_below(b: Squares, c: PieceColor, n: int) -> (r: Option<(int, int)>)
    requires
        within_board(b),
        0 <= n <= 64,
    ensures
        match r {
            Some(k) => is_king_of(b, k, c) && cell_index(k) < n && forall|q: (int, int)|
                is_king_of(b, q, c) ==> cell_index(k) <= cell_index(q),
            None => forall|q: (int, int)| is_king_of(b, q, c) ==> cell_index(q) >= n,
        },
    decreases n,
{
    if n == 0 {
        None
    } else {
        match lemma_first_king_below(b, c, n - 1) {
            Some(k) => Some(k),
            None => {
                let p = ((n - 1) % 8, (n - 1) / 8);
                assert forall|q: (int, int)| on_board(q) && cell_index(q) == n - 1 implies q
                    == p by {}
                if is_king_of(b, p, c) {
                    Some(p)
                } else {
                    None
                }
            },
        }
    }
}

/// The king's square holds the king of its colour, and no king of that
/// colour stands on a square before it in rank-major order; where there is
/// no king's square, there is no king.
pub proof fn lemma_king_square(b: Squares, c: PieceColor)
    requires
        within_board(b),
    ensures
        match king_square(b, c) {
            Some(k) => is_king_of(b, k, c) && forall|q: (int, int)|
                is_king_of(b, q, c) ==> cell_index(k) <= cell_index(q),
            None => forall|q: (int, int)| !is_king_of(b, q, c),
        },
{
    match lemma_first_king_below(b, c, 64) {
        Some(k) => {},
        None => {
            assert forall|q: (int, int)| !is_king_of(b, q, c) by {
                if is_king_of(b, q, c) {
                    assert(on_board(q));
                }
            }
        },
    }
}

/// A king before which no king of its colour stands is on the king's square.
pub proof fn lemma_first_king_is_king_square(b: Squares, c: PieceColor, k: (int, int))
    requires
        within_board(b),
        is_king_of(b, k, c),
        forall|q: (int, int)| is_king_of(b, q, c) ==> cell_index(k) <= cell_index(q),
    ensures
        king_square(b, c) == Some(k),
{
    lemma_king_square(b, c);
    let found = king_square(b, c)->0;
    assert(on_board(found) && on_board(k));
    assert(cell_index(found) == cell_index(k));
}

/// A move of a piece other than the king that neither takes nor passes the
/// king leaves the king's square where it was.
proof fn lemma_king_stays(b: Squares, from: (int, int), to: (int, int), c: PieceColor)
    requires
        within_board(b),
        king_square(b, c) is Some,
        b.dom().contains(from),
        b[from].kind != PieceType::King,
        on_board(to),
        Some(to) != king_square(b, c),
        is_en_passant(b, from, to) ==> Some((to.0, from.1)) != king_square(b, c),
    ensures
        within_board(simulate(b, from, to)),
        king_square(simulate(b, from, to), c) == king_square(b, c),
{
    lemma_king_square(b, c);
    let k = king_square(b, c)->0;
    let after = simulate(b, from, to);
    assert(is_king_of(after, k, c));
    assert forall|q: (int, int)| is_king_of(after, q, c) implies cell_index(k) <= cell_index(q) by {
        assert(is_king_of(b, q, c));
    }
    lemma_first_king_is_king_square(after, c, k);
}

/// Moving the guard away is self-check. Where a piece of the other colour
/// attacks the king's square `k` once the mover is lifted from the board,
/// every move of the mover is self-check, unless it takes that piece, or
/// passes it en passant, or ends on a square between a sliding attacker and
/// the king. The mover is not the king, and the move neither takes nor
/// passes the king.
pub proof fn lemma_lifting_the_guard_is_self_check(
    b: Squares,
    from: (int, int),
    to: (int, int),
    c: PieceColor,
    k: (int, int),
    attacker: (int, int),
)
    requires
        within_board(b),
        king_square(b, c) == Some(k),
        friend_at(b, from, c),
        b[from].kind != PieceType::King,
        on_board(to),
        to != k,
        is_en_passant(b, from, to) ==> (to.0, from.1) != k,
        enemy_at(b, attacker, c),
        attacks(b.remove(from), attacker, k),
        to != attacker,
        is_en_passant(b, from, to) ==> (to.0, from.1) != attacker,
        forall|j: int|
            0 < j < span(attacker, k) ==> to != #[trigger] ray_square(
                attacker,
                sign(k.0 - attacker.0),
                sign(k.1 - attacker.1),
                j,
            ),
    ensures
        self_check(b, from, to, c),
{
    let lifted = b.remove(from);
    let after = simulate(b, from, to);
    lemma_king_stays(b, from, to, c);
    lemma_king_square(b, c);
    assert(after.dom().contains(attacker) && after[attacker] == b[attacker]);
    assert(after.dom().contains(k) && after[k] == b[k]);
    let kind = b[attacker].kind;
    if kind != PieceType::Pawn && kind != PieceType::King && kind != PieceType::Knight {
        assert(path_clear(lifted, attacker, k));
        assert forall|j: int| 0 < j < span(attacker, k) implies empty_at(
            after,
            #[trigger] ray_square(attacker, sign(k.0 - attacker.0), sign(k.1 - attacker.1), j),
        ) by {
            let q = ray_square(attacker, sign(k.0 - attacker.0), sign(k.1 - attacker.1), j);
            assert(empty_at(lifted, q));
        }
        assert(path_clear(after, attacker, k));
    }
    assert(friend_at(after, attacker, c.other()) && attacks(after, attacker, k));
}

/// Taking the attacker is no self-check. Where no piece of the other colour
/// but the one on `to` attacks the king's square `k`, also once the mover is
/// lifted from the board, the capture on `to` by a piece other than the king
/// leaves the king unattacked.
pub proof fn lemma_taking_the_attacker_is_no_self_check(
    b: Squares,
    from: (int, int),
    to: (int, int),
    c: PieceColor,
    k: (int, int),
)
    requires
        within_board(b),
        king_square(b, c) == Some(k),
        friend_at(b, from, c),
        b[from].kind != PieceType::King,
        enemy_at(b, to, c),
        forall|p: (int, int)|
            enemy_at(b, p, c) && p != to ==> !#[trigger] attacks(b.remove(from), p, k),
    ensures
        !self_check(b, from, to, c),
{
    let lifted = b.remove(from);
    let after = simulate(b, from, to);
    lemma_king_square(b, c);
    lemma_king_stays(b, from, to, c);
    assert forall|p: (int, int)| friend_at(after, p, c.other()) implies !attacks(after, p, k) by {
        assert(enemy_at(b, p, c) && p != to);
        assert(!attacks(lifted, p, k));
        assert(after[p] == lifted[p]);
        assert(friend_at(after, k, b[p].color) == friend_at(lifted, k, b[p].color));
        if path_clear(after, p, k) {
            assert forall|j: int| 0 < j < span(p, k) implies empty_at(
                lifted,
                #[trigger] ray_square(p, sign(k.0 - p.0), sign(k.1 - p.1), j),
            ) by {
                let q = ray_square(p, sign(k.0 - p.0), sign(k.1 - p.1), j);
                assert(empty_at(after, q));
            }
            assert(path_clear(lifted, p, k));
        }
    }
}

// Legal moves and the status.

/// The list of the legal destinations of a piece is empty exactly when the
/// piece has no legal move.
pub proof fn lemma_empty_list_means_no_legal_move(
    moves: Seq<GridPosition>,
    b: Squares,
    from: (int, int),
)
    requires
        lists_exactly(moves, legal_destinations(b, from)),
    ensures
        moves.len() == 0 <==> forall|to: (int, int)| !legal(b, from, to),
{
    if moves.len() > 0 {
        assert(legal_destinations(b, from).contains(moves[0]@));
    } else {
        assert forall|to: (int, int)| !legal(b, from, to) by {
            if legal(b, from, to) {
                assert(to == square(to)@);
                assert(legal_destinations(b, from).contains(square(to)@));
                assert(moves.contains(square(to)));
            }
        }
    }
}

/// The status tells checkmate from stalemate by the king: a side without a
/// legal move is checkmated if its king is attacked and stalemated if not.
pub proof fn lemma_status_cases(b: Squares, turn: PieceColor)
    ensures
        status_of(b, turn) == GameStatus::Checkmate(turn.other()) <==> !has_legal_move(b, turn)
            && in_check(b, turn),
        status_of(b, turn) == GameStatus::Stalemate <==> !has_legal_move(b, turn) && !in_check(
            b,
            turn,
        ),
        status_of(b, turn) == GameStatus::Check(turn) <==> has_legal_move(b, turn) && in_check(
            b,
            turn,
        ),
        status_of(b, turn) == GameStatus::InProgress <==> has_legal_move(b, turn) && !in_check(
            b,
            turn,
        ),
{
}

// Moves made.

/// What a move takes off the board: the occupant of the destination, or the
/// pawn that is passed when the capture is en passant.
pub open spec fn captures(b: Squares, from: (int, int), to: (int, int)) -> bool {
    b.dom().contains(to) || is_en_passant(b, from, to)
}

/// A move takes one piece off the board if it captures and none if it does
/// not; it takes the moving piece from its square to its destination; when it
/// castles it also takes the rook from its corner to the square that the
/// king crossed; and it leaves every other square as it was, double-jump
/// flags aside.
pub proof fn lemma_move_relocates_one_piece(b: Squares, from: (int, int), to: (int, int))
    requires
        within_board(b),
        pseudo_legal(b, from, to),
    ensures
        b.dom().finite(),
        apply_move(b, from, to).dom().finite(),
        apply_move(b, from, to).dom().len() == b.dom().len() - if captures(b, from, to) {
            1int
        } else {
            0int
        },
        !apply_move(b, from, to).dom().contains(from),
        apply_move(b, from, to).dom().contains(to),
        apply_move(b, from, to)[to] == settled(b[from], from, to),
        is_castling(b, from, to) ==> {
            let (corner, landing) = rook_route(from, to);
            &&& !apply_move(b, from, to).dom().contains(corner)
            &&& apply_move(b, from, to).dom().contains(landing)
            &&& apply_move(b, from, to)[landing] == (Piece {
                is_first_move: false,
                just_double_jumped: false,
                ..b[corner]
            })
        },
        forall|p: (int, int)|
            p != from && p != to && !(is_en_passant(b, from, to) && p == (to.0, from.1)) && !(
            is_castling(b, from, to) && (p == rook_route(from, to).0 || p == rook_route(
                from,
                to,
            ).1)) ==> #[trigger] lookup(apply_move(b, from, to), p) == lookup(without_flags(b), p),
{
    lemma_board_is_finite(b);
    let cleared = if is_en_passant(b, from, to) {
        b.remove(to).remove((to.0, from.1))
    } else {
        b.remove(to)
    };
    let lifted = cleared.remove(from);
    let moved = lifted.insert(to, cleared[from]);
    assert(simulate(b, from, to) == moved);
    let placed = without_flags(moved).insert(to, settled(b[from], from, to));
    assert(placed.dom() =~= moved.dom());
    assert(cleared.dom().len() == b.dom().len() - if captures(b, from, to) {
        1int
    } else {
        0int
    });
    assert(lifted.dom().len() == cleared.dom().len() - 1);
    assert(moved.dom().len() == cleared.dom().len());
    if is_castling(b, from, to) {
        let (corner, landing) = rook_route(from, to);
        assert(placed.dom().contains(corner));
        assert(!placed.dom().contains(landing));
        assert(placed.remove(corner).dom().len() == placed.dom().len() - 1);
    }
}

/// After any move at most one piece is flagged as having just advanced two
/// ranks: the piece that moved, and only if it is a pawn that advanced two
/// ranks.
pub proof fn lemma_move_keeps_single_double_jump(b: Squares, from: (int, int), to: (int, int))
    requires
        b.dom().contains(from),
    ensures
        forall|p: (int, int)|
            apply_move(b, from, to).dom().contains(p) && (#[trigger] apply_move(
                b,
                from,
                to,
            )[p]).just_double_jumped ==> p == to && b[from].kind == PieceType::Pawn && magnitude(
                to.1 - from.1,
            ) == 2,
        single_double_jump(apply_move(b, from, to)),
{
}

/// No piece of the starting position is flagged as having just advanced two
/// ranks.
pub proof fn lemma_start_has_no_double_jump()
    ensures
        forall|p: (int, int)|
            starting_position().dom().contains(p) ==> !(
            #[trigger] starting_position()[p]).just_double_jumped,
        single_double_jump(starting_position()),
{
}

/// A legal move leaves the mover's king unattacked on the board as it stands
/// once the move is made, with flags cleared, a pawn promoted on the far rank
/// and the rook gone along when the king castles.
pub proof fn lemma_legal_move_leaves_king_safe(b: Squares, from: (int, int), to: (int, int))
    requires
        within_board(b),
        legal(b, from, to),
    ensures
        !in_check(apply_move(b, from, to), b[from].color),
{
    let c = b[from].color;
    let tried = simulate(b, from, to);
    let made = apply_move(b, from, to);
    let (corner, landing) = rook_route(from, to);
    let castles = is_castling(b, from, to);
    assert(on_board(to));
    assert(within_board(tried));
    assert(within_board(made));
    assert forall|p: (int, int)| is_king_of(made, p, c) == is_king_of(tried, p, c) by {}
    lemma_king_square(tried, c);
    lemma_king_square(made, c);
    match king_square(tried, c) {
        None => {},
        Some(k) => {
            lemma_first_king_is_king_square(made, c, k);
            assert forall|p: (int, int)| friend_at(made, p, c.other()) implies !attacks(
                made,
                p,
                k,
            ) by {
                assert(friend_at(tried, p, c.other()) && tried[p].kind == made[p].kind);
                assert(!attacks(tried, p, k));
                assert(friend_at(made, k, made[p].color) == friend_at(tried, k, tried[p].color));
                if slides_along(made[p].kind, p, k) && path_clear(made, p, k) {
                    lemma_slide_is_ray(made[p].kind, p, k);
                    assert forall|j: int| 0 < j < span(p, k) implies empty_at(
                        tried,
                        #[trigger] ray_square(p, sign(k.0 - p.0), sign(k.1 - p.1), j),
                    ) by {
                        let q = ray_square(p, sign(k.0 - p.0), sign(k.1 - p.1), j);
                        assert(empty_at(made, q));
                        assert(on_board(p) && on_board(k));
                        if castles {
                            assert(q != corner);
                        }
                    }
                    assert(path_clear(tried, p, k));
                }
            }
        },
    }
}

// The game.

/// Whatever square is activated, a game in which at most one piece is
/// flagged as having just advanced two ranks stays such a game.
pub proof fn lemma_activation_keeps_single_double_jump(g: GameView, sq: (int, int))
    requires
        single_double_jump(g.board),
    ensures
        single_double_jump(activate_step(g, sq).0.board),
{
    match g.selection {
        Some(selected) => {
            if selected != sq && legal(g.board, selected, sq) {
                lemma_move_keeps_single_double_jump(g.board, selected, sq);
            }
        },
        None => {},
    }
}

/// After every activation the selected square, if there is one, holds a
/// piece of the side to move.
pub proof fn lemma_selection_is_own_piece(g: GameView, sq: (int, int))
    ensures
        activate_step(g, sq).0.selection matches Some(selected) ==> friend_at(
            activate_step(g, sq).0.board,
            selected,
            activate_step(g, sq).0.turn,
        ),
{
}

/// The turn passes exactly when a move is made, and only then do the board
/// and the move log change; the log then grows by the one line reported.
pub proof fn lemma_turn_passes_with_each_move(g: GameView, sq: (int, int))
    ensures
        activate_step(g, sq).1 is Moved ==> activate_step(g, sq).0.turn == g.turn.other()
            && activate_step(g, sq).0.history.len() == g.history.len() + 1,
        !(activate_step(g, sq).1 is Moved) ==> activate_step(g, sq).0.turn == g.turn
            && activate_step(g, sq).0.board == g.board && activate_step(g, sq).0.history
            == g.history && activate_step(g, sq).0.status == g.status,
{
}

} // verus!
