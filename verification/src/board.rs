//! The board: which piece, if any, stands on each of the sixty-four squares.

use vstd::prelude::*;
use crate::components::{GridPosition, Piece, PieceColor, PieceType};

verus! {

/// The mathematical board: a map from (file, rank) to the piece standing there.
pub type Squares = Map<(int, int), Piece>;

pub open spec fn on_board(p: (int, int)) -> bool {
    0 <= p.0 < 8 && 0 <= p.1 < 8
}

/// Every occupied square is one of the sixty-four.
pub open spec fn within_board(b: Squares) -> bool {
    forall|p: (int, int)| #[trigger] b.dom().contains(p) ==> on_board(p)
}

/// The occupant of a square, if there is one.
pub open spec fn lookup(b: Squares, p: (int, int)) -> Option<Piece> {
    if b.dom().contains(p) {
        Some(b[p])
    } else {
        None
    }
}

/// The position of a square in rank-major order.
pub open spec fn cell_index(p: (int, int)) -> int {
    p.1 * 8 + p.0
}

/// The kind of piece that starts on the given file of a back rank.
pub open spec fn back_rank_kind(file: int) -> PieceType {
    if file == 0 || file == 7 {
        PieceType::Rook
    } else if file == 1 || file == 6 {
        PieceType::Knight
    } else if file == 2 || file == 5 {
        PieceType::Bishop
    } else if file == 3 {
        PieceType::Queen
    } else {
        PieceType::King
    }
}

/// The piece that starts on a square of the first two or last two ranks.
pub open spec fn starting_piece(p: (int, int)) -> Piece {
    Piece {
        color: if p.1 <= 1 {
            PieceColor::White
        } else {
            PieceColor::Black
        },
        kind: if p.1 == 1 || p.1 == 6 {
            PieceType::Pawn
        } else {
            back_rank_kind(p.0)
        },
        is_first_move: true,
        just_double_jumped: false,
    }
}

/// The standard starting position of thirty-two pieces.
pub open spec fn starting_position() -> Squares {
    Map::new(
        |p: (int, int)| on_board(p) && (p.1 <= 1 || p.1 >= 6),
        |p: (int, int)| starting_piece(p),
    )
}

/// The board `b` with the double-jump flag of every piece cleared.
pub open spec fn without_flags(b: Squares) -> Squares {
    Map::new(
        |p: (int, int)| b.dom().contains(p),
        |p: (int, int)| Piece { just_double_jumped: false, ..b[p] },
    )
}

/// The list `v` names every occupied square of `b` once, each with its
/// occupant, in rank-major order, and nothing else.
pub open spec fn lists_pieces(v: Seq<(GridPosition, Piece)>, b: Squares) -> bool {
    &&& forall|i: int| 0 <= i < v.len() ==> lookup(b, (#[trigger] v[i]).0@) == Some(v[i].1)
    &&& forall|i: int, j: int|
        0 <= i < j < v.len() ==> cell_index((#[trigger] v[i]).0@) < cell_index(
            (#[trigger] v[j]).0@,
        )
    &&& forall|p: (int, int)|
        b.dom().contains(p) ==> exists|i: int| 0 <= i < v.len() && (#[trigger] v[i]).0@ == p
}

/// Entry `i` of the list is the first that names its square.
pub open spec fn is_first_entry(list: Seq<(GridPosition, Piece)>, i: int) -> bool {
    &&& 0 <= i < list.len()
    &&& forall|j: int| 0 <= j < i ==> (#[trigger] list[j]).0@ != list[i].0@
}

/// What a list of pieces puts on square `p`: the piece of the first entry
/// that names `p`, and nothing where no entry does.
pub open spec fn first_entry(list: Seq<(GridPosition, Piece)>, p: (int, int)) -> Option<Piece> {
    if exists|i: int| is_first_entry(list, i) && list[i].0@ == p {
        Some(list[choose|i: int| is_first_entry(list, i) && list[i].0@ == p].1)
    } else {
        None
    }
}

/// The board that a list of pieces describes: each square of the board
/// holds what the first entry that names it puts there.
pub open spec fn described(list: Seq<(GridPosition, Piece)>) -> Squares {
    Map::new(
        |p: (int, int)| on_board(p) && first_entry(list, p) is Some,
        |p: (int, int)| first_entry(list, p)->0,
    )
}

/// Sixty-four cells in rank-major order. The square is the key; no piece
/// records where it stands.
#[derive(Clone, Copy, Debug, PartialEq, Eq)]
pub struct Board {
    cells: [Option<Piece>; 64],
}

/// The kind of piece that starts on the given file of a back rank.
pub fn back_rank_piece(file: u32) -> (kind: PieceType)
    ensures
        kind == back_rank_kind(file as int),
{
    if file == 0 || file == 7 {
        PieceType::Rook
    } else if file == 1 || file == 6 {
        PieceType::Knight
    } else if file == 2 || file == 5 {
        PieceType::Bishop
    } else if file == 3 {
        PieceType::Queen
    } else {
        PieceType::King
    }
}

/// Where an entry of a list names a square, a first entry names it.
proof fn lemma_first_entry_exists(list: Seq<(GridPosition, Piece)>, j: int)
    requires
        0 <= j < list.len(),
    ensures
        first_entry(list, list[j].0@) is Some,
    decreases j,
{
    if exists|k: int| 0 <= k < j && (#[trigger] list[k]).0@ == list[j].0@ {
        let k = choose|k: int| 0 <= k < j && (#[trigger] list[k]).0@ == list[j].0@;
        lemma_first_entry_exists(list, k);
    } else {
        assert(is_first_entry(list, j));
    }
}

impl View for Board {
    type V = Squares;

    closed spec fn view(&self) -> Squares {
        Map::new(
            |p: (int, int)| on_board(p) && self.cells@[cell_index(p)] is Some,
            |p: (int, int)| self.cells@[cell_index(p)]->0,
        )
    }
}

impl Board {
    /// A board's view never holds a square outside the board.
    pub proof fn lemma_within_board(self)
        ensures
            within_board(self@),
    {
    }

    /// A board with no piece on it.
    pub fn empty() -> (board: Board)
        ensures
            board@ == Map::<(int, int), Piece>::empty(),
    {
        let board = Board { cells: [None; 64] };
        assert(board@ =~= Map::<(int, int), Piece>::empty());
        board
    }

    /// The standard starting position: on each side eight pawns on the second
    /// rank and rook, knight, bishop, queen, king, bishop, knight, rook behind
    /// them, none of which has moved.
    pub fn initial() -> (board: Board)
        ensures
            board@ == starting_position(),
    {
        let mut board = Board::empty();
        let mut file: u32 = 0;
        while file < 8
            invariant
                file <= 8,
                board@ == Map::new(
                    |p: (int, int)| on_board(p) && p.0 < file && (p.1 <= 1 || p.1 >= 6),
                    |p: (int, int)| starting_piece(p),
                ),
            decreases 8 - file,
        {
            let kind = back_rank_piece(file);
            board.place(GridPosition::new(file, 0), Piece::new(PieceColor::White, kind));
            board.place(GridPosition::new(file, 1), Piece::new(PieceColor::White, PieceType::Pawn));
            board.place(GridPosition::new(file, 6), Piece::new(PieceColor::Black, PieceType::Pawn));
            board.place(GridPosition::new(file, 7), Piece::new(PieceColor::Black, kind));
            file += 1;
            assert(board@ =~= Map::new(
                |p: (int, int)| on_board(p) && p.0 < file && (p.1 <= 1 || p.1 >= 6),
                |p: (int, int)| starting_piece(p),
            ));
        }
        assert(board@ =~= starting_position());
        board
    }

    /// The board that a list of pieces describes. Where two entries name one
    /// square the first counts, and an entry that names a square outside the
    /// board is passed over.
    pub fn from_pieces(list: &Vec<(GridPosition, Piece)>) -> (board: Board)
        ensures
            board@ == described(list@),
    {
        let mut board = Board::empty();
        let mut i: usize = 0;
        while i < list.len()
            invariant
                i <= list.len(),
                forall|p: (int, int)|
                    #[trigger] lookup(board@, p) == if on_board(p) {
                        first_entry(list@.take(i as int), p)
                    } else {
                        None
                    },
            decreases list.len() - i,
        {
            let (pos, piece) = list[i];
            let ghost before = board@;
            let ghost seen = list@.take(i as int);
            let ghost now = list@.take(i + 1);
            if board.get_piece_at(pos.x, pos.y).is_none() {
                board.place(pos, piece);
            }
            proof {
                board.lemma_within_board();
                assert forall|p: (int, int)| on_board(p) implies #[trigger] lookup(board@, p)
                    == first_entry(now, p) by {
                    assert(lookup(before, p) == first_entry(seen, p));
                    assert forall|k: int| 0 <= k < i implies is_first_entry(now, k)
                        == is_first_entry(seen, k) by {
                        assert forall|j: int| 0 <= j < k implies #[trigger] now[j] == seen[j] by {}
                        assert(now[k] == seen[k]);
                    }
                    if first_entry(seen, p) is Some {
                        let k = choose|k: int| is_first_entry(seen, k) && seen[k].0@ == p;
                        assert(is_first_entry(now, k) && now[k].0@ == p);
                        let m = choose|m: int| is_first_entry(now, m) && now[m].0@ == p;
                        assert(m == k) by {
                            if m < k {
                                assert(now[m].0@ != now[k].0@);
                            } else if k < m {
                                assert(now[k].0@ != now[m].0@);
                            }
                        }
                    } else if pos@ == p {
                        assert forall|j: int| 0 <= j < i implies (#[trigger] now[j]).0@ != p by {
                            if now[j].0@ == p {
                                lemma_first_entry_exists(seen, j);
                            }
                        }
                        assert(is_first_entry(now, i as int) && now[i as int].0@ == p);
                        let m = choose|m: int| is_first_entry(now, m) && now[m].0@ == p;
                        assert(m == i);
                    } else {
                        if first_entry(now, p) is Some {
                            let m = choose|m: int| is_first_entry(now, m) && now[m].0@ == p;
                            assert(m < i);
                            assert(is_first_entry(seen, m) && seen[m].0@ == p);
                        }
                    }
                }
            }
            i += 1;
        }
        proof {
            assert(list@.take(list@.len() as int) == list@);
            assert forall|p: (int, int)| board@.dom().contains(p) == described(
                list@,
            ).dom().contains(p) by {
                assert(lookup(board@, p) is Some == board@.dom().contains(p));
            }
            assert forall|p: (int, int)| board@.dom().contains(p) implies board@[p] == described(
                list@,
            )[p] by {
                assert(lookup(board@, p) == Some(board@[p]));
            }
            assert(board@ =~= described(list@));
        }
        board
    }

    /// The occupant of the square at file `x` and rank `y`; `None` for an empty
    /// square and for coordinates outside the board.
    pub fn get_piece_at(&self, x: u32, y: u32) -> (r: Option<Piece>)
        ensures
            r == lookup(self@, (x as int, y as int)),
    {
        if x < 8 && y < 8 {
            let idx: usize = (y * 8 + x) as usize;
            self.cells[idx]
        } else {
            None
        }
    }

    /// Puts `piece` on `pos`, replacing whatever stood there. A square outside
    /// the board is refused and the board stays as it was.
    pub fn place(&mut self, pos: GridPosition, piece: Piece) -> (ok: bool)
        ensures
            ok == on_board(pos@),
            ok ==> final(self)@ == old(self)@.insert(pos@, piece),
            !ok ==> final(self)@ == old(self)@,
    {
        if pos.x < 8 && pos.y < 8 {
            let idx: usize = (pos.y * 8 + pos.x) as usize;
            self.cells[idx] = Some(piece);
            proof {
                assert forall|p: (int, int)| on_board(p) && cell_index(p) == idx as int implies p
                    == pos@ by {}
                assert(self@ =~= old(self)@.insert(pos@, piece));
            }
            true
        } else {
            false
        }
    }

    /// Takes the occupant of `pos` off the board and returns it.
    pub fn remove(&mut self, pos: GridPosition) -> (r: Option<Piece>)
        ensures
            r == lookup(old(self)@, pos@),
            final(self)@ == old(self)@.remove(pos@),
    {
        if pos.x < 8 && pos.y < 8 {
            let idx: usize = (pos.y * 8 + pos.x) as usize;
            let r = self.cells[idx];
            self.cells[idx] = None;
            proof {
                assert forall|p: (int, int)| on_board(p) && cell_index(p) == idx as int implies p
                    == pos@ by {}
                assert(self@ =~= old(self)@.remove(pos@));
            }
            r
        } else {
            proof {
                assert(self@ =~= old(self)@.remove(pos@));
            }
            None
        }
    }

    /// Every piece on the board with the square it stands on, in rank-major
    /// order.
    pub fn pieces(&self) -> (list: Vec<(GridPosition, Piece)>)
        ensures
            lists_pieces(list@, self@),
    {
        let mut list: Vec<(GridPosition, Piece)> = Vec::new();
        let mut idx: usize = 0;
        while idx < 64
            invariant
                idx <= 64,
                forall|i: int|
                    0 <= i < list@.len() ==> lookup(self@, (#[trigger] list@[i]).0@) == Some(
                        list@[i].1,
                    ) && cell_index(list@[i].0@) < idx,
                forall|i: int, j: int|
                    0 <= i < j < list@.len() ==> cell_index((#[trigger] list@[i]).0@) < cell_index(
                        (#[trigger] list@[j]).0@,
                    ),
                forall|p: (int, int)|
                    self@.dom().contains(p) && cell_index(p) < idx ==> exists|i: int|
                        0 <= i < list@.len() && (#[trigger] list@[i]).0@ == p,
            decreases 64 - idx,
        {
            let pos = GridPosition::new((idx % 8) as u32, (idx / 8) as u32);
            let ghost before = list@;
            if let Some(piece) = self.get_piece_at(pos.x, pos.y) {
                list.push((pos, piece));
            }
            proof {
                assert forall|p: (int, int)|
                    self@.dom().contains(p) && cell_index(p) < idx + 1 implies exists|i: int|
                    0 <= i < list@.len() && (#[trigger] list@[i]).0@ == p by {
                    if cell_index(p) < idx {
                        let i = choose|i: int|
                            0 <= i < before.len() && (#[trigger] before[i]).0@ == p;
                        assert(list@[i].0@ == p);
                    } else {
                        assert(p == pos@);
                        assert(list@[before.len() as int].0@ == p);
                    }
                }
            }
            idx += 1;
        }
        list
    }

    /// Clears the double-jump flag of every piece.
    pub fn clear_double_jumps(&mut self)
        ensures
            final(self)@ == without_flags(old(self)@),
    {
        let mut idx: usize = 0;
        while idx < 64
            invariant
                idx <= 64,
                forall|i: int|
                    0 <= i < 64 ==> #[trigger] self.cells@[i] == if i < idx {
                        match old(self).cells@[i] {
                            Some(piece) => Some(Piece { just_double_jumped: false, ..piece }),
                            None => None,
                        }
                    } else {
                        old(self).cells@[i]
                    },
            decreases 64 - idx,
        {
            if let Some(piece) = self.cells[idx] {
                self.cells[idx] = Some(
                    Piece {
                        color: piece.color,
                        kind: piece.kind,
                        is_first_move: piece.is_first_move,
                        just_double_jumped: false,
                    },
                );
            }
            idx += 1;
        }
        assert(self@ =~= without_flags(old(self)@));
    }
}

} // verus!
