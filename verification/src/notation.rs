//! The move log: one line of text for each move made.

use vstd::prelude::*;
use vstd::string::StringExecFns;
use crate::board::on_board;
use crate::components::{GridPosition, Piece, PieceColor, PieceType};

verus! {

pub open spec fn color_letter(c: PieceColor) -> char {
    match c {
        PieceColor::White => 'W',
        PieceColor::Black => 'B',
    }
}

pub open spec fn piece_letter(k: PieceType) -> char {
    match k {
        PieceType::Pawn => 'P',
        PieceType::Knight => 'N',
        PieceType::Bishop => 'B',
        PieceType::Rook => 'R',
        PieceType::Queen => 'Q',
        PieceType::King => 'K',
    }
}

/// The letter of a file, `a` for file 0 up to `h` for file 7.
pub open spec fn file_letter(x: int) -> char {
    if x == 0 {
        'a'
    } else if x == 1 {
        'b'
    } else if x == 2 {
        'c'
    } else if x == 3 {
        'd'
    } else if x == 4 {
        'e'
    } else if x == 5 {
        'f'
    } else if x == 6 {
        'g'
    } else {
        'h'
    }
}

/// The digit of a rank, `1` for rank 0 up to `8` for rank 7.
pub open spec fn rank_digit(y: int) -> char {
    if y == 0 {
        '1'
    } else if y == 1 {
        '2'
    } else if y == 2 {
        '3'
    } else if y == 3 {
        '4'
    } else if y == 4 {
        '5'
    } else if y == 5 {
        '6'
    } else if y == 6 {
        '7'
    } else {
        '8'
    }
}

/// The record of a move of `piece` from `from` to `to`: the letter of the
/// colour, a colon, the letter of the piece, and the two squares with an
/// arrow between them, as in `W: P e2 -> e4`.
pub open spec fn notation(piece: Piece, from: (int, int), to: (int, int)) -> Seq<char> {
    seq![
        color_letter(piece.color),
        ':',
        ' ',
        piece_letter(piece.kind),
        ' ',
        file_letter(from.0),
        rank_digit(from.1),
        ' ',
        '-',
        '>',
        ' ',
        file_letter(to.0),
        rank_digit(to.1),
    ]
}

fn color_text(c: PieceColor) -> (s: &'static str)
    ensures
        s@ == seq![color_letter(c)],
{
    proof {
        reveal_strlit("W");
        reveal_strlit("B");
    }
    let s = match c {
        PieceColor::White => "W",
        PieceColor::Black => "B",
    };
    assert(s@ =~= seq![color_letter(c)]);
    s
}

fn piece_text(k: PieceType) -> (s: &'static str)
    ensures
        s@ == seq![piece_letter(k)],
{
    proof {
        reveal_strlit("P");
        reveal_strlit("N");
        reveal_strlit("B");
        reveal_strlit("R");
        reveal_strlit("Q");
        reveal_strlit("K");
    }
    let s = match k {
        PieceType::Pawn => "P",
        PieceType::Knight => "N",
        PieceType::Bishop => "B",
        PieceType::Rook => "R",
        PieceType::Queen => "Q",
        PieceType::King => "K",
    };
    assert(s@ =~= seq![piece_letter(k)]);
    s
}

fn file_text(x: u32) -> (s: &'static str)
    requires
        x < 8,
    ensures
        s@ == seq![file_letter(x as int)],
{
    proof {
        reveal_strlit("a");
        reveal_strlit("b");
        reveal_strlit("c");
        reveal_strlit("d");
        reveal_strlit("e");
        reveal_strlit("f");
        reveal_strlit("g");
        reveal_strlit("h");
    }
    let s = if x == 0 {
        "a"
    } else if x == 1 {
        "b"
    } else if x == 2 {
        "c"
    } else if x == 3 {
        "d"
    } else if x == 4 {
        "e"
    } else if x == 5 {
        "f"
    } else if x == 6 {
        "g"
    } else {
        "h"
    };
    assert(s@ =~= seq![file_letter(x as int)]);
    s
}

fn rank_text(y: u32) -> (s: &'static str)
    requires
        y < 8,
    ensures
        s@ == seq![rank_digit(y as int)],
{
    proof {
        reveal_strlit("1");
        reveal_strlit("2");
        reveal_strlit("3");
        reveal_strlit("4");
        reveal_strlit("5");
        reveal_strlit("6");
        reveal_strlit("7");
        reveal_strlit("8");
    }
    let s = if y == 0 {
        "1"
    } else if y == 1 {
        "2"
    } else if y == 2 {
        "3"
    } else if y == 3 {
        "4"
    } else if y == 4 {
        "5"
    } else if y == 5 {
        "6"
    } else if y == 6 {
        "7"
    } else {
        "8"
    };
    assert(s@ =~= seq![rank_digit(y as int)]);
    s
}

/// Writes the record of a move of `piece` from `from` to `to`. Both squares
/// are on the board: only those have a letter and a digit.
pub fn move_notation(piece: &Piece, from: GridPosition, to: GridPosition) -> (text: String)
    requires
        on_board(from@),
        on_board(to@),
    ensures
        text@ == notation(*piece, from@, to@),
{
    proof {
        reveal_strlit(": ");
        reveal_strlit(" ");
        reveal_strlit(" -> ");
    }
    let mut text = String::new();
    text.append(color_text(piece.color));
    text.append(": ");
    text.append(piece_text(piece.kind));
    text.append(" ");
    text.append(file_text(from.x));
    text.append(rank_text(from.y));
    text.append(" -> ");
    text.append(file_text(to.x));
    text.append(rank_text(to.y));
    assert(text@ =~= notation(*piece, from@, to@));
    text
}

} // verus!
