use chess_rules::board::Board;
use chess_rules::components::{GridPosition, Piece, PieceColor, PieceType};

#[test]
fn place_then_get_returns_the_piece() {
    let mut board = Board::empty();
    let rook = Piece::new(PieceColor::White, PieceType::Rook);
    assert!(board.place(GridPosition::new(0, 0), rook));
    assert_eq!(board.get_piece_at(0, 0), Some(rook));
    assert_eq!(board.get_piece_at(1, 0), None);
}

#[test]
fn place_outside_the_board_is_refused() {
    let mut board = Board::empty();
    let rook = Piece::new(PieceColor::White, PieceType::Rook);
    assert!(!board.place(GridPosition::new(8, 0), rook));
    assert!(!board.place(GridPosition::new(0, 8), rook));
    assert_eq!(board, Board::empty());
    assert_eq!(board.get_piece_at(8, 0), None);
}

#[test]
fn remove_returns_the_occupant_and_empties_the_square() {
    let mut board = Board::empty();
    let knight = Piece::new(PieceColor::Black, PieceType::Knight);
    board.place(GridPosition::new(3, 4), knight);
    assert_eq!(board.remove(GridPosition::new(3, 4)), Some(knight));
    assert_eq!(board.remove(GridPosition::new(3, 4)), None);
    assert_eq!(board.remove(GridPosition::new(9, 9)), None);
    assert_eq!(board, Board::empty());
}

#[test]
fn place_replaces_the_occupant() {
    let mut board = Board::empty();
    let rook = Piece::new(PieceColor::White, PieceType::Rook);
    let queen = Piece::new(PieceColor::Black, PieceType::Queen);
    board.place(GridPosition::new(2, 2), rook);
    board.place(GridPosition::new(2, 2), queen);
    assert_eq!(board.get_piece_at(2, 2), Some(queen));
    assert_eq!(board.pieces(), vec![(GridPosition::new(2, 2), queen)]);
}

#[test]
fn the_starting_position_has_the_standard_setup() {
    let board = Board::initial();
    let back = [
        PieceType::Rook,
        PieceType::Knight,
        PieceType::Bishop,
        PieceType::Queen,
        PieceType::King,
        PieceType::Bishop,
        PieceType::Knight,
        PieceType::Rook,
    ];
    for x in 0..8u32 {
        let kind = back[x as usize];
        assert_eq!(board.get_piece_at(x, 0), Some(Piece::new(PieceColor::White, kind)));
        assert_eq!(
            board.get_piece_at(x, 1),
            Some(Piece::new(PieceColor::White, PieceType::Pawn))
        );
        assert_eq!(
            board.get_piece_at(x, 6),
            Some(Piece::new(PieceColor::Black, PieceType::Pawn))
        );
        assert_eq!(board.get_piece_at(x, 7), Some(Piece::new(PieceColor::Black, kind)));
        for y in 2..6 {
            assert_eq!(board.get_piece_at(x, y), None);
        }
    }
    assert_eq!(board.pieces().len(), 32);
}

#[test]
fn pieces_lists_in_rank_major_order() {
    let mut board = Board::empty();
    let pawn = Piece::new(PieceColor::White, PieceType::Pawn);
    board.place(GridPosition::new(5, 3), pawn);
    board.place(GridPosition::new(0, 4), pawn);
    board.place(GridPosition::new(7, 0), pawn);
    let keys: Vec<(u32, u32)> = board.pieces().iter().map(|(p, _)| (p.x, p.y)).collect();
    assert_eq!(keys, vec![(7, 0), (5, 3), (0, 4)]);
    assert!(Board::empty().pieces().is_empty());
}

#[test]
fn clear_double_jumps_clears_every_flag_and_nothing_else() {
    let mut board = Board::empty();
    let jumped = Piece {
        color: PieceColor::Black,
        kind: PieceType::Pawn,
        is_first_move: false,
        just_double_jumped: true,
    };
    let rook = Piece::new(PieceColor::White, PieceType::Rook);
    board.place(GridPosition::new(1, 4), jumped);
    board.place(GridPosition::new(6, 3), jumped);
    board.place(GridPosition::new(0, 0), rook);
    board.clear_double_jumps();
    let calm = Piece { just_double_jumped: false, ..jumped };
    assert_eq!(board.get_piece_at(1, 4), Some(calm));
    assert_eq!(board.get_piece_at(6, 3), Some(calm));
    assert_eq!(board.get_piece_at(0, 0), Some(rook));
    assert_eq!(board.pieces().len(), 3);
}

#[test]
fn colours_and_squares() {
    assert_eq!(PieceColor::White.opponent(), PieceColor::Black);
    assert_eq!(PieceColor::Black.opponent(), PieceColor::White);
    assert!(GridPosition::new(7, 7).is_on_board());
    assert!(!GridPosition::new(8, 0).is_on_board());
    assert!(!GridPosition::new(0, 8).is_on_board());
    let piece = Piece::new(PieceColor::Black, PieceType::Bishop);
    assert!(piece.is_first_move);
    assert!(!piece.just_double_jumped);
    assert_eq!(piece.color, PieceColor::Black);
    assert_eq!(piece.kind, PieceType::Bishop);
}

#[test]
fn from_pieces_takes_the_first_entry_for_a_square() {
    let rook = Piece::new(PieceColor::White, PieceType::Rook);
    let queen = Piece::new(PieceColor::Black, PieceType::Queen);
    let pawn = Piece::new(PieceColor::Black, PieceType::Pawn);
    let list = vec![
        (GridPosition::new(2, 2), rook),
        (GridPosition::new(2, 2), queen),
        (GridPosition::new(5, 1), pawn),
        (GridPosition::new(2, 2), pawn),
    ];
    let board = Board::from_pieces(&list);
    assert_eq!(board.get_piece_at(2, 2), Some(rook));
    assert_eq!(board.get_piece_at(5, 1), Some(pawn));
    assert_eq!(board.pieces().len(), 2);
}

#[test]
fn from_pieces_passes_over_squares_outside_the_board() {
    let rook = Piece::new(PieceColor::White, PieceType::Rook);
    let list = vec![
        (GridPosition::new(8, 2), rook),
        (GridPosition::new(2, 8), rook),
        (GridPosition::new(7, 7), rook),
    ];
    let board = Board::from_pieces(&list);
    assert_eq!(board.pieces(), vec![(GridPosition::new(7, 7), rook)]);
    assert_eq!(Board::from_pieces(&Vec::new()), Board::empty());
}

#[test]
fn a_board_is_made_again_from_the_list_of_its_pieces() {
    let start = Board::initial();
    assert_eq!(Board::from_pieces(&start.pieces()), start);
    let mut board = Board::empty();
    board.place(GridPosition::new(3, 3), Piece::new(PieceColor::Black, PieceType::King));
    board.place(GridPosition::new(0, 7), Piece::new(PieceColor::White, PieceType::Pawn));
    assert_eq!(Board::from_pieces(&board.pieces()), board);
}
