use chess_rules::board::Board;
use chess_rules::components::{GridPosition, Piece, PieceColor, PieceType};
use chess_rules::rules::{contains_square, get_valid_moves, is_valid_move, legal_moves, to_grid_pos};

fn sq(x: u32, y: u32) -> GridPosition {
    GridPosition::new(x, y)
}

fn squares(moves: Vec<GridPosition>) -> Vec<(u32, u32)> {
    let mut list: Vec<(u32, u32)> = moves.iter().map(|p| (p.x, p.y)).collect();
    list.sort();
    list
}

fn sorted(mut list: Vec<(u32, u32)>) -> Vec<(u32, u32)> {
    list.sort();
    list
}

fn piece(color: PieceColor, kind: PieceType) -> Piece {
    Piece::new(color, kind)
}

fn moved(color: PieceColor, kind: PieceType) -> Piece {
    Piece { is_first_move: false, ..Piece::new(color, kind) }
}

fn board_of(pieces: &[((u32, u32), Piece)]) -> Board {
    let mut board = Board::empty();
    for ((x, y), p) in pieces {
        assert!(board.place(sq(*x, *y), *p));
    }
    board
}

const W: PieceColor = PieceColor::White;
const B: PieceColor = PieceColor::Black;

#[test]
fn to_grid_pos_accepts_exactly_the_board() {
    assert_eq!(to_grid_pos(0, 0), Some(sq(0, 0)));
    assert_eq!(to_grid_pos(7, 7), Some(sq(7, 7)));
    assert_eq!(to_grid_pos(3, 5), Some(sq(3, 5)));
    assert_eq!(to_grid_pos(-1, 0), None);
    assert_eq!(to_grid_pos(0, -1), None);
    assert_eq!(to_grid_pos(8, 0), None);
    assert_eq!(to_grid_pos(0, 8), None);
}

#[test]
fn contains_square_finds_what_is_listed() {
    let list = vec![sq(1, 2), sq(3, 4)];
    assert!(contains_square(&list, sq(3, 4)));
    assert!(!contains_square(&list, sq(4, 3)));
    assert!(!contains_square(&Vec::new(), sq(0, 0)));
}

#[test]
fn an_empty_square_has_no_destinations() {
    let board = Board::initial();
    assert!(get_valid_moves(sq(4, 4), &board).is_empty());
    assert!(legal_moves(sq(4, 4), &board).is_empty());
}

#[test]
fn a_square_outside_the_board_has_no_destinations() {
    let board = Board::initial();
    assert!(get_valid_moves(sq(8, 0), &board).is_empty());
    assert!(get_valid_moves(sq(0, 8), &board).is_empty());
    assert!(get_valid_moves(sq(u32::MAX, u32::MAX), &board).is_empty());
    assert!(legal_moves(sq(8, 8), &board).is_empty());
    assert!(!is_valid_move(sq(4, 2), sq(8, 1), &board));
    assert!(!is_valid_move(sq(8, 2), sq(4, 1), &board));
}

#[test]
fn every_destination_is_on_the_board_and_listed_once() {
    let mut boards = vec![Board::initial()];
    boards.push(board_of(&[
        ((0, 0), piece(W, PieceType::Queen)),
        ((7, 7), piece(B, PieceType::Queen)),
        ((0, 7), piece(W, PieceType::Knight)),
        ((7, 0), piece(B, PieceType::King)),
        ((4, 0), piece(W, PieceType::King)),
        ((0, 6), piece(W, PieceType::Pawn)),
        ((7, 1), piece(B, PieceType::Pawn)),
        ((3, 3), piece(W, PieceType::Bishop)),
        ((5, 1), piece(W, PieceType::Pawn)),
    ]));
    for board in boards {
        for x in 0..8 {
            for y in 0..8 {
                let moves = get_valid_moves(sq(x, y), &board);
                for m in &moves {
                    assert!(m.x < 8 && m.y < 8);
                }
                let mut list = squares(moves);
                let before = list.len();
                list.dedup();
                assert_eq!(list.len(), before);
            }
        }
    }
}

#[test]
fn knight_in_the_corner_has_two_jumps() {
    let board = board_of(&[((0, 0), piece(W, PieceType::Knight))]);
    assert_eq!(squares(get_valid_moves(sq(0, 0), &board)), vec![(1, 2), (2, 1)]);
}

#[test]
fn knight_in_the_centre_has_eight_jumps() {
    let board = board_of(&[((3, 3), piece(B, PieceType::Knight))]);
    assert_eq!(
        squares(get_valid_moves(sq(3, 3), &board)),
        sorted(vec![(5, 4), (4, 5), (2, 5), (1, 4), (1, 2), (2, 1), (4, 1), (5, 2)])
    );
}

#[test]
fn knight_takes_enemies_and_not_friends() {
    let board = board_of(&[
        ((0, 0), piece(W, PieceType::Knight)),
        ((1, 2), piece(W, PieceType::Pawn)),
        ((2, 1), piece(B, PieceType::Pawn)),
    ]);
    assert_eq!(squares(get_valid_moves(sq(0, 0), &board)), vec![(2, 1)]);
}

#[test]
fn knight_jumps_over_pieces_at_the_start() {
    let board = Board::initial();
    assert_eq!(squares(get_valid_moves(sq(1, 0), &board)), vec![(0, 2), (2, 2)]);
    assert_eq!(squares(get_valid_moves(sq(6, 7), &board)), vec![(5, 5), (7, 5)]);
}

#[test]
fn rook_on_an_empty_board_reaches_its_file_and_rank() {
    let board = board_of(&[((3, 3), piece(W, PieceType::Rook))]);
    let mut expected = Vec::new();
    for i in 0..8 {
        if i != 3 {
            expected.push((i, 3));
            expected.push((3, i));
        }
    }
    assert_eq!(squares(get_valid_moves(sq(3, 3), &board)), sorted(expected));
}

#[test]
fn rook_ray_stops_at_a_friend_without_taking_it() {
    let board = board_of(&[
        ((0, 0), piece(W, PieceType::Rook)),
        ((0, 3), piece(W, PieceType::Pawn)),
        ((2, 0), piece(W, PieceType::Knight)),
    ]);
    assert_eq!(squares(get_valid_moves(sq(0, 0), &board)), vec![(0, 1), (0, 2), (1, 0)]);
}

#[test]
fn rook_ray_stops_at_an_enemy_and_takes_it() {
    let board = board_of(&[
        ((0, 0), piece(W, PieceType::Rook)),
        ((0, 3), piece(B, PieceType::Pawn)),
        ((0, 5), piece(B, PieceType::Queen)),
        ((2, 0), piece(B, PieceType::Knight)),
        ((3, 0), piece(W, PieceType::Knight)),
    ]);
    assert_eq!(
        squares(get_valid_moves(sq(0, 0), &board)),
        vec![(0, 1), (0, 2), (0, 3), (1, 0), (2, 0)]
    );
}

#[test]
fn bishop_on_an_empty_board_reaches_its_diagonals() {
    let board = board_of(&[((3, 3), piece(B, PieceType::Bishop))]);
    assert_eq!(
        squares(get_valid_moves(sq(3, 3), &board)),
        sorted(vec![
            (0, 0),
            (1, 1),
            (2, 2),
            (4, 4),
            (5, 5),
            (6, 6),
            (7, 7),
            (0, 6),
            (1, 5),
            (2, 4),
            (4, 2),
            (5, 1),
            (6, 0)
        ])
    );
}

#[test]
fn bishop_ray_stops_at_the_first_piece() {
    let board = board_of(&[
        ((2, 0), piece(W, PieceType::Bishop)),
        ((4, 2), piece(B, PieceType::Pawn)),
        ((5, 3), piece(B, PieceType::Pawn)),
        ((1, 1), piece(W, PieceType::Pawn)),
    ]);
    assert_eq!(squares(get_valid_moves(sq(2, 0), &board)), vec![(3, 1), (4, 2)]);
}

#[test]
fn queen_slides_along_lines_and_diagonals() {
    let board = board_of(&[
        ((0, 0), piece(W, PieceType::Queen)),
        ((0, 2), piece(W, PieceType::Pawn)),
        ((2, 2), piece(B, PieceType::Pawn)),
        ((3, 0), piece(B, PieceType::Pawn)),
    ]);
    assert_eq!(
        squares(get_valid_moves(sq(0, 0), &board)),
        vec![(0, 1), (1, 0), (1, 1), (2, 0), (2, 2), (3, 0)]
    );
}

#[test]
fn sliding_pieces_are_shut_in_at_the_start() {
    let board = Board::initial();
    for x in [0, 2, 3, 5, 7] {
        assert!(get_valid_moves(sq(x, 0), &board).is_empty());
        assert!(get_valid_moves(sq(x, 7), &board).is_empty());
    }
}

#[test]
fn white_pawn_steps_up_and_black_pawn_steps_down() {
    let board = board_of(&[
        ((2, 2), moved(W, PieceType::Pawn)),
        ((5, 5), moved(B, PieceType::Pawn)),
    ]);
    assert_eq!(squares(get_valid_moves(sq(2, 2), &board)), vec![(2, 3)]);
    assert_eq!(squares(get_valid_moves(sq(5, 5), &board)), vec![(5, 4)]);
}

#[test]
fn unmoved_pawn_may_step_twice_past_empty_squares() {
    let board = board_of(&[
        ((2, 1), piece(W, PieceType::Pawn)),
        ((5, 6), piece(B, PieceType::Pawn)),
    ]);
    assert_eq!(squares(get_valid_moves(sq(2, 1), &board)), vec![(2, 2), (2, 3)]);
    assert_eq!(squares(get_valid_moves(sq(5, 6), &board)), vec![(5, 4), (5, 5)]);
}

#[test]
fn moved_pawn_may_not_step_twice() {
    let board = board_of(&[((2, 1), moved(W, PieceType::Pawn))]);
    assert_eq!(squares(get_valid_moves(sq(2, 1), &board)), vec![(2, 2)]);
}

#[test]
fn pawn_blocked_on_the_next_square_has_no_step() {
    let board = board_of(&[
        ((2, 1), piece(W, PieceType::Pawn)),
        ((2, 2), piece(B, PieceType::Knight)),
    ]);
    assert!(get_valid_moves(sq(2, 1), &board).is_empty());
    let board = board_of(&[
        ((2, 1), piece(W, PieceType::Pawn)),
        ((2, 2), piece(W, PieceType::Knight)),
    ]);
    assert!(get_valid_moves(sq(2, 1), &board).is_empty());
}

#[test]
fn pawn_blocked_on_the_second_square_has_one_step() {
    let board = board_of(&[
        ((2, 1), piece(W, PieceType::Pawn)),
        ((2, 3), piece(B, PieceType::Knight)),
    ]);
    assert_eq!(squares(get_valid_moves(sq(2, 1), &board)), vec![(2, 2)]);
}

#[test]
fn unmoved_pawn_next_to_the_far_edge_has_no_double_step() {
    let board = board_of(&[((2, 6), piece(W, PieceType::Pawn))]);
    assert_eq!(squares(get_valid_moves(sq(2, 6), &board)), vec![(2, 7)]);
    let board = board_of(&[((2, 7), piece(W, PieceType::Pawn))]);
    assert!(get_valid_moves(sq(2, 7), &board).is_empty());
    let board = board_of(&[((2, 1), piece(B, PieceType::Pawn))]);
    assert_eq!(squares(get_valid_moves(sq(2, 1), &board)), vec![(2, 0)]);
}

#[test]
fn pawn_takes_enemies_diagonally_and_not_friends() {
    let board = board_of(&[
        ((3, 3), moved(W, PieceType::Pawn)),
        ((2, 4), piece(B, PieceType::Rook)),
        ((4, 4), piece(W, PieceType::Rook)),
        ((3, 4), piece(B, PieceType::Rook)),
    ]);
    assert_eq!(squares(get_valid_moves(sq(3, 3), &board)), vec![(2, 4)]);
    let board = board_of(&[
        ((3, 3), moved(B, PieceType::Pawn)),
        ((2, 2), piece(W, PieceType::Rook)),
        ((4, 2), piece(W, PieceType::Knight)),
    ]);
    assert_eq!(squares(get_valid_moves(sq(3, 3), &board)), vec![(2, 2), (3, 2), (4, 2)]);
}

#[test]
fn pawn_on_the_edge_file_takes_only_inside_the_board() {
    let board = board_of(&[
        ((0, 3), moved(W, PieceType::Pawn)),
        ((1, 4), piece(B, PieceType::Rook)),
    ]);
    assert_eq!(squares(get_valid_moves(sq(0, 3), &board)), vec![(0, 4), (1, 4)]);
    let board = board_of(&[
        ((7, 3), moved(B, PieceType::Pawn)),
        ((6, 2), piece(W, PieceType::Rook)),
    ]);
    assert_eq!(squares(get_valid_moves(sq(7, 3), &board)), vec![(6, 2), (7, 2)]);
}

fn flagged(color: PieceColor) -> Piece {
    Piece { is_first_move: false, just_double_jumped: true, ..Piece::new(color, PieceType::Pawn) }
}

#[test]
fn en_passant_is_offered_beside_a_pawn_that_just_jumped() {
    let board = board_of(&[((4, 4), moved(W, PieceType::Pawn)), ((3, 4), flagged(B))]);
    assert_eq!(squares(get_valid_moves(sq(4, 4), &board)), vec![(3, 5), (4, 5)]);
    let board = board_of(&[((4, 3), moved(B, PieceType::Pawn)), ((5, 3), flagged(W))]);
    assert_eq!(squares(get_valid_moves(sq(4, 3), &board)), vec![(4, 2), (5, 2)]);
}

#[test]
fn en_passant_is_not_offered_without_the_flag() {
    let board = board_of(&[
        ((4, 4), moved(W, PieceType::Pawn)),
        ((3, 4), moved(B, PieceType::Pawn)),
    ]);
    assert_eq!(squares(get_valid_moves(sq(4, 4), &board)), vec![(4, 5)]);
}

#[test]
fn en_passant_is_not_offered_beside_a_friend_or_another_kind() {
    let board = board_of(&[((4, 4), moved(W, PieceType::Pawn)), ((3, 4), flagged(W))]);
    assert_eq!(squares(get_valid_moves(sq(4, 4), &board)), vec![(4, 5)]);
    let knight = Piece { just_double_jumped: true, ..moved(B, PieceType::Knight) };
    let board = board_of(&[((4, 4), moved(W, PieceType::Pawn)), ((3, 4), knight)]);
    assert_eq!(squares(get_valid_moves(sq(4, 4), &board)), vec![(4, 5)]);
}

#[test]
fn en_passant_needs_an_empty_target() {
    // The target holds a friend: nothing is offered on that side.
    let board = board_of(&[
        ((4, 4), moved(W, PieceType::Pawn)),
        ((3, 4), flagged(B)),
        ((3, 5), moved(W, PieceType::Knight)),
    ]);
    assert_eq!(squares(get_valid_moves(sq(4, 4), &board)), vec![(4, 5)]);
    // The target holds an enemy: it is an ordinary capture.
    let board = board_of(&[
        ((4, 4), moved(W, PieceType::Pawn)),
        ((3, 4), flagged(B)),
        ((3, 5), moved(B, PieceType::Knight)),
    ]);
    assert_eq!(squares(get_valid_moves(sq(4, 4), &board)), vec![(3, 5), (4, 5)]);
}

#[test]
fn king_steps_to_every_neighbour() {
    let board = board_of(&[((3, 3), moved(W, PieceType::King))]);
    assert_eq!(
        squares(get_valid_moves(sq(3, 3), &board)),
        vec![(2, 2), (2, 3), (2, 4), (3, 2), (3, 4), (4, 2), (4, 3), (4, 4)]
    );
    let board = board_of(&[((0, 7), moved(B, PieceType::King))]);
    assert_eq!(squares(get_valid_moves(sq(0, 7), &board)), vec![(0, 6), (1, 6), (1, 7)]);
}

#[test]
fn king_takes_enemies_and_not_friends() {
    let board = board_of(&[
        ((0, 0), moved(W, PieceType::King)),
        ((0, 1), piece(W, PieceType::Pawn)),
        ((1, 0), piece(B, PieceType::Knight)),
    ]);
    assert_eq!(squares(get_valid_moves(sq(0, 0), &board)), vec![(1, 0), (1, 1)]);
}

#[test]
fn stepping_into_an_attack_is_pseudo_legal_and_not_legal() {
    let board = board_of(&[
        ((0, 0), moved(W, PieceType::King)),
        ((1, 7), moved(B, PieceType::Rook)),
    ]);
    assert_eq!(squares(get_valid_moves(sq(0, 0), &board)), vec![(0, 1), (1, 0), (1, 1)]);
    assert_eq!(squares(legal_moves(sq(0, 0), &board)), vec![(0, 1)]);
    assert!(is_valid_move(sq(1, 1), sq(0, 0), &board));
}

#[test]
fn both_castles_are_offered_when_the_way_is_free() {
    let board = board_of(&[
        ((4, 0), piece(W, PieceType::King)),
        ((0, 0), piece(W, PieceType::Rook)),
        ((7, 0), piece(W, PieceType::Rook)),
    ]);
    assert_eq!(
        squares(get_valid_moves(sq(4, 0), &board)),
        vec![(2, 0), (3, 0), (3, 1), (4, 1), (5, 0), (5, 1), (6, 0)]
    );
    let board = board_of(&[
        ((4, 7), piece(B, PieceType::King)),
        ((0, 7), piece(B, PieceType::Rook)),
        ((7, 7), piece(B, PieceType::Rook)),
    ]);
    assert_eq!(
        squares(get_valid_moves(sq(4, 7), &board)),
        vec![(2, 7), (3, 6), (3, 7), (4, 6), (5, 6), (5, 7), (6, 7)]
    );
}

fn castles(board: &Board) -> (bool, bool) {
    let moves = get_valid_moves(sq(4, 0), board);
    (contains_square(&moves, sq(6, 0)), contains_square(&moves, sq(2, 0)))
}

#[test]
fn no_castle_for_a_king_that_has_moved() {
    let board = board_of(&[
        ((4, 0), moved(W, PieceType::King)),
        ((0, 0), piece(W, PieceType::Rook)),
        ((7, 0), piece(W, PieceType::Rook)),
    ]);
    assert_eq!(castles(&board), (false, false));
}

#[test]
fn no_castle_towards_a_rook_that_has_moved() {
    let board = board_of(&[
        ((4, 0), piece(W, PieceType::King)),
        ((0, 0), piece(W, PieceType::Rook)),
        ((7, 0), moved(W, PieceType::Rook)),
    ]);
    assert_eq!(castles(&board), (false, true));
    let board = board_of(&[
        ((4, 0), piece(W, PieceType::King)),
        ((0, 0), moved(W, PieceType::Rook)),
        ((7, 0), piece(W, PieceType::Rook)),
    ]);
    assert_eq!(castles(&board), (true, false));
}

#[test]
fn no_castle_without_a_rook_of_the_same_colour_in_the_corner() {
    let board = board_of(&[
        ((4, 0), piece(W, PieceType::King)),
        ((0, 0), piece(B, PieceType::Rook)),
        ((7, 0), piece(W, PieceType::Knight)),
    ]);
    assert_eq!(castles(&board), (false, false));
    let board = board_of(&[((4, 0), piece(W, PieceType::King))]);
    assert_eq!(castles(&board), (false, false));
}

#[test]
fn no_castle_across_an_occupied_square() {
    for x in [5, 6] {
        let board = board_of(&[
            ((4, 0), piece(W, PieceType::King)),
            ((0, 0), piece(W, PieceType::Rook)),
            ((7, 0), piece(W, PieceType::Rook)),
            ((x, 0), piece(W, PieceType::Knight)),
        ]);
        assert_eq!(castles(&board), (false, true));
    }
    for x in [1, 2, 3] {
        let board = board_of(&[
            ((4, 0), piece(W, PieceType::King)),
            ((0, 0), piece(W, PieceType::Rook)),
            ((7, 0), piece(W, PieceType::Rook)),
            ((x, 0), piece(B, PieceType::Knight)),
        ]);
        assert_eq!(castles(&board).1, false);
    }
}

#[test]
fn no_castle_out_of_check() {
    let board = board_of(&[
        ((4, 0), piece(W, PieceType::King)),
        ((0, 0), piece(W, PieceType::Rook)),
        ((7, 0), piece(W, PieceType::Rook)),
        ((4, 7), moved(B, PieceType::Rook)),
    ]);
    assert_eq!(castles(&board), (false, false));
}

#[test]
fn no_castle_across_or_onto_an_attacked_square() {
    let cases = [(5, (false, true)), (6, (false, true)), (3, (true, false)), (2, (true, false))];
    for (x, expected) in cases {
        let board = board_of(&[
            ((4, 0), piece(W, PieceType::King)),
            ((0, 0), piece(W, PieceType::Rook)),
            ((7, 0), piece(W, PieceType::Rook)),
            ((x, 7), moved(B, PieceType::Rook)),
        ]);
        assert_eq!(castles(&board), expected);
    }
}

#[test]
fn queenside_castle_does_not_mind_an_attack_on_the_knight_square_or_the_rook() {
    for x in [0, 1] {
        let board = board_of(&[
            ((4, 0), piece(W, PieceType::King)),
            ((0, 0), piece(W, PieceType::Rook)),
            ((7, 0), piece(W, PieceType::Rook)),
            ((x, 7), moved(B, PieceType::Rook)),
        ]);
        assert_eq!(castles(&board), (true, true));
    }
}

#[test]
fn no_castle_for_an_unmoved_king_away_from_its_home_square() {
    let board = board_of(&[
        ((4, 1), piece(W, PieceType::King)),
        ((0, 0), piece(W, PieceType::Rook)),
        ((7, 0), piece(W, PieceType::Rook)),
    ]);
    assert_eq!(
        squares(get_valid_moves(sq(4, 1), &board)),
        vec![(3, 0), (3, 1), (3, 2), (4, 0), (4, 2), (5, 0), (5, 1), (5, 2)]
    );
    let board = board_of(&[
        ((5, 1), piece(W, PieceType::King)),
        ((7, 0), piece(W, PieceType::Rook)),
    ]);
    assert_eq!(
        squares(get_valid_moves(sq(5, 1), &board)),
        vec![(4, 0), (4, 1), (4, 2), (5, 0), (5, 2), (6, 0), (6, 1), (6, 2)]
    );
}

#[test]
fn is_valid_move_agrees_with_the_list() {
    let board = Board::initial();
    assert!(is_valid_move(sq(4, 3), sq(4, 1), &board));
    assert!(is_valid_move(sq(4, 2), sq(4, 1), &board));
    assert!(!is_valid_move(sq(4, 4), sq(4, 1), &board));
    assert!(!is_valid_move(sq(4, 1), sq(4, 1), &board));
    assert!(!is_valid_move(sq(3, 2), sq(4, 1), &board));
    assert!(is_valid_move(sq(2, 2), sq(1, 0), &board));
    assert!(!is_valid_move(sq(3, 1), sq(1, 0), &board));
}
