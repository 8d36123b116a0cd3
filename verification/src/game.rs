//! The game controller: whose turn it is, which square is selected, what
//! has been played, and the one transition that drives them.

use vstd::prelude::*;
use crate::board::{Board, lists_pieces, on_board, Squares, starting_position, without_flags};
use crate::components::{GameStatus, GridPosition, Piece, PieceColor, PieceType};
use crate::model::{
    apply_move, friend_at, legal, legal_destinations, lists_exactly, settled, simulate,
    single_double_jump, status_of,
};
use crate::laws::lemma_move_keeps_single_double_jump;
use crate::notation::{move_notation, notation};
use crate::rules::{contains_square, game_status, legal_moves};

verus! {

/// The state of a game beside the board.
#[derive(Debug, PartialEq, Eq)]
pub struct GameState {
    pub selected_position: Option<GridPosition>,
    pub current_turn: PieceColor,
    pub status: GameStatus,
    pub move_history: Vec<String>,
}

impl Default for GameState {
    /// The state before the first move: White to move, nothing selected,
    /// nothing played.
    fn default() -> (state: Self)
        ensures
            state.selected_position is None,
            state.current_turn == PieceColor::White,
            state.status == GameStatus::InProgress,
            state.move_history@.len() == 0,
    {
        Self {
            selected_position: None,
            current_turn: PieceColor::White,
            status: GameStatus::InProgress,
            move_history: Vec::new(),
        }
    }
}

/// What an activation of a square did.
#[derive(Debug, PartialEq, Eq)]
pub enum ApplyResult {
    /// The selected square was activated again and is no longer selected.
    Deselected,
    /// A piece of the side to move was selected.
    Selected,
    /// The selected piece moved to the activated square.
    Moved { notation: String, new_status: GameStatus },
    /// Nothing was selected and nothing moved; a selection, if there was one, is dropped.
    Rejected,
}

/// An `ApplyResult` with its text as a sequence of characters.
pub enum Outcome {
    Deselected,
    Selected,
    Moved { notation: Seq<char>, new_status: GameStatus },
    Rejected,
}

impl View for ApplyResult {
    type V = Outcome;

    open spec fn view(&self) -> Outcome {
        match *self {
            ApplyResult::Deselected => Outcome::Deselected,
            ApplyResult::Selected => Outcome::Selected,
            ApplyResult::Moved { notation, new_status } => Outcome::Moved {
                notation: notation@,
                new_status,
            },
            ApplyResult::Rejected => Outcome::Rejected,
        }
    }
}

/// A game as mathematics: the board, the side to move, the selected square,
/// the status and the move log.
pub struct GameView {
    pub board: Squares,
    pub turn: PieceColor,
    pub selection: Option<(int, int)>,
    pub status: GameStatus,
    pub history: Seq<Seq<char>>,
}

/// The texts of a move log.
pub open spec fn texts(log: Seq<String>) -> Seq<Seq<char>> {
    Seq::new(log.len(), |i: int| log[i]@)
}

/// The transition of the game when a square is activated: the state after
/// it, and what is reported.
///
/// With nothing selected, a square that holds a piece of the side to move
/// becomes the selection, and any other square is rejected. With a square
/// selected, activating it again drops the selection; activating a legal
/// destination of the selected piece makes the move, logs it, passes the
/// turn and computes the status for the side then to move; any other square
/// is rejected and the selection dropped.
pub open spec fn activate_step(g: GameView, sq: (int, int)) -> (GameView, Outcome) {
    match g.selection {
        None => {
            if friend_at(g.board, sq, g.turn) {
                (GameView { selection: Some(sq), ..g }, Outcome::Selected)
            } else {
                (g, Outcome::Rejected)
            }
        },
        Some(selected) => {
            if selected == sq {
                (GameView { selection: None, ..g }, Outcome::Deselected)
            } else if legal(g.board, selected, sq) {
                let text = notation(g.board[selected], selected, sq);
                let board = apply_move(g.board, selected, sq);
                let turn = g.turn.other();
                let status = status_of(board, turn);
                (
                    GameView {
                        board,
                        turn,
                        selection: None,
                        status,
                        history: g.history.push(text),
                    },
                    Outcome::Moved { notation: text, new_status: status },
                )
            } else {
                (GameView { selection: None, ..g }, Outcome::Rejected)
            }
        },
    }
}

/// Makes the legal move from `from` to `to` on the board.
fn make_move(board: &mut Board, from: GridPosition, to: GridPosition)
    requires
        legal(old(board)@, from@, to@),
    ensures
        final(board)@ == apply_move(old(board)@, from@, to@),
{
    proof {
        board.lemma_within_board();
    }
    let ghost start = board@;
    let piece = board.get_piece_at(from.x, from.y).unwrap();
    let target_empty = board.get_piece_at(to.x, to.y).is_none();
    board.remove(to);
    if piece.kind == PieceType::Pawn && from.x != to.x && target_empty {
        board.remove(GridPosition::new(to.x, from.y));
    }
    board.remove(from);
    board.clear_double_jumps();
    let promoted = piece.kind == PieceType::Pawn && to.y == match piece.color {
        PieceColor::White => 7,
        PieceColor::Black => 0,
    };
    let double_step = piece.kind == PieceType::Pawn && (to.y == from.y + 2 || from.y == to.y + 2);
    board.place(
        to,
        Piece {
            color: piece.color,
            kind: if promoted {
                PieceType::Queen
            } else {
                piece.kind
            },
            is_first_move: false,
            just_double_jumped: double_step,
        },
    );
    assert(board@ =~= without_flags(simulate(start, from@, to@)).insert(
        to@,
        settled(start[from@], from@, to@),
    ));
    if piece.kind == PieceType::King && (to.x == from.x + 2 || from.x == to.x + 2) {
        let (corner_x, landing_x): (u32, u32) = if to.x > from.x {
            (7, 5)
        } else {
            (0, 3)
        };
        if let Some(rook) = board.remove(GridPosition::new(corner_x, from.y)) {
            board.place(
                GridPosition::new(landing_x, from.y),
                Piece {
                    color: rook.color,
                    kind: rook.kind,
                    is_first_move: false,
                    just_double_jumped: rook.just_double_jumped,
                },
            );
        }
    }
}

/// A game of chess: the board and the state around it, changed only by
/// `activate`.
#[derive(Debug, PartialEq, Eq)]
pub struct GameController {
    board: Board,
    state: GameState,
}

impl View for GameController {
    type V = GameView;

    closed spec fn view(&self) -> GameView {
        GameView {
            board: self.board@,
            turn: self.state.current_turn,
            selection: match self.state.selected_position {
                Some(pos) => Some(pos@),
                None => None,
            },
            status: self.state.status,
            history: texts(self.state.move_history@),
        }
    }
}

impl GameController {
    /// A new game: the starting position, White to move, nothing selected,
    /// nothing played.
    pub fn new() -> (game: GameController)
        ensures
            game@ == (GameView {
                board: starting_position(),
                turn: PieceColor::White,
                selection: None,
                status: GameStatus::InProgress,
                history: Seq::empty(),
            }),
    {
        let game = GameController { board: Board::initial(), state: GameState::default() };
        assert(texts(game.state.move_history@) =~= Seq::empty());
        game
    }

    /// A game that starts from the given position with `turn` to move. The
    /// status is the one that the position gives the side to move.
    pub fn from_position(board: Board, turn: PieceColor) -> (game: GameController)
        ensures
            game@ == (GameView {
                board: board@,
                turn,
                selection: None,
                status: status_of(board@, turn),
                history: Seq::empty(),
            }),
    {
        let status = game_status(&board, turn);
        let game = GameController {
            board,
            state: GameState {
                selected_position: None,
                current_turn: turn,
                status,
                move_history: Vec::new(),
            },
        };
        assert(texts(game.state.move_history@) =~= Seq::empty());
        game
    }

    /// Activates a square, the one event that drives the game. What it does
    /// to the game and what it reports is `activate_step`. A game in which at
    /// most one piece is flagged as having just advanced two ranks stays so.
    pub fn activate(&mut self, square: GridPosition) -> (result: ApplyResult)
        ensures
            final(self)@ == activate_step(old(self)@, square@).0,
            result@ == activate_step(old(self)@, square@).1,
            single_double_jump(old(self)@.board) ==> single_double_jump(final(self)@.board),
    {
        let ghost before = self@;
        match self.state.selected_position {
            None => {
                let own = match self.board.get_piece_at(square.x, square.y) {
                    Some(piece) => piece.color == self.state.current_turn,
                    None => false,
                };
                if own {
                    self.state.selected_position = Some(square);
                    ApplyResult::Selected
                } else {
                    ApplyResult::Rejected
                }
            },
            Some(selected) => {
                if selected.x == square.x && selected.y == square.y {
                    self.state.selected_position = None;
                    ApplyResult::Deselected
                } else {
                    let moves = legal_moves(selected, &self.board);
                    if contains_square(&moves, square) {
                        proof {
                            self.board.lemma_within_board();
                            assert(legal_destinations(before.board, selected@).contains(square@));
                            lemma_move_keeps_single_double_jump(
                                before.board,
                                selected@,
                                square@,
                            );
                        }
                        let piece = self.board.get_piece_at(selected.x, selected.y).unwrap();
                        let text = move_notation(&piece, selected, square);
                        make_move(&mut self.board, selected, square);
                        let turn = self.state.current_turn.opponent();
                        let status = game_status(&self.board, turn);
                        self.state.move_history.push(text.clone());
                        self.state.current_turn = turn;
                        self.state.status = status;
                        self.state.selected_position = None;
                        proof {
                            assert(texts(self.state.move_history@) =~= before.history.push(text@));
                        }
                        ApplyResult::Moved { notation: text, new_status: status }
                    } else {
                        proof {
                            assert(!legal(before.board, selected@, square@)) by {
                                if legal(before.board, selected@, square@) {
                                    assert(legal_destinations(before.board, selected@).contains(
                                        square@,
                                    ));
                                }
                            }
                        }
                        self.state.selected_position = None;
                        ApplyResult::Rejected
                    }
                }
            },
        }
    }

    /// The legal destinations of the piece on `square`, for the host to
    /// highlight.
    pub fn legal_moves(&self, square: GridPosition) -> (moves: Vec<GridPosition>)
        ensures
            lists_exactly(moves@, legal_destinations(self@.board, square@)),
            forall|i: int| 0 <= i < moves@.len() ==> on_board(#[trigger] moves@[i]@),
    {
        legal_moves(square, &self.board)
    }

    /// The status of the game for the side to move.
    pub fn status(&self) -> (status: GameStatus)
        ensures
            status == self@.status,
    {
        self.state.status
    }

    /// The side to move.
    pub fn current_turn(&self) -> (turn: PieceColor)
        ensures
            turn == self@.turn,
    {
        self.state.current_turn
    }

    /// The selected square, if one is selected.
    pub fn selected_position(&self) -> (selection: Option<GridPosition>)
        ensures
            selection is Some == self@.selection is Some,
            selection matches Some(pos) ==> self@.selection == Some(pos@),
    {
        self.state.selected_position
    }

    /// The move log, oldest move first.
    pub fn history(&self) -> (log: &Vec<String>)
        ensures
            texts(log@) == self@.history,
    {
        &self.state.move_history
    }

    /// Every piece on the board with its square, for the host to draw.
    pub fn board_snapshot(&self) -> (list: Vec<(GridPosition, Piece)>)
        ensures
            lists_pieces(list@, self@.board),
    {
        self.board.pieces()
    }

    /// The state of the game beside the board.
    pub fn state(&self) -> (state: &GameState)
        ensures
            state.current_turn == self@.turn,
            state.status == self@.status,
            texts(state.move_history@) == self@.history,
            state.selected_position is Some == self@.selection is Some,
            state.selected_position matches Some(pos) ==> self@.selection == Some(pos@),
    {
        &self.state
    }

    /// The board itself, to read.
    pub fn board(&self) -> (board: &Board)
        ensures
            board@ == self@.board,
    {
        &self.board
    }
}

} // verus!
