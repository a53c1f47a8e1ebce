//! A chess game: a board, whose turn it is, and the game's lifecycle.
use crate::board::{
    add_all, dead_after_move, map_after_move, pos_bounded, spec_can_move, Board, Movement,
    MovementError, Position,
};
use crate::pieces::{Color, PieceKind, PlacedPiece};
use crate::text::{spec_trim, trim_string};
use vstd::prelude::*;

verus! {

/// One of the two players, with the name they introduced themselves by.
pub struct Player {
    pub name: String,
    pub color: Color,
}

/// The lifecycle state of a game.
#[derive(PartialEq, Eq, Debug, Clone, Copy, Structural)]
pub enum GameState {
    Ready,
    OnGoing,
    Paused,
    Ended,
}

/// A chess game: the board, the lifecycle state, and how many turns have
/// been played.
#[derive(Debug)]
pub struct Game {
    pub board: Board,
    pub state: GameState,
    pub turn: u32,
}

/// The color whose turn it is after `turn` completed turns: White moves on
/// even turns, Black on odd ones.
pub open spec fn spec_playing_color(turn: u32) -> Color {
    if turn % 2 == 0 {
        Color::White
    } else {
        Color::Black
    }
}

/// The file index of a movement-command character: `a` through `z` (or
/// `A` through `Z`) name files zero through twenty-five.
pub open spec fn char_file(c: char) -> Option<int> {
    if 97 <= c as int <= 122 {
        Some(c as int - 97)
    } else if 65 <= c as int <= 90 {
        Some(c as int - 65)
    } else {
        None
    }
}

/// The value of a decimal digit character.
pub open spec fn char_digit(c: char) -> Option<int> {
    if 48 <= c as int <= 57 {
        Some(c as int - 48)
    } else {
        None
    }
}

/// The movement a four-character command names: a file letter and a rank
/// digit for the origin, then the same for the destination. Ranks count
/// from one.
pub open spec fn spec_translate(s: Seq<char>) -> Option<Movement> {
    if s.len() != 4 {
        None
    } else {
        match (char_file(s[0]), char_digit(s[1]), char_file(s[2]), char_digit(s[3])) {
            (Some(fx), Some(fy), Some(tx), Some(ty)) => Some(
                Movement {
                    from: Position { x: fx as i32, y: (fy - 1) as i32 },
                    to: Position { x: tx as i32, y: (ty - 1) as i32 },
                },
            ),
            _ => None,
        }
    }
}

/// The standard opening row of `color`: king, queen, rooks, knights and
/// bishops on the back row, and a pawn on each file of the next row.
pub open spec fn standard_pieces(dim: Position, color: Color) -> Seq<(Position, PlacedPiece)> {
    let row: i32 = if color == Color::White {
        0
    } else {
        dim.y
    };
    let pawn_row: i32 = if color == Color::White {
        1
    } else {
        (dim.y - 1) as i32
    };
    seq![
        (Position { x: 4, y: row }, PlacedPiece { kind: PieceKind::King, color }),
        (Position { x: 3, y: row }, PlacedPiece { kind: PieceKind::Queen, color }),
        (Position { x: 0, y: row }, PlacedPiece { kind: PieceKind::Rook, color }),
        (Position { x: 7, y: row }, PlacedPiece { kind: PieceKind::Rook, color }),
        (Position { x: 1, y: row }, PlacedPiece { kind: PieceKind::Knight, color }),
        (Position { x: 6, y: row }, PlacedPiece { kind: PieceKind::Knight, color }),
        (Position { x: 2, y: row }, PlacedPiece { kind: PieceKind::Bishop, color }),
        (Position { x: 5, y: row }, PlacedPiece { kind: PieceKind::Bishop, color }),
    ] + Seq::new(
        (dim.x + 1) as nat,
        |i: int| (Position { x: i as i32, y: pawn_row }, PlacedPiece { kind: PieceKind::Pawn, color }),
    )
}

impl Game {
    /// Creates a game over the given board, ready to start, with no turns
    /// played.
    pub fn new(board: Board) -> (r: Game)
        ensures
            r.board == board,
            r.state == GameState::Ready,
            r.turn == 0,
    {
        Game { board, state: GameState::Ready, turn: 0 }
    }

    /// Parses a file letter.
    fn file_index(c: char) -> (r: Option<i32>)
        ensures
            match char_file(c) {
                Some(v) => r == Some(v as i32) && 0 <= v <= 25,
                None => r is None,
            },
    {
        let u = c as u32;
        if 97 <= u && u <= 122 {
            Some((u - 97) as i32)
        } else if 65 <= u && u <= 90 {
            Some((u - 65) as i32)
        } else {
            None
        }
    }

    /// Parses a rank digit.
    fn digit_value(c: char) -> (r: Option<i32>)
        ensures
            match char_digit(c) {
                Some(v) => r == Some(v as i32) && 0 <= v <= 9,
                None => r is None,
            },
    {
        let u = c as u32;
        if 48 <= u && u <= 57 {
            Some((u - 48) as i32)
        } else {
            None
        }
    }

    /// Translates the four-character movement syntax into a `Movement`; a
    /// command it cannot read is reported back inside the error.
    fn translate_movement(&self, movement: String) -> (r: Result<Movement, MovementError>)
        ensures
            match spec_translate(movement@) {
                Some(m) => r == Ok::<Movement, MovementError>(m) && pos_bounded(m.from)
                    && pos_bounded(m.to),
                None => (r matches Err(e) && e matches MovementError::WrongCommand(c) && c@
                    == movement@),
            },
    {
        let text = movement.as_str();
        if text.unicode_len() != 4 {
            return Err(MovementError::WrongCommand(movement));
        }
        let c0 = text.get_char(0);
        let c1 = text.get_char(1);
        let c2 = text.get_char(2);
        let c3 = text.get_char(3);
        let from_x = match Self::file_index(c0) {
            Some(v) => v,
            None => {
                return Err(MovementError::WrongCommand(movement));
            },
        };
        let to_x = match Self::file_index(c2) {
            Some(v) => v,
            None => {
                return Err(MovementError::WrongCommand(movement));
            },
        };
        let from_y = match Self::digit_value(c1) {
            Some(v) => v,
            None => {
                return Err(MovementError::WrongCommand(movement));
            },
        };
        let to_y = match Self::digit_value(c3) {
            Some(v) => v,
            None => {
                return Err(MovementError::WrongCommand(movement));
            },
        };
        Ok(
            Movement {
                from: Position { x: from_x, y: from_y - 1 },
                to: Position { x: to_x, y: to_y - 1 },
            },
        )
    }

    /// The standard pieces of one color, with their opening squares.
    fn build_pieces(&self, color: Color) -> (r: Vec<(Position, PlacedPiece)>)
        requires
            self.board.wf(),
        ensures
            r@ == standard_pieces(self.board.dimension, color),
    {
        let row: i32 = match color {
            Color::White => 0,
            Color::Black => self.board.dimension.y,
        };
        let offset: i32 = match color {
            Color::White => 1,
            Color::Black => -1,
        };
        let mut pieces: Vec<(Position, PlacedPiece)> = Vec::new();
        pieces.push((Position { x: 4, y: row }, PlacedPiece { kind: PieceKind::King, color }));
        pieces.push((Position { x: 3, y: row }, PlacedPiece { kind: PieceKind::Queen, color }));
        pieces.push((Position { x: 0, y: row }, PlacedPiece { kind: PieceKind::Rook, color }));
        pieces.push((Position { x: 7, y: row }, PlacedPiece { kind: PieceKind::Rook, color }));
        pieces.push((Position { x: 1, y: row }, PlacedPiece { kind: PieceKind::Knight, color }));
        pieces.push((Position { x: 6, y: row }, PlacedPiece { kind: PieceKind::Knight, color }));
        pieces.push((Position { x: 2, y: row }, PlacedPiece { kind: PieceKind::Bishop, color }));
        pieces.push((Position { x: 5, y: row }, PlacedPiece { kind: PieceKind::Bishop, color }));
        let pawn_row = row + offset;
        let ghost target = standard_pieces(self.board.dimension, color);
        proof {
            assert(target.len() == 8 + self.board.dimension.x + 1);
            assert(pieces@ =~= target.take(8));
        }
        let mut x: i32 = 0;
        while x <= self.board.dimension.x
            invariant
                self.board.wf(),
                0 <= x <= self.board.dimension.x + 1,
                target == standard_pieces(self.board.dimension, color),
                target.len() == 8 + self.board.dimension.x + 1,
                pawn_row == (if color == Color::White {
                    1int
                } else {
                    self.board.dimension.y - 1
                }),
                pieces@ == target.take(8 + x as int),
            decreases self.board.dimension.x + 1 - x,
        {
            pieces.push(
                (Position { x, y: pawn_row }, PlacedPiece { kind: PieceKind::Pawn, color }),
            );
            proof {
                assert(target[8 + x as int] == (
                    Position { x, y: pawn_row },
                    PlacedPiece { kind: PieceKind::Pawn, color },
                ));
                assert(pieces@ =~= target.take(8 + (x + 1)));
            }
            x = x + 1;
        }
        proof {
            assert(pieces@ =~= target);
        }
        pieces
    }

    /// Fills the board with the standard chess opening layout for both
    /// colors.
    pub fn set_board(&mut self)
        requires
            old(self).board.wf(),
        ensures
            final(self).board.wf(),
            final(self).board.dimension == old(self).board.dimension,
            final(self).board@ == add_all(
                old(self).board@,
                standard_pieces(old(self).board.dimension, Color::White) + standard_pieces(
                    old(self).board.dimension,
                    Color::Black,
                ),
            ),
            final(self).board.dead_of(Color::White) == old(self).board.dead_of(Color::White),
            final(self).board.dead_of(Color::Black) == old(self).board.dead_of(Color::Black),
            final(self).state == old(self).state,
            final(self).turn == old(self).turn,
    {
        let mut pieces = self.build_pieces(Color::White);
        let mut black_pieces = self.build_pieces(Color::Black);
        pieces.append(&mut black_pieces);
        proof {
            assert(forall|i: int|
                0 <= i < pieces@.len() ==> pos_bounded(#[trigger] pieces@[i].0));
        }
        self.board.add_pieces(pieces);
    }

    /// Marks the game as running.
    pub fn start(&mut self)
        ensures
            final(self).state == GameState::OnGoing,
            final(self).board == old(self).board,
            final(self).turn == old(self).turn,
    {
        self.state = GameState::OnGoing;
    }

    /// Marks the game as over.
    pub fn end(&mut self)
        ensures
            final(self).state == GameState::Ended,
            final(self).board == old(self).board,
            final(self).turn == old(self).turn,
    {
        self.state = GameState::Ended;
    }

    /// Returns `true` while the game is running.
    pub fn is_ongoing(&self) -> (r: bool)
        ensures
            r == (self.state == GameState::OnGoing),
    {
        matches!(self.state, GameState::OnGoing)
    }

    /// Starts the next turn.
    pub fn new_turn(&mut self)
        requires
            old(self).turn < u32::MAX,
        ensures
            final(self).turn == old(self).turn + 1,
            final(self).board == old(self).board,
            final(self).state == old(self).state,
    {
        self.turn = self.turn + 1;
    }

    /// The color whose turn it is.
    fn playing_color(&self) -> (r: Color)
        ensures
            r == spec_playing_color(self.turn),
    {
        if self.turn % 2 == 0 {
            Color::White
        } else {
            Color::Black
        }
    }

    /// The color whose turn it is after `turn` completed turns.
    pub fn static_playing_color(turn: u32) -> (r: Color)
        ensures
            r == spec_playing_color(turn),
    {
        if turn % 2 == 0 {
            Color::White
        } else {
            Color::Black
        }
    }

    /// Plays one movement, given in the four-character command syntax,
    /// for the color whose turn it is; a completed movement starts the
    /// next turn.
    pub fn move_piece(&mut self, movement_string: String) -> (r: Result<(), MovementError>)
        requires
            old(self).board.wf(),
            old(self).turn < u32::MAX,
        ensures
            final(self).board.wf(),
            final(self).board.dimension == old(self).board.dimension,
            final(self).state == old(self).state,
            match spec_translate(spec_trim(movement_string@)) {
                None => (r matches Err(e) && e matches MovementError::WrongCommand(c) && c@
                    == spec_trim(movement_string@)) && final(self).board == old(self).board
                    && final(self).turn == old(self).turn,
                Some(m) => (match spec_can_move(
                    old(self).board,
                    spec_playing_color(old(self).turn),
                    m,
                ) {
                    Err(e) => r == Err::<(), MovementError>(e)
                        && final(self).board == old(self).board
                        && final(self).turn == old(self).turn,
                    Ok(_) => r == Ok::<(), MovementError>(())
                        && final(self).turn == old(self).turn + 1
                        && final(self).board@ == map_after_move(old(self).board@, m)
                        && final(self).board.dead_of(Color::White)
                            == dead_after_move(old(self).board, m, Color::White)
                        && final(self).board.dead_of(Color::Black)
                            == dead_after_move(old(self).board, m, Color::Black),
                }),
            },
    {
        let trimmed = trim_string(&movement_string);
        let movement = match self.translate_movement(trimmed) {
            Ok(m) => m,
            Err(e) => {
                return Err(e);
            },
        };
        let playing_color = self.playing_color();
        let res = self.board.move_piece(playing_color, &movement);
        if res.is_ok() {
            self.new_turn();
        }
        res
    }
}

/// The character shown for a square: the piece's symbol, or a space for
/// an empty square.
pub open spec fn square_char(bm: Map<Position, PlacedPiece>, x: int, y: int) -> char {
    if bm.contains_key(Position { x: x as i32, y: y as i32 }) {
        crate::pieces::spec_symbol(bm[Position { x: x as i32, y: y as i32 }])
    } else {
        ' '
    }
}

/// One rendered square: the square's character between two spaces.
pub open spec fn cell_chars(bm: Map<Position, PlacedPiece>, x: int, y: int) -> Seq<char> {
    seq![' ', square_char(bm, x, y), ' ']
}

/// The file shown at display column `i`: Black sees the files reversed.
pub open spec fn display_file(dim_x: int, black: bool, i: int) -> int {
    if black {
        dim_x - i
    } else {
        i
    }
}

/// The first `count` rendered squares of the rank shown as row `y`.
pub open spec fn row_cells(
    bm: Map<Position, PlacedPiece>,
    dim_x: int,
    y: int,
    black: bool,
    count: int,
) -> Seq<char>
    decreases count,
{
    if count <= 0 {
        Seq::empty()
    } else {
        row_cells(bm, dim_x, y, black, count - 1) + cell_chars(
            bm,
            display_file(dim_x, black, count - 1),
            y,
        )
    }
}

/// The rank shown as display row `y_loop`: White sees the highest rank on
/// top, Black the lowest.
pub open spec fn display_rank(dim_y: int, black: bool, y_loop: int) -> int {
    if black {
        y_loop
    } else {
        dim_y - y_loop
    }
}

/// One rendered board row: its rank label, the squares, and a line break.
pub open spec fn row_chars(
    bm: Map<Position, PlacedPiece>,
    dim: Position,
    color: Color,
    y_loop: int,
) -> Seq<char> {
    let black = color == Color::Black;
    let rank = display_rank(dim.y as int, black, y_loop);
    crate::text::label_chars(rank + 1) + seq![' '] + row_cells(
        bm,
        dim.x as int,
        rank,
        black,
        dim.x + 1,
    ) + seq!['\n']
}

/// The first `count` rendered board rows.
pub open spec fn rows_chars(
    bm: Map<Position, PlacedPiece>,
    dim: Position,
    color: Color,
    count: int,
) -> Seq<char>
    decreases count,
{
    if count <= 0 {
        Seq::empty()
    } else {
        rows_chars(bm, dim, color, count - 1) + row_chars(bm, dim, color, count - 1)
    }
}

/// The first `count` rendered file letters of the bottom line.
pub open spec fn letters_chars(dim_x: int, black: bool, count: int) -> Seq<char>
    decreases count,
{
    if count <= 0 {
        Seq::empty()
    } else {
        letters_chars(dim_x, black, count - 1) + seq![
            ' ',
            ((97 + display_file(dim_x, black, count - 1)) as u8) as char,
            ' ',
        ]
    }
}

/// The whole rendered board, as the given color sees it.
pub open spec fn spec_print_board(
    bm: Map<Position, PlacedPiece>,
    dim: Position,
    color: Color,
) -> Seq<char> {
    rows_chars(bm, dim, color, dim.y + 1) + seq![' ', ' '] + letters_chars(
        dim.x as int,
        color == Color::Black,
        dim.x + 1,
    ) + seq!['\n']
}

impl Game {
    /// Renders the board as the given color sees it: that color's first
    /// rank at the bottom, ranks labelled on the left, files lettered
    /// along the bottom.
    pub fn print_board(&self, color: Color) -> (r: String)
        requires
            self.board.wf(),
        ensures
            r@ == spec_print_board(self.board@, self.board.dimension, color),
    {
        let black = matches!(color, Color::Black);
        let x_max = self.board.dimension.x;
        let y_max = self.board.dimension.y;
        let mut out: Vec<char> = Vec::new();
        let mut y_loop: i32 = 0;
        while y_loop <= y_max
            invariant
                self.board.wf(),
                black == (color == Color::Black),
                x_max == self.board.dimension.x,
                y_max == self.board.dimension.y,
                0 <= y_loop <= y_max + 1,
                out@ == rows_chars(self.board@, self.board.dimension, color, y_loop as int),
            decreases y_max + 1 - y_loop,
        {
            let rank: i32 = if black {
                y_loop
            } else {
                y_max - y_loop
            };
            crate::text::push_label(&mut out, (rank + 1) as u32);
            out.push(' ');
            proof {
                assert(out@ =~= rows_chars(self.board@, self.board.dimension, color, y_loop as int)
                    + crate::text::label_chars(rank + 1) + seq![' ']);
            }
            let mut i: i32 = 0;
            while i <= x_max
                invariant
                    self.board.wf(),
                    black == (color == Color::Black),
                    x_max == self.board.dimension.x,
                    y_max == self.board.dimension.y,
                    0 <= y_loop <= y_max,
                    rank == display_rank(y_max as int, black, y_loop as int),
                    0 <= rank <= y_max,
                    0 <= i <= x_max + 1,
                    out@ == rows_chars(self.board@, self.board.dimension, color, y_loop as int)
                        + crate::text::label_chars(rank + 1) + seq![' '] + row_cells(
                        self.board@,
                        x_max as int,
                        rank as int,
                        black,
                        i as int,
                    ),
                decreases x_max + 1 - i,
            {
                let xx: i32 = if black {
                    x_max - i
                } else {
                    i
                };
                let square = match self.board.pick_piece(Position { x: xx, y: rank }) {
                    Some(piece) => piece.symbol(),
                    None => ' ',
                };
                out.push(' ');
                out.push(square);
                out.push(' ');
                proof {
                    assert(square == square_char(self.board@, xx as int, rank as int));
                    assert(out@ =~= rows_chars(
                        self.board@,
                        self.board.dimension,
                        color,
                        y_loop as int,
                    ) + crate::text::label_chars(rank + 1) + seq![' '] + row_cells(
                        self.board@,
                        x_max as int,
                        rank as int,
                        black,
                        i + 1,
                    ));
                }
                i = i + 1;
            }
            out.push('\n');
            proof {
                assert(out@ =~= rows_chars(
                    self.board@,
                    self.board.dimension,
                    color,
                    y_loop + 1,
                ));
            }
            y_loop = y_loop + 1;
        }
        out.push(' ');
        out.push(' ');
        let ghost rows_part = out@;
        let mut i: i32 = 0;
        while i <= x_max
            invariant
                black == (color == Color::Black),
                x_max == self.board.dimension.x,
                0 <= x_max <= 25,
                0 <= i <= x_max + 1,
                out@ == rows_part + letters_chars(x_max as int, black, i as int),
            decreases x_max + 1 - i,
        {
            let xx: i32 = if black {
                x_max - i
            } else {
                i
            };
            out.push(' ');
            out.push(((97 + xx as u32) as u8) as char);
            out.push(' ');
            proof {
                assert(out@ =~= rows_part + letters_chars(x_max as int, black, i + 1));
            }
            i = i + 1;
        }
        out.push('\n');
        proof {
            assert(out@ =~= spec_print_board(self.board@, self.board.dimension, color));
        }
        crate::text::chars_to_string(out)
    }
}

} // verus!
