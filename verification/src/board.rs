//! The chess board: where the pieces stand, which movements are legal for
//! each piece kind, and how a movement changes the board.
use crate::pieces::{Color, PieceKind, PlacedPiece};
use vstd::prelude::*;
use vstd::string::*;

verus! {

/// Largest coordinate magnitude the board functions accept; keeps every
/// coordinate computation inside `i32`.
pub const MAX_COORD: i32 = 1000000;

/// Largest board dimension; row labels and column letters stay printable.
pub const MAX_DIMENSION: i32 = 25;

/// Reasons a movement is not carried out.
#[derive(Debug, PartialEq, Eq, Clone)]
pub enum MovementError {
    /// The destination lies beyond the board limits.
    OutOfBounds,
    /// A piece stands in the movement's path.
    BlockedPath,
    /// The movement is not possible for that kind of piece.
    IllegalMovement,
    /// The movement would lead to a check by the opponent.
    Check,
    /// There is no piece at the movement's origin.
    NoPiece,
    /// The movement command does not parse.
    WrongCommand(String),
    /// The piece at the origin belongs to the opponent.
    WrongPiece(Color),
}

/// A board square, addressed by its `x` (file) and `y` (rank) coordinate.
#[derive(PartialEq, Eq, Hash, Copy, Clone, Debug, Structural)]
pub struct Position {
    pub x: i32,
    pub y: i32,
}

/// A movement between two board squares.
#[derive(Debug, Copy, Clone)]
pub struct Movement {
    pub from: Position,
    pub to: Position,
}

/// The direction of a movement along one axis, with the number of squares
/// travelled.
#[derive(Debug, PartialEq, Eq, Copy, Clone, Structural)]
pub enum Direction {
    Forward(u32),
    Backward(u32),
    Left(u32),
    Right(u32),
    Unknown,
}

/// The shape of a movement: along a file, along a rank, along a diagonal,
/// or a knight's jump.
#[derive(Debug, PartialEq, Eq, Copy, Clone, Structural)]
pub enum MovementKind {
    Diagonal(Direction, Direction),
    Horizontal(Direction),
    Vertical(Direction),
    Knight,
}

/// Both coordinates within `MAX_COORD` in magnitude.
pub open spec fn pos_bounded(p: Position) -> bool {
    -MAX_COORD <= p.x <= MAX_COORD && -MAX_COORD <= p.y <= MAX_COORD
}

/// Distance between two integers.
pub open spec fn dist(a: int, b: int) -> int {
    if a >= b {
        a - b
    } else {
        b - a
    }
}

/// `v` lies strictly between `a` and `b`.
pub open spec fn between(a: int, b: int, v: int) -> bool {
    (a < v < b) || (b < v < a)
}

/// The contents of an association list of squares, as a map. A later entry
/// for the same square wins, as a repeated insertion would.
pub open spec fn to_map(s: Seq<(Position, PlacedPiece)>) -> Map<Position, PlacedPiece>
    decreases s.len(),
{
    if s.len() == 0 {
        Map::empty()
    } else {
        to_map(s.drop_last()).insert(s.last().0, s.last().1)
    }
}

/// No two entries name the same square.
pub open spec fn distinct_positions(s: Seq<(Position, PlacedPiece)>) -> bool {
    forall|i: int, j: int| 0 <= i < j < s.len() ==> s[i].0 != s[j].0
}

/// Every entry's square is bounded.
pub open spec fn entries_bounded(s: Seq<(Position, PlacedPiece)>) -> bool {
    forall|i: int| 0 <= i < s.len() ==> pos_bounded(#[trigger] s[i].0)
}

proof fn lemma_to_map_contains(s: Seq<(Position, PlacedPiece)>, p: Position)
    ensures
        to_map(s).contains_key(p) <==> exists|i: int| 0 <= i < s.len() && s[i].0 == p,
    decreases s.len(),
{
    if s.len() == 0 {
    } else {
        lemma_to_map_contains(s.drop_last(), p);
        if s.last().0 == p {
            assert(s[s.len() - 1].0 == p);
        } else {
            if exists|i: int| 0 <= i < s.len() && s[i].0 == p {
                let i = choose|i: int| 0 <= i < s.len() && s[i].0 == p;
                assert(s.drop_last()[i].0 == p);
            }
        }
    }
}

proof fn lemma_to_map_index(s: Seq<(Position, PlacedPiece)>, i: int)
    requires
        distinct_positions(s),
        0 <= i < s.len(),
    ensures
        to_map(s).contains_key(s[i].0),
        to_map(s)[s[i].0] == s[i].1,
    decreases s.len(),
{
    if i == s.len() - 1 {
    } else {
        assert(distinct_positions(s.drop_last()));
        lemma_to_map_index(s.drop_last(), i);
        assert(s[i].0 != s.last().0);
    }
}

proof fn lemma_to_map_update(s: Seq<(Position, PlacedPiece)>, i: int, v: (Position, PlacedPiece))
    requires
        distinct_positions(s),
        0 <= i < s.len(),
        s[i].0 == v.0,
    ensures
        to_map(s.update(i, v)) == to_map(s).insert(v.0, v.1),
    decreases s.len(),
{
    if i == s.len() - 1 {
        assert(s.update(i, v).drop_last() =~= s.drop_last());
        assert(to_map(s.update(i, v)) =~= to_map(s).insert(v.0, v.1));
    } else {
        assert(distinct_positions(s.drop_last()));
        assert(s.update(i, v).drop_last() =~= s.drop_last().update(i, v));
        lemma_to_map_update(s.drop_last(), i, v);
        assert(s[i].0 != s.last().0);
        assert(to_map(s.update(i, v)) =~= to_map(s).insert(v.0, v.1));
    }
}

proof fn lemma_to_map_remove(s: Seq<(Position, PlacedPiece)>, i: int)
    requires
        distinct_positions(s),
        0 <= i < s.len(),
    ensures
        to_map(s.remove(i)) == to_map(s).remove(s[i].0),
    decreases s.len(),
{
    if i == s.len() - 1 {
        assert(s.remove(i) =~= s.drop_last());
        lemma_to_map_contains(s.drop_last(), s[i].0);
        assert(forall|j: int| 0 <= j < s.len() - 1 ==> s.drop_last()[j] == s[j]);
        assert(!to_map(s.drop_last()).contains_key(s[i].0));
        assert(to_map(s.remove(i)) =~= to_map(s).remove(s[i].0));
    } else {
        assert(distinct_positions(s.drop_last()));
        assert(s.remove(i).drop_last() =~= s.drop_last().remove(i));
        assert(s.remove(i).last() == s.last());
        lemma_to_map_remove(s.drop_last(), i);
        assert(s[i].0 != s.last().0);
        assert(to_map(s.remove(i)) =~= to_map(s).remove(s[i].0));
    }
}

/// The chess board: its dimension, the living pieces on their squares, and
/// the captured pieces of each color.
#[derive(Debug)]
pub struct Board {
    /// Largest `x` and `y` coordinate of the board.
    pub dimension: Position,
    /// The living pieces, one entry per occupied square.
    pub positions: Vec<(Position, PlacedPiece)>,
    /// White pieces that have been captured, oldest first.
    pub pieces_dead_white: Vec<PlacedPiece>,
    /// Black pieces that have been captured, oldest first.
    pub pieces_dead_black: Vec<PlacedPiece>,
}

impl View for Board {
    type V = Map<Position, PlacedPiece>;

    open spec fn view(&self) -> Map<Position, PlacedPiece> {
        to_map(self.positions@)
    }
}

/// Applying a sequence of placements to a board map, in order; a later
/// placement on the same square replaces the earlier one.
pub open spec fn add_all(
    m: Map<Position, PlacedPiece>,
    ps: Seq<(Position, PlacedPiece)>,
) -> Map<Position, PlacedPiece>
    decreases ps.len(),
{
    if ps.len() == 0 {
        m
    } else {
        add_all(m.insert(ps[0].0, ps[0].1), ps.drop_first())
    }
}

proof fn lemma_add_all_push(
    m: Map<Position, PlacedPiece>,
    ps: Seq<(Position, PlacedPiece)>,
    v: (Position, PlacedPiece),
)
    ensures
        add_all(m, ps.push(v)) == add_all(m, ps).insert(v.0, v.1),
    decreases ps.len(),
{
    let q = ps.push(v);
    if ps.len() == 0 {
        assert(q[0] == v);
        assert(q.drop_first() =~= Seq::<(Position, PlacedPiece)>::empty());
        assert(add_all(m, q) == add_all(m.insert(q[0].0, q[0].1), q.drop_first()));
        assert(add_all(m.insert(v.0, v.1), Seq::<(Position, PlacedPiece)>::empty()) == m.insert(
            v.0,
            v.1,
        ));
        assert(add_all(m, ps) == m);
    } else {
        assert(q[0] == ps[0]);
        assert(q.drop_first() =~= ps.drop_first().push(v));
        lemma_add_all_push(m.insert(ps[0].0, ps[0].1), ps.drop_first(), v);
        assert(add_all(m, q) == add_all(m.insert(q[0].0, q[0].1), q.drop_first()));
        assert(add_all(m, ps) == add_all(m.insert(ps[0].0, ps[0].1), ps.drop_first()));
    }
}

/// The board map after carrying out a movement: the origin is emptied and
/// its piece now stands on the destination.
pub open spec fn map_after_move(
    m: Map<Position, PlacedPiece>,
    mv: Movement,
) -> Map<Position, PlacedPiece> {
    m.remove(mv.from).insert(mv.to, m[mv.from])
}

/// The captured pieces of `color` after carrying out a movement: grown by
/// the destination's piece when one of that color stood there.
pub open spec fn dead_after_move(b: Board, mv: Movement, color: Color) -> Seq<PlacedPiece> {
    if b@.contains_key(mv.to) && b@[mv.to].color == color {
        b.dead_of(color).push(b@[mv.to])
    } else {
        b.dead_of(color)
    }
}

/// The horizontal component of a movement.
pub open spec fn spec_hdir(m: Movement) -> Direction {
    if m.to.x > m.from.x {
        Direction::Right(dist(m.from.x as int, m.to.x as int) as u32)
    } else if m.to.x < m.from.x {
        Direction::Left(dist(m.from.x as int, m.to.x as int) as u32)
    } else {
        Direction::Unknown
    }
}

/// The vertical component of a movement; forward is the direction the
/// playing color's pawns advance.
pub open spec fn spec_vdir(color: Color, m: Movement) -> Direction {
    if m.to.y > m.from.y {
        if color == Color::White {
            Direction::Forward(dist(m.from.y as int, m.to.y as int) as u32)
        } else {
            Direction::Backward(dist(m.from.y as int, m.to.y as int) as u32)
        }
    } else if m.to.y < m.from.y {
        if color == Color::Black {
            Direction::Forward(dist(m.from.y as int, m.to.y as int) as u32)
        } else {
            Direction::Backward(dist(m.from.y as int, m.to.y as int) as u32)
        }
    } else {
        Direction::Unknown
    }
}

/// The shape of a movement, when it has one: vertical, horizontal,
/// diagonal, or a knight's jump.
pub open spec fn spec_classify(color: Color, m: Movement) -> Option<MovementKind> {
    let xv = dist(m.from.x as int, m.to.x as int);
    let yv = dist(m.from.y as int, m.to.y as int);
    if m.from.x == m.to.x {
        Some(MovementKind::Vertical(spec_vdir(color, m)))
    } else if m.from.y == m.to.y {
        Some(MovementKind::Horizontal(spec_hdir(m)))
    } else if xv == yv {
        Some(MovementKind::Diagonal(spec_vdir(color, m), spec_hdir(m)))
    } else if (xv == 2 && yv == 1) || (xv == 1 && yv == 2) {
        Some(MovementKind::Knight)
    } else {
        None
    }
}

/// What `Board::movement_kind` returns: a movement to the same square or
/// with no recognised shape is illegal, one beyond the board is out of
/// bounds.
pub open spec fn spec_movement_kind(dim: Position, color: Color, m: Movement) -> Result<
    MovementKind,
    MovementError,
> {
    if m.to.x == m.from.x && m.to.y == m.from.y {
        Err(MovementError::IllegalMovement)
    } else if m.to.x > dim.x || m.to.y > dim.y {
        Err(MovementError::OutOfBounds)
    } else {
        match spec_classify(color, m) {
            Some(k) => Ok(k),
            None => Err(MovementError::IllegalMovement),
        }
    }
}

/// A straight movement a rook or queen may make on a board of dimension
/// `dim`.
pub open spec fn line_allowed(mk: MovementKind, dim: Position) -> bool {
    match mk {
        MovementKind::Vertical(d) => match d {
            Direction::Forward(n) => 1 <= n <= dim.y,
            Direction::Backward(n) => 1 <= n <= dim.y,
            _ => false,
        },
        MovementKind::Horizontal(d) => match d {
            Direction::Left(n) => 1 <= n <= dim.x,
            Direction::Right(n) => 1 <= n <= dim.x,
            _ => false,
        },
        _ => false,
    }
}

/// A diagonal movement a bishop or queen may make on a board of dimension
/// `dim`.
pub open spec fn diag_allowed(mk: MovementKind, dim: Position) -> bool {
    match mk {
        MovementKind::Diagonal(v, h) => {
            let m = if dim.x <= dim.y {
                dim.x
            } else {
                dim.y
            };
            match (v, h) {
                (Direction::Forward(a), Direction::Right(b)) => a == b && 1 <= a <= m,
                (Direction::Forward(a), Direction::Left(b)) => a == b && 1 <= a <= m,
                (Direction::Backward(a), Direction::Right(b)) => a == b && 1 <= a <= m,
                (Direction::Backward(a), Direction::Left(b)) => a == b && 1 <= a <= m,
                _ => false,
            }
        },
        _ => false,
    }
}

/// A single step in any of the eight directions: what a king may make.
pub open spec fn king_allowed(mk: MovementKind) -> bool {
    mk == MovementKind::Vertical(Direction::Forward(1)) || mk == MovementKind::Vertical(
        Direction::Backward(1),
    ) || mk == MovementKind::Horizontal(Direction::Left(1)) || mk == MovementKind::Horizontal(
        Direction::Right(1),
    ) || mk == MovementKind::Diagonal(Direction::Forward(1), Direction::Right(1)) || mk
        == MovementKind::Diagonal(Direction::Forward(1), Direction::Left(1)) || mk
        == MovementKind::Diagonal(Direction::Backward(1), Direction::Right(1)) || mk
        == MovementKind::Diagonal(Direction::Backward(1), Direction::Left(1))
}

/// What a pawn may make: one or two squares forward, or a one-square
/// forward diagonal.
pub open spec fn pawn_allowed(mk: MovementKind) -> bool {
    mk == MovementKind::Vertical(Direction::Forward(1)) || mk == MovementKind::Vertical(
        Direction::Forward(2),
    ) || mk == MovementKind::Diagonal(Direction::Forward(1), Direction::Left(1)) || mk
        == MovementKind::Diagonal(Direction::Forward(1), Direction::Right(1))
}

/// Whether a movement of shape `mk` is among the legal movements of a
/// piece of kind `kind` on a board of dimension `dim`.
pub open spec fn kind_allowed(kind: PieceKind, mk: MovementKind, dim: Position) -> bool {
    match kind {
        PieceKind::King => king_allowed(mk),
        PieceKind::Queen => line_allowed(mk, dim) || diag_allowed(mk, dim),
        PieceKind::Rook => line_allowed(mk, dim),
        PieceKind::Bishop => diag_allowed(mk, dim),
        PieceKind::Knight => mk == MovementKind::Knight,
        PieceKind::Pawn => pawn_allowed(mk),
    }
}

/// The square `k` diagonal steps from the movement's origin towards its
/// destination.
pub open spec fn diag_pos(m: Movement, k: int) -> Position {
    Position {
        x: if m.to.x > m.from.x {
            (m.from.x + k) as i32
        } else {
            (m.from.x - k) as i32
        },
        y: if m.to.y > m.from.y {
            (m.from.y + k) as i32
        } else {
            (m.from.y - k) as i32
        },
    }
}

/// A piece stands strictly between the movement's origin and destination.
pub open spec fn spec_blocked(
    map: Map<Position, PlacedPiece>,
    m: Movement,
    mk: MovementKind,
) -> bool {
    match mk {
        MovementKind::Vertical(_) => exists|y: i32|
            between(m.from.y as int, m.to.y as int, y as int) && map.contains_key(
                Position { x: m.from.x, y },
            ),
        MovementKind::Horizontal(_) => exists|x: i32|
            between(m.from.x as int, m.to.x as int, x as int) && map.contains_key(
                Position { x, y: m.from.y },
            ),
        MovementKind::Diagonal(_, _) => exists|k: int|
            0 < k < dist(m.from.x as int, m.to.x as int) && map.contains_key(diag_pos(m, k)),
        MovementKind::Knight => false,
    }
}

/// The destination is free, or holds a piece of the opposing color.
pub open spec fn spec_valid_target(
    map: Map<Position, PlacedPiece>,
    color: Color,
    m: Movement,
) -> bool {
    !map.contains_key(m.to) || map[m.to].color != color
}

/// What `Board::move_piece` decides, with the checks in the order the
/// board makes them.
pub open spec fn spec_can_move(b: Board, playing_color: Color, m: Movement) -> Result<
    bool,
    MovementError,
> {
    if !b@.contains_key(m.from) {
        Err(MovementError::NoPiece)
    } else {
        match spec_movement_kind(b.dimension, playing_color, m) {
            Err(e) => Err(e),
            Ok(kind) => {
                let piece = b@[m.from];
                if piece.color != playing_color {
                    Err(MovementError::WrongPiece(piece.color))
                } else if !kind_allowed(piece.kind, kind, b.dimension) {
                    Err(MovementError::IllegalMovement)
                } else if !spec_valid_target(b@, playing_color, m) {
                    Err(MovementError::BlockedPath)
                } else if piece.kind != PieceKind::King && piece.kind != PieceKind::Knight
                    && spec_blocked(b@, m, kind) {
                    Err(MovementError::BlockedPath)
                } else {
                    Ok(true)
                }
            },
        }
    }
}

impl Board {
    /// A board in a consistent state: a sane dimension, one entry per
    /// square, bounded coordinates.
    pub open spec fn wf(self) -> bool {
        &&& 0 <= self.dimension.x <= MAX_DIMENSION
        &&& 0 <= self.dimension.y <= MAX_DIMENSION
        &&& distinct_positions(self.positions@)
        &&& entries_bounded(self.positions@)
    }

    /// The captured pieces of `color`, oldest first.
    pub open spec fn dead_of(self, color: Color) -> Seq<PlacedPiece> {
        if color == Color::White {
            self.pieces_dead_white@
        } else {
            self.pieces_dead_black@
        }
    }

    /// Creates a board of the given dimension, optionally with some pieces
    /// already in place.
    pub fn new(dimension: Position, maybe_pieces: Option<Vec<(Position, PlacedPiece)>>) -> (r:
        Board)
        requires
            0 <= dimension.x <= MAX_DIMENSION,
            0 <= dimension.y <= MAX_DIMENSION,
            (maybe_pieces matches Some(ps) ==> entries_bounded(ps@)),
        ensures
            r.wf(),
            r.dimension == dimension,
            r@ == (match maybe_pieces {
                Some(ps) => add_all(Map::<Position, PlacedPiece>::empty(), ps@),
                None => Map::<Position, PlacedPiece>::empty(),
            }),
            r.dead_of(Color::White) == Seq::<PlacedPiece>::empty(),
            r.dead_of(Color::Black) == Seq::<PlacedPiece>::empty(),
    {
        let mut board = Board {
            dimension,
            positions: Vec::new(),
            pieces_dead_white: Vec::new(),
            pieces_dead_black: Vec::new(),
        };
        match maybe_pieces {
            Some(pieces) => {
                board.add_pieces(pieces);
            },
            None => {},
        }
        board
    }

    /// Puts pieces on the board; a piece placed on an occupied square
    /// replaces what stood there.
    pub fn add_pieces(&mut self, new_pieces: Vec<(Position, PlacedPiece)>)
        requires
            old(self).wf(),
            entries_bounded(new_pieces@),
        ensures
            final(self).wf(),
            final(self).dimension == old(self).dimension,
            final(self)@ == add_all(old(self)@, new_pieces@),
            final(self).pieces_dead_white == old(self).pieces_dead_white,
            final(self).pieces_dead_black == old(self).pieces_dead_black,
    {
        let ghost m0 = self@;
        let mut i: usize = 0;
        while i < new_pieces.len()
            invariant
                0 <= i <= new_pieces.len(),
                self.wf(),
                self.dimension == old(self).dimension,
                entries_bounded(new_pieces@),
                self@ == add_all(m0, new_pieces@.take(i as int)),
                self.pieces_dead_white == old(self).pieces_dead_white,
                self.pieces_dead_black == old(self).pieces_dead_black,
            decreases new_pieces.len() - i,
        {
            let (position, piece) = new_pieces[i];
            proof {
                assert(new_pieces@.skip(i as int)[0] == new_pieces@[i as int]);
                assert(new_pieces@.skip(i as int).drop_first() =~= new_pieces@.skip(i + 1));
                assert(new_pieces@.take(i + 1) =~= new_pieces@.take(i as int).push(
                    new_pieces@[i as int],
                ));
                lemma_add_all_push(m0, new_pieces@.take(i as int), new_pieces@[i as int]);
            }
            self.insert_piece(position, piece);
            i = i + 1;
        }
        proof {
            assert(new_pieces@.take(new_pieces@.len() as int) =~= new_pieces@);
        }
    }

    /// Looks up the piece standing on a square.
    pub fn pick_piece(&self, position: Position) -> (r: Option<PlacedPiece>)
        requires
            self.wf(),
        ensures
            match r {
                Some(p) => self@.contains_key(position) && self@[position] == p,
                None => !self@.contains_key(position),
            },
    {
        let mut i: usize = 0;
        while i < self.positions.len()
            invariant
                self.wf(),
                0 <= i <= self.positions.len(),
                forall|j: int| 0 <= j < i ==> self.positions@[j].0 != position,
            decreases self.positions.len() - i,
        {
            if self.positions[i].0 == position {
                proof {
                    lemma_to_map_index(self.positions@, i as int);
                }
                return Some(self.positions[i].1);
            }
            i = i + 1;
        }
        proof {
            lemma_to_map_contains(self.positions@, position);
        }
        None
    }

    /// Returns `true` when no piece stands on the square.
    pub fn square_is_empty(&self, position: Position) -> (r: bool)
        requires
            self.wf(),
        ensures
            r == !self@.contains_key(position),
    {
        self.pick_piece(position).is_none()
    }

    /// Puts a piece on a square, returning what stood there.
    fn insert_piece(&mut self, position: Position, piece: PlacedPiece) -> (r: Option<PlacedPiece>)
        requires
            old(self).wf(),
            pos_bounded(position),
        ensures
            final(self).wf(),
            final(self).dimension == old(self).dimension,
            final(self)@ == old(self)@.insert(position, piece),
            match r {
                Some(p) => old(self)@.contains_key(position) && old(self)@[position] == p,
                None => !old(self)@.contains_key(position),
            },
            final(self).pieces_dead_white == old(self).pieces_dead_white,
            final(self).pieces_dead_black == old(self).pieces_dead_black,
    {
        let mut i: usize = 0;
        while i < self.positions.len()
            invariant
                self == old(self),
                old(self).wf(),
                0 <= i <= self.positions.len(),
                forall|j: int| 0 <= j < i ==> self.positions@[j].0 != position,
            decreases self.positions.len() - i,
        {
            if self.positions[i].0 == position {
                let previous = self.positions[i].1;
                proof {
                    lemma_to_map_index(self.positions@, i as int);
                    lemma_to_map_update(self.positions@, i as int, (position, piece));
                }
                self.positions.set(i, (position, piece));
                return Some(previous);
            }
            i = i + 1;
        }
        proof {
            lemma_to_map_contains(self.positions@, position);
            assert(self.positions@.push((position, piece)).drop_last() =~= self.positions@);
        }
        self.positions.push((position, piece));
        None
    }

    /// Removes the piece on a square, if one stands there.
    fn remove_entry(&mut self, position: Position) -> (r: Option<PlacedPiece>)
        requires
            old(self).wf(),
        ensures
            final(self).wf(),
            final(self).dimension == old(self).dimension,
            final(self)@ == old(self)@.remove(position),
            match r {
                Some(p) => old(self)@.contains_key(position) && old(self)@[position] == p,
                None => !old(self)@.contains_key(position) && *final(self) == *old(self),
            },
            final(self).pieces_dead_white == old(self).pieces_dead_white,
            final(self).pieces_dead_black == old(self).pieces_dead_black,
    {
        let mut i: usize = 0;
        while i < self.positions.len()
            invariant
                self == old(self),
                old(self).wf(),
                0 <= i <= self.positions.len(),
                forall|j: int| 0 <= j < i ==> self.positions@[j].0 != position,
            decreases self.positions.len() - i,
        {
            if self.positions[i].0 == position {
                proof {
                    lemma_to_map_index(self.positions@, i as int);
                    lemma_to_map_remove(self.positions@, i as int);
                    assert(forall|a: int, b: int|
                        0 <= a < b < self.positions@.remove(i as int).len()
                            ==> self.positions@.remove(i as int)[a].0 != self.positions@.remove(
                            i as int,
                        )[b].0);
                }
                let removed = self.positions.remove(i);
                return Some(removed.1);
            }
            i = i + 1;
        }
        proof {
            lemma_to_map_contains(self.positions@, position);
            assert(self@ =~= self@.remove(position));
        }
        None
    }

    /// Removes (captures) the piece on a square; errs when the square is
    /// empty. The removed piece is not recorded as dead.
    pub fn remove_piece(&mut self, position: &Position) -> (r: Result<PlacedPiece, MovementError>)
        requires
            old(self).wf(),
        ensures
            final(self).wf(),
            final(self).dimension == old(self).dimension,
            final(self).pieces_dead_white == old(self).pieces_dead_white,
            final(self).pieces_dead_black == old(self).pieces_dead_black,
            match r {
                Ok(p) => old(self)@.contains_key(*position) && old(self)@[*position] == p
                    && final(self)@ == old(self)@.remove(*position),
                Err(e) => e == MovementError::NoPiece && !old(self)@.contains_key(*position)
                    && *final(self) == *old(self),
            },
    {
        match self.remove_entry(*position) {
            Some(piece) => Ok(piece),
            None => Err(MovementError::NoPiece),
        }
    }

    /// The captured pieces of a color, oldest first.
    pub fn dead_pieces(&self, color: Color) -> (r: &Vec<PlacedPiece>)
        ensures
            r@ == self.dead_of(color),
    {
        match color {
            Color::White => &self.pieces_dead_white,
            Color::Black => &self.pieces_dead_black,
        }
    }

    /// Empties the board: no living and no captured pieces remain.
    pub fn clean(&mut self) -> (r: Result<(), MovementError>)
        requires
            old(self).wf(),
        ensures
            final(self).wf(),
            final(self).dimension == old(self).dimension,
            r == Ok::<(), MovementError>(()),
            final(self)@ == Map::<Position, PlacedPiece>::empty(),
            final(self).dead_of(Color::White) == Seq::<PlacedPiece>::empty(),
            final(self).dead_of(Color::Black) == Seq::<PlacedPiece>::empty(),
    {
        self.positions.clear();
        self.pieces_dead_white.clear();
        self.pieces_dead_black.clear();
        Ok(())
    }

    /// Returns the direction of a movement along the axis named by
    /// `movement_kind`, given the distances travelled on each axis.
    fn movement_direction(
        playing_color: Color,
        movement: &Movement,
        movement_kind: MovementKind,
        variance: (u32, u32),
    ) -> (r: Direction)
        requires
            variance.0 == dist(movement.from.x as int, movement.to.x as int),
            variance.1 == dist(movement.from.y as int, movement.to.y as int),
        ensures
            (movement_kind matches MovementKind::Horizontal(_)) ==> r == spec_hdir(*movement),
            (movement_kind matches MovementKind::Vertical(_)) ==> r == spec_vdir(
                playing_color,
                *movement,
            ),
            !(movement_kind matches MovementKind::Horizontal(_)) && !(movement_kind
                matches MovementKind::Vertical(_)) ==> r == Direction::Unknown,
    {
        let (x_variance, y_variance) = variance;
        match movement_kind {
            MovementKind::Horizontal(_) => {
                if movement.to.x > movement.from.x {
                    Direction::Right(x_variance)
                } else if movement.to.x < movement.from.x {
                    Direction::Left(x_variance)
                } else {
                    Direction::Unknown
                }
            },
            MovementKind::Vertical(_) => {
                if movement.to.y > movement.from.y {
                    if playing_color == Color::White {
                        Direction::Forward(y_variance)
                    } else {
                        Direction::Backward(y_variance)
                    }
                } else if movement.to.y < movement.from.y {
                    if playing_color == Color::Black {
                        Direction::Forward(y_variance)
                    } else {
                        Direction::Backward(y_variance)
                    }
                } else {
                    Direction::Unknown
                }
            },
            _ => Direction::Unknown,
        }
    }

    /// Classifies a movement, rejecting one that goes nowhere or leaves
    /// the board.
    pub fn movement_kind(&self, playing_color: Color, movement: &Movement) -> (r: Result<
        MovementKind,
        MovementError,
    >)
        requires
            pos_bounded(movement.from),
            pos_bounded(movement.to),
        ensures
            r == spec_movement_kind(self.dimension, playing_color, *movement),
    {
        let no_move = movement.to.x == movement.from.x && movement.to.y == movement.from.y;
        if no_move {
            return Err(MovementError::IllegalMovement);
        }
        let out_of_bounds = movement.to.x > self.dimension.x || movement.to.y > self.dimension.y;
        if out_of_bounds {
            return Err(MovementError::OutOfBounds);
        }
        let x_variance: u32 = if movement.from.x >= movement.to.x {
            (movement.from.x - movement.to.x) as u32
        } else {
            (movement.to.x - movement.from.x) as u32
        };
        let y_variance: u32 = if movement.from.y >= movement.to.y {
            (movement.from.y - movement.to.y) as u32
        } else {
            (movement.to.y - movement.from.y) as u32
        };
        let variance = (x_variance, y_variance);
        if movement.from.x == movement.to.x {
            return Ok(
                MovementKind::Vertical(
                    Self::movement_direction(
                        playing_color,
                        movement,
                        MovementKind::Vertical(Direction::Unknown),
                        variance,
                    ),
                ),
            );
        }
        if movement.from.y == movement.to.y {
            return Ok(
                MovementKind::Horizontal(
                    Self::movement_direction(
                        playing_color,
                        movement,
                        MovementKind::Horizontal(Direction::Unknown),
                        variance,
                    ),
                ),
            );
        }
        if x_variance == y_variance {
            return Ok(
                MovementKind::Diagonal(
                    Self::movement_direction(
                        playing_color,
                        movement,
                        MovementKind::Vertical(Direction::Unknown),
                        variance,
                    ),
                    Self::movement_direction(
                        playing_color,
                        movement,
                        MovementKind::Horizontal(Direction::Unknown),
                        variance,
                    ),
                ),
            );
        }
        if (x_variance == 2 && y_variance == 1) || (x_variance == 1 && y_variance == 2) {
            return Ok(MovementKind::Knight);
        }
        Err(MovementError::IllegalMovement)
    }

    /// One step in any direction.
    fn king_step(movement_kind: &MovementKind) -> (r: bool)
        ensures
            r == king_allowed(*movement_kind),
    {
        match movement_kind {
            MovementKind::Vertical(Direction::Forward(n)) => *n == 1,
            MovementKind::Vertical(Direction::Backward(n)) => *n == 1,
            MovementKind::Horizontal(Direction::Left(n)) => *n == 1,
            MovementKind::Horizontal(Direction::Right(n)) => *n == 1,
            MovementKind::Diagonal(Direction::Forward(a), Direction::Right(b)) => *a == 1 && *b
                == 1,
            MovementKind::Diagonal(Direction::Forward(a), Direction::Left(b)) => *a == 1 && *b == 1,
            MovementKind::Diagonal(Direction::Backward(a), Direction::Right(b)) => *a == 1 && *b
                == 1,
            MovementKind::Diagonal(Direction::Backward(a), Direction::Left(b)) => *a == 1 && *b
                == 1,
            _ => false,
        }
    }

    /// A straight movement that stays within the board's extent.
    fn line_step(&self, movement_kind: &MovementKind) -> (r: bool)
        requires
            self.wf(),
        ensures
            r == line_allowed(*movement_kind, self.dimension),
    {
        match movement_kind {
            MovementKind::Vertical(Direction::Forward(n)) => 1 <= *n && *n <= self.dimension.y
                as u32,
            MovementKind::Vertical(Direction::Backward(n)) => 1 <= *n && *n <= self.dimension.y
                as u32,
            MovementKind::Horizontal(Direction::Left(n)) => 1 <= *n && *n <= self.dimension.x
                as u32,
            MovementKind::Horizontal(Direction::Right(n)) => 1 <= *n && *n <= self.dimension.x
                as u32,
            _ => false,
        }
    }

    /// A diagonal movement that stays within the board's extent.
    fn diag_step(&self, movement_kind: &MovementKind) -> (r: bool)
        requires
            self.wf(),
        ensures
            r == diag_allowed(*movement_kind, self.dimension),
    {
        let limit: u32 = if self.dimension.x <= self.dimension.y {
            self.dimension.x as u32
        } else {
            self.dimension.y as u32
        };
        match movement_kind {
            MovementKind::Diagonal(Direction::Forward(a), Direction::Right(b)) => *a == *b && 1
                <= *a && *a <= limit,
            MovementKind::Diagonal(Direction::Forward(a), Direction::Left(b)) => *a == *b && 1 <= *a
                && *a <= limit,
            MovementKind::Diagonal(Direction::Backward(a), Direction::Right(b)) => *a == *b && 1
                <= *a && *a <= limit,
            MovementKind::Diagonal(Direction::Backward(a), Direction::Left(b)) => *a == *b && 1
                <= *a && *a <= limit,
            _ => false,
        }
    }

    /// A pawn's step: one or two squares forward, or a forward diagonal of
    /// one square.
    fn pawn_step(movement_kind: &MovementKind) -> (r: bool)
        ensures
            r == pawn_allowed(*movement_kind),
    {
        match movement_kind {
            MovementKind::Vertical(Direction::Forward(n)) => *n == 1 || *n == 2,
            MovementKind::Diagonal(Direction::Forward(a), Direction::Left(b)) => *a == 1 && *b == 1,
            MovementKind::Diagonal(Direction::Forward(a), Direction::Right(b)) => *a == 1 && *b
                == 1,
            _ => false,
        }
    }

    /// Checks that a movement of the given shape is legal for the piece's
    /// kind on this board.
    pub fn is_valid_move(&self, piece: &PlacedPiece, movement_kind: &MovementKind) -> (r: Result<
        bool,
        MovementError,
    >)
        requires
            self.wf(),
        ensures
            kind_allowed(piece.kind, *movement_kind, self.dimension) ==> r == Ok::<
                bool,
                MovementError,
            >(true),
            !kind_allowed(piece.kind, *movement_kind, self.dimension) ==> r == Err::<
                bool,
                MovementError,
            >(MovementError::IllegalMovement),
    {
        let allowed = match piece.kind {
            PieceKind::King => Self::king_step(movement_kind),
            PieceKind::Queen => self.line_step(movement_kind) || self.diag_step(movement_kind),
            PieceKind::Rook => self.line_step(movement_kind),
            PieceKind::Bishop => self.diag_step(movement_kind),
            PieceKind::Knight => matches!(movement_kind, MovementKind::Knight),
            PieceKind::Pawn => Self::pawn_step(movement_kind),
        };
        if allowed {
            Ok(true)
        } else {
            Err(MovementError::IllegalMovement)
        }
    }

    /// Checks that the movement's destination is free or holds an
    /// opponent's piece.
    pub fn valid_target(&self, playing_color: Color, movement: &Movement) -> (r: bool)
        requires
            self.wf(),
        ensures
            r == spec_valid_target(self@, playing_color, *movement),
    {
        match self.pick_piece(movement.to) {
            Some(piece) => piece.color != playing_color,
            None => true,
        }
    }

    /// Returns `true` when a piece stands strictly between the movement's
    /// origin and destination.
    pub fn blocked_path(&self, movement: &Movement, movement_kind: &MovementKind) -> (r: bool)
        requires
            self.wf(),
            pos_bounded(movement.from),
            pos_bounded(movement.to),
        ensures
            r == spec_blocked(self@, *movement, *movement_kind),
    {
        match movement_kind {
            MovementKind::Vertical(_) => {
                let x = movement.from.x;
                let (lo, hi) = if movement.from.y <= movement.to.y {
                    (movement.from.y, movement.to.y)
                } else {
                    (movement.to.y, movement.from.y)
                };
                let mut y = lo + 1;
                while y < hi
                    invariant
                        self.wf(),
                        *movement_kind matches MovementKind::Vertical(_),
                        x == movement.from.x,
                        -MAX_COORD <= lo <= hi <= MAX_COORD,
                        (lo == movement.from.y && hi == movement.to.y) || (lo == movement.to.y
                            && hi == movement.from.y),
                        lo + 1 <= y,
                        y <= hi || y == lo + 1,
                        forall|y2: i32|
                            lo < y2 < y ==> !self@.contains_key(Position { x, y: y2 }),
                    decreases hi - y,
                {
                    if !self.square_is_empty(Position { x, y }) {
                        assert(between(movement.from.y as int, movement.to.y as int, y as int)
                            && self@.contains_key(Position { x: movement.from.x, y }));
                        assert(spec_blocked(self@, *movement, *movement_kind));
                        return true;
                    }
                    y = y + 1;
                }
                assert(forall|y2: i32|
                    between(movement.from.y as int, movement.to.y as int, y2 as int)
                        ==> !self@.contains_key(Position { x, y: y2 }));
                false
            },
            MovementKind::Horizontal(_) => {
                let y = movement.from.y;
                let (lo, hi) = if movement.from.x <= movement.to.x {
                    (movement.from.x, movement.to.x)
                } else {
                    (movement.to.x, movement.from.x)
                };
                let mut x = lo + 1;
                while x < hi
                    invariant
                        self.wf(),
                        *movement_kind matches MovementKind::Horizontal(_),
                        y == movement.from.y,
                        -MAX_COORD <= lo <= hi <= MAX_COORD,
                        (lo == movement.from.x && hi == movement.to.x) || (lo == movement.to.x
                            && hi == movement.from.x),
                        lo + 1 <= x,
                        x <= hi || x == lo + 1,
                        forall|x2: i32|
                            lo < x2 < x ==> !self@.contains_key(Position { x: x2, y }),
                    decreases hi - x,
                {
                    if !self.square_is_empty(Position { x, y }) {
                        assert(between(movement.from.x as int, movement.to.x as int, x as int)
                            && self@.contains_key(Position { x, y: movement.from.y }));
                        assert(spec_blocked(self@, *movement, *movement_kind));
                        return true;
                    }
                    x = x + 1;
                }
                assert(forall|x2: i32|
                    between(movement.from.x as int, movement.to.x as int, x2 as int)
                        ==> !self@.contains_key(Position { x: x2, y }));
                false
            },
            MovementKind::Diagonal(_, _) => {
                let n: i32 = if movement.from.x >= movement.to.x {
                    movement.from.x - movement.to.x
                } else {
                    movement.to.x - movement.from.x
                };
                let mut k: i32 = 1;
                while k < n
                    invariant
                        self.wf(),
                        *movement_kind matches MovementKind::Diagonal(_, _),
                        pos_bounded(movement.from),
                        pos_bounded(movement.to),
                        n == dist(movement.from.x as int, movement.to.x as int),
                        1 <= k,
                        k <= n || k == 1,
                        forall|j: int| 0 < j < k ==> !self@.contains_key(diag_pos(*movement, j)),
                    decreases n - k,
                {
                    let px = if movement.to.x > movement.from.x {
                        movement.from.x + k
                    } else {
                        movement.from.x - k
                    };
                    let py = if movement.to.y > movement.from.y {
                        movement.from.y + k
                    } else {
                        movement.from.y - k
                    };
                    if !self.square_is_empty(Position { x: px, y: py }) {
                        assert(Position { x: px, y: py } == diag_pos(*movement, k as int));
                        assert(0 < (k as int) && (k as int) < dist(
                            movement.from.x as int,
                            movement.to.x as int,
                        ) && self@.contains_key(diag_pos(*movement, k as int)));
                        assert(spec_blocked(self@, *movement, *movement_kind));
                        return true;
                    }
                    k = k + 1;
                }
                false
            },
            MovementKind::Knight => false,
        }
    }

    /// Checks every rule a movement must satisfy, in the order the errors
    /// are reported.
    pub fn can_move(&self, playing_color: Color, movement: &Movement) -> (r: Result<
        bool,
        MovementError,
    >)
        requires
            self.wf(),
            pos_bounded(movement.from),
            pos_bounded(movement.to),
        ensures
            r == spec_can_move(*self, playing_color, *movement),
    {
        let piece = match self.pick_piece(movement.from) {
            Some(p) => p,
            None => {
                return Err(MovementError::NoPiece);
            },
        };
        let movement_kind = match self.movement_kind(playing_color, movement) {
            Ok(k) => k,
            Err(e) => {
                return Err(e);
            },
        };
        // The piece's color must match the color whose turn it is.
        if piece.color != playing_color {
            return Err(MovementError::WrongPiece(piece.color));
        }
        // The movement must be legal for that kind of piece.
        match self.is_valid_move(&piece, &movement_kind) {
            Ok(_) => {},
            Err(e) => {
                return Err(e);
            },
        }
        // The destination must be free or hold an opponent's piece.
        if !self.valid_target(playing_color, movement) {
            return Err(MovementError::BlockedPath);
        }
        // Only the king and the knight may pass over other pieces.
        let blocked = self.blocked_path(movement, &movement_kind);
        if !piece.is_king() && !piece.is_knight() {
            if blocked {
                return Err(MovementError::BlockedPath);
            }
        }
        Ok(true)
    }

    /// Moves the origin's piece to the destination, recording a captured
    /// piece as dead.
    fn replace_square(&mut self, movement: &Movement) -> (r: Result<(), MovementError>)
        requires
            old(self).wf(),
            pos_bounded(movement.to),
            movement.from != movement.to,
        ensures
            final(self).wf(),
            final(self).dimension == old(self).dimension,
            old(self)@.contains_key(movement.from) ==> r == Ok::<(), MovementError>(())
                && final(self)@ == map_after_move(old(self)@, *movement)
                && final(self).dead_of(Color::White) == dead_after_move(*old(self), *movement, Color::White)
                && final(self).dead_of(Color::Black) == dead_after_move(*old(self), *movement, Color::Black),
            !old(self)@.contains_key(movement.from) ==> r == Err::<(), MovementError>(
                MovementError::NoPiece,
            ) && *final(self) == *old(self),
    {
        let piece_origin = match self.remove_entry(movement.from) {
            Some(p) => p,
            None => {
                return Err(MovementError::NoPiece);
            },
        };
        if let Some(killed) = self.insert_piece(movement.to, piece_origin) {
            match killed.color {
                Color::White => self.pieces_dead_white.push(killed),
                Color::Black => self.pieces_dead_black.push(killed),
            }
        }
        Ok(())
    }

    /// Carries out a movement for the playing color when every rule allows
    /// it; otherwise reports why it is refused and leaves the board as it
    /// was.
    pub fn move_piece(&mut self, playing_color: Color, movement: &Movement) -> (r: Result<
        (),
        MovementError,
    >)
        requires
            old(self).wf(),
            pos_bounded(movement.from),
            pos_bounded(movement.to),
        ensures
            final(self).wf(),
            final(self).dimension == old(self).dimension,
            match spec_can_move(*old(self), playing_color, *movement) {
                Err(e) => r == Err::<(), MovementError>(e) && *final(self) == *old(self),
                Ok(_) => r == Ok::<(), MovementError>(()) && final(self)@ == map_after_move(
                    old(self)@,
                    *movement,
                ) && final(self).dead_of(Color::White) == dead_after_move(
                    *old(self),
                    *movement,
                    Color::White,
                ) && final(self).dead_of(Color::Black) == dead_after_move(
                    *old(self),
                    *movement,
                    Color::Black,
                ),
            },
    {
        match self.can_move(playing_color, movement) {
            Ok(_) => self.replace_square(movement),
            Err(e) => Err(e),
        }
    }
}

impl MovementError {
    /// The message text for this error, as a character sequence.
    pub open spec fn spec_message(self) -> Seq<char> {
        match self {
            MovementError::OutOfBounds => "Out of bounds"@,
            MovementError::BlockedPath => "Blocked path"@,
            MovementError::IllegalMovement => "Illegal movement"@,
            MovementError::Check => "That would be check"@,
            MovementError::NoPiece => "There is not any piece in that square"@,
            MovementError::WrongCommand(command) => "\""@ + command@
                + "\" is not a valid movement command"@,
            MovementError::WrongPiece(color) => if color == Color::Black {
                "You can not play Black pieces"@
            } else {
                "You can not play White pieces"@
            },
        }
    }

    /// The message text for this error.
    pub fn message(&self) -> (r: String)
        ensures
            r@ == self.spec_message(),
    {
        match self {
            MovementError::OutOfBounds => String::from_str("Out of bounds"),
            MovementError::BlockedPath => String::from_str("Blocked path"),
            MovementError::IllegalMovement => String::from_str("Illegal movement"),
            MovementError::Check => String::from_str("That would be check"),
            MovementError::NoPiece => String::from_str("There is not any piece in that square"),
            MovementError::WrongCommand(command) => {
                let mut text = String::from_str("\"");
                text.append(command.as_str());
                text.append("\" is not a valid movement command");
                text
            },
            MovementError::WrongPiece(color) => match color {
                Color::Black => String::from_str("You can not play Black pieces"),
                Color::White => String::from_str("You can not play White pieces"),
            },
        }
    }
}

} // verus!
