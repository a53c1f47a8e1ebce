//! Piece kinds, piece colors, and the factory that builds a placed piece
//! from a piece type.
use vstd::prelude::*;

verus! {

/// Identity of one of the two players, which is also the color of the
/// pieces that player moves.
#[derive(PartialEq, Eq, Hash, Copy, Clone, Debug, Structural)]
pub enum Color {
    Black,
    White,
}

impl Color {
    /// The opponent's color, in specifications.
    pub open spec fn spec_other(self) -> Color {
        match self {
            Color::White => Color::Black,
            Color::Black => Color::White,
        }
    }

    /// The opponent's color.
    pub fn other(&self) -> (r: Color)
        ensures
            r == self.spec_other(),
    {
        match self {
            Color::White => Color::Black,
            Color::Black => Color::White,
        }
    }
}

/// The closed set of chess piece kinds.
#[derive(PartialEq, Eq, Copy, Clone, Debug, Structural)]
pub enum PieceKind {
    King,
    Queen,
    Rook,
    Bishop,
    Knight,
    Pawn,
}

/// A piece as it stands on the board: a kind together with the color of
/// the player that owns it.
#[derive(PartialEq, Eq, Copy, Clone, Debug, Structural)]
pub struct PlacedPiece {
    pub kind: PieceKind,
    pub color: Color,
}

/// The one-character label for a piece: upper case for White, lower case
/// for Black.
pub open spec fn spec_symbol(p: PlacedPiece) -> char {
    match (p.color, p.kind) {
        (Color::White, PieceKind::King) => 'K',
        (Color::White, PieceKind::Queen) => 'Q',
        (Color::White, PieceKind::Rook) => 'R',
        (Color::White, PieceKind::Bishop) => 'B',
        (Color::White, PieceKind::Knight) => 'N',
        (Color::White, PieceKind::Pawn) => 'P',
        (Color::Black, PieceKind::King) => 'k',
        (Color::Black, PieceKind::Queen) => 'q',
        (Color::Black, PieceKind::Rook) => 'r',
        (Color::Black, PieceKind::Bishop) => 'b',
        (Color::Black, PieceKind::Knight) => 'n',
        (Color::Black, PieceKind::Pawn) => 'p',
    }
}

impl PlacedPiece {
    /// The color of the player that owns this piece.
    pub fn color(&self) -> (c: Color)
        ensures
            c == self.color,
    {
        self.color
    }

    /// The kind of this piece.
    pub fn kind(&self) -> (k: PieceKind)
        ensures
            k == self.kind,
    {
        self.kind
    }

    pub fn is_king(&self) -> (r: bool)
        ensures
            r == (self.kind == PieceKind::King),
    {
        matches!(self.kind, PieceKind::King)
    }

    pub fn is_queen(&self) -> (r: bool)
        ensures
            r == (self.kind == PieceKind::Queen),
    {
        matches!(self.kind, PieceKind::Queen)
    }

    pub fn is_rook(&self) -> (r: bool)
        ensures
            r == (self.kind == PieceKind::Rook),
    {
        matches!(self.kind, PieceKind::Rook)
    }

    pub fn is_bishop(&self) -> (r: bool)
        ensures
            r == (self.kind == PieceKind::Bishop),
    {
        matches!(self.kind, PieceKind::Bishop)
    }

    pub fn is_knight(&self) -> (r: bool)
        ensures
            r == (self.kind == PieceKind::Knight),
    {
        matches!(self.kind, PieceKind::Knight)
    }

    pub fn is_pawn(&self) -> (r: bool)
        ensures
            r == (self.kind == PieceKind::Pawn),
    {
        matches!(self.kind, PieceKind::Pawn)
    }

    /// The one-character label for this piece.
    pub fn symbol(&self) -> (c: char)
        ensures
            c == spec_symbol(*self),
    {
        match (self.color, self.kind) {
            (Color::White, PieceKind::King) => 'K',
            (Color::White, PieceKind::Queen) => 'Q',
            (Color::White, PieceKind::Rook) => 'R',
            (Color::White, PieceKind::Bishop) => 'B',
            (Color::White, PieceKind::Knight) => 'N',
            (Color::White, PieceKind::Pawn) => 'P',
            (Color::Black, PieceKind::King) => 'k',
            (Color::Black, PieceKind::Queen) => 'q',
            (Color::Black, PieceKind::Rook) => 'r',
            (Color::Black, PieceKind::Bishop) => 'b',
            (Color::Black, PieceKind::Knight) => 'n',
            (Color::Black, PieceKind::Pawn) => 'p',
        }
    }
}

/// A chess piece type: something that can be built from a color and knows
/// which of the six kinds it is.
pub trait Piece: Sized {
    /// The kind shared by every piece of this type.
    spec fn spec_kind() -> PieceKind;

    /// The color this piece was built with.
    spec fn spec_color(&self) -> Color;

    fn new(color: Color) -> (r: Self)
        ensures
            r.spec_color() == color;

    fn color(&self) -> (c: Color)
        ensures
            c == self.spec_color(),
    ;

    fn kind(&self) -> (k: PieceKind)
        ensures
            k == Self::spec_kind(),
    ;
}

pub struct King(pub Color);

pub struct Queen(pub Color);

pub struct Rook(pub Color);

pub struct Bishop(pub Color);

pub struct Knight(pub Color);

pub struct Pawn(pub Color);

impl Piece for King {
    open spec fn spec_kind() -> PieceKind {
        PieceKind::King
    }

    open spec fn spec_color(&self) -> Color {
        self.0
    }

    fn new(color: Color) -> Self {
        King(color)
    }

    fn color(&self) -> Color {
        self.0
    }

    fn kind(&self) -> PieceKind {
        PieceKind::King
    }
}

impl Piece for Queen {
    open spec fn spec_kind() -> PieceKind {
        PieceKind::Queen
    }

    open spec fn spec_color(&self) -> Color {
        self.0
    }

    fn new(color: Color) -> Self {
        Queen(color)
    }

    fn color(&self) -> Color {
        self.0
    }

    fn kind(&self) -> PieceKind {
        PieceKind::Queen
    }
}

impl Piece for Rook {
    open spec fn spec_kind() -> PieceKind {
        PieceKind::Rook
    }

    open spec fn spec_color(&self) -> Color {
        self.0
    }

    fn new(color: Color) -> Self {
        Rook(color)
    }

    fn color(&self) -> Color {
        self.0
    }

    fn kind(&self) -> PieceKind {
        PieceKind::Rook
    }
}

impl Piece for Bishop {
    open spec fn spec_kind() -> PieceKind {
        PieceKind::Bishop
    }

    open spec fn spec_color(&self) -> Color {
        self.0
    }

    fn new(color: Color) -> Self {
        Bishop(color)
    }

    fn color(&self) -> Color {
        self.0
    }

    fn kind(&self) -> PieceKind {
        PieceKind::Bishop
    }
}

impl Piece for Knight {
    open spec fn spec_kind() -> PieceKind {
        PieceKind::Knight
    }

    open spec fn spec_color(&self) -> Color {
        self.0
    }

    fn new(color: Color) -> Self {
        Knight(color)
    }

    fn color(&self) -> Color {
        self.0
    }

    fn kind(&self) -> PieceKind {
        PieceKind::Knight
    }
}

impl Piece for Pawn {
    open spec fn spec_kind() -> PieceKind {
        PieceKind::Pawn
    }

    open spec fn spec_color(&self) -> Color {
        self.0
    }

    fn new(color: Color) -> Self {
        Pawn(color)
    }

    fn color(&self) -> Color {
        self.0
    }

    fn kind(&self) -> PieceKind {
        PieceKind::Pawn
    }
}

/// Builds a placed piece from a piece type and a color.
pub struct PieceFactory;

impl PieceFactory {
    pub fn create<T: Piece>(color: Color) -> (p: PlacedPiece)
        ensures
            p.kind == T::spec_kind(),
            p.color == color,
    {
        let piece = T::new(color);
        PlacedPiece { kind: piece.kind(), color: piece.color() }
    }
}

} // verus!
