//! The chess position as the library sees it (what stands on each of the 64
//! squares), its encoding as the network's input vector, and its material
//! balance.

use vstd::prelude::*;

verus! {

/// A chess piece kind.
#[derive(Debug, Clone, Copy, PartialEq, Eq, Structural)]
pub enum Piece {
    Pawn,
    Knight,
    Bishop,
    Rook,
    Queen,
    King,
}

/// A side.
#[derive(Debug, Clone, Copy, PartialEq, Eq, Structural)]
pub enum Color {
    White,
    Black,
}

/// What stands on one square: nothing, or a piece of a side.
pub type Square = Option<(Piece, Color)>;

/// The number of squares of a board.
pub const BOARD_SQUARES: usize = 64;

impl Piece {
    /// The piece's position in the order pawn, knight, bishop, rook, queen, king.
    pub open spec fn index(self) -> int {
        match self {
            Piece::Pawn => 0,
            Piece::Knight => 1,
            Piece::Bishop => 2,
            Piece::Rook => 3,
            Piece::Queen => 4,
            Piece::King => 5,
        }
    }
}

impl Color {
    /// `1` for white, `-1` for black.
    pub open spec fn spec_to_sign(self) -> i8 {
        match self {
            Color::White => 1i8,
            Color::Black => -1i8,
        }
    }

    /// `1` for white, `-1` for black.
    pub fn to_sign(self) -> (r: i8)
        ensures
            r == self.spec_to_sign(),
    {
        match self {
            Color::White => 1,
            Color::Black => -1,
        }
    }

    /// The other side.
    pub open spec fn opposite(self) -> Color {
        match self {
            Color::White => Color::Black,
            Color::Black => Color::White,
        }
    }
}

/// How many groups of 6 x 64 inputs the board encoding uses.
#[derive(Debug, Clone, Copy, PartialEq, Eq, Structural)]
pub enum NumberOfDepthChannels {
    /// One channel per piece kind and side.
    Two,
    /// Also one channel per piece kind for both sides, holding `1`, or the
    /// side's sign when `use_opposite_signs` is set.
    Three { use_opposite_signs: bool },
    /// Also one channel per piece kind for both sides holding `1`, and one
    /// holding the side's sign.
    Four,
}

/// The encoding the networks are trained with.
pub const NUMBER_OF_DEPTH_CHANNELS: NumberOfDepthChannels = NumberOfDepthChannels::Four;

impl NumberOfDepthChannels {
    pub open spec fn spec_to_u32(self) -> u32 {
        match self {
            NumberOfDepthChannels::Two => 2,
            NumberOfDepthChannels::Three { .. } => 3,
            NumberOfDepthChannels::Four => 4,
        }
    }

    /// The number of channels.
    pub fn to_u32(self) -> (r: u32)
        ensures
            r == self.spec_to_u32(),
    {
        match self {
            NumberOfDepthChannels::Two => 2,
            NumberOfDepthChannels::Three { use_opposite_signs: _ } => 3,
            NumberOfDepthChannels::Four => 4,
        }
    }
}

/// The channel (group of 64 inputs) of a piece of a side: white pawn .. king
/// are 0 .. 5, black pawn .. king are 6 .. 11.
pub open spec fn side_channel(piece: Piece, color: Color) -> int {
    match color {
        Color::White => piece.index(),
        Color::Black => 6 + piece.index(),
    }
}

/// The input of the network at `channel * 64 + square` for the position `squares`.
pub open spec fn nn_input_value(squares: Seq<Square>, channels: NumberOfDepthChannels, channel: int, square: int) -> i8 {
    match squares[square] {
        None => 0,
        Some((piece, color)) => if channel == side_channel(piece, color) {
            1
        } else {
            match channels {
                NumberOfDepthChannels::Two => 0,
                NumberOfDepthChannels::Three { use_opposite_signs } => if channel == 12 + piece.index() {
                    if use_opposite_signs { color.spec_to_sign() } else { 1 }
                } else {
                    0
                },
                NumberOfDepthChannels::Four => if channel == 12 + piece.index() {
                    1
                } else if channel == 18 + piece.index() {
                    color.spec_to_sign()
                } else {
                    0
                },
            }
        },
    }
}

/// The network input for `squares`: `channels * 6` channels of 64 values, the
/// value at `channel * 64 + square` being `nn_input_value`.
pub open spec fn nn_input(squares: Seq<Square>, channels: NumberOfDepthChannels) -> Seq<i8> {
    Seq::new(
        (channels.spec_to_u32() * 6 * 64) as nat,
        |i: int| nn_input_value(squares, channels, i / 64, i % 64),
    )
}

fn channel_of(piece: Piece, color: Color) -> (r: usize)
    ensures
        r == side_channel(piece, color),
{
    let p: usize = match piece {
        Piece::Pawn => 0,
        Piece::Knight => 1,
        Piece::Bishop => 2,
        Piece::Rook => 3,
        Piece::Queen => 4,
        Piece::King => 5,
    };
    match color {
        Color::White => p,
        Color::Black => 6 + p,
    }
}

fn piece_index(piece: Piece) -> (r: usize)
    ensures
        r == piece.index(),
{
    match piece {
        Piece::Pawn => 0,
        Piece::Knight => 1,
        Piece::Bishop => 2,
        Piece::Rook => 3,
        Piece::Queen => 4,
        Piece::King => 5,
    }
}

/// The network input for the position `squares` (64 squares, a1, b1 .. h8)
/// under the given channel layout.
pub fn board_to_vector_with_channels(squares: &[Square], channels: NumberOfDepthChannels) -> (r: Vec<i8>)
    requires
        squares@.len() == BOARD_SQUARES,
    ensures
        r@ == nn_input(squares@, channels),
{
    let size: usize = channels.to_u32() as usize * 6 * 64;
    let mut result: Vec<i8> = Vec::new();
    while result.len() < size
        invariant
            result@.len() <= size,
            forall|i: int| 0 <= i < result@.len() ==> result@[i] == 0,
        decreases size - result@.len(),
    {
        result.push(0);
    }
    let mut s: usize = 0;
    while s < 64
        invariant
            s <= 64,
            squares@.len() == BOARD_SQUARES,
            size == channels.spec_to_u32() * 6 * 64,
            result@.len() == size,
            forall|i: int| #![trigger result@[i]] 0 <= i < size ==>
                result@[i] == if i % 64 < s { nn_input_value(squares@, channels, i / 64, i % 64) } else { 0 },
        decreases 64 - s,
    {
        match squares[s] {
            None => {},
            Some((piece, color)) => {
                let ghost before = result@;
                let c = channel_of(piece, color);
                result.set(64 * c + s, 1);
                match channels {
                    NumberOfDepthChannels::Two => {},
                    NumberOfDepthChannels::Three { use_opposite_signs } => {
                        let value: i8 = if !use_opposite_signs { 1 } else { color.to_sign() };
                        result.set(64 * (12 + piece_index(piece)) + s, value);
                    },
                    NumberOfDepthChannels::Four => {
                        result.set(64 * (12 + piece_index(piece)) + s, 1);
                        result.set(64 * (18 + piece_index(piece)) + s, color.to_sign());
                    },
                }
                proof {
                    assert forall|i: int| #![trigger result@[i]] 0 <= i < size implies
                        result@[i] == if i % 64 < s + 1 { nn_input_value(squares@, channels, i / 64, i % 64) } else { 0 } by {
                        if i % 64 == s {
                            assert(i == 64 * (i / 64) + s);
                        } else {
                            assert(result@[i] == before[i]);
                        }
                    }
                }
            },
        }
        s = s + 1;
    }
    proof {
        assert(result@ =~= nn_input(squares@, channels));
    }
    result
}

/// The network input for the position `squares`, in the layout the networks are trained with.
pub fn board_to_vector_for_nn(squares: &[Square]) -> (r: Vec<i8>)
    requires
        squares@.len() == BOARD_SQUARES,
    ensures
        r@ == nn_input(squares@, NUMBER_OF_DEPTH_CHANNELS),
{
    board_to_vector_with_channels(squares, NUMBER_OF_DEPTH_CHANNELS)
}

/// A piece's value in half pawns: pawn 2, knight 5, bishop 6, rook 10,
/// queen 16, king 20 (that is, 1, 2.5, 3, 5, 8 and 10 pawns).
pub open spec fn piece_half_pawns(piece: Piece) -> int {
    match piece {
        Piece::Pawn => 2,
        Piece::Knight => 5,
        Piece::Bishop => 6,
        Piece::Rook => 10,
        Piece::Queen => 16,
        Piece::King => 20,
    }
}

/// A piece's value in half pawns.
pub fn piece_to_half_pawns(piece: Piece) -> (r: i32)
    ensures
        r == piece_half_pawns(piece),
{
    match piece {
        Piece::Pawn => 2,
        Piece::Knight => 5,
        Piece::Bishop => 6,
        Piece::Rook => 10,
        Piece::Queen => 16,
        Piece::King => 20,
    }
}

/// The pieces' values in half pawns are, from the pawn up, 2, 5, 6, 10, 16
/// and 20: strictly increasing, a rook worth a bishop and two pawns, a queen
/// a rook and a bishop, and a king two rooks; so a lone rook against a lone
/// bishop is 4 half pawns ahead.
pub proof fn lemma_piece_values()
    ensures
        piece_half_pawns(Piece::Pawn) == 2,
        piece_half_pawns(Piece::Knight) == 5,
        piece_half_pawns(Piece::Bishop) == 6,
        piece_half_pawns(Piece::Rook) == 10,
        piece_half_pawns(Piece::Queen) == 16,
        piece_half_pawns(Piece::King) == 20,
        piece_half_pawns(Piece::Pawn) < piece_half_pawns(Piece::Knight) < piece_half_pawns(Piece::Bishop)
            < piece_half_pawns(Piece::Rook) < piece_half_pawns(Piece::Queen) < piece_half_pawns(Piece::King),
        piece_half_pawns(Piece::Rook) == piece_half_pawns(Piece::Bishop) + 2 * piece_half_pawns(Piece::Pawn),
        piece_half_pawns(Piece::Queen) == piece_half_pawns(Piece::Rook) + piece_half_pawns(Piece::Bishop),
        piece_half_pawns(Piece::King) == 2 * piece_half_pawns(Piece::Rook),
{
}

/// The material balance adds up over the parts of a board.
pub proof fn lemma_material_delta_additive(a: Seq<Square>, b: Seq<Square>)
    ensures
        material_delta(a + b) == material_delta(a) + material_delta(b),
    decreases b.len(),
{
    if b.len() == 0 {
        assert(a + b =~= a);
    } else {
        assert((a + b).drop_last() =~= a + b.drop_last());
        lemma_material_delta_additive(a, b.drop_last());
    }
}

/// Putting `sq` on square `i` changes the balance by the difference between
/// its value and the value of what stood there.
pub proof fn lemma_material_delta_update(squares: Seq<Square>, i: int, sq: Square)
    requires
        0 <= i < squares.len(),
    ensures
        material_delta(squares.update(i, sq)) == material_delta(squares) - square_material(squares[i])
            + square_material(sq),
    decreases squares.len(),
{
    let u = squares.update(i, sq);
    if i == squares.len() - 1 {
        assert(u.drop_last() =~= squares.drop_last());
    } else {
        assert(u.drop_last() =~= squares.drop_last().update(i, sq));
        lemma_material_delta_update(squares.drop_last(), i, sq);
    }
}

/// The signed value of what stands on a square: positive for white, negative for black.
pub open spec fn square_material(square: Square) -> int {
    match square {
        None => 0,
        Some((piece, Color::White)) => piece_half_pawns(piece),
        Some((piece, Color::Black)) => -piece_half_pawns(piece),
    }
}

/// White's material minus black's, in half pawns, over all squares.
pub open spec fn material_delta(squares: Seq<Square>) -> int
    decreases squares.len(),
{
    if squares.len() == 0 {
        0
    } else {
        material_delta(squares.drop_last()) + square_material(squares.last())
    }
}

proof fn lemma_material_delta_bound(squares: Seq<Square>)
    ensures
        -20 * squares.len() <= material_delta(squares) <= 20 * squares.len(),
    decreases squares.len(),
{
    if squares.len() > 0 {
        lemma_material_delta_bound(squares.drop_last());
    }
}

/// White's material minus black's on the position `squares`, in half pawns.
pub fn material_delta_in_half_pawns(squares: &[Square]) -> (r: i32)
    requires
        squares@.len() == BOARD_SQUARES,
    ensures
        r == material_delta(squares@),
{
    let mut delta: i32 = 0;
    let mut i: usize = 0;
    while i < squares.len()
        invariant
            i <= squares@.len(),
            squares@.len() == BOARD_SQUARES,
            delta == material_delta(squares@.subrange(0, i as int)),
        decreases squares@.len() - i,
    {
        proof {
            assert(squares@.subrange(0, i + 1).drop_last() =~= squares@.subrange(0, i as int));
            lemma_material_delta_bound(squares@.subrange(0, i + 1));
        }
        match squares[i] {
            None => {},
            Some((piece, color)) => {
                let value = piece_to_half_pawns(piece);
                delta = match color {
                    Color::White => delta + value,
                    Color::Black => delta - value,
                };
            },
        }
        i = i + 1;
    }
    proof {
        assert(squares@.subrange(0, squares@.len() as int) =~= squares@);
    }
    delta
}

/// The position with every piece handed to the other side.
pub open spec fn swap_colors(squares: Seq<Square>) -> Seq<Square> {
    squares.map_values(|sq: Square| match sq {
        None => None,
        Some((piece, color)) => Some((piece, color.opposite())),
    })
}

/// Handing every piece to the other side negates the material balance.
pub proof fn lemma_material_delta_swap_colors(squares: Seq<Square>)
    ensures
        material_delta(swap_colors(squares)) == -material_delta(squares),
    decreases squares.len(),
{
    if squares.len() > 0 {
        assert(swap_colors(squares).drop_last() =~= swap_colors(squares.drop_last()));
        assert(swap_colors(squares).last() == swap_colors(squares)[squares.len() - 1]);
        lemma_material_delta_swap_colors(squares.drop_last());
    }
}

/// An empty board encodes to all zeros and has no material balance.
pub proof fn lemma_empty_board(squares: Seq<Square>, channels: NumberOfDepthChannels)
    requires
        squares.len() == BOARD_SQUARES,
        forall|i: int| 0 <= i < squares.len() ==> squares[i] is None,
    ensures
        forall|i: int| 0 <= i < nn_input(squares, channels).len() ==> #[trigger] nn_input(squares, channels)[i] == 0,
        material_delta(squares) == 0,
{
    assert forall|i: int| 0 <= i < nn_input(squares, channels).len() implies #[trigger] nn_input(squares, channels)[i] == 0 by {
        assert(squares[i % 64] is None);
    }
    lemma_material_delta_zero(squares);
}

proof fn lemma_material_delta_zero(squares: Seq<Square>)
    requires
        forall|i: int| 0 <= i < squares.len() ==> squares[i] is None,
    ensures
        material_delta(squares) == 0,
    decreases squares.len(),
{
    if squares.len() > 0 {
        lemma_material_delta_zero(squares.drop_last());
    }
}

/// The encoding the networks are trained with has exactly as many values as a
/// network has inputs.
pub proof fn lemma_encoding_fills_the_input_layer(squares: Seq<Square>)
    ensures
        nn_input(squares, NUMBER_OF_DEPTH_CHANNELS).len() == crate::nn::INPUT_SIZE,
{
}


/// On a board that holds a single piece, the balance is that piece's value,
/// counted for white when the piece is white and against white when it is
/// black.
pub proof fn lemma_material_delta_single_piece(squares: Seq<Square>, i: int, piece: Piece, color: Color)
    requires
        0 <= i < squares.len(),
        forall|j: int| 0 <= j < squares.len() ==> squares[j] is None,
    ensures
        material_delta(squares.update(i, Some((piece, color)))) == match color {
            Color::White => piece_half_pawns(piece),
            Color::Black => -piece_half_pawns(piece),
        },
        material_delta(squares.update(i, Some((piece, color)))) != 0,
{
    lemma_material_delta_zero(squares);
    lemma_material_delta_update(squares, i, Some((piece, color)));
}

} // verus!
