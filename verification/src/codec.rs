//! The protocol codec: positions in the two notations, colours, and the
//! choice of metric.

use crate::number::{
    decimal, find_char, integer_within, lemma_decimal, lemma_find_char, lemma_find_char_at,
    parse_integer, push_decimal,
};
use crate::text::{
    chars_of, is_digit, is_text, lemma_trimmed_plain, lowercase, lowered, slice_of,
    string_of, trim, trimmed, upper, uppercase, uppered,
};
use vstd::prelude::*;

verus! {

/// Why a position could not be converted.
#[derive(Debug, Clone, Copy, PartialEq, Eq, Structural)]
pub enum CodecError {
    /// An internal position without a comma.
    InvalidPos,
    /// An internal position whose first part is no integer.
    InvalidX,
    /// An internal position whose second part is no integer.
    InvalidY,
    /// An internal position outside the board.
    PosOutOfBounds,
    /// A protocol coordinate shorter than a letter and a digit, or one that
    /// starts with no column letter.
    BadGtp,
    /// A protocol coordinate whose row is no integer.
    BadRow,
    /// A protocol coordinate outside the board.
    GtpOutOfBounds,
}

/// The scalar that ranks candidate moves.
#[derive(Debug, Clone, Copy, PartialEq, Eq, Structural)]
pub enum Metric {
    /// The probability of winning.
    Winrate,
    /// The estimated lead in points.
    ScoreLead,
}

/// The range of a 32-bit signed integer, in which coordinates are read.
pub open spec fn coordinate_value(s: Seq<char>) -> Option<int> {
    integer_within(s, -0x8000_0000, 0x7fff_ffff)
}

/// Both coordinates lie between 1 and `size`.
pub open spec fn on_board(x: int, y: int, size: int) -> bool {
    1 <= x <= size && 1 <= y <= size
}

/// The protocol's letter for column `y`: `A` to `H` for 1 to 8, then on from
/// `J`, so that `I` is never written.
pub open spec fn column_letter(y: int) -> char {
    if y <= 8 {
        (64 + y) as char
    } else {
        (65 + y) as char
    }
}

/// A letter that names a column: a capital letter other than `I`.
pub open spec fn is_column_letter(c: char) -> bool {
    ('A' <= c <= 'H') || ('J' <= c <= 'Z')
}

/// The column that the column letter `c` stands for.
pub open spec fn letter_column(c: char) -> int {
    if c <= 'H' {
        c as int - 64
    } else {
        c as int - 65
    }
}

/// The protocol coordinate of the position `(x, y)` on a board of `size`: the
/// column letter, then the row `size - x + 1`.
pub open spec fn gtp_coord(x: int, y: int, size: int) -> Seq<char> {
    seq![column_letter(y)] + decimal((size - x + 1) as nat)
}

/// The internal notation of the position `(x, y)`.
pub open spec fn xy_text(x: int, y: int) -> Seq<char> {
    decimal(x as nat) + seq![','] + decimal(y as nat)
}

/// The coordinates that the internal position `pos` writes: what stands
/// before its first comma and what stands after it, each trimmed and read as
/// an integer.
pub open spec fn position_of(pos: Seq<char>) -> Result<(int, int), CodecError> {
    let p = find_char(pos, ',', 0);
    if p >= pos.len() {
        Err(CodecError::InvalidPos)
    } else {
        match coordinate_value(trimmed(pos.subrange(0, p))) {
            None => Err(CodecError::InvalidX),
            Some(x) => match coordinate_value(trimmed(pos.subrange(p + 1, pos.len() as int))) {
                None => Err(CodecError::InvalidY),
                Some(y) => Ok((x, y)),
            },
        }
    }
}

/// What `xy_to_gtp` returns for the internal position `pos`.
pub open spec fn xy_to_gtp_spec(pos: Seq<char>, size: u8) -> Result<Seq<char>, CodecError> {
    match position_of(pos) {
        Err(e) => Err(e),
        Ok((x, y)) => if on_board(x, y, size as int) {
            Ok(gtp_coord(x, y, size as int))
        } else {
            Err(CodecError::PosOutOfBounds)
        },
    }
}

/// Whether the trimmed, capitalised coordinate `c` is one of the two literal
/// moves that are no positions.
pub open spec fn is_pass_or_resign(c: Seq<char>) -> bool {
    c == "PASS"@ || c == "RESIGN"@
}

/// What `gtp_to_xy` returns for the protocol coordinate `coord`.
pub open spec fn gtp_to_xy_spec(coord: Seq<char>, size: u8) -> Result<Seq<char>, CodecError> {
    let c = uppered(trimmed(coord));
    if is_pass_or_resign(c) {
        Ok(c)
    } else if c.len() < 2 {
        Err(CodecError::BadGtp)
    } else {
        match coordinate_value(c.subrange(1, c.len() as int)) {
            None => Err(CodecError::BadRow),
            Some(row) => {
                let x = size - row + 1;
                let y = letter_column(c[0]);
                if !is_column_letter(c[0]) {
                    Err(CodecError::BadGtp)
                } else if on_board(x, y, size as int) {
                    Ok(xy_text(x, y))
                } else {
                    Err(CodecError::GtpOutOfBounds)
                }
            },
        }
    }
}

/// The protocol's letter for a colour name: `W` for "w" and "white" in any
/// case, `B` for everything else.
pub open spec fn color_letter(color: Seq<char>) -> char {
    if lowered(color) == "w"@ || lowered(color) == "white"@ {
        'W'
    } else {
        'B'
    }
}

/// The metric that a request names: win rate for "winrate" in any case, score
/// lead for everything else and where none is named.
pub open spec fn metric_of(m: Option<Seq<char>>) -> Metric {
    match m {
        Some(s) => if lowered(s) == "winrate"@ {
            Metric::Winrate
        } else {
            Metric::ScoreLead
        },
        None => Metric::ScoreLead,
    }
}

/// The letter of column `y` is read back as it was written: it is one of
/// the capital letters that name a column, which is so for the columns 1 to
/// 25.
pub open spec fn column_survives(y: int) -> bool {
    is_column_letter(column_letter(y))
}

/// A position off the board is refused, whatever the size of the board.
pub proof fn lemma_off_board_is_refused(pos: Seq<char>, x: int, y: int, size: u8)
    requires
        position_of(pos) == Ok::<(int, int), CodecError>((x, y)),
        !on_board(x, y, size as int),
    ensures
        xy_to_gtp_spec(pos, size) == Err::<Seq<char>, CodecError>(CodecError::PosOutOfBounds),
{
}

/// The internal notation of a position on the board is read as that position.
pub proof fn lemma_xy_text_is_read(x: int, y: int, size: u8)
    requires
        on_board(x, y, size as int),
    ensures
        position_of(xy_text(x, y)) == Ok::<(int, int), CodecError>((x, y)),
{
    let dx = decimal(x as nat);
    let dy = decimal(y as nat);
    let pos = xy_text(x, y);
    lemma_decimal(x as nat);
    lemma_decimal(y as nat);
    assert forall|k: int| 0 <= k < dx.len() implies #[trigger] pos[k] != ',' by {
        assert(pos[k] == dx[k]);
        assert(is_digit(dx[k]));
    }
    assert(pos[dx.len() as int] == ',');
    lemma_find_char_at(pos, ',', 0, dx.len() as int);
    assert(pos.subrange(0, dx.len() as int) =~= dx);
    assert(pos.subrange(dx.len() as int + 1, pos.len() as int) =~= dy);
    assert(is_digit(dx[0]) && is_digit(dx.last()));
    assert(is_digit(dy[0]) && is_digit(dy.last()));
    lemma_trimmed_plain(dx);
    lemma_trimmed_plain(dy);
}

/// Writing a position on the board in the protocol's notation and reading it
/// back gives the position again, and so does the way from the internal
/// notation to the protocol's and back, for every column that has a letter
/// of its own.
pub proof fn lemma_round_trip(x: int, y: int, size: u8)
    requires
        on_board(x, y, size as int),
        column_survives(y),
    ensures
        xy_to_gtp_spec(xy_text(x, y), size) == Ok::<Seq<char>, CodecError>(
            gtp_coord(x, y, size as int),
        ),
        gtp_to_xy_spec(gtp_coord(x, y, size as int), size) == Ok::<Seq<char>, CodecError>(
            xy_text(x, y),
        ),
{
    lemma_xy_text_is_read(x, y, size);
    let row = size - x + 1;
    let dr = decimal(row as nat);
    let g = gtp_coord(x, y, size as int);
    let letter = column_letter(y);
    lemma_decimal(row as nat);
    assert(g[0] == letter);
    assert(g.last() == dr.last());
    assert(is_digit(dr.last()));
    lemma_trimmed_plain(g);
    assert forall|k: int| 0 <= k < g.len() implies upper(#[trigger] g[k]) == g[k] by {
        if k > 0 {
            assert(g[k] == dr[k - 1]);
            assert(is_digit(dr[k - 1]));
        }
    }
    assert(uppered(g) =~= g);
    assert(g[1] == dr[0]);
    assert(is_digit(dr[0]));
    reveal_strlit("PASS");
    reveal_strlit("RESIGN");
    assert("PASS"@[1] == 'A');
    assert("RESIGN"@[1] == 'E');
    assert(!is_pass_or_resign(g));
    assert(g.subrange(1, g.len() as int) =~= dr);
    assert(letter_column(letter) == y);
}

/// A coordinate that starts with no column letter is refused on every board,
/// the letter `I` among them.
pub proof fn lemma_no_column_letter_is_refused(coord: Seq<char>, size: u8)
    requires
        !is_pass_or_resign(uppered(trimmed(coord))),
        uppered(trimmed(coord)).len() > 0 ==> !is_column_letter(uppered(trimmed(coord))[0]),
    ensures
        gtp_to_xy_spec(coord, size) is Err,
{
}

/// A coordinate that is read as a position is the only way to write that
/// position, but for its case, the white space round it and the form of its
/// row: the position is on the board, it is written with the column letter
/// that the coordinate starts with, and writing it is not refused. So two
/// coordinates with different column letters are never read as one position.
pub proof fn lemma_read_is_written(coord: Seq<char>, size: u8)
    requires
        gtp_to_xy_spec(coord, size) is Ok,
        !is_pass_or_resign(uppered(trimmed(coord))),
    ensures
        exists|x: int, y: int|
            on_board(x, y, size as int) && gtp_to_xy_spec(coord, size) == Ok::<
                Seq<char>,
                CodecError,
            >(xy_text(x, y)) && #[trigger] gtp_coord(x, y, size as int)[0] == uppered(
                trimmed(coord),
            )[0] && xy_to_gtp_spec(xy_text(x, y), size) == Ok::<Seq<char>, CodecError>(
                gtp_coord(x, y, size as int),
            ),
{
    let c = uppered(trimmed(coord));
    let row = coordinate_value(c.subrange(1, c.len() as int))->Some_0;
    let x = size - row + 1;
    let y = letter_column(c[0]);
    lemma_xy_text_is_read(x, y, size);
    assert(gtp_coord(x, y, size as int)[0] == column_letter(y));
    assert(column_letter(y) == c[0]);
}

impl CodecError {
    /// The message that goes with the error.
    pub open spec fn message_spec(self) -> Seq<char> {
        match self {
            CodecError::InvalidPos => "invalid pos"@,
            CodecError::InvalidX => "invalid x"@,
            CodecError::InvalidY => "invalid y"@,
            CodecError::PosOutOfBounds => "pos out of bounds"@,
            CodecError::BadGtp => "bad gtp"@,
            CodecError::BadRow => "bad row"@,
            CodecError::GtpOutOfBounds => "gtp out of bounds"@,
        }
    }

    /// The message that goes with the error.
    pub fn message(&self) -> (s: &'static str)
        ensures
            s@ == self.message_spec(),
    {
        match self {
            CodecError::InvalidPos => "invalid pos",
            CodecError::InvalidX => "invalid x",
            CodecError::InvalidY => "invalid y",
            CodecError::PosOutOfBounds => "pos out of bounds",
            CodecError::BadGtp => "bad gtp",
            CodecError::BadRow => "bad row",
            CodecError::GtpOutOfBounds => "gtp out of bounds",
        }
    }
}

/// The first index at or after `from` where `v` holds `c`, or the length.
pub fn find(v: &Vec<char>, c: char, from: usize) -> (p: usize)
    requires
        from <= v.len(),
    ensures
        p == find_char(v@, c, from as int),
        from <= p <= v.len(),
{
    let mut p: usize = from;
    proof {
        lemma_find_char(v@, c, from as int);
    }
    while p < v.len() && v[p] != c
        invariant
            from <= p <= v.len(),
            find_char(v@, c, p as int) == find_char(v@, c, from as int),
        decreases v.len() - p,
    {
        p += 1;
    }
    p
}

/// The character for column `y`.
fn column_char(y: u8) -> (c: char)
    ensures
        c == column_letter(y as int),
{
    let n: u32 = if y <= 8 {
        64 + y as u32
    } else {
        65 + y as u32
    };
    match char::from_u32(n) {
        Some(c) => c,
        None => 'A',
    }
}

/// Converts the internal position `pos` ("x,y", both counted from 1) to the
/// protocol coordinate on a board of `size`.
pub fn xy_to_gtp(pos: &str, size: u8) -> (r: Result<String, CodecError>)
    ensures
        match r {
            Ok(s) => xy_to_gtp_spec(pos@, size) == Ok::<Seq<char>, CodecError>(s@),
            Err(e) => xy_to_gtp_spec(pos@, size) == Err::<Seq<char>, CodecError>(e),
        },
{
    let v = chars_of(pos);
    let p = find(&v, ',', 0);
    if p >= v.len() {
        return Err(CodecError::InvalidPos);
    }
    let a = trim(&slice_of(&v, 0, p));
    let b = trim(&slice_of(&v, p + 1, v.len()));
    let x = match parse_integer(&a, -0x8000_0000, 0x7fff_ffff) {
        Some(x) => x,
        None => {
            return Err(CodecError::InvalidX);
        },
    };
    let y = match parse_integer(&b, -0x8000_0000, 0x7fff_ffff) {
        Some(y) => y,
        None => {
            return Err(CodecError::InvalidY);
        },
    };
    if x < 1 || y < 1 || x > size as i64 || y > size as i64 {
        return Err(CodecError::PosOutOfBounds);
    }
    let mut out: Vec<char> = Vec::new();
    out.push(column_char(y as u8));
    push_decimal(&mut out, (size as i64 - x + 1) as u64);
    assert(out@ =~= gtp_coord(x as int, y as int, size as int));
    Ok(string_of(&out))
}

/// Converts the protocol coordinate `coord` to the internal position on a
/// board of `size`; "pass" and "resign", in any case, come back capitalised.
pub fn gtp_to_xy(coord: &str, size: u8) -> (r: Result<String, CodecError>)
    ensures
        match r {
            Ok(s) => gtp_to_xy_spec(coord@, size) == Ok::<Seq<char>, CodecError>(s@),
            Err(e) => gtp_to_xy_spec(coord@, size) == Err::<Seq<char>, CodecError>(e),
        },
{
    let c = uppercase(&trim(&chars_of(coord)));
    if is_text(&c, "PASS") || is_text(&c, "RESIGN") {
        return Ok(string_of(&c));
    }
    if c.len() < 2 {
        return Err(CodecError::BadGtp);
    }
    let rest = slice_of(&c, 1, c.len());
    let row = match parse_integer(&rest, -0x8000_0000, 0x7fff_ffff) {
        Some(row) => row,
        None => {
            return Err(CodecError::BadRow);
        },
    };
    let col = c[0];
    if !(('A' <= col && col <= 'H') || ('J' <= col && col <= 'Z')) {
        return Err(CodecError::BadGtp);
    }
    let x: i64 = size as i64 - row + 1;
    let y: i64 = if col <= 'H' {
        col as u32 as i64 - 64
    } else {
        col as u32 as i64 - 65
    };
    if x < 1 || y < 1 || x > size as i64 || y > size as i64 {
        return Err(CodecError::GtpOutOfBounds);
    }
    let mut out: Vec<char> = Vec::new();
    push_decimal(&mut out, x as u64);
    out.push(',');
    push_decimal(&mut out, y as u64);
    assert(out@ =~= xy_text(x as int, y as int));
    Ok(string_of(&out))
}

/// The protocol's letter for a colour name, as text: "W" for "w" and "white"
/// in any case, "B" for everything else.
pub fn color_to_gtp(color: &str) -> (r: &'static str)
    ensures
        r@ == seq![color_letter(color@)],
{
    let c = lowercase(&chars_of(color));
    proof {
        reveal_strlit("B");
        reveal_strlit("W");
    }
    if is_text(&c, "w") || is_text(&c, "white") {
        assert("W"@ =~= seq!['W']);
        "W"
    } else {
        assert("B"@ =~= seq!['B']);
        "B"
    }
}

/// The metric that a request names.
pub fn parse_metric(m: Option<&str>) -> (r: Metric)
    ensures
        r == metric_of(
            match m {
                Some(s) => Some(s@),
                None => None,
            },
        ),
{
    match m {
        Some(s) => {
            let c = lowercase(&chars_of(s));
            if is_text(&c, "winrate") {
                Metric::Winrate
            } else {
                Metric::ScoreLead
            }
        },
        None => Metric::ScoreLead,
    }
}

} // verus!
