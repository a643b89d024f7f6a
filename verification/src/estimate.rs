//! The score estimator's edge: what is handed to the native estimator and
//! how its list of dead stones is laid out. The estimator itself is the
//! caller's.

use crate::codec::{coordinate_value, find};
use crate::number::{find_char, parse_integer};
use crate::text::{chars_of, is_text, slice_of, texts};
use vstd::prelude::*;

verus! {

/// The estimator's code for black.
pub const BLACK: i32 = 1;

/// The estimator's code for white.
pub const WHITE: i32 = 2;

/// A request for the estimated score of several boards.
pub struct ScoreEstimateRequest {
    /// The boards, in order.
    pub boards: Vec<ScoreEstimateBoardRequest>,
}

/// One board of a request for an estimate.
pub struct ScoreEstimateBoardRequest {
    /// The size of the board.
    pub board_size: u8,
    /// The black stones, in internal notation.
    pub black_stones: Vec<String>,
    /// The white stones, in internal notation.
    pub white_stones: Vec<String>,
    /// The side to move: "black" or "white"; black where there is none.
    pub next_to_move: Option<String>,
}

/// A stone as the estimator takes it: coordinates counted from 0, and the
/// code of its colour.
#[derive(Debug, Clone, Copy, PartialEq, Eq, Structural)]
pub struct Stone {
    pub x: i32,
    pub y: i32,
    pub color: i32,
}

/// What the estimator is given for one board.
pub struct BoardSetup {
    /// The width and the height of the board.
    pub size: i32,
    /// The stones, black before white, each colour in the request's order.
    pub stones: Vec<Stone>,
    /// The code of the side to move.
    pub player: i32,
}

/// What `parse_position` returns for `pos`: the two integers on either side
/// of its one comma, read as they stand; the message of the first thing that
/// is wrong otherwise.
pub open spec fn parse_position_spec(pos: Seq<char>) -> Result<(int, int), Seq<char>> {
    let p = find_char(pos, ',', 0);
    if p >= pos.len() || find_char(pos, ',', p + 1) < pos.len() {
        Err("Invalid position format"@)
    } else {
        match coordinate_value(pos.subrange(0, p)) {
            None => Err("Invalid x coordinate"@),
            Some(x) => match coordinate_value(pos.subrange(p + 1, pos.len() as int)) {
                None => Err("Invalid y coordinate"@),
                Some(y) => Ok((x, y)),
            },
        }
    }
}

/// The stone of colour `color` at the position `pos`, counted from 0. A
/// coordinate that cannot be counted down within 32 bits is refused like one
/// that is no integer.
pub open spec fn stone_of(pos: Seq<char>, color: i32) -> Result<Stone, Seq<char>> {
    match parse_position_spec(pos) {
        Err(m) => Err(m),
        Ok((x, y)) => if x <= -0x8000_0000 {
            Err("Invalid x coordinate"@)
        } else if y <= -0x8000_0000 {
            Err("Invalid y coordinate"@)
        } else {
            Ok(Stone { x: (x - 1) as i32, y: (y - 1) as i32, color: color })
        },
    }
}

/// The stones of colour `color` at the positions `list`, or the message of the
/// first position that is refused.
pub open spec fn stones_of(list: Seq<Seq<char>>, color: i32) -> Result<Seq<Stone>, Seq<char>>
    decreases list.len(),
{
    if list.len() == 0 {
        Ok(Seq::empty())
    } else {
        match stones_of(list.drop_last(), color) {
            Err(m) => Err(m),
            Ok(stones) => match stone_of(list.last(), color) {
                Err(m) => Err(m),
                Ok(s) => Ok(stones.push(s)),
            },
        }
    }
}

/// All stones of a board: the black ones, then the white ones.
pub open spec fn board_stones_spec(black: Seq<Seq<char>>, white: Seq<Seq<char>>) -> Result<
    Seq<Stone>,
    Seq<char>,
> {
    match stones_of(black, BLACK) {
        Err(m) => Err(m),
        Ok(b) => match stones_of(white, WHITE) {
            Err(m) => Err(m),
            Ok(w) => Ok(b + w),
        },
    }
}

/// The estimator's code for the side to move: white for "white", black for
/// everything else and where no side is named.
pub open spec fn player_code_spec(next: Option<Seq<char>>) -> i32 {
    match next {
        Some(s) => if s == "white"@ {
            WHITE
        } else {
            BLACK
        },
        None => BLACK,
    }
}

/// How many pairs a flat list of `len` numbers gives when `count` are
/// announced: the announced number, but none below zero and no more than the
/// list holds.
pub open spec fn pair_limit(len: int, count: int) -> int {
    if count <= 0 {
        0
    } else if count <= len / 2 {
        count
    } else {
        len / 2
    }
}

/// Reads an internal position: two integers with one comma between them.
pub fn parse_position(pos: &str) -> (r: Result<(i32, i32), String>)
    ensures
        match r {
            Ok(p) => parse_position_spec(pos@) == Ok::<(int, int), Seq<char>>(
                (p.0 as int, p.1 as int),
            ),
            Err(m) => parse_position_spec(pos@) == Err::<(int, int), Seq<char>>(m@),
        },
{
    let v = chars_of(pos);
    let p = find(&v, ',', 0);
    if p >= v.len() {
        return Err("Invalid position format".to_owned());
    }
    if find(&v, ',', p + 1) < v.len() {
        return Err("Invalid position format".to_owned());
    }
    let x = match parse_integer(&slice_of(&v, 0, p), -0x8000_0000, 0x7fff_ffff) {
        Some(x) => x,
        None => {
            return Err("Invalid x coordinate".to_owned());
        },
    };
    let y = match parse_integer(&slice_of(&v, p + 1, v.len()), -0x8000_0000, 0x7fff_ffff) {
        Some(y) => y,
        None => {
            return Err("Invalid y coordinate".to_owned());
        },
    };
    Ok((x as i32, y as i32))
}

/// The stone of colour `color` at the position `pos`.
fn stone_at(pos: &str, color: i32) -> (r: Result<Stone, String>)
    ensures
        match r {
            Ok(s) => stone_of(pos@, color) == Ok::<Stone, Seq<char>>(s),
            Err(m) => stone_of(pos@, color) == Err::<Stone, Seq<char>>(m@),
        },
{
    match parse_position(pos) {
        Err(m) => Err(m),
        Ok((x, y)) => {
            if x == i32::MIN {
                Err("Invalid x coordinate".to_owned())
            } else if y == i32::MIN {
                Err("Invalid y coordinate".to_owned())
            } else {
                Ok(Stone { x: x - 1, y: y - 1, color })
            }
        },
    }
}

/// Appends the stones of colour `color` at the positions `list` to `out`;
/// on a position that is refused, its message comes back and `out` holds the
/// stones before it.
fn push_stones(out: &mut Vec<Stone>, list: &Vec<String>, color: i32) -> (r: Result<(), String>)
    ensures
        match r {
            Ok(_) => stones_of(texts(list@), color) is Ok && final(out)@ == old(out)@ + stones_of(
                texts(list@),
                color,
            )->Ok_0,
            Err(m) => stones_of(texts(list@), color) == Err::<Seq<Stone>, Seq<char>>(m@),
        },
{
    let ghost all = texts(list@);
    let mut i: usize = 0;
    assert(all.take(0) =~= Seq::<Seq<char>>::empty());
    assert(out@ =~= old(out)@ + Seq::<Stone>::empty());
    while i < list.len()
        invariant
            i <= list.len(),
            all == texts(list@),
            stones_of(all.take(i as int), color) is Ok,
            out@ == old(out)@ + stones_of(all.take(i as int), color)->Ok_0,
        decreases list.len() - i,
    {
        assert(all.take(i + 1).drop_last() =~= all.take(i as int));
        assert(all.take(i + 1).last() == list[i as int]@);
        let ghost sofar = stones_of(all.take(i as int), color)->Ok_0;
        match stone_at(list[i].as_str(), color) {
            Ok(s) => {
                out.push(s);
                assert(out@ =~= old(out)@ + sofar.push(s));
            },
            Err(m) => {
                proof {
                    lemma_stones_fail(all, i as int, color);
                }
                return Err(m);
            },
        }
        i += 1;
    }
    assert(all.take(list.len() as int) =~= all);
    Ok(())
}

/// Once a position is refused, the whole list is refused with the message of
/// the first such position.
pub proof fn lemma_stones_fail(list: Seq<Seq<char>>, i: int, color: i32)
    requires
        0 <= i < list.len(),
        stones_of(list.take(i), color) is Ok,
        stone_of(list[i], color) is Err,
    ensures
        stones_of(list, color) == Err::<Seq<Stone>, Seq<char>>(stone_of(list[i], color)->Err_0),
    decreases list.len(),
{
    if i == list.len() - 1 {
        assert(list.drop_last() =~= list.take(i));
    } else {
        assert(list.drop_last().take(i) =~= list.take(i));
        lemma_stones_fail(list.drop_last(), i, color);
    }
}

/// The stones of a board as the estimator takes them: the black ones, then
/// the white ones, or the message of the first position that is refused.
pub fn board_stones(black: &Vec<String>, white: &Vec<String>) -> (r: Result<Vec<Stone>, String>)
    ensures
        match r {
            Ok(s) => board_stones_spec(texts(black@), texts(white@)) == Ok::<
                Seq<Stone>,
                Seq<char>,
            >(s@),
            Err(m) => board_stones_spec(texts(black@), texts(white@)) == Err::<
                Seq<Stone>,
                Seq<char>,
            >(m@),
        },
{
    let mut out: Vec<Stone> = Vec::new();
    match push_stones(&mut out, black, BLACK) {
        Err(m) => {
            return Err(m);
        },
        Ok(_) => {},
    }
    assert(out@ =~= stones_of(texts(black@), BLACK)->Ok_0);
    match push_stones(&mut out, white, WHITE) {
        Err(m) => {
            return Err(m);
        },
        Ok(_) => {},
    }
    Ok(out)
}

/// The estimator's code for the side to move.
pub fn player_code(next: Option<&str>) -> (r: i32)
    ensures
        r == player_code_spec(
            match next {
                Some(s) => Some(s@),
                None => None,
            },
        ),
{
    match next {
        Some(s) => {
            if is_text(&chars_of(s), "white") {
                WHITE
            } else {
                BLACK
            }
        },
        None => BLACK,
    }
}

/// What the estimator is given for one board of a request.
pub fn estimate_board_score(board: &ScoreEstimateBoardRequest) -> (r: Result<BoardSetup, String>)
    ensures
        match r {
            Ok(b) => b.size == board.board_size && board_stones_spec(
                texts(board.black_stones@),
                texts(board.white_stones@),
            ) == Ok::<Seq<Stone>, Seq<char>>(b.stones@) && b.player == player_code_spec(
                match board.next_to_move {
                    Some(s) => Some(s@),
                    None => None,
                },
            ),
            Err(m) => board_stones_spec(texts(board.black_stones@), texts(board.white_stones@))
                == Err::<Seq<Stone>, Seq<char>>(m@),
        },
{
    match board_stones(&board.black_stones, &board.white_stones) {
        Err(m) => Err(m),
        Ok(stones) => {
            let player = match &board.next_to_move {
                Some(s) => player_code(Some(s.as_str())),
                None => player_code(None),
            };
            Ok(BoardSetup { size: board.board_size as i32, stones, player })
        },
    }
}

/// The pairs that a flat list of coordinates holds, of which `count` are
/// announced.
pub fn get_dead_stones(flat: &Vec<i32>, count: i32) -> (r: Vec<(i32, i32)>)
    ensures
        r.len() == pair_limit(flat.len() as int, count as int),
        forall|i: int| 0 <= i < r.len() ==> #[trigger] r[i] == (flat[2 * i], flat[2 * i + 1]),
{
    let half = flat.len() / 2;
    let n: usize = if count <= 0 {
        0
    } else if (count as usize) <= half {
        count as usize
    } else {
        half
    };
    let mut r: Vec<(i32, i32)> = Vec::new();
    let mut i: usize = 0;
    while i < n
        invariant
            i <= n,
            n <= flat.len() / 2,
            r.len() == i,
            forall|k: int| 0 <= k < i ==> #[trigger] r[k] == (flat[2 * k], flat[2 * k + 1]),
        decreases n - i,
    {
        r.push((flat[2 * i], flat[2 * i + 1]));
        i += 1;
    }
    r
}

/// The coordinates of the pairs in one flat list: x, y, x, y, and so on.
pub fn flatten_dead_stones(pairs: &Vec<(i32, i32)>) -> (r: Vec<i32>)
    ensures
        r.len() == 2 * pairs.len(),
        forall|i: int|
            0 <= i < pairs.len() ==> r[2 * i] == (#[trigger] pairs[i]).0 && r[2 * i + 1]
                == pairs[i].1,
{
    let mut r: Vec<i32> = Vec::new();
    let mut i: usize = 0;
    while i < pairs.len()
        invariant
            i <= pairs.len(),
            r.len() == 2 * i,
            forall|k: int|
                0 <= k < i ==> r[2 * k] == (#[trigger] pairs[k]).0 && r[2 * k + 1] == pairs[k].1,
        decreases pairs.len() - i,
    {
        r.push(pairs[i].0);
        r.push(pairs[i].1);
        i += 1;
    }
    r
}

/// Why a request for an estimate is refused.
pub enum EstimateError {
    /// The request names no board.
    NoBoards,
    /// A stone of a board is refused, with this message.
    Board(String),
}

impl EstimateError {
    /// The message that goes with the error.
    pub fn message(&self) -> (s: String)
        ensures
            s@ == match self {
                EstimateError::NoBoards => "no boards provided"@,
                EstimateError::Board(m) => m@,
            },
    {
        match self {
            EstimateError::NoBoards => "no boards provided".to_owned(),
            EstimateError::Board(m) => m.clone(),
        }
    }
}

/// The stones of a board of a request.
pub open spec fn stones_of_board(board: ScoreEstimateBoardRequest) -> Result<
    Seq<Stone>,
    Seq<char>,
> {
    board_stones_spec(texts(board.black_stones@), texts(board.white_stones@))
}

/// The side to move on a board of a request.
pub open spec fn player_of_board(board: ScoreEstimateBoardRequest) -> i32 {
    player_code_spec(
        match board.next_to_move {
            Some(s) => Some(s@),
            None => None,
        },
    )
}

/// The first board at or after `i` with a stone that is refused, or the
/// number of boards.
pub open spec fn first_refused(boards: Seq<ScoreEstimateBoardRequest>, i: int) -> int
    decreases boards.len() - i,
{
    if 0 <= i < boards.len() && stones_of_board(boards[i]) is Ok {
        first_refused(boards, i + 1)
    } else {
        i
    }
}

/// Whether `setup` is what the estimator is given for `board`.
pub open spec fn is_setup_of(setup: BoardSetup, board: ScoreEstimateBoardRequest) -> bool {
    &&& setup.size == board.board_size
    &&& stones_of_board(board) == Ok::<Seq<Stone>, Seq<char>>(setup.stones@)
    &&& setup.player == player_of_board(board)
}

/// What the estimator is given for each board of a request, in order. A
/// request without boards is refused, and so is one with a stone that is
/// refused, with the message of the first such board.
pub fn estimate_with_score_estimator(req: &ScoreEstimateRequest) -> (r: Result<
    Vec<BoardSetup>,
    EstimateError,
>)
    ensures
        req.boards.len() == 0 ==> r is Err && r->Err_0 is NoBoards,
        req.boards.len() > 0 && first_refused(req.boards@, 0) < req.boards.len() ==> r is Err
            && r->Err_0 is Board && stones_of_board(req.boards[first_refused(req.boards@, 0)])
            == Err::<Seq<Stone>, Seq<char>>(r->Err_0->Board_0@),
        req.boards.len() > 0 && first_refused(req.boards@, 0) >= req.boards.len() ==> r is Ok
            && r->Ok_0.len() == req.boards.len() && forall|i: int|
            0 <= i < req.boards.len() ==> is_setup_of(#[trigger] r->Ok_0[i], req.boards[i]),
{
    if req.boards.len() == 0 {
        return Err(EstimateError::NoBoards);
    }
    let mut out: Vec<BoardSetup> = Vec::new();
    let mut i: usize = 0;
    while i < req.boards.len()
        invariant
            i <= req.boards.len(),
            out.len() == i,
            first_refused(req.boards@, i as int) == first_refused(req.boards@, 0),
            forall|k: int| 0 <= k < i ==> is_setup_of(#[trigger] out[k], req.boards[k]),
        decreases req.boards.len() - i,
    {
        match estimate_board_score(&req.boards[i]) {
            Ok(setup) => {
                out.push(setup);
            },
            Err(m) => {
                return Err(EstimateError::Board(m));
            },
        }
        i += 1;
    }
    Ok(out)
}

} // verus!
