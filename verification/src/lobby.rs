//! The lobby's requests: which page of rooms is asked for, and which
//! leaderboard.

use vstd::prelude::*;

verus! {

/// The rooms of a page where the request names no number.
pub const DEFAULT_PAGE_SIZE: i32 = 20;

/// The most rooms that a page holds.
pub const MAX_PAGE_SIZE: i32 = 100;

/// The entries of a leaderboard where the request names no number.
pub const DEFAULT_LEADERBOARD_LIMIT: i32 = 50;

/// A request for a page of open rooms.
pub struct ListRoomsRequest {
    /// The board size of the rooms, or all sizes.
    pub model: Option<i32>,
    /// The page, counted from 1.
    pub page: Option<i32>,
    /// The rooms on a page.
    pub size: Option<i32>,
}

/// A request for a leaderboard.
pub struct GetLeaderboardRequest {
    /// The board size of the leaderboard.
    pub model: i32,
    /// How many entries to show.
    pub limit: Option<i32>,
}

/// A part of a list: `limit` entries after the first `offset`.
#[derive(Debug, Clone, Copy, PartialEq, Eq, Structural)]
pub struct Window {
    pub limit: i64,
    pub offset: i64,
}

/// Why a request of the lobby is refused.
#[derive(Debug, Clone, Copy, PartialEq, Eq, Structural)]
pub enum LobbyError {
    /// The board size is none of 7, 9, 13 and 19.
    InvalidModel,
}

/// The page that is meant: the one named, or the first; never one before the
/// first.
pub open spec fn page_of(page: Option<i32>) -> int {
    match page {
        Some(p) => if p < 1 {
            1
        } else {
            p as int
        },
        None => 1,
    }
}

/// The page size that is meant: the one named, or twenty; at least one and at
/// most a hundred.
pub open spec fn page_size_of(size: Option<i32>) -> int {
    match size {
        Some(s) => if s < 1 {
            1
        } else if s > MAX_PAGE_SIZE {
            MAX_PAGE_SIZE as int
        } else {
            s as int
        },
        None => DEFAULT_PAGE_SIZE as int,
    }
}

/// Whether `model` is a board size that is played.
pub open spec fn is_model(model: i32) -> bool {
    model == 7 || model == 9 || model == 13 || model == 19
}

/// The part of the list that a page covers.
pub fn page_window(page: Option<i32>, size: Option<i32>) -> (w: Window)
    ensures
        w.limit == page_size_of(size),
        w.offset == (page_of(page) - 1) * page_size_of(size),
{
    let p: i64 = match page {
        Some(p) => if p < 1 {
            1
        } else {
            p as i64
        },
        None => 1,
    };
    let s: i64 = match size {
        Some(s) => if s < 1 {
            1
        } else if s > MAX_PAGE_SIZE {
            MAX_PAGE_SIZE as i64
        } else {
            s as i64
        },
        None => DEFAULT_PAGE_SIZE as i64,
    };
    assert((p - 1) * s <= 0x7fff_ffff * 100) by (nonlinear_arith)
        requires
            1 <= p <= 0x7fff_ffff,
            1 <= s <= 100,
    ;
    assert((p - 1) * s >= 0) by (nonlinear_arith)
        requires
            1 <= p,
            1 <= s,
    ;
    Window { limit: s, offset: (p - 1) * s }
}

/// The part of the list of open rooms that a request asks for.
pub fn list_rooms(req: &ListRoomsRequest) -> (w: Window)
    ensures
        w.limit == page_size_of(req.size),
        w.offset == (page_of(req.page) - 1) * page_size_of(req.size),
{
    page_window(req.page, req.size)
}

/// The number of entries that a request for a leaderboard asks for, fifty
/// where it names none; a request for a board size that is not played is
/// refused.
pub fn get_leaderboard(req: &GetLeaderboardRequest) -> (r: Result<i32, LobbyError>)
    ensures
        is_model(req.model) ==> r == Ok::<i32, LobbyError>(
            match req.limit {
                Some(l) => l,
                None => DEFAULT_LEADERBOARD_LIMIT,
            },
        ),
        !is_model(req.model) ==> r == Err::<i32, LobbyError>(LobbyError::InvalidModel),
{
    if req.model == 7 || req.model == 9 || req.model == 13 || req.model == 19 {
        Ok(
            match req.limit {
                Some(l) => l,
                None => DEFAULT_LEADERBOARD_LIMIT,
            },
        )
    } else {
        Err(LobbyError::InvalidModel)
    }
}

} // verus!
