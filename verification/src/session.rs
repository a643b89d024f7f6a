//! The engine session as the library sees it: how the engine is started, and
//! the command lines that set up a position and ask for a move or an
//! analysis. Running the process and moving the lines is the caller's part.

use crate::analysis::{is_pass, is_resign, value_of_special};
use crate::codec::{color_letter, xy_to_gtp, xy_to_gtp_spec, CodecError, Metric};
use crate::number::{decimal, push_decimal, push_scaled, scaled_text};
use crate::text::{
    chars_of, is_text, lowercase, lowered, push_text, string_of, texts, trim, trimmed,
};
use vstd::prelude::*;

verus! {

/// The komi of a request that names none: seven and a half points, in
/// ten-thousandths of a point.
pub const DEFAULT_KOMI: i64 = 75_000;

/// One move of a game's history.
pub struct MoveItem {
    /// "black" or "white".
    pub color: String,
    /// The position in internal notation: "x,y", both counted from 1.
    pub position: String,
}

/// The mathematical content of a `MoveItem`.
pub ghost struct MoveItemView {
    pub color: Seq<char>,
    pub position: Seq<char>,
}

impl View for MoveItem {
    type V = MoveItemView;

    open spec fn view(&self) -> MoveItemView {
        MoveItemView { color: self.color@, position: self.position@ }
    }
}

/// The views of a history.
pub open spec fn move_views(v: Seq<MoveItem>) -> Seq<MoveItemView> {
    Seq::new(v.len(), |i: int| v[i]@)
}

/// What the caller found in the environment for starting the engine.
pub struct EngineEnv {
    /// The engine's binary (`KATAGO_BIN`).
    pub bin: Option<String>,
    /// A binary to run in its place (`KATAGO_BIN_REAL`).
    pub bin_real: Option<String>,
    /// The model file (`KATAGO_MODEL`).
    pub model: Option<String>,
    /// The configuration file of the protocol server (`KATAGO_GTP_CONFIG`).
    pub config: Option<String>,
    /// Options that override the configuration (`KATAGO_OVERRIDES`).
    pub overrides: Option<String>,
}

/// How to start the engine.
pub struct Launch {
    /// The program to run.
    pub program: String,
    /// Its arguments, in order.
    pub args: Vec<String>,
}

/// A required setting that is missing.
#[derive(Debug, Clone, Copy, PartialEq, Eq, Structural)]
pub enum ConfigError {
    /// `KATAGO_BIN` is not set.
    BinNotSet,
    /// `KATAGO_MODEL` is not set.
    ModelNotSet,
    /// `KATAGO_GTP_CONFIG` is not set.
    ConfigNotSet,
}

/// The view of an optional text.
pub open spec fn text_view(t: Option<String>) -> Option<Seq<char>> {
    match t {
        Some(s) => Some(s@),
        None => None,
    }
}

/// The program that is run: the replacement binary if it is set to more than
/// white space, the binary otherwise.
pub open spec fn program_of(bin: Seq<char>, bin_real: Option<Seq<char>>) -> Seq<char> {
    match bin_real {
        Some(r) => if trimmed(r).len() > 0 {
            r
        } else {
            bin
        },
        None => bin,
    }
}

/// The options handed to the engine: those of the environment, or, where
/// there are none, the one that switches pondering off.
pub open spec fn overrides_of(overrides: Option<Seq<char>>) -> Seq<char> {
    match overrides {
        Some(o) => o,
        None => "ponderingEnabled=false"@,
    }
}

/// The arguments that start the engine as a protocol server.
pub open spec fn launch_args(model: Seq<char>, config: Seq<char>, overrides: Seq<char>) -> Seq<
    Seq<char>,
> {
    seq![
        "gtp"@,
        "-model"@,
        model,
        "-config"@,
        config,
        "-override-config"@,
        overrides,
    ]
}

/// The colour letter of the side that answers `our_color`: `W` after "b" and
/// "black" in any case, `B` after everything else.
pub open spec fn opponent_letter(our_color: Seq<char>) -> char {
    if lowered(our_color) == "black"@ || lowered(our_color) == "b"@ {
        'W'
    } else {
        'B'
    }
}

/// The command that sets the board's size.
pub open spec fn boardsize_line(size: u8) -> Seq<char> {
    "boardsize "@ + decimal(size as nat)
}

/// The command that sets the komi, given in ten-thousandths of a point.
pub open spec fn komi_line(komi: int) -> Seq<char> {
    "komi "@ + scaled_text(komi)
}

/// The command that empties the board.
pub open spec fn clear_line() -> Seq<char> {
    "clear_board"@
}

/// The command that plays `coord` for the side with the letter `letter`.
pub open spec fn play_line(letter: char, coord: Seq<char>) -> Seq<char> {
    "play "@ + seq![letter, ' '] + coord
}

/// The command that asks the side with the letter `letter` for a move.
pub open spec fn genmove_line(letter: char) -> Seq<char> {
    "genmove "@ + seq![letter]
}

/// The command that asks the side with the letter `letter` for a move and
/// for the info lines of the search.
pub open spec fn analyze_line(letter: char) -> Seq<char> {
    "kata-genmove_analyze "@ + seq![letter]
}

/// The play commands that replay a history, or the error of its first move
/// that is no position on the board.
pub open spec fn play_lines(moves: Seq<MoveItemView>, size: u8) -> Result<
    Seq<Seq<char>>,
    CodecError,
>
    decreases moves.len(),
{
    if moves.len() == 0 {
        Ok(Seq::empty())
    } else {
        match play_lines(moves.drop_last(), size) {
            Err(e) => Err(e),
            Ok(lines) => match xy_to_gtp_spec(moves.last().position, size) {
                Err(e) => Err(e),
                Ok(coord) => Ok(lines.push(play_line(color_letter(moves.last().color), coord))),
            },
        }
    }
}

/// The commands that set up a position: size, komi, an empty board, then the
/// history move by move.
pub open spec fn setup_lines(size: u8, komi: int, moves: Seq<MoveItemView>) -> Result<
    Seq<Seq<char>>,
    CodecError,
> {
    match play_lines(moves, size) {
        Err(e) => Err(e),
        Ok(lines) => Ok(seq![boardsize_line(size), komi_line(komi), clear_line()] + lines),
    }
}

/// What follows the set-up when a move is evaluated: nothing for a pass or a
/// resignation; else the move is played and the opponent analysed.
pub open spec fn evaluation_tail(our_color: Seq<char>, candidate: Seq<char>) -> Seq<Seq<char>> {
    if is_pass(candidate) || is_resign(candidate) {
        Seq::empty()
    } else {
        seq![
            play_line(color_letter(our_color), candidate),
            analyze_line(opponent_letter(our_color)),
        ]
    }
}

/// `lines` with `tail` behind them, where there are lines.
pub open spec fn followed_by(
    lines: Result<Seq<Seq<char>>, CodecError>,
    tail: Seq<Seq<char>>,
) -> Result<Seq<Seq<char>>, CodecError> {
    match lines {
        Ok(l) => Ok(l + tail),
        Err(e) => Err(e),
    }
}

impl ConfigError {
    /// The message that goes with the error.
    pub fn message(&self) -> (s: &'static str)
        ensures
            s@ == match *self {
                ConfigError::BinNotSet => "KATAGO_BIN not set"@,
                ConfigError::ModelNotSet => "KATAGO_MODEL not set"@,
                ConfigError::ConfigNotSet => "KATAGO_GTP_CONFIG not set"@,
            },
    {
        match self {
            ConfigError::BinNotSet => "KATAGO_BIN not set",
            ConfigError::ModelNotSet => "KATAGO_MODEL not set",
            ConfigError::ConfigNotSet => "KATAGO_GTP_CONFIG not set",
        }
    }
}

/// Decides how the engine is started from what the environment holds: the
/// binary, the model and the configuration are required, in that order.
pub fn launch_plan(env: EngineEnv) -> (r: Result<Launch, ConfigError>)
    ensures
        env.bin is None ==> r == Err::<Launch, ConfigError>(ConfigError::BinNotSet),
        env.bin is Some && env.model is None ==> r == Err::<Launch, ConfigError>(
            ConfigError::ModelNotSet,
        ),
        env.bin is Some && env.model is Some && env.config is None ==> r == Err::<
            Launch,
            ConfigError,
        >(ConfigError::ConfigNotSet),
        env.bin is Some && env.model is Some && env.config is Some ==> r is Ok && r->Ok_0.program@
            == program_of(env.bin->Some_0@, text_view(env.bin_real)) && texts(r->Ok_0.args@)
            == launch_args(
            env.model->Some_0@,
            env.config->Some_0@,
            overrides_of(text_view(env.overrides)),
        ),
{
    let bin = match env.bin {
        Some(b) => b,
        None => {
            return Err(ConfigError::BinNotSet);
        },
    };
    let program = match env.bin_real {
        Some(other) => {
            if trim(&chars_of(other.as_str())).len() > 0 {
                other
            } else {
                bin
            }
        },
        None => bin,
    };
    let model = match env.model {
        Some(m) => m,
        None => {
            return Err(ConfigError::ModelNotSet);
        },
    };
    let config = match env.config {
        Some(c) => c,
        None => {
            return Err(ConfigError::ConfigNotSet);
        },
    };
    let overrides = match env.overrides {
        Some(o) => o,
        None => "ponderingEnabled=false".to_owned(),
    };
    let mut args: Vec<String> = Vec::new();
    args.push("gtp".to_owned());
    args.push("-model".to_owned());
    args.push(model);
    args.push("-config".to_owned());
    args.push(config);
    args.push("-override-config".to_owned());
    args.push(overrides);
    assert(texts(args@) =~= launch_args(
        env.model->Some_0@,
        env.config->Some_0@,
        overrides_of(text_view(env.overrides)),
    ));
    Ok(Launch { program, args })
}

/// The colour letter of the side that answers `our_color`.
pub fn opponent_of(our_color: &str) -> (c: char)
    ensures
        c == opponent_letter(our_color@),
{
    let l = lowercase(&chars_of(our_color));
    if is_text(&l, "black") || is_text(&l, "b") {
        'W'
    } else {
        'B'
    }
}

/// The colour letter of a colour name.
pub fn letter_of(color: &str) -> (c: char)
    ensures
        c == color_letter(color@),
{
    let l = lowercase(&chars_of(color));
    if is_text(&l, "w") || is_text(&l, "white") {
        'W'
    } else {
        'B'
    }
}

/// The command that plays `coord` for the side with the letter `letter`.
pub fn play_command(letter: char, coord: &str) -> (s: String)
    ensures
        s@ == play_line(letter, coord@),
{
    let mut out: Vec<char> = Vec::new();
    push_text(&mut out, "play ");
    out.push(letter);
    out.push(' ');
    push_text(&mut out, coord);
    assert(out@ =~= play_line(letter, coord@));
    string_of(&out)
}

/// The command that asks the side with the letter `letter` for a move.
pub fn genmove_command(letter: char) -> (s: String)
    ensures
        s@ == genmove_line(letter),
{
    let mut out: Vec<char> = Vec::new();
    push_text(&mut out, "genmove ");
    out.push(letter);
    assert(out@ =~= genmove_line(letter));
    string_of(&out)
}

/// The command that asks the side with the letter `letter` for a move and
/// for the info lines of the search.
pub fn analyze_command(letter: char) -> (s: String)
    ensures
        s@ == analyze_line(letter),
{
    let mut out: Vec<char> = Vec::new();
    push_text(&mut out, "kata-genmove_analyze ");
    out.push(letter);
    assert(out@ =~= analyze_line(letter));
    string_of(&out)
}

/// The commands that set up a position on a board of `size` with `komi`
/// ten-thousandths of a point and the history `moves`, or the error of the
/// first move of the history that is no position on the board. Each command
/// is one line and expects one reply.
pub fn setup_position(size: u8, komi: i64, moves: &Vec<MoveItem>) -> (r: Result<
    Vec<String>,
    CodecError,
>)
    ensures
        match r {
            Ok(cmds) => setup_lines(size, komi as int, move_views(moves@)) == Ok::<
                Seq<Seq<char>>,
                CodecError,
            >(texts(cmds@)),
            Err(e) => setup_lines(size, komi as int, move_views(moves@)) == Err::<
                Seq<Seq<char>>,
                CodecError,
            >(e),
        },
{
    let mut cmds: Vec<String> = Vec::new();
    let mut line: Vec<char> = Vec::new();
    push_text(&mut line, "boardsize ");
    push_decimal(&mut line, size as u64);
    cmds.push(string_of(&line));
    let mut line: Vec<char> = Vec::new();
    push_text(&mut line, "komi ");
    push_scaled(&mut line, komi);
    cmds.push(string_of(&line));
    cmds.push("clear_board".to_owned());
    let ghost head = seq![boardsize_line(size), komi_line(komi as int), clear_line()];
    let ghost all = move_views(moves@);
    assert(texts(cmds@) =~= head);
    assert(all.take(0) =~= Seq::<MoveItemView>::empty());
    let mut i: usize = 0;
    while i < moves.len()
        invariant
            i <= moves.len(),
            all == move_views(moves@),
            head.len() == 3,
            play_lines(all.take(i as int), size) is Ok,
            texts(cmds@) == head + play_lines(all.take(i as int), size)->Ok_0,
        decreases moves.len() - i,
    {
        assert(all.take(i + 1).drop_last() =~= all.take(i as int));
        assert(all.take(i + 1).last() == moves[i as int]@);
        let ghost sofar = play_lines(all.take(i as int), size)->Ok_0;
        match xy_to_gtp(moves[i].position.as_str(), size) {
            Ok(coord) => {
                let ghost before = texts(cmds@);
                let cmd = play_command(letter_of(moves[i].color.as_str()), coord.as_str());
                cmds.push(cmd);
                assert(texts(cmds@) =~= before.push(cmd@));
                assert(head + sofar.push(cmd@) =~= (head + sofar).push(cmd@));
            },
            Err(e) => {
                proof {
                    lemma_play_lines_fail(all, i as int, size);
                }
                return Err(e);
            },
        }
        i += 1;
    }
    assert(all.take(moves.len() as int) =~= all);
    Ok(cmds)
}

/// Once a move of the history fails, the whole history fails with the error
/// of the first such move.
pub proof fn lemma_play_lines_fail(moves: Seq<MoveItemView>, i: int, size: u8)
    requires
        0 <= i < moves.len(),
        play_lines(moves.take(i), size) is Ok,
        xy_to_gtp_spec(moves[i].position, size) is Err,
    ensures
        play_lines(moves, size) == Err::<Seq<Seq<char>>, CodecError>(
            xy_to_gtp_spec(moves[i].position, size)->Err_0,
        ),
    decreases moves.len(),
{
    if i == moves.len() - 1 {
        assert(moves.drop_last() =~= moves.take(i));
    } else {
        assert(moves.drop_last().take(i) =~= moves.take(i));
        lemma_play_lines_fail(moves.drop_last(), i, size);
    }
}

/// `cmds` with one more command at the end.
fn with_command(cmds: Vec<String>, cmd: String) -> (r: Vec<String>)
    ensures
        texts(r@) == texts(cmds@).push(cmd@),
{
    let mut r = cmds;
    r.push(cmd);
    assert(texts(r@) =~= texts(cmds@).push(cmd@));
    r
}

/// The commands that set up the position and ask `color` for a move; the
/// reply to the last one is the move.
pub fn genmove_script(size: u8, komi: i64, moves: &Vec<MoveItem>, color: &str) -> (r: Result<
    Vec<String>,
    CodecError,
>)
    ensures
        match r {
            Ok(cmds) => followed_by(
                setup_lines(size, komi as int, move_views(moves@)),
                seq![genmove_line(color_letter(color@))],
            ) == Ok::<Seq<Seq<char>>, CodecError>(texts(cmds@)),
            Err(e) => setup_lines(size, komi as int, move_views(moves@)) == Err::<
                Seq<Seq<char>>,
                CodecError,
            >(e),
        },
{
    match setup_position(size, komi, moves) {
        Ok(cmds) => {
            let r = with_command(cmds, genmove_command(letter_of(color)));
            assert(texts(cmds@).push(genmove_line(color_letter(color@))) =~= texts(cmds@)
                + seq![genmove_line(color_letter(color@))]);
            Ok(r)
        },
        Err(e) => Err(e),
    }
}

/// The commands that set up the position and ask `color` for a move together
/// with the info lines of the search; the info lines come before the reply
/// to the last one.
pub fn analysis_script(size: u8, komi: i64, moves: &Vec<MoveItem>, color: &str) -> (r: Result<
    Vec<String>,
    CodecError,
>)
    ensures
        match r {
            Ok(cmds) => followed_by(
                setup_lines(size, komi as int, move_views(moves@)),
                seq![analyze_line(color_letter(color@))],
            ) == Ok::<Seq<Seq<char>>, CodecError>(texts(cmds@)),
            Err(e) => setup_lines(size, komi as int, move_views(moves@)) == Err::<
                Seq<Seq<char>>,
                CodecError,
            >(e),
        },
{
    match setup_position(size, komi, moves) {
        Ok(cmds) => {
            let r = with_command(cmds, analyze_command(letter_of(color)));
            assert(texts(cmds@).push(analyze_line(color_letter(color@))) =~= texts(cmds@)
                + seq![analyze_line(color_letter(color@))]);
            Ok(r)
        },
        Err(e) => Err(e),
    }
}

/// The commands that measure what `candidate` is worth to `our_color` on the
/// position: the set-up, and, unless the candidate is a pass or a
/// resignation, the candidate played and the opponent analysed.
pub fn evaluation_script(
    size: u8,
    komi: i64,
    moves: &Vec<MoveItem>,
    our_color: &str,
    candidate: &str,
) -> (r: Result<Vec<String>, CodecError>)
    ensures
        match r {
            Ok(cmds) => followed_by(
                setup_lines(size, komi as int, move_views(moves@)),
                evaluation_tail(our_color@, candidate@),
            ) == Ok::<Seq<Seq<char>>, CodecError>(texts(cmds@)),
            Err(e) => setup_lines(size, komi as int, move_views(moves@)) == Err::<
                Seq<Seq<char>>,
                CodecError,
            >(e),
        },
{
    match setup_position(size, komi, moves) {
        Ok(cmds) => {
            if value_of_special(candidate, Metric::Winrate).is_some() {
                assert(texts(cmds@) + Seq::<Seq<char>>::empty() =~= texts(cmds@));
                Ok(cmds)
            } else {
                let first = with_command(cmds, play_command(letter_of(our_color), candidate));
                let r = with_command(first, analyze_command(opponent_of(our_color)));
                assert(texts(r@) =~= texts(cmds@) + evaluation_tail(our_color@, candidate@));
                Ok(r)
            }
        },
        Err(e) => Err(e),
    }
}

} // verus!
