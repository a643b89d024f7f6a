//! Reply framing: a reply is a block of lines that ends with a blank line.
//! Its status line starts with `=` or `?`; the lines before it are info
//! lines.

use crate::text::{chars_of, slice_of, string_of, texts, trim, trimmed};
use vstd::prelude::*;

verus! {

/// A complete reply of the engine.
pub struct Reply {
    /// Whether the status line started with `=`.
    pub success: bool,
    /// What followed the mark on the status line, trimmed.
    pub payload: String,
    /// The lines before the status line that were not blank, trimmed.
    pub info: Vec<String>,
}

/// The mathematical content of a `Reply`.
pub ghost struct ReplyView {
    pub success: bool,
    pub payload: Seq<char>,
    pub info: Seq<Seq<char>>,
}

impl View for Reply {
    type V = ReplyView;

    open spec fn view(&self) -> ReplyView {
        ReplyView { success: self.success, payload: self.payload@, info: texts(self.info@) }
    }
}

/// A reply that is being read.
pub struct ReplyReader {
    /// The status line, once it has come: whether it marks success, and its
    /// payload.
    pub status: Option<(bool, String)>,
    /// The info lines that have come.
    pub info: Vec<String>,
}

/// The mathematical content of a `ReplyReader`.
pub ghost struct ReaderView {
    pub status: Option<(bool, Seq<char>)>,
    pub info: Seq<Seq<char>>,
}

impl View for ReplyReader {
    type V = ReaderView;

    open spec fn view(&self) -> ReaderView {
        ReaderView {
            status: match self.status {
                Some((ok, p)) => Some((ok, p@)),
                None => None,
            },
            info: texts(self.info@),
        }
    }
}

/// Where the reading of a reply stands after one more line.
pub enum Framing {
    /// The reply is not complete: read on.
    Reading(ReplyReader),
    /// The reply is complete.
    Complete(Reply),
    /// The stream ended before any status line: the engine is gone.
    Closed,
}

/// The mathematical content of a `Framing`.
pub ghost enum FramingView {
    Reading(ReaderView),
    Complete(ReplyView),
    Closed,
}

impl View for Framing {
    type V = FramingView;

    open spec fn view(&self) -> FramingView {
        match self {
            Framing::Reading(r) => FramingView::Reading(r@),
            Framing::Complete(r) => FramingView::Complete(r@),
            Framing::Closed => FramingView::Closed,
        }
    }
}

/// A line that holds white space only.
pub open spec fn is_blank(line: Seq<char>) -> bool {
    trimmed(line).len() == 0
}

/// A status line: after trimming it starts with `=` or `?`.
pub open spec fn is_status(line: Seq<char>) -> bool {
    trimmed(line).len() > 0 && (trimmed(line)[0] == '=' || trimmed(line)[0] == '?')
}

/// What follows the mark on a status line, trimmed.
pub open spec fn status_payload(line: Seq<char>) -> Seq<char> {
    trimmed(trimmed(line).subrange(1, trimmed(line).len() as int))
}

/// The reader before any line.
pub open spec fn fresh_reader() -> ReaderView {
    ReaderView { status: None, info: Seq::empty() }
}

/// One step of reading: `line` is the next line of the stream, `None` its
/// end.
///
/// Before the status line, a status line is taken, a blank line is passed
/// over, any other line is kept, trimmed, as an info line, and the end of
/// the stream closes the session. After it, lines are passed over until a
/// blank line or the end of the stream completes the reply.
pub open spec fn framing_step(reader: ReaderView, line: Option<Seq<char>>) -> FramingView {
    match reader.status {
        None => match line {
            None => FramingView::Closed,
            Some(l) => if is_status(l) {
                FramingView::Reading(
                    ReaderView {
                        status: Some((trimmed(l)[0] == '=', status_payload(l))),
                        info: reader.info,
                    },
                )
            } else if is_blank(l) {
                FramingView::Reading(reader)
            } else {
                FramingView::Reading(
                    ReaderView { status: None, info: reader.info.push(trimmed(l)) },
                )
            },
        },
        Some((ok, payload)) => {
            let done = FramingView::Complete(
                ReplyView { success: ok, payload: payload, info: reader.info },
            );
            match line {
                None => done,
                Some(l) => if is_blank(l) {
                    done
                } else {
                    FramingView::Reading(reader)
                },
            }
        },
    }
}

/// Where reading stands after the lines from index `i` on, and then the end
/// of the stream if `ended`; reading stops at the first line that completes
/// the reply.
pub open spec fn framing_from(
    reader: ReaderView,
    lines: Seq<Seq<char>>,
    i: int,
    ended: bool,
) -> FramingView
    decreases lines.len() - i,
{
    if 0 <= i < lines.len() {
        match framing_step(reader, Some(lines[i])) {
            FramingView::Reading(next) => framing_from(next, lines, i + 1, ended),
            other => other,
        }
    } else if ended {
        framing_step(reader, None)
    } else {
        FramingView::Reading(reader)
    }
}

/// Where the reading of a fresh reply stands after all of `lines`.
pub open spec fn framing_of(lines: Seq<Seq<char>>, ended: bool) -> FramingView {
    framing_from(fresh_reader(), lines, 0, ended)
}

/// The first index at or after `i` of a status line, or the length.
pub open spec fn first_status(lines: Seq<Seq<char>>, i: int) -> int
    decreases lines.len() - i,
{
    if 0 <= i < lines.len() && !is_status(lines[i]) {
        first_status(lines, i + 1)
    } else {
        i
    }
}

/// The first index at or after `i` of a blank line, or the length.
pub open spec fn first_blank(lines: Seq<Seq<char>>, i: int) -> int
    decreases lines.len() - i,
{
    if 0 <= i < lines.len() && !is_blank(lines[i]) {
        first_blank(lines, i + 1)
    } else {
        i
    }
}

/// The lines from `from` up to `to` that are not blank, trimmed, in order.
pub open spec fn info_between(lines: Seq<Seq<char>>, from: int, to: int) -> Seq<Seq<char>>
    decreases to - from,
{
    if from >= to {
        Seq::empty()
    } else if is_blank(lines[from]) {
        info_between(lines, from + 1, to)
    } else {
        seq![trimmed(lines[from])] + info_between(lines, from + 1, to)
    }
}

/// What a stream of lines amounts to, said at once: the first status line
/// gives success and payload, the lines before it that are not blank are the
/// info lines, and the reply is complete with the first blank line behind the
/// status line, or with the end of the stream there.
pub open spec fn reply_in(lines: Seq<Seq<char>>, ended: bool) -> FramingView {
    let h = first_status(lines, 0);
    if h >= lines.len() {
        if ended {
            FramingView::Closed
        } else {
            FramingView::Reading(
                ReaderView { status: None, info: info_between(lines, 0, lines.len() as int) },
            )
        }
    } else {
        let success = trimmed(lines[h])[0] == '=';
        let payload = status_payload(lines[h]);
        let info = info_between(lines, 0, h);
        if first_blank(lines, h + 1) < lines.len() || ended {
            FramingView::Complete(ReplyView { success: success, payload: payload, info: info })
        } else {
            FramingView::Reading(ReaderView { status: Some((success, payload)), info: info })
        }
    }
}

/// Reading up to the status line gathers the info lines before it.
proof fn lemma_before_status(info: Seq<Seq<char>>, lines: Seq<Seq<char>>, i: int, ended: bool)
    requires
        0 <= i <= lines.len(),
    ensures
        framing_from(ReaderView { status: None, info: info }, lines, i, ended) == framing_from(
            ReaderView {
                status: None,
                info: info + info_between(lines, i, first_status(lines, i)),
            },
            lines,
            first_status(lines, i),
            ended,
        ),
        i <= first_status(lines, i) <= lines.len(),
        first_status(lines, i) < lines.len() ==> is_status(lines[first_status(lines, i)]),
    decreases lines.len() - i,
{
    if i < lines.len() && !is_status(lines[i]) {
        let h = first_status(lines, i);
        let next = if is_blank(lines[i]) {
            info
        } else {
            info.push(trimmed(lines[i]))
        };
        lemma_before_status(next, lines, i + 1, ended);
        assert(i < h);
        assert(next + info_between(lines, i + 1, h) =~= info + info_between(lines, i, h));
    } else {
        assert(info + info_between(lines, i, i) =~= info);
    }
}

/// Reading behind the status line ends with the first blank line or with the
/// end of the stream.
proof fn lemma_behind_status(reader: ReaderView, lines: Seq<Seq<char>>, i: int, ended: bool)
    requires
        0 <= i <= lines.len(),
        reader.status is Some,
    ensures
        framing_from(reader, lines, i, ended) == if first_blank(lines, i) < lines.len() || ended {
            FramingView::Complete(
                ReplyView {
                    success: reader.status->Some_0.0,
                    payload: reader.status->Some_0.1,
                    info: reader.info,
                },
            )
        } else {
            FramingView::Reading(reader)
        },
    decreases lines.len() - i,
{
    if i < lines.len() && !is_blank(lines[i]) {
        lemma_behind_status(reader, lines, i + 1, ended);
    }
}

/// Reading line by line gives what the stream amounts to.
pub proof fn lemma_framing(lines: Seq<Seq<char>>, ended: bool)
    ensures
        framing_of(lines, ended) == reply_in(lines, ended),
{
    let h = first_status(lines, 0);
    lemma_before_status(Seq::empty(), lines, 0, ended);
    let info = info_between(lines, 0, h);
    assert(Seq::<Seq<char>>::empty() + info =~= info);
    if h < lines.len() {
        let reader = ReaderView {
            status: Some((trimmed(lines[h])[0] == '=', status_payload(lines[h]))),
            info: info,
        };
        lemma_behind_status(reader, lines, h + 1, ended);
    }
}

impl ReplyReader {
    /// A reader that has seen no line.
    pub fn new() -> (r: ReplyReader)
        ensures
            r@ == fresh_reader(),
    {
        let r = ReplyReader { status: None, info: Vec::new() };
        assert(r@.info =~= Seq::<Seq<char>>::empty());
        r
    }
}

/// Takes the next line of the engine's output, or the end of the stream
/// (`None`), into the reply that is being read.
pub fn read_gtp_reply(reader: ReplyReader, line: Option<&str>) -> (r: Framing)
    ensures
        r@ == framing_step(
            reader@,
            match line {
                Some(l) => Some(l@),
                None => None,
            },
        ),
{
    let ReplyReader { status, info } = reader;
    match status {
        None => match line {
            None => Framing::Closed,
            Some(l) => {
                let t = trim(&chars_of(l));
                if t.len() > 0 && (t[0] == '=' || t[0] == '?') {
                    let payload = string_of(&trim(&slice_of(&t, 1, t.len())));
                    Framing::Reading(ReplyReader { status: Some((t[0] == '=', payload)), info })
                } else if t.len() == 0 {
                    Framing::Reading(ReplyReader { status: None, info })
                } else {
                    let ghost before = texts(info@);
                    let mut info = info;
                    info.push(string_of(&t));
                    assert(texts(info@) =~= before.push(t@));
                    Framing::Reading(ReplyReader { status: None, info })
                }
            },
        },
        Some((ok, payload)) => match line {
            None => Framing::Complete(Reply { success: ok, payload, info }),
            Some(l) => {
                let t = trim(&chars_of(l));
                if t.len() == 0 {
                    Framing::Complete(Reply { success: ok, payload, info })
                } else {
                    Framing::Reading(ReplyReader { status: Some((ok, payload)), info })
                }
            },
        },
    }
}

/// Reads a reply from lines that are already at hand: the first of `lines`
/// that completes the reply ends the reading, and `ended` says whether the
/// stream ends behind the last of them.
pub fn read_reply_with_info(lines: &Vec<String>, ended: bool) -> (r: Framing)
    ensures
        r@ == framing_of(texts(lines@), ended),
        r@ == reply_in(texts(lines@), ended),
{
    let mut reader = ReplyReader::new();
    let mut i: usize = 0;
    let ghost all = texts(lines@);
    proof {
        lemma_framing(all, ended);
    }
    while i < lines.len()
        invariant
            i <= lines.len(),
            all == texts(lines@),
            framing_from(reader@, all, i as int, ended) == framing_of(all, ended),
            framing_of(all, ended) == reply_in(all, ended),
        decreases lines.len() - i,
    {
        assert(all[i as int] == lines[i as int]@);
        match read_gtp_reply(reader, Some(lines[i].as_str())) {
            Framing::Reading(next) => {
                reader = next;
            },
            other => {
                return other;
            },
        }
        i += 1;
    }
    if ended {
        read_gtp_reply(reader, None)
    } else {
        Framing::Reading(reader)
    }
}

} // verus!
