//! Info lines: the search statistics that the engine streams while it
//! analyses a position, one candidate move per line.
//!
//! Win rates are counted in millionths (the engine writes them in percent, so
//! "60.0%" is 600 000), score leads in ten-thousandths of a point.

use crate::number::{integer_within, parse_integer, parse_scaled, scaled_value};
use crate::text::{
    chars_of, is_text, lowercase, lowered, rows, split_words, string_of, strip_trailing,
    without_trailing, words,
};
use vstd::prelude::*;

verus! {

/// What one info line says, as far as it is understood.
pub struct InfoSample {
    /// The candidate move, in the protocol's notation.
    pub mv: Option<String>,
    /// How often the search visited the move.
    pub visits: Option<i64>,
    /// The win rate after the move, in millionths.
    pub winrate: Option<i64>,
    /// The score lead after the move, in ten-thousandths of a point.
    pub score_lead: Option<i64>,
}

/// The mathematical content of an `InfoSample`.
pub ghost struct SampleView {
    pub mv: Option<Seq<char>>,
    pub visits: Option<int>,
    pub winrate: Option<int>,
    pub score_lead: Option<int>,
}

impl View for InfoSample {
    type V = SampleView;

    open spec fn view(&self) -> SampleView {
        SampleView {
            mv: match self.mv {
                Some(m) => Some(m@),
                None => None,
            },
            visits: match self.visits {
                Some(v) => Some(v as int),
                None => None,
            },
            winrate: match self.winrate {
                Some(v) => Some(v as int),
                None => None,
            },
            score_lead: match self.score_lead {
                Some(v) => Some(v as int),
                None => None,
            },
        }
    }
}

/// The sample that says nothing.
pub open spec fn no_sample() -> SampleView {
    SampleView { mv: None, visits: None, winrate: None, score_lead: None }
}

/// A visit count: an integer of 64 bits.
pub open spec fn visits_value(s: Seq<char>) -> Option<int> {
    integer_within(s, -0x8000_0000_0000_0000, 0x7fff_ffff_ffff_ffff)
}

/// Whether `key`, in any case, is one of the keys that the parser knows:
/// "move", "visits", "winrate", "scorelead" or "score_lead".
pub open spec fn is_key(key: Seq<char>) -> bool {
    let k = lowered(key);
    k == "move"@ || k == "visits"@ || k == "winrate"@ || k == "scorelead"@ || k == "score_lead"@
}

/// The sample `acc` after the key `key` with the value `value`: the value
/// replaces what the sample held for that key; a value that cannot be read
/// leaves the sample as it was.
pub open spec fn with_pair(acc: SampleView, key: Seq<char>, value: Seq<char>) -> SampleView {
    let k = lowered(key);
    if k == "move"@ {
        SampleView { mv: Some(value), visits: acc.visits, winrate: acc.winrate, score_lead: acc.score_lead }
    } else if k == "visits"@ {
        match visits_value(value) {
            Some(v) => SampleView { mv: acc.mv, visits: Some(v), winrate: acc.winrate, score_lead: acc.score_lead },
            None => acc,
        }
    } else if k == "winrate"@ {
        match scaled_value(without_trailing(value, '%')) {
            Some(v) => SampleView { mv: acc.mv, visits: acc.visits, winrate: Some(v), score_lead: acc.score_lead },
            None => acc,
        }
    } else if k == "scorelead"@ || k == "score_lead"@ {
        match scaled_value(value) {
            Some(v) => SampleView { mv: acc.mv, visits: acc.visits, winrate: acc.winrate, score_lead: Some(v) },
            None => acc,
        }
    } else {
        acc
    }
}

/// The sample after the words from index `i` on: a key takes the word after
/// it as its value, and the scan goes on behind the value; any other word is
/// skipped. The last word is never a key, since no value follows it.
pub open spec fn scan(tokens: Seq<Seq<char>>, i: int, acc: SampleView) -> SampleView
    decreases tokens.len() - i,
{
    if 0 <= i && i + 1 < tokens.len() {
        if is_key(tokens[i]) {
            scan(tokens, i + 2, with_pair(acc, tokens[i], tokens[i + 1]))
        } else {
            scan(tokens, i + 1, acc)
        }
    } else {
        acc
    }
}

/// What the info line `line` says.
pub open spec fn sample_of(line: Seq<char>) -> SampleView {
    scan(words(line), 0, no_sample())
}

/// Reads one info line.
pub fn parse_info_line(line: &str) -> (r: InfoSample)
    ensures
        r@ == sample_of(line@),
{
    let tokens = split_words(&chars_of(line));
    let mut sample = InfoSample { mv: None, visits: None, winrate: None, score_lead: None };
    let mut i: usize = 0;
    while i < tokens.len() && i + 1 < tokens.len()
        invariant
            i <= tokens.len(),
            scan(rows(tokens@), i as int, sample@) == sample_of(line@),
        decreases tokens.len() - i,
    {
        let ghost ts = rows(tokens@);
        assert(ts[i as int] == tokens[i as int]@);
        assert(ts[i + 1] == tokens[i + 1]@);
        let key = lowercase(&tokens[i]);
        let value = &tokens[i + 1];
        if is_text(&key, "move") {
            sample.mv = Some(string_of(value));
            i += 2;
        } else if is_text(&key, "visits") {
            match parse_integer(value, i64::MIN, i64::MAX) {
                Some(v) => {
                    sample.visits = Some(v);
                },
                None => {},
            }
            i += 2;
        } else if is_text(&key, "winrate") {
            match parse_scaled(&strip_trailing(value, '%')) {
                Some(v) => {
                    sample.winrate = Some(v);
                },
                None => {},
            }
            i += 2;
        } else if is_text(&key, "scorelead") || is_text(&key, "score_lead") {
            match parse_scaled(value) {
                Some(v) => {
                    sample.score_lead = Some(v);
                },
                None => {},
            }
            i += 2;
        } else {
            i += 1;
        }
    }
    sample
}

} // verus!
