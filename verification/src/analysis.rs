//! From info lines to candidates: the best-visited sample of each move, the
//! candidates ranked by visits, and the value of a move on the other board.

use crate::codec::Metric;
use crate::info::{parse_info_line, sample_of, InfoSample, SampleView};
use crate::number::{lemma_scaled_value_bound, SCALED_LIMIT};
use crate::text::{chars_of, is_text, texts, uppercase, uppered, without_trailing};
use vstd::prelude::*;

verus! {

/// An even game: a win rate of one half, in millionths.
pub const HALF: i64 = 500_000;

/// Certainty: a win rate of one, in millionths.
pub const FULL: i64 = 1_000_000;

/// The score lead that stands for resigning: a thousand points behind, in
/// ten-thousandths of a point.
pub const RESIGN_SCORE_LEAD: i64 = -10_000_000;

/// A candidate move with its statistics on the first board.
pub struct Candidate {
    /// The move, in the protocol's notation, or "pass" or "resign".
    pub mv: String,
    /// How often the search visited the move.
    pub visits: i64,
    /// The value of the chosen metric: a win rate in millionths, or a score
    /// lead in ten-thousandths of a point.
    pub metric: i64,
    /// The win rate, in millionths.
    pub winrate: i64,
}

/// The mathematical content of a `Candidate`.
pub ghost struct CandidateView {
    pub mv: Seq<char>,
    pub visits: int,
    pub metric: int,
    pub winrate: int,
}

impl View for Candidate {
    type V = CandidateView;

    open spec fn view(&self) -> CandidateView {
        CandidateView {
            mv: self.mv@,
            visits: self.visits as int,
            metric: self.metric as int,
            winrate: self.winrate as int,
        }
    }
}

/// The value of a move for the side that plays it.
#[derive(Debug, Clone, Copy, PartialEq, Eq, Structural)]
pub struct Evaluation {
    /// The value of the chosen metric.
    pub metric: i64,
    /// The win rate, in millionths.
    pub winrate: i64,
}

/// The views of a sequence of candidates.
pub open spec fn candidate_views(v: Seq<Candidate>) -> Seq<CandidateView> {
    Seq::new(v.len(), |i: int| v[i]@)
}

/// The win rate that a sample gives: the one it states; else the one
/// estimated from its score lead, one point counting for one percent; else
/// one half.
pub open spec fn winrate_of(s: SampleView) -> int {
    match s.winrate {
        Some(w) => w,
        None => match s.score_lead {
            Some(l) => HALF + l,
            None => HALF as int,
        },
    }
}

/// The score lead that a sample gives: the one it states; else the one
/// estimated from its win rate, one percent counting for one point; else
/// none.
pub open spec fn score_lead_of(s: SampleView) -> int {
    match s.score_lead {
        Some(l) => l,
        None => match s.winrate {
            Some(w) => w - HALF,
            None => 0,
        },
    }
}

/// The value that a sample gives for the metric.
pub open spec fn metric_value_of(s: SampleView, metric: Metric) -> int {
    match metric {
        Metric::Winrate => winrate_of(s),
        Metric::ScoreLead => score_lead_of(s),
    }
}

/// The candidate that a sample describes, if it names a move. A sample
/// without a visit count counts as never visited.
pub open spec fn candidate_of(s: SampleView, metric: Metric) -> Option<CandidateView> {
    match s.mv {
        Some(m) => Some(
            CandidateView {
                mv: m,
                visits: match s.visits {
                    Some(v) => v,
                    None => 0,
                },
                metric: metric_value_of(s, metric),
                winrate: winrate_of(s),
            },
        ),
        None => None,
    }
}

/// The first index at or after `i` whose candidate is the move `mv`, or the
/// length.
pub open spec fn find_move(table: Seq<CandidateView>, mv: Seq<char>, i: int) -> int
    decreases table.len() - i,
{
    if 0 <= i < table.len() && table[i].mv != mv {
        find_move(table, mv, i + 1)
    } else {
        i
    }
}

/// The table after one more candidate: a move that the table does not hold
/// is added at its end; a move that it holds is replaced where it stands if
/// the new sample has strictly more visits, and else stays as it is.
pub open spec fn absorb(table: Seq<CandidateView>, c: CandidateView) -> Seq<CandidateView> {
    let j = find_move(table, c.mv, 0);
    if j < table.len() {
        if c.visits > table[j].visits {
            table.update(j, c)
        } else {
            table
        }
    } else {
        table.push(c)
    }
}

/// The table of the info lines: for each move that a line names, in the
/// order in which the moves first appear, the sample with the most visits,
/// the earliest of them where several have the most.
pub open spec fn table_of(lines: Seq<Seq<char>>, metric: Metric) -> Seq<CandidateView>
    decreases lines.len(),
{
    if lines.len() == 0 {
        Seq::empty()
    } else {
        let t = table_of(lines.drop_last(), metric);
        match candidate_of(sample_of(lines.last()), metric) {
            Some(c) => absorb(t, c),
            None => t,
        }
    }
}

/// The first index at or after `i` whose candidate has fewer than `visits`
/// visits, or the length.
pub open spec fn first_below(sorted: Seq<CandidateView>, visits: int, i: int) -> int
    decreases sorted.len() - i,
{
    if 0 <= i < sorted.len() && sorted[i].visits >= visits {
        first_below(sorted, visits, i + 1)
    } else {
        i
    }
}

/// The candidates of `table` by falling visits; candidates with the same
/// visits stay in the order of the table.
pub open spec fn ranked(table: Seq<CandidateView>) -> Seq<CandidateView>
    decreases table.len(),
{
    if table.len() == 0 {
        Seq::empty()
    } else {
        let r = ranked(table.drop_last());
        r.insert(first_below(r, table.last().visits, 0), table.last())
    }
}

/// The `k` best-visited candidates that the info lines give, best first.
pub open spec fn best_candidates(lines: Seq<Seq<char>>, k: int, metric: Metric) -> Seq<
    CandidateView,
> {
    let r = ranked(table_of(lines, metric));
    if k < r.len() {
        r.take(k)
    } else {
        r
    }
}

/// The candidate that stands for a plain answer of the engine, when the
/// analysis gave no candidate: never visited, with an even win rate and no
/// score lead.
pub open spec fn plain_candidate(answer: Seq<char>, metric: Metric) -> CandidateView {
    CandidateView {
        mv: answer,
        visits: 0,
        metric: match metric {
            Metric::Winrate => HALF as int,
            Metric::ScoreLead => 0,
        },
        winrate: HALF as int,
    }
}

/// The views of a sequence of samples.
pub open spec fn sample_views(v: Seq<InfoSample>) -> Seq<SampleView> {
    Seq::new(v.len(), |i: int| v[i]@)
}

/// What each of the lines says.
pub open spec fn samples_of(lines: Seq<Seq<char>>) -> Seq<SampleView> {
    Seq::new(lines.len(), |i: int| sample_of(lines[i]))
}

/// One of the two figures of a sample: its score lead if `lead`, its win
/// rate otherwise.
pub open spec fn figure_of(s: SampleView, lead: bool) -> Option<int> {
    if lead {
        s.score_lead
    } else {
        s.winrate
    }
}

/// The visits of a sample; one that states none counts as never visited.
pub open spec fn visits_of(s: SampleView) -> int {
    match s.visits {
        Some(v) => v,
        None => 0,
    }
}

/// Whether sample `j` states the figure.
pub open spec fn states(samples: Seq<SampleView>, lead: bool, j: int) -> bool {
    figure_of(samples[j], lead) is Some
}

/// Whether `b` is the best-observed of the first `n` samples for the figure:
/// it states the figure, none of them that states it has more visits, and
/// none before it has as many.
pub open spec fn is_best_among(samples: Seq<SampleView>, lead: bool, n: int, b: int) -> bool {
    &&& 0 <= b < n <= samples.len()
    &&& states(samples, lead, b)
    &&& forall|j: int|
        0 <= j < n && #[trigger] states(samples, lead, j) ==> visits_of(samples[j]) <= visits_of(
            samples[b],
        )
    &&& forall|j: int|
        0 <= j < b && #[trigger] states(samples, lead, j) ==> visits_of(samples[j]) < visits_of(
            samples[b],
        )
}

/// The best-observed sample for the figure: the one with the most visits
/// among those that state it, the earliest of them where several have the
/// most; `None` where no sample states the figure.
pub open spec fn best_sample(samples: Seq<SampleView>, lead: bool) -> Option<int> {
    if exists|b: int| is_best_among(samples, lead, samples.len() as int, b) {
        Some(choose|b: int| is_best_among(samples, lead, samples.len() as int, b))
    } else {
        None
    }
}

/// The best-observed figure of the lines: what the best-observed sample
/// states.
pub open spec fn best_observed(lines: Seq<Seq<char>>, lead: bool) -> Option<int> {
    match best_sample(samples_of(lines), lead) {
        Some(b) => figure_of(samples_of(lines)[b], lead),
        None => None,
    }
}

/// What a move is worth to the side that played it, from the info lines of
/// the opponent's analysis after it: the opponent's best-observed win rate
/// and score lead, turned round (an even win rate and no lead where none is
/// stated).
pub open spec fn reply_value(lines: Seq<Seq<char>>, metric: Metric) -> Evaluation {
    let ours = FULL - match best_observed(lines, false) {
        Some(w) => w,
        None => HALF as int,
    };
    let lead = -match best_observed(lines, true) {
        Some(l) => l,
        None => 0,
    };
    Evaluation {
        metric: match metric {
            Metric::Winrate => ours as i64,
            Metric::ScoreLead => lead as i64,
        },
        winrate: ours as i64,
    }
}

/// There is at most one best-observed sample.
pub proof fn lemma_best_sample_is_unique(
    samples: Seq<SampleView>,
    lead: bool,
    n: int,
    a: int,
    b: int,
)
    requires
        is_best_among(samples, lead, n, a),
        is_best_among(samples, lead, n, b),
    ensures
        a == b,
{
    if a < b {
        assert(states(samples, lead, a));
    } else if b < a {
        assert(states(samples, lead, b));
    }
}

/// Where one of the first `n` samples states the figure, one of them is the
/// best-observed.
pub proof fn lemma_best_sample_exists(samples: Seq<SampleView>, lead: bool, n: int) -> (b: int)
    requires
        0 <= n <= samples.len(),
        exists|j: int| 0 <= j < n && states(samples, lead, j),
    ensures
        is_best_among(samples, lead, n, b),
    decreases n,
{
    let found = choose|j: int| 0 <= j < n && states(samples, lead, j);
    if exists|j: int| 0 <= j < n - 1 && states(samples, lead, j) {
        let before = lemma_best_sample_exists(samples, lead, n - 1);
        if states(samples, lead, n - 1) && visits_of(samples[n - 1]) > visits_of(
            samples[before],
        ) {
            n - 1
        } else {
            before
        }
    } else {
        assert(found == n - 1);
        n - 1
    }
}

/// The best-observed figure comes from a line with the most visits: whatever
/// line states the figure, the figure is observed, and from a sample with no
/// fewer visits than that line has.
pub proof fn lemma_best_observed_has_most_visits(lines: Seq<Seq<char>>, lead: bool, j: int)
    requires
        0 <= j < lines.len(),
        figure_of(sample_of(lines[j]), lead) is Some,
    ensures
        best_sample(samples_of(lines), lead) is Some,
        best_observed(lines, lead) is Some,
        visits_of(samples_of(lines)[best_sample(samples_of(lines), lead)->Some_0]) >= visits_of(
            sample_of(lines[j]),
        ),
{
    let samples = samples_of(lines);
    assert(states(samples, lead, j));
    let b = lemma_best_sample_exists(samples, lead, samples.len() as int);
    let chosen = best_sample(samples, lead)->Some_0;
    assert(is_best_among(samples, lead, samples.len() as int, chosen));
}

/// Whether `mv` is "pass", in any case.
pub open spec fn is_pass(mv: Seq<char>) -> bool {
    uppered(mv) == "PASS"@
}

/// Whether `mv` is "resign", in any case.
pub open spec fn is_resign(mv: Seq<char>) -> bool {
    uppered(mv) == "RESIGN"@
}

/// What passing or resigning is worth, without asking the engine: a pass
/// leaves the game even, resigning loses it.
pub open spec fn special_value(mv: Seq<char>, metric: Metric) -> Option<Evaluation> {
    if is_pass(mv) {
        Some(
            Evaluation {
                metric: match metric {
                    Metric::Winrate => HALF,
                    Metric::ScoreLead => 0,
                },
                winrate: HALF,
            },
        )
    } else if is_resign(mv) {
        Some(
            Evaluation {
                metric: match metric {
                    Metric::Winrate => 0,
                    Metric::ScoreLead => RESIGN_SCORE_LEAD,
                },
                winrate: 0,
            },
        )
    } else {
        None
    }
}

/// Where `find_move` stops.
pub proof fn lemma_find_move(table: Seq<CandidateView>, mv: Seq<char>, i: int)
    requires
        0 <= i <= table.len(),
    ensures
        i <= find_move(table, mv, i) <= table.len(),
        forall|k: int| i <= k < find_move(table, mv, i) ==> (#[trigger] table[k]).mv != mv,
        find_move(table, mv, i) < table.len() ==> table[find_move(table, mv, i)].mv == mv,
    decreases table.len() - i,
{
    if i < table.len() && table[i].mv != mv {
        lemma_find_move(table, mv, i + 1);
    }
}

/// `find_move` stops at the first candidate with the move.
pub proof fn lemma_find_move_at(table: Seq<CandidateView>, mv: Seq<char>, i: int, p: int)
    requires
        0 <= i <= p <= table.len(),
        forall|k: int| i <= k < p ==> (#[trigger] table[k]).mv != mv,
        p < table.len() ==> table[p].mv == mv,
    ensures
        find_move(table, mv, i) == p,
    decreases p - i,
{
    if i < p {
        lemma_find_move_at(table, mv, i + 1, p);
    }
}

/// Where `first_below` stops.
pub proof fn lemma_first_below(sorted: Seq<CandidateView>, visits: int, i: int)
    requires
        0 <= i <= sorted.len(),
    ensures
        i <= first_below(sorted, visits, i) <= sorted.len(),
        forall|k: int|
            i <= k < first_below(sorted, visits, i) ==> (#[trigger] sorted[k]).visits >= visits,
        first_below(sorted, visits, i) < sorted.len() ==> sorted[first_below(
            sorted,
            visits,
            i,
        )].visits < visits,
    decreases sorted.len() - i,
{
    if i < sorted.len() && sorted[i].visits >= visits {
        lemma_first_below(sorted, visits, i + 1);
    }
}

/// No candidate has more visits than one before it.
pub open spec fn falling(s: Seq<CandidateView>) -> bool {
    forall|i: int, j: int| 0 <= i < j < s.len() ==> s[i].visits >= s[j].visits
}

/// No two candidates are the same move.
pub open spec fn distinct_moves(s: Seq<CandidateView>) -> bool {
    forall|i: int, j: int| 0 <= i < j < s.len() ==> s[i].mv != s[j].mv
}

/// Ranking neither adds nor drops a candidate, and what it gives falls by
/// visits.
pub proof fn lemma_ranked(table: Seq<CandidateView>)
    ensures
        ranked(table).len() == table.len(),
        ranked(table).to_multiset() == table.to_multiset(),
        falling(ranked(table)),
    decreases table.len(),
{
    if table.len() == 0 {
        assert(table =~= Seq::<CandidateView>::empty());
    } else {
        let head = table.drop_last();
        let c = table.last();
        let r = ranked(head);
        lemma_ranked(head);
        let p = first_below(r, c.visits, 0);
        lemma_first_below(r, c.visits, 0);
        vstd::seq_lib::to_multiset_insert(r, p, c);
        vstd::seq_lib::to_multiset_build(head, c);
        assert(head.push(c) =~= table);
        let out = r.insert(p, c);
        assert forall|i: int, j: int| 0 <= i < j < out.len() implies out[i].visits
            >= out[j].visits by {
            if j < p {
                assert(out[i] == r[i] && out[j] == r[j]);
            } else if j == p {
                assert(out[i] == r[i]);
            } else if i < p {
                assert(out[i] == r[i] && out[j] == r[j - 1]);
            } else if i == p {
                assert(out[j] == r[j - 1]);
                assert(r[p].visits >= r[j - 1].visits || j - 1 == p);
            } else {
                assert(out[i] == r[i - 1] && out[j] == r[j - 1]);
            }
        }
    }
}

/// Every ranked candidate is a candidate of the table, and so its move has
/// its place there.
pub proof fn lemma_ranked_are_of_the_table(table: Seq<CandidateView>, i: int)
    requires
        0 <= i < ranked(table).len(),
    ensures
        table.contains(ranked(table)[i]),
        find_move(table, ranked(table)[i].mv, 0) < table.len(),
{
    let r = ranked(table);
    lemma_ranked(table);
    assert(r.contains(r[i]));
    vstd::seq_lib::to_multiset_contains(r, r[i]);
    vstd::seq_lib::to_multiset_contains(table, r[i]);
    let k = choose|k: int| 0 <= k < table.len() && table[k] == r[i];
    lemma_find_move(table, r[i].mv, 0);
}

/// Ranking keeps the order of the table among candidates with the same
/// visits: of two such candidates the one that ranks first stands first in
/// the table.
pub proof fn lemma_ranked_is_stable(table: Seq<CandidateView>, i: int, j: int)
    requires
        distinct_moves(table),
        0 <= i < j < ranked(table).len(),
        ranked(table)[i].visits == ranked(table)[j].visits,
    ensures
        find_move(table, ranked(table)[i].mv, 0) < find_move(table, ranked(table)[j].mv, 0),
    decreases table.len(),
{
    lemma_ranked(table);
    if table.len() > 0 {
        let head = table.drop_last();
        let c = table.last();
        let r = ranked(head);
        let n = head.len() as int;
        lemma_ranked(head);
        let p = first_below(r, c.visits, 0);
        lemma_first_below(r, c.visits, 0);
        let out = r.insert(p, c);
        assert(out == ranked(table));
        assert forall|a: int, b: int| 0 <= a < b < head.len() implies head[a].mv
            != head[b].mv by {
            assert(head[a] == table[a] && head[b] == table[b]);
        }
        // The place in the table of a move of the head is its place in the head.
        assert forall|k: int| 0 <= k < r.len() implies find_move(table, (#[trigger] r[k]).mv, 0)
            == find_move(head, r[k].mv, 0) && find_move(head, r[k].mv, 0) < n by {
            lemma_ranked_are_of_the_table(head, k);
            lemma_find_move(head, r[k].mv, 0);
            let at = find_move(head, r[k].mv, 0);
            assert forall|t: int| 0 <= t < at implies (#[trigger] table[t]).mv != r[k].mv by {
                assert(table[t] == head[t]);
            }
            assert(table[at] == head[at]);
            lemma_find_move_at(table, r[k].mv, 0, at);
        }
        // The last candidate of the table stands behind all of the head.
        assert(find_move(table, c.mv, 0) == n) by {
            assert forall|t: int| 0 <= t < n implies (#[trigger] table[t]).mv != c.mv by {}
            lemma_find_move_at(table, c.mv, 0, n);
        }
        if j < p {
            assert(out[i] == r[i] && out[j] == r[j]);
            lemma_ranked_is_stable(head, i, j);
        } else if j == p {
            assert(out[i] == r[i] && out[j] == c);
        } else if i < p {
            assert(out[i] == r[i] && out[j] == r[j - 1]);
            lemma_ranked_is_stable(head, i, j - 1);
        } else if i == p {
            assert(out[i] == c && out[j] == r[j - 1]);
            assert(r[p].visits >= r[j - 1].visits || j - 1 == p);
            assert(false);
        } else {
            assert(out[i] == r[i - 1] && out[j] == r[j - 1]);
            lemma_ranked_is_stable(head, i - 1, j - 1);
        }
    }
}

/// What taking one more candidate does to the place of a move in the table:
/// a move that was there stays where it was with no fewer visits, and the
/// move of the new candidate is there afterwards with no fewer visits than
/// the candidate has.
pub proof fn lemma_absorb(table: Seq<CandidateView>, c: CandidateView, mv: Seq<char>)
    ensures
        find_move(table, mv, 0) < table.len() ==> find_move(absorb(table, c), mv, 0) == find_move(
            table,
            mv,
            0,
        ) && absorb(table, c)[find_move(table, mv, 0)].visits >= table[find_move(
            table,
            mv,
            0,
        )].visits,
        mv == c.mv ==> find_move(absorb(table, c), mv, 0) < absorb(table, c).len() && absorb(
            table,
            c,
        )[find_move(absorb(table, c), mv, 0)].visits >= c.visits,
        absorb(table, c).len() >= table.len(),
{
    let after = absorb(table, c);
    let j = find_move(table, c.mv, 0);
    let a = find_move(table, mv, 0);
    lemma_find_move(table, c.mv, 0);
    lemma_find_move(table, mv, 0);
    if j < table.len() {
        assert forall|k: int| 0 <= k < table.len() implies (#[trigger] after[k]).mv
            == table[k].mv by {}
        if a < table.len() {
            lemma_find_move_at(after, mv, 0, a);
        }
        if mv == c.mv {
            lemma_find_move_at(after, mv, 0, j);
        }
    } else {
        assert forall|k: int| 0 <= k < table.len() implies #[trigger] after[k] == table[k] by {}
        if a < table.len() {
            lemma_find_move_at(after, mv, 0, a);
        }
        if mv == c.mv {
            lemma_find_move_at(after, mv, 0, table.len() as int);
        }
    }
}

/// The table holds every move once.
pub proof fn lemma_table_moves_are_distinct(lines: Seq<Seq<char>>, metric: Metric)
    ensures
        distinct_moves(table_of(lines, metric)),
    decreases lines.len(),
{
    if lines.len() > 0 {
        let t = table_of(lines.drop_last(), metric);
        lemma_table_moves_are_distinct(lines.drop_last(), metric);
        match candidate_of(sample_of(lines.last()), metric) {
            Some(c) => {
                lemma_find_move(t, c.mv, 0);
                let after = absorb(t, c);
                assert forall|i: int, j: int| 0 <= i < j < after.len() implies after[i].mv
                    != after[j].mv by {
                    if j < t.len() {
                        assert(after[i].mv == t[i].mv && after[j].mv == t[j].mv);
                    }
                }
            },
            None => {},
        }
    }
}

/// Of the samples of one move the table keeps one with the most visits:
/// whatever line names a move, the table holds that move with no fewer
/// visits than the line gives it.
pub proof fn lemma_table_keeps_most_visited(lines: Seq<Seq<char>>, metric: Metric, i: int)
    requires
        0 <= i < lines.len(),
        candidate_of(sample_of(lines[i]), metric) is Some,
    ensures
        find_move(
            table_of(lines, metric),
            candidate_of(sample_of(lines[i]), metric)->Some_0.mv,
            0,
        ) < table_of(lines, metric).len(),
        table_of(lines, metric)[find_move(
            table_of(lines, metric),
            candidate_of(sample_of(lines[i]), metric)->Some_0.mv,
            0,
        )].visits >= candidate_of(sample_of(lines[i]), metric)->Some_0.visits,
    decreases lines.len(),
{
    let c = candidate_of(sample_of(lines[i]), metric)->Some_0;
    let t = table_of(lines.drop_last(), metric);
    if i == lines.len() - 1 {
        lemma_absorb(t, c, c.mv);
    } else {
        assert(lines.drop_last()[i] == lines[i]);
        lemma_table_keeps_most_visited(lines.drop_last(), metric, i);
        match candidate_of(sample_of(lines.last()), metric) {
            Some(last) => {
                lemma_absorb(t, last, c.mv);
            },
            None => {},
        }
    }
}

/// Every candidate of the table is what one of the lines says.
pub proof fn lemma_table_entries_are_samples(lines: Seq<Seq<char>>, metric: Metric, j: int)
    requires
        0 <= j < table_of(lines, metric).len(),
    ensures
        exists|i: int|
            0 <= i < lines.len() && candidate_of(sample_of(#[trigger] lines[i]), metric) == Some(
                table_of(lines, metric)[j],
            ),
    decreases lines.len(),
{
    if lines.len() > 0 {
        let head = lines.drop_last();
        let t = table_of(head, metric);
        let last = lines.len() - 1;
        let from_head = j < t.len() && table_of(lines, metric)[j] == t[j];
        if from_head {
            lemma_table_entries_are_samples(head, metric, j);
            let i = choose|i: int|
                0 <= i < head.len() && candidate_of(sample_of(#[trigger] head[i]), metric) == Some(
                    t[j],
                );
            assert(lines[i] == head[i]);
        } else {
            let c = candidate_of(sample_of(lines.last()), metric)->Some_0;
            lemma_find_move(t, c.mv, 0);
            assert(table_of(lines, metric)[j] == c);
            assert(lines[last] == lines.last());
        }
    }
}

/// The values that `parse_info_line` hands out stay within the limit of the
/// fixed-point numbers.
pub open spec fn within_limit(s: SampleView) -> bool {
    &&& s.winrate is Some ==> -SCALED_LIMIT <= s.winrate->Some_0 <= SCALED_LIMIT
    &&& s.score_lead is Some ==> -SCALED_LIMIT <= s.score_lead->Some_0 <= SCALED_LIMIT
}

/// Every sample read from a line stays within the limit.
pub proof fn lemma_sample_within_limit(line: Seq<char>)
    ensures
        within_limit(sample_of(line)),
{
    lemma_scan_within_limit(crate::text::words(line), 0, crate::info::no_sample());
}

proof fn lemma_scan_within_limit(tokens: Seq<Seq<char>>, i: int, acc: SampleView)
    requires
        within_limit(acc),
    ensures
        within_limit(crate::info::scan(tokens, i, acc)),
    decreases tokens.len() - i,
{
    if 0 <= i && i + 1 < tokens.len() {
        if crate::info::is_key(tokens[i]) {
            lemma_scaled_value_bound(tokens[i + 1]);
            lemma_scaled_value_bound(without_trailing(tokens[i + 1], '%'));
            lemma_scan_within_limit(
                tokens,
                i + 2,
                crate::info::with_pair(acc, tokens[i], tokens[i + 1]),
            );
        } else {
            lemma_scan_within_limit(tokens, i + 1, acc);
        }
    }
}

/// The candidate that a sample describes, if it names a move.
fn candidate_from(sample: InfoSample, metric: Metric) -> (r: Option<Candidate>)
    requires
        within_limit(sample@),
    ensures
        match r {
            Some(c) => candidate_of(sample@, metric) == Some(c@),
            None => candidate_of(sample@, metric) is None,
        },
{
    let winrate: i64 = match sample.winrate {
        Some(w) => w,
        None => match sample.score_lead {
            Some(l) => HALF + l,
            None => HALF,
        },
    };
    let lead: i64 = match sample.score_lead {
        Some(l) => l,
        None => match sample.winrate {
            Some(w) => w - HALF,
            None => 0,
        },
    };
    let value: i64 = match metric {
        Metric::Winrate => winrate,
        Metric::ScoreLead => lead,
    };
    let visits: i64 = match sample.visits {
        Some(v) => v,
        None => 0,
    };
    match sample.mv {
        Some(m) => Some(Candidate { mv: m, visits, metric: value, winrate }),
        None => None,
    }
}

/// Takes one more candidate into the table.
fn absorb_into(table: &mut Vec<Candidate>, c: Candidate)
    ensures
        candidate_views(final(table)@) == absorb(candidate_views(old(table)@), c@),
{
    let ghost before = candidate_views(table@);
    let mut j: usize = 0;
    while j < table.len() && table[j].mv != c.mv
        invariant
            j <= table.len(),
            before == candidate_views(table@),
            find_move(before, c@.mv, j as int) == find_move(before, c@.mv, 0),
        decreases table.len() - j,
    {
        assert(before[j as int] == table[j as int]@);
        j += 1;
    }
    if j < table.len() {
        assert(before[j as int] == table[j as int]@);
        if c.visits > table[j].visits {
            let ghost cv = c@;
            table[j] = c;
            assert(candidate_views(table@) =~= before.update(j as int, cv));
        }
    } else {
        let ghost cv = c@;
        table.push(c);
        assert(candidate_views(table@) =~= before.push(cv));
    }
}

/// The table of the info lines.
pub fn build_table(lines: &Vec<String>, metric: Metric) -> (table: Vec<Candidate>)
    ensures
        candidate_views(table@) == table_of(texts(lines@), metric),
{
    let mut table: Vec<Candidate> = Vec::new();
    let mut i: usize = 0;
    assert(texts(lines@).take(0) =~= Seq::<Seq<char>>::empty());
    assert(candidate_views(table@) =~= Seq::<CandidateView>::empty());
    while i < lines.len()
        invariant
            i <= lines.len(),
            candidate_views(table@) == table_of(texts(lines@).take(i as int), metric),
        decreases lines.len() - i,
    {
        let ghost all = texts(lines@);
        assert(all.take(i + 1).drop_last() =~= all.take(i as int));
        assert(all.take(i + 1).last() == lines[i as int]@);
        let sample = parse_info_line(lines[i].as_str());
        proof {
            lemma_sample_within_limit(lines[i as int]@);
        }
        match candidate_from(sample, metric) {
            Some(c) => {
                absorb_into(&mut table, c);
            },
            None => {},
        }
        i += 1;
    }
    assert(texts(lines@).take(lines.len() as int) =~= texts(lines@));
    table
}

/// A copy of a candidate.
pub fn copy_candidate(c: &Candidate) -> (r: Candidate)
    ensures
        r@ == c@,
{
    Candidate { mv: c.mv.clone(), visits: c.visits, metric: c.metric, winrate: c.winrate }
}

/// The candidates of `table` by falling visits; candidates with the same
/// visits stay in the order of the table.
pub fn rank(table: &Vec<Candidate>) -> (r: Vec<Candidate>)
    ensures
        candidate_views(r@) == ranked(candidate_views(table@)),
{
    let mut r: Vec<Candidate> = Vec::new();
    let mut i: usize = 0;
    let ghost all = candidate_views(table@);
    assert(all.take(0) =~= Seq::<CandidateView>::empty());
    assert(candidate_views(r@) =~= Seq::<CandidateView>::empty());
    while i < table.len()
        invariant
            i <= table.len(),
            all == candidate_views(table@),
            candidate_views(r@) == ranked(all.take(i as int)),
        decreases table.len() - i,
    {
        assert(all.take(i + 1).drop_last() =~= all.take(i as int));
        assert(all.take(i + 1).last() == table[i as int]@);
        let c = copy_candidate(&table[i]);
        let ghost before = candidate_views(r@);
        let mut p: usize = 0;
        while p < r.len() && r[p].visits >= c.visits
            invariant
                p <= r.len(),
                before == candidate_views(r@),
                first_below(before, c@.visits, p as int) == first_below(before, c@.visits, 0),
            decreases r.len() - p,
        {
            assert(before[p as int] == r[p as int]@);
            p += 1;
        }
        if p < r.len() {
            assert(before[p as int] == r[p as int]@);
        }
        let ghost cv = c@;
        r.insert(p, c);
        assert(candidate_views(r@) =~= before.insert(p as int, cv));
        i += 1;
    }
    assert(all.take(table.len() as int) =~= all);
    r
}

/// The `k` best-visited candidates that the info lines give, best first.
pub fn candidates_from_info(lines: &Vec<String>, k: usize, metric: Metric) -> (r: Vec<Candidate>)
    ensures
        candidate_views(r@) == best_candidates(texts(lines@), k as int, metric),
{
    let table = build_table(lines, metric);
    let mut r = rank(&table);
    let ghost full = candidate_views(r@);
    if k < r.len() {
        r.truncate(k);
        assert(candidate_views(r@) =~= full.take(k as int));
    }
    r
}

/// The candidate that stands for a plain answer of the engine.
pub fn candidate_from_answer(answer: String, metric: Metric) -> (r: Candidate)
    ensures
        r@ == plain_candidate(answer@, metric),
{
    let value: i64 = match metric {
        Metric::Winrate => HALF,
        Metric::ScoreLead => 0,
    };
    Candidate { mv: answer, visits: 0, metric: value, winrate: HALF }
}

/// What passing or resigning is worth; `None` for any other move.
pub fn value_of_special(mv: &str, metric: Metric) -> (r: Option<Evaluation>)
    ensures
        r == special_value(mv@, metric),
{
    let c = uppercase(&chars_of(mv));
    if is_text(&c, "PASS") {
        Some(
            Evaluation {
                metric: match metric {
                    Metric::Winrate => HALF,
                    Metric::ScoreLead => 0,
                },
                winrate: HALF,
            },
        )
    } else if is_text(&c, "RESIGN") {
        Some(
            Evaluation {
                metric: match metric {
                    Metric::Winrate => 0,
                    Metric::ScoreLead => RESIGN_SCORE_LEAD,
                },
                winrate: 0,
            },
        )
    } else {
        None
    }
}

/// Reads every line.
pub fn parse_info_lines(lines: &Vec<String>) -> (r: Vec<InfoSample>)
    ensures
        sample_views(r@) == samples_of(texts(lines@)),
{
    let mut r: Vec<InfoSample> = Vec::new();
    let mut i: usize = 0;
    while i < lines.len()
        invariant
            i <= lines.len(),
            r.len() == i,
            forall|k: int| 0 <= k < i ==> (#[trigger] r[k])@ == sample_of(lines[k]@),
        decreases lines.len() - i,
    {
        r.push(parse_info_line(lines[i].as_str()));
        i += 1;
    }
    assert(sample_views(r@) =~= samples_of(texts(lines@)));
    r
}

/// The figure that the best-observed sample states: its score lead if
/// `lead`, its win rate otherwise; `None` where no sample states the figure.
pub fn best_figure(samples: &Vec<InfoSample>, lead: bool) -> (r: Option<i64>)
    ensures
        match r {
            Some(x) => best_sample(sample_views(samples@), lead) is Some && figure_of(
                sample_views(samples@)[best_sample(sample_views(samples@), lead)->Some_0],
                lead,
            ) == Some(x as int),
            None => best_sample(sample_views(samples@), lead) is None,
        },
{
    let ghost sv = sample_views(samples@);
    let mut best: Option<(i64, i64)> = None;
    let ghost mut at: int = 0;
    let mut i: usize = 0;
    while i < samples.len()
        invariant
            i <= samples.len(),
            sv == sample_views(samples@),
            match best {
                Some((visits, x)) => is_best_among(sv, lead, i as int, at) && visits == visits_of(
                    sv[at],
                ) && figure_of(sv[at], lead) == Some(x as int),
                None => forall|j: int| 0 <= j < i ==> !#[trigger] states(sv, lead, j),
            },
        decreases samples.len() - i,
    {
        assert(sv[i as int] == samples[i as int]@);
        let stated = if lead {
            samples[i].score_lead
        } else {
            samples[i].winrate
        };
        match stated {
            Some(x) => {
                let visits: i64 = match samples[i].visits {
                    Some(v) => v,
                    None => 0,
                };
                let better = match best {
                    Some((most, _)) => visits > most,
                    None => true,
                };
                if better {
                    best = Some((visits, x));
                    proof {
                        at = i as int;
                    }
                }
            },
            None => {},
        }
        i += 1;
    }
    match best {
        Some((_, x)) => {
            proof {
                let chosen = choose|b: int| is_best_among(sv, lead, sv.len() as int, b);
                lemma_best_sample_is_unique(sv, lead, sv.len() as int, at, chosen);
            }
            Some(x)
        },
        None => {
            assert forall|b: int| !is_best_among(sv, lead, sv.len() as int, b) by {
                if 0 <= b < sv.len() {
                    assert(!states(sv, lead, b));
                }
            }
            None
        },
    }
}

/// What a move is worth to the side that played it, from the info lines of
/// the opponent's analysis after it.
pub fn evaluation_from_info(lines: &Vec<String>, metric: Metric) -> (r: Evaluation)
    ensures
        r == reply_value(texts(lines@), metric),
{
    let samples = parse_info_lines(lines);
    let winrate = best_figure(&samples, false);
    let lead = best_figure(&samples, true);
    proof {
        let all = texts(lines@);
        let sv = samples_of(all);
        if winrate is Some {
            let b = best_sample(sv, false)->Some_0;
            assert(is_best_among(sv, false, sv.len() as int, b));
            lemma_sample_within_limit(all[b]);
        }
        if lead is Some {
            let b = best_sample(sv, true)->Some_0;
            assert(is_best_among(sv, true, sv.len() as int, b));
            lemma_sample_within_limit(all[b]);
        }
    }
    let ours: i64 = FULL - match winrate {
        Some(w) => w,
        None => HALF,
    };
    let ours_lead: i64 = -match lead {
        Some(l) => l,
        None => 0,
    };
    Evaluation {
        metric: match metric {
            Metric::Winrate => ours,
            Metric::ScoreLead => ours_lead,
        },
        winrate: ours,
    }
}

} // verus!
