//! Classification of one garbage-collector log line.
//!
//! A well-formed line splits into six space-separated fields: two prefix
//! fields, the two halves of the timing token, the phase name, and the body.
//! Anything else falls back to an unclassified record carrying the whole
//! line.

use vstd::prelude::*;

use crate::split::{
    find_space_from, lemma_split_count, lemma_split_last_is_suffix, lemma_split_rest,
    lemma_split_step, split_limited,
};

verus! {

/// The garbage-collection phase a log line names.
#[derive(Clone, Copy, Debug, PartialEq, Eq, Structural)]
pub enum GcPhase {
    Scavenge,
    MarkSweep,
    MarkCompact,
    Unknown,
}

/// The elapsed-timing token of a log line: the extracted text, or nothing
/// when the line was not recognized.
#[derive(Debug, PartialEq)]
pub enum Timing {
    Text(String),
    Empty,
}

/// The free-text payload that follows the phase name.
pub type Body = String;

impl View for Timing {
    type V = Option<Seq<char>>;

    open spec fn view(&self) -> Option<Seq<char>> {
        match self {
            Timing::Text(t) => Some(t@),
            Timing::Empty => None,
        }
    }
}

/// One classified log line.
#[derive(Debug)]
pub struct GcStats {
    pub phase: GcPhase,
    pub timing: Timing,
    pub body: Body,
}

/// Mathematical model of a classified line.
#[verifier::ext_equal]
pub struct GcStatsModel {
    pub phase: GcPhase,
    pub timing: Option<Seq<char>>,
    pub body: Seq<char>,
}

impl View for GcStats {
    type V = GcStatsModel;

    open spec fn view(&self) -> GcStatsModel {
        GcStatsModel { phase: self.phase, timing: self.timing@, body: self.body@ }
    }
}

/// The at-most-six space-separated fields of a line.
pub open spec fn line_tokens(s: Seq<char>) -> Seq<Seq<char>> {
    split_limited(s, 6)
}

/// The timing text of a recognized line: fields 2 and 3 joined by one space,
/// with the trailing delimiter character of field 3 stripped.
pub open spec fn spec_timing(s: Seq<char>) -> Seq<char> {
    (line_tokens(s)[2] + seq![' '] + line_tokens(s)[3]).drop_last()
}

/// The phase that a phase field names: an exact, case-sensitive match
/// against the three recognized names.
pub open spec fn phase_of_token(t: Seq<char>) -> GcPhase {
    if t == "Scavenge"@ {
        GcPhase::Scavenge
    } else if t == "Mark-sweep"@ {
        GcPhase::MarkSweep
    } else if t == "Mark-compact"@ {
        GcPhase::MarkCompact
    } else {
        GcPhase::Unknown
    }
}

/// The record that carries an unrecognized line through unchanged.
pub open spec fn fallback_model(s: Seq<char>) -> GcStatsModel {
    GcStatsModel { phase: GcPhase::Unknown, timing: None, body: s }
}

/// What classification returns for the line `s`: the recognized record when
/// the line has six fields and a known phase name, the fallback record
/// otherwise.
pub open spec fn spec_parse_log(s: Seq<char>) -> GcStatsModel {
    let toks = line_tokens(s);
    if toks.len() < 6 {
        fallback_model(s)
    } else if phase_of_token(toks[4]) == GcPhase::Unknown {
        fallback_model(s)
    } else {
        GcStatsModel {
            phase: phase_of_token(toks[4]),
            timing: Some(spec_timing(s)),
            body: toks[5],
        }
    }
}

/// A line that splits into fewer than six fields is never classified: the
/// record is the unknown phase, the empty timing, and the whole line as
/// body.
pub proof fn lemma_short_line_falls_back(s: Seq<char>)
    requires
        line_tokens(s).len() < 6,
    ensures
        spec_parse_log(s) == fallback_model(s),
{
}

/// A line with six fields whose phase field matches none of the recognized
/// names is never classified: the record is the same fallback, with the
/// whole line as body and the partially-parsed timing discarded.
pub proof fn lemma_unrecognized_phase_falls_back(s: Seq<char>)
    requires
        line_tokens(s).len() >= 6,
        line_tokens(s)[4] != "Scavenge"@,
        line_tokens(s)[4] != "Mark-sweep"@,
        line_tokens(s)[4] != "Mark-compact"@,
    ensures
        spec_parse_log(s) == fallback_model(s),
{
}

/// The timing is empty exactly when the phase is unknown, whatever the
/// input line: a recognized phase always carries extracted timing text, and
/// an unrecognized or malformed line never does.
pub proof fn lemma_timing_empty_iff_phase_unknown(s: Seq<char>)
    ensures
        (spec_parse_log(s).timing is None) <==> spec_parse_log(s).phase == GcPhase::Unknown,
{
}

/// The body is passed through verbatim: it is always a character-for-
/// character suffix of the input line — the whole line on the fallback
/// path, or the text that follows the fifth space on the recognized path.
pub proof fn lemma_body_is_suffix_of_line(s: Seq<char>)
    ensures
        exists|k: int| 0 <= k <= s.len() && spec_parse_log(s).body == s.skip(k),
{
    let toks = line_tokens(s);
    if toks.len() < 6 || phase_of_token(toks[4]) == GcPhase::Unknown {
        assert(s.skip(0) =~= s);
        assert(spec_parse_log(s).body == s.skip(0));
    } else {
        lemma_split_count(s, 6);
        lemma_split_last_is_suffix(s, 6);
        let k = choose|k: int| 0 <= k <= s.len() && split_limited(s, 6).last() == s.skip(k);
        assert(spec_parse_log(s).body == s.skip(k));
    }
}

impl GcStats {
    /// Packs the three classified fields into one record.
    pub fn new(phase: GcPhase, timing: Timing, body: Body) -> (r: GcStats)
        ensures
            r.phase == phase,
            r.timing == timing,
            r.body == body,
    {
        GcStats { phase, timing, body }
    }
}

/// The unclassified record for `line`: no phase, no timing, the whole line
/// as body.
fn fallback(line: &str) -> (r: GcStats)
    ensures
        r@ == fallback_model(line@),
{
    GcStats::new(GcPhase::Unknown, Timing::Empty, String::from_str(line))
}

/// Classifies one log line. A total function: every line, the empty one
/// included, maps to exactly one record, the fallback record when the line
/// has fewer than six fields or names no recognized phase.
pub fn parse_log(line: &str) -> (r: GcStats)
    ensures
        r@ == spec_parse_log(line@),
{
    let ghost s = line@;
    let n = line.unicode_len();

    let sp0 = find_space_from(line, 0, n);
    if sp0.is_none() {
        proof {
            assert(s.skip(0) =~= s);
            lemma_split_rest(s, 0, 6);
            assert(line_tokens(s).len() < 6);
        }
        return fallback(line);
    }
    let p0 = sp0.unwrap();

    let sp1 = find_space_from(line, p0 + 1, n);
    if sp1.is_none() {
        proof {
            assert(s.skip(0) =~= s);
            lemma_split_step(s, 0, p0 as int, 6);
            lemma_split_rest(s, p0 + 1, 5);
            assert(line_tokens(s).len() < 6);
        }
        return fallback(line);
    }
    let p1 = sp1.unwrap();

    let sp2 = find_space_from(line, p1 + 1, n);
    if sp2.is_none() {
        proof {
            assert(s.skip(0) =~= s);
            lemma_split_step(s, 0, p0 as int, 6);
            lemma_split_step(s, p0 + 1, p1 as int, 5);
            lemma_split_rest(s, p1 + 1, 4);
            assert(line_tokens(s).len() < 6);
        }
        return fallback(line);
    }
    let p2 = sp2.unwrap();

    let sp3 = find_space_from(line, p2 + 1, n);
    if sp3.is_none() {
        proof {
            assert(s.skip(0) =~= s);
            lemma_split_step(s, 0, p0 as int, 6);
            lemma_split_step(s, p0 + 1, p1 as int, 5);
            lemma_split_step(s, p1 + 1, p2 as int, 4);
            lemma_split_rest(s, p2 + 1, 3);
            assert(line_tokens(s).len() < 6);
        }
        return fallback(line);
    }
    let p3 = sp3.unwrap();

    let sp4 = find_space_from(line, p3 + 1, n);
    if sp4.is_none() {
        proof {
            assert(s.skip(0) =~= s);
            lemma_split_step(s, 0, p0 as int, 6);
            lemma_split_step(s, p0 + 1, p1 as int, 5);
            lemma_split_step(s, p1 + 1, p2 as int, 4);
            lemma_split_step(s, p2 + 1, p3 as int, 3);
            lemma_split_rest(s, p3 + 1, 2);
            assert(line_tokens(s).len() < 6);
        }
        return fallback(line);
    }
    let p4 = sp4.unwrap();

    proof {
        assert(s.skip(0) =~= s);
        lemma_split_step(s, 0, p0 as int, 6);
        lemma_split_step(s, p0 + 1, p1 as int, 5);
        lemma_split_step(s, p1 + 1, p2 as int, 4);
        lemma_split_step(s, p2 + 1, p3 as int, 3);
        lemma_split_step(s, p3 + 1, p4 as int, 2);
        assert(line_tokens(s) =~= seq![
            s.subrange(0, p0 as int),
            s.subrange(p0 as int + 1, p1 as int),
            s.subrange(p1 as int + 1, p2 as int),
            s.subrange(p2 as int + 1, p3 as int),
            s.subrange(p3 as int + 1, p4 as int),
            s.skip(p4 as int + 1),
        ]);
    }

    let t2 = line.substring_char(p1 + 1, p2);
    let t3 = line.substring_char(p2 + 1, p3);
    let phase_field = line.substring_char(p3 + 1, p4);
    let body_field = line.substring_char(p4 + 1, n);

    let mut joined = String::from_str(t2);
    joined.append(" ");
    joined.append(t3);
    proof {
        reveal_strlit(" ");
        assert(" "@ =~= seq![' ']);
        assert(joined@ =~= line_tokens(s)[2] + seq![' '] + line_tokens(s)[3]);
    }
    let joined_len = joined.as_str().unicode_len();
    let trimmed = joined.as_str().substring_char(0, joined_len - 1);
    proof {
        assert(trimmed@ =~= spec_timing(s));
    }
    let timing_text = String::from_str(trimmed);
    let body = String::from_str(body_field);
    let phase_owned = String::from_str(phase_field);

    if phase_owned == String::from_str("Scavenge") {
        GcStats::new(GcPhase::Scavenge, Timing::Text(timing_text), body)
    } else if phase_owned == String::from_str("Mark-sweep") {
        GcStats::new(GcPhase::MarkSweep, Timing::Text(timing_text), body)
    } else if phase_owned == String::from_str("Mark-compact") {
        GcStats::new(GcPhase::MarkCompact, Timing::Text(timing_text), body)
    } else {
        fallback(line)
    }
}

} // verus!
