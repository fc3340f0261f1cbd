//! Diagram dialect classification: an ordered table of declaration
//! signatures, tried first to last, and a looser fallback on the lowercased
//! declaration line.

use vstd::prelude::*;
use crate::text::{chars_of, lines_of, trim};
use crate::trusted::{lower_of, regex_match};

verus! {

/// Whether `p` occurs in `s` at position `k`.
pub open spec fn occurs_at(s: Seq<char>, p: Seq<char>, k: int) -> bool {
    0 <= k && k + p.len() <= s.len() && s.subrange(k, k + p.len()) == p
}

pub open spec fn contains(s: Seq<char>, p: Seq<char>) -> bool {
    exists|k: int| #[trigger] occurs_at(s, p, k)
}

pub open spec fn starts_with(s: Seq<char>, p: Seq<char>) -> bool {
    occurs_at(s, p, 0)
}

pub fn occurs_at_exec(s: &Vec<char>, p: &Vec<char>, k: usize) -> (r: bool)
    ensures
        r == occurs_at(s@, p@, k as int),
{
    if k > s.len() || p.len() > s.len() - k {
        return false;
    }
    let mut j: usize = 0;
    while j < p.len()
        invariant
            k + p@.len() <= s.len(),
            j <= p@.len(),
            forall|i: int| 0 <= i < j ==> s@[k + i] == p@[i],
        decreases p@.len() - j,
    {
        if s[k + j] != p[j] {
            assert(s@.subrange(k as int, k + p@.len())[j as int] != p@[j as int]);
            return false;
        }
        j = j + 1;
    }
    assert(s@.subrange(k as int, k + p@.len()) =~= p@);
    true
}

pub fn contains_str(s: &Vec<char>, p: &str) -> (r: bool)
    ensures
        r == contains(s@, p@),
{
    let pc = chars_of(p);
    if pc.len() > s.len() {
        assert(forall|k: int| !occurs_at(s@, p@, k));
        return false;
    }
    if pc.len() == 0 {
        assert(s@.subrange(0, 0) =~= p@);
        assert(occurs_at(s@, p@, 0));
        return true;
    }
    let last = s.len() - pc.len();
    let mut k: usize = 0;
    while k <= last
        invariant
            pc@ == p@,
            last == s@.len() - p@.len(),
            last < s.len(),
            forall|i: int| 0 <= i < k ==> !occurs_at(s@, p@, i),
        decreases last + 1 - k,
    {
        if occurs_at_exec(s, &pc, k) {
            return true;
        }
        k = k + 1;
    }
    assert forall|i: int| !occurs_at(s@, p@, i) by {
        if 0 <= i && i + p@.len() <= s@.len() {
            assert(i < k);
        }
    }
    false
}

pub fn starts_with_str(s: &Vec<char>, p: &str) -> (r: bool)
    ensures
        r == starts_with(s@, p@),
{
    let pc = chars_of(p);
    occurs_at_exec(s, &pc, 0)
}

/// Whether `s` holds exactly the characters of `p`.
pub fn equals_str(s: &Vec<char>, p: &str) -> (r: bool)
    ensures
        r == (s@ == p@),
{
    let pc = chars_of(p);
    if pc.len() != s.len() {
        return false;
    }
    let r = occurs_at_exec(s, &pc, 0);
    assert(s@.subrange(0, s@.len() as int) =~= s@);
    r
}

/// Dialect names, in order of precedence.
pub open spec fn dialect_names() -> Seq<Seq<char>> {
    seq![
        "flowchart"@,
        "sequence"@,
        "class"@,
        "state"@,
        "er"@,
        "gantt"@,
        "pie"@,
        "journey"@,
        "gitgraph"@,
        "requirement"@,
        "c4context"@,
        "mindmap"@,
        "timeline"@,
    ]
}

/// The declaration signature of each dialect, as a regular expression, in
/// the order of `dialect_names`.
pub open spec fn signature_patterns() -> Seq<Seq<char>> {
    seq![
        "^\\s*(?:graph|flowchart)\\s+(?:TD|TB|BT|RL|LR|TOP|BOTTOM|LEFT|RIGHT)"@,
        "^\\s*sequenceDiagram"@,
        "^\\s*classDiagram"@,
        "^\\s*stateDiagram(?:-v2)?"@,
        "^\\s*erDiagram"@,
        "^\\s*gantt"@,
        "^\\s*pie(?:\\s+title)?"@,
        "^\\s*journey"@,
        "^\\s*gitgraph"@,
        "^\\s*requirementDiagram"@,
        "^\\s*C4Context"@,
        "^\\s*mindmap"@,
        "^\\s*timeline"@,
    ]
}

pub const SIGNATURE_COUNT: usize = 13;

pub fn dialect_name(i: usize) -> (r: &'static str)
    requires
        i < SIGNATURE_COUNT,
    ensures
        r@ == dialect_names()[i as int],
{
    match i {
        0 => "flowchart",
        1 => "sequence",
        2 => "class",
        3 => "state",
        4 => "er",
        5 => "gantt",
        6 => "pie",
        7 => "journey",
        8 => "gitgraph",
        9 => "requirement",
        10 => "c4context",
        11 => "mindmap",
        _ => "timeline",
    }
}

pub fn signature_pattern(i: usize) -> (r: &'static str)
    requires
        i < SIGNATURE_COUNT,
    ensures
        r@ == signature_patterns()[i as int],
{
    match i {
        0 => "^\\s*(?:graph|flowchart)\\s+(?:TD|TB|BT|RL|LR|TOP|BOTTOM|LEFT|RIGHT)",
        1 => "^\\s*sequenceDiagram",
        2 => "^\\s*classDiagram",
        3 => "^\\s*stateDiagram(?:-v2)?",
        4 => "^\\s*erDiagram",
        5 => "^\\s*gantt",
        6 => "^\\s*pie(?:\\s+title)?",
        7 => "^\\s*journey",
        8 => "^\\s*gitgraph",
        9 => "^\\s*requirementDiagram",
        10 => "^\\s*C4Context",
        11 => "^\\s*mindmap",
        _ => "^\\s*timeline",
    }
}

/// The dialect of the first signature, from index `i` on, that `hits` marks
/// as matching.
pub open spec fn strict_dialect(hits: Seq<bool>, i: int) -> Option<Seq<char>>
    decreases SIGNATURE_COUNT - i,
{
    if i < 0 || i >= SIGNATURE_COUNT || i >= hits.len() {
        None
    } else if hits[i] {
        Some(dialect_names()[i])
    } else {
        strict_dialect(hits, i + 1)
    }
}

/// The looser classification of a lowercased declaration line.
pub open spec fn fallback_dialect(low: Seq<char>) -> Seq<char> {
    if contains(low, "graph"@) || contains(low, "flowchart"@) {
        "flowchart"@
    } else if contains(low, "sequencediagram"@) {
        "sequence"@
    } else if contains(low, "classdiagram"@) {
        "class"@
    } else if contains(low, "statediagram"@) {
        "state"@
    } else if contains(low, "erdiagram"@) {
        "er"@
    } else if contains(low, "gantt"@) {
        "gantt"@
    } else if contains(low, "pie"@) {
        "pie"@
    } else {
        "unknown"@
    }
}

/// The dialect given which signatures match (`hits`) and the lowercased
/// declaration line (`low`).
pub open spec fn pick_dialect(hits: Seq<bool>, low: Seq<char>) -> Seq<char> {
    match strict_dialect(hits, 0) {
        Some(d) => d,
        None => fallback_dialect(low),
    }
}

/// For each signature, whether it matches `line`.
pub open spec fn signature_hits(line: Seq<char>) -> Seq<bool> {
    Seq::new(SIGNATURE_COUNT as nat, |i: int| regex_match(signature_patterns()[i], line))
}

/// The dialect of a trimmed declaration line.
pub open spec fn classify_line(line: Seq<char>) -> Seq<char> {
    pick_dialect(signature_hits(line), lower_of(line))
}

/// The first line of `content`, trimmed (empty where there is none).
pub open spec fn declaration_line(content: Seq<char>) -> Seq<char> {
    let ls = lines_of(content);
    if ls.len() > 0 {
        trim(ls[0])
    } else {
        seq![]
    }
}

/// The dialect of diagram text: that of its first line.
pub open spec fn dialect_of(content: Seq<char>) -> Seq<char> {
    classify_line(declaration_line(content))
}

/// Whether a declaration line is accepted: a signature matches, or the
/// lowercased line starts with one of the dialect keywords.
pub open spec fn declaration_ok(hits: Seq<bool>, low: Seq<char>) -> bool {
    strict_dialect(hits, 0) is Some || starts_with(low, "graph"@) || starts_with(
        low,
        "flowchart"@,
    ) || starts_with(low, "sequencediagram"@) || starts_with(low, "classdiagram"@)
        || starts_with(low, "statediagram"@) || starts_with(low, "erdiagram"@) || starts_with(
        low,
        "gantt"@,
    ) || starts_with(low, "pie"@) || starts_with(low, "journey"@) || starts_with(
        low,
        "gitgraph"@,
    )
}

/// Index of the first matching signature, if any.
fn first_hit(hits: &Vec<bool>) -> (r: Option<usize>)
    ensures
        match r {
            Some(i) => i < SIGNATURE_COUNT && strict_dialect(hits@, 0) == Some(
                dialect_names()[i as int],
            ),
            None => strict_dialect(hits@, 0) is None,
        },
{
    let mut i: usize = 0;
    while i < SIGNATURE_COUNT && i < hits.len()
        invariant
            i <= SIGNATURE_COUNT,
            strict_dialect(hits@, 0) == strict_dialect(hits@, i as int),
        decreases SIGNATURE_COUNT - i,
    {
        if hits[i] {
            return Some(i);
        }
        i = i + 1;
    }
    None
}

/// The dialect given which signatures match the declaration line and the
/// lowercased declaration line.
pub fn dialect_from_matches(hits: &Vec<bool>, lowered: &str) -> (r: String)
    ensures
        r@ == pick_dialect(hits@, lowered@),
{
    match first_hit(hits) {
        Some(i) => String::from_str(dialect_name(i)),
        None => {
            let low = chars_of(lowered);
            let name = if contains_str(&low, "graph") || contains_str(&low, "flowchart") {
                "flowchart"
            } else if contains_str(&low, "sequencediagram") {
                "sequence"
            } else if contains_str(&low, "classdiagram") {
                "class"
            } else if contains_str(&low, "statediagram") {
                "state"
            } else if contains_str(&low, "erdiagram") {
                "er"
            } else if contains_str(&low, "gantt") {
                "gantt"
            } else if contains_str(&low, "pie") {
                "pie"
            } else {
                "unknown"
            };
            String::from_str(name)
        },
    }
}

/// Whether a declaration line is accepted, given which signatures match it
/// and the lowercased line.
pub fn declaration_accepted(hits: &Vec<bool>, lowered: &str) -> (r: bool)
    ensures
        r == declaration_ok(hits@, lowered@),
{
    if first_hit(hits).is_some() {
        return true;
    }
    let low = chars_of(lowered);
    starts_with_str(&low, "graph") || starts_with_str(&low, "flowchart") || starts_with_str(
        &low,
        "sequencediagram",
    ) || starts_with_str(&low, "classdiagram") || starts_with_str(&low, "statediagram")
        || starts_with_str(&low, "erdiagram") || starts_with_str(&low, "gantt")
        || starts_with_str(&low, "pie") || starts_with_str(&low, "journey") || starts_with_str(
        &low,
        "gitgraph",
    )
}

} // verus!
