//! The extraction and validation engine: finds fenced diagram blocks in
//! markup text, classifies and validates each, and reports diagnostics with
//! line numbers of the document.

use vstd::prelude::*;
use crate::classify::{
    contains,
    contains_str,
    declaration_accepted,
    declaration_line,
    declaration_ok,
    dialect_from_matches,
    dialect_of,
    signature_hits,
    signature_pattern,
    signature_patterns,
    starts_with,
    starts_with_str,
    SIGNATURE_COUNT,
};
use crate::text::{
    chars_of,
    join_lines,
    lemma_join_nl_count,
    lemma_lines_bound,
    line_spans,
    lines_of,
    no_newline,
    push_char,
    slice_of,
    spans_view,
    string_of,
    trim,
    trim_bounds,
};
use crate::trusted::{
    lower_of,
    lowercase,
    regex_accepts,
    regex_compiles,
    regex_find_all,
    regex_found,
    regex_is_match,
    regex_match,
    clock_now,
    millis_since,
    new_id,
    strings_view,
};

verus! {

/// One finding of validation.
#[derive(Clone, Debug)]
pub struct SyntaxError {
    pub line: usize,
    pub column: usize,
    pub message: String,
    /// "error", "warning" or "info".
    pub severity: String,
}

pub struct DiagnosticView {
    pub line: int,
    pub column: int,
    pub message: Seq<char>,
    pub severity: Seq<char>,
}

impl View for SyntaxError {
    type V = DiagnosticView;

    open spec fn view(&self) -> DiagnosticView {
        DiagnosticView {
            line: self.line as int,
            column: self.column as int,
            message: self.message@,
            severity: self.severity@,
        }
    }
}

/// The diagnostics of one diagram; valid iff none has severity "error".
#[derive(Clone, Debug)]
pub struct ValidationResult {
    pub is_valid: bool,
    pub errors: Vec<SyntaxError>,
}

pub open spec fn diagnostics_view(v: Seq<SyntaxError>) -> Seq<DiagnosticView> {
    v.map_values(|e: SyntaxError| e@)
}

pub open spec fn diag(line: int, message: Seq<char>, severity: Seq<char>) -> DiagnosticView {
    DiagnosticView { line, column: 1, message, severity }
}

// ---------------------------------------------------------------------------
// Bracket balance of one line

pub open spec fn is_opener(c: char) -> bool {
    c == '(' || c == '[' || c == '{'
}

pub open spec fn is_closer(c: char) -> bool {
    c == ')' || c == ']' || c == '}'
}

pub open spec fn closer_of(c: char) -> char {
    if c == '(' {
        ')'
    } else if c == '[' {
        ']'
    } else {
        '}'
    }
}

/// One step of the bracket scan: the stack of expected closers, or `None`
/// once a closer has failed to match.
pub open spec fn bracket_step(st: Option<Seq<char>>, c: char) -> Option<Seq<char>> {
    match st {
        None => None,
        Some(stack) => if is_opener(c) {
            Some(stack.push(closer_of(c)))
        } else if is_closer(c) {
            if stack.len() > 0 && stack.last() == c {
                Some(stack.drop_last())
            } else {
                None
            }
        } else {
            Some(stack)
        },
    }
}

/// The bracket scan over the first `k` characters of `l`.
pub open spec fn bracket_state(l: Seq<char>, k: int) -> Option<Seq<char>>
    decreases k,
{
    if k <= 0 {
        Some(seq![])
    } else {
        bracket_step(bracket_state(l, k - 1), l[k - 1])
    }
}

/// A closer without its opener, or an opener left open, within `l`.
/// Brackets are matched within one line only: one opened on a line and
/// closed on the next counts on both lines.
pub open spec fn unmatched_brackets(l: Seq<char>) -> bool {
    match bracket_state(l, l.len() as int) {
        None => true,
        Some(stack) => stack.len() > 0,
    }
}

proof fn lemma_bracket_failed(l: Seq<char>, k: int, m: int)
    requires
        0 <= k <= m,
        bracket_state(l, k) is None,
    ensures
        bracket_state(l, m) is None,
    decreases m - k,
{
    if m > k {
        lemma_bracket_failed(l, k, m - 1);
    }
}

/// Whether the line `v[from..to]` has unmatched brackets.
pub fn has_unmatched_brackets(v: &Vec<char>, from: usize, to: usize) -> (r: bool)
    requires
        from <= to <= v@.len(),
    ensures
        r == unmatched_brackets(v@.subrange(from as int, to as int)),
{
    let ghost l = v@.subrange(from as int, to as int);
    let mut stack: Vec<char> = Vec::new();
    let mut i: usize = from;
    while i < to
        invariant
            from <= i <= to <= v@.len(),
            l == v@.subrange(from as int, to as int),
            bracket_state(l, i - from) == Some(stack@),
        decreases to - i,
    {
        let c = v[i];
        assert(l[i - from] == c);
        if c == '(' || c == '[' || c == '{' {
            let close = if c == '(' {
                ')'
            } else if c == '[' {
                ']'
            } else {
                '}'
            };
            stack.push(close);
        } else if c == ')' || c == ']' || c == '}' {
            let ghost before = stack@;
            match stack.pop() {
                Some(x) => {
                    if x != c {
                        proof {
                            lemma_bracket_failed(l, i + 1 - from, l.len() as int);
                        }
                        return true;
                    }
                    assert(stack@ == before.drop_last());
                },
                None => {
                    proof {
                        lemma_bracket_failed(l, i + 1 - from, l.len() as int);
                    }
                    return true;
                },
            }
        }
        i = i + 1;
    }
    stack.len() > 0
}

// ---------------------------------------------------------------------------
// Node identifiers

/// Candidates for node identifiers: a word followed by `[` or `(`.
pub open spec fn node_id_pattern() -> Seq<char> {
    "\\b([A-Za-z_][A-Za-z0-9_]*)\\s*[\\[\\(]"@
}

pub open spec fn is_ident_char(c: char) -> bool {
    ('a' <= c && c <= 'z') || ('A' <= c && c <= 'Z') || ('0' <= c && c <= '9') || c == '_'
}

/// Length of the identifier at the front of `s`.
pub open spec fn ident_len(s: Seq<char>) -> nat
    decreases s.len(),
{
    if s.len() == 0 {
        0
    } else if is_ident_char(s[0]) {
        1 + ident_len(s.drop_first())
    } else {
        0
    }
}

pub open spec fn ident_of(s: Seq<char>) -> Seq<char> {
    s.subrange(0, ident_len(s) as int)
}

/// Too long, holding "--", or starting with "__".
pub open spec fn node_id_bad(id: Seq<char>) -> bool {
    id.len() > 50 || contains(id, "--"@) || starts_with(id, "__"@)
}

/// Whether the identifier of some candidate in `found` is bad.
pub open spec fn any_bad_node_id(found: Seq<Seq<char>>) -> bool {
    exists|i: int| 0 <= i < found.len() && #[trigger] node_id_bad(ident_of(found[i]))
}

/// Whether line `l` has a bad node identifier.
pub open spec fn invalid_node_id(l: Seq<char>) -> bool {
    any_bad_node_id(regex_found(node_id_pattern(), l))
}

proof fn lemma_ident_len(s: Seq<char>, k: int)
    requires
        0 <= k <= s.len(),
        forall|j: int| 0 <= j < k ==> is_ident_char(s[j]),
        k == s.len() || !is_ident_char(s[k]),
    ensures
        ident_len(s) == k,
    decreases k,
{
    if k > 0 {
        lemma_ident_len(s.drop_first(), k - 1);
    }
}

fn ident_end(s: &Vec<char>) -> (r: usize)
    ensures
        r == ident_len(s@),
        r <= s@.len(),
{
    let mut k: usize = 0;
    while k < s.len() && (('a' <= s[k] && s[k] <= 'z') || ('A' <= s[k] && s[k] <= 'Z') || (
    '0' <= s[k] && s[k] <= '9') || s[k] == '_')
        invariant
            k <= s@.len(),
            forall|j: int| 0 <= j < k ==> is_ident_char(s@[j]),
        decreases s@.len() - k,
    {
        k = k + 1;
    }
    proof {
        lemma_ident_len(s@, k as int);
    }
    k
}

/// Whether some candidate in `found` (texts of matches of the node
/// identifier pattern) carries a bad identifier.
pub fn node_ids_invalid(found: &Vec<String>) -> (r: bool)
    ensures
        r == any_bad_node_id(strings_view(found@)),
{
    let ghost fv = strings_view(found@);
    let mut i: usize = 0;
    while i < found.len()
        invariant
            i <= found@.len(),
            fv == strings_view(found@),
            forall|j: int| 0 <= j < i ==> !node_id_bad(ident_of(#[trigger] fv[j])),
        decreases found@.len() - i,
    {
        let s = chars_of(found[i].as_str());
        let k = ident_end(&s);
        let id = string_of(&s, 0, k);
        let idc = chars_of(id.as_str());
        let bad = idc.len() > 50 || contains_str(&idc, "--") || starts_with_str(&idc, "__");
        if bad {
            assert(node_id_bad(ident_of(fv[i as int])));
            return true;
        }
        i = i + 1;
    }
    false
}

// ---------------------------------------------------------------------------
// Validation

pub open spec fn line_diagnostics(l: Seq<char>, n: int) -> Seq<DiagnosticView> {
    (if unmatched_brackets(l) {
        seq![diag(n, "Unmatched brackets detected"@, "warning"@)]
    } else {
        seq![]
    }) + (if invalid_node_id(l) {
        seq![diag(n, "Invalid characters in node ID"@, "warning"@)]
    } else {
        seq![]
    })
}

/// The per-line diagnostics of the first `k` lines of `ls`, numbered from
/// `start`.
pub open spec fn lines_diagnostics(ls: Seq<Seq<char>>, start: int, k: int) -> Seq<DiagnosticView>
    decreases k,
{
    if k <= 0 {
        seq![]
    } else {
        lines_diagnostics(ls, start, k - 1) + line_diagnostics(ls[k - 1], start + k - 1)
    }
}

pub open spec fn declaration_diagnostics(first: Seq<char>, start: int) -> Seq<DiagnosticView> {
    if declaration_ok(signature_hits(first), lower_of(first)) {
        seq![]
    } else {
        seq![diag(start, "Invalid diagram declaration: '"@ + first + "'"@, "error"@)]
    }
}

/// The diagnostics of diagram text `content` whose first line is line
/// `start` of the document, in order.
pub open spec fn diagnostics_of(content: Seq<char>, start: int) -> Seq<DiagnosticView> {
    if trim(content).len() == 0 {
        seq![diag(start, "Empty diagram content"@, "error"@)]
    } else {
        let ls = lines_of(content);
        declaration_diagnostics(declaration_line(content), start) + lines_diagnostics(
            ls,
            start,
            ls.len() as int,
        )
    }
}

/// Number of diagnostics of severity "error".
pub open spec fn error_count(ds: Seq<DiagnosticView>) -> nat
    decreases ds.len(),
{
    if ds.len() == 0 {
        0
    } else {
        error_count(ds.drop_last()) + if ds.last().severity == "error"@ {
            1nat
        } else {
            0nat
        }
    }
}

pub open spec fn valid_diagnostics(ds: Seq<DiagnosticView>) -> bool {
    forall|i: int| 0 <= i < ds.len() ==> (#[trigger] ds[i]).severity != "error"@
}

pub proof fn lemma_error_count_add(a: Seq<DiagnosticView>, b: Seq<DiagnosticView>)
    ensures
        error_count(a + b) == error_count(a) + error_count(b),
    decreases b.len(),
{
    if b.len() > 0 {
        lemma_error_count_add(a, b.drop_last());
        assert((a + b).drop_last() =~= a + b.drop_last());
    } else {
        assert(a + b =~= a);
    }
}

pub proof fn lemma_error_count_zero(ds: Seq<DiagnosticView>)
    ensures
        (error_count(ds) == 0) == valid_diagnostics(ds),
    decreases ds.len(),
{
    if ds.len() > 0 {
        lemma_error_count_zero(ds.drop_last());
        if valid_diagnostics(ds) {
            assert(ds.last() == ds[ds.len() - 1]);
            assert(valid_diagnostics(ds.drop_last()));
        }
        if error_count(ds) == 0 {
            assert forall|i: int| 0 <= i < ds.len() implies (#[trigger] ds[i]).severity
                != "error"@ by {
                if i < ds.len() - 1 {
                    assert(ds[i] == ds.drop_last()[i]);
                }
            }
        }
    }
}

proof fn lemma_lines_diagnostics_warn(ls: Seq<Seq<char>>, start: int, k: int)
    ensures
        error_count(lines_diagnostics(ls, start, k)) == 0,
    decreases k,
{
    reveal_strlit("warning");
    reveal_strlit("error");
    if k > 0 {
        lemma_lines_diagnostics_warn(ls, start, k - 1);
        let l = line_diagnostics(ls[k - 1], start + k - 1);
        lemma_error_count_add(lines_diagnostics(ls, start, k - 1), l);
        assert("warning"@ != "error"@) by {
            assert("warning"@[0] != "error"@[0]);
        }
        assert forall|i: int| 0 <= i < l.len() implies (#[trigger] l[i]).severity != "error"@ by {
            if unmatched_brackets(ls[k - 1]) && i == 0 {
            } else {
            }
        }
        assert(error_count(l) == 0) by {
            lemma_error_count_zero(l);
        }
    }
}

/// At most one diagnostic has severity "error" (the empty-content one or
/// the declaration one), and the diagnostics are valid exactly when none
/// has.
pub proof fn lemma_diagnostics_errors(content: Seq<char>, start: int)
    ensures
        error_count(diagnostics_of(content, start)) <= 1,
        valid_diagnostics(diagnostics_of(content, start)) <==> error_count(
            diagnostics_of(content, start),
        ) == 0,
{
    reveal_strlit("error");
    let ds = diagnostics_of(content, start);
    lemma_error_count_zero(ds);
    if trim(content).len() == 0 {
        lemma_error_count_zero(ds);
        assert(ds.drop_last().len() == 0);
        assert(error_count(ds.drop_last()) == 0);
        assert(error_count(ds) == 1);
    } else {
        let ls = lines_of(content);
        let d = declaration_diagnostics(declaration_line(content), start);
        lemma_lines_diagnostics_warn(ls, start, ls.len() as int);
        lemma_error_count_add(d, lines_diagnostics(ls, start, ls.len() as int));
        if d.len() > 0 {
            assert(d.drop_last().len() == 0);
            assert(error_count(d.drop_last()) == 0);
        }
        assert(error_count(d) <= 1);
        assert(ds == d + lines_diagnostics(ls, start, ls.len() as int));
    }
}

// ---------------------------------------------------------------------------
// Extraction

/// One fenced diagram block found in a document.
#[derive(Clone, Debug)]
pub struct ParsedDiagram {
    /// Random identifier for callers to correlate records; never reused.
    pub id: String,
    pub diagram_type: String,
    /// The lines between the fences, joined with line feeds.
    pub content: String,
    /// First and last content lines, 1-indexed, in the document.
    pub start_line: usize,
    pub end_line: usize,
    pub has_error: bool,
    /// Message of the first diagnostic, if any.
    pub error_message: Option<String>,
}

/// A diagram record without its identifier.
pub struct DiagramView {
    pub diagram_type: Seq<char>,
    pub content: Seq<char>,
    pub start_line: int,
    pub end_line: int,
    pub has_error: bool,
    pub error_message: Option<Seq<char>>,
}

impl View for ParsedDiagram {
    type V = DiagramView;

    open spec fn view(&self) -> DiagramView {
        DiagramView {
            diagram_type: self.diagram_type@,
            content: self.content@,
            start_line: self.start_line as int,
            end_line: self.end_line as int,
            has_error: self.has_error,
            error_message: match self.error_message {
                Some(m) => Some(m@),
                None => None,
            },
        }
    }
}

pub open spec fn diagrams_view(v: Seq<ParsedDiagram>) -> Seq<DiagramView> {
    v.map_values(|d: ParsedDiagram| d@)
}

/// All diagrams of a document, in document order.
#[derive(Clone, Debug)]
pub struct ParseResult {
    pub diagrams: Vec<ParsedDiagram>,
    /// Sum over the diagrams of their diagnostics of severity "error".
    pub total_errors: usize,
    pub parsing_time_ms: u128,
}

/// The record of a block with content lines `block`, from line `start` to
/// line `end`.
pub open spec fn record_of(block: Seq<Seq<char>>, start: int, end: int) -> DiagramView {
    let content = join_lines(block);
    let ds = diagnostics_of(content, start);
    DiagramView {
        diagram_type: dialect_of(content),
        content,
        start_line: start,
        end_line: end,
        has_error: !valid_diagnostics(ds),
        error_message: if ds.len() > 0 {
            Some(ds[0].message)
        } else {
            None
        },
    }
}

pub open spec fn record_errors(block: Seq<Seq<char>>, start: int) -> nat {
    error_count(diagnostics_of(join_lines(block), start))
}

/// The state of the line scan.
pub struct ScanState {
    pub in_block: bool,
    /// Content lines of the open block.
    pub block: Seq<Seq<char>>,
    /// Line number of the open block's first content line.
    pub start_line: int,
    pub records: Seq<DiagramView>,
    pub errors: nat,
}

pub open spec fn is_fence_opener(t: Seq<char>) -> bool {
    starts_with(t, "```mermaid"@) || starts_with(t, "```mmd"@)
}

/// The scan after line `line`, at 0-based index `idx`.
pub open spec fn scan_step(st: ScanState, line: Seq<char>, idx: int) -> ScanState {
    let t = trim(line);
    if is_fence_opener(t) {
        ScanState {
            in_block: true,
            block: seq![],
            start_line: idx + 2,
            records: st.records,
            errors: st.errors,
        }
    } else if st.in_block && t == "```"@ {
        if st.block.len() > 0 {
            ScanState {
                in_block: false,
                block: seq![],
                start_line: st.start_line,
                records: st.records.push(record_of(st.block, st.start_line, idx)),
                errors: st.errors + record_errors(st.block, st.start_line),
            }
        } else {
            ScanState {
                in_block: false,
                block: seq![],
                start_line: st.start_line,
                records: st.records,
                errors: st.errors,
            }
        }
    } else if st.in_block {
        ScanState {
            in_block: st.in_block,
            block: st.block.push(line),
            start_line: st.start_line,
            records: st.records,
            errors: st.errors,
        }
    } else {
        st
    }
}

pub open spec fn scan_start() -> ScanState {
    ScanState { in_block: false, block: seq![], start_line: 0, records: seq![], errors: 0 }
}

/// The scan over the first `k` lines of `ls`.
pub open spec fn scan(ls: Seq<Seq<char>>, k: int) -> ScanState
    decreases k,
{
    if k <= 0 {
        scan_start()
    } else {
        scan_step(scan(ls, k - 1), ls[k - 1], k - 1)
    }
}

/// The scan over a whole document, a block left open at its end included.
pub open spec fn extract_state(text: Seq<char>) -> ScanState {
    let ls = lines_of(text);
    let st = scan(ls, ls.len() as int);
    if st.in_block && st.block.len() > 0 {
        ScanState {
            in_block: st.in_block,
            block: st.block,
            start_line: st.start_line,
            records: st.records.push(record_of(st.block, st.start_line, ls.len() as int)),
            errors: st.errors + record_errors(st.block, st.start_line),
        }
    } else {
        st
    }
}

/// The diagram records of a document, in document order.
pub open spec fn extract_records(text: Seq<char>) -> Seq<DiagramView> {
    extract_state(text).records
}

/// The total error count of a document.
pub open spec fn extract_errors(text: Seq<char>) -> nat {
    extract_state(text).errors
}

// ---------------------------------------------------------------------------
// Statistics

/// Summary of a document's diagrams.
#[derive(Clone, Debug)]
pub struct ParsingStats {
    pub total_diagrams: usize,
    pub total_errors: usize,
    pub parsing_time_ms: u128,
    /// Each dialect that occurs, once, with its number of diagrams.
    pub diagram_types: Vec<(String, usize)>,
}

/// Number of times `t` occurs in `ds`.
pub open spec fn count_in(ds: Seq<Seq<char>>, t: Seq<char>) -> nat
    decreases ds.len(),
{
    if ds.len() == 0 {
        0
    } else {
        count_in(ds.drop_last(), t) + if ds.last() == t {
            1nat
        } else {
            0nat
        }
    }
}

pub open spec fn dialects_of(ds: Seq<DiagramView>) -> Seq<Seq<char>> {
    ds.map_values(|d: DiagramView| d.diagram_type)
}

pub open spec fn type_counts_view(v: Seq<(String, usize)>) -> Seq<(Seq<char>, nat)> {
    v.map_values(|p: (String, usize)| (p.0@, p.1 as nat))
}

/// `counts` lists each name of `ds` once, with the number of its
/// occurrences, and nothing else.
pub open spec fn counts_names(counts: Seq<(Seq<char>, nat)>, ds: Seq<Seq<char>>) -> bool {
    &&& forall|a: int, b: int|
        0 <= a < b < counts.len() ==> (#[trigger] counts[a]).0 != (#[trigger] counts[b]).0
    &&& forall|a: int| 0 <= a < counts.len() ==> (#[trigger] counts[a]).1 == count_in(ds, counts[a].0)
    &&& forall|a: int| 0 <= a < counts.len() ==> ds.contains((#[trigger] counts[a]).0)
    &&& forall|k: int|
        0 <= k < ds.len() ==> exists|a: int| 0 <= a < counts.len() && (#[trigger] counts[a]).0 == #[trigger] ds[k]
}

proof fn lemma_count_absent(ds: Seq<Seq<char>>, t: Seq<char>)
    requires
        !ds.contains(t),
    ensures
        count_in(ds, t) == 0,
    decreases ds.len(),
{
    if ds.len() > 0 {
        assert(!ds.drop_last().contains(t)) by {
            if ds.drop_last().contains(t) {
                let k = choose|k: int| 0 <= k < ds.drop_last().len() && ds.drop_last()[k] == t;
                assert(ds[k] == t);
            }
        }
        lemma_count_absent(ds.drop_last(), t);
        assert(ds.last() == ds[ds.len() - 1]);
    }
}

proof fn lemma_count_bound(ds: Seq<Seq<char>>, t: Seq<char>)
    ensures
        count_in(ds, t) <= ds.len(),
    decreases ds.len(),
{
    if ds.len() > 0 {
        lemma_count_bound(ds.drop_last(), t);
    }
}

/// Counts the diagrams of each dialect.
pub fn count_types(diagrams: &Vec<ParsedDiagram>) -> (r: Vec<(String, usize)>)
    ensures
        counts_names(type_counts_view(r@), dialects_of(diagrams_view(diagrams@))),
{
    let ghost ds = dialects_of(diagrams_view(diagrams@));
    let mut counts: Vec<(String, usize)> = Vec::new();
    let mut j: usize = 0;
    while j < diagrams.len()
        invariant
            j <= diagrams@.len(),
            ds == dialects_of(diagrams_view(diagrams@)),
            counts_names(type_counts_view(counts@), ds.take(j as int)),
        decreases diagrams@.len() - j,
    {
        let ghost pre = ds.take(j as int);
        let ghost post = ds.take(j + 1);
        let ghost cv = type_counts_view(counts@);
        assert(post.drop_last() =~= pre);
        assert(post.last() == ds[j as int]);
        assert(ds[j as int] == diagrams@[j as int].diagram_type@);
        let name = &diagrams[j].diagram_type;
        let mut a: usize = 0;
        let mut found = false;
        while a < counts.len() && !found
            invariant
                a <= counts@.len(),
                cv == type_counts_view(counts@),
                found ==> a < counts@.len() && cv[a as int].0 == name@,
                forall|b: int| 0 <= b < a ==> cv[b].0 != name@,
            decreases counts@.len() - a + (if found {
                0int
            } else {
                1int
            }),
        {
            if counts[a].0 == *name {
                found = true;
            } else {
                a = a + 1;
            }
        }
        proof {
            lemma_count_bound(pre, name@);
        }
        if found {
            let c = counts[a].1;
            assert(c == count_in(pre, name@));
            assert(c < j + 1);
            let entry = (counts[a].0.clone(), c + 1);
            counts.set(a, entry);
        } else {
            proof {
                assert(!pre.contains(name@)) by {
                    if pre.contains(name@) {
                        let k = choose|k: int| 0 <= k < pre.len() && pre[k] == name@;
                        let b = choose|b: int| 0 <= b < cv.len() && cv[b].0 == pre[k];
                        assert(b < a);
                    }
                }
                lemma_count_absent(pre, name@);
            }
            counts.push((name.clone(), 1));
        }
        proof {
            let nv = type_counts_view(counts@);
            assert forall|x: int, y: int| 0 <= x < y < nv.len() implies (#[trigger] nv[x]).0
                != (#[trigger] nv[y]).0 by {
                if y < cv.len() {
                    assert(nv[x].0 == cv[x].0);
                    assert(nv[y].0 == cv[y].0);
                } else {
                    assert(nv[x].0 == cv[x].0);
                }
            }
            assert forall|b: int| 0 <= b < nv.len() implies (#[trigger] nv[b]).1 == count_in(
                post,
                nv[b].0,
            ) && post.contains(nv[b].0) by {
                if b < cv.len() {
                    assert(post[j as int] == name@);
                    if found && b == a {
                    } else {
                        assert(nv[b] == cv[b]);
                        assert(pre.contains(cv[b].0));
                        let k = choose|k: int| 0 <= k < pre.len() && pre[k] == cv[b].0;
                        assert(post[k] == pre[k]);
                    }
                } else {
                    assert(post[j as int] == name@);
                }
            }
            assert forall|k: int| 0 <= k < post.len() implies exists|b: int|
                0 <= b < nv.len() && (#[trigger] nv[b]).0 == #[trigger] post[k] by {
                if k < j {
                    assert(post[k] == pre[k]);
                    let b = choose|b: int| 0 <= b < cv.len() && cv[b].0 == pre[k];
                    assert(nv[b].0 == cv[b].0);
                } else if found {
                    assert(nv[a as int].0 == post[k]);
                } else {
                    assert(nv[cv.len() as int].0 == post[k]);
                }
            }
        }
        j = j + 1;
    }
    assert(ds.take(diagrams@.len() as int) =~= ds);
    counts
}

// ---------------------------------------------------------------------------
// The parser

/// The engine. It holds the ordered table of declaration signatures, built
/// once and never changed.
pub struct MermaidParser {
    signatures: Vec<String>,
}

/// The node identifier pattern, as the regex crate reads it.
pub fn node_id_regex() -> (r: &'static str)
    ensures
        r@ == node_id_pattern(),
{
    "\\b([A-Za-z_][A-Za-z0-9_]*)\\s*[\\[\\(]"
}

/// Every pattern the engine uses compiles.
pub open spec fn patterns_compile() -> bool {
    &&& forall|i: int| 0 <= i < SIGNATURE_COUNT ==> regex_compiles(#[trigger] signature_patterns()[i])
    &&& regex_compiles(node_id_pattern())
}

impl MermaidParser {
    pub closed spec fn wf(&self) -> bool {
        &&& self.signatures@.len() == SIGNATURE_COUNT
        &&& forall|i: int|
            0 <= i < SIGNATURE_COUNT ==> (#[trigger] self.signatures@[i])@
                == signature_patterns()[i]
    }

    /// Builds the signature table; fails where one of the patterns does not
    /// compile.
    pub fn new() -> (r: Result<MermaidParser, String>)
        ensures
            r is Ok <==> patterns_compile(),
            r matches Ok(p) ==> p.wf(),
    {
        let mut signatures: Vec<String> = Vec::new();
        let mut i: usize = 0;
        while i < SIGNATURE_COUNT
            invariant
                i <= SIGNATURE_COUNT,
                signatures@.len() == i,
                forall|j: int|
                    0 <= j < i ==> (#[trigger] signatures@[j])@ == signature_patterns()[j],
                forall|j: int| 0 <= j < i ==> regex_compiles(#[trigger] signature_patterns()[j]),
            decreases SIGNATURE_COUNT - i,
        {
            let pattern = signature_pattern(i);
            if !regex_accepts(pattern) {
                let mut msg = String::from_str("Invalid signature pattern: ");
                msg.append(pattern);
                return Err(msg);
            }
            signatures.push(String::from_str(pattern));
            i = i + 1;
        }
        let node = node_id_regex();
        if !regex_accepts(node) {
            let mut msg = String::from_str("Invalid signature pattern: ");
            msg.append(node);
            return Err(msg);
        }
        Ok(MermaidParser { signatures })
    }

    /// For each signature, whether it matches `line`.
    fn signature_hits_of(&self, line: &str) -> (r: Vec<bool>)
        requires
            self.wf(),
        ensures
            r@ == signature_hits(line@),
    {
        let mut hits: Vec<bool> = Vec::new();
        let mut i: usize = 0;
        while i < SIGNATURE_COUNT
            invariant
                self.wf(),
                i <= SIGNATURE_COUNT,
                hits@.len() == i,
                forall|j: int|
                    0 <= j < i ==> #[trigger] hits@[j] == regex_match(
                        signature_patterns()[j],
                        line@,
                    ),
            decreases SIGNATURE_COUNT - i,
        {
            hits.push(regex_is_match(self.signatures[i].as_str(), line));
            i = i + 1;
        }
        assert(hits@ =~= signature_hits(line@));
        hits
    }

    /// Whether a trimmed first line declares a diagram.
    fn is_valid_diagram_declaration(&self, line: &str) -> (r: bool)
        requires
            self.wf(),
        ensures
            r == declaration_ok(signature_hits(line@), lower_of(line@)),
    {
        let hits = self.signature_hits_of(line);
        let low = lowercase(line);
        declaration_accepted(&hits, low.as_str())
    }

    /// Whether a line holds a bad node identifier.
    fn has_invalid_node_id(line: &str) -> (r: bool)
        ensures
            r == invalid_node_id(line@),
    {
        let found = regex_find_all(node_id_regex(), line);
        node_ids_invalid(&found)
    }

    /// Appends the diagnostics of line `v[from..to]`, numbered `line_number`.
    fn check_line(
        v: &Vec<char>,
        from: usize,
        to: usize,
        line_number: usize,
        errors: &mut Vec<SyntaxError>,
    )
        requires
            from <= to <= v@.len(),
        ensures
            diagnostics_view(final(errors)@) == diagnostics_view(old(errors)@) + line_diagnostics(
                v@.subrange(from as int, to as int),
                line_number as int,
            ),
    {
        let ghost before = diagnostics_view(errors@);
        if has_unmatched_brackets(v, from, to) {
            errors.push(
                SyntaxError {
                    line: line_number,
                    column: 1,
                    message: String::from_str("Unmatched brackets detected"),
                    severity: String::from_str("warning"),
                },
            );
        }
        let line = string_of(v, from, to);
        if Self::has_invalid_node_id(line.as_str()) {
            errors.push(
                SyntaxError {
                    line: line_number,
                    column: 1,
                    message: String::from_str("Invalid characters in node ID"),
                    severity: String::from_str("warning"),
                },
            );
        }
        assert(diagnostics_view(errors@) =~= before + line_diagnostics(
            v@.subrange(from as int, to as int),
            line_number as int,
        ));
    }

    /// The trimmed first line of `v` (empty where `v` has no line).
    fn first_line_of(v: &Vec<char>) -> (r: String)
        ensures
            r@ == declaration_line(v@),
    {
        let spans = line_spans(v);
        if spans.len() == 0 {
            return String::new();
        }
        assert(spans_view(spans@, v@)[0] == v@.subrange(spans@[0].0 as int, spans@[0].1 as int));
        let (a, b) = trim_bounds(v, spans[0].0, spans[0].1);
        string_of(v, a, b)
    }

    /// The dialect of diagram text, from its first line.
    pub fn detect_diagram_type(&self, content: &str) -> (r: String)
        requires
            self.wf(),
        ensures
            r@ == dialect_of(content@),
    {
        let v = chars_of(content);
        let first = Self::first_line_of(&v);
        let hits = self.signature_hits_of(first.as_str());
        let low = lowercase(first.as_str());
        dialect_from_matches(&hits, low.as_str())
    }

    /// Validates diagram text whose first line is line `start_line` of the
    /// document.
    #[verifier::rlimit(60)]
    #[verifier::spinoff_prover]
    pub fn validate_diagram(&self, content: &str, start_line: usize) -> (r: ValidationResult)
        requires
            self.wf(),
            start_line + lines_of(content@).len() <= usize::MAX,
        ensures
            diagnostics_view(r.errors@) == diagnostics_of(content@, start_line as int),
            r.is_valid == valid_diagnostics(diagnostics_of(content@, start_line as int)),
    {
        proof {
            reveal_strlit("error");
            reveal_strlit("warning");
            lemma_diagnostics_errors(content@, start_line as int);
        }
        let v = chars_of(content);
        let mut errors: Vec<SyntaxError> = Vec::new();
        let (a, b) = trim_bounds(&v, 0, v.len());
        assert(v@.subrange(0, v@.len() as int) =~= v@);
        if a == b {
            errors.push(
                SyntaxError {
                    line: start_line,
                    column: 1,
                    message: String::from_str("Empty diagram content"),
                    severity: String::from_str("error"),
                },
            );
            assert(diagnostics_view(errors@) =~= diagnostics_of(content@, start_line as int));
            return ValidationResult { is_valid: false, errors };
        }
        let spans = line_spans(&v);
        let ghost ls = lines_of(v@);
        let first = Self::first_line_of(&v);
        let declared = self.is_valid_diagram_declaration(first.as_str());
        if !declared {
            let mut msg = String::from_str("Invalid diagram declaration: '");
            msg.append(first.as_str());
            msg.append("'");
            errors.push(
                SyntaxError {
                    line: start_line,
                    column: 1,
                    message: msg,
                    severity: String::from_str("error"),
                },
            );
        }
        let ghost decl = declaration_diagnostics(declaration_line(v@), start_line as int);
        assert(diagnostics_view(errors@) =~= decl);
        let mut i: usize = 0;
        while i < spans.len()
            invariant
                i <= spans@.len(),
                spans_view(spans@, v@) == ls,
                ls == lines_of(v@),
                v@ == content@,
                start_line + ls.len() <= usize::MAX,
                forall|j: int|
                    0 <= j < spans@.len() ==> #[trigger] spans@[j].0 <= spans@[j].1 <= v@.len(),
                diagnostics_view(errors@) == decl + lines_diagnostics(ls, start_line as int, i as int),
            decreases spans@.len() - i,
        {
            let (from, to) = spans[i];
            let ghost l = v@.subrange(from as int, to as int);
            assert(ls[i as int] == l);
            Self::check_line(&v, from, to, start_line + i, &mut errors);
            assert(lines_diagnostics(ls, start_line as int, i + 1) == lines_diagnostics(
                ls,
                start_line as int,
                i as int,
            ) + line_diagnostics(l, start_line + i));
            assert(diagnostics_view(errors@) =~= decl + lines_diagnostics(
                ls,
                start_line as int,
                i + 1,
            ));
            i = i + 1;
        }
        let is_valid = declared;
        assert(decl.len() == 0 <==> declared);
        proof {
            let ds = diagnostics_of(content@, start_line as int);
            assert(ds == diagnostics_view(errors@));
            lemma_error_count_add(decl, lines_diagnostics(ls, start_line as int, ls.len() as int));
            lemma_lines_diagnostics_warn(ls, start_line as int, ls.len() as int);
            if !declared {
                assert(decl.drop_last().len() == 0);
                assert(error_count(decl.drop_last()) == 0);
            }
        }
        ValidationResult { is_valid, errors }
    }
    /// The record of the block whose content lines are the spans `block` of
    /// `v`, with the count of its error diagnostics.
    fn finish_block(
        &self,
        v: &Vec<char>,
        block: &Vec<(usize, usize)>,
        start_line: usize,
        end_line: usize,
    ) -> (r: (ParsedDiagram, usize))
        requires
            self.wf(),
            block@.len() > 0,
            start_line + block@.len() <= usize::MAX,
            forall|j: int|
                0 <= j < block@.len() ==> #[trigger] block@[j].0 <= block@[j].1 <= v@.len(),
            forall|j: int| 0 <= j < block@.len() ==> no_newline(#[trigger] spans_view(block@, v@)[j]),
        ensures
            r.0@ == record_of(spans_view(block@, v@), start_line as int, end_line as int),
            r.1 == record_errors(spans_view(block@, v@), start_line as int),
            r.1 <= 1,
    {
        let ghost ls = spans_view(block@, v@);
        let mut content = String::new();
        let mut k: usize = 0;
        while k < block.len()
            invariant
                k <= block@.len(),
                ls == spans_view(block@, v@),
                forall|j: int|
                    0 <= j < block@.len() ==> #[trigger] block@[j].0 <= block@[j].1 <= v@.len(),
                content@ == join_lines(ls.take(k as int)),
            decreases block@.len() - k,
        {
            let ghost before = content@;
            if k > 0 {
                push_char(&mut content, '\n');
            }
            let (from, to) = block[k];
            let mut j: usize = from;
            let ghost mid = content@;
            while j < to
                invariant
                    from <= j <= to <= v@.len(),
                    content@ == mid + v@.subrange(from as int, j as int),
                decreases to - j,
            {
                push_char(&mut content, v[j]);
                assert(content@ =~= mid + v@.subrange(from as int, j + 1));
                j = j + 1;
            }
            proof {
                assert(ls[k as int] == v@.subrange(from as int, to as int));
                let t = ls.take(k + 1);
                assert(t.drop_last() =~= ls.take(k as int));
                if k == 0 {
                    assert(content@ =~= t[0]);
                } else {
                    assert(content@ =~= join_lines(t.drop_last()) + seq!['\n'] + t.last());
                }
            }
            k = k + 1;
        }
        assert(ls.take(block@.len() as int) =~= ls);
        proof {
            lemma_join_nl_count(ls);
            lemma_lines_bound(content@);
            lemma_diagnostics_errors(content@, start_line as int);
        }
        let validation = self.validate_diagram(content.as_str(), start_line);
        let diagram_type = self.detect_diagram_type(content.as_str());
        let error_message = if validation.errors.len() > 0 {
            Some(validation.errors[0].message.clone())
        } else {
            None
        };
        let errors: usize = if validation.is_valid {
            0
        } else {
            1
        };
        let d = ParsedDiagram {
            id: new_id(),
            diagram_type,
            content,
            start_line,
            end_line,
            has_error: !validation.is_valid,
            error_message,
        };
        proof {
            if validation.errors@.len() > 0 {
                assert(diagnostics_view(validation.errors@)[0] == validation.errors@[0]@);
            }
        }
        (d, errors)
    }

    /// Finds every fenced diagram block of `content`, classifies and
    /// validates it.
    pub fn parse_content(&self, content: &str) -> (r: ParseResult)
        requires
            self.wf(),
            content@.len() + 2 <= usize::MAX,
        ensures
            diagrams_view(r.diagrams@) == extract_records(content@),
            r.total_errors == extract_errors(content@),
    {
        let clock = clock_now();
        let v = chars_of(content);
        let spans = line_spans(&v);
        let ghost ls = lines_of(content@);
        let n = spans.len();
        let mut diagrams: Vec<ParsedDiagram> = Vec::new();
        let mut total_errors: usize = 0;
        let mut in_block = false;
        let mut block: Vec<(usize, usize)> = Vec::new();
        let mut start_line: usize = 0;
        let mut i: usize = 0;
        assert(spans_view(block@, v@) =~= Seq::<Seq<char>>::empty());
        assert(diagrams_view(diagrams@) =~= Seq::<DiagramView>::empty());
        while i < n
            invariant
                n == spans@.len(),
                n <= v@.len(),
                v@ == content@,
                content@.len() + 2 <= usize::MAX,
                ls == spans_view(spans@, v@),
                self.wf(),
                forall|j: int|
                    0 <= j < spans@.len() ==> #[trigger] spans@[j].0 <= spans@[j].1 <= v@.len(),
                forall|j: int| 0 <= j < spans@.len() ==> no_newline(#[trigger] ls[j]),
                forall|j: int|
                    0 <= j < block@.len() ==> #[trigger] block@[j].0 <= block@[j].1 <= v@.len(),
                forall|j: int|
                    0 <= j < block@.len() ==> no_newline(#[trigger] spans_view(block@, v@)[j]),
                i <= n,
                in_block ==> start_line + block@.len() == i + 1,
                !in_block ==> block@.len() == 0,
                total_errors <= diagrams@.len() <= i,
                scan(ls, i as int) == (ScanState {
                    in_block,
                    block: spans_view(block@, v@),
                    start_line: start_line as int,
                    records: diagrams_view(diagrams@),
                    errors: total_errors as nat,
                }),
            decreases n - i,
        {
            let (from, to) = spans[i];
            let (a, b) = trim_bounds(&v, from, to);
            let t = slice_of(&v, a, b);
            proof {
                reveal_strlit("```");
            }
            let opener = starts_with_str(&t, "```mermaid") || starts_with_str(&t, "```mmd");
            let closer = t.len() == 3 && starts_with_str(&t, "```");
            proof {
                assert(ls[i as int] == v@.subrange(from as int, to as int));
                if closer {
                    assert(t@ =~= "```"@);
                }
                if t@ == "```"@ {
                    assert(t@.subrange(0, 3) =~= t@);
                }
            }
            let ghost st = scan(ls, i as int);
            let ghost old_diagrams = diagrams@;
            let ghost old_block = block@;
            if opener {
                in_block = true;
                start_line = i + 2;
                block = Vec::new();
            } else if in_block && closer {
                if block.len() > 0 {
                    let (d, errors) = self.finish_block(&v, &block, start_line, i);
                    diagrams.push(d);
                    total_errors = total_errors + errors;
                    assert(diagrams_view(diagrams@) =~= diagrams_view(old_diagrams).push(d@));
                }
                in_block = false;
                block = Vec::new();
            } else if in_block {
                block.push((from, to));
                proof {
                    assert(spans_view(block@, v@) =~= spans_view(old_block, v@).push(ls[i as int]));
                    assert forall|j: int| 0 <= j < block@.len() implies no_newline(
                        #[trigger] spans_view(block@, v@)[j],
                    ) by {
                        if j < old_block.len() {
                            assert(spans_view(block@, v@)[j] == spans_view(old_block, v@)[j]);
                        }
                    }
                }
            }
            proof {
                assert(spans_view(Seq::<(usize, usize)>::empty(), v@) =~= Seq::<Seq<char>>::empty());
                assert(scan(ls, i + 1) == scan_step(st, ls[i as int], i as int));
            }
            i = i + 1;
        }
        if in_block && block.len() > 0 {
            let (d, errors) = self.finish_block(&v, &block, start_line, n);
            let ghost old_diagrams = diagrams@;
            diagrams.push(d);
            total_errors = total_errors + errors;
            assert(diagrams_view(diagrams@) =~= diagrams_view(old_diagrams).push(d@));
        }
        let parsing_time_ms = millis_since(&clock);
        ParseResult { diagrams, total_errors, parsing_time_ms }
    }
    /// Counts of a document's diagrams, their errors and their dialects.
    pub fn get_parsing_stats(&self, content: &str) -> (r: ParsingStats)
        requires
            self.wf(),
            content@.len() + 2 <= usize::MAX,
        ensures
            r.total_diagrams == extract_records(content@).len(),
            r.total_errors == extract_errors(content@),
            counts_names(type_counts_view(r.diagram_types@), dialects_of(extract_records(content@))),
    {
        let parsed = self.parse_content(content);
        let diagram_types = count_types(&parsed.diagrams);
        ParsingStats {
            total_diagrams: parsed.diagrams.len(),
            total_errors: parsed.total_errors,
            parsing_time_ms: parsed.parsing_time_ms,
            diagram_types,
        }
    }
}

// ---------------------------------------------------------------------------
// Laws of extraction

/// What holds of the scan after `k` lines: every record lies within the
/// lines seen, records are in order without overlap, and an open block
/// starts after the last record and runs up to line `k`.
pub open spec fn scan_ordered(st: ScanState, k: int) -> bool {
    &&& forall|i: int|
        0 <= i < st.records.len() ==> 1 <= (#[trigger] st.records[i]).start_line
            <= st.records[i].end_line < k
    &&& forall|i: int, j: int|
        0 <= i < j < st.records.len() ==> (#[trigger] st.records[i]).end_line
            < (#[trigger] st.records[j]).start_line
    &&& st.in_block ==> {
        &&& 2 <= st.start_line
        &&& st.start_line + st.block.len() == k + 1
        &&& forall|i: int|
            0 <= i < st.records.len() ==> (#[trigger] st.records[i]).end_line < st.start_line
    }
}

proof fn lemma_scan_ordered(ls: Seq<Seq<char>>, k: int)
    requires
        0 <= k <= ls.len(),
    ensures
        scan_ordered(scan(ls, k), k),
    decreases k,
{
    if k > 0 {
        lemma_scan_ordered(ls, k - 1);
        let st = scan(ls, k - 1);
        let nx = scan(ls, k);
        assert(nx == scan_step(st, ls[k - 1], k - 1));
        if nx.records.len() > st.records.len() {
            assert forall|i: int| 0 <= i < st.records.len() implies nx.records[i]
                == st.records[i] by {}
        } else {
            assert(nx.records == st.records);
        }
    }
}

/// Every diagram record spans lines of the document, `start_line` not after
/// `end_line`, and the records follow one another in document order
/// without overlap.
pub proof fn lemma_records_ordered(text: Seq<char>)
    ensures
        forall|i: int|
            0 <= i < extract_records(text).len() ==> 1 <= (#[trigger] extract_records(
                text,
            )[i]).start_line <= extract_records(text)[i].end_line <= lines_of(text).len(),
        forall|i: int, j: int|
            0 <= i < j < extract_records(text).len() ==> (#[trigger] extract_records(
                text,
            )[i]).end_line < (#[trigger] extract_records(text)[j]).start_line,
{
    let ls = lines_of(text);
    lemma_scan_ordered(ls, ls.len() as int);
    let st = scan(ls, ls.len() as int);
    let rs = extract_records(text);
    if st.in_block && st.block.len() > 0 {
        assert forall|i: int| 0 <= i < st.records.len() implies rs[i] == st.records[i] by {}
    }
}

/// Text without a fence opener holds no diagram and no error.
pub proof fn lemma_no_fence_no_diagrams(text: Seq<char>)
    requires
        forall|i: int|
            0 <= i < lines_of(text).len() ==> !is_fence_opener(trim(#[trigger] lines_of(text)[i])),
    ensures
        extract_records(text).len() == 0,
        extract_errors(text) == 0,
{
    let ls = lines_of(text);
    lemma_scan_idle(ls, ls.len() as int);
}

proof fn lemma_scan_idle(ls: Seq<Seq<char>>, k: int)
    requires
        0 <= k <= ls.len(),
        forall|i: int| 0 <= i < ls.len() ==> !is_fence_opener(trim(#[trigger] ls[i])),
    ensures
        scan(ls, k) == scan_start(),
    decreases k,
{
    if k > 0 {
        lemma_scan_idle(ls, k - 1);
        assert(!is_fence_opener(trim(ls[k - 1])));
    }
}

/// Two extractions of the same text give the same records, line ranges,
/// dialects and validity (their identifiers aside), and the same error
/// total.
pub proof fn lemma_extract_repeatable(text: Seq<char>, a: ParseResult, b: ParseResult)
    requires
        diagrams_view(a.diagrams@) == extract_records(text),
        a.total_errors == extract_errors(text),
        diagrams_view(b.diagrams@) == extract_records(text),
        b.total_errors == extract_errors(text),
    ensures
        a.diagrams@.len() == b.diagrams@.len(),
        a.total_errors == b.total_errors,
        forall|i: int|
            0 <= i < a.diagrams@.len() ==> {
                &&& (#[trigger] a.diagrams@[i]).diagram_type@ == b.diagrams@[i].diagram_type@
                &&& a.diagrams@[i].content@ == b.diagrams@[i].content@
                &&& a.diagrams@[i].start_line == b.diagrams@[i].start_line
                &&& a.diagrams@[i].end_line == b.diagrams@[i].end_line
                &&& a.diagrams@[i].has_error == b.diagrams@[i].has_error
            },
{
    assert(diagrams_view(a.diagrams@).len() == a.diagrams@.len());
    assert(diagrams_view(b.diagrams@).len() == b.diagrams@.len());
    assert forall|i: int| 0 <= i < a.diagrams@.len() implies {
        &&& (#[trigger] a.diagrams@[i]).diagram_type@ == b.diagrams@[i].diagram_type@
        &&& a.diagrams@[i].content@ == b.diagrams@[i].content@
        &&& a.diagrams@[i].start_line == b.diagrams@[i].start_line
        &&& a.diagrams@[i].end_line == b.diagrams@[i].end_line
        &&& a.diagrams@[i].has_error == b.diagrams@[i].has_error
    } by {
        assert(diagrams_view(a.diagrams@)[i] == a.diagrams@[i]@);
        assert(diagrams_view(b.diagrams@)[i] == b.diagrams@[i]@);
    }
}

} // verus!
