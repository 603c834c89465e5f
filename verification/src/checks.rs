//! Lint findings and their presentation to the editor.
//!
//! The lint engine reports checks with one-indexed rows; the editor
//! protocol counts lines from zero. This module holds the plain
//! record types for both sides, the verified conversions between
//! them, and the per-document registry that answers range queries
//! for code actions.

use vstd::prelude::*;
use vstd::string::*;

verus! {

/// A position as the lint engine reports it: a one-indexed row and a
/// zero-indexed column.
#[derive(Debug, Clone, Copy, PartialEq, Eq, Structural)]
pub struct SourceLocation {
    pub row: u32,
    pub column: u32,
}

/// A protocol position: line and character, both zero-indexed.
#[derive(Debug, Clone, Copy, PartialEq, Eq, Structural)]
pub struct Position {
    pub line: u32,
    pub character: u32,
}

/// A half-open protocol range.
#[derive(Debug, Clone, Copy, PartialEq, Eq, Structural)]
pub struct Range {
    pub start: Position,
    pub end: Position,
}

#[derive(Debug, Clone, Copy, PartialEq, Eq, Structural)]
pub enum Severity {
    Error,
    Warning,
    Information,
    Hint,
}

/// A suggested replacement: `content` takes the place of the text
/// between the two locations.
pub struct Fix {
    pub content: String,
    pub location: SourceLocation,
    pub end_location: SourceLocation,
}

/// One lint finding: a rule code, a human message, the source range
/// it covers, and optionally a fix.
pub struct Check {
    pub code: String,
    pub message: String,
    pub location: SourceLocation,
    pub end_location: SourceLocation,
    pub fix: Option<Fix>,
}

/// A diagnostic as published to the editor.
pub struct Diagnostic {
    pub range: Range,
    pub code: String,
    pub source: String,
    pub message: String,
    pub severity: Severity,
}

/// One replacement in a document.
pub struct TextEdit {
    pub range: Range,
    pub new_text: String,
}

#[derive(Debug, Clone, Copy, PartialEq, Eq, Structural)]
pub enum ActionKind {
    QuickFix,
}

/// A quick-fix offer: the diagnostics it addresses and the edit that
/// resolves them in the named document.
pub struct CodeAction {
    pub title: String,
    pub kind: ActionKind,
    pub diagnostics: Vec<Diagnostic>,
    pub document_uri: String,
    pub edits: Vec<TextEdit>,
}

/// The protocol range for a lint check: rows drop to zero-indexed,
/// columns pass through.
pub open spec fn check_range(location: SourceLocation, end_location: SourceLocation) -> Range {
    Range {
        start: Position { line: (location.row - 1) as u32, character: location.column },
        end: Position { line: (end_location.row - 1) as u32, character: end_location.column },
    }
}

/// What the published diagnostic for a check must hold.
pub open spec fn diagnostic_matches_check(d: Diagnostic, c: Check) -> bool {
    &&& d.range == check_range(c.location, c.end_location)
    &&& d.code@ == c.code@
    &&& d.source@ == "ruff"@
    &&& d.message@ == c.message@
    &&& d.severity == Severity::Warning
}

/// Converts a lint check to the diagnostic published for it: rows
/// become zero-indexed, severity is a warning attributed to the lint
/// engine.
pub fn diagnostic_from_check(check: &Check) -> (d: Diagnostic)
    requires
        check.location.row >= 1,
        check.end_location.row >= 1,
    ensures
        diagnostic_matches_check(d, *check),
{
    let row_start = check.location.row - 1;
    let col_start = check.location.column;
    let row_end = check.end_location.row - 1;
    let col_end = check.end_location.column;
    let start = Position { line: row_start, character: col_start };
    let end = Position { line: row_end, character: col_end };
    let range = Range { start, end };
    Diagnostic {
        range,
        code: check.code.clone(),
        source: String::from_str("ruff"),
        message: check.message.clone(),
        severity: Severity::Warning,
    }
}

/// Converts a check into a quick-fix offer for the given document,
/// when the check carries a fix: one edit applying the fix's
/// replacement at its zero-indexed range, with the check's diagnostic
/// attached and a title naming the rule.
pub fn action_from_check(check: &Check, document_uri: &String) -> (r: Option<CodeAction>)
    requires
        check.location.row >= 1,
        check.end_location.row >= 1,
        check.fix matches Some(f) ==> f.location.row >= 1 && f.end_location.row >= 1,
    ensures
        (r is Some) == (check.fix is Some),
        r matches Some(a) ==> (check.fix matches Some(f) && ({
            &&& a.title@ == "fix "@ + check.code@
            &&& a.kind == ActionKind::QuickFix
            &&& a.document_uri@ == document_uri@
            &&& a.diagnostics@.len() == 1
            &&& diagnostic_matches_check(a.diagnostics@[0], *check)
            &&& a.edits@.len() == 1
            &&& a.edits@[0].range == check_range(f.location, f.end_location)
            &&& a.edits@[0].new_text@ == f.content@
        })),
{
    match &check.fix {
        None => None,
        Some(fix) => {
            let row_start = fix.location.row - 1;
            let row_end = fix.end_location.row - 1;
            let col_start = fix.location.column;
            let col_end = fix.end_location.column;
            let title = String::from_str("fix ").concat(check.code.as_str());
            let diagnostic = diagnostic_from_check(check);
            let mut diagnostics: Vec<Diagnostic> = Vec::new();
            diagnostics.push(diagnostic);
            let edit = TextEdit {
                range: Range {
                    start: Position { line: row_start, character: col_start },
                    end: Position { line: row_end, character: col_end },
                },
                new_text: fix.content.clone(),
            };
            let mut edits: Vec<TextEdit> = Vec::new();
            edits.push(edit);
            Some(
                CodeAction {
                    title,
                    kind: ActionKind::QuickFix,
                    diagnostics,
                    document_uri: document_uri.clone(),
                    edits,
                },
            )
        },
    }
}

/// Whether a check's positions look like genuine lint-engine output:
/// rows are one-indexed, so every row is at least one.
pub open spec fn check_rows_valid(c: Check) -> bool {
    &&& c.location.row >= 1
    &&& c.end_location.row >= 1
    &&& (c.fix matches Some(f) ==> f.location.row >= 1 && f.end_location.row >= 1)
}

/// Lexicographic order on (row, column) positions.
pub open spec fn loc_lt(a: SourceLocation, b: SourceLocation) -> bool {
    a.row < b.row || (a.row == b.row && a.column < b.column)
}

/// Whether a check's source range intersects the half-open query
/// range `[start, end)`.
pub open spec fn check_intersects(c: Check, start: SourceLocation, end: SourceLocation) -> bool {
    loc_lt(c.location, end) && loc_lt(start, c.end_location)
}

fn loc_lt_exec(a: SourceLocation, b: SourceLocation) -> (r: bool)
    ensures
        r == loc_lt(a, b),
{
    a.row < b.row || (a.row == b.row && a.column < b.column)
}

/// The positions, in increasing order, of the checks among the first
/// `n` of `s` whose range intersects `[start, end)`.
pub open spec fn selected_indices(
    s: Seq<Check>,
    start: SourceLocation,
    end: SourceLocation,
    n: int,
) -> Seq<usize>
    decreases n,
{
    if n <= 0 {
        Seq::empty()
    } else {
        let prefix = selected_indices(s, start, end, n - 1);
        if check_intersects(s[n - 1], start, end) {
            prefix.push((n - 1) as usize)
        } else {
            prefix
        }
    }
}

/// The selected positions are in range, intersecting, strictly
/// increasing, and complete: every intersecting position occurs.
pub proof fn lemma_selected_indices(
    s: Seq<Check>,
    start: SourceLocation,
    end: SourceLocation,
    n: int,
)
    requires
        0 <= n <= s.len(),
        n <= usize::MAX,
    ensures
        ({
            let sel = selected_indices(s, start, end, n);
            &&& forall|k: int|
                0 <= k < sel.len() ==> (#[trigger] sel[k]) < n && check_intersects(
                    s[sel[k] as int],
                    start,
                    end,
                )
            &&& forall|k1: int, k2: int|
                #![trigger sel[k1], sel[k2]]
                0 <= k1 < k2 < sel.len() ==> sel[k1] < sel[k2]
            &&& forall|j: int|
                0 <= j < n && #[trigger] check_intersects(s[j], start, end) ==> sel.contains(
                    j as usize,
                )
        }),
    decreases n,
{
    if n > 0 {
        lemma_selected_indices(s, start, end, n - 1);
        let prefix = selected_indices(s, start, end, n - 1);
        let sel = selected_indices(s, start, end, n);
        if check_intersects(s[n - 1], start, end) {
            assert(sel == prefix.push((n - 1) as usize));
            assert forall|k: int|
                0 <= k < sel.len() implies (sel[k] < n && check_intersects(
                s[sel[k] as int],
                start,
                end,
            )) by {
                if k < sel.len() - 1 {
                    assert(sel[k] == prefix[k]);
                } else {
                    assert(sel[k] == n - 1);
                }
            }
            assert forall|k1: int, k2: int|
                0 <= k1 < k2 < sel.len() implies sel[k1] < sel[k2] by {
                assert(sel[k1] == prefix[k1]);
                if k2 < sel.len() - 1 {
                    assert(sel[k2] == prefix[k2]);
                } else {
                    assert(sel[k2] == n - 1);
                    assert(prefix[k1] < n - 1);
                }
            }
            assert forall|j: int|
                0 <= j < n && #[trigger] check_intersects(s[j], start, end) implies sel.contains(
                j as usize,
            ) by {
                if j < n - 1 {
                    let k = choose|k: int| 0 <= k < prefix.len() && prefix[k] == j as usize;
                    assert(sel[k] == j as usize);
                } else {
                    assert(sel[sel.len() - 1] == j as usize);
                }
            }
        } else {
            assert forall|j: int|
                0 <= j < n && #[trigger] check_intersects(s[j], start, end) implies sel.contains(
                j as usize,
            ) by {
                assert(j < n - 1);
            }
        }
    }
}

/// The latest lint findings for one document, in the order the
/// engine reported them, answering range queries for action lookup.
pub struct CheckRegistry {
    checks: Vec<Check>,
}

impl View for CheckRegistry {
    type V = Seq<Check>;

    closed spec fn view(&self) -> Seq<Check> {
        self.checks@
    }
}

impl CheckRegistry {
    /// Wraps one lint run's findings as a registry.
    pub fn from_vec(checks: Vec<Check>) -> (r: CheckRegistry)
        ensures
            r@ == checks@,
    {
        CheckRegistry { checks }
    }

    pub fn len(&self) -> (n: usize)
        ensures
            n == self@.len(),
    {
        self.checks.len()
    }

    /// The check at position `idx`.
    pub fn get(&self, idx: usize) -> (c: &Check)
        requires
            idx < self@.len(),
        ensures
            *c == self@[idx as int],
    {
        &self.checks[idx]
    }

    /// The positions of all checks whose range intersects
    /// `[start, end)`, in report order.
    pub fn iter_range(&self, start: SourceLocation, end: SourceLocation) -> (r: Vec<usize>)
        ensures
            r@ == selected_indices(self@, start, end, self@.len() as int),
    {
        let n = self.checks.len();
        let mut r: Vec<usize> = Vec::new();
        let mut i: usize = 0;
        while i < n
            invariant
                i <= n,
                n == self@.len(),
                r@ == selected_indices(self@, start, end, i as int),
            decreases n - i,
        {
            let c = &self.checks[i];
            if loc_lt_exec(c.location, end) && loc_lt_exec(start, c.end_location) {
                r.push(i);
            }
            i = i + 1;
        }
        r
    }
}

} // verus!
