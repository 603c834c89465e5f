//! Handler cores: what each registered method decides and computes,
//! as pure functions over the shared state. The event loop decodes
//! payloads, takes the leases each handler's plan declares, calls
//! these cores, and performs the produced follow-up work (today:
//! running the linter and publishing its diagnostics).

use crate::checks::check_range;
use crate::checks::check_rows_valid;
use crate::checks::diagnostic_from_check;
use crate::checks::action_from_check;
use crate::checks::selected_indices;
use crate::checks::lemma_selected_indices;
use crate::checks::Check;
use crate::checks::CheckRegistry;
use crate::checks::CodeAction;
use crate::checks::Diagnostic;
use crate::checks::Range;
use crate::checks::SourceLocation;
use crate::document::abs_index;
use crate::document::chars_to_vec;
use crate::document::get_line_lengths;
use crate::document::line_lengths;
use crate::document::merge_rows;
use crate::document::split_rows;
use crate::document::DocumentBuffer;
use crate::error::DocumentError;
use crate::error::RuntimeError;
use crate::rope::remove_range;
use crate::state::UriMap;
use vstd::prelude::*;

verus! {

/// The `initialized` notification: acknowledged and otherwise a
/// no-op.
pub fn initialized_notif() -> (r: Result<(), RuntimeError>)
    ensures
        r is Ok,
{
    Ok(())
}

/// `textDocument/didOpen`: builds a buffer from the full text and
/// stores it under the document's URI, replacing any previous
/// buffer. The caller must then schedule a diagnostic run for the
/// same URI.
pub fn document_did_open(
    open_buffers: &mut UriMap<DocumentBuffer>,
    uri: String,
    text: String,
)
    requires
        old(open_buffers).wf(),
        old(open_buffers).spec_len() < usize::MAX,
    ensures
        final(open_buffers).wf(),
        final(open_buffers)@.contains_key(uri@),
        final(open_buffers)@[uri@]@ == text@,
        final(open_buffers)@[uri@].rows() == line_lengths(text@),
        final(open_buffers)@[uri@].wf(),
        final(open_buffers)@ == old(open_buffers)@.insert(uri@, final(open_buffers)@[uri@]),
{
    let val = DocumentBuffer::from_string(text);
    let ghost v = val;
    open_buffers.insert(uri, val);
    proof {
        assert(open_buffers@[uri@] == v);
    }
}

/// One incremental content change: the range it replaces and the
/// replacement text. A change without a range (a full-document
/// change) is refused.
pub struct ContentChange {
    pub range: Option<Range>,
    pub text: String,
}

/// The outcome of one content change on a buffer state `(chars,
/// rows)`: first the range is deleted, then the text is inserted at
/// the range's start, under exactly the checks the buffer performs.
/// A buffer that would outgrow the machine's address range is
/// refused as an internal error.
pub open spec fn apply_change(chars: Seq<char>, rows: Seq<usize>, c: ContentChange) -> Result<
    (Seq<char>, Seq<usize>),
    RuntimeError,
> {
    match c.range {
        None => Err(RuntimeError::UnexpectedNone),
        Some(rg) => {
            let sr = rg.start.line as int;
            let sc = rg.start.character as int;
            let er = rg.end.line as int;
            let ec = rg.end.character as int;
            if !(sr < er || (sr == er && sc <= ec)) {
                Err(RuntimeError::DocumentError(DocumentError::IndexOutOfBounds))
            } else {
                let deleted = spec_delete(chars, rows, sr, sc, er, ec);
                match deleted {
                    Err(e) => Err(RuntimeError::DocumentError(e)),
                    Ok(st) => spec_insert(st.0, st.1, c.text@, sr, sc),
                }
            }
        },
    }
}

/// The deletion half, mirroring the buffer's own rules.
pub open spec fn spec_delete(
    chars: Seq<char>,
    rows: Seq<usize>,
    sr: int,
    sc: int,
    er: int,
    ec: int,
) -> Result<(Seq<char>, Seq<usize>), DocumentError> {
    if rows.len() == 0 {
        if sr == 0 && sc == 0 && er == 0 && ec == 0 {
            Ok((chars, rows))
        } else {
            Err(DocumentError::IndexOutOfBounds)
        }
    } else if sr >= rows.len() {
        Err(DocumentError::RowOutOfBounds)
    } else if sc >= rows[sr] {
        Err(DocumentError::ColOutOfBounds)
    } else if er >= rows.len() {
        Err(DocumentError::RowOutOfBounds)
    } else if ec > rows[er] {
        Err(DocumentError::ColOutOfBounds)
    } else {
        Ok(
            (
                remove_range(chars, abs_index(rows, sr, sc), abs_index(rows, er, ec)),
                merge_rows(rows, sr, sc, er, ec),
            ),
        )
    }
}

/// The insertion half, mirroring the buffer's own rules, with the
/// machine bounds surfacing as internal errors.
pub open spec fn spec_insert(
    chars: Seq<char>,
    rows: Seq<usize>,
    text: Seq<char>,
    r: int,
    c: int,
) -> Result<(Seq<char>, Seq<usize>), RuntimeError> {
    if chars.len() + text.len() > usize::MAX || rows.len() + line_lengths(text).len()
        > usize::MAX {
        Err(RuntimeError::InternalError)
    } else if rows.len() == 0 {
        if r == 0 && c == 0 {
            Ok((text, line_lengths(text)))
        } else {
            Err(RuntimeError::DocumentError(DocumentError::IndexOutOfBounds))
        }
    } else if r >= rows.len() {
        Err(RuntimeError::DocumentError(DocumentError::RowOutOfBounds))
    } else if c > rows[r] {
        Err(RuntimeError::DocumentError(DocumentError::ColOutOfBounds))
    } else {
        Ok(
            (
                chars.take(abs_index(rows, r, c)) + text + chars.skip(abs_index(rows, r, c)),
                split_rows(rows, r, c, line_lengths(text)),
            ),
        )
    }
}

/// The outcome of a whole change list, applied in order; the first
/// failure wins.
pub open spec fn apply_changes(
    chars: Seq<char>,
    rows: Seq<usize>,
    cs: Seq<ContentChange>,
) -> Result<(Seq<char>, Seq<usize>), RuntimeError>
    decreases cs.len(),
{
    if cs.len() == 0 {
        Ok((chars, rows))
    } else {
        match apply_changes(chars, rows, cs.drop_last()) {
            Err(e) => Err(e),
            Ok(st) => apply_change(st.0, st.1, cs.last()),
        }
    }
}

/// An erring prefix decides the whole list.
proof fn lemma_apply_changes_err(
    chars: Seq<char>,
    rows: Seq<usize>,
    cs: Seq<ContentChange>,
    i: int,
    j: int,
)
    requires
        0 <= i <= j <= cs.len(),
        apply_changes(chars, rows, cs.take(i)) is Err,
    ensures
        apply_changes(chars, rows, cs.take(j)) == apply_changes(chars, rows, cs.take(i)),
    decreases j - i,
{
    if j > i {
        lemma_apply_changes_err(chars, rows, cs, i, j - 1);
        assert(cs.take(j).drop_last() =~= cs.take(j - 1));
    }
}

/// `textDocument/didChange`: applies each incremental change, a
/// deletion then an insertion at the change's start, to the buffer
/// of an open document. Changes before a failure stay applied, as
/// they already reached the buffer.
pub fn document_did_change(
    open_buffers: &mut UriMap<DocumentBuffer>,
    uri: &String,
    changes: &Vec<ContentChange>,
) -> (res: Result<(), RuntimeError>)
    requires
        old(open_buffers).wf(),
        old(open_buffers).spec_len() < usize::MAX,
        old(open_buffers)@.contains_key(uri@) ==> old(open_buffers)@[uri@].wf(),
    ensures
        final(open_buffers).wf(),
        !old(open_buffers)@.contains_key(uri@) ==> (*final(open_buffers) == *old(open_buffers)
            && (res matches Err(RuntimeError::EditUnopenedDocument(u)) && u@ == uri@)),
        old(open_buffers)@.contains_key(uri@) ==> ({
            let outcome = apply_changes(
                old(open_buffers)@[uri@]@,
                old(open_buffers)@[uri@].rows(),
                changes@,
            );
            &&& final(open_buffers)@.contains_key(uri@)
            &&& final(open_buffers)@[uri@].wf()
            &&& final(open_buffers)@ == old(open_buffers)@.insert(
                uri@,
                final(open_buffers)@[uri@],
            )
            &&& (outcome matches Ok(st) ==> (res is Ok && final(open_buffers)@[uri@]@ == st.0
                && final(open_buffers)@[uri@].rows() == st.1))
            &&& (outcome matches Err(e) ==> res == Err::<(), RuntimeError>(e))
        }),
{
    let mut buffer = match open_buffers.take(uri) {
        Some(b) => b,
        None => {
            return Err(RuntimeError::EditUnopenedDocument(uri.clone()));
        },
    };
    let ghost c0 = buffer@;
    let ghost r0 = buffer.rows();
    let n = changes.len();
    let mut i: usize = 0;
    let mut failure: Option<RuntimeError> = None;
    while i < n && failure.is_none()
        invariant
            i <= n,
            n == changes@.len(),
            buffer.wf(),
            failure is None ==> apply_changes(c0, r0, changes@.take(i as int)) == Ok::<
                _,
                RuntimeError,
            >((buffer@, buffer.rows())),
            failure matches Some(e) ==> apply_changes(c0, r0, changes@.take(i as int)) == Err::<
                (Seq<char>, Seq<usize>),
                _,
            >(e),
        decreases n - i,
    {
        let change = &changes[i];
        proof {
            assert(changes@.take(i + 1).drop_last() =~= changes@.take(i as int));
            assert(changes@.take(i + 1).last() == changes@[i as int]);
        }
        match &change.range {
            None => {
                failure = Some(RuntimeError::UnexpectedNone);
            },
            Some(rg) => {
                let sr = rg.start.line as usize;
                let sc = rg.start.character as usize;
                let er = rg.end.line as usize;
                let ec = rg.end.character as usize;
                if !(sr < er || (sr == er && sc <= ec)) {
                    failure = Some(RuntimeError::DocumentError(DocumentError::IndexOutOfBounds));
                } else {
                    match buffer.delete_range((sr, sc), (er, ec)) {
                        Err(e) => {
                            failure = Some(RuntimeError::DocumentError(e));
                        },
                        Ok(_) => {
                            let text_chars = chars_to_vec(change.text.as_str());
                            let tlen = text_chars.len();
                            let lines = get_line_lengths(&text_chars);
                            let nlines = lines.len();
                            let blen = buffer.len();
                            let brows = buffer.row_count();
                            if tlen > usize::MAX - blen || brows > usize::MAX - nlines {
                                failure = Some(RuntimeError::InternalError);
                            } else {
                                match buffer.insert_text(change.text.as_str(), (sr, sc)) {
                                    Err(e) => {
                                        failure = Some(
                                            RuntimeError::DocumentError(e),
                                        );
                                    },
                                    Ok(_) => {},
                                }
                            }
                        },
                    }
                }
            },
        }
        i = i + 1;
    }
    proof {
        if failure is Some {
            lemma_apply_changes_err(c0, r0, changes@, i as int, changes@.len() as int);
        }
        assert(changes@.take(changes@.len() as int) =~= changes@);
    }
    open_buffers.insert(uri.clone(), buffer);
    match failure {
        None => Ok(()),
        Some(e) => Err(e),
    }
}

/// Every check of a registry carries one-indexed rows.
pub open spec fn registry_rows_valid(reg: Seq<Check>) -> bool {
    forall|i: int| 0 <= i < reg.len() ==> check_rows_valid(#[trigger] reg[i])
}

/// Among the selected positions, those whose check carries a fix, in
/// order.
pub open spec fn fix_indices(reg: Seq<Check>, sel: Seq<usize>) -> Seq<usize>
    decreases sel.len(),
{
    if sel.len() == 0 {
        Seq::empty()
    } else {
        let prefix = fix_indices(reg, sel.drop_last());
        if sel.last() < reg.len() && reg[sel.last() as int].fix is Some {
            prefix.push(sel.last())
        } else {
            prefix
        }
    }
}

/// What a returned quick-fix offer must hold for the check it came
/// from.
pub open spec fn action_matches(a: CodeAction, c: Check, uri: Seq<char>) -> bool {
    c.fix matches Some(f) && ({
        &&& a.title@ == "fix "@ + c.code@
        &&& a.kind == crate::checks::ActionKind::QuickFix
        &&& a.document_uri@ == uri
        &&& a.diagnostics@.len() == 1
        &&& crate::checks::diagnostic_matches_check(a.diagnostics@[0], c)
        &&& a.edits@.len() == 1
        &&& a.edits@[0].range == check_range(f.location, f.end_location)
        &&& a.edits@[0].new_text@ == f.content@
    })
}

/// `textDocument/codeAction`: for a known document, one quick-fix
/// offer per fix-carrying check whose range intersects the request's
/// range; for an unknown document, nothing at all (distinct from an
/// empty list). The request's zero-indexed lines are raised to the
/// one-indexed rows the checks use.
pub fn doc_code_action(
    checks_map: &UriMap<CheckRegistry>,
    uri: &String,
    range: Range,
) -> (r: Option<Vec<CodeAction>>)
    requires
        checks_map.wf(),
        forall|k: Seq<char>|
            checks_map@.contains_key(k) ==> registry_rows_valid((#[trigger] checks_map@[k])@),
        range.start.line < u32::MAX,
        range.end.line < u32::MAX,
    ensures
        (r is Some) == checks_map@.contains_key(uri@),
        r matches Some(v) ==> ({
            let reg = checks_map@[uri@]@;
            let qs = SourceLocation { row: (range.start.line + 1) as u32, column: range.start.character };
            let qe = SourceLocation { row: (range.end.line + 1) as u32, column: range.end.character };
            let fsel = fix_indices(reg, selected_indices(reg, qs, qe, reg.len() as int));
            &&& v@.len() == fsel.len()
            &&& forall|j: int|
                0 <= j < v@.len() ==> action_matches(#[trigger] v@[j], reg[fsel[j] as int], uri@)
        }),
{
    let registry = match checks_map.get(uri) {
        Some(x) => x,
        None => {
            return None;
        },
    };
    let qs = SourceLocation { row: range.start.line + 1, column: range.start.character };
    let qe = SourceLocation { row: range.end.line + 1, column: range.end.character };
    let nreg = registry.len();
    let sel = registry.iter_range(qs, qe);
    proof {
        lemma_selected_indices(registry@, qs, qe, registry@.len() as int);
    }
    let ghost reg = registry@;
    let nsel = sel.len();
    let mut rv: Vec<CodeAction> = Vec::new();
    let mut j: usize = 0;
    while j < nsel
        invariant
            j <= nsel,
            nsel == sel@.len(),
            reg == registry@,
            registry_rows_valid(reg),
            sel@ == selected_indices(reg, qs, qe, reg.len() as int),
            forall|k: int| 0 <= k < sel@.len() ==> (#[trigger] sel@[k]) < reg.len(),
            rv@.len() == fix_indices(reg, sel@.take(j as int)).len(),
            forall|k: int|
                0 <= k < rv@.len() ==> action_matches(
                    #[trigger] rv@[k],
                    reg[fix_indices(reg, sel@.take(j as int))[k] as int],
                    uri@,
                ),
        decreases nsel - j,
    {
        let idx = sel[j];
        let check = registry.get(idx);
        proof {
            assert(sel@.take(j + 1).drop_last() =~= sel@.take(j as int));
            assert(sel@.take(j + 1).last() == sel@[j as int]);
            assert(check_rows_valid(reg[idx as int]));
        }
        let ghost prefix = fix_indices(reg, sel@.take(j as int));
        match action_from_check(check, uri) {
            Some(a) => {
                rv.push(a);
                proof {
                    assert(fix_indices(reg, sel@.take(j + 1)) =~= prefix.push(sel@[j as int]));
                    assert(forall|k: int|
                        0 <= k < prefix.len() ==> #[trigger] prefix.push(sel@[j as int])[k]
                            == prefix[k]);
                }
            },
            None => {},
        }
        j = j + 1;
    }
    proof {
        assert(sel@.take(nsel as int) =~= sel@);
    }
    Some(rv)
}

/// The diagnostic run for one document: maps each of the lint
/// engine's checks to its published diagnostic and replaces the
/// document's check registry with the fresh findings, atomically for
/// that URI.
pub fn run_diagnostic_op(
    checks_map: &mut UriMap<CheckRegistry>,
    uri: &String,
    check_vec: Vec<Check>,
) -> (diagnostics: Vec<Diagnostic>)
    requires
        old(checks_map).wf(),
        old(checks_map).spec_len() < usize::MAX,
        registry_rows_valid(check_vec@),
    ensures
        final(checks_map).wf(),
        final(checks_map)@.contains_key(uri@),
        final(checks_map)@[uri@]@ == check_vec@,
        final(checks_map)@ == old(checks_map)@.insert(uri@, final(checks_map)@[uri@]),
        diagnostics@.len() == check_vec@.len(),
        forall|i: int|
            0 <= i < check_vec@.len() ==> crate::checks::diagnostic_matches_check(
                #[trigger] diagnostics@[i],
                check_vec@[i],
            ),
{
    let n = check_vec.len();
    let mut diagnostics: Vec<Diagnostic> = Vec::new();
    let mut i: usize = 0;
    while i < n
        invariant
            i <= n,
            n == check_vec@.len(),
            registry_rows_valid(check_vec@),
            diagnostics@.len() == i,
            forall|k: int|
                0 <= k < i ==> crate::checks::diagnostic_matches_check(
                    #[trigger] diagnostics@[k],
                    check_vec@[k],
                ),
        decreases n - i,
    {
        proof {
            assert(check_rows_valid(check_vec@[i as int]));
        }
        let d = diagnostic_from_check(&check_vec[i]);
        diagnostics.push(d);
        i = i + 1;
    }
    let registry = CheckRegistry::from_vec(check_vec);
    let ghost r = registry;
    checks_map.insert(uri.clone(), registry);
    proof {
        assert(checks_map@[uri@] == r);
    }
    diagnostics
}

} // verus!
