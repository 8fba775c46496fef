//! Findings produced by the checkers.
use vstd::prelude::*;

verus! {

/// One finding: a severity (`error` or `warning`), a stable kind code, a message and a location.
#[derive(Debug)]
pub struct Diagnostic {
    pub severity: String,
    pub kind: String,
    pub message: String,
    pub location: String,
}

/// The mathematical value of a [`Diagnostic`].
pub struct Finding {
    pub severity: Seq<char>,
    pub kind: Seq<char>,
    pub message: Seq<char>,
    pub location: Seq<char>,
}

impl View for Diagnostic {
    type V = Finding;

    open spec fn view(&self) -> Finding {
        Finding {
            severity: self.severity@,
            kind: self.kind@,
            message: self.message@,
            location: self.location@,
        }
    }
}

pub open spec fn finding(
    severity: Seq<char>,
    kind: Seq<char>,
    message: Seq<char>,
    location: Seq<char>,
) -> Finding {
    Finding { severity, kind, message, location }
}

pub open spec fn error_finding(kind: Seq<char>, message: Seq<char>, location: Seq<char>) -> Finding {
    finding("error"@, kind, message, location)
}

pub open spec fn warning_finding(
    kind: Seq<char>,
    message: Seq<char>,
    location: Seq<char>,
) -> Finding {
    finding("warning"@, kind, message, location)
}

/// The values of a list of diagnostics.
pub open spec fn findings(v: Seq<Diagnostic>) -> Seq<Finding> {
    v.map_values(|d: Diagnostic| d@)
}

pub open spec fn is_error(f: Finding) -> bool {
    f.severity == "error"@
}

/// Some finding of the list has severity `error`.
pub open spec fn any_error(fs: Seq<Finding>) -> bool {
    exists|i: int| 0 <= i < fs.len() && is_error(#[trigger] fs[i])
}

/// Some finding of the list has the given kind code.
pub open spec fn has_kind(fs: Seq<Finding>, kind: Seq<char>) -> bool {
    exists|i: int| 0 <= i < fs.len() && #[trigger] fs[i].kind == kind
}

/// Number of findings of the list with the given kind code.
pub open spec fn count_kind(fs: Seq<Finding>, kind: Seq<char>) -> nat
    decreases fs.len(),
{
    if fs.len() == 0 {
        0
    } else {
        count_kind(fs.drop_last(), kind) + if fs.last().kind == kind {
            1nat
        } else {
            0nat
        }
    }
}

pub fn new_error(kind: &str, message: String, location: String) -> (d: Diagnostic)
    ensures
        d@ == error_finding(kind@, message@, location@),
{
    Diagnostic { severity: String::from_str("error"), kind: String::from_str(kind), message, location }
}

pub fn new_warning(kind: &str, message: String, location: String) -> (d: Diagnostic)
    ensures
        d@ == warning_finding(kind@, message@, location@),
{
    Diagnostic {
        severity: String::from_str("warning"),
        kind: String::from_str(kind),
        message,
        location,
    }
}

/// Whether any diagnostic of the list is an error.
pub fn has_errors(diags: &Vec<Diagnostic>) -> (r: bool)
    ensures
        r == any_error(findings(diags@)),
{
    let mut i: usize = 0;
    while i < diags.len()
        invariant
            i <= diags@.len(),
            forall|k: int| 0 <= k < i ==> !is_error(#[trigger] findings(diags@)[k]),
        decreases diags@.len() - i,
    {
        if crate::text::same_text(diags[i].severity.as_str(), "error") {
            assert(is_error(findings(diags@)[i as int]));
            return true;
        }
        i += 1;
    }
    false
}

/// `a + b` as a new string.
pub fn join2(a: &str, b: &str) -> (r: String)
    ensures
        r@ == a@ + b@,
{
    let mut r = String::from_str(a);
    r.append(b);
    r
}

/// `a + b + c` as a new string.
pub fn join3(a: &str, b: &str, c: &str) -> (r: String)
    ensures
        r@ == a@ + b@ + c@,
{
    let mut r = String::from_str(a);
    r.append(b);
    r.append(c);
    r
}

/// `a + b + c + d` as a new string.
pub fn join4(a: &str, b: &str, c: &str, d: &str) -> (r: String)
    ensures
        r@ == a@ + b@ + c@ + d@,
{
    let mut r = String::from_str(a);
    r.append(b);
    r.append(c);
    r.append(d);
    r
}

} // verus!
