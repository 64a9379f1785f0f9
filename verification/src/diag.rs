use vstd::prelude::*;

use crate::span::Span;
use crate::text::bytes_eq;
use crate::text::copy_bytes;

verus! {

/// The closed taxonomy of diagnostics the pipeline can raise.
#[derive(Clone, Copy, PartialEq, Eq, Structural, Debug)]
pub enum DiagKind {
    SyntaxError,
    UnknownComponent,
    UnknownSlot,
    UndefinedSlot,
    GenericArityMismatch,
    AttributeShapeError,
    SlotMissing,
    SlotCardinalityExceeded,
    UnexpectedChildren,
    UnexpectedChildrenBinding,
    MissingChildrenBinding,
    ChildrenArityMismatch,
    TypeMismatch,
    CloseTagGenericMismatch,
    MissingField,
}

/// One reported fault: its kind, the narrowest source range responsible, an
/// optional secondary range (such as the opening tag a closing tag fails to
/// match), and, for field-naming kinds, the name of the field concerned.
pub struct Diagnostic {
    pub kind: DiagKind,
    pub span: Span,
    pub secondary: Option<Span>,
    pub detail: Vec<u8>,
}

/// The mathematical value of a [`Diagnostic`].
pub ghost struct DiagS {
    pub kind: DiagKind,
    pub span: Span,
    pub secondary: Option<Span>,
    pub detail: Seq<u8>,
}

impl View for Diagnostic {
    type V = DiagS;

    open spec fn view(&self) -> DiagS {
        DiagS {
            kind: self.kind,
            span: self.span,
            secondary: self.secondary,
            detail: self.detail@,
        }
    }
}

pub open spec fn diags_view(v: Vec<Diagnostic>) -> Seq<DiagS> {
    v@.map_values(|d: Diagnostic| d@)
}

pub open spec fn contains_diag(ds: Seq<DiagS>, d: DiagS) -> bool {
    exists|i: int| 0 <= i < ds.len() && ds[i] == d
}

/// Append `d` unless an identical diagnostic is already present. This is the
/// one suppression rule of the collector: an exact duplicate of an
/// already-reported diagnostic is dropped; diagnostics differing in kind,
/// range or named field are never suppressed by one another.
pub open spec fn push_diag(ds: Seq<DiagS>, d: DiagS) -> Seq<DiagS> {
    if contains_diag(ds, d) {
        ds
    } else {
        ds.push(d)
    }
}

/// `push_diag` always leaves its argument present in the result.
pub proof fn lemma_push_diag_has(ds: Seq<DiagS>, d: DiagS)
    ensures
        contains_diag(push_diag(ds, d), d),
{
    if contains_diag(ds, d) {
    } else {
        assert(push_diag(ds, d)[ds.len() as int] == d);
    }
}

/// `push_diag` never removes an element.
pub proof fn lemma_push_diag_keeps(ds: Seq<DiagS>, d: DiagS, e: DiagS)
    requires
        contains_diag(ds, d),
    ensures
        contains_diag(push_diag(ds, e), d),
{
    let i = choose|i: int| 0 <= i < ds.len() && ds[i] == d;
    assert(push_diag(ds, e)[i] == d);
}

/// Every element of `push_diag(ds, d)` is `d` or an element of `ds`.
pub proof fn lemma_push_diag_from(ds: Seq<DiagS>, d: DiagS, e: DiagS)
    requires
        contains_diag(push_diag(ds, d), e),
    ensures
        e == d || contains_diag(ds, e),
{
    if e != d {
        let i = choose|i: int| 0 <= i < push_diag(ds, d).len() && push_diag(ds, d)[i] == e;
        assert(ds[i] == e);
    }
}

fn diag_eq(a: &Diagnostic, b: &Diagnostic) -> (r: bool)
    ensures
        r == (a@ == b@),
{
    let kinds = a.kind == b.kind;
    let spans = a.span == b.span;
    let secs = match (a.secondary, b.secondary) {
        (Option::Some(x), Option::Some(y)) => x == y,
        (Option::None, Option::None) => true,
        _ => false,
    };
    let details = bytes_eq(&a.detail, &b.detail);
    let r = kinds && spans && secs && details;
    proof {
        if r {
            assert(a@ == b@);
        }
        if a@ == b@ {
            assert(a@.kind == b@.kind);
            assert(a@.span == b@.span);
            assert(a@.secondary == b@.secondary);
            assert(a@.detail == b@.detail);
        }
    }
    r
}

impl Clone for Diagnostic {
    fn clone(&self) -> (r: Self)
        ensures
            r@ == self@,
    {
        Diagnostic {
            kind: self.kind,
            span: self.span,
            secondary: self.secondary,
            detail: copy_bytes(&self.detail),
        }
    }
}

/// Push `d` onto `out` unless an identical diagnostic is already there.
pub fn push_diag_exec(out: &mut Vec<Diagnostic>, d: Diagnostic)
    ensures
        diags_view(*final(out)) == push_diag(diags_view(*old(out)), d@),
{
    let ghost ds = diags_view(*old(out));
    let mut i: usize = 0;
    let mut found: bool = false;
    while i < out.len()
        invariant
            i <= out@.len(),
            *out == *old(out),
            ds == diags_view(*out),
            found == exists|j: int| 0 <= j < i && ds[j] == d@,
        decreases out@.len() - i,
    {
        proof {
            assert(ds[i as int] == out@[i as int]@);
        }
        if diag_eq(&out[i], &d) {
            found = true;
        }
        i = i + 1;
    }
    if !found {
        proof {
            assert(!contains_diag(ds, d@));
        }
        out.push(d);
        proof {
            assert(diags_view(*out) =~= ds.push(d@));
        }
    }
}

} // verus!
