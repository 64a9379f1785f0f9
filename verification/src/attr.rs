use vstd::prelude::*;

use crate::diag::DiagKind;
use crate::diag::DiagS;
use crate::diag::Diagnostic;
use crate::shape::Expr;
use crate::span::Span;
use crate::text::colon_from;
use crate::text::lemma_colon_from_range;
use crate::text::copy_bytes;
use crate::text::find_colon;
use crate::text::tail_bytes;
use crate::text::DOT;
use crate::text::LOW_A;
use crate::text::LOW_C;
use crate::text::LOW_E;
use crate::text::LOW_L;
use crate::text::LOW_N;
use crate::text::LOW_O;
use crate::text::LOW_P;
use crate::text::LOW_R;
use crate::text::LOW_S;
use crate::text::LOW_T;
use crate::text::LOW_U;
use crate::text::LOW_Y;
use crate::tree::RawAttr;
use crate::tree::RawAttrS;

verus! {

/// A classified attribute. Exactly one category per raw attribute; the
/// category decides which setter the lowering emits and which checks the
/// binder applies.
#[allow(inconsistent_fields)]
pub enum AttrKind {
    PropAttr { name: Vec<u8>, value: Expr },
    EventAttr { name: Vec<u8>, value: Expr },
    DomPropAttr { name: Vec<u8>, value: Expr },
    ClassAttr { name: Vec<u8>, value: Expr },
    StyleAttr { name: Vec<u8>, value: Expr },
    SpreadAttr { value: Expr },
    DirectiveAttr { name: Vec<u8>, value: Option<Expr> },
    SlotMarkerAttr { target: Option<Vec<u8>> },
    ChildrenLetAttr { bindings: Vec<Vec<u8>> },
    CloneCaptureAttr { idents: Vec<Vec<u8>> },
}

#[allow(inconsistent_fields)]
pub ghost enum AttrKindS {
    PropA { name: Seq<u8>, value: Expr },
    EventA { name: Seq<u8>, value: Expr },
    DomPropA { name: Seq<u8>, value: Expr },
    ClassA { name: Seq<u8>, value: Expr },
    StyleA { name: Seq<u8>, value: Expr },
    SpreadA { value: Expr },
    DirectiveA { name: Seq<u8>, value: Option<Expr> },
    SlotMarkerA { target: Option<Seq<u8>> },
    ChildrenLetA { bindings: Seq<Seq<u8>> },
    CloneCaptureA { idents: Seq<Seq<u8>> },
}

impl View for AttrKind {
    type V = AttrKindS;

    open spec fn view(&self) -> AttrKindS {
        match self {
            AttrKind::PropAttr { name, value } => AttrKindS::PropA { name: name@, value: *value },
            AttrKind::EventAttr { name, value } => AttrKindS::EventA {
                name: name@,
                value: *value,
            },
            AttrKind::DomPropAttr { name, value } => AttrKindS::DomPropA {
                name: name@,
                value: *value,
            },
            AttrKind::ClassAttr { name, value } => AttrKindS::ClassA {
                name: name@,
                value: *value,
            },
            AttrKind::StyleAttr { name, value } => AttrKindS::StyleA {
                name: name@,
                value: *value,
            },
            AttrKind::SpreadAttr { value } => AttrKindS::SpreadA { value: *value },
            AttrKind::DirectiveAttr { name, value } => AttrKindS::DirectiveA {
                name: name@,
                value: *value,
            },
            AttrKind::SlotMarkerAttr { target } => AttrKindS::SlotMarkerA {
                target: match target {
                    Option::Some(t) => Option::Some(t@),
                    Option::None => Option::None,
                },
            },
            AttrKind::ChildrenLetAttr { bindings } => AttrKindS::ChildrenLetA {
                bindings: bindings@.map_values(|b: Vec<u8>| b@),
            },
            AttrKind::CloneCaptureAttr { idents } => AttrKindS::CloneCaptureA {
                idents: idents@.map_values(|b: Vec<u8>| b@),
            },
        }
    }
}

pub struct Attribute {
    pub kind: AttrKind,
    pub span: Span,
}

pub ghost struct AttrS {
    pub kind: AttrKindS,
    pub span: Span,
}

impl View for Attribute {
    type V = AttrS;

    open spec fn view(&self) -> AttrS {
        AttrS { kind: self.kind@, span: self.span }
    }
}

// Keyword tests on the bytes before the first colon (`c` is the colon
// position), or on the whole name where no colon occurs.
pub open spec fn kw_on(n: Seq<u8>, c: int) -> bool {
    c == 2 && n[0] == LOW_O && n[1] == LOW_N
}

pub open spec fn kw_prop(n: Seq<u8>, c: int) -> bool {
    c == 4 && n[0] == LOW_P && n[1] == LOW_R && n[2] == LOW_O && n[3] == LOW_P
}

pub open spec fn kw_class(n: Seq<u8>, c: int) -> bool {
    c == 5 && n[0] == LOW_C && n[1] == LOW_L && n[2] == LOW_A && n[3] == LOW_S && n[4] == LOW_S
}

pub open spec fn kw_style(n: Seq<u8>, c: int) -> bool {
    c == 5 && n[0] == LOW_S && n[1] == LOW_T && n[2] == LOW_Y && n[3] == LOW_L && n[4] == LOW_E
}

pub open spec fn kw_use(n: Seq<u8>, c: int) -> bool {
    c == 3 && n[0] == LOW_U && n[1] == LOW_S && n[2] == LOW_E
}

pub open spec fn kw_clone(n: Seq<u8>, c: int) -> bool {
    c == 5 && n[0] == LOW_C && n[1] == LOW_L && n[2] == LOW_O && n[3] == LOW_N && n[4] == LOW_E
}

pub open spec fn kw_let(n: Seq<u8>, c: int) -> bool {
    c == 3 && n[0] == LOW_L && n[1] == LOW_E && n[2] == LOW_T
}

pub open spec fn kw_slot(n: Seq<u8>, c: int) -> bool {
    c == 4 && n[0] == LOW_S && n[1] == LOW_L && n[2] == LOW_O && n[3] == LOW_T
}

/// The bare word `slot`, with no colon.
pub open spec fn word_slot(n: Seq<u8>) -> bool {
    n.len() == 4 && n[0] == LOW_S && n[1] == LOW_L && n[2] == LOW_O && n[3] == LOW_T
}

/// The spread shorthand `{..expr}` arrives as an attribute named `..`.
pub open spec fn word_spread(n: Seq<u8>) -> bool {
    n.len() == 2 && n[0] == DOT && n[1] == DOT
}

pub open spec fn suffix_of(n: Seq<u8>, c: int) -> Seq<u8> {
    n.subrange(c + 1, n.len() as int)
}

pub open spec fn shape_err(a: RawAttrS) -> DiagS {
    DiagS {
        kind: DiagKind::AttributeShapeError,
        span: a.span,
        secondary: Option::None,
        detail: a.name,
    }
}

/// Classification of one raw attribute by its name prefix, with each
/// category's arity rule: value-carrying categories demand exactly one value
/// and no trailing identifiers; marker categories refuse a value; a directive
/// takes an optional value. Any violation is an `AttributeShapeError` scoped
/// to the attribute's own range.
pub open spec fn classify_spec(a: RawAttrS) -> Result<AttrS, DiagS> {
    let n = a.name;
    match colon_from(n, 0) {
        Option::None => {
            if word_slot(n) {
                if a.value is Some {
                    Result::Err(shape_err(a))
                } else {
                    Result::Ok(
                        AttrS { kind: AttrKindS::SlotMarkerA { target: Option::None }, span: a.span },
                    )
                }
            } else if word_spread(n) {
                match a.value {
                    Option::Some(v) => {
                        if a.idents.len() == 0 {
                            Result::Ok(
                                AttrS { kind: AttrKindS::SpreadA { value: v }, span: a.span },
                            )
                        } else {
                            Result::Err(shape_err(a))
                        }
                    },
                    Option::None => Result::Err(shape_err(a)),
                }
            } else {
                match a.value {
                    Option::Some(v) => {
                        if a.idents.len() == 0 {
                            Result::Ok(
                                AttrS {
                                    kind: AttrKindS::PropA { name: n, value: v },
                                    span: a.span,
                                },
                            )
                        } else {
                            Result::Err(shape_err(a))
                        }
                    },
                    Option::None => Result::Err(shape_err(a)),
                }
            }
        },
        Option::Some(c) => {
            let suffix = suffix_of(n, c);
            if kw_on(n, c) || kw_prop(n, c) || kw_class(n, c) || kw_style(n, c) {
                if suffix.len() == 0 {
                    Result::Err(shape_err(a))
                } else {
                    match a.value {
                        Option::Some(v) => {
                            if a.idents.len() == 0 {
                                Result::Ok(
                                    AttrS {
                                        kind: if kw_on(n, c) {
                                            AttrKindS::EventA { name: suffix, value: v }
                                        } else if kw_prop(n, c) {
                                            AttrKindS::DomPropA { name: suffix, value: v }
                                        } else if kw_class(n, c) {
                                            AttrKindS::ClassA { name: suffix, value: v }
                                        } else {
                                            AttrKindS::StyleA { name: suffix, value: v }
                                        },
                                        span: a.span,
                                    },
                                )
                            } else {
                                Result::Err(shape_err(a))
                            }
                        },
                        Option::None => Result::Err(shape_err(a)),
                    }
                }
            } else if kw_use(n, c) {
                if suffix.len() == 0 || a.idents.len() != 0 {
                    Result::Err(shape_err(a))
                } else {
                    Result::Ok(
                        AttrS {
                            kind: AttrKindS::DirectiveA { name: suffix, value: a.value },
                            span: a.span,
                        },
                    )
                }
            } else if kw_clone(n, c) {
                if suffix.len() == 0 || a.value is Some {
                    Result::Err(shape_err(a))
                } else {
                    Result::Ok(
                        AttrS {
                            kind: AttrKindS::CloneCaptureA { idents: seq![suffix] + a.idents },
                            span: a.span,
                        },
                    )
                }
            } else if kw_let(n, c) {
                if suffix.len() == 0 || a.value is Some {
                    Result::Err(shape_err(a))
                } else {
                    Result::Ok(
                        AttrS {
                            kind: AttrKindS::ChildrenLetA { bindings: seq![suffix] + a.idents },
                            span: a.span,
                        },
                    )
                }
            } else if kw_slot(n, c) {
                if suffix.len() == 0 || a.value is Some {
                    Result::Err(shape_err(a))
                } else {
                    Result::Ok(
                        AttrS {
                            kind: AttrKindS::SlotMarkerA { target: Option::Some(suffix) },
                            span: a.span,
                        },
                    )
                }
            } else {
                match a.value {
                    Option::Some(v) => {
                        if a.idents.len() == 0 {
                            Result::Ok(
                                AttrS {
                                    kind: AttrKindS::PropA { name: n, value: v },
                                    span: a.span,
                                },
                            )
                        } else {
                            Result::Err(shape_err(a))
                        }
                    },
                    Option::None => Result::Err(shape_err(a)),
                }
            }
        },
    }
}

/// Copy the trailing identifiers and prepend the prefix suffix as the first
/// entry, as `let:` and `clone:` lists require.
fn suffix_and_idents(suffix: Vec<u8>, idents: &Vec<Vec<u8>>) -> (r: Vec<Vec<u8>>)
    ensures
        r@.map_values(|b: Vec<u8>| b@) == seq![suffix@] + idents@.map_values(|b: Vec<u8>| b@),
{
    let ghost sfx = suffix@;
    let mut out: Vec<Vec<u8>> = Vec::new();
    out.push(suffix);
    let mut i: usize = 0;
    while i < idents.len()
        invariant
            i <= idents@.len(),
            out@.len() == i + 1,
            out@[0]@ == sfx,
            forall|j: int| 1 <= j < i + 1 ==> (#[trigger] out@[j])@ == idents@[j - 1]@,
        decreases idents@.len() - i,
    {
        out.push(copy_bytes(&idents[i]));
        i = i + 1;
    }
    proof {
        let f = |b: Vec<u8>| b@;
        let lhs = out@.map_values(f);
        let rhs = seq![sfx] + idents@.map_values(f);
        assert(lhs.len() == rhs.len());
        assert forall|j: int| 0 <= j < lhs.len() implies lhs[j] == rhs[j] by {
            assert(lhs[j] == out@[j]@);
            if j > 0 {
                assert(out@[j]@ == idents@[j - 1]@);
                assert(rhs[j] == idents@.map_values(f)[j - 1]);
                assert(idents@.map_values(f)[j - 1] == idents@[j - 1]@);
            }
        }
        assert(lhs =~= rhs);
    }
    out
}

/// Classify one raw attribute.
pub fn classify_attr(a: &RawAttr) -> (r: Result<Attribute, Diagnostic>)
    ensures
        match r {
            Result::Ok(at) => classify_spec(a@) == Result::<AttrS, DiagS>::Ok(at@),
            Result::Err(d) => classify_spec(a@) == Result::<AttrS, DiagS>::Err(d@),
        },
{
    let n = &a.name;
    match find_colon(n) {
        Option::None => {
            let is_slot = n.len() == 4 && n[0] == LOW_S && n[1] == LOW_L && n[2] == LOW_O && n[3]
                == LOW_T;
            let is_spread = n.len() == 2 && n[0] == DOT && n[1] == DOT;
            if is_slot {
                if a.value.is_some() {
                    Result::Err(shape_err_exec(a))
                } else {
                    Result::Ok(
                        Attribute {
                            kind: AttrKind::SlotMarkerAttr { target: Option::None },
                            span: a.span,
                        },
                    )
                }
            } else if is_spread {
                match &a.value {
                    Option::Some(v) => {
                        if a.idents.len() == 0 {
                            Result::Ok(
                                Attribute {
                                    kind: AttrKind::SpreadAttr { value: v.clone() },
                                    span: a.span,
                                },
                            )
                        } else {
                            Result::Err(shape_err_exec(a))
                        }
                    },
                    Option::None => Result::Err(shape_err_exec(a)),
                }
            } else {
                match &a.value {
                    Option::Some(v) => {
                        if a.idents.len() == 0 {
                            Result::Ok(
                                Attribute {
                                    kind: AttrKind::PropAttr {
                                        name: copy_bytes(n),
                                        value: v.clone(),
                                    },
                                    span: a.span,
                                },
                            )
                        } else {
                            Result::Err(shape_err_exec(a))
                        }
                    },
                    Option::None => Result::Err(shape_err_exec(a)),
                }
            }
        },
        Option::Some(c) => {
            proof {
                assert(colon_from(n@, 0) == Option::Some(c as int));
                lemma_colon_from_range(n@, 0);
            }
            let is_on = c == 2 && n[0] == LOW_O && n[1] == LOW_N;
            let is_prop = c == 4 && n[0] == LOW_P && n[1] == LOW_R && n[2] == LOW_O && n[3]
                == LOW_P;
            let is_class = c == 5 && n[0] == LOW_C && n[1] == LOW_L && n[2] == LOW_A && n[3]
                == LOW_S && n[4] == LOW_S;
            let is_style = c == 5 && n[0] == LOW_S && n[1] == LOW_T && n[2] == LOW_Y && n[3]
                == LOW_L && n[4] == LOW_E;
            let is_use = c == 3 && n[0] == LOW_U && n[1] == LOW_S && n[2] == LOW_E;
            let is_clone = c == 5 && n[0] == LOW_C && n[1] == LOW_L && n[2] == LOW_O && n[3]
                == LOW_N && n[4] == LOW_E;
            let is_let = c == 3 && n[0] == LOW_L && n[1] == LOW_E && n[2] == LOW_T;
            let is_slot = c == 4 && n[0] == LOW_S && n[1] == LOW_L && n[2] == LOW_O && n[3]
                == LOW_T;
            let suffix_len = n.len() - (c + 1);
            if is_on || is_prop || is_class || is_style {
                if suffix_len == 0 {
                    Result::Err(shape_err_exec(a))
                } else {
                    match &a.value {
                        Option::Some(v) => {
                            if a.idents.len() == 0 {
                                let suffix = tail_bytes(n, c + 1);
                                let kind = if is_on {
                                    AttrKind::EventAttr { name: suffix, value: v.clone() }
                                } else if is_prop {
                                    AttrKind::DomPropAttr { name: suffix, value: v.clone() }
                                } else if is_class {
                                    AttrKind::ClassAttr { name: suffix, value: v.clone() }
                                } else {
                                    AttrKind::StyleAttr { name: suffix, value: v.clone() }
                                };
                                Result::Ok(Attribute { kind, span: a.span })
                            } else {
                                Result::Err(shape_err_exec(a))
                            }
                        },
                        Option::None => Result::Err(shape_err_exec(a)),
                    }
                }
            } else if is_use {
                if suffix_len == 0 || a.idents.len() != 0 {
                    Result::Err(shape_err_exec(a))
                } else {
                    let suffix = tail_bytes(n, c + 1);
                    let value = match &a.value {
                        Option::Some(v) => Option::Some(v.clone()),
                        Option::None => Option::None,
                    };
                    Result::Ok(
                        Attribute {
                            kind: AttrKind::DirectiveAttr { name: suffix, value },
                            span: a.span,
                        },
                    )
                }
            } else if is_clone {
                if suffix_len == 0 || a.value.is_some() {
                    Result::Err(shape_err_exec(a))
                } else {
                    let suffix = tail_bytes(n, c + 1);
                    Result::Ok(
                        Attribute {
                            kind: AttrKind::CloneCaptureAttr {
                                idents: suffix_and_idents(suffix, &a.idents),
                            },
                            span: a.span,
                        },
                    )
                }
            } else if is_let {
                if suffix_len == 0 || a.value.is_some() {
                    Result::Err(shape_err_exec(a))
                } else {
                    let suffix = tail_bytes(n, c + 1);
                    Result::Ok(
                        Attribute {
                            kind: AttrKind::ChildrenLetAttr {
                                bindings: suffix_and_idents(suffix, &a.idents),
                            },
                            span: a.span,
                        },
                    )
                }
            } else if is_slot {
                if suffix_len == 0 || a.value.is_some() {
                    Result::Err(shape_err_exec(a))
                } else {
                    let suffix = tail_bytes(n, c + 1);
                    Result::Ok(
                        Attribute {
                            kind: AttrKind::SlotMarkerAttr { target: Option::Some(suffix) },
                            span: a.span,
                        },
                    )
                }
            } else {
                match &a.value {
                    Option::Some(v) => {
                        if a.idents.len() == 0 {
                            Result::Ok(
                                Attribute {
                                    kind: AttrKind::PropAttr {
                                        name: copy_bytes(n),
                                        value: v.clone(),
                                    },
                                    span: a.span,
                                },
                            )
                        } else {
                            Result::Err(shape_err_exec(a))
                        }
                    },
                    Option::None => Result::Err(shape_err_exec(a)),
                }
            }
        },
    }
}

fn shape_err_exec(a: &RawAttr) -> (r: Diagnostic)
    ensures
        r@ == shape_err(a@),
{
    Diagnostic {
        kind: DiagKind::AttributeShapeError,
        span: a.span,
        secondary: Option::None,
        detail: copy_bytes(&a.name),
    }
}

} // verus!
