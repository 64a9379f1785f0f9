use vstd::prelude::*;

use crate::attr::classify_attr;
use crate::attr::classify_spec;
use crate::attr::AttrKind;
use crate::attr::AttrKindS;
use crate::diag::DiagS;
use crate::diag::Diagnostic;
use crate::registry::Registry;
use crate::resolve::is_routed;
use crate::resolve::own_diags;
use crate::resolve::own_diags_exec;
use crate::resolve::raw_attrs_view;
use crate::span::span_in;
use crate::span::Span;
use crate::tree::children_view;
use crate::tree::lemma_children_view;
use crate::tree::node_view;
use crate::tree::Node;
use crate::tree::NodeKind;
use crate::tree::NodeKindS;
use crate::tree::NodeS;
use crate::tree::RawAttrS;

verus! {

/// The builder call one attribute lowers to. The originating raw attribute
/// name travels alongside, so the emitted call is attributable to its source.
#[derive(Clone, Copy, PartialEq, Eq, Structural, Debug)]
pub enum SetterOp {
    SetProp,
    SetEvent,
    SetDomProp,
    SetClass,
    SetStyle,
    ApplySpread,
    ApplyDirective,
    MarkSlot,
    BindLet,
    CaptureClone,
    SkippedAttr,
}

/// One emitted sub-expression of the builder chain: which call, the source
/// range it inherits (the originating attribute's own range, never the
/// node's), and whether a type-correct placeholder stands in for it because
/// a diagnostic was already reported inside that range.
pub struct Setter {
    pub source: Vec<u8>,
    pub op: SetterOp,
    pub span: Span,
    pub placeholder: bool,
}

pub ghost struct SetterS {
    pub source: Seq<u8>,
    pub op: SetterOp,
    pub span: Span,
    pub placeholder: bool,
}

impl View for Setter {
    type V = SetterS;

    open spec fn view(&self) -> SetterS {
        SetterS {
            source: self.source@,
            op: self.op,
            span: self.span,
            placeholder: self.placeholder,
        }
    }
}

/// What the lowered expression constructs at this position.
pub enum Target {
    ElementTarget { name: Vec<u8> },
    ComponentTarget { name: Vec<u8> },
    SlotTarget { name: Vec<u8> },
    FragmentTarget,
    TextTarget { text: Vec<u8> },
    ExprTarget,
}

pub ghost enum TargetS {
    ElementTargetS { name: Seq<u8> },
    ComponentTargetS { name: Seq<u8> },
    SlotTargetS { name: Seq<u8> },
    FragmentTargetS,
    TextTargetS { text: Seq<u8> },
    ExprTargetS,
}

impl View for Target {
    type V = TargetS;

    open spec fn view(&self) -> TargetS {
        match self {
            Target::ElementTarget { name } => TargetS::ElementTargetS { name: name@ },
            Target::ComponentTarget { name } => TargetS::ComponentTargetS { name: name@ },
            Target::SlotTarget { name } => TargetS::SlotTargetS { name: name@ },
            Target::FragmentTarget => TargetS::FragmentTargetS,
            Target::TextTarget { text } => TargetS::TextTargetS { text: text@ },
            Target::ExprTarget => TargetS::ExprTargetS,
        }
    }
}

/// One node of the lowered expression tree: the constructor, one setter per
/// source attribute in order, the lowered children in order, and the
/// tag-name range at which the final `build()` call is anchored, so that
/// build-time failures point at the name. `placeholder` is set when any
/// diagnostic was reported against the node itself; the structure below it
/// is emitted in full regardless, keeping sibling positions independent.
pub struct Lowered {
    pub target: Target,
    pub span: Span,
    pub build_span: Span,
    pub setters: Vec<Setter>,
    pub children: Vec<Lowered>,
    pub placeholder: bool,
}

pub ghost struct LoweredS {
    pub target: TargetS,
    pub span: Span,
    pub build_span: Span,
    pub setters: Seq<SetterS>,
    pub children: Seq<LoweredS>,
    pub placeholder: bool,
}

pub open spec fn lowered_view(l: Lowered) -> LoweredS
    decreases l,
{
    LoweredS {
        target: l.target@,
        span: l.span,
        build_span: l.build_span,
        setters: l.setters@.map_values(|s: Setter| s@),
        children: lowered_children_view(l.children@, l.children@.len() as int),
        placeholder: l.placeholder,
    }
}

pub open spec fn lowered_children_view(s: Seq<Lowered>, k: int) -> Seq<LoweredS>
    decreases s, k,
{
    if k <= 0 || k > s.len() {
        Seq::empty()
    } else {
        lowered_children_view(s, k - 1).push(lowered_view(s[k - 1]))
    }
}

impl View for Lowered {
    type V = LoweredS;

    open spec fn view(&self) -> LoweredS {
        lowered_view(*self)
    }
}

pub proof fn lemma_lowered_children_view(s: Seq<Lowered>, k: int)
    requires
        0 <= k <= s.len(),
    ensures
        lowered_children_view(s, k).len() == k,
        forall|i: int| 0 <= i < k ==> lowered_children_view(s, k)[i] == lowered_view(s[i]),
    decreases k,
{
    if k > 0 {
        lemma_lowered_children_view(s, k - 1);
    }
}

/// Whether some already-reported diagnostic lies within `sp`: the signal to
/// substitute a placeholder at that position.
pub open spec fn has_diag_within(ds: Seq<DiagS>, sp: Span) -> bool {
    exists|i: int| 0 <= i < ds.len() && span_in(ds[i].span, sp)
}

pub open spec fn op_of(k: AttrKindS) -> SetterOp {
    match k {
        AttrKindS::PropA { .. } => SetterOp::SetProp,
        AttrKindS::EventA { .. } => SetterOp::SetEvent,
        AttrKindS::DomPropA { .. } => SetterOp::SetDomProp,
        AttrKindS::ClassA { .. } => SetterOp::SetClass,
        AttrKindS::StyleA { .. } => SetterOp::SetStyle,
        AttrKindS::SpreadA { .. } => SetterOp::ApplySpread,
        AttrKindS::DirectiveA { .. } => SetterOp::ApplyDirective,
        AttrKindS::SlotMarkerA { .. } => SetterOp::MarkSlot,
        AttrKindS::ChildrenLetA { .. } => SetterOp::BindLet,
        AttrKindS::CloneCaptureA { .. } => SetterOp::CaptureClone,
    }
}

/// The setter one raw attribute lowers to: its own category's call with its
/// own range, or a placeholder slot where classification itself failed.
pub open spec fn setter_of(ds: Seq<DiagS>, a: RawAttrS) -> SetterS {
    match classify_spec(a) {
        Result::Ok(at) => SetterS {
            source: a.name,
            op: op_of(at.kind),
            span: a.span,
            placeholder: has_diag_within(ds, a.span),
        },
        Result::Err(_) => SetterS {
            source: a.name,
            op: SetterOp::SkippedAttr,
            span: a.span,
            placeholder: true,
        },
    }
}

/// One setter per attribute of `attrs[0..k)`, in document order: lowering
/// drops no position and reorders nothing.
pub open spec fn setters_upto(ds: Seq<DiagS>, attrs: Seq<RawAttrS>, k: int) -> Seq<SetterS>
    decreases k,
{
    if k <= 0 || k > attrs.len() {
        Seq::empty()
    } else {
        setters_upto(ds, attrs, k - 1).push(setter_of(ds, attrs[k - 1]))
    }
}

pub open spec fn target_of(n: NodeS) -> TargetS {
    match n.kind {
        NodeKindS::ElementTagS { name } => TargetS::ElementTargetS { name },
        NodeKindS::ComponentTagS { name, .. } => if is_routed(n) {
            TargetS::SlotTargetS { name }
        } else {
            TargetS::ComponentTargetS { name }
        },
        NodeKindS::FragmentTagS => TargetS::FragmentTargetS,
        NodeKindS::TextLeafS { text } => TargetS::TextTargetS { text },
        NodeKindS::ExprLeafS { .. } => TargetS::ExprTargetS,
    }
}

/// Lowering of a resolved subtree. Every span on the output is inherited
/// from the originating syntax; the `build()` anchor is the tag-name range;
/// and a reported fault makes the affected position a placeholder without
/// removing it or its siblings from the emitted structure.
pub open spec fn lower_spec(reg: crate::registry::RegistryS, n: NodeS) -> LoweredS
    decreases n,
{
    LoweredS {
        target: target_of(n),
        span: n.span,
        build_span: n.name_span,
        setters: setters_upto(own_diags(reg, n), n.attrs, n.attrs.len() as int),
        children: lower_children_spec(reg, n.children, n.children.len() as int),
        placeholder: own_diags(reg, n).len() > 0,
    }
}

pub open spec fn lower_children_spec(
    reg: crate::registry::RegistryS,
    s: Seq<NodeS>,
    k: int,
) -> Seq<LoweredS>
    decreases s, k,
{
    if k <= 0 || k > s.len() {
        Seq::empty()
    } else {
        lower_children_spec(reg, s, k - 1).push(lower_spec(reg, s[k - 1]))
    }
}

fn has_diag_within_exec(ds: &Vec<Diagnostic>, sp: Span) -> (r: bool)
    ensures
        r == has_diag_within(crate::diag::diags_view(*ds), sp),
{
    let ghost dv = crate::diag::diags_view(*ds);
    let mut i: usize = 0;
    while i < ds.len()
        invariant
            i <= dv.len(),
            dv == crate::diag::diags_view(*ds),
            dv.len() == ds@.len(),
            forall|j: int| 0 <= j < i ==> !span_in(dv[j].span, sp),
        decreases dv.len() - i,
    {
        proof {
            assert(dv[i as int] == ds@[i as int]@);
        }
        if ds[i].span.lo >= sp.lo && ds[i].span.hi <= sp.hi {
            return true;
        }
        i = i + 1;
    }
    false
}

/// Lower one node and its subtree; the result mirrors `lower_spec` exactly.
pub fn lower_node(reg: &Registry, n: &Node) -> (r: Lowered)
    ensures
        r@ == lower_spec(reg@, n@),
    decreases *n,
{
    proof {
        assert(n@.attrs =~= raw_attrs_view(n.attrs));
        assert(n@.children == children_view(n.children@, n.children@.len() as int));
        lemma_children_view(n.children@, n.children@.len() as int);
    }
    let own = own_diags_exec(reg, n);
    let ghost ds = own_diags(reg@, n@);
    let mut setters: Vec<Setter> = Vec::new();
    let mut i: usize = 0;
    while i < n.attrs.len()
        invariant
            i <= n.attrs@.len(),
            ds == own_diags(reg@, n@),
            crate::diag::diags_view(own) == ds,
            n@.attrs == raw_attrs_view(n.attrs),
            n@.attrs.len() == n.attrs@.len(),
            setters@.map_values(|s: Setter| s@) == setters_upto(ds, n@.attrs, i as int),
        decreases n.attrs@.len() - i,
    {
        proof {
            assert(n@.attrs[i as int] == n.attrs@[i as int]@);
        }
        let a = &n.attrs[i];
        let source = crate::text::copy_bytes(&a.name);
        let st = match classify_attr(a) {
            Result::Ok(at) => {
                let op = match &at.kind {
                    AttrKind::PropAttr { .. } => SetterOp::SetProp,
                    AttrKind::EventAttr { .. } => SetterOp::SetEvent,
                    AttrKind::DomPropAttr { .. } => SetterOp::SetDomProp,
                    AttrKind::ClassAttr { .. } => SetterOp::SetClass,
                    AttrKind::StyleAttr { .. } => SetterOp::SetStyle,
                    AttrKind::SpreadAttr { .. } => SetterOp::ApplySpread,
                    AttrKind::DirectiveAttr { .. } => SetterOp::ApplyDirective,
                    AttrKind::SlotMarkerAttr { .. } => SetterOp::MarkSlot,
                    AttrKind::ChildrenLetAttr { .. } => SetterOp::BindLet,
                    AttrKind::CloneCaptureAttr { .. } => SetterOp::CaptureClone,
                };
                Setter {
                    source,
                    op,
                    span: a.span,
                    placeholder: has_diag_within_exec(&own, a.span),
                }
            },
            Result::Err(_) => Setter {
                source,
                op: SetterOp::SkippedAttr,
                span: a.span,
                placeholder: true,
            },
        };
        setters.push(st);
        proof {
            assert(setters@.map_values(|s: Setter| s@) =~= setters_upto(ds, n@.attrs, i + 1 as int));
        }
        i = i + 1;
    }
    let target = match &n.kind {
        NodeKind::ElementTag { name } => Target::ElementTarget {
            name: crate::text::copy_bytes(name),
        },
        NodeKind::ComponentTag { name, .. } => {
            let routed = match crate::resolve::marker_of(&n.attrs) {
                Option::Some(_) => true,
                Option::None => false,
            };
            if routed {
                Target::SlotTarget { name: crate::text::copy_bytes(name) }
            } else {
                Target::ComponentTarget { name: crate::text::copy_bytes(name) }
            }
        },
        NodeKind::FragmentTag => Target::FragmentTarget,
        NodeKind::TextLeaf { text } => Target::TextTarget { text: crate::text::copy_bytes(text) },
        NodeKind::ExprLeaf { .. } => Target::ExprTarget,
    };
    let ghost chv = n@.children;
    let mut lowered_children: Vec<Lowered> = Vec::new();
    let mut j: usize = 0;
    while j < n.children.len()
        invariant
            j <= chv.len(),
            chv == n@.children,
            chv.len() == n.children@.len(),
            forall|k: int| 0 <= k < chv.len() ==> chv[k] == node_view(n.children@[k]),
            lowered_children@.map_values(|l: Lowered| lowered_view(l)) == lower_children_spec(
                reg@,
                chv,
                j as int,
            ),
        decreases chv.len() - j,
    {
        let sub = lower_node(reg, &n.children[j]);
        lowered_children.push(sub);
        proof {
            assert(lowered_children@.map_values(|l: Lowered| lowered_view(l))
                =~= lower_children_spec(reg@, chv, j + 1 as int));
        }
        j = j + 1;
    }
    let placeholder = own.len() > 0;
    let r = Lowered {
        target,
        span: n.span,
        build_span: n.name_span,
        setters,
        children: lowered_children,
        placeholder,
    };
    proof {
        lemma_lowered_children_view(r.children@, r.children@.len() as int);
        assert(r@.setters =~= setters_upto(ds, n@.attrs, n@.attrs.len() as int));
        assert(r@.children =~= lower_children_spec(reg@, chv, chv.len() as int));
        assert(r@ == lower_spec(reg@, n@));
    }
    r
}

} // verus!
