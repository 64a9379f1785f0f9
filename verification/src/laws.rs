use vstd::prelude::*;

use crate::diag::contains_diag;
use crate::diag::lemma_push_diag_from;
use crate::diag::lemma_push_diag_has;
use crate::diag::lemma_push_diag_keeps;
use crate::diag::DiagKind;
use crate::diag::DiagS;
use crate::lower::lower_children_spec;
use crate::lower::lower_spec;
use crate::lower::setters_upto;
use crate::lower::LoweredS;
use crate::lower::SetterS;
use crate::lower::TargetS;
use crate::registry::Cardinality;
use crate::registry::ChildrenKind;
use crate::registry::RegistryS;
use crate::registry::SlotFieldS;
use crate::attr::classify_spec;
use crate::attr::AttrKindS;
use crate::resolve::attr_check_one;
use crate::resolve::attr_checks_upto;
use crate::resolve::binder_emis;
use crate::resolve::card_upto;
use crate::resolve::classified;
use crate::resolve::classify_diags;
use crate::resolve::errs_upto;
use crate::resolve::generic_emis;
use crate::resolve::marker_from;
use crate::resolve::mismatch;
use crate::resolve::oks_upto;
use crate::resolve::required_upto;
use crate::resolve::routing_one;
use crate::resolve::routing_upto;
use crate::resolve::unexpected_upto;
use crate::resolve::unknown_diag;
use crate::resolve::binding_diag;
use crate::resolve::bindings_total;
use crate::resolve::card_one;
use crate::resolve::check_children_spec;
use crate::resolve::check_node_spec;
use crate::resolve::count_to;
use crate::resolve::dedup_fold;
use crate::resolve::excess_upto;
use crate::resolve::is_routed;
use crate::resolve::lets_hull;
use crate::resolve::lets_upto;
use crate::resolve::own_diags;
use crate::resolve::own_emissions;
use crate::resolve::routed_target;
use crate::shape::renderable;
use crate::span::span_in;
use crate::span::Span;
use crate::tree::attr_wf;
use crate::tree::node_wf;
use crate::tree::NodeKindS;
use crate::tree::node_skeleton;
use crate::tree::skeleton_children;
use crate::tree::NodeS;
use crate::tree::RawAttrS;
use crate::tree::SkeletonS;

verus! {

// ---------------------------------------------------------------------------
// Structural round trip
// ---------------------------------------------------------------------------
/// The ordered structure of a lowered tree, read back: the constructed tag,
/// the originating attribute names in order, the children in order.
pub open spec fn lowered_skeleton(l: LoweredS) -> SkeletonS
    decreases l,
{
    SkeletonS {
        tag: match l.target {
            TargetS::ElementTargetS { name } => name,
            TargetS::ComponentTargetS { name } => name,
            TargetS::SlotTargetS { name } => name,
            TargetS::FragmentTargetS => Seq::empty(),
            TargetS::TextTargetS { text } => text,
            TargetS::ExprTargetS => Seq::empty(),
        },
        attr_names: l.setters.map_values(|s: SetterS| s.source),
        children: lowered_skel_children(l.children, l.children.len() as int),
    }
}

pub open spec fn lowered_skel_children(s: Seq<LoweredS>, k: int) -> Seq<SkeletonS>
    decreases s, k,
{
    if k <= 0 || k > s.len() {
        Seq::empty()
    } else {
        lowered_skel_children(s, k - 1).push(lowered_skeleton(s[k - 1]))
    }
}

proof fn lemma_setters_len(ds: Seq<DiagS>, attrs: Seq<RawAttrS>, k: int)
    requires
        0 <= k <= attrs.len(),
    ensures
        setters_upto(ds, attrs, k).len() == k,
        forall|i: int|
            0 <= i < k ==> setters_upto(ds, attrs, k)[i] == crate::lower::setter_of(ds, attrs[i]),
    decreases k,
{
    if k > 0 {
        lemma_setters_len(ds, attrs, k - 1);
    }
}

proof fn lemma_skel_prefix(s: Seq<LoweredS>, x: LoweredS, k: int)
    requires
        0 <= k <= s.len(),
    ensures
        lowered_skel_children(s.push(x), k) == lowered_skel_children(s, k),
    decreases k,
{
    if k > 0 {
        lemma_skel_prefix(s, x, k - 1);
    }
}

proof fn lemma_lower_children_len(reg: RegistryS, s: Seq<NodeS>, k: int)
    requires
        0 <= k <= s.len(),
    ensures
        lower_children_spec(reg, s, k).len() == k,
        forall|i: int|
            0 <= i < k ==> #[trigger] lower_children_spec(reg, s, k)[i] == lower_spec(reg, s[i]),
    decreases k,
{
    if k > 0 {
        lemma_lower_children_len(reg, s, k - 1);
    }
}

/// Structural round trip: reading the lowered tree back gives exactly the
/// structure of the source tree — the same tag, the same attribute names in
/// the same order, the same children in the same order, at every depth. This
/// holds for every tree, faulty ones included: lowering drops and reorders
/// nothing.
pub proof fn lemma_round_trip(reg: RegistryS, n: NodeS)
    ensures
        lowered_skeleton(lower_spec(reg, n)) == node_skeleton(n),
    decreases n,
{
    let l = lower_spec(reg, n);
    let ds = own_diags(reg, n);
    lemma_setters_len(ds, n.attrs, n.attrs.len() as int);
    assert forall|i: int| 0 <= i < n.attrs.len() implies (#[trigger] l.setters[i]).source
        == n.attrs[i].name by {
        assert(l.setters[i] == crate::lower::setter_of(ds, n.attrs[i]));
    }
    assert(l.setters.map_values(|s: SetterS| s.source) =~= n.attrs.map_values(
        |a: RawAttrS| a.name,
    ));
    lemma_round_trip_children(reg, n.children, n.children.len() as int);
    lemma_lower_children_len(reg, n.children, n.children.len() as int);
    assert(lowered_skeleton(l).children == skeleton_children(
        n.children,
        n.children.len() as int,
    ));
    assert(lowered_skeleton(l).tag == node_skeleton(n).tag);
}

proof fn lemma_round_trip_children(reg: RegistryS, s: Seq<NodeS>, k: int)
    requires
        0 <= k <= s.len(),
    ensures
        lowered_skel_children(
            lower_children_spec(reg, s, k),
            lower_children_spec(reg, s, k).len() as int,
        ) == skeleton_children(s, k),
    decreases s, k,
{
    if k > 0 {
        lemma_round_trip_children(reg, s, k - 1);
        lemma_lower_children_len(reg, s, k - 1);
        lemma_lower_children_len(reg, s, k);
        lemma_round_trip(reg, s[k - 1]);
        let prev = lower_children_spec(reg, s, k - 1);
        let x = lower_spec(reg, s[k - 1]);
        lemma_skel_prefix(prev, x, prev.len() as int);
        assert(lower_children_spec(reg, s, k) == prev.push(x));
    }
}

// ---------------------------------------------------------------------------
// Membership: what a stage emits is reported
// ---------------------------------------------------------------------------
pub proof fn lemma_concat_contains(a: Seq<DiagS>, b: Seq<DiagS>, d: DiagS)
    requires
        contains_diag(a, d) || contains_diag(b, d),
    ensures
        contains_diag(a + b, d),
{
    if contains_diag(a, d) {
        let i = choose|i: int| 0 <= i < a.len() && a[i] == d;
        assert((a + b)[i] == d);
    } else {
        let i = choose|i: int| 0 <= i < b.len() && b[i] == d;
        assert((a + b)[a.len() + i] == d);
    }
}

/// Duplicate suppression never loses a finding: every emission is present in
/// the deduplicated list.
pub proof fn lemma_dedup_contains(emis: Seq<DiagS>, k: int, d: DiagS)
    requires
        0 <= k <= emis.len(),
        exists|i: int| 0 <= i < k && emis[i] == d,
    ensures
        contains_diag(dedup_fold(emis, k), d),
    decreases k,
{
    if k > 0 {
        if emis[k - 1] == d {
            lemma_push_diag_has(dedup_fold(emis, k - 1), d);
        } else {
            lemma_dedup_contains(emis, k - 1, d);
            lemma_push_diag_keeps(dedup_fold(emis, k - 1), d, emis[k - 1]);
        }
    }
}

/// Anything the node itself emits is in the subtree's verdict.
pub proof fn lemma_own_in_check(reg: RegistryS, n: NodeS, d: DiagS)
    requires
        contains_diag(own_emissions(reg, n), d),
    ensures
        contains_diag(check_node_spec(reg, n), d),
{
    let emis = own_emissions(reg, n);
    lemma_dedup_contains(emis, emis.len() as int, d);
    lemma_concat_contains(
        own_diags(reg, n),
        check_children_spec(reg, n.children, n.children.len() as int),
        d,
    );
}

proof fn lemma_children_check_contains(reg: RegistryS, s: Seq<NodeS>, k: int, i: int, d: DiagS)
    requires
        0 <= i < k <= s.len(),
        contains_diag(check_node_spec(reg, s[i]), d),
    ensures
        contains_diag(check_children_spec(reg, s, k), d),
    decreases k,
{
    if i == k - 1 {
        lemma_concat_contains(check_children_spec(reg, s, k - 1), check_node_spec(reg, s[i]), d);
    } else {
        lemma_children_check_contains(reg, s, k - 1, i, d);
        lemma_concat_contains(check_children_spec(reg, s, k - 1), check_node_spec(reg, s[k - 1]), d);
    }
}

/// A child subtree's verdict survives into the parent's, untouched.
pub proof fn lemma_child_in_check(reg: RegistryS, n: NodeS, i: int, d: DiagS)
    requires
        0 <= i < n.children.len(),
        contains_diag(check_node_spec(reg, n.children[i]), d),
    ensures
        contains_diag(check_node_spec(reg, n), d),
{
    lemma_children_check_contains(reg, n.children, n.children.len() as int, i, d);
    lemma_concat_contains(
        own_diags(reg, n),
        check_children_spec(reg, n.children, n.children.len() as int),
        d,
    );
}

// ---------------------------------------------------------------------------
// Cardinality law
// ---------------------------------------------------------------------------
proof fn lemma_excess_empty(children: Seq<NodeS>, k: int, fname: Seq<u8>)
    requires
        0 <= k <= children.len(),
        count_to(children, children.len() as int, fname) <= 1,
    ensures
        excess_upto(children, k, fname) == Seq::<DiagS>::empty(),
    decreases k,
{
    if k > 0 {
        lemma_excess_empty(children, k - 1, fname);
        lemma_count_monotone(children, k - 1, children.len() as int, fname);
        lemma_count_monotone(children, k, children.len() as int, fname);
        assert(excess_upto(children, k, fname) =~= Seq::<DiagS>::empty());
    }
}

proof fn lemma_count_monotone(children: Seq<NodeS>, k1: int, k2: int, fname: Seq<u8>)
    requires
        0 <= k1 <= k2 <= children.len(),
    ensures
        count_to(children, k1, fname) <= count_to(children, k2, fname),
    decreases k2 - k1,
{
    if k1 < k2 {
        lemma_count_monotone(children, k1, k2 - 1, fname);
    }
}

proof fn lemma_excess_second(children: Seq<NodeS>, k: int, fname: Seq<u8>)
    requires
        0 <= k <= children.len(),
        count_to(children, k, fname) >= 2,
    ensures
        exists|j: int|
            0 <= j < k && is_routed(#[trigger] children[j]) && routed_target(children[j]) == fname
                && contains_diag(
                excess_upto(children, k, fname),
                DiagS {
                    kind: DiagKind::SlotCardinalityExceeded,
                    span: children[j].span,
                    secondary: Option::None,
                    detail: fname,
                },
            ),
    decreases k,
{
    if k > 0 {
        if is_routed(children[k - 1]) && routed_target(children[k - 1]) == fname && count_to(
            children,
            k - 1,
            fname,
        ) >= 1 {
            let e = excess_upto(children, k, fname);
            let d = DiagS {
                kind: DiagKind::SlotCardinalityExceeded,
                span: children[k - 1].span,
                secondary: Option::None,
                detail: fname,
            };
            assert(e[e.len() - 1] == d);
            assert(is_routed(children[k - 1]) && routed_target(children[k - 1]) == fname
                && contains_diag(e, d));
        } else {
            lemma_excess_second(children, k - 1, fname);
            let j = choose|j: int|
                0 <= j < k - 1 && is_routed(#[trigger] children[j]) && routed_target(children[j])
                    == fname && contains_diag(
                    excess_upto(children, k - 1, fname),
                    DiagS {
                        kind: DiagKind::SlotCardinalityExceeded,
                        span: children[j].span,
                        secondary: Option::None,
                        detail: fname,
                    },
                );
            lemma_concat_contains(
                excess_upto(children, k - 1, fname),
                excess_upto(children, k, fname).skip(excess_upto(children, k - 1, fname).len() as int),
                DiagS {
                    kind: DiagKind::SlotCardinalityExceeded,
                    span: children[j].span,
                    secondary: Option::None,
                    detail: fname,
                },
            );
            assert(excess_upto(children, k, fname) =~= excess_upto(children, k - 1, fname)
                + excess_upto(children, k, fname).skip(
                excess_upto(children, k - 1, fname).len() as int,
            ));
        }
    }
}

/// Cardinality law for a field declared `ExactlyOne`: exactly one routed
/// match passes; no match is rejected with a `SlotMissing` naming the field,
/// anchored at the parent's tag name; two or more matches are rejected with a
/// `SlotCardinalityExceeded` anchored at an offending child itself, never at
/// the parent node's range as a whole.
pub proof fn lemma_cardinality_law(children: Seq<NodeS>, f: SlotFieldS, name_span: Span)
    requires
        f.card == Cardinality::ExactlyOne,
    ensures
        count_to(children, children.len() as int, f.name) == 1 ==> card_one(children, f, name_span)
            == Seq::<DiagS>::empty(),
        count_to(children, children.len() as int, f.name) == 0 ==> card_one(children, f, name_span)
            == seq![
            DiagS {
                kind: DiagKind::SlotMissing,
                span: name_span,
                secondary: Option::None,
                detail: f.name,
            },
        ],
        count_to(children, children.len() as int, f.name) >= 2 ==> exists|j: int|
            0 <= j < children.len() && is_routed(#[trigger] children[j]) && routed_target(
                children[j],
            ) == f.name && contains_diag(
                card_one(children, f, name_span),
                DiagS {
                    kind: DiagKind::SlotCardinalityExceeded,
                    span: children[j].span,
                    secondary: Option::None,
                    detail: f.name,
                },
            ),
{
    let cnt = count_to(children, children.len() as int, f.name);
    if cnt <= 1 {
        lemma_excess_empty(children, children.len() as int, f.name);
        if cnt == 1 {
            assert(card_one(children, f, name_span) =~= Seq::<DiagS>::empty());
        } else {
            assert(card_one(children, f, name_span) =~= seq![
                DiagS {
                    kind: DiagKind::SlotMissing,
                    span: name_span,
                    secondary: Option::None,
                    detail: f.name,
                },
            ]);
        }
    } else {
        lemma_excess_second(children, children.len() as int, f.name);
        let j = choose|j: int|
            0 <= j < children.len() && is_routed(#[trigger] children[j]) && routed_target(
                children[j],
            ) == f.name && contains_diag(
                excess_upto(children, children.len() as int, f.name),
                DiagS {
                    kind: DiagKind::SlotCardinalityExceeded,
                    span: children[j].span,
                    secondary: Option::None,
                    detail: f.name,
                },
            );
        lemma_concat_contains(
            Seq::<DiagS>::empty(),
            excess_upto(children, children.len() as int, f.name),
            DiagS {
                kind: DiagKind::SlotCardinalityExceeded,
                span: children[j].span,
                secondary: Option::None,
                detail: f.name,
            },
        );
        assert(card_one(children, f, name_span) =~= Seq::<DiagS>::empty() + excess_upto(
            children,
            children.len() as int,
            f.name,
        ));
    }
}

// ---------------------------------------------------------------------------
// Children arity law
// ---------------------------------------------------------------------------
/// Arity law for closure-typed children: with a `let:` list present, a
/// binding count different from the declared arity is always rejected with a
/// `ChildrenArityMismatch` anchored at the `let:` list's own range, and a
/// binding count equal to the arity always passes the binder with nothing to
/// report.
pub proof fn lemma_children_arity_law(
    arity: u32,
    children: Seq<NodeS>,
    cls: Seq<crate::attr::AttrS>,
    name_span: Span,
)
    requires
        lets_upto(cls, cls.len() as int).len() >= 1,
    ensures
        bindings_total(
            lets_upto(cls, cls.len() as int),
            lets_upto(cls, cls.len() as int).len() as int,
        ) != arity ==> binder_emis(
            ChildrenKind::ClosureChildren { arity },
            children,
            cls,
            name_span,
        ) == seq![
            binding_diag(
                DiagKind::ChildrenArityMismatch,
                lets_hull(lets_upto(cls, cls.len() as int), lets_upto(cls, cls.len() as int).len() as int),
            ),
        ],
        bindings_total(
            lets_upto(cls, cls.len() as int),
            lets_upto(cls, cls.len() as int).len() as int,
        ) == arity ==> binder_emis(
            ChildrenKind::ClosureChildren { arity },
            children,
            cls,
            name_span,
        ) == Seq::<DiagS>::empty(),
{
}

// ---------------------------------------------------------------------------
// Idempotence
// ---------------------------------------------------------------------------
/// Resolution and lowering are functions of the tree and the registry alone:
/// two passes over the identical input produce identical diagnostics and an
/// identical lowered tree; in particular a clean first pass guarantees a
/// clean, identical second one. The executable pipeline is pinned to these
/// same functions by its contracts.
pub proof fn lemma_resolution_idempotent(
    reg: RegistryS,
    n: NodeS,
    d1: Seq<DiagS>,
    l1: LoweredS,
    d2: Seq<DiagS>,
    l2: LoweredS,
)
    requires
        d1 == check_node_spec(reg, n),
        l1 == lower_spec(reg, n),
        d2 == check_node_spec(reg, n),
        l2 == lower_spec(reg, n),
    ensures
        d1 == d2,
        l1 == l2,
        d1.len() == 0 ==> d2 == Seq::<DiagS>::empty() && l2 == l1,
{
    assert(d1.len() == 0 ==> d2 =~= Seq::<DiagS>::empty());
}

// ---------------------------------------------------------------------------
// Span containment: diagnostics never escape their subtree
// ---------------------------------------------------------------------------
pub open spec fn all_within(ds: Seq<DiagS>, outer: Span) -> bool {
    forall|i: int| 0 <= i < ds.len() ==> span_in((#[trigger] ds[i]).span, outer)
}

proof fn lemma_within_concat(a: Seq<DiagS>, b: Seq<DiagS>, outer: Span)
    requires
        all_within(a, outer),
        all_within(b, outer),
    ensures
        all_within(a + b, outer),
{
    assert forall|i: int| 0 <= i < (a + b).len() implies span_in(((a + b)[i]).span, outer) by {
        if i < a.len() {
            assert((a + b)[i] == a[i]);
        } else {
            assert((a + b)[i] == b[i - a.len()]);
        }
    }
}

proof fn lemma_dedup_from(emis: Seq<DiagS>, k: int, d: DiagS)
    requires
        0 <= k <= emis.len(),
        contains_diag(dedup_fold(emis, k), d),
    ensures
        exists|i: int| 0 <= i < k && emis[i] == d,
    decreases k,
{
    if k > 0 {
        lemma_push_diag_from(dedup_fold(emis, k - 1), emis[k - 1], d);
        if d == emis[k - 1] {
            assert(emis[k - 1] == d);
        } else {
            lemma_dedup_from(emis, k - 1, d);
        }
    }
}

proof fn lemma_dedup_within(emis: Seq<DiagS>, k: int, outer: Span)
    requires
        0 <= k <= emis.len(),
        all_within(emis, outer),
    ensures
        all_within(dedup_fold(emis, k), outer),
{
    let out = dedup_fold(emis, k);
    assert forall|i: int| 0 <= i < out.len() implies span_in((out[i]).span, outer) by {
        assert(contains_diag(out, out[i]));
        lemma_dedup_from(emis, k, out[i]);
    }
}

/// A classified attribute whose own range and value ranges lie within
/// `outer`.
pub open spec fn attr_ok(a: crate::attr::AttrS, outer: Span) -> bool {
    &&& span_in(a.span, outer)
    &&& match a.kind {
        AttrKindS::PropA { value, .. } => span_in(value.span, outer),
        AttrKindS::EventA { value, .. } => span_in(value.span, outer),
        AttrKindS::DomPropA { value, .. } => span_in(value.span, outer),
        AttrKindS::ClassA { value, .. } => span_in(value.span, outer),
        AttrKindS::StyleA { value, .. } => span_in(value.span, outer),
        AttrKindS::SpreadA { value } => span_in(value.span, outer),
        AttrKindS::DirectiveA { value: Option::Some(v), .. } => span_in(v.span, outer),
        _ => true,
    }
}

pub open spec fn attrs_ok(attrs: Seq<RawAttrS>, outer: Span) -> bool {
    forall|i: int|
        0 <= i < attrs.len() ==> attr_wf(#[trigger] attrs[i]) && span_in(attrs[i].span, outer)
}

proof fn lemma_classify_ok(a: RawAttrS, outer: Span)
    requires
        attr_wf(a),
        span_in(a.span, outer),
    ensures
        match classify_spec(a) {
            Result::Ok(at) => attr_ok(at, outer),
            Result::Err(d) => span_in(d.span, outer),
        },
{
}

proof fn lemma_errs_within(attrs: Seq<RawAttrS>, k: int, outer: Span)
    requires
        0 <= k <= attrs.len(),
        attrs_ok(attrs, outer),
    ensures
        all_within(errs_upto(attrs, k), outer),
    decreases k,
{
    if k > 0 {
        lemma_errs_within(attrs, k - 1, outer);
        lemma_classify_ok(attrs[k - 1], outer);
        assert forall|i: int| 0 <= i < errs_upto(attrs, k).len() implies span_in(
            (errs_upto(attrs, k)[i]).span,
            outer,
        ) by {
            if i < errs_upto(attrs, k - 1).len() {
                assert(errs_upto(attrs, k)[i] == errs_upto(attrs, k - 1)[i]);
            }
        }
    }
}

proof fn lemma_oks_ok(attrs: Seq<RawAttrS>, k: int, outer: Span)
    requires
        0 <= k <= attrs.len(),
        attrs_ok(attrs, outer),
    ensures
        forall|i: int| 0 <= i < oks_upto(attrs, k).len() ==> attr_ok(#[trigger] oks_upto(attrs, k)[i], outer),
    decreases k,
{
    if k > 0 {
        lemma_oks_ok(attrs, k - 1, outer);
        lemma_classify_ok(attrs[k - 1], outer);
        assert forall|i: int| 0 <= i < oks_upto(attrs, k).len() implies attr_ok(
            oks_upto(attrs, k)[i],
            outer,
        ) by {
            if i < oks_upto(attrs, k - 1).len() {
                assert(oks_upto(attrs, k)[i] == oks_upto(attrs, k - 1)[i]);
            }
        }
    }
}

proof fn lemma_attr_checks_within(
    reg: RegistryS,
    props: Option<Seq<crate::registry::PropSchemaS>>,
    cls: Seq<crate::attr::AttrS>,
    k: int,
    outer: Span,
)
    requires
        0 <= k <= cls.len(),
        forall|i: int| 0 <= i < cls.len() ==> attr_ok(#[trigger] cls[i], outer),
    ensures
        all_within(attr_checks_upto(reg, props, cls, k), outer),
    decreases k,
{
    if k > 0 {
        lemma_attr_checks_within(reg, props, cls, k - 1, outer);
        assert(attr_ok(cls[k - 1], outer));
        assert(all_within(attr_check_one(reg, props, cls[k - 1]), outer));
        lemma_within_concat(
            attr_checks_upto(reg, props, cls, k - 1),
            attr_check_one(reg, props, cls[k - 1]),
            outer,
        );
    }
}

proof fn lemma_required_within(
    props: Seq<crate::registry::PropSchemaS>,
    cls: Seq<crate::attr::AttrS>,
    k: int,
    name_span: Span,
    outer: Span,
)
    requires
        0 <= k <= props.len(),
        span_in(name_span, outer),
    ensures
        all_within(required_upto(props, cls, k, name_span), outer),
    decreases k,
{
    if k > 0 {
        lemma_required_within(props, cls, k - 1, name_span, outer);
        assert forall|i: int| 0 <= i < required_upto(props, cls, k, name_span).len() implies span_in(
            (required_upto(props, cls, k, name_span)[i]).span,
            outer,
        ) by {
            if i < required_upto(props, cls, k - 1, name_span).len() {
                assert(required_upto(props, cls, k, name_span)[i] == required_upto(
                    props,
                    cls,
                    k - 1,
                    name_span,
                )[i]);
            }
        }
    }
}

proof fn lemma_marker_within(attrs: Seq<RawAttrS>, i: int, outer: Span)
    requires
        attrs_ok(attrs, outer),
    ensures
        match marker_from(attrs, i) {
            Option::Some(m) => span_in(m.span, outer),
            Option::None => true,
        },
    decreases attrs.len() - i,
{
    if 0 <= i < attrs.len() {
        lemma_classify_ok(attrs[i], outer);
        lemma_marker_within(attrs, i + 1, outer);
    }
}

/// The premise the child-directed stages need: every child's range lies
/// within `outer` and every child is well formed.
pub open spec fn children_ok(children: Seq<NodeS>, outer: Span) -> bool {
    forall|i: int|
        0 <= i < children.len() ==> span_in((#[trigger] children[i]).span, outer) && node_wf(
            children[i],
        )
}

proof fn lemma_routing_within(fields: Seq<SlotFieldS>, children: Seq<NodeS>, k: int, outer: Span)
    requires
        0 <= k <= children.len(),
        children_ok(children, outer),
    ensures
        all_within(routing_upto(fields, children, k), outer),
    decreases k,
{
    if k > 0 {
        lemma_routing_within(fields, children, k - 1, outer);
        let c = children[k - 1];
        if is_routed(c) {
            lemma_marker_within(c.attrs, 0, c.span);
        }
        assert(all_within(routing_one(fields, c), outer));
        lemma_within_concat(routing_upto(fields, children, k - 1), routing_one(fields, c), outer);
    }
}

proof fn lemma_excess_within(children: Seq<NodeS>, k: int, fname: Seq<u8>, outer: Span)
    requires
        0 <= k <= children.len(),
        children_ok(children, outer),
    ensures
        all_within(excess_upto(children, k, fname), outer),
    decreases k,
{
    if k > 0 {
        lemma_excess_within(children, k - 1, fname, outer);
        assert forall|i: int| 0 <= i < excess_upto(children, k, fname).len() implies span_in(
            (excess_upto(children, k, fname)[i]).span,
            outer,
        ) by {
            if i < excess_upto(children, k - 1, fname).len() {
                assert(excess_upto(children, k, fname)[i] == excess_upto(children, k - 1, fname)[i]);
            }
        }
    }
}

proof fn lemma_card_within(
    fields: Seq<SlotFieldS>,
    children: Seq<NodeS>,
    k: int,
    name_span: Span,
    outer: Span,
)
    requires
        0 <= k <= fields.len(),
        children_ok(children, outer),
        span_in(name_span, outer),
    ensures
        all_within(card_upto(fields, children, k, name_span), outer),
    decreases k,
{
    if k > 0 {
        lemma_card_within(fields, children, k - 1, name_span, outer);
        lemma_excess_within(children, children.len() as int, fields[k - 1].name, outer);
        assert(all_within(card_one(children, fields[k - 1], name_span), outer)) by {
            let co = card_one(children, fields[k - 1], name_span);
            let ex = excess_upto(children, children.len() as int, fields[k - 1].name);
            assert forall|i: int| 0 <= i < co.len() implies span_in((co[i]).span, outer) by {
                if fields[k - 1].card is ExactlyOne && count_to(
                    children,
                    children.len() as int,
                    fields[k - 1].name,
                ) == 0 {
                    if i >= 1 {
                        assert(co[i] == ex[i - 1]);
                    }
                } else {
                    if fields[k - 1].card is ExactlyOne || fields[k - 1].card is AtMostOne {
                        assert(co[i] == ex[i]);
                    }
                }
            }
        }
        lemma_within_concat(
            card_upto(fields, children, k - 1, name_span),
            card_one(children, fields[k - 1], name_span),
            outer,
        );
    }
}

proof fn lemma_lets_ok(cls: Seq<crate::attr::AttrS>, k: int, outer: Span)
    requires
        0 <= k <= cls.len(),
        forall|i: int| 0 <= i < cls.len() ==> attr_ok(#[trigger] cls[i], outer),
    ensures
        forall|i: int|
            0 <= i < lets_upto(cls, k).len() ==> span_in(
                (#[trigger] lets_upto(cls, k)[i]).span,
                outer,
            ),
    decreases k,
{
    if k > 0 {
        lemma_lets_ok(cls, k - 1, outer);
        assert forall|i: int| 0 <= i < lets_upto(cls, k).len() implies span_in(
            (lets_upto(cls, k)[i]).span,
            outer,
        ) by {
            if i < lets_upto(cls, k - 1).len() {
                assert(lets_upto(cls, k)[i] == lets_upto(cls, k - 1)[i]);
            }
        }
    }
}

proof fn lemma_hull_within(lets: Seq<crate::attr::AttrS>, k: int, outer: Span)
    requires
        1 <= k <= lets.len(),
        forall|i: int| 0 <= i < lets.len() ==> span_in((#[trigger] lets[i]).span, outer),
    ensures
        span_in(lets_hull(lets, k), outer),
    decreases k,
{
    if k > 1 {
        lemma_hull_within(lets, k - 1, outer);
    }
}

proof fn lemma_unexpected_within(children: Seq<NodeS>, k: int, outer: Span)
    requires
        0 <= k <= children.len(),
        children_ok(children, outer),
    ensures
        all_within(unexpected_upto(children, k), outer),
    decreases k,
{
    if k > 0 {
        lemma_unexpected_within(children, k - 1, outer);
        assert forall|i: int| 0 <= i < unexpected_upto(children, k).len() implies span_in(
            (unexpected_upto(children, k)[i]).span,
            outer,
        ) by {
            if i < unexpected_upto(children, k - 1).len() {
                assert(unexpected_upto(children, k)[i] == unexpected_upto(children, k - 1)[i]);
            }
        }
    }
}

proof fn lemma_binder_within(
    kind: ChildrenKind,
    children: Seq<NodeS>,
    cls: Seq<crate::attr::AttrS>,
    name_span: Span,
    outer: Span,
)
    requires
        children_ok(children, outer),
        span_in(name_span, outer),
        forall|i: int| 0 <= i < cls.len() ==> attr_ok(#[trigger] cls[i], outer),
    ensures
        all_within(binder_emis(kind, children, cls, name_span), outer),
{
    let lets = lets_upto(cls, cls.len() as int);
    lemma_lets_ok(cls, cls.len() as int, outer);
    if lets.len() >= 1 {
        lemma_hull_within(lets, lets.len() as int, outer);
    }
    lemma_unexpected_within(children, children.len() as int, outer);
    match kind {
        ChildrenKind::NoChildren => {
            if lets.len() > 0 {
                lemma_within_concat(
                    unexpected_upto(children, children.len() as int),
                    seq![
                        binding_diag(
                            DiagKind::UnexpectedChildrenBinding,
                            lets_hull(lets, lets.len() as int),
                        ),
                    ],
                    outer,
                );
            } else {
                lemma_within_concat(
                    unexpected_upto(children, children.len() as int),
                    Seq::<DiagS>::empty(),
                    outer,
                );
            }
        },
        ChildrenKind::OpaqueChildren => {},
        ChildrenKind::ClosureChildren { .. } => {},
    }
}

/// Every diagnostic a node contributes about itself lies within the node's
/// own range.
proof fn lemma_own_within(reg: RegistryS, n: NodeS)
    requires
        node_wf(n),
    ensures
        all_within(own_emissions(reg, n), n.span),
{
    let cd = classify_diags(n.attrs);
    let cls = classified(n.attrs);
    assert(attrs_ok(n.attrs, n.span));
    lemma_errs_within(n.attrs, n.attrs.len() as int, n.span);
    lemma_oks_ok(n.attrs, n.attrs.len() as int, n.span);
    assert(children_ok(n.children, n.span)) by {
        crate::tree::lemma_children_all_wf(n.children, n.children.len() as int);
    }
    match n.kind {
        NodeKindS::TextLeafS { .. } => {},
        NodeKindS::ExprLeafS { expr } => {
            if renderable(expr.shape) {
                lemma_within_concat(cd, Seq::<DiagS>::empty(), n.span);
            } else {
                lemma_within_concat(cd, seq![mismatch(expr.span, Seq::empty())], n.span);
            }
        },
        NodeKindS::FragmentTagS => {
            lemma_routing_within(Seq::empty(), n.children, n.children.len() as int, n.span);
            lemma_binder_within(
                ChildrenKind::OpaqueChildren,
                n.children,
                cls,
                n.name_span,
                n.span,
            );
            lemma_within_concat(
                cd,
                routing_upto(Seq::empty(), n.children, n.children.len() as int),
                n.span,
            );
            lemma_within_concat(
                cd + routing_upto(Seq::empty(), n.children, n.children.len() as int),
                binder_emis(ChildrenKind::OpaqueChildren, n.children, cls, n.name_span),
                n.span,
            );
        },
        NodeKindS::ElementTagS { .. } => {
            lemma_attr_checks_within(reg, Option::None, cls, cls.len() as int, n.span);
            lemma_routing_within(Seq::empty(), n.children, n.children.len() as int, n.span);
            lemma_binder_within(
                ChildrenKind::OpaqueChildren,
                n.children,
                cls,
                n.name_span,
                n.span,
            );
            lemma_within_concat(cd, attr_checks_upto(reg, Option::None, cls, cls.len() as int), n.span);
            lemma_within_concat(
                cd + attr_checks_upto(reg, Option::None, cls, cls.len() as int),
                routing_upto(Seq::empty(), n.children, n.children.len() as int),
                n.span,
            );
            lemma_within_concat(
                cd + attr_checks_upto(reg, Option::None, cls, cls.len() as int) + routing_upto(
                    Seq::empty(),
                    n.children,
                    n.children.len() as int,
                ),
                binder_emis(ChildrenKind::OpaqueChildren, n.children, cls, n.name_span),
                n.span,
            );
        },
        NodeKindS::ComponentTagS { name, generics } => {
            if is_routed(n) {
                match crate::registry::lookup_slot_spec(reg, name) {
                    Option::None => {
                        lemma_within_concat(
                            cd,
                            seq![unknown_diag(DiagKind::UnknownSlot, n.name_span, name)],
                            n.span,
                        );
                    },
                    Option::Some(sd) => {
                        lemma_stages_within(
                            reg,
                            sd.props,
                            sd.slots,
                            sd.children,
                            cd,
                            cls,
                            n,
                            Seq::empty(),
                        );
                    },
                }
            } else {
                match crate::registry::lookup_component_spec(reg, name) {
                    Option::None => {
                        lemma_within_concat(
                            cd,
                            seq![unknown_diag(DiagKind::UnknownComponent, n.name_span, name)],
                            n.span,
                        );
                    },
                    Option::Some(comp) => {
                        lemma_stages_within(
                            reg,
                            comp.props,
                            comp.slots,
                            comp.children,
                            cd,
                            cls,
                            n,
                            generic_emis(generics, comp.generic_arity),
                        );
                    },
                }
            }
        },
    }
}

/// The schema-directed stages of one component or slot node stay within the
/// node's range.
proof fn lemma_stages_within(
    reg: RegistryS,
    props: Seq<crate::registry::PropSchemaS>,
    slots: Seq<SlotFieldS>,
    ck: ChildrenKind,
    cd: Seq<DiagS>,
    cls: Seq<crate::attr::AttrS>,
    n: NodeS,
    gen_emis: Seq<DiagS>,
)
    requires
        node_wf(n),
        all_within(cd, n.span),
        all_within(gen_emis, n.span),
        forall|i: int| 0 <= i < cls.len() ==> attr_ok(#[trigger] cls[i], n.span),
    ensures
        all_within(
            cd + gen_emis + attr_checks_upto(reg, Option::Some(props), cls, cls.len() as int)
                + required_upto(props, cls, props.len() as int, n.name_span) + routing_upto(
                slots,
                n.children,
                n.children.len() as int,
            ) + card_upto(slots, n.children, slots.len() as int, n.name_span) + binder_emis(
                ck,
                n.children,
                cls,
                n.name_span,
            ),
            n.span,
        ),
{
    assert(children_ok(n.children, n.span)) by {
        crate::tree::lemma_children_all_wf(n.children, n.children.len() as int);
    }
    lemma_attr_checks_within(reg, Option::Some(props), cls, cls.len() as int, n.span);
    lemma_required_within(props, cls, props.len() as int, n.name_span, n.span);
    lemma_routing_within(slots, n.children, n.children.len() as int, n.span);
    lemma_card_within(slots, n.children, slots.len() as int, n.name_span, n.span);
    lemma_binder_within(ck, n.children, cls, n.name_span, n.span);
    let s1 = cd + gen_emis;
    lemma_within_concat(cd, gen_emis, n.span);
    let s2 = s1 + attr_checks_upto(reg, Option::Some(props), cls, cls.len() as int);
    lemma_within_concat(s1, attr_checks_upto(reg, Option::Some(props), cls, cls.len() as int), n.span);
    let s3 = s2 + required_upto(props, cls, props.len() as int, n.name_span);
    lemma_within_concat(s2, required_upto(props, cls, props.len() as int, n.name_span), n.span);
    let s4 = s3 + routing_upto(slots, n.children, n.children.len() as int);
    lemma_within_concat(s3, routing_upto(slots, n.children, n.children.len() as int), n.span);
    let s5 = s4 + card_upto(slots, n.children, slots.len() as int, n.name_span);
    lemma_within_concat(s4, card_upto(slots, n.children, slots.len() as int, n.name_span), n.span);
    lemma_within_concat(s5, binder_emis(ck, n.children, cls, n.name_span), n.span);
}

/// Span containment, the whole pass: every diagnostic of a well-formed
/// subtree lies within that subtree's range. Spans are narrowed, never
/// widened: resolution anchors each finding inside the node it concerns.
pub proof fn lemma_diags_within(reg: RegistryS, n: NodeS)
    requires
        node_wf(n),
    ensures
        all_within(check_node_spec(reg, n), n.span),
    decreases n,
{
    lemma_own_within(reg, n);
    lemma_dedup_within(own_emissions(reg, n), own_emissions(reg, n).len() as int, n.span);
    assert(children_ok(n.children, n.span)) by {
        crate::tree::lemma_children_all_wf(n.children, n.children.len() as int);
    }
    lemma_check_children_within(reg, n.children, n.children.len() as int, n.span);
    lemma_within_concat(
        own_diags(reg, n),
        check_children_spec(reg, n.children, n.children.len() as int),
        n.span,
    );
}

proof fn lemma_check_children_within(reg: RegistryS, s: Seq<NodeS>, k: int, outer: Span)
    requires
        0 <= k <= s.len(),
        children_ok(s, outer),
    ensures
        all_within(check_children_spec(reg, s, k), outer),
    decreases s, k,
{
    if k > 0 {
        lemma_check_children_within(reg, s, k - 1, outer);
        lemma_diags_within(reg, s[k - 1]);
        assert(all_within(check_node_spec(reg, s[k - 1]), outer)) by {
            let cs = check_node_spec(reg, s[k - 1]);
            assert forall|i: int| 0 <= i < cs.len() implies span_in((cs[i]).span, outer) by {
                assert(span_in(cs[i].span, s[k - 1].span));
            }
        }
        lemma_within_concat(check_children_spec(reg, s, k - 1), check_node_spec(reg, s[k - 1]), outer);
    }
}

// ---------------------------------------------------------------------------
// Error isolation
// ---------------------------------------------------------------------------
/// Error isolation: a fault found inside one child's subtree is reported by
/// the parent's pass, lies within that child's range, and never touches a
/// sibling's range — so independent faults in sibling branches are each
/// reported, and neither diagnostic references the other's source.
pub proof fn lemma_error_isolation(reg: RegistryS, n: NodeS, i: int, j: int, d: DiagS)
    requires
        node_wf(n),
        0 <= i < n.children.len(),
        0 <= j < n.children.len(),
        i != j,
        contains_diag(check_node_spec(reg, n.children[i]), d),
    ensures
        contains_diag(check_node_spec(reg, n), d),
        span_in(d.span, n.children[i].span),
        crate::span::span_disjoint(d.span, n.children[j].span),
{
    lemma_child_in_check(reg, n, i, d);
    crate::tree::lemma_children_all_wf(n.children, n.children.len() as int);
    lemma_diags_within(reg, n.children[i]);
    let cs = check_node_spec(reg, n.children[i]);
    let w = choose|w: int| 0 <= w < cs.len() && cs[w] == d;
    assert(span_in(cs[w].span, n.children[i].span));
    if i < j {
        assert(crate::span::span_disjoint(n.children[i].span, n.children[j].span));
    } else {
        assert(crate::span::span_disjoint(n.children[j].span, n.children[i].span));
    }
}


// ---------------------------------------------------------------------------
// Span attribution of the lowered tree
// ---------------------------------------------------------------------------
/// Lowering narrows and never widens: the lowered node keeps the source
/// node's range, anchors its `build()` call at the tag name, gives every
/// setter its originating attribute's own range within the node, and every
/// lowered child its source child's range within the node.
pub proof fn lemma_lowered_spans(reg: RegistryS, n: NodeS)
    requires
        node_wf(n),
    ensures
        lower_spec(reg, n).span == n.span,
        lower_spec(reg, n).build_span == n.name_span,
        span_in(lower_spec(reg, n).build_span, n.span),
        forall|i: int|
            0 <= i < lower_spec(reg, n).setters.len() ==> span_in(
                (#[trigger] lower_spec(reg, n).setters[i]).span,
                n.span,
            ),
        forall|i: int|
            0 <= i < lower_spec(reg, n).children.len() ==> span_in(
                (#[trigger] lower_spec(reg, n).children[i]).span,
                n.span,
            ),
{
    let l = lower_spec(reg, n);
    lemma_setters_len(own_diags(reg, n), n.attrs, n.attrs.len() as int);
    assert forall|i: int| 0 <= i < l.setters.len() implies span_in(
        (l.setters[i]).span,
        n.span,
    ) by {
        assert(l.setters[i] == crate::lower::setter_of(own_diags(reg, n), n.attrs[i]));
        assert(span_in(n.attrs[i].span, n.span));
    }
    lemma_lower_children_len(reg, n.children, n.children.len() as int);
    assert forall|i: int| 0 <= i < l.children.len() implies span_in(
        (l.children[i]).span,
        n.span,
    ) by {
        assert(l.children[i] == lower_spec(reg, n.children[i]));
        assert(span_in(n.children[i].span, n.span));
    }
}

// ---------------------------------------------------------------------------
// The stage laws reach the pass's verdict
// ---------------------------------------------------------------------------
/// A cardinality finding on a resolved component's declared fields is in the
/// pass's verdict for the tree; together with the cardinality law, a slot
/// fault is thus always reported.
pub proof fn lemma_component_card_reported(
    reg: RegistryS,
    n: NodeS,
    comp: crate::registry::ComponentDescriptorS,
    d: DiagS,
)
    requires
        !is_routed(n),
        match n.kind {
            NodeKindS::ComponentTagS { name, .. } => crate::registry::lookup_component_spec(
                reg,
                name,
            ) == Option::Some(comp),
            _ => false,
        },
        contains_diag(card_upto(comp.slots, n.children, comp.slots.len() as int, n.name_span), d),
    ensures
        contains_diag(check_node_spec(reg, n), d),
{
    let cd = classify_diags(n.attrs);
    let cls = classified(n.attrs);
    let card = card_upto(comp.slots, n.children, comp.slots.len() as int, n.name_span);
    match n.kind {
        NodeKindS::ComponentTagS { name, generics } => {
            let prefix = cd + generic_emis(generics, comp.generic_arity) + attr_checks_upto(
                reg,
                Option::Some(comp.props),
                cls,
                cls.len() as int,
            ) + required_upto(comp.props, cls, comp.props.len() as int, n.name_span) + routing_upto(
                comp.slots,
                n.children,
                n.children.len() as int,
            );
            lemma_concat_contains(prefix, card, d);
            lemma_concat_contains(
                prefix + card,
                binder_emis(comp.children, n.children, cls, n.name_span),
                d,
            );
            assert(own_emissions(reg, n) == prefix + card + binder_emis(
                comp.children,
                n.children,
                cls,
                n.name_span,
            ));
        },
        _ => {},
    }
    lemma_own_in_check(reg, n, d);
}

/// A children-binder finding on a resolved component is in the pass's
/// verdict for the tree; together with the arity law, a binding-arity fault
/// is thus always reported at the `let:` list.
pub proof fn lemma_component_binder_reported(
    reg: RegistryS,
    n: NodeS,
    comp: crate::registry::ComponentDescriptorS,
    d: DiagS,
)
    requires
        !is_routed(n),
        match n.kind {
            NodeKindS::ComponentTagS { name, .. } => crate::registry::lookup_component_spec(
                reg,
                name,
            ) == Option::Some(comp),
            _ => false,
        },
        contains_diag(
            binder_emis(comp.children, n.children, classified(n.attrs), n.name_span),
            d,
        ),
    ensures
        contains_diag(check_node_spec(reg, n), d),
{
    let cd = classify_diags(n.attrs);
    let cls = classified(n.attrs);
    match n.kind {
        NodeKindS::ComponentTagS { name, generics } => {
            let prefix = cd + generic_emis(generics, comp.generic_arity) + attr_checks_upto(
                reg,
                Option::Some(comp.props),
                cls,
                cls.len() as int,
            ) + required_upto(comp.props, cls, comp.props.len() as int, n.name_span) + routing_upto(
                comp.slots,
                n.children,
                n.children.len() as int,
            ) + card_upto(comp.slots, n.children, comp.slots.len() as int, n.name_span);
            lemma_concat_contains(
                prefix,
                binder_emis(comp.children, n.children, cls, n.name_span),
                d,
            );
            assert(own_emissions(reg, n) == prefix + binder_emis(
                comp.children,
                n.children,
                cls,
                n.name_span,
            ));
        },
        _ => {},
    }
    lemma_own_in_check(reg, n, d);
}

} // verus!
