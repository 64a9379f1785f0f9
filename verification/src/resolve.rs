use vstd::prelude::*;

use crate::attr::classify_attr;
use crate::attr::classify_spec;
use crate::attr::AttrKind;
use crate::attr::AttrKindS;
use crate::attr::AttrS;
use crate::attr::Attribute;
use crate::diag::diags_view;
use crate::diag::push_diag;
use crate::diag::push_diag_exec;
use crate::diag::DiagKind;
use crate::diag::DiagS;
use crate::diag::Diagnostic;
use crate::registry::lookup_component;
use crate::registry::lookup_component_spec;
use crate::registry::lookup_directive;
use crate::registry::lookup_field;
use crate::registry::lookup_prop;
use crate::registry::lookup_slot;
use crate::registry::PropSchema;
use crate::registry::Registry;
use crate::registry::SlotField;
use crate::registry::lookup_field_spec;
use crate::registry::lookup_directive_spec;
use crate::registry::lookup_prop_spec;
use crate::registry::lookup_slot_spec;
use crate::registry::ChildrenKind;
use crate::registry::Cardinality;
use crate::registry::PropSchemaS;
use crate::registry::RegistryS;
use crate::registry::SlotFieldS;
use crate::shape::event_handler_ok;
use crate::shape::is_event_handler;
use crate::shape::is_renderable;
use crate::shape::renderable;
use crate::shape::shape_eq;
use crate::shape::TypeShape;
use crate::span::span_hull;
use crate::span::span_hull_spec;
use crate::span::Span;
use crate::text::bytes_eq;
use crate::text::copy_bytes;
use crate::tree::node_tag;
use crate::tree::Node;
use crate::tree::NodeKind;
use crate::tree::NodeKindS;
use crate::tree::NodeS;
use crate::tree::RawAttr;
use crate::tree::RawAttrS;

verus! {

// ---------------------------------------------------------------------------
// Classification of a node's attribute list
// ---------------------------------------------------------------------------
/// The classified attributes among `attrs[0..k)`, in document order,
/// mis-shaped ones dropped.
pub open spec fn oks_upto(attrs: Seq<RawAttrS>, k: int) -> Seq<AttrS>
    decreases k,
{
    if k <= 0 || k > attrs.len() {
        Seq::empty()
    } else {
        oks_upto(attrs, k - 1) + (match classify_spec(attrs[k - 1]) {
            Result::Ok(a) => seq![a],
            Result::Err(_) => Seq::empty(),
        })
    }
}

/// The shape errors among `attrs[0..k)`, in document order.
pub open spec fn errs_upto(attrs: Seq<RawAttrS>, k: int) -> Seq<DiagS>
    decreases k,
{
    if k <= 0 || k > attrs.len() {
        Seq::empty()
    } else {
        errs_upto(attrs, k - 1) + (match classify_spec(attrs[k - 1]) {
            Result::Ok(_) => Seq::empty(),
            Result::Err(d) => seq![d],
        })
    }
}

pub open spec fn classified(attrs: Seq<RawAttrS>) -> Seq<AttrS> {
    oks_upto(attrs, attrs.len() as int)
}

pub open spec fn classify_diags(attrs: Seq<RawAttrS>) -> Seq<DiagS> {
    errs_upto(attrs, attrs.len() as int)
}

// ---------------------------------------------------------------------------
// Slot routing: the partition of a node's children
// ---------------------------------------------------------------------------
/// The first well-shaped slot marker among `attrs[i..]`, if any.
pub open spec fn marker_from(attrs: Seq<RawAttrS>, i: int) -> Option<AttrS>
    decreases attrs.len() - i,
{
    if i < 0 || i >= attrs.len() {
        Option::None
    } else {
        match classify_spec(attrs[i]) {
            Result::Ok(a) => match a.kind {
                AttrKindS::SlotMarkerA { .. } => Option::Some(a),
                _ => marker_from(attrs, i + 1),
            },
            Result::Err(_) => marker_from(attrs, i + 1),
        }
    }
}

/// Whether a node is routed to a parent slot field: it carries a slot marker.
/// The partition of a parent's children into slot-routed and plain is total
/// and disjoint by construction: this predicate decides it.
pub open spec fn is_routed(n: NodeS) -> bool {
    marker_from(n.attrs, 0) is Some
}

/// The field name a routed node targets: the marker's explicit target, or the
/// node's own tag name for a bare `slot` marker.
pub open spec fn routed_target(n: NodeS) -> Seq<u8> {
    match marker_from(n.attrs, 0) {
        Option::Some(m) => match m.kind {
            AttrKindS::SlotMarkerA { target: Option::Some(t) } => t,
            _ => match node_tag(n) {
                Option::Some(t) => t,
                Option::None => Seq::empty(),
            },
        },
        Option::None => Seq::empty(),
    }
}

/// The range of the marker attribute itself, where routing faults anchor.
pub open spec fn marker_span(n: NodeS) -> Span {
    match marker_from(n.attrs, 0) {
        Option::Some(m) => m.span,
        Option::None => n.span,
    }
}

/// How many of `children[0..k)` are routed to the field named `fname`.
pub open spec fn count_to(children: Seq<NodeS>, k: int, fname: Seq<u8>) -> nat
    decreases k,
{
    if k <= 0 || k > children.len() {
        0
    } else {
        count_to(children, k - 1, fname) + (if is_routed(children[k - 1]) && routed_target(
            children[k - 1],
        ) == fname {
            1nat
        } else {
            0nat
        })
    }
}

// ---------------------------------------------------------------------------
// Per-attribute checks against a schema
// ---------------------------------------------------------------------------
pub open spec fn mismatch(span: Span, detail: Seq<u8>) -> DiagS {
    DiagS { kind: DiagKind::TypeMismatch, span, secondary: Option::None, detail }
}

/// Checks for one `use:` directive invocation against the directive table: an
/// undeclared directive is left to the host, a declared one must be invoked
/// with exactly the value shape it declares.
pub open spec fn dir_check(reg: RegistryS, name: Seq<u8>, value: Option<crate::shape::Expr>, attr_span: Span) -> Seq<
    DiagS,
> {
    match lookup_directive_spec(reg, name) {
        Option::None => Seq::empty(),
        Option::Some(dd) => match (dd.param, value) {
            (Option::None, Option::None) => Seq::empty(),
            (Option::None, Option::Some(v)) => seq![mismatch(v.span, name)],
            (Option::Some(_), Option::None) => seq![mismatch(attr_span, name)],
            (Option::Some(t), Option::Some(v)) => if v.shape == t {
                Seq::empty()
            } else {
                seq![mismatch(v.span, name)]
            },
        },
    }
}

/// The checks one classified attribute undergoes. With a prop schema
/// (components and slots) a plain prop must name a declared prop and match
/// its shape; without one (host elements) a plain prop value must merely be
/// renderable. Event handlers must be unary functions returning unit; DOM
/// property, class and style values must be renderable; a spread must supply
/// an attribute collection. Every fault anchors at the value expression, or
/// at the attribute where no value is concerned.
pub open spec fn attr_check_one(
    reg: RegistryS,
    props: Option<Seq<PropSchemaS>>,
    a: AttrS,
) -> Seq<DiagS> {
    match a.kind {
        AttrKindS::PropA { name, value } => match props {
            Option::None => if renderable(value.shape) {
                Seq::empty()
            } else {
                seq![mismatch(value.span, name)]
            },
            Option::Some(ps) => match lookup_prop_spec(ps, name) {
                Option::Some(p) => if value.shape == p.shape {
                    Seq::empty()
                } else {
                    seq![mismatch(value.span, name)]
                },
                Option::None => seq![mismatch(a.span, name)],
            },
        },
        AttrKindS::EventA { name, value } => if event_handler_ok(value.shape) {
            Seq::empty()
        } else {
            seq![mismatch(value.span, name)]
        },
        AttrKindS::DomPropA { name, value } => if renderable(value.shape) {
            Seq::empty()
        } else {
            seq![mismatch(value.span, name)]
        },
        AttrKindS::ClassA { name, value } => if renderable(value.shape) {
            Seq::empty()
        } else {
            seq![mismatch(value.span, name)]
        },
        AttrKindS::StyleA { name, value } => if renderable(value.shape) {
            Seq::empty()
        } else {
            seq![mismatch(value.span, name)]
        },
        AttrKindS::SpreadA { value } => if value.shape == TypeShape::AttrListShape {
            Seq::empty()
        } else {
            seq![mismatch(value.span, Seq::empty())]
        },
        AttrKindS::DirectiveA { name, value } => dir_check(reg, name, value, a.span),
        _ => Seq::empty(),
    }
}

pub open spec fn attr_checks_upto(
    reg: RegistryS,
    props: Option<Seq<PropSchemaS>>,
    cls: Seq<AttrS>,
    k: int,
) -> Seq<DiagS>
    decreases k,
{
    if k <= 0 || k > cls.len() {
        Seq::empty()
    } else {
        attr_checks_upto(reg, props, cls, k - 1) + attr_check_one(reg, props, cls[k - 1])
    }
}

// ---------------------------------------------------------------------------
// Required props
// ---------------------------------------------------------------------------
/// Whether a plain prop named `name` occurs among `cls[i..]`.
pub open spec fn provided_from(cls: Seq<AttrS>, name: Seq<u8>, i: int) -> bool
    decreases cls.len() - i,
{
    if i < 0 || i >= cls.len() {
        false
    } else {
        match cls[i].kind {
            AttrKindS::PropA { name: pn, .. } => pn == name || provided_from(cls, name, i + 1),
            _ => provided_from(cls, name, i + 1),
        }
    }
}

/// A `MissingField` at the tag-name range for every required prop among
/// `props[0..k)` that no plain prop supplies. Anchoring at the tag name keeps
/// build-time failures pointing at the component, never at the whole tree.
pub open spec fn required_upto(
    props: Seq<PropSchemaS>,
    cls: Seq<AttrS>,
    k: int,
    name_span: Span,
) -> Seq<DiagS>
    decreases k,
{
    if k <= 0 || k > props.len() {
        Seq::empty()
    } else {
        required_upto(props, cls, k - 1, name_span) + (if props[k - 1].required && !provided_from(
            cls,
            props[k - 1].name,
            0,
        ) {
            seq![
                DiagS {
                    kind: DiagKind::MissingField,
                    span: name_span,
                    secondary: Option::None,
                    detail: props[k - 1].name,
                },
            ]
        } else {
            Seq::empty()
        })
    }
}

// ---------------------------------------------------------------------------
// Routing checks: undefined targets and field type
// ---------------------------------------------------------------------------
/// For one routed child: the target must be a declared field (else
/// `UndefinedSlot` at the marker itself), and the child's tag must be the
/// slot tag the field accepts (else `TypeMismatch` at the child's tag name).
pub open spec fn routing_one(fields: Seq<SlotFieldS>, child: NodeS) -> Seq<DiagS> {
    if !is_routed(child) {
        Seq::empty()
    } else {
        match lookup_field_spec(fields, routed_target(child)) {
            Option::None => seq![
                DiagS {
                    kind: DiagKind::UndefinedSlot,
                    span: marker_span(child),
                    secondary: Option::None,
                    detail: routed_target(child),
                },
            ],
            Option::Some(f) => {
                let tag = match node_tag(child) {
                    Option::Some(t) => t,
                    Option::None => Seq::empty(),
                };
                if tag == f.accepts {
                    Seq::empty()
                } else {
                    seq![mismatch(child.name_span, f.name)]
                }
            },
        }
    }
}

pub open spec fn routing_upto(fields: Seq<SlotFieldS>, children: Seq<NodeS>, k: int) -> Seq<DiagS>
    decreases k,
{
    if k <= 0 || k > children.len() {
        Seq::empty()
    } else {
        routing_upto(fields, children, k - 1) + routing_one(fields, children[k - 1])
    }
}

// ---------------------------------------------------------------------------
// Slot cardinality
// ---------------------------------------------------------------------------
/// A `SlotCardinalityExceeded` for every routed child beyond the first match
/// of `fname`, each at that child's own range.
pub open spec fn excess_upto(children: Seq<NodeS>, k: int, fname: Seq<u8>) -> Seq<DiagS>
    decreases k,
{
    if k <= 0 || k > children.len() {
        Seq::empty()
    } else {
        excess_upto(children, k - 1, fname) + (if is_routed(children[k - 1]) && routed_target(
            children[k - 1],
        ) == fname && count_to(children, k - 1, fname) >= 1 {
            seq![
                DiagS {
                    kind: DiagKind::SlotCardinalityExceeded,
                    span: children[k - 1].span,
                    secondary: Option::None,
                    detail: fname,
                },
            ]
        } else {
            Seq::empty()
        })
    }
}

/// The cardinality verdict for one declared field, over the count after
/// partitioning: a missing `ExactlyOne` field anchors at the parent's tag
/// name and names the field; every excess match anchors at the excess child.
pub open spec fn card_one(children: Seq<NodeS>, f: SlotFieldS, name_span: Span) -> Seq<DiagS> {
    let cnt = count_to(children, children.len() as int, f.name);
    let missing: Seq<DiagS> = if f.card is ExactlyOne && cnt == 0 {
        seq![
            DiagS {
                kind: DiagKind::SlotMissing,
                span: name_span,
                secondary: Option::None,
                detail: f.name,
            },
        ]
    } else {
        Seq::empty()
    };
    let excess: Seq<DiagS> = if f.card is ExactlyOne || f.card is AtMostOne {
        excess_upto(children, children.len() as int, f.name)
    } else {
        Seq::empty()
    };
    missing + excess
}

pub open spec fn card_upto(
    fields: Seq<SlotFieldS>,
    children: Seq<NodeS>,
    k: int,
    name_span: Span,
) -> Seq<DiagS>
    decreases k,
{
    if k <= 0 || k > fields.len() {
        Seq::empty()
    } else {
        card_upto(fields, children, k - 1, name_span) + card_one(children, fields[k - 1], name_span)
    }
}

// ---------------------------------------------------------------------------
// Children binding
// ---------------------------------------------------------------------------
/// The `let:` attributes of a node, in document order.
pub open spec fn lets_upto(cls: Seq<AttrS>, k: int) -> Seq<AttrS>
    decreases k,
{
    if k <= 0 || k > cls.len() {
        Seq::empty()
    } else {
        lets_upto(cls, k - 1) + (match cls[k - 1].kind {
            AttrKindS::ChildrenLetA { .. } => seq![cls[k - 1]],
            _ => Seq::empty(),
        })
    }
}

/// The smallest range covering `lets[0..k)`: the `let:` attribute list.
pub open spec fn lets_hull(lets: Seq<AttrS>, k: int) -> Span
    decreases k,
{
    if k <= 1 || k > lets.len() {
        if lets.len() >= 1 && 1 <= k {
            lets[0].span
        } else {
            Span { lo: 0, hi: 0 }
        }
    } else {
        span_hull_spec(lets_hull(lets, k - 1), lets[k - 1].span)
    }
}

/// The number of binding names `lets[0..k)` introduce together.
pub open spec fn bindings_total(lets: Seq<AttrS>, k: int) -> nat
    decreases k,
{
    if k <= 0 || k > lets.len() {
        0
    } else {
        bindings_total(lets, k - 1) + (match lets[k - 1].kind {
            AttrKindS::ChildrenLetA { bindings } => bindings.len(),
            _ => 0,
        })
    }
}

/// An `UnexpectedChildren` at every plain (non-routed) child's range.
pub open spec fn unexpected_upto(children: Seq<NodeS>, k: int) -> Seq<DiagS>
    decreases k,
{
    if k <= 0 || k > children.len() {
        Seq::empty()
    } else {
        unexpected_upto(children, k - 1) + (if is_routed(children[k - 1]) {
            Seq::empty()
        } else {
            seq![
                DiagS {
                    kind: DiagKind::UnexpectedChildren,
                    span: children[k - 1].span,
                    secondary: Option::None,
                    detail: Seq::empty(),
                },
            ]
        })
    }
}

pub open spec fn binding_diag(kind: DiagKind, span: Span) -> DiagS {
    DiagS { kind, span, secondary: Option::None, detail: Seq::empty() }
}

/// The children-binder verdict, over the plain children and the `let:`
/// attribute list. A `None` target refuses children; an opaque target refuses
/// destructuring; a closure target of arity `n` demands bindings totalling
/// exactly `n`, anchored at the `let:` list, or at the tag name when the list
/// is absent altogether.
pub open spec fn binder_emis(
    kind: ChildrenKind,
    children: Seq<NodeS>,
    cls: Seq<AttrS>,
    name_span: Span,
) -> Seq<DiagS> {
    let lets = lets_upto(cls, cls.len() as int);
    let hull = lets_hull(lets, lets.len() as int);
    match kind {
        ChildrenKind::NoChildren => unexpected_upto(children, children.len() as int) + (if lets.len()
            > 0 {
            seq![binding_diag(DiagKind::UnexpectedChildrenBinding, hull)]
        } else {
            Seq::empty()
        }),
        ChildrenKind::OpaqueChildren => if lets.len() > 0 {
            seq![binding_diag(DiagKind::UnexpectedChildrenBinding, hull)]
        } else {
            Seq::empty()
        },
        ChildrenKind::ClosureChildren { arity } => if lets.len() == 0 {
            if arity >= 1 {
                seq![binding_diag(DiagKind::MissingChildrenBinding, name_span)]
            } else {
                Seq::empty()
            }
        } else if bindings_total(lets, lets.len() as int) != arity {
            seq![binding_diag(DiagKind::ChildrenArityMismatch, hull)]
        } else {
            Seq::empty()
        },
    }
}

// ---------------------------------------------------------------------------
// The node's own emissions, and the deduplicated collector
// ---------------------------------------------------------------------------
pub open spec fn generic_emis(generics: Option<crate::tree::GenericArgsS>, arity: usize) -> Seq<
    DiagS,
> {
    match generics {
        Option::Some(g) => if g.args.len() != arity {
            seq![
                DiagS {
                    kind: DiagKind::GenericArityMismatch,
                    span: g.span,
                    secondary: Option::None,
                    detail: Seq::empty(),
                },
            ]
        } else {
            Seq::empty()
        },
        Option::None => Seq::empty(),
    }
}

pub open spec fn unknown_diag(kind: DiagKind, span: Span, name: Seq<u8>) -> DiagS {
    DiagS { kind, span, secondary: Option::None, detail: name }
}

/// Everything the pipeline has to say about one node itself (its children's
/// own faults aside), as one sequence in stage order: attribute shape errors,
/// then name resolution, generic arity, per-attribute checks, required
/// props, slot routing, slot cardinality, and children binding.
pub open spec fn own_emissions(reg: RegistryS, n: NodeS) -> Seq<DiagS> {
    let cd = classify_diags(n.attrs);
    let cls = classified(n.attrs);
    match n.kind {
        NodeKindS::TextLeafS { .. } => cd,
        NodeKindS::ExprLeafS { expr } => cd + (if renderable(expr.shape) {
            Seq::empty()
        } else {
            seq![mismatch(expr.span, Seq::empty())]
        }),
        NodeKindS::FragmentTagS => cd + routing_upto(
            Seq::empty(),
            n.children,
            n.children.len() as int,
        ) + binder_emis(ChildrenKind::OpaqueChildren, n.children, cls, n.name_span),
        NodeKindS::ElementTagS { .. } => cd + attr_checks_upto(
            reg,
            Option::None,
            cls,
            cls.len() as int,
        ) + routing_upto(Seq::empty(), n.children, n.children.len() as int) + binder_emis(
            ChildrenKind::OpaqueChildren,
            n.children,
            cls,
            n.name_span,
        ),
        NodeKindS::ComponentTagS { name, generics } => {
            if is_routed(n) {
                match lookup_slot_spec(reg, name) {
                    Option::None => cd + seq![
                        unknown_diag(DiagKind::UnknownSlot, n.name_span, name),
                    ],
                    Option::Some(sd) => cd + attr_checks_upto(
                        reg,
                        Option::Some(sd.props),
                        cls,
                        cls.len() as int,
                    ) + required_upto(sd.props, cls, sd.props.len() as int, n.name_span)
                        + routing_upto(sd.slots, n.children, n.children.len() as int) + card_upto(
                        sd.slots,
                        n.children,
                        sd.slots.len() as int,
                        n.name_span,
                    ) + binder_emis(sd.children, n.children, cls, n.name_span),
                }
            } else {
                match lookup_component_spec(reg, name) {
                    Option::None => cd + seq![
                        unknown_diag(DiagKind::UnknownComponent, n.name_span, name),
                    ],
                    Option::Some(comp) => cd + generic_emis(generics, comp.generic_arity)
                        + attr_checks_upto(reg, Option::Some(comp.props), cls, cls.len() as int)
                        + required_upto(comp.props, cls, comp.props.len() as int, n.name_span)
                        + routing_upto(comp.slots, n.children, n.children.len() as int) + card_upto(
                        comp.slots,
                        n.children,
                        comp.slots.len() as int,
                        n.name_span,
                    ) + binder_emis(comp.children, n.children, cls, n.name_span),
                }
            }
        },
    }
}

/// Fold the emissions `emis[0..k)` through the duplicate-suppressing push.
pub open spec fn dedup_fold(emis: Seq<DiagS>, k: int) -> Seq<DiagS>
    decreases k,
{
    if k <= 0 || k > emis.len() {
        Seq::empty()
    } else {
        push_diag(dedup_fold(emis, k - 1), emis[k - 1])
    }
}

/// The diagnostics one node itself contributes, duplicates suppressed.
pub open spec fn own_diags(reg: RegistryS, n: NodeS) -> Seq<DiagS> {
    dedup_fold(own_emissions(reg, n), own_emissions(reg, n).len() as int)
}

/// The whole verdict on a subtree, in document order: the node's own
/// diagnostics, then each child subtree's in turn. Diagnostics are append
/// only; a child's findings are never filtered by the parent's.
pub open spec fn check_node_spec(reg: RegistryS, n: NodeS) -> Seq<DiagS>
    decreases n,
{
    own_diags(reg, n) + check_children_spec(reg, n.children, n.children.len() as int)
}

pub open spec fn check_children_spec(reg: RegistryS, s: Seq<NodeS>, k: int) -> Seq<DiagS>
    decreases s, k,
{
    if k <= 0 || k > s.len() {
        Seq::empty()
    } else {
        check_children_spec(reg, s, k - 1) + check_node_spec(reg, s[k - 1])
    }
}

// ---------------------------------------------------------------------------
// Executable pipeline
// ---------------------------------------------------------------------------
pub open spec fn attrs_view(v: Vec<Attribute>) -> Seq<AttrS> {
    v@.map_values(|a: Attribute| a@)
}

pub open spec fn raw_attrs_view(v: Vec<RawAttr>) -> Seq<RawAttrS> {
    v@.map_values(|a: RawAttr| a@)
}

pub open spec fn props_opt_view(p: Option<&Vec<PropSchema>>) -> Option<Seq<PropSchemaS>> {
    match p {
        Option::Some(v) => Option::Some(v@.map_values(|q: PropSchema| q@)),
        Option::None => Option::None,
    }
}

/// Move every diagnostic of `b` onto the end of `a`.
pub(crate) fn append_diags(a: &mut Vec<Diagnostic>, b: Vec<Diagnostic>)
    ensures
        diags_view(*final(a)) == diags_view(*old(a)) + diags_view(b),
{
    let ghost da = diags_view(*old(a));
    let ghost db = diags_view(b);
    let ghost av = a@;
    let ghost bv = b@;
    let mut b = b;
    a.append(&mut b);
    proof {
        assert(a@ == av + bv);
        assert forall|i: int| 0 <= i < a@.len() implies diags_view(*a)[i] == (da + db)[i] by {
            assert(diags_view(*a)[i] == a@[i]@);
            if i < av.len() {
                assert(a@[i] == av[i]);
                assert(da[i] == av[i]@);
            } else {
                assert(a@[i] == bv[i - av.len()]);
                assert(db[i - av.len()] == bv[i - av.len()]@);
            }
        }
        assert(diags_view(*a) =~= da + db);
    }
}

/// Classify a whole attribute list: the well-shaped attributes in order, and
/// the shape errors in order.
fn classify_all(attrs: &Vec<RawAttr>) -> (r: (Vec<Attribute>, Vec<Diagnostic>))
    ensures
        attrs_view(r.0) == classified(raw_attrs_view(*attrs)),
        diags_view(r.1) == classify_diags(raw_attrs_view(*attrs)),
{
    let ghost va = raw_attrs_view(*attrs);
    let mut oks: Vec<Attribute> = Vec::new();
    let mut errs: Vec<Diagnostic> = Vec::new();
    let mut i: usize = 0;
    while i < attrs.len()
        invariant
            i <= va.len(),
            va == raw_attrs_view(*attrs),
            va.len() == attrs@.len(),
            attrs_view(oks) == oks_upto(va, i as int),
            diags_view(errs) == errs_upto(va, i as int),
        decreases va.len() - i,
    {
        proof {
            assert(va[i as int] == attrs@[i as int]@);
        }
        match classify_attr(&attrs[i]) {
            Result::Ok(a) => {
                oks.push(a);
                proof {
                    assert(attrs_view(oks) =~= oks_upto(va, i + 1 as int));
                    assert(diags_view(errs) =~= errs_upto(va, i + 1 as int));
                }
            },
            Result::Err(d) => {
                errs.push(d);
                proof {
                    assert(attrs_view(oks) =~= oks_upto(va, i + 1 as int));
                    assert(diags_view(errs) =~= errs_upto(va, i + 1 as int));
                }
            },
        }
        i = i + 1;
    }
    (oks, errs)
}

/// The first well-shaped slot marker on an attribute list.
pub fn marker_of(attrs: &Vec<RawAttr>) -> (r: Option<Attribute>)
    ensures
        match r {
            Option::Some(m) => marker_from(raw_attrs_view(*attrs), 0) == Option::Some(m@),
            Option::None => marker_from(raw_attrs_view(*attrs), 0) is None,
        },
{
    let ghost va = raw_attrs_view(*attrs);
    let mut i: usize = 0;
    while i < attrs.len()
        invariant
            i <= va.len(),
            va == raw_attrs_view(*attrs),
            va.len() == attrs@.len(),
            marker_from(va, 0) == marker_from(va, i as int),
        decreases va.len() - i,
    {
        proof {
            assert(va[i as int] == attrs@[i as int]@);
        }
        match classify_attr(&attrs[i]) {
            Result::Ok(a) => {
                let keep = match &a.kind {
                    AttrKind::SlotMarkerAttr { .. } => true,
                    _ => false,
                };
                if keep {
                    return Option::Some(a);
                }
            },
            Result::Err(_) => {},
        }
        i = i + 1;
    }
    Option::None
}

/// The routing verdict on one child: `None` for a plain child, otherwise the
/// targeted field name and the marker's own range.
fn routed_info(n: &Node) -> (r: Option<(Vec<u8>, Span)>)
    ensures
        match r {
            Option::Some(p) => is_routed(n@) && p.0@ == routed_target(n@) && p.1 == marker_span(
                n@,
            ),
            Option::None => !is_routed(n@),
        },
{
    proof {
        assert(n@.attrs == raw_attrs_view(n.attrs));
    }
    match marker_of(&n.attrs) {
        Option::Some(m) => {
            let sp = m.span;
            match m.kind {
                AttrKind::SlotMarkerAttr { target: Option::Some(t) } => Option::Some((t, sp)),
                _ => {
                    let tag = match &n.kind {
                        NodeKind::ElementTag { name } => copy_bytes(name),
                        NodeKind::ComponentTag { name, .. } => copy_bytes(name),
                        _ => Vec::new(),
                    };
                    Option::Some((tag, sp))
                },
            }
        },
        Option::None => Option::None,
    }
}

fn mismatch_exec(span: Span, detail: Vec<u8>) -> (r: Diagnostic)
    ensures
        r@ == mismatch(span, detail@),
{
    Diagnostic { kind: DiagKind::TypeMismatch, span, secondary: Option::None, detail }
}

/// Check one classified attribute; see `attr_check_one`.
fn attr_check_one_exec(reg: &Registry, props: Option<&Vec<PropSchema>>, a: &Attribute) -> (r: Vec<
    Diagnostic,
>)
    ensures
        diags_view(r) == attr_check_one(reg@, props_opt_view(props), a@),
{
    let mut out: Vec<Diagnostic> = Vec::new();
    match &a.kind {
        AttrKind::PropAttr { name, value } => {
            match props {
                Option::None => {
                    if !is_renderable(&value.shape) {
                        out.push(mismatch_exec(value.span, copy_bytes(name)));
                    }
                },
                Option::Some(ps) => {
                    match lookup_prop(ps, name) {
                        Option::Some(p) => {
                            if !shape_eq(&value.shape, &p.shape) {
                                out.push(mismatch_exec(value.span, copy_bytes(name)));
                            }
                        },
                        Option::None => {
                            out.push(mismatch_exec(a.span, copy_bytes(name)));
                        },
                    }
                },
            }
        },
        AttrKind::EventAttr { name, value } => {
            if !is_event_handler(&value.shape) {
                out.push(mismatch_exec(value.span, copy_bytes(name)));
            }
        },
        AttrKind::DomPropAttr { name, value } => {
            if !is_renderable(&value.shape) {
                out.push(mismatch_exec(value.span, copy_bytes(name)));
            }
        },
        AttrKind::ClassAttr { name, value } => {
            if !is_renderable(&value.shape) {
                out.push(mismatch_exec(value.span, copy_bytes(name)));
            }
        },
        AttrKind::StyleAttr { name, value } => {
            if !is_renderable(&value.shape) {
                out.push(mismatch_exec(value.span, copy_bytes(name)));
            }
        },
        AttrKind::SpreadAttr { value } => {
            if !shape_eq(&value.shape, &TypeShape::AttrListShape) {
                out.push(mismatch_exec(value.span, Vec::new()));
            }
        },
        AttrKind::DirectiveAttr { name, value } => {
            match lookup_directive(reg, name) {
                Option::None => {},
                Option::Some(dd) => {
                    match (&dd.param, value) {
                        (Option::None, Option::None) => {},
                        (Option::None, Option::Some(v)) => {
                            out.push(mismatch_exec(v.span, copy_bytes(name)));
                        },
                        (Option::Some(_), Option::None) => {
                            out.push(mismatch_exec(a.span, copy_bytes(name)));
                        },
                        (Option::Some(t), Option::Some(v)) => {
                            if !shape_eq(&v.shape, t) {
                                out.push(mismatch_exec(v.span, copy_bytes(name)));
                            }
                        },
                    }
                },
            }
        },
        _ => {},
    }
    proof {
        assert(diags_view(out) =~= attr_check_one(reg@, props_opt_view(props), a@));
    }
    out
}

/// Run the per-attribute checks over a classified list.
fn attr_checks_exec(reg: &Registry, props: Option<&Vec<PropSchema>>, cls: &Vec<Attribute>) -> (r:
    Vec<Diagnostic>)
    ensures
        diags_view(r) == attr_checks_upto(
            reg@,
            props_opt_view(props),
            attrs_view(*cls),
            cls@.len() as int,
        ),
{
    let ghost cv = attrs_view(*cls);
    let mut out: Vec<Diagnostic> = Vec::new();
    let mut i: usize = 0;
    while i < cls.len()
        invariant
            i <= cv.len(),
            cv == attrs_view(*cls),
            cv.len() == cls@.len(),
            diags_view(out) == attr_checks_upto(reg@, props_opt_view(props), cv, i as int),
        decreases cv.len() - i,
    {
        proof {
            assert(cv[i as int] == cls@[i as int]@);
        }
        let one = attr_check_one_exec(reg, props, &cls[i]);
        append_diags(&mut out, one);
        i = i + 1;
    }
    out
}

/// Whether a plain prop named `name` is supplied.
fn provided_exec(cls: &Vec<Attribute>, name: &Vec<u8>) -> (r: bool)
    ensures
        r == provided_from(attrs_view(*cls), name@, 0),
{
    let ghost cv = attrs_view(*cls);
    let mut i: usize = 0;
    while i < cls.len()
        invariant
            i <= cv.len(),
            cv == attrs_view(*cls),
            cv.len() == cls@.len(),
            provided_from(cv, name@, 0) == provided_from(cv, name@, i as int),
        decreases cv.len() - i,
    {
        proof {
            assert(cv[i as int] == cls@[i as int]@);
        }
        match &cls[i].kind {
            AttrKind::PropAttr { name: pn, .. } => {
                if bytes_eq(pn, name) {
                    return true;
                }
            },
            _ => {},
        }
        i = i + 1;
    }
    false
}

/// A `MissingField` for every required prop no plain prop supplies.
fn required_exec(props: &Vec<PropSchema>, cls: &Vec<Attribute>, name_span: Span) -> (r: Vec<
    Diagnostic,
>)
    ensures
        diags_view(r) == required_upto(
            props@.map_values(|p: PropSchema| p@),
            attrs_view(*cls),
            props@.len() as int,
            name_span,
        ),
{
    let ghost pv = props@.map_values(|p: PropSchema| p@);
    let ghost cv = attrs_view(*cls);
    let mut out: Vec<Diagnostic> = Vec::new();
    let mut i: usize = 0;
    while i < props.len()
        invariant
            i <= pv.len(),
            pv == props@.map_values(|p: PropSchema| p@),
            cv == attrs_view(*cls),
            pv.len() == props@.len(),
            diags_view(out) == required_upto(pv, cv, i as int, name_span),
        decreases pv.len() - i,
    {
        proof {
            assert(pv[i as int] == props@[i as int]@);
        }
        if props[i].required && !provided_exec(cls, &props[i].name) {
            out.push(
                Diagnostic {
                    kind: DiagKind::MissingField,
                    span: name_span,
                    secondary: Option::None,
                    detail: copy_bytes(&props[i].name),
                },
            );
        }
        proof {
            assert(diags_view(out) =~= required_upto(pv, cv, i + 1 as int, name_span));
        }
        i = i + 1;
    }
    out
}

/// Routing checks for one child; see `routing_one`.
fn routing_one_exec(fields: &Vec<SlotField>, child: &Node) -> (r: Vec<Diagnostic>)
    ensures
        diags_view(r) == routing_one(fields@.map_values(|f: SlotField| f@), child@),
{
    let mut out: Vec<Diagnostic> = Vec::new();
    match routed_info(child) {
        Option::None => {},
        Option::Some((target, msp)) => {
            match lookup_field(fields, &target) {
                Option::None => {
                    out.push(
                        Diagnostic {
                            kind: DiagKind::UndefinedSlot,
                            span: msp,
                            secondary: Option::None,
                            detail: target,
                        },
                    );
                },
                Option::Some(f) => {
                    let tag = match &child.kind {
                        NodeKind::ElementTag { name } => copy_bytes(name),
                        NodeKind::ComponentTag { name, .. } => copy_bytes(name),
                        _ => Vec::new(),
                    };
                    if !bytes_eq(&tag, &f.accepts) {
                        out.push(mismatch_exec(child.name_span, copy_bytes(&f.name)));
                    }
                },
            }
        },
    }
    proof {
        assert(child@.name_span == child.name_span);
        assert(diags_view(out) =~= routing_one(fields@.map_values(|f: SlotField| f@), child@));
    }
    out
}

/// Routing checks over a whole child list.
fn routing_exec(fields: &Vec<SlotField>, children: &Vec<Node>) -> (r: Vec<Diagnostic>)
    ensures
        diags_view(r) == routing_upto(
            fields@.map_values(|f: SlotField| f@),
            crate::tree::children_view(children@, children@.len() as int),
            children@.len() as int,
        ),
{
    let ghost fv = fields@.map_values(|f: SlotField| f@);
    let ghost chv = crate::tree::children_view(children@, children@.len() as int);
    proof {
        crate::tree::lemma_children_view(children@, children@.len() as int);
    }
    let mut out: Vec<Diagnostic> = Vec::new();
    let mut i: usize = 0;
    while i < children.len()
        invariant
            i <= chv.len(),
            fv == fields@.map_values(|f: SlotField| f@),
            chv == crate::tree::children_view(children@, children@.len() as int),
            chv.len() == children@.len(),
            forall|j: int| 0 <= j < chv.len() ==> chv[j] == crate::tree::node_view(children@[j]),
            diags_view(out) == routing_upto(fv, chv, i as int),
        decreases chv.len() - i,
    {
        let one = routing_one_exec(fields, &children[i]);
        append_diags(&mut out, one);
        i = i + 1;
    }
    out
}

/// An `UnexpectedChildren` for every plain child.
fn unexpected_exec(children: &Vec<Node>) -> (r: Vec<Diagnostic>)
    ensures
        diags_view(r) == unexpected_upto(
            crate::tree::children_view(children@, children@.len() as int),
            children@.len() as int,
        ),
{
    let ghost chv = crate::tree::children_view(children@, children@.len() as int);
    proof {
        crate::tree::lemma_children_view(children@, children@.len() as int);
    }
    let mut out: Vec<Diagnostic> = Vec::new();
    let mut i: usize = 0;
    while i < children.len()
        invariant
            i <= chv.len(),
            chv == crate::tree::children_view(children@, children@.len() as int),
            chv.len() == children@.len(),
            forall|j: int| 0 <= j < chv.len() ==> chv[j] == crate::tree::node_view(children@[j]),
            diags_view(out) == unexpected_upto(chv, i as int),
        decreases chv.len() - i,
    {
        match routed_info(&children[i]) {
            Option::Some(_) => {},
            Option::None => {
                out.push(
                    Diagnostic {
                        kind: DiagKind::UnexpectedChildren,
                        span: children[i].span,
                        secondary: Option::None,
                        detail: Vec::new(),
                    },
                );
            },
        }
        proof {
            assert(diags_view(out) =~= unexpected_upto(chv, i + 1 as int));
        }
        i = i + 1;
    }
    out
}

/// The cardinality verdict for one declared field; see `card_one`.
fn card_one_exec(children: &Vec<Node>, f: &SlotField, name_span: Span) -> (r: Vec<Diagnostic>)
    ensures
        diags_view(r) == card_one(
            crate::tree::children_view(children@, children@.len() as int),
            f@,
            name_span,
        ),
{
    let ghost chv = crate::tree::children_view(children@, children@.len() as int);
    proof {
        crate::tree::lemma_children_view(children@, children@.len() as int);
    }
    let mut excess: Vec<Diagnostic> = Vec::new();
    let mut cnt: usize = 0;
    let mut i: usize = 0;
    while i < children.len()
        invariant
            i <= chv.len(),
            chv == crate::tree::children_view(children@, children@.len() as int),
            chv.len() == children@.len(),
            forall|j: int| 0 <= j < chv.len() ==> chv[j] == crate::tree::node_view(children@[j]),
            cnt as nat == count_to(chv, i as int, f@.name),
            cnt <= i,
            diags_view(excess) == excess_upto(chv, i as int, f@.name),
        decreases chv.len() - i,
    {
        match routed_info(&children[i]) {
            Option::Some((t, _)) => {
                if bytes_eq(&t, &f.name) {
                    if cnt >= 1 {
                        excess.push(
                            Diagnostic {
                                kind: DiagKind::SlotCardinalityExceeded,
                                span: children[i].span,
                                secondary: Option::None,
                                detail: copy_bytes(&f.name),
                            },
                        );
                    }
                    cnt = cnt + 1;
                }
            },
            Option::None => {},
        }
        proof {
            assert(diags_view(excess) =~= excess_upto(chv, i + 1 as int, f@.name));
        }
        i = i + 1;
    }
    let exactly_one = match f.card {
        Cardinality::ExactlyOne => true,
        _ => false,
    };
    let bounded = match f.card {
        Cardinality::ExactlyOne => true,
        Cardinality::AtMostOne => true,
        Cardinality::ZeroOrMore => false,
    };
    let mut out: Vec<Diagnostic> = Vec::new();
    if exactly_one && cnt == 0 {
        out.push(
            Diagnostic {
                kind: DiagKind::SlotMissing,
                span: name_span,
                secondary: Option::None,
                detail: copy_bytes(&f.name),
            },
        );
    }
    if bounded {
        append_diags(&mut out, excess);
    }
    proof {
        assert(diags_view(out) =~= card_one(chv, f@, name_span));
    }
    out
}

/// Cardinality verdicts over every declared field.
fn card_exec(fields: &Vec<SlotField>, children: &Vec<Node>, name_span: Span) -> (r: Vec<Diagnostic>)
    ensures
        diags_view(r) == card_upto(
            fields@.map_values(|f: SlotField| f@),
            crate::tree::children_view(children@, children@.len() as int),
            fields@.len() as int,
            name_span,
        ),
{
    let ghost fv = fields@.map_values(|f: SlotField| f@);
    let ghost chv = crate::tree::children_view(children@, children@.len() as int);
    let mut out: Vec<Diagnostic> = Vec::new();
    let mut i: usize = 0;
    while i < fields.len()
        invariant
            i <= fv.len(),
            fv == fields@.map_values(|f: SlotField| f@),
            chv == crate::tree::children_view(children@, children@.len() as int),
            fv.len() == fields@.len(),
            diags_view(out) == card_upto(fv, chv, i as int, name_span),
        decreases fv.len() - i,
    {
        proof {
            assert(fv[i as int] == fields@[i as int]@);
        }
        let one = card_one_exec(children, &fields[i], name_span);
        append_diags(&mut out, one);
        i = i + 1;
    }
    out
}

/// `lets_hull` is indifferent to elements past `k`.
proof fn lemma_hull_prefix(s: Seq<AttrS>, x: AttrS, k: int)
    requires
        0 <= k <= s.len(),
    ensures
        lets_hull(s.push(x), k) == lets_hull(s, k),
    decreases k,
{
    if k > 1 {
        lemma_hull_prefix(s, x, k - 1);
    }
}

/// `bindings_total` is indifferent to elements past `k`.
proof fn lemma_total_prefix(s: Seq<AttrS>, x: AttrS, k: int)
    requires
        0 <= k <= s.len(),
    ensures
        bindings_total(s.push(x), k) == bindings_total(s, k),
    decreases k,
{
    if k > 0 {
        lemma_total_prefix(s, x, k - 1);
    }
}

pub const BIND_CAP: u64 = 0x1_0000_0000;

fn binding_diag_exec(kind: DiagKind, span: Span) -> (r: Diagnostic)
    ensures
        r@ == binding_diag(kind, span),
{
    Diagnostic { kind, span, secondary: Option::None, detail: Vec::new() }
}

/// The children-binder verdict; see `binder_emis`.
fn binder_exec(
    kind: ChildrenKind,
    children: &Vec<Node>,
    cls: &Vec<Attribute>,
    name_span: Span,
) -> (r: Vec<Diagnostic>)
    ensures
        diags_view(r) == binder_emis(
            kind,
            crate::tree::children_view(children@, children@.len() as int),
            attrs_view(*cls),
            name_span,
        ),
{
    let ghost cv = attrs_view(*cls);
    let ghost chv = crate::tree::children_view(children@, children@.len() as int);
    proof {
        crate::tree::lemma_children_view(children@, children@.len() as int);
    }
    let mut nlets: usize = 0;
    let mut hull: Span = Span { lo: 0, hi: 0 };
    let mut total: u64 = 0;
    let mut i: usize = 0;
    while i < cls.len()
        invariant
            i <= cv.len(),
            cv == attrs_view(*cls),
            cv.len() == cls@.len(),
            nlets <= i,
            nlets == lets_upto(cv, i as int).len(),
            nlets >= 1 ==> hull == lets_hull(
                lets_upto(cv, i as int),
                lets_upto(cv, i as int).len() as int,
            ),
            total <= 2 * BIND_CAP,
            bindings_total(lets_upto(cv, i as int), lets_upto(cv, i as int).len() as int)
                < BIND_CAP ==> total == bindings_total(
                lets_upto(cv, i as int),
                lets_upto(cv, i as int).len() as int,
            ),
            bindings_total(lets_upto(cv, i as int), lets_upto(cv, i as int).len() as int)
                >= BIND_CAP ==> total >= BIND_CAP,
        decreases cv.len() - i,
    {
        proof {
            assert(cv[i as int] == cls@[i as int]@);
        }
        let ghost lets_old = lets_upto(cv, i as int);
        match &cls[i].kind {
            AttrKind::ChildrenLetAttr { bindings } => {
                let ghost lets_new = lets_upto(cv, i + 1 as int);
                proof {
                    assert(lets_new =~= lets_old.push(cv[i as int]));
                    lemma_hull_prefix(lets_old, cv[i as int], lets_old.len() as int);
                    lemma_total_prefix(lets_old, cv[i as int], lets_old.len() as int);
                    assert(bindings@.map_values(|b: Vec<u8>| b@).len() == bindings@.len());
                }
                if nlets == 0 {
                    hull = cls[i].span;
                } else {
                    hull = span_hull(hull, cls[i].span);
                }
                nlets = nlets + 1;
                let bl = bindings.len();
                let add: u64 = if bl as u64 >= BIND_CAP {
                    BIND_CAP
                } else {
                    bl as u64
                };
                if total < BIND_CAP {
                    total = total + add;
                }
            },
            _ => {
                proof {
                    assert(lets_upto(cv, i + 1 as int) =~= lets_old);
                }
            },
        }
        i = i + 1;
    }
    let ghost lets = lets_upto(cv, cv.len() as int);
    let mut out: Vec<Diagnostic> = Vec::new();
    let ghost hull_s = lets_hull(lets, lets.len() as int);
    match kind {
        ChildrenKind::NoChildren => {
            let unx = unexpected_exec(children);
            append_diags(&mut out, unx);
            if nlets > 0 {
                out.push(binding_diag_exec(DiagKind::UnexpectedChildrenBinding, hull));
                proof {
                    assert(diags_view(out) =~= unexpected_upto(chv, chv.len() as int) + seq![
                        binding_diag(DiagKind::UnexpectedChildrenBinding, hull_s),
                    ]);
                }
            } else {
                proof {
                    assert(diags_view(out) =~= unexpected_upto(chv, chv.len() as int)
                        + Seq::<DiagS>::empty());
                }
            }
        },
        ChildrenKind::OpaqueChildren => {
            if nlets > 0 {
                out.push(binding_diag_exec(DiagKind::UnexpectedChildrenBinding, hull));
                proof {
                    assert(diags_view(out) =~= seq![
                        binding_diag(DiagKind::UnexpectedChildrenBinding, hull_s),
                    ]);
                }
            }
        },
        ChildrenKind::ClosureChildren { arity } => {
            let ghost gt = bindings_total(lets, lets.len() as int);
            if nlets == 0 {
                if arity >= 1 {
                    out.push(binding_diag_exec(DiagKind::MissingChildrenBinding, name_span));
                    proof {
                        assert(diags_view(out) =~= seq![
                            binding_diag(DiagKind::MissingChildrenBinding, name_span),
                        ]);
                    }
                }
            } else {
                proof {
                    assert((arity as u64) < BIND_CAP);
                    assert((total == arity as u64) == (gt == arity));
                }
                if total != arity as u64 {
                    out.push(binding_diag_exec(DiagKind::ChildrenArityMismatch, hull));
                    proof {
                        assert(diags_view(out) =~= seq![
                            binding_diag(DiagKind::ChildrenArityMismatch, hull_s),
                        ]);
                    }
                }
            }
        },
    }
    proof {
        assert(diags_view(out) =~= binder_emis(kind, chv, cv, name_span));
    }
    out
}

/// Everything this node itself has to say, undeduplicated; see
/// `own_emissions`.
fn own_emissions_exec(reg: &Registry, n: &Node) -> (r: Vec<Diagnostic>)
    ensures
        diags_view(r) == own_emissions(reg@, n@),
{
    proof {
        assert(n@.attrs =~= raw_attrs_view(n.attrs));
        assert(n@.children == crate::tree::children_view(n.children@, n.children@.len() as int));
        crate::tree::lemma_children_view(n.children@, n.children@.len() as int);
    }
    let (cls, mut out) = classify_all(&n.attrs);
    let empty_fields: Vec<SlotField> = Vec::new();
    match &n.kind {
        NodeKind::TextLeaf { .. } => {
            proof {
                assert(diags_view(out) =~= own_emissions(reg@, n@));
            }
            out
        },
        NodeKind::ExprLeaf { expr } => {
            if !is_renderable(&expr.shape) {
                out.push(mismatch_exec(expr.span, Vec::new()));
            }
            proof {
                assert(diags_view(out) =~= own_emissions(reg@, n@));
            }
            out
        },
        NodeKind::FragmentTag => {
            let ro = routing_exec(&empty_fields, &n.children);
            append_diags(&mut out, ro);
            let bi = binder_exec(ChildrenKind::OpaqueChildren, &n.children, &cls, n.name_span);
            append_diags(&mut out, bi);
            proof {
                assert(empty_fields@.map_values(|f: SlotField| f@) =~= Seq::<SlotFieldS>::empty());
                assert(diags_view(out) =~= own_emissions(reg@, n@));
            }
            out
        },
        NodeKind::ElementTag { .. } => {
            let ac = attr_checks_exec(reg, Option::None, &cls);
            append_diags(&mut out, ac);
            let ro = routing_exec(&empty_fields, &n.children);
            append_diags(&mut out, ro);
            let bi = binder_exec(ChildrenKind::OpaqueChildren, &n.children, &cls, n.name_span);
            append_diags(&mut out, bi);
            proof {
                assert(empty_fields@.map_values(|f: SlotField| f@) =~= Seq::<SlotFieldS>::empty());
                assert(diags_view(out) =~= own_emissions(reg@, n@));
            }
            out
        },
        NodeKind::ComponentTag { name, generics } => {
            let routed = match marker_of(&n.attrs) {
                Option::Some(_) => true,
                Option::None => false,
            };
            if routed {
                match lookup_slot(reg, name) {
                    Option::None => {
                        out.push(
                            Diagnostic {
                                kind: DiagKind::UnknownSlot,
                                span: n.name_span,
                                secondary: Option::None,
                                detail: copy_bytes(name),
                            },
                        );
                        proof {
                            assert(diags_view(out) =~= own_emissions(reg@, n@));
                        }
                        out
                    },
                    Option::Some(sd) => {
                        let ac = attr_checks_exec(reg, Option::Some(&sd.props), &cls);
                        append_diags(&mut out, ac);
                        let rq = required_exec(&sd.props, &cls, n.name_span);
                        append_diags(&mut out, rq);
                        let ro = routing_exec(&sd.slots, &n.children);
                        append_diags(&mut out, ro);
                        let ca = card_exec(&sd.slots, &n.children, n.name_span);
                        append_diags(&mut out, ca);
                        let bi = binder_exec(sd.children, &n.children, &cls, n.name_span);
                        append_diags(&mut out, bi);
                        proof {
                            assert(diags_view(out) =~= own_emissions(reg@, n@));
                        }
                        out
                    },
                }
            } else {
                match lookup_component(reg, name) {
                    Option::None => {
                        out.push(
                            Diagnostic {
                                kind: DiagKind::UnknownComponent,
                                span: n.name_span,
                                secondary: Option::None,
                                detail: copy_bytes(name),
                            },
                        );
                        proof {
                            assert(diags_view(out) =~= own_emissions(reg@, n@));
                        }
                        out
                    },
                    Option::Some(comp) => {
                        match generics {
                            Option::Some(g) => {
                                if g.args.len() != comp.generic_arity {
                                    out.push(
                                        Diagnostic {
                                            kind: DiagKind::GenericArityMismatch,
                                            span: g.span,
                                            secondary: Option::None,
                                            detail: Vec::new(),
                                        },
                                    );
                                }
                            },
                            Option::None => {},
                        }
                        let ac = attr_checks_exec(reg, Option::Some(&comp.props), &cls);
                        append_diags(&mut out, ac);
                        let rq = required_exec(&comp.props, &cls, n.name_span);
                        append_diags(&mut out, rq);
                        let ro = routing_exec(&comp.slots, &n.children);
                        append_diags(&mut out, ro);
                        let ca = card_exec(&comp.slots, &n.children, n.name_span);
                        append_diags(&mut out, ca);
                        let bi = binder_exec(comp.children, &n.children, &cls, n.name_span);
                        append_diags(&mut out, bi);
                        proof {
                            assert(diags_view(out) =~= own_emissions(reg@, n@));
                        }
                        out
                    },
                }
            }
        },
    }
}

/// This node's own diagnostics, exact duplicates suppressed; see `own_diags`.
pub fn own_diags_exec(reg: &Registry, n: &Node) -> (r: Vec<Diagnostic>)
    ensures
        diags_view(r) == own_diags(reg@, n@),
{
    let emis = own_emissions_exec(reg, n);
    let ghost ev = diags_view(emis);
    let mut out: Vec<Diagnostic> = Vec::new();
    let mut i: usize = 0;
    while i < emis.len()
        invariant
            i <= ev.len(),
            ev == diags_view(emis),
            ev.len() == emis@.len(),
            diags_view(out) == dedup_fold(ev, i as int),
        decreases ev.len() - i,
    {
        proof {
            assert(ev[i as int] == emis@[i as int]@);
        }
        let d = emis[i].clone();
        push_diag_exec(&mut out, d);
        i = i + 1;
    }
    out
}

/// Resolve one subtree: every diagnostic of the node and of its children, in
/// document order. This is the whole pass: it never aborts on a local fault,
/// and a fault in one branch never hides one in a sibling branch.
pub fn check_node(reg: &Registry, n: &Node) -> (r: Vec<Diagnostic>)
    ensures
        diags_view(r) == check_node_spec(reg@, n@),
    decreases *n,
{
    let ghost chv = n@.children;
    proof {
        assert(n@.children == crate::tree::children_view(n.children@, n.children@.len() as int));
        crate::tree::lemma_children_view(n.children@, n.children@.len() as int);
    }
    let mut out = own_diags_exec(reg, n);
    let mut i: usize = 0;
    while i < n.children.len()
        invariant
            i <= chv.len(),
            chv == n@.children,
            chv.len() == n.children@.len(),
            forall|j: int| 0 <= j < chv.len() ==> chv[j] == crate::tree::node_view(
                n.children@[j],
            ),
            diags_view(out) == own_diags(reg@, n@) + check_children_spec(reg@, chv, i as int),
        decreases chv.len() - i,
    {
        let sub = check_node(reg, &n.children[i]);
        append_diags(&mut out, sub);
        proof {
            assert(diags_view(out) =~= own_diags(reg@, n@) + check_children_spec(
                reg@,
                chv,
                i + 1 as int,
            ));
        }
        i = i + 1;
    }
    proof {
        assert(diags_view(out) =~= check_node_spec(reg@, n@));
    }
    out
}

} // verus!
