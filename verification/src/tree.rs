use vstd::prelude::*;

use crate::shape::Expr;
use crate::shape::TypeShape;
use crate::span::span_disjoint;
use crate::span::span_in;
use crate::span::span_wf;
use crate::span::Span;

verus! {

/// An explicit generic-argument list on a tag, such as `<Name<T1,T2>>`, with
/// the range the list occupies.
pub struct GenericArgs {
    pub args: Vec<TypeShape>,
    pub span: Span,
}

pub ghost struct GenericArgsS {
    pub args: Seq<TypeShape>,
    pub span: Span,
}

impl View for GenericArgs {
    type V = GenericArgsS;

    open spec fn view(&self) -> GenericArgsS {
        GenericArgsS { args: self.args@, span: self.span }
    }
}

/// One attribute as the parser saw it: the full name (prefix included), any
/// trailing identifiers, an optional value expression, and its own range.
pub struct RawAttr {
    pub name: Vec<u8>,
    pub idents: Vec<Vec<u8>>,
    pub value: Option<Expr>,
    pub span: Span,
}

pub ghost struct RawAttrS {
    pub name: Seq<u8>,
    pub idents: Seq<Seq<u8>>,
    pub value: Option<Expr>,
    pub span: Span,
}

impl View for RawAttr {
    type V = RawAttrS;

    open spec fn view(&self) -> RawAttrS {
        RawAttrS {
            name: self.name@,
            idents: self.idents@.map_values(|v: Vec<u8>| v@),
            value: self.value,
            span: self.span,
        }
    }
}

/// What stands at a node: a host element tag, a component tag (a child
/// component tag carrying a slot marker is resolved against the slot
/// registry), a fragment, literal text, or an inline expression.
pub enum NodeKind {
    ElementTag { name: Vec<u8> },
    ComponentTag { name: Vec<u8>, generics: Option<GenericArgs> },
    FragmentTag,
    TextLeaf { text: Vec<u8> },
    ExprLeaf { expr: Expr },
}

pub ghost enum NodeKindS {
    ElementTagS { name: Seq<u8> },
    ComponentTagS { name: Seq<u8>, generics: Option<GenericArgsS> },
    FragmentTagS,
    TextLeafS { text: Seq<u8> },
    ExprLeafS { expr: Expr },
}

impl View for NodeKind {
    type V = NodeKindS;

    open spec fn view(&self) -> NodeKindS {
        match self {
            NodeKind::ElementTag { name } => NodeKindS::ElementTagS { name: name@ },
            NodeKind::ComponentTag { name, generics } => NodeKindS::ComponentTagS {
                name: name@,
                generics: match generics {
                    Option::Some(g) => Option::Some(g@),
                    Option::None => Option::None,
                },
            },
            NodeKind::FragmentTag => NodeKindS::FragmentTagS,
            NodeKind::TextLeaf { text } => NodeKindS::TextLeafS { text: text@ },
            NodeKind::ExprLeaf { expr } => NodeKindS::ExprLeafS { expr: *expr },
        }
    }
}

/// One node of the annotated syntax tree. `span` covers the whole node,
/// `name_span` only the tag name (diagnostics about the tag anchor there);
/// attributes and children keep document order.
pub struct Node {
    pub kind: NodeKind,
    pub span: Span,
    pub name_span: Span,
    pub attrs: Vec<RawAttr>,
    pub children: Vec<Node>,
}

pub ghost struct NodeS {
    pub kind: NodeKindS,
    pub span: Span,
    pub name_span: Span,
    pub attrs: Seq<RawAttrS>,
    pub children: Seq<NodeS>,
}

pub open spec fn node_view(n: Node) -> NodeS
    decreases n,
{
    NodeS {
        kind: n.kind@,
        span: n.span,
        name_span: n.name_span,
        attrs: n.attrs@.map_values(|a: RawAttr| a@),
        children: children_view(n.children@, n.children@.len() as int),
    }
}

pub open spec fn children_view(s: Seq<Node>, k: int) -> Seq<NodeS>
    decreases s, k,
{
    if k <= 0 || k > s.len() {
        Seq::empty()
    } else {
        children_view(s, k - 1).push(node_view(s[k - 1]))
    }
}

impl View for Node {
    type V = NodeS;

    open spec fn view(&self) -> NodeS {
        node_view(*self)
    }
}

pub proof fn lemma_children_view(s: Seq<Node>, k: int)
    requires
        0 <= k <= s.len(),
    ensures
        children_view(s, k).len() == k,
        forall|i: int| 0 <= i < k ==> children_view(s, k)[i] == node_view(s[i]),
    decreases k,
{
    if k > 0 {
        lemma_children_view(s, k - 1);
    }
}

/// `children_view` is indifferent to elements past `k`.
pub proof fn lemma_children_view_prefix(s: Seq<Node>, x: Node, k: int)
    requires
        0 <= k <= s.len(),
    ensures
        children_view(s.push(x), k) == children_view(s, k),
    decreases k,
{
    if k > 0 {
        lemma_children_view_prefix(s, x, k - 1);
    }
}

/// A raw attribute's own range covers its value's range.
pub open spec fn attr_wf(a: RawAttrS) -> bool {
    &&& span_wf(a.span)
    &&& match a.value {
        Option::Some(e) => span_wf(e.span) && span_in(e.span, a.span),
        Option::None => true,
    }
}

/// Spans nest by depth and siblings occupy disjoint source: a node's range
/// covers its tag name, each attribute (which covers its value), and each
/// child; distinct children never overlap. Set at parse time and kept through
/// every later stage.
pub open spec fn node_wf(n: NodeS) -> bool
    decreases n,
{
    &&& span_wf(n.span)
    &&& span_wf(n.name_span)
    &&& span_in(n.name_span, n.span)
    &&& (match n.kind {
        NodeKindS::ComponentTagS { generics: Option::Some(g), .. } => span_in(g.span, n.span),
        NodeKindS::ExprLeafS { expr } => span_in(expr.span, n.span),
        _ => true,
    })
    &&& (forall|i: int|
        0 <= i < n.attrs.len() ==> attr_wf(#[trigger] n.attrs[i]) && span_in(
            n.attrs[i].span,
            n.span,
        ))
    &&& (forall|i: int|
        0 <= i < n.children.len() ==> span_in((#[trigger] n.children[i]).span, n.span))
    &&& (forall|i: int, j: int|
        0 <= i < j < n.children.len() ==> span_disjoint(
            (#[trigger] n.children[i]).span,
            (#[trigger] n.children[j]).span,
        ))
    &&& children_all_wf(n.children, n.children.len() as int)
}

pub open spec fn children_all_wf(s: Seq<NodeS>, k: int) -> bool
    decreases s, k,
{
    if k <= 0 || k > s.len() {
        true
    } else {
        children_all_wf(s, k - 1) && node_wf(s[k - 1])
    }
}

pub proof fn lemma_children_all_wf(s: Seq<NodeS>, k: int)
    requires
        0 <= k <= s.len(),
        children_all_wf(s, k),
    ensures
        forall|i: int| 0 <= i < k ==> node_wf(#[trigger] s[i]),
    decreases k,
{
    if k > 0 {
        lemma_children_all_wf(s, k - 1);
    }
}

/// The tag name of a node, when it carries one.
pub open spec fn node_tag(n: NodeS) -> Option<Seq<u8>> {
    match n.kind {
        NodeKindS::ElementTagS { name } => Option::Some(name),
        NodeKindS::ComponentTagS { name, .. } => Option::Some(name),
        _ => Option::None,
    }
}

/// The ordered structure of a tree with every range and typing detail
/// forgotten: tag or text, attribute names in order, children in order. The
/// round-trip law says resolution and lowering preserve it exactly.
pub ghost struct SkeletonS {
    pub tag: Seq<u8>,
    pub attr_names: Seq<Seq<u8>>,
    pub children: Seq<SkeletonS>,
}

pub open spec fn node_skeleton(n: NodeS) -> SkeletonS
    decreases n,
{
    SkeletonS {
        tag: match n.kind {
            NodeKindS::ElementTagS { name } => name,
            NodeKindS::ComponentTagS { name, .. } => name,
            NodeKindS::FragmentTagS => Seq::empty(),
            NodeKindS::TextLeafS { text } => text,
            NodeKindS::ExprLeafS { .. } => Seq::empty(),
        },
        attr_names: n.attrs.map_values(|a: RawAttrS| a.name),
        children: skeleton_children(n.children, n.children.len() as int),
    }
}

pub open spec fn skeleton_children(s: Seq<NodeS>, k: int) -> Seq<SkeletonS>
    decreases s, k,
{
    if k <= 0 || k > s.len() {
        Seq::empty()
    } else {
        skeleton_children(s, k - 1).push(node_skeleton(s[k - 1]))
    }
}

pub proof fn lemma_skeleton_children(s: Seq<NodeS>, k: int)
    requires
        0 <= k <= s.len(),
    ensures
        skeleton_children(s, k).len() == k,
        forall|i: int| 0 <= i < k ==> skeleton_children(s, k)[i] == node_skeleton(s[i]),
    decreases k,
{
    if k > 0 {
        lemma_skeleton_children(s, k - 1);
    }
}

} // verus!
