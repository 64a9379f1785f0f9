use vstd::prelude::*;

use crate::diag::diags_view;
use crate::diag::DiagKind;
use crate::diag::DiagS;
use crate::diag::Diagnostic;
use crate::shape::shape_eq;
use crate::shape::Expr;
use crate::shape::TypeShape;
use crate::span::Span;
use crate::text::bytes_eq;
use crate::text::copy_bytes;
use crate::text::UPPER_A;
use crate::text::UPPER_Z;
use crate::tree::attr_wf;
use crate::tree::children_all_wf;
use crate::tree::children_view;
use crate::tree::node_wf;
use crate::tree::GenericArgs;
use crate::tree::GenericArgsS;
use crate::tree::Node;
use crate::tree::NodeKind;
use crate::tree::NodeKindS;
use crate::tree::NodeS;
use crate::tree::RawAttr;
use crate::tree::RawAttrS;

verus! {

/// One token of a DSL invocation body. The stream is the parser's whole
/// input: tag punctuation, names, explicit generic lists, whole attributes,
/// literal text and inline expressions, each carrying its source range.
pub enum Token {
    OpenTag { span: Span },
    CloseTag { span: Span },
    EndTag { span: Span },
    SelfEnd { span: Span },
    NameTok { name: Vec<u8>, span: Span },
    GenericsTok { args: GenericArgs },
    AttrTok { attr: RawAttr },
    TextTok { text: Vec<u8>, span: Span },
    ExprTok { expr: Expr },
}

/// The mathematical value of a [`Token`].
pub ghost enum TokenS {
    OpenTagS { span: Span },
    CloseTagS { span: Span },
    EndTagS { span: Span },
    SelfEndS { span: Span },
    NameTokS { name: Seq<u8>, span: Span },
    GenericsTokS { args: GenericArgsS },
    AttrTokS { attr: RawAttrS },
    TextTokS { text: Seq<u8>, span: Span },
    ExprTokS { expr: Expr },
}

impl View for Token {
    type V = TokenS;

    open spec fn view(&self) -> TokenS {
        match self {
            Token::OpenTag { span } => TokenS::OpenTagS { span: *span },
            Token::CloseTag { span } => TokenS::CloseTagS { span: *span },
            Token::EndTag { span } => TokenS::EndTagS { span: *span },
            Token::SelfEnd { span } => TokenS::SelfEndS { span: *span },
            Token::NameTok { name, span } => TokenS::NameTokS { name: name@, span: *span },
            Token::GenericsTok { args } => TokenS::GenericsTokS { args: args@ },
            Token::AttrTok { attr } => TokenS::AttrTokS { attr: attr@ },
            Token::TextTok { text, span } => TokenS::TextTokS { text: text@, span: *span },
            Token::ExprTok { expr } => TokenS::ExprTokS { expr: *expr },
        }
    }
}

pub open spec fn tokens_view(v: Vec<Token>) -> Seq<TokenS> {
    v@.map_values(|t: Token| t@)
}

pub open spec fn tok_span_spec(t: TokenS) -> Span {
    match t {
        TokenS::OpenTagS { span } => span,
        TokenS::CloseTagS { span } => span,
        TokenS::EndTagS { span } => span,
        TokenS::SelfEndS { span } => span,
        TokenS::NameTokS { span, .. } => span,
        TokenS::GenericsTokS { args } => args.span,
        TokenS::AttrTokS { attr } => attr.span,
        TokenS::TextTokS { span, .. } => span,
        TokenS::ExprTokS { expr } => expr.span,
    }
}

pub open spec fn name_of(t: TokenS) -> Seq<u8> {
    match t {
        TokenS::NameTokS { name, .. } => name,
        _ => Seq::empty(),
    }
}

pub open spec fn gen_of(t: TokenS) -> GenericArgsS {
    match t {
        TokenS::GenericsTokS { args } => args,
        _ => GenericArgsS { args: Seq::empty(), span: Span { lo: 0, hi: 0 } },
    }
}

pub open spec fn attr_of(t: TokenS) -> RawAttrS {
    match t {
        TokenS::AttrTokS { attr } => attr,
        _ => RawAttrS {
            name: Seq::empty(),
            idents: Seq::empty(),
            value: Option::None,
            span: Span { lo: 0, hi: 0 },
        },
    }
}

pub open spec fn syntax_err_spec(span: Span, secondary: Option<Span>) -> DiagS {
    DiagS { kind: DiagKind::SyntaxError, span, secondary, detail: Seq::empty() }
}

/// A capitalized name opens a component tag; every other name (hyphenated
/// custom-element names included) opens a host element.
pub open spec fn starts_upper_spec(name: Seq<u8>) -> bool {
    name.len() >= 1 && UPPER_A <= name[0] && name[0] <= UPPER_Z
}

/// Assembly of a parsed tag node from its pieces.
pub open spec fn make_node_spec(
    is_fragment: bool,
    name: Seq<u8>,
    generics: Option<GenericArgsS>,
    name_span: Span,
    attrs: Seq<RawAttrS>,
    children: Seq<NodeS>,
    span: Span,
) -> NodeS {
    NodeS {
        kind: if is_fragment {
            NodeKindS::FragmentTagS
        } else if starts_upper_spec(name) {
            NodeKindS::ComponentTagS { name, generics }
        } else {
            NodeKindS::ElementTagS { name }
        },
        span,
        name_span,
        attrs,
        children,
    }
}

// ---------------------------------------------------------------------------
// The grammar, as functions of the token stream
// ---------------------------------------------------------------------------
pub ghost struct ParsedNode {
    pub node: NodeS,
    pub diags: Seq<DiagS>,
    pub next: int,
}

pub ghost struct ParsedSeq {
    pub nodes: Seq<NodeS>,
    pub diags: Seq<DiagS>,
    pub next: int,
    pub hi: usize,
}

pub ghost struct ParsedAttrs {
    pub attrs: Seq<RawAttrS>,
    pub next: int,
}

pub ghost struct CloseOut {
    pub diags: Seq<DiagS>,
    pub hi: usize,
    pub next: int,
}

/// The attribute run starting at `pos`: every consecutive attribute token,
/// in order, and the first position past them.
pub open spec fn attrs_scan_spec(ts: Seq<TokenS>, pos: int, acc: Seq<RawAttrS>) -> ParsedAttrs
    decreases ts.len() - pos, 0int,
{
    if 0 <= pos < ts.len() && (ts[pos] matches TokenS::AttrTokS { .. }) {
        attrs_scan_spec(ts, pos + 1, acc.push(attr_of(ts[pos])))
    } else {
        ParsedAttrs { attrs: acc, next: pos }
    }
}

/// The closing sequence of a tag, from its `</` token on: an optional
/// closing name that must match the opening name (`SyntaxError` at the
/// closing name otherwise, the opening name as the secondary range), an
/// optional repeated generic list that must agree with the opening one
/// (`CloseTagGenericMismatch` at the repeated list otherwise), and the
/// final `>`.
pub open spec fn close_spec(
    ts: Seq<TokenS>,
    p0: int,
    is_fragment: bool,
    name: Seq<u8>,
    name_span: Span,
    generics: Option<GenericArgsS>,
    hi0: usize,
) -> CloseOut {
    let hi1 = tok_span_spec(ts[p0]).hi;
    let p1 = p0 + 1;
    let step1 = if p1 < ts.len() {
        match ts[p1] {
            TokenS::NameTokS { name: cn, span } => CloseOut {
                diags: if is_fragment || cn != name {
                    seq![syntax_err_spec(span, Option::Some(name_span))]
                } else {
                    Seq::empty()
                },
                hi: span.hi,
                next: p1 + 1,
            },
            _ => CloseOut {
                diags: if !is_fragment {
                    seq![syntax_err_spec(tok_span_spec(ts[p1]), Option::Some(name_span))]
                } else {
                    Seq::empty()
                },
                hi: hi1,
                next: p1,
            },
        }
    } else {
        CloseOut { diags: Seq::empty(), hi: hi1, next: p1 }
    };
    let step2 = if step1.next < ts.len() && (ts[step1.next] matches TokenS::GenericsTokS {
        ..
    }) {
        let args = gen_of(ts[step1.next]);
        let agree = match generics {
            Option::Some(g) => args.args == g.args,
            Option::None => false,
        };
        CloseOut {
            diags: step1.diags + (if agree {
                Seq::empty()
            } else {
                seq![
                    DiagS {
                        kind: DiagKind::CloseTagGenericMismatch,
                        span: args.span,
                        secondary: match generics {
                            Option::Some(g) => Option::Some(g.span),
                            Option::None => Option::None,
                        },
                        detail: Seq::empty(),
                    },
                ]
            }),
            hi: args.span.hi,
            next: step1.next + 1,
        }
    } else {
        step1
    };
    if step2.next < ts.len() {
        match ts[step2.next] {
            TokenS::EndTagS { span } => CloseOut {
                diags: step2.diags,
                hi: span.hi,
                next: step2.next + 1,
            },
            _ => CloseOut {
                diags: step2.diags + seq![
                    syntax_err_spec(tok_span_spec(ts[step2.next]), Option::None),
                ],
                hi: step2.hi,
                next: step2.next + 1,
            },
        }
    } else {
        step2
    }
}

/// One node of the stream, starting at `pos`: a text or expression leaf, a
/// tag or fragment opened by `<`, or — for any token that cannot open a
/// node — a `SyntaxError` at that token and a degraded empty leaf, so that
/// the caller resumes on the next sibling.
pub open spec fn parse_node_spec(ts: Seq<TokenS>, pos: int) -> ParsedNode
    decreases ts.len() - pos, 1int,
{
    if pos < 0 || pos >= ts.len() {
        ParsedNode {
            node: make_node_spec(
                true,
                Seq::empty(),
                Option::None,
                Span { lo: 0, hi: 0 },
                Seq::empty(),
                Seq::empty(),
                Span { lo: 0, hi: 0 },
            ),
            diags: Seq::empty(),
            next: pos + 1,
        }
    } else {
        match ts[pos] {
            TokenS::TextTokS { text, span } => ParsedNode {
                node: NodeS {
                    kind: NodeKindS::TextLeafS { text },
                    span,
                    name_span: span,
                    attrs: Seq::empty(),
                    children: Seq::empty(),
                },
                diags: Seq::empty(),
                next: pos + 1,
            },
            TokenS::ExprTokS { expr } => ParsedNode {
                node: NodeS {
                    kind: NodeKindS::ExprLeafS { expr },
                    span: expr.span,
                    name_span: expr.span,
                    attrs: Seq::empty(),
                    children: Seq::empty(),
                },
                diags: Seq::empty(),
                next: pos + 1,
            },
            TokenS::OpenTagS { .. } => parse_tag_spec(ts, pos),
            _ => ParsedNode {
                node: NodeS {
                    kind: NodeKindS::TextLeafS { text: Seq::empty() },
                    span: tok_span_spec(ts[pos]),
                    name_span: tok_span_spec(ts[pos]),
                    attrs: Seq::empty(),
                    children: Seq::empty(),
                },
                diags: seq![syntax_err_spec(tok_span_spec(ts[pos]), Option::None)],
                next: pos + 1,
            },
        }
    }
}

/// The children of an open tag, from `pos` until the next `</` or the end
/// of the stream: the nodes and their diagnostics in order, the stopping
/// position, and the running upper bound of the consumed ranges.
pub open spec fn parse_children_spec(
    ts: Seq<TokenS>,
    pos: int,
    nodes0: Seq<NodeS>,
    diags0: Seq<DiagS>,
    hi0: usize,
) -> ParsedSeq
    decreases ts.len() - pos, 2int,
{
    if pos < 0 || pos >= ts.len() || (ts[pos] matches TokenS::CloseTagS { .. }) {
        ParsedSeq { nodes: nodes0, diags: diags0, next: pos, hi: hi0 }
    } else {
        let o = parse_node_spec(ts, pos);
        let np0 = if o.next > pos {
            o.next
        } else {
            pos + 1
        };
        let np = if np0 > ts.len() {
            ts.len() as int
        } else {
            np0
        };
        let h = if o.node.span.hi > hi0 {
            o.node.span.hi
        } else {
            hi0
        };
        parse_children_spec(ts, np, nodes0.push(o.node), diags0 + o.diags, h)
    }
}

/// A tag or fragment whose `<` stands at `pos`: optional name, optional
/// generic list, the attribute run, then either a self-closing end, a `>`
/// with children and a closing sequence, or — on a malformed head or a
/// stream that ends too early — a `SyntaxError` and a degraded node over
/// what was consumed.
pub open spec fn parse_tag_spec(ts: Seq<TokenS>, pos: int) -> ParsedNode
    decreases ts.len() - pos, 0int,
{
    let osp = tok_span_spec(ts[pos]);
    let p1 = pos + 1;
    let has_name = p1 < ts.len() && (ts[p1] matches TokenS::NameTokS { .. });
    let name = if has_name {
        name_of(ts[p1])
    } else {
        Seq::empty()
    };
    let name_span = if has_name {
        tok_span_spec(ts[p1])
    } else {
        osp
    };
    let is_fragment = !has_name;
    let hi1 = if has_name {
        tok_span_spec(ts[p1]).hi
    } else {
        osp.hi
    };
    let p2 = if has_name {
        p1 + 1
    } else {
        p1
    };
    let has_gen = !is_fragment && p2 < ts.len() && (ts[p2] matches TokenS::GenericsTokS { .. });
    let generics = if has_gen {
        Option::Some(gen_of(ts[p2]))
    } else {
        Option::None
    };
    let hi2 = if has_gen {
        gen_of(ts[p2]).span.hi
    } else {
        hi1
    };
    let p3 = if has_gen {
        p2 + 1
    } else {
        p2
    };
    let scan = attrs_scan_spec(ts, p3, Seq::empty());
    let attrs = scan.attrs;
    let hi3 = if attrs.len() > 0 {
        attrs.last().span.hi
    } else {
        hi2
    };
    let p4 = if scan.next >= p3 {
        scan.next
    } else {
        p3
    };
    if p4 < ts.len() {
        match ts[p4] {
            TokenS::SelfEndS { span } => ParsedNode {
                node: make_node_spec(
                    is_fragment,
                    name,
                    generics,
                    name_span,
                    attrs,
                    Seq::empty(),
                    Span { lo: osp.lo, hi: span.hi },
                ),
                diags: Seq::empty(),
                next: p4 + 1,
            },
            TokenS::EndTagS { span } => {
                let ch = parse_children_spec(ts, p4 + 1, Seq::empty(), Seq::empty(), span.hi);
                let pc = if ch.next >= p4 + 1 {
                    ch.next
                } else {
                    p4 + 1
                };
                if pc >= ts.len() {
                    ParsedNode {
                        node: make_node_spec(
                            is_fragment,
                            name,
                            generics,
                            name_span,
                            attrs,
                            ch.nodes,
                            Span { lo: osp.lo, hi: ch.hi },
                        ),
                        diags: ch.diags + seq![syntax_err_spec(osp, Option::None)],
                        next: pc,
                    }
                } else {
                    let cl = close_spec(ts, pc, is_fragment, name, name_span, generics, ch.hi);
                    ParsedNode {
                        node: make_node_spec(
                            is_fragment,
                            name,
                            generics,
                            name_span,
                            attrs,
                            ch.nodes,
                            Span { lo: osp.lo, hi: cl.hi },
                        ),
                        diags: ch.diags + cl.diags,
                        next: cl.next,
                    }
                }
            },
            _ => ParsedNode {
                node: make_node_spec(
                    is_fragment,
                    name,
                    generics,
                    name_span,
                    attrs,
                    Seq::empty(),
                    Span { lo: osp.lo, hi: hi3 },
                ),
                diags: seq![syntax_err_spec(tok_span_spec(ts[p4]), Option::None)],
                next: p4 + 1,
            },
        }
    } else {
        ParsedNode {
            node: make_node_spec(
                is_fragment,
                name,
                generics,
                name_span,
                attrs,
                Seq::empty(),
                Span { lo: osp.lo, hi: hi3 },
            ),
            diags: seq![syntax_err_spec(osp, Option::None)],
            next: p4,
        }
    }
}

pub ghost struct ParsedRoots {
    pub nodes: Seq<NodeS>,
    pub diags: Seq<DiagS>,
    pub next: int,
}

/// Every top-level node of the body, in order, with its diagnostics.
pub open spec fn parse_roots_spec(
    ts: Seq<TokenS>,
    pos: int,
    nodes0: Seq<NodeS>,
    diags0: Seq<DiagS>,
) -> ParsedRoots
    decreases ts.len() - pos, 2int,
{
    if pos < 0 || pos >= ts.len() {
        ParsedRoots { nodes: nodes0, diags: diags0, next: pos }
    } else {
        let o = parse_node_spec(ts, pos);
        let np0 = if o.next > pos {
            o.next
        } else {
            pos + 1
        };
        let np = if np0 > ts.len() {
            ts.len() as int
        } else {
            np0
        };
        parse_roots_spec(ts, np, nodes0.push(o.node), diags0 + o.diags)
    }
}

/// The largest upper bound among `rs[0..k)`'s ranges.
pub open spec fn roots_hi(rs: Seq<NodeS>, k: int) -> usize
    decreases k,
{
    if k <= 0 || k > rs.len() {
        0
    } else {
        let m = roots_hi(rs, k - 1);
        if rs[k - 1].span.hi > m {
            rs[k - 1].span.hi
        } else {
            m
        }
    }
}

/// The tree one DSL invocation body parses to: a single top-level node
/// stands alone, several stand under one fragment root whose range hulls
/// them, an empty body is an empty fragment.
pub open spec fn parse_root_spec(ts: Seq<TokenS>) -> NodeS {
    let ro = parse_roots_spec(ts, 0, Seq::empty(), Seq::empty());
    if ro.nodes.len() == 1 {
        ro.nodes[0]
    } else {
        let lo = if ro.nodes.len() > 0 {
            ro.nodes[0].span.lo
        } else {
            0
        };
        let m = roots_hi(ro.nodes, ro.nodes.len() as int);
        let sp = if lo <= m {
            Span { lo, hi: m }
        } else {
            Span { lo: 0, hi: 0 }
        };
        make_node_spec(true, Seq::empty(), Option::None, sp, Seq::empty(), ro.nodes, sp)
    }
}

/// The syntax diagnostics of one body, in document order.
pub open spec fn parse_diags_spec(ts: Seq<TokenS>) -> Seq<DiagS> {
    parse_roots_spec(ts, 0, Seq::empty(), Seq::empty()).diags
}

// ---------------------------------------------------------------------------
// The executable parser, pinned to the grammar above
// ---------------------------------------------------------------------------
impl Clone for RawAttr {
    fn clone(&self) -> (r: Self)
        ensures
            r@ == self@,
    {
        let mut idents: Vec<Vec<u8>> = Vec::new();
        let mut i: usize = 0;
        while i < self.idents.len()
            invariant
                i <= self.idents@.len(),
                idents@.len() == i,
                forall|j: int| 0 <= j < i ==> (#[trigger] idents@[j])@ == self.idents@[j]@,
            decreases self.idents@.len() - i,
        {
            idents.push(copy_bytes(&self.idents[i]));
            i = i + 1;
        }
        let r = RawAttr {
            name: copy_bytes(&self.name),
            idents,
            value: match &self.value {
                Option::Some(e) => Option::Some(e.clone()),
                Option::None => Option::None,
            },
            span: self.span,
        };
        proof {
            assert(r@.idents.len() == self@.idents.len());
            assert forall|j: int| 0 <= j < r@.idents.len() implies r@.idents[j]
                == self@.idents[j] by {
                assert(r@.idents[j] == r.idents@[j]@);
                assert(self@.idents[j] == self.idents@[j]@);
            }
            assert(r@.idents =~= self@.idents);
            assert(r@ == self@);
        }
        r
    }
}

impl Clone for GenericArgs {
    fn clone(&self) -> (r: Self)
        ensures
            r@ == self@,
    {
        let mut args: Vec<TypeShape> = Vec::new();
        let mut i: usize = 0;
        while i < self.args.len()
            invariant
                i <= self.args@.len(),
                args@ == self.args@.subrange(0, i as int),
            decreases self.args@.len() - i,
        {
            args.push(self.args[i].clone());
            proof {
                assert(args@ =~= self.args@.subrange(0, i + 1 as int));
            }
            i = i + 1;
        }
        proof {
            assert(args@ =~= self.args@);
        }
        GenericArgs { args, span: self.span }
    }
}

fn shapes_eq(a: &Vec<TypeShape>, b: &Vec<TypeShape>) -> (r: bool)
    ensures
        r == (a@ == b@),
{
    if a.len() != b.len() {
        proof {
            assert(a@.len() != b@.len());
        }
        return false;
    }
    let mut i: usize = 0;
    while i < a.len()
        invariant
            i <= a@.len(),
            a@.len() == b@.len(),
            forall|j: int| 0 <= j < i ==> a@[j] == b@[j],
        decreases a@.len() - i,
    {
        if !shape_eq(&a[i], &b[i]) {
            return false;
        }
        i = i + 1;
    }
    proof {
        assert(a@ =~= b@);
    }
    true
}

fn tok_span(t: &Token) -> (r: Span)
    ensures
        r == tok_span_spec(t@),
{
    match t {
        Token::OpenTag { span } => *span,
        Token::CloseTag { span } => *span,
        Token::EndTag { span } => *span,
        Token::SelfEnd { span } => *span,
        Token::NameTok { span, .. } => *span,
        Token::GenericsTok { args } => args.span,
        Token::AttrTok { attr } => attr.span,
        Token::TextTok { span, .. } => *span,
        Token::ExprTok { expr } => expr.span,
    }
}

fn syntax_err(span: Span, secondary: Option<Span>) -> (r: Diagnostic)
    ensures
        r@ == syntax_err_spec(span, secondary),
{
    Diagnostic { kind: DiagKind::SyntaxError, span, secondary, detail: Vec::new() }
}

fn starts_upper(name: &Vec<u8>) -> (r: bool)
    ensures
        r == starts_upper_spec(name@),
{
    name.len() >= 1 && name[0] >= UPPER_A && name[0] <= UPPER_Z
}

/// Assemble a parsed tag node; see `make_node_spec`.
fn make_node(
    is_fragment: bool,
    name: Vec<u8>,
    generics: Option<GenericArgs>,
    name_span: Span,
    attrs: Vec<RawAttr>,
    children: Vec<Node>,
    span: Span,
) -> (r: Node)
    ensures
        r@ == make_node_spec(
            is_fragment,
            name@,
            match generics {
                Option::Some(g) => Option::Some(g@),
                Option::None => Option::None,
            },
            name_span,
            attrs@.map_values(|a: RawAttr| a@),
            children_view(children@, children@.len() as int),
            span,
        ),
{
    let kind = if is_fragment {
        NodeKind::FragmentTag
    } else if starts_upper(&name) {
        NodeKind::ComponentTag { name, generics }
    } else {
        NodeKind::ElementTag { name }
    };
    Node { kind, span, name_span, attrs, children }
}

/// Parse one node starting at `pos`; the result, the consumed range and the
/// emitted diagnostics are exactly those of `parse_node_spec`.
fn parse_node(tokens: &Vec<Token>, pos: usize, diags: &mut Vec<Diagnostic>) -> (r: (Node, usize))
    requires
        pos < tokens@.len(),
    ensures
        pos < r.1 <= tokens@.len(),
        r.1 as int == parse_node_spec(tokens_view(*tokens), pos as int).next,
        r.0@ == parse_node_spec(tokens_view(*tokens), pos as int).node,
        diags_view(*final(diags)) == diags_view(*old(diags)) + parse_node_spec(
            tokens_view(*tokens),
            pos as int,
        ).diags,
    decreases tokens@.len() - pos, 1int,
{
    let ghost ts = tokens_view(*tokens);
    let upper = tokens.len();
    proof {
        assert(pos < upper);
        assert(ts[pos as int] == tokens@[pos as int]@);
    }
    match &tokens[pos] {
        Token::TextTok { text, span } => {
            let n = Node {
                kind: NodeKind::TextLeaf { text: copy_bytes(text) },
                span: *span,
                name_span: *span,
                attrs: Vec::new(),
                children: Vec::new(),
            };
            proof {
                assert(n@.attrs =~= Seq::<RawAttrS>::empty());
                assert(n@.children =~= Seq::<NodeS>::empty());
                assert(n@ == parse_node_spec(ts, pos as int).node);
                assert(diags_view(*diags) =~= diags_view(*diags) + Seq::<DiagS>::empty());
            }
            (n, pos + 1)
        },
        Token::ExprTok { expr } => {
            let n = Node {
                kind: NodeKind::ExprLeaf { expr: expr.clone() },
                span: expr.span,
                name_span: expr.span,
                attrs: Vec::new(),
                children: Vec::new(),
            };
            proof {
                assert(n@.attrs =~= Seq::<RawAttrS>::empty());
                assert(n@.children =~= Seq::<NodeS>::empty());
                assert(n@ == parse_node_spec(ts, pos as int).node);
                assert(diags_view(*diags) =~= diags_view(*diags) + Seq::<DiagS>::empty());
            }
            (n, pos + 1)
        },
        Token::OpenTag { span: osp } => {
            let r = parse_tag(tokens, pos, *osp, diags);
            r
        },
        _ => {
            let start = tok_span(&tokens[pos]);
            diags.push(syntax_err(start, Option::None));
            let n = Node {
                kind: NodeKind::TextLeaf { text: Vec::new() },
                span: start,
                name_span: start,
                attrs: Vec::new(),
                children: Vec::new(),
            };
            proof {
                assert(n@.attrs =~= Seq::<RawAttrS>::empty());
                assert(n@.children =~= Seq::<NodeS>::empty());
                assert(n@ == parse_node_spec(ts, pos as int).node);
                assert(diags_view(*diags) =~= diags_view(*old(diags)) + parse_node_spec(
                    ts,
                    pos as int,
                ).diags);
            }
            (n, pos + 1)
        },
    }
}

/// Parse a tag or fragment whose `<` stands at `pos`; see `parse_tag_spec`.
#[verifier::rlimit(100)]
fn parse_tag(tokens: &Vec<Token>, pos: usize, osp: Span, diags: &mut Vec<Diagnostic>) -> (r: (
    Node,
    usize,
))
    requires
        pos < tokens@.len(),
        tokens_view(*tokens)[pos as int] == (TokenS::OpenTagS { span: osp }),
    ensures
        pos < r.1 <= tokens@.len(),
        r.1 as int == parse_tag_spec(tokens_view(*tokens), pos as int).next,
        r.0@ == parse_tag_spec(tokens_view(*tokens), pos as int).node,
        diags_view(*final(diags)) == diags_view(*old(diags)) + parse_tag_spec(
            tokens_view(*tokens),
            pos as int,
        ).diags,
    decreases tokens@.len() - pos, 0int,
{
    let ghost ts = tokens_view(*tokens);
    let ghost o = parse_tag_spec(ts, pos as int);
    let upper = tokens.len();
    proof {
        assert(pos < upper);
    }
    // Tag name, if any; a bare `<` followed by `>` opens a fragment.
    let p1 = pos + 1;
    let mut name: Vec<u8> = Vec::new();
    let mut name_span = osp;
    let mut is_fragment = true;
    let mut hi = osp.hi;
    let mut p = p1;
    if p1 < tokens.len() {
        proof {
            assert(ts[p1 as int] == tokens@[p1 as int]@);
        }
        match &tokens[p1] {
            Token::NameTok { name: nm, span } => {
                name = copy_bytes(nm);
                name_span = *span;
                is_fragment = false;
                hi = span.hi;
                p = p1 + 1;
            },
            _ => {},
        }
    }
    // Explicit generic-argument list.
    let mut generics: Option<GenericArgs> = Option::None;
    if !is_fragment && p < tokens.len() {
        proof {
            assert(ts[p as int] == tokens@[p as int]@);
        }
        match &tokens[p] {
            Token::GenericsTok { args } => {
                generics = Option::Some(args.clone());
                hi = args.span.hi;
                p = p + 1;
            },
            _ => {},
        }
    }
    let ghost p3 = p as int;
    let ghost hi2: usize = hi;
    // Attributes, in order.
    let mut attrs: Vec<RawAttr> = Vec::new();
    proof {
        assert(crate::resolve::raw_attrs_view(attrs) =~= Seq::<RawAttrS>::empty());
    }
    let mut scanning = true;
    while scanning && p < tokens.len()
        invariant
            pos < p <= tokens@.len(),
            p3 <= p as int,
            ts == tokens_view(*tokens),
            ts.len() == tokens@.len(),
            attrs_scan_spec(ts, p3, Seq::empty()) == attrs_scan_spec(
                ts,
                p as int,
                crate::resolve::raw_attrs_view(attrs),
            ),
            !scanning ==> !(ts[p as int] matches TokenS::AttrTokS { .. }),
        decreases tokens@.len() - p + (if scanning { 1int } else { 0int }),
    {
        proof {
            assert(ts[p as int] == tokens@[p as int]@);
        }
        match &tokens[p] {
            Token::AttrTok { attr } => {
                let ghost before = crate::resolve::raw_attrs_view(attrs);
                attrs.push(attr.clone());
                proof {
                    assert(crate::resolve::raw_attrs_view(attrs) =~= before.push(
                        attr_of(ts[p as int]),
                    ));
                }
                p = p + 1;
            },
            _ => {
                scanning = false;
            },
        }
    }
    proof {
        assert(attrs_scan_spec(ts, p as int, crate::resolve::raw_attrs_view(attrs))
            == (ParsedAttrs { attrs: crate::resolve::raw_attrs_view(attrs), next: p as int }));
    }
    let ghost scan = attrs_scan_spec(ts, p3, Seq::empty());
    proof {
        assert(scan.attrs == crate::resolve::raw_attrs_view(attrs));
        assert(scan.next == p as int);
    }
    // The range so far: the last attribute's end, or the head's.
    if attrs.len() > 0 {
        proof {
            assert(scan.attrs[attrs@.len() - 1] == attrs@[attrs@.len() - 1]@);
        }
        hi = attrs[attrs.len() - 1].span.hi;
    }
    // Self-closing tag, or `>` and a child list.
    if p >= tokens.len() {
        diags.push(syntax_err(osp, Option::None));
        let node = make_node(is_fragment, name, generics, name_span, attrs, Vec::new(), Span {
            lo: osp.lo,
            hi,
        });
        proof {
            assert(node@ == o.node);
            assert(diags_view(*diags) =~= diags_view(*old(diags)) + o.diags);
        }
        return (node, p);
    }
    proof {
        assert(ts[p as int] == tokens@[p as int]@);
    }
    let endtag_hi: usize = match &tokens[p] {
        Token::SelfEnd { span } => {
            let node = make_node(is_fragment, name, generics, name_span, attrs, Vec::new(), Span {
                lo: osp.lo,
                hi: span.hi,
            });
            proof {
                assert(node@ == o.node);
                assert(diags_view(*diags) =~= diags_view(*old(diags)) + o.diags);
            }
            return (node, p + 1);
        },
        Token::EndTag { span } => span.hi,
        _ => {
            diags.push(syntax_err(tok_span(&tokens[p]), Option::None));
            let node = make_node(is_fragment, name, generics, name_span, attrs, Vec::new(), Span {
                lo: osp.lo,
                hi,
            });
            proof {
                assert(node@ == o.node);
                assert(diags_view(*diags) =~= diags_view(*old(diags)) + o.diags);
            }
            return (node, p + 1);
        },
    };
    let ghost q0 = p + 1 as int;
    p = p + 1;
    hi = endtag_hi;
    // Children until the matching close tag.
    let mut children: Vec<Node> = Vec::new();
    let ghost dbase = diags_view(*diags);
    let ghost mut dacc: Seq<DiagS> = Seq::empty();
    proof {
        assert(children_view(children@, children@.len() as int) =~= Seq::<NodeS>::empty());
        assert(diags_view(*diags) =~= dbase + dacc);
    }
    let mut in_children = true;
    while in_children && p < tokens.len()
        invariant
            pos < p <= tokens@.len(),
            q0 <= p as int,
            ts == tokens_view(*tokens),
            ts.len() == tokens@.len(),
            diags_view(*diags) == dbase + dacc,
            parse_children_spec(ts, q0, Seq::empty(), Seq::empty(), endtag_hi)
                == parse_children_spec(
                ts,
                p as int,
                children_view(children@, children@.len() as int),
                dacc,
                hi,
            ),
            !in_children ==> (ts[p as int] matches TokenS::CloseTagS { .. }),
        decreases tokens@.len() - p + (if in_children { 1int } else { 0int }),
    {
        proof {
            assert(ts[p as int] == tokens@[p as int]@);
        }
        let at_close = match &tokens[p] {
            Token::CloseTag { .. } => true,
            _ => false,
        };
        if at_close {
            in_children = false;
        } else {
            let (child, np) = parse_node(tokens, p, diags);
            let ghost co = parse_node_spec(ts, p as int);
            let ghost chv = children_view(children@, children@.len() as int);
            let ghost cold = children@;
            hi = if child.span.hi > hi {
                child.span.hi
            } else {
                hi
            };
            children.push(child);
            proof {
                assert(children@ == cold.push(children@.last()));
                crate::tree::lemma_children_view_prefix(cold, children@.last(), cold.len() as int);
                assert(children_view(children@, children@.len() as int) =~= chv.push(co.node));
                dacc = dacc + co.diags;
            }
            p = np;
        }
    }
    let ghost ch = parse_children_spec(ts, q0, Seq::empty(), Seq::empty(), endtag_hi);
    proof {
        assert(ch == (ParsedSeq {
            nodes: children_view(children@, children@.len() as int),
            diags: dacc,
            next: p as int,
            hi,
        }));
    }
    if p >= tokens.len() {
        // Input ended before the close tag.
        diags.push(syntax_err(osp, Option::None));
        let node = make_node(is_fragment, name, generics, name_span, attrs, children, Span {
            lo: osp.lo,
            hi,
        });
        proof {
            assert(node@ == o.node);
            assert(o.diags == ch.diags + seq![syntax_err_spec(osp, Option::None)]);
            assert(ch.diags == dacc);
            assert(diags_view(*old(diags)) == dbase);
            assert(diags_view(*diags) =~= dbase + dacc + seq![
                syntax_err_spec(osp, Option::None),
            ]);
            assert(diags_view(*diags) =~= diags_view(*old(diags)) + o.diags);
        }
        return (node, p);
    }
    // The closing sequence: `</`, optional name, optional repeated generic
    // list, `>`.
    let ghost pc = p as int;
    let ghost gv: Option<GenericArgsS> = match &generics {
        Option::Some(g) => Option::Some(g@),
        Option::None => Option::None,
    };
    let ghost cl = close_spec(ts, pc, is_fragment, name@, name_span, gv, hi);
    hi = tok_span(&tokens[p]).hi;
    p = p + 1;
    if p < tokens.len() {
        proof {
            assert(ts[p as int] == tokens@[p as int]@);
        }
        match &tokens[p] {
            Token::NameTok { name: cn, span } => {
                if is_fragment || !bytes_eq(cn, &name) {
                    diags.push(syntax_err(*span, Option::Some(name_span)));
                }
                hi = span.hi;
                p = p + 1;
            },
            _ => {
                if !is_fragment {
                    diags.push(syntax_err(tok_span(&tokens[p]), Option::Some(name_span)));
                }
            },
        }
    }
    if p < tokens.len() {
        proof {
            assert(ts[p as int] == tokens@[p as int]@);
        }
        match &tokens[p] {
            Token::GenericsTok { args } => {
                let agree = match &generics {
                    Option::Some(g) => shapes_eq(&args.args, &g.args),
                    Option::None => false,
                };
                if !agree {
                    diags.push(
                        Diagnostic {
                            kind: DiagKind::CloseTagGenericMismatch,
                            span: args.span,
                            secondary: match &generics {
                                Option::Some(g) => Option::Some(g.span),
                                Option::None => Option::None,
                            },
                            detail: Vec::new(),
                        },
                    );
                }
                hi = args.span.hi;
                p = p + 1;
            },
            _ => {},
        }
    }
    if p < tokens.len() {
        proof {
            assert(ts[p as int] == tokens@[p as int]@);
        }
        match &tokens[p] {
            Token::EndTag { span } => {
                hi = span.hi;
                p = p + 1;
            },
            _ => {
                diags.push(syntax_err(tok_span(&tokens[p]), Option::None));
                p = p + 1;
            },
        }
    }
    proof {
        assert(hi == cl.hi && p as int == cl.next && diags_view(*diags) =~= dbase + dacc
            + cl.diags);
    }
    let node = make_node(is_fragment, name, generics, name_span, attrs, children, Span {
        lo: osp.lo,
        hi,
    });
    proof {
        assert(node@ == o.node);
        assert(diags_view(*diags) =~= diags_view(*old(diags)) + o.diags);
    }
    (node, p)
}

/// Decide `node_wf` for a concrete tree.
pub fn node_wf_exec(n: &Node) -> (r: bool)
    ensures
        r == node_wf(n@),
    decreases *n,
{
    proof {
        assert(n@.attrs =~= crate::resolve::raw_attrs_view(n.attrs));
        assert(n@.children == children_view(n.children@, n.children@.len() as int));
        crate::tree::lemma_children_view(n.children@, n.children@.len() as int);
    }
    if !(n.span.lo <= n.span.hi) {
        return false;
    }
    if !(n.name_span.lo <= n.name_span.hi) {
        return false;
    }
    if !(n.span.lo <= n.name_span.lo && n.name_span.hi <= n.span.hi) {
        return false;
    }
    let kind_ok = match &n.kind {
        NodeKind::ComponentTag { generics: Option::Some(g), .. } => n.span.lo <= g.span.lo
            && g.span.hi <= n.span.hi,
        NodeKind::ExprLeaf { expr } => n.span.lo <= expr.span.lo && expr.span.hi <= n.span.hi,
        _ => true,
    };
    if !kind_ok {
        return false;
    }
    let mut i: usize = 0;
    while i < n.attrs.len()
        invariant
            i <= n@.attrs.len(),
            n@.attrs == crate::resolve::raw_attrs_view(n.attrs),
            n@.attrs.len() == n.attrs@.len(),
            forall|j: int|
                0 <= j < i ==> attr_wf(#[trigger] n@.attrs[j]) && crate::span::span_in(
                    n@.attrs[j].span,
                    n@.span,
                ),
        decreases n@.attrs.len() - i,
    {
        proof {
            assert(n@.attrs[i as int] == n.attrs@[i as int]@);
        }
        let a = &n.attrs[i];
        let ghost av = n@.attrs[i as int];
        proof {
            assert(av == a@);
        }
        let attr_ok = {
            let head = a.span.lo <= a.span.hi;
            let val = match &a.value {
                Option::Some(e) => e.span.lo <= e.span.hi && a.span.lo <= e.span.lo && e.span.hi
                    <= a.span.hi,
                Option::None => true,
            };
            let within = n.span.lo <= a.span.lo && a.span.hi <= n.span.hi;
            head && val && within
        };
        if !attr_ok {
            proof {
                assert(!(attr_wf(av) && crate::span::span_in(av.span, n@.span)));
                assert(!node_wf(n@));
            }
            return false;
        }
        i = i + 1;
    }
    let mut i: usize = 0;
    while i < n.children.len()
        invariant
            i <= n@.children.len(),
            n@.children.len() == n.children@.len(),
            forall|j: int| 0 <= j < n@.children.len() ==> n@.children[j] == crate::tree::node_view(
                n.children@[j],
            ),
            forall|j: int|
                0 <= j < i ==> crate::span::span_in((#[trigger] n@.children[j]).span, n@.span),
        decreases n@.children.len() - i,
    {
        let c = &n.children[i];
        proof {
            assert(n@.children[i as int] == crate::tree::node_view(n.children@[i as int]));
            assert(n@.children[i as int].span == c.span);
        }
        if !(n.span.lo <= c.span.lo && c.span.hi <= n.span.hi) {
            proof {
                assert(!crate::span::span_in(n@.children[i as int].span, n@.span));
                assert(!node_wf(n@));
            }
            return false;
        }
        i = i + 1;
    }
    let mut i: usize = 0;
    while i < n.children.len()
        invariant
            i <= n@.children.len(),
            n@.children.len() == n.children@.len(),
            forall|j: int| 0 <= j < n@.children.len() ==> n@.children[j] == crate::tree::node_view(
                n.children@[j],
            ),
            forall|a: int, b: int|
                0 <= a < b < n@.children.len() && a < i ==> crate::span::span_disjoint(
                    (#[trigger] n@.children[a]).span,
                    (#[trigger] n@.children[b]).span,
                ),
        decreases n@.children.len() - i,
    {
        let mut j: usize = i + 1;
        while j < n.children.len()
            invariant
                i < j <= n@.children.len(),
                i < n@.children.len(),
                n@.children.len() == n.children@.len(),
                forall|b: int| 0 <= b < n@.children.len() ==> n@.children[b]
                    == crate::tree::node_view(n.children@[b]),
                forall|b: int|
                    (i as int) < b < j ==> crate::span::span_disjoint(
                        n@.children[i as int].span,
                        (#[trigger] n@.children[b]).span,
                    ),
            decreases n@.children.len() - j,
        {
            let a = &n.children[i];
            let b = &n.children[j];
            proof {
                assert(n@.children[i as int].span == a.span);
                assert(n@.children[j as int].span == b.span);
            }
            if !(a.span.hi <= b.span.lo || b.span.hi <= a.span.lo) {
                proof {
                    assert(!crate::span::span_disjoint(
                        n@.children[i as int].span,
                        n@.children[j as int].span,
                    ));
                    assert(!node_wf(n@));
                }
                return false;
            }
            j = j + 1;
        }
        i = i + 1;
    }
    let mut i: usize = 0;
    while i < n.children.len()
        invariant
            i <= n@.children.len(),
            n@.children.len() == n.children@.len(),
            forall|j: int| 0 <= j < n@.children.len() ==> n@.children[j] == crate::tree::node_view(
                n.children@[j],
            ),
            children_all_wf(n@.children, i as int),
        decreases n@.children.len() - i,
    {
        if !node_wf_exec(&n.children[i]) {
            proof {
                assert(n@.children[i as int] == crate::tree::node_view(n.children@[i as int]));
                assert(!node_wf(n@.children[i as int]));
                if children_all_wf(n@.children, n@.children.len() as int) {
                    crate::tree::lemma_children_all_wf(n@.children, n@.children.len() as int);
                    assert(node_wf(n@.children[i as int]));
                }
                assert(!node_wf(n@));
            }
            return false;
        }
        i = i + 1;
    }
    true
}

/// Parse one DSL invocation body: the tree and the diagnostics are exactly
/// `parse_root_spec` and `parse_diags_spec` of the token stream. The one
/// refusal is a stream whose ranges are too damaged to form a well-formed
/// tree — the single fault that aborts a pass.
pub fn parse(tokens: &Vec<Token>) -> (r: Option<(Node, Vec<Diagnostic>)>)
    ensures
        match r {
            Option::Some(p) => p.0@ == parse_root_spec(tokens_view(*tokens)) && diags_view(p.1)
                == parse_diags_spec(tokens_view(*tokens)) && node_wf(p.0@),
            Option::None => !node_wf(parse_root_spec(tokens_view(*tokens))),
        },
{
    let ghost ts = tokens_view(*tokens);
    let mut diags: Vec<Diagnostic> = Vec::new();
    let mut roots: Vec<Node> = Vec::new();
    let mut pos: usize = 0;
    let ghost mut dacc: Seq<DiagS> = Seq::empty();
    proof {
        assert(children_view(roots@, roots@.len() as int) =~= Seq::<NodeS>::empty());
        assert(diags_view(diags) =~= dacc);
    }
    while pos < tokens.len()
        invariant
            pos <= tokens@.len(),
            ts == tokens_view(*tokens),
            ts.len() == tokens@.len(),
            diags_view(diags) == dacc,
            parse_roots_spec(ts, 0, Seq::empty(), Seq::empty()) == parse_roots_spec(
                ts,
                pos as int,
                children_view(roots@, roots@.len() as int),
                dacc,
            ),
        decreases tokens@.len() - pos,
    {
        let (node, np) = parse_node(tokens, pos, &mut diags);
        let ghost no = parse_node_spec(ts, pos as int);
        let ghost rv = children_view(roots@, roots@.len() as int);
        let ghost rold = roots@;
        roots.push(node);
        proof {
            crate::tree::lemma_children_view_prefix(rold, roots@.last(), rold.len() as int);
            assert(children_view(roots@, roots@.len() as int) =~= rv.push(no.node));
            dacc = dacc + no.diags;
        }
        pos = np;
    }
    let ghost ro = parse_roots_spec(ts, 0, Seq::empty(), Seq::empty());
    proof {
        crate::tree::lemma_children_view(roots@, roots@.len() as int);
        assert(ro == (ParsedRoots {
            nodes: children_view(roots@, roots@.len() as int),
            diags: dacc,
            next: pos as int,
        }));
    }
    let root = if roots.len() == 1 {
        let r0 = roots.remove(0);
        proof {
            assert(r0@ == ro.nodes[0]);
        }
        r0
    } else {
        let mut lo: usize = 0;
        if roots.len() > 0 {
            lo = roots[0].span.lo;
        }
        let mut m: usize = 0;
        let mut k: usize = 0;
        while k < roots.len()
            invariant
                k <= roots@.len(),
                ro.nodes == children_view(roots@, roots@.len() as int),
                ro.nodes.len() == roots@.len(),
                forall|j: int| 0 <= j < ro.nodes.len() ==> ro.nodes[j] == crate::tree::node_view(
                    roots@[j],
                ),
                m == roots_hi(ro.nodes, k as int),
            decreases roots@.len() - k,
        {
            if roots[k].span.hi > m {
                m = roots[k].span.hi;
            }
            k = k + 1;
        }
        let sp = if lo <= m {
            Span { lo, hi: m }
        } else {
            Span { lo: 0, hi: 0 }
        };
        let ghost rv = children_view(roots@, roots@.len() as int);
        let node = make_node(true, Vec::new(), Option::None, sp, Vec::new(), roots, sp);
        proof {
            assert(node@.kind == NodeKindS::FragmentTagS);
            assert(node@.attrs =~= Seq::<RawAttrS>::empty());
            assert(node@.children == rv);
            assert(rv == ro.nodes);
            assert(node@ == parse_root_spec(ts));
        }
        node
    };
    proof {
        assert(root@ == parse_root_spec(ts));
        assert(diags_view(diags) == parse_diags_spec(ts));
    }
    if node_wf_exec(&root) {
        Option::Some((root, diags))
    } else {
        Option::None
    }
}

} // verus!
