use view_dsl::compile;
use view_dsl::compile_tokens;
use view_dsl::parser::parse;
use view_dsl::parser::Token;
use view_dsl::diag::DiagKind;
use view_dsl::diag::Diagnostic;
use view_dsl::lower::Lowered;
use view_dsl::lower::SetterOp;
use view_dsl::lower::Target;
use view_dsl::registry::Cardinality;
use view_dsl::registry::ChildrenKind;
use view_dsl::registry::ComponentDescriptor;
use view_dsl::registry::DirectiveDescriptor;
use view_dsl::registry::PropSchema;
use view_dsl::registry::Registry;
use view_dsl::registry::SlotDescriptor;
use view_dsl::registry::SlotField;
use view_dsl::shape::Expr;
use view_dsl::shape::TypeShape;
use view_dsl::span::Span;
use view_dsl::tree::GenericArgs;
use view_dsl::tree::Node;
use view_dsl::tree::NodeKind;
use view_dsl::tree::RawAttr;

fn sp(lo: usize, hi: usize) -> Span {
    Span { lo, hi }
}

fn b(s: &str) -> Vec<u8> {
    s.as_bytes().to_vec()
}

fn ex(lo: usize, hi: usize, shape: TypeShape) -> Expr {
    Expr { span: sp(lo, hi), shape }
}

fn fun0(ret: TypeShape) -> TypeShape {
    TypeShape::FnShape { arity: 0, ret: Box::new(ret) }
}

fn fun1(ret: TypeShape) -> TypeShape {
    TypeShape::FnShape { arity: 1, ret: Box::new(ret) }
}

fn named() -> TypeShape {
    TypeShape::NamedShape { id: 1 }
}

fn attr(name: &str, value: Option<Expr>, lo: usize, hi: usize) -> RawAttr {
    RawAttr { name: b(name), idents: Vec::new(), value, span: sp(lo, hi) }
}

fn elem(name: &str, lo: usize, hi: usize, attrs: Vec<RawAttr>, children: Vec<Node>) -> Node {
    Node {
        kind: NodeKind::ElementTag { name: b(name) },
        span: sp(lo, hi),
        name_span: sp(lo + 1, lo + 1 + name.len()),
        attrs,
        children,
    }
}

fn comp(name: &str, lo: usize, hi: usize, attrs: Vec<RawAttr>, children: Vec<Node>) -> Node {
    Node {
        kind: NodeKind::ComponentTag { name: b(name), generics: None },
        span: sp(lo, hi),
        name_span: sp(lo + 1, lo + 1 + name.len()),
        attrs,
        children,
    }
}

fn comp_g(
    name: &str,
    lo: usize,
    hi: usize,
    args: Vec<TypeShape>,
    glo: usize,
    ghi: usize,
    attrs: Vec<RawAttr>,
    children: Vec<Node>,
) -> Node {
    Node {
        kind: NodeKind::ComponentTag {
            name: b(name),
            generics: Some(GenericArgs { args, span: sp(glo, ghi) }),
        },
        span: sp(lo, hi),
        name_span: sp(lo + 1, lo + 1 + name.len()),
        attrs,
        children,
    }
}

fn frag(lo: usize, hi: usize, children: Vec<Node>) -> Node {
    Node {
        kind: NodeKind::FragmentTag,
        span: sp(lo, hi),
        name_span: sp(lo, lo),
        attrs: Vec::new(),
        children,
    }
}

fn text(s: &str, lo: usize, hi: usize) -> Node {
    Node {
        kind: NodeKind::TextLeaf { text: b(s) },
        span: sp(lo, hi),
        name_span: sp(lo, hi),
        attrs: Vec::new(),
        children: Vec::new(),
    }
}

fn expr_node(lo: usize, hi: usize, shape: TypeShape) -> Node {
    Node {
        kind: NodeKind::ExprLeaf { expr: ex(lo, hi, shape) },
        span: sp(lo, hi),
        name_span: sp(lo, hi),
        attrs: Vec::new(),
        children: Vec::new(),
    }
}

fn prop(name: &str, required: bool, shape: TypeShape) -> PropSchema {
    PropSchema { name: b(name), required, shape }
}

fn field(name: &str, card: Cardinality, accepts: &str) -> SlotField {
    SlotField { name: b(name), card, accepts: b(accepts) }
}

fn cdesc(
    name: &str,
    generic_arity: usize,
    props: Vec<PropSchema>,
    children: ChildrenKind,
    slots: Vec<SlotField>,
) -> ComponentDescriptor {
    ComponentDescriptor { name: b(name), generic_arity, props, children, slots }
}

fn sdesc(
    name: &str,
    props: Vec<PropSchema>,
    children: ChildrenKind,
    slots: Vec<SlotField>,
) -> SlotDescriptor {
    SlotDescriptor { name: b(name), props, children, slots }
}

fn registry(
    components: Vec<ComponentDescriptor>,
    slots: Vec<SlotDescriptor>,
    directives: Vec<DirectiveDescriptor>,
) -> Registry {
    Registry { components, slots, directives }
}

fn has_diag(diags: &[Diagnostic], kind: DiagKind, lo: usize, hi: usize) -> bool {
    diags.iter().any(|d| d.kind == kind && d.span == sp(lo, hi))
}

fn lowered_eq(a: &Lowered, b: &Lowered) -> bool {
    let target_eq = match (&a.target, &b.target) {
        (Target::ElementTarget { name: x }, Target::ElementTarget { name: y }) => x == y,
        (Target::ComponentTarget { name: x }, Target::ComponentTarget { name: y }) => x == y,
        (Target::SlotTarget { name: x }, Target::SlotTarget { name: y }) => x == y,
        (Target::FragmentTarget, Target::FragmentTarget) => true,
        (Target::TextTarget { text: x }, Target::TextTarget { text: y }) => x == y,
        (Target::ExprTarget, Target::ExprTarget) => true,
        _ => false,
    };
    target_eq && a.span == b.span && a.build_span == b.build_span && a.placeholder == b.placeholder
        && a.setters.len() == b.setters.len()
        && a.setters.iter().zip(b.setters.iter()).all(|(x, y)| {
            x.source == y.source && x.op == y.op && x.span == y.span
                && x.placeholder == y.placeholder
        }) && a.children.len() == b.children.len()
        && a.children.iter().zip(b.children.iter()).all(|(x, y)| lowered_eq(x, y))
}

// A component requiring a field, used with no attributes: the one failure is
// anchored at the tag name, and the emitted structure stays complete, so no
// position is reported dead merely because of the fault.
#[test]
fn unreachable_code() {
    let reg = registry(
        vec![cdesc(
            "Component",
            0,
            vec![prop("_required", true, TypeShape::IntShape)],
            ChildrenKind::NoChildren,
            vec![],
        )],
        vec![],
        vec![],
    );
    let tree = comp("Component", 0, 20, vec![], vec![]);
    let (low, diags) = compile(&reg, &tree);
    assert_eq!(diags.len(), 1);
    assert_eq!(diags[0].kind, DiagKind::MissingField);
    assert!(low.placeholder);
    assert_eq!(low.setters.len(), 0);
    assert_eq!(low.children.len(), 0);
    assert!(matches!(low.target, Target::ComponentTarget { .. }));
}

// "Missing field" failures anchor at the component's name span only.
#[test]
fn missing_field() {
    let reg = registry(
        vec![cdesc(
            "Component",
            0,
            vec![prop("_required", true, TypeShape::IntShape)],
            ChildrenKind::NoChildren,
            vec![],
        )],
        vec![],
        vec![],
    );
    let tree = comp("Component", 0, 20, vec![], vec![]);
    let (_, diags) = compile(&reg, &tree);
    assert_eq!(diags.len(), 1);
    assert_eq!(diags[0].kind, DiagKind::MissingField);
    assert_eq!(diags[0].span, sp(1, 10));
    assert_eq!(diags[0].detail, b"_required".to_vec());
}

// Two components that consume opaque children resolve cleanly.
#[test]
fn no_autocomplete_for_modules() {
    let reg = registry(
        vec![
            cdesc("Component1", 0, vec![], ChildrenKind::OpaqueChildren, vec![]),
            cdesc("Component2", 0, vec![], ChildrenKind::OpaqueChildren, vec![]),
        ],
        vec![],
        vec![],
    );
    let t1 = comp("Component1", 0, 40, vec![], vec![text("x", 15, 20)]);
    let t2 = comp("Component2", 0, 40, vec![], vec![text("x", 15, 20)]);
    let (_, d1) = compile(&reg, &t1);
    let (_, d2) = compile(&reg, &t2);
    assert!(d1.is_empty());
    assert!(d2.is_empty());
}

// A tag that is not in the registry fails on its name span alone.
#[test]
fn component_with_props_without_macro() {
    let reg = registry(vec![], vec![], vec![]);
    let tree = comp("Component", 0, 20, vec![], vec![]);
    let (_, diags) = compile(&reg, &tree);
    assert_eq!(diags.len(), 1);
    assert_eq!(diags[0].kind, DiagKind::UnknownComponent);
    assert_eq!(diags[0].span, sp(1, 10));
    assert_eq!(diags[0].detail, b"Component".to_vec());
}

// Explicit generic arguments are checked against the declared arity and the
// fault anchors at the generic-argument list.
#[test]
fn generics() {
    let reg = registry(
        vec![cdesc(
            "Component",
            1,
            vec![prop("_a", true, TypeShape::IntShape)],
            ChildrenKind::NoChildren,
            vec![],
        )],
        vec![],
        vec![],
    );
    let ok_explicit = comp_g(
        "Component",
        0,
        40,
        vec![TypeShape::IntShape],
        10,
        15,
        vec![attr("_a", Some(ex(20, 22, TypeShape::IntShape)), 16, 22)],
        vec![],
    );
    let (_, d1) = compile(&reg, &ok_explicit);
    assert!(d1.is_empty());
    let ok_inferred = comp(
        "Component",
        0,
        40,
        vec![attr("_a", Some(ex(20, 22, TypeShape::IntShape)), 16, 22)],
        vec![],
    );
    let (_, d2) = compile(&reg, &ok_inferred);
    assert!(d2.is_empty());
    let wrong = comp_g(
        "Component",
        0,
        40,
        vec![TypeShape::IntShape, TypeShape::IntShape],
        10,
        15,
        vec![attr("_a", Some(ex(20, 22, TypeShape::IntShape)), 16, 22)],
        vec![],
    );
    let (_, d3) = compile(&reg, &wrong);
    assert_eq!(d3.len(), 1);
    assert_eq!(d3[0].kind, DiagKind::GenericArityMismatch);
    assert_eq!(d3[0].span, sp(10, 15));
}

// A prop value of the wrong shape is reported over the value, not the tag.
#[test]
fn prop_into() {
    let reg = registry(
        vec![cdesc(
            "Component",
            0,
            vec![prop("_a", true, TypeShape::StrShape)],
            ChildrenKind::NoChildren,
            vec![],
        )],
        vec![],
        vec![],
    );
    let bad = comp(
        "Component",
        0,
        60,
        vec![attr("_a", Some(ex(20, 40, fun0(TypeShape::StrShape))), 16, 40)],
        vec![],
    );
    let (_, d1) = compile(&reg, &bad);
    assert_eq!(d1.len(), 1);
    assert_eq!(d1[0].kind, DiagKind::TypeMismatch);
    assert_eq!(d1[0].span, sp(20, 40));
    let good = comp(
        "Component",
        0,
        60,
        vec![attr("_a", Some(ex(20, 40, TypeShape::StrShape)), 16, 40)],
        vec![],
    );
    let (_, d2) = compile(&reg, &good);
    assert!(d2.is_empty());
}

// A handler that cannot take the event is reported over the handler value.
#[test]
fn events() {
    let reg = registry(
        vec![cdesc("Component", 0, vec![], ChildrenKind::NoChildren, vec![])],
        vec![],
        vec![],
    );
    let tree = comp(
        "Component",
        0,
        40,
        vec![attr("on:a", Some(ex(20, 26, fun0(TypeShape::UnitShape))), 14, 26)],
        vec![],
    );
    let (_, diags) = compile(&reg, &tree);
    assert_eq!(diags.len(), 1);
    assert_eq!(diags[0].kind, DiagKind::TypeMismatch);
    assert_eq!(diags[0].span, sp(20, 26));
}

// A value-less directive on a host element resolves cleanly.
#[test]
fn html_elements_directives() {
    let reg = registry(
        vec![],
        vec![],
        vec![DirectiveDescriptor { name: b("highlight"), param: None }],
    );
    let tree = elem(
        "a",
        0,
        80,
        vec![
            attr("href", Some(ex(10, 13, TypeShape::StrShape)), 5, 13),
            attr("use:highlight", None, 14, 27),
        ],
        vec![text("Copy data to clipboard", 30, 54)],
    );
    let (_, diags) = compile(&reg, &tree);
    assert!(diags.is_empty());
}

// A directive invoked without its declared value, or with a value of the
// wrong shape, is reported over the directive invocation itself.
#[test]
fn directive() {
    let reg = registry(
        vec![cdesc("Component", 0, vec![], ChildrenKind::NoChildren, vec![])],
        vec![],
        vec![DirectiveDescriptor { name: b("highlight"), param: Some(TypeShape::IntShape) }],
    );
    let missing = comp("Component", 0, 40, vec![attr("use:highlight", None, 12, 25)], vec![]);
    let (_, d1) = compile(&reg, &missing);
    assert_eq!(d1.len(), 1);
    assert_eq!(d1[0].kind, DiagKind::TypeMismatch);
    assert_eq!(d1[0].span, sp(12, 25));
    let wrong = comp(
        "Component",
        0,
        40,
        vec![attr("use:highlight", Some(ex(26, 31, TypeShape::StrShape)), 12, 31)],
        vec![],
    );
    let (_, d2) = compile(&reg, &wrong);
    assert_eq!(d2.len(), 1);
    assert_eq!(d2[0].span, sp(26, 31));
    // a value whose source reads "asd": the span is sized by the literal
    let asd_hi = 27 + "asd".len();
    let quoted = comp(
        "Component",
        0,
        40,
        vec![attr("use:highlight", Some(ex(27, asd_hi, TypeShape::StrShape)), 12, asd_hi)],
        vec![],
    );
    let (_, d3) = compile(&reg, &quoted);
    assert_eq!(d3.len(), 1);
    assert_eq!(d3[0].span, sp(27, asd_hi));
    // a bound variable holding "Hello World!" passes the same way
    let data = text("Hello World!", 50, 62);
    let with_data = comp(
        "Component",
        0,
        80,
        vec![attr("use:highlight", Some(ex(26, 31, TypeShape::StrShape)), 12, 31)],
        vec![data],
    );
    let (_, d4) = compile(&reg, &with_data);
    // the directive fault, plus the child a children-less component refuses
    assert!(has_diag(&d4, DiagKind::TypeMismatch, 26, 31));
    assert_eq!(d4.len(), 2);
    assert_eq!(d4[1].kind, DiagKind::UnexpectedChildren);
}

// A block in a fragment that is not renderable fails on the block itself.
#[test]
fn block_in_fragment() {
    let reg = registry(vec![], vec![], vec![]);
    let tree = frag(0, 30, vec![expr_node(5, 8, named())]);
    let (_, diags) = compile(&reg, &tree);
    assert_eq!(diags.len(), 1);
    assert_eq!(diags[0].kind, DiagKind::TypeMismatch);
    assert_eq!(diags[0].span, sp(5, 8));
}

// A slot prop of the wrong shape is reported over the property value.
#[test]
fn slots_prop_into() {
    let reg = registry(
        vec![cdesc(
            "SlotIf",
            0,
            vec![],
            ChildrenKind::NoChildren,
            vec![field("ElseIf", Cardinality::ZeroOrMore, "ElseIf")],
        )],
        vec![sdesc(
            "ElseIf",
            vec![prop("cond", true, TypeShape::BoolShape)],
            ChildrenKind::NoChildren,
            vec![],
        )],
        vec![],
    );
    let child = comp(
        "ElseIf",
        110,
        160,
        vec![
            attr("slot", None, 120, 124),
            attr("cond", Some(ex(132, 140, fun0(TypeShape::BoolShape))), 125, 140),
        ],
        vec![],
    );
    let tree = comp("SlotIf", 0, 200, vec![], vec![child]);
    let (_, diags) = compile(&reg, &tree);
    assert_eq!(diags.len(), 1);
    assert_eq!(diags[0].kind, DiagKind::TypeMismatch);
    assert_eq!(diags[0].span, sp(132, 140));
}

// A child routed to a field whose slot type it does not match fails on the
// child slot's own name.
#[test]
fn wrong_slot_name() {
    let reg = registry(
        vec![cdesc(
            "If",
            0,
            vec![],
            ChildrenKind::NoChildren,
            vec![
                field("then", Cardinality::ExactlyOne, "Then"),
                field("SlotIf", Cardinality::ExactlyOne, "SlotIf"),
            ],
        )],
        vec![
            sdesc("Then", vec![], ChildrenKind::NoChildren, vec![]),
            sdesc("ElseIf", vec![], ChildrenKind::NoChildren, vec![]),
            sdesc(
                "SlotIf",
                vec![],
                ChildrenKind::NoChildren,
                vec![field("then", Cardinality::ExactlyOne, "Then")],
            ),
        ],
        vec![],
    );
    let inner = comp("ElseIf", 220, 260, vec![attr("slot:then", None, 230, 239)], vec![]);
    let slot_if = comp("SlotIf", 200, 300, vec![attr("slot", None, 210, 214)], vec![inner]);
    let outer = comp("ElseIf", 100, 160, vec![attr("slot:then", None, 110, 119)], vec![]);
    let tree = comp("If", 0, 400, vec![], vec![outer, slot_if]);
    let (_, diags) = compile(&reg, &tree);
    assert_eq!(diags.len(), 2);
    // the outer ElseIf's name span and the inner ElseIf's name span
    assert!(has_diag(&diags, DiagKind::TypeMismatch, 101, 107));
    assert!(has_diag(&diags, DiagKind::TypeMismatch, 221, 227));
}

// A marker targeting no declared field fails on the marker itself; the
// required field it failed to fill is reported at the parent's name.
#[test]
fn undefined_slot() {
    let reg = registry(
        vec![cdesc(
            "If",
            0,
            vec![],
            ChildrenKind::NoChildren,
            vec![
                field("then", Cardinality::ExactlyOne, "Then"),
                field("SlotIf", Cardinality::AtMostOne, "SlotIf"),
            ],
        )],
        vec![
            sdesc("Then", vec![], ChildrenKind::NoChildren, vec![]),
            sdesc("ElseIf", vec![], ChildrenKind::NoChildren, vec![]),
            sdesc(
                "SlotIf",
                vec![],
                ChildrenKind::NoChildren,
                vec![field("then", Cardinality::ExactlyOne, "Then")],
            ),
        ],
        vec![],
    );
    let inner = comp("ElseIf", 220, 260, vec![attr("slot", None, 230, 234)], vec![]);
    let slot_if = comp("SlotIf", 200, 300, vec![attr("slot", None, 210, 214)], vec![inner]);
    let outer = comp("ElseIf", 100, 160, vec![attr("slot", None, 110, 114)], vec![]);
    let tree = comp("If", 0, 400, vec![], vec![outer, slot_if]);
    let (_, diags) = compile(&reg, &tree);
    assert_eq!(diags.len(), 4);
    assert!(has_diag(&diags, DiagKind::UndefinedSlot, 110, 114));
    assert!(has_diag(&diags, DiagKind::UndefinedSlot, 230, 234));
    assert!(has_diag(&diags, DiagKind::SlotMissing, 1, 3));
    assert!(has_diag(&diags, DiagKind::SlotMissing, 201, 207));
}

// A second routed child for an exactly-one field fails on that child.
#[test]
fn slot_expected_one_got_more() {
    let reg = registry(
        vec![cdesc(
            "If",
            0,
            vec![],
            ChildrenKind::NoChildren,
            vec![
                field("then", Cardinality::ExactlyOne, "Then"),
                field("SlotIf", Cardinality::ExactlyOne, "SlotIf"),
            ],
        )],
        vec![
            sdesc("Then", vec![], ChildrenKind::NoChildren, vec![]),
            sdesc(
                "SlotIf",
                vec![],
                ChildrenKind::NoChildren,
                vec![field("then", Cardinality::ExactlyOne, "Then")],
            ),
        ],
        vec![],
    );
    let then_a = comp("Then", 100, 140, vec![attr("slot:then", None, 110, 119)], vec![]);
    let then_b = comp("Then", 150, 190, vec![attr("slot:then", None, 160, 169)], vec![]);
    let inner_a = comp("Then", 220, 250, vec![attr("slot:then", None, 230, 239)], vec![]);
    let inner_b = comp("Then", 260, 290, vec![attr("slot:then", None, 270, 279)], vec![]);
    let slot_if = comp(
        "SlotIf",
        200,
        300,
        vec![attr("slot", None, 210, 214)],
        vec![inner_a, inner_b],
    );
    let tree = comp("If", 0, 400, vec![], vec![then_a, then_b, slot_if]);
    let (_, diags) = compile(&reg, &tree);
    assert_eq!(diags.len(), 2);
    assert!(has_diag(&diags, DiagKind::SlotCardinalityExceeded, 150, 190));
    assert!(has_diag(&diags, DiagKind::SlotCardinalityExceeded, 260, 290));
}

// A fault inside a slot child leaves the parent's emitted position intact.
#[test]
fn slot_unreachable_code() {
    let reg = registry(
        vec![cdesc(
            "SlotIf",
            0,
            vec![],
            ChildrenKind::NoChildren,
            vec![field("Then", Cardinality::ExactlyOne, "Then")],
        )],
        vec![sdesc(
            "Then",
            vec![prop("a", true, TypeShape::IntShape)],
            ChildrenKind::NoChildren,
            vec![],
        )],
        vec![],
    );
    let then = comp("Then", 100, 140, vec![attr("slot", None, 110, 114)], vec![]);
    let tree = comp("SlotIf", 0, 200, vec![], vec![then]);
    let (low, diags) = compile(&reg, &tree);
    assert_eq!(diags.len(), 1);
    assert_eq!(diags[0].kind, DiagKind::MissingField);
    assert!(!low.placeholder);
    assert_eq!(low.children.len(), 1);
    assert!(low.children[0].placeholder);
}

// "Missing field" on a slot anchors at the slot's name, naming the field.
#[test]
fn slot_missing_field() {
    let reg = registry(
        vec![cdesc(
            "SlotIf",
            0,
            vec![],
            ChildrenKind::NoChildren,
            vec![field("Then", Cardinality::ExactlyOne, "Then")],
        )],
        vec![sdesc(
            "Then",
            vec![prop("a", true, TypeShape::IntShape)],
            ChildrenKind::NoChildren,
            vec![],
        )],
        vec![],
    );
    let then = comp("Then", 100, 140, vec![attr("slot", None, 110, 114)], vec![]);
    let tree = comp("SlotIf", 0, 200, vec![], vec![then]);
    let (_, diags) = compile(&reg, &tree);
    assert_eq!(diags.len(), 1);
    assert_eq!(diags[0].kind, DiagKind::MissingField);
    assert_eq!(diags[0].span, sp(101, 105));
    assert_eq!(diags[0].detail, b"a".to_vec());
}

// A closing tag matches its opening tag with generic lists ignored; only a
// repeated list that disagrees with the opening one is a fault, anchored at
// the repeated list.
#[test]
fn close_tag_generic_mismatch() {
    let reg = registry(
        vec![cdesc("Component", 1, vec![], ChildrenKind::OpaqueChildren, vec![])],
        vec![],
        vec![],
    );
    let plain_close = vec![
        Token::OpenTag { span: sp(0, 1) },
        Token::NameTok { name: b("Component"), span: sp(1, 10) },
        Token::GenericsTok {
            args: GenericArgs { args: vec![TypeShape::NamedShape { id: 7 }], span: sp(10, 20) },
        },
        Token::EndTag { span: sp(20, 21) },
        Token::OpenTag { span: sp(21, 22) },
        Token::NameTok { name: b("p"), span: sp(22, 23) },
        Token::SelfEnd { span: sp(23, 25) },
        Token::CloseTag { span: sp(25, 27) },
        Token::NameTok { name: b("Component"), span: sp(27, 36) },
        Token::EndTag { span: sp(36, 37) },
    ];
    let (root, pdiags) = parse(&plain_close).expect("well-formed input");
    assert!(pdiags.is_empty());
    let (_, diags) = compile(&reg, &root);
    assert!(diags.is_empty());
    let repeated_wrong = vec![
        Token::OpenTag { span: sp(0, 1) },
        Token::NameTok { name: b("Component"), span: sp(1, 10) },
        Token::GenericsTok {
            args: GenericArgs { args: vec![TypeShape::NamedShape { id: 7 }], span: sp(10, 20) },
        },
        Token::EndTag { span: sp(20, 21) },
        Token::CloseTag { span: sp(25, 27) },
        Token::NameTok { name: b("Component"), span: sp(27, 36) },
        Token::GenericsTok {
            args: GenericArgs { args: vec![TypeShape::NamedShape { id: 8 }], span: sp(36, 40) },
        },
        Token::EndTag { span: sp(40, 41) },
    ];
    let (_, pdiags2) = parse(&repeated_wrong).expect("well-formed input");
    assert_eq!(pdiags2.len(), 1);
    assert_eq!(pdiags2[0].kind, DiagKind::CloseTagGenericMismatch);
    assert_eq!(pdiags2[0].span, sp(36, 40));
    assert_eq!(pdiags2[0].secondary, Some(sp(10, 20)));
}

// Clone-capture markers classify and lower to capture calls carrying the
// marker's own range, with nothing else to report about them.
#[test]
fn children_clone() {
    let reg = registry(
        vec![cdesc(
            "Component",
            0,
            vec![],
            ChildrenKind::OpaqueChildren,
            vec![field("Then", Cardinality::ExactlyOne, "Then")],
        )],
        vec![sdesc("Then", vec![], ChildrenKind::OpaqueChildren, vec![])],
        vec![],
    );
    let p1 = elem("p", 100, 110, vec![], vec![]);
    let p2 = elem("p", 230, 240, vec![], vec![]);
    let then = comp(
        "Then",
        200,
        260,
        vec![attr("slot", None, 210, 214), attr("clone:a", None, 215, 222)],
        vec![p2],
    );
    let tree = comp("Component", 0, 300, vec![attr("clone:a", None, 12, 19)], vec![p1, then]);
    let (low, diags) = compile(&reg, &tree);
    assert!(diags.is_empty());
    assert_eq!(low.setters.len(), 1);
    assert_eq!(low.setters[0].op, SetterOp::CaptureClone);
    assert_eq!(low.setters[0].span, sp(12, 19));
    assert_eq!(low.children[1].setters[1].op, SetterOp::CaptureClone);
    assert_eq!(low.children[1].setters[1].span, sp(215, 222));
}

// Closure-typed children with no `let:` list at all anchor the fault at the
// tag name.
#[test]
fn children_let_expected_one_got_none() {
    let reg = registry(
        vec![
            cdesc(
                "Component",
                0,
                vec![prop("data", true, TypeShape::StrShape)],
                ChildrenKind::ClosureChildren { arity: 1 },
                vec![],
            ),
            cdesc(
                "Slot",
                0,
                vec![],
                ChildrenKind::NoChildren,
                vec![field("Then", Cardinality::ExactlyOne, "Then")],
            ),
        ],
        vec![sdesc(
            "Then",
            vec![prop("data", true, TypeShape::StrShape)],
            ChildrenKind::ClosureChildren { arity: 1 },
            vec![],
        )],
        vec![],
    );
    let tree = comp(
        "Component",
        0,
        100,
        vec![attr("data", Some(ex(20, 22, TypeShape::StrShape)), 15, 22)],
        vec![elem("p", 40, 50, vec![], vec![])],
    );
    let (_, d1) = compile(&reg, &tree);
    assert_eq!(d1.len(), 1);
    assert_eq!(d1[0].kind, DiagKind::MissingChildrenBinding);
    assert_eq!(d1[0].span, sp(1, 10));
    let then = comp(
        "Then",
        100,
        180,
        vec![
            attr("slot", None, 110, 114),
            attr("data", Some(ex(120, 122, TypeShape::StrShape)), 115, 122),
        ],
        vec![elem("p", 140, 150, vec![], vec![])],
    );
    let slot_tree = comp("Slot", 0, 200, vec![], vec![then]);
    let (_, d2) = compile(&reg, &slot_tree);
    assert_eq!(d2.len(), 1);
    assert_eq!(d2[0].kind, DiagKind::MissingChildrenBinding);
    assert_eq!(d2[0].span, sp(101, 105));
}

// Children binding, all four shapes: opaque children destructured, the slot
// version of the same, and a binding list longer than the closure's arity,
// again in both component and slot form.
#[test]
fn children() {
    let reg = registry(
        vec![
            cdesc("Outer", 0, vec![], ChildrenKind::OpaqueChildren, vec![]),
            cdesc("Inner", 0, vec![], ChildrenKind::OpaqueChildren, vec![]),
            cdesc(
                "Inmost",
                0,
                vec![prop("name", true, TypeShape::StrShape)],
                ChildrenKind::NoChildren,
                vec![],
            ),
            cdesc(
                "Root",
                0,
                vec![],
                ChildrenKind::NoChildren,
                vec![field("Outer", Cardinality::ExactlyOne, "Outer")],
            ),
            cdesc("Component", 0, vec![], ChildrenKind::OpaqueChildren, vec![]),
            cdesc(
                "ComponentC",
                0,
                vec![],
                ChildrenKind::ClosureChildren { arity: 1 },
                vec![],
            ),
            cdesc(
                "Slot",
                0,
                vec![],
                ChildrenKind::NoChildren,
                vec![field("Then", Cardinality::ExactlyOne, "Then")],
            ),
            cdesc(
                "SlotC",
                0,
                vec![],
                ChildrenKind::NoChildren,
                vec![field("ThenC", Cardinality::ExactlyOne, "ThenC")],
            ),
        ],
        vec![
            sdesc("OuterSlot", vec![], ChildrenKind::OpaqueChildren, vec![]),
            sdesc("Then", vec![], ChildrenKind::OpaqueChildren, vec![]),
            sdesc("ThenC", vec![], ChildrenKind::ClosureChildren { arity: 1 }, vec![]),
        ],
        vec![],
    );
    // children projection through nested opaque consumers
    // name="Alice": the value span is sized by the quoted literal
    let alice_hi = 230 + "Alice".len() + 2;
    let name_attr = attr("name", Some(ex(230, alice_hi, TypeShape::StrShape)), 224, alice_hi);
    let inmost = comp("Inmost", 200, 240, vec![name_attr], vec![]);
    let inner = comp("Inner", 100, 260, vec![], vec![inmost]);
    let outer = comp("Outer", 0, 300, vec![], vec![inner]);
    let (_, d1) = compile(&reg, &outer);
    assert!(d1.is_empty());
    // opaque children destructured with let:
    let bad_let = comp(
        "Component",
        0,
        100,
        vec![attr("let:a", None, 12, 17)],
        vec![elem("p", 40, 50, vec![], vec![])],
    );
    let (_, d2) = compile(&reg, &bad_let);
    assert_eq!(d2.len(), 1);
    assert_eq!(d2[0].kind, DiagKind::UnexpectedChildrenBinding);
    assert_eq!(d2[0].span, sp(12, 17));
    // slot version
    let then = comp(
        "Then",
        100,
        180,
        vec![attr("slot", None, 110, 114), attr("let:a", None, 115, 120)],
        vec![elem("p", 140, 150, vec![], vec![])],
    );
    let slot_tree = comp("Slot", 0, 200, vec![], vec![then]);
    let (_, d3) = compile(&reg, &slot_tree);
    assert_eq!(d3.len(), 1);
    assert_eq!(d3[0].kind, DiagKind::UnexpectedChildrenBinding);
    assert_eq!(d3[0].span, sp(115, 120));
    // one binding expected, two given: fault on the let: list
    let two_lets = comp(
        "ComponentC",
        0,
        100,
        vec![attr("let:item", None, 12, 20), attr("let:a", None, 21, 26)],
        vec![elem("p", 40, 60, vec![], vec![expr_node(45, 51, TypeShape::StrShape)])],
    );
    let (low, d4) = compile(&reg, &two_lets);
    assert_eq!(d4.len(), 1);
    assert_eq!(d4[0].kind, DiagKind::ChildrenArityMismatch);
    assert_eq!(d4[0].span, sp(12, 26));
    // the emitted structure is still complete
    assert_eq!(low.setters.len(), 2);
    assert_eq!(low.children.len(), 1);
    // slot version
    let then_c = comp(
        "ThenC",
        100,
        180,
        vec![
            attr("slot", None, 110, 114),
            attr("let:item", None, 115, 123),
            attr("let:a", None, 124, 129),
        ],
        vec![elem("p", 140, 160, vec![], vec![])],
    );
    let slot_tree_c = comp("SlotC", 0, 200, vec![], vec![then_c]);
    let (_, d5) = compile(&reg, &slot_tree_c);
    assert_eq!(d5.len(), 1);
    assert_eq!(d5[0].kind, DiagKind::ChildrenArityMismatch);
    assert_eq!(d5[0].span, sp(115, 129));
}

// A fragment inside an element resolves cleanly and keeps its structure.
#[test]
fn fragment_in_element_bug() {
    let reg = registry(vec![], vec![], vec![]);
    let inner = frag(10, 30, vec![text("", 15, 17)]);
    let tree = elem("div", 0, 50, vec![], vec![inner]);
    let (low, diags) = compile(&reg, &tree);
    assert!(diags.is_empty());
    assert_eq!(low.children.len(), 1);
    assert!(matches!(low.children[0].target, Target::FragmentTarget));
    assert!(matches!(low.children[0].children[0].target, Target::TextTarget { .. }));
}

// A host-element attribute value of an invalid shape is reported exactly
// over the value, for every binding category.
#[test]
fn element_incorrect_attribute_type() {
    let reg = registry(vec![], vec![], vec![]);
    let cases: Vec<(&str, TypeShape)> = vec![
        ("id", named()),
        ("prop:id", named()),
        ("class:id", named()),
        ("style:id", named()),
        ("class", named()),
        ("style", named()),
    ];
    for (name, shape) in cases {
        let tree = elem("div", 0, 40, vec![attr(name, Some(ex(20, 21, shape)), 10, 21)], vec![]);
        let (_, diags) = compile(&reg, &tree);
        assert_eq!(diags.len(), 1, "attribute {}", name);
        assert_eq!(diags[0].kind, DiagKind::TypeMismatch);
        assert_eq!(diags[0].span, sp(20, 21));
    }
    // a handler returning a value instead of unit
    let tree = elem(
        "div",
        0,
        40,
        vec![attr("on:click", Some(ex(20, 30, fun1(named()))), 10, 30)],
        vec![],
    );
    let (_, diags) = compile(&reg, &tree);
    assert_eq!(diags.len(), 1);
    assert_eq!(diags[0].kind, DiagKind::TypeMismatch);
    assert_eq!(diags[0].span, sp(20, 30));
}

// A spread of something that is not an attribute collection fails over the
// spread value.
#[test]
fn element_incorrect_spread_type() {
    let reg = registry(vec![], vec![], vec![]);
    let tree = elem("div", 0, 40, vec![attr("..", Some(ex(12, 13, named())), 10, 14)], vec![]);
    let (_, diags) = compile(&reg, &tree);
    assert_eq!(diags.len(), 1);
    assert_eq!(diags[0].kind, DiagKind::TypeMismatch);
    assert_eq!(diags[0].span, sp(12, 13));
}

// A child value of an invalid shape fails over the child, not the element.
#[test]
fn element_incorrect_child_type() {
    let reg = registry(vec![], vec![], vec![]);
    let tree = elem("div", 0, 40, vec![], vec![expr_node(10, 13, named())]);
    let (_, diags) = compile(&reg, &tree);
    assert_eq!(diags.len(), 1);
    assert_eq!(diags[0].kind, DiagKind::TypeMismatch);
    assert_eq!(diags[0].span, sp(10, 13));
}

// Assorted shapes: a hyphenated custom-element tag is a host element, mixed
// children fail only on the bad child, a bare component reports its missing
// prop.
#[test]
fn exp() {
    let reg = registry(
        vec![cdesc(
            "Component",
            0,
            vec![prop("a", true, TypeShape::IntShape)],
            ChildrenKind::NoChildren,
            vec![],
        )],
        vec![],
        vec![],
    );
    let custom = vec![
        Token::OpenTag { span: sp(0, 1) },
        Token::NameTok { name: b("my-element"), span: sp(1, 11) },
        Token::SelfEnd { span: sp(11, 13) },
    ];
    let (root, pdiags) = parse(&custom).expect("well-formed input");
    assert!(pdiags.is_empty());
    assert!(matches!(root.kind, NodeKind::ElementTag { .. }));
    let (_, d1) = compile(&reg, &root);
    assert!(d1.is_empty());
    let tree = elem(
        "div",
        0,
        60,
        vec![],
        vec![elem("p", 10, 18, vec![], vec![]), expr_node(20, 23, named())],
    );
    let (_, d2) = compile(&reg, &tree);
    assert_eq!(d2.len(), 1);
    assert_eq!(d2[0].kind, DiagKind::TypeMismatch);
    assert_eq!(d2[0].span, sp(20, 23));
    let bare = comp("Component", 0, 20, vec![], vec![]);
    let (_, d3) = compile(&reg, &bare);
    assert_eq!(d3.len(), 1);
    assert_eq!(d3[0].kind, DiagKind::MissingField);
}

// Two independent faults in sibling branches are both reported in one pass,
// each inside its own branch's range.
#[test]
fn error_isolation_two_branches() {
    let reg = registry(
        vec![cdesc(
            "Component",
            0,
            vec![prop("a", true, TypeShape::IntShape)],
            ChildrenKind::NoChildren,
            vec![],
        )],
        vec![],
        vec![],
    );
    let left = comp("Component", 10, 40, vec![], vec![]);
    let right = comp("Nowhere", 50, 90, vec![], vec![]);
    let tree = elem("div", 0, 100, vec![], vec![left, right]);
    let (_, diags) = compile(&reg, &tree);
    assert_eq!(diags.len(), 2);
    assert!(has_diag(&diags, DiagKind::MissingField, 11, 20));
    assert!(has_diag(&diags, DiagKind::UnknownComponent, 51, 58));
    // neither fault's range touches the other branch
    assert!(diags[0].span.hi <= 50 && diags[1].span.lo >= 40);
}

// Running resolution twice on the identical input gives byte-identical
// diagnostics and an identical lowered tree.
#[test]
fn resolution_idempotent() {
    let reg = registry(
        vec![cdesc(
            "Component",
            0,
            vec![prop("a", true, TypeShape::IntShape)],
            ChildrenKind::OpaqueChildren,
            vec![],
        )],
        vec![],
        vec![],
    );
    let tree = comp(
        "Component",
        0,
        100,
        vec![attr("a", Some(ex(15, 17, TypeShape::IntShape)), 12, 17)],
        vec![text("hello", 30, 35)],
    );
    let (l1, d1) = compile(&reg, &tree);
    let (l2, d2) = compile(&reg, &tree);
    assert_eq!(d1.len(), d2.len());
    for (x, y) in d1.iter().zip(d2.iter()) {
        assert_eq!(x.kind, y.kind);
        assert_eq!(x.span, y.span);
        assert_eq!(x.secondary, y.secondary);
        assert_eq!(x.detail, y.detail);
    }
    assert!(lowered_eq(&l1, &l2));
    assert!(d1.is_empty());
}

// The lowered tree preserves node order, attribute order and child order,
// one setter per source attribute, even in the presence of faults.
#[test]
fn round_trip_structure() {
    let reg = registry(vec![], vec![], vec![]);
    let child_a = elem(
        "span",
        20,
        60,
        vec![
            attr("id", Some(ex(35, 40, TypeShape::StrShape)), 30, 40),
            attr("class:x", Some(ex(45, 48, TypeShape::BoolShape)), 41, 48),
        ],
        vec![],
    );
    let child_b = text("mid", 61, 64);
    let child_c = comp("Missing", 65, 95, vec![], vec![]);
    let tree = elem(
        "div",
        0,
        100,
        vec![attr("lang", Some(ex(12, 14, TypeShape::StrShape)), 5, 14)],
        vec![child_a, child_b, child_c],
    );
    let (low, diags) = compile(&reg, &tree);
    // the one fault (unknown component) does not disturb the structure
    assert_eq!(diags.len(), 1);
    assert_eq!(low.setters.len(), 1);
    assert_eq!(low.setters[0].source, b("lang"));
    assert_eq!(low.children.len(), 3);
    assert_eq!(low.children[0].setters.len(), 2);
    assert_eq!(low.children[0].setters[0].source, b("id"));
    assert_eq!(low.children[0].setters[1].source, b("class:x"));
    assert!(matches!(low.children[1].target, Target::TextTarget { .. }));
    assert!(matches!(low.children[2].target, Target::ComponentTarget { .. }));
}

// Every attribute category classifies to its own builder call, in document
// order, with its own range.
#[test]
fn classifier_categories() {
    let reg = registry(vec![], vec![], vec![]);
    let tree = elem(
        "div",
        0,
        200,
        vec![
            attr("x", Some(ex(12, 13, TypeShape::IntShape)), 10, 13),
            attr("on:e", Some(ex(20, 26, fun1(TypeShape::UnitShape))), 14, 26),
            attr("prop:v", Some(ex(34, 35, TypeShape::IntShape)), 27, 35),
            attr("class:c", Some(ex(44, 48, TypeShape::BoolShape)), 36, 48),
            attr("style:s", Some(ex(57, 60, TypeShape::StrShape)), 49, 60),
            attr("..", Some(ex(63, 68, TypeShape::AttrListShape)), 61, 69),
            attr("use:d", None, 70, 75),
            attr("clone:k", None, 76, 83),
        ],
        vec![],
    );
    let (low, diags) = compile(&reg, &tree);
    assert!(diags.is_empty());
    let ops: Vec<SetterOp> = low.setters.iter().map(|s| s.op).collect();
    assert_eq!(
        ops,
        vec![
            SetterOp::SetProp,
            SetterOp::SetEvent,
            SetterOp::SetDomProp,
            SetterOp::SetClass,
            SetterOp::SetStyle,
            SetterOp::ApplySpread,
            SetterOp::ApplyDirective,
            SetterOp::CaptureClone,
        ]
    );
    assert_eq!(low.setters[1].span, sp(14, 26));
}

// A value where none is allowed, or a missing value where one is required,
// is an attribute-shape error on the attribute's own range, and the lowered
// position becomes a placeholder slot.
#[test]
fn attribute_shape_errors() {
    let reg = registry(vec![], vec![], vec![]);
    let tree = elem(
        "div",
        0,
        100,
        vec![
            attr("on:", Some(ex(16, 18, fun1(TypeShape::UnitShape))), 10, 18),
            attr("slot", Some(ex(25, 27, TypeShape::IntShape)), 20, 27),
            attr("id", None, 30, 32),
        ],
        vec![],
    );
    let (low, diags) = compile(&reg, &tree);
    assert_eq!(diags.len(), 3);
    for d in &diags {
        assert_eq!(d.kind, DiagKind::AttributeShapeError);
    }
    assert_eq!(diags[0].span, sp(10, 18));
    assert_eq!(diags[1].span, sp(20, 27));
    assert_eq!(diags[2].span, sp(30, 32));
    assert_eq!(low.setters.len(), 3);
    for s in &low.setters {
        assert_eq!(s.op, SetterOp::SkippedAttr);
        assert!(s.placeholder);
    }
}

// At-most-one rejects only a second match; zero-or-more accepts any number;
// exactly-one accepts exactly one.
#[test]
fn cardinality_edges() {
    let reg = registry(
        vec![cdesc(
            "Host",
            0,
            vec![],
            ChildrenKind::NoChildren,
            vec![
                field("opt", Cardinality::AtMostOne, "Item"),
                field("many", Cardinality::ZeroOrMore, "Item"),
                field("one", Cardinality::ExactlyOne, "Item"),
            ],
        )],
        vec![sdesc("Item", vec![], ChildrenKind::NoChildren, vec![])],
        vec![],
    );
    let mk = |lo: usize, target: &str| {
        comp(
            "Item",
            lo,
            lo + 30,
            vec![attr(&format!("slot:{}", target), None, lo + 10, lo + 20)],
            vec![],
        )
    };
    let tree = comp(
        "Host",
        0,
        400,
        vec![],
        vec![
            mk(100, "opt"),
            mk(140, "opt"),
            mk(180, "many"),
            mk(220, "many"),
            mk(260, "many"),
            mk(300, "one"),
        ],
    );
    let (_, diags) = compile(&reg, &tree);
    assert_eq!(diags.len(), 1);
    assert_eq!(diags[0].kind, DiagKind::SlotCardinalityExceeded);
    assert_eq!(diags[0].span, sp(140, 170));
    assert_eq!(diags[0].detail, b"opt".to_vec());
}

// Parse-level recovery: a stray token inside a child list is reported where
// it stands, and both real siblings still parse.
#[test]
fn parser_recovery() {
    let tokens = vec![
        Token::OpenTag { span: sp(0, 1) },
        Token::NameTok { name: b("div"), span: sp(1, 4) },
        Token::EndTag { span: sp(4, 5) },
        Token::TextTok { text: b("a"), span: sp(5, 6) },
        Token::SelfEnd { span: sp(6, 8) },
        Token::TextTok { text: b("b"), span: sp(8, 9) },
        Token::CloseTag { span: sp(9, 11) },
        Token::NameTok { name: b("div"), span: sp(11, 14) },
        Token::EndTag { span: sp(14, 15) },
    ];
    let (root, diags) = parse(&tokens).expect("well-formed input");
    assert_eq!(diags.len(), 1);
    assert_eq!(diags[0].kind, DiagKind::SyntaxError);
    assert_eq!(diags[0].span, sp(6, 8));
    assert_eq!(root.children.len(), 3);
}

// A closing tag naming a different element is a syntax error at the closing
// name, pointing back at the opening name.
#[test]
fn parser_close_mismatch() {
    let tokens = vec![
        Token::OpenTag { span: sp(0, 1) },
        Token::NameTok { name: b("div"), span: sp(1, 4) },
        Token::EndTag { span: sp(4, 5) },
        Token::CloseTag { span: sp(5, 7) },
        Token::NameTok { name: b("span"), span: sp(7, 11) },
        Token::EndTag { span: sp(11, 12) },
    ];
    let (_, diags) = parse(&tokens).expect("well-formed input");
    assert_eq!(diags.len(), 1);
    assert_eq!(diags[0].kind, DiagKind::SyntaxError);
    assert_eq!(diags[0].span, sp(7, 11));
    assert_eq!(diags[0].secondary, Some(sp(1, 4)));
}

// An empty body parses to an empty fragment and resolves cleanly.
#[test]
fn parser_empty_body() {
    let reg = registry(vec![], vec![], vec![]);
    let tokens: Vec<view_dsl::parser::Token> = vec![];
    let (root, pdiags) = parse(&tokens).expect("well-formed input");
    assert!(pdiags.is_empty());
    assert!(matches!(root.kind, NodeKind::FragmentTag));
    let (_, diags) = compile(&reg, &root);
    assert!(diags.is_empty());
}

// An exact duplicate of an already-reported diagnostic is suppressed; this
// is the collector's one suppression rule.
#[test]
fn duplicate_diagnostic_suppressed() {
    let reg = registry(
        vec![cdesc(
            "Component",
            0,
            vec![
                prop("a", true, TypeShape::IntShape),
                prop("a", true, TypeShape::IntShape),
            ],
            ChildrenKind::NoChildren,
            vec![],
        )],
        vec![],
        vec![],
    );
    let tree = comp("Component", 0, 20, vec![], vec![]);
    let (_, diags) = compile(&reg, &tree);
    assert_eq!(diags.len(), 1);
    assert_eq!(diags[0].kind, DiagKind::MissingField);
}

// The whole pipeline from tokens: parse, resolve, lower, with the syntax
// findings ahead of the resolver's, over one well-formed tree.
#[test]
fn compile_tokens_end_to_end() {
    let reg = registry(
        vec![cdesc(
            "Component",
            0,
            vec![prop("a", true, TypeShape::IntShape)],
            ChildrenKind::NoChildren,
            vec![],
        )],
        vec![],
        vec![],
    );
    let tokens = vec![
        Token::OpenTag { span: sp(0, 1) },
        Token::NameTok { name: b("Component"), span: sp(1, 10) },
        Token::SelfEnd { span: sp(10, 12) },
    ];
    let (low, diags) = compile_tokens(&reg, &tokens).expect("well-formed input");
    assert_eq!(diags.len(), 1);
    assert_eq!(diags[0].kind, DiagKind::MissingField);
    assert_eq!(diags[0].span, sp(1, 10));
    assert!(matches!(low.target, Target::ComponentTarget { .. }));
    assert_eq!(low.build_span, sp(1, 10));
}
