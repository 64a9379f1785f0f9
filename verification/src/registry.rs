use vstd::prelude::*;

use crate::shape::TypeShape;
use crate::text::bytes_eq;

verus! {

/// How many routed children a declared slot field accepts.
#[derive(Clone, Copy, PartialEq, Eq, Structural, Debug)]
pub enum Cardinality {
    ExactlyOne,
    AtMostOne,
    ZeroOrMore,
}

/// How a target consumes its non-slot children: not at all, as one opaque
/// value, or as a closure of the given parameter arity whose parameters are
/// introduced by `let:` bindings.
#[derive(Clone, Copy, PartialEq, Eq, Structural, Debug)]
pub enum ChildrenKind {
    NoChildren,
    OpaqueChildren,
    ClosureChildren { arity: u32 },
}

/// One declared property of a component or slot: its name, whether a value
/// must be supplied, and the shape a supplied value must have.
pub struct PropSchema {
    pub name: Vec<u8>,
    pub required: bool,
    pub shape: TypeShape,
}

pub ghost struct PropSchemaS {
    pub name: Seq<u8>,
    pub required: bool,
    pub shape: TypeShape,
}

impl View for PropSchema {
    type V = PropSchemaS;

    open spec fn view(&self) -> PropSchemaS {
        PropSchemaS { name: self.name@, required: self.required, shape: self.shape }
    }
}

/// One slot field a component declares: the field's name (what a marker
/// targets), its cardinality, and the slot tag it accepts.
pub struct SlotField {
    pub name: Vec<u8>,
    pub card: Cardinality,
    pub accepts: Vec<u8>,
}

pub ghost struct SlotFieldS {
    pub name: Seq<u8>,
    pub card: Cardinality,
    pub accepts: Seq<u8>,
}

impl View for SlotField {
    type V = SlotFieldS;

    open spec fn view(&self) -> SlotFieldS {
        SlotFieldS { name: self.name@, card: self.card, accepts: self.accepts@ }
    }
}

/// The declared schema of a slot tag: its properties, children kind, and any
/// slot fields of its own (slots may route slots in turn).
pub struct SlotDescriptor {
    pub name: Vec<u8>,
    pub props: Vec<PropSchema>,
    pub children: ChildrenKind,
    pub slots: Vec<SlotField>,
}

pub ghost struct SlotDescriptorS {
    pub name: Seq<u8>,
    pub props: Seq<PropSchemaS>,
    pub children: ChildrenKind,
    pub slots: Seq<SlotFieldS>,
}

impl View for SlotDescriptor {
    type V = SlotDescriptorS;

    open spec fn view(&self) -> SlotDescriptorS {
        SlotDescriptorS {
            name: self.name@,
            props: self.props@.map_values(|p: PropSchema| p@),
            children: self.children,
            slots: self.slots@.map_values(|f: SlotField| f@),
        }
    }
}

/// The declared schema of a component: generic-parameter count, properties,
/// children kind, and slot fields.
pub struct ComponentDescriptor {
    pub name: Vec<u8>,
    pub generic_arity: usize,
    pub props: Vec<PropSchema>,
    pub children: ChildrenKind,
    pub slots: Vec<SlotField>,
}

pub ghost struct ComponentDescriptorS {
    pub name: Seq<u8>,
    pub generic_arity: usize,
    pub props: Seq<PropSchemaS>,
    pub children: ChildrenKind,
    pub slots: Seq<SlotFieldS>,
}

impl View for ComponentDescriptor {
    type V = ComponentDescriptorS;

    open spec fn view(&self) -> ComponentDescriptorS {
        ComponentDescriptorS {
            name: self.name@,
            generic_arity: self.generic_arity,
            props: self.props@.map_values(|p: PropSchema| p@),
            children: self.children,
            slots: self.slots@.map_values(|f: SlotField| f@),
        }
    }
}

/// A directive usable through `use:name`: whether it takes a value, and of
/// what shape.
pub struct DirectiveDescriptor {
    pub name: Vec<u8>,
    pub param: Option<TypeShape>,
}

pub ghost struct DirectiveDescriptorS {
    pub name: Seq<u8>,
    pub param: Option<TypeShape>,
}

impl View for DirectiveDescriptor {
    type V = DirectiveDescriptorS;

    open spec fn view(&self) -> DirectiveDescriptorS {
        DirectiveDescriptorS { name: self.name@, param: self.param }
    }
}

/// The read-only lookup table resolution consults. It is built once, before
/// any pass, and never written afterwards.
pub struct Registry {
    pub components: Vec<ComponentDescriptor>,
    pub slots: Vec<SlotDescriptor>,
    pub directives: Vec<DirectiveDescriptor>,
}

pub ghost struct RegistryS {
    pub components: Seq<ComponentDescriptorS>,
    pub slots: Seq<SlotDescriptorS>,
    pub directives: Seq<DirectiveDescriptorS>,
}

impl View for Registry {
    type V = RegistryS;

    open spec fn view(&self) -> RegistryS {
        RegistryS {
            components: self.components@.map_values(|c: ComponentDescriptor| c@),
            slots: self.slots@.map_values(|s: SlotDescriptor| s@),
            directives: self.directives@.map_values(|d: DirectiveDescriptor| d@),
        }
    }
}

/// First component whose name equals `name`, scanning from position `i`.
pub open spec fn comp_from(s: Seq<ComponentDescriptorS>, name: Seq<u8>, i: int) -> Option<
    ComponentDescriptorS,
>
    decreases s.len() - i,
{
    if i < 0 || i >= s.len() {
        Option::None
    } else if s[i].name == name {
        Option::Some(s[i])
    } else {
        comp_from(s, name, i + 1)
    }
}

/// `lookup(name)` over the component table.
pub open spec fn lookup_component_spec(reg: RegistryS, name: Seq<u8>) -> Option<
    ComponentDescriptorS,
> {
    comp_from(reg.components, name, 0)
}

pub fn lookup_component<'a>(reg: &'a Registry, name: &Vec<u8>) -> (r: Option<
    &'a ComponentDescriptor,
>)
    ensures
        match r {
            Option::Some(d) => lookup_component_spec(reg@, name@) == Option::Some(d@),
            Option::None => lookup_component_spec(reg@, name@) is None,
        },
{
    let mut i: usize = 0;
    while i < reg.components.len()
        invariant
            i <= reg@.components.len(),
            comp_from(reg@.components, name@, 0) == comp_from(reg@.components, name@, i as int),
            reg@.components.len() == reg.components@.len(),
        decreases reg@.components.len() - i,
    {
        proof {
            assert(reg@.components[i as int] == reg.components@[i as int]@);
        }
        if bytes_eq(&reg.components[i].name, name) {
            return Option::Some(&reg.components[i]);
        }
        i = i + 1;
    }
    Option::None
}

/// First slot descriptor whose name equals `name`, scanning from `i`.
pub open spec fn slot_from(s: Seq<SlotDescriptorS>, name: Seq<u8>, i: int) -> Option<
    SlotDescriptorS,
>
    decreases s.len() - i,
{
    if i < 0 || i >= s.len() {
        Option::None
    } else if s[i].name == name {
        Option::Some(s[i])
    } else {
        slot_from(s, name, i + 1)
    }
}

/// `lookup(name)` over the slot table.
pub open spec fn lookup_slot_spec(reg: RegistryS, name: Seq<u8>) -> Option<SlotDescriptorS> {
    slot_from(reg.slots, name, 0)
}

pub fn lookup_slot<'a>(reg: &'a Registry, name: &Vec<u8>) -> (r: Option<&'a SlotDescriptor>)
    ensures
        match r {
            Option::Some(d) => lookup_slot_spec(reg@, name@) == Option::Some(d@),
            Option::None => lookup_slot_spec(reg@, name@) is None,
        },
{
    let mut i: usize = 0;
    while i < reg.slots.len()
        invariant
            i <= reg@.slots.len(),
            slot_from(reg@.slots, name@, 0) == slot_from(reg@.slots, name@, i as int),
            reg@.slots.len() == reg.slots@.len(),
        decreases reg@.slots.len() - i,
    {
        proof {
            assert(reg@.slots[i as int] == reg.slots@[i as int]@);
        }
        if bytes_eq(&reg.slots[i].name, name) {
            return Option::Some(&reg.slots[i]);
        }
        i = i + 1;
    }
    Option::None
}

/// First directive whose name equals `name`, scanning from `i`.
pub open spec fn dir_from(s: Seq<DirectiveDescriptorS>, name: Seq<u8>, i: int) -> Option<
    DirectiveDescriptorS,
>
    decreases s.len() - i,
{
    if i < 0 || i >= s.len() {
        Option::None
    } else if s[i].name == name {
        Option::Some(s[i])
    } else {
        dir_from(s, name, i + 1)
    }
}

/// `lookup(name)` over the directive table.
pub open spec fn lookup_directive_spec(reg: RegistryS, name: Seq<u8>) -> Option<
    DirectiveDescriptorS,
> {
    dir_from(reg.directives, name, 0)
}

pub fn lookup_directive<'a>(reg: &'a Registry, name: &Vec<u8>) -> (r: Option<
    &'a DirectiveDescriptor,
>)
    ensures
        match r {
            Option::Some(d) => lookup_directive_spec(reg@, name@) == Option::Some(d@),
            Option::None => lookup_directive_spec(reg@, name@) is None,
        },
{
    let mut i: usize = 0;
    while i < reg.directives.len()
        invariant
            i <= reg@.directives.len(),
            dir_from(reg@.directives, name@, 0) == dir_from(reg@.directives, name@, i as int),
            reg@.directives.len() == reg.directives@.len(),
        decreases reg@.directives.len() - i,
    {
        proof {
            assert(reg@.directives[i as int] == reg.directives@[i as int]@);
        }
        if bytes_eq(&reg.directives[i].name, name) {
            return Option::Some(&reg.directives[i]);
        }
        i = i + 1;
    }
    Option::None
}

/// First slot field named `name` among a component's declared fields,
/// scanning from `i`.
pub open spec fn field_from(s: Seq<SlotFieldS>, name: Seq<u8>, i: int) -> Option<SlotFieldS>
    decreases s.len() - i,
{
    if i < 0 || i >= s.len() {
        Option::None
    } else if s[i].name == name {
        Option::Some(s[i])
    } else {
        field_from(s, name, i + 1)
    }
}

pub open spec fn lookup_field_spec(fields: Seq<SlotFieldS>, name: Seq<u8>) -> Option<SlotFieldS> {
    field_from(fields, name, 0)
}

pub fn lookup_field<'a>(fields: &'a Vec<SlotField>, name: &Vec<u8>) -> (r: Option<&'a SlotField>)
    ensures
        match r {
            Option::Some(f) => lookup_field_spec(
                fields@.map_values(|f: SlotField| f@),
                name@,
            ) == Option::Some(f@),
            Option::None => lookup_field_spec(fields@.map_values(|f: SlotField| f@), name@) is None,
        },
{
    let ghost fs = fields@.map_values(|f: SlotField| f@);
    let mut i: usize = 0;
    while i < fields.len()
        invariant
            i <= fields@.len(),
            fs == fields@.map_values(|f: SlotField| f@),
            field_from(fs, name@, 0) == field_from(fs, name@, i as int),
            fs.len() == fields@.len(),
        decreases fields@.len() - i,
    {
        proof {
            assert(fs[i as int] == fields@[i as int]@);
        }
        if bytes_eq(&fields[i].name, name) {
            return Option::Some(&fields[i]);
        }
        i = i + 1;
    }
    Option::None
}

/// First prop schema named `name`, scanning from `i`.
pub open spec fn prop_from(s: Seq<PropSchemaS>, name: Seq<u8>, i: int) -> Option<PropSchemaS>
    decreases s.len() - i,
{
    if i < 0 || i >= s.len() {
        Option::None
    } else if s[i].name == name {
        Option::Some(s[i])
    } else {
        prop_from(s, name, i + 1)
    }
}

pub open spec fn lookup_prop_spec(props: Seq<PropSchemaS>, name: Seq<u8>) -> Option<PropSchemaS> {
    prop_from(props, name, 0)
}

pub fn lookup_prop<'a>(props: &'a Vec<PropSchema>, name: &Vec<u8>) -> (r: Option<&'a PropSchema>)
    ensures
        match r {
            Option::Some(p) => lookup_prop_spec(
                props@.map_values(|p: PropSchema| p@),
                name@,
            ) == Option::Some(p@),
            Option::None => lookup_prop_spec(props@.map_values(|p: PropSchema| p@), name@) is None,
        },
{
    let ghost ps = props@.map_values(|p: PropSchema| p@);
    let mut i: usize = 0;
    while i < props.len()
        invariant
            i <= props@.len(),
            ps == props@.map_values(|p: PropSchema| p@),
            prop_from(ps, name@, 0) == prop_from(ps, name@, i as int),
            ps.len() == props@.len(),
        decreases props@.len() - i,
    {
        proof {
            assert(ps[i as int] == props@[i as int]@);
        }
        if bytes_eq(&props[i].name, name) {
            return Option::Some(&props[i]);
        }
        i = i + 1;
    }
    Option::None
}

} // verus!
