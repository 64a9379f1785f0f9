//! A compile-time resolver for a markup-style templating DSL. A tokenized
//! tree of host elements, components, slots, directives and bound
//! expressions is parsed, its attributes classified by name prefix, its
//! names resolved against a read-only registry, its slot-routed and plain
//! children bound and checked, and the whole lowered to a tree of typed
//! builder calls — while every fault becomes a diagnostic anchored to the
//! narrowest responsible source range, and a fault in one branch never
//! hides or corrupts findings in another.

use vstd::prelude::*;

pub mod attr;
pub mod diag;
pub mod laws;
pub mod lower;
pub mod parser;
pub mod registry;
pub mod resolve;
pub mod shape;
pub mod span;
pub mod text;
pub mod tree;

use crate::diag::diags_view;
use crate::diag::Diagnostic;
use crate::lower::lower_node;
use crate::lower::lower_spec;
use crate::lower::Lowered;
use crate::parser::parse;
use crate::parser::parse_diags_spec;
use crate::parser::parse_root_spec;
use crate::parser::tokens_view;
use crate::parser::Token;
use crate::registry::Registry;
use crate::resolve::check_node;
use crate::resolve::check_node_spec;
use crate::tree::node_wf;
use crate::tree::Node;

verus! {

/// One full pass over a tree: the lowered builder-call tree and every
/// diagnostic, in document order. Resolution is a function of the registry
/// and the tree alone, so two passes over the identical input agree exactly.
pub fn compile(reg: &Registry, root: &Node) -> (r: (Lowered, Vec<Diagnostic>))
    ensures
        r.0@ == lower_spec(reg@, root@),
        diags_view(r.1) == check_node_spec(reg@, root@),
{
    let low = lower_node(reg, root);
    let diags = check_node(reg, root);
    (low, diags)
}

/// Parse one invocation body and run the pass on it: the lowered tree and
/// the diagnostics — the parser's syntax findings followed by the
/// resolver's, in document order — are functions of the registry and the
/// token stream alone. The one refusal is a stream whose ranges are too
/// damaged to form a well-formed tree.
pub fn compile_tokens(reg: &Registry, tokens: &Vec<Token>) -> (r: Option<(Lowered, Vec<Diagnostic>)>)
    ensures
        match r {
            Option::Some(p) => node_wf(parse_root_spec(tokens_view(*tokens))) && p.0@
                == lower_spec(reg@, parse_root_spec(tokens_view(*tokens))) && diags_view(p.1)
                == parse_diags_spec(tokens_view(*tokens)) + check_node_spec(
                reg@,
                parse_root_spec(tokens_view(*tokens)),
            ),
            Option::None => !node_wf(parse_root_spec(tokens_view(*tokens))),
        },
{
    match parse(tokens) {
        Option::Some((root, mut diags)) => {
            let low = lower_node(reg, &root);
            let more = check_node(reg, &root);
            crate::resolve::append_diags(&mut diags, more);
            Option::Some((low, diags))
        },
        Option::None => Option::None,
    }
}

} // verus!
