//! Compiler for hierarchical error taxonomies.
//!
//! A taxonomy is a tree: interior nodes (groups) contribute inherited
//! attributes (severity kind, code-number fragments, default message and
//! label templates) and leaves are the concrete error variants.  The
//! compiler parses the taxonomy source, resolves the inherited attributes
//! for every node, compiles the message and label templates against each
//! leaf's field shape, and emits one descriptor per leaf together with a
//! hierarchical documentation listing.

pub mod emit;
pub mod facade;
pub mod indexer;
pub mod kind;
pub mod laws;
pub mod parse;
pub mod resolve;
pub mod span;
pub mod template;
pub mod tree;

use vstd::prelude::*;
use crate::emit::{emit, spec_emit, EmitError, EmittedV};
use crate::parse::{parse_taxonomy, spec_parse_taxonomy, ParseError};
use crate::resolve::{resolve_taxonomy, spec_resolve, AttrError};

verus! {

/// Any fatal error of the taxonomy compiler, in the stage it arose:
/// malformed source, a malformed attribute, a malformed or unresolvable
/// template placeholder, or a leaf without a message.  Each carries the
/// offending source location; the first error in declaration order
/// wins and aborts the pipeline.
#[derive(Clone, Copy, Debug, PartialEq, Eq, Structural)]
pub enum CompileError {
    Parse(ParseError),
    Attribute(AttrError),
    Template(crate::template::TemplateError),
    Emission(crate::emit::EmissionError),
}

/// The compiled taxonomy: its name, one documentation line per node and
/// one descriptor per leaf, both in the tree's declared order.
#[derive(Debug)]
pub struct CompiledTaxonomy {
    pub name: String,
    pub doc: Vec<String>,
    pub variants: Vec<crate::emit::VariantDescriptor>,
}

/// Spec-level mirror of [`CompiledTaxonomy`].
pub struct CompiledTaxonomyV {
    pub name: Seq<char>,
    pub emitted: EmittedV,
}

impl DeepView for CompiledTaxonomy {
    type V = CompiledTaxonomyV;

    open spec fn deep_view(&self) -> CompiledTaxonomyV {
        CompiledTaxonomyV {
            name: self.name@,
            emitted: EmittedV { doc: self.doc.deep_view(), variants: self.variants.deep_view() },
        }
    }
}

/// The whole pipeline: parse the source, resolve every node's
/// attributes in pre-order, and emit the documentation lines and leaf
/// descriptors.
pub open spec fn spec_compile_taxonomy(t: Seq<char>) -> Result<CompiledTaxonomyV, CompileError> {
    match spec_parse_taxonomy(t) {
        Err(e) => Err(CompileError::Parse(e)),
        Ok(tax) => match spec_resolve(tax) {
            Err(e) => Err(CompileError::Attribute(e)),
            Ok(cfgs) => match spec_emit(cfgs) {
                Err(EmitError::Template(te)) => Err(CompileError::Template(te)),
                Err(EmitError::Emission(ee)) => Err(CompileError::Emission(ee)),
                Ok(em) => Ok(CompiledTaxonomyV { name: tax.name, emitted: em }),
            },
        },
    }
}

/// Compile a taxonomy from source text, as [`spec_compile_taxonomy`]
/// says: parse the tree, merge each node's attributes onto those
/// inherited from its ancestors, compile every leaf's message and label
/// templates against its field shape, and emit one descriptor per leaf
/// plus the hierarchical documentation listing, all in the tree's
/// declared order.  The first error in declaration order aborts the
/// pipeline and names the offending source location.
pub fn compile_taxonomy(src: &str) -> (r: Result<CompiledTaxonomy, CompileError>)
    ensures
        (r matches Ok(c) ==> spec_compile_taxonomy(src@) == Ok::<
            CompiledTaxonomyV,
            CompileError,
        >(c.deep_view())),
        (r matches Err(e) ==> spec_compile_taxonomy(src@) == Err::<
            CompiledTaxonomyV,
            CompileError,
        >(e)),
{
    let tax = match parse_taxonomy(src) {
        Ok(tax) => tax,
        Err(e) => {
            return Err(CompileError::Parse(e));
        },
    };
    let cfgs = match resolve_taxonomy(&tax) {
        Ok(cfgs) => cfgs,
        Err(e) => {
            return Err(CompileError::Attribute(e));
        },
    };
    match emit(&cfgs) {
        Ok(em) => Ok(CompiledTaxonomy { name: tax.name, doc: em.doc, variants: em.variants }),
        Err(EmitError::Template(te)) => Err(CompileError::Template(te)),
        Err(EmitError::Emission(ee)) => Err(CompileError::Emission(ee)),
    }
}

} // verus!
