//! The descriptor emitter: folding the resolved configurations into one
//! descriptor per leaf — severity, numeric and display codes, compiled
//! message and label templates, span rule — plus a hierarchical
//! documentation listing that mirrors the taxonomy's declared order.

use vstd::prelude::*;
use vstd::string::*;
use crate::kind::Kind;
use crate::resolve::{CfgV, Config, TemplateV};
use crate::template::{compile_template, spec_compile, Segment, SegmentV, TemplateError};
use crate::tree::{FieldRef, FieldRefV, FieldShape, FieldShapeV, SrcSpan};

verus! {

/// How a materialized variant obtains its source location: from the
/// marked span-carrying field, or a default location meaning "no source
/// location known".
#[derive(Debug)]
pub enum SpanRule {
    FromField(FieldRef),
    DefaultSpan,
}

/// Spec-level mirror of [`SpanRule`].
pub enum SpanRuleV {
    FromField(FieldRefV),
    DefaultSpan,
}

impl DeepView for SpanRule {
    type V = SpanRuleV;

    open spec fn deep_view(&self) -> SpanRuleV {
        match self {
            SpanRule::FromField(f) => SpanRuleV::FromField(f.deep_view()),
            SpanRule::DefaultSpan => SpanRuleV::DefaultSpan,
        }
    }
}

/// The compiled, durable representation of one leaf.
#[derive(Debug)]
pub struct VariantDescriptor {
    /// The leaf's identifier.
    pub ident: String,
    /// The leaf's declared field shape.
    pub fields: FieldShape,
    /// The resolved severity, `Error` when no node on the path set one.
    pub kind: Kind,
    /// The concatenated code fragments, e.g. `01`.
    pub number: String,
    /// The display code: severity marker plus number, e.g. `E01`.
    pub code: String,
    /// The raw message template text.
    pub msg_text: String,
    /// The compiled message template.
    pub message: Vec<Segment>,
    /// The raw label template text; equals the message text when no
    /// label was declared.
    pub label_text: String,
    /// The compiled label template.
    pub label: Vec<Segment>,
    /// Where a materialized variant finds its source location.
    pub span_rule: SpanRule,
    /// Whether the leaf holds a nested diagnostic.
    pub nested: bool,
    /// The documentation line of the variant: `` `E01`: message ``.
    pub doc: String,
}

/// Spec-level mirror of [`VariantDescriptor`].
pub struct DescV {
    pub ident: Seq<char>,
    pub fields: FieldShapeV,
    pub kind: Kind,
    pub number: Seq<char>,
    pub code: Seq<char>,
    pub msg_text: Seq<char>,
    pub message: Seq<SegmentV>,
    pub label_text: Seq<char>,
    pub label: Seq<SegmentV>,
    pub span_rule: SpanRuleV,
    pub nested: bool,
    pub doc: Seq<char>,
}

impl DeepView for VariantDescriptor {
    type V = DescV;

    open spec fn deep_view(&self) -> DescV {
        DescV {
            ident: self.ident@,
            fields: self.fields.deep_view(),
            kind: self.kind,
            number: self.number@,
            code: self.code@,
            msg_text: self.msg_text@,
            message: self.message.deep_view(),
            label_text: self.label_text@,
            label: self.label.deep_view(),
            span_rule: self.span_rule.deep_view(),
            nested: self.nested,
            doc: self.doc@,
        }
    }
}

/// A fatal emission error: a leaf without a resolved message, carrying
/// the leaf's span.
#[derive(Clone, Copy, Debug, PartialEq, Eq, Structural)]
pub struct EmissionError {
    pub span: SrcSpan,
}

/// A fatal emitter error: a malformed or unresolvable template
/// placeholder, or a leaf without a message.
#[derive(Clone, Copy, Debug, PartialEq, Eq, Structural)]
pub enum EmitError {
    Template(TemplateError),
    Emission(EmissionError),
}

/// The emitted artifact: one documentation line per node, in pre-order,
/// and one descriptor per leaf, in pre-order.
#[derive(Debug)]
pub struct Emitted {
    pub doc: Vec<String>,
    pub variants: Vec<VariantDescriptor>,
}

/// Spec-level mirror of [`Emitted`].
pub struct EmittedV {
    pub doc: Seq<Seq<char>>,
    pub variants: Seq<DescV>,
}

impl DeepView for Emitted {
    type V = EmittedV;

    open spec fn deep_view(&self) -> EmittedV {
        EmittedV { doc: self.doc.deep_view(), variants: self.variants.deep_view() }
    }
}

/// The resolved severity, defaulting to `Error`.
pub open spec fn spec_kind_or_default(k: Option<Kind>) -> Kind {
    match k {
        Some(k) => k,
        None => Kind::Error,
    }
}

/// The severity marker of a possibly unset severity.
pub open spec fn spec_short(k: Option<Kind>) -> Seq<char> {
    spec_kind_or_default(k).spec_short_str()
}

/// Two spaces per level.
pub open spec fn spec_indent(n: int) -> Seq<char>
    decreases n,
{
    if n <= 0 {
        Seq::empty()
    } else {
        spec_indent(n - 1) + "  "@
    }
}

/// Whether a configuration belongs to a leaf.
pub open spec fn spec_is_leaf_cfg(c: CfgV) -> bool {
    c.ident is Some && c.fields is Some
}

/// The documentation line of one node: indentation by depth, the
/// display code, the identifier of a leaf in bold, and the message
/// text, each part present when the node has it.
pub open spec fn spec_doc_line(c: CfgV) -> Seq<char> {
    let base = spec_indent(c.depth - 2) + "- `"@ + spec_short(c.kind) + c.number + "`"@;
    match c.ident {
        Some(id) => match c.msg {
            Some(m) => base + "(**"@ + id + "**): "@ + m.text,
            None => base + "(**"@ + id + "**)"@,
        },
        None => match c.msg {
            Some(m) => base + ": "@ + m.text,
            None => base,
        },
    }
}

/// The descriptor of one leaf configuration: the message is mandatory,
/// the label falls back to the leaf's own resolved message, and both
/// templates are compiled against the leaf's field shape.
pub open spec fn spec_emit_leaf(c: CfgV) -> Result<DescV, EmitError> {
    match (c.ident, c.fields, c.msg) {
        (Some(id), Some(f), Some(m)) => match spec_compile(m.text, f, m.span) {
            Err(te) => Err(EmitError::Template(te)),
            Ok(msegs) => {
                let lt = match c.label {
                    Some(l) => l,
                    None => m,
                };
                match spec_compile(lt.text, f, lt.span) {
                    Err(te) => Err(EmitError::Template(te)),
                    Ok(lsegs) => Ok(
                        DescV {
                            ident: id,
                            fields: f,
                            kind: spec_kind_or_default(c.kind),
                            number: c.number,
                            code: spec_short(c.kind) + c.number,
                            msg_text: m.text,
                            message: msegs,
                            label_text: lt.text,
                            label: lsegs,
                            span_rule: match c.span_field {
                                Some(sf) => SpanRuleV::FromField(sf),
                                None => SpanRuleV::DefaultSpan,
                            },
                            nested: c.nested,
                            doc: seq!['`'] + spec_short(c.kind) + c.number + "`: "@ + m.text,
                        },
                    ),
                }
            },
        },
        _ => Err(EmitError::Emission(EmissionError { span: c.span })),
    }
}

/// The emission of a whole pre-order configuration sequence: a
/// documentation line for every node, a descriptor for every leaf, in
/// the declared order; the first failing leaf in pre-order is the
/// error.
pub open spec fn spec_emit(cfgs: Seq<CfgV>) -> Result<EmittedV, EmitError>
    decreases cfgs.len(),
{
    if cfgs.len() == 0 {
        Ok(EmittedV { doc: Seq::empty(), variants: Seq::empty() })
    } else {
        match spec_emit(cfgs.drop_last()) {
            Err(e) => Err(e),
            Ok(em) => {
                let c = cfgs.last();
                let doc2 = em.doc.push(spec_doc_line(c));
                if spec_is_leaf_cfg(c) {
                    match spec_emit_leaf(c) {
                        Err(e) => Err(e),
                        Ok(d) => Ok(EmittedV { doc: doc2, variants: em.variants.push(d) }),
                    }
                } else {
                    Ok(EmittedV { doc: doc2, variants: em.variants })
                }
            },
        }
    }
}

/// Two spaces per level.
fn indent(n: usize) -> (r: String)
    ensures
        r@ == spec_indent(n as int),
{
    let mut out = String::new();
    let mut k: usize = 0;
    while k < n
        invariant
            k <= n,
            out@ == spec_indent(k as int),
        decreases n - k,
    {
        out.append("  ");
        k += 1;
    }
    out
}

/// The resolved severity of a configuration, defaulting to `Error`.
fn kind_or_default(k: Option<Kind>) -> (r: Kind)
    ensures
        r == spec_kind_or_default(k),
{
    match k {
        Some(k) => k,
        None => Kind::Error,
    }
}

/// The documentation line of one node, as [`spec_doc_line`] says.
fn doc_line(c: &Config) -> (r: String)
    ensures
        r@ == spec_doc_line(c.deep_view()),
{
    let lvl = if c.depth >= 2 {
        c.depth - 2
    } else {
        0
    };
    proof {
        assert(spec_indent(c.depth - 2) == spec_indent(lvl as int)) by {
            if c.depth < 2 {
                assert(spec_indent(c.depth - 2) == Seq::<char>::empty());
            }
        }
    }
    let mut out = indent(lvl);
    out.append("- `");
    out.append(kind_or_default(c.kind).short_str());
    out.append(c.number.as_str());
    out.append("`");
    match &c.ident {
        Some(id) => {
            out.append("(**");
            out.append(id.as_str());
            match &c.msg {
                Some(m) => {
                    out.append("**): ");
                    out.append(m.text.as_str());
                },
                None => {
                    out.append("**)");
                },
            }
        },
        None => match &c.msg {
            Some(m) => {
                out.append(": ");
                out.append(m.text.as_str());
            },
            None => {},
        },
    }
    proof {
        assert(out@ =~= spec_doc_line(c.deep_view()));
    }
    out
}

/// Emit the descriptor of one leaf configuration, as
/// [`spec_emit_leaf`] says.
fn emit_leaf(c: &Config) -> (r: Result<VariantDescriptor, EmitError>)
    ensures
        (r matches Ok(d) ==> spec_emit_leaf(c.deep_view()) == Ok::<DescV, EmitError>(
            d.deep_view(),
        )),
        (r matches Err(e) ==> spec_emit_leaf(c.deep_view()) == Err::<DescV, EmitError>(e)),
{
    let (id, f) = match (&c.ident, &c.fields) {
        (Some(id), Some(f)) => (id, f),
        _ => {
            return Err(EmitError::Emission(EmissionError { span: c.span }));
        },
    };
    let m = match &c.msg {
        Some(m) => m,
        None => {
            return Err(EmitError::Emission(EmissionError { span: c.span }));
        },
    };
    let msegs = match compile_template(m.text.as_str(), f, m.span) {
        Ok(segs) => segs,
        Err(te) => {
            return Err(EmitError::Template(te));
        },
    };
    let lt = match &c.label {
        Some(l) => l,
        None => m,
    };
    let lsegs = match compile_template(lt.text.as_str(), f, lt.span) {
        Ok(segs) => segs,
        Err(te) => {
            return Err(EmitError::Template(te));
        },
    };
    let short = kind_or_default(c.kind).short_str();
    let mut code = String::from_str(short);
    code.append(c.number.as_str());
    let mut doc = String::from_str("`");
    doc.append(code.as_str());
    doc.append("`: ");
    doc.append(m.text.as_str());
    proof {
        reveal_strlit("`");
        assert(code@ =~= spec_short(c.deep_view().kind) + c.deep_view().number);
        assert(doc@ =~= seq!['`'] + spec_short(c.deep_view().kind) + c.deep_view().number
            + "`: "@ + m.text@);
    }
    Ok(
        VariantDescriptor {
            ident: id.clone(),
            fields: f.duplicate(),
            kind: kind_or_default(c.kind),
            number: c.number.clone(),
            code,
            msg_text: m.text.clone(),
            message: msegs,
            label_text: lt.text.clone(),
            label: lsegs,
            span_rule: match &c.span_field {
                Some(sf) => SpanRule::FromField(sf.duplicate()),
                None => SpanRule::DefaultSpan,
            },
            nested: c.nested,
            doc,
        },
    )
}

/// Whether a configuration belongs to a leaf.
fn is_leaf_cfg(c: &Config) -> (r: bool)
    ensures
        r == spec_is_leaf_cfg(c.deep_view()),
{
    c.ident.is_some() && c.fields.is_some()
}

/// Fold a pre-order configuration sequence into the emitted artifact:
/// one documentation line per node and one descriptor per leaf, in the
/// declared order; the first leaf lacking a message or holding an
/// uncompilable template, in pre-order, is the error.
#[verifier::loop_isolation(false)]
pub fn emit(cfgs: &Vec<Config>) -> (r: Result<Emitted, EmitError>)
    ensures
        (r matches Ok(em) ==> spec_emit(cfgs.deep_view()) == Ok::<EmittedV, EmitError>(
            em.deep_view(),
        )),
        (r matches Err(e) ==> spec_emit(cfgs.deep_view()) == Err::<EmittedV, EmitError>(e)),
{
    let ghost cfgsv = cfgs.deep_view();
    let mut doc: Vec<String> = Vec::new();
    let mut variants: Vec<VariantDescriptor> = Vec::new();
    let mut k: usize = 0;
    proof {
        assert(doc.deep_view() =~= Seq::<Seq<char>>::empty());
        assert(variants.deep_view() =~= Seq::<DescV>::empty());
    }
    while k < cfgs.len()
        invariant
            k <= cfgsv.len(),
            spec_emit(cfgsv.take(k as int)) == Ok::<EmittedV, EmitError>(
                EmittedV { doc: doc.deep_view(), variants: variants.deep_view() },
            ),
        decreases cfgs@.len() - k,
    {
        let c = &cfgs[k];
        proof {
            assert(cfgsv[k as int] == c.deep_view());
            assert(cfgsv.take(k + 1 as int).drop_last() =~= cfgsv.take(k as int));
            assert(cfgsv.take(k + 1 as int).last() == cfgsv[k as int]);
        }
        let ghost old_doc = doc.deep_view();
        let ghost old_variants = variants.deep_view();
        doc.push(doc_line(c));
        proof {
            assert(doc.deep_view() =~= old_doc.push(spec_doc_line(c.deep_view())));
        }
        if is_leaf_cfg(c) {
            match emit_leaf(c) {
                Ok(d) => {
                    let ghost dv = d.deep_view();
                    variants.push(d);
                    proof {
                        assert(variants.deep_view() =~= old_variants.push(dv));
                    }
                },
                Err(e) => {
                    proof {
                        assert(spec_emit(cfgsv.take(k + 1 as int)) == Err::<EmittedV, EmitError>(
                            e,
                        ));
                        lemma_emit_err_extends(cfgsv, k + 1 as int);
                    }
                    return Err(e);
                },
            }
        }
        k += 1;
    }
    proof {
        assert(cfgsv.take(cfgsv.len() as int) =~= cfgsv);
    }
    Ok(Emitted { doc, variants })
}

/// Once a prefix of the configuration sequence has failed to emit,
/// every longer prefix fails with the same error.
proof fn lemma_emit_err_extends(cfgs: Seq<CfgV>, i: int)
    requires
        0 <= i <= cfgs.len(),
        spec_emit(cfgs.take(i)) is Err,
    ensures
        spec_emit(cfgs) == spec_emit(cfgs.take(i)),
    decreases cfgs.len() - i,
{
    if i == cfgs.len() {
        assert(cfgs.take(i) =~= cfgs);
    } else {
        assert(cfgs.take(i + 1).drop_last() =~= cfgs.take(i));
        lemma_emit_err_extends(cfgs, i + 1);
    }
}

/// A leaf that declares no label inherits the leaf's own resolved
/// message: its emitted label template, raw text and compiled segments
/// alike, is its message template.
pub proof fn lemma_label_defaults_to_msg(c: CfgV)
    requires
        c.label is None,
        spec_emit_leaf(c) is Ok,
    ensures
        spec_emit_leaf(c)->Ok_0.label == spec_emit_leaf(c)->Ok_0.message,
        spec_emit_leaf(c)->Ok_0.label_text == spec_emit_leaf(c)->Ok_0.msg_text,
{
}

/// A leaf emits successfully exactly when it has a resolved message
/// whose template compiles and whose label template — its own, or the
/// message it falls back to — compiles; in particular a leaf with no
/// resolved message always fails, and a missing label alone never
/// does.
pub proof fn lemma_leaf_emission_success(c: CfgV)
    requires
        spec_is_leaf_cfg(c),
    ensures
        spec_emit_leaf(c) is Ok <==> (c.msg is Some && spec_compile(
            c.msg->Some_0.text,
            c.fields->Some_0,
            c.msg->Some_0.span,
        ) is Ok && spec_compile(
            match c.label {
                Some(l) => l.text,
                None => c.msg->Some_0.text,
            },
            c.fields->Some_0,
            match c.label {
                Some(l) => l.span,
                None => c.msg->Some_0.span,
            },
        ) is Ok),
        c.msg is None ==> spec_emit_leaf(c) == Err::<DescV, EmitError>(
            EmitError::Emission(EmissionError { span: c.span }),
        ),
{
}

/// A leaf whose path never declared a severity is emitted with the
/// default severity `Error`.
pub proof fn lemma_severity_defaults_to_error(c: CfgV)
    requires
        c.kind is None,
        spec_emit_leaf(c) is Ok,
    ensures
        spec_emit_leaf(c)->Ok_0.kind == Kind::Error,
{
}

/// Emission preserves the declared order: every node of the pre-order
/// configuration sequence contributes exactly one documentation line,
/// in place.
pub proof fn lemma_emission_order(cfgs: Seq<CfgV>)
    requires
        spec_emit(cfgs) is Ok,
    ensures
        spec_emit(cfgs)->Ok_0.doc.len() == cfgs.len(),
        forall|i: int|
            0 <= i < cfgs.len() ==> spec_emit(cfgs)->Ok_0.doc[i] == spec_doc_line(
                #[trigger] cfgs[i],
            ),
    decreases cfgs.len(),
{
    if cfgs.len() > 0 {
        lemma_emission_order(cfgs.drop_last());
        assert(forall|i: int|
            0 <= i < cfgs.len() - 1 ==> cfgs.drop_last()[i] == #[trigger] cfgs[i]);
        assert(cfgs.last() == cfgs[cfgs.len() - 1]);
    }
}

/// Emission of a pre-order configuration sequence succeeds exactly when
/// every leaf configuration in it emits successfully.
pub proof fn lemma_emission_success(cfgs: Seq<CfgV>)
    ensures
        spec_emit(cfgs) is Ok <==> (forall|i: int|
            0 <= i < cfgs.len() && spec_is_leaf_cfg(#[trigger] cfgs[i]) ==> spec_emit_leaf(
                cfgs[i],
            ) is Ok),
    decreases cfgs.len(),
{
    if cfgs.len() > 0 {
        lemma_emission_success(cfgs.drop_last());
        assert(forall|i: int|
            0 <= i < cfgs.len() - 1 ==> cfgs.drop_last()[i] == #[trigger] cfgs[i]);
        assert(cfgs.last() == cfgs[cfgs.len() - 1]);
    }
}

} // verus!
