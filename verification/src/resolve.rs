//! Attribute resolution: merging each node's declared attributes onto the
//! configuration inherited from its ancestors, and the pre-order walk
//! that produces one resolved configuration per node.

use vstd::prelude::*;
use vstd::string::*;
use crate::kind::Kind;
use crate::tree::{
    Attr, AttrV, ErrorTree, ErrorTreeV, FieldRef, FieldRefV, FieldShape, FieldShapeV, SrcSpan,
};

verus! {

broadcast use
    vstd::seq::axiom_seq_index_decreases,
    vstd::seq::axiom_seq_subrange_decreases;

/// An uncompiled message or label template: the literal text of the
/// attribute value together with the span of the attribute it came from.
#[derive(Debug)]
pub struct Template {
    pub text: String,
    pub span: SrcSpan,
}

/// Spec-level mirror of [`Template`].
pub struct TemplateV {
    pub text: Seq<char>,
    pub span: SrcSpan,
}

impl DeepView for Template {
    type V = TemplateV;

    open spec fn deep_view(&self) -> TemplateV {
        TemplateV { text: self.text@, span: self.span }
    }
}

impl Template {
    /// A structural copy.
    pub fn duplicate(&self) -> (r: Template)
        ensures
            r.deep_view() == self.deep_view(),
    {
        Template { text: self.text.clone(), span: self.span }
    }
}

/// Why an attribute list failed to merge.
#[derive(Clone, Copy, Debug, PartialEq, Eq, Structural)]
pub enum AttrErrorKind {
    /// The key is not one of the recognized attribute keys.
    UnknownKey,
    /// The key requires a string literal value and none was given.
    ExpectedValue,
    /// The key is a bare flag and a value was given.
    UnexpectedValue,
    /// The value of a `kind` attribute names no severity.
    BadKindLiteral,
    /// The value of a `number` attribute holds a character that is no
    /// decimal digit.
    BadNumberFragment,
}

/// A fatal attribute merge error, carrying the span of the offending
/// attribute.
#[derive(Clone, Copy, Debug, PartialEq, Eq, Structural)]
pub struct AttrError {
    pub kind: AttrErrorKind,
    pub span: SrcSpan,
}

/// The fully resolved configuration of one node: every inheritable
/// attribute after merging the node's own declarations onto those of its
/// ancestors, plus the node's identifier and field shape when it is a
/// leaf.
#[derive(Debug)]
pub struct Config {
    /// Nearest ancestor-or-self severity; `None` if never set.
    pub kind: Option<Kind>,
    /// Concatenation, in root-to-leaf order, of every `number` fragment
    /// on the path.
    pub number: String,
    /// Nearest ancestor-or-self message template.
    pub msg: Option<Template>,
    /// Nearest ancestor-or-self label template.
    pub label: Option<Template>,
    /// The leaf's identifier; `None` on a group.
    pub ident: Option<String>,
    /// The leaf's field shape; `None` on a group.
    pub fields: Option<FieldShape>,
    /// The leaf's span-carrying field, if one was marked.
    pub span_field: Option<FieldRef>,
    /// Distance from the taxonomy root: the taxonomy's own attribute
    /// list resolves at depth 1, root nodes at depth 2.
    pub depth: usize,
    /// Whether this node or an ancestor was marked `nested`.
    pub nested: bool,
    /// The source span of the node this configuration belongs to.
    pub span: SrcSpan,
}

/// Spec-level mirror of [`Config`].
pub struct CfgV {
    pub kind: Option<Kind>,
    pub number: Seq<char>,
    pub msg: Option<TemplateV>,
    pub label: Option<TemplateV>,
    pub ident: Option<Seq<char>>,
    pub fields: Option<FieldShapeV>,
    pub span_field: Option<FieldRefV>,
    pub depth: usize,
    pub nested: bool,
    pub span: SrcSpan,
}

impl DeepView for Config {
    type V = CfgV;

    open spec fn deep_view(&self) -> CfgV {
        CfgV {
            kind: self.kind,
            number: self.number@,
            msg: self.msg.deep_view(),
            label: self.label.deep_view(),
            ident: self.ident.deep_view(),
            fields: self.fields.deep_view(),
            span_field: self.span_field.deep_view(),
            depth: self.depth,
            nested: self.nested,
            span: self.span,
        }
    }
}

/// The configuration every inheritance chain starts from: nothing set,
/// depth 0.
pub open spec fn spec_initial_cfg(span: SrcSpan) -> CfgV {
    CfgV {
        kind: None,
        number: Seq::empty(),
        msg: None,
        label: None,
        ident: None,
        fields: None,
        span_field: None,
        depth: 0,
        nested: false,
        span,
    }
}

/// Depth of a child node: one more than the parent's, held at the
/// machine limit.
pub open spec fn spec_bump(d: usize) -> usize {
    if d < usize::MAX {
        (d + 1) as usize
    } else {
        d
    }
}

/// Whether every character of a `number` fragment is a decimal digit.
pub open spec fn spec_is_digits(s: Seq<char>) -> bool {
    forall|i: int| 0 <= i < s.len() ==> '0' <= #[trigger] s[i] <= '9'
}

/// The effect of one attribute on a configuration: `kind`, `msg` and
/// `label` override, `number` appends its fragment, `nested` sets the
/// flag, and anything else is an error.
pub open spec fn spec_apply_attr(c: CfgV, a: AttrV) -> Result<CfgV, AttrError> {
    if a.key == "kind"@ {
        match a.value {
            Some(v) => match Kind::spec_of_literal(v) {
                Some(k) => Ok(CfgV { kind: Some(k), ..c }),
                None => Err(AttrError { kind: AttrErrorKind::BadKindLiteral, span: a.span }),
            },
            None => Err(AttrError { kind: AttrErrorKind::ExpectedValue, span: a.span }),
        }
    } else if a.key == "number"@ {
        match a.value {
            Some(v) => if spec_is_digits(v) {
                Ok(CfgV { number: c.number + v, ..c })
            } else {
                Err(AttrError { kind: AttrErrorKind::BadNumberFragment, span: a.span })
            },
            None => Err(AttrError { kind: AttrErrorKind::ExpectedValue, span: a.span }),
        }
    } else if a.key == "msg"@ {
        match a.value {
            Some(v) => Ok(CfgV { msg: Some(TemplateV { text: v, span: a.span }), ..c }),
            None => Err(AttrError { kind: AttrErrorKind::ExpectedValue, span: a.span }),
        }
    } else if a.key == "label"@ {
        match a.value {
            Some(v) => Ok(CfgV { label: Some(TemplateV { text: v, span: a.span }), ..c }),
            None => Err(AttrError { kind: AttrErrorKind::ExpectedValue, span: a.span }),
        }
    } else if a.key == "nested"@ {
        match a.value {
            Some(_) => Err(AttrError { kind: AttrErrorKind::UnexpectedValue, span: a.span }),
            None => Ok(CfgV { nested: true, ..c }),
        }
    } else {
        Err(AttrError { kind: AttrErrorKind::UnknownKey, span: a.span })
    }
}

/// The effect of a whole attribute list, applied left to right; the
/// first error in declaration order wins.
pub open spec fn spec_apply_attrs(c: CfgV, attrs: Seq<AttrV>) -> Result<CfgV, AttrError>
    decreases attrs.len(),
{
    if attrs.len() == 0 {
        Ok(c)
    } else {
        match spec_apply_attrs(c, attrs.drop_last()) {
            Ok(c2) => spec_apply_attr(c2, attrs.last()),
            Err(e) => Err(e),
        }
    }
}

/// The resolved configuration of a node: the inherited configuration
/// with depth raised, identifier, field shape and span-carrying field
/// replaced by the node's own, and the node's attribute list merged on
/// top.
pub open spec fn spec_process(
    c: CfgV,
    attrs: Seq<AttrV>,
    ident: Option<Seq<char>>,
    fields: Option<FieldShapeV>,
    span_field: Option<FieldRefV>,
    span: SrcSpan,
) -> Result<CfgV, AttrError> {
    spec_apply_attrs(
        CfgV { ident, fields, span_field, depth: spec_bump(c.depth), span, ..c },
        attrs,
    )
}

/// A copy of an optional owned string.
fn dup_opt_string(o: &Option<String>) -> (r: Option<String>)
    ensures
        r.deep_view() == o.deep_view(),
{
    match o {
        Some(s) => Some(s.clone()),
        None => None,
    }
}

/// A copy of an optional template.
fn dup_opt_template(o: &Option<Template>) -> (r: Option<Template>)
    ensures
        r.deep_view() == o.deep_view(),
{
    match o {
        Some(t) => Some(t.duplicate()),
        None => None,
    }
}

impl FieldRef {
    /// A structural copy.
    pub fn duplicate(&self) -> (r: FieldRef)
        ensures
            r.deep_view() == self.deep_view(),
    {
        match self {
            FieldRef::Name(s) => FieldRef::Name(s.clone()),
            FieldRef::Index(i) => FieldRef::Index(*i),
        }
    }
}

/// A copy of an optional field reference.
fn dup_opt_field_ref(o: &Option<FieldRef>) -> (r: Option<FieldRef>)
    ensures
        r.deep_view() == o.deep_view(),
{
    match o {
        Some(f) => Some(f.duplicate()),
        None => None,
    }
}

impl FieldShape {
    /// A structural copy.
    pub fn duplicate(&self) -> (r: FieldShape)
        ensures
            r.deep_view() == self.deep_view(),
    {
        match self {
            FieldShape::Named(names) => {
                let mut out: Vec<String> = Vec::new();
                let mut i: usize = 0;
                while i < names.len()
                    invariant
                        i <= names@.len(),
                        out@.len() == i,
                        forall|j: int| 0 <= j < i ==> #[trigger] out@[j]@ == names@[j]@,
                    decreases names@.len() - i,
                {
                    out.push(names[i].clone());
                    i += 1;
                }
                proof {
                    assert forall|j: int| 0 <= j < names@.len() implies out.deep_view()[j]
                        == names.deep_view()[j] by {
                        assert(out.deep_view()[j] == out@[j]@);
                        assert(names.deep_view()[j] == names@[j]@);
                    }
                    assert(out.deep_view() =~~= names.deep_view());
                }
                FieldShape::Named(out)
            },
            FieldShape::Positional(n) => FieldShape::Positional(*n),
            FieldShape::Unit => FieldShape::Unit,
        }
    }
}

/// A copy of an optional field shape.
fn dup_opt_fields(o: &Option<FieldShape>) -> (r: Option<FieldShape>)
    ensures
        r.deep_view() == o.deep_view(),
{
    match o {
        Some(f) => Some(f.duplicate()),
        None => None,
    }
}

/// Whether every character of `s` is a decimal digit.
pub(crate) fn is_digits(s: &str) -> (r: bool)
    ensures
        r == spec_is_digits(s@),
{
    let len = s.unicode_len();
    let mut i: usize = 0;
    while i < len
        invariant
            i <= len,
            len == s@.len(),
            forall|j: int| 0 <= j < i ==> '0' <= #[trigger] s@[j] <= '9',
        decreases len - i,
    {
        let c = s.get_char(i);
        if c < '0' || c > '9' {
            return false;
        }
        i += 1;
    }
    true
}

impl Config {
    /// The configuration every inheritance chain starts from.
    pub fn new(span: SrcSpan) -> (r: Config)
        ensures
            r.deep_view() == spec_initial_cfg(span),
    {
        Config {
            kind: None,
            number: String::new(),
            msg: None,
            label: None,
            ident: None,
            fields: None,
            span_field: None,
            depth: 0,
            nested: false,
            span,
        }
    }

    /// A structural copy.
    pub fn duplicate(&self) -> (r: Config)
        ensures
            r.deep_view() == self.deep_view(),
    {
        Config {
            kind: self.kind,
            number: self.number.clone(),
            msg: dup_opt_template(&self.msg),
            label: dup_opt_template(&self.label),
            ident: dup_opt_string(&self.ident),
            fields: dup_opt_fields(&self.fields),
            span_field: dup_opt_field_ref(&self.span_field),
            depth: self.depth,
            nested: self.nested,
            span: self.span,
        }
    }

    /// Merge a node's declarations onto this inherited configuration,
    /// producing the node's own configuration, or the first malformed
    /// attribute in declaration order.
    #[verifier::loop_isolation(false)]
    pub fn process(
        &self,
        attrs: &Vec<Attr>,
        ident: Option<&String>,
        fields: Option<&FieldShape>,
        span_field: Option<&FieldRef>,
        span: SrcSpan,
    ) -> (r: Result<Config, AttrError>)
        ensures
            (r matches Ok(c) ==> spec_process(
                self.deep_view(),
                attrs.deep_view(),
                ident.deep_view(),
                fields.deep_view(),
                span_field.deep_view(),
                span,
            ) == Ok::<CfgV, AttrError>(c.deep_view())),
            (r matches Err(e) ==> spec_process(
                self.deep_view(),
                attrs.deep_view(),
                ident.deep_view(),
                fields.deep_view(),
                span_field.deep_view(),
                span,
            ) == Err::<CfgV, AttrError>(e)),
    {
        let depth = if self.depth < usize::MAX {
            self.depth + 1
        } else {
            self.depth
        };
        let mut cur = Config {
            kind: self.kind,
            number: self.number.clone(),
            msg: dup_opt_template(&self.msg),
            label: dup_opt_template(&self.label),
            ident: match ident {
                Some(s) => Some(s.clone()),
                None => None,
            },
            fields: match fields {
                Some(f) => Some(f.duplicate()),
                None => None,
            },
            span_field: match span_field {
                Some(f) => Some(f.duplicate()),
                None => None,
            },
            depth,
            nested: self.nested,
            span,
        };
        let ghost base = cur.deep_view();
        proof {
            assert(base == CfgV {
                ident: ident.deep_view(),
                fields: fields.deep_view(),
                span_field: span_field.deep_view(),
                depth: spec_bump(self.deep_view().depth),
                span,
                ..self.deep_view()
            });
        }
        let mut i: usize = 0;
        while i < attrs.len()
            invariant
                i <= attrs@.len(),
                spec_apply_attrs(base, attrs.deep_view().take(i as int)) == Ok::<
                    CfgV,
                    AttrError,
                >(cur.deep_view()),
            decreases attrs@.len() - i,
        {
            let a = &attrs[i];
            proof {
                assert(attrs.deep_view()[i as int] == a.deep_view());
            }
            let ghost prev = cur.deep_view();
            match apply_attr(cur, a) {
                Ok(c2) => {
                    cur = c2;
                    proof {
                        assert(attrs.deep_view().take(i + 1 as int).drop_last()
                            =~= attrs.deep_view().take(i as int));
                        assert(attrs.deep_view().take(i + 1 as int).last() == attrs.deep_view()[
                            i as int
                        ]);
                    }
                    i += 1;
                },
                Err(e) => {
                    proof {
                        assert(spec_apply_attrs(base, attrs.deep_view().take(i as int)) == Ok::<
                            CfgV,
                            AttrError,
                        >(prev));
                        assert(spec_apply_attr(prev, attrs.deep_view()[i as int]) == Err::<
                            CfgV,
                            AttrError,
                        >(e));
                        lemma_apply_attrs_prefix_err(base, attrs.deep_view(), i as int);
                        assert(spec_apply_attrs(base, attrs.deep_view()) == Err::<
                            CfgV,
                            AttrError,
                        >(e));
                    }
                    return Err(e);
                },
            }
        }
        proof {
            assert(attrs.deep_view().take(attrs.deep_view().len() as int) =~= attrs.deep_view());
        }
        Ok(cur)
    }
}

/// Apply one attribute to a configuration, as [`spec_apply_attr`] says.
fn apply_attr(c: Config, a: &Attr) -> (r: Result<Config, AttrError>)
    ensures
        match r {
            Ok(c2) => spec_apply_attr(c.deep_view(), a.deep_view()) == Ok::<CfgV, AttrError>(
                c2.deep_view(),
            ),
            Err(e) => spec_apply_attr(c.deep_view(), a.deep_view()) == Err::<CfgV, AttrError>(e),
        },
{
    let mut cur = c;
    if str_eq_key(&a.key, "kind") {
        match &a.value {
            Some(v) => match Kind::try_from_str(v.as_str()) {
                Some(k) => {
                    cur.kind = Some(k);
                    Ok(cur)
                },
                None => Err(AttrError { kind: AttrErrorKind::BadKindLiteral, span: a.span }),
            },
            None => Err(AttrError { kind: AttrErrorKind::ExpectedValue, span: a.span }),
        }
    } else if str_eq_key(&a.key, "number") {
        match &a.value {
            Some(v) => {
                if is_digits(v.as_str()) {
                    cur.number.append(v.as_str());
                    Ok(cur)
                } else {
                    Err(AttrError { kind: AttrErrorKind::BadNumberFragment, span: a.span })
                }
            },
            None => Err(AttrError { kind: AttrErrorKind::ExpectedValue, span: a.span }),
        }
    } else if str_eq_key(&a.key, "msg") {
        match &a.value {
            Some(v) => {
                cur.msg = Some(Template { text: v.clone(), span: a.span });
                Ok(cur)
            },
            None => Err(AttrError { kind: AttrErrorKind::ExpectedValue, span: a.span }),
        }
    } else if str_eq_key(&a.key, "label") {
        match &a.value {
            Some(v) => {
                cur.label = Some(Template { text: v.clone(), span: a.span });
                Ok(cur)
            },
            None => Err(AttrError { kind: AttrErrorKind::ExpectedValue, span: a.span }),
        }
    } else if str_eq_key(&a.key, "nested") {
        match &a.value {
            Some(_) => Err(AttrError { kind: AttrErrorKind::UnexpectedValue, span: a.span }),
            None => {
                cur.nested = true;
                Ok(cur)
            },
        }
    } else {
        Err(AttrError { kind: AttrErrorKind::UnknownKey, span: a.span })
    }
}

/// String equality against a key literal.
fn str_eq_key(a: &String, b: &str) -> (r: bool)
    ensures
        r == (a@ == b@),
{
    crate::tree::str_eq(a.as_str(), b)
}

/// The resolved configuration of one node, at spec level: groups
/// contribute no identifier or fields, leaves contribute their own.
pub open spec fn spec_process_node(t: ErrorTreeV, c: CfgV) -> Result<CfgV, AttrError> {
    match t {
        ErrorTreeV::Group { span, attrs, .. } => spec_process(c, attrs, None, None, None, span),
        ErrorTreeV::Leaf { span, attrs, ident, fields, span_field } => spec_process(
            c,
            attrs,
            Some(ident),
            Some(fields),
            span_field,
            span,
        ),
    }
}

/// The pre-order resolution of one node under an inherited
/// configuration: the node's own configuration, followed, for a group,
/// by the resolutions of its children in order.  The first error in
/// pre-order aborts the whole walk.
pub open spec fn spec_walk_node(t: ErrorTreeV, c: CfgV) -> Result<Seq<CfgV>, AttrError>
    decreases t,
{
    match spec_process_node(t, c) {
        Err(e) => Err(e),
        Ok(cn) => match t {
            ErrorTreeV::Leaf { .. } => Ok(seq![cn]),
            ErrorTreeV::Group { children, .. } => match spec_walk_forest(children, cn) {
                Ok(s) => Ok(seq![cn] + s),
                Err(e) => Err(e),
            },
        },
    }
}

/// The pre-order resolution of an ordered forest of sibling nodes, each
/// under the same inherited configuration.
pub open spec fn spec_walk_forest(nodes: Seq<ErrorTreeV>, c: CfgV) -> Result<Seq<CfgV>, AttrError>
    decreases nodes,
{
    if nodes.len() == 0 {
        Ok(Seq::empty())
    } else {
        match spec_walk_node(nodes.first(), c) {
            Err(e) => Err(e),
            Ok(s1) => match spec_walk_forest(nodes.drop_first(), c) {
                Ok(s2) => Ok(s1 + s2),
                Err(e) => Err(e),
            },
        }
    }
}

/// The resolution of a whole taxonomy: the taxonomy's own attributes
/// resolve against the initial configuration, and the forest of roots is
/// walked under the result.
pub open spec fn spec_resolve(t: crate::tree::TaxonomyV) -> Result<Seq<CfgV>, AttrError> {
    match spec_process(spec_initial_cfg(t.span), t.attrs, None, None, None, t.span) {
        Err(e) => Err(e),
        Ok(c) => spec_walk_forest(t.roots, c),
    }
}

/// Resolve one node against an inherited configuration.
fn process_node(node: &ErrorTree, c: &Config) -> (r: Result<Config, AttrError>)
    ensures
        (r matches Ok(c2) ==> spec_process_node(node.deep_view(), c.deep_view()) == Ok::<
            CfgV,
            AttrError,
        >(c2.deep_view())),
        (r matches Err(e) ==> spec_process_node(node.deep_view(), c.deep_view()) == Err::<
            CfgV,
            AttrError,
        >(e)),
{
    match node {
        ErrorTree::Group { span, attrs, .. } => c.process(attrs, None, None, None, *span),
        ErrorTree::Leaf { span, attrs, ident, fields, span_field } => c.process(
            attrs,
            Some(ident),
            Some(fields),
            span_field.as_ref(),
            *span,
        ),
    }
}

/// One suspended level of the iterative walk: the sibling list being
/// traversed, the position of the next sibling, and the configuration
/// the siblings inherit.
struct Frame<'t> {
    nodes: &'t Vec<ErrorTree>,
    pos: usize,
    config: Config,
}

/// What the suspended stack still owes: the resolutions of the remaining
/// siblings of every level, innermost level first.
spec fn spec_stack_rest(st: Seq<Frame<'_>>) -> Result<Seq<CfgV>, AttrError>
    decreases st.len(),
{
    if st.len() == 0 {
        Ok(Seq::empty())
    } else {
        let top = st.last();
        match spec_walk_forest(
            crate::tree::forest_view(top.nodes@).skip(top.pos as int),
            top.config.deep_view(),
        ) {
            Err(e) => Err(e),
            Ok(s1) => match spec_stack_rest(st.drop_last()) {
                Ok(s2) => Ok(s1 + s2),
                Err(e) => Err(e),
            },
        }
    }
}

/// Number of nodes the suspended stack has still to visit; the walk's
/// termination measure.
spec fn spec_stack_rem(st: Seq<Frame<'_>>) -> nat
    decreases st.len(),
{
    if st.len() == 0 {
        0
    } else {
        spec_stack_rem(st.drop_last()) + crate::tree::forest_size(
            st.last().nodes@.skip(st.last().pos as int),
        )
    }
}

/// Unfolding of a forest walk at one position.
proof fn lemma_walk_forest_unfold(s: Seq<ErrorTreeV>, c: CfgV, p: int)
    requires
        0 <= p < s.len(),
    ensures
        spec_walk_forest(s.skip(p), c) == match spec_walk_node(s[p], c) {
            Err(e) => Err::<Seq<CfgV>, AttrError>(e),
            Ok(s1) => match spec_walk_forest(s.skip(p + 1), c) {
                Ok(s2) => Ok::<Seq<CfgV>, AttrError>(s1 + s2),
                Err(e) => Err::<Seq<CfgV>, AttrError>(e),
            },
        },
{
    assert(s.skip(p).len() > 0);
    assert(s.skip(p).first() == s[p]);
    assert(s.skip(p).drop_first() =~= s.skip(p + 1));
}

/// Walk an ordered forest under an inherited configuration, producing
/// the configuration of every node in pre-order, or the first error in
/// pre-order.  The traversal keeps an explicit stack of suspended
/// sibling lists, so its depth is bounded only by available memory.
#[verifier::loop_isolation(false)]
pub fn resolve_forest(roots: &Vec<ErrorTree>, config: Config) -> (r: Result<Vec<Config>, AttrError>)
    ensures
        (r matches Ok(v) ==> spec_walk_forest(
            crate::tree::forest_view(roots@),
            config.deep_view(),
        ) == Ok::<Seq<CfgV>, AttrError>(v.deep_view())),
        (r matches Err(e) ==> spec_walk_forest(
            crate::tree::forest_view(roots@),
            config.deep_view(),
        ) == Err::<Seq<CfgV>, AttrError>(e)),
{
    let ghost goal = spec_walk_forest(crate::tree::forest_view(roots@), config.deep_view());
    let mut acc: Vec<Config> = Vec::new();
    let mut stack: Vec<Frame<'_>> = Vec::new();
    stack.push(Frame { nodes: roots, pos: 0, config });
    proof {
        assert(crate::tree::forest_view(roots@).skip(0) =~= crate::tree::forest_view(roots@));
        assert(spec_stack_rest(stack@.drop_last()) == Ok::<Seq<CfgV>, AttrError>(Seq::empty()));
        assert(goal matches Ok(g) ==> g + Seq::<CfgV>::empty() =~= g);
        assert(acc.deep_view() =~= Seq::<CfgV>::empty());
        assert(goal matches Ok(g) ==> Seq::<CfgV>::empty() + g =~= g);
    }
    while stack.len() > 0
        invariant
            forall|k: int|
                0 <= k < stack@.len() ==> #[trigger] stack@[k].pos <= stack@[k].nodes@.len(),
            goal == match spec_stack_rest(stack@) {
                Ok(rest) => Ok::<Seq<CfgV>, AttrError>(acc.deep_view() + rest),
                Err(e) => Err::<Seq<CfgV>, AttrError>(e),
            },
        decreases spec_stack_rem(stack@), stack@.len(),
    {
        let ghost old_stack = stack@;
        let ghost old_acc = acc.deep_view();
        let mut fr = stack.pop().unwrap();
        let nodes = fr.nodes;
        proof {
            crate::tree::lemma_forest_view_len(nodes@);
        }
        if fr.pos == nodes.len() {
            proof {
                assert(crate::tree::forest_view(nodes@).skip(fr.pos as int)
                    =~= Seq::<ErrorTreeV>::empty());
                assert(nodes@.skip(fr.pos as int) =~= Seq::<ErrorTree>::empty());
                assert(spec_stack_rem(old_stack) == spec_stack_rem(stack@));
                assert(spec_stack_rest(old_stack) == spec_stack_rest(stack@)) by {
                    match spec_stack_rest(stack@) {
                        Ok(s2) => {
                            assert(Seq::<CfgV>::empty() + s2 =~= s2);
                        },
                        Err(_) => {},
                    }
                }
            }
        } else {
            let node = &nodes[fr.pos];
            let ghost p = fr.pos as int;
            let ghost fv = crate::tree::forest_view(nodes@);
            let ghost inh = fr.config.deep_view();
            proof {
                crate::tree::lemma_forest_view_index(nodes@, p);
                lemma_walk_forest_unfold(fv, inh, p);
            }
            match process_node(node, &fr.config) {
                Err(e) => {
                    proof {
                        assert(spec_walk_node(fv[p], inh) == Err::<Seq<CfgV>, AttrError>(e));
                        assert(spec_stack_rest(old_stack) == Err::<Seq<CfgV>, AttrError>(e));
                    }
                    return Err(e);
                },
                Ok(cfg) => {
                    let ghost cfgv = cfg.deep_view();
                    fr.pos = fr.pos + 1;
                    match node {
                        ErrorTree::Group { children, .. } => {
                            let child_cfg = cfg.duplicate();
                            acc.push(cfg);
                            stack.push(fr);
                            stack.push(Frame { nodes: children, pos: 0, config: child_cfg });
                            proof {
                                assert(acc.deep_view() =~= old_acc.push(cfgv));
                                assert(crate::tree::forest_view(children@).skip(0)
                                    =~= crate::tree::forest_view(children@));
                                assert(stack@.drop_last().drop_last() =~= old_stack.drop_last());
                                crate::tree::lemma_forest_size_skip(nodes@, p);
                                assert(children@.skip(0) =~= children@);
                                assert(crate::tree::tree_size(nodes@[p]) == 1
                                    + crate::tree::forest_size(children@));
                                assert(spec_stack_rem(stack@) == spec_stack_rem(
                                    stack@.drop_last(),
                                ) + crate::tree::forest_size(children@));
                                assert(spec_stack_rem(stack@.drop_last()) == spec_stack_rem(
                                    old_stack.drop_last(),
                                ) + crate::tree::forest_size(nodes@.skip(p + 1)));
                                assert(spec_stack_rem(old_stack) == spec_stack_rem(
                                    old_stack.drop_last(),
                                ) + crate::tree::forest_size(nodes@.skip(p)));
                                assert(spec_stack_rem(stack@) < spec_stack_rem(old_stack));
                                lemma_step_group(
                                    old_stack,
                                    stack@,
                                    old_acc,
                                    acc.deep_view(),
                                    goal,
                                    fv,
                                    inh,
                                    p,
                                    cfgv,
                                    crate::tree::forest_view(children@),
                                );
                            }
                        },
                        ErrorTree::Leaf { .. } => {
                            acc.push(cfg);
                            stack.push(fr);
                            proof {
                                assert(acc.deep_view() =~= old_acc.push(cfgv));
                                assert(stack@.drop_last() =~= old_stack.drop_last());
                                crate::tree::lemma_forest_size_skip(nodes@, p);
                                assert(crate::tree::tree_size(nodes@[p]) == 1);
                                assert(spec_stack_rem(stack@) == spec_stack_rem(
                                    old_stack.drop_last(),
                                ) + crate::tree::forest_size(nodes@.skip(p + 1)));
                                assert(spec_stack_rem(old_stack) == spec_stack_rem(
                                    old_stack.drop_last(),
                                ) + crate::tree::forest_size(nodes@.skip(p)));
                                assert(spec_stack_rem(stack@) < spec_stack_rem(old_stack));
                                lemma_step_leaf(
                                    old_stack,
                                    stack@,
                                    old_acc,
                                    acc.deep_view(),
                                    goal,
                                    fv,
                                    inh,
                                    p,
                                    cfgv,
                                );
                            }
                        },
                    }
                },
            }
        }
    }
    proof {
        assert(acc.deep_view() + Seq::<CfgV>::empty() =~= acc.deep_view());
    }
    Ok(acc)
}

/// Invariant preservation when a leaf has been resolved: the leaf's
/// configuration moves from the pending walk into the accumulator.
proof fn lemma_step_leaf(
    old_st: Seq<Frame<'_>>,
    new_st: Seq<Frame<'_>>,
    old_acc: Seq<CfgV>,
    new_acc: Seq<CfgV>,
    goal: Result<Seq<CfgV>, AttrError>,
    fv: Seq<ErrorTreeV>,
    inh: CfgV,
    p: int,
    cfgv: CfgV,
)
    requires
        old_st.len() > 0,
        new_st.len() == old_st.len(),
        new_st.drop_last() == old_st.drop_last(),
        old_st.last().nodes@.len() == fv.len(),
        crate::tree::forest_view(old_st.last().nodes@) == fv,
        old_st.last().config.deep_view() == inh,
        old_st.last().pos == p,
        0 <= p < fv.len(),
        new_st.last().nodes@ == old_st.last().nodes@,
        crate::tree::forest_view(new_st.last().nodes@) == fv,
        new_st.last().config.deep_view() == inh,
        new_st.last().pos == p + 1,
        spec_walk_node(fv[p], inh) == Ok::<Seq<CfgV>, AttrError>(seq![cfgv]),
        new_acc == old_acc.push(cfgv),
        goal == match spec_stack_rest(old_st) {
            Ok(rest) => Ok::<Seq<CfgV>, AttrError>(old_acc + rest),
            Err(e) => Err::<Seq<CfgV>, AttrError>(e),
        },
    ensures
        goal == match spec_stack_rest(new_st) {
            Ok(rest) => Ok::<Seq<CfgV>, AttrError>(new_acc + rest),
            Err(e) => Err::<Seq<CfgV>, AttrError>(e),
        },
{
    lemma_walk_forest_unfold(fv, inh, p);
    match spec_walk_forest(fv.skip(p + 1), inh) {
        Ok(s1) => {
            assert(spec_walk_forest(fv.skip(p), inh) == Ok::<Seq<CfgV>, AttrError>(
                seq![cfgv] + s1,
            ));
            match spec_stack_rest(old_st.drop_last()) {
                Ok(s2) => {
                    assert(old_acc + (seq![cfgv] + s1 + s2) =~= new_acc + (s1 + s2));
                },
                Err(_) => {},
            }
        },
        Err(_) => {},
    }
}

/// Invariant preservation when a group has been resolved: the group's
/// configuration moves into the accumulator and a new level for its
/// children is pushed.
proof fn lemma_step_group(
    old_st: Seq<Frame<'_>>,
    new_st: Seq<Frame<'_>>,
    old_acc: Seq<CfgV>,
    new_acc: Seq<CfgV>,
    goal: Result<Seq<CfgV>, AttrError>,
    fv: Seq<ErrorTreeV>,
    inh: CfgV,
    p: int,
    cfgv: CfgV,
    childv: Seq<ErrorTreeV>,
)
    requires
        old_st.len() > 0,
        new_st.len() == old_st.len() + 1,
        new_st.drop_last().drop_last() == old_st.drop_last(),
        old_st.last().nodes@.len() == fv.len(),
        crate::tree::forest_view(old_st.last().nodes@) == fv,
        old_st.last().config.deep_view() == inh,
        old_st.last().pos == p,
        0 <= p < fv.len(),
        new_st.drop_last().last().nodes@ == old_st.last().nodes@,
        crate::tree::forest_view(new_st.drop_last().last().nodes@) == fv,
        new_st.drop_last().last().config.deep_view() == inh,
        new_st.drop_last().last().pos == p + 1,
        crate::tree::forest_view(new_st.last().nodes@) == childv,
        new_st.last().pos == 0,
        new_st.last().config.deep_view() == cfgv,
        fv[p] matches ErrorTreeV::Group { .. },
        fv[p]->Group_children == childv,
        spec_process_node(fv[p], inh) == Ok::<CfgV, AttrError>(cfgv),
        new_acc == old_acc.push(cfgv),
        goal == match spec_stack_rest(old_st) {
            Ok(rest) => Ok::<Seq<CfgV>, AttrError>(old_acc + rest),
            Err(e) => Err::<Seq<CfgV>, AttrError>(e),
        },
    ensures
        goal == match spec_stack_rest(new_st) {
            Ok(rest) => Ok::<Seq<CfgV>, AttrError>(new_acc + rest),
            Err(e) => Err::<Seq<CfgV>, AttrError>(e),
        },
{
    lemma_walk_forest_unfold(fv, inh, p);
    assert(childv.skip(0) =~= childv);
    let tailw = spec_walk_forest(fv.skip(p + 1), inh);
    let childw = spec_walk_forest(childv, cfgv);
    let beloww = spec_stack_rest(old_st.drop_last());
    assert(spec_stack_rest(new_st.drop_last()) == match tailw {
        Err(e) => Err::<Seq<CfgV>, AttrError>(e),
        Ok(s1) => match beloww {
            Ok(s2) => Ok::<Seq<CfgV>, AttrError>(s1 + s2),
            Err(e) => Err::<Seq<CfgV>, AttrError>(e),
        },
    });
    match childw {
        Ok(cs) => {
            assert(spec_walk_node(fv[p], inh) == Ok::<Seq<CfgV>, AttrError>(seq![cfgv] + cs));
            match tailw {
                Ok(s1) => {
                    match beloww {
                        Ok(s2) => {
                            assert(old_acc + (seq![cfgv] + cs + s1 + s2) =~= new_acc + (cs + (s1
                                + s2)));
                        },
                        Err(_) => {},
                    }
                },
                Err(_) => {},
            }
        },
        Err(_) => {},
    }
}

/// Resolve a whole taxonomy: merge the taxonomy's own attributes, then
/// walk the forest of roots, producing the configuration of every node
/// in pre-order, or the first error in pre-order.
pub fn resolve_taxonomy(tax: &crate::tree::Taxonomy) -> (r: Result<Vec<Config>, AttrError>)
    ensures
        (r matches Ok(v) ==> spec_resolve(tax.deep_view()) == Ok::<Seq<CfgV>, AttrError>(
            v.deep_view(),
        )),
        (r matches Err(e) ==> spec_resolve(tax.deep_view()) == Err::<Seq<CfgV>, AttrError>(e)),
{
    let root = Config::new(tax.span);
    match root.process(&tax.attrs, None, None, None, tax.span) {
        Err(e) => Err(e),
        Ok(c) => resolve_forest(&tax.roots, c),
    }
}

/// An error while merging a prefix of an attribute list is the error of
/// the whole list.
proof fn lemma_apply_attrs_prefix_err(c: CfgV, attrs: Seq<AttrV>, i: int)
    requires
        0 <= i < attrs.len(),
        spec_apply_attrs(c, attrs.take(i)).is_ok(),
        spec_apply_attr(spec_apply_attrs(c, attrs.take(i)).unwrap(), attrs[i]).is_err(),
    ensures
        spec_apply_attrs(c, attrs) == spec_apply_attr(
            spec_apply_attrs(c, attrs.take(i)).unwrap(),
            attrs[i],
        ),
    decreases attrs.len(),
{
    assert(attrs.take(i + 1).drop_last() =~= attrs.take(i));
    assert(attrs.take(i + 1).last() == attrs[i]);
    if i + 1 == attrs.len() {
        assert(attrs.take(i + 1) =~= attrs);
    } else {
        lemma_apply_attrs_err_extends(c, attrs, i + 1);
    }
}

/// Once a prefix of an attribute list has failed, every longer prefix
/// fails with the same error.
proof fn lemma_apply_attrs_err_extends(c: CfgV, attrs: Seq<AttrV>, i: int)
    requires
        0 <= i <= attrs.len(),
        spec_apply_attrs(c, attrs.take(i)).is_err(),
    ensures
        spec_apply_attrs(c, attrs) == spec_apply_attrs(c, attrs.take(i)),
    decreases attrs.len() - i,
{
    if i == attrs.len() {
        assert(attrs.take(i) =~= attrs);
    } else {
        assert(attrs.take(i + 1).drop_last() =~= attrs.take(i));
        lemma_apply_attrs_err_extends(c, attrs, i + 1);
    }
}

} // verus!
