//! The abstract syntax of a taxonomy: attribute lists, field shapes and
//! the tree of groups and leaves, together with the spec-level mirrors
//! that contracts are stated over.

use vstd::prelude::*;
use vstd::string::*;

verus! {

broadcast use
    vstd::std_specs::vec::axiom_vec_decreases_to_view,
    vstd::seq::axiom_seq_index_decreases;

/// A half-open range of character offsets into the taxonomy source text.
/// Every error carries one, pointing at the offending declaration.
#[derive(Clone, Copy, Debug, PartialEq, Eq, Structural)]
pub struct SrcSpan {
    pub start: usize,
    pub end: usize,
}

/// One raw attribute as read from the source: a key, an optional string
/// literal value, and the span of the whole annotation.  Attributes are
/// captured verbatim by the parser and interpreted only by the resolver.
#[derive(Debug)]
pub struct Attr {
    pub key: String,
    pub value: Option<String>,
    pub span: SrcSpan,
}

/// Spec-level mirror of [`Attr`].
pub struct AttrV {
    pub key: Seq<char>,
    pub value: Option<Seq<char>>,
    pub span: SrcSpan,
}

impl DeepView for Attr {
    type V = AttrV;

    open spec fn deep_view(&self) -> AttrV {
        AttrV { key: self.key@, value: self.value.deep_view(), span: self.span }
    }
}

/// A reference to the span-carrying field of a leaf: by name for named
/// field lists, by position for positional ones.
#[derive(Debug)]
pub enum FieldRef {
    Name(String),
    Index(usize),
}

/// Spec-level mirror of [`FieldRef`].
pub enum FieldRefV {
    Name(Seq<char>),
    Index(usize),
}

impl DeepView for FieldRef {
    type V = FieldRefV;

    open spec fn deep_view(&self) -> FieldRefV {
        match self {
            FieldRef::Name(s) => FieldRefV::Name(s@),
            FieldRef::Index(i) => FieldRefV::Index(*i),
        }
    }
}

/// The declared field shape of a leaf: an ordered list of field names,
/// a count of positional fields, or no fields at all.
#[derive(Debug)]
pub enum FieldShape {
    Named(Vec<String>),
    Positional(usize),
    Unit,
}

/// Spec-level mirror of [`FieldShape`].
pub enum FieldShapeV {
    Named(Seq<Seq<char>>),
    Positional(usize),
    Unit,
}

impl DeepView for FieldShape {
    type V = FieldShapeV;

    open spec fn deep_view(&self) -> FieldShapeV {
        match self {
            FieldShape::Named(names) => FieldShapeV::Named(names.deep_view()),
            FieldShape::Positional(n) => FieldShapeV::Positional(*n),
            FieldShape::Unit => FieldShapeV::Unit,
        }
    }
}

/// A node of the taxonomy tree: either an interior `Group` holding
/// attributes and an ordered list of children, or a `Leaf` holding
/// attributes, an identifier, a field shape and an optional
/// span-carrying field.  The order of children is significant and is
/// preserved by every later stage.
#[derive(Debug)]
pub enum ErrorTree {
    Group { span: SrcSpan, attrs: Vec<Attr>, children: Vec<ErrorTree> },
    Leaf {
        span: SrcSpan,
        attrs: Vec<Attr>,
        ident: String,
        fields: FieldShape,
        span_field: Option<FieldRef>,
    },
}

/// Spec-level mirror of [`ErrorTree`].
pub enum ErrorTreeV {
    Group { span: SrcSpan, attrs: Seq<AttrV>, children: Seq<ErrorTreeV> },
    Leaf {
        span: SrcSpan,
        attrs: Seq<AttrV>,
        ident: Seq<char>,
        fields: FieldShapeV,
        span_field: Option<FieldRefV>,
    },
}

/// Spec-level mirror of an ordered forest of nodes.
pub open spec fn forest_view(s: Seq<ErrorTree>) -> Seq<ErrorTreeV>
    decreases s,
{
    if s.len() == 0 {
        Seq::empty()
    } else {
        forest_view(s.drop_last()).push(s.last().deep_view())
    }
}

/// Number of nodes in a tree, the node itself included.
pub open spec fn tree_size(t: ErrorTree) -> nat
    decreases t,
{
    match t {
        ErrorTree::Leaf { .. } => 1,
        ErrorTree::Group { children, .. } => 1 + forest_size(children@),
    }
}

/// Number of nodes in a forest.
pub open spec fn forest_size(s: Seq<ErrorTree>) -> nat
    decreases s,
{
    if s.len() == 0 {
        0
    } else {
        tree_size(s.first()) + forest_size(s.drop_first())
    }
}

/// Splitting a forest's size at one position.
pub proof fn lemma_forest_size_skip(s: Seq<ErrorTree>, p: int)
    requires
        0 <= p < s.len(),
    ensures
        forest_size(s.skip(p)) == tree_size(s[p]) + forest_size(s.skip(p + 1)),
{
    assert(s.skip(p).len() > 0);
    assert(s.skip(p).first() == s[p]);
    assert(s.skip(p).drop_first() =~= s.skip(p + 1));
}

/// Number of nodes in a mirrored tree, the node itself included.
pub open spec fn vtree_size(t: ErrorTreeV) -> nat
    decreases t,
{
    match t {
        ErrorTreeV::Leaf { .. } => 1,
        ErrorTreeV::Group { children, .. } => 1 + vforest_size(children),
    }
}

/// Number of nodes in a mirrored forest.
pub open spec fn vforest_size(s: Seq<ErrorTreeV>) -> nat
    decreases s,
{
    if s.len() == 0 {
        0
    } else {
        vtree_size(s.first()) + vforest_size(s.drop_first())
    }
}

/// Splitting a mirrored forest's size at one position.
pub proof fn lemma_vforest_size_skip(s: Seq<ErrorTreeV>, p: int)
    requires
        0 <= p < s.len(),
    ensures
        vforest_size(s.skip(p)) == vtree_size(s[p]) + vforest_size(s.skip(p + 1)),
{
    assert(s.skip(p).len() > 0);
    assert(s.skip(p).first() == s[p]);
    assert(s.skip(p).drop_first() =~= s.skip(p + 1));
}

/// The mirror of a forest is elementwise.
pub proof fn lemma_forest_view_len(s: Seq<ErrorTree>)
    ensures
        forest_view(s).len() == s.len(),
    decreases s,
{
    if s.len() > 0 {
        lemma_forest_view_len(s.drop_last());
        assert(forest_view(s) == forest_view(s.drop_last()).push(s.last().deep_view()));
        assert(s.drop_last().len() == s.len() - 1);
    }
}

/// The mirror of a forest mirrors each tree in place.
pub proof fn lemma_forest_view_index(s: Seq<ErrorTree>, i: int)
    requires
        0 <= i < s.len(),
    ensures
        forest_view(s).len() == s.len(),
        forest_view(s)[i] == s[i].deep_view(),
    decreases s,
{
    lemma_forest_view_len(s);
    lemma_forest_view_len(s.drop_last());
    assert(forest_view(s) == forest_view(s.drop_last()).push(s.last().deep_view()));
    if i + 1 < s.len() {
        assert(s.drop_last()[i] == s[i]);
        lemma_forest_view_index(s.drop_last(), i);
        assert(forest_view(s)[i] == forest_view(s.drop_last())[i]);
    } else {
        assert(forest_view(s)[i] == s.last().deep_view());
    }
}

impl DeepView for ErrorTree {
    type V = ErrorTreeV;

    open spec fn deep_view(&self) -> ErrorTreeV
        decreases self,
    {
        match self {
            ErrorTree::Group { span, attrs, children } => ErrorTreeV::Group {
                span: *span,
                attrs: attrs.deep_view(),
                children: forest_view(children@),
            },
            ErrorTree::Leaf { span, attrs, ident, fields, span_field } => ErrorTreeV::Leaf {
                span: *span,
                attrs: attrs.deep_view(),
                ident: ident@,
                fields: fields.deep_view(),
                span_field: span_field.deep_view(),
            },
        }
    }
}

impl ErrorTree {
    /// The attribute list of this node.
    pub fn attrs(&self) -> (r: &Vec<Attr>)
        ensures
            r.deep_view() == self.spec_attrs(),
    {
        match self {
            ErrorTree::Group { attrs, .. } => attrs,
            ErrorTree::Leaf { attrs, .. } => attrs,
        }
    }

    /// The attribute list at spec level.
    pub open spec fn spec_attrs(&self) -> Seq<AttrV> {
        match self {
            ErrorTree::Group { attrs, .. } => attrs.deep_view(),
            ErrorTree::Leaf { attrs, .. } => attrs.deep_view(),
        }
    }

    /// The identifier of a leaf; a group has none.
    pub fn ident(&self) -> (r: Option<&String>)
        ensures
            r.deep_view() == self.spec_ident(),
    {
        match self {
            ErrorTree::Group { .. } => None,
            ErrorTree::Leaf { ident, .. } => Some(ident),
        }
    }

    /// The leaf identifier at spec level.
    pub open spec fn spec_ident(&self) -> Option<Seq<char>> {
        match self {
            ErrorTree::Group { .. } => None,
            ErrorTree::Leaf { ident, .. } => Some(ident@),
        }
    }

    /// The field shape of a leaf; a group has none.
    pub fn fields(&self) -> (r: Option<&FieldShape>)
        ensures
            r.deep_view() == self.spec_fields(),
    {
        match self {
            ErrorTree::Group { .. } => None,
            ErrorTree::Leaf { fields, .. } => Some(fields),
        }
    }

    /// The field shape at spec level.
    pub open spec fn spec_fields(&self) -> Option<FieldShapeV> {
        match self {
            ErrorTree::Group { .. } => None,
            ErrorTree::Leaf { fields, .. } => Some(fields.deep_view()),
        }
    }

    /// The span-carrying field of a leaf, if one was marked.
    pub fn span_ident(&self) -> (r: Option<&FieldRef>)
        ensures
            r.deep_view() == self.spec_span_ident(),
    {
        match self {
            ErrorTree::Group { .. } => None,
            ErrorTree::Leaf { span_field, .. } => match span_field {
                Some(f) => Some(f),
                None => None,
            },
        }
    }

    /// The span-carrying field at spec level.
    pub open spec fn spec_span_ident(&self) -> Option<FieldRefV> {
        match self {
            ErrorTree::Group { .. } => None,
            ErrorTree::Leaf { span_field, .. } => span_field.deep_view(),
        }
    }

    /// The source span of this node.
    pub fn span(&self) -> (r: SrcSpan)
        ensures
            r == self.spec_span(),
    {
        match self {
            ErrorTree::Group { span, .. } => *span,
            ErrorTree::Leaf { span, .. } => *span,
        }
    }

    /// The source span at spec level.
    pub open spec fn spec_span(&self) -> SrcSpan {
        match self {
            ErrorTree::Group { span, .. } => *span,
            ErrorTree::Leaf { span, .. } => *span,
        }
    }
}

/// A whole taxonomy: its name, the attributes written on the taxonomy
/// itself (inherited by every node), and the ordered forest of root
/// nodes.
#[derive(Debug)]
pub struct Taxonomy {
    pub span: SrcSpan,
    pub name: String,
    pub attrs: Vec<Attr>,
    pub roots: Vec<ErrorTree>,
}

/// Spec-level mirror of [`Taxonomy`].
pub struct TaxonomyV {
    pub span: SrcSpan,
    pub name: Seq<char>,
    pub attrs: Seq<AttrV>,
    pub roots: Seq<ErrorTreeV>,
}

impl DeepView for Taxonomy {
    type V = TaxonomyV;

    open spec fn deep_view(&self) -> TaxonomyV {
        TaxonomyV {
            span: self.span,
            name: self.name@,
            attrs: self.attrs.deep_view(),
            roots: forest_view(self.roots@),
        }
    }
}

/// Character-wise string equality.
pub fn str_eq(a: &str, b: &str) -> (r: bool)
    ensures
        r == (a@ == b@),
{
    let alen = a.unicode_len();
    let blen = b.unicode_len();
    if alen != blen {
        proof {
            assert(a@ != b@) by {
                assert(a@.len() != b@.len());
            }
        }
        return false;
    }
    let mut i: usize = 0;
    while i < alen
        invariant
            i <= alen,
            alen == a@.len(),
            alen == b@.len(),
            forall|j: int| 0 <= j < i ==> a@[j] == b@[j],
        decreases alen - i,
    {
        if a.get_char(i) != b.get_char(i) {
            return false;
        }
        i += 1;
    }
    proof {
        assert(a@ =~= b@);
    }
    true
}

} // verus!
