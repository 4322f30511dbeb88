//! Laws of attribute resolution: how the configuration that the walk
//! produces for a node relates to the attribute lists on the path from
//! the root of the taxonomy down to that node.

use vstd::prelude::*;
use crate::kind::Kind;
use crate::resolve::{
    spec_apply_attrs, spec_process_node, spec_walk_forest, spec_walk_node, CfgV, TemplateV,
};
use crate::tree::{vforest_size, vtree_size, AttrV, ErrorTreeV};

verus! {

/// The attribute list of a mirrored node.
pub open spec fn attrs_of(t: ErrorTreeV) -> Seq<AttrV> {
    match t {
        ErrorTreeV::Group { attrs, .. } => attrs,
        ErrorTreeV::Leaf { attrs, .. } => attrs,
    }
}

/// Whether a path of child indices addresses a node of the forest:
/// every step but the last must pass through a group.
pub open spec fn path_valid(nodes: Seq<ErrorTreeV>, path: Seq<int>) -> bool
    decreases path.len(),
{
    path.len() > 0 && 0 <= path.first() < nodes.len() && (path.len() == 1 || (
    nodes[path.first()] matches ErrorTreeV::Group { .. } && path_valid(
        nodes[path.first()]->Group_children,
        path.drop_first(),
    )))
}

/// The position of the addressed node in the pre-order visit of the
/// forest.
pub open spec fn rank_of(nodes: Seq<ErrorTreeV>, path: Seq<int>) -> nat
    decreases path.len(),
{
    vforest_size(nodes.take(path.first())) + if path.len() <= 1 {
        0
    } else {
        1 + rank_of(nodes[path.first()]->Group_children, path.drop_first())
    }
}

/// Whether every attribute list along the path merges without error.
pub open spec fn path_ok(nodes: Seq<ErrorTreeV>, path: Seq<int>, c: CfgV) -> bool
    decreases path.len(),
{
    let t = nodes[path.first()];
    spec_process_node(t, c) is Ok && (path.len() <= 1 || path_ok(
        t->Group_children,
        path.drop_first(),
        spec_process_node(t, c)->Ok_0,
    ))
}

/// The configuration obtained by merging, node by node, the attribute
/// lists along the path onto the inherited configuration.
pub open spec fn spec_path_cfg(nodes: Seq<ErrorTreeV>, path: Seq<int>, c: CfgV) -> CfgV
    decreases path.len(),
{
    let t = nodes[path.first()];
    let cn = spec_process_node(t, c)->Ok_0;
    if path.len() <= 1 {
        cn
    } else {
        spec_path_cfg(t->Group_children, path.drop_first(), cn)
    }
}

/// The `number` fragment one attribute contributes.
pub open spec fn attr_number_frag(a: AttrV) -> Seq<char> {
    if a.key == "number"@ {
        match a.value {
            Some(v) => v,
            None => Seq::empty(),
        }
    } else {
        Seq::empty()
    }
}

/// The concatenated `number` fragments of an attribute list.
pub open spec fn attrs_number_frag(attrs: Seq<AttrV>) -> Seq<char>
    decreases attrs.len(),
{
    if attrs.len() == 0 {
        Seq::empty()
    } else {
        attrs_number_frag(attrs.drop_last()) + attr_number_frag(attrs.last())
    }
}

/// The severity after one attribute: a well-formed `kind` attribute
/// overrides, everything else keeps the previous value.
pub open spec fn attr_kind(a: AttrV, prev: Option<Kind>) -> Option<Kind> {
    if a.key == "kind"@ {
        match a.value {
            Some(v) => match Kind::spec_of_literal(v) {
                Some(k) => Some(k),
                None => prev,
            },
            None => prev,
        }
    } else {
        prev
    }
}

/// The severity after a whole attribute list.
pub open spec fn attrs_kind(attrs: Seq<AttrV>, base: Option<Kind>) -> Option<Kind>
    decreases attrs.len(),
{
    if attrs.len() == 0 {
        base
    } else {
        attr_kind(attrs.last(), attrs_kind(attrs.drop_last(), base))
    }
}

/// The message template after one attribute.
pub open spec fn attr_msg(a: AttrV, prev: Option<TemplateV>) -> Option<TemplateV> {
    if a.key == "msg"@ {
        match a.value {
            Some(v) => Some(TemplateV { text: v, span: a.span }),
            None => prev,
        }
    } else {
        prev
    }
}

/// The message template after a whole attribute list.
pub open spec fn attrs_msg(attrs: Seq<AttrV>, base: Option<TemplateV>) -> Option<TemplateV>
    decreases attrs.len(),
{
    if attrs.len() == 0 {
        base
    } else {
        attr_msg(attrs.last(), attrs_msg(attrs.drop_last(), base))
    }
}

/// The label template after one attribute.
pub open spec fn attr_label(a: AttrV, prev: Option<TemplateV>) -> Option<TemplateV> {
    if a.key == "label"@ {
        match a.value {
            Some(v) => Some(TemplateV { text: v, span: a.span }),
            None => prev,
        }
    } else {
        prev
    }
}

/// The label template after a whole attribute list.
pub open spec fn attrs_label(attrs: Seq<AttrV>, base: Option<TemplateV>) -> Option<TemplateV>
    decreases attrs.len(),
{
    if attrs.len() == 0 {
        base
    } else {
        attr_label(attrs.last(), attrs_label(attrs.drop_last(), base))
    }
}

/// What a successful attribute merge does, attribute by attribute:
/// `number` fragments concatenate onto the inherited code, `kind`,
/// `msg` and `label` override nearest-declaration-last, and the
/// remaining fields pass through unchanged.
pub proof fn lemma_apply_attrs_fields(c: CfgV, attrs: Seq<AttrV>)
    requires
        spec_apply_attrs(c, attrs) is Ok,
    ensures
        ({
            let c2 = spec_apply_attrs(c, attrs)->Ok_0;
            &&& c2.number == c.number + attrs_number_frag(attrs)
            &&& c2.kind == attrs_kind(attrs, c.kind)
            &&& c2.msg == attrs_msg(attrs, c.msg)
            &&& c2.label == attrs_label(attrs, c.label)
            &&& c2.ident == c.ident
            &&& c2.fields == c.fields
            &&& c2.span_field == c.span_field
            &&& c2.depth == c.depth
            &&& c2.span == c.span
        }),
    decreases attrs.len(),
{
    reveal_strlit("kind");
    reveal_strlit("number");
    reveal_strlit("msg");
    reveal_strlit("label");
    reveal_strlit("nested");
    assert("kind"@.len() == 4);
    assert("number"@.len() == 6);
    assert("msg"@.len() == 3);
    assert("label"@.len() == 5);
    assert("nested"@.len() == 6);
    assert("number"@[1] == 'u');
    assert("nested"@[1] == 'e');
    if attrs.len() == 0 {
        assert(c.number + attrs_number_frag(attrs) =~= c.number);
    } else {
        lemma_apply_attrs_fields(c, attrs.drop_last());
        let dl = attrs.drop_last();
        let a = attrs.last();
        let c1 = spec_apply_attrs(c, dl)->Ok_0;
        let c2 = spec_apply_attrs(c, attrs)->Ok_0;
        assert(spec_apply_attrs(c, attrs) == crate::resolve::spec_apply_attr(c1, a));
        assert(c.number + attrs_number_frag(dl) + attr_number_frag(a) =~= c.number + (
        attrs_number_frag(dl) + attr_number_frag(a)));
        if a.key == "number"@ {
            assert(c2.number == c1.number + attr_number_frag(a));
        } else {
            assert(attr_number_frag(a) =~= Seq::<char>::empty());
            assert(c1.number + attr_number_frag(a) =~= c1.number);
            assert(c2.number == c1.number);
        }
        assert(c2.number == c.number + attrs_number_frag(attrs));
        assert(c2.kind == attr_kind(a, c1.kind));
        assert(c2.msg == attr_msg(a, c1.msg));
        assert(c2.label == attr_label(a, c1.label));
        assert(c2.ident == c1.ident);
        assert(c2.fields == c1.fields);
        assert(c2.span_field == c1.span_field);
        assert(c2.depth == c1.depth);
        assert(c2.span == c1.span);
    }
}

/// A successful walk of one node yields exactly the node count of that
/// subtree, the node's own configuration first.
proof fn lemma_walk_node_shape(t: ErrorTreeV, c: CfgV)
    requires
        spec_walk_node(t, c) is Ok,
    ensures
        spec_walk_node(t, c)->Ok_0.len() == vtree_size(t),
        spec_walk_node(t, c)->Ok_0[0] == spec_process_node(t, c)->Ok_0,
    decreases t,
{
    let cn = spec_process_node(t, c)->Ok_0;
    match t {
        ErrorTreeV::Leaf { .. } => {},
        ErrorTreeV::Group { children, .. } => {
            lemma_walk_forest_size(children, cn);
        },
    }
}

/// A successful walk of a forest yields exactly the forest's node
/// count.
proof fn lemma_walk_forest_size(nodes: Seq<ErrorTreeV>, c: CfgV)
    requires
        spec_walk_forest(nodes, c) is Ok,
    ensures
        spec_walk_forest(nodes, c)->Ok_0.len() == vforest_size(nodes),
    decreases nodes,
{
    if nodes.len() > 0 {
        lemma_walk_node_shape(nodes.first(), c);
        lemma_walk_forest_size(nodes.drop_first(), c);
    }
}

/// Inside a successful forest walk, the segment belonging to the `j`-th
/// root subtree starts at the pre-order rank of that root and is the
/// walk of that subtree.
proof fn lemma_walk_forest_segment(nodes: Seq<ErrorTreeV>, c: CfgV, j: int)
    requires
        spec_walk_forest(nodes, c) is Ok,
        0 <= j < nodes.len(),
    ensures
        spec_walk_node(nodes[j], c) is Ok,
        vforest_size(nodes.take(j)) + vtree_size(nodes[j]) <= vforest_size(nodes),
        spec_walk_forest(nodes, c)->Ok_0.subrange(
            vforest_size(nodes.take(j)) as int,
            (vforest_size(nodes.take(j)) + vtree_size(nodes[j])) as int,
        ) == spec_walk_node(nodes[j], c)->Ok_0,
    decreases j,
{
    let s1 = spec_walk_node(nodes.first(), c)->Ok_0;
    let s2 = spec_walk_forest(nodes.drop_first(), c)->Ok_0;
    let whole = spec_walk_forest(nodes, c)->Ok_0;
    lemma_walk_node_shape(nodes.first(), c);
    lemma_walk_forest_size(nodes.drop_first(), c);
    lemma_walk_forest_size(nodes, c);
    assert(whole == s1 + s2);
    if j == 0 {
        assert(nodes.take(0) =~= Seq::<ErrorTreeV>::empty());
        assert(whole.subrange(0, vtree_size(nodes[0]) as int) =~= s1);
    } else {
        lemma_walk_forest_segment(nodes.drop_first(), c, j - 1);
        assert(nodes.drop_first()[j - 1] == nodes[j]);
        let off1 = vforest_size(nodes.drop_first().take(j - 1));
        assert(nodes.take(j).first() == nodes[0]);
        assert(nodes.take(j).drop_first() =~= nodes.drop_first().take(j - 1));
        assert(vforest_size(nodes.take(j)) == vtree_size(nodes[0]) + off1);
        let off = vforest_size(nodes.take(j));
        let sz = vtree_size(nodes[j]);
        assert(whole.subrange(off as int, (off + sz) as int) =~= s2.subrange(off1 as int, (off1 + sz) as int));
    }
}

/// In a successful walk, the configuration at the pre-order rank of any
/// valid path is the merge of the attribute lists along that path.
pub proof fn lemma_walk_path(nodes: Seq<ErrorTreeV>, c: CfgV, path: Seq<int>)
    requires
        path_valid(nodes, path),
        spec_walk_forest(nodes, c) is Ok,
    ensures
        path_ok(nodes, path, c),
        rank_of(nodes, path) < spec_walk_forest(nodes, c)->Ok_0.len(),
        spec_walk_forest(nodes, c)->Ok_0[rank_of(nodes, path) as int] == spec_path_cfg(
            nodes,
            path,
            c,
        ),
    decreases path.len(),
{
    let j = path.first();
    let whole = spec_walk_forest(nodes, c)->Ok_0;
    lemma_walk_forest_segment(nodes, c, j);
    lemma_walk_forest_size(nodes, c);
    lemma_walk_node_shape(nodes[j], c);
    let off = vforest_size(nodes.take(j));
    let seg = spec_walk_node(nodes[j], c)->Ok_0;
    let cn = spec_process_node(nodes[j], c)->Ok_0;
    if path.len() == 1 {
        assert(whole[off as int] == seg[0]);
    } else {
        let children = nodes[j]->Group_children;
        let cs = spec_walk_forest(children, cn)->Ok_0;
        assert(seg == seq![cn] + cs);
        lemma_walk_path(children, cn, path.drop_first());
        let r = rank_of(children, path.drop_first());
        assert(seg[(1 + r) as int] == cs[r as int]);
        assert(whole[(off + 1 + r) as int] == seg[(1 + r) as int]);
    }
}

/// The concatenated `number` fragments of every node along a path, in
/// root-to-leaf order.
pub open spec fn path_number_frags(nodes: Seq<ErrorTreeV>, path: Seq<int>) -> Seq<char>
    decreases path.len(),
{
    let t = nodes[path.first()];
    attrs_number_frag(attrs_of(t)) + if path.len() <= 1 {
        Seq::empty()
    } else {
        path_number_frags(t->Group_children, path.drop_first())
    }
}

/// The nearest declared severity along a path, the deepest declaration
/// winning; `base` if no node on the path declares one.
pub open spec fn path_kind(nodes: Seq<ErrorTreeV>, path: Seq<int>, base: Option<Kind>) -> Option<
    Kind,
>
    decreases path.len(),
{
    let t = nodes[path.first()];
    let k = attrs_kind(attrs_of(t), base);
    if path.len() <= 1 {
        k
    } else {
        path_kind(t->Group_children, path.drop_first(), k)
    }
}

/// Merging along a path concatenates the `number` fragments and keeps
/// the nearest declared severity.
proof fn lemma_path_cfg_fields(nodes: Seq<ErrorTreeV>, path: Seq<int>, c: CfgV)
    requires
        path_valid(nodes, path),
        path_ok(nodes, path, c),
    ensures
        spec_path_cfg(nodes, path, c).number == c.number + path_number_frags(nodes, path),
        spec_path_cfg(nodes, path, c).kind == path_kind(nodes, path, c.kind),
    decreases path.len(),
{
    let t = nodes[path.first()];
    let cn = spec_process_node(t, c)->Ok_0;
    match t {
        ErrorTreeV::Group { span, attrs, .. } => {
            lemma_apply_attrs_fields(
                CfgV {
                    ident: None,
                    fields: None,
                    span_field: None,
                    depth: crate::resolve::spec_bump(c.depth),
                    span,
                    ..c
                },
                attrs,
            );
        },
        ErrorTreeV::Leaf { span, attrs, ident, fields, span_field } => {
            lemma_apply_attrs_fields(
                CfgV {
                    ident: Some(ident),
                    fields: Some(fields),
                    span_field,
                    depth: crate::resolve::spec_bump(c.depth),
                    span,
                    ..c
                },
                attrs,
            );
        },
    }
    assert(cn.number == c.number + attrs_number_frag(attrs_of(t)));
    assert(cn.kind == attrs_kind(attrs_of(t), c.kind));
    if path.len() == 1 {
        assert(c.number + attrs_number_frag(attrs_of(t)) =~= c.number + (attrs_number_frag(
            attrs_of(t),
        ) + Seq::<char>::empty()));
    } else {
        lemma_path_cfg_fields(t->Group_children, path.drop_first(), cn);
        assert(c.number + attrs_number_frag(attrs_of(t)) + path_number_frags(
            t->Group_children,
            path.drop_first(),
        ) =~= c.number + (attrs_number_frag(attrs_of(t)) + path_number_frags(
            t->Group_children,
            path.drop_first(),
        )));
    }
}

/// For every node of a successfully walked forest, the resolved
/// `number` is the concatenation, in root-to-leaf order, of the
/// inherited code and every `number` fragment of every node on the path
/// down to it.
pub proof fn lemma_number_concatenation(nodes: Seq<ErrorTreeV>, c: CfgV, path: Seq<int>)
    requires
        path_valid(nodes, path),
        spec_walk_forest(nodes, c) is Ok,
    ensures
        rank_of(nodes, path) < spec_walk_forest(nodes, c)->Ok_0.len(),
        spec_walk_forest(nodes, c)->Ok_0[rank_of(nodes, path) as int].number == c.number
            + path_number_frags(nodes, path),
    decreases path.len(),
{
    lemma_walk_path(nodes, c, path);
    lemma_path_cfg_fields(nodes, path, c);
}

/// For every node of a successfully walked forest, the resolved
/// severity is the nearest ancestor-or-self declaration, falling back
/// to the inherited one when no node on the path declares a severity.
pub proof fn lemma_kind_nearest_ancestor(nodes: Seq<ErrorTreeV>, c: CfgV, path: Seq<int>)
    requires
        path_valid(nodes, path),
        spec_walk_forest(nodes, c) is Ok,
    ensures
        rank_of(nodes, path) < spec_walk_forest(nodes, c)->Ok_0.len(),
        spec_walk_forest(nodes, c)->Ok_0[rank_of(nodes, path) as int].kind == path_kind(
            nodes,
            path,
            c.kind,
        ),
    decreases path.len(),
{
    lemma_walk_path(nodes, c, path);
    lemma_path_cfg_fields(nodes, path, c);
}

/// For every node of a successfully resolved taxonomy, the resolved
/// `number` is the concatenation, in root-to-leaf order, of the
/// taxonomy's own `number` fragments and those of every node on the
/// path down to it.
pub proof fn lemma_taxonomy_number_concatenation(t: crate::tree::TaxonomyV, path: Seq<int>)
    requires
        crate::resolve::spec_resolve(t) is Ok,
        path_valid(t.roots, path),
    ensures
        rank_of(t.roots, path) < crate::resolve::spec_resolve(t)->Ok_0.len(),
        crate::resolve::spec_resolve(t)->Ok_0[rank_of(t.roots, path) as int].number
            == attrs_number_frag(t.attrs) + path_number_frags(t.roots, path),
{
    let root = crate::resolve::spec_process(
        crate::resolve::spec_initial_cfg(t.span),
        t.attrs,
        None,
        None,
        None,
        t.span,
    )->Ok_0;
    lemma_apply_attrs_fields(
        CfgV {
            ident: None,
            fields: None,
            span_field: None,
            depth: crate::resolve::spec_bump(0),
            span: t.span,
            ..crate::resolve::spec_initial_cfg(t.span)
        },
        t.attrs,
    );
    assert(root.number =~= attrs_number_frag(t.attrs));
    lemma_number_concatenation(t.roots, root, path);
}

/// For every node of a successfully resolved taxonomy, the resolved
/// severity is the nearest declaration on the path from the taxonomy's
/// own attributes down to the node; it stays unset when no attribute
/// list on the path declares one, and the emitter then defaults it to
/// `Error`.
pub proof fn lemma_taxonomy_kind_nearest_ancestor(t: crate::tree::TaxonomyV, path: Seq<int>)
    requires
        crate::resolve::spec_resolve(t) is Ok,
        path_valid(t.roots, path),
    ensures
        rank_of(t.roots, path) < crate::resolve::spec_resolve(t)->Ok_0.len(),
        crate::resolve::spec_resolve(t)->Ok_0[rank_of(t.roots, path) as int].kind == path_kind(
            t.roots,
            path,
            attrs_kind(t.attrs, None),
        ),
{
    let root = crate::resolve::spec_process(
        crate::resolve::spec_initial_cfg(t.span),
        t.attrs,
        None,
        None,
        None,
        t.span,
    )->Ok_0;
    lemma_apply_attrs_fields(
        CfgV {
            ident: None,
            fields: None,
            span_field: None,
            depth: crate::resolve::spec_bump(0),
            span: t.span,
            ..crate::resolve::spec_initial_cfg(t.span)
        },
        t.attrs,
    );
    lemma_kind_nearest_ancestor(t.roots, root, path);
}

} // verus!
