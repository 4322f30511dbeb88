//! The taxonomy parser: from source text to the tree of groups and
//! leaves.
//!
//! Grammar, with whitespace allowed between tokens:
//!
//! ```text
//! taxonomy    := attr* name generics? '{' node* '}'
//! node        := attr* ( identifier field-shape? | '{' node* '}' )
//! attr        := '#[' key ( '=' string )? ']'
//! field-shape := '{' named-field,* '}' | '(' field,* ')'
//! named-field := field-attr* name ':' type
//! field       := field-attr* type
//! ```
//!
//! Nodes and fields are comma-separated, with an optional trailing
//! comma.  The only attribute allowed on a field is the bare `#[span]`
//! marker; at most one field of a leaf may carry it.  A string literal
//! runs to the next `"` and has no escapes.  Parsing stops at the first
//! error, which carries the offending source location.
//!
//! Every recursive production checks that its sub-parse advanced past
//! the position it started from and treats a stalled parse as an
//! error, so termination is structural; a successful sub-parse always
//! advances, so those branches never fire.

use vstd::prelude::*;
use vstd::string::*;
use crate::template::{spec_is_ident_char, spec_is_ident_start};
use crate::tree::{Attr, AttrV, ErrorTree, ErrorTreeV, FieldRef, FieldRefV, FieldShape, FieldShapeV,
    SrcSpan, Taxonomy, TaxonomyV};

verus! {

/// A fatal parse error, carrying the offending source location as a
/// character range.
#[derive(Clone, Copy, Debug, PartialEq, Eq, Structural)]
pub struct ParseError {
    pub span: SrcSpan,
}

/// Whitespace, as the scanner skips it.
pub open spec fn spec_is_ws(c: char) -> bool {
    c == ' ' || c == '\t' || c == '\n' || c == '\r'
}

/// The first position at or after `i` holding no whitespace.
pub open spec fn spec_skip_ws(t: Seq<char>, i: int) -> int
    decreases t.len() - i,
{
    if 0 <= i < t.len() && spec_is_ws(t[i]) {
        spec_skip_ws(t, i + 1)
    } else {
        i
    }
}

/// The end of the identifier run starting at `i`.
pub open spec fn spec_ident_end(t: Seq<char>, i: int) -> int
    decreases t.len() - i,
{
    if 0 <= i < t.len() && spec_is_ident_char(t[i]) {
        spec_ident_end(t, i + 1)
    } else {
        i
    }
}

/// The position of the closing quote of a string literal whose body
/// starts at `i`; the text's length if it never closes.
pub open spec fn spec_str_end(t: Seq<char>, i: int) -> int
    decreases t.len() - i,
{
    if 0 <= i < t.len() {
        if t[i] == '"' {
            i
        } else {
            spec_str_end(t, i + 1)
        }
    } else {
        t.len() as int
    }
}

/// The end of the type text starting at `i` with `depth` open
/// brackets: type text runs to the first `,`, `}` or `)` outside any
/// bracket.
pub open spec fn spec_type_end(t: Seq<char>, i: int, depth: int) -> int
    decreases t.len() - i,
{
    if 0 <= i < t.len() {
        let c = t[i];
        if depth <= 0 && (c == ',' || c == '}' || c == ')') {
            i
        } else if c == '(' || c == '[' || c == '{' || c == '<' {
            spec_type_end(t, i + 1, depth + 1)
        } else if c == ')' || c == ']' || c == '}' || c == '>' {
            spec_type_end(t, i + 1, depth - 1)
        } else {
            spec_type_end(t, i + 1, depth)
        }
    } else {
        t.len() as int
    }
}

/// The position just past the `>` matching an already-open `<`;
/// the text's length if it never closes.
pub open spec fn spec_angle_end(t: Seq<char>, i: int, depth: int) -> int
    decreases t.len() - i,
{
    if 0 <= i < t.len() {
        let c = t[i];
        if c == '>' {
            if depth <= 1 {
                i + 1
            } else {
                spec_angle_end(t, i + 1, depth - 1)
            }
        } else if c == '<' {
            spec_angle_end(t, i + 1, depth + 1)
        } else {
            spec_angle_end(t, i + 1, depth)
        }
    } else {
        t.len() as int
    }
}

/// A parse error pointing at position `i`.
pub open spec fn spec_err_at(i: int) -> ParseError {
    ParseError { span: SrcSpan { start: i as usize, end: i as usize } }
}

/// One attribute, `#[key]` or `#[key = "value"]`, starting at the `#`
/// at position `i`.
pub open spec fn spec_parse_attr(t: Seq<char>, i: int) -> Result<(AttrV, int), ParseError> {
    if !(0 <= i < t.len() && t[i] == '#') {
        Err(spec_err_at(i))
    } else if !(i + 1 < t.len() && t[i + 1] == '[') {
        Err(spec_err_at(i))
    } else {
        let k0 = spec_skip_ws(t, i + 2);
        let ke = spec_ident_end(t, k0);
        if ke <= k0 {
            Err(spec_err_at(k0))
        } else {
            let key = t.subrange(k0, ke);
            let m = spec_skip_ws(t, ke);
            if m < t.len() && t[m] == ']' {
                Ok(
                    (
                        AttrV {
                            key,
                            value: None,
                            span: SrcSpan { start: i as usize, end: (m + 1) as usize },
                        },
                        m + 1,
                    ),
                )
            } else if m < t.len() && t[m] == '=' {
                let v0 = spec_skip_ws(t, m + 1);
                if v0 < t.len() && t[v0] == '"' {
                    let ve = spec_str_end(t, v0 + 1);
                    if ve < t.len() {
                        let value = t.subrange(v0 + 1, ve);
                        let e0 = spec_skip_ws(t, ve + 1);
                        if e0 < t.len() && t[e0] == ']' {
                            Ok(
                                (
                                    AttrV {
                                        key,
                                        value: Some(value),
                                        span: SrcSpan { start: i as usize, end: (e0 + 1) as usize },
                                    },
                                    e0 + 1,
                                ),
                            )
                        } else {
                            Err(spec_err_at(e0))
                        }
                    } else {
                        Err(spec_err_at(v0))
                    }
                } else {
                    Err(spec_err_at(v0))
                }
            } else {
                Err(spec_err_at(m))
            }
        }
    }
}

/// A possibly empty run of attributes starting at position `i`,
/// whitespace allowed before each; the position returned is just past
/// the last attribute.
pub open spec fn spec_parse_attrs(t: Seq<char>, i: int) -> Result<(Seq<AttrV>, int), ParseError>
    decreases t.len() - i,
{
    let p = spec_skip_ws(t, i);
    if p < t.len() && t[p] == '#' {
        match spec_parse_attr(t, p) {
            Err(e) => Err(e),
            Ok((a, j)) => if j <= i {
                Err(spec_err_at(i))
            } else {
                match spec_parse_attrs(t, j) {
                    Err(e) => Err(e),
                    Ok((rest, e)) => Ok((seq![a] + rest, e)),
                }
            },
        }
    } else {
        Ok((Seq::empty(), i))
    }
}

/// Fold the attributes written on one field: only the bare `span`
/// marker is allowed there, and at most one field of the leaf may
/// carry it.
pub open spec fn spec_apply_field_attrs(
    attrs: Seq<AttrV>,
    cur: Option<FieldRefV>,
    fr: FieldRefV,
) -> Result<Option<FieldRefV>, ParseError>
    decreases attrs.len(),
{
    if attrs.len() == 0 {
        Ok(cur)
    } else {
        let a = attrs.first();
        if a.key == "span"@ && a.value is None {
            if cur is Some {
                Err(ParseError { span: a.span })
            } else {
                spec_apply_field_attrs(attrs.drop_first(), Some(fr), fr)
            }
        } else {
            Err(ParseError { span: a.span })
        }
    }
}

/// The remaining positional fields of a `( ... )` list, `n` fields
/// already read; returns the shape, the span-carrying field if one was
/// marked, and the position just past the closing `)`.
pub open spec fn spec_parse_pos_fields(
    t: Seq<char>,
    i: int,
    n: int,
    sf: Option<FieldRefV>,
) -> Result<((FieldShapeV, Option<FieldRefV>), int), ParseError>
    decreases t.len() - i,
{
    let p = spec_skip_ws(t, i);
    if !(p < t.len()) {
        Err(spec_err_at(p))
    } else if t[p] == ')' {
        Ok(((FieldShapeV::Positional(n as usize), sf), p + 1))
    } else {
        match spec_parse_attrs(t, p) {
            Err(e) => Err(e),
            Ok((attrs, j)) => match spec_apply_field_attrs(attrs, None, FieldRefV::Index(
                n as usize,
            )) {
                Err(e) => Err(e),
                Ok(marked) => {
                    if marked is Some && sf is Some {
                        Err(spec_err_at(j))
                    } else {
                        let sf2 = if marked is Some {
                            marked
                        } else {
                            sf
                        };
                        let q = spec_skip_ws(t, j);
                        let te = spec_type_end(t, q, 0);
                        if te <= q {
                            Err(spec_err_at(q))
                        } else {
                            let w = spec_skip_ws(t, te);
                            if w < t.len() && t[w] == ',' {
                                if w + 1 <= i {
                                    Err(spec_err_at(i))
                                } else {
                                    spec_parse_pos_fields(t, w + 1, n + 1, sf2)
                                }
                            } else if w < t.len() && t[w] == ')' {
                                Ok(((FieldShapeV::Positional((n + 1) as usize), sf2), w + 1))
                            } else {
                                Err(spec_err_at(w))
                            }
                        }
                    }
                },
            },
        }
    }
}

/// The remaining named fields of a `{ ... }` list, the names already
/// read in `names`; returns the shape, the span-carrying field if one
/// was marked, and the position just past the closing `}`.
pub open spec fn spec_parse_named_fields(
    t: Seq<char>,
    i: int,
    names: Seq<Seq<char>>,
    sf: Option<FieldRefV>,
) -> Result<((FieldShapeV, Option<FieldRefV>), int), ParseError>
    decreases t.len() - i,
{
    let p = spec_skip_ws(t, i);
    if !(p < t.len()) {
        Err(spec_err_at(p))
    } else if t[p] == '}' {
        Ok(((FieldShapeV::Named(names), sf), p + 1))
    } else {
        match spec_parse_attrs(t, p) {
            Err(e) => Err(e),
            Ok((attrs, j)) => {
                let q = spec_skip_ws(t, j);
                let qe = spec_ident_end(t, q);
                if qe <= q {
                    Err(spec_err_at(q))
                } else {
                    let name = t.subrange(q, qe);
                    match spec_apply_field_attrs(attrs, None, FieldRefV::Name(name)) {
                        Err(e) => Err(e),
                        Ok(marked) => if marked is Some && sf is Some {
                            Err(spec_err_at(j))
                        } else {
                            let sf2 = if marked is Some {
                                marked
                            } else {
                                sf
                            };
                            let c0 = spec_skip_ws(t, qe);
                            if !(c0 < t.len() && t[c0] == ':') {
                                Err(spec_err_at(c0))
                            } else {
                                let ty0 = spec_skip_ws(t, c0 + 1);
                                let te = spec_type_end(t, ty0, 0);
                                if te <= ty0 {
                                    Err(spec_err_at(ty0))
                                } else {
                                    let w = spec_skip_ws(t, te);
                                    if w < t.len() && t[w] == ',' {
                                        if w + 1 <= i {
                                            Err(spec_err_at(i))
                                        } else {
                                            spec_parse_named_fields(
                                                t,
                                                w + 1,
                                                names.push(name),
                                                sf2,
                                            )
                                        }
                                    } else if w < t.len() && t[w] == '}' {
                                        Ok(((FieldShapeV::Named(names.push(name)), sf2), w + 1))
                                    } else {
                                        Err(spec_err_at(w))
                                    }
                                }
                            }
                        },
                    }
                }
            },
        }
    }
}

/// One node: its attributes, then either a braced group of children or
/// a leaf with an identifier and an optional field list.
pub open spec fn spec_parse_node(t: Seq<char>, i: int) -> Result<(ErrorTreeV, int), ParseError>
    decreases t.len() - i, 0int,
{
    match spec_parse_attrs(t, i) {
        Err(e) => Err(e),
        Ok((attrs, j)) => {
            let p = spec_skip_ws(t, j);
            if p < i {
                Err(spec_err_at(i))
            } else if !(p < t.len()) {
                Err(spec_err_at(p))
            } else if t[p] == '{' {
                match spec_parse_node_list(t, p + 1) {
                    Err(e) => Err(e),
                    Ok((children, e)) => Ok(
                        (
                            ErrorTreeV::Group {
                                span: SrcSpan { start: p as usize, end: (p + 1) as usize },
                                attrs,
                                children,
                            },
                            e,
                        ),
                    ),
                }
            } else if spec_is_ident_start(t[p]) {
                let ke = spec_ident_end(t, p);
                let ident = t.subrange(p, ke);
                let span = SrcSpan { start: p as usize, end: ke as usize };
                let w = spec_skip_ws(t, ke);
                if w < t.len() && t[w] == '{' {
                    match spec_parse_named_fields(t, w + 1, Seq::empty(), None) {
                        Err(e) => Err(e),
                        Ok(((fields, sf), e)) => Ok(
                            (ErrorTreeV::Leaf { span, attrs, ident, fields, span_field: sf }, e),
                        ),
                    }
                } else if w < t.len() && t[w] == '(' {
                    match spec_parse_pos_fields(t, w + 1, 0, None) {
                        Err(e) => Err(e),
                        Ok(((fields, sf), e)) => Ok(
                            (ErrorTreeV::Leaf { span, attrs, ident, fields, span_field: sf }, e),
                        ),
                    }
                } else {
                    Ok(
                        (
                            ErrorTreeV::Leaf {
                                span,
                                attrs,
                                ident,
                                fields: FieldShapeV::Unit,
                                span_field: None,
                            },
                            ke,
                        ),
                    )
                }
            } else {
                Err(spec_err_at(p))
            }
        },
    }
}

/// The remaining nodes of a braced, comma-separated list, up to and
/// including the closing `}`.
pub open spec fn spec_parse_node_list(t: Seq<char>, i: int) -> Result<
    (Seq<ErrorTreeV>, int),
    ParseError,
>
    decreases t.len() - i, 1int,
{
    let p = spec_skip_ws(t, i);
    if p < i {
        Err(spec_err_at(i))
    } else if !(p < t.len()) {
        Err(spec_err_at(p))
    } else if t[p] == '}' {
        Ok((Seq::empty(), p + 1))
    } else {
        match spec_parse_node(t, p) {
            Err(e) => Err(e),
            Ok((node, j)) => {
                let w = spec_skip_ws(t, j);
                if w <= i {
                    Err(spec_err_at(i))
                } else if w < t.len() && t[w] == ',' {
                    match spec_parse_node_list(t, w + 1) {
                        Err(e) => Err(e),
                        Ok((rest, e)) => Ok((seq![node] + rest, e)),
                    }
                } else if w < t.len() && t[w] == '}' {
                    Ok((seq![node], w + 1))
                } else {
                    Err(spec_err_at(w))
                }
            },
        }
    }
}

/// A whole taxonomy: attributes, a name, optional generics, and the
/// braced forest of root nodes, with nothing but whitespace after it.
pub open spec fn spec_parse_taxonomy(t: Seq<char>) -> Result<TaxonomyV, ParseError> {
    match spec_parse_attrs(t, 0) {
        Err(e) => Err(e),
        Ok((attrs, j)) => {
            let p = spec_skip_ws(t, j);
            if !(p < t.len() && spec_is_ident_start(t[p])) {
                Err(spec_err_at(p))
            } else {
                let ke = spec_ident_end(t, p);
                let name = t.subrange(p, ke);
                let span = SrcSpan { start: p as usize, end: ke as usize };
                let g = spec_skip_ws(t, ke);
                let g2 = if g < t.len() && t[g] == '<' {
                    spec_skip_ws(t, spec_angle_end(t, g + 1, 1))
                } else {
                    g
                };
                if !(g2 < t.len() && t[g2] == '{') {
                    Err(spec_err_at(g2))
                } else {
                    match spec_parse_node_list(t, g2 + 1) {
                        Err(e) => Err(e),
                        Ok((roots, e)) => {
                            let tail = spec_skip_ws(t, e);
                            if tail < t.len() {
                                Err(spec_err_at(tail))
                            } else {
                                Ok(TaxonomyV { span, name, attrs, roots })
                            }
                        },
                    }
                }
            }
        },
    }
}

/// A parse error pointing at position `i`.
fn err_at(i: usize) -> (r: ParseError)
    ensures
        r == spec_err_at(i as int),
{
    ParseError { span: SrcSpan { start: i, end: i } }
}

/// One attribute, starting at the `#` at position `i`, as
/// [`spec_parse_attr`] says.
fn parse_attr(s: &str, i: usize) -> (r: Result<(Attr, usize), ParseError>)
    requires
        i <= s@.len(),
    ensures
        (r matches Ok(pr) ==> spec_parse_attr(s@, i as int) == Ok::<(AttrV, int), ParseError>(
            (pr.0.deep_view(), pr.1 as int),
        ) && i < pr.1 <= s@.len()),
        (r matches Err(e) ==> spec_parse_attr(s@, i as int) == Err::<(AttrV, int), ParseError>(e)),
{
    let len = s.unicode_len();
    if !(i < len && s.get_char(i) == '#') {
        return Err(err_at(i));
    }
    if !(i + 1 < len && s.get_char(i + 1) == '[') {
        return Err(err_at(i));
    }
    let k0 = skip_ws(s, i + 2);
    let ke = ident_end(s, k0);
    if ke <= k0 {
        return Err(err_at(k0));
    }
    let key = String::from_str(s.substring_char(k0, ke));
    let m = skip_ws(s, ke);
    if m < len && s.get_char(m) == ']' {
        return Ok((Attr { key, value: None, span: SrcSpan { start: i, end: m + 1 } }, m + 1));
    }
    if m < len && s.get_char(m) == '=' {
        let v0 = skip_ws(s, m + 1);
        if v0 < len && s.get_char(v0) == '"' {
            let ve = str_end(s, v0 + 1);
            if ve < len {
                let value = String::from_str(s.substring_char(v0 + 1, ve));
                let e0 = skip_ws(s, ve + 1);
                if e0 < len && s.get_char(e0) == ']' {
                    Ok(
                        (
                            Attr {
                                key,
                                value: Some(value),
                                span: SrcSpan { start: i, end: e0 + 1 },
                            },
                            e0 + 1,
                        ),
                    )
                } else {
                    Err(err_at(e0))
                }
            } else {
                Err(err_at(v0))
            }
        } else {
            Err(err_at(v0))
        }
    } else {
        Err(err_at(m))
    }
}

/// A possibly empty run of attributes, as [`spec_parse_attrs`] says.
fn parse_attrs(s: &str, i: usize) -> (r: Result<(Vec<Attr>, usize), ParseError>)
    requires
        i <= s@.len(),
    ensures
        (r matches Ok(pr) ==> spec_parse_attrs(s@, i as int) == Ok::<
            (Seq<AttrV>, int),
            ParseError,
        >((pr.0.deep_view(), pr.1 as int)) && i <= pr.1 <= s@.len()),
        (r matches Err(e) ==> spec_parse_attrs(s@, i as int) == Err::<
            (Seq<AttrV>, int),
            ParseError,
        >(e)),
    decreases s@.len() - i,
{
    let len = s.unicode_len();
    let p = skip_ws(s, i);
    if p < len && s.get_char(p) == '#' {
        match parse_attr(s, p) {
            Err(e) => Err(e),
            Ok((a, j)) => {
                match parse_attrs(s, j) {
                    Err(e) => Err(e),
                    Ok((rest, e)) => {
                        let ghost av = a.deep_view();
                        let mut out: Vec<Attr> = Vec::new();
                        out.push(a);
                        let ghost restv = rest.deep_view();
                        let mut rest = rest;
                        out.append(&mut rest);
                        proof {
                            assert(out.deep_view() =~= seq![av] + restv);
                        }
                        Ok((out, e))
                    },
                }
            },
        }
    } else {
        let empty_attrs: Vec<Attr> = Vec::new();
        proof {
            assert(empty_attrs.deep_view() =~= Seq::<AttrV>::empty());
        }
        Ok((empty_attrs, i))
    }
}

/// Fold the attributes written on one field, as
/// [`spec_apply_field_attrs`] says.
#[verifier::loop_isolation(false)]
fn apply_field_attrs(attrs: &Vec<Attr>, fr: FieldRef) -> (r: Result<Option<FieldRef>, ParseError>)
    ensures
        (r matches Ok(o) ==> spec_apply_field_attrs(attrs.deep_view(), None, fr.deep_view())
            == Ok::<Option<FieldRefV>, ParseError>(o.deep_view())),
        (r matches Err(e) ==> spec_apply_field_attrs(attrs.deep_view(), None, fr.deep_view())
            == Err::<Option<FieldRefV>, ParseError>(e)),
{
    let ghost attrsv = attrs.deep_view();
    let ghost frv = fr.deep_view();
    let mut cur: Option<FieldRef> = None;
    let mut k: usize = 0;
    proof {
        assert(attrsv.skip(0) =~= attrsv);
    }
    while k < attrs.len()
        invariant
            k <= attrsv.len(),
            attrsv.len() == attrs@.len(),
            frv == fr.deep_view(),
            cur.deep_view() == (if k > 0 {
                Some(frv)
            } else {
                None::<FieldRefV>
            }),
            spec_apply_field_attrs(attrsv, None, frv) == spec_apply_field_attrs(
                attrsv.skip(k as int),
                cur.deep_view(),
                frv,
            ),
        decreases attrs@.len() - k,
    {
        let a = &attrs[k];
        proof {
            assert(attrsv[k as int] == a.deep_view());
            assert(attrsv.skip(k as int).first() == attrsv[k as int]);
            assert(attrsv.skip(k as int).drop_first() =~= attrsv.skip(k + 1 as int));
        }
        let is_span_flag = crate::tree::str_eq(a.key.as_str(), "span") && a.value.is_none();
        if !is_span_flag {
            return Err(ParseError { span: a.span });
        }
        if cur.is_some() {
            return Err(ParseError { span: a.span });
        }
        cur = Some(fr.duplicate());
        k += 1;
    }
    proof {
        assert(attrsv.skip(attrsv.len() as int) =~= Seq::<AttrV>::empty());
    }
    Ok(cur)
}

/// The remaining positional fields of a `( ... )` list, as
/// [`spec_parse_pos_fields`] says.
fn parse_pos_fields(s: &str, i: usize, n: usize, sf: Option<FieldRef>) -> (r: Result<
    ((FieldShape, Option<FieldRef>), usize),
    ParseError,
>)
    requires
        i <= s@.len(),
        n <= i,
    ensures
        (r matches Ok(pr) ==> spec_parse_pos_fields(s@, i as int, n as int, sf.deep_view())
            == Ok::<((FieldShapeV, Option<FieldRefV>), int), ParseError>(
            ((pr.0.0.deep_view(), pr.0.1.deep_view()), pr.1 as int),
        ) && i < pr.1 <= s@.len()),
        (r matches Err(e) ==> spec_parse_pos_fields(s@, i as int, n as int, sf.deep_view())
            == Err::<((FieldShapeV, Option<FieldRefV>), int), ParseError>(e)),
    decreases s@.len() - i,
{
    let len = s.unicode_len();
    let p = skip_ws(s, i);
    if !(p < len) {
        return Err(err_at(p));
    }
    if s.get_char(p) == ')' {
        return Ok(((FieldShape::Positional(n), sf), p + 1));
    }
    match parse_attrs(s, p) {
        Err(e) => Err(e),
        Ok((attrs, j)) => match apply_field_attrs(&attrs, FieldRef::Index(n)) {
            Err(e) => Err(e),
            Ok(marked) => {
                if marked.is_some() && sf.is_some() {
                    return Err(err_at(j));
                }
                let sf2 = if marked.is_some() {
                    marked
                } else {
                    sf
                };
                let q = skip_ws(s, j);
                let te = type_end(s, q);
                if te <= q {
                    return Err(err_at(q));
                }
                let w = skip_ws(s, te);
                if w < len && s.get_char(w) == ',' {
                    parse_pos_fields(s, w + 1, n + 1, sf2)
                } else if w < len && s.get_char(w) == ')' {
                    Ok(((FieldShape::Positional(n + 1), sf2), w + 1))
                } else {
                    Err(err_at(w))
                }
            },
        },
    }
}

/// The remaining named fields of a `{ ... }` list, as
/// [`spec_parse_named_fields`] says.
fn parse_named_fields(s: &str, i: usize, names: Vec<String>, sf: Option<FieldRef>) -> (r: Result<
    ((FieldShape, Option<FieldRef>), usize),
    ParseError,
>)
    requires
        i <= s@.len(),
    ensures
        (r matches Ok(pr) ==> spec_parse_named_fields(
            s@,
            i as int,
            names.deep_view(),
            sf.deep_view(),
        ) == Ok::<((FieldShapeV, Option<FieldRefV>), int), ParseError>(
            ((pr.0.0.deep_view(), pr.0.1.deep_view()), pr.1 as int),
        ) && i < pr.1 <= s@.len()),
        (r matches Err(e) ==> spec_parse_named_fields(
            s@,
            i as int,
            names.deep_view(),
            sf.deep_view(),
        ) == Err::<((FieldShapeV, Option<FieldRefV>), int), ParseError>(e)),
    decreases s@.len() - i,
{
    let ghost namesv = names.deep_view();
    let ghost sfv = sf.deep_view();
    let len = s.unicode_len();
    let p = skip_ws(s, i);
    if !(p < len) {
        return Err(err_at(p));
    }
    if s.get_char(p) == '}' {
        return Ok(((FieldShape::Named(names), sf), p + 1));
    }
    match parse_attrs(s, p) {
        Err(e) => Err(e),
        Ok((attrs, j)) => {
            let q = skip_ws(s, j);
            let qe = ident_end(s, q);
            if qe <= q {
                return Err(err_at(q));
            }
            let name = String::from_str(s.substring_char(q, qe));
            match apply_field_attrs(&attrs, FieldRef::Name(name.clone())) {
                Err(e) => Err(e),
                Ok(marked) => {
                    if marked.is_some() && sf.is_some() {
                        return Err(err_at(j));
                    }
                    let sf2 = if marked.is_some() {
                        marked
                    } else {
                        sf
                    };
                    let c0 = skip_ws(s, qe);
                    if !(c0 < len && s.get_char(c0) == ':') {
                        return Err(err_at(c0));
                    }
                    let ty0 = skip_ws(s, c0 + 1);
                    let te = type_end(s, ty0);
                    if te <= ty0 {
                        return Err(err_at(ty0));
                    }
                    let w = skip_ws(s, te);
                    let mut names = names;
                    if w < len && s.get_char(w) == ',' {
                        names.push(name);
                        proof {
                            assert(names.deep_view() =~= namesv.push(name@));
                        }
                        parse_named_fields(s, w + 1, names, sf2)
                    } else if w < len && s.get_char(w) == '}' {
                        names.push(name);
                        proof {
                            assert(names.deep_view() =~= namesv.push(name@));
                        }
                        Ok(((FieldShape::Named(names), sf2), w + 1))
                    } else {
                        Err(err_at(w))
                    }
                },
            }
        },
    }
}

/// One node, as [`spec_parse_node`] says.
fn parse_node(s: &str, i: usize) -> (r: Result<(ErrorTree, usize), ParseError>)
    requires
        i <= s@.len(),
    ensures
        (r matches Ok(pr) ==> spec_parse_node(s@, i as int) == Ok::<
            (ErrorTreeV, int),
            ParseError,
        >((pr.0.deep_view(), pr.1 as int)) && i < pr.1 <= s@.len()),
        (r matches Err(e) ==> spec_parse_node(s@, i as int) == Err::<
            (ErrorTreeV, int),
            ParseError,
        >(e)),
    decreases s@.len() - i, 0int,
{
    let len = s.unicode_len();
    match parse_attrs(s, i) {
        Err(e) => Err(e),
        Ok((attrs, j)) => {
            let p = skip_ws(s, j);
            if !(p < len) {
                return Err(err_at(p));
            }
            let c = s.get_char(p);
            if c == '{' {
                match parse_node_list(s, p + 1) {
                    Err(e) => Err(e),
                    Ok((children, e)) => Ok(
                        (
                            ErrorTree::Group {
                                span: SrcSpan { start: p, end: p + 1 },
                                attrs,
                                children,
                            },
                            e,
                        ),
                    ),
                }
            } else if ('a' <= c && c <= 'z') || ('A' <= c && c <= 'Z') || c == '_' {
                let ke = ident_end(s, p);
                proof {
                    lemma_ident_end_bounds(s@, p as int);
                }
                let ident = String::from_str(s.substring_char(p, ke));
                let span = SrcSpan { start: p, end: ke };
                let w = skip_ws(s, ke);
                if w < len && s.get_char(w) == '{' {
                    let empty_names: Vec<String> = Vec::new();
                    proof {
                        assert(empty_names.deep_view() =~= Seq::<Seq<char>>::empty());
                    }
                    match parse_named_fields(s, w + 1, empty_names, None) {
                        Err(e) => Err(e),
                        Ok(((fields, sfr), e)) => Ok(
                            (ErrorTree::Leaf { span, attrs, ident, fields, span_field: sfr }, e),
                        ),
                    }
                } else if w < len && s.get_char(w) == '(' {
                    match parse_pos_fields(s, w + 1, 0, None) {
                        Err(e) => Err(e),
                        Ok(((fields, sfr), e)) => Ok(
                            (ErrorTree::Leaf { span, attrs, ident, fields, span_field: sfr }, e),
                        ),
                    }
                } else {
                    Ok(
                        (
                            ErrorTree::Leaf {
                                span,
                                attrs,
                                ident,
                                fields: FieldShape::Unit,
                                span_field: None,
                            },
                            ke,
                        ),
                    )
                }
            } else {
                Err(err_at(p))
            }
        },
    }
}

/// The remaining nodes of a braced list, as [`spec_parse_node_list`]
/// says.
fn parse_node_list(s: &str, i: usize) -> (r: Result<(Vec<ErrorTree>, usize), ParseError>)
    requires
        i <= s@.len(),
    ensures
        (r matches Ok(pr) ==> spec_parse_node_list(s@, i as int) == Ok::<
            (Seq<ErrorTreeV>, int),
            ParseError,
        >((crate::tree::forest_view(pr.0@), pr.1 as int)) && i < pr.1 <= s@.len()),
        (r matches Err(e) ==> spec_parse_node_list(s@, i as int) == Err::<
            (Seq<ErrorTreeV>, int),
            ParseError,
        >(e)),
    decreases s@.len() - i, 1int,
{
    let len = s.unicode_len();
    let p = skip_ws(s, i);
    if !(p < len) {
        return Err(err_at(p));
    }
    if s.get_char(p) == '}' {
        proof {
            assert(crate::tree::forest_view(Seq::<ErrorTree>::empty()) =~= Seq::<
                ErrorTreeV,
            >::empty());
        }
        return Ok((Vec::new(), p + 1));
    }
    match parse_node(s, p) {
        Err(e) => Err(e),
        Ok((node, j)) => {
            let ghost nodev = node.deep_view();
            let w = skip_ws(s, j);
            if w < len && s.get_char(w) == ',' {
                match parse_node_list(s, w + 1) {
                    Err(e) => Err(e),
                    Ok((rest, e)) => {
                        let ghost restseq = rest@;
                        let ghost restv = crate::tree::forest_view(rest@);
                        let mut out: Vec<ErrorTree> = Vec::new();
                        out.push(node);
                        let mut rest = rest;
                        out.append(&mut rest);
                        proof {
                            assert(out@.drop_first() =~= restseq);
                            assert(out@[0] == node);
                            lemma_forest_view_concat(out@, nodev, restv);
                        }
                        Ok((out, e))
                    },
                }
            } else if w < len && s.get_char(w) == '}' {
                let mut out: Vec<ErrorTree> = Vec::new();
                out.push(node);
                proof {
                    assert(out@.drop_last() =~= Seq::<ErrorTree>::empty());
                    assert(crate::tree::forest_view(out@.drop_last()) == crate::tree::forest_view(
                        Seq::<ErrorTree>::empty(),
                    ));
                    assert(crate::tree::forest_view(Seq::<ErrorTree>::empty())
                        =~= Seq::<ErrorTreeV>::empty());
                    assert(out@.last() == node);
                    assert(crate::tree::forest_view(out@) =~= seq![nodev]);
                }
                Ok((out, w + 1))
            } else {
                Err(err_at(w))
            }
        },
    }
}

/// The mirror of a one-node-then-rest forest.
proof fn lemma_forest_view_concat(s: Seq<ErrorTree>, nodev: ErrorTreeV, restv: Seq<ErrorTreeV>)
    requires
        s.len() > 0,
        s[0].deep_view() == nodev,
        crate::tree::forest_view(s.drop_first()) == restv,
    ensures
        crate::tree::forest_view(s) == seq![nodev] + restv,
    decreases s.len(),
{
    crate::tree::lemma_forest_view_len(s);
    crate::tree::lemma_forest_view_len(s.drop_first());
    assert forall|k: int| 0 <= k < s.len() implies crate::tree::forest_view(s)[k] == (seq![nodev]
        + restv)[k] by {
        crate::tree::lemma_forest_view_index(s, k);
        if k > 0 {
            crate::tree::lemma_forest_view_index(s.drop_first(), k - 1);
            assert(s.drop_first()[k - 1] == s[k]);
        }
    }
    assert(crate::tree::forest_view(s) =~= seq![nodev] + restv);
}

/// Parse a whole taxonomy from source text, as [`spec_parse_taxonomy`]
/// says: the taxonomy's own attributes, its name, optional generics,
/// and the braced forest of root nodes; the first malformed construct,
/// in source order, is the error.
pub fn parse_taxonomy(s: &str) -> (r: Result<Taxonomy, ParseError>)
    ensures
        (r matches Ok(tax) ==> spec_parse_taxonomy(s@) == Ok::<TaxonomyV, ParseError>(
            tax.deep_view(),
        )),
        (r matches Err(e) ==> spec_parse_taxonomy(s@) == Err::<TaxonomyV, ParseError>(e)),
{
    let len = s.unicode_len();
    match parse_attrs(s, 0) {
        Err(e) => Err(e),
        Ok((attrs, j)) => {
            let p = skip_ws(s, j);
            let mut ok_start = false;
            if p < len {
                let c = s.get_char(p);
                if ('a' <= c && c <= 'z') || ('A' <= c && c <= 'Z') || c == '_' {
                    ok_start = true;
                }
            }
            if !ok_start {
                return Err(err_at(p));
            }
            let ke = ident_end(s, p);
            let name = String::from_str(s.substring_char(p, ke));
            let span = SrcSpan { start: p, end: ke };
            let g = skip_ws(s, ke);
            let g2 = if g < len && s.get_char(g) == '<' {
                let ae = angle_end(s, g + 1);
                skip_ws(s, ae)
            } else {
                g
            };
            if !(g2 < len && s.get_char(g2) == '{') {
                return Err(err_at(g2));
            }
            match parse_node_list(s, g2 + 1) {
                Err(e) => Err(e),
                Ok((roots, e)) => {
                    let tail = skip_ws(s, e);
                    if tail < len {
                        Err(err_at(tail))
                    } else {
                        Ok(Taxonomy { span, name, attrs, roots })
                    }
                },
            }
        },
    }
}

/// The position just past the `>` matching an already-open `<`.
fn angle_end(s: &str, i: usize) -> (r: usize)
    requires
        i <= s@.len(),
    ensures
        r == spec_angle_end(s@, i as int, 1),
        i <= r <= s@.len(),
{
    let len = s.unicode_len();
    let mut j = i;
    let mut depth: i128 = 1;
    while j < len
        invariant_except_break
            spec_angle_end(s@, i as int, 1) == spec_angle_end(s@, j as int, depth as int),
        invariant
            i <= j <= len,
            len == s@.len(),
            1 <= depth <= (j - i) + 1,
        ensures
            i <= j <= len,
            spec_angle_end(s@, i as int, 1) == j,
        decreases len - j,
    {
        let c = s.get_char(j);
        if c == '>' {
            if depth <= 1 {
                j += 1;
                proof {
                    assert(spec_angle_end(s@, j - 1, depth as int) == j);
                }
                break;
            }
            depth -= 1;
        } else if c == '<' {
            depth += 1;
        }
        j += 1;
    }
    j
}

/// An identifier run never moves backwards, and moves past at least
/// one character when one stands at its start.
pub proof fn lemma_ident_end_bounds(t: Seq<char>, i: int)
    requires
        0 <= i <= t.len(),
    ensures
        i <= spec_ident_end(t, i) <= t.len(),
        i < t.len() && spec_is_ident_char(t[i]) ==> spec_ident_end(t, i) >= i + 1,
    decreases t.len() - i,
{
    if i < t.len() && spec_is_ident_char(t[i]) {
        lemma_ident_end_bounds(t, i + 1);
    }
}

/// The first position at or after `i` holding no whitespace.
fn skip_ws(s: &str, i: usize) -> (r: usize)
    requires
        i <= s@.len(),
    ensures
        r == spec_skip_ws(s@, i as int),
        i <= r <= s@.len(),
{
    let len = s.unicode_len();
    let mut j = i;
    while j < len
        invariant
            i <= j <= len,
            len == s@.len(),
            spec_skip_ws(s@, i as int) == spec_skip_ws(s@, j as int),
        ensures
            i <= j <= len,
            spec_skip_ws(s@, i as int) == j,
        decreases len - j,
    {
        let c = s.get_char(j);
        if !(c == ' ' || c == '\t' || c == '\n' || c == '\r') {
            break;
        }
        j += 1;
    }
    j
}

/// The end of the identifier run starting at `i`.
fn ident_end(s: &str, i: usize) -> (r: usize)
    requires
        i <= s@.len(),
    ensures
        r == spec_ident_end(s@, i as int),
        i <= r <= s@.len(),
{
    let len = s.unicode_len();
    let mut j = i;
    while j < len
        invariant
            i <= j <= len,
            len == s@.len(),
            spec_ident_end(s@, i as int) == spec_ident_end(s@, j as int),
        ensures
            i <= j <= len,
            spec_ident_end(s@, i as int) == j,
        decreases len - j,
    {
        let c = s.get_char(j);
        if !(('a' <= c && c <= 'z') || ('A' <= c && c <= 'Z') || c == '_' || ('0' <= c && c
            <= '9')) {
            break;
        }
        j += 1;
    }
    j
}

/// The position of the closing quote of a string literal whose body
/// starts at `i`.
fn str_end(s: &str, i: usize) -> (r: usize)
    requires
        i <= s@.len(),
    ensures
        r == spec_str_end(s@, i as int),
        i <= r <= s@.len(),
{
    let len = s.unicode_len();
    let mut j = i;
    while j < len
        invariant
            i <= j <= len,
            len == s@.len(),
            spec_str_end(s@, i as int) == spec_str_end(s@, j as int),
        ensures
            i <= j <= len,
            spec_str_end(s@, i as int) == j,
        decreases len - j,
    {
        if s.get_char(j) == '"' {
            break;
        }
        j += 1;
    }
    j
}

/// The end of the type text starting at `i` outside any bracket.
fn type_end(s: &str, i: usize) -> (r: usize)
    requires
        i <= s@.len(),
    ensures
        r == spec_type_end(s@, i as int, 0),
        i <= r <= s@.len(),
{
    let len = s.unicode_len();
    let mut j = i;
    let mut depth: i128 = 0;
    while j < len
        invariant
            i <= j <= len,
            len == s@.len(),
            spec_type_end(s@, i as int, 0) == spec_type_end(s@, j as int, depth as int),
            -(j - i) <= depth <= (j - i),
        ensures
            i <= j <= len,
            spec_type_end(s@, i as int, 0) == j,
        decreases len - j,
    {
        let c = s.get_char(j);
        if depth <= 0 && (c == ',' || c == '}' || c == ')') {
            break;
        }
        if c == '(' || c == '[' || c == '{' || c == '<' {
            depth += 1;
        } else if c == ')' || c == ']' || c == '}' || c == '>' {
            depth -= 1;
        }
        j += 1;
    }
    j
}

} // verus!
