//! The template compiler: scanning a message or label template into
//! literal and placeholder segments, validating every placeholder
//! against the owning leaf's field shape, and rendering a compiled
//! template against field values.
//!
//! Placeholder syntax: `{`, a field reference (a bare non-negative
//! integer for positional fields or an identifier for named fields), an
//! optional `:`-introduced formatting suffix, `}`.  A literal brace is
//! written doubled (`{{` or `}}`) and never opens or closes a
//! placeholder.

use vstd::prelude::*;
use vstd::string::*;
use crate::resolve::spec_is_digits;
use crate::tree::{FieldShape, FieldShapeV, SrcSpan};

verus! {

/// A resolved placeholder reference: a positional field index or a
/// named field.
#[derive(Debug)]
pub enum ArgRef {
    Pos(usize),
    Name(String),
}

/// Spec-level mirror of [`ArgRef`].
pub enum ArgRefV {
    Pos(usize),
    Name(Seq<char>),
}

impl DeepView for ArgRef {
    type V = ArgRefV;

    open spec fn deep_view(&self) -> ArgRefV {
        match self {
            ArgRef::Pos(i) => ArgRefV::Pos(*i),
            ArgRef::Name(s) => ArgRefV::Name(s@),
        }
    }
}

/// One segment of a compiled template: literal text, or a placeholder
/// with its resolved reference and verbatim formatting suffix.
#[derive(Debug)]
pub enum Segment {
    Lit(String),
    Arg { reference: ArgRef, format: String },
}

/// Spec-level mirror of [`Segment`].
pub enum SegmentV {
    Lit(Seq<char>),
    Arg { reference: ArgRefV, format: Seq<char> },
}

impl DeepView for Segment {
    type V = SegmentV;

    open spec fn deep_view(&self) -> SegmentV {
        match self {
            Segment::Lit(s) => SegmentV::Lit(s@),
            Segment::Arg { reference, format } => SegmentV::Arg {
                reference: reference.deep_view(),
                format: format@,
            },
        }
    }
}

/// Why a template failed to compile.
#[derive(Clone, Copy, Debug, PartialEq, Eq, Structural)]
pub enum TemplateErrorKind {
    /// A `{` opened a placeholder that never closes.
    UnclosedPlaceholder,
    /// A `}` with no matching `{` and not written `}}`.
    UnmatchedBrace,
    /// A `{}` placeholder with no field reference.
    EmptyPlaceholder,
    /// A reference that is neither an integer nor an identifier.
    BadPlaceholder,
    /// A positional reference at or beyond the number of fields.
    IndexOutOfRange,
    /// A named reference that matches no declared field name.
    UnknownFieldName,
}

/// A fatal template error, carrying the span of the template.
#[derive(Clone, Copy, Debug, PartialEq, Eq, Structural)]
pub struct TemplateError {
    pub kind: TemplateErrorKind,
    pub span: SrcSpan,
}

/// Where the scanner stands: in literal text, inside a placeholder
/// reading the reference, or inside a placeholder reading the
/// formatting suffix.
#[derive(Clone, Copy, Debug, PartialEq, Eq, Structural)]
pub enum ScanMode {
    InLit,
    InRef,
    InFmt,
}

/// The number of positional slots a field shape offers.
pub open spec fn spec_field_count(shape: FieldShapeV) -> nat {
    match shape {
        FieldShapeV::Named(names) => names.len(),
        FieldShapeV::Positional(n) => n as nat,
        FieldShapeV::Unit => 0,
    }
}

/// The numeric value of a digit string.
pub open spec fn spec_digits_val(s: Seq<char>) -> nat
    decreases s.len(),
{
    if s.len() == 0 {
        0
    } else {
        spec_digits_val(s.drop_last()) * 10 + (s.last() as int - 48) as nat
    }
}

/// Whether a character may start an identifier.
pub open spec fn spec_is_ident_start(c: char) -> bool {
    ('a' <= c <= 'z') || ('A' <= c <= 'Z') || c == '_'
}

/// Whether a character may continue an identifier.
pub open spec fn spec_is_ident_char(c: char) -> bool {
    spec_is_ident_start(c) || ('0' <= c <= '9')
}

/// Whether a reference is an identifier.
pub open spec fn spec_is_ident(s: Seq<char>) -> bool {
    s.len() > 0 && spec_is_ident_start(s[0]) && forall|i: int|
        0 < i < s.len() ==> spec_is_ident_char(#[trigger] s[i])
}

/// Whether a name is declared in a list of field names.
pub open spec fn spec_name_in(names: Seq<Seq<char>>, s: Seq<char>) -> bool {
    exists|k: int| 0 <= k < names.len() && names[k] == s
}

/// Resolving one placeholder against a field shape: a digit reference
/// must index an existing field, an identifier must name a declared
/// field, and anything else is malformed.
pub open spec fn spec_make_arg(
    refstr: Seq<char>,
    fmt: Seq<char>,
    shape: FieldShapeV,
    tspan: SrcSpan,
) -> Result<SegmentV, TemplateError> {
    if refstr.len() == 0 {
        Err(TemplateError { kind: TemplateErrorKind::EmptyPlaceholder, span: tspan })
    } else if spec_is_digits(refstr) {
        if spec_digits_val(refstr) < spec_field_count(shape) {
            Ok(
                SegmentV::Arg {
                    reference: ArgRefV::Pos(spec_digits_val(refstr) as usize),
                    format: fmt,
                },
            )
        } else {
            Err(TemplateError { kind: TemplateErrorKind::IndexOutOfRange, span: tspan })
        }
    } else if spec_is_ident(refstr) {
        match shape {
            FieldShapeV::Named(names) => if spec_name_in(names, refstr) {
                Ok(SegmentV::Arg { reference: ArgRefV::Name(refstr), format: fmt })
            } else {
                Err(TemplateError { kind: TemplateErrorKind::UnknownFieldName, span: tspan })
            },
            _ => Err(TemplateError { kind: TemplateErrorKind::UnknownFieldName, span: tspan }),
        }
    } else {
        Err(TemplateError { kind: TemplateErrorKind::BadPlaceholder, span: tspan })
    }
}

/// Append pending literal text, if any, as one segment.
pub open spec fn spec_flush(acc: Seq<SegmentV>, lit: Seq<char>) -> Seq<SegmentV> {
    if lit.len() > 0 {
        acc.push(SegmentV::Lit(lit))
    } else {
        acc
    }
}

/// The scanner, one character at a time.  `lit`, `refacc` and `fmtacc`
/// are the pending literal text, reference and formatting suffix; `acc`
/// the segments already finished.
pub open spec fn spec_scan_from(
    t: Seq<char>,
    shape: FieldShapeV,
    tspan: SrcSpan,
    i: int,
    mode: ScanMode,
    lit: Seq<char>,
    refacc: Seq<char>,
    fmtacc: Seq<char>,
    acc: Seq<SegmentV>,
) -> Result<Seq<SegmentV>, TemplateError>
    decreases t.len() - i,
{
    if i < 0 || i >= t.len() {
        match mode {
            ScanMode::InLit => Ok(spec_flush(acc, lit)),
            _ => Err(TemplateError { kind: TemplateErrorKind::UnclosedPlaceholder, span: tspan }),
        }
    } else {
        let c = t[i];
        match mode {
            ScanMode::InLit => {
                if c == '{' && i + 1 < t.len() && t[i + 1] == '{' {
                    spec_scan_from(
                        t,
                        shape,
                        tspan,
                        i + 2,
                        ScanMode::InLit,
                        lit.push('{'),
                        refacc,
                        fmtacc,
                        acc,
                    )
                } else if c == '}' && i + 1 < t.len() && t[i + 1] == '}' {
                    spec_scan_from(
                        t,
                        shape,
                        tspan,
                        i + 2,
                        ScanMode::InLit,
                        lit.push('}'),
                        refacc,
                        fmtacc,
                        acc,
                    )
                } else if c == '{' {
                    spec_scan_from(
                        t,
                        shape,
                        tspan,
                        i + 1,
                        ScanMode::InRef,
                        lit,
                        Seq::empty(),
                        Seq::empty(),
                        acc,
                    )
                } else if c == '}' {
                    Err(TemplateError { kind: TemplateErrorKind::UnmatchedBrace, span: tspan })
                } else {
                    spec_scan_from(
                        t,
                        shape,
                        tspan,
                        i + 1,
                        ScanMode::InLit,
                        lit.push(c),
                        refacc,
                        fmtacc,
                        acc,
                    )
                }
            },
            ScanMode::InRef => {
                if c == '}' {
                    match spec_make_arg(refacc, Seq::empty(), shape, tspan) {
                        Ok(seg) => spec_scan_from(
                            t,
                            shape,
                            tspan,
                            i + 1,
                            ScanMode::InLit,
                            Seq::empty(),
                            Seq::empty(),
                            Seq::empty(),
                            spec_flush(acc, lit).push(seg),
                        ),
                        Err(e) => Err(e),
                    }
                } else if c == ':' {
                    spec_scan_from(t, shape, tspan, i + 1, ScanMode::InFmt, lit, refacc, fmtacc, acc)
                } else {
                    spec_scan_from(
                        t,
                        shape,
                        tspan,
                        i + 1,
                        ScanMode::InRef,
                        lit,
                        refacc.push(c),
                        fmtacc,
                        acc,
                    )
                }
            },
            ScanMode::InFmt => {
                if c == '}' {
                    match spec_make_arg(refacc, fmtacc, shape, tspan) {
                        Ok(seg) => spec_scan_from(
                            t,
                            shape,
                            tspan,
                            i + 1,
                            ScanMode::InLit,
                            Seq::empty(),
                            Seq::empty(),
                            Seq::empty(),
                            spec_flush(acc, lit).push(seg),
                        ),
                        Err(e) => Err(e),
                    }
                } else if c == '{' {
                    Err(
                        TemplateError {
                            kind: TemplateErrorKind::UnclosedPlaceholder,
                            span: tspan,
                        },
                    )
                } else {
                    spec_scan_from(
                        t,
                        shape,
                        tspan,
                        i + 1,
                        ScanMode::InFmt,
                        lit,
                        refacc,
                        fmtacc.push(c),
                        acc,
                    )
                }
            },
        }
    }
}

/// The compilation of a whole template against a field shape.
pub open spec fn spec_compile(t: Seq<char>, shape: FieldShapeV, tspan: SrcSpan) -> Result<
    Seq<SegmentV>,
    TemplateError,
> {
    spec_scan_from(
        t,
        shape,
        tspan,
        0,
        ScanMode::InLit,
        Seq::empty(),
        Seq::empty(),
        Seq::empty(),
        Seq::empty(),
    )
}

/// A text with every brace doubled, so that it reads as literal text
/// under the placeholder syntax.
pub open spec fn escape_braces(s: Seq<char>) -> Seq<char>
    decreases s.len(),
{
    if s.len() == 0 {
        Seq::empty()
    } else {
        (if s.first() == '{' {
            seq!['{', '{']
        } else if s.first() == '}' {
            seq!['}', '}']
        } else {
            seq![s.first()]
        }) + escape_braces(s.drop_first())
    }
}

/// Scanning escaped text in literal mode accumulates exactly the
/// unescaped text and never opens a placeholder.
proof fn lemma_scan_escaped(
    t: Seq<char>,
    shape: FieldShapeV,
    tspan: SrcSpan,
    i: int,
    lit: Seq<char>,
    refacc: Seq<char>,
    fmtacc: Seq<char>,
    acc: Seq<SegmentV>,
    s: Seq<char>,
)
    requires
        0 <= i <= t.len(),
        t.skip(i) == escape_braces(s),
    ensures
        spec_scan_from(t, shape, tspan, i, ScanMode::InLit, lit, refacc, fmtacc, acc) == Ok::<
            Seq<SegmentV>,
            TemplateError,
        >(spec_flush(acc, lit + s)),
    decreases s.len(),
{
    if s.len() == 0 {
        assert(t.skip(i).len() == 0);
        assert(i >= t.len());
        assert(lit + s =~= lit);
    } else {
        let c = s.first();
        let rest = s.drop_first();
        assert(s =~= seq![c] + rest);
        if c == '{' || c == '}' {
            assert(escape_braces(s) == seq![c, c] + escape_braces(rest));
            assert(t.skip(i).len() >= 2);
            assert((seq![c, c] + escape_braces(rest))[0] == c);
            assert((seq![c, c] + escape_braces(rest))[1] == c);
            assert(t.skip(i)[0] == t[i]);
            assert(t.skip(i)[1] == t[i + 1]);
            assert(t[i] == c);
            assert(t[i + 1] == c);
            assert(i + 1 < t.len());
            assert(t.skip(i + 2) =~= escape_braces(rest)) by {
                assert forall|k: int| 0 <= k < t.len() - i - 2 implies t.skip(i + 2)[k]
                    == escape_braces(rest)[k] by {
                    assert(t.skip(i)[k + 2] == t[i + 2 + k]);
                }
            }
            lemma_scan_escaped(t, shape, tspan, i + 2, lit.push(c), refacc, fmtacc, acc, rest);
            assert(lit.push(c) + rest =~= lit + s);
        } else {
            assert(escape_braces(s) == seq![c] + escape_braces(rest));
            assert((seq![c] + escape_braces(rest))[0] == c);
            assert(t.skip(i)[0] == t[i]);
            assert(t[i] == c);
            assert(t.skip(i + 1) =~= escape_braces(rest)) by {
                assert forall|k: int| 0 <= k < t.len() - i - 1 implies t.skip(i + 1)[k]
                    == escape_braces(rest)[k] by {
                    assert(t.skip(i)[k + 1] == t[i + 1 + k]);
                }
            }
            lemma_scan_escaped(t, shape, tspan, i + 1, lit.push(c), refacc, fmtacc, acc, rest);
            assert(lit.push(c) + rest =~= lit + s);
        }
    }
}

/// Doubled braces never resolve to a placeholder: a template obtained
/// by doubling every brace of a text compiles, against any field shape,
/// to that text as pure literal segments — so the rendered output shows
/// the braces themselves and no substitution takes place.
pub proof fn lemma_escaped_braces_literal(s: Seq<char>, shape: FieldShapeV, tspan: SrcSpan)
    ensures
        spec_compile(escape_braces(s), shape, tspan) == Ok::<Seq<SegmentV>, TemplateError>(
            spec_flush(Seq::empty(), s),
        ),
        s.len() > 0 ==> spec_compile(escape_braces(s), shape, tspan)->Ok_0 == seq![
            SegmentV::Lit(s),
        ],
{
    let t = escape_braces(s);
    assert(t.skip(0) =~= t);
    lemma_scan_escaped(
        t,
        shape,
        tspan,
        0,
        Seq::empty(),
        Seq::empty(),
        Seq::empty(),
        Seq::empty(),
        s,
    );
    assert(Seq::<char>::empty() + s =~= s);
    if s.len() > 0 {
        assert(spec_flush(Seq::empty(), s) =~= seq![SegmentV::Lit(s)]);
    }
}

/// One named field value handed to the renderer.
#[derive(Debug)]
pub struct NamedArg {
    pub name: String,
    pub value: String,
}

/// Spec-level mirror of [`NamedArg`].
pub struct NamedArgV {
    pub name: Seq<char>,
    pub value: Seq<char>,
}

impl DeepView for NamedArg {
    type V = NamedArgV;

    open spec fn deep_view(&self) -> NamedArgV {
        NamedArgV { name: self.name@, value: self.value@ }
    }
}

/// The value bound to a name, front to back; empty if the name is
/// unbound.
pub open spec fn spec_lookup(named: Seq<NamedArgV>, n: Seq<char>) -> Seq<char>
    decreases named.len(),
{
    if named.len() == 0 {
        Seq::empty()
    } else if named.first().name == n {
        named.first().value
    } else {
        spec_lookup(named.drop_first(), n)
    }
}

/// The text one segment renders to: literal text stays, a positional
/// placeholder takes the value at its index, a named one the value
/// bound to its name.  Formatting suffixes are not modelled: a
/// placeholder renders as the plain value.
pub open spec fn spec_seg_text(
    seg: SegmentV,
    pos: Seq<Seq<char>>,
    named: Seq<NamedArgV>,
) -> Seq<char> {
    match seg {
        SegmentV::Lit(s) => s,
        SegmentV::Arg { reference, .. } => match reference {
            ArgRefV::Pos(k) => if (k as int) < pos.len() {
                pos[k as int]
            } else {
                Seq::empty()
            },
            ArgRefV::Name(n) => spec_lookup(named, n),
        },
    }
}

/// The rendering of a compiled template against field values.
pub open spec fn spec_render(
    segs: Seq<SegmentV>,
    pos: Seq<Seq<char>>,
    named: Seq<NamedArgV>,
) -> Seq<char>
    decreases segs.len(),
{
    if segs.len() == 0 {
        Seq::empty()
    } else {
        spec_render(segs.drop_last(), pos, named) + spec_seg_text(segs.last(), pos, named)
    }
}

/// The value bound to a name, front to back; empty if unbound.
#[verifier::loop_isolation(false)]
fn lookup_named(named: &Vec<NamedArg>, n: &str) -> (r: String)
    ensures
        r@ == spec_lookup(named.deep_view(), n@),
{
    let ghost namedv = named.deep_view();
    let mut m: usize = 0;
    proof {
        assert(namedv.skip(0) =~= namedv);
    }
    while m < named.len()
        invariant
            m <= namedv.len(),
            namedv.len() == named@.len(),
            spec_lookup(namedv, n@) == spec_lookup(namedv.skip(m as int), n@),
        decreases named@.len() - m,
    {
        proof {
            assert(namedv.skip(m as int).first() == namedv[m as int]);
            assert(namedv.skip(m as int).drop_first() =~= namedv.skip(m + 1 as int));
        }
        if crate::tree::str_eq(named[m].name.as_str(), n) {
            proof {
                assert(namedv[m as int] == named@[m as int].deep_view());
                assert(namedv[m as int].name == n@);
                assert(spec_lookup(namedv.skip(m as int), n@) == namedv[m as int].value);
            }
            return named[m].value.clone();
        }
        m += 1;
    }
    proof {
        assert(namedv.skip(namedv.len() as int) =~= Seq::<NamedArgV>::empty());
    }
    String::new()
}

/// Render a compiled template against positional and named field
/// values, as [`spec_render`] says.
#[verifier::loop_isolation(false)]
pub fn render(segs: &Vec<Segment>, pos: &Vec<String>, named: &Vec<NamedArg>) -> (r: String)
    ensures
        r@ == spec_render(segs.deep_view(), pos.deep_view(), named.deep_view()),
{
    let ghost segsv = segs.deep_view();
    let mut out = String::new();
    let mut k: usize = 0;
    while k < segs.len()
        invariant
            k <= segsv.len(),
            out@ == spec_render(segsv.take(k as int), pos.deep_view(), named.deep_view()),
        decreases segs@.len() - k,
    {
        proof {
            assert(segsv.take(k + 1 as int).drop_last() =~= segsv.take(k as int));
            assert(segsv.take(k + 1 as int).last() == segsv[k as int]);
        }
        match &segs[k] {
            Segment::Lit(s) => {
                out.append(s.as_str());
            },
            Segment::Arg { reference, .. } => match reference {
                ArgRef::Pos(p) => {
                    if *p < pos.len() {
                        out.append(pos[*p].as_str());
                    }
                },
                ArgRef::Name(n) => {
                    let v = lookup_named(named, n.as_str());
                    out.append(v.as_str());
                },
            },
        }
        k += 1;
    }
    proof {
        assert(segsv.take(segsv.len() as int) =~= segsv);
    }
    out
}

/// Rendering a template that compiled to pure literal text shows that
/// text whatever field values are supplied: no substitution takes
/// place.
pub proof fn lemma_literal_renders_itself(
    s: Seq<char>,
    pos: Seq<Seq<char>>,
    named: Seq<NamedArgV>,
)
    ensures
        spec_render(seq![SegmentV::Lit(s)], pos, named) == s,
{
    assert(seq![SegmentV::Lit(s)].drop_last() =~= Seq::<SegmentV>::empty());
    assert(seq![SegmentV::Lit(s)].last() == SegmentV::Lit(s));
    assert(spec_render(seq![SegmentV::Lit(s)].drop_last(), pos, named) == Seq::<char>::empty());
    assert(Seq::<char>::empty() + s =~= s);
}

/// The positional field indices a compiled template uses, in order of
/// occurrence, duplicates kept.
pub open spec fn spec_pos_refs(segs: Seq<SegmentV>) -> Seq<usize>
    decreases segs.len(),
{
    if segs.len() == 0 {
        Seq::empty()
    } else {
        spec_pos_refs(segs.drop_last()) + (match segs.last() {
            SegmentV::Arg { reference: ArgRefV::Pos(k), .. } => seq![k],
            _ => Seq::empty(),
        })
    }
}

/// The positional field indices a compiled template uses, in order of
/// occurrence, duplicates kept.
#[verifier::loop_isolation(false)]
pub fn used_unnamed_fields(segs: &Vec<Segment>) -> (r: Vec<usize>)
    ensures
        r@ == spec_pos_refs(segs.deep_view()),
{
    let ghost segsv = segs.deep_view();
    let mut out: Vec<usize> = Vec::new();
    let mut k: usize = 0;
    proof {
        assert(out@ =~= spec_pos_refs(segsv.take(0)));
    }
    while k < segs.len()
        invariant
            k <= segsv.len(),
            out@ == spec_pos_refs(segsv.take(k as int)),
        decreases segs@.len() - k,
    {
        proof {
            assert(segsv.take(k + 1 as int).drop_last() =~= segsv.take(k as int));
            assert(segsv.take(k + 1 as int).last() == segsv[k as int]);
        }
        match &segs[k] {
            Segment::Arg { reference: ArgRef::Pos(p), .. } => {
                out.push(*p);
                proof {
                    assert(out@ =~= spec_pos_refs(segsv.take(k + 1 as int)));
                }
            },
            _ => {
                proof {
                    assert(out@ =~= spec_pos_refs(segsv.take(k + 1 as int)));
                }
            },
        }
        k += 1;
    }
    proof {
        assert(segsv.take(segsv.len() as int) =~= segsv);
    }
    out
}

/// Relies on String::push: appends one character to the string.
#[verifier::external_body]
fn push_char(s: &mut String, c: char)
    ensures
        final(s)@ == old(s)@.push(c),
{
    s.push(c);
}

/// A prefix of a digit string never exceeds the whole string's value.
proof fn lemma_digits_val_prefix(s: Seq<char>, j: int)
    requires
        0 <= j <= s.len(),
    ensures
        spec_digits_val(s.take(j)) <= spec_digits_val(s),
    decreases s.len() - j,
{
    if j < s.len() {
        lemma_digits_val_prefix(s, j + 1);
        assert(s.take(j + 1).drop_last() =~= s.take(j));
        assert(spec_digits_val(s.take(j + 1)) == spec_digits_val(s.take(j)) * 10 + (s.take(
            j + 1,
        ).last() as int - 48) as nat);
    } else {
        assert(s.take(j) =~= s);
    }
}

/// The number of positional slots a field shape offers.
pub fn field_count(shape: &FieldShape) -> (r: usize)
    ensures
        r as nat == spec_field_count(shape.deep_view()),
{
    match shape {
        FieldShape::Named(names) => names.len(),
        FieldShape::Positional(n) => *n,
        FieldShape::Unit => 0,
    }
}

/// Parse a digit string, reporting whether its value stays below the
/// bound.
fn digits_val_below(s: &str, bound: usize) -> (r: Option<usize>)
    requires
        spec_is_digits(s@),
    ensures
        match r {
            Some(v) => v as nat == spec_digits_val(s@) && v < bound,
            None => spec_digits_val(s@) >= bound,
        },
{
    let len = s.unicode_len();
    let mut val: usize = 0;
    let mut j: usize = 0;
    proof {
        assert(s@.take(0) =~= Seq::<char>::empty());
    }
    while j < len
        invariant
            j <= len,
            len == s@.len(),
            spec_is_digits(s@),
            val as nat == spec_digits_val(s@.take(j as int)),
        decreases len - j,
    {
        let c = s.get_char(j);
        let d = (c as u32) - 48;
        proof {
            assert(s@[j as int] == c);
            assert('0' <= c <= '9');
            assert(d <= 9);
        }
        if val > (usize::MAX - (d as usize)) / 10 {
            proof {
                lemma_digits_val_prefix(s@, j + 1);
                assert(s@.take(j + 1 as int).drop_last() =~= s@.take(j as int));
                assert(spec_digits_val(s@.take(j + 1 as int)) == (val as nat) * 10 + (d as nat));
                assert((val as nat) * 10 + (d as nat) > usize::MAX) by (nonlinear_arith)
                    requires
                        val > (usize::MAX - d as usize) / 10,
                        d <= 9,
                ;
            }
            return None;
        }
        let newval = val * 10 + (d as usize);
        proof {
            assert(s@.take(j + 1 as int).drop_last() =~= s@.take(j as int));
            assert(s@.take(j + 1 as int).last() == c);
        }
        val = newval;
        j += 1;
    }
    proof {
        assert(s@.take(len as int) =~= s@);
    }
    if val < bound {
        Some(val)
    } else {
        None
    }
}

/// Whether a reference is an identifier.
fn is_ident(s: &str) -> (r: bool)
    ensures
        r == spec_is_ident(s@),
{
    let len = s.unicode_len();
    if len == 0 {
        return false;
    }
    let c0 = s.get_char(0);
    if !(('a' <= c0 && c0 <= 'z') || ('A' <= c0 && c0 <= 'Z') || c0 == '_') {
        return false;
    }
    let mut j: usize = 1;
    while j < len
        invariant
            1 <= j <= len,
            len == s@.len(),
            spec_is_ident_start(s@[0]),
            forall|k: int| 0 < k < j ==> spec_is_ident_char(#[trigger] s@[k]),
        decreases len - j,
    {
        let c = s.get_char(j);
        if !(('a' <= c && c <= 'z') || ('A' <= c && c <= 'Z') || c == '_' || ('0' <= c && c
            <= '9')) {
            return false;
        }
        j += 1;
    }
    true
}

/// Whether a name is declared in a list of field names.
fn name_in(names: &Vec<String>, s: &str) -> (r: bool)
    ensures
        r == spec_name_in(names.deep_view(), s@),
{
    let mut k: usize = 0;
    while k < names.len()
        invariant
            k <= names@.len(),
            forall|m: int| 0 <= m < k ==> names.deep_view()[m] != s@,
        decreases names@.len() - k,
    {
        if crate::tree::str_eq(names[k].as_str(), s) {
            proof {
                assert(names.deep_view()[k as int] == s@);
            }
            return true;
        }
        k += 1;
    }
    false
}

/// Resolve one placeholder against a field shape, as [`spec_make_arg`]
/// says.
fn make_arg(refstr: &String, fmt: &String, shape: &FieldShape, tspan: SrcSpan) -> (r: Result<
    Segment,
    TemplateError,
>)
    ensures
        (r matches Ok(seg) ==> spec_make_arg(refstr@, fmt@, shape.deep_view(), tspan) == Ok::<
            SegmentV,
            TemplateError,
        >(seg.deep_view())),
        (r matches Err(e) ==> spec_make_arg(refstr@, fmt@, shape.deep_view(), tspan) == Err::<
            SegmentV,
            TemplateError,
        >(e)),
{
    if refstr.as_str().unicode_len() == 0 {
        return Err(TemplateError { kind: TemplateErrorKind::EmptyPlaceholder, span: tspan });
    }
    if crate::resolve::is_digits(refstr.as_str()) {
        let count = field_count(shape);
        match digits_val_below(refstr.as_str(), count) {
            Some(v) => Ok(Segment::Arg { reference: ArgRef::Pos(v), format: fmt.clone() }),
            None => Err(TemplateError { kind: TemplateErrorKind::IndexOutOfRange, span: tspan }),
        }
    } else if is_ident(refstr.as_str()) {
        match shape {
            FieldShape::Named(names) => {
                if name_in(names, refstr.as_str()) {
                    Ok(
                        Segment::Arg {
                            reference: ArgRef::Name(refstr.clone()),
                            format: fmt.clone(),
                        },
                    )
                } else {
                    Err(TemplateError { kind: TemplateErrorKind::UnknownFieldName, span: tspan })
                }
            },
            _ => Err(TemplateError { kind: TemplateErrorKind::UnknownFieldName, span: tspan }),
        }
    } else {
        Err(TemplateError { kind: TemplateErrorKind::BadPlaceholder, span: tspan })
    }
}

/// Compile a template against a field shape: scan it into literal and
/// placeholder segments, treating doubled braces as literal text, and
/// validate every placeholder reference against the shape.  The first
/// malformed or unresolvable placeholder is the error.
#[verifier::loop_isolation(false)]
pub fn compile_template(text: &str, shape: &FieldShape, tspan: SrcSpan) -> (r: Result<
    Vec<Segment>,
    TemplateError,
>)
    ensures
        (r matches Ok(v) ==> spec_compile(text@, shape.deep_view(), tspan) == Ok::<
            Seq<SegmentV>,
            TemplateError,
        >(v.deep_view())),
        (r matches Err(e) ==> spec_compile(text@, shape.deep_view(), tspan) == Err::<
            Seq<SegmentV>,
            TemplateError,
        >(e)),
{
    let len = text.unicode_len();
    let ghost goal = spec_compile(text@, shape.deep_view(), tspan);
    let mut i: usize = 0;
    let mut mode = ScanMode::InLit;
    let mut lit = String::new();
    let mut refacc = String::new();
    let mut fmtacc = String::new();
    let mut segs: Vec<Segment> = Vec::new();
    proof {
        assert(segs.deep_view() =~= Seq::<SegmentV>::empty());
    }
    while i < len
        invariant
            i <= len,
            goal == spec_scan_from(
                text@,
                shape.deep_view(),
                tspan,
                i as int,
                mode,
                lit@,
                refacc@,
                fmtacc@,
                segs.deep_view(),
            ),
        decreases len - i,
    {
        let c = text.get_char(i);
        match mode {
            ScanMode::InLit => {
                if c == '{' && i + 1 < len && text.get_char(i + 1) == '{' {
                    push_char(&mut lit, '{');
                    i += 2;
                } else if c == '}' && i + 1 < len && text.get_char(i + 1) == '}' {
                    push_char(&mut lit, '}');
                    i += 2;
                } else if c == '{' {
                    refacc = String::new();
                    fmtacc = String::new();
                    mode = ScanMode::InRef;
                    i += 1;
                } else if c == '}' {
                    return Err(
                        TemplateError { kind: TemplateErrorKind::UnmatchedBrace, span: tspan },
                    );
                } else {
                    push_char(&mut lit, c);
                    i += 1;
                }
            },
            ScanMode::InRef => {
                if c == '}' {
                    let empty_fmt = String::new();
                    match make_arg(&refacc, &empty_fmt, shape, tspan) {
                        Ok(seg) => {
                            let ghost before = segs.deep_view();
                            let ghost litv = lit@;
                            if lit.as_str().unicode_len() > 0 {
                                segs.push(Segment::Lit(lit));
                                lit = String::new();
                            }
                            proof {
                                assert(segs.deep_view() =~= spec_flush(before, litv));
                            }
                            segs.push(seg);
                            proof {
                                assert(segs.deep_view() =~= spec_flush(before, litv).push(
                                    seg.deep_view(),
                                ));
                            }
                            refacc = String::new();
                            fmtacc = String::new();
                            mode = ScanMode::InLit;
                            proof {
                                assert(lit@ =~= Seq::<char>::empty());
                            }
                            i += 1;
                        },
                        Err(e) => {
                            return Err(e);
                        },
                    }
                } else if c == ':' {
                    mode = ScanMode::InFmt;
                    i += 1;
                } else {
                    push_char(&mut refacc, c);
                    i += 1;
                }
            },
            ScanMode::InFmt => {
                if c == '}' {
                    match make_arg(&refacc, &fmtacc, shape, tspan) {
                        Ok(seg) => {
                            let ghost before = segs.deep_view();
                            let ghost litv = lit@;
                            if lit.as_str().unicode_len() > 0 {
                                segs.push(Segment::Lit(lit));
                                lit = String::new();
                            }
                            proof {
                                assert(segs.deep_view() =~= spec_flush(before, litv));
                            }
                            segs.push(seg);
                            proof {
                                assert(segs.deep_view() =~= spec_flush(before, litv).push(
                                    seg.deep_view(),
                                ));
                            }
                            refacc = String::new();
                            fmtacc = String::new();
                            mode = ScanMode::InLit;
                            proof {
                                assert(lit@ =~= Seq::<char>::empty());
                            }
                            i += 1;
                        },
                        Err(e) => {
                            return Err(e);
                        },
                    }
                } else if c == '{' {
                    return Err(
                        TemplateError {
                            kind: TemplateErrorKind::UnclosedPlaceholder,
                            span: tspan,
                        },
                    );
                } else {
                    push_char(&mut fmtacc, c);
                    i += 1;
                }
            },
        }
    }
    match mode {
        ScanMode::InLit => {
            let ghost before = segs.deep_view();
            let ghost litv = lit@;
            if lit.as_str().unicode_len() > 0 {
                segs.push(Segment::Lit(lit));
            }
            proof {
                assert(segs.deep_view() =~= spec_flush(before, litv));
            }
            Ok(segs)
        },
        _ => Err(TemplateError { kind: TemplateErrorKind::UnclosedPlaceholder, span: tspan }),
    }
}

} // verus!
