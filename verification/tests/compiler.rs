//! Tests for the taxonomy compiler: parsing, attribute inheritance,
//! template compilation and descriptor emission.

use error_enum::emit::{SpanRule, VariantDescriptor};
use error_enum::kind::Kind;
use error_enum::resolve::AttrErrorKind;
use error_enum::template::{render, ArgRef, NamedArg, Segment, TemplateErrorKind};
use error_enum::tree::FieldShape;
use error_enum::{compile_taxonomy, CompileError, CompiledTaxonomy};

fn compiled(src: &str) -> CompiledTaxonomy {
    compile_taxonomy(src).unwrap()
}

fn variant<'a>(out: &'a CompiledTaxonomy, name: &str) -> &'a VariantDescriptor {
    out.variants.iter().find(|v| v.ident == name).unwrap()
}

fn named(name: &str, value: &str) -> NamedArg {
    NamedArg { name: name.to_string(), value: value.to_string() }
}

fn strings(items: &[&str]) -> Vec<String> {
    items.iter().map(|s| s.to_string()).collect()
}

#[test]
fn tests_basic() {
    let out = compiled(
        r#"
        FileSystemError {
            #[kind = "Error"]
            #[msg = "错误"]
            {
                #[number = "01"]
                #[msg = "{path} not found."]
                FileNotFound {path: std::path::Path},
            },
        }
        "#,
    );
    assert_eq!(out.name, "FileSystemError");
    let mut listing = vec!["List of error variants:".to_string()];
    listing.extend(out.doc.iter().cloned());
    assert_eq!(
        listing,
        strings(&[
            "List of error variants:",
            "- `E`: 错误",
            "  - `E01`(**FileNotFound**): {path} not found.",
        ])
    );
    assert_eq!(out.variants.len(), 1);
    let v = variant(&out, "FileNotFound");
    assert_eq!(v.kind, Kind::Error);
    assert_eq!(v.number, "01");
    assert_eq!(v.code, "E01");
    assert_eq!(v.msg_text, "{path} not found.");
    assert_eq!(v.doc, "`E01`: {path} not found.");
    match &v.fields {
        FieldShape::Named(names) => assert_eq!(names, &strings(&["path"])),
        _ => panic!("expected named fields"),
    }
    // The label was never declared, so it inherits the message.
    assert_eq!(v.label_text, v.msg_text);
    let msg = render(&v.message, &Vec::new(), &vec![named("path", "/tmp/a")]);
    assert_eq!(msg, "/tmp/a not found.");
}

#[test]
fn tests_deep() {
    let out = compiled(
        r#"
        FileSystemError {
            #[kind = "Error"]
            {
                #[number = "0"]
                #[msg = "文件错误"]
                {
                    #[number = "0"]
                    #[msg = "无权限。"]
                    AccessDenied,
                },
            },
        }
        "#,
    );
    let mut listing = vec!["List of error variants:".to_string()];
    listing.extend(out.doc.iter().cloned());
    assert_eq!(
        listing,
        strings(&[
            "List of error variants:",
            "- `E`",
            "  - `E0`: 文件错误",
            "    - `E00`(**AccessDenied**): 无权限。",
        ])
    );
    let v = variant(&out, "AccessDenied");
    assert_eq!(v.number, "00");
    assert_eq!(v.code, "E00");
    assert_eq!(v.doc, "`E00`: 无权限。");
    assert_eq!(render(&v.message, &Vec::new(), &Vec::new()), "无权限。");
}

#[test]
fn tests_nested() {
    let out = compiled(
        r#"
        FileSystemError {
            #[kind = "Error"]
            #[msg = "错误"]
            {
                #[number = "01"]
                #[msg = "{0}"]
                #[nested]
                FileError (FileError),
            },
        }
        "#,
    );
    let mut listing = vec!["List of error variants:".to_string()];
    listing.extend(out.doc.iter().cloned());
    assert_eq!(
        listing,
        strings(&[
            "List of error variants:",
            "- `E`: 错误",
            "  - `E01`(**FileError**): {0}",
        ])
    );
    let v = variant(&out, "FileError");
    assert_eq!(v.code, "E01");
    assert_eq!(v.msg_text, "{0}");
    assert_eq!(v.doc, "`E01`: {0}");
    assert!(v.nested);
    // The message template defers entirely to the nested field's own
    // rendering: one placeholder, no literal text.
    assert_eq!(v.message.len(), 1);
    match &v.message[0] {
        Segment::Arg { reference: ArgRef::Pos(0), .. } => {},
        _ => panic!("expected a single positional placeholder"),
    }
    assert_eq!(render(&v.message, &strings(&["inner diagnostic"]), &Vec::new()), "inner diagnostic");
}

#[test]
fn escaped_braces_in_msg() {
    let out = compiled(
        r#"
        FileSystemError {
            #[kind = "Error"]
            #[msg = "错误"]
            {
                #[number = "01"]
                #[msg = "{{0}} not found."]
                FileNotFound (std::path::Path),
            },
        }
        "#,
    );
    let mut listing = vec!["List of error variants:".to_string()];
    listing.extend(out.doc.iter().cloned());
    assert_eq!(
        listing,
        strings(&[
            "List of error variants:",
            "- `E`: 错误",
            "  - `E01`(**FileNotFound**): {{0}} not found.",
        ])
    );
    let v = variant(&out, "FileNotFound");
    assert_eq!(v.code, "E01");
    assert_eq!(v.msg_text, "{{0}} not found.");
    assert_eq!(v.doc, "`E01`: {{0}} not found.");
    // Doubled braces never resolve to a placeholder: the rendered
    // message shows the literal text whatever the field values are.
    assert_eq!(render(&v.message, &strings(&["ignored"]), &Vec::new()), "{0} not found.");
    assert_eq!(render(&v.message, &strings(&["other"]), &Vec::new()), "{0} not found.");
}

#[test]
fn scenario_group_message_and_leaf_code() {
    let out = compiled(
        r#"
        Errors {
            #[kind = "Error"]
            #[msg = "errors"]
            {
                #[number = "01"]
                #[msg = "File {path} not found."]
                FileNotFound {path: String},
            },
        }
        "#,
    );
    let v = variant(&out, "FileNotFound");
    assert_eq!(v.code, "E01");
    assert_eq!(v.msg_text, "File {path} not found.");
    assert_eq!(render(&v.message, &Vec::new(), &vec![named("path", "a.txt")]), "File a.txt not found.");
}

#[test]
fn scenario_nested_groups_concatenate_numbers() {
    let out = compiled(
        r#"
        Errors {
            #[kind = "Error"]
            {
                #[number = "0"]
                #[msg = "file errors"]
                {
                    #[number = "0"]
                    #[msg = "access denied."]
                    AccessDenied,
                },
            },
        }
        "#,
    );
    let v = variant(&out, "AccessDenied");
    assert_eq!(v.code, "E00");
    assert_eq!(render(&v.message, &Vec::new(), &Vec::new()), "access denied.");
}

#[test]
fn inheritance_overrides_and_fallbacks() {
    let out = compiled(
        r#"
        Tax {
            #[kind = "Warn"]
            #[number = "9"]
            {
                #[number = "1"]
                {
                    #[number = "2"]
                    #[msg = "m"]
                    A,
                    #[kind = "Error"]
                    #[number = "3"]
                    #[msg = "n"]
                    #[label = "L"]
                    B,
                },
            },
        }
        "#,
    );
    let a = variant(&out, "A");
    // The numeric code concatenates every fragment from root to leaf.
    assert_eq!(a.number, "912");
    // The severity is the nearest ancestor-or-self declaration.
    assert_eq!(a.kind, Kind::Warn);
    assert_eq!(a.code, "W912");
    // An undeclared label falls back to the leaf's resolved message.
    assert_eq!(a.label_text, "m");
    let b = variant(&out, "B");
    assert_eq!(b.number, "913");
    assert_eq!(b.kind, Kind::Error);
    assert_eq!(b.code, "E913");
    assert_eq!(b.label_text, "L");
}

#[test]
fn severity_defaults_to_error() {
    let out = compiled(
        r#"
        Tax {
            #[number = "7"]
            #[msg = "m"]
            A,
        }
        "#,
    );
    let a = variant(&out, "A");
    assert_eq!(a.kind, Kind::Error);
    assert_eq!(a.code, "E7");
}

#[test]
fn missing_message_fails_missing_label_succeeds() {
    // A leaf with no resolved message anywhere on its path fails.
    let r = compile_taxonomy(
        r#"
        Tax {
            #[number = "1"]
            A,
        }
        "#,
    );
    match r {
        Err(CompileError::Emission(_)) => {},
        _ => panic!("expected an emission error"),
    }
    // A leaf with no resolved label succeeds.
    let out = compiled(
        r#"
        Tax {
            #[number = "1"]
            #[msg = "m"]
            A,
        }
        "#,
    );
    assert_eq!(variant(&out, "A").label_text, "m");
}

#[test]
fn span_marker_named_field() {
    let out = compiled(
        r#"
        Tax {
            #[number = "5"]
            #[msg = "All in {white}."]
            WhiteError {
                white: String,
                #[span]
                span: SimpleSpan,
            },
        }
        "#,
    );
    let v = variant(&out, "WhiteError");
    match &v.fields {
        FieldShape::Named(names) => assert_eq!(names, &strings(&["white", "span"])),
        _ => panic!("expected named fields"),
    }
    match &v.span_rule {
        SpanRule::FromField(error_enum::tree::FieldRef::Name(n)) => assert_eq!(n, "span"),
        _ => panic!("expected a span-carrying field"),
    }
}

#[test]
fn span_marker_positional_field() {
    let out = compiled(
        r#"
        Tax {
            #[number = "5"]
            #[msg = "{1}"]
            P (u8, #[span] SimpleSpan),
        }
        "#,
    );
    let v = variant(&out, "P");
    match &v.fields {
        FieldShape::Positional(n) => assert_eq!(*n, 2),
        _ => panic!("expected positional fields"),
    }
    match &v.span_rule {
        SpanRule::FromField(error_enum::tree::FieldRef::Index(i)) => assert_eq!(*i, 1),
        _ => panic!("expected a span-carrying field"),
    }
}

#[test]
fn no_span_marker_means_default_rule() {
    let out = compiled(
        r#"
        Tax {
            #[number = "5"]
            #[msg = "m"]
            A (u8),
        }
        "#,
    );
    match variant(&out, "A").span_rule {
        SpanRule::DefaultSpan => {},
        _ => panic!("expected the default span rule"),
    }
}

#[test]
fn duplicate_span_markers_are_a_parse_error() {
    let r = compile_taxonomy(
        r#"
        Tax {
            #[number = "5"]
            #[msg = "m"]
            A (#[span] u8, #[span] u8),
        }
        "#,
    );
    match r {
        Err(CompileError::Parse(_)) => {},
        _ => panic!("expected a parse error"),
    }
}

#[test]
fn unknown_attribute_key_is_rejected() {
    let r = compile_taxonomy(
        r#"
        Tax {
            #[color = "red"]
            #[msg = "m"]
            A,
        }
        "#,
    );
    match r {
        Err(CompileError::Attribute(e)) => assert_eq!(e.kind, AttrErrorKind::UnknownKey),
        _ => panic!("expected an attribute error"),
    }
}

#[test]
fn malformed_kind_literal_is_rejected() {
    let r = compile_taxonomy(
        r#"
        Tax {
            #[kind = "blite"]
            #[msg = "m"]
            A,
        }
        "#,
    );
    match r {
        Err(CompileError::Attribute(e)) => assert_eq!(e.kind, AttrErrorKind::BadKindLiteral),
        _ => panic!("expected an attribute error"),
    }
}

#[test]
fn malformed_number_fragment_is_rejected() {
    let r = compile_taxonomy(
        r#"
        Tax {
            #[number = "0a"]
            #[msg = "m"]
            A,
        }
        "#,
    );
    match r {
        Err(CompileError::Attribute(e)) => assert_eq!(e.kind, AttrErrorKind::BadNumberFragment),
        _ => panic!("expected an attribute error"),
    }
}

#[test]
fn nested_flag_with_value_is_rejected() {
    let r = compile_taxonomy(
        r#"
        Tax {
            #[nested = "true"]
            #[msg = "m"]
            A,
        }
        "#,
    );
    match r {
        Err(CompileError::Attribute(e)) => assert_eq!(e.kind, AttrErrorKind::UnexpectedValue),
        _ => panic!("expected an attribute error"),
    }
}

#[test]
fn positional_index_out_of_range_is_rejected() {
    let r = compile_taxonomy(
        r#"
        Tax {
            #[number = "1"]
            #[msg = "{2}"]
            A (u8, u8),
        }
        "#,
    );
    match r {
        Err(CompileError::Template(e)) => assert_eq!(e.kind, TemplateErrorKind::IndexOutOfRange),
        _ => panic!("expected a template error"),
    }
}

#[test]
fn unknown_field_name_is_rejected() {
    let r = compile_taxonomy(
        r#"
        Tax {
            #[number = "1"]
            #[msg = "{y}"]
            A {x: u8},
        }
        "#,
    );
    match r {
        Err(CompileError::Template(e)) => assert_eq!(e.kind, TemplateErrorKind::UnknownFieldName),
        _ => panic!("expected a template error"),
    }
}

#[test]
fn placeholder_on_unit_leaf_is_rejected() {
    let r = compile_taxonomy(
        r#"
        Tax {
            #[number = "1"]
            #[msg = "{0}"]
            A,
        }
        "#,
    );
    match r {
        Err(CompileError::Template(e)) => assert_eq!(e.kind, TemplateErrorKind::IndexOutOfRange),
        _ => panic!("expected a template error"),
    }
}

#[test]
fn unclosed_placeholder_is_rejected() {
    let r = compile_taxonomy(
        r#"
        Tax {
            #[number = "1"]
            #[msg = "{0"]
            A (u8),
        }
        "#,
    );
    match r {
        Err(CompileError::Template(e)) => {
            assert_eq!(e.kind, TemplateErrorKind::UnclosedPlaceholder)
        },
        _ => panic!("expected a template error"),
    }
}

#[test]
fn lone_closing_brace_is_rejected() {
    let r = compile_taxonomy(
        r#"
        Tax {
            #[number = "1"]
            #[msg = "a} b"]
            A (u8),
        }
        "#,
    );
    match r {
        Err(CompileError::Template(e)) => assert_eq!(e.kind, TemplateErrorKind::UnmatchedBrace),
        _ => panic!("expected a template error"),
    }
}

#[test]
fn malformed_source_is_a_parse_error() {
    match compile_taxonomy("Tax {") {
        Err(CompileError::Parse(_)) => {},
        _ => panic!("expected a parse error"),
    }
    match compile_taxonomy("{ A, }") {
        Err(CompileError::Parse(_)) => {},
        _ => panic!("expected a parse error"),
    }
}

#[test]
fn format_suffix_is_kept_verbatim() {
    let out = compiled(
        r#"
        Tax {
            #[number = "1"]
            #[msg = "{0:>8} end"]
            A (u8),
        }
        "#,
    );
    let v = variant(&out, "A");
    match &v.message[0] {
        Segment::Arg { reference: ArgRef::Pos(0), format } => assert_eq!(format, ">8"),
        _ => panic!("expected a positional placeholder"),
    }
}

#[test]
fn used_unnamed_fields_lists_occurrences_in_order() {
    let out = compiled(
        r#"
        Tax {
            #[number = "1"]
            #[msg = "{1} and {0} and {1}"]
            A (u8, u8),
        }
        "#,
    );
    let v = variant(&out, "A");
    assert_eq!(error_enum::template::used_unnamed_fields(&v.message), vec![1, 0, 1]);
}

#[test]
fn declaration_order_is_preserved() {
    let out = compiled(
        r#"
        Tax {
            #[kind = "Error"]
            {
                #[number = "2"]
                #[msg = "b"]
                B,
                #[number = "1"]
                #[msg = "a"]
                A,
                #[number = "3"]
                #[msg = "c"]
                C,
            },
        }
        "#,
    );
    let idents: Vec<&str> = out.variants.iter().map(|v| v.ident.as_str()).collect();
    assert_eq!(idents, vec!["B", "A", "C"]);
}

#[test]
fn empty_taxonomy_compiles() {
    let out = compiled("Tax {}");
    assert_eq!(out.name, "Tax");
    assert!(out.doc.is_empty());
    assert!(out.variants.is_empty());
}

#[test]
fn generics_are_skipped() {
    let out = compiled(
        r#"
        Wrapper<E> {
            #[number = "1"]
            #[msg = "{0}"]
            #[nested]
            Inner (E),
        }
        "#,
    );
    assert_eq!(out.name, "Wrapper");
    assert_eq!(variant(&out, "Inner").code, "E1");
}

#[test]
fn empty_group_contributes_only_a_doc_line() {
    let out = compiled(
        r#"
        Tax {
            #[kind = "Warn"]
            {},
        }
        "#,
    );
    assert_eq!(out.doc, strings(&["- `W`"]));
    assert!(out.variants.is_empty());
}

#[test]
fn whitespace_is_insignificant() {
    let compact = compiled(r#"Tax{#[number="1"]#[msg="m"]A,}"#);
    let spaced = compiled(
        "Tax {\n    #[ number = \"1\" ]\n    #[ msg = \"m\" ]\n    A ,\n}\n",
    );
    assert_eq!(variant(&compact, "A").code, variant(&spaced, "A").code);
    assert_eq!(variant(&compact, "A").msg_text, variant(&spaced, "A").msg_text);
}

#[test]
fn duplicate_codes_are_not_rejected() {
    // Code uniqueness is deliberately not enforced: two leaves may
    // compile to the same display code.
    let out = compiled(
        r#"
        Tax {
            #[number = "1"]
            #[msg = "a"]
            A,
            #[number = "1"]
            #[msg = "b"]
            B,
        }
        "#,
    );
    assert_eq!(variant(&out, "A").code, "E1");
    assert_eq!(variant(&out, "B").code, "E1");
}

#[test]
fn parsed_tree_accessors() {
    let tax = error_enum::parse::parse_taxonomy(
        r#"
        Tax {
            #[number = "1"]
            #[msg = "m"]
            A (u8, #[span] u8),
        }
        "#,
    )
    .unwrap();
    assert_eq!(tax.name, "Tax");
    assert_eq!(tax.roots.len(), 1);
    let node = &tax.roots[0];
    assert_eq!(node.ident().unwrap(), "A");
    assert_eq!(node.attrs().len(), 2);
    assert_eq!(node.attrs()[0].key, "number");
    assert_eq!(node.attrs()[0].value.as_deref(), Some("1"));
    match node.fields() {
        Some(FieldShape::Positional(n)) => assert_eq!(*n, 2),
        _ => panic!("expected positional fields"),
    }
    match node.span_ident() {
        Some(error_enum::tree::FieldRef::Index(i)) => assert_eq!(*i, 1),
        _ => panic!("expected a span marker on the second field"),
    }
    let sp = node.span();
    assert!(sp.start < sp.end);
}

#[test]
fn resolver_yields_one_config_per_node_in_preorder() {
    let tax = error_enum::parse::parse_taxonomy(
        r#"
        Tax {
            #[kind = "Warn"]
            {
                #[number = "4"]
                #[msg = "m"]
                A,
            },
        }
        "#,
    )
    .unwrap();
    let cfgs = error_enum::resolve::resolve_taxonomy(&tax).unwrap();
    assert_eq!(cfgs.len(), 2);
    // The group's configuration comes first and carries no identifier.
    assert!(cfgs[0].ident.is_none());
    assert_eq!(cfgs[0].depth, 2);
    assert_eq!(cfgs[0].kind, Some(Kind::Warn));
    // The leaf inherits the group's severity and sits one level deeper.
    assert_eq!(cfgs[1].ident.as_deref(), Some("A"));
    assert_eq!(cfgs[1].depth, 3);
    assert_eq!(cfgs[1].kind, Some(Kind::Warn));
    assert_eq!(cfgs[1].number, "4");
    assert!(!cfgs[1].nested);
}
