use yaga::annotation::{annotation_of_attrs, parse_annotation, Attr, ParseError, Token};
use yaga::compose::{compose, Value};
use yaga::leaf::{leaf_text_allowed, LeafKind, LeafValue};
use yaga::schema::{extract, FieldsShape, RawField, RawVariant, SchemaError, TypeDef, TypeSchema};
use yaga::script::{Reply, ScriptedPrompts};
use yaga::text::{check_float_text, parse_int_wide, str_eq};
use yaga::Dialogue;

fn s(x: &str) -> String {
    x.to_string()
}

fn dialogue_attr(tokens: Vec<Token>) -> Attr {
    Attr {
        name: s("dialogue"),
        tokens,
    }
}

fn pair(key: &str, value: &str) -> Vec<Token> {
    vec![
        Token::Ident(s(key)),
        Token::Assign,
        Token::Expr(s(value)),
    ]
}

fn prompt_attr(p: &str) -> Attr {
    dialogue_attr(pair("prompt", p))
}

fn named_field(name: &str, ty: TypeDef, attrs: Vec<Attr>) -> RawField {
    RawField {
        name: Some(s(name)),
        ty,
        attrs,
    }
}

fn payload_field(ty: TypeDef) -> RawField {
    RawField {
        name: None,
        ty,
        attrs: vec![],
    }
}

fn record_def(fields: Vec<RawField>) -> TypeDef {
    TypeDef::Struct {
        fields: FieldsShape::Named(fields),
    }
}

// ----- annotation parser -----

#[test]
fn annotation_single_pair() {
    let a = parse_annotation(&pair("prompt", "Your name")).unwrap();
    assert_eq!(a.prompt.as_deref(), Some("Your name"));
    assert!(a.name.is_none());
}

#[test]
fn annotation_last_occurrence_wins() {
    let mut toks = pair("prompt", "A");
    toks.push(Token::Comma);
    toks.extend(pair("prompt", "B"));
    let a = parse_annotation(&toks).unwrap();
    assert_eq!(a.prompt.as_deref(), Some("B"));
}

#[test]
fn annotation_unknown_keys_ignored() {
    let mut toks = pair("color", "red");
    toks.push(Token::Comma);
    toks.extend(pair("name", "Widget"));
    let a = parse_annotation(&toks).unwrap();
    assert!(a.prompt.is_none());
    assert_eq!(a.name.as_deref(), Some("Widget"));
}

#[test]
fn annotation_missing_assign() {
    let toks = vec![Token::Ident(s("prompt")), Token::Expr(s("A"))];
    assert_eq!(parse_annotation(&toks).unwrap_err(), ParseError::ExpectedAssign);
}

#[test]
fn annotation_missing_expr() {
    let toks = vec![Token::Ident(s("prompt")), Token::Assign];
    assert_eq!(parse_annotation(&toks).unwrap_err(), ParseError::ExpectedExpr);
}

#[test]
fn annotation_trailing_tokens() {
    let mut toks = pair("prompt", "A");
    toks.push(Token::Expr(s("junk")));
    assert_eq!(parse_annotation(&toks).unwrap_err(), ParseError::Trailing);
}

#[test]
fn annotation_trailing_comma_ok() {
    let mut toks = pair("prompt", "A");
    toks.push(Token::Comma);
    let a = parse_annotation(&toks).unwrap();
    assert_eq!(a.prompt.as_deref(), Some("A"));
}

#[test]
fn annotation_empty_body() {
    let a = parse_annotation(&vec![]).unwrap();
    assert!(a.prompt.is_none() && a.name.is_none());
}

#[test]
fn annotation_of_attrs_takes_first_dialogue() {
    let attrs = vec![
        Attr {
            name: s("derive"),
            tokens: vec![],
        },
        prompt_attr("first"),
        prompt_attr("second"),
    ];
    let a = annotation_of_attrs(&attrs).unwrap();
    assert_eq!(a.prompt.as_deref(), Some("first"));
}

#[test]
fn annotation_of_attrs_absent_is_empty() {
    let a = annotation_of_attrs(&vec![]).unwrap();
    assert!(a.prompt.is_none() && a.name.is_none());
}

// ----- text helpers -----

#[test]
fn int_parsing() {
    assert_eq!(parse_int_wide("42"), Some(42));
    assert_eq!(parse_int_wide("-7"), Some(-7));
    assert_eq!(parse_int_wide("007"), Some(7));
    assert_eq!(parse_int_wide("0"), Some(0));
    assert_eq!(parse_int_wide(""), None);
    assert_eq!(parse_int_wide("-"), None);
    assert_eq!(parse_int_wide("abc"), None);
    assert_eq!(parse_int_wide("+5"), Some(5));
    assert_eq!(parse_int_wide("+"), None);
    assert_eq!(parse_int_wide("12 3"), None);
    assert_eq!(parse_int_wide("18446744073709551615"), Some(u64::MAX as i128));
    assert_eq!(parse_int_wide("18446744073709551616"), None);
    assert_eq!(parse_int_wide("-9223372036854775808"), Some(i64::MIN as i128));
    assert_eq!(parse_int_wide("-9223372036854775809"), None);
}

#[test]
fn float_shapes() {
    assert!(check_float_text("3.14"));
    assert!(check_float_text("-2.5"));
    assert!(check_float_text("+2.5"));
    assert!(check_float_text("10"));
    assert!(check_float_text("3."));
    assert!(check_float_text(".5"));
    assert!(check_float_text("1e5"));
    assert!(check_float_text("1.25e-3"));
    assert!(check_float_text("2E+10"));
    assert!(check_float_text("-.5e2"));
    assert!(!check_float_text(""));
    assert!(!check_float_text("-"));
    assert!(!check_float_text("."));
    assert!(!check_float_text("1e"));
    assert!(!check_float_text("e5"));
    assert!(!check_float_text("1e+"));
    assert!(!check_float_text("1.2.3"));
    assert!(!check_float_text("x"));
    assert!(!check_float_text("three"));
}

#[test]
fn string_equality() {
    assert!(str_eq("", ""));
    assert!(str_eq("abc", "abc"));
    assert!(!str_eq("abc", "abd"));
    assert!(!str_eq("abc", "ab"));
}

#[test]
fn leaf_text_rules() {
    assert!(leaf_text_allowed(LeafKind::Text, "anything at all"));
    assert!(leaf_text_allowed(LeafKind::U8, "255"));
    assert!(!leaf_text_allowed(LeafKind::U8, "256"));
    assert!(!leaf_text_allowed(LeafKind::U8, "-1"));
    assert!(leaf_text_allowed(LeafKind::I8, "-128"));
    assert!(!leaf_text_allowed(LeafKind::I8, "-129"));
    assert!(leaf_text_allowed(LeafKind::U64, "18446744073709551615"));
    assert!(!leaf_text_allowed(LeafKind::U64, "18446744073709551616"));
    assert!(leaf_text_allowed(LeafKind::F32, "3.5"));
    assert!(!leaf_text_allowed(LeafKind::F32, "three"));
    assert!(!leaf_text_allowed(LeafKind::Bool, "true"));
}

// ----- schema extraction -----

#[test]
fn record_unnamed_member_is_shape_error() {
    let def = record_def(vec![named_field("a", leaf_text(), vec![prompt_attr("A")]), RawField {
        name: None,
        ty: leaf_text(),
        attrs: vec![prompt_attr("B")],
    }]);
    assert_eq!(extract(&def).unwrap_err(), SchemaError::UnnamedField);
}

fn leaf_text() -> TypeDef {
    TypeDef::Prim {
        kind: LeafKind::Text,
    }
}

#[test]
fn positional_struct_is_unsupported() {
    let def = TypeDef::Struct {
        fields: FieldsShape::Unnamed(vec![payload_field(leaf_text())]),
    };
    assert_eq!(extract(&def).unwrap_err(), SchemaError::UnsupportedShape);
}

#[test]
fn variant_with_two_payload_fields_is_shape_error() {
    let def = TypeDef::Enum {
        variants: vec![RawVariant {
            tag: s("Pair"),
            fields: FieldsShape::Unnamed(vec![payload_field(leaf_text()), payload_field(
                leaf_text(),
            )]),
            attrs: vec![prompt_attr("P")],
        }],
    };
    assert_eq!(extract(&def).unwrap_err(), SchemaError::MultiFieldVariant);
}

#[test]
fn variant_with_named_payload_is_unsupported() {
    let def = TypeDef::Enum {
        variants: vec![RawVariant {
            tag: s("Rec"),
            fields: FieldsShape::Named(vec![named_field("x", leaf_text(), vec![])]),
            attrs: vec![prompt_attr("P")],
        }],
    };
    assert_eq!(extract(&def).unwrap_err(), SchemaError::UnsupportedShape);
}

#[test]
fn payload_variant_without_prompt_fails_before_any_interaction() {
    let def = TypeDef::Enum {
        variants: vec![RawVariant {
            tag: s("Telegraf"),
            fields: FieldsShape::Unnamed(vec![payload_field(leaf_text())]),
            attrs: vec![],
        }],
    };
    let service = ScriptedPrompts::new(vec![Reply::Chosen(0), Reply::Text(s("x"))]);
    let r = extract(&def);
    assert_eq!(r.unwrap_err(), SchemaError::MissingPrompt);
    // schema processing failed, so no composition ran: no interaction occurred
    assert_eq!(service.calls_made(), 0);
}

#[test]
fn record_field_without_prompt_is_schema_error() {
    let def = record_def(vec![named_field("a", leaf_text(), vec![])]);
    assert_eq!(extract(&def).unwrap_err(), SchemaError::MissingPrompt);
}

#[test]
fn malformed_annotation_is_schema_error() {
    let def = record_def(vec![named_field("a", leaf_text(), vec![dialogue_attr(vec![
        Token::Ident(s("prompt")),
    ])])]);
    assert_eq!(
        extract(&def).unwrap_err(),
        SchemaError::BadAnnotation(ParseError::ExpectedAssign)
    );
}

#[test]
fn empty_enum_is_unsupported() {
    let def = TypeDef::Enum { variants: vec![] };
    assert_eq!(extract(&def).unwrap_err(), SchemaError::UnsupportedShape);
}

#[test]
fn variant_label_uses_name_override() {
    let def = TypeDef::Enum {
        variants: vec![RawVariant {
            tag: s("Esc"),
            fields: FieldsShape::Unit,
            attrs: vec![dialogue_attr({
                let mut t = pair("name", "Elasticsearch ingestion");
                t.push(Token::Comma);
                t.extend(pair("prompt", "unused"));
                t
            })],
        }],
    };
    match extract(&def).unwrap() {
        TypeSchema::Sum { variants } => {
            assert_eq!(variants.len(), 1);
            assert_eq!(variants[0].tag, "Esc");
            assert_eq!(variants[0].label, "Elasticsearch ingestion");
            assert!(variants[0].payload.is_none());
        }
        _ => panic!("expected a sum schema"),
    }
}

#[test]
fn duplicate_prompt_key_last_wins_in_schema() {
    let def = record_def(vec![named_field("a", leaf_text(), vec![dialogue_attr({
        let mut t = pair("prompt", "A");
        t.push(Token::Comma);
        t.extend(pair("prompt", "B"));
        t
    })])]);
    match extract(&def).unwrap() {
        TypeSchema::Record { fields } => {
            assert_eq!(fields[0].prompt, "B");
        }
        _ => panic!("expected a record schema"),
    }
}

// ----- composition -----

#[test]
fn boolean_leaf_composes_via_confirmation() {
    let schema = extract(&TypeDef::Prim {
        kind: LeafKind::Bool,
    })
    .unwrap();
    let mut sp = ScriptedPrompts::new(vec![Reply::Confirmed(true)]);
    match compose(&schema, "Enable?", &mut sp).unwrap() {
        Value::Leaf(LeafValue::Bool(b)) => assert!(b),
        _ => panic!("expected a boolean leaf"),
    }
    // a free-text reply does not answer a confirmation
    let mut sp2 = ScriptedPrompts::new(vec![Reply::Text(s("true"))]);
    assert!(compose(&schema, "Enable?", &mut sp2).is_err());
}

#[test]
fn integer_leaf_rejects_non_numeric_input() {
    let def = record_def(vec![named_field(
        "port",
        TypeDef::Prim {
            kind: LeafKind::I32,
        },
        vec![prompt_attr("Port")],
    )]);
    let schema = extract(&def).unwrap();
    let mut sp = ScriptedPrompts::new(vec![Reply::Text(s("abc"))]);
    let r = compose(&schema, "Server", &mut sp);
    assert!(r.is_err());
    // the header was shown and one input failed; nothing else ran
    assert_eq!(sp.calls_made(), 2);
}

#[test]
fn wrapper_composes_nested_record_first() {
    let config = record_def(vec![named_field(
        "host",
        leaf_text(),
        vec![prompt_attr("Host")],
    )]);
    let wrapper = record_def(vec![
        named_field("config", config, vec![prompt_attr("Configure the service")]),
        named_field("output_filename", leaf_text(), vec![prompt_attr("Output file")]),
    ]);
    let schema = extract(&wrapper).unwrap();
    let mut sp = ScriptedPrompts::new(vec![
        Reply::Text(s("localhost")),
        Reply::Text(s("out.txt")),
    ]);
    let v = compose(&schema, "Wrapper", &mut sp).unwrap();
    match v {
        Value::Record(fields) => {
            assert_eq!(fields.len(), 2);
            assert_eq!(fields[0].name, "config");
            match &fields[0].value {
                Value::Record(inner) => {
                    assert_eq!(inner.len(), 1);
                    assert_eq!(inner[0].name, "host");
                    match &inner[0].value {
                        Value::Leaf(LeafValue::Text(t)) => assert_eq!(t, "localhost"),
                        _ => panic!("expected text"),
                    }
                }
                _ => panic!("expected the nested record first"),
            }
            assert_eq!(fields[1].name, "output_filename");
            match &fields[1].value {
                Value::Leaf(LeafValue::Text(t)) => assert_eq!(t, "out.txt"),
                _ => panic!("expected text"),
            }
        }
        _ => panic!("expected a record"),
    }
    // two section headers (wrapper + config) and two inputs
    assert_eq!(sp.calls_made(), 4);
}

fn ingestion_def() -> TypeDef {
    let telegraf = record_def(vec![named_field(
        "flush",
        TypeDef::Prim {
            kind: LeafKind::Bool,
        },
        vec![prompt_attr("Flush on write?")],
    )]);
    let es = record_def(vec![named_field("url", leaf_text(), vec![prompt_attr("URL")])]);
    TypeDef::Enum {
        variants: vec![
            RawVariant {
                tag: s("Telegraf"),
                fields: FieldsShape::Unnamed(vec![payload_field(telegraf)]),
                attrs: vec![prompt_attr("Configure Telegraf ingestion")],
            },
            RawVariant {
                tag: s("Elasticsearch"),
                fields: FieldsShape::Unnamed(vec![payload_field(es)]),
                attrs: vec![prompt_attr("Configure Elasticsearch ingestion")],
            },
        ],
    }
}

#[test]
fn ingestion_menu_labels_derive_from_tags() {
    match extract(&ingestion_def()).unwrap() {
        TypeSchema::Sum { variants } => {
            assert_eq!(variants.len(), 2);
            assert_eq!(variants[0].label, "Telegraf");
            assert_eq!(variants[1].label, "Elasticsearch");
        }
        _ => panic!("expected a sum schema"),
    }
}

#[test]
fn ingestion_choosing_index_one_composes_elasticsearch() {
    let schema = extract(&ingestion_def()).unwrap();
    let mut sp = ScriptedPrompts::new(vec![
        Reply::Chosen(1),
        Reply::Text(s("http://localhost:9200")),
    ]);
    match compose(&schema, "Pick an ingestion", &mut sp).unwrap() {
        Value::Variant { tag, index, payload } => {
            assert_eq!(tag, "Elasticsearch");
            assert_eq!(index, 1);
            match payload.as_deref() {
                Some(Value::Record(fields)) => {
                    assert_eq!(fields[0].name, "url");
                    match &fields[0].value {
                        Value::Leaf(LeafValue::Text(t)) => {
                            assert_eq!(t, "http://localhost:9200")
                        }
                        _ => panic!("expected text"),
                    }
                }
                _ => panic!("expected a record payload"),
            }
        }
        _ => panic!("expected a variant"),
    }
}

#[test]
fn ingestion_choosing_index_zero_composes_telegraf() {
    let schema = extract(&ingestion_def()).unwrap();
    let mut sp = ScriptedPrompts::new(vec![Reply::Chosen(0), Reply::Confirmed(false)]);
    match compose(&schema, "Pick an ingestion", &mut sp).unwrap() {
        Value::Variant { tag, index, payload } => {
            assert_eq!(tag, "Telegraf");
            assert_eq!(index, 0);
            assert!(payload.is_some());
        }
        _ => panic!("expected a variant"),
    }
}

#[test]
fn unit_variant_needs_no_payload_composition() {
    let def = TypeDef::Enum {
        variants: vec![RawVariant {
            tag: s("Defaults"),
            fields: FieldsShape::Unit,
            attrs: vec![],
        }],
    };
    let schema = extract(&def).unwrap();
    let mut sp = ScriptedPrompts::new(vec![Reply::Chosen(0)]);
    match compose(&schema, "Mode", &mut sp).unwrap() {
        Value::Variant { tag, index, payload } => {
            assert_eq!(tag, "Defaults");
            assert_eq!(index, 0);
            assert!(payload.is_none());
        }
        _ => panic!("expected a variant"),
    }
    assert_eq!(sp.calls_made(), 1);
}

#[test]
fn out_of_range_choice_fails_the_selection() {
    let schema = extract(&ingestion_def()).unwrap();
    let mut sp = ScriptedPrompts::new(vec![Reply::Chosen(5)]);
    assert!(compose(&schema, "Pick", &mut sp).is_err());
}

#[test]
fn exhausted_script_fails_composition() {
    let schema = extract(&ingestion_def()).unwrap();
    let mut sp = ScriptedPrompts::new(vec![]);
    assert!(compose(&schema, "Pick", &mut sp).is_err());
}

#[test]
fn empty_record_composes_with_header_only() {
    let schema = extract(&record_def(vec![])).unwrap();
    let mut sp = ScriptedPrompts::new(vec![]);
    match compose(&schema, "Nothing to ask", &mut sp).unwrap() {
        Value::Record(fields) => assert!(fields.is_empty()),
        _ => panic!("expected a record"),
    }
    assert_eq!(sp.calls_made(), 1);
}

// ----- the Dialogue capability for plain leaf types -----

#[test]
fn failure_message_reaches_top_unchanged() {
    // the inner leaf's failing call produced this service error; it must
    // come out of the outermost composer identical
    let config = record_def(vec![named_field(
        "host",
        leaf_text(),
        vec![prompt_attr("Host")],
    )]);
    let wrapper = record_def(vec![
        named_field("config", config, vec![prompt_attr("Configure the service")]),
        named_field("output_filename", leaf_text(), vec![prompt_attr("Output file")]),
    ]);
    let schema = extract(&wrapper).unwrap();
    let mut sp = ScriptedPrompts::new(vec![Reply::Refused]);
    let e = compose(&schema, "Wrapper", &mut sp).unwrap_err();
    assert_eq!(e.message, "the script has no fitting reply");
    // the failing call ended the session: two headers, one failed input
    assert_eq!(sp.calls_made(), 3);
}

#[test]
fn sum_payload_failure_reaches_top_unchanged() {
    let schema = extract(&ingestion_def()).unwrap();
    let mut sp = ScriptedPrompts::new(vec![Reply::Chosen(1), Reply::Refused]);
    let e = compose(&schema, "Pick an ingestion", &mut sp).unwrap_err();
    assert_eq!(e.message, "the script has no fitting reply");
}

#[test]
fn bool_dialogue_uses_confirmation() {
    let mut sp = ScriptedPrompts::new(vec![Reply::Confirmed(true)]);
    let b = <bool as Dialogue<ScriptedPrompts>>::compose("Ready?", &mut sp).unwrap();
    assert!(b);
}

#[test]
fn string_dialogue_takes_text_verbatim() {
    let mut sp = ScriptedPrompts::new(vec![Reply::Text(s("hello world"))]);
    let t = <String as Dialogue<ScriptedPrompts>>::compose("Say something", &mut sp).unwrap();
    assert_eq!(t, "hello world");
}

#[test]
fn integer_dialogue_parses_in_range() {
    let mut sp = ScriptedPrompts::new(vec![Reply::Text(s("200"))]);
    let n = <u8 as Dialogue<ScriptedPrompts>>::compose("Count?", &mut sp).unwrap();
    assert_eq!(n, 200);
    let mut sp2 = ScriptedPrompts::new(vec![Reply::Text(s("300"))]);
    assert!(<u8 as Dialogue<ScriptedPrompts>>::compose("Count?", &mut sp2).is_err());
}

#[test]
fn isize_dialogue_accepts_negative() {
    let mut sp = ScriptedPrompts::new(vec![Reply::Text(s("-42"))]);
    let n = <isize as Dialogue<ScriptedPrompts>>::compose("Offset?", &mut sp).unwrap();
    assert_eq!(n, -42);
}

#[test]
fn float_leaf_keeps_accepted_text() {
    let schema = extract(&TypeDef::Prim {
        kind: LeafKind::F64,
    })
    .unwrap();
    let mut sp = ScriptedPrompts::new(vec![Reply::Text(s("3.25"))]);
    match compose(&schema, "Ratio", &mut sp).unwrap() {
        Value::Leaf(LeafValue::Float(t)) => {
            assert_eq!(t, "3.25");
            assert_eq!(t.parse::<f64>().unwrap(), 3.25);
        }
        _ => panic!("expected a float leaf"),
    }
    let mut sp2 = ScriptedPrompts::new(vec![Reply::Text(s("not a number"))]);
    assert!(compose(&schema, "Ratio", &mut sp2).is_err());
}
