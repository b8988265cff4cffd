use opam_file_rs::parse;
use opam_file_rs::value::{
    format_opam_file, EnvUpdateOp, EnvUpdateOpKind, LogOp, LogOpKind, OpamFile, OpamFileItem,
    OpamFileSection, PfxOp, PfxOpKind, RelOp, RelOpKind, Value, ValueKind,
};
use opam_file_rs::OpamFileError;

fn string(s: &str, pos: (usize, usize)) -> Value {
    Value { kind: ValueKind::String(s.to_string()), pos }
}

fn ident(s: &str, pos: (usize, usize)) -> Value {
    Value { kind: ValueKind::Ident(s.to_string()), pos }
}

fn only_value(input: &str) -> Value {
    let mut f = parse(input).unwrap();
    assert_eq!(f.file_contents.len(), 1);
    match f.file_contents.remove(0) {
        OpamFileItem::Variable(_, _, v) => v,
        other => panic!("not a variable: {:?}", other),
    }
}

#[test]
fn check_parse() {
    let opam_str = r#"
    opam-version: "2.0"
    depends: [
      "lalrpop-util" {>= "0.19.4"}
    ]
  "#;
    let opam_data = OpamFile {
        file_contents: vec![
            OpamFileItem::Variable(
                (5, 24),
                "opam-version".to_string(),
                Value {
                    kind: ValueKind::String("2.0".to_string()),
                    pos: (19, 24),
                },
            ),
            OpamFileItem::Variable(
                (29, 80),
                "depends".to_string(),
                Value {
                    kind: ValueKind::List(vec![Value {
                        kind: ValueKind::Option(
                            Box::new(Value {
                                kind: ValueKind::String("lalrpop-util".to_string()),
                                pos: (46, 60),
                            }),
                            vec![Value {
                                kind: ValueKind::PrefixRelOp(
                                    RelOp {
                                        kind: RelOpKind::Geq,
                                        pos: (62, 64),
                                    },
                                    Box::new(Value {
                                        kind: ValueKind::String("0.19.4".to_string()),
                                        pos: (65, 73),
                                    }),
                                ),
                                pos: (62, 73),
                            }],
                        ),
                        pos: (46, 74),
                    }]),
                    pos: (38, 80),
                },
            ),
        ],
    };
    assert_eq!(parse(opam_str).unwrap(), opam_data);
}

#[test]
fn filter_binds_tighter_than_comparison() {
    let v = only_value("x: \"x\" {>= \"1\"}");
    let want = Value {
        kind: ValueKind::Option(
            Box::new(string("x", (3, 6))),
            vec![Value {
                kind: ValueKind::PrefixRelOp(
                    RelOp { kind: RelOpKind::Geq, pos: (8, 10) },
                    Box::new(string("1", (11, 14))),
                ),
                pos: (8, 14),
            }],
        ),
        pos: (3, 15),
    };
    assert_eq!(v, want);
}

#[test]
fn end_to_end_depends() {
    let f = parse("opam-version: \"2.0\"\ndepends: [\n  \"foo\" {>= \"1.0\"}\n]\n").unwrap();
    assert_eq!(f.file_contents.len(), 2);
    match &f.file_contents[1] {
        OpamFileItem::Variable(_, key, v) => {
            assert_eq!(key, "depends");
            match &v.kind {
                ValueKind::List(l) => {
                    assert_eq!(l.len(), 1);
                    match &l[0].kind {
                        ValueKind::Option(base, filters) => {
                            assert_eq!(base.kind, ValueKind::String("foo".to_string()));
                            assert_eq!(filters.len(), 1);
                            match &filters[0].kind {
                                ValueKind::PrefixRelOp(op, arg) => {
                                    assert_eq!(op.kind, RelOpKind::Geq);
                                    assert_eq!(arg.kind, ValueKind::String("1.0".to_string()));
                                }
                                other => panic!("unexpected filter {:?}", other),
                            }
                        }
                        other => panic!("unexpected element {:?}", other),
                    }
                }
                other => panic!("unexpected value {:?}", other),
            }
        }
        other => panic!("unexpected item {:?}", other),
    }
}

#[test]
fn logical_operators_group_to_the_left() {
    let v = only_value("f: a & b | c");
    let and = Value {
        kind: ValueKind::LogOp(
            LogOp { kind: LogOpKind::And, pos: (5, 6) },
            Box::new(ident("a", (3, 4))),
            Box::new(ident("b", (7, 8))),
        ),
        pos: (3, 8),
    };
    let want = Value {
        kind: ValueKind::LogOp(
            LogOp { kind: LogOpKind::Or, pos: (9, 10) },
            Box::new(and),
            Box::new(ident("c", (11, 12))),
        ),
        pos: (3, 12),
    };
    assert_eq!(v, want);
}

#[test]
fn comparison_prefix_and_env_binding() {
    let v = only_value("f: !a = b");
    let want = Value {
        kind: ValueKind::RelOp(
            RelOp { kind: RelOpKind::Eq, pos: (6, 7) },
            Box::new(Value {
                kind: ValueKind::PfxOp(
                    PfxOp { kind: PfxOpKind::Not, pos: (3, 4) },
                    Box::new(ident("a", (4, 5))),
                ),
                pos: (3, 5),
            }),
            Box::new(ident("b", (8, 9))),
        ),
        pos: (3, 9),
    };
    assert_eq!(v, want);
    let e = only_value("e: [FOO += \"bar\"]");
    let want = Value {
        kind: ValueKind::List(vec![Value {
            kind: ValueKind::EnvBinding(
                Box::new(ident("FOO", (4, 7))),
                EnvUpdateOp { kind: EnvUpdateOpKind::PlusEq, pos: (8, 10) },
                Box::new(string("bar", (11, 16))),
            ),
            pos: (4, 16),
        }]),
        pos: (3, 17),
    };
    assert_eq!(e, want);
}

#[test]
fn sections_with_and_without_name() {
    let f = parse("build { x: 1 }\nurl \"u\" { src: (a b) }").unwrap();
    let want = OpamFile {
        file_contents: vec![
            OpamFileItem::Section(
                (0, 14),
                OpamFileSection {
                    section_kind: "build".to_string(),
                    section_name: None,
                    section_item: vec![OpamFileItem::Variable(
                        (8, 12),
                        "x".to_string(),
                        Value { kind: ValueKind::Int(1), pos: (11, 12) },
                    )],
                },
            ),
            OpamFileItem::Section(
                (15, 37),
                OpamFileSection {
                    section_kind: "url".to_string(),
                    section_name: Some("u".to_string()),
                    section_item: vec![OpamFileItem::Variable(
                        (25, 35),
                        "src".to_string(),
                        Value {
                            kind: ValueKind::Group(vec![ident("a", (31, 32)), ident("b", (33, 34))]),
                            pos: (30, 35),
                        },
                    )],
                },
            ),
        ],
    };
    assert_eq!(f, want);
}

#[test]
fn duplicate_keys_are_kept_in_order() {
    let f = parse("a: 1 a: 2").unwrap();
    assert_eq!(
        f.file_contents,
        vec![
            OpamFileItem::Variable((0, 4), "a".to_string(), Value { kind: ValueKind::Int(1), pos: (3, 4) }),
            OpamFileItem::Variable((5, 9), "a".to_string(), Value { kind: ValueKind::Int(2), pos: (8, 9) }),
        ]
    );
    assert_eq!(parse("").unwrap(), OpamFile { file_contents: vec![] });
}

#[test]
fn parse_errors() {
    assert_eq!(parse("x"), Err(OpamFileError::Parse));
    assert_eq!(parse("x: ]"), Err(OpamFileError::Parse));
    assert_eq!(parse("x: [a"), Err(OpamFileError::Parse));
    assert_eq!(parse("x: a = b = c"), Err(OpamFileError::Parse));
    assert_eq!(parse("x: a + b"), Err(OpamFileError::LexInvalidChar('+', 5, 6)));
    assert_eq!(parse("x: \"abc"), Err(OpamFileError::LexEof));
}

#[test]
fn format_values() {
    let f = parse("a: true\nb: -3\nc: [x (y) ]\nd: \"foo\" {>= \"1.0\"}\ne: !a & ?b | c != d\nf: X =+= \"p\"\n").unwrap();
    assert_eq!(
        format_opam_file(&f),
        "a : true\nb : -3\nc : [x (y ) ]\nd : >= \"1.0\"  {\"foo\"}\ne : ! a & ? b | c != d\nf : X =+= \"p\"\n"
    );
}

#[test]
fn format_sections_and_quoting() {
    let f = parse("build { x: false }\nurl \"u\" { src: \"a\\\"b\" }\nm: -9223372036854775808").unwrap();
    assert_eq!(
        format_opam_file(&f),
        "build  {x : false\n}\nurl u {src : \"a\\\"b\"\n}\nm : -9223372036854775808\n"
    );
    assert_eq!(format_opam_file(&OpamFile { file_contents: vec![] }), "");
}
