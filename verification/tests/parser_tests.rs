use wat_parser::wat::{
    WatFloat, WatImport, WatInstructionArg, WatParser, WatParserState, WatSign, WatValType,
};

/// Runs the parser to its end or to an error and renders each event.
fn events(source: &[u8]) -> Vec<String> {
    assert!(source.len() < usize::MAX);
    let mut parser = WatParser::new(source);
    let mut out = Vec::new();
    loop {
        let state = parser.parse();
        out.push(format!("{:?}", state));
        if matches!(state, WatParserState::End | WatParserState::Error(_)) {
            return out;
        }
    }
}

fn last_error(source: &[u8]) -> (&'static str, usize, usize) {
    let mut parser = WatParser::new(source);
    loop {
        match parser.parse() {
            WatParserState::Error(e) => return (e.message, e.line, e.column),
            WatParserState::End => panic!("no error"),
            _ => {}
        }
    }
}

#[test]
fn empty_module() {
    let mut parser = WatParser::new(b"(module)");
    assert!(matches!(parser.parse(), WatParserState::StartModule { id: None }));
    assert!(matches!(parser.parse(), WatParserState::EndModule));
    assert!(matches!(parser.parse(), WatParserState::End));
}

#[test]
fn module_with_id() {
    let mut parser = WatParser::new(b"(module $m)");
    match parser.parse() {
        WatParserState::StartModule { id: Some(id) } => assert_eq!(id.as_slice(), b"$m"),
        other => panic!("{:?}", other),
    }
    assert!(matches!(parser.parse(), WatParserState::EndModule));
    assert!(matches!(parser.parse(), WatParserState::End));
}

#[test]
fn memory_import() {
    let mut parser = WatParser::new(b"(module (import \"env\" \"mem\" (memory 1 2)))");
    assert!(matches!(parser.parse(), WatParserState::StartModule { id: None }));
    match parser.parse() {
        WatParserState::Import { modname, fieldname, import: WatImport::Memory { id, memtype } } => {
            assert_eq!(modname, "env");
            assert_eq!(fieldname, "mem");
            assert!(id.is_none());
            assert_eq!(memtype.limits.min, 1);
            assert_eq!(memtype.limits.max, Some(2));
            assert!(!memtype.shared);
        }
        other => panic!("{:?}", other),
    }
    assert!(matches!(parser.parse(), WatParserState::EndModule));
    assert!(matches!(parser.parse(), WatParserState::End));
}

#[test]
fn shared_memory_import() {
    let mut parser = WatParser::new(b"(module (import \"e\" \"m\" (memory (shared 1 1))))");
    parser.parse();
    match parser.parse() {
        WatParserState::Import { import: WatImport::Memory { memtype, .. }, .. } => {
            assert!(memtype.shared);
            assert_eq!(memtype.limits.min, 1);
            assert_eq!(memtype.limits.max, Some(1));
        }
        other => panic!("{:?}", other),
    }
    assert!(matches!(parser.parse(), WatParserState::EndModule));
    assert!(matches!(parser.parse(), WatParserState::End));
}

#[test]
fn func_with_param_and_result() {
    let mut parser =
        WatParser::new(b"(module (func $f (param $x i32) (result i32) local.get $x))");
    assert!(matches!(parser.parse(), WatParserState::StartModule { id: None }));
    match parser.parse() {
        WatParserState::StartFunc { id, export_name, typeuse, locals } => {
            assert_eq!(id.as_deref(), Some(&b"$f"[..]));
            assert!(export_name.is_none());
            assert!(typeuse.id.is_none());
            assert_eq!(typeuse.params.len(), 1);
            assert_eq!(typeuse.params[0].id.as_deref(), Some(&b"$x"[..]));
            assert!(matches!(typeuse.params[0].valtype, WatValType::I32));
            assert_eq!(typeuse.results.len(), 1);
            assert!(matches!(typeuse.results[0].valtype, WatValType::I32));
            assert!(locals.is_empty());
        }
        other => panic!("{:?}", other),
    }
    match parser.parse() {
        WatParserState::CodeOperator { instruction, args, group, position } => {
            assert_eq!(instruction.as_slice(), b"local.get");
            assert_eq!(args.len(), 1);
            match &args[0] {
                WatInstructionArg::ID(id) => assert_eq!(id.as_slice(), b"$x"),
                other => panic!("{:?}", other),
            }
            assert!(!*group);
            assert_eq!(position.position, 45);
            assert_eq!(position.line, 1);
            assert_eq!(position.column, 45);
        }
        other => panic!("{:?}", other),
    }
    assert!(matches!(parser.parse(), WatParserState::EndFunc));
    assert!(matches!(parser.parse(), WatParserState::EndModule));
    assert!(matches!(parser.parse(), WatParserState::End));
}

#[test]
fn folded_instructions() {
    let got = events(b"(module (func (i32.add (i32.const 1) (i32.const 2))))");
    let kinds: Vec<&str> = got.iter().map(|e| e.split(|c| c == ' ' || c == '(').next().unwrap()).collect();
    assert_eq!(
        kinds,
        vec![
            "StartModule",
            "StartFunc",
            "CodeOperator",
            "CodeOperator",
            "CodeOperatorEnd",
            "CodeOperator",
            "CodeOperatorEnd",
            "CodeOperatorEnd",
            "EndFunc",
            "EndModule",
            "End"
        ]
    );
    let mut parser = WatParser::new(b"(module (func (i32.add (i32.const 1) (i32.const 2))))");
    parser.parse();
    parser.parse();
    match parser.parse() {
        WatParserState::CodeOperator { instruction, args, group, .. } => {
            assert_eq!(instruction.as_slice(), b"i32.add");
            assert!(args.is_empty());
            assert!(*group);
        }
        other => panic!("{:?}", other),
    }
    match parser.parse() {
        WatParserState::CodeOperator { instruction, args, group, .. } => {
            assert_eq!(instruction.as_slice(), b"i32.const");
            assert!(matches!(&args[..], [WatInstructionArg::Unsigned(d)] if d.as_slice() == [1]));
            assert!(*group);
        }
        other => panic!("{:?}", other),
    }
    assert!(matches!(parser.parse(), WatParserState::CodeOperatorEnd));
    match parser.parse() {
        WatParserState::CodeOperator { instruction, args, group, .. } => {
            assert_eq!(instruction.as_slice(), b"i32.const");
            assert!(matches!(&args[..], [WatInstructionArg::Unsigned(d)] if d.as_slice() == [2]));
            assert!(*group);
        }
        other => panic!("{:?}", other),
    }
}

#[test]
fn unfinished_module_is_an_error() {
    let mut parser = WatParser::new(b"(module");
    assert!(matches!(parser.parse(), WatParserState::StartModule { id: None }));
    match parser.parse() {
        WatParserState::Error(e) => {
            assert_eq!(e.message, "( is expected");
            assert_eq!(e.line, 1);
            assert_eq!(e.column, 7);
        }
        other => panic!("{:?}", other),
    }
}

#[test]
fn lexer_error_becomes_parser_error() {
    assert_eq!(last_error(b"(module \"abc"), ("Unexpected eos", 1, 12));
    assert_eq!(last_error(b"(module\n (; x"), ("Incomplete block comment", 2, 5));
}

#[test]
fn float_arguments() {
    let mut parser = WatParser::new(b"(module (func f32.const -inf f32.const nan:0x7f f64.const 1.5))");
    parser.parse();
    parser.parse();
    match parser.parse() {
        WatParserState::CodeOperator { args, .. } => {
            assert!(matches!(&args[..], [WatInstructionArg::Float(WatFloat::Inf(WatSign::Negative))]));
        }
        other => panic!("{:?}", other),
    }
    match parser.parse() {
        WatParserState::CodeOperator { args, .. } => match &args[..] {
            [WatInstructionArg::Float(WatFloat::NaN(WatSign::Positive, Some(payload)))] => {
                assert_eq!(payload.as_slice(), [0x7f]);
            }
            other => panic!("{:?}", other),
        },
        other => panic!("{:?}", other),
    }
    match parser.parse() {
        WatParserState::CodeOperator { args, .. } => match &args[..] {
            [WatInstructionArg::Float(WatFloat::Number(WatSign::Positive, mantissa, 0))] => {
                assert!(mantissa.is_empty());
            }
            other => panic!("{:?}", other),
        },
        other => panic!("{:?}", other),
    }
}

/// The names of the events of a whole parse.
fn event_names(source: &[u8]) -> Vec<String> {
    events(source)
        .iter()
        .map(|e| e.split(|c| c == ' ' || c == '(').next().unwrap().to_string())
        .collect()
}

#[test]
fn new_parser_is_in_the_initial_state() {
    let parser = WatParser::new(b"(module)");
    drop(parser);
    assert_eq!(event_names(b"(module)"), ["StartModule", "EndModule", "End"]);
    assert_eq!(event_names(b" ;; c\n(module (; x ;) ) \n"), ["StartModule", "EndModule", "End"]);
}

#[test]
fn func_without_anything() {
    let mut parser = WatParser::new(b"(module (func))");
    parser.parse();
    match parser.parse() {
        WatParserState::StartFunc { id, export_name, typeuse, locals } => {
            assert!(id.is_none());
            assert!(export_name.is_none());
            assert!(typeuse.id.is_none() && typeuse.params.is_empty() && typeuse.results.is_empty());
            assert!(locals.is_empty());
        }
        other => panic!("{:?}", other),
    }
    assert!(matches!(parser.parse(), WatParserState::EndFunc));
    assert!(matches!(parser.parse(), WatParserState::EndModule));
    assert!(matches!(parser.parse(), WatParserState::End));
}

#[test]
fn func_with_type_params_results_and_locals() {
    let source = b"(module (func $f (type $t) (param i32 i64) (param $p f32)
        (result f64 i32) (result i64) (local $l i32) (local f32 f64) nop))";
    let mut parser = WatParser::new(source);
    parser.parse();
    match parser.parse() {
        WatParserState::StartFunc { id, export_name, typeuse, locals } => {
            assert_eq!(id.as_deref(), Some(&b"$f"[..]));
            assert!(export_name.is_none());
            assert_eq!(typeuse.id.as_deref(), Some(&b"$t"[..]));
            let params: Vec<String> = typeuse
                .params
                .iter()
                .map(|p| format!("{:?}:{:?}", p.id.as_ref().map(|i| String::from_utf8_lossy(i).to_string()), p.valtype))
                .collect();
            assert_eq!(params, ["None:I32", "None:I64", "Some(\"$p\"):F32"]);
            let results: Vec<String> =
                typeuse.results.iter().map(|r| format!("{:?}", r.valtype)).collect();
            assert_eq!(results, ["F64", "I32", "I64"]);
            let locals: Vec<String> = locals
                .iter()
                .map(|l| format!("{:?}:{:?}", l.id.as_ref().map(|i| String::from_utf8_lossy(i).to_string()), l.valtype))
                .collect();
            assert_eq!(locals, ["Some(\"$l\"):I32", "None:F32", "None:F64"]);
        }
        other => panic!("{:?}", other),
    }
    match parser.parse() {
        WatParserState::CodeOperator { instruction, args, group, position } => {
            assert_eq!(instruction.as_slice(), b"nop");
            assert!(args.is_empty());
            assert!(!*group);
            assert_eq!((position.line, position.column), (2, 69));
        }
        other => panic!("{:?}", other),
    }
    assert!(matches!(parser.parse(), WatParserState::EndFunc));
}

#[test]
fn empty_param_group_is_an_error() {
    assert_eq!(last_error(b"(module (func (param)))").0, "a keyword is expected");
    assert_eq!(last_error(b"(module (func (result)))").0, "a keyword is expected");
    assert_eq!(last_error(b"(module (func (local)))").0, "a keyword is expected");
}

#[test]
fn named_param_takes_one_type() {
    assert_eq!(last_error(b"(module (func (param $a i32 i32)))"), (") is expected", 1, 28));
    assert_eq!(last_error(b"(module (func (local $a i32 i32)))"), (") is expected", 1, 28));
}

#[test]
fn folded_instruction_after_signature_is_returned_to_the_body() {
    let names = event_names(b"(module (func (param i32) (result i32) (local i32) (nop) nop))");
    assert_eq!(
        names,
        [
            "StartModule",
            "StartFunc",
            "CodeOperator",
            "CodeOperatorEnd",
            "CodeOperator",
            "EndFunc",
            "EndModule",
            "End"
        ]
    );
    let names = event_names(b"(module (func (param i32) (nop)))");
    assert_eq!(
        names,
        ["StartModule", "StartFunc", "CodeOperator", "CodeOperatorEnd", "EndFunc", "EndModule", "End"]
    );
    let names = event_names(b"(module (func (nop)) (func (type $t) (nop)))");
    assert_eq!(
        names,
        [
            "StartModule",
            "StartFunc",
            "CodeOperator",
            "CodeOperatorEnd",
            "EndFunc",
            "StartFunc",
            "CodeOperator",
            "CodeOperatorEnd",
            "EndFunc",
            "EndModule",
            "End"
        ]
    );
}

#[test]
fn group_position_is_that_of_the_keyword() {
    let mut parser = WatParser::new(b"(module (func ( nop)))");
    parser.parse();
    parser.parse();
    match parser.parse() {
        WatParserState::CodeOperator { group, position, .. } => {
            assert!(*group);
            assert_eq!(position.position, 16);
        }
        other => panic!("{:?}", other),
    }
}

#[test]
fn exported_func() {
    let mut parser = WatParser::new(b"(module (func $f (export \"run\") (param i32) nop))");
    parser.parse();
    match parser.parse() {
        WatParserState::StartFunc { id, export_name, typeuse, locals } => {
            assert_eq!(id.as_deref(), Some(&b"$f"[..]));
            assert_eq!(export_name.as_deref(), Some("run"));
            assert_eq!(typeuse.params.len(), 1);
            assert!(locals.is_empty());
        }
        other => panic!("{:?}", other),
    }
    assert!(matches!(parser.parse(), WatParserState::CodeOperator { .. }));
    assert!(matches!(parser.parse(), WatParserState::EndFunc));
}

#[test]
fn exported_func_without_signature_has_a_body() {
    let mut parser = WatParser::new(b"(module (func (export \"e\")) (func (export \"g\") nop))");
    parser.parse();
    match parser.parse() {
        WatParserState::StartFunc { id, export_name, typeuse, locals } => {
            assert!(id.is_none());
            assert_eq!(export_name.as_deref(), Some("e"));
            assert!(typeuse.params.is_empty() && typeuse.results.is_empty());
            assert!(locals.is_empty());
        }
        other => panic!("{:?}", other),
    }
    assert!(matches!(parser.parse(), WatParserState::EndFunc));
    assert!(matches!(parser.parse(), WatParserState::StartFunc { .. }));
    assert!(matches!(parser.parse(), WatParserState::CodeOperator { .. }));
    assert!(matches!(parser.parse(), WatParserState::EndFunc));
    assert!(matches!(parser.parse(), WatParserState::EndModule));
    assert!(matches!(parser.parse(), WatParserState::End));
}

#[test]
fn inline_func_import() {
    let mut parser = WatParser::new(
        b"(module (func $f (import \"m\" \"f\") (param i32) (result i64)) (func $g (import \"m\" \"g\")))",
    );
    parser.parse();
    match parser.parse() {
        WatParserState::Import { modname, fieldname, import: WatImport::Func { id, typeuse } } => {
            assert_eq!(modname, "m");
            assert_eq!(fieldname, "f");
            assert_eq!(id.as_deref(), Some(&b"$f"[..]));
            assert_eq!(typeuse.params.len(), 1);
            assert!(matches!(typeuse.params[0].valtype, WatValType::I32));
            assert_eq!(typeuse.results.len(), 1);
            assert!(matches!(typeuse.results[0].valtype, WatValType::I64));
        }
        other => panic!("{:?}", other),
    }
    match parser.parse() {
        WatParserState::Import { fieldname, import: WatImport::Func { id, typeuse }, .. } => {
            assert_eq!(fieldname, "g");
            assert_eq!(id.as_deref(), Some(&b"$g"[..]));
            assert!(typeuse.params.is_empty() && typeuse.results.is_empty());
        }
        other => panic!("{:?}", other),
    }
    assert!(matches!(parser.parse(), WatParserState::EndModule));
    assert!(matches!(parser.parse(), WatParserState::End));
}

#[test]
fn memory_import_with_id_and_without_maximum() {
    let mut parser = WatParser::new(b"(module (import \"a\" \"b\" (memory $m 0x10)))");
    parser.parse();
    match parser.parse() {
        WatParserState::Import { import: WatImport::Memory { id, memtype }, .. } => {
            assert_eq!(id.as_deref(), Some(&b"$m"[..]));
            assert_eq!(memtype.limits.min, 16);
            assert_eq!(memtype.limits.max, None);
            assert!(!memtype.shared);
        }
        other => panic!("{:?}", other),
    }
}

#[test]
fn names_are_unescaped() {
    let mut parser = WatParser::new(b"(module (import \"\\u{48}\\u{69}\" \"a\\tb\" (memory 1)))");
    parser.parse();
    match parser.parse() {
        WatParserState::Import { modname, fieldname, .. } => {
            assert_eq!(modname.as_bytes(), [0x48, 0x69]);
            assert_eq!(fieldname, "a\tb");
        }
        other => panic!("{:?}", other),
    }
}

#[test]
fn instruction_arguments() {
    let mut parser = WatParser::new(
        b"(module (func i32.load offset=8 flags=0x2 i32.const -5 i64.const +0x1_00 br $l 7 nop))",
    );
    parser.parse();
    parser.parse();
    match parser.parse() {
        WatParserState::CodeOperator { instruction, args, .. } => {
            assert_eq!(instruction.as_slice(), b"i32.load");
            match &args[..] {
                [WatInstructionArg::Flags(k1, 8), WatInstructionArg::Flags(k2, 2)] => {
                    assert_eq!(k1.as_slice(), b"offset=8");
                    assert_eq!(k2.as_slice(), b"flags=0x2");
                }
                other => panic!("{:?}", other),
            }
        }
        other => panic!("{:?}", other),
    }
    match parser.parse() {
        WatParserState::CodeOperator { args, .. } => match &args[..] {
            [WatInstructionArg::Signed(WatSign::Negative, data)] => assert_eq!(data.as_slice(), [5]),
            other => panic!("{:?}", other),
        },
        other => panic!("{:?}", other),
    }
    match parser.parse() {
        WatParserState::CodeOperator { args, .. } => match &args[..] {
            [WatInstructionArg::Signed(WatSign::Positive, data)] => {
                assert_eq!(data.as_slice(), [0, 1])
            }
            other => panic!("{:?}", other),
        },
        other => panic!("{:?}", other),
    }
    match parser.parse() {
        WatParserState::CodeOperator { instruction, args, .. } => {
            assert_eq!(instruction.as_slice(), b"br");
            match &args[..] {
                [WatInstructionArg::ID(id), WatInstructionArg::Unsigned(data)] => {
                    assert_eq!(id.as_slice(), b"$l");
                    assert_eq!(data.as_slice(), [7]);
                }
                other => panic!("{:?}", other),
            }
        }
        other => panic!("{:?}", other),
    }
    assert!(matches!(parser.parse(), WatParserState::CodeOperator { .. }));
    assert!(matches!(parser.parse(), WatParserState::EndFunc));
}

#[test]
fn keyword_that_is_no_flag_begins_the_next_instruction() {
    let names = event_names(b"(module (func a offset= b flags= c offset=1))");
    assert_eq!(
        names,
        [
            "StartModule",
            "StartFunc",
            "CodeOperator",
            "CodeOperator",
            "CodeOperator",
            "CodeOperator",
            "CodeOperator",
            "EndFunc",
            "EndModule",
            "End"
        ]
    );
}

#[test]
fn nesting_depth_is_counted() {
    let names = event_names(b"(module (func (a (b (c)) d) e))");
    assert_eq!(
        names,
        [
            "StartModule",
            "StartFunc",
            "CodeOperator",
            "CodeOperator",
            "CodeOperator",
            "CodeOperatorEnd",
            "CodeOperatorEnd",
            "CodeOperator",
            "CodeOperatorEnd",
            "CodeOperator",
            "EndFunc",
            "EndModule",
            "End"
        ]
    );
}

#[test]
fn body_running_into_the_end_of_the_source() {
    assert_eq!(last_error(b"(module (func nop"), ("a keyword is expected", 1, 17));
    assert_eq!(last_error(b"(module (func (nop"), ("a keyword is expected", 1, 18));
}

#[test]
fn syntax_errors() {
    assert_eq!(last_error(b""), ("( is expected", 1, 0));
    assert_eq!(last_error(b"module"), ("( is expected", 1, 0));
    assert_eq!(last_error(b"(foo)"), ("?? keyword is expected", 1, 1));
    assert_eq!(last_error(b"(\"module\")"), ("?? keyword is expected", 1, 1));
    assert_eq!(last_error(b"(module $a $b)"), ("( is expected", 1, 11));
    assert_eq!(last_error(b"(module (5))"), ("a keyword is expected", 1, 9));
    assert_eq!(last_error(b"(module ())"), ("a keyword is expected", 1, 9));
    assert_eq!(last_error(b"(module) x"), ("unexpected content after the module", 1, 9));
    assert_eq!(last_error(b"(module))"), ("unexpected content after the module", 1, 8));
    assert_eq!(last_error(b"(module\n  (table 1))"), ("unknown module field", 2, 3));
    assert_eq!(last_error(b"(module (memory 1))"), ("unknown module field", 1, 9));
}

#[test]
fn import_errors() {
    assert_eq!(last_error(b"(module (import 5 \"b\" (memory 1)))"), ("a name is expected", 1, 16));
    assert_eq!(last_error(b"(module (import \"a\" b (memory 1)))"), ("a name is expected", 1, 20));
    assert_eq!(last_error(b"(module (import \"\\ff\" \"b\" (memory 1)))"), ("unable to read name", 1, 16));
    assert_eq!(
        last_error(b"(module (import \"a\" \"\\u{D800}\" (memory 1)))"),
        ("unable to read name", 1, 20)
    );
    assert_eq!(last_error(b"(module (import \"a\" \"b\" memory 1))"), ("( is expected", 1, 24));
    assert_eq!(last_error(b"(module (import \"a\" \"b\" (func)))"), ("unknown import kind", 1, 25));
    assert_eq!(last_error(b"(module (import \"a\" \"b\" (table 1)))"), ("unknown import kind", 1, 25));
    assert_eq!(last_error(b"(module (import \"a\" \"b\" (global i32)))"), ("unknown import kind", 1, 25));
    assert_eq!(last_error(b"(module (import \"a\" \"b\" (5)))"), ("a keyword is expected", 1, 25));
    assert_eq!(last_error(b"(module (import \"a\" \"b\" (memory)))"), ("unable to read u32", 1, 31));
    assert_eq!(
        last_error(b"(module (import \"a\" \"b\" (memory 4294967296)))"),
        ("unable to read u32", 1, 32)
    );
    assert_eq!(last_error(b"(module (import \"a\" \"b\" (memory -1)))"), ("unable to read u32", 1, 32));
    assert_eq!(last_error(b"(module (import \"a\" \"b\" (memory 1 2 3)))"), (") is expected", 1, 36));
    assert_eq!(last_error(b"(module (import \"a\" \"b\" (memory 1) x))"), (") is expected", 1, 35));
    assert_eq!(
        last_error(b"(module (import \"a\" \"b\" (memory (share 1))))"),
        ("?? keyword is expected", 1, 33)
    );
    assert_eq!(
        last_error(b"(module (import \"a\" \"b\" (memory (shared 1 2 x))))"),
        (") is expected", 1, 44)
    );
}

#[test]
fn func_errors() {
    assert_eq!(last_error(b"(module (func (type 5)))"), ("id is expected for typeuse", 1, 20));
    assert_eq!(last_error(b"(module (func (type $t x)))"), (") is expected", 1, 23));
    assert_eq!(last_error(b"(module (func (param v128)))"), ("unknown value type", 1, 21));
    assert_eq!(last_error(b"(module (func (result i33)))"), ("unknown value type", 1, 22));
    assert_eq!(last_error(b"(module (func (import \"a\" \"b\") (nop)))"), (") is expected", 1, 31));
    assert_eq!(last_error(b"(module (func (import \"a\")))"), ("a name is expected", 1, 25));
    assert_eq!(last_error(b"(module (func (export 1)))"), ("a name is expected", 1, 22));
    assert_eq!(last_error(b"(module (func (export \"e\" \"f\")))"), (") is expected", 1, 26));
    assert_eq!(last_error(b"(module (func 5))"), ("a keyword is expected", 1, 14));
    assert_eq!(last_error(b"(module (func $a $b))"), ("a keyword is expected", 1, 17));
}

#[test]
fn argument_errors() {
    assert_eq!(
        last_error(b"(module (func i32.const 4294967296))"),
        ("Unable to parse unsigned", 1, 24)
    );
    assert_eq!(
        last_error(b"(module (func i32.const -4294967296))"),
        ("Unable to parse signed", 1, 24)
    );
    assert_eq!(
        last_error(b"(module (func f32.const nan:0x1ffffffff))"),
        ("Unable to parse float", 1, 24)
    );
    assert_eq!(
        last_error(b"(module (func i32.const \"s\"))"),
        ("unexpected token in the instruction", 1, 24)
    );
    assert_eq!(
        last_error(b"(module (func i32.const Reserved))"),
        ("unexpected token in the instruction", 1, 24)
    );
    assert_eq!(last_error(b"(module (func i32.load offset=x))"), ("unable to read u32", 1, 23));
    assert_eq!(last_error(b"(module (func i32.load flags=-1))"), ("unable to read u32", 1, 23));
    assert_eq!(
        last_error(b"(module (func i32.load offset=4294967296))"),
        ("unable to read u32", 1, 23)
    );
}

#[test]
fn lexer_errors_inside_a_func() {
    assert_eq!(last_error(b"(module (func nop [))"), ("Unexpected character", 1, 18));
    assert_eq!(last_error(b"(module (func (param i32 \"\\q\")))"), ("Unexpected character", 1, 27));
    assert_eq!(last_error(b"\n\n(module $m \"x"), ("Unexpected eos", 3, 13));
}

#[test]
fn all_value_types() {
    let mut parser = WatParser::new(b"(module (func (param i32 i64 f32 f64)))");
    parser.parse();
    match parser.parse() {
        WatParserState::StartFunc { typeuse, .. } => {
            assert!(matches!(
                typeuse.params.iter().map(|p| &p.valtype).collect::<Vec<_>>()[..],
                [WatValType::I32, WatValType::I64, WatValType::F32, WatValType::F64]
            ));
        }
        other => panic!("{:?}", other),
    }
}
