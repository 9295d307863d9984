use xpl::{
    parse_file, run_file, ErrorKind, Expr, ParseOutcome, Program, RunOutcome, SourceEntry,
    SourceState, SourceTable, Stmt, XplError,
};
use xpl::builder::Missing;
use xpl::vm::VM;
use xpl::position::find_pos;

fn read(files: &[(&str, &str)], path: &str) -> SourceEntry {
    let state = match files.iter().find(|(p, _)| *p == path) {
        Some((p, text)) => SourceState::Loaded { canonical: p.to_string(), text: text.to_string() },
        None => SourceState::Absent("No such file or directory".to_string()),
    };
    SourceEntry { path: path.to_string(), state }
}

fn run_in(files: &[(&str, &str)], path: &str) -> Result<Vec<String>, XplError> {
    let mut table = SourceTable { entries: Vec::new() };
    loop {
        match run_file(path, &table) {
            RunOutcome::Finished(lines) => return Ok(lines),
            RunOutcome::Failed(e) => return Err(e),
            RunOutcome::NeedFile(p) => table.entries.push(read(files, &p)),
        }
    }
}

fn parse_in(files: &[(&str, &str)], path: &str) -> Result<Program, XplError> {
    let mut table = SourceTable { entries: Vec::new() };
    loop {
        match parse_file(path, &table) {
            ParseOutcome::Parsed(p) => return Ok(p),
            ParseOutcome::Failed(e) => return Err(e),
            ParseOutcome::NeedFile(p) => table.entries.push(read(files, &p)),
        }
    }
}

fn program(functions: &str) -> String {
    format!("<program name=\"t\" version=\"1.0\">{}</program>", functions)
}

fn main_with(body: &str) -> String {
    program(&format!("<function name=\"main\"><body>{}</body></function>", body))
}

fn run_main(body: &str) -> Result<Vec<String>, XplError> {
    let text = main_with(body);
    run_in(&[("m.xpl", text.as_str())], "m.xpl")
}

fn lines(v: &[&str]) -> Vec<String> {
    v.iter().map(|s| s.to_string()).collect()
}

#[test]
fn program_without_main_prints_nothing() {
    let text = program("<function name=\"helper\"><body><print>1</print></body></function>");
    assert_eq!(run_in(&[("lib.xpl", text.as_str())], "lib.xpl").unwrap(), Vec::<String>::new());
}

#[test]
fn parsing_twice_gives_equal_programs() {
    let text = main_with("<print>\"a\"</print><assign var=\"x\"><v>4</v></assign><loop times=\"2\"><print>x</print></loop>");
    let files = [("p.xpl", text.as_str())];
    let a = parse_in(&files, "p.xpl").unwrap();
    let b = parse_in(&files, "p.xpl").unwrap();
    assert_eq!(a, b);
}

#[test]
fn division_by_zero_fails() {
    let e = run_main("<loop times=\"5 / 0\"><print>1</print></loop>").unwrap_err();
    assert!(matches!(e.kind, ErrorKind::DivisionByZero));
    assert_eq!((e.line, e.col), (0, 0));
    let e = run_main("<return>0</return><loop times=\"-5 % 0\"><print>1</print></loop>").unwrap_err();
    assert!(matches!(e.kind, ErrorKind::DivisionByZero));
    assert!(e.message().contains("Division by zero"));
}

#[test]
fn division_truncates_toward_zero() {
    let text = program(
        "<function name=\"q\"><param name=\"a\"/><param name=\"b\"/><body><return>a / b</return></body></function>\
         <function name=\"r\"><param name=\"a\"/><param name=\"b\"/><body><return>a % b</return></body></function>\
         <function name=\"main\"><body>\
         <assign var=\"x\"><call function=\"q\"><param>-7</param><param>2</param></call></assign><print>x</print>\
         <assign var=\"y\"><call function=\"r\"><param>-7</param><param>2</param></call></assign><print>y</print>\
         <assign var=\"z\"><call function=\"r\"><param>7</param><param>-2</param></call></assign><print>z</print>\
         </body></function>",
    );
    assert_eq!(run_in(&[("d.xpl", text.as_str())], "d.xpl").unwrap(), lines(&["-3", "-1", "1"]));
}

#[test]
fn arithmetic_wraps_at_sixty_four_bits() {
    let text = program(
        "<function name=\"inc\"><param name=\"a\"/><body><return>a + 1</return></body></function>\
         <function name=\"quot\"><param name=\"a\"/><param name=\"b\"/><body><return>a / b</return></body></function>\
         <function name=\"main\"><body>\
         <assign var=\"n\"><call function=\"inc\"><param>9223372036854775807</param></call></assign><print>n</print>\
         <assign var=\"q\"><call function=\"quot\"><param>-9223372036854775808</param><param>-1</param></call></assign><print>q</print>\
         </body></function>",
    );
    assert_eq!(
        run_in(&[("w.xpl", text.as_str())], "w.xpl").unwrap(),
        lines(&["-9223372036854775808", "-9223372036854775808"])
    );
}

#[test]
fn unbound_variable_is_named() {
    let e = run_main("<print>\"start\"</print>\n<print>missing</print>").unwrap_err();
    match &e.kind {
        ErrorKind::UndefinedVariable(n) => assert_eq!(n, "missing"),
        other => panic!("unexpected {:?}", other),
    }
    assert_eq!(e.summary(), "Undefined variable missing");
}

#[test]
fn undefined_variable_position_is_found_in_source() {
    let text = "<program name=\"t\">\n<function name=\"main\"><body>\n  <print>ghost</print>\n</body></function></program>";
    let e = run_in(&[("g.xpl", text)], "g.xpl").unwrap_err();
    assert_eq!((e.line, e.col), (3, 10));
    assert_eq!(e.message(), "g.xpl:3:10: Undefined variable ghost");
}

#[test]
fn wrong_argument_count_is_reported() {
    let text = program(
        "<function name=\"add\"><param name=\"a\"/><param name=\"b\"/><body><return>a + b</return></body></function>\
         <function name=\"main\"><body><call function=\"add\"><param>1</param></call></body></function>",
    );
    let e = run_in(&[("a.xpl", text.as_str())], "a.xpl").unwrap_err();
    match &e.kind {
        ErrorKind::ArityMismatch { function, expected, actual } => {
            assert_eq!(function, "add");
            assert_eq!((*expected, *actual), (2, 1));
        }
        other => panic!("unexpected {:?}", other),
    }
    assert_eq!(e.summary(), "Expected 2 args for function 'add', got 1");
    assert_eq!(e.message(), "a.xpl:0:0: Expected 2 args for function 'add', got 1");
}

#[test]
fn if_zero_selects_else_and_nonzero_selects_then() {
    let body = |c: &str| {
        format!(
            "<if><condition>{}</condition><then><print>\"then\"</print></then><else><print>\"else\"</print></else></if>",
            c
        )
    };
    assert_eq!(run_main(&body("0")).unwrap(), lines(&["else"]));
    assert_eq!(run_main(&body("7")).unwrap(), lines(&["then"]));
    assert_eq!(run_main(&body("-1")).unwrap(), lines(&["then"]));
}

#[test]
fn loop_repeats_its_body() {
    assert_eq!(run_main("<loop times=\"3\"><print>\"hi\"</print></loop>").unwrap(), lines(&["hi", "hi", "hi"]));
    assert_eq!(run_main("<loop times=\"0\"><print>\"hi\"</print></loop>").unwrap(), Vec::<String>::new());
    assert_eq!(run_main("<loop times=\"-2\"><print>\"hi\"</print></loop>").unwrap(), Vec::<String>::new());
    assert_eq!(run_main("<loop><print>\"hi\"</print></loop>").unwrap(), Vec::<String>::new());
    assert_eq!(run_main("<loop times=\"1 + 1\"><print>\"hi\"</print></loop>").unwrap(), lines(&["hi", "hi"]));
}

#[test]
fn loop_body_assigns_and_prints() {
    let text = program(
        "<function name=\"inc\"><param name=\"a\"/><body><return>a + 1</return></body></function>\
         <function name=\"main\"><body>\
         <assign var=\"i\"><v>0</v></assign>\
         <loop times=\"3\"><assign var=\"i\"><call function=\"inc\"><param>i</param></call></assign><print>i</print></loop>\
         </body></function>",
    );
    assert_eq!(run_in(&[("l.xpl", text.as_str())], "l.xpl").unwrap(), lines(&["1", "2", "3"]));
}

#[test]
fn self_recursion_stops_at_depth_limit() {
    let text = program(
        "<function name=\"down\"><param name=\"n\"/><body><return><call function=\"down\"><param>n - 1</param></call></return></body></function>\
         <function name=\"id\"><param name=\"n\"/><body><return>n</return></body></function>\
         <function name=\"main\"><body>\
         <assign var=\"n\"><v>10</v></assign>\
         <assign var=\"r\"><call function=\"id\"><param>3</param></call></assign>\
         <print>n</print><print>r</print>\
         <call function=\"down\"><param>n</param></call>\
         </body></function>",
    );
    let e = run_in(&[("r.xpl", text.as_str())], "r.xpl").unwrap_err();
    assert!(matches!(e.kind, ErrorKind::CallDepthExceeded));
}

#[test]
fn caller_frame_survives_calls() {
    let text = program(
        "<function name=\"shadow\"><param name=\"x\"/><body><assign var=\"x\"><v>99</v></assign><return>x * 2</return></body></function>\
         <function name=\"main\"><body>\
         <assign var=\"x\"><v>5</v></assign>\
         <assign var=\"y\"><call function=\"shadow\"><param>7</param></call></assign>\
         <print>x</print><print>y</print>\
         </body></function>",
    );
    assert_eq!(run_in(&[("s.xpl", text.as_str())], "s.xpl").unwrap(), lines(&["5", "14"]));
}

#[test]
fn function_without_return_gives_zero() {
    let text = program(
        "<function name=\"nothing\"><body><print>\"ignored\"</print></body></function>\
         <function name=\"main\"><body><assign var=\"z\"><call function=\"nothing\"/></assign><print>z</print></body></function>",
    );
    assert_eq!(run_in(&[("z.xpl", text.as_str())], "z.xpl").unwrap(), lines(&["0"]));
}

#[test]
fn string_literal_in_arithmetic_is_unsupported() {
    let text = program(
        "<function name=\"s\"><body><return>\"text\"</return></body></function>\
         <function name=\"main\"><body><assign var=\"z\"><call function=\"s\"/></assign></body></function>",
    );
    let e = run_in(&[("u.xpl", text.as_str())], "u.xpl").unwrap_err();
    assert!(matches!(e.kind, ErrorKind::UnsupportedExpression));
}

#[test]
fn text_classification() {
    let prog = parse_in(
        &[(
            "c.xpl",
            main_with(
                "<print>  \"quoted\"  </print><print>-42</print><print>name</print><print>99999999999999999999</print><print>\"</print><print>+7</print>",
            )
            .as_str(),
        )],
        "c.xpl",
    )
    .unwrap();
    let body = &prog.functions[0].body;
    assert_eq!(
        *body,
        vec![
            Stmt::Print(Expr::LiteralStr("quoted".to_string())),
            Stmt::Print(Expr::LiteralInt(-42)),
            Stmt::Print(Expr::VarRef("name".to_string())),
            Stmt::Print(Expr::VarRef("99999999999999999999".to_string())),
            Stmt::Print(Expr::LiteralStr("".to_string())),
            Stmt::Print(Expr::LiteralInt(7)),
        ]
    );
}

#[test]
fn return_text_supports_one_infix_operation() {
    let text = program(
        "<function name=\"f\"><param name=\"a\"/><body><return>  a   *  3 </return><return>1</return></body></function>\
         <function name=\"g\"><body><return>a ^ 3</return></body></function>",
    );
    let prog = parse_in(&[("f.xpl", text.as_str())], "f.xpl").unwrap();
    assert_eq!(
        prog.functions[0].body[0],
        Stmt::Return(Expr::BinaryOp(
            xpl::BinOp::Multiply,
            Box::new(Expr::VarRef("a".to_string())),
            Box::new(Expr::LiteralInt(3)),
        ))
    );
    assert_eq!(prog.functions[1].body[0], Stmt::Return(Expr::VarRef("a ^ 3".to_string())));
}

#[test]
fn if_branches_keep_only_prints() {
    let prog = parse_in(
        &[(
            "i.xpl",
            main_with("<if><condition>x</condition><then><print>1</print><assign var=\"y\"><v>2</v></assign></then><else/></if>").as_str(),
        )],
        "i.xpl",
    )
    .unwrap();
    assert_eq!(
        prog.functions[0].body,
        vec![Stmt::If {
            cond: Expr::VarRef("x".to_string()),
            then_body: vec![Stmt::Print(Expr::LiteralInt(1))],
            else_body: vec![],
        }]
    );
}

#[test]
fn missing_if_parts_are_structural_errors() {
    let cases = [
        ("<if><then/><else/></if>", Missing::Condition, "Missing condition"),
        ("<if><condition>1</condition><else/></if>", Missing::Then, "Missing then block"),
        ("<if><condition>1</condition><then/></if>", Missing::Else, "Missing else block"),
    ];
    for (body, missing, words) in cases {
        let text = main_with(body);
        let e = parse_in(&[("s.xpl", text.as_str())], "s.xpl").unwrap_err();
        match e.kind {
            ErrorKind::StructuralError(m) => assert_eq!(m, missing),
            ref other => panic!("unexpected {:?}", other),
        }
        assert_eq!((e.line, e.col), (0, 0));
        assert_eq!(e.file, "s.xpl");
        assert_eq!(e.summary(), words);
    }
}

#[test]
fn malformed_document_is_reported() {
    let e = parse_in(&[("bad.xpl", "<program><function></program>")], "bad.xpl").unwrap_err();
    assert!(matches!(e.kind, ErrorKind::MalformedDocument(_)));
    assert!(e.message().starts_with("XML parse error in bad.xpl: "));
}

#[test]
fn unreadable_file_is_io_failure() {
    let e = parse_in(&[], "nowhere.xpl").unwrap_err();
    match &e.kind {
        ErrorKind::IoFailure(m) => assert_eq!(m, "No such file or directory"),
        other => panic!("unexpected {:?}", other),
    }
    assert_eq!(e.message(), "IO error in nowhere.xpl: No such file or directory");
}

#[test]
fn loader_asks_for_missing_files_in_order() {
    let root = "<program include=\"lib/a.xpl, b.xpl\"><function name=\"main\"><body/></function></program>";
    let mut table = SourceTable { entries: vec![SourceEntry {
        path: "dir/root.xpl".to_string(),
        state: SourceState::Loaded { canonical: "/w/dir/root.xpl".to_string(), text: root.to_string() },
    }] };
    match parse_file("dir/root.xpl", &table) {
        ParseOutcome::NeedFile(p) => assert_eq!(p, "dir/lib/a.xpl"),
        other => panic!("unexpected {:?}", other),
    }
    table.entries.push(SourceEntry { path: "dir/lib/a.xpl".to_string(), state: SourceState::Absent("gone".to_string()) });
    match parse_file("dir/root.xpl", &table) {
        ParseOutcome::NeedFile(p) => assert_eq!(p, "lib/a.xpl"),
        other => panic!("unexpected {:?}", other),
    }
}

#[test]
fn includes_merge_with_later_definitions_winning() {
    let a = "<program><function name=\"f\"><body><return>1</return></body></function><function name=\"g\"><body><return>10</return></body></function></program>";
    let b = "<program><function name=\"f\"><body><return>2</return></body></function></program>";
    let root = "<program include=\"a.xpl,b.xpl\"><description> root program </description>\
        <function name=\"g\"><body><return>20</return></body></function>\
        <function name=\"main\"><body><assign var=\"x\"><call function=\"f\"/></assign><assign var=\"y\"><call function=\"g\"/></assign><print>x</print><print>y</print></body></function></program>";
    let files = [("p/a.xpl", a), ("p/b.xpl", b), ("p/root.xpl", root)];
    assert_eq!(run_in(&files, "p/root.xpl").unwrap(), lines(&["2", "20"]));
    let prog = parse_in(&files, "p/root.xpl").unwrap();
    assert_eq!(prog.description, Some("root program".to_string()));
    let names: Vec<&str> = prog.functions.iter().map(|f| f.name.as_str()).collect();
    assert_eq!(names, vec!["f", "g", "main"]);
}

#[test]
fn circular_include_is_detected() {
    let a = "<program include=\"b.xpl\"><function name=\"main\"><body/></function></program>";
    let b = "<program include=\"a.xpl\"/>";
    let e = parse_in(&[("a.xpl", a), ("b.xpl", b)], "a.xpl").unwrap_err();
    match &e.kind {
        ErrorKind::CircularInclude(p) => assert_eq!(p, "a.xpl"),
        other => panic!("unexpected {:?}", other),
    }
    assert_eq!(e.summary(), "Circular include of a.xpl");
}

#[test]
fn diamond_include_is_not_circular() {
    let d = "<program><function name=\"one\"><body><return>1</return></body></function></program>";
    let b = "<program include=\"d.xpl\"/>";
    let c = "<program include=\"d.xpl\"/>";
    let a = "<program include=\"b.xpl,c.xpl\"><function name=\"main\"><body><assign var=\"v\"><call function=\"one\"/></assign><print>v</print></body></function></program>";
    let files = [("a.xpl", a), ("b.xpl", b), ("c.xpl", c), ("d.xpl", d)];
    assert_eq!(run_in(&files, "a.xpl").unwrap(), lines(&["1"]));
}

#[test]
fn parameters_and_descriptions_are_read() {
    let text = program(
        "<function name=\"f\"><description>  does f </description>\
         <param name=\"a\" type=\"int\"><description>first</description></param><param name=\"b\"/>\
         <body/></function>",
    );
    let prog = parse_in(&[("f.xpl", text.as_str())], "f.xpl").unwrap();
    let f = &prog.functions[0];
    assert_eq!(f.description, Some("does f".to_string()));
    assert_eq!(f.params.len(), 2);
    assert_eq!(f.params[0].name, "a");
    assert_eq!(f.params[0].ptype, Some("int".to_string()));
    assert_eq!(f.params[0].description, Some("first".to_string()));
    assert_eq!(f.params[1].name, "b");
    assert_eq!(f.params[1].ptype, None);
}

#[test]
fn vm_reports_missing_main() {
    let prog = Program { description: None, functions: vec![] };
    let mut vm = VM::new("x.xpl".to_string(), String::new());
    let e = vm.run(&prog).unwrap_err();
    assert!(matches!(e.kind, ErrorKind::NoMainFunction));
    assert_eq!(e.message(), "x.xpl:0:0: No main function");
}

#[test]
fn print_in_loop_renders_negative_numbers() {
    assert_eq!(run_main("<loop times=\"2\"><print>-0</print><print>-120</print></loop>").unwrap(), lines(&["0", "-120", "0", "-120"]));
}

#[test]
fn loop_body_keeps_nested_if_and_loop() {
    let prog = parse_in(
        &[(
            "n.xpl",
            main_with(
                "<loop times=\"2\"><if><condition>1</condition><then><print>\"t\"</print></then><else/></if>\
                 <loop times=\"5\"><print>\"inner\"</print></loop><return>1</return></loop>",
            )
            .as_str(),
        )],
        "n.xpl",
    )
    .unwrap();
    assert_eq!(
        prog.functions[0].body,
        vec![Stmt::Loop {
            count: Expr::LiteralInt(2),
            body: vec![
                Stmt::If {
                    cond: Expr::LiteralInt(1),
                    then_body: vec![Stmt::Print(Expr::LiteralStr("t".to_string()))],
                    else_body: vec![],
                },
                Stmt::Loop {
                    count: Expr::LiteralInt(5),
                    body: vec![Stmt::Print(Expr::LiteralStr("inner".to_string()))],
                },
            ],
        }]
    );
}

#[test]
fn loop_runs_nested_if_but_not_nested_loop() {
    let out = run_main(
        "<assign var=\"z\"><v>0</v></assign>\
         <loop times=\"2\"><if><condition>z</condition><then><print>\"nonzero\"</print></then><else><print>\"zero\"</print></else></if>\
         <loop times=\"5\"><print>\"inner\"</print></loop><print>\"outer\"</print></loop>",
    )
    .unwrap();
    assert_eq!(out, lines(&["zero", "outer", "zero", "outer"]));
}

#[test]
fn incomplete_if_in_loop_body_is_structural_error() {
    let text = main_with("<loop times=\"1\"><if><condition>1</condition><then/></if></loop>");
    let e = parse_in(&[("e.xpl", text.as_str())], "e.xpl").unwrap_err();
    match e.kind {
        ErrorKind::StructuralError(m) => assert_eq!(m, Missing::Else),
        ref other => panic!("unexpected {:?}", other),
    }
}

#[test]
fn error_column_counts_bytes() {
    let text = "<program name=\"t\">\n<function name=\"main\"><body>\n  <!-- \u{e9} --><print>ghost</print>\n</body></function></program>";
    let e = run_in(&[("b.xpl", text)], "b.xpl").unwrap_err();
    assert_eq!((e.line, e.col), (3, 21));
}

#[test]
fn malformed_message_is_stable() {
    let files = [("bad.xpl", "<program><a></b></program>")];
    let a = parse_in(&files, "bad.xpl").unwrap_err().message();
    let b = parse_in(&files, "bad.xpl").unwrap_err().message();
    assert_eq!(a, b);
    assert!(a.len() > "XML parse error in bad.xpl: ".len());
}

#[test]
fn direct_calls_check_arity_and_bindings() {
    let param = |n: &str| xpl::Param { name: n.to_string(), ptype: None, description: None };
    let add = xpl::Function {
        name: "add".to_string(),
        description: None,
        params: vec![param("a"), param("b")],
        body: vec![Stmt::Return(Expr::BinaryOp(
            xpl::BinOp::Add,
            Box::new(Expr::VarRef("a".to_string())),
            Box::new(Expr::VarRef("b".to_string())),
        ))],
    };
    let prog = Program { description: None, functions: vec![add] };
    let vm = VM::new("v.xpl".to_string(), String::new());
    assert!(matches!(vm.call_function(&prog, "add", vec![2, 3], 10), Ok(5)));
    match vm.call_function(&prog, "add", vec![1], 10) {
        Err(ErrorKind::ArityMismatch { expected: 2, actual: 1, .. }) => {}
        other => panic!("unexpected {:?}", other),
    }
    let frame = vec![("a".to_string(), 1i64)];
    match vm.eval_expr(&prog, &frame, &Expr::VarRef("q".to_string()), 10) {
        Err(ErrorKind::UndefinedVariable(n)) => assert_eq!(n, "q"),
        other => panic!("unexpected {:?}", other),
    }
    assert!(matches!(vm.call_function(&prog, "add", vec![2, 3], 0), Err(ErrorKind::CallDepthExceeded)));
}

#[test]
fn positions_follow_str_lines() {
    assert_eq!(find_pos("ab\r", "b\r"), (0, 1));
    assert_eq!(find_pos("x\r\ny", "y"), (1, 0));
    assert_eq!(find_pos("a\r\nb\r", "\r"), (1, 1));
    assert_eq!(find_pos("", "q"), (0, 0));
    assert_eq!(find_pos("\u{e9}q", "q"), (0, 2));
}
