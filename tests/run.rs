use xpl::{parse_file, run_file, ParseOutcome, Program, RunOutcome, SourceEntry, SourceState, SourceTable, XplError};
use xpl::{Expr, Stmt};

const MATH: &str = r#"<program name="math" version="1.0">
  <description>Arithmetic helpers</description>
  <function name="add">
    <description>Adds two numbers</description>
    <param name="a" type="int"><description>first</description></param>
    <param name="b" type="int"/>
    <body>
      <return>a + b</return>
    </body>
  </function>
  <function name="subtract">
    <param name="a" type="int"/>
    <param name="b" type="int"/>
    <body>
      <return>a - b</return>
    </body>
  </function>
</program>"#;

const HELLO: &str = r#"<program name="hello" version="1.0" include="math.xpl">
  <description>Says hello and adds</description>
  <function name="main">
    <body>
      <print>"Hello, World!"</print>
      <assign var="x">
        <call function="add">
          <param>5</param>
          <param>3</param>
        </call>
      </assign>
      <print>"The result of 5 + 3 is: "</print>
      <print>x</print>
    </body>
  </function>
</program>"#;

const TEST: &str = r#"<program name="test" version="1.0">
  <function name="main">
    <body>
      <print>"Hello, World!"</print>
      <print>"This is a test program."</print>
      <print>"Testing the XPL language."</print>
    </body>
  </function>
</program>"#;

const CONDITIONAL: &str = r#"<program name="conditional" version="1.0" include="math.xpl">
  <function name="main">
    <body>
      <assign var="x"><value>5</value></assign>
      <assign var="d">
        <call function="subtract">
          <param>x</param>
          <param>5</param>
        </call>
      </assign>
      <if>
        <condition>d</condition>
        <then><print>"x minus 5 is not zero"</print></then>
        <else><print>"x minus 5 is zero"</print></else>
      </if>
    </body>
  </function>
</program>"#;

fn examples() -> Vec<(&'static str, &'static str)> {
    vec![
        ("examples/math.xpl", MATH),
        ("examples/hello.xpl", HELLO),
        ("examples/test.xpl", TEST),
        ("examples/conditional.xpl", CONDITIONAL),
    ]
}

fn read(files: &[(&str, &str)], path: &str) -> SourceEntry {
    let state = match files.iter().find(|(p, _)| *p == path) {
        Some((p, text)) => SourceState::Loaded { canonical: p.to_string(), text: text.to_string() },
        None => SourceState::Absent("No such file or directory".to_string()),
    };
    SourceEntry { path: path.to_string(), state }
}

fn run_in(files: &[(&str, &str)], path: &str) -> Result<Vec<String>, XplError> {
    let mut table = SourceTable { entries: Vec::new() };
    loop {
        match run_file(path, &table) {
            RunOutcome::Finished(lines) => return Ok(lines),
            RunOutcome::Failed(e) => return Err(e),
            RunOutcome::NeedFile(p) => table.entries.push(read(files, &p)),
        }
    }
}

fn parse_in(files: &[(&str, &str)], path: &str) -> Result<Program, XplError> {
    let mut table = SourceTable { entries: Vec::new() };
    loop {
        match parse_file(path, &table) {
            ParseOutcome::Parsed(p) => return Ok(p),
            ParseOutcome::Failed(e) => return Err(e),
            ParseOutcome::NeedFile(p) => table.entries.push(read(files, &p)),
        }
    }
}

#[test]
fn runs_empty_program() {
    let tmp = "<program name=\"empty\" version=\"1.0\"></program>";
    let outputs = run_in(&[("empty.xpl", tmp)], "empty.xpl").unwrap();
    assert!(outputs.is_empty());
}

#[test]
fn runs_hello_example() {
    let path = "examples/hello.xpl";
    let outputs = run_in(&examples(), path).unwrap();
    assert_eq!(
        outputs,
        vec![
            "Hello, World!".to_string(),
            "The result of 5 + 3 is: ".to_string(),
            "8".to_string(),
        ]
    );
}

#[test]
fn runs_test_example() {
    let path = "examples/test.xpl";
    let outputs = run_in(&examples(), path).unwrap();
    assert_eq!(
        outputs,
        vec![
            "Hello, World!".to_string(),
            "This is a test program.".to_string(),
            "Testing the XPL language.".to_string(),
        ]
    );
}

#[test]
fn runs_conditional_example() {
    let path = "examples/conditional.xpl";
    let outputs = run_in(&examples(), path).unwrap();
    assert_eq!(outputs, vec!["x minus 5 is zero".to_string()]);
}

#[test]
fn undefined_variable_error() {
    let tmp = "<program name=\"err\" version=\"1.0\"><function name=\"main\"><body><print> y </print></body></function></program>";
    let path = "/tmp/err.xpl";
    let err = run_in(&[(path, tmp)], path).unwrap_err().message();
    assert!(err.contains("Undefined variable y"));
    assert!(err.contains(path));
}

#[test]
fn undefined_function_error() {
    let tmp = "<program name=\"errf\" include=\"examples/math.xpl\" version=\"1.0\"><function name=\"main\"><body><call function=\"none\"><param>1</param></call></body></function></program>";
    let path = "/tmp/errf.xpl";
    let mut files = examples();
    files.push((path, tmp));
    let err = run_in(&files, path).unwrap_err().message();
    assert!(err.contains("Undefined function none"));
    assert!(err.contains(path));
}

#[test]
fn parse_simple_print() {
    let tmp = "<program name=\"t\" version=\"1.0\"><function name=\"main\"><body><print>10</print></body></function></program>";
    let prog = parse_in(&[("simple.xpl", tmp)], "simple.xpl").unwrap();
    let func = prog.functions.iter().find(|f| f.name == "main").unwrap();
    assert_eq!(func.body, vec![Stmt::Print(Expr::LiteralInt(10))]);
}
