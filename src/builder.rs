//! Builds the AST of one XPL document from its element tree.
use vstd::prelude::*;
use crate::ast::{exprs_model, opt_text, stmts_model, BinOp, Expr, ExprM, Function, FunctionM, Param, ParamM, Stmt, StmtM};
use crate::text::{chars_of, parse_i64, parse_i64_spec, same_text, split_words, string_of, strip, trim, unquote, words};
use crate::xml::{lemma_nodes_model, node_model, XmlNode, attribute_of, child_named, leading_element, text_of, XElem, XNode, XmlElement};

verus! {

/// A required child element that an `if` statement lacks.
#[derive(Clone, Copy, Debug, PartialEq, Eq, Structural)]
pub enum Missing {
    Condition,
    Then,
    Else,
}

/// Three-way reading of bare text: a quoted string, an integer, or a
/// variable name.
pub open spec fn classify_spec(t: Seq<char>) -> ExprM {
    if t.len() > 0 && t[0] == '"' && t.last() == '"' {
        ExprM::LiteralStr(unquote(t))
    } else {
        match parse_i64_spec(t) {
            Some(i) => ExprM::LiteralInt(i),
            None => ExprM::VarRef(t),
        }
    }
}

/// Two-way reading of condition text: an integer or a variable name.
pub open spec fn number_or_name(t: Seq<char>) -> ExprM {
    match parse_i64_spec(t) {
        Some(i) => ExprM::LiteralInt(i),
        None => ExprM::VarRef(t),
    }
}

/// The operator that a one-character token names.
pub open spec fn op_of(t: Seq<char>) -> Option<BinOp> {
    if t == seq!['+'] {
        Some(BinOp::Add)
    } else if t == seq!['-'] {
        Some(BinOp::Subtract)
    } else if t == seq!['*'] {
        Some(BinOp::Multiply)
    } else if t == seq!['/'] {
        Some(BinOp::Divide)
    } else if t == seq!['%'] {
        Some(BinOp::Modulus)
    } else {
        None
    }
}

/// Reading of text that may also be one infix operation `A op B`.
pub open spec fn text_expr(txt: Seq<char>) -> ExprM {
    let t = trim(txt);
    let parts = words(t);
    if parts.len() == 3 {
        match op_of(parts[1]) {
            Some(op) => ExprM::BinaryOp(
                op,
                Box::new(classify_spec(parts[0])),
                Box::new(classify_spec(parts[2])),
            ),
            None => ExprM::VarRef(t),
        }
    } else {
        classify_spec(t)
    }
}

pub open spec fn attr_or_empty(e: XElem, key: Seq<char>) -> Seq<char> {
    match attribute_of(e.attributes, key) {
        Some(v) => v,
        None => seq![],
    }
}

/// The expression that an element stands for: a `call` element, or
/// classified text.
pub open spec fn expr_of(e: XElem) -> ExprM
    decreases e,
{
    if e.name == "call"@ {
        ExprM::Call(attr_or_empty(e, "function"@), call_args(e.children))
    } else {
        classify_spec(trim(text_of(e.children)))
    }
}

/// The arguments of a call: one for each `param` child element.
pub open spec fn call_args(nodes: Seq<XNode>) -> Seq<ExprM>
    decreases nodes,
{
    if nodes.len() == 0 {
        seq![]
    } else {
        let prev = call_args(nodes.drop_last());
        match nodes.last() {
            XNode::Element(p) => if p.name == "param"@ {
                prev.push(param_arg(p))
            } else {
                prev
            },
            _ => prev,
        }
    }
}

/// One argument: the first nested element, else the parameter's text.
pub open spec fn param_arg(p: XElem) -> ExprM
    decreases p,
{
    match first_elem_expr(p.children) {
        Some(x) => x,
        None => text_expr(text_of(p.children)),
    }
}

pub open spec fn first_elem_expr(nodes: Seq<XNode>) -> Option<ExprM>
    decreases nodes,
{
    if nodes.len() == 0 {
        None
    } else {
        match nodes[0] {
            XNode::Element(c) => Some(expr_of(c)),
            _ => first_elem_expr(nodes.drop_first()),
        }
    }
}

proof fn lemma_exprs_push(v: Seq<Expr>, x: Expr)
    ensures
        exprs_model(v.push(x)) == exprs_model(v).push(x@),
{
    assert(v.push(x).drop_last() =~= v);
}

/// Reads bare text three ways: quoted string, integer, or variable name.
pub fn classify(t: &Vec<char>) -> (r: Expr)
    ensures
        r@ == classify_spec(t@),
{
    let n = t.len();
    if n > 0 && t[0] == '"' && t[n - 1] == '"' {
        let inner = strip(t, true);
        Expr::LiteralStr(string_of(&inner))
    } else {
        match parse_i64(t) {
            Some(i) => Expr::LiteralInt(i),
            None => Expr::VarRef(string_of(t)),
        }
    }
}

fn number_or_variable(t: &Vec<char>) -> (r: Expr)
    ensures
        r@ == number_or_name(t@),
{
    match parse_i64(t) {
        Some(i) => Expr::LiteralInt(i),
        None => Expr::VarRef(string_of(t)),
    }
}

fn operator(t: &Vec<char>) -> (r: Option<BinOp>)
    ensures
        r == op_of(t@),
{
    if t.len() != 1 {
        assert(t@ != seq!['+'] && t@ != seq!['-'] && t@ != seq!['*'] && t@ != seq!['/'] && t@
            != seq!['%']);
        return None;
    }
    let c = t[0];
    assert(t@ =~= seq![c]);
    if c == '+' {
        Some(BinOp::Add)
    } else if c == '-' {
        Some(BinOp::Subtract)
    } else if c == '*' {
        Some(BinOp::Multiply)
    } else if c == '/' {
        Some(BinOp::Divide)
    } else if c == '%' {
        Some(BinOp::Modulus)
    } else {
        assert(t@ != seq!['+'] && t@ != seq!['-'] && t@ != seq!['*'] && t@ != seq!['/'] && t@
            != seq!['%']);
        None
    }
}

/// Reads text that may be a single infix operation `A op B`, else
/// classifies it three ways.
pub fn parse_text_expr(txt: &Vec<char>) -> (r: Expr)
    ensures
        r@ == text_expr(txt@),
{
    let t = strip(txt, false);
    let parts = split_words(&t);
    if parts.len() == 3 {
        assert(parts@[0]@ == words(t@)[0] && parts@[1]@ == words(t@)[1] && parts@[2]@ == words(
            t@,
        )[2]);
        match operator(&parts[1]) {
            Some(op) => {
                let left = classify(&parts[0]);
                let right = classify(&parts[2]);
                Expr::BinaryOp(op, Box::new(left), Box::new(right))
            },
            None => Expr::VarRef(string_of(&t)),
        }
    } else {
        classify(&t)
    }
}

fn attribute_or_empty(e: &XmlElement, key: &str) -> (r: String)
    ensures
        r@ == attr_or_empty(e@, key@),
{
    match e.attribute(key) {
        Some(v) => v.clone(),
        None => String::new(),
    }
}

/// The expression an element stands for.
pub fn parse_expr(e: &XmlElement) -> (r: Expr)
    ensures
        r@ == expr_of(e@),
    decreases e,
{
    if same_text(e.name.as_str(), "call") {
        let name = attribute_or_empty(e, "function");
        let args = call_arguments(e);
        Expr::Call(name, args)
    } else {
        let t = strip(&e.text(), false);
        classify(&t)
    }
}

fn call_arguments(e: &XmlElement) -> (r: Vec<Expr>)
    ensures
        exprs_model(r@) == call_args(e@.children),
    decreases e, 0nat,
{
    let ghost m = e@.children;
    proof {
        lemma_nodes_model(e.children@);
    }
    let mut args: Vec<Expr> = Vec::new();
    let mut i: usize = 0;
    while i < e.children.len()
        invariant
            i <= e.children.len(),
            m == e@.children,
            m.len() == e.children@.len(),
            forall|k: int| 0 <= k < m.len() ==> #[trigger] m[k] == node_model(e.children@[k]),
            exprs_model(args@) == call_args(m.take(i as int)),
        decreases e.children.len() - i,
    {
        assert(m.take(i + 1).drop_last() =~= m.take(i as int));
        assert(m.take(i + 1).last() == m[i as int]);
        match &e.children[i] {
            XmlNode::Element(p) => {
                if same_text(p.name.as_str(), "param") {
                    let a = parameter_argument(p);
                    proof {
                        lemma_exprs_push(args@, a);
                    }
                    args.push(a);
                }
            },
            _ => {},
        }
        i = i + 1;
    }
    assert(m.take(i as int) =~= m);
    args
}

fn parameter_argument(p: &XmlElement) -> (r: Expr)
    ensures
        r@ == param_arg(p@),
    decreases p,
{
    let ghost m = p@.children;
    proof {
        lemma_nodes_model(p.children@);
    }
    let mut i: usize = 0;
    assert(m.subrange(0, m.len() as int) =~= m);
    while i < p.children.len()
        invariant
            i <= p.children.len(),
            m == p@.children,
            m.len() == p.children@.len(),
            forall|k: int| 0 <= k < m.len() ==> #[trigger] m[k] == node_model(p.children@[k]),
            first_elem_expr(m) == first_elem_expr(m.subrange(i as int, m.len() as int)),
        decreases p.children.len() - i,
    {
        let ghost rest = m.subrange(i as int, m.len() as int);
        assert(rest[0] == m[i as int]);
        assert(rest.drop_first() =~= m.subrange(i + 1, m.len() as int));
        match &p.children[i] {
            XmlNode::Element(c) => {
                return parse_expr(c);
            },
            _ => {},
        }
        i = i + 1;
    }
    parse_text_expr(&p.text())
}

pub open spec fn print_of(e: XElem) -> StmtM {
    StmtM::Print(classify_spec(trim(text_of(e.children))))
}

/// An `assign` element: a statement only where its first child node is an
/// element.
pub open spec fn assign_of(e: XElem) -> Option<StmtM> {
    match leading_element(e.children) {
        Some(x) => Some(StmtM::Assign { var: attr_or_empty(e, "var"@), expr: expr_of(x) }),
        None => None,
    }
}

pub open spec fn call_stmt_of(e: XElem) -> StmtM {
    StmtM::Call(attr_or_empty(e, "function"@), call_args(e.children))
}

/// The statement that an element of a `loop` body gives: `print`,
/// `assign`, `call`, `if` and a nested `loop` are read, anything else is
/// passed over; or the child an `if` lacks.
pub open spec fn loop_item(e: XElem) -> Result<Option<StmtM>, Missing>
    decreases e, 1nat,
{
    if e.name == "print"@ {
        Ok(Some(print_of(e)))
    } else if e.name == "assign"@ {
        Ok(assign_of(e))
    } else if e.name == "call"@ {
        Ok(Some(call_stmt_of(e)))
    } else if e.name == "if"@ {
        match if_of(e) {
            Ok(st) => Ok(Some(st)),
            Err(m) => Err(m),
        }
    } else if e.name == "loop"@ {
        match loop_of(e) {
            Ok(st) => Ok(Some(st)),
            Err(m) => Err(m),
        }
    } else {
        Ok(None)
    }
}

/// The statements of a `loop` body, or the first structural fault.
pub open spec fn loop_items(nodes: Seq<XNode>) -> Result<Seq<StmtM>, Missing>
    decreases nodes,
{
    if nodes.len() == 0 {
        Ok(seq![])
    } else {
        match loop_items(nodes.drop_last()) {
            Err(m) => Err(m),
            Ok(prev) => match nodes.last() {
                XNode::Element(e) => match loop_item(e) {
                    Err(m) => Err(m),
                    Ok(Some(st)) => Ok(prev.push(st)),
                    Ok(None) => Ok(prev),
                },
                _ => Ok(prev),
            },
        }
    }
}

/// The `print` statements of a `then` or `else` block; other elements are
/// passed over.
pub open spec fn branch_items(nodes: Seq<XNode>) -> Seq<StmtM>
    decreases nodes.len(),
{
    if nodes.len() == 0 {
        seq![]
    } else {
        let prev = branch_items(nodes.drop_last());
        match nodes.last() {
            XNode::Element(e) => if e.name == "print"@ {
                prev.push(print_of(e))
            } else {
                prev
            },
            _ => prev,
        }
    }
}

pub open spec fn condition_of(c: XElem) -> ExprM {
    match leading_element(c.children) {
        Some(x) => expr_of(x),
        None => number_or_name(trim(text_of(c.children))),
    }
}

/// An `if` element, which needs `condition`, `then` and `else` children.
pub open spec fn if_of(e: XElem) -> Result<StmtM, Missing> {
    match child_named(e.children, "condition"@) {
        None => Err(Missing::Condition),
        Some(c) => match child_named(e.children, "then"@) {
            None => Err(Missing::Then),
            Some(t) => match child_named(e.children, "else"@) {
                None => Err(Missing::Else),
                Some(f) => Ok(
                    StmtM::If {
                        cond: condition_of(c),
                        then_body: branch_items(t.children),
                        else_body: branch_items(f.children),
                    },
                ),
            },
        },
    }
}

/// A `loop` element: its count read from the `times` attribute (0 where
/// there is none), and its body.
pub open spec fn loop_of(e: XElem) -> Result<StmtM, Missing>
    decreases e, 0nat,
{
    let times = match attribute_of(e.attributes, "times"@) {
        Some(v) => v,
        None => seq!['0'],
    };
    match loop_items(e.children) {
        Ok(body) => Ok(StmtM::Loop { count: text_expr(times), body }),
        Err(m) => Err(m),
    }
}

pub open spec fn return_of(e: XElem) -> StmtM {
    match leading_element(e.children) {
        Some(x) => StmtM::Return(expr_of(x)),
        None => StmtM::Return(text_expr(text_of(e.children))),
    }
}

/// The statement that an element of a function body gives, nothing for an
/// element that is no statement, or the child an `if` lacks.
pub open spec fn body_item(e: XElem) -> Result<Option<StmtM>, Missing> {
    if e.name == "loop"@ {
        match loop_of(e) {
            Ok(st) => Ok(Some(st)),
            Err(m) => Err(m),
        }
    } else if e.name == "call"@ {
        Ok(Some(call_stmt_of(e)))
    } else if e.name == "return"@ {
        Ok(Some(return_of(e)))
    } else if e.name == "if"@ {
        match if_of(e) {
            Ok(st) => Ok(Some(st)),
            Err(m) => Err(m),
        }
    } else if e.name == "assign"@ {
        Ok(assign_of(e))
    } else if e.name == "print"@ {
        Ok(Some(print_of(e)))
    } else {
        Ok(None)
    }
}

/// The statements of a function body, or the first structural fault.
pub open spec fn body_items(nodes: Seq<XNode>) -> Result<Seq<StmtM>, Missing>
    decreases nodes.len(),
{
    if nodes.len() == 0 {
        Ok(seq![])
    } else {
        match body_items(nodes.drop_last()) {
            Err(m) => Err(m),
            Ok(prev) => match nodes.last() {
                XNode::Element(e) => match body_item(e) {
                    Err(m) => Err(m),
                    Ok(Some(st)) => Ok(prev.push(st)),
                    Ok(None) => Ok(prev),
                },
                _ => Ok(prev),
            },
        }
    }
}

proof fn lemma_stmts_push(v: Seq<Stmt>, x: Stmt)
    ensures
        stmts_model(v.push(x)) == stmts_model(v).push(x@),
{
    assert(v.push(x).drop_last() =~= v);
}

fn print_stmt(e: &XmlElement) -> (r: Stmt)
    ensures
        r@ == print_of(e@),
{
    let t = strip(&e.text(), false);
    Stmt::Print(classify(&t))
}

fn assign_stmt(e: &XmlElement) -> (r: Option<Stmt>)
    ensures
        assign_of(e@) == match r {
            Some(st) => Some(st@),
            None => None::<StmtM>,
        },
{
    match e.leading() {
        Some(x) => {
            let var = attribute_or_empty(e, "var");
            let expr = parse_expr(x);
            Some(Stmt::Assign { var, expr })
        },
        None => None,
    }
}

fn call_stmt(e: &XmlElement) -> (r: Stmt)
    ensures
        r@ == call_stmt_of(e@),
{
    let name = attribute_or_empty(e, "function");
    let args = call_arguments(e);
    Stmt::Call(name, args)
}

fn loop_item_stmt(e: &XmlElement) -> (r: Result<Option<Stmt>, Missing>)
    ensures
        loop_item(e@) == match r {
            Ok(Some(st)) => Ok(Some(st@)),
            Ok(None) => Ok(None::<StmtM>),
            Err(m) => Err::<Option<StmtM>, Missing>(m),
        },
    decreases e, 1nat,
{
    if same_text(e.name.as_str(), "print") {
        Ok(Some(print_stmt(e)))
    } else if same_text(e.name.as_str(), "assign") {
        Ok(assign_stmt(e))
    } else if same_text(e.name.as_str(), "call") {
        Ok(Some(call_stmt(e)))
    } else if same_text(e.name.as_str(), "if") {
        match if_stmt(e) {
            Ok(st) => Ok(Some(st)),
            Err(m) => Err(m),
        }
    } else if same_text(e.name.as_str(), "loop") {
        match loop_stmt(e) {
            Ok(st) => Ok(Some(st)),
            Err(m) => Err(m),
        }
    } else {
        Ok(None)
    }
}

proof fn lemma_loop_items_err(m: Seq<XNode>, k: int)
    requires
        0 <= k <= m.len(),
        loop_items(m.take(k)) is Err,
    ensures
        loop_items(m) == loop_items(m.take(k)),
    decreases m.len() - k,
{
    if k < m.len() {
        assert(m.take(k + 1).drop_last() =~= m.take(k));
        lemma_loop_items_err(m, k + 1);
    } else {
        assert(m.take(k) =~= m);
    }
}

fn loop_body(e: &XmlElement) -> (r: Result<Vec<Stmt>, Missing>)
    ensures
        loop_items(e@.children) == match r {
            Ok(v) => Ok(stmts_model(v@)),
            Err(m) => Err::<Seq<StmtM>, Missing>(m),
        },
    decreases e, 0nat, 0nat,
{
    let ghost m = e@.children;
    proof {
        lemma_nodes_model(e.children@);
    }
    let mut out: Vec<Stmt> = Vec::new();
    let mut i: usize = 0;
    while i < e.children.len()
        invariant
            i <= e.children.len(),
            m == e@.children,
            m.len() == e.children@.len(),
            forall|k: int| 0 <= k < m.len() ==> #[trigger] m[k] == node_model(e.children@[k]),
            loop_items(m.take(i as int)) == Ok::<Seq<StmtM>, Missing>(stmts_model(out@)),
        decreases e.children.len() - i,
    {
        assert(m.take(i + 1).drop_last() =~= m.take(i as int));
        assert(m.take(i + 1).last() == m[i as int]);
        match &e.children[i] {
            XmlNode::Element(c) => {
                match loop_item_stmt(c) {
                    Ok(Some(st)) => {
                        proof {
                            lemma_stmts_push(out@, st);
                        }
                        out.push(st);
                    },
                    Ok(None) => {},
                    Err(fault) => {
                        proof {
                            lemma_loop_items_err(m, i as int + 1);
                        }
                        return Err(fault);
                    },
                }
            },
            _ => {},
        }
        i = i + 1;
    }
    assert(m.take(i as int) =~= m);
    Ok(out)
}

fn branch_body(e: &XmlElement) -> (r: Vec<Stmt>)
    ensures
        stmts_model(r@) == branch_items(e@.children),
{
    let ghost m = e@.children;
    proof {
        lemma_nodes_model(e.children@);
    }
    let mut out: Vec<Stmt> = Vec::new();
    let mut i: usize = 0;
    while i < e.children.len()
        invariant
            i <= e.children.len(),
            m == e@.children,
            m.len() == e.children@.len(),
            forall|k: int| 0 <= k < m.len() ==> #[trigger] m[k] == node_model(e.children@[k]),
            stmts_model(out@) == branch_items(m.take(i as int)),
        decreases e.children.len() - i,
    {
        assert(m.take(i + 1).drop_last() =~= m.take(i as int));
        assert(m.take(i + 1).last() == m[i as int]);
        match &e.children[i] {
            XmlNode::Element(c) => {
                if same_text(c.name.as_str(), "print") {
                    let st = print_stmt(c);
                    proof {
                        lemma_stmts_push(out@, st);
                    }
                    out.push(st);
                }
            },
            _ => {},
        }
        i = i + 1;
    }
    assert(m.take(i as int) =~= m);
    out
}

fn if_stmt(e: &XmlElement) -> (r: Result<Stmt, Missing>)
    ensures
        if_of(e@) == match r {
            Ok(st) => Ok(st@),
            Err(m) => Err::<StmtM, Missing>(m),
        },
{
    let c = match e.child("condition") {
        Some(c) => c,
        None => {
            return Err(Missing::Condition);
        },
    };
    let cond = match c.leading() {
        Some(x) => parse_expr(x),
        None => {
            let t = strip(&c.text(), false);
            number_or_variable(&t)
        },
    };
    let t = match e.child("then") {
        Some(t) => t,
        None => {
            return Err(Missing::Then);
        },
    };
    let then_body = branch_body(t);
    let f = match e.child("else") {
        Some(f) => f,
        None => {
            return Err(Missing::Else);
        },
    };
    let else_body = branch_body(f);
    Ok(Stmt::If { cond, then_body, else_body })
}

fn loop_stmt(e: &XmlElement) -> (r: Result<Stmt, Missing>)
    ensures
        loop_of(e@) == match r {
            Ok(st) => Ok(st@),
            Err(m) => Err::<StmtM, Missing>(m),
        },
    decreases e, 0nat,
{
    let times = match e.attribute("times") {
        Some(v) => chars_of(v.as_str()),
        None => {
            let mut z: Vec<char> = Vec::new();
            z.push('0');
            assert(z@ =~= seq!['0']);
            z
        },
    };
    let count = parse_text_expr(&times);
    match loop_body(e) {
        Ok(body) => Ok(Stmt::Loop { count, body }),
        Err(m) => Err(m),
    }
}

fn return_stmt(e: &XmlElement) -> (r: Stmt)
    ensures
        r@ == return_of(e@),
{
    match e.leading() {
        Some(x) => Stmt::Return(parse_expr(x)),
        None => Stmt::Return(parse_text_expr(&e.text())),
    }
}

fn body_stmt(e: &XmlElement) -> (r: Result<Option<Stmt>, Missing>)
    ensures
        body_item(e@) == match r {
            Ok(Some(st)) => Ok(Some(st@)),
            Ok(None) => Ok(None::<StmtM>),
            Err(m) => Err::<Option<StmtM>, Missing>(m),
        },
{
    let name = e.name.as_str();
    if same_text(name, "loop") {
        match loop_stmt(e) {
            Ok(st) => Ok(Some(st)),
            Err(m) => Err(m),
        }
    } else if same_text(name, "call") {
        Ok(Some(call_stmt(e)))
    } else if same_text(name, "return") {
        Ok(Some(return_stmt(e)))
    } else if same_text(name, "if") {
        match if_stmt(e) {
            Ok(st) => Ok(Some(st)),
            Err(m) => Err(m),
        }
    } else if same_text(name, "assign") {
        Ok(assign_stmt(e))
    } else if same_text(name, "print") {
        Ok(Some(print_stmt(e)))
    } else {
        Ok(None)
    }
}

/// The statements of a `body` element, in order.
pub fn parse_body(e: &XmlElement) -> (r: Result<Vec<Stmt>, Missing>)
    ensures
        body_items(e@.children) == match r {
            Ok(v) => Ok(stmts_model(v@)),
            Err(m) => Err::<Seq<StmtM>, Missing>(m),
        },
{
    let ghost m = e@.children;
    proof {
        lemma_nodes_model(e.children@);
    }
    let mut out: Vec<Stmt> = Vec::new();
    let mut i: usize = 0;
    while i < e.children.len()
        invariant
            i <= e.children.len(),
            m == e@.children,
            m.len() == e.children@.len(),
            forall|k: int| 0 <= k < m.len() ==> #[trigger] m[k] == node_model(e.children@[k]),
            body_items(m.take(i as int)) == Ok::<Seq<StmtM>, Missing>(stmts_model(out@)),
        decreases e.children.len() - i,
    {
        assert(m.take(i + 1).drop_last() =~= m.take(i as int));
        assert(m.take(i + 1).last() == m[i as int]);
        match &e.children[i] {
            XmlNode::Element(c) => {
                match body_stmt(c) {
                    Ok(Some(st)) => {
                        proof {
                            lemma_stmts_push(out@, st);
                        }
                        out.push(st);
                    },
                    Ok(None) => {},
                    Err(fault) => {
                        proof {
                            lemma_body_items_err(m, i as int + 1);
                        }
                        return Err(fault);
                    },
                }
            },
            _ => {},
        }
        i = i + 1;
    }
    assert(m.take(i as int) =~= m);
    Ok(out)
}

proof fn lemma_body_items_err(m: Seq<XNode>, k: int)
    requires
        0 <= k <= m.len(),
        body_items(m.take(k)) is Err,
    ensures
        body_items(m) == body_items(m.take(k)),
    decreases m.len() - k,
{
    if k < m.len() {
        assert(m.take(k + 1).drop_last() =~= m.take(k));
        lemma_body_items_err(m, k + 1);
    } else {
        assert(m.take(k) =~= m);
    }
}

/// The trimmed text of the first `description` child, if any.
pub open spec fn description_of(nodes: Seq<XNode>) -> Option<Seq<char>> {
    match child_named(nodes, "description"@) {
        Some(d) => Some(trim(text_of(d.children))),
        None => None,
    }
}

pub open spec fn param_of(p: XElem) -> ParamM {
    ParamM {
        name: attr_or_empty(p, "name"@),
        ptype: attribute_of(p.attributes, "type"@),
        description: description_of(p.children),
    }
}

/// The parameters declared by the `param` child elements, in order.
pub open spec fn params_of(nodes: Seq<XNode>) -> Seq<ParamM>
    decreases nodes.len(),
{
    if nodes.len() == 0 {
        seq![]
    } else {
        let prev = params_of(nodes.drop_last());
        match nodes.last() {
            XNode::Element(p) => if p.name == "param"@ {
                prev.push(param_of(p))
            } else {
                prev
            },
            _ => prev,
        }
    }
}

/// The function that a `function` element defines.
pub open spec fn function_of(e: XElem) -> Result<FunctionM, Missing> {
    let body = match child_named(e.children, "body"@) {
        Some(b) => body_items(b.children),
        None => Ok(seq![]),
    };
    match body {
        Err(m) => Err(m),
        Ok(stmts) => Ok(
            FunctionM {
                name: attr_or_empty(e, "name"@),
                description: description_of(e.children),
                params: params_of(e.children),
                body: stmts,
            },
        ),
    }
}

/// The index of the function named `name` in a table.
pub open spec fn function_index(fs: Seq<FunctionM>, name: Seq<char>) -> Option<int>
    decreases fs.len(),
{
    if fs.len() == 0 {
        None
    } else {
        match function_index(fs.drop_last(), name) {
            Some(i) => Some(i),
            None => if fs.last().name == name {
                Some(fs.len() - 1)
            } else {
                None
            },
        }
    }
}

/// Adds `f` to a table: it replaces the function of the same name, or
/// comes last where there is none.
pub open spec fn insert_function(fs: Seq<FunctionM>, f: FunctionM) -> Seq<FunctionM> {
    match function_index(fs, f.name) {
        Some(i) => fs.update(i, f),
        None => fs.push(f),
    }
}

/// Adds each function that a `function` element among `nodes` defines, in
/// order, or gives the first structural fault.
pub open spec fn add_functions(fs: Seq<FunctionM>, nodes: Seq<XNode>) -> Result<
    Seq<FunctionM>,
    Missing,
>
    decreases nodes.len(),
{
    if nodes.len() == 0 {
        Ok(fs)
    } else {
        match add_functions(fs, nodes.drop_last()) {
            Err(m) => Err(m),
            Ok(prev) => match nodes.last() {
                XNode::Element(e) => if e.name == "function"@ {
                    match function_of(e) {
                        Ok(f) => Ok(insert_function(prev, f)),
                        Err(m) => Err(m),
                    }
                } else {
                    Ok(prev)
                },
                _ => Ok(prev),
            },
        }
    }
}

pub open spec fn table_model(v: Seq<Function>) -> Seq<FunctionM> {
    v.map_values(|f: Function| f@)
}

pub proof fn lemma_function_index(fs: Seq<FunctionM>, name: Seq<char>)
    ensures
        match function_index(fs, name) {
            Some(i) => 0 <= i < fs.len() && fs[i].name == name && forall|k: int|
                0 <= k < i ==> fs[k].name != name,
            None => forall|k: int| 0 <= k < fs.len() ==> fs[k].name != name,
        },
    decreases fs.len(),
{
    if fs.len() > 0 {
        let d = fs.drop_last();
        lemma_function_index(d, name);
        assert forall|k: int| 0 <= k < fs.len() - 1 implies #[trigger] d[k] == fs[k] by {}
        match function_index(d, name) {
            Some(i) => {
                assert(function_index(fs, name) == Some(i));
                assert forall|k: int| 0 <= k < i implies fs[k].name != name by {
                    assert(d[k] == fs[k]);
                }
            },
            None => {
                if fs.last().name == name {
                    assert(function_index(fs, name) == Some(fs.len() - 1));
                    assert forall|k: int| 0 <= k < fs.len() - 1 implies fs[k].name != name by {
                        assert(d[k] == fs[k]);
                    }
                } else {
                    assert(function_index(fs, name) is None);
                    assert forall|k: int| 0 <= k < fs.len() implies fs[k].name != name by {
                        if k < fs.len() - 1 {
                            assert(d[k] == fs[k]);
                        }
                    }
                }
            },
        }
    }
}

pub proof fn lemma_function_index_first(fs: Seq<FunctionM>, name: Seq<char>, i: int)
    requires
        0 <= i < fs.len(),
        fs[i].name == name,
        forall|k: int| 0 <= k < i ==> fs[k].name != name,
    ensures
        function_index(fs, name) == Some(i),
{
    lemma_function_index(fs, name);
}

fn description(nodes_of: &XmlElement) -> (r: Option<String>)
    ensures
        description_of(nodes_of@.children) == opt_text(r),
{
    match nodes_of.child("description") {
        Some(d) => {
            let t = strip(&d.text(), false);
            Some(string_of(&t))
        },
        None => None,
    }
}

fn parse_param(p: &XmlElement) -> (r: Param)
    ensures
        r@ == param_of(p@),
{
    let name = attribute_or_empty(p, "name");
    let ptype = match p.attribute("type") {
        Some(t) => Some(t.clone()),
        None => None,
    };
    let description = description(p);
    Param { name, ptype, description }
}

fn parse_params(e: &XmlElement) -> (r: Vec<Param>)
    ensures
        r@.map_values(|p: Param| p@) == params_of(e@.children),
{
    let ghost m = e@.children;
    proof {
        lemma_nodes_model(e.children@);
    }
    let mut out: Vec<Param> = Vec::new();
    let mut i: usize = 0;
    while i < e.children.len()
        invariant
            i <= e.children.len(),
            m == e@.children,
            m.len() == e.children@.len(),
            forall|k: int| 0 <= k < m.len() ==> #[trigger] m[k] == node_model(e.children@[k]),
            out@.map_values(|p: Param| p@) == params_of(m.take(i as int)),
        decreases e.children.len() - i,
    {
        assert(m.take(i + 1).drop_last() =~= m.take(i as int));
        assert(m.take(i + 1).last() == m[i as int]);
        match &e.children[i] {
            XmlNode::Element(c) => {
                if same_text(c.name.as_str(), "param") {
                    let prm = parse_param(c);
                    let ghost before = out@;
                    out.push(prm);
                    assert(out@.map_values(|p: Param| p@) =~= before.map_values(|p: Param| p@).push(
                        prm@,
                    ));
                }
            },
            _ => {},
        }
        i = i + 1;
    }
    assert(m.take(i as int) =~= m);
    out
}

/// The function that a `function` element defines.
pub fn parse_function(e: &XmlElement) -> (r: Result<Function, Missing>)
    ensures
        function_of(e@) == match r {
            Ok(f) => Ok(f@),
            Err(m) => Err::<FunctionM, Missing>(m),
        },
{
    let body = match e.child("body") {
        Some(b) => parse_body(b)?,
        None => Vec::new(),
    };
    let name = attribute_or_empty(e, "name");
    let description = description(e);
    let params = parse_params(e);
    Ok(Function { name, description, params, body })
}

/// Adds `f` to the table, replacing the function of the same name.
pub fn insert_into(table: &mut Vec<Function>, f: Function)
    ensures
        table_model(final(table)@) == insert_function(table_model(old(table)@), f@),
{
    let ghost m = table_model(table@);
    let mut i: usize = 0;
    while i < table.len()
        invariant
            i <= table.len(),
            m == table_model(table@),
            m == table_model(old(table)@),
            forall|k: int| 0 <= k < i ==> #[trigger] m[k].name != f@.name,
        decreases table.len() - i,
    {
        if same_text(table[i].name.as_str(), f.name.as_str()) {
            assert(m[i as int] == table@[i as int]@);
            proof {
                lemma_function_index_first(m, f@.name, i as int);
            }
            assert(insert_function(m, f@) == m.update(i as int, f@));
            let ghost fv = f@;
            table.set(i, f);
            assert(table_model(table@) =~= m.update(i as int, fv));
            return;
        }
        i = i + 1;
    }
    proof {
        lemma_function_index(m, f@.name);
    }
    let ghost fv = f@;
    table.push(f);
    assert(table_model(table@) =~= m.push(fv));
}

/// Adds the functions that `root`'s `function` children define, in order.
pub fn add_parsed_functions(table: &mut Vec<Function>, root: &XmlElement) -> (r: Result<(), Missing>)
    ensures
        add_functions(table_model(old(table)@), root@.children) == match r {
            Ok(()) => Ok(table_model(final(table)@)),
            Err(m) => Err::<Seq<FunctionM>, Missing>(m),
        },
{
    let ghost m = root@.children;
    let ghost start = table_model(table@);
    proof {
        lemma_nodes_model(root.children@);
    }
    let mut i: usize = 0;
    assert(m.take(0) =~= seq![]);
    while i < root.children.len()
        invariant
            i <= root.children.len(),
            start == table_model(old(table)@),
            m == root@.children,
            m.len() == root.children@.len(),
            forall|k: int| 0 <= k < m.len() ==> #[trigger] m[k] == node_model(root.children@[k]),
            add_functions(start, m.take(i as int)) == Ok::<Seq<FunctionM>, Missing>(
                table_model(table@),
            ),
        decreases root.children.len() - i,
    {
        assert(m.take(i + 1).drop_last() =~= m.take(i as int));
        assert(m.take(i + 1).last() == m[i as int]);
        match &root.children[i] {
            XmlNode::Element(c) => {
                if same_text(c.name.as_str(), "function") {
                    match parse_function(c) {
                        Ok(f) => {
                            insert_into(table, f);
                        },
                        Err(fault) => {
                            assert(m[i as int] == XNode::Element(c@));
                            assert(add_functions(start, m.take(i + 1)) is Err);
                            proof {
                                lemma_add_functions_err(start, m, i as int + 1);
                            }
                            return Err(fault);
                        },
                    }
                }
            },
            _ => {},
        }
        i = i + 1;
    }
    assert(m.take(i as int) =~= m);
    Ok(())
}

proof fn lemma_add_functions_err(fs: Seq<FunctionM>, m: Seq<XNode>, k: int)
    requires
        0 <= k <= m.len(),
        add_functions(fs, m.take(k)) is Err,
    ensures
        add_functions(fs, m) == add_functions(fs, m.take(k)),
    decreases m.len() - k,
{
    if k < m.len() {
        assert(m.take(k + 1).drop_last() =~= m.take(k));
        lemma_add_functions_err(fs, m, k + 1);
    } else {
        assert(m.take(k) =~= m);
    }
}

/// A function table holds at most one function of each name.
pub open spec fn unique_names(fs: Seq<FunctionM>) -> bool {
    forall|i: int, j: int| 0 <= i < j < fs.len() ==> #[trigger] fs[i].name != #[trigger] fs[j].name
}

/// Adding a function keeps the names of a table unique.
pub proof fn insert_keeps_names_unique(fs: Seq<FunctionM>, f: FunctionM)
    requires
        unique_names(fs),
    ensures
        unique_names(insert_function(fs, f)),
{
    lemma_function_index(fs, f.name);
    let r = insert_function(fs, f);
    match function_index(fs, f.name) {
        Some(k) => {
            assert forall|i: int, j: int| 0 <= i < j < r.len() implies #[trigger] r[i].name
                != #[trigger] r[j].name by {
                assert(r[i].name == fs[i].name);
                assert(r[j].name == fs[j].name);
            }
        },
        None => {
            assert forall|i: int, j: int| 0 <= i < j < r.len() implies #[trigger] r[i].name
                != #[trigger] r[j].name by {
                if j < fs.len() {
                    assert(r[i] == fs[i] && r[j] == fs[j]);
                } else {
                    assert(r[i] == fs[i]);
                }
            }
        },
    }
}

/// Adding the functions of a document keeps the names of a table unique.
pub proof fn add_functions_keeps_names_unique(fs: Seq<FunctionM>, nodes: Seq<XNode>)
    requires
        unique_names(fs),
    ensures
        add_functions(fs, nodes) is Ok ==> unique_names(add_functions(fs, nodes)->Ok_0),
    decreases nodes.len(),
{
    if nodes.len() > 0 {
        add_functions_keeps_names_unique(fs, nodes.drop_last());
        match add_functions(fs, nodes.drop_last()) {
            Ok(prev) => match nodes.last() {
                XNode::Element(e) => if e.name == "function"@ {
                    match function_of(e) {
                        Ok(f) => insert_keeps_names_unique(prev, f),
                        Err(_) => {},
                    }
                },
                _ => {},
            },
            Err(_) => {},
        }
    }
}

} // verus!
