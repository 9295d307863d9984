//! The evaluator: runs a program's `main` function over one flat frame of
//! integer variables.
//!
//! A call evaluates its arguments left to right, binds them to the
//! callee's parameters in a fresh frame, and evaluates the callee's first
//! `return` there (0 where it has none). The caller's frame is never
//! handed to the callee, so it is the same after the call on every path.
//! Arithmetic wraps at 64 bits; division and remainder round toward zero.
use vstd::prelude::*;
use crate::ast::{exprs_model, stmts_model, BinOp, Expr, ExprM, ParamM, Program, ProgramM, Stmt, StmtM};
use crate::builder::{function_index, lemma_function_index, lemma_function_index_first};
use crate::error::{ErrorKind, Fault, XplError};
use crate::position::{find_pos, find_pos_spec};
use crate::text::{decimal_of, decimal_text, same_text, string_of};
use vstd::utf8::encode_utf8;
use vstd::wrapping::i64_specs;

verus! {

/// How deeply calls may nest. A deeper call fails with
/// `CallDepthExceeded` instead of exhausting the native stack, so every
/// evaluation ends.
pub const MAX_CALL_DEPTH: usize = 1000;

/// The index of the binding of `name` in a frame.
pub open spec fn var_index(frame: Seq<(Seq<char>, i64)>, name: Seq<char>) -> Option<int>
    decreases frame.len(),
{
    if frame.len() == 0 {
        None
    } else {
        match var_index(frame.drop_last(), name) {
            Some(i) => Some(i),
            None => if frame.last().0 == name {
                Some(frame.len() - 1)
            } else {
                None
            },
        }
    }
}

/// The value bound to `name`.
pub open spec fn lookup(frame: Seq<(Seq<char>, i64)>, name: Seq<char>) -> Option<i64> {
    match var_index(frame, name) {
        Some(i) => Some(frame[i].1),
        None => None,
    }
}

/// The frame with `name` bound to `v`: the binding is replaced, or added
/// last.
pub open spec fn assign(frame: Seq<(Seq<char>, i64)>, name: Seq<char>, v: i64) -> Seq<
    (Seq<char>, i64),
> {
    match var_index(frame, name) {
        Some(i) => frame.update(i, (name, v)),
        None => frame.push((name, v)),
    }
}

/// A fresh frame binding the first `n` parameters to the first `n`
/// arguments, in order.
pub open spec fn bind(params: Seq<ParamM>, args: Seq<i64>, n: nat) -> Seq<(Seq<char>, i64)>
    decreases n,
{
    if n == 0 {
        seq![]
    } else {
        assign(bind(params, args, (n - 1) as nat), params[n - 1].name, args[n - 1])
    }
}

pub open spec fn magnitude(a: int) -> nat {
    if a < 0 {
        (-a) as nat
    } else {
        a as nat
    }
}

/// Quotient rounded toward zero.
pub open spec fn quotient(a: int, b: int) -> int {
    let q = (magnitude(a) / magnitude(b)) as int;
    if (a < 0) != (b < 0) {
        -q
    } else {
        q
    }
}

/// Remainder with the sign of the dividend.
pub open spec fn remainder(a: int, b: int) -> int {
    let r = (magnitude(a) % magnitude(b)) as int;
    if a < 0 {
        -r
    } else {
        r
    }
}

/// The result of an arithmetic operator on two values, with wrapping
/// 64-bit arithmetic, or a division by zero.
pub open spec fn apply(op: BinOp, a: i64, b: i64) -> Result<i64, Fault> {
    match op {
        BinOp::Add => Ok(i64_specs::wrapping_add(a, b)),
        BinOp::Subtract => Ok(i64_specs::wrapping_sub(a, b)),
        BinOp::Multiply => Ok(i64_specs::wrapping_mul(a, b)),
        BinOp::Divide => if b == 0 {
            Err(Fault::DivisionByZero)
        } else {
            Ok(i64_specs::signed_crop(quotient(a as int, b as int)))
        },
        BinOp::Modulus => if b == 0 {
            Err(Fault::DivisionByZero)
        } else {
            Ok(remainder(a as int, b as int) as i64)
        },
    }
}

/// The first `return` statement of a body, if any.
pub open spec fn first_return(body: Seq<StmtM>) -> Option<ExprM>
    decreases body.len(),
{
    if body.len() == 0 {
        None
    } else {
        match body[0] {
            StmtM::Return(e) => Some(e),
            _ => first_return(body.drop_first()),
        }
    }
}

/// The value of an expression in a frame, where calls may nest `depth`
/// deep.
pub open spec fn eval(p: ProgramM, frame: Seq<(Seq<char>, i64)>, e: ExprM, depth: nat) -> Result<
    i64,
    Fault,
>
    decreases depth, 1nat, e,
{
    match e {
        ExprM::LiteralInt(i) => Ok(i),
        ExprM::LiteralStr(_) => Err(Fault::UnsupportedExpression),
        ExprM::VarRef(n) => match lookup(frame, n) {
            Some(v) => Ok(v),
            None => Err(Fault::UndefinedVariable(n)),
        },
        ExprM::BinaryOp(op, l, r) => match eval(p, frame, *l, depth) {
            Err(f) => Err(f),
            Ok(a) => match eval(p, frame, *r, depth) {
                Err(f) => Err(f),
                Ok(b) => apply(op, a, b),
            },
        },
        ExprM::Call(name, args) => match eval_args(p, frame, args, depth) {
            Err(f) => Err(f),
            Ok(vals) => call(p, name, vals, depth),
        },
    }
}

/// The values of the arguments, left to right, or the first failure.
pub open spec fn eval_args(
    p: ProgramM,
    frame: Seq<(Seq<char>, i64)>,
    args: Seq<ExprM>,
    depth: nat,
) -> Result<Seq<i64>, Fault>
    decreases depth, 1nat, args,
{
    if args.len() == 0 {
        Ok(seq![])
    } else {
        match eval_args(p, frame, args.drop_last(), depth) {
            Err(f) => Err(f),
            Ok(vals) => match eval(p, frame, args.last(), depth) {
                Err(f) => Err(f),
                Ok(v) => Ok(vals.push(v)),
            },
        }
    }
}

/// The result of calling the function `name` on argument values: the
/// value of its first `return` in a fresh frame of its parameters, or 0.
pub open spec fn call(p: ProgramM, name: Seq<char>, vals: Seq<i64>, depth: nat) -> Result<
    i64,
    Fault,
>
    decreases depth, 0nat,
{
    match function_index(p.functions, name) {
        None => Err(Fault::UndefinedFunction(name)),
        Some(i) => {
            let f = p.functions[i];
            if f.params.len() != vals.len() {
                Err(
                    Fault::ArityMismatch {
                        function: name,
                        expected: f.params.len(),
                        actual: vals.len(),
                    },
                )
            } else if depth == 0 {
                Err(Fault::CallDepthExceeded)
            } else {
                match first_return(f.body) {
                    None => Ok(0),
                    Some(r) => eval(p, bind(f.params, vals, vals.len()), r, (depth - 1) as nat),
                }
            }
        },
    }
}

/// The variables of `main` and the lines printed so far.
pub struct RunState {
    pub frame: Seq<(Seq<char>, i64)>,
    pub out: Seq<Seq<char>>,
}

/// The line that a `print` of `e` emits: a string literal verbatim, any
/// other expression as the decimal text of its value.
pub open spec fn print_line(p: ProgramM, frame: Seq<(Seq<char>, i64)>, e: ExprM, depth: nat) -> Result<
    Seq<char>,
    Fault,
> {
    match e {
        ExprM::LiteralStr(s) => Ok(s),
        _ => match eval(p, frame, e, depth) {
            Ok(v) => Ok(decimal_text(v as int)),
            Err(f) => Err(f),
        },
    }
}

/// A statement of an `if` branch: assignments and prints take effect, any
/// other statement is passed over.
pub open spec fn branch_step(p: ProgramM, st: RunState, s: StmtM, depth: nat) -> Result<
    RunState,
    Fault,
> {
    match s {
        StmtM::Assign { var, expr } => match eval(p, st.frame, expr, depth) {
            Ok(v) => Ok(RunState { frame: assign(st.frame, var, v), out: st.out }),
            Err(f) => Err(f),
        },
        StmtM::Print(e) => match print_line(p, st.frame, e, depth) {
            Ok(line) => Ok(RunState { frame: st.frame, out: st.out.push(line) }),
            Err(f) => Err(f),
        },
        _ => Ok(st),
    }
}

pub open spec fn branch_run(p: ProgramM, st: RunState, body: Seq<StmtM>, depth: nat) -> Result<
    RunState,
    Fault,
>
    decreases body.len(),
{
    if body.len() == 0 {
        Ok(st)
    } else {
        match branch_run(p, st, body.drop_last(), depth) {
            Ok(mid) => branch_step(p, mid, body.last(), depth),
            Err(f) => Err(f),
        }
    }
}

/// An `if`: the `then` branch where the condition is nonzero, else the
/// `else` branch.
pub open spec fn if_step(
    p: ProgramM,
    st: RunState,
    cond: ExprM,
    then_body: Seq<StmtM>,
    else_body: Seq<StmtM>,
    depth: nat,
) -> Result<RunState, Fault> {
    match eval(p, st.frame, cond, depth) {
        Ok(c) => branch_run(p, st, if c != 0 { then_body } else { else_body }, depth),
        Err(f) => Err(f),
    }
}

/// A call made for its effect: its value is dropped, its failure is not.
pub open spec fn call_step(
    p: ProgramM,
    st: RunState,
    name: Seq<char>,
    args: Seq<ExprM>,
    depth: nat,
) -> Result<RunState, Fault> {
    match eval(p, st.frame, ExprM::Call(name, args), depth) {
        Ok(_) => Ok(st),
        Err(f) => Err(f),
    }
}

/// A statement of a `loop` body: assignments, prints and calls take
/// effect, an `if` runs its branch one level deep, a nested `loop` and a
/// `return` are passed over.
pub open spec fn loop_step(p: ProgramM, st: RunState, s: StmtM, depth: nat) -> Result<
    RunState,
    Fault,
> {
    match s {
        StmtM::If { cond, then_body, else_body } => if_step(
            p,
            st,
            cond,
            then_body,
            else_body,
            depth,
        ),
        StmtM::Call(name, args) => call_step(p, st, name, args, depth),
        _ => branch_step(p, st, s, depth),
    }
}

pub open spec fn loop_pass(p: ProgramM, st: RunState, body: Seq<StmtM>, depth: nat) -> Result<
    RunState,
    Fault,
>
    decreases body.len(),
{
    if body.len() == 0 {
        Ok(st)
    } else {
        match loop_pass(p, st, body.drop_last(), depth) {
            Ok(mid) => loop_step(p, mid, body.last(), depth),
            Err(f) => Err(f),
        }
    }
}

/// `n` passes over a loop body.
pub open spec fn loop_repeat(p: ProgramM, st: RunState, body: Seq<StmtM>, n: nat, depth: nat) -> Result<
    RunState,
    Fault,
>
    decreases n,
{
    if n == 0 {
        Ok(st)
    } else {
        match loop_repeat(p, st, body, (n - 1) as nat, depth) {
            Ok(mid) => loop_pass(p, mid, body, depth),
            Err(f) => Err(f),
        }
    }
}

/// The number of passes a loop count asks for: none where it is not
/// positive.
pub open spec fn pass_count(c: i64) -> nat {
    if c > 0 {
        c as nat
    } else {
        0
    }
}

/// A statement of `main`.
pub open spec fn top_step(p: ProgramM, st: RunState, s: StmtM, depth: nat) -> Result<
    RunState,
    Fault,
> {
    match s {
        StmtM::Loop { count, body } => match eval(p, st.frame, count, depth) {
            Ok(c) => loop_repeat(p, st, body, pass_count(c), depth),
            Err(f) => Err(f),
        },
        _ => loop_step(p, st, s, depth),
    }
}

pub open spec fn top_run(p: ProgramM, st: RunState, body: Seq<StmtM>, depth: nat) -> Result<
    RunState,
    Fault,
>
    decreases body.len(),
{
    if body.len() == 0 {
        Ok(st)
    } else {
        match top_run(p, st, body.drop_last(), depth) {
            Ok(mid) => top_step(p, mid, body.last(), depth),
            Err(f) => Err(f),
        }
    }
}

/// Running `main` from a frame: the final state, or the first failure.
pub open spec fn run_main(p: ProgramM, frame: Seq<(Seq<char>, i64)>) -> Result<RunState, Fault> {
    match function_index(p.functions, "main"@) {
        None => Err(Fault::NoMainFunction),
        Some(i) => top_run(
            p,
            RunState { frame, out: seq![] },
            p.functions[i].body,
            MAX_CALL_DEPTH as nat,
        ),
    }
}

pub open spec fn frame_model(v: Seq<(String, i64)>) -> Seq<(Seq<char>, i64)> {
    v.map_values(|b: (String, i64)| (b.0@, b.1))
}

pub open spec fn lines_model(v: Seq<String>) -> Seq<Seq<char>> {
    v.map_values(|s: String| s@)
}

pub open spec fn value_result(r: Result<i64, ErrorKind>) -> Result<i64, Fault> {
    match r {
        Ok(v) => Ok(v),
        Err(k) => Err(k@),
    }
}

pub proof fn lemma_var_index(frame: Seq<(Seq<char>, i64)>, name: Seq<char>)
    ensures
        match var_index(frame, name) {
            Some(i) => 0 <= i < frame.len() && frame[i].0 == name && forall|k: int|
                0 <= k < i ==> frame[k].0 != name,
            None => forall|k: int| 0 <= k < frame.len() ==> frame[k].0 != name,
        },
    decreases frame.len(),
{
    if frame.len() > 0 {
        let d = frame.drop_last();
        lemma_var_index(d, name);
        match var_index(d, name) {
            Some(i) => {
                assert forall|k: int| 0 <= k < i implies frame[k].0 != name by {
                    assert(d[k] == frame[k]);
                }
            },
            None => {
                assert forall|k: int| 0 <= k < frame.len() - 1 implies frame[k].0 != name by {
                    assert(d[k] == frame[k]);
                }
            },
        }
    }
}

proof fn lemma_var_index_first(frame: Seq<(Seq<char>, i64)>, name: Seq<char>, i: int)
    requires
        0 <= i < frame.len(),
        frame[i].0 == name,
        forall|k: int| 0 <= k < i ==> frame[k].0 != name,
    ensures
        var_index(frame, name) == Some(i),
{
    lemma_var_index(frame, name);
}

/// Finds the binding of `name` in a frame.
fn find_var(frame: &Vec<(String, i64)>, name: &str) -> (r: Option<usize>)
    ensures
        var_index(frame_model(frame@), name@) == match r {
            Some(i) => Some(i as int),
            None => None::<int>,
        },
{
    let ghost m = frame_model(frame@);
    let mut i: usize = 0;
    while i < frame.len()
        invariant
            i <= frame.len(),
            m == frame_model(frame@),
            forall|k: int| 0 <= k < i ==> #[trigger] m[k].0 != name@,
        decreases frame.len() - i,
    {
        if same_text(frame[i].0.as_str(), name) {
            proof {
                lemma_var_index_first(m, name@, i as int);
            }
            return Some(i);
        }
        i = i + 1;
    }
    proof {
        lemma_var_index(m, name@);
    }
    None
}

/// Binds `name` to `v`: replaces its binding, or adds one last.
fn set_var(frame: &mut Vec<(String, i64)>, name: String, v: i64)
    ensures
        frame_model(final(frame)@) == assign(frame_model(old(frame)@), name@, v),
{
    let ghost m = frame_model(frame@);
    let ghost n = name@;
    proof {
        lemma_var_index(m, n);
    }
    match find_var(frame, name.as_str()) {
        Some(i) => {
            frame.set(i, (name, v));
            assert(frame_model(frame@) =~= m.update(i as int, (n, v)));
        },
        None => {
            frame.push((name, v));
            assert(frame_model(frame@) =~= m.push((n, v)));
        },
    }
}

/// The position of the function `name` in the program's table.
pub fn function_position(prog: &Program, name: &str) -> (r: Option<usize>)
    ensures
        function_index(prog@.functions, name@) == match r {
            Some(i) => Some(i as int),
            None => None::<int>,
        },
{
    let ghost m = prog@.functions;
    let mut i: usize = 0;
    while i < prog.functions.len()
        invariant
            i <= prog.functions.len(),
            m == prog@.functions,
            m.len() == prog.functions@.len(),
            forall|k: int| 0 <= k < i ==> #[trigger] m[k].name != name@,
        decreases prog.functions.len() - i,
    {
        if same_text(prog.functions[i].name.as_str(), name) {
            proof {
                lemma_function_index_first(m, name@, i as int);
            }
            return Some(i);
        }
        i = i + 1;
    }
    proof {
        lemma_function_index(m, name@);
    }
    None
}

proof fn lemma_first_return(body: Seq<StmtM>, k: int)
    requires
        0 <= k <= body.len(),
        forall|j: int| 0 <= j < k ==> !(body[j] is Return),
    ensures
        first_return(body) == first_return(body.subrange(k, body.len() as int)),
    decreases k,
{
    if k > 0 {
        lemma_first_return(body, k - 1);
        let rest = body.subrange(k - 1, body.len() as int);
        assert(rest[0] == body[k - 1]);
        assert(rest.drop_first() =~= body.subrange(k, body.len() as int));
    } else {
        assert(body.subrange(0, body.len() as int) =~= body);
    }
}

proof fn lemma_stmts_model(s: Seq<Stmt>)
    ensures
        stmts_model(s).len() == s.len(),
        forall|i: int| 0 <= i < s.len() ==> #[trigger] stmts_model(s)[i] == s[i]@,
    decreases s.len(),
{
    if s.len() > 0 {
        lemma_stmts_model(s.drop_last());
        assert forall|i: int| 0 <= i < s.len() implies #[trigger] stmts_model(s)[i] == s[i]@ by {
            if i < s.len() - 1 {
                assert(s.drop_last()[i] == s[i]);
            }
        }
    }
}

proof fn lemma_exprs_model(s: Seq<Expr>)
    ensures
        exprs_model(s).len() == s.len(),
        forall|i: int| 0 <= i < s.len() ==> #[trigger] exprs_model(s)[i] == s[i]@,
    decreases s.len(),
{
    if s.len() > 0 {
        lemma_exprs_model(s.drop_last());
        assert forall|i: int| 0 <= i < s.len() implies #[trigger] exprs_model(s)[i] == s[i]@ by {
            if i < s.len() - 1 {
                assert(s.drop_last()[i] == s[i]);
            }
        }
    }
}

/// The first `return` statement's expression in a body.
fn find_return(body: &Vec<Stmt>) -> (r: Option<&Expr>)
    ensures
        first_return(stmts_model(body@)) == match r {
            Some(e) => Some(e@),
            None => None::<ExprM>,
        },
{
    let ghost m = stmts_model(body@);
    proof {
        lemma_stmts_model(body@);
    }
    let mut i: usize = 0;
    while i < body.len()
        invariant
            i <= body.len(),
            m == stmts_model(body@),
            m.len() == body@.len(),
            forall|k: int| 0 <= k < m.len() ==> #[trigger] m[k] == body@[k]@,
            forall|j: int| 0 <= j < i ==> !(#[trigger] m[j] is Return),
        decreases body.len() - i,
    {
        match &body[i] {
            Stmt::Return(e) => {
                proof {
                    lemma_first_return(m, i as int);
                    assert(m.subrange(i as int, m.len() as int)[0] == m[i as int]);
                }
                return Some(e);
            },
            _ => {},
        }
        i = i + 1;
    }
    proof {
        lemma_first_return(m, i as int);
    }
    None
}

/// Applies an arithmetic operator with wrapping 64-bit arithmetic.
pub fn apply_op(op: BinOp, a: i64, b: i64) -> (r: Result<i64, ErrorKind>)
    ensures
        value_result(r) == apply(op, a, b),
{
    match op {
        BinOp::Add => Ok(a.wrapping_add(b)),
        BinOp::Subtract => Ok(a.wrapping_sub(b)),
        BinOp::Multiply => Ok(a.wrapping_mul(b)),
        BinOp::Divide => {
            if b == 0 {
                return Err(ErrorKind::DivisionByZero);
            }
            let ua: u64 = if a < 0 {
                (0i128 - a as i128) as u64
            } else {
                a as u64
            };
            let ub: u64 = if b < 0 {
                (0i128 - b as i128) as u64
            } else {
                b as u64
            };
            let q: i128 = (ua / ub) as i128;
            let signed: i128 = if (a < 0) != (b < 0) {
                0 - q
            } else {
                q
            };
            proof {
                assert(ua as int == magnitude(a as int));
                assert(ub as int == magnitude(b as int));
                assert(signed == quotient(a as int, b as int));
                assert(0 <= q <= 9223372036854775808) by (nonlinear_arith)
                    requires
                        q == ua / ub,
                        ua <= 9223372036854775808,
                        ub >= 1,
                ;
            }
            if signed == 9223372036854775808 {
                assert(i64_specs::signed_crop(signed as int) == i64::MIN) by {
                    assert((signed as int) % 18446744073709551616 == 9223372036854775808);
                }
                Ok(i64::MIN)
            } else {
                assert(i64_specs::signed_crop(signed as int) == signed as i64) by {
                    assert(-9223372036854775808 <= signed < 9223372036854775808);
                    if signed < 0 {
                        assert((signed as int) % 18446744073709551616 == signed + 18446744073709551616);
                    } else {
                        assert((signed as int) % 18446744073709551616 == signed);
                    }
                }
                Ok(signed as i64)
            }
        },
        BinOp::Modulus => {
            if b == 0 {
                return Err(ErrorKind::DivisionByZero);
            }
            let ua: u64 = if a < 0 {
                (0i128 - a as i128) as u64
            } else {
                a as u64
            };
            let ub: u64 = if b < 0 {
                (0i128 - b as i128) as u64
            } else {
                b as u64
            };
            let m: u64 = ua % ub;
            proof {
                assert(ua as int == magnitude(a as int));
                assert(ub as int == magnitude(b as int));
                assert(m < ub);
            }
            let signed: i128 = if a < 0 {
                0 - m as i128
            } else {
                m as i128
            };
            assert(signed == remainder(a as int, b as int));
            Ok(signed as i64)
        },
    }
}

/// The 1-based position reported with a fault: the line and byte column at
/// which the undefined name first occurs in the source text, or (0, 0) for
/// other faults.
pub open spec fn error_position(f: Fault, source: Seq<char>) -> (nat, nat) {
    match f {
        Fault::UndefinedVariable(n) => {
            let p = find_pos_spec(encode_utf8(source), encode_utf8(n));
            (p.0 + 1, p.1 + 1)
        },
        Fault::UndefinedFunction(n) => {
            let p = find_pos_spec(encode_utf8(source), encode_utf8(n));
            (p.0 + 1, p.1 + 1)
        },
        _ => (0, 0),
    }
}

/// Whether `e` reports the fault `f` in `file`, at its position in `source`.
pub open spec fn reports(e: XplError, f: Fault, file: Seq<char>, source: Seq<char>) -> bool {
    &&& e.kind@ == f
    &&& e.file@ == file
    &&& (e.line as nat, e.col as nat) == error_position(f, source)
}

/// Whether a step's outcome matches the expected one: on success the
/// frame and output are those expected, on failure the fault is.
pub open spec fn step_matches(
    r: Result<(), ErrorKind>,
    expected: Result<RunState, Fault>,
    frame: Seq<(Seq<char>, i64)>,
    out: Seq<Seq<char>>,
) -> bool {
    match expected {
        Ok(st) => r is Ok && frame == st.frame && out == st.out,
        Err(f) => r is Err && r->Err_0@ == f,
    }
}

proof fn lemma_eval_args_err(p: ProgramM, frame: Seq<(Seq<char>, i64)>, args: Seq<ExprM>, k: int, d: nat)
    requires
        0 <= k <= args.len(),
        eval_args(p, frame, args.take(k), d) is Err,
    ensures
        eval_args(p, frame, args, d) == eval_args(p, frame, args.take(k), d),
    decreases args.len() - k,
{
    if k < args.len() {
        assert(args.take(k + 1).drop_last() =~= args.take(k));
        lemma_eval_args_err(p, frame, args, k + 1, d);
    } else {
        assert(args.take(k) =~= args);
    }
}

proof fn lemma_branch_err(p: ProgramM, st: RunState, body: Seq<StmtM>, k: int, d: nat)
    requires
        0 <= k <= body.len(),
        branch_run(p, st, body.take(k), d) is Err,
    ensures
        branch_run(p, st, body, d) == branch_run(p, st, body.take(k), d),
    decreases body.len() - k,
{
    if k < body.len() {
        assert(body.take(k + 1).drop_last() =~= body.take(k));
        lemma_branch_err(p, st, body, k + 1, d);
    } else {
        assert(body.take(k) =~= body);
    }
}

proof fn lemma_pass_err(p: ProgramM, st: RunState, body: Seq<StmtM>, k: int, d: nat)
    requires
        0 <= k <= body.len(),
        loop_pass(p, st, body.take(k), d) is Err,
    ensures
        loop_pass(p, st, body, d) == loop_pass(p, st, body.take(k), d),
    decreases body.len() - k,
{
    if k < body.len() {
        assert(body.take(k + 1).drop_last() =~= body.take(k));
        lemma_pass_err(p, st, body, k + 1, d);
    } else {
        assert(body.take(k) =~= body);
    }
}

proof fn lemma_top_err(p: ProgramM, st: RunState, body: Seq<StmtM>, k: int, d: nat)
    requires
        0 <= k <= body.len(),
        top_run(p, st, body.take(k), d) is Err,
    ensures
        top_run(p, st, body, d) == top_run(p, st, body.take(k), d),
    decreases body.len() - k,
{
    if k < body.len() {
        assert(body.take(k + 1).drop_last() =~= body.take(k));
        lemma_top_err(p, st, body, k + 1, d);
    } else {
        assert(body.take(k) =~= body);
    }
}

proof fn lemma_repeat_err(p: ProgramM, st: RunState, body: Seq<StmtM>, k: nat, n: nat, d: nat)
    requires
        k <= n,
        loop_repeat(p, st, body, k, d) is Err,
    ensures
        loop_repeat(p, st, body, n, d) == loop_repeat(p, st, body, k, d),
    decreases n - k,
{
    if k < n {
        lemma_repeat_err(p, st, body, k + 1, n, d);
    }
}

/// The evaluator for one run: the variables of `main`, the file being run,
/// and that file's text, used to place errors.
pub struct VM {
    vars: Vec<(String, i64)>,
    file: String,
    source: String,
}

impl VM {
    /// The variables of `main`, in the order they were first assigned.
    pub closed spec fn frame(&self) -> Seq<(Seq<char>, i64)> {
        frame_model(self.vars@)
    }

    pub closed spec fn file(&self) -> Seq<char> {
        self.file@
    }

    pub closed spec fn source(&self) -> Seq<char> {
        self.source@
    }

    /// A VM with no variables, for the file `file` whose text is `source`.
    pub fn new(file: String, source: String) -> (r: VM)
        ensures
            r.frame() == Seq::<(Seq<char>, i64)>::empty(),
            r.file() == file@,
            r.source() == source@,
    {
        let r = VM { vars: Vec::new(), file, source };
        assert(r.frame() =~= Seq::<(Seq<char>, i64)>::empty());
        r
    }

    /// Places a fault in the file.
    fn error(&self, kind: ErrorKind) -> (r: XplError)
        ensures
            reports(r, kind@, self.file(), self.source()),
    {
        let (line, col) = match &kind {
            ErrorKind::UndefinedVariable(n) => {
                let (l, c) = find_pos(self.source.as_str(), n.as_str());
                (l + 1, c + 1)
            },
            ErrorKind::UndefinedFunction(n) => {
                let (l, c) = find_pos(self.source.as_str(), n.as_str());
                (l + 1, c + 1)
            },
            _ => (0, 0),
        };
        XplError { kind, file: self.file.clone(), line, col }
    }

    /// Evaluates an expression in `frame`, where calls may nest `depth` deep.
    pub fn eval_expr(&self, prog: &Program, frame: &Vec<(String, i64)>, expr: &Expr, depth: usize) -> (r:
        Result<i64, ErrorKind>)
        ensures
            value_result(r) == eval(prog@, frame_model(frame@), expr@, depth as nat),
        decreases depth, 1nat, expr,
    {
        match expr {
            Expr::LiteralInt(i) => Ok(*i),
            Expr::LiteralStr(_) => Err(ErrorKind::UnsupportedExpression),
            Expr::VarRef(name) => {
                proof {
                    lemma_var_index(frame_model(frame@), name@);
                }
                match find_var(frame, name.as_str()) {
                    Some(i) => Ok(frame[i].1),
                    None => Err(ErrorKind::UndefinedVariable(name.clone())),
                }
            },
            Expr::BinaryOp(op, l, r) => {
                let a = match self.eval_expr(prog, frame, l, depth) {
                    Ok(a) => a,
                    Err(k) => {
                        return Err(k);
                    },
                };
                let b = match self.eval_expr(prog, frame, r, depth) {
                    Ok(b) => b,
                    Err(k) => {
                        return Err(k);
                    },
                };
                apply_op(*op, a, b)
            },
            Expr::Call(name, args) => {
                let vals = match self.eval_arguments(prog, frame, args, depth) {
                    Ok(v) => v,
                    Err(k) => {
                        return Err(k);
                    },
                };
                self.call_function(prog, name.as_str(), vals, depth)
            },
        }
    }

    /// Evaluates call arguments left to right.
    pub fn eval_arguments(
        &self,
        prog: &Program,
        frame: &Vec<(String, i64)>,
        args: &Vec<Expr>,
        depth: usize,
    ) -> (r: Result<Vec<i64>, ErrorKind>)
        ensures
            eval_args(prog@, frame_model(frame@), exprs_model(args@), depth as nat) == match r {
                Ok(v) => Ok(v@),
                Err(k) => Err::<Seq<i64>, Fault>(k@),
            },
        decreases depth, 1nat, args,
    {
        let ghost m = exprs_model(args@);
        let ghost fm = frame_model(frame@);
        proof {
            lemma_exprs_model(args@);
        }
        let mut vals: Vec<i64> = Vec::new();
        let mut i: usize = 0;
        assert(m.take(0) =~= seq![]);
        while i < args.len()
            invariant
                i <= args.len(),
                m == exprs_model(args@),
                fm == frame_model(frame@),
                m.len() == args@.len(),
                forall|k: int| 0 <= k < m.len() ==> #[trigger] m[k] == args@[k]@,
                eval_args(prog@, fm, m.take(i as int), depth as nat) == Ok::<Seq<i64>, Fault>(
                    vals@,
                ),
            decreases args.len() - i,
        {
            assert(m.take(i + 1).drop_last() =~= m.take(i as int));
            assert(m.take(i + 1).last() == args@[i as int]@);
            match self.eval_expr(prog, frame, &args[i], depth) {
                Ok(v) => {
                    vals.push(v);
                },
                Err(k) => {
                    proof {
                        lemma_eval_args_err(prog@, fm, m, i + 1, depth as nat);
                    }
                    return Err(k);
                },
            }
            i = i + 1;
        }
        assert(m.take(i as int) =~= m);
        Ok(vals)
    }

    /// Calls the function `name` on argument values, in a fresh frame of
    /// its parameters; the caller's frame is not touched.
    pub fn call_function(&self, prog: &Program, name: &str, args: Vec<i64>, depth: usize) -> (r: Result<
        i64,
        ErrorKind,
    >)
        ensures
            value_result(r) == call(prog@, name@, args@, depth as nat),
        decreases depth, 0nat,
    {
        proof {
            lemma_function_index(prog@.functions, name@);
        }
        let idx = match function_position(prog, name) {
            Some(i) => i,
            None => {
                return Err(ErrorKind::UndefinedFunction(name.to_owned()));
            },
        };
        let func = &prog.functions[idx];
        assert(prog@.functions[idx as int] == func@);
        if func.params.len() != args.len() {
            return Err(
                ErrorKind::ArityMismatch {
                    function: name.to_owned(),
                    expected: func.params.len(),
                    actual: args.len(),
                },
            );
        }
        if depth == 0 {
            return Err(ErrorKind::CallDepthExceeded);
        }
        let ghost pm = func@.params;
        let mut locals: Vec<(String, i64)> = Vec::new();
        let mut k: usize = 0;
        assert(frame_model(locals@) =~= bind(pm, args@, 0));
        while k < args.len()
            invariant
                k <= args.len(),
                func.params.len() == args.len(),
                pm == func@.params,
                pm.len() == func.params@.len(),
                frame_model(locals@) == bind(pm, args@, k as nat),
            decreases args.len() - k,
        {
            assert(pm[k as int] == func.params@[k as int]@);
            set_var(&mut locals, func.params[k].name.clone(), args[k]);
            k = k + 1;
        }
        match find_return(&func.body) {
            None => Ok(0),
            Some(e) => self.eval_expr(prog, &locals, e, depth - 1),
        }
    }

    /// The line a `print` of `e` emits.
    fn print_text(&self, prog: &Program, e: &Expr) -> (r: Result<String, ErrorKind>)
        ensures
            print_line(prog@, self.frame(), e@, MAX_CALL_DEPTH as nat) == match r {
                Ok(s) => Ok(s@),
                Err(k) => Err::<Seq<char>, Fault>(k@),
            },
    {
        match e {
            Expr::LiteralStr(s) => Ok(s.clone()),
            _ => match self.eval_expr(prog, &self.vars, e, MAX_CALL_DEPTH) {
                Ok(v) => Ok(string_of(&decimal_of(v))),
                Err(k) => Err(k),
            },
        }
    }

    /// A statement of an `if` branch.
    fn exec_simple(&mut self, prog: &Program, out: &mut Vec<String>, st: &Stmt) -> (r: Result<
        (),
        ErrorKind,
    >)
        ensures
            step_matches(
                r,
                branch_step(
                    prog@,
                    RunState { frame: old(self).frame(), out: lines_model(old(out)@) },
                    st@,
                    MAX_CALL_DEPTH as nat,
                ),
                final(self).frame(),
                lines_model(final(out)@),
            ),
            final(self).file() == old(self).file(),
            final(self).source() == old(self).source(),
    {
        match st {
            Stmt::Assign { var, expr } => {
                match self.eval_expr(prog, &self.vars, expr, MAX_CALL_DEPTH) {
                    Ok(v) => {
                        set_var(&mut self.vars, var.clone(), v);
                        Ok(())
                    },
                    Err(k) => Err(k),
                }
            },
            Stmt::Print(e) => {
                match self.print_text(prog, e) {
                    Ok(line) => {
                        let ghost before = lines_model(out@);
                        let ghost lv = line@;
                        out.push(line);
                        assert(lines_model(out@) =~= before.push(lv));
                        Ok(())
                    },
                    Err(k) => Err(k),
                }
            },
            _ => Ok(()),
        }
    }

    /// The statements of an `if` branch, in order.
    fn exec_branch(&mut self, prog: &Program, out: &mut Vec<String>, body: &Vec<Stmt>) -> (r:
        Result<(), ErrorKind>)
        ensures
            step_matches(
                r,
                branch_run(
                    prog@,
                    RunState { frame: old(self).frame(), out: lines_model(old(out)@) },
                    stmts_model(body@),
                    MAX_CALL_DEPTH as nat,
                ),
                final(self).frame(),
                lines_model(final(out)@),
            ),
            final(self).file() == old(self).file(),
            final(self).source() == old(self).source(),
    {
        let ghost m = stmts_model(body@);
        let ghost init = RunState { frame: self.frame(), out: lines_model(out@) };
        proof {
            lemma_stmts_model(body@);
        }
        let mut i: usize = 0;
        assert(m.take(0) =~= seq![]);
        while i < body.len()
            invariant
                i <= body.len(),
                m == stmts_model(body@),
                m.len() == body@.len(),
                forall|k: int| 0 <= k < m.len() ==> #[trigger] m[k] == body@[k]@,
                init == (RunState { frame: old(self).frame(), out: lines_model(old(out)@) }),
                branch_run(prog@, init, m.take(i as int), MAX_CALL_DEPTH as nat) == Ok::<
                    RunState,
                    Fault,
                >(RunState { frame: self.frame(), out: lines_model(out@) }),
                self.file() == old(self).file(),
                self.source() == old(self).source(),
            decreases body.len() - i,
        {
            assert(m.take(i + 1).drop_last() =~= m.take(i as int));
            assert(m.take(i + 1).last() == body@[i as int]@);
            match self.exec_simple(prog, out, &body[i]) {
                Ok(()) => {},
                Err(k) => {
                    proof {
                        lemma_branch_err(prog@, init, m, i + 1, MAX_CALL_DEPTH as nat);
                    }
                    return Err(k);
                },
            }
            i = i + 1;
        }
        assert(m.take(i as int) =~= m);
        Ok(())
    }

    /// An `if` statement.
    fn exec_if(
        &mut self,
        prog: &Program,
        out: &mut Vec<String>,
        cond: &Expr,
        then_body: &Vec<Stmt>,
        else_body: &Vec<Stmt>,
    ) -> (r: Result<(), ErrorKind>)
        ensures
            step_matches(
                r,
                if_step(
                    prog@,
                    RunState { frame: old(self).frame(), out: lines_model(old(out)@) },
                    cond@,
                    stmts_model(then_body@),
                    stmts_model(else_body@),
                    MAX_CALL_DEPTH as nat,
                ),
                final(self).frame(),
                lines_model(final(out)@),
            ),
            final(self).file() == old(self).file(),
            final(self).source() == old(self).source(),
    {
        match self.eval_expr(prog, &self.vars, cond, MAX_CALL_DEPTH) {
            Ok(c) => {
                if c != 0 {
                    self.exec_branch(prog, out, then_body)
                } else {
                    self.exec_branch(prog, out, else_body)
                }
            },
            Err(k) => Err(k),
        }
    }

    /// A statement of a `loop` body.
    fn exec_loop_item(&mut self, prog: &Program, out: &mut Vec<String>, st: &Stmt) -> (r: Result<
        (),
        ErrorKind,
    >)
        ensures
            step_matches(
                r,
                loop_step(
                    prog@,
                    RunState { frame: old(self).frame(), out: lines_model(old(out)@) },
                    st@,
                    MAX_CALL_DEPTH as nat,
                ),
                final(self).frame(),
                lines_model(final(out)@),
            ),
            final(self).file() == old(self).file(),
            final(self).source() == old(self).source(),
    {
        match st {
            Stmt::If { cond, then_body, else_body } => self.exec_if(
                prog,
                out,
                cond,
                then_body,
                else_body,
            ),
            Stmt::Call(name, args) => {
                let vals = match self.eval_arguments(prog, &self.vars, args, MAX_CALL_DEPTH) {
                    Ok(v) => v,
                    Err(k) => {
                        return Err(k);
                    },
                };
                match self.call_function(prog, name.as_str(), vals, MAX_CALL_DEPTH) {
                    Ok(_) => Ok(()),
                    Err(k) => Err(k),
                }
            },
            _ => self.exec_simple(prog, out, st),
        }
    }

    /// One pass over a `loop` body.
    fn exec_pass(&mut self, prog: &Program, out: &mut Vec<String>, body: &Vec<Stmt>) -> (r: Result<
        (),
        ErrorKind,
    >)
        ensures
            step_matches(
                r,
                loop_pass(
                    prog@,
                    RunState { frame: old(self).frame(), out: lines_model(old(out)@) },
                    stmts_model(body@),
                    MAX_CALL_DEPTH as nat,
                ),
                final(self).frame(),
                lines_model(final(out)@),
            ),
            final(self).file() == old(self).file(),
            final(self).source() == old(self).source(),
    {
        let ghost m = stmts_model(body@);
        let ghost init = RunState { frame: self.frame(), out: lines_model(out@) };
        proof {
            lemma_stmts_model(body@);
        }
        let mut i: usize = 0;
        assert(m.take(0) =~= seq![]);
        while i < body.len()
            invariant
                i <= body.len(),
                m == stmts_model(body@),
                m.len() == body@.len(),
                forall|k: int| 0 <= k < m.len() ==> #[trigger] m[k] == body@[k]@,
                init == (RunState { frame: old(self).frame(), out: lines_model(old(out)@) }),
                loop_pass(prog@, init, m.take(i as int), MAX_CALL_DEPTH as nat) == Ok::<
                    RunState,
                    Fault,
                >(RunState { frame: self.frame(), out: lines_model(out@) }),
                self.file() == old(self).file(),
                self.source() == old(self).source(),
            decreases body.len() - i,
        {
            assert(m.take(i + 1).drop_last() =~= m.take(i as int));
            assert(m.take(i + 1).last() == body@[i as int]@);
            match self.exec_loop_item(prog, out, &body[i]) {
                Ok(()) => {},
                Err(k) => {
                    proof {
                        lemma_pass_err(prog@, init, m, i + 1, MAX_CALL_DEPTH as nat);
                    }
                    return Err(k);
                },
            }
            i = i + 1;
        }
        assert(m.take(i as int) =~= m);
        Ok(())
    }

    /// A `loop`: its count is evaluated once, then the body runs that many
    /// times (none where the count is not positive).
    fn exec_loop(&mut self, prog: &Program, out: &mut Vec<String>, count: &Expr, body: &Vec<Stmt>) -> (r:
        Result<(), ErrorKind>)
        ensures
            step_matches(
                r,
                top_step(
                    prog@,
                    RunState { frame: old(self).frame(), out: lines_model(old(out)@) },
                    StmtM::Loop { count: count@, body: stmts_model(body@) },
                    MAX_CALL_DEPTH as nat,
                ),
                final(self).frame(),
                lines_model(final(out)@),
            ),
            final(self).file() == old(self).file(),
            final(self).source() == old(self).source(),
    {
        let times = match self.eval_expr(prog, &self.vars, count, MAX_CALL_DEPTH) {
            Ok(t) => t,
            Err(k) => {
                return Err(k);
            },
        };
        let ghost m = stmts_model(body@);
        let ghost init = RunState { frame: self.frame(), out: lines_model(out@) };
        let mut n: i64 = 0;
        while n < times
            invariant
                0 <= n,
                times > 0 ==> n <= times,
                times <= 0 ==> n == 0,
                eval(prog@, init.frame, count@, MAX_CALL_DEPTH as nat) == Ok::<i64, Fault>(times),
                m == stmts_model(body@),
                init == (RunState { frame: old(self).frame(), out: lines_model(old(out)@) }),
                loop_repeat(prog@, init, m, n as nat, MAX_CALL_DEPTH as nat) == Ok::<
                    RunState,
                    Fault,
                >(RunState { frame: self.frame(), out: lines_model(out@) }),
                self.file() == old(self).file(),
                self.source() == old(self).source(),
            decreases times - n,
        {
            match self.exec_pass(prog, out, body) {
                Ok(()) => {},
                Err(k) => {
                    proof {
                        lemma_repeat_err(prog@, init, m, (n + 1) as nat, pass_count(times), MAX_CALL_DEPTH as nat);
                    }
                    return Err(k);
                },
            }
            n = n + 1;
        }
        assert(n as nat == pass_count(times));
        Ok(())
    }

    /// A statement of `main`.
    fn exec_top_item(&mut self, prog: &Program, out: &mut Vec<String>, st: &Stmt) -> (r: Result<
        (),
        ErrorKind,
    >)
        ensures
            step_matches(
                r,
                top_step(
                    prog@,
                    RunState { frame: old(self).frame(), out: lines_model(old(out)@) },
                    st@,
                    MAX_CALL_DEPTH as nat,
                ),
                final(self).frame(),
                lines_model(final(out)@),
            ),
            final(self).file() == old(self).file(),
            final(self).source() == old(self).source(),
    {
        match st {
            Stmt::Loop { count, body } => self.exec_loop(prog, out, count, body),
            _ => self.exec_loop_item(prog, out, st),
        }
    }

    /// Runs the program's `main` function and returns the lines it
    /// printed; the VM's frame holds `main`'s variables afterwards.
    pub fn run(&mut self, prog: &Program) -> (r: Result<Vec<String>, XplError>)
        ensures
            function_index(prog@.functions, "main"@) is None ==> final(self).frame() == old(
                self,
            ).frame(),
            match run_main(prog@, old(self).frame()) {
                Ok(st) => r is Ok && lines_model(r->Ok_0@) == st.out && final(self).frame()
                    == st.frame,
                Err(f) => r is Err && reports(r->Err_0, f, old(self).file(), old(self).source()),
            },
            final(self).file() == old(self).file(),
            final(self).source() == old(self).source(),
    {
        let idx = match function_position(prog, "main") {
            Some(i) => i,
            None => {
                return Err(self.error(ErrorKind::NoMainFunction));
            },
        };
        proof {
            lemma_function_index(prog@.functions, "main"@);
        }
        let body = &prog.functions[idx].body;
        assert(prog@.functions[idx as int] == prog.functions@[idx as int]@);
        let mut out: Vec<String> = Vec::new();
        let ghost m = stmts_model(body@);
        let ghost init = RunState { frame: self.frame(), out: lines_model(out@) };
        assert(init.out =~= seq![]);
        assert(run_main(prog@, old(self).frame()) == top_run(prog@, init, m, MAX_CALL_DEPTH as nat));
        proof {
            lemma_stmts_model(body@);
        }
        let mut i: usize = 0;
        assert(m.take(0) =~= seq![]);
        while i < body.len()
            invariant
                i <= body.len(),
                m == stmts_model(body@),
                m.len() == body@.len(),
                forall|k: int| 0 <= k < m.len() ==> #[trigger] m[k] == body@[k]@,
                init == (RunState { frame: old(self).frame(), out: seq![] }),
                run_main(prog@, old(self).frame()) == top_run(prog@, init, m, MAX_CALL_DEPTH as nat),
                function_index(prog@.functions, "main"@) is Some,
                top_run(prog@, init, m.take(i as int), MAX_CALL_DEPTH as nat) == Ok::<
                    RunState,
                    Fault,
                >(RunState { frame: self.frame(), out: lines_model(out@) }),
                self.file() == old(self).file(),
                self.source() == old(self).source(),
            decreases body.len() - i,
        {
            assert(m.take(i + 1).drop_last() =~= m.take(i as int));
            assert(m.take(i + 1).last() == body@[i as int]@);
            match self.exec_top_item(prog, &mut out, &body[i]) {
                Ok(()) => {},
                Err(k) => {
                    proof {
                        lemma_top_err(prog@, init, m, i + 1, MAX_CALL_DEPTH as nat);
                    }
                    return Err(self.error(k));
                },
            }
            i = i + 1;
        }
        assert(m.take(i as int) =~= m);
        Ok(out)
    }
}

} // verus!
