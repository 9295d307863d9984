//! Properties of loading and evaluation, stated over the models and proved.
use vstd::prelude::*;
use crate::ast::{BinOp, ExprM, StmtM, ProgramM};
use crate::builder::function_index;
use crate::error::Fault;
use vstd::wrapping::i64_specs;
use crate::loader::{load_file, SourceM};
use crate::vm::{
    bind, eval_args, first_return, var_index, assign, branch_run, call, call_step, eval, if_step, lookup, loop_pass, loop_repeat, top_step,
    RunState,
};
use crate::{parse_agrees, ParseOutcome};

verus! {

/// Parsing is deterministic: two parses of the same unchanged files give
/// the same outcome, and equal programs where they succeed.
pub proof fn parse_is_deterministic(
    t: Seq<(Seq<char>, SourceM)>,
    path: Seq<char>,
    a: ParseOutcome,
    b: ParseOutcome,
)
    requires
        parse_agrees(a, load_file(t, path, seq![])),
        parse_agrees(b, load_file(t, path, seq![])),
    ensures
        a is Parsed <==> b is Parsed,
        a is NeedFile <==> b is NeedFile,
        a is Parsed ==> a->Parsed_0@ == b->Parsed_0@,
        a is NeedFile ==> a->NeedFile_0@ == b->NeedFile_0@,
{
}

/// Dividing by zero, or taking a remainder by zero, fails with
/// `DivisionByZero` whatever the dividend.
pub proof fn division_by_zero_fails(
    p: ProgramM,
    frame: Seq<(Seq<char>, i64)>,
    op: BinOp,
    l: ExprM,
    r: ExprM,
    depth: nat,
)
    requires
        op == BinOp::Divide || op == BinOp::Modulus,
        eval(p, frame, l, depth) is Ok,
        eval(p, frame, r, depth) == Ok::<i64, Fault>(0),
    ensures
        eval(p, frame, ExprM::BinaryOp(op, Box::new(l), Box::new(r)), depth) == Err::<i64, Fault>(
            Fault::DivisionByZero,
        ),
{
}

/// A variable that the frame does not bind fails with `UndefinedVariable`
/// naming it.
pub proof fn unbound_variable_fails(
    p: ProgramM,
    frame: Seq<(Seq<char>, i64)>,
    name: Seq<char>,
    depth: nat,
)
    requires
        lookup(frame, name) is None,
    ensures
        eval(p, frame, ExprM::VarRef(name), depth) == Err::<i64, Fault>(
            Fault::UndefinedVariable(name),
        ),
{
}

/// Calling a function with a number of arguments other than its number of
/// parameters fails with `ArityMismatch`, stating both counts.
pub proof fn wrong_arity_fails(p: ProgramM, name: Seq<char>, vals: Seq<i64>, depth: nat)
    requires
        function_index(p.functions, name) is Some,
        p.functions[function_index(p.functions, name)->0].params.len() != vals.len(),
    ensures
        call(p, name, vals, depth) == Err::<i64, Fault>(
            Fault::ArityMismatch {
                function: name,
                expected: p.functions[function_index(p.functions, name)->0].params.len(),
                actual: vals.len(),
            },
        ),
{
}

/// An `if` whose condition is 0 runs its `else` branch; any other value
/// runs its `then` branch.
pub proof fn if_selects_branch(
    p: ProgramM,
    st: RunState,
    cond: ExprM,
    then_body: Seq<StmtM>,
    else_body: Seq<StmtM>,
    depth: nat,
    c: i64,
)
    requires
        eval(p, st.frame, cond, depth) == Ok::<i64, Fault>(c),
    ensures
        c == 0 ==> if_step(p, st, cond, then_body, else_body, depth) == branch_run(
            p,
            st,
            else_body,
            depth,
        ),
        c != 0 ==> if_step(p, st, cond, then_body, else_body, depth) == branch_run(
            p,
            st,
            then_body,
            depth,
        ),
{
}

/// `n` copies of a line.
pub open spec fn copies(s: Seq<char>, n: nat) -> Seq<Seq<char>>
    decreases n,
{
    if n == 0 {
        seq![]
    } else {
        copies(s, (n - 1) as nat).push(s)
    }
}

/// A loop whose body prints a string literal prints it once per pass, and
/// changes no variable.
pub proof fn loop_prints_literal(p: ProgramM, st: RunState, s: Seq<char>, n: nat, depth: nat)
    ensures
        loop_repeat(p, st, seq![StmtM::Print(ExprM::LiteralStr(s))], n, depth) == Ok::<
            RunState,
            Fault,
        >(RunState { frame: st.frame, out: st.out + copies(s, n) }),
    decreases n,
{
    let body = seq![StmtM::Print(ExprM::LiteralStr(s))];
    if n == 0 {
        assert(st.out + copies(s, 0) =~= st.out);
    } else {
        loop_prints_literal(p, st, s, (n - 1) as nat, depth);
        let mid = RunState { frame: st.frame, out: st.out + copies(s, (n - 1) as nat) };
        assert(body.drop_last() =~= Seq::<StmtM>::empty());
        assert(body.last() == StmtM::Print(ExprM::LiteralStr(s)));
        assert(loop_pass(p, mid, body.drop_last(), depth) == Ok::<RunState, Fault>(mid));
        assert(loop_pass(p, mid, body, depth) == Ok::<RunState, Fault>(
            RunState { frame: mid.frame, out: mid.out.push(s) },
        ));
        assert(mid.out.push(s) =~= st.out + copies(s, n));
    }
}

/// A loop whose count is zero or negative runs no pass and changes
/// nothing.
pub proof fn loop_without_passes(
    p: ProgramM,
    st: RunState,
    count: ExprM,
    body: Seq<StmtM>,
    depth: nat,
    c: i64,
)
    requires
        eval(p, st.frame, count, depth) == Ok::<i64, Fault>(c),
        c <= 0,
    ensures
        top_step(p, st, StmtM::Loop { count, body }, depth) == Ok::<RunState, Fault>(st),
{
}

/// A call made for its effect leaves the caller's variables and output as
/// they were; assigning a call's value changes only the assigned variable.
pub proof fn calls_keep_caller_frame(
    p: ProgramM,
    st: RunState,
    var: Seq<char>,
    name: Seq<char>,
    args: Seq<ExprM>,
    depth: nat,
)
    ensures
        call_step(p, st, name, args, depth) is Ok ==> call_step(p, st, name, args, depth) == Ok::<
            RunState,
            Fault,
        >(st),
        eval(p, st.frame, ExprM::Call(name, args), depth) is Ok ==> top_step(
            p,
            st,
            StmtM::Assign { var, expr: ExprM::Call(name, args) },
            depth,
        ) == Ok::<RunState, Fault>(
            RunState {
                frame: assign(
                    st.frame,
                    var,
                    eval(p, st.frame, ExprM::Call(name, args), depth)->Ok_0,
                ),
                out: st.out,
            },
        ),
{
}

/// Calling a two-parameter function whose first `return` adds its
/// parameters, on two integer literals, gives their (wrapping) sum.
pub proof fn call_of_adder(
    p: ProgramM,
    frame: Seq<(Seq<char>, i64)>,
    name: Seq<char>,
    i: int,
    m: i64,
    n: i64,
    depth: nat,
)
    requires
        function_index(p.functions, name) == Some(i),
        depth > 0,
        ({
            let f = p.functions[i];
            &&& f.params.len() == 2
            &&& f.params[0].name != f.params[1].name
            &&& first_return(f.body) == Some(
                ExprM::BinaryOp(
                    BinOp::Add,
                    Box::new(ExprM::VarRef(f.params[0].name)),
                    Box::new(ExprM::VarRef(f.params[1].name)),
                ),
            )
        }),
    ensures
        eval(p, frame, ExprM::Call(name, seq![ExprM::LiteralInt(m), ExprM::LiteralInt(n)]), depth)
            == Ok::<i64, Fault>(i64_specs::wrapping_add(m, n)),
{
    crate::builder::lemma_function_index(p.functions, name);
    let f = p.functions[i];
    let a = f.params[0].name;
    let b = f.params[1].name;
    let args = seq![ExprM::LiteralInt(m), ExprM::LiteralInt(n)];
    assert(args.drop_last() =~= seq![ExprM::LiteralInt(m)]);
    assert(seq![ExprM::LiteralInt(m)].drop_last() =~= Seq::<ExprM>::empty());
    let one = seq![ExprM::LiteralInt(m)];
    assert(eval_args(p, frame, Seq::<ExprM>::empty(), depth) == Ok::<Seq<i64>, Fault>(seq![]));
    assert(one.last() == ExprM::LiteralInt(m));
    assert(eval(p, frame, ExprM::LiteralInt(m), depth) == Ok::<i64, Fault>(m));
    assert(eval_args(p, frame, one, depth) == Ok::<Seq<i64>, Fault>(seq![m])) by {
        assert(Seq::<i64>::empty().push(m) =~= seq![m]);
    }
    let vals = seq![m, n];
    assert(args.last() == ExprM::LiteralInt(n));
    assert(eval(p, frame, ExprM::LiteralInt(n), depth) == Ok::<i64, Fault>(n));
    assert(eval_args(p, frame, args, depth) == Ok::<Seq<i64>, Fault>(vals)) by {
        assert(seq![m].push(n) =~= vals);
    }
    let f0: Seq<(Seq<char>, i64)> = seq![];
    assert(bind(f.params, vals, 0) == f0);
    let f1 = seq![(a, m)];
    assert(bind(f.params, vals, 1) == f1) by {
        assert(f0.push((a, m)) =~= f1);
    }
    let f2 = seq![(a, m), (b, n)];
    assert(f1.drop_last() =~= f0);
    assert(var_index(f0, b) is None);
    assert(f1.last() == (a, m));
    assert(var_index(f1, b) is None);
    assert(bind(f.params, vals, 2) == f2) by {
        assert(f1.push((b, n)) =~= f2);
    }
    assert(f2.drop_last() =~= f1);
    assert(var_index(f1, a) == Some(0int));
    assert(lookup(f2, a) == Some(m));
    assert(lookup(f2, b) == Some(n));
    let body = ExprM::BinaryOp(BinOp::Add, Box::new(ExprM::VarRef(a)), Box::new(ExprM::VarRef(b)));
    assert(eval(p, f2, ExprM::VarRef(a), (depth - 1) as nat) == Ok::<i64, Fault>(m));
    assert(eval(p, f2, ExprM::VarRef(b), (depth - 1) as nat) == Ok::<i64, Fault>(n));
    assert(eval(p, f2, body, (depth - 1) as nat) == Ok::<i64, Fault>(i64_specs::wrapping_add(m, n)));
    assert(call(p, name, vals, depth) == Ok::<i64, Fault>(i64_specs::wrapping_add(m, n)));
}

} // verus!
