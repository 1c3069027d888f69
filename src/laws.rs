//! Laws of the language, proved of its semantics.
use vstd::prelude::*;
use crate::scope::{assigned, defined, innermost, lookup};
use crate::literal::{is_quoted, is_valid_name};
use crate::semantics::{
    add_of, binary_of, block_body, is_word, lemma_begin_frames, lemma_never_assigns_drop_first,
    never_assigns, same_binding, div_of, form_of, is_binary, mul_of, read_word, run, run_assign,
    run_begin, run_binary, run_declare, run_if, run_loop, run_stmts, run_while, run_word, Form,
    Frames,
};
use crate::value::{Datum, EvalDataType, EvalError, EvalType};

verus! {

/// `t` is the number leaf `n`.
pub open spec fn is_num(t: EvalType, n: u128) -> bool {
    t == EvalType::Value(EvalDataType::Number(n))
}

/// `t` is a group of the nodes `items`.
pub open spec fn is_group(t: EvalType, items: Seq<EvalType>) -> bool {
    t matches EvalType::Content(v) && v@ == items
}

/// A name that reads as a variable: no form, no quoted literal.
pub open spec fn is_plain_name(name: Seq<char>) -> bool {
    form_of(name) is None && !is_quoted(name)
}

/// Each keyword names its form.
pub proof fn lemma_form_names()
    ensures
        form_of("+"@) == Some(Form::Add),
        form_of("*"@) == Some(Form::Mul),
        form_of("/"@) == Some(Form::Div),
        form_of(">"@) == Some(Form::Greater),
        form_of("<"@) == Some(Form::Less),
        form_of("var"@) == Some(Form::Declare),
        form_of("set"@) == Some(Form::Assign),
        form_of("if"@) == Some(Form::If),
        form_of("while"@) == Some(Form::While),
        form_of("begin"@) == Some(Form::Begin),
{
    reveal_strlit("+");
    reveal_strlit("*");
    reveal_strlit("/");
    reveal_strlit(">");
    reveal_strlit("<");
    reveal_strlit("var");
    reveal_strlit("set");
    reveal_strlit("if");
    reveal_strlit("while");
    reveal_strlit("begin");
    assert("+"@.len() == 1 && "*"@.len() == 1 && "/"@.len() == 1 && ">"@.len() == 1);
    assert("<"@.len() == 1 && "var"@.len() == 3 && "set"@.len() == 3 && "if"@.len() == 2);
    assert("while"@.len() == 5 && "begin"@.len() == 5);
    assert("*"@ != "+"@) by { assert("*"@[0] != "+"@[0]); }
    assert("/"@ != "+"@) by { assert("/"@[0] != "+"@[0]); }
    assert("/"@ != "*"@) by { assert("/"@[0] != "*"@[0]); }
    assert(">"@ != "+"@) by { assert(">"@[0] != "+"@[0]); }
    assert(">"@ != "*"@) by { assert(">"@[0] != "*"@[0]); }
    assert(">"@ != "/"@) by { assert(">"@[0] != "/"@[0]); }
    assert("<"@ != "+"@) by { assert("<"@[0] != "+"@[0]); }
    assert("<"@ != "*"@) by { assert("<"@[0] != "*"@[0]); }
    assert("<"@ != "/"@) by { assert("<"@[0] != "/"@[0]); }
    assert("<"@ != ">"@) by { assert("<"@[0] != ">"@[0]); }
    assert("set"@ != "var"@) by { assert("set"@[0] != "var"@[0]); }
    assert("begin"@ != "while"@) by { assert("begin"@[0] != "while"@[0]); }
}

/// A list headed by the string leaf `w` is the form or read that `w` names.
proof fn lemma_word_head(fuel: nat, exp: Seq<EvalType>, w: Seq<char>, env: Frames)
    requires
        fuel >= 1,
        exp.len() >= 1,
        is_word(exp[0], w),
    ensures
        run(fuel, exp, env) == run_word((fuel - 1) as nat, w, exp.drop_first(), env),
{
}

/// A binary operator applied to two number leaves.
proof fn lemma_binary_numbers(fuel: nat, exp: Seq<EvalType>, w: Seq<char>, env: Frames, a: u128, b: u128)
    requires
        fuel >= 2,
        exp.len() == 3,
        is_word(exp[0], w),
        form_of(w) matches Some(f) && is_binary(f),
        is_num(exp[1], a),
        is_num(exp[2], b),
    ensures
        run(fuel, exp, env) == (binary_of(form_of(w)->Some_0, Datum::Num(a), Datum::Num(b)), env),
{
    lemma_word_head(fuel, exp, w, env);
    let f = (fuel - 1) as nat;
    let args = exp.drop_first();
    assert(seq![args[0]] =~= seq![exp[1]]);
    assert(args.drop_first() =~= seq![exp[2]]);
    assert(run(f, seq![exp[1]], env) == (Ok::<Datum, EvalError>(Datum::Num(a)), env));
    assert(run(f, seq![exp[2]], env) == (Ok::<Datum, EvalError>(Datum::Num(b)), env));
    assert(run_word(f, w, args, env) == run_binary(f, form_of(w)->Some_0, args, env));
}

/// Number arithmetic: addition and multiplication are exact where the result
/// fits in a `u128` and an overflow error otherwise; division truncates, and a
/// zero divisor is a division error.
pub proof fn law_number_arithmetic(a: u128, b: u128)
    ensures
        a + b <= u128::MAX ==> add_of(Datum::Num(a), Datum::Num(b)) == Ok::<Datum, EvalError>(
            Datum::Num((a + b) as u128),
        ),
        a + b > u128::MAX ==> add_of(Datum::Num(a), Datum::Num(b)) == Err::<Datum, EvalError>(
            EvalError::Overflow,
        ),
        a * b <= u128::MAX ==> mul_of(Datum::Num(a), Datum::Num(b)) == Ok::<Datum, EvalError>(
            Datum::Num((a * b) as u128),
        ),
        a * b > u128::MAX ==> mul_of(Datum::Num(a), Datum::Num(b)) == Err::<Datum, EvalError>(
            EvalError::Overflow,
        ),
        b != 0 ==> div_of(Datum::Num(a), Datum::Num(b)) == Ok::<Datum, EvalError>(
            Datum::Num(a / b),
        ),
        b == 0 ==> div_of(Datum::Num(a), Datum::Num(b)) == Err::<Datum, EvalError>(
            EvalError::DivisionByZero,
        ),
{
}

/// Evaluating `op a b` for an arithmetic operator on two number leaves gives
/// the operator's result and leaves the environment as it was.
pub proof fn law_number_operators(fuel: nat, exp: Seq<EvalType>, env: Frames, a: u128, b: u128)
    requires
        fuel >= 2,
        exp.len() == 3,
        is_num(exp[1], a),
        is_num(exp[2], b),
    ensures
        is_word(exp[0], "+"@) ==> run(fuel, exp, env) == (add_of(Datum::Num(a), Datum::Num(b)), env),
        is_word(exp[0], "*"@) ==> run(fuel, exp, env) == (mul_of(Datum::Num(a), Datum::Num(b)), env),
        is_word(exp[0], "/"@) ==> run(fuel, exp, env) == (div_of(Datum::Num(a), Datum::Num(b)), env),
{
    lemma_form_names();
    if is_word(exp[0], "+"@) {
        lemma_binary_numbers(fuel, exp, "+"@, env, a, b);
    }
    if is_word(exp[0], "*"@) {
        lemma_binary_numbers(fuel, exp, "*"@, env, a, b);
    }
    if is_word(exp[0], "/"@) {
        lemma_binary_numbers(fuel, exp, "/"@, env, a, b);
    }
}

/// String addition is concatenation, the first operand first.
pub proof fn law_string_concatenation(s1: Seq<char>, s2: Seq<char>)
    ensures
        add_of(Datum::Str(s1), Datum::Str(s2)) == Ok::<Datum, EvalError>(Datum::Str(s1 + s2)),
{
}

/// Shadowing: a block that declares `name` as `v` and then reads it yields `v`,
/// and after the block every frame outside it is as it was, so an outer
/// binding of `name` keeps its value.
pub proof fn law_block_shadowing(
    fuel: nat,
    block: Seq<EvalType>,
    decl: Seq<EvalType>,
    name: Seq<char>,
    v: u128,
    env: Frames,
)
    requires
        fuel >= 4,
        is_valid_name(name),
        is_plain_name(name),
        block.len() == 3,
        is_word(block[0], "begin"@),
        is_group(block[1], decl),
        is_word(block[2], name),
        decl.len() == 3,
        is_word(decl[0], "var"@),
        is_word(decl[1], name),
        is_num(decl[2], v),
    ensures
        run(fuel, block, env) == (Ok::<Datum, EvalError>(Datum::Num(v)), env),
{
    lemma_form_names();
    let f = (fuel - 1) as nat;
    let args = block.drop_first();
    let inner = env.push(Map::empty());
    lemma_word_head(fuel, block, "begin"@, env);
    assert(block_body(args) == args);
    let e1 = defined(inner, name, Datum::Num(v));
    let dargs = decl.drop_first();
    lemma_word_head((f - 1) as nat, decl, "var"@, inner);
    assert(dargs.drop_first() =~= seq![decl[2]]);
    assert(run((f - 2) as nat, seq![decl[2]], inner) == (Ok::<Datum, EvalError>(Datum::Num(v)), inner));
    assert(run_declare((f - 2) as nat, dargs, inner) == (Ok::<Datum, EvalError>(Datum::Num(v)), e1));
    assert(run((f - 1) as nat, decl, inner) == (Ok::<Datum, EvalError>(Datum::Num(v)), e1));
    assert(run(f, seq![args[0]], inner) == (Ok::<Datum, EvalError>(Datum::Num(v)), e1));
    assert(e1.last().contains_key(name));
    assert(lookup(e1, name) == Some(Datum::Num(v)));
    lemma_word_head(f, seq![args[1]], name, e1);
    assert(seq![args[1]].drop_first() =~= Seq::<EvalType>::empty());
    assert(read_word(name, e1) == Ok::<Datum, EvalError>(Datum::Num(v)));
    assert(run(f, seq![args[1]], e1) == (Ok::<Datum, EvalError>(Datum::Num(v)), e1));
    assert(args.drop_first().drop_first() =~= Seq::<EvalType>::empty());
    assert(args.drop_first()[0] == args[1]);
    assert(run_stmts(f, args.drop_first().drop_first(), Datum::Num(v), e1) == (
        Ok::<Datum, EvalError>(Datum::Num(v)),
        e1,
    ));
    assert(run_stmts(f, args.drop_first(), Datum::Num(v), e1) == (
        Ok::<Datum, EvalError>(Datum::Num(v)),
        e1,
    ));
    assert(run_stmts(f, args, Datum::Num(0), inner) == (Ok::<Datum, EvalError>(Datum::Num(v)), e1));
    assert(e1.drop_last() =~= env);
}

proof fn lemma_innermost_push_empty(env: Frames, name: Seq<char>)
    ensures
        innermost(env.push(Map::empty()), name) == innermost(env, name),
{
    assert(env.push(Map::empty()).drop_last() =~= env);
}

/// Assignment crosses scopes: a block whose only statement assigns `v` to a
/// name bound outside it writes the innermost outer binding, which keeps the
/// new value after the block.
pub proof fn law_assignment_crosses_scope(
    fuel: nat,
    block: Seq<EvalType>,
    stmt: Seq<EvalType>,
    name: Seq<char>,
    v: u128,
    env: Frames,
)
    requires
        fuel >= 4,
        lookup(env, name) is Some,
        block.len() == 2,
        is_word(block[0], "begin"@),
        is_group(block[1], stmt),
        stmt.len() == 3,
        is_word(stmt[0], "set"@),
        is_word(stmt[1], name),
        is_num(stmt[2], v),
    ensures
        assigned(env, name, Datum::Num(v)) is Some,
        run(fuel, block, env) == (
            Ok::<Datum, EvalError>(Datum::Num(v)),
            assigned(env, name, Datum::Num(v))->Some_0,
        ),
        lookup(run(fuel, block, env).1, name) == Some(Datum::Num(v)),
{
    lemma_form_names();
    let f = (fuel - 1) as nat;
    let args = block.drop_first();
    let inner = env.push(Map::empty());
    lemma_innermost_push_empty(env, name);
    let i = innermost(env, name)->Some_0;
    crate::scope::lemma_innermost_bounds(env, name);
    let after = env.update(i, env[i].insert(name, Datum::Num(v)));
    let e1 = inner.update(i, inner[i].insert(name, Datum::Num(v)));
    assert(assigned(inner, name, Datum::Num(v)) == Some(e1));
    lemma_word_head(fuel, block, "begin"@, env);
    let sargs = stmt.drop_first();
    lemma_word_head((f - 1) as nat, stmt, "set"@, inner);
    assert(sargs.drop_first() =~= seq![stmt[2]]);
    assert(run((f - 2) as nat, seq![stmt[2]], inner) == (Ok::<Datum, EvalError>(Datum::Num(v)), inner));
    assert(run_assign((f - 2) as nat, sargs, inner) == (Ok::<Datum, EvalError>(Datum::Num(v)), e1));
    assert(run((f - 1) as nat, stmt, inner) == (Ok::<Datum, EvalError>(Datum::Num(v)), e1));
    assert(run(f, seq![args[0]], inner) == (Ok::<Datum, EvalError>(Datum::Num(v)), e1));
    assert(block_body(args) == args);
    assert(args.drop_first() =~= Seq::<EvalType>::empty());
    assert(run_stmts(f, args.drop_first(), Datum::Num(v), e1) == (
        Ok::<Datum, EvalError>(Datum::Num(v)),
        e1,
    ));
    assert(run_stmts(f, args, Datum::Num(0), inner) == (Ok::<Datum, EvalError>(Datum::Num(v)), e1));
    assert(e1.drop_last() =~= after);
    crate::scope::lemma_innermost_bounds(after, name);
    assert(after[i].contains_key(name));
    assert forall|k: int| i < k < after.len() implies !(#[trigger] after[k]).contains_key(name) by {
        assert(after[k] == env[k]);
    }
    crate::scope::lemma_innermost_unique(after, name, i);
}

/// A conditional evaluates its condition, then exactly one branch from the
/// frames the condition left: the other branch is never evaluated.
pub proof fn law_if_takes_one_branch(fuel: nat, exp: Seq<EvalType>, parts: Seq<EvalType>, env: Frames)
    requires
        fuel >= 1,
        exp.len() == 2,
        is_word(exp[0], "if"@),
        is_group(exp[1], parts),
        parts.len() == 3,
    ensures
        ({
            let (c, e1) = run((fuel - 1) as nat, seq![parts[0]], env);
            &&& c == Ok::<Datum, EvalError>(Datum::Bool(true)) ==> run(fuel, exp, env) == run(
                (fuel - 1) as nat,
                seq![parts[1]],
                e1,
            )
            &&& c == Ok::<Datum, EvalError>(Datum::Bool(false)) ==> run(fuel, exp, env) == run(
                (fuel - 1) as nat,
                seq![parts[2]],
                e1,
            )
        }),
{
    lemma_form_names();
    lemma_word_head(fuel, exp, "if"@, env);
    assert(run_word((fuel - 1) as nat, "if"@, exp.drop_first(), env) == run_if(
        (fuel - 1) as nat,
        exp.drop_first(),
        env,
    ));
}

/// A loop whose condition is false at once has the value 0 and leaves the
/// frames as the condition left them; the body is not evaluated.
pub proof fn law_while_false_at_once(fuel: nat, exp: Seq<EvalType>, parts: Seq<EvalType>, env: Frames)
    requires
        fuel >= 2,
        exp.len() == 2,
        is_word(exp[0], "while"@),
        is_group(exp[1], parts),
        parts.len() == 2,
        run((fuel - 1) as nat, seq![parts[0]], env).0 == Ok::<Datum, EvalError>(Datum::Bool(false)),
    ensures
        run(fuel, exp, env) == (
            Ok::<Datum, EvalError>(Datum::Num(0)),
            run((fuel - 1) as nat, seq![parts[0]], env).1,
        ),
{
    lemma_form_names();
    lemma_word_head(fuel, exp, "while"@, env);
    assert(run_word((fuel - 1) as nat, "while"@, exp.drop_first(), env) == run_while(
        (fuel - 1) as nat,
        exp.drop_first(),
        env,
    ));
}

/// A loop runs until its condition is false and then has the value of the last
/// body evaluated: a true condition evaluates the body and goes on with its value.
pub proof fn law_while_iterates(
    fuel: nat,
    cond: EvalType,
    body: EvalType,
    last: Datum,
    env: Frames,
)
    requires
        fuel >= 1,
    ensures
        ({
            let (c, e1) = run(fuel, seq![cond], env);
            let (b, e2) = run(fuel, seq![body], e1);
            &&& c == Ok::<Datum, EvalError>(Datum::Bool(false)) ==> run_loop(fuel, cond, body, last, env)
                == (Ok::<Datum, EvalError>(last), e1)
            &&& (c == Ok::<Datum, EvalError>(Datum::Bool(true)) && b is Ok) ==> run_loop(
                fuel,
                cond,
                body,
                last,
                env,
            ) == run_loop((fuel - 1) as nat, cond, body, b->Ok_0, e2)
        }),
{
}

/// Reading a name that no frame binds is an unbound-variable error.
pub proof fn law_unbound_read(fuel: nat, exp: Seq<EvalType>, name: Seq<char>, env: Frames)
    requires
        fuel >= 1,
        is_plain_name(name),
        lookup(env, name) is None,
        exp.len() == 1,
        is_word(exp[0], name),
    ensures
        run(fuel, exp, env) == (Err::<Datum, EvalError>(EvalError::UnboundVariable), env),
{
    lemma_word_head(fuel, exp, name, env);
}

/// Assigning to a name that no frame binds is an undeclared-assignment error,
/// and no frame changes.
pub proof fn law_undeclared_assignment(
    fuel: nat,
    exp: Seq<EvalType>,
    name: Seq<char>,
    v: u128,
    env: Frames,
)
    requires
        fuel >= 2,
        lookup(env, name) is None,
        exp.len() == 3,
        is_word(exp[0], "set"@),
        is_word(exp[1], name),
        is_num(exp[2], v),
    ensures
        run(fuel, exp, env) == (Err::<Datum, EvalError>(EvalError::UndeclaredAssignment), env),
{
    lemma_form_names();
    lemma_word_head(fuel, exp, "set"@, env);
    let args = exp.drop_first();
    assert(args.drop_first() =~= seq![exp[2]]);
    let f = (fuel - 1) as nat;
    assert(run(f, seq![exp[2]], env) == (Ok::<Datum, EvalError>(Datum::Num(v)), env));
    assert(run_word(f, "set"@, args, env) == run_assign(f, args, env));
}

proof fn lemma_lookup_same(a: Frames, b: Frames, name: Seq<char>)
    requires
        a.len() == b.len(),
        forall|i: int| 0 <= i < a.len() ==> same_binding(#[trigger] a[i], b[i], name),
    ensures
        innermost(a, name) == innermost(b, name),
        lookup(a, name) == lookup(b, name),
    decreases a.len(),
{
    if a.len() > 0 {
        let (a1, b1) = (a.drop_last(), b.drop_last());
        assert(same_binding(a[a.len() - 1], b[b.len() - 1], name));
        assert forall|i: int| 0 <= i < a1.len() implies same_binding(#[trigger] a1[i], b1[i], name) by {
            assert(same_binding(a[i], b[i], name));
        }
        lemma_lookup_same(a1, b1, name);
        crate::scope::lemma_innermost_bounds(a, name);
        crate::scope::lemma_innermost_bounds(b, name);
        match innermost(a, name) {
            Some(i) => {
                assert(same_binding(a[i], b[i], name));
            },
            None => {},
        }
    }
}

/// Blocks are scopes: after a block the environment has as many frames as
/// before, and a name that nothing in the block assigns reads afterwards as
/// it did before, whatever the block declared (in it or in blocks nested in it).
pub proof fn law_block_keeps_outer_binding(
    fuel: nat,
    block: Seq<EvalType>,
    name: Seq<char>,
    env: Frames,
)
    requires
        fuel >= 1,
        env.len() >= 1,
        block.len() >= 1,
        is_word(block[0], "begin"@),
        never_assigns(block, name),
    ensures
        run(fuel, block, env).1.len() == env.len(),
        lookup(run(fuel, block, env).1, name) == lookup(env, name),
{
    lemma_form_names();
    lemma_word_head(fuel, block, "begin"@, env);
    let args = block.drop_first();
    lemma_never_assigns_drop_first(block, name);
    lemma_begin_frames((fuel - 1) as nat, args, env, name);
    let after = run(fuel, block, env).1;
    assert(run_word((fuel - 1) as nat, "begin"@, args, env) == run_begin((fuel - 1) as nat, args, env));
    assert forall|i: int| 0 <= i < env.len() implies same_binding(#[trigger] env[i], after[i], name) by {}
    lemma_lookup_same(env, after, name);
}

/// `while [condition, body]` is the loop over that condition and body,
/// starting from the value 0.
pub proof fn law_while_form(fuel: nat, exp: Seq<EvalType>, parts: Seq<EvalType>, env: Frames)
    requires
        fuel >= 1,
        exp.len() == 2,
        is_word(exp[0], "while"@),
        is_group(exp[1], parts),
        parts.len() == 2,
    ensures
        run(fuel, exp, env) == run_loop((fuel - 1) as nat, parts[0], parts[1], Datum::Num(0), env),
{
    lemma_form_names();
    lemma_word_head(fuel, exp, "while"@, env);
    assert(run_word((fuel - 1) as nat, "while"@, exp.drop_first(), env) == run_while(
        (fuel - 1) as nat,
        exp.drop_first(),
        env,
    ));
}

/// The state after `n` iterations of a loop, each with a true condition and a
/// body that has a value: the latest body value and the frames; `None` where
/// one of them is not so.
pub open spec fn iterations(
    fuel: nat,
    cond: EvalType,
    body: EvalType,
    last: Datum,
    env: Frames,
    n: nat,
) -> Option<(Datum, Frames)>
    decreases n,
{
    if n == 0 {
        Some((last, env))
    } else if fuel == 0 {
        None
    } else {
        let (c, e1) = run(fuel, seq![cond], env);
        let (b, e2) = run(fuel, seq![body], e1);
        if c == Ok::<Datum, EvalError>(Datum::Bool(true)) && b is Ok {
            iterations((fuel - 1) as nat, cond, body, b->Ok_0, e2, (n - 1) as nat)
        } else {
            None
        }
    }
}

/// A loop whose condition is true `n` times, each followed by a body with a
/// value, and then false, evaluates the body exactly those `n` times and has
/// the value of the last of them (or `last` where `n` is 0), leaving the frames
/// as the final condition left them.
pub proof fn law_while_runs_n_times(
    fuel: nat,
    cond: EvalType,
    body: EvalType,
    last: Datum,
    env: Frames,
    n: nat,
)
    requires
        fuel > n,
        iterations(fuel, cond, body, last, env, n) is Some,
        run((fuel - n) as nat, seq![cond], iterations(fuel, cond, body, last, env, n)->Some_0.1).0
            == Ok::<Datum, EvalError>(Datum::Bool(false)),
    ensures
        run_loop(fuel, cond, body, last, env) == (
            Ok::<Datum, EvalError>(iterations(fuel, cond, body, last, env, n)->Some_0.0),
            run((fuel - n) as nat, seq![cond], iterations(fuel, cond, body, last, env, n)->Some_0.1).1,
        ),
    decreases n,
{
    if n > 0 {
        let (c, e1) = run(fuel, seq![cond], env);
        let (b, e2) = run(fuel, seq![body], e1);
        law_while_runs_n_times((fuel - 1) as nat, cond, body, b->Ok_0, e2, (n - 1) as nat);
        assert((fuel - 1) as nat - (n - 1) as nat == fuel - n);
    }
}

} // verus!
