//! The meaning of an expression list, as a function of a step budget, the list
//! and the environment's frames.
//!
//! A list is read from its head. A group at the head is evaluated in place of
//! the list; a number or boolean is the list's value; a string names a form
//! (an operator or keyword), and the rest of the list holds its operands, or it
//! is a quoted literal or a variable name. What follows a complete expression
//! in a list is not read. A binary operator, a declaration and an assignment
//! take their first operand from the node after the head and their second from
//! the rest of the list read as an expression. `if` and `while` take a group of
//! three and two nodes. Each nested evaluation and each loop iteration spends
//! one step of the budget.
use vstd::prelude::*;
use crate::scope::{assigned, defined, lookup};
use crate::literal::{is_quoted, is_valid_name, quoted_text};
use crate::value::{Datum, EvalDataType, EvalError, EvalType};

verus! {

/// The frames of an environment, root first.
pub type Frames = Seq<Map<Seq<char>, Datum>>;

/// The forms of the language.
#[derive(PartialEq, Eq, Debug, Clone, Copy, Structural)]
pub enum Form {
    Add,
    Mul,
    Div,
    Greater,
    Less,
    Declare,
    Assign,
    If,
    While,
    Begin,
}

/// The form that `word` names, if any.
pub open spec fn form_of(word: Seq<char>) -> Option<Form> {
    if word == "+"@ {
        Some(Form::Add)
    } else if word == "*"@ {
        Some(Form::Mul)
    } else if word == "/"@ {
        Some(Form::Div)
    } else if word == ">"@ {
        Some(Form::Greater)
    } else if word == "<"@ {
        Some(Form::Less)
    } else if word == "var"@ {
        Some(Form::Declare)
    } else if word == "set"@ {
        Some(Form::Assign)
    } else if word == "if"@ {
        Some(Form::If)
    } else if word == "while"@ {
        Some(Form::While)
    } else if word == "begin"@ {
        Some(Form::Begin)
    } else {
        None
    }
}

pub open spec fn is_binary(f: Form) -> bool {
    f is Add || f is Mul || f is Div || f is Greater || f is Less
}

/// Sum of numbers (an error where it exceeds `u128`), or concatenation of strings.
pub open spec fn add_of(a: Datum, b: Datum) -> Result<Datum, EvalError> {
    match (a, b) {
        (Datum::Num(x), Datum::Num(y)) => if x + y <= u128::MAX {
            Ok(Datum::Num((x + y) as u128))
        } else {
            Err(EvalError::Overflow)
        },
        (Datum::Str(x), Datum::Str(y)) => Ok(Datum::Str(x + y)),
        _ => Err(EvalError::TypeMismatch),
    }
}

/// Product of numbers; an error where it exceeds `u128`.
pub open spec fn mul_of(a: Datum, b: Datum) -> Result<Datum, EvalError> {
    match (a, b) {
        (Datum::Num(x), Datum::Num(y)) => if x * y <= u128::MAX {
            Ok(Datum::Num((x * y) as u128))
        } else {
            Err(EvalError::Overflow)
        },
        _ => Err(EvalError::TypeMismatch),
    }
}

/// Truncating quotient of numbers; an error for a zero divisor.
pub open spec fn div_of(a: Datum, b: Datum) -> Result<Datum, EvalError> {
    match (a, b) {
        (Datum::Num(x), Datum::Num(y)) => if y == 0 {
            Err(EvalError::DivisionByZero)
        } else {
            Ok(Datum::Num(x / y))
        },
        _ => Err(EvalError::TypeMismatch),
    }
}

/// Whether the first number exceeds the second.
pub open spec fn greater_of(a: Datum, b: Datum) -> Result<Datum, EvalError> {
    match (a, b) {
        (Datum::Num(x), Datum::Num(y)) => Ok(Datum::Bool(x > y)),
        _ => Err(EvalError::TypeMismatch),
    }
}

/// Whether the first number is below the second.
pub open spec fn less_of(a: Datum, b: Datum) -> Result<Datum, EvalError> {
    match (a, b) {
        (Datum::Num(x), Datum::Num(y)) => Ok(Datum::Bool(x < y)),
        _ => Err(EvalError::TypeMismatch),
    }
}

pub open spec fn binary_of(f: Form, a: Datum, b: Datum) -> Result<Datum, EvalError> {
    match f {
        Form::Add => add_of(a, b),
        Form::Mul => mul_of(a, b),
        Form::Div => div_of(a, b),
        Form::Greater => greater_of(a, b),
        _ => less_of(a, b),
    }
}

/// A string leaf that names no form: a quoted literal, or a variable read.
pub open spec fn read_word(word: Seq<char>, env: Frames) -> Result<Datum, EvalError> {
    if is_quoted(word) {
        Ok(Datum::Str(quoted_text(word)))
    } else {
        match lookup(env, word) {
            Some(v) => Ok(v),
            None => Err(EvalError::UnboundVariable),
        }
    }
}

/// A node that is a string leaf.
pub open spec fn is_string_leaf(t: EvalType) -> bool {
    t matches EvalType::Value(EvalDataType::String(_))
}

/// The statements of a block with operands `args`: the elements of the first
/// operand where that is a group that is empty or not headed by a string leaf;
/// else the operands themselves. A group headed by a string leaf is one
/// expression (a form, a literal or a read), so it is one statement.
pub open spec fn block_body(args: Seq<EvalType>) -> Seq<EvalType> {
    if args.len() >= 1 {
        match args[0] {
            EvalType::Content(items) => if items@.len() == 0 || !is_string_leaf(items@[0]) {
                items@
            } else {
                args
            },
            _ => args,
        }
    } else {
        args
    }
}

/// Evaluating the list `exp` in `env`: its value or error, and the frames after.
pub open spec fn run(fuel: nat, exp: Seq<EvalType>, env: Frames) -> (Result<Datum, EvalError>, Frames)
    decreases fuel, 0nat, 0nat,
{
    if fuel == 0 {
        (Err(EvalError::StepLimitExceeded), env)
    } else if exp.len() == 0 {
        (Err(EvalError::MalformedStructure), env)
    } else {
        match exp[0] {
            EvalType::Content(items) => run((fuel - 1) as nat, items@, env),
            EvalType::Value(d) => match d {
                EvalDataType::String(s) => run_word((fuel - 1) as nat, s@, exp.drop_first(), env),
                _ => (Ok(d@), env),
            },
        }
    }
}

/// Evaluating a list headed by the string leaf `word`, with operands `args`.
pub open spec fn run_word(fuel: nat, word: Seq<char>, args: Seq<EvalType>, env: Frames) -> (
    Result<Datum, EvalError>,
    Frames,
)
    decreases fuel, 3nat, 0nat,
{
    match form_of(word) {
        Some(f) => if is_binary(f) {
            run_binary(fuel, f, args, env)
        } else {
            match f {
                Form::Declare => run_declare(fuel, args, env),
                Form::Assign => run_assign(fuel, args, env),
                Form::If => run_if(fuel, args, env),
                Form::While => run_while(fuel, args, env),
                _ => run_begin(fuel, args, env),
            }
        },
        None => (read_word(word, env), env),
    }
}

/// A binary operator: both operands in order, then the operator on their values.
pub open spec fn run_binary(fuel: nat, f: Form, args: Seq<EvalType>, env: Frames) -> (
    Result<Datum, EvalError>,
    Frames,
)
    decreases fuel, 1nat, 0nat,
{
    if args.len() < 2 {
        (Err(EvalError::MalformedStructure), env)
    } else {
        let (a, e1) = run(fuel, seq![args[0]], env);
        match a {
            Err(x) => (Err(x), e1),
            Ok(av) => {
                let (b, e2) = run(fuel, args.drop_first(), e1);
                match b {
                    Err(x) => (Err(x), e2),
                    Ok(bv) => (binary_of(f, av, bv), e2),
                }
            },
        }
    }
}

/// `var name value`: the value, then bound to the name in the innermost frame.
pub open spec fn run_declare(fuel: nat, args: Seq<EvalType>, env: Frames) -> (
    Result<Datum, EvalError>,
    Frames,
)
    decreases fuel, 1nat, 0nat,
{
    if args.len() < 2 {
        (Err(EvalError::MalformedStructure), env)
    } else {
        match args[0] {
            EvalType::Value(EvalDataType::String(name)) => if !is_valid_name(name@) {
                (Err(EvalError::InvalidName), env)
            } else {
                let (v, e1) = run(fuel, args.drop_first(), env);
                match v {
                    Err(x) => (Err(x), e1),
                    Ok(d) => (Ok(d), defined(e1, name@, d)),
                }
            },
            _ => (Err(EvalError::MalformedStructure), env),
        }
    }
}

/// `set name value`: the value, then written to the innermost binding of the name.
pub open spec fn run_assign(fuel: nat, args: Seq<EvalType>, env: Frames) -> (
    Result<Datum, EvalError>,
    Frames,
)
    decreases fuel, 1nat, 0nat,
{
    if args.len() < 2 {
        (Err(EvalError::MalformedStructure), env)
    } else {
        match args[0] {
            EvalType::Value(EvalDataType::String(name)) => {
                let (v, e1) = run(fuel, args.drop_first(), env);
                match v {
                    Err(x) => (Err(x), e1),
                    Ok(d) => match assigned(e1, name@, d) {
                        Some(e2) => (Ok(d), e2),
                        None => (Err(EvalError::UndeclaredAssignment), e1),
                    },
                }
            },
            _ => (Err(EvalError::MalformedStructure), env),
        }
    }
}

/// `if [condition, then, else]`: the condition, then exactly one branch.
pub open spec fn run_if(fuel: nat, args: Seq<EvalType>, env: Frames) -> (
    Result<Datum, EvalError>,
    Frames,
)
    decreases fuel, 1nat, 0nat,
{
    if args.len() < 1 {
        (Err(EvalError::MalformedStructure), env)
    } else {
        match args[0] {
            EvalType::Content(parts) => if parts@.len() != 3 {
                (Err(EvalError::MalformedStructure), env)
            } else {
                let (c, e1) = run(fuel, seq![parts@[0]], env);
                match c {
                    Ok(Datum::Bool(true)) => run(fuel, seq![parts@[1]], e1),
                    Ok(Datum::Bool(false)) => run(fuel, seq![parts@[2]], e1),
                    Ok(_) => (Err(EvalError::TypeMismatch), e1),
                    Err(x) => (Err(x), e1),
                }
            },
            _ => (Err(EvalError::MalformedStructure), env),
        }
    }
}

/// The iterations of a loop, `last` being the value of the latest body.
pub open spec fn run_loop(fuel: nat, cond: EvalType, body: EvalType, last: Datum, env: Frames) -> (
    Result<Datum, EvalError>,
    Frames,
)
    decreases fuel, 1nat, 0nat,
{
    if fuel == 0 {
        (Err(EvalError::StepLimitExceeded), env)
    } else {
        let (c, e1) = run(fuel, seq![cond], env);
        match c {
            Ok(Datum::Bool(false)) => (Ok(last), e1),
            Ok(Datum::Bool(true)) => {
                let (b, e2) = run(fuel, seq![body], e1);
                match b {
                    Ok(v) => run_loop((fuel - 1) as nat, cond, body, v, e2),
                    Err(x) => (Err(x), e2),
                }
            },
            Ok(_) => (Err(EvalError::TypeMismatch), e1),
            Err(x) => (Err(x), e1),
        }
    }
}

/// `while [condition, body]`: a loop whose value before any iteration is 0.
pub open spec fn run_while(fuel: nat, args: Seq<EvalType>, env: Frames) -> (
    Result<Datum, EvalError>,
    Frames,
)
    decreases fuel, 2nat, 0nat,
{
    if args.len() < 1 {
        (Err(EvalError::MalformedStructure), env)
    } else {
        match args[0] {
            EvalType::Content(parts) => if parts@.len() != 2 {
                (Err(EvalError::MalformedStructure), env)
            } else {
                run_loop(fuel, parts@[0], parts@[1], Datum::Num(0), env)
            },
            _ => (Err(EvalError::MalformedStructure), env),
        }
    }
}

/// The statements of a block in order; the value is that of the last one.
pub open spec fn run_stmts(fuel: nat, stmts: Seq<EvalType>, last: Datum, env: Frames) -> (
    Result<Datum, EvalError>,
    Frames,
)
    decreases fuel, 1nat, stmts.len(),
{
    if stmts.len() == 0 {
        (Ok(last), env)
    } else {
        let (r, e1) = run(fuel, seq![stmts[0]], env);
        match r {
            Ok(v) => run_stmts(fuel, stmts.drop_first(), v, e1),
            Err(x) => (Err(x), e1),
        }
    }
}

/// `begin ...`: the body in a new innermost frame, which is dropped afterwards;
/// an empty body has the value 0.
pub open spec fn run_begin(fuel: nat, args: Seq<EvalType>, env: Frames) -> (
    Result<Datum, EvalError>,
    Frames,
)
    decreases fuel, 2nat, 0nat,
{
    let (r, e) = run_stmts(fuel, block_body(args), Datum::Num(0), env.push(Map::empty()));
    (r, e.drop_last())
}

/// What an executable result stands for.
pub open spec fn result_view(r: Result<EvalDataType, EvalError>) -> Result<Datum, EvalError> {
    match r {
        Ok(d) => Ok(d@),
        Err(e) => Err(e),
    }
}

/// `t` is the string leaf `w`.
pub open spec fn is_word(t: EvalType, w: Seq<char>) -> bool {
    t matches EvalType::Value(EvalDataType::String(s)) && s@ == w
}

/// No list in `s`, at any depth, holds a `set` leaf followed by the leaf
/// `name`: nothing evaluated from `s` can assign to `name`.
pub open spec fn never_assigns(s: Seq<EvalType>, name: Seq<char>) -> bool
    decreases s,
{
    if s.len() == 0 {
        true
    } else {
        &&& (is_word(s[0], "set"@) && s.len() > 1) ==> !is_word(s[1], name)
        &&& s[0] is Content ==> never_assigns((s[0]->Content_0)@, name)
        &&& never_assigns(s.subrange(1, s.len() as int), name)
    }
}

/// `a` and `b` agree on whether they bind `name`, and on its value.
pub open spec fn same_binding<D>(a: Map<Seq<char>, D>, b: Map<Seq<char>, D>, name: Seq<char>) -> bool {
    &&& a.contains_key(name) == b.contains_key(name)
    &&& a.contains_key(name) ==> a[name] == b[name]
}

/// `after` has as many frames as `before`, and every frame but the innermost
/// binds `name` as it did.
pub open spec fn keeps_outer(before: Frames, after: Frames, name: Seq<char>) -> bool {
    &&& after.len() == before.len()
    &&& forall|i: int| 0 <= i < before.len() - 1 ==> same_binding(#[trigger] before[i], after[i], name)
}

proof fn lemma_keeps_trans(a: Frames, b: Frames, c: Frames, name: Seq<char>)
    requires
        keeps_outer(a, b, name),
        keeps_outer(b, c, name),
    ensures
        keeps_outer(a, c, name),
{
    assert forall|i: int| 0 <= i < a.len() - 1 implies same_binding(#[trigger] a[i], c[i], name) by {
        assert(same_binding(a[i], b[i], name));
        assert(same_binding(b[i], c[i], name));
    }
}

/// What holds of a list holds of its tail.
pub proof fn lemma_never_assigns_drop_first(s: Seq<EvalType>, name: Seq<char>)
    requires
        never_assigns(s, name),
        s.len() >= 1,
    ensures
        never_assigns(s.drop_first(), name),
{
    assert(s.drop_first() =~= s.subrange(1, s.len() as int));
}

proof fn lemma_never_assigns_at(s: Seq<EvalType>, i: int, name: Seq<char>)
    requires
        never_assigns(s, name),
        0 <= i < s.len(),
    ensures
        never_assigns(seq![s[i]], name),
        s[i] is Content ==> never_assigns((s[i]->Content_0)@, name),
    decreases i,
{
    if i == 0 {
        let t = seq![s[0]];
        assert(t.subrange(1, 1) =~= Seq::<EvalType>::empty());
        assert(never_assigns(Seq::<EvalType>::empty(), name));
        assert(t[0] == s[0]);
    } else {
        let rest = s.subrange(1, s.len() as int);
        assert(rest[i - 1] == s[i]);
        lemma_never_assigns_at(rest, i - 1, name);
    }
}

proof fn lemma_never_assigns_single(s: Seq<EvalType>, i: int, name: Seq<char>)
    requires
        never_assigns(s, name),
        0 <= i < s.len(),
    ensures
        never_assigns(seq![s[i]], name),
{
    lemma_never_assigns_at(s, i, name);
}

proof fn lemma_never_assigns_items(s: Seq<EvalType>, i: int, name: Seq<char>)
    requires
        never_assigns(s, name),
        0 <= i < s.len(),
        s[i] is Content,
    ensures
        never_assigns((s[i]->Content_0)@, name),
{
    lemma_never_assigns_at(s, i, name);
}

/// Evaluation keeps the number of frames. Where nothing evaluated can assign
/// to `name`, every frame but the innermost binds `name` afterwards as before.
pub proof fn lemma_run_frames(fuel: nat, exp: Seq<EvalType>, env: Frames, name: Seq<char>)
    requires
        env.len() >= 1,
    ensures
        run(fuel, exp, env).1.len() == env.len(),
        never_assigns(exp, name) ==> keeps_outer(env, run(fuel, exp, env).1, name),
    decreases fuel, 0nat, 0nat,
{
    if fuel > 0 && exp.len() > 0 {
        match exp[0] {
            EvalType::Content(items) => {
                if never_assigns(exp, name) {
                    lemma_never_assigns_items(exp, 0, name);
                }
                lemma_run_frames((fuel - 1) as nat, items@, env, name);
            },
            EvalType::Value(d) => match d {
                EvalDataType::String(s) => {
                    if never_assigns(exp, name) {
                        lemma_never_assigns_drop_first(exp, name);
                        if s@ == "set"@ && exp.len() >= 2 {
                            assert(is_word(exp[0], "set"@));
                            assert(exp.drop_first()[0] == exp[1]);
                        }
                    }
                    lemma_word_frames((fuel - 1) as nat, s@, exp.drop_first(), env, name);
                },
                _ => {},
            },
        }
    }
}

/// Evaluation keeps the number of frames.
pub proof fn lemma_run_keeps_depth(fuel: nat, exp: Seq<EvalType>, env: Frames)
    requires
        env.len() >= 1,
    ensures
        run(fuel, exp, env).1.len() == env.len(),
{
    lemma_run_frames(fuel, exp, env, Seq::empty());
}

proof fn lemma_word_frames(fuel: nat, word: Seq<char>, args: Seq<EvalType>, env: Frames, name: Seq<char>)
    requires
        env.len() >= 1,
    ensures
        run_word(fuel, word, args, env).1.len() == env.len(),
        (never_assigns(args, name) && (word == "set"@ ==> !(args.len() >= 1 && is_word(args[0], name))))
            ==> keeps_outer(env, run_word(fuel, word, args, env).1, name),
    decreases fuel, 3nat, 0nat,
{
    match form_of(word) {
        Some(f) => if is_binary(f) {
            lemma_binary_frames(fuel, f, args, env, name);
        } else {
            match f {
                Form::Declare => lemma_declare_frames(fuel, args, env, name),
                Form::Assign => lemma_assign_frames(fuel, args, env, name),
                Form::If => lemma_if_frames(fuel, args, env, name),
                Form::While => lemma_while_frames(fuel, args, env, name),
                _ => lemma_begin_frames(fuel, args, env, name),
            }
        },
        None => {},
    }
}

proof fn lemma_binary_frames(fuel: nat, f: Form, args: Seq<EvalType>, env: Frames, name: Seq<char>)
    requires
        env.len() >= 1,
    ensures
        run_binary(fuel, f, args, env).1.len() == env.len(),
        never_assigns(args, name) ==> keeps_outer(env, run_binary(fuel, f, args, env).1, name),
    decreases fuel, 1nat, 0nat,
{
    if args.len() >= 2 {
        let (a, e1) = run(fuel, seq![args[0]], env);
        if never_assigns(args, name) {
            lemma_never_assigns_single(args, 0, name);
            lemma_never_assigns_drop_first(args, name);
        }
        lemma_run_frames(fuel, seq![args[0]], env, name);
        if a is Ok {
            lemma_run_frames(fuel, args.drop_first(), e1, name);
            if never_assigns(args, name) {
                lemma_keeps_trans(env, e1, run(fuel, args.drop_first(), e1).1, name);
            }
        }
    }
}

proof fn lemma_declare_frames(fuel: nat, args: Seq<EvalType>, env: Frames, name: Seq<char>)
    requires
        env.len() >= 1,
    ensures
        run_declare(fuel, args, env).1.len() == env.len(),
        never_assigns(args, name) ==> keeps_outer(env, run_declare(fuel, args, env).1, name),
    decreases fuel, 1nat, 0nat,
{
    if args.len() >= 2 {
        match args[0] {
            EvalType::Value(EvalDataType::String(n)) => if is_valid_name(n@) {
                let (v, e1) = run(fuel, args.drop_first(), env);
                if never_assigns(args, name) {
                    lemma_never_assigns_drop_first(args, name);
                }
                lemma_run_frames(fuel, args.drop_first(), env, name);
                if v is Ok {
                    let e2 = defined(e1, n@, v->Ok_0);
                    assert forall|i: int| 0 <= i < e1.len() - 1 implies same_binding(
                        #[trigger] e1[i],
                        e2[i],
                        name,
                    ) by {
                        assert(e2[i] == e1[i]);
                    }
                    if never_assigns(args, name) {
                        lemma_keeps_trans(env, e1, e2, name);
                    }
                }
            },
            _ => {},
        }
    }
}

proof fn lemma_assign_frames(fuel: nat, args: Seq<EvalType>, env: Frames, name: Seq<char>)
    requires
        env.len() >= 1,
    ensures
        run_assign(fuel, args, env).1.len() == env.len(),
        (never_assigns(args, name) && !(args.len() >= 1 && is_word(args[0], name))) ==> keeps_outer(
            env,
            run_assign(fuel, args, env).1,
            name,
        ),
    decreases fuel, 1nat, 0nat,
{
    if args.len() >= 2 {
        match args[0] {
            EvalType::Value(EvalDataType::String(n)) => {
                let (v, e1) = run(fuel, args.drop_first(), env);
                if never_assigns(args, name) {
                    lemma_never_assigns_drop_first(args, name);
                }
                lemma_run_frames(fuel, args.drop_first(), env, name);
                if v is Ok {
                    crate::scope::lemma_innermost_bounds(e1, n@);
                    match assigned(e1, n@, v->Ok_0) {
                        Some(e2) => {
                            if n@ != name {
                                assert forall|i: int| 0 <= i < e1.len() - 1 implies same_binding(
                                    #[trigger] e1[i],
                                    e2[i],
                                    name,
                                ) by {}
                                if never_assigns(args, name) {
                                    lemma_keeps_trans(env, e1, e2, name);
                                }
                            }
                        },
                        None => {},
                    }
                }
            },
            _ => {},
        }
    }
}

proof fn lemma_if_frames(fuel: nat, args: Seq<EvalType>, env: Frames, name: Seq<char>)
    requires
        env.len() >= 1,
    ensures
        run_if(fuel, args, env).1.len() == env.len(),
        never_assigns(args, name) ==> keeps_outer(env, run_if(fuel, args, env).1, name),
    decreases fuel, 1nat, 0nat,
{
    if args.len() >= 1 {
        match args[0] {
            EvalType::Content(parts) => if parts@.len() == 3 {
                let p = parts@;
                if never_assigns(args, name) {
                    lemma_never_assigns_items(args, 0, name);
                    lemma_never_assigns_single(p, 0, name);
                    lemma_never_assigns_single(p, 1, name);
                    lemma_never_assigns_single(p, 2, name);
                }
                let (c, e1) = run(fuel, seq![p[0]], env);
                lemma_run_frames(fuel, seq![p[0]], env, name);
                lemma_run_frames(fuel, seq![p[1]], e1, name);
                lemma_run_frames(fuel, seq![p[2]], e1, name);
                if never_assigns(args, name) {
                    lemma_keeps_trans(env, e1, run(fuel, seq![p[1]], e1).1, name);
                    lemma_keeps_trans(env, e1, run(fuel, seq![p[2]], e1).1, name);
                }
            },
            _ => {},
        }
    }
}

proof fn lemma_loop_frames(
    fuel: nat,
    cond: EvalType,
    body: EvalType,
    last: Datum,
    env: Frames,
    name: Seq<char>,
)
    requires
        env.len() >= 1,
    ensures
        run_loop(fuel, cond, body, last, env).1.len() == env.len(),
        (never_assigns(seq![cond], name) && never_assigns(seq![body], name)) ==> keeps_outer(
            env,
            run_loop(fuel, cond, body, last, env).1,
            name,
        ),
    decreases fuel, 1nat, 0nat,
{
    if fuel > 0 {
        let (c, e1) = run(fuel, seq![cond], env);
        let (b, e2) = run(fuel, seq![body], e1);
        lemma_run_frames(fuel, seq![cond], env, name);
        lemma_run_frames(fuel, seq![body], e1, name);
        if never_assigns(seq![cond], name) && never_assigns(seq![body], name) {
            lemma_keeps_trans(env, e1, e2, name);
        }
        if c == Ok::<Datum, EvalError>(Datum::Bool(true)) && b is Ok {
            lemma_loop_frames((fuel - 1) as nat, cond, body, b->Ok_0, e2, name);
            if never_assigns(seq![cond], name) && never_assigns(seq![body], name) {
                lemma_keeps_trans(env, e2, run_loop((fuel - 1) as nat, cond, body, b->Ok_0, e2).1, name);
            }
        }
    }
}

proof fn lemma_while_frames(fuel: nat, args: Seq<EvalType>, env: Frames, name: Seq<char>)
    requires
        env.len() >= 1,
    ensures
        run_while(fuel, args, env).1.len() == env.len(),
        never_assigns(args, name) ==> keeps_outer(env, run_while(fuel, args, env).1, name),
    decreases fuel, 2nat, 0nat,
{
    if args.len() >= 1 {
        match args[0] {
            EvalType::Content(parts) => if parts@.len() == 2 {
                if never_assigns(args, name) {
                    lemma_never_assigns_items(args, 0, name);
                    lemma_never_assigns_single(parts@, 0, name);
                    lemma_never_assigns_single(parts@, 1, name);
                }
                lemma_loop_frames(fuel, parts@[0], parts@[1], Datum::Num(0), env, name);
            },
            _ => {},
        }
    }
}

proof fn lemma_stmts_frames(fuel: nat, stmts: Seq<EvalType>, last: Datum, env: Frames, name: Seq<char>)
    requires
        env.len() >= 1,
    ensures
        run_stmts(fuel, stmts, last, env).1.len() == env.len(),
        never_assigns(stmts, name) ==> keeps_outer(env, run_stmts(fuel, stmts, last, env).1, name),
    decreases fuel, 1nat, stmts.len(),
{
    if stmts.len() > 0 {
        let (r, e1) = run(fuel, seq![stmts[0]], env);
        if never_assigns(stmts, name) {
            lemma_never_assigns_single(stmts, 0, name);
            lemma_never_assigns_drop_first(stmts, name);
        }
        lemma_run_frames(fuel, seq![stmts[0]], env, name);
        if r is Ok {
            lemma_stmts_frames(fuel, stmts.drop_first(), r->Ok_0, e1, name);
            if never_assigns(stmts, name) {
                lemma_keeps_trans(env, e1, run_stmts(fuel, stmts.drop_first(), r->Ok_0, e1).1, name);
            }
        }
    }
}

/// A block keeps the number of frames; where nothing in it can assign to
/// `name`, every frame outside it binds `name` afterwards as before.
pub proof fn lemma_begin_frames(fuel: nat, args: Seq<EvalType>, env: Frames, name: Seq<char>)
    requires
        env.len() >= 1,
    ensures
        run_begin(fuel, args, env).1.len() == env.len(),
        never_assigns(args, name) ==> forall|i: int|
            0 <= i < env.len() ==> same_binding(#[trigger] env[i], run_begin(fuel, args, env).1[i], name),
    decreases fuel, 2nat, 0nat,
{
    let inner = env.push(Map::empty());
    let body = block_body(args);
    if never_assigns(args, name) && args.len() >= 1 && args[0] is Content && body != args {
        lemma_never_assigns_items(args, 0, name);
    }
    lemma_stmts_frames(fuel, body, Datum::Num(0), inner, name);
    let e = run_stmts(fuel, body, Datum::Num(0), inner).1;
    if never_assigns(args, name) {
        assert forall|i: int| 0 <= i < env.len() implies same_binding(
            #[trigger] env[i],
            e.drop_last()[i],
            name,
        ) by {
            assert(inner[i] == env[i]);
            assert(same_binding(inner[i], e[i], name));
        }
    }
}

} // verus!
