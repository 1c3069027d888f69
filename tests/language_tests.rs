use eva::{get_environment_manager, EnvironmentManager, EnvironmentManagerRaw, EvalDataType, EvalError, EvalType, Eva};

fn word(s: &str) -> EvalType {
    EvalType::Value(EvalDataType::String(s.to_owned()))
}

fn num(n: u128) -> EvalType {
    EvalType::Value(EvalDataType::Number(n))
}

fn boolean(b: bool) -> EvalType {
    EvalType::Value(EvalDataType::Bool(b))
}

fn group(items: Vec<EvalType>) -> EvalType {
    EvalType::Content(items)
}

fn number(n: u128) -> Result<EvalType, EvalError> {
    Ok(EvalType::Value(EvalDataType::Number(n)))
}

fn text(s: &str) -> Result<EvalType, EvalError> {
    Ok(EvalType::Value(EvalDataType::String(s.to_owned())))
}

fn run(exp: EvalType) -> Result<EvalType, EvalError> {
    Eva::new().eval(vec![exp], &mut get_environment_manager())
}

#[test]
fn add_numbers_exact() {
    assert_eq!(run(group(vec![word("+"), num(40), num(2)])), number(42));
    assert_eq!(run(group(vec![word("+"), num(u128::MAX - 1), num(1)])), number(u128::MAX));
}

#[test]
fn add_overflow_is_an_error() {
    assert_eq!(run(group(vec![word("+"), num(u128::MAX), num(1)])), Err(EvalError::Overflow));
}

#[test]
fn multiply_numbers_exact() {
    assert_eq!(run(group(vec![word("*"), num(12), num(12)])), number(144));
    assert_eq!(run(group(vec![word("*"), num(u128::MAX), num(2)])), Err(EvalError::Overflow));
}

#[test]
fn divide_truncates() {
    assert_eq!(run(group(vec![word("/"), num(7), num(2)])), number(3));
    assert_eq!(run(group(vec![word("/"), num(1), num(5)])), number(0));
}

#[test]
fn divide_by_zero_is_an_error() {
    assert_eq!(run(group(vec![word("/"), num(7), num(0)])), Err(EvalError::DivisionByZero));
}

#[test]
fn comparisons() {
    assert_eq!(run(group(vec![word(">"), num(3), num(2)])), Ok(EvalType::Value(EvalDataType::Bool(true))));
    assert_eq!(run(group(vec![word("<"), num(3), num(2)])), Ok(EvalType::Value(EvalDataType::Bool(false))));
    assert_eq!(run(group(vec![word("<"), num(2), num(2)])), Ok(EvalType::Value(EvalDataType::Bool(false))));
}

#[test]
fn strings_concatenate_in_order() {
    assert_eq!(run(group(vec![word("+"), word("'ab'"), word("'cd'")])), text("abcd"));
    assert_eq!(run(group(vec![word("+"), word("'cd'"), word("'ab'")])), text("cdab"));
    assert_eq!(run(group(vec![word("+"), word("''"), word("'x'")])), text("x"));
}

#[test]
fn mixed_operands_are_a_type_error() {
    assert_eq!(run(group(vec![word("+"), num(1), word("'a'")])), Err(EvalError::TypeMismatch));
    assert_eq!(run(group(vec![word("*"), word("'a'"), word("'b'")])), Err(EvalError::TypeMismatch));
    assert_eq!(run(group(vec![word(">"), boolean(true), num(1)])), Err(EvalError::TypeMismatch));
}

#[test]
fn quoted_literal_is_unquoted() {
    assert_eq!(run(word("'hello world'")), text("hello world"));
    assert_eq!(run(word("''")), text(""));
}

#[test]
fn global_binding_is_readable() {
    assert_eq!(run(word("VERSION")), text("1.0.0"));
}

#[test]
fn unbound_read_is_an_error() {
    assert_eq!(run(word("missing")), Err(EvalError::UnboundVariable));
    assert_eq!(run(word("'unterminated")), Err(EvalError::UnboundVariable));
}

#[test]
fn undeclared_assignment_is_an_error() {
    let eva = Eva::new();
    let mut env = get_environment_manager();
    let r = eva.eval(vec![group(vec![word("set"), word("missing"), num(1)])], &mut env);
    assert_eq!(r, Err(EvalError::UndeclaredAssignment));
    assert_eq!(env.get(&"missing".to_owned()), None);
}

#[test]
fn invalid_declaration_name_is_an_error() {
    assert_eq!(run(group(vec![word("var"), word("bad name"), num(1)])), Err(EvalError::InvalidName));
    assert_eq!(run(group(vec![word("var"), word(""), num(1)])), Err(EvalError::InvalidName));
    assert_eq!(run(group(vec![word("var"), word("'q'"), num(1)])), Err(EvalError::InvalidName));
}

#[test]
fn malformed_forms_are_errors() {
    assert_eq!(run(group(vec![word("+"), num(1)])), Err(EvalError::MalformedStructure));
    assert_eq!(run(group(vec![word("var"), num(1), num(2)])), Err(EvalError::MalformedStructure));
    assert_eq!(run(group(vec![word("if"), group(vec![boolean(true), num(1)])])), Err(EvalError::MalformedStructure));
    assert_eq!(run(group(vec![word("while"), num(1)])), Err(EvalError::MalformedStructure));
    assert_eq!(run(group(vec![])), Err(EvalError::MalformedStructure));
}

#[test]
fn non_boolean_condition_is_a_type_error() {
    assert_eq!(
        run(group(vec![word("if"), group(vec![num(1), num(2), num(3)])])),
        Err(EvalError::TypeMismatch)
    );
    assert_eq!(
        run(group(vec![word("while"), group(vec![num(1), num(2)])])),
        Err(EvalError::TypeMismatch)
    );
}

#[test]
fn endless_loop_stops_at_the_step_limit() {
    let eva = Eva::with_step_limit(50);
    let r = eva.eval(
        vec![group(vec![word("while"), group(vec![boolean(true), num(1)])])],
        &mut get_environment_manager(),
    );
    assert_eq!(r, Err(EvalError::StepLimitExceeded));
}

#[test]
fn empty_block_is_zero() {
    assert_eq!(run(group(vec![word("begin")])), number(0));
}

#[test]
fn inner_declaration_shadows_without_altering_outer() {
    let eva = Eva::new();
    let mut env = get_environment_manager();
    assert_eq!(eva.eval(vec![group(vec![word("var"), word("x"), num(10)])], &mut env), number(10));
    let inner = group(vec![word("begin"), group(vec![word("var"), word("x"), num(20)]), word("x")]);
    assert_eq!(eva.eval(vec![inner], &mut env), number(20));
    assert_eq!(eva.eval(vec![word("x")], &mut env), number(10));
}

#[test]
fn assignment_from_inner_block_reaches_outer() {
    let eva = Eva::new();
    let mut env = get_environment_manager();
    assert_eq!(eva.eval(vec![group(vec![word("var"), word("data"), num(10)])], &mut env), number(10));
    let inner = group(vec![word("begin"), group(vec![word("set"), word("data"), num(100)])]);
    assert_eq!(eva.eval(vec![inner], &mut env), number(100));
    assert_eq!(eva.eval(vec![word("data")], &mut env), number(100));
}

#[test]
fn block_declarations_do_not_leak() {
    let eva = Eva::new();
    let mut env = get_environment_manager();
    let block = group(vec![word("begin"), group(vec![word("var"), word("local"), num(1)])]);
    assert_eq!(eva.eval(vec![block], &mut env), number(1));
    assert_eq!(eva.eval(vec![word("local")], &mut env), Err(EvalError::UnboundVariable));
}

#[test]
fn if_skips_the_branch_not_taken() {
    let eva = Eva::new();
    let mut env = get_environment_manager();
    assert_eq!(eva.eval(vec![group(vec![word("var"), word("y"), num(0)])], &mut env), number(0));
    let cond = group(vec![word("if"), group(vec![
        boolean(true),
        group(vec![word("set"), word("y"), num(1)]),
        group(vec![word("set"), word("y"), num(2)]),
    ])]);
    assert_eq!(eva.eval(vec![cond], &mut env), number(1));
    assert_eq!(eva.eval(vec![word("y")], &mut env), number(1));
    let cond = group(vec![word("if"), group(vec![
        boolean(false),
        group(vec![word("set"), word("y"), num(5)]),
        group(vec![word("set"), word("y"), num(7)]),
    ])]);
    assert_eq!(eva.eval(vec![cond], &mut env), number(7));
    assert_eq!(eva.eval(vec![word("y")], &mut env), number(7));
}

#[test]
fn while_false_at_once_is_zero_and_skips_body() {
    let eva = Eva::new();
    let mut env = get_environment_manager();
    assert_eq!(eva.eval(vec![group(vec![word("var"), word("n"), num(3)])], &mut env), number(3));
    let lp = group(vec![word("while"), group(vec![
        boolean(false),
        group(vec![word("set"), word("n"), num(99)]),
    ])]);
    assert_eq!(eva.eval(vec![lp], &mut env), number(0));
    assert_eq!(eva.eval(vec![word("n")], &mut env), number(3));
}

#[test]
fn while_returns_last_body_value() {
    let eva = Eva::new();
    let mut env = get_environment_manager();
    assert_eq!(eva.eval(vec![group(vec![word("var"), word("i"), num(0)])], &mut env), number(0));
    let lp = group(vec![word("while"), group(vec![
        group(vec![word("<"), word("i"), num(3)]),
        group(vec![word("set"), word("i"), group(vec![word("+"), word("i"), num(1)])]),
    ])]);
    assert_eq!(eva.eval(vec![lp], &mut env), number(3));
}

#[test]
fn block_product_plus_thirty() {
    let prog = group(vec![
        word("begin"),
        group(vec![word("var"), word("a"), num(10)]),
        group(vec![word("var"), word("b"), num(20)]),
        group(vec![word("+"), group(vec![word("*"), word("a"), word("b")]), num(30)]),
    ]);
    assert_eq!(run(prog), number(230));
}

#[test]
fn environment_define_assign_get() {
    let mut env = EnvironmentManagerRaw::new(None, None);
    assert_eq!(env.define("a".to_owned(), EvalDataType::Number(1)), EvalDataType::Number(1));
    env.push_scope();
    assert_eq!(env.depth(), 2);
    assert_eq!(env.get(&"a".to_owned()), Some(EvalDataType::Number(1)));
    env.define("a".to_owned(), EvalDataType::Number(2));
    assert_eq!(env.get(&"a".to_owned()), Some(EvalDataType::Number(2)));
    assert_eq!(env.assign("a".to_owned(), EvalDataType::Number(3)), Some(EvalDataType::Number(3)));
    assert_eq!(env.assign("b".to_owned(), EvalDataType::Number(3)), None);
    env.pop_scope();
    assert_eq!(env.get(&"a".to_owned()), Some(EvalDataType::Number(1)));
}

#[test]
fn environment_new_with_parent_and_duplicates() {
    let root = EnvironmentManagerRaw::new(
        Some(vec![
            ("k".to_owned(), EvalDataType::Number(1)),
            ("k".to_owned(), EvalDataType::Number(2)),
        ]),
        None,
    );
    assert_eq!(root.get(&"k".to_owned()), Some(EvalDataType::Number(2)));
    let mut child = EnvironmentManagerRaw::new(None, Some(root));
    assert_eq!(child.depth(), 2);
    assert_eq!(child.assign("k".to_owned(), EvalDataType::Bool(true)), Some(EvalDataType::Bool(true)));
    assert_eq!(child.get(&"k".to_owned()), Some(EvalDataType::Bool(true)));
}

#[test]
fn node_environment_holds_groups() {
    let pending = group(vec![word("+"), num(1), num(2)]);
    let mut env = EnvironmentManager::new(None, None);
    assert_eq!(env.define("expr".to_owned(), pending), group(vec![word("+"), num(1), num(2)]));
    let mut child = EnvironmentManager::new(Some(vec![("x".to_owned(), num(5))]), Some(env));
    assert_eq!(child.depth(), 2);
    assert_eq!(child.get(&"expr".to_owned()), Some(group(vec![word("+"), num(1), num(2)])));
    assert_eq!(child.assign("expr".to_owned(), num(9)), Some(num(9)));
    assert_eq!(child.get(&"expr".to_owned()), Some(num(9)));
    assert_eq!(child.assign("nothing".to_owned(), num(9)), None);
    child.pop_scope();
    assert_eq!(child.get(&"x".to_owned()), None);
    assert_eq!(child.get(&"expr".to_owned()), Some(num(9)));
}

#[test]
fn block_of_an_empty_group_is_zero() {
    assert_eq!(run(group(vec![word("begin"), group(vec![])])), number(0));
}

#[test]
fn block_of_a_group_of_leaves_yields_the_last() {
    assert_eq!(run(group(vec![word("begin"), group(vec![num(1), num(2)])])), number(2));
}

#[test]
fn nested_declarations_leave_outer_binding() {
    let eva = Eva::new();
    let mut env = get_environment_manager();
    assert_eq!(eva.eval(vec![group(vec![word("var"), word("x"), num(1)])], &mut env), number(1));
    let prog = group(vec![
        word("begin"),
        group(vec![
            group(vec![word("var"), word("x"), num(2)]),
            group(vec![word("begin"), group(vec![word("var"), word("x"), num(3)])]),
            group(vec![word("set"), word("x"), num(4)]),
            word("x"),
        ]),
    ]);
    assert_eq!(eva.eval(vec![prog], &mut env), number(4));
    assert_eq!(eva.eval(vec![word("x")], &mut env), number(1));
}

#[test]
fn while_body_runs_once_per_true_condition() {
    let eva = Eva::new();
    let mut env = get_environment_manager();
    assert_eq!(eva.eval(vec![group(vec![word("var"), word("i"), num(0)])], &mut env), number(0));
    assert_eq!(eva.eval(vec![group(vec![word("var"), word("runs"), num(0)])], &mut env), number(0));
    let lp = group(vec![word("while"), group(vec![
        group(vec![word("<"), word("i"), num(5)]),
        group(vec![word("begin"), group(vec![
            group(vec![word("set"), word("runs"), group(vec![word("+"), word("runs"), num(1)])]),
            group(vec![word("set"), word("i"), group(vec![word("+"), word("i"), num(1)])]),
            group(vec![word("*"), word("i"), num(10)]),
        ])]),
    ])]);
    assert_eq!(eva.eval(vec![lp], &mut env), number(50));
    assert_eq!(eva.eval(vec![word("runs")], &mut env), number(5));
}
