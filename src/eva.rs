//! The evaluator: executable functions proved equal to the semantics.
use vstd::prelude::*;
use vstd::string::StringExecFns;
use crate::environment_manager_raw::EnvironmentManagerRaw;
use crate::scope::{assigned, defined, lookup};
use crate::literal::{is_valid_name, is_valid_name_exec, string_literal};
use crate::semantics::{
    add_of, div_of, form_of, greater_of, less_of, mul_of, read_word, result_view, run,
    run_begin, run_if, run_loop, run_stmts, run_while, run_word, Form,
};
use crate::value::{copy_data, Datum, EvalDataType, EvalError, EvalType};

verus! {

/// The form that `word` names, if any.
pub fn classify(word: &String) -> (r: Option<Form>)
    ensures
        r == form_of(word@),
{
    if *word == "+".to_owned() {
        Some(Form::Add)
    } else if *word == "*".to_owned() {
        Some(Form::Mul)
    } else if *word == "/".to_owned() {
        Some(Form::Div)
    } else if *word == ">".to_owned() {
        Some(Form::Greater)
    } else if *word == "<".to_owned() {
        Some(Form::Less)
    } else if *word == "var".to_owned() {
        Some(Form::Declare)
    } else if *word == "set".to_owned() {
        Some(Form::Assign)
    } else if *word == "if".to_owned() {
        Some(Form::If)
    } else if *word == "while".to_owned() {
        Some(Form::While)
    } else if *word == "begin".to_owned() {
        Some(Form::Begin)
    } else {
        None
    }
}

/// An evaluator with a budget of steps for each evaluation.
pub struct Eva {
    pub step_limit: u64,
}

impl Eva {
    /// An evaluator whose budget is the largest a `u64` holds.
    pub fn new() -> (r: Eva)
        ensures
            r.step_limit == u64::MAX,
    {
        Eva { step_limit: u64::MAX }
    }

    /// An evaluator with the given budget of steps.
    pub fn with_step_limit(step_limit: u64) -> (r: Eva)
        ensures
            r.step_limit == step_limit,
    {
        Eva { step_limit }
    }

    /// Evaluates the list `exp` in `env_manager`, with this evaluator's budget.
    pub fn eval(&self, exp: Vec<EvalType>, env_manager: &mut EnvironmentManagerRaw) -> (r: Result<
        EvalType,
        EvalError,
    >)
        requires
            old(env_manager).wf(),
        ensures
            final(env_manager).wf(),
            final(env_manager)@ == run(self.step_limit as nat, exp@, old(env_manager)@).1,
            match r {
                Ok(EvalType::Value(d)) => run(self.step_limit as nat, exp@, old(env_manager)@).0 == Ok::<
                    Datum,
                    EvalError,
                >(d@),
                Ok(EvalType::Content(_)) => false,
                Err(e) => run(self.step_limit as nat, exp@, old(env_manager)@).0 == Err::<
                    Datum,
                    EvalError,
                >(e),
            },
    {
        assert(exp@.subrange(0, exp@.len() as int) =~= exp@);
        match self.eval_range(&exp, 0, exp.len(), env_manager, self.step_limit) {
            Ok(d) => Ok(EvalType::Value(d)),
            Err(e) => Err(e),
        }
    }

    /// Evaluates the nodes `exp[start..end]` as one list.
    fn eval_range(
        &self,
        exp: &Vec<EvalType>,
        start: usize,
        end: usize,
        env_manager: &mut EnvironmentManagerRaw,
        fuel: u64,
    ) -> (r: Result<EvalDataType, EvalError>)
        requires
            start <= end <= exp@.len(),
            old(env_manager).wf(),
        ensures
            final(env_manager).wf(),
            final(env_manager)@.len() == old(env_manager)@.len(),
            (result_view(r), final(env_manager)@) == run(
                fuel as nat,
                exp@.subrange(start as int, end as int),
                old(env_manager)@,
            ),
        decreases fuel, 0nat, 0nat,
    {
        if fuel == 0 {
            return Err(EvalError::StepLimitExceeded);
        }
        if start == end {
            return Err(EvalError::MalformedStructure);
        }
        let ghost list = exp@.subrange(start as int, end as int);
        assert(list[0] == exp@[start as int]);
        match &exp[start] {
            EvalType::Content(items) => {
                assert(items@.subrange(0, items@.len() as int) =~= items@);
                self.eval_range(items, 0, items.len(), env_manager, fuel - 1)
            },
            EvalType::Value(d) => {
                assert(list.drop_first() =~= exp@.subrange(start + 1, end as int));
                self.evaluate_eval_data(d, exp, start + 1, end, env_manager, fuel - 1)
            },
        }
    }

    /// Evaluates a list whose head is the leaf `eval_data_type` and whose
    /// operands are `exp[start..end]`.
    pub fn evaluate_eval_data(
        &self,
        eval_data_type: &EvalDataType,
        exp: &Vec<EvalType>,
        start: usize,
        end: usize,
        env_manager: &mut EnvironmentManagerRaw,
        fuel: u64,
    ) -> (r: Result<EvalDataType, EvalError>)
        requires
            start <= end <= exp@.len(),
            old(env_manager).wf(),
        ensures
            final(env_manager).wf(),
            final(env_manager)@.len() == old(env_manager)@.len(),
            (result_view(r), final(env_manager)@) == match eval_data_type {
                EvalDataType::String(s) => run_word(
                    fuel as nat,
                    s@,
                    exp@.subrange(start as int, end as int),
                    old(env_manager)@,
                ),
                _ => (Ok(eval_data_type@), old(env_manager)@),
            },
        decreases fuel, 4nat, 0nat,
    {
        match eval_data_type {
            EvalDataType::String(s) => self.process_operation(s, exp, start, end, env_manager, fuel),
            _ => Ok(copy_data(eval_data_type)),
        }
    }

    /// Evaluates a list headed by the string leaf `operation`, with operands
    /// `exp[start..end]`: a form, a quoted literal, or a variable read.
    pub fn process_operation(
        &self,
        operation: &String,
        exp: &Vec<EvalType>,
        start: usize,
        end: usize,
        env_manager: &mut EnvironmentManagerRaw,
        fuel: u64,
    ) -> (r: Result<EvalDataType, EvalError>)
        requires
            start <= end <= exp@.len(),
            old(env_manager).wf(),
        ensures
            final(env_manager).wf(),
            final(env_manager)@.len() == old(env_manager)@.len(),
            (result_view(r), final(env_manager)@) == run_word(
                fuel as nat,
                operation@,
                exp@.subrange(start as int, end as int),
                old(env_manager)@,
            ),
        decreases fuel, 3nat, 0nat,
    {
        let ghost args = exp@.subrange(start as int, end as int);
        match classify(operation) {
            Some(Form::Declare) => {
                if end - start < 2 {
                    return Err(EvalError::MalformedStructure);
                }
                assert(args[0] == exp@[start as int]);
                assert(args.drop_first() =~= exp@.subrange(start + 1, end as int));
                match &exp[start] {
                    EvalType::Value(EvalDataType::String(name)) => {
                        if !is_valid_name_exec(name) {
                            return Err(EvalError::InvalidName);
                        }
                        match self.eval_range(exp, start + 1, end, env_manager, fuel) {
                            Ok(v) => self.process_variable_declaration(&exp[start], v, env_manager),
                            Err(e) => Err(e),
                        }
                    },
                    _ => Err(EvalError::MalformedStructure),
                }
            },
            Some(Form::Assign) => {
                if end - start < 2 {
                    return Err(EvalError::MalformedStructure);
                }
                assert(args[0] == exp@[start as int]);
                assert(args.drop_first() =~= exp@.subrange(start + 1, end as int));
                match &exp[start] {
                    EvalType::Value(EvalDataType::String(_)) => {
                        match self.eval_range(exp, start + 1, end, env_manager, fuel) {
                            Ok(v) => self.process_set_variable(&exp[start], v, env_manager),
                            Err(e) => Err(e),
                        }
                    },
                    _ => Err(EvalError::MalformedStructure),
                }
            },
            Some(Form::If) => self.process_if_else(exp, start, end, env_manager, fuel),
            Some(Form::While) => self.process_while(exp, start, end, env_manager, fuel),
            Some(Form::Begin) => self.process_begin(exp, start, end, env_manager, fuel),
            Some(f) => {
                if end - start < 2 {
                    return Err(EvalError::MalformedStructure);
                }
                assert(seq![args[0]] =~= exp@.subrange(start as int, start + 1));
                assert(args.drop_first() =~= exp@.subrange(start + 1, end as int));
                let a = match self.eval_range(exp, start, start + 1, env_manager, fuel) {
                    Ok(a) => a,
                    Err(e) => return Err(e),
                };
                let b = match self.eval_range(exp, start + 1, end, env_manager, fuel) {
                    Ok(b) => b,
                    Err(e) => return Err(e),
                };
                match f {
                    Form::Add => self.process_add(&a, &b),
                    Form::Mul => self.process_mul(&a, &b),
                    Form::Div => self.process_div(&a, &b),
                    Form::Greater => self.process_bigger(&a, &b),
                    _ => self.process_smaller(&a, &b),
                }
            },
            None => self.process_value_string(operation, env_manager),
        }
    }

    /// `first > second` on numbers.
    pub fn process_bigger(&self, first: &EvalDataType, second: &EvalDataType) -> (r: Result<
        EvalDataType,
        EvalError,
    >)
        ensures
            result_view(r) == greater_of(first@, second@),
    {
        match (first, second) {
            (EvalDataType::Number(a), EvalDataType::Number(b)) => Ok(EvalDataType::Bool(*a > *b)),
            _ => Err(EvalError::TypeMismatch),
        }
    }

    /// `first < second` on numbers.
    pub fn process_smaller(&self, first: &EvalDataType, second: &EvalDataType) -> (r: Result<
        EvalDataType,
        EvalError,
    >)
        ensures
            result_view(r) == less_of(first@, second@),
    {
        match (first, second) {
            (EvalDataType::Number(a), EvalDataType::Number(b)) => Ok(EvalDataType::Bool(*a < *b)),
            _ => Err(EvalError::TypeMismatch),
        }
    }

    /// A string leaf that names no form: the text of a quoted literal, else
    /// the value of the variable of that name.
    pub fn process_value_string(&self, value: &String, env_manager: &EnvironmentManagerRaw) -> (r:
        Result<EvalDataType, EvalError>)
        requires
            env_manager.wf(),
        ensures
            result_view(r) == read_word(value@, env_manager@),
    {
        match string_literal(value) {
            Some(text) => Ok(EvalDataType::String(text)),
            None => self.process_get_variable(value, env_manager),
        }
    }

    /// Sum of numbers, or concatenation of strings.
    pub fn process_add(&self, first: &EvalDataType, second: &EvalDataType) -> (r: Result<
        EvalDataType,
        EvalError,
    >)
        ensures
            result_view(r) == add_of(first@, second@),
    {
        match (first, second) {
            (EvalDataType::Number(a), EvalDataType::Number(b)) => match a.checked_add(*b) {
                Some(n) => Ok(EvalDataType::Number(n)),
                None => Err(EvalError::Overflow),
            },
            (EvalDataType::String(a), EvalDataType::String(b)) => {
                Ok(EvalDataType::String(a.clone().concat(b.as_str())))
            },
            _ => Err(EvalError::TypeMismatch),
        }
    }

    /// Product of numbers.
    pub fn process_mul(&self, first: &EvalDataType, second: &EvalDataType) -> (r: Result<
        EvalDataType,
        EvalError,
    >)
        ensures
            result_view(r) == mul_of(first@, second@),
    {
        match (first, second) {
            (EvalDataType::Number(a), EvalDataType::Number(b)) => match a.checked_mul(*b) {
                Some(n) => Ok(EvalDataType::Number(n)),
                None => Err(EvalError::Overflow),
            },
            _ => Err(EvalError::TypeMismatch),
        }
    }

    /// Truncating quotient of numbers.
    pub fn process_div(&self, first: &EvalDataType, second: &EvalDataType) -> (r: Result<
        EvalDataType,
        EvalError,
    >)
        ensures
            result_view(r) == div_of(first@, second@),
    {
        match (first, second) {
            (EvalDataType::Number(a), EvalDataType::Number(b)) => {
                if *b == 0 {
                    Err(EvalError::DivisionByZero)
                } else {
                    Ok(EvalDataType::Number(*a / *b))
                }
            },
            _ => Err(EvalError::TypeMismatch),
        }
    }

    /// Binds the name leaf `first` to `second` in the innermost frame.
    pub fn process_variable_declaration(
        &self,
        first: &EvalType,
        second: EvalDataType,
        env_manager: &mut EnvironmentManagerRaw,
    ) -> (r: Result<EvalDataType, EvalError>)
        requires
            old(env_manager).wf(),
        ensures
            final(env_manager).wf(),
            final(env_manager)@.len() == old(env_manager)@.len(),
            match first {
                EvalType::Value(EvalDataType::String(name)) => if is_valid_name(name@) {
                    r == Ok::<EvalDataType, EvalError>(second) && final(env_manager)@ == defined(
                        old(env_manager)@,
                        name@,
                        second@,
                    )
                } else {
                    r == Err::<EvalDataType, EvalError>(EvalError::InvalidName) && final(env_manager)@
                        == old(env_manager)@
                },
                _ => r == Err::<EvalDataType, EvalError>(EvalError::MalformedStructure)
                    && final(env_manager)@ == old(env_manager)@,
            },
    {
        match first {
            EvalType::Value(EvalDataType::String(name)) => {
                if is_valid_name_exec(name) {
                    Ok(env_manager.define(name.clone(), second))
                } else {
                    Err(EvalError::InvalidName)
                }
            },
            _ => Err(EvalError::MalformedStructure),
        }
    }

    /// Writes `second` to the innermost binding of the name leaf `first`.
    pub fn process_set_variable(
        &self,
        first: &EvalType,
        second: EvalDataType,
        env_manager: &mut EnvironmentManagerRaw,
    ) -> (r: Result<EvalDataType, EvalError>)
        requires
            old(env_manager).wf(),
        ensures
            final(env_manager).wf(),
            final(env_manager)@.len() == old(env_manager)@.len(),
            match first {
                EvalType::Value(EvalDataType::String(name)) => match assigned(
                    old(env_manager)@,
                    name@,
                    second@,
                ) {
                    Some(after) => r == Ok::<EvalDataType, EvalError>(second) && final(env_manager)@
                        == after,
                    None => r == Err::<EvalDataType, EvalError>(EvalError::UndeclaredAssignment)
                        && final(env_manager)@ == old(env_manager)@,
                },
                _ => r == Err::<EvalDataType, EvalError>(EvalError::MalformedStructure)
                    && final(env_manager)@ == old(env_manager)@,
            },
    {
        match first {
            EvalType::Value(EvalDataType::String(name)) => {
                match env_manager.assign(name.clone(), second) {
                    Some(v) => Ok(v),
                    None => Err(EvalError::UndeclaredAssignment),
                }
            },
            _ => Err(EvalError::MalformedStructure),
        }
    }

    /// The value of the variable `var_name`.
    pub fn process_get_variable(&self, var_name: &String, env_manager: &EnvironmentManagerRaw) -> (r:
        Result<EvalDataType, EvalError>)
        requires
            env_manager.wf(),
        ensures
            match lookup(env_manager@, var_name@) {
                Some(v) => r is Ok && result_view(r) == Ok::<Datum, EvalError>(v),
                None => r == Err::<EvalDataType, EvalError>(EvalError::UnboundVariable),
            },
    {
        match env_manager.get(var_name) {
            Some(v) => Ok(v),
            None => Err(EvalError::UnboundVariable),
        }
    }

    /// `if [condition, then, else]` with operands `exp[start..end]`.
    pub fn process_if_else(
        &self,
        exp: &Vec<EvalType>,
        start: usize,
        end: usize,
        env_manager: &mut EnvironmentManagerRaw,
        fuel: u64,
    ) -> (r: Result<EvalDataType, EvalError>)
        requires
            start <= end <= exp@.len(),
            old(env_manager).wf(),
        ensures
            final(env_manager).wf(),
            final(env_manager)@.len() == old(env_manager)@.len(),
            (result_view(r), final(env_manager)@) == run_if(
                fuel as nat,
                exp@.subrange(start as int, end as int),
                old(env_manager)@,
            ),
        decreases fuel, 1nat, 0nat,
    {
        if start == end {
            return Err(EvalError::MalformedStructure);
        }
        assert(exp@.subrange(start as int, end as int)[0] == exp@[start as int]);
        match &exp[start] {
            EvalType::Content(parts) => {
                if parts.len() != 3 {
                    return Err(EvalError::MalformedStructure);
                }
                assert(parts@.subrange(0, 1) =~= seq![parts@[0]]);
                assert(parts@.subrange(1, 2) =~= seq![parts@[1]]);
                assert(parts@.subrange(2, 3) =~= seq![parts@[2]]);
                match self.eval_range(parts, 0, 1, env_manager, fuel) {
                    Ok(EvalDataType::Bool(true)) => self.eval_range(parts, 1, 2, env_manager, fuel),
                    Ok(EvalDataType::Bool(false)) => self.eval_range(parts, 2, 3, env_manager, fuel),
                    Ok(_) => Err(EvalError::TypeMismatch),
                    Err(e) => Err(e),
                }
            },
            _ => Err(EvalError::MalformedStructure),
        }
    }

    /// `while [condition, body]` with operands `exp[start..end]`: the value of
    /// the last body evaluated, or 0 where the body never ran.
    pub fn process_while(
        &self,
        exp: &Vec<EvalType>,
        start: usize,
        end: usize,
        env_manager: &mut EnvironmentManagerRaw,
        fuel: u64,
    ) -> (r: Result<EvalDataType, EvalError>)
        requires
            start <= end <= exp@.len(),
            old(env_manager).wf(),
        ensures
            final(env_manager).wf(),
            final(env_manager)@.len() == old(env_manager)@.len(),
            (result_view(r), final(env_manager)@) == run_while(
                fuel as nat,
                exp@.subrange(start as int, end as int),
                old(env_manager)@,
            ),
        decreases fuel, 2nat, 0nat,
    {
        if start == end {
            return Err(EvalError::MalformedStructure);
        }
        assert(exp@.subrange(start as int, end as int)[0] == exp@[start as int]);
        match &exp[start] {
            EvalType::Content(parts) => {
                if parts.len() != 2 {
                    return Err(EvalError::MalformedStructure);
                }
                assert(parts@.subrange(0, 1) =~= seq![parts@[0]]);
                assert(parts@.subrange(1, 2) =~= seq![parts@[1]]);
                let ghost cond = parts@[0];
                let ghost body = parts@[1];
                assert(run_while(fuel as nat, exp@.subrange(start as int, end as int), old(env_manager)@)
                    == run_loop(fuel as nat, cond, body, Datum::Num(0), old(env_manager)@));
                let mut last = EvalDataType::Number(0);
                let mut g: u64 = fuel;
                loop
                    invariant
                        env_manager.wf(),
                        env_manager@.len() == old(env_manager)@.len(),
                        g <= fuel,
                        parts@.len() == 2,
                        cond == parts@[0],
                        body == parts@[1],
                        run_while(fuel as nat, exp@.subrange(start as int, end as int), old(env_manager)@)
                            == run_loop(fuel as nat, cond, body, Datum::Num(0), old(env_manager)@),
                        parts@.subrange(0, 1) == seq![cond],
                        parts@.subrange(1, 2) == seq![body],
                        run_loop(fuel as nat, cond, body, Datum::Num(0), old(env_manager)@) == run_loop(
                            g as nat,
                            cond,
                            body,
                            last@,
                            env_manager@,
                        ),
                    decreases g,
                {
                    if g == 0 {
                        return Err(EvalError::StepLimitExceeded);
                    }
                    let ghost env0 = env_manager@;
                    match self.eval_range(parts, 0, 1, env_manager, g) {
                        Ok(EvalDataType::Bool(true)) => {},
                        Ok(EvalDataType::Bool(false)) => {
                            return Ok(last);
                        },
                        Ok(_) => {
                            return Err(EvalError::TypeMismatch);
                        },
                        Err(e) => {
                            return Err(e);
                        },
                    }
                    match self.eval_range(parts, 1, 2, env_manager, g) {
                        Ok(v) => {
                            last = v;
                        },
                        Err(e) => {
                            return Err(e);
                        },
                    }
                    g = g - 1;
                }
            },
            _ => Err(EvalError::MalformedStructure),
        }
    }

    /// The statements `stmts[start..end]` in order, from the value `last`.
    fn run_statements(
        &self,
        stmts: &Vec<EvalType>,
        start: usize,
        end: usize,
        init: EvalDataType,
        env_manager: &mut EnvironmentManagerRaw,
        fuel: u64,
    ) -> (r: Result<EvalDataType, EvalError>)
        requires
            start <= end <= stmts@.len(),
            old(env_manager).wf(),
        ensures
            final(env_manager).wf(),
            final(env_manager)@.len() == old(env_manager)@.len(),
            (result_view(r), final(env_manager)@) == run_stmts(
                fuel as nat,
                stmts@.subrange(start as int, end as int),
                init@,
                old(env_manager)@,
            ),
        decreases fuel, 1nat, 0nat,
    {
        let mut i: usize = start;
        let mut last = init;
        while i < end
            invariant
                start <= i <= end <= stmts@.len(),
                env_manager.wf(),
                env_manager@.len() == old(env_manager)@.len(),
                run_stmts(
                    fuel as nat,
                    stmts@.subrange(start as int, end as int),
                    init@,
                    old(env_manager)@,
                ) == run_stmts(fuel as nat, stmts@.subrange(i as int, end as int), last@, env_manager@),
            decreases end - i,
        {
            let ghost rest = stmts@.subrange(i as int, end as int);
            assert(rest[0] == stmts@[i as int]);
            assert(stmts@.subrange(i as int, i + 1) =~= seq![rest[0]]);
            assert(rest.drop_first() =~= stmts@.subrange(i + 1, end as int));
            match self.eval_range(stmts, i, i + 1, env_manager, fuel) {
                Ok(v) => {
                    last = v;
                },
                Err(e) => {
                    return Err(e);
                },
            }
            i = i + 1;
        }
        Ok(last)
    }

    /// `begin ...` with operands `exp[start..end]`: the statements of the body
    /// in order in a new innermost frame, which is dropped afterwards; the
    /// value is that of the last statement, or 0 for an empty body.
    pub fn process_begin(
        &self,
        exp: &Vec<EvalType>,
        start: usize,
        end: usize,
        env_manager: &mut EnvironmentManagerRaw,
        fuel: u64,
    ) -> (r: Result<EvalDataType, EvalError>)
        requires
            start <= end <= exp@.len(),
            old(env_manager).wf(),
        ensures
            final(env_manager).wf(),
            final(env_manager)@.len() == old(env_manager)@.len(),
            (result_view(r), final(env_manager)@) == run_begin(
                fuel as nat,
                exp@.subrange(start as int, end as int),
                old(env_manager)@,
            ),
        decreases fuel, 2nat, 0nat,
    {
        let ghost args = exp@.subrange(start as int, end as int);
        env_manager.push_scope();
        let r = if start < end {
            assert(args[0] == exp@[start as int]);
            match &exp[start] {
                EvalType::Content(items) => {
                    if items.len() == 0 || !matches!(items[0], EvalType::Value(EvalDataType::String(_))) {
                        assert(items@.subrange(0, items@.len() as int) =~= items@);
                        self.run_statements(items, 0, items.len(), EvalDataType::Number(0), env_manager, fuel)
                    } else {
                        self.run_statements(exp, start, end, EvalDataType::Number(0), env_manager, fuel)
                    }
                },
                _ => self.run_statements(exp, start, end, EvalDataType::Number(0), env_manager, fuel),
            }
        } else {
            self.run_statements(exp, start, end, EvalDataType::Number(0), env_manager, fuel)
        };
        env_manager.pop_scope();
        r
    }
}

} // verus!
