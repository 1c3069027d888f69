use eva::{get_environment_manager, EvalDataType, EvalType, Eva};

#[test]
fn test_identity() {
    let eva = Eva::new();
    assert_eq!(eva.eval(vec![EvalType::Value(EvalDataType::Number(1))], &mut get_environment_manager()), Ok(EvalType::Value(EvalDataType::Number(1))));
    assert_eq!(eva.eval(vec![EvalType::Value(EvalDataType::String("'data to check'".to_owned()))], &mut get_environment_manager()), Ok(EvalType::Value(EvalDataType::String("data to check".to_owned()))));
}

#[test]
fn test_add() {
    let eva = Eva::new();
    assert_eq!(eva.eval(vec![
        EvalType::Content(vec![
            EvalType::Value(EvalDataType::String("+".to_owned())),
            EvalType::Value(EvalDataType::Number(1)),
            EvalType::Value(EvalDataType::Number(3)),
        ])
    ], &mut get_environment_manager()), Ok(EvalType::Value(EvalDataType::Number(4))));
}

#[test]
fn test_mul() {
    let eva = Eva::new();
    assert_eq!(eva.eval(vec![
        EvalType::Content(vec![
            EvalType::Value(EvalDataType::String("*".to_owned())),
            EvalType::Value(EvalDataType::Number(2)),
            EvalType::Value(EvalDataType::Number(3)),
        ])
    ], &mut get_environment_manager()), Ok(EvalType::Value(EvalDataType::Number(6))));
}

#[test]
fn test_div() {
    let eva = Eva::new();
    assert_eq!(eva.eval(vec![
        EvalType::Content(vec![
            EvalType::Value(EvalDataType::String("/".to_owned())),
            EvalType::Value(EvalDataType::Number(10)),
            EvalType::Value(EvalDataType::Number(2)),
        ])
    ], &mut get_environment_manager()), Ok(EvalType::Value(EvalDataType::Number(5))));
}

#[test]
fn test_declare_variable() {
    let eva = Eva::new();
    assert_eq!(eva.eval(vec![
        EvalType::Content(vec![
            EvalType::Value(EvalDataType::String("var".to_owned())),
            EvalType::Value(EvalDataType::String("x".to_owned())),
            EvalType::Value(EvalDataType::Number(8)),
        ])
    ], &mut get_environment_manager()), Ok(EvalType::Value(EvalDataType::Number(8))));

    assert_eq!(eva.eval(vec![
        EvalType::Content(vec![
            EvalType::Value(EvalDataType::String("var".to_owned())),
            EvalType::Value(EvalDataType::String("x".to_owned())),
            EvalType::Value(EvalDataType::String("'value'".to_owned())),
        ])
    ], &mut get_environment_manager()), Ok(EvalType::Value(EvalDataType::String("value".to_owned()))));
    assert_eq!(eva.eval(vec![
        EvalType::Content(vec![
            EvalType::Value(EvalDataType::String("var".to_owned())),
            EvalType::Value(EvalDataType::String("x".to_owned())),
            EvalType::Value(EvalDataType::Number(88)),
        ])
    ], &mut get_environment_manager()), Ok(EvalType::Value(EvalDataType::Number(88))));
}

#[test]
fn test_block() {
    let eva = Eva::new();
    assert_eq!(eva.eval(vec![
        EvalType::Content(vec![
            EvalType::Value(EvalDataType::String("begin".to_owned())),
            EvalType::Content(vec![
                EvalType::Value(EvalDataType::String("var".to_owned())),
                EvalType::Value(EvalDataType::String("x".to_owned())),
                EvalType::Value(EvalDataType::Number(10)),
            ]),
            EvalType::Content(vec![
                EvalType::Value(EvalDataType::String("var".to_owned())),
                EvalType::Value(EvalDataType::String("y".to_owned())),
                EvalType::Value(EvalDataType::Number(10)),
            ]),
            EvalType::Content(vec![
                EvalType::Value(EvalDataType::String("+".to_owned())),
                EvalType::Content(vec![
                    EvalType::Value(EvalDataType::String("*".to_owned())),
                    EvalType::Value(EvalDataType::String("x".to_owned())),
                    EvalType::Value(EvalDataType::String("y".to_owned())),
                ]),
                EvalType::Value(EvalDataType::Number(10)),
            ]),
        ])
    ], &mut get_environment_manager()), Ok(EvalType::Value(EvalDataType::Number(110))));
}

#[test]
fn test_nested_block() {
    let eva = Eva::new();
    assert_eq!(eva.eval(vec![
        EvalType::Content(vec![
            EvalType::Value(EvalDataType::String("begin".to_owned())),
            EvalType::Content(vec![
                EvalType::Value(EvalDataType::String("var".to_owned())),
                EvalType::Value(EvalDataType::String("x".to_owned())),
                EvalType::Value(EvalDataType::Number(10)),
                EvalType::Value(EvalDataType::String("begin".to_owned())),
                EvalType::Content(vec![
                    EvalType::Value(EvalDataType::String("var".to_owned())),
                    EvalType::Value(EvalDataType::String("x".to_owned())),
                    EvalType::Value(EvalDataType::Number(20)),
                    EvalType::Value(EvalDataType::String("x".to_owned())),
                ]),
            ]),
            EvalType::Value(EvalDataType::String("x".to_owned())),
        ])
    ], &mut get_environment_manager()), Ok(EvalType::Value(EvalDataType::Number(10))));
}

#[test]
fn test_nested_block_variable() {
    let eva = Eva::new();
    assert_eq!(eva.eval(vec![
        EvalType::Content(vec![
            EvalType::Value(EvalDataType::String("begin".to_owned())),
            EvalType::Content(vec![
                EvalType::Content(vec![
                    EvalType::Value(EvalDataType::String("var".to_owned())),
                    EvalType::Value(EvalDataType::String("value".to_owned())),
                    EvalType::Value(EvalDataType::Number(10)),
                ]),
                EvalType::Content(vec![
                    EvalType::Value(EvalDataType::String("var".to_owned())),
                    EvalType::Value(EvalDataType::String("result".to_owned())),
                    EvalType::Value(EvalDataType::String("begin".to_owned())),
                    EvalType::Content(vec![
                        EvalType::Content(vec![
                            EvalType::Value(EvalDataType::String("var".to_owned())),
                            EvalType::Value(EvalDataType::String("x".to_owned())),
                            EvalType::Content(vec![
                                EvalType::Value(EvalDataType::String("+".to_owned())),
                                EvalType::Value(EvalDataType::String("value".to_owned())),
                                EvalType::Value(EvalDataType::Number(10)),
                            ]),
                            EvalType::Value(EvalDataType::String("x".to_owned())),
                        ]),
                    ]),
                    EvalType::Value(EvalDataType::String("result".to_owned())),
                ]),
            ]),
        ])
    ], &mut get_environment_manager()), Ok(EvalType::Value(EvalDataType::Number(20))));
}

#[test]
fn test_set_variable() {
    let eva = Eva::new();
    let mut env_manager = get_environment_manager();
    eva.eval(vec![
        EvalType::Content(vec![
            EvalType::Value(EvalDataType::String("var".to_owned())),
            EvalType::Value(EvalDataType::String("x".to_owned())),
            EvalType::Value(EvalDataType::Number(8)),
        ])
    ], &mut env_manager);

    assert_eq!(eva.eval(vec![
        EvalType::Content(vec![
            EvalType::Value(EvalDataType::String("set".to_owned())),
            EvalType::Value(EvalDataType::String("x".to_owned())),
            EvalType::Value(EvalDataType::Number(11)),
        ])
    ], &mut env_manager), Ok(EvalType::Value(EvalDataType::Number(11))));
}

#[test]
fn test_if_else() {
    let eva = Eva::new();
    assert_eq!(eva.eval(vec![
        EvalType::Content(vec![
            EvalType::Value(EvalDataType::String("begin".to_owned())),
            EvalType::Content(vec![
                EvalType::Content(vec![
                    EvalType::Value(EvalDataType::String("var".to_owned())),
                    EvalType::Value(EvalDataType::String("x".to_owned())),
                    EvalType::Value(EvalDataType::Number(10)),
                ]),
                EvalType::Content(vec![
                    EvalType::Value(EvalDataType::String("var".to_owned())),
                    EvalType::Value(EvalDataType::String("y".to_owned())),
                    EvalType::Value(EvalDataType::Number(0)),
                ]),
                EvalType::Content(vec![
                    EvalType::Value(EvalDataType::String("if".to_owned())),
                    EvalType::Content(vec![
                        EvalType::Content(vec![
                            EvalType::Value(EvalDataType::String(">".to_owned())),
                            EvalType::Value(EvalDataType::String("x".to_owned())),
                            EvalType::Value(EvalDataType::Number(10)),
                        ]),
                        EvalType::Content(vec![
                            EvalType::Value(EvalDataType::String("set".to_owned())),
                            EvalType::Value(EvalDataType::String("y".to_owned())),
                            EvalType::Value(EvalDataType::Number(20)),
                        ]),
                        EvalType::Content(vec![
                            EvalType::Value(EvalDataType::String("set".to_owned())),
                            EvalType::Value(EvalDataType::String("y".to_owned())),
                            EvalType::Value(EvalDataType::Number(30)),
                        ]),
                    ]),
                ]),
            ]),
            EvalType::Value(EvalDataType::String("x".to_owned())),
        ])
    ], &mut get_environment_manager()), Ok(EvalType::Value(EvalDataType::Number(30))));
}

#[test]
fn test_while() {
    let eva = Eva::new();
    assert_eq!(eva.eval(vec![
        EvalType::Content(vec![
            EvalType::Value(EvalDataType::String("begin".to_owned())),
            EvalType::Content(vec![
                EvalType::Content(vec![
                    EvalType::Value(EvalDataType::String("var".to_owned())),
                    EvalType::Value(EvalDataType::String("counter".to_owned())),
                    EvalType::Value(EvalDataType::Number(0)),
                ]),
                EvalType::Content(vec![
                    EvalType::Value(EvalDataType::String("var".to_owned())),
                    EvalType::Value(EvalDataType::String("result".to_owned())),
                    EvalType::Value(EvalDataType::Number(0)),
                ]),
                EvalType::Content(vec![
                    EvalType::Value(EvalDataType::String("while".to_owned())),
                    EvalType::Content(vec![
                        EvalType::Content(vec![
                            EvalType::Value(EvalDataType::String("<".to_owned())),
                            EvalType::Value(EvalDataType::String("counter".to_owned())),
                            EvalType::Value(EvalDataType::Number(10)),
                        ]),
                        EvalType::Content(vec![
                            EvalType::Value(EvalDataType::String("begin".to_owned())),
                            EvalType::Content(vec![
                                EvalType::Content(vec![
                                    EvalType::Value(EvalDataType::String("set".to_owned())),
                                    EvalType::Value(EvalDataType::String("result".to_owned())),
                                    EvalType::Content(vec![
                                        EvalType::Value(EvalDataType::String("+".to_owned())),
                                        EvalType::Value(EvalDataType::String("result".to_owned())),
                                        EvalType::Value(EvalDataType::Number(1)),
                                    ]),
                                ]),
                                EvalType::Content(vec![
                                    EvalType::Value(EvalDataType::String("set".to_owned())),
                                    EvalType::Value(EvalDataType::String("counter".to_owned())),
                                    EvalType::Content(vec![
                                        EvalType::Value(EvalDataType::String("+".to_owned())),
                                        EvalType::Value(EvalDataType::String("counter".to_owned())),
                                        EvalType::Value(EvalDataType::Number(1)),
                                    ]),
                                ]),
                            ]),
                        ]),
                    ]),
                    EvalType::Value(EvalDataType::String("result".to_owned())),
                ]),
            ]),
            EvalType::Value(EvalDataType::String("x".to_owned())),
        ])
    ], &mut get_environment_manager()), Ok(EvalType::Value(EvalDataType::Number(10))));
}
