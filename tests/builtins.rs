use dkparse::ast::{ArgNode, ValueNode};
use dkparse::builtins::{
    bind, call, Builtin, ParamDesc, ParamType, ParamValue, Registry, RegistryError,
};
use dkparse::chart::Chart;
use dkparse::value::{CallError, Context, Value};

fn param(name: &str, t: ParamType) -> ParamDesc {
    ParamDesc::new(name, t, None)
}

fn param_default(name: &str, t: ParamType, d: i32) -> ParamDesc {
    ParamDesc::new(name, t, Some(ParamValue::Number(d)))
}

#[test]
fn test_validates() {
    // Test a single param.
    let builtin = Builtin::new("foo", vec![param("foo", ParamType::String)]);
    assert!(builtin.validate().is_ok());

    // Test only no-defaults.
    let builtin = Builtin::new(
        "foo",
        vec![param("foo", ParamType::String), param("bar", ParamType::String)],
    );
    assert!(builtin.validate().is_ok());

    // Test only defaults.
    let builtin = Builtin::new(
        "foo",
        vec![
            param_default("foo", ParamType::String, 2),
            param_default("bar", ParamType::String, 2),
            param_default("baz", ParamType::String, 2),
        ],
    );
    assert!(builtin.validate().is_ok());

    // Test only defaults after no-defaults.
    let builtin = Builtin::new(
        "foo",
        vec![
            param("foo", ParamType::String),
            param_default("baz", ParamType::String, 2),
            param_default("bar", ParamType::String, 2),
        ],
    );
    assert!(builtin.validate().is_ok());
}

#[test]
fn defaults_before_non_defaults_are_refused() {
    let builtin = Builtin::new(
        "foo",
        vec![
            param("foo", ParamType::String),
            param_default("bar", ParamType::String, 2),
            param("baz", ParamType::String),
        ],
    );
    assert_eq!(
        builtin.validate(),
        Err(RegistryError::DefaultBeforeRequired("baz".to_string()))
    );
    let mut registry = Registry::new();
    assert!(registry.register(builtin).is_err());
    assert!(registry.get("foo").is_none());
}

#[test]
fn duplicate_builtins_are_refused() {
    let mut registry = Registry::new();
    assert!(registry.register(Builtin::new("foo", vec![])).is_ok());
    assert_eq!(
        registry.register(Builtin::new("foo", vec![])),
        Err(RegistryError::DuplicateBuiltin("foo".to_string()))
    );
    let mut standard = Registry::standard();
    assert_eq!(
        standard.register(Builtin::new("read", vec![param("x", ParamType::String)])),
        Err(RegistryError::DuplicateBuiltin("read".to_string()))
    );
}

#[test]
fn duplicate_param_names_are_refused() {
    let builtin = Builtin::new(
        "foo",
        vec![param("dup", ParamType::String), param("dup", ParamType::String)],
    );
    assert_eq!(
        builtin.validate(),
        Err(RegistryError::DuplicateParam("dup".to_string()))
    );
    let builtin = Builtin::new(
        "f",
        vec![param("x", ParamType::Number), param("x", ParamType::Number)],
    );
    let mut registry = Registry::new();
    assert_eq!(
        registry.register(builtin),
        Err(RegistryError::DuplicateParam("x".to_string()))
    );
}

#[test]
fn test_bad_func_name() {
    let registry = Registry::standard();
    let context = Context::new();
    match call(&registry, "UNKNOWN", &vec![], &context) {
        Err(CallError::UnknownFunc(name)) => assert_eq!(name, "UNKNOWN"),
        other => panic!("expected an unknown function, got {:?}", other),
    }
}

fn small_chart() -> Chart {
    Chart::from_rows(vec![vec!['*', '.'], vec!['.', '*']]).unwrap()
}

fn context_with_chart() -> Context {
    let mut context = Context::new();
    context.assign_variable("chart_val", &Value::Chart(small_chart()));
    context
}

fn positional(v: ValueNode) -> ArgNode {
    ArgNode(v, None)
}

fn named(name: &str, v: ValueNode) -> ArgNode {
    ArgNode(v, Some(name.to_string()))
}

#[test]
fn default_fills_an_omitted_parameter() {
    let registry = Registry::standard();
    let context = context_with_chart();
    let args = vec![positional(ValueNode::Ident("chart_val".to_string()))];
    let inv = call(&registry, "pad", &args, &context).unwrap();
    assert_eq!(inv.name, "pad");
    assert_eq!(inv.params.len(), 2);
    assert_eq!(inv.params[0].0, "chart");
    match &inv.params[0].1 {
        Value::Chart(c) => {
            assert_eq!(c.rows(), 2);
            assert_eq!(c.stitch(0, 0).unwrap(), '*');
            assert_eq!(c.stitch(1, 0).unwrap(), '.');
        }
        other => panic!("expected a chart, got {:?}", other),
    }
    assert_eq!(inv.params[1].0, "pad_size");
    assert!(matches!(inv.params[1].1, Value::Number(1)));
}

#[test]
fn named_argument_overrides_default() {
    let registry = Registry::standard();
    let context = context_with_chart();
    let args = vec![
        positional(ValueNode::Ident("chart_val".to_string())),
        named("pad_size", ValueNode::Number(5)),
    ];
    let inv = call(&registry, "pad", &args, &context).unwrap();
    assert!(matches!(inv.params[1].1, Value::Number(5)));
}

#[test]
fn unknown_named_parameter_is_reported() {
    let registry = Registry::standard();
    let context = context_with_chart();
    let args = vec![
        positional(ValueNode::Ident("chart_val".to_string())),
        named("pad_size", ValueNode::Number(5)),
        named("extra", ValueNode::Number(1)),
    ];
    match call(&registry, "pad", &args, &context) {
        Err(CallError::UnknownParam(builtin, name)) => {
            assert_eq!(builtin, "pad");
            assert_eq!(name, "extra");
        }
        other => panic!("expected an unknown parameter, got {:?}", other),
    }
}

#[test]
fn too_many_positional_arguments() {
    let registry = Registry::standard();
    let context = Context::new();
    let args = vec![
        positional(ValueNode::String("a".to_string())),
        positional(ValueNode::String("b".to_string())),
    ];
    match call(&registry, "read", &args, &context) {
        Err(CallError::TooManyArguments(builtin, expected, got)) => {
            assert_eq!(builtin, "read");
            assert_eq!(expected, 1);
            assert_eq!(got, 2);
        }
        other => panic!("expected too many arguments, got {:?}", other),
    }
}

#[test]
fn undefined_variable_is_reported() {
    let registry = Registry::standard();
    let context = Context::new();
    let args = vec![positional(ValueNode::Ident("nope".to_string()))];
    match call(&registry, "pad", &args, &context) {
        Err(CallError::UndefinedVariable(name)) => assert_eq!(name, "nope"),
        other => panic!("expected an undefined variable, got {:?}", other),
    }
}

#[test]
fn missing_required_parameter_is_reported() {
    let registry = Registry::standard();
    let context = Context::new();
    let args = vec![named("filename", ValueNode::String("out.knit".to_string()))];
    match call(&registry, "write", &args, &context) {
        Err(CallError::MissingArgument(builtin, param)) => {
            assert_eq!(builtin, "write");
            assert_eq!(param, "chart");
        }
        other => panic!("expected a missing argument, got {:?}", other),
    }
}

#[test]
fn later_named_argument_wins() {
    let builtin = Builtin::new(
        "f",
        vec![param("a", ParamType::Number), param_default("b", ParamType::Number, 9)],
    );
    let context = Context::new();
    let args = vec![
        positional(ValueNode::Number(1)),
        named("a", ValueNode::Number(2)),
        named("a", ValueNode::Number(3)),
    ];
    let inv = bind(&builtin, &args, &context).unwrap();
    assert!(matches!(inv.params[0].1, Value::Number(3)));
    assert!(matches!(inv.params[1].1, Value::Number(9)));
}

#[test]
fn literal_arguments_map_directly() {
    let builtin = Builtin::new(
        "f",
        vec![param("s", ParamType::String), param("b", ParamType::Number)],
    );
    let context = Context::new();
    let args = vec![
        positional(ValueNode::String("hi".to_string())),
        positional(ValueNode::Bool(true)),
    ];
    let inv = bind(&builtin, &args, &context).unwrap();
    assert_eq!(inv.params[0].1.as_string().unwrap(), "hi");
    assert!(matches!(inv.params[1].1, Value::Bool(true)));
    assert!(matches!(inv.params[1].1.as_chart(), Err(CallError::WrongValueType(Value::Bool(true)))));
}

#[test]
fn context_reassignment_overwrites() {
    let mut context = Context::new();
    assert!(!context.contains("x"));
    context.assign_variable("x", &Value::Number(1));
    context.assign_variable("x", &Value::String("two".to_string()));
    assert!(context.contains("x"));
    assert_eq!(context.get_variable("x").unwrap().as_string().unwrap(), "two");
    assert!(matches!(context.get_variable("y"), Err(CallError::UndefinedVariable(_))));
}

#[test]
fn pad_builtin_pads_the_bound_chart() {
    let registry = Registry::standard();
    let context = context_with_chart();
    let args = vec![positional(ValueNode::Ident("chart_val".to_string()))];
    let inv = call(&registry, "pad", &args, &context).unwrap();
    assert!(matches!(inv.param("pad_size"), Some(Value::Number(1))));
    assert!(inv.param("nothing").is_none());
    match dkparse::builtins::wrap_pad(&inv).unwrap() {
        Value::Chart(c) => {
            assert_eq!(c.rows(), 4);
            assert_eq!(c.cols(), 4);
            assert_eq!(c.write_to_string(), "CHART\n....\n.*..\n..*.\n....\n");
        }
        other => panic!("expected a chart, got {:?}", other),
    }
}

#[test]
fn pad_builtin_needs_a_chart() {
    let builtin = Builtin::new("pad", vec![param("chart", ParamType::Chart)]);
    let context = Context::new();
    let inv = bind(&builtin, &vec![positional(ValueNode::Number(3))], &context).unwrap();
    assert!(matches!(
        dkparse::builtins::wrap_pad(&inv),
        Err(CallError::WrongValueType(Value::Number(3)))
    ));
    let empty = bind(&Builtin::new("pad", vec![]), &vec![], &context).unwrap();
    assert!(matches!(
        dkparse::builtins::wrap_pad(&empty),
        Err(CallError::MissingArgument(_, _))
    ));
}

#[test]
#[should_panic]
fn test_defaults_before_non_defaults() {
    let mut registry = Registry::new();
    registry
        .register(Builtin::new(
            "foo",
            vec![
                param("foo", ParamType::String),
                param_default("bar", ParamType::String, 2),
                param("baz", ParamType::String),
            ],
        ))
        .unwrap();
}

#[test]
#[should_panic]
fn test_no_duplicate_builtins() {
    let mut registry = Registry::new();
    registry.register(Builtin::new("foo", vec![])).unwrap();
    registry.register(Builtin::new("foo", vec![])).unwrap();
}

#[test]
#[should_panic]
fn test_no_duplicate_params_names() {
    let mut registry = Registry::new();
    registry
        .register(Builtin::new(
            "foo",
            vec![param("dup", ParamType::String), param("dup", ParamType::String)],
        ))
        .unwrap();
}
