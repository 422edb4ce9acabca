use jllib::eval::{eval, Environment};
use jllib::json::{self, JObject};
use jllib::stdlib;

fn name(s: &str) -> JObject {
    JObject::String(s.to_string())
}

#[test]
fn test_env() {
    let env = &mut Environment::init();
    env.define("x".to_string(), JObject::Number(3));

    let expr = json::parse("\"x\"");
    let result = eval(env, &expr);

    assert_eq!(result, Ok(JObject::Number(3)));
}

#[test]
fn test_builtin_def() {
    let env = &mut Environment::init();
    stdlib::load_mod(env);
    let _ = eval(env, &json::parse(r#"["def", "e", 3]")"#));
    assert_eq!(env.lookup(&"e".to_string()), Some(JObject::Number(3)));
}

#[test]
fn test_quasiquote() {
    let env = &mut Environment::init();
    env.define("pi".to_string(), JObject::Number(3));
    let cmd = r#"["quasiquote", [1, ["splice-unquote", "pi"], 2]]"#;
    stdlib::load_mod(env);

    let o = json::parse(cmd);
    let new_o = eval(env, &o);
    assert!(new_o == Ok(json::parse(r#"[1,3,2]"#)))
}

#[test]
fn test_func_literal() {
    let env = &mut Environment::init();
    stdlib::load_mod(env);

    let prog = eval(env, &json::parse(r#"["f", [], 123]"#));
    assert_eq!(prog, Ok(JObject::new_func(vec![], JObject::Number(123))),);
}

#[test]
fn test_func_args() {
    let env = &mut Environment::init();

    env.define("f".to_string(), JObject::new_func(vec!["x"], name("x")));

    let o = json::parse("[\"f\", 1]");
    assert_eq!(o, JObject::List(vec![name("f"), JObject::Number(1)]))
}

#[test]
fn test_func_as_list() {
    let env = &mut Environment::init();

    let func = JObject::new_func(vec!["x"], name("x"));
    let list = JObject::List(vec![func, JObject::Number(42)]);

    let result = eval(env, &list);

    assert_eq!(result, Ok(JObject::Number(42)))
}

#[test]
fn test_func_call() {
    let env = &mut Environment::init();
    env.define(
        "x".to_string(),
        JObject::new_func(vec![], name("a funmtciun wer called")),
    );

    let o = json::parse("[\"x\"]");
    assert_eq!(o, JObject::List(vec![name("x")]));

    let res = eval(env, &o);
    assert_eq!(res, Ok(name("a funmtciun wer called")));
}

#[test]
fn call_function_in_function_body() {
    let env = &mut Environment::init();
    env.define("id".to_string(), JObject::new_func(vec!["x"], name("x")));
    env.define("one".to_string(), JObject::new_func(vec![], JObject::Number(1)));

    let o = json::parse(r#"["id", ["one"]]"#);
    let res = eval(env, &o);

    assert_eq!(res, Ok(JObject::Number(1)));
}

#[test]
fn macro_simple() {
    let env = &mut Environment::init();
    env.define("return-22".to_string(), JObject::new_macro(vec![], JObject::Number(22)));

    let o = json::parse("[\"return-22\"]");
    assert_eq!(o, JObject::List(vec![name("return-22")]));

    let res = eval(env, &o);
    assert_eq!(res, Ok(JObject::Number(22)));
}

#[test]
fn test_bool() {
    assert_eq!(json::parse("true"), JObject::Bool(true));
    assert_eq!(json::parse("false"), JObject::Bool(false));
}

#[test]
fn test_parse_list() {
    assert_eq!(json::parse("[]"), JObject::List(vec![]));
    assert_eq!(json::parse("[1]"), JObject::List(vec![JObject::Number(1)]));
    assert_eq!(
        json::parse("[12]"),
        JObject::List(vec![JObject::Number(12)])
    );
    assert_eq!(
        json::parse("[1, 2]"),
        JObject::List(vec![JObject::Number(1), JObject::Number(2)])
    );

    assert_eq!(
        json::parse("[[]]"),
        JObject::List(vec![JObject::List(vec![])])
    );
    assert_eq!(
        json::parse("[[[]]]"),
        JObject::List(vec![JObject::List(vec![JObject::List(vec![])])])
    );
    assert_eq!(
        json::parse("[[1]]"),
        JObject::List(vec![JObject::List(vec![JObject::Number(1)])])
    );
    assert_eq!(
        json::parse("[[1, 1]]"),
        JObject::List(vec![JObject::List(vec![
            JObject::Number(1),
            JObject::Number(1)
        ])])
    );
    assert_eq!(
        json::parse("[[1], 1]"),
        JObject::List(vec![
            JObject::List(vec![JObject::Number(1)]),
            JObject::Number(1)
        ])
    );
    assert_eq!(
        json::parse(r#"[["f", ["x"], 1], 1]")"#),
        JObject::List(vec![
            JObject::List(vec![
                name("f"),
                JObject::List(vec![name("x")]),
                JObject::Number(1)
            ]),
            JObject::Number(1)
        ])
    );
}
