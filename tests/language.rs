use jllib::eval::{eval, eval_within, Builtin, Environment, Fault};
use jllib::json::{self, new_list, JObject, ToJObject};
use jllib::reader::{read, ReadError};
use jllib::stdlib::{self, array, import_builtin_library, io, logic, object, truthy};

fn name(s: &str) -> JObject {
    JObject::String(s.to_string())
}

fn num(n: i64) -> JObject {
    JObject::Number(n)
}

fn full_env() -> Environment {
    let mut env = Environment::init();
    stdlib::load_mod(&mut env);
    array::load_mod(&mut env);
    object::load_mod(&mut env);
    io::load_mod(&mut env);
    logic::load_mod(&mut env);
    env
}

fn run(env: &mut Environment, text: &str) -> Result<JObject, Fault> {
    eval(env, &json::parse(text))
}

fn bad_arity(detail: &str) -> JObject {
    JObject::List(vec![name("error"), name("bad-arity"), name(detail)])
}

#[test]
fn atoms_evaluate_to_themselves() {
    let env = &mut full_env();
    assert_eq!(eval(env, &JObject::Null), Ok(JObject::Null));
    assert_eq!(eval(env, &JObject::Bool(true)), Ok(JObject::Bool(true)));
    assert_eq!(eval(env, &JObject::Bool(false)), Ok(JObject::Bool(false)));
    assert_eq!(eval(env, &num(-17)), Ok(num(-17)));
    let f = JObject::new_func(vec!["a"], name("a"));
    assert_eq!(eval(env, &f), Ok(f.clone()));
}

#[test]
fn unbound_string_evaluates_to_itself() {
    let env = &mut full_env();
    assert_eq!(eval(env, &name("nobody")), Ok(name("nobody")));
}

#[test]
fn bound_value_is_evaluated_again() {
    let env = &mut full_env();
    env.define("y".to_string(), num(3));
    env.define("x".to_string(), name("y"));
    assert_eq!(run(env, "\"x\""), Ok(num(3)));
    env.define("l".to_string(), JObject::List(vec![num(1), num(2)]));
    assert_eq!(run(env, "\"l\""), Ok(JObject::Null));
}

#[test]
fn def_then_lookup() {
    let env = &mut full_env();
    assert_eq!(run(env, r#"["def", "x", 5]"#), Ok(num(5)));
    assert_eq!(run(env, "\"x\""), Ok(num(5)));
    assert_eq!(run(env, r#"["def", "x", 6]"#), Ok(num(6)));
    assert_eq!(env.lookup(&"x".to_string()), Some(num(6)));
}

#[test]
fn zero_parameter_function_call() {
    let env = &mut full_env();
    env.define("f0".to_string(), JObject::new_func(vec![], num(12)));
    assert_eq!(run(env, r#"["f0"]"#), Ok(num(12)));
}

#[test]
fn quasiquote_splices_one_value() {
    let env = &mut full_env();
    env.define("pi".to_string(), num(3));
    assert_eq!(
        run(env, r#"["quasiquote", [1, ["splice-unquote", "pi"], 2]]"#),
        Ok(JObject::List(vec![num(1), num(3), num(2)]))
    );
    env.define("l".to_string(), JObject::List(vec![num(7), num(8)]));
    assert_eq!(
        run(env, r#"["quasiquote", [1, ["splice-unquote", ["quote", [7, 8]]]]]"#),
        Ok(JObject::List(vec![num(1), JObject::List(vec![num(7), num(8)])]))
    );
}

#[test]
fn quasiquote_unquote_and_verbatim() {
    let env = &mut full_env();
    env.define("pi".to_string(), num(3));
    assert_eq!(run(env, r#"["quasiquote", ["unquote", "pi"]]"#), Ok(num(3)));
    assert_eq!(run(env, r#"["quasiquote", "pi"]"#), Ok(name("pi")));
    assert_eq!(
        run(env, r#"["quasiquote", [["x", ["splice-unquote", "pi"]], "pi"]]"#),
        Ok(json::parse(r#"[["x", ["splice-unquote", "pi"]], "pi"]"#))
    );
    assert_eq!(run(env, r#"["quasiquote", 1, 2]"#), Ok(bad_arity("2 != 1")));
}

#[test]
fn if_does_not_run_the_other_branch() {
    let env = &mut full_env();
    assert_eq!(run(env, r#"["if", false, ["crash"], 7]"#), Ok(num(7)));
    assert_eq!(run(env, r#"["if", 0, 8, ["crash"]]"#), Ok(num(8)));
    assert_eq!(run(env, r#"["if", [], ["crash"], 9]"#), Ok(num(9)));
    assert_eq!(run(env, r#"["if", true, 1]"#), Ok(bad_arity("2 != 3")));
}

#[test]
fn crash_is_a_fault() {
    let env = &mut full_env();
    assert_eq!(run(env, r#"["crash"]"#), Err(Fault::Crash));
}

#[test]
fn head_tail_len_wrong_arity() {
    let env = &mut full_env();
    assert_eq!(run(env, r#"["head", ["quote", []], 2]"#), Ok(bad_arity("2 != 1")));
    assert_eq!(run(env, r#"["tail"]"#), Ok(bad_arity("0 != 1")));
    assert_eq!(run(env, r#"["len", 1, 2, 3]"#), Ok(bad_arity("3 != 1")));
    assert_eq!(run(env, r#"["map"]"#), Ok(bad_arity("0 != 2")));
    assert_eq!(run(env, r#"["head", ["map"]]"#), Ok(name("error")));
}

#[test]
fn head_tail_len_on_lists() {
    let env = &mut full_env();
    assert_eq!(run(env, r#"["head", ["quote", [4, 5]]]"#), Ok(num(4)));
    assert_eq!(run(env, r#"["head", ["quote", []]]"#), Ok(JObject::Null));
    assert_eq!(run(env, r#"["head", 3]"#), Ok(JObject::List(vec![])));
    assert_eq!(run(env, r#"["tail", ["quote", [4, 5]]]"#), Ok(JObject::List(vec![num(5)])));
    assert_eq!(run(env, r#"["tail", ["quote", []]]"#), Ok(JObject::List(vec![])));
    assert_eq!(run(env, r#"["len", ["quote", [4, 5, 6]]]"#), Ok(num(3)));
    assert_eq!(run(env, r#"["len", 4]"#), Ok(num(1)));
}

#[test]
fn map_applies_a_function() {
    let env = &mut full_env();
    assert_eq!(
        run(env, r#"["map", ["f", ["x"], ["type", "x"]], ["quote", [1, "s", null]]]"#),
        Ok(JObject::List(vec![name("Number"), name("String"), name("Null")]))
    );
    assert_eq!(run(env, r#"["map", ["f", ["x"], "x"], 3]"#), Ok(JObject::Null));
}

#[test]
fn macro_with_missing_argument_is_fatal() {
    let env = &mut full_env();
    env.define("return-22".to_string(), JObject::new_macro(vec!["x"], num(22)));
    assert_eq!(run(env, "[\"return-22\"]"), Err(Fault::Arity { expected: 1, given: 0 }));
}

#[test]
fn function_arity_mismatch_is_fatal() {
    let env = &mut full_env();
    env.define("id".to_string(), JObject::new_func(vec!["x"], name("x")));
    assert_eq!(run(env, r#"["id", 1, 2]"#), Err(Fault::Arity { expected: 1, given: 2 }));
}

#[test]
fn macro_result_is_evaluated() {
    let env = &mut full_env();
    assert_eq!(
        run(env, r#"["program", ["def", "m", ["macro", ["a"], ["quote", ["len", ["quote", [1, 2]]]]]], ["m", ["crash"]]]"#),
        Ok(num(2))
    );
    assert_eq!(
        run(env, r#"["program", ["def", "twice", ["macro", ["a"], ["quasiquote", ["program", ["splice-unquote", "a"], "a"]]]], ["twice", ["def", "n", 4]]]"#),
        Ok(num(4))
    );
    assert_eq!(run(env, r#"["macro", ["a"], "a"]"#), Ok(JObject::new_macro(vec!["a"], name("a"))));
}

#[test]
fn def_f_macro_faults() {
    let env = &mut full_env();
    assert_eq!(run(env, r#"["def", 1, 2]"#), Err(Fault::NotAName));
    assert_eq!(run(env, r#"["f", [1], 2]"#), Err(Fault::BadParameter));
    assert_eq!(run(env, r#"["macro", ["a", 2], 2]"#), Err(Fault::BadParameter));
    assert_eq!(run(env, r#"["f", 1, 2]"#), Err(Fault::BadParameter));
    assert_eq!(run(env, r#"["macro", "a", 2]"#), Err(Fault::BadParameter));
    assert_eq!(run(env, r#"["def", "x"]"#), Ok(bad_arity("1 != 2")));
}

#[test]
fn nesting_budget_runs_out() {
    let env = &mut full_env();
    env.define("loop".to_string(), name("loop"));
    assert_eq!(eval_within(env, &name("loop"), 500), Err(Fault::TooDeep));
    assert_eq!(eval_within(env, &num(1), 0), Err(Fault::TooDeep));
    assert_eq!(eval_within(env, &num(1), 1), Ok(num(1)));
}

#[test]
fn recursion_through_the_global_scope() {
    let env = &mut full_env();
    let prog = r#"["program",
        ["def", "again", ["f", ["n"], ["if", "n", ["again", false], "done"]]],
        ["again", true]]"#;
    assert_eq!(run(env, prog), Ok(name("done")));
    assert_eq!(env.lookup(&"n".to_string()), Some(JObject::Bool(false)));
}

#[test]
fn program_gives_the_last_value() {
    let env = &mut full_env();
    assert_eq!(run(env, r#"["program", 1, 2, 3]"#), Ok(num(3)));
    assert_eq!(run(env, r#"["program"]"#), Ok(JObject::Null));
}

#[test]
fn type_names() {
    let env = &mut full_env();
    assert_eq!(run(env, r#"["type", 1]"#), Ok(name("Number")));
    assert_eq!(
        run(env, r#"["type", null, true, "s", ["quote", []], {"a": 1}, ["f", [], 1]]"#),
        Ok(JObject::List(vec![
            name("Null"),
            name("Bool"),
            name("String"),
            name("List"),
            name("Map"),
            name("Func")
        ]))
    );
    assert_eq!(run(env, r#"["type"]"#), Ok(JObject::List(vec![])));
    assert_eq!(JObject::new_macro(vec![], num(1)).typename(), "Macro".to_string());
}

#[test]
fn to_string_prints() {
    let env = &mut full_env();
    assert_eq!(run(env, r#"["->string", ["quote", [1, "a", false]]]"#), Ok(name(r#"[1,"a",false]"#)));
    assert_eq!(run(env, r#"["->string", ["f", ["x"], "x"]]"#), Ok(name(r#"["f",["x"],"x"]"#)));
}

#[test]
fn printed_forms() {
    assert_eq!(JObject::Null.to_text(), "[]");
    assert_eq!(JObject::Bool(true).to_text(), "true");
    assert_eq!(JObject::Bool(false).to_text(), "false");
    assert_eq!(num(0).to_text(), "0");
    assert_eq!(num(-405).to_text(), "-405");
    assert_eq!(num(i64::MIN).to_text(), "-9223372036854775808");
    assert_eq!(name("a b").to_text(), "\"a b\"");
    let m = JObject::Object(vec![("a".to_string(), num(1)), ("b".to_string(), JObject::List(vec![]))]);
    assert_eq!(m.to_text(), r#"{"a":1,"b":[]}"#);
    assert_eq!(JObject::new_macro(vec!["p", "q"], num(1)).to_text(), r#"["macro",["p","q"],1]"#);
}

#[test]
fn maps_evaluate_their_values() {
    let env = &mut full_env();
    env.define("pi".to_string(), num(3));
    assert_eq!(
        run(env, r#"{"pi": "pi", "two": ["len", ["quote", [1, 2]]]}"#),
        Ok(JObject::Object(vec![("pi".to_string(), num(3)), ("two".to_string(), num(2))]))
    );
}

#[test]
fn contains_key_and_insert() {
    let env = &mut full_env();
    assert_eq!(run(env, r#"["contains-key", {"a": 1}, "a"]"#), Ok(JObject::Bool(true)));
    assert_eq!(run(env, r#"["contains-key", {"a": 1}, "b"]"#), Ok(JObject::Bool(false)));
    assert_eq!(run(env, r#"["contains-key", 1, "b"]"#), Ok(JObject::Bool(false)));
    assert_eq!(run(env, r#"["contains-key", 1]"#), Ok(bad_arity("1 != 2")));
    assert_eq!(
        run(env, r#"["insert", {"a": 1}, "a", 2]"#),
        Ok(JObject::Object(vec![("a".to_string(), num(2))]))
    );
    assert_eq!(
        run(env, r#"["insert", {"a": 1}, 12, 2]"#),
        Ok(JObject::Object(vec![("a".to_string(), num(1)), ("12".to_string(), num(2))]))
    );
    assert_eq!(run(env, r#"["insert", {"a": 1}, "a"]"#), Ok(bad_arity("2 != 3")));
    assert_eq!(run(env, r#"["insert", 1, "a", 2]"#), Ok(JObject::Null));
}

#[test]
fn or_stops_at_the_first_true() {
    let env = &mut full_env();
    assert_eq!(run(env, r#"["or", false, 1, ["crash"]]"#), Ok(JObject::Bool(true)));
    assert_eq!(run(env, r#"["or", false, null, []]"#), Ok(JObject::Bool(false)));
}

#[test]
fn println_writes_lines() {
    let env = &mut full_env();
    assert_eq!(run(env, r#"["println", 1, "a"]"#), Ok(JObject::Null));
    assert_eq!(env.take_output(), vec!["1".to_string(), "\"a\"".to_string()]);
    assert!(env.take_output().is_empty());
}

#[test]
fn import_modules() {
    let env = &mut Environment::init();
    stdlib::load_mod(env);
    assert_eq!(run(env, r#"["len", ["quote", [1]]]"#), Ok(JObject::Null));
    assert_eq!(run(env, r#"["import", "std::array", "std::logic"]"#), Ok(name("ok")));
    assert_eq!(run(env, r#"["len", ["quote", [1]]]"#), Ok(num(1)));
    let bad_import = JObject::List(vec![name("error"), name("bad-import")]);
    assert_eq!(run(env, r#"["import", "std::nothing"]"#), Ok(bad_import.clone()));
    assert_eq!(run(env, r#"["import", 3, "std::io"]"#), Ok(bad_import.clone()));
    assert_eq!(import_builtin_library(env, &"std::object".to_string()), name("ok"));
    assert_eq!(env.lookup_builtin(&"insert".to_string()), Some(Builtin::Insert));
    assert_eq!(env.lookup_builtin(&"println".to_string()), None);
}

#[test]
fn unknown_and_uncallable_heads() {
    let env = &mut full_env();
    assert_eq!(run(env, r#"["nothing-here", 1]"#), Ok(JObject::Null));
    assert_eq!(run(env, "[1, 2]"), Ok(JObject::Null));
    assert_eq!(
        env.take_output(),
        vec![
            "unknown function: nothing-here".to_string(),
            "1st element of list is not function-like: 1".to_string()
        ]
    );
    assert_eq!(run(env, "[]"), Ok(JObject::List(vec![])));
}

#[test]
fn list_head_is_evaluated_first() {
    let env = &mut full_env();
    assert_eq!(run(env, r#"[["f", ["x"], "x"], 9]"#), Ok(num(9)));
}

#[test]
fn truthiness() {
    assert!(!truthy(&JObject::Null));
    assert!(!truthy(&JObject::Bool(false)));
    assert!(!truthy(&JObject::List(vec![])));
    assert!(truthy(&num(0)));
    assert!(truthy(&name("")));
    assert!(truthy(&JObject::Object(vec![])));
}

#[test]
fn lists_of_plain_values() {
    assert_eq!(
        new_list(&["error", "bad-import"]),
        JObject::List(vec![name("error"), name("bad-import")])
    );
    assert_eq!(new_list(&[1i64, 2i64]), JObject::List(vec![num(1), num(2)]));
    assert_eq!(true.to_jobject(), JObject::Bool(true));
    assert_eq!(vec![num(1)].to_jobject(), JObject::List(vec![num(1)]));
    assert_eq!("x".to_string().to_jobject(), name("x"));
    assert_eq!("y".to_jobject(), name("y"));
    assert_eq!(new_list(&["a"]), JObject::List(vec![name("a")]));
}

#[test]
fn read_values() {
    assert_eq!(read("  null"), Ok(JObject::Null));
    assert_eq!(read("\"a b\" tail"), Ok(name("a b")));
    assert_eq!(read("[1,]"), Ok(JObject::List(vec![num(1)])));
    assert_eq!(
        read(r#"{"a" : 1, "b": [true], "a": 2}"#),
        Ok(JObject::Object(vec![("a".to_string(), num(2)), ("b".to_string(), JObject::List(vec![JObject::Bool(true)]))]))
    );
    assert_eq!(read(""), Ok(JObject::Null));
    assert_eq!(read("{}"), Ok(JObject::Object(vec![])));
    assert_eq!(json::parse(" { } "), JObject::Object(vec![]));
    assert_eq!(
        json::parse("[{ },1]"),
        JObject::List(vec![JObject::Object(vec![]), num(1)])
    );
    assert_eq!(read("9223372036854775807"), Ok(num(i64::MAX)));
    assert_eq!(read("007"), Ok(num(7)));
}

#[test]
fn read_faults() {
    assert_eq!(read("\"open"), Err(ReadError::Unterminated));
    assert_eq!(read("[1, 2"), Err(ReadError::Unterminated));
    assert_eq!(read("[1 2]"), Err(ReadError::Unterminated));
    assert_eq!(read(r#"{"a": 1"#), Err(ReadError::Unterminated));
    assert_eq!(read("9223372036854775808"), Err(ReadError::NumberTooLarge));
    assert_eq!(read("[{\"a\": 1,}]"), Err(ReadError::Unterminated));
}

#[test]
fn print_then_read() {
    let v = JObject::List(vec![
        num(12),
        JObject::Bool(false),
        name("s p"),
        JObject::Object(vec![("k".to_string(), JObject::List(vec![]))]),
        JObject::List(vec![JObject::List(vec![num(0)])]),
    ]);
    assert_eq!(json::parse(&v.to_text()), v);
    assert_eq!(json::parse(&JObject::Null.to_text()), JObject::List(vec![]));
    let empty = JObject::Object(vec![]);
    assert_eq!(json::parse(&empty.to_text()), empty);
}
