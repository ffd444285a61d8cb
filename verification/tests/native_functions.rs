use rsp::ast::{Environment, Expr, LispFunction, LispModule, NativeFn, NativeFunction};
use rsp::error::LispError;
use rsp::eval::eval;
use rsp::interp::{ArithOp, Host, Interpreter};
use rsp::parser::parse_expr;
use rsp::builtins::{native_add, native_divide, native_equals, native_log_error, native_log_info, native_multiply, native_subtract};
use rsp::globals::{create_list_module, create_log_module, create_math_module, create_string_module};
use std::collections::HashMap;

/// A host that computes with `f64`, keeps the lines it is asked to print, and
/// serves module files from memory.
struct TestHostN {
    files: HashMap<String, String>,
    printed: Vec<(bool, String)>,
}

impl Host for TestHostN {
    fn arith(&mut self, op: ArithOp, a: u64, b: u64) -> u64 {
        let (x, y) = (f64::from_bits(a), f64::from_bits(b));
        let r = match op {
            ArithOp::Add => x + y,
            ArithOp::Sub => x - y,
            ArithOp::Mul => x * y,
            ArithOp::Div => x / y,
        };
        r.to_bits()
    }

    fn int_to_number(&mut self, n: u64) -> u64 {
        (n as f64).to_bits()
    }

    fn show_number(&mut self, bits: u64, debug: bool) -> String {
        let x = f64::from_bits(bits);
        if debug { format!("{:?}", x) } else { format!("{}", x) }
    }

    fn print(&mut self, to_stderr: bool, text: &str) {
        self.printed.push((to_stderr, text.to_string()));
    }

    fn resolve_module(&mut self, path: &str) -> Result<String, LispError> {
        let canonical = format!("/modules/{}", path);
        if self.files.contains_key(&canonical) {
            Ok(canonical)
        } else {
            Err(LispError::ModuleNotFound(canonical))
        }
    }

    fn read_module(&mut self, path: &str) -> Result<String, LispError> {
        match self.files.get(path) {
            Some(text) => Ok(text.clone()),
            None => Err(LispError::ModuleNotFound(path.to_string())),
        }
    }
}

fn interp_n() -> Interpreter<TestHostN> {
    Interpreter::new(TestHostN { files: HashMap::new(), printed: Vec::new() })
}

fn num_n(x: f64) -> Expr {
    Expr::Number(x.to_bits())
}

/// Reads one expression from `code` and evaluates it.
fn eval_str(code: &str, env: Environment, it: &mut Interpreter<TestHostN>) -> Result<Expr, LispError> {
    let (remaining, parsed) = match parse_expr(code) {
        Ok(p) => p,
        Err(e) => panic!("Test parse error for code '{}': {:?}", code, e),
    };
    if !remaining.is_empty() {
        panic!("Unexpected remaining input after parsing in test for code '{}': {}", code, remaining);
    }
    eval(&parsed.expect("an expression"), env, it)
}

/// An environment with the prelude where the string functions are also
/// bound as `string.<name>`.
fn env_with_testable_string_functions(it: &mut Interpreter<TestHostN>) -> Environment {
    let env = Environment::new_with_prelude(it);
    let functions = [
        ("concat", NativeFn::StringConcat),
        ("reverse", NativeFn::StringReverse),
        ("len", NativeFn::StringLen),
        ("to-upper", NativeFn::StringToUpper),
        ("to-lower", NativeFn::StringToLower),
        ("trim", NativeFn::StringTrim),
    ];
    for (name, func) in functions {
        let full = format!("string.{}", name);
        env.define(it, full.clone(), Expr::NativeFunction(NativeFunction { name: full, func }));
    }
    env
}

// Tests of builtins/math/mod.rs

#[test]
fn mod_test_native_add_simple() {
    let mut it = interp_n();
    let env = Environment::new(&mut it); // Use blank env for this specific test setup
    env.define(&mut it, 
        "+".to_string(),
        Expr::NativeFunction(NativeFunction {
            name: "+".to_string(),
            func: NativeFn::Add,
        }),
    );
    // (+ 1 2)
    let expr = Expr::List(vec![
        Expr::Symbol("+".to_string()),
        num_n(1.0),
        num_n(2.0),
    ]);
    assert_eq!(eval(&expr, env, &mut it), Ok(num_n(3.0)));
}

#[test]
fn mod_test_native_add_multiple_args() {
    let mut it = interp_n();
    let env = Environment::new(&mut it); // Use blank env
    env.define(&mut it, 
        "+".to_string(),
        Expr::NativeFunction(NativeFunction {
            name: "+".to_string(),
            func: NativeFn::Add,
        }),
    );
    // (+ 1 2 3 4)
    let expr = Expr::List(vec![
        Expr::Symbol("+".to_string()),
        num_n(1.0),
        num_n(2.0),
        num_n(3.0),
        num_n(4.0),
    ]);
    assert_eq!(eval(&expr, env, &mut it), Ok(num_n(10.0)));
}

#[test]
fn mod_test_native_add_no_args() {
    let mut it = interp_n();
    let env = Environment::new(&mut it); // Use blank env
    env.define(&mut it, 
        "+".to_string(),
        Expr::NativeFunction(NativeFunction {
            name: "+".to_string(),
            func: NativeFn::Add,
        }),
    );
    // (+)
    let expr = Expr::List(vec![Expr::Symbol("+".to_string())]);
    assert_eq!(eval(&expr, env, &mut it), Ok(num_n(0.0)));
}

#[test]
fn mod_test_native_add_type_error() {
    let mut it = interp_n();
    let env = Environment::new(&mut it); // Use blank env
    env.define(&mut it, 
        "+".to_string(),
        Expr::NativeFunction(NativeFunction {
            name: "+".to_string(),
            func: NativeFn::Add,
        }),
    );
    // (+ 1 true)
    let expr = Expr::List(vec![
        Expr::Symbol("+".to_string()),
        num_n(1.0),
        Expr::Bool(true), // Not a number
    ]);
    assert_eq!(
        eval(&expr, env, &mut it),
        Err(LispError::TypeError {
            expected: "Number".to_string(),
            found: "Bool(true)".to_string()
        })
    );
}

#[test]
fn mod_test_native_equals_true() {
    let mut it = interp_n();
    let env = Environment::new(&mut it); // Use blank env
    env.define(&mut it, 
        "=".to_string(),
        Expr::NativeFunction(NativeFunction {
            name: "=".to_string(),
            func: NativeFn::Equals,
        }),
    );
    // (= 5 5.0)
    let expr = Expr::List(vec![
        Expr::Symbol("=".to_string()),
        num_n(5.0),
        num_n(5.0),
    ]);
    assert_eq!(eval(&expr, env, &mut it), Ok(Expr::Bool(true)));
}

#[test]
fn mod_test_native_equals_false() {
    let mut it = interp_n();
    let env = Environment::new(&mut it); // Use blank env
    env.define(&mut it, 
        "=".to_string(),
        Expr::NativeFunction(NativeFunction {
            name: "=".to_string(),
            func: NativeFn::Equals,
        }),
    );
    // (= 5 6)
    let expr = Expr::List(vec![
        Expr::Symbol("=".to_string()),
        num_n(5.0),
        num_n(6.0),
    ]);
    assert_eq!(eval(&expr, env, &mut it), Ok(Expr::Bool(false)));
}

#[test]
fn mod_test_native_equals_multiple_true() {
    let mut it = interp_n();
    let env = Environment::new(&mut it); // Use blank env
    env.define(&mut it, 
        "=".to_string(),
        Expr::NativeFunction(NativeFunction {
            name: "=".to_string(),
            func: NativeFn::Equals,
        }),
    );
    // (= 3 3 3 3)
    let expr = Expr::List(vec![
        Expr::Symbol("=".to_string()),
        num_n(3.0),
        num_n(3.0),
        num_n(3.0),
        num_n(3.0),
    ]);
    assert_eq!(eval(&expr, env, &mut it), Ok(Expr::Bool(true)));
}

#[test]
fn mod_test_native_equals_multiple_false() {
    let mut it = interp_n();
    let env = Environment::new(&mut it); // Use blank env
    env.define(&mut it, 
        "=".to_string(),
        Expr::NativeFunction(NativeFunction {
            name: "=".to_string(),
            func: NativeFn::Equals,
        }),
    );
    // (= 3 3 4 3)
    let expr = Expr::List(vec![
        Expr::Symbol("=".to_string()),
        num_n(3.0),
        num_n(3.0),
        num_n(4.0),
        num_n(3.0),
    ]);
    assert_eq!(eval(&expr, env, &mut it), Ok(Expr::Bool(false)));
}

#[test]
fn mod_test_native_equals_arity_error_too_few() {
    let mut it = interp_n();
    let env = Environment::new(&mut it); // Use blank env
    env.define(&mut it, 
        "=".to_string(),
        Expr::NativeFunction(NativeFunction {
            name: "=".to_string(),
            func: NativeFn::Equals,
        }),
    );
    // (= 5)
    let expr = Expr::List(vec![Expr::Symbol("=".to_string()), num_n(5.0)]);
    assert_eq!(
        eval(&expr, env, &mut it),
        Err(LispError::ArityMismatch(
            "Native '=' expects at least 2 arguments for numeric comparison, got 1".to_string()
        ))
    );
}

#[test]
fn mod_test_native_equals_type_error() {
    let mut it = interp_n();
    let env = Environment::new(&mut it); // Use blank env
    env.define(&mut it, 
        "=".to_string(),
        Expr::NativeFunction(NativeFunction {
            name: "=".to_string(),
            func: NativeFn::Equals,
        }),
    );
    // (= 5 nil)
    let expr = Expr::List(vec![
        Expr::Symbol("=".to_string()),
        num_n(5.0),
        Expr::Nil, // Not a number
    ]);
    assert_eq!(
        eval(&expr, env, &mut it),
        Err(LispError::TypeError {
            expected: "Number".to_string(),
            found: "Nil".to_string()
        })
    );
}

#[test]
fn mod_test_native_multiply_simple() {
    let mut it = interp_n();
    let env = Environment::new_with_prelude(&mut it); // Uses prelude which now includes *
    // (* 2 3)
    let expr = Expr::List(vec![
        Expr::Symbol("*".to_string()),
        num_n(2.0),
        num_n(3.0),
    ]);
    assert_eq!(eval(&expr, env, &mut it), Ok(num_n(6.0)));
}

#[test]
fn mod_test_native_multiply_multiple_args() {
    let mut it = interp_n();
    let env = Environment::new_with_prelude(&mut it);
    // (* 1 2 3 4)
    let expr = Expr::List(vec![
        Expr::Symbol("*".to_string()),
        num_n(1.0),
        num_n(2.0),
        num_n(3.0),
        num_n(4.0),
    ]);
    assert_eq!(eval(&expr, env, &mut it), Ok(num_n(24.0)));
}

#[test]
fn mod_test_native_multiply_no_args() {
    let mut it = interp_n();
    let env = Environment::new_with_prelude(&mut it);
    // (*)
    let expr = Expr::List(vec![Expr::Symbol("*".to_string())]);
    assert_eq!(eval(&expr, env, &mut it), Ok(num_n(1.0)));
}

#[test]
fn mod_test_native_multiply_one_arg() {
    let mut it = interp_n();
    let env = Environment::new_with_prelude(&mut it);
    // (* 5)
    let expr = Expr::List(vec![Expr::Symbol("*".to_string()), num_n(5.0)]);
    assert_eq!(eval(&expr, env, &mut it), Ok(num_n(5.0)));
}

#[test]
fn mod_test_native_multiply_with_zero() {
    let mut it = interp_n();
    let env = Environment::new_with_prelude(&mut it);
    // (* 5 0 2)
    let expr = Expr::List(vec![
        Expr::Symbol("*".to_string()),
        num_n(5.0),
        num_n(0.0),
        num_n(2.0),
    ]);
    assert_eq!(eval(&expr, env, &mut it), Ok(num_n(0.0)));
}

#[test]
fn mod_test_native_multiply_type_error() {
    let mut it = interp_n();
    let env = Environment::new_with_prelude(&mut it);
    // (* 2 true)
    let expr = Expr::List(vec![
        Expr::Symbol("*".to_string()),
        num_n(2.0),
        Expr::Bool(true), // Not a number
    ]);
    assert_eq!(
        eval(&expr, env, &mut it),
        Err(LispError::TypeError {
            expected: "Number".to_string(),
            found: "Bool(true)".to_string()
        })
    );
}

#[test]
fn test_native_subtract_simple() {
    let mut it = interp_n();
    let env = Environment::new_with_prelude(&mut it);
    // (- 5 2)
    let expr = Expr::List(vec![
        Expr::Symbol("-".to_string()),
        num_n(5.0),
        num_n(2.0),
    ]);
    assert_eq!(eval(&expr, env, &mut it), Ok(num_n(3.0)));
}

#[test]
fn test_native_subtract_multiple_args() {
    let mut it = interp_n();
    let env = Environment::new_with_prelude(&mut it);
    // (- 10 1 2 3)
    let expr = Expr::List(vec![
        Expr::Symbol("-".to_string()),
        num_n(10.0),
        num_n(1.0),
        num_n(2.0),
        num_n(3.0),
    ]);
    assert_eq!(eval(&expr, env, &mut it), Ok(num_n(4.0)));
}

#[test]
fn test_native_subtract_negation() {
    let mut it = interp_n();
    let env = Environment::new_with_prelude(&mut it);
    // (- 5)
    let expr = Expr::List(vec![Expr::Symbol("-".to_string()), num_n(5.0)]);
    assert_eq!(eval(&expr, env, &mut it), Ok(num_n(-5.0)));
}

#[test]
fn test_native_subtract_no_args_error() {
    let mut it = interp_n();
    let env = Environment::new_with_prelude(&mut it);
    // (-)
    let expr = Expr::List(vec![Expr::Symbol("-".to_string())]);
    assert_eq!(
        eval(&expr, env, &mut it),
        Err(LispError::ArityMismatch(
            "Native '-' expects at least 1 argument, got 0".to_string()
        ))
    );
}

#[test]
fn test_native_subtract_type_error() {
    let mut it = interp_n();
    let env = Environment::new_with_prelude(&mut it);
    // (- 10 true)
    let expr = Expr::List(vec![
        Expr::Symbol("-".to_string()),
        num_n(10.0),
        Expr::Bool(true), // Not a number
    ]);
    assert_eq!(
        eval(&expr, env, &mut it),
        Err(LispError::TypeError {
            expected: "Number".to_string(),
            found: "Bool(true)".to_string()
        })
    );
}

#[test]
fn test_native_subtract_type_error_negation() {
    let mut it = interp_n();
    let env = Environment::new_with_prelude(&mut it);
    // (- true)
    let expr = Expr::List(vec![Expr::Symbol("-".to_string()), Expr::Bool(true)]);
    assert_eq!(
        eval(&expr, env, &mut it),
        Err(LispError::TypeError {
            expected: "Number".to_string(),
            found: "Bool(true)".to_string()
        })
    );
}

#[test]
fn test_native_divide_simple() {
    let mut it = interp_n();
    let env = Environment::new_with_prelude(&mut it);
    // (/ 10 2)
    let expr = Expr::List(vec![
        Expr::Symbol("/".to_string()),
        num_n(10.0),
        num_n(2.0),
    ]);
    assert_eq!(eval(&expr, env, &mut it), Ok(num_n(5.0)));
}

#[test]
fn test_native_divide_multiple_args() {
    let mut it = interp_n();
    let env = Environment::new_with_prelude(&mut it);
    // (/ 100 2 5)
    let expr = Expr::List(vec![
        Expr::Symbol("/".to_string()),
        num_n(100.0),
        num_n(2.0),
        num_n(5.0),
    ]);
    assert_eq!(eval(&expr, env, &mut it), Ok(num_n(10.0)));
}

#[test]
fn test_native_divide_reciprocal() {
    let mut it = interp_n();
    let env = Environment::new_with_prelude(&mut it);
    // (/ 4)
    let expr = Expr::List(vec![Expr::Symbol("/".to_string()), num_n(4.0)]);
    assert_eq!(eval(&expr, env, &mut it), Ok(num_n(0.25)));
}

#[test]
fn test_native_divide_reciprocal_zero_error() {
    let mut it = interp_n();
    let env = Environment::new_with_prelude(&mut it);
    // (/ 0)
    let expr = Expr::List(vec![Expr::Symbol("/".to_string()), num_n(0.0)]);
    assert_eq!(
        eval(&expr, env, &mut it),
        Err(LispError::DivisionByZero(
            "Division by zero in native '/' (reciprocal of 0)".to_string()
        ))
    );
}

#[test]
fn test_native_divide_by_zero_error() {
    let mut it = interp_n();
    let env = Environment::new_with_prelude(&mut it);
    // (/ 10 0)
    let expr = Expr::List(vec![
        Expr::Symbol("/".to_string()),
        num_n(10.0),
        num_n(0.0),
    ]);
    assert_eq!(
        eval(&expr, env, &mut it),
        Err(LispError::DivisionByZero(
            "Division by zero in native '/' (argument 2)".to_string()
        ))
    );
}

#[test]
fn test_native_divide_by_zero_multiple_args_error() {
    let mut it = interp_n();
    let env = Environment::new_with_prelude(&mut it);
    // (/ 10 2 0 5)
    let expr = Expr::List(vec![
        Expr::Symbol("/".to_string()),
        num_n(10.0),
        num_n(2.0),
        num_n(0.0),
        num_n(5.0),
    ]);
    assert_eq!(
        eval(&expr, env, &mut it),
        Err(LispError::DivisionByZero(
            "Division by zero in native '/' (argument 3)".to_string()
        ))
    );
}

#[test]
fn test_native_divide_no_args_error() {
    let mut it = interp_n();
    let env = Environment::new_with_prelude(&mut it);
    // (/)
    let expr = Expr::List(vec![Expr::Symbol("/".to_string())]);
    assert_eq!(
        eval(&expr, env, &mut it),
        Err(LispError::ArityMismatch(
            "Native '/' expects at least 1 argument, got 0".to_string()
        ))
    );
}

#[test]
fn test_native_divide_type_error() {
    let mut it = interp_n();
    let env = Environment::new_with_prelude(&mut it);
    // (/ 10 true)
    let expr = Expr::List(vec![
        Expr::Symbol("/".to_string()),
        num_n(10.0),
        Expr::Bool(true), // Not a number
    ]);
    assert_eq!(
        eval(&expr, env, &mut it),
        Err(LispError::TypeError {
            expected: "Number".to_string(),
            found: "Bool(true)".to_string()
        })
    );
}

#[test]
fn test_native_divide_type_error_reciprocal() {
    let mut it = interp_n();
    let env = Environment::new_with_prelude(&mut it);
    // (/ true)
    let expr = Expr::List(vec![Expr::Symbol("/".to_string()), Expr::Bool(true)]);
    assert_eq!(
        eval(&expr, env, &mut it),
        Err(LispError::TypeError {
            expected: "Number".to_string(),
            found: "Bool(true)".to_string()
        })
    );
}

// Tests of builtins/string/mod.rs

#[test]
fn test_string_concat() {
    let mut it = interp_n();
    let env = env_with_testable_string_functions(&mut it);
    let result = eval_str(r#"(string.concat "hello" " " "world")"#, env.clone(), &mut it).unwrap();
    assert_eq!(result, Expr::String("hello world".to_string()));

    let result_empty_args = eval_str(r#"(string.concat)"#, env.clone(), &mut it).unwrap();
    assert_eq!(result_empty_args, Expr::String("".to_string()));

    let result_single_arg = eval_str(r#"(string.concat "test")"#, env.clone(), &mut it).unwrap();
    assert_eq!(result_single_arg, Expr::String("test".to_string()));
    
    let err_type = eval_str(r#"(string.concat "a" 1)"#, env, &mut it).unwrap_err();
    assert!(matches!(err_type, LispError::TypeError { expected, .. } if expected == "String"));
}

#[test]
fn test_string_reverse() {
    let mut it = interp_n();
    let env = env_with_testable_string_functions(&mut it);
    let result = eval_str(r#"(string.reverse "hello")"#, env.clone(), &mut it).unwrap();
    assert_eq!(result, Expr::String("olleh".to_string()));

    let result_empty_str = eval_str(r#"(string.reverse "")"#, env.clone(), &mut it).unwrap();
    assert_eq!(result_empty_str, Expr::String("".to_string()));

    let err_arity = eval_str(r#"(string.reverse "a" "b")"#, env.clone(), &mut it).unwrap_err();
    assert!(matches!(err_arity, LispError::ArityMismatch(_)));

    let err_type = eval_str(r#"(string.reverse 123)"#, env, &mut it).unwrap_err();
    assert!(matches!(err_type, LispError::TypeError { expected, .. } if expected == "String"));
}

#[test]
fn test_string_len() {
    let mut it = interp_n();
    let env = env_with_testable_string_functions(&mut it);
    let result = eval_str(r#"(string.len "hello")"#, env.clone(), &mut it).unwrap();
    assert_eq!(result, num_n(5.0));

    let result_empty_str = eval_str(r#"(string.len "")"#, env.clone(), &mut it).unwrap();
    assert_eq!(result_empty_str, num_n(0.0));

    let err_arity = eval_str(r#"(string.len "a" "b")"#, env.clone(), &mut it).unwrap_err();
    assert!(matches!(err_arity, LispError::ArityMismatch(_)));

    let err_type = eval_str(r#"(string.len 123)"#, env, &mut it).unwrap_err();
    assert!(matches!(err_type, LispError::TypeError { expected, .. } if expected == "String"));
}

#[test]
fn test_string_to_upper() {
    let mut it = interp_n();
    let env = env_with_testable_string_functions(&mut it);
    let result = eval_str(r#"(string.to-upper "hello World 123")"#, env.clone(), &mut it).unwrap();
    assert_eq!(result, Expr::String("HELLO WORLD 123".to_string()));
    
    let err_arity = eval_str(r#"(string.to-upper)"#, env.clone(), &mut it).unwrap_err();
    assert!(matches!(err_arity, LispError::ArityMismatch(_)));

    let err_type = eval_str(r#"(string.to-upper 1)"#, env, &mut it).unwrap_err();
    assert!(matches!(err_type, LispError::TypeError { expected, .. } if expected == "String"));
}

#[test]
fn test_string_to_lower() {
    let mut it = interp_n();
    let env = env_with_testable_string_functions(&mut it);
    let result = eval_str(r#"(string.to-lower "Hello WORLD 123")"#, env.clone(), &mut it).unwrap();
    assert_eq!(result, Expr::String("hello world 123".to_string()));

    let err_arity = eval_str(r#"(string.to-lower)"#, env.clone(), &mut it).unwrap_err();
    assert!(matches!(err_arity, LispError::ArityMismatch(_)));

    let err_type = eval_str(r#"(string.to-lower 1)"#, env, &mut it).unwrap_err();
    assert!(matches!(err_type, LispError::TypeError { expected, .. } if expected == "String"));
}

#[test]
fn test_string_trim() {
    let mut it = interp_n();
    let env = env_with_testable_string_functions(&mut it);
    let result = eval_str(r#"(string.trim "  hello world  ")"#, env.clone(), &mut it).unwrap();
    assert_eq!(result, Expr::String("hello world".to_string()));

    let result_no_trim_needed = eval_str(r#"(string.trim "hello")"#, env.clone(), &mut it).unwrap();
    assert_eq!(result_no_trim_needed, Expr::String("hello".to_string()));
    
    let result_empty_after_trim = eval_str(r#"(string.trim "   ")"#, env.clone(), &mut it).unwrap();
    assert_eq!(result_empty_after_trim, Expr::String("".to_string()));

    let err_arity = eval_str(r#"(string.trim)"#, env.clone(), &mut it).unwrap_err();
    assert!(matches!(err_arity, LispError::ArityMismatch(_)));
    
    let err_type = eval_str(r#"(string.trim 1)"#, env, &mut it).unwrap_err();
    assert!(matches!(err_type, LispError::TypeError { expected, .. } if expected == "String"));
}

// Tests of builtins/log/mod.rs

#[test]
fn test_native_log_info_no_args() {
    let mut it = interp_n();
    // Now prints nothing and returns empty string if no args
    assert_eq!(native_log_info(&mut it, vec![]), Ok(Expr::String("".to_string())));
}

#[test]
fn test_native_log_info_single_arg_no_format() {
    let mut it = interp_n();
    let args = vec![num_n(123.0)];
    assert_eq!(native_log_info(&mut it, args), Ok(Expr::String("123".to_string())));
}

#[test]
fn test_native_log_info_single_string_arg_no_format() {
    let mut it = interp_n();
    let args = vec![Expr::String("hello".to_string())];
    assert_eq!(native_log_info(&mut it, args), Ok(Expr::String("hello".to_string())));
}

#[test]
fn test_native_log_info_multiple_args_no_format_first_arg_not_string() {
    let mut it = interp_n();
    let args = vec![
        num_n(1.0), // First arg not a string
        Expr::Symbol("world".to_string()),
        num_n(42.0),
    ];
    assert_eq!(
        native_log_info(&mut it, args),
        Ok(Expr::String("1 world 42".to_string()))
    );
}

#[test]
fn test_native_log_info_multiple_args_no_format_first_arg_string() {
    let mut it = interp_n();
    let args = vec![
        Expr::String("Hello".to_string()), // First arg is string, but no %s
        Expr::Symbol("world".to_string()),
        num_n(42.0),
    ];
    // Now, all args are space-joined.
    assert_eq!(
        native_log_info(&mut it, args),
        Ok(Expr::String("Hello world 42".to_string()))
    );
}

#[test]
fn test_native_log_error_no_args() {
    let mut it = interp_n();
    assert_eq!(native_log_error(&mut it, vec![]), Ok(Expr::String("".to_string())));
}

#[test]
fn test_native_log_error_single_arg_no_format() {
    let mut it = interp_n();
    let args = vec![Expr::String("ERROR".to_string())];
    assert_eq!(
        native_log_error(&mut it, args),
        Ok(Expr::String("ERROR".to_string()))
    );
}

#[test]
fn test_native_log_error_multiple_args_interpolation() {
    let mut it = interp_n();
    let args = vec![
        Expr::String("Error: %s failed with %s".to_string()),
        Expr::Symbol("something".to_string()),
        num_n(101.0),
    ];
    // Now, all args are space-joined.
    assert_eq!(
        native_log_error(&mut it, args),
        Ok(Expr::String(
            "Error: %s failed with %s something 101".to_string()
        ))
    );
}

