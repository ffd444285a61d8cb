use rsp::ast::{Environment, Expr, LispFunction, LispModule, NativeFn, NativeFunction};
use rsp::error::LispError;
use rsp::eval::eval;
use rsp::interp::{ArithOp, Host, Interpreter};
use rsp::parser::parse_expr;
use rsp::builtins::{native_add, native_divide, native_equals, native_log_error, native_log_info, native_multiply, native_subtract};
use rsp::globals::{create_list_module, create_log_module, create_math_module, create_string_module};
use std::collections::HashMap;

/// A host that computes with `f64`, keeps the lines it is asked to print, and
/// serves module files from memory.
struct TestHostE {
    files: HashMap<String, String>,
    printed: Vec<(bool, String)>,
}

impl Host for TestHostE {
    fn arith(&mut self, op: ArithOp, a: u64, b: u64) -> u64 {
        let (x, y) = (f64::from_bits(a), f64::from_bits(b));
        let r = match op {
            ArithOp::Add => x + y,
            ArithOp::Sub => x - y,
            ArithOp::Mul => x * y,
            ArithOp::Div => x / y,
        };
        r.to_bits()
    }

    fn int_to_number(&mut self, n: u64) -> u64 {
        (n as f64).to_bits()
    }

    fn show_number(&mut self, bits: u64, debug: bool) -> String {
        let x = f64::from_bits(bits);
        if debug { format!("{:?}", x) } else { format!("{}", x) }
    }

    fn print(&mut self, to_stderr: bool, text: &str) {
        self.printed.push((to_stderr, text.to_string()));
    }

    fn resolve_module(&mut self, path: &str) -> Result<String, LispError> {
        let canonical = format!("/modules/{}", path);
        if self.files.contains_key(&canonical) {
            Ok(canonical)
        } else {
            Err(LispError::ModuleNotFound(canonical))
        }
    }

    fn read_module(&mut self, path: &str) -> Result<String, LispError> {
        match self.files.get(path) {
            Some(text) => Ok(text.clone()),
            None => Err(LispError::ModuleNotFound(path.to_string())),
        }
    }
}

fn interp_e() -> Interpreter<TestHostE> {
    Interpreter::new(TestHostE { files: HashMap::new(), printed: Vec::new() })
}

fn num_e(x: f64) -> Expr {
    Expr::Number(x.to_bits())
}

// Tests of builtins.rs

#[test]
fn builtins_eval_let_binding() {
    let mut it = interp_e();
    let env = Environment::new(&mut it);
    // (let x 10)
    let let_expr = Expr::List(vec![
        Expr::Symbol("let".to_string()), // This will be handled by eval, dispatching to eval_let
        Expr::Symbol("x".to_string()),
        num_e(10.0),
    ]);
    // `let` should evaluate to the bound value
    assert_eq!(eval(&let_expr, env, &mut it), Ok(num_e(10.0)));
    // Check if 'x' is defined in the environment
    assert_eq!(env.get(&it, "x"), Some(num_e(10.0)));

    // Evaluate 'x' after binding
    let x_sym = Expr::Symbol("x".to_string());
    assert_eq!(eval(&x_sym, env, &mut it), Ok(num_e(10.0)));
}

#[test]
fn builtins_eval_let_binding_evaluates_value() {
    let mut it = interp_e();
    let env = Environment::new(&mut it);
    env.define(&mut it, "y".to_string(), num_e(5.0));
    // (let x y) where y is 5
    let let_expr = Expr::List(vec![
        Expr::Symbol("let".to_string()),
        Expr::Symbol("x".to_string()),
        Expr::Symbol("y".to_string()), // This will be evaluated by the inner call to `eval`
    ]);
    assert_eq!(eval(&let_expr, env, &mut it), Ok(num_e(5.0)));
    assert_eq!(env.get(&it, "x"), Some(num_e(5.0)));
}

#[test]
fn builtins_eval_let_arity_error_too_few_args() {
    let mut it = interp_e();
    let env = Environment::new(&mut it);
    // (let x) - missing value
    let let_expr = Expr::List(vec![
        Expr::Symbol("let".to_string()),
        Expr::Symbol("x".to_string()),
    ]);
    assert_eq!(
        eval(&let_expr, env, &mut it),
        Err(LispError::ArityMismatch(
            "'let' expects 2 arguments, got 1".to_string()
        ))
    );
}

#[test]
fn builtins_eval_let_arity_error_too_many_args() {
    let mut it = interp_e();
    let env = Environment::new(&mut it);
    // (let x 10 20) - extra argument
    let let_expr = Expr::List(vec![
        Expr::Symbol("let".to_string()),
        Expr::Symbol("x".to_string()),
        num_e(10.0),
        num_e(20.0),
    ]);
    assert_eq!(
        eval(&let_expr, env, &mut it),
        Err(LispError::ArityMismatch(
            "'let' expects 2 arguments, got 3".to_string()
        ))
    );
}

#[test]
fn builtins_eval_let_type_error_non_symbol_for_var_name() {
    let mut it = interp_e();
    let env = Environment::new(&mut it);
    // (let 10 20) - first arg (var name) is not a symbol
    let let_expr = Expr::List(vec![
        Expr::Symbol("let".to_string()),
        num_e(10.0), // Not a symbol
        num_e(20.0),
    ]);
    assert_eq!(
        eval(&let_expr, env, &mut it),
        Err(LispError::TypeError {
            expected: "Symbol".to_string(),
            found: "Number(10.0)".to_string()
        })
    );
}

#[test]
fn builtins_eval_let_error_binding_reserved_keyword_let() {
    let mut it = interp_e();
    let env = Environment::new(&mut it);
    // (let let 10)
    let expr = Expr::List(vec![
        Expr::Symbol("let".to_string()),
        Expr::Symbol("let".to_string()), // Variable name is "let"
        num_e(10.0),
    ]);
    assert_eq!(
        eval(&expr, env, &mut it),
        Err(LispError::ReservedKeyword("let".to_string()))
    );
}

#[test]
fn builtins_eval_let_error_binding_reserved_keyword_quote() {
    let mut it = interp_e();
    let env = Environment::new(&mut it);
    // (let quote 10)
    let expr = Expr::List(vec![
        Expr::Symbol("let".to_string()),
        Expr::Symbol("quote".to_string()), // Variable name is "quote"
        num_e(10.0),
    ]);
    assert_eq!(
        eval(&expr, env, &mut it),
        Err(LispError::ReservedKeyword("quote".to_string()))
    );
}

#[test]
fn builtins_eval_fn_creates_function() {
    let mut it = interp_e();
    let env = Environment::new(&mut it);
    // (fn (x y) x)
    let fn_expr_ast = Expr::List(vec![
        Expr::Symbol("fn".to_string()),
        Expr::List(vec![
            Expr::Symbol("x".to_string()),
            Expr::Symbol("y".to_string()),
        ]),
        Expr::Symbol("x".to_string()),
    ]);

    // We call eval here because 'fn' is a special form handled by eval, which then calls eval_fn
    let result = eval(&fn_expr_ast, env, &mut it);

    match result {
        Ok(Expr::Function(LispFunction {
            params,
            body,
            closure,
        })) => {
            assert_eq!(params, vec!["x".to_string(), "y".to_string()]);
            assert_eq!(*body, Expr::Symbol("x".to_string()));
            // Check if the closure is the environment we passed.
            // This is a bit tricky to assert directly beyond pointer equality if available,
            // or by side-effect (e.g. defining something in `env` and checking if `closure` sees it).
            // For now, we trust it's cloned. closure == env would be a direct check.
            assert!(closure == env);
        }
        _ => panic!("Expected LispFunction, got {:?}", result),
    }
}

#[test]
fn builtins_eval_fn_empty_params() {
    let mut it = interp_e();
    let env = Environment::new(&mut it);
    // (fn () 10)
    let fn_expr_ast = Expr::List(vec![
        Expr::Symbol("fn".to_string()),
        Expr::List(vec![]), // Empty parameter list
        num_e(10.0),
    ]);
    let result = eval(&fn_expr_ast, env, &mut it);
    match result {
        Ok(Expr::Function(LispFunction { params, body, .. })) => {
            assert_eq!(params, Vec::<String>::new());
            assert_eq!(*body, num_e(10.0));
        }
        _ => panic!("Expected LispFunction, got {:?}", result),
    }
}

#[test]
fn builtins_eval_fn_arity_error_too_few_args() {
    let mut it = interp_e();
    let env = Environment::new(&mut it);
    // (fn (x)) - missing body
    let fn_expr_ast = Expr::List(vec![
        Expr::Symbol("fn".to_string()),
        Expr::List(vec![Expr::Symbol("x".to_string())]),
    ]);
    assert_eq!(
        eval(&fn_expr_ast, env, &mut it),
        Err(LispError::ArityMismatch(
            "'fn' expects 2 arguments (parameters list and body), got 1".to_string()
        ))
    );
}

#[test]
fn builtins_eval_fn_arity_error_too_many_args() {
    let mut it = interp_e();
    let env = Environment::new(&mut it);
    // (fn (x) x x) - extra argument
    let fn_expr_ast = Expr::List(vec![
        Expr::Symbol("fn".to_string()),
        Expr::List(vec![Expr::Symbol("x".to_string())]),
        Expr::Symbol("x".to_string()),
        Expr::Symbol("x".to_string()),
    ]);
    assert_eq!(
        eval(&fn_expr_ast, env, &mut it),
        Err(LispError::ArityMismatch(
            "'fn' expects 2 arguments (parameters list and body), got 3".to_string()
        ))
    );
}

#[test]
fn builtins_eval_fn_param_not_a_list() {
    let mut it = interp_e();
    let env = Environment::new(&mut it);
    // (fn x x) - first arg (params) is not a list
    let fn_expr_ast = Expr::List(vec![
        Expr::Symbol("fn".to_string()),
        Expr::Symbol("x".to_string()), // Not a list
        Expr::Symbol("x".to_string()),
    ]);
    assert_eq!(
        eval(&fn_expr_ast, env, &mut it),
        Err(LispError::TypeError {
            expected: "List of parameters".to_string(),
            found: "Symbol(\"x\")".to_string()
        })
    );
}

#[test]
fn builtins_eval_fn_param_list_contains_non_symbol() {
    let mut it = interp_e();
    let env = Environment::new(&mut it);
    // (fn (x 10) x) - param list contains a number
    let fn_expr_ast = Expr::List(vec![
        Expr::Symbol("fn".to_string()),
        Expr::List(vec![Expr::Symbol("x".to_string()), num_e(10.0)]), // 10.0 is not a symbol
        Expr::Symbol("x".to_string()),
    ]);
    assert_eq!(
        eval(&fn_expr_ast, env, &mut it),
        Err(LispError::TypeError {
            expected: "Symbol".to_string(),
            found: "Number(10.0)".to_string()
        })
    );
}

#[test]
fn builtins_eval_fn_param_is_reserved_keyword() {
    let mut it = interp_e();
    let env = Environment::new(&mut it);
    // (fn (let) let)
    let fn_expr_ast = Expr::List(vec![
        Expr::Symbol("fn".to_string()),
        Expr::List(vec![Expr::Symbol("let".to_string())]),
        Expr::Symbol("let".to_string()),
    ]);
    assert_eq!(
        eval(&fn_expr_ast, env, &mut it),
        Err(LispError::ReservedKeyword("let".to_string()))
    );
}

#[test]
fn builtins_eval_quote_symbol() {
    let mut it = interp_e();
    let env = Environment::new(&mut it);
    // (quote x)
    let expr = Expr::List(vec![
        Expr::Symbol("quote".to_string()),
        Expr::Symbol("x".to_string()),
    ]);
    assert_eq!(eval(&expr, env, &mut it), Ok(Expr::Symbol("x".to_string())));
}

#[test]
fn builtins_eval_quote_number() {
    let mut it = interp_e();
    let env = Environment::new(&mut it);
    // (quote 10)
    let expr = Expr::List(vec![Expr::Symbol("quote".to_string()), num_e(10.0)]);
    assert_eq!(eval(&expr, env, &mut it), Ok(num_e(10.0)));
}

#[test]
fn builtins_eval_quote_list() {
    let mut it = interp_e();
    let env = Environment::new(&mut it);
    // (quote (1 2))
    let inner_list = vec![num_e(1.0), num_e(2.0)];
    let expr = Expr::List(vec![
        Expr::Symbol("quote".to_string()),
        Expr::List(inner_list.clone()),
    ]);
    assert_eq!(eval(&expr, env, &mut it), Ok(Expr::List(inner_list)));
}

#[test]
fn builtins_eval_quote_empty_list_as_arg() {
    let mut it = interp_e();
    let env = Environment::new(&mut it);
    // (quote ())
    let expr = Expr::List(vec![Expr::Symbol("quote".to_string()), Expr::List(vec![])]);
    assert_eq!(eval(&expr, env, &mut it), Ok(Expr::List(vec![])));
}

#[test]
fn builtins_eval_quote_nested_list() {
    let mut it = interp_e();
    let env = Environment::new(&mut it);
    // (quote (a (b c)))
    let nested_list = Expr::List(vec![
        Expr::Symbol("a".to_string()),
        Expr::List(vec![
            Expr::Symbol("b".to_string()),
            Expr::Symbol("c".to_string()),
        ]),
    ]);
    let expr = Expr::List(vec![Expr::Symbol("quote".to_string()), nested_list.clone()]);
    assert_eq!(eval(&expr, env, &mut it), Ok(nested_list));
}

#[test]
fn builtins_eval_quote_arity_error_no_args() {
    let mut it = interp_e();
    let env = Environment::new(&mut it);
    // (quote)
    let expr = Expr::List(vec![Expr::Symbol("quote".to_string())]);
    assert_eq!(
        eval(&expr, env, &mut it),
        Err(LispError::ArityMismatch(
            "'quote' expects 1 argument, got 0".to_string()
        ))
    );
}

#[test]
fn builtins_eval_quote_arity_error_too_many_args() {
    let mut it = interp_e();
    let env = Environment::new(&mut it);
    // (quote x y)
    let expr = Expr::List(vec![
        Expr::Symbol("quote".to_string()),
        Expr::Symbol("x".to_string()),
        Expr::Symbol("y".to_string()),
    ]);
    assert_eq!(
        eval(&expr, env, &mut it),
        Err(LispError::ArityMismatch(
            "'quote' expects 1 argument, got 2".to_string()
        ))
    );
}

#[test]
fn builtins_eval_if_true_condition() {
    let mut it = interp_e();
    let env = Environment::new(&mut it);
    // (if true 10 20)
    let expr = Expr::List(vec![
        Expr::Symbol("if".to_string()),
        Expr::Bool(true),
        num_e(10.0),
        num_e(20.0),
    ]);
    assert_eq!(eval(&expr, env, &mut it), Ok(num_e(10.0)));
}

#[test]
fn builtins_eval_if_false_condition() {
    let mut it = interp_e();
    let env = Environment::new(&mut it);
    // (if false 10 20)
    let expr = Expr::List(vec![
        Expr::Symbol("if".to_string()),
        Expr::Bool(false),
        num_e(10.0),
        num_e(20.0),
    ]);
    assert_eq!(eval(&expr, env, &mut it), Ok(num_e(20.0)));
}

#[test]
fn builtins_eval_if_nil_condition() {
    let mut it = interp_e();
    let env = Environment::new(&mut it);
    // (if nil 10 20)
    let expr = Expr::List(vec![
        Expr::Symbol("if".to_string()),
        Expr::Nil,
        num_e(10.0),
        num_e(20.0),
    ]);
    assert_eq!(eval(&expr, env, &mut it), Ok(num_e(20.0)));
}

#[test]
fn builtins_eval_if_truthy_number_condition() {
    let mut it = interp_e();
    let env = Environment::new(&mut it);
    // (if 0 10 20) ; 0 is truthy in this Lisp
    let expr = Expr::List(vec![
        Expr::Symbol("if".to_string()),
        num_e(0.0),
        num_e(10.0),
        num_e(20.0),
    ]);
    assert_eq!(eval(&expr, env, &mut it), Ok(num_e(10.0)));
}

#[test]
fn builtins_eval_if_truthy_list_condition() {
    let mut it = interp_e();
    let env = Environment::new(&mut it);
    // (if () 10 20) ; empty list is truthy
    let expr = Expr::List(vec![
        Expr::Symbol("if".to_string()),
        Expr::List(vec![]),
        num_e(10.0),
        num_e(20.0),
    ]);
    assert_eq!(eval(&expr, env, &mut it), Ok(num_e(10.0)));
}

#[test]
fn builtins_eval_if_false_condition_no_else_branch() {
    let mut it = interp_e();
    let env = Environment::new(&mut it);
    // (if false 10)
    let expr = Expr::List(vec![
        Expr::Symbol("if".to_string()),
        Expr::Bool(false),
        num_e(10.0),
    ]);
    assert_eq!(eval(&expr, env, &mut it), Ok(Expr::Nil));
}

#[test]
fn builtins_eval_if_true_condition_no_else_branch() {
    let mut it = interp_e();
    let env = Environment::new(&mut it);
    // (if true 10)
    let expr = Expr::List(vec![
        Expr::Symbol("if".to_string()),
        Expr::Bool(true),
        num_e(10.0),
    ]);
    assert_eq!(eval(&expr, env, &mut it), Ok(num_e(10.0)));
}

#[test]
fn builtins_eval_if_condition_evaluates() {
    let mut it = interp_e();
    let env = Environment::new(&mut it);
    env.define(&mut it, "cond-var".to_string(), Expr::Bool(true));
    // (if cond-var 10 20)
    let expr = Expr::List(vec![
        Expr::Symbol("if".to_string()),
        Expr::Symbol("cond-var".to_string()),
        num_e(10.0),
        num_e(20.0),
    ]);
    assert_eq!(eval(&expr, env, &mut it), Ok(num_e(10.0)));
}

#[test]
fn builtins_eval_if_arity_error_too_few_args() {
    let mut it = interp_e();
    let env = Environment::new(&mut it);
    // (if true)
    let expr = Expr::List(vec![Expr::Symbol("if".to_string()), Expr::Bool(true)]);
    assert_eq!(
        eval(&expr, env, &mut it),
        Err(LispError::ArityMismatch(
            "'if' expects 2 or 3 arguments, got 1".to_string()
        ))
    );
}

#[test]
fn builtins_eval_if_arity_error_too_many_args() {
    let mut it = interp_e();
    let env = Environment::new(&mut it);
    // (if true 10 20 30)
    let expr = Expr::List(vec![
        Expr::Symbol("if".to_string()),
        Expr::Bool(true),
        num_e(10.0),
        num_e(20.0),
        num_e(30.0),
    ]);
    assert_eq!(
        eval(&expr, env, &mut it),
        Err(LispError::ArityMismatch(
            "'if' expects 2 or 3 arguments, got 4".to_string()
        ))
    );
}

#[test]
fn builtins_eval_if_short_circuit_then_branch() {
    let mut it = interp_e();
    let env = Environment::new(&mut it);
    env.define(&mut it, "then-val".to_string(), num_e(100.0));
    // (if true then-val else-val) ; else-val is undefined
    let expr = Expr::List(vec![
        Expr::Symbol("if".to_string()),
        Expr::Bool(true),
        Expr::Symbol("then-val".to_string()),
        Expr::Symbol("else-val".to_string()), // This should not be evaluated
    ]);
    assert_eq!(eval(&expr, env, &mut it), Ok(num_e(100.0)));
}

#[test]
fn builtins_eval_if_short_circuit_else_branch() {
    let mut it = interp_e();
    let env = Environment::new(&mut it);
    env.define(&mut it, "else-val".to_string(), num_e(200.0));
    // (if false then-val else-val) ; then-val is undefined
    let expr = Expr::List(vec![
        Expr::Symbol("if".to_string()),
        Expr::Bool(false),
        Expr::Symbol("then-val".to_string()), // This should not be evaluated
        Expr::Symbol("else-val".to_string()),
    ]);
    assert_eq!(eval(&expr, env, &mut it), Ok(num_e(200.0)));
}

#[test]
fn builtins_test_native_add_simple() {
    let mut it = interp_e();
    let env = Environment::new(&mut it); // Use blank env for this specific test setup
    env.define(&mut it, 
        "+".to_string(),
        Expr::NativeFunction(NativeFunction {
            name: "+".to_string(),
            func: NativeFn::Add,
        }),
    );
    // (+ 1 2)
    let expr = Expr::List(vec![
        Expr::Symbol("+".to_string()),
        num_e(1.0),
        num_e(2.0),
    ]);
    assert_eq!(eval(&expr, env, &mut it), Ok(num_e(3.0)));
}

#[test]
fn builtins_test_native_add_multiple_args() {
    let mut it = interp_e();
    let env = Environment::new(&mut it); // Use blank env
    env.define(&mut it, 
        "+".to_string(),
        Expr::NativeFunction(NativeFunction {
            name: "+".to_string(),
            func: NativeFn::Add,
        }),
    );
    // (+ 1 2 3 4)
    let expr = Expr::List(vec![
        Expr::Symbol("+".to_string()),
        num_e(1.0),
        num_e(2.0),
        num_e(3.0),
        num_e(4.0),
    ]);
    assert_eq!(eval(&expr, env, &mut it), Ok(num_e(10.0)));
}

#[test]
fn builtins_test_native_add_no_args() {
    let mut it = interp_e();
    let env = Environment::new(&mut it); // Use blank env
    env.define(&mut it, 
        "+".to_string(),
        Expr::NativeFunction(NativeFunction {
            name: "+".to_string(),
            func: NativeFn::Add,
        }),
    );
    // (+)
    let expr = Expr::List(vec![Expr::Symbol("+".to_string())]);
    assert_eq!(eval(&expr, env, &mut it), Ok(num_e(0.0)));
}

#[test]
fn builtins_test_native_add_type_error() {
    let mut it = interp_e();
    let env = Environment::new(&mut it); // Use blank env
    env.define(&mut it, 
        "+".to_string(),
        Expr::NativeFunction(NativeFunction {
            name: "+".to_string(),
            func: NativeFn::Add,
        }),
    );
    // (+ 1 true)
    let expr = Expr::List(vec![
        Expr::Symbol("+".to_string()),
        num_e(1.0),
        Expr::Bool(true), // Not a number
    ]);
    assert_eq!(
        eval(&expr, env, &mut it),
        Err(LispError::TypeError {
            expected: "Number".to_string(),
            found: "Bool(true)".to_string()
        })
    );
}

#[test]
fn builtins_test_native_equals_true() {
    let mut it = interp_e();
    let env = Environment::new(&mut it); // Use blank env
    env.define(&mut it, 
        "=".to_string(),
        Expr::NativeFunction(NativeFunction {
            name: "=".to_string(),
            func: NativeFn::Equals,
        }),
    );
    // (= 5 5.0)
    let expr = Expr::List(vec![
        Expr::Symbol("=".to_string()),
        num_e(5.0),
        num_e(5.0),
    ]);
    assert_eq!(eval(&expr, env, &mut it), Ok(Expr::Bool(true)));
}

#[test]
fn builtins_test_native_equals_false() {
    let mut it = interp_e();
    let env = Environment::new(&mut it); // Use blank env
    env.define(&mut it, 
        "=".to_string(),
        Expr::NativeFunction(NativeFunction {
            name: "=".to_string(),
            func: NativeFn::Equals,
        }),
    );
    // (= 5 6)
    let expr = Expr::List(vec![
        Expr::Symbol("=".to_string()),
        num_e(5.0),
        num_e(6.0),
    ]);
    assert_eq!(eval(&expr, env, &mut it), Ok(Expr::Bool(false)));
}

#[test]
fn builtins_test_native_equals_multiple_true() {
    let mut it = interp_e();
    let env = Environment::new(&mut it); // Use blank env
    env.define(&mut it, 
        "=".to_string(),
        Expr::NativeFunction(NativeFunction {
            name: "=".to_string(),
            func: NativeFn::Equals,
        }),
    );
    // (= 3 3 3 3)
    let expr = Expr::List(vec![
        Expr::Symbol("=".to_string()),
        num_e(3.0),
        num_e(3.0),
        num_e(3.0),
        num_e(3.0),
    ]);
    assert_eq!(eval(&expr, env, &mut it), Ok(Expr::Bool(true)));
}

#[test]
fn builtins_test_native_equals_multiple_false() {
    let mut it = interp_e();
    let env = Environment::new(&mut it); // Use blank env
    env.define(&mut it, 
        "=".to_string(),
        Expr::NativeFunction(NativeFunction {
            name: "=".to_string(),
            func: NativeFn::Equals,
        }),
    );
    // (= 3 3 4 3)
    let expr = Expr::List(vec![
        Expr::Symbol("=".to_string()),
        num_e(3.0),
        num_e(3.0),
        num_e(4.0),
        num_e(3.0),
    ]);
    assert_eq!(eval(&expr, env, &mut it), Ok(Expr::Bool(false)));
}

#[test]
fn builtins_test_native_equals_arity_error_too_few() {
    let mut it = interp_e();
    let env = Environment::new(&mut it); // Use blank env
    env.define(&mut it, 
        "=".to_string(),
        Expr::NativeFunction(NativeFunction {
            name: "=".to_string(),
            func: NativeFn::Equals,
        }),
    );
    // (= 5)
    let expr = Expr::List(vec![Expr::Symbol("=".to_string()), num_e(5.0)]);
    assert_eq!(
        eval(&expr, env, &mut it),
        Err(LispError::ArityMismatch(
            "Native '=' expects at least 2 arguments for numeric comparison, got 1".to_string()
        ))
    );
}

#[test]
fn builtins_test_native_equals_type_error() {
    let mut it = interp_e();
    let env = Environment::new(&mut it); // Use blank env
    env.define(&mut it, 
        "=".to_string(),
        Expr::NativeFunction(NativeFunction {
            name: "=".to_string(),
            func: NativeFn::Equals,
        }),
    );
    // (= 5 nil)
    let expr = Expr::List(vec![
        Expr::Symbol("=".to_string()),
        num_e(5.0),
        Expr::Nil, // Not a number
    ]);
    assert_eq!(
        eval(&expr, env, &mut it),
        Err(LispError::TypeError {
            expected: "Number".to_string(),
            found: "Nil".to_string()
        })
    );
}

#[test]
fn builtins_test_native_multiply_simple() {
    let mut it = interp_e();
    let env = Environment::new_with_prelude(&mut it); // Uses prelude which now includes *
    // (* 2 3)
    let expr = Expr::List(vec![
        Expr::Symbol("*".to_string()),
        num_e(2.0),
        num_e(3.0),
    ]);
    assert_eq!(eval(&expr, env, &mut it), Ok(num_e(6.0)));
}

#[test]
fn builtins_test_native_multiply_multiple_args() {
    let mut it = interp_e();
    let env = Environment::new_with_prelude(&mut it);
    // (* 1 2 3 4)
    let expr = Expr::List(vec![
        Expr::Symbol("*".to_string()),
        num_e(1.0),
        num_e(2.0),
        num_e(3.0),
        num_e(4.0),
    ]);
    assert_eq!(eval(&expr, env, &mut it), Ok(num_e(24.0)));
}

#[test]
fn builtins_test_native_multiply_no_args() {
    let mut it = interp_e();
    let env = Environment::new_with_prelude(&mut it);
    // (*)
    let expr = Expr::List(vec![Expr::Symbol("*".to_string())]);
    assert_eq!(eval(&expr, env, &mut it), Ok(num_e(1.0)));
}

#[test]
fn builtins_test_native_multiply_one_arg() {
    let mut it = interp_e();
    let env = Environment::new_with_prelude(&mut it);
    // (* 5)
    let expr = Expr::List(vec![Expr::Symbol("*".to_string()), num_e(5.0)]);
    assert_eq!(eval(&expr, env, &mut it), Ok(num_e(5.0)));
}

#[test]
fn builtins_test_native_multiply_with_zero() {
    let mut it = interp_e();
    let env = Environment::new_with_prelude(&mut it);
    // (* 5 0 2)
    let expr = Expr::List(vec![
        Expr::Symbol("*".to_string()),
        num_e(5.0),
        num_e(0.0),
        num_e(2.0),
    ]);
    assert_eq!(eval(&expr, env, &mut it), Ok(num_e(0.0)));
}

#[test]
fn builtins_test_native_multiply_type_error() {
    let mut it = interp_e();
    let env = Environment::new_with_prelude(&mut it);
    // (* 2 true)
    let expr = Expr::List(vec![
        Expr::Symbol("*".to_string()),
        num_e(2.0),
        Expr::Bool(true), // Not a number
    ]);
    assert_eq!(
        eval(&expr, env, &mut it),
        Err(LispError::TypeError {
            expected: "Number".to_string(),
            found: "Bool(true)".to_string()
        })
    );
}

