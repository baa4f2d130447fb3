//! Behavior of the language as a whole: the documented properties of the
//! algebra, the edge cases, and one input per error tier.

use moeda::interpreter::Interpreter;
use moeda::parser::Parser;
use moeda::repl::Repl;
use moeda::token::Tokenizer;

#[test]
fn sum_folds_from_zero() {
    let mut repl = Repl::new();
    assert_eq!(format!("17"), repl.eval(String::from("(+ 1 9 7)")));
    assert_eq!(format!("0"), repl.eval(String::from("(+)")));
}

#[test]
fn subtraction_folds_left() {
    let mut repl = Repl::new();
    assert_eq!(format!("5"), repl.eval(String::from("(- 10 2 3)")));
    assert_eq!(format!("-5"), repl.eval(String::from("(- 0 5)")));
}

#[test]
fn equality_tests_against_last_operand() {
    // With three operands `=` is not pairwise distinctness: every operand is
    // compared with the last one, so (= 1 2 1) is false and (/= 1 2 1) true.
    let mut repl = Repl::new();
    assert_eq!(format!("false"), repl.eval(String::from("(= 1 2 1)")));
    assert_eq!(format!("true"), repl.eval(String::from("(/= 1 2 1)")));
    assert_eq!(format!("true"), repl.eval(String::from("(= 1 1 1)")));
}

#[test]
fn chained_ordering() {
    let mut repl = Repl::new();
    assert_eq!(format!("true"), repl.eval(String::from("(> 5 3 1)")));
    assert_eq!(format!("false"), repl.eval(String::from("(> 5 1 3)")));
}

#[test]
fn extremes_of_three() {
    let mut repl = Repl::new();
    assert_eq!(format!("55"), repl.eval(String::from("(max 6 2 55)")));
    assert_eq!(format!("2"), repl.eval(String::from("(min 6 2 55)")));
}

#[test]
fn remainder_operator() {
    let mut repl = Repl::new();
    assert_eq!(format!("2"), repl.eval(String::from("(% 9 7)")));
}

#[test]
fn rendering_round_trip() {
    // An integer, boolean or string literal renders back to its own text.
    let mut repl = Repl::new();
    assert_eq!(format!("5"), repl.eval(String::from("5")));
    assert_eq!(format!("true"), repl.eval(String::from("true")));
    assert_eq!(format!("false"), repl.eval(String::from("false")));
    assert_eq!(format!("abc"), repl.eval(String::from("\"abc\"")));
}

#[test]
fn redefinition_keeps_the_first_binding() {
    let mut repl = Repl::new();
    assert_eq!(format!(""), repl.eval(String::from("(def x 1)")));
    assert_eq!(
        format!("Value error: variable x has already defined."),
        repl.eval(String::from("(def x 2)"))
    );
    assert_eq!(
        format!("y"),
        repl.eval(String::from("(if (= x 1) (\"y\") (\"n\"))"))
    );
}

#[test]
fn empty_line_yields_empty_output() {
    let mut repl = Repl::new();
    assert_eq!(format!(""), repl.eval(String::from("")));
    assert_eq!(format!(""), repl.eval(String::from(";only a comment")));
}

#[test]
fn printed_lines_are_buffered_in_order() {
    let mut repl = Repl::new();
    assert_eq!(format!(""), repl.eval(String::from("(print 12)")));
    assert_eq!(format!(""), repl.eval(String::from("(print '(1 2 true))")));
    let lines = repl.take_output();
    assert_eq!(vec![String::from("12"), String::from("(1 2 true)")], lines);
    assert_eq!(Vec::<String>::new(), repl.take_output());
}

#[test]
fn type_error_on_mixed_arithmetic() {
    let mut repl = Repl::new();
    assert_eq!(
        format!("Operation error: operands must be integers"),
        repl.eval(String::from("(+ 1 true)"))
    );
}

#[test]
fn type_error_on_overflow_and_zero_divisor() {
    let mut repl = Repl::new();
    assert_eq!(
        format!("Operation error: the result does not fit"),
        repl.eval(String::from("(* 9223372036854775807 2)"))
    );
    assert_eq!(
        format!("Operation error: the result does not fit"),
        repl.eval(String::from("(/ 1 0)"))
    );
}

#[test]
fn syntax_error_on_a_bad_definition_target() {
    let mut repl = Repl::new();
    assert_eq!(
        format!("Syntax error: expected an identifier"),
        repl.eval(String::from("(def 1 2)"))
    );
}

#[test]
fn syntax_error_on_an_unfinished_form() {
    let mut repl = Repl::new();
    assert_eq!(
        format!("Syntax error: expected a closing parenthesis, found end of input"),
        repl.eval(String::from("(+ 1"))
    );
}

#[test]
fn runaway_recursion_is_an_error_not_a_crash() {
    let mut repl = Repl::new();
    assert_eq!(format!(""), repl.eval(String::from("(defn f [n] (f n))")));
    assert_eq!(
        format!("Value error: call depth exceeded"),
        repl.eval(String::from("(f 1)"))
    );
}

#[test]
fn frame_count_returns_to_baseline_after_every_call() {
    let mut interpreter = Interpreter::new();
    for line in [
        "(defn f [n t] (* n t))",
        "(f 2 4)",
        "(g 1)",
        "(def x 7)",
    ] {
        let tokenizer = Tokenizer::new(String::from(line));
        let mut parser = Parser::new(tokenizer);
        let tree = parser.parse().unwrap();
        let _ = interpreter.eval(tree);
        assert_eq!(1, interpreter.stack.frames.len());
    }
}

#[test]
fn logical_operators_carry_values() {
    let mut repl = Repl::new();
    assert_eq!(format!("5"), repl.eval(String::from("(and 1 5)")));
    assert_eq!(format!("1"), repl.eval(String::from("(or 1 5)")));
    assert_eq!(format!("true"), repl.eval(String::from("(not false)")));
    assert_eq!(format!("-4"), repl.eval(String::from("(not 4)")));
}

#[test]
fn booleans_order_below_true() {
    let mut repl = Repl::new();
    assert_eq!(format!("true"), repl.eval(String::from("(< false true)")));
    assert_eq!(format!("true"), repl.eval(String::from("(max false true)")));
}

#[test]
fn parameters_bind_in_declared_order() {
    let mut repl = Repl::new();
    assert_eq!(format!(""), repl.eval(String::from("(defn f [a b] (- a b))")));
    assert_eq!(format!("3"), repl.eval(String::from("(f 5 2)")));
    // extra arguments beyond the parameter count are ignored
    assert_eq!(format!("3"), repl.eval(String::from("(f 5 2 99)")));
}

#[test]
fn an_unbound_parameter_reference_is_a_lookup_error() {
    let mut repl = Repl::new();
    assert_eq!(format!(""), repl.eval(String::from("(defn f [a b] (- a b))")));
    assert_eq!(
        format!("Variable b doesn't exist in this context"),
        repl.eval(String::from("(f 5)"))
    );
}

#[test]
fn integer_literal_out_of_range_is_an_error() {
    let mut repl = Repl::new();
    assert_eq!(
        format!("Value error: integer literal does not fit a 64-bit integer"),
        repl.eval(String::from("9223372036854775808"))
    );
    assert_eq!(
        format!("Value error: integer literal does not fit a 64-bit integer"),
        repl.eval(String::from("(+ 99999999999999999999 1)"))
    );
    assert_eq!(
        format!("9223372036854775807"),
        repl.eval(String::from("9223372036854775807"))
    );
}
