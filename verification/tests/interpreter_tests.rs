//! The operator, comparison and logical algebra on evaluated operands.

use moeda::interpreter::{exec_comparison, exec_logical, exec_operator};
use moeda::primitive::Type;

#[test]
fn test_exec_operator_plus() {
    let values = vec![Type::Int(2), Type::Int(4)];
    assert_eq!(Ok(Type::Int(6)), exec_operator(String::from("+"), values))
}

#[test]
fn test_exec_operator_minus() {
    let values = vec![Type::Int(2), Type::Int(4)];
    assert_eq!(Ok(Type::Int(-2)), exec_operator(String::from("-"), values))
}

#[test]
fn test_exec_operator_mul() {
    let values = vec![Type::Int(2), Type::Int(4)];
    assert_eq!(Ok(Type::Int(8)), exec_operator(String::from("*"), values))
}

#[test]
fn test_exec_operator_div() {
    let values = vec![Type::Int(6), Type::Int(2)];
    assert_eq!(Ok(Type::Int(3)), exec_operator(String::from("/"), values))
}

#[test]
fn test_exec_comparison_eq() {
    let values = vec![Type::Int(6), Type::Int(2)];
    assert_eq!(
        Ok(Type::Bool(false)),
        exec_comparison(String::from("="), values)
    )
}

#[test]
fn test_exec_comparison_different() {
    let values = vec![Type::Int(6), Type::Int(2)];
    assert_eq!(
        Ok(Type::Bool(true)),
        exec_comparison(String::from("/="), values)
    )
}

#[test]
fn test_exec_comparison_gt() {
    let values = vec![Type::Int(6), Type::Int(2)];
    assert_eq!(
        Ok(Type::Bool(true)),
        exec_comparison(String::from(">"), values)
    )
}

#[test]
fn test_exec_comparison_lt() {
    let values = vec![Type::Int(6), Type::Int(2)];
    assert_eq!(
        Ok(Type::Bool(false)),
        exec_comparison(String::from("<"), values)
    )
}

#[test]
fn test_exec_comparison_gte() {
    let values = vec![Type::Int(6), Type::Int(2)];
    assert_eq!(
        Ok(Type::Bool(true)),
        exec_comparison(String::from(">="), values)
    )
}

#[test]
fn test_exec_comparison_lte() {
    let values = vec![Type::Int(6), Type::Int(2)];
    assert_eq!(
        Ok(Type::Bool(false)),
        exec_comparison(String::from("<="), values)
    )
}

#[test]
fn test_exec_comparison_max() {
    let values = vec![Type::Int(6), Type::Int(2), Type::Int(55)];
    assert_eq!(
        Ok(Type::Int(55)),
        exec_comparison(String::from("max"), values)
    )
}

#[test]
fn test_exec_comparison_min() {
    let values = vec![Type::Int(6), Type::Int(2), Type::Int(55)];
    assert_eq!(
        Ok(Type::Int(2)),
        exec_comparison(String::from("min"), values)
    )
}

#[test]
fn test_exec_logical_and() {
    assert_eq!(
        Ok(Type::Bool(false)),
        exec_logical(
            String::from("and"),
            vec![Type::Bool(false), Type::Bool(true)],
        )
    );
    assert_eq!(
        Ok(Type::Bool(false)),
        exec_logical(
            String::from("and"),
            vec![Type::Bool(true), Type::Bool(false)],
        )
    );
    assert_eq!(
        Ok(Type::Bool(false)),
        exec_logical(
            String::from("and"),
            vec![Type::Bool(false), Type::Bool(false)],
        )
    );
    assert_eq!(
        Ok(Type::Bool(true)),
        exec_logical(
            String::from("and"),
            vec![Type::Bool(true), Type::Bool(true)],
        )
    )
}

#[test]
fn test_exec_logical_or() {
    assert_eq!(
        Ok(Type::Bool(false)),
        exec_logical(
            String::from("or"),
            vec![Type::Bool(false), Type::Bool(false)],
        )
    );
    assert_eq!(
        Ok(Type::Bool(true)),
        exec_logical(
            String::from("or"),
            vec![Type::Bool(true), Type::Bool(false)],
        )
    );
    assert_eq!(
        Ok(Type::Bool(true)),
        exec_logical(
            String::from("or"),
            vec![Type::Bool(false), Type::Bool(true)],
        )
    );
    assert_eq!(
        Ok(Type::Bool(true)),
        exec_logical(String::from("or"), vec![Type::Bool(true), Type::Bool(true)])
    )
}

#[test]
fn test_exec_logical_not() {
    let values = vec![Type::Bool(true)];
    assert_eq!(
        Ok(Type::Bool(false)),
        exec_logical(String::from("not"), values)
    )
}
