//! The parser's node shapes, statement by statement.

use moeda::ast;
use moeda::parser::{build_node_comparision, build_node_logical, build_node_operator, Parser};
use moeda::token::{Kind, Token, Tokenizer};

#[test]
fn test_expr_sum_as_node() {
    let text = "(+ 1 9 7)";
    let tokenizer = Tokenizer::new(String::from(text));
    let mut parser = Parser::new(tokenizer);
    let nodes = vec![
        ast::Node::constant(Token {
            kind: Kind::Integer,
            value: String::from("1"),
        }),
        ast::Node::constant(Token {
            kind: Kind::Integer,
            value: String::from("9"),
        }),
        ast::Node::constant(Token {
            kind: Kind::Integer,
            value: String::from("7"),
        }),
    ];

    let expected = build_node_operator(String::from("+"), nodes);
    assert_eq!(Ok(expected), parser.statements())
}

#[test]
fn test_expr_sub_as_node() {
    let text = "(- 1 9 7)";
    let tokenizer = Tokenizer::new(String::from(text));
    let mut parser = Parser::new(tokenizer);
    let nodes = vec![
        ast::Node::constant(Token {
            kind: Kind::Integer,
            value: String::from("1"),
        }),
        ast::Node::constant(Token {
            kind: Kind::Integer,
            value: String::from("9"),
        }),
        ast::Node::constant(Token {
            kind: Kind::Integer,
            value: String::from("7"),
        }),
    ];

    let expected = build_node_operator(String::from("-"), nodes);
    assert_eq!(Ok(expected), parser.statements())
}

#[test]
fn test_expr_mul_as_node() {
    let text = "(* 1 9 7)";
    let tokenizer = Tokenizer::new(String::from(text));
    let mut parser = Parser::new(tokenizer);
    let nodes = vec![
        ast::Node::constant(Token {
            kind: Kind::Integer,
            value: String::from("1"),
        }),
        ast::Node::constant(Token {
            kind: Kind::Integer,
            value: String::from("9"),
        }),
        ast::Node::constant(Token {
            kind: Kind::Integer,
            value: String::from("7"),
        }),
    ];

    let expected = build_node_operator(String::from("*"), nodes);
    assert_eq!(Ok(expected), parser.statements())
}

#[test]
fn test_expr_div_as_node() {
    let text = "(/ 1 9 7)";
    let tokenizer = Tokenizer::new(String::from(text));
    let mut parser = Parser::new(tokenizer);
    let nodes = vec![
        ast::Node::constant(Token {
            kind: Kind::Integer,
            value: String::from("1"),
        }),
        ast::Node::constant(Token {
            kind: Kind::Integer,
            value: String::from("9"),
        }),
        ast::Node::constant(Token {
            kind: Kind::Integer,
            value: String::from("7"),
        }),
    ];

    let expected = build_node_operator(String::from("/"), nodes);
    assert_eq!(Ok(expected), parser.statements())
}

#[test]
fn test_expr_mod_as_node() {
    let text = "(% 9 7)";
    let tokenizer = Tokenizer::new(String::from(text));
    let mut parser = Parser::new(tokenizer);
    let nodes = vec![
        ast::Node::constant(Token {
            kind: Kind::Integer,
            value: String::from("9"),
        }),
        ast::Node::constant(Token {
            kind: Kind::Integer,
            value: String::from("7"),
        }),
    ];

    let expected = build_node_operator(String::from("%"), nodes);
    assert_eq!(Ok(expected), parser.statements())
}

#[test]
fn test_expr_sum_complex_as_node() {
    let text = "(+ 9 (- 10 7))";
    let tokenizer = Tokenizer::new(String::from(text));
    let mut parser = Parser::new(tokenizer);
    let nodes_sub = vec![
        ast::Node::constant(Token {
            kind: Kind::Integer,
            value: String::from("10"),
        }),
        ast::Node::constant(Token {
            kind: Kind::Integer,
            value: String::from("7"),
        }),
    ];
    let sub = build_node_operator(String::from("-"), nodes_sub);
    let nodes = vec![
        ast::Node::constant(Token {
            kind: Kind::Integer,
            value: String::from("9"),
        }),
        sub,
    ];

    let expected = build_node_operator(String::from("+"), nodes);
    assert_eq!(Ok(expected), parser.statements())
}

#[test]
fn test_statement_with_comparision_as_node() {
    let text = "(= 1 1)";
    let tokenizer = Tokenizer::new(String::from(text));
    let mut parser = Parser::new(tokenizer);

    let nodes = vec![
        ast::Node::constant(Token {
            kind: Kind::Integer,
            value: String::from("1"),
        }),
        ast::Node::constant(Token {
            kind: Kind::Integer,
            value: String::from("1"),
        }),
    ];

    let expected = build_node_comparision(String::from("="), nodes);
    assert_eq!(Ok(expected), parser.statements())
}

#[test]
fn test_statement_with_complex_comparision_as_node() {
    let text = "(= 1 (* 1 5))";
    let tokenizer = Tokenizer::new(String::from(text));
    let mut parser = Parser::new(tokenizer);

    let node_mul = vec![
        ast::Node::constant(Token {
            kind: Kind::Integer,
            value: String::from("1"),
        }),
        ast::Node::constant(Token {
            kind: Kind::Integer,
            value: String::from("5"),
        }),
    ];
    let mul = build_node_operator(String::from("*"), node_mul);

    let nodes = vec![
        ast::Node::constant(Token {
            kind: Kind::Integer,
            value: String::from("1"),
        }),
        mul,
    ];

    let expected = build_node_comparision(String::from("="), nodes);
    assert_eq!(Ok(expected), parser.statements())
}

#[test]
fn test_logical_not_as_node() {
    let text = "(not true)";
    let tokenizer = Tokenizer::new(String::from(text));
    let mut parser = Parser::new(tokenizer);

    let node = vec![
        ast::Node::constant(Token {
            kind: Kind::Bolean,
            value: String::from("true"),
        }),
    ];
    let expected = build_node_logical(String::from("not"), node);
    assert_eq!(Ok(expected), parser.statements())
}

#[test]
fn test_logical_and_as_node() {
    let text = "(and 1 5)";
    let tokenizer = Tokenizer::new(String::from(text));
    let mut parser = Parser::new(tokenizer);

    let node = vec![
        ast::Node::constant(Token {
            kind: Kind::Integer,
            value: String::from("1"),
        }),
        ast::Node::constant(Token {
            kind: Kind::Integer,
            value: String::from("5"),
        }),
    ];
    let expected = build_node_logical(String::from("and"), node);
    assert_eq!(Ok(expected), parser.statements())
}

#[test]
fn test_logical_or_as_node() {
    let text = "(or 1 5)";
    let tokenizer = Tokenizer::new(String::from(text));
    let mut parser = Parser::new(tokenizer);

    let node = vec![
        ast::Node::constant(Token {
            kind: Kind::Integer,
            value: String::from("1"),
        }),
        ast::Node::constant(Token {
            kind: Kind::Integer,
            value: String::from("5"),
        }),
    ];
    let expected = build_node_logical(String::from("or"), node);
    assert_eq!(Ok(expected), parser.statements())
}

#[test]
fn test_stdout_as_node() {
    let text = "(print (+ 1 1))";
    let tokenizer = Tokenizer::new(String::from(text));
    let mut parser = Parser::new(tokenizer);

    let nodes = vec![
        ast::Node::constant(Token {
            kind: Kind::Integer,
            value: String::from("1"),
        }),
        ast::Node::constant(Token {
            kind: Kind::Integer,
            value: String::from("1"),
        }),
    ];

    let sum_node = build_node_operator(String::from("+"), nodes);
    assert_eq!(Ok(ast::Node::stdout(sum_node)), parser.statements())
}

#[test]
fn test_stdout_with_str_as_node() {
    let text = "(print \"ola\")";
    let tokenizer = Tokenizer::new(String::from(text));
    let mut parser = Parser::new(tokenizer);

    let nodes = ast::Node::constant(Token {
        kind: Kind::Str,
        value: String::from("ola"),
    });

    assert_eq!(Ok(ast::Node::stdout(nodes)), parser.statements())
}

#[test]
fn test_stdout_with_int_as_node() {
    let text = "(print 1)";
    let tokenizer = Tokenizer::new(String::from(text));
    let mut parser = Parser::new(tokenizer);

    let nodes = ast::Node::constant(Token {
        kind: Kind::Integer,
        value: String::from("1"),
    });

    assert_eq!(Ok(ast::Node::stdout(nodes)), parser.statements())
}

#[test]
fn test_stdout_with_bool_as_node() {
    let text = "(print true)";
    let tokenizer = Tokenizer::new(String::from(text));
    let mut parser = Parser::new(tokenizer);

    let nodes = ast::Node::constant(Token {
        kind: Kind::Bolean,
        value: String::from("true"),
    });

    assert_eq!(Ok(ast::Node::stdout(nodes)), parser.statements())
}

#[test]
fn test_stdout_with_empty_as_node() {
    let text = "(print )";
    let tokenizer = Tokenizer::new(String::from(text));
    let mut parser = Parser::new(tokenizer);

    assert_eq!(Ok(ast::Node::stdout(ast::Node::empty())), parser.statements())
}

#[test]
fn test_stdout_with_list_as_node() {
    let text = "(print '(1 2 true))";
    let tokenizer = Tokenizer::new(String::from(text));
    let mut parser = Parser::new(tokenizer);

    let nodes = ast::Node::constant(Token {
        kind: Kind::List,
        value: String::from("1,2,true"),
    });

    assert_eq!(Ok(ast::Node::stdout(nodes)), parser.statements())
}

#[test]
fn test_if_as_node() {
    let text = "(if (= 1 1) (print (+ 1 1)) (print (- 1 1)))";
    let tokenizer = Tokenizer::new(String::from(text));
    let mut parser = Parser::new(tokenizer);

    let condition_node = vec![
        ast::Node::constant(Token {
            kind: Kind::Integer,
            value: String::from("1"),
        }),
        ast::Node::constant(Token {
            kind: Kind::Integer,
            value: String::from("1"),
        }),
    ];
    let anodes = vec![
        ast::Node::constant(Token {
            kind: Kind::Integer,
            value: String::from("1"),
        }),
        ast::Node::constant(Token {
            kind: Kind::Integer,
            value: String::from("1"),
        }),
    ];
    let snodes = vec![
        ast::Node::constant(Token {
            kind: Kind::Integer,
            value: String::from("1"),
        }),
        ast::Node::constant(Token {
            kind: Kind::Integer,
            value: String::from("1"),
        }),
    ];

    let add_node = ast::Node::stdout(build_node_operator(String::from("+"), anodes));
    let sub_node = ast::Node::stdout(build_node_operator(String::from("-"), snodes));
    let condition_node = build_node_comparision(String::from("="), condition_node);
    assert_eq!(
        Ok(ast::Node::ifelse(condition_node, vec![add_node, sub_node])),
        parser.statements()
    )
}

#[test]
fn test_when_as_node() {
    let text = "(when (= 1 1) (print \"eq\"))";
    let tokenizer = Tokenizer::new(String::from(text));
    let mut parser = Parser::new(tokenizer);

    let condition_node = vec![
        ast::Node::constant(Token {
            kind: Kind::Integer,
            value: String::from("1"),
        }),
        ast::Node::constant(Token {
            kind: Kind::Integer,
            value: String::from("1"),
        }),
    ];

    let condition_node = build_node_comparision(String::from("="), condition_node);
    let stdout = ast::Node::stdout(ast::Node::constant(Token {
        kind: Kind::Str,
        value: String::from("eq"),
    }));
    assert_eq!(
        Ok(ast::Node::when(
            condition_node,
            vec![stdout, ast::Node::empty(), ast::Node::empty()],
        )),
        parser.statements()
    )
}

#[test]
fn test_assign_as_node() {
    let text = "(def x 1)";
    let tokenizer = Tokenizer::new(String::from(text));
    let mut parser = Parser::new(tokenizer);

    assert_eq!(
        Ok(ast::Node::assign(
            ast::Node::indentifier(Token {
                kind: Kind::ID,
                value: String::from("x"),
            }),
            ast::Node::constant(Token {
                kind: Kind::Integer,
                value: String::from("1"),
            }),
        )),
        parser.statements()
    )
}

#[test]
fn test_define_function() {
    let text = "(defn hello [name] (print name))";
    let tokenizer = Tokenizer::new(String::from(text));
    let mut parser = Parser::new(tokenizer);

    assert_eq!(
        Ok(ast::Node::function_define(
            ast::Node::indentifier(Token {
                kind: Kind::ID,
                value: String::from("hello"),
            }),
            vec![
                ast::Node::indentifier(Token {
                    kind: Kind::ID,
                    value: String::from("name"),
                }),
            ],
            vec![
                ast::Node::stdout(ast::Node::indentifier(Token {
                    kind: Kind::ID,
                    value: String::from("name"),
                })),
                ast::Node::empty(),
            ],
        )),
        parser.statements()
    )
}

#[test]
fn test_define_function_with_args() {
    let text = "(defn hello [name surname] (print name) (print surname))";
    let tokenizer = Tokenizer::new(String::from(text));
    let mut parser = Parser::new(tokenizer);

    assert_eq!(
        Ok(ast::Node::function_define(
            ast::Node::indentifier(Token {
                kind: Kind::ID,
                value: String::from("hello"),
            }),
            vec![
                ast::Node::indentifier(Token {
                    kind: Kind::ID,
                    value: String::from("name"),
                }),
                ast::Node::indentifier(Token {
                    kind: Kind::ID,
                    value: String::from("surname"),
                }),
            ],
            vec![
                ast::Node::stdout(ast::Node::indentifier(Token {
                    kind: Kind::ID,
                    value: String::from("name"),
                })),
                ast::Node::stdout(ast::Node::indentifier(Token {
                    kind: Kind::ID,
                    value: String::from("surname"),
                })),
                ast::Node::empty(),
            ],
        )),
        parser.statements()
    )
}

#[test]
fn test_define_function_with_complex() {
    let text = "(defn hello [a b] (print (= b a)) (print b))";
    let tokenizer = Tokenizer::new(String::from(text));
    let mut parser = Parser::new(tokenizer);

    let nodes = vec![
        ast::Node::indentifier(Token {
            kind: Kind::ID,
            value: String::from("b"),
        }),
        ast::Node::indentifier(Token {
            kind: Kind::ID,
            value: String::from("a"),
        }),
    ];

    let eq_comparison = build_node_comparision(String::from("="), nodes);

    assert_eq!(
        Ok(ast::Node::function_define(
            ast::Node::indentifier(Token {
                kind: Kind::ID,
                value: String::from("hello"),
            }),
            vec![
                ast::Node::indentifier(Token {
                    kind: Kind::ID,
                    value: String::from("a"),
                }),
                ast::Node::indentifier(Token {
                    kind: Kind::ID,
                    value: String::from("b"),
                }),
            ],
            vec![
                ast::Node::stdout(eq_comparison),
                ast::Node::empty(),
                ast::Node::stdout(ast::Node::indentifier(Token {
                    kind: Kind::ID,
                    value: String::from("b"),
                })),
                ast::Node::empty(),
            ],
        )),
        parser.statements()
    )
}
