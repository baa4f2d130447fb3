//! The scanner's behavior, checked token by token.

use moeda::token::{Kind, Token, Tokenizer};

#[test]
fn test_identify_eof() {
    assert_eq!(Kind::EOF, Kind::classify(&None));
}

#[test]
fn test_identify_comment() {
    assert_eq!(Kind::Comment, Kind::classify(&Some(';')));
}

#[test]
fn test_identify_separator() {
    assert_eq!(Kind::Separator, Kind::classify(&Some(',')));
}

#[test]
fn test_identify_space() {
    assert_eq!(Kind::Space, Kind::classify(&Some(' ')));
}

#[test]
fn test_identify_integer() {
    let v = vec!['1', '2', '3', '4', '5', '6', '7', '8', '9', '0'];
    for i in v {
        assert_eq!(Kind::Integer, Kind::classify(&Some(i)));
    }
}

#[test]
fn test_identify_groups() {
    assert_eq!(Kind::GroupBegin, Kind::classify(&Some('(')));
    assert_eq!(Kind::GroupEnd, Kind::classify(&Some(')')));
}

#[test]
fn test_identify_args() {
    assert_eq!(Kind::ArgsBegin, Kind::classify(&Some('[')));
    assert_eq!(Kind::ArgsEnd, Kind::classify(&Some(']')));
}

#[test]
fn test_identify_end_line() {
    assert_eq!(Kind::EndLine, Kind::classify(&Some('\n')));
}

#[test]
fn test_identify_operators() {
    assert_eq!(Kind::Operator, Kind::classify(&Some('+')));
    assert_eq!(Kind::Operator, Kind::classify(&Some('-')));
    assert_eq!(Kind::Operator, Kind::classify(&Some('/')));
    assert_eq!(Kind::Operator, Kind::classify(&Some('*')));
    assert_eq!(Some(Kind::Operator), Kind::reserved(&String::from("inc")));
    assert_eq!(Some(Kind::Operator), Kind::reserved(&String::from("dec")));
    assert_eq!(Some(Kind::Operator), Kind::reserved(&String::from("rem")));
}

#[test]
fn test_identify_str() {
    assert_eq!(Kind::Str, Kind::classify(&Some('"')))
}

#[test]
fn test_identify_list() {
    assert_eq!(Kind::List, Kind::classify(&Some('\'')));
}

#[test]
fn test_identify_function() {
    assert_eq!(Some(Kind::FnDefine), Kind::reserved(&String::from("defn")));
}

#[test]
fn test_identify_immutable() {
    assert_eq!(Some(Kind::VarDefine), Kind::reserved(&String::from("def")));
}

#[test]
fn test_identify_comparison() {
    assert_eq!(Some(Kind::Comparison), Kind::reserved(&String::from("<")));
    assert_eq!(Some(Kind::Comparison), Kind::reserved(&String::from(">")));
    assert_eq!(Some(Kind::Comparison), Kind::reserved(&String::from("<=")));
    assert_eq!(Some(Kind::Comparison), Kind::reserved(&String::from(">=")));
    assert_eq!(Some(Kind::Comparison), Kind::reserved(&String::from("/=")));
    assert_eq!(Some(Kind::Comparison), Kind::reserved(&String::from("=")));
    assert_eq!(Some(Kind::Comparison), Kind::reserved(&String::from("max")));
    assert_eq!(Some(Kind::Comparison), Kind::reserved(&String::from("min")));
}

#[test]
fn test_identify_logical() {
    assert_eq!(Some(Kind::Logical), Kind::reserved(&String::from("and")));
    assert_eq!(Some(Kind::Logical), Kind::reserved(&String::from("or")));
    assert_eq!(Some(Kind::Logical), Kind::reserved(&String::from("not")));
}

#[test]
fn test_identify_bool() {
    assert_eq!(Some(Kind::Bolean), Kind::reserved(&String::from("true")));
    assert_eq!(Some(Kind::Bolean), Kind::reserved(&String::from("false")));
}

#[test]
fn test_identify_stdout() {
    assert_eq!(Some(Kind::StdOut), Kind::reserved(&String::from("print")));
}

#[test]
fn test_identify_if() {
    assert_eq!(Some(Kind::If), Kind::reserved(&String::from("if")));
}

#[test]
fn test_identify_when() {
    assert_eq!(Some(Kind::When), Kind::reserved(&String::from("when")));
}

#[test]
fn test_tokenizer_new() {
    let text = "1 + 1";
    let tokenizer = Tokenizer::new(String::from(text));

    assert_eq!(0, tokenizer.position);
    assert_eq!(text, tokenizer.text);
}

#[test]
fn test_tokenizer_current() {
    let text = "1 + 1";
    let tokenizer = Tokenizer::new(String::from(text));

    assert_eq!(Some('1'), tokenizer.current());
}

#[test]
fn test_tokenizer_next() {
    let text = "(+ 1 1)";
    let mut tokenizer = Tokenizer::new(String::from(text));

    assert_eq!(
        tokenizer.next().unwrap(),
        Token {
            kind: Kind::GroupBegin,
            value: String::from("("),
        }
    );

    assert_eq!(
        tokenizer.next().unwrap(),
        Token {
            kind: Kind::Operator,
            value: String::from("+"),
        }
    );

    assert_eq!(
        tokenizer.next().unwrap(),
        Token {
            kind: Kind::Integer,
            value: String::from("1"),
        }
    );

    assert_eq!(
        tokenizer.next().unwrap(),
        Token {
            kind: Kind::Integer,
            value: String::from("1"),
        }
    );

    assert_eq!(
        tokenizer.next().unwrap(),
        Token {
            kind: Kind::GroupEnd,
            value: String::from(")"),
        }
    );
}

#[test]
fn test_tokenizer_get() {
    let text = "(+ 1 1)";
    let mut tokenizer = Tokenizer::new(String::from(text));
    tokenizer.advance();

    assert_eq!(
        Some(Token {
            kind: Kind::GroupBegin,
            value: String::from("("),
        }),
        tokenizer.get()
    )
}

#[test]
fn test_tokenizer_peek() {
    let text = "(+ 1 1)";
    let mut tokenizer = Tokenizer::new(String::from(text));

    assert_eq!(
        Some(Token {
            kind: Kind::Operator,
            value: String::from("+"),
        }),
        tokenizer.peek()
    );
    assert_eq!(Some('('), tokenizer.current())
}

#[test]
fn test_tokenizer_consume() {
    let text = "(+ 1 1)";
    let mut tokenizer = Tokenizer::new(String::from(text));

    assert_eq!(
        Token {
            kind: Kind::GroupBegin,
            value: String::from("("),
        },
        tokenizer.advance().consume(Kind::GroupBegin)
    );
}

#[test]
fn test_tokenizer_consume_comparision_equals() {
    let text = "(= 1 1)";
    let mut tokenizer = Tokenizer::new(String::from(text));

    assert_eq!(
        Token {
            kind: Kind::GroupBegin,
            value: String::from("("),
        },
        tokenizer.advance().consume(Kind::GroupBegin)
    );
    assert_eq!(
        Token {
            kind: Kind::Comparison,
            value: String::from("="),
        },
        tokenizer.advance().consume(Kind::Comparison)
    );
    assert_eq!(
        Token {
            kind: Kind::Integer,
            value: String::from("1"),
        },
        tokenizer.advance().consume(Kind::Integer)
    );
    assert_eq!(
        Token {
            kind: Kind::Integer,
            value: String::from("1"),
        },
        tokenizer.advance().consume(Kind::Integer)
    );
    assert_eq!(
        Token {
            kind: Kind::GroupEnd,
            value: String::from(")"),
        },
        tokenizer.advance().consume(Kind::GroupEnd)
    );
}

#[test]
fn test_tokenizer_consume_comparision_different() {
    let text = "(/= 1 1)";
    let mut tokenizer = Tokenizer::new(String::from(text));

    assert_eq!(
        Token {
            kind: Kind::GroupBegin,
            value: String::from("("),
        },
        tokenizer.advance().consume(Kind::GroupBegin)
    );
    assert_eq!(
        Token {
            kind: Kind::Comparison,
            value: String::from("/="),
        },
        tokenizer.advance().consume(Kind::Comparison)
    );
    assert_eq!(
        Token {
            kind: Kind::Integer,
            value: String::from("1"),
        },
        tokenizer.advance().consume(Kind::Integer)
    );
    assert_eq!(
        Token {
            kind: Kind::Integer,
            value: String::from("1"),
        },
        tokenizer.advance().consume(Kind::Integer)
    );
    assert_eq!(
        Token {
            kind: Kind::GroupEnd,
            value: String::from(")"),
        },
        tokenizer.advance().consume(Kind::GroupEnd)
    );
}

#[test]
fn test_tokenizer_next_with_comments() {
    let text = ";;;this is a example of sum\n(+ 1 1)";
    let mut tokenizer = Tokenizer::new(String::from(text));

    assert_eq!(
        tokenizer.next().unwrap(),
        Token {
            kind: Kind::GroupBegin,
            value: String::from("("),
        }
    );

    assert_eq!(
        tokenizer.next().unwrap(),
        Token {
            kind: Kind::Operator,
            value: String::from("+"),
        }
    );

    assert_eq!(
        tokenizer.next().unwrap(),
        Token {
            kind: Kind::Integer,
            value: String::from("1"),
        }
    );

    assert_eq!(
        tokenizer.next().unwrap(),
        Token {
            kind: Kind::Integer,
            value: String::from("1"),
        }
    );

    assert_eq!(
        tokenizer.next().unwrap(),
        Token {
            kind: Kind::GroupEnd,
            value: String::from(")"),
        }
    );
}

#[test]
fn test_tokenizer_with_print() {
    let text = "(print (+ 1 1))";
    let mut tokenizer = Tokenizer::new(String::from(text));

    assert_eq!(
        tokenizer.next().unwrap(),
        Token {
            kind: Kind::GroupBegin,
            value: String::from("("),
        }
    );
    assert_eq!(
        tokenizer.next().unwrap(),
        Token {
            kind: Kind::StdOut,
            value: String::from("print"),
        }
    );
    assert_eq!(
        tokenizer.next().unwrap(),
        Token {
            kind: Kind::GroupBegin,
            value: String::from("("),
        }
    );

    assert_eq!(
        tokenizer.next().unwrap(),
        Token {
            kind: Kind::Operator,
            value: String::from("+"),
        }
    );

    assert_eq!(
        tokenizer.next().unwrap(),
        Token {
            kind: Kind::Integer,
            value: String::from("1"),
        }
    );

    assert_eq!(
        tokenizer.next().unwrap(),
        Token {
            kind: Kind::Integer,
            value: String::from("1"),
        }
    );

    assert_eq!(
        tokenizer.next().unwrap(),
        Token {
            kind: Kind::GroupEnd,
            value: String::from(")"),
        }
    );

    assert_eq!(
        tokenizer.next().unwrap(),
        Token {
            kind: Kind::GroupEnd,
            value: String::from(")"),
        }
    )
}

#[test]
fn test_tokenizer_next_with_str() {
    let text = "(print \"ola\")";
    let mut tokenizer = Tokenizer::new(String::from(text));

    assert_eq!(
        tokenizer.next().unwrap(),
        Token {
            kind: Kind::GroupBegin,
            value: String::from("("),
        }
    );
    assert_eq!(
        tokenizer.next().unwrap(),
        Token {
            kind: Kind::StdOut,
            value: String::from("print"),
        }
    );
    assert_eq!(
        tokenizer.next().unwrap(),
        Token {
            kind: Kind::Str,
            value: String::from("ola"),
        }
    );
    assert_eq!(
        tokenizer.next().unwrap(),
        Token {
            kind: Kind::GroupEnd,
            value: String::from(")"),
        }
    );
}

#[test]
fn test_tokenizer_next_list() {
    let text = "(print '(1 2 true))";
    let mut tokenizer = Tokenizer::new(String::from(text));
    assert_eq!(
        tokenizer.next().unwrap(),
        Token {
            kind: Kind::GroupBegin,
            value: String::from("("),
        }
    );
    assert_eq!(
        tokenizer.next().unwrap(),
        Token {
            kind: Kind::StdOut,
            value: String::from("print"),
        }
    );
    assert_eq!(
        tokenizer.next().unwrap(),
        Token {
            kind: Kind::List,
            value: String::from("1,2,true"),
        }
    );
    assert_eq!(
        tokenizer.next().unwrap(),
        Token {
            kind: Kind::GroupEnd,
            value: String::from(")"),
        }
    );
}

#[test]
fn test_tokenizer_next_if_statement() {
    let text = "(if (= 9 9) (print \"eq\") (print \"neq\"))";
    let mut tokenizer = Tokenizer::new(String::from(text));

    assert_eq!(
        tokenizer.next().unwrap(),
        Token {
            kind: Kind::GroupBegin,
            value: String::from("("),
        }
    );
    assert_eq!(
        tokenizer.next().unwrap(),
        Token {
            kind: Kind::If,
            value: String::from("if"),
        }
    );
    assert_eq!(
        tokenizer.next().unwrap(),
        Token {
            kind: Kind::GroupBegin,
            value: String::from("("),
        }
    );
    assert_eq!(
        tokenizer.next().unwrap(),
        Token {
            kind: Kind::Comparison,
            value: String::from("="),
        }
    );
    assert_eq!(
        tokenizer.next().unwrap(),
        Token {
            kind: Kind::Integer,
            value: String::from("9"),
        }
    );
    assert_eq!(
        tokenizer.next().unwrap(),
        Token {
            kind: Kind::Integer,
            value: String::from("9"),
        }
    );
    assert_eq!(
        tokenizer.next().unwrap(),
        Token {
            kind: Kind::GroupEnd,
            value: String::from(")"),
        }
    );
    assert_eq!(
        tokenizer.next().unwrap(),
        Token {
            kind: Kind::GroupBegin,
            value: String::from("("),
        }
    );
    assert_eq!(
        tokenizer.next().unwrap(),
        Token {
            kind: Kind::StdOut,
            value: String::from("print"),
        }
    );
    assert_eq!(
        tokenizer.next().unwrap(),
        Token {
            kind: Kind::Str,
            value: String::from("eq"),
        }
    );

    assert_eq!(
        tokenizer.next().unwrap(),
        Token {
            kind: Kind::GroupEnd,
            value: String::from(")"),
        }
    );

    assert_eq!(
        tokenizer.next().unwrap(),
        Token {
            kind: Kind::GroupBegin,
            value: String::from("("),
        }
    );
    assert_eq!(
        tokenizer.next().unwrap(),
        Token {
            kind: Kind::StdOut,
            value: String::from("print"),
        }
    );
    assert_eq!(
        tokenizer.next().unwrap(),
        Token {
            kind: Kind::Str,
            value: String::from("neq"),
        }
    );
    assert_eq!(
        tokenizer.next().unwrap(),
        Token {
            kind: Kind::GroupEnd,
            value: String::from(")"),
        }
    );
    assert_eq!(
        tokenizer.next().unwrap(),
        Token {
            kind: Kind::GroupEnd,
            value: String::from(")"),
        }
    )
}

#[test]
fn test_tokenizer_next_with_when_statements() {
    let text = "(when (> 3 2) (print \"big\"))";
    let mut tokenizer = Tokenizer::new(String::from(text));

    assert_eq!(
        tokenizer.next().unwrap(),
        Token {
            kind: Kind::GroupBegin,
            value: String::from("("),
        }
    );
    assert_eq!(
        tokenizer.next().unwrap(),
        Token {
            kind: Kind::When,
            value: String::from("when"),
        }
    );
    assert_eq!(
        tokenizer.next().unwrap(),
        Token {
            kind: Kind::GroupBegin,
            value: String::from("("),
        }
    );
    assert_eq!(
        tokenizer.next().unwrap(),
        Token {
            kind: Kind::Comparison,
            value: String::from(">"),
        }
    );
    assert_eq!(
        tokenizer.next().unwrap(),
        Token {
            kind: Kind::Integer,
            value: String::from("3"),
        }
    );
    assert_eq!(
        tokenizer.next().unwrap(),
        Token {
            kind: Kind::Integer,
            value: String::from("2"),
        }
    );
    assert_eq!(
        tokenizer.next().unwrap(),
        Token {
            kind: Kind::GroupEnd,
            value: String::from(")"),
        }
    );
    assert_eq!(
        tokenizer.next().unwrap(),
        Token {
            kind: Kind::GroupBegin,
            value: String::from("("),
        }
    );
    assert_eq!(
        tokenizer.next().unwrap(),
        Token {
            kind: Kind::StdOut,
            value: String::from("print"),
        }
    );
    assert_eq!(
        tokenizer.next().unwrap(),
        Token {
            kind: Kind::Str,
            value: String::from("big"),
        }
    );
    assert_eq!(
        tokenizer.next().unwrap(),
        Token {
            kind: Kind::GroupEnd,
            value: String::from(")"),
        }
    );
    assert_eq!(
        tokenizer.next().unwrap(),
        Token {
            kind: Kind::GroupEnd,
            value: String::from(")"),
        }
    );
}

#[test]
fn test_tokenizer_next_id() {
    let text = "(def x 2)";
    let mut tokenizer = Tokenizer::new(String::from(text));

    assert_eq!(
        tokenizer.next().unwrap(),
        Token {
            kind: Kind::GroupBegin,
            value: String::from("("),
        }
    );

    assert_eq!(
        tokenizer.next().unwrap(),
        Token {
            kind: Kind::VarDefine,
            value: String::from("def"),
        }
    );

    assert_eq!(
        tokenizer.next().unwrap(),
        Token {
            kind: Kind::ID,
            value: String::from("x"),
        }
    );

    assert_eq!(
        tokenizer.next().unwrap(),
        Token {
            kind: Kind::Integer,
            value: String::from("2"),
        }
    );

    assert_eq!(
        tokenizer.next().unwrap(),
        Token {
            kind: Kind::GroupEnd,
            value: String::from(")"),
        }
    )
}

#[test]
fn test_tokenizer_next_with_id() {
    let text = "(defn maior_que_dois [arg] (> arg 2))";
    let mut tokenizer = Tokenizer::new(String::from(text));

    assert_eq!(
        tokenizer.next().unwrap(),
        Token {
            kind: Kind::GroupBegin,
            value: String::from("("),
        }
    );
    assert_eq!(
        tokenizer.next().unwrap(),
        Token {
            kind: Kind::FnDefine,
            value: String::from("defn"),
        }
    );
    assert_eq!(
        tokenizer.next().unwrap(),
        Token {
            kind: Kind::ID,
            value: String::from("maior_que_dois"),
        }
    );
    assert_eq!(
        tokenizer.next().unwrap(),
        Token {
            kind: Kind::ArgsBegin,
            value: String::from("["),
        }
    );
    assert_eq!(
        tokenizer.next().unwrap(),
        Token {
            kind: Kind::ID,
            value: String::from("arg"),
        }
    );
    assert_eq!(
        tokenizer.next().unwrap(),
        Token {
            kind: Kind::ArgsEnd,
            value: String::from("]"),
        }
    );
    assert_eq!(
        tokenizer.next().unwrap(),
        Token {
            kind: Kind::GroupBegin,
            value: String::from("("),
        }
    );
    assert_eq!(
        tokenizer.next().unwrap(),
        Token {
            kind: Kind::Comparison,
            value: String::from(">"),
        }
    );
    assert_eq!(
        tokenizer.next().unwrap(),
        Token {
            kind: Kind::ID,
            value: String::from("arg"),
        }
    );
    assert_eq!(
        tokenizer.next().unwrap(),
        Token {
            kind: Kind::Integer,
            value: String::from("2"),
        }
    );
    assert_eq!(
        tokenizer.next().unwrap(),
        Token {
            kind: Kind::GroupEnd,
            value: String::from(")"),
        }
    );
    assert_eq!(
        tokenizer.next().unwrap(),
        Token {
            kind: Kind::GroupEnd,
            value: String::from(")"),
        }
    );
}

#[test]
fn test_tokenizer_advance_buffers_end_of_input() {
    let mut tokenizer = Tokenizer::new(String::from("  "));
    tokenizer.advance();
    assert_eq!(
        Some(Token {
            kind: Kind::EOF,
            value: String::new(),
        }),
        tokenizer.get()
    );
    tokenizer.advance();
    assert_eq!(
        Some(Token {
            kind: Kind::EOF,
            value: String::new(),
        }),
        tokenizer.get()
    );
}
