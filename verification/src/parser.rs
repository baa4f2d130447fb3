//! The parser: builds a syntax tree from the scanner's token stream with
//! one token of lookahead. A parenthesized form's head token selects the
//! node kind; token-kind mismatches are reported as syntax errors. The
//! parse is specified functionally: `spec_parse` and its companions compute,
//! over `spec_scan` and a `Cursor`, the exact tree, error and final scanner
//! state that each parse function returns.

use vstd::prelude::*;

use crate::ast::{nodes_view, Node, NodeV, OpV};
use crate::primitive::{literal_ok, spec_from_token, spec_parse_int, ErrorKind, EvalError};
use crate::token::{spec_scan, Kind, Tokenizer, TokenV};

verus! {


/// The scanner state the parser works on: the cursor position and the
/// buffered token, if one is held.
#[verifier::ext_equal]
pub struct Cursor {
    pub pos: int,
    pub buf: Option<TokenV>,
}

/// A parse failure: its tier and its complete message.
#[verifier::ext_equal]
pub struct ParseErr {
    pub kind: ErrorKind,
    pub msg: Seq<char>,
}

/// How much scanning work remains at a cursor: twice the unread text, plus
/// one if a token other than the end-of-input token is buffered.
pub open spec fn cur_m(text: Seq<char>, st: Cursor) -> int {
    2 * (text.len() - st.pos) + (match st.buf {
        Some(t) => if t.kind != Kind::EOF {
            1int
        } else {
            0int
        },
        None => 0int,
    })
}

/// Filling the token buffer: a held token stays; otherwise the next token
/// is scanned and buffered, the end-of-input token included.
pub open spec fn cur_advance(text: Seq<char>, st: Cursor) -> Cursor {
    match st.buf {
        Some(_) => st,
        None => {
            let sc = spec_scan(text, st.pos);
            Cursor { pos: sc.end, buf: Some(sc.token) }
        },
    }
}

/// Emptying the token buffer after the buffered token is taken.
pub open spec fn cur_take(st: Cursor) -> Cursor {
    Cursor { pos: st.pos, buf: None }
}

/// A failure that the termination guards of the parse functions return on
/// states their measure does not admit; no reachable parse produces it.
pub open spec fn stuck(st: Cursor) -> (Result<NodeV, ParseErr>, Cursor) {
    (Err(ParseErr { kind: ErrorKind::Syntax, msg: Seq::empty() }), st)
}

/// What consuming one buffered literal token yields: the constant node it
/// denotes, or an error for an integer literal that does not fit 64 bits.
pub open spec fn spec_literal(text: Seq<char>, st: Cursor) -> (Result<NodeV, ParseErr>, Cursor) {
    match st.buf {
        Some(t) => if t.kind == Kind::Integer && spec_parse_int(t.text) is None {
            (
                Err(
                    ParseErr {
                        kind: ErrorKind::Value,
                        msg: "Value error: integer literal does not fit a 64-bit integer"@,
                    },
                ),
                cur_take(st),
            )
        } else {
            (
                Ok(NodeV { op: OpV::Constant(spec_from_token(t)), value: t.text }),
                cur_take(st),
            )
        },
        None => stuck(st),
    }
}

/// What parsing one identifier token yields: an identifier node, or a
/// syntax error naming what stood in its place.
pub open spec fn spec_identifier(text: Seq<char>, st: Cursor) -> (Result<NodeV, ParseErr>, Cursor) {
    let st1 = cur_advance(text, st);
    match st1.buf {
        Some(t) => if t.kind == Kind::ID {
            (Ok(NodeV { op: OpV::Identifier(t.text), value: t.text }), cur_take(st1))
        } else if t.kind == Kind::EOF {
            (
                Err(
                    ParseErr {
                        kind: ErrorKind::Syntax,
                        msg: "Syntax error: expected an identifier, found end of input"@,
                    },
                ),
                st1,
            )
        } else {
            (
                Err(
                    ParseErr {
                        kind: ErrorKind::Syntax,
                        msg: "Syntax error: expected an identifier"@,
                    },
                ),
                st1,
            )
        },
        None => (
            Err(
                ParseErr {
                    kind: ErrorKind::Syntax,
                    msg: "Syntax error: expected an identifier, found end of input"@,
                },
            ),
            st1,
        ),
    }
}

/// What consuming the closing parenthesis of a form yields.
pub open spec fn spec_close_group(text: Seq<char>, st: Cursor) -> (Result<(), ParseErr>, Cursor) {
    let st1 = cur_advance(text, st);
    match st1.buf {
        Some(t) => if t.kind == Kind::GroupEnd {
            (Ok(()), cur_take(st1))
        } else if t.kind == Kind::EOF {
            (
                Err(
                    ParseErr {
                        kind: ErrorKind::Syntax,
                        msg: "Syntax error: expected a closing parenthesis, found end of input"@,
                    },
                ),
                st1,
            )
        } else {
            (
                Err(
                    ParseErr {
                        kind: ErrorKind::Syntax,
                        msg: "Syntax error: expected a closing parenthesis"@,
                    },
                ),
                st1,
            )
        },
        None => (
            Err(
                ParseErr {
                    kind: ErrorKind::Syntax,
                    msg: "Syntax error: expected a closing parenthesis, found end of input"@,
                },
            ),
            st1,
        ),
    }
}

/// What parsing one statement yields: a parenthesized form (by its head
/// token), a bare literal, a bare identifier closing its group, or the
/// placeholder at the end of the input. The guards compare the measure of
/// the state a sub-parse reaches against the entry state's; every reachable
/// parse satisfies them, and they make the recursion's termination plain.
pub open spec fn spec_statement(text: Seq<char>, st: Cursor) -> (Result<NodeV, ParseErr>, Cursor)
    decreases cur_m(text, st), 1int,
{
    let st1 = cur_advance(text, st);
    match st1.buf {
        Some(t) => {
            if t.kind == Kind::GroupBegin {
                let st2 = cur_take(st1);
                if 0 <= cur_m(text, st2) && cur_m(text, st2) < cur_m(text, st) {
                    spec_group_body(text, st2)
                } else {
                    stuck(st2)
                }
            } else if t.kind == Kind::Str || t.kind == Kind::Integer || t.kind == Kind::List
                || t.kind == Kind::Bolean {
                spec_literal(text, st1)
            } else if t.kind == Kind::ID {
                let (rd, st2) = spec_identifier(text, st1);
                match rd {
                    Err(e) => (Err(e), st2),
                    Ok(idn) => {
                        let st3 = cur_advance(text, st2);
                        match st3.buf {
                            Some(t2) => if t2.kind == Kind::GroupEnd {
                                (Ok(idn), cur_take(st3))
                            } else if t2.kind == Kind::EOF {
                                (
                                    Err(
                                        ParseErr {
                                            kind: ErrorKind::Syntax,
                                            msg: "Syntax error: expected a closing parenthesis, found end of input"@,
                                        },
                                    ),
                                    st3,
                                )
                            } else {
                                (
                                    Err(
                                        ParseErr {
                                            kind: ErrorKind::Syntax,
                                            msg: "Syntax error: expected a closing parenthesis"@,
                                        },
                                    ),
                                    st3,
                                )
                            },
                            None => (
                                Err(
                                    ParseErr {
                                        kind: ErrorKind::Syntax,
                                        msg: "Syntax error: expected a closing parenthesis, found end of input"@,
                                    },
                                ),
                                st3,
                            ),
                        }
                    },
                }
            } else if t.kind == Kind::GroupEnd {
                (Ok(NodeV { op: OpV::Empty, value: Seq::<char>::empty() }), cur_take(st1))
            } else if t.kind == Kind::EOF {
                (Ok(NodeV { op: OpV::Empty, value: Seq::<char>::empty() }), st1)
            } else {
                (
                    Err(
                        ParseErr { kind: ErrorKind::Syntax, msg: "Syntax error: unexpected token"@ },
                    ),
                    st1,
                )
            }
        },
        None => (Ok(NodeV { op: OpV::Empty, value: Seq::<char>::empty() }), st1),
    }
}

/// What parsing the body of a parenthesized form yields, after its opening
/// parenthesis: the head token selects the node kind, and the children are
/// the parses of the tokens that follow.
pub open spec fn spec_group_body(text: Seq<char>, st: Cursor) -> (Result<NodeV, ParseErr>, Cursor)
    decreases cur_m(text, st), 4int,
{
    let st1 = cur_advance(text, st);
    match st1.buf {
        Some(t) => {
            if t.kind == Kind::GroupBegin {
                let st2 = cur_take(st1);
                if 0 <= cur_m(text, st2) && cur_m(text, st2) < cur_m(text, st) {
                    spec_group_body(text, st2)
                } else {
                    stuck(st2)
                }
            } else if t.kind == Kind::Operator || t.kind == Kind::Logical || t.kind
                == Kind::Comparison {
                let st2 = cur_take(st1);
                if 0 <= cur_m(text, st2) && cur_m(text, st2) < cur_m(text, st) {
                    let (ra, st3) = spec_args_list(text, st2);
                    match ra {
                        Err(e) => (Err(e), st3),
                        Ok(argvs) => {
                            let (rc, st4) = spec_close_group(text, st3);
                            match rc {
                                Err(e) => (Err(e), st4),
                                Ok(u) => if t.kind == Kind::Operator {
                                    (
                                        Ok(NodeV { op: OpV::Operator(t.text, argvs), value: t.text }),
                                        st4,
                                    )
                                } else if t.kind == Kind::Logical {
                                    (
                                        Ok(NodeV { op: OpV::Logical(t.text, argvs), value: t.text }),
                                        st4,
                                    )
                                } else {
                                    (
                                        Ok(
                                            NodeV {
                                                op: OpV::Comparison(t.text, argvs),
                                                value: t.text,
                                            },
                                        ),
                                        st4,
                                    )
                                },
                            }
                        },
                    }
                } else {
                    stuck(st2)
                }
            } else if t.kind == Kind::StdOut {
                let st2 = cur_take(st1);
                if 0 <= cur_m(text, st2) && cur_m(text, st2) <= cur_m(text, st) {
                    let (rs, st3) = spec_statement(text, st2);
                    match rs {
                        Err(e) => (Err(e), st3),
                        Ok(n) => (
                            Ok(
                                NodeV {
                                    op: OpV::StdOut(Box::new(n)),
                                    value: Seq::<char>::empty(),
                                },
                            ),
                            st3,
                        ),
                    }
                } else {
                    stuck(st2)
                }
            } else if t.kind == Kind::If {
                let st2 = cur_take(st1);
                if 0 <= cur_m(text, st2) && cur_m(text, st2) <= cur_m(text, st) {
                    let (rc, st3) = spec_factor(text, st2);
                    match rc {
                        Err(e) => (Err(e), st3),
                        Ok(cond) => if 0 <= cur_m(text, st3) && cur_m(text, st3) <= cur_m(
                            text,
                            st,
                        ) {
                            let (rl, st4) = spec_factor(text, st3);
                            match rl {
                                Err(e) => (Err(e), st4),
                                Ok(lnode) => if 0 <= cur_m(text, st4) && cur_m(text, st4)
                                    <= cur_m(text, st) {
                                    let (rr, st5) = spec_factor(text, st4);
                                    match rr {
                                        Err(e) => (Err(e), st5),
                                        Ok(rnode) => (
                                            Ok(
                                                NodeV {
                                                    op: OpV::IfElse(
                                                        Box::new(cond),
                                                        seq![lnode, rnode],
                                                    ),
                                                    value: "if"@,
                                                },
                                            ),
                                            st5,
                                        ),
                                    }
                                } else {
                                    stuck(st4)
                                },
                            }
                        } else {
                            stuck(st3)
                        },
                    }
                } else {
                    stuck(st2)
                }
            } else if t.kind == Kind::When {
                let st2 = cur_take(st1);
                if 0 <= cur_m(text, st2) && cur_m(text, st2) <= cur_m(text, st) {
                    let (rc, st3) = spec_factor(text, st2);
                    match rc {
                        Err(e) => (Err(e), st3),
                        Ok(cond) => if 0 <= cur_m(text, st3) && cur_m(text, st3) <= cur_m(
                            text,
                            st,
                        ) {
                            let (rs, st4) = spec_statement(text, st3);
                            match rs {
                                Err(e) => (Err(e), st4),
                                Ok(first) => if 0 <= cur_m(text, st4) && cur_m(text, st4)
                                    < cur_m(text, st) {
                                    let (rb, st5) = spec_stmt_seq(text, st4);
                                    match rb {
                                        Err(e) => (Err(e), st5),
                                        Ok(body) => (
                                            Ok(
                                                NodeV {
                                                    op: OpV::When(
                                                        Box::new(cond),
                                                        seq![first] + body,
                                                    ),
                                                    value: "when"@,
                                                },
                                            ),
                                            st5,
                                        ),
                                    }
                                } else {
                                    stuck(st4)
                                },
                            }
                        } else {
                            stuck(st3)
                        },
                    }
                } else {
                    stuck(st2)
                }
            } else if t.kind == Kind::VarDefine {
                let st2 = cur_take(st1);
                let (rv, st3) = spec_identifier(text, st2);
                match rv {
                    Err(e) => (Err(e), st3),
                    Ok(var) => if 0 <= cur_m(text, st3) && cur_m(text, st3) <= cur_m(text, st) {
                        let (rs, st4) = spec_statement(text, st3);
                        match rs {
                            Err(e) => (Err(e), st4),
                            Ok(val) => (
                                Ok(
                                    NodeV {
                                        op: OpV::Assign(Box::new(var), Box::new(val)),
                                        value: "def"@,
                                    },
                                ),
                                st4,
                            ),
                        }
                    } else {
                        stuck(st3)
                    },
                }
            } else if t.kind == Kind::FnDefine {
                if 0 <= cur_m(text, st1) && cur_m(text, st1) <= cur_m(text, st) {
                    spec_define_function(text, st1)
                } else {
                    stuck(st1)
                }
            } else if t.kind == Kind::ID {
                if 0 <= cur_m(text, st1) && cur_m(text, st1) <= cur_m(text, st) {
                    spec_function_call(text, st1)
                } else {
                    stuck(st1)
                }
            } else if t.kind == Kind::Str || t.kind == Kind::Integer || t.kind == Kind::List
                || t.kind == Kind::Bolean {
                spec_literal(text, st1)
            } else if t.kind == Kind::GroupEnd {
                (Ok(NodeV { op: OpV::Empty, value: Seq::<char>::empty() }), cur_take(st1))
            } else if t.kind == Kind::EOF {
                (Ok(NodeV { op: OpV::Empty, value: Seq::<char>::empty() }), st1)
            } else {
                (
                    Err(
                        ParseErr { kind: ErrorKind::Syntax, msg: "Syntax error: unexpected token"@ },
                    ),
                    st1,
                )
            }
        },
        None => (Ok(NodeV { op: OpV::Empty, value: Seq::<char>::empty() }), st1),
    }
}

/// What parsing one operand yields: a literal, an identifier, or a nested
/// parenthesized statement.
pub open spec fn spec_factor(text: Seq<char>, st: Cursor) -> (Result<NodeV, ParseErr>, Cursor)
    decreases cur_m(text, st), 2int,
{
    let st1 = cur_advance(text, st);
    match st1.buf {
        Some(t) => {
            if t.kind == Kind::GroupBegin || t.kind == Kind::ArgsBegin {
                if 0 <= cur_m(text, st1) && cur_m(text, st1) <= cur_m(text, st) {
                    spec_statement(text, st1)
                } else {
                    stuck(st1)
                }
            } else if t.kind == Kind::Bolean || t.kind == Kind::Integer || t.kind == Kind::Str
                || t.kind == Kind::List {
                spec_literal(text, st1)
            } else if t.kind == Kind::ID {
                spec_identifier(text, st1)
            } else if t.kind == Kind::GroupEnd {
                let st2 = cur_take(st1);
                if 0 <= cur_m(text, st2) && cur_m(text, st2) <= cur_m(text, st) {
                    spec_statement(text, st2)
                } else {
                    stuck(st2)
                }
            } else if t.kind == Kind::EOF {
                (
                    Err(
                        ParseErr {
                            kind: ErrorKind::Syntax,
                            msg: "Syntax error: expected an operand, found end of input"@,
                        },
                    ),
                    st1,
                )
            } else {
                (
                    Err(
                        ParseErr {
                            kind: ErrorKind::Syntax,
                            msg: "Syntax error: expected an operand"@,
                        },
                    ),
                    st1,
                )
            }
        },
        None => (
            Err(
                ParseErr {
                    kind: ErrorKind::Syntax,
                    msg: "Syntax error: expected an operand, found end of input"@,
                },
            ),
            st1,
        ),
    }
}

/// What parsing a variadic operand list yields: one parsed operand per
/// element, in source left-to-right order, up to the closing parenthesis
/// (which is left buffered for the caller).
pub open spec fn spec_args_list(text: Seq<char>, st: Cursor) -> (
    Result<Seq<NodeV>, ParseErr>,
    Cursor,
)
    decreases cur_m(text, st), 5int,
{
    let st1 = cur_advance(text, st);
    match st1.buf {
        Some(t) => {
            if t.kind == Kind::GroupEnd {
                (Ok(Seq::<NodeV>::empty()), st1)
            } else if t.kind == Kind::EOF {
                (
                    Err(
                        ParseErr {
                            kind: ErrorKind::Syntax,
                            msg: "Syntax error: expected a closing parenthesis, found end of input"@,
                        },
                    ),
                    st1,
                )
            } else if 0 <= cur_m(text, st1) && cur_m(text, st1) <= cur_m(text, st) {
                let (rf, st2) = spec_factor(text, st1);
                match rf {
                    Err(e) => (Err(e), st2),
                    Ok(n) => if 0 <= cur_m(text, st2) && cur_m(text, st2) < cur_m(text, st) {
                        let (rr, st3) = spec_args_list(text, st2);
                        match rr {
                            Err(e) => (Err(e), st3),
                            Ok(rest) => (Ok(seq![n] + rest), st3),
                        }
                    } else {
                        (Err(ParseErr { kind: ErrorKind::Syntax, msg: Seq::empty() }), st2)
                    },
                }
            } else {
                (Err(ParseErr { kind: ErrorKind::Syntax, msg: Seq::empty() }), st1)
            }
        },
        None => (
            Err(
                ParseErr {
                    kind: ErrorKind::Syntax,
                    msg: "Syntax error: expected a closing parenthesis, found end of input"@,
                },
            ),
            st1,
        ),
    }
}

/// What parsing a bracketed parameter list yields: one parsed element per
/// parameter, in order, up to the closing bracket (left for the caller).
pub open spec fn spec_params_list(text: Seq<char>, st: Cursor) -> (
    Result<Seq<NodeV>, ParseErr>,
    Cursor,
)
    decreases cur_m(text, st), 5int,
{
    let st1 = cur_advance(text, st);
    match st1.buf {
        Some(t) => {
            if t.kind == Kind::ArgsEnd {
                (Ok(Seq::<NodeV>::empty()), st1)
            } else if t.kind == Kind::EOF {
                (
                    Err(
                        ParseErr {
                            kind: ErrorKind::Syntax,
                            msg: "Syntax error: expected a closing bracket, found end of input"@,
                        },
                    ),
                    st1,
                )
            } else if 0 <= cur_m(text, st1) && cur_m(text, st1) <= cur_m(text, st) {
                let (rf, st2) = spec_factor(text, st1);
                match rf {
                    Err(e) => (Err(e), st2),
                    Ok(n) => if 0 <= cur_m(text, st2) && cur_m(text, st2) < cur_m(text, st) {
                        let (rr, st3) = spec_params_list(text, st2);
                        match rr {
                            Err(e) => (Err(e), st3),
                            Ok(rest) => (Ok(seq![n] + rest), st3),
                        }
                    } else {
                        (Err(ParseErr { kind: ErrorKind::Syntax, msg: Seq::empty() }), st2)
                    },
                }
            } else {
                (Err(ParseErr { kind: ErrorKind::Syntax, msg: Seq::empty() }), st1)
            }
        },
        None => (
            Err(
                ParseErr {
                    kind: ErrorKind::Syntax,
                    msg: "Syntax error: expected a closing bracket, found end of input"@,
                },
            ),
            st1,
        ),
    }
}

/// What parsing statements until the cursor reaches the end of the text
/// yields: the statements in order, the first failure propagated.
pub open spec fn spec_stmt_seq(text: Seq<char>, st: Cursor) -> (
    Result<Seq<NodeV>, ParseErr>,
    Cursor,
)
    decreases cur_m(text, st), 6int,
{
    if st.pos >= text.len() {
        (Ok(Seq::<NodeV>::empty()), st)
    } else if 0 <= cur_m(text, st) {
        let (rs, st2) = spec_statement(text, st);
        match rs {
            Err(e) => (Err(e), st2),
            Ok(n) => if 0 <= cur_m(text, st2) && cur_m(text, st2) < cur_m(text, st) {
                let (rr, st3) = spec_stmt_seq(text, st2);
                match rr {
                    Err(e) => (Err(e), st3),
                    Ok(rest) => (Ok(seq![n] + rest), st3),
                }
            } else {
                (Err(ParseErr { kind: ErrorKind::Syntax, msg: Seq::empty() }), st2)
            },
        }
    } else {
        (Err(ParseErr { kind: ErrorKind::Syntax, msg: Seq::empty() }), st)
    }
}

/// What parsing a function definition yields, entered with the defining
/// keyword buffered: the name, the bracketed parameter list, then body
/// statements until the input is exhausted at this nesting.
pub open spec fn spec_define_function(text: Seq<char>, st: Cursor) -> (
    Result<NodeV, ParseErr>,
    Cursor,
)
    decreases cur_m(text, st), 3int,
{
    let st1 = cur_take(st);
    let (rn, st2) = spec_identifier(text, st1);
    match rn {
        Err(e) => (Err(e), st2),
        Ok(name) => {
            let st3 = cur_advance(text, st2);
            match st3.buf {
                Some(t) => {
                    if t.kind == Kind::EOF {
                        (
                            Err(
                                ParseErr {
                                    kind: ErrorKind::Syntax,
                                    msg: "Syntax error: expected a parameter list, found end of input"@,
                                },
                            ),
                            st3,
                        )
                    } else if t.kind != Kind::ArgsBegin {
                        (
                            Err(
                                ParseErr {
                                    kind: ErrorKind::Syntax,
                                    msg: "Syntax error: expected a parameter list"@,
                                },
                            ),
                            st3,
                        )
                    } else {
                        let st4 = cur_take(st3);
                        if 0 <= cur_m(text, st4) && cur_m(text, st4) < cur_m(text, st) {
                            let (rp, st5) = spec_params_list(text, st4);
                            match rp {
                                Err(e) => (Err(e), st5),
                                Ok(params) => {
                                    let st6 = cur_advance(text, st5);
                                    match st6.buf {
                                        Some(t2) => {
                                            if t2.kind != Kind::ArgsEnd {
                                                (
                                                    Err(
                                                        ParseErr {
                                                            kind: ErrorKind::Syntax,
                                                            msg: "Syntax error: expected a closing bracket"@,
                                                        },
                                                    ),
                                                    st6,
                                                )
                                            } else {
                                                let st7 = cur_advance(text, cur_take(st6));
                                                if 0 <= cur_m(text, st7) && cur_m(text, st7)
                                                    < cur_m(text, st) {
                                                    let (rb, st8) = spec_stmt_seq(text, st7);
                                                    match rb {
                                                        Err(e) => (Err(e), st8),
                                                        Ok(body) => (
                                                            Ok(
                                                                NodeV {
                                                                    op: OpV::DefineFunction(
                                                                        Box::new(name),
                                                                        crate::primitive::ValV::Func(
                                                                            params,
                                                                            body,
                                                                        ),
                                                                    ),
                                                                    value: "defn"@,
                                                                },
                                                            ),
                                                            st8,
                                                        ),
                                                    }
                                                } else {
                                                    stuck(st7)
                                                }
                                            }
                                        },
                                        None => (
                                            Err(
                                                ParseErr {
                                                    kind: ErrorKind::Syntax,
                                                    msg: "Syntax error: expected a closing bracket, found end of input"@,
                                                },
                                            ),
                                            st6,
                                        ),
                                    }
                                },
                            }
                        } else {
                            stuck(st4)
                        }
                    }
                },
                None => (
                    Err(
                        ParseErr {
                            kind: ErrorKind::Syntax,
                            msg: "Syntax error: expected a parameter list, found end of input"@,
                        },
                    ),
                    st3,
                ),
            }
        },
    }
}

/// What parsing a function call yields: the callee name, then its argument
/// list up to the closing parenthesis.
pub open spec fn spec_function_call(text: Seq<char>, st: Cursor) -> (Result<NodeV, ParseErr>, Cursor)
    decreases cur_m(text, st), 3int,
{
    let (rn, st2) = spec_identifier(text, st);
    match rn {
        Err(e) => (Err(e), st2),
        Ok(name) => if 0 <= cur_m(text, st2) && cur_m(text, st2) < cur_m(text, st) {
            let (ra, st3) = spec_args_list(text, st2);
            match ra {
                Err(e) => (Err(e), st3),
                Ok(args) => (
                    Ok(
                        NodeV {
                            op: OpV::CallFunction(Box::new(name), args),
                            value: "calling function"@,
                        },
                    ),
                    st3,
                ),
            }
        } else {
            stuck(st2)
        },
    }
}

/// What parsing one whole program yields: the top-level statement, wrapped
/// in a program node.
pub open spec fn spec_parse(text: Seq<char>, st: Cursor) -> (Result<NodeV, ParseErr>, Cursor)
    decreases cur_m(text, st), 7int,
{
    if 0 <= cur_m(text, st) {
        let (rs, st2) = spec_statement(text, st);
        match rs {
            Err(e) => (Err(e), st2),
            Ok(n) => (
                Ok(
                    NodeV {
                        op: OpV::Main(Box::new(n)),
                        value: Seq::<char>::empty(),
                    },
                ),
                st2,
            ),
        }
    } else {
        (Err(ParseErr { kind: ErrorKind::Syntax, msg: Seq::empty() }), st)
    }
}

/// The parser: owns the scanner it pulls tokens from.
pub struct Parser {
    tokenizer: Tokenizer,
}

impl Parser {
    /// The scanner's cursor never leaves its text.
    pub closed spec fn wf(&self) -> bool {
        self.tokenizer.wf()
    }

    /// How much scanning work remains.
    pub closed spec fn m(&self) -> int {
        self.tokenizer.m()
    }

    /// The text being parsed.
    pub closed spec fn text(&self) -> Seq<char> {
        self.tokenizer.spec_text()
    }

    /// The scanner state the parser works on next.
    pub closed spec fn st(&self) -> Cursor {
        Cursor { pos: self.tokenizer.spec_pos(), buf: self.tokenizer.spec_buf() }
    }

    /// True while any token may still come: one other than the end-of-input
    /// token is buffered, or unscanned text remains.
    pub closed spec fn pending(&self) -> bool {
        match self.tokenizer.spec_buf() {
            Some(t) => t.kind != Kind::EOF,
            None => self.tokenizer.spec_pos() < self.tokenizer.spec_text().len(),
        }
    }

    /// The token the parser dispatches on next: the buffered one, or the
    /// one a scan would produce; `None` at the end of the input.
    pub closed spec fn next_tok(&self) -> Option<crate::token::TokenV> {
        match self.tokenizer.spec_buf() {
            Some(t) => if t.kind == Kind::EOF {
                None
            } else {
                Some(t)
            },
            None => {
                let sc = spec_scan(self.tokenizer.spec_text(), self.tokenizer.spec_pos());
                if sc.token.kind == Kind::EOF {
                    None
                } else {
                    Some(sc.token)
                }
            },
        }
    }

    pub fn new(lexer: Tokenizer) -> (p: Parser)
        ensures
            p.wf() == lexer.wf(),
            p.m() == lexer.m(),
            p.text() == lexer.spec_text(),
            p.st() == (Cursor { pos: lexer.spec_pos(), buf: lexer.spec_buf() }),
            lexer.spec_buf() is None ==> p.next_tok() == ({
                let sc = spec_scan(lexer.spec_text(), lexer.spec_pos());
                if sc.token.kind == Kind::EOF {
                    None
                } else {
                    Some(sc.token)
                }
            }),
    {
        Parser { tokenizer: lexer }
    }

    /// Parses one whole program: the top-level statement, wrapped.
    pub fn parse(&mut self) -> (r: Result<Node, EvalError>)
        requires
            old(self).wf(),
        ensures
            final(self).wf(),
            final(self).text() == old(self).text(),
            final(self).m() <= old(self).m(),
            r matches Ok(n) ==> n@.op is Main,
            ({
                let sp = spec_parse(old(self).text(), old(self).st());
                &&& (r matches Ok(n) ==> (sp.0 matches Ok(nv) && n@ == nv && final(self).st()
                    == sp.1))
                &&& (r matches Err(e) ==> (sp.0 matches Err(pe) && e.kind == pe.kind && e.message@
                    == pe.msg))
            }),
        decreases self.m(), 7int,
    {
        proof {
            self.tokenizer.lemma_m_nonneg();
            self.tokenizer.lemma_m_formula();
        }
        match self.statements() {
            Ok(node) => Ok(Node::main(node)),
            Err(e) => Err(e),
        }
    }

    /// Consumes one buffered literal token into a constant node; an integer
    /// literal that does not fit a 64-bit signed integer is a recoverable
    /// error, not a value.
    fn literal(&mut self) -> (r: Result<Node, EvalError>)
        requires
            old(self).wf(),
            old(self).tokenizer.spec_buf() matches Some(t) && (t.kind == Kind::Str || t.kind
                == Kind::Integer || t.kind == Kind::List || t.kind == Kind::Bolean),
        ensures
            final(self).wf(),
            final(self).text() == old(self).text(),
            final(self).m() == old(self).m() - 1,
            old(self).tokenizer.spec_buf() matches Some(t) ==> (if literal_ok(t) {
                r matches Ok(n) && n@ == (NodeV { op: OpV::Constant(spec_from_token(t)), value: t.text })
            } else {
                r matches Err(e) && e.kind == crate::primitive::ErrorKind::Value
            }),
            ({
                let sp = spec_literal(old(self).text(), old(self).st());
                &&& (r matches Ok(n) ==> (sp.0 matches Ok(nv) && n@ == nv && final(self).st()
                    == sp.1))
                &&& (r matches Err(e) ==> (sp.0 matches Err(pe) && e.kind == pe.kind && e.message@
                    == pe.msg))
            }),
    {
        let ghost st0 = self.st();
        let tok = match self.tokenizer.get() {
            Some(t) => t,
            None => vstd::pervasive::unreached(),
        };
        let t = self.tokenizer.consume(tok.kind);
        proof {
            assert(self.st() =~= cur_take(st0));
        }
        if t.kind == Kind::Integer {
            match crate::primitive::parse_i64(&t.value) {
                Some(_) => {},
                None => {
                    return Err(
                        EvalError::value_error(
                            String::from_str(
                                "Value error: integer literal does not fit a 64-bit integer",
                            ),
                        ),
                    );
                },
            }
        }
        Ok(Node::constant(t))
    }

    /// Consumes one buffered identifier token into an identifier node.
    fn def(&mut self) -> (r: Result<Node, EvalError>)
        requires
            old(self).wf(),
        ensures
            final(self).wf(),
            final(self).text() == old(self).text(),
            final(self).m() <= old(self).m(),
            r is Ok ==> final(self).m() < old(self).m(),
            r matches Ok(n) ==> (old(self).next_tok() matches Some(t) && t.kind == Kind::ID && n@
                == (NodeV { op: OpV::Identifier(t.text), value: t.text })),
            (old(self).next_tok() matches Some(t) && t.kind == Kind::ID) ==> r is Ok,
            ({
                let sp = spec_identifier(old(self).text(), old(self).st());
                &&& (r matches Ok(n) ==> (sp.0 matches Ok(nv) && n@ == nv && final(self).st()
                    == sp.1))
                &&& (r matches Err(e) ==> (sp.0 matches Err(pe) && e.kind == pe.kind && e.message@
                    == pe.msg))
            }),
    {
        proof {
            self.tokenizer.lemma_m_nonneg();
        }
        let ghost text = self.text();
        let ghost st0 = self.st();
        let _ = self.tokenizer.advance();
        proof {
            assert(self.st() =~= cur_advance(text, st0));
        }
        let ghost st1 = self.st();
        let tok = self.tokenizer.get();
        match tok {
            Some(t) => {
                if t.kind == Kind::ID {
                    let t = self.tokenizer.consume(Kind::ID);
                    proof {
                        assert(self.st() =~= cur_take(st1));
                    }
                    Ok(Node::indentifier(t))
                } else if t.kind == Kind::EOF {
                    Err(
                        EvalError::syntax(
                            String::from_str(
                                "Syntax error: expected an identifier, found end of input",
                            ),
                        ),
                    )
                } else {
                    Err(
                        EvalError::syntax(
                            String::from_str("Syntax error: expected an identifier"),
                        ),
                    )
                }
            },
            None => Err(
                EvalError::syntax(
                    String::from_str("Syntax error: expected an identifier, found end of input"),
                ),
            ),
        }
    }

    /// Parses one statement: a parenthesized form, a bare literal, a bare
    /// identifier (closing its group), or nothing at the end of the input.
    pub fn statements(&mut self) -> (r: Result<Node, EvalError>)
        requires
            old(self).wf(),
        ensures
            final(self).wf(),
            final(self).text() == old(self).text(),
            final(self).m() <= old(self).m(),
            (r is Ok && old(self).pending()) ==> final(self).m() < old(self).m(),
            ({
                let sp = spec_statement(old(self).text(), old(self).st());
                &&& (r matches Ok(n) ==> (sp.0 matches Ok(nv) && n@ == nv && final(self).st()
                    == sp.1))
                &&& (r matches Err(e) ==> (sp.0 matches Err(pe) && e.kind == pe.kind && e.message@
                    == pe.msg))
            }),
        decreases self.m(), 1int,
    {
        proof {
            self.tokenizer.lemma_m_nonneg();
            self.tokenizer.lemma_m_formula();
        }
        let ghost text = self.text();
        let ghost st0 = self.st();
        let _ = self.tokenizer.advance();
        proof {
            assert(self.st() =~= cur_advance(text, st0));
            self.tokenizer.lemma_m_nonneg();
            self.tokenizer.lemma_m_formula();
        }
        let ghost st1 = self.st();
        let tok = self.tokenizer.get();
        match tok {
            Some(t) => match t.kind {
                Kind::GroupBegin => {
                    let _ = self.tokenizer.consume(Kind::GroupBegin);
                    proof {
                        assert(self.st() =~= cur_take(st1));
                        self.tokenizer.lemma_m_nonneg();
                        self.tokenizer.lemma_m_formula();
                    }
                    self.group_body()
                },
                Kind::Str | Kind::Integer | Kind::List | Kind::Bolean => self.literal(),
                Kind::ID => {
                    let id = match self.def() {
                        Ok(n) => n,
                        Err(e) => {
                            return Err(e);
                        },
                    };
                    let ghost st2 = self.st();
                    let _ = self.tokenizer.advance();
                    proof {
                        assert(self.st() =~= cur_advance(text, st2));
                    }
                    let ghost st3 = self.st();
                    match self.tokenizer.get() {
                        Some(t2) => {
                            if t2.kind == Kind::GroupEnd {
                                let _ = self.tokenizer.consume(Kind::GroupEnd);
                                proof {
                                    assert(self.st() =~= cur_take(st3));
                                }
                                Ok(id)
                            } else if t2.kind == Kind::EOF {
                                Err(
                                    EvalError::syntax(
                                        String::from_str(
                                            "Syntax error: expected a closing parenthesis, found end of input",
                                        ),
                                    ),
                                )
                            } else {
                                Err(
                                    EvalError::syntax(
                                        String::from_str("Syntax error: expected a closing parenthesis"),
                                    ),
                                )
                            }
                        },
                        None => Err(
                            EvalError::syntax(
                                String::from_str(
                                    "Syntax error: expected a closing parenthesis, found end of input",
                                ),
                            ),
                        ),
                    }
                },
                Kind::GroupEnd => {
                    let _ = self.tokenizer.consume(Kind::GroupEnd);
                    proof {
                        assert(self.st() =~= cur_take(st1));
                    }
                    Ok(Node::empty())
                },
                Kind::EOF => Ok(Node::empty()),
                _ => Err(EvalError::syntax(String::from_str("Syntax error: unexpected token"))),
            },
            None => Ok(Node::empty()),
        }
    }

    /// Parses the body of a parenthesized form, after its opening
    /// parenthesis was consumed: the head token selects the node kind.
    #[verifier::rlimit(100)]
    fn group_body(&mut self) -> (r: Result<Node, EvalError>)
        requires
            old(self).wf(),
        ensures
            final(self).wf(),
            final(self).text() == old(self).text(),
            final(self).m() <= old(self).m(),
            ({
                let sp = spec_group_body(old(self).text(), old(self).st());
                &&& (r matches Ok(n) ==> (sp.0 matches Ok(nv) && n@ == nv && final(self).st()
                    == sp.1))
                &&& (r matches Err(e) ==> (sp.0 matches Err(pe) && e.kind == pe.kind && e.message@
                    == pe.msg))
            }),
        decreases self.m(), 4int,
    {
        proof {
            self.tokenizer.lemma_m_nonneg();
            self.tokenizer.lemma_m_formula();
        }
        let ghost text = self.text();
        let ghost st0 = self.st();
        let _ = self.tokenizer.advance();
        proof {
            assert(self.st() =~= cur_advance(text, st0));
            self.tokenizer.lemma_m_nonneg();
            self.tokenizer.lemma_m_formula();
        }
        let ghost st1 = self.st();
        let tok = self.tokenizer.get();
        match tok {
            Some(t) => match t.kind {
                Kind::GroupBegin => {
                    let _ = self.tokenizer.consume(Kind::GroupBegin);
                    proof {
                        assert(self.st() =~= cur_take(st1));
                        self.tokenizer.lemma_m_nonneg();
                        self.tokenizer.lemma_m_formula();
                    }
                    self.group_body()
                },
                Kind::Operator | Kind::Logical | Kind::Comparison => {
                    let head = self.tokenizer.consume(t.kind);
                    proof {
                        assert(self.st() =~= cur_take(st1));
                        self.tokenizer.lemma_m_nonneg();
                        self.tokenizer.lemma_m_formula();
                    }
                    let nodes = match self.args_list() {
                        Ok(ns) => ns,
                        Err(e) => {
                            return Err(e);
                        },
                    };
                    match self.close_group() {
                        Ok(()) => {
                            if head.kind == Kind::Operator {
                                Ok(Node::operator(head.value, nodes))
                            } else if head.kind == Kind::Logical {
                                Ok(Node::logical(head.value, nodes))
                            } else {
                                Ok(Node::comparison(head.value, nodes))
                            }
                        },
                        Err(e) => Err(e),
                    }
                },
                Kind::StdOut => {
                    let _ = self.tokenizer.consume(Kind::StdOut);
                    proof {
                        assert(self.st() =~= cur_take(st1));
                        self.tokenizer.lemma_m_nonneg();
                        self.tokenizer.lemma_m_formula();
                    }
                    match self.statements() {
                        Ok(n) => Ok(Node::stdout(n)),
                        Err(e) => Err(e),
                    }
                },
                Kind::If => {
                    let _ = self.tokenizer.consume(Kind::If);
                    proof {
                        assert(self.st() =~= cur_take(st1));
                        self.tokenizer.lemma_m_nonneg();
                        self.tokenizer.lemma_m_formula();
                    }
                    let condition = match self.factor() {
                        Ok(n) => n,
                        Err(e) => {
                            return Err(e);
                        },
                    };
                    proof {
                        self.tokenizer.lemma_m_nonneg();
                        self.tokenizer.lemma_m_formula();
                    }
                    let lnode = match self.factor() {
                        Ok(n) => n,
                        Err(e) => {
                            return Err(e);
                        },
                    };
                    proof {
                        self.tokenizer.lemma_m_nonneg();
                        self.tokenizer.lemma_m_formula();
                    }
                    let rnode = match self.factor() {
                        Ok(n) => n,
                        Err(e) => {
                            return Err(e);
                        },
                    };
                    let ghost glnode = lnode;
                    let ghost grnode = rnode;
                    let mut branches: Vec<Node> = Vec::new();
                    branches.push(lnode);
                    branches.push(rnode);
                    proof {
                        crate::ast::lemma_nodes_view(branches@);
                        assert(nodes_view(branches@) =~= seq![glnode@, grnode@]);
                    }
                    Ok(Node::ifelse(condition, branches))
                },
                Kind::When => {
                    let _ = self.tokenizer.consume(Kind::When);
                    proof {
                        assert(self.st() =~= cur_take(st1));
                        self.tokenizer.lemma_m_nonneg();
                        self.tokenizer.lemma_m_formula();
                    }
                    let condition = match self.factor() {
                        Ok(n) => n,
                        Err(e) => {
                            return Err(e);
                        },
                    };
                    proof {
                        self.tokenizer.lemma_m_nonneg();
                        self.tokenizer.lemma_m_formula();
                    }
                    let first = match self.statements() {
                        Ok(n) => n,
                        Err(e) => {
                            return Err(e);
                        },
                    };
                    proof {
                        self.tokenizer.lemma_m_nonneg();
                        self.tokenizer.lemma_m_formula();
                    }
                    let rest = match self.stmt_seq() {
                        Ok(ns) => ns,
                        Err(e) => {
                            return Err(e);
                        },
                    };
                    let ghost gfirst = first;
                    let ghost grest = rest@;
                    let mut body: Vec<Node> = Vec::new();
                    body.push(first);
                    let mut tail = rest;
                    body.append(&mut tail);
                    proof {
                        crate::ast::lemma_nodes_view(body@);
                        crate::ast::lemma_nodes_view(grest);
                        assert(body@ =~= seq![gfirst] + grest);
                        assert(nodes_view(body@) =~= seq![gfirst@] + nodes_view(grest));
                    }
                    Ok(Node::when(condition, body))
                },
                Kind::VarDefine => {
                    let _ = self.tokenizer.consume(Kind::VarDefine);
                    proof {
                        assert(self.st() =~= cur_take(st1));
                        self.tokenizer.lemma_m_nonneg();
                        self.tokenizer.lemma_m_formula();
                    }
                    let var = match self.def() {
                        Ok(n) => n,
                        Err(e) => {
                            return Err(e);
                        },
                    };
                    proof {
                        self.tokenizer.lemma_m_nonneg();
                        self.tokenizer.lemma_m_formula();
                    }
                    match self.statements() {
                        Ok(node) => Ok(Node::assign(var, node)),
                        Err(e) => Err(e),
                    }
                },
                Kind::FnDefine => {
                    proof {
                        self.tokenizer.lemma_m_nonneg();
                        self.tokenizer.lemma_m_formula();
                    }
                    self.define_function()
                },
                Kind::ID => {
                    proof {
                        self.tokenizer.lemma_m_nonneg();
                        self.tokenizer.lemma_m_formula();
                    }
                    self.function_call()
                },
                Kind::Str | Kind::Integer | Kind::List | Kind::Bolean => self.literal(),
                Kind::GroupEnd => {
                    let _ = self.tokenizer.consume(Kind::GroupEnd);
                    proof {
                        assert(self.st() =~= cur_take(st1));
                    }
                    Ok(Node::empty())
                },
                Kind::EOF => Ok(Node::empty()),
                _ => Err(EvalError::syntax(String::from_str("Syntax error: unexpected token"))),
            },
            None => Ok(Node::empty()),
        }
    }

    /// Consumes the closing parenthesis of a form.
    fn close_group(&mut self) -> (r: Result<(), EvalError>)
        requires
            old(self).wf(),
        ensures
            final(self).wf(),
            final(self).text() == old(self).text(),
            final(self).m() <= old(self).m(),
            ({
                let sp = spec_close_group(old(self).text(), old(self).st());
                &&& (r is Ok ==> (sp.0 is Ok && final(self).st() == sp.1))
                &&& (r matches Err(e) ==> (sp.0 matches Err(pe) && e.kind == pe.kind && e.message@
                    == pe.msg))
            }),
    {
        proof {
            self.tokenizer.lemma_m_nonneg();
        }
        let ghost text = self.text();
        let ghost st0 = self.st();
        let _ = self.tokenizer.advance();
        proof {
            assert(self.st() =~= cur_advance(text, st0));
        }
        let ghost st1 = self.st();
        match self.tokenizer.get() {
            Some(t) => {
                if t.kind == Kind::GroupEnd {
                    let _ = self.tokenizer.consume(Kind::GroupEnd);
                    proof {
                        assert(self.st() =~= cur_take(st1));
                    }
                    Ok(())
                } else if t.kind == Kind::EOF {
                    Err(
                        EvalError::syntax(
                            String::from_str(
                                "Syntax error: expected a closing parenthesis, found end of input",
                            ),
                        ),
                    )
                } else {
                    Err(
                        EvalError::syntax(
                            String::from_str("Syntax error: expected a closing parenthesis"),
                        ),
                    )
                }
            },
            None => Err(
                EvalError::syntax(
                    String::from_str(
                        "Syntax error: expected a closing parenthesis, found end of input",
                    ),
                ),
            ),
        }
    }

    /// Parses one operand: a literal, an identifier, or a nested
    /// parenthesized statement.
    fn factor(&mut self) -> (r: Result<Node, EvalError>)
        requires
            old(self).wf(),
        ensures
            final(self).wf(),
            final(self).text() == old(self).text(),
            final(self).m() <= old(self).m(),
            (r is Ok && old(self).pending()) ==> final(self).m() < old(self).m(),
            ({
                let sp = spec_factor(old(self).text(), old(self).st());
                &&& (r matches Ok(n) ==> (sp.0 matches Ok(nv) && n@ == nv && final(self).st()
                    == sp.1))
                &&& (r matches Err(e) ==> (sp.0 matches Err(pe) && e.kind == pe.kind && e.message@
                    == pe.msg))
            }),
        decreases self.m(), 2int,
    {
        proof {
            self.tokenizer.lemma_m_nonneg();
            self.tokenizer.lemma_m_formula();
        }
        let ghost text = self.text();
        let ghost st0 = self.st();
        let _ = self.tokenizer.advance();
        proof {
            assert(self.st() =~= cur_advance(text, st0));
            self.tokenizer.lemma_m_nonneg();
            self.tokenizer.lemma_m_formula();
        }
        let ghost st1 = self.st();
        let tok = self.tokenizer.get();
        match tok {
            Some(t) => match t.kind {
                Kind::GroupBegin | Kind::ArgsBegin => {
                    proof {
                        self.tokenizer.lemma_m_nonneg();
                        self.tokenizer.lemma_m_formula();
                    }
                    self.statements()
                },
                Kind::Bolean | Kind::Integer | Kind::Str | Kind::List => self.literal(),
                Kind::ID => self.def(),
                Kind::GroupEnd => {
                    let _ = self.tokenizer.consume(Kind::GroupEnd);
                    proof {
                        assert(self.st() =~= cur_take(st1));
                        self.tokenizer.lemma_m_nonneg();
                        self.tokenizer.lemma_m_formula();
                    }
                    match self.statements() {
                        Ok(n) => Ok(n),
                        Err(e) => Err(e),
                    }
                },
                Kind::EOF => Err(
                    EvalError::syntax(
                        String::from_str("Syntax error: expected an operand, found end of input"),
                    ),
                ),
                _ => Err(
                    EvalError::syntax(String::from_str("Syntax error: expected an operand")),
                ),
            },
            None => Err(
                EvalError::syntax(
                    String::from_str("Syntax error: expected an operand, found end of input"),
                ),
            ),
        }
    }

    /// Parses a variadic operand list, up to the closing parenthesis (which
    /// is left for the caller).
    fn args_list(&mut self) -> (r: Result<Vec<Node>, EvalError>)
        requires
            old(self).wf(),
        ensures
            final(self).wf(),
            final(self).text() == old(self).text(),
            final(self).m() <= old(self).m(),
            r is Ok ==> (final(self).next_tok() matches Some(t) && t.kind == Kind::GroupEnd),
            ({
                let sp = spec_args_list(old(self).text(), old(self).st());
                &&& (r matches Ok(ns) ==> (sp.0 matches Ok(nvs) && nodes_view(ns@) == nvs
                    && final(self).st() == sp.1))
                &&& (r matches Err(e) ==> (sp.0 matches Err(pe) && e.kind == pe.kind && e.message@
                    == pe.msg))
            }),
        decreases self.m(), 5int,
    {
        proof {
            self.tokenizer.lemma_m_nonneg();
            self.tokenizer.lemma_m_formula();
        }
        let ghost text = self.text();
        let ghost st0 = self.st();
        let _ = self.tokenizer.advance();
        proof {
            assert(self.st() =~= cur_advance(text, st0));
            self.tokenizer.lemma_m_nonneg();
            self.tokenizer.lemma_m_formula();
            self.tokenizer.lemma_eof_buffered_at_end();
        }
        let ghost st1 = self.st();
        match self.tokenizer.get() {
            Some(t) => {
                if t.kind == Kind::GroupEnd {
                    let empty: Vec<Node> = Vec::new();
                    proof {
                        crate::ast::lemma_nodes_view(empty@);
                        assert(nodes_view(empty@) =~= Seq::<NodeV>::empty());
                    }
                    return Ok(empty);
                }
                if t.kind == Kind::EOF {
                    return Err(
                        EvalError::syntax(
                            String::from_str(
                                "Syntax error: expected a closing parenthesis, found end of input",
                            ),
                        ),
                    );
                }
                let first = match self.factor() {
                    Ok(n) => n,
                    Err(e) => {
                        return Err(e);
                    },
                };
                proof {
                    self.tokenizer.lemma_m_nonneg();
                    self.tokenizer.lemma_m_formula();
                }
                let ghost st2 = self.st();
                let rest = match self.args_list() {
                    Ok(ns) => ns,
                    Err(e) => {
                        return Err(e);
                    },
                };
                let ghost gfirst = first;
                let ghost grest = rest@;
                let mut out: Vec<Node> = Vec::new();
                out.push(first);
                let mut tail = rest;
                out.append(&mut tail);
                proof {
                    crate::ast::lemma_nodes_view(out@);
                    crate::ast::lemma_nodes_view(grest);
                    assert(out@ =~= seq![gfirst] + grest);
                    assert(nodes_view(out@) =~= seq![gfirst@] + nodes_view(grest));
                }
                Ok(out)
            },
            None => Err(
                EvalError::syntax(
                    String::from_str(
                        "Syntax error: expected a closing parenthesis, found end of input",
                    ),
                ),
            ),
        }
    }

    /// Parses a bracketed parameter-identifier list, up to the closing
    /// bracket (which is left for the caller).
    fn params_list(&mut self) -> (r: Result<Vec<Node>, EvalError>)
        requires
            old(self).wf(),
        ensures
            final(self).wf(),
            final(self).text() == old(self).text(),
            final(self).m() <= old(self).m(),
            r is Ok ==> (final(self).next_tok() matches Some(t) && t.kind == Kind::ArgsEnd),
            ({
                let sp = spec_params_list(old(self).text(), old(self).st());
                &&& (r matches Ok(ns) ==> (sp.0 matches Ok(nvs) && nodes_view(ns@) == nvs
                    && final(self).st() == sp.1))
                &&& (r matches Err(e) ==> (sp.0 matches Err(pe) && e.kind == pe.kind && e.message@
                    == pe.msg))
            }),
        decreases self.m(), 5int,
    {
        proof {
            self.tokenizer.lemma_m_nonneg();
            self.tokenizer.lemma_m_formula();
        }
        let ghost text = self.text();
        let ghost st0 = self.st();
        let _ = self.tokenizer.advance();
        proof {
            assert(self.st() =~= cur_advance(text, st0));
            self.tokenizer.lemma_m_nonneg();
            self.tokenizer.lemma_m_formula();
            self.tokenizer.lemma_eof_buffered_at_end();
        }
        let ghost st1 = self.st();
        match self.tokenizer.get() {
            Some(t) => {
                if t.kind == Kind::ArgsEnd {
                    let empty: Vec<Node> = Vec::new();
                    proof {
                        crate::ast::lemma_nodes_view(empty@);
                        assert(nodes_view(empty@) =~= Seq::<NodeV>::empty());
                    }
                    return Ok(empty);
                }
                if t.kind == Kind::EOF {
                    return Err(
                        EvalError::syntax(
                            String::from_str(
                                "Syntax error: expected a closing bracket, found end of input",
                            ),
                        ),
                    );
                }
                let first = match self.factor() {
                    Ok(n) => n,
                    Err(e) => {
                        return Err(e);
                    },
                };
                proof {
                    self.tokenizer.lemma_m_nonneg();
                    self.tokenizer.lemma_m_formula();
                }
                let ghost st2 = self.st();
                let rest = match self.params_list() {
                    Ok(ns) => ns,
                    Err(e) => {
                        return Err(e);
                    },
                };
                let ghost gfirst = first;
                let ghost grest = rest@;
                let mut out: Vec<Node> = Vec::new();
                out.push(first);
                let mut tail = rest;
                out.append(&mut tail);
                proof {
                    crate::ast::lemma_nodes_view(out@);
                    crate::ast::lemma_nodes_view(grest);
                    assert(out@ =~= seq![gfirst] + grest);
                    assert(nodes_view(out@) =~= seq![gfirst@] + nodes_view(grest));
                }
                Ok(out)
            },
            None => Err(
                EvalError::syntax(
                    String::from_str(
                        "Syntax error: expected a closing bracket, found end of input",
                    ),
                ),
            ),
        }
    }

    /// Parses a function definition: the name, the bracketed parameter
    /// list, then body statements until the input is exhausted at this
    /// nesting.
    fn define_function(&mut self) -> (r: Result<Node, EvalError>)
        requires
            old(self).wf(),
            old(self).tokenizer.spec_buf() matches Some(t) && t.kind == Kind::FnDefine,
        ensures
            final(self).wf(),
            final(self).text() == old(self).text(),
            final(self).m() <= old(self).m(),
            r matches Ok(n) ==> (n@.op matches OpV::DefineFunction(_, f) && f is Func),
            ({
                let sp = spec_define_function(old(self).text(), old(self).st());
                &&& (r matches Ok(n) ==> (sp.0 matches Ok(nv) && n@ == nv && final(self).st()
                    == sp.1))
                &&& (r matches Err(e) ==> (sp.0 matches Err(pe) && e.kind == pe.kind && e.message@
                    == pe.msg))
            }),
        decreases self.m(), 3int,
    {
        proof {
            self.tokenizer.lemma_m_nonneg();
            self.tokenizer.lemma_m_formula();
        }
        let ghost text = self.text();
        let ghost st0 = self.st();
        let _ = self.tokenizer.consume(Kind::FnDefine);
        proof {
            assert(self.st() =~= cur_take(st0));
            self.tokenizer.lemma_m_nonneg();
            self.tokenizer.lemma_m_formula();
        }
        let name = match self.def() {
            Ok(n) => n,
            Err(e) => {
                return Err(e);
            },
        };
        proof {
            self.tokenizer.lemma_m_nonneg();
            self.tokenizer.lemma_m_formula();
        }
        let ghost st2 = self.st();
        let _ = self.tokenizer.advance();
        proof {
            assert(self.st() =~= cur_advance(text, st2));
            self.tokenizer.lemma_m_nonneg();
            self.tokenizer.lemma_m_formula();
        }
        let ghost st3 = self.st();
        match self.tokenizer.get() {
            Some(t) => {
                if t.kind == Kind::EOF {
                    return Err(
                        EvalError::syntax(
                            String::from_str(
                                "Syntax error: expected a parameter list, found end of input",
                            ),
                        ),
                    );
                }
                if t.kind != Kind::ArgsBegin {
                    return Err(
                        EvalError::syntax(
                            String::from_str("Syntax error: expected a parameter list"),
                        ),
                    );
                }
                let _ = self.tokenizer.consume(Kind::ArgsBegin);
                proof {
                    assert(self.st() =~= cur_take(st3));
                    self.tokenizer.lemma_m_nonneg();
                    self.tokenizer.lemma_m_formula();
                }
            },
            None => {
                return Err(
                    EvalError::syntax(
                        String::from_str(
                            "Syntax error: expected a parameter list, found end of input",
                        ),
                    ),
                );
            },
        }
        let params = match self.params_list() {
            Ok(ps) => ps,
            Err(e) => {
                return Err(e);
            },
        };
        proof {
            self.tokenizer.lemma_m_nonneg();
            self.tokenizer.lemma_m_formula();
        }
        let ghost st5 = self.st();
        let _ = self.tokenizer.advance();
        proof {
            assert(self.st() =~= cur_advance(text, st5));
            self.tokenizer.lemma_m_nonneg();
            self.tokenizer.lemma_m_formula();
        }
        let ghost st6 = self.st();
        match self.tokenizer.get() {
            Some(t) => {
                if t.kind != Kind::ArgsEnd {
                    return Err(
                        EvalError::syntax(
                            String::from_str("Syntax error: expected a closing bracket"),
                        ),
                    );
                }
                let _ = self.tokenizer.consume(Kind::ArgsEnd);
                proof {
                    assert(self.st() =~= cur_take(st6));
                    self.tokenizer.lemma_m_nonneg();
                    self.tokenizer.lemma_m_formula();
                }
            },
            None => {
                return Err(
                    EvalError::syntax(
                        String::from_str(
                            "Syntax error: expected a closing bracket, found end of input",
                        ),
                    ),
                );
            },
        }
        let _ = self.tokenizer.advance();
        proof {
            assert(self.st() =~= cur_advance(text, cur_take(st6)));
            self.tokenizer.lemma_m_nonneg();
            self.tokenizer.lemma_m_formula();
        }
        let body = match self.stmt_seq() {
            Ok(ns) => ns,
            Err(e) => {
                return Err(e);
            },
        };
        proof {
            crate::ast::lemma_nodes_view(params@);
            crate::ast::lemma_nodes_view(body@);
        }
        Ok(Node::function_define(name, params, body))
    }

    /// Parses a function call: the callee name, then its argument list.
    fn function_call(&mut self) -> (r: Result<Node, EvalError>)
        requires
            old(self).wf(),
        ensures
            final(self).wf(),
            final(self).text() == old(self).text(),
            final(self).m() <= old(self).m(),
            r matches Ok(n) ==> n@.op is CallFunction,
            ({
                let sp = spec_function_call(old(self).text(), old(self).st());
                &&& (r matches Ok(n) ==> (sp.0 matches Ok(nv) && n@ == nv && final(self).st()
                    == sp.1))
                &&& (r matches Err(e) ==> (sp.0 matches Err(pe) && e.kind == pe.kind && e.message@
                    == pe.msg))
            }),
        decreases self.m(), 3int,
    {
        proof {
            self.tokenizer.lemma_m_nonneg();
            self.tokenizer.lemma_m_formula();
        }
        let ghost text = self.text();
        let ghost st0 = self.st();
        let name = match self.def() {
            Ok(n) => n,
            Err(e) => {
                return Err(e);
            },
        };
        proof {
            self.tokenizer.lemma_m_nonneg();
            self.tokenizer.lemma_m_formula();
        }
        let ghost st2 = self.st();
        let args = match self.args_list() {
            Ok(ns) => ns,
            Err(e) => {
                return Err(e);
            },
        };
        Ok(Node::function_call(name, args))
    }

    /// Parses statements until the scanner's cursor reaches the end of the
    /// text, collecting them in order; the first failure is the result.
    fn stmt_seq(&mut self) -> (r: Result<Vec<Node>, EvalError>)
        requires
            old(self).wf(),
        ensures
            final(self).wf(),
            final(self).text() == old(self).text(),
            final(self).m() <= old(self).m(),
            ({
                let sp = spec_stmt_seq(old(self).text(), old(self).st());
                &&& (r matches Ok(ns) ==> (sp.0 matches Ok(nvs) && nodes_view(ns@) == nvs
                    && final(self).st() == sp.1))
                &&& (r matches Err(e) ==> (sp.0 matches Err(pe) && e.kind == pe.kind && e.message@
                    == pe.msg))
            }),
        decreases self.m(), 6int,
    {
        proof {
            self.tokenizer.lemma_m_nonneg();
            self.tokenizer.lemma_m_formula();
        }
        let ghost text = self.text();
        let c = self.tokenizer.current();
        if c.is_none() {
            let empty: Vec<Node> = Vec::new();
            proof {
                crate::ast::lemma_nodes_view(empty@);
                assert(nodes_view(empty@) =~= Seq::<NodeV>::empty());
            }
            return Ok(empty);
        }
        proof {
            self.tokenizer.lemma_eof_buffered_at_end();
        }
        let first = match self.statements() {
            Ok(n) => n,
            Err(e) => {
                return Err(e);
            },
        };
        proof {
            self.tokenizer.lemma_m_nonneg();
            self.tokenizer.lemma_m_formula();
        }
        let rest = match self.stmt_seq() {
            Ok(ns) => ns,
            Err(e) => {
                return Err(e);
            },
        };
        let ghost gfirst = first;
        let ghost grest = rest@;
        let mut out: Vec<Node> = Vec::new();
        out.push(first);
        let mut tail = rest;
        out.append(&mut tail);
        proof {
            crate::ast::lemma_nodes_view(out@);
            crate::ast::lemma_nodes_view(grest);
            assert(out@ =~= seq![gfirst] + grest);
            assert(nodes_view(out@) =~= seq![gfirst@] + nodes_view(grest));
        }
        Ok(out)
    }
}

/// Builds an arithmetic node from an operator symbol and its operands.
pub fn build_node_operator(operator: String, nodes: Vec<Node>) -> (r: Node)
    ensures
        r@ == (NodeV { op: OpV::Operator(operator@, nodes_view(nodes@)), value: operator@ }),
{
    Node::operator(operator, nodes)
}

/// Builds a comparison node from an operator symbol and its operands.
pub fn build_node_comparision(tok_value: String, nodes: Vec<Node>) -> (r: Node)
    ensures
        r@ == (NodeV { op: OpV::Comparison(tok_value@, nodes_view(nodes@)), value: tok_value@ }),
{
    Node::comparison(tok_value, nodes)
}

/// Builds a logical node from an operator word and its operands.
pub fn build_node_logical(tok_value: String, nodes: Vec<Node>) -> (r: Node)
    ensures
        r@ == (NodeV { op: OpV::Logical(tok_value@, nodes_view(nodes@)), value: tok_value@ }),
{
    Node::logical(tok_value, nodes)
}

} // verus!
