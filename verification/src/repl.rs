//! One evaluation call per input line: scan, parse, evaluate, render. The
//! evaluator state is shared across calls within a session.

use vstd::prelude::*;

use crate::ast::Node;
use crate::interpreter::{eval_case, evolves, Interpreter, CALL_DEPTH_LIMIT};
use crate::parser::Parser;
use crate::primitive::{spec_render, EvalError, Type};
use crate::token::Tokenizer;

verus! {

/// What parsing one line of source text yields: exactly what the parse
/// function computes from the start of the text — the parsed program on
/// success, and the failure's tier and complete message otherwise.
pub open spec fn parse_outcome(text: Seq<char>, r: Result<Node, EvalError>) -> bool {
    let sp = crate::parser::spec_parse(text, crate::parser::Cursor { pos: 0, buf: None });
    &&& (r matches Ok(n) ==> (sp.0 matches Ok(nv) && n@ == nv))
    &&& (r matches Err(e) ==> (sp.0 matches Err(pe) && e.kind == pe.kind && e.message@ == pe.msg))
}

/// A session: a fresh scanner and parser per line, one long-lived evaluator.
pub struct Repl {
    pub interpreter: Interpreter,
}

impl Repl {
    /// The evaluator's frame stack always holds its root frame.
    pub open spec fn wf(&self) -> bool {
        self.interpreter.wf()
    }

    /// A fresh session with no bindings and no pending output.
    pub fn new() -> (r: Repl)
        ensures
            r.wf(),
            r.interpreter.stack.frames@.len() == 1,
            r.interpreter.stack.frames@[0].ilocals@.len() == 0,
            r.interpreter.stack.frames@[0].locals@.len() == 0,
            r.interpreter.output@.len() == 0,
    {
        Repl { interpreter: Interpreter::new() }
    }

    /// Evaluates one line of source text to one line of output text
    /// (possibly empty): the line parses as `parse_outcome` says, and the
    /// result is the rendering of the value that evaluating the parsed
    /// program yields, or the parse or evaluation error's message, verbatim.
    /// Definitions made by earlier calls stay visible; lines printed by
    /// `print` forms are buffered for `take_output`.
    pub fn eval(&mut self, source: String) -> (r: String)
        requires
            old(self).wf(),
        ensures
            final(self).wf(),
            evolves(old(self).interpreter, final(self).interpreter),
            exists|pr: Result<Node, EvalError>|
                #[trigger] parse_outcome(source@, pr) && (match pr {
                    Ok(tree) => exists|res: Result<Type, EvalError>|
                        #[trigger] eval_case(
                            tree,
                            old(self).interpreter,
                            final(self).interpreter,
                            res,
                            CALL_DEPTH_LIMIT as nat,
                        ) && (match res {
                            Ok(v) => r@ == spec_render(v@),
                            Err(e) => r@ == e.message@,
                        }),
                    Err(e) => r@ == e.message@ && final(self).interpreter == old(
                        self,
                    ).interpreter,
                }),
    {
        let ghost text = source@;
        let tokenizer = Tokenizer::new(source);
        let mut parser = Parser::new(tokenizer);
        proof {
            assert(parser.st() =~= (crate::parser::Cursor { pos: 0, buf: None }));
        }
        let pr = parser.parse();
        let ghost gpr = pr;
        proof {
            assert(parse_outcome(text, gpr));
        }
        match pr {
            Ok(tree) => self.eval_line(tree),
            Err(e) => {
                proof {
                    crate::interpreter::lemma_evolves_refl(self.interpreter);
                }
                e.message
            },
        }
    }

    /// Evaluates one parsed program against the session's evaluator: the
    /// rendering of the value it yields, or the evaluation error's message.
    fn eval_line(&mut self, tree: Node) -> (r: String)
        requires
            old(self).wf(),
        ensures
            final(self).wf(),
            evolves(old(self).interpreter, final(self).interpreter),
            exists|res: Result<Type, EvalError>|
                #[trigger] eval_case(
                    tree,
                    old(self).interpreter,
                    final(self).interpreter,
                    res,
                    CALL_DEPTH_LIMIT as nat,
                ) && (match res {
                    Ok(v) => r@ == spec_render(v@),
                    Err(e) => r@ == e.message@,
                }),
    {
        let res = self.interpreter.eval_tree(&tree);
        let ghost gres = res;
        let out = match res {
            Ok(v) => v.to_string(),
            Err(e) => e.message,
        };
        proof {
            assert(eval_case(
                tree,
                old(self).interpreter,
                self.interpreter,
                gres,
                CALL_DEPTH_LIMIT as nat,
            ));
            assert(match gres {
                Ok(v) => out@ == spec_render(v@),
                Err(e) => out@ == e.message@,
            });
        }
        out
    }

    /// Hands the lines printed so far out, emptying the buffer. The caller
    /// emits them; the core itself does no output.
    pub fn take_output(&mut self) -> (r: Vec<String>)
        requires
            old(self).wf(),
        ensures
            final(self).wf(),
            final(self).spec_output().len() == 0,
            r@ == old(self).spec_output(),
    {
        let mut out: Vec<String> = Vec::new();
        core::mem::swap(&mut out, &mut self.interpreter.output);
        out
    }

    /// The lines printed so far and not yet handed out.
    pub open spec fn spec_output(&self) -> Seq<String> {
        self.interpreter.output@
    }
}

} // verus!
