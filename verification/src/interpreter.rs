//! The evaluator: walks a syntax tree against a stack of binding frames,
//! producing a runtime value or an error, and buffering printed lines for
//! the caller to emit.

use vstd::prelude::*;

use crate::ast::{Node, Operation};
use crate::frame::{Frame, FrameStack};
use crate::primitive::{
    spec_cmp, spec_comparable, spec_render, spec_truthy, spec_truthy_ok, val_cmp, val_eq,
    vals_view, ErrorKind, EvalError, Type, ValV,
};

verus! {

/// One checked step of an arithmetic fold.
pub open spec fn spec_step(op: Seq<char>, a: i64, b: i64) -> Option<i64> {
    if op == "-"@ {
        a.checked_sub(b)
    } else if op == "*"@ {
        a.checked_mul(b)
    } else if op == "/"@ {
        a.checked_div(b)
    } else if op == "rem"@ || op == "%"@ {
        a.checked_rem(b)
    } else {
        a.checked_add(b)
    }
}

/// The checked left fold of an arithmetic operation from `acc` over the
/// remaining operands: `None` on a non-integer operand or a step whose
/// result does not fit.
pub open spec fn spec_fold(op: Seq<char>, acc: i64, rest: Seq<ValV>) -> Option<i64>
    decreases rest.len(),
{
    if rest.len() == 0 {
        Some(acc)
    } else {
        match rest[0] {
            ValV::Int(b) => if i64::MIN <= b <= i64::MAX {
                match spec_step(op, acc, b as i64) {
                    Some(v) => spec_fold(op, v, rest.drop_first()),
                    None => None,
                }
            } else {
                None
            },
            _ => None,
        }
    }
}

/// Whether one comparison outcome satisfies an ordering operator.
pub open spec fn spec_rel(rel: Seq<char>, c: int) -> bool {
    if rel == ">"@ {
        c > 0
    } else if rel == "<"@ {
        c < 0
    } else if rel == ">="@ {
        c >= 0
    } else {
        c <= 0
    }
}

/// A chained ordering: every adjacent pair must satisfy the relation, left
/// to right; the scan stops at the first failing pair, and reports `None`
/// only when it reaches a pair that cannot be compared.
pub open spec fn spec_chain(rel: Seq<char>, vs: Seq<ValV>) -> Option<bool>
    decreases vs.len(),
{
    if vs.len() < 2 {
        Some(true)
    } else if !spec_comparable(vs[0], vs[1]) {
        None
    } else if !spec_rel(rel, spec_cmp(vs[0], vs[1])) {
        Some(false)
    } else {
        spec_chain(rel, vs.drop_first())
    }
}

/// A chained ordering that holds means exactly that: every adjacent pair is
/// comparable and satisfies the relation.
pub proof fn lemma_chain_holds_pairwise(rel: Seq<char>, vs: Seq<ValV>)
    ensures
        spec_chain(rel, vs) == Some(true) ==> forall|i: int|
            0 <= i < vs.len() - 1 ==> spec_comparable(vs[i], #[trigger] vs[i + 1]) && spec_rel(
                rel,
                spec_cmp(vs[i], vs[i + 1]),
            ),
    decreases vs.len(),
{
    if vs.len() >= 2 && spec_chain(rel, vs) == Some(true) {
        lemma_chain_holds_pairwise(rel, vs.drop_first());
        assert(forall|i: int| 1 <= i < vs.len() ==> #[trigger] vs[i] == vs.drop_first()[i - 1]);
    }
}

/// The extreme of the operands under the value ordering, folded from `acc`:
/// the last maximum (or the first minimum) wins a tie; `None` as soon as a
/// fold step compares values that cannot be compared.
pub open spec fn spec_extreme(vs: Seq<ValV>, acc: ValV, want_max: bool) -> Option<ValV>
    decreases vs.len(),
{
    if vs.len() == 0 {
        Some(acc)
    } else if !spec_comparable(acc, vs[0]) {
        None
    } else {
        let take_new = if want_max {
            spec_cmp(vs[0], acc) >= 0
        } else {
            spec_cmp(vs[0], acc) < 0
        };
        spec_extreme(
            vs.drop_first(),
            if take_new {
                vs[0]
            } else {
                acc
            },
            want_max,
        )
    }
}

/// True when every operand equals the last operand.
pub open spec fn spec_all_eq_last(vs: Seq<ValV>) -> bool {
    forall|i: int| 0 <= i < vs.len() ==> vs[i] == vs.last()
}

/// The logical `and` scan: the first operand without a defined truthiness
/// is an error (`None`); otherwise the first falsy operand, or the last.
pub open spec fn spec_and_scan(vs: Seq<ValV>) -> Option<ValV>
    decreases vs.len(),
{
    if vs.len() == 0 {
        None
    } else if !spec_truthy_ok(vs[0]) {
        None
    } else if !spec_truthy(vs[0]) {
        Some(vs[0])
    } else if vs.len() == 1 {
        Some(vs[0])
    } else {
        spec_and_scan(vs.drop_first())
    }
}

/// The logical `or` scan: the first operand without a defined truthiness is
/// an error (`None`); otherwise the first truthy operand, or the last.
pub open spec fn spec_or_scan(vs: Seq<ValV>) -> Option<ValV>
    decreases vs.len(),
{
    if vs.len() == 0 {
        None
    } else if !spec_truthy_ok(vs[0]) {
        None
    } else if spec_truthy(vs[0]) {
        Some(vs[0])
    } else if vs.len() == 1 {
        Some(vs[0])
    } else {
        spec_or_scan(vs.drop_first())
    }
}

/// The arithmetic sum of a list of integer values (a non-integer counts as
/// zero; the lemmas below only apply it to integer lists).
pub open spec fn spec_sum(s: Seq<ValV>) -> int
    decreases s.len(),
{
    if s.len() == 0 {
        0
    } else {
        (match s[0] {
            ValV::Int(i) => i,
            _ => 0,
        }) + spec_sum(s.drop_first())
    }
}

/// Folding `+` from an accumulator over integer operands yields the
/// accumulator plus the arithmetic sum of the operands, whenever the fold
/// succeeds. With the accumulator zero, `(+ L)` is exactly the sum of `L`.
pub proof fn lemma_fold_add_is_sum(acc: i64, s: Seq<ValV>)
    ensures
        spec_fold("+"@, acc, s) matches Some(v) ==> v as int == acc + spec_sum(s),
    decreases s.len(),
{
    reveal_strlit("+");
    reveal_strlit("-");
    reveal_strlit("*");
    reveal_strlit("/");
    reveal_strlit("rem");
    reveal_strlit("%");
    assert("+"@[0] == '+' && "-"@[0] == '-' && "*"@[0] == '*' && "/"@[0] == '/' && "%"@[0] == '%');
    assert("+"@ != "-"@ && "+"@ != "*"@ && "+"@ != "/"@ && "+"@ != "rem"@ && "+"@ != "%"@);
    if s.len() == 0 {
        assert(spec_fold("+"@, acc, s) == Some(acc));
        assert(spec_sum(s) == 0);
    } else {
        match s[0] {
            ValV::Int(b) => {
                if i64::MIN <= b <= i64::MAX {
                    assert(spec_step("+"@, acc, b as i64) == acc.checked_add(b as i64));
                    match acc.checked_add(b as i64) {
                        Some(v2) => {
                            lemma_fold_add_is_sum(v2, s.drop_first());
                            assert(spec_fold("+"@, acc, s) == spec_fold(
                                "+"@,
                                v2,
                                s.drop_first(),
                            ));
                            assert(spec_sum(s) == b + spec_sum(s.drop_first()));
                        },
                        None => {
                            assert(spec_fold("+"@, acc, s) is None);
                        },
                    }
                }
            },
            _ => {},
        }
    }
}

/// A subtraction chain folds left: `(- a b c)` is `((a - b) - c)` whenever
/// both steps fit.
pub proof fn lemma_sub_chain(a: i64, b: i64, c: i64)
    requires
        i64::MIN <= a - b <= i64::MAX,
        i64::MIN <= a - b - c <= i64::MAX,
    ensures
        spec_fold("-"@, a, seq![ValV::Int(b as int), ValV::Int(c as int)]) == Some(
            (a - b - c) as i64,
        ),
{
    reveal_strlit("-");
    reveal_strlit("*");
    reveal_strlit("/");
    reveal_strlit("rem");
    reveal_strlit("%");
    let s0 = seq![ValV::Int(b as int), ValV::Int(c as int)];
    let s1 = s0.drop_first();
    let s2 = s1.drop_first();
    assert(s2 =~= Seq::<ValV>::empty());
    assert(s1 =~= seq![ValV::Int(c as int)]);
    assert(s0[0] == ValV::Int(b as int));
    assert(s1[0] == ValV::Int(c as int));
    assert(spec_fold("-"@, (a - b - c) as i64, s2) == Some((a - b - c) as i64));
    assert(spec_step("-"@, (a - b) as i64, c) == Some((a - b - c) as i64));
    assert(spec_fold("-"@, (a - b) as i64, s1) == Some((a - b - c) as i64));
    assert(spec_step("-"@, a, b) == Some((a - b) as i64));
    assert(spec_fold("-"@, a, s0) == Some((a - b - c) as i64));
}

/// Two operands are all equal to the last operand exactly when they are
/// equal; `/=` on the same operands yields the exact negation, as its
/// contract states it over the same predicate.
pub proof fn lemma_pair_equality(a: ValV, b: ValV)
    ensures
        spec_all_eq_last(seq![a, b]) == (a == b),
{
    let s = seq![a, b];
    assert(s.last() == b);
    if a == b {
        assert(forall|i: int| 0 <= i < s.len() ==> s[i] == s.last());
    } else {
        assert(s[0] != s.last());
    }
}

/// A successful extreme fold yields a bound: the result compares on the
/// right side of the start value and of every operand (above them for
/// `max`, below them for `min`).
pub proof fn lemma_extreme_is_bound(vs: Seq<ValV>, acc: ValV, want_max: bool)
    ensures
        spec_extreme(vs, acc, want_max) matches Some(v) ==> ((vs.len() > 0 ==> (spec_comparable(
            v,
            acc,
        ) && (if want_max {
            spec_cmp(v, acc) >= 0
        } else {
            spec_cmp(v, acc) <= 0
        }))) && (forall|i: int|
            0 <= i < vs.len() ==> spec_comparable(v, #[trigger] vs[i]) && (if want_max {
                spec_cmp(v, vs[i]) >= 0
            } else {
                spec_cmp(v, vs[i]) <= 0
            }))),
    decreases vs.len(),
{
    if vs.len() == 0 {
    } else if spec_comparable(acc, vs[0]) {
        let take_new = if want_max {
            spec_cmp(vs[0], acc) >= 0
        } else {
            spec_cmp(vs[0], acc) < 0
        };
        let acc2 = if take_new {
            vs[0]
        } else {
            acc
        };
        lemma_extreme_is_bound(vs.drop_first(), acc2, want_max);
        if spec_extreme(vs, acc, want_max) matches Some(v) {
            assert(forall|i: int|
                1 <= i < vs.len() ==> #[trigger] vs[i] == vs.drop_first()[i - 1]);
        }
    }
}

/// What applying an arithmetic operator to its evaluated operands yields:
/// `+` folds from zero; `-`, `*`, `/` and `rem` fold left from the first
/// operand (a single operand is returned as it stands); any other word is
/// not an arithmetic operator.
pub open spec fn operator_outcome(tok: Seq<char>, vs: Seq<ValV>, r: Result<Type, EvalError>) -> bool {
    if tok == "+"@ {
        match spec_fold("+"@, 0, vs) {
            Some(v) => r matches Ok(t) && t@ == ValV::Int(v as int),
            None => r matches Err(e) && e.kind == ErrorKind::Type,
        }
    } else if tok == "-"@ || tok == "*"@ || tok == "/"@ || tok == "rem"@ || tok == "%"@ {
        if vs.len() == 0 {
            r matches Err(e) && e.kind == ErrorKind::Type
        } else if vs.len() == 1 {
            r matches Ok(t) && t@ == vs[0]
        } else {
            match vs[0] {
                ValV::Int(a0) => match spec_fold(tok, a0 as i64, vs.drop_first()) {
                    Some(v) => r matches Ok(t) && t@ == ValV::Int(v as int),
                    None => r matches Err(e) && e.kind == ErrorKind::Type,
                },
                _ => r matches Err(e) && e.kind == ErrorKind::Type,
            }
        }
    } else {
        r matches Err(e) && e.kind == ErrorKind::Value
    }
}

/// What applying a comparison operator to its evaluated operands yields:
/// `=` tests that all operands equal the last operand and `/=` is its exact
/// negation; `>`, `<`, `>=`, `<=` require every adjacent pair to satisfy the
/// relation; `max` and `min` reduce to the extreme operand under the value
/// ordering.
pub open spec fn comparison_outcome(tok: Seq<char>, vs: Seq<ValV>, r: Result<
    Type,
    EvalError,
>) -> bool {
    if tok == "="@ {
        if vs.len() == 0 {
            r matches Err(e) && e.kind == ErrorKind::Type
        } else {
            r matches Ok(t) && t@ == ValV::Bool(spec_all_eq_last(vs))
        }
    } else if tok == "/="@ {
        if vs.len() == 0 {
            r matches Err(e) && e.kind == ErrorKind::Type
        } else {
            r matches Ok(t) && t@ == ValV::Bool(!spec_all_eq_last(vs))
        }
    } else if tok == ">"@ || tok == "<"@ || tok == ">="@ || tok == "<="@ {
        match spec_chain(tok, vs) {
            Some(b) => r matches Ok(t) && t@ == ValV::Bool(b),
            None => r matches Err(e) && e.kind == ErrorKind::Type,
        }
    } else if tok == "max"@ || tok == "min"@ {
        if vs.len() == 0 {
            r matches Err(e) && e.kind == ErrorKind::Type
        } else {
            match spec_extreme(vs.drop_first(), vs[0], tok == "max"@) {
                Some(v) => r matches Ok(t) && t@ == v,
                None => r matches Err(e) && e.kind == ErrorKind::Type,
            }
        }
    } else {
        r matches Err(e) && e.kind == ErrorKind::Value
    }
}

/// What applying a logical operator to its evaluated operands yields: `not`
/// negates its first operand; `and` yields the first falsy operand, else the
/// last; `or` yields the first truthy operand, else the last.
pub open spec fn logical_outcome(tok: Seq<char>, vs: Seq<ValV>, r: Result<Type, EvalError>) -> bool {
    if tok == "not"@ {
        if vs.len() == 0 {
            r matches Err(e) && e.kind == ErrorKind::Type
        } else {
            match crate::primitive::spec_not(vs[0]) {
                Some(v) => r matches Ok(t) && t@ == v,
                None => r matches Err(e) && e.kind == ErrorKind::Type,
            }
        }
    } else if tok == "and"@ {
        match spec_and_scan(vs) {
            Some(v) => r matches Ok(t) && t@ == v,
            None => r matches Err(e) && e.kind == ErrorKind::Type,
        }
    } else if tok == "or"@ {
        match spec_or_scan(vs) {
            Some(v) => r matches Ok(t) && t@ == v,
            None => r matches Err(e) && e.kind == ErrorKind::Type,
        }
    } else {
        r matches Err(e) && e.kind == ErrorKind::Value
    }
}

/// Applies an arithmetic operator to its evaluated operands. `+` folds from
/// zero; `-`, `*`, `/` and `rem` fold left from the first operand (a single
/// operand is returned as it stands, as the fold has nothing to combine it
/// with); any other word is not an arithmetic operator.
pub fn exec_operator(tok: String, nodes: Vec<Type>) -> (r: Result<Type, EvalError>)
    ensures
        operator_outcome(tok@, vals_view(nodes@), r),
{
    proof {
        crate::primitive::lemma_vals_view(nodes@);
    }
    proof {
        assert(vals_view(nodes@).skip(0) =~= vals_view(nodes@));
        assert(vals_view(nodes@).drop_first() =~= vals_view(nodes@).skip(1));
    }
    if crate::token::word_is(&tok, "+") {
        fold_from(String::from_str("+"), Type::Int(0), &nodes, 0)
    } else if crate::token::word_is(&tok, "-") || crate::token::word_is(&tok, "*")
        || crate::token::word_is(&tok, "/") || crate::token::word_is(&tok, "rem")
        || crate::token::word_is(&tok, "%") {
        if nodes.len() == 0 {
            Err(
                EvalError::type_error(
                    String::from_str("Operation error: an operator needs operands"),
                ),
            )
        } else {
            let first = nodes[0].duplicate();
            fold_from(tok, first, &nodes, 1)
        }
    } else {
        Err(
            EvalError::value_error(
                String::from_str("Operator error: ").concat(tok.as_str()).concat(
                    " isn't operation token",
                ),
            ),
        )
    }
}

/// Folds the operator over the operands from `start`, starting at `acc`.
#[verifier::loop_isolation(false)]
fn fold_from(tok: String, acc: Type, nodes: &Vec<Type>, start: usize) -> (r: Result<
    Type,
    EvalError,
>)
    requires
        start <= nodes@.len(),
    ensures
        ({
            let rest = vals_view(nodes@).skip(start as int);
            match acc {
                Type::Int(a) => match spec_fold(tok@, a, rest) {
                    Some(v) => r matches Ok(t) && t@ == ValV::Int(v as int),
                    None => r matches Err(e) && e.kind == ErrorKind::Type,
                },
                _ => if rest.len() == 0 {
                    r matches Ok(t) && t@ == acc@
                } else {
                    r matches Err(e) && e.kind == ErrorKind::Type
                },
            }
        }),
{
    proof {
        crate::primitive::lemma_vals_view(nodes@);
    }
    let ghost vs = vals_view(nodes@);
    let n = nodes.len();
    let mut a: i64 = match acc {
        Type::Int(v) => v,
        other => {
            if start >= n {
                return Ok(other);
            }
            return Err(
                EvalError::type_error(
                    String::from_str("Operation error: operands must be integers"),
                ),
            );
        },
    };
    let ghost a0 = a;
    let is_sub = crate::token::word_is(&tok, "-");
    let is_mul = crate::token::word_is(&tok, "*");
    let is_div = crate::token::word_is(&tok, "/");
    let is_rem = crate::token::word_is(&tok, "rem") || crate::token::word_is(&tok, "%");
    let mut i: usize = start;
    while i < n
        invariant
            start <= i <= n,
            n == nodes@.len(),
            vs == vals_view(nodes@),
            vs.len() == nodes@.len(),
            forall|j: int| 0 <= j < nodes@.len() ==> vs[j] == (#[trigger] nodes@[j])@,
            is_sub == (tok@ == "-"@),
            is_mul == (tok@ == "*"@),
            is_div == (tok@ == "/"@),
            is_rem == (tok@ == "rem"@ || tok@ == "%"@),
            acc == Type::Int(a0),
            spec_fold(tok@, a, vs.skip(i as int)) == spec_fold(tok@, a0, vs.skip(start as int)),
        decreases n - i,
    {
        proof {
            assert(vs.skip(i as int)[0] == vs[i as int]);
            assert(vs.skip(i as int).drop_first() =~= vs.skip(i + 1));
        }
        let step: Option<i64> = match &nodes[i] {
            Type::Int(b) => {
                if is_sub {
                    a.checked_sub(*b)
                } else if is_mul {
                    a.checked_mul(*b)
                } else if is_div {
                    a.checked_div(*b)
                } else if is_rem {
                    a.checked_rem(*b)
                } else {
                    a.checked_add(*b)
                }
            },
            _ => {
                return Err(
                    EvalError::type_error(
                        String::from_str("Operation error: operands must be integers"),
                    ),
                );
            },
        };
        match step {
            Some(v) => {
                a = v;
            },
            None => {
                return Err(
                    EvalError::type_error(
                        String::from_str("Operation error: the result does not fit"),
                    ),
                );
            },
        }
        i += 1;
    }
    proof {
        assert(vs.skip(n as int) =~= Seq::<ValV>::empty());
    }
    Ok(Type::Int(a))
}

/// True when every operand equals the last operand.
#[verifier::loop_isolation(false)]
fn all_eq_last(nodes: &Vec<Type>) -> (r: bool)
    requires
        nodes@.len() > 0,
    ensures
        r == spec_all_eq_last(vals_view(nodes@)),
{
    proof {
        crate::primitive::lemma_vals_view(nodes@);
    }
    let ghost vs = vals_view(nodes@);
    let n = nodes.len();
    let last = &nodes[n - 1];
    let mut i: usize = 0;
    while i < n
        invariant
            i <= n,
            n == nodes@.len(),
            vs == vals_view(nodes@),
            vs.len() == nodes@.len(),
            forall|j: int| 0 <= j < nodes@.len() ==> vs[j] == (#[trigger] nodes@[j])@,
            *last == nodes@[n - 1],
            forall|j: int| 0 <= j < i ==> vs[j] == vs.last(),
        decreases n - i,
    {
        if !val_eq(&nodes[i], last) {
            return false;
        }
        i += 1;
    }
    true
}

/// Checks a chained ordering pair by pair, left to right.
#[verifier::loop_isolation(false)]
fn chain_check(tok: &String, nodes: &Vec<Type>) -> (r: Result<bool, EvalError>)
    ensures
        ({
            match spec_chain(tok@, vals_view(nodes@)) {
                Some(b) => r matches Ok(x) && x == b,
                None => r matches Err(e) && e.kind == ErrorKind::Type,
            }
        }),
{
    proof {
        crate::primitive::lemma_vals_view(nodes@);
    }
    let ghost vs = vals_view(nodes@);
    let n = nodes.len();
    if n < 2 {
        return Ok(true);
    }
    let mut i: usize = 0;
    proof {
        assert(vs.skip(0) =~= vs);
    }
    while i + 1 < n
        invariant
            i < n,
            n >= 2,
            n == nodes@.len(),
            vs == vals_view(nodes@),
            vs.len() == nodes@.len(),
            forall|j: int| 0 <= j < nodes@.len() ==> vs[j] == (#[trigger] nodes@[j])@,
            spec_chain(tok@, vs) == spec_chain(tok@, vs.skip(i as int)),
        decreases n - i,
    {
        proof {
            assert(vs.skip(i as int)[0] == vs[i as int]);
            assert(vs.skip(i as int)[1] == vs[i + 1]);
            assert(vs.skip(i as int).drop_first() =~= vs.skip(i + 1));
        }
        let c = match val_cmp(&nodes[i], &nodes[i + 1]) {
            Ok(c) => c,
            Err(e) => {
                return Err(e);
            },
        };
        let holds = if crate::token::word_is(tok, ">") {
            c > 0
        } else if crate::token::word_is(tok, "<") {
            c < 0
        } else if crate::token::word_is(tok, ">=") {
            c >= 0
        } else {
            c <= 0
        };
        if !holds {
            return Ok(false);
        }
        i += 1;
    }
    proof {
        assert(vs.skip(i as int).len() < 2);
    }
    Ok(true)
}

/// The extreme operand under the value ordering.
#[verifier::loop_isolation(false)]
fn extreme_of(nodes: &Vec<Type>, want_max: bool) -> (r: Result<Type, EvalError>)
    requires
        nodes@.len() > 0,
    ensures
        ({
            let vs = vals_view(nodes@);
            match spec_extreme(vs.drop_first(), vs[0], want_max) {
                Some(v) => r matches Ok(t) && t@ == v,
                None => r matches Err(e) && e.kind == ErrorKind::Type,
            }
        }),
{
    proof {
        crate::primitive::lemma_vals_view(nodes@);
    }
    let ghost vs = vals_view(nodes@);
    let n = nodes.len();
    let mut acc = nodes[0].duplicate();
    let mut i: usize = 1;
    proof {
        assert(vs.skip(1) =~= vs.drop_first());
    }
    while i < n
        invariant
            1 <= i <= n,
            n == nodes@.len(),
            vs == vals_view(nodes@),
            vs.len() == nodes@.len(),
            forall|j: int| 0 <= j < nodes@.len() ==> vs[j] == (#[trigger] nodes@[j])@,
            spec_extreme(vs.skip(i as int), acc@, want_max) == spec_extreme(
                vs.drop_first(),
                vs[0],
                want_max,
            ),
        decreases n - i,
    {
        proof {
            assert(vs.skip(i as int)[0] == vs[i as int]);
            assert(vs.skip(i as int).drop_first() =~= vs.skip(i + 1));
        }
        let c = match val_cmp(&nodes[i], &acc) {
            Ok(c) => c,
            Err(e) => {
                return Err(e);
            },
        };
        let take_new = if want_max {
            c >= 0
        } else {
            c < 0
        };
        if take_new {
            acc = nodes[i].duplicate();
        }
        i += 1;
    }
    proof {
        assert(vs.skip(n as int) =~= Seq::<ValV>::empty());
    }
    Ok(acc)
}

/// Applies a comparison operator to its evaluated operands. `=` tests that
/// all operands equal the last operand and `/=` is its exact negation;
/// `>`, `<`, `>=`, `<=` require every adjacent pair to satisfy the relation;
/// `max` and `min` reduce to the extreme operand under the value ordering.
pub fn exec_comparison(tok: String, nodes: Vec<Type>) -> (r: Result<Type, EvalError>)
    ensures
        comparison_outcome(tok@, vals_view(nodes@), r),
{
    if crate::token::word_is(&tok, "=") {
        if nodes.len() == 0 {
            Err(
                EvalError::type_error(
                    String::from_str("Operation error: a comparison needs operands"),
                ),
            )
        } else {
            Ok(Type::Bool(all_eq_last(&nodes)))
        }
    } else if crate::token::word_is(&tok, "/=") {
        if nodes.len() == 0 {
            Err(
                EvalError::type_error(
                    String::from_str("Operation error: a comparison needs operands"),
                ),
            )
        } else {
            Ok(Type::Bool(!all_eq_last(&nodes)))
        }
    } else if crate::token::word_is(&tok, ">") || crate::token::word_is(&tok, "<")
        || crate::token::word_is(&tok, ">=") || crate::token::word_is(&tok, "<=") {
        match chain_check(&tok, &nodes) {
            Ok(b) => Ok(Type::Bool(b)),
            Err(e) => Err(e),
        }
    } else if crate::token::word_is(&tok, "max") {
        if nodes.len() == 0 {
            Err(
                EvalError::type_error(
                    String::from_str("Operation error: a comparison needs operands"),
                ),
            )
        } else {
            extreme_of(&nodes, true)
        }
    } else if crate::token::word_is(&tok, "min") {
        if nodes.len() == 0 {
            Err(
                EvalError::type_error(
                    String::from_str("Operation error: a comparison needs operands"),
                ),
            )
        } else {
            extreme_of(&nodes, false)
        }
    } else {
        Err(
            EvalError::value_error(
                String::from_str("Comparison error: ").concat(tok.as_str()).concat(
                    " isn't comparison token",
                ),
            ),
        )
    }
}

/// Applies a logical operator to its evaluated operands. `not` negates its
/// first operand; `and` yields the first falsy operand, else the last; `or`
/// yields the first truthy operand, else the last. Both scans stop early,
/// so operands after the deciding one need no defined truthiness.
#[verifier::loop_isolation(false)]
pub fn exec_logical(tok: String, nodes: Vec<Type>) -> (r: Result<Type, EvalError>)
    ensures
        logical_outcome(tok@, vals_view(nodes@), r),
{
    proof {
        crate::primitive::lemma_vals_view(nodes@);
    }
    let ghost vs = vals_view(nodes@);
    let n = nodes.len();
    if crate::token::word_is(&tok, "not") {
        if n == 0 {
            Err(
                EvalError::type_error(
                    String::from_str("Operation error: a negation needs an operand"),
                ),
            )
        } else {
            nodes[0].duplicate().not()
        }
    } else if crate::token::word_is(&tok, "and") {
        if n == 0 {
            return Err(
                EvalError::type_error(
                    String::from_str("Value error: type cannot be used as boolean"),
                ),
            );
        }
        let mut i: usize = 0;
        proof {
            assert(vs.skip(0) =~= vs);
        }
        while i + 1 < n
            invariant
                i < n,
                n == nodes@.len(),
                tok@ == "and"@,
                vs == vals_view(nodes@),
                vs.len() == nodes@.len(),
                forall|j: int| 0 <= j < nodes@.len() ==> vs[j] == (#[trigger] nodes@[j])@,
                spec_and_scan(vs) == spec_and_scan(vs.skip(i as int)),
            decreases n - i,
        {
            proof {
                assert(vs.skip(i as int)[0] == vs[i as int]);
                assert(vs.skip(i as int).drop_first() =~= vs.skip(i + 1));
            }
            match nodes[i].truthiness() {
                None => {
                    return Err(
                        EvalError::type_error(
                            String::from_str("Value error: type cannot be used as boolean"),
                        ),
                    );
                },
                Some(false) => {
                    return Ok(nodes[i].duplicate());
                },
                Some(true) => {},
            }
            i += 1;
        }
        proof {
            assert(vs.skip(i as int)[0] == vs[i as int]);
            assert(vs.skip(i as int).len() == 1);
        }
        match nodes[i].truthiness() {
            None => Err(
                EvalError::type_error(
                    String::from_str("Value error: type cannot be used as boolean"),
                ),
            ),
            Some(_) => Ok(nodes[i].duplicate()),
        }
    } else if crate::token::word_is(&tok, "or") {
        if n == 0 {
            return Err(
                EvalError::type_error(
                    String::from_str("Value error: type cannot be used as boolean"),
                ),
            );
        }
        let mut i: usize = 0;
        proof {
            assert(vs.skip(0) =~= vs);
        }
        while i + 1 < n
            invariant
                i < n,
                n == nodes@.len(),
                tok@ == "or"@,
                vs == vals_view(nodes@),
                vs.len() == nodes@.len(),
                forall|j: int| 0 <= j < nodes@.len() ==> vs[j] == (#[trigger] nodes@[j])@,
                spec_or_scan(vs) == spec_or_scan(vs.skip(i as int)),
            decreases n - i,
        {
            proof {
                assert(vs.skip(i as int)[0] == vs[i as int]);
                assert(vs.skip(i as int).drop_first() =~= vs.skip(i + 1));
            }
            match nodes[i].truthiness() {
                None => {
                    return Err(
                        EvalError::type_error(
                            String::from_str("Value error: type cannot be used as boolean"),
                        ),
                    );
                },
                Some(true) => {
                    return Ok(nodes[i].duplicate());
                },
                Some(false) => {},
            }
            i += 1;
        }
        proof {
            assert(vs.skip(i as int)[0] == vs[i as int]);
            assert(vs.skip(i as int).len() == 1);
        }
        match nodes[i].truthiness() {
            None => Err(
                EvalError::type_error(
                    String::from_str("Value error: type cannot be used as boolean"),
                ),
            ),
            Some(_) => Ok(nodes[i].duplicate()),
        }
    } else {
        Err(
            EvalError::value_error(
                String::from_str("Logicial error: ").concat(tok.as_str()).concat(
                    " isn't logical token",
                ),
            ),
        )
    }
}

/// Two evaluator states that hold the same frames and the same output.
pub open spec fn state_eq(a: Interpreter, b: Interpreter) -> bool {
    a.stack.frames@ == b.stack.frames@ && a.output@ == b.output@
}

/// Quantifier handles: the evaluation relation quantifies over intermediate
/// states and step results, and these trivially true functions serve as
/// stable instantiation triggers for those quantifiers.
pub open spec fn step_witness(mid: Interpreter, sr: Result<Type, EvalError>) -> bool {
    true
}

/// Quantifier handle over an intermediate state alone.
pub open spec fn state_witness(s: Interpreter) -> bool {
    true
}

/// Quantifier handle over an operand-list outcome.
pub open spec fn args_witness(mid: Interpreter, out: Result<Seq<Type>, EvalError>) -> bool {
    true
}

/// Quantifier handle over a call's unpacked callee and binding phase.
pub open spec fn call_witness(
    fparams: Vec<Node>,
    block: Vec<Node>,
    entry: Interpreter,
    bound: Interpreter,
    bres: Result<(), EvalError>,
) -> bool {
    true
}

/// Quantifier handle over a binding step's outcome.
pub open spec fn bind_witness(mid: Interpreter, ar: Result<Type, EvalError>) -> bool {
    true
}

/// Big-step evaluation relation, one clause per node kind: a literal yields
/// its value; a name resolves in the current frame or reports exactly that
/// it does not exist; an arithmetic, comparison or logical form applies its
/// operator to the operands evaluated left to right; a conditional evaluates
/// exactly the branch its condition's truthiness selects; a guarded block
/// yields the absence of a value on a falsy guard and its body's last
/// non-placeholder value on a truthy one; a definition binds the evaluated
/// value under the name, or rejects an already bound name; a call pushes a
/// copy of the current frame, binds the declared parameters in order to the
/// evaluated arguments (extra arguments are ignored), evaluates the body
/// there, and restores the frame stack; a print appends exactly one line,
/// the printed value's rendering.
/// The fuel bounds how deeply calls may nest before the depth error.
pub open spec fn eval_case(
    tree: Node,
    pre: Interpreter,
    post: Interpreter,
    r: Result<Type, EvalError>,
    fuel: nat,
) -> bool
    decreases fuel, tree, 2int,
{
    match *tree.operation {
        Operation::Main(stm) => eval_case(stm, pre, post, r, fuel),
        Operation::Empty => r matches Ok(v) && v@ == ValV::Nil && state_eq(post, pre),
        Operation::Constant(c) => r matches Ok(v) && v@ == c@ && state_eq(post, pre),
        Operation::Identifier(name) => state_eq(post, pre) && (match pre.stack.frames@.last()
            .spec_get(name@) {
            Some(w) => r matches Ok(v) && v@ == w@,
            None => r matches Err(e) && e.kind == ErrorKind::Value && e.message@ == "Variable "@
                + name@ + " doesn't exist in this context"@,
        }),
        Operation::Operator(tok, args) => exists|mid: Interpreter, out: Result<Seq<Type>, EvalError>|
            #[trigger] args_witness(mid, out) && eval_args_case(args@, 0, pre, mid, out, fuel)
                && evolves(pre, mid)
                && state_eq(post, mid) && (match out {
                Ok(vs) => operator_outcome(tok@, vals_view(vs), r),
                Err(e) => r == Err::<Type, EvalError>(e),
            }),
        Operation::Comparison(tok, args) => exists|
            mid: Interpreter,
            out: Result<Seq<Type>, EvalError>,
        |
            #[trigger] args_witness(mid, out) && eval_args_case(args@, 0, pre, mid, out, fuel)
                && evolves(pre, mid)
                && state_eq(post, mid) && (match out {
                Ok(vs) => comparison_outcome(tok@, vals_view(vs), r),
                Err(e) => r == Err::<Type, EvalError>(e),
            }),
        Operation::Logical(tok, args) => exists|mid: Interpreter, out: Result<Seq<Type>, EvalError>|
            #[trigger] args_witness(mid, out) && eval_args_case(args@, 0, pre, mid, out, fuel)
                && evolves(pre, mid)
                && state_eq(post, mid) && (match out {
                Ok(vs) => logical_outcome(tok@, vals_view(vs), r),
                Err(e) => r == Err::<Type, EvalError>(e),
            }),
        Operation::IfElse(cond, branches) => exists|mid: Interpreter, cr: Result<Type, EvalError>|
            #[trigger] step_witness(mid, cr) && eval_case(cond, pre, mid, cr, fuel) && evolves(
                pre,
                mid,
            ) && (match cr {
                Err(e) => r == Err::<Type, EvalError>(e) && state_eq(post, mid),
                Ok(c) => if !spec_truthy_ok(c@) {
                    state_eq(post, mid) && (r matches Err(e) && e.kind == ErrorKind::Type
                        && e.message@ == "Value error: type cannot be used as boolean"@)
                } else {
                    let idx: int = if spec_truthy(c@) {
                        0
                    } else {
                        1
                    };
                    if idx < branches@.len() {
                        eval_case(branches@[idx], mid, post, r, fuel)
                    } else {
                        state_eq(post, mid) && (r matches Err(e) && e.kind == ErrorKind::Syntax)
                    }
                },
            }),
        Operation::When(cond, body) => exists|mid: Interpreter, cr: Result<Type, EvalError>|
            #[trigger] step_witness(mid, cr) && eval_case(cond, pre, mid, cr, fuel) && evolves(
                pre,
                mid,
            ) && (match cr {
                Err(e) => r == Err::<Type, EvalError>(e) && state_eq(post, mid),
                Ok(c) => if !spec_truthy_ok(c@) {
                    state_eq(post, mid) && (r matches Err(e) && e.kind == ErrorKind::Type
                        && e.message@ == "Value error: type cannot be used as boolean"@)
                } else if !spec_truthy(c@) {
                    state_eq(post, mid) && (r matches Ok(v) && v@ == ValV::Nil)
                } else {
                    eval_block_case(body@, 0, Option::<Type>::None, mid, post, r, fuel)
                },
            }),
        Operation::Assign(target, expr) => exists|mid: Interpreter, er: Result<Type, EvalError>|
            #[trigger] step_witness(mid, er) && eval_case(expr, pre, mid, er, fuel) && evolves(
                pre,
                mid,
            ) && (match er {
                Err(e) => r == Err::<Type, EvalError>(e) && state_eq(post, mid),
                Ok(v) => if mid.stack.frames@.last().spec_has(target.value@) {
                    state_eq(post, mid) && (r matches Err(e) && e.kind == ErrorKind::Value
                        && e.message@ == "Value error: variable "@ + target.value@
                        + " has already defined."@)
                } else {
                    (r matches Ok(rv) && rv@ == ValV::Nil) && post.output@ == mid.output@
                        && post.stack.frames@.len() == mid.stack.frames@.len()
                        && post.stack.frames@.drop_last() == mid.stack.frames@.drop_last()
                        && post.stack.frames@.last().locals@ == mid.stack.frames@.last().locals@
                        && post.stack.frames@.last().ilocals@.len() == mid.stack.frames@.last()
                        .ilocals@.len() + 1 && post.stack.frames@.last().ilocals@.drop_last()
                        == mid.stack.frames@.last().ilocals@ && post.stack.frames@.last()
                        .ilocals@.last().name@ == target.value@ && post.stack.frames@.last()
                        .ilocals@.last().value == v
                },
            }),
        Operation::DefineFunction(name, f) => {
            if pre.stack.frames@.last().spec_has(name.value@) {
                r matches Err(e) && e.kind == ErrorKind::Value && e.message@
                    == "Value error: variable "@ + name.value@ + " has already defined."@
                    && state_eq(post, pre)
            } else {
                r matches Ok(v) && v@ == ValV::Nil && post.output@ == pre.output@
                    && post.stack.frames@.len() == pre.stack.frames@.len()
                    && post.stack.frames@.drop_last() == pre.stack.frames@.drop_last()
                    && post.stack.frames@.last().locals@ == pre.stack.frames@.last().locals@
                    && post.stack.frames@.last().ilocals@.len() == pre.stack.frames@.last()
                    .ilocals@.len() + 1 && post.stack.frames@.last().ilocals@.last().name@
                    == name.value@ && post.stack.frames@.last().ilocals@.last().value@ == f@
                    && post.stack.frames@.last().ilocals@.drop_last() == pre.stack.frames@.last()
                    .ilocals@
            }
        },
        Operation::StdOut(stm) => exists|mid: Interpreter, sr: Result<Type, EvalError>|
            #[trigger] step_witness(mid, sr) && eval_case(stm, pre, mid, sr, fuel) && evolves(
                pre,
                mid,
            ) && (match sr {
                Err(e) => r == Err::<Type, EvalError>(e) && state_eq(post, mid),
                Ok(v) => (r matches Ok(rv) && rv@ == ValV::Nil) && post.stack.frames@
                    == mid.stack.frames@ && post.output@.len() == mid.output@.len() + 1
                    && post.output@.drop_last() == mid.output@ && post.output@.last()@
                    == spec_render(v@),
            }),
        Operation::CallFunction(name, args) => {
            &&& post.stack.frames@ == pre.stack.frames@
            &&& (match pre.stack.frames@.last().spec_get(name.value@) {
                None => (r matches Err(e) && e.kind == ErrorKind::Value && e.message@
                    == "Value error: "@ + name.value@ + " is not callable"@) && post.output@
                    == pre.output@,
                Some(w) => match w@ {
                    ValV::Func(fpv, bodyv) => if fuel == 0 {
                        (r matches Err(e) && e.kind == ErrorKind::Value && e.message@
                            == "Value error: call depth exceeded"@) && post.output@ == pre.output@
                    } else {
                        exists|
                            fparams: Vec<Node>,
                            block: Vec<Node>,
                            entry: Interpreter,
                            bound: Interpreter,
                            bres: Result<(), EvalError>,
                        |
                            #![trigger call_witness(fparams, block, entry, bound, bres)]
                            crate::ast::nodes_view(fparams@) == fpv && crate::ast::nodes_view(
                                block@,
                            ) == bodyv && entry.output@ == pre.output@ && entry.stack.frames@.len()
                                == pre.stack.frames@.len() + 1 && entry.stack.frames@.drop_last()
                                == pre.stack.frames@ && crate::frame::bindings_like(
                                entry.stack.frames@.last().ilocals@,
                                pre.stack.frames@.last().ilocals@,
                            ) && crate::frame::bindings_like(
                                entry.stack.frames@.last().locals@,
                                pre.stack.frames@.last().locals@,
                            ) && bind_args_case(fparams@, args@, 0, entry, bound, bres, fuel) && (
                            match bres {
                                Err(e) => r == Err::<Type, EvalError>(e) && post.output@
                                    == bound.output@,
                                Ok(u) => exists|left: Interpreter|
                                    #[trigger] state_witness(left) && eval_block_case(
                                        block@,
                                        0,
                                        Option::<Type>::None,
                                        bound,
                                        left,
                                        r,
                                        (fuel - 1) as nat,
                                    ) && post.output@ == left.output@,
                            })
                    },
                    _ => (r matches Err(e) && e.kind == ErrorKind::Value && e.message@
                        == "Value error: "@ + name.value@ + " is not callable"@) && post.output@
                        == pre.output@,
                },
            })
        },
    }
}

/// Evaluating a list of operand nodes from index `i`, left to right: every
/// node evaluates in turn from the state the one before it left, the values
/// come back in order, and the first failure is the result.
pub open spec fn eval_args_case(
    nodes: Seq<Node>,
    i: int,
    pre: Interpreter,
    post: Interpreter,
    out: Result<Seq<Type>, EvalError>,
    fuel: nat,
) -> bool
    decreases fuel, nodes, nodes.len() - i,
{
    if i >= nodes.len() || i < 0 {
        state_eq(post, pre) && (out matches Ok(vs) && vs.len() == 0)
    } else {
        exists|mid: Interpreter, sr: Result<Type, EvalError>|
            #[trigger] step_witness(mid, sr) && eval_case(nodes[i], pre, mid, sr, fuel) && evolves(
                pre,
                mid,
            ) && (match sr {
                Err(e) => out == Err::<Seq<Type>, EvalError>(e) && state_eq(post, mid),
                Ok(v) => match out {
                    Ok(vs) => vs.len() > 0 && vs[0] == v && eval_args_case(
                        nodes,
                        i + 1,
                        mid,
                        post,
                        Ok(vs.skip(1)),
                        fuel,
                    ),
                    Err(_) => eval_args_case(nodes, i + 1, mid, post, out, fuel),
                },
            })
    }
}

/// Evaluating the statements of a block from index `i`, in order, skipping
/// placeholders, with `prev` the value of the last statement already
/// evaluated: the result is the last non-placeholder statement's value, an
/// error if a block holds no such statement, or the first failure.
pub open spec fn eval_block_case(
    body: Seq<Node>,
    i: int,
    prev: Option<Type>,
    pre: Interpreter,
    post: Interpreter,
    r: Result<Type, EvalError>,
    fuel: nat,
) -> bool
    decreases fuel, body, body.len() - i,
{
    if i >= body.len() || i < 0 {
        state_eq(post, pre) && (match prev {
            Some(v) => r == Ok::<Type, EvalError>(v),
            None => r matches Err(e) && e.kind == ErrorKind::Value && e.message@
                == "Value error: the block has no result"@,
        })
    } else if *body[i].operation is Empty {
        eval_block_case(body, i + 1, prev, pre, post, r, fuel)
    } else {
        exists|mid: Interpreter, sr: Result<Type, EvalError>|
            #[trigger] step_witness(mid, sr) && eval_case(body[i], pre, mid, sr, fuel) && evolves(
                pre,
                mid,
            ) && (match sr {
                Err(e) => r == Err::<Type, EvalError>(e) && state_eq(post, mid),
                Ok(v) => eval_block_case(body, i + 1, Some(v), mid, post, r, fuel),
            })
    }
}

/// Binding a call's parameters from index `i`: each remaining declared
/// parameter, as long as an argument is left for it, is bound in the current
/// frame's parameter namespace to its argument evaluated in turn; the first
/// failure is the result.
pub open spec fn bind_args_case(
    fparams: Seq<Node>,
    args: Seq<Node>,
    i: int,
    pre: Interpreter,
    post: Interpreter,
    r: Result<(), EvalError>,
    fuel: nat,
) -> bool
    decreases fuel, args, args.len() - i,
{
    let n: int = if fparams.len() < args.len() {
        fparams.len() as int
    } else {
        args.len() as int
    };
    if i >= n || i < 0 {
        state_eq(post, pre) && r is Ok
    } else {
        exists|mid: Interpreter, ar: Result<Type, EvalError>|
            #[trigger] bind_witness(mid, ar) && eval_case(args[i], pre, mid, ar, fuel) && evolves(
                pre,
                mid,
            ) && (match ar {
                Err(e) => r == Err::<(), EvalError>(e) && state_eq(post, mid),
                Ok(v) => exists|stepped: Interpreter|
                    #[trigger] state_witness(stepped) && bind_args_case(
                        fparams,
                        args,
                        i + 1,
                        stepped,
                        post,
                        r,
                        fuel,
                    ) && stepped.output@ == mid.output@ && stepped.stack.frames@.len()
                        == mid.stack.frames@.len() && stepped.stack.frames@.drop_last()
                        == mid.stack.frames@.drop_last() && stepped.stack.frames@.last().ilocals@
                        == mid.stack.frames@.last().ilocals@ && stepped.stack.frames@.last()
                        .locals@.len() == mid.stack.frames@.last().locals@.len() + 1
                        && stepped.stack.frames@.last().locals@.drop_last() == mid.stack.frames@
                        .last().locals@ && stepped.stack.frames@.last().locals@.last().name@
                        == fparams[i].value@ && stepped.stack.frames@.last().locals@.last().value
                        == v,
            })
    }
}

/// How deeply function calls may nest before evaluation reports an error
/// instead of exhausting the machine's stack: each nested call costs host
/// stack space, so the bound is what keeps runaway recursion a recoverable
/// error rather than an abort.
pub const CALL_DEPTH_LIMIT: u64 = 256;

/// The evaluator: a stack of binding frames shared across evaluation calls,
/// and the lines printed so far, buffered for the caller to emit.
#[derive(Debug)]
pub struct Interpreter {
    pub stack: FrameStack,
    pub output: Vec<String>,
}

/// What every evaluation step keeps: a well-formed stack of unchanged depth,
/// every frame below the top untouched, the top frame's bindings only
/// extended, and the printed lines only appended to.
pub open spec fn evolves(pre: Interpreter, post: Interpreter) -> bool {
    &&& post.stack.wf()
    &&& post.stack.frames@.len() == pre.stack.frames@.len()
    &&& post.stack.frames@.drop_last() == pre.stack.frames@.drop_last()
    &&& pre.stack.frames@.last().ilocals@.is_prefix_of(post.stack.frames@.last().ilocals@)
    &&& pre.stack.frames@.last().locals@.is_prefix_of(post.stack.frames@.last().locals@)
    &&& pre.output@.is_prefix_of(post.output@)
}

/// Evaluation steps chain.
pub proof fn lemma_evolves_trans(a: Interpreter, b: Interpreter, c: Interpreter)
    requires
        evolves(a, b),
        evolves(b, c),
    ensures
        evolves(a, c),
{
    crate::frame::lemma_prefix_trans(
        a.stack.frames@.last().ilocals@,
        b.stack.frames@.last().ilocals@,
        c.stack.frames@.last().ilocals@,
    );
    crate::frame::lemma_prefix_trans(
        a.stack.frames@.last().locals@,
        b.stack.frames@.last().locals@,
        c.stack.frames@.last().locals@,
    );
    crate::frame::lemma_prefix_trans(a.output@, b.output@, c.output@);
}

/// Nothing changed is an evaluation step too.
pub proof fn lemma_evolves_refl(a: Interpreter)
    requires
        a.stack.wf(),
    ensures
        evolves(a, a),
{
    assert(a.stack.frames@.last().ilocals@ =~= a.stack.frames@.last().ilocals@.subrange(
        0,
        a.stack.frames@.last().ilocals@.len() as int,
    ));
    assert(a.stack.frames@.last().locals@ =~= a.stack.frames@.last().locals@.subrange(
        0,
        a.stack.frames@.last().locals@.len() as int,
    ));
    assert(a.output@ =~= a.output@.subrange(0, a.output@.len() as int));
}

impl Interpreter {
    /// The stack always holds the session's root frame.
    pub open spec fn wf(&self) -> bool {
        self.stack.wf()
    }

    /// A fresh evaluator: one root frame, nothing printed.
    pub fn new() -> (r: Interpreter)
        ensures
            r.wf(),
            r.stack.frames@.len() == 1,
            r.stack.frames@[0].ilocals@.len() == 0,
            r.stack.frames@[0].locals@.len() == 0,
            r.output@.len() == 0,
    {
        Interpreter { stack: FrameStack::new(), output: Vec::new() }
    }

    /// The current scope: the top of the frame stack.
    pub fn scope(&mut self) -> (r: &mut Frame)
        requires
            old(self).wf(),
        ensures
            *r == old(self).stack.frames@.last(),
            final(self).stack.frames@ == old(self).stack.frames@.update(
                old(self).stack.frames@.len() - 1,
                *final(r),
            ),
            final(self).output == old(self).output,
    {
        self.stack.current()
    }

    /// Evaluates a tree to its textual result: the rendering of the value an
    /// evaluation of the tree yields, or that evaluation's error message,
    /// verbatim.
    pub fn eval(&mut self, tree: Node) -> (r: String)
        requires
            old(self).wf(),
        ensures
            evolves(*old(self), *final(self)),
            exists|res: Result<Type, EvalError>|
                #[trigger] eval_case(tree, *old(self), *final(self), res, CALL_DEPTH_LIMIT as nat)
                    && (match res {
                    Ok(v) => r@ == spec_render(v@),
                    Err(e) => r@ == e.message@,
                }),
    {
        let res = self.eval_tree(&tree);
        match res {
            Ok(result) => result.to_string(),
            Err(error) => error.message,
        }
    }

    /// Evaluates a tree against the current frame stack, with the default
    /// call-depth bound.
    pub fn eval_tree(&mut self, tree: &Node) -> (r: Result<Type, EvalError>)
        requires
            old(self).wf(),
        ensures
            evolves(*old(self), *final(self)),
            eval_case(*tree, *old(self), *final(self), r, CALL_DEPTH_LIMIT as nat),
    {
        self.eval_node(tree, CALL_DEPTH_LIMIT)
    }

    /// Walks one node: the state machine over node kinds.
    #[verifier::loop_isolation(false)]
    #[verifier::rlimit(100)]
    fn eval_node(&mut self, tree: &Node, fuel: u64) -> (r: Result<Type, EvalError>)
        requires
            old(self).wf(),
        ensures
            evolves(*old(self), *final(self)),
            eval_case(*tree, *old(self), *final(self), r, fuel as nat),
        decreases fuel, *tree, 2int,
    {
        let ghost pre = *self;
        proof {
            lemma_evolves_refl(pre);
        }
        match &*tree.operation {
            Operation::Main(statements) => self.eval_node(statements, fuel),
            Operation::Constant(var) => Ok(var.duplicate()),
            Operation::Empty => Ok(Type::Nil),
            Operation::Identifier(name) => {
                let found = match self.stack.top().get(name) {
                    Some(v) => Some(v.duplicate()),
                    None => None,
                };
                match found {
                    Some(v) => Ok(v),
                    None => {
                        let msg = String::from_str("Variable ").concat(name.as_str()).concat(
                            " doesn't exist in this context",
                        );
                        proof {
                            assert(msg@ =~= "Variable "@ + name@
                                + " doesn't exist in this context"@);
                        }
                        Err(EvalError::value_error(msg))
                    },
                }
            },
            Operation::Operator(tok, statements) => {
                let vals = match self.eval_args(statements, 0, fuel) {
                    Ok(v) => v,
                    Err(e) => {
                        proof {
                            assert(eval_args_case(
                                statements@,
                                0,
                                pre,
                                *self,
                                Err::<Seq<Type>, EvalError>(e),
                                fuel as nat,
                            ));
                            assert(state_eq(*self, *self));
                            assert(args_witness(*self, Err::<Seq<Type>, EvalError>(e)));
                            assert(eval_case(*tree, pre, *self, Err::<Type, EvalError>(e), fuel as nat));
                        }
                        return Err(e);
                    },
                };
                let ghost mid = *self;
                let ghost vseq = vals@;
                let r = exec_operator(tok.clone(), vals);
                proof {
                    assert(eval_args_case(statements@, 0, pre, mid, Ok(vseq), fuel as nat));
                    assert(operator_outcome(tok@, vals_view(vseq), r));
                    assert(state_eq(*self, mid));
                    assert(args_witness(mid, Ok::<Seq<Type>, EvalError>(vseq)));
                    assert(eval_case(*tree, pre, *self, r, fuel as nat));
                }
                r
            },
            Operation::Comparison(tok, statements) => {
                let vals = match self.eval_args(statements, 0, fuel) {
                    Ok(v) => v,
                    Err(e) => {
                        proof {
                            assert(eval_args_case(
                                statements@,
                                0,
                                pre,
                                *self,
                                Err::<Seq<Type>, EvalError>(e),
                                fuel as nat,
                            ));
                            assert(state_eq(*self, *self));
                            assert(args_witness(*self, Err::<Seq<Type>, EvalError>(e)));
                            assert(eval_case(*tree, pre, *self, Err::<Type, EvalError>(e), fuel as nat));
                        }
                        return Err(e);
                    },
                };
                let ghost mid = *self;
                let ghost vseq = vals@;
                let r = exec_comparison(tok.clone(), vals);
                proof {
                    assert(eval_args_case(statements@, 0, pre, mid, Ok(vseq), fuel as nat));
                    assert(comparison_outcome(tok@, vals_view(vseq), r));
                    assert(state_eq(*self, mid));
                    assert(args_witness(mid, Ok::<Seq<Type>, EvalError>(vseq)));
                    assert(eval_case(*tree, pre, *self, r, fuel as nat));
                }
                r
            },
            Operation::Logical(tok, statements) => {
                let vals = match self.eval_args(statements, 0, fuel) {
                    Ok(v) => v,
                    Err(e) => {
                        proof {
                            assert(eval_args_case(
                                statements@,
                                0,
                                pre,
                                *self,
                                Err::<Seq<Type>, EvalError>(e),
                                fuel as nat,
                            ));
                            assert(state_eq(*self, *self));
                            assert(args_witness(*self, Err::<Seq<Type>, EvalError>(e)));
                            assert(eval_case(*tree, pre, *self, Err::<Type, EvalError>(e), fuel as nat));
                        }
                        return Err(e);
                    },
                };
                let ghost mid = *self;
                let ghost vseq = vals@;
                let r = exec_logical(tok.clone(), vals);
                proof {
                    assert(eval_args_case(statements@, 0, pre, mid, Ok(vseq), fuel as nat));
                    assert(logical_outcome(tok@, vals_view(vseq), r));
                    assert(state_eq(*self, mid));
                    assert(args_witness(mid, Ok::<Seq<Type>, EvalError>(vseq)));
                    assert(eval_case(*tree, pre, *self, r, fuel as nat));
                }
                r
            },
            Operation::When(condition, body) => {
                let c = match self.eval_node(condition, fuel) {
                    Ok(v) => v,
                    Err(e) => {
                        proof {
                            assert(eval_case(
                                *condition,
                                pre,
                                *self,
                                Err::<Type, EvalError>(e),
                                fuel as nat,
                            ));
                            assert(state_eq(*self, *self));
                            assert(step_witness(*self, Err::<Type, EvalError>(e)));
                            assert(eval_case(*tree, pre, *self, Err::<Type, EvalError>(e), fuel as nat));
                        }
                        return Err(e);
                    },
                };
                let ghost mid = *self;
                let ghost gc = c;
                match c.truthiness() {
                    None => {
                        let r = Err(
                            EvalError::type_error(
                                String::from_str("Value error: type cannot be used as boolean"),
                            ),
                        );
                        proof {
                            assert(eval_case(*condition, pre, mid, Ok(gc), fuel as nat));
                            assert(step_witness(mid, Ok::<Type, EvalError>(gc)));
                            assert(state_eq(*self, mid));
                            assert(eval_case(*tree, pre, *self, r, fuel as nat));
                        }
                        r
                    },
                    Some(false) => {
                        proof {
                            assert(eval_case(*condition, pre, mid, Ok(gc), fuel as nat));
                            assert(step_witness(mid, Ok::<Type, EvalError>(gc)));
                            assert(state_eq(*self, mid));
                        }
                        Ok(Type::Nil)
                    },
                    Some(true) => {
                        let r = self.eval_block_from(body, 0, None, fuel);
                        proof {
                            assert(eval_case(*condition, pre, mid, Ok(gc), fuel as nat));
                            assert(step_witness(mid, Ok::<Type, EvalError>(gc)));
                            lemma_evolves_trans(pre, mid, *self);
                            assert(eval_case(*tree, pre, *self, r, fuel as nat));
                        }
                        r
                    },
                }
            },
            Operation::IfElse(condition, nodes) => {
                let c = match self.eval_node(condition, fuel) {
                    Ok(v) => v,
                    Err(e) => {
                        proof {
                            assert(eval_case(
                                *condition,
                                pre,
                                *self,
                                Err::<Type, EvalError>(e),
                                fuel as nat,
                            ));
                            assert(state_eq(*self, *self));
                            assert(step_witness(*self, Err::<Type, EvalError>(e)));
                            assert(eval_case(*tree, pre, *self, Err::<Type, EvalError>(e), fuel as nat));
                        }
                        return Err(e);
                    },
                };
                let ghost mid = *self;
                let ghost gc = c;
                match c.truthiness() {
                    None => {
                        let r = Err(
                            EvalError::type_error(
                                String::from_str("Value error: type cannot be used as boolean"),
                            ),
                        );
                        proof {
                            assert(eval_case(*condition, pre, mid, Ok(gc), fuel as nat));
                            assert(step_witness(mid, Ok::<Type, EvalError>(gc)));
                            assert(state_eq(*self, mid));
                            assert(eval_case(*tree, pre, *self, r, fuel as nat));
                        }
                        r
                    },
                    Some(cond) => {
                        let idx: usize = if cond {
                            0
                        } else {
                            1
                        };
                        if idx < nodes.len() {
                            let r = self.eval_node(&nodes[idx], fuel);
                            proof {
                                assert(eval_case(*condition, pre, mid, Ok(gc), fuel as nat));
                            assert(step_witness(mid, Ok::<Type, EvalError>(gc)));
                                assert(eval_case(nodes@[idx as int], mid, *self, r, fuel as nat));
                                lemma_evolves_trans(pre, mid, *self);
                                assert(eval_case(*tree, pre, *self, r, fuel as nat));
                            }
                            r
                        } else {
                            let r = Err(
                                EvalError::syntax(
                                    String::from_str(
                                        "Syntax error: the conditional is missing a branch",
                                    ),
                                ),
                            );
                            proof {
                                assert(eval_case(*condition, pre, mid, Ok(gc), fuel as nat));
                            assert(step_witness(mid, Ok::<Type, EvalError>(gc)));
                                assert(state_eq(*self, mid));
                                assert(eval_case(*tree, pre, *self, r, fuel as nat));
                            }
                            r
                        }
                    },
                }
            },
            Operation::Assign(name, nodes) => {
                let value = match self.eval_node(nodes, fuel) {
                    Ok(v) => v,
                    Err(e) => {
                        proof {
                            assert(eval_case(
                                *nodes,
                                pre,
                                *self,
                                Err::<Type, EvalError>(e),
                                fuel as nat,
                            ));
                            assert(state_eq(*self, *self));
                            assert(step_witness(*self, Err::<Type, EvalError>(e)));
                            assert(eval_case(*tree, pre, *self, Err::<Type, EvalError>(e), fuel as nat));
                        }
                        return Err(e);
                    },
                };
                let ghost mid = *self;
                let ghost gv = value;
                let var_name = name.value.clone();
                let msg = String::from_str("Value error: variable ").concat(var_name.as_str())
                    .concat(" has already defined.");
                proof {
                    assert(msg@ =~= "Value error: variable "@ + name.value@
                        + " has already defined."@);
                }
                let scope = self.stack.current();
                if scope.has(&var_name) {
                    let r = Err(EvalError::value_error(msg));
                    proof {
                        assert(self.stack.frames@ =~= mid.stack.frames@);
                        assert(state_eq(*self, mid));
                        assert(eval_case(*nodes, pre, mid, Ok(gv), fuel as nat));
                    assert(step_witness(mid, Ok::<Type, EvalError>(gv)));
                        assert(eval_case(*tree, pre, *self, r, fuel as nat));
                    }
                    return r;
                }
                scope.insert(var_name, value);
                proof {
                    assert(self.stack.frames@.last().ilocals@.last().name@ == name.value@);
                    assert(self.stack.frames@.last().ilocals@.last().value == gv);
                    assert(self.stack.frames@.last().ilocals@.drop_last() =~= mid.stack.frames@
                        .last().ilocals@);
                    assert(self.stack.frames@.drop_last() =~= mid.stack.frames@.drop_last());
                    assert(mid.stack.frames@.last().ilocals@.is_prefix_of(
                        self.stack.frames@.last().ilocals@,
                    )) by {
                        assert(mid.stack.frames@.last().ilocals@ =~= self.stack.frames@.last()
                            .ilocals@.subrange(
                            0,
                            mid.stack.frames@.last().ilocals@.len() as int,
                        ));
                    }
                    crate::frame::lemma_prefix_refl(self.stack.frames@.last().locals@);
                    crate::frame::lemma_prefix_refl(self.output@);
                    lemma_evolves_trans(pre, mid, *self);
                    assert(eval_case(*nodes, pre, mid, Ok(gv), fuel as nat));
                    assert(step_witness(mid, Ok::<Type, EvalError>(gv)));
                    assert(eval_case(*tree, pre, *self, Ok::<Type, EvalError>(Type::Nil), fuel as nat));
                }
                Ok(Type::Nil)
            },
            Operation::StdOut(stm) => {
                let result = match self.eval_node(stm, fuel) {
                    Ok(v) => v,
                    Err(e) => {
                        proof {
                            assert(eval_case(
                                *stm,
                                pre,
                                *self,
                                Err::<Type, EvalError>(e),
                                fuel as nat,
                            ));
                            assert(state_eq(*self, *self));
                            assert(step_witness(*self, Err::<Type, EvalError>(e)));
                            assert(eval_case(*tree, pre, *self, Err::<Type, EvalError>(e), fuel as nat));
                        }
                        return Err(e);
                    },
                };
                let ghost mid = *self;
                let ghost gv = result;
                let line = result.to_string();
                self.output.push(line);
                proof {
                    assert(self.output@.drop_last() =~= mid.output@);
                    assert(self.output@.last()@ == spec_render(gv@));
                    assert(mid.output@.is_prefix_of(self.output@)) by {
                        assert(mid.output@ =~= self.output@.subrange(
                            0,
                            mid.output@.len() as int,
                        ));
                    }
                    crate::frame::lemma_prefix_refl(self.stack.frames@.last().ilocals@);
                    crate::frame::lemma_prefix_refl(self.stack.frames@.last().locals@);
                    lemma_evolves_trans(pre, mid, *self);
                    assert(eval_case(*stm, pre, mid, Ok(gv), fuel as nat));
                    assert(step_witness(mid, Ok::<Type, EvalError>(gv)));
                    assert(eval_case(*tree, pre, *self, Ok::<Type, EvalError>(Type::Nil), fuel as nat));
                }
                Ok(Type::Nil)
            },
            Operation::DefineFunction(name, func) => {
                let var_name = name.value.clone();
                let f = func.duplicate();
                let msg = String::from_str("Value error: variable ").concat(var_name.as_str())
                    .concat(" has already defined.");
                proof {
                    assert(msg@ =~= "Value error: variable "@ + name.value@
                        + " has already defined."@);
                }
                let scope = self.stack.current();
                if scope.has(&var_name) {
                    proof {
                        assert(self.stack.frames@ =~= pre.stack.frames@);
                    }
                    return Err(EvalError::value_error(msg));
                }
                scope.insert(var_name, f);
                proof {
                    assert(self.stack.frames@.last().ilocals@.drop_last() =~= pre.stack.frames@
                        .last().ilocals@);
                    assert(self.stack.frames@.drop_last() =~= pre.stack.frames@.drop_last());
                    assert(pre.stack.frames@.last().ilocals@.is_prefix_of(
                        self.stack.frames@.last().ilocals@,
                    )) by {
                        assert(pre.stack.frames@.last().ilocals@ =~= self.stack.frames@.last()
                            .ilocals@.subrange(
                            0,
                            pre.stack.frames@.last().ilocals@.len() as int,
                        ));
                    }
                    crate::frame::lemma_prefix_refl(self.stack.frames@.last().locals@);
                    crate::frame::lemma_prefix_refl(self.output@);
                }
                Ok(Type::Nil)
            },
            Operation::CallFunction(name, params) => {
                let ghost pre_top = pre.stack.frames@.last();
                let copy = self.stack.top().duplicate();
                let ghost copyg = copy;
                self.stack.push(copy);
                let ghost entry = *self;
                proof {
                    assert(entry.stack.frames@.drop_last() =~= pre.stack.frames@);
                }
                let callee = match self.stack.top().get(&name.value) {
                    Some(v) => Some(v.duplicate()),
                    None => None,
                };
                proof {
                    crate::frame::lemma_lookup_like(copyg.locals@, pre_top.locals@, name.value@);
                    crate::frame::lemma_lookup_like(copyg.ilocals@, pre_top.ilocals@, name.value@);
                    assert(match (copyg.spec_get(name.value@), pre_top.spec_get(name.value@)) {
                        (Some(x), Some(y)) => x@ == y@,
                        (None, None) => true,
                        _ => false,
                    });
                }
                match callee {
                    Some(Type::Func(fparams, block)) => {
                        if fuel == 0 {
                            self.stack.pop();
                            let msg = String::from_str("Value error: call depth exceeded");
                            proof {
                                assert(self.stack.frames@ =~= pre.stack.frames@);
                                lemma_evolves_refl(pre);
                            }
                            return Err(EvalError::value_error(msg));
                        }
                        let br = self.bind_args(&fparams, &params, 0, fuel);
                        let ghost bound = *self;
                        proof {
                            assert(bind_args_case(
                                fparams@,
                                params@,
                                0,
                                entry,
                                bound,
                                br,
                                fuel as nat,
                            ));
                            assert(bound.stack.frames@.drop_last() =~= pre.stack.frames@);
                        }
                        match br {
                            Err(e) => {
                                self.stack.pop();
                                proof {
                                    assert(self.stack.frames@ =~= pre.stack.frames@);
                                    crate::frame::lemma_prefix_refl(
                                        self.stack.frames@.last().ilocals@,
                                    );
                                    crate::frame::lemma_prefix_refl(
                                        self.stack.frames@.last().locals@,
                                    );
                                    crate::frame::lemma_prefix_trans(
                                        pre.output@,
                                        entry.output@,
                                        self.output@,
                                    );
                                    assert(call_witness(fparams, block, entry, bound, br));
                                    assert(eval_case(
                                        *tree,
                                        pre,
                                        *self,
                                        Err::<Type, EvalError>(e),
                                        fuel as nat,
                                    ));
                                }
                                Err(e)
                            },
                            Ok(()) => {
                                let r = self.eval_block_from(&block, 0, None, fuel - 1);
                                let ghost left = *self;
                                proof {
                                    assert(eval_block_case(
                                        block@,
                                        0,
                                        Option::<Type>::None,
                                        bound,
                                        left,
                                        r,
                                        (fuel - 1) as nat,
                                    ));
                                    assert(left.stack.frames@.drop_last() =~= pre.stack.frames@);
                                }
                                self.stack.pop();
                                proof {
                                    assert(self.stack.frames@ =~= pre.stack.frames@);
                                    crate::frame::lemma_prefix_refl(
                                        self.stack.frames@.last().ilocals@,
                                    );
                                    crate::frame::lemma_prefix_refl(
                                        self.stack.frames@.last().locals@,
                                    );
                                    crate::frame::lemma_prefix_trans(
                                        pre.output@,
                                        bound.output@,
                                        self.output@,
                                    );
                                    assert(call_witness(fparams, block, entry, bound, br));
                                    assert(state_witness(left));
                                    assert(eval_case(*tree, pre, *self, r, fuel as nat));
                                }
                                r
                            },
                        }
                    },
                    _ => {
                        self.stack.pop();
                        let msg = String::from_str("Value error: ").concat(name.value.as_str())
                            .concat(" is not callable");
                        proof {
                            assert(msg@ =~= "Value error: "@ + name.value@ + " is not callable"@);
                            assert(self.stack.frames@ =~= pre.stack.frames@);
                            lemma_evolves_refl(pre);
                        }
                        Err(EvalError::value_error(msg))
                    },
                }
            },
        }
    }

    /// Evaluates the operand nodes from `from` on, left to right, stopping
    /// at the first error.
    fn eval_args(&mut self, nodes: &Vec<Node>, from: usize, fuel: u64) -> (r: Result<
        Vec<Type>,
        EvalError,
    >)
        requires
            old(self).wf(),
            from <= nodes@.len(),
        ensures
            evolves(*old(self), *final(self)),
            (match r {
                Ok(vs) => eval_args_case(
                    nodes@,
                    from as int,
                    *old(self),
                    *final(self),
                    Ok(vs@),
                    fuel as nat,
                ),
                Err(e) => eval_args_case(
                    nodes@,
                    from as int,
                    *old(self),
                    *final(self),
                    Err(e),
                    fuel as nat,
                ),
            }),
        decreases fuel, nodes@, nodes@.len() - from,
    {
        let ghost pre = *self;
        proof {
            lemma_evolves_refl(pre);
        }
        if from >= nodes.len() {
            let empty: Vec<Type> = Vec::new();
            proof {
                assert(empty@.len() == 0);
                assert(state_eq(*self, pre));
            }
            return Ok(empty);
        }
        let first = match self.eval_node(&nodes[from], fuel) {
            Ok(v) => v,
            Err(e) => {
                proof {
                    assert(eval_case(
                        nodes@[from as int],
                        pre,
                        *self,
                        Err::<Type, EvalError>(e),
                        fuel as nat,
                    ));
                    assert(state_eq(*self, *self));
                    assert(step_witness(*self, Err::<Type, EvalError>(e)));
                    assert(eval_args_case(
                        nodes@,
                        from as int,
                        pre,
                        *self,
                        Err::<Seq<Type>, EvalError>(e),
                        fuel as nat,
                    ));
                }
                return Err(e);
            },
        };
        let ghost mid = *self;
        let ghost gfirst = first;
        let rest = match self.eval_args(nodes, from + 1, fuel) {
            Ok(vs) => vs,
            Err(e) => {
                proof {
                    lemma_evolves_trans(pre, mid, *self);
                    assert(eval_case(nodes@[from as int], pre, mid, Ok(gfirst), fuel as nat));
            assert(step_witness(mid, Ok::<Type, EvalError>(gfirst)));
                    assert(eval_args_case(
                        nodes@,
                        from + 1,
                        mid,
                        *self,
                        Err::<Seq<Type>, EvalError>(e),
                        fuel as nat,
                    ));
                    assert(eval_args_case(
                        nodes@,
                        from as int,
                        pre,
                        *self,
                        Err::<Seq<Type>, EvalError>(e),
                        fuel as nat,
                    ));
                }
                return Err(e);
            },
        };
        let ghost grest = rest@;
        let mut out: Vec<Type> = Vec::new();
        out.push(first);
        let mut tail = rest;
        out.append(&mut tail);
        proof {
            lemma_evolves_trans(pre, mid, *self);
            assert(out@ =~= seq![gfirst] + grest);
            assert(out@[0] == gfirst);
            assert(out@.skip(1) =~= grest);
            assert(eval_case(nodes@[from as int], pre, mid, Ok(gfirst), fuel as nat));
            assert(step_witness(mid, Ok::<Type, EvalError>(gfirst)));
            assert(eval_args_case(nodes@, from + 1, mid, *self, Ok(grest), fuel as nat));
            assert(eval_args_case(nodes@, from as int, pre, *self, Ok(out@), fuel as nat));
        }
        Ok(out)
    }

    /// Evaluates the statements of a block from `from` on, in order,
    /// skipping placeholders; the result is the last non-placeholder
    /// statement's value, carried in from earlier statements through `prev`.
    fn eval_block_from(
        &mut self,
        body: &Vec<Node>,
        from: usize,
        prev: Option<Type>,
        fuel: u64,
    ) -> (r: Result<Type, EvalError>)
        requires
            old(self).wf(),
            from <= body@.len(),
        ensures
            evolves(*old(self), *final(self)),
            eval_block_case(
                body@,
                from as int,
                prev,
                *old(self),
                *final(self),
                r,
                fuel as nat,
            ),
        decreases fuel, body@, body@.len() - from,
    {
        let ghost pre = *self;
        proof {
            lemma_evolves_refl(pre);
        }
        if from >= body.len() {
            proof {
                assert(state_eq(*self, pre));
            }
            return match prev {
                Some(v) => Ok(v),
                None => Err(
                    EvalError::value_error(
                        String::from_str("Value error: the block has no result"),
                    ),
                ),
            };
        }
        let skip = match &*body[from].operation {
            Operation::Empty => true,
            _ => false,
        };
        if skip {
            return self.eval_block_from(body, from + 1, prev, fuel);
        }
        let v = match self.eval_node(&body[from], fuel) {
            Ok(v) => v,
            Err(e) => {
                proof {
                    assert(eval_case(
                        body@[from as int],
                        pre,
                        *self,
                        Err::<Type, EvalError>(e),
                        fuel as nat,
                    ));
                    assert(state_eq(*self, *self));
                    assert(step_witness(*self, Err::<Type, EvalError>(e)));
                    assert(eval_block_case(
                        body@,
                        from as int,
                        prev,
                        pre,
                        *self,
                        Err::<Type, EvalError>(e),
                        fuel as nat,
                    ));
                }
                return Err(e);
            },
        };
        let ghost mid = *self;
        let ghost gv = v;
        let r = self.eval_block_from(body, from + 1, Some(v), fuel);
        proof {
            lemma_evolves_trans(pre, mid, *self);
            assert(eval_case(body@[from as int], pre, mid, Ok(gv), fuel as nat));
            assert(step_witness(mid, Ok::<Type, EvalError>(gv)));
            assert(eval_block_case(body@, from + 1, Some(gv), mid, *self, r, fuel as nat));
            assert(eval_block_case(body@, from as int, prev, pre, *self, r, fuel as nat));
        }
        r
    }

    /// Binds a call's declared parameters from `from` on, as long as an
    /// argument is left for each, to the arguments evaluated in turn.
    fn bind_args(
        &mut self,
        fparams: &Vec<Node>,
        args: &Vec<Node>,
        from: usize,
        fuel: u64,
    ) -> (r: Result<(), EvalError>)
        requires
            old(self).wf(),
        ensures
            evolves(*old(self), *final(self)),
            bind_args_case(
                fparams@,
                args@,
                from as int,
                *old(self),
                *final(self),
                r,
                fuel as nat,
            ),
        decreases fuel, args@, args@.len() - from,
    {
        let ghost pre = *self;
        proof {
            lemma_evolves_refl(pre);
        }
        let n = if fparams.len() < args.len() {
            fparams.len()
        } else {
            args.len()
        };
        if from >= n {
            proof {
                assert(state_eq(*self, pre));
            }
            return Ok(());
        }
        let value = match self.eval_node(&args[from], fuel) {
            Ok(v) => v,
            Err(e) => {
                proof {
                    assert(eval_case(
                        args@[from as int],
                        pre,
                        *self,
                        Err::<Type, EvalError>(e),
                        fuel as nat,
                    ));
                    assert(state_eq(*self, *self));
                    assert(bind_witness(*self, Err::<Type, EvalError>(e)));
                    assert(bind_args_case(
                        fparams@,
                        args@,
                        from as int,
                        pre,
                        *self,
                        Err::<(), EvalError>(e),
                        fuel as nat,
                    ));
                }
                return Err(e);
            },
        };
        let ghost mid = *self;
        let ghost gv = value;
        let pname = fparams[from].value.clone();
        let scope = self.stack.current();
        scope.insert_param(pname, value);
        let ghost stepped = *self;
        proof {
            assert(stepped.stack.frames@.last().locals@.drop_last() =~= mid.stack.frames@.last()
                .locals@);
            assert(stepped.stack.frames@.drop_last() =~= mid.stack.frames@.drop_last());
            assert(stepped.stack.frames@.last().locals@.last().value == gv);
            assert(mid.stack.frames@.last().locals@.is_prefix_of(
                stepped.stack.frames@.last().locals@,
            )) by {
                assert(mid.stack.frames@.last().locals@ =~= stepped.stack.frames@.last()
                    .locals@.subrange(
                    0,
                    mid.stack.frames@.last().locals@.len() as int,
                ));
            }
            crate::frame::lemma_prefix_refl(stepped.stack.frames@.last().ilocals@);
            crate::frame::lemma_prefix_refl(stepped.output@);
            lemma_evolves_trans(pre, mid, stepped);
        }
        let r = self.bind_args(fparams, args, from + 1, fuel);
        proof {
            lemma_evolves_trans(pre, stepped, *self);
            assert(eval_case(args@[from as int], pre, mid, Ok(gv), fuel as nat));
            assert(bind_witness(mid, Ok::<Type, EvalError>(gv)));
            assert(state_witness(stepped));
            assert(bind_args_case(fparams@, args@, from + 1, stepped, *self, r, fuel as nat));
            assert(bind_args_case(fparams@, args@, from as int, pre, *self, r, fuel as nat));
        }
        r
    }
}

} // verus!
