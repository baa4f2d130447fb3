//! The runtime value model: the dynamically typed `Type`, its rendering,
//! its truthiness, and its arithmetic, comparison and logical algebra.

use vstd::prelude::*;

use crate::ast::{node_view, nodes_view, Node, NodeV, Operation};
use crate::token::{spec_classify, spec_reserved, word_is, Kind, Token, TokenV};

verus! {

/// True of the ten decimal digit characters.
pub open spec fn is_digit(c: char) -> bool {
    '0' <= c && c <= '9'
}

/// The numeric value of a digit character.
pub open spec fn digit_val(c: char) -> int {
    c as int - '0' as int
}

/// The digit character for a value between zero and nine.
pub open spec fn digit_char(d: int) -> char {
    if d == 0 {
        '0'
    } else if d == 1 {
        '1'
    } else if d == 2 {
        '2'
    } else if d == 3 {
        '3'
    } else if d == 4 {
        '4'
    } else if d == 5 {
        '5'
    } else if d == 6 {
        '6'
    } else if d == 7 {
        '7'
    } else if d == 8 {
        '8'
    } else {
        '9'
    }
}

/// The canonical decimal digits of a non-negative number, most significant
/// first, with no leading zeros (zero itself is one digit).
pub open spec fn dec_digits(n: nat) -> Seq<char>
    decreases n,
{
    if n < 10 {
        seq![digit_char(n as int)]
    } else {
        dec_digits(n / 10).push(digit_char((n % 10) as int))
    }
}

/// The canonical decimal text of an integer: a minus sign before the digits
/// of its magnitude when negative.
pub open spec fn spec_int_text(i: int) -> Seq<char> {
    if i < 0 {
        seq!['-'] + dec_digits((-i) as nat)
    } else {
        dec_digits(i as nat)
    }
}

/// True when every character is a decimal digit.
pub open spec fn all_digits(s: Seq<char>) -> bool {
    forall|i: int| 0 <= i < s.len() ==> is_digit(#[trigger] s[i])
}

/// The number a digit string denotes, most significant digit first.
pub open spec fn dec_val(s: Seq<char>) -> int
    decreases s.len(),
{
    if s.len() == 0 {
        0
    } else {
        dec_val(s.drop_last()) * 10 + digit_val(s.last())
    }
}

/// What parsing an integer literal yields: an optional sign, then at least
/// one digit, and a value that fits a 64-bit signed integer; `None`
/// otherwise.
pub open spec fn spec_parse_int(s: Seq<char>) -> Option<i64> {
    let digits = if s.len() > 0 && (s[0] == '-' || s[0] == '+') {
        s.skip(1)
    } else {
        s
    };
    let neg = s.len() > 0 && s[0] == '-';
    if digits.len() == 0 || !all_digits(digits) {
        None
    } else {
        let v = if neg {
            -dec_val(digits)
        } else {
            dec_val(digits)
        };
        if i64::MIN <= v <= i64::MAX {
            Some(v as i64)
        } else {
            None
        }
    }
}

/// A digit string denotes a non-negative number.
pub proof fn lemma_dec_val_nonneg(s: Seq<char>)
    requires
        all_digits(s),
    ensures
        dec_val(s) >= 0,
    decreases s.len(),
{
    if s.len() > 0 {
        assert(all_digits(s.drop_last())) by {
            assert(forall|i: int|
                0 <= i < s.len() - 1 ==> is_digit(#[trigger] s.drop_last()[i]) == is_digit(s[i]));
        }
        lemma_dec_val_nonneg(s.drop_last());
    }
}

/// Dropping digits from the end never increases the value.
pub proof fn lemma_dec_val_take_le(s: Seq<char>, k: int)
    requires
        all_digits(s),
        0 <= k <= s.len(),
    ensures
        dec_val(s.take(k)) <= dec_val(s),
    decreases s.len(),
{
    if k < s.len() {
        assert(all_digits(s.drop_last())) by {
            assert(forall|i: int|
                0 <= i < s.len() - 1 ==> is_digit(#[trigger] s.drop_last()[i]) == is_digit(s[i]));
        }
        assert(s.drop_last().take(k) =~= s.take(k));
        lemma_dec_val_take_le(s.drop_last(), k);
        lemma_dec_val_nonneg(s.drop_last());
    } else {
        assert(s.take(k) =~= s);
    }
}

/// The decimal digits of a number are digits, at least one, and denote the
/// number itself.
pub proof fn lemma_dec_digits(n: nat)
    ensures
        all_digits(dec_digits(n)),
        dec_digits(n).len() >= 1,
        dec_val(dec_digits(n)) == n,
    decreases n,
{
    if n < 10 {
        assert(is_digit(digit_char(n as int)));
        assert(digit_val(digit_char(n as int)) == n);
        assert(dec_digits(n) == seq![digit_char(n as int)]);
        assert(dec_digits(n).drop_last() =~= Seq::<char>::empty());
        assert(dec_val(Seq::<char>::empty()) == 0);
        assert(dec_val(dec_digits(n)) == dec_val(dec_digits(n).drop_last()) * 10 + digit_val(
            dec_digits(n).last(),
        ));
    } else {
        lemma_dec_digits(n / 10);
        vstd::arithmetic::div_mod::lemma_fundamental_div_mod(n as int, 10);
        let ds = dec_digits(n);
        assert(ds.drop_last() =~= dec_digits(n / 10));
        assert(ds.last() == digit_char((n % 10) as int));
        assert(is_digit(digit_char((n % 10) as int)));
        assert(digit_val(digit_char((n % 10) as int)) == n % 10);
        assert(all_digits(ds)) by {
            assert(forall|i: int|
                0 <= i < ds.len() - 1 ==> #[trigger] ds[i] == dec_digits(n / 10)[i]);
        }
        assert(dec_val(ds) == dec_val(ds.drop_last()) * 10 + digit_val(ds.last()));
    }
}

/// The canonical text of an integer parses back to the integer.
pub proof fn lemma_int_text_parses(i: int)
    requires
        i64::MIN <= i <= i64::MAX,
    ensures
        spec_parse_int(spec_int_text(i)) == Some(i as i64),
{
    if i >= 0 {
        lemma_dec_digits(i as nat);
        let s = dec_digits(i as nat);
        assert(is_digit(s[0]));
        assert(s[0] != '-' && s[0] != '+');
    } else {
        lemma_dec_digits((-i) as nat);
        let s = spec_int_text(i);
        assert(s[0] == '-');
        assert(s.skip(1) =~= dec_digits((-i) as nat));
    }
}

/// Whether a literal token denotes a representable value: an integer
/// literal must fit a 64-bit signed integer; every other literal kind does.
pub open spec fn literal_ok(t: TokenV) -> bool {
    t.kind == Kind::Integer ==> spec_parse_int(t.text) is Some
}

/// The kind of token that renders a scalar value back as a literal.
pub open spec fn spec_literal_kind(v: ValV) -> Kind {
    match v {
        ValV::Int(_) => Kind::Integer,
        ValV::Bool(_) => Kind::Bolean,
        ValV::Str(_) => Kind::Str,
        _ => Kind::Alphanum,
    }
}

/// Rendering idempotence: for every integer, boolean or string value,
/// parsing its textual rendering as a literal of the same kind yields the
/// value back, so rendering again yields the original text. (A list's
/// rendering does not round-trip in general, and is left out.)
pub proof fn lemma_render_round_trip(v: ValV)
    requires
        v is Int || v is Bool || v is Str,
        v matches ValV::Int(i) ==> i64::MIN <= i <= i64::MAX,
    ensures
        spec_from_token(TokenV { kind: spec_literal_kind(v), text: spec_render(v) }) == v,
        spec_render(
            spec_from_token(TokenV { kind: spec_literal_kind(v), text: spec_render(v) }),
        ) == spec_render(v),
{
    match v {
        ValV::Int(i) => {
            lemma_int_text_parses(i);
        },
        ValV::Bool(b) => {
            if !b {
                reveal_strlit("true");
                reveal_strlit("false");
                assert("false"@.len() != "true"@.len());
            }
        },
        _ => {},
    }
}

/// Mathematical image of a runtime value.
#[verifier::ext_equal]
pub enum ValV {
    Str(Seq<char>),
    Int(int),
    Bool(bool),
    Func(Seq<NodeV>, Seq<NodeV>),
    List(Seq<ValV>),
    Nil,
}

/// A runtime value: a string, a 64-bit signed integer, a boolean, a function
/// (parameter list and body), a list of values, or the absence of a value.
#[derive(Debug, PartialEq)]
pub enum Type {
    Str(String),
    Int(i64),
    Bool(bool),
    Func(Vec<Node>, Vec<Node>),
    List(Vec<Type>),
    Nil,
}

/// Parses an integer literal: an optional sign, then digits.
pub fn parse_i64(s: &String) -> (r: Option<i64>)
    ensures
        r == spec_parse_int(s@),
{
    let len = s.as_str().unicode_len();
    let mut start: usize = 0;
    let mut neg = false;
    if len > 0 {
        let c0 = s.as_str().get_char(0);
        if c0 == '-' {
            neg = true;
            start = 1;
        } else if c0 == '+' {
            start = 1;
        }
    }
    if start >= len {
        return None;
    }
    let ghost digits = if start == 1 {
        s@.skip(1)
    } else {
        s@
    };
    proof {
        assert(digits =~= s@.subrange(start as int, len as int));
    }
    let limit: u64 = if neg {
        9223372036854775808
    } else {
        9223372036854775807
    };
    let mut mag: u64 = 0;
    let mut j: usize = start;
    while j < len
        invariant
            start <= j <= len,
            len == s@.len(),
            start == 0 || start == 1,
            neg == (s@.len() > 0 && s@[0] == '-'),
            (start == 1) == (s@.len() > 0 && (s@[0] == '-' || s@[0] == '+')),
            digits == s@.subrange(start as int, len as int),
            all_digits(s@.subrange(start as int, j as int)),
            mag == dec_val(s@.subrange(start as int, j as int)),
            mag <= limit,
            limit == (if neg {
                9223372036854775808u64
            } else {
                9223372036854775807u64
            }),
        decreases len - j,
    {
        let c = s.as_str().get_char(j);
        let k = Kind::classify(&Some(c));
        if k != Kind::Integer {
            proof {
                assert(!is_digit(digits[j - start]));
            }
            return None;
        }
        let d: u64 = (c as u32 as u64) - 48;
        proof {
            assert(is_digit(c));
            assert(d == digit_val(c));
        }
        let q = (limit - d) / 10;
        proof {
            vstd::arithmetic::div_mod::lemma_fundamental_div_mod((limit - d) as int, 10);
        }
        if mag > q {
            proof {
                let upto = s@.subrange(start as int, j + 1);
                assert(upto.drop_last() =~= s@.subrange(start as int, j as int));
                assert(upto.last() == c);
                assert(dec_val(upto) == mag * 10 + digit_val(c));
                assert(mag * 10 + digit_val(c) > limit);
                if all_digits(digits) {
                    assert(upto =~= digits.take(j + 1 - start));
                    lemma_dec_val_take_le(digits, j + 1 - start);
                    assert(dec_val(digits) >= dec_val(upto));
                    assert(dec_val(digits) > limit);
                    if neg {
                        assert(-dec_val(digits) < i64::MIN);
                    } else {
                        assert(dec_val(digits) > i64::MAX);
                    }
                }
                let sdigits = if s@.len() > 0 && (s@[0] == '-' || s@[0] == '+') {
                    s@.skip(1)
                } else {
                    s@
                };
                assert(sdigits == digits);
                assert(sdigits.len() > 0);
                assert(spec_parse_int(s@) is None);
            }
            return None;
        }
        mag = mag * 10 + d;
        proof {
            let upto = s@.subrange(start as int, j + 1);
            assert(upto.drop_last() =~= s@.subrange(start as int, j as int));
            assert(upto.last() == c);
            assert(all_digits(upto)) by {
                assert(forall|i: int|
                    0 <= i < upto.len() - 1 ==> is_digit(#[trigger] upto[i]) == is_digit(
                        upto.drop_last()[i],
                    ));
            }
        }
        j += 1;
    }
    proof {
        assert(s@.subrange(start as int, j as int) == digits);
    }
    if neg {
        if mag == 9223372036854775808 {
            Some(i64::MIN)
        } else {
            Some(-(mag as i64))
        }
    } else {
        Some(mag as i64)
    }
}

/// The digit character of a value between zero and nine.
fn digit_char_exec(d: u64) -> (c: char)
    requires
        d <= 9,
    ensures
        c == digit_char(d as int),
{
    match d {
        0 => '0',
        1 => '1',
        2 => '2',
        3 => '3',
        4 => '4',
        5 => '5',
        6 => '6',
        7 => '7',
        8 => '8',
        _ => '9',
    }
}

/// Writes the decimal digits of `n` at the end of the string.
fn push_digits(n: u64, s: &mut String)
    ensures
        final(s)@ == old(s)@ + dec_digits(n as nat),
    decreases n,
{
    if n < 10 {
        crate::token::push_char(s, digit_char_exec(n));
        proof {
            assert(old(s)@.push(digit_char(n as int)) =~= old(s)@ + dec_digits(n as nat));
        }
    } else {
        push_digits(n / 10, s);
        crate::token::push_char(s, digit_char_exec(n % 10));
        proof {
            assert((old(s)@ + dec_digits((n / 10) as nat)).push(digit_char((n % 10) as int)) =~= old(
                s,
            )@ + dec_digits(n as nat));
        }
    }
}

/// The canonical decimal text of an integer.
pub fn int_to_string(i: i64) -> (s: String)
    ensures
        s@ == spec_int_text(i as int),
{
    let mut s = String::new();
    if i < 0 {
        crate::token::push_char(&mut s, '-');
        let mag: u64 = if i == i64::MIN {
            9223372036854775808
        } else {
            (-i) as u64
        };
        push_digits(mag, &mut s);
        proof {
            assert(Seq::<char>::empty().push('-') + dec_digits(mag as nat) =~= seq!['-']
                + dec_digits((-(i as int)) as nat));
        }
    } else {
        push_digits(i as u64, &mut s);
        proof {
            assert(Seq::<char>::empty() + dec_digits((i as int) as nat) =~= dec_digits(
                (i as int) as nat,
            ));
        }
    }
    s
}

/// The mathematical image of a list of runtime values.
pub open spec fn vals_view(items: Seq<Type>) -> Seq<ValV>
    decreases items,
{
    if items.len() == 0 {
        Seq::empty()
    } else {
        vals_view(items.drop_last()).push(val_view(items.last()))
    }
}

/// A list of values maps to its images, index by index.
pub broadcast proof fn lemma_vals_view(items: Seq<Type>)
    ensures
        (#[trigger] vals_view(items)).len() == items.len(),
        forall|i: int| 0 <= i < items.len() ==> vals_view(items)[i] == val_view(items[i]),
    decreases items.len(),
{
    if items.len() > 0 {
        lemma_vals_view(items.drop_last());
    }
}

/// The mathematical image of a runtime value.
pub open spec fn val_view(t: Type) -> ValV
    decreases t,
{
    match t {
        Type::Str(s) => ValV::Str(s@),
        Type::Int(i) => ValV::Int(i as int),
        Type::Bool(b) => ValV::Bool(b),
        Type::Func(params, body) => ValV::Func(nodes_view(params@), nodes_view(body@)),
        Type::List(items) => ValV::List(vals_view(items@)),
        Type::Nil => ValV::Nil,
    }
}

impl View for Type {
    type V = ValV;

    open spec fn view(&self) -> ValV {
        val_view(*self)
    }
}

impl Type {
    /// A deep copy: the copy has the same mathematical value.
    pub fn duplicate(&self) -> (r: Type)
        ensures
            r@ == self@,
        decreases *self,
    {
        match self {
            Type::Str(s) => Type::Str(s.clone()),
            Type::Int(i) => Type::Int(*i),
            Type::Bool(b) => Type::Bool(*b),
            Type::Func(params, body) => {
                let p = dup_nodes(params);
                let b = dup_nodes(body);
                Type::Func(p, b)
            },
            Type::List(items) => {
                let out = dup_vals(items);
                Type::List(out)
            },
            Type::Nil => Type::Nil,
        }
    }
}

/// Which failure tier an error belongs to: a structural error in the source
/// text, a misuse of the value algebra, or a recoverable evaluation error.
#[derive(Debug, Clone, Copy, PartialEq, Eq, Structural)]
pub enum ErrorKind {
    Syntax,
    Type,
    Value,
}

/// An error: its tier and its complete message.
#[derive(Debug, PartialEq)]
pub struct EvalError {
    pub kind: ErrorKind,
    pub message: String,
}

impl EvalError {
    /// A structural error in the source text.
    pub fn syntax(message: String) -> (e: EvalError)
        ensures
            e.kind == ErrorKind::Syntax,
            e.message == message,
    {
        EvalError { kind: ErrorKind::Syntax, message }
    }

    /// An operation applied to value kinds it is not defined for.
    pub fn type_error(message: String) -> (e: EvalError)
        ensures
            e.kind == ErrorKind::Type,
            e.message == message,
    {
        EvalError { kind: ErrorKind::Type, message }
    }

    /// A recoverable evaluation error.
    pub fn value_error(message: String) -> (e: EvalError)
        ensures
            e.kind == ErrorKind::Value,
            e.message == message,
    {
        EvalError { kind: ErrorKind::Value, message }
    }
}

/// Which values have a defined truthiness: integers, booleans and the
/// absence of a value.
pub open spec fn spec_truthy_ok(v: ValV) -> bool {
    match v {
        ValV::Int(_) => true,
        ValV::Bool(_) => true,
        ValV::Nil => true,
        _ => false,
    }
}

/// The truth a value stands for in a condition: a positive integer is true,
/// a boolean is itself, the absence of a value is false.
pub open spec fn spec_truthy(v: ValV) -> bool {
    match v {
        ValV::Int(i) => i > 0,
        ValV::Bool(b) => b,
        _ => false,
    }
}

/// The space-joined renderings of list elements.
pub open spec fn render_items(items: Seq<ValV>) -> Seq<char>
    decreases items,
{
    if items.len() == 0 {
        Seq::empty()
    } else if items.len() == 1 {
        spec_render(items[0])
    } else {
        render_items(items.drop_last()) + seq![' '] + spec_render(items.last())
    }
}

/// The textual form of a value: a string is itself, an integer and a boolean
/// render canonically, a list renders as its elements' renderings
/// space-joined inside parentheses, and a function or the absence of a value
/// renders as the empty text.
pub open spec fn spec_render(v: ValV) -> Seq<char>
    decreases v,
{
    match v {
        ValV::Str(s) => s,
        ValV::Int(i) => spec_int_text(i),
        ValV::Bool(b) => if b {
            "true"@
        } else {
            "false"@
        },
        ValV::List(items) => seq!['('] + render_items(items) + seq![')'],
        _ => Seq::empty(),
    }
}

/// What logical negation yields: a boolean flips, an integer's sign is
/// negated, a string stays unchanged; anything else (or a sign negation
/// that does not fit) has no result.
pub open spec fn spec_not(v: ValV) -> Option<ValV> {
    match v {
        ValV::Bool(b) => Some(ValV::Bool(!b)),
        ValV::Int(i) => if i64::MIN < i <= i64::MAX {
            Some(ValV::Int(-i))
        } else {
            None
        },
        ValV::Str(s) => Some(ValV::Str(s)),
        _ => None,
    }
}

/// Whether two values are ordered with each other: only two integers or two
/// booleans are.
pub open spec fn spec_comparable(a: ValV, b: ValV) -> bool {
    (a is Int && b is Int) || (a is Bool && b is Bool)
}

/// The order of two comparable values: negative, zero or positive as the
/// first is below, equal to, or above the second; `false` orders below
/// `true`.
pub open spec fn spec_cmp(a: ValV, b: ValV) -> int {
    match (a, b) {
        (ValV::Int(x), ValV::Int(y)) => if x < y {
            -1
        } else if x == y {
            0
        } else {
            1
        },
        (ValV::Bool(x), ValV::Bool(y)) => if !x && y {
            -1
        } else if x == y {
            0
        } else {
            1
        },
        _ => 0,
    }
}

/// The first index at or after `from` holding the character `c` (or the end
/// of the text).
pub open spec fn find_char(s: Seq<char>, from: int, c: char) -> int
    decreases s.len() - from,
    when 0 <= from <= s.len()
{
    if from >= s.len() {
        from
    } else if s[from] == c {
        from
    } else {
        find_char(s, from + 1, c)
    }
}

pub proof fn lemma_find_char_bounds(s: Seq<char>, from: int, c: char)
    requires
        0 <= from <= s.len(),
    ensures
        from <= find_char(s, from, c) <= s.len(),
    decreases s.len() - from,
{
    if from < s.len() && s[from] != c {
        lemma_find_char_bounds(s, from + 1, c);
    }
}

/// The comma-separated fragments of a quoted-list body; an empty body is one
/// empty fragment.
pub open spec fn split_commas(s: Seq<char>) -> Seq<Seq<char>>
    decreases s.len(),
    via split_commas_decreases
{
    let k = find_char(s, 0, ',');
    if k >= s.len() {
        seq![s]
    } else {
        seq![s.take(k)] + split_commas(s.skip(k + 1))
    }
}

#[via_fn]
proof fn split_commas_decreases(s: Seq<char>) {
    lemma_find_char_bounds(s, 0, ',');
}

/// The value a single quoted-list fragment denotes: a reserved boolean word,
/// an integer, a string (when it begins with a quote), and anything else the
/// absence of a value.
pub open spec fn spec_fragment_val(f: Seq<char>) -> ValV {
    match spec_reserved(f) {
        Some(k) => if k == Kind::Bolean {
            ValV::Bool(f == "true"@)
        } else {
            ValV::Nil
        },
        None => {
            let k = spec_classify(
                if f.len() == 0 {
                    None
                } else {
                    Some(f[0])
                },
            );
            if k == Kind::Integer {
                match spec_parse_int(f) {
                    Some(i) => ValV::Int(i as int),
                    None => ValV::Nil,
                }
            } else if k == Kind::Str {
                ValV::Str(f)
            } else {
                ValV::Nil
            }
        },
    }
}

/// What a literal token denotes: a quoted list converts each fragment, an
/// integer token parses, a boolean token is compared with the word `true`, a
/// string token is its text, and every other kind denotes the absence of a
/// value.
pub open spec fn spec_from_token(t: TokenV) -> ValV {
    if t.kind == Kind::List {
        ValV::List(split_commas(t.text).map_values(|f: Seq<char>| spec_fragment_val(f)))
    } else if t.kind == Kind::Integer {
        match spec_parse_int(t.text) {
            Some(i) => ValV::Int(i as int),
            None => ValV::Nil,
        }
    } else if t.kind == Kind::Bolean {
        ValV::Bool(t.text == "true"@)
    } else if t.kind == Kind::Str {
        ValV::Str(t.text)
    } else {
        ValV::Nil
    }
}

/// The value a single quoted-list fragment denotes.
fn frag_to_val(f: String) -> (t: Type)
    ensures
        t@ == spec_fragment_val(f@),
{
    match Kind::reserved(&f) {
        Some(Kind::Bolean) => Type::Bool(word_is(&f, "true")),
        Some(_) => Type::Nil,
        None => {
            let len = f.as_str().unicode_len();
            let k = if len == 0 {
                Kind::classify(&None)
            } else {
                Kind::classify(&Some(f.as_str().get_char(0)))
            };
            if k == Kind::Integer {
                match parse_i64(&f) {
                    Some(i) => Type::Int(i),
                    None => Type::Nil,
                }
            } else if k == Kind::Str {
                Type::Str(f)
            } else {
                Type::Nil
            }
        },
    }
}

/// The first index at or after `from` holding a comma.
fn find_comma(s: &String, from: usize) -> (e: usize)
    requires
        from <= s@.len(),
    ensures
        e == find_char(s@, from as int, ','),
        from <= e <= s@.len(),
{
    let len = s.as_str().unicode_len();
    let mut e = from;
    while e < len && s.as_str().get_char(e) != ','
        invariant
            from <= e <= len,
            len == s@.len(),
            find_char(s@, from as int, ',') == find_char(s@, e as int, ','),
        decreases len - e,
    {
        e += 1;
    }
    e
}

/// Splitting a text at its first comma peels off the first fragment.
proof fn lemma_split_commas_step(s: Seq<char>, from: int)
    requires
        0 <= from <= s.len(),
    ensures
        ({
            let t = s.subrange(from, s.len() as int);
            let k = find_char(s, from, ',');
            &&& k == from + find_char(t, 0, ',')
            &&& (k < s.len() ==> split_commas(t) == seq![s.subrange(from, k)] + split_commas(
                s.subrange(k + 1, s.len() as int),
            ))
            &&& (k >= s.len() ==> split_commas(t) == seq![s.subrange(from, s.len() as int)])
        }),
{
    let t = s.subrange(from, s.len() as int);
    lemma_find_char_shift(s, from, ',');
    let k = find_char(s, from, ',');
    lemma_find_char_bounds(s, from, ',');
    lemma_find_char_bounds(t, 0, ',');
    if k < s.len() {
        assert(t.take(k - from) =~= s.subrange(from, k));
        assert(t.skip(k - from + 1) =~= s.subrange(k + 1, s.len() as int));
    } else {
        assert(t =~= s.subrange(from, s.len() as int));
    }
}

/// Searching a suffix finds the same character, shifted.
proof fn lemma_find_char_shift(s: Seq<char>, from: int, c: char)
    requires
        0 <= from <= s.len(),
    ensures
        find_char(s, from, c) == from + find_char(s.subrange(from, s.len() as int), 0, c),
    decreases s.len() - from,
{
    let t = s.subrange(from, s.len() as int);
    if from >= s.len() {
        assert(t.len() == 0);
    } else if s[from] == c {
        assert(t[0] == c);
    } else {
        lemma_find_char_shift(s, from + 1, c);
        lemma_find_char_shift(t, 1, c);
        assert(t.subrange(1, t.len() as int) =~= s.subrange(from + 1, s.len() as int));
        assert(t[0] != c);
    }
}

/// The fragment values of a quoted-list body, in order.
fn list_values(s: &String) -> (r: Vec<Type>)
    ensures
        r@.len() == split_commas(s@).len(),
        forall|i: int|
            0 <= i < r@.len() ==> (#[trigger] r@[i])@ == spec_fragment_val(split_commas(s@)[i]),
{
    let len = s.as_str().unicode_len();
    let mut r: Vec<Type> = Vec::new();
    let mut pos: usize = 0;
    let ghost frags = split_commas(s@);
    proof {
        assert(s@.subrange(0, len as int) =~= s@);
        assert(frags.skip(0) =~= frags);
    }
    loop
        invariant_except_break
            split_commas(s@.subrange(pos as int, len as int)) == frags.skip(r@.len() as int),
        invariant
            pos <= len,
            len == s@.len(),
            frags == split_commas(s@),
            r@.len() <= frags.len(),
            forall|i: int|
                0 <= i < r@.len() ==> (#[trigger] r@[i])@ == spec_fragment_val(frags[i]),
        ensures
            r@.len() == frags.len(),
            forall|i: int|
                0 <= i < r@.len() ==> (#[trigger] r@[i])@ == spec_fragment_val(frags[i]),
        decreases len - pos,
    {
        let k = find_comma(s, pos);
        let frag = String::from_str(s.as_str().substring_char(pos, k));
        proof {
            lemma_split_commas_step(s@, pos as int);
            let suffix = s@.subrange(pos as int, len as int);
            if k < len {
                assert(frags.skip(r@.len() as int)[0] == s@.subrange(pos as int, k as int));
                assert((seq![s@.subrange(pos as int, k as int)] + split_commas(
                    s@.subrange(k + 1, len as int),
                )).skip(1) =~= split_commas(s@.subrange(k + 1, len as int)));
                assert(frags.skip(r@.len() as int).skip(1) =~= frags.skip(r@.len() as int + 1));
            } else {
                assert(frags.skip(r@.len() as int)[0] == s@.subrange(pos as int, len as int));
                assert(frags.skip(r@.len() as int).len() == 1);
            }
            assert(frags[r@.len() as int] == frag@);
        }
        let v = frag_to_val(frag);
        r.push(v);
        if k >= len {
            proof {
                assert(frags.len() == r@.len());
            }
            break ;
        }
        pos = k + 1;
    }
    r
}

impl Type {
    /// Converts a literal token to the runtime value it denotes. An integer
    /// literal that does not fit a 64-bit signed integer denotes the absence
    /// of a value.
    pub fn from(token: &Token) -> (t: Type)
        ensures
            t@ == spec_from_token(token@),
    {
        match token.kind {
            Kind::List => {
                let items = list_values(&token.value);
                let r = Type::List(items);
                proof {
                    broadcast use lemma_vals_view;

                    assert(vals_view(items@) =~= split_commas(token.value@).map_values(
                        |f: Seq<char>| spec_fragment_val(f),
                    ));
                }
                r
            },
            Kind::Integer => match parse_i64(&token.value) {
                Some(i) => Type::Int(i),
                None => Type::Nil,
            },
            Kind::Bolean => Type::Bool(word_is(&token.value, "true")),
            Kind::Str => Type::Str(token.value.clone()),
            _ => Type::Nil,
        }
    }
}

/// The space-joined renderings of a vector of values.
fn render_list_items(items: &Vec<Type>) -> (r: String)
    ensures
        r@ == render_items(vals_view(items@)),
    decreases items@,
{
    let mut r = String::new();
    let n = items.len();
    let mut i: usize = 0;
    proof {
        broadcast use lemma_vals_view;

        assert(vals_view(items@).take(0) =~= Seq::<ValV>::empty());
    }
    while i < n
        invariant
            i <= n,
            n == items@.len(),
            r@ == render_items(vals_view(items@).take(i as int)),
        decreases n - i,
    {
        if i > 0 {
            crate::token::push_char(&mut r, ' ');
        }
        let piece = render_val(&items[i]);
        r.append(piece.as_str());
        proof {
            broadcast use lemma_vals_view;

            let vs = vals_view(items@);
            assert(vs.take(i + 1).drop_last() =~= vs.take(i as int));
            assert(vs.take(i + 1).last() == val_view(items@[i as int]));
            if i == 0 {
                assert(r@ =~= render_items(vs.take(1)));
            } else {
                assert(r@ =~= render_items(vs.take(i as int)) + seq![' '] + spec_render(
                    val_view(items@[i as int]),
                ));
            }
        }
        i += 1;
    }
    proof {
        broadcast use lemma_vals_view;

        assert(vals_view(items@).take(n as int) =~= vals_view(items@));
    }
    r
}

/// The textual form of a value.
fn render_val(t: &Type) -> (r: String)
    ensures
        r@ == spec_render(t@),
    decreases *t,
{
    match t {
        Type::Str(s) => s.clone(),
        Type::Int(i) => int_to_string(*i),
        Type::Bool(b) => if *b {
            String::from_str("true")
        } else {
            String::from_str("false")
        },
        Type::List(items) => {
            let mut r = String::new();
            crate::token::push_char(&mut r, '(');
            let mid = render_list_items(items);
            r.append(mid.as_str());
            crate::token::push_char(&mut r, ')');
            proof {
                assert(r@ =~= seq!['('] + render_items(vals_view(items@)) + seq![')']);
            }
            r
        },
        Type::Func(_, _) => String::new(),
        Type::Nil => String::new(),
    }
}

/// Deep structural equality of two vectors of nodes.
fn nodes_eq(x: &Vec<Node>, y: &Vec<Node>) -> (r: bool)
    ensures
        r == (nodes_view(x@) == nodes_view(y@)),
    decreases x@,
{
    proof {
        crate::ast::lemma_nodes_view(x@);
        crate::ast::lemma_nodes_view(y@);
    }
    if x.len() != y.len() {
        return false;
    }
    let n = x.len();
    let mut i: usize = 0;
    while i < n
        invariant
            i <= n,
            n == x@.len(),
            n == y@.len(),
            forall|j: int| 0 <= j < i ==> node_view(#[trigger] x@[j]) == node_view(y@[j]),
        decreases n - i,
    {
        if !node_eq(&x[i], &y[i]) {
            proof {
                crate::ast::lemma_nodes_view(x@);
                crate::ast::lemma_nodes_view(y@);
                assert(nodes_view(x@)[i as int] == node_view(x@[i as int]));
                assert(nodes_view(y@)[i as int] == node_view(y@[i as int]));
            }
            return false;
        }
        i += 1;
    }
    proof {
        crate::ast::lemma_nodes_view(x@);
        crate::ast::lemma_nodes_view(y@);
        assert(nodes_view(x@) =~= nodes_view(y@));
    }
    true
}

/// Deep structural equality of two vectors of values.
fn vals_eq(x: &Vec<Type>, y: &Vec<Type>) -> (r: bool)
    ensures
        r == (vals_view(x@) == vals_view(y@)),
    decreases x@,
{
    proof {
        lemma_vals_view(x@);
        lemma_vals_view(y@);
    }
    if x.len() != y.len() {
        return false;
    }
    let n = x.len();
    let mut i: usize = 0;
    while i < n
        invariant
            i <= n,
            n == x@.len(),
            n == y@.len(),
            forall|j: int| 0 <= j < i ==> val_view(#[trigger] x@[j]) == val_view(y@[j]),
        decreases n - i,
    {
        if !val_eq(&x[i], &y[i]) {
            proof {
                lemma_vals_view(x@);
                lemma_vals_view(y@);
                assert(vals_view(x@)[i as int] == val_view(x@[i as int]));
                assert(vals_view(y@)[i as int] == val_view(y@[i as int]));
            }
            return false;
        }
        i += 1;
    }
    proof {
        lemma_vals_view(x@);
        lemma_vals_view(y@);
        assert(vals_view(x@) =~= vals_view(y@));
    }
    true
}

/// Deep structural equality of two syntax nodes.
pub fn node_eq(a: &Node, b: &Node) -> (r: bool)
    ensures
        r == (a@ == b@),
    decreases *a,
{
    let ve = a.value == b.value;
    if !ve {
        return false;
    }
    match (&*a.operation, &*b.operation) {
        (Operation::Main(x), Operation::Main(y)) => node_eq(x, y),
        (Operation::Identifier(x), Operation::Identifier(y)) => *x == *y,
        (Operation::Operator(t1, n1), Operation::Operator(t2, n2)) => *t1 == *t2 && nodes_eq(
            n1,
            n2,
        ),
        (Operation::Comparison(t1, n1), Operation::Comparison(t2, n2)) => *t1 == *t2 && nodes_eq(
            n1,
            n2,
        ),
        (Operation::Logical(t1, n1), Operation::Logical(t2, n2)) => *t1 == *t2 && nodes_eq(
            n1,
            n2,
        ),
        (Operation::Constant(x), Operation::Constant(y)) => val_eq(x, y),
        (Operation::IfElse(c1, n1), Operation::IfElse(c2, n2)) => node_eq(c1, c2) && nodes_eq(
            n1,
            n2,
        ),
        (Operation::When(c1, n1), Operation::When(c2, n2)) => node_eq(c1, c2) && nodes_eq(n1, n2),
        (Operation::Assign(x1, y1), Operation::Assign(x2, y2)) => node_eq(x1, x2) && node_eq(
            y1,
            y2,
        ),
        (Operation::StdOut(x), Operation::StdOut(y)) => node_eq(x, y),
        (Operation::DefineFunction(x1, f1), Operation::DefineFunction(x2, f2)) => node_eq(x1, x2)
            && val_eq(f1, f2),
        (Operation::CallFunction(x1, n1), Operation::CallFunction(x2, n2)) => node_eq(x1, x2)
            && nodes_eq(n1, n2),
        (Operation::Empty, Operation::Empty) => true,
        _ => false,
    }
}

/// Deep structural equality of two values: strings by their text, functions
/// and lists element for element.
pub fn val_eq(a: &Type, b: &Type) -> (r: bool)
    ensures
        r == (a@ == b@),
    decreases *a,
{
    match (a, b) {
        (Type::Str(x), Type::Str(y)) => *x == *y,
        (Type::Int(x), Type::Int(y)) => *x == *y,
        (Type::Bool(x), Type::Bool(y)) => *x == *y,
        (Type::Func(p1, b1), Type::Func(p2, b2)) => nodes_eq(p1, p2) && nodes_eq(b1, b2),
        (Type::List(x), Type::List(y)) => vals_eq(x, y),
        (Type::Nil, Type::Nil) => true,
        _ => false,
    }
}

/// The order of two values: an error unless both are integers or both are
/// booleans.
pub fn val_cmp(a: &Type, b: &Type) -> (r: Result<i8, EvalError>)
    ensures
        spec_comparable(a@, b@) ==> (r matches Ok(c) && c as int == spec_cmp(a@, b@)),
        !spec_comparable(a@, b@) ==> (r matches Err(e) && e.kind == ErrorKind::Type),
{
    match (a, b) {
        (Type::Int(x), Type::Int(y)) => if *x < *y {
            Ok(-1)
        } else if *x == *y {
            Ok(0)
        } else {
            Ok(1)
        },
        (Type::Bool(x), Type::Bool(y)) => if !*x && *y {
            Ok(-1)
        } else if *x == *y {
            Ok(0)
        } else {
            Ok(1)
        },
        _ => Err(
            EvalError::type_error(String::from_str("Operation error: invalid comparison")),
        ),
    }
}

impl Type {
    /// The textual form of the value.
    pub fn to_string(self) -> (r: String)
        ensures
            r@ == spec_render(self@),
    {
        render_val(&self)
    }

    /// The truth the value stands for in a condition. Only integers,
    /// booleans and the absence of a value have one; the evaluator checks
    /// with `truthiness` first and reports an error itself otherwise.
    pub fn as_bool(&self) -> (b: bool)
        requires
            spec_truthy_ok(self@),
        ensures
            b == spec_truthy(self@),
    {
        match self {
            Type::Int(s) => *s > 0,
            Type::Bool(s) => *s,
            _ => false,
        }
    }

    /// The truth the value stands for, or `None` where none is defined.
    pub fn truthiness(&self) -> (r: Option<bool>)
        ensures
            r == (if spec_truthy_ok(self@) {
                Some(spec_truthy(self@))
            } else {
                None::<bool>
            }),
    {
        match self {
            Type::Int(s) => Some(*s > 0),
            Type::Bool(s) => Some(*s),
            Type::Nil => Some(false),
            _ => None,
        }
    }

    /// The sum of two integer values; an error on any other operands or on
    /// overflow.
    pub fn add(self, other: Type) -> (r: Result<Type, EvalError>)
        ensures
            ({
                match (self, other) {
                    (Type::Int(a), Type::Int(b)) => match a.checked_add(b) {
                        Some(v) => r matches Ok(t) && t == Type::Int(v),
                        None => r matches Err(e) && e.kind == ErrorKind::Type,
                    },
                    _ => r matches Err(e) && e.kind == ErrorKind::Type,
                }
            }),
    {
        match (self, other) {
            (Type::Int(a), Type::Int(b)) => match a.checked_add(b) {
                Some(v) => Ok(Type::Int(v)),
                None => Err(
                    EvalError::type_error(
                        String::from_str("Operation error: invalid add operation"),
                    ),
                ),
            },
            _ => Err(
                EvalError::type_error(String::from_str("Operation error: invalid add operation")),
            ),
        }
    }

    /// The difference of two integer values; an error on any other operands
    /// or on overflow.
    pub fn sub(self, other: Type) -> (r: Result<Type, EvalError>)
        ensures
            ({
                match (self, other) {
                    (Type::Int(a), Type::Int(b)) => match a.checked_sub(b) {
                        Some(v) => r matches Ok(t) && t == Type::Int(v),
                        None => r matches Err(e) && e.kind == ErrorKind::Type,
                    },
                    _ => r matches Err(e) && e.kind == ErrorKind::Type,
                }
            }),
    {
        match (self, other) {
            (Type::Int(a), Type::Int(b)) => match a.checked_sub(b) {
                Some(v) => Ok(Type::Int(v)),
                None => Err(
                    EvalError::type_error(
                        String::from_str("Operation error: invalid sub operation"),
                    ),
                ),
            },
            _ => Err(
                EvalError::type_error(String::from_str("Operation error: invalid sub operation")),
            ),
        }
    }

    /// The product of two integer values; an error on any other operands or
    /// on overflow.
    pub fn mul(self, other: Type) -> (r: Result<Type, EvalError>)
        ensures
            ({
                match (self, other) {
                    (Type::Int(a), Type::Int(b)) => match a.checked_mul(b) {
                        Some(v) => r matches Ok(t) && t == Type::Int(v),
                        None => r matches Err(e) && e.kind == ErrorKind::Type,
                    },
                    _ => r matches Err(e) && e.kind == ErrorKind::Type,
                }
            }),
    {
        match (self, other) {
            (Type::Int(a), Type::Int(b)) => match a.checked_mul(b) {
                Some(v) => Ok(Type::Int(v)),
                None => Err(
                    EvalError::type_error(
                        String::from_str("Operation error: invalid mul operation"),
                    ),
                ),
            },
            _ => Err(
                EvalError::type_error(String::from_str("Operation error: invalid mul operation")),
            ),
        }
    }

    /// The truncating quotient of two integer values; an error on any other
    /// operands, on a zero divisor, or on overflow.
    pub fn div(self, other: Type) -> (r: Result<Type, EvalError>)
        ensures
            ({
                match (self, other) {
                    (Type::Int(a), Type::Int(b)) => match a.checked_div(b) {
                        Some(v) => r matches Ok(t) && t == Type::Int(v),
                        None => r matches Err(e) && e.kind == ErrorKind::Type,
                    },
                    _ => r matches Err(e) && e.kind == ErrorKind::Type,
                }
            }),
    {
        match (self, other) {
            (Type::Int(a), Type::Int(b)) => match a.checked_div(b) {
                Some(v) => Ok(Type::Int(v)),
                None => Err(
                    EvalError::type_error(
                        String::from_str("Operation error: invalid div operation"),
                    ),
                ),
            },
            _ => Err(
                EvalError::type_error(String::from_str("Operation error: invalid div operation")),
            ),
        }
    }

    /// The truncating remainder of two integer values; an error on any other
    /// operands, on a zero divisor, or on overflow.
    pub fn rem(self, other: Type) -> (r: Result<Type, EvalError>)
        ensures
            ({
                match (self, other) {
                    (Type::Int(a), Type::Int(b)) => match a.checked_rem(b) {
                        Some(v) => r matches Ok(t) && t == Type::Int(v),
                        None => r matches Err(e) && e.kind == ErrorKind::Type,
                    },
                    _ => r matches Err(e) && e.kind == ErrorKind::Type,
                }
            }),
    {
        match (self, other) {
            (Type::Int(a), Type::Int(b)) => match a.checked_rem(b) {
                Some(v) => Ok(Type::Int(v)),
                None => Err(
                    EvalError::type_error(
                        String::from_str("Operation error: invalid rem operation"),
                    ),
                ),
            },
            _ => Err(
                EvalError::type_error(String::from_str("Operation error: invalid rem operation")),
            ),
        }
    }

    /// Logical negation: flips a boolean, negates an integer's sign, leaves
    /// a string unchanged; an error on any other operand or on overflow.
    pub fn not(self) -> (r: Result<Type, EvalError>)
        ensures
            ({
                match spec_not(self@) {
                    Some(v) => r matches Ok(t) && t@ == v,
                    None => r matches Err(e) && e.kind == ErrorKind::Type,
                }
            }),
    {
        match self {
            Type::Bool(b) => Ok(Type::Bool(!b)),
            Type::Int(i) => if i == i64::MIN {
                Err(
                    EvalError::type_error(
                        String::from_str("Operation error: invalid not operation"),
                    ),
                )
            } else {
                Ok(Type::Int(-i))
            },
            Type::Str(s) => Ok(Type::Str(s)),
            _ => Err(
                EvalError::type_error(String::from_str("Operation error: invalid not operation")),
            ),
        }
    }
}

/// A deep copy of a vector of syntax nodes, element for element.
pub fn dup_nodes(nodes: &Vec<Node>) -> (r: Vec<Node>)
    ensures
        nodes_view(r@) == nodes_view(nodes@),
    decreases nodes@,
{
    let mut out: Vec<Node> = Vec::new();
    let n = nodes.len();
    let mut i: usize = 0;
    while i < n
        invariant
            i <= n,
            n == nodes@.len(),
            out@.len() == i as int,
            forall|j: int| 0 <= j < i ==> node_view(#[trigger] out@[j]) == node_view(nodes@[j]),
        decreases n - i,
    {
        let d = nodes[i].duplicate();
        out.push(d);
        i += 1;
    }
    proof {
        broadcast use crate::ast::lemma_nodes_view;

        assert(nodes_view(out@) =~= nodes_view(nodes@));
    }
    out
}

/// A deep copy of a vector of runtime values, element for element.
fn dup_vals(items: &Vec<Type>) -> (r: Vec<Type>)
    ensures
        vals_view(r@) == vals_view(items@),
    decreases items@,
{
    let mut out: Vec<Type> = Vec::new();
    let n = items.len();
    let mut i: usize = 0;
    while i < n
        invariant
            i <= n,
            n == items@.len(),
            out@.len() == i as int,
            forall|j: int| 0 <= j < i ==> val_view(#[trigger] out@[j]) == val_view(items@[j]),
        decreases n - i,
    {
        let d = items[i].duplicate();
        out.push(d);
        i += 1;
    }
    proof {
        broadcast use lemma_vals_view;

        assert(vals_view(out@) =~= vals_view(items@));
    }
    out
}

} // verus!
