//! Lexical scanner: classifies characters, recognizes reserved words, and
//! turns source text into a stream of `Token`s.

use vstd::prelude::*;

verus! {

/// The closed set of token kinds the scanner can produce.
#[derive(Debug, Clone, Copy, PartialEq, Eq, Structural)]
pub enum Kind {
    Integer,
    Str,
    Bolean,
    List,
    Alphanum,
    Operator,
    Logical,
    Comparison,
    GroupBegin,
    GroupEnd,
    ArgsBegin,
    ArgsEnd,
    ID,
    Comment,
    Space,
    Separator,
    StdOut,
    If,
    When,
    FnDefine,
    VarDefine,
    EndLine,
    EOF,
}

/// Classification of a single character (or of end-of-input) into a `Kind`.
pub open spec fn spec_classify(character: Option<char>) -> Kind {
    match character {
        Option::Some(value) => {
            if value == ';' {
                Kind::Comment
            } else if value == ',' {
                Kind::Separator
            } else if value == '(' {
                Kind::GroupBegin
            } else if value == ')' {
                Kind::GroupEnd
            } else if value == '[' {
                Kind::ArgsBegin
            } else if value == ']' {
                Kind::ArgsEnd
            } else if value == ' ' {
                Kind::Space
            } else if value == '\n' {
                Kind::EndLine
            } else if value == '"' {
                Kind::Str
            } else if value == '\'' {
                Kind::List
            } else if value == '+' || value == '-' || value == '*' || value == '/' {
                Kind::Operator
            } else if '0' <= value && value <= '9' {
                Kind::Integer
            } else {
                Kind::Alphanum
            }
        },
        Option::None => Kind::EOF,
    }
}

/// The reserved-word table: the kind a completed word is reclassified to,
/// or `None` when the word is an ordinary identifier.
pub open spec fn spec_reserved(word: Seq<char>) -> Option<Kind> {
    if word == "defn"@ {
        Some(Kind::FnDefine)
    } else if word == "def"@ {
        Some(Kind::VarDefine)
    } else if word == "inc"@ || word == "rem"@ || word == "dec"@ || word == "%"@ {
        Some(Kind::Operator)
    } else if word == "print"@ {
        Some(Kind::StdOut)
    } else if word == "if"@ {
        Some(Kind::If)
    } else if word == "when"@ {
        Some(Kind::When)
    } else if word == "and"@ || word == "or"@ || word == "not"@ {
        Some(Kind::Logical)
    } else if word == "="@ || word == "/="@ || word == ">"@ || word == "<"@ || word == "<="@
        || word == ">="@ || word == "max"@ || word == "min"@ {
        Some(Kind::Comparison)
    } else if word == "true"@ || word == "false"@ {
        Some(Kind::Bolean)
    } else {
        None
    }
}

/// True for characters that continue a word: letters and digits.
fn word_char(c: char) -> (r: bool)
    ensures
        r == (spec_classify(Some(c)) == Kind::Alphanum || spec_classify(Some(c)) == Kind::Integer),
{
    let k = Kind::classify(&Some(c));
    k == Kind::Alphanum || k == Kind::Integer
}

/// True when the word reads exactly as the given literal.
pub(crate) fn word_is(word: &String, lit: &str) -> (r: bool)
    ensures
        r == (word@ == lit@),
{
    *word == String::from_str(lit)
}

impl Kind {
    /// Classify one character of source text.
    pub fn classify(character: &Option<char>) -> (k: Kind)
        ensures
            k == spec_classify(*character),
    {
        match *character {
            Some(value) => match value {
                ';' => Kind::Comment,
                ',' => Kind::Separator,
                '(' => Kind::GroupBegin,
                ')' => Kind::GroupEnd,
                '[' => Kind::ArgsBegin,
                ']' => Kind::ArgsEnd,
                ' ' => Kind::Space,
                '\n' => Kind::EndLine,
                '"' => Kind::Str,
                '\'' => Kind::List,
                '+' | '-' | '*' | '/' => Kind::Operator,
                '0' | '1' | '2' | '3' | '4' | '5' | '6' | '7' | '8' | '9' => Kind::Integer,
                _ => Kind::Alphanum,
            },
            None => Kind::EOF,
        }
    }

    /// Look a completed word up in the reserved-word table.
    pub fn reserved(word: &String) -> (r: Option<Kind>)
        ensures
            r == spec_reserved(word@),
    {
        if word_is(word, "defn") {
            Some(Kind::FnDefine)
        } else if word_is(word, "def") {
            Some(Kind::VarDefine)
        } else if word_is(word, "inc") || word_is(word, "rem")
            || word_is(word, "dec") || word_is(word, "%") {
            Some(Kind::Operator)
        } else if word_is(word, "print") {
            Some(Kind::StdOut)
        } else if word_is(word, "if") {
            Some(Kind::If)
        } else if word_is(word, "when") {
            Some(Kind::When)
        } else if word_is(word, "and") || word_is(word, "or")
            || word_is(word, "not") {
            Some(Kind::Logical)
        } else if word_is(word, "=") || word_is(word, "/=")
            || word_is(word, ">") || word_is(word, "<")
            || word_is(word, "<=") || word_is(word, ">=")
            || word_is(word, "max") || word_is(word, "min") {
            Some(Kind::Comparison)
        } else if word_is(word, "true") || word_is(word, "false") {
            Some(Kind::Bolean)
        } else {
            None
        }
    }
}

/// Mathematical image of a token: its kind and its text.
#[verifier::ext_equal]
pub struct TokenV {
    pub kind: Kind,
    pub text: Seq<char>,
}

/// A classified piece of source text.
#[derive(Debug, Clone, PartialEq)]
pub struct Token {
    pub kind: Kind,
    pub value: String,
}

impl View for Token {
    type V = TokenV;

    open spec fn view(&self) -> TokenV {
        TokenV { kind: self.kind, text: self.value@ }
    }
}

impl Token {
    /// Pack a kind and a text into a token.
    pub fn build(kind: Kind, value: String) -> (t: Token)
        ensures
            t.kind == kind,
            t.value == value,
    {
        Token { kind, value }
    }
}

/// The first index at or after `from` whose character does not classify as
/// `kind` (or the end of the text).
pub open spec fn run_end(text: Seq<char>, from: int, kind: Kind) -> int
    decreases text.len() - from,
    when 0 <= from <= text.len()
{
    if from >= text.len() {
        from
    } else if spec_classify(Some(text[from])) == kind {
        run_end(text, from + 1, kind)
    } else {
        from
    }
}

/// The first index at or after `from` whose character classifies as `kind`
/// (or the end of the text).
pub open spec fn scan_to(text: Seq<char>, from: int, kind: Kind) -> int
    decreases text.len() - from,
    when 0 <= from <= text.len()
{
    if from >= text.len() {
        from
    } else if spec_classify(Some(text[from])) == kind {
        from
    } else {
        scan_to(text, from + 1, kind)
    }
}

/// The first index at or after `from` whose character classifies neither as
/// a word character nor as a digit (or the end of the text).
pub open spec fn word_end(text: Seq<char>, from: int) -> int
    decreases text.len() - from,
    when 0 <= from <= text.len()
{
    if from >= text.len() {
        from
    } else if spec_classify(Some(text[from])) == Kind::Alphanum || spec_classify(
        Some(text[from]),
    ) == Kind::Integer {
        word_end(text, from + 1)
    } else {
        from
    }
}

pub proof fn lemma_run_end_bounds(text: Seq<char>, from: int, kind: Kind)
    requires
        0 <= from <= text.len(),
    ensures
        from <= run_end(text, from, kind) <= text.len(),
    decreases text.len() - from,
{
    if from < text.len() && spec_classify(Some(text[from])) == kind {
        lemma_run_end_bounds(text, from + 1, kind);
    }
}

pub proof fn lemma_scan_to_bounds(text: Seq<char>, from: int, kind: Kind)
    requires
        0 <= from <= text.len(),
    ensures
        from <= scan_to(text, from, kind) <= text.len(),
    decreases text.len() - from,
{
    if from < text.len() && spec_classify(Some(text[from])) != kind {
        lemma_scan_to_bounds(text, from + 1, kind);
    }
}

pub proof fn lemma_word_end_bounds(text: Seq<char>, from: int)
    requires
        0 <= from <= text.len(),
    ensures
        from <= word_end(text, from) <= text.len(),
    decreases text.len() - from,
{
    if from < text.len() && (spec_classify(Some(text[from])) == Kind::Alphanum || spec_classify(
        Some(text[from]),
    ) == Kind::Integer) {
        lemma_word_end_bounds(text, from + 1);
    }
}

/// A quoted-list body with every space turned into a comma.
pub open spec fn spec_commas(s: Seq<char>) -> Seq<char> {
    Seq::new(s.len(), |i: int| if s[i] == ' ' { ',' } else { s[i] })
}

/// One step of scanning: the token found at or after `pos`, and the position
/// just past it.
pub struct Scan {
    pub token: TokenV,
    pub end: int,
}

/// What scanning the text from position `pos` produces: whitespace and
/// comments are skipped; a string literal runs to the next quote; a quoted
/// list runs to the next closing parenthesis with spaces turned into commas;
/// `/=` takes one token of lookahead; a word is checked against the
/// reserved-word table; any other run of same-kind characters is one token.
pub open spec fn spec_scan(text: Seq<char>, pos: int) -> Scan
    decreases text.len() - pos,
    when 0 <= pos <= text.len()
    via spec_scan_decreases
{
    if pos >= text.len() {
        Scan { token: TokenV { kind: Kind::EOF, text: Seq::empty() }, end: pos }
    } else {
        let c = text[pos];
        let kind = spec_classify(Some(c));
        let p1 = pos + 1;
        if kind == Kind::Comment {
            spec_scan(text, scan_to(text, p1, Kind::EndLine))
        } else if kind == Kind::Space || kind == Kind::EndLine {
            spec_scan(text, p1)
        } else if kind == Kind::Str {
            let close = scan_to(text, p1, Kind::Str);
            Scan {
                token: TokenV { kind: Kind::Str, text: text.subrange(p1, close) },
                end: if close + 1 <= text.len() {
                    close + 1
                } else {
                    text.len() as int
                },
            }
        } else if kind == Kind::List {
            let start = if p1 + 1 <= text.len() {
                p1 + 1
            } else {
                text.len() as int
            };
            let close = scan_to(text, start, Kind::GroupEnd);
            Scan {
                token: TokenV { kind: Kind::List, text: spec_commas(text.subrange(start, close)) },
                end: if close + 1 <= text.len() {
                    close + 1
                } else {
                    text.len() as int
                },
            }
        } else if kind == Kind::Operator {
            if c == '/' && spec_scan(text, p1).token == (TokenV {
                kind: Kind::Comparison,
                text: "="@,
            }) {
                Scan { token: TokenV { kind: Kind::Comparison, text: "/="@ }, end: p1 + 1 }
            } else {
                Scan { token: TokenV { kind: Kind::Operator, text: seq![c] }, end: p1 }
            }
        } else if kind == Kind::GroupBegin || kind == Kind::GroupEnd || kind == Kind::Logical
            || kind == Kind::Comparison {
            Scan { token: TokenV { kind, text: seq![c] }, end: p1 }
        } else if kind == Kind::Alphanum {
            let e = word_end(text, p1);
            let word = text.subrange(pos, e);
            match spec_reserved(word) {
                Some(k) => Scan { token: TokenV { kind: k, text: word }, end: e },
                None => Scan { token: TokenV { kind: Kind::ID, text: word }, end: e },
            }
        } else {
            let e = run_end(text, p1, kind);
            Scan { token: TokenV { kind, text: text.subrange(pos, e) }, end: e }
        }
    }
}

#[via_fn]
proof fn spec_scan_decreases(text: Seq<char>, pos: int) {
    if 0 <= pos < text.len() {
        let kind = spec_classify(Some(text[pos]));
        if kind == Kind::Comment {
            lemma_scan_to_bounds(text, pos + 1, Kind::EndLine);
        }
    }
}

/// Positions past the end of a scan never move backwards, and stay in the
/// text.
pub proof fn lemma_spec_scan_end(text: Seq<char>, pos: int)
    requires
        0 <= pos <= text.len(),
    ensures
        pos <= spec_scan(text, pos).end <= text.len(),
        pos < text.len() ==> pos < spec_scan(text, pos).end,
        pos == text.len() ==> spec_scan(text, pos).end == pos && spec_scan(
            text,
            pos,
        ).token.kind == Kind::EOF,
    decreases text.len() - pos,
{
    if pos < text.len() {
        let c = text[pos];
        let kind = spec_classify(Some(c));
        let p1 = pos + 1;
        if kind == Kind::Comment {
            lemma_scan_to_bounds(text, p1, Kind::EndLine);
            lemma_spec_scan_end(text, scan_to(text, p1, Kind::EndLine));
        } else if kind == Kind::Space || kind == Kind::EndLine {
            lemma_spec_scan_end(text, p1);
        } else if kind == Kind::Str {
            lemma_scan_to_bounds(text, p1, Kind::Str);
        } else if kind == Kind::List {
            let start = if p1 + 1 <= text.len() {
                p1 + 1
            } else {
                text.len() as int
            };
            lemma_scan_to_bounds(text, start, Kind::GroupEnd);
        } else if kind == Kind::Alphanum {
            lemma_word_end_bounds(text, p1);
        } else {
            lemma_run_end_bounds(text, p1, kind);
        }
    }
}

/// Appends one character at the end of a string.
///
/// Relies on `String::push`: the string grows by exactly that character.
#[verifier::external_body]
pub(crate) fn push_char(s: &mut String, c: char)
    ensures
        final(s)@ == old(s)@.push(c),
{
    s.push(c);
}

/// A one-character string.
fn char_string(c: char) -> (s: String)
    ensures
        s@ == seq![c],
{
    let mut s = String::new();
    push_char(&mut s, c);
    proof {
        assert(Seq::<char>::empty().push(c) =~= seq![c]);
    }
    s
}

/// A copy of the string with every space turned into a comma.
fn commas_of(s: &String) -> (r: String)
    ensures
        r@ == spec_commas(s@),
{
    let mut r = String::new();
    let len = s.as_str().unicode_len();
    let mut i: usize = 0;
    while i < len
        invariant
            i <= len,
            len == s@.len(),
            r@ =~= spec_commas(s@).subrange(0, i as int),
        decreases len - i,
    {
        let c = s.as_str().get_char(i);
        if c == ' ' {
            push_char(&mut r, ',');
        } else {
            push_char(&mut r, c);
        }
        proof {
            assert(r@ =~= spec_commas(s@).subrange(0, i + 1 as int));
        }
        i += 1;
    }
    proof {
        assert(spec_commas(s@).subrange(0, s@.len() as int) =~= spec_commas(s@));
    }
    r
}

/// A scan that reports end-of-input has consumed all remaining text.
pub proof fn lemma_spec_scan_not_eof_kind(text: Seq<char>, pos: int)
    requires
        0 <= pos <= text.len(),
    ensures
        spec_scan(text, pos).token.kind == Kind::EOF ==> spec_scan(text, pos).end == text.len(),
    decreases text.len() - pos,
{
    if pos < text.len() {
        let c = text[pos];
        let kind = spec_classify(Some(c));
        let p1 = pos + 1;
        if kind == Kind::Comment {
            lemma_scan_to_bounds(text, p1, Kind::EndLine);
            lemma_spec_scan_not_eof_kind(text, scan_to(text, p1, Kind::EndLine));
        } else if kind == Kind::Space || kind == Kind::EndLine {
            lemma_spec_scan_not_eof_kind(text, p1);
        }
    }
}

/// The scanner: classifies and buffers tokens pulled from the source text,
/// one token of lookahead at a time.
#[derive(Debug)]
pub struct Tokenizer {
    pub text: String,
    pub position: usize,
    current: Option<Token>,
}

impl Tokenizer {
    /// The scanned text, as its characters.
    pub closed spec fn spec_text(&self) -> Seq<char> {
        self.text@
    }

    /// The cursor position, in characters from the start of the text.
    pub closed spec fn spec_pos(&self) -> int {
        self.position as int
    }

    /// The cursor never leaves the text, and the end-of-input token is only
    /// ever buffered once the cursor has reached the end.
    pub closed spec fn wf(&self) -> bool {
        &&& self.position <= self.text@.len()
        &&& (self.spec_buf() matches Some(t) && t.kind == Kind::EOF ==> self.position
            == self.text@.len())
    }

    /// The position a `peek` starts scanning from: position zero is bumped
    /// past the first character.
    pub open spec fn peek_start(&self) -> int {
        if self.spec_pos() == 0 {
            if self.spec_text().len() < 1 {
                0
            } else {
                1
            }
        } else {
            self.spec_pos()
        }
    }

    /// The buffered token, if one is held.
    pub closed spec fn spec_buf(&self) -> Option<TokenV> {
        match self.current {
            Some(t) => Some(t@),
            None => None,
        }
    }

    /// How much scanning work remains: twice the unread text, plus one if a
    /// token other than the end-of-input token is buffered. Scanning and
    /// consuming both shrink it.
    pub closed spec fn m(&self) -> int {
        2 * (self.text@.len() - self.position) + (match self.spec_buf() {
            Some(t) => if t.kind != Kind::EOF {
                1int
            } else {
                0int
            },
            None => 0int,
        })
    }

    pub fn new(text: String) -> (t: Tokenizer)
        ensures
            t.spec_text() == text@,
            t.spec_pos() == 0,
            t.spec_buf() is None,
            t.wf(),
    {
        Tokenizer { text, position: 0, current: None }
    }

    /// The character under the cursor, or `None` at the end of the text.
    pub fn current(&self) -> (c: Option<char>)
        requires
            self.wf(),
        ensures
            c == (if self.spec_pos() < self.spec_text().len() {
                Some(self.spec_text()[self.spec_pos()])
            } else {
                None::<char>
            }),
    {
        if self.position < self.text.as_str().unicode_len() {
            Some(self.text.as_str().get_char(self.position))
        } else {
            None
        }
    }

    /// First index at or after `from` whose character classifies as `kind`.
    fn scan_to_pos(&self, from: usize, kind: Kind) -> (e: usize)
        requires
            self.wf(),
            from <= self.text@.len(),
        ensures
            e == scan_to(self.text@, from as int, kind),
            from <= e <= self.text@.len(),
    {
        let len = self.text.as_str().unicode_len();
        let mut e = from;
        while e < len && Kind::classify(&Some(self.text.as_str().get_char(e))) != kind
            invariant
                from <= e <= len,
                len == self.text@.len(),
                scan_to(self.text@, from as int, kind) == scan_to(self.text@, e as int, kind),
            decreases len - e,
        {
            e += 1;
        }
        e
    }

    /// First index at or after `from` whose character does not classify as
    /// `kind`.
    fn run_end_pos(&self, from: usize, kind: Kind) -> (e: usize)
        requires
            self.wf(),
            from <= self.text@.len(),
        ensures
            e == run_end(self.text@, from as int, kind),
            from <= e <= self.text@.len(),
    {
        let len = self.text.as_str().unicode_len();
        let mut e = from;
        while e < len && Kind::classify(&Some(self.text.as_str().get_char(e))) == kind
            invariant
                from <= e <= len,
                len == self.text@.len(),
                run_end(self.text@, from as int, kind) == run_end(self.text@, e as int, kind),
            decreases len - e,
        {
            e += 1;
        }
        e
    }

    /// First index at or after `from` that ends a run of word or digit
    /// characters.
    fn word_end_pos(&self, from: usize) -> (e: usize)
        requires
            self.wf(),
            from <= self.text@.len(),
        ensures
            e == word_end(self.text@, from as int),
            from <= e <= self.text@.len(),
    {
        let len = self.text.as_str().unicode_len();
        let mut e = from;
        while e < len && word_char(self.text.as_str().get_char(e))
            invariant
                from <= e <= len,
                len == self.text@.len(),
                word_end(self.text@, from as int) == word_end(self.text@, e as int),
            decreases len - e,
        {
            e += 1;
        }
        e
    }

    /// The text between the two character positions, as a fresh string.
    fn take_range(&self, from: usize, to: usize) -> (s: String)
        requires
            self.wf(),
            from <= to <= self.text@.len(),
        ensures
            s@ == self.text@.subrange(from as int, to as int),
    {
        String::from_str(self.text.as_str().substring_char(from, to))
    }

    /// Scans the next token out of the text, advancing the cursor past it.
    /// Whitespace and comments are skipped; at the end of the text the token
    /// is the end-of-input token and the cursor stays put.
    pub fn next(&mut self) -> (r: Option<Token>)
        requires
            old(self).wf(),
        ensures
            final(self).wf(),
            final(self).spec_text() == old(self).spec_text(),
            final(self).spec_buf() == old(self).spec_buf(),
            ({
                let sc = spec_scan(old(self).spec_text(), old(self).spec_pos());
                r matches Some(t) && t@ == sc.token && final(self).spec_pos() == sc.end
            }),
        decreases self.spec_text().len() - self.spec_pos(), 0int,
    {
        let len = self.text.as_str().unicode_len();
        if self.position >= len {
            return Some(Token::build(Kind::EOF, String::new()));
        }
        let c = self.text.as_str().get_char(self.position);
        let kind = Kind::classify(&Some(c));
        self.position += 1;
        match kind {
            Kind::Comment => {
                let e = self.scan_to_pos(self.position, Kind::EndLine);
                self.position = e;
                self.next()
            },
            Kind::Space | Kind::EndLine => self.next(),
            Kind::Str => {
                let close = self.scan_to_pos(self.position, Kind::Str);
                let w = self.take_range(self.position, close);
                self.position = if close < len {
                    close + 1
                } else {
                    len
                };
                Some(Token::build(Kind::Str, w))
            },
            Kind::List => {
                let start = if self.position < len {
                    self.position + 1
                } else {
                    len
                };
                let close = self.scan_to_pos(start, Kind::GroupEnd);
                let raw = self.take_range(start, close);
                let w = commas_of(&raw);
                self.position = if close < len {
                    close + 1
                } else {
                    len
                };
                Some(Token::build(Kind::List, w))
            },
            Kind::Operator => {
                let mut is_eq = false;
                if c == '/' {
                    let p = self.peek();
                    is_eq = match p {
                        Some(t) => t.kind == Kind::Comparison && word_is(&t.value, "="),
                        None => false,
                    };
                }
                if is_eq {
                    proof {
                        lemma_spec_scan_end(old(self).text@, self.position as int);
                    }
                    self.position += 1;
                    Some(Token::build(Kind::Comparison, String::from_str("/=")))
                } else {
                    Some(Token::build(Kind::Operator, char_string(c)))
                }
            },
            Kind::GroupBegin | Kind::GroupEnd | Kind::Logical | Kind::Comparison => {
                Some(Token::build(kind, char_string(c)))
            },
            Kind::Alphanum => {
                let e = self.word_end_pos(self.position);
                let w = self.take_range(self.position - 1, e);
                self.position = e;
                match Kind::reserved(&w) {
                    Some(r) => Some(Token::build(r, w)),
                    None => Some(Token::build(Kind::ID, w)),
                }
            },
            _ => {
                let e = self.run_end_pos(self.position, kind);
                let w = self.take_range(self.position - 1, e);
                self.position = e;
                Some(Token::build(kind, w))
            },
        }
    }

    /// Previews the token that would follow the cursor, without moving it.
    pub fn peek(&mut self) -> (r: Option<Token>)
        requires
            old(self).wf(),
        ensures
            final(self).spec_text() == old(self).spec_text(),
            final(self).spec_pos() == old(self).spec_pos(),
            final(self).spec_buf() == old(self).spec_buf(),
            final(self).wf(),
            r matches Some(t) && t@ == spec_scan(old(self).spec_text(), old(self).peek_start()).token,
        decreases self.spec_text().len() - self.spec_pos(), 1int,
    {
        let curr = self.position;
        if self.position == 0 {
            let len = self.text.as_str().unicode_len();
            if len > 0 {
                self.position = 1;
            }
        }
        let next = self.next();
        self.position = curr;
        next
    }

    /// Makes sure a token is buffered, scanning one if none is; at the end
    /// of the input the buffered token is the end-of-input token. A second
    /// call changes nothing.
    pub fn advance(&mut self) -> (ret: &mut Self)
        requires
            old(self).wf(),
        ensures
            ret.wf(),
            ret.spec_text() == old(self).spec_text(),
            old(self).spec_buf() is Some ==> *ret == *old(self),
            old(self).spec_buf() is None ==> ({
                let sc = spec_scan(old(self).spec_text(), old(self).spec_pos());
                &&& ret.spec_pos() == sc.end
                &&& ret.spec_buf() == Some(sc.token)
            }),
            ret.m() <= old(self).m(),
            old(self).spec_buf() is None && old(self).spec_pos() < old(self).spec_text().len()
                ==> ret.m() < old(self).m(),
            *final(self) == *final(ret),
    {
        if self.current.is_none() {
            proof {
                lemma_spec_scan_end(self.text@, self.position as int);
                lemma_spec_scan_not_eof_kind(self.text@, self.position as int);
            }
            let t = self.next();
            match t {
                Some(tok) => {
                    self.current = Some(tok);
                },
                None => {},
            }
        }
        self
    }

    /// A copy of the buffered token, if one is held.
    pub fn get(&mut self) -> (r: Option<Token>)
        ensures
            *final(self) == *old(self),
            match r {
                Some(t) => final(self).spec_buf() == Some(t@),
                None => final(self).spec_buf() is None,
            },
    {
        match &self.current {
            Some(t) => Some(Token { kind: t.kind, value: t.value.clone() }),
            None => None,
        }
    }

    /// Hands the buffered token out, emptying the buffer. The caller must
    /// know the buffered token has the expected kind; the parser checks the
    /// kind before consuming and reports a syntax error itself otherwise.
    pub fn consume(&mut self, expect_kind: Kind) -> (t: Token)
        requires
            old(self).spec_buf() matches Some(b) && b.kind == expect_kind,
        ensures
            old(self).spec_buf() == Some(t@),
            final(self).spec_buf() is None,
            final(self).spec_text() == old(self).spec_text(),
            final(self).spec_pos() == old(self).spec_pos(),
            old(self).wf() ==> final(self).wf(),
            t@.kind != Kind::EOF ==> final(self).m() == old(self).m() - 1,
            final(self).m() <= old(self).m(),
    {
        let t = self.current.take();
        match t {
            Some(token) => token,
            None => vstd::pervasive::unreached(),
        }
    }

    /// The remaining-work measure is never negative on a well-formed scanner.
    pub proof fn lemma_m_nonneg(&self)
        requires
            self.wf(),
        ensures
            self.m() >= 0,
    {
    }

    /// The remaining-work measure, written out over the scanner's public
    /// state, so that other modules can compute it.
    pub proof fn lemma_m_formula(&self)
        ensures
            self.m() == 2 * (self.spec_text().len() - self.spec_pos()) + (match self.spec_buf() {
                Some(t) => if t.kind != Kind::EOF {
                    1int
                } else {
                    0int
                },
                None => 0int,
            }),
    {
    }

    /// On a well-formed scanner the end-of-input token is only buffered once
    /// the cursor has reached the end of the text.
    pub proof fn lemma_eof_buffered_at_end(&self)
        requires
            self.wf(),
        ensures
            self.spec_buf() matches Some(t) && t.kind == Kind::EOF ==> self.spec_pos()
                == self.spec_text().len(),
    {
    }
}

} // verus!
