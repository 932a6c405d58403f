use std::collections::VecDeque;
use vstd::prelude::*;
use vstd::std_specs::iter::IteratorSpec;

use crate::errors::{ErrorKind, MyError};

verus! {

/// A token of the source text.
#[derive(Debug, PartialEq, Eq)]
pub enum Token {
    /// A punctuator or a reserved keyword.
    Reserved { keyword: String },
    /// A decimal integer literal: its text and its value.
    Num { raw: String, val: i32 },
    /// A name that is not a keyword.
    Ident { name: String },
    /// The end of the input.
    Eof,
}

/// What a token holds, as plain values.
pub enum Lexeme {
    Reserved(Seq<char>),
    Num(Seq<char>, i32),
    Ident(Seq<char>),
    Eof,
}

impl View for Token {
    type V = Lexeme;

    open spec fn view(&self) -> Lexeme {
        match self {
            Token::Reserved { keyword } => Lexeme::Reserved(keyword@),
            Token::Num { raw, val } => Lexeme::Num(raw@, *val),
            Token::Ident { name } => Lexeme::Ident(name@),
            Token::Eof => Lexeme::Eof,
        }
    }
}

/// The characters of `s`.
fn chars_of(s: &str) -> (r: Vec<char>)
    ensures
        r@ == s@,
{
    let mut it = s.chars();
    let mut r: Vec<char> = Vec::new();
    loop
        invariant
            r@ + it.remaining() == s@,
            it.decrease() is Some,
        ensures
            r@ == s@,
        decreases it.decrease()->0,
    {
        match it.next() {
            Some(c) => {
                r.push(c);
            },
            None => {
                assert(r@ + it.remaining() =~= r@);
                break;
            },
        }
    }
    r
}

/// The token queue: what the parser has still to read, in order.
#[derive(Debug)]
pub struct TokenQueue(pub VecDeque<Token>);

impl View for TokenQueue {
    type V = Seq<Lexeme>;

    open spec fn view(&self) -> Seq<Lexeme> {
        self.0@.map_values(|t: Token| t@)
    }
}

pub open spec fn is_digit(c: char) -> bool {
    '0' <= c && c <= '9'
}

pub open spec fn is_alpha(c: char) -> bool {
    ('a' <= c && c <= 'z') || ('A' <= c && c <= 'Z') || c == '_'
}

pub open spec fn is_alnum(c: char) -> bool {
    is_alpha(c) || is_digit(c)
}

/// The one-character punctuators.
pub open spec fn is_punct1(c: char) -> bool {
    c == '+' || c == '-' || c == '*' || c == '/' || c == '(' || c == ')' || c == '<' || c == '>'
        || c == ';' || c == '=' || c == '{' || c == '}' || c == '&'
}

/// The two-character punctuators: `==`, `!=`, `<=`, `>=`.
pub open spec fn is_punct2(a: char, b: char) -> bool {
    b == '=' && (a == '=' || a == '!' || a == '<' || a == '>')
}

pub open spec fn is_keyword(w: Seq<char>) -> bool {
    w == "return"@ || w == "if"@ || w == "else"@ || w == "for"@ || w == "while"@ || w == "int"@
}

/// Where the run of digits that starts at `i` ends.
pub open spec fn digits_end(s: Seq<char>, i: int) -> int
    decreases s.len() - i,
{
    if 0 <= i < s.len() && is_digit(s[i]) {
        digits_end(s, i + 1)
    } else {
        i
    }
}

/// Where the run of letters, digits and underscores that starts at `i` ends.
pub open spec fn ident_end(s: Seq<char>, i: int) -> int
    decreases s.len() - i,
{
    if 0 <= i < s.len() && is_alnum(s[i]) {
        ident_end(s, i + 1)
    } else {
        i
    }
}

/// The value of a string of decimal digits.
pub open spec fn digits_value(d: Seq<char>) -> int
    decreases d.len(),
{
    if d.len() == 0 {
        0
    } else {
        digits_value(d.drop_last()) * 10 + (d.last() as int - '0' as int)
    }
}

pub open spec fn prepend(p: Seq<Lexeme>, rest: Option<Seq<Lexeme>>) -> Option<Seq<Lexeme>> {
    match rest {
        Some(r) => Some(p + r),
        None => None,
    }
}

/// The tokens of `s` from position `i` on, or `None` where `s` cannot be
/// tokenized.
pub open spec fn lex_from(s: Seq<char>, i: int) -> Option<Seq<Lexeme>>
    decreases s.len() - i,
{
    if i < 0 || i >= s.len() {
        Some(seq![Lexeme::Eof])
    } else if s[i] == ' ' {
        lex_from(s, i + 1)
    } else if is_digit(s[i]) {
        let j = digits_end(s, i);
        let raw = s.subrange(i, j);
        if j <= i || j > s.len() || digits_value(raw) > i32::MAX {
            None
        } else {
            prepend(seq![Lexeme::Num(raw, digits_value(raw) as i32)], lex_from(s, j))
        }
    } else if i + 1 < s.len() && is_punct2(s[i], s[i + 1]) {
        prepend(seq![Lexeme::Reserved(s.subrange(i, i + 2))], lex_from(s, i + 2))
    } else if is_punct1(s[i]) {
        prepend(seq![Lexeme::Reserved(s.subrange(i, i + 1))], lex_from(s, i + 1))
    } else if is_alpha(s[i]) {
        let j = ident_end(s, i + 1);
        let w = s.subrange(i, j);
        if j <= i || j > s.len() {
            None
        } else if is_keyword(w) {
            prepend(seq![Lexeme::Reserved(w)], lex_from(s, j))
        } else {
            prepend(seq![Lexeme::Ident(w)], lex_from(s, j))
        }
    } else {
        None
    }
}

/// The tokens of a whole source text.
pub open spec fn lex(s: Seq<char>) -> Option<Seq<Lexeme>> {
    lex_from(s, 0)
}

/// A token that carries some text.
pub open spec fn lexeme_nonempty(t: Lexeme) -> bool {
    match t {
        Lexeme::Reserved(k) => k.len() > 0,
        Lexeme::Num(raw, _) => raw.len() > 0,
        Lexeme::Ident(n) => n.len() > 0,
        Lexeme::Eof => true,
    }
}

/// A token sequence that ends with `Eof`, holds no other `Eof`, and no
/// token with empty text.
pub open spec fn well_terminated(ts: Seq<Lexeme>) -> bool {
    &&& ts.len() > 0
    &&& ts.last() == Lexeme::Eof
    &&& forall|k: int| 0 <= k < ts.len() - 1 ==> ts[k] != Lexeme::Eof
    &&& forall|k: int| 0 <= k < ts.len() ==> lexeme_nonempty(#[trigger] ts[k])
}

proof fn lemma_prepend_assoc(p: Seq<Lexeme>, q: Seq<Lexeme>, rest: Option<Seq<Lexeme>>)
    ensures
        prepend(p, prepend(q, rest)) == prepend(p + q, rest),
{
    if let Some(r) = rest {
        assert(p + (q + r) =~= (p + q) + r);
    }
}

proof fn lemma_cons_well_terminated(t: Lexeme, rest: Seq<Lexeme>)
    requires
        well_terminated(rest),
        t != Lexeme::Eof,
        lexeme_nonempty(t),
    ensures
        well_terminated(seq![t] + rest),
{
    let r = seq![t] + rest;
    assert forall|k: int| 0 <= k < r.len() implies lexeme_nonempty(#[trigger] r[k]) by {
        if k > 0 {
            assert(r[k] == rest[k - 1]);
        }
    }
    assert forall|k: int| 0 <= k < r.len() - 1 implies r[k] != Lexeme::Eof by {
        if k > 0 {
            assert(r[k] == rest[k - 1]);
        }
    }
}

/// Every successful tokenization ends with `Eof`, holds it once, and holds
/// no token with empty text.
pub proof fn lemma_lex_well_terminated(s: Seq<char>, i: int)
    requires
        lex_from(s, i) is Some,
    ensures
        well_terminated(lex_from(s, i)->0),
    decreases s.len() - i,
{
    if i < 0 || i >= s.len() {
    } else if s[i] == ' ' {
        lemma_lex_well_terminated(s, i + 1);
    } else if is_digit(s[i]) {
        let j = digits_end(s, i);
        lemma_lex_well_terminated(s, j);
        let raw = s.subrange(i, j);
        lemma_cons_well_terminated(Lexeme::Num(raw, digits_value(raw) as i32), lex_from(s, j)->0);
    } else if i + 1 < s.len() && is_punct2(s[i], s[i + 1]) {
        lemma_lex_well_terminated(s, i + 2);
        lemma_cons_well_terminated(Lexeme::Reserved(s.subrange(i, i + 2)), lex_from(s, i + 2)->0);
    } else if is_punct1(s[i]) {
        lemma_lex_well_terminated(s, i + 1);
        lemma_cons_well_terminated(Lexeme::Reserved(s.subrange(i, i + 1)), lex_from(s, i + 1)->0);
    } else if is_alpha(s[i]) {
        let j = ident_end(s, i + 1);
        let w = s.subrange(i, j);
        lemma_lex_well_terminated(s, j);
        if is_keyword(w) {
            lemma_cons_well_terminated(Lexeme::Reserved(w), lex_from(s, j)->0);
        } else {
            lemma_cons_well_terminated(Lexeme::Ident(w), lex_from(s, j)->0);
        }
    }
}

proof fn lemma_digits_value_step(d: Seq<char>, c: char)
    ensures
        digits_value(d.push(c)) == digits_value(d) * 10 + (c as int - '0' as int),
{
    assert(d.push(c).drop_last() =~= d);
}

proof fn lemma_digits_value_nonneg(d: Seq<char>)
    requires
        forall|k: int| 0 <= k < d.len() ==> is_digit(#[trigger] d[k]),
    ensures
        digits_value(d) >= 0,
    decreases d.len(),
{
    if d.len() > 0 {
        assert(is_digit(d[d.len() - 1]));
        lemma_digits_value_nonneg(d.drop_last());
    }
}

/// A longer run of digits has a value at least as large.
proof fn lemma_digits_value_grows(s: Seq<char>, from: int, k: int, to: int)
    requires
        0 <= from <= k <= to <= s.len(),
        forall|j: int| from <= j < to ==> is_digit(#[trigger] s[j]),
    ensures
        digits_value(s.subrange(from, to)) >= digits_value(s.subrange(from, k)),
    decreases to - k,
{
    if k < to {
        lemma_digits_value_grows(s, from, k, to - 1);
        let d = s.subrange(from, to - 1);
        assert(s.subrange(from, to) =~= d.push(s[to - 1]));
        lemma_digits_value_step(d, s[to - 1]);
        assert(is_digit(s[to - 1]));
        lemma_digits_value_nonneg(d);
    }
}

/// The text of `s` between two character positions.
fn text_between(s: &str, from: usize, to: usize) -> (r: String)
    requires
        from <= to <= s@.len(),
    ensures
        r@ == s@.subrange(from as int, to as int),
{
    s.substring_char(from, to).to_string()
}

impl TokenQueue {
    fn is_alpha(c: char) -> (r: bool)
        ensures
            r == is_alpha(c),
    {
        ('a' <= c && c <= 'z') || ('A' <= c && c <= 'Z') || c == '_'
    }

    fn is_alpha_num(c: char) -> (r: bool)
        ensures
            r == is_alnum(c),
    {
        Self::is_alpha(c) || ('0' <= c && c <= '9')
    }

    fn skip_whitespace(&self, cs: &Vec<char>, i: &mut usize)
        requires
            *old(i) <= cs@.len(),
        ensures
            *old(i) <= *final(i) <= cs@.len(),
            *final(i) == cs@.len() || cs@[*final(i) as int] != ' ',
            lex_from(cs@, *old(i) as int) == lex_from(cs@, *final(i) as int),
    {
        let ghost start = *i;
        while *i < cs.len() && cs[*i] == ' '
            invariant
                start <= *i <= cs@.len(),
                lex_from(cs@, start as int) == lex_from(cs@, *i as int),
            decreases cs@.len() - *i,
        {
            *i = *i + 1;
        }
    }

    fn extract_digit(&self, s: &str, cs: &Vec<char>, i: &mut usize) -> (r: Option<String>)
        requires
            cs@ == s@,
            *old(i) <= cs@.len(),
        ensures
            match r {
                Some(raw) => {
                    &&& *old(i) < cs@.len()
                    &&& is_digit(cs@[*old(i) as int])
                    &&& *final(i) == digits_end(cs@, *old(i) as int)
                    &&& *old(i) < *final(i) <= cs@.len()
                    &&& raw@ == cs@.subrange(*old(i) as int, *final(i) as int)
                    &&& forall|k: int| *old(i) <= k < *final(i) ==> is_digit(#[trigger] cs@[k])
                },
                None => {
                    &&& *final(i) == *old(i)
                    &&& !(*old(i) < cs@.len() && is_digit(cs@[*old(i) as int]))
                },
            },
    {
        let start = *i;
        while *i < cs.len() && '0' <= cs[*i] && cs[*i] <= '9'
            invariant
                start <= *i <= cs@.len(),
                digits_end(cs@, start as int) == digits_end(cs@, *i as int),
                *i > start ==> is_digit(cs@[start as int]),
                forall|k: int| start <= k < *i ==> is_digit(#[trigger] cs@[k]),
            decreases cs@.len() - *i,
        {
            *i = *i + 1;
        }
        if *i == start {
            None
        } else {
            Some(text_between(s, start, *i))
        }
    }

    fn extract_reserve(&self, s: &str, cs: &Vec<char>, i: &mut usize) -> (r: Option<String>)
        requires
            cs@ == s@,
            *old(i) <= cs@.len(),
        ensures
            ({
                let k = *old(i) as int;
                let two = k + 1 < cs@.len() && is_punct2(cs@[k], cs@[k + 1]);
                let one = k < cs@.len() && is_punct1(cs@[k]);
                match r {
                    Some(w) => if two {
                        *final(i) == k + 2 && w@ == cs@.subrange(k, k + 2)
                    } else {
                        one && *final(i) == k + 1 && w@ == cs@.subrange(k, k + 1)
                    },
                    None => !two && !one && *final(i) == k,
                }
            }),
    {
        let k = *i;
        if k >= cs.len() {
            return None;
        }
        if k + 1 < cs.len() {
            let a = cs[k];
            let b = cs[k + 1];
            if b == '=' && (a == '=' || a == '!' || a == '<' || a == '>') {
                *i = k + 2;
                return Some(text_between(s, k, k + 2));
            }
        }
        let c = cs[k];
        if c == '+' || c == '-' || c == '*' || c == '/' || c == '(' || c == ')' || c == '<' || c
            == '>' || c == ';' || c == '=' || c == '{' || c == '}' || c == '&' {
            *i = k + 1;
            Some(text_between(s, k, k + 1))
        } else {
            None
        }
    }

    fn extract_ident(&self, s: &str, cs: &Vec<char>, i: &mut usize) -> (r: Option<String>)
        requires
            cs@ == s@,
            *old(i) <= cs@.len(),
        ensures
            ({
                let k = *old(i) as int;
                match r {
                    Some(w) => {
                        &&& k < cs@.len()
                        &&& is_alpha(cs@[k])
                        &&& *final(i) == ident_end(cs@, k + 1)
                        &&& k < *final(i) <= cs@.len()
                        &&& w@ == cs@.subrange(k, *final(i) as int)
                    },
                    None => !(k < cs@.len() && is_alpha(cs@[k])) && *final(i) == k,
                }
            }),
    {
        let start = *i;
        if start >= cs.len() || !Self::is_alpha(cs[start]) {
            return None;
        }
        *i = start + 1;
        while *i < cs.len() && Self::is_alpha_num(cs[*i])
            invariant
                start < *i <= cs@.len(),
                ident_end(cs@, start + 1) == ident_end(cs@, *i as int),
            decreases cs@.len() - *i,
        {
            *i = *i + 1;
        }
        Some(text_between(s, start, *i))
    }

    /// The value of the digits between `from` and `to`, where it fits in an
    /// `i32`.
    fn parse_decimal(cs: &Vec<char>, from: usize, to: usize) -> (r: Option<i32>)
        requires
            from <= to <= cs@.len(),
            forall|k: int| from <= k < to ==> is_digit(#[trigger] cs@[k]),
        ensures
            ({
                let v = digits_value(cs@.subrange(from as int, to as int));
                match r {
                    Some(x) => v <= i32::MAX && x == v,
                    None => v > i32::MAX,
                }
            }),
    {
        let mut v: i64 = 0;
        let mut k = from;
        while k < to
            invariant
                from <= k <= to <= cs@.len(),
                forall|j: int| from <= j < to ==> is_digit(#[trigger] cs@[j]),
                0 <= v <= i32::MAX,
                v == digits_value(cs@.subrange(from as int, k as int)),
            decreases to - k,
        {
            let c = cs[k];
            let d = (c as u32 - '0' as u32) as i64;
            proof {
                assert(is_digit(cs@[k as int]));
                assert(cs@.subrange(from as int, k + 1) =~= cs@.subrange(from as int, k as int).push(c));
                lemma_digits_value_step(cs@.subrange(from as int, k as int), c);
            }
            v = v * 10 + d;
            k = k + 1;
            if v > i32::MAX as i64 {
                proof {
                    lemma_digits_value_grows(cs@, from as int, k as int, to as int);
                }
                return None;
            }
        }
        Some(v as i32)
    }
}

fn is_keyword_text(w: &String) -> (r: bool)
    ensures
        r == is_keyword(w@),
{
    w.eq(&"return".to_string()) || w.eq(&"if".to_string()) || w.eq(&"else".to_string()) || w.eq(
        &"for".to_string(),
    ) || w.eq(&"while".to_string()) || w.eq(&"int".to_string())
}

impl TokenQueue {
    fn push_token(&mut self, t: Token)
        ensures
            final(self)@ == old(self)@ + seq![t@],
    {
        self.0.push_back(t);
        assert(self@ =~= old(self)@ + seq![t@]);
    }

    /// Reads one token, after any spaces, from position `i` of `cs`.
    fn generate_token(&mut self, s: &str, cs: &Vec<char>, i: &mut usize) -> (r: Result<(), MyError>)
        requires
            cs@ == s@,
            *old(i) < cs@.len(),
        ensures
            match r {
                Ok(()) => {
                    &&& *old(i) < *final(i) <= cs@.len()
                    &&& prepend(old(self)@, lex_from(cs@, *old(i) as int)) == prepend(
                        final(self)@,
                        lex_from(cs@, *final(i) as int),
                    )
                },
                Err(e) => lex_from(cs@, *old(i) as int) is None && e.kind == ErrorKind::Lexical,
            },
    {
        self.skip_whitespace(cs, i);
        let start = *i;
        let ghost before = self@;
        if let Some(num) = self.extract_digit(s, cs, i) {
            match Self::parse_decimal(cs, start, *i) {
                Some(v) => {
                    let t = Token::Num { raw: num, val: v };
                    proof {
                        lemma_prepend_assoc(before, seq![t@], lex_from(cs@, *i as int));
                    }
                    self.push_token(t);
                    return Ok(());
                },
                None => {
                    return Err(MyError::with_detail(ErrorKind::Lexical, "integer literal out of range: ", num.as_str()));
                },
            }
        }
        if let Some(reserve) = self.extract_reserve(s, cs, i) {
            let t = Token::Reserved { keyword: reserve };
            proof {
                lemma_prepend_assoc(before, seq![t@], lex_from(cs@, *i as int));
            }
            self.push_token(t);
            return Ok(());
        }
        if let Some(ident) = self.extract_ident(s, cs, i) {
            let t = if is_keyword_text(&ident) {
                Token::Reserved { keyword: ident }
            } else {
                Token::Ident { name: ident }
            };
            proof {
                lemma_prepend_assoc(before, seq![t@], lex_from(cs@, *i as int));
            }
            self.push_token(t);
            return Ok(());
        }
        if *i >= cs.len() {
            Ok(())
        } else {
            Err(MyError::with_detail(ErrorKind::Lexical, "unexpected character: ", text_between(s, *i, *i + 1).as_str()))
        }
    }

    fn new() -> (r: TokenQueue)
        ensures
            r@ == Seq::<Lexeme>::empty(),
    {
        let r = TokenQueue(VecDeque::new());
        assert(r@ =~= Seq::<Lexeme>::empty());
        r
    }

    /// Splits a source text into tokens, ending with `Eof`.
    pub fn tokenizer(s: &str) -> (r: Result<TokenQueue, MyError>)
        ensures
            match r {
                Ok(q) => lex(s@) == Some(q@) && well_terminated(q@),
                Err(e) => lex(s@) is None && e.kind == ErrorKind::Lexical,
            },
    {
        let cs = chars_of(s);
        let mut rv = Self::new();
        let mut i: usize = 0;
        proof {
            if let Some(t) = lex_from(cs@, 0) {
                assert(rv@ + t =~= t);
            }
        }
        while i < cs.len()
            invariant
                cs@ == s@,
                i <= cs@.len(),
                lex_from(cs@, 0) == prepend(rv@, lex_from(cs@, i as int)),
            decreases cs@.len() - i,
        {
            match rv.generate_token(s, &cs, &mut i) {
                Ok(()) => {},
                Err(e) => {
                    return Err(e);
                },
            }
        }
        rv.push_token(Token::Eof);
        proof {
            lemma_lex_well_terminated(s@, 0);
        }
        Ok(rv)
    }
}

impl std::ops::Index<usize> for TokenQueue {
    type Output = Token;

    fn index(&self, i: usize) -> &Token {
        &self.0[i]
    }
}

impl vstd::std_specs::core::IndexSpecImpl<usize> for TokenQueue {
    open spec fn index_req(&self, i: &usize) -> bool {
        *i < self.0@.len()
    }
}

impl TokenQueue {
    /// The queue ends with `Eof`, so the parser never reads past the end.
    pub open spec fn wf(&self) -> bool {
        self@.len() > 0 && self@.last() == Lexeme::Eof
    }

    proof fn lemma_pop_view(&self, next: &TokenQueue)
        requires
            self.0@.len() > 0,
            next.0@ == self.0@.subrange(1, self.0@.len() as int),
        ensures
            next@ == self@.drop_first(),
    {
        assert(next@ =~= self@.drop_first());
    }

    fn pop(&mut self) -> (r: Token)
        requires
            old(self)@.len() > 0,
        ensures
            r@ == old(self)@[0],
            final(self)@ == old(self)@.drop_first(),
    {
        let r = self.0.pop_front();
        proof {
            old(self).lemma_pop_view(self);
        }
        match r {
            Some(t) => t,
            None => Token::Eof,
        }
    }

    /// Takes the next token, which must be an integer literal.
    pub fn expect_num(&mut self) -> (r: Result<i32, MyError>)
        ensures
            final(self)@ == if old(self)@.len() > 0 {
                old(self)@.drop_first()
            } else {
                old(self)@
            },
            match r {
                Ok(v) => old(self)@.len() > 0 && (old(self)@[0] matches Lexeme::Num(_, x) && x == v),
                Err(e) => !(old(self)@.len() > 0 && old(self)@[0] is Num) && e.kind
                    == ErrorKind::Syntactic,
            },
    {
        if self.0.len() == 0 {
            return Err(MyError::new(ErrorKind::Syntactic, "expected a number, but no token left"));
        }
        match self.pop() {
            Token::Num { val, .. } => Ok(val),
            _ => Err(MyError::new(ErrorKind::Syntactic, "expected a number")),
        }
    }

    /// Takes the next token, which must be the punctuator or keyword `op`.
    pub fn expect_reserve(&mut self, op: &str) -> (r: Result<(), MyError>)
        ensures
            match r {
                Ok(()) => {
                    &&& old(self)@.len() > 0
                    &&& old(self)@[0] == Lexeme::Reserved(op@)
                    &&& final(self)@ == old(self)@.drop_first()
                },
                Err(e) => {
                    &&& !(old(self)@.len() > 0 && old(self)@[0] == Lexeme::Reserved(op@))
                    &&& final(self)@ == old(self)@
                    &&& e.kind == ErrorKind::Syntactic
                },
            },
            old(self).wf() && r is Ok ==> final(self).wf(),
    {
        match self.consume_reserve(op) {
            Ok(true) => Ok(()),
            Ok(false) => Err(MyError::with_detail(ErrorKind::Syntactic, "expected ", op)),
            Err(e) => Err(e),
        }
    }

    /// Whether the next token is `Eof`.
    pub fn at_eof(&self) -> (r: bool)
        requires
            self@.len() > 0,
        ensures
            r == (self@[0] == Lexeme::Eof),
    {
        match &self.0[0] {
            Token::Eof => true,
            _ => false,
        }
    }

    /// Whether the next token is the punctuator or keyword `op`.
    pub fn is_reserve(&self, op: &str) -> (r: bool)
        requires
            self@.len() > 0,
        ensures
            r == (self@[0] == Lexeme::Reserved(op@)),
    {
        match &self.0[0] {
            Token::Reserved { keyword } => keyword.eq(&op.to_string()),
            _ => false,
        }
    }

    /// Takes the next token where it is the punctuator or keyword `op`, and
    /// says whether it did. Fails on an empty queue.
    pub fn consume_reserve(&mut self, op: &str) -> (r: Result<bool, MyError>)
        ensures
            match r {
                Ok(b) => {
                    &&& old(self)@.len() > 0
                    &&& b == (old(self)@[0] == Lexeme::Reserved(op@))
                    &&& final(self)@ == if b {
                        old(self)@.drop_first()
                    } else {
                        old(self)@
                    }
                },
                Err(e) => old(self)@.len() == 0 && final(self)@ == old(self)@ && e.kind
                    == ErrorKind::Syntactic,
            },
            old(self).wf() ==> final(self).wf(),
    {
        if self.0.len() == 0 {
            return Err(MyError::with_detail(ErrorKind::Syntactic, "no token left, expected ", op));
        }
        if self.is_reserve(op) {
            self.pop();
            Ok(true)
        } else {
            Ok(false)
        }
    }

    /// Takes the next token where it is a name, and returns the name. Fails
    /// on an empty queue.
    pub fn consume_ident(&mut self) -> (r: Result<Option<String>, MyError>)
        ensures
            match r {
                Ok(Some(name)) => {
                    &&& old(self)@.len() > 0
                    &&& old(self)@[0] == Lexeme::Ident(name@)
                    &&& final(self)@ == old(self)@.drop_first()
                },
                Ok(None) => {
                    &&& old(self)@.len() > 0
                    &&& !(old(self)@[0] is Ident)
                    &&& final(self)@ == old(self)@
                },
                Err(e) => old(self)@.len() == 0 && final(self)@ == old(self)@ && e.kind
                    == ErrorKind::Syntactic,
            },
            old(self).wf() ==> final(self).wf(),
    {
        if self.0.len() == 0 {
            return Err(MyError::new(ErrorKind::Syntactic, "no token left"));
        }
        let found = match &self.0[0] {
            Token::Ident { .. } => true,
            _ => false,
        };
        if found {
            match self.pop() {
                Token::Ident { name } => Ok(Some(name)),
                _ => Err(MyError::new(ErrorKind::Syntactic, "pop token error")),
            }
        } else {
            Ok(None)
        }
    }
}

} // verus!
