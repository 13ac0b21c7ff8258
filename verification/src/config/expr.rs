//! The tiny boolean language used by `depends_on`.
//!
//! `a`, `!a`, `a && b`, `a || b` and parentheses, over bool option keys.
//! `&&` binds tighter than `||`, as in C and Kconfig.

use crate::text::{chars_of, concat3, concat5, copied, is_word, is_word_char, part, string_of};
use vstd::prelude::*;

verus! {

/// A parsed `depends_on` expression.
#[derive(Debug, PartialEq, Eq)]
pub enum Expr {
    /// The value of a bool option.
    Key(String),
    /// Logical not.
    Not(Box<Expr>),
    /// Both sides true.
    And(Box<Expr>, Box<Expr>),
    /// Either side true.
    Or(Box<Expr>, Box<Expr>),
}

/// What an expression says, with its keys as character sequences.
pub enum Formula {
    Key(Seq<char>),
    Not(Box<Formula>),
    And(Box<Formula>, Box<Formula>),
    Or(Box<Formula>, Box<Formula>),
}

/// Why an expression could not be parsed.
#[derive(Debug, Clone, PartialEq, Eq)]
pub struct ParseError {
    /// The expression as written.
    pub source_text: String,
    /// What was wrong with it.
    pub reason: String,
}

impl ParseError {
    /// The message shown to a person.
    pub fn to_text(&self) -> (r: String)
        ensures
            r@ == "in `"@ + self.source_text@ + "`: "@ + self.reason@ + ""@,
    {
        concat5("in `", self.source_text.as_str(), "`: ", self.reason.as_str(), "")
    }
}

/// A word of the language.
#[derive(Debug, PartialEq, Eq)]
pub enum Token {
    Key(String),
    Not,
    And,
    Or,
    Open,
    Close,
}

/// A word of the language, with its key as a character sequence.
pub enum Symbol {
    Key(Seq<char>),
    Not,
    And,
    Or,
    Open,
    Close,
}

impl View for Token {
    type V = Symbol;

    open spec fn view(&self) -> Symbol {
        match self {
            Token::Key(key) => Symbol::Key(key@),
            Token::Not => Symbol::Not,
            Token::And => Symbol::And,
            Token::Or => Symbol::Or,
            Token::Open => Symbol::Open,
            Token::Close => Symbol::Close,
        }
    }
}

/// The views of a list of tokens.
pub open spec fn symbols(tokens: Seq<Token>) -> Seq<Symbol> {
    tokens.map_values(|token: Token| token@)
}

impl Symbol {
    /// The symbol as it is written.
    pub open spec fn shown(self) -> Seq<char> {
        match self {
            Symbol::Key(key) => key,
            Symbol::Not => "!"@,
            Symbol::And => "&&"@,
            Symbol::Or => "||"@,
            Symbol::Open => "("@,
            Symbol::Close => ")"@,
        }
    }
}

impl Token {
    /// The token as it is written.
    fn to_text(&self) -> (r: String)
        ensures
            r@ == self@.shown(),
    {
        match self {
            Token::Key(key) => copied(key.as_str()),
            Token::Not => copied("!"),
            Token::And => copied("&&"),
            Token::Or => copied("||"),
            Token::Open => copied("("),
            Token::Close => copied(")"),
        }
    }
}

impl Formula {
    /// The truth of a formula, given which keys are on.
    pub open spec fn truth(self, on: spec_fn(Seq<char>) -> bool) -> bool
        decreases self,
    {
        match self {
            Formula::Key(key) => on(key),
            Formula::Not(inner) => !inner.truth(on),
            Formula::And(left, right) => left.truth(on) && right.truth(on),
            Formula::Or(left, right) => left.truth(on) || right.truth(on),
        }
    }

    /// Every key that is mentioned, from left to right.
    pub open spec fn keys(self) -> Seq<Seq<char>>
        decreases self,
    {
        match self {
            Formula::Key(key) => seq![key],
            Formula::Not(inner) => inner.keys(),
            Formula::And(left, right) => left.keys() + right.keys(),
            Formula::Or(left, right) => left.keys() + right.keys(),
        }
    }

    /// The formula as it is written, with parentheses round every `&&` and `||`.
    pub open spec fn shown(self) -> Seq<char>
        decreases self,
    {
        match self {
            Formula::Key(key) => key,
            Formula::Not(inner) => "!"@ + inner.shown() + ""@,
            Formula::And(left, right) => "("@ + left.shown() + " && "@ + right.shown() + ")"@,
            Formula::Or(left, right) => "("@ + left.shown() + " || "@ + right.shown() + ")"@,
        }
    }

    /// True when every key is one or more letters, digits, `_` and `.`.
    pub open spec fn well_named(self) -> bool
        decreases self,
    {
        match self {
            Formula::Key(key) => key.len() > 0 && forall|i: int|
                0 <= i < key.len() ==> is_key_char(#[trigger] key[i]),
            Formula::Not(inner) => inner.well_named(),
            Formula::And(left, right) => left.well_named() && right.well_named(),
            Formula::Or(left, right) => left.well_named() && right.well_named(),
        }
    }
}

/// The characters that keys are made of.
pub open spec fn is_key_char(c: char) -> bool {
    is_word(c) || c == '_' || c == '.'
}

fn key_char(c: char) -> (r: bool)
    ensures
        r == is_key_char(c),
{
    is_word_char(c) || c == '_' || c == '.'
}

/// The end of the key that starts at `from`.
pub open spec fn key_end(s: Seq<char>, from: int) -> int
    decreases s.len() - from,
{
    if from < 0 || from >= s.len() || !is_key_char(s[from]) {
        from
    } else {
        key_end(s, from + 1)
    }
}

/// Symbols, or the reason why a text holds something else.
pub enum Lexed {
    Symbols(Seq<Symbol>),
    Bad(Seq<char>),
}

/// Symbols put before what was read.
pub open spec fn prepended(first: Seq<Symbol>, rest: Lexed) -> Lexed {
    match rest {
        Lexed::Symbols(symbols) => Lexed::Symbols(first + symbols),
        Lexed::Bad(reason) => Lexed::Bad(reason),
    }
}

/// The symbols of `s[from..]`.
pub open spec fn lex(s: Seq<char>, from: int) -> Lexed
    decreases s.len() - from,
{
    if from < 0 || from >= s.len() {
        Lexed::Symbols(seq![])
    } else {
        let c = s[from];
        if c == ' ' || c == '\t' {
            lex(s, from + 1)
        } else if c == '!' {
            prepended(seq![Symbol::Not], lex(s, from + 1))
        } else if c == '(' {
            prepended(seq![Symbol::Open], lex(s, from + 1))
        } else if c == ')' {
            prepended(seq![Symbol::Close], lex(s, from + 1))
        } else if c == '&' || c == '|' {
            if from + 1 < s.len() && s[from + 1] == c {
                prepended(
                    seq![
                        if c == '&' {
                            Symbol::And
                        } else {
                            Symbol::Or
                        },
                    ],
                    lex(s, from + 2),
                )
            } else {
                Lexed::Bad(
                    "`"@ + seq![c] + "` must be doubled, as `"@ + seq![c, c] + "`"@,
                )
            }
        } else if is_key_char(c) {
            let end = key_end(s, from);
            if end <= from || end > s.len() {
                Lexed::Symbols(seq![])
            } else {
                prepended(seq![Symbol::Key(s.subrange(from, end))], lex(s, end))
            }
        } else {
            Lexed::Bad("unexpected character `"@ + seq![c] + "`"@)
        }
    }
}

/// A formula and the place behind it, or the reason why there is none.
pub enum Parsed {
    Done(Formula, int),
    Bad(Seq<char>),
}

/// A negation, a formula in parentheses or a key, at `at`.
pub open spec fn unary_at(ts: Seq<Symbol>, at: int) -> Parsed
    decreases ts.len() - at, 0int,
{
    if at < 0 || at >= ts.len() {
        Parsed::Bad("the expression ends too early"@)
    } else {
        match ts[at] {
            Symbol::Not => match unary_at(ts, at + 1) {
                Parsed::Done(inner, next) => Parsed::Done(Formula::Not(Box::new(inner)), next),
                Parsed::Bad(reason) => Parsed::Bad(reason),
            },
            Symbol::Open => match or_at(ts, at + 1) {
                Parsed::Done(inner, next) => if 0 <= next < ts.len() && ts[next] is Close {
                    Parsed::Done(inner, next + 1)
                } else {
                    Parsed::Bad("a `(` is never closed"@)
                },
                Parsed::Bad(reason) => Parsed::Bad(reason),
            },
            Symbol::Key(key) => Parsed::Done(Formula::Key(key), at + 1),
            other => Parsed::Bad("expected an option key, found `"@ + other.shown() + "`"@),
        }
    }
}

/// Unary formulas joined by `&&`, grouped from the left, at `at`.
pub open spec fn and_at(ts: Seq<Symbol>, at: int) -> Parsed
    decreases ts.len() - at, 1int,
{
    match unary_at(ts, at) {
        Parsed::Done(left, next) => if at < next <= ts.len() {
            and_rest(ts, left, next)
        } else {
            Parsed::Done(left, next)
        },
        Parsed::Bad(reason) => Parsed::Bad(reason),
    }
}

/// The rest of a chain of `&&`, after `left`.
pub open spec fn and_rest(ts: Seq<Symbol>, left: Formula, at: int) -> Parsed
    decreases ts.len() - at, 1int,
{
    if 0 <= at < ts.len() && ts[at] is And {
        match unary_at(ts, at + 1) {
            Parsed::Done(right, next) => {
                let both = Formula::And(Box::new(left), Box::new(right));
                if at < next <= ts.len() {
                    and_rest(ts, both, next)
                } else {
                    Parsed::Done(both, next)
                }
            },
            Parsed::Bad(reason) => Parsed::Bad(reason),
        }
    } else {
        Parsed::Done(left, at)
    }
}

/// Chains of `&&` joined by `||`, grouped from the left, at `at`.
pub open spec fn or_at(ts: Seq<Symbol>, at: int) -> Parsed
    decreases ts.len() - at, 2int,
{
    match and_at(ts, at) {
        Parsed::Done(left, next) => if at < next <= ts.len() {
            or_rest(ts, left, next)
        } else {
            Parsed::Done(left, next)
        },
        Parsed::Bad(reason) => Parsed::Bad(reason),
    }
}

/// The rest of a chain of `||`, after `left`.
pub open spec fn or_rest(ts: Seq<Symbol>, left: Formula, at: int) -> Parsed
    decreases ts.len() - at, 2int,
{
    if 0 <= at < ts.len() && ts[at] is Or {
        match and_at(ts, at + 1) {
            Parsed::Done(right, next) => {
                let either = Formula::Or(Box::new(left), Box::new(right));
                if at < next <= ts.len() {
                    or_rest(ts, either, next)
                } else {
                    Parsed::Done(either, next)
                }
            },
            Parsed::Bad(reason) => Parsed::Bad(reason),
        }
    } else {
        Parsed::Done(left, at)
    }
}

/// The formula that a text stands for, or the reason why it stands for none.
pub open spec fn formula_of(s: Seq<char>) -> Result<Formula, Seq<char>> {
    match lex(s, 0) {
        Lexed::Bad(reason) => Err(reason),
        Lexed::Symbols(ts) => if ts.len() == 0 {
            Err("the expression is empty"@)
        } else {
            match or_at(ts, 0) {
                Parsed::Bad(reason) => Err(reason),
                Parsed::Done(formula, next) => if 0 <= next < ts.len() {
                    Err("unexpected `"@ + ts[next].shown() + "`"@)
                } else {
                    Ok(formula)
                },
            }
        },
    }
}

fn one_char(c: char) -> (r: String)
    ensures
        r@ == seq![c],
{
    let mut out = String::new();
    out.push(c);
    assert(out@ =~= seq![c]);
    out
}

fn two_chars(c: char) -> (r: String)
    ensures
        r@ == seq![c, c],
{
    let mut out = one_char(c);
    out.push(c);
    assert(out@ =~= seq![c, c]);
    out
}

fn tokenize(text: &str) -> (r: Result<Vec<Token>, String>)
    ensures
        match r {
            Ok(tokens) => tokens.len() > 0 && lex(text@, 0) == Lexed::Symbols(symbols(tokens@)),
            Err(reason) => match lex(text@, 0) {
                Lexed::Symbols(ts) => ts.len() == 0 && reason@ == "the expression is empty"@,
                Lexed::Bad(why) => reason@ == why,
            },
        },
{
    let chars = chars_of(text);
    let mut tokens: Vec<Token> = Vec::new();
    let mut i: usize = 0;
    proof {
        assert(symbols(tokens@) =~= seq![]);
        if let Lexed::Symbols(ts) = lex(text@, 0) {
            assert(seq![] + ts =~= ts);
        }
    }
    while i < chars.len()
        invariant
            i <= chars.len(),
            chars@ == text@,
            lex(text@, 0) == prepended(symbols(tokens@), lex(text@, i as int)),
        decreases chars.len() - i,
    {
        let c = chars[i];
        let ghost before = symbols(tokens@);
        let ghost at = i as int;
        if c == ' ' || c == '\t' {
            i = i + 1;
        } else if c == '!' || c == '(' || c == ')' {
            let token = if c == '!' {
                Token::Not
            } else if c == '(' {
                Token::Open
            } else {
                Token::Close
            };
            let ghost symbol = token@;
            tokens.push(token);
            i = i + 1;
            proof {
                prepend_one(before, symbol, lex(text@, i as int));
                assert(symbols(tokens@) =~= before.push(symbol));
            }
        } else if c == '&' || c == '|' {
            if i + 1 >= chars.len() || chars[i + 1] != c {
                let once = one_char(c);
                let twice = two_chars(c);
                return Err(
                    concat5(
                        "`",
                        once.as_str(),
                        "` must be doubled, as `",
                        twice.as_str(),
                        "`",
                    ),
                );
            }
            let token = if c == '&' {
                Token::And
            } else {
                Token::Or
            };
            let ghost symbol = token@;
            tokens.push(token);
            i = i + 2;
            proof {
                prepend_one(before, symbol, lex(text@, i as int));
                assert(symbols(tokens@) =~= before.push(symbol));
            }
        } else if key_char(c) {
            let start: usize = i;
            while i < chars.len() && key_char(chars[i])
                invariant
                    start <= i <= chars.len(),
                    key_end(chars@, start as int) == key_end(chars@, i as int),
                decreases chars.len() - i,
            {
                i = i + 1;
            }
            let key = part(&chars, start, i);
            let token = Token::Key(string_of(&key));
            let ghost symbol = token@;
            tokens.push(token);
            proof {
                assert(key_end(text@, at) == i);
                assert(key_end(text@, at) == key_end(text@, at + 1));
                prepend_one(before, symbol, lex(text@, i as int));
                assert(symbols(tokens@) =~= before.push(symbol));
            }
        } else {
            let shown = one_char(c);
            return Err(concat3("unexpected character `", shown.as_str(), "`"));
        }
    }
    assert(symbols(tokens@) + seq![] =~= symbols(tokens@));
    if tokens.len() == 0 {
        return Err(copied("the expression is empty"));
    }
    Ok(tokens)
}

proof fn prepend_one(before: Seq<Symbol>, symbol: Symbol, rest: Lexed)
    ensures
        prepended(before, prepended(seq![symbol], rest)) == prepended(before.push(symbol), rest),
{
    if let Lexed::Symbols(ts) = rest {
        assert(before + (seq![symbol] + ts) =~= before.push(symbol) + ts);
    }
}

/// True when `r` and the place `next` are what was to be parsed.
pub open spec fn is_parse(r: Result<Expr, String>, next: int, expected: Parsed) -> bool {
    match r {
        Ok(expr) => expected == Parsed::Done(expr@, next),
        Err(reason) => expected == Parsed::Bad(reason@),
    }
}

struct Parser {
    tokens: Vec<Token>,
    position: usize,
}

impl Parser {
    spec fn ts(&self) -> Seq<Symbol> {
        symbols(self.tokens@)
    }

    fn peek(&self) -> (r: Option<&Token>)
        ensures
            match r {
                Some(token) => self.position < self.ts().len() && token@
                    == self.ts()[self.position as int],
                None => self.position >= self.ts().len(),
            },
    {
        if self.position < self.tokens.len() {
            Some(&self.tokens[self.position])
        } else {
            None
        }
    }

    fn or(&mut self) -> (r: Result<Expr, String>)
        requires
            old(self).position <= old(self).tokens.len(),
        ensures
            final(self).tokens == old(self).tokens,
            is_parse(r, final(self).position as int, or_at(old(self).ts(), old(self).position as int)),
            r is Ok ==> old(self).position < final(self).position <= final(self).tokens.len(),
        decreases old(self).tokens.len() - old(self).position, 2int,
    {
        let mut left = match self.and() {
            Ok(expr) => expr,
            Err(reason) => {
                return Err(reason);
            },
        };
        let ghost expected = or_at(old(self).ts(), old(self).position as int);
        while matches!(self.peek(), Some(Token::Or))
            invariant
                self.tokens == old(self).tokens,
                old(self).position < self.position <= self.tokens.len(),
                expected == or_rest(self.ts(), left@, self.position as int),
                expected == or_at(old(self).ts(), old(self).position as int),
            decreases self.tokens.len() - self.position,
        {
            let ghost at = self.position as int;
            self.position = self.position + 1;
            let right = match self.and() {
                Ok(expr) => expr,
                Err(reason) => {
                    return Err(reason);
                },
            };
            left = Expr::Or(Box::new(left), Box::new(right));
        }
        Ok(left)
    }

    fn and(&mut self) -> (r: Result<Expr, String>)
        requires
            old(self).position <= old(self).tokens.len(),
        ensures
            final(self).tokens == old(self).tokens,
            is_parse(r, final(self).position as int, and_at(old(self).ts(), old(self).position as int)),
            r is Ok ==> old(self).position < final(self).position <= final(self).tokens.len(),
        decreases old(self).tokens.len() - old(self).position, 1int,
    {
        let mut left = match self.unary() {
            Ok(expr) => expr,
            Err(reason) => {
                return Err(reason);
            },
        };
        let ghost expected = and_at(old(self).ts(), old(self).position as int);
        while matches!(self.peek(), Some(Token::And))
            invariant
                self.tokens == old(self).tokens,
                old(self).position < self.position <= self.tokens.len(),
                expected == and_rest(self.ts(), left@, self.position as int),
                expected == and_at(old(self).ts(), old(self).position as int),
            decreases self.tokens.len() - self.position,
        {
            self.position = self.position + 1;
            let right = match self.unary() {
                Ok(expr) => expr,
                Err(reason) => {
                    return Err(reason);
                },
            };
            left = Expr::And(Box::new(left), Box::new(right));
        }
        Ok(left)
    }

    fn unary(&mut self) -> (r: Result<Expr, String>)
        requires
            old(self).position <= old(self).tokens.len(),
        ensures
            final(self).tokens == old(self).tokens,
            is_parse(r, final(self).position as int, unary_at(old(self).ts(), old(self).position as int)),
            r is Ok ==> old(self).position < final(self).position <= final(self).tokens.len(),
        decreases old(self).tokens.len() - old(self).position, 0int,
    {
        if self.position >= self.tokens.len() {
            return Err(copied("the expression ends too early"));
        }
        let at: usize = self.position;
        match &self.tokens[at] {
            Token::Not => {
                self.position = at + 1;
                match self.unary() {
                    Ok(inner) => Ok(Expr::Not(Box::new(inner))),
                    Err(reason) => Err(reason),
                }
            },
            Token::Open => {
                self.position = at + 1;
                let inner = match self.or() {
                    Ok(inner) => inner,
                    Err(reason) => {
                        return Err(reason);
                    },
                };
                if !matches!(self.peek(), Some(Token::Close)) {
                    return Err(copied("a `(` is never closed"));
                }
                self.position = self.position + 1;
                Ok(inner)
            },
            Token::Key(key) => {
                let key = copied(key.as_str());
                self.position = at + 1;
                Ok(Expr::Key(key))
            },
            other => {
                let shown = other.to_text();
                Err(concat3("expected an option key, found `", shown.as_str(), "`"))
            },
        }
    }
}

impl View for Expr {
    type V = Formula;

    open spec fn view(&self) -> Formula {
        self.formula()
    }
}

impl Expr {
    /// What the expression says.
    pub open spec fn formula(self) -> Formula
        decreases self,
    {
        match self {
            Expr::Key(key) => Formula::Key(key@),
            Expr::Not(inner) => Formula::Not(Box::new(inner.formula())),
            Expr::And(left, right) => Formula::And(
                Box::new(left.formula()),
                Box::new(right.formula()),
            ),
            Expr::Or(left, right) => Formula::Or(
                Box::new(left.formula()),
                Box::new(right.formula()),
            ),
        }
    }

    /// Parses an expression such as `a.b && !(c.d || e.f)`.
    pub fn parse(text: &str) -> (r: Result<Self, ParseError>)
        ensures
            match r {
                Ok(expr) => formula_of(text@) == Ok::<Formula, Seq<char>>(expr@),
                Err(err) => err.source_text@ == text@ && formula_of(text@) == Err::<
                    Formula,
                    Seq<char>,
                >(err.reason@),
            },
    {
        let tokens = match tokenize(text) {
            Ok(tokens) => tokens,
            Err(reason) => {
                return Err(ParseError { source_text: copied(text), reason });
            },
        };
        let mut parser = Parser { tokens, position: 0 };
        let expr = match parser.or() {
            Ok(expr) => expr,
            Err(reason) => {
                return Err(ParseError { source_text: copied(text), reason });
            },
        };
        if parser.position != parser.tokens.len() {
            let found = parser.tokens[parser.position].to_text();
            return Err(
                ParseError {
                    source_text: copied(text),
                    reason: concat3("unexpected `", found.as_str(), "`"),
                },
            );
        }
        Ok(expr)
    }

    /// Evaluates the expression, looking bool values up through `lookup`.
    pub fn eval<F: Fn(&str) -> bool>(&self, lookup: &F) -> (r: bool)
        requires
            forall|key: &str| #[trigger] call_requires(*lookup, (key,)),
        ensures
            forall|on: spec_fn(Seq<char>) -> bool|
                answers(*lookup, on) ==> r == #[trigger] self.formula().truth(on),
        decreases self,
    {
        let r = match self {
            Expr::Key(key) => {
                let name = key.as_str();
                let answer = (*lookup)(name);
                assert(call_ensures(*lookup, (name,), answer));
                answer
            },
            Expr::Not(inner) => !inner.eval(lookup),
            Expr::And(left, right) => left.eval(lookup) && right.eval(lookup),
            Expr::Or(left, right) => left.eval(lookup) || right.eval(lookup),
        };
        assert forall|on: spec_fn(Seq<char>) -> bool| answers(*lookup, on) implies r
            == #[trigger] self.formula().truth(on) by {
            match self {
                Expr::Key(key) => {
                    assert(self.formula() == Formula::Key(key@));
                    assert(r == on(key@));
                },
                Expr::Not(inner) => {
                    assert(inner.formula().truth(on) == !r);
                },
                Expr::And(left, right) => {
                    assert((left.formula().truth(on) && right.formula().truth(on)) == r);
                },
                Expr::Or(left, right) => {
                    assert((left.formula().truth(on) || right.formula().truth(on)) == r);
                },
            }
        }
        r
    }

    /// Every key the expression mentions, for validating the schema.
    pub fn keys(&self) -> (r: Vec<&str>)
        ensures
            str_views(r@) == self@.keys(),
    {
        let mut keys: Vec<&str> = Vec::new();
        self.collect_keys(&mut keys);
        assert(seq![] + self@.keys() =~= self@.keys());
        keys
    }

    fn collect_keys<'a>(&'a self, keys: &mut Vec<&'a str>)
        ensures
            str_views(final(keys)@) == str_views(old(keys)@) + self@.keys(),
        decreases self,
    {
        match self {
            Expr::Key(key) => {
                keys.push(key.as_str());
                assert(str_views(keys@) =~= str_views(old(keys)@) + seq![key@]);
            },
            Expr::Not(inner) => inner.collect_keys(keys),
            Expr::And(left, right) => {
                left.collect_keys(keys);
                right.collect_keys(keys);
            },
            Expr::Or(left, right) => {
                left.collect_keys(keys);
                right.collect_keys(keys);
            },
        }
    }

    /// The expression as text, with parentheses round every `&&` and `||`.
    pub fn to_text(&self) -> (r: String)
        ensures
            r@ == self@.shown(),
        decreases self,
    {
        match self {
            Expr::Key(key) => copied(key.as_str()),
            Expr::Not(inner) => {
                let inner = inner.to_text();
                concat3("!", inner.as_str(), "")
            },
            Expr::And(left, right) => {
                let left = left.to_text();
                let right = right.to_text();
                concat5("(", left.as_str(), " && ", right.as_str(), ")")
            },
            Expr::Or(left, right) => {
                let left = left.to_text();
                let right = right.to_text();
                concat5("(", left.as_str(), " || ", right.as_str(), ")")
            },
        }
    }
}

impl Clone for Expr {
    fn clone(&self) -> (r: Self)
        ensures
            r@ == self@,
        decreases self,
    {
        match self {
            Expr::Key(key) => Expr::Key(copied(key.as_str())),
            Expr::Not(inner) => Expr::Not(Box::new((&**inner).clone())),
            Expr::And(left, right) => Expr::And(
                Box::new((&**left).clone()),
                Box::new((&**right).clone()),
            ),
            Expr::Or(left, right) => Expr::Or(
                Box::new((&**left).clone()),
                Box::new((&**right).clone()),
            ),
        }
    }
}

/// True when `lookup` can only answer as `on` says.
pub open spec fn answers<F: Fn(&str) -> bool>(
    lookup: F,
    on: spec_fn(Seq<char>) -> bool,
) -> bool {
    forall|key: &str, answer: bool| #[trigger]
        call_ensures(lookup, (key,), answer) ==> answer == on(key@)
}

/// The views of a list of texts.
pub open spec fn str_views(texts: Seq<&str>) -> Seq<Seq<char>> {
    texts.map_values(|text: &str| text@)
}

/// The symbols of a formula as it is shown.
pub open spec fn shown_symbols(formula: Formula) -> Seq<Symbol>
    decreases formula,
{
    match formula {
        Formula::Key(key) => seq![Symbol::Key(key)],
        Formula::Not(inner) => seq![Symbol::Not] + shown_symbols(*inner),
        Formula::And(left, right) => seq![Symbol::Open] + shown_symbols(*left) + seq![Symbol::And]
            + shown_symbols(*right) + seq![Symbol::Close],
        Formula::Or(left, right) => seq![Symbol::Open] + shown_symbols(*left) + seq![Symbol::Or]
            + shown_symbols(*right) + seq![Symbol::Close],
    }
}

proof fn key_end_of_suffix(a: Seq<char>, b: Seq<char>, i: int)
    requires
        0 <= i <= b.len(),
    ensures
        key_end(a + b, a.len() + i) == a.len() + key_end(b, i),
        i <= key_end(b, i) <= b.len(),
        i < b.len() && is_key_char(b[i]) ==> i < key_end(b, i),
    decreases b.len() - i,
{
    if i < b.len() {
        assert((a + b)[a.len() + i] == b[i]);
        if is_key_char(b[i]) {
            key_end_of_suffix(a, b, i + 1);
        }
    }
}

proof fn lex_of_suffix(a: Seq<char>, b: Seq<char>, i: int)
    requires
        0 <= i <= b.len(),
    ensures
        lex(a + b, a.len() + i) == lex(b, i),
    decreases b.len() - i,
{
    if i < b.len() {
        let s = a + b;
        let n = a.len() as int;
        assert(s[n + i] == b[i]);
        lex_of_suffix(a, b, i + 1);
        if i + 1 < b.len() {
            assert(s[n + i + 1] == b[i + 1]);
            lex_of_suffix(a, b, i + 2);
        }
        if is_key_char(b[i]) {
            key_end_of_suffix(a, b, i);
            let end = key_end(b, i);
            assert(s.subrange(n + i, n + end) =~= b.subrange(i, end));
            lex_of_suffix(a, b, end);
        }
    }
}

proof fn key_end_of_key(key: Seq<char>, rest: Seq<char>, i: int)
    requires
        0 <= i <= key.len(),
        forall|j: int| 0 <= j < key.len() ==> is_key_char(#[trigger] key[j]),
        rest.len() == 0 || !is_key_char(rest[0]),
    ensures
        key_end(key + rest, i) == key.len(),
    decreases key.len() - i,
{
    if i < key.len() {
        assert(is_key_char(key[i]));
        key_end_of_key(key, rest, i + 1);
    }
}

proof fn prepended_twice(a: Seq<Symbol>, b: Seq<Symbol>, rest: Lexed)
    ensures
        prepended(a, prepended(b, rest)) == prepended(a + b, rest),
{
    if let Lexed::Symbols(ts) = rest {
        assert(a + (b + ts) =~= (a + b) + ts);
    }
}

proof fn lex_of_shown(formula: Formula, rest: Seq<char>)
    requires
        formula.well_named(),
        rest.len() == 0 || !is_key_char(rest[0]),
    ensures
        lex(formula.shown() + rest, 0) == prepended(shown_symbols(formula), lex(rest, 0)),
    decreases formula,
{
    let s = formula.shown() + rest;
    reveal_strlit("");
    reveal_strlit("!");
    reveal_strlit("(");
    reveal_strlit(")");
    reveal_strlit(" && ");
    reveal_strlit(" || ");
    match formula {
        Formula::Key(key) => {
            assert(is_key_char(key[0]));
            key_end_of_key(key, rest, 0);
            lex_of_suffix(key, rest, 0);
            assert(s.subrange(0, key.len() as int) =~= key);
        },
        Formula::Not(inner) => {
            let tail = inner.shown() + rest;
            assert(s =~= "!"@ + tail);
            lex_of_suffix("!"@, tail, 0);
            lex_of_shown(*inner, rest);
            prepended_twice(seq![Symbol::Not], shown_symbols(*inner), lex(rest, 0));
        },
        Formula::And(left, right) => {
            let end = ")"@ + rest;
            lex_of_shown(*left, " && "@ + (right.shown() + end));
            lex_of_shown(*right, end);
            lex_of_pair(s, *left, *right, " && "@, Symbol::And, rest);
        },
        Formula::Or(left, right) => {
            let end = ")"@ + rest;
            lex_of_shown(*left, " || "@ + (right.shown() + end));
            lex_of_shown(*right, end);
            lex_of_pair(s, *left, *right, " || "@, Symbol::Or, rest);
        },
    }
}

proof fn lex_of_pair(
    s: Seq<char>,
    left: Formula,
    right: Formula,
    middle: Seq<char>,
    symbol: Symbol,
    rest: Seq<char>,
)
    requires
        left.well_named(),
        right.well_named(),
        middle == " && "@ && symbol is And || middle == " || "@ && symbol is Or,
        s == "("@ + left.shown() + middle + right.shown() + ")"@ + rest,
        lex(left.shown() + (middle + (right.shown() + (")"@ + rest))), 0) == prepended(
            shown_symbols(left),
            lex(middle + (right.shown() + (")"@ + rest)), 0),
        ),
        lex(right.shown() + (")"@ + rest), 0) == prepended(
            shown_symbols(right),
            lex(")"@ + rest, 0),
        ),
    ensures
        lex(s, 0) == prepended(
            seq![Symbol::Open] + shown_symbols(left) + seq![symbol] + shown_symbols(right)
                + seq![Symbol::Close],
            lex(rest, 0),
        ),
{
    reveal_strlit("(");
    reveal_strlit(")");
    reveal_strlit(" && ");
    reveal_strlit(" || ");
    let end = ")"@ + rest;
    let after = right.shown() + end;
    let link = middle + after;
    let tail = left.shown() + link;
    assert(s =~= "("@ + tail);
    lex_of_suffix("("@, tail, 0);
    assert(s[0] == '(');
    assert(lex(s, 0) == prepended(seq![Symbol::Open], lex(tail, 0)));
    assert(link[0] == ' ' && link[3] == ' ' && link[1] == link[2] && (link[1] == '&' || link[1]
        == '|'));
    lex_of_suffix(middle, after, 0);
    assert(lex(link, 0) == lex(link, 1));
    assert(lex(link, 1) == prepended(seq![symbol], lex(link, 3)));
    assert(lex(link, 3) == lex(link, 4));
    assert(end[0] == ')');
    lex_of_suffix(")"@, rest, 0);
    assert(lex(end, 0) == prepended(seq![Symbol::Close], lex(rest, 0)));
    let l = shown_symbols(left);
    let r = shown_symbols(right);
    prepended_twice(r, seq![Symbol::Close], lex(rest, 0));
    prepended_twice(seq![symbol], r + seq![Symbol::Close], lex(rest, 0));
    prepended_twice(l, seq![symbol] + (r + seq![Symbol::Close]), lex(rest, 0));
    prepended_twice(
        seq![Symbol::Open],
        l + (seq![symbol] + (r + seq![Symbol::Close])),
        lex(rest, 0),
    );
    assert(seq![Symbol::Open] + (l + (seq![symbol] + (r + seq![Symbol::Close]))) =~= seq![
        Symbol::Open,
    ] + l + seq![symbol] + r + seq![Symbol::Close]);
}

proof fn pair_parses(ts: Seq<Symbol>, at: int, left: Formula, p1: int, right: Formula, p2: int)
    requires
        0 <= at < p1 < p2 < ts.len(),
        p1 + 1 < p2,
        at + 1 < p1,
        ts[at] is Open,
        ts[p1] is And || ts[p1] is Or,
        ts[p2] is Close,
        unary_at(ts, at + 1) == Parsed::Done(left, p1),
        unary_at(ts, p1 + 1) == Parsed::Done(right, p2),
    ensures
        ts[p1] is And ==> unary_at(ts, at) == Parsed::Done(
            Formula::And(Box::new(left), Box::new(right)),
            p2 + 1,
        ),
        ts[p1] is Or ==> unary_at(ts, at) == Parsed::Done(
            Formula::Or(Box::new(left), Box::new(right)),
            p2 + 1,
        ),
{
    if ts[p1] is And {
        let both = Formula::And(Box::new(left), Box::new(right));
        assert(and_rest(ts, both, p2) == Parsed::Done(both, p2));
        assert(and_rest(ts, left, p1) == Parsed::Done(both, p2));
        assert(and_at(ts, at + 1) == Parsed::Done(both, p2));
        assert(or_rest(ts, both, p2) == Parsed::Done(both, p2));
        assert(or_at(ts, at + 1) == Parsed::Done(both, p2));
    } else {
        let either = Formula::Or(Box::new(left), Box::new(right));
        assert(and_rest(ts, left, p1) == Parsed::Done(left, p1));
        assert(and_at(ts, at + 1) == Parsed::Done(left, p1));
        assert(and_rest(ts, right, p2) == Parsed::Done(right, p2));
        assert(and_at(ts, p1 + 1) == Parsed::Done(right, p2));
        assert(or_rest(ts, either, p2) == Parsed::Done(either, p2));
        assert(or_rest(ts, left, p1) == Parsed::Done(either, p2));
        assert(or_at(ts, at + 1) == Parsed::Done(either, p2));
    }
}

proof fn unary_of_pair(
    before: Seq<Symbol>,
    left: Formula,
    symbol: Symbol,
    right: Formula,
    after: Seq<Symbol>,
)
    requires
        symbol is And || symbol is Or,
        shown_symbols(left).len() > 0,
        shown_symbols(right).len() > 0,
        ({
            let end = seq![Symbol::Close] + after;
            let start = before + seq![Symbol::Open];
            let l = shown_symbols(left);
            let r = shown_symbols(right);
            &&& unary_at(start + l + (seq![symbol] + r + end), start.len() as int) == Parsed::Done(
                left,
                (start.len() + l.len()) as int,
            )
            &&& unary_at(
                start + l + seq![symbol] + r + end,
                (start + l + seq![symbol]).len() as int,
            ) == Parsed::Done(right, ((start + l + seq![symbol]).len() + r.len()) as int)
        }),
    ensures
        ({
            let shown = seq![Symbol::Open] + shown_symbols(left) + seq![symbol] + shown_symbols(
                right,
            ) + seq![Symbol::Close];
            let pair = if symbol is And {
                Formula::And(Box::new(left), Box::new(right))
            } else {
                Formula::Or(Box::new(left), Box::new(right))
            };
            unary_at(before + shown + after, before.len() as int) == Parsed::Done(
                pair,
                (before.len() + shown.len()) as int,
            )
        }),
{
    let l = shown_symbols(left);
    let r = shown_symbols(right);
    let shown = seq![Symbol::Open] + l + seq![symbol] + r + seq![Symbol::Close];
    let ts = before + shown + after;
    let at = before.len() as int;
    let start = before + seq![Symbol::Open];
    let end = seq![Symbol::Close] + after;
    assert(ts =~= start + l + (seq![symbol] + r + end));
    assert(ts =~= start + l + seq![symbol] + r + end);
    let p1 = at + 1 + l.len();
    let p2 = p1 + 1 + r.len();
    assert(ts[at] == Symbol::Open);
    assert(ts[p1] == symbol);
    assert(ts[p2] == Symbol::Close);
    pair_parses(ts, at, left, p1, right, p2);
}

proof fn unary_of_shown(before: Seq<Symbol>, formula: Formula, after: Seq<Symbol>)
    ensures
        unary_at(before + shown_symbols(formula) + after, before.len() as int) == Parsed::Done(
            formula,
            (before.len() + shown_symbols(formula).len()) as int,
        ),
        shown_symbols(formula).len() > 0,
    decreases formula,
{
    let ts = before + shown_symbols(formula) + after;
    let at = before.len() as int;
    match formula {
        Formula::Key(key) => {
            assert(ts[at] == Symbol::Key(key));
        },
        Formula::Not(inner) => {
            let start = before + seq![Symbol::Not];
            assert(ts =~= start + shown_symbols(*inner) + after);
            assert(ts[at] == Symbol::Not);
            unary_of_shown(start, *inner, after);
        },
        Formula::And(left, right) => {
            let start = before + seq![Symbol::Open];
            let end = seq![Symbol::Close] + after;
            unary_of_shown(start, *left, seq![Symbol::And] + shown_symbols(*right) + end);
            unary_of_shown(start + shown_symbols(*left) + seq![Symbol::And], *right, end);
            unary_of_pair(before, *left, Symbol::And, *right, after);
        },
        Formula::Or(left, right) => {
            let start = before + seq![Symbol::Open];
            let end = seq![Symbol::Close] + after;
            unary_of_shown(start, *left, seq![Symbol::Or] + shown_symbols(*right) + end);
            unary_of_shown(start + shown_symbols(*left) + seq![Symbol::Or], *right, end);
            unary_of_pair(before, *left, Symbol::Or, *right, after);
        },
    }
}

/// Parsing a formula as it is shown gives the formula back.
pub proof fn shown_formulas_parse_back(formula: Formula)
    requires
        formula.well_named(),
    ensures
        formula_of(formula.shown()) == Ok::<Formula, Seq<char>>(formula),
{
    let empty = Seq::<char>::empty();
    lex_of_shown(formula, empty);
    assert(formula.shown() + empty =~= formula.shown());
    let ts = shown_symbols(formula);
    assert(ts + seq![] =~= ts);
    unary_of_shown(seq![], formula, seq![]);
    assert(seq![] + ts + seq![] =~= ts);
    let n = ts.len() as int;
    assert(and_rest(ts, formula, n) == Parsed::Done(formula, n));
    assert(and_at(ts, 0) == Parsed::Done(formula, n));
    assert(or_rest(ts, formula, n) == Parsed::Done(formula, n));
}

/// `&&` binds tighter than `||`: `a || b && c` is `a || (b && c)`, and `a && b || c` is
/// `(a && b) || c`, for any keys.
pub proof fn and_binds_tighter(a: Seq<char>, b: Seq<char>, c: Seq<char>)
    ensures
        or_at(
            seq![Symbol::Key(a), Symbol::Or, Symbol::Key(b), Symbol::And, Symbol::Key(c)],
            0,
        ) == Parsed::Done(
            Formula::Or(
                Box::new(Formula::Key(a)),
                Box::new(
                    Formula::And(Box::new(Formula::Key(b)), Box::new(Formula::Key(c))),
                ),
            ),
            5,
        ),
        or_at(
            seq![Symbol::Key(a), Symbol::And, Symbol::Key(b), Symbol::Or, Symbol::Key(c)],
            0,
        ) == Parsed::Done(
            Formula::Or(
                Box::new(
                    Formula::And(Box::new(Formula::Key(a)), Box::new(Formula::Key(b))),
                ),
                Box::new(Formula::Key(c)),
            ),
            5,
        ),
{
    let (fa, fb, fc) = (Formula::Key(a), Formula::Key(b), Formula::Key(c));
    let ts = seq![Symbol::Key(a), Symbol::Or, Symbol::Key(b), Symbol::And, Symbol::Key(c)];
    let bc = Formula::And(Box::new(fb), Box::new(fc));
    assert(unary_at(ts, 0) == Parsed::Done(fa, 1));
    assert(unary_at(ts, 2) == Parsed::Done(fb, 3));
    assert(unary_at(ts, 4) == Parsed::Done(fc, 5));
    assert(and_rest(ts, bc, 5) == Parsed::Done(bc, 5));
    assert(and_rest(ts, fb, 3) == Parsed::Done(bc, 5));
    assert(and_at(ts, 2) == Parsed::Done(bc, 5));
    assert(and_rest(ts, fa, 1) == Parsed::Done(fa, 1));
    assert(and_at(ts, 0) == Parsed::Done(fa, 1));
    let first = Formula::Or(Box::new(fa), Box::new(bc));
    assert(or_rest(ts, first, 5) == Parsed::Done(first, 5));
    assert(or_rest(ts, fa, 1) == Parsed::Done(first, 5));
    let us = seq![Symbol::Key(a), Symbol::And, Symbol::Key(b), Symbol::Or, Symbol::Key(c)];
    let ab = Formula::And(Box::new(fa), Box::new(fb));
    assert(unary_at(us, 0) == Parsed::Done(fa, 1));
    assert(unary_at(us, 2) == Parsed::Done(fb, 3));
    assert(unary_at(us, 4) == Parsed::Done(fc, 5));
    assert(and_rest(us, ab, 3) == Parsed::Done(ab, 3));
    assert(and_rest(us, fa, 1) == Parsed::Done(ab, 3));
    assert(and_at(us, 0) == Parsed::Done(ab, 3));
    assert(and_rest(us, fc, 5) == Parsed::Done(fc, 5));
    assert(and_at(us, 4) == Parsed::Done(fc, 5));
    let second = Formula::Or(Box::new(ab), Box::new(fc));
    assert(or_rest(us, second, 5) == Parsed::Done(second, 5));
    assert(or_rest(us, ab, 3) == Parsed::Done(second, 5));
}

/// What a condition means: `&&` needs both sides, `||` is content with either, and `!` turns its
/// side round.
pub proof fn conditions_mean_what_they_say(
    a: Formula,
    b: Formula,
    on: spec_fn(Seq<char>) -> bool,
)
    ensures
        ({
            let both = Formula::And(Box::new(a), Box::new(b)).truth(on);
            let either = Formula::Or(Box::new(a), Box::new(b)).truth(on);
            &&& both ==> a.truth(on) && b.truth(on)
            &&& a.truth(on) && b.truth(on) ==> both
            &&& a.truth(on) ==> either
            &&& b.truth(on) ==> either
            &&& either && !a.truth(on) ==> b.truth(on)
            &&& Formula::Not(Box::new(a)).truth(on) != a.truth(on)
        }),
{
}

/// A condition depends on nothing but its keys.
pub proof fn only_the_keys_matter(
    formula: Formula,
    on: spec_fn(Seq<char>) -> bool,
    also: spec_fn(Seq<char>) -> bool,
)
    requires
        forall|key: Seq<char>| formula.keys().contains(key) ==> on(key) == #[trigger] also(key),
    ensures
        formula.truth(on) == formula.truth(also),
    decreases formula,
{
    match formula {
        Formula::Key(key) => {
            assert(formula.keys()[0] == key);
            assert(on(key) == also(key));
        },
        Formula::Not(inner) => only_the_keys_matter(*inner, on, also),
        Formula::And(left, right) => {
            keys_of_both(*left, *right, formula.keys(), on, also);
            only_the_keys_matter(*left, on, also);
            only_the_keys_matter(*right, on, also);
        },
        Formula::Or(left, right) => {
            keys_of_both(*left, *right, formula.keys(), on, also);
            only_the_keys_matter(*left, on, also);
            only_the_keys_matter(*right, on, also);
        },
    }
}

proof fn keys_of_both(
    left: Formula,
    right: Formula,
    keys: Seq<Seq<char>>,
    on: spec_fn(Seq<char>) -> bool,
    also: spec_fn(Seq<char>) -> bool,
)
    requires
        keys == left.keys() + right.keys(),
        forall|key: Seq<char>| keys.contains(key) ==> on(key) == #[trigger] also(key),
    ensures
        forall|key: Seq<char>| left.keys().contains(key) ==> on(key) == #[trigger] also(key),
        forall|key: Seq<char>| right.keys().contains(key) ==> on(key) == #[trigger] also(key),
{
    assert forall|key: Seq<char>| left.keys().contains(key) implies on(key) == #[trigger] also(
        key,
    ) by {
        let k = choose|k: int| 0 <= k < left.keys().len() && left.keys()[k] == key;
        assert(keys[k] == key);
    }
    assert forall|key: Seq<char>| right.keys().contains(key) implies on(key) == #[trigger] also(
        key,
    ) by {
        let k = choose|k: int| 0 <= k < right.keys().len() && right.keys()[k] == key;
        assert(keys[left.keys().len() + k] == key);
    }
}

/// `!` binds tighter than `&&` and `||`: it turns round the key behind it and no more.
pub proof fn not_binds_tightest(a: Seq<char>, b: Seq<char>)
    ensures
        or_at(seq![Symbol::Not, Symbol::Key(a), Symbol::And, Symbol::Key(b)], 0) == Parsed::Done(
            Formula::And(
                Box::new(Formula::Not(Box::new(Formula::Key(a)))),
                Box::new(Formula::Key(b)),
            ),
            4,
        ),
        or_at(seq![Symbol::Not, Symbol::Key(a), Symbol::Or, Symbol::Key(b)], 0) == Parsed::Done(
            Formula::Or(
                Box::new(Formula::Not(Box::new(Formula::Key(a)))),
                Box::new(Formula::Key(b)),
            ),
            4,
        ),
{
    reveal_with_fuel(unary_at, 3);
    reveal_with_fuel(and_at, 3);
    reveal_with_fuel(and_rest, 3);
    reveal_with_fuel(or_at, 3);
    reveal_with_fuel(or_rest, 3);
}

/// Spaces and tabs between the parts of a condition do not matter.
pub proof fn blanks_do_not_matter(blank: char, text: Seq<char>)
    requires
        blank == ' ' || blank == '\t',
    ensures
        formula_of(seq![blank] + text) == formula_of(text),
{
    assert((seq![blank] + text)[0] == blank);
    lex_of_suffix(seq![blank], text, 0);
}

/// The signs of the language: each is read for what it means, wherever it stands.
pub proof fn signs_are_read(rest: Seq<char>)
    ensures
        lex(seq!['&', '&'] + rest, 0) == prepended(seq![Symbol::And], lex(rest, 0)),
        lex(seq!['|', '|'] + rest, 0) == prepended(seq![Symbol::Or], lex(rest, 0)),
        lex(seq!['!'] + rest, 0) == prepended(seq![Symbol::Not], lex(rest, 0)),
        lex(seq!['('] + rest, 0) == prepended(seq![Symbol::Open], lex(rest, 0)),
        lex(seq![')'] + rest, 0) == prepended(seq![Symbol::Close], lex(rest, 0)),
{
    let and = seq!['&', '&'] + rest;
    let or = seq!['|', '|'] + rest;
    assert(and[0] == '&' && and[1] == '&' && or[0] == '|' && or[1] == '|');
    assert((seq!['!'] + rest)[0] == '!');
    assert((seq!['('] + rest)[0] == '(');
    assert((seq![')'] + rest)[0] == ')');
    lex_of_suffix(seq!['&', '&'], rest, 0);
    lex_of_suffix(seq!['|', '|'], rest, 0);
    lex_of_suffix(seq!['!'], rest, 0);
    lex_of_suffix(seq!['('], rest, 0);
    lex_of_suffix(seq![')'], rest, 0);
}

} // verus!
