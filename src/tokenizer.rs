//! Classified symbols, the input of the compiler, and the lexer that
//! produces them from source text.
use vstd::prelude::*;
use crate::error::Error;
use crate::text::{float_shape, sign_len, is_digit, is_float_text, joined, parse_i32, parsed_i32, position_of, position_text, push_char, trim_text, trimmed};

verus! {

/// The kind of a classified symbol.
#[derive(Clone, Copy, PartialEq, Eq, Structural, Debug)]
pub enum SymbolType {
    Instruction,
    Label,
    LabelReference,
    Integer,
    Float,
    String,
}

/// A classified symbol with its text and source position.
pub struct Symbol {
    pub symbol_type: SymbolType,
    pub value: String,
    pub line_number: usize,
    pub column_number: usize,
}

impl Symbol {
    pub fn new(symbol_type: SymbolType, value: String, line_number: usize, column_number: usize) -> (r: Symbol)
        ensures
            r.symbol_type == symbol_type,
            r.value == value,
            r.line_number == line_number,
            r.column_number == column_number,
    {
        Symbol { symbol_type, value, line_number, column_number }
    }
}

pub open spec fn symbol_view(s: Symbol) -> (SymbolType, Seq<char>, usize, usize) {
    (s.symbol_type, s.value@, s.line_number, s.column_number)
}

/// The kind of a lexical token.
#[derive(Clone, Copy, PartialEq, Eq, Structural, Debug)]
pub enum TokenType {
    StringLiteral,
    NumericLiteral,
    Identifier,
    Comment,
    Unknown,
    EOF,
}

/// A lexical token with its text and the position where it ended.
pub struct Token {
    pub token_type: TokenType,
    pub value: String,
    pub line_number: usize,
    pub column_number: usize,
}

/// The kind and text of the symbol that a token becomes, if any: numbers with
/// a `.` are floats (a trailing `.` gains a `0`), identifiers ending in `:`
/// define labels, identifiers starting with `@` refer to them.
pub open spec fn symbol_for(t: Token) -> Option<(SymbolType, Seq<char>)> {
    let v = t.value@;
    match t.token_type {
        TokenType::NumericLiteral => if v.len() > 0 && v.last() == '.' {
            Some((SymbolType::Float, v + "0"@))
        } else if v.contains('.') {
            Some((SymbolType::Float, v))
        } else {
            Some((SymbolType::Integer, v))
        },
        TokenType::Identifier => if v.len() > 0 && v.last() == ':' {
            Some((SymbolType::Label, v))
        } else if v.len() > 0 && v[0] == '@' {
            Some((SymbolType::LabelReference, v))
        } else {
            Some((SymbolType::Instruction, v))
        },
        TokenType::StringLiteral => Some((SymbolType::String, v)),
        _ => None,
    }
}

/// The symbols that a token sequence becomes, in order.
pub open spec fn symbols_for(tokens: Seq<Token>) -> Seq<(SymbolType, Seq<char>, usize, usize)>
    decreases tokens.len(),
{
    if tokens.len() == 0 {
        Seq::empty()
    } else {
        let t = tokens.last();
        let prev = symbols_for(tokens.drop_last());
        match symbol_for(t) {
            Some((kind, text)) => prev.push((kind, text, t.line_number, t.column_number)),
            None => prev,
        }
    }
}

/// Symbols made from tokens whose number text is valid carry valid number
/// text: an integer symbol's text denotes an `i32`, and a float symbol's text
/// is decimal float text.
pub proof fn lemma_symbols_numeric(tokens: Seq<Token>)
    requires
        forall|k: int| 0 <= k < tokens.len() && #[trigger] tokens[k].token_type == TokenType::NumericLiteral
            ==> numeric_ok(tokens[k].value@),
    ensures
        forall|j: int| 0 <= j < symbols_for(tokens).len() ==> {
            let (kind, text, _, _) = #[trigger] symbols_for(tokens)[j];
            &&& kind == SymbolType::Integer ==> parsed_i32(text) is Some
            &&& kind == SymbolType::Float ==> float_shape(text)
        },
    decreases tokens.len(),
{
    if tokens.len() > 0 {
        let prev = tokens.drop_last();
        assert forall|k: int| 0 <= k < prev.len() && #[trigger] prev[k].token_type == TokenType::NumericLiteral
            implies numeric_ok(prev[k].value@) by {
            assert(prev[k] == tokens[k]);
        }
        lemma_symbols_numeric(prev);
        let t = tokens.last();
        let v = t.value@;
        assert(tokens[tokens.len() - 1] == t);
        if t.token_type == TokenType::NumericLiteral && v.len() > 0 && v.last() == '.' {
            assert(v.contains('.')) by {
                assert(v[v.len() - 1] == '.');
            }
            let k = choose|k: int| sign_len(v) < k < v.len() && v[k] == '.' && forall|i: int|
                sign_len(v) <= i < v.len() && i != k ==> #[trigger] is_digit(v[i]);
            let w = v + "0"@;
            reveal_strlit("0");
            assert(w.len() == v.len() + 1);
            assert(sign_len(w) == sign_len(v));
            assert(forall|i: int| sign_len(w) <= i < w.len() && i != k ==> #[trigger] is_digit(w[i]));
            assert(sign_len(w) < k < w.len() && w[k] == '.');
            assert(float_shape(w));
        }
    }
}

fn has_char(s: &str, c: char) -> (r: bool)
    ensures
        r == s@.contains(c),
{
    let n = s.unicode_len();
    let mut i: usize = 0;
    while i < n
        invariant
            n == s@.len(),
            i <= n,
            forall|k: int| 0 <= k < i ==> s@[k] != c,
        decreases n - i,
    {
        if s.get_char(i) == c {
            assert(s@[i as int] == c);
            return true;
        }
        i += 1;
    }
    false
}

fn ends_with_char(s: &str, c: char) -> (r: bool)
    ensures
        r == (s@.len() > 0 && s@.last() == c),
{
    let n = s.unicode_len();
    n > 0 && s.get_char(n - 1) == c
}

fn starts_with_char(s: &str, c: char) -> (r: bool)
    ensures
        r == (s@.len() > 0 && s@[0] == c),
{
    let n = s.unicode_len();
    n > 0 && s.get_char(0) == c
}

fn symbol_of(t: &Token) -> (r: Option<Symbol>)
    ensures
        match symbol_for(*t) {
            Some((kind, text)) => r is Some && symbol_view(r->0) == (kind, text, t.line_number, t.column_number),
            None => r is None,
        },
{
    let v = t.value.as_str();
    let kind_text = match t.token_type {
        TokenType::NumericLiteral => if ends_with_char(v, '.') {
            Some((SymbolType::Float, joined(v, "0")))
        } else if has_char(v, '.') {
            Some((SymbolType::Float, t.value.clone()))
        } else {
            Some((SymbolType::Integer, t.value.clone()))
        },
        TokenType::Identifier => if ends_with_char(v, ':') {
            Some((SymbolType::Label, t.value.clone()))
        } else if starts_with_char(v, '@') {
            Some((SymbolType::LabelReference, t.value.clone()))
        } else {
            Some((SymbolType::Instruction, t.value.clone()))
        },
        TokenType::StringLiteral => Some((SymbolType::String, t.value.clone())),
        _ => None,
    };
    match kind_text {
        Some((kind, text)) => Some(Symbol::new(kind, text, t.line_number, t.column_number)),
        None => None,
    }
}

/// Valid number text: float text if it holds a `.`, else a 32-bit integer.
pub open spec fn numeric_ok(s: Seq<char>) -> bool {
    if s.contains('.') {
        float_shape(s)
    } else {
        parsed_i32(s) is Some
    }
}

fn is_numeric_text(s: &str) -> (r: bool)
    ensures
        r == numeric_ok(s@),
{
    if has_char(s, '.') {
        is_float_text(s)
    } else {
        parse_i32(s).is_some()
    }
}

pub open spec fn token_view(t: Token) -> (TokenType, Seq<char>, nat, nat) {
    (t.token_type, t.value@, t.line_number as nat, t.column_number as nat)
}

/// The lexer between two characters: the tokens so far, the text of the
/// token being read and its kind, and the position of the next character.
pub struct LexState {
    pub tokens: Seq<(TokenType, Seq<char>, nat, nat)>,
    pub cur: Seq<char>,
    pub kind: TokenType,
    pub line: nat,
    pub column: nat,
}

pub enum Lex {
    Going(LexState),
    Failed(Seq<char>, Seq<char>),
}

pub open spec fn is_letter(c: char) -> bool {
    ('a' <= c && c <= 'z') || ('A' <= c && c <= 'Z') || c == '_'
}

/// `st` moved past character `c`.
pub open spec fn moved(st: LexState, c: char) -> LexState {
    if c == '\n' {
        LexState { line: st.line + 1, column: 1, ..st }
    } else {
        LexState { column: st.column + 1, ..st }
    }
}

/// What the lexer does with one character. Every character moves the
/// position: a line break to the start of the next line, anything else one
/// column on.
pub open spec fn lex_char(st: LexState, c: char) -> Lex {
    let pos = position_of(st.line, st.column);
    if st.kind == TokenType::Comment {
        Lex::Going(moved(LexState { kind: if c == '\n' { TokenType::Unknown } else { TokenType::Comment }, ..st }, c))
    } else if is_digit(c) {
        let kind = if st.kind == TokenType::Unknown { TokenType::NumericLiteral } else { st.kind };
        Lex::Going(moved(LexState { kind, cur: st.cur.push(c), ..st }, c))
    } else if c == '.' {
        if st.kind == TokenType::NumericLiteral || st.kind == TokenType::StringLiteral {
            Lex::Going(moved(LexState { cur: st.cur.push(c), ..st }, c))
        } else {
            Lex::Failed("Invalid token"@, pos)
        }
    } else if c == '"' {
        if st.kind == TokenType::Unknown {
            Lex::Going(moved(LexState { kind: TokenType::StringLiteral, ..st }, c))
        } else if st.kind == TokenType::StringLiteral {
            Lex::Going(moved(LexState {
                tokens: st.tokens.push((TokenType::StringLiteral, st.cur, st.line, st.column)),
                cur: Seq::empty(),
                kind: TokenType::Unknown,
                ..st
            }, c))
        } else {
            Lex::Going(moved(st, c))
        }
    } else if is_letter(c) {
        let kind = if st.kind == TokenType::Unknown { TokenType::Identifier } else { st.kind };
        Lex::Going(moved(LexState { kind, cur: st.cur.push(c), ..st }, c))
    } else if c == ';' {
        Lex::Going(moved(LexState { kind: TokenType::Comment, ..st }, c))
    } else if c == ' ' || c == '\n' || c == '\t' {
        let t = trimmed(st.cur);
        if t.len() == 0 {
            Lex::Going(moved(LexState { cur: t, ..st }, c))
        } else if st.kind == TokenType::NumericLiteral && !numeric_ok(t) {
            Lex::Failed("Invalid numeric literal"@, pos)
        } else if st.kind == TokenType::NumericLiteral || st.kind == TokenType::Identifier {
            Lex::Going(moved(LexState {
                tokens: st.tokens.push((st.kind, t, st.line, st.column)),
                cur: Seq::empty(),
                kind: TokenType::Unknown,
                ..st
            }, c))
        } else if st.kind == TokenType::StringLiteral {
            if c == '\n' {
                Lex::Failed("Unterminated string literal"@, pos)
            } else {
                Lex::Going(moved(LexState { cur: t.push(c), ..st }, c))
            }
        } else {
            Lex::Going(moved(LexState { cur: Seq::empty(), kind: TokenType::Unknown, ..st }, c))
        }
    } else {
        Lex::Going(moved(LexState { cur: st.cur.push(c), ..st }, c))
    }
}

/// The lexer after reading `cs` from `start`.
pub open spec fn lex_prefix(start: LexState, cs: Seq<char>) -> Lex
    decreases cs.len(),
{
    if cs.len() == 0 {
        Lex::Going(start)
    } else {
        match lex_prefix(start, cs.drop_last()) {
            Lex::Going(st) => lex_char(st, cs.last()),
            failed => failed,
        }
    }
}

proof fn lemma_lex_failure_sticks(start: LexState, cs: Seq<char>, n: int)
    requires
        0 <= n <= cs.len(),
        lex_prefix(start, cs.take(n)) is Failed,
    ensures
        lex_prefix(start, cs) == lex_prefix(start, cs.take(n)),
    decreases cs.len() - n,
{
    if n < cs.len() {
        assert(cs.take(n + 1).drop_last() =~= cs.take(n));
        lemma_lex_failure_sticks(start, cs, n + 1);
    } else {
        assert(cs.take(n) =~= cs);
    }
}

/// Splits source text into tokens, and turns tokens into classified symbols.
pub struct Tokenizer {
    pub tokens: Vec<Token>,
    line_number: usize,
    column_number: usize,
}

impl Tokenizer {
    pub fn new() -> (r: Tokenizer)
        ensures
            r.token_list().len() == 0,
            r.line() == 1,
            r.column() == 1,
    {
        Tokenizer { tokens: Vec::new(), line_number: 1, column_number: 1 }
    }

    /// The tokens produced so far.
    pub closed spec fn token_list(&self) -> Seq<Token> {
        self.tokens@
    }

    /// The line the next character stands on.
    pub closed spec fn line(&self) -> nat {
        self.line_number as nat
    }

    /// The column the next character stands on.
    pub closed spec fn column(&self) -> nat {
        self.column_number as nat
    }

    /// Reads `code` character by character, appending its tokens and then an
    /// end marker at the final position. A token still open when the text ends
    /// is dropped. Fails on a `.` outside a number or string, on a number whose
    /// text is not valid, and on a line break inside a string; the tokens are
    /// then left as they were. Every number token it appends is valid.
    pub fn tokenize(&mut self, code: &str) -> (r: Result<(), Error>)
        requires
            old(self).line() + code@.len() <= usize::MAX,
            old(self).column() + code@.len() + 1 <= usize::MAX,
        ensures
            match lex_prefix(
                LexState {
                    tokens: Seq::empty(),
                    cur: Seq::empty(),
                    kind: TokenType::Unknown,
                    line: old(self).line(),
                    column: old(self).column(),
                },
                code@,
            ) {
                Lex::Going(st) => r is Ok && final(self).token_list().map_values(|t: Token| token_view(t))
                    == old(self).token_list().map_values(|t: Token| token_view(t)) + st.tokens.push(
                    (TokenType::EOF, Seq::empty(), st.line, st.column),
                ) && final(self).line() == st.line && final(self).column() == st.column,
                Lex::Failed(message, pos) => r is Err && r->Err_0.view_pair() == (message, pos)
                    && final(self).token_list() == old(self).token_list(),
            },
            forall|k: int| old(self).token_list().len() <= k < final(self).token_list().len()
                && #[trigger] final(self).token_list()[k].token_type == TokenType::NumericLiteral
                ==> numeric_ok(final(self).token_list()[k].value@),
    {
        let ghost start = LexState {
            tokens: Seq::empty(),
            cur: Seq::empty(),
            kind: TokenType::Unknown,
            line: self.line_number as nat,
            column: self.column_number as nat,
        };
        let n = code.unicode_len();
        let mut fresh: Vec<Token> = Vec::new();
        let mut cur = String::new();
        let mut kind = TokenType::Unknown;
        let mut line = self.line_number;
        let mut column = self.column_number;
        let mut i: usize = 0;
        assert(code@.take(0) =~= Seq::<char>::empty());
        assert(fresh@.map_values(|t: Token| token_view(t)) =~= Seq::empty());
        while i < n
            invariant
                n == code@.len(),
                i <= n,
                self.token_list() == old(self).token_list(),
                start.line == old(self).line(),
                start.column == old(self).column(),
                start.tokens == Seq::<(TokenType, Seq<char>, nat, nat)>::empty(),
                start.cur == Seq::<char>::empty(),
                start.kind == TokenType::Unknown,
                forall|k: int| 0 <= k < fresh@.len() && #[trigger] fresh@[k].token_type == TokenType::NumericLiteral
                    ==> numeric_ok(fresh@[k].value@),
                line <= start.line + i,
                column <= start.column + i + 1,
                start.line + n <= usize::MAX,
                start.column + n + 1 <= usize::MAX,
                lex_prefix(start, code@.take(i as int)) == Lex::Going(
                    LexState {
                        tokens: fresh@.map_values(|t: Token| token_view(t)),
                        cur: cur@,
                        kind,
                        line: line as nat,
                        column: column as nat,
                    },
                ),
            decreases n - i,
        {
            let c = code.get_char(i);
            let ghost st = LexState {
                tokens: fresh@.map_values(|t: Token| token_view(t)),
                cur: cur@,
                kind,
                line: line as nat,
                column: column as nat,
            };
            let ghost before = fresh@;
            assert(code@.take(i as int + 1).drop_last() =~= code@.take(i as int));
            assert(code@.take(i as int + 1).last() == c);
            if kind == TokenType::Comment {
                if c == '\n' {
                    kind = TokenType::Unknown;
                }
            } else if '0' <= c && c <= '9' {
                if kind == TokenType::Unknown {
                    kind = TokenType::NumericLiteral;
                }
                push_char(&mut cur, c);
            } else if c == '.' {
                if kind == TokenType::NumericLiteral || kind == TokenType::StringLiteral {
                    push_char(&mut cur, c);
                } else {
                    proof {
                        assert(lex_prefix(start, code@.take(i as int + 1)) == lex_char(st, c));
                        lemma_lex_failure_sticks(start, code@, i as int + 1);
                    }
                    return Err(Error::new("Invalid token", position_text(line, column)));
                }
            } else if c == '"' {
                if kind == TokenType::Unknown {
                    kind = TokenType::StringLiteral;
                } else if kind == TokenType::StringLiteral {
                    fresh.push(Token { token_type: TokenType::StringLiteral, value: cur, line_number: line, column_number: column });
                    assert(fresh@.map_values(|t: Token| token_view(t)) =~= st.tokens.push(
                        (TokenType::StringLiteral, st.cur, st.line, st.column),
                    ));
                    cur = String::new();
                    kind = TokenType::Unknown;
                }
            } else if ('a' <= c && c <= 'z') || ('A' <= c && c <= 'Z') || c == '_' {
                if kind == TokenType::Unknown {
                    kind = TokenType::Identifier;
                }
                push_char(&mut cur, c);
            } else if c == ';' {
                kind = TokenType::Comment;
            } else if c == ' ' || c == '\n' || c == '\t' {
                let t = trim_text(cur.as_str());
                if t.unicode_len() == 0 {
                    cur = t;
                } else if kind == TokenType::NumericLiteral && !is_numeric_text(t.as_str()) {
                    proof {
                        assert(lex_prefix(start, code@.take(i as int + 1)) == lex_char(st, c));
                        lemma_lex_failure_sticks(start, code@, i as int + 1);
                    }
                    return Err(Error::new("Invalid numeric literal", position_text(line, column)));
                } else if kind == TokenType::NumericLiteral || kind == TokenType::Identifier {
                    fresh.push(Token { token_type: kind, value: t, line_number: line, column_number: column });
                    assert(fresh@.map_values(|t: Token| token_view(t)) =~= st.tokens.push(
                        (st.kind, trimmed(st.cur), st.line, st.column),
                    ));
                    cur = String::new();
                    kind = TokenType::Unknown;
                } else if kind == TokenType::StringLiteral {
                    if c == '\n' {
                        proof {
                            assert(lex_prefix(start, code@.take(i as int + 1)) == lex_char(st, c));
                            lemma_lex_failure_sticks(start, code@, i as int + 1);
                        }
                        return Err(Error::new("Unterminated string literal", position_text(line, column)));
                    }
                    cur = t;
                    push_char(&mut cur, c);
                } else {
                    cur = String::new();
                    kind = TokenType::Unknown;
                }
            } else {
                push_char(&mut cur, c);
            }
            if c == '\n' {
                line = line + 1;
                column = 1;
            } else {
                column = column + 1;
            }
            i += 1;
        }
        assert(code@.take(i as int) =~= code@);
        let ghost old_tokens = self.tokens@;
        let ghost lexed = fresh@.map_values(|t: Token| token_view(t));
        fresh.push(Token { token_type: TokenType::EOF, value: String::new(), line_number: line, column_number: column });
        let ghost all = fresh@;
        assert(all.map_values(|t: Token| token_view(t)) =~= lexed.push(
            (TokenType::EOF, Seq::empty(), line as nat, column as nat),
        ));
        self.tokens.append(&mut fresh);
        assert(self.tokens@ =~= old_tokens + all);
        assert(self.tokens@.map_values(|t: Token| token_view(t)) =~= old_tokens.map_values(|t: Token| token_view(t))
            + all.map_values(|t: Token| token_view(t)));
        self.line_number = line;
        self.column_number = column;
        Ok(())
    }

    /// The symbols that the tokens become, in order; comments, unknown tokens
    /// and the end marker become none.
    pub fn into_symbols(&self) -> (r: Vec<Symbol>)
        ensures
            r@.map_values(|s: Symbol| symbol_view(s)) == symbols_for(self.token_list()),
    {
        let mut symbols: Vec<Symbol> = Vec::new();
        let mut i: usize = 0;
        assert(self.tokens@.take(0) =~= Seq::<Token>::empty());
        while i < self.tokens.len()
            invariant
                i <= self.tokens@.len(),
                symbols@.map_values(|s: Symbol| symbol_view(s)) == symbols_for(self.tokens@.take(i as int)),
            decreases self.tokens@.len() - i,
        {
            let ghost before = symbols@;
            assert(self.tokens@.take(i as int + 1).drop_last() =~= self.tokens@.take(i as int));
            assert(self.tokens@.take(i as int + 1).last() == self.tokens@[i as int]);
            match symbol_of(&self.tokens[i]) {
                Some(symbol) => {
                    symbols.push(symbol);
                    assert(symbols@.map_values(|s: Symbol| symbol_view(s)) =~= before.map_values(
                        |s: Symbol| symbol_view(s),
                    ).push(symbol_view(symbols@.last())));
                },
                None => {},
            }
            i += 1;
        }
        assert(self.tokens@.take(i as int) =~= self.tokens@);
        symbols
    }
}

} // verus!
