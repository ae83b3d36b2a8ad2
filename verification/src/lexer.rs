//! Lexical scanner: turns raw source text into a stream of tokens.
//!
//! The scanner never fails: malformed input (a variable name starting with a
//! digit, a bad `<?` sequence, an unclassifiable character) is reported as an
//! `Illegal` token carrying a reason string, and scanning continues.

use vstd::prelude::*;
use vstd::string::StringExecFns;

verus! {

/// The text payload carried by identifier, integer and variable tokens.
#[derive(Debug)]
pub enum Value {
    Empty,
    Is(String),
}

/// Spec-level image of a `Value`: the payload as a sequence of characters.
pub enum ValueView {
    Empty,
    Is(Seq<char>),
}

impl View for Value {
    type V = ValueView;

    open spec fn view(&self) -> ValueView {
        match self {
            Value::Empty => ValueView::Empty,
            Value::Is(s) => ValueView::Is(s@),
        }
    }
}

/// The text a payload stands for: the empty text for `Empty`.
pub open spec fn value_view_text(v: ValueView) -> Seq<char> {
    match v {
        ValueView::Empty => Seq::empty(),
        ValueView::Is(t) => t,
    }
}

impl Clone for Value {
    fn clone(&self) -> (r: Value)
        ensures
            r == *self,
    {
        match self {
            Value::Empty => Value::Empty,
            Value::Is(s) => Value::Is(s.clone()),
        }
    }
}

impl PartialEq for Value {
    fn eq(&self, other: &Value) -> (r: bool) {
        match (self, other) {
            (Value::Empty, Value::Empty) => true,
            (Value::Is(a), Value::Is(b)) => a.eq(b),
            _ => false,
        }
    }
}

impl vstd::std_specs::cmp::PartialEqSpecImpl for Value {
    open spec fn obeys_eq_spec() -> bool {
        true
    }

    open spec fn eq_spec(&self, other: &Value) -> bool {
        self@ == other@
    }
}

impl Value {
    /// The payload's text, as a fresh string.
    pub fn text(&self) -> (r: String)
        ensures
            r@ == value_view_text(self@),
    {
        match self {
            Value::Empty => String::new(),
            Value::Is(s) => s.clone(),
        }
    }
}

/// One lexical unit of the language.
#[derive(Debug)]
pub enum Token {
    /// A lexical rule was violated; carries a human-readable reason.
    Illegal(String),
    /// End of the input; returned forever once the input is exhausted.
    Eof,
    Ident(Value),
    Int(Value),
    Var(Value),
    Assign,
    Plus,
    Comma,
    Semicolon,
    Lparen,
    Rparen,
    Lbrace,
    Rbrace,
    LT,
    Function,
    True,
    False,
    If,
    Else,
    Return,
    /// The language-start marker `<?php`.
    StartTag,
}

/// Spec-level image of a `Token`, with text payloads as character sequences.
pub enum TokenView {
    Illegal(Seq<char>),
    Eof,
    Ident(ValueView),
    Int(ValueView),
    Var(ValueView),
    Assign,
    Plus,
    Comma,
    Semicolon,
    Lparen,
    Rparen,
    Lbrace,
    Rbrace,
    LT,
    Function,
    True,
    False,
    If,
    Else,
    Return,
    StartTag,
}

impl View for Token {
    type V = TokenView;

    open spec fn view(&self) -> TokenView {
        match self {
            Token::Illegal(e) => TokenView::Illegal(e@),
            Token::Eof => TokenView::Eof,
            Token::Ident(v) => TokenView::Ident(v@),
            Token::Int(v) => TokenView::Int(v@),
            Token::Var(v) => TokenView::Var(v@),
            Token::Assign => TokenView::Assign,
            Token::Plus => TokenView::Plus,
            Token::Comma => TokenView::Comma,
            Token::Semicolon => TokenView::Semicolon,
            Token::Lparen => TokenView::Lparen,
            Token::Rparen => TokenView::Rparen,
            Token::Lbrace => TokenView::Lbrace,
            Token::Rbrace => TokenView::Rbrace,
            Token::LT => TokenView::LT,
            Token::Function => TokenView::Function,
            Token::True => TokenView::True,
            Token::False => TokenView::False,
            Token::If => TokenView::If,
            Token::Else => TokenView::Else,
            Token::Return => TokenView::Return,
            Token::StartTag => TokenView::StartTag,
        }
    }
}

impl Clone for Token {
    fn clone(&self) -> (r: Token)
        ensures
            r == *self,
    {
        match self {
            Token::Illegal(e) => Token::Illegal(e.clone()),
            Token::Eof => Token::Eof,
            Token::Ident(v) => Token::Ident(v.clone()),
            Token::Int(v) => Token::Int(v.clone()),
            Token::Var(v) => Token::Var(v.clone()),
            Token::Assign => Token::Assign,
            Token::Plus => Token::Plus,
            Token::Comma => Token::Comma,
            Token::Semicolon => Token::Semicolon,
            Token::Lparen => Token::Lparen,
            Token::Rparen => Token::Rparen,
            Token::Lbrace => Token::Lbrace,
            Token::Rbrace => Token::Rbrace,
            Token::LT => Token::LT,
            Token::Function => Token::Function,
            Token::True => Token::True,
            Token::False => Token::False,
            Token::If => Token::If,
            Token::Else => Token::Else,
            Token::Return => Token::Return,
            Token::StartTag => Token::StartTag,
        }
    }
}

impl PartialEq for Token {
    fn eq(&self, other: &Token) -> (r: bool) {
        match (self, other) {
            (Token::Illegal(a), Token::Illegal(b)) => a.eq(b),
            (Token::Eof, Token::Eof) => true,
            (Token::Ident(a), Token::Ident(b)) => a.eq(b),
            (Token::Int(a), Token::Int(b)) => a.eq(b),
            (Token::Var(a), Token::Var(b)) => a.eq(b),
            (Token::Assign, Token::Assign) => true,
            (Token::Plus, Token::Plus) => true,
            (Token::Comma, Token::Comma) => true,
            (Token::Semicolon, Token::Semicolon) => true,
            (Token::Lparen, Token::Lparen) => true,
            (Token::Rparen, Token::Rparen) => true,
            (Token::Lbrace, Token::Lbrace) => true,
            (Token::Rbrace, Token::Rbrace) => true,
            (Token::LT, Token::LT) => true,
            (Token::Function, Token::Function) => true,
            (Token::True, Token::True) => true,
            (Token::False, Token::False) => true,
            (Token::If, Token::If) => true,
            (Token::Else, Token::Else) => true,
            (Token::Return, Token::Return) => true,
            (Token::StartTag, Token::StartTag) => true,
            _ => false,
        }
    }
}

impl vstd::std_specs::cmp::PartialEqSpecImpl for Token {
    open spec fn obeys_eq_spec() -> bool {
        true
    }

    open spec fn eq_spec(&self, other: &Token) -> bool {
        self@ == other@
    }
}

/// The canonical display form of a token, used in diagnostic messages:
/// payload-carrying tokens show their text, as in `Var(x)` or `Int(5)`.
pub open spec fn token_display(t: TokenView) -> Seq<char> {
    match t {
        TokenView::Illegal(e) => "Illegal("@ + e + ")"@,
        TokenView::Eof => "Eof"@,
        TokenView::Ident(v) => "Ident("@ + value_view_text(v) + ")"@,
        TokenView::Int(v) => "Int("@ + value_view_text(v) + ")"@,
        TokenView::Var(v) => "Var("@ + value_view_text(v) + ")"@,
        TokenView::Assign => "Assign"@,
        TokenView::Plus => "Plus"@,
        TokenView::Comma => "Comma"@,
        TokenView::Semicolon => "Semicolon"@,
        TokenView::Lparen => "Lparen"@,
        TokenView::Rparen => "Rparen"@,
        TokenView::Lbrace => "Lbrace"@,
        TokenView::Rbrace => "Rbrace"@,
        TokenView::LT => "LT"@,
        TokenView::Function => "Function"@,
        TokenView::True => "True"@,
        TokenView::False => "False"@,
        TokenView::If => "If"@,
        TokenView::Else => "Else"@,
        TokenView::Return => "Return"@,
        TokenView::StartTag => "StartTag"@,
    }
}

impl Token {
    /// The token's canonical display form, used in diagnostic messages.
    pub fn display_text(&self) -> (r: String)
        ensures
            r@ == token_display(self@),
    {
        match self {
            Token::Illegal(e) => {
                let mut out = String::from_str("Illegal(");
                out.append(e.as_str());
                out.append(")");
                proof {
                    assert(out@ =~= token_display(self@));
                }
                out
            },
            Token::Eof => String::from_str("Eof"),
            Token::Ident(v) => {
                let mut out = String::from_str("Ident(");
                out.append(v.text().as_str());
                out.append(")");
                proof {
                    assert(out@ =~= token_display(self@));
                }
                out
            },
            Token::Int(v) => {
                let mut out = String::from_str("Int(");
                out.append(v.text().as_str());
                out.append(")");
                proof {
                    assert(out@ =~= token_display(self@));
                }
                out
            },
            Token::Var(v) => {
                let mut out = String::from_str("Var(");
                out.append(v.text().as_str());
                out.append(")");
                proof {
                    assert(out@ =~= token_display(self@));
                }
                out
            },
            Token::Assign => String::from_str("Assign"),
            Token::Plus => String::from_str("Plus"),
            Token::Comma => String::from_str("Comma"),
            Token::Semicolon => String::from_str("Semicolon"),
            Token::Lparen => String::from_str("Lparen"),
            Token::Rparen => String::from_str("Rparen"),
            Token::Lbrace => String::from_str("Lbrace"),
            Token::Rbrace => String::from_str("Rbrace"),
            Token::LT => String::from_str("LT"),
            Token::Function => String::from_str("Function"),
            Token::True => String::from_str("True"),
            Token::False => String::from_str("False"),
            Token::If => String::from_str("If"),
            Token::Else => String::from_str("Else"),
            Token::Return => String::from_str("Return"),
            Token::StartTag => String::from_str("StartTag"),
        }
    }
}

/// ASCII whitespace skipped between tokens.
pub open spec fn is_whitespace_char(c: char) -> bool {
    c == ' ' || c == '\t' || c == '\n' || c == '\r'
}

/// ASCII decimal digit.
pub open spec fn is_digit_char(c: char) -> bool {
    ('0' as u32) <= (c as u32) && (c as u32) <= ('9' as u32)
}

/// A character that may appear in an identifier: ASCII letter or underscore.
pub open spec fn is_letter_char(c: char) -> bool {
    (('a' as u32) <= (c as u32) && (c as u32) <= ('z' as u32)) || (('A' as u32) <= (c as u32)
        && (c as u32) <= ('Z' as u32)) || c == '_'
}

/// A character that may appear in a variable name after the first:
/// ASCII letter, digit or underscore.
pub open spec fn is_var_char(c: char) -> bool {
    is_letter_char(c) || is_digit_char(c)
}

/// First position at or after `i` holding no whitespace (or the input's end).
pub open spec fn whitespace_end(s: Seq<char>, i: nat) -> nat
    decreases s.len() - i,
{
    if i < s.len() && is_whitespace_char(s[i as int]) {
        whitespace_end(s, i + 1)
    } else {
        i
    }
}

/// End of the maximal run of identifier characters starting at `i`.
pub open spec fn letters_end(s: Seq<char>, i: nat) -> nat
    decreases s.len() - i,
{
    if i < s.len() && is_letter_char(s[i as int]) {
        letters_end(s, i + 1)
    } else {
        i
    }
}

/// End of the maximal run of digits starting at `i`.
pub open spec fn digits_end(s: Seq<char>, i: nat) -> nat
    decreases s.len() - i,
{
    if i < s.len() && is_digit_char(s[i as int]) {
        digits_end(s, i + 1)
    } else {
        i
    }
}

/// End of the maximal run of variable-name characters starting at `i`.
pub open spec fn var_chars_end(s: Seq<char>, i: nat) -> nat
    decreases s.len() - i,
{
    if i < s.len() && is_var_char(s[i as int]) {
        var_chars_end(s, i + 1)
    } else {
        i
    }
}

proof fn lemma_whitespace_end_bounds(s: Seq<char>, i: nat)
    ensures
        i <= whitespace_end(s, i),
        i <= s.len() ==> whitespace_end(s, i) <= s.len(),
    decreases s.len() - i,
{
    if i < s.len() && is_whitespace_char(s[i as int]) {
        lemma_whitespace_end_bounds(s, i + 1);
    }
}

proof fn lemma_letters_end_bounds(s: Seq<char>, i: nat)
    ensures
        i <= letters_end(s, i),
        i <= s.len() ==> letters_end(s, i) <= s.len(),
    decreases s.len() - i,
{
    if i < s.len() && is_letter_char(s[i as int]) {
        lemma_letters_end_bounds(s, i + 1);
    }
}

proof fn lemma_digits_end_bounds(s: Seq<char>, i: nat)
    ensures
        i <= digits_end(s, i),
        i <= s.len() ==> digits_end(s, i) <= s.len(),
    decreases s.len() - i,
{
    if i < s.len() && is_digit_char(s[i as int]) {
        lemma_digits_end_bounds(s, i + 1);
    }
}

proof fn lemma_var_chars_end_bounds(s: Seq<char>, i: nat)
    ensures
        i <= var_chars_end(s, i),
        i <= s.len() ==> var_chars_end(s, i) <= s.len(),
    decreases s.len() - i,
{
    if i < s.len() && is_var_char(s[i as int]) {
        lemma_var_chars_end_bounds(s, i + 1);
    }
}

/// The keyword table: an exact match yields the keyword's token, any other
/// identifier text yields a generic identifier token.
pub open spec fn keyword_token(text: Seq<char>) -> TokenView {
    if text == "function"@ {
        TokenView::Function
    } else if text == "true"@ {
        TokenView::True
    } else if text == "false"@ {
        TokenView::False
    } else if text == "if"@ {
        TokenView::If
    } else if text == "else"@ {
        TokenView::Else
    } else if text == "return"@ {
        TokenView::Return
    } else {
        TokenView::Ident(ValueView::Is(text))
    }
}

/// Scanning after a `<` at position `j` (with whitespace already skipped):
/// `<?` followed by exactly the identifier `php` is the language-start
/// marker, any other `<?` sequence is illegal, and a lone `<` is less-than.
pub open spec fn scan_lt(s: Seq<char>, j: nat) -> (TokenView, nat) {
    if j + 1 < s.len() && s[j + 1 as int] == '?' {
        let k = letters_end(s, (j + 2) as nat);
        let text = s.subrange(j + 2 as int, k as int);
        if text == "php"@ {
            (TokenView::StartTag, k)
        } else {
            (TokenView::Illegal("False symbols after <?"@), k)
        }
    } else {
        (TokenView::LT, (j + 1) as nat)
    }
}

/// Scanning after a `$` at position `j`: a variable name must not start with
/// a digit; otherwise it is the maximal run of letters, digits and
/// underscores after the `$` (possibly empty).
pub open spec fn scan_var(s: Seq<char>, j: nat) -> (TokenView, nat) {
    if j + 1 < s.len() && is_digit_char(s[j + 1 as int]) {
        (TokenView::Illegal("First symbol of var can't be digit"@), (j + 1) as nat)
    } else {
        let k = var_chars_end(s, (j + 1) as nat);
        (TokenView::Var(ValueView::Is(s.subrange(j + 1 as int, k as int))), k)
    }
}

/// One step of the scanner: the token found at cursor position `i` of input
/// `s`, and the cursor position after it. Whitespace before the token is
/// skipped; at or past the end of the input the token is `Eof` and the
/// cursor rests at `s.len()`.
pub open spec fn scan_token(s: Seq<char>, i: nat) -> (TokenView, nat) {
    let j = whitespace_end(s, i);
    if j >= s.len() {
        (TokenView::Eof, s.len())
    } else {
        let c = s[j as int];
        if c == '=' {
            (TokenView::Assign, (j + 1) as nat)
        } else if c == '+' {
            (TokenView::Plus, (j + 1) as nat)
        } else if c == ',' {
            (TokenView::Comma, (j + 1) as nat)
        } else if c == ';' {
            (TokenView::Semicolon, (j + 1) as nat)
        } else if c == '(' {
            (TokenView::Lparen, (j + 1) as nat)
        } else if c == ')' {
            (TokenView::Rparen, (j + 1) as nat)
        } else if c == '{' {
            (TokenView::Lbrace, (j + 1) as nat)
        } else if c == '}' {
            (TokenView::Rbrace, (j + 1) as nat)
        } else if c == '<' {
            scan_lt(s, j)
        } else if c == '$' {
            scan_var(s, j)
        } else if is_letter_char(c) {
            let k = letters_end(s, j);
            (keyword_token(s.subrange(j as int, k as int)), k)
        } else if is_digit_char(c) {
            let k = digits_end(s, j);
            (TokenView::Int(ValueView::Is(s.subrange(j as int, k as int))), k)
        } else {
            (TokenView::Illegal("Unexpected character"@), (j + 1) as nat)
        }
    }
}

/// Every token is scanned with progress: a token other than `Eof` moves the
/// cursor strictly forward and never past the end of the input, and `Eof`
/// leaves the cursor exactly at the end. Hence the end-of-input token is
/// reached after at most `s.len()` tokens.
pub proof fn lemma_scan_token_progress(s: Seq<char>, i: nat)
    requires
        i <= s.len(),
    ensures
        ({
            let (t, j) = scan_token(s, i);
            &&& j <= s.len()
            &&& (!(t is Eof) ==> i < j)
            &&& (t is Eof ==> j == s.len())
        }),
{
    lemma_whitespace_end_bounds(s, i);
    let j = whitespace_end(s, i);
    if j < s.len() {
        let c = s[j as int];
        lemma_letters_end_bounds(s, j);
        lemma_digits_end_bounds(s, j);
        lemma_letters_end_bounds(s, (j + 1) as nat);
        lemma_digits_end_bounds(s, (j + 1) as nat);
        lemma_letters_end_bounds(s, (j + 2) as nat);
        lemma_var_chars_end_bounds(s, (j + 1) as nat);
        if c == '<' && j + 1 < s.len() && s[j + 1 as int] == '?' {
            assert(letters_end(s, (j + 2) as nat) >= j + 2);
        }
        if c == '$' {
            assert(var_chars_end(s, (j + 1) as nat) >= j + 1);
        }
        if is_letter_char(c) {
            assert(letters_end(s, j) >= j + 1);
        }
        if is_digit_char(c) {
            assert(digits_end(s, j) >= j + 1);
        }
    }
}

/// Once the cursor rests at the end of the input, scanning returns the
/// end-of-input token forever, without moving the cursor: the tail of the
/// token stream is idempotent.
pub proof fn lemma_scan_token_eof_stable(s: Seq<char>, i: nat)
    requires
        i >= s.len(),
    ensures
        scan_token(s, i) == (TokenView::Eof, s.len() as nat),
{
    lemma_whitespace_end_bounds(s, i);
}

/// The whole token stream of `s` from cursor position `i`: every token
/// before end-of-input, in order.
pub open spec fn token_list(s: Seq<char>, i: nat) -> Seq<TokenView>
    decreases s.len() - i,
    when i <= s.len()
    via token_list_decreases
{
    let (t, j) = scan_token(s, i);
    if t is Eof {
        Seq::empty()
    } else {
        seq![t] + token_list(s, j)
    }
}

#[via_fn]
proof fn token_list_decreases(s: Seq<char>, i: nat) {
    lemma_scan_token_progress(s, i);
}

/// The end-of-input token is reached in a bounded number of scanning steps:
/// the token stream holds at most one token per remaining input character.
pub proof fn lemma_token_list_bounded(s: Seq<char>, i: nat)
    requires
        i <= s.len(),
    ensures
        token_list(s, i).len() <= s.len() - i,
    decreases s.len() - i,
{
    lemma_scan_token_progress(s, i);
    let (t, j) = scan_token(s, i);
    if !(t is Eof) {
        lemma_token_list_bounded(s, j);
    }
}

fn is_whitespace_exec(c: char) -> (r: bool)
    ensures
        r == is_whitespace_char(c),
{
    c == ' ' || c == '\t' || c == '\n' || c == '\r'
}

fn is_digit_exec(c: char) -> (r: bool)
    ensures
        r == is_digit_char(c),
{
    ('0' as u32) <= (c as u32) && (c as u32) <= ('9' as u32)
}

fn is_letter_exec(c: char) -> (r: bool)
    ensures
        r == is_letter_char(c),
{
    (('a' as u32) <= (c as u32) && (c as u32) <= ('z' as u32)) || (('A' as u32) <= (c as u32)
        && (c as u32) <= ('Z' as u32)) || c == '_'
}

fn is_var_char_exec(c: char) -> (r: bool)
    ensures
        r == is_var_char(c),
{
    is_letter_exec(c) || is_digit_exec(c)
}

/// Relies on `String::push`: appends the given character to the string.
#[verifier::external_body]
fn push_char(s: &mut String, c: char)
    ensures
        final(s)@ == old(s)@.push(c),
{
    s.push(c);
}

/// The lexical scanner over one input buffer. Its abstract state is the
/// input as a character sequence together with the cursor position, exposed
/// as the view `(text, position)`.
pub struct Lexer {
    input: Vec<char>,
    position: usize,
    read_position: usize,
    ch: Option<char>,
}

impl View for Lexer {
    type V = (Seq<char>, nat);

    closed spec fn view(&self) -> (Seq<char>, nat) {
        (self.input@, self.position as nat)
    }
}

impl Lexer {
    /// The cursor invariant: the cursor never passes the end of the input,
    /// the next-read position is one past it (saturating at the end), and
    /// the cached character is the one under the cursor, or the "no
    /// character" sentinel past the end.
    pub closed spec fn wf(&self) -> bool {
        &&& self.position <= self.input@.len()
        &&& self.read_position == if (self.position as int) < self.input@.len() {
            self.position + 1
        } else {
            self.input@.len() as int
        }
        &&& self.ch == if (self.position as int) < self.input@.len() {
            Some(self.input@[self.position as int])
        } else {
            None::<char>
        }
    }

    /// A well-formed scanner's cursor sits within its input.
    pub proof fn lemma_wf_position(&self)
        requires
            self.wf(),
        ensures
            self@.1 <= self@.0.len(),
    {
    }

    /// Builds a scanner over the given input, with the cursor at the start.
    pub fn new(input: String) -> (l: Lexer)
        ensures
            l.wf(),
            l@.0 == input@,
            l@.1 == 0,
    {
        let n = input.as_str().unicode_len();
        let mut buf: Vec<char> = Vec::new();
        let mut k: usize = 0;
        while k < n
            invariant
                n == input@.len(),
                k <= n,
                buf@ == input@.subrange(0, k as int),
            decreases n - k,
        {
            buf.push(input.as_str().get_char(k));
            k = k + 1;
            proof {
                assert(buf@ =~= input@.subrange(0, k as int));
            }
        }
        proof {
            assert(buf@ =~= input@);
        }
        let mut l = Lexer { input: buf, position: 0, read_position: 0, ch: None };
        l.read_char();
        l
    }

    /// Advances the cursor by one character, saturating at the end of the
    /// input, and refreshes the cached character.
    fn read_char(&mut self)
        requires
            old(self).read_position <= old(self).input@.len(),
        ensures
            final(self).input == old(self).input,
            final(self).position == old(self).read_position,
            final(self).wf(),
    {
        if self.read_position >= self.input.len() {
            self.ch = None;
            self.position = self.input.len();
            self.read_position = self.input.len();
        } else {
            self.ch = Some(self.input[self.read_position]);
            self.position = self.read_position;
            self.read_position = self.read_position + 1;
        }
    }

    /// The character after the one under the cursor, if any.
    fn peek(&self) -> (r: Option<char>)
        requires
            self.wf(),
        ensures
            r == if self.position + 1 < self.input@.len() && self.position
                < self.input@.len() {
                Some(self.input@[self.position + 1 as int])
            } else {
                None::<char>
            },
    {
        if self.read_position >= self.input.len() {
            None
        } else {
            Some(self.input[self.read_position])
        }
    }

    /// Whether the cached character is whitespace.
    fn has_whitespace_char(&self) -> (r: bool)
        ensures
            r == match self.ch {
                Some(c) => is_whitespace_char(c),
                None => false,
            },
    {
        match self.ch {
            Some(c) => is_whitespace_exec(c),
            None => false,
        }
    }

    /// Whether the cached character may appear in an identifier.
    fn has_letter_char(&self) -> (r: bool)
        ensures
            r == match self.ch {
                Some(c) => is_letter_char(c),
                None => false,
            },
    {
        match self.ch {
            Some(c) => is_letter_exec(c),
            None => false,
        }
    }

    /// Whether the cached character is a digit.
    fn has_digit_char(&self) -> (r: bool)
        ensures
            r == match self.ch {
                Some(c) => is_digit_char(c),
                None => false,
            },
    {
        match self.ch {
            Some(c) => is_digit_exec(c),
            None => false,
        }
    }

    /// Whether the cached character may appear in a variable name.
    fn has_var_char(&self) -> (r: bool)
        ensures
            r == match self.ch {
                Some(c) => is_var_char(c),
                None => false,
            },
    {
        match self.ch {
            Some(c) => is_var_char_exec(c),
            None => false,
        }
    }

    /// Moves the cursor to the first non-whitespace character at or after
    /// the current position.
    fn skip_whitespaces(&mut self)
        requires
            old(self).wf(),
        ensures
            final(self).wf(),
            final(self).input == old(self).input,
            final(self).position == whitespace_end(old(self).input@, old(self).position as nat),
    {
        while self.has_whitespace_char()
            invariant
                self.wf(),
                self.input == old(self).input,
                whitespace_end(self.input@, self.position as nat) == whitespace_end(
                    old(self).input@,
                    old(self).position as nat,
                ),
            decreases self.input@.len() - self.position,
        {
            proof {
                assert(whitespace_end(self.input@, self.position as nat) == whitespace_end(
                    self.input@,
                    (self.position + 1) as nat,
                ));
            }
            self.read_char();
        }
    }

    /// Reads the maximal run of identifier characters under the cursor and
    /// returns it as a string, leaving the cursor on the first character
    /// after the run.
    fn read_identifier(&mut self) -> (r: String)
        requires
            old(self).wf(),
        ensures
            final(self).wf(),
            final(self).input == old(self).input,
            final(self).position == letters_end(old(self).input@, old(self).position as nat),
            r@ == old(self).input@.subrange(old(self).position as int, final(self).position as int),
    {
        let mut out = String::new();
        while self.has_letter_char()
            invariant
                self.wf(),
                self.input == old(self).input,
                old(self).position <= self.position,
                letters_end(self.input@, self.position as nat) == letters_end(
                    old(self).input@,
                    old(self).position as nat,
                ),
                out@ == self.input@.subrange(old(self).position as int, self.position as int),
            decreases self.input@.len() - self.position,
        {
            proof {
                assert(letters_end(self.input@, self.position as nat) == letters_end(
                    self.input@,
                    (self.position + 1) as nat,
                ));
            }
            let c = self.ch.unwrap();
            push_char(&mut out, c);
            self.read_char();
            proof {
                assert(out@ =~= self.input@.subrange(
                    old(self).position as int,
                    self.position as int,
                ));
            }
        }
        out
    }

    /// Reads the maximal run of digits under the cursor and returns it as a
    /// string, leaving the cursor on the first character after the run.
    fn read_int(&mut self) -> (r: String)
        requires
            old(self).wf(),
        ensures
            final(self).wf(),
            final(self).input == old(self).input,
            final(self).position == digits_end(old(self).input@, old(self).position as nat),
            r@ == old(self).input@.subrange(old(self).position as int, final(self).position as int),
    {
        let mut out = String::new();
        while self.has_digit_char()
            invariant
                self.wf(),
                self.input == old(self).input,
                old(self).position <= self.position,
                digits_end(self.input@, self.position as nat) == digits_end(
                    old(self).input@,
                    old(self).position as nat,
                ),
                out@ == self.input@.subrange(old(self).position as int, self.position as int),
            decreases self.input@.len() - self.position,
        {
            proof {
                assert(digits_end(self.input@, self.position as nat) == digits_end(
                    self.input@,
                    (self.position + 1) as nat,
                ));
            }
            let c = self.ch.unwrap();
            push_char(&mut out, c);
            self.read_char();
            proof {
                assert(out@ =~= self.input@.subrange(
                    old(self).position as int,
                    self.position as int,
                ));
            }
        }
        out
    }

    /// Reads a variable name under the cursor: rejected if it starts with a
    /// digit, otherwise the maximal run of letters, digits and underscores.
    fn read_var_name(&mut self) -> (r: Result<String, String>)
        requires
            old(self).wf(),
        ensures
            final(self).wf(),
            final(self).input == old(self).input,
            match r {
                Ok(name) => {
                    &&& !(old(self).position < old(self).input@.len() && is_digit_char(
                        old(self).input@[old(self).position as int],
                    ))
                    &&& final(self).position == var_chars_end(
                        old(self).input@,
                        old(self).position as nat,
                    )
                    &&& name@ == old(self).input@.subrange(
                        old(self).position as int,
                        final(self).position as int,
                    )
                },
                Err(e) => {
                    &&& old(self).position < old(self).input@.len()
                    &&& is_digit_char(old(self).input@[old(self).position as int])
                    &&& *final(self) == *old(self)
                    &&& e@ == "First symbol of var can't be digit"@
                },
            },
    {
        if self.has_digit_char() {
            return Err(String::from_str("First symbol of var can't be digit"));
        }
        let mut out = String::new();
        while self.has_var_char()
            invariant
                self.wf(),
                self.input == old(self).input,
                old(self).position <= self.position,
                var_chars_end(self.input@, self.position as nat) == var_chars_end(
                    old(self).input@,
                    old(self).position as nat,
                ),
                out@ == self.input@.subrange(old(self).position as int, self.position as int),
            decreases self.input@.len() - self.position,
        {
            proof {
                assert(var_chars_end(self.input@, self.position as nat) == var_chars_end(
                    self.input@,
                    (self.position + 1) as nat,
                ));
            }
            let c = self.ch.unwrap();
            push_char(&mut out, c);
            self.read_char();
            proof {
                assert(out@ =~= self.input@.subrange(
                    old(self).position as int,
                    self.position as int,
                ));
            }
        }
        Ok(out)
    }

    /// Produces the next token and moves the cursor past it. Never fails:
    /// lexical rule violations are reported as `Illegal` tokens, and the
    /// result is always `Ok`.
    pub fn next_token(&mut self) -> (r: Result<Token, String>)
        requires
            old(self).wf(),
        ensures
            final(self).wf(),
            final(self)@.0 == old(self)@.0,
            ({
                let (t, j) = scan_token(old(self)@.0, old(self)@.1);
                r matches Ok(tok) && tok@ == t && final(self)@.1 == j
            }),
    {
        self.skip_whitespaces();
        match self.ch {
            None => {
                self.read_char();
                Ok(Token::Eof)
            },
            Some(c) => {
                if c == '=' {
                    self.read_char();
                    Ok(Token::Assign)
                } else if c == '+' {
                    self.read_char();
                    Ok(Token::Plus)
                } else if c == ',' {
                    self.read_char();
                    Ok(Token::Comma)
                } else if c == ';' {
                    self.read_char();
                    Ok(Token::Semicolon)
                } else if c == '(' {
                    self.read_char();
                    Ok(Token::Lparen)
                } else if c == ')' {
                    self.read_char();
                    Ok(Token::Rparen)
                } else if c == '{' {
                    self.read_char();
                    Ok(Token::Lbrace)
                } else if c == '}' {
                    self.read_char();
                    Ok(Token::Rbrace)
                } else if c == '<' {
                    let next_is_question = match self.peek() {
                        Some(p) => p == '?',
                        None => false,
                    };
                    if next_is_question {
                        self.read_char();
                        self.read_char();
                        let literal = self.read_identifier();
                        if literal.eq(&String::from_str("php")) {
                            Ok(Token::StartTag)
                        } else {
                            Ok(Token::Illegal(String::from_str("False symbols after <?")))
                        }
                    } else {
                        self.read_char();
                        Ok(Token::LT)
                    }
                } else if c == '$' {
                    self.read_char();
                    match self.read_var_name() {
                        Ok(name) => Ok(Token::Var(Value::Is(name))),
                        Err(e) => Ok(Token::Illegal(e)),
                    }
                } else if is_letter_exec(c) {
                    let literal = self.read_identifier();
                    Ok(lookup_keyword(literal))
                } else if is_digit_exec(c) {
                    Ok(Token::Int(Value::Is(self.read_int())))
                } else {
                    self.read_char();
                    Ok(Token::Illegal(String::from_str("Unexpected character")))
                }
            },
        }
    }
}

/// Matches identifier text against the keyword table.
fn lookup_keyword(literal: String) -> (t: Token)
    ensures
        t@ == keyword_token(literal@),
{
    if literal.eq(&String::from_str("function")) {
        Token::Function
    } else if literal.eq(&String::from_str("true")) {
        Token::True
    } else if literal.eq(&String::from_str("false")) {
        Token::False
    } else if literal.eq(&String::from_str("if")) {
        Token::If
    } else if literal.eq(&String::from_str("else")) {
        Token::Else
    } else if literal.eq(&String::from_str("return")) {
        Token::Return
    } else {
        Token::Ident(Value::Is(literal))
    }
}

} // verus!
