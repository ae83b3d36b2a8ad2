//! Statement parser: drives the tokenizer with one token of lookahead,
//! recognizes statement-level grammar productions, and accumulates
//! non-fatal parse errors instead of aborting.

use crate::ast::{
    statements_view,
    Program,
    ReturnStatement,
    ReturnStatementView,
    Statement,
    StatementView,
    VarStatement,
    VarStatementView,
};
use crate::lexer::{
    scan_token,
    token_display,
    value_view_text,
    Lexer,
    Token,
    TokenView,
    Value,
};
use vstd::prelude::*;
use vstd::string::StringExecFns;

verus! {

/// Operator precedence levels, lowest binding strength first.
pub enum Symbol {
    Lowest,
    Equals,
    Lessgreater,
    Sum,
    Product,
    Prefix,
    Call,
    Index,
}

/// The parser's abstract state: the current token, the one-token lookahead,
/// and the scanner's cursor position in the input text.
pub struct ParserState {
    pub cur: TokenView,
    pub peek: TokenView,
    pub pos: nat,
}

/// One guarded advance: the lookahead becomes current and the scanner
/// produces a fresh lookahead.
pub open spec fn advance_state(s: Seq<char>, st: ParserState) -> ParserState {
    let (t, j) = scan_token(s, st.pos);
    ParserState { cur: st.peek, peek: t, pos: j }
}

/// The parser state after construction: the first two tokens of the input
/// are drawn as current and lookahead.
pub open spec fn initial_state(s: Seq<char>, i: nat) -> ParserState {
    let (t1, j1) = scan_token(s, i);
    let (t2, j2) = scan_token(s, j1);
    ParserState { cur: t1, peek: t2, pos: j2 }
}

/// Upper bound on the tokens still to be consumed from state `st`; strictly
/// shrinks whenever the parser advances over a token other than `Eof`.
pub open spec fn state_measure(s: Seq<char>, st: ParserState) -> int {
    2 * (s.len() - st.pos) + (if st.cur is Eof {
        0int
    } else {
        1int
    }) + (if st.peek is Eof {
        0int
    } else {
        1int
    })
}

proof fn lemma_advance_measure(s: Seq<char>, st: ParserState)
    requires
        st.pos <= s.len(),
    ensures
        advance_state(s, st).pos <= s.len(),
        state_measure(s, advance_state(s, st)) <= state_measure(s, st),
        !(st.cur is Eof) ==> state_measure(s, advance_state(s, st)) < state_measure(s, st),
{
    crate::lexer::lemma_scan_token_progress(s, st.pos);
}

/// The text a token stands for in expression position, if the minimal
/// grammar accepts it there: integer literals and identifiers yield their
/// literal text, every other token is rejected.
pub open spec fn expr_text(t: TokenView) -> Option<Seq<char>> {
    match t {
        TokenView::Int(v) => Some(value_view_text(v)),
        TokenView::Ident(v) => Some(value_view_text(v)),
        _ => None,
    }
}

/// Diagnostic for a failed guarded advance, naming the expected and the
/// actual lookahead token by their display forms.
pub open spec fn expect_error_text(expected: TokenView, actual: TokenView) -> Seq<char> {
    "expected next token to be "@ + token_display(expected) + ", got "@ + token_display(actual)
        + " instead"@
}

/// Diagnostic for a token that cannot begin an expression.
pub open spec fn expr_error_text(t: TokenView) -> Seq<char> {
    "cannot parse expression starting with "@ + token_display(t)
}

/// Diagnostic recorded when a token cannot begin a statement: an `Illegal`
/// token contributes its own reason, any other token is named.
pub open spec fn statement_error_text(t: TokenView) -> Seq<char> {
    match t {
        TokenView::Illegal(reason) => reason,
        _ => "unexpected token "@ + token_display(t),
    }
}

/// Parsing a var statement `$<name> = <expr> ;` whose variable token held
/// `name`, from state `st`: the lookahead must be the assignment token, the
/// value expression follows it, and a trailing semicolon is consumed if
/// present. Yields the state after the statement, the statement if one was
/// recognized, and the diagnostics recorded.
pub open spec fn spec_parse_var_statement(s: Seq<char>, st: ParserState, name: Seq<char>) -> (
    ParserState,
    Option<StatementView>,
    Seq<Seq<char>>,
) {
    if st.peek == TokenView::Assign {
        let st1 = advance_state(s, st);
        let st2 = advance_state(s, st1);
        match expr_text(st2.cur) {
            Some(value) => {
                let st3 = if st2.peek == TokenView::Semicolon {
                    advance_state(s, st2)
                } else {
                    st2
                };
                (st3, Some(StatementView::Var(VarStatementView { name, value })), Seq::empty())
            },
            None => (st2, None, seq![expr_error_text(st2.cur)]),
        }
    } else {
        (st, None, seq![expect_error_text(TokenView::Assign, st.peek)])
    }
}

/// Parsing a return statement `return <expr> ;` from state `st`: the value
/// expression follows the keyword, the parser advances once past it, and a
/// trailing semicolon is consumed if present.
pub open spec fn spec_parse_return_statement(s: Seq<char>, st: ParserState) -> (
    ParserState,
    Option<StatementView>,
    Seq<Seq<char>>,
) {
    let st1 = advance_state(s, st);
    match expr_text(st1.cur) {
        Some(value) => {
            let st2 = advance_state(s, st1);
            let st3 = if st2.peek == TokenView::Semicolon {
                advance_state(s, st2)
            } else {
                st2
            };
            (st3, Some(StatementView::Return(ReturnStatementView { value })), Seq::empty())
        },
        None => (st1, None, seq![expr_error_text(st1.cur)]),
    }
}

/// Statement dispatch on the current token: a variable token begins a var
/// statement, the `return` keyword begins a return statement, and any other
/// token is recorded as a diagnostic and skipped.
pub open spec fn spec_parse_statement(s: Seq<char>, st: ParserState) -> (
    ParserState,
    Option<StatementView>,
    Seq<Seq<char>>,
) {
    match st.cur {
        TokenView::Var(v) => spec_parse_var_statement(s, st, value_view_text(v)),
        TokenView::Return => spec_parse_return_statement(s, st),
        _ => (st, None, seq![statement_error_text(st.cur)]),
    }
}

proof fn lemma_parse_statement_step(s: Seq<char>, st: ParserState)
    requires
        st.pos <= s.len(),
        !(st.cur is Eof),
    ensures
        ({
            let (st1, stmt, errs) = spec_parse_statement(s, st);
            let st2 = advance_state(s, st1);
            &&& st2.pos <= s.len()
            &&& state_measure(s, st2) < state_measure(s, st)
        }),
{
    let (st1, stmt, errs) = spec_parse_statement(s, st);
    lemma_advance_measure(s, st);
    let sta = advance_state(s, st);
    lemma_advance_measure(s, sta);
    let stb = advance_state(s, sta);
    lemma_advance_measure(s, stb);
    let stc = advance_state(s, stb);
    lemma_advance_measure(s, stc);
    lemma_advance_measure(s, st1);
}

/// Parsing a whole program from state `st`: statements are recognized until
/// the current token is end-of-input, the parser advancing one token after
/// each statement, successful or not. Yields the recognized statements in
/// source order and the diagnostics in the order they were recorded.
pub open spec fn spec_parse_program(s: Seq<char>, st: ParserState) -> (
    Seq<StatementView>,
    Seq<Seq<char>>,
)
    decreases state_measure(s, st),
    when st.pos <= s.len()
    via spec_parse_program_decreases
{
    if st.cur is Eof {
        (Seq::empty(), Seq::empty())
    } else {
        let (st1, stmt, errs) = spec_parse_statement(s, st);
        let st2 = advance_state(s, st1);
        let (rest_stmts, rest_errs) = spec_parse_program(s, st2);
        (
            match stmt {
                Some(x) => seq![x] + rest_stmts,
                None => rest_stmts,
            },
            errs + rest_errs,
        )
    }
}

#[via_fn]
proof fn spec_parse_program_decreases(s: Seq<char>, st: ParserState) {
    if st.pos <= s.len() && !(st.cur is Eof) {
        lemma_parse_statement_step(s, st);
    }
}

/// Input missing the assignment token after a variable name is not
/// accepted silently and does not stop the parse: the very first diagnostic
/// names `Assign` as the expected token together with the actual lookahead,
/// so the error list of the parse is never empty.
pub proof fn lemma_missing_assign_reported(s: Seq<char>, st: ParserState)
    requires
        st.pos <= s.len(),
        st.cur matches TokenView::Var(_),
        st.peek != TokenView::Assign,
    ensures
        spec_parse_program(s, st).1.len() > 0,
        spec_parse_program(s, st).1[0] == expect_error_text(TokenView::Assign, st.peek),
{
    let (st1, stmt, errs) = spec_parse_statement(s, st);
    lemma_advance_measure(s, st1);
    assert(errs == seq![expect_error_text(TokenView::Assign, st.peek)]);
    assert(spec_parse_program(s, st).1 == errs + spec_parse_program(
        s,
        advance_state(s, st1),
    ).1);
}

/// The statement parser: owns its scanner and keeps the current token plus
/// one token of lookahead, accumulating diagnostics in `errors` instead of
/// aborting.
pub struct Parser {
    lexer: Lexer,
    current_token: Token,
    peek_token: Token,
    /// The diagnostics recorded so far, in the order they were produced.
    pub errors: Vec<String>,
}

impl Parser {
    /// The input text being parsed.
    pub closed spec fn text(&self) -> Seq<char> {
        self.lexer@.0
    }

    /// The parser's abstract state: current token, lookahead, and the
    /// scanner's cursor position.
    pub closed spec fn state(&self) -> ParserState {
        ParserState { cur: self.current_token@, peek: self.peek_token@, pos: self.lexer@.1 }
    }

    /// The recorded diagnostics, as character sequences.
    pub closed spec fn errors_view(&self) -> Seq<Seq<char>> {
        self.errors@.map(|i: int, e: String| e@)
    }

    /// Internal consistency: the scanner is well formed and its cursor sits
    /// within the text.
    pub closed spec fn wf(&self) -> bool {
        &&& self.lexer.wf()
        &&& self.lexer@.1 <= self.lexer@.0.len()
    }

    /// Builds a parser over the given scanner, drawing the first two tokens
    /// as current token and lookahead.
    pub fn new(lexer: Lexer) -> (p: Parser)
        requires
            lexer.wf(),
        ensures
            p.wf(),
            p.text() == lexer@.0,
            p.state() == initial_state(lexer@.0, lexer@.1),
            p.errors_view() == Seq::<Seq<char>>::empty(),
    {
        let mut lexer = lexer;
        proof {
            lexer.lemma_wf_position();
            crate::lexer::lemma_scan_token_progress(lexer@.0, lexer@.1);
        }
        let first = lexer.next_token().unwrap();
        proof {
            crate::lexer::lemma_scan_token_progress(lexer@.0, lexer@.1);
        }
        let second = lexer.next_token().unwrap();
        let p = Parser { lexer, current_token: first, peek_token: second, errors: Vec::new() };
        proof {
            assert(p.errors_view() =~= Seq::<Seq<char>>::empty());
        }
        p
    }

    /// Advances by one token: the lookahead becomes current and the scanner
    /// produces a fresh lookahead.
    fn next_token(&mut self)
        requires
            old(self).wf(),
        ensures
            final(self).wf(),
            final(self).text() == old(self).text(),
            final(self).errors == old(self).errors,
            final(self).state() == advance_state(old(self).text(), old(self).state()),
    {
        proof {
            crate::lexer::lemma_scan_token_progress(self.lexer@.0, self.lexer@.1);
        }
        self.current_token = self.peek_token.clone();
        self.peek_token = self.lexer.next_token().unwrap();
    }

    /// The guarded-advance primitive: if the lookahead equals the expected
    /// token, advance and succeed; otherwise fail with a diagnostic naming
    /// the expected and the actual token, without advancing.
    fn expect_peek(&mut self, token: Token) -> (r: Result<(), String>)
        requires
            old(self).wf(),
        ensures
            final(self).wf(),
            final(self).text() == old(self).text(),
            final(self).errors == old(self).errors,
            if old(self).state().peek == token@ {
                r is Ok && final(self).state() == advance_state(
                    old(self).text(),
                    old(self).state(),
                )
            } else {
                (r matches Err(e) && e@ == expect_error_text(token@, old(self).state().peek))
                    && final(self).state() == old(self).state()
            },
    {
        if self.peek_token == token {
            self.next_token();
            Ok(())
        } else {
            let mut msg = String::from_str("expected next token to be ");
            msg.append(token.display_text().as_str());
            msg.append(", got ");
            msg.append(self.peek_token.display_text().as_str());
            msg.append(" instead");
            proof {
                assert(msg@ =~= expect_error_text(token@, self.peek_token@));
            }
            Err(msg)
        }
    }

    /// The prefix phase of expression parsing, over the minimal grammar: an
    /// integer literal or identifier under the current token yields its
    /// literal text; any other token is rejected with a diagnostic. Does
    /// not advance.
    fn parse_expression(&mut self) -> (r: Result<String, String>)
        requires
            old(self).wf(),
        ensures
            *final(self) == *old(self),
            match expr_text(old(self).state().cur) {
                Some(t) => r matches Ok(v) && v@ == t,
                None => r matches Err(e) && e@ == expr_error_text(old(self).state().cur),
            },
    {
        match &self.current_token {
            Token::Int(v) => Ok(v.text()),
            Token::Ident(v) => Ok(v.text()),
            _ => {
                let mut msg = String::from_str("cannot parse expression starting with ");
                msg.append(self.current_token.display_text().as_str());
                proof {
                    assert(msg@ =~= expr_error_text(self.current_token@));
                }
                Err(msg)
            },
        }
    }

    /// Parses `$<name> = <expr> ;` given the variable token's payload,
    /// consuming a trailing semicolon if present.
    fn parse_var_statement(&mut self, var_name: Value) -> (r: Result<Statement, String>)
        requires
            old(self).wf(),
        ensures
            final(self).wf(),
            final(self).text() == old(self).text(),
            final(self).errors == old(self).errors,
            ({
                let (st1, stmt, errs) = spec_parse_var_statement(
                    old(self).text(),
                    old(self).state(),
                    value_view_text(var_name@),
                );
                &&& final(self).state() == st1
                &&& match r {
                    Ok(out) => stmt == Some(out@) && errs == Seq::<Seq<char>>::empty(),
                    Err(e) => stmt is None && errs == seq![e@],
                }
            }),
    {
        match self.expect_peek(Token::Assign) {
            Ok(_) => {},
            Err(e) => {
                return Err(e);
            },
        }
        self.next_token();
        let value = match self.parse_expression() {
            Ok(v) => v,
            Err(e) => {
                return Err(e);
            },
        };
        if self.peek_token == Token::Semicolon {
            self.next_token();
        }
        Ok(Statement::Var(VarStatement { name: var_name.text(), value }))
    }

    /// Parses `return <expr> ;`, advancing once past the value expression
    /// and consuming a trailing semicolon if present.
    fn parse_return_statement(&mut self) -> (r: Result<Statement, String>)
        requires
            old(self).wf(),
        ensures
            final(self).wf(),
            final(self).text() == old(self).text(),
            final(self).errors == old(self).errors,
            ({
                let (st1, stmt, errs) = spec_parse_return_statement(
                    old(self).text(),
                    old(self).state(),
                );
                &&& final(self).state() == st1
                &&& match r {
                    Ok(out) => stmt == Some(out@) && errs == Seq::<Seq<char>>::empty(),
                    Err(e) => stmt is None && errs == seq![e@],
                }
            }),
    {
        self.next_token();
        let value = match self.parse_expression() {
            Ok(v) => v,
            Err(e) => {
                return Err(e);
            },
        };
        self.next_token();
        if self.peek_token == Token::Semicolon {
            self.next_token();
        }
        Ok(Statement::Return(ReturnStatement { return_value: value }))
    }

    /// Statement dispatch on the current token: a variable token begins a
    /// var statement, `return` begins a return statement; an `Illegal`
    /// token fails with its own reason, and any other token fails with a
    /// diagnostic naming it.
    fn parse_statement(&mut self) -> (r: Result<Statement, String>)
        requires
            old(self).wf(),
        ensures
            final(self).wf(),
            final(self).text() == old(self).text(),
            final(self).errors == old(self).errors,
            ({
                let (st1, stmt, errs) = spec_parse_statement(old(self).text(), old(self).state());
                &&& final(self).state() == st1
                &&& match r {
                    Ok(out) => stmt == Some(out@) && errs == Seq::<Seq<char>>::empty(),
                    Err(e) => stmt is None && errs == seq![e@],
                }
            }),
    {
        let cur = self.current_token.clone();
        match cur {
            Token::Var(v) => self.parse_var_statement(v),
            Token::Return => self.parse_return_statement(),
            Token::Illegal(reason) => Err(reason),
            _ => {
                let mut msg = String::from_str("unexpected token ");
                msg.append(self.current_token.display_text().as_str());
                proof {
                    assert(msg@ =~= statement_error_text(self.current_token@));
                }
                Err(msg)
            },
        }
    }

    /// Consumes the whole remaining token stream: statements are recognized
    /// until end-of-input, one statement per iteration, with the parser
    /// advancing one token after each. A failed statement records its
    /// diagnostic in `errors` and parsing keeps going, so the parse always
    /// completes and returns every statement that was recognized.
    pub fn parse_program(&mut self) -> (r: Program)
        requires
            old(self).wf(),
        ensures
            final(self).wf(),
            final(self).text() == old(self).text(),
            ({
                let (stmts, errs) = spec_parse_program(old(self).text(), old(self).state());
                &&& r@ == stmts
                &&& final(self).errors_view() == old(self).errors_view() + errs
            }),
    {
        let mut statements: Vec<Statement> = Vec::new();
        let ghost s = self.text();
        let ghost st0 = self.state();
        let ghost base = self.errors_view();
        proof {
            assert(statements_view(statements@) =~= Seq::<StatementView>::empty());
            assert(self.errors_view().skip(base.len() as int) =~= Seq::<Seq<char>>::empty());
            assert(self.errors_view().take(base.len() as int) =~= base);
            assert(statements_view(statements@) + spec_parse_program(s, st0).0 =~= spec_parse_program(
                s,
                st0,
            ).0);
            assert(self.errors_view().skip(base.len() as int) + spec_parse_program(s, st0).1
                =~= spec_parse_program(s, st0).1);
        }
        loop
            invariant
                self.wf(),
                self.text() == s,
                base.len() <= self.errors_view().len(),
                self.errors_view().take(base.len() as int) == base,
                spec_parse_program(s, st0).0 == statements_view(statements@) + spec_parse_program(
                    s,
                    self.state(),
                ).0,
                spec_parse_program(s, st0).1 == self.errors_view().skip(base.len() as int)
                    + spec_parse_program(s, self.state()).1,
            ensures
                self.wf(),
                self.text() == s,
                base.len() <= self.errors_view().len(),
                self.errors_view().take(base.len() as int) == base,
                self.state().cur is Eof,
                spec_parse_program(s, st0).0 == statements_view(statements@) + spec_parse_program(
                    s,
                    self.state(),
                ).0,
                spec_parse_program(s, st0).1 == self.errors_view().skip(base.len() as int)
                    + spec_parse_program(s, self.state()).1,
            decreases state_measure(s, self.state()),
        {
            if self.current_token == Token::Eof {
                break ;
            }
            proof {
                lemma_parse_statement_step(s, self.state());
            }
            let ghost st_iter = self.state();
            let ghost sv_before = statements_view(statements@);
            let ghost done_before = self.errors_view().skip(base.len() as int);
            match self.parse_statement() {
                Ok(statement) => {
                    proof {
                        let (st1, stmt, errs1) = spec_parse_statement(s, st_iter);
                        assert(statements_view(statements@.push(statement)) =~= sv_before.push(
                            statement@,
                        ));
                        assert(errs1 + spec_parse_program(s, advance_state(s, st1)).1
                            =~= spec_parse_program(s, advance_state(s, st1)).1);
                    }
                    statements.push(statement);
                },
                Err(e) => {
                    proof {
                        let (st1, stmt, errs1) = spec_parse_statement(s, st_iter);
                        let pushed = self.errors@.push(e);
                        assert(pushed.map(|i: int, x: String| x@) =~= self.errors_view().push(e@));
                        assert(self.errors_view().push(e@).take(base.len() as int) =~= base);
                        assert(self.errors_view().push(e@).skip(base.len() as int)
                            =~= done_before.push(e@));
                    }
                    self.errors.push(e);
                },
            }
            self.next_token();
            proof {
                let (st1, stmt, errs1) = spec_parse_statement(s, st_iter);
                let st2 = advance_state(s, st1);
                let (rest_stmts, rest_errs) = spec_parse_program(s, st2);
                match stmt {
                    Some(x) => {
                        assert(sv_before + (seq![x] + rest_stmts) =~= sv_before.push(x)
                            + rest_stmts);
                        assert(done_before + (errs1 + rest_errs) =~= done_before + rest_errs);
                    },
                    None => {
                        assert(sv_before + rest_stmts =~= statements_view(statements@)
                            + rest_stmts);
                        assert(done_before + (errs1 + rest_errs) =~= self.errors_view().skip(
                            base.len() as int,
                        ) + rest_errs);
                    },
                }
            }
        }
        proof {
            let (stmts, errs) = spec_parse_program(s, st0);
            assert(spec_parse_program(s, self.state()).0 =~= Seq::<StatementView>::empty());
            assert(spec_parse_program(s, self.state()).1 =~= Seq::<Seq<char>>::empty());
            assert(stmts =~= statements_view(statements@));
            assert(errs =~= self.errors_view().skip(base.len() as int));
            assert(self.errors_view() =~= base + errs);
        }
        Program { statements }
    }
}

} // verus!
