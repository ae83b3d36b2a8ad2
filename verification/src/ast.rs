//! The abstract syntax tree: a program is an ordered sequence of statements,
//! and every node can be rendered back to canonical source text.

use vstd::prelude::*;
use vstd::string::StringExecFns;

verus! {

/// Spec-level image of a var statement: its name and value texts.
pub struct VarStatementView {
    pub name: Seq<char>,
    pub value: Seq<char>,
}

/// Spec-level image of a return statement: its value text.
pub struct ReturnStatementView {
    pub value: Seq<char>,
}

/// Spec-level image of a statement.
pub enum StatementView {
    Var(VarStatementView),
    Return(ReturnStatementView),
}

/// A statement binding a variable name to a value; rendered `$<name> = <value>;`.
pub struct VarStatement {
    pub name: String,
    pub value: String,
}

impl View for VarStatement {
    type V = VarStatementView;

    open spec fn view(&self) -> VarStatementView {
        VarStatementView { name: self.name@, value: self.value@ }
    }
}

/// A statement returning a value; rendered `return <value>;`.
pub struct ReturnStatement {
    pub return_value: String,
}

impl View for ReturnStatement {
    type V = ReturnStatementView;

    open spec fn view(&self) -> ReturnStatementView {
        ReturnStatementView { value: self.return_value@ }
    }
}

/// One statement of the language.
pub enum Statement {
    Var(VarStatement),
    Return(ReturnStatement),
}

impl View for Statement {
    type V = StatementView;

    open spec fn view(&self) -> StatementView {
        match self {
            Statement::Var(v) => StatementView::Var(v@),
            Statement::Return(r) => StatementView::Return(r@),
        }
    }
}

/// An ordered sequence of statements; the root of every parse. Statement
/// order equals source order.
pub struct Program {
    pub statements: Vec<Statement>,
}

/// The views of a sequence of statements, in order.
pub open spec fn statements_view(v: Seq<Statement>) -> Seq<StatementView> {
    v.map(|i: int, s: Statement| s@)
}

impl View for Program {
    type V = Seq<StatementView>;

    open spec fn view(&self) -> Seq<StatementView> {
        statements_view(self.statements@)
    }
}

/// Canonical rendering of a var statement: `$<name> = <value>;`.
pub open spec fn render_var_statement(v: VarStatementView) -> Seq<char> {
    "$"@ + v.name + " = "@ + v.value + ";"@
}

/// Canonical rendering of a return statement: `return <value>;`.
pub open spec fn render_return_statement(r: ReturnStatementView) -> Seq<char> {
    "return "@ + r.value + ";"@
}

/// Canonical rendering of a statement.
pub open spec fn render_statement(s: StatementView) -> Seq<char> {
    match s {
        StatementView::Var(v) => render_var_statement(v),
        StatementView::Return(r) => render_return_statement(r),
    }
}

/// Canonical rendering of a program: each statement's rendering,
/// concatenated in source order with no separator between statements.
pub open spec fn render_program(stmts: Seq<StatementView>) -> Seq<char>
    decreases stmts.len(),
{
    if stmts.len() == 0 {
        Seq::empty()
    } else {
        render_statement(stmts[0]) + render_program(stmts.drop_first())
    }
}

/// Rendering a program extended by one statement appends exactly that
/// statement's rendering: program rendering concatenates the statements'
/// renderings in order, with nothing between them beyond what each
/// statement's own text provides.
pub proof fn lemma_render_program_push(stmts: Seq<StatementView>, s: StatementView)
    ensures
        render_program(stmts.push(s)) == render_program(stmts) + render_statement(s),
    decreases stmts.len(),
{
    if stmts.len() == 0 {
        assert(stmts.push(s).drop_first() =~= Seq::<StatementView>::empty());
        assert(stmts.push(s)[0] == s);
        assert(render_program(Seq::<StatementView>::empty()) == Seq::<char>::empty());
        assert(render_statement(s) + Seq::<char>::empty() =~= render_statement(s));
        assert(render_program(stmts) + render_statement(s) =~= render_statement(s));
        assert(render_program(stmts.push(s)) == render_statement(s) + render_program(
            stmts.push(s).drop_first(),
        ));
        assert(render_program(stmts.push(s)) =~= render_program(stmts) + render_statement(s));
    } else {
        assert(stmts.push(s).drop_first() =~= stmts.drop_first().push(s));
        lemma_render_program_push(stmts.drop_first(), s);
        assert(render_program(stmts.push(s)) =~= render_program(stmts) + render_statement(s));
    }
}

/// Uniform rendering of any AST node back to readable source text.
pub trait Node {
    /// What the node renders to, as a character sequence.
    spec fn render(&self) -> Seq<char>;

    /// Renders the node to its canonical textual reconstruction.
    fn string(&self) -> (r: String)
        ensures
            r@ == self.render(),
    ;
}

/// Marker for nodes that stand at statement level.
pub trait StatementNode: Node {

}

impl Node for VarStatement {
    open spec fn render(&self) -> Seq<char> {
        render_var_statement(self@)
    }

    fn string(&self) -> (r: String) {
        let mut out = String::from_str("$");
        out.append(self.name.as_str());
        out.append(" = ");
        out.append(self.value.as_str());
        out.append(";");
        proof {
            assert(out@ =~= self.render());
        }
        out
    }
}

impl StatementNode for VarStatement {

}

impl Node for ReturnStatement {
    open spec fn render(&self) -> Seq<char> {
        render_return_statement(self@)
    }

    fn string(&self) -> (r: String) {
        let mut out = String::from_str("return ");
        out.append(self.return_value.as_str());
        out.append(";");
        proof {
            assert(out@ =~= self.render());
        }
        out
    }
}

impl StatementNode for ReturnStatement {

}

impl Statement {
    /// Renders the statement by dispatching to the node it wraps.
    pub fn string(&self) -> (r: String)
        ensures
            r@ == render_statement(self@),
    {
        match self {
            Statement::Var(v) => v.string(),
            Statement::Return(ret) => ret.string(),
        }
    }
}

impl Node for Program {
    open spec fn render(&self) -> Seq<char> {
        render_program(self@)
    }

    fn string(&self) -> (r: String) {
        let mut out = String::new();
        let mut i: usize = 0;
        while i < self.statements.len()
            invariant
                i <= self.statements.len(),
                out@ == render_program(self@.take(i as int)),
            decreases self.statements.len() - i,
        {
            let piece = self.statements[i].string();
            out.append(piece.as_str());
            proof {
                lemma_render_program_push(self@.take(i as int), self@[i as int]);
                assert(self@.take(i as int).push(self@[i as int]) =~= self@.take(i + 1 as int));
            }
            i = i + 1;
        }
        proof {
            assert(self@.take(self.statements@.len() as int) =~= self@);
        }
        out
    }
}

} // verus!
