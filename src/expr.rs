//! Operator precedence and the conversion of an infix token span into
//! postfix order, with identifiers replaced by their stored values.
use vstd::prelude::*;
use crate::lexer::{Token, TokenKind, views};
use crate::symbols::{SymbolTable, ValueType};

verus! {

/// Why a run stopped.
#[derive(Clone, Debug, PartialEq, Eq)]
pub enum EvalError {
    /// `LET` was not followed by a name; holds the lexeme found instead
    /// (empty at the end of the input).
    ExpectedIdentifier(String),
    /// A name was not followed by `BE`; holds the lexeme found instead
    /// (empty at the end of the input).
    ExpectedAssign(String),
    /// A name was read before any `LET` gave it a value.
    UndefinedSymbol(String),
    /// A statement that needs a value or an expression had none.
    EmptyExpression,
    /// An expression's operators and operands do not make one tree.
    MalformedExpression,
}

/// One item of a postfix expression.
#[derive(Clone, Debug)]
pub enum Term {
    /// A value's text: a literal, or what a name stood for.
    Operand(String),
    Operator(TokenKind),
}

/// The abstract value of a [`Term`].
pub enum TermModel {
    Operand(Seq<char>),
    Operator(TokenKind),
}

impl View for Term {
    type V = TermModel;

    open spec fn view(&self) -> TermModel {
        match self {
            Term::Operand(s) => TermModel::Operand(s@),
            Term::Operator(k) => TermModel::Operator(*k),
        }
    }
}

pub open spec fn term_views(ts: Seq<Term>) -> Seq<TermModel> {
    ts.map_values(|t: Term| t@)
}

/// Binding strength, highest first: logical NOT; exponentiation;
/// `* / %`; `+ -`; comparisons; `AND OR`.
pub open spec fn precedence_of(k: TokenKind) -> u8 {
    match k {
        TokenKind::NotOperator => 5,
        TokenKind::ExpOperator => 4,
        TokenKind::MultOperator | TokenKind::DivOperator | TokenKind::ModOperator => 3,
        TokenKind::AddOperator | TokenKind::MinusOperator => 2,
        TokenKind::LessThan | TokenKind::LessThanEq | TokenKind::GreaterThan
        | TokenKind::GreaterThanEq | TokenKind::EqualsOperator
        | TokenKind::NotEqualsOperator => 1,
        _ => 0,
    }
}

/// The binding strength of an operator kind.
pub fn precedence(k: TokenKind) -> (r: u8)
    ensures
        r == precedence_of(k),
{
    match k {
        TokenKind::NotOperator => 5,
        TokenKind::ExpOperator => 4,
        TokenKind::MultOperator | TokenKind::DivOperator | TokenKind::ModOperator => 3,
        TokenKind::AddOperator | TokenKind::MinusOperator => 2,
        TokenKind::LessThan | TokenKind::LessThanEq | TokenKind::GreaterThan
        | TokenKind::GreaterThanEq | TokenKind::EqualsOperator
        | TokenKind::NotEqualsOperator => 1,
        _ => 0,
    }
}

/// Kinds that stand for a value as they are written.
pub open spec fn is_operand_kind(k: TokenKind) -> bool {
    k == TokenKind::Literal || k == TokenKind::TrueLiteral || k == TokenKind::FalseLiteral
}

/// Moves operators from the top of the stack to the output while they bind
/// at least as strongly as `p`, stopping at an opening parenthesis.
pub open spec fn pop_while(out: Seq<TermModel>, stack: Seq<TokenKind>, p: u8) -> (
    Seq<TermModel>,
    Seq<TokenKind>,
)
    decreases stack.len(),
{
    if stack.len() > 0 && stack.last() != TokenKind::LParen && precedence_of(stack.last()) >= p {
        pop_while(out.push(TermModel::Operator(stack.last())), stack.drop_last(), p)
    } else {
        (out, stack)
    }
}

/// Moves operators to the output up to the nearest opening parenthesis,
/// which is dropped.
pub open spec fn pop_to_paren(out: Seq<TermModel>, stack: Seq<TokenKind>) -> (
    Seq<TermModel>,
    Seq<TokenKind>,
)
    decreases stack.len(),
{
    if stack.len() == 0 {
        (out, stack)
    } else if stack.last() != TokenKind::LParen {
        pop_to_paren(out.push(TermModel::Operator(stack.last())), stack.drop_last())
    } else {
        (out, stack.drop_last())
    }
}

/// Moves every remaining operator to the output, top first.
pub open spec fn flush(out: Seq<TermModel>, stack: Seq<TokenKind>) -> Seq<TermModel>
    decreases stack.len(),
{
    if stack.len() == 0 {
        out
    } else {
        flush(out.push(TermModel::Operator(stack.last())), stack.drop_last())
    }
}

/// Shunting-yard over `ts[i..end]`, given the output and operator stack
/// built so far. With a table `m`, a name stands for its stored text and
/// `Err` holds the first name that `m` lacks; without one, names stay as
/// they are written.
pub open spec fn postfix_from(
    m: Option<Map<Seq<char>, (Seq<char>, ValueType)>>,
    ts: Seq<(TokenKind, Seq<char>)>,
    i: int,
    end: int,
    out: Seq<TermModel>,
    stack: Seq<TokenKind>,
) -> Result<Seq<TermModel>, Seq<char>>
    decreases end - i,
{
    if i >= end {
        Ok(flush(out, stack))
    } else {
        let k = ts[i].0;
        let lx = ts[i].1;
        if k == TokenKind::Identifier {
            match m {
                None => postfix_from(m, ts, i + 1, end, out.push(TermModel::Operand(lx)), stack),
                Some(table) => if table.contains_key(lx) {
                    postfix_from(m, ts, i + 1, end, out.push(TermModel::Operand(table[lx].0)), stack)
                } else {
                    Err(lx)
                },
            }
        } else if is_operand_kind(k) {
            postfix_from(m, ts, i + 1, end, out.push(TermModel::Operand(lx)), stack)
        } else if k == TokenKind::LParen {
            postfix_from(m, ts, i + 1, end, out, stack.push(k))
        } else if k == TokenKind::RParen {
            let (o, s) = pop_to_paren(out, stack);
            postfix_from(m, ts, i + 1, end, o, s)
        } else {
            let (o, s) = pop_while(out, stack, precedence_of(k));
            postfix_from(m, ts, i + 1, end, o, s.push(k))
        }
    }
}

/// The postfix form of `ts[from..end]` against the symbols `m`.
pub open spec fn postfix(
    m: Map<Seq<char>, (Seq<char>, ValueType)>,
    ts: Seq<(TokenKind, Seq<char>)>,
    from: int,
    end: int,
) -> Result<Seq<TermModel>, Seq<char>> {
    postfix_from(Some(m), ts, from, end, seq![], seq![])
}

/// The postfix form of `ts[from..end]` with names left as written.
pub open spec fn postfix_unresolved(ts: Seq<(TokenKind, Seq<char>)>, from: int, end: int) -> Seq<
    TermModel,
> {
    postfix_from(None, ts, from, end, seq![], seq![])->Ok_0
}

/// Without a table the conversion cannot fail.
pub proof fn lemma_unresolved_ok(
    ts: Seq<(TokenKind, Seq<char>)>,
    i: int,
    end: int,
    out: Seq<TermModel>,
    stack: Seq<TokenKind>,
)
    ensures
        postfix_from(None, ts, i, end, out, stack) is Ok,
    decreases end - i,
{
    if i < end {
        let k = ts[i].0;
        if k == TokenKind::Identifier || is_operand_kind(k) {
            lemma_unresolved_ok(ts, i + 1, end, out.push(TermModel::Operand(ts[i].1)), stack);
        } else if k == TokenKind::LParen {
            lemma_unresolved_ok(ts, i + 1, end, out, stack.push(k));
        } else if k == TokenKind::RParen {
            let (o, s) = pop_to_paren(out, stack);
            lemma_unresolved_ok(ts, i + 1, end, o, s);
        } else {
            let (o, s) = pop_while(out, stack, precedence_of(k));
            lemma_unresolved_ok(ts, i + 1, end, o, s.push(k));
        }
    }
}

/// What a call of [`infix_to_postfix`] returns, given the spec result.
pub open spec fn postfix_result_matches(
    r: Result<Vec<Term>, EvalError>,
    spec_r: Result<Seq<TermModel>, Seq<char>>,
) -> bool {
    match spec_r {
        Ok(p) => r is Ok && term_views(r->Ok_0@) == p,
        Err(name) => r is Err && r->Err_0 is UndefinedSymbol && r->Err_0->UndefinedSymbol_0@
            == name,
    }
}

fn push_operator(out: &mut Vec<Term>, k: TokenKind)
    ensures
        term_views(final(out)@) == term_views(old(out)@).push(TermModel::Operator(k)),
{
    out.push(Term::Operator(k));
    assert(term_views(out@) =~= term_views(old(out)@).push(TermModel::Operator(k)));
}

fn pop_to_open_paren(out: &mut Vec<Term>, stack: &mut Vec<TokenKind>)
    ensures
        (term_views(final(out)@), final(stack)@) == pop_to_paren(term_views(old(out)@), old(stack)@),
{
    while stack.len() > 0 && stack[stack.len() - 1] != TokenKind::LParen
        invariant
            pop_to_paren(term_views(out@), stack@) == pop_to_paren(
                term_views(old(out)@),
                old(stack)@,
            ),
        decreases stack.len(),
    {
        let top = stack.pop().unwrap();
        push_operator(out, top);
    }
    if stack.len() > 0 {
        stack.pop();
    }
}

fn pop_binding(out: &mut Vec<Term>, stack: &mut Vec<TokenKind>, p: u8)
    ensures
        (term_views(final(out)@), final(stack)@) == pop_while(term_views(old(out)@), old(stack)@, p),
{
    while stack.len() > 0 && stack[stack.len() - 1] != TokenKind::LParen && precedence(
        stack[stack.len() - 1],
    ) >= p
        invariant
            pop_while(term_views(out@), stack@, p) == pop_while(
                term_views(old(out)@),
                old(stack)@,
                p,
            ),
        decreases stack.len(),
    {
        let top = stack.pop().unwrap();
        push_operator(out, top);
    }
}

fn flush_operators(out: &mut Vec<Term>, stack: &mut Vec<TokenKind>)
    ensures
        term_views(final(out)@) == flush(term_views(old(out)@), old(stack)@),
{
    while stack.len() > 0
        invariant
            flush(term_views(out@), stack@) == flush(term_views(old(out)@), old(stack)@),
        decreases stack.len(),
    {
        let top = stack.pop().unwrap();
        push_operator(out, top);
    }
}

/// Converts the infix span `tokens[from..end]` to postfix order
/// (shunting-yard, left-associative for equal precedence). Each identifier
/// is replaced by the text of its stored value; the first one that the table
/// lacks gives `UndefinedSymbol`. The table is only read.
pub fn infix_to_postfix(table: &SymbolTable, tokens: &Vec<Token>, from: usize, end: usize) -> (r:
    Result<Vec<Term>, EvalError>)
    requires
        table.wf(),
        from <= end <= tokens.len(),
    ensures
        postfix_result_matches(r, postfix(table@, views(tokens@), from as int, end as int)),
{
    convert(Some(table), tokens, from, end)
}

pub open spec fn table_view(table: Option<&SymbolTable>) -> Option<
    Map<Seq<char>, (Seq<char>, ValueType)>,
> {
    match table {
        Some(t) => Some(t@),
        None => None,
    }
}

pub(crate) fn convert(table: Option<&SymbolTable>, tokens: &Vec<Token>, from: usize, end: usize) -> (r:
    Result<Vec<Term>, EvalError>)
    requires
        table matches Some(t) ==> t.wf(),
        from <= end <= tokens.len(),
    ensures
        postfix_result_matches(
            r,
            postfix_from(table_view(table), views(tokens@), from as int, end as int, seq![], seq![]),
        ),
{
    let ghost ts = views(tokens@);
    let ghost m = table_view(table);
    let ghost goal = postfix_from(m, ts, from as int, end as int, seq![], seq![]);
    let mut out: Vec<Term> = Vec::new();
    let mut stack: Vec<TokenKind> = Vec::new();
    let mut i = from;
    assert(term_views(out@) =~= seq![]);
    assert(stack@ =~= seq![]);
    while i < end
        invariant
            from <= i <= end <= tokens.len(),
            ts == views(tokens@),
            m == table_view(table),
            table matches Some(t) ==> t.wf(),
            goal == postfix_from(m, ts, from as int, end as int, seq![], seq![]),
            postfix_from(m, ts, i as int, end as int, term_views(out@), stack@) == goal,
        decreases end - i,
    {
        let tok = &tokens[i];
        assert(ts[i as int] == tok@);
        let k = tok.kind;
        if k == TokenKind::Identifier {
            match table {
                None => {
                    let ghost before = term_views(out@);
                    out.push(Term::Operand(tok.lexeme.clone()));
                    assert(term_views(out@) =~= before.push(TermModel::Operand(tok.lexeme@)));
                },
                Some(tb) => match tb.get(tok.lexeme.as_str()) {
                    Some(sym) => {
                        let ghost before = term_views(out@);
                        out.push(Term::Operand(sym.value.clone()));
                        assert(term_views(out@) =~= before.push(
                            TermModel::Operand(tb@[tok.lexeme@].0),
                        ));
                    },
                    None => {
                        return Err(EvalError::UndefinedSymbol(tok.lexeme.clone()));
                    },
                },
            }
        } else if k == TokenKind::Literal || k == TokenKind::TrueLiteral || k
            == TokenKind::FalseLiteral {
            let ghost before = term_views(out@);
            out.push(Term::Operand(tok.lexeme.clone()));
            assert(term_views(out@) =~= before.push(TermModel::Operand(tok.lexeme@)));
        } else if k == TokenKind::LParen {
            stack.push(k);
        } else if k == TokenKind::RParen {
            pop_to_open_paren(&mut out, &mut stack);
        } else {
            pop_binding(&mut out, &mut stack, precedence(k));
            stack.push(k);
        }
        i = i + 1;
    }
    flush_operators(&mut out, &mut stack);
    Ok(out)
}

} // verus!
