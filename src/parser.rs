//! A syntax tree of a program's statements, built from its tokens without
//! running them.
use vstd::prelude::*;
use crate::lexer::{Token, TokenKind, kind_of, token_type, views};
use crate::expr::{
    EvalError, Term, TermModel, convert, postfix_unresolved, lemma_unresolved_ok, term_views,
};
use crate::interp::{ErrorModel, endpoint, expression_endpoint, lexeme_at};

verus! {

/// What a tree node stands for.
#[derive(Clone, Copy, Debug, PartialEq, Eq, Structural)]
pub enum Construct {
    Output,
    Scope,
    Operator,
    Variable,
    Literal,
    Branch,
    Assign,
}

/// A node of the syntax tree.
#[derive(Debug)]
pub struct Node {
    pub construct: Construct,
    pub value: Option<String>,
    pub children: Vec<Node>,
}

/// The abstract value of a tree node.
pub struct TreeModel {
    pub construct: Construct,
    pub value: Option<Seq<char>>,
    pub children: Seq<TreeModel>,
}

/// A statement as the tree records it, with its expression's tree.
pub enum StmtModel {
    Assign(Seq<char>, TreeModel),
    Output(Option<Seq<char>>),
    Branch(TreeModel),
}

/// How many operands an operator takes: one for `NOT`, two for the
/// arithmetic, comparison and logical operators, none for any other kind,
/// which cannot stand in an expression.
pub open spec fn arity(k: TokenKind) -> int {
    match k {
        TokenKind::NotOperator => 1,
        TokenKind::AddOperator | TokenKind::MinusOperator | TokenKind::MultOperator
        | TokenKind::DivOperator | TokenKind::ModOperator | TokenKind::ExpOperator
        | TokenKind::LessThan | TokenKind::LessThanEq | TokenKind::GreaterThan
        | TokenKind::GreaterThanEq | TokenKind::EqualsOperator | TokenKind::NotEqualsOperator
        | TokenKind::AndOperator | TokenKind::OrOperator => 2,
        _ => 0,
    }
}

fn operator_arity(k: TokenKind) -> (r: usize)
    ensures
        r as int == arity(k),
{
    match k {
        TokenKind::NotOperator => 1,
        TokenKind::AddOperator | TokenKind::MinusOperator | TokenKind::MultOperator
        | TokenKind::DivOperator | TokenKind::ModOperator | TokenKind::ExpOperator
        | TokenKind::LessThan | TokenKind::LessThanEq | TokenKind::GreaterThan
        | TokenKind::GreaterThanEq | TokenKind::EqualsOperator | TokenKind::NotEqualsOperator
        | TokenKind::AndOperator | TokenKind::OrOperator => 2,
        _ => 0,
    }
}

/// The text of an operator; each operator kind is read from exactly this
/// lexeme, so it is the text the token was written with.
pub open spec fn operator_text(k: TokenKind) -> Seq<char> {
    match k {
        TokenKind::AddOperator => "+"@,
        TokenKind::MinusOperator => "-"@,
        TokenKind::MultOperator => "*"@,
        TokenKind::DivOperator => "/"@,
        TokenKind::ModOperator => "%"@,
        TokenKind::ExpOperator => "^"@,
        TokenKind::LessThan => "<"@,
        TokenKind::LessThanEq => "<="@,
        TokenKind::GreaterThan => ">"@,
        TokenKind::GreaterThanEq => ">="@,
        TokenKind::AndOperator => "AND"@,
        TokenKind::OrOperator => "OR"@,
        TokenKind::NotOperator => "NOT"@,
        TokenKind::EqualsOperator => "EQUALS"@,
        TokenKind::NotEqualsOperator => "NOTEQUALS"@,
        _ => seq![],
    }
}

fn operator_string(k: TokenKind) -> (r: String)
    ensures
        r@ == operator_text(k),
{
    match k {
        TokenKind::AddOperator => String::from_str("+"),
        TokenKind::MinusOperator => String::from_str("-"),
        TokenKind::MultOperator => String::from_str("*"),
        TokenKind::DivOperator => String::from_str("/"),
        TokenKind::ModOperator => String::from_str("%"),
        TokenKind::ExpOperator => String::from_str("^"),
        TokenKind::LessThan => String::from_str("<"),
        TokenKind::LessThanEq => String::from_str("<="),
        TokenKind::GreaterThan => String::from_str(">"),
        TokenKind::GreaterThanEq => String::from_str(">="),
        TokenKind::AndOperator => String::from_str("AND"),
        TokenKind::OrOperator => String::from_str("OR"),
        TokenKind::NotOperator => String::from_str("NOT"),
        TokenKind::EqualsOperator => String::from_str("EQUALS"),
        TokenKind::NotEqualsOperator => String::from_str("NOTEQUALS"),
        _ => String::new(),
    }
}

/// An operand's text names a variable: it reads as an identifier and is
/// not a quoted string.
pub open spec fn names_variable(s: Seq<char>) -> bool {
    kind_of(s) == TokenKind::Identifier && !(s.len() > 0 && s[0] == '"')
}

pub open spec fn opt_view(v: Option<String>) -> Option<Seq<char>> {
    match v {
        Some(s) => Some(s@),
        None => None,
    }
}

/// The leaf of an operand: a variable or a literal holding its text.
pub open spec fn leaf_tree(s: Seq<char>) -> TreeModel {
    TreeModel {
        construct: if names_variable(s) {
            Construct::Variable
        } else {
            Construct::Literal
        },
        value: Some(s),
        children: seq![],
    }
}

/// Reads the postfix items `p[i..]` onto a stack of trees: an operand
/// pushes its leaf; an operator takes as many trees as its arity from the
/// top, in order, as its children. `None` when an operator lacks operands
/// or cannot stand in an expression.
pub open spec fn build_from(p: Seq<TermModel>, i: int, stack: Seq<TreeModel>) -> Option<
    Seq<TreeModel>,
>
    decreases p.len() - i,
{
    if i < 0 || i >= p.len() {
        Some(stack)
    } else {
        match p[i] {
            TermModel::Operand(s) => build_from(p, i + 1, stack.push(leaf_tree(s))),
            TermModel::Operator(k) => {
                let a = arity(k);
                if a == 0 || stack.len() < a {
                    None
                } else {
                    let n = stack.len() as int;
                    build_from(
                        p,
                        i + 1,
                        stack.subrange(0, n - a).push(
                            TreeModel {
                                construct: Construct::Operator,
                                value: Some(operator_text(k)),
                                children: stack.subrange(n - a, n),
                            },
                        ),
                    )
                }
            },
        }
    }
}

/// The tree of a postfix expression, if it makes exactly one.
pub open spec fn expression_tree(p: Seq<TermModel>) -> Option<TreeModel> {
    match build_from(p, 0, seq![]) {
        Some(s) => if s.len() == 1 {
            Some(s[0])
        } else {
            None
        },
        None => None,
    }
}

/// `n` has the shape and contents of `t`, all the way down.
pub open spec fn is_tree(n: Node, t: TreeModel) -> bool
    decreases t,
{
    &&& n.construct == t.construct
    &&& opt_view(n.value) == t.value
    &&& n.children@.len() == t.children.len()
    &&& forall|i: int|
        0 <= i < t.children.len() ==> #[trigger] is_tree(n.children@[i], t.children[i])
}

/// `n` is a leaf of construct `c` holding `v`.
pub open spec fn is_leaf(n: Node, c: Construct, v: Seq<char>) -> bool {
    n.construct == c && opt_view(n.value) == Some(v) && n.children@.len() == 0
}

/// `n` is the node of statement `s`.
pub open spec fn is_statement(n: Node, s: StmtModel) -> bool {
    n.value is None && match s {
        StmtModel::Assign(name, e) => n.construct == Construct::Assign && n.children@.len() == 2
            && is_leaf(n.children@[0], Construct::Variable, name) && is_tree(n.children@[1], e),
        StmtModel::Output(None) => n.construct == Construct::Output && n.children@.len() == 0,
        StmtModel::Output(Some(name)) => n.construct == Construct::Output && n.children@.len() == 1
            && is_leaf(n.children@[0], Construct::Variable, name),
        StmtModel::Branch(e) => n.construct == Construct::Branch && n.children@.len() == 1
            && is_tree(n.children@[0], e),
    }
}

/// The tree of the expression `ts[b..e]`, or the error it gives.
pub open spec fn span_tree(ts: Seq<(TokenKind, Seq<char>)>, b: int, e: int) -> Result<
    TreeModel,
    ErrorModel,
> {
    match expression_tree(postfix_unresolved(ts, b, e)) {
        Some(t) => Ok(t),
        None => Err(ErrorModel::MalformedExpression),
    }
}

/// The statements of `ts` from `pos` on: `LET name BE expr`, `PRINT`
/// (with the name it prints, if it prints one) and `IF expr`; other tokens
/// are passed over.
pub open spec fn parse_from(ts: Seq<(TokenKind, Seq<char>)>, pos: int) -> Result<
    Seq<StmtModel>,
    ErrorModel,
>
    decreases ts.len() + 1 - pos,
{
    if pos < 0 || pos >= ts.len() {
        Ok(seq![])
    } else {
        let k = ts[pos].0;
        if k == TokenKind::Initialize {
            if !(pos + 1 < ts.len() && ts[pos + 1].0 == TokenKind::Identifier) {
                Err(ErrorModel::ExpectedIdentifier(lexeme_at(ts, pos + 1)))
            } else if !(pos + 2 < ts.len() && ts[pos + 2].0 == TokenKind::Assign) {
                Err(ErrorModel::ExpectedAssign(lexeme_at(ts, pos + 2)))
            } else {
                let e = endpoint(ts, pos + 3);
                if !(pos + 3 < e <= ts.len()) {
                    Err(ErrorModel::EmptyExpression)
                } else {
                    match span_tree(ts, pos + 3, e) {
                        Err(err) => Err(err),
                        Ok(tree) => cons(StmtModel::Assign(ts[pos + 1].1, tree), parse_from(ts, e)),
                    }
                }
            }
        } else if k == TokenKind::Output {
            let s = if pos + 1 < ts.len() && ts[pos + 1].0 == TokenKind::Identifier {
                StmtModel::Output(Some(ts[pos + 1].1))
            } else {
                StmtModel::Output(None)
            };
            cons(s, parse_from(ts, pos + 2))
        } else if k == TokenKind::BeginIf {
            let e = endpoint(ts, pos + 1);
            if !(pos + 1 < e <= ts.len()) {
                Err(ErrorModel::EmptyExpression)
            } else {
                match span_tree(ts, pos + 1, e) {
                    Err(err) => Err(err),
                    Ok(tree) => cons(StmtModel::Branch(tree), parse_from(ts, e)),
                }
            }
        } else {
            parse_from(ts, pos + 1)
        }
    }
}

fn leaf(construct: Construct, value: String) -> (r: Node)
    ensures
        is_leaf(r, construct, value@),
{
    Node { construct, value: Some(value), children: Vec::new() }
}

fn operand_leaf(s: &String) -> (r: Node)
    ensures
        is_tree(r, leaf_tree(s@)),
{
    let k = token_type(s.as_str());
    let quoted = s.as_str().unicode_len() > 0 && s.as_str().get_char(0) == '"';
    if k == TokenKind::Identifier && !quoted {
        leaf(Construct::Variable, s.clone())
    } else {
        leaf(Construct::Literal, s.clone())
    }
}

/// The expression tree of the infix span `tokens[from..end]`, names left
/// as written: each operator node holds the operator's text and has its
/// operands as children (one for `NOT`, two otherwise), each operand a leaf
/// or a nested operator node. `None` when the span does not make exactly
/// one such tree.
pub fn infix_to_tree(tokens: &Vec<Token>, from: usize, end: usize) -> (r: Option<Node>)
    requires
        from <= end <= tokens.len(),
    ensures
        match expression_tree(postfix_unresolved(views(tokens@), from as int, end as int)) {
            Some(t) => r is Some && is_tree(r->Some_0, t),
            None => r is None,
        },
{
    proof {
        lemma_unresolved_ok(views(tokens@), from as int, end as int, seq![], seq![]);
    }
    let ghost p = postfix_unresolved(views(tokens@), from as int, end as int);
    let terms = match convert(None, tokens, from, end) {
        Ok(terms) => terms,
        Err(_) => Vec::new(),
    };
    assert(term_views(terms@) == p);
    let mut stack: Vec<Node> = Vec::new();
    let ghost mut gs: Seq<TreeModel> = seq![];
    let mut i: usize = 0;
    while i < terms.len()
        invariant
            i <= terms.len(),
            p == postfix_unresolved(views(tokens@), from as int, end as int),
            term_views(terms@) == p,
            stack@.len() == gs.len(),
            forall|j: int| 0 <= j < gs.len() ==> is_tree(#[trigger] stack@[j], gs[j]),
            build_from(p, i as int, gs) == build_from(p, 0, seq![]),
        decreases terms.len() - i,
    {
        assert(p[i as int] == terms@[i as int]@);
        match &terms[i] {
            Term::Operand(s) => {
                let node = operand_leaf(s);
                stack.push(node);
                proof {
                    gs = gs.push(leaf_tree(s@));
                }
                assert forall|j: int| 0 <= j < gs.len() implies is_tree(
                    #[trigger] stack@[j],
                    gs[j],
                ) by {
                }
            },
            Term::Operator(k) => {
                let a = operator_arity(*k);
                if a == 0 || stack.len() < a {
                    assert(p[i as int] == TermModel::Operator(*k));
                    assert(build_from(p, i as int, gs) is None);
                    return None;
                }
                let ghost n = gs.len() as int;
                let ghost kids = gs.subrange(n - a, n);
                let mut children: Vec<Node> = Vec::new();
                if a == 1 {
                    let x = stack.pop().unwrap();
                    children.push(x);
                    assert(is_tree(children@[0], kids[0]));
                } else {
                    let y = stack.pop().unwrap();
                    let x = stack.pop().unwrap();
                    children.push(x);
                    children.push(y);
                    assert(is_tree(children@[0], kids[0]));
                    assert(is_tree(children@[1], kids[1]));
                }
                let ghost t = TreeModel {
                    construct: Construct::Operator,
                    value: Some(operator_text(*k)),
                    children: kids,
                };
                let node = Node {
                    construct: Construct::Operator,
                    value: Some(operator_string(*k)),
                    children,
                };
                assert(is_tree(node, t));
                stack.push(node);
                proof {
                    gs = gs.subrange(0, n - a).push(t);
                }
                assert forall|j: int| 0 <= j < gs.len() implies is_tree(
                    #[trigger] stack@[j],
                    gs[j],
                ) by {
                }
            },
        }
        i = i + 1;
    }
    if stack.len() == 1 {
        let top = stack.pop().unwrap();
        Some(top)
    } else {
        None
    }
}

/// `done` followed by what `r` parses, or `r`'s error.
pub open spec fn prefix_then(done: Seq<StmtModel>, r: Result<Seq<StmtModel>, ErrorModel>) -> Result<
    Seq<StmtModel>,
    ErrorModel,
> {
    match r {
        Ok(rest) => Ok(done + rest),
        Err(e) => Err(e),
    }
}

pub open spec fn cons(s: StmtModel, r: Result<Seq<StmtModel>, ErrorModel>) -> Result<
    Seq<StmtModel>,
    ErrorModel,
> {
    match r {
        Ok(rest) => Ok(seq![s] + rest),
        Err(e) => Err(e),
    }
}

proof fn lemma_prefix_step(done: Seq<StmtModel>, s: StmtModel, r: Result<Seq<StmtModel>, ErrorModel>)
    ensures
        prefix_then(done, cons(s, r)) == prefix_then(done.push(s), r),
{
    if let Ok(rest) = r {
        assert(done + (seq![s] + rest) =~= done.push(s) + rest);
    }
}

/// Whether `r` is the tree of the statements `stmts`.
pub open spec fn is_program(r: Node, stmts: Seq<StmtModel>) -> bool {
    &&& r.construct == Construct::Scope
    &&& r.value is None
    &&& r.children@.len() == stmts.len()
    &&& forall|i: int| 0 <= i < stmts.len() ==> is_statement(#[trigger] r.children@[i], stmts[i])
}

/// Builds the syntax tree of a program: a scope node whose children are
/// its statements in order. A malformed `LET` gives the same errors as a
/// run does; an empty expression gives `EmptyExpression`, and one that
/// does not make a single tree `MalformedExpression`.
pub fn parse(tokens: &Vec<Token>) -> (r: Result<Node, EvalError>)
    ensures
        match parse_from(views(tokens@), 0) {
            Ok(stmts) => r is Ok && is_program(r->Ok_0, stmts),
            Err(e) => r is Err && r->Err_0@ == e,
        },
{
    let ghost ts = views(tokens@);
    let ghost goal = parse_from(ts, 0);
    let ghost mut done: Seq<StmtModel> = seq![];
    let mut children: Vec<Node> = Vec::new();
    let n = tokens.len();
    let mut pos: usize = 0;
    assert(prefix_then(done, goal) == goal) by {
        if let Ok(rest) = goal {
            assert(done + rest =~= rest);
        }
    }
    while pos < n
        invariant
            n == tokens.len(),
            ts == views(tokens@),
            ts.len() == n,
            goal == parse_from(ts, 0),
            pos <= n,
            prefix_then(done, parse_from(ts, pos as int)) == goal,
            children@.len() == done.len(),
            forall|i: int| 0 <= i < done.len() ==> is_statement(#[trigger] children@[i], done[i]),
        decreases n - pos,
    {
        let k = tokens[pos].kind;
        assert(ts[pos as int] == tokens@[pos as int]@);
        proof {
            if pos + 1 < n {
                assert(ts[pos + 1] == tokens@[pos + 1]@);
            }
            if pos + 2 < n {
                assert(ts[pos + 2] == tokens@[pos + 2]@);
            }
        }
        if k == TokenKind::Initialize {
            if !(pos + 1 < n && tokens[pos + 1].kind == TokenKind::Identifier) {
                let found = if pos + 1 < n {
                    tokens[pos + 1].lexeme.clone()
                } else {
                    String::new()
                };
                return Err(EvalError::ExpectedIdentifier(found));
            }
            if !(pos + 2 < n && tokens[pos + 2].kind == TokenKind::Assign) {
                let found = if pos + 2 < n {
                    tokens[pos + 2].lexeme.clone()
                } else {
                    String::new()
                };
                return Err(EvalError::ExpectedAssign(found));
            }
            let e = match expression_endpoint(tokens, pos + 3) {
                Some(e) => e,
                None => {
                    return Err(EvalError::EmptyExpression);
                },
            };
            let var = leaf(Construct::Variable, tokens[pos + 1].lexeme.clone());
            let expression = match infix_to_tree(tokens, pos + 3, e) {
                Some(x) => x,
                None => {
                    return Err(EvalError::MalformedExpression);
                },
            };
            let ghost tree = span_tree(ts, pos + 3, e as int)->Ok_0;
            let mut sub: Vec<Node> = Vec::new();
            sub.push(var);
            sub.push(expression);
            let node = Node { construct: Construct::Assign, value: None, children: sub };
            let ghost s = StmtModel::Assign(ts[pos + 1].1, tree);
            proof {
                lemma_prefix_step(done, s, parse_from(ts, e as int));
                done = done.push(s);
            }
            children.push(node);
            pos = e;
        } else if k == TokenKind::Output {
            let node = if pos + 1 < n && tokens[pos + 1].kind == TokenKind::Identifier {
                let mut sub: Vec<Node> = Vec::new();
                sub.push(leaf(Construct::Variable, tokens[pos + 1].lexeme.clone()));
                Node { construct: Construct::Output, value: None, children: sub }
            } else {
                Node { construct: Construct::Output, value: None, children: Vec::new() }
            };
            let ghost s = if pos + 1 < n && ts[pos + 1].0 == TokenKind::Identifier {
                StmtModel::Output(Some(ts[pos + 1].1))
            } else {
                StmtModel::Output(None)
            };
            let next = if pos + 1 < n {
                pos + 2
            } else {
                n
            };
            proof {
                assert(parse_from(ts, pos + 2) == parse_from(ts, next as int));
                lemma_prefix_step(done, s, parse_from(ts, next as int));
                done = done.push(s);
            }
            children.push(node);
            pos = next;
        } else if k == TokenKind::BeginIf {
            let e = match expression_endpoint(tokens, pos + 1) {
                Some(e) => e,
                None => {
                    return Err(EvalError::EmptyExpression);
                },
            };
            let condition = match infix_to_tree(tokens, pos + 1, e) {
                Some(x) => x,
                None => {
                    return Err(EvalError::MalformedExpression);
                },
            };
            let ghost tree = span_tree(ts, pos + 1, e as int)->Ok_0;
            let mut sub: Vec<Node> = Vec::new();
            sub.push(condition);
            let node = Node { construct: Construct::Branch, value: None, children: sub };
            let ghost s = StmtModel::Branch(tree);
            proof {
                lemma_prefix_step(done, s, parse_from(ts, e as int));
                done = done.push(s);
            }
            children.push(node);
            pos = e;
        } else {
            pos = pos + 1;
        }
    }
    assert(prefix_then(done, parse_from(ts, pos as int)) == prefix_then(done, Ok(seq![])));
    assert(done + seq![] =~= done);
    Ok(Node { construct: Construct::Scope, value: None, children })
}

} // verus!
