//! The statement interpreter. It walks the tokens once, keeps the symbol
//! table and the skip flag, and hands each expression that needs a numeric
//! value to its host, which evaluates the postfix form and resumes it.
use vstd::prelude::*;
use crate::lexer::{Token, TokenKind, is_number_text, is_number, text_eq, views};
use crate::symbols::{Symbol, SymbolTable, ValueType};
use crate::expr::{
    EvalError, Term, TermModel, infix_to_postfix, postfix, postfix_result_matches, term_views,
};

verus! {

/// The abstract value of an [`EvalError`].
pub enum ErrorModel {
    ExpectedIdentifier(Seq<char>),
    ExpectedAssign(Seq<char>),
    UndefinedSymbol(Seq<char>),
    EmptyExpression,
    MalformedExpression,
}

impl View for EvalError {
    type V = ErrorModel;

    open spec fn view(&self) -> ErrorModel {
        match self {
            EvalError::ExpectedIdentifier(s) => ErrorModel::ExpectedIdentifier(s@),
            EvalError::ExpectedAssign(s) => ErrorModel::ExpectedAssign(s@),
            EvalError::UndefinedSymbol(s) => ErrorModel::UndefinedSymbol(s@),
            EvalError::EmptyExpression => ErrorModel::EmptyExpression,
            EvalError::MalformedExpression => ErrorModel::MalformedExpression,
        }
    }
}

/// What the interpreter asks of its host next.
#[derive(Debug)]
pub enum Action {
    /// Evaluate this postfix expression and call `resume` with the value.
    Evaluate(Vec<Term>),
    /// Write this line to the output.
    Print(String),
    /// The program has run to its end.
    Done,
    /// The run stopped on this error.
    Failed(EvalError),
}

pub enum ActionModel {
    Evaluate(Seq<TermModel>),
    Print(Seq<char>),
    Done,
    Failed(ErrorModel),
}

impl View for Action {
    type V = ActionModel;

    open spec fn view(&self) -> ActionModel {
        match self {
            Action::Evaluate(p) => ActionModel::Evaluate(term_views(p@)),
            Action::Print(s) => ActionModel::Print(s@),
            Action::Done => ActionModel::Done,
            Action::Failed(e) => ActionModel::Failed(e@),
        }
    }
}

/// What the value handed to `resume` is for.
#[derive(Debug)]
pub enum Pending {
    Nothing,
    /// The new value of this name.
    Store(String),
    /// The condition of an `IF`.
    Condition,
}

pub enum PendingModel {
    Nothing,
    Store(Seq<char>),
    Condition,
}

/// The abstract state of an [`Interpreter`].
pub struct MachineModel {
    pub symbols: Map<Seq<char>, (Seq<char>, ValueType)>,
    pub pos: int,
    pub skip_scope: bool,
    pub look_elif: bool,
    pub pending: PendingModel,
}

/// The type inferred for a literal's text: `TRUE` and `FALSE` are booleans,
/// number text is a number, anything else a string.
pub open spec fn value_type_of(s: Seq<char>) -> ValueType {
    if s == "TRUE"@ || s == "FALSE"@ {
        ValueType::Boolean
    } else if is_number_text(s) {
        ValueType::Number
    } else {
        ValueType::String
    }
}

/// First index at or after `i` that holds a line terminator, or the end.
pub open spec fn endpoint(ts: Seq<(TokenKind, Seq<char>)>, i: int) -> int
    decreases ts.len() - i,
{
    if i < 0 || i >= ts.len() {
        i
    } else if ts[i].0 == TokenKind::Newline {
        i
    } else {
        endpoint(ts, i + 1)
    }
}

/// The lexeme at `i`, or empty text past the end.
pub open spec fn lexeme_at(ts: Seq<(TokenKind, Seq<char>)>, i: int) -> Seq<char> {
    if 0 <= i < ts.len() {
        ts[i].1
    } else {
        seq![]
    }
}

/// First index at or after `i` that is not a double quote.
pub open spec fn quotes_end(s: Seq<char>, i: int) -> int
    decreases s.len() - i,
{
    if 0 <= i < s.len() && s[i] == '"' {
        quotes_end(s, i + 1)
    } else {
        i
    }
}

/// Index after the last character at or above `lo` and below `j` that is
/// not a double quote (`lo` if there is none).
pub open spec fn quotes_start(s: Seq<char>, lo: int, j: int) -> int
    decreases j - lo,
{
    if lo < j && 0 < j <= s.len() && s[j - 1] == '"' {
        quotes_start(s, lo, j - 1)
    } else {
        j
    }
}

/// `s` without the double quotes at its start and at its end.
pub open spec fn trim_quotes(s: Seq<char>) -> Seq<char> {
    let a = quotes_end(s, 0);
    s.subrange(a, quotes_start(s, a, s.len() as int))
}

pub open spec fn stopped(st: MachineModel, ts: Seq<(TokenKind, Seq<char>)>, e: ErrorModel) -> (
    MachineModel,
    ActionModel,
) {
    (MachineModel { pos: ts.len() as int, ..st }, ActionModel::Failed(e))
}

/// Asks for the value of the expression `ts[b..e]`, to be used as `p`
/// says, and goes on at `e`.
pub open spec fn ask(
    st: MachineModel,
    ts: Seq<(TokenKind, Seq<char>)>,
    b: int,
    e: int,
    p: PendingModel,
) -> (MachineModel, ActionModel) {
    if e == b {
        stopped(st, ts, ErrorModel::EmptyExpression)
    } else {
        match postfix(st.symbols, ts, b, e) {
            Ok(pf) => (MachineModel { pos: e, pending: p, ..st }, ActionModel::Evaluate(pf)),
            Err(name) => stopped(st, ts, ErrorModel::UndefinedSymbol(name)),
        }
    }
}

/// Runs statements from `st.pos` until one needs the host: an expression
/// to evaluate, a line to print, the end, or an error.
pub open spec fn run_spec(st: MachineModel, ts: Seq<(TokenKind, Seq<char>)>) -> (
    MachineModel,
    ActionModel,
)
    decreases ts.len() - st.pos,
{
    let pos = st.pos;
    if pos < 0 || pos >= ts.len() {
        (st, ActionModel::Done)
    } else {
        let k = ts[pos].0;
        if k == TokenKind::Initialize && !st.skip_scope {
            if !(pos + 1 < ts.len() && ts[pos + 1].0 == TokenKind::Identifier) {
                stopped(st, ts, ErrorModel::ExpectedIdentifier(lexeme_at(ts, pos + 1)))
            } else if !(pos + 2 < ts.len() && ts[pos + 2].0 == TokenKind::Assign) {
                stopped(st, ts, ErrorModel::ExpectedAssign(lexeme_at(ts, pos + 2)))
            } else {
                let name = ts[pos + 1].1;
                let b = pos + 3;
                let e = endpoint(ts, b);
                if e - b == 1 {
                    let v = ts[b].1;
                    run_spec(
                        MachineModel {
                            symbols: st.symbols.insert(name, (v, value_type_of(v))),
                            pos: e,
                            ..st
                        },
                        ts,
                    )
                } else {
                    ask(st, ts, b, e, PendingModel::Store(name))
                }
            }
        } else if k == TokenKind::Identifier && !st.skip_scope {
            let name = ts[pos].1;
            if !st.symbols.contains_key(name) {
                stopped(st, ts, ErrorModel::UndefinedSymbol(name))
            } else if !(pos + 1 < ts.len() && ts[pos + 1].0 == TokenKind::Assign) {
                stopped(st, ts, ErrorModel::ExpectedAssign(lexeme_at(ts, pos + 1)))
            } else {
                ask(st, ts, pos + 2, endpoint(ts, pos + 2), PendingModel::Store(name))
            }
        } else if k == TokenKind::Output && !st.skip_scope {
            if !(pos + 1 < ts.len()) || ts[pos + 1].0 == TokenKind::Newline {
                stopped(st, ts, ErrorModel::EmptyExpression)
            } else if ts[pos + 1].0 == TokenKind::Identifier {
                let name = ts[pos + 1].1;
                if st.symbols.contains_key(name) {
                    (
                        MachineModel { pos: pos + 2, ..st },
                        ActionModel::Print(trim_quotes(st.symbols[name].0)),
                    )
                } else {
                    stopped(st, ts, ErrorModel::UndefinedSymbol(name))
                }
            } else {
                (MachineModel { pos: pos + 2, ..st }, ActionModel::Print(trim_quotes(ts[pos + 1].1)))
            }
        } else if k == TokenKind::BeginIf {
            ask(st, ts, pos + 1, endpoint(ts, pos + 1), PendingModel::Condition)
        } else if k == TokenKind::BeginElse {
            run_spec(MachineModel { pos: pos + 1, skip_scope: !st.skip_scope, ..st }, ts)
        } else if k == TokenKind::EndScope {
            run_spec(MachineModel { pos: pos + 1, skip_scope: false, ..st }, ts)
        } else {
            run_spec(MachineModel { pos: pos + 1, ..st }, ts)
        }
    }
}

/// Takes the host's value for the pending request: a stored number, or an
/// `IF` condition, whose truth decides whether the statements up to the
/// next `ELSE` or `END` are skipped.
pub open spec fn resume_spec(st: MachineModel, value: Seq<char>, truthy: bool) -> MachineModel {
    match st.pending {
        PendingModel::Nothing => st,
        PendingModel::Store(name) => MachineModel {
            symbols: st.symbols.insert(name, (value, ValueType::Number)),
            pending: PendingModel::Nothing,
            ..st
        },
        PendingModel::Condition => MachineModel {
            skip_scope: !truthy,
            look_elif: !truthy,
            pending: PendingModel::Nothing,
            ..st
        },
    }
}

/// Converting the same expression span twice against an unchanged table
/// gives the same postfix form, or the same error: the conversion reads
/// the table and the tokens and nothing else.
pub proof fn lemma_conversion_repeatable(
    m: Map<Seq<char>, (Seq<char>, ValueType)>,
    ts: Seq<(TokenKind, Seq<char>)>,
    from: int,
    end: int,
    r1: Result<Vec<Term>, EvalError>,
    r2: Result<Vec<Term>, EvalError>,
)
    requires
        postfix_result_matches(r1, postfix(m, ts, from, end)),
        postfix_result_matches(r2, postfix(m, ts, from, end)),
    ensures
        r1 is Ok <==> r2 is Ok,
        r1 is Ok ==> term_views(r1->Ok_0@) == term_views(r2->Ok_0@),
        r1 is Err ==> r1->Err_0@ == r2->Err_0@,
{
}

/// While the skip flag is set, a statement that is not `IF`, `ELSE` or
/// `END` has no effect: the run goes on past its first token as if it were
/// not there. So nothing between a false `IF` and its `ELSE` or `END` is
/// printed, stored or evaluated.
pub proof fn lemma_skipped_statement_has_no_effect(st: MachineModel, ts: Seq<(TokenKind, Seq<char>)>)
    requires
        st.skip_scope,
        0 <= st.pos < ts.len(),
        ts[st.pos].0 != TokenKind::BeginIf,
        ts[st.pos].0 != TokenKind::BeginElse,
        ts[st.pos].0 != TokenKind::EndScope,
    ensures
        run_spec(st, ts) == run_spec(MachineModel { pos: st.pos + 1, ..st }, ts),
{
}

/// `ELSE` flips the skip flag: after a false `IF` the statements between
/// `ELSE` and `END` run, after a true one they are skipped.
pub proof fn lemma_else_flips_skip(st: MachineModel, ts: Seq<(TokenKind, Seq<char>)>)
    requires
        0 <= st.pos < ts.len(),
        ts[st.pos].0 == TokenKind::BeginElse,
    ensures
        run_spec(st, ts) == run_spec(
            MachineModel { pos: st.pos + 1, skip_scope: !st.skip_scope, ..st },
            ts,
        ),
{
}

/// The type inferred for a literal's text.
pub fn get_data_type(value: &str) -> (r: ValueType)
    ensures
        r == value_type_of(value@),
{
    if text_eq(value, "TRUE") || text_eq(value, "FALSE") {
        ValueType::Boolean
    } else if is_number(value) {
        ValueType::Number
    } else {
        ValueType::String
    }
}

/// The end of the expression that starts at `start`: the index of the next
/// line terminator, or of the end; `None` when the expression is empty.
pub fn expression_endpoint(tokens: &Vec<Token>, start: usize) -> (r: Option<usize>)
    requires
        start <= tokens.len(),
    ensures
        match r {
            Some(e) => e as int == endpoint(views(tokens@), start as int) && e > start,
            None => endpoint(views(tokens@), start as int) == start,
        },
        endpoint(views(tokens@), start as int) <= tokens.len(),
{
    let ghost ts = views(tokens@);
    let mut i = start;
    while i < tokens.len() && tokens[i].kind != TokenKind::Newline
        invariant
            start <= i <= tokens.len(),
            ts == views(tokens@),
            endpoint(ts, i as int) == endpoint(ts, start as int),
        decreases tokens.len() - i,
    {
        assert(ts[i as int].0 == tokens@[i as int].kind);
        i = i + 1;
    }
    if i < tokens.len() {
        assert(ts[i as int].0 == tokens@[i as int].kind);
    }
    if i > start {
        Some(i)
    } else {
        None
    }
}

/// `s` without the double quotes at its start and at its end.
pub fn strip_quotes(s: &str) -> (r: String)
    ensures
        r@ == trim_quotes(s@),
{
    let n = s.unicode_len();
    let mut a: usize = 0;
    while a < n && s.get_char(a) == '"'
        invariant
            n == s@.len(),
            a <= n,
            quotes_end(s@, a as int) == quotes_end(s@, 0),
        decreases n - a,
    {
        a = a + 1;
    }
    let mut b: usize = n;
    while b > a && s.get_char(b - 1) == '"'
        invariant
            n == s@.len(),
            a <= b <= n,
            quotes_start(s@, a as int, b as int) == quotes_start(s@, a as int, n as int),
        decreases b,
    {
        b = b - 1;
    }
    s.substring_char(a, b).to_owned()
}

/// Runs statements of a program one after the other; see [`Action`].
pub struct Interpreter {
    symbols: SymbolTable,
    pos: usize,
    skip_scope: bool,
    look_elif: bool,
    pending: Pending,
}

pub open spec fn pending_model(p: Pending) -> PendingModel {
    match p {
        Pending::Nothing => PendingModel::Nothing,
        Pending::Store(s) => PendingModel::Store(s@),
        Pending::Condition => PendingModel::Condition,
    }
}

impl View for Interpreter {
    type V = MachineModel;

    closed spec fn view(&self) -> MachineModel {
        MachineModel {
            symbols: self.symbols@,
            pos: self.pos as int,
            skip_scope: self.skip_scope,
            look_elif: self.look_elif,
            pending: pending_model(self.pending),
        }
    }
}

impl Interpreter {
    pub closed spec fn wf(&self) -> bool {
        self.symbols.wf()
    }

    /// An interpreter at the start of a program, with no symbols.
    pub fn new() -> (r: Interpreter)
        ensures
            r.wf(),
            r@ == (MachineModel {
                symbols: Map::empty(),
                pos: 0,
                skip_scope: false,
                look_elif: false,
                pending: PendingModel::Nothing,
            }),
    {
        Interpreter {
            symbols: SymbolTable::new(),
            pos: 0,
            skip_scope: false,
            look_elif: false,
            pending: Pending::Nothing,
        }
    }

    /// The symbol stored under `name`, if any.
    pub fn lookup(&self, name: &str) -> (r: Option<&Symbol>)
        requires
            self.wf(),
        ensures
            match r {
                Some(s) => self@.symbols.contains_key(name@) && self@.symbols[name@] == s@,
                None => !self@.symbols.contains_key(name@),
            },
    {
        self.symbols.get(name)
    }

    fn fail(&mut self, tokens: &Vec<Token>, e: EvalError) -> (r: Action)
        ensures
            final(self).wf() == old(self).wf(),
            (final(self)@, r@) == stopped(old(self)@, views(tokens@), e@),
    {
        self.pos = tokens.len();
        Action::Failed(e)
    }

    fn ask_value(&mut self, tokens: &Vec<Token>, b: usize, e: usize, p: Pending) -> (r: Action)
        requires
            old(self).wf(),
            b <= e <= tokens.len(),
        ensures
            final(self).wf(),
            (final(self)@, r@) == ask(old(self)@, views(tokens@), b as int, e as int, pending_model(p)),
    {
        if e == b {
            return self.fail(tokens, EvalError::EmptyExpression);
        }
        let res = infix_to_postfix(&self.symbols, tokens, b, e);
        match res {
            Ok(pf) => {
                self.pos = e;
                self.pending = p;
                Action::Evaluate(pf)
            },
            Err(err) => self.fail(tokens, err),
        }
    }
    /// Runs statements until the host is needed: see [`run_spec`].
    /// `LET name BE v` with a one-token value stores that text with its
    /// inferred type; a longer value, and every reassignment `name BE ...`,
    /// is asked of the host and stored as a number. `PRINT` yields the
    /// operand's text, or the named symbol's, without its outer quotes.
    /// While the skip flag is set only `IF`, `ELSE` and `END` take effect.
    pub fn run(&mut self, tokens: &Vec<Token>) -> (r: Action)
        requires
            old(self).wf(),
        ensures
            final(self).wf(),
            (final(self)@, r@) == run_spec(old(self)@, views(tokens@)),
    {
        let ghost ts = views(tokens@);
        let ghost goal = run_spec(self@, ts);
        let n = tokens.len();
        while self.pos < n
            invariant
                self.wf(),
                n == tokens.len(),
                ts == views(tokens@),
                ts.len() == n,
                goal == run_spec(old(self)@, views(tokens@)),
                run_spec(self@, ts) == goal,
            decreases n - self.pos,
        {
            let pos = self.pos;
            let k = tokens[pos].kind;
            assert(ts[pos as int] == tokens@[pos as int]@);
            proof {
                if pos + 1 < n {
                    assert(ts[pos + 1] == tokens@[pos + 1]@);
                }
                if pos + 2 < n {
                    assert(ts[pos + 2] == tokens@[pos + 2]@);
                }
            }
            if k == TokenKind::Initialize && !self.skip_scope {
                if !(pos + 1 < n && tokens[pos + 1].kind == TokenKind::Identifier) {
                    let found = if pos + 1 < n {
                        tokens[pos + 1].lexeme.clone()
                    } else {
                        String::new()
                    };
                    return self.fail(tokens, EvalError::ExpectedIdentifier(found));
                }
                assert(ts[pos + 1] == tokens@[pos + 1]@);
                if !(pos + 2 < n && tokens[pos + 2].kind == TokenKind::Assign) {
                    let found = if pos + 2 < n {
                        tokens[pos + 2].lexeme.clone()
                    } else {
                        String::new()
                    };
                    return self.fail(tokens, EvalError::ExpectedAssign(found));
                }
                assert(ts[pos + 2] == tokens@[pos + 2]@);
                let name = tokens[pos + 1].lexeme.clone();
                let b = pos + 3;
                let e = match expression_endpoint(tokens, b) {
                    Some(e) => e,
                    None => b,
                };
                if e - b == 1 {
                    assert(ts[b as int] == tokens@[b as int]@);
                    let v = &tokens[b].lexeme;
                    let vt = get_data_type(v.as_str());
                    self.symbols.insert(name, Symbol { value: v.clone(), value_type: vt });
                    self.pos = e;
                } else {
                    return self.ask_value(tokens, b, e, Pending::Store(name));
                }
            } else if k == TokenKind::Identifier && !self.skip_scope {
                let name = &tokens[pos].lexeme;
                match self.symbols.get(name.as_str()) {
                    Some(_) => {},
                    None => {
                        return self.fail(tokens, EvalError::UndefinedSymbol(name.clone()));
                    },
                }
                if !(pos + 1 < n && tokens[pos + 1].kind == TokenKind::Assign) {
                    let found = if pos + 1 < n {
                        tokens[pos + 1].lexeme.clone()
                    } else {
                        String::new()
                    };
                    return self.fail(tokens, EvalError::ExpectedAssign(found));
                }
                assert(ts[pos + 1] == tokens@[pos + 1]@);
                let e = match expression_endpoint(tokens, pos + 2) {
                    Some(e) => e,
                    None => pos + 2,
                };
                return self.ask_value(tokens, pos + 2, e, Pending::Store(name.clone()));
            } else if k == TokenKind::Output && !self.skip_scope {
                if !(pos + 1 < n) || tokens[pos + 1].kind == TokenKind::Newline {
                    return self.fail(tokens, EvalError::EmptyExpression);
                }
                assert(ts[pos + 1] == tokens@[pos + 1]@);
                let operand = &tokens[pos + 1];
                if operand.kind == TokenKind::Identifier {
                    match self.symbols.get(operand.lexeme.as_str()) {
                        Some(sym) => {
                            let text = strip_quotes(sym.value.as_str());
                            self.pos = pos + 2;
                            return Action::Print(text);
                        },
                        None => {
                            return self.fail(
                                tokens,
                                EvalError::UndefinedSymbol(operand.lexeme.clone()),
                            );
                        },
                    }
                } else {
                    let text = strip_quotes(operand.lexeme.as_str());
                    self.pos = pos + 2;
                    return Action::Print(text);
                }
            } else if k == TokenKind::BeginIf {
                let e = match expression_endpoint(tokens, pos + 1) {
                    Some(e) => e,
                    None => pos + 1,
                };
                return self.ask_value(tokens, pos + 1, e, Pending::Condition);
            } else if k == TokenKind::BeginElse {
                self.skip_scope = !self.skip_scope;
                self.pos = pos + 1;
            } else if k == TokenKind::EndScope {
                self.skip_scope = false;
                self.pos = pos + 1;
            } else {
                self.pos = pos + 1;
            }
        }
        Action::Done
    }

    /// Hands back the value the last [`Action::Evaluate`] asked for: its
    /// text, and whether it counts as true.
    pub fn resume(&mut self, value: String, truthy: bool)
        requires
            old(self).wf(),
        ensures
            final(self).wf(),
            final(self)@ == resume_spec(old(self)@, value@, truthy),
    {
        match &self.pending {
            Pending::Nothing => {},
            Pending::Store(name) => {
                let name = name.clone();
                self.symbols.insert(name, Symbol { value, value_type: ValueType::Number });
            },
            Pending::Condition => {
                self.skip_scope = !truthy;
                self.look_elif = !truthy;
            },
        }
        self.pending = Pending::Nothing;
    }
}

} // verus!
