//! Turns source text into classified tokens.
use vstd::prelude::*;
use vstd::string::*;

verus! {

/// The kind of a lexical token; derived from the lexeme's text alone.
#[derive(Clone, Copy, Debug, PartialEq, Eq, Structural)]
pub enum TokenKind {
    Identifier,
    Keyword,
    Initialize,
    Assign,
    Output,
    Separator,
    BeginIf,
    BeginElse,
    EndScope,
    AddOperator,
    MinusOperator,
    MultOperator,
    DivOperator,
    ModOperator,
    ExpOperator,
    LessThan,
    LessThanEq,
    GreaterThan,
    GreaterThanEq,
    AndOperator,
    OrOperator,
    NotOperator,
    EqualsOperator,
    NotEqualsOperator,
    LParen,
    RParen,
    Operator,
    TrueLiteral,
    FalseLiteral,
    Literal,
    Newline,
}

/// One token: its kind and the exact text it was read from.
#[derive(Clone, Debug)]
pub struct Token {
    pub kind: TokenKind,
    pub lexeme: String,
}

impl View for Token {
    type V = (TokenKind, Seq<char>);

    open spec fn view(&self) -> (TokenKind, Seq<char>) {
        (self.kind, self.lexeme@)
    }
}

/// The abstract value of a token sequence.
pub open spec fn views(ts: Seq<Token>) -> Seq<(TokenKind, Seq<char>)> {
    ts.map_values(|t: Token| t@)
}

pub open spec fn is_digit(c: char) -> bool {
    '0' <= c && c <= '9'
}

/// First index at or after `i` that does not hold a decimal digit.
pub open spec fn digits_end(s: Seq<char>, i: int) -> int
    decreases s.len() - i,
{
    if 0 <= i < s.len() && is_digit(s[i]) {
        digits_end(s, i + 1)
    } else {
        i
    }
}

/// Length of an optional `+` or `-` at index `i`.
pub open spec fn sign_len(s: Seq<char>, i: int) -> int {
    if 0 <= i < s.len() && (s[i] == '+' || s[i] == '-') {
        1
    } else {
        0
    }
}

/// `c` is the letter `lo` in either case.
pub open spec fn either_case(c: char, lo: char, up: char) -> bool {
    c == lo || c == up
}

/// `inf`, `infinity` or `nan`, in any mix of cases.
pub open spec fn is_special_word(t: Seq<char>) -> bool {
    (t.len() == 3 && either_case(t[0], 'i', 'I') && either_case(t[1], 'n', 'N')
        && either_case(t[2], 'f', 'F')) || (t.len() == 3 && either_case(t[0], 'n', 'N')
        && either_case(t[1], 'a', 'A') && either_case(t[2], 'n', 'N')) || (t.len() == 8
        && either_case(t[0], 'i', 'I') && either_case(t[1], 'n', 'N') && either_case(
        t[2],
        'f',
        'F',
    ) && either_case(t[3], 'i', 'I') && either_case(t[4], 'n', 'N') && either_case(
        t[5],
        'i',
        'I',
    ) && either_case(t[6], 't', 'T') && either_case(t[7], 'y', 'Y'))
}

/// An exponent's digits, after an optional sign, run from `i` to the end.
pub open spec fn exponent_ok(s: Seq<char>, i: int) -> bool {
    let b = i + sign_len(s, i);
    let e = digits_end(s, b);
    e > b && e == s.len()
}

/// The text of a decimal floating-point number: an optional sign, then
/// `inf`, `infinity` or `nan`, or digits with an optional point (at least one
/// digit in all) and an optional exponent.
pub open spec fn is_number_text(s: Seq<char>) -> bool {
    let a = sign_len(s, 0);
    if is_special_word(s.subrange(a, s.len() as int)) {
        true
    } else {
        let d1 = digits_end(s, a);
        let has_point = d1 < s.len() && s[d1] == '.';
        let d2 = if has_point {
            digits_end(s, d1 + 1)
        } else {
            d1
        };
        let ndigits = if has_point {
            (d1 - a) + (d2 - d1 - 1)
        } else {
            d1 - a
        };
        ndigits > 0 && (d2 == s.len() || ((s[d2] == 'e' || s[d2] == 'E') && exponent_ok(
            s,
            d2 + 1,
        )))
    }
}

/// The kind of a lexeme: a number first, then an exact keyword or symbol,
/// and an identifier otherwise.
pub open spec fn kind_of(s: Seq<char>) -> TokenKind {
    if is_number_text(s) {
        TokenKind::Literal
    } else if s == "\n"@ {
        TokenKind::Newline
    } else if s == "LET"@ {
        TokenKind::Initialize
    } else if s == "END"@ {
        TokenKind::EndScope
    } else if s == "BE"@ {
        TokenKind::Assign
    } else if s == "RETURN"@ || s == "FOR"@ || s == "FUNCTION"@ || s == "WHILE"@ {
        TokenKind::Keyword
    } else if s == "IF"@ {
        TokenKind::BeginIf
    } else if s == "ELSE"@ {
        TokenKind::BeginElse
    } else if s == "+"@ {
        TokenKind::AddOperator
    } else if s == "-"@ {
        TokenKind::MinusOperator
    } else if s == "*"@ {
        TokenKind::MultOperator
    } else if s == "/"@ {
        TokenKind::DivOperator
    } else if s == "%"@ {
        TokenKind::ModOperator
    } else if s == "^"@ {
        TokenKind::ExpOperator
    } else if s == "("@ {
        TokenKind::LParen
    } else if s == ")"@ {
        TokenKind::RParen
    } else if s == "<"@ {
        TokenKind::LessThan
    } else if s == "<="@ {
        TokenKind::LessThanEq
    } else if s == ">"@ {
        TokenKind::GreaterThan
    } else if s == ">="@ {
        TokenKind::GreaterThanEq
    } else if s == "AND"@ {
        TokenKind::AndOperator
    } else if s == "OR"@ {
        TokenKind::OrOperator
    } else if s == "NOT"@ {
        TokenKind::NotOperator
    } else if s == "EQUALS"@ {
        TokenKind::EqualsOperator
    } else if s == "NOTEQUALS"@ {
        TokenKind::NotEqualsOperator
    } else if s == "PRINT"@ {
        TokenKind::Output
    } else if s == "IN"@ || s == "TO"@ {
        TokenKind::Operator
    } else if s == ","@ {
        TokenKind::Separator
    } else if s == "TRUE"@ {
        TokenKind::TrueLiteral
    } else if s == "FALSE"@ {
        TokenKind::FalseLiteral
    } else {
        TokenKind::Identifier
    }
}


/// Whether two texts are the same characters.
pub(crate) fn text_eq(a: &str, b: &str) -> (r: bool)
    ensures
        r == (a@ == b@),
{
    let n = a.unicode_len();
    if n != b.unicode_len() {
        return false;
    }
    let mut i: usize = 0;
    while i < n
        invariant
            n == a@.len(),
            n == b@.len(),
            i <= n,
            forall|k: int| 0 <= k < i ==> a@[k] == b@[k],
        decreases n - i,
    {
        if a.get_char(i) != b.get_char(i) {
            return false;
        }
        i = i + 1;
    }
    assert(a@ =~= b@);
    true
}

fn char_is_digit(c: char) -> (r: bool)
    ensures
        r == is_digit(c),
{
    '0' <= c && c <= '9'
}

fn scan_digits(s: &str, from: usize) -> (r: usize)
    requires
        from <= s@.len(),
    ensures
        r as int == digits_end(s@, from as int),
        from <= r <= s@.len(),
{
    let n = s.unicode_len();
    let mut i = from;
    while i < n && char_is_digit(s.get_char(i))
        invariant
            n == s@.len(),
            from <= i <= n,
            digits_end(s@, i as int) == digits_end(s@, from as int),
        decreases n - i,
    {
        i = i + 1;
    }
    i
}

fn scan_sign(s: &str, i: usize) -> (r: usize)
    requires
        i <= s@.len(),
    ensures
        r as int == sign_len(s@, i as int),
{
    if i < s.unicode_len() {
        let c = s.get_char(i);
        if c == '+' || c == '-' {
            return 1;
        }
    }
    0
}

fn special_word_at(s: &str, a: usize) -> (r: bool)
    requires
        a <= s@.len(),
    ensures
        r == is_special_word(s@.subrange(a as int, s@.len() as int)),
{
    let n = s.unicode_len();
    let ghost t = s@.subrange(a as int, s@.len() as int);
    if n - a == 3 {
        let c0 = s.get_char(a);
        let c1 = s.get_char(a + 1);
        let c2 = s.get_char(a + 2);
        assert(t[0] == c0 && t[1] == c1 && t[2] == c2);
        ((c0 == 'i' || c0 == 'I') && (c1 == 'n' || c1 == 'N') && (c2 == 'f' || c2 == 'F')) || ((c0
            == 'n' || c0 == 'N') && (c1 == 'a' || c1 == 'A') && (c2 == 'n' || c2 == 'N'))
    } else if n - a == 8 {
        let mut i: usize = 0;
        let lower = ['i', 'n', 'f', 'i', 'n', 'i', 't', 'y'];
        let upper = ['I', 'N', 'F', 'I', 'N', 'I', 'T', 'Y'];
        while i < 8
            invariant
                n == s@.len(),
                n - a == 8,
                t == s@.subrange(a as int, s@.len() as int),
                lower@ == seq!['i', 'n', 'f', 'i', 'n', 'i', 't', 'y'],
                upper@ == seq!['I', 'N', 'F', 'I', 'N', 'I', 'T', 'Y'],
                i <= 8,
                forall|k: int| 0 <= k < i ==> either_case(t[k], lower@[k], upper@[k]),
            decreases 8 - i,
        {
            let c = s.get_char(a + i);
            if c != lower[i] && c != upper[i] {
                return false;
            }
            i = i + 1;
        }
        assert(either_case(t[0], 'i', 'I') && either_case(t[1], 'n', 'N') && either_case(t[2], 'f', 'F')
            && either_case(t[3], 'i', 'I') && either_case(t[4], 'n', 'N') && either_case(t[5], 'i', 'I')
            && either_case(t[6], 't', 'T') && either_case(t[7], 'y', 'Y'));
        true
    } else {
        false
    }
}

/// Whether a text reads as a decimal floating-point number.
pub fn is_number(s: &str) -> (r: bool)
    ensures
        r == is_number_text(s@),
{
    let n = s.unicode_len();
    let a = scan_sign(s, 0);
    if special_word_at(s, a) {
        return true;
    }
    let d1 = scan_digits(s, a);
    let has_point = d1 < n && s.get_char(d1) == '.';
    let d2 = if has_point {
        scan_digits(s, d1 + 1)
    } else {
        d1
    };
    let ndigits = if has_point {
        (d1 - a) + (d2 - d1 - 1)
    } else {
        d1 - a
    };
    if ndigits == 0 {
        return false;
    }
    if d2 == n {
        return true;
    }
    let e = s.get_char(d2);
    if e != 'e' && e != 'E' {
        return false;
    }
    let b = d2 + 1 + scan_sign(s, d2 + 1);
    let end = scan_digits(s, b);
    end > b && end == n
}

/// The kind of a lexeme, read from its text alone.
pub fn token_type(value: &str) -> (r: TokenKind)
    ensures
        r == kind_of(value@),
{
    if is_number(value) {
        TokenKind::Literal
    } else if text_eq(value, "\n") {
        TokenKind::Newline
    } else if text_eq(value, "LET") {
        TokenKind::Initialize
    } else if text_eq(value, "END") {
        TokenKind::EndScope
    } else if text_eq(value, "BE") {
        TokenKind::Assign
    } else if text_eq(value, "RETURN") || text_eq(value, "FOR") || text_eq(value, "FUNCTION")
        || text_eq(value, "WHILE") {
        TokenKind::Keyword
    } else if text_eq(value, "IF") {
        TokenKind::BeginIf
    } else if text_eq(value, "ELSE") {
        TokenKind::BeginElse
    } else if text_eq(value, "+") {
        TokenKind::AddOperator
    } else if text_eq(value, "-") {
        TokenKind::MinusOperator
    } else if text_eq(value, "*") {
        TokenKind::MultOperator
    } else if text_eq(value, "/") {
        TokenKind::DivOperator
    } else if text_eq(value, "%") {
        TokenKind::ModOperator
    } else if text_eq(value, "^") {
        TokenKind::ExpOperator
    } else if text_eq(value, "(") {
        TokenKind::LParen
    } else if text_eq(value, ")") {
        TokenKind::RParen
    } else if text_eq(value, "<") {
        TokenKind::LessThan
    } else if text_eq(value, "<=") {
        TokenKind::LessThanEq
    } else if text_eq(value, ">") {
        TokenKind::GreaterThan
    } else if text_eq(value, ">=") {
        TokenKind::GreaterThanEq
    } else if text_eq(value, "AND") {
        TokenKind::AndOperator
    } else if text_eq(value, "OR") {
        TokenKind::OrOperator
    } else if text_eq(value, "NOT") {
        TokenKind::NotOperator
    } else if text_eq(value, "EQUALS") {
        TokenKind::EqualsOperator
    } else if text_eq(value, "NOTEQUALS") {
        TokenKind::NotEqualsOperator
    } else if text_eq(value, "PRINT") {
        TokenKind::Output
    } else if text_eq(value, "IN") || text_eq(value, "TO") {
        TokenKind::Operator
    } else if text_eq(value, ",") {
        TokenKind::Separator
    } else if text_eq(value, "TRUE") {
        TokenKind::TrueLiteral
    } else if text_eq(value, "FALSE") {
        TokenKind::FalseLiteral
    } else {
        TokenKind::Identifier
    }
}

/// Characters that end a token.
pub open spec fn is_delimiter(c: char) -> bool {
    c == ' ' || c == ',' || c == '(' || c == ')' || c == '\n' || c == '\t' || c == '\r' || c
        == '"'
}

/// Delimiters that are dropped rather than emitted.
pub open spec fn is_blank(c: char) -> bool {
    c == ' ' || c == '\t' || c == '\r'
}

pub open spec fn word(s: Seq<char>) -> (TokenKind, Seq<char>) {
    (kind_of(s), s)
}

/// The token, if any, of the run `s[start..i]`.
pub open spec fn pending(s: Seq<char>, start: int, i: int) -> Seq<(TokenKind, Seq<char>)> {
    if start < i {
        seq![word(s.subrange(start, i))]
    } else {
        seq![]
    }
}

/// Tokens of `s` from index `i` on, where the current run began at `start`
/// and `in_str` says whether that run is a quoted string.
pub open spec fn lex_from(s: Seq<char>, i: int, start: int, in_str: bool) -> Seq<
    (TokenKind, Seq<char>),
>
    decreases s.len() - i,
{
    if i >= s.len() {
        if start < s.len() {
            if in_str {
                seq![(TokenKind::Literal, s.subrange(start, s.len() as int))]
            } else {
                seq![word(s.subrange(start, s.len() as int))]
            }
        } else {
            seq![]
        }
    } else {
        let c = s[i];
        if c == '"' && !in_str {
            pending(s, start, i) + lex_from(s, i + 1, i, true)
        } else if c == '"' && in_str {
            seq![(TokenKind::Literal, s.subrange(start, i + 1))] + lex_from(s, i + 1, i + 1, false)
        } else if !in_str && is_delimiter(c) {
            pending(s, start, i) + (if is_blank(c) {
                seq![]
            } else {
                seq![word(s.subrange(i, i + 1))]
            }) + lex_from(s, i + 1, i + 1, false)
        } else {
            lex_from(s, i + 1, start, in_str)
        }
    }
}

/// The tokens of a whole source text.
pub open spec fn lex(s: Seq<char>) -> Seq<(TokenKind, Seq<char>)> {
    lex_from(s, 0, 0, false)
}

/// The source from index `i` on without the blanks that stand outside quotes.
pub open spec fn strip_from(s: Seq<char>, i: int, in_str: bool) -> Seq<char>
    decreases s.len() - i,
{
    if i < 0 || i >= s.len() {
        seq![]
    } else if s[i] == '"' {
        seq![s[i]] + strip_from(s, i + 1, !in_str)
    } else if !in_str && is_blank(s[i]) {
        strip_from(s, i + 1, in_str)
    } else {
        seq![s[i]] + strip_from(s, i + 1, in_str)
    }
}

/// The lexemes of a token sequence, written one after the other.
pub open spec fn joined(ts: Seq<(TokenKind, Seq<char>)>) -> Seq<char>
    decreases ts.len(),
{
    if ts.len() == 0 {
        seq![]
    } else {
        ts[0].1 + joined(ts.drop_first())
    }
}

pub proof fn lemma_joined_append(a: Seq<(TokenKind, Seq<char>)>, b: Seq<(TokenKind, Seq<char>)>)
    ensures
        joined(a + b) == joined(a) + joined(b),
    decreases a.len(),
{
    if a.len() == 0 {
        assert(a + b =~= b);
    } else {
        assert((a + b).drop_first() =~= a.drop_first() + b);
        lemma_joined_append(a.drop_first(), b);
    }
}

proof fn lemma_joined_one(t: (TokenKind, Seq<char>))
    ensures
        joined(seq![t]) == t.1,
{
    assert(seq![t].drop_first() =~= seq![]);
    assert(joined(seq![t].drop_first()) == Seq::<char>::empty());
    assert(t.1 + Seq::<char>::empty() =~= t.1);
}

proof fn lemma_lex_from_joined(s: Seq<char>, i: int, start: int, in_str: bool)
    requires
        0 <= start <= i <= s.len(),
    ensures
        joined(lex_from(s, i, start, in_str)) == s.subrange(start, i) + strip_from(s, i, in_str),
    decreases s.len() - i,
{
    if i >= s.len() {
        if start < s.len() {
            let t = if in_str {
                (TokenKind::Literal, s.subrange(start, s.len() as int))
            } else {
                word(s.subrange(start, s.len() as int))
            };
            lemma_joined_one(t);
        } else {
            assert(joined(Seq::<(TokenKind, Seq<char>)>::empty()) == Seq::<char>::empty());
        }
        assert(s.subrange(start, i) + seq![] =~= s.subrange(start, i));
    } else {
        let c = s[i];
        let p = pending(s, start, i);
        assert(joined(p) == s.subrange(start, i)) by {
            if start < i {
                lemma_joined_one(word(s.subrange(start, i)));
            } else {
                assert(s.subrange(start, i) =~= Seq::<char>::empty());
            }
        }
        if c == '"' && !in_str {
            lemma_lex_from_joined(s, i + 1, i, true);
            lemma_joined_append(p, lex_from(s, i + 1, i, true));
            assert(s.subrange(start, i) + (s.subrange(i, i + 1) + strip_from(s, i + 1, true))
                =~= s.subrange(start, i) + (seq![c] + strip_from(s, i + 1, true)));
        } else if c == '"' && in_str {
            let t = (TokenKind::Literal, s.subrange(start, i + 1));
            lemma_lex_from_joined(s, i + 1, i + 1, false);
            lemma_joined_append(seq![t], lex_from(s, i + 1, i + 1, false));
            lemma_joined_one(t);
            assert(s.subrange(start, i + 1) + (s.subrange(i + 1, i + 1) + strip_from(
                s,
                i + 1,
                false,
            )) =~= s.subrange(start, i) + (seq![c] + strip_from(s, i + 1, false)));
        } else if !in_str && is_delimiter(c) {
            let mid: Seq<(TokenKind, Seq<char>)> = if is_blank(c) {
                seq![]
            } else {
                seq![word(s.subrange(i, i + 1))]
            };
            lemma_lex_from_joined(s, i + 1, i + 1, false);
            lemma_joined_append(p + mid, lex_from(s, i + 1, i + 1, false));
            lemma_joined_append(p, mid);
            if is_blank(c) {
                assert(joined(mid) =~= seq![]);
                assert(s.subrange(start, i) + seq![] + (s.subrange(i + 1, i + 1) + strip_from(
                    s,
                    i + 1,
                    false,
                )) =~= s.subrange(start, i) + strip_from(s, i + 1, false));
            } else {
                lemma_joined_one(word(s.subrange(i, i + 1)));
                assert(joined(mid) =~= seq![c] + seq![]);
                assert(s.subrange(start, i) + (seq![c] + seq![]) + (s.subrange(i + 1, i + 1)
                    + strip_from(s, i + 1, false)) =~= s.subrange(start, i) + (seq![c]
                    + strip_from(s, i + 1, false)));
            }
        } else {
            lemma_lex_from_joined(s, i + 1, start, in_str);
            assert(s.subrange(start, i + 1) + strip_from(s, i + 1, in_str) =~= s.subrange(
                start,
                i,
            ) + (seq![c] + strip_from(s, i + 1, in_str)));
        }
    }
}

/// Writing the lexemes of a source's tokens one after the other gives back
/// the source, less the blanks (space, tab, carriage return) that stood
/// outside quoted strings.
pub proof fn lemma_scan_round_trip(s: Seq<char>)
    ensures
        joined(lex(s)) == strip_from(s, 0, false),
{
    lemma_lex_from_joined(s, 0, 0, false);
    assert(s.subrange(0, 0) + strip_from(s, 0, false) =~= strip_from(s, 0, false));
}

fn char_is_delimiter(c: char) -> (r: bool)
    ensures
        r == is_delimiter(c),
{
    c == ' ' || c == ',' || c == '(' || c == ')' || c == '\n' || c == '\t' || c == '\r' || c
        == '"'
}

fn char_is_blank(c: char) -> (r: bool)
    ensures
        r == is_blank(c),
{
    c == ' ' || c == '\t' || c == '\r'
}

/// Appends the token of `source[start..end]`, classified by its text.
fn push_word(tokens: &mut Vec<Token>, source: &str, start: usize, end: usize)
    requires
        start <= end <= source@.len(),
    ensures
        views(final(tokens)@) == views(old(tokens)@) + seq![
            word(source@.subrange(start as int, end as int)),
        ],
{
    let text = source.substring_char(start, end);
    let kind = token_type(text);
    tokens.push(Token { kind, lexeme: text.to_owned() });
    assert(views(tokens@) =~= views(old(tokens)@) + seq![
        word(source@.subrange(start as int, end as int)),
    ]);
}

/// Appends the token of the run `source[start..end]`, if it is not empty.
fn push_pending(tokens: &mut Vec<Token>, source: &str, start: usize, end: usize)
    requires
        start <= end <= source@.len(),
    ensures
        views(final(tokens)@) == views(old(tokens)@) + pending(
            source@,
            start as int,
            end as int,
        ),
{
    if start < end {
        push_word(tokens, source, start, end);
    } else {
        assert(views(tokens@) =~= views(tokens@) + pending(source@, start as int, end as int));
    }
}

/// Appends `source[start..end]` as one string literal.
fn push_quoted(tokens: &mut Vec<Token>, source: &str, start: usize, end: usize)
    requires
        start <= end <= source@.len(),
    ensures
        views(final(tokens)@) == views(old(tokens)@) + seq![
            (TokenKind::Literal, source@.subrange(start as int, end as int)),
        ],
{
    let text = source.substring_char(start, end);
    tokens.push(Token { kind: TokenKind::Literal, lexeme: text.to_owned() });
    assert(views(tokens@) =~= views(old(tokens)@) + seq![
        (TokenKind::Literal, source@.subrange(start as int, end as int)),
    ]);
}

/// Splits source text into tokens. Delimiters end a token; blanks are
/// dropped and the other delimiters are tokens of their own. A double quote
/// opens a string literal that runs, delimiters and all, to the next double
/// quote, both quotes included. A run still open at the end of the text is
/// a token too.
pub fn scan(source: &str) -> (tokens: Vec<Token>)
    ensures
        views(tokens@) == lex(source@),
{
    let n = source.unicode_len();
    let mut tokens: Vec<Token> = Vec::new();
    let mut in_string = false;
    let mut start: usize = 0;
    let mut i: usize = 0;
    assert(views(tokens@) =~= seq![]);
    assert(seq![] + lex(source@) =~= lex(source@));
    while i < n
        invariant
            n == source@.len(),
            start <= i <= n,
            views(tokens@) + lex_from(source@, i as int, start as int, in_string) == lex(source@),
        decreases n - i,
    {
        let ghost before = views(tokens@);
        let c = source.get_char(i);
        if c == '"' && !in_string {
            push_pending(&mut tokens, source, start, i);
            assert(before + lex_from(source@, i as int, start as int, in_string) =~= views(tokens@)
                + lex_from(source@, i + 1, i as int, true));
            in_string = true;
            start = i;
        } else if c == '"' && in_string {
            push_quoted(&mut tokens, source, start, i + 1);
            assert(before + lex_from(source@, i as int, start as int, in_string) =~= views(tokens@)
                + lex_from(source@, i + 1, i + 1, false));
            in_string = false;
            start = i + 1;
        } else if !in_string && char_is_delimiter(c) {
            push_pending(&mut tokens, source, start, i);
            if !char_is_blank(c) {
                push_word(&mut tokens, source, i, i + 1);
            }
            assert(before + lex_from(source@, i as int, start as int, in_string) =~= views(tokens@)
                + lex_from(source@, i + 1, i + 1, false));
            start = i + 1;
        }
        i = i + 1;
    }
    if start < n {
        if in_string {
            push_quoted(&mut tokens, source, start, n);
        } else {
            push_word(&mut tokens, source, start, n);
        }
    }
    assert(views(tokens@) =~= lex(source@));
    tokens
}

} // verus!
