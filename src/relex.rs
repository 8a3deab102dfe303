//! Laws of the lexer: its tokens, written out again with single spaces
//! between them, lex back to the same tokens.
use vstd::prelude::*;
use crate::lexer::{TokenKind, is_blank, is_delimiter, lex, lex_from, pending, word};

verus! {

/// A token as the lexer can make it: a non-empty run of non-delimiters
/// classified by its text; a single delimiter that is neither blank nor a
/// quote; or a closed quoted string with no quote inside.
pub open spec fn well_formed(t: (TokenKind, Seq<char>)) -> bool {
    let x = t.1;
    ||| t == word(x) && x.len() > 0 && forall|j: int| 0 <= j < x.len() ==> !is_delimiter(x[j])
    ||| t == word(x) && x.len() == 1 && is_delimiter(x[0]) && !is_blank(x[0]) && x[0] != '"'
    ||| t.0 == TokenKind::Literal && x.len() >= 2 && x[0] == '"' && x[x.len() - 1] == '"'
        && forall|j: int| 0 < j < x.len() - 1 ==> x[j] != '"'
}

pub open spec fn all_well_formed(ts: Seq<(TokenKind, Seq<char>)>) -> bool {
    forall|k: int| 0 <= k < ts.len() ==> well_formed(#[trigger] ts[k])
}

/// Whether a quoted string is open after the first `i` characters: an odd
/// number of double quotes stand before `i`.
pub open spec fn open_after(s: Seq<char>, i: int) -> bool
    decreases i,
{
    if i <= 0 || i > s.len() {
        false
    } else if s[i - 1] == '"' {
        !open_after(s, i - 1)
    } else {
        open_after(s, i - 1)
    }
}

/// The lexemes of `ts` with one space between each two.
pub open spec fn spaced(ts: Seq<(TokenKind, Seq<char>)>) -> Seq<char>
    decreases ts.len(),
{
    if ts.len() == 0 {
        seq![]
    } else if ts.len() == 1 {
        ts[0].1
    } else {
        ts[0].1 + seq![' '] + spaced(ts.drop_first())
    }
}

proof fn lemma_shift(a: Seq<char>, b: Seq<char>, i: int, st: int, f: bool)
    requires
        0 <= st <= i <= b.len(),
    ensures
        lex_from(a + b, a.len() + i, a.len() + st, f) == lex_from(b, i, st, f),
    decreases b.len() - i,
{
    let s = a + b;
    let n = a.len() as int;
    if i < b.len() {
        assert(s[n + i] == b[i]);
        assert(s.subrange(n + st, n + i) =~= b.subrange(st, i));
        assert(s.subrange(n + i, n + i + 1) =~= b.subrange(i, i + 1));
        assert(s.subrange(n + st, n + i + 1) =~= b.subrange(st, i + 1));
        let c = b[i];
        if c == '"' && !f {
            lemma_shift(a, b, i + 1, i, true);
        } else if c == '"' && f {
            lemma_shift(a, b, i + 1, i + 1, false);
        } else if !f && is_delimiter(c) {
            lemma_shift(a, b, i + 1, i + 1, false);
        } else {
            lemma_shift(a, b, i + 1, st, f);
        }
    } else {
        assert(s.subrange(n + st, s.len() as int) =~= b.subrange(st, b.len() as int));
    }
}

proof fn lemma_walk_word(s: Seq<char>, i: int, start: int, n: int)
    requires
        0 <= start <= i <= n <= s.len(),
        forall|j: int| i <= j < n ==> !is_delimiter(s[j]),
    ensures
        lex_from(s, i, start, false) == lex_from(s, n, start, false),
    decreases n - i,
{
    if i < n {
        lemma_walk_word(s, i + 1, start, n);
    }
}

proof fn lemma_walk_string(s: Seq<char>, i: int, start: int, n: int)
    requires
        0 <= start <= i <= n <= s.len(),
        forall|j: int| i <= j < n ==> s[j] != '"',
    ensures
        lex_from(s, i, start, true) == lex_from(s, n, start, true),
    decreases n - i,
{
    if i < n {
        lemma_walk_string(s, i + 1, start, n);
    }
}

/// After one well-formed token at the start of `s`, lexing goes on at
/// index `m`, its end, with nothing pending.
proof fn lemma_lex_token(t: (TokenKind, Seq<char>), s: Seq<char>)
    requires
        well_formed(t),
        t.1.len() <= s.len(),
        s.subrange(0, t.1.len() as int) == t.1,
        s.len() == t.1.len() || s[t.1.len() as int] == ' ',
    ensures
        s.len() == t.1.len() ==> lex(s) == seq![t],
        s.len() > t.1.len() ==> lex(s) == seq![t] + lex_from(
            s,
            t.1.len() + 1 as int,
            t.1.len() + 1 as int,
            false,
        ),
{
    let x = t.1;
    let m = x.len() as int;
    assert forall|j: int| 0 <= j < m implies s[j] == x[j] by {
        assert(s.subrange(0, m)[j] == s[j]);
    }
    if m == 1 && is_delimiter(x[0]) {
        assert(s.subrange(0, 1) =~= x);
        assert(pending(s, 0, 0) =~= seq![]);
        if s.len() == 1 {
            assert(lex_from(s, 1, 1, false) =~= seq![]);
            assert(seq![] + seq![word(x)] + lex_from(s, 1, 1, false) =~= seq![t]);
        } else {
            assert(pending(s, 1, 1) =~= seq![]);
            assert(lex_from(s, 1, 1, false) =~= lex_from(s, 2, 2, false));
            assert(seq![] + seq![word(x)] + lex_from(s, 2, 2, false) =~= seq![t] + lex_from(
                s,
                2,
                2,
                false,
            ));
        }
    } else if x[0] == '"' {
        assert(pending(s, 0, 0) =~= seq![]);
        assert(lex(s) =~= lex_from(s, 1, 0, true));
        lemma_walk_string(s, 1, 0, m - 1);
        assert(s.subrange(0, m) == x);
        assert(lex_from(s, m - 1, 0, true) == seq![(TokenKind::Literal, x)] + lex_from(
            s,
            m,
            m,
            false,
        ));
        assert(t == (TokenKind::Literal, x));
        if s.len() == m {
            assert(lex_from(s, m, m, false) =~= seq![]);
            assert(seq![t] + seq![] =~= seq![t]);
        } else {
            assert(pending(s, m, m) =~= seq![]);
            assert(lex_from(s, m, m, false) =~= lex_from(s, m + 1, m + 1, false));
        }
    } else {
        assert(!is_delimiter(x[0]));
        assert(t == word(x));
        lemma_walk_word(s, 0, 0, m);
        if s.len() == m {
            assert(s.subrange(0, m) == x);
        } else {
            assert(pending(s, 0, m) == seq![word(x)]);
            assert(seq![word(x)] + seq![] + lex_from(s, m + 1, m + 1, false) =~= seq![t]
                + lex_from(s, m + 1, m + 1, false));
        }
    }
}

proof fn lemma_relex_tokens(ts: Seq<(TokenKind, Seq<char>)>)
    requires
        all_well_formed(ts),
    ensures
        lex(spaced(ts)) == ts,
    decreases ts.len(),
{
    if ts.len() == 0 {
        assert(lex(seq![]) =~= seq![]);
        assert(ts =~= seq![]);
    } else if ts.len() == 1 {
        let t = ts[0];
        assert(well_formed(ts[0]));
        assert(spaced(ts) == t.1);
        assert(t.1.subrange(0, t.1.len() as int) =~= t.1);
        lemma_lex_token(t, t.1);
        assert(ts =~= seq![t]);
    } else {
        let t = ts[0];
        let rest = ts.drop_first();
        assert(well_formed(ts[0]));
        assert forall|k: int| 0 <= k < rest.len() implies well_formed(#[trigger] rest[k]) by {
            assert(rest[k] == ts[k + 1]);
        }
        lemma_relex_tokens(rest);
        let a = t.1 + seq![' '];
        let s = a + spaced(rest);
        assert(spaced(ts) == s);
        assert(s.subrange(0, t.1.len() as int) =~= t.1);
        assert(s[t.1.len() as int] == ' ');
        lemma_lex_token(t, s);
        lemma_shift(a, spaced(rest), 0, 0, false);
        assert(ts =~= seq![t] + rest);
    }
}

proof fn lemma_lex_well_formed(s: Seq<char>, i: int, start: int, f: bool)
    requires
        0 <= start <= i <= s.len(),
        f ==> start < i && s[start] == '"' && forall|j: int| start < j < i ==> s[j] != '"',
        !f ==> forall|j: int| start <= j < i ==> !is_delimiter(s[j]),
        f == open_after(s, i),
        !open_after(s, s.len() as int),
    ensures
        all_well_formed(lex_from(s, i, start, f)),
    decreases s.len() - i,
{
    let r = lex_from(s, i, start, f);
    if i >= s.len() {
        if start < s.len() {
            let x = s.subrange(start, s.len() as int);
            assert(forall|j: int| 0 <= j < x.len() ==> x[j] == s[start + j]);
            assert(well_formed(word(x)));
        }
    } else {
        let c = s[i];
        let p = pending(s, start, i);
        assert(!f ==> all_well_formed(p)) by {
            if !f && start < i {
                let x = s.subrange(start, i);
                assert(forall|j: int| 0 <= j < x.len() ==> x[j] == s[start + j]);
                assert(well_formed(word(x)));
                assert(p[0] == word(x));
            }
        }
        if c == '"' && !f {
            lemma_lex_well_formed(s, i + 1, i, true);
            let q = lex_from(s, i + 1, i, true);
            assert forall|k: int| 0 <= k < r.len() implies well_formed(#[trigger] r[k]) by {
                if k < p.len() {
                    assert(r[k] == p[k]);
                } else {
                    assert(r[k] == q[k - p.len()]);
                }
            }
        } else if c == '"' && f {
            let x = s.subrange(start, i + 1);
            assert(forall|j: int| 0 <= j < x.len() ==> x[j] == s[start + j]);
            assert(well_formed((TokenKind::Literal, x)));
            lemma_lex_well_formed(s, i + 1, i + 1, false);
            let q = lex_from(s, i + 1, i + 1, false);
            assert forall|k: int| 0 <= k < r.len() implies well_formed(#[trigger] r[k]) by {
                if k >= 1 {
                    assert(r[k] == q[k - 1]);
                }
            }
        } else if !f && is_delimiter(c) {
            let mid: Seq<(TokenKind, Seq<char>)> = if is_blank(c) {
                seq![]
            } else {
                seq![word(s.subrange(i, i + 1))]
            };
            if !is_blank(c) {
                let x = s.subrange(i, i + 1);
                assert(x[0] == c);
                assert(well_formed(word(x)));
            }
            lemma_lex_well_formed(s, i + 1, i + 1, false);
            let q = lex_from(s, i + 1, i + 1, false);
            assert(r == p + mid + q);
            assert forall|k: int| 0 <= k < r.len() implies well_formed(#[trigger] r[k]) by {
                if k < p.len() {
                    assert(r[k] == p[k]);
                } else if k < p.len() + mid.len() {
                    assert(r[k] == mid[k - p.len()]);
                } else {
                    assert(r[k] == q[k - p.len() - mid.len()]);
                }
            }
        } else {
            lemma_lex_well_formed(s, i + 1, start, f);
        }
    }
}

/// Writing the tokens of a source out again, one space between each two
/// lexemes, and lexing that text gives back the same tokens, kinds and
/// lexemes alike, provided the source's double quotes pair up.
pub proof fn lemma_relex_spaced(s: Seq<char>)
    requires
        !open_after(s, s.len() as int),
    ensures
        lex(spaced(lex(s))) == lex(s),
{
    lemma_lex_well_formed(s, 0, 0, false);
    lemma_relex_tokens(lex(s));
}

} // verus!
