//! The identity function from its text: what the lexer and the parser
//! make of `fn f = x => y { y = x; }` for any names.

use vstd::prelude::*;
use crate::error::ErrorView;
use crate::laws::identity_func;
use crate::parser::empty_world;
use crate::parser::parse_source;
use crate::parser::parse_tokens;
use crate::syntax::ParsedWorldView;
use crate::text::is_lower;
use crate::text::is_lower_ident;
use crate::text::is_space;
use crate::text::is_word;
use crate::token::keyword_of;
use crate::token::lex;
use crate::token::lex_from;
use crate::token::scan;
use crate::token::space_end;
use crate::token::word_end;
use crate::token::word_token;
use crate::token::Keyword;
use crate::token::Scan;
use crate::token::TokenView;

verus! {

/// The text `fn f = x => y { y = x; }` with the names `f`, `x` and `y`.
pub open spec fn identity_text(f: Seq<char>, x: Seq<char>, y: Seq<char>) -> Seq<char> {
    seq!['f', 'n', ' '] + f + seq![' ', '=', ' '] + x + seq![' ', '=', '>', ' '] + y + seq![' ', '{', ' '] + y
        + seq![' ', '=', ' '] + x + seq![';', ' ', '}']
}

/// The tokens of the text `fn f = x => y { y = x; }`.
pub open spec fn identity_tokens(f: Seq<char>, x: Seq<char>, y: Seq<char>) -> Seq<TokenView> {
    seq![
        TokenView::Keyword(Keyword::Fn),
        TokenView::Ident(f),
        TokenView::Assign,
        TokenView::Ident(x),
        TokenView::Arrow,
        TokenView::Ident(y),
        TokenView::BraceLeft,
        TokenView::Ident(y),
        TokenView::Assign,
        TokenView::Ident(x),
        TokenView::Semicolon,
        TokenView::BraceRight,
    ]
}

/// Whether a name can stand for a function, a parameter or an assignee: a
/// lower-case identifier that is no keyword.
pub open spec fn plain_name(name: Seq<char>) -> bool {
    is_lower_ident(name) && keyword_of(name) is None
}

proof fn lemma_word_end(s: Seq<char>, i: int, n: int)
    requires
        0 <= i,
        0 <= n,
        i + n <= s.len(),
        forall|j: int| 0 <= j < n ==> is_word(#[trigger] s[i + j]),
        i + n == s.len() || !is_word(s[i + n]),
    ensures
        word_end(s, i) == i + n,
    decreases n,
{
    if n > 0 {
        assert(is_word(s[i + 0]));
        assert forall|j: int| 0 <= j < n - 1 implies is_word(#[trigger] s[i + 1 + j]) by {
            assert(is_word(s[i + (j + 1)]));
        }
        lemma_word_end(s, i + 1, n - 1);
    }
}

/// A name in a text, with no identifier character behind it, is lexed
/// as one identifier.
proof fn lemma_lex_name(s: Seq<char>, i: int, w: Seq<char>, found: Seq<TokenView>)
    requires
        0 <= i,
        i + w.len() <= s.len(),
        s.subrange(i, i + w.len()) == w,
        plain_name(w),
        i + w.len() == s.len() || !is_word(s[i + w.len()]),
    ensures
        lex_from(s, i, found) == lex_from(s, i + w.len(), found.push(TokenView::Ident(w))),
{
    let n = w.len() as int;
    assert forall|j: int| 0 <= j < n implies is_word(#[trigger] s[i + j]) by {
        assert(s.subrange(i, i + n)[j] == s[i + j]);
        assert(is_lower(w[j]) || crate::text::is_digit(w[j]) || w[j] == '_');
    }
    lemma_word_end(s, i, n);
    assert(s[i] == w[0]) by {
        assert(s.subrange(i, i + n)[0] == s[i]);
    }
    assert(is_lower(s[i]));
    assert(word_token(w) == Some(TokenView::Ident(w)));
    assert(scan(s, i) == Scan::Token(TokenView::Ident(w), i + n));
}

/// One blank before something that is no blank is skipped.
proof fn lemma_lex_space(s: Seq<char>, i: int, found: Seq<TokenView>)
    requires
        0 <= i < s.len(),
        s[i] == ' ',
        i + 1 == s.len() || !is_space(s[i + 1]),
    ensures
        lex_from(s, i, found) == lex_from(s, i + 1, found),
{
    assert(space_end(s, i) == i + 1) by {
        reveal_with_fuel(space_end, 3);
    }
    assert(scan(s, i) == Scan::Skip(i + 1));
}

/// Where the parts of the text `fn f = x => y { y = x; }` stand in it.
pub open spec fn laid_out(s: Seq<char>, f: Seq<char>, x: Seq<char>, y: Seq<char>) -> bool {
    let ef: int = 3 + f.len() as int;
    let px: int = ef + 3;
    let ex: int = px + x.len() as int;
    let py: int = ex + 4;
    let ey: int = py + y.len() as int;
    let qy: int = ey + 3;
    let fy: int = qy + y.len() as int;
    let qx: int = fy + 3;
    let fx: int = qx + x.len() as int;
    &&& s.len() == fx + 3
    &&& s[0] == 'f' && s[1] == 'n' && s[2] == ' '
    &&& s.subrange(3, ef) == f
    &&& s[ef] == ' ' && s[ef + 1] == '=' && s[ef + 2] == ' '
    &&& s.subrange(px, ex) == x
    &&& s[ex] == ' ' && s[ex + 1] == '=' && s[ex + 2] == '>' && s[ex + 3] == ' '
    &&& s.subrange(py, ey) == y
    &&& s[ey] == ' ' && s[ey + 1] == '{' && s[ey + 2] == ' '
    &&& s.subrange(qy, fy) == y
    &&& s[fy] == ' ' && s[fy + 1] == '=' && s[fy + 2] == ' '
    &&& s.subrange(qx, fx) == x
    &&& s[fx] == ';' && s[fx + 1] == ' ' && s[fx + 2] == '}'
}

proof fn lemma_identity_laid_out(f: Seq<char>, x: Seq<char>, y: Seq<char>)
    ensures
        laid_out(identity_text(f, x, y), f, x, y),
{
    let a = seq!['f', 'n', ' '] + f;
    let b = a + seq![' ', '=', ' '];
    let c = b + x;
    let d = c + seq![' ', '=', '>', ' '];
    let e = d + y;
    let g = e + seq![' ', '{', ' '];
    let h = g + y;
    let k = h + seq![' ', '=', ' '];
    let m = k + x;
    let s = m + seq![';', ' ', '}'];
    assert(s == identity_text(f, x, y));
    let ef: int = 3 + f.len() as int;
    let px: int = ef + 3;
    let ex: int = px + x.len() as int;
    let py: int = ex + 4;
    let ey: int = py + y.len() as int;
    let qy: int = ey + 3;
    let fy: int = qy + y.len() as int;
    let qx: int = fy + 3;
    let fx: int = qx + x.len() as int;
    assert(a.len() == ef && b.len() == px && c.len() == ex && d.len() == py && e.len() == ey && g.len() == qy
        && h.len() == fy && k.len() == qx && m.len() == fx);
    assert(s.subrange(0, fx) =~= m);
    assert(m.subrange(0, qx) =~= k);
    assert(k.subrange(0, fy) =~= h);
    assert(h.subrange(0, qy) =~= g);
    assert(g.subrange(0, ey) =~= e);
    assert(e.subrange(0, py) =~= d);
    assert(d.subrange(0, ex) =~= c);
    assert(c.subrange(0, px) =~= b);
    assert(b.subrange(0, ef) =~= a);
    assert forall|i: int| 0 <= i < fx implies s[i] == m[i] by {}
    assert forall|i: int| 0 <= i < qx implies s[i] == k[i] by {
        assert(m[i] == k[i]);
    }
    assert forall|i: int| 0 <= i < fy implies s[i] == h[i] by {
        assert(k[i] == h[i]);
    }
    assert forall|i: int| 0 <= i < qy implies s[i] == g[i] by {
        assert(h[i] == g[i]);
    }
    assert forall|i: int| 0 <= i < ey implies s[i] == e[i] by {
        assert(g[i] == e[i]);
    }
    assert forall|i: int| 0 <= i < py implies s[i] == d[i] by {
        assert(e[i] == d[i]);
    }
    assert forall|i: int| 0 <= i < ex implies s[i] == c[i] by {
        assert(d[i] == c[i]);
    }
    assert forall|i: int| 0 <= i < px implies s[i] == b[i] by {
        assert(c[i] == b[i]);
    }
    assert forall|i: int| 0 <= i < ef implies s[i] == a[i] by {
        assert(b[i] == a[i]);
    }
    assert(s[0] == 'f' && s[1] == 'n' && s[2] == ' ') by {
        assert(a[0] == 'f' && a[1] == 'n' && a[2] == ' ');
    }
    assert(s.subrange(3, ef) =~= f) by {
        assert forall|j: int| 0 <= j < f.len() implies s[3 + j] == f[j] by {
            assert(a[3 + j] == f[j]);
        }
    }
    assert(s[ef] == ' ' && s[ef + 1] == '=' && s[ef + 2] == ' ') by {
        assert(b[ef] == ' ' && b[ef + 1] == '=' && b[ef + 2] == ' ');
    }
    assert(s.subrange(px, ex) =~= x) by {
        assert forall|j: int| 0 <= j < x.len() implies s[px + j] == x[j] by {
            assert(c[px + j] == x[j]);
        }
    }
    assert(s[ex] == ' ' && s[ex + 1] == '=' && s[ex + 2] == '>' && s[ex + 3] == ' ') by {
        assert(d[ex] == ' ' && d[ex + 1] == '=' && d[ex + 2] == '>' && d[ex + 3] == ' ');
    }
    assert(s.subrange(py, ey) =~= y) by {
        assert forall|j: int| 0 <= j < y.len() implies s[py + j] == y[j] by {
            assert(e[py + j] == y[j]);
        }
    }
    assert(s[ey] == ' ' && s[ey + 1] == '{' && s[ey + 2] == ' ') by {
        assert(g[ey] == ' ' && g[ey + 1] == '{' && g[ey + 2] == ' ');
    }
    assert(s.subrange(qy, fy) =~= y) by {
        assert forall|j: int| 0 <= j < y.len() implies s[qy + j] == y[j] by {
            assert(h[qy + j] == y[j]);
        }
    }
    assert(s[fy] == ' ' && s[fy + 1] == '=' && s[fy + 2] == ' ') by {
        assert(k[fy] == ' ' && k[fy + 1] == '=' && k[fy + 2] == ' ');
    }
    assert(s.subrange(qx, fx) =~= x) by {
        assert forall|j: int| 0 <= j < x.len() implies s[qx + j] == x[j] by {
            assert(m[qx + j] == x[j]);
        }
    }
}

/// A name in a text between two blanks or before `;` is lexed as one
/// identifier, and the blank before what follows is skipped.
proof fn lemma_lex_name_then(s: Seq<char>, i: int, w: Seq<char>, found: Seq<TokenView>)
    requires
        0 <= i,
        i + w.len() < s.len(),
        s.subrange(i, i + w.len()) == w,
        plain_name(w),
        s[i + w.len()] == ' ',
        i + w.len() + 1 < s.len(),
        !is_space(s[i + w.len() + 1]),
    ensures
        lex_from(s, i, found) == lex_from(s, i + w.len() + 1, found.push(TokenView::Ident(w))),
{
    lemma_lex_name(s, i, w, found);
    lemma_lex_space(s, i + w.len(), found.push(TokenView::Ident(w)));
}

proof fn lemma_lex_head(s: Seq<char>, f: Seq<char>, x: Seq<char>, y: Seq<char>)
    requires
        laid_out(s, f, x, y),
        plain_name(f),
        plain_name(x),
        plain_name(y),
    ensures
        lex(s) == lex_from(
            s,
            3 + f.len() as int + 3 + x.len() as int + 4,
            seq![
                TokenView::Keyword(Keyword::Fn),
                TokenView::Ident(f),
                TokenView::Assign,
                TokenView::Ident(x),
                TokenView::Arrow,
            ],
        ),
{
    let ef: int = 3 + f.len() as int;
    let px: int = ef + 3;
    let ex: int = px + x.len() as int;
    let t0 = Seq::<TokenView>::empty();
    let word = seq!['f', 'n'];
    assert(s.subrange(0, 2) =~= word);
    assert forall|j: int| 0 <= j < 2 implies is_word(#[trigger] s[0 + j]) by {}
    lemma_word_end(s, 0, 2);
    assert(keyword_of(word) == Some(Keyword::Fn));
    assert(scan(s, 0) == Scan::Token(TokenView::Keyword(Keyword::Fn), 2));
    let t1 = t0.push(TokenView::Keyword(Keyword::Fn));
    assert(lex_from(s, 0, t0) == lex_from(s, 2, t1));
    assert(s.subrange(3, ef)[0] == s[3]);
    assert(is_lower(f[0]));
    lemma_lex_space(s, 2, t1);
    lemma_lex_name_then(s, 3, f, t1);
    let t2 = t1.push(TokenView::Ident(f));
    assert(scan(s, ef + 1) == Scan::Token(TokenView::Assign, ef + 2));
    let t3 = t2.push(TokenView::Assign);
    assert(lex_from(s, ef + 1, t2) == lex_from(s, ef + 2, t3));
    assert(s.subrange(px, ex)[0] == s[px]);
    assert(is_lower(x[0]));
    lemma_lex_space(s, ef + 2, t3);
    lemma_lex_name_then(s, px, x, t3);
    let t4 = t3.push(TokenView::Ident(x));
    assert(scan(s, ex + 1) == Scan::Token(TokenView::Arrow, ex + 3));
    let t5 = t4.push(TokenView::Arrow);
    assert(lex_from(s, ex + 1, t4) == lex_from(s, ex + 3, t5));
    assert(s.subrange(ex + 4, ex + 4 + y.len())[0] == s[ex + 4]);
    assert(is_lower(y[0]));
    lemma_lex_space(s, ex + 3, t5);
    assert(t5 =~= seq![
        TokenView::Keyword(Keyword::Fn),
        TokenView::Ident(f),
        TokenView::Assign,
        TokenView::Ident(x),
        TokenView::Arrow,
    ]);
}

proof fn lemma_lex_tail(s: Seq<char>, f: Seq<char>, x: Seq<char>, y: Seq<char>, found: Seq<TokenView>)
    requires
        laid_out(s, f, x, y),
        plain_name(f),
        plain_name(x),
        plain_name(y),
    ensures
        lex_from(s, 3 + f.len() as int + 3 + x.len() as int + 4, found) == Ok::<Seq<TokenView>, ErrorView>(
            found + seq![
                TokenView::Ident(y),
                TokenView::BraceLeft,
                TokenView::Ident(y),
                TokenView::Assign,
                TokenView::Ident(x),
                TokenView::Semicolon,
                TokenView::BraceRight,
            ],
        ),
{
    let py: int = 3 + f.len() as int + 3 + x.len() as int + 4;
    let ey: int = py + y.len() as int;
    let qy: int = ey + 3;
    let fy: int = qy + y.len() as int;
    let qx: int = fy + 3;
    let fx: int = qx + x.len() as int;
    lemma_lex_name_then(s, py, y, found);
    let t6 = found.push(TokenView::Ident(y));
    assert(scan(s, ey + 1) == Scan::Token(TokenView::BraceLeft, ey + 2));
    let t7 = t6.push(TokenView::BraceLeft);
    assert(lex_from(s, ey + 1, t6) == lex_from(s, ey + 2, t7));
    assert(s.subrange(qy, fy)[0] == s[qy]);
    assert(is_lower(y[0]));
    lemma_lex_space(s, ey + 2, t7);
    lemma_lex_name_then(s, qy, y, t7);
    let t8 = t7.push(TokenView::Ident(y));
    assert(scan(s, fy + 1) == Scan::Token(TokenView::Assign, fy + 2));
    let t9 = t8.push(TokenView::Assign);
    assert(lex_from(s, fy + 1, t8) == lex_from(s, fy + 2, t9));
    assert(s.subrange(qx, fx)[0] == s[qx]);
    assert(is_lower(x[0]));
    lemma_lex_space(s, fy + 2, t9);
    lemma_lex_name(s, qx, x, t9);
    let t10 = t9.push(TokenView::Ident(x));
    assert(scan(s, fx) == Scan::Token(TokenView::Semicolon, fx + 1));
    let t11 = t10.push(TokenView::Semicolon);
    assert(lex_from(s, fx, t10) == lex_from(s, fx + 1, t11));
    lemma_lex_space(s, fx + 1, t11);
    assert(scan(s, fx + 2) == Scan::Token(TokenView::BraceRight, fx + 3));
    let t12 = t11.push(TokenView::BraceRight);
    assert(lex_from(s, fx + 2, t11) == lex_from(s, fx + 3, t12));
    assert(lex_from(s, fx + 3, t12) == Ok::<Seq<TokenView>, ErrorView>(t12));
    assert(t12 =~= found + seq![
        TokenView::Ident(y),
        TokenView::BraceLeft,
        TokenView::Ident(y),
        TokenView::Assign,
        TokenView::Ident(x),
        TokenView::Semicolon,
        TokenView::BraceRight,
    ]);
}

/// The lexer makes of the text `fn f = x => y { y = x; }` its twelve
/// tokens, whatever the names.
pub proof fn lemma_identity_lexes(f: Seq<char>, x: Seq<char>, y: Seq<char>)
    requires
        plain_name(f),
        plain_name(x),
        plain_name(y),
    ensures
        lex(identity_text(f, x, y)) == Ok::<Seq<TokenView>, ErrorView>(identity_tokens(f, x, y)),
{
    let s = identity_text(f, x, y);
    lemma_identity_laid_out(f, x, y);
    lemma_lex_head(s, f, x, y);
    let head = seq![
        TokenView::Keyword(Keyword::Fn),
        TokenView::Ident(f),
        TokenView::Assign,
        TokenView::Ident(x),
        TokenView::Arrow,
    ];
    lemma_lex_tail(s, f, x, y, head);
    assert(head + seq![
        TokenView::Ident(y),
        TokenView::BraceLeft,
        TokenView::Ident(y),
        TokenView::Assign,
        TokenView::Ident(x),
        TokenView::Semicolon,
        TokenView::BraceRight,
    ] =~= identity_tokens(f, x, y));
}

/// What the text `fn f = x => y { y = x; }` holds: the one function.
pub open spec fn identity_world(f: Seq<char>, x: Seq<char>, y: Seq<char>) -> ParsedWorldView {
    ParsedWorldView {
        settings: Seq::empty(),
        funcs: seq![identity_func(f, x, y)],
        ants: Seq::empty(),
        imports: Seq::empty(),
        no_std: false,
    }
}

proof fn lemma_identity_signature(f: Seq<char>, x: Seq<char>, y: Seq<char>)
    requires
        plain_name(f),
        plain_name(x),
        plain_name(y),
        f != x,
        f != y,
        x != y,
    ensures
        crate::parser::signature_at(identity_tokens(f, x, y), 3, f) == Ok::<
            (crate::syntax::SignatureView, int),
            ErrorView,
        >((identity_func(f, x, y).signature, 6)),
{
    let ts = identity_tokens(f, x, y);
    let px = crate::syntax::ParamValueView { sign: false, target: x };
    let py = crate::syntax::ParamValueView { sign: false, target: y };
    assert(ts[3] == TokenView::Ident(x) && ts[4] == TokenView::Arrow && ts[5] == TokenView::Ident(y));
    assert(crate::parser::tuple_at(ts, 3, false) == Ok::<
        (Seq<crate::syntax::ParamValueView>, int),
        ErrorView,
    >((seq![px], 4)));
    assert(crate::parser::tuple_at(ts, 5, false) == Ok::<
        (Seq<crate::syntax::ParamValueView>, int),
        ErrorView,
    >((seq![py], 6)));
    assert(crate::parser::targets(seq![px]) =~= seq![x]);
    assert(crate::parser::targets(seq![py]) =~= seq![y]);
    let signature = identity_func(f, x, y).signature;
    let all = seq![signature.name] + signature.params + signature.assignees;
    assert(all =~= seq![f, x, y]);
    assert(all.no_duplicates());
    assert(crate::parser::signature_ok(signature));
}

proof fn lemma_identity_body(f: Seq<char>, x: Seq<char>, y: Seq<char>)
    ensures
        crate::parser::body_at(identity_tokens(f, x, y), 6) == Ok::<
            (Seq<crate::syntax::StatementView>, int),
            ErrorView,
        >((identity_func(f, x, y).statements, 12)),
{
    let ts = identity_tokens(f, x, y);
    let py = crate::syntax::ParamValueView { sign: false, target: y };
    let leaf = crate::syntax::ExpressionView { ident: x, sign: false, params: None };
    assert(ts[6] == TokenView::BraceLeft && ts[7] == TokenView::Ident(y) && ts[8] == TokenView::Assign
        && ts[9] == TokenView::Ident(x) && ts[10] == TokenView::Semicolon && ts[11]
        == TokenView::BraceRight);
    assert(crate::parser::tuple_at(ts, 7, true) == Ok::<
        (Seq<crate::syntax::ParamValueView>, int),
        ErrorView,
    >((seq![py], 8)));
    assert(crate::parser::push_leaf(Seq::empty(), leaf) =~= seq![seq![leaf]]);
    assert(crate::parser::expression_at(ts, 9) == Ok::<(crate::syntax::ExpressionView, int), ErrorView>(
        (leaf, 10),
    )) by {
        reveal_with_fuel(crate::parser::expression_from, 3);
    }
    let statement = crate::syntax::StatementView { assignees: seq![py], expression: leaf };
    assert(crate::parser::statement_at(ts, 7) == Ok::<(crate::syntax::StatementView, int), ErrorView>(
        (statement, 11),
    ));
    assert(Seq::<crate::syntax::StatementView>::empty().push(statement) =~= seq![statement]);
    assert(crate::parser::statements_from(ts, 7, Seq::empty()) == Ok::<
        (Seq<crate::syntax::StatementView>, int),
        ErrorView,
    >((seq![statement], 12))) by {
        reveal_with_fuel(crate::parser::statements_from, 3);
    }
    assert(identity_func(f, x, y).statements =~= seq![statement]);
}

/// The parser makes of the twelve tokens the one function, whatever the
/// names, as long as they are three different names.
pub proof fn lemma_identity_parses(f: Seq<char>, x: Seq<char>, y: Seq<char>)
    requires
        plain_name(f),
        plain_name(x),
        plain_name(y),
        f != x,
        f != y,
        x != y,
    ensures
        parse_tokens(identity_tokens(f, x, y)) == Ok::<ParsedWorldView, ErrorView>(identity_world(f, x, y)),
{
    let ts = identity_tokens(f, x, y);
    lemma_identity_signature(f, x, y);
    lemma_identity_body(f, x, y);
    assert(ts[0] == TokenView::Keyword(Keyword::Fn) && ts[1] == TokenView::Ident(f) && ts[2]
        == TokenView::Assign);
    let func = identity_func(f, x, y);
    assert(crate::parser::func_at(ts, 2, f) == Ok::<(crate::syntax::FuncView, int), ErrorView>((func, 12)));
    assert(empty_world().funcs.push(func) =~= seq![func]);
    assert(crate::parser::item_after(ts, 1, Keyword::Fn, empty_world()) == Ok::<
        (ParsedWorldView, int),
        ErrorView,
    >((identity_world(f, x, y), 12)));
    assert(crate::parser::world_from(ts, 0, empty_world()) == Ok::<ParsedWorldView, ErrorView>(
        identity_world(f, x, y),
    )) by {
        reveal_with_fuel(crate::parser::world_from, 3);
    }
}

/// The text `fn f = x => y { y = x; }` compiles to the truth table
/// `[0, 1]` with one input and one output, for any three different names
/// `f`, `x` and `y` that are lower-case identifiers and no keywords.
pub proof fn lemma_identity_text_table(f: Seq<char>, x: Seq<char>, y: Seq<char>)
    requires
        plain_name(f),
        plain_name(x),
        plain_name(y),
        f != x,
        f != y,
        x != y,
    ensures
        parse_source(identity_text(f, x, y)) == Ok::<ParsedWorldView, ErrorView>(identity_world(f, x, y)),
        crate::linker::compile_func_spec(
            identity_text(f, x, y),
            crate::syntax::SignatureSpecView { name: f, assignee_count: 1, param_count: 1 },
        ) matches Ok(table) && table.entries == seq![0u32, 1u32] && table.input_count == 1
            && table.output_count == 1,
{
    lemma_identity_lexes(f, x, y);
    lemma_identity_parses(f, x, y);
    crate::laws::lemma_identity_program(identity_text(f, x, y), f, x, y);
}

} // verus!
