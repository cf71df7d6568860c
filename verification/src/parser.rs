//! The parser: a token stream to the parsed form of a source file.

use vstd::prelude::*;
use crate::error::CompileError;
use crate::error::ErrorKind;
use crate::error::at;
use crate::error::ErrorView;
use crate::error::bare;
use crate::syntax::AntFunc;
use crate::syntax::AntFuncView;
use crate::syntax::Expression;
use crate::syntax::ExpressionView;
use crate::syntax::Func;
use crate::syntax::FuncView;
use crate::syntax::ParamValue;
use crate::syntax::ParamValueView;
use crate::syntax::ParsedWorld;
use crate::syntax::ParsedWorldView;
use crate::syntax::Setting;
use crate::syntax::SettingView;
use crate::syntax::Signature;
use crate::syntax::SignatureView;
use crate::syntax::Statement;
use crate::syntax::StatementView;
use crate::text::chars_are_lower_ident;
use crate::text::chars_of;
use crate::text::is_lower_ident;
use crate::text::str_eq;
use crate::token::lex;
use crate::token::Keyword;
use crate::token::Token;
use crate::token::TokenView;
use crate::util::find_dupe;
use crate::views::lemma_views_empty;
use crate::views::lemma_views_push;
use crate::views::views;

verus! {

/// The name of the function that an `ant` item binds to id 1 when it gives
/// no id.
pub open spec fn main_name() -> Seq<char> {
    seq!['m', 'a', 'i', 'n']
}

/// The token at `pos`; `EndOfFile` behind the last one.
pub open spec fn token_at(ts: Seq<TokenView>, pos: int) -> TokenView {
    if 0 <= pos < ts.len() {
        ts[pos]
    } else {
        TokenView::EndOfFile
    }
}

/// The position behind the token at `pos`; `pos` itself at the end.
pub open spec fn advance(ts: Seq<TokenView>, pos: int) -> int {
    if 0 <= pos < ts.len() {
        pos + 1
    } else {
        pos
    }
}

/// The identifier at `pos` and the position behind it.
pub open spec fn ident_at(ts: Seq<TokenView>, pos: int) -> Result<(Seq<char>, int), ErrorView> {
    match token_at(ts, pos) {
        TokenView::Ident(name) => Ok((name, pos + 1)),
        _ => Err(bare(ErrorKind::ParseUnexpected)),
    }
}

/// An assignee at `pos`: an optional `+`, an optional `-`, a name.
pub open spec fn assignee_at(ts: Seq<TokenView>, pos: int) -> Result<(ParamValueView, int), ErrorView> {
    let pos1 = if token_at(ts, pos) == TokenView::Invert(false) {
        pos + 1
    } else {
        pos
    };
    let sign = token_at(ts, pos1) == TokenView::Invert(true);
    let pos2 = if sign {
        pos1 + 1
    } else {
        pos1
    };
    match ident_at(ts, pos2) {
        Ok((name, pos3)) => Ok((ParamValueView { sign, target: name }, pos3)),
        Err(e) => Err(e),
    }
}

/// One item of a tuple: an assignee where `signed`, else a bare name.
pub open spec fn item_at(ts: Seq<TokenView>, pos: int, signed: bool) -> Result<
    (ParamValueView, int),
    ErrorView,
> {
    if signed {
        assignee_at(ts, pos)
    } else {
        match ident_at(ts, pos) {
            Ok((name, next)) => Ok((ParamValueView { sign: false, target: name }, next)),
            Err(e) => Err(e),
        }
    }
}

/// The items of a tuple from `pos` on, up to and with the closing bracket.
pub open spec fn items_from(
    ts: Seq<TokenView>,
    pos: int,
    signed: bool,
    found: Seq<ParamValueView>,
) -> Result<(Seq<ParamValueView>, int), ErrorView>
    decreases ts.len() - pos,
{
    match item_at(ts, pos, signed) {
        Err(e) => Err(e),
        Ok((item, next)) => if token_at(ts, next) == TokenView::Comma {
            if pos < next < ts.len() {
                items_from(ts, next + 1, signed, found.push(item))
            } else {
                Err(bare(ErrorKind::ParseUnexpected))
            }
        } else if token_at(ts, next) == TokenView::ParenthesisRight {
            Ok((found.push(item), next + 1))
        } else {
            Err(bare(ErrorKind::ParseUnexpected))
        },
    }
}

/// A tuple at `pos`: `()`, `(item, ...)` or a single item without brackets.
pub open spec fn tuple_at(ts: Seq<TokenView>, pos: int, signed: bool) -> Result<
    (Seq<ParamValueView>, int),
    ErrorView,
> {
    if token_at(ts, pos) == TokenView::ParenthesisLeft {
        if token_at(ts, pos + 1) == TokenView::ParenthesisRight {
            Ok((Seq::empty(), pos + 2))
        } else {
            items_from(ts, pos + 1, signed, Seq::empty())
        }
    } else {
        match item_at(ts, pos, signed) {
            Ok((item, next)) => Ok((seq![item], next)),
            Err(e) => Err(e),
        }
    }
}

/// The names of a list of unsigned items.
pub open spec fn targets(items: Seq<ParamValueView>) -> Seq<Seq<char>> {
    items.map_values(|p: ParamValueView| p.target)
}

/// What the last token of an expression was, as far as the next one
/// depends on it.
#[derive(Clone, Copy, Debug, PartialEq, Eq, Structural)]
pub enum ExpPrev {
    /// The start of the expression, or `(`.
    Open,
    Ident,
    Invert,
    /// `)`.
    Close,
    Comma,
}

/// Whether `next` may follow inside an expression.
pub open spec fn exp_allowed(prev: ExpPrev, next: TokenView) -> bool {
    match prev {
        ExpPrev::Ident => next is ParenthesisLeft || next is ParenthesisRight || next is Comma
            || next is Semicolon,
        ExpPrev::Invert => next is Ident,
        ExpPrev::Open => next is Ident || next is Invert || next is ParenthesisRight,
        ExpPrev::Close => next is ParenthesisRight || next is Comma || next is Semicolon,
        ExpPrev::Comma => next is Ident || next is Invert,
    }
}

/// The argument sets that are open, outermost first, with a new expression
/// added to the innermost.
pub open spec fn push_leaf(sets: Seq<Seq<ExpressionView>>, e: ExpressionView) -> Seq<
    Seq<ExpressionView>,
> {
    if sets.len() == 0 {
        seq![seq![e]]
    } else {
        sets.drop_last().push(sets.last().push(e))
    }
}

/// The innermost argument set closed: it becomes the arguments of the last
/// expression of the set around it. `None` where there is no such expression.
pub open spec fn close_set(sets: Seq<Seq<ExpressionView>>) -> Option<Seq<Seq<ExpressionView>>> {
    if sets.len() >= 2 && sets[sets.len() - 2].len() > 0 {
        let args = sets.last();
        let outer = sets[sets.len() - 2];
        let f = outer.last();
        let call = ExpressionView { ident: f.ident, sign: f.sign, params: Some(args) };
        Some(sets.drop_last().drop_last().push(outer.drop_last().push(call)))
    } else {
        None
    }
}

/// The expression that starts at `pos`, read token by token: `prev` is the
/// kind of the last token, `sign` the pending sign, `sets` the open
/// argument sets. The result's position is that of the closing `;`.
pub open spec fn expression_from(
    ts: Seq<TokenView>,
    pos: int,
    prev: ExpPrev,
    sign: bool,
    sets: Seq<Seq<ExpressionView>>,
) -> Result<(ExpressionView, int), ErrorView>
    decreases ts.len() - pos,
{
    let t = token_at(ts, pos);
    if pos < 0 || pos >= ts.len() || !exp_allowed(prev, t) {
        Err(bare(ErrorKind::ParseUnexpected))
    } else {
        match t {
            TokenView::Ident(name) => expression_from(
                ts,
                pos + 1,
                ExpPrev::Ident,
                false,
                push_leaf(sets, ExpressionView { ident: name, sign, params: None }),
            ),
            TokenView::Invert(b) => expression_from(ts, pos + 1, ExpPrev::Invert, b, sets),
            TokenView::ParenthesisLeft => expression_from(
                ts,
                pos + 1,
                ExpPrev::Open,
                sign,
                sets.push(Seq::empty()),
            ),
            TokenView::ParenthesisRight => match close_set(sets) {
                Some(closed) => expression_from(ts, pos + 1, ExpPrev::Close, sign, closed),
                None => Err(bare(ErrorKind::ParseUnmatchedParen)),
            },
            TokenView::Comma => expression_from(ts, pos + 1, ExpPrev::Comma, sign, sets),
            TokenView::Semicolon => if sets.len() == 1 && sets[0].len() > 0 {
                Ok((sets[0].last(), pos))
            } else {
                Err(bare(ErrorKind::ParseUnmatchedParen))
            },
            _ => Err(bare(ErrorKind::ParseUnexpected)),
        }
    }
}

/// The expression that starts at `pos`, and the position of its `;`.
pub open spec fn expression_at(ts: Seq<TokenView>, pos: int) -> Result<(ExpressionView, int), ErrorView> {
    expression_from(ts, pos, ExpPrev::Open, false, Seq::empty())
}

/// One statement: assignees, `=`, an expression, `;`.
pub open spec fn statement_at(ts: Seq<TokenView>, pos: int) -> Result<(StatementView, int), ErrorView> {
    match tuple_at(ts, pos, true) {
        Err(e) => Err(e),
        Ok((assignees, pos1)) => if token_at(ts, pos1) != TokenView::Assign {
            Err(bare(ErrorKind::ParseUnexpected))
        } else {
            match expression_at(ts, pos1 + 1) {
                Err(e) => Err(e),
                Ok((expression, pos2)) => if token_at(ts, pos2) != TokenView::Semicolon {
                    Err(bare(ErrorKind::ParseUnexpected))
                } else {
                    Ok((StatementView { assignees, expression }, pos2 + 1))
                },
            }
        },
    }
}

/// The statements from `pos` on, up to and with the closing brace.
pub open spec fn statements_from(ts: Seq<TokenView>, pos: int, found: Seq<StatementView>) -> Result<
    (Seq<StatementView>, int),
    ErrorView,
>
    decreases ts.len() - pos,
{
    if token_at(ts, pos) == TokenView::BraceRight {
        Ok((found, pos + 1))
    } else {
        match statement_at(ts, pos) {
            Err(e) => Err(e),
            Ok((statement, next)) => if pos < next <= ts.len() {
                statements_from(ts, next, found.push(statement))
            } else {
                Err(bare(ErrorKind::ParseUnexpected))
            },
        }
    }
}

/// A body: `{`, statements, `}`.
pub open spec fn body_at(ts: Seq<TokenView>, pos: int) -> Result<(Seq<StatementView>, int), ErrorView> {
    if token_at(ts, pos) != TokenView::BraceLeft {
        Err(bare(ErrorKind::ParseUnexpected))
    } else {
        statements_from(ts, pos + 1, Seq::empty())
    }
}

/// Whether a signature's names are lower-case identifiers, all different.
pub open spec fn signature_ok(signature: SignatureView) -> bool {
    let all = seq![signature.name] + signature.params + signature.assignees;
    &&& forall|i: int| 0 <= i < all.len() ==> is_lower_ident(#[trigger] all[i])
    &&& all.no_duplicates()
}

/// A signature behind the function's name: parameters, `=>`, assignees.
pub open spec fn signature_at(ts: Seq<TokenView>, pos: int, name: Seq<char>) -> Result<
    (SignatureView, int),
    ErrorView,
> {
    match tuple_at(ts, pos, false) {
        Err(e) => Err(e),
        Ok((params, pos1)) => if token_at(ts, pos1) != TokenView::Arrow {
            Err(bare(ErrorKind::ParseUnexpected))
        } else {
            match tuple_at(ts, pos1 + 1, false) {
                Err(e) => Err(e),
                Ok((assignees, pos2)) => {
                    let signature = SignatureView {
                        name,
                        assignees: targets(assignees),
                        params: targets(params),
                    };
                    if signature_ok(signature) {
                        Ok((signature, pos2))
                    } else {
                        Err(at(ErrorKind::ParseSignature, name))
                    }
                },
            }
        },
    }
}

/// A function behind its name: `=`, a signature, a body.
pub open spec fn func_at(ts: Seq<TokenView>, pos: int, name: Seq<char>) -> Result<(FuncView, int), ErrorView> {
    if token_at(ts, pos) != TokenView::Assign {
        Err(bare(ErrorKind::ParseUnexpected))
    } else {
        match signature_at(ts, pos + 1, name) {
            Err(e) => Err(e),
            Ok((signature, pos1)) => match body_at(ts, pos1) {
                Err(e) => Err(e),
                Ok((statements, pos2)) => Ok((FuncView { signature, statements }, pos2)),
            },
        }
    }
}

/// The id that an `ant` item binds: the number or bit behind `=`, or 1 for
/// `main` without `=`.
pub open spec fn ant_id_at(ts: Seq<TokenView>, pos: int, name: Seq<char>) -> Result<(u8, int), ErrorView> {
    if token_at(ts, pos) == TokenView::Assign {
        match token_at(ts, pos + 1) {
            TokenView::Number(n) => if n <= 255 {
                Ok((n as u8, pos + 2))
            } else {
                Err(at(ErrorKind::ParseAntId, name))
            },
            TokenView::Bit(b) => Ok((if b { 1u8 } else { 0u8 }, pos + 2)),
            _ => Err(at(ErrorKind::ParseUnexpected, name)),
        }
    } else if name == main_name() {
        Ok((1u8, pos))
    } else {
        Err(at(ErrorKind::ParseAntId, name))
    }
}

/// An ant behind its name: an id and a body. The body becomes a function
/// without parameters and assignees.
pub open spec fn ant_at(ts: Seq<TokenView>, pos: int, name: Seq<char>) -> Result<
    (FuncView, AntFuncView, int),
    ErrorView,
> {
    match ant_id_at(ts, pos, name) {
        Err(e) => Err(e),
        Ok((id, pos1)) => match body_at(ts, pos1) {
            Err(e) => Err(e),
            Ok((statements, pos2)) => Ok(
                (
                    FuncView {
                        signature: SignatureView { name, assignees: Seq::empty(), params: Seq::empty() },
                        statements,
                    },
                    AntFuncView { target_name: name, target_id: id },
                    pos2,
                ),
            ),
        },
    }
}

/// A setting behind `set`: a key, an optional `=`, one token, `;`.
pub open spec fn setting_at(ts: Seq<TokenView>, pos: int) -> Result<(SettingView, int), ErrorView> {
    match ident_at(ts, pos) {
        Err(e) => Err(e),
        Ok((key, pos1)) => {
            let pos2 = if token_at(ts, pos1) == TokenView::Assign {
                pos1 + 1
            } else {
                pos1
            };
            let value = token_at(ts, pos2);
            let pos3 = advance(ts, pos2);
            if token_at(ts, pos3) != TokenView::Semicolon {
                Err(bare(ErrorKind::ParseUnexpected))
            } else {
                Ok((SettingView { key, value }, pos3 + 1))
            }
        },
    }
}

/// One top-level item behind its keyword, added to `world`.
pub open spec fn item_after(ts: Seq<TokenView>, pos: int, keyword: Keyword, world: ParsedWorldView) -> Result<
    (ParsedWorldView, int),
    ErrorView,
> {
    match keyword {
        Keyword::Use => match token_at(ts, pos) {
            TokenView::String(path) => if token_at(ts, pos + 1) != TokenView::Semicolon {
                Err(bare(ErrorKind::ParseUnexpected))
            } else {
                Ok((ParsedWorldView { imports: world.imports.push(path), ..world }, pos + 2))
            },
            _ => Err(bare(ErrorKind::ParseUnexpected)),
        },
        Keyword::Setting => match setting_at(ts, pos) {
            Err(e) => Err(e),
            Ok((setting, next)) => Ok(
                (ParsedWorldView { settings: world.settings.push(setting), ..world }, next),
            ),
        },
        Keyword::Fn => match ident_at(ts, pos) {
            Err(e) => Err(e),
            Ok((name, pos1)) => match func_at(ts, pos1, name) {
                Err(e) => Err(e),
                Ok((func, pos2)) => Ok((ParsedWorldView { funcs: world.funcs.push(func), ..world }, pos2)),
            },
        },
        Keyword::Ant => match ident_at(ts, pos) {
            Err(e) => Err(e),
            Ok((name, pos1)) => match ant_at(ts, pos1, name) {
                Err(e) => Err(e),
                Ok((func, ant, pos2)) => Ok(
                    (
                        ParsedWorldView {
                            funcs: world.funcs.push(func),
                            ants: world.ants.push(ant),
                            ..world
                        },
                        pos2,
                    ),
                ),
            },
        },
        Keyword::NoStd => if token_at(ts, pos) != TokenView::Semicolon {
            Err(bare(ErrorKind::ParseUnexpected))
        } else {
            Ok((ParsedWorldView { no_std: true, ..world }, pos + 1))
        },
    }
}

/// The items from `pos` on, added to `world`, up to the end of the tokens.
pub open spec fn world_from(ts: Seq<TokenView>, pos: int, world: ParsedWorldView) -> Result<
    ParsedWorldView,
    ErrorView,
>
    decreases ts.len() - pos,
{
    match token_at(ts, pos) {
        TokenView::EndOfFile => Ok(world),
        TokenView::Keyword(keyword) => match item_after(ts, pos + 1, keyword, world) {
            Err(e) => Err(e),
            Ok((next_world, next)) => if pos < next <= ts.len() {
                world_from(ts, next, next_world)
            } else {
                Err(bare(ErrorKind::ParseUnexpected))
            },
        },
        _ => Err(bare(ErrorKind::ParseUnexpected)),
    }
}

/// A file without items.
pub open spec fn empty_world() -> ParsedWorldView {
    ParsedWorldView {
        settings: Seq::empty(),
        funcs: Seq::empty(),
        ants: Seq::empty(),
        imports: Seq::empty(),
        no_std: false,
    }
}

/// What a token stream holds.
pub open spec fn parse_tokens(ts: Seq<TokenView>) -> Result<ParsedWorldView, ErrorView> {
    world_from(ts, 0, empty_world())
}

/// What a source text holds: its tokens, parsed.
pub open spec fn parse_source(code: Seq<char>) -> Result<ParsedWorldView, ErrorView> {
    match lex(code) {
        Err(e) => Err(e),
        Ok(ts) => parse_tokens(ts),
    }
}

/// A cursor over a token stream.
#[derive(Debug)]
pub struct Parser {
    tokens: Vec<Token>,
    pos: usize,
}

/// The tokens that a parser reads and how far it has come.
pub struct ParserView {
    pub tokens: Seq<TokenView>,
    pub pos: int,
}

impl View for Parser {
    type V = ParserView;

    closed spec fn view(&self) -> ParserView {
        ParserView { tokens: views(self.tokens@), pos: self.pos as int }
    }
}

/// The views of the open argument sets.
pub open spec fn sets_view(sets: Seq<Vec<Expression>>) -> Seq<Seq<ExpressionView>> {
    sets.map_values(|v: Vec<Expression>| views(v@))
}

fn exp_allowed_exec(prev: ExpPrev, next: &Token) -> (r: bool)
    ensures
        r == exp_allowed(prev, next@),
{
    match prev {
        ExpPrev::Ident => match next {
            Token::ParenthesisLeft | Token::ParenthesisRight | Token::Comma | Token::Semicolon => true,
            _ => false,
        },
        ExpPrev::Invert => match next {
            Token::Ident(_) => true,
            _ => false,
        },
        ExpPrev::Open => match next {
            Token::Ident(_) | Token::Invert(_) | Token::ParenthesisRight => true,
            _ => false,
        },
        ExpPrev::Close => match next {
            Token::ParenthesisRight | Token::Comma | Token::Semicolon => true,
            _ => false,
        },
        ExpPrev::Comma => match next {
            Token::Ident(_) | Token::Invert(_) => true,
            _ => false,
        },
    }
}

/// The names of a list of items.
fn names_of(items: &Vec<ParamValue>) -> (r: Vec<String>)
    ensures
        views(r@) == targets(views(items@)),
{
    let mut out: Vec<String> = Vec::new();
    let mut i: usize = 0;
    while i < items.len()
        invariant
            i <= items@.len(),
            out@.len() == i,
            forall|j: int| 0 <= j < i ==> out@[j]@ == items@[j].target@,
        decreases items@.len() - i,
    {
        out.push(items[i].target.clone());
        i += 1;
    }
    assert(views(out@) =~= targets(views(items@)));
    out
}

impl Signature {
    /// Whether the names of the signature are lower-case identifiers, all
    /// different: the function's name, its parameters and its assignees.
    pub fn validate(&self) -> (r: Result<(), CompileError>)
        ensures
            r is Ok <==> signature_ok(self@),
            r matches Err(e) ==> e@ == at(ErrorKind::ParseSignature, self@.name),
    {
        let mut all: Vec<String> = Vec::new();
        all.push(self.name.clone());
        let mut i: usize = 0;
        while i < self.params.len()
            invariant
                i <= self.params@.len(),
                views(all@) == seq![self.name@] + views(self.params@).take(i as int),
            decreases self.params@.len() - i,
        {
            proof {
                lemma_views_push(all@, self.params@[i as int]);
                assert((seq![self.name@] + views(self.params@).take(i as int)).push(
                    self.params@[i as int]@,
                ) =~= seq![self.name@] + views(self.params@).take(i + 1));
            }
            all.push(self.params[i].clone());
            i += 1;
        }
        assert(views(self.params@).take(self.params@.len() as int) =~= views(self.params@));
        let mut j: usize = 0;
        while j < self.assignees.len()
            invariant
                j <= self.assignees@.len(),
                views(all@) == seq![self.name@] + views(self.params@) + views(self.assignees@).take(
                    j as int,
                ),
            decreases self.assignees@.len() - j,
        {
            proof {
                lemma_views_push(all@, self.assignees@[j as int]);
                assert((seq![self.name@] + views(self.params@) + views(self.assignees@).take(
                    j as int,
                )).push(self.assignees@[j as int]@) =~= seq![self.name@] + views(self.params@)
                    + views(self.assignees@).take(j + 1));
            }
            all.push(self.assignees[j].clone());
            j += 1;
        }
        assert(views(self.assignees@).take(self.assignees@.len() as int) =~= views(
            self.assignees@,
        ));
        let ghost names = seq![self.name@] + self.view().params + self.view().assignees;
        assert(views(all@) == names);
        let mut k: usize = 0;
        while k < all.len()
            invariant
                k <= all@.len(),
                views(all@) == names,
                names == seq![self@.name] + self@.params + self@.assignees,
                forall|m: int| 0 <= m < k ==> is_lower_ident(#[trigger] names[m]),
            decreases all@.len() - k,
        {
            let chars = chars_of(all[k].as_str());
            assert(views(all@)[k as int] == all@[k as int]@);
            if !chars_are_lower_ident(&chars) {
                proof {
                    let listed = seq![self@.name] + self@.params + self@.assignees;
                    assert(listed == names);
                    assert(0 <= k < listed.len());
                    assert(!is_lower_ident(listed[k as int]));
                    assert(!signature_ok(self@));
                }
                return Err(CompileError::about(ErrorKind::ParseSignature, self.name.as_str()));
            }
            k += 1;
        }
        match find_dupe(&all) {
            Some(_) => Err(CompileError::about(ErrorKind::ParseSignature, self.name.as_str())),
            None => Ok(()),
        }
    }
}

impl Parser {
    #[verifier::type_invariant]
    spec fn inv(self) -> bool {
        self.pos <= self.tokens@.len()
    }

    /// A parser at the start of the tokens of `code`; `LexInvalid` where the
    /// text is no token stream.
    pub fn new(code: &str) -> (r: Result<Parser, CompileError>)
        ensures
            match r {
                Ok(p) => lex(code@) == Ok::<Seq<TokenView>, ErrorView>(p@.tokens) && p@.pos == 0,
                Err(e) => lex(code@) == Err::<Seq<TokenView>, ErrorView>(e@),
            },
    {
        match Token::tokenize(code) {
            Ok(tokens) => Ok(Parser { tokens, pos: 0 }),
            Err(e) => Err(e),
        }
    }

    /// A parser at the start of `tokens`.
    pub fn from_tokens(tokens: Vec<Token>) -> (p: Parser)
        ensures
            p@ == (ParserView { tokens: views(tokens@), pos: 0 }),
    {
        Parser { tokens, pos: 0 }
    }

    /// The token at the cursor, which stays.
    pub fn peek(&self) -> (t: Token)
        ensures
            t@ == token_at(self@.tokens, self@.pos),
            0 <= self@.pos <= self@.tokens.len(),
    {
        proof {
            use_type_invariant(self);
        }
        if self.pos < self.tokens.len() {
            self.tokens[self.pos].clone()
        } else {
            Token::EndOfFile
        }
    }

    /// Moves the cursor over one token, if there is one.
    pub fn skip(&mut self)
        ensures
            final(self)@.tokens == old(self)@.tokens,
            final(self)@.pos == advance(old(self)@.tokens, old(self)@.pos),
            0 <= final(self)@.pos <= final(self)@.tokens.len(),
            old(self)@.pos <= final(self)@.pos,
    {
        proof {
            use_type_invariant(&*self);
        }
        if self.pos < self.tokens.len() {
            self.pos = self.pos + 1;
        }
    }

    /// The token at the cursor, which moves behind it.
    pub fn next_token(&mut self) -> (t: Token)
        ensures
            t@ == token_at(old(self)@.tokens, old(self)@.pos),
            final(self)@.tokens == old(self)@.tokens,
            final(self)@.pos == advance(old(self)@.tokens, old(self)@.pos),
            0 <= final(self)@.pos <= final(self)@.tokens.len(),
            old(self)@.pos <= final(self)@.pos,
    {
        let t = self.peek();
        self.skip();
        t
    }

    /// Reads one token, which must be `expected`.
    pub fn expect_next(&mut self, expected: &Token) -> (r: Result<(), CompileError>)
        ensures
            r is Ok <==> token_at(old(self)@.tokens, old(self)@.pos) == expected@,
            r matches Err(e) ==> e@ == bare(ErrorKind::ParseUnexpected),
            final(self)@.tokens == old(self)@.tokens,
            final(self)@.pos == advance(old(self)@.tokens, old(self)@.pos),
            0 <= final(self)@.pos <= final(self)@.tokens.len(),
            old(self)@.pos <= final(self)@.pos,
    {
        let actual = self.next_token();
        if actual.same(expected) {
            Ok(())
        } else {
            Err(CompileError::new(ErrorKind::ParseUnexpected))
        }
    }

    /// Reads one token if it is `expected`; else the cursor stays.
    pub fn assume_next(&mut self, expected: &Token) -> (r: bool)
        ensures
            r == (token_at(old(self)@.tokens, old(self)@.pos) == expected@),
            final(self)@.tokens == old(self)@.tokens,
            final(self)@.pos == (if r {
                advance(old(self)@.tokens, old(self)@.pos)
            } else {
                old(self)@.pos
            }),
            0 <= final(self)@.pos <= final(self)@.tokens.len(),
            old(self)@.pos <= final(self)@.pos,
    {
        let actual = self.peek();
        if actual.same(expected) {
            self.skip();
            true
        } else {
            false
        }
    }

    /// Reads an identifier.
    pub fn next_ident(&mut self) -> (r: Result<String, CompileError>)
        ensures
            final(self)@.tokens == old(self)@.tokens,
            0 <= final(self)@.pos <= final(self)@.tokens.len(),
            old(self)@.pos <= final(self)@.pos,
            match r {
                Ok(name) => ident_at(old(self)@.tokens, old(self)@.pos) == Ok::<
                    (Seq<char>, int),
                    ErrorView,
                >((name@, final(self)@.pos)),
                Err(e) => ident_at(old(self)@.tokens, old(self)@.pos) == Err::<
                    (Seq<char>, int),
                    ErrorView,
                >(e@),
            },
    {
        let token = self.next_token();
        match token {
            Token::Ident(name) => Ok(name),
            _ => Err(CompileError::new(ErrorKind::ParseUnexpected)),
        }
    }

    /// Reads an assignee: an optional `+`, an optional `-`, a name.
    pub fn next_assignee(&mut self) -> (r: Result<ParamValue, CompileError>)
        ensures
            final(self)@.tokens == old(self)@.tokens,
            0 <= final(self)@.pos <= final(self)@.tokens.len(),
            old(self)@.pos <= final(self)@.pos,
            match r {
                Ok(v) => assignee_at(old(self)@.tokens, old(self)@.pos) == Ok::<
                    (ParamValueView, int),
                    ErrorView,
                >((v@, final(self)@.pos)),
                Err(e) => assignee_at(old(self)@.tokens, old(self)@.pos) == Err::<
                    (ParamValueView, int),
                    ErrorView,
                >(e@),
            },
    {
        self.assume_next(&Token::Invert(false));
        let sign = self.assume_next(&Token::Invert(true));
        match self.next_ident() {
            Ok(target) => Ok(ParamValue { sign, target }),
            Err(e) => Err(e),
        }
    }

    /// Reads one item of a tuple.
    fn next_item(&mut self, signed: bool) -> (r: Result<ParamValue, CompileError>)
        ensures
            final(self)@.tokens == old(self)@.tokens,
            0 <= final(self)@.pos <= final(self)@.tokens.len(),
            old(self)@.pos <= final(self)@.pos,
            match r {
                Ok(v) => item_at(old(self)@.tokens, old(self)@.pos, signed) == Ok::<
                    (ParamValueView, int),
                    ErrorView,
                >((v@, final(self)@.pos)),
                Err(e) => item_at(old(self)@.tokens, old(self)@.pos, signed) == Err::<
                    (ParamValueView, int),
                    ErrorView,
                >(e@),
            },
    {
        if signed {
            self.next_assignee()
        } else {
            match self.next_ident() {
                Ok(target) => Ok(ParamValue { sign: false, target }),
                Err(e) => Err(e),
            }
        }
    }

    /// Reads a tuple: `()`, `(item, ...)` or one item without brackets.
    pub fn next_tuple(&mut self, signed: bool) -> (r: Result<Vec<ParamValue>, CompileError>)
        ensures
            final(self)@.tokens == old(self)@.tokens,
            0 <= final(self)@.pos <= final(self)@.tokens.len(),
            old(self)@.pos <= final(self)@.pos,
            match r {
                Ok(items) => tuple_at(old(self)@.tokens, old(self)@.pos, signed) == Ok::<
                    (Seq<ParamValueView>, int),
                    ErrorView,
                >((views(items@), final(self)@.pos)),
                Err(e) => tuple_at(old(self)@.tokens, old(self)@.pos, signed) == Err::<
                    (Seq<ParamValueView>, int),
                    ErrorView,
                >(e@),
            },
    {
        let ghost ts = self@.tokens;
        let ghost start = self@.pos;
        let mut items: Vec<ParamValue> = Vec::new();
        proof {
            lemma_views_empty::<ParamValue>();
        }
        if self.assume_next(&Token::ParenthesisLeft) {
            if self.assume_next(&Token::ParenthesisRight) {
                return Ok(items);
            }
            loop
                invariant
                    ts == old(self)@.tokens,
                    start == old(self)@.pos,
                    self@.tokens == ts,
                    0 <= self@.pos <= ts.len(),
                start <= self@.pos,
                    start <= self@.pos,
                    tuple_at(ts, start, signed) == items_from(ts, self@.pos, signed, views(items@)),
                decreases ts.len() - self@.pos,
            {
                let ghost before = self@.pos;
                let item = match self.next_item(signed) {
                    Ok(item) => item,
                    Err(e) => {
                        return Err(e);
                    },
                };
                proof {
                    lemma_views_push(items@, item);
                }
                items.push(item);
                let token = self.next_token();
                match token {
                    Token::Comma => {
                        proof {
                            assert(before < self@.pos);
                        }
                    },
                    Token::ParenthesisRight => {
                        return Ok(items);
                    },
                    _ => {
                        return Err(CompileError::new(ErrorKind::ParseUnexpected));
                    },
                }
            }
        } else {
            match self.next_item(signed) {
                Ok(item) => {
                    proof {
                        lemma_views_push(items@, item);
                        assert(Seq::<ParamValueView>::empty().push(item@) =~= seq![item@]);
                    }
                    items.push(item);
                    Ok(items)
                },
                Err(e) => Err(e),
            }
        }
    }

    /// Reads a list of names.
    pub fn next_ident_list(&mut self) -> (r: Result<Vec<String>, CompileError>)
        ensures
            final(self)@.tokens == old(self)@.tokens,
            0 <= final(self)@.pos <= final(self)@.tokens.len(),
            old(self)@.pos <= final(self)@.pos,
            match r {
                Ok(names) => tuple_at(old(self)@.tokens, old(self)@.pos, false) matches Ok((items, next))
                    && targets(items) == views(names@) && next == final(self)@.pos,
                Err(e) => tuple_at(old(self)@.tokens, old(self)@.pos, false) == Err::<
                    (Seq<ParamValueView>, int),
                    ErrorView,
                >(e@),
            },
    {
        match self.next_tuple(false) {
            Ok(items) => Ok(names_of(&items)),
            Err(e) => Err(e),
        }
    }

    /// Reads a list of assignees.
    pub fn next_assignee_list(&mut self) -> (r: Result<Vec<ParamValue>, CompileError>)
        ensures
            final(self)@.tokens == old(self)@.tokens,
            0 <= final(self)@.pos <= final(self)@.tokens.len(),
            old(self)@.pos <= final(self)@.pos,
            match r {
                Ok(items) => tuple_at(old(self)@.tokens, old(self)@.pos, true) == Ok::<
                    (Seq<ParamValueView>, int),
                    ErrorView,
                >((views(items@), final(self)@.pos)),
                Err(e) => tuple_at(old(self)@.tokens, old(self)@.pos, true) == Err::<
                    (Seq<ParamValueView>, int),
                    ErrorView,
                >(e@),
            },
    {
        self.next_tuple(true)
    }
}

proof fn lemma_sets_push_leaf(sets: Seq<Vec<Expression>>, last: Vec<Expression>, e: Expression)
    requires
        sets.len() > 0,
        last@ == sets.last()@.push(e),
    ensures
        sets_view(sets.drop_last().push(last)) == push_leaf(sets_view(sets), e@),
{
    lemma_views_push(sets.last()@, e);
    assert(sets_view(sets.drop_last().push(last)) =~= push_leaf(sets_view(sets), e@));
}

proof fn lemma_sets_close(
    sets: Seq<Vec<Expression>>,
    outer: Vec<Expression>,
    call: Expression,
)
    requires
        sets.len() >= 2,
        sets[sets.len() - 2]@.len() > 0,
        outer@ == sets[sets.len() - 2]@.drop_last().push(call),
        call@ == (ExpressionView {
            ident: sets[sets.len() - 2]@.last()@.ident,
            sign: sets[sets.len() - 2]@.last()@.sign,
            params: Some(views(sets.last()@)),
        }),
    ensures
        close_set(sets_view(sets)) == Some(sets_view(sets.drop_last().drop_last().push(outer))),
{
    let before = sets[sets.len() - 2]@;
    crate::views::lemma_views_drop_last(before);
    lemma_views_push(before.drop_last(), call);
    assert(sets_view(sets.drop_last().drop_last().push(outer)) =~= close_set(sets_view(sets))->0);
}

impl Parser {
    /// Reads an expression up to its closing `;`, which stays unread.
    ///
    /// Fails with `ParseUnexpected` at a token that may not follow the one
    /// before it, and with `ParseUnmatchedParen` where the brackets do not
    /// balance.
    pub fn parse_next_exp(&mut self) -> (r: Result<Expression, CompileError>)
        ensures
            final(self)@.tokens == old(self)@.tokens,
            0 <= final(self)@.pos <= final(self)@.tokens.len(),
            old(self)@.pos <= final(self)@.pos,
            match r {
                Ok(exp) => expression_at(old(self)@.tokens, old(self)@.pos) == Ok::<
                    (ExpressionView, int),
                    ErrorView,
                >((exp@, final(self)@.pos)),
                Err(e) => expression_at(old(self)@.tokens, old(self)@.pos) == Err::<
                    (ExpressionView, int),
                    ErrorView,
                >(e@),
            },
    {
        let ghost ts = self@.tokens;
        let ghost start = self@.pos;
        let mut sign = false;
        let mut prev = ExpPrev::Open;
        let mut sets: Vec<Vec<Expression>> = Vec::new();
        proof {
            assert(sets_view(sets@) =~= Seq::<Seq<ExpressionView>>::empty());
            use_type_invariant(&*self);
        }
        loop
            invariant
                ts == old(self)@.tokens,
                start == old(self)@.pos,
                self@.tokens == ts,
                0 <= self@.pos <= ts.len(),
                start <= self@.pos,
                expression_at(ts, start) == expression_from(
                    ts,
                    self@.pos,
                    prev,
                    sign,
                    sets_view(sets@),
                ),
            decreases ts.len() - self@.pos,
        {
            let token = self.peek();
            let ghost pos = self@.pos;
            let ghost before = sets@;
            if !exp_allowed_exec(prev, &token) {
                return Err(CompileError::new(ErrorKind::ParseUnexpected));
            }
            assert(pos < ts.len());
            match token {
                Token::Ident(name) => {
                    self.skip();
                    let exp = Expression { ident: name, sign, params: None };
                    assert(exp@ == (ExpressionView { ident: name@, sign, params: None }));
                    match sets.pop() {
                        Some(mut last) => {
                            last.push(exp);
                            proof {
                                lemma_sets_push_leaf(before, last, exp);
                                assert(sets@ == before.drop_last());
                            }
                            sets.push(last);
                        },
                        None => {
                            let mut first: Vec<Expression> = Vec::new();
                            first.push(exp);
                            sets.push(first);
                            proof {
                                lemma_views_push(Seq::<Expression>::empty(), exp);
                                lemma_views_empty::<Expression>();
                                assert(first@ =~= Seq::<Expression>::empty().push(exp));
                                assert(sets_view(sets@) =~= push_leaf(sets_view(before), exp@));
                            }
                        },
                    }
                    sign = false;
                    prev = ExpPrev::Ident;
                },
                Token::Invert(b) => {
                    self.skip();
                    sign = b;
                    prev = ExpPrev::Invert;
                },
                Token::ParenthesisLeft => {
                    self.skip();
                    sets.push(Vec::new());
                    proof {
                        lemma_views_empty::<Expression>();
                        assert(sets_view(sets@) =~= sets_view(before).push(Seq::empty()));
                    }
                    prev = ExpPrev::Open;
                },
                Token::ParenthesisRight => {
                    self.skip();
                    let args = match sets.pop() {
                        Some(args) => args,
                        None => {
                            return Err(CompileError::new(ErrorKind::ParseUnmatchedParen));
                        },
                    };
                    let mut outer = match sets.pop() {
                        Some(outer) => outer,
                        None => {
                            assert(sets_view(before).len() == 1);
                            return Err(CompileError::new(ErrorKind::ParseUnmatchedParen));
                        },
                    };
                    assert(sets_view(before)[before.len() - 2] == views(before[before.len() - 2]@));
                    let mut f = match outer.pop() {
                        Some(f) => f,
                        None => {
                            return Err(CompileError::new(ErrorKind::ParseUnmatchedParen));
                        },
                    };
                    let ghost f_before = f;
                    f.params = Some(args);
                    proof {
                        f.lemma_view_params();
                        assert(f_before == before[before.len() - 2]@.last());
                        assert(f@.ident == f_before@.ident);
                        assert(f@.sign == f_before@.sign);
                    }
                    outer.push(f);
                    proof {
                        lemma_sets_close(before, outer, f);
                        assert(sets@ == before.drop_last().drop_last());
                    }
                    sets.push(outer);
                    prev = ExpPrev::Close;
                },
                Token::Comma => {
                    self.skip();
                    prev = ExpPrev::Comma;
                },
                Token::Semicolon => {
                    if sets.len() != 1 {
                        return Err(CompileError::new(ErrorKind::ParseUnmatchedParen));
                    }
                    let mut only = match sets.pop() {
                        Some(only) => only,
                        None => {
                            return Err(CompileError::new(ErrorKind::ParseUnmatchedParen));
                        },
                    };
                    assert(sets_view(before)[0] == views(before[0]@));
                    proof {
                        if only@.len() > 0 {
                            crate::views::lemma_views_drop_last(only@);
                        }
                    }
                    return match only.pop() {
                        Some(exp) => Ok(exp),
                        None => Err(CompileError::new(ErrorKind::ParseUnmatchedParen)),
                    };
                },
                _ => {
                    return Err(CompileError::new(ErrorKind::ParseUnexpected));
                },
            }
        }
    }

    /// Reads a body: `{`, statements, `}`.
    pub fn parse_statements(&mut self) -> (r: Result<Vec<Statement>, CompileError>)
        ensures
            final(self)@.tokens == old(self)@.tokens,
            0 <= final(self)@.pos <= final(self)@.tokens.len(),
            old(self)@.pos <= final(self)@.pos,
            match r {
                Ok(statements) => body_at(old(self)@.tokens, old(self)@.pos) == Ok::<
                    (Seq<StatementView>, int),
                    ErrorView,
                >((views(statements@), final(self)@.pos)),
                Err(e) => body_at(old(self)@.tokens, old(self)@.pos) == Err::<
                    (Seq<StatementView>, int),
                    ErrorView,
                >(e@),
            },
    {
        let ghost ts = self@.tokens;
        let ghost start = self@.pos;
        match self.expect_next(&Token::BraceLeft) {
            Ok(()) => {},
            Err(e) => {
                return Err(e);
            },
        }
        let mut statements: Vec<Statement> = Vec::new();
        proof {
            lemma_views_empty::<Statement>();
        }
        loop
            invariant
                ts == old(self)@.tokens,
                start == old(self)@.pos,
                self@.tokens == ts,
                0 <= self@.pos <= ts.len(),
                start <= self@.pos,
                body_at(ts, start) == statements_from(ts, self@.pos, views(statements@)),
            decreases ts.len() - self@.pos,
        {
            if self.assume_next(&Token::BraceRight) {
                return Ok(statements);
            }
            let ghost pos = self@.pos;
            let assignees = match self.next_assignee_list() {
                Ok(assignees) => assignees,
                Err(e) => {
                    return Err(e);
                },
            };
            match self.expect_next(&Token::Assign) {
                Ok(()) => {},
                Err(e) => {
                    return Err(e);
                },
            }
            let expression = match self.parse_next_exp() {
                Ok(expression) => expression,
                Err(e) => {
                    return Err(e);
                },
            };
            match self.expect_next(&Token::Semicolon) {
                Ok(()) => {},
                Err(e) => {
                    return Err(e);
                },
            }
            let statement = Statement { assignees, expression };
            proof {
                lemma_views_push(statements@, statement);
                assert(statement_at(ts, pos) == Ok::<(StatementView, int), ErrorView>(
                    (statement@, self@.pos),
                ));
                lemma_statement_advances(ts, pos);
            }
            statements.push(statement);
        }
    }
}

/// A tuple that parses ends behind where it starts.
pub proof fn lemma_tuple_advances(ts: Seq<TokenView>, pos: int, signed: bool)
    requires
        0 <= pos,
    ensures
        tuple_at(ts, pos, signed) matches Ok((_, next)) ==> pos < next <= ts.len(),
{
    if token_at(ts, pos) == TokenView::ParenthesisLeft {
        if token_at(ts, pos + 1) != TokenView::ParenthesisRight {
            lemma_items_advance(ts, pos + 1, signed, Seq::empty());
        }
    }
}

proof fn lemma_items_advance(ts: Seq<TokenView>, pos: int, signed: bool, found: Seq<ParamValueView>)
    requires
        0 <= pos,
    ensures
        items_from(ts, pos, signed, found) matches Ok((_, next)) ==> pos < next <= ts.len(),
    decreases ts.len() - pos,
{
    match item_at(ts, pos, signed) {
        Err(e) => {},
        Ok((item, next)) => {
            if token_at(ts, next) == TokenView::Comma {
                if pos < next < ts.len() {
                    lemma_items_advance(ts, next + 1, signed, found.push(item));
                }
            }
        },
    }
}

/// A statement that parses ends behind where it starts.
pub proof fn lemma_statement_advances(ts: Seq<TokenView>, pos: int)
    requires
        0 <= pos,
    ensures
        statement_at(ts, pos) matches Ok((_, next)) ==> pos < next <= ts.len(),
{
    lemma_tuple_advances(ts, pos, true);
    match tuple_at(ts, pos, true) {
        Err(e) => {},
        Ok((assignees, pos1)) => {
            if token_at(ts, pos1) == TokenView::Assign {
                lemma_expression_advances(ts, pos1 + 1, ExpPrev::Open, false, Seq::empty());
            }
        },
    }
}

proof fn lemma_expression_advances(
    ts: Seq<TokenView>,
    pos: int,
    prev: ExpPrev,
    sign: bool,
    sets: Seq<Seq<ExpressionView>>,
)
    requires
        0 <= pos,
    ensures
        expression_from(ts, pos, prev, sign, sets) matches Ok((_, next)) ==> pos <= next < ts.len(),
    decreases ts.len() - pos,
{
    let t = token_at(ts, pos);
    if pos < ts.len() && exp_allowed(prev, t) {
        match t {
            TokenView::Ident(name) => {
                lemma_expression_advances(
                    ts,
                    pos + 1,
                    ExpPrev::Ident,
                    false,
                    push_leaf(sets, ExpressionView { ident: name, sign, params: None }),
                );
            },
            TokenView::Invert(b) => {
                lemma_expression_advances(ts, pos + 1, ExpPrev::Invert, b, sets);
            },
            TokenView::ParenthesisLeft => {
                lemma_expression_advances(ts, pos + 1, ExpPrev::Open, sign, sets.push(Seq::empty()));
            },
            TokenView::ParenthesisRight => {
                match close_set(sets) {
                    Some(closed) => {
                        lemma_expression_advances(ts, pos + 1, ExpPrev::Close, sign, closed);
                    },
                    None => {},
                }
            },
            TokenView::Comma => {
                lemma_expression_advances(ts, pos + 1, ExpPrev::Comma, sign, sets);
            },
            _ => {},
        }
    }
}

impl Parser {
    /// Reads a signature behind the function's name and checks its names.
    pub fn parse_signature(&mut self, name: String) -> (r: Result<Signature, CompileError>)
        ensures
            final(self)@.tokens == old(self)@.tokens,
            0 <= final(self)@.pos <= final(self)@.tokens.len(),
            old(self)@.pos <= final(self)@.pos,
            match r {
                Ok(signature) => signature_at(old(self)@.tokens, old(self)@.pos, name@) == Ok::<
                    (SignatureView, int),
                    ErrorView,
                >((signature@, final(self)@.pos)),
                Err(e) => signature_at(old(self)@.tokens, old(self)@.pos, name@) == Err::<
                    (SignatureView, int),
                    ErrorView,
                >(e@),
            },
    {
        let params = match self.next_ident_list() {
            Ok(params) => params,
            Err(e) => {
                return Err(e);
            },
        };
        match self.expect_next(&Token::Arrow) {
            Ok(()) => {},
            Err(e) => {
                return Err(e);
            },
        }
        let assignees = match self.next_ident_list() {
            Ok(assignees) => assignees,
            Err(e) => {
                return Err(e);
            },
        };
        let signature = Signature { name, params, assignees };
        match signature.validate() {
            Ok(()) => Ok(signature),
            Err(e) => Err(e),
        }
    }

    /// Reads a function behind its name: `=`, a signature, a body.
    pub fn parse_func(&mut self, name: String) -> (r: Result<Func, CompileError>)
        ensures
            final(self)@.tokens == old(self)@.tokens,
            0 <= final(self)@.pos <= final(self)@.tokens.len(),
            old(self)@.pos <= final(self)@.pos,
            match r {
                Ok(func) => func_at(old(self)@.tokens, old(self)@.pos, name@) == Ok::<
                    (FuncView, int),
                    ErrorView,
                >((func@, final(self)@.pos)),
                Err(e) => func_at(old(self)@.tokens, old(self)@.pos, name@) == Err::<
                    (FuncView, int),
                    ErrorView,
                >(e@),
            },
    {
        match self.expect_next(&Token::Assign) {
            Ok(()) => {},
            Err(e) => {
                return Err(e);
            },
        }
        let signature = match self.parse_signature(name) {
            Ok(signature) => signature,
            Err(e) => {
                return Err(e);
            },
        };
        let statements = match self.parse_statements() {
            Ok(statements) => statements,
            Err(e) => {
                return Err(e);
            },
        };
        Ok(Func { signature, statements })
    }

    /// Reads the id of an ant: the number or bit behind `=`, or 1 for `main`
    /// without `=`.
    fn parse_ant_id(&mut self, name: &str) -> (r: Result<u8, CompileError>)
        ensures
            final(self)@.tokens == old(self)@.tokens,
            0 <= final(self)@.pos <= final(self)@.tokens.len(),
            old(self)@.pos <= final(self)@.pos,
            match r {
                Ok(id) => ant_id_at(old(self)@.tokens, old(self)@.pos, name@) == Ok::<
                    (u8, int),
                    ErrorView,
                >((id, final(self)@.pos)),
                Err(e) => ant_id_at(old(self)@.tokens, old(self)@.pos, name@) == Err::<
                    (u8, int),
                    ErrorView,
                >(e@),
            },
    {
        proof {
            reveal_strlit("main");
            assert("main"@ =~= main_name());
        }
        if self.assume_next(&Token::Assign) {
            match self.next_token() {
                Token::Number(n) => {
                    if n <= 255 {
                        Ok(n as u8)
                    } else {
                        Err(CompileError::about(ErrorKind::ParseAntId, name))
                    }
                },
                Token::Bit(b) => Ok(if b { 1 } else { 0 }),
                _ => Err(CompileError::about(ErrorKind::ParseUnexpected, name)),
            }
        } else if str_eq(name, "main") {
            proof {
                use_type_invariant(&*self);
            }
            Ok(1)
        } else {
            proof {
                use_type_invariant(&*self);
            }
            Err(CompileError::about(ErrorKind::ParseAntId, name))
        }
    }

    /// Reads an ant behind its name: an id and a body.
    pub fn parse_ant(&mut self, name: String) -> (r: Result<(Func, AntFunc), CompileError>)
        ensures
            final(self)@.tokens == old(self)@.tokens,
            0 <= final(self)@.pos <= final(self)@.tokens.len(),
            old(self)@.pos <= final(self)@.pos,
            match r {
                Ok((func, ant)) => ant_at(old(self)@.tokens, old(self)@.pos, name@) == Ok::<
                    (FuncView, AntFuncView, int),
                    ErrorView,
                >((func@, ant@, final(self)@.pos)),
                Err(e) => ant_at(old(self)@.tokens, old(self)@.pos, name@) == Err::<
                    (FuncView, AntFuncView, int),
                    ErrorView,
                >(e@),
            },
    {
        let target_id = match self.parse_ant_id(name.as_str()) {
            Ok(id) => id,
            Err(e) => {
                return Err(e);
            },
        };
        let statements = match self.parse_statements() {
            Ok(statements) => statements,
            Err(e) => {
                return Err(e);
            },
        };
        let ant = AntFunc { target_name: name.clone(), target_id };
        let func = Func {
            signature: Signature { name, assignees: Vec::new(), params: Vec::new() },
            statements,
        };
        proof {
            lemma_views_empty::<String>();
        }
        Ok((func, ant))
    }

    /// Reads a setting behind `set`: a key, an optional `=`, one token, `;`.
    pub fn parse_setting(&mut self) -> (r: Result<Setting, CompileError>)
        ensures
            final(self)@.tokens == old(self)@.tokens,
            0 <= final(self)@.pos <= final(self)@.tokens.len(),
            old(self)@.pos <= final(self)@.pos,
            match r {
                Ok(setting) => setting_at(old(self)@.tokens, old(self)@.pos) == Ok::<
                    (SettingView, int),
                    ErrorView,
                >((setting@, final(self)@.pos)),
                Err(e) => setting_at(old(self)@.tokens, old(self)@.pos) == Err::<
                    (SettingView, int),
                    ErrorView,
                >(e@),
            },
    {
        let key = match self.next_ident() {
            Ok(key) => key,
            Err(e) => {
                return Err(e);
            },
        };
        self.assume_next(&Token::Assign);
        let value = self.next_token();
        match self.expect_next(&Token::Semicolon) {
            Ok(()) => {},
            Err(e) => {
                return Err(e);
            },
        }
        Ok(Setting { key, value })
    }

    /// Reads one top-level item behind its keyword and adds it to `world`.
    fn parse_item(&mut self, keyword: Keyword, world: &mut ParsedWorld) -> (r: Result<(), CompileError>)
        ensures
            final(self)@.tokens == old(self)@.tokens,
            0 <= final(self)@.pos <= final(self)@.tokens.len(),
            old(self)@.pos <= final(self)@.pos,
            match r {
                Ok(()) => item_after(old(self)@.tokens, old(self)@.pos, keyword, old(world)@) == Ok::<
                    (ParsedWorldView, int),
                    ErrorView,
                >((final(world)@, final(self)@.pos)),
                Err(e) => item_after(old(self)@.tokens, old(self)@.pos, keyword, old(world)@) == Err::<
                    (ParsedWorldView, int),
                    ErrorView,
                >(e@),
            },
    {
        match keyword {
            Keyword::Use => {
                match self.next_token() {
                    Token::String(path) => {
                        match self.expect_next(&Token::Semicolon) {
                            Ok(()) => {},
                            Err(e) => {
                                return Err(e);
                            },
                        }
                        proof {
                            lemma_views_push(world.imports@, path);
                        }
                        world.imports.push(path);
                    },
                    _ => {
                        return Err(CompileError::new(ErrorKind::ParseUnexpected));
                    },
                }
            },
            Keyword::Setting => {
                let setting = match self.parse_setting() {
                    Ok(setting) => setting,
                    Err(e) => {
                        return Err(e);
                    },
                };
                proof {
                    lemma_views_push(world.settings@, setting);
                }
                world.settings.push(setting);
            },
            Keyword::Fn => {
                let name = match self.next_ident() {
                    Ok(name) => name,
                    Err(e) => {
                        return Err(e);
                    },
                };
                let func = match self.parse_func(name) {
                    Ok(func) => func,
                    Err(e) => {
                        return Err(e);
                    },
                };
                proof {
                    lemma_views_push(world.funcs@, func);
                }
                world.funcs.push(func);
            },
            Keyword::Ant => {
                let name = match self.next_ident() {
                    Ok(name) => name,
                    Err(e) => {
                        return Err(e);
                    },
                };
                let (func, ant) = match self.parse_ant(name) {
                    Ok(pair) => pair,
                    Err(e) => {
                        return Err(e);
                    },
                };
                proof {
                    lemma_views_push(world.funcs@, func);
                    lemma_views_push(world.ants@, ant);
                }
                world.funcs.push(func);
                world.ants.push(ant);
            },
            Keyword::NoStd => {
                match self.expect_next(&Token::Semicolon) {
                    Ok(()) => {},
                    Err(e) => {
                        return Err(e);
                    },
                }
                world.no_std = true;
            },
        }
        Ok(())
    }

    /// Reads all items up to the end of the tokens.
    ///
    /// Fails with `ParseUnexpected` at the first token that the grammar does
    /// not allow, with `ParseUnmatchedParen`, `ParseSignature` or
    /// `ParseAntId` where an item is wrong in that way.
    pub fn parse_world(&mut self) -> (r: Result<ParsedWorld, CompileError>)
        ensures
            final(self)@.tokens == old(self)@.tokens,
            match r {
                Ok(world) => world_from(old(self)@.tokens, old(self)@.pos, empty_world()) == Ok::<
                    ParsedWorldView,
                    ErrorView,
                >(world@),
                Err(e) => world_from(old(self)@.tokens, old(self)@.pos, empty_world()) == Err::<
                    ParsedWorldView,
                    ErrorView,
                >(e@),
            },
    {
        let ghost ts = self@.tokens;
        let ghost start = self@.pos;
        let mut world = ParsedWorld {
            settings: Vec::new(),
            funcs: Vec::new(),
            ants: Vec::new(),
            imports: Vec::new(),
            no_std: false,
        };
        proof {
            lemma_views_empty::<Setting>();
            lemma_views_empty::<Func>();
            lemma_views_empty::<AntFunc>();
            lemma_views_empty::<String>();
            use_type_invariant(&*self);
        }
        loop
            invariant
                ts == old(self)@.tokens,
                start == old(self)@.pos,
                self@.tokens == ts,
                0 <= self@.pos <= ts.len(),
                start <= self@.pos,
                world_from(ts, start, empty_world()) == world_from(ts, self@.pos, world@),
            decreases ts.len() - self@.pos,
        {
            let ghost pos = self@.pos;
            let ghost before = world@;
            let keyword = match self.next_token() {
                Token::Keyword(keyword) => keyword,
                Token::EndOfFile => {
                    return Ok(world);
                },
                _ => {
                    return Err(CompileError::new(ErrorKind::ParseUnexpected));
                },
            };
            assert(self@.pos == pos + 1);
            match self.parse_item(keyword, &mut world) {
                Ok(()) => {},
                Err(e) => {
                    return Err(e);
                },
            }
            assert(item_after(ts, pos + 1, keyword, before) == Ok::<(ParsedWorldView, int), ErrorView>(
                (world@, self@.pos),
            ));
            assert(pos < self@.pos);
        }
    }

    /// What the source text `code` holds.
    ///
    /// Fails with `LexInvalid` where the text is no token stream, else as
    /// `parse_world` does.
    pub fn parse(code: &str) -> (r: Result<ParsedWorld, CompileError>)
        ensures
            match r {
                Ok(world) => parse_source(code@) == Ok::<ParsedWorldView, ErrorView>(world@),
                Err(e) => parse_source(code@) == Err::<ParsedWorldView, ErrorView>(e@),
            },
    {
        let mut parser = match Parser::new(code) {
            Ok(parser) => parser,
            Err(e) => {
                return Err(e);
            },
        };
        parser.parse_world()
    }
}

} // verus!
