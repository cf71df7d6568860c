//! The lexer: source text to a flat stream of tokens.

use vstd::prelude::*;
use crate::error::CompileError;
use crate::error::ErrorKind;
use crate::error::at;
use crate::error::ErrorView;
use crate::error::bare;
use crate::text::char_digit_value;
use crate::text::char_is_digit;
use crate::text::char_is_lower;
use crate::text::char_is_space;
use crate::text::char_is_upper;
use crate::text::char_is_word;
use crate::text::chars_are_lower_ident;
use crate::text::chars_are_upper_ident;
use crate::text::chars_of;
use crate::text::digit_value;
use crate::text::is_digit;
use crate::text::is_lower;
use crate::text::is_lower_ident;
use crate::text::is_space;
use crate::text::is_upper;
use crate::text::is_upper_ident;
use crate::text::is_word;
use crate::text::string_of;
use crate::views::lemma_views_empty;
use crate::views::lemma_views_push;
use crate::views::views;

verus! {

/// The words that open a top-level item.
#[derive(Debug, Clone, Copy, PartialEq, Eq, Structural)]
pub enum Keyword {
    Setting,
    Fn,
    Ant,
    Use,
    NoStd,
}

/// One lexical unit of the language.
#[derive(Debug, PartialEq, Eq)]
pub enum Token {
    Ident(String),
    /// A sign: `+` is `Invert(false)`, `-` is `Invert(true)`.
    Invert(bool),
    ParenthesisLeft,
    ParenthesisRight,
    Comma,
    BraceLeft,
    BraceRight,
    Bit(bool),
    Keyword(Keyword),
    Semicolon,
    Assign,
    Arrow,
    String(String),
    Number(u32),
    Invalid(String),
    Comment,
    EndOfFile,
}

/// A token with its text as a sequence of characters.
pub enum TokenView {
    Ident(Seq<char>),
    Invert(bool),
    ParenthesisLeft,
    ParenthesisRight,
    Comma,
    BraceLeft,
    BraceRight,
    Bit(bool),
    Keyword(Keyword),
    Semicolon,
    Assign,
    Arrow,
    String(Seq<char>),
    Number(u32),
    Invalid(Seq<char>),
    Comment,
    EndOfFile,
}

impl View for Token {
    type V = TokenView;

    open spec fn view(&self) -> TokenView {
        match self {
            Token::Ident(s) => TokenView::Ident(s@),
            Token::Invert(b) => TokenView::Invert(*b),
            Token::ParenthesisLeft => TokenView::ParenthesisLeft,
            Token::ParenthesisRight => TokenView::ParenthesisRight,
            Token::Comma => TokenView::Comma,
            Token::BraceLeft => TokenView::BraceLeft,
            Token::BraceRight => TokenView::BraceRight,
            Token::Bit(b) => TokenView::Bit(*b),
            Token::Keyword(k) => TokenView::Keyword(*k),
            Token::Semicolon => TokenView::Semicolon,
            Token::Assign => TokenView::Assign,
            Token::Arrow => TokenView::Arrow,
            Token::String(s) => TokenView::String(s@),
            Token::Number(n) => TokenView::Number(*n),
            Token::Invalid(s) => TokenView::Invalid(s@),
            Token::Comment => TokenView::Comment,
            Token::EndOfFile => TokenView::EndOfFile,
        }
    }
}

impl Clone for Token {
    fn clone(&self) -> (r: Token)
        ensures
            r@ == self@,
    {
        match self {
            Token::Ident(s) => Token::Ident(s.clone()),
            Token::Invert(b) => Token::Invert(*b),
            Token::ParenthesisLeft => Token::ParenthesisLeft,
            Token::ParenthesisRight => Token::ParenthesisRight,
            Token::Comma => Token::Comma,
            Token::BraceLeft => Token::BraceLeft,
            Token::BraceRight => Token::BraceRight,
            Token::Bit(b) => Token::Bit(*b),
            Token::Keyword(k) => Token::Keyword(*k),
            Token::Semicolon => Token::Semicolon,
            Token::Assign => Token::Assign,
            Token::Arrow => Token::Arrow,
            Token::String(s) => Token::String(s.clone()),
            Token::Number(n) => Token::Number(*n),
            Token::Invalid(s) => Token::Invalid(s.clone()),
            Token::Comment => Token::Comment,
            Token::EndOfFile => Token::EndOfFile,
        }
    }
}

impl Default for Token {
    fn default() -> (r: Token)
        ensures
            r@ == TokenView::EndOfFile,
    {
        Token::EndOfFile
    }
}

impl Token {
    /// Whether two tokens are the same token with the same text.
    pub fn same(&self, other: &Token) -> (r: bool)
        ensures
            r == (self@ == other@),
    {
        match (self, other) {
            (Token::Ident(a), Token::Ident(b)) => *a == *b,
            (Token::Invert(a), Token::Invert(b)) => *a == *b,
            (Token::ParenthesisLeft, Token::ParenthesisLeft) => true,
            (Token::ParenthesisRight, Token::ParenthesisRight) => true,
            (Token::Comma, Token::Comma) => true,
            (Token::BraceLeft, Token::BraceLeft) => true,
            (Token::BraceRight, Token::BraceRight) => true,
            (Token::Bit(a), Token::Bit(b)) => *a == *b,
            (Token::Keyword(a), Token::Keyword(b)) => *a == *b,
            (Token::Semicolon, Token::Semicolon) => true,
            (Token::Assign, Token::Assign) => true,
            (Token::Arrow, Token::Arrow) => true,
            (Token::String(a), Token::String(b)) => *a == *b,
            (Token::Number(a), Token::Number(b)) => *a == *b,
            (Token::Invalid(a), Token::Invalid(b)) => *a == *b,
            (Token::Comment, Token::Comment) => true,
            (Token::EndOfFile, Token::EndOfFile) => true,
            _ => false,
        }
    }
}

/// The keyword that `ident` spells, if any.
pub open spec fn keyword_of(ident: Seq<char>) -> Option<Keyword> {
    if ident == seq!['s', 'e', 't'] {
        Some(Keyword::Setting)
    } else if ident == seq!['f', 'n'] {
        Some(Keyword::Fn)
    } else if ident == seq!['a', 'n', 't'] {
        Some(Keyword::Ant)
    } else if ident == seq!['u', 's', 'e'] {
        Some(Keyword::Use)
    } else if ident == seq!['n', 'o', '_', 's', 't', 'd'] {
        Some(Keyword::NoStd)
    } else {
        None
    }
}

fn chars_match(chars: &Vec<char>, word: &[char]) -> (r: bool)
    ensures
        r == (chars@ == word@),
{
    if chars.len() != word.len() {
        return false;
    }
    let mut i: usize = 0;
    while i < chars.len()
        invariant
            i <= chars@.len(),
            chars@.len() == word@.len(),
            forall|j: int| 0 <= j < i ==> chars@[j] == word@[j],
        decreases chars@.len() - i,
    {
        if chars[i] != word[i] {
            return false;
        }
        i += 1;
    }
    assert(chars@ =~= word@);
    true
}

impl Keyword {
    /// The keyword that the characters spell, if any.
    pub fn from_chars(chars: &Vec<char>) -> (r: Option<Keyword>)
        ensures
            r == keyword_of(chars@),
    {
        let set: [char; 3] = ['s', 'e', 't'];
        let func: [char; 2] = ['f', 'n'];
        let ant: [char; 3] = ['a', 'n', 't'];
        let import: [char; 3] = ['u', 's', 'e'];
        let no_std: [char; 6] = ['n', 'o', '_', 's', 't', 'd'];
        assert(set@ =~= seq!['s', 'e', 't']);
        assert(func@ =~= seq!['f', 'n']);
        assert(ant@ =~= seq!['a', 'n', 't']);
        assert(import@ =~= seq!['u', 's', 'e']);
        assert(no_std@ =~= seq!['n', 'o', '_', 's', 't', 'd']);
        if chars_match(chars, set.as_slice()) {
            Some(Keyword::Setting)
        } else if chars_match(chars, func.as_slice()) {
            Some(Keyword::Fn)
        } else if chars_match(chars, ant.as_slice()) {
            Some(Keyword::Ant)
        } else if chars_match(chars, import.as_slice()) {
            Some(Keyword::Use)
        } else if chars_match(chars, no_std.as_slice()) {
            Some(Keyword::NoStd)
        } else {
            None
        }
    }

    /// The keyword that `ident` spells, if any.
    pub fn from_ident(ident: &str) -> (r: Option<Keyword>)
        ensures
            r == keyword_of(ident@),
    {
        let chars = chars_of(ident);
        Keyword::from_chars(&chars)
    }
}

/// The first position at or after `i` that holds a line feed, plus one; the
/// length of `s` where there is none. A comment that starts at `i` ends there.
pub open spec fn comment_end(s: Seq<char>, i: int) -> int
    decreases s.len() - i,
{
    if i < 0 || i >= s.len() {
        s.len() as int
    } else if s[i] == '\n' {
        i + 1
    } else {
        comment_end(s, i + 1)
    }
}

/// The position of the first `"` at or after `i` on the same line, if any.
pub open spec fn string_end(s: Seq<char>, i: int) -> Option<int>
    decreases s.len() - i,
{
    if i < 0 || i >= s.len() || s[i] == '\n' {
        None
    } else if s[i] == '"' {
        Some(i)
    } else {
        string_end(s, i + 1)
    }
}

/// The first position at or after `i` that holds no identifier character.
pub open spec fn word_end(s: Seq<char>, i: int) -> int
    decreases s.len() - i,
{
    if i < 0 || i >= s.len() || !is_word(s[i]) {
        i
    } else {
        word_end(s, i + 1)
    }
}

/// The first position at or after `i` that holds no blank.
pub open spec fn space_end(s: Seq<char>, i: int) -> int
    decreases s.len() - i,
{
    if i < 0 || i >= s.len() || !is_space(s[i]) {
        i
    } else {
        space_end(s, i + 1)
    }
}

/// The end of the number that starts at `i`: up to `room` digits.
pub open spec fn number_end(s: Seq<char>, i: int, room: nat) -> int
    decreases room,
{
    if room == 0 || i < 0 || i >= s.len() || !is_digit(s[i]) {
        i
    } else {
        number_end(s, i + 1, (room - 1) as nat)
    }
}

/// The value of a run of decimal digits.
pub open spec fn decimal_value(digits: Seq<char>) -> nat
    decreases digits.len(),
{
    if digits.len() == 0 {
        0
    } else {
        10 * decimal_value(digits.drop_last()) + digit_value(digits.last())
    }
}

/// What stands at one position of the text.
pub enum Scan {
    /// Blanks or a comment, up to the given position.
    Skip(int),
    /// A token, and the position behind it.
    Token(TokenView, int),
    /// Nothing that the language knows: the word that mixes upper and
    /// lower case, or nothing for anything else.
    Invalid(Seq<char>),
}

/// The token that an identifier-shaped word stands for: a keyword, the
/// discard `_`, or a name that is all upper or all lower case.
pub open spec fn word_token(word: Seq<char>) -> Option<TokenView> {
    if keyword_of(word) is Some {
        Some(TokenView::Keyword(keyword_of(word)->0))
    } else if word == seq!['_'] || is_upper_ident(word) || is_lower_ident(word) {
        Some(TokenView::Ident(word))
    } else {
        None
    }
}

/// The token that a run of one to three digits stands for: the bits `0`
/// and `1`, or a number.
pub open spec fn number_token(digits: Seq<char>) -> TokenView {
    if digits == seq!['0'] {
        TokenView::Bit(false)
    } else if digits == seq!['1'] {
        TokenView::Bit(true)
    } else {
        TokenView::Number(decimal_value(digits) as u32)
    }
}

/// What stands at position `i` of `s`.
pub open spec fn scan(s: Seq<char>, i: int) -> Scan
    recommends
        0 <= i < s.len(),
{
    let c = s[i];
    if c == '#' {
        Scan::Skip(comment_end(s, i))
    } else if c == '"' {
        match string_end(s, i + 1) {
            Some(j) => Scan::Token(TokenView::String(s.subrange(i + 1, j)), j + 1),
            None => Scan::Invalid(Seq::empty()),
        }
    } else if is_lower(c) || is_upper(c) || c == '_' {
        let end = word_end(s, i);
        match word_token(s.subrange(i, end)) {
            Some(t) => Scan::Token(t, end),
            None => Scan::Invalid(s.subrange(i, end)),
        }
    } else if is_digit(c) {
        let end = number_end(s, i, 3);
        Scan::Token(number_token(s.subrange(i, end)), end)
    } else if c == '=' {
        if i + 1 < s.len() && s[i + 1] == '>' {
            Scan::Token(TokenView::Arrow, i + 2)
        } else {
            Scan::Token(TokenView::Assign, i + 1)
        }
    } else if c == '{' {
        Scan::Token(TokenView::BraceLeft, i + 1)
    } else if c == '}' {
        Scan::Token(TokenView::BraceRight, i + 1)
    } else if c == '(' {
        Scan::Token(TokenView::ParenthesisLeft, i + 1)
    } else if c == ')' {
        Scan::Token(TokenView::ParenthesisRight, i + 1)
    } else if c == ',' {
        Scan::Token(TokenView::Comma, i + 1)
    } else if c == ';' {
        Scan::Token(TokenView::Semicolon, i + 1)
    } else if c == '+' {
        Scan::Token(TokenView::Invert(false), i + 1)
    } else if c == '-' {
        Scan::Token(TokenView::Invert(true), i + 1)
    } else if is_space(c) {
        Scan::Skip(space_end(s, i))
    } else {
        Scan::Invalid(Seq::empty())
    }
}

/// The tokens of `s` from position `i` on, behind those already found.
pub open spec fn lex_from(s: Seq<char>, i: int, found: Seq<TokenView>) -> Result<
    Seq<TokenView>,
    ErrorView,
>
    decreases s.len() - i,
{
    if i < 0 || i >= s.len() {
        Ok(found)
    } else {
        match scan(s, i) {
            Scan::Skip(next) => if i < next <= s.len() {
                lex_from(s, next, found)
            } else {
                Err(bare(ErrorKind::LexInvalid))
            },
            Scan::Token(t, next) => if i < next <= s.len() {
                lex_from(s, next, found.push(t))
            } else {
                Err(bare(ErrorKind::LexInvalid))
            },
            Scan::Invalid(word) => Err(at(ErrorKind::LexInvalid, word)),
        }
    }
}

/// The tokens of a source text, or `LexInvalid` where it holds a character
/// or a word that the language does not know.
pub open spec fn lex(s: Seq<char>) -> Result<Seq<TokenView>, ErrorView> {
    lex_from(s, 0, Seq::empty())
}

fn find_comment_end(chars: &Vec<char>, from: usize) -> (end: usize)
    requires
        from < chars@.len(),
    ensures
        end == comment_end(chars@, from as int),
        from < end <= chars@.len(),
{
    let mut i: usize = from;
    while i < chars.len() && chars[i] != '\n'
        invariant
            from <= i <= chars@.len(),
            comment_end(chars@, from as int) == comment_end(chars@, i as int),
        decreases chars@.len() - i,
    {
        i += 1;
    }
    if i < chars.len() {
        i + 1
    } else {
        i
    }
}

fn find_string_end(chars: &Vec<char>, from: usize) -> (end: Option<usize>)
    requires
        from <= chars@.len(),
    ensures
        match end {
            Some(j) => string_end(chars@, from as int) == Some(j as int) && from <= j < chars@.len(),
            None => string_end(chars@, from as int) is None,
        },
{
    let mut i: usize = from;
    while i < chars.len() && chars[i] != '\n' && chars[i] != '"'
        invariant
            from <= i <= chars@.len(),
            string_end(chars@, from as int) == string_end(chars@, i as int),
        decreases chars@.len() - i,
    {
        i += 1;
    }
    if i < chars.len() && chars[i] == '"' {
        Some(i)
    } else {
        None
    }
}

fn find_word_end(chars: &Vec<char>, from: usize) -> (end: usize)
    requires
        from <= chars@.len(),
    ensures
        end == word_end(chars@, from as int),
        from <= end <= chars@.len(),
{
    let mut i: usize = from;
    while i < chars.len() && char_is_word(chars[i])
        invariant
            from <= i <= chars@.len(),
            word_end(chars@, from as int) == word_end(chars@, i as int),
        decreases chars@.len() - i,
    {
        i += 1;
    }
    i
}

fn find_space_end(chars: &Vec<char>, from: usize) -> (end: usize)
    requires
        from <= chars@.len(),
    ensures
        end == space_end(chars@, from as int),
        from <= end <= chars@.len(),
{
    let mut i: usize = from;
    while i < chars.len() && char_is_space(chars[i])
        invariant
            from <= i <= chars@.len(),
            space_end(chars@, from as int) == space_end(chars@, i as int),
        decreases chars@.len() - i,
    {
        i += 1;
    }
    i
}

fn find_number_end(chars: &Vec<char>, from: usize, max: usize) -> (end: usize)
    requires
        from <= chars@.len(),
        max <= 3,
    ensures
        end == number_end(chars@, from as int, max as nat),
        from <= end <= chars@.len(),
        end <= from + max,
        forall|j: int| from <= j < end ==> is_digit(#[trigger] chars@[j]),
{
    let mut i: usize = from;
    let mut room: usize = max;
    while room > 0 && i < chars.len() && char_is_digit(chars[i])
        invariant
            from <= i <= chars@.len(),
            i + room == from + max,
            max <= 3,
            number_end(chars@, from as int, max as nat) == number_end(chars@, i as int, room as nat),
            forall|j: int| from <= j < i ==> is_digit(#[trigger] chars@[j]),
        decreases room,
    {
        i += 1;
        room -= 1;
    }
    i
}

/// The value of the digits `chars[from..to]`, at most three of them.
fn parse_decimal(chars: &Vec<char>, from: usize, to: usize) -> (value: u32)
    requires
        from <= to <= chars@.len(),
        to <= from + 3,
        forall|j: int| from <= j < to ==> is_digit(#[trigger] chars@[j]),
    ensures
        value == decimal_value(chars@.subrange(from as int, to as int)),
        value <= 999,
{
    let mut value: u32 = 0;
    let mut i: usize = from;
    assert(chars@.subrange(from as int, from as int) =~= Seq::<char>::empty());
    while i < to
        invariant
            from <= i <= to <= chars@.len(),
            to <= from + 3,
            forall|j: int| from <= j < to ==> is_digit(#[trigger] chars@[j]),
            value == decimal_value(chars@.subrange(from as int, i as int)),
            i == from ==> value == 0,
            i == from + 1 ==> value <= 9,
            i == from + 2 ==> value <= 99,
            i == from + 3 ==> value <= 999,
        decreases to - i,
    {
        let d = char_digit_value(chars[i]);
        proof {
            let next = chars@.subrange(from as int, i + 1);
            assert(next.drop_last() =~= chars@.subrange(from as int, i as int));
            assert(next.last() == chars@[i as int]);
        }
        value = 10 * value + d;
        i += 1;
    }
    value
}

impl Token {
    /// The tokens of `code`, in order, without blanks and comments.
    ///
    /// Fails with `LexInvalid` at the first character that starts no token, at
    /// a `"` that is not closed on its line, and at a word that mixes upper
    /// and lower case.
    pub fn tokenize(code: &str) -> (r: Result<Vec<Token>, CompileError>)
        ensures
            match r {
                Ok(tokens) => lex(code@) == Ok::<Seq<TokenView>, ErrorView>(views(tokens@)),
                Err(e) => lex(code@) == Err::<Seq<TokenView>, ErrorView>(e@),
            },
    {
        let chars = chars_of(code);
        let mut tokens: Vec<Token> = Vec::new();
        let mut i: usize = 0;
        proof {
            lemma_views_empty::<Token>();
        }
        while i < chars.len()
            invariant
                i <= chars@.len(),
                chars@ == code@,
                lex(code@) == lex_from(chars@, i as int, views(tokens@)),
            decreases chars@.len() - i,
        {
            let c = chars[i];
            let ghost before = tokens@;
            if c == '#' {
                i = find_comment_end(&chars, i);
            } else if c == '"' {
                match find_string_end(&chars, i + 1) {
                    Some(j) => {
                        tokens.push(Token::String(string_of(&chars, i + 1, j)));
                        i = j + 1;
                    },
                    None => {
                        return Err(CompileError::new(ErrorKind::LexInvalid));
                    },
                }
            } else if char_is_lower(c) || char_is_upper(c) || c == '_' {
                let end = find_word_end(&chars, i + 1);
                assert(end == word_end(chars@, i as int));
                let word = string_of(&chars, i, end);
                let word_chars = chars_of(word.as_str());
                let underscore: [char; 1] = ['_'];
                assert(underscore@ =~= seq!['_']);
                match Keyword::from_chars(&word_chars) {
                    Some(k) => {
                        tokens.push(Token::Keyword(k));
                    },
                    None => {
                        if chars_match(&word_chars, underscore.as_slice()) || chars_are_upper_ident(
                            &word_chars,
                        ) || chars_are_lower_ident(&word_chars) {
                            tokens.push(Token::Ident(word));
                        } else {
                            return Err(CompileError { kind: ErrorKind::LexInvalid, subject: word });
                        }
                    },
                }
                i = end;
            } else if char_is_digit(c) {
                let end = find_number_end(&chars, i + 1, 2);
                assert(end == number_end(chars@, i as int, 3));
                let value = parse_decimal(&chars, i, end);
                let ghost digits = chars@.subrange(i as int, end as int);
                if end == i + 1 && c == '0' {
                    assert(digits =~= seq!['0']);
                    tokens.push(Token::Bit(false));
                } else if end == i + 1 && c == '1' {
                    assert(digits =~= seq!['1']);
                    tokens.push(Token::Bit(true));
                } else {
                    assert(digits != seq!['0'] && digits != seq!['1']) by {
                        assert(digits[0] == c);
                        assert(digits.len() == end - i);
                    }
                    tokens.push(Token::Number(value));
                }
                i = end;
            } else if c == '=' {
                if i + 1 < chars.len() && chars[i + 1] == '>' {
                    tokens.push(Token::Arrow);
                    i = i + 2;
                } else {
                    tokens.push(Token::Assign);
                    i = i + 1;
                }
            } else if c == '{' {
                tokens.push(Token::BraceLeft);
                i = i + 1;
            } else if c == '}' {
                tokens.push(Token::BraceRight);
                i = i + 1;
            } else if c == '(' {
                tokens.push(Token::ParenthesisLeft);
                i = i + 1;
            } else if c == ')' {
                tokens.push(Token::ParenthesisRight);
                i = i + 1;
            } else if c == ',' {
                tokens.push(Token::Comma);
                i = i + 1;
            } else if c == ';' {
                tokens.push(Token::Semicolon);
                i = i + 1;
            } else if c == '+' {
                tokens.push(Token::Invert(false));
                i = i + 1;
            } else if c == '-' {
                tokens.push(Token::Invert(true));
                i = i + 1;
            } else if char_is_space(c) {
                let end = find_space_end(&chars, i + 1);
                assert(end == space_end(chars@, i as int));
                i = end;
            } else {
                return Err(CompileError::new(ErrorKind::LexInvalid));
            }
            proof {
                if tokens@.len() > before.len() {
                    assert(tokens@ == before.push(tokens@.last()));
                    lemma_views_push(before, tokens@.last());
                }
            }
        }
        Ok(tokens)
    }
}

} // verus!
