//! The textual filter language: a tokenizer and a recursive-descent parser
//! that turn `(primary_category math.NT || category math.AG) && seen` into a
//! `Filter`.
use vstd::prelude::*;

use crate::filter::Filter;
use crate::tag::{valid_tag, TagName};
use crate::text::{push_char, str_eq};

verus! {

/// The kinds of token of the filter language.
#[derive(Debug, Clone, Copy, PartialEq, Eq, Structural)]
pub enum TokenKind {
    /// A quoted string; its text is the unescaped content.
    Quoted,
    /// An unquoted word.
    Word,
    Open,
    Close,
    Not,
    And,
    Or,
}

/// A token and the character position where it starts.
pub struct Token {
    pub kind: TokenKind,
    pub text: String,
    pub start: usize,
}

/// Why a filter text was refused.
#[derive(Debug, Clone, Copy, PartialEq, Eq)]
pub enum FilterError {
    /// A character that starts no token, or a bad escape, at this character
    /// position; `None` where the text ended too early.
    Lex(Option<usize>),
    /// The token at this position does not fit the grammar; `None` where the
    /// tokens ended too early.
    Syntax(Option<usize>),
}

/// What the tokenizer is in the middle of.
pub enum LexMode {
    Normal,
    /// A word that started at this position, with its text so far.
    Word(int, Seq<char>),
    /// A string quoted with this character, started at this position, with its
    /// unescaped text so far.
    Quote(char, int, Seq<char>),
}

/// Characters that end an unquoted word.
pub open spec fn is_delimiter(c: char) -> bool {
    c == ' ' || c == '(' || c == ')' || c == '!' || c == '&' || c == '|' || c == '\'' || c == '"'
}

pub open spec fn mode_rank(m: LexMode) -> int {
    match m {
        LexMode::Normal => 0,
        _ => 1,
    }
}

/// The tokens of `s` from position `i` on, in mode `m`, after the tokens
/// `acc`: each token is its kind, its text and its start.
pub open spec fn lex(s: Seq<char>, i: int, m: LexMode, acc: Seq<(TokenKind, Seq<char>, int)>) -> Result<
    Seq<(TokenKind, Seq<char>, int)>,
    Option<int>,
>
    decreases s.len() - i, mode_rank(m),
{
    if i < 0 {
        Err(None)
    } else if i >= s.len() {
        match m {
            LexMode::Normal => Ok(acc),
            LexMode::Word(start, t) => Ok(acc.push((TokenKind::Word, t, start))),
            LexMode::Quote(_, _, _) => Err(None),
        }
    } else {
        let c = s[i];
        match m {
            LexMode::Word(start, t) => if is_delimiter(c) {
                lex(s, i, LexMode::Normal, acc.push((TokenKind::Word, t, start)))
            } else {
                lex(s, i + 1, LexMode::Word(start, t.push(c)), acc)
            },
            LexMode::Quote(q, start, t) => if c == q {
                lex(s, i + 1, LexMode::Normal, acc.push((TokenKind::Quoted, t, start)))
            } else if c == '\\' {
                if i + 1 >= s.len() {
                    Err(None)
                } else if s[i + 1] == '\'' || s[i + 1] == '"' || s[i + 1] == '\\' {
                    lex(s, i + 2, LexMode::Quote(q, start, t.push(s[i + 1])), acc)
                } else {
                    Err(Some(i))
                }
            } else {
                lex(s, i + 1, LexMode::Quote(q, start, t.push(c)), acc)
            },
            LexMode::Normal => if c == ' ' {
                lex(s, i + 1, LexMode::Normal, acc)
            } else if c == '(' {
                lex(s, i + 1, LexMode::Normal, acc.push((TokenKind::Open, seq!['('], i)))
            } else if c == ')' {
                lex(s, i + 1, LexMode::Normal, acc.push((TokenKind::Close, seq![')'], i)))
            } else if c == '!' {
                lex(s, i + 1, LexMode::Normal, acc.push((TokenKind::Not, seq!['!'], i)))
            } else if c == '&' || c == '|' {
                if i + 1 < s.len() && s[i + 1] == c {
                    lex(
                        s,
                        i + 2,
                        LexMode::Normal,
                        acc.push((if c == '&' { TokenKind::And } else { TokenKind::Or }, seq![c, c], i)),
                    )
                } else if i + 1 < s.len() {
                    Err(Some(i + 1))
                } else {
                    Err(None)
                }
            } else if c == '\'' || c == '"' {
                lex(s, i + 1, LexMode::Quote(c, i, Seq::empty()), acc)
            } else {
                lex(s, i + 1, LexMode::Word(i, seq![c]), acc)
            },
        }
    }
}

/// The tokens of a whole filter text.
pub open spec fn tokens_of(s: Seq<char>) -> Result<Seq<(TokenKind, Seq<char>, int)>, Option<int>> {
    lex(s, 0, LexMode::Normal, Seq::empty())
}

pub open spec fn token_view(t: Token) -> (TokenKind, Seq<char>, int) {
    (t.kind, t.text@, t.start as int)
}

pub open spec fn tokens_view(ts: Seq<Token>) -> Seq<(TokenKind, Seq<char>, int)> {
    ts.map_values(|t: Token| token_view(t))
}

/// Splits a filter text into tokens.
pub fn tokenize(text: &str) -> (r: Result<Vec<Token>, FilterError>)
    ensures
        match tokens_of(text@) {
            Ok(ts) => r is Ok && tokens_view(r->Ok_0@) == ts,
            Err(e) => r is Err && r->Err_0 == FilterError::Lex(
                match e {
                    Some(i) => Some(i as usize),
                    None => None,
                },
            ),
        },
{
    let n = text.unicode_len();
    let mut out: Vec<Token> = Vec::new();
    // 0: between tokens, 1: in a word, 2: in a quoted string.
    let mut mode: u8 = 0;
    let mut quote: char = '"';
    let mut start: usize = 0;
    let mut cur = String::new();
    let mut i: usize = 0;
    let ghost s = text@;
    assert(tokens_view(out@) =~= Seq::<(TokenKind, Seq<char>, int)>::empty());
    while i < n
        invariant
            n == s.len(),
            s == text@,
            i <= n,
            mode <= 2,
            mode != 0 ==> start < i,
            tokens_of(s) == lex(
                s,
                i as int,
                if mode == 0 {
                    LexMode::Normal
                } else if mode == 1 {
                    LexMode::Word(start as int, cur@)
                } else {
                    LexMode::Quote(quote, start as int, cur@)
                },
                tokens_view(out@),
            ),
        decreases n - i, mode,
    {
        let c = text.get_char(i);
        let ghost before = tokens_view(out@);
        if mode == 1 {
            if c == ' ' || c == '(' || c == ')' || c == '!' || c == '&' || c == '|' || c == '\''
                || c == '"' {
                let mut word = String::new();
                core::mem::swap(&mut word, &mut cur);
                out.push(Token { kind: TokenKind::Word, text: word, start });
                assert(tokens_view(out@) =~= before.push((TokenKind::Word, word@, start as int)));
                mode = 0;
            } else {
                push_char(&mut cur, c);
                i = i + 1;
            }
        } else if mode == 2 {
            if c == quote {
                let mut t = String::new();
                core::mem::swap(&mut t, &mut cur);
                out.push(Token { kind: TokenKind::Quoted, text: t, start });
                assert(tokens_view(out@) =~= before.push((TokenKind::Quoted, t@, start as int)));
                mode = 0;
                i = i + 1;
            } else if c == '\\' {
                if i + 1 >= n {
                    return Err(FilterError::Lex(None));
                }
                let d = text.get_char(i + 1);
                if d == '\'' || d == '"' || d == '\\' {
                    push_char(&mut cur, d);
                    i = i + 2;
                } else {
                    return Err(FilterError::Lex(Some(i)));
                }
            } else {
                push_char(&mut cur, c);
                i = i + 1;
            }
        } else {
            if c == ' ' {
                i = i + 1;
            } else if c == '(' || c == ')' || c == '!' {
                let mut t = String::new();
                push_char(&mut t, c);
                let kind = if c == '(' {
                    TokenKind::Open
                } else if c == ')' {
                    TokenKind::Close
                } else {
                    TokenKind::Not
                };
                out.push(Token { kind, text: t, start: i });
                assert(t@ =~= seq![c]);
                assert(tokens_view(out@) =~= before.push((kind, seq![c], i as int)));
                i = i + 1;
            } else if c == '&' || c == '|' {
                if i + 1 < n && text.get_char(i + 1) == c {
                    let mut t = String::new();
                    push_char(&mut t, c);
                    push_char(&mut t, c);
                    let kind = if c == '&' {
                        TokenKind::And
                    } else {
                        TokenKind::Or
                    };
                    out.push(Token { kind, text: t, start: i });
                    assert(t@ =~= seq![c, c]);
                    assert(tokens_view(out@) =~= before.push((kind, seq![c, c], i as int)));
                    i = i + 2;
                } else if i + 1 < n {
                    return Err(FilterError::Lex(Some(i + 1)));
                } else {
                    return Err(FilterError::Lex(None));
                }
            } else if c == '\'' || c == '"' {
                mode = 2;
                quote = c;
                start = i;
                cur = String::new();
                assert(cur@ =~= Seq::<char>::empty());
                i = i + 1;
            } else {
                mode = 1;
                start = i;
                cur = String::new();
                push_char(&mut cur, c);
                assert(cur@ =~= seq![c]);
                i = i + 1;
            }
        }
    }
    if mode == 1 {
        let ghost before = tokens_view(out@);
        out.push(Token { kind: TokenKind::Word, text: cur, start });
        assert(tokens_view(out@) =~= before.push((TokenKind::Word, cur@, start as int)));
        Ok(out)
    } else if mode == 2 {
        Err(FilterError::Lex(None))
    } else {
        Ok(out)
    }
}

/// The shapes an unquoted argument may be required to have.
#[derive(Debug, Clone, Copy, PartialEq, Eq)]
pub enum Shape {
    /// ASCII letters, dots and hyphens.
    Category,
    /// `YYYY-MM-DD` in digits.
    Date,
    /// At most five ASCII digits or upper case letters.
    Class,
}

pub open spec fn is_ascii_digit(c: char) -> bool {
    '0' <= c && c <= '9'
}

pub open spec fn has_shape(shape: Shape, s: Seq<char>) -> bool {
    match shape {
        Shape::Category => forall|i: int|
            0 <= i < s.len() ==> ('a' <= #[trigger] s[i] && s[i] <= 'z') || ('A' <= s[i] && s[i]
                <= 'Z') || s[i] == '.' || s[i] == '-',
        Shape::Date => s.len() == 10 && forall|i: int|
            0 <= i < 10 ==> if i == 4 || i == 7 {
                #[trigger] s[i] == '-'
            } else {
                is_ascii_digit(s[i])
            },
        Shape::Class => s.len() <= 5 && forall|i: int|
            0 <= i < s.len() ==> is_ascii_digit(#[trigger] s[i]) || ('A' <= s[i] && s[i] <= 'Z'),
    }
}

fn check_shape(shape: Shape, s: &str) -> (r: bool)
    ensures
        r == has_shape(shape, s@),
{
    let n = s.unicode_len();
    match shape {
        Shape::Date => {
            if n != 10 {
                return false;
            }
        },
        Shape::Class => {
            if n > 5 {
                return false;
            }
        },
        Shape::Category => {},
    }
    let mut i: usize = 0;
    while i < n
        invariant
            n == s@.len(),
            i <= n,
            shape == Shape::Date ==> n == 10,
            shape == Shape::Class ==> n <= 5,
            forall|j: int|
                0 <= j < i ==> match shape {
                    Shape::Category => ('a' <= #[trigger] s@[j] && s@[j] <= 'z') || ('A' <= s@[j]
                        && s@[j] <= 'Z') || s@[j] == '.' || s@[j] == '-',
                    Shape::Date => if j == 4 || j == 7 {
                        s@[j] == '-'
                    } else {
                        is_ascii_digit(s@[j])
                    },
                    Shape::Class => is_ascii_digit(s@[j]) || ('A' <= s@[j] && s@[j] <= 'Z'),
                },
        decreases n - i,
    {
        let c = s.get_char(i);
        let ok = match shape {
            Shape::Category => ('a' <= c && c <= 'z') || ('A' <= c && c <= 'Z') || c == '.' || c
                == '-',
            Shape::Date => if i == 4 || i == 7 {
                c == '-'
            } else {
                '0' <= c && c <= '9'
            },
            Shape::Class => ('0' <= c && c <= '9') || ('A' <= c && c <= 'Z'),
        };
        if !ok {
            return false;
        }
        i = i + 1;
    }
    true
}

/// The text fields that a word condition searches.
#[derive(Debug, Clone, Copy, PartialEq, Eq)]
pub enum Field {
    Title,
    Author,
    Abstract,
    Comments,
    Notes,
    Any,
    Id,
}

pub open spec fn field_filter(f: Field, s: String) -> Filter {
    match f {
        Field::Title => Filter::Title(s),
        Field::Author => Filter::Author(s),
        Field::Abstract => Filter::Abstract(s),
        Field::Comments => Filter::Comments(s),
        Field::Notes => Filter::Notes(s),
        Field::Any => Filter::Any(s),
        Field::Id => Filter::Id(s),
    }
}

/// `True && c(s1) && c(s2) ...`, grouped to the left.
pub open spec fn fold_and(f: Field, ss: Seq<String>) -> Filter
    decreases ss.len(),
{
    if ss.len() == 0 {
        Filter::True
    } else {
        Filter::And(Box::new(fold_and(f, ss.drop_last())), Box::new(field_filter(f, ss.last())))
    }
}

/// `True || c(s1) || c(s2) ...`, grouped to the left.
pub open spec fn fold_or(f: Field, ss: Seq<String>) -> Filter
    decreases ss.len(),
{
    if ss.len() == 0 {
        Filter::True
    } else {
        Filter::Or(Box::new(fold_or(f, ss.drop_last())), Box::new(field_filter(f, ss.last())))
    }
}

/// `True && tag(s1) && tag(s2) ...`, grouped to the left.
pub open spec fn fold_tags(ss: Seq<String>) -> Filter
    decreases ss.len(),
{
    if ss.len() == 0 {
        Filter::True
    } else {
        Filter::And(Box::new(fold_tags(ss.drop_last())), Box::new(Filter::Tag(TagName(ss.last()))))
    }
}

pub open spec fn is_string(t: Token) -> bool {
    t.kind == TokenKind::Quoted || t.kind == TokenKind::Word
}

/// The texts of the run of string tokens from `pos` on, after `acc`, and the
/// position after the run.
pub open spec fn string_run(ts: Seq<Token>, pos: int, acc: Seq<String>) -> (Seq<String>, int)
    decreases ts.len() - pos,
{
    if 0 <= pos < ts.len() && is_string(ts[pos]) {
        string_run(ts, pos + 1, acc.push(ts[pos].text))
    } else {
        (acc, pos)
    }
}

/// One string token or more.
pub open spec fn strings_at(ts: Seq<Token>, pos: int) -> Result<(Seq<String>, int), Option<int>> {
    if pos < 0 || pos >= ts.len() {
        Err(None)
    } else if is_string(ts[pos]) {
        Ok(string_run(ts, pos + 1, seq![ts[pos].text]))
    } else {
        Err(Some(pos))
    }
}

/// An unquoted word of the given shape.
pub open spec fn word_at(ts: Seq<Token>, pos: int, shape: Shape) -> Result<(String, int), Option<int>> {
    if pos < 0 || pos >= ts.len() {
        Err(None)
    } else if ts[pos].kind == TokenKind::Word && has_shape(shape, ts[pos].text@) {
        Ok((ts[pos].text, pos + 1))
    } else {
        Err(Some(pos))
    }
}

/// The conditions that take one unquoted argument.
#[derive(Debug, Clone, Copy, PartialEq, Eq)]
pub enum WordCondition {
    PrimaryCategory,
    Category,
    EncounteredAfter,
    SubmittedAfter,
    Acm,
    Msc,
}

pub open spec fn word_condition(w: WordCondition, s: String) -> Filter {
    match w {
        WordCondition::PrimaryCategory => Filter::PrimaryCategoryIs(s),
        WordCondition::Category => Filter::InCategory(s),
        WordCondition::EncounteredAfter => Filter::FirstVersionEncounteredAfter(s),
        WordCondition::SubmittedAfter => Filter::FirstVersionSubmittedAfter(s),
        WordCondition::Acm => Filter::ACMClass(s),
        WordCondition::Msc => Filter::MSCClass(s),
    }
}

pub open spec fn map_word(r: Result<(String, int), Option<int>>, w: WordCondition) -> Result<(Filter, int), Option<int>> {
    match r {
        Ok((s, e)) => Ok((word_condition(w, s), e)),
        Err(x) => Err(x),
    }
}

pub open spec fn map_fold(r: Result<(Seq<String>, int), Option<int>>, f: Field, or: bool) -> Result<(Filter, int), Option<int>> {
    match r {
        Ok((ss, e)) => Ok((if or { fold_or(f, ss) } else { fold_and(f, ss) }, e)),
        Err(x) => Err(x),
    }
}

/// A condition that starts with the keyword at `pos`.
pub open spec fn keyword_at(ts: Seq<Token>, pos: int) -> Result<(Filter, int), Option<int>> {
    let w = ts[pos].text@;
    if w == "primary_category"@ {
        map_word(word_at(ts, pos + 1, Shape::Category), WordCondition::PrimaryCategory)
    } else if w == "category"@ {
        map_word(word_at(ts, pos + 1, Shape::Category), WordCondition::Category)
    } else if w == "first_version_encountered_after"@ {
        map_word(word_at(ts, pos + 1, Shape::Date), WordCondition::EncounteredAfter)
    } else if w == "first_version_submitted_after"@ {
        map_word(word_at(ts, pos + 1, Shape::Date), WordCondition::SubmittedAfter)
    } else if w == "acm"@ {
        map_word(word_at(ts, pos + 1, Shape::Class), WordCondition::Acm)
    } else if w == "msc"@ {
        map_word(word_at(ts, pos + 1, Shape::Class), WordCondition::Msc)
    } else if w == "title"@ {
        map_fold(strings_at(ts, pos + 1), Field::Title, false)
    } else if w == "author"@ {
        map_fold(strings_at(ts, pos + 1), Field::Author, false)
    } else if w == "abstract"@ {
        map_fold(strings_at(ts, pos + 1), Field::Abstract, false)
    } else if w == "comments"@ {
        map_fold(strings_at(ts, pos + 1), Field::Comments, false)
    } else if w == "notes"@ {
        map_fold(strings_at(ts, pos + 1), Field::Notes, false)
    } else if w == "any"@ {
        map_fold(strings_at(ts, pos + 1), Field::Any, false)
    } else if w == "id"@ {
        map_fold(strings_at(ts, pos + 1), Field::Id, true)
    } else if w == "tag"@ {
        match strings_at(ts, pos + 1) {
            Ok((ss, e)) => if forall|i: int| 0 <= i < ss.len() ==> valid_tag(#[trigger] ss[i]@) {
                Ok((fold_tags(ss), e))
            } else {
                Err(Some(pos))
            },
            Err(x) => Err(x),
        }
    } else if w == "bookmarked"@ {
        Ok((Filter::Bookmarked, pos + 1))
    } else if w == "seen"@ {
        Ok((Filter::Seen, pos + 1))
    } else if w == "true"@ {
        Ok((Filter::True, pos + 1))
    } else if w == "false"@ {
        Ok((Filter::False, pos + 1))
    } else {
        Err(Some(pos))
    }
}

/// A condition at `pos`: a parenthesized expression, a negated condition,
/// or a keyword condition. `fuel` bounds the depth of the derivation.
pub open spec fn term_at(ts: Seq<Token>, pos: int, fuel: nat) -> Result<(Filter, int), Option<int>>
    decreases fuel,
{
    if fuel == 0 {
        Err(Some(-1))
    } else if pos < 0 || pos >= ts.len() {
        Err(None)
    } else if ts[pos].kind == TokenKind::Open {
        expr_at(ts, pos + 1, true, (fuel - 1) as nat)
    } else if ts[pos].kind == TokenKind::Not {
        match term_at(ts, pos + 1, (fuel - 1) as nat) {
            Ok((g, e)) => Ok((Filter::Not(Box::new(g)), e)),
            Err(x) => Err(x),
        }
    } else if ts[pos].kind == TokenKind::Word {
        keyword_at(ts, pos)
    } else {
        Err(Some(pos))
    }
}

/// Conditions joined by `&&` alone or by `||` alone, grouped to the left,
/// ending at a `)` inside parentheses and at the end outside.
pub open spec fn expr_at(ts: Seq<Token>, pos: int, inside: bool, fuel: nat) -> Result<(Filter, int), Option<int>>
    decreases fuel,
{
    if fuel == 0 {
        Err(Some(-1))
    } else {
        match term_at(ts, pos, (fuel - 1) as nat) {
            Ok((g, e)) => rest_at(ts, e, inside, g, 0, (fuel - 1) as nat),
            Err(x) => Err(x),
        }
    }
}

/// The rest of an expression after `acc`; `prev` is 0 before the first
/// operator, 1 after `&&` and 2 after `||`.
pub open spec fn rest_at(ts: Seq<Token>, pos: int, inside: bool, acc: Filter, prev: int, fuel: nat) -> Result<(Filter, int), Option<int>>
    decreases fuel,
{
    if fuel == 0 {
        Err(Some(-1))
    } else if pos < 0 || pos >= ts.len() {
        if inside {
            Err(None)
        } else {
            Ok((acc, pos))
        }
    } else if ts[pos].kind == TokenKind::Close && inside {
        Ok((acc, pos + 1))
    } else if (ts[pos].kind == TokenKind::And && prev != 2) || (ts[pos].kind == TokenKind::Or
        && prev != 1) {
        let and = ts[pos].kind == TokenKind::And;
        match term_at(ts, pos + 1, (fuel - 1) as nat) {
            Ok((g, e)) => rest_at(
                ts,
                e,
                inside,
                if and {
                    Filter::And(Box::new(acc), Box::new(g))
                } else {
                    Filter::Or(Box::new(acc), Box::new(g))
                },
                if and {
                    1
                } else {
                    2
                },
                (fuel - 1) as nat,
            ),
            Err(x) => Err(x),
        }
    } else {
        Err(Some(pos))
    }
}

/// Fuel that suffices for a term at `pos`.
pub open spec fn term_fuel(n: int, pos: int) -> int {
    3 * (n - pos) + 3
}

/// Fuel that suffices for an expression at `pos`.
pub open spec fn expr_fuel(n: int, pos: int) -> int {
    3 * (n - pos) + 4
}

/// Fuel that suffices for the rest of an expression at `pos`.
pub open spec fn rest_fuel(n: int, pos: int) -> int {
    3 * (n - pos) + 5
}

pub open spec fn syntax_error(x: Option<int>) -> FilterError {
    FilterError::Syntax(
        match x {
            Some(i) => Some(i as usize),
            None => None,
        },
    )
}

/// An executable parse result agrees with the specified one.
pub open spec fn agrees(r: Result<(Filter, usize), FilterError>, s: Result<(Filter, int), Option<int>>) -> bool {
    match s {
        Ok((f, e)) => r is Ok && r->Ok_0.0 == f && r->Ok_0.1 == e,
        Err(x) => r is Err && r->Err_0 == syntax_error(x),
    }
}

fn strings(ts: &Vec<Token>, pos: usize) -> (r: Result<(Vec<String>, usize), FilterError>)
    ensures
        match strings_at(ts@, pos as int) {
            Ok((ss, e)) => r is Ok && r->Ok_0.0@ == ss && r->Ok_0.1 == e,
            Err(x) => r is Err && r->Err_0 == syntax_error(x),
        },
{
    if pos >= ts.len() {
        return Err(FilterError::Syntax(None));
    }
    if !(ts[pos].kind == TokenKind::Quoted || ts[pos].kind == TokenKind::Word) {
        return Err(FilterError::Syntax(Some(pos)));
    }
    let mut out: Vec<String> = Vec::new();
    out.push(ts[pos].text.clone());
    let mut i: usize = pos + 1;
    assert(out@ =~= seq![ts@[pos as int].text]);
    while i < ts.len() && (ts[i].kind == TokenKind::Quoted || ts[i].kind == TokenKind::Word)
        invariant
            pos < i <= ts@.len(),
            string_run(ts@, pos + 1, seq![ts@[pos as int].text]) == string_run(ts@, i as int, out@),
        decreases ts@.len() - i,
    {
        out.push(ts[i].text.clone());
        i = i + 1;
    }
    Ok((out, i))
}

fn word(ts: &Vec<Token>, pos: usize, shape: Shape) -> (r: Result<(String, usize), FilterError>)
    ensures
        match word_at(ts@, pos as int, shape) {
            Ok((w, e)) => r is Ok && r->Ok_0.0 == w && r->Ok_0.1 == e,
            Err(x) => r is Err && r->Err_0 == syntax_error(x),
        },
{
    if pos >= ts.len() {
        return Err(FilterError::Syntax(None));
    }
    if ts[pos].kind == TokenKind::Word && check_shape(shape, ts[pos].text.as_str()) {
        Ok((ts[pos].text.clone(), pos + 1))
    } else {
        Err(FilterError::Syntax(Some(pos)))
    }
}

fn make(f: Field, s: String) -> (r: Filter)
    ensures
        r == field_filter(f, s),
{
    match f {
        Field::Title => Filter::Title(s),
        Field::Author => Filter::Author(s),
        Field::Abstract => Filter::Abstract(s),
        Field::Comments => Filter::Comments(s),
        Field::Notes => Filter::Notes(s),
        Field::Any => Filter::Any(s),
        Field::Id => Filter::Id(s),
    }
}

fn fold(f: Field, ss: Vec<String>, or: bool) -> (r: Filter)
    ensures
        r == if or {
            fold_or(f, ss@)
        } else {
            fold_and(f, ss@)
        },
{
    let ghost all = ss@;
    let mut rest = ss;
    let mut res = Filter::True;
    let ghost mut k: int = 0;
    assert(all.subrange(0, 0) =~= Seq::<String>::empty());
    while rest.len() > 0
        invariant
            0 <= k <= all.len(),
            rest@ == all.subrange(k, all.len() as int),
            res == if or {
                fold_or(f, all.subrange(0, k))
            } else {
                fold_and(f, all.subrange(0, k))
            },
        decreases rest@.len(),
    {
        let s = rest.remove(0);
        assert(s == all[k]);
        assert(all.subrange(0, k + 1).drop_last() =~= all.subrange(0, k));
        res = if or {
            Filter::Or(Box::new(res), Box::new(make(f, s)))
        } else {
            Filter::And(Box::new(res), Box::new(make(f, s)))
        };
        proof {
            k = k + 1;
        }
        assert(rest@ =~= all.subrange(k, all.len() as int));
    }
    assert(all.subrange(0, k) =~= all);
    res
}

fn tags(ss: Vec<String>) -> (r: Option<Filter>)
    ensures
        (forall|i: int| 0 <= i < ss@.len() ==> valid_tag(#[trigger] ss@[i]@)) ==> r == Some(
            fold_tags(ss@),
        ),
        !(forall|i: int| 0 <= i < ss@.len() ==> valid_tag(#[trigger] ss@[i]@)) ==> r is None,
{
    let ghost all = ss@;
    let mut rest = ss;
    let mut res = Filter::True;
    let ghost mut k: int = 0;
    assert(all.subrange(0, 0) =~= Seq::<String>::empty());
    while rest.len() > 0
        invariant
            0 <= k <= all.len(),
            rest@ == all.subrange(k, all.len() as int),
            all == ss@,
            res == fold_tags(all.subrange(0, k)),
            forall|i: int| 0 <= i < k ==> valid_tag(#[trigger] all[i]@),
        decreases rest@.len(),
    {
        let s = rest.remove(0);
        assert(s == all[k]);
        assert(all.subrange(0, k + 1).drop_last() =~= all.subrange(0, k));
        match TagName::parse(s.as_str()) {
            Ok(_) => {},
            Err(_) => {
                return None;
            },
        }
        res = Filter::And(Box::new(res), Box::new(Filter::Tag(TagName(s))));
        proof {
            k = k + 1;
        }
        assert(rest@ =~= all.subrange(k, all.len() as int));
    }
    assert(all.subrange(0, k) =~= all);
    Some(res)
}

fn word_filter(ts: &Vec<Token>, pos: usize, shape: Shape, w: WordCondition) -> (r: Result<(Filter, usize), FilterError>)
    ensures
        agrees(r, map_word(word_at(ts@, pos as int, shape), w)),
{
    match word(ts, pos, shape) {
        Ok((s, e)) => {
            let f = match w {
                WordCondition::PrimaryCategory => Filter::PrimaryCategoryIs(s),
                WordCondition::Category => Filter::InCategory(s),
                WordCondition::EncounteredAfter => Filter::FirstVersionEncounteredAfter(s),
                WordCondition::SubmittedAfter => Filter::FirstVersionSubmittedAfter(s),
                WordCondition::Acm => Filter::ACMClass(s),
                WordCondition::Msc => Filter::MSCClass(s),
            };
            Ok((f, e))
        },
        Err(e) => Err(e),
    }
}

fn fold_filter(ts: &Vec<Token>, pos: usize, f: Field, or: bool) -> (r: Result<(Filter, usize), FilterError>)
    ensures
        agrees(r, map_fold(strings_at(ts@, pos as int), f, or)),
{
    match strings(ts, pos) {
        Ok((ss, e)) => Ok((fold(f, ss, or), e)),
        Err(e) => Err(e),
    }
}

fn keyword(ts: &Vec<Token>, pos: usize) -> (r: Result<(Filter, usize), FilterError>)
    requires
        pos < ts@.len(),
    ensures
        agrees(r, keyword_at(ts@, pos as int)),
{
    let w = ts[pos].text.as_str();
    let n = ts.len();
    assert(pos < n);
    let next = pos + 1;
    if str_eq(w, "primary_category") {
        word_filter(ts, next, Shape::Category, WordCondition::PrimaryCategory)
    } else if str_eq(w, "category") {
        word_filter(ts, next, Shape::Category, WordCondition::Category)
    } else if str_eq(w, "first_version_encountered_after") {
        word_filter(ts, next, Shape::Date, WordCondition::EncounteredAfter)
    } else if str_eq(w, "first_version_submitted_after") {
        word_filter(ts, next, Shape::Date, WordCondition::SubmittedAfter)
    } else if str_eq(w, "acm") {
        word_filter(ts, next, Shape::Class, WordCondition::Acm)
    } else if str_eq(w, "msc") {
        word_filter(ts, next, Shape::Class, WordCondition::Msc)
    } else if str_eq(w, "title") {
        fold_filter(ts, next, Field::Title, false)
    } else if str_eq(w, "author") {
        fold_filter(ts, next, Field::Author, false)
    } else if str_eq(w, "abstract") {
        fold_filter(ts, next, Field::Abstract, false)
    } else if str_eq(w, "comments") {
        fold_filter(ts, next, Field::Comments, false)
    } else if str_eq(w, "notes") {
        fold_filter(ts, next, Field::Notes, false)
    } else if str_eq(w, "any") {
        fold_filter(ts, next, Field::Any, false)
    } else if str_eq(w, "id") {
        fold_filter(ts, next, Field::Id, true)
    } else if str_eq(w, "tag") {
        match strings(ts, next) {
            Ok((ss, e)) => match tags(ss) {
                Some(f) => Ok((f, e)),
                None => Err(FilterError::Syntax(Some(pos))),
            },
            Err(e) => Err(e),
        }
    } else if str_eq(w, "bookmarked") {
        Ok((Filter::Bookmarked, next))
    } else if str_eq(w, "seen") {
        Ok((Filter::Seen, next))
    } else if str_eq(w, "true") {
        Ok((Filter::True, next))
    } else if str_eq(w, "false") {
        Ok((Filter::False, next))
    } else {
        Err(FilterError::Syntax(Some(pos)))
    }
}

/// Parses a condition at `pos`.
fn term(ts: &Vec<Token>, pos: usize) -> (r: Result<(Filter, usize), FilterError>)
    requires
        pos <= ts@.len(),
    ensures
        forall|f: nat|
            f >= term_fuel(ts@.len() as int, pos as int) ==> agrees(
                r,
                #[trigger] term_at(ts@, pos as int, f),
            ),
        r is Ok ==> pos < r->Ok_0.1 <= ts@.len(),
    decreases ts@.len() - pos, 0int,
{
    if pos >= ts.len() {
        return Err(FilterError::Syntax(None));
    }
    let n = ts.len();
    let kind = ts[pos].kind;
    if kind == TokenKind::Open {
        let r = expression(ts, pos + 1, true);
        assert forall|f: nat| f >= term_fuel(n as int, pos as int) implies agrees(
            r,
            #[trigger] term_at(ts@, pos as int, f),
        ) by {
            assert(expr_at(ts@, pos + 1, true, (f - 1) as nat) == term_at(ts@, pos as int, f));
        }
        r
    } else if kind == TokenKind::Not {
        let r = match term(ts, pos + 1) {
            Ok((g, e)) => Ok((Filter::Not(Box::new(g)), e)),
            Err(x) => Err(x),
        };
        assert forall|f: nat| f >= term_fuel(n as int, pos as int) implies agrees(
            r,
            #[trigger] term_at(ts@, pos as int, f),
        ) by {
            let inner = term_at(ts@, pos + 1, (f - 1) as nat);
            assert((f - 1) as nat >= term_fuel(n as int, pos + 1));
        }
        r
    } else if kind == TokenKind::Word {
        let r = keyword(ts, pos);
        proof {
            lemma_keyword_progress(ts@, pos as int);
        }
        r
    } else {
        Err(FilterError::Syntax(Some(pos)))
    }
}

proof fn lemma_keyword_progress(ts: Seq<Token>, pos: int)
    requires
        0 <= pos < ts.len(),
    ensures
        keyword_at(ts, pos) is Ok ==> pos < keyword_at(ts, pos)->Ok_0.1 <= ts.len(),
{
    lemma_strings_progress(ts, pos + 1);
}

proof fn lemma_strings_progress(ts: Seq<Token>, pos: int)
    ensures
        strings_at(ts, pos) is Ok ==> pos < strings_at(ts, pos)->Ok_0.1 <= ts.len(),
{
    if 0 <= pos < ts.len() && is_string(ts[pos]) {
        lemma_run_progress(ts, pos + 1, seq![ts[pos].text]);
    }
}

proof fn lemma_run_progress(ts: Seq<Token>, pos: int, acc: Seq<String>)
    requires
        0 <= pos <= ts.len(),
    ensures
        pos <= string_run(ts, pos, acc).1 <= ts.len(),
    decreases ts.len() - pos,
{
    if 0 <= pos < ts.len() && is_string(ts[pos]) {
        lemma_run_progress(ts, pos + 1, acc.push(ts[pos].text));
    }
}

/// Parses an expression at `pos`: conditions joined by `&&` alone or by `||`
/// alone, ending at `)` when `inside` parentheses, else at the end.
fn expression(ts: &Vec<Token>, pos: usize, inside: bool) -> (r: Result<(Filter, usize), FilterError>)
    requires
        pos <= ts@.len(),
    ensures
        forall|f: nat|
            f >= expr_fuel(ts@.len() as int, pos as int) ==> agrees(
                r,
                #[trigger] expr_at(ts@, pos as int, inside, f),
            ),
        r is Ok ==> pos < r->Ok_0.1 <= ts@.len(),
    decreases ts@.len() - pos, 1int,
{
    let n = ts.len();
    let r1 = term(ts, pos);
    let (first, e) = match r1 {
        Ok(x) => x,
        Err(x) => {
            assert forall|f: nat| f >= expr_fuel(n as int, pos as int) implies agrees(
                Err::<(Filter, usize), FilterError>(x),
                #[trigger] expr_at(ts@, pos as int, inside, f),
            ) by {
                assert((f - 1) as nat >= term_fuel(n as int, pos as int));
                assert(agrees(r1, term_at(ts@, pos as int, (f - 1) as nat)));
            }
            return Err(x);
        },
    };
    let mut acc = first;
    let mut cur = e;
    let mut prev: u8 = 0;
    let ghost mut k: int = 1;
    assert forall|f: nat| f >= expr_fuel(n as int, pos as int) implies #[trigger] expr_at(
        ts@,
        pos as int,
        inside,
        f,
    ) == rest_at(ts@, cur as int, inside, acc, prev as int, (f - k) as nat) by {
        assert((f - 1) as nat >= term_fuel(n as int, pos as int));
        assert(agrees(r1, term_at(ts@, pos as int, (f - 1) as nat)));
    }
    loop
        invariant
            n == ts@.len(),
            pos < cur <= n,
            prev <= 2,
            k >= 1,
            expr_fuel(n as int, pos as int) - k >= rest_fuel(n as int, cur as int),
            forall|f: nat|
                f >= expr_fuel(n as int, pos as int) ==> #[trigger] expr_at(ts@, pos as int, inside, f)
                    == rest_at(ts@, cur as int, inside, acc, prev as int, (f - k) as nat),
        decreases n - cur,
    {
        if cur >= n {
            if inside {
                return Err(FilterError::Syntax(None));
            } else {
                return Ok((acc, cur));
            }
        }
        let kind = ts[cur].kind;
        if kind == TokenKind::Close && inside {
            return Ok((acc, cur + 1));
        }
        if (kind == TokenKind::And && prev != 2) || (kind == TokenKind::Or && prev != 1) {
            let and = kind == TokenKind::And;
            let r2 = term(ts, cur + 1);
            let (g, e2) = match r2 {
                Ok(x) => x,
                Err(x) => {
                    assert forall|f: nat| f >= expr_fuel(n as int, pos as int) implies agrees(
                        Err::<(Filter, usize), FilterError>(x),
                        #[trigger] expr_at(ts@, pos as int, inside, f),
                    ) by {
                        assert(((f - k) as nat - 1) as nat >= term_fuel(n as int, cur + 1));
                        assert(agrees(r2, term_at(ts@, cur + 1, ((f - k) as nat - 1) as nat)));
                        assert(expr_at(ts@, pos as int, inside, f) == rest_at(
                            ts@,
                            cur as int,
                            inside,
                            acc,
                            prev as int,
                            (f - k) as nat,
                        ));
                    }
                    return Err(x);
                },
            };
            let ghost old_acc = acc;
            let ghost old_cur = cur;
            let ghost old_prev = prev;
            acc = if and {
                Filter::And(Box::new(acc), Box::new(g))
            } else {
                Filter::Or(Box::new(acc), Box::new(g))
            };
            prev = if and {
                1
            } else {
                2
            };
            cur = e2;
            proof {
                assert forall|f: nat| f >= expr_fuel(n as int, pos as int) implies #[trigger] expr_at(
                    ts@,
                    pos as int,
                    inside,
                    f,
                ) == rest_at(ts@, cur as int, inside, acc, prev as int, (f - (k + 1)) as nat) by {
                    assert(((f - k) as nat - 1) as nat >= term_fuel(n as int, old_cur + 1));
                    assert(((f - k) as nat - 1) as nat == (f - (k + 1)) as nat);
                    assert(agrees(r2, term_at(ts@, old_cur + 1, ((f - k) as nat - 1) as nat)));
                    assert(expr_at(ts@, pos as int, inside, f) == rest_at(
                        ts@,
                        old_cur as int,
                        inside,
                        old_acc,
                        old_prev as int,
                        (f - k) as nat,
                    ));
                }
                k = k + 1;
            }
        } else {
            return Err(FilterError::Syntax(Some(cur)));
        }
    }
}

/// The filter that a text spells, if any: the parse of its tokens as one
/// expression.
pub open spec fn parses_to(ts: Seq<Token>, r: Result<Filter, FilterError>) -> bool {
    match expr_at(ts, 0, false, expr_fuel(ts.len() as int, 0) as nat) {
        Ok((f, _)) => r == Ok::<Filter, FilterError>(f),
        Err(x) => r == Err::<Filter, FilterError>(syntax_error(x)),
    }
}

/// Parses a filter text.
pub fn parse_filter(text: &str) -> (r: Result<Filter, FilterError>)
    ensures
        match tokens_of(text@) {
            Err(e) => r == Err::<Filter, FilterError>(
                FilterError::Lex(
                    match e {
                        Some(i) => Some(i as usize),
                        None => None,
                    },
                ),
            ),
            Ok(tvs) => exists|ts: Seq<Token>| tokens_view(ts) == tvs && parses_to(ts, r),
        },
{
    let ts = match tokenize(text) {
        Ok(ts) => ts,
        Err(e) => {
            return Err(e);
        },
    };
    let r = match expression(&ts, 0, false) {
        Ok((f, _)) => Ok(f),
        Err(e) => Err(e),
    };
    assert(parses_to(ts@, r));
    r
}

impl std::str::FromStr for Filter {
    type Err = FilterError;

    fn from_str(s: &str) -> Result<Filter, FilterError> {
        parse_filter(s)
    }
}

} // verus!
