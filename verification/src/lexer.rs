//! The tokens of a query.
//!
//! A token that begins with a digit is a number as far as its digits and one point go. Where it
//! goes on with `-`, `:` or a second point it is a word instead, so that `2024-01-01`, `10:30` and
//! `1.2.3` are words. A letter ends a number, so that `30m` is a number and a word.
use crate::error::QueryErrorKind;
use crate::query::CompareOp;
use crate::text;
use crate::text::{is_digit, is_letter, is_white_space, text_between};
use vstd::prelude::*;

verus! {

/// A token, and the index of its first character.
#[derive(Debug)]
pub struct Token {
    pub kind: TokenKind,
    pub at: usize,
}

/// What a token is.
#[derive(Debug)]
pub enum TokenKind {
    /// A bare word.
    Word(String),
    /// The text between two quotes.
    Quoted(String),
    /// Digits with at most one point, perhaps with a sign.
    Number(String),
    Op(CompareOp),
}

/// What a [`TokenKind`] says.
pub enum KindModel {
    Word(Seq<char>),
    Quoted(Seq<char>),
    Number(Seq<char>),
    Op(CompareOp),
}

/// What a [`Token`] says.
pub struct TokenModel {
    pub kind: KindModel,
    pub at: int,
}

impl View for TokenKind {
    type V = KindModel;

    open spec fn view(&self) -> KindModel {
        match self {
            TokenKind::Word(t) => KindModel::Word(t@),
            TokenKind::Quoted(t) => KindModel::Quoted(t@),
            TokenKind::Number(t) => KindModel::Number(t@),
            TokenKind::Op(op) => KindModel::Op(*op),
        }
    }
}

impl View for Token {
    type V = TokenModel;

    open spec fn view(&self) -> TokenModel {
        TokenModel { kind: self.kind@, at: self.at as int }
    }
}

/// What is wrong with a query, and the index of the character where that is.
pub type Fault = (QueryErrorKind, int);

/// The characters beyond ASCII that words are made of: all but white space.
pub open spec fn foreign(c: char) -> bool {
    c >= '\u{80}' && !text::white_space(c)
}

/// The characters that begin a word.
pub open spec fn word_start(c: char) -> bool {
    text::letter(c) || c == '_' || foreign(c)
}

/// The characters that a word goes on with.
pub open spec fn word_char(c: char) -> bool {
    word_start(c) || text::digit(c) || c == '.' || c == '-' || c == ':'
}

/// Where the word that is under way at `i` ends.
pub open spec fn word_end(s: Seq<char>, i: int) -> int
    decreases s.len() - i,
{
    if 0 <= i < s.len() && word_char(s[i]) {
        word_end(s, i + 1)
    } else {
        i
    }
}

/// Where the number that is under way at `i` ends, and whether it turned into a word.
pub open spec fn number_end(s: Seq<char>, i: int, pointed: bool) -> (int, bool)
    decreases s.len() - i,
{
    if !(0 <= i < s.len()) {
        (i, false)
    } else if text::digit(s[i]) {
        number_end(s, i + 1, pointed)
    } else if s[i] == '.' && !pointed {
        number_end(s, i + 1, true)
    } else if s[i] == '.' || s[i] == '-' || s[i] == ':' {
        (word_end(s, i), true)
    } else {
        (i, false)
    }
}

/// The first quote at or after `i`, or the end of the text.
pub open spec fn quote_end(s: Seq<char>, i: int) -> int
    decreases s.len() - i,
{
    if 0 <= i < s.len() && s[i] != '"' {
        quote_end(s, i + 1)
    } else {
        i
    }
}

/// Whether a number begins at `i`: a digit, or a sign in front of one.
pub open spec fn number_start(s: Seq<char>, i: int) -> bool {
    text::digit(s[i]) || (s[i] == '-' && i + 1 < s.len() && text::digit(s[i + 1]))
}

/// The token that begins at `i`, and where it ends.
pub open spec fn token_at(s: Seq<char>, i: int) -> Result<(KindModel, int), QueryErrorKind> {
    if s[i] == '"' {
        let end = quote_end(s, i + 1);
        if end < s.len() {
            Ok((KindModel::Quoted(s.subrange(i + 1, end)), end + 1))
        } else {
            Err(QueryErrorKind::UnterminatedString)
        }
    } else if s[i] == '=' {
        Ok((KindModel::Op(CompareOp::Eq), i + 1))
    } else if s[i] == '!' && i + 1 < s.len() && s[i + 1] == '=' {
        Ok((KindModel::Op(CompareOp::NotEq), i + 2))
    } else if s[i] == '>' {
        Ok((KindModel::Op(CompareOp::Gt), i + 1))
    } else if s[i] == '<' {
        Ok((KindModel::Op(CompareOp::Lt), i + 1))
    } else if number_start(s, i) {
        let (end, turned) = number_end(s, i + 1, false);
        if turned {
            Ok((KindModel::Word(s.subrange(i, end)), end))
        } else {
            Ok((KindModel::Number(s.subrange(i, end)), end))
        }
    } else if word_start(s[i]) {
        let end = word_end(s, i);
        Ok((KindModel::Word(s.subrange(i, end)), end))
    } else {
        Err(QueryErrorKind::UnexpectedCharacter)
    }
}

/// The tokens from `i` on.
pub open spec fn tokens_from(s: Seq<char>, i: int) -> Result<Seq<TokenModel>, Fault>
    decreases s.len() - i,
{
    if !(0 <= i < s.len()) {
        Ok(seq![])
    } else if text::white_space(s[i]) {
        tokens_from(s, i + 1)
    } else {
        proof {
            tokens_advance(s, i);
        }
        match token_at(s, i) {
            Err(kind) => Err((kind, i)),
            Ok((kind, end)) => match tokens_from(s, end) {
                Ok(rest) => Ok(seq![TokenModel { kind, at: i }] + rest),
                Err(fault) => Err(fault),
            },
        }
    }
}

/// The tokens of a text.
pub open spec fn tokens_of(s: Seq<char>) -> Result<Seq<TokenModel>, Fault> {
    tokens_from(s, 0)
}

/// What a list of tokens says.
pub open spec fn token_models(tokens: Seq<Token>) -> Seq<TokenModel> {
    tokens.map_values(|t: Token| t@)
}

proof fn word_end_range(s: Seq<char>, i: int)
    requires
        0 <= i <= s.len(),
    ensures
        i <= word_end(s, i) <= s.len(),
    decreases s.len() - i,
{
    if i < s.len() && word_char(s[i]) {
        word_end_range(s, i + 1);
    }
}

proof fn number_end_range(s: Seq<char>, i: int, pointed: bool)
    requires
        0 <= i <= s.len(),
    ensures
        i <= number_end(s, i, pointed).0 <= s.len(),
    decreases s.len() - i,
{
    if i < s.len() {
        if text::digit(s[i]) {
            number_end_range(s, i + 1, pointed);
        } else if s[i] == '.' && !pointed {
            number_end_range(s, i + 1, true);
        } else {
            word_end_range(s, i);
        }
    }
}

proof fn quote_end_range(s: Seq<char>, i: int)
    requires
        0 <= i <= s.len(),
    ensures
        i <= quote_end(s, i) <= s.len(),
    decreases s.len() - i,
{
    if i < s.len() && s[i] != '"' {
        quote_end_range(s, i + 1);
    }
}

/// Every token takes up at least one character and none beyond the text.
pub proof fn tokens_advance(s: Seq<char>, i: int)
    requires
        0 <= i < s.len(),
    ensures
        token_at(s, i) matches Ok((_, end)) ==> i < end <= s.len(),
{
    quote_end_range(s, i + 1);
    number_end_range(s, i + 1, false);
    if word_start(s[i]) {
        word_end_range(s, i + 1);
    }
}

fn find_word_end(chars: &Vec<char>, from: usize) -> (r: usize)
    requires
        from <= chars@.len(),
    ensures
        r == word_end(chars@, from as int),
        from <= r <= chars@.len(),
{
    let mut i: usize = from;
    while i < chars.len() && is_word_char(chars[i])
        invariant
            from <= i <= chars@.len(),
            word_end(chars@, from as int) == word_end(chars@, i as int),
        decreases chars@.len() - i,
    {
        i = i + 1;
    }
    i
}

fn is_word_start(c: char) -> (r: bool)
    ensures
        r == word_start(c),
{
    is_letter(c) || c == '_' || (c >= '\u{80}' && !is_white_space(c))
}

fn is_word_char(c: char) -> (r: bool)
    ensures
        r == word_char(c),
{
    is_word_start(c) || is_digit(c) || c == '.' || c == '-' || c == ':'
}

fn find_number_end(chars: &Vec<char>, from: usize) -> (r: (usize, bool))
    requires
        from <= chars@.len(),
    ensures
        (r.0 as int, r.1) == number_end(chars@, from as int, false),
        from <= r.0 <= chars@.len(),
{
    let mut i: usize = from;
    let mut pointed = false;
    while i < chars.len() && (is_digit(chars[i]) || (chars[i] == '.' && !pointed))
        invariant
            from <= i <= chars@.len(),
            number_end(chars@, from as int, false) == number_end(chars@, i as int, pointed),
        decreases chars@.len() - i,
    {
        if chars[i] == '.' {
            pointed = true;
        }
        i = i + 1;
    }
    if i < chars.len() && (chars[i] == '.' || chars[i] == '-' || chars[i] == ':') {
        (find_word_end(chars, i), true)
    } else {
        (i, false)
    }
}

fn find_quote(chars: &Vec<char>, from: usize) -> (r: usize)
    requires
        from <= chars@.len(),
    ensures
        r == quote_end(chars@, from as int),
        from <= r <= chars@.len(),
{
    let mut i: usize = from;
    while i < chars.len() && chars[i] != '"'
        invariant
            from <= i <= chars@.len(),
            quote_end(chars@, from as int) == quote_end(chars@, i as int),
        decreases chars@.len() - i,
    {
        i = i + 1;
    }
    i
}

fn next_token(chars: &Vec<char>, i: usize) -> (r: Result<(TokenKind, usize), QueryErrorKind>)
    requires
        i < chars@.len(),
    ensures
        match r {
            Ok((kind, end)) => token_at(chars@, i as int) == Ok::<_, QueryErrorKind>(
                (kind@, end as int),
            ) && i < end <= chars@.len(),
            Err(kind) => token_at(chars@, i as int) == Err::<(KindModel, int), _>(kind),
        },
{
    proof {
        tokens_advance(chars@, i as int);
    }
    let len = chars.len();
    let c = chars[i];
    if c == '"' {
        let end = find_quote(chars, i + 1);
        if end < len {
            Ok((TokenKind::Quoted(text_between(chars, i + 1, end)), end + 1))
        } else {
            Err(QueryErrorKind::UnterminatedString)
        }
    } else if c == '=' {
        Ok((TokenKind::Op(CompareOp::Eq), i + 1))
    } else if c == '!' && i + 1 < len && chars[i + 1] == '=' {
        Ok((TokenKind::Op(CompareOp::NotEq), i + 2))
    } else if c == '>' {
        Ok((TokenKind::Op(CompareOp::Gt), i + 1))
    } else if c == '<' {
        Ok((TokenKind::Op(CompareOp::Lt), i + 1))
    } else if is_digit(c) || (c == '-' && i + 1 < len && is_digit(chars[i + 1])) {
        let (end, turned) = find_number_end(chars, i + 1);
        let token_text = text_between(chars, i, end);
        if turned {
            Ok((TokenKind::Word(token_text), end))
        } else {
            Ok((TokenKind::Number(token_text), end))
        }
    } else if is_word_start(c) {
        let end = find_word_end(chars, i);
        Ok((TokenKind::Word(text_between(chars, i, end)), end))
    } else {
        Err(QueryErrorKind::UnexpectedCharacter)
    }
}

/// The tokens of a text, or what is wrong with it and the index of the character where that is.
pub fn tokenize(chars: &Vec<char>) -> (r: Result<Vec<Token>, (QueryErrorKind, usize)>)
    ensures
        match r {
            Ok(tokens) => tokens_of(chars@) == Ok::<_, Fault>(token_models(tokens@)),
            Err((kind, at)) => at < chars@.len() && tokens_of(chars@) == Err::<
                Seq<TokenModel>,
                _,
            >((kind, at as int)),
        },
        r matches Ok(tokens) ==> forall|k: int|
            0 <= k < tokens@.len() ==> (#[trigger] tokens@[k]).at < chars@.len(),
{
    let mut tokens: Vec<Token> = Vec::new();
    let mut i: usize = 0;
    while i < chars.len()
        invariant
            i <= chars@.len(),
            match tokens_from(chars@, i as int) {
                Ok(rest) => tokens_of(chars@) == Ok::<_, Fault>(token_models(tokens@) + rest),
                Err(fault) => tokens_of(chars@) == Err::<Seq<TokenModel>, _>(fault),
            },
            forall|k: int| 0 <= k < tokens@.len() ==> (#[trigger] tokens@[k]).at < chars@.len(),
        decreases chars@.len() - i,
    {
        if is_white_space(chars[i]) {
            i = i + 1;
        } else {
            match next_token(chars, i) {
                Err(kind) => {
                    return Err((kind, i));
                },
                Ok((kind, end)) => {
                    let ghost before = tokens@;
                    let token = Token { kind, at: i };
                    let ghost model = token@;
                    tokens.push(token);
                    proof {
                        if tokens_from(chars@, end as int) is Ok {
                            let rest = tokens_from(chars@, end as int)->Ok_0;
                            assert(token_models(before) + (seq![model] + rest) == token_models(
                                tokens@,
                            ) + rest);
                        }
                    }
                    i = end;
                },
            }
        }
    }
    Ok(tokens)
}

} // verus!
