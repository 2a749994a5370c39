use vstd::prelude::*;
use vstd::string::StringExecFns;
use crate::parsing::lexer::{Position, Token, TokenKind};
use crate::text::{chars_of, decimal, digits_value, is_digit, join2, text_of_chars};

verus! {

/// What a token is, with the text of a name or of a string as plain
/// characters.
pub enum Shape {
    /// A keyword or a sign.
    Sign(TokenKind),
    Number(i64),
    Name(Seq<char>),
    Text(Seq<char>),
}

/// The shape of a token kind.
pub open spec fn shape_of(kind: TokenKind) -> Shape {
    match kind {
        TokenKind::Number(n) => Shape::Number(n),
        TokenKind::Name(text) => Shape::Name(text@),
        TokenKind::ConstString(text) => Shape::Text(text@),
        _ => Shape::Sign(kind),
    }
}

/// The shapes and positions of tokens.
pub open spec fn shapes(tokens: Seq<Token>) -> Seq<(Shape, Position)> {
    Seq::new(tokens.len(), |i: int| (shape_of(tokens[i].kind), tokens[i].position))
}

/// Why a text is no sequence of tokens.
#[derive(Clone, Copy, Debug, PartialEq, Eq, Structural)]
pub enum LexErrorKind {
    /// A character that starts no token.
    UnexpectedCharacter,
    /// A string without its closing quote on the line.
    UnterminatedString,
    /// A number that is beyond the integers of the language.
    NumberTooLarge,
    /// A text of more characters than a position can count.
    SourceTooLong,
}

/// A failure to read tokens: what is wrong, and where.
#[derive(Clone, Copy, Debug, PartialEq, Eq, Structural)]
pub struct LexError {
    pub kind: LexErrorKind,
    pub position: Position,
}

impl LexError {
    /// The diagnostic for an error.
    pub open spec fn spec_to_string(&self) -> Seq<char> {
        (match self.kind {
            LexErrorKind::UnexpectedCharacter => "unexpected character at ["@,
            LexErrorKind::UnterminatedString => "unterminated string at ["@,
            LexErrorKind::NumberTooLarge => "number too large at ["@,
            LexErrorKind::SourceTooLong => "source too long at ["@,
        }) + self.position.spec_to_string() + "]"@
    }

    pub fn to_string(&self) -> (text: String)
        ensures
            text@ == self.spec_to_string(),
    {
        let head = match self.kind {
            LexErrorKind::UnexpectedCharacter => "unexpected character at [",
            LexErrorKind::UnterminatedString => "unterminated string at [",
            LexErrorKind::NumberTooLarge => "number too large at [",
            LexErrorKind::SourceTooLong => "source too long at [",
        };
        let mut text = join2(head, self.position.to_string().as_str());
        text.append("]");
        text
    }
}

/// Whether a character can start a name.
pub open spec fn is_name_start(c: char) -> bool {
    'a' <= c <= 'z' || 'A' <= c <= 'Z' || c == '_'
}

/// Whether a character can stand inside a name.
pub open spec fn is_name_char(c: char) -> bool {
    is_name_start(c) || is_digit(c)
}

/// Whether a character separates tokens without being one.
pub open spec fn is_blank(c: char) -> bool {
    c == ' ' || c == '\t' || c == '\r'
}

/// The index after the name characters that stand from `i` on.
pub open spec fn name_end(source: Seq<char>, i: nat) -> nat
    decreases source.len() - i,
{
    if i < source.len() && is_name_char(source[i as int]) {
        name_end(source, i + 1)
    } else {
        i
    }
}

/// The index after the digits that stand from `i` on.
pub open spec fn digits_end(source: Seq<char>, i: nat) -> nat
    decreases source.len() - i,
{
    if i < source.len() && is_digit(source[i as int]) {
        digits_end(source, i + 1)
    } else {
        i
    }
}

/// The index of the quote that closes a string whose text starts at `i`,
/// if there is one before the line ends.
pub open spec fn string_end(source: Seq<char>, i: nat) -> Option<nat>
    decreases source.len() - i,
{
    if i >= source.len() || source[i as int] == '\n' {
        None
    } else if source[i as int] == '"' {
        Some(i)
    } else {
        string_end(source, i + 1)
    }
}

/// The keyword that a word is, if it is one.
pub open spec fn keyword(word: Seq<char>) -> Option<TokenKind> {
    if word == "var"@ {
        Some(TokenKind::Var)
    } else if word == "def"@ {
        Some(TokenKind::Def)
    } else if word == "struct"@ {
        Some(TokenKind::Struct)
    } else if word == "enum"@ {
        Some(TokenKind::Enum)
    } else if word == "impl"@ {
        Some(TokenKind::Impl)
    } else if word == "print"@ {
        Some(TokenKind::Print)
    } else if word == "assert"@ {
        Some(TokenKind::Assert)
    } else if word == "pass"@ {
        Some(TokenKind::Pass)
    } else if word == "if"@ {
        Some(TokenKind::If)
    } else if word == "then"@ {
        Some(TokenKind::Then)
    } else if word == "elif"@ {
        Some(TokenKind::ELif)
    } else if word == "else"@ {
        Some(TokenKind::Else)
    } else if word == "and"@ {
        Some(TokenKind::And)
    } else if word == "or"@ {
        Some(TokenKind::Or)
    } else if word == "not"@ {
        Some(TokenKind::Not)
    } else if word == "_"@ {
        Some(TokenKind::Blank)
    } else {
        None
    }
}

/// The sign that stands at `i`, if one does, and its length. A sign of
/// two characters wins over its first character alone.
pub open spec fn sign_at(source: Seq<char>, i: nat) -> Option<(TokenKind, nat)> {
    if i >= source.len() {
        None
    } else {
        let c = source[i as int];
        let next = if i + 1 < source.len() {
            Some(source[i as int + 1])
        } else {
            None
        };
        if c == '{' {
            Some((TokenKind::BeginBlock, 1))
        } else if c == '}' {
            Some((TokenKind::EndBlock, 1))
        } else if c == '\n' {
            Some((TokenKind::LineEnd, 1))
        } else if c == '(' {
            Some((TokenKind::LParen, 1))
        } else if c == ')' {
            Some((TokenKind::RParen, 1))
        } else if c == ',' {
            Some((TokenKind::Comma, 1))
        } else if c == '.' {
            Some((TokenKind::Dot, 1))
        } else if c == '?' {
            Some((TokenKind::QuestionMark, 1))
        } else if c == ':' {
            Some((TokenKind::Colon, 1))
        } else if c == '+' {
            Some((TokenKind::Plus, 1))
        } else if c == '/' {
            Some((TokenKind::Slash, 1))
        } else if c == '%' {
            Some((TokenKind::Mod, 1))
        } else if c == '-' {
            if next == Some('>') {
                Some((TokenKind::Arrow, 2))
            } else {
                Some((TokenKind::Minus, 1))
            }
        } else if c == '*' {
            if next == Some('*') {
                Some((TokenKind::Power, 2))
            } else {
                Some((TokenKind::Star, 1))
            }
        } else if c == '=' {
            if next == Some('=') {
                Some((TokenKind::CompareEquals, 2))
            } else {
                Some((TokenKind::Equals, 1))
            }
        } else if c == '!' {
            if next == Some('=') {
                Some((TokenKind::CompareNotEquals, 2))
            } else {
                None
            }
        } else if c == '>' {
            if next == Some('=') {
                Some((TokenKind::CompareGreaterEqual, 2))
            } else {
                Some((TokenKind::CompareGreater, 1))
            }
        } else if c == '<' {
            if next == Some('=') {
                Some((TokenKind::CompareLessEqual, 2))
            } else {
                Some((TokenKind::CompareLess, 1))
            }
        } else {
            None
        }
    }
}

/// The token that starts at `i`, which is no blank, and the index after
/// it: a name or keyword, a number, a string between double quotes on one
/// line, or a sign.
pub open spec fn token_at(source: Seq<char>, i: nat) -> Result<(Shape, nat), LexErrorKind> {
    let c = source[i as int];
    if is_name_start(c) {
        let end = name_end(source, i);
        let word = source.subrange(i as int, end as int);
        match keyword(word) {
            Some(kind) => Ok((Shape::Sign(kind), end)),
            None => Ok((Shape::Name(word), end)),
        }
    } else if is_digit(c) {
        let end = digits_end(source, i);
        let value = digits_value(source.subrange(i as int, end as int));
        if value > i64::MAX {
            Err(LexErrorKind::NumberTooLarge)
        } else {
            Ok((Shape::Number(value as i64), end))
        }
    } else if c == '"' {
        match string_end(source, i + 1) {
            Some(end) => Ok((Shape::Text(source.subrange(i as int + 1, end as int)), end + 1)),
            None => Err(LexErrorKind::UnterminatedString),
        }
    } else {
        match sign_at(source, i) {
            Some((kind, length)) => Ok((Shape::Sign(kind), i + length)),
            None => Err(LexErrorKind::UnexpectedCharacter),
        }
    }
}

/// The position after a token that started at `position` and ended
/// before `end`: a line end starts a new line, and any other token moves
/// on in its line.
pub open spec fn position_after(
    shape: Shape,
    position: Position,
    start: nat,
    end: nat,
) -> Position {
    if shape == Shape::Sign(TokenKind::LineEnd) {
        Position { line: (position.line + 1) as u32, column: 1 }
    } else {
        Position { line: position.line, column: (position.column + end - start) as u32 }
    }
}

/// The tokens of the text from index `i` on, which stands at `position`.
pub open spec fn scan(source: Seq<char>, i: nat, position: Position) -> Result<
    Seq<(Shape, Position)>,
    LexError,
>
    decreases source.len() - i,
{
    if i >= source.len() {
        Ok(Seq::empty())
    } else if is_blank(source[i as int]) {
        scan(source, i + 1, Position { line: position.line, column: (position.column + 1) as u32 })
    } else {
        match token_at(source, i) {
            Err(kind) => Err(LexError { kind, position }),
            Ok((shape, end)) => if end <= i || end > source.len() {
                Err(LexError { kind: LexErrorKind::UnexpectedCharacter, position })
            } else {
                match scan(source, end, position_after(shape, position, i, end)) {
                    Ok(rest) => Ok(seq![(shape, position)] + rest),
                    Err(error) => Err(error),
                }
            },
        }
    }
}

/// The tokens of a program: those of its text between the two that open
/// and close the block that a program is.
pub open spec fn program_tokens(source: Seq<char>) -> Result<Seq<(Shape, Position)>, LexError> {
    if source.len() >= u32::MAX {
        Err(
            LexError {
                kind: LexErrorKind::SourceTooLong,
                position: Position { line: 1, column: 1 },
            },
        )
    } else {
        match scan(source, 0, Position { line: 1, column: 1 }) {
            Ok(inner) => Ok(
                seq![(Shape::Sign(TokenKind::BeginBlock), Position { line: 1, column: 1 })] + inner
                    + seq![(Shape::Sign(TokenKind::EndBlock), end_position(source))],
            ),
            Err(error) => Err(error),
        }
    }
}

/// The position after the last character of a text.
pub open spec fn end_position(source: Seq<char>) -> Position {
    walk_position(source, source.len(), Position { line: 1, column: 1 })
}

/// The position of the index `n`, for a text that starts at `start`.
pub open spec fn walk_position(source: Seq<char>, n: nat, start: Position) -> Position
    decreases n,
{
    if n == 0 || n > source.len() {
        start
    } else {
        let before = walk_position(source, (n - 1) as nat, start);
        if source[n - 1] == '\n' {
            Position { line: (before.line + 1) as u32, column: 1 }
        } else {
            Position { line: before.line, column: (before.column + 1) as u32 }
        }
    }
}

/// Whether the characters from `from` to `to` are the word `word`.
fn is_word(chars: &Vec<char>, from: usize, to: usize, word: &str) -> (same: bool)
    requires
        from <= to <= chars@.len(),
    ensures
        same == (chars@.subrange(from as int, to as int) == word@),
{
    let n = word.unicode_len();
    if to - from != n {
        return false;
    }
    let mut k: usize = 0;
    while k < n
        invariant
            k <= n,
            n == word@.len(),
            to - from == n,
            from <= to <= chars@.len(),
            forall|j: int| 0 <= j < k ==> chars@[from + j] == word@[j],
        decreases n - k,
    {
        if chars[from + k] != word.get_char(k) {
            assert(chars@.subrange(from as int, to as int)[k as int] != word@[k as int]);
            return false;
        }
        k += 1;
    }
    assert(chars@.subrange(from as int, to as int) =~= word@);
    true
}

/// The keyword that the characters from `from` to `to` are, if they are one.
fn find_keyword(chars: &Vec<char>, from: usize, to: usize) -> (kind: Option<TokenKind>)
    requires
        from <= to <= chars@.len(),
    ensures
        kind == keyword(chars@.subrange(from as int, to as int)),
{
    if is_word(chars, from, to, "var") {
        Some(TokenKind::Var)
    } else if is_word(chars, from, to, "def") {
        Some(TokenKind::Def)
    } else if is_word(chars, from, to, "struct") {
        Some(TokenKind::Struct)
    } else if is_word(chars, from, to, "enum") {
        Some(TokenKind::Enum)
    } else if is_word(chars, from, to, "impl") {
        Some(TokenKind::Impl)
    } else if is_word(chars, from, to, "print") {
        Some(TokenKind::Print)
    } else if is_word(chars, from, to, "assert") {
        Some(TokenKind::Assert)
    } else if is_word(chars, from, to, "pass") {
        Some(TokenKind::Pass)
    } else if is_word(chars, from, to, "if") {
        Some(TokenKind::If)
    } else if is_word(chars, from, to, "then") {
        Some(TokenKind::Then)
    } else if is_word(chars, from, to, "elif") {
        Some(TokenKind::ELif)
    } else if is_word(chars, from, to, "else") {
        Some(TokenKind::Else)
    } else if is_word(chars, from, to, "and") {
        Some(TokenKind::And)
    } else if is_word(chars, from, to, "or") {
        Some(TokenKind::Or)
    } else if is_word(chars, from, to, "not") {
        Some(TokenKind::Not)
    } else if is_word(chars, from, to, "_") {
        Some(TokenKind::Blank)
    } else {
        None
    }
}

fn name_start(c: char) -> (b: bool)
    ensures
        b == is_name_start(c),
{
    ('a' <= c && c <= 'z') || ('A' <= c && c <= 'Z') || c == '_'
}

fn digit(c: char) -> (b: bool)
    ensures
        b == is_digit(c),
{
    '0' <= c && c <= '9'
}

/// Copies the characters from `from` to `to` into a text.
fn slice_text(chars: &Vec<char>, from: usize, to: usize) -> (text: String)
    requires
        from <= to <= chars@.len(),
    ensures
        text@ == chars@.subrange(from as int, to as int),
{
    let mut part: Vec<char> = Vec::new();
    let mut i: usize = from;
    while i < to
        invariant
            from <= i <= to <= chars@.len(),
            part@ == chars@.subrange(from as int, i as int),
        decreases to - i,
    {
        part.push(chars[i]);
        i += 1;
        assert(part@ =~= chars@.subrange(from as int, i as int));
    }
    text_of_chars(&part)
}

/// Reads the sign that stands at `i`.
fn read_sign(chars: &Vec<char>, i: usize) -> (sign: Option<(TokenKind, usize)>)
    requires
        i < chars@.len(),
    ensures
        sign is Some == sign_at(chars@, i as nat) is Some,
        sign is Some ==> sign->Some_0.0 == sign_at(chars@, i as nat)->Some_0.0 && sign->Some_0.1
            == sign_at(chars@, i as nat)->Some_0.1 && 1 <= sign->Some_0.1 <= 2 && i
            + sign->Some_0.1 <= chars@.len(),
{
    let c = chars[i];
    let n = chars.len();
    let next: Option<char> = if i + 1 < n {
        Some(chars[i + 1])
    } else {
        None
    };
    let follows = |wanted: char| -> (b: bool)
        ensures
            b == (next == Some(wanted)),
        {
            match next {
                Some(n) => n == wanted,
                None => false,
            }
        };
    if c == '{' {
        Some((TokenKind::BeginBlock, 1))
    } else if c == '}' {
        Some((TokenKind::EndBlock, 1))
    } else if c == '\n' {
        Some((TokenKind::LineEnd, 1))
    } else if c == '(' {
        Some((TokenKind::LParen, 1))
    } else if c == ')' {
        Some((TokenKind::RParen, 1))
    } else if c == ',' {
        Some((TokenKind::Comma, 1))
    } else if c == '.' {
        Some((TokenKind::Dot, 1))
    } else if c == '?' {
        Some((TokenKind::QuestionMark, 1))
    } else if c == ':' {
        Some((TokenKind::Colon, 1))
    } else if c == '+' {
        Some((TokenKind::Plus, 1))
    } else if c == '/' {
        Some((TokenKind::Slash, 1))
    } else if c == '%' {
        Some((TokenKind::Mod, 1))
    } else if c == '-' {
        if follows('>') {
            Some((TokenKind::Arrow, 2))
        } else {
            Some((TokenKind::Minus, 1))
        }
    } else if c == '*' {
        if follows('*') {
            Some((TokenKind::Power, 2))
        } else {
            Some((TokenKind::Star, 1))
        }
    } else if c == '=' {
        if follows('=') {
            Some((TokenKind::CompareEquals, 2))
        } else {
            Some((TokenKind::Equals, 1))
        }
    } else if c == '!' {
        if follows('=') {
            Some((TokenKind::CompareNotEquals, 2))
        } else {
            None
        }
    } else if c == '>' {
        if follows('=') {
            Some((TokenKind::CompareGreaterEqual, 2))
        } else {
            Some((TokenKind::CompareGreater, 1))
        }
    } else if c == '<' {
        if follows('=') {
            Some((TokenKind::CompareLessEqual, 2))
        } else {
            Some((TokenKind::CompareLess, 1))
        }
    } else {
        None
    }
}

/// Reads the token that starts at `i`.
fn read_token(chars: &Vec<char>, i: usize) -> (token: Result<(TokenKind, usize), LexErrorKind>)
    requires
        i < chars@.len(),
    ensures
        token is Err ==> token_at(chars@, i as nat) == Err::<(Shape, nat), LexErrorKind>(
            token->Err_0,
        ),
        token matches Ok((kind, end)) ==> token_at(chars@, i as nat) == Ok::<
            (Shape, nat),
            LexErrorKind,
        >((shape_of(kind), end as nat)) && end <= chars@.len(),
{
    let c = chars[i];
    let n = chars.len();
    if name_start(c) {
        let mut end: usize = i;
        while end < n && (name_start(chars[end]) || digit(chars[end]))
            invariant
                i <= end <= n,
                n == chars@.len(),
                name_end(chars@, i as nat) == name_end(chars@, end as nat),
            decreases n - end,
        {
            end += 1;
        }
        match find_keyword(chars, i, end) {
            Some(kind) => {
                assert(shape_of(kind) == Shape::Sign(kind));
                Ok((kind, end))
            },
            None => Ok((TokenKind::Name(slice_text(chars, i, end)), end)),
        }
    } else if digit(c) {
        let mut end: usize = i;
        let mut value: u64 = 0;
        let mut overflow = false;
        proof {
            assert(chars@.subrange(i as int, i as int) =~= Seq::<char>::empty());
        }
        while end < n && digit(chars[end])
            invariant
                i <= end <= n,
                n == chars@.len(),
                digits_end(chars@, i as nat) == digits_end(chars@, end as nat),
                !overflow ==> value == digits_value(chars@.subrange(i as int, end as int)) && value
                    <= i64::MAX,
                overflow ==> digits_value(chars@.subrange(i as int, end as int)) > i64::MAX,
            decreases n - end,
        {
            let d = (chars[end] as u32 - '0' as u32) as u64;
            proof {
                let longer = chars@.subrange(i as int, end + 1);
                assert(longer.drop_last() =~= chars@.subrange(i as int, end as int));
                assert(longer.last() == chars@[end as int]);
            }
            if !overflow {
                if value > 922337203685477580u64 || value * 10 + d > 9223372036854775807u64 {
                    overflow = true;
                } else {
                    value = value * 10 + d;
                }
            }
            end += 1;
        }
        if overflow {
            Err(LexErrorKind::NumberTooLarge)
        } else {
            Ok((TokenKind::Number(value as i64), end))
        }
    } else if c == '"' {
        let mut end: usize = i + 1;
        while end < n && chars[end] != '\n' && chars[end] != '"'
            invariant
                i < end <= n,
                n == chars@.len(),
                string_end(chars@, (i + 1) as nat) == string_end(chars@, end as nat),
            decreases n - end,
        {
            end += 1;
        }
        if end < n && chars[end] == '"' {
            Ok((TokenKind::ConstString(slice_text(chars, i + 1, end)), end + 1))
        } else {
            Err(LexErrorKind::UnterminatedString)
        }
    } else {
        match read_sign(chars, i) {
            Some((kind, length)) => {
                assert(shape_of(kind) == Shape::Sign(kind));
                Ok((kind, i + length))
            },
            None => Err(LexErrorKind::UnexpectedCharacter),
        }
    }
}

/// Reads the tokens of a program. The program is a block: the tokens of
/// the text stand between one that opens a block and one that closes it.
/// Names are made of letters, digits and `_` and start with no digit;
/// numbers are decimal; strings stand between double quotes on one line;
/// spaces, tabs and carriage returns separate tokens, and a line feed is
/// the token that ends a line.
pub fn tokenize(source: &str) -> (result: Result<Vec<Token>, String>)
    ensures
        program_tokens(source@) matches Ok(expected) ==> result is Ok && shapes(result->Ok_0@)
            == expected,
        program_tokens(source@) matches Err(error) ==> result is Err && result->Err_0@
            == error.spec_to_string(),
{
    let chars = chars_of(source);
    let n = chars.len();
    let first = Position { line: 1, column: 1 };
    if n >= u32::MAX as usize {
        let error = LexError { kind: LexErrorKind::SourceTooLong, position: first };
        return Err(error.to_string());
    }
    let mut tokens: Vec<Token> = Vec::new();
    tokens.push(Token { kind: TokenKind::BeginBlock, position: first });
    let mut i: usize = 0;
    let mut position = first;
    let ghost opening = seq![(Shape::Sign(TokenKind::BeginBlock), first)];
    proof {
        assert(shapes(tokens@) =~= opening);
    }
    while i < n
        invariant
            i <= n,
            n == chars@.len(),
            n < u32::MAX,
            chars@ == source@,
            first == (Position { line: 1, column: 1 }),
            opening == seq![(Shape::Sign(TokenKind::BeginBlock), first)],
            position == walk_position(chars@, i as nat, first),
            position.line <= i + 1,
            position.column <= i + 1,
            tokens@.len() >= 1,
            match scan(chars@, i as nat, position) {
                Ok(rest) => scan(chars@, 0, first) == Ok::<Seq<(Shape, Position)>, LexError>(
                    shapes(tokens@).subrange(1, tokens@.len() as int) + rest,
                ),
                Err(error) => scan(chars@, 0, first) == Err::<Seq<(Shape, Position)>, LexError>(
                    error,
                ),
            },
            shapes(tokens@)[0] == opening[0],
        decreases n - i,
    {
        let c = chars[i];
        if c == ' ' || c == '\t' || c == '\r' {
            position = Position { line: position.line, column: position.column + 1 };
            i += 1;
        } else {
            assert(!is_blank(chars@[i as int]));
            match read_token(&chars, i) {
                Err(kind) => {
                    let error = LexError { kind, position };
                    assert(scan(chars@, i as nat, position) == Err::<
                        Seq<(Shape, Position)>,
                        LexError,
                    >(error));
                    return Err(error.to_string());
                },
                Ok((kind, end)) => {
                    if end <= i {
                        let error = LexError { kind: LexErrorKind::UnexpectedCharacter, position };
                        assert(scan(chars@, i as nat, position) == Err::<
                            Seq<(Shape, Position)>,
                            LexError,
                        >(error));
                        return Err(error.to_string());
                    }
                    let ghost shape = shape_of(kind);
                    let ghost before = shapes(tokens@);
                    let is_line_end = match kind {
                        TokenKind::LineEnd => true,
                        _ => false,
                    };
                    proof {
                        lemma_walk_token(chars@, i as nat, end as nat, first, shape);
                    }
                    tokens.push(Token { kind, position });
                    proof {
                        assert(shapes(tokens@) =~= before.push((shape, position)));
                        let rest = scan(chars@, end as nat, position_after(shape, position, i as nat, end as nat));
                        if rest is Ok {
                            assert(before.subrange(1, before.len() as int) + (seq![
                                (shape, position),
                            ] + rest->Ok_0) =~= shapes(tokens@).subrange(
                                1,
                                tokens@.len() as int,
                            ) + rest->Ok_0);
                        }
                    }
                    position = if is_line_end {
                        Position { line: position.line + 1, column: 1 }
                    } else {
                        Position {
                            line: position.line,
                            column: position.column + (end - i) as u32,
                        }
                    };
                    i = end;
                },
            }
        }
    }
    proof {
        assert(scan(chars@, n as nat, position) == Ok::<Seq<(Shape, Position)>, LexError>(
            Seq::empty(),
        ));
        assert(shapes(tokens@).subrange(1, tokens@.len() as int) + Seq::<
            (Shape, Position),
        >::empty() =~= shapes(tokens@).subrange(1, tokens@.len() as int));
    }
    let ghost before = shapes(tokens@);
    tokens.push(Token { kind: TokenKind::EndBlock, position });
    proof {
        assert(shapes(tokens@) =~= opening + before.subrange(1, before.len() as int) + seq![
            (Shape::Sign(TokenKind::EndBlock), position),
        ]);
    }
    Ok(tokens)
}

/// A token that is no line end stands on one line, and a line end is one
/// line feed: the position after the token is the position of the index
/// after it.
proof fn lemma_walk_token(source: Seq<char>, i: nat, end: nat, first: Position, shape: Shape)
    requires
        i < end <= source.len(),
        source.len() < u32::MAX,
        !is_blank(source[i as int]),
        token_at(source, i) == Ok::<(Shape, nat), LexErrorKind>((shape, end)),
        walk_position(source, i, first).line <= i + 1,
        walk_position(source, i, first).column <= i + 1,
        first == (Position { line: 1, column: 1 }),
    ensures
        walk_position(source, end, first) == position_after(
            shape,
            walk_position(source, i, first),
            i,
            end,
        ),
        walk_position(source, end, first).line <= end + 1,
        walk_position(source, end, first).column <= end + 1,
{
    let c = source[i as int];
    if shape == Shape::Sign(TokenKind::LineEnd) {
        lemma_keyword_is_no_line_end(source.subrange(i as int, name_end(source, i) as int));
        assert(c == '\n');
        assert(end == i + 1);
    } else {
        lemma_token_has_no_line_feed(source, i, end, shape);
        lemma_walk_line(source, i, end, first);
    }
}

proof fn lemma_keyword_is_no_line_end(word: Seq<char>)
    ensures
        keyword(word) != Some(TokenKind::LineEnd),
{
}

/// The position moves on in its line over characters that are no line feeds.
proof fn lemma_walk_line(source: Seq<char>, i: nat, end: nat, first: Position)
    requires
        i <= end <= source.len(),
        source.len() < u32::MAX,
        forall|k: int| i <= k < end ==> source[k] != '\n',
        walk_position(source, i, first).line <= i + 1,
        walk_position(source, i, first).column <= i + 1,
    ensures
        walk_position(source, end, first).line == walk_position(source, i, first).line,
        walk_position(source, end, first).column == walk_position(source, i, first).column + end
            - i,
    decreases end - i,
{
    if i < end {
        lemma_walk_line(source, i, (end - 1) as nat, first);
    }
}

/// A token that is no line end holds no line feed.
proof fn lemma_token_has_no_line_feed(source: Seq<char>, i: nat, end: nat, shape: Shape)
    requires
        i < end <= source.len(),
        !is_blank(source[i as int]),
        token_at(source, i) == Ok::<(Shape, nat), LexErrorKind>((shape, end)),
        shape != Shape::Sign(TokenKind::LineEnd),
    ensures
        forall|k: int| i <= k < end ==> source[k] != '\n',
{
    let c = source[i as int];
    if is_name_start(c) {
        lemma_name_run(source, i);
    } else if is_digit(c) {
        lemma_digit_run(source, i);
    } else if c == '"' {
        lemma_string_run(source, i + 1);
    } else {
    }
}

proof fn lemma_name_run(source: Seq<char>, i: nat)
    ensures
        i <= name_end(source, i),
        i <= source.len() ==> name_end(source, i) <= source.len(),
        forall|k: int| i <= k < name_end(source, i) ==> is_name_char(source[k]),
    decreases source.len() - i,
{
    if i < source.len() && is_name_char(source[i as int]) {
        lemma_name_run(source, i + 1);
    }
}

proof fn lemma_digit_run(source: Seq<char>, i: nat)
    ensures
        i <= digits_end(source, i),
        i <= source.len() ==> digits_end(source, i) <= source.len(),
        forall|k: int| i <= k < digits_end(source, i) ==> is_digit(source[k]),
    decreases source.len() - i,
{
    if i < source.len() && is_digit(source[i as int]) {
        lemma_digit_run(source, i + 1);
    }
}

proof fn lemma_string_run(source: Seq<char>, i: nat)
    ensures
        string_end(source, i) matches Some(end) ==> i <= end < source.len() && source[end as int]
            == '"' && forall|k: int| i <= k < end ==> source[k] != '\n',
    decreases source.len() - i,
{
    if i < source.len() && source[i as int] != '\n' && source[i as int] != '"' {
        lemma_string_run(source, i + 1);
    }
}

} // verus!
