use vstd::prelude::*;
use crate::token::{SourceLocation, Token, TokenKind, keyword_of, kind_of, lookup_identifier};

verus! {

/// The longest source text, in characters, that the scanner accepts; it
/// leaves room for the cursor to run a few places past the end.
pub const MAX_SOURCE_LEN: usize = usize::MAX - 16;

/// A problem found while scanning, with the line and column where it was
/// noticed.
#[derive(Debug, PartialEq, Clone)]
pub struct LexerError {
    pub line: usize,
    pub column: usize,
    pub message: String,
}

/// Whether `c` has the Unicode `Alphabetic` property.
pub uninterp spec fn alphabetic(c: char) -> bool;

pub open spec fn is_ascii_letter(c: char) -> bool {
    ('a' <= c && c <= 'z') || ('A' <= c && c <= 'Z')
}

/// Relies on `char::is_alphabetic`: the result depends on `c` alone, and
/// among ASCII characters exactly the letters are alphabetic.
#[verifier::external_body]
fn is_alphabetic(c: char) -> (r: bool)
    ensures
        r == alphabetic(c),
        (c as u32) < 128 ==> (r <==> is_ascii_letter(c)),
{
    c.is_alphabetic()
}

/// Whether `c` may appear in an identifier or keyword: an ASCII letter, or a
/// non-ASCII alphabetic character.
pub open spec fn letter(c: char) -> bool {
    if (c as u32) < 128 {
        is_ascii_letter(c)
    } else {
        alphabetic(c)
    }
}

pub open spec fn is_whitespace(c: char) -> bool {
    c == ' ' || c == '\t' || c == '\n' || c == '\x0C' || c == '\r'
}

pub open spec fn is_decimal_digit(c: char) -> bool {
    '0' <= c && c <= '9'
}

fn is_ascii_whitespace(c: char) -> (r: bool)
    ensures
        r == is_whitespace(c),
{
    c == ' ' || c == '\t' || c == '\n' || c == '\x0C' || c == '\r'
}

fn is_digit(c: char) -> (r: bool)
    ensures
        r == is_decimal_digit(c),
{
    '0' <= c && c <= '9'
}

/// The character at index `i`, or NUL past either end of the source.
pub open spec fn char_at(src: Seq<char>, i: int) -> char {
    if 0 <= i < src.len() {
        src[i]
    } else {
        '\0'
    }
}

/// The scanner's position in the source: the index of the current
/// character, the line and column reached, and the character itself.
pub struct Cursor {
    pub position: int,
    pub line: int,
    pub column: int,
    pub character: char,
}

/// The cursor after reading one more character. A newline starts a new line
/// at column 0; NUL, read past the end, moves no column.
pub open spec fn step(src: Seq<char>, c: Cursor) -> Cursor {
    let ch = char_at(src, c.position + 1);
    Cursor {
        position: c.position + 1,
        line: if ch == '\n' { c.line + 1 } else { c.line },
        column: if ch == '\n' {
            0
        } else if ch != '\0' {
            c.column + 1
        } else {
            c.column
        },
        character: ch,
    }
}

/// The cursor after reading characters until position `p`.
pub open spec fn step_to(src: Seq<char>, c: Cursor, p: int) -> Cursor
    decreases p - c.position,
{
    if c.position >= p {
        c
    } else {
        step_to(src, step(src, c), p)
    }
}

/// The cursor of a fresh scanner: on the first character, line 1.
pub open spec fn start_cursor(src: Seq<char>) -> Cursor {
    step(src, Cursor { position: -1, line: 1, column: 0, character: '\0' })
}

/// The first index at or after `i` that does not hold whitespace.
pub open spec fn whitespace_end(src: Seq<char>, i: int) -> int
    decreases src.len() - i,
{
    if 0 <= i < src.len() && is_whitespace(src[i]) {
        whitespace_end(src, i + 1)
    } else {
        i
    }
}

/// The first index at or after `i` that does not hold a letter.
pub open spec fn letters_end(src: Seq<char>, i: int) -> int
    decreases src.len() - i,
{
    if 0 <= i < src.len() && letter(src[i]) {
        letters_end(src, i + 1)
    } else {
        i
    }
}

/// The first index at or after `i` that does not hold a decimal digit.
pub open spec fn digits_end(src: Seq<char>, i: int) -> int
    decreases src.len() - i,
{
    if 0 <= i < src.len() && is_decimal_digit(src[i]) {
        digits_end(src, i + 1)
    } else {
        i
    }
}

/// The end of a number starting at `i`: digits, then optionally a `.`
/// followed by at least one digit and the digits after it.
pub open spec fn number_end(src: Seq<char>, i: int) -> int {
    let e = digits_end(src, i);
    if char_at(src, e) == '.' && is_decimal_digit(char_at(src, e + 1)) {
        digits_end(src, e + 1)
    } else {
        e
    }
}

/// The index of the first `"` at or after `i`, or one past the end of the
/// source if there is none.
pub open spec fn quote_end(src: Seq<char>, i: int) -> int
    decreases src.len() + 1 - i,
{
    if i > src.len() {
        i
    } else if 0 <= i < src.len() && src[i] == '"' {
        i
    } else {
        quote_end(src, i + 1)
    }
}

pub open spec fn unterminated_message(content: Seq<char>) -> Seq<char> {
    "unterminated string: \""@ + content
}

/// The token a single character stands for, unless it may start a longer
/// token.
pub open spec fn single_char_kind(c: char) -> Option<TokenKind> {
    if c == ';' {
        Some(TokenKind::Semicolon)
    } else if c == '(' {
        Some(TokenKind::LeftParen)
    } else if c == ')' {
        Some(TokenKind::RightParen)
    } else if c == ',' {
        Some(TokenKind::Comma)
    } else if c == '+' {
        Some(TokenKind::Plus)
    } else if c == '-' {
        Some(TokenKind::Minus)
    } else if c == '{' {
        Some(TokenKind::LeftBrace)
    } else if c == '}' {
        Some(TokenKind::RightBrace)
    } else if c == '[' {
        Some(TokenKind::LeftBracket)
    } else if c == ']' {
        Some(TokenKind::RightBracket)
    } else if c == '*' {
        Some(TokenKind::Star)
    } else if c == '/' {
        Some(TokenKind::Slash)
    } else if c == '\0' {
        Some(TokenKind::Eof)
    } else {
        None
    }
}

/// For a character that may be followed by `=`: the token it stands for
/// alone, and the token it stands for with the `=`.
pub open spec fn pair_kinds(c: char) -> Option<(TokenKind, TokenKind)> {
    if c == '>' {
        Some((TokenKind::GreaterThan, TokenKind::GreaterThanOrEqual))
    } else if c == '<' {
        Some((TokenKind::LessThan, TokenKind::LessThanOrEqual))
    } else if c == '!' {
        Some((TokenKind::Bang, TokenKind::NotEqual))
    } else if c == '=' {
        Some((TokenKind::Assign, TokenKind::Equal))
    } else {
        None
    }
}

/// A token described by its kind and its text: the name, digits or string
/// contents it carries, the character of an illegal token, or nothing.
pub open spec fn describe(t: Token) -> (TokenKind, Seq<char>) {
    match t {
        Token::Identifier(s) => (TokenKind::Identifier, s@),
        Token::Number(s) => (TokenKind::Number, s@),
        Token::String(s) => (TokenKind::String, s@),
        Token::Illegal(c) => (TokenKind::Illegal, seq![c]),
        _ => (kind_of(t), Seq::empty()),
    }
}

/// What scanning one token yields.
pub struct Scan {
    pub kind: TokenKind,
    pub text: Seq<char>,
    pub line: int,
    pub column: int,
    pub after: Cursor,
    pub error: Option<(int, int, Seq<char>)>,
}

pub open spec fn plain(kind: TokenKind, at: Cursor, after: Cursor) -> Scan {
    Scan { kind, text: Seq::empty(), line: at.line, column: at.column, after, error: None }
}

/// Scanning one token from cursor `c`: whitespace is skipped, then the
/// longest token that starts at the current character is read. A token is
/// located where the cursor stands once its last character has been read.
pub open spec fn scan_token(src: Seq<char>, c: Cursor) -> Scan {
    let c1 = step_to(src, c, whitespace_end(src, c.position));
    let ch = c1.character;
    let p = c1.position;
    if single_char_kind(ch) is Some {
        plain(single_char_kind(ch)->0, c1, step(src, c1))
    } else if pair_kinds(ch) is Some {
        let (alone, with_equals) = pair_kinds(ch)->0;
        if p + 1 < src.len() && src[p + 1] == '=' {
            let c2 = step(src, c1);
            plain(with_equals, c2, step(src, c2))
        } else {
            plain(alone, c1, step(src, c1))
        }
    } else if ch == '"' {
        let e = quote_end(src, p + 1);
        let content = src.subrange(p + 1, if e < src.len() { e } else { src.len() as int });
        let c3 = step(src, step_to(src, c1, e));
        Scan {
            kind: TokenKind::String,
            text: content,
            line: c3.line,
            column: c3.column,
            after: c3,
            error: if e < src.len() {
                None
            } else {
                Some((c3.line, c3.column, unterminated_message(content)))
            },
        }
    } else if letter(ch) {
        let e = letters_end(src, p);
        let word = src.subrange(p, e);
        let c2 = step_to(src, c1, e);
        let (kind, text) = match keyword_of(word) {
            Some(k) => (kind_of(k), Seq::empty()),
            None => (TokenKind::Identifier, word),
        };
        Scan { kind, text, line: c2.line, column: c2.column, after: c2, error: None }
    } else if is_decimal_digit(ch) {
        let e = number_end(src, p);
        let c2 = step_to(src, c1, e);
        Scan {
            kind: TokenKind::Number,
            text: src.subrange(p, e),
            line: c2.line,
            column: c2.column,
            after: c2,
            error: None,
        }
    } else {
        Scan {
            kind: TokenKind::Illegal,
            text: seq![ch],
            line: c1.line,
            column: c1.column,
            after: step(src, c1),
            error: None,
        }
    }
}

/// Scanning tokens from cursor `c` while it stands at or before the end of
/// the source.
pub open spec fn scan_all(src: Seq<char>, c: Cursor) -> Seq<Scan>
    decreases src.len() + 2 - c.position,
{
    if c.position > src.len() {
        Seq::empty()
    } else {
        let s = scan_token(src, c);
        if c.position < s.after.position <= src.len() + 2 {
            seq![s] + scan_all(src, s.after)
        } else {
            seq![s]
        }
    }
}

/// The errors of a sequence of scans, in order.
pub open spec fn scan_errors(scans: Seq<Scan>) -> Seq<(int, int, Seq<char>)>
    decreases scans.len(),
{
    if scans.len() == 0 {
        Seq::empty()
    } else {
        let rest = scan_errors(scans.drop_last());
        match scans.last().error {
            Some(e) => rest.push(e),
            None => rest,
        }
    }
}

pub open spec fn error_view(e: LexerError) -> (int, int, Seq<char>) {
    (e.line as int, e.column as int, e.message@)
}

pub open spec fn errors_view(errors: Seq<LexerError>) -> Seq<(int, int, Seq<char>)> {
    errors.map_values(|e: LexerError| error_view(e))
}

/// Whether `tokens` are the tokens of `scans`, in order and at their
/// locations.
pub open spec fn tokens_match(tokens: Seq<(Token, SourceLocation)>, scans: Seq<Scan>) -> bool {
    &&& tokens.len() == scans.len()
    &&& forall|i: int|
        0 <= i < tokens.len() ==> {
            &&& #[trigger] describe(tokens[i].0) == (scans[i].kind, scans[i].text)
            &&& tokens[i].1.line as int == scans[i].line
            &&& tokens[i].1.column as int == scans[i].column
        }
}

proof fn lemma_step_to_next(src: Seq<char>, c: Cursor, p: int)
    requires
        c.position <= p,
    ensures
        step_to(src, c, p).position == p,
        step_to(src, c, p + 1) == step(src, step_to(src, c, p)),
    decreases p - c.position,
{
    if c.position < p {
        lemma_step_to_next(src, step(src, c), p);
    } else {
        assert(step_to(src, step(src, c), p + 1) == step(src, c));
    }
}

proof fn lemma_step_to_position(src: Seq<char>, c: Cursor, p: int)
    ensures
        step_to(src, c, p).position == if c.position >= p { c.position } else { p },
    decreases p - c.position,
{
    if c.position < p {
        lemma_step_to_position(src, step(src, c), p);
    }
}

proof fn lemma_ends_advance(src: Seq<char>, i: int)
    ensures
        whitespace_end(src, i) >= i,
        letters_end(src, i) >= i,
        digits_end(src, i) >= i,
        quote_end(src, i) >= i,
    decreases src.len() + 1 - i,
{
    if i <= src.len() {
        lemma_ends_advance(src, i + 1);
    }
}

/// A scanner over one source text.
#[derive(Debug)]
pub struct Lexer {
    source_code: String,
    length: usize,
    position: usize,
    next_position: usize,
    line: usize,
    column: usize,
    character: char,
    errors: Vec<LexerError>,
}

impl Lexer {
    pub closed spec fn src(&self) -> Seq<char> {
        self.source_code@
    }

    pub closed spec fn errors_found(&self) -> Seq<LexerError> {
        self.errors@
    }

    pub closed spec fn cursor(&self) -> Cursor {
        Cursor {
            position: self.next_position - 1,
            line: self.line as int,
            column: self.column as int,
            character: self.character,
        }
    }

    /// Ready to read a character: either fresh, before the first read, or
    /// standing on a character.
    pub closed spec fn ready(&self) -> bool {
        &&& self.length as int == self.source_code@.len()
        &&& self.length <= MAX_SOURCE_LEN
        &&& (self.next_position == self.position + 1 || self.next_position == 0)
        &&& self.next_position <= self.length + 3
        &&& self.line <= self.next_position + 1
        &&& self.column <= self.next_position
        &&& self.character == char_at(self.source_code@, self.next_position - 1)
    }

    pub closed spec fn well_formed(&self) -> bool {
        &&& self.ready()
        &&& self.next_position == self.position + 1
    }

    /// A scanner standing on the first character of `source_code`.
    pub fn new(source_code: String) -> (lexer: Lexer)
        requires
            source_code@.len() <= MAX_SOURCE_LEN,
        ensures
            lexer.well_formed(),
            lexer.src() == source_code@,
            lexer.cursor() == start_cursor(source_code@),
            lexer.errors_found().len() == 0,
    {
        let length = source_code.as_str().unicode_len();
        let mut lexer = Lexer {
            source_code,
            position: 0,
            next_position: 0,
            length,
            character: '\0',
            line: 1,
            column: 0,
            errors: Vec::new(),
        };
        lexer.read_character();
        lexer
    }

    /// The line the scanner has reached.
    pub fn line(&self) -> (r: usize)
        ensures
            r == self.cursor().line,
    {
        self.line
    }

    /// The column the scanner has reached on its line.
    pub fn column(&self) -> (r: usize)
        ensures
            r == self.cursor().column,
    {
        self.column
    }

    /// Scans the rest of the source. The tokens are returned when no error
    /// was found (before or during this call), the errors otherwise.
    pub fn lex(&mut self) -> (r: Result<Vec<(Token, SourceLocation)>, Vec<LexerError>>)
        requires
            old(self).well_formed(),
        ensures
            ({
                let scans = scan_all(old(self).src(), old(self).cursor());
                let errors = errors_view(old(self).errors_found()) + scan_errors(scans);
                match r {
                    Ok(tokens) => errors.len() == 0 && tokens_match(tokens@, scans),
                    Err(e) => errors.len() > 0 && errors_view(e@) == errors,
                }
            }),
    {
        let mut tokens: Vec<(Token, SourceLocation)> = Vec::new();
        let ghost src = self.src();
        let ghost c0 = self.cursor();
        let ghost e0 = errors_view(self.errors@);
        let ghost mut done: Seq<Scan> = Seq::empty();
        while self.has_characters_to_lex()
            invariant
                self.well_formed(),
                self.src() == src,
                done + scan_all(src, self.cursor()) == scan_all(src, c0),
                errors_view(self.errors@) == e0 + scan_errors(done),
                tokens_match(tokens@, done),
            decreases self.length + 2 - self.position,
        {
            let ghost before = self.cursor();
            let ghost before_errors = self.errors@;
            let t = self.next_token();
            proof {
                let s = scan_token(src, before);
                assert(scan_all(src, before) == seq![s] + scan_all(src, s.after));
                assert(done.push(s) + scan_all(src, s.after) =~= done + scan_all(src, before));
                assert(done.push(s).drop_last() =~= done);
                assert(errors_view(self.errors@) =~= e0 + scan_errors(done.push(s))) by {
                    match s.error {
                        Some(e) => {
                            assert(errors_view(before_errors.push(self.errors@.last()))
                                =~= errors_view(before_errors).push(e));
                            assert(scan_errors(done.push(s)) == scan_errors(done).push(e));
                        },
                        None => {
                            assert(scan_errors(done.push(s)) == scan_errors(done));
                        },
                    }
                }
                done = done.push(s);
            }
            tokens.push(t);
            proof {
                assert forall|i: int| 0 <= i < tokens@.len() implies {
                    &&& #[trigger] describe(tokens@[i].0) == (done[i].kind, done[i].text)
                    &&& tokens@[i].1.line as int == done[i].line
                    &&& tokens@[i].1.column as int == done[i].column
                } by {
                    if i < tokens@.len() - 1 {
                        assert(describe(tokens@[i].0) == (done[i].kind, done[i].text));
                    }
                }
            }
        }
        assert(scan_all(src, self.cursor()) =~= Seq::<Scan>::empty());
        assert(done =~= scan_all(src, c0));
        if self.errors.len() > 0 {
            let mut errors = Vec::new();
            std::mem::swap(&mut errors, &mut self.errors);
            return Err(errors);
        }
        Ok(tokens)
    }

    fn has_characters_to_lex(&self) -> (r: bool)
        ensures
            r == (self.position <= self.length),
    {
        self.position <= self.length
    }

    fn read_character(&mut self)
        requires
            old(self).ready(),
            old(self).next_position <= old(self).length + 2,
        ensures
            final(self).well_formed(),
            final(self).cursor() == step(old(self).src(), old(self).cursor()),
            final(self).source_code == old(self).source_code,
            final(self).length == old(self).length,
            final(self).errors == old(self).errors,
    {
        if self.next_position >= self.length {
            self.character = '\0';
        } else {
            self.character = self.source_code.as_str().get_char(self.next_position);
        }
        if self.character != '\0' {
            self.column += 1;
        }
        if self.character == '\n' {
            self.line += 1;
            self.column = 0;
        }
        self.position = self.next_position;
        self.next_position += 1;
    }

    fn peek_character(&self) -> (c: char)
        requires
            self.well_formed(),
        ensures
            c == char_at(self.src(), self.position + 1),
    {
        if self.next_position >= self.length {
            '\0'
        } else {
            self.source_code.as_str().get_char(self.next_position)
        }
    }

    fn skip_whitespace(&mut self)
        requires
            old(self).well_formed(),
            old(self).position <= old(self).length,
        ensures
            final(self).well_formed(),
            final(self).cursor() == step_to(
                old(self).src(),
                old(self).cursor(),
                whitespace_end(old(self).src(), old(self).position as int),
            ),
            final(self).position <= final(self).length,
            final(self).source_code == old(self).source_code,
            final(self).length == old(self).length,
            final(self).errors == old(self).errors,
    {
        let ghost src = self.src();
        let ghost c0 = self.cursor();
        let ghost end = whitespace_end(src, c0.position);
        while is_ascii_whitespace(self.character)
            invariant
                self.well_formed(),
                self.src() == src,
                self.source_code == old(self).source_code,
                self.length == old(self).length,
                self.errors == old(self).errors,
                c0.position <= self.position <= self.length,
                whitespace_end(src, self.position as int) == end,
                self.cursor() == step_to(src, c0, self.position as int),
            decreases self.length - self.position,
        {
            proof {
                lemma_step_to_next(src, c0, self.position as int);
            }
            self.read_character();
        }
    }

    fn error(&mut self, message: String)
        ensures
            final(self).errors@ == old(self).errors@.push(
                LexerError { line: old(self).line, column: old(self).column, message },
            ),
            final(self).source_code == old(self).source_code,
            final(self).length == old(self).length,
            final(self).cursor() == old(self).cursor(),
            final(self).next_position == old(self).next_position,
            final(self).position == old(self).position,
    {
        self.errors.push(LexerError { line: self.line, column: self.column, message });
    }

    fn read_identifier(&mut self) -> (r: String)
        requires
            old(self).well_formed(),
            old(self).position <= old(self).length,
        ensures
            final(self).well_formed(),
            r@ == old(self).src().subrange(
                old(self).position as int,
                letters_end(old(self).src(), old(self).position as int),
            ),
            final(self).cursor() == step_to(
                old(self).src(),
                old(self).cursor(),
                letters_end(old(self).src(), old(self).position as int),
            ),
            final(self).position <= final(self).length,
            final(self).source_code == old(self).source_code,
            final(self).length == old(self).length,
            final(self).errors == old(self).errors,
    {
        let ghost src = self.src();
        let ghost c0 = self.cursor();
        let ghost end = letters_end(src, c0.position);
        let identifier_starts_at = self.position;
        while is_alphabetic(self.character)
            invariant
                self.well_formed(),
                self.src() == src,
                self.source_code == old(self).source_code,
                self.length == old(self).length,
                self.errors == old(self).errors,
                c0.position <= self.position <= self.length,
                identifier_starts_at == c0.position,
                letters_end(src, self.position as int) == end,
                self.cursor() == step_to(src, c0, self.position as int),
            decreases self.length - self.position,
        {
            assert(self.position < self.length) by {
                if self.position == self.length {
                    assert(!letter('\0'));
                }
            }
            proof {
                lemma_step_to_next(src, c0, self.position as int);
            }
            self.read_character();
        }
        assert(!letter(char_at(src, self.position as int)));
        self.source_code.as_str().substring_char(identifier_starts_at, self.position).to_owned()
    }

    fn read_number(&mut self) -> (r: String)
        requires
            old(self).well_formed(),
            old(self).position <= old(self).length,
        ensures
            final(self).well_formed(),
            r@ == old(self).src().subrange(
                old(self).position as int,
                number_end(old(self).src(), old(self).position as int),
            ),
            final(self).cursor() == step_to(
                old(self).src(),
                old(self).cursor(),
                number_end(old(self).src(), old(self).position as int),
            ),
            final(self).position <= final(self).length,
            final(self).source_code == old(self).source_code,
            final(self).length == old(self).length,
            final(self).errors == old(self).errors,
    {
        let ghost src = self.src();
        let ghost c0 = self.cursor();
        let ghost end = digits_end(src, c0.position);
        let number_starts_at = self.position;
        while is_digit(self.character)
            invariant
                self.well_formed(),
                self.src() == src,
                self.source_code == old(self).source_code,
                self.length == old(self).length,
                self.errors == old(self).errors,
                c0.position <= self.position <= self.length,
                number_starts_at == c0.position,
                digits_end(src, self.position as int) == end,
                self.cursor() == step_to(src, c0, self.position as int),
            decreases self.length - self.position,
        {
            proof {
                lemma_step_to_next(src, c0, self.position as int);
            }
            self.read_character();
        }
        assert(self.position as int == end);
        if self.character == '.' && is_digit(self.peek_character()) {
            proof {
                lemma_step_to_next(src, c0, self.position as int);
            }
            self.read_character();
            let ghost end2 = digits_end(src, self.position as int);
            while is_digit(self.character)
                invariant
                    self.well_formed(),
                    self.src() == src,
                    self.source_code == old(self).source_code,
                    self.length == old(self).length,
                    self.errors == old(self).errors,
                    c0.position <= self.position <= self.length,
                    number_starts_at == c0.position,
                    digits_end(src, self.position as int) == end2,
                    end2 == number_end(src, c0.position),
                    self.cursor() == step_to(src, c0, self.position as int),
                decreases self.length - self.position,
            {
                proof {
                    lemma_step_to_next(src, c0, self.position as int);
                }
                self.read_character();
            }
        }
        self.source_code.as_str().substring_char(number_starts_at, self.position).to_owned()
    }

    fn read_string(&mut self) -> (r: String)
        requires
            old(self).well_formed(),
            old(self).position < old(self).length,
            old(self).character == '"',
        ensures
            final(self).well_formed(),
            ({
                let src = old(self).src();
                let p = old(self).position as int;
                let e = quote_end(src, p + 1);
                let content = src.subrange(p + 1, if e < src.len() { e } else { src.len() as int });
                let c3 = step(src, step_to(src, old(self).cursor(), e));
                &&& r@ == content
                &&& final(self).cursor() == c3
                &&& if e < src.len() {
                    final(self).errors@ == old(self).errors@
                } else {
                    &&& final(self).errors@.len() == old(self).errors@.len() + 1
                    &&& final(self).errors@.drop_last() == old(self).errors@
                    &&& error_view(final(self).errors@.last()) == (
                        c3.line,
                        c3.column,
                        unterminated_message(content),
                    )
                }
            }),
            final(self).source_code == old(self).source_code,
            final(self).length == old(self).length,
    {
        let ghost src = self.src();
        let ghost c0 = self.cursor();
        let ghost end = quote_end(src, c0.position + 1);
        let string_starts_at = self.position;
        proof {
            lemma_step_to_next(src, c0, c0.position);
        }
        self.read_character();
        while self.character != '"' && self.has_characters_to_lex()
            invariant
                self.well_formed(),
                self.src() == src,
                self.source_code == old(self).source_code,
                self.length == old(self).length,
                self.errors == old(self).errors,
                c0.position < self.position <= self.length + 1,
                string_starts_at == c0.position,
                quote_end(src, self.position as int) == end,
                self.cursor() == step_to(src, c0, self.position as int),
            decreases self.length + 1 - self.position,
        {
            proof {
                lemma_step_to_next(src, c0, self.position as int);
            }
            self.read_character();
        }
        assert(self.position as int == end);
        let end_of_text = if self.position < self.length {
            self.position
        } else {
            self.length
        };
        let string = self.source_code.as_str().substring_char(
            string_starts_at + 1,
            end_of_text,
        ).to_owned();
        proof {
            lemma_step_to_next(src, c0, self.position as int);
        }
        if self.character != '"' {
            self.read_character();
            let mut message = String::from_str("unterminated string: \"");
            message.append(string.as_str());
            self.error(message);
        } else {
            self.read_character();
        }
        string
    }

    fn next_character_is(&self, expected_character: char) -> (r: bool)
        requires
            self.well_formed(),
        ensures
            r == (self.position + 1 < self.src().len() && self.src()[self.position + 1]
                == expected_character),
    {
        if self.next_position >= self.length {
            return false;
        }
        let character = self.source_code.as_str().get_char(self.next_position);
        character == expected_character
    }

    /// The location of the token just read. The column is that of the
    /// token's last character.
    fn source_location(&self) -> (r: SourceLocation)
        ensures
            r.line == self.line,
            r.column == self.column,
    {
        SourceLocation { line: self.line, column: self.column }
    }
    /// Skips whitespace and reads the next token.
    fn next_token(&mut self) -> (r: (Token, SourceLocation))
        requires
            old(self).well_formed(),
            old(self).position <= old(self).length,
        ensures
            final(self).well_formed(),
            final(self).source_code == old(self).source_code,
            final(self).length == old(self).length,
            ({
                let s = scan_token(old(self).src(), old(self).cursor());
                &&& describe(r.0) == (s.kind, s.text)
                &&& r.1.line as int == s.line
                &&& r.1.column as int == s.column
                &&& final(self).cursor() == s.after
                &&& s.after.position > old(self).position
                &&& match s.error {
                    None => final(self).errors@ == old(self).errors@,
                    Some(e) => {
                        &&& final(self).errors@ == old(self).errors@.push(final(self).errors@.last())
                        &&& error_view(final(self).errors@.last()) == e
                    },
                }
            }),
    {
        let ghost src = self.src();
        let ghost c0 = self.cursor();
        proof {
            lemma_ends_advance(src, c0.position);
            lemma_step_to_position(src, c0, whitespace_end(src, c0.position));
        }
        self.skip_whitespace();
        let ghost c1 = self.cursor();
        proof {
            lemma_ends_advance(src, c1.position);
            lemma_ends_advance(src, c1.position + 1);
            lemma_step_to_position(src, c1, letters_end(src, c1.position));
            lemma_step_to_position(src, c1, number_end(src, c1.position));
            lemma_step_to_position(src, c1, quote_end(src, c1.position + 1));
            lemma_ends_advance(src, digits_end(src, c1.position) + 1);
        }
        let token = match self.character {
            ';' => (Token::Semicolon, self.source_location()),
            '(' => (Token::LeftParen, self.source_location()),
            ')' => (Token::RightParen, self.source_location()),
            ',' => (Token::Comma, self.source_location()),
            '+' => (Token::Plus, self.source_location()),
            '-' => (Token::Minus, self.source_location()),
            '{' => (Token::LeftBrace, self.source_location()),
            '}' => (Token::RightBrace, self.source_location()),
            '[' => (Token::LeftBracket, self.source_location()),
            ']' => (Token::RightBracket, self.source_location()),
            '*' => (Token::Star, self.source_location()),
            '/' => (Token::Slash, self.source_location()),
            '>' => {
                if self.next_character_is('=') {
                    self.read_character();
                    (Token::GreaterThanOrEqual, self.source_location())
                } else {
                    (Token::GreaterThan, self.source_location())
                }
            },
            '<' => {
                if self.next_character_is('=') {
                    self.read_character();
                    (Token::LessThanOrEqual, self.source_location())
                } else {
                    (Token::LessThan, self.source_location())
                }
            },
            '!' => {
                if self.next_character_is('=') {
                    self.read_character();
                    (Token::NotEqual, self.source_location())
                } else {
                    (Token::Bang, self.source_location())
                }
            },
            '=' => {
                if self.next_character_is('=') {
                    self.read_character();
                    (Token::Equal, self.source_location())
                } else {
                    (Token::Assign, self.source_location())
                }
            },
            '\0' => (Token::Eof, self.source_location()),
            '"' => {
                let string = self.read_string();
                return (Token::String(string), self.source_location());
            },
            character if is_alphabetic(character) => {
                let identifier = self.read_identifier();
                return (lookup_identifier(identifier), self.source_location());
            },
            character if is_digit(character) => {
                let number = self.read_number();
                return (Token::Number(number), self.source_location());
            },
            character => (Token::Illegal(character), self.source_location()),
        };
        self.read_character();
        token
    }
}

/// Scans `source_code` from its start: its tokens when it holds no error,
/// else the errors found.
pub fn lex(source_code: String) -> (r: Result<Vec<(Token, SourceLocation)>, Vec<LexerError>>)
    requires
        source_code@.len() <= MAX_SOURCE_LEN,
    ensures
        ({
            let scans = scan_all(source_code@, start_cursor(source_code@));
            match r {
                Ok(tokens) => scan_errors(scans).len() == 0 && tokens_match(tokens@, scans),
                Err(e) => scan_errors(scans).len() > 0 && errors_view(e@) == scan_errors(scans),
            }
        }),
{
    let mut lexer = Lexer::new(source_code);
    let ghost e0 = lexer.errors_found();
    assert(errors_view(e0) =~= Seq::empty());
    let r = lexer.lex();
    assert(errors_view(e0) + scan_errors(scan_all(source_code@, start_cursor(source_code@)))
        =~= scan_errors(scan_all(source_code@, start_cursor(source_code@))));
    r
}

} // verus!
