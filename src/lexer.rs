use vstd::prelude::*;
use vstd::utf8::encode_utf8;

verus! {

/// A classified unit of source text.
#[derive(Debug, PartialEq, Eq)]
pub enum Token {
    IDENT(String),
    INT(String),
    EOF,
    ASSIGN,
    EQUAL,
    NOTEQUAL,
    PLUS,
    MINUS,
    COMMA,
    SEMICOLON,
    BANG,
    ASTERISK,
    SLASH,
    LT,
    GT,
    LPAREN,
    RPAREN,
    LBRACE,
    RBRACE,
    FUNCTION,
    LET,
    IF,
    TRUE,
    FALSE,
    ELSE,
    RETURN,
}

/// The mathematical value of a token: the same variants, with text as a sequence of characters.
pub enum Lexeme {
    Ident(Seq<char>),
    Int(Seq<char>),
    Eof,
    Assign,
    Equal,
    NotEqual,
    Plus,
    Minus,
    Comma,
    Semicolon,
    Bang,
    Asterisk,
    Slash,
    Lt,
    Gt,
    LParen,
    RParen,
    LBrace,
    RBrace,
    Function,
    Let,
    If,
    True,
    False,
    Else,
    Return,
}

impl View for Token {
    type V = Lexeme;

    open spec fn view(&self) -> Lexeme {
        match self {
            Token::IDENT(s) => Lexeme::Ident(s@),
            Token::INT(s) => Lexeme::Int(s@),
            Token::EOF => Lexeme::Eof,
            Token::ASSIGN => Lexeme::Assign,
            Token::EQUAL => Lexeme::Equal,
            Token::NOTEQUAL => Lexeme::NotEqual,
            Token::PLUS => Lexeme::Plus,
            Token::MINUS => Lexeme::Minus,
            Token::COMMA => Lexeme::Comma,
            Token::SEMICOLON => Lexeme::Semicolon,
            Token::BANG => Lexeme::Bang,
            Token::ASTERISK => Lexeme::Asterisk,
            Token::SLASH => Lexeme::Slash,
            Token::LT => Lexeme::Lt,
            Token::GT => Lexeme::Gt,
            Token::LPAREN => Lexeme::LParen,
            Token::RPAREN => Lexeme::RParen,
            Token::LBRACE => Lexeme::LBrace,
            Token::RBRACE => Lexeme::RBrace,
            Token::FUNCTION => Lexeme::Function,
            Token::LET => Lexeme::Let,
            Token::IF => Lexeme::If,
            Token::TRUE => Lexeme::True,
            Token::FALSE => Lexeme::False,
            Token::ELSE => Lexeme::Else,
            Token::RETURN => Lexeme::Return,
        }
    }
}

/// A byte that no token can start with, and where it stood in the input.
#[derive(Debug, PartialEq, Eq, Structural, Clone, Copy)]
pub struct ScanError {
    pub byte: u8,
    pub offset: usize,
}

/// Space, tab, line feed, form feed and carriage return.
pub open spec fn is_space(b: u8) -> bool {
    b == 32 || b == 9 || b == 10 || b == 12 || b == 13
}

/// ASCII letters and the underscore: the bytes an identifier is made of.
pub open spec fn is_letter(b: u8) -> bool {
    (97 <= b <= 122) || (65 <= b <= 90) || b == 95
}

/// ASCII decimal digits.
pub open spec fn is_digit(b: u8) -> bool {
    48 <= b <= 57
}

/// The characters that stand for the bytes of an ASCII text.
pub open spec fn ascii_chars(w: Seq<u8>) -> Seq<char> {
    w.map_values(|b: u8| b as char)
}

/// The first index at or after `i` that does not hold whitespace.
pub open spec fn skip_spaces(s: Seq<u8>, i: int) -> int
    decreases s.len() - i,
{
    if 0 <= i < s.len() && is_space(s[i]) {
        skip_spaces(s, i + 1)
    } else {
        i
    }
}

/// The end of the maximal run of letters that starts at `i`.
pub open spec fn letters_end(s: Seq<u8>, i: int) -> int
    decreases s.len() - i,
{
    if 0 <= i < s.len() && is_letter(s[i]) {
        letters_end(s, i + 1)
    } else {
        i
    }
}

/// The end of the maximal run of digits that starts at `i`.
pub open spec fn digits_end(s: Seq<u8>, i: int) -> int
    decreases s.len() - i,
{
    if 0 <= i < s.len() && is_digit(s[i]) {
        digits_end(s, i + 1)
    } else {
        i
    }
}

/// The token that a completed run of letters stands for: a keyword on an exact match, else an identifier.
pub open spec fn word_lexeme(w: Seq<u8>) -> Lexeme {
    if w == seq!['f' as u8, 'n' as u8] {
        Lexeme::Function
    } else if w == seq!['l' as u8, 'e' as u8, 't' as u8] {
        Lexeme::Let
    } else if w == seq!['i' as u8, 'f' as u8] {
        Lexeme::If
    } else if w == seq!['e' as u8, 'l' as u8, 's' as u8, 'e' as u8] {
        Lexeme::Else
    } else if w == seq!['t' as u8, 'r' as u8, 'u' as u8, 'e' as u8] {
        Lexeme::True
    } else if w == seq!['f' as u8, 'a' as u8, 'l' as u8, 's' as u8, 'e' as u8] {
        Lexeme::False
    } else if w == seq!['r' as u8, 'e' as u8, 't' as u8, 'u' as u8, 'r' as u8, 'n' as u8] {
        Lexeme::Return
    } else {
        Lexeme::Ident(ascii_chars(w))
    }
}

/// The token of a byte that stands alone, if it is one.
pub open spec fn single_lexeme(b: u8) -> Option<Lexeme> {
    if b == '{' as u8 {
        Some(Lexeme::LBrace)
    } else if b == '}' as u8 {
        Some(Lexeme::RBrace)
    } else if b == '(' as u8 {
        Some(Lexeme::LParen)
    } else if b == ')' as u8 {
        Some(Lexeme::RParen)
    } else if b == ',' as u8 {
        Some(Lexeme::Comma)
    } else if b == ';' as u8 {
        Some(Lexeme::Semicolon)
    } else if b == '+' as u8 {
        Some(Lexeme::Plus)
    } else if b == '-' as u8 {
        Some(Lexeme::Minus)
    } else if b == '/' as u8 {
        Some(Lexeme::Slash)
    } else if b == '*' as u8 {
        Some(Lexeme::Asterisk)
    } else if b == '<' as u8 {
        Some(Lexeme::Lt)
    } else if b == '>' as u8 {
        Some(Lexeme::Gt)
    } else {
        None
    }
}

/// What scanning at index `i` (where no whitespace stands) yields, and the index after it.
pub open spec fn scan_at(s: Seq<u8>, i: int) -> (Result<Lexeme, ScanError>, int) {
    if i >= s.len() {
        (Ok(Lexeme::Eof), i)
    } else if s[i] == '=' as u8 {
        if i + 1 < s.len() && s[i + 1] == '=' as u8 {
            (Ok(Lexeme::Equal), i + 2)
        } else {
            (Ok(Lexeme::Assign), i + 1)
        }
    } else if s[i] == '!' as u8 {
        if i + 1 < s.len() && s[i + 1] == '=' as u8 {
            (Ok(Lexeme::NotEqual), i + 2)
        } else {
            (Ok(Lexeme::Bang), i + 1)
        }
    } else if is_letter(s[i]) {
        let e = letters_end(s, i);
        (Ok(word_lexeme(s.subrange(i, e))), e)
    } else if is_digit(s[i]) {
        let e = digits_end(s, i);
        (Ok(Lexeme::Int(ascii_chars(s.subrange(i, e)))), e)
    } else {
        match single_lexeme(s[i]) {
            Some(l) => (Ok(l), i + 1),
            None => (Err(ScanError { byte: s[i], offset: i as usize }), i + 1),
        }
    }
}

/// One call of the scanner from cursor `i`: skip whitespace, then scan one token.
pub open spec fn next_lexeme(s: Seq<u8>, i: int) -> (Result<Lexeme, ScanError>, int) {
    scan_at(s, skip_spaces(s, i))
}

/// The mathematical value of a scan result.
pub open spec fn outcome(r: Result<Token, ScanError>) -> Result<Lexeme, ScanError> {
    match r {
        Ok(t) => Ok(t@),
        Err(e) => Err(e),
    }
}

/// A scanner over one input: the bytes and a cursor into them.
pub struct Lexer {
    position: usize,
    read_position: usize,
    ch: u8,
    input: Vec<u8>,
}

impl Lexer {
    /// The input bytes.
    pub closed spec fn bytes(&self) -> Seq<u8> {
        self.input@
    }

    /// The index of the byte under the cursor; the input's length once past the end.
    pub closed spec fn pos(&self) -> int {
        self.position as int
    }

    /// The cursor fields agree with each other and with the input.
    pub closed spec fn wf(&self) -> bool {
        &&& self.position <= self.input.len()
        &&& self.read_position == if self.position < self.input.len() {
            self.position + 1
        } else {
            self.position as int
        }
        &&& self.ch == if self.position < self.input.len() {
            self.input[self.position as int]
        } else {
            0u8
        }
    }

    /// A scanner at the start of the UTF-8 bytes of `input`.
    pub fn new(input: String) -> (lex: Lexer)
        ensures
            lex.wf(),
            lex.bytes() == encode_utf8(input@),
            lex.pos() == 0,
    {
        let src = input.as_str().as_bytes();
        let mut bytes: Vec<u8> = Vec::new();
        let mut i: usize = 0;
        while i < src.len()
            invariant
                i <= src@.len(),
                bytes@ == src@.subrange(0, i as int),
            decreases src@.len() - i,
        {
            bytes.push(src[i]);
            i += 1;
        }
        assert(bytes@ =~= src@);
        let mut lex = Lexer { position: 0, read_position: 0, ch: 0, input: bytes };
        if lex.input.len() > 0 {
            lex.ch = lex.input[0];
            lex.read_position = 1;
        }
        lex
    }

    /// Skips whitespace, then scans one token and moves the cursor past it. A byte that no
    /// token starts with is reported with its offset and skipped. At the end of the input
    /// the result is `EOF`, on every call.
    pub fn next_token(&mut self) -> (r: Result<Token, ScanError>)
        requires
            old(self).wf(),
        ensures
            final(self).wf(),
            final(self).bytes() == old(self).bytes(),
            outcome(r) == next_lexeme(old(self).bytes(), old(self).pos()).0,
            final(self).pos() == next_lexeme(old(self).bytes(), old(self).pos()).1,
    {
        self.skip_whitespace();
        let c = self.ch;
        if self.position >= self.input.len() {
            return Ok(Token::EOF);
        }
        if letter_byte(c) {
            let w = self.read_ident();
            return Ok(word_token(w));
        }
        if digit_byte(c) {
            let w = self.read_int();
            return Ok(Token::INT(ascii_string(w)));
        }
        let tok = if c == '=' as u8 {
            if self.peek() == '=' as u8 {
                self.read_char();
                Token::EQUAL
            } else {
                Token::ASSIGN
            }
        } else if c == '!' as u8 {
            if self.peek() == '=' as u8 {
                self.read_char();
                Token::NOTEQUAL
            } else {
                Token::BANG
            }
        } else if c == '{' as u8 {
            Token::LBRACE
        } else if c == '}' as u8 {
            Token::RBRACE
        } else if c == '(' as u8 {
            Token::LPAREN
        } else if c == ')' as u8 {
            Token::RPAREN
        } else if c == ',' as u8 {
            Token::COMMA
        } else if c == ';' as u8 {
            Token::SEMICOLON
        } else if c == '+' as u8 {
            Token::PLUS
        } else if c == '-' as u8 {
            Token::MINUS
        } else if c == '/' as u8 {
            Token::SLASH
        } else if c == '*' as u8 {
            Token::ASTERISK
        } else if c == '<' as u8 {
            Token::LT
        } else if c == '>' as u8 {
            Token::GT
        } else {
            let offset = self.position;
            self.read_char();
            return Err(ScanError { byte: c, offset });
        };
        self.read_char();
        Ok(tok)
    }

    /// Moves the cursor one byte on; at the end of the input it stays there.
    fn read_char(&mut self)
        requires
            old(self).wf(),
        ensures
            final(self).wf(),
            final(self).bytes() == old(self).bytes(),
            final(self).pos() == if old(self).pos() < old(self).bytes().len() {
                old(self).pos() + 1
            } else {
                old(self).pos()
            },
    {
        if self.read_position >= self.input.len() {
            self.ch = 0;
            self.position = self.input.len();
            self.read_position = self.position;
        } else {
            self.ch = self.input[self.read_position];
            self.position = self.read_position;
            self.read_position = self.read_position + 1;
        }
    }

    /// The byte after the one under the cursor, or 0 where there is none; nothing moves.
    fn peek(&self) -> (r: u8)
        requires
            self.wf(),
        ensures
            r == if self.pos() + 1 < self.bytes().len() {
                self.bytes()[self.pos() + 1]
            } else {
                0u8
            },
    {
        if self.read_position >= self.input.len() {
            0
        } else {
            self.input[self.read_position]
        }
    }

    /// Moves the cursor past any whitespace.
    fn skip_whitespace(&mut self)
        requires
            old(self).wf(),
        ensures
            final(self).wf(),
            final(self).bytes() == old(self).bytes(),
            final(self).pos() == skip_spaces(old(self).bytes(), old(self).pos()),
    {
        while space_byte(self.ch)
            invariant
                self.wf(),
                self.bytes() == old(self).bytes(),
                skip_spaces(self.bytes(), self.pos()) == skip_spaces(
                    old(self).bytes(),
                    old(self).pos(),
                ),
            decreases self.bytes().len() - self.pos(),
        {
            self.read_char();
        }
    }

    /// Consumes the run of letters under the cursor and returns its bytes.
    fn read_ident(&mut self) -> (w: Vec<u8>)
        requires
            old(self).wf(),
        ensures
            final(self).wf(),
            final(self).bytes() == old(self).bytes(),
            final(self).pos() == letters_end(old(self).bytes(), old(self).pos()),
            w@ == old(self).bytes().subrange(old(self).pos(), final(self).pos()),
            forall|k: int| 0 <= k < w@.len() ==> is_letter(#[trigger] w@[k]),
    {
        let mut w: Vec<u8> = Vec::new();
        while letter_byte(self.ch)
            invariant
                self.wf(),
                self.bytes() == old(self).bytes(),
                old(self).pos() <= self.pos(),
                letters_end(self.bytes(), self.pos()) == letters_end(
                    old(self).bytes(),
                    old(self).pos(),
                ),
                w@ == self.bytes().subrange(old(self).pos(), self.pos()),
                forall|k: int| 0 <= k < w@.len() ==> is_letter(#[trigger] w@[k]),
            decreases self.bytes().len() - self.pos(),
        {
            w.push(self.ch);
            self.read_char();
            assert(w@ =~= self.bytes().subrange(old(self).pos(), self.pos()));
        }
        w
    }

    /// Consumes the run of digits under the cursor and returns its bytes.
    fn read_int(&mut self) -> (w: Vec<u8>)
        requires
            old(self).wf(),
        ensures
            final(self).wf(),
            final(self).bytes() == old(self).bytes(),
            final(self).pos() == digits_end(old(self).bytes(), old(self).pos()),
            w@ == old(self).bytes().subrange(old(self).pos(), final(self).pos()),
            forall|k: int| 0 <= k < w@.len() ==> is_digit(#[trigger] w@[k]),
    {
        let mut w: Vec<u8> = Vec::new();
        while digit_byte(self.ch)
            invariant
                self.wf(),
                self.bytes() == old(self).bytes(),
                old(self).pos() <= self.pos(),
                digits_end(self.bytes(), self.pos()) == digits_end(
                    old(self).bytes(),
                    old(self).pos(),
                ),
                w@ == self.bytes().subrange(old(self).pos(), self.pos()),
                forall|k: int| 0 <= k < w@.len() ==> is_digit(#[trigger] w@[k]),
            decreases self.bytes().len() - self.pos(),
        {
            w.push(self.ch);
            self.read_char();
            assert(w@ =~= self.bytes().subrange(old(self).pos(), self.pos()));
        }
        w
    }
}

/// Whether a byte is whitespace.
fn space_byte(b: u8) -> (r: bool)
    ensures
        r == is_space(b),
{
    b == 32 || b == 9 || b == 10 || b == 12 || b == 13
}

/// Whether a byte can be part of an identifier.
fn letter_byte(b: u8) -> (r: bool)
    ensures
        r == is_letter(b),
{
    (97 <= b && b <= 122) || (65 <= b && b <= 90) || b == 95
}

/// Whether a byte is a decimal digit.
fn digit_byte(b: u8) -> (r: bool)
    ensures
        r == is_digit(b),
{
    48 <= b && b <= 57
}

/// Relies on std's `String::from_utf8_lossy`: bytes that are valid UTF-8 decode unchanged,
/// and each ASCII byte decodes to the character of the same code.
#[verifier::external_body]
fn ascii_string(w: Vec<u8>) -> (r: String)
    requires
        forall|k: int| 0 <= k < w@.len() ==> w@[k] < 128,
    ensures
        r@ == ascii_chars(w@),
{
    String::from_utf8_lossy(&w).into_owned()
}

/// Whether `w` holds exactly the bytes of `k`.
fn same_bytes(w: &Vec<u8>, k: &[u8]) -> (r: bool)
    ensures
        r == (w@ == k@),
{
    if w.len() != k.len() {
        return false;
    }
    let mut i: usize = 0;
    while i < w.len()
        invariant
            w@.len() == k@.len(),
            i <= w@.len(),
            forall|j: int| 0 <= j < i ==> w@[j] == k@[j],
        decreases w@.len() - i,
    {
        if w[i] != k[i] {
            return false;
        }
        i += 1;
    }
    assert(w@ =~= k@);
    true
}

/// The token of a completed run of letters: a keyword on an exact match, else an identifier.
fn word_token(w: Vec<u8>) -> (t: Token)
    requires
        forall|k: int| 0 <= k < w@.len() ==> is_letter(w@[k]),
    ensures
        t@ == word_lexeme(w@),
{
    let kw = ['f' as u8, 'n' as u8];
    assert(kw@ == seq!['f' as u8, 'n' as u8]);
    if same_bytes(&w, &kw) {
        return Token::FUNCTION;
    }
    let kw = ['l' as u8, 'e' as u8, 't' as u8];
    assert(kw@ == seq!['l' as u8, 'e' as u8, 't' as u8]);
    if same_bytes(&w, &kw) {
        return Token::LET;
    }
    let kw = ['i' as u8, 'f' as u8];
    assert(kw@ == seq!['i' as u8, 'f' as u8]);
    if same_bytes(&w, &kw) {
        return Token::IF;
    }
    let kw = ['e' as u8, 'l' as u8, 's' as u8, 'e' as u8];
    assert(kw@ == seq!['e' as u8, 'l' as u8, 's' as u8, 'e' as u8]);
    if same_bytes(&w, &kw) {
        return Token::ELSE;
    }
    let kw = ['t' as u8, 'r' as u8, 'u' as u8, 'e' as u8];
    assert(kw@ == seq!['t' as u8, 'r' as u8, 'u' as u8, 'e' as u8]);
    if same_bytes(&w, &kw) {
        return Token::TRUE;
    }
    let kw = ['f' as u8, 'a' as u8, 'l' as u8, 's' as u8, 'e' as u8];
    assert(kw@ == seq!['f' as u8, 'a' as u8, 'l' as u8, 's' as u8, 'e' as u8]);
    if same_bytes(&w, &kw) {
        return Token::FALSE;
    }
    let kw = ['r' as u8, 'e' as u8, 't' as u8, 'u' as u8, 'r' as u8, 'n' as u8];
    assert(kw@ == seq!['r' as u8, 'e' as u8, 't' as u8, 'u' as u8, 'r' as u8, 'n' as u8]);
    if same_bytes(&w, &kw) {
        return Token::RETURN;
    }
    Token::IDENT(ascii_string(w))
}

/// The bytes that some token starts with, or that are skipped as whitespace.
pub open spec fn recognized(b: u8) -> bool {
    is_space(b) || is_letter(b) || is_digit(b) || b == '=' as u8 || b == '!' as u8
        || single_lexeme(b) is Some
}

/// The source text that a token is written as.
pub open spec fn spelling(l: Lexeme) -> Seq<char> {
    match l {
        Lexeme::Ident(t) => t,
        Lexeme::Int(t) => t,
        Lexeme::Eof => seq![],
        Lexeme::Assign => seq!['='],
        Lexeme::Equal => seq!['=', '='],
        Lexeme::NotEqual => seq!['!', '='],
        Lexeme::Plus => seq!['+'],
        Lexeme::Minus => seq!['-'],
        Lexeme::Comma => seq![','],
        Lexeme::Semicolon => seq![';'],
        Lexeme::Bang => seq!['!'],
        Lexeme::Asterisk => seq!['*'],
        Lexeme::Slash => seq!['/'],
        Lexeme::Lt => seq!['<'],
        Lexeme::Gt => seq!['>'],
        Lexeme::LParen => seq!['('],
        Lexeme::RParen => seq![')'],
        Lexeme::LBrace => seq!['{'],
        Lexeme::RBrace => seq!['}'],
        Lexeme::Function => seq!['f', 'n'],
        Lexeme::Let => seq!['l', 'e', 't'],
        Lexeme::If => seq!['i', 'f'],
        Lexeme::True => seq!['t', 'r', 'u', 'e'],
        Lexeme::False => seq!['f', 'a', 'l', 's', 'e'],
        Lexeme::Else => seq!['e', 'l', 's', 'e'],
        Lexeme::Return => seq!['r', 'e', 't', 'u', 'r', 'n'],
    }
}

proof fn lemma_skip_spaces(s: Seq<u8>, i: int)
    requires
        0 <= i <= s.len(),
    ensures
        i <= skip_spaces(s, i) <= s.len(),
        forall|m: int| i <= m < skip_spaces(s, i) ==> is_space(#[trigger] s[m]),
        skip_spaces(s, i) < s.len() ==> !is_space(s[skip_spaces(s, i)]),
    decreases s.len() - i,
{
    if i < s.len() && is_space(s[i]) {
        lemma_skip_spaces(s, i + 1);
    }
}

proof fn lemma_letters_end(s: Seq<u8>, i: int)
    requires
        0 <= i <= s.len(),
    ensures
        i <= letters_end(s, i) <= s.len(),
        forall|m: int| i <= m < letters_end(s, i) ==> is_letter(#[trigger] s[m]),
    decreases s.len() - i,
{
    if i < s.len() && is_letter(s[i]) {
        lemma_letters_end(s, i + 1);
    }
}

proof fn lemma_digits_end(s: Seq<u8>, i: int)
    requires
        0 <= i <= s.len(),
    ensures
        i <= digits_end(s, i) <= s.len(),
        forall|m: int| i <= m < digits_end(s, i) ==> is_digit(#[trigger] s[m]),
    decreases s.len() - i,
{
    if i < s.len() && is_digit(s[i]) {
        lemma_digits_end(s, i + 1);
    }
}

/// On input made only of recognized bytes, each call yields a token and never an error.
/// The bytes it skips are whitespace; the token is written exactly as the bytes after them,
/// which hold no whitespace; and it is `EOF` just when nothing but whitespace was left.
/// So the calls from the start, each from where the last one stopped, account for every
/// byte once, whitespace aside.
pub proof fn lemma_scan_is_total(s: Seq<u8>, i: int)
    requires
        0 <= i <= s.len(),
        forall|m: int| 0 <= m < s.len() ==> recognized(#[trigger] s[m]),
    ensures
        next_lexeme(s, i).0 is Ok,
        i <= skip_spaces(s, i) <= next_lexeme(s, i).1 <= s.len(),
        forall|m: int| i <= m < skip_spaces(s, i) ==> is_space(#[trigger] s[m]),
        forall|m: int|
            skip_spaces(s, i) <= m < next_lexeme(s, i).1 ==> !is_space(#[trigger] s[m]),
        ascii_chars(s.subrange(skip_spaces(s, i), next_lexeme(s, i).1)) == spelling(
            next_lexeme(s, i).0->Ok_0,
        ),
        (next_lexeme(s, i).0 == Ok::<Lexeme, ScanError>(Lexeme::Eof)) <==> skip_spaces(s, i)
            == s.len(),
{
    lemma_skip_spaces(s, i);
    let k = skip_spaces(s, i);
    if k < s.len() {
        let b = s[k];
        assert(recognized(b));
        if is_letter(b) {
            lemma_letters_end(s, k);
        } else if is_digit(b) {
            lemma_digits_end(s, k);
        }
    }
}

/// Once a call yields `EOF`, the cursor does not move, so every later call yields `EOF` again.
pub proof fn lemma_end_is_sticky(s: Seq<u8>, i: int)
    requires
        0 <= i <= s.len(),
        next_lexeme(s, i).0 == Ok::<Lexeme, ScanError>(Lexeme::Eof),
    ensures
        next_lexeme(s, i).1 == s.len(),
        next_lexeme(s, next_lexeme(s, i).1) == next_lexeme(s, i),
{
    lemma_skip_spaces(s, i);
    let k = skip_spaces(s, i);
    if k < s.len() {
        if is_letter(s[k]) {
            let w = s.subrange(k, letters_end(s, k));
            assert(word_lexeme(w) != Lexeme::Eof);
        }
    }
}

/// `==` scans as one `EQUAL` token and `!=` as one `NOTEQUAL` token, both bytes consumed:
/// never as an `ASSIGN` or a `BANG` followed by an `ASSIGN`.
pub proof fn lemma_two_byte_operators(s: Seq<u8>, i: int)
    requires
        0 <= i <= s.len(),
        skip_spaces(s, i) + 1 < s.len(),
        s[skip_spaces(s, i)] == '=' as u8 || s[skip_spaces(s, i)] == '!' as u8,
        s[skip_spaces(s, i) + 1] == '=' as u8,
    ensures
        next_lexeme(s, i) == (
        if s[skip_spaces(s, i)] == '=' as u8 {
            Ok::<Lexeme, ScanError>(Lexeme::Equal)
        } else {
            Ok::<Lexeme, ScanError>(Lexeme::NotEqual)
        },
        skip_spaces(s, i) + 2,
        ),
{
}

} // verus!
