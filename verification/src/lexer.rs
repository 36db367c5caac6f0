//! The tokenizer: from text to tokens, one at a time or all at once.

use crate::chars::{lemma_run_len, run_len, take_run, unicode_alphabetic, CharClass};
use crate::token::{is_decimal_digit, is_numeral, BinaryOp, Number, Token, TokenView};
use vstd::prelude::*;

verus! {

/// What the tokenizer cannot make a token of.
#[derive(Debug, PartialEq, Eq)]
pub enum LexicalError {
    /// A run of digits and points that denotes no number, such as `1.2.3`.
    NumericFormat(String),
}

/// A lexical error, with its text as a sequence of characters.
pub enum LexicalErrorView {
    NumericFormat(Seq<char>),
}

impl View for LexicalError {
    type V = LexicalErrorView;

    open spec fn view(&self) -> LexicalErrorView {
        match self {
            LexicalError::NumericFormat(text) => LexicalErrorView::NumericFormat(text@),
        }
    }
}

impl LexicalErrorView {
    /// A sentence that names the text that was refused.
    pub open spec fn message(self) -> Seq<char> {
        match self {
            LexicalErrorView::NumericFormat(text) => "malformed number "@ + text,
        }
    }
}

impl LexicalError {
    /// A sentence that names the text that was refused.
    pub fn message(&self) -> (message: String)
        ensures
            message@ == self@.message(),
    {
        match self {
            LexicalError::NumericFormat(text) => String::from_str("malformed number ").concat(
                text.as_str(),
            ),
        }
    }
}

/// The view of what `Lexer::get_token` returns.
pub open spec fn scanned_view(scanned: Result<Token, LexicalError>) -> Result<
    TokenView,
    LexicalErrorView,
> {
    match scanned {
        Ok(token) => Ok(token@),
        Err(error) => Err(error@),
    }
}

/// The view of what `Lexer::get_all_tokens` returns.
pub open spec fn tokens_view(tokens: Result<Vec<Token>, LexicalError>) -> Result<
    Seq<TokenView>,
    LexicalErrorView,
> {
    match tokens {
        Ok(tokens) => Ok(tokens.deep_view()),
        Err(error) => Err(error@),
    }
}

/// The token that a word stands for: a keyword, or else an identifier.
pub open spec fn word_token(word: Seq<char>) -> TokenView {
    if word == "def"@ {
        TokenView::Def
    } else if word == "extern"@ {
        TokenView::Extern
    } else if word == "if"@ {
        TokenView::If
    } else if word == "else"@ {
        TokenView::Else
    } else if word == "then"@ {
        TokenView::Then
    } else if word == "let"@ {
        TokenView::Let
    } else {
        TokenView::Identity(word)
    }
}

/// The token that a single character stands for, where it starts neither a
/// word, nor a numeral, nor a comment.
pub open spec fn symbol_token(c: char) -> TokenView {
    if c == '=' {
        TokenView::Assign
    } else if c == ';' {
        TokenView::Delimeter
    } else if c == '(' {
        TokenView::LParen
    } else if c == ')' {
        TokenView::RParen
    } else if c == ',' {
        TokenView::Comma
    } else if c == '+' {
        TokenView::BinOp(BinaryOp::Add)
    } else if c == '-' {
        TokenView::BinOp(BinaryOp::Sub)
    } else if c == '*' {
        TokenView::BinOp(BinaryOp::Mul)
    } else if c == '/' {
        TokenView::BinOp(BinaryOp::Div)
    } else {
        TokenView::Unknown(c)
    }
}

/// What the first character of a token announces.
#[derive(Clone, Copy, Debug, PartialEq, Eq)]
pub enum Opening {
    /// A keyword or an identifier.
    Word,
    /// A number.
    Numeral,
    /// A comment.
    Comment,
    /// A token of one character.
    Symbol,
}

/// What `c` announces at the start of a token, given whether it is
/// alphabetic: a letter starts a word, a digit or a point a numeral, `#` a
/// comment, and anything else stands for itself.
pub open spec fn opening_of(c: char, alphabetic: bool) -> Opening {
    if alphabetic {
        Opening::Word
    } else if is_decimal_digit(c) || c == '.' {
        Opening::Numeral
    } else if c == '#' {
        Opening::Comment
    } else {
        Opening::Symbol
    }
}

/// What `c` announces at the start of a token, given whether it is
/// alphabetic.
pub fn opening(c: char, alphabetic: bool) -> (opening: Opening)
    ensures
        opening == opening_of(c, alphabetic),
{
    if alphabetic {
        Opening::Word
    } else if ('0' <= c && c <= '9') || c == '.' {
        Opening::Numeral
    } else if c == '#' {
        Opening::Comment
    } else {
        Opening::Symbol
    }
}

/// One step of the tokenizer: what it found, and how many characters it
/// read to find it.
pub struct Scan {
    pub token: Result<TokenView, LexicalErrorView>,
    pub consumed: nat,
}

/// The first token of `text`.
///
/// White space is passed over. A letter starts a word, which runs on over
/// letters, numbers and underscores. A digit or a point starts a numeral,
/// which runs on over digits and points. `#` starts a comment, which runs to
/// the end of the line and takes the character that ends the line with it.
/// Any other character is a token by itself.
pub open spec fn scan(text: Seq<char>) -> Scan {
    let spaces = run_len(text, CharClass::Space);
    let rest = text.skip(spaces as int);
    if rest.len() == 0 {
        Scan { token: Ok(TokenView::EOF), consumed: spaces }
    } else {
        match opening_of(rest[0], unicode_alphabetic(rest[0])) {
            Opening::Word => {
                let n = run_len(rest, CharClass::Word);
                Scan { token: Ok(word_token(rest.take(n as int))), consumed: spaces + n }
            },
            Opening::Numeral => {
                let n = run_len(rest, CharClass::Numeral);
                let numeral = rest.take(n as int);
                Scan {
                    token: if is_numeral(numeral) {
                        Ok(TokenView::Number(numeral))
                    } else {
                        Err(LexicalErrorView::NumericFormat(numeral))
                    },
                    consumed: spaces + n,
                }
            },
            Opening::Comment => {
                let body = rest.skip(1);
                let n = run_len(body, CharClass::Comment);
                let line_end: nat = if n < body.len() {
                    1
                } else {
                    0
                };
                Scan {
                    token: Ok(TokenView::Comment(body.take(n as int))),
                    consumed: spaces + 1 + n + line_end,
                }
            },
            Opening::Symbol => Scan { token: Ok(symbol_token(rest[0])), consumed: spaces + 1 },
        }
    }
}

/// A step never reads past the end of the text, reads all of it when it
/// finds the end, and reads at least one character otherwise.
pub proof fn lemma_scan_bounds(text: Seq<char>)
    ensures
        scan(text).consumed <= text.len(),
        scan(text).token == Ok::<TokenView, LexicalErrorView>(TokenView::EOF) ==> scan(
            text,
        ).consumed == text.len(),
        scan(text).token != Ok::<TokenView, LexicalErrorView>(TokenView::EOF) ==> scan(
            text,
        ).consumed > 0,
{
    let spaces = run_len(text, CharClass::Space);
    lemma_run_len(text, CharClass::Space);
    let rest = text.skip(spaces as int);
    if rest.len() > 0 {
        lemma_run_len(rest, CharClass::Word);
        lemma_run_len(rest, CharClass::Numeral);
        lemma_run_len(rest.skip(1), CharClass::Comment);
        lemma_word_token_not_eof(rest.take(run_len(rest, CharClass::Word) as int));
    }
}

proof fn lemma_word_token_not_eof(word: Seq<char>)
    ensures
        word_token(word) != TokenView::EOF,
{
}

/// The tokens of `text`, up to its end, or the first lexical error.
pub open spec fn tokens_of(text: Seq<char>) -> Result<Seq<TokenView>, LexicalErrorView>
    decreases text.len(),
{
    let step = scan(text);
    match step.token {
        Err(error) => Err(error),
        Ok(TokenView::EOF) => Ok(Seq::empty()),
        Ok(token) => {
            proof {
                lemma_scan_bounds(text);
            }
            match tokens_of(text.skip(step.consumed as int)) {
                Ok(tokens) => Ok(seq![token] + tokens),
                Err(error) => Err(error),
            }
        },
    }
}

/// How many characters are read to find `tokens_of(text)`: all of them, or
/// those up to the end of the numeral that is refused.
pub open spec fn tokens_len(text: Seq<char>) -> nat
    decreases text.len(),
{
    let step = scan(text);
    match step.token {
        Err(_) => step.consumed,
        Ok(TokenView::EOF) => step.consumed,
        Ok(_) => {
            proof {
                lemma_scan_bounds(text);
            }
            step.consumed + tokens_len(text.skip(step.consumed as int))
        },
    }
}

/// Reading all tokens stays within the text, and ends at its end unless a
/// numeral is refused.
pub proof fn lemma_tokens_len(text: Seq<char>)
    ensures
        tokens_len(text) <= text.len(),
        tokens_of(text) is Ok ==> tokens_len(text) == text.len(),
    decreases text.len(),
{
    let step = scan(text);
    lemma_scan_bounds(text);
    if step.token is Ok && step.token != Ok::<TokenView, LexicalErrorView>(TokenView::EOF) {
        lemma_tokens_len(text.skip(step.consumed as int));
    }
}

/// Tokenizing is a function of the text: equal texts have equal tokens.
pub proof fn lemma_tokens_deterministic(first: Seq<char>, second: Seq<char>)
    requires
        first =~= second,
    ensures
        scan(first) == scan(second),
        tokens_of(first) == tokens_of(second),
        tokens_len(first) == tokens_len(second),
{
}

/// An unknown character is a token like any other: behind it the text is
/// tokenized as if it stood alone.
pub proof fn lemma_unknown_character(text: Seq<char>, c: char)
    requires
        scan(text).token == Ok::<TokenView, LexicalErrorView>(TokenView::Unknown(c)),
    ensures
        0 < scan(text).consumed <= text.len(),
        text[scan(text).consumed - 1] == c,
        tokens_of(text) == match tokens_of(text.skip(scan(text).consumed as int)) {
            Ok(tokens) => Ok::<Seq<TokenView>, LexicalErrorView>(seq![TokenView::Unknown(c)] + tokens),
            Err(error) => Err(error),
        },
{
    lemma_scan_bounds(text);
    lemma_run_len(text, CharClass::Space);
    let rest = text.skip(run_len(text, CharClass::Space) as int);
    lemma_word_token_not_unknown(rest.take(run_len(rest, CharClass::Word) as int));
}

proof fn lemma_word_token_not_unknown(word: Seq<char>)
    ensures
        !(word_token(word) is Unknown),
{
}

/// A cursor over a text that hands out its tokens.
pub struct Lexer {
    input: Vec<char>,
    pos: usize,
    reached_eof: bool,
}

impl Lexer {
    #[verifier::type_invariant]
    spec fn well_formed(self) -> bool {
        &&& self.pos <= self.input.len()
        &&& self.reached_eof ==> self.pos == self.input.len()
    }

    /// The text that is still to be read.
    pub closed spec fn remaining(self) -> Seq<char> {
        self.input@.skip(self.pos as int)
    }

    /// Whether the end-of-input token has been handed out.
    pub closed spec fn finished(self) -> bool {
        self.reached_eof
    }

    /// A lexer at the start of `input`.
    pub fn new(input: &str) -> (lexer: Lexer)
        ensures
            lexer.remaining() == input@,
            !lexer.finished(),
    {
        let mut chars: Vec<char> = Vec::new();
        for c in it: input.chars()
            invariant
                chars@ == it.seq().take(it.index() as int),
                it.seq() == input@,
        {
            chars.push(c);
        }
        assert(chars@.skip(0) =~= input@);
        Lexer { input: chars, pos: 0, reached_eof: false }
    }

    /// Reads the run of `class` that starts at `pos`. Handed back with it is
    /// the position behind the run.
    fn read_run(&self, pos: usize, class: CharClass) -> (read: (String, usize))
        requires
            pos <= self.input.len(),
        ensures
            ({
                let text = self.input@.skip(pos as int);
                let n = run_len(text, class);
                &&& read.0@ == text.take(n as int)
                &&& read.1 == pos + n
                &&& read.1 <= self.input.len()
                &&& self.input@.skip(read.1 as int) == text.skip(n as int)
            }),
    {
        let ghost text = self.input@.skip(pos as int);
        let ghost n = run_len(text, class);
        proof {
            lemma_run_len(text, class);
        }
        let run = take_run(&self.input, pos, class);
        assert(run@ =~= text.take(n as int));
        let next = pos + run.as_str().unicode_len();
        assert(self.input@.skip(next as int) =~= text.skip(n as int));
        (run, next)
    }

    /// Reads the word that starts at `pos`.
    fn get_identifier_string(&self, pos: usize) -> (read: (String, usize))
        requires
            pos <= self.input.len(),
        ensures
            ({
                let text = self.input@.skip(pos as int);
                let n = run_len(text, CharClass::Word);
                &&& read.0@ == text.take(n as int)
                &&& read.1 == pos + n
                &&& read.1 <= self.input.len()
            }),
    {
        self.read_run(pos, CharClass::Word)
    }

    /// Reads the numeral that starts at `pos`. A run of digits and points
    /// that is no numeral is an error.
    fn get_number(&self, pos: usize) -> (read: (Result<Number, LexicalError>, usize))
        requires
            pos <= self.input.len(),
        ensures
            ({
                let text = self.input@.skip(pos as int);
                let n = run_len(text, CharClass::Numeral);
                let numeral = text.take(n as int);
                &&& read.1 == pos + n
                &&& read.1 <= self.input.len()
                &&& match read.0 {
                    Ok(value) => is_numeral(numeral) && value@ == numeral,
                    Err(error) => !is_numeral(numeral) && error@ == LexicalErrorView::NumericFormat(
                        numeral,
                    ),
                }
            }),
    {
        let (numeral, next) = self.read_run(pos, CharClass::Numeral);
        match Number::new(numeral) {
            Ok(value) => (Ok(value), next),
            Err(rejected) => (Err(LexicalError::NumericFormat(rejected)), next),
        }
    }

    /// Reads the rest of the line from `pos` on, and passes over the
    /// character that ends the line, if there is one.
    fn skip_line(&self, pos: usize) -> (read: (String, usize))
        requires
            pos <= self.input.len(),
        ensures
            ({
                let text = self.input@.skip(pos as int);
                let n = run_len(text, CharClass::Comment);
                let line_end: nat = if n < text.len() {
                    1
                } else {
                    0
                };
                &&& read.0@ == text.take(n as int)
                &&& read.1 == pos + n + line_end
                &&& read.1 <= self.input.len()
            }),
    {
        let (line, end) = self.read_run(pos, CharClass::Comment);
        if end < self.input.len() {
            (line, end + 1)
        } else {
            (line, end)
        }
    }

    /// The token that starts at `pos`, and the position behind it.
    fn token_at(&self, pos: usize) -> (read: (Result<Token, LexicalError>, usize))
        requires
            pos <= self.input.len(),
        ensures
            scanned_view(read.0) == scan(self.input@.skip(pos as int)).token,
            read.1 == pos + scan(self.input@.skip(pos as int)).consumed,
            read.1 <= self.input.len(),
    {
        let ghost text = self.input@.skip(pos as int);
        let ghost spaces = run_len(text, CharClass::Space);
        let (_dropped_whitespace, start) = self.read_run(pos, CharClass::Space);
        if start >= self.input.len() {
            return (Ok(Token::EOF), start);
        }
        let last_char = self.input[start];
        match opening(last_char, last_char.is_alphabetic()) {
            Opening::Word => {
                let (word, next) = self.get_identifier_string(start);
                (Ok(keyword_or_identifier(word)), next)
            },
            Opening::Numeral => {
                match self.get_number(start) {
                    (Ok(value), next) => (Ok(Token::Number(value)), next),
                    (Err(error), next) => (Err(error), next),
                }
            },
            Opening::Comment => {
                assert(self.input@.skip(start + 1) =~= text.skip(spaces as int).skip(1));
                let (line, next) = self.skip_line(start + 1);
                (Ok(Token::Comment(line)), next)
            },
            Opening::Symbol => (Ok(symbol(last_char)), start + 1),
        }
    }

    /// Hands out the next token and moves past it.
    ///
    /// At the end of the text the token is `EOF`, again and again. A numeral
    /// that denotes no number is an error; the cursor is then behind it, and
    /// the next call goes on from there.
    pub fn get_token(&mut self) -> (token: Result<Token, LexicalError>)
        ensures
            scanned_view(token) == scan(old(self).remaining()).token,
            final(self).remaining() == old(self).remaining().skip(
                scan(old(self).remaining()).consumed as int,
            ),
            final(self).finished() == (old(self).finished() || token == Ok::<Token, LexicalError>(
                Token::EOF,
            )),
    {
        proof {
            use_type_invariant(&*self);
            lemma_scan_bounds(self.remaining());
        }
        let ghost text = self.remaining();
        let (token, next) = self.token_at(self.pos);
        assert(self.input@.skip(next as int) =~= text.skip(scan(text).consumed as int));
        self.pos = next;
        if let Ok(Token::EOF) = &token {
            self.reached_eof = true;
        }
        token
    }

    /// The token that `get_token` would hand out next. The lexer stays
    /// where it is.
    pub fn peek_token(&self) -> (token: Result<Token, LexicalError>)
        ensures
            scanned_view(token) == scan(self.remaining()).token,
    {
        proof {
            use_type_invariant(self);
        }
        self.token_at(self.pos).0
    }

    /// Hands out the tokens that are left, without the `EOF` that ends them.
    ///
    /// The first lexical error ends the reading; the cursor is then behind
    /// the numeral that was refused.
    pub fn get_all_tokens(&mut self) -> (tokens: Result<Vec<Token>, LexicalError>)
        ensures
            tokens_view(tokens) == tokens_of(old(self).remaining()),
            final(self).remaining() == old(self).remaining().skip(
                tokens_len(old(self).remaining()) as int,
            ),
            final(self).finished() == (old(self).finished() || tokens is Ok),
    {
        let ghost text = self.remaining();
        let ghost mut read: nat = 0;
        let mut tokens: Vec<Token> = Vec::new();
        proof {
            assert(text.skip(0) =~= text);
            assert(Seq::<TokenView>::empty() + tokens_of(text)->Ok_0 =~= tokens_of(text)->Ok_0);
        }
        loop
            invariant
                text == old(self).remaining(),
                read <= text.len(),
                self.remaining() == text.skip(read as int),
                self.finished() == old(self).finished(),
                tokens_len(text) == read + tokens_len(self.remaining()),
                tokens_of(text) == match tokens_of(self.remaining()) {
                    Ok(more) => Ok::<Seq<TokenView>, LexicalErrorView>(tokens.deep_view() + more),
                    Err(error) => Err(error),
                },
            decreases text.len() - read,
        {
            let ghost before = self.remaining();
            let ghost step = scan(before);
            let ghost seen = tokens.deep_view();
            proof {
                lemma_scan_bounds(before);
                assert(text.skip(read as int).skip(step.consumed as int) =~= text.skip(
                    (read + step.consumed) as int,
                ));
            }
            match self.get_token() {
                Err(error) => {
                    return Err(error);
                },
                Ok(Token::EOF) => {
                    proof {
                        assert(seen + Seq::<TokenView>::empty() =~= seen);
                    }
                    return Ok(tokens);
                },
                Ok(token) => {
                    tokens.push(token);
                    proof {
                        read = read + step.consumed;
                        assert(tokens.deep_view() =~= seen.push(token@));
                        match tokens_of(self.remaining()) {
                            Ok(more) => {
                                assert(seen + (seq![token@] + more) =~= seen.push(token@) + more);
                            },
                            Err(_) => {},
                        }
                    }
                },
            }
        }
    }

    /// Hands out the next token, until `EOF` has been handed out once.
    pub fn next(&mut self) -> (token: Option<Result<Token, LexicalError>>)
        ensures
            old(self).finished() ==> token is None && *final(self) == *old(self),
            !old(self).finished() ==> token is Some && scanned_view(token->Some_0) == scan(
                old(self).remaining(),
            ).token && final(self).remaining() == old(self).remaining().skip(
                scan(old(self).remaining()).consumed as int,
            ) && final(self).finished() == (token->Some_0 == Ok::<Token, LexicalError>(
                Token::EOF,
            )),
    {
        proof {
            use_type_invariant(&*self);
        }
        if self.reached_eof {
            None
        } else {
            Some(self.get_token())
        }
    }
}

/// The keyword that `word` spells, or else the identifier of that name.
pub fn keyword_or_identifier(word: String) -> (token: Token)
    ensures
        token@ == word_token(word@),
{
    if word == String::from_str("def") {
        Token::Def
    } else if word == String::from_str("extern") {
        Token::Extern
    } else if word == String::from_str("if") {
        Token::If
    } else if word == String::from_str("else") {
        Token::Else
    } else if word == String::from_str("then") {
        Token::Then
    } else if word == String::from_str("let") {
        Token::Let
    } else {
        Token::Identity(word)
    }
}

/// The token that the single character `c` stands for.
pub fn symbol(c: char) -> (token: Token)
    ensures
        token@ == symbol_token(c),
{
    match c {
        '=' => Token::Assign,
        ';' => Token::Delimeter,
        '(' => Token::LParen,
        ')' => Token::RParen,
        ',' => Token::Comma,
        '+' => Token::BinOp(BinaryOp::Add),
        '-' => Token::BinOp(BinaryOp::Sub),
        '*' => Token::BinOp(BinaryOp::Mul),
        '/' => Token::BinOp(BinaryOp::Div),
        _ => Token::Unknown(c),
    }
}

} // verus!
