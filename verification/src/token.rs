//! Lexical tokens and the numerals they carry.

use vstd::prelude::*;

verus! {

/// The binary operators of the language.
#[derive(Clone, Copy, Debug, PartialEq, Eq, Hash)]
pub enum BinaryOp {
    Add,
    Sub,
    Mul,
    Div,
    Shift,
}

/// Whether `c` is one of the ten decimal digits.
pub open spec fn is_decimal_digit(c: char) -> bool {
    '0' <= c && c <= '9'
}

/// The texts that denote a number: digits with at most one decimal point,
/// and at least one digit. So `2`, `34.`, `.1` and `51.23` are numerals,
/// while `.` and `1.2.3` are not.
pub open spec fn is_numeral(text: Seq<char>) -> bool {
    &&& forall|i: int| 0 <= i < text.len() ==> is_decimal_digit(#[trigger] text[i]) || text[i] == '.'
    &&& forall|i: int, j: int|
        0 <= i < text.len() && 0 <= j < text.len() && #[trigger] text[i] == '.' && #[trigger] text[j]
            == '.' ==> i == j
    &&& exists|i: int| 0 <= i < text.len() && is_decimal_digit(#[trigger] text[i])
}

/// A numeric literal, kept as the decimal text that was written.
#[derive(Debug, PartialEq, Eq)]
pub struct Number {
    text: String,
}

impl View for Number {
    type V = Seq<char>;

    closed spec fn view(&self) -> Seq<char> {
        self.text@
    }
}

impl Number {
    #[verifier::type_invariant]
    spec fn well_formed(self) -> bool {
        is_numeral(self.text@)
    }

    /// Checks `text` and makes a number of it. A text that is no numeral
    /// is handed back unchanged.
    pub fn new(text: String) -> (made: Result<Number, String>)
        ensures
            match made {
                Ok(number) => is_numeral(text@) && number@ == text@,
                Err(rejected) => !is_numeral(text@) && rejected@ == text@,
            },
    {
        let mut dots: usize = 0;
        let mut dot_at: Ghost<int> = Ghost(0);
        let mut digit_at: Ghost<Option<int>> = Ghost(None);
        let mut has_digit = false;
        let mut only_numeral_chars = true;
        for c in it: text.as_str().chars()
            invariant
                it.seq() == text@,
                only_numeral_chars == (forall|i: int|
                    0 <= i < it.index() ==> is_decimal_digit(#[trigger] text@[i]) || text@[i]
                        == '.'),
                dots <= 2,
                dots == 0 ==> forall|i: int| 0 <= i < it.index() ==> #[trigger] text@[i] != '.',
                dots == 1 ==> 0 <= dot_at@ < it.index() && text@[dot_at@] == '.' && forall|i: int|
                    0 <= i < it.index() && #[trigger] text@[i] == '.' ==> i == dot_at@,
                dots == 2 ==> exists|i: int, j: int|
                    0 <= i < j < it.index() && #[trigger] text@[i] == '.' && #[trigger] text@[j]
                        == '.',
                has_digit == (digit_at@ is Some),
                has_digit ==> 0 <= digit_at@->0 < it.index() && is_decimal_digit(
                    text@[digit_at@->0],
                ),
                !has_digit ==> forall|i: int|
                    0 <= i < it.index() ==> !is_decimal_digit(#[trigger] text@[i]),
        {
            let ghost at = it.index() as int;
            if c == '.' {
                if dots == 0 {
                    dots = 1;
                    proof {
                        dot_at@ = at;
                    }
                } else {
                    proof {
                        if dots == 1 {
                            assert(text@[dot_at@] == '.' && text@[at] == '.');
                        } else {
                            let (i, j) = choose|i: int, j: int|
                                0 <= i < j < it.index() && #[trigger] text@[i] == '.'
                                    && #[trigger] text@[j] == '.';
                            assert(text@[i] == '.' && text@[j] == '.');
                        }
                    }
                    dots = 2;
                }
            } else if '0' <= c && c <= '9' {
                has_digit = true;
                proof {
                    digit_at@ = Some(at);
                }
            } else {
                only_numeral_chars = false;
            }
        }
        if only_numeral_chars && dots <= 1 && has_digit {
            proof {
                assert(is_decimal_digit(text@[digit_at@->0]));
            }
            Ok(Number { text })
        } else {
            proof {
                if dots == 2 {
                    let (i, j) = choose|i: int, j: int|
                        0 <= i < j < text@.len() && #[trigger] text@[i] == '.' && #[trigger] text@[j]
                            == '.';
                    assert(text@[i] == '.' && text@[j] == '.' && i != j);
                }
            }
            Err(text)
        }
    }

    /// The numeral as it was written.
    pub fn text(&self) -> (text: &str)
        ensures
            text@ == self@,
            is_numeral(text@),
    {
        proof {
            use_type_invariant(self);
        }
        self.text.as_str()
    }
}

impl Clone for Number {
    fn clone(&self) -> (copy: Number)
        ensures
            copy@ == self@,
    {
        proof {
            use_type_invariant(self);
        }
        Number { text: self.text.clone() }
    }
}

/// What a token is, with its texts as sequences of characters.
pub enum TokenView {
    EOF,
    Def,
    Extern,
    If,
    Then,
    Else,
    Let,
    Assign,
    Delimeter,
    Identity(Seq<char>),
    Number(Seq<char>),
    BinOp(BinaryOp),
    RParen,
    LParen,
    Comma,
    Unknown(char),
    Comment(Seq<char>),
}

/// The basic construct which text is first cut into.
#[derive(Debug, PartialEq)]
pub enum Token {
    /// The end of the input.
    EOF,
    Def,
    Extern,
    If,
    Then,
    Else,
    Let,
    Assign,
    /// The semicolon that separates statements.
    Delimeter,
    Identity(String),
    Number(Number),
    BinOp(BinaryOp),
    RParen,
    LParen,
    Comma,
    /// A character that starts no other token.
    Unknown(char),
    /// The text of a comment, without the `#` that opens it.
    Comment(String),
}

impl TokenView {
    /// A word for the kind of token, as error messages name it.
    pub open spec fn kind_name(self) -> Seq<char> {
        match self {
            TokenView::EOF => "end of input"@,
            TokenView::Def => "'def'"@,
            TokenView::Extern => "'extern'"@,
            TokenView::If => "'if'"@,
            TokenView::Then => "'then'"@,
            TokenView::Else => "'else'"@,
            TokenView::Let => "'let'"@,
            TokenView::Assign => "'='"@,
            TokenView::Delimeter => "';'"@,
            TokenView::Identity(_) => "identifier"@,
            TokenView::Number(_) => "number"@,
            TokenView::BinOp(_) => "operator"@,
            TokenView::RParen => "')'"@,
            TokenView::LParen => "'('"@,
            TokenView::Comma => "','"@,
            TokenView::Unknown(_) => "unknown character"@,
            TokenView::Comment(_) => "comment"@,
        }
    }
}

impl Token {
    /// A word for the kind of token, as error messages name it.
    pub fn kind_name(&self) -> (name: &'static str)
        ensures
            name@ == self@.kind_name(),
    {
        match self {
            Token::EOF => "end of input",
            Token::Def => "'def'",
            Token::Extern => "'extern'",
            Token::If => "'if'",
            Token::Then => "'then'",
            Token::Else => "'else'",
            Token::Let => "'let'",
            Token::Assign => "'='",
            Token::Delimeter => "';'",
            Token::Identity(_) => "identifier",
            Token::Number(_) => "number",
            Token::BinOp(_) => "operator",
            Token::RParen => "')'",
            Token::LParen => "'('",
            Token::Comma => "','",
            Token::Unknown(_) => "unknown character",
            Token::Comment(_) => "comment",
        }
    }
}

impl View for Token {
    type V = TokenView;

    open spec fn view(&self) -> TokenView {
        match self {
            Token::EOF => TokenView::EOF,
            Token::Def => TokenView::Def,
            Token::Extern => TokenView::Extern,
            Token::If => TokenView::If,
            Token::Then => TokenView::Then,
            Token::Else => TokenView::Else,
            Token::Let => TokenView::Let,
            Token::Assign => TokenView::Assign,
            Token::Delimeter => TokenView::Delimeter,
            Token::Identity(name) => TokenView::Identity(name@),
            Token::Number(value) => TokenView::Number(value@),
            Token::BinOp(op) => TokenView::BinOp(*op),
            Token::RParen => TokenView::RParen,
            Token::LParen => TokenView::LParen,
            Token::Comma => TokenView::Comma,
            Token::Unknown(c) => TokenView::Unknown(*c),
            Token::Comment(text) => TokenView::Comment(text@),
        }
    }
}

impl DeepView for Token {
    type V = TokenView;

    open spec fn deep_view(&self) -> TokenView {
        self@
    }
}

impl Clone for Token {
    fn clone(&self) -> (copy: Token)
        ensures
            copy@ == self@,
    {
        match self {
            Token::EOF => Token::EOF,
            Token::Def => Token::Def,
            Token::Extern => Token::Extern,
            Token::If => Token::If,
            Token::Then => Token::Then,
            Token::Else => Token::Else,
            Token::Let => Token::Let,
            Token::Assign => Token::Assign,
            Token::Delimeter => Token::Delimeter,
            Token::Identity(name) => Token::Identity(name.clone()),
            Token::Number(value) => Token::Number(value.clone()),
            Token::BinOp(op) => Token::BinOp(*op),
            Token::RParen => Token::RParen,
            Token::LParen => Token::LParen,
            Token::Comma => Token::Comma,
            Token::Unknown(c) => Token::Unknown(*c),
            Token::Comment(text) => Token::Comment(text.clone()),
        }
    }
}

/// Copies `tokens[from..to]`.
pub fn clone_tokens(tokens: &[Token], from: usize, to: usize) -> (copies: Vec<Token>)
    requires
        from <= to <= tokens.len(),
    ensures
        copies.deep_view() == tokens.deep_view().subrange(from as int, to as int),
{
    let mut copies: Vec<Token> = Vec::new();
    let mut i: usize = from;
    while i < to
        invariant
            from <= i <= to <= tokens.len(),
            copies.len() == i - from,
            forall|j: int| 0 <= j < copies.len() ==> copies[j]@ == tokens[from + j]@,
        decreases to - i,
    {
        copies.push(tokens[i].clone());
        i += 1;
    }
    assert(copies.deep_view() =~= tokens.deep_view().subrange(from as int, to as int));
    copies
}

} // verus!
