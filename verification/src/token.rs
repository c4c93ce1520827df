//! The vocabulary shared by the scanner, the parser and the interpreter:
//! token kinds, literal values and tokens, each with its mathematical view.

use vstd::prelude::*;
use vstd::std_specs::convert::FromSpecImpl;
use crate::text::{chars_of, same_text};

verus! {

/// The closed set of token kinds.
#[derive(Debug, PartialEq, Eq, Clone, Copy, Structural)]
pub enum TokenType {
    // Single characters
    LeftParen,
    RightParen,
    LeftBrace,
    RightBrace,
    Comma,
    Dot,
    Minus,
    Plus,
    Semicolon,
    Slash,
    Star,
    // One or two characters
    Bang,
    BangEqual,
    Equal,
    EqualEqual,
    Greater,
    GreaterEqual,
    Less,
    LessEqual,
    // Ternary punctuators
    QuestionMark,
    Colon,
    // Literals
    Identifier,
    String,
    Number,
    // Keywords
    And,
    Class,
    Else,
    False,
    Fun,
    For,
    If,
    Nil,
    Or,
    Print,
    Return,
    Super,
    This,
    True,
    Var,
    While,
    Eof,
}

/// The kind a scanned word stands for: its keyword if it is one of the
/// sixteen reserved words, `Identifier` for every other text.
pub open spec fn keyword_kind(word: Seq<char>) -> TokenType {
    if word == "and"@ {
        TokenType::And
    } else if word == "class"@ {
        TokenType::Class
    } else if word == "else"@ {
        TokenType::Else
    } else if word == "false"@ {
        TokenType::False
    } else if word == "for"@ {
        TokenType::For
    } else if word == "fun"@ {
        TokenType::Fun
    } else if word == "if"@ {
        TokenType::If
    } else if word == "nil"@ {
        TokenType::Nil
    } else if word == "or"@ {
        TokenType::Or
    } else if word == "print"@ {
        TokenType::Print
    } else if word == "return"@ {
        TokenType::Return
    } else if word == "super"@ {
        TokenType::Super
    } else if word == "this"@ {
        TokenType::This
    } else if word == "true"@ {
        TokenType::True
    } else if word == "var"@ {
        TokenType::Var
    } else if word == "while"@ {
        TokenType::While
    } else {
        TokenType::Identifier
    }
}

/// Whether `word` is one of the sixteen reserved words.
pub open spec fn is_reserved(word: Seq<char>) -> bool {
    keyword_kind(word) != TokenType::Identifier
}

/// Makes known what the reserved words are made of.
proof fn reveal_reserved_words()
    ensures
        "and"@ == seq!['a', 'n', 'd'],
        "class"@ == seq!['c', 'l', 'a', 's', 's'],
        "else"@ == seq!['e', 'l', 's', 'e'],
        "false"@ == seq!['f', 'a', 'l', 's', 'e'],
        "for"@ == seq!['f', 'o', 'r'],
        "fun"@ == seq!['f', 'u', 'n'],
        "if"@ == seq!['i', 'f'],
        "nil"@ == seq!['n', 'i', 'l'],
        "or"@ == seq!['o', 'r'],
        "print"@ == seq!['p', 'r', 'i', 'n', 't'],
        "return"@ == seq!['r', 'e', 't', 'u', 'r', 'n'],
        "super"@ == seq!['s', 'u', 'p', 'e', 'r'],
        "this"@ == seq!['t', 'h', 'i', 's'],
        "true"@ == seq!['t', 'r', 'u', 'e'],
        "var"@ == seq!['v', 'a', 'r'],
        "while"@ == seq!['w', 'h', 'i', 'l', 'e'],
{
    reveal_strlit("and");
    reveal_strlit("class");
    reveal_strlit("else");
    reveal_strlit("false");
    reveal_strlit("for");
    reveal_strlit("fun");
    reveal_strlit("if");
    reveal_strlit("nil");
    reveal_strlit("or");
    reveal_strlit("print");
    reveal_strlit("return");
    reveal_strlit("super");
    reveal_strlit("this");
    reveal_strlit("true");
    reveal_strlit("var");
    reveal_strlit("while");
    assert("and"@ =~= seq!['a', 'n', 'd']);
    assert("class"@ =~= seq!['c', 'l', 'a', 's', 's']);
    assert("else"@ =~= seq!['e', 'l', 's', 'e']);
    assert("false"@ =~= seq!['f', 'a', 'l', 's', 'e']);
    assert("for"@ =~= seq!['f', 'o', 'r']);
    assert("fun"@ =~= seq!['f', 'u', 'n']);
    assert("if"@ =~= seq!['i', 'f']);
    assert("nil"@ =~= seq!['n', 'i', 'l']);
    assert("or"@ =~= seq!['o', 'r']);
    assert("print"@ =~= seq!['p', 'r', 'i', 'n', 't']);
    assert("return"@ =~= seq!['r', 'e', 't', 'u', 'r', 'n']);
    assert("super"@ =~= seq!['s', 'u', 'p', 'e', 'r']);
    assert("this"@ =~= seq!['t', 'h', 'i', 's']);
    assert("true"@ =~= seq!['t', 'r', 'u', 'e']);
    assert("var"@ =~= seq!['v', 'a', 'r']);
    assert("while"@ =~= seq!['w', 'h', 'i', 'l', 'e']);
}

/// Each reserved word has the kind that is named after it.
pub proof fn lemma_reserved_words()
    ensures
        keyword_kind("and"@) == TokenType::And,
        keyword_kind("class"@) == TokenType::Class,
        keyword_kind("else"@) == TokenType::Else,
        keyword_kind("false"@) == TokenType::False,
        keyword_kind("for"@) == TokenType::For,
        keyword_kind("fun"@) == TokenType::Fun,
        keyword_kind("if"@) == TokenType::If,
        keyword_kind("nil"@) == TokenType::Nil,
        keyword_kind("or"@) == TokenType::Or,
        keyword_kind("print"@) == TokenType::Print,
        keyword_kind("return"@) == TokenType::Return,
        keyword_kind("super"@) == TokenType::Super,
        keyword_kind("this"@) == TokenType::This,
        keyword_kind("true"@) == TokenType::True,
        keyword_kind("var"@) == TokenType::Var,
        keyword_kind("while"@) == TokenType::While,
{
    reveal_reserved_words();
    assert("class"@[0] == 'c' && "else"@[0] == 'e' && "false"@[0] == 'f' && "for"@[1] == 'o'
        && "fun"@[1] == 'u' && "if"@[0] == 'i' && "nil"@[0] == 'n' && "or"@[0] == 'o'
        && "print"@[0] == 'p' && "return"@[0] == 'r' && "super"@[0] == 's' && "this"@[1] == 'h'
        && "true"@[1] == 'r' && "var"@[0] == 'v' && "while"@[0] == 'w' && "and"@[0] == 'a');
}

/// Two words of one reserved kind are one word: no two reserved words
/// share a kind.
pub proof fn lemma_reserved_kinds_distinct(a: Seq<char>, b: Seq<char>)
    requires
        is_reserved(a),
        keyword_kind(a) == keyword_kind(b),
    ensures
        a == b,
{
}

/// A word that begins with a reserved word and goes on is no reserved
/// word: it is an identifier.
pub proof fn lemma_longer_word_is_identifier(word: Seq<char>, rest: Seq<char>)
    requires
        is_reserved(word),
        rest.len() > 0,
    ensures
        keyword_kind(word + rest) == TokenType::Identifier,
{
    reveal_reserved_words();
    let longer = word + rest;
    assert(longer.len() == word.len() + rest.len());
    assert(forall|i: int| 0 <= i < word.len() ==> longer[i] == word[i]);
    if word == "and"@ {
        assert(longer[0] == 'a' && longer[1] == 'n' && longer[2] == 'd');
    } else if word == "class"@ {
        assert(longer[0] == 'c' && longer[4] == 's');
    } else if word == "else"@ {
        assert(longer[0] == 'e' && longer[3] == 'e');
    } else if word == "false"@ {
        assert(longer[0] == 'f' && longer[1] == 'a' && longer[4] == 'e');
    } else if word == "for"@ {
        assert(longer[0] == 'f' && longer[1] == 'o' && longer[2] == 'r');
    } else if word == "fun"@ {
        assert(longer[0] == 'f' && longer[1] == 'u' && longer[2] == 'n');
    } else if word == "if"@ {
        assert(longer[0] == 'i' && longer[1] == 'f');
    } else if word == "nil"@ {
        assert(longer[0] == 'n' && longer[2] == 'l');
    } else if word == "or"@ {
        assert(longer[0] == 'o' && longer[1] == 'r');
    } else if word == "print"@ {
        assert(longer[0] == 'p' && longer[4] == 't');
    } else if word == "return"@ {
        assert(longer[0] == 'r' && longer[5] == 'n');
    } else if word == "super"@ {
        assert(longer[0] == 's' && longer[4] == 'r');
    } else if word == "this"@ {
        assert(longer[0] == 't' && longer[1] == 'h' && longer[3] == 's');
    } else if word == "true"@ {
        assert(longer[0] == 't' && longer[1] == 'r' && longer[3] == 'e');
    } else if word == "var"@ {
        assert(longer[0] == 'v' && longer[2] == 'r');
    } else {
        assert(word == "while"@);
        assert(longer[0] == 'w' && longer[4] == 'e');
    }
}

impl FromSpecImpl<&str> for TokenType {
    open spec fn obeys_from_spec() -> bool {
        true
    }

    open spec fn from_spec(value: &str) -> TokenType {
        keyword_kind(value@)
    }
}

impl From<&str> for TokenType {
    /// Looks a scanned word up in the table of reserved words.
    fn from(value: &str) -> (kind: TokenType)
        ensures
            kind == keyword_kind(value@),
    {
        if same_text(value, "and") {
            TokenType::And
        } else if same_text(value, "class") {
            TokenType::Class
        } else if same_text(value, "else") {
            TokenType::Else
        } else if same_text(value, "false") {
            TokenType::False
        } else if same_text(value, "for") {
            TokenType::For
        } else if same_text(value, "fun") {
            TokenType::Fun
        } else if same_text(value, "if") {
            TokenType::If
        } else if same_text(value, "nil") {
            TokenType::Nil
        } else if same_text(value, "or") {
            TokenType::Or
        } else if same_text(value, "print") {
            TokenType::Print
        } else if same_text(value, "return") {
            TokenType::Return
        } else if same_text(value, "super") {
            TokenType::Super
        } else if same_text(value, "this") {
            TokenType::This
        } else if same_text(value, "true") {
            TokenType::True
        } else if same_text(value, "var") {
            TokenType::Var
        } else if same_text(value, "while") {
            TokenType::While
        } else {
            TokenType::Identifier
        }
    }
}

/// A decimal digit, `0` to `9`.
pub open spec fn is_digit(c: char) -> bool {
    '0' <= c && c <= '9'
}

/// A non-empty run of decimal digits.
pub open spec fn all_digits(s: Seq<char>) -> bool {
    s.len() > 0 && forall|i: int| 0 <= i < s.len() ==> is_digit(#[trigger] s[i])
}

/// The texts that denote a number: digits, or digits, one `.` and digits.
/// No sign, no exponent, no `.` at either end.
pub open spec fn is_numeral(s: Seq<char>) -> bool {
    all_digits(s) || exists|k: int|
        0 < k < s.len() - 1 && #[trigger] s[k] == '.' && all_digits(s.subrange(0, k))
            && all_digits(s.subrange(k + 1, s.len() as int))
}

/// Whether `c` is a decimal digit.
pub fn digit(c: char) -> (r: bool)
    ensures
        r == is_digit(c),
{
    c >= '0' && c <= '9'
}

/// The end of the run of digits that starts at `from`.
pub fn digits_end(chars: &Vec<char>, from: usize) -> (end: usize)
    requires
        from <= chars.len(),
    ensures
        from <= end <= chars.len(),
        forall|j: int| from <= j < end ==> is_digit(#[trigger] chars@[j]),
        end < chars.len() ==> !is_digit(chars@[end as int]),
{
    let mut end = from;
    while end < chars.len() && digit(chars[end])
        invariant
            from <= end <= chars.len(),
            forall|j: int| from <= j < end ==> is_digit(#[trigger] chars@[j]),
        decreases chars.len() - end,
    {
        end += 1;
    }
    end
}

/// A numeral begins with a digit.
pub proof fn lemma_numeral_starts_with_digit(s: Seq<char>)
    requires
        is_numeral(s),
    ensures
        s.len() > 0,
        is_digit(s[0]),
{
    if !all_digits(s) {
        let k = choose|k: int|
            0 < k < s.len() - 1 && #[trigger] s[k] == '.' && all_digits(s.subrange(0, k))
                && all_digits(s.subrange(k + 1, s.len() as int));
        assert(s.subrange(0, k)[0] == s[0]);
    }
}

/// Where the leading digits of a text stop short of its end, the text is a
/// numeral only if a `.` stands there and digits, and nothing else, follow.
pub proof fn lemma_numeral_point(s: Seq<char>, whole: int)
    requires
        0 < whole < s.len(),
        forall|j: int| 0 <= j < whole ==> is_digit(#[trigger] s[j]),
        !is_digit(s[whole]),
    ensures
        is_numeral(s) <==> s[whole] == '.' && all_digits(s.subrange(whole + 1, s.len() as int)),
{
    if is_numeral(s) {
        assert(!all_digits(s));
        let k = choose|k: int|
            0 < k < s.len() - 1 && #[trigger] s[k] == '.' && all_digits(s.subrange(0, k))
                && all_digits(s.subrange(k + 1, s.len() as int));
        if k < whole {
            assert(is_digit(s[k]));
        }
        if k > whole {
            assert(s.subrange(0, k)[whole] == s[whole]);
        }
        assert(k == whole);
    }
    if s[whole] == '.' && all_digits(s.subrange(whole + 1, s.len() as int)) {
        assert(all_digits(s.subrange(0, whole)));
        assert(whole < s.len() - 1);
    }
}

/// The text of a number literal as it stands in the source. The scanner
/// never folds a sign into it, so it denotes a non-negative decimal.
#[derive(Debug, PartialEq, Eq)]
pub struct Numeral {
    text: String,
}

impl View for Numeral {
    type V = Seq<char>;

    closed spec fn view(&self) -> Seq<char> {
        self.text@
    }
}

impl DeepView for Numeral {
    type V = Seq<char>;

    open spec fn deep_view(&self) -> Seq<char> {
        self@
    }
}

impl Numeral {
    #[verifier::type_invariant]
    spec fn well_formed(self) -> bool {
        is_numeral(self.text@)
    }

    /// Accepts exactly the texts that are numerals.
    pub fn new(text: &str) -> (r: Option<Numeral>)
        ensures
            r is Some <==> is_numeral(text@),
            r matches Some(n) ==> n@ == text@,
    {
        let chars = chars_of(text);
        let n = chars.len();
        let whole = digits_end(&chars, 0);
        if whole == 0 {
            proof {
                if is_numeral(text@) {
                    lemma_numeral_starts_with_digit(text@);
                }
            }
            return None;
        }
        if whole == n {
            return Some(Numeral { text: text.to_owned() });
        }
        proof {
            lemma_numeral_point(text@, whole as int);
        }
        if chars[whole] != '.' {
            return None;
        }
        let fraction = digits_end(&chars, whole + 1);
        if fraction == whole + 1 || fraction < n {
            proof {
                let rest = text@.subrange(whole + 1, n as int);
                if fraction < n {
                    assert(rest[fraction - whole - 1] == text@[fraction as int]);
                }
                assert(!all_digits(rest));
            }
            return None;
        }
        assert(all_digits(text@.subrange(0, whole as int)));
        assert(all_digits(text@.subrange(whole + 1, n as int)));
        Some(Numeral { text: text.to_owned() })
    }

    /// The numeral's characters.
    pub fn text(&self) -> (r: &str)
        ensures
            r@ == self@,
            is_numeral(r@),
    {
        proof {
            use_type_invariant(self);
        }
        self.text.as_str()
    }
}

impl Clone for Numeral {
    fn clone(&self) -> (r: Self)
        ensures
            r == *self,
    {
        proof {
            use_type_invariant(self);
        }
        Numeral { text: self.text.clone() }
    }
}

/// The value a token or a literal expression carries.
#[derive(Debug, PartialEq, Eq)]
pub enum TokenLiteral {
    /// A text: the characters between the quotes of a string, or the source
    /// text of a token that denotes no value.
    Str(String),
    /// A number, by its numeral.
    Num(Numeral),
    /// A truth value. The parser makes these from `true` and `false`.
    Bool(bool),
}

/// What a `TokenLiteral` holds, as plain values.
pub enum LiteralView {
    Str(Seq<char>),
    Num(Seq<char>),
    Bool(bool),
}

impl View for TokenLiteral {
    type V = LiteralView;

    open spec fn view(&self) -> LiteralView {
        match self {
            TokenLiteral::Str(s) => LiteralView::Str(s@),
            TokenLiteral::Num(n) => LiteralView::Num(n@),
            TokenLiteral::Bool(b) => LiteralView::Bool(*b),
        }
    }
}

impl DeepView for TokenLiteral {
    type V = LiteralView;

    open spec fn deep_view(&self) -> LiteralView {
        self@
    }
}

impl Clone for TokenLiteral {
    fn clone(&self) -> (r: Self)
        ensures
            r == *self,
    {
        match self {
            TokenLiteral::Str(s) => TokenLiteral::Str(s.clone()),
            TokenLiteral::Num(n) => TokenLiteral::Num(n.clone()),
            TokenLiteral::Bool(b) => TokenLiteral::Bool(*b),
        }
    }
}

/// One lexical unit of the source.
#[derive(Debug)]
pub struct Token {
    t: TokenType,
    literal: TokenLiteral,
    line: usize,
    lexeme: String,
}

/// What a `Token` holds, as plain values.
pub struct TokenView {
    pub kind: TokenType,
    pub literal: LiteralView,
    pub line: nat,
    pub lexeme: Seq<char>,
}

impl View for Token {
    type V = TokenView;

    closed spec fn view(&self) -> TokenView {
        TokenView {
            kind: self.t,
            literal: self.literal@,
            line: self.line as nat,
            lexeme: self.lexeme@,
        }
    }
}

impl DeepView for Token {
    type V = TokenView;

    open spec fn deep_view(&self) -> TokenView {
        self@
    }
}

impl Clone for Token {
    fn clone(&self) -> (r: Self)
        ensures
            r == *self,
    {
        Token {
            t: self.t,
            literal: self.literal.clone(),
            line: self.line,
            lexeme: self.lexeme.clone(),
        }
    }
}

/// The views of a sequence of tokens.
pub open spec fn views(tokens: Seq<Token>) -> Seq<TokenView> {
    Seq::new(tokens.len(), |i: int| tokens[i]@)
}

impl Token {
    /// The literal itself, where a contract has to say which value a parser
    /// copies out of a token.
    pub closed spec fn spec_literal(&self) -> TokenLiteral {
        self.literal
    }

    /// A token whose literal is the text `literal`.
    pub fn new(t: TokenType, literal: String, lexeme: &str, line: usize) -> (token: Self)
        ensures
            token@ == (TokenView {
                kind: t,
                literal: LiteralView::Str(literal@),
                line: line as nat,
                lexeme: lexeme@,
            }),
            token.spec_literal() == TokenLiteral::Str(literal),
    {
        Token { t, literal: TokenLiteral::Str(literal), line, lexeme: lexeme.to_owned() }
    }

    /// A token that carries the given literal.
    pub fn with_value(t: TokenType, literal: TokenLiteral, lexeme: &str, line: usize) -> (token:
        Self)
        ensures
            token@ == (TokenView { kind: t, literal: literal@, line: line as nat, lexeme: lexeme@ }),
            token.spec_literal() == literal,
    {
        Token { t, literal, line, lexeme: lexeme.to_owned() }
    }

    pub fn token_type(&self) -> (kind: &TokenType)
        ensures
            *kind == self@.kind,
    {
        &self.t
    }

    pub fn line(&self) -> (line: usize)
        ensures
            line == self@.line,
    {
        self.line
    }

    pub fn literal(&self) -> (literal: &TokenLiteral)
        ensures
            *literal == self.spec_literal(),
            literal@ == self@.literal,
    {
        &self.literal
    }

    pub fn lexeme(&self) -> (lexeme: &str)
        ensures
            lexeme@ == self@.lexeme,
    {
        self.lexeme.as_str()
    }

    /// The literal seen through the view is the view of the literal.
    pub proof fn lemma_literal_view(&self)
        ensures
            self.spec_literal()@ == self@.literal,
    {
    }
}

} // verus!
