//! The scanner: from source text to tokens.
//!
//! `lex` says, as a function of the text alone, which tokens a source
//! holds and which complaints it earns. `Scanner` computes it with one
//! cursor that only moves forward.

use vstd::prelude::*;
use vstd::string::StrSliceExecFns;
use crate::text::{
    chars_of, lemma_newlines_bound, lemma_run_end, lemma_run_end_unique, lemma_same_line, line_at,
    run_end,
};
use crate::token::{
    all_digits, digit, is_digit, is_numeral, keyword_kind, LiteralView, Numeral, Token, TokenLiteral,
    TokenType, TokenView,
};
use crate::{error, line_text, Diagnostics};

verus! {

/// Whether `c` has the Unicode property Alphabetic.
pub uninterp spec fn alphabetic(c: char) -> bool;

/// Whether `c` is alphabetic or numeric in the sense of Unicode.
pub uninterp spec fn alphanumeric(c: char) -> bool;

/// `char::is_alphabetic` of the standard library. Which characters are
/// alphabetic is a table of the Unicode standard; the contract only names
/// the answer.
pub assume_specification[ char::is_alphabetic ](c: char) -> (r: bool)
    ensures
        r == alphabetic(c),
;

/// `char::is_alphanumeric` of the standard library. The contract only names
/// the answer.
pub assume_specification[ char::is_alphanumeric ](c: char) -> (r: bool)
    ensures
        r == alphanumeric(c),
;

/// The decimal digits, as a class of characters.
pub open spec fn digits() -> spec_fn(char) -> bool {
    |c: char| is_digit(c)
}

/// The characters that continue a word.
pub open spec fn word_characters() -> spec_fn(char) -> bool {
    |c: char| alphanumeric(c)
}

/// Every character but the line feed.
pub open spec fn not_line_feed() -> spec_fn(char) -> bool {
    |c: char| c != '\n'
}

/// Every character but the double quote.
pub open spec fn not_quote() -> spec_fn(char) -> bool {
    |c: char| c != '"'
}

/// What one lexical unit amounts to.
pub enum Unit {
    /// A token of the given kind.
    Token(TokenType),
    /// White space or a comment: nothing.
    Skip,
    /// A complaint with the given message, and no token.
    Error(Seq<char>),
}

/// A lexical unit and the position just behind it.
pub struct Scanned {
    pub end: int,
    pub unit: Unit,
}

pub open spec fn unexpected_character() -> Seq<char> {
    "Unexpected character"@
}

pub open spec fn unterminated_string() -> Seq<char> {
    "Unterminated string"@
}

/// Whether the character behind position `pos` is `c`.
pub open spec fn followed_by(s: Seq<char>, pos: int, c: char) -> bool {
    pos + 1 < s.len() && s[pos + 1] == c
}

/// A token of one character.
pub open spec fn single(pos: int, kind: TokenType) -> Scanned {
    Scanned { end: pos + 1, unit: Unit::Token(kind) }
}

/// An operator that a following `=` makes into another.
pub open spec fn one_or_two(s: Seq<char>, pos: int, two: TokenType, one: TokenType) -> Scanned {
    if followed_by(s, pos, '=') {
        Scanned { end: pos + 2, unit: Unit::Token(two) }
    } else {
        single(pos, one)
    }
}

/// Where the number that begins at `pos` ends: behind its digits, and
/// behind a `.` and the digits after it if at least one digit follows the
/// `.`.
pub open spec fn number_end(s: Seq<char>, pos: int) -> int {
    let whole = run_end(s, pos + 1, digits());
    if whole + 1 < s.len() && s[whole] == '.' && is_digit(s[whole + 1]) {
        run_end(s, whole + 2, digits())
    } else {
        whole
    }
}

/// The lexical unit that begins at `pos`, by its first character.
pub open spec fn unit_at(s: Seq<char>, pos: int) -> Scanned
    recommends
        0 <= pos < s.len(),
{
    let c = s[pos];
    if c == '?' {
        single(pos, TokenType::QuestionMark)
    } else if c == ':' {
        single(pos, TokenType::Colon)
    } else if c == '(' {
        single(pos, TokenType::LeftParen)
    } else if c == ')' {
        single(pos, TokenType::RightParen)
    } else if c == '{' {
        single(pos, TokenType::LeftBrace)
    } else if c == '}' {
        single(pos, TokenType::RightBrace)
    } else if c == ',' {
        single(pos, TokenType::Comma)
    } else if c == '.' {
        single(pos, TokenType::Dot)
    } else if c == '-' {
        single(pos, TokenType::Minus)
    } else if c == '+' {
        single(pos, TokenType::Plus)
    } else if c == ';' {
        single(pos, TokenType::Semicolon)
    } else if c == '*' {
        single(pos, TokenType::Star)
    } else if c == '!' {
        one_or_two(s, pos, TokenType::BangEqual, TokenType::Bang)
    } else if c == '=' {
        one_or_two(s, pos, TokenType::EqualEqual, TokenType::Equal)
    } else if c == '<' {
        one_or_two(s, pos, TokenType::LessEqual, TokenType::Less)
    } else if c == '>' {
        one_or_two(s, pos, TokenType::GreaterEqual, TokenType::Greater)
    } else if c == '/' {
        if followed_by(s, pos, '/') {
            Scanned { end: run_end(s, pos + 2, not_line_feed()), unit: Unit::Skip }
        } else {
            single(pos, TokenType::Slash)
        }
    } else if c == '\n' || c == ' ' || c == '\r' || c == '\t' {
        Scanned { end: pos + 1, unit: Unit::Skip }
    } else if c == '"' {
        let close = run_end(s, pos + 1, not_quote());
        if close < s.len() {
            Scanned { end: close + 1, unit: Unit::Token(TokenType::String) }
        } else {
            Scanned { end: close, unit: Unit::Error(unterminated_string()) }
        }
    } else if is_digit(c) {
        Scanned { end: number_end(s, pos), unit: Unit::Token(TokenType::Number) }
    } else if alphabetic(c) {
        let end = run_end(s, pos + 1, word_characters());
        Scanned { end, unit: Unit::Token(keyword_kind(s.subrange(pos, end))) }
    } else {
        Scanned { end: pos + 1, unit: Unit::Error(unexpected_character()) }
    }
}

/// The token of kind `kind` that spans `pos..end`. Its lexeme is that
/// stretch of the source and its line the one it begins on. A string
/// carries the text between its quotes, a number its numeral, and every
/// other token its own lexeme.
pub open spec fn token_at(s: Seq<char>, pos: int, end: int, kind: TokenType) -> TokenView {
    let lexeme = s.subrange(pos, end);
    TokenView {
        kind,
        literal: if kind == TokenType::String {
            LiteralView::Str(s.subrange(pos + 1, end - 1))
        } else if kind == TokenType::Number {
            LiteralView::Num(lexeme)
        } else {
            LiteralView::Str(lexeme)
        },
        line: line_at(s, pos),
        lexeme,
    }
}

/// The token that ends every scan: empty, on the line the source ends on.
pub open spec fn eof_token(s: Seq<char>) -> TokenView {
    TokenView {
        kind: TokenType::Eof,
        literal: LiteralView::Str(Seq::empty()),
        line: line_at(s, s.len() as int),
        lexeme: Seq::empty(),
    }
}

/// The tokens that the unit at `pos` adds: one or none.
pub open spec fn unit_tokens(s: Seq<char>, pos: int) -> Seq<TokenView> {
    match unit_at(s, pos).unit {
        Unit::Token(kind) => seq![token_at(s, pos, unit_at(s, pos).end, kind)],
        _ => Seq::empty(),
    }
}

/// The reports that the unit at `pos` adds: one or none. A complaint names
/// the line that the scanner has reached when it makes it, which is the
/// line of the unit's end.
pub open spec fn unit_reports(s: Seq<char>, pos: int) -> Seq<Seq<char>> {
    match unit_at(s, pos).unit {
        Unit::Error(message) => seq![
            line_text(line_at(s, unit_at(s, pos).end), Seq::empty(), message),
        ],
        _ => Seq::empty(),
    }
}

/// What a scan yields.
pub struct Lexed {
    /// The tokens in source order; the last one is `Eof`.
    pub tokens: Seq<TokenView>,
    /// The complaints in source order, as finished lines.
    pub reports: Seq<Seq<char>>,
}

/// How many characters lie at or behind `pos`.
pub open spec fn remaining(s: Seq<char>, pos: int) -> nat {
    if pos < s.len() {
        (s.len() - pos) as nat
    } else {
        0
    }
}

/// The tokens and reports of the source from `pos` on.
pub open spec fn lex_from(s: Seq<char>, pos: int) -> Lexed
    decreases remaining(s, pos),
{
    if 0 <= pos < s.len() {
        let rest = lex_from(s, unit_at(s, pos).end);
        Lexed {
            tokens: unit_tokens(s, pos) + rest.tokens,
            reports: unit_reports(s, pos) + rest.reports,
        }
    } else {
        Lexed { tokens: seq![eof_token(s)], reports: Seq::empty() }
    }
}

/// The tokens and reports of a whole source.
pub open spec fn lex(s: Seq<char>) -> Lexed {
    lex_from(s, 0)
}

/// A unit ends behind its beginning and within the source.
pub proof fn lemma_unit_bounds(s: Seq<char>, pos: int)
    requires
        0 <= pos < s.len(),
    ensures
        pos < unit_at(s, pos).end <= s.len(),
{
    lemma_run_end(s, pos + 1, not_quote());
    lemma_run_end(s, pos + 1, digits());
    lemma_run_end(s, pos + 1, word_characters());
    if pos + 2 <= s.len() {
        lemma_run_end(s, pos + 2, not_line_feed());
    }
    let whole = run_end(s, pos + 1, digits());
    if whole + 2 <= s.len() {
        lemma_run_end(s, whole + 2, digits());
    }
}

/// White space: blank, carriage return, tab or line feed.
pub open spec fn is_space(c: char) -> bool {
    c == ' ' || c == '\r' || c == '\t' || c == '\n'
}

/// Whether a comment begins at `pos`: two slashes.
pub open spec fn starts_comment(s: Seq<char>, pos: int) -> bool {
    0 <= pos && pos + 1 < s.len() && s[pos] == '/' && s[pos + 1] == '/'
}

/// Whether no line ends from position `j` to position `i`.
pub open spec fn same_line(s: Seq<char>, j: int, i: int) -> bool {
    forall|k: int| j <= k <= i ==> #[trigger] s[k] != '\n'
}

/// Whether position `i` lies in a comment that begins at or behind `from`:
/// two slashes stand at or before `i`, on the same line.
pub open spec fn in_comment(s: Seq<char>, from: int, i: int) -> bool {
    exists|j: int| from <= j <= i && starts_comment(s, j) && #[trigger] same_line(s, j, i)
}

/// Whether the source from `from` on holds white space and comments only.
pub open spec fn blank_from(s: Seq<char>, from: int) -> bool {
    forall|i: int|
        from <= i < s.len() ==> is_space(s[i]) || #[trigger] in_comment(s, from, i)
}

/// Whether a source holds white space and comments only.
pub open spec fn blank(s: Seq<char>) -> bool {
    blank_from(s, 0)
}

/// Behind a white space character, a position that lay in a comment still
/// does.
proof fn lemma_behind_space(s: Seq<char>, pos: int, i: int)
    requires
        0 <= pos < i < s.len(),
        is_space(s[pos]),
        in_comment(s, pos, i),
    ensures
        in_comment(s, pos + 1, i),
{
    let j = choose|j: int| pos <= j <= i && starts_comment(s, j) && #[trigger] same_line(s, j, i);
    assert(j != pos);
    assert(pos + 1 <= j <= i && starts_comment(s, j) && same_line(s, j, i));
}

/// Behind a comment, a position that lay in a comment lies in a later one.
proof fn lemma_behind_comment(s: Seq<char>, pos: int, i: int)
    requires
        starts_comment(s, pos),
        run_end(s, pos + 2, not_line_feed()) <= i < s.len(),
        in_comment(s, pos, i),
    ensures
        in_comment(s, run_end(s, pos + 2, not_line_feed()), i),
{
    let end = run_end(s, pos + 2, not_line_feed());
    lemma_run_end(s, pos + 2, not_line_feed());
    let j = choose|j: int| pos <= j <= i && starts_comment(s, j) && #[trigger] same_line(s, j, i);
    if j < end {
        assert(s[end] == '\n');
        assert(false);
    }
    assert(end <= j <= i && starts_comment(s, j) && same_line(s, j, i));
}

/// The unit at a position from which on there is only white space and
/// comments is skipped, and the same holds behind it.
proof fn lemma_blank_step(s: Seq<char>, pos: int)
    requires
        0 <= pos < s.len(),
        blank_from(s, pos),
    ensures
        unit_at(s, pos).unit is Skip,
        pos < unit_at(s, pos).end <= s.len(),
        blank_from(s, unit_at(s, pos).end),
{
    lemma_unit_bounds(s, pos);
    let end = unit_at(s, pos).end;
    assert(is_space(s[pos]) || in_comment(s, pos, pos));
    if is_space(s[pos]) {
        assert(end == pos + 1);
        assert forall|i: int| end <= i < s.len() implies is_space(s[i]) || #[trigger] in_comment(
            s,
            end,
            i,
        ) by {
            assert(is_space(s[i]) || in_comment(s, pos, i));
            if !is_space(s[i]) {
                lemma_behind_space(s, pos, i);
            }
        }
    } else {
        let j = choose|j: int|
            pos <= j <= pos && starts_comment(s, j) && #[trigger] same_line(s, j, pos);
        assert(starts_comment(s, pos));
        assert(end == run_end(s, pos + 2, not_line_feed()));
        assert forall|i: int| end <= i < s.len() implies is_space(s[i]) || #[trigger] in_comment(
            s,
            end,
            i,
        ) by {
            assert(is_space(s[i]) || in_comment(s, pos, i));
            if !is_space(s[i]) {
                lemma_behind_comment(s, pos, i);
            }
        }
    }
}

/// From a position behind which there is only white space and comments,
/// the scanner finds the end of the input and nothing else.
pub proof fn lemma_blank_from(s: Seq<char>, pos: int)
    requires
        0 <= pos <= s.len(),
        blank_from(s, pos),
    ensures
        lex_from(s, pos).tokens == seq![eof_token(s)],
        lex_from(s, pos).reports == Seq::<Seq<char>>::empty(),
    decreases s.len() - pos,
{
    if pos < s.len() {
        lemma_blank_step(s, pos);
        let end = unit_at(s, pos).end;
        lemma_blank_from(s, end);
        assert(unit_tokens(s, pos) + lex_from(s, end).tokens =~= lex_from(s, end).tokens);
        assert(unit_reports(s, pos) + lex_from(s, end).reports =~= lex_from(s, end).reports);
    }
}

/// A source of white space and comments only gives one token, the end of
/// the input, and no complaint.
pub proof fn lemma_blank_source(s: Seq<char>)
    requires
        blank(s),
    ensures
        lex(s).tokens == seq![eof_token(s)],
        lex(s).tokens.len() == 1,
        lex(s).reports == Seq::<Seq<char>>::empty(),
{
    lemma_blank_from(s, 0);
}

/// Whatever the source, its tokens end with the end of the input, and no
/// other token is one.
pub proof fn lemma_ends_with_eof(s: Seq<char>, pos: int)
    requires
        0 <= pos <= s.len(),
    ensures
        lex_from(s, pos).tokens.len() > 0,
        lex_from(s, pos).tokens.last() == eof_token(s),
        forall|i: int|
            0 <= i < lex_from(s, pos).tokens.len() - 1 ==> (#[trigger] lex_from(
                s,
                pos,
            ).tokens[i]).kind != TokenType::Eof,
    decreases s.len() - pos,
{
    if pos < s.len() {
        lemma_unit_bounds(s, pos);
        lemma_ends_with_eof(s, unit_at(s, pos).end);
        crate::scanner::lemma_keyword_kind(
            s.subrange(pos, run_end(s, pos + 1, word_characters())),
        );
    }
}

/// Whether a token carries what its kind asks for: a number its lexeme,
/// which is a numeral, a string a text, and every other token its lexeme.
pub open spec fn carries_its_kind(token: TokenView) -> bool {
    if token.kind == TokenType::Number {
        token.literal == LiteralView::Num(token.lexeme) && is_numeral(token.lexeme)
    } else if token.kind == TokenType::String {
        token.literal is Str
    } else {
        token.literal == LiteralView::Str(token.lexeme)
    }
}

/// The text of a number is a numeral: digits, or digits, a point and
/// digits. So a number token never holds a sign.
pub proof fn lemma_number_is_numeral(s: Seq<char>, pos: int)
    requires
        0 <= pos < s.len(),
        is_digit(s[pos]),
    ensures
        pos < number_end(s, pos) <= s.len(),
        is_numeral(s.subrange(pos, number_end(s, pos))),
{
    let whole = run_end(s, pos + 1, digits());
    lemma_run_end(s, pos + 1, digits());
    let end = number_end(s, pos);
    let text = s.subrange(pos, end);
    if whole + 1 < s.len() && s[whole] == '.' && is_digit(s[whole + 1]) {
        lemma_run_end(s, whole + 2, digits());
        let k = whole - pos;
        assert(text[k] == '.');
        assert forall|j: int| 0 <= j < k implies is_digit(#[trigger] text.subrange(0, k)[j]) by {
            assert(text.subrange(0, k)[j] == s[pos + j]);
            if j > 0 {
                assert(digits()(s[pos + j]));
            }
        }
        let fraction = text.subrange(k + 1, text.len() as int);
        assert forall|j: int| 0 <= j < fraction.len() implies is_digit(#[trigger] fraction[j]) by {
            assert(fraction[j] == s[whole + 1 + j]);
            if j > 0 {
                assert(digits()(s[whole + 1 + j]));
            }
        }
        assert(all_digits(text.subrange(0, k)));
        assert(all_digits(fraction));
    } else {
        assert forall|j: int| 0 <= j < text.len() implies is_digit(#[trigger] text[j]) by {
            assert(text[j] == s[pos + j]);
            if j > 0 {
                assert(digits()(s[pos + j]));
            }
        }
        assert(all_digits(text));
    }
}

/// Every token of a source carries what its kind asks for.
pub proof fn lemma_tokens_carry_their_kinds(s: Seq<char>, pos: int)
    requires
        0 <= pos <= s.len(),
    ensures
        forall|i: int|
            0 <= i < lex_from(s, pos).tokens.len() ==> carries_its_kind(
                #[trigger] lex_from(s, pos).tokens[i],
            ),
    decreases s.len() - pos,
{
    if pos < s.len() {
        lemma_unit_bounds(s, pos);
        let end = unit_at(s, pos).end;
        lemma_tokens_carry_their_kinds(s, end);
        let rest = lex_from(s, end).tokens;
        let first = unit_tokens(s, pos);
        if unit_at(s, pos).unit is Token {
            let kind = unit_at(s, pos).unit->Token_0;
            if is_digit(s[pos]) {
                lemma_number_is_numeral(s, pos);
            }
            lemma_keyword_kind(s.subrange(pos, run_end(s, pos + 1, word_characters())));
            assert(carries_its_kind(token_at(s, pos, end, kind)));
        }
        assert forall|i: int| 0 <= i < (first + rest).len() implies carries_its_kind(
            #[trigger] (first + rest)[i],
        ) by {
            if i >= first.len() {
                assert((first + rest)[i] == rest[i - first.len()]);
            }
        }
    }
}

/// The scanner's state: the source, a cursor into it, and the tokens found
/// so far.
pub struct Scanner {
    source: String,
    chars: Vec<char>,
    tokens: Vec<Token>,
    start: usize,
    current: usize,
    line: usize,
    start_line: usize,
}

impl Scanner {
    /// The source text.
    pub closed spec fn source(&self) -> Seq<char> {
        self.source@
    }

    /// The tokens found so far.
    pub closed spec fn tokens(&self) -> Seq<TokenView> {
        self.tokens.deep_view()
    }

    /// How far into the source the scanner has come.
    pub closed spec fn position(&self) -> int {
        self.current as int
    }

    /// The cursor lies within the source.
    spec fn in_bounds(&self) -> bool {
        &&& self.chars@ == self.source@
        &&& self.start <= self.current <= self.chars.len()
        &&& self.chars.len() < usize::MAX
    }

    /// The cursor lies within the source, and the line counters say on
    /// which lines the cursor and the unit being scanned lie.
    pub closed spec fn wf(&self) -> bool {
        &&& self.in_bounds()
        &&& self.line == line_at(self.source@, self.current as int)
        &&& self.start_line == line_at(self.source@, self.start as int)
    }

    /// The text of the unit being scanned, as far as the cursor has come.
    spec fn lexeme(&self) -> Seq<char> {
        self.source@.subrange(self.start as int, self.current as int)
    }

    /// The state that differs from `self` in the cursor alone.
    spec fn moved_to(&self, current: int) -> Scanner {
        Scanner { current: current as usize, ..*self }
    }

    /// The state that differs from `self` in the cursor and its line.
    spec fn moved(&self, current: int, line: int) -> Scanner {
        Scanner { current: current as usize, line: line as usize, ..*self }
    }

    /// A scanner at the beginning of `source`.
    pub fn new(source: String) -> (scanner: Self)
        requires
            source@.len() < usize::MAX,
        ensures
            scanner.wf(),
            scanner.source() == source@,
            scanner.tokens() == Seq::<TokenView>::empty(),
            scanner.position() == 0,
    {
        let chars = chars_of(source.as_str());
        let scanner = Scanner {
            source,
            chars,
            tokens: Vec::new(),
            start: 0,
            current: 0,
            line: 1,
            start_line: 1,
        };
        assert(scanner.tokens() =~= Seq::<TokenView>::empty());
        scanner
    }

    /// Scans what is left of the source and ends the tokens with `Eof`.
    /// On a new scanner the tokens are then those of the whole source.
    pub fn scan_tokens(&mut self, sink: &mut Diagnostics) -> (tokens: &[Token])
        requires
            old(self).wf(),
        ensures
            final(self).wf(),
            final(self).source() == old(self).source(),
            final(self).position() == old(self).source().len(),
            final(self).tokens() == old(self).tokens() + lex_from(
                old(self).source(),
                old(self).position(),
            ).tokens,
            final(sink)@ == old(sink)@ + lex_from(old(self).source(), old(self).position()).reports,
            tokens.deep_view() == final(self).tokens(),
    {
        let ghost s = self.source@;
        while self.has_more()
            invariant
                self.wf(),
                self.source@ == s,
                s == old(self).source@,
                self.tokens() + lex_from(s, self.current as int).tokens == old(self).tokens()
                    + lex_from(s, old(self).current as int).tokens,
                sink@ + lex_from(s, self.current as int).reports == old(sink)@ + lex_from(
                    s,
                    old(self).current as int,
                ).reports,
            decreases s.len() - self.current,
        {
            self.start = self.current;
            self.start_line = self.line;
            let ghost before = self.tokens();
            let ghost reported = sink@;
            let ghost pos = self.current as int;
            self.scan_token(sink);
            proof {
                lemma_unit_bounds(s, pos);
                let rest = lex_from(s, unit_at(s, pos).end);
                assert((before + unit_tokens(s, pos)) + rest.tokens =~= before + (unit_tokens(
                    s,
                    pos,
                ) + rest.tokens));
                assert((reported + unit_reports(s, pos)) + rest.reports =~= reported + (
                unit_reports(s, pos) + rest.reports));
            }
        }
        proof {
            reveal_strlit("");
        }
        let ghost before = self.tokens.deep_view();
        let eof = Token::new(TokenType::Eof, String::new(), "", self.line);
        self.tokens.push(eof);
        proof {
            assert(""@ =~= Seq::<char>::empty());
            assert(eof@ == eof_token(s));
            assert(self.tokens.deep_view() =~= before + seq![eof_token(s)]);
            assert(sink@ + Seq::<Seq<char>>::empty() =~= sink@);
            assert((old(self).tokens() + lex_from(s, old(self).current as int).tokens)
                =~= self.tokens());
        }
        self.tokens.as_slice()
    }

    fn has_more(&self) -> (more: bool)
        requires
            self.in_bounds(),
        ensures
            more == (self.current < self.source@.len()),
    {
        self.current < self.chars.len()
    }

    /// Scans the one unit that begins at the cursor.
    fn scan_token(&mut self, sink: &mut Diagnostics)
        requires
            old(self).wf(),
            old(self).start == old(self).current,
            old(self).current < old(self).source@.len(),
        ensures
            final(self).wf(),
            final(self).source@ == old(self).source@,
            final(self).current == unit_at(old(self).source@, old(self).current as int).end,
            final(self).tokens() == old(self).tokens() + unit_tokens(
                old(self).source@,
                old(self).current as int,
            ),
            final(sink)@ == old(sink)@ + unit_reports(old(self).source@, old(self).current as int),
    {
        let ghost s = self.source@;
        let ghost pos = self.current as int;
        let ghost before = self.tokens();
        let ghost reported = sink@;
        proof {
            lemma_newlines_bound(s, pos);
        }
        let advanced = self.advance();
        if let Some(c) = advanced {
            match c {
                '?' => self.push_token(TokenType::QuestionMark),
                ':' => self.push_token(TokenType::Colon),
                '(' => {
                    self.push_token(TokenType::LeftParen);
                },
                ')' => {
                    self.push_token(TokenType::RightParen);
                },
                '{' => {
                    self.push_token(TokenType::LeftBrace);
                },
                '}' => {
                    self.push_token(TokenType::RightBrace);
                },
                ',' => {
                    self.push_token(TokenType::Comma);
                },
                '.' => {
                    self.push_token(TokenType::Dot);
                },
                '-' => {
                    self.push_token(TokenType::Minus);
                },
                '+' => {
                    self.push_token(TokenType::Plus);
                },
                ';' => {
                    self.push_token(TokenType::Semicolon);
                },
                '*' => {
                    self.push_token(TokenType::Star);
                },
                '!' => {
                    let t = self.on_next('=', TokenType::BangEqual, TokenType::Bang);
                    self.push_token(t);
                },
                '=' => {
                    let t = self.on_next('=', TokenType::EqualEqual, TokenType::Equal);
                    self.push_token(t);
                },
                '<' => {
                    let t = self.on_next('=', TokenType::LessEqual, TokenType::Less);
                    self.push_token(t);
                },
                '>' => {
                    let t = self.on_next('=', TokenType::GreaterEqual, TokenType::Greater);
                    self.push_token(t);
                },
                '/' => {
                    if self.is_next('/') {
                        self.current += 1;
                        let mut next = self.peek();
                        while next.is_some() && next != Some('\n')
                            invariant
                                self.in_bounds(),
                                self.source@ == s,
                                *self == old(self).moved_to(self.current as int),
                                pos + 2 <= self.current,
                                next == (if self.current < s.len() {
                                    Some(s[self.current as int])
                                } else {
                                    None
                                }),
                                forall|j: int|
                                    pos + 2 <= j < self.current ==> #[trigger] s[j] != '\n',
                            decreases s.len() - self.current,
                        {
                            self.advance();
                            next = self.peek();
                        }
                        proof {
                            lemma_run_end_unique(
                                s,
                                pos + 2,
                                not_line_feed(),
                                self.current as int,
                            );
                            lemma_same_line(s, pos, self.current as int);
                            assert(before + unit_tokens(s, pos) =~= before);
                        }
                    } else {
                        self.push_token(TokenType::Slash);
                    }
                },
                '\n' => {
                    self.line += 1;
                    proof {
                        assert(before + unit_tokens(s, pos) =~= before);
                    }
                },
                ' ' | '\r' | '\t' => {
                    proof {
                        assert(before + unit_tokens(s, pos) =~= before);
                    }
                },
                '"' => self.string(sink),
                _ => {
                    if digit(c) {
                        self.number();
                    } else if c.is_alphabetic() {
                        self.identifier();
                    } else {
                        error(sink, self.line, "Unexpected character");
                        proof {
                            assert(before + unit_tokens(s, pos) =~= before);
                        }
                    }
                },
            }
        }
        proof {
            assert(reported + Seq::<Seq<char>>::empty() =~= reported);
            if forall|j: int| pos <= j < self.current ==> #[trigger] s[j] != '\n' {
                lemma_same_line(s, pos, self.current as int);
            }
        }
    }

    /// Takes the character at the cursor.
    fn advance(&mut self) -> (c: Option<char>)
        requires
            old(self).in_bounds(),
            old(self).current < old(self).source@.len(),
        ensures
            *final(self) == old(self).moved_to(old(self).current + 1),
            final(self).in_bounds(),
            c == Some(old(self).source@[old(self).current as int]),
    {
        let c = self.chars[self.current];
        self.current += 1;
        Some(c)
    }

    /// Adds a token that carries its own text.
    fn push_token(&mut self, t: TokenType)
        requires
            old(self).in_bounds(),
        ensures
            *final(self) == (Scanner { tokens: final(self).tokens, ..*old(self) }),
            final(self).tokens() == old(self).tokens() + seq![
                TokenView {
                    kind: t,
                    literal: LiteralView::Str(old(self).lexeme()),
                    line: old(self).start_line as nat,
                    lexeme: old(self).lexeme(),
                },
            ],
    {
        let text = self.substring(self.start, self.current);
        let ghost before = self.tokens.deep_view();
        let token = Token::new(t, text.clone(), text.as_str(), self.start_line);
        self.tokens.push(token);
        assert(self.tokens.deep_view() =~= before + seq![token@]);
    }

    /// Adds a token that carries the text `value`.
    fn push_token_with_str(&mut self, t: TokenType, value: String)
        requires
            old(self).in_bounds(),
        ensures
            *final(self) == (Scanner { tokens: final(self).tokens, ..*old(self) }),
            final(self).tokens() == old(self).tokens() + seq![
                TokenView {
                    kind: t,
                    literal: LiteralView::Str(value@),
                    line: old(self).start_line as nat,
                    lexeme: old(self).lexeme(),
                },
            ],
    {
        let text = self.substring(self.start, self.current);
        let ghost before = self.tokens.deep_view();
        let token = Token::with_value(
            t,
            TokenLiteral::Str(value),
            text.as_str(),
            self.start_line,
        );
        self.tokens.push(token);
        assert(self.tokens.deep_view() =~= before + seq![token@]);
    }

    /// Adds a token that carries the number `value`.
    fn push_token_with_num(&mut self, t: TokenType, value: Numeral)
        requires
            old(self).in_bounds(),
        ensures
            *final(self) == (Scanner { tokens: final(self).tokens, ..*old(self) }),
            final(self).tokens() == old(self).tokens() + seq![
                TokenView {
                    kind: t,
                    literal: LiteralView::Num(value@),
                    line: old(self).start_line as nat,
                    lexeme: old(self).lexeme(),
                },
            ],
    {
        let text = self.substring(self.start, self.current);
        let ghost before = self.tokens.deep_view();
        let token = Token::with_value(
            t,
            TokenLiteral::Num(value),
            text.as_str(),
            self.start_line,
        );
        self.tokens.push(token);
        assert(self.tokens.deep_view() =~= before + seq![token@]);
    }

    /// The source from `start` up to `end`.
    fn substring(&self, start: usize, end: usize) -> (text: String)
        requires
            start <= end <= self.source@.len(),
        ensures
            text@ == self.source@.subrange(start as int, end as int),
    {
        self.source.as_str().substring_char(start, end).to_owned()
    }

    /// The character at the cursor, if there is one.
    fn peek(&self) -> (c: Option<char>)
        requires
            self.in_bounds(),
        ensures
            c == (if self.current < self.source@.len() {
                Some(self.source@[self.current as int])
            } else {
                None
            }),
    {
        if !self.has_more() {
            return None;
        }
        self.char_at(self.current)
    }

    /// Whether the character at the cursor is `expected`.
    fn peek_char(&self, expected: char) -> (r: bool)
        requires
            self.in_bounds(),
        ensures
            r == (self.current < self.source@.len() && self.source@[self.current as int]
                == expected),
    {
        self.is_next(expected)
    }

    /// The character at position `n`, if there is one.
    fn char_at(&self, n: usize) -> (c: Option<char>)
        requires
            self.in_bounds(),
        ensures
            c == (if n < self.source@.len() {
                Some(self.source@[n as int])
            } else {
                None
            }),
    {
        if n >= self.chars.len() {
            return None;
        }
        Some(self.chars[n])
    }

    /// One of two kinds: `on_true`, and the cursor moves on, if the
    /// character at the cursor is `expected`; `on_false` if not.
    fn on_next(&mut self, expected: char, on_true: TokenType, on_false: TokenType) -> (kind:
        TokenType)
        requires
            old(self).in_bounds(),
        ensures
            final(self).in_bounds(),
            old(self).peeks(expected) ==> kind == on_true && *final(self) == old(self).moved_to(
                old(self).current + 1,
            ),
            !old(self).peeks(expected) ==> kind == on_false && *final(self) == *old(self),
    {
        if self.is_next(expected) {
            self.current += 1;
            on_true
        } else {
            on_false
        }
    }

    /// The character at the cursor is `expected`.
    spec fn peeks(&self, expected: char) -> bool {
        self.current < self.source@.len() && self.source@[self.current as int] == expected
    }

    /// Whether the character at the cursor is `expected`.
    fn is_next(&self, expected: char) -> (r: bool)
        requires
            self.in_bounds(),
        ensures
            r == self.peeks(expected),
    {
        if !self.has_more() {
            return false;
        }
        if let Some(ch) = self.char_at(self.current) {
            ch == expected
        } else {
            false
        }
    }

    /// Scans a string whose opening quote has just been taken.
    fn string(&mut self, sink: &mut Diagnostics)
        requires
            old(self).wf_behind_first(),
            old(self).source@[old(self).start as int] == '"',
        ensures
            final(self).wf(),
            final(self).source@ == old(self).source@,
            final(self).current == unit_at(old(self).source@, old(self).start as int).end,
            final(self).tokens() == old(self).tokens() + unit_tokens(
                old(self).source@,
                old(self).start as int,
            ),
            final(sink)@ == old(sink)@ + unit_reports(old(self).source@, old(self).start as int),
    {
        let ghost s = self.source@;
        let ghost pos = self.start as int;
        let ghost before = self.tokens();
        let ghost reported = sink@;
        proof {
            lemma_newlines_bound(s, pos);
        }
        let mut peek = self.peek();
        while peek.is_some() && peek != Some('"')
            invariant
                self.in_bounds(),
                self.source@ == s,
                *self == old(self).moved(self.current as int, self.line as int),
                pos + 1 <= self.current,
                self.line == line_at(s, self.current as int),
                peek == (if self.current < s.len() {
                    Some(s[self.current as int])
                } else {
                    None
                }),
                forall|j: int| pos + 1 <= j < self.current ==> #[trigger] s[j] != '"',
            decreases s.len() - self.current,
        {
            proof {
                lemma_newlines_bound(s, self.current as int);
            }
            if peek == Some('\n') {
                self.line += 1;
            }
            self.advance();
            peek = self.peek();
        }
        proof {
            lemma_run_end_unique(s, pos + 1, not_quote(), self.current as int);
        }
        if !self.has_more() {
            error(sink, self.line, "Unterminated string");
            proof {
                assert(before + unit_tokens(s, pos) =~= before);
                assert(reported.push(
                    line_text(self.line as nat, Seq::empty(), unterminated_string()),
                ) =~= reported + unit_reports(s, pos));
            }
            return ;
        }
        // Closing "

        self.advance();
        let value = self.substring(self.start + 1, self.current - 1);
        self.push_token_with_str(TokenType::String, value);
        proof {
            assert(reported + unit_reports(s, pos) =~= reported);
        }
    }

    /// The state in which the helpers that scan a longer unit start: well
    /// formed but for the cursor, which stands behind the unit's first
    /// character, where no line has ended.
    spec fn wf_behind_first(&self) -> bool {
        &&& self.in_bounds()
        &&& self.current == self.start + 1
        &&& self.source@[self.start as int] != '\n'
        &&& self.start_line == line_at(self.source@, self.start as int)
        &&& self.line == self.start_line
    }

    /// Scans a number whose first digit has just been taken.
    fn number(&mut self)
        requires
            old(self).wf_behind_first(),
            is_digit(old(self).source@[old(self).start as int]),
        ensures
            final(self).wf(),
            final(self).source@ == old(self).source@,
            final(self).current == unit_at(old(self).source@, old(self).start as int).end,
            final(self).tokens() == old(self).tokens() + unit_tokens(
                old(self).source@,
                old(self).start as int,
            ),
    {
        let ghost s = self.source@;
        let ghost pos = self.start as int;
        let ghost before = self.tokens();
        let is_numeric = |c: char| -> (r: bool)
            ensures
                r == is_digit(c),
            { digit(c) };
        while self.peek_at(self.current, is_numeric)
            invariant
                self.in_bounds(),
                self.source@ == s,
                *self == old(self).moved_to(self.current as int),
                pos + 1 <= self.current,
                forall|c: char| call_requires(is_numeric, (c,)),
                forall|c: char, r: bool| call_ensures(is_numeric, (c,), r) ==> r == is_digit(c),
                forall|j: int| pos <= j < self.current ==> is_digit(#[trigger] s[j]),
            decreases s.len() - self.current,
        {
            self.advance();
        }
        let ghost whole = self.current as int;
        proof {
            lemma_run_end_unique(s, pos + 1, digits(), whole);
        }
        if self.peek_char('.') && self.peek_at(self.current + 1, is_numeric) {
            self.advance();
            while self.peek_at(self.current, is_numeric)
                invariant
                    self.in_bounds(),
                    self.source@ == s,
                    *self == old(self).moved_to(self.current as int),
                    whole + 1 <= self.current,
                    forall|c: char| call_requires(is_numeric, (c,)),
                    forall|c: char, r: bool| call_ensures(is_numeric, (c,), r) ==> r == is_digit(c),
                    forall|j: int| whole + 1 <= j < self.current ==> is_digit(#[trigger] s[j]),
                decreases s.len() - self.current,
            {
                self.advance();
            }
            proof {
                lemma_run_end_unique(s, whole + 2, digits(), self.current as int);
            }
        }
        let ghost end = self.current as int;
        let value = self.substring(self.start, self.current);
        proof {
            let text = s.subrange(pos, end);
            if end == whole {
                assert(forall|j: int| 0 <= j < text.len() ==> is_digit(#[trigger] text[j]));
            } else {
                assert(text[whole - pos] == '.');
                assert(forall|j: int|
                    0 <= j < whole - pos ==> is_digit(#[trigger] text.subrange(0, whole - pos)[j]));
                assert(forall|j: int|
                    0 <= j < end - whole - 1 ==> is_digit(
                        #[trigger] text.subrange(whole - pos + 1, text.len() as int)[j],
                    ));
            }
            assert(is_numeral(text));
            assert forall|j: int| pos <= j < end implies #[trigger] s[j] != '\n' by {
                if j != whole {
                    assert(is_digit(s[j]));
                }
            }
            lemma_same_line(s, pos, end);
        }
        let val = Numeral::new(value.as_str()).unwrap();
        self.push_token_with_num(TokenType::Number, val);
    }

    /// Scans a word whose first character has just been taken.
    fn identifier(&mut self)
        requires
            old(self).wf_behind_first(),
        ensures
            final(self).wf(),
            final(self).source@ == old(self).source@,
            final(self).current == run_end(
                old(self).source@,
                old(self).start + 1,
                word_characters(),
            ),
            final(self).tokens() == old(self).tokens() + seq![
                token_at(
                    old(self).source@,
                    old(self).start as int,
                    final(self).current as int,
                    keyword_kind(
                        old(self).source@.subrange(
                            old(self).start as int,
                            final(self).current as int,
                        ),
                    ),
                ),
            ],
    {
        let ghost s = self.source@;
        let ghost pos = self.start as int;
        let is_word = |c: char| -> (r: bool)
            ensures
                r == alphanumeric(c),
            { c.is_alphanumeric() };
        proof {
            lemma_newlines_bound(s, pos + 1);
        }
        while self.peek_at(self.current, is_word)
            invariant
                self.in_bounds(),
                self.source@ == s,
                *self == old(self).moved(self.current as int, self.line as int),
                pos + 1 <= self.current,
                self.line == line_at(s, self.current as int),
                forall|c: char| call_requires(is_word, (c,)),
                forall|c: char, r: bool| call_ensures(is_word, (c,), r) ==> r == alphanumeric(c),
                forall|j: int| pos + 1 <= j < self.current ==> alphanumeric(#[trigger] s[j]),
            decreases s.len() - self.current,
        {
            proof {
                lemma_newlines_bound(s, self.current as int);
            }
            if self.peek_char('\n') {
                self.line += 1;
            }
            self.advance();
        }
        proof {
            lemma_run_end_unique(s, pos + 1, word_characters(), self.current as int);
        }
        let value = self.substring(self.start, self.current);
        let kind = TokenType::from(value.as_str());
        proof {
            lemma_keyword_kind(value@);
        }
        self.push_token_with_str(kind, value)
    }

    /// Whether there is a character at position `i` of which `f` holds.
    /// Nothing is looked at once the cursor has reached the end.
    fn peek_at<F>(&self, i: usize, f: F) -> (r: bool) where F: FnOnce(char) -> bool
        requires
            self.in_bounds(),
            forall|c: char| call_requires(f, (c,)),
        ensures
            i < self.source@.len() && self.current < self.source@.len() ==> call_ensures(
                f,
                (self.source@[i as int],),
                r,
            ),
            !(i < self.source@.len() && self.current < self.source@.len()) ==> !r,
    {
        if !self.has_more() {
            return false;
        }
        match self.char_at(i) {
            Some(c) => f(c),
            None => false,
        }
    }
}

/// A word is never taken for a string or a number.
pub proof fn lemma_keyword_kind(word: Seq<char>)
    ensures
        keyword_kind(word) != TokenType::String,
        keyword_kind(word) != TokenType::Number,
        keyword_kind(word) != TokenType::Eof,
{
}

} // verus!
