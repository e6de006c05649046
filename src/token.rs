use vstd::prelude::*;

verus! {

/// Fixed punctuation and operators.
#[derive(Debug, Clone, Copy, PartialEq, Eq, Structural)]
pub enum Spec {
    Assign,
    Plus,
    Minus,
    Bang,
    Asterisk,
    Slash,
    Lt,
    Gt,
    Comma,
    Semicolon,
    Lparen,
    Rparen,
    Lbrace,
    Rbrace,
    Equal,
    NotEqual,
}

/// Token kinds that carry the matched text.
#[derive(Debug, Clone, Copy, PartialEq, Eq, Structural)]
pub enum Literal {
    Ident,
    Int,
}

/// Reserved words.
#[derive(Debug, Clone, Copy, PartialEq, Eq, Structural)]
pub enum Keyword {
    Function,
    Let,
    True,
    False,
    If,
    Else,
    Return,
}

#[derive(Debug, Clone, Copy, PartialEq, Eq, Structural)]
pub enum TokenType {
    Spec(Spec),
    Literal(Literal),
    Keyword(Keyword),
    Illegal,
}

/// A classified token: its kind, the matched text for literals, and the
/// zero-based line on which it starts.
#[derive(Debug, Clone, PartialEq, Eq)]
pub struct Token {
    pub token_type: TokenType,
    pub literal: Option<String>,
    pub line: usize,
}

impl Token {
    pub fn new(token_type: TokenType, literal: Option<String>, line: usize) -> (r: Token)
        ensures
            r.token_type == token_type,
            r.literal == literal,
            r.line == line,
    {
        Token { token_type, literal, line }
    }
}

/// What the classifier found at an offset: the kind, and the offset just past it.
#[derive(Debug, Clone, Copy, PartialEq, Eq, Structural)]
pub struct TokenPos {
    pub token_type: TokenType,
    pub end: usize,
}

/// The classifier's answer at an offset: the kind, and the offset just past the token.
pub struct Candidate {
    pub kind: TokenType,
    pub end: int,
}

/// Symbols in table order: the fourteen single characters, then `==` and `!=`.
pub open spec fn symbol_at(i: int) -> Option<Spec> {
    if i == 0 { Some(Spec::Assign) }
    else if i == 1 { Some(Spec::Plus) }
    else if i == 2 { Some(Spec::Minus) }
    else if i == 3 { Some(Spec::Bang) }
    else if i == 4 { Some(Spec::Asterisk) }
    else if i == 5 { Some(Spec::Slash) }
    else if i == 6 { Some(Spec::Lt) }
    else if i == 7 { Some(Spec::Gt) }
    else if i == 8 { Some(Spec::Comma) }
    else if i == 9 { Some(Spec::Semicolon) }
    else if i == 10 { Some(Spec::Lparen) }
    else if i == 11 { Some(Spec::Rparen) }
    else if i == 12 { Some(Spec::Lbrace) }
    else if i == 13 { Some(Spec::Rbrace) }
    else if i == 14 { Some(Spec::Equal) }
    else if i == 15 { Some(Spec::NotEqual) }
    else { None }
}

/// The one-character symbol spelled `c`, if any.
pub open spec fn single_symbol(c: char) -> Option<Spec> {
    if c == '=' { Some(Spec::Assign) }
    else if c == '+' { Some(Spec::Plus) }
    else if c == '-' { Some(Spec::Minus) }
    else if c == '!' { Some(Spec::Bang) }
    else if c == '*' { Some(Spec::Asterisk) }
    else if c == '/' { Some(Spec::Slash) }
    else if c == '<' { Some(Spec::Lt) }
    else if c == '>' { Some(Spec::Gt) }
    else if c == ',' { Some(Spec::Comma) }
    else if c == ';' { Some(Spec::Semicolon) }
    else if c == '(' { Some(Spec::Lparen) }
    else if c == ')' { Some(Spec::Rparen) }
    else if c == '{' { Some(Spec::Lbrace) }
    else if c == '}' { Some(Spec::Rbrace) }
    else { None }
}

/// The two-character symbol spelled `c` `d`, if any.
pub open spec fn double_symbol(c: char, d: char) -> Option<Spec> {
    if c == '=' && d == '=' { Some(Spec::Equal) }
    else if c == '!' && d == '=' { Some(Spec::NotEqual) }
    else { None }
}

/// The spelling of each reserved word.
pub open spec fn keyword_text(k: Keyword) -> Seq<char> {
    match k {
        Keyword::Function => seq!['f', 'n'],
        Keyword::Let => seq!['l', 'e', 't'],
        Keyword::True => seq!['t', 'r', 'u', 'e'],
        Keyword::False => seq!['f', 'a', 'l', 's', 'e'],
        Keyword::If => seq!['i', 'f'],
        Keyword::Else => seq!['e', 'l', 's', 'e'],
        Keyword::Return => seq!['r', 'e', 't', 'u', 'r', 'n'],
    }
}

/// Reserved words in table order.
pub open spec fn keyword_at(i: int) -> Option<Keyword> {
    if i == 0 { Some(Keyword::Function) }
    else if i == 1 { Some(Keyword::Let) }
    else if i == 2 { Some(Keyword::True) }
    else if i == 3 { Some(Keyword::False) }
    else if i == 4 { Some(Keyword::If) }
    else if i == 5 { Some(Keyword::Else) }
    else if i == 6 { Some(Keyword::Return) }
    else { None }
}

/// The reserved word spelled exactly `w`, if any.
pub open spec fn keyword_of(w: Seq<char>) -> Option<Keyword> {
    if w == keyword_text(Keyword::Function) { Some(Keyword::Function) }
    else if w == keyword_text(Keyword::Let) { Some(Keyword::Let) }
    else if w == keyword_text(Keyword::True) { Some(Keyword::True) }
    else if w == keyword_text(Keyword::False) { Some(Keyword::False) }
    else if w == keyword_text(Keyword::If) { Some(Keyword::If) }
    else if w == keyword_text(Keyword::Else) { Some(Keyword::Else) }
    else if w == keyword_text(Keyword::Return) { Some(Keyword::Return) }
    else { None }
}

pub open spec fn is_letter(c: char) -> bool {
    ('a' <= c && c <= 'z') || ('A' <= c && c <= 'Z')
}

pub open spec fn is_digit(c: char) -> bool {
    '0' <= c && c <= '9'
}

pub open spec fn is_word_char(c: char) -> bool {
    is_letter(c) || is_digit(c) || c == '_'
}

/// The end of the longest run of word characters starting at `i`.
pub open spec fn word_end(s: Seq<char>, i: int) -> int
    decreases s.len() - i,
{
    if 0 <= i < s.len() && is_word_char(s[i]) {
        word_end(s, i + 1)
    } else {
        i
    }
}

/// The end of the longest run of digits starting at `i`.
pub open spec fn digits_end(s: Seq<char>, i: int) -> int
    decreases s.len() - i,
{
    if 0 <= i < s.len() && is_digit(s[i]) {
        digits_end(s, i + 1)
    } else {
        i
    }
}

/// The symbol that starts at `p`, two characters taking precedence over one.
pub open spec fn symbol_match(s: Seq<char>, p: int) -> Option<Candidate> {
    if 0 <= p < s.len() && single_symbol(s[p]) is Some {
        if p + 1 < s.len() && double_symbol(s[p], s[p + 1]) is Some {
            Some(Candidate { kind: TokenType::Spec(double_symbol(s[p], s[p + 1])->0), end: p + 2 })
        } else {
            Some(Candidate { kind: TokenType::Spec(single_symbol(s[p])->0), end: p + 1 })
        }
    } else {
        None
    }
}

/// The identifier, reserved word or integer that starts at `p`.
pub open spec fn word_match(s: Seq<char>, p: int) -> Option<Candidate> {
    if 0 <= p < s.len() && is_letter(s[p]) {
        let e = word_end(s, p + 1);
        match keyword_of(s.subrange(p, e)) {
            Some(k) => Some(Candidate { kind: TokenType::Keyword(k), end: e }),
            None => Some(Candidate { kind: TokenType::Literal(Literal::Ident), end: e }),
        }
    } else if 0 <= p < s.len() && is_digit(s[p]) {
        Some(Candidate { kind: TokenType::Literal(Literal::Int), end: digits_end(s, p + 1) })
    } else {
        None
    }
}

/// What token, if any, starts at `p`: symbols first, then words and integers.
pub open spec fn classify(s: Seq<char>, p: int) -> Option<Candidate> {
    if symbol_match(s, p) is Some {
        symbol_match(s, p)
    } else {
        word_match(s, p)
    }
}

/// `r` is the executable form of the classifier's answer `m`.
pub open spec fn pos_is(r: Option<TokenPos>, m: Option<Candidate>) -> bool {
    &&& (r is Some <==> m is Some)
    &&& r is Some ==> r->0.token_type == m->0.kind && r->0.end == m->0.end
}

proof fn lemma_keyword_at_all()
    ensures
        keyword_at(0) == Some(Keyword::Function),
        keyword_at(1) == Some(Keyword::Let),
        keyword_at(2) == Some(Keyword::True),
        keyword_at(3) == Some(Keyword::False),
        keyword_at(4) == Some(Keyword::If),
        keyword_at(5) == Some(Keyword::Else),
        keyword_at(6) == Some(Keyword::Return),
{
}

pub proof fn lemma_word_end_bounds(s: Seq<char>, i: int)
    requires
        0 <= i <= s.len(),
    ensures
        i <= word_end(s, i) <= s.len(),
        forall|k: int| i <= k < word_end(s, i) ==> is_word_char(#[trigger] s[k]),
    decreases s.len() - i,
{
    if i < s.len() && is_word_char(s[i]) {
        lemma_word_end_bounds(s, i + 1);
    }
}

pub proof fn lemma_digits_end_bounds(s: Seq<char>, i: int)
    requires
        0 <= i <= s.len(),
    ensures
        i <= digits_end(s, i) <= s.len(),
        forall|k: int| i <= k < digits_end(s, i) ==> is_digit(#[trigger] s[k]),
    decreases s.len() - i,
{
    if i < s.len() && is_digit(s[i]) {
        lemma_digits_end_bounds(s, i + 1);
    }
}

/// A match at `p` covers at least one character, stays within the input,
/// and holds no line break.
pub proof fn lemma_classify_span(s: Seq<char>, p: int)
    requires
        0 <= p < s.len(),
        classify(s, p) is Some,
    ensures
        p < classify(s, p)->0.end <= s.len(),
        forall|k: int| p <= k < classify(s, p)->0.end ==> #[trigger] s[k] != '\n',
{
    lemma_word_end_bounds(s, p + 1);
    lemma_digits_end_bounds(s, p + 1);
}

impl TokenPos {
    pub fn new(token_type: TokenType, end: usize) -> (r: TokenPos)
        ensures
            r.token_type == token_type,
            r.end == end,
    {
        TokenPos { token_type, end }
    }

    /// The token of this kind with the given text, on `line`.
    pub fn token(&self, literal: Option<&[char]>, line: usize) -> (r: Token)
        ensures
            r.token_type == self.token_type,
            r.line == line,
            r.literal is Some <==> literal is Some,
            literal is Some ==> r.literal->0@ == literal->0@,
    {
        let token_type = self.token_type;
        let literal = match literal {
            Some(text) => Some(string_of_chars(text)),
            None => None,
        };
        Token { token_type, literal, line }
    }
}

/// Relies on `String::from_iter` over chars: the string holds exactly those chars, in order.
#[verifier::external_body]
fn string_of_chars(cs: &[char]) -> (r: String)
    ensures
        r@ == cs@,
{
    String::from_iter(cs)
}

impl TokenType {
    /// The symbol that starts at `start`, whose character is `ch`.
    pub fn match_spec(input: &[char], start: usize, ch: char) -> (r: Option<TokenPos>)
        requires
            start < input@.len(),
            input@[start as int] == ch,
        ensures
            pos_is(r, symbol_match(input@, start as int)),
    {
        let i: usize = if ch == '=' { 0 }
            else if ch == '+' { 1 }
            else if ch == '-' { 2 }
            else if ch == '!' { 3 }
            else if ch == '*' { 4 }
            else if ch == '/' { 5 }
            else if ch == '<' { 6 }
            else if ch == '>' { 7 }
            else if ch == ',' { 8 }
            else if ch == ';' { 9 }
            else if ch == '(' { 10 }
            else if ch == ')' { 11 }
            else if ch == '{' { 12 }
            else if ch == '}' { 13 }
            else { return None; };
        if input.len() - start > 1 && input[start + 1] == '=' {
            let j: usize = if ch == '=' { 14 } else if ch == '!' { 15 } else { 0 };
            if j != 0 {
                return match Spec::from_int(j) {
                    Some(it) => Some(TokenPos::new(TokenType::Spec(it), start + 2)),
                    None => None,
                };
            }
        }
        match Spec::from_int(i) {
            Some(it) => Some(TokenPos::new(TokenType::Spec(it), start + 1)),
            None => None,
        }
    }

    /// The identifier, reserved word or integer that starts at `start`.
    pub fn literal_token_matcher(input: &[char], start: usize) -> (r: Option<TokenPos>)
        requires
            start <= input@.len(),
        ensures
            pos_is(r, word_match(input@, start as int)),
    {
        if start < input.len() && is_letter_char(input[start]) {
            let mut end: usize = start + 1;
            while end < input.len() && is_word(input[end])
                invariant
                    start < end <= input@.len(),
                    word_end(input@, end as int) == word_end(input@, start as int + 1),
                decreases input@.len() - end,
            {
                end = end + 1;
            }
            let mut j: usize = 0;
            while j < 7
                invariant
                    j <= 7,
                    start < end <= input@.len(),
                    word_end(input@, start as int + 1) == end,
                    forall|k: int| 0 <= k < j ==>
                        keyword_text(#[trigger] keyword_at(k)->0) != input@.subrange(start as int, end as int),
                decreases 7 - j,
            {
                if let Some(kw) = Keyword::from_int(j) {
                    if span_equals(input, start, end, kw.text()) {
                        proof {
                            lemma_keyword_at_all();
                        }
                        return Some(TokenPos::new(TokenType::Keyword(kw), end));
                    }
                }
                j = j + 1;
            }
            proof {
                lemma_keyword_at_all();
            }
            match Literal::from_int(0) {
                Some(it) => Some(TokenPos::new(TokenType::Literal(it), end)),
                None => None,
            }
        } else if start < input.len() && is_digit_char(input[start]) {
            let mut end: usize = start + 1;
            while end < input.len() && is_digit_char(input[end])
                invariant
                    start < end <= input@.len(),
                    digits_end(input@, end as int) == digits_end(input@, start as int + 1),
                decreases input@.len() - end,
            {
                end = end + 1;
            }
            match Literal::from_int(1) {
                Some(it) => Some(TokenPos::new(TokenType::Literal(it), end)),
                None => None,
            }
        } else {
            None
        }
    }
}

fn is_letter_char(c: char) -> (r: bool)
    ensures
        r == is_letter(c),
{
    ('a' <= c && c <= 'z') || ('A' <= c && c <= 'Z')
}

fn is_digit_char(c: char) -> (r: bool)
    ensures
        r == is_digit(c),
{
    '0' <= c && c <= '9'
}

fn is_word(c: char) -> (r: bool)
    ensures
        r == is_word_char(c),
{
    is_letter_char(c) || is_digit_char(c) || c == '_'
}

/// Whether `input[start..end]` spells `word`.
fn span_equals(input: &[char], start: usize, end: usize, word: &str) -> (r: bool)
    requires
        start <= end <= input@.len(),
    ensures
        r == (input@.subrange(start as int, end as int) == word@),
{
    let n = word.unicode_len();
    if end - start != n {
        return false;
    }
    let mut i: usize = 0;
    while i < n
        invariant
            i <= n,
            n == word@.len(),
            end - start == n,
            start <= end <= input@.len(),
            forall|k: int| 0 <= k < i ==> input@[start + k] == word@[k],
        decreases n - i,
    {
        if input[start + i] != word.get_char(i) {
            assert(input@.subrange(start as int, end as int)[i as int] != word@[i as int]);
            return false;
        }
        i = i + 1;
    }
    assert(input@.subrange(start as int, end as int) =~= word@);
    true
}

impl Spec {
    /// The symbol at position `i` of the table.
    fn from_int(i: usize) -> (r: Option<Spec>)
        ensures
            r == symbol_at(i as int),
    {
        match i {
            0 => Some(Spec::Assign),
            1 => Some(Spec::Plus),
            2 => Some(Spec::Minus),
            3 => Some(Spec::Bang),
            4 => Some(Spec::Asterisk),
            5 => Some(Spec::Slash),
            6 => Some(Spec::Lt),
            7 => Some(Spec::Gt),
            8 => Some(Spec::Comma),
            9 => Some(Spec::Semicolon),
            10 => Some(Spec::Lparen),
            11 => Some(Spec::Rparen),
            12 => Some(Spec::Lbrace),
            13 => Some(Spec::Rbrace),
            14 => Some(Spec::Equal),
            15 => Some(Spec::NotEqual),
            _ => None,
        }
    }
}

impl Literal {
    /// The literal kind at position `i`: identifiers, then integers.
    fn from_int(i: usize) -> (r: Option<Literal>)
        ensures
            i == 0 ==> r == Some(Literal::Ident),
            i == 1 ==> r == Some(Literal::Int),
            i > 1 ==> r is None,
    {
        match i {
            0 => Some(Literal::Ident),
            1 => Some(Literal::Int),
            _ => None,
        }
    }
}

impl Keyword {
    /// The reserved word at position `i` of the table.
    fn from_int(i: usize) -> (r: Option<Keyword>)
        ensures
            r == keyword_at(i as int),
    {
        match i {
            0 => Some(Keyword::Function),
            1 => Some(Keyword::Let),
            2 => Some(Keyword::True),
            3 => Some(Keyword::False),
            4 => Some(Keyword::If),
            5 => Some(Keyword::Else),
            6 => Some(Keyword::Return),
            _ => None,
        }
    }

    /// The spelling of this reserved word.
    pub fn text(&self) -> (r: &'static str)
        ensures
            r@ == keyword_text(*self),
    {
        match self {
            Keyword::Function => {
                proof { reveal_strlit("fn"); }
                "fn"
            },
            Keyword::Let => {
                proof { reveal_strlit("let"); }
                "let"
            },
            Keyword::True => {
                proof { reveal_strlit("true"); }
                "true"
            },
            Keyword::False => {
                proof { reveal_strlit("false"); }
                "false"
            },
            Keyword::If => {
                proof { reveal_strlit("if"); }
                "if"
            },
            Keyword::Else => {
                proof { reveal_strlit("else"); }
                "else"
            },
            Keyword::Return => {
                proof { reveal_strlit("return"); }
                "return"
            },
        }
    }
}

} // verus!
