use vstd::prelude::*;

use crate::token::{classify, lemma_classify_span, pos_is, word_match, Token, TokenPos, TokenType};

verus! {

/// What `char::is_whitespace` answers for `c`: whether `c` has the Unicode
/// `White_Space` property.
pub uninterp spec fn is_ws(c: char) -> bool;

/// Whitespace: among ASCII characters space, tab, line feed, vertical tab,
/// form feed and carriage return; beyond ASCII, what Unicode says.
pub open spec fn is_space(c: char) -> bool {
    if (c as u32) < 128 {
        c == ' ' || ('\t' <= c && c <= '\r')
    } else {
        is_ws(c)
    }
}

/// Relies on `char::is_whitespace`: the answer depends on the character alone,
/// and among ASCII characters `White_Space` holds of space, tab, line feed,
/// vertical tab, form feed and carriage return only.
#[verifier::external_body]
fn is_whitespace(c: char) -> (r: bool)
    ensures
        (c as u32) < 128 ==> (r <==> (c == ' ' || ('\t' <= c && c <= '\r'))),
        (c as u32) >= 128 ==> r == is_ws(c),
{
    c.is_whitespace()
}

/// The first offset at or after `i` that does not hold whitespace.
pub open spec fn skip_ws(s: Seq<char>, i: int) -> int
    decreases s.len() - i,
{
    if 0 <= i < s.len() && is_space(s[i]) {
        skip_ws(s, i + 1)
    } else {
        i
    }
}

/// The number of line feeds in `s[a..b]`.
pub open spec fn newlines(s: Seq<char>, a: int, b: int) -> int
    decreases b - a,
{
    if b <= a {
        0
    } else {
        newlines(s, a, b - 1) + if s[b - 1] == '\n' { 1int } else { 0int }
    }
}

/// A token as the scanner sees it: its kind, the offsets it spans, and its line.
pub struct Scanned {
    pub kind: TokenType,
    pub start: int,
    pub end: int,
    pub line: int,
}

/// The scanner's position: the input, the offset reached and the current line.
pub struct ScanState {
    pub input: Seq<char>,
    pub pos: int,
    pub line: int,
}

/// One step of the scanner from offset `pos` on line `line`: the token found,
/// if any, and the offset and line after it. An unrecognised character gives
/// an illegal token that takes the rest of the input.
pub open spec fn step(s: Seq<char>, pos: int, line: int) -> (Option<Scanned>, int, int) {
    let p = skip_ws(s, pos);
    let l = line + newlines(s, pos, p);
    if p >= s.len() {
        (None, p, l)
    } else {
        match classify(s, p) {
            Some(m) => (Some(Scanned { kind: m.kind, start: p, end: m.end, line: l }), m.end, l),
            None => (
                Some(Scanned { kind: TokenType::Illegal, start: p, end: s.len() as int, line: l }),
                s.len() as int,
                l,
            ),
        }
    }
}

/// The tokens that the scanner produces from offset `pos` on line `line` on.
pub open spec fn scan(s: Seq<char>, pos: int, line: int) -> Seq<Scanned>
    decreases s.len() - pos,
{
    if 0 <= pos < s.len() {
        match step(s, pos, line).0 {
            Some(t) => {
                proof {
                    lemma_step_advances(s, pos, line);
                }
                seq![t] + scan(s, step(s, pos, line).1, step(s, pos, line).2)
            },
            None => seq![],
        }
    } else {
        seq![]
    }
}

/// The tokens of the whole input.
pub open spec fn lex(s: Seq<char>) -> Seq<Scanned> {
    scan(s, 0, 0)
}

/// `t` is the token that the scanner yields for `sc` over input `s`: literals
/// carry their text, every other kind carries none.
pub open spec fn token_agrees(t: Token, sc: Scanned, s: Seq<char>) -> bool {
    &&& t.token_type == sc.kind
    &&& t.line == sc.line
    &&& if sc.kind is Literal {
        t.literal is Some && t.literal->0@ == s.subrange(sc.start, sc.end)
    } else {
        t.literal is None
    }
}

pub proof fn lemma_skip_ws_bounds(s: Seq<char>, i: int)
    requires
        0 <= i <= s.len(),
    ensures
        i <= skip_ws(s, i) <= s.len(),
        skip_ws(s, i) < s.len() ==> !is_space(s[skip_ws(s, i)]),
        forall|k: int| i <= k < skip_ws(s, i) ==> is_space(#[trigger] s[k]),
    decreases s.len() - i,
{
    if i < s.len() && is_space(s[i]) {
        lemma_skip_ws_bounds(s, i + 1);
    }
}

pub proof fn lemma_step_advances(s: Seq<char>, pos: int, line: int)
    requires
        0 <= pos <= s.len(),
    ensures
        step(s, pos, line).0 is Some ==> pos < step(s, pos, line).1 <= s.len(),
        step(s, pos, line).0 is None ==> step(s, pos, line).1 == s.len(),
{
    lemma_skip_ws_bounds(s, pos);
    let p = skip_ws(s, pos);
    if p < s.len() && classify(s, p) is Some {
        lemma_classify_span(s, p);
    }
}

/// Unfolds one step of `scan`.
pub proof fn lemma_scan_unfold(s: Seq<char>, pos: int, line: int)
    requires
        0 <= pos <= s.len(),
    ensures
        ({
            let (t, p, l) = step(s, pos, line);
            match t {
                Some(tk) => scan(s, pos, line) == seq![tk] + scan(s, p, l),
                None => scan(s, pos, line) == Seq::<Scanned>::empty(),
            }
        }),
{
    lemma_skip_ws_bounds(s, pos);
}

/// The tokenizer. It holds no state of its own: each pass over an input is a
/// `LexerIterator`.
pub struct Lexer;

/// One pass of the tokenizer over one input.
pub struct LexerIterator<'l> {
    pos: usize,
    input: Vec<char>,
    current_line: usize,
    lexer: &'l Lexer,
}

impl<'l> View for LexerIterator<'l> {
    type V = ScanState;

    closed spec fn view(&self) -> ScanState {
        ScanState { input: self.input@, pos: self.pos as int, line: self.current_line as int }
    }
}

impl Lexer {
    pub fn new() -> (r: Lexer) {
        Lexer
    }

    /// A pass over `input`, at its start, on line zero.
    pub fn tokenize<'l>(&'l self, input: &str) -> (r: LexerIterator<'l>)
        ensures
            r.wf(),
            r@.input == input@,
            r@.pos == 0,
            r@.line == 0,
    {
        let mut chars: Vec<char> = Vec::new();
        for c in it: input.chars()
            invariant
                chars@ == it.seq().take(it.index() as int),
        {
            chars.push(c);
        }
        assert(chars@ =~= input@);
        LexerIterator { pos: 0, input: chars, current_line: 0, lexer: self }
    }

    /// The identifier, reserved word or integer that starts at `start`.
    pub fn match_token(&self, input: &[char], start: usize) -> (r: Option<TokenPos>)
        requires
            start <= input@.len(),
        ensures
            pos_is(r, word_match(input@, start as int)),
    {
        TokenType::literal_token_matcher(input, start)
    }

    /// All the tokens of `input`, in the order the scanner yields them.
    pub fn tokens(&self, input: &str) -> (r: Vec<Token>)
        ensures
            r@.len() == lex(input@).len(),
            forall|i: int| 0 <= i < r@.len() ==> token_agrees(#[trigger] r@[i], lex(input@)[i], input@),
    {
        let mut it = self.tokenize(input);
        let mut out: Vec<Token> = Vec::new();
        let ghost s = input@;
        let ghost mut done: Seq<Scanned> = Seq::empty();
        loop
            invariant
                it.wf(),
                it@.input == s,
                lex(s) == done + scan(s, it@.pos, it@.line),
                out@.len() == done.len(),
                forall|i: int| 0 <= i < out@.len() ==> token_agrees(#[trigger] out@[i], done[i], s),
            ensures
                lex(s) == done,
                out@.len() == done.len(),
                forall|i: int| 0 <= i < out@.len() ==> token_agrees(#[trigger] out@[i], done[i], s),
            decreases s.len() - it@.pos,
        {
            let ghost (pos, line) = (it@.pos, it@.line);
            proof {
                lemma_scan_unfold(s, pos, line);
                lemma_step_advances(s, pos, line);
            }
            match it.next_token() {
                Some(t) => {
                    proof {
                        let tk = step(s, pos, line).0->0;
                        assert(done + scan(s, pos, line) == (done + seq![tk]) + scan(s, it@.pos, it@.line));
                        done = done + seq![tk];
                    }
                    out.push(t);
                },
                None => {
                    assert(lex(s) =~= done);
                    break;
                },
            }
        }
        out
    }
}

impl<'l> LexerIterator<'l> {
    /// The offset stays within the input, and the line count never passes it.
    pub closed spec fn wf(&self) -> bool {
        &&& self.pos <= self.input@.len()
        &&& self.current_line <= self.pos
    }

    /// Moves past whitespace, counting line feeds; the character reached, if any.
    fn skip_whitespaces(&mut self) -> (r: Option<char>)
        requires
            old(self).wf(),
        ensures
            final(self).wf(),
            final(self)@.input == old(self)@.input,
            final(self)@.pos == skip_ws(old(self)@.input, old(self)@.pos),
            final(self)@.line == old(self)@.line + newlines(old(self)@.input, old(self)@.pos, final(self)@.pos),
            r == if final(self)@.pos < final(self)@.input.len() {
                Some(final(self)@.input[final(self)@.pos])
            } else {
                None::<char>
            },
    {
        let ghost start = self.pos as int;
        let ghost line0 = self.current_line as int;
        while self.pos < self.input.len() && is_whitespace(self.input[self.pos])
            invariant
                self.wf(),
                start <= self.pos,
                self@.input == old(self)@.input,
                skip_ws(self@.input, self.pos as int) == skip_ws(self@.input, start),
                self.current_line == line0 + newlines(self@.input, start, self.pos as int),
            decreases self.input@.len() - self.pos,
        {
            if self.input[self.pos] == '\n' {
                self.current_line = self.current_line + 1;
            }
            self.pos = self.pos + 1;
        }
        if self.pos < self.input.len() {
            Some(self.input[self.pos])
        } else {
            None
        }
    }

    /// Yields the token that `pos` describes, starting at the current offset,
    /// and moves past it.
    fn produce(&mut self, pos: TokenPos) -> (r: Token)
        requires
            old(self).wf(),
            old(self).pos < pos.end <= old(self).input@.len(),
        ensures
            final(self).wf(),
            final(self)@.input == old(self)@.input,
            final(self)@.pos == pos.end,
            final(self)@.line == old(self)@.line,
            token_agrees(
                r,
                Scanned { kind: pos.token_type, start: old(self)@.pos, end: pos.end as int, line: old(self)@.line },
                old(self)@.input,
            ),
    {
        let start = self.pos;
        self.pos = pos.end;
        match pos.token_type {
            TokenType::Literal(_) => pos.token(Some(&self.input.as_slice()[start..pos.end]), self.current_line),
            _ => pos.token(None, self.current_line),
        }
    }

    /// At the end of the input, nothing; otherwise an illegal token, and the
    /// rest of the input is dropped.
    fn illegal_or_none(&mut self) -> (r: Option<Token>)
        requires
            old(self).wf(),
        ensures
            final(self).wf(),
            final(self)@.input == old(self)@.input,
            final(self)@.line == old(self)@.line,
            final(self)@.pos == old(self)@.input.len(),
            old(self)@.pos < old(self)@.input.len() ==> r == Some(
                Token { token_type: TokenType::Illegal, literal: None, line: old(self).current_line },
            ),
            old(self)@.pos >= old(self)@.input.len() ==> r is None,
    {
        if self.pos < self.input.len() {
            self.pos = self.input.len();
            return Some(Token { token_type: TokenType::Illegal, literal: None, line: self.current_line });
        }
        None
    }

    /// The next token of the pass, or `None` once the input is used up.
    pub fn next_token(&mut self) -> (r: Option<Token>)
        requires
            old(self).wf(),
        ensures
            final(self).wf(),
            final(self)@.input == old(self)@.input,
            ({
                let (t, p, l) = step(old(self)@.input, old(self)@.pos, old(self)@.line);
                &&& final(self)@.pos == p
                &&& final(self)@.line == l
                &&& match t {
                    Some(sc) => r is Some && token_agrees(r->0, sc, old(self)@.input),
                    None => r is None,
                }
            }),
    {
        let ghost s = self.input@;
        let m = match self.skip_whitespaces() {
            Some(ch) => TokenType::match_spec(self.input.as_slice(), self.pos, ch),
            None => None,
        };
        let m = match m {
            Some(m) => Some(m),
            None => self.lexer.match_token(self.input.as_slice(), self.pos),
        };
        proof {
            if self.pos < s.len() && classify(s, self.pos as int) is Some {
                lemma_classify_span(s, self.pos as int);
            }
        }
        match m {
            Some(m) => Some(self.produce(m)),
            None => self.illegal_or_none(),
        }
    }
}

} // verus!
