use vstd::prelude::*;

use crate::lexer::{is_space, lemma_scan_unfold, lemma_skip_ws_bounds, lex, newlines, scan, skip_ws, step};
use crate::token::{
    classify, is_letter, keyword_of, keyword_text, lemma_classify_span, word_end, Candidate,
    Keyword, Literal, Spec, TokenType,
};

verus! {

proof fn lemma_newlines_split(s: Seq<char>, a: int, b: int, c: int)
    requires
        a <= b <= c,
    ensures
        newlines(s, a, c) == newlines(s, a, b) + newlines(s, b, c),
    decreases c - b,
{
    if b < c {
        lemma_newlines_split(s, a, b, c - 1);
    }
}

proof fn lemma_newlines_nonneg(s: Seq<char>, a: int, b: int)
    ensures
        newlines(s, a, b) >= 0,
    decreases b - a,
{
    if a < b {
        lemma_newlines_nonneg(s, a, b - 1);
    }
}

proof fn lemma_newlines_none(s: Seq<char>, a: int, b: int)
    requires
        forall|k: int| a <= k < b ==> #[trigger] s[k] != '\n',
    ensures
        newlines(s, a, b) == 0,
    decreases b - a,
{
    if a < b {
        lemma_newlines_none(s, a, b - 1);
    }
}

proof fn lemma_skip_all_ws(s: Seq<char>, i: int)
    requires
        0 <= i <= s.len(),
        forall|k: int| 0 <= k < s.len() ==> is_space(#[trigger] s[k]),
    ensures
        skip_ws(s, i) == s.len(),
    decreases s.len() - i,
{
    if i < s.len() {
        lemma_skip_all_ws(s, i + 1);
    }
}

/// From a position whose line is the count of line feeds before it, every
/// token lies within the input after the previous one, and its line is the
/// count of line feeds before its first character.
proof fn lemma_scan_shape(s: Seq<char>, pos: int, line: int)
    requires
        0 <= pos <= s.len(),
        line == newlines(s, 0, pos),
    ensures
        forall|i: int| 0 <= i < scan(s, pos, line).len() ==> {
            let t = #[trigger] scan(s, pos, line)[i];
            &&& pos <= t.start < t.end <= s.len()
            &&& t.line == newlines(s, 0, t.start)
        },
        forall|i: int, j: int|
            0 <= i < j < scan(s, pos, line).len() ==> #[trigger] scan(s, pos, line)[i].end
                <= #[trigger] scan(s, pos, line)[j].start,
    decreases s.len() - pos,
{
    lemma_scan_unfold(s, pos, line);
    lemma_skip_ws_bounds(s, pos);
    let (t, e, l) = step(s, pos, line);
    let p = skip_ws(s, pos);
    if let Some(tk) = t {
        lemma_newlines_split(s, 0, pos, p);
        if classify(s, p) is Some {
            lemma_classify_span(s, p);
            lemma_newlines_none(s, p, e);
            lemma_newlines_split(s, 0, p, e);
            lemma_scan_shape(s, e, l);
        }
        let rest = scan(s, e, l);
        assert(scan(s, pos, line) == seq![tk] + rest);
        assert forall|i: int, j: int|
            0 <= i < j < scan(s, pos, line).len() implies #[trigger] scan(s, pos, line)[i].end
                <= #[trigger] scan(s, pos, line)[j].start by {
            if i > 0 {
                assert(scan(s, pos, line)[i] == rest[i - 1]);
            }
            assert(scan(s, pos, line)[j] == rest[j - 1]);
        }
    }
}

/// Input made of whitespace alone yields no token.
pub proof fn whitespace_yields_nothing(s: Seq<char>)
    requires
        forall|k: int| 0 <= k < s.len() ==> is_space(#[trigger] s[k]),
    ensures
        lex(s).len() == 0,
{
    lemma_skip_all_ws(s, 0);
    lemma_scan_unfold(s, 0, 0);
}

/// Each token's line is the number of line feeds before its first character,
/// so lines never decrease along the tokens.
pub proof fn lines_count_line_feeds(s: Seq<char>)
    ensures
        forall|i: int| 0 <= i < lex(s).len() ==> (#[trigger] lex(s)[i]).line == newlines(s, 0, lex(s)[i].start),
        forall|i: int, j: int|
            0 <= i <= j < lex(s).len() ==> (#[trigger] lex(s)[i]).line <= (#[trigger] lex(s)[j]).line,
{
    lemma_scan_shape(s, 0, 0);
    assert forall|i: int, j: int| 0 <= i <= j < lex(s).len() implies (#[trigger] lex(s)[i]).line
        <= (#[trigger] lex(s)[j]).line by {
        if i < j {
            lemma_newlines_split(s, 0, lex(s)[i].start, lex(s)[j].start);
            lemma_newlines_nonneg(s, lex(s)[i].start, lex(s)[j].start);
        }
    }
}

/// Every token spans a non-empty slice of the input, and the tokens follow
/// one another without overlap; a literal's text is the slice it spans.
pub proof fn tokens_span_input_in_order(s: Seq<char>)
    ensures
        forall|i: int| 0 <= i < lex(s).len() ==> 0 <= (#[trigger] lex(s)[i]).start < lex(s)[i].end <= s.len(),
        forall|i: int, j: int|
            0 <= i < j < lex(s).len() ==> (#[trigger] lex(s)[i]).end <= (#[trigger] lex(s)[j]).start,
{
    lemma_scan_shape(s, 0, 0);
}

/// A word that spells a reserved word exactly is that keyword; any other word
/// is an identifier.
pub proof fn keyword_precedence(s: Seq<char>, p: int)
    requires
        0 <= p < s.len(),
        is_letter(s[p]),
    ensures
        ({
            let e = word_end(s, p + 1);
            let w = s.subrange(p, e);
            &&& forall|k: Keyword|
                classify(s, p) == Some(Candidate { kind: TokenType::Keyword(k), end: e }) <==> w
                    == #[trigger] keyword_text(k)
            &&& classify(s, p) == Some(Candidate { kind: TokenType::Literal(Literal::Ident), end: e })
                <==> keyword_of(w) is None
            &&& keyword_of(w) is None <==> forall|k: Keyword| w != #[trigger] keyword_text(k)
        }),
{
    let e = word_end(s, p + 1);
    let w = s.subrange(p, e);
    assert forall|k: Keyword| w == #[trigger] keyword_text(k) implies keyword_of(w) == Some(k) by {
        lemma_keyword_texts_distinct(k);
    }
}

proof fn lemma_keyword_texts_distinct(k: Keyword)
    ensures
        keyword_of(keyword_text(k)) == Some(k),
{
    let t = keyword_text(k);
    assert(t.len() == keyword_text(k).len());
    match k {
        Keyword::Function => {},
        Keyword::Let => {},
        Keyword::True => {
            assert(t[0] != keyword_text(Keyword::Function)[0]);
        },
        Keyword::False => {
            assert(t[1] != keyword_text(Keyword::Function)[1]);
        },
        Keyword::If => {
            assert(t[0] != keyword_text(Keyword::Function)[0]);
        },
        Keyword::Else => {
            assert(t[0] != keyword_text(Keyword::True)[0]);
        },
        Keyword::Return => {},
    }
}

/// Where `==` or `!=` starts, the two-character operator wins over `=` or `!`.
pub proof fn two_char_operator_wins(s: Seq<char>, p: int)
    requires
        0 <= p,
        p + 1 < s.len(),
        s[p] == '=' || s[p] == '!',
        s[p + 1] == '=',
    ensures
        classify(s, p) == Some(
            Candidate {
                kind: TokenType::Spec(if s[p] == '=' { Spec::Equal } else { Spec::NotEqual }),
                end: p + 2,
            },
        ),
{
}

} // verus!
