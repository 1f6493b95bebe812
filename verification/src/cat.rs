//! The category lexer.
//!
//! Streams a source's bytes as coarse category tokens: identifier-like text,
//! whitespace, newlines, comments and single symbols. The preprocessor's
//! directive handling consumes these; everything it does not recognise passes
//! through unchanged. The lexer is total: every byte of the input belongs to
//! exactly one token, and [`lex`] is fully characterised by [`spec_lex`].

use vstd::prelude::*;

use crate::source::{SourceId, Span};

verus! {

/// The coarse category of a run of source bytes.
#[derive(Debug, Clone, Copy, PartialEq, Eq, Structural)]
pub enum CatTokenKind {
    /// A run of letters, digits and underscores.
    Text,
    /// A run of blanks, tabs or carriage returns.
    Whitespace,
    /// A single line feed.
    Newline,
    /// A line (`//`) or block (`/* */`) comment.
    Comment,
    /// Any other single byte.
    Symbol(char),
}

/// One category token together with the span of bytes it covers.
#[derive(Debug, Clone, Copy, PartialEq, Eq, Structural)]
pub struct Token {
    /// The category of the token.
    pub kind: CatTokenKind,
    /// The bytes it covers.
    pub span: Span,
}

/// True for blanks, tabs and carriage returns (newline is its own category).
pub open spec fn is_space_byte(b: u8) -> bool {
    b == 32 || b == 9 || b == 13
}

/// True for letters, digits and underscores.
pub open spec fn is_text_byte(b: u8) -> bool {
    (48 <= b && b <= 57) || (65 <= b && b <= 90) || (97 <= b && b <= 122) || b == 95
}

/// First position at or after `i` that does not continue a whitespace run.
pub open spec fn space_run_end(c: Seq<u8>, i: int) -> int
    decreases c.len() - i when 0 <= i <= c.len()
{
    if i < c.len() && is_space_byte(c[i]) {
        space_run_end(c, i + 1)
    } else {
        i
    }
}

/// First position at or after `i` that does not continue a text run.
pub open spec fn text_run_end(c: Seq<u8>, i: int) -> int
    decreases c.len() - i when 0 <= i <= c.len()
{
    if i < c.len() && is_text_byte(c[i]) {
        text_run_end(c, i + 1)
    } else {
        i
    }
}

/// First position at or after `i` holding a line feed, or the end of input.
pub open spec fn line_comment_end(c: Seq<u8>, i: int) -> int
    decreases c.len() - i when 0 <= i <= c.len()
{
    if i < c.len() && c[i] != 10 {
        line_comment_end(c, i + 1)
    } else {
        i
    }
}

/// Position one past the closing `*/` at or after `i`, or the end of input.
pub open spec fn block_comment_end(c: Seq<u8>, i: int) -> int
    decreases c.len() - i when 0 <= i <= c.len()
{
    if i + 1 >= c.len() {
        c.len() as int
    } else if c[i] == 42 && c[i + 1] == 47 {
        i + 2
    } else {
        block_comment_end(c, i + 1)
    }
}

/// End position of the token starting at `i`.
pub open spec fn token_end(c: Seq<u8>, i: int) -> int {
    let b = c[i];
    if b == 10 {
        i + 1
    } else if is_space_byte(b) {
        space_run_end(c, i + 1)
    } else if is_text_byte(b) {
        text_run_end(c, i + 1)
    } else if b == 47 && i + 1 < c.len() && c[i + 1] == 47 {
        line_comment_end(c, i + 2)
    } else if b == 47 && i + 1 < c.len() && c[i + 1] == 42 {
        block_comment_end(c, i + 2)
    } else {
        i + 1
    }
}

/// Kind of the token starting at `i`.
pub open spec fn token_kind(c: Seq<u8>, i: int) -> CatTokenKind {
    let b = c[i];
    if b == 10 {
        CatTokenKind::Newline
    } else if is_space_byte(b) {
        CatTokenKind::Whitespace
    } else if is_text_byte(b) {
        CatTokenKind::Text
    } else if b == 47 && i + 1 < c.len() && (c[i + 1] == 47 || c[i + 1] == 42) {
        CatTokenKind::Comment
    } else {
        CatTokenKind::Symbol(b as char)
    }
}

pub proof fn lemma_space_run_end_bounds(c: Seq<u8>, i: int)
    requires
        0 <= i <= c.len(),
    ensures
        i <= space_run_end(c, i) <= c.len(),
    decreases c.len() - i,
{
    if i < c.len() && is_space_byte(c[i]) {
        lemma_space_run_end_bounds(c, i + 1);
    }
}

pub proof fn lemma_text_run_end_bounds(c: Seq<u8>, i: int)
    requires
        0 <= i <= c.len(),
    ensures
        i <= text_run_end(c, i) <= c.len(),
    decreases c.len() - i,
{
    if i < c.len() && is_text_byte(c[i]) {
        lemma_text_run_end_bounds(c, i + 1);
    }
}

pub proof fn lemma_line_comment_end_bounds(c: Seq<u8>, i: int)
    requires
        0 <= i <= c.len(),
    ensures
        i <= line_comment_end(c, i) <= c.len(),
    decreases c.len() - i,
{
    if i < c.len() && c[i] != 10 {
        lemma_line_comment_end_bounds(c, i + 1);
    }
}

pub proof fn lemma_block_comment_end_bounds(c: Seq<u8>, i: int)
    requires
        0 <= i <= c.len(),
    ensures
        i <= block_comment_end(c, i) <= c.len(),
    decreases c.len() - i,
{
    if i + 1 >= c.len() {
    } else if c[i] == 42 && c[i + 1] == 47 {
    } else {
        lemma_block_comment_end_bounds(c, i + 1);
    }
}

/// The token starting at `i` ends after it and within the input.
pub proof fn lemma_token_end_bounds(c: Seq<u8>, i: int)
    requires
        0 <= i < c.len(),
    ensures
        i < token_end(c, i) <= c.len(),
{
    lemma_space_run_end_bounds(c, i + 1);
    lemma_text_run_end_bounds(c, i + 1);
    if i + 2 <= c.len() {
        lemma_line_comment_end_bounds(c, i + 2);
        lemma_block_comment_end_bounds(c, i + 2);
    }
}

/// The category tokens of `c`, from position `i` on: the token starting at
/// `i`, then those of the rest.
pub open spec fn spec_lex(c: Seq<u8>, src: SourceId, i: int) -> Seq<Token>
    decreases c.len() - i when 0 <= i <= c.len()
    via spec_lex_decreases
{
    if i < c.len() {
        seq![
            Token {
                kind: token_kind(c, i),
                span: Span { source: src, begin: i as usize, end: token_end(c, i) as usize },
            },
        ] + spec_lex(c, src, token_end(c, i))
    } else {
        Seq::empty()
    }
}

#[via_fn]
proof fn spec_lex_decreases(c: Seq<u8>, src: SourceId, i: int) {
    if i < c.len() {
        lemma_token_end_bounds(c, i);
    }
}

/// Every token of [`spec_lex`] names the lexed source, lies within it, is
/// non-empty, starts at or after `i`, and a symbol token's character is the
/// byte at its start.
pub proof fn lemma_spec_lex_tokens(c: Seq<u8>, src: SourceId, i: int)
    requires
        0 <= i <= c.len(),
        c.len() <= usize::MAX,
    ensures
        forall|k: int|
            0 <= k < spec_lex(c, src, i).len() ==> {
                let t = #[trigger] spec_lex(c, src, i)[k];
                t.span.source == src && i <= t.span.begin && t.span.begin < t.span.end
                    && t.span.end <= c.len() && (t.kind matches CatTokenKind::Symbol(ch) ==> ch
                    == c[t.span.begin as int] as char)
            },
    decreases c.len() - i,
{
    if i < c.len() {
        lemma_token_end_bounds(c, i);
        let e = token_end(c, i);
        lemma_spec_lex_tokens(c, src, e);
        let s = spec_lex(c, src, i);
        let rest = spec_lex(c, src, e);
        let t0 = Token {
            kind: token_kind(c, i),
            span: Span { source: src, begin: i as usize, end: e as usize },
        };
        assert(s =~= seq![t0] + rest);
        assert forall|k: int| 0 <= k < s.len() implies {
            let t = #[trigger] s[k];
            t.span.source == src && i <= t.span.begin && t.span.begin < t.span.end && t.span.end
                <= c.len() && (t.kind matches CatTokenKind::Symbol(ch) ==> ch
                == c[t.span.begin as int] as char)
        } by {
            if k > 0 {
                assert(s[k] == rest[k - 1]);
            }
        }
    }
}

/// Lex a whole source: its bytes partitioned into category tokens.
pub fn lex(content: &Vec<u8>, src: SourceId) -> (r: Vec<Token>)
    ensures
        r@ == spec_lex(content@, src, 0),
{
    let c = content;
    let mut toks: Vec<Token> = Vec::new();
    let mut i: usize = 0;
    while i < c.len()
        invariant
            0 <= i <= c@.len(),
            spec_lex(c@, src, 0) =~= toks@ + spec_lex(c@, src, i as int),
        decreases c@.len() - i,
    {
        let b = c[i];
        let kind: CatTokenKind;
        let e: usize;
        if b == 10 {
            kind = CatTokenKind::Newline;
            e = i + 1;
        } else if b == 32 || b == 9 || b == 13 {
            kind = CatTokenKind::Whitespace;
            let mut j = i + 1;
            while j < c.len() && (c[j] == 32 || c[j] == 9 || c[j] == 13)
                invariant
                    i + 1 <= j <= c@.len(),
                    space_run_end(c@, i + 1) == space_run_end(c@, j as int),
                decreases c@.len() - j,
            {
                j = j + 1;
            }
            e = j;
        } else if (48 <= b && b <= 57) || (65 <= b && b <= 90) || (97 <= b && b <= 122) || b
            == 95 {
            kind = CatTokenKind::Text;
            let mut j = i + 1;
            while j < c.len() && ((48 <= c[j] && c[j] <= 57) || (65 <= c[j] && c[j] <= 90) || (97
                <= c[j] && c[j] <= 122) || c[j] == 95)
                invariant
                    i + 1 <= j <= c@.len(),
                    text_run_end(c@, i + 1) == text_run_end(c@, j as int),
                decreases c@.len() - j,
            {
                j = j + 1;
            }
            e = j;
        } else if b == 47 && i + 1 < c.len() && c[i + 1] == 47 {
            kind = CatTokenKind::Comment;
            let mut j = i + 2;
            while j < c.len() && c[j] != 10
                invariant
                    i + 2 <= j <= c@.len(),
                    line_comment_end(c@, i + 2) == line_comment_end(c@, j as int),
                decreases c@.len() - j,
            {
                j = j + 1;
            }
            e = j;
        } else if b == 47 && i + 1 < c.len() && c[i + 1] == 42 {
            kind = CatTokenKind::Comment;
            let mut j = i + 2;
            while j < c.len() - 1 && !(c[j] == 42 && c[j + 1] == 47)
                invariant
                    2 <= c@.len(),
                    i + 2 <= j,
                    j <= c@.len(),
                    block_comment_end(c@, i + 2) == block_comment_end(c@, j as int),
                decreases c@.len() - j,
            {
                j = j + 1;
            }
            if j < c.len() - 1 {
                e = j + 2;
            } else {
                e = c.len();
            }
        } else {
            kind = CatTokenKind::Symbol(b as char);
            e = i + 1;
        }
        proof {
            lemma_token_end_bounds(c@, i as int);
            assert(e as int == token_end(c@, i as int));
            assert(kind == token_kind(c@, i as int));
        }
        let t = Token { kind, span: Span { source: src, begin: i, end: e } };
        toks.push(t);
        proof {
            assert(spec_lex(c@, src, i as int) =~= seq![t] + spec_lex(c@, src, e as int));
            assert(spec_lex(c@, src, 0) =~= toks@ + spec_lex(c@, src, e as int));
        }
        i = e;
    }
    toks
}

} // verus!
