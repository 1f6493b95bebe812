//! The preprocessor.
//!
//! A streaming token filter over a stack of category-token streams. It
//! resolves backtick directives: textual file insertion, conditional
//! compilation, and parameterised text-macro definition and expansion, while
//! every emitted token keeps a span into the original source it came from.
//!
//! The deepest source on the stream stack supplies the next raw token; when a
//! stream is exhausted it is popped. Macro bodies are played back through a
//! separate pending stack, so their tokens keep their original spans. A
//! tri-state conditional stack tracks nested conditional regions; while its
//! top is not enabled, tokens are silently dropped.

use vstd::prelude::*;

use crate::cat::{lex, spec_lex, lemma_spec_lex_tokens, CatTokenKind, Token};
use crate::source::{SourceId, SourceManager, Span};

verus! {

/// How many directives one preprocessor will handle before giving up; a
/// guard against runaway self-referential macro expansion.
pub const DIRECTIVE_BUDGET: usize = 100000000;

/// One input stream: the category tokens of a source and a cursor into them.
#[derive(Debug, Clone, PartialEq, Eq)]
pub struct Stream {
    /// The source the tokens come from.
    pub source: SourceId,
    /// All category tokens of that source.
    pub toks: Vec<Token>,
    /// Index of the next token to read.
    pub pos: usize,
}

/// An entry of the conditional-compilation stack.
#[derive(Debug, Clone, Copy, PartialEq, Eq, Structural)]
pub enum Defcond {
    /// This chain already took a branch; all further arms are skipped.
    Done,
    /// The current branch is active.
    Enabled,
    /// The current branch is being skipped.
    Disabled,
}

/// A formal argument of a text macro.
#[derive(Debug, Clone, PartialEq, Eq)]
pub struct MacroArg {
    /// The argument's name.
    pub name: Vec<u8>,
    /// Where it was declared.
    pub span: Span,
}

/// A text macro: name, formal arguments, and body tokens.
#[derive(Debug, Clone, PartialEq, Eq)]
pub struct MacroDef {
    /// The macro's name.
    pub name: Vec<u8>,
    /// Where the name stood in its definition.
    pub span: Span,
    /// The declared formal arguments, in order.
    pub args: Vec<MacroArg>,
    /// The body: the tokens played back at each use.
    pub body: Vec<Token>,
}

/// What went wrong while handling a directive.
#[derive(Debug, Clone, Copy, PartialEq, Eq, Structural)]
pub enum PreprocErrorKind {
    /// A directive name was not recognised and names no macro.
    UnknownDirective,
    /// No quoted filename followed a file-insertion directive.
    ExpectedFilename,
    /// A filename ran into a line break.
    FilenameBeforeLineBreak,
    /// The input ended inside a filename.
    FilenameBeforeEndOfInput,
    /// The named file is not registered with the source manager.
    CannotOpenFile,
    /// No name followed a define or conditional directive.
    ExpectedMacroName,
    /// A macro argument list held something other than a name.
    ExpectedMacroArgName,
    /// A macro argument name was not followed by `,` or `)`.
    ExpectedMacroArgListEnd,
    /// The input ended inside a macro argument list.
    UnterminatedMacroArgList,
    /// A use of a macro with arguments lacked its parenthesised parameters.
    ExpectedMacroParams,
    /// A macro use supplied more parameters than the macro declares.
    SuperfluousMacroParams,
    /// The input ended inside a macro's parameters.
    UnterminatedMacroParams,
    /// An `else`-, `elsif`- or `endif`-like directive had no opening one.
    UnbalancedConditional,
    /// Token concatenation used outside a macro body.
    StrayConcatenation,
    /// A backtick was not followed by a directive name.
    ExpectedDirective,
    /// The directive budget ran out; the input likely expands a macro
    /// through itself.
    TooManyDirectives,
}

/// A fatal preprocessor diagnostic: a kind and, where one exists, the span
/// of the offending tokens.
#[derive(Debug, Clone, Copy, PartialEq, Eq, Structural)]
pub struct PreprocError {
    /// What went wrong.
    pub kind: PreprocErrorKind,
    /// Where, if a span is known.
    pub span: Option<Span>,
}

impl PreprocError {
    /// A fixed human-readable description of the error kind.
    pub fn message(&self) -> (r: &'static str) {
        match self.kind {
            PreprocErrorKind::UnknownDirective => "Unknown compiler directive",
            PreprocErrorKind::ExpectedFilename => "Expected filename in quotes or angle brackets",
            PreprocErrorKind::FilenameBeforeLineBreak => "Expected end of file name before line break",
            PreprocErrorKind::FilenameBeforeEndOfInput => "Expected file name before end of input",
            PreprocErrorKind::CannotOpenFile => "Cannot open inserted file",
            PreprocErrorKind::ExpectedMacroName => "Expected macro name after directive",
            PreprocErrorKind::ExpectedMacroArgName => "Expected macro argument",
            PreprocErrorKind::ExpectedMacroArgListEnd => "Expected , or ) after macro argument name",
            PreprocErrorKind::UnterminatedMacroArgList => "Expected closing parenthesis at the end of the macro definition",
            PreprocErrorKind::ExpectedMacroParams => "Expected macro parameters in parentheses",
            PreprocErrorKind::SuperfluousMacroParams => "Superfluous macro parameters",
            PreprocErrorKind::UnterminatedMacroParams => "Expected closing parenthesis after macro parameters",
            PreprocErrorKind::UnbalancedConditional => "Conditional directive without a preceding opening directive",
            PreprocErrorKind::StrayConcatenation => "Preprocessor concatenation used outside a macro definition",
            PreprocErrorKind::ExpectedDirective => "Expected compiler directive after backtick",
            PreprocErrorKind::TooManyDirectives => "Too many directives; likely a self-referential macro",
        }
    }
}

impl MacroArg {
    /// A formal argument with the given name, declared at `span`.
    pub fn new(name: Vec<u8>, span: Span) -> (r: MacroArg)
        ensures
            r.name == name,
            r.span == span,
    {
        MacroArg { name, span }
    }
}

impl MacroDef {
    /// A macro with the given name, defined at `span`, with no arguments
    /// and an empty body yet.
    pub fn new(name: Vec<u8>, span: Span) -> (r: MacroDef)
        ensures
            r.name == name,
            r.span == span,
            r.args@.len() == 0,
            r.body@.len() == 0,
    {
        MacroDef { name, span, args: Vec::new(), body: Vec::new() }
    }
}

/// The directives the preprocessor recognises.
#[derive(Debug, Clone, Copy, PartialEq, Eq, Structural)]
pub enum Directive {
    /// Splice another file's tokens in place of the directive.
    Inclusion,
    /// Define a text macro.
    Define,
    /// Remove one text macro.
    Undef,
    /// Remove all text macros.
    UndefineAll,
    /// Open a conditional region on a defined name.
    Ifdef,
    /// Open a conditional region on an undefined name.
    Ifndef,
    /// Flip the current conditional region.
    Else,
    /// Open a further arm of the current conditional chain.
    Elsif,
    /// Close the current conditional region.
    Endif,
    /// None of the above: a macro use or an unknown name.
    Unknown,
}

/// First definition with the given name, if any.
pub open spec fn spec_find_macro(defs: Seq<MacroDef>, name: Seq<u8>) -> Option<MacroDef>
    decreases defs.len(),
{
    if defs.len() == 0 {
        None
    } else if defs[0].name@ == name {
        Some(defs[0])
    } else {
        spec_find_macro(defs.drop_first(), name)
    }
}

/// All tokens of `s` lie within the sources of `sm`.
pub open spec fn toks_ok(sm: &SourceManager, s: Seq<Token>) -> bool {
    forall|k: int| 0 <= k < s.len() ==> sm.spec_span_valid(#[trigger] s[k].span)
}

/// The cursor is in bounds and all tokens lie within the sources of `sm`.
pub open spec fn stream_ok(sm: &SourceManager, st: Stream) -> bool {
    st.pos <= st.toks@.len() && toks_ok(sm, st.toks@)
}

/// No token of `s` is a backtick symbol.
pub open spec fn no_backtick(s: Seq<Token>) -> bool {
    forall|k: int| 0 <= k < s.len() ==> #[trigger] s[k].kind != CatTokenKind::Symbol('`')
}

/// How many raw tokens the streams still hold.
pub open spec fn streams_remaining(ss: Seq<Stream>) -> int
    decreases ss.len(),
{
    if ss.len() == 0 {
        0
    } else {
        streams_remaining(ss.drop_last()) + ss.last().toks@.len() - ss.last().pos
    }
}

/// The unread tokens of one stream.
pub open spec fn stream_rest(st: Stream) -> Seq<Token> {
    st.toks@.skip(st.pos as int)
}

/// The unread tokens of a stream stack, deepest stream's tokens first.
pub open spec fn streams_seq(ss: Seq<Stream>) -> Seq<Token>
    decreases ss.len(),
{
    if ss.len() == 0 {
        Seq::empty()
    } else {
        stream_rest(ss.last()) + streams_seq(ss.drop_last())
    }
}

/// Unread stream tokens hold non-negatively many tokens, exactly
/// [`streams_remaining`] of them.
pub proof fn lemma_streams_seq_len(sm: &SourceManager, ss: Seq<Stream>)
    requires
        forall|i: int| 0 <= i < ss.len() ==> stream_ok(sm, #[trigger] ss[i]),
    ensures
        streams_seq(ss).len() == streams_remaining(ss),
        streams_remaining(ss) >= 0,
    decreases ss.len(),
{
    if ss.len() > 0 {
        lemma_streams_seq_len(sm, ss.drop_last());
    }
}

/// The bytes a token's span covers.
pub open spec fn tok_text(sm: &SourceManager, t: Token) -> Seq<u8> {
    sm@[t.span.source as int].content@.subrange(t.span.begin as int, t.span.end as int)
}

/// Index of the first raw token after at most one leading whitespace token.
pub open spec fn after_ws(s: Seq<Token>) -> int {
    if s.len() > 0 && s[0].kind is Whitespace {
        1
    } else {
        0
    }
}

/// What a conditional directive does: it reads one name (after optional
/// whitespace) and reshapes the conditional stack by whether a macro of
/// that name is defined at the time of the call. Without a name token the
/// directive fails, as does a further arm without an open chain; a failure
/// leaves the stack as it was.
#[verifier::opaque]
pub open spec fn conditional_effect(
    pre: Preprocessor,
    post: Preprocessor,
    r: Result<(), PreprocError>,
    dir: Directive,
) -> bool {
    let s = pre.raw_seq();
    let i = after_ws(s);
    let has_name = i < s.len() && s[i].kind is Text;
    &&& post.macro_defs == pre.macro_defs
    &&& (r is Err) == (!has_name || (dir == Directive::Elsif && pre.defcond_stack@.len() == 0))
    &&& (r is Err ==> post.defcond_stack@ == pre.defcond_stack@)
    &&& (r is Ok ==> {
        let defined = spec_find_macro(pre.macro_defs@, tok_text(&pre.sm, s[i])) is Some;
        &&& post.raw_seq() =~= s.skip(i + 1)
        &&& (dir == Directive::Ifdef ==> post.defcond_stack@ =~= pre.defcond_stack@.push(
            if defined {
                Defcond::Enabled
            } else {
                Defcond::Disabled
            },
        ))
        &&& (dir == Directive::Ifndef ==> post.defcond_stack@ =~= pre.defcond_stack@.push(
            if defined {
                Defcond::Disabled
            } else {
                Defcond::Enabled
            },
        ))
        &&& (dir == Directive::Elsif ==> pre.defcond_stack@.len() > 0 && post.defcond_stack@
            =~= pre.defcond_stack@.drop_last().push(
            if pre.defcond_stack@.last() == Defcond::Disabled {
                if defined {
                    Defcond::Enabled
                } else {
                    Defcond::Disabled
                }
            } else {
                Defcond::Done
            },
        ))
    })
}

/// The file name between the quotes: every token's text up to the
/// closing symbol, concatenated; a newline or the end of input before the
/// closer fails.
pub open spec fn is_close_tok(k: CatTokenKind, closing: u8) -> bool {
    match k {
        CatTokenKind::Symbol(c) => c as u8 == closing && (c as u32) < 256,
        _ => false,
    }
}

pub open spec fn spec_fname(sm: &SourceManager, s: Seq<Token>, i: int, closing: u8) -> Option<
    Seq<u8>,
>
    decreases s.len() - i when 0 <= i <= s.len()
{
    if i >= s.len() {
        None
    } else if is_close_tok(s[i].kind, closing) {
        Some(Seq::empty())
    } else if s[i].kind is Newline {
        None
    } else {
        match spec_fname(sm, s, i + 1, closing) {
            Some(rest) => Some(tok_text(sm, s[i]) + rest),
            None => None,
        }
    }
}

/// One unfolding step of [`spec_fname`] at a non-closing, non-newline
/// token.
pub proof fn lemma_fname_step(sm: &SourceManager, s: Seq<Token>, i: int, closing: u8)
    requires
        0 <= i < s.len(),
        !is_close_tok(s[i].kind, closing),
        !(s[i].kind is Newline),
    ensures
        spec_fname(sm, s, i, closing) == (match spec_fname(sm, s, i + 1, closing) {
            Some(rest) => Some(tok_text(sm, s[i]) + rest),
            None => None,
        }),
{
}

/// [`spec_fname`] fails at a newline or the end of input, and closes at a
/// closing token.
pub proof fn lemma_fname_stop(sm: &SourceManager, s: Seq<Token>, i: int, closing: u8)
    requires
        0 <= i <= s.len(),
    ensures
        i == s.len() ==> spec_fname(sm, s, i, closing) is None,
        (i < s.len() && !is_close_tok(s[i].kind, closing) && s[i].kind is Newline) ==> spec_fname(
            sm,
            s,
            i,
            closing,
        ) is None,
        (i < s.len() && is_close_tok(s[i].kind, closing)) ==> spec_fname(sm, s, i, closing)
            == Some(Seq::<u8>::empty()),
{
}

/// The file-insertion directive's parse: after at most one whitespace
/// token, a double quote or angle bracket opens the name, which runs to
/// the matching closer.
pub open spec fn spec_inclusion_parse(sm: &SourceManager, s: Seq<Token>) -> Option<Seq<u8>> {
    let i = after_ws(s);
    if i < s.len() && (s[i].kind matches CatTokenKind::Symbol('"')) {
        spec_fname(sm, s, i + 1, 34)
    } else if i < s.len() && (s[i].kind matches CatTokenKind::Symbol('<')) {
        spec_fname(sm, s, i + 1, 62)
    } else {
        None
    }
}

/// Some candidate path for the written name resolves to a registered
/// source: the name itself when absolute, else the directive source's
/// directory or one of the search directories joined with it.
pub open spec fn spec_resolves(
    sm: &SourceManager,
    inc_dirs: Seq<Vec<u8>>,
    cur_source: SourceId,
    f: Seq<u8>,
) -> bool {
    if f.len() > 0 && f[0] == 47 {
        sm_has(sm, f)
    } else {
        exists|k: int|
            0 <= k < 1 + inc_dirs.len() && sm_has(
                sm,
                #[trigger] spec_candidate(sm, inc_dirs, cur_source, f, k),
            )
    }
}

/// `src` is the first registered source matching the first resolvable
/// candidate path for the written name.
pub open spec fn spec_resolved_to(
    sm: &SourceManager,
    inc_dirs: Seq<Vec<u8>>,
    cur_source: SourceId,
    f: Seq<u8>,
    src: SourceId,
) -> bool {
    if f.len() > 0 && f[0] == 47 {
        sm_first(sm, f, src)
    } else {
        exists|k: int|
            0 <= k < 1 + inc_dirs.len() && sm_first(
                sm,
                #[trigger] spec_candidate(sm, inc_dirs, cur_source, f, k),
                src,
            ) && (forall|k2: int|
                0 <= k2 < k ==> !sm_has(sm, #[trigger] spec_candidate(sm, inc_dirs, cur_source, f, k2)))
    }
}

/// Where a read cursor stands: `cur` holds the token at `idx` of the raw
/// sequence `pre_raw` read so far, and the preprocessor still holds the
/// rest; past the end, the cursor and the sequence are exhausted.
pub open spec fn cursor_at(
    pre_raw: Seq<Token>,
    idx: int,
    cur: Option<Token>,
    post: &Preprocessor,
) -> bool {
    if idx < pre_raw.len() {
        cur == Some(pre_raw[idx]) && post.raw_seq() =~= pre_raw.skip(idx + 1)
    } else {
        cur is None && post.raw_seq().len() == 0
    }
}

/// The body of a define directive starting at `i`: the tokens up to the
/// first newline not preceded by a backslash; every backslash is dropped,
/// and a backslash-newline pair is dropped whole.
pub open spec fn spec_define_body(s: Seq<Token>, i: int) -> Seq<Token>
    decreases s.len() - i when 0 <= i <= s.len()
{
    if i >= s.len() {
        Seq::empty()
    } else if s[i].kind is Newline {
        Seq::empty()
    } else if s[i].kind matches CatTokenKind::Symbol('\\') {
        if i + 1 < s.len() && s[i + 1].kind is Newline {
            spec_define_body(s, i + 2)
        } else {
            spec_define_body(s, i + 1)
        }
    } else {
        seq![s[i]] + spec_define_body(s, i + 1)
    }
}

/// A define directive's formal-argument list starting at `i` (just inside
/// the opening parenthesis): after at most one whitespace token, either the
/// closing parenthesis, or a name followed (after at most one whitespace)
/// by a comma and more names, or by the closing parenthesis. Yields the
/// formal names and the index past the closing parenthesis.
pub open spec fn spec_define_args(sm: &SourceManager, s: Seq<Token>, i: int) -> Option<
    (Seq<Seq<u8>>, int),
>
    decreases s.len() - i, 1int when 0 <= i <= s.len()
{
    if i < s.len() && s[i].kind is Whitespace {
        spec_define_args_name(sm, s, i + 1)
    } else if i < s.len() && (s[i].kind matches CatTokenKind::Symbol(')')) {
        Some((Seq::empty(), i + 1))
    } else {
        spec_define_args_name(sm, s, i)
    }
}

/// One formal name and whatever follows it in the argument list.
pub open spec fn spec_define_args_name(sm: &SourceManager, s: Seq<Token>, j: int) -> Option<
    (Seq<Seq<u8>>, int),
>
    decreases s.len() - j, 0int when 0 <= j <= s.len()
{
    if j < s.len() && s[j].kind is Text {
        let nm = tok_text(sm, s[j]);
        let j1 = if j + 1 < s.len() && s[j + 1].kind is Whitespace {
            j + 2
        } else {
            j + 1
        };
        if j1 < s.len() && (s[j1].kind matches CatTokenKind::Symbol(',')) {
            match spec_define_args(sm, s, j1 + 1) {
                Some(p) => Some((seq![nm] + p.0, p.1)),
                None => None,
            }
        } else if j1 < s.len() && (s[j1].kind matches CatTokenKind::Symbol(')')) {
            Some((seq![nm], j1 + 1))
        } else {
            None
        }
    } else {
        None
    }
}

/// The whole define directive's parse: the macro name after at most one
/// whitespace token, the formal list iff a parenthesis immediately follows
/// the name, then the body after at most one further whitespace token.
pub open spec fn spec_define_parse(sm: &SourceManager, s: Seq<Token>) -> Option<
    (Seq<u8>, Seq<Seq<u8>>, Seq<Token>),
> {
    let i = after_ws(s);
    if i < s.len() && s[i].kind is Text {
        let nm = tok_text(sm, s[i]);
        if i + 1 < s.len() && (s[i + 1].kind matches CatTokenKind::Symbol('(')) {
            match spec_define_args(sm, s, i + 2) {
                Some(p) => {
                    let b = if p.1 < s.len() && s[p.1].kind is Whitespace {
                        p.1 + 1
                    } else {
                        p.1
                    };
                    if 0 <= b <= s.len() {
                        Some((nm, p.0, spec_define_body(s, b)))
                    } else {
                        None
                    }
                },
                None => None,
            }
        } else {
            let b = if i + 1 < s.len() && s[i + 1].kind is Whitespace {
                i + 2
            } else {
                i + 1
            };
            Some((nm, Seq::empty(), spec_define_body(s, b)))
        }
    } else {
        None
    }
}

/// What the macro-removal directive does: it reads one name (after
/// optional whitespace) and removes the macro of that name; other
/// definitions are untouched. Without a name token it fails and changes no
/// definition.
#[verifier::opaque]
pub open spec fn undef_effect(
    pre: Preprocessor,
    post: Preprocessor,
    r: Result<(), PreprocError>,
) -> bool {
    let s = pre.raw_seq();
    let i = after_ws(s);
    let has_name = i < s.len() && s[i].kind is Text;
    &&& post.defcond_stack == pre.defcond_stack
    &&& (r is Ok) == has_name
    &&& (r is Ok ==> {
        let nm = tok_text(&pre.sm, s[i]);
        &&& post.raw_seq() =~= s.skip(i + 1)
        &&& spec_find_macro(post.macro_defs@, nm) is None
        &&& (forall|n: Seq<u8>|
            n != nm ==> #[trigger] spec_find_macro(post.macro_defs@, n) == spec_find_macro(
                pre.macro_defs@,
                n,
            ))
    })
    &&& (r is Err ==> post.macro_defs == pre.macro_defs)
}

/// What the define directive does: it parses per [`spec_define_parse`] —
/// a name, the formal list iff a parenthesis immediately follows it, and
/// the body up to the first newline not preceded by a backslash — and
/// stores exactly that macro under the name, replacing any prior
/// definition; other definitions are untouched. It succeeds if and only
/// if the parse does, and a failure stores nothing.
#[verifier::opaque]
pub open spec fn define_effect(
    pre: Preprocessor,
    post: Preprocessor,
    r: Result<(), PreprocError>,
) -> bool {
    let s = pre.raw_seq();
    &&& post.defcond_stack == pre.defcond_stack
    &&& (r is Ok) == (spec_define_parse(&pre.sm, s) is Some)
    &&& (r is Err ==> post.macro_defs == pre.macro_defs)
    &&& (r is Ok ==> match spec_define_parse(&pre.sm, s) {
        Some(p) => {
            &&& (match spec_find_macro(post.macro_defs@, p.0) {
                Some(m) => m.name@ == p.0 && m.args@.len() == p.1.len() && (forall|k: int|
                    0 <= k < p.1.len() ==> (#[trigger] m.args@[k]).name@ == p.1[k]) && m.body@
                    == p.2,
                None => false,
            })
            &&& (forall|n: Seq<u8>|
                n != p.0 ==> #[trigger] spec_find_macro(post.macro_defs@, n) == spec_find_macro(
                    pre.macro_defs@,
                    n,
                ))
        },
        None => false,
    })
}

/// What the file-insertion directive does: it parses a quoted file name
/// per [`spec_inclusion_parse`], resolves it per [`spec_resolved_to`]
/// (the directive source's directory first, then each search directory in
/// order), and pushes a freshly lexed stream of exactly that source, which
/// then supplies the following raw tokens. It succeeds if and only if the
/// name parses and some candidate resolves. Macro definitions and the
/// conditional stack are untouched.
#[verifier::opaque]
pub open spec fn inclusion_effect(
    pre: Preprocessor,
    post: Preprocessor,
    r: Result<(), PreprocError>,
    cur_source: SourceId,
) -> bool {
    let s = pre.raw_seq();
    &&& post.macro_defs == pre.macro_defs
    &&& post.defcond_stack == pre.defcond_stack
    &&& (r is Ok) == (match spec_inclusion_parse(&pre.sm, s) {
        Some(f) => spec_resolves(&pre.sm, pre.inc_dirs@, cur_source, f),
        None => false,
    })
    &&& (r is Ok ==> {
        &&& post.streams@.len() > 0
        &&& post.streams@.last().pos == 0
        &&& post.streams@.last().source < pre.sm@.len()
        &&& post.streams@.last().toks@ == spec_lex(
            pre.sm@[post.streams@.last().source as int].content@,
            post.streams@.last().source,
            0,
        )
        &&& (match spec_inclusion_parse(&pre.sm, s) {
            Some(f) => spec_resolved_to(
                &pre.sm,
                pre.inc_dirs@,
                cur_source,
                f,
                post.streams@.last().source,
            ),
            None => false,
        })
    })
}

/// True when some registered source bears the name.
pub open spec fn sm_has(sm: &SourceManager, name: Seq<u8>) -> bool {
    exists|j: int| 0 <= j < sm@.len() && (#[trigger] sm@[j]).name@ == name
}

/// `src` is the first registered source bearing the name.
pub open spec fn sm_first(sm: &SourceManager, name: Seq<u8>, src: SourceId) -> bool {
    &&& src < sm@.len()
    &&& sm@[src as int].name@ == name
    &&& forall|j: int| 0 <= j < src ==> (#[trigger] sm@[j]).name@ != name
}

/// Index one past the last separator in `name[..upto]`, else zero.
pub open spec fn spec_dir_cut(name: Seq<u8>, upto: int) -> int
    decreases upto when 0 <= upto <= name.len()
{
    if upto <= 0 {
        0
    } else if name[upto - 1] == 47 {
        upto
    } else {
        spec_dir_cut(name, upto - 1)
    }
}

/// A directory joined with a file name, inserting a separator unless one
/// already ends the directory.
pub open spec fn spec_dir_join(dir: Seq<u8>, filename: Seq<u8>) -> Seq<u8> {
    if dir.len() > 0 && dir.last() != 47 {
        dir + seq![47u8] + filename
    } else {
        dir + filename
    }
}

/// The `k`-th candidate path for a spliced file: the directive source's
/// directory prefix first, then each search directory in order.
pub open spec fn spec_candidate(
    sm: &SourceManager,
    inc_dirs: Seq<Vec<u8>>,
    cur_source: SourceId,
    filename: Seq<u8>,
    k: int,
) -> Seq<u8> {
    if k == 0 {
        let nm = sm@[cur_source as int].name@;
        nm.subrange(0, spec_dir_cut(nm, nm.len() as int)) + filename
    } else {
        spec_dir_join(inc_dirs[k - 1]@, filename)
    }
}

/// A directive at the head of the stream that must end the iteration with
/// a fatal error: the budget is spent; the name is unknown and names no
/// macro; a define or file insertion that cannot parse or resolve; a
/// conditional directive without its name; a further arm or closer
/// without an open chain; or a removal without its name.
pub open spec fn lifted_fail(pre: Preprocessor) -> bool {
    let s = pre.raw_seq();
    let name = tok_text(&pre.sm, s[1]);
    let c = spec_classify(name);
    &&& directive_head(s)
    &&& {
        ||| pre.budget == 0
        ||| (!pre.spec_inactive() && c == Directive::Unknown && spec_find_macro(
            pre.macro_defs@,
            name,
        ) is None)
        ||| (!pre.spec_inactive() && c == Directive::Define && spec_define_parse(
            &pre.sm,
            s.skip(2),
        ) is None)
        ||| (!pre.spec_inactive() && c == Directive::Inclusion && !(
        match spec_inclusion_parse(&pre.sm, s.skip(2)) {
            Some(f) => spec_resolves(&pre.sm, pre.inc_dirs@, s[1].span.source, f),
            None => false,
        }))
        ||| ((c == Directive::Ifdef || c == Directive::Ifndef || c == Directive::Elsif)
            && no_name_after_ws(s.skip(2)))
        ||| (c == Directive::Elsif && pre.defcond_stack@.len() == 0 && !no_name_after_ws(
            s.skip(2),
        ))
        ||| ((c == Directive::Else || c == Directive::Endif) && pre.defcond_stack@.len() == 0)
        ||| (!pre.spec_inactive() && c == Directive::Undef && no_name_after_ws(s.skip(2)))
    }
}

/// One captured macro argument: the tokens to the next comma or closing
/// parenthesis at nesting depth zero, parentheses nesting by a counter.
/// Yields whether the close ended the list and the index past the
/// delimiter; the end of input fails.
pub open spec fn spec_capture(s: Seq<Token>, i: int, depth: int) -> Option<(bool, int)>
    decreases s.len() - i when 0 <= i <= s.len()
{
    if i >= s.len() {
        None
    } else if (s[i].kind matches CatTokenKind::Symbol(',')) && depth == 0 {
        Some((false, i + 1))
    } else if (s[i].kind matches CatTokenKind::Symbol(')')) && depth == 0 {
        Some((true, i + 1))
    } else if (s[i].kind matches CatTokenKind::Symbol('(')) {
        spec_capture(s, i + 1, depth + 1)
    } else if (s[i].kind matches CatTokenKind::Symbol(')')) {
        spec_capture(s, i + 1, depth - 1)
    } else {
        spec_capture(s, i + 1, depth)
    }
}

/// A well-formed macro parameter list from `i` (just inside the opening
/// parenthesis) for `remaining` declared formals: argument captures
/// separated by depth-zero commas, ending at the depth-zero close before
/// the formals run out. Yields the index past the close.
pub open spec fn spec_params_ok(s: Seq<Token>, i: int, remaining: int) -> Option<int>
    decreases s.len() - i when 0 <= i <= s.len()
{
    if remaining <= 0 {
        None
    } else {
        match spec_capture(s, i, 0) {
            Some(c) => if c.0 {
                Some(c.1)
            } else if c.1 <= i || c.1 > s.len() {
                None
            } else {
                spec_params_ok(s, c.1, remaining - 1)
            },
            None => None,
        }
    }
}

/// One captured macro argument with its content: the tokens to the next
/// depth-zero comma or close, the depth-changing parentheses themselves
/// dropped from the capture.
pub open spec fn spec_capture_content(s: Seq<Token>, i: int, depth: int) -> Option<
    (Seq<Token>, bool, int),
>
    decreases s.len() - i when 0 <= i <= s.len()
{
    if i >= s.len() {
        None
    } else if (s[i].kind matches CatTokenKind::Symbol(',')) && depth == 0 {
        Some((Seq::empty(), false, i + 1))
    } else if (s[i].kind matches CatTokenKind::Symbol(')')) && depth == 0 {
        Some((Seq::empty(), true, i + 1))
    } else if (s[i].kind matches CatTokenKind::Symbol('(')) {
        spec_capture_content(s, i + 1, depth + 1)
    } else if (s[i].kind matches CatTokenKind::Symbol(')')) {
        spec_capture_content(s, i + 1, depth - 1)
    } else {
        match spec_capture_content(s, i + 1, depth) {
            Some(cc) => Some((seq![s[i]] + cc.0, cc.1, cc.2)),
            None => None,
        }
    }
}

/// The captured argument sequences of a whole parameter list, one per
/// comma- or close-delimited argument, up to `remaining` of them.
pub open spec fn spec_captures(s: Seq<Token>, i: int, remaining: int) -> Option<
    (Seq<Seq<Token>>, int),
>
    decreases s.len() - i when 0 <= i <= s.len()
{
    if remaining <= 0 {
        None
    } else {
        match spec_capture_content(s, i, 0) {
            Some(cc) => if cc.1 {
                Some((seq![cc.0], cc.2))
            } else if cc.2 <= i || cc.2 > s.len() {
                None
            } else {
                match spec_captures(s, cc.2, remaining - 1) {
                    Some(rest) => Some((seq![cc.0] + rest.0, rest.1)),
                    None => None,
                }
            },
            None => None,
        }
    }
}

/// The first of the `bound` leading formal names equal to `text`.
pub open spec fn spec_formal_index(formals: Seq<Seq<u8>>, bound: int, text: Seq<u8>, j: int) -> Option<int>
    decreases bound - j when 0 <= j && j <= bound
{
    if j >= bound {
        None
    } else if formals[j] == text {
        Some(j)
    } else {
        spec_formal_index(formals, bound, text, j + 1)
    }
}

/// The played-back body of a macro use with formals: each text token whose
/// extracted text equals one of the captured formals is replaced by that
/// formal's captured sequence; every other token is kept verbatim, in
/// body order.
pub open spec fn spec_substitute(
    sm: &SourceManager,
    body: Seq<Token>,
    formals: Seq<Seq<u8>>,
    caps: Seq<Seq<Token>>,
    bi: int,
) -> Seq<Token>
    decreases body.len() - bi when 0 <= bi <= body.len()
{
    if bi >= body.len() {
        Seq::empty()
    } else {
        let rest = spec_substitute(sm, body, formals, caps, bi + 1);
        if body[bi].kind is Text {
            match spec_formal_index(formals, caps.len() as int, tok_text(sm, body[bi]), 0) {
                Some(j) => caps[j] + rest,
                None => seq![body[bi]] + rest,
            }
        } else {
            seq![body[bi]] + rest
        }
    }
}

/// A raw stream that begins with a directive: a backtick then a name.
pub open spec fn directive_head(s: Seq<Token>) -> bool {
    s.len() >= 2 && (s[0].kind matches CatTokenKind::Symbol('`')) && s[1].kind is Text
}

/// No name token follows (after at most one whitespace token).
pub open spec fn no_name_after_ws(s: Seq<Token>) -> bool {
    !(after_ws(s) < s.len() && s[after_ws(s)].kind is Text)
}

/// A preprocessor for one root source.
///
/// Construct one with [`Preprocessor::new`], then pull tokens with
/// [`Preprocessor::next_token`] until it yields `None` or a fatal error.
#[derive(Debug)]
pub struct Preprocessor {
    /// Owns the bytes of every source; pins them for the life of the
    /// preprocessor so that every emitted span stays valid.
    pub sm: SourceManager,
    /// The stack of input streams; the last entry supplies the next token.
    pub streams: Vec<Stream>,
    /// The defined macros; names are unique.
    pub macro_defs: Vec<MacroDef>,
    /// Pending macro-body tokens, last to be returned first.
    pub macro_stack: Vec<Token>,
    /// Directories searched for inserted files, after the directory of the
    /// source holding the directive.
    pub inc_dirs: Vec<Vec<u8>>,
    /// The conditional-compilation stack.
    pub defcond_stack: Vec<Defcond>,
    /// How many more directives may be handled.
    pub budget: usize,
}

impl Preprocessor {
    /// Every token held anywhere points into a registered source, cursors
    /// are in bounds, and macro names are unique.
    pub open spec fn wf(&self) -> bool {
        &&& forall|i: int|
            0 <= i < self.streams@.len() ==> stream_ok(&self.sm, #[trigger] self.streams@[i])
        &&& toks_ok(&self.sm, self.macro_stack@)
        &&& forall|i: int|
            0 <= i < self.macro_defs@.len() ==> toks_ok(
                &self.sm,
                #[trigger] self.macro_defs@[i].body@,
            )
        &&& forall|i: int, j: int|
            0 <= i < j < self.macro_defs@.len() ==> #[trigger] self.macro_defs@[i].name@
                != #[trigger] self.macro_defs@[j].name@
    }

    /// True while the top of the conditional stack disables the region.
    pub open spec fn spec_inactive(&self) -> bool {
        self.defcond_stack@.len() > 0 && self.defcond_stack@.last() != Defcond::Enabled
    }

    /// A state in which no directive can ever fire: one stream, no pending
    /// macro tokens, no open conditionals, and no backtick token anywhere.
    pub open spec fn plain_single(&self) -> bool {
        &&& self.macro_stack@.len() == 0
        &&& self.defcond_stack@.len() == 0
        &&& self.streams@.len() == 1
        &&& no_backtick(self.streams@[0].toks@)
    }

    /// Pending macro tokens plus unread stream tokens.
    pub open spec fn raw_measure(&self) -> int {
        self.macro_stack@.len() + streams_remaining(self.streams@)
    }

    /// The raw tokens still to be read, in reading order: the pending
    /// macro-playback tokens (pushed in reverse, so reversed here), then
    /// the unread stream tokens.
    pub open spec fn raw_seq(&self) -> Seq<Token> {
        self.macro_stack@.reverse() + streams_seq(self.streams@)
    }

    /// The parts of the state that raw reading never touches.
    pub open spec fn frame_raw(&self, other: &Self) -> bool {
        &&& self.sm == other.sm
        &&& self.macro_defs == other.macro_defs
        &&& self.inc_dirs == other.inc_dirs
        &&& self.defcond_stack == other.defcond_stack
        &&& self.budget == other.budget
    }

    /// True while the top of the conditional stack disables the region.
    fn is_inactive(&self) -> (r: bool)
        ensures
            r == self.spec_inactive(),
    {
        if self.defcond_stack.len() == 0 {
            false
        } else {
            let c = self.defcond_stack[self.defcond_stack.len() - 1];
            c != Defcond::Enabled
        }
    }

    /// Read the next raw token while tracking a ghost cursor into the raw
    /// sequence `s` as it stood when reading began.
    fn read_next(&mut self, Ghost(s): Ghost<Seq<Token>>, Ghost(idx): Ghost<int>) -> (res: (
        Option<Token>,
        Ghost<int>,
    ))
        requires
            old(self).wf(),
            0 <= idx < s.len(),
            old(self).raw_seq() =~= s.skip(idx + 1),
        ensures
            final(self).wf(),
            final(self).frame_raw(old(self)),
            res.1@ == idx + 1,
            cursor_at(s, idx + 1, res.0, final(self)),
            final(self).raw_measure() <= old(self).raw_measure(),
            0 <= final(self).raw_measure(),
            res.0 is Some ==> final(self).raw_measure() < old(self).raw_measure(),
            (match res.0 {
                Some(t) => final(self).sm.spec_span_valid(t.span) && old(self).raw_seq().contains(
                    t,
                ),
                None => true,
            }),
            forall|x: Token|
                final(self).raw_seq().contains(x) ==> old(self).raw_seq().contains(x),
            final(self).macro_stack@.len() <= old(self).macro_stack@.len(),
            forall|k: int|
                0 <= k < final(self).macro_stack@.len() ==> #[trigger] final(self).macro_stack@[k]
                    == old(self).macro_stack@[k],
    {
        proof {
            if idx + 1 < s.len() {
                assert(old(self).raw_seq().len() > 0);
            } else {
                assert(s.skip(idx + 1).len() == 0);
            }
        }
        let r = self.next_raw();
        proof {
            if idx + 1 < s.len() {
                assert(s.skip(idx + 1)[0] == s[idx + 1]);
                assert(old(self).raw_seq().drop_first() =~= s.skip(idx + 2));
                assert(self.raw_seq() =~= s.skip(idx + 2));
            }
        }
        (r, Ghost(idx + 1))
    }

    /// Pop the next raw token: from the pending macro stack first, else from
    /// the deepest stream, popping exhausted streams along the way.
    fn next_raw(&mut self) -> (r: Option<Token>)
        requires
            old(self).wf(),
        ensures
            final(self).wf(),
            final(self).frame_raw(old(self)),
            0 <= final(self).raw_measure() <= old(self).raw_measure(),
            match r {
                Some(t) => final(self).raw_measure() == old(self).raw_measure() - 1
                    && final(self).sm.spec_span_valid(t.span),
                None => final(self).raw_measure() == old(self).raw_measure()
                    && final(self).streams@.len() == 0 && final(self).macro_stack@.len() == 0,
            },
            old(self).macro_stack@.len() == 0 ==> final(self).macro_stack@.len() == 0,
            old(self).raw_seq().len() == 0 ==> r is None,
            old(self).raw_seq().len() > 0 ==> r == Some(old(self).raw_seq()[0])
                && final(self).raw_seq() =~= old(self).raw_seq().drop_first(),
            r is None ==> final(self).raw_seq().len() == 0,
            (match r {
                Some(t) => old(self).raw_seq().contains(t),
                None => true,
            }),
            forall|x: Token|
                final(self).raw_seq().contains(x) ==> old(self).raw_seq().contains(x),
            final(self).macro_stack@.len() <= old(self).macro_stack@.len(),
            forall|k: int|
                0 <= k < final(self).macro_stack@.len() ==> #[trigger] final(self).macro_stack@[k]
                    == old(self).macro_stack@[k],
            ({
                // In a single-stream state the next token, if any, is the one
                // under the cursor, and only the cursor moves.
                let ss = old(self).streams@;
                (old(self).macro_stack@.len() == 0 && ss.len() == 1) ==> {
                    let st = ss[0];
                    if st.pos < st.toks@.len() {
                        r == Some(st.toks@[st.pos as int]) && final(self).streams@ =~= seq![
                            Stream { source: st.source, toks: st.toks, pos: (st.pos + 1) as usize },
                        ]
                    } else {
                        r == None::<Token> && final(self).streams@.len() == 0
                    }
                }
            }),
    {
        proof {
            lemma_streams_remaining_nonneg(&self.sm, self.streams@);
        }
        proof {
            lemma_streams_seq_len(&self.sm, self.streams@);
        }
        match self.macro_stack.pop() {
            Some(t) => {
                proof {
                    let s0 = old(self).macro_stack@;
                    assert(old(self).raw_seq()[0] == s0.reverse()[0]);
                    assert(s0.reverse()[0] == s0.last());
                    assert(self.macro_stack@ =~= s0.drop_last());
                    assert forall|i: int|
                        0 <= i < self.raw_seq().len() implies #[trigger] self.raw_seq()[i] == old(self).raw_seq().drop_first()[i] by {
                        if i < s0.len() - 1 {
                            assert(self.raw_seq()[i] == s0.drop_last().reverse()[i]);
                            assert(s0.drop_last().reverse()[i] == s0[s0.len() - 2 - i]);
                            assert(old(self).raw_seq()[i + 1] == s0.reverse()[i + 1]);
                        }
                    }
                    assert(self.raw_seq() =~= old(self).raw_seq().drop_first());
                    assert(old(self).raw_seq().contains(t)) by {
                        assert(old(self).raw_seq()[0] == t);
                    }
                    assert forall|x: Token|
                        self.raw_seq().contains(x) implies old(self).raw_seq().contains(x) by {
                        let ix = choose|ix: int|
                            0 <= ix < self.raw_seq().len() && self.raw_seq()[ix] == x;
                        assert(old(self).raw_seq()[ix + 1] == x);
                    }
                }
                return Some(t);
            },
            None => {},
        }
        while self.streams.len() > 0
            invariant
                self.wf(),
                self.macro_stack@.len() == 0,
                self.sm == old(self).sm,
                self.macro_defs == old(self).macro_defs,
                self.inc_dirs == old(self).inc_dirs,
                self.defcond_stack == old(self).defcond_stack,
                self.budget == old(self).budget,
                old(self).macro_stack@.len() == 0,
                self.raw_measure() == old(self).raw_measure(),
                self.streams@.len() <= old(self).streams@.len(),
                self.streams@ =~= old(self).streams@.subrange(0, self.streams@.len() as int),
                old(self).streams@.len() == 1 && self.streams@.len() == 1 ==> self.streams@
                    =~= old(self).streams@,
                old(self).streams@.len() == 1 && self.streams@.len() == 0 ==> old(self).streams@[0].pos == old(self).streams@[0].toks@.len(),
                self.raw_seq() =~= old(self).raw_seq(),
            decreases self.streams@.len(),
        {
            let top = self.streams.len() - 1;
            let ghost pre = self.streams@;
            if self.streams[top].pos < self.streams[top].toks.len() {
                let mut st = match self.streams.pop() {
                    Some(st) => st,
                    None => {
                        proof {
                            assert(false);
                        }
                        return None;
                    },
                };
                let t = st.toks[st.pos];
                st.pos = st.pos + 1;
                self.streams.push(st);
                proof {
                    assert(self.streams@.drop_last() =~= pre.drop_last());
                    lemma_streams_remaining_nonneg(&self.sm, pre.drop_last());
                    assert(streams_remaining(self.streams@) == streams_remaining(pre) - 1);
                    let top = pre.last();
                    assert(self.macro_stack@.reverse().len() == 0);
                    assert(streams_seq(pre)[0] == stream_rest(top)[0]);
                    assert(stream_rest(top)[0] == t);
                    assert(stream_rest(self.streams@.last()) =~= stream_rest(top).drop_first());
                    assert forall|i: int|
                        0 <= i < streams_seq(self.streams@).len() implies #[trigger] streams_seq(
                        self.streams@,
                    )[i] == streams_seq(pre).drop_first()[i] by {
                        if i < stream_rest(top).len() - 1 {
                            assert(streams_seq(self.streams@)[i] == stream_rest(top)[i + 1]);
                        } else {
                            assert(streams_seq(self.streams@)[i] == streams_seq(
                                self.streams@.drop_last(),
                            )[i - (stream_rest(top).len() - 1)]);
                        }
                    }
                    assert(streams_seq(self.streams@) =~= streams_seq(pre).drop_first());
                    assert(self.raw_seq() =~= streams_seq(self.streams@));
                    assert(old(self).raw_seq()[0] == t);
                    assert(self.raw_seq() =~= old(self).raw_seq().drop_first());
                    assert(old(self).raw_seq().contains(t)) by {
                        assert(old(self).raw_seq()[0] == t);
                    }
                    assert forall|x: Token|
                        self.raw_seq().contains(x) implies old(self).raw_seq().contains(x) by {
                        let ix = choose|ix: int|
                            0 <= ix < self.raw_seq().len() && self.raw_seq()[ix] == x;
                        assert(old(self).raw_seq()[ix + 1] == x);
                    }
                    if old(self).streams@.len() == 1 {
                        assert(self.streams@ =~= seq![
                            Stream {
                                source: old(self).streams@[0].source,
                                toks: old(self).streams@[0].toks,
                                pos: (old(self).streams@[0].pos + 1) as usize,
                            },
                        ]);
                    }
                }
                return Some(t);
            } else {
                let _ = self.streams.pop();
                proof {
                    assert(self.streams@ =~= pre.drop_last());
                    assert(streams_remaining(pre) == streams_remaining(pre.drop_last()));
                    assert(self.streams@ =~= old(self).streams@.subrange(
                        0,
                        self.streams@.len() as int,
                    ));
                    assert(stream_rest(pre.last()).len() == 0);
                    assert(streams_seq(pre) =~= streams_seq(pre.drop_last()));
                }
            }
        }
        proof {
            assert(self.raw_seq().len() == 0);
        }
        None
    }
}

/// When `i` is the first index bearing `name`, the lookup returns that
/// definition.
pub proof fn lemma_find_macro_some(defs: Seq<MacroDef>, name: Seq<u8>, i: int)
    requires
        0 <= i < defs.len(),
        defs[i].name@ == name,
        forall|j: int| 0 <= j < i ==> #[trigger] defs[j].name@ != name,
    ensures
        spec_find_macro(defs, name) == Some(defs[i]),
    decreases defs.len(),
{
    if i > 0 {
        let rest = defs.drop_first();
        assert(rest[i - 1] == defs[i]);
        assert forall|j: int| 0 <= j < i - 1 implies #[trigger] rest[j].name@ != name by {
            assert(rest[j] == defs[j + 1]);
        }
        lemma_find_macro_some(rest, name, i - 1);
    }
}

/// When no definition bears `name`, the lookup returns nothing.
pub proof fn lemma_find_macro_none(defs: Seq<MacroDef>, name: Seq<u8>)
    requires
        forall|j: int| 0 <= j < defs.len() ==> #[trigger] defs[j].name@ != name,
    ensures
        spec_find_macro(defs, name) is None,
    decreases defs.len(),
{
    if defs.len() > 0 {
        let rest = defs.drop_first();
        assert forall|j: int| 0 <= j < rest.len() implies #[trigger] rest[j].name@ != name by {
            assert(rest[j] == defs[j + 1]);
        }
        lemma_find_macro_none(rest, name);
    }
}

/// A failed lookup means no definition bears the name.
#[verifier::spinoff_prover]
#[verifier::rlimit(100)]
pub proof fn lemma_find_macro_none_inv(defs: Seq<MacroDef>, name: Seq<u8>)
    requires
        spec_find_macro(defs, name) is None,
    ensures
        forall|j: int| 0 <= j < defs.len() ==> #[trigger] defs[j].name@ != name,
    decreases defs.len(),
{
    if defs.len() > 0 {
        let rest = defs.drop_first();
        lemma_find_macro_none_inv(rest, name);
        assert forall|j: int| 0 <= j < defs.len() implies #[trigger] defs[j].name@ != name by {
            if j > 0 {
                assert(rest[j - 1] == defs[j]);
            }
        }
    }
}

/// The first index bearing `name`, given that some index does.
#[verifier::spinoff_prover]
#[verifier::rlimit(100)]
pub proof fn lemma_first_match(defs: Seq<MacroDef>, name: Seq<u8>) -> (i: int)
    requires
        exists|j: int| 0 <= j < defs.len() && #[trigger] defs[j].name@ == name,
    ensures
        0 <= i < defs.len(),
        defs[i].name@ == name,
        forall|j: int| 0 <= j < i ==> #[trigger] defs[j].name@ != name,
    decreases defs.len(),
{
    if defs[0].name@ == name {
        0
    } else {
        let rest = defs.drop_first();
        let j0 = choose|j: int| 0 <= j < defs.len() && #[trigger] defs[j].name@ == name;
        assert(rest[j0 - 1] == defs[j0]);
        let k = lemma_first_match(rest, name);
        assert(rest[k] == defs[k + 1]);
        assert forall|j: int| 0 <= j < k + 1 implies #[trigger] defs[j].name@ != name by {
            if j > 0 {
                assert(rest[j - 1] == defs[j]);
            }
        }
        k + 1
    }
}

impl Preprocessor {
    /// The parts of the state that macro-table operations never touch.
    pub open spec fn frame_table(&self, other: &Self) -> bool {
        &&& self.sm == other.sm
        &&& self.streams == other.streams
        &&& self.macro_stack == other.macro_stack
        &&& self.inc_dirs == other.inc_dirs
        &&& self.defcond_stack == other.defcond_stack
        &&& self.budget == other.budget
    }

    /// Index of the definition bearing `name`, if any.
    #[verifier::spinoff_prover]
    #[verifier::rlimit(100)]
    fn find_macro(&self, name: &Vec<u8>) -> (r: Option<usize>)
        ensures
            match r {
                Some(i) => i < self.macro_defs@.len() && self.macro_defs@[i as int].name@ == name@
                    && spec_find_macro(self.macro_defs@, name@) == Some(self.macro_defs@[i as int])
                    && forall|j: int| 0 <= j < i ==> #[trigger] self.macro_defs@[j].name@ != name@,
                None => spec_find_macro(self.macro_defs@, name@) is None,
            },
    {
        let mut i: usize = 0;
        while i < self.macro_defs.len()
            invariant
                i <= self.macro_defs@.len(),
                forall|j: int| 0 <= j < i ==> #[trigger] self.macro_defs@[j].name@ != name@,
            decreases self.macro_defs@.len() - i,
        {
            if crate::source::bytes_eq(&self.macro_defs[i].name, name) {
                proof {
                    lemma_find_macro_some(self.macro_defs@, name@, i as int);
                }
                return Some(i);
            }
            i = i + 1;
        }
        proof {
            assert forall|j: int|
                0 <= j < self.macro_defs@.len() implies #[trigger] self.macro_defs@[j].name@
                != name@ by {
                assert(0 <= j < i);
            }
            lemma_find_macro_none(self.macro_defs@, name@);
        }
        None
    }

    /// Is a macro with the given name currently defined?
    pub fn is_defined(&self, name: &Vec<u8>) -> (r: bool)
        ensures
            r == (spec_find_macro(self.macro_defs@, name@) is Some),
    {
        self.find_macro(name).is_some()
    }

    /// Define a macro, replacing any prior definition of the same name.
    ///
    /// Later uses of the name see `m`; definitions under other names are
    /// untouched. Prior expansions are token values already handed out and
    /// stay as they were.
    #[verifier::rlimit(100)]
    #[verifier::spinoff_prover]
    pub fn define_macro(&mut self, m: MacroDef)
        requires
            old(self).wf(),
            toks_ok(&old(self).sm, m.body@),
        ensures
            final(self).wf(),
            final(self).frame_table(old(self)),
            spec_find_macro(final(self).macro_defs@, m.name@) == Some(m),
            forall|n: Seq<u8>|
                n != m.name@ ==> #[trigger] spec_find_macro(final(self).macro_defs@, n)
                    == spec_find_macro(old(self).macro_defs@, n),
    {
        let idx = self.find_macro(&m.name);
        let ghost pre = self.macro_defs@;
        let ghost mname = m.name@;
        match idx {
            Some(i) => {
                self.macro_defs[i] = m;
                proof {
                    let post = self.macro_defs@;
                    assert forall|ii: int| 0 <= ii < post.len() implies toks_ok(
                        &self.sm,
                        #[trigger] post[ii].body@,
                    ) by {
                        assert(self.sm == old(self).sm);
                        if ii != i {
                            assert(post[ii] == pre[ii]);
                            assert(toks_ok(&old(self).sm, old(self).macro_defs@[ii].body@));
                        } else {
                            assert(post[ii].body@ == m.body@);
                            assert(toks_ok(&old(self).sm, m.body@));
                        }
                    }
                    lemma_find_macro_some(post, mname, i as int);
                    assert forall|n: Seq<u8>| n != mname implies #[trigger] spec_find_macro(
                        post,
                        n,
                    ) == spec_find_macro(pre, n) by {
                        lemma_define_frame(pre, post, i as int, n);
                    }
                }
            },
            None => {
                self.macro_defs.push(m);
                proof {
                    let post = self.macro_defs@;
                    assert forall|ii: int| 0 <= ii < post.len() implies toks_ok(
                        &self.sm,
                        #[trigger] post[ii].body@,
                    ) by {
                        assert(self.sm == old(self).sm);
                        if ii < pre.len() {
                            assert(post[ii] == pre[ii]);
                            assert(toks_ok(&old(self).sm, old(self).macro_defs@[ii].body@));
                        } else {
                            assert(post[ii].body@ == m.body@);
                            assert(toks_ok(&old(self).sm, m.body@));
                        }
                    }
                    lemma_find_macro_none_inv(pre, mname);
                    assert forall|j: int| 0 <= j < pre.len() implies #[trigger] post[j].name@
                        != mname by {
                        assert(post[j] == pre[j]);
                    }
                    lemma_find_macro_some(post, mname, pre.len() as int);
                    assert forall|n: Seq<u8>| n != mname implies #[trigger] spec_find_macro(
                        post,
                        n,
                    ) == spec_find_macro(pre, n) by {
                        lemma_define_frame(pre, post, pre.len() as int, n);
                    }
                }
            },
        }
    }

    /// Remove the definition bearing `name`, if one exists.
    #[verifier::rlimit(100)]
    #[verifier::spinoff_prover]
    pub fn undef_macro(&mut self, name: &Vec<u8>)
        requires
            old(self).wf(),
        ensures
            final(self).wf(),
            final(self).frame_table(old(self)),
            spec_find_macro(final(self).macro_defs@, name@) is None,
            forall|n: Seq<u8>|
                n != name@ ==> #[trigger] spec_find_macro(final(self).macro_defs@, n)
                    == spec_find_macro(old(self).macro_defs@, n),
    {
        let ghost pre = self.macro_defs@;
        let idx = self.find_macro(name);
        match idx {
            Some(i) => {
                let _ = self.macro_defs.remove(i);
                proof {
                    let post = self.macro_defs@;
                    assert forall|ii: int| 0 <= ii < post.len() implies toks_ok(
                        &self.sm,
                        #[trigger] post[ii].body@,
                    ) by {
                        assert(self.sm == old(self).sm);
                        if ii < i {
                            assert(post[ii] == pre[ii]);
                            assert(toks_ok(&old(self).sm, old(self).macro_defs@[ii].body@));
                        } else {
                            assert(post[ii] == pre[ii + 1]);
                            assert(toks_ok(&old(self).sm, old(self).macro_defs@[ii + 1].body@));
                        }
                    }
                    assert forall|k: int| 0 <= k < post.len() implies #[trigger] post[k].name@
                        != name@ by {
                        if k < i {
                            assert(post[k] == pre[k]);
                        } else {
                            assert(post[k] == pre[k + 1]);
                            assert(pre[k + 1].name@ != pre[i as int].name@);
                        }
                    }
                    lemma_find_macro_none(post, name@);
                    assert forall|n: Seq<u8>| n != name@ implies #[trigger] spec_find_macro(
                        post,
                        n,
                    ) == spec_find_macro(pre, n) by {
                        if exists|j: int| 0 <= j < pre.len() && #[trigger] pre[j].name@ == n {
                            let j0 = lemma_first_match(pre, n);
                            assert(j0 != i);
                            let j1 = if j0 < i {
                                j0
                            } else {
                                j0 - 1
                            };
                            assert(post[j1] == pre[j0]);
                            assert forall|j: int| 0 <= j < j1 implies #[trigger] post[j].name@
                                != n by {
                                if j < i {
                                    assert(post[j] == pre[j]);
                                } else {
                                    assert(post[j] == pre[j + 1]);
                                }
                            }
                            lemma_find_macro_some(post, n, j1);
                            lemma_find_macro_some(pre, n, j0);
                        } else {
                            assert forall|j: int|
                                0 <= j < post.len() implies #[trigger] post[j].name@ != n by {
                                if j < i {
                                    assert(post[j] == pre[j]);
                                } else {
                                    assert(post[j] == pre[j + 1]);
                                }
                            }
                            lemma_find_macro_none(post, n);
                            lemma_find_macro_none(pre, n);
                        }
                    }
                }
            },
            None => {},
        }
    }

    /// Remove every macro definition.
    pub fn undef_all_macros(&mut self)
        requires
            old(self).wf(),
        ensures
            final(self).wf(),
            final(self).frame_table(old(self)),
            forall|n: Seq<u8>| #[trigger] spec_find_macro(final(self).macro_defs@, n) is None,
    {
        self.macro_defs.clear();
        proof {
            assert forall|n: Seq<u8>| #[trigger] spec_find_macro(self.macro_defs@, n) is None by {
                lemma_find_macro_none(self.macro_defs@, n);
            }
        }
    }
}

/// A table changed only at index `i`, under a name other than `n`, looks the
/// same to a lookup of `n`.
#[verifier::spinoff_prover]
#[verifier::rlimit(100)]
proof fn lemma_define_frame(pre: Seq<MacroDef>, post: Seq<MacroDef>, i: int, n: Seq<u8>)
    requires
        0 <= i < post.len(),
        i <= pre.len(),
        post.len() == if i == pre.len() {
            pre.len() + 1
        } else {
            pre.len()
        },
        forall|j: int| 0 <= j < pre.len() && j != i ==> post[j] == pre[j],
        i < pre.len() ==> pre[i].name@ == post[i].name@,
        post[i].name@ != n,
    ensures
        spec_find_macro(post, n) == spec_find_macro(pre, n),
{
    if exists|j: int| 0 <= j < pre.len() && #[trigger] pre[j].name@ == n {
        let j0 = lemma_first_match(pre, n);
        assert(j0 != i);
        assert(post[j0] == pre[j0]);
        assert forall|j: int| 0 <= j < j0 implies #[trigger] post[j].name@ != n by {
            if j != i {
                assert(post[j] == pre[j]);
            }
        }
        lemma_find_macro_some(pre, n, j0);
        lemma_find_macro_some(post, n, j0);
    } else {
        assert forall|j: int| 0 <= j < post.len() implies #[trigger] post[j].name@ != n by {
            if j != i {
                assert(post[j] == pre[j]);
            }
        }
        lemma_find_macro_none(pre, n);
        lemma_find_macro_none(post, n);
    }
}

/// A copy of a token vector.
pub fn copy_tokens(a: &Vec<Token>) -> (r: Vec<Token>)
    ensures
        r@ == a@,
{
    let mut r: Vec<Token> = Vec::new();
    let mut i: usize = 0;
    while i < a.len()
        invariant
            i <= a@.len(),
            r@ == a@.subrange(0, i as int),
        decreases a@.len() - i,
    {
        r.push(a[i]);
        proof {
            assert(r@ =~= a@.subrange(0, i + 1));
        }
        i = i + 1;
    }
    proof {
        assert(r@ =~= a@);
    }
    r
}

/// Which directive a backtick name denotes, by its bytes.
pub open spec fn spec_classify(name: Seq<u8>) -> Directive {
    if name == seq![105u8, 110, 99, 108, 117, 100, 101] {
        Directive::Inclusion
    } else if name == seq![100u8, 101, 102, 105, 110, 101] {
        Directive::Define
    } else if name == seq![117u8, 110, 100, 101, 102] {
        Directive::Undef
    } else if name == seq![117u8, 110, 100, 101, 102, 105, 110, 101, 97, 108, 108] {
        Directive::UndefineAll
    } else if name == seq![105u8, 102, 100, 101, 102] {
        Directive::Ifdef
    } else if name == seq![105u8, 102, 110, 100, 101, 102] {
        Directive::Ifndef
    } else if name == seq![101u8, 108, 115, 101] {
        Directive::Else
    } else if name == seq![101u8, 108, 115, 105, 102] {
        Directive::Elsif
    } else if name == seq![101u8, 110, 100, 105, 102] {
        Directive::Endif
    } else {
        Directive::Unknown
    }
}

/// Which directive a backtick name denotes.
fn classify_directive(name: &Vec<u8>) -> (d: Directive)
    ensures
        d == spec_classify(name@),
{
    let n = name.len();
    if n == 7 && name[0] == 105 && name[1] == 110 && name[2] == 99 && name[3] == 108 && name[4] == 117 && name[5] == 100 && name[6] == 101 {
        proof {
            assert(name@ =~= seq![105u8, 110, 99, 108, 117, 100, 101]);
        }
        Directive::Inclusion
    } else if n == 6 && name[0] == 100 && name[1] == 101 && name[2] == 102 && name[3] == 105 && name[4] == 110 && name[5] == 101 {
        proof {
            assert(name@ =~= seq![100u8, 101, 102, 105, 110, 101]);
        }
        Directive::Define
    } else if n == 5 && name[0] == 117 && name[1] == 110 && name[2] == 100 && name[3] == 101 && name[4] == 102 {
        proof {
            assert(name@ =~= seq![117u8, 110, 100, 101, 102]);
        }
        Directive::Undef
    } else if n == 11 && name[0] == 117 && name[1] == 110 && name[2] == 100 && name[3] == 101 && name[4] == 102 && name[5] == 105 && name[6] == 110 && name[7] == 101 && name[8] == 97 && name[9] == 108 && name[10] == 108 {
        proof {
            assert(name@ =~= seq![117u8, 110, 100, 101, 102, 105, 110, 101, 97, 108, 108]);
        }
        Directive::UndefineAll
    } else if n == 5 && name[0] == 105 && name[1] == 102 && name[2] == 100 && name[3] == 101 && name[4] == 102 {
        proof {
            assert(name@ =~= seq![105u8, 102, 100, 101, 102]);
        }
        Directive::Ifdef
    } else if n == 6 && name[0] == 105 && name[1] == 102 && name[2] == 110 && name[3] == 100 && name[4] == 101 && name[5] == 102 {
        proof {
            assert(name@ =~= seq![105u8, 102, 110, 100, 101, 102]);
        }
        Directive::Ifndef
    } else if n == 4 && name[0] == 101 && name[1] == 108 && name[2] == 115 && name[3] == 101 {
        proof {
            assert(name@ =~= seq![101u8, 108, 115, 101]);
        }
        Directive::Else
    } else if n == 5 && name[0] == 101 && name[1] == 108 && name[2] == 115 && name[3] == 105 && name[4] == 102 {
        proof {
            assert(name@ =~= seq![101u8, 108, 115, 105, 102]);
        }
        Directive::Elsif
    } else if n == 5 && name[0] == 101 && name[1] == 110 && name[2] == 100 && name[3] == 105 && name[4] == 102 {
        proof {
            assert(name@ =~= seq![101u8, 110, 100, 105, 102]);
        }
        Directive::Endif
    } else {
        Directive::Unknown
    }
}

impl Preprocessor {
    /// A preprocessor over the given root source.
    ///
    /// The manager must already hold every source the input may splice in;
    /// its handle to the root names where reading starts. `inc_dirs` are the
    /// directories searched for spliced files after the directory of the
    /// source holding the directive.
    pub fn new(sm: SourceManager, root: SourceId, inc_dirs: Vec<Vec<u8>>) -> (r: Preprocessor)
        requires
            root < sm@.len(),
        ensures
            r.wf(),
            r.sm == sm,
            r.macro_defs@.len() == 0,
            r.macro_stack@.len() == 0,
            r.defcond_stack@.len() == 0,
            r.inc_dirs == inc_dirs,
            r.budget == DIRECTIVE_BUDGET,
            r.streams@.len() == 1,
            r.streams@[0].source == root,
            r.streams@[0].pos == 0,
            r.streams@[0].toks@ == spec_lex(sm@[root as int].content@, root, 0),
    {
        let n = sm.content_len(root);
        let content = sm.extract(Span::new(root, 0, n));
        proof {
            assert(content@ =~= sm@[root as int].content@);
        }
        let toks = lex(&content, root);
        proof {
            lemma_spec_lex_tokens(content@, root, 0);
        }
        let mut streams: Vec<Stream> = Vec::new();
        streams.push(Stream { source: root, toks, pos: 0 });
        Preprocessor {
            sm,
            streams,
            macro_defs: Vec::new(),
            macro_stack: Vec::new(),
            inc_dirs,
            defcond_stack: Vec::new(),
            budget: DIRECTIVE_BUDGET,
        }
    }

    /// The parts of the state a directive handler never touches.
    pub open spec fn frame_directive(&self, other: &Self) -> bool {
        &&& self.sm == other.sm
        &&& self.inc_dirs == other.inc_dirs
        &&& self.budget == other.budget
    }

    /// Resolve a spliced file's name against the directory of the source the
    /// directive stands in, then against each configured search directory.
    fn resolve_inclusion(&self, filename: &Vec<u8>, cur_source: SourceId) -> (r: Option<
        SourceId,
    >)
        requires
            cur_source < self.sm@.len(),
        ensures
            r matches Some(i) ==> i < self.sm@.len(),
            (filename@.len() > 0 && filename@[0] == 47) ==> (match r {
                Some(src) => sm_first(&self.sm, filename@, src),
                None => !sm_has(&self.sm, filename@),
            }),
            !(filename@.len() > 0 && filename@[0] == 47) ==> (match r {
                Some(src) => exists|k: int|
                    0 <= k < 1 + self.inc_dirs@.len() && sm_first(
                        &self.sm,
                        #[trigger] spec_candidate(
                            &self.sm,
                            self.inc_dirs@,
                            cur_source,
                            filename@,
                            k,
                        ),
                        src,
                    ) && (forall|k2: int|
                        0 <= k2 < k ==> !sm_has(
                            &self.sm,
                            #[trigger] spec_candidate(
                                &self.sm,
                                self.inc_dirs@,
                                cur_source,
                                filename@,
                                k2,
                            ),
                        )),
                None => forall|k: int|
                    0 <= k < 1 + self.inc_dirs@.len() ==> !sm_has(
                        &self.sm,
                        #[trigger] spec_candidate(
                            &self.sm,
                            self.inc_dirs@,
                            cur_source,
                            filename@,
                            k,
                        ),
                    ),
            }),
    {
        if filename.len() > 0 && filename[0] == 47 {
            // an absolute path is looked up as written
            let r = self.sm.open(filename);
            proof {
                if r is None {
                    assert forall|j: int|
                        0 <= j < self.sm@.len() implies (#[trigger] self.sm@[j]).name@
                        != filename@ by {}
                }
            }
            return r;
        }
        let ghost fnm = filename@;
        let name = self.sm.name_of(cur_source);
        let mut cut: usize = 0;
        let mut i: usize = 0;
        proof {
            assert(spec_dir_cut(name@, 0) == 0);
        }
        while i < name.len()
            invariant
                filename@.len() == 0 || filename@[0] != 47,
                cut <= i <= name@.len(),
                name@ == self.sm@[cur_source as int].name@,
                cur_source < self.sm@.len(),
                cut == spec_dir_cut(name@, i as int),
            decreases name@.len() - i,
        {
            if name[i] == 47 {
                cut = i + 1;
            }
            i = i + 1;
        }
        let mut cand: Vec<u8> = Vec::new();
        let mut k: usize = 0;
        while k < cut
            invariant
                filename@.len() == 0 || filename@[0] != 47,
                k <= cut <= name@.len(),
                name@ == self.sm@[cur_source as int].name@,
                cur_source < self.sm@.len(),
                cand@ == name@.subrange(0, k as int),
            decreases cut - k,
        {
            cand.push(name[k]);
            proof {
                assert(cand@ =~= name@.subrange(0, k + 1));
            }
            k = k + 1;
        }
        let mut fname = crate::source::clone_bytes(filename);
        cand.append(&mut fname);
        let ghost cand0 = spec_candidate(&self.sm, self.inc_dirs@, cur_source, fnm, 0);
        proof {
            assert(cand@ =~= cand0);
        }
        match self.sm.open(&cand) {
            Some(src) => {
                proof {
                    assert(sm_first(&self.sm, cand0, src));
                }
                return Some(src);
            },
            None => {},
        }
        proof {
            assert forall|j: int|
                0 <= j < self.sm@.len() implies (#[trigger] self.sm@[j]).name@ != cand0 by {}
            assert(!sm_has(&self.sm, cand0));
        }
        let mut d: usize = 0;
        while d < self.inc_dirs.len()
            invariant
                filename@.len() == 0 || filename@[0] != 47,
                d <= self.inc_dirs@.len(),
                cur_source < self.sm@.len(),
                fnm == filename@,
                forall|k2: int|
                    0 <= k2 < d + 1 ==> !sm_has(
                        &self.sm,
                        #[trigger] spec_candidate(&self.sm, self.inc_dirs@, cur_source, fnm, k2),
                    ),
            decreases self.inc_dirs@.len() - d,
        {
            let mut cand = crate::source::clone_bytes(&self.inc_dirs[d]);
            if cand.len() > 0 && cand[cand.len() - 1] != 47 {
                cand.push(47);
            }
            let mut fname = crate::source::clone_bytes(filename);
            cand.append(&mut fname);
            let ghost candk = spec_candidate(&self.sm, self.inc_dirs@, cur_source, fnm, d + 1);
            proof {
                assert(cand@ =~= candk);
            }
            match self.sm.open(&cand) {
                Some(src) => {
                    proof {
                        assert(sm_first(&self.sm, candk, src));
                    }
                    return Some(src);
                },
                None => {},
            }
            proof {
                assert forall|j: int|
                    0 <= j < self.sm@.len() implies (#[trigger] self.sm@[j]).name@ != candk by {}
                assert(!sm_has(&self.sm, candk));
            }
            d = d + 1;
        }
        None
    }

    /// Splice a file: read the quoted name, resolve it, and push its token
    /// stream so the next raw token comes from the spliced file.
    #[verifier::rlimit(100)]
    #[verifier::spinoff_prover]
    fn handle_inclusion(&mut self, dir_span: Span) -> (r: Result<(), PreprocError>)
        requires
            old(self).wf(),
            dir_span.source < old(self).sm@.len(),
        ensures
            final(self).wf(),
            final(self).frame_directive(old(self)),
            final(self).macro_defs == old(self).macro_defs,
            final(self).defcond_stack == old(self).defcond_stack,
            inclusion_effect(*old(self), *final(self), r, dir_span.source),
    {
        proof {
            reveal(inclusion_effect);
        }
        let ghost s = old(self).raw_seq();
        proof {
            assert(s.drop_first() =~= s.skip(1));
        }
        let mut cur = self.next_raw();
        let ghost mut idx: int = 0;
        proof {
            assert(cursor_at(s, 0, cur, self));
        }
        match cur {
            Some(t) => {
                if matches!(t.kind, CatTokenKind::Whitespace) {
                    let rr = self.read_next(Ghost(s), Ghost(idx));
                    cur = rr.0;
                    proof {
                        idx = rr.1@;
                    }
                }
            },
            None => {},
        }
        let ghost i = after_ws(s);
        proof {
            assert(idx == i);
            assert(cursor_at(s, i, cur, self));
        }
        let closing: u8;
        let open_span: Span;
        match cur {
            Some(t) => {
                match t.kind {
                    CatTokenKind::Symbol(c) => {
                        if c == '"' {
                            closing = 34;
                            open_span = t.span;
                        } else if c == '<' {
                            closing = 62;
                            open_span = t.span;
                        } else {
                            return Err(
                                PreprocError {
                                    kind: PreprocErrorKind::ExpectedFilename,
                                    span: Some(dir_span),
                                },
                            );
                        }
                    },
                    _ => {
                        return Err(
                            PreprocError {
                                kind: PreprocErrorKind::ExpectedFilename,
                                span: Some(dir_span),
                            },
                        );
                    },
                }
            },
            None => {
                return Err(
                    PreprocError { kind: PreprocErrorKind::ExpectedFilename, span: Some(dir_span) },
                );
            },
        }
        let ghost fb = i + 1;
        proof {
            assert(i < s.len());
            assert((s[i].kind matches CatTokenKind::Symbol('"') && closing == 34) || (
            s[i].kind matches CatTokenKind::Symbol('<') && closing == 62));
            assert(spec_inclusion_parse(&old(self).sm, s) == spec_fname(
                &old(self).sm,
                s,
                fb,
                closing,
            ));
        }
        let rr = self.read_next(Ghost(s), Ghost(idx));
        cur = rr.0;
        proof {
            idx = rr.1@;
        }
        let mut filename: Vec<u8> = Vec::new();
        let mut close_span: Span = dir_span;
        loop
            invariant
                self.wf(),
                self.frame_directive(old(self)),
                self.macro_defs == old(self).macro_defs,
                self.defcond_stack == old(self).defcond_stack,
                s == old(self).raw_seq(),
                dir_span.source < self.sm@.len(),
                i == after_ws(s),
                i < s.len(),
                spec_inclusion_parse(&old(self).sm, s) == spec_fname(
                    &old(self).sm,
                    s,
                    fb,
                    closing,
                ),
                fb == i + 1,
                fb <= idx <= s.len(),
                cursor_at(s, idx, cur, self),
                (match cur {
                    Some(t) => self.sm.spec_span_valid(t.span),
                    None => true,
                }),
                (match spec_fname(&old(self).sm, s, idx, closing) {
                    Some(rest) => spec_fname(&old(self).sm, s, fb, closing) == Some(
                        filename@ + rest,
                    ),
                    None => spec_fname(&old(self).sm, s, fb, closing) is None,
                }),
            ensures
                self.wf(),
                self.frame_directive(old(self)),
                self.macro_defs == old(self).macro_defs,
                self.defcond_stack == old(self).defcond_stack,
                dir_span.source < self.sm@.len(),
                spec_inclusion_parse(&old(self).sm, s) == Some(filename@),
            decreases self.raw_measure(), (match cur {
                Some(_) => 1int,
                None => 0int,
            }),
        {
            proof {
                reveal(inclusion_effect);
            }
            match cur {
                Some(t) => {
                    let is_close = match t.kind {
                        CatTokenKind::Symbol(c) => c as u8 == closing && (c as u32) < 256,
                        _ => false,
                    };
                    proof {
                        assert(idx < s.len());
                        assert(s[idx as int] == t);
                        assert(is_close == is_close_tok(s[idx as int].kind, closing));
                    }
                    if is_close {
                        close_span = t.span;
                        proof {
                            lemma_fname_stop(&old(self).sm, s, idx, closing);
                            assert(filename@ + Seq::<u8>::empty() =~= filename@);
                        }
                        break;
                    }
                    if matches!(t.kind, CatTokenKind::Newline) {
                        proof {
                            lemma_fname_stop(&old(self).sm, s, idx, closing);
                        }
                        return Err(
                            PreprocError {
                                kind: PreprocErrorKind::FilenameBeforeLineBreak,
                                span: Some(t.span),
                            },
                        );
                    }
                    let ghost pre_f = filename@;
                    proof {
                        lemma_fname_step(&old(self).sm, s, idx, closing);
                    }
                    let mut piece = self.sm.extract(t.span);
                    let ghost piecev = piece@;
                    filename.append(&mut piece);
                    proof {
                        assert(piecev == tok_text(&old(self).sm, s[idx as int]));
                        assert(filename@ =~= pre_f + piecev);
                    }
                    let rr = self.read_next(Ghost(s), Ghost(idx));
                    cur = rr.0;
                    proof {
                        idx = rr.1@;
                        assert(match spec_fname(&old(self).sm, s, idx, closing) {
                            Some(rest) => pre_f + (piecev + rest) =~= filename@ + rest,
                            None => true,
                        });
                    }
                },
                None => {
                    proof {
                        assert(idx == s.len());
                        lemma_fname_stop(&old(self).sm, s, idx, closing);
                    }
                    return Err(
                        PreprocError {
                            kind: PreprocErrorKind::FilenameBeforeEndOfInput,
                            span: Some(dir_span),
                        },
                    );
                },
            }
        }
        let src = match self.resolve_inclusion(&filename, dir_span.source) {
            Some(src) => src,
            None => {
                proof {
                    assert(!spec_resolves(
                        &old(self).sm,
                        old(self).inc_dirs@,
                        dir_span.source,
                        filename@,
                    ));
                }
                let sp = if open_span.source == close_span.source {
                    Span { source: open_span.source, begin: open_span.end, end: close_span.begin }
                } else {
                    dir_span
                };
                return Err(PreprocError { kind: PreprocErrorKind::CannotOpenFile, span: Some(sp) });
            },
        };
        proof {
            assert(spec_resolved_to(
                &old(self).sm,
                old(self).inc_dirs@,
                dir_span.source,
                filename@,
                src,
            ));
            assert(spec_resolves(
                &old(self).sm,
                old(self).inc_dirs@,
                dir_span.source,
                filename@,
            ));
        }
        let n = self.sm.content_len(src);
        let content = self.sm.extract(Span::new(src, 0, n));
        proof {
            assert(content@ =~= self.sm@[src as int].content@);
        }
        let toks = lex(&content, src);
        proof {
            lemma_spec_lex_tokens(content@, src, 0);
        }
        self.streams.push(Stream { source: src, toks, pos: 0 });
        Ok(())
    }
}

/// [`spec_formal_index`] looks only at the first `bound` entries, so equal
/// prefixes agree.
pub proof fn lemma_formal_index_prefix(
    f1: Seq<Seq<u8>>,
    f2: Seq<Seq<u8>>,
    bound: int,
    text: Seq<u8>,
    j: int,
)
    requires
        0 <= j <= bound,
        bound <= f1.len(),
        bound <= f2.len(),
        forall|k: int| 0 <= k < bound ==> f1[k] == f2[k],
    ensures
        spec_formal_index(f1, bound, text, j) == spec_formal_index(f2, bound, text, j),
    decreases bound - j,
{
    if j < bound && f1[j] != text {
        lemma_formal_index_prefix(f1, f2, bound, text, j + 1);
    }
}

/// Index of the first name in `names` equal to `wanted`.
fn lookup_name(names: &Vec<Vec<u8>>, wanted: &Vec<u8>) -> (r: Option<usize>)
    ensures
        r matches Some(i) ==> i < names@.len(),
        ({
            let fs = names@.map_values(|v: Vec<u8>| v@);
            match (r, spec_formal_index(fs, fs.len() as int, wanted@, 0)) {
                (Some(a), Some(b)) => a == b,
                (None, None) => true,
                _ => false,
            }
        }),
{
    let ghost fs = names@.map_values(|v: Vec<u8>| v@);
    let mut i: usize = 0;
    while i < names.len()
        invariant
            i <= names@.len(),
            fs == names@.map_values(|v: Vec<u8>| v@),
            spec_formal_index(fs, fs.len() as int, wanted@, 0) == spec_formal_index(
                fs,
                fs.len() as int,
                wanted@,
                i as int,
            ),
        decreases names@.len() - i,
    {
        if crate::source::bytes_eq(&names[i], wanted) {
            proof {
                assert(fs[i as int] == names@[i as int]@);
            }
            return Some(i);
        }
        proof {
            assert(fs[i as int] == names@[i as int]@);
        }
        i = i + 1;
    }
    None
}

impl Preprocessor {
    /// Define a macro from the tokens after the directive: a name, an
    /// optional parenthesised formal-argument list that must follow the name
    /// without intervening whitespace, and a body running to the first
    /// newline not preceded by a backslash.
    #[verifier::rlimit(100)]
    #[verifier::spinoff_prover]
    fn handle_define(&mut self, dir_span: Span) -> (r: Result<(), PreprocError>)
        requires
            old(self).wf(),
        ensures
            final(self).wf(),
            final(self).frame_directive(old(self)),
            final(self).defcond_stack == old(self).defcond_stack,
            r is Err ==> final(self).macro_defs == old(self).macro_defs,
            define_effect(*old(self), *final(self), r),
    {
        proof {
            reveal(define_effect);
        }
        let ghost s = old(self).raw_seq();
        proof {
            assert(s.drop_first() =~= s.skip(1));
        }
        let mut cur = self.next_raw();
        let ghost mut idx: int = 0;
        proof {
            assert(cursor_at(s, 0, cur, self));
        }
        match cur {
            Some(t) => {
                if matches!(t.kind, CatTokenKind::Whitespace) {
                    let rr = self.read_next(Ghost(s), Ghost(idx));
                    cur = rr.0;
                    proof {
                        idx = rr.1@;
                    }
                }
            },
            None => {},
        }
        let ghost i = after_ws(s);
        proof {
            assert(idx == i);
            assert(cursor_at(s, i, cur, self));
        }
        let name: Vec<u8>;
        let name_span: Span;
        match cur {
            Some(t) => {
                if matches!(t.kind, CatTokenKind::Text) {
                    name = self.sm.extract(t.span);
                    name_span = t.span;
                } else {
                    return Err(
                        PreprocError {
                            kind: PreprocErrorKind::ExpectedMacroName,
                            span: Some(dir_span),
                        },
                    );
                }
            },
            None => {
                return Err(
                    PreprocError { kind: PreprocErrorKind::ExpectedMacroName, span: Some(dir_span) },
                );
            },
        }
        proof {
            assert(i < s.len() && s[i].kind is Text);
            assert(name@ == tok_text(&old(self).sm, s[i]));
        }
        let rr = self.read_next(Ghost(s), Ghost(idx));
        cur = rr.0;
        proof {
            idx = rr.1@;
        }
        let mut args: Vec<MacroArg> = Vec::new();
        let has_args = match cur {
            Some(t) => matches!(t.kind, CatTokenKind::Symbol('(')),
            None => false,
        };
        proof {
            assert(has_args == (i + 1 < s.len() && (s[i + 1].kind matches CatTokenKind::Symbol(
                '(',
            ))));
        }
        if has_args {
            let rr = self.read_next(Ghost(s), Ghost(idx));
            cur = rr.0;
            proof {
                idx = rr.1@;
                assert(idx == i + 2);
            }
            loop
                invariant
                    self.wf(),
                    self.frame_directive(old(self)),
                    self.macro_defs == old(self).macro_defs,
                    self.defcond_stack == old(self).defcond_stack,
                    s == old(self).raw_seq(),
                    i == after_ws(s),
                    i < s.len() && s[i].kind is Text,
                    name@ == tok_text(&old(self).sm, s[i]),
                    has_args,
                    i + 1 < s.len() && (s[i + 1].kind matches CatTokenKind::Symbol('(')),
                    i + 2 <= idx <= s.len(),
                    cursor_at(s, idx, cur, self),
                    (match cur {
                        Some(t) => self.sm.spec_span_valid(t.span),
                        None => true,
                    }),
                    (match spec_define_args(&old(self).sm, s, i + 2) {
                        Some(q) => (match spec_define_args(&old(self).sm, s, idx) {
                            Some(q2) => q.0 =~= args@.map_values(|a: MacroArg| a.name@) + q2.0
                                && q.1 == q2.1,
                            None => false,
                        }),
                        None => (spec_define_args(&old(self).sm, s, idx) is None),
                    }),
                ensures
                    self.wf(),
                    self.frame_directive(old(self)),
                    self.macro_defs == old(self).macro_defs,
                    self.defcond_stack == old(self).defcond_stack,
                    i == after_ws(s),
                    i < s.len() && s[i].kind is Text,
                    name@ == tok_text(&old(self).sm, s[i]),
                    has_args,
                    i + 1 < s.len() && (s[i + 1].kind matches CatTokenKind::Symbol('(')),
                    i + 2 <= idx < s.len(),
                    self.raw_seq() =~= s.skip(idx + 1),
                    (match spec_define_args(&old(self).sm, s, i + 2) {
                        Some(q) => q.0 =~= args@.map_values(|a: MacroArg| a.name@) && q.1 == idx
                            + 1,
                        None => false,
                    }),
                decreases self.raw_measure(), (match cur {
                    Some(_) => 1int,
                    None => 0int,
                }),
            {
                proof {
                    reveal(define_effect);
                }
                let ghost head = idx;
                match cur {
                    Some(t) => {
                        if matches!(t.kind, CatTokenKind::Whitespace) {
                            let rr = self.read_next(Ghost(s), Ghost(idx));
                            cur = rr.0;
                            proof {
                                idx = rr.1@;
                                assert(spec_define_args(&old(self).sm, s, head)
                                    == spec_define_args_name(&old(self).sm, s, idx));
                            }
                        } else if matches!(t.kind, CatTokenKind::Symbol(')')) {
                            proof {
                                assert(spec_define_args(&old(self).sm, s, head) == Some(
                                    (Seq::<Seq<u8>>::empty(), head + 1),
                                ));
                            }
                            break;
                        } else {
                            proof {
                                assert(spec_define_args(&old(self).sm, s, head)
                                    == spec_define_args_name(&old(self).sm, s, idx));
                            }
                        }
                    },
                    None => {
                        proof {
                            assert(spec_define_args(&old(self).sm, s, head)
                                == spec_define_args_name(&old(self).sm, s, idx));
                        }
                    },
                }
                let ghost p = idx;
                match cur {
                    Some(t) => {
                        if matches!(t.kind, CatTokenKind::Text) {
                            let an = self.sm.extract(t.span);
                            proof {
                                assert(p < s.len() && s[p as int].kind is Text);
                                assert(an@ == tok_text(&old(self).sm, s[p as int]));
                            }
                            args.push(MacroArg { name: an, span: t.span });
                            let rr = self.read_next(Ghost(s), Ghost(idx));
                            cur = rr.0;
                            proof {
                                idx = rr.1@;
                            }
                        } else {
                            proof {
                                assert(spec_define_args_name(&old(self).sm, s, p) is None);
                            }
                            return Err(
                                PreprocError {
                                    kind: PreprocErrorKind::ExpectedMacroArgName,
                                    span: Some(dir_span),
                                },
                            );
                        }
                    },
                    None => {
                        proof {
                            assert(spec_define_args_name(&old(self).sm, s, p) is None);
                        }
                        return Err(
                            PreprocError {
                                kind: PreprocErrorKind::ExpectedMacroArgName,
                                span: Some(dir_span),
                            },
                        );
                    },
                }
                match cur {
                    Some(t) => {
                        if matches!(t.kind, CatTokenKind::Whitespace) {
                            let rr = self.read_next(Ghost(s), Ghost(idx));
                            cur = rr.0;
                            proof {
                                idx = rr.1@;
                            }
                        }
                    },
                    None => {},
                }
                let ghost j1 = idx;
                proof {
                    assert(j1 == (if p + 1 < s.len() && s[p + 1].kind is Whitespace {
                        p + 2
                    } else {
                        p + 1
                    }));
                }
                match cur {
                    Some(t) => {
                        if matches!(t.kind, CatTokenKind::Symbol(',')) {
                            let rr = self.read_next(Ghost(s), Ghost(idx));
                            cur = rr.0;
                            proof {
                                idx = rr.1@;
                                let sm0 = &old(self).sm;
                                assert(spec_define_args_name(sm0, s, p) == (
                                match spec_define_args(sm0, s, j1 + 1) {
                                    Some(pp) => Some(
                                        (seq![tok_text(sm0, s[p as int])] + pp.0, pp.1),
                                    ),
                                    None => None,
                                }));
                                assert(args@.map_values(|a: MacroArg| a.name@)
                                    =~= args@.drop_last().map_values(|a: MacroArg| a.name@).push(
                                    tok_text(sm0, s[p as int]),
                                ));
                            }
                        } else if matches!(t.kind, CatTokenKind::Symbol(')')) {
                            proof {
                                let sm0 = &old(self).sm;
                                assert(spec_define_args_name(sm0, s, p) == Some(
                                    (seq![tok_text(sm0, s[p as int])], j1 + 1),
                                ));
                                assert(args@.map_values(|a: MacroArg| a.name@)
                                    =~= args@.drop_last().map_values(|a: MacroArg| a.name@).push(
                                    tok_text(sm0, s[p as int]),
                                ));
                            }
                            break;
                        } else {
                            proof {
                                assert(spec_define_args_name(&old(self).sm, s, p) is None);
                            }
                            return Err(
                                PreprocError {
                                    kind: PreprocErrorKind::ExpectedMacroArgListEnd,
                                    span: Some(t.span),
                                },
                            );
                        }
                    },
                    None => {
                        proof {
                            assert(spec_define_args_name(&old(self).sm, s, p) is None);
                        }
                        return Err(
                            PreprocError {
                                kind: PreprocErrorKind::UnterminatedMacroArgList,
                                span: Some(dir_span),
                            },
                        );
                    },
                }
            }
            let rr = self.read_next(Ghost(s), Ghost(idx));
            cur = rr.0;
            proof {
                idx = rr.1@;
            }
        }
        let ghost arg_end = idx;
        match cur {
            Some(t) => {
                if matches!(t.kind, CatTokenKind::Whitespace) {
                    let rr = self.read_next(Ghost(s), Ghost(idx));
                    cur = rr.0;
                    proof {
                        idx = rr.1@;
                    }
                }
            },
            None => {},
        }
        let ghost b = idx;
        proof {
            assert(b == (if arg_end < s.len() && s[arg_end as int].kind is Whitespace {
                arg_end + 1
            } else {
                arg_end
            }));
        }
        let mut body: Vec<Token> = Vec::new();
        loop
            invariant
                self.wf(),
                self.frame_directive(old(self)),
                self.macro_defs == old(self).macro_defs,
                self.defcond_stack == old(self).defcond_stack,
                s == old(self).raw_seq(),
                i == after_ws(s),
                i < s.len() && s[i].kind is Text,
                name@ == tok_text(&old(self).sm, s[i]),
                has_args == (i + 1 < s.len() && (s[i + 1].kind matches CatTokenKind::Symbol(
                    '(',
                ))),
                has_args || args@.len() == 0,
                has_args ==> (match spec_define_args(&old(self).sm, s, i + 2) {
                    Some(q) => q.0 =~= args@.map_values(|a: MacroArg| a.name@) && b == (if q.1
                        < s.len() && s[q.1].kind is Whitespace {
                        q.1 + 1
                    } else {
                        q.1
                    }),
                    None => false,
                }),
                !has_args ==> b == (if i + 1 < s.len() && s[i + 1].kind is Whitespace {
                    i + 2
                } else {
                    i + 1
                }),
                0 <= b <= s.len(),
                b <= idx <= s.len(),
                cursor_at(s, idx, cur, self),
                (match cur {
                    Some(t) => self.sm.spec_span_valid(t.span),
                    None => true,
                }),
                toks_ok(&self.sm, body@),
                spec_define_body(s, b) =~= body@ + spec_define_body(s, idx),
            ensures
                self.wf(),
                self.frame_directive(old(self)),
                self.macro_defs == old(self).macro_defs,
                self.defcond_stack == old(self).defcond_stack,
                i == after_ws(s),
                i < s.len() && s[i].kind is Text,
                name@ == tok_text(&old(self).sm, s[i]),
                has_args == (i + 1 < s.len() && (s[i + 1].kind matches CatTokenKind::Symbol(
                    '(',
                ))),
                has_args || args@.len() == 0,
                has_args ==> (match spec_define_args(&old(self).sm, s, i + 2) {
                    Some(q) => q.0 =~= args@.map_values(|a: MacroArg| a.name@) && b == (if q.1
                        < s.len() && s[q.1].kind is Whitespace {
                        q.1 + 1
                    } else {
                        q.1
                    }),
                    None => false,
                }),
                !has_args ==> b == (if i + 1 < s.len() && s[i + 1].kind is Whitespace {
                    i + 2
                } else {
                    i + 1
                }),
                toks_ok(&self.sm, body@),
                body@ =~= spec_define_body(s, b),
            decreases self.raw_measure(), (match cur {
                Some(_) => 1int,
                None => 0int,
            }),
        {
            proof {
                reveal(define_effect);
            }
            match cur {
                None => {
                    proof {
                        assert(spec_define_body(s, idx) =~= Seq::<Token>::empty());
                        assert(body@ =~= spec_define_body(s, b));
                    }
                    break;
                },
                Some(t) => {
                    match t.kind {
                        CatTokenKind::Newline => {
                            proof {
                                assert(spec_define_body(s, idx) =~= Seq::<Token>::empty());
                                assert(body@ =~= spec_define_body(s, b));
                            }
                            break;
                        },
                        CatTokenKind::Symbol('\\') => {
                            let rr = self.read_next(Ghost(s), Ghost(idx));
                            cur = rr.0;
                            proof {
                                idx = rr.1@;
                            }
                            match cur {
                                Some(t2) => {
                                    if matches!(t2.kind, CatTokenKind::Newline) {
                                        let rr = self.read_next(Ghost(s), Ghost(idx));
                                        cur = rr.0;
                                        proof {
                                            idx = rr.1@;
                                        }
                                    }
                                },
                                None => {},
                            }
                        },
                        _ => {
                            body.push(t);
                            proof {
                                assert(spec_define_body(s, idx) =~= seq![s[idx as int]]
                                    + spec_define_body(s, idx + 1));
                                assert(spec_define_body(s, b) =~= body@ + spec_define_body(
                                    s,
                                    idx + 1,
                                ));
                            }
                            let rr = self.read_next(Ghost(s), Ghost(idx));
                            cur = rr.0;
                            proof {
                                idx = rr.1@;
                            }
                        },
                    }
                },
            }
        }
        let m = MacroDef { name, span: name_span, args, body };
        let ghost mval = m;
        self.define_macro(m);
        proof {
            assert(spec_find_macro(self.macro_defs@, mval.name@) == Some(mval));
            assert(match spec_define_parse(&old(self).sm, s) {
                Some(p) => p.0 == mval.name@ && p.1 =~= mval.args@.map_values(
                    |a: MacroArg| a.name@,
                ) && p.2 =~= mval.body@,
                None => false,
            });
            assert forall|k: int|
                0 <= k < mval.args@.len() implies (#[trigger] mval.args@[k]).name@
                == mval.args@.map_values(|a: MacroArg| a.name@)[k] by {}
        }
        Ok(())
    }

    /// Remove the macro named after the directive from the table.
    fn handle_undef(&mut self, dir_span: Span) -> (r: Result<(), PreprocError>)
        requires
            old(self).wf(),
        ensures
            final(self).wf(),
            final(self).frame_directive(old(self)),
            final(self).defcond_stack == old(self).defcond_stack,
            undef_effect(*old(self), *final(self), r),
    {
        proof {
            reveal(undef_effect);
        }
        let ghost s = old(self).raw_seq();
        let ghost i = after_ws(s);
        proof {
            assert(s.drop_first() =~= s.skip(1));
        }
        let mut cur = self.next_raw();
        match cur {
            Some(t) => {
                if matches!(t.kind, CatTokenKind::Whitespace) {
                    proof {
                        if s.len() >= 2 {
                            assert(s.skip(1).drop_first() =~= s.skip(2));
                        }
                    }
                    cur = self.next_raw();
                }
            },
            None => {},
        }
        proof {
            if i < s.len() {
                assert(cur == Some(s[i]));
                assert(self.raw_seq() =~= s.skip(i + 1));
            }
        }
        match cur {
            Some(t) => {
                if matches!(t.kind, CatTokenKind::Text) {
                    let name = self.sm.extract(t.span);
                    self.undef_macro(&name);
                    Ok(())
                } else {
                    Err(
                        PreprocError {
                            kind: PreprocErrorKind::ExpectedMacroName,
                            span: Some(dir_span),
                        },
                    )
                }
            },
            None => Err(
                PreprocError { kind: PreprocErrorKind::ExpectedMacroName, span: Some(dir_span) },
            ),
        }
    }

    /// Open or continue a conditional region: the directives that test
    /// whether a macro name is defined.
    fn handle_conditional(&mut self, dir: Directive, dir_span: Span) -> (r: Result<
        (),
        PreprocError,
    >)
        requires
            old(self).wf(),
            dir == Directive::Ifdef || dir == Directive::Ifndef || dir == Directive::Elsif,
        ensures
            final(self).wf(),
            final(self).frame_directive(old(self)),
            conditional_effect(*old(self), *final(self), r, dir),
    {
        proof {
            reveal(conditional_effect);
        }
        let ghost s = old(self).raw_seq();
        let ghost i = after_ws(s);
        proof {
            assert(s.drop_first() =~= s.skip(1));
        }
        let mut cur = self.next_raw();
        match cur {
            Some(t) => {
                if matches!(t.kind, CatTokenKind::Whitespace) {
                    proof {
                        if s.len() >= 2 {
                            assert(s.skip(1).drop_first() =~= s.skip(2));
                        }
                    }
                    cur = self.next_raw();
                }
            },
            None => {},
        }
        proof {
            if i < s.len() {
                assert(cur == Some(s[i]));
                assert(self.raw_seq() =~= s.skip(i + 1));
            }
        }
        let name: Vec<u8>;
        match cur {
            Some(t) => {
                if matches!(t.kind, CatTokenKind::Text) {
                    name = self.sm.extract(t.span);
                } else {
                    return Err(
                        PreprocError {
                            kind: PreprocErrorKind::ExpectedMacroName,
                            span: Some(dir_span),
                        },
                    );
                }
            },
            None => {
                return Err(
                    PreprocError { kind: PreprocErrorKind::ExpectedMacroName, span: Some(dir_span) },
                );
            },
        }
        let defined = self.is_defined(&name);
        if matches!(dir, Directive::Ifdef) {
            self.defcond_stack.push(
                if defined {
                    Defcond::Enabled
                } else {
                    Defcond::Disabled
                },
            );
            proof {
                assert(self.defcond_stack@.drop_last() =~= old(self).defcond_stack@);
            }
        } else if matches!(dir, Directive::Ifndef) {
            self.defcond_stack.push(
                if defined {
                    Defcond::Disabled
                } else {
                    Defcond::Enabled
                },
            );
            proof {
                assert(self.defcond_stack@.drop_last() =~= old(self).defcond_stack@);
            }
        } else {
            let top = self.defcond_stack.pop();
            match top {
                None => {
                    return Err(
                        PreprocError {
                            kind: PreprocErrorKind::UnbalancedConditional,
                            span: Some(dir_span),
                        },
                    );
                },
                Some(Defcond::Done) | Some(Defcond::Enabled) => {
                    self.defcond_stack.push(Defcond::Done);
                },
                Some(Defcond::Disabled) => {
                    self.defcond_stack.push(
                        if defined {
                            Defcond::Enabled
                        } else {
                            Defcond::Disabled
                        },
                    );
                },
            }
            proof {
                assert(self.defcond_stack@.drop_last() =~= old(self).defcond_stack@.drop_last());
            }
        }
        Ok(())
    }

    /// Expand a macro use: look the name up in the table as it stands now,
    /// capture per-argument token sequences when the macro declares formal
    /// arguments, and push the (substituted) body in reverse onto the
    /// pending stack so it plays back in order.
    #[verifier::rlimit(100)]
    #[verifier::spinoff_prover]
    fn expand_macro(&mut self, name: &Vec<u8>, dir_span: Span) -> (r: Result<(), PreprocError>)
        requires
            old(self).wf(),
        ensures
            final(self).wf(),
            final(self).frame_directive(old(self)),
            final(self).macro_defs == old(self).macro_defs,
            final(self).defcond_stack == old(self).defcond_stack,
            spec_find_macro(old(self).macro_defs@, name@) is None ==> r == Err::<
                (),
                PreprocError,
            >(PreprocError { kind: PreprocErrorKind::UnknownDirective, span: Some(dir_span) })
                && *final(self) == *old(self),
            match spec_find_macro(old(self).macro_defs@, name@) {
                Some(def) => def.args@.len() == 0 ==> r is Ok && final(self).streams == old(self).streams && final(self).macro_stack@.len() == old(self).macro_stack@.len()
                    + def.body@.len() && (forall|k: int|
                    0 <= k < def.body@.len() ==> #[trigger] final(self).macro_stack@[old(self).macro_stack@.len() + k] == def.body@[def.body@.len() - 1 - k]),
                None => true,
            },
            ({
                // what a successful use with formals plays back: the body
                // with each captured formal's text token replaced by its
                // captured sequence, reversed onto the pending stack atop
                // what remains of it
                let s = old(self).raw_seq();
                let i = after_ws(s);
                match spec_find_macro(old(self).macro_defs@, name@) {
                    Some(def) => (r is Ok && def.args@.len() > 0) ==> (match spec_captures(
                        s,
                        i + 1,
                        def.args@.len() as int,
                    ) {
                        Some(cp) => exists|L: int|
                            0 <= L <= old(self).macro_stack@.len() && final(self).macro_stack@
                                =~= old(self).macro_stack@.subrange(0, L) + spec_substitute(
                                &old(self).sm,
                                def.body@,
                                def.args@.map_values(|a: MacroArg| a.name@),
                                cp.0,
                                0,
                            ).reverse(),
                        None => false,
                    }),
                    None => true,
                }
            }),
            ({
                // a use of a macro with formals succeeds if and only if a
                // parenthesis follows and the parameter list closes at
                // depth zero before the formals run out
                let s = old(self).raw_seq();
                let i = after_ws(s);
                match spec_find_macro(old(self).macro_defs@, name@) {
                    Some(def) => def.args@.len() > 0 ==> ((r is Ok) == (i < s.len() && (
                    s[i].kind matches CatTokenKind::Symbol('(')) && spec_params_ok(
                        s,
                        i + 1,
                        def.args@.len() as int,
                    ) is Some)),
                    None => true,
                }
            }),
            ({
                // an expansion with arguments synthesises nothing: the
                // pending stack afterwards holds, beyond what is left of
                // its old prefix, only body tokens and captured raw tokens
                match spec_find_macro(old(self).macro_defs@, name@) {
                    Some(def) => (r is Ok && def.args@.len() > 0) ==> (forall|k: int|
                        0 <= k < final(self).macro_stack@.len() ==> ((k < old(self).macro_stack@.len() && #[trigger] final(self).macro_stack@[k] == old(self).macro_stack@[k]) || def.body@.contains(final(self).macro_stack@[k])
                            || old(self).raw_seq().contains(final(self).macro_stack@[k]))),
                    None => true,
                }
            }),
    {
        let idx = match self.find_macro(name) {
            Some(i) => i,
            None => {
                return Err(
                    PreprocError { kind: PreprocErrorKind::UnknownDirective, span: Some(dir_span) },
                );
            },
        };
        let ghost def = self.macro_defs@[idx as int];
        let nargs = self.macro_defs[idx].args.len();
        let body = copy_tokens(&self.macro_defs[idx].body);
        if nargs == 0 {
            let ghost base = self.macro_stack@.len() as int;
            let mut k: usize = 0;
            while k < body.len()
                invariant
                    self.wf(),
                    self.frame_directive(old(self)),
                    self.macro_defs == old(self).macro_defs,
                    self.defcond_stack == old(self).defcond_stack,
                    self.streams == old(self).streams,
                    body@ == def.body@,
                    toks_ok(&self.sm, body@),
                    k <= body@.len(),
                    base == old(self).macro_stack@.len(),
                    self.macro_stack@.len() == base + k,
                    self.macro_stack@.subrange(0, base) =~= old(self).macro_stack@,
                    forall|j: int|
                        0 <= j < k ==> #[trigger] self.macro_stack@[base + j] == body@[body@.len()
                            - 1 - j],
                decreases body@.len() - k,
            {
                self.macro_stack.push(body[body.len() - 1 - k]);
                proof {
                    assert(self.macro_stack@.subrange(0, base) =~= old(self).macro_stack@);
                }
                k = k + 1;
            }
            Ok(())
        } else {
            let mut argnames: Vec<Vec<u8>> = Vec::new();
            let mut ai: usize = 0;
            while ai < nargs
                invariant
                    nargs == self.macro_defs@[idx as int].args@.len(),
                    idx < self.macro_defs@.len(),
                    def == self.macro_defs@[idx as int],
                    argnames@.len() == ai <= nargs,
                    forall|j: int|
                        0 <= j < ai ==> (#[trigger] argnames@[j])@ == def.args@[j].name@,
                decreases nargs - ai,
            {
                argnames.push(
                    crate::source::clone_bytes(&self.macro_defs[idx].args[ai].name),
                );
                ai = ai + 1;
            }
            let ghost s = old(self).raw_seq();
            proof {
                assert(s.drop_first() =~= s.skip(1));
            }
            let mut cur = self.next_raw();
            let ghost mut cursor: int = 0;
            proof {
                assert(cursor_at(s, 0, cur, self));
            }
            match cur {
                Some(t) => {
                    if matches!(t.kind, CatTokenKind::Whitespace) {
                        let rr = self.read_next(Ghost(s), Ghost(cursor));
                        cur = rr.0;
                        proof {
                            cursor = rr.1@;
                        }
                    }
                },
                None => {},
            }
            proof {
                assert(cursor == after_ws(s));
                assert(cursor_at(s, cursor, cur, self));
            }
            let opened = match cur {
                Some(t) => matches!(t.kind, CatTokenKind::Symbol('(')),
                None => false,
            };
            proof {
                assert(opened == (after_ws(s) < s.len() && (s[after_ws(s)].kind
                    matches CatTokenKind::Symbol('('))));
            }
            if !opened {
                return Err(
                    PreprocError {
                        kind: PreprocErrorKind::ExpectedMacroParams,
                        span: Some(dir_span),
                    },
                );
            }
            let rr = self.read_next(Ghost(s), Ghost(cursor));
            cur = rr.0;
            proof {
                cursor = rr.1@;
            }
            let ghost pb = after_ws(s) + 1;
            proof {
                assert(cursor == pb);
            }
            let mut pnames: Vec<Vec<u8>> = Vec::new();
            let mut pvals: Vec<Vec<Token>> = Vec::new();
            let mut argi: usize = 0;
            let mut closed = false;
            while !closed
                invariant
                    self.wf(),
                    self.frame_directive(old(self)),
                    self.macro_defs == old(self).macro_defs,
                    self.defcond_stack == old(self).defcond_stack,
                    spec_find_macro(old(self).macro_defs@, name@) == Some(def),
                    def.args@.len() == nargs,
                    nargs > 0,
                    argi <= nargs,
                    s == old(self).raw_seq(),
                    after_ws(s) < s.len() && (s[after_ws(s)].kind matches CatTokenKind::Symbol(
                        '(',
                    )),
                    pb == after_ws(s) + 1,
                    pb <= cursor <= s.len(),
                    !closed ==> cursor_at(s, cursor, cur, self),
                    !closed ==> spec_params_ok(s, pb, nargs as int) == spec_params_ok(
                        s,
                        cursor,
                        nargs - argi,
                    ),
                    closed ==> spec_params_ok(s, pb, nargs as int) is Some,
                    argnames@.len() == nargs,
                    forall|j: int|
                        0 <= j < nargs ==> (#[trigger] argnames@[j])@ == def.args@[j].name@,
                    pvals@.len() == pnames@.len(),
                    !closed ==> pvals@.len() == argi,
                    forall|j: int|
                        0 <= j < pnames@.len() ==> (#[trigger] pnames@[j])@ == def.args@[j].name@,
                    !closed ==> (match spec_captures(s, pb, nargs as int) {
                        Some(cps) => (match spec_captures(s, cursor, nargs - argi) {
                            Some(c2) => cps.0 =~= pvals@.map_values(|v: Vec<Token>| v@) + c2.0
                                && cps.1 == c2.1,
                            None => false,
                        }),
                        None => (spec_captures(s, cursor, nargs - argi) is None),
                    }),
                    closed ==> (match spec_captures(s, pb, nargs as int) {
                        Some(cps) => cps.0 =~= pvals@.map_values(|v: Vec<Token>| v@),
                        None => false,
                    }),
                    pvals@.len() <= nargs,
                    self.macro_stack@.len() <= old(self).macro_stack@.len(),
                    forall|kk: int|
                        0 <= kk < self.macro_stack@.len() ==> #[trigger] self.macro_stack@[kk]
                            == old(self).macro_stack@[kk],
                    forall|x: Token|
                        self.raw_seq().contains(x) ==> old(self).raw_seq().contains(x),
                    pnames@.len() == pvals@.len(),
                    forall|j: int| 0 <= j < pvals@.len() ==> toks_ok(&self.sm, #[trigger] pvals@[j]@),
                    forall|j: int, k: int|
                        0 <= j < pvals@.len() && 0 <= k < pvals@[j]@.len() ==> old(self).raw_seq().contains(#[trigger] pvals@[j]@[k]),
                    match cur {
                        Some(t) => self.sm.spec_span_valid(t.span) && old(self).raw_seq().contains(
                            t,
                        ),
                        None => true,
                    },
                decreases nargs - argi + (if closed {
                    0int
                } else {
                    1int
                }),
            {
                if argi >= nargs {
                    proof {
                        assert(spec_params_ok(s, cursor, nargs - argi) is None);
                    }
                    return Err(
                        PreprocError {
                            kind: PreprocErrorKind::SuperfluousMacroParams,
                            span: None,
                        },
                    );
                }
                let mut ptoks: Vec<Token> = Vec::new();
                let mut nest: Vec<u8> = Vec::new();
                let mut ended = false;
                let ghost cap = cursor;
                while !ended
                    invariant
                        self.wf(),
                        self.frame_directive(old(self)),
                        self.macro_defs == old(self).macro_defs,
                        self.defcond_stack == old(self).defcond_stack,
                        spec_find_macro(old(self).macro_defs@, name@) == Some(def),
                        def.args@.len() == nargs,
                        argi < nargs,
                        s == old(self).raw_seq(),
                        after_ws(s) < s.len() && (s[after_ws(s)].kind
                            matches CatTokenKind::Symbol('(')),
                        pb == after_ws(s) + 1,
                        pb <= cap <= cursor <= s.len(),
                        spec_params_ok(s, pb, nargs as int) == spec_params_ok(
                            s,
                            cap,
                            nargs - argi,
                        ),
                        closed ==> ended,
                        !ended ==> !closed,
                        !ended ==> cursor_at(s, cursor, cur, self),
                        !ended ==> spec_capture(s, cap, 0) == spec_capture(
                            s,
                            cursor,
                            nest@.len() as int,
                        ),
                        (ended && !closed) ==> spec_capture(s, cap, 0) == Some((false, cursor))
                            && cap < cursor <= s.len() && cursor_at(s, cursor, cur, self),
                        (ended && closed) ==> spec_capture(s, cap, 0) == Some((true, cursor + 1))
                            && cursor < s.len(),
                        argnames@.len() == nargs,
                        forall|j: int|
                            0 <= j < nargs ==> (#[trigger] argnames@[j])@ == def.args@[j].name@,
                        pvals@.len() == pnames@.len(),
                        !ended ==> pvals@.len() == argi,
                        ended ==> pvals@.len() == argi + 1,
                        pvals@.len() <= nargs,
                        forall|j: int|
                            0 <= j < pnames@.len() ==> (#[trigger] pnames@[j])@
                                == def.args@[j].name@,
                        !ended ==> (match spec_capture_content(s, cap, 0) {
                            Some(cc) => (match spec_capture_content(
                                s,
                                cursor,
                                nest@.len() as int,
                            ) {
                                Some(cc2) => cc.0 =~= ptoks@ + cc2.0 && cc.1 == cc2.1 && cc.2
                                    == cc2.2,
                                None => false,
                            }),
                            None => (spec_capture_content(s, cursor, nest@.len() as int)
                                is None),
                        }),
                        ended ==> (match spec_capture_content(s, cap, 0) {
                            Some(cc) => cc.0 =~= pvals@.last()@ && cc.1 == closed && cc.2 == (
                            if closed {
                                cursor + 1
                            } else {
                                cursor
                            }),
                            None => false,
                        }),
                        (match spec_captures(s, pb, nargs as int) {
                            Some(cps) => (match spec_captures(s, cap, nargs - argi) {
                                Some(c2) => cps.0 =~= (if ended {
                                    pvals@.drop_last()
                                } else {
                                    pvals@
                                }).map_values(|v: Vec<Token>| v@) + c2.0 && cps.1 == c2.1,
                                None => false,
                            }),
                            None => (spec_captures(s, cap, nargs - argi) is None),
                        }),
                        self.macro_stack@.len() <= old(self).macro_stack@.len(),
                        forall|kk: int|
                            0 <= kk < self.macro_stack@.len() ==> #[trigger] self.macro_stack@[kk]
                                == old(self).macro_stack@[kk],
                        forall|x: Token|
                            self.raw_seq().contains(x) ==> old(self).raw_seq().contains(x),
                        pnames@.len() == pvals@.len(),
                        forall|j: int|
                            0 <= j < pvals@.len() ==> toks_ok(&self.sm, #[trigger] pvals@[j]@),
                        forall|j: int, k: int|
                            0 <= j < pvals@.len() && 0 <= k < pvals@[j]@.len() ==> old(self).raw_seq().contains(#[trigger] pvals@[j]@[k]),
                        toks_ok(&self.sm, ptoks@),
                        forall|k: int|
                            0 <= k < ptoks@.len() ==> old(self).raw_seq().contains(
                                #[trigger] ptoks@[k],
                            ),
                        match cur {
                            Some(t) => self.sm.spec_span_valid(t.span) && old(self).raw_seq().contains(t),
                            None => true,
                        },
                    decreases self.raw_measure(), (match cur {
                        Some(_) => 1int,
                        None => 0int,
                    }), (if ended {
                        0int
                    } else {
                        1int
                    }),
                {
                    match cur {
                        None => {
                            proof {
                                assert(cursor == s.len());
                                assert(spec_capture(s, cursor, nest@.len() as int) is None);
                                assert(spec_capture_content(s, cursor, nest@.len() as int)
                                    is None);
                                assert(spec_params_ok(s, cap, nargs - argi) is None);
                            }
                            return Err(
                                PreprocError {
                                    kind: PreprocErrorKind::UnterminatedMacroParams,
                                    span: Some(dir_span),
                                },
                            );
                        },
                        Some(t) => {
                            proof {
                                assert(cursor < s.len() && s[cursor as int] == t);
                            }
                            match t.kind {
                                CatTokenKind::Symbol(',') => {
                                    if nest.len() == 0 {
                                        proof {
                                            assert(spec_capture(s, cursor, 0) == Some(
                                                (false, cursor + 1),
                                            ));
                                            assert(spec_capture_content(s, cursor, 0) == Some(
                                                (Seq::<Token>::empty(), false, cursor + 1),
                                            ));
                                            assert(ptoks@ + Seq::<Token>::empty() =~= ptoks@);
                                        }
                                        let rr = self.read_next(Ghost(s), Ghost(cursor));
                                        cur = rr.0;
                                        proof {
                                            cursor = rr.1@;
                                        }
                                        if argi < argnames.len() {
                                            pnames.push(
                                                crate::source::clone_bytes(&argnames[argi]),
                                            );
                                            pvals.push(ptoks);
                                            ptoks = Vec::new();
                                        }
                                        ended = true;
                                    } else {
                                        proof {
                                            assert(spec_capture(s, cursor, nest@.len() as int)
                                                == spec_capture(
                                                s,
                                                cursor + 1,
                                                nest@.len() as int,
                                            ));
                                            assert(spec_capture_content(
                                                s,
                                                cursor,
                                                nest@.len() as int,
                                            ) == (match spec_capture_content(
                                                s,
                                                cursor + 1,
                                                nest@.len() as int,
                                            ) {
                                                Some(cc) => Some(
                                                    (seq![s[cursor as int]] + cc.0, cc.1, cc.2),
                                                ),
                                                None => None,
                                            }));
                                        }
                                        ptoks.push(t);
                                        let rr = self.read_next(Ghost(s), Ghost(cursor));
                                        cur = rr.0;
                                        proof {
                                            cursor = rr.1@;
                                        }
                                    }
                                },
                                CatTokenKind::Symbol(')') => {
                                    if nest.len() == 0 {
                                        proof {
                                            assert(spec_capture(s, cursor, 0) == Some(
                                                (true, cursor + 1),
                                            ));
                                            assert(spec_capture_content(s, cursor, 0) == Some(
                                                (Seq::<Token>::empty(), true, cursor + 1),
                                            ));
                                            assert(ptoks@ + Seq::<Token>::empty() =~= ptoks@);
                                        }
                                        if argi < argnames.len() {
                                            pnames.push(
                                                crate::source::clone_bytes(&argnames[argi]),
                                            );
                                            pvals.push(ptoks);
                                            ptoks = Vec::new();
                                        }
                                        ended = true;
                                        closed = true;
                                    } else {
                                        proof {
                                            assert(spec_capture(s, cursor, nest@.len() as int)
                                                == spec_capture(
                                                s,
                                                cursor + 1,
                                                nest@.len() as int - 1,
                                            ));
                                            assert(spec_capture_content(
                                                s,
                                                cursor,
                                                nest@.len() as int,
                                            ) == spec_capture_content(
                                                s,
                                                cursor + 1,
                                                nest@.len() as int - 1,
                                            ));
                                        }
                                        let _ = nest.pop();
                                        let rr = self.read_next(Ghost(s), Ghost(cursor));
                                        cur = rr.0;
                                        proof {
                                            cursor = rr.1@;
                                        }
                                    }
                                },
                                CatTokenKind::Symbol('(') => {
                                    proof {
                                        assert(spec_capture(s, cursor, nest@.len() as int)
                                            == spec_capture(s, cursor + 1, nest@.len() as int + 1));
                                        assert(spec_capture_content(s, cursor, nest@.len() as int)
                                            == spec_capture_content(
                                            s,
                                            cursor + 1,
                                            nest@.len() as int + 1,
                                        ));
                                    }
                                    nest.push(0);
                                    let rr = self.read_next(Ghost(s), Ghost(cursor));
                                    cur = rr.0;
                                    proof {
                                        cursor = rr.1@;
                                    }
                                },
                                _ => {
                                    proof {
                                        assert(spec_capture(s, cursor, nest@.len() as int)
                                            == spec_capture(s, cursor + 1, nest@.len() as int));
                                        assert(spec_capture_content(s, cursor, nest@.len() as int)
                                            == (match spec_capture_content(
                                            s,
                                            cursor + 1,
                                            nest@.len() as int,
                                        ) {
                                            Some(cc) => Some(
                                                (seq![s[cursor as int]] + cc.0, cc.1, cc.2),
                                            ),
                                            None => None,
                                        }));
                                    }
                                    ptoks.push(t);
                                    let rr = self.read_next(Ghost(s), Ghost(cursor));
                                    cur = rr.0;
                                    proof {
                                        cursor = rr.1@;
                                    }
                                },
                            }
                        },
                    }
                }
                proof {
                    assert(pvals@.map_values(|v: Vec<Token>| v@)
                        =~= pvals@.drop_last().map_values(|v: Vec<Token>| v@).push(
                        pvals@.last()@,
                    ));
                    if closed {
                        assert(spec_captures(s, cap, nargs - argi) == Some(
                            (seq![pvals@.last()@], cursor + 1),
                        ));
                    } else {
                        assert(spec_captures(s, cap, nargs - argi) == (
                        match spec_captures(s, cursor, nargs - argi - 1) {
                            Some(rest) => Some((seq![pvals@.last()@] + rest.0, rest.1)),
                            None => None,
                        }));
                    }
                }
                if !closed {
                    proof {
                        assert(spec_params_ok(s, cap, nargs - argi) == spec_params_ok(
                            s,
                            cursor,
                            nargs - argi - 1,
                        ));
                    }
                    argi = argi + 1;
                }
            }
            let ghost formals = def.args@.map_values(|a: MacroArg| a.name@);
            let ghost caps = pvals@.map_values(|v: Vec<Token>| v@);
            let mut replacement: Vec<Token> = Vec::new();
            let mut bi: usize = 0;
            while bi < body.len()
                invariant
                    self.wf(),
                    self.sm == old(self).sm,
                    s == old(self).raw_seq(),
                    spec_find_macro(old(self).macro_defs@, name@) == Some(def),
                    def.args@.len() == nargs,
                    nargs > 0,
                    after_ws(s) < s.len() && (s[after_ws(s)].kind matches CatTokenKind::Symbol(
                        '(',
                    )),
                    spec_params_ok(s, after_ws(s) + 1, nargs as int) is Some,
                    formals == def.args@.map_values(|a: MacroArg| a.name@),
                    caps == pvals@.map_values(|v: Vec<Token>| v@),
                    caps.len() == pvals@.len() && pvals@.len() == pnames@.len() && pvals@.len()
                        <= nargs,
                    forall|j: int|
                        0 <= j < pnames@.len() ==> (#[trigger] pnames@[j])@ == def.args@[j].name@,
                    (match spec_captures(s, after_ws(s) + 1, nargs as int) {
                        Some(cps) => cps.0 =~= caps,
                        None => false,
                    }),
                    body@ == def.body@,
                    bi <= body@.len(),
                    toks_ok(&self.sm, body@),
                    toks_ok(&self.sm, replacement@),
                    forall|j: int| 0 <= j < pvals@.len() ==> toks_ok(&self.sm, #[trigger] pvals@[j]@),
                    forall|j: int, k: int|
                        0 <= j < pvals@.len() && 0 <= k < pvals@[j]@.len() ==> old(self).raw_seq().contains(#[trigger] pvals@[j]@[k]),
                    forall|k: int|
                        0 <= k < replacement@.len() ==> def.body@.contains(
                            #[trigger] replacement@[k],
                        ) || old(self).raw_seq().contains(replacement@[k]),
                    spec_substitute(&old(self).sm, def.body@, formals, caps, 0)
                        =~= replacement@ + spec_substitute(
                        &old(self).sm,
                        def.body@,
                        formals,
                        caps,
                        bi as int,
                    ),
                decreases body@.len() - bi,
            {
                let t = body[bi];
                proof {
                    assert(t == def.body@[bi as int]);
                }
                let mut substituted = false;
                if matches!(t.kind, CatTokenKind::Text) {
                    let ex = self.sm.extract(t.span);
                    proof {
                        assert(ex@ == tok_text(&old(self).sm, def.body@[bi as int]));
                        lemma_formal_index_prefix(
                            pnames@.map_values(|v: Vec<u8>| v@),
                            formals,
                            caps.len() as int,
                            ex@,
                            0,
                        );
                    }
                    match lookup_name(&pnames, &ex) {
                        Some(j) => {
                            let ghost pre_rep = replacement@;
                            let mut cp = copy_tokens(&pvals[j]);
                            let ghost cpv = cp@;
                            replacement.append(&mut cp);
                            proof {
                                assert(spec_formal_index(formals, caps.len() as int, ex@, 0)
                                    == Some(j as int));
                                assert(caps[j as int] == cpv);
                                assert(spec_substitute(
                                    &old(self).sm,
                                    def.body@,
                                    formals,
                                    caps,
                                    bi as int,
                                ) =~= caps[j as int] + spec_substitute(
                                    &old(self).sm,
                                    def.body@,
                                    formals,
                                    caps,
                                    bi + 1,
                                ));
                                assert(spec_substitute(&old(self).sm, def.body@, formals, caps, 0)
                                    =~= replacement@ + spec_substitute(
                                    &old(self).sm,
                                    def.body@,
                                    formals,
                                    caps,
                                    bi + 1,
                                ));
                                assert forall|k: int|
                                    0 <= k < replacement@.len() implies def.body@.contains(
                                    #[trigger] replacement@[k],
                                ) || old(self).raw_seq().contains(replacement@[k]) by {
                                    if k < pre_rep.len() {
                                        assert(replacement@[k] == pre_rep[k]);
                                    } else {
                                        assert(replacement@[k] == cpv[k - pre_rep.len()]);
                                        assert(cpv[k - pre_rep.len()] == pvals@[j as int]@[k
                                            - pre_rep.len()]);
                                    }
                                }
                            }
                            substituted = true;
                        },
                        None => {
                            proof {
                                assert(spec_formal_index(formals, caps.len() as int, ex@, 0)
                                    is None);
                            }
                        },
                    }
                }
                if !substituted {
                    replacement.push(t);
                    proof {
                        assert(def.body@.contains(t)) by {
                            assert(def.body@[bi as int] == t);
                        }
                        assert(spec_substitute(
                            &old(self).sm,
                            def.body@,
                            formals,
                            caps,
                            bi as int,
                        ) =~= seq![def.body@[bi as int]] + spec_substitute(
                            &old(self).sm,
                            def.body@,
                            formals,
                            caps,
                            bi + 1,
                        ));
                        assert(spec_substitute(&old(self).sm, def.body@, formals, caps, 0)
                            =~= replacement@ + spec_substitute(
                            &old(self).sm,
                            def.body@,
                            formals,
                            caps,
                            bi + 1,
                        ));
                    }
                }
                bi = bi + 1;
            }
            proof {
                assert(spec_substitute(&old(self).sm, def.body@, formals, caps, body@.len() as int)
                    =~= Seq::<Token>::empty());
                assert(replacement@ =~= spec_substitute(&old(self).sm, def.body@, formals, caps, 0));
            }
            let ghost base = self.macro_stack@.len() as int;
            let ghost pre_stack = self.macro_stack@;
            let mut k: usize = 0;
            while k < replacement.len()
                invariant
                    self.wf(),
                    self.frame_directive(old(self)),
                    self.macro_defs == old(self).macro_defs,
                    self.defcond_stack == old(self).defcond_stack,
                    s == old(self).raw_seq(),
                    spec_find_macro(old(self).macro_defs@, name@) == Some(def),
                    def.args@.len() == nargs,
                    nargs > 0,
                    after_ws(s) < s.len() && (s[after_ws(s)].kind matches CatTokenKind::Symbol(
                        '(',
                    )),
                    spec_params_ok(s, after_ws(s) + 1, nargs as int) is Some,
                    formals == def.args@.map_values(|a: MacroArg| a.name@),
                    (match spec_captures(s, after_ws(s) + 1, nargs as int) {
                        Some(cps) => cps.0 =~= caps,
                        None => false,
                    }),
                    replacement@ =~= spec_substitute(&old(self).sm, def.body@, formals, caps, 0),
                    toks_ok(&self.sm, replacement@),
                    k <= replacement@.len(),
                    base == pre_stack.len(),
                    pre_stack.len() <= old(self).macro_stack@.len(),
                    forall|kk: int|
                        0 <= kk < pre_stack.len() ==> #[trigger] pre_stack[kk] == old(self).macro_stack@[kk],
                    self.macro_stack@.len() == base + k,
                    self.macro_stack@.subrange(0, base) =~= pre_stack,
                    forall|j: int|
                        0 <= j < k ==> #[trigger] self.macro_stack@[base + j]
                            == replacement@[replacement@.len() - 1 - j],
                    forall|kk: int|
                        0 <= kk < replacement@.len() ==> def.body@.contains(
                            #[trigger] replacement@[kk],
                        ) || old(self).raw_seq().contains(replacement@[kk]),
                decreases replacement@.len() - k,
            {
                self.macro_stack.push(replacement[replacement.len() - 1 - k]);
                proof {
                    assert(self.macro_stack@.subrange(0, base) =~= pre_stack);
                }
                k = k + 1;
            }
            proof {
                assert forall|kk: int|
                    0 <= kk < self.macro_stack@.len() implies ((kk < old(self).macro_stack@.len() && #[trigger] self.macro_stack@[kk] == old(self).macro_stack@[kk]) || def.body@.contains(self.macro_stack@[kk]) || old(self).raw_seq().contains(self.macro_stack@[kk])) by {
                    if kk < base {
                        assert(self.macro_stack@[kk] == self.macro_stack@.subrange(0, base)[kk]);
                    } else {
                        let j = kk - base;
                        assert(self.macro_stack@[base + j] == replacement@[replacement@.len() - 1
                            - j]);
                    }
                }
                let subst = spec_substitute(&old(self).sm, def.body@, formals, caps, 0);
                assert forall|kk: int|
                    0 <= kk < self.macro_stack@.len() implies #[trigger] self.macro_stack@[kk]
                    == (old(self).macro_stack@.subrange(0, base) + subst.reverse())[kk] by {
                    if kk < base {
                        assert(self.macro_stack@[kk] == self.macro_stack@.subrange(0, base)[kk]);
                        assert(pre_stack[kk] == old(self).macro_stack@[kk]);
                    } else {
                        let j = kk - base;
                        assert(self.macro_stack@[base + j] == replacement@[replacement@.len() - 1
                            - j]);
                        assert(subst.reverse()[j] == subst[subst.len() - 1 - j]);
                        assert(replacement@[replacement@.len() - 1 - j] == subst[subst.len() - 1
                            - j]);
                    }
                }
                assert(self.macro_stack@ =~= old(self).macro_stack@.subrange(0, base)
                    + subst.reverse());
                assert(0 <= base <= old(self).macro_stack@.len());
            }
            Ok(())
        }
    }
}

impl Preprocessor {
    /// Dispatch one directive by name. Definition-like directives are
    /// skipped entirely while the region is inactive; the conditional
    /// directives always maintain the conditional stack.
    fn handle_directive(&mut self, name: &Vec<u8>, dir_span: Span) -> (r: Result<
        (),
        PreprocError,
    >)
        requires
            old(self).wf(),
            dir_span.source < old(self).sm@.len(),
        ensures
            final(self).wf(),
            final(self).frame_directive(old(self)),
            ({
                // Definition-like directives are skipped whole in an
                // inactive region.
                let c = spec_classify(name@);
                (old(self).spec_inactive() && (c == Directive::Inclusion || c == Directive::Define
                    || c == Directive::Undef || c == Directive::UndefineAll || c
                    == Directive::Unknown)) ==> r == Ok::<(), PreprocError>(()) && *final(self)
                    == *old(self)
            }),
            ({
                let c = spec_classify(name@);
                (c == Directive::Ifdef || c == Directive::Ifndef || c == Directive::Elsif)
                    ==> conditional_effect(*old(self), *final(self), r, c)
            }),
            spec_classify(name@) == Directive::Else ==> ((r is Err) == (old(self).defcond_stack@.len() == 0)) && final(self).macro_defs == old(self).macro_defs
                && final(self).streams == old(self).streams && final(self).macro_stack == old(self).macro_stack && (r is Err ==> final(self).defcond_stack@ == old(self).defcond_stack@) && (r is Ok ==> old(self).defcond_stack@.len() > 0 && final(self).defcond_stack@ =~= old(self).defcond_stack@.drop_last().push(
                if old(self).defcond_stack@.last() == Defcond::Disabled {
                    Defcond::Enabled
                } else {
                    Defcond::Done
                },
            )),
            spec_classify(name@) == Directive::Endif ==> ((r is Err) == (old(self).defcond_stack@.len() == 0)) && final(self).macro_defs == old(self).macro_defs
                && final(self).streams == old(self).streams && final(self).macro_stack == old(self).macro_stack && (r is Err ==> final(self).defcond_stack@ == old(self).defcond_stack@) && (r is Ok ==> final(self).defcond_stack@ =~= old(self).defcond_stack@.drop_last()),
            (!old(self).spec_inactive() && spec_classify(name@) == Directive::Define)
                ==> define_effect(*old(self), *final(self), r),
            (!old(self).spec_inactive() && spec_classify(name@) == Directive::Undef)
                ==> undef_effect(*old(self), *final(self), r),
            (!old(self).spec_inactive() && spec_classify(name@) == Directive::UndefineAll) ==> r
                is Ok && final(self).defcond_stack == old(self).defcond_stack && final(self).streams == old(self).streams && final(self).macro_stack == old(self).macro_stack
                && (forall|n: Seq<u8>| #[trigger] spec_find_macro(final(self).macro_defs@, n)
                is None),
            (!old(self).spec_inactive() && spec_classify(name@) == Directive::Inclusion)
                ==> inclusion_effect(*old(self), *final(self), r, dir_span.source),
            (!old(self).spec_inactive() && spec_classify(name@) == Directive::Unknown) ==> final(self).macro_defs == old(self).macro_defs && final(self).defcond_stack == old(self).defcond_stack && (spec_find_macro(old(self).macro_defs@, name@) is None ==> r
                == Err::<(), PreprocError>(
                PreprocError { kind: PreprocErrorKind::UnknownDirective, span: Some(dir_span) },
            ) && *final(self) == *old(self)) && (match spec_find_macro(
                old(self).macro_defs@,
                name@,
            ) {
                Some(def) => (def.args@.len() == 0 ==> r is Ok && final(self).streams == old(self).streams && final(self).macro_stack@.len() == old(self).macro_stack@.len()
                    + def.body@.len() && (forall|k: int|
                    0 <= k < def.body@.len() ==> #[trigger] final(self).macro_stack@[old(self).macro_stack@.len() + k] == def.body@[def.body@.len() - 1 - k])) && ((r
                    is Ok && def.args@.len() > 0) ==> (forall|k: int|
                    0 <= k < final(self).macro_stack@.len() ==> ((k < old(self).macro_stack@.len()
                        && #[trigger] final(self).macro_stack@[k] == old(self).macro_stack@[k])
                        || def.body@.contains(final(self).macro_stack@[k]) || old(self).raw_seq().contains(final(self).macro_stack@[k])))) && (
                def.args@.len() > 0 ==> ({
                    let s = old(self).raw_seq();
                    let i = after_ws(s);
                    (r is Ok) == (i < s.len() && (s[i].kind matches CatTokenKind::Symbol('('))
                        && spec_params_ok(s, i + 1, def.args@.len() as int) is Some)
                })) && ((r is Ok && def.args@.len() > 0) ==> ({
                    let s = old(self).raw_seq();
                    let i = after_ws(s);
                    match spec_captures(s, i + 1, def.args@.len() as int) {
                        Some(cp) => exists|L: int|
                            0 <= L <= old(self).macro_stack@.len() && final(self).macro_stack@
                                =~= old(self).macro_stack@.subrange(0, L) + spec_substitute(
                                &old(self).sm,
                                def.body@,
                                def.args@.map_values(|a: MacroArg| a.name@),
                                cp.0,
                                0,
                            ).reverse(),
                        None => false,
                    }
                })),
                None => true,
            }),
    {
        let dir = classify_directive(name);
        match dir {
            Directive::Inclusion => {
                if self.is_inactive() {
                    Ok(())
                } else {
                    self.handle_inclusion(dir_span)
                }
            },
            Directive::Define => {
                if self.is_inactive() {
                    Ok(())
                } else {
                    self.handle_define(dir_span)
                }
            },
            Directive::Undef => {
                if self.is_inactive() {
                    Ok(())
                } else {
                    self.handle_undef(dir_span)
                }
            },
            Directive::UndefineAll => {
                if self.is_inactive() {
                    Ok(())
                } else {
                    self.undef_all_macros();
                    Ok(())
                }
            },
            Directive::Ifdef | Directive::Ifndef | Directive::Elsif => {
                self.handle_conditional(dir, dir_span)
            },
            Directive::Else => {
                match self.defcond_stack.pop() {
                    Some(Defcond::Disabled) => {
                        self.defcond_stack.push(Defcond::Enabled);
                        proof {
                            assert(self.defcond_stack@ =~= old(self).defcond_stack@.drop_last().push(Defcond::Enabled));
                        }
                        Ok(())
                    },
                    Some(_) => {
                        self.defcond_stack.push(Defcond::Done);
                        proof {
                            assert(self.defcond_stack@ =~= old(self).defcond_stack@.drop_last().push(Defcond::Done));
                        }
                        Ok(())
                    },
                    None => Err(
                        PreprocError {
                            kind: PreprocErrorKind::UnbalancedConditional,
                            span: Some(dir_span),
                        },
                    ),
                }
            },
            Directive::Endif => {
                match self.defcond_stack.pop() {
                    Some(_) => Ok(()),
                    None => Err(
                        PreprocError {
                            kind: PreprocErrorKind::UnbalancedConditional,
                            span: Some(dir_span),
                        },
                    ),
                }
            },
            Directive::Unknown => {
                if self.is_inactive() {
                    Ok(())
                } else {
                    self.expand_macro(name, dir_span)
                }
            },
        }
    }

    /// The next resolved token.
    ///
    /// `None` ends the stream; a fatal error ends useful output. Directives
    /// are handled silently; tokens read while a conditional region is
    /// inactive are dropped. An emitted token's span always lies within a
    /// registered source, and a token is only ever emitted while the
    /// conditional stack permits it. A preprocessor in a plain state (no
    /// backtick anywhere) passes its single stream through unchanged.
    pub fn next_token(&mut self) -> (r: Option<Result<Token, PreprocError>>)
        requires
            old(self).wf(),
        ensures
            final(self).wf(),
            final(self).sm == old(self).sm,
            final(self).inc_dirs == old(self).inc_dirs,
            final(self).budget <= old(self).budget,
            (match r {
                Some(Result::Ok(t)) => final(self).sm.spec_span_valid(t.span)
                    && !final(self).spec_inactive(),
                _ => true,
            }),
            r is Some ==> final(self).budget < old(self).budget || (final(self).budget == old(self).budget && final(self).raw_measure() < old(self).raw_measure()),
            final(self).raw_measure() >= 0,
            old(self).plain_single() ==> ({
                let st = old(self).streams@[0];
                if st.pos < st.toks@.len() {
                    r == Some(Result::<Token, PreprocError>::Ok(st.toks@[st.pos as int]))
                        && final(self).plain_single()
                        && final(self).macro_defs == old(self).macro_defs
                        && final(self).budget == old(self).budget && final(self).streams@
                        =~= seq![
                        Stream { source: st.source, toks: st.toks, pos: (st.pos + 1) as usize },
                    ]
                } else {
                    r == None::<Result<Token, PreprocError>>
                }
            }),
            old(self).raw_seq().len() == 0 ==> r is None,
            r is None ==> final(self).raw_seq().len() == 0,
            ({
                // An active, non-directive token passes through: it is
                // emitted as read, and nothing but the read position moves.
                let s = old(self).raw_seq();
                (s.len() > 0 && !(s[0].kind matches CatTokenKind::Symbol('`'))
                    && !old(self).spec_inactive()) ==> r == Some(
                    Result::<Token, PreprocError>::Ok(s[0]),
                ) && final(self).raw_seq() =~= s.drop_first()
                    && final(self).macro_defs == old(self).macro_defs
                    && final(self).defcond_stack == old(self).defcond_stack
                    && final(self).budget == old(self).budget
            }),
            ({
                // Backtick pairs are a fatal concatenation error.
                let s = old(self).raw_seq();
                (s.len() >= 2 && (s[0].kind matches CatTokenKind::Symbol('`'))
                    && (s[1].kind matches CatTokenKind::Symbol('`'))) ==> (match r {
                    Some(Result::Err(e)) => e.kind == PreprocErrorKind::StrayConcatenation,
                    _ => false,
                })
            }),
            ({
                // A backtick not followed by a directive name is fatal.
                let s = old(self).raw_seq();
                (s.len() >= 1 && (s[0].kind matches CatTokenKind::Symbol('`')) && (s.len() == 1
                    || (!(s[1].kind is Text) && !(s[1].kind matches CatTokenKind::Symbol('`')))))
                    ==> r == Some(
                    Result::<Token, PreprocError>::Err(
                        PreprocError {
                            kind: PreprocErrorKind::ExpectedDirective,
                            span: Some(s[0].span),
                        },
                    ),
                )
            }),
            // A directive at the head that cannot succeed ends the
            // iteration with a fatal error.
            lifted_fail(*old(self)) ==> (match r {
                Some(Result::Err(_)) => true,
                _ => false,
            }),
            ({
                // in particular, a spent budget and an unknown name in an
                // active region each carry their own error kind
                let s = old(self).raw_seq();
                &&& ((lifted_fail(*old(self)) && old(self).budget == 0) ==> (match r {
                    Some(Result::Err(e)) => e.kind == PreprocErrorKind::TooManyDirectives,
                    _ => false,
                }))
                &&& ((lifted_fail(*old(self)) && old(self).budget > 0
                    && !old(self).spec_inactive() && spec_classify(
                    tok_text(&old(self).sm, s[1]),
                ) == Directive::Unknown) ==> (match r {
                    Some(Result::Err(e)) => e.kind == PreprocErrorKind::UnknownDirective,
                    _ => false,
                }))
            }),
    {
        proof {
            lemma_streams_remaining_nonneg(&old(self).sm, old(self).streams@);
        }
        loop
            invariant
                self.wf(),
                self.sm == old(self).sm,
                self.inc_dirs == old(self).inc_dirs,
                self.budget < old(self).budget || (self.budget == old(self).budget
                    && self.raw_measure() <= old(self).raw_measure()),
                old(self).plain_single() ==> *self == *old(self),
                old(self).raw_seq().len() == 0 ==> *self == *old(self),
                ({
                    let s = old(self).raw_seq();
                    (s.len() > 0 && !(s[0].kind matches CatTokenKind::Symbol('`')) && !old(self).spec_inactive()) ==> *self == *old(self)
                }),
                ({
                    let s = old(self).raw_seq();
                    (s.len() >= 1 && (s[0].kind matches CatTokenKind::Symbol('`')) && (s.len()
                        == 1 || !(s[1].kind is Text))) ==> *self == *old(self)
                }),
                lifted_fail(*old(self)) ==> *self == *old(self),
            decreases self.budget, self.raw_measure(),
        {
            proof {
                lemma_streams_remaining_nonneg(&self.sm, self.streams@);
            }
            let t0 = self.next_raw();
            match t0 {
                None => {
                    return None;
                },
                Some(t) => {
                    if matches!(t.kind, CatTokenKind::Symbol('`')) {
                        let t1 = self.next_raw();
                        match t1 {
                            Some(t2) => {
                                if matches!(t2.kind, CatTokenKind::Text) {
                                    let name = self.sm.extract(t2.span);
                                    proof {
                                        if lifted_fail(*old(self)) {
                                            let s = old(self).raw_seq();
                                            assert(t == s[0] && t2 == s[1]);
                                            assert(name@ == tok_text(&old(self).sm, s[1]));
                                            assert(self.raw_seq() =~= s.skip(1).drop_first());
                                            assert(s.skip(1).drop_first() =~= s.skip(2));
                                        }
                                    }
                                    let dir_span = if t.span.source == t2.span.source {
                                        Span::union(t.span, t2.span)
                                    } else {
                                        t2.span
                                    };
                                    if self.budget == 0 {
                                        return Some(
                                            Err(
                                                PreprocError {
                                                    kind: PreprocErrorKind::TooManyDirectives,
                                                    span: Some(dir_span),
                                                },
                                            ),
                                        );
                                    }
                                    self.budget = self.budget - 1;
                                    let ghost pre2 = *self;
                                    match self.handle_directive(&name, dir_span) {
                                        Ok(()) => {
                                            proof {
                                                lemma_streams_remaining_nonneg(
                                                    &self.sm,
                                                    self.streams@,
                                                );
                                                if lifted_fail(*old(self)) {
                                                    reveal(define_effect);
                                                    reveal(inclusion_effect);
                                                    reveal(conditional_effect);
                                                    reveal(undef_effect);
                                                    let s = old(self).raw_seq();
                                                    assert(pre2.raw_seq() =~= s.skip(2));
                                                    assert(dir_span.source == s[1].span.source);
                                                    assert(pre2.spec_inactive() == old(
                                                        self,
                                                    ).spec_inactive());
                                                    assert(false);
                                                }
                                            }
                                        },
                                        Err(e) => {
                                            proof {
                                                lemma_streams_remaining_nonneg(
                                                    &self.sm,
                                                    self.streams@,
                                                );
                                            }
                                            return Some(Err(e));
                                        },
                                    }
                                } else if matches!(t2.kind, CatTokenKind::Symbol('`')) {
                                    let sp = if t.span.source == t2.span.source {
                                        Span::union(t.span, t2.span)
                                    } else {
                                        t2.span
                                    };
                                    return Some(
                                        Err(
                                            PreprocError {
                                                kind: PreprocErrorKind::StrayConcatenation,
                                                span: Some(sp),
                                            },
                                        ),
                                    );
                                } else {
                                    return Some(
                                        Err(
                                            PreprocError {
                                                kind: PreprocErrorKind::ExpectedDirective,
                                                span: Some(t.span),
                                            },
                                        ),
                                    );
                                }
                            },
                            None => {
                                return Some(
                                    Err(
                                        PreprocError {
                                            kind: PreprocErrorKind::ExpectedDirective,
                                            span: Some(t.span),
                                        },
                                    ),
                                );
                            },
                        }
                    } else {
                        if self.is_inactive() {
                            // dropped: the region is inactive
                        } else {
                            return Some(Ok(t));
                        }
                    }
                },
            }
        }
    }

    /// Pull tokens until the stream ends or a fatal error occurs.
    ///
    /// For an input holding no backtick at all, the output equals the
    /// lexer's token stream for the root source: same kinds, same spans, in
    /// order. Every emitted token's span lies within a registered source.
    pub fn emit_all(&mut self) -> (r: Result<Vec<Token>, PreprocError>)
        requires
            old(self).wf(),
        ensures
            final(self).wf(),
            final(self).sm == old(self).sm,
            (match r {
                Ok(ts) => forall|k: int|
                    0 <= k < ts@.len() ==> final(self).sm.spec_span_valid(#[trigger] ts@[k].span),
                Err(_) => true,
            }),
            (no_backtick(old(self).raw_seq()) && old(self).defcond_stack@.len() == 0) ==> (
            match r {
                Ok(ts) => ts@ =~= old(self).raw_seq(),
                Err(_) => false,
            }),
    {
        let mut out: Vec<Token> = Vec::new();
        proof {
            lemma_streams_remaining_nonneg(&old(self).sm, old(self).streams@);
        }
        loop
            invariant
                self.wf(),
                self.sm == old(self).sm,
                self.inc_dirs == old(self).inc_dirs,
                toks_ok(&self.sm, out@),
                (no_backtick(old(self).raw_seq()) && old(self).defcond_stack@.len() == 0) ==> ({
                    &&& no_backtick(self.raw_seq())
                    &&& self.defcond_stack@.len() == 0
                    &&& out@ + self.raw_seq() =~= old(self).raw_seq()
                }),
            decreases self.budget, self.raw_measure(),
        {
            proof {
                lemma_streams_remaining_nonneg(&self.sm, self.streams@);
            }
            let ghost pre = *self;
            match self.next_token() {
                None => {
                    proof {
                        if no_backtick(old(self).raw_seq()) && old(self).defcond_stack@.len()
                            == 0 {
                            assert(out@ =~= old(self).raw_seq());
                        }
                    }
                    return Ok(out);
                },
                Some(Ok(t)) => {
                    out.push(t);
                    proof {
                        if no_backtick(old(self).raw_seq()) && old(self).defcond_stack@.len()
                            == 0 {
                            let s = pre.raw_seq();
                            assert(s.len() > 0);
                            assert(t == s[0]);
                            assert(self.raw_seq() =~= s.drop_first());
                            assert forall|k: int|
                                0 <= k < self.raw_seq().len() implies #[trigger] self.raw_seq(
                            )[k].kind != CatTokenKind::Symbol('`') by {
                                assert(self.raw_seq()[k] == s[k + 1]);
                                assert(s[k + 1] == (out@.drop_last() + s)[out@.len() - 1 + k
                                    + 1]);
                            }
                            assert(out@ + self.raw_seq() =~= old(self).raw_seq());
                        }
                    }
                },
                Some(Err(e)) => {
                    return Err(e);
                },
            }
        }
    }
}

/// With in-bounds cursors, no stream holds a negative number of unread
/// tokens.
pub proof fn lemma_streams_remaining_nonneg(sm: &SourceManager, ss: Seq<Stream>)
    requires
        forall|i: int| 0 <= i < ss.len() ==> stream_ok(sm, #[trigger] ss[i]),
    ensures
        streams_remaining(ss) >= 0,
    decreases ss.len(),
{
    if ss.len() > 0 {
        lemma_streams_remaining_nonneg(sm, ss.drop_last());
    }
}

} // verus!
