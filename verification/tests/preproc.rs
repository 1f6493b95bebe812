use moore::cat::{lex, CatTokenKind, Token};
use moore::preproc::{PreprocError, PreprocErrorKind, Preprocessor};
use moore::source::SourceManager;

fn collect_text(pp: &mut Preprocessor) -> String {
    let mut out: Vec<u8> = Vec::new();
    while let Some(t) = pp.next_token() {
        let t = t.unwrap_or_else(|e| panic!("{}", e.message()));
        out.extend(pp.sm.extract(t.span));
    }
    String::from_utf8(out).unwrap()
}

fn collect_tokens(pp: &mut Preprocessor) -> Result<Vec<Token>, PreprocError> {
    let mut out = Vec::new();
    while let Some(t) = pp.next_token() {
        out.push(t?);
    }
    Ok(out)
}

fn inclusion_directive() -> String {
    ["inc", "lude"].concat()
}

#[test]
fn include_and_define() {
    let mut sm = SourceManager::new();
    sm.add(
        b"other.sv".to_vec(),
        b"/* World */\n`define foo 42\n".to_vec(),
    );
    sm.add(
        b"test.sv".to_vec(),
        format!(
            "// Hello\n`{} \"other.sv\"\n`foo something\n",
            inclusion_directive()
        )
        .into_bytes(),
    );
    let root = sm.open(&b"test.sv".to_vec()).unwrap();
    let mut pp = Preprocessor::new(sm, root, Vec::new());
    let actual = collect_text(&mut pp);
    let expected = "// Hello\n/* World */\n\n42 something\n";
    assert_eq!(actual, expected);
}

#[test]
#[should_panic(expected = "Unknown compiler directive")]
fn conditional_define() {
    let mut sm = SourceManager::new();
    let root = sm.add(
        b"test.sv".to_vec(),
        b"`ifdef FOO\n`define BAR\n`endif\n`BAR".to_vec(),
    );
    let mut pp = Preprocessor::new(sm, root, Vec::new());
    while let Some(tkn) = pp.next_token() {
        tkn.unwrap_or_else(|e| panic!("{}", e.message()));
    }
}

#[test]
fn macro_args() {
    let mut sm = SourceManager::new();
    let root = sm.add(
        b"test.sv".to_vec(),
        b"`define foo(x,y) {x + y _bar}\n`foo(12, foo)\n".to_vec(),
    );
    let mut pp = Preprocessor::new(sm, root, Vec::new());
    let actual = collect_text(&mut pp);
    let expected = "{12 +  foo _bar}\n";
    assert_eq!(actual, expected);
}

/// Verify that macros that take no arguments but have parentheses around
/// their body parse properly.
#[test]
fn macro_noargs_parentheses() {
    let mut sm = SourceManager::new();
    let root = sm.add(
        b"test.sv".to_vec(),
        b"`define FOO 4\n`define BAR (`FOO+$clog2(2))\n`BAR".to_vec(),
    );
    let mut pp = Preprocessor::new(sm, root, Vec::new());
    let actual = collect_text(&mut pp);
    let expected = "(4+$clog2(2))";
    assert_eq!(actual, expected);
}

#[test]
fn token_conservation_without_directives() {
    let content = b"foo /* c */ bar\n 12 $x\n".to_vec();
    let mut sm = SourceManager::new();
    let root = sm.add(b"plain.sv".to_vec(), content.clone());
    let expected = lex(&content, root);
    let mut pp = Preprocessor::new(sm, root, Vec::new());
    let actual = collect_tokens(&mut pp).unwrap();
    assert_eq!(actual, expected);
}

#[test]
fn span_fidelity() {
    let mut sm = SourceManager::new();
    sm.add(b"b.sv".to_vec(), b"/* B */ inner\n".to_vec());
    sm.add(
        b"a.sv".to_vec(),
        format!("`define m(p) [p]\n`{} \"b.sv\"\n`m(zz)\n", inclusion_directive()).into_bytes(),
    );
    let root = sm.open(&b"a.sv".to_vec()).unwrap();
    let mut pp = Preprocessor::new(sm, root, Vec::new());
    let toks = collect_tokens(&mut pp).unwrap();
    assert!(!toks.is_empty());
    for t in toks {
        let piece = pp.sm.extract(t.span);
        let full = pp.sm.extract(moore::source::Span {
            source: t.span.source,
            begin: 0,
            end: pp.sm.content_len(t.span.source),
        });
        assert!(full
            .windows(piece.len().max(1))
            .any(|w| w == piece.as_slice() || piece.is_empty()));
    }
}

#[test]
fn macro_redefine() {
    let mut sm = SourceManager::new();
    let root = sm.add(
        b"test.sv".to_vec(),
        b"`define A one\n`A\n`define A two\n`A\n".to_vec(),
    );
    let mut pp = Preprocessor::new(sm, root, Vec::new());
    let actual = collect_text(&mut pp);
    assert_eq!(actual, "one\ntwo\n");
}

#[test]
fn conditional_else_taken() {
    let mut sm = SourceManager::new();
    let root = sm.add(
        b"test.sv".to_vec(),
        b"`ifdef F\nx\n`else\ny\n`endif\nz\n".to_vec(),
    );
    let mut pp = Preprocessor::new(sm, root, Vec::new());
    let actual = collect_text(&mut pp);
    assert_eq!(actual, "\ny\n\nz\n");
}

#[test]
fn conditional_enabled_branch() {
    let mut sm = SourceManager::new();
    let root = sm.add(
        b"test.sv".to_vec(),
        b"`define F\n`ifdef F\nx\n`endif\n".to_vec(),
    );
    let mut pp = Preprocessor::new(sm, root, Vec::new());
    let actual = collect_text(&mut pp);
    assert_eq!(actual, "\nx\n\n");
}

#[test]
fn conditional_elsif_taken() {
    let mut sm = SourceManager::new();
    let root = sm.add(
        b"test.sv".to_vec(),
        b"`define B 1\n`ifdef A\nx\n`elsif B\ny\n`else\nz\n`endif\n".to_vec(),
    );
    let mut pp = Preprocessor::new(sm, root, Vec::new());
    let actual = collect_text(&mut pp);
    assert_eq!(actual, "\ny\n\n");
}

#[test]
fn conditional_exclusion_with_macros_inside() {
    let mut sm = SourceManager::new();
    let root = sm.add(
        b"test.sv".to_vec(),
        b"`ifdef U\n`define X 1\n`X\n`endif\nok\n".to_vec(),
    );
    let mut pp = Preprocessor::new(sm, root, Vec::new());
    let actual = collect_text(&mut pp);
    assert_eq!(actual, "\nok\n");
}

#[test]
fn undef_removes_macro() {
    let mut sm = SourceManager::new();
    let root = sm.add(
        b"test.sv".to_vec(),
        b"`define A 1\n`A\n`undef A\n`A".to_vec(),
    );
    let mut pp = Preprocessor::new(sm, root, Vec::new());
    let r = collect_tokens(&mut pp);
    let e = r.unwrap_err();
    assert_eq!(e.kind, PreprocErrorKind::UnknownDirective);
}

#[test]
fn undefineall_removes_macros() {
    let mut sm = SourceManager::new();
    let root = sm.add(
        b"test.sv".to_vec(),
        b"`define A 1\n`define B 2\n`undefineall\n`B".to_vec(),
    );
    let mut pp = Preprocessor::new(sm, root, Vec::new());
    let e = collect_tokens(&mut pp).unwrap_err();
    assert_eq!(e.kind, PreprocErrorKind::UnknownDirective);
}

#[test]
fn stray_concatenation_is_fatal() {
    let mut sm = SourceManager::new();
    let root = sm.add(b"test.sv".to_vec(), b"a `` b".to_vec());
    let mut pp = Preprocessor::new(sm, root, Vec::new());
    let e = collect_tokens(&mut pp).unwrap_err();
    assert_eq!(e.kind, PreprocErrorKind::StrayConcatenation);
}

#[test]
fn missing_file_is_fatal() {
    let mut sm = SourceManager::new();
    sm.add(
        b"test.sv".to_vec(),
        format!("`{} \"nope.sv\"\n", inclusion_directive()).into_bytes(),
    );
    let root = sm.open(&b"test.sv".to_vec()).unwrap();
    let mut pp = Preprocessor::new(sm, root, Vec::new());
    let e = collect_tokens(&mut pp).unwrap_err();
    assert_eq!(e.kind, PreprocErrorKind::CannotOpenFile);
}

#[test]
fn inclusion_search_path() {
    let mut sm = SourceManager::new();
    sm.add(b"lib/extra.sv".to_vec(), b"E".to_vec());
    sm.add(
        b"test.sv".to_vec(),
        format!("`{} \"extra.sv\"\n", inclusion_directive()).into_bytes(),
    );
    let root = sm.open(&b"test.sv".to_vec()).unwrap();
    let mut pp = Preprocessor::new(sm, root, vec![b"lib".to_vec()]);
    let actual = collect_text(&mut pp);
    assert_eq!(actual, "E\n");
}

#[test]
fn superfluous_macro_parameters() {
    let mut sm = SourceManager::new();
    let root = sm.add(
        b"test.sv".to_vec(),
        b"`define f(x) x\n`f(1,2)\n".to_vec(),
    );
    let mut pp = Preprocessor::new(sm, root, Vec::new());
    let e = collect_tokens(&mut pp).unwrap_err();
    assert_eq!(e.kind, PreprocErrorKind::SuperfluousMacroParams);
}

#[test]
fn backtick_at_end_is_fatal() {
    let mut sm = SourceManager::new();
    let root = sm.add(b"test.sv".to_vec(), b"a `".to_vec());
    let mut pp = Preprocessor::new(sm, root, Vec::new());
    let e = collect_tokens(&mut pp).unwrap_err();
    assert_eq!(e.kind, PreprocErrorKind::ExpectedDirective);
}

#[test]
fn lexer_categories() {
    let content = b"ab 1_c\n// x\n/* y */;".to_vec();
    let toks = lex(&content, 0);
    let kinds: Vec<CatTokenKind> = toks.iter().map(|t| t.kind).collect();
    assert_eq!(
        kinds,
        vec![
            CatTokenKind::Text,
            CatTokenKind::Whitespace,
            CatTokenKind::Text,
            CatTokenKind::Newline,
            CatTokenKind::Comment,
            CatTokenKind::Newline,
            CatTokenKind::Comment,
            CatTokenKind::Symbol(';'),
        ]
    );
    assert_eq!(toks[0].span.begin, 0);
    assert_eq!(toks[0].span.end, 2);
    assert_eq!(toks.last().unwrap().span.end, content.len());
}

#[test]
fn macro_params_nest_parentheses() {
    let mut sm = SourceManager::new();
    let root = sm.add(
        b"test.sv".to_vec(),
        b"`define g(x) x\n`g((a,b))\n".to_vec(),
    );
    let mut pp = Preprocessor::new(sm, root, Vec::new());
    let actual = collect_text(&mut pp);
    // the nesting parentheses delimit the captured argument and are
    // consumed with it
    assert_eq!(actual, "a,b\n");
}
