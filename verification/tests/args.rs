use std::str::FromStr;

use jj_version::args::{
    expansion, fallback_candidate, ArgsError, Expansion, InputToken, Token, VersionArgs,
};

fn input(src: &str) -> Vec<InputToken> {
    proc_macro2::TokenStream::from_str(src)
        .expect("test input lexes")
        .into_iter()
        .map(InputToken::new)
        .collect()
}

fn kinds(tokens: &[InputToken]) -> Vec<Token> {
    tokens.iter().map(|t| t.token.clone()).collect()
}

fn text(tokens: &[InputToken]) -> String {
    let stream: proc_macro2::TokenStream = tokens.iter().map(|t| t.tree.clone()).collect();
    stream.to_string()
}

fn ident(s: &str) -> Token {
    Token::Ident(s.to_string())
}

fn parse_err(src: &str) -> ArgsError {
    VersionArgs::parse(input(src)).unwrap_err()
}

#[test]
fn token_kinds_are_read_from_trees() {
    let tokens = input(r#"fallback = env!("X"), 'a 1"#);
    assert_eq!(
        kinds(&tokens),
        vec![
            ident("fallback"),
            Token::Punct('='),
            ident("env"),
            Token::Punct('!'),
            Token::Group,
            Token::Punct(','),
            Token::Punct('\''),
            ident("a"),
            Token::Literal,
        ]
    );
}

#[test]
fn fallback_expression_is_accepted() {
    let args = VersionArgs::parse(input(r#"fallback = env!("CARGO_PKG_VERSION")"#)).unwrap();
    assert_eq!(text(&args.fallback), text(&input(r#"env!("CARGO_PKG_VERSION")"#)));
    assert_eq!(kinds(&args.fallback), vec![ident("env"), Token::Punct('!'), Token::Group]);
}

#[test]
fn literal_fallback_is_accepted() {
    let args = VersionArgs::parse(input(r#"fallback = "unknown""#)).unwrap();
    assert_eq!(kinds(&args.fallback), vec![Token::Literal]);
}

#[test]
fn trailing_comma_is_dropped() {
    let args = VersionArgs::parse(input(r#"fallback = env!("X"),"#)).unwrap();
    assert_eq!(kinds(&args.fallback), vec![ident("env"), Token::Punct('!'), Token::Group]);
}

#[test]
fn with_and_without_trailing_comma_read_alike() {
    let plain = VersionArgs::parse(input(r#"fallback = "x""#)).unwrap();
    let comma = VersionArgs::parse(input(r#"fallback = "x","#)).unwrap();
    assert_eq!(text(&plain.fallback), text(&comma.fallback));
}

#[test]
fn nested_macro_fallback_is_accepted() {
    let src = r#"concat!("fallback-", stringify!(nested_tokens), "-", env!("CARGO_PKG_VERSION"))"#;
    let args = VersionArgs::parse(input(&format!("fallback = {src}"))).unwrap();
    assert_eq!(text(&args.fallback), text(&input(src)));
}

#[test]
fn proc_macro_fallback_with_arguments_is_accepted() {
    let src = r#"fallback = git_version::git_version!(
        args = ["--tags", "--dirty", "--always", "--abbrev=12"],
        fallback = env!("CARGO_PKG_VERSION"),
    ),"#;
    let args = VersionArgs::parse(input(src)).unwrap();
    assert_eq!(args.fallback.len(), 6);
}

#[test]
fn invisible_group_fallback_keeps_its_grouping() {
    let inner: proc_macro2::TokenStream = proc_macro2::TokenStream::from_str("a < b").unwrap();
    let group = proc_macro2::Group::new(proc_macro2::Delimiter::None, inner);
    let mut tokens = input("fallback =");
    tokens.push(InputToken::new(proc_macro2::TokenTree::Group(group)));
    tokens.extend(input("< c"));
    assert!(VersionArgs::parse(tokens).is_ok());
}

#[test]
fn missing_fallback_expression_is_reported() {
    let err = parse_err("fallback =");
    assert_eq!(err, ArgsError::MissingFallbackExpr);
    assert_eq!(err.message(), "unexpected end of input, expected `fallback = <expr>`");
    assert!(err.message().contains("expected `fallback = <expr>`"));
}

#[test]
fn empty_input_is_reported() {
    let err = VersionArgs::parse(vec![]).unwrap_err();
    assert_eq!(err, ArgsError::MissingFallbackExpr);
}

#[test]
fn only_a_comma_is_no_expression() {
    let err = parse_err("fallback = ,");
    assert_eq!(err, ArgsError::InvalidFallbackExpr);
    assert_eq!(err.message(), "expected `fallback = <expr>`");
}

#[test]
fn two_expressions_are_refused() {
    assert_eq!(parse_err("fallback = a b"), ArgsError::InvalidFallbackExpr);
    assert_eq!(parse_err("fallback = a,,"), ArgsError::InvalidFallbackExpr);
    assert_eq!(parse_err("fallback = a < b < c"), ArgsError::InvalidFallbackExpr);
}

#[test]
fn other_name_is_refused() {
    let err = parse_err(r#"version = "x""#);
    assert_eq!(err, ArgsError::ExpectedFallbackName);
    assert_eq!(err.message(), "expected `fallback`");
    assert_eq!(parse_err(r#"r#fallback = "x""#), ArgsError::ExpectedFallbackName);
}

#[test]
fn missing_equals_is_refused() {
    let err = parse_err(r#"fallback "x""#);
    assert_eq!(err, ArgsError::ExpectedEquals);
    assert_eq!(err.message(), "expected `=`");
    assert_eq!(parse_err("fallback"), ArgsError::ExpectedEquals);
}

#[test]
fn doubled_equals_is_no_expression() {
    assert_eq!(parse_err("fallback == 1"), ArgsError::InvalidFallbackExpr);
}

#[test]
fn non_identifier_start_is_refused() {
    let err = parse_err(r#""x" = 1"#);
    assert_eq!(err, ArgsError::ExpectedIdentifier);
    assert_eq!(err.message(), "expected identifier");
    assert_eq!(parse_err("'a = 1"), ArgsError::ExpectedIdentifier);
    assert_eq!(parse_err("(fallback) = 1"), ArgsError::ExpectedIdentifier);
}

#[test]
fn keyword_start_is_refused() {
    let err = parse_err("fn = 1");
    assert_eq!(err, ArgsError::KeywordNotIdentifier("fn".to_string()));
    assert_eq!(err.message(), "expected identifier, found keyword `fn`");
    assert_eq!(parse_err("_ = 1"), ArgsError::KeywordNotIdentifier("_".to_string()));
    assert_eq!(parse_err("Self = 1"), ArgsError::KeywordNotIdentifier("Self".to_string()));
}

#[test]
fn errors_match_syn_messages() {
    for (src, head) in [("fn = 1", "fn"), ("\"x\" = 1", "\"x\""), ("_ = 1", "_")] {
        let syn_err = syn::parse_str::<syn::Ident>(head).unwrap_err();
        assert_eq!(parse_err(src).message(), syn_err.to_string());
    }
    let syn_eq = match syn::parse_str::<syn::token::Eq>("\"x\"") {
        Ok(_) => panic!("a literal is no `=`"),
        Err(err) => err.to_string(),
    };
    assert_eq!(parse_err(r#"fallback "x""#).message(), syn_eq);
}

#[test]
fn fallback_candidate_reads_up_to_the_expression() {
    assert_eq!(kinds(&fallback_candidate(input("fallback = 1,")).unwrap()), vec![Token::Literal]);
    assert_eq!(fallback_candidate(input("version = 1")).unwrap_err(), ArgsError::ExpectedFallbackName);
    assert_eq!(fallback_candidate(vec![]).unwrap_err(), ArgsError::MissingFallbackExpr);
    assert_eq!(fallback_candidate(input("fallback =")).unwrap_err(), ArgsError::MissingFallbackExpr);
    assert_eq!(fallback_candidate(input("fallback : 1")).unwrap_err(), ArgsError::ExpectedEquals);
    assert_eq!(kinds(&fallback_candidate(input("fallback = ,")).unwrap()), Vec::<Token>::new());
}

#[test]
fn from_checked_follows_the_expression_verdict() {
    let args = VersionArgs::from_checked(input("1"), true).unwrap();
    assert_eq!(kinds(&args.fallback), vec![Token::Literal]);
    assert_eq!(
        VersionArgs::from_checked(input("1"), false).unwrap_err(),
        ArgsError::InvalidFallbackExpr
    );
}

#[test]
fn expansion_is_the_version_or_the_fallback_unchanged() {
    let args = VersionArgs::parse(input(r#"fallback = env!("X")"#)).unwrap();
    match expansion(args, Some("v1.2.3".to_string())) {
        Expansion::Version(v) => assert_eq!(v, "v1.2.3"),
        Expansion::Fallback(_) => panic!("a version was given"),
    }
    let args = VersionArgs::parse(input(r#"fallback = env!("X"),"#)).unwrap();
    match expansion(args, None) {
        Expansion::Fallback(f) => assert_eq!(text(&f), text(&input(r#"env!("X")"#))),
        Expansion::Version(_) => panic!("no version was given"),
    }
}

fn invisible(src: &str) -> proc_macro2::TokenTree {
    let inner = proc_macro2::TokenStream::from_str(src).unwrap();
    proc_macro2::TokenTree::Group(proc_macro2::Group::new(proc_macro2::Delimiter::None, inner))
}

fn stream(parts: Vec<proc_macro2::TokenTree>) -> proc_macro2::TokenStream {
    parts.into_iter().collect()
}

fn trees(src: &str) -> Vec<proc_macro2::TokenTree> {
    proc_macro2::TokenStream::from_str(src).unwrap().into_iter().collect()
}

/// The reading of `fallback = <expr>` written directly with `syn`'s parser.
fn syn_reading(tokens: proc_macro2::TokenStream) -> Result<String, String> {
    let parser = |input: syn::parse::ParseStream| -> syn::Result<proc_macro2::TokenStream> {
        if input.is_empty() {
            return Err(input.error("expected `fallback = <expr>`"));
        }
        let ident: syn::Ident = input.parse()?;
        if ident != "fallback" {
            return Err(syn::Error::new(ident.span(), "expected `fallback`"));
        }
        input.parse::<syn::token::Eq>()?;
        let mut fallback: Vec<proc_macro2::TokenTree> =
            input.parse::<proc_macro2::TokenStream>()?.into_iter().collect();
        if fallback.is_empty() {
            return Err(input.error("expected `fallback = <expr>`"));
        }
        if matches!(fallback.last(), Some(proc_macro2::TokenTree::Punct(p)) if p.as_char() == ',') {
            fallback.pop();
        }
        let fallback = proc_macro2::TokenStream::from_iter(fallback);
        syn::parse2::<syn::Expr>(fallback.clone())
            .map_err(|err| syn::Error::new(err.span(), "expected `fallback = <expr>`"))?;
        Ok(fallback)
    };
    syn::parse::Parser::parse2(parser, tokens)
        .map(|t| t.to_string())
        .map_err(|e| e.to_string())
}

fn library_reading(tokens: proc_macro2::TokenStream) -> Result<String, String> {
    let input: Vec<InputToken> = tokens.into_iter().map(InputToken::new).collect();
    VersionArgs::parse(input).map(|args| text(&args.fallback)).map_err(|e| e.message())
}

#[test]
fn reading_matches_syn_on_written_inputs() {
    for src in [
        "",
        "fallback",
        "fallback =",
        "fallback = ,",
        "fallback = 1",
        "fallback = 1,",
        "fallback = 1,,",
        "fallback = a b",
        "fallback = a < b < c",
        "fallback == 1",
        "fallback : 1",
        "version = 1",
        "r#fallback = 1",
        "fn = 1",
        "_ = 1",
        "Self = 1",
        "\"x\" = 1",
        "'a = 1",
        "(fallback) = 1",
        "fallback = env!(\"X\")",
        "fallback = concat!(\"a\", env!(\"X\")),",
        "fallback = |x| x + 1",
        "fallback = { 1 }",
    ] {
        let tokens = proc_macro2::TokenStream::from_str(src).unwrap();
        assert_eq!(library_reading(tokens.clone()), syn_reading(tokens), "input {src:?}");
    }
}

#[test]
fn reading_matches_syn_through_invisible_groups() {
    let mut cases: Vec<Vec<proc_macro2::TokenTree>> = Vec::new();
    let mut c = vec![invisible("fallback")];
    c.extend(trees("= 1"));
    cases.push(c);
    let mut c = trees("fallback");
    c.push(invisible("="));
    c.extend(trees("1"));
    cases.push(c);
    cases.push(vec![invisible("fallback = 1")]);
    cases.push(vec![invisible("fallback = 1"), invisible("+ 2")]);
    let mut c = vec![invisible("fallback =")];
    c.extend(trees("1,"));
    cases.push(c);
    cases.push(vec![invisible("fallback ="), invisible("a < b")]);
    let mut c = trees("fallback =");
    c.push(invisible("a < b"));
    c.extend(trees("< c"));
    cases.push(c);
    cases.push(vec![invisible("")]);
    cases.push(vec![invisible(""), invisible("")]);
    let mut c = vec![invisible("")];
    c.extend(trees("fallback = 1"));
    cases.push(c);
    cases.push(vec![invisible("version = 1")]);
    cases.push(vec![invisible("fn = 1")]);
    let mut c = vec![invisible("fallback")];
    c.push(invisible(""));
    cases.push(c);
    let nested = proc_macro2::TokenTree::Group(proc_macro2::Group::new(
        proc_macro2::Delimiter::None,
        stream(vec![invisible("fallback")]),
    ));
    let mut c = vec![nested];
    c.extend(trees("= 1"));
    cases.push(c);
    for case in cases {
        let tokens = stream(case);
        assert_eq!(
            library_reading(tokens.clone()),
            syn_reading(tokens.clone()),
            "input {tokens}"
        );
    }
}

#[test]
fn empty_invisible_group_is_no_identifier() {
    let err = VersionArgs::parse(vec![InputToken::new(invisible(""))]).unwrap_err();
    assert_eq!(err, ArgsError::ExpectedIdentifier);
    assert_eq!(err.message(), "expected identifier");
}

#[test]
fn invisible_groups_are_seen_through_for_name_and_equals() {
    let mut tokens = vec![InputToken::new(invisible("fallback"))];
    tokens.push(InputToken::new(invisible("=")));
    tokens.extend(input("1"));
    let args = VersionArgs::parse(tokens).unwrap();
    assert_eq!(kinds(&args.fallback), vec![Token::Literal]);
    let tokens = vec![InputToken::new(invisible("fallback = a")), InputToken::new(invisible("+ b"))];
    let args = VersionArgs::parse(tokens).unwrap();
    assert_eq!(kinds(&args.fallback), vec![ident("a"), Token::InvisibleGroup]);
}
