//! The macro's arguments, `fallback = <expr>` with an optional trailing
//! comma, read from the token trees of the invocation.

use vstd::prelude::*;

use crate::boundary::{
    group_contents, group_trees, parses_as_expr, syn_parses_expr, token_kind, token_of,
};

verus! {

/// What the arguments are read by of a token tree: an identifier's text
/// (`r#` included for a raw one), a punctuation's character, or the kind.
#[derive(Debug, Clone, PartialEq, Eq)]
pub enum Token {
    Ident(String),
    Punct(char),
    Literal,
    /// A group in parentheses, brackets or braces.
    Group,
    /// A group without delimiters, as a macro fragment such as `$e:expr`
    /// arrives in.
    InvisibleGroup,
}

/// A token tree of the macro's input, with what the arguments are read by.
#[derive(Debug)]
pub struct InputToken {
    pub token: Token,
    pub tree: proc_macro2::TokenTree,
}

impl InputToken {
    /// The token tree `tree`, with its kind and its identifier or character.
    pub fn new(tree: proc_macro2::TokenTree) -> (r: InputToken)
        ensures
            r.tree == tree,
            r.token == token_of(tree),
    {
        let token = token_kind(&tree);
        InputToken { token, tree }
    }
}

/// The token trees of `tokens`.
pub open spec fn trees_of(tokens: Seq<InputToken>) -> Seq<proc_macro2::TokenTree> {
    tokens.map_values(|t: InputToken| t.tree)
}

/// The words that `syn` does not take as an identifier: `_` and the Rust
/// keywords, strict and reserved.
pub open spec fn is_keyword(name: Seq<char>) -> bool {
    ||| name == "_"@
    ||| name == "abstract"@
    ||| name == "as"@
    ||| name == "async"@
    ||| name == "await"@
    ||| name == "become"@
    ||| name == "box"@
    ||| name == "break"@
    ||| name == "const"@
    ||| name == "continue"@
    ||| name == "crate"@
    ||| name == "do"@
    ||| name == "dyn"@
    ||| name == "else"@
    ||| name == "enum"@
    ||| name == "extern"@
    ||| name == "false"@
    ||| name == "final"@
    ||| name == "fn"@
    ||| name == "for"@
    ||| name == "if"@
    ||| name == "impl"@
    ||| name == "in"@
    ||| name == "let"@
    ||| name == "loop"@
    ||| name == "macro"@
    ||| name == "match"@
    ||| name == "mod"@
    ||| name == "move"@
    ||| name == "mut"@
    ||| name == "override"@
    ||| name == "priv"@
    ||| name == "pub"@
    ||| name == "ref"@
    ||| name == "return"@
    ||| name == "Self"@
    ||| name == "self"@
    ||| name == "static"@
    ||| name == "struct"@
    ||| name == "super"@
    ||| name == "trait"@
    ||| name == "true"@
    ||| name == "try"@
    ||| name == "type"@
    ||| name == "typeof"@
    ||| name == "unsafe"@
    ||| name == "unsized"@
    ||| name == "use"@
    ||| name == "virtual"@
    ||| name == "where"@
    ||| name == "while"@
    ||| name == "yield"@
}

fn name_is(name: &String, word: &str) -> (b: bool)
    ensures
        b == (name@ == word@),
{
    *name == String::from_str(word)
}

/// Whether `name` is `_` or a Rust keyword.
pub fn keyword(name: &String) -> (b: bool)
    ensures
        b == is_keyword(name@),
{
    name_is(name, "_")
        || name_is(name, "abstract")
        || name_is(name, "as")
        || name_is(name, "async")
        || name_is(name, "await")
        || name_is(name, "become")
        || name_is(name, "box")
        || name_is(name, "break")
        || name_is(name, "const")
        || name_is(name, "continue")
        || name_is(name, "crate")
        || name_is(name, "do")
        || name_is(name, "dyn")
        || name_is(name, "else")
        || name_is(name, "enum")
        || name_is(name, "extern")
        || name_is(name, "false")
        || name_is(name, "final")
        || name_is(name, "fn")
        || name_is(name, "for")
        || name_is(name, "if")
        || name_is(name, "impl")
        || name_is(name, "in")
        || name_is(name, "let")
        || name_is(name, "loop")
        || name_is(name, "macro")
        || name_is(name, "match")
        || name_is(name, "mod")
        || name_is(name, "move")
        || name_is(name, "mut")
        || name_is(name, "override")
        || name_is(name, "priv")
        || name_is(name, "pub")
        || name_is(name, "ref")
        || name_is(name, "return")
        || name_is(name, "Self")
        || name_is(name, "self")
        || name_is(name, "static")
        || name_is(name, "struct")
        || name_is(name, "super")
        || name_is(name, "trait")
        || name_is(name, "true")
        || name_is(name, "try")
        || name_is(name, "type")
        || name_is(name, "typeof")
        || name_is(name, "unsafe")
        || name_is(name, "unsized")
        || name_is(name, "use")
        || name_is(name, "virtual")
        || name_is(name, "where")
        || name_is(name, "while")
        || name_is(name, "yield")
}

pub open spec fn is_punct(token: InputToken, c: char) -> bool {
    token.token == Token::Punct(c)
}

/// `tokens` without one trailing comma.
pub open spec fn without_trailing_comma(tokens: Seq<InputToken>) -> Seq<InputToken> {
    if tokens.len() > 0 && is_punct(tokens.last(), ',') {
        tokens.drop_last()
    } else {
        tokens
    }
}

/// Why the macro's arguments were refused.
#[derive(Debug, Clone, PartialEq, Eq)]
pub enum ArgsError {
    /// The input ends where the fallback expression, or all of
    /// `fallback = <expr>`, should be.
    MissingFallbackExpr,
    /// What follows `fallback =` is no expression.
    InvalidFallbackExpr,
    /// The input does not start with an identifier, or holds nothing but
    /// empty invisible groups.
    ExpectedIdentifier,
    /// The input starts with this keyword in place of an identifier.
    KeywordNotIdentifier(String),
    /// The first identifier is not `fallback`.
    ExpectedFallbackName,
    /// `fallback` is not followed by `=`.
    ExpectedEquals,
}

pub enum ArgsErrorView {
    MissingFallbackExpr,
    InvalidFallbackExpr,
    ExpectedIdentifier,
    KeywordNotIdentifier(Seq<char>),
    ExpectedFallbackName,
    ExpectedEquals,
}

impl View for ArgsError {
    type V = ArgsErrorView;

    open spec fn view(&self) -> ArgsErrorView {
        match self {
            ArgsError::MissingFallbackExpr => ArgsErrorView::MissingFallbackExpr,
            ArgsError::InvalidFallbackExpr => ArgsErrorView::InvalidFallbackExpr,
            ArgsError::ExpectedIdentifier => ArgsErrorView::ExpectedIdentifier,
            ArgsError::KeywordNotIdentifier(k) => ArgsErrorView::KeywordNotIdentifier(k@),
            ArgsError::ExpectedFallbackName => ArgsErrorView::ExpectedFallbackName,
            ArgsError::ExpectedEquals => ArgsErrorView::ExpectedEquals,
        }
    }
}

/// The message a refusal is reported with, worded as `syn` words it.
pub open spec fn error_message(e: ArgsErrorView) -> Seq<char> {
    match e {
        ArgsErrorView::MissingFallbackExpr => "unexpected end of input, expected `fallback = <expr>`"@,
        ArgsErrorView::InvalidFallbackExpr => "expected `fallback = <expr>`"@,
        ArgsErrorView::ExpectedIdentifier => "expected identifier"@,
        ArgsErrorView::KeywordNotIdentifier(k) => "expected identifier, found keyword `"@ + k
            + "`"@,
        ArgsErrorView::ExpectedFallbackName => "expected `fallback`"@,
        ArgsErrorView::ExpectedEquals => "expected `=`"@,
    }
}

impl ArgsError {
    /// The message this refusal is reported with.
    pub fn message(&self) -> (r: String)
        ensures
            r@ == error_message(self@),
    {
        match self {
            ArgsError::MissingFallbackExpr => String::from_str(
                "unexpected end of input, expected `fallback = <expr>`",
            ),
            ArgsError::InvalidFallbackExpr => String::from_str("expected `fallback = <expr>`"),
            ArgsError::ExpectedIdentifier => String::from_str("expected identifier"),
            ArgsError::KeywordNotIdentifier(k) => {
                let mut m = String::from_str("expected identifier, found keyword `");
                m.append(k.as_str());
                m.append("`");
                m
            },
            ArgsError::ExpectedFallbackName => String::from_str("expected `fallback`"),
            ArgsError::ExpectedEquals => String::from_str("expected `=`"),
        }
    }
}

/// The macro's arguments: the token trees of the fallback expression.
#[derive(Debug)]
pub struct VersionArgs {
    pub fallback: Vec<InputToken>,
}

/// The input tokens of `trees`, each with what it is read as.
pub open spec fn inputs_of(trees: Seq<proc_macro2::TokenTree>) -> Seq<InputToken> {
    trees.map_values(|t: proc_macro2::TokenTree| InputToken { token: token_of(t), tree: t })
}

/// `tokens` with invisible groups at their start opened, the group's trees
/// taking its place, for as long as one starts them, at most `depth` times.
pub open spec fn opened_front(tokens: Seq<InputToken>, depth: nat) -> Seq<InputToken>
    decreases depth,
{
    if depth > 0 && tokens.len() > 0 && tokens[0].token == Token::InvisibleGroup {
        opened_front(inputs_of(group_trees(tokens[0].tree)) + tokens.drop_first(), (depth - 1) as nat)
    } else {
        tokens
    }
}

/// `tokens` as `syn` looks at them to read one identifier or punctuation:
/// invisible groups at the start are seen through.
pub open spec fn syn_front(tokens: Seq<InputToken>) -> Seq<InputToken> {
    opened_front(tokens, usize::MAX as nat)
}

/// What the input leaves for the fallback expression: the tokens after
/// `fallback =`, without one trailing comma; or why the input is refused
/// before its expression is looked at. The steps are `syn`'s: an identifier
/// that is no keyword, the word `fallback`, the punctuation `=`, at least
/// one token more; invisible groups are seen through where an identifier or
/// a punctuation is read.
pub open spec fn fallback_candidate_of(input: Seq<InputToken>) -> Result<Seq<InputToken>, ArgsErrorView> {
    let head = syn_front(input);
    if input.len() == 0 {
        Err(ArgsErrorView::MissingFallbackExpr)
    } else if head.len() == 0 {
        Err(ArgsErrorView::ExpectedIdentifier)
    } else {
        match head[0].token {
            Token::Ident(name) => if is_keyword(name@) {
                Err(ArgsErrorView::KeywordNotIdentifier(name@))
            } else if name@ != "fallback"@ {
                Err(ArgsErrorView::ExpectedFallbackName)
            } else {
                let after = syn_front(head.drop_first());
                if !(after.len() > 0 && is_punct(after[0], '=')) {
                    Err(ArgsErrorView::ExpectedEquals)
                } else if after.len() == 1 {
                    Err(ArgsErrorView::MissingFallbackExpr)
                } else {
                    Ok(without_trailing_comma(after.drop_first()))
                }
            },
            _ => Err(ArgsErrorView::ExpectedIdentifier),
        }
    }
}

fn is_invisible(token: &InputToken) -> (b: bool)
    ensures
        b == (token.token == Token::InvisibleGroup),
{
    match &token.token {
        Token::InvisibleGroup => true,
        _ => false,
    }
}

/// `tokens` with the invisible groups at their start seen through, as `syn`
/// looks at them to read one identifier or punctuation.
pub fn open_front(tokens: Vec<InputToken>) -> (r: Vec<InputToken>)
    ensures
        r@ == syn_front(tokens@),
{
    let ghost original = tokens@;
    let mut s = tokens;
    let mut depth: usize = usize::MAX;
    while depth > 0 && s.len() > 0 && is_invisible(&s[0])
        invariant
            syn_front(original) == opened_front(s@, depth as nat),
        decreases depth,
    {
        let ghost before = s@;
        let first = s.remove(0);
        let inner = group_contents(&first.tree);
        let mut opened: Vec<InputToken> = Vec::new();
        for t in it: inner
            invariant
                opened@ == inputs_of(it.seq().take(it.index() as int)),
        {
            let ghost done = opened@;
            opened.push(InputToken::new(t));
            assert(it.seq().take(it.index() + 1) =~= it.seq().take(it.index() as int).push(t));
            assert(opened@ =~= inputs_of(it.seq().take(it.index() + 1)));
        }
        assert(opened@ =~= inputs_of(group_trees(before[0].tree)));
        opened.append(&mut s);
        assert(before.remove(0) =~= before.drop_first());
        s = opened;
        depth = depth - 1;
    }
    s
}

fn is_punct_char(token: &InputToken, c: char) -> (b: bool)
    ensures
        b == is_punct(*token, c),
{
    match &token.token {
        Token::Punct(ch) => *ch == c,
        _ => false,
    }
}

/// The tokens after `fallback =`, without one trailing comma, or why the
/// input is refused before its expression is looked at.
pub fn fallback_candidate(input: Vec<InputToken>) -> (r: Result<Vec<InputToken>, ArgsError>)
    ensures
        match r {
            Ok(fallback) => fallback_candidate_of(input@) == Ok::<
                Seq<InputToken>,
                ArgsErrorView,
            >(fallback@),
            Err(e) => fallback_candidate_of(input@) == Err::<Seq<InputToken>, ArgsErrorView>(
                e@,
            ),
        },
{
    if input.len() == 0 {
        return Err(ArgsError::MissingFallbackExpr);
    }
    let ghost whole = input@;
    let mut head = open_front(input);
    if head.len() == 0 {
        return Err(ArgsError::ExpectedIdentifier);
    }
    match &head[0].token {
        Token::Ident(name) => {
            if keyword(name) {
                return Err(ArgsError::KeywordNotIdentifier(name.clone()));
            }
            if !name_is(name, "fallback") {
                return Err(ArgsError::ExpectedFallbackName);
            }
        },
        _ => {
            return Err(ArgsError::ExpectedIdentifier);
        },
    }
    let ghost head_seq = head@;
    let after_name = head.split_off(1);
    assert(after_name@ =~= head_seq.drop_first());
    let mut after = open_front(after_name);
    if !(after.len() > 0 && is_punct_char(&after[0], '=')) {
        return Err(ArgsError::ExpectedEquals);
    }
    if after.len() == 1 {
        return Err(ArgsError::MissingFallbackExpr);
    }
    let ghost after_seq = after@;
    let mut fallback = after.split_off(1);
    assert(fallback@ =~= after_seq.drop_first());
    let n = fallback.len();
    if is_punct_char(&fallback[n - 1], ',') {
        fallback.pop();
    }
    assert(fallback@ =~= without_trailing_comma(after_seq.drop_first()));
    Ok(fallback)
}

impl VersionArgs {
    /// The arguments with `fallback` as the fallback expression's tokens,
    /// given whether `syn` reads them as one expression.
    pub fn from_checked(fallback: Vec<InputToken>, is_expr: bool) -> (r: Result<VersionArgs, ArgsError>)
        ensures
            is_expr ==> (r matches Ok(args) && args.fallback@ == fallback@),
            !is_expr ==> (r matches Err(e) && e@ == ArgsErrorView::InvalidFallbackExpr),
    {
        if is_expr {
            Ok(VersionArgs { fallback })
        } else {
            Err(ArgsError::InvalidFallbackExpr)
        }
    }

    /// Reads the macro's input: `fallback`, `=`, an expression, and at most
    /// one trailing comma. Whether the tokens after `=` are an expression is
    /// `syn`'s verdict on their trees.
    pub fn parse(input: Vec<InputToken>) -> (r: Result<VersionArgs, ArgsError>)
        ensures
            match fallback_candidate_of(input@) {
                Err(e) => r matches Err(x) && x@ == e,
                Ok(fallback) => if parses_as_expr(trees_of(fallback)) {
                    r matches Ok(args) && args.fallback@ == fallback
                } else {
                    r matches Err(x) && x@ == ArgsErrorView::InvalidFallbackExpr
                },
            },
            r matches Ok(args) ==> args.fallback@.len() > 0,
    {
        let fallback = match fallback_candidate(input) {
            Ok(fallback) => fallback,
            Err(e) => return Err(e),
        };
        let is_expr = syn_parses_expr(&fallback);
        VersionArgs::from_checked(fallback, is_expr)
    }
}

/// What the macro expands to once its arguments are read.
#[derive(Debug)]
pub enum Expansion {
    /// A string literal holding the version.
    Version(String),
    /// The fallback expression's token trees, unchanged.
    Fallback(Vec<InputToken>),
}

/// The expansion for the arguments `args` and the version the resolution
/// came out with: the version when there is one, else the fallback
/// expression as it was written.
pub fn expansion(args: VersionArgs, version: Option<String>) -> (r: Expansion)
    ensures
        match version {
            Some(v) => r matches Expansion::Version(w) && w@ == v@,
            None => r matches Expansion::Fallback(f) && f@ == args.fallback@,
        },
{
    match version {
        Some(v) => Expansion::Version(v),
        None => Expansion::Fallback(args.fallback),
    }
}

proof fn lemma_fallback_is_no_keyword()
    ensures
        !is_keyword("fallback"@),
{
    reveal_strlit("fallback");
    reveal_strlit("_");
    reveal_strlit("abstract");
    reveal_strlit("as");
    reveal_strlit("async");
    reveal_strlit("await");
    reveal_strlit("become");
    reveal_strlit("box");
    reveal_strlit("break");
    reveal_strlit("const");
    reveal_strlit("continue");
    reveal_strlit("crate");
    reveal_strlit("do");
    reveal_strlit("dyn");
    reveal_strlit("else");
    reveal_strlit("enum");
    reveal_strlit("extern");
    reveal_strlit("false");
    reveal_strlit("final");
    reveal_strlit("fn");
    reveal_strlit("for");
    reveal_strlit("if");
    reveal_strlit("impl");
    reveal_strlit("in");
    reveal_strlit("let");
    reveal_strlit("loop");
    reveal_strlit("macro");
    reveal_strlit("match");
    reveal_strlit("mod");
    reveal_strlit("move");
    reveal_strlit("mut");
    reveal_strlit("override");
    reveal_strlit("priv");
    reveal_strlit("pub");
    reveal_strlit("ref");
    reveal_strlit("return");
    reveal_strlit("Self");
    reveal_strlit("self");
    reveal_strlit("static");
    reveal_strlit("struct");
    reveal_strlit("super");
    reveal_strlit("trait");
    reveal_strlit("true");
    reveal_strlit("try");
    reveal_strlit("type");
    reveal_strlit("typeof");
    reveal_strlit("unsafe");
    reveal_strlit("unsized");
    reveal_strlit("use");
    reveal_strlit("virtual");
    reveal_strlit("where");
    reveal_strlit("while");
    reveal_strlit("yield");
    assert("fallback"@.len() == 8);
    assert("fallback"@[0] != "abstract"@[0]);
    assert("fallback"@[0] != "continue"@[0]);
    assert("fallback"@[0] != "override"@[0]);
}

/// As `syn` reads it, `input` starts with the identifier `fallback` and the
/// punctuation `=`, and has more after them.
pub open spec fn reads_fallback_equals(input: Seq<InputToken>) -> bool {
    let head = syn_front(input);
    let after = syn_front(head.drop_first());
    &&& head.len() > 0
    &&& head[0].token matches Token::Ident(name) && name@ == "fallback"@
    &&& after.len() > 1
    &&& is_punct(after[0], '=')
}

/// The input is read up to its expression exactly when, as `syn` reads it,
/// it starts with the identifier `fallback` and `=` and has more tokens; what
/// is left for the expression is the rest, less one trailing comma.
pub proof fn accepted_inputs(input: Seq<InputToken>)
    ensures
        fallback_candidate_of(input) is Ok <==> reads_fallback_equals(input),
        fallback_candidate_of(input) matches Ok(fallback) ==> {
            let rest = syn_front(syn_front(input).drop_first()).drop_first();
            ||| fallback == rest
            ||| (fallback == rest.drop_last() && is_punct(rest.last(), ','))
        },
{
    lemma_fallback_is_no_keyword();
    if input.len() == 0 {
        assert(syn_front(input) == input);
    }
}

/// Without invisible groups in its first two places, the input is read as
/// it is written.
pub proof fn plain_input_is_read_as_written(input: Seq<InputToken>)
    requires
        input.len() > 1,
        input[0].token != Token::InvisibleGroup,
        input[1].token != Token::InvisibleGroup,
    ensures
        syn_front(input) == input,
        syn_front(input.drop_first()) == input.drop_first(),
{
}

/// The comma after the fallback expression is optional: with a comma token
/// added after `fallback = <tokens>`, the same tokens are left for the
/// expression.
pub proof fn trailing_comma_is_optional(input: Seq<InputToken>, comma: InputToken)
    requires
        input.len() > 2,
        input[0].token != Token::InvisibleGroup,
        input[1].token != Token::InvisibleGroup,
        !is_punct(input.last(), ','),
        is_punct(comma, ','),
    ensures
        fallback_candidate_of(input.push(comma)) == fallback_candidate_of(input),
{
    let longer = input.push(comma);
    plain_input_is_read_as_written(input);
    plain_input_is_read_as_written(longer);
    assert(longer[0] == input[0]);
    assert(longer.drop_first() =~= input.drop_first().push(comma));
    assert(longer.drop_first().drop_first().drop_last() =~= input.drop_first().drop_first());
    assert(without_trailing_comma(longer.drop_first().drop_first()) =~= without_trailing_comma(
        input.drop_first().drop_first(),
    ));
}

} // verus!
