use demonstrate::{demonstrate, generate, parse, slug_name};
use demonstrate::{Delim, Expected, Name, Node, ParseError, ParseErrorKind, Tok};
use proc_macro2::{Delimiter, Spacing, TokenStream, TokenTree};

fn flatten(ts: TokenStream, out: &mut Vec<Tok>) {
    for tt in ts {
        match tt {
            TokenTree::Ident(i) => out.push(Tok::Ident(i.to_string())),
            TokenTree::Punct(p) => out.push(Tok::Punct(p.as_char(), p.spacing() == Spacing::Joint)),
            TokenTree::Literal(l) => out.push(Tok::Lit(l.to_string())),
            TokenTree::Group(g) => {
                let d = match g.delimiter() {
                    Delimiter::Parenthesis => Delim::Paren,
                    Delimiter::Bracket => Delim::Bracket,
                    Delimiter::Brace => Delim::Brace,
                    Delimiter::None => Delim::Invisible,
                };
                out.push(Tok::Open(d));
                flatten(g.stream(), out);
                out.push(Tok::Close(d));
            }
        }
    }
}

fn toks(src: &str) -> Vec<Tok> {
    let ts: TokenStream = src.parse().unwrap();
    let mut v = Vec::new();
    flatten(ts, &mut v);
    v
}

fn expand(src: &str) -> Vec<Tok> {
    demonstrate(&toks(src)).unwrap()
}

fn fails(src: &str) -> ParseError {
    demonstrate(&toks(src)).unwrap_err()
}

fn ident(s: &str) -> Name {
    Name::Ident(s.to_string())
}

#[test]
fn setup_is_inlined_into_case() {
    let out = expand("describe outer { before { let v = 1; } it a { assert!(v == 1) } }");
    let want = toks("#[cfg(test)] mod outer { #[test] fn a() { let v = 1; assert!(v == 1) } }");
    assert_eq!(out, want);
}

#[test]
fn nested_setups_compose_outer_first() {
    let out = expand(
        "describe outer { before { let v = 1; } \
         describe inner { before { let w = 2; } it b { assert!(v + 1 == w) } } }",
    );
    let want = toks(
        "#[cfg(test)] mod outer { mod inner { #[test] fn b() { \
         let v = 1; let w = 2; assert!(v + 1 == w) } } }",
    );
    assert_eq!(out, want);
}

#[test]
fn teardown_follows_body() {
    let out = expand("describe g { after { log(\"end\"); } it c { x = 1; } }");
    let want = toks("#[cfg(test)] mod g { #[test] fn c() { x = 1; log(\"end\"); } }");
    assert_eq!(out, want);
}

#[test]
fn return_type_inherited_or_shadowed() {
    let out = expand("describe g -> ResultType { it a { Ok(()) } it b -> OtherType { Ok(()) } }");
    let want = toks(
        "#[cfg(test)] mod g { #[test] fn a() -> ResultType { Ok(()) } \
         #[test] fn b() -> OtherType { Ok(()) } }",
    );
    assert_eq!(out, want);
}

#[test]
fn async_group_makes_case_async() {
    let out = expand("async describe g { it c { x.await } }");
    let want = toks("#[cfg(test)] mod g { async fn c() { x.await } }");
    assert_eq!(out, want);
}

#[test]
fn two_setups_fail_naming_group() {
    let e = fails("describe g { before {} it a {} before {} }");
    assert_eq!(e.kind, ParseErrorKind::DuplicateSetup(ident("g")));
    let e = fails("describe outer { before {} before {} }");
    assert_eq!(e.kind, ParseErrorKind::DuplicateSetup(ident("outer")));
    assert_eq!(e.at, 6);
}

#[test]
fn two_setups_fail_with_teardown_between() {
    let e = fails("describe g { before {} after {} it a {} before {} }");
    assert_eq!(e.kind, ParseErrorKind::DuplicateSetup(ident("g")));
    let e = fails("describe g { after {} before {} after {} before {} }");
    assert_eq!(e.kind, ParseErrorKind::DuplicateTeardown(ident("g")));
}

#[test]
fn return_type_with_braced_generic_argument() {
    let out = expand("describe g { it a -> Foo<{ N }> { x } it b -> fn() -> u8 { y } }");
    let want = toks(
        "#[cfg(test)] mod g { #[test] fn a() -> Foo<{ N }> { x } #[test] fn b() -> fn() -> u8 { y } }",
    );
    assert_eq!(out, want);
}

#[test]
fn two_teardowns_fail_naming_group() {
    let e = fails("context \"my group\" { after {} after {} }");
    assert_eq!(e.kind, ParseErrorKind::DuplicateTeardown(Name::Label("my group".to_string())));
}

#[test]
fn nested_ordering_of_setup_teardown_attrs() {
    let out = expand(
        "#[a1] describe g1 { before { s1; } after { t1; } \
         #[a2] context g2 { before { s2; } after { t2; } \
         #[a3] given g3 { before { s3; } after { t3; } \
         #[ac] then c { b; } } } }",
    );
    let want = toks(
        "#[cfg(test)] mod g1 { mod g2 { mod g3 { #[test] #[a1] #[a2] #[a3] #[ac] fn c() { \
         s1; s2; s3; b; t3; t2; t1; } } } }",
    );
    assert_eq!(out, want);
}

#[test]
fn async_stickiness_from_any_ancestor() {
    let out = expand("describe a { async when b { describe c { test d {} } } it e {} }");
    let want = toks(
        "#[cfg(test)] mod a { mod b { mod c { async fn d() {} } } #[test] fn e() {} }",
    );
    assert_eq!(out, want);
    let out = expand("describe a { async it d {} }");
    assert_eq!(out, toks("#[cfg(test)] mod a { async fn d() {} }"));
}

#[test]
fn nearest_return_type_wins() {
    let out = expand(
        "describe a -> A { describe b -> B { describe c { it d {} } } describe e { it f {} } }",
    );
    let want = toks(
        "#[cfg(test)] mod a { mod b { mod c { #[test] fn d() -> B {} } } \
         mod e { #[test] fn f() -> A {} } }",
    );
    assert_eq!(out, want);
}

#[test]
fn flat_spec_regenerates_same_tests() {
    let nested = expand(
        "describe g { before { s; } after { t; } #[x] describe h -> R { async it c { b; } } }",
    );
    let flat = expand("describe g { describe h { #[x] async it c -> R { s; b; t; } } }");
    assert_eq!(nested, flat);
}

#[test]
fn imports_are_redeclared_in_nested_scopes() {
    let out = expand("describe a { use super::*; describe b { use std::io; it c {} } }");
    let want = toks(
        "#[cfg(test)] mod a { use super::*; mod b { use super::*; use std::io; \
         #[test] fn c() {} } }",
    );
    assert_eq!(out, want);
}

#[test]
fn labels_become_identifiers() {
    let out = expand("describe \"outer module\" { it \"can fail\" {} it \"2nd-case\" {} }");
    let want = toks(
        "#[cfg(test)] mod outer_module { #[test] fn can_fail() {} #[test] fn _2nd_case() {} }",
    );
    assert_eq!(out, want);
}

#[test]
fn slug_of_names() {
    assert_eq!(slug_name(&Name::Label("can fail".to_string())), "can_fail");
    assert_eq!(slug_name(&Name::Label("1st".to_string())), "_1st");
    assert_eq!(slug_name(&Name::Label(String::new())), "__");
    assert_eq!(slug_name(&Name::Label("_".to_string())), "__");
    assert_eq!(slug_name(&Name::Label("fn".to_string())), "fn_");
    assert_eq!(slug_name(&Name::Label("self".to_string())), "self_");
    assert_eq!(slug_name(&ident("Self")), "Self_");
    assert_eq!(slug_name(&Name::Label("-".to_string())), "__");
    assert_eq!(slug_name(&Name::Label("a-b.c".to_string())), "a_b_c");
    assert_eq!(slug_name(&ident("plain")), "plain");
}

#[test]
fn keyword_and_empty_names_become_identifiers() {
    let out = expand("describe mod { it fn {} it \"\" {} it \"super\" {} }");
    let want = toks(
        "#[cfg(test)] mod mod_ { #[test] fn fn_() {} #[test] fn __() {} #[test] fn super_() {} }",
    );
    assert_eq!(out, want);
}

#[test]
fn keyword_aliases_are_equivalent() {
    let a = expand("describe g { it c {} }");
    let b = expand("context g { test c {} }");
    let c = expand("given g { then c {} }");
    let d = expand("when g { it c {} }");
    assert_eq!(a, b);
    assert_eq!(a, c);
    assert_eq!(a, d);
}

#[test]
fn empty_group_is_an_empty_scope() {
    assert_eq!(expand("describe g {}"), toks("#[cfg(test)] mod g {}"));
}

#[test]
fn several_top_level_groups() {
    let out = expand("describe a {} describe b { it c {} }");
    let want = toks("#[cfg(test)] mod a {} #[cfg(test)] mod b { #[test] fn c() {} }");
    assert_eq!(out, want);
}

#[test]
fn parse_builds_tree() {
    let root = parse(&toks("describe g { use x; before { a; } it c -> T { b; } describe h {} }"))
        .unwrap();
    assert_eq!(root.groups.len(), 1);
    let g = &root.groups[0];
    assert_eq!(g.props.name, ident("g"));
    assert_eq!(g.imports, vec![toks("x")]);
    assert_eq!(g.setup, Some(toks("a;")));
    assert_eq!(g.teardown, None);
    assert_eq!(g.children.len(), 2);
    match &g.children[0] {
        Node::Case(c) => {
            assert_eq!(c.props.name, ident("c"));
            assert_eq!(c.props.ret, Some(toks("T")));
            assert_eq!(c.body, toks("b;"));
        }
        Node::Group(_) => panic!("expected a case"),
    }
    assert!(matches!(&g.children[1], Node::Group(h) if h.children.is_empty()));
    assert_eq!(generate(&root), expand("describe g { use x; before { a; } it c -> T { b; } describe h {} }"));
}

#[test]
fn error_empty_input() {
    let e = demonstrate(&Vec::new()).unwrap_err();
    assert_eq!(e, ParseError { kind: ParseErrorKind::Syntax(Expected::Group), at: 0 });
}

#[test]
fn error_case_at_top_level() {
    let e = fails("it a {}");
    assert_eq!(e, ParseError { kind: ParseErrorKind::Syntax(Expected::GroupKeyword), at: 0 });
}

#[test]
fn error_unknown_keyword_in_body() {
    let e = fails("describe g { #[x] async spec a {} }");
    assert_eq!(e, ParseError { kind: ParseErrorKind::Syntax(Expected::Keyword), at: 8 });
}

#[test]
fn error_missing_name() {
    let e = fails("describe {}");
    assert_eq!(e, ParseError { kind: ParseErrorKind::Syntax(Expected::Name), at: 1 });
    let e = fails("describe 42 {}");
    assert_eq!(e, ParseError { kind: ParseErrorKind::Syntax(Expected::Name), at: 1 });
}

#[test]
fn error_missing_brace() {
    let e = fails("describe g ;");
    assert_eq!(e, ParseError { kind: ParseErrorKind::Syntax(Expected::Brace), at: 2 });
    let e = fails("describe g { before ; }");
    assert_eq!(e, ParseError { kind: ParseErrorKind::Syntax(Expected::Brace), at: 4 });
}

#[test]
fn error_attribute_without_brackets() {
    let e = fails("# describe g {}");
    assert_eq!(e, ParseError { kind: ParseErrorKind::Syntax(Expected::Bracket), at: 1 });
}

#[test]
fn error_empty_return_type() {
    let e = fails("describe g -> {}");
    assert_eq!(e, ParseError { kind: ParseErrorKind::Syntax(Expected::Type), at: 4 });
}

#[test]
fn error_empty_or_unterminated_path() {
    let e = fails("describe g { use ; }");
    assert_eq!(e, ParseError { kind: ParseErrorKind::Syntax(Expected::Path), at: 4 });
    let e = fails("describe g { use a::b }");
    assert_eq!(e, ParseError { kind: ParseErrorKind::Syntax(Expected::Path), at: 8 });
}

#[test]
fn error_unbalanced_group() {
    let s = vec![
        Tok::Ident("describe".to_string()),
        Tok::Ident("g".to_string()),
        Tok::Open(Delim::Brace),
    ];
    let e = demonstrate(&s).unwrap_err();
    assert_eq!(e, ParseError { kind: ParseErrorKind::Syntax(Expected::Close), at: 3 });
}
