//! The generator: folds each group's properties, imports, setup and teardown
//! into a composition context that flows down to its cases, and emits one
//! scope per group and one test function per case.

use vstd::prelude::*;
use crate::token::{Delim, Tok, TokV, toks_view, frags_view, lemma_toks_view_push, push_range, text_is};
use crate::tree::{Name, NameV, Group, GroupV, Case, CaseV, Node, NodeV, Root, RootV, opt_view, nodes_view, groups_view};

verus! {

/// What the groups above a node hand down to it.
pub struct CtxV {
    pub attrs: Seq<Seq<TokV>>,
    pub is_async: bool,
    pub ret: Option<Seq<TokV>>,
    pub imports: Seq<Seq<TokV>>,
    pub setup: Seq<TokV>,
    pub teardown: Seq<TokV>,
}

/// The context at the top level: nothing inherited.
pub open spec fn empty_ctx() -> CtxV {
    CtxV {
        attrs: Seq::empty(),
        is_async: false,
        ret: None,
        imports: Seq::empty(),
        setup: Seq::empty(),
        teardown: Seq::empty(),
    }
}

pub open spec fn or_empty(o: Option<Seq<TokV>>) -> Seq<TokV> {
    match o {
        Some(b) => b,
        None => Seq::empty(),
    }
}

/// A node's own return type where it has one, else the inherited one.
pub open spec fn ret_or(own: Option<Seq<TokV>>, inherited: Option<Seq<TokV>>) -> Option<
    Seq<TokV>,
> {
    if own is Some {
        own
    } else {
        inherited
    }
}

/// The context that a group hands to its children: ancestors' attributes and
/// imports first, `async` once set stays set, the nearest return type wins,
/// the group's setup after the inherited one and its teardown before.
pub open spec fn enter(c: CtxV, g: GroupV) -> CtxV {
    CtxV {
        attrs: c.attrs + g.props.attrs,
        is_async: c.is_async || g.props.is_async,
        ret: ret_or(g.props.ret, c.ret),
        imports: c.imports + g.imports,
        setup: c.setup + or_empty(g.setup),
        teardown: or_empty(g.teardown) + c.teardown,
    }
}

/// A generated declaration.
pub enum DeclV {
    /// A scope (`mod`) with its imports and items.
    Scope { name: Seq<char>, imports: Seq<Seq<TokV>>, items: Seq<DeclV> },
    /// A test function.
    Test {
        attrs: Seq<Seq<TokV>>,
        is_async: bool,
        name: Seq<char>,
        ret: Option<Seq<TokV>>,
        body: Seq<TokV>,
    },
}

pub open spec fn is_ident_char(c: char) -> bool {
    ('a' <= c && c <= 'z') || ('A' <= c && c <= 'Z') || ('0' <= c && c <= '9') || c == '_'
}

pub open spec fn slug_char(c: char) -> char {
    if is_ident_char(c) {
        c
    } else {
        '_'
    }
}

pub open spec fn is_digit(c: char) -> bool {
    '0' <= c && c <= '9'
}

/// The words of Rust that cannot name a function or a module (its strict and
/// reserved keywords).
pub open spec fn is_keyword(w: Seq<char>) -> bool {
    w == "as"@ || w == "async"@ || w == "await"@ || w == "break"@ || w == "const"@ || w == "continue"@ || w == "crate"@ || w == "dyn"@ || w == "else"@ || w == "enum"@ || w == "extern"@ || w == "false"@ || w == "fn"@ || w == "for"@ || w == "if"@ || w == "impl"@ || w == "in"@ || w == "let"@ || w == "loop"@ || w == "match"@ || w == "mod"@ || w == "move"@ || w == "mut"@ || w == "pub"@ || w == "ref"@ || w == "return"@ || w == "self"@ || w == "Self"@ || w == "static"@ || w == "struct"@ || w == "super"@ || w == "trait"@ || w == "true"@ || w == "type"@ || w == "unsafe"@ || w == "use"@ || w == "where"@ || w == "while"@ || w == "abstract"@ || w == "become"@ || w == "box"@ || w == "do"@ || w == "final"@ || w == "macro"@ || w == "override"@ || w == "priv"@ || w == "try"@ || w == "typeof"@ || w == "unsized"@ || w == "virtual"@ || w == "yield"@ || w == "gen"@
}

/// Whether `w` can name a function or a module: identifier characters only,
/// not empty, not starting with a digit, not `_` alone, not a keyword.
pub open spec fn is_identifier(w: Seq<char>) -> bool {
    &&& w.len() > 0
    &&& forall|i: int| 0 <= i < w.len() ==> is_ident_char(#[trigger] w[i])
    &&& !is_digit(w[0])
    &&& w != seq!['_']
    &&& !is_keyword(w)
}

/// A name made an identifier: every character that cannot stand in one
/// becomes `_`; `_` goes first where the result would be empty or start with a
/// digit, and last where it would be `_` alone or a keyword.
pub open spec fn slug_text(w: Seq<char>) -> Seq<char> {
    let m = w.map_values(|c: char| slug_char(c));
    let a = if m.len() == 0 || is_digit(m[0]) {
        seq!['_'] + m
    } else {
        m
    };
    if a == seq!['_'] || is_keyword(a) {
        a.push('_')
    } else {
        a
    }
}

pub open spec fn slug(n: NameV) -> Seq<char> {
    match n {
        NameV::Ident(w) => slug_text(w),
        NameV::Label(w) => slug_text(w),
    }
}

proof fn lemma_keyword_shape(w: Seq<char>)
    requires
        is_keyword(w),
    ensures
        w.len() >= 2,
        w[w.len() - 1] != '_',
{
    reveal_strlit("as");
    reveal_strlit("async");
    reveal_strlit("await");
    reveal_strlit("break");
    reveal_strlit("const");
    reveal_strlit("continue");
    reveal_strlit("crate");
    reveal_strlit("dyn");
    reveal_strlit("else");
    reveal_strlit("enum");
    reveal_strlit("extern");
    reveal_strlit("false");
    reveal_strlit("fn");
    reveal_strlit("for");
    reveal_strlit("if");
    reveal_strlit("impl");
    reveal_strlit("in");
    reveal_strlit("let");
    reveal_strlit("loop");
    reveal_strlit("match");
    reveal_strlit("mod");
    reveal_strlit("move");
    reveal_strlit("mut");
    reveal_strlit("pub");
    reveal_strlit("ref");
    reveal_strlit("return");
    reveal_strlit("self");
    reveal_strlit("Self");
    reveal_strlit("static");
    reveal_strlit("struct");
    reveal_strlit("super");
    reveal_strlit("trait");
    reveal_strlit("true");
    reveal_strlit("type");
    reveal_strlit("unsafe");
    reveal_strlit("use");
    reveal_strlit("where");
    reveal_strlit("while");
    reveal_strlit("abstract");
    reveal_strlit("become");
    reveal_strlit("box");
    reveal_strlit("do");
    reveal_strlit("final");
    reveal_strlit("macro");
    reveal_strlit("override");
    reveal_strlit("priv");
    reveal_strlit("try");
    reveal_strlit("typeof");
    reveal_strlit("unsized");
    reveal_strlit("virtual");
    reveal_strlit("yield");
    reveal_strlit("gen");
}

/// A slug can always name a function or a module.
pub proof fn lemma_slug_identifier(w: Seq<char>)
    ensures
        is_identifier(slug_text(w)),
{
    let m = w.map_values(|c: char| slug_char(c));
    let a = if m.len() == 0 || is_digit(m[0]) {
        seq!['_'] + m
    } else {
        m
    };
    assert forall|i: int| 0 <= i < a.len() implies is_ident_char(#[trigger] a[i]) by {
        if m.len() == 0 || is_digit(m[0]) {
            if i > 0 {
                assert(a[i] == m[i - 1]);
            }
        }
    }
    if a == seq!['_'] || is_keyword(a) {
        let b = a.push('_');
        assert forall|i: int| 0 <= i < b.len() implies is_ident_char(#[trigger] b[i]) by {
            if i < a.len() {
                assert(b[i] == a[i]);
            }
        }
        if is_keyword(b) {
            lemma_keyword_shape(b);
        }
        assert(b.len() >= 2);
        assert(b != seq!['_']);
    }
}

/// Slugging an identifier leaves it as it is.
pub proof fn lemma_slug_of_identifier(w: Seq<char>)
    requires
        is_identifier(w),
    ensures
        slug_text(w) == w,
{
    let m = w.map_values(|c: char| slug_char(c));
    assert(m =~= w);
}

/// The test that a case becomes under context `c`.
pub open spec fn case_decl(c: CtxV, k: CaseV) -> DeclV {
    DeclV::Test {
        attrs: c.attrs + k.props.attrs,
        is_async: c.is_async || k.props.is_async,
        name: slug(k.props.name),
        ret: ret_or(k.props.ret, c.ret),
        body: c.setup + k.body + c.teardown,
    }
}

/// The scope that a group becomes under context `c`.
pub open spec fn group_decl(c: CtxV, g: GroupV) -> DeclV
    decreases g,
{
    let c2 = enter(c, g);
    DeclV::Scope {
        name: slug(g.props.name),
        imports: c2.imports,
        items: nodes_decls(c2, g.children),
    }
}

pub open spec fn node_decl(c: CtxV, n: NodeV) -> DeclV
    decreases n,
{
    match n {
        NodeV::Group(g) => group_decl(c, g),
        NodeV::Case(k) => case_decl(c, k),
    }
}

pub open spec fn nodes_decls(c: CtxV, s: Seq<NodeV>) -> Seq<DeclV>
    decreases s,
{
    if s.len() == 0 {
        Seq::empty()
    } else {
        nodes_decls(c, s.subrange(0, s.len() - 1)).push(node_decl(c, s[s.len() - 1]))
    }
}

/// The declarations of a whole specification: one scope per top-level group.
pub open spec fn root_decls(r: RootV) -> Seq<DeclV> {
    r.groups.map_values(|g: GroupV| group_decl(empty_ctx(), g))
}

// Rendering declarations as tokens.

pub open spec fn concat(s: Seq<Seq<TokV>>) -> Seq<TokV>
    decreases s.len(),
{
    if s.len() == 0 {
        Seq::empty()
    } else {
        concat(s.subrange(0, s.len() - 1)) + s[s.len() - 1]
    }
}

pub open spec fn word(w: Seq<char>) -> TokV {
    TokV::Ident(w)
}

/// `use path;` for each import.
pub open spec fn render_imports(s: Seq<Seq<TokV>>) -> Seq<TokV>
    decreases s.len(),
{
    if s.len() == 0 {
        Seq::empty()
    } else {
        render_imports(s.subrange(0, s.len() - 1)) + seq![word("use"@)] + s[s.len() - 1] + seq![
            TokV::Punct(';', false),
        ]
    }
}

/// `#[test]`.
pub open spec fn test_marker() -> Seq<TokV> {
    seq![
        TokV::Punct('#', false),
        TokV::Open(Delim::Bracket),
        word("test"@),
        TokV::Close(Delim::Bracket),
    ]
}

/// `#[cfg(test)]`.
pub open spec fn cfg_test() -> Seq<TokV> {
    seq![
        TokV::Punct('#', false),
        TokV::Open(Delim::Bracket),
        word("cfg"@),
        TokV::Open(Delim::Paren),
        word("test"@),
        TokV::Close(Delim::Paren),
        TokV::Close(Delim::Bracket),
    ]
}

pub open spec fn render_ret(ret: Option<Seq<TokV>>) -> Seq<TokV> {
    match ret {
        Some(t) => seq![TokV::Punct('-', true), TokV::Punct('>', false)] + t,
        None => Seq::empty(),
    }
}

/// The head of a test: its attributes, and the test marker where it is not
/// asynchronous or `async` where it is.
pub open spec fn render_test_head(attrs: Seq<Seq<TokV>>, is_async: bool) -> Seq<TokV> {
    if is_async {
        concat(attrs) + seq![word("async"@)]
    } else {
        test_marker() + concat(attrs)
    }
}

pub open spec fn render_decl(d: DeclV) -> Seq<TokV>
    decreases d,
{
    match d {
        DeclV::Scope { name, imports, items } => seq![
            word("mod"@),
            word(name),
            TokV::Open(Delim::Brace),
        ] + render_imports(imports) + render_decls(items) + seq![TokV::Close(Delim::Brace)],
        DeclV::Test { attrs, is_async, name, ret, body } => render_test_head(attrs, is_async)
            + seq![
            word("fn"@),
            word(name),
            TokV::Open(Delim::Paren),
            TokV::Close(Delim::Paren),
        ] + render_ret(ret) + seq![TokV::Open(Delim::Brace)] + body + seq![
            TokV::Close(Delim::Brace),
        ],
    }
}

pub open spec fn render_decls(s: Seq<DeclV>) -> Seq<TokV>
    decreases s,
{
    if s.len() == 0 {
        Seq::empty()
    } else {
        render_decls(s.subrange(0, s.len() - 1)) + render_decl(s[s.len() - 1])
    }
}

/// Each top-level scope, marked to be compiled for tests only.
pub open spec fn render_root(s: Seq<DeclV>) -> Seq<TokV>
    decreases s.len(),
{
    if s.len() == 0 {
        Seq::empty()
    } else {
        render_root(s.subrange(0, s.len() - 1)) + cfg_test() + render_decl(s[s.len() - 1])
    }
}

fn ident_char(c: char) -> (r: bool)
    ensures
        r == is_ident_char(c),
{
    ('a' <= c && c <= 'z') || ('A' <= c && c <= 'Z') || ('0' <= c && c <= '9') || c == '_'
}

fn keyword(w: &String) -> (r: bool)
    ensures
        r == is_keyword(w@),
{
    text_is(w, "as") || text_is(w, "async") || text_is(w, "await") || text_is(w, "break") || text_is(w, "const") || text_is(w, "continue") || text_is(w, "crate") || text_is(w, "dyn") || text_is(w, "else") || text_is(w, "enum") || text_is(w, "extern") || text_is(w, "false") || text_is(w, "fn") || text_is(w, "for") || text_is(w, "if") || text_is(w, "impl") || text_is(w, "in") || text_is(w, "let") || text_is(w, "loop") || text_is(w, "match") || text_is(w, "mod") || text_is(w, "move") || text_is(w, "mut") || text_is(w, "pub") || text_is(w, "ref") || text_is(w, "return") || text_is(w, "self") || text_is(w, "Self") || text_is(w, "static") || text_is(w, "struct") || text_is(w, "super") || text_is(w, "trait") || text_is(w, "true") || text_is(w, "type") || text_is(w, "unsafe") || text_is(w, "use") || text_is(w, "where") || text_is(w, "while") || text_is(w, "abstract") || text_is(w, "become") || text_is(w, "box") || text_is(w, "do") || text_is(w, "final") || text_is(w, "macro") || text_is(w, "override") || text_is(w, "priv") || text_is(w, "try") || text_is(w, "typeof") || text_is(w, "unsized") || text_is(w, "virtual") || text_is(w, "yield") || text_is(w, "gen")
}

/// The identifier that a name gives.
pub fn slug_name(n: &Name) -> (r: String)
    ensures
        r@ == slug(n@),
        is_identifier(r@),
{
    let w = match n {
        Name::Ident(w) => w,
        Name::Label(w) => w,
    };
    proof {
        reveal_strlit("_");
        assert("_"@ =~= seq!['_']);
        lemma_slug_identifier(w@);
    }
    let t = w.as_str();
    let len = t.unicode_len();
    let ghost m = w@.map_values(|c: char| slug_char(c));
    let mut out = String::new();
    let lead = len == 0 || {
        let c = t.get_char(0);
        '0' <= c && c <= '9'
    };
    if lead {
        out.append("_");
    }
    let ghost pre = out@;
    let mut i: usize = 0;
    while i < len
        invariant
            i <= len,
            len == w@.len(),
            t@ == w@,
            "_"@ == seq!['_'],
            m == w@.map_values(|c: char| slug_char(c)),
            pre == (if lead { seq!['_'] } else { Seq::<char>::empty() }),
            out@ == pre + m.subrange(0, i as int),
        decreases len - i,
    {
        let c = t.get_char(i);
        if ident_char(c) {
            let one = t.substring_char(i, i + 1);
            assert(one@ =~= seq![c]);
            out.append(one);
        } else {
            out.append("_");
        }
        assert(m.subrange(0, i + 1) =~= m.subrange(0, i as int).push(slug_char(c)));
        assert(out@ =~= pre + m.subrange(0, i + 1));
        i = i + 1;
    }
    assert(m.subrange(0, len as int) =~= m);
    proof {
        if len > 0 {
            assert(m[0] == slug_char(w@[0]));
        }
    }
    if lead {
        assert(out@ =~= seq!['_'] + m);
    } else {
        assert(out@ =~= m);
    }
    if text_is(&out, "_") || keyword(&out) {
        out.append("_");
    }
    out
}

/// The composition context, as the generator carries it.
pub struct Ctx {
    pub attrs: Vec<Vec<Tok>>,
    pub is_async: bool,
    pub ret: Option<Vec<Tok>>,
    pub imports: Vec<Vec<Tok>>,
    pub setup: Vec<Tok>,
    pub teardown: Vec<Tok>,
}

impl View for Ctx {
    type V = CtxV;

    open spec fn view(&self) -> CtxV {
        CtxV {
            attrs: frags_view(self.attrs@),
            is_async: self.is_async,
            ret: opt_view(self.ret),
            imports: frags_view(self.imports@),
            setup: toks_view(self.setup@),
            teardown: toks_view(self.teardown@),
        }
    }
}

proof fn lemma_concat_push(s: Seq<Seq<TokV>>, x: Seq<TokV>)
    ensures
        concat(s.push(x)) == concat(s) + x,
{
    assert(s.push(x).subrange(0, s.len() as int) =~= s);
}

proof fn lemma_concat_add(a: Seq<Seq<TokV>>, b: Seq<Seq<TokV>>)
    ensures
        concat(a + b) == concat(a) + concat(b),
    decreases b.len(),
{
    if b.len() == 0 {
        assert(a + b =~= a);
        assert(concat(a) + concat(b) =~= concat(a));
    } else {
        let b2 = b.subrange(0, b.len() - 1);
        lemma_concat_add(a, b2);
        assert((a + b).subrange(0, (a + b).len() - 1) =~= a + b2);
        assert(concat(a + b) =~= concat(a) + concat(b));
    }
}

proof fn lemma_frags_prefix(s: Seq<Vec<Tok>>, i: int)
    requires
        0 <= i < s.len(),
    ensures
        frags_view(s).subrange(0, i + 1) == frags_view(s).subrange(0, i).push(toks_view(s[i]@)),
{
    assert(frags_view(s).subrange(0, i + 1) =~= frags_view(s).subrange(0, i).push(
        toks_view(s[i]@),
    ));
}

fn push_tok(out: &mut Vec<Tok>, t: Tok)
    ensures
        toks_view(final(out)@) == toks_view(old(out)@).push(t@),
{
    proof {
        lemma_toks_view_push(out@, t);
    }
    out.push(t);
}

fn push_word(out: &mut Vec<Tok>, w: &str)
    ensures
        toks_view(final(out)@) == toks_view(old(out)@).push(word(w@)),
{
    push_tok(out, Tok::Ident(w.to_owned()));
}

/// Appends copies of all of `src`.
fn push_all(out: &mut Vec<Tok>, src: &Vec<Tok>)
    ensures
        toks_view(final(out)@) == toks_view(old(out)@) + toks_view(src@),
{
    push_range(out, src, 0, src.len());
    assert(toks_view(src@).subrange(0, src.len() as int) =~= toks_view(src@));
}

fn copy_toks(src: &Vec<Tok>) -> (r: Vec<Tok>)
    ensures
        toks_view(r@) == toks_view(src@),
{
    let mut r: Vec<Tok> = Vec::new();
    push_all(&mut r, src);
    assert(toks_view(r@) =~= toks_view(src@));
    r
}

fn copy_opt(o: &Option<Vec<Tok>>) -> (r: Option<Vec<Tok>>)
    ensures
        opt_view(r) == opt_view(*o),
{
    match o {
        Some(v) => Some(copy_toks(v)),
        None => None,
    }
}

/// Appends copies of the fragments of `src`.
fn push_frags(dst: &mut Vec<Vec<Tok>>, src: &Vec<Vec<Tok>>)
    ensures
        frags_view(final(dst)@) == frags_view(old(dst)@) + frags_view(src@),
{
    let mut i: usize = 0;
    while i < src.len()
        invariant
            i <= src.len(),
            frags_view(dst@) == frags_view(old(dst)@) + frags_view(src@).subrange(0, i as int),
        decreases src.len() - i,
    {
        let f = copy_toks(&src[i]);
        let ghost before = dst@;
        dst.push(f);
        proof {
            lemma_frags_prefix(src@, i as int);
            assert(frags_view(dst@) =~= frags_view(before).push(toks_view(f@)));
        }
        i = i + 1;
    }
    assert(frags_view(src@).subrange(0, src.len() as int) =~= frags_view(src@));
}

/// Appends the tokens of every fragment of `src`, in order.
fn push_concat(out: &mut Vec<Tok>, src: &Vec<Vec<Tok>>)
    ensures
        toks_view(final(out)@) == toks_view(old(out)@) + concat(frags_view(src@)),
{
    let mut i: usize = 0;
    assert(concat(frags_view(src@).subrange(0, 0)) =~= Seq::empty());
    while i < src.len()
        invariant
            i <= src.len(),
            toks_view(out@) == toks_view(old(out)@) + concat(frags_view(src@).subrange(0, i as int)),
        decreases src.len() - i,
    {
        push_all(out, &src[i]);
        proof {
            lemma_frags_prefix(src@, i as int);
            lemma_concat_push(frags_view(src@).subrange(0, i as int), toks_view(src@[i as int]@));
        }
        i = i + 1;
    }
    assert(frags_view(src@).subrange(0, src.len() as int) =~= frags_view(src@));
}

/// Appends `use path;` for every import.
fn push_imports(out: &mut Vec<Tok>, src: &Vec<Vec<Tok>>)
    ensures
        toks_view(final(out)@) == toks_view(old(out)@) + render_imports(frags_view(src@)),
{
    let mut i: usize = 0;
    assert(render_imports(frags_view(src@).subrange(0, 0)) =~= Seq::empty());
    while i < src.len()
        invariant
            i <= src.len(),
            toks_view(out@) == toks_view(old(out)@) + render_imports(
                frags_view(src@).subrange(0, i as int),
            ),
        decreases src.len() - i,
    {
        let ghost before = toks_view(out@);
        push_word(out, "use");
        push_all(out, &src[i]);
        push_tok(out, Tok::Punct(';', false));
        proof {
            let f = frags_view(src@);
            lemma_frags_prefix(src@, i as int);
            assert(f.subrange(0, i + 1).subrange(0, i as int) =~= f.subrange(0, i as int));
            assert(toks_view(out@) =~= before + seq![word("use"@)] + toks_view(src@[i as int]@)
                + seq![TokV::Punct(';', false)]);
        }
        i = i + 1;
    }
    assert(frags_view(src@).subrange(0, src.len() as int) =~= frags_view(src@));
}

/// Appends the return-type suffix.
fn push_ret(out: &mut Vec<Tok>, ret: &Vec<Tok>)
    ensures
        toks_view(final(out)@) == toks_view(old(out)@) + render_ret(Some(toks_view(ret@))),
{
    let ghost before = toks_view(out@);
    push_tok(out, Tok::Punct('-', true));
    push_tok(out, Tok::Punct('>', false));
    push_all(out, ret);
    assert(toks_view(out@) =~= before + render_ret(Some(toks_view(ret@))));
}

/// The context that group `g` hands to its children.
pub fn enter_group(c: &Ctx, g: &Group) -> (r: Ctx)
    ensures
        r@ == enter(c@, g@),
{
    let mut attrs: Vec<Vec<Tok>> = Vec::new();
    push_frags(&mut attrs, &c.attrs);
    push_frags(&mut attrs, &g.props.attrs);
    let mut imports: Vec<Vec<Tok>> = Vec::new();
    push_frags(&mut imports, &c.imports);
    push_frags(&mut imports, &g.imports);
    let mut setup = copy_toks(&c.setup);
    if let Some(b) = &g.setup {
        push_all(&mut setup, b);
    }
    let mut teardown: Vec<Tok> = Vec::new();
    if let Some(b) = &g.teardown {
        push_all(&mut teardown, b);
    }
    push_all(&mut teardown, &c.teardown);
    let ret = if g.props.ret.is_some() {
        copy_opt(&g.props.ret)
    } else {
        copy_opt(&c.ret)
    };
    proof {
        assert(frags_view(Seq::<Vec<Tok>>::empty()) =~= Seq::empty());
        assert(toks_view(Seq::<Tok>::empty()) =~= Seq::empty());
    }
    let r = Ctx { attrs, is_async: c.is_async || g.props.is_async, ret, imports, setup, teardown };
    assert(r@.attrs =~= enter(c@, g@).attrs);
    assert(r@.imports =~= enter(c@, g@).imports);
    assert(r@.setup =~= enter(c@, g@).setup);
    assert(r@.teardown =~= enter(c@, g@).teardown);
    r
}

pub open spec fn case_view(k: Case) -> CaseV {
    CaseV { props: k.props@, body: toks_view(k.body@) }
}

/// Emits the head of the test that case `k` becomes under `c`.
fn emit_head(c: &Ctx, k: &Case, out: &mut Vec<Tok>)
    ensures
        toks_view(final(out)@) == toks_view(old(out)@) + render_test_head(
            c@.attrs + k.props@.attrs,
            c.is_async || k.props.is_async,
        ),
{
    let ghost o = toks_view(out@);
    proof {
        lemma_concat_add(c@.attrs, k.props@.attrs);
    }
    if c.is_async || k.props.is_async {
        push_concat(out, &c.attrs);
        push_concat(out, &k.props.attrs);
        push_word(out, "async");
    } else {
        push_tok(out, Tok::Punct('#', false));
        push_tok(out, Tok::Open(Delim::Bracket));
        push_word(out, "test");
        push_tok(out, Tok::Close(Delim::Bracket));
        push_concat(out, &c.attrs);
        push_concat(out, &k.props.attrs);
    }
    assert(toks_view(out@) =~= o + render_test_head(
        c@.attrs + k.props@.attrs,
        c.is_async || k.props.is_async,
    ));
}

/// Emits the signature of the test that case `k` becomes under `c`.
fn emit_signature(c: &Ctx, k: &Case, out: &mut Vec<Tok>)
    ensures
        toks_view(final(out)@) == toks_view(old(out)@) + seq![
            word("fn"@),
            word(slug(k.props.name@)),
            TokV::Open(Delim::Paren),
            TokV::Close(Delim::Paren),
        ] + render_ret(ret_or(k.props@.ret, c@.ret)),
{
    let ghost o = toks_view(out@);
    push_word(out, "fn");
    push_tok(out, Tok::Ident(slug_name(&k.props.name)));
    push_tok(out, Tok::Open(Delim::Paren));
    push_tok(out, Tok::Close(Delim::Paren));
    let ghost sig = toks_view(out@);
    if let Some(t) = &k.props.ret {
        push_ret(out, t);
    } else if let Some(t) = &c.ret {
        push_ret(out, t);
    }
    assert(toks_view(out@) =~= sig + render_ret(ret_or(k.props@.ret, c@.ret)));
}

/// Emits the body of the test that case `k` becomes under `c`, braces included.
fn emit_body(c: &Ctx, k: &Case, out: &mut Vec<Tok>)
    ensures
        toks_view(final(out)@) == toks_view(old(out)@) + seq![TokV::Open(Delim::Brace)] + (c@.setup
            + toks_view(k.body@) + c@.teardown) + seq![TokV::Close(Delim::Brace)],
{
    let ghost o = toks_view(out@);
    push_tok(out, Tok::Open(Delim::Brace));
    push_all(out, &c.setup);
    push_all(out, &k.body);
    push_all(out, &c.teardown);
    push_tok(out, Tok::Close(Delim::Brace));
    assert(toks_view(out@) =~= o + seq![TokV::Open(Delim::Brace)] + (c@.setup + toks_view(
        k.body@,
    ) + c@.teardown) + seq![TokV::Close(Delim::Brace)]);
}

/// Emits the test that case `k` becomes under `c`.
pub fn emit_case(c: &Ctx, k: &Case, out: &mut Vec<Tok>)
    ensures
        toks_view(final(out)@) == toks_view(old(out)@) + render_decl(case_decl(c@, case_view(*k))),
{
    let ghost o = toks_view(out@);
    emit_head(c, k, out);
    let ghost a = toks_view(out@);
    emit_signature(c, k, out);
    let ghost b = toks_view(out@);
    emit_body(c, k, out);
    let ghost d = case_decl(c@, case_view(*k));
    assert(toks_view(out@) =~= o + render_decl(d));
}

proof fn lemma_nodes_view(s: Seq<Node>)
    ensures
        nodes_view(s).len() == s.len(),
        forall|i: int| 0 <= i < s.len() ==> #[trigger] nodes_view(s)[i] == s[i]@,
    decreases s.len(),
{
    if s.len() > 0 {
        lemma_nodes_view(s.subrange(0, s.len() - 1));
    }
}

proof fn lemma_groups_view(s: Seq<Group>)
    ensures
        groups_view(s).len() == s.len(),
        forall|i: int| 0 <= i < s.len() ==> #[trigger] groups_view(s)[i] == s[i]@,
    decreases s.len(),
{
    if s.len() > 0 {
        lemma_groups_view(s.subrange(0, s.len() - 1));
    }
}

proof fn lemma_render_decls_push(s: Seq<DeclV>, d: DeclV)
    ensures
        render_decls(s.push(d)) == render_decls(s) + render_decl(d),
{
    assert(s.push(d).subrange(0, s.len() as int) =~= s);
}

proof fn lemma_nodes_decls_prefix(c: CtxV, t: Seq<NodeV>, i: int)
    requires
        0 <= i < t.len(),
    ensures
        nodes_decls(c, t.subrange(0, i + 1)) == nodes_decls(c, t.subrange(0, i)).push(
            node_decl(c, t[i]),
        ),
{
    assert(t.subrange(0, i + 1).subrange(0, i) =~= t.subrange(0, i));
}

/// Emits the scope that group `g` becomes under `c`.
pub fn emit_group(c: &Ctx, g: &Group, out: &mut Vec<Tok>)
    ensures
        toks_view(final(out)@) == toks_view(old(out)@) + render_decl(group_decl(c@, g@)),
    decreases g, 0int,
{
    let ghost o = toks_view(out@);
    let c2 = enter_group(c, g);
    let ghost kids = nodes_view(g.children@);
    proof {
        lemma_nodes_view(g.children@);
        assert(g@.children == kids);
    }
    push_word(out, "mod");
    push_tok(out, Tok::Ident(slug_name(&g.props.name)));
    push_tok(out, Tok::Open(Delim::Brace));
    push_imports(out, &c2.imports);
    let ghost head = toks_view(out@);
    let mut i: usize = 0;
    assert(kids.subrange(0, 0) =~= Seq::<NodeV>::empty());
    assert(render_decls(nodes_decls(c2@, kids.subrange(0, 0))) =~= Seq::empty());
    while i < g.children.len()
        invariant
            i <= g.children.len(),
            kids == nodes_view(g.children@),
            kids.len() == g.children.len(),
            forall|j: int| 0 <= j < g.children.len() ==> #[trigger] kids[j] == g.children@[j]@,
            toks_view(out@) == head + render_decls(nodes_decls(c2@, kids.subrange(0, i as int))),
        decreases g.children.len() - i,
    {
        emit_node(&c2, &g.children[i], out);
        proof {
            lemma_nodes_decls_prefix(c2@, kids, i as int);
            lemma_render_decls_push(
                nodes_decls(c2@, kids.subrange(0, i as int)),
                node_decl(c2@, kids[i as int]),
            );
        }
        i = i + 1;
    }
    push_tok(out, Tok::Close(Delim::Brace));
    assert(kids.subrange(0, kids.len() as int) =~= kids);
    assert(toks_view(out@) =~= o + render_decl(group_decl(c@, g@)));
}

pub fn emit_node(c: &Ctx, n: &Node, out: &mut Vec<Tok>)
    ensures
        toks_view(final(out)@) == toks_view(old(out)@) + render_decl(node_decl(c@, n@)),
    decreases n, 1int,
{
    match n {
        Node::Group(g) => emit_group(c, g, out),
        Node::Case(k) => emit_case(c, k, out),
    }
}

/// Expands a specification into its test declarations.
pub fn generate(r: &Root) -> (out: Vec<Tok>)
    ensures
        toks_view(out@) == render_root(root_decls(r@)),
{
    let c = Ctx {
        attrs: Vec::new(),
        is_async: false,
        ret: None,
        imports: Vec::new(),
        setup: Vec::new(),
        teardown: Vec::new(),
    };
    proof {
        assert(frags_view(Seq::<Vec<Tok>>::empty()) =~= Seq::empty());
        assert(toks_view(Seq::<Tok>::empty()) =~= Seq::empty());
        assert(c@ == empty_ctx());
        lemma_groups_view(r.groups@);
    }
    let ghost ds = root_decls(r@);
    let mut out: Vec<Tok> = Vec::new();
    let mut i: usize = 0;
    assert(ds.subrange(0, 0) =~= Seq::<DeclV>::empty());
    assert(toks_view(out@) =~= render_root(ds.subrange(0, 0)));
    while i < r.groups.len()
        invariant
            i <= r.groups.len(),
            c@ == empty_ctx(),
            ds == root_decls(r@),
            ds.len() == r.groups.len(),
            forall|j: int| 0 <= j < r.groups.len() ==> #[trigger] ds[j] == group_decl(
                empty_ctx(),
                r.groups@[j]@,
            ),
            toks_view(out@) == render_root(ds.subrange(0, i as int)),
        decreases r.groups.len() - i,
    {
        let ghost before = toks_view(out@);
        push_tok(&mut out, Tok::Punct('#', false));
        push_tok(&mut out, Tok::Open(Delim::Bracket));
        push_word(&mut out, "cfg");
        push_tok(&mut out, Tok::Open(Delim::Paren));
        push_word(&mut out, "test");
        push_tok(&mut out, Tok::Close(Delim::Paren));
        push_tok(&mut out, Tok::Close(Delim::Bracket));
        emit_group(&c, &r.groups[i], &mut out);
        proof {
            assert(ds.subrange(0, i + 1).subrange(0, i as int) =~= ds.subrange(0, i as int));
            assert(toks_view(out@) =~= before + cfg_test() + render_decl(ds[i as int]));
        }
        i = i + 1;
    }
    assert(ds.subrange(0, ds.len() as int) =~= ds);
    out
}

} // verus!
