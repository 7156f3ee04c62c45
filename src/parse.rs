//! The parser: from a flat token sequence to a [`Root`].
//!
//! ```text
//! Root      := Group+
//! Group     := Attr* "async"? GroupKw Name ("->" Type)? "{" Item* "}"
//! Item      := "use" Path ";" | "before" Block | "after" Block | Group | Case
//! Case      := Attr* "async"? CaseKw Name ("->" Type)? Block
//! Attr      := "#" "[" ... "]"
//! Name      := identifier | string literal
//! Type      := one or more tokens up to the first "{" outside "<...>"
//! Path      := one or more tokens up to the first top-level ";"
//! Block     := "{" ... "}"
//! GroupKw   := describe | context | given | when
//! CaseKw    := it | test | then
//! ```
//! Whether a node is a group or a case is decided by the keyword that follows
//! its attributes and its `async` marker. A group body holds at most one
//! `before` and one `after` block.

use vstd::prelude::*;
use crate::token::{Delim, Tok, TokV, close_of, lemma_scan_close_after, is_punct, toks_view, frags_view, copy_range, find_close, text_is};
use crate::tree::{Name, NameV, Props, PropsV, Group, GroupV, Case, CaseV, Node, NodeV, Root, RootV, opt_view, nodes_view, groups_view};

verus! {

/// What the parser expected where it failed.
#[derive(Clone, Copy, Debug, PartialEq, Eq, Structural)]
pub enum Expected {
    /// A group keyword (at the top level).
    GroupKeyword,
    /// A group or case keyword.
    Keyword,
    /// An identifier or a string literal.
    Name,
    /// `{`.
    Brace,
    /// `[` after `#`.
    Bracket,
    /// A non-empty return type before `{`.
    Type,
    /// A non-empty path before `;`.
    Path,
    /// The end of the enclosing group (its delimiters are unbalanced).
    Close,
    /// At least one group.
    Group,
}

#[derive(Clone, Debug, PartialEq, Eq)]
pub enum ParseErrorKind {
    Syntax(Expected),
    /// A second `before` block in the group of that name.
    DuplicateSetup(Name),
    /// A second `after` block in the group of that name.
    DuplicateTeardown(Name),
}

/// A parse failure and the index of the offending token (the length of the
/// input where it ended too early).
#[derive(Clone, Debug, PartialEq, Eq)]
pub struct ParseError {
    pub kind: ParseErrorKind,
    pub at: usize,
}

pub enum ErrKindV {
    Syntax(Expected),
    DuplicateSetup(NameV),
    DuplicateTeardown(NameV),
}

pub struct ErrV {
    pub kind: ErrKindV,
    pub at: int,
}

impl View for ParseError {
    type V = ErrV;

    open spec fn view(&self) -> ErrV {
        ErrV {
            kind: match self.kind {
                ParseErrorKind::Syntax(e) => ErrKindV::Syntax(e),
                ParseErrorKind::DuplicateSetup(n) => ErrKindV::DuplicateSetup(n@),
                ParseErrorKind::DuplicateTeardown(n) => ErrKindV::DuplicateTeardown(n@),
            },
            at: self.at as int,
        }
    }
}

impl ErrKindV {
    /// A duplicate `before` or `after` block, as opposed to a syntax error.
    pub open spec fn is_structural(self) -> bool {
        self is DuplicateSetup || self is DuplicateTeardown
    }
}

pub open spec fn syntax<T>(e: Expected, at: int) -> Result<T, ErrV> {
    Err(ErrV { kind: ErrKindV::Syntax(e), at })
}

pub open spec fn is_group_kw(w: Seq<char>) -> bool {
    w == "describe"@ || w == "context"@ || w == "given"@ || w == "when"@
}

pub open spec fn is_case_kw(w: Seq<char>) -> bool {
    w == "it"@ || w == "test"@ || w == "then"@
}

pub open spec fn group_kw_tok(t: TokV) -> bool {
    t matches TokV::Ident(w) && is_group_kw(w)
}

pub open spec fn case_kw_tok(t: TokV) -> bool {
    t matches TokV::Ident(w) && is_case_kw(w)
}

/// The outer attributes from `i` on, after those in `acc`, and where they end.
pub open spec fn attrs_from(s: Seq<TokV>, i: int, acc: Seq<Seq<TokV>>) -> Result<
    (Seq<Seq<TokV>>, int),
    ErrV,
>
    decreases s.len() - i,
{
    if 0 <= i < s.len() && is_punct(s[i], '#') {
        if i + 1 < s.len() && s[i + 1] == TokV::Open(Delim::Bracket) {
            match close_of(s, i + 1) {
                Some(j) => if i < j < s.len() {
                    attrs_from(s, j + 1, acc.push(s.subrange(i, j + 1)))
                } else {
                    syntax(Expected::Close, i + 1)
                },
                None => syntax(Expected::Close, i + 1),
            }
        } else {
            syntax(Expected::Bracket, i + 1)
        }
    } else {
        Ok((acc, i))
    }
}

pub open spec fn is_async_at(s: Seq<TokV>, j: int) -> bool {
    0 <= j < s.len() && s[j] == TokV::Ident("async"@)
}

/// The name that a token gives: an identifier, or the inside of a string literal.
pub open spec fn name_of(t: TokV) -> Option<NameV> {
    match t {
        TokV::Ident(w) => Some(NameV::Ident(w)),
        TokV::Lit(w) => if w.len() >= 2 && w[0] == '"' && w[w.len() - 1] == '"' {
            Some(NameV::Label(w.subrange(1, w.len() - 1)))
        } else {
            None
        },
        _ => None,
    }
}

/// Where a return type ends, scanning from `k` with `angle` angle brackets
/// open: at the first `{` outside any nested group and any `<...>` (the `>`
/// of an arrow `->` closes none).
pub open spec fn type_end(s: Seq<TokV>, k: int, angle: nat) -> Result<int, ErrV>
    decreases s.len() - k,
{
    if k < 0 || k >= s.len() {
        syntax(Expected::Brace, k)
    } else {
        match s[k] {
            TokV::Open(d) => if d == Delim::Brace && angle == 0 {
                Ok(k)
            } else {
                match close_of(s, k) {
                    Some(j) => if k < j < s.len() {
                        type_end(s, j + 1, angle)
                    } else {
                        syntax(Expected::Close, k)
                    },
                    None => syntax(Expected::Close, k),
                }
            },
            TokV::Close(_) => syntax(Expected::Brace, k),
            TokV::Punct('<', _) => type_end(s, k + 1, angle + 1),
            TokV::Punct('>', _) => if (k > 0 && s[k - 1] == TokV::Punct('-', true)) || angle == 0 {
                type_end(s, k + 1, angle)
            } else {
                type_end(s, k + 1, (angle - 1) as nat)
            },
            _ => type_end(s, k + 1, angle),
        }
    }
}

/// Where a path that starts at `k` ends: at the first `;` outside any nested
/// group.
pub open spec fn path_end(s: Seq<TokV>, k: int) -> Result<int, ErrV>
    decreases s.len() - k,
{
    if k < 0 || k >= s.len() {
        syntax(Expected::Path, k)
    } else {
        match s[k] {
            TokV::Punct(';', _) => Ok(k),
            TokV::Open(_) => match close_of(s, k) {
                Some(j) => if k < j < s.len() {
                    path_end(s, j + 1)
                } else {
                    syntax(Expected::Close, k)
                },
                None => syntax(Expected::Close, k),
            },
            TokV::Close(_) => syntax(Expected::Path, k),
            _ => path_end(s, k + 1),
        }
    }
}

/// The optional `-> Type` at `k`, and where it ends.
pub open spec fn ret_from(s: Seq<TokV>, k: int) -> Result<(Option<Seq<TokV>>, int), ErrV> {
    if 0 <= k && k + 1 < s.len() && s[k] == TokV::Punct('-', true) && is_punct(s[k + 1], '>') {
        match type_end(s, k + 2, 0) {
            Ok(e) => if e > k + 2 {
                Ok((Some(s.subrange(k + 2, e)), e))
            } else {
                syntax(Expected::Type, k + 2)
            },
            Err(err) => Err(err),
        }
    } else {
        Ok((None, k))
    }
}

/// The properties of a group (`group` true) or a case at `i`, and where they end.
pub open spec fn props_from(s: Seq<TokV>, i: int, group: bool) -> Result<(PropsV, int), ErrV> {
    match attrs_from(s, i, Seq::empty()) {
        Err(e) => Err(e),
        Ok((attrs, j)) => {
            let is_async = is_async_at(s, j);
            let k = if is_async { j + 1 } else { j };
            if !(0 <= k < s.len() && (if group {
                group_kw_tok(s[k])
            } else {
                case_kw_tok(s[k])
            })) {
                syntax(if group { Expected::GroupKeyword } else { Expected::Keyword }, k)
            } else if !(k + 1 < s.len() && name_of(s[k + 1]) is Some) {
                syntax(Expected::Name, k + 1)
            } else {
                match ret_from(s, k + 2) {
                    Err(e) => Err(e),
                    Ok((ret, e)) => Ok(
                        (
                            PropsV { attrs, is_async, name: name_of(s[k + 1])->0, ret },
                            e,
                        ),
                    ),
                }
            }
        },
    }
}

/// The block (`{ ... }`) at `i`: its contents, and the index after it.
pub open spec fn block_at(s: Seq<TokV>, i: int) -> Result<(Seq<TokV>, int), ErrV> {
    if 0 <= i < s.len() && s[i] == TokV::Open(Delim::Brace) {
        match close_of(s, i) {
            Some(j) => if i < j {
                Ok((s.subrange(i + 1, j), j + 1))
            } else {
                syntax(Expected::Close, i)
            },
            None => syntax(Expected::Close, i),
        }
    } else {
        syntax(Expected::Brace, i)
    }
}

/// Whether the node at `i` is a group (`true`) or a case, looking past its
/// attributes and its `async` marker without consuming them.
pub open spec fn node_kind(s: Seq<TokV>, i: int) -> Result<bool, ErrV> {
    match attrs_from(s, i, Seq::empty()) {
        Err(e) => Err(e),
        Ok((_, j)) => {
            let k = if is_async_at(s, j) { j + 1 } else { j };
            if 0 <= k < s.len() && group_kw_tok(s[k]) {
                Ok(true)
            } else if 0 <= k < s.len() && case_kw_tok(s[k]) {
                Ok(false)
            } else {
                syntax(Expected::Keyword, k)
            }
        },
    }
}

pub open spec fn case_at(s: Seq<TokV>, i: int) -> Result<(CaseV, int), ErrV> {
    match props_from(s, i, false) {
        Err(e) => Err(e),
        Ok((props, j)) => match block_at(s, j) {
            Err(e) => Err(e),
            Ok((body, k)) => Ok((CaseV { props, body }, k)),
        },
    }
}

/// One item of a group body.
pub enum ItemV {
    Import(Seq<TokV>),
    Setup(Seq<TokV>),
    Teardown(Seq<TokV>),
    Node(NodeV),
}

/// Records an item, found at `at`, in the group built so far.
pub open spec fn add_item(g: GroupV, it: ItemV, at: int) -> Result<GroupV, ErrV> {
    match it {
        ItemV::Import(p) => Ok(GroupV { imports: g.imports.push(p), ..g }),
        ItemV::Setup(b) => if g.setup is Some {
            Err(ErrV { kind: ErrKindV::DuplicateSetup(g.props.name), at })
        } else {
            Ok(GroupV { setup: Some(b), ..g })
        },
        ItemV::Teardown(b) => if g.teardown is Some {
            Err(ErrV { kind: ErrKindV::DuplicateTeardown(g.props.name), at })
        } else {
            Ok(GroupV { teardown: Some(b), ..g })
        },
        ItemV::Node(n) => Ok(GroupV { children: g.children.push(n), ..g }),
    }
}

pub open spec fn group_at(s: Seq<TokV>, i: int) -> Result<(GroupV, int), ErrV>
    decreases s.len() - i, 0int,
{
    match props_from(s, i, true) {
        Err(e) => Err(e),
        Ok((props, j)) => if !(0 <= j < s.len() && s[j] == TokV::Open(Delim::Brace)) {
            syntax(Expected::Brace, j)
        } else if j < i {
            syntax(Expected::Brace, j)
        } else {
            body_from(
                s,
                j + 1,
                GroupV {
                    props,
                    imports: Seq::empty(),
                    setup: None,
                    teardown: None,
                    children: Seq::empty(),
                },
            )
        },
    }
}

pub open spec fn node_at(s: Seq<TokV>, i: int) -> Result<(NodeV, int), ErrV>
    decreases s.len() - i, 1int,
{
    match node_kind(s, i) {
        Err(e) => Err(e),
        Ok(true) => match group_at(s, i) {
            Err(e) => Err(e),
            Ok((g, j)) => Ok((NodeV::Group(g), j)),
        },
        Ok(false) => match case_at(s, i) {
            Err(e) => Err(e),
            Ok((c, j)) => Ok((NodeV::Case(c), j)),
        },
    }
}

/// The body item at `i`. `before` and `after` are reserved there.
pub open spec fn item_at(s: Seq<TokV>, i: int) -> Result<(ItemV, int), ErrV>
    decreases s.len() - i, 2int,
{
    if 0 <= i < s.len() && s[i] == TokV::Ident("use"@) {
        match path_end(s, i + 1) {
            Err(e) => Err(e),
            Ok(e) => if e > i + 1 {
                Ok((ItemV::Import(s.subrange(i + 1, e)), e + 1))
            } else {
                syntax(Expected::Path, i + 1)
            },
        }
    } else if 0 <= i < s.len() && s[i] == TokV::Ident("before"@) {
        match block_at(s, i + 1) {
            Err(e) => Err(e),
            Ok((b, k)) => Ok((ItemV::Setup(b), k)),
        }
    } else if 0 <= i < s.len() && s[i] == TokV::Ident("after"@) {
        match block_at(s, i + 1) {
            Err(e) => Err(e),
            Ok((b, k)) => Ok((ItemV::Teardown(b), k)),
        }
    } else {
        match node_at(s, i) {
            Err(e) => Err(e),
            Ok((n, k)) => Ok((ItemV::Node(n), k)),
        }
    }
}

/// The rest of a group body from `i` on, into the group `g` built so far,
/// up to and including its closing delimiter.
pub open spec fn body_from(s: Seq<TokV>, i: int, g: GroupV) -> Result<(GroupV, int), ErrV>
    decreases s.len() - i, 3int,
{
    if i < 0 || i >= s.len() {
        syntax(Expected::Close, i)
    } else if s[i] is Close {
        Ok((g, i + 1))
    } else {
        match item_at(s, i) {
            Err(e) => Err(e),
            Ok((it, j)) => if j <= i || j > s.len() {
                syntax(Expected::Close, i)
            } else {
                match add_item(g, it, i) {
                    Err(e) => Err(e),
                    Ok(g2) => body_from(s, j, g2),
                }
            },
        }
    }
}

/// The groups from `i` to the end, after those in `acc`.
pub open spec fn groups_from(s: Seq<TokV>, i: int, acc: Seq<GroupV>) -> Result<Seq<GroupV>, ErrV>
    decreases s.len() - i,
{
    if i < 0 || i >= s.len() {
        Ok(acc)
    } else {
        match group_at(s, i) {
            Err(e) => Err(e),
            Ok((g, j)) => if j <= i || j > s.len() {
                syntax(Expected::Close, i)
            } else {
                groups_from(s, j, acc.push(g))
            },
        }
    }
}

/// What a token sequence parses to.
pub open spec fn parse_spec(s: Seq<TokV>) -> Result<RootV, ErrV> {
    if s.len() == 0 {
        syntax(Expected::Group, 0)
    } else {
        match groups_from(s, 0, Seq::empty()) {
            Err(e) => Err(e),
            Ok(groups) => Ok(RootV { groups }),
        }
    }
}

// Executable parser.

/// An executable result agrees with its model: the same value under `f`, or
/// the same error.
pub open spec fn agrees<A, B>(
    r: Result<(A, usize), ParseError>,
    m: Result<(B, int), ErrV>,
    f: spec_fn(A) -> B,
) -> bool {
    match (r, m) {
        (Ok((a, j)), Ok((b, k))) => f(a) == b && j as int == k,
        (Err(e), Err(e2)) => e@ == e2,
        _ => false,
    }
}

pub open spec fn agrees_at(r: Result<usize, ParseError>, m: Result<int, ErrV>) -> bool {
    match (r, m) {
        (Ok(j), Ok(k)) => j as int == k,
        (Err(e), Err(e2)) => e@ == e2,
        _ => false,
    }
}

fn fail<T>(e: Expected, at: usize) -> (r: Result<T, ParseError>)
    ensures
        r matches Err(err) && err@ == (ErrV { kind: ErrKindV::Syntax(e), at: at as int }),
{
    Err(ParseError { kind: ParseErrorKind::Syntax(e), at })
}

fn punct_is(t: &Tok, c: char) -> (r: bool)
    ensures
        r == is_punct(t@, c),
{
    match t {
        Tok::Punct(d, _) => *d == c,
        _ => false,
    }
}

fn open_is(t: &Tok, d: Delim) -> (r: bool)
    ensures
        r == (t@ == TokV::Open(d)),
{
    match t {
        Tok::Open(e) => *e == d,
        _ => false,
    }
}

fn ident_is(t: &Tok, w: &str) -> (r: bool)
    ensures
        r == (t@ == TokV::Ident(w@)),
{
    match t {
        Tok::Ident(x) => text_is(x, w),
        _ => false,
    }
}

fn group_kw(t: &Tok) -> (r: bool)
    ensures
        r == group_kw_tok(t@),
{
    match t {
        Tok::Ident(x) => text_is(x, "describe") || text_is(x, "context") || text_is(x, "given")
            || text_is(x, "when"),
        _ => false,
    }
}

fn case_kw(t: &Tok) -> (r: bool)
    ensures
        r == case_kw_tok(t@),
{
    match t {
        Tok::Ident(x) => text_is(x, "it") || text_is(x, "test") || text_is(x, "then"),
        _ => false,
    }
}

proof fn lemma_frags_push(s: Seq<Vec<Tok>>, f: Vec<Tok>)
    ensures
        frags_view(s.push(f)) == frags_view(s).push(toks_view(f@)),
{
    assert(frags_view(s.push(f)) =~= frags_view(s).push(toks_view(f@)));
}

/// The outer attributes at `i`.
fn parse_attrs(s: &Vec<Tok>, i: usize) -> (r: Result<(Vec<Vec<Tok>>, usize), ParseError>)
    requires
        i <= s.len(),
    ensures
        r matches Ok((_, j)) ==> i <= j <= s.len(),
        agrees(
            r,
            attrs_from(toks_view(s@), i as int, Seq::empty()),
            |a: Vec<Vec<Tok>>| frags_view(a@),
        ),
{
    let ghost v = toks_view(s@);
    let mut acc: Vec<Vec<Tok>> = Vec::new();
    let mut k = i;
    assert(frags_view(acc@) =~= Seq::empty());
    loop
        invariant
            i <= k <= s.len(),
            v == toks_view(s@),
            attrs_from(v, i as int, Seq::empty()) == attrs_from(v, k as int, frags_view(acc@)),
        decreases s.len() - k,
    {
        if k < s.len() && punct_is(&s[k], '#') {
            if k + 1 < s.len() && open_is(&s[k + 1], Delim::Bracket) {
                match find_close(s, k + 1) {
                    Some(j) => {
                        proof {
                            lemma_scan_close_after(v, k + 2, 0);
                        }
                        let a = copy_range(s, k, j + 1);
                        proof {
                            lemma_frags_push(acc@, a);
                        }
                        acc.push(a);
                        k = j + 1;
                    },
                    None => {
                        return fail(Expected::Close, k + 1);
                    },
                }
            } else {
                return fail(Expected::Bracket, k + 1);
            }
        } else {
            return Ok((acc, k));
        }
    }
}

/// Where the path that starts at `k0` ends.
fn scan_path(s: &Vec<Tok>, k0: usize) -> (r: Result<usize, ParseError>)
    requires
        k0 <= s.len(),
    ensures
        r matches Ok(e) ==> k0 <= e < s.len(),
        agrees_at(r, path_end(toks_view(s@), k0 as int)),
{
    let ghost v = toks_view(s@);
    let mut k = k0;
    loop
        invariant
            k0 <= k <= s.len(),
            v == toks_view(s@),
            path_end(v, k0 as int) == path_end(v, k as int),
        decreases s.len() - k,
    {
        if k >= s.len() {
            return fail(Expected::Path, k);
        }
        assert(v[k as int] == s@[k as int]@);
        match &s[k] {
            Tok::Open(_) => {
                match find_close(s, k) {
                    Some(j) => {
                        proof {
                            lemma_scan_close_after(v, k + 1, 0);
                        }
                        k = j + 1;
                    },
                    None => {
                        return fail(Expected::Close, k);
                    },
                }
            },
            Tok::Close(_) => {
                return fail(Expected::Path, k);
            },
            Tok::Punct(c, _) => {
                if *c == ';' {
                    return Ok(k);
                }
                k = k + 1;
            },
            _ => {
                k = k + 1;
            },
        }
    }
}

/// Where the return type that starts at `k0` ends.
fn scan_type(s: &Vec<Tok>, k0: usize) -> (r: Result<usize, ParseError>)
    requires
        k0 <= s.len(),
    ensures
        r matches Ok(e) ==> k0 <= e < s.len(),
        agrees_at(r, type_end(toks_view(s@), k0 as int, 0)),
{
    let ghost v = toks_view(s@);
    let mut k = k0;
    let mut angle: usize = 0;
    loop
        invariant
            k0 <= k <= s.len(),
            angle <= k,
            v == toks_view(s@),
            type_end(v, k0 as int, 0) == type_end(v, k as int, angle as nat),
        decreases s.len() - k,
    {
        if k >= s.len() {
            return fail(Expected::Brace, k);
        }
        assert(v[k as int] == s@[k as int]@);
        match &s[k] {
            Tok::Open(d) => {
                if *d == Delim::Brace && angle == 0 {
                    return Ok(k);
                }
                match find_close(s, k) {
                    Some(j) => {
                        proof {
                            lemma_scan_close_after(v, k + 1, 0);
                        }
                        k = j + 1;
                    },
                    None => {
                        return fail(Expected::Close, k);
                    },
                }
            },
            Tok::Close(_) => {
                return fail(Expected::Brace, k);
            },
            Tok::Punct(c, _) => {
                if *c == '<' {
                    angle = angle + 1;
                } else if *c == '>' {
                    let arrow = k > 0 && match &s[k - 1] {
                        Tok::Punct(p, j) => *p == '-' && *j,
                        _ => false,
                    };
                    proof {
                        if k > 0 {
                            assert(v[k - 1] == s@[k - 1]@);
                        }
                    }
                    if !arrow && angle > 0 {
                        angle = angle - 1;
                    }
                }
                k = k + 1;
            },
            _ => {
                k = k + 1;
            },
        }
    }
}

fn copy_name(n: &Name) -> (r: Name)
    ensures
        r@ == n@,
{
    match n {
        Name::Ident(x) => Name::Ident(x.clone()),
        Name::Label(x) => Name::Label(x.clone()),
    }
}

/// The name that a token gives, if any.
fn parse_name(t: &Tok) -> (r: Option<Name>)
    ensures
        r matches Some(n) ==> name_of(t@) == Some(n@),
        r is None ==> name_of(t@) is None,
{
    match t {
        Tok::Ident(x) => Some(Name::Ident(x.clone())),
        Tok::Lit(x) => {
            let w = x.as_str();
            let n = w.unicode_len();
            if n >= 2 && w.get_char(0) == '"' && w.get_char(n - 1) == '"' {
                let inner = w.substring_char(1, n - 1);
                Some(Name::Label(inner.to_owned()))
            } else {
                None
            }
        },
        _ => None,
    }
}

/// The optional return type at `k`.
fn parse_ret(s: &Vec<Tok>, k: usize) -> (r: Result<(Option<Vec<Tok>>, usize), ParseError>)
    requires
        k <= s.len(),
    ensures
        r matches Ok((_, j)) ==> k <= j <= s.len(),
        agrees(r, ret_from(toks_view(s@), k as int), |o: Option<Vec<Tok>>| opt_view(o)),
{
    let ghost v = toks_view(s@);
    let arrow = k < s.len() && k + 1 < s.len() && match &s[k] {
        Tok::Punct(c, j) => *c == '-' && *j,
        _ => false,
    } && punct_is(&s[k + 1], '>');
    if arrow {
        assert(v[k as int] == s@[k as int]@);
        match scan_type(s, k + 2) {
            Ok(e) => {
                if e > k + 2 {
                    let t = copy_range(s, k + 2, e);
                    Ok((Some(t), e))
                } else {
                    fail(Expected::Type, k + 2)
                }
            },
            Err(e) => Err(e),
        }
    } else {
        proof {
            if k + 1 < s.len() {
                assert(v[k as int] == s@[k as int]@);
            }
        }
        Ok((None, k))
    }
}

/// The properties of a group (`group` true) or a case at `i`.
fn parse_props(s: &Vec<Tok>, i: usize, group: bool) -> (r: Result<(Props, usize), ParseError>)
    requires
        i <= s.len(),
    ensures
        r matches Ok((_, j)) ==> i <= j <= s.len(),
        agrees(r, props_from(toks_view(s@), i as int, group), |p: Props| p@),
{
    let ghost v = toks_view(s@);
    match parse_attrs(s, i) {
        Err(e) => Err(e),
        Ok((attrs, j)) => {
            let is_async = j < s.len() && ident_is(&s[j], "async");
            let k = if is_async {
                j + 1
            } else {
                j
            };
            let kw = k < s.len() && if group {
                group_kw(&s[k])
            } else {
                case_kw(&s[k])
            };
            if !kw {
                return fail(
                    if group {
                        Expected::GroupKeyword
                    } else {
                        Expected::Keyword
                    },
                    k,
                );
            }
            if k + 1 >= s.len() {
                return fail(Expected::Name, k + 1);
            }
            match parse_name(&s[k + 1]) {
                None => fail(Expected::Name, k + 1),
                Some(name) => match parse_ret(s, k + 2) {
                    Err(e) => Err(e),
                    Ok((ret, e)) => Ok((Props { attrs, is_async, name, ret }, e)),
                },
            }
        },
    }
}

/// The block at `i`.
fn parse_block(s: &Vec<Tok>, i: usize) -> (r: Result<(Vec<Tok>, usize), ParseError>)
    requires
        i <= s.len(),
    ensures
        r matches Ok((_, j)) ==> i < j <= s.len(),
        agrees(r, block_at(toks_view(s@), i as int), |b: Vec<Tok>| toks_view(b@)),
{
    let ghost v = toks_view(s@);
    if i < s.len() && open_is(&s[i], Delim::Brace) {
        match find_close(s, i) {
            Some(j) => {
                proof {
                    lemma_scan_close_after(v, i + 1, 0);
                }
                let b = copy_range(s, i + 1, j);
                Ok((b, j + 1))
            },
            None => fail(Expected::Close, i),
        }
    } else {
        fail(Expected::Brace, i)
    }
}

/// Whether the node at `i` is a group, judged by its keyword.
fn peek_kind(s: &Vec<Tok>, i: usize) -> (r: Result<bool, ParseError>)
    requires
        i <= s.len(),
    ensures
        match (r, node_kind(toks_view(s@), i as int)) {
            (Ok(a), Ok(b)) => a == b,
            (Err(e), Err(e2)) => e@ == e2,
            _ => false,
        },
{
    match parse_attrs(s, i) {
        Err(e) => Err(e),
        Ok((_, j)) => {
            let k = if j < s.len() && ident_is(&s[j], "async") {
                j + 1
            } else {
                j
            };
            if k < s.len() && group_kw(&s[k]) {
                Ok(true)
            } else if k < s.len() && case_kw(&s[k]) {
                Ok(false)
            } else {
                fail(Expected::Keyword, k)
            }
        },
    }
}

fn parse_case(s: &Vec<Tok>, i: usize) -> (r: Result<(Case, usize), ParseError>)
    requires
        i <= s.len(),
    ensures
        r matches Ok((_, j)) ==> i < j <= s.len(),
        agrees(
            r,
            case_at(toks_view(s@), i as int),
            |c: Case| CaseV { props: c.props@, body: toks_view(c.body@) },
        ),
{
    match parse_props(s, i, false) {
        Err(e) => Err(e),
        Ok((props, j)) => match parse_block(s, j) {
            Err(e) => Err(e),
            Ok((body, k)) => Ok((Case { props, body }, k)),
        },
    }
}

enum Item {
    Import(Vec<Tok>),
    Setup(Vec<Tok>),
    Teardown(Vec<Tok>),
    Node(Node),
}

spec fn item_view(it: Item) -> ItemV {
    match it {
        Item::Import(p) => ItemV::Import(toks_view(p@)),
        Item::Setup(b) => ItemV::Setup(toks_view(b@)),
        Item::Teardown(b) => ItemV::Teardown(toks_view(b@)),
        Item::Node(n) => ItemV::Node(n@),
    }
}

fn parse_node(s: &Vec<Tok>, i: usize) -> (r: Result<(Node, usize), ParseError>)
    requires
        i <= s.len(),
    ensures
        r matches Ok((_, j)) ==> i < j <= s.len(),
        agrees(r, node_at(toks_view(s@), i as int), |n: Node| n@),
    decreases s.len() - i, 1int,
{
    match peek_kind(s, i) {
        Err(e) => Err(e),
        Ok(true) => match parse_group(s, i) {
            Err(e) => Err(e),
            Ok((g, j)) => Ok((Node::Group(g), j)),
        },
        Ok(false) => match parse_case(s, i) {
            Err(e) => Err(e),
            Ok((c, j)) => Ok((Node::Case(c), j)),
        },
    }
}

fn parse_item(s: &Vec<Tok>, i: usize) -> (r: Result<(Item, usize), ParseError>)
    requires
        i <= s.len(),
    ensures
        r matches Ok((_, j)) ==> i < j <= s.len(),
        agrees(r, item_at(toks_view(s@), i as int), |it: Item| item_view(it)),
    decreases s.len() - i, 2int,
{
    if i < s.len() && ident_is(&s[i], "use") {
        match scan_path(s, i + 1) {
            Err(e) => Err(e),
            Ok(e) => if e > i + 1 {
                let p = copy_range(s, i + 1, e);
                Ok((Item::Import(p), e + 1))
            } else {
                fail(Expected::Path, i + 1)
            },
        }
    } else if i < s.len() && ident_is(&s[i], "before") {
        match parse_block(s, i + 1) {
            Err(e) => Err(e),
            Ok((b, k)) => Ok((Item::Setup(b), k)),
        }
    } else if i < s.len() && ident_is(&s[i], "after") {
        match parse_block(s, i + 1) {
            Err(e) => Err(e),
            Ok((b, k)) => Ok((Item::Teardown(b), k)),
        }
    } else {
        match parse_node(s, i) {
            Err(e) => Err(e),
            Ok((n, k)) => Ok((Item::Node(n), k)),
        }
    }
}

proof fn lemma_nodes_push(s: Seq<Node>, n: Node)
    ensures
        nodes_view(s.push(n)) == nodes_view(s).push(n@),
{
    assert(s.push(n).subrange(0, s.len() as int) =~= s);
}

fn parse_group(s: &Vec<Tok>, i: usize) -> (r: Result<(Group, usize), ParseError>)
    requires
        i <= s.len(),
    ensures
        r matches Ok((_, j)) ==> i < j <= s.len(),
        agrees(r, group_at(toks_view(s@), i as int), |g: Group| g@),
    decreases s.len() - i, 0int,
{
    let ghost v = toks_view(s@);
    let (props, j) = match parse_props(s, i, true) {
        Err(e) => {
            return Err(e);
        },
        Ok(p) => p,
    };
    if !(j < s.len() && open_is(&s[j], Delim::Brace)) {
        return fail(Expected::Brace, j);
    }
    let mut imports: Vec<Vec<Tok>> = Vec::new();
    let mut setup: Option<Vec<Tok>> = None;
    let mut teardown: Option<Vec<Tok>> = None;
    let mut children: Vec<Node> = Vec::new();
    let mut k = j + 1;
    proof {
        assert(frags_view(imports@) =~= Seq::empty());
        assert(nodes_view(children@) == Seq::<NodeV>::empty());
    }
    loop
        invariant
            i < k <= s.len(),
            v == toks_view(s@),
            group_at(v, i as int) == body_from(
                v,
                k as int,
                GroupV {
                    props: props@,
                    imports: frags_view(imports@),
                    setup: opt_view(setup),
                    teardown: opt_view(teardown),
                    children: nodes_view(children@),
                },
            ),
        decreases s.len() - k,
    {
        if k >= s.len() {
            return fail(Expected::Close, k);
        }
        assert(v[k as int] == s@[k as int]@);
        if let Tok::Close(_) = &s[k] {
            let g = Group { props, imports, setup, teardown, children };
            return Ok((g, k + 1));
        }
        let (it, k2) = match parse_item(s, k) {
            Err(e) => {
                return Err(e);
            },
            Ok(p) => p,
        };
        match it {
            Item::Import(p) => {
                proof {
                    lemma_frags_push(imports@, p);
                }
                imports.push(p);
            },
            Item::Setup(b) => {
                if setup.is_some() {
                    return Err(
                        ParseError {
                            kind: ParseErrorKind::DuplicateSetup(copy_name(&props.name)),
                            at: k,
                        },
                    );
                }
                setup = Some(b);
            },
            Item::Teardown(b) => {
                if teardown.is_some() {
                    return Err(
                        ParseError {
                            kind: ParseErrorKind::DuplicateTeardown(copy_name(&props.name)),
                            at: k,
                        },
                    );
                }
                teardown = Some(b);
            },
            Item::Node(n) => {
                proof {
                    lemma_nodes_push(children@, n);
                }
                children.push(n);
            },
        }
        k = k2;
    }
}

proof fn lemma_groups_push(s: Seq<Group>, g: Group)
    ensures
        groups_view(s.push(g)) == groups_view(s).push(g@),
{
    assert(s.push(g).subrange(0, s.len() as int) =~= s);
}

/// Parses a specification.
pub fn parse(s: &Vec<Tok>) -> (r: Result<Root, ParseError>)
    ensures
        match (r, parse_spec(toks_view(s@))) {
            (Ok(a), Ok(b)) => a@ == b,
            (Err(e), Err(e2)) => e@ == e2,
            _ => false,
        },
{
    let ghost v = toks_view(s@);
    if s.len() == 0 {
        return fail(Expected::Group, 0);
    }
    let mut groups: Vec<Group> = Vec::new();
    let mut k: usize = 0;
    assert(groups_view(groups@) == Seq::<GroupV>::empty());
    while k < s.len()
        invariant
            k <= s.len(),
            s.len() > 0,
            v == toks_view(s@),
            groups_from(v, 0, Seq::empty()) == groups_from(v, k as int, groups_view(groups@)),
        decreases s.len() - k,
    {
        let (g, j) = match parse_group(s, k) {
            Err(e) => {
                return Err(e);
            },
            Ok(p) => p,
        };
        proof {
            lemma_groups_push(groups@, g);
        }
        groups.push(g);
        k = j;
    }
    Ok(Root { groups })
}

} // verus!
