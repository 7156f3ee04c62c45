//! Properties that hold of every specification and of its expansion.

use vstd::prelude::*;
use crate::token::TokV;
use crate::tree::{NameV, PropsV, GroupV, CaseV, NodeV, RootV};
use crate::parse::{
    ErrKindV, ItemV, attrs_from, type_end, props_from, item_at, add_item, body_from,
    group_at,
};
use crate::generate::{
    CtxV, DeclV, empty_ctx, enter, or_empty, case_decl, group_decl, node_decl,
    nodes_decls, root_decls,
};

verus! {

/// The groups passed through, outermost first, and the case reached by
/// following `path` down from group `g`: each step is an index into the
/// children of the group reached so far.
pub open spec fn chain(g: GroupV, path: Seq<int>) -> Option<(Seq<GroupV>, CaseV)>
    decreases path.len(),
{
    if path.len() == 0 || !(0 <= path[0] < g.children.len()) {
        None
    } else {
        match g.children[path[0]] {
            NodeV::Case(k) => if path.len() == 1 {
                Some((seq![g], k))
            } else {
                None
            },
            NodeV::Group(g2) => match chain(g2, path.drop_first()) {
                Some((gs, k)) => Some((seq![g] + gs, k)),
                None => None,
            },
        }
    }
}

/// The groups passed through by a path that reaches a case.
pub open spec fn chain_groups(g: GroupV, path: Seq<int>) -> Seq<GroupV> {
    let (gs, _k) = chain(g, path)->0;
    gs
}

/// The case that a path reaches.
pub open spec fn chain_case(g: GroupV, path: Seq<int>) -> CaseV {
    let (_gs, k) = chain(g, path)->0;
    k
}

/// The declaration reached by following `path` through the items of scopes.
pub open spec fn decl_at(d: DeclV, path: Seq<int>) -> Option<DeclV>
    decreases path.len(),
{
    if path.len() == 0 {
        Some(d)
    } else {
        match d {
            DeclV::Scope { items, .. } => if 0 <= path[0] < items.len() {
                decl_at(items[path[0]], path.drop_first())
            } else {
                None
            },
            DeclV::Test { .. } => None,
        }
    }
}

/// The setups of a chain of groups, outermost first.
pub open spec fn setups(gs: Seq<GroupV>) -> Seq<TokV>
    decreases gs.len(),
{
    if gs.len() == 0 {
        Seq::empty()
    } else {
        setups(gs.drop_last()) + or_empty(gs.last().setup)
    }
}

/// The teardowns of a chain of groups, innermost first.
pub open spec fn teardowns(gs: Seq<GroupV>) -> Seq<TokV>
    decreases gs.len(),
{
    if gs.len() == 0 {
        Seq::empty()
    } else {
        or_empty(gs.last().teardown) + teardowns(gs.drop_last())
    }
}

/// The own attributes of a chain of groups, outermost first.
pub open spec fn attrs_of(gs: Seq<GroupV>) -> Seq<Seq<TokV>>
    decreases gs.len(),
{
    if gs.len() == 0 {
        Seq::empty()
    } else {
        attrs_of(gs.drop_last()) + gs.last().props.attrs
    }
}

/// The own imports of a chain of groups, outermost first.
pub open spec fn imports_of(gs: Seq<GroupV>) -> Seq<Seq<TokV>>
    decreases gs.len(),
{
    if gs.len() == 0 {
        Seq::empty()
    } else {
        imports_of(gs.drop_last()) + gs.last().imports
    }
}

/// The return type declared by the innermost group of a chain that declares one.
pub open spec fn nearest_ret(gs: Seq<GroupV>) -> Option<Seq<TokV>>
    decreases gs.len(),
{
    if gs.len() == 0 {
        None
    } else if gs.last().props.ret is Some {
        gs.last().props.ret
    } else {
        nearest_ret(gs.drop_last())
    }
}

/// The context after entering each group of a chain in turn.
pub open spec fn fold(c: CtxV, gs: Seq<GroupV>) -> CtxV
    decreases gs.len(),
{
    if gs.len() == 0 {
        c
    } else {
        enter(fold(c, gs.drop_last()), gs.last())
    }
}

proof fn lemma_fold_front(c: CtxV, g: GroupV, gs: Seq<GroupV>)
    ensures
        fold(c, seq![g] + gs) == fold(enter(c, g), gs),
    decreases gs.len(),
{
    let s = seq![g] + gs;
    if gs.len() == 0 {
        assert(s.drop_last() =~= Seq::<GroupV>::empty());
        assert(s.last() == g);
        assert(fold(c, s.drop_last()) == c);
    } else {
        lemma_fold_front(c, g, gs.drop_last());
        assert(s.drop_last() =~= seq![g] + gs.drop_last());
        assert(s.last() == gs.last());
    }
}

/// Entering a chain of groups from the top level gives what the chain's
/// summaries say.
proof fn lemma_fold_summary(gs: Seq<GroupV>)
    ensures
        fold(empty_ctx(), gs) == (CtxV {
            attrs: attrs_of(gs),
            is_async: exists|i: int| 0 <= i < gs.len() && #[trigger] gs[i].props.is_async,
            ret: nearest_ret(gs),
            imports: imports_of(gs),
            setup: setups(gs),
            teardown: teardowns(gs),
        }),
    decreases gs.len(),
{
    if gs.len() == 0 {
    } else {
        let p = gs.drop_last();
        lemma_fold_summary(p);
        let a = exists|i: int| 0 <= i < gs.len() && #[trigger] gs[i].props.is_async;
        let b = exists|i: int| 0 <= i < p.len() && #[trigger] p[i].props.is_async;
        if b {
            let i = choose|i: int| 0 <= i < p.len() && #[trigger] p[i].props.is_async;
            assert(gs[i].props.is_async);
        }
        if a && !gs.last().props.is_async {
            let i = choose|i: int| 0 <= i < gs.len() && #[trigger] gs[i].props.is_async;
            assert(p[i].props.is_async);
        }
        if gs.last().props.is_async {
            assert(gs[gs.len() - 1].props.is_async);
        }
        assert(fold(empty_ctx(), gs).attrs =~= attrs_of(gs));
    }
}

proof fn lemma_nodes_decls(c: CtxV, s: Seq<NodeV>)
    ensures
        nodes_decls(c, s).len() == s.len(),
        forall|i: int| 0 <= i < s.len() ==> #[trigger] nodes_decls(c, s)[i] == node_decl(c, s[i]),
    decreases s.len(),
{
    if s.len() > 0 {
        lemma_nodes_decls(c, s.subrange(0, s.len() - 1));
    }
}

/// Following a path through a group's scope reaches the test of the case at
/// the end of that path, generated under the context of all groups passed.
proof fn lemma_decl_at_chain(c: CtxV, g: GroupV, path: Seq<int>)
    requires
        chain(g, path) is Some,
    ensures
        decl_at(group_decl(c, g), path) == Some(
            case_decl(fold(c, chain_groups(g, path)), chain_case(g, path)),
        ),
    decreases path.len(),
{
    let c2 = enter(c, g);
    lemma_nodes_decls(c2, g.children);
    let i = path[0];
    let items = nodes_decls(c2, g.children);
    assert(group_decl(c, g) == DeclV::Scope {
        name: crate::generate::slug(g.props.name),
        imports: c2.imports,
        items,
    });
    assert(items[i] == node_decl(c2, g.children[i]));
    assert(decl_at(group_decl(c, g), path) == decl_at(items[i], path.drop_first()));
    match g.children[i] {
        NodeV::Case(k) => {
            assert(path.drop_first().len() == 0);
            assert(seq![g].drop_last() =~= Seq::<GroupV>::empty());
            assert(fold(c, Seq::<GroupV>::empty()) == c);
            assert(fold(c, seq![g]) == c2);
            assert(chain(g, path) == Some((seq![g], k)));
            assert(decl_at(items[i], path.drop_first()) == Some(case_decl(c2, k)));
        },
        NodeV::Group(g2) => {
            lemma_decl_at_chain(c2, g2, path.drop_first());
            let gs = chain_groups(g2, path.drop_first());
            lemma_fold_front(c, g, gs);
            assert(chain(g, path) == Some((seq![g] + gs, chain_case(g2, path.drop_first()))));
        },
    }
}

/// The test that the case at the end of `path` in the top-level group `gi`
/// becomes.
pub open spec fn test_at(r: RootV, gi: int, path: Seq<int>) -> Option<DeclV> {
    decl_at(root_decls(r)[gi], path)
}

pub open spec fn reaches(r: RootV, gi: int, path: Seq<int>) -> bool {
    0 <= gi < r.groups.len() && chain(r.groups[gi], path) is Some
}

proof fn lemma_test_at(r: RootV, gi: int, path: Seq<int>)
    requires
        reaches(r, gi, path),
    ensures
        test_at(r, gi, path) == Some(
            case_decl(
                fold(empty_ctx(), chain_groups(r.groups[gi], path)),
                chain_case(r.groups[gi], path),
            ),
        ),
        fold(empty_ctx(), chain_groups(r.groups[gi], path)) == (CtxV {
            attrs: attrs_of(chain_groups(r.groups[gi], path)),
            is_async: exists|i: int|
                0 <= i < chain_groups(r.groups[gi], path).len()
                    && #[trigger] chain_groups(r.groups[gi], path)[i].props.is_async,
            ret: nearest_ret(chain_groups(r.groups[gi], path)),
            imports: imports_of(chain_groups(r.groups[gi], path)),
            setup: setups(chain_groups(r.groups[gi], path)),
            teardown: teardowns(chain_groups(r.groups[gi], path)),
        }),
{
    lemma_decl_at_chain(empty_ctx(), r.groups[gi], path);
    lemma_fold_summary(chain_groups(r.groups[gi], path));
}

/// The body of every generated test begins with the setups of
/// the enclosing groups, outermost first, followed by the case's own body.
pub proof fn setup_order(r: RootV, gi: int, path: Seq<int>)
    requires
        reaches(r, gi, path),
    ensures
        test_at(r, gi, path) matches Some(DeclV::Test { body, .. }) && {
            let (gs, k) = chain(r.groups[gi], path)->0;
            let pre = setups(gs) + k.body;
            pre.len() <= body.len() && body.subrange(0, pre.len() as int) == pre
        },
{
    lemma_test_at(r, gi, path);
    let (gs, k) = chain(r.groups[gi], path)->0;
    let body = setups(gs) + k.body + teardowns(gs);
    assert(body.subrange(0, (setups(gs) + k.body).len() as int) =~= setups(gs) + k.body);
}

/// The body of every generated test ends with the case's
/// own body followed by the teardowns of the enclosing groups, innermost
/// first.
pub proof fn teardown_order(r: RootV, gi: int, path: Seq<int>)
    requires
        reaches(r, gi, path),
    ensures
        test_at(r, gi, path) matches Some(DeclV::Test { body, .. }) && {
            let (gs, k) = chain(r.groups[gi], path)->0;
            let post = k.body + teardowns(gs);
            post.len() <= body.len() && body.subrange(body.len() - post.len(), body.len() as int)
                == post
        },
{
    lemma_test_at(r, gi, path);
    let (gs, k) = chain(r.groups[gi], path)->0;
    let body = setups(gs) + k.body + teardowns(gs);
    let post = k.body + teardowns(gs);
    assert(body.subrange(body.len() - post.len(), body.len() as int) =~= post);
}

/// A generated test is asynchronous exactly when its case
/// or one of the enclosing groups is declared `async`.
pub proof fn async_sticky(r: RootV, gi: int, path: Seq<int>)
    requires
        reaches(r, gi, path),
    ensures
        test_at(r, gi, path) matches Some(DeclV::Test { is_async, .. }) && {
            let (gs, k) = chain(r.groups[gi], path)->0;
            is_async == (k.props.is_async || exists|i: int|
                0 <= i < gs.len() && #[trigger] gs[i].props.is_async)
        },
{
    lemma_test_at(r, gi, path);
}

/// A generated test returns its case's own return
/// type where it declares one, else that of the innermost enclosing group
/// that declares one, else nothing.
pub proof fn return_type_fallthrough(r: RootV, gi: int, path: Seq<int>)
    requires
        reaches(r, gi, path),
    ensures
        test_at(r, gi, path) matches Some(DeclV::Test { ret, .. }) && {
            let (gs, k) = chain(r.groups[gi], path)->0;
            ret == (if k.props.ret is Some {
                k.props.ret
            } else {
                nearest_ret(gs)
            })
        },
{
    lemma_test_at(r, gi, path);
}

/// A generated test carries the own attributes of every
/// enclosing group, outermost first, followed by the case's own.
pub proof fn attribute_order(r: RootV, gi: int, path: Seq<int>)
    requires
        reaches(r, gi, path),
    ensures
        test_at(r, gi, path) matches Some(DeclV::Test { attrs, .. }) && {
            let (gs, k) = chain(r.groups[gi], path)->0;
            attrs == attrs_of(gs) + k.props.attrs
        },
{
    lemma_test_at(r, gi, path);
}

// Regeneration.

/// A scope taken back as a group that declares nothing but the imports it adds
/// to the `n` it inherits; its items come back as its children.
pub open spec fn lift_scope(d: DeclV, n: nat) -> GroupV
    decreases d, 0int,
{
    match d {
        DeclV::Scope { name, imports, items } => GroupV {
            props: PropsV { attrs: Seq::empty(), is_async: false, name: NameV::Ident(name), ret: None },
            imports: imports.subrange(n as int, imports.len() as int),
            setup: None,
            teardown: None,
            children: lift_items(items, imports.len()),
        },
        DeclV::Test { name, .. } => GroupV {
            props: PropsV { attrs: Seq::empty(), is_async: false, name: NameV::Ident(name), ret: None },
            imports: Seq::empty(),
            setup: None,
            teardown: None,
            children: Seq::empty(),
        },
    }
}

/// A declaration taken back as a node: a test becomes a case that declares
/// everything the test has.
pub open spec fn lift_node(d: DeclV, n: nat) -> NodeV
    decreases d, 1int,
{
    match d {
        DeclV::Scope { .. } => NodeV::Group(lift_scope(d, n)),
        DeclV::Test { attrs, is_async, name, ret, body } => NodeV::Case(
            CaseV { props: PropsV { attrs, is_async, name: NameV::Ident(name), ret }, body },
        ),
    }
}

pub open spec fn lift_items(s: Seq<DeclV>, n: nat) -> Seq<NodeV>
    decreases s, 2int,
{
    if s.len() == 0 {
        Seq::empty()
    } else {
        lift_items(s.subrange(0, s.len() - 1), n).push(lift_node(s[s.len() - 1], n))
    }
}

/// Generated declarations taken back as a specification.
pub open spec fn lift_root(ds: Seq<DeclV>) -> RootV {
    RootV { groups: ds.map_values(|d: DeclV| lift_scope(d, 0)) }
}

/// A context that carries imports only.
pub open spec fn plain(imports: Seq<Seq<TokV>>) -> CtxV {
    CtxV { imports, ..empty_ctx() }
}

proof fn lemma_slug_stable(n: NameV)
    ensures
        crate::generate::slug(NameV::Ident(crate::generate::slug(n))) == crate::generate::slug(n),
{
    let w = match n {
        NameV::Ident(w) => w,
        NameV::Label(w) => w,
    };
    crate::generate::lemma_slug_identifier(w);
    crate::generate::lemma_slug_of_identifier(crate::generate::slug_text(w));
}

proof fn lemma_regen_group(c: CtxV, g: GroupV)
    ensures
        group_decl(plain(c.imports), lift_scope(group_decl(c, g), c.imports.len())) == group_decl(
            c,
            g,
        ),
    decreases g, 0int,
{
    let c2 = enter(c, g);
    let d = group_decl(c, g);
    let n = c.imports.len();
    let lg = lift_scope(d, n);
    lemma_slug_stable(g.props.name);
    assert(c2.imports.subrange(n as int, c2.imports.len() as int) =~= g.imports);
    let p2 = enter(plain(c.imports), lg);
    assert(p2.attrs =~= Seq::<Seq<TokV>>::empty());
    assert(p2.setup =~= Seq::<TokV>::empty());
    assert(p2.teardown =~= Seq::<TokV>::empty());
    assert(p2 == plain(c2.imports));
    lemma_regen_nodes(c2, g.children);
}

proof fn lemma_regen_node(c: CtxV, nd: NodeV)
    ensures
        node_decl(plain(c.imports), lift_node(node_decl(c, nd), c.imports.len())) == node_decl(
            c,
            nd,
        ),
    decreases nd, 1int,
{
    match nd {
        NodeV::Group(g) => {
            lemma_regen_group(c, g);
        },
        NodeV::Case(k) => {
            let d = case_decl(c, k);
            let p = plain(c.imports);
            lemma_slug_stable(k.props.name);
            if let DeclV::Test { attrs, is_async, name, ret, body } = d {
                assert(Seq::<Seq<TokV>>::empty() + attrs =~= attrs);
                assert(Seq::<TokV>::empty() + body + Seq::<TokV>::empty() =~= body);
            }
        },
    }
}

proof fn lemma_regen_nodes(c: CtxV, s: Seq<NodeV>)
    ensures
        nodes_decls(plain(c.imports), lift_items(nodes_decls(c, s), c.imports.len()))
            == nodes_decls(c, s),
    decreases s, 2int,
{
    if s.len() > 0 {
        let s2 = s.subrange(0, s.len() - 1);
        let last = s[s.len() - 1];
        let n = c.imports.len();
        let p = plain(c.imports);
        lemma_regen_nodes(c, s2);
        lemma_regen_node(c, last);
        let ds = nodes_decls(c, s);
        let ds2 = nodes_decls(c, s2);
        assert(ds == ds2.push(node_decl(c, last)));
        assert(ds.subrange(0, ds.len() - 1) =~= ds2);
        let ls = lift_items(ds, n);
        assert(ls == lift_items(ds2, n).push(lift_node(node_decl(c, last), n)));
        assert(ls.subrange(0, ls.len() - 1) =~= lift_items(ds2, n));
    }
}

/// Taking the generated declarations back as a
/// specification, with every property already resolved onto the cases, and
/// generating again gives the same declarations.
pub proof fn regenerate_identity(r: RootV)
    ensures
        root_decls(lift_root(root_decls(r))) == root_decls(r),
{
    let ds = root_decls(r);
    assert forall|i: int| 0 <= i < ds.len() implies #[trigger] root_decls(lift_root(ds))[i]
        == ds[i] by {
        lemma_regen_group(empty_ctx(), r.groups[i]);
        assert(plain(empty_ctx().imports) == empty_ctx());
    }
    assert(root_decls(lift_root(ds)) =~= ds);
}

// Duplicate setup blocks.

/// Where the group body items from `i` on reach a `before` block, passing
/// imports, `after` blocks and nodes: the index just after that block.
pub open spec fn next_setup(s: Seq<TokV>, i: int) -> Option<int>
    decreases s.len() - i,
{
    if !(0 <= i < s.len()) || s[i] is Close {
        None
    } else {
        match item_at(s, i) {
            Ok((it, j)) => if !(i < j <= s.len()) {
                None
            } else {
                match it {
                    ItemV::Setup(_) => Some(j),
                    ItemV::Import(_) => next_setup(s, j),
                    ItemV::Node(_) => next_setup(s, j),
                    ItemV::Teardown(_) => next_setup(s, j),
                }
            },
            Err(_) => None,
        }
    }
}

/// Whether the group body items from `i` on reach two `before` blocks,
/// passing only items that parse.
pub open spec fn two_setups(s: Seq<TokV>, i: int) -> bool {
    match next_setup(s, i) {
        Some(a) => next_setup(s, a) is Some,
        None => false,
    }
}

proof fn lemma_attrs_from_pos(s: Seq<TokV>, i: int, acc: Seq<Seq<TokV>>)
    ensures
        attrs_from(s, i, acc) matches Ok((_, j)) ==> i <= j,
    decreases s.len() - i,
{
    if 0 <= i < s.len() && crate::token::is_punct(s[i], '#') && i + 1 < s.len() {
        if let Some(j) = crate::token::close_of(s, i + 1) {
            if i < j < s.len() {
                lemma_attrs_from_pos(s, j + 1, acc.push(s.subrange(i, j + 1)));
            }
        }
    }
}

proof fn lemma_type_end_pos(s: Seq<TokV>, k: int, angle: nat)
    ensures
        type_end(s, k, angle) matches Ok(e) ==> k <= e,
    decreases s.len() - k,
{
    if 0 <= k < s.len() {
        match s[k] {
            TokV::Open(d) => {
                if !(d == crate::token::Delim::Brace && angle == 0) {
                    if let Some(j) = crate::token::close_of(s, k) {
                        if k < j < s.len() {
                            lemma_type_end_pos(s, j + 1, angle);
                        }
                    }
                }
            },
            TokV::Close(_) => {},
            TokV::Punct('<', _) => lemma_type_end_pos(s, k + 1, angle + 1),
            TokV::Punct('>', _) => {
                lemma_type_end_pos(s, k + 1, angle);
                if angle > 0 {
                    lemma_type_end_pos(s, k + 1, (angle - 1) as nat);
                }
            },
            _ => lemma_type_end_pos(s, k + 1, angle),
        }
    }
}

proof fn lemma_props_pos(s: Seq<TokV>, i: int, group: bool)
    ensures
        props_from(s, i, group) matches Ok((_, j)) ==> i <= j,
{
    lemma_attrs_from_pos(s, i, Seq::empty());
    if let Ok((_, j)) = attrs_from(s, i, Seq::empty()) {
        let k = if crate::parse::is_async_at(s, j) { j + 1 } else { j };
        lemma_type_end_pos(s, k + 4, 0);
    }
}

/// The structural errors that name group `g`.
pub open spec fn duplicate_in(k: ErrKindV, g: GroupV) -> bool {
    k == ErrKindV::DuplicateSetup(g.props.name) || k == ErrKindV::DuplicateTeardown(g.props.name)
}

proof fn lemma_setup_then_duplicate(s: Seq<TokV>, i: int, g: GroupV)
    requires
        g.setup is Some,
        next_setup(s, i) is Some,
    ensures
        body_from(s, i, g) matches Err(e) && duplicate_in(e.kind, g),
    decreases s.len() - i,
{
    let (it, j) = item_at(s, i)->Ok_0;
    if !(it is Setup) {
        if let Ok(g2) = add_item(g, it, i) {
            lemma_setup_then_duplicate(s, j, g2);
        }
    }
}

proof fn lemma_two_setups(s: Seq<TokV>, i: int, g: GroupV)
    requires
        g.setup is None,
        two_setups(s, i),
    ensures
        body_from(s, i, g) matches Err(e) && duplicate_in(e.kind, g),
    decreases s.len() - i,
{
    let (it, j) = item_at(s, i)->Ok_0;
    if let Ok(g2) = add_item(g, it, i) {
        if it is Setup {
            lemma_setup_then_duplicate(s, j, g2);
        } else {
            lemma_two_setups(s, j, g2);
        }
    }
}

/// A group whose body holds two `before` blocks fails to parse with a
/// structural error that names the group, wherever they stand among the
/// body's other items: a duplicate-setup error, or a duplicate-teardown error
/// where two `after` blocks come first.
pub proof fn duplicate_setup_rejected(s: Seq<TokV>, i: int)
    requires
        match props_from(s, i, true) {
            Ok((_, j)) => 0 <= j < s.len() && s[j] == TokV::Open(crate::token::Delim::Brace)
                && two_setups(s, j + 1),
            Err(_) => false,
        },
    ensures
        match props_from(s, i, true) {
            Ok((p, _)) => group_at(s, i) matches Err(e) && (e.kind == ErrKindV::DuplicateSetup(
                p.name,
            ) || e.kind == ErrKindV::DuplicateTeardown(p.name)),
            Err(_) => false,
        },
{
    lemma_props_pos(s, i, true);
    let (p, j) = props_from(s, i, true)->Ok_0;
    lemma_two_setups(
        s,
        j + 1,
        GroupV {
            props: p,
            imports: Seq::empty(),
            setup: None,
            teardown: None,
            children: Seq::empty(),
        },
    );
}

// Composition at one level, and below a group under any context.

/// A group hands down the inherited setup followed by its own, and its own
/// teardown followed by the inherited one; where it declares neither, both
/// pass through unchanged.
pub proof fn enter_setup_teardown(c: CtxV, g: GroupV)
    ensures
        enter(c, g).setup == c.setup + or_empty(g.setup),
        enter(c, g).teardown == or_empty(g.teardown) + c.teardown,
        g.setup is None ==> enter(c, g).setup == c.setup,
        g.teardown is None ==> enter(c, g).teardown == c.teardown,
{
    assert(c.setup + Seq::<TokV>::empty() =~= c.setup);
    assert(Seq::<TokV>::empty() + c.teardown =~= c.teardown);
}

/// A group hands down the inherited attributes followed by its own, the
/// inherited imports followed by its own, `async` where it or an ancestor
/// declares it, and its own return type where it declares one, else the
/// inherited one.
pub proof fn enter_properties(c: CtxV, g: GroupV)
    ensures
        enter(c, g).attrs == c.attrs + g.props.attrs,
        enter(c, g).imports == c.imports + g.imports,
        enter(c, g).is_async == (c.is_async || g.props.is_async),
        enter(c, g).ret == (if g.props.ret is Some {
            g.props.ret
        } else {
            c.ret
        }),
{
}

/// A case's test has the inherited setup, its own body and the inherited
/// teardown, in that order (its own body alone where nothing is inherited),
/// the inherited attributes before its own, `async` where it or the context
/// declares it, and its own return type where it declares one, else the
/// inherited one.
pub proof fn case_composition(c: CtxV, k: CaseV)
    ensures
        case_decl(c, k) matches DeclV::Test { attrs, is_async, ret, body, .. } && {
            &&& body == c.setup + k.body + c.teardown
            &&& (c.setup.len() == 0 && c.teardown.len() == 0 ==> body == k.body)
            &&& attrs == c.attrs + k.props.attrs
            &&& is_async == (c.is_async || k.props.is_async)
            &&& ret == (if k.props.ret is Some {
                k.props.ret
            } else {
                c.ret
            })
        },
{
    if c.setup.len() == 0 && c.teardown.len() == 0 {
        assert(c.setup + k.body + c.teardown =~= k.body);
    }
}

proof fn lemma_fold_context(c: CtxV, gs: Seq<GroupV>)
    ensures
        fold(c, gs).setup == c.setup + setups(gs),
        fold(c, gs).teardown == teardowns(gs) + c.teardown,
        fold(c, gs).attrs == c.attrs + attrs_of(gs),
        fold(c, gs).is_async == (c.is_async || exists|i: int|
            0 <= i < gs.len() && #[trigger] gs[i].props.is_async),
    decreases gs.len(),
{
    if gs.len() == 0 {
        assert(c.setup + setups(gs) =~= c.setup);
        assert(teardowns(gs) + c.teardown =~= c.teardown);
        assert(c.attrs + attrs_of(gs) =~= c.attrs);
    } else {
        let p = gs.drop_last();
        lemma_fold_context(c, p);
        assert(fold(c, gs).setup =~= c.setup + setups(gs));
        assert(fold(c, gs).teardown =~= teardowns(gs) + c.teardown);
        assert(fold(c, gs).attrs =~= c.attrs + attrs_of(gs));
        let a = exists|i: int| 0 <= i < gs.len() && #[trigger] gs[i].props.is_async;
        let b = exists|i: int| 0 <= i < p.len() && #[trigger] p[i].props.is_async;
        if b {
            let i = choose|i: int| 0 <= i < p.len() && #[trigger] p[i].props.is_async;
            assert(gs[i].props.is_async);
        }
        if a && !gs.last().props.is_async {
            let i = choose|i: int| 0 <= i < gs.len() && #[trigger] gs[i].props.is_async;
            assert(p[i].props.is_async);
        }
        if gs.last().props.is_async {
            assert(gs[gs.len() - 1].props.is_async);
        }
    }
}

proof fn lemma_chain_starts(g: GroupV, path: Seq<int>)
    requires
        chain(g, path) is Some,
    ensures
        chain_groups(g, path).len() > 0,
        chain_groups(g, path)[0] == g,
{
    match g.children[path[0]] {
        NodeV::Case(_) => {},
        NodeV::Group(g2) => {
            let gs = chain_groups(g2, path.drop_first());
            assert((seq![g] + gs)[0] == g);
        },
    }
}

/// Under any context `c`, the test generated for the case that `path` reaches
/// below group `g` has as body the inherited setup, the setups of the groups
/// passed (outermost first), the case's own body, their teardowns (innermost
/// first) and the inherited teardown; and it carries the inherited
/// attributes, those of the groups passed and the case's own, in that order.
pub proof fn case_below_group(c: CtxV, g: GroupV, path: Seq<int>)
    requires
        chain(g, path) is Some,
    ensures
        decl_at(group_decl(c, g), path) matches Some(DeclV::Test { attrs, body, .. }) && {
            let gs = chain_groups(g, path);
            let k = chain_case(g, path);
            &&& body == c.setup + setups(gs) + k.body + teardowns(gs) + c.teardown
            &&& attrs == c.attrs + attrs_of(gs) + k.props.attrs
        },
{
    lemma_decl_at_chain(c, g, path);
    let gs = chain_groups(g, path);
    let k = chain_case(g, path);
    lemma_fold_context(c, gs);
    assert((c.setup + setups(gs)) + k.body + (teardowns(gs) + c.teardown) =~= c.setup + setups(gs)
        + k.body + teardowns(gs) + c.teardown);
}

/// Where the context or group `g` itself is asynchronous, every test
/// generated anywhere below `g` is asynchronous.
pub proof fn async_below_group(c: CtxV, g: GroupV, path: Seq<int>)
    requires
        chain(g, path) is Some,
        c.is_async || g.props.is_async,
    ensures
        decl_at(group_decl(c, g), path) matches Some(DeclV::Test { is_async, .. }) && is_async,
{
    lemma_decl_at_chain(c, g, path);
    let gs = chain_groups(g, path);
    lemma_fold_context(c, gs);
    lemma_chain_starts(g, path);
    if g.props.is_async {
        assert(gs[0].props.is_async);
    }
}

} // verus!
