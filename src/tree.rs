//! The parsed specification: groups holding cases and nested groups, and its
//! mathematical model.

use vstd::prelude::*;
use crate::token::{Tok, TokV, toks_view, frags_view};

verus! {

/// The name of a group or a case: a bare identifier, or a quoted label
/// (held without its quotes).
#[derive(Clone, Debug, PartialEq, Eq)]
pub enum Name {
    Ident(String),
    Label(String),
}

pub enum NameV {
    Ident(Seq<char>),
    Label(Seq<char>),
}

impl View for Name {
    type V = NameV;

    open spec fn view(&self) -> NameV {
        match self {
            Name::Ident(s) => NameV::Ident(s@),
            Name::Label(s) => NameV::Label(s@),
        }
    }
}

/// What groups and cases share. Each attribute is held whole (`#`, then the
/// bracketed group); a return type is the tokens after `->`.
#[derive(Debug)]
pub struct Props {
    pub attrs: Vec<Vec<Tok>>,
    pub is_async: bool,
    pub name: Name,
    pub ret: Option<Vec<Tok>>,
}

pub struct PropsV {
    pub attrs: Seq<Seq<TokV>>,
    pub is_async: bool,
    pub name: NameV,
    pub ret: Option<Seq<TokV>>,
}

pub open spec fn opt_view(o: Option<Vec<Tok>>) -> Option<Seq<TokV>> {
    match o {
        Some(v) => Some(toks_view(v@)),
        None => None,
    }
}

impl View for Props {
    type V = PropsV;

    open spec fn view(&self) -> PropsV {
        PropsV {
            attrs: frags_view(self.attrs@),
            is_async: self.is_async,
            name: self.name@,
            ret: opt_view(self.ret),
        }
    }
}

/// A group: a scope whose setup, teardown, imports and properties reach every
/// case below it. Each import is the path between `use` and `;`.
#[derive(Debug)]
pub struct Group {
    pub props: Props,
    pub imports: Vec<Vec<Tok>>,
    pub setup: Option<Vec<Tok>>,
    pub teardown: Option<Vec<Tok>>,
    pub children: Vec<Node>,
}

/// A case: one test, with its own body.
#[derive(Debug)]
pub struct Case {
    pub props: Props,
    pub body: Vec<Tok>,
}

#[derive(Debug)]
pub enum Node {
    Group(Group),
    Case(Case),
}

/// The groups of one specification, in order.
#[derive(Debug)]
pub struct Root {
    pub groups: Vec<Group>,
}

pub struct GroupV {
    pub props: PropsV,
    pub imports: Seq<Seq<TokV>>,
    pub setup: Option<Seq<TokV>>,
    pub teardown: Option<Seq<TokV>>,
    pub children: Seq<NodeV>,
}

pub struct CaseV {
    pub props: PropsV,
    pub body: Seq<TokV>,
}

pub enum NodeV {
    Group(GroupV),
    Case(CaseV),
}

pub struct RootV {
    pub groups: Seq<GroupV>,
}

pub open spec fn group_view(g: Group) -> GroupV
    decreases g,
{
    GroupV {
        props: g.props@,
        imports: frags_view(g.imports@),
        setup: opt_view(g.setup),
        teardown: opt_view(g.teardown),
        children: nodes_view(g.children@),
    }
}

pub open spec fn node_view(n: Node) -> NodeV
    decreases n,
{
    match n {
        Node::Group(g) => NodeV::Group(group_view(g)),
        Node::Case(c) => NodeV::Case(CaseV { props: c.props@, body: toks_view(c.body@) }),
    }
}

pub open spec fn nodes_view(s: Seq<Node>) -> Seq<NodeV>
    decreases s,
{
    if s.len() == 0 {
        Seq::empty()
    } else {
        nodes_view(s.subrange(0, s.len() - 1)).push(node_view(s[s.len() - 1]))
    }
}

pub open spec fn groups_view(s: Seq<Group>) -> Seq<GroupV>
    decreases s,
{
    if s.len() == 0 {
        Seq::empty()
    } else {
        groups_view(s.subrange(0, s.len() - 1)).push(group_view(s[s.len() - 1]))
    }
}

impl View for Group {
    type V = GroupV;

    open spec fn view(&self) -> GroupV {
        group_view(*self)
    }
}

impl View for Node {
    type V = NodeV;

    open spec fn view(&self) -> NodeV {
        node_view(*self)
    }
}

impl View for Root {
    type V = RootV;

    open spec fn view(&self) -> RootV {
        RootV { groups: groups_view(self.groups@) }
    }
}

} // verus!
