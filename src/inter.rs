//! The intermediate tree that the emitter dispatches on.
use vstd::prelude::*;
use crate::diagnostic::{push_decimal, push_str, ErrKind, TVErr};
use crate::token::Location;
use crate::tree::{lemma_parse_one_root, no_root_below, parse, SNode, ZilNode, ZilNodeType};

verus! {

#[derive(Clone, Copy, Debug, PartialEq, Eq, Structural)]
pub enum InterKind {
    Root,
    Routine,
    Grouping,
    Text,
    Word,
}

/// A node of the intermediate tree. Word and Text nodes carry their token's
/// value; compound nodes carry an empty value.
#[derive(Debug)]
pub struct InterNode {
    pub kind: InterKind,
    pub children: Vec<InterNode>,
    pub value: Vec<u8>,
    pub loc: Location,
}

/// The mathematical form of an intermediate node.
pub struct INode {
    pub kind: InterKind,
    pub children: Seq<INode>,
    pub value: Seq<u8>,
}

impl View for InterNode {
    type V = INode;

    open spec fn view(&self) -> INode
        decreases self,
    {
        INode {
            kind: self.kind,
            children: Seq::new(
                self.children@.len(),
                |i: int|
                    if 0 <= i < self.children@.len() {
                        self.children@[i].view()
                    } else {
                        INode { kind: InterKind::Root, children: Seq::empty(), value: Seq::empty() }
                    },
            ),
            value: self.value@,
        }
    }
}

/// The view keeps the kind, the value and the number of children.
pub broadcast proof fn lemma_view_fields(n: &InterNode)
    ensures
        #[trigger] n@.kind == n.kind,
        n@.value == n.value@,
        n@.children.len() == n.children@.len(),
{
}

/// The view of a child is the child of the view.
pub broadcast proof fn lemma_view_child(n: &InterNode, i: int)
    requires
        0 <= i < n.children@.len(),
    ensures
        #[trigger] n@.children[i] == n.children@[i]@,
{
}

pub broadcast group group_inter_view {
    lemma_view_fields,
    lemma_view_child,
}

pub open spec fn lower_kind(k: ZilNodeType) -> InterKind {
    match k {
        ZilNodeType::Root => InterKind::Root,
        ZilNodeType::Routine => InterKind::Routine,
        ZilNodeType::Grouping => InterKind::Grouping,
        ZilNodeType::Text => InterKind::Text,
        _ => InterKind::Word,
    }
}

pub open spec fn is_leaf_kind(k: ZilNodeType) -> bool {
    k == ZilNodeType::Word || k == ZilNodeType::Text
}

/// The shape that lowering accepts: a Root only at the top, every Routine and
/// Grouping headed by a Word, every Word and Text a childless node with one
/// token, and no Quote or Comment.
pub open spec fn shape_ok(n: SNode, top: bool) -> bool
    decreases n,
{
    if n.kind == ZilNodeType::Word || n.kind == ZilNodeType::Text {
        n.children.len() == 0 && n.tokens.len() == 1
    } else if n.kind == ZilNodeType::Root || n.kind == ZilNodeType::Routine || n.kind == ZilNodeType::Grouping {
        (if n.kind == ZilNodeType::Root {
            top
        } else {
            n.children.len() >= 1 && n.children[0].kind == ZilNodeType::Word
        }) && forall|i: int| 0 <= i < n.children.len() ==> shape_ok(#[trigger] n.children[i], false)
    } else {
        false
    }
}

/// The intermediate node for a source node of an accepted shape.
pub open spec fn lower_view(n: SNode) -> INode
    decreases n,
{
    INode {
        kind: lower_kind(n.kind),
        children: Seq::new(
            n.children.len(),
            |i: int|
                if 0 <= i < n.children.len() {
                    lower_view(n.children[i])
                } else {
                    INode { kind: InterKind::Root, children: Seq::empty(), value: Seq::empty() }
                },
        ),
        value: if is_leaf_kind(n.kind) && n.tokens.len() >= 1 { n.tokens[0].value } else { Seq::empty() },
    }
}

/// A deep copy of a source tree with node kinds for the emitter, checking
/// the shape the emitter relies on.
pub fn clone_and_lower(root: &ZilNode) -> (r: Result<InterNode, TVErr>)
    ensures
        r is Ok <==> shape_ok(root@, true),
        r matches Ok(t) ==> t@ == lower_view(root@),
        r matches Err(e) ==> e.spec_kind() == ErrKind::InvalidFormShape,
{
    lower_node(root, true)
}

broadcast use crate::tree::group_zil_view;

fn lower_node(n: &ZilNode, top: bool) -> (r: Result<InterNode, TVErr>)
    ensures
        r is Ok <==> shape_ok(n@, top),
        r matches Ok(t) ==> t@ == lower_view(n@),
        r matches Err(e) ==> e.spec_kind() == ErrKind::InvalidFormShape,
    decreases n,
{
    let loc = if n.tokens.len() >= 1 { n.tokens[0].loc } else { Location { file: 0, line: 0, column: 0 } };
    let kind = match n.kind {
        ZilNodeType::Root => {
            if !top {
                return Err(shape_error("a Root inside the tree", &loc));
            }
            InterKind::Root
        },
        ZilNodeType::Routine | ZilNodeType::Grouping => {
            if n.children.len() == 0 || n.children[0].kind != ZilNodeType::Word {
                return Err(shape_error("a form without a head word", &loc));
            }
            if n.kind == ZilNodeType::Routine { InterKind::Routine } else { InterKind::Grouping }
        },
        ZilNodeType::Word | ZilNodeType::Text => {
            if n.children.len() != 0 || n.tokens.len() != 1 {
                return Err(shape_error("a leaf without exactly one token", &loc));
            }
            let value = n.tokens[0].value.clone();
            let k = if n.kind == ZilNodeType::Word { InterKind::Word } else { InterKind::Text };
            let r = InterNode { kind: k, children: Vec::new(), value, loc };
            assert(r@.children =~= lower_view(n@).children);
            return Ok(r);
        },
        _ => {
            return Err(shape_error("a node kind the emitter does not take", &loc));
        },
    };
    let mut children: Vec<InterNode> = Vec::new();
    let mut i: usize = 0;
    while i < n.children.len()
        invariant
            i <= n.children@.len(),
            children@.len() == i,
            kind == lower_kind(n@.kind),
            n@.kind == ZilNodeType::Root ==> top,
            n@.kind == ZilNodeType::Root || n@.kind == ZilNodeType::Routine || n@.kind == ZilNodeType::Grouping,
            n@.kind != ZilNodeType::Root ==> n@.children.len() >= 1 && n@.children[0].kind == ZilNodeType::Word,
            forall|j: int| 0 <= j < i ==> shape_ok(#[trigger] n@.children[j], false),
            forall|j: int| 0 <= j < i ==> #[trigger] children@[j]@ == lower_view(n@.children[j]),
        decreases n.children@.len() - i,
    {
        let c = lower_node(&n.children[i], false);
        assert(n@.children[i as int] == n.children@[i as int]@);
        match c {
            Ok(c) => { children.push(c); },
            Err(e) => {
                assert(!shape_ok(n@.children[i as int], false));
                return Err(e);
            },
        }
        i += 1;
    }
    let r = InterNode { kind, children, value: Vec::new(), loc };
    assert forall|j: int| 0 <= j < r@.children.len() implies r@.children[j] == lower_view(n@).children[j] by {
        lemma_view_child(&r, j);
    }
    proof { lemma_view_fields(&r); }
    assert(r@.children =~= lower_view(n@).children);
    assert(r@.value =~= lower_view(n@).value);
    Ok(r)
}

/// An InvalidFormShape diagnostic naming what was found and where.
fn shape_error(what: &str, loc: &Location) -> (r: TVErr)
    ensures
        r.spec_kind() == ErrKind::InvalidFormShape,
{
    let mut m: Vec<u8> = Vec::new();
    push_str(&mut m, "at ");
    push_decimal(&mut m, loc.line);
    push_str(&mut m, ":");
    push_decimal(&mut m, loc.column);
    TVErr::wrap_bytes(TVErr::origin(ErrKind::InvalidFormShape, what), m)
}


/// Every Routine and Grouping in the tree has a Word as its first child.
pub open spec fn heads_are_words(n: SNode) -> bool
    decreases n,
{
    &&& (n.kind == ZilNodeType::Routine || n.kind == ZilNodeType::Grouping) ==> n.children.len() >= 1
        && n.children[0].kind == ZilNodeType::Word
    &&& forall|i: int| 0 <= i < n.children.len() ==> heads_are_words(#[trigger] n.children[i])
}

proof fn lemma_shape_heads(n: SNode, top: bool)
    requires
        shape_ok(n, top),
    ensures
        heads_are_words(n),
    decreases n,
{
    assert forall|i: int| 0 <= i < n.children.len() implies heads_are_words(#[trigger] n.children[i]) by {
        lemma_shape_heads(n.children[i], false);
    }
}

/// For a well-formed input (one that builds and that lowering accepts), the
/// source tree has exactly one Root, at the top, and every Routine and
/// Grouping has a Word as its first child.
pub proof fn lemma_well_formed_tree(s: Seq<u8>, file: usize)
    requires
        parse(s, file) is Ok,
        shape_ok(parse(s, file)->Ok_0, true),
    ensures
        parse(s, file)->Ok_0.kind == ZilNodeType::Root,
        no_root_below(parse(s, file)->Ok_0),
        heads_are_words(parse(s, file)->Ok_0),
{
    lemma_parse_one_root(s, file);
    lemma_shape_heads(parse(s, file)->Ok_0, true);
}

/// `t` has the child count of `n` at every node, and each Word and Text of `t`
/// carries the value of the corresponding token of `n`.
pub open spec fn preserves(n: SNode, t: INode) -> bool
    decreases n,
{
    &&& t.children.len() == n.children.len()
    &&& is_leaf_kind(n.kind) ==> n.tokens.len() >= 1 && t.value == n.tokens[0].value
    &&& forall|i: int| 0 <= i < n.children.len() ==> preserves(#[trigger] n.children[i], t.children[i])
}

/// Lowering keeps the number of children of every node and the token values
/// of Word and Text leaves.
pub proof fn lemma_lowering_preserves(n: SNode, top: bool)
    requires
        shape_ok(n, top),
    ensures
        preserves(n, lower_view(n)),
    decreases n,
{
    let t = lower_view(n);
    assert forall|i: int| 0 <= i < n.children.len() implies preserves(#[trigger] n.children[i], t.children[i]) by {
        lemma_lowering_preserves(n.children[i], false);
    }
}

} // verus!
