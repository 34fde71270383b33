//! The concrete syntax tree that the matching engine hands to the
//! block compiler: an ordered tree whose nodes carry a closed tag, a
//! source position and a visibility flag, and whose leaves carry raw
//! matched text. The compiler needs only four operations: the nth
//! visible child node, the first visible child node with a wanted tag,
//! the concatenated text of a node's visible leaves, and plain
//! iteration that skips invisible children.

use vstd::prelude::*;
use vstd::string::*;

use crate::rule::CharacterPosition;

verus! {

/// The closed set of node kinds the bootstrap grammar produces; the
/// block compiler dispatches on these instead of on reflected name
/// strings.
#[derive(Clone, Copy, PartialEq, Eq, Structural, Debug)]
pub enum CstNodeTag {
    /// Whole-file node; its visible node children are the blocks.
    Root,
    /// One `[Name]{ ... }` unit: a `SingleId` name node, then a `CmdList`.
    Block,
    /// A run of identifier characters; its leaves hold the text.
    SingleId,
    /// The command nodes of one block, each wrapped in a `Cmd`.
    CmdList,
    /// Wrapper holding exactly one command node.
    Cmd,
    /// `name <- choice,`: a `SingleId`, then a `PureChoice`.
    DefineCmd,
    /// `+start a.b.c,`: a `ChainId`.
    StartCmd,
    /// `+use a.b [as alias],`: a `ChainId`, then optionally a `UseCmdBlockAlias`.
    UseCmd,
    /// `as alias` tail of a `+use` command: a `SingleId`.
    UseCmdBlockAlias,
    /// `% ...,` comment; carries no semantic payload.
    Comment,
    /// Alternation: `Sequence` nodes separated by `:` leaves.
    PureChoice,
    /// Parenthesized alternation inside a sequence: one `PureChoice`.
    Choice,
    /// Concatenation: `SeqElem` nodes.
    Sequence,
    /// One sequence element: optional `Lookahead`, `Loop` and
    /// `AstReflection` nodes, and one `Choice` or `Expr` node.
    SeqElem,
    /// `&` or `!` marker; its leaf holds the symbol.
    Lookahead,
    /// Quantifier: either a symbol leaf (`?`, `*`, `+`) or a `LoopRange`.
    Loop,
    /// `{min,max}` with two `Num` children; an empty `Num` is an
    /// omitted bound.
    LoopRange,
    /// A run of decimal digits (possibly empty for an omitted bound).
    Num,
    /// `^[min,max]` marker; not consumed by the block compiler.
    RandomOrder,
    /// `#name`, or bare `#`; an optional `SingleId` child names the node.
    AstReflection,
    /// A leaf matcher; its one visible node child is an `Id`, `Str`,
    /// `CharClass` or `Wildcard`.
    Expr,
    /// Rule reference; holds one `ChainId`.
    Id,
    /// Dot-separated identifier: `SingleId` children.
    ChainId,
    /// String literal: raw character leaves and `EscSeq` nodes.
    Str,
    /// Escape sequence; the last character of its text selects the
    /// escaped character.
    EscSeq,
    /// Character class; its leaves hold the raw pattern between the
    /// brackets.
    CharClass,
    /// `.` wildcard.
    Wildcard,
}

/// A leaf of the syntax tree: raw matched text.
#[derive(Debug)]
pub struct CstLeaf {
    pub value: String,
    pub visible: bool,
}

/// An internal node of the syntax tree.
#[derive(Debug)]
pub struct CstNode {
    pub tag: CstNodeTag,
    pub pos: CharacterPosition,
    pub visible: bool,
    pub children: Vec<CstChild>,
}

/// One child of a node.
#[derive(Debug)]
pub enum CstChild {
    Node(CstNode),
    Leaf(CstLeaf),
}

/// Mathematical value of a [`CstLeaf`].
#[verifier::ext_equal]
pub struct LeafView {
    pub value: Seq<char>,
    pub visible: bool,
}

/// Mathematical value of a [`CstNode`].
#[verifier::ext_equal]
pub struct NodeView {
    pub tag: CstNodeTag,
    pub pos: CharacterPosition,
    pub visible: bool,
    pub children: Seq<ChildView>,
}

/// Mathematical value of a [`CstChild`].
#[verifier::ext_equal]
pub enum ChildView {
    Node(NodeView),
    Leaf(LeafView),
}

/// The views of a sequence of children, in order.
pub open spec fn children_view(s: Seq<CstChild>) -> Seq<ChildView>
    decreases s,
{
    if s.len() == 0 {
        Seq::empty()
    } else {
        children_view(s.subrange(0, s.len() - 1)).push(child_view(s[s.len() - 1]))
    }
}

pub open spec fn child_view(c: CstChild) -> ChildView
    decreases c,
{
    match c {
        CstChild::Node(n) => ChildView::Node(node_view(n)),
        CstChild::Leaf(l) => ChildView::Leaf(LeafView { value: l.value@, visible: l.visible }),
    }
}

pub open spec fn node_view(n: CstNode) -> NodeView
    decreases n,
{
    NodeView { tag: n.tag, pos: n.pos, visible: n.visible, children: children_view(n.children@) }
}

/// Pointwise description of [`children_view`].
pub broadcast proof fn lemma_children_view(s: Seq<CstChild>)
    ensures
        (#[trigger] children_view(s)).len() == s.len(),
        forall|i: int| 0 <= i < s.len() ==> children_view(s)[i] == child_view(s[i]),
    decreases s.len(),
{
    if s.len() > 0 {
        lemma_children_view(s.subrange(0, s.len() - 1));
    }
}

impl View for CstNode {
    type V = NodeView;

    open spec fn view(&self) -> NodeView {
        node_view(*self)
    }
}

impl View for CstChild {
    type V = ChildView;

    open spec fn view(&self) -> ChildView {
        child_view(*self)
    }
}

/// The visible child nodes of a node, in order, with leaves and
/// invisible children skipped.
pub open spec fn visible_node_children(s: Seq<ChildView>) -> Seq<NodeView>
    decreases s,
{
    if s.len() == 0 {
        Seq::empty()
    } else {
        let rest = visible_node_children(s.subrange(0, s.len() - 1));
        match s[s.len() - 1] {
            ChildView::Node(n) => if n.visible {
                rest.push(n)
            } else {
                rest
            },
            ChildView::Leaf(_) => rest,
        }
    }
}

/// The first visible child node whose tag is among `tags`, if any.
pub open spec fn find_first_node(s: Seq<ChildView>, tags: Seq<CstNodeTag>) -> Option<NodeView>
    decreases s.len(),
{
    if s.len() == 0 {
        None
    } else {
        match s[0] {
            ChildView::Node(n) => if n.visible && tags.contains(n.tag) {
                Some(n)
            } else {
                find_first_node(s.subrange(1, s.len() as int), tags)
            },
            ChildView::Leaf(_) => find_first_node(s.subrange(1, s.len() as int), tags),
        }
    }
}

/// The concatenated text of a node's visible leaves, in order,
/// descending through visible child nodes.
pub open spec fn leaf_text(n: NodeView) -> Seq<char>
    decreases n,
{
    children_text(n.children)
}

pub open spec fn children_text(s: Seq<ChildView>) -> Seq<char>
    decreases s,
{
    if s.len() == 0 {
        Seq::empty()
    } else {
        children_text(s.subrange(0, s.len() - 1)) + child_text(s[s.len() - 1])
    }
}

pub open spec fn child_text(c: ChildView) -> Seq<char>
    decreases c,
{
    match c {
        ChildView::Node(n) => if n.visible {
            leaf_text(n)
        } else {
            Seq::empty()
        },
        ChildView::Leaf(l) => if l.visible {
            l.value
        } else {
            Seq::empty()
        },
    }
}

/// Height of a child: zero for leaves, the node's height otherwise.
/// The compiler's recursion over derived children (visible children,
/// found children) terminates because heights shrink.
pub open spec fn child_height(c: ChildView) -> nat
    decreases c,
{
    match c {
        ChildView::Node(n) => node_height(n),
        ChildView::Leaf(_) => 0,
    }
}

/// The largest child height in a sequence of children.
pub open spec fn children_height(s: Seq<ChildView>) -> nat
    decreases s,
{
    if s.len() == 0 {
        0
    } else {
        let rest = children_height(s.subrange(0, s.len() - 1));
        let last = child_height(s[s.len() - 1]);
        if last > rest {
            last
        } else {
            rest
        }
    }
}

/// Height of a node: one more than its tallest child.
pub open spec fn node_height(n: NodeView) -> nat
    decreases n,
{
    children_height(n.children) + 1
}

/// The largest height in a sequence of nodes.
pub open spec fn nodes_height(s: Seq<NodeView>) -> nat
    decreases s,
{
    if s.len() == 0 {
        0
    } else {
        let rest = nodes_height(s.subrange(0, s.len() - 1));
        let last = node_height(s[s.len() - 1]);
        if last > rest {
            last
        } else {
            rest
        }
    }
}

/// Every child's height is bounded by the children's height.
pub proof fn lemma_children_height_elem(s: Seq<ChildView>, i: int)
    requires
        0 <= i < s.len(),
    ensures
        child_height(s[i]) <= children_height(s),
    decreases s.len(),
{
    if i < s.len() - 1 {
        lemma_children_height_elem(s.subrange(0, s.len() - 1), i);
        assert(s.subrange(0, s.len() - 1)[i] == s[i]);
    }
}

/// Every node's height is bounded by the sequence's height.
pub proof fn lemma_nodes_height_elem(s: Seq<NodeView>, i: int)
    requires
        0 <= i < s.len(),
    ensures
        node_height(s[i]) <= nodes_height(s),
    decreases s.len(),
{
    if i < s.len() - 1 {
        lemma_nodes_height_elem(s.subrange(0, s.len() - 1), i);
        assert(s.subrange(0, s.len() - 1)[i] == s[i]);
    }
}

/// The visible child nodes are no taller than the children they come
/// from.
pub proof fn lemma_vnc_height(s: Seq<ChildView>)
    ensures
        nodes_height(visible_node_children(s)) <= children_height(s),
        forall|i: int|
            0 <= i < visible_node_children(s).len() ==> node_height(
                #[trigger] visible_node_children(s)[i],
            ) <= children_height(s),
    decreases s.len(),
{
    if s.len() > 0 {
        let front = s.subrange(0, s.len() - 1);
        lemma_vnc_height(front);
        let rest = visible_node_children(front);
        match s[s.len() - 1] {
            ChildView::Node(n) => {
                if n.visible {
                    assert(visible_node_children(s) == rest.push(n));
                    assert(nodes_height(rest.push(n)) <= children_height(s)) by {
                        assert(rest.push(n).subrange(0, rest.push(n).len() - 1) =~= rest);
                        assert(child_height(s[s.len() - 1]) == node_height(n));
                    }
                    assert forall|i: int| 0 <= i < visible_node_children(s).len() implies
                        node_height(#[trigger] visible_node_children(s)[i]) <= children_height(
                        s,
                    ) by {
                        lemma_nodes_height_elem(visible_node_children(s), i);
                    }
                }
            },
            ChildView::Leaf(_) => {},
        }
    }
}

/// A found child node is no taller than the children it was found in.
pub proof fn lemma_find_first_height(s: Seq<ChildView>, tags: Seq<CstNodeTag>)
    ensures
        find_first_node(s, tags) matches Some(n) ==> node_height(n) <= children_height(s),
    decreases s.len(),
{
    if s.len() > 0 {
        let tail = s.subrange(1, s.len() as int);
        lemma_find_first_height(tail, tags);
        lemma_children_height_drop_first(s);
        lemma_children_height_elem(s, 0);
    }
}

/// A found child node is visible and carries a wanted tag.
pub proof fn lemma_find_first_tag(s: Seq<ChildView>, tags: Seq<CstNodeTag>)
    ensures
        find_first_node(s, tags) matches Some(n) ==> n.visible && tags.contains(n.tag),
    decreases s.len(),
{
    if s.len() > 0 {
        lemma_find_first_tag(s.subrange(1, s.len() as int), tags);
    }
}

/// Dropping the first child never raises the children's height.
pub proof fn lemma_children_height_drop_first(s: Seq<ChildView>)
    requires
        s.len() > 0,
    ensures
        children_height(s.subrange(1, s.len() as int)) <= children_height(s),
    decreases s.len(),
{
    if s.len() > 1 {
        let front = s.subrange(0, s.len() - 1);
        lemma_children_height_drop_first(front);
        assert(front.subrange(1, front.len() as int) =~= s.subrange(1, s.len() as int).subrange(
            0,
            s.len() - 2,
        ));
        assert(s.subrange(1, s.len() as int).subrange(0, s.len() - 2).push(s[s.len() - 1])
            =~= s.subrange(1, s.len() as int));
        assert(children_height(s.subrange(1, s.len() as int)) == {
            let t = s.subrange(1, s.len() as int);
            let rest = children_height(t.subrange(0, t.len() - 1));
            let last = child_height(t[t.len() - 1]);
            if last > rest {
                last
            } else {
                rest
            }
        });
        assert(s.subrange(1, s.len() as int)[s.len() - 2] == s[s.len() - 1]);
    } else {
        assert(s.subrange(1, 1) =~= Seq::<ChildView>::empty());
    }
}

/// The visible child nodes are never more numerous than the children.
pub proof fn lemma_vnc_len(s: Seq<ChildView>)
    ensures
        visible_node_children(s).len() <= s.len(),
    decreases s.len(),
{
    if s.len() > 0 {
        lemma_vnc_len(s.subrange(0, s.len() - 1));
    }
}

impl CstNode {
    /// The `n`th visible child node, skipping leaves and invisible
    /// children.
    pub fn nth_visible_node(&self, n: usize) -> (r: Option<&CstNode>)
        ensures
            match r {
                Some(nd) => n < visible_node_children(self@.children).len() && nd@
                    == visible_node_children(self@.children)[n as int],
                None => n >= visible_node_children(self@.children).len(),
            },
    {
        proof {
            lemma_children_view(self.children@);
            lemma_visible_split(self@.children, 0);
            assert(self@.children.take(0) =~= Seq::<ChildView>::empty());
        }
        let mut i: usize = 0;
        let mut seen: usize = 0;
        while i < self.children.len()
            invariant
                i <= self.children@.len(),
                self@.children.len() == self.children@.len(),
                forall|j: int|
                    0 <= j < self.children@.len() ==> self@.children[j] == child_view(
                        self.children@[j],
                    ),
                seen == visible_node_children(self@.children.take(i as int)).len(),
                seen <= n,
                visible_node_children(self@.children)
                    == visible_node_children(self@.children.take(i as int))
                    + visible_node_children(self@.children.skip(i as int)),
            decreases self.children@.len() - i,
        {
            proof {
                lemma_visible_split(self@.children, i as int);
                lemma_visible_split(self@.children, i + 1);
                assert(self@.children.take(i + 1).subrange(0, i as int) =~= self@.children.take(
                    i as int,
                ));
                assert(self@.children.take(i + 1)[i as int] == self@.children[i as int]);
            }
            match &self.children[i] {
                CstChild::Node(nd) => {
                    if nd.visible {
                        if seen == n {
                            proof {
                                assert(visible_node_children(self@.children.take(i + 1))
                                    =~= visible_node_children(self@.children.take(i as int)).push(
                                    nd@,
                                ));
                                lemma_visible_prefix(self@.children, i + 1);
                            }
                            return Some(nd);
                        }
                        seen = seen + 1;
                    }
                },
                CstChild::Leaf(_) => {},
            }
            proof {
                assert(visible_node_children(self@.children.take(i + 1)) =~= match self@.children[i as int] {
                    ChildView::Node(nv) => if nv.visible {
                        visible_node_children(self@.children.take(i as int)).push(nv)
                    } else {
                        visible_node_children(self@.children.take(i as int))
                    },
                    ChildView::Leaf(_) => visible_node_children(self@.children.take(i as int)),
                });
            }
            i = i + 1;
        }
        proof {
            assert(self@.children.take(i as int) =~= self@.children);
        }
        None
    }

    /// The first visible child node with the given tag.
    pub fn find_child_node(&self, tag: CstNodeTag) -> (r: Option<&CstNode>)
        ensures
            match r {
                Some(nd) => find_first_node(self@.children, seq![tag]) == Some(nd@),
                None => find_first_node(self@.children, seq![tag]) is None,
            },
    {
        proof {
            lemma_children_view(self.children@);
            assert(self@.children.skip(0) =~= self@.children);
        }
        let mut i: usize = 0;
        while i < self.children.len()
            invariant
                i <= self.children@.len(),
                self@.children.len() == self.children@.len(),
                forall|j: int|
                    0 <= j < self.children@.len() ==> self@.children[j] == child_view(
                        self.children@[j],
                    ),
                find_first_node(self@.children, seq![tag]) == find_first_node(
                    self@.children.skip(i as int),
                    seq![tag],
                ),
            decreases self.children@.len() - i,
        {
            proof {
                assert(self@.children.skip(i as int).len() == self@.children.len() - i);
                assert(self@.children.skip(i as int)[0] == self@.children[i as int]);
                assert(self@.children.skip(i as int).subrange(
                    1,
                    self@.children.skip(i as int).len() as int,
                ) =~= self@.children.skip(i + 1));
                assert(seq![tag].contains(tag));
            }
            match &self.children[i] {
                CstChild::Node(nd) => {
                    if nd.visible && nd.tag == tag {
                        return Some(nd);
                    }
                    proof {
                        if nd@.visible && seq![tag].contains(nd@.tag) {
                            assert(seq![tag][0] == tag);
                            assert(nd@.tag == tag);
                        }
                    }
                },
                CstChild::Leaf(_) => {},
            }
            i = i + 1;
        }
        proof {
            assert(self@.children.skip(i as int) =~= Seq::<ChildView>::empty());
        }
        None
    }

    /// The first visible child node with either of the given tags.
    pub fn find_child_node2(&self, tag_a: CstNodeTag, tag_b: CstNodeTag) -> (r: Option<&CstNode>)
        ensures
            match r {
                Some(nd) => find_first_node(self@.children, seq![tag_a, tag_b]) == Some(nd@),
                None => find_first_node(self@.children, seq![tag_a, tag_b]) is None,
            },
    {
        proof {
            lemma_children_view(self.children@);
            assert(self@.children.skip(0) =~= self@.children);
        }
        let mut i: usize = 0;
        while i < self.children.len()
            invariant
                i <= self.children@.len(),
                self@.children.len() == self.children@.len(),
                forall|j: int|
                    0 <= j < self.children@.len() ==> self@.children[j] == child_view(
                        self.children@[j],
                    ),
                find_first_node(self@.children, seq![tag_a, tag_b]) == find_first_node(
                    self@.children.skip(i as int),
                    seq![tag_a, tag_b],
                ),
            decreases self.children@.len() - i,
        {
            proof {
                assert(self@.children.skip(i as int).len() == self@.children.len() - i);
                assert(self@.children.skip(i as int)[0] == self@.children[i as int]);
                assert(self@.children.skip(i as int).subrange(
                    1,
                    self@.children.skip(i as int).len() as int,
                ) =~= self@.children.skip(i + 1));
                assert(seq![tag_a, tag_b].contains(tag_a));
                assert(seq![tag_a, tag_b].contains(tag_b));
            }
            match &self.children[i] {
                CstChild::Node(nd) => {
                    if nd.visible && (nd.tag == tag_a || nd.tag == tag_b) {
                        return Some(nd);
                    }
                    proof {
                        if nd@.visible && seq![tag_a, tag_b].contains(nd@.tag) {
                            assert(seq![tag_a, tag_b][0] == tag_a);
                            assert(seq![tag_a, tag_b][1] == tag_b);
                            assert(nd@.tag == tag_a || nd@.tag == tag_b);
                        }
                    }
                },
                CstChild::Leaf(_) => {},
            }
            i = i + 1;
        }
        proof {
            assert(self@.children.skip(i as int) =~= Seq::<ChildView>::empty());
        }
        None
    }

    /// The concatenated text of this node's visible leaves; see
    /// [`leaf_text`].
    pub fn text(&self) -> (r: String)
        ensures
            r@ == leaf_text(self@),
        decreases *self,
    {
        proof {
            lemma_children_view(self.children@);
            assert(self@.children.take(0) =~= Seq::<ChildView>::empty());
        }
        let mut s = String::new();
        let mut i: usize = 0;
        while i < self.children.len()
            invariant
                i <= self.children@.len(),
                self@.children.len() == self.children@.len(),
                forall|j: int|
                    0 <= j < self.children@.len() ==> self@.children[j] == child_view(
                        self.children@[j],
                    ),
                s@ == children_text(self@.children.take(i as int)),
            decreases self.children@.len() - i,
        {
            proof {
                assert(self@.children.take(i + 1).subrange(0, i as int) =~= self@.children.take(
                    i as int,
                ));
                assert(self@.children.take(i + 1)[i as int] == self@.children[i as int]);
                assert(children_text(self@.children.take(i + 1)) == children_text(
                    self@.children.take(i as int),
                ) + child_text(self@.children[i as int]));
            }
            match &self.children[i] {
                CstChild::Node(nd) => {
                    if nd.visible {
                        proof {
                            assert(decreases_to!(*self => *nd));
                        }
                        let t = nd.text();
                        s.append(t.as_str());
                    }
                },
                CstChild::Leaf(l) => {
                    if l.visible {
                        s.append(l.value.as_str());
                    }
                },
            }
            i = i + 1;
        }
        proof {
            assert(self@.children.take(i as int) =~= self@.children);
        }
        s
    }
}

/// Splitting a child sequence splits its visible child nodes.
pub proof fn lemma_visible_split(s: Seq<ChildView>, i: int)
    requires
        0 <= i <= s.len(),
    ensures
        visible_node_children(s) == visible_node_children(s.take(i)) + visible_node_children(
            s.skip(i),
        ),
    decreases s.len() - i,
{
    if i == s.len() {
        assert(s.take(i) =~= s);
        assert(visible_node_children(s.skip(i)) =~= Seq::<NodeView>::empty());
        assert(visible_node_children(s) =~= visible_node_children(s.take(i))
            + visible_node_children(s.skip(i)));
    } else {
        lemma_visible_split(s, i + 1);
        assert(s.take(i + 1).subrange(0, i) =~= s.take(i));
        assert(s.take(i + 1)[i] == s[i]);
        lemma_visible_singleton(s, i);
        assert(visible_node_children(s) =~= visible_node_children(s.take(i))
            + visible_node_children(s.skip(i)));
    }
}

proof fn lemma_visible_singleton(s: Seq<ChildView>, i: int)
    requires
        0 <= i < s.len(),
    ensures
        visible_node_children(s.skip(i)) == (match s[i] {
            ChildView::Node(n) => if n.visible {
                seq![n] + visible_node_children(s.skip(i + 1))
            } else {
                visible_node_children(s.skip(i + 1))
            },
            ChildView::Leaf(_) => visible_node_children(s.skip(i + 1)),
        }),
    decreases s.len() - i,
{
    lemma_visible_head(s.skip(i));
    assert(s.skip(i)[0] == s[i]);
    assert(s.skip(i).subrange(1, s.skip(i).len() as int) =~= s.skip(i + 1));
}

/// Peeling the first child off the front of [`visible_node_children`].
proof fn lemma_visible_head(s: Seq<ChildView>)
    requires
        s.len() > 0,
    ensures
        visible_node_children(s) == (match s[0] {
            ChildView::Node(n) => if n.visible {
                seq![n] + visible_node_children(s.subrange(1, s.len() as int))
            } else {
                visible_node_children(s.subrange(1, s.len() as int))
            },
            ChildView::Leaf(_) => visible_node_children(s.subrange(1, s.len() as int)),
        }),
    decreases s.len(),
{
    if s.len() == 1 {
        assert(s.subrange(0, 0) =~= Seq::<ChildView>::empty());
        assert(s.subrange(1, 1) =~= Seq::<ChildView>::empty());
        assert(visible_node_children(s) =~= (match s[0] {
            ChildView::Node(n) => if n.visible {
                seq![n] + visible_node_children(s.subrange(1, s.len() as int))
            } else {
                visible_node_children(s.subrange(1, s.len() as int))
            },
            ChildView::Leaf(_) => visible_node_children(s.subrange(1, s.len() as int)),
        }));
    } else {
        let front = s.subrange(0, s.len() - 1);
        lemma_visible_head(front);
        assert(front.subrange(1, front.len() as int) =~= s.subrange(1, s.len() as int).subrange(
            0,
            s.len() - 2,
        ));
        assert(front[0] == s[0]);
        assert(s.subrange(1, s.len() as int)[s.len() - 2] == s[s.len() - 1]);
        assert(s.subrange(1, s.len() as int).subrange(0, s.len() - 2).push(s[s.len() - 1])
            =~= s.subrange(1, s.len() as int));
        assert(visible_node_children(s) =~= (match s[0] {
            ChildView::Node(n) => if n.visible {
                seq![n] + visible_node_children(s.subrange(1, s.len() as int))
            } else {
                visible_node_children(s.subrange(1, s.len() as int))
            },
            ChildView::Leaf(_) => visible_node_children(s.subrange(1, s.len() as int)),
        }));
    }
}

/// A prefix of the children contributes a prefix of the visible child
/// nodes.
pub proof fn lemma_visible_prefix(s: Seq<ChildView>, i: int)
    requires
        0 <= i <= s.len(),
    ensures
        visible_node_children(s.take(i)).len() <= visible_node_children(s).len(),
        forall|k: int|
            0 <= k < visible_node_children(s.take(i)).len() ==> visible_node_children(s)[k]
                == visible_node_children(s.take(i))[k],
{
    lemma_visible_split(s, i);
}

} // verus!
