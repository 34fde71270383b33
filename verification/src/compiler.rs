//! The block compiler: lowers the syntax tree of one grammar source
//! file into a [`BlockMap`] of blocks and commands, and lowers each
//! rule definition's alternation into the rule representation.
//!
//! Every lowering step is specified first as a spec function over tree
//! views; the executable functions return exactly what the spec
//! functions describe, including which error ends a failed compilation
//! (the first one, in source order).
//!
//! The `^` random-order annotation is recognized by the bootstrap
//! grammar but not consumed by this lowering: how it should combine
//! with the `:` separators of an alternation is deliberately left
//! open, so lowered groups always carry sequential attempt order.
//! That a choice was written with explicit `:` alternatives is not
//! kept as a separate flag either; it is recorded structurally, since
//! in every tree the bootstrap grammar produces a `:` separator stands
//! between two `Sequence` children, so "the source wrote explicit
//! alternatives" is exactly "the lowered group has more than one
//! child".

use vstd::prelude::*;
use vstd::string::*;

use crate::block::Block;
use crate::block::BlockCommand;
use crate::block::BlockMap;
use crate::block::BlockMapView;
use crate::block::BlockParseError;
use crate::block::BlockView;
use crate::block::CmdView;
use crate::block::ErrView;
use crate::block::block_first_line;
use crate::cst::ChildView;
use crate::cst::CstChild;
use crate::cst::CstNode;
use crate::cst::CstNodeTag;
use crate::cst::NodeView;
use crate::cst::find_first_node;
use crate::cst::leaf_text;
use crate::cst::node_height;
use crate::cst::nodes_height;
use crate::cst::visible_node_children;
use crate::cst::lemma_children_height_elem;
use crate::cst::lemma_find_first_height;
use crate::cst::lemma_nodes_height_elem;
use crate::cst::lemma_vnc_height;
use crate::rule::ElemView;
use crate::rule::ExprKindView;
use crate::rule::ExprView;
use crate::rule::GroupView;
use crate::rule::Infinitable;
use crate::rule::ReflectView;
use crate::rule::RuleElementLookaheadKind;
use crate::rule::RuleElementLoopCount;
use crate::rule::RuleElementOrder;
use crate::rule::RuleGroupKind;
use crate::rule::RuleView;
use crate::text::digits_value;
use crate::text::is_digit_seq;

verus! {

/// The visible child nodes of a node.
pub open spec fn visible_nodes(n: NodeView) -> Seq<NodeView> {
    visible_node_children(n.children)
}

/// The repetition range an element carries when it has no quantifier.
pub open spec fn single_loop() -> RuleElementLoopCount {
    RuleElementLoopCount { min: 1, max: Infinitable::Normal(1) }
}

/// The attributes every freshly lowered group starts from; the
/// enclosing sequence element then adjusts them.
pub open spec fn plain_group(kind: RuleGroupKind, elems: Seq<ElemView>) -> GroupView {
    GroupView {
        kind,
        sub_elems: elems,
        ast_reflection_style: ReflectView::Reflection(Seq::empty()),
        lookahead_kind: RuleElementLookaheadKind::NoLookahead,
        loop_count: single_loop(),
        elem_order: RuleElementOrder::Sequential,
    }
}

/// The lookahead of a sequence element: read from its `Lookahead`
/// child when one exists (`&` positive, `!` negative, anything else a
/// malformed tree), none otherwise.
pub open spec fn spec_lookahead(elem: NodeView) -> Result<RuleElementLookaheadKind, ErrView> {
    match find_first_node(elem.children, seq![CstNodeTag::Lookahead]) {
        Some(n) => {
            let t = leaf_text(n);
            if t == "&"@ {
                Ok(RuleElementLookaheadKind::Positive)
            } else if t == "!"@ {
                Ok(RuleElementLookaheadKind::Negative)
            } else {
                Err(ErrView::InternalErr("unknown lookahead kind"@))
            }
        },
        None => Ok(RuleElementLookaheadKind::NoLookahead),
    }
}

/// One bound of an explicit `{min,max}` range: an empty text is an
/// omitted bound, a digit text is its value, a non-digit text is an
/// unknown-syntax error, and a value above the platform's word is an
/// oversized number.
pub open spec fn spec_loop_bound(line: usize, t: Seq<char>) -> Result<Option<usize>, ErrView> {
    if t.len() == 0 {
        Ok(None)
    } else if !is_digit_seq(t) {
        Err(ErrView::UnknownSyntax(line, t))
    } else if digits_value(t) > usize::MAX as nat {
        Err(ErrView::TooBigNumber(line, t))
    } else {
        Ok(Some(digits_value(t) as usize))
    }
}

/// An explicit `{min,max}` range node: two `Num` children, either
/// possibly empty; an omitted minimum is zero and an omitted maximum is
/// unbounded. A minimum above a finite maximum is an unknown-syntax
/// error.
pub open spec fn spec_loop_range(range: NodeView) -> Result<RuleElementLoopCount, ErrView> {
    let vs = visible_nodes(range);
    if vs.len() < 2 {
        Err(ErrView::InternalErr("malformed loop range node"@))
    } else {
        match spec_loop_bound(range.pos.line, leaf_text(vs[0])) {
            Err(e) => Err(e),
            Ok(min_opt) => match spec_loop_bound(range.pos.line, leaf_text(vs[1])) {
                Err(e) => Err(e),
                Ok(max_opt) => {
                    let min = match min_opt {
                        Some(m) => m,
                        None => 0usize,
                    };
                    match max_opt {
                        Some(mx) => if min > mx {
                            Err(
                                ErrView::UnknownSyntax(
                                    range.pos.line,
                                    leaf_text(vs[0]) + ","@ + leaf_text(vs[1]),
                                ),
                            )
                        } else {
                            Ok(RuleElementLoopCount { min, max: Infinitable::Normal(mx) })
                        },
                        None => Ok(RuleElementLoopCount { min, max: Infinitable::Infinite }),
                    }
                },
            },
        }
    }
}

/// The repetition range of a sequence element: read from its `Loop`
/// child when one exists (a quantifier symbol or an explicit range),
/// exactly one otherwise.
pub open spec fn spec_loop(elem: NodeView) -> Result<RuleElementLoopCount, ErrView> {
    match find_first_node(elem.children, seq![CstNodeTag::Loop]) {
        Some(ln) => {
            match find_first_node(ln.children, seq![CstNodeTag::LoopRange]) {
                Some(range) => spec_loop_range(range),
                None => {
                    let t = leaf_text(ln);
                    if t == "?"@ {
                        Ok(RuleElementLoopCount { min: 0, max: Infinitable::Normal(1) })
                    } else if t == "*"@ {
                        Ok(RuleElementLoopCount { min: 0, max: Infinitable::Infinite })
                    } else if t == "+"@ {
                        Ok(RuleElementLoopCount { min: 1, max: Infinitable::Infinite })
                    } else {
                        Err(ErrView::InternalErr("unknown loop symbol"@))
                    }
                },
            }
        },
        None => Ok(single_loop()),
    }
}

/// The reflection style of a sequence element: from its `AstReflection`
/// child when one exists (`#name` keeps the node under that name, a
/// bare `#` drops it), otherwise the default the element's content
/// dictates: a rule reference reflects under the referenced rule's
/// name, everything else under the empty name.
pub open spec fn spec_reflection(elem: NodeView, dflt: ReflectView) -> ReflectView {
    match find_first_node(elem.children, seq![CstNodeTag::AstReflection]) {
        Some(rn) => {
            let inner = visible_nodes(rn);
            if inner.len() >= 1 {
                ReflectView::Reflection(leaf_text(inner[0]))
            } else {
                ReflectView::NoReflection
            }
        },
        None => dflt,
    }
}

/// The dotted identifier of a `ChainId` node: its segments joined by
/// dots, in order.
pub open spec fn spec_chain_id(chain: NodeView) -> Seq<char> {
    spec_join_segments(visible_nodes(chain))
}

pub open spec fn spec_join_segments(nodes: Seq<NodeView>) -> Seq<char>
    decreases nodes.len(),
{
    if nodes.len() == 0 {
        Seq::empty()
    } else if nodes.len() == 1 {
        leaf_text(nodes[0])
    } else {
        spec_join_segments(nodes.subrange(0, nodes.len() - 1)) + "."@ + leaf_text(
            nodes[nodes.len() - 1],
        )
    }
}

/// The segment texts of a `ChainId` node, in order.
pub open spec fn spec_chain_segments(chain: NodeView) -> Seq<Seq<char>> {
    Seq::new(visible_nodes(chain).len(), |i: int| leaf_text(visible_nodes(chain)[i]))
}

/// The character an escape sequence stands for, selected by the last
/// character of the `EscSeq` node's text: the backslash, the null
/// character, the double quote or the line feed.
pub open spec fn spec_escape(t: Seq<char>) -> Result<char, ErrView> {
    if t.len() == 0 {
        Err(ErrView::InternalErr("malformed escape sequence"@))
    } else if t[t.len() - 1] == '\\' {
        Ok('\\')
    } else if t[t.len() - 1] == '0' {
        Ok('\u{0}')
    } else if t[t.len() - 1] == '"' {
        Ok('"')
    } else if t[t.len() - 1] == 'n' {
        Ok('\n')
    } else {
        Err(ErrView::InternalErr("malformed escape sequence"@))
    }
}

/// The value of a string literal node: its visible leaves taken as
/// they are, with each `EscSeq` child resolved to the character it
/// stands for.
pub open spec fn spec_str_value(children: Seq<ChildView>) -> Result<Seq<char>, ErrView>
    decreases children.len(),
{
    if children.len() == 0 {
        Ok(Seq::empty())
    } else {
        match spec_str_value(children.subrange(0, children.len() - 1)) {
            Err(e) => Err(e),
            Ok(acc) => match children[children.len() - 1] {
                ChildView::Leaf(l) => if l.visible {
                    Ok(acc + l.value)
                } else {
                    Ok(acc)
                },
                ChildView::Node(n) => if !n.visible {
                    Ok(acc)
                } else if n.tag == CstNodeTag::EscSeq {
                    match spec_escape(leaf_text(n)) {
                        Err(e) => Err(e),
                        Ok(c) => Ok(acc.push(c)),
                    }
                } else {
                    Err(ErrView::InternalErr("malformed string literal node"@))
                },
            },
        }
    }
}

/// A failed prefix decides the whole string value.
proof fn lemma_str_value_err_extends(s: Seq<ChildView>, i: int)
    requires
        0 <= i <= s.len(),
        spec_str_value(s.take(i)) is Err,
    ensures
        spec_str_value(s) == spec_str_value(s.take(i)),
    decreases s.len() - i,
{
    if i < s.len() {
        assert(s.take(i + 1).subrange(0, i) =~= s.take(i));
        assert(s.take(i + 1)[i] == s[i]);
        lemma_str_value_err_extends(s, i + 1);
    } else {
        assert(s.take(i) =~= s);
    }
}

/// A lowered leaf expression before the enclosing element's lookahead,
/// repetition and reflection are applied: an `Expr` node's single child
/// decides the kind and the value. A rule reference joins its dotted
/// segments; a string literal resolves its escapes; a character class
/// keeps its raw bracketed pattern, refused when empty or spanning a
/// line end; a wildcard is a dot.
pub open spec fn spec_to_rule_expr(expr_node: NodeView) -> Result<ExprView, ErrView> {
    let vs = visible_nodes(expr_node);
    if vs.len() < 1 {
        Err(ErrView::InternalErr("malformed expression node"@))
    } else {
        let child = vs[0];
        if child.tag == CstNodeTag::Id {
            let inner = visible_nodes(child);
            if inner.len() < 1 {
                Err(ErrView::InternalErr("malformed identifier node"@))
            } else {
                Ok(plain_expr(expr_node.pos, ExprKindView::ID, spec_chain_id(inner[0])))
            }
        } else if child.tag == CstNodeTag::Str {
            match spec_str_value(child.children) {
                Err(e) => Err(e),
                Ok(v) => Ok(plain_expr(expr_node.pos, ExprKindView::Str, v)),
            }
        } else if child.tag == CstNodeTag::CharClass {
            let content = leaf_text(child);
            if content.len() == 0 || content.contains('\n') {
                Err(ErrView::InvalidCharClassFormat(child.pos.line, content))
            } else {
                Ok(plain_expr(expr_node.pos, ExprKindView::CharClass, "["@ + content + "]"@))
            }
        } else if child.tag == CstNodeTag::Wildcard {
            Ok(plain_expr(expr_node.pos, ExprKindView::Wildcard, "."@))
        } else {
            Err(ErrView::InternalErr("unknown expression node"@))
        }
    }
}

/// A leaf expression with the default attributes; see
/// [`crate::rule::RuleExpression::new`].
pub open spec fn plain_expr(
    pos: crate::rule::CharacterPosition,
    kind: ExprKindView,
    value: Seq<char>,
) -> ExprView {
    ExprView {
        pos,
        kind,
        value,
        ast_reflection_style: ReflectView::NoReflection,
        lookahead_kind: RuleElementLookaheadKind::NoLookahead,
        loop_count: single_loop(),
    }
}

/// The default reflection of a lowered expression: a rule reference
/// reflects under the referenced rule's name, anything else under the
/// empty name.
pub open spec fn default_expr_reflection(x: ExprView) -> ReflectView {
    if x.kind is ID {
        ReflectView::Reflection(x.value)
    } else {
        ReflectView::Reflection(Seq::empty())
    }
}

/// One element of a sequence: its optional lookahead, repetition and
/// reflection markers applied to its mandatory content, a nested
/// choice or a leaf expression.
pub open spec fn spec_one_seq_elem(elem: NodeView) -> Result<ElemView, ErrView>
    decreases node_height(elem), 0nat,
{
    match spec_lookahead(elem) {
        Err(e) => Err(e),
        Ok(look) => match spec_loop(elem) {
            Err(e) => Err(e),
            Ok(lc) => {
                match find_first_node(elem.children, seq![CstNodeTag::Choice, CstNodeTag::Expr]) {
                    None => Err(ErrView::NoChoiceOrExpressionContent(elem.pos.line)),
                    Some(ce) => if ce.tag == CstNodeTag::Choice {
                        let inner = visible_nodes(ce);
                        if inner.len() < 1 {
                            Err(ErrView::InternalErr("malformed choice node"@))
                        } else {
                            proof {
                                lemma_find_first_height(
                                    elem.children,
                                    seq![CstNodeTag::Choice, CstNodeTag::Expr],
                                );
                                lemma_vnc_height(ce.children);
                            }
                            match spec_to_rule_choice(inner[0]) {
                                Err(e) => Err(e),
                                Ok(g) => Ok(
                                    ElemView::Group(
                                        GroupView {
                                            lookahead_kind: look,
                                            loop_count: lc,
                                            ast_reflection_style: spec_reflection(
                                                elem,
                                                ReflectView::Reflection(Seq::empty()),
                                            ),
                                            ..g
                                        },
                                    ),
                                ),
                            }
                        }
                    } else if ce.tag == CstNodeTag::Expr {
                        match spec_to_rule_expr(ce) {
                            Err(e) => Err(e),
                            Ok(x) => Ok(
                                ElemView::Expression(
                                    ExprView {
                                        lookahead_kind: look,
                                        loop_count: lc,
                                        ast_reflection_style: spec_reflection(
                                            elem,
                                            default_expr_reflection(x),
                                        ),
                                        ..x
                                    },
                                ),
                            ),
                        }
                    } else {
                        Err(ErrView::InternalErr("unknown sequence element content"@))
                    },
                }
            },
        },
    }
}

/// The elements of a sequence node, lowered in order; the first error
/// ends the walk.
pub open spec fn spec_lower_seq_elems(nodes: Seq<NodeView>) -> Result<Seq<ElemView>, ErrView>
    decreases nodes_height(nodes), nodes.len(),
{
    if nodes.len() == 0 {
        Ok(Seq::empty())
    } else {
        proof {
            lemma_nodes_height_elem(nodes, nodes.len() - 1);
            assert(nodes_height(nodes.subrange(0, nodes.len() - 1)) <= nodes_height(nodes));
        }
        match spec_lower_seq_elems(nodes.subrange(0, nodes.len() - 1)) {
            Err(e) => Err(e),
            Ok(acc) => match spec_one_seq_elem(nodes[nodes.len() - 1]) {
                Err(e) => Err(e),
                Ok(el) => Ok(acc.push(el)),
            },
        }
    }
}

/// A sequence node lowered to a `Sequence` group: its visible
/// `SeqElem` children in order, under the default group attributes.
/// The group is kept even when it holds a single element;
/// simplification is deferred to extraction.
pub open spec fn spec_to_seq_elem(seq_node: NodeView) -> Result<GroupView, ErrView>
    decreases node_height(seq_node), 0nat,
{
    proof {
        lemma_vnc_height(seq_node.children);
    }
    match spec_lower_seq_elems(visible_nodes(seq_node)) {
        Err(e) => Err(e),
        Ok(elems) => Ok(plain_group(RuleGroupKind::Sequence, elems)),
    }
}

/// The `Sequence`-tagged children of an alternation, lowered in order;
/// other children (such as the separating `:` leaves) carry no
/// semantic payload of their own and are passed over.
pub open spec fn spec_lower_seqs(nodes: Seq<NodeView>) -> Result<Seq<ElemView>, ErrView>
    decreases nodes_height(nodes), nodes.len(),
{
    if nodes.len() == 0 {
        Ok(Seq::empty())
    } else {
        proof {
            lemma_nodes_height_elem(nodes, nodes.len() - 1);
            assert(nodes_height(nodes.subrange(0, nodes.len() - 1)) <= nodes_height(nodes));
        }
        match spec_lower_seqs(nodes.subrange(0, nodes.len() - 1)) {
            Err(e) => Err(e),
            Ok(acc) => if nodes[nodes.len() - 1].tag == CstNodeTag::Sequence {
                match spec_to_seq_elem(nodes[nodes.len() - 1]) {
                    Err(e) => Err(e),
                    Ok(g) => Ok(acc.push(ElemView::Group(g))),
                }
            } else {
                Ok(acc)
            },
        }
    }
}

/// An alternation node lowered to a `Choice` group: one `Sequence`
/// child group per alternative, in order, under the default group
/// attributes. The separating `:` leaves themselves carry no further
/// payload: in trees the bootstrap grammar produces, each stands
/// between two alternatives, so explicit alternation survives as the
/// group having more than one child.
pub open spec fn spec_to_rule_choice(choice_node: NodeView) -> Result<GroupView, ErrView>
    decreases node_height(choice_node), 0nat,
{
    proof {
        lemma_vnc_height(choice_node.children);
    }
    match spec_lower_seqs(visible_nodes(choice_node)) {
        Err(e) => Err(e),
        Ok(elems) => Ok(plain_group(RuleGroupKind::Choice, elems)),
    }
}

/// A rule definition: the rule's name, then its top-level alternation.
/// The new rule's identifier is its bare name until the rule table
/// qualifies it with the enclosing block's name.
pub open spec fn spec_to_define_cmd(n: NodeView) -> Result<CmdView, ErrView> {
    let vs = visible_nodes(n);
    if vs.len() < 2 {
        Err(ErrView::InternalErr("malformed rule definition node"@))
    } else {
        let name = leaf_text(vs[0]);
        match spec_to_rule_choice(vs[1]) {
            Err(e) => Err(e),
            Ok(g) => Ok(
                CmdView::Define {
                    pos: n.pos,
                    rule: RuleView {
                        pos: n.pos,
                        id: name,
                        name,
                        generics_arg_ids: Seq::empty(),
                        func_arg_ids: Seq::empty(),
                        group: g,
                    },
                },
            ),
        }
    }
}

/// An entry-point declaration `+start a.b.c,`: the last segment names
/// the rule, the one before it the block, and an optional leading
/// segment the imported file; fewer than two or more than three
/// segments are unknown syntax.
pub open spec fn spec_to_start_cmd(n: NodeView) -> Result<CmdView, ErrView> {
    let vs = visible_nodes(n);
    if vs.len() < 1 {
        Err(ErrView::InternalErr("malformed start command node"@))
    } else {
        let segs = spec_chain_segments(vs[0]);
        if segs.len() == 2 {
            Ok(
                CmdView::Start {
                    pos: n.pos,
                    file_alias: Seq::empty(),
                    block_id: segs[0],
                    rule_id: segs[1],
                },
            )
        } else if segs.len() == 3 {
            Ok(
                CmdView::Start {
                    pos: n.pos,
                    file_alias: segs[0],
                    block_id: segs[1],
                    rule_id: segs[2],
                },
            )
        } else {
            Err(ErrView::UnknownSyntax(n.pos.line, spec_chain_id(vs[0])))
        }
    }
}

/// An import `+use a.b [as alias],`: the last segment names the block,
/// an optional leading segment the imported file; the local alias is
/// the `as` name when given and the block's own name otherwise. One or
/// two segments are accepted; anything else is unknown syntax.
pub open spec fn spec_to_use_cmd(n: NodeView) -> Result<CmdView, ErrView> {
    let vs = visible_nodes(n);
    if vs.len() < 1 {
        Err(ErrView::InternalErr("malformed use command node"@))
    } else {
        let segs = spec_chain_segments(vs[0]);
        if segs.len() == 1 || segs.len() == 2 {
            let file_alias: Seq<char> = if segs.len() == 2 {
                segs[0]
            } else {
                Seq::empty()
            };
            let block_id: Seq<char> = if segs.len() == 2 {
                segs[1]
            } else {
                segs[0]
            };
            match find_first_node(n.children, seq![CstNodeTag::UseCmdBlockAlias]) {
                Some(an) => {
                    let inner = visible_nodes(an);
                    if inner.len() < 1 {
                        Err(ErrView::InternalErr("malformed use alias node"@))
                    } else {
                        Ok(
                            CmdView::Use {
                                pos: n.pos,
                                file_alias,
                                block_id,
                                local_alias: leaf_text(inner[0]),
                            },
                        )
                    }
                },
                None => Ok(
                    CmdView::Use { pos: n.pos, file_alias, block_id, local_alias: block_id },
                ),
            }
        } else {
            Err(ErrView::UnknownSyntax(n.pos.line, spec_chain_id(vs[0])))
        }
    }
}

/// One command node, dispatched on its tag; comments carry no semantic
/// payload and lower to nothing. The bootstrap grammar produces no
/// other command kind, so any other tag is an internal invariant
/// violation.
pub open spec fn spec_to_block_cmd(n: NodeView) -> Result<Option<CmdView>, ErrView> {
    if n.tag == CstNodeTag::DefineCmd {
        match spec_to_define_cmd(n) {
            Err(e) => Err(e),
            Ok(c) => Ok(Some(c)),
        }
    } else if n.tag == CstNodeTag::StartCmd {
        match spec_to_start_cmd(n) {
            Err(e) => Err(e),
            Ok(c) => Ok(Some(c)),
        }
    } else if n.tag == CstNodeTag::UseCmd {
        match spec_to_use_cmd(n) {
            Err(e) => Err(e),
            Ok(c) => Ok(Some(c)),
        }
    } else if n.tag == CstNodeTag::Comment {
        Ok(None)
    } else {
        Err(ErrView::InternalErr("unknown command node"@))
    }
}

/// The commands of one block, in order: each `Cmd` wrapper's first
/// visible node is lowered; dropped commands leave no trace.
pub open spec fn spec_lower_cmds(nodes: Seq<NodeView>) -> Result<Seq<CmdView>, ErrView>
    decreases nodes.len(),
{
    if nodes.len() == 0 {
        Ok(Seq::empty())
    } else {
        match spec_lower_cmds(nodes.subrange(0, nodes.len() - 1)) {
            Err(e) => Err(e),
            Ok(acc) => {
                let wrapper = nodes[nodes.len() - 1];
                let inner = visible_nodes(wrapper);
                if inner.len() < 1 {
                    Err(ErrView::InternalErr("malformed command node"@))
                } else {
                    match spec_to_block_cmd(inner[0]) {
                        Err(e) => Err(e),
                        Ok(Some(c)) => Ok(acc.push(c)),
                        Ok(None) => Ok(acc),
                    }
                }
            },
        }
    }
}

/// One block node: its name, then its command list.
pub open spec fn spec_to_block(n: NodeView) -> Result<BlockView, ErrView> {
    let vs = visible_nodes(n);
    if vs.len() < 2 {
        Err(ErrView::InternalErr("malformed block node"@))
    } else {
        let name = leaf_text(vs[0]);
        match spec_lower_cmds(visible_nodes(vs[1])) {
            Err(e) => Err(e),
            Ok(cmds) => Ok(BlockView { name, cmds }),
        }
    }
}

/// Whether some block in the sequence is named `name`.
pub open spec fn blocks_contain(blocks: Seq<BlockView>, name: Seq<char>) -> bool {
    exists|k: int| 0 <= k < blocks.len() && blocks[k].name == name
}

/// The blocks of one file, lowered in order; inserting a block under a
/// name that is already present fails instead of overwriting.
pub open spec fn spec_lower_blocks(nodes: Seq<NodeView>) -> Result<Seq<BlockView>, ErrView>
    decreases nodes.len(),
{
    if nodes.len() == 0 {
        Ok(Seq::empty())
    } else {
        match spec_lower_blocks(nodes.subrange(0, nodes.len() - 1)) {
            Err(e) => Err(e),
            Ok(acc) => match spec_to_block(nodes[nodes.len() - 1]) {
                Err(e) => Err(e),
                Ok(b) => if blocks_contain(acc, b.name) {
                    Err(ErrView::DuplicatedBlockName(block_first_line(b), b.name))
                } else {
                    Ok(acc.push(b))
                },
            },
        }
    }
}

/// A whole source file: its block nodes lowered in order, and, when
/// the file defines no block named `Main`, an implicit empty `Main`
/// block appended as the root namespace. The resulting map belongs to
/// the root file (empty file alias) until its importer says otherwise.
pub open spec fn spec_to_block_map(root: NodeView) -> Result<BlockMapView, ErrView> {
    match spec_lower_blocks(visible_nodes(root)) {
        Err(e) => Err(e),
        Ok(blocks) => if blocks_contain(blocks, "Main"@) {
            Ok(BlockMapView { file_alias: Seq::empty(), blocks })
        } else {
            Ok(
                BlockMapView {
                    file_alias: Seq::empty(),
                    blocks: blocks.push(BlockView { name: "Main"@, cmds: Seq::empty() }),
                },
            )
        },
    }
}

/// Agreement of an executable result with its specification: equal
/// values through the view on success, equal errors through the view
/// on failure.
pub open spec fn agrees_view<T: View>(
    r: Result<T, BlockParseError>,
    s: Result<T::V, ErrView>,
) -> bool {
    match r {
        Ok(v) => s == Ok::<T::V, ErrView>(v@),
        Err(e) => s == Err::<T::V, ErrView>(e@),
    }
}

/// Agreement of an executable result with its specification for plain
/// values that are their own mathematical value.
pub open spec fn agrees_plain<T>(r: Result<T, BlockParseError>, s: Result<T, ErrView>) -> bool {
    match r {
        Ok(v) => s == Ok::<T, ErrView>(v),
        Err(e) => s == Err::<T, ErrView>(e@),
    }
}

/// Whether a text holds a character.
fn contains_char(s: &str, c: char) -> (r: bool)
    ensures
        r == s@.contains(c),
{
    let n = s.unicode_len();
    let mut i: usize = 0;
    while i < n
        invariant
            0 <= i <= n,
            n == s@.len(),
            forall|j: int| 0 <= j < i ==> s@[j] != c,
        decreases n - i,
    {
        if s.get_char(i) == c {
            proof {
                assert(s@.contains(c));
            }
            return true;
        }
        i = i + 1;
    }
    proof {
        assert(!s@.contains(c)) by {
            if s@.contains(c) {
                let k = choose|k: int| 0 <= k < s@.len() && s@[k] == c;
                assert(s@[k] != c);
            }
        }
    }
    false
}

/// The one-character text an escape sequence stands for.
fn escape_text(t: &str) -> (r: Result<&'static str, BlockParseError>)
    ensures
        match r {
            Ok(c) => c@.len() == 1 && spec_escape(t@) == Ok::<char, ErrView>(c@[0]),
            Err(e) => spec_escape(t@) == Err::<char, ErrView>(e@),
        },
{
    proof {
        reveal_strlit("\\");
        reveal_strlit("\u{0}");
        reveal_strlit("\"");
        reveal_strlit("\n");
    }
    let n = t.unicode_len();
    if n == 0 {
        return Err(BlockParseError::InternalErr("malformed escape sequence".to_owned()));
    }
    let c = t.get_char(n - 1);
    if c == '\\' {
        Ok("\\")
    } else if c == '0' {
        Ok("\u{0}")
    } else if c == '"' {
        Ok("\"")
    } else if c == 'n' {
        Ok("\n")
    } else {
        Err(BlockParseError::InternalErr("malformed escape sequence".to_owned()))
    }
}

/// The value of a string literal node; see [`spec_str_value`].
fn str_value(n: &CstNode) -> (r: Result<String, BlockParseError>)
    ensures
        match r {
            Ok(v) => spec_str_value(n@.children) == Ok::<Seq<char>, ErrView>(v@),
            Err(e) => spec_str_value(n@.children) == Err::<Seq<char>, ErrView>(e@),
        },
{
    proof {
        crate::cst::lemma_children_view(n.children@);
        assert(n@.children.take(0) =~= Seq::<ChildView>::empty());
    }
    let mut out = String::new();
    let mut i: usize = 0;
    while i < n.children.len()
        invariant
            0 <= i <= n.children@.len(),
            n@.children.len() == n.children@.len(),
            forall|j: int|
                0 <= j < n.children@.len() ==> n@.children[j] == crate::cst::child_view(
                    n.children@[j],
                ),
            spec_str_value(n@.children.take(i as int)) == Ok::<Seq<char>, ErrView>(out@),
        decreases n.children@.len() - i,
    {
        proof {
            assert(n@.children.take(i + 1).subrange(0, i as int) =~= n@.children.take(i as int));
            assert(n@.children.take(i + 1)[i as int] == n@.children[i as int]);
        }
        match &n.children[i] {
            CstChild::Leaf(l) => {
                if l.visible {
                    out.append(l.value.as_str());
                }
            },
            CstChild::Node(sub) => {
                if sub.visible {
                    if sub.tag == CstNodeTag::EscSeq {
                        let t = sub.text();
                        match escape_text(t.as_str()) {
                            Ok(c) => {
                                out.append(c);
                                proof {
                                    assert(out@ =~= spec_str_value(
                                        n@.children.take(i + 1),
                                    )->Ok_0);
                                }
                            },
                            Err(e) => {
                                proof {
                                    lemma_str_value_err_extends(n@.children, i + 1);
                                }
                                return Err(e);
                            },
                        }
                    } else {
                        proof {
                            lemma_str_value_err_extends(n@.children, i + 1);
                        }
                        return Err(
                            BlockParseError::InternalErr("malformed string literal node".to_owned()),
                        );
                    }
                }
            },
        }
        i = i + 1;
    }
    proof {
        assert(n@.children.take(i as int) =~= n@.children);
    }
    Ok(out)
}

/// The segment texts of a `ChainId` node, in order.
fn chain_segments(chain: &CstNode) -> (r: Vec<String>)
    ensures
        r@.len() == spec_chain_segments(chain@).len(),
        forall|i: int| 0 <= i < r@.len() ==> r@[i]@ == spec_chain_segments(chain@)[i],
{
    let mut out: Vec<String> = Vec::new();
    let mut i: usize = 0;
    loop
        invariant
            0 <= i,
            out@.len() == i,
            i <= visible_node_children(chain@.children).len(),
            forall|j: int|
                0 <= j < i ==> out@[j]@ == leaf_text(
                    #[trigger] visible_node_children(chain@.children)[j],
                ),
        decreases visible_node_children(chain@.children).len() - i,
    {
        match chain.nth_visible_node(i) {
            Some(seg) => {
                let t = seg.text();
                out.push(t);
            },
            None => {
                return out;
            },
        }
        proof {
            crate::cst::lemma_vnc_len(chain@.children);
            crate::cst::lemma_children_view(chain.children@);
            vstd::std_specs::vec::axiom_spec_len(&chain.children);
        }
        i = i + 1;
    }
}

/// The dotted identifier of a `ChainId` node: its segments joined by
/// dots; see [`spec_chain_id`].
fn to_chain_id_impl(chain: &CstNode) -> (r: String)
    ensures
        r@ == spec_chain_id(chain@),
{
    proof {
        reveal_strlit(".");
    }
    let mut out = String::new();
    let mut i: usize = 0;
    loop
        invariant
            0 <= i,
            i <= visible_node_children(chain@.children).len(),
            out@ == spec_join_segments(visible_node_children(chain@.children).take(i as int)),
        decreases visible_node_children(chain@.children).len() - i,
    {
        let ghost vs = visible_node_children(chain@.children);
        proof {
            assert(vs.take(0) =~= Seq::<NodeView>::empty());
        }
        match chain.nth_visible_node(i) {
            Some(seg) => {
                let t = seg.text();
                if i > 0 {
                    out.append(".");
                }
                out.append(t.as_str());
                proof {
                    assert(vs.take(i + 1).subrange(0, i as int) =~= vs.take(i as int));
                    assert(vs.take(i + 1)[i as int] == vs[i as int]);
                    if i == 0 {
                        assert(out@ =~= spec_join_segments(vs.take(1)));
                    } else {
                        assert(out@ =~= spec_join_segments(vs.take(i + 1)));
                    }
                }
            },
            None => {
                proof {
                    assert(vs.take(i as int) =~= vs);
                }
                return out;
            },
        }
        proof {
            crate::cst::lemma_vnc_len(chain@.children);
            crate::cst::lemma_children_view(chain.children@);
            vstd::std_specs::vec::axiom_spec_len(&chain.children);
        }
        i = i + 1;
    }
}

/// The lookahead of a sequence element; see [`spec_lookahead`].
fn lookahead_of(elem: &CstNode) -> (r: Result<RuleElementLookaheadKind, BlockParseError>)
    ensures
        agrees_plain(r, spec_lookahead(elem@)),
{
    proof {
        reveal_strlit("&");
        reveal_strlit("!");
        assert("&"@[0] == '&');
        assert("!"@[0] == '!');
    }
    match elem.find_child_node(CstNodeTag::Lookahead) {
        Some(n) => {
            let t = n.text();
            if crate::text::str_eq(t.as_str(), "&") {
                Ok(RuleElementLookaheadKind::Positive)
            } else if crate::text::str_eq(t.as_str(), "!") {
                Ok(RuleElementLookaheadKind::Negative)
            } else {
                Err(BlockParseError::InternalErr("unknown lookahead kind".to_owned()))
            }
        },
        None => Ok(RuleElementLookaheadKind::NoLookahead),
    }
}

/// One bound of an explicit range; see [`spec_loop_bound`].
fn loop_bound_of(line: usize, t: &str) -> (r: Result<Option<usize>, BlockParseError>)
    ensures
        match r {
            Ok(v) => spec_loop_bound(line, t@) == Ok::<Option<usize>, ErrView>(v),
            Err(e) => spec_loop_bound(line, t@) == Err::<Option<usize>, ErrView>(e@),
        },
{
    if t.unicode_len() == 0 {
        return Ok(None);
    }
    if !crate::text::is_digits(t) {
        return Err(BlockParseError::UnknownSyntax(line, t.to_owned()));
    }
    match crate::text::parse_decimal(t) {
        Some(v) => Ok(Some(v)),
        None => Err(BlockParseError::TooBigNumber(line, t.to_owned())),
    }
}

/// An explicit `{min,max}` range node; see [`spec_loop_range`].
fn loop_range_of(range: &CstNode) -> (r: Result<RuleElementLoopCount, BlockParseError>)
    ensures
        agrees_plain(r, spec_loop_range(range@)),
{
    proof {
        reveal_strlit(",");
    }
    let first = match range.nth_visible_node(0) {
        Some(n) => n,
        None => {
            return Err(BlockParseError::InternalErr("malformed loop range node".to_owned()));
        },
    };
    let second = match range.nth_visible_node(1) {
        Some(n) => n,
        None => {
            return Err(BlockParseError::InternalErr("malformed loop range node".to_owned()));
        },
    };
    let min_text = first.text();
    let max_text = second.text();
    let min_opt = match loop_bound_of(range.pos.line, min_text.as_str()) {
        Ok(v) => v,
        Err(e) => {
            return Err(e);
        },
    };
    let max_opt = match loop_bound_of(range.pos.line, max_text.as_str()) {
        Ok(v) => v,
        Err(e) => {
            return Err(e);
        },
    };
    let min = match min_opt {
        Some(m) => m,
        None => 0,
    };
    match max_opt {
        Some(mx) => {
            if min > mx {
                let mut bad = min_text;
                bad.append(",");
                bad.append(max_text.as_str());
                return Err(BlockParseError::UnknownSyntax(range.pos.line, bad));
            }
            Ok(RuleElementLoopCount { min, max: Infinitable::Normal(mx) })
        },
        None => Ok(RuleElementLoopCount { min, max: Infinitable::Infinite }),
    }
}

/// The repetition range of a sequence element; see [`spec_loop`].
fn loop_of(elem: &CstNode) -> (r: Result<RuleElementLoopCount, BlockParseError>)
    ensures
        agrees_plain(r, spec_loop(elem@)),
{
    proof {
        reveal_strlit("?");
        reveal_strlit("*");
        reveal_strlit("+");
        assert("?"@[0] == '?');
        assert("*"@[0] == '*');
        assert("+"@[0] == '+');
    }
    match elem.find_child_node(CstNodeTag::Loop) {
        Some(ln) => {
            match ln.find_child_node(CstNodeTag::LoopRange) {
                Some(range) => loop_range_of(range),
                None => {
                    let t = ln.text();
                    if crate::text::str_eq(t.as_str(), "?") {
                        Ok(RuleElementLoopCount { min: 0, max: Infinitable::Normal(1) })
                    } else if crate::text::str_eq(t.as_str(), "*") {
                        Ok(RuleElementLoopCount { min: 0, max: Infinitable::Infinite })
                    } else if crate::text::str_eq(t.as_str(), "+") {
                        Ok(RuleElementLoopCount { min: 1, max: Infinitable::Infinite })
                    } else {
                        Err(BlockParseError::InternalErr("unknown loop symbol".to_owned()))
                    }
                },
            }
        },
        None => Ok(RuleElementLoopCount { min: 1, max: Infinitable::Normal(1) }),
    }
}

/// The reflection style of a sequence element; see
/// [`spec_reflection`].
fn reflection_of(elem: &CstNode, dflt: crate::rule::ASTReflectionStyle) -> (r:
    crate::rule::ASTReflectionStyle)
    ensures
        r@ == spec_reflection(elem@, dflt@),
{
    match elem.find_child_node(CstNodeTag::AstReflection) {
        Some(rn) => {
            match rn.nth_visible_node(0) {
                Some(name_node) => {
                    let t = name_node.text();
                    crate::rule::ASTReflectionStyle::Reflection(t)
                },
                None => crate::rule::ASTReflectionStyle::NoReflection,
            }
        },
        None => dflt,
    }
}

/// A failed prefix decides the whole element walk.
proof fn lemma_seq_elems_err_app(a: Seq<NodeView>, b: Seq<NodeView>)
    requires
        spec_lower_seq_elems(a) is Err,
    ensures
        spec_lower_seq_elems(a + b) == spec_lower_seq_elems(a),
    decreases b.len(),
{
    if b.len() == 0 {
        assert(a + b =~= a);
    } else {
        let fr = b.subrange(0, b.len() - 1);
        lemma_seq_elems_err_app(a, fr);
        assert((a + b).subrange(0, (a + b).len() - 1) =~= a + fr);
        assert((a + b)[(a + b).len() - 1] == b[b.len() - 1]);
    }
}

/// A failed prefix decides the whole alternative walk.
proof fn lemma_seqs_err_app(a: Seq<NodeView>, b: Seq<NodeView>)
    requires
        spec_lower_seqs(a) is Err,
    ensures
        spec_lower_seqs(a + b) == spec_lower_seqs(a),
    decreases b.len(),
{
    if b.len() == 0 {
        assert(a + b =~= a);
    } else {
        let fr = b.subrange(0, b.len() - 1);
        lemma_seqs_err_app(a, fr);
        assert((a + b).subrange(0, (a + b).len() - 1) =~= a + fr);
        assert((a + b)[(a + b).len() - 1] == b[b.len() - 1]);
    }
}

/// A failed prefix decides the whole command walk.
proof fn lemma_cmds_err_app(a: Seq<NodeView>, b: Seq<NodeView>)
    requires
        spec_lower_cmds(a) is Err,
    ensures
        spec_lower_cmds(a + b) == spec_lower_cmds(a),
    decreases b.len(),
{
    if b.len() == 0 {
        assert(a + b =~= a);
    } else {
        let fr = b.subrange(0, b.len() - 1);
        lemma_cmds_err_app(a, fr);
        assert((a + b).subrange(0, (a + b).len() - 1) =~= a + fr);
        assert((a + b)[(a + b).len() - 1] == b[b.len() - 1]);
    }
}

/// A failed prefix decides the whole block walk.
proof fn lemma_blocks_err_app(a: Seq<NodeView>, b: Seq<NodeView>)
    requires
        spec_lower_blocks(a) is Err,
    ensures
        spec_lower_blocks(a + b) == spec_lower_blocks(a),
    decreases b.len(),
{
    if b.len() == 0 {
        assert(a + b =~= a);
    } else {
        let fr = b.subrange(0, b.len() - 1);
        lemma_blocks_err_app(a, fr);
        assert((a + b).subrange(0, (a + b).len() - 1) =~= a + fr);
        assert((a + b)[(a + b).len() - 1] == b[b.len() - 1]);
    }
}

/// The two spellings of block-name membership agree.
proof fn lemma_contain_agree(m: BlockMapView, name: Seq<char>)
    ensures
        m.has_block(name) == blocks_contain(m.blocks, name),
{
    if m.has_block(name) {
        let i = choose|i: int| 0 <= i < m.blocks.len() && m.blocks[i].name == name;
        assert(0 <= i < m.blocks.len() && m.blocks[i].name == name);
    }
    if blocks_contain(m.blocks, name) {
        let k = choose|k: int| 0 <= k < m.blocks.len() && m.blocks[k].name == name;
        assert(0 <= k < m.blocks.len() && m.blocks[k].name == name);
    }
}

/// Compiling one syntax tree twice yields structurally identical
/// block maps, and the same error on failure: lowering is a
/// mathematical function of the tree.
pub proof fn lemma_compile_deterministic(
    t: NodeView,
    r1: Result<BlockMapView, ErrView>,
    r2: Result<BlockMapView, ErrView>,
)
    requires
        r1 == spec_to_block_map(t),
        r2 == spec_to_block_map(t),
    ensures
        r1 == r2,
{
}

/// The block compiler. Its entry point, [`BlockParser::to_block_map`],
/// lowers the root node of one source file's syntax tree into a block
/// map; the remaining functions lower the tree piece by piece.
pub struct BlockParser {}

impl BlockParser {
    /// Joins the dot-separated segments of a `ChainId` node into the
    /// fully-qualified identifier text; see [`spec_chain_id`].
    pub fn to_chain_id(chain: &CstNode) -> (r: String)
        ensures
            r@ == spec_chain_id(chain@),
    {
        to_chain_id_impl(chain)
    }

    /// Lowers a leaf-expression node; see [`spec_to_rule_expr`].
    pub fn to_rule_expr_elem(expr_node: &CstNode) -> (r: Result<
        crate::rule::RuleExpression,
        BlockParseError,
    >)
        ensures
            agrees_view(r, spec_to_rule_expr(expr_node@)),
    {
        let child = match expr_node.nth_visible_node(0) {
            Some(c) => c,
            None => {
                return Err(BlockParseError::InternalErr("malformed expression node".to_owned()));
            },
        };
        if child.tag == CstNodeTag::Id {
            let chain = match child.nth_visible_node(0) {
                Some(c) => c,
                None => {
                    return Err(
                        BlockParseError::InternalErr("malformed identifier node".to_owned()),
                    );
                },
            };
            let id_text = BlockParser::to_chain_id(chain);
            Ok(
                crate::rule::RuleExpression::new(
                    expr_node.pos,
                    crate::rule::RuleExpressionKind::ID,
                    id_text,
                ),
            )
        } else if child.tag == CstNodeTag::Str {
            match str_value(child) {
                Ok(v) => Ok(
                    crate::rule::RuleExpression::new(
                        expr_node.pos,
                        crate::rule::RuleExpressionKind::Str,
                        v,
                    ),
                ),
                Err(e) => Err(e),
            }
        } else if child.tag == CstNodeTag::CharClass {
            let content = child.text();
            if content.as_str().unicode_len() == 0 || contains_char(content.as_str(), '\n') {
                return Err(BlockParseError::InvalidCharClassFormat(child.pos.line, content));
            }
            let mut v = "[".to_owned();
            v.append(content.as_str());
            v.append("]");
            proof {
                assert(v@ =~= "["@ + leaf_text(child@) + "]"@);
            }
            Ok(
                crate::rule::RuleExpression::new(
                    expr_node.pos,
                    crate::rule::RuleExpressionKind::CharClass,
                    v,
                ),
            )
        } else if child.tag == CstNodeTag::Wildcard {
            Ok(
                crate::rule::RuleExpression::new(
                    expr_node.pos,
                    crate::rule::RuleExpressionKind::Wildcard,
                    ".".to_owned(),
                ),
            )
        } else {
            Err(BlockParseError::InternalErr("unknown expression node".to_owned()))
        }
    }

    /// Lowers one sequence element; see [`spec_one_seq_elem`].
    fn to_seq_elem_child(elem: &CstNode) -> (r: Result<crate::rule::RuleElement, BlockParseError>)
        ensures
            agrees_view(r, spec_one_seq_elem(elem@)),
        decreases node_height(elem@),
    {
        let look = match lookahead_of(elem) {
            Ok(v) => v,
            Err(e) => {
                return Err(e);
            },
        };
        let lc = match loop_of(elem) {
            Ok(v) => v,
            Err(e) => {
                return Err(e);
            },
        };
        let ce = match elem.find_child_node2(CstNodeTag::Choice, CstNodeTag::Expr) {
            Some(c) => c,
            None => {
                return Err(BlockParseError::NoChoiceOrExpressionContent(elem.pos.line));
            },
        };
        proof {
            crate::cst::lemma_find_first_tag(
                elem@.children,
                seq![CstNodeTag::Choice, CstNodeTag::Expr],
            );
            assert(seq![CstNodeTag::Choice, CstNodeTag::Expr][0] == CstNodeTag::Choice);
            assert(seq![CstNodeTag::Choice, CstNodeTag::Expr][1] == CstNodeTag::Expr);
        }
        if ce.tag == CstNodeTag::Choice {
            let pc = match ce.nth_visible_node(0) {
                Some(p) => p,
                None => {
                    return Err(BlockParseError::InternalErr("malformed choice node".to_owned()));
                },
            };
            proof {
                lemma_find_first_height(
                    elem@.children,
                    seq![CstNodeTag::Choice, CstNodeTag::Expr],
                );
                lemma_vnc_height(ce@.children);
                assert(node_height(pc@) < node_height(elem@));
            }
            let g = match BlockParser::to_rule_choice_elem(pc) {
                Ok(g) => g,
                Err(e) => {
                    return Err(e);
                },
            };
            let refl = reflection_of(
                elem,
                crate::rule::ASTReflectionStyle::Reflection(String::new()),
            );
            let out = crate::rule::RuleGroup {
                kind: g.kind,
                sub_elems: g.sub_elems,
                ast_reflection_style: refl,
                lookahead_kind: look,
                loop_count: lc,
                elem_order: g.elem_order,
            };
            proof {
                assert(out@ =~= (GroupView {
                    lookahead_kind: look,
                    loop_count: lc,
                    ast_reflection_style: spec_reflection(
                        elem@,
                        ReflectView::Reflection(Seq::empty()),
                    ),
                    ..spec_to_rule_choice(pc@)->Ok_0
                }));
            }
            Ok(crate::rule::RuleElement::Group(out))
        } else {
            let x = match BlockParser::to_rule_expr_elem(ce) {
                Ok(x) => x,
                Err(e) => {
                    return Err(e);
                },
            };
            let dflt = match &x.kind {
                crate::rule::RuleExpressionKind::ID => crate::rule::ASTReflectionStyle::Reflection(
                    x.value.clone(),
                ),
                _ => crate::rule::ASTReflectionStyle::Reflection(String::new()),
            };
            let refl = reflection_of(elem, dflt);
            let out = crate::rule::RuleExpression {
                pos: x.pos,
                kind: x.kind,
                value: x.value,
                ast_reflection_style: refl,
                lookahead_kind: look,
                loop_count: lc,
            };
            proof {
                assert(out@ =~= (ExprView {
                    lookahead_kind: look,
                    loop_count: lc,
                    ast_reflection_style: spec_reflection(
                        elem@,
                        default_expr_reflection(spec_to_rule_expr(ce@)->Ok_0),
                    ),
                    ..spec_to_rule_expr(ce@)->Ok_0
                }));
            }
            Ok(crate::rule::RuleElement::Expression(out))
        }
    }

    /// Lowers a sequence node to a `Sequence` group; see
    /// [`spec_to_seq_elem`].
    pub fn to_seq_elem(seq_node: &CstNode) -> (r: Result<crate::rule::RuleGroup, BlockParseError>)
        ensures
            agrees_view(r, spec_to_seq_elem(seq_node@)),
        decreases node_height(seq_node@),
    {
        let ghost cv = seq_node@.children;
        proof {
            crate::cst::lemma_children_view(seq_node.children@);
            assert(cv.take(0) =~= Seq::<ChildView>::empty());
        }
        let mut acc: Vec<crate::rule::RuleElement> = Vec::new();
        let mut i: usize = 0;
        while i < seq_node.children.len()
            invariant
                i <= seq_node.children@.len(),
                cv == seq_node@.children,
                cv.len() == seq_node.children@.len(),
                forall|j: int|
                    0 <= j < seq_node.children@.len() ==> cv[j] == crate::cst::child_view(
                        seq_node.children@[j],
                    ),
                spec_lower_seq_elems(visible_node_children(cv.take(i as int))) == Ok::<
                    Seq<ElemView>,
                    ErrView,
                >(crate::rule::elems_view(acc@)),
            decreases seq_node.children@.len() - i,
        {
            proof {
                crate::rule::lemma_elems_view(acc@);
                assert(cv.take(i + 1).subrange(0, i as int) =~= cv.take(i as int));
                assert(cv.take(i + 1)[i as int] == cv[i as int]);
            }
            match &seq_node.children[i] {
                CstChild::Node(nd) => {
                    if nd.visible {
                        proof {
                            assert(visible_node_children(cv.take(i + 1))
                                =~= visible_node_children(cv.take(i as int)).push(nd@));
                            let p = visible_node_children(cv.take(i as int));
                            assert(p.push(nd@).subrange(0, p.push(nd@).len() - 1) =~= p);
                            assert(p.push(nd@)[p.push(nd@).len() - 1] == nd@);
                            lemma_children_height_elem(cv, i as int);
                            assert(node_height(nd@) < node_height(seq_node@));
                        }
                        match BlockParser::to_seq_elem_child(nd) {
                            Ok(el) => {
                                proof {
                                    crate::rule::lemma_elems_view(acc@.push(el));
                                    assert(crate::rule::elems_view(acc@.push(el))
                                        =~= crate::rule::elems_view(acc@).push(el@));
                                }
                                acc.push(el);
                            },
                            Err(e) => {
                                proof {
                                    crate::cst::lemma_visible_split(cv, i + 1);
                                    lemma_seq_elems_err_app(
                                        visible_node_children(cv.take(i + 1)),
                                        visible_node_children(cv.skip(i + 1)),
                                    );
                                }
                                return Err(e);
                            },
                        }
                    } else {
                        proof {
                            assert(visible_node_children(cv.take(i + 1))
                                =~= visible_node_children(cv.take(i as int)));
                        }
                    }
                },
                CstChild::Leaf(_) => {
                    proof {
                        assert(visible_node_children(cv.take(i + 1)) =~= visible_node_children(
                            cv.take(i as int),
                        ));
                    }
                },
            }
            i = i + 1;
        }
        proof {
            assert(cv.take(i as int) =~= cv);
        }
        let mut g = crate::rule::RuleGroup::new(crate::rule::RuleGroupKind::Sequence);
        g.sub_elems = acc;
        proof {
            assert(g@ =~= plain_group(RuleGroupKind::Sequence, crate::rule::elems_view(
                g.sub_elems@,
            )));
        }
        Ok(g)
    }

    /// Lowers an alternation node to a `Choice` group; see
    /// [`spec_to_rule_choice`].
    pub fn to_rule_choice_elem(choice_node: &CstNode) -> (r: Result<
        crate::rule::RuleGroup,
        BlockParseError,
    >)
        ensures
            agrees_view(r, spec_to_rule_choice(choice_node@)),
        decreases node_height(choice_node@),
    {
        let ghost cv = choice_node@.children;
        proof {
            crate::cst::lemma_children_view(choice_node.children@);
            assert(cv.take(0) =~= Seq::<ChildView>::empty());
        }
        let mut acc: Vec<crate::rule::RuleElement> = Vec::new();
        let mut i: usize = 0;
        while i < choice_node.children.len()
            invariant
                i <= choice_node.children@.len(),
                cv == choice_node@.children,
                cv.len() == choice_node.children@.len(),
                forall|j: int|
                    0 <= j < choice_node.children@.len() ==> cv[j] == crate::cst::child_view(
                        choice_node.children@[j],
                    ),
                spec_lower_seqs(visible_node_children(cv.take(i as int))) == Ok::<
                    Seq<ElemView>,
                    ErrView,
                >(crate::rule::elems_view(acc@)),
            decreases choice_node.children@.len() - i,
        {
            proof {
                crate::rule::lemma_elems_view(acc@);
                assert(cv.take(i + 1).subrange(0, i as int) =~= cv.take(i as int));
                assert(cv.take(i + 1)[i as int] == cv[i as int]);
            }
            match &choice_node.children[i] {
                CstChild::Node(nd) => {
                    if nd.visible {
                        proof {
                            assert(visible_node_children(cv.take(i + 1))
                                =~= visible_node_children(cv.take(i as int)).push(nd@));
                            let p = visible_node_children(cv.take(i as int));
                            assert(p.push(nd@).subrange(0, p.push(nd@).len() - 1) =~= p);
                            assert(p.push(nd@)[p.push(nd@).len() - 1] == nd@);
                        }
                        if nd.tag == CstNodeTag::Sequence {
                            proof {
                                lemma_children_height_elem(cv, i as int);
                                assert(node_height(nd@) < node_height(choice_node@));
                            }
                            match BlockParser::to_seq_elem(nd) {
                                Ok(g) => {
                                    let el = crate::rule::RuleElement::Group(g);
                                    proof {
                                        crate::rule::lemma_elems_view(acc@.push(el));
                                        assert(crate::rule::elems_view(acc@.push(el))
                                            =~= crate::rule::elems_view(acc@).push(el@));
                                    }
                                    acc.push(el);
                                },
                                Err(e) => {
                                    proof {
                                        crate::cst::lemma_visible_split(cv, i + 1);
                                        lemma_seqs_err_app(
                                            visible_node_children(cv.take(i + 1)),
                                            visible_node_children(cv.skip(i + 1)),
                                        );
                                    }
                                    return Err(e);
                                },
                            }
                        }
                    } else {
                        proof {
                            assert(visible_node_children(cv.take(i + 1))
                                =~= visible_node_children(cv.take(i as int)));
                        }
                    }
                },
                CstChild::Leaf(_) => {
                    proof {
                        assert(visible_node_children(cv.take(i + 1)) =~= visible_node_children(
                            cv.take(i as int),
                        ));
                    }
                },
            }
            i = i + 1;
        }
        proof {
            assert(cv.take(i as int) =~= cv);
        }
        let mut g = crate::rule::RuleGroup::new(crate::rule::RuleGroupKind::Choice);
        g.sub_elems = acc;
        proof {
            assert(g@ =~= plain_group(RuleGroupKind::Choice, crate::rule::elems_view(
                g.sub_elems@,
            )));
        }
        Ok(g)
    }
}

impl BlockParser {
    /// Lowers a rule definition node; see [`spec_to_define_cmd`].
    pub fn to_define_cmd(n: &CstNode) -> (r: Result<BlockCommand, BlockParseError>)
        ensures
            agrees_view(r, spec_to_define_cmd(n@)),
    {
        let name_node = match n.nth_visible_node(0) {
            Some(x) => x,
            None => {
                return Err(
                    BlockParseError::InternalErr("malformed rule definition node".to_owned()),
                );
            },
        };
        let pc = match n.nth_visible_node(1) {
            Some(x) => x,
            None => {
                return Err(
                    BlockParseError::InternalErr("malformed rule definition node".to_owned()),
                );
            },
        };
        let name = name_node.text();
        let g = match BlockParser::to_rule_choice_elem(pc) {
            Ok(g) => g,
            Err(e) => {
                return Err(e);
            },
        };
        let rule = crate::rule::Rule::new(n.pos, name.clone(), name, Vec::new(), Vec::new(), g);
        proof {
            assert(crate::rule::strs_view(Seq::<String>::empty()) =~= Seq::<Seq<char>>::empty());
            assert(rule@ =~= spec_to_define_cmd(n@)->Ok_0->Define_rule);
        }
        Ok(BlockCommand::Define { pos: n.pos, rule })
    }

    /// Lowers an entry-point declaration; see [`spec_to_start_cmd`].
    pub fn to_start_cmd(n: &CstNode) -> (r: Result<BlockCommand, BlockParseError>)
        ensures
            agrees_view(r, spec_to_start_cmd(n@)),
    {
        let chain = match n.nth_visible_node(0) {
            Some(x) => x,
            None => {
                return Err(
                    BlockParseError::InternalErr("malformed start command node".to_owned()),
                );
            },
        };
        let segs = chain_segments(chain);
        if segs.len() == 2 {
            Ok(
                BlockCommand::Start {
                    pos: n.pos,
                    file_alias: String::new(),
                    block_id: segs[0].clone(),
                    rule_id: segs[1].clone(),
                },
            )
        } else if segs.len() == 3 {
            Ok(
                BlockCommand::Start {
                    pos: n.pos,
                    file_alias: segs[0].clone(),
                    block_id: segs[1].clone(),
                    rule_id: segs[2].clone(),
                },
            )
        } else {
            Err(BlockParseError::UnknownSyntax(n.pos.line, BlockParser::to_chain_id(chain)))
        }
    }

    /// Lowers an import command; see [`spec_to_use_cmd`].
    pub fn to_use_cmd(n: &CstNode) -> (r: Result<BlockCommand, BlockParseError>)
        ensures
            agrees_view(r, spec_to_use_cmd(n@)),
    {
        let chain = match n.nth_visible_node(0) {
            Some(x) => x,
            None => {
                return Err(BlockParseError::InternalErr("malformed use command node".to_owned()));
            },
        };
        let segs = chain_segments(chain);
        if segs.len() == 1 || segs.len() == 2 {
            let file_alias: String = if segs.len() == 2 {
                segs[0].clone()
            } else {
                String::new()
            };
            let block_id: String = if segs.len() == 2 {
                segs[1].clone()
            } else {
                segs[0].clone()
            };
            match n.find_child_node(CstNodeTag::UseCmdBlockAlias) {
                Some(an) => {
                    match an.nth_visible_node(0) {
                        Some(inner) => {
                            let alias = inner.text();
                            Ok(
                                BlockCommand::Use {
                                    pos: n.pos,
                                    file_alias,
                                    block_id,
                                    local_alias: alias,
                                },
                            )
                        },
                        None => Err(
                            BlockParseError::InternalErr("malformed use alias node".to_owned()),
                        ),
                    }
                },
                None => {
                    let alias = block_id.clone();
                    Ok(
                        BlockCommand::Use { pos: n.pos, file_alias, block_id, local_alias: alias },
                    )
                },
            }
        } else {
            Err(BlockParseError::UnknownSyntax(n.pos.line, BlockParser::to_chain_id(chain)))
        }
    }

    /// Lowers one command node; comments lower to nothing. See
    /// [`spec_to_block_cmd`].
    pub fn to_block_cmd(n: &CstNode) -> (r: Result<Option<BlockCommand>, BlockParseError>)
        ensures
            match r {
                Ok(Some(c)) => spec_to_block_cmd(n@) == Ok::<Option<CmdView>, ErrView>(
                    Some(c@),
                ),
                Ok(None) => spec_to_block_cmd(n@) == Ok::<Option<CmdView>, ErrView>(None),
                Err(e) => spec_to_block_cmd(n@) == Err::<Option<CmdView>, ErrView>(e@),
            },
    {
        if n.tag == CstNodeTag::DefineCmd {
            match BlockParser::to_define_cmd(n) {
                Ok(c) => Ok(Some(c)),
                Err(e) => Err(e),
            }
        } else if n.tag == CstNodeTag::StartCmd {
            match BlockParser::to_start_cmd(n) {
                Ok(c) => Ok(Some(c)),
                Err(e) => Err(e),
            }
        } else if n.tag == CstNodeTag::UseCmd {
            match BlockParser::to_use_cmd(n) {
                Ok(c) => Ok(Some(c)),
                Err(e) => Err(e),
            }
        } else if n.tag == CstNodeTag::Comment {
            Ok(None)
        } else {
            Err(BlockParseError::InternalErr("unknown command node".to_owned()))
        }
    }

    /// Lowers one block node; see [`spec_to_block`].
    fn to_block(n: &CstNode) -> (r: Result<Block, BlockParseError>)
        ensures
            agrees_view(r, spec_to_block(n@)),
    {
        let name_node = match n.nth_visible_node(0) {
            Some(x) => x,
            None => {
                return Err(BlockParseError::InternalErr("malformed block node".to_owned()));
            },
        };
        let cmd_list = match n.nth_visible_node(1) {
            Some(x) => x,
            None => {
                return Err(BlockParseError::InternalErr("malformed block node".to_owned()));
            },
        };
        let name = name_node.text();
        let ghost cv = cmd_list@.children;
        proof {
            crate::cst::lemma_children_view(cmd_list.children@);
            assert(cv.take(0) =~= Seq::<ChildView>::empty());
        }
        let mut cmds: Vec<BlockCommand> = Vec::new();
        let mut i: usize = 0;
        while i < cmd_list.children.len()
            invariant
                i <= cmd_list.children@.len(),
                cv == cmd_list@.children,
                cv.len() == cmd_list.children@.len(),
                forall|j: int|
                    0 <= j < cmd_list.children@.len() ==> cv[j] == crate::cst::child_view(
                        cmd_list.children@[j],
                    ),
                visible_node_children(n@.children).len() >= 2,
                cmd_list@ == visible_node_children(n@.children)[1],
                name@ == leaf_text(visible_node_children(n@.children)[0]),
                spec_lower_cmds(visible_node_children(cv.take(i as int))) == Ok::<
                    Seq<CmdView>,
                    ErrView,
                >(crate::block::cmds_view(cmds@)),
            decreases cmd_list.children@.len() - i,
        {
            proof {
                crate::block::lemma_cmds_view(cmds@);
                assert(cv.take(i + 1).subrange(0, i as int) =~= cv.take(i as int));
                assert(cv.take(i + 1)[i as int] == cv[i as int]);
            }
            match &cmd_list.children[i] {
                CstChild::Node(w) => {
                    if w.visible {
                        proof {
                            assert(visible_node_children(cv.take(i + 1))
                                =~= visible_node_children(cv.take(i as int)).push(w@));
                            let p = visible_node_children(cv.take(i as int));
                            assert(p.push(w@).subrange(0, p.push(w@).len() - 1) =~= p);
                            assert(p.push(w@)[p.push(w@).len() - 1] == w@);
                        }
                        match w.nth_visible_node(0) {
                            Some(cmd_node) => {
                                match BlockParser::to_block_cmd(cmd_node) {
                                    Ok(Some(c)) => {
                                        proof {
                                            crate::block::lemma_cmds_view(cmds@.push(c));
                                            assert(crate::block::cmds_view(cmds@.push(c))
                                                =~= crate::block::cmds_view(cmds@).push(c@));
                                        }
                                        cmds.push(c);
                                    },
                                    Ok(None) => {},
                                    Err(e) => {
                                        proof {
                                            crate::cst::lemma_visible_split(cv, i + 1);
                                            lemma_cmds_err_app(
                                                visible_node_children(cv.take(i + 1)),
                                                visible_node_children(cv.skip(i + 1)),
                                            );
                                        }
                                        return Err(e);
                                    },
                                }
                            },
                            None => {
                                proof {
                                    crate::cst::lemma_visible_split(cv, i + 1);
                                    lemma_cmds_err_app(
                                        visible_node_children(cv.take(i + 1)),
                                        visible_node_children(cv.skip(i + 1)),
                                    );
                                }
                                return Err(
                                    BlockParseError::InternalErr(
                                        "malformed command node".to_owned(),
                                    ),
                                );
                            },
                        }
                    } else {
                        proof {
                            assert(visible_node_children(cv.take(i + 1))
                                =~= visible_node_children(cv.take(i as int)));
                        }
                    }
                },
                CstChild::Leaf(_) => {
                    proof {
                        assert(visible_node_children(cv.take(i + 1)) =~= visible_node_children(
                            cv.take(i as int),
                        ));
                    }
                },
            }
            i = i + 1;
        }
        proof {
            assert(cv.take(i as int) =~= cv);
        }
        Ok(Block::new(name, cmds))
    }

    /// Lowers the root node of one source file into its block map; see
    /// [`spec_to_block_map`]. The map belongs to the root file until
    /// its importer sets another file alias.
    pub fn to_block_map(tree: &CstNode) -> (r: Result<BlockMap, BlockParseError>)
        ensures
            agrees_view(r, spec_to_block_map(tree@)),
    {
        let ghost cv = tree@.children;
        proof {
            crate::cst::lemma_children_view(tree.children@);
            assert(cv.take(0) =~= Seq::<ChildView>::empty());
        }
        let mut map = BlockMap::new(String::new());
        let mut i: usize = 0;
        while i < tree.children.len()
            invariant
                i <= tree.children@.len(),
                cv == tree@.children,
                cv.len() == tree.children@.len(),
                forall|j: int|
                    0 <= j < tree.children@.len() ==> cv[j] == crate::cst::child_view(
                        tree.children@[j],
                    ),
                map@.file_alias == Seq::<char>::empty(),
                spec_lower_blocks(visible_node_children(cv.take(i as int))) == Ok::<
                    Seq<BlockView>,
                    ErrView,
                >(map@.blocks),
            decreases tree.children@.len() - i,
        {
            proof {
                assert(cv.take(i + 1).subrange(0, i as int) =~= cv.take(i as int));
                assert(cv.take(i + 1)[i as int] == cv[i as int]);
            }
            match &tree.children[i] {
                CstChild::Node(bn) => {
                    if bn.visible {
                        proof {
                            assert(visible_node_children(cv.take(i + 1))
                                =~= visible_node_children(cv.take(i as int)).push(bn@));
                            let p = visible_node_children(cv.take(i as int));
                            assert(p.push(bn@).subrange(0, p.push(bn@).len() - 1) =~= p);
                            assert(p.push(bn@)[p.push(bn@).len() - 1] == bn@);
                        }
                        match BlockParser::to_block(bn) {
                            Ok(b) => {
                                let ghost bv = b@;
                                proof {
                                    lemma_contain_agree(map@, bv.name);
                                }
                                match map.add_block(b) {
                                    Ok(()) => {},
                                    Err(e) => {
                                        proof {
                                            crate::cst::lemma_visible_split(cv, i + 1);
                                            lemma_blocks_err_app(
                                                visible_node_children(cv.take(i + 1)),
                                                visible_node_children(cv.skip(i + 1)),
                                            );
                                        }
                                        return Err(e);
                                    },
                                }
                            },
                            Err(e) => {
                                proof {
                                    crate::cst::lemma_visible_split(cv, i + 1);
                                    lemma_blocks_err_app(
                                        visible_node_children(cv.take(i + 1)),
                                        visible_node_children(cv.skip(i + 1)),
                                    );
                                }
                                return Err(e);
                            },
                        }
                    } else {
                        proof {
                            assert(visible_node_children(cv.take(i + 1))
                                =~= visible_node_children(cv.take(i as int)));
                        }
                    }
                },
                CstChild::Leaf(_) => {
                    proof {
                        assert(visible_node_children(cv.take(i + 1)) =~= visible_node_children(
                            cv.take(i as int),
                        ));
                    }
                },
            }
            i = i + 1;
        }
        proof {
            assert(cv.take(i as int) =~= cv);
        }
        if !map.has_block("Main") {
            proof {
                lemma_contain_agree(map@, "Main"@);
            }
            let blk = Block::new("Main".to_owned(), Vec::new());
            proof {
                assert(blk@.cmds =~= Seq::<CmdView>::empty());
            }
            let res = map.add_block(blk);
            match res {
                Ok(()) => {},
                Err(e) => {
                    proof {
                        assert(false);
                    }
                    return Err(e);
                },
            }
        }
        Ok(map)
    }
}

} // verus!
