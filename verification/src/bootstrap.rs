//! The bootstrap grammar: a fixed, hand-built block map describing the
//! grammar-definition notation itself. Its rule table is handed to the
//! matching engine exactly once, to parse the first grammar source
//! (including the notation's own definition), which closes the
//! self-hosting loop: every later grammar is compiled from trees the
//! engine produced with these rules.

use vstd::prelude::*;

use crate::block::Block;
use crate::block::BlockCommand;
use crate::block::BlockMap;
use crate::block::CmdView;
use crate::block::cmds_view;
use crate::block::lemma_blocks_view;
use crate::block::lemma_cmds_view;
use crate::rule::ASTReflectionStyle;
use crate::rule::CharacterPosition;
use crate::rule::ElemView;
use crate::rule::ExprView;
use crate::rule::GroupView;
use crate::rule::Infinitable;
use crate::rule::ReflectView;
use crate::rule::Rule;
use crate::rule::RuleElement;
use crate::rule::RuleElementLookaheadKind;
use crate::rule::RuleElementLoopCount;
use crate::rule::RuleElementOrder;
use crate::rule::RuleExpressionKind;
use crate::rule::RuleGroup;
use crate::rule::RuleGroupKind;
use crate::rule::RuleView;
use crate::rule::elems_view;
use crate::rule::expr_kind_view;
use crate::rule::strs_view;

verus! {

/// Exactly one repetition.
fn lc_one() -> (r: RuleElementLoopCount)
    ensures
        r == (RuleElementLoopCount { min: 1, max: Infinitable::Normal(1) }),
{
    RuleElementLoopCount { min: 1, max: Infinitable::Normal(1) }
}

/// Zero or one repetition (`?`).
fn lc_opt() -> (r: RuleElementLoopCount)
    ensures
        r == (RuleElementLoopCount { min: 0, max: Infinitable::Normal(1) }),
{
    RuleElementLoopCount { min: 0, max: Infinitable::Normal(1) }
}

/// Zero or more repetitions (`*`).
fn lc_many() -> (r: RuleElementLoopCount)
    ensures
        r == (RuleElementLoopCount { min: 0, max: Infinitable::Infinite }),
{
    RuleElementLoopCount { min: 0, max: Infinitable::Infinite }
}

/// One or more repetitions (`+`).
fn lc_more() -> (r: RuleElementLoopCount)
    ensures
        r == (RuleElementLoopCount { min: 1, max: Infinitable::Infinite }),
{
    RuleElementLoopCount { min: 1, max: Infinitable::Infinite }
}

/// A leaf expression element of the bootstrap grammar.
fn elem_expr(
    kind: RuleExpressionKind,
    value: &str,
    look: RuleElementLookaheadKind,
    lc: RuleElementLoopCount,
    refl: ASTReflectionStyle,
) -> (r: RuleElement)
    ensures
        r@ == ElemView::Expression(
            ExprView {
                pos: CharacterPosition { line: 0, column: 0 },
                kind: expr_kind_view(kind),
                value: value@,
                ast_reflection_style: refl@,
                lookahead_kind: look,
                loop_count: lc,
            },
        ),
{
    RuleElement::Expression(
        crate::rule::RuleExpression {
            pos: CharacterPosition::unknown(),
            kind,
            value: value.to_owned(),
            ast_reflection_style: refl,
            lookahead_kind: look,
            loop_count: lc,
        },
    )
}

/// A rule reference that reflects under its own name.
fn e_id(name: &str) -> (r: RuleElement)
    ensures
        r@ == ElemView::Expression(
            ExprView {
                pos: CharacterPosition { line: 0, column: 0 },
                kind: crate::rule::ExprKindView::ID,
                value: name@,
                ast_reflection_style: ReflectView::Reflection(name@),
                lookahead_kind: RuleElementLookaheadKind::NoLookahead,
                loop_count: RuleElementLoopCount { min: 1, max: Infinitable::Normal(1) },
            },
        ),
{
    elem_expr(
        RuleExpressionKind::ID,
        name,
        RuleElementLookaheadKind::NoLookahead,
        lc_one(),
        ASTReflectionStyle::reflection(name),
    )
}

/// A rule reference with a repetition range, dropped from the output
/// tree.
fn e_id_hidden(name: &str, lc: RuleElementLoopCount) -> (r: RuleElement)
    ensures
        r@ == ElemView::Expression(
            ExprView {
                pos: CharacterPosition { line: 0, column: 0 },
                kind: crate::rule::ExprKindView::ID,
                value: name@,
                ast_reflection_style: ReflectView::NoReflection,
                lookahead_kind: RuleElementLookaheadKind::NoLookahead,
                loop_count: lc,
            },
        ),
{
    elem_expr(
        RuleExpressionKind::ID,
        name,
        RuleElementLookaheadKind::NoLookahead,
        lc,
        ASTReflectionStyle::NoReflection,
    )
}

/// A rule reference with a repetition range that reflects under its
/// own name.
fn e_id_loop(name: &str, lc: RuleElementLoopCount) -> (r: RuleElement)
    ensures
        r@ == ElemView::Expression(
            ExprView {
                pos: CharacterPosition { line: 0, column: 0 },
                kind: crate::rule::ExprKindView::ID,
                value: name@,
                ast_reflection_style: ReflectView::Reflection(name@),
                lookahead_kind: RuleElementLookaheadKind::NoLookahead,
                loop_count: lc,
            },
        ),
{
    elem_expr(
        RuleExpressionKind::ID,
        name,
        RuleElementLookaheadKind::NoLookahead,
        lc,
        ASTReflectionStyle::reflection(name),
    )
}

/// An optional rule reference that reflects under its own name.
fn e_id_opt(name: &str) -> (r: RuleElement)
    ensures
        r@ == ElemView::Expression(
            ExprView {
                pos: CharacterPosition { line: 0, column: 0 },
                kind: crate::rule::ExprKindView::ID,
                value: name@,
                ast_reflection_style: ReflectView::Reflection(name@),
                lookahead_kind: RuleElementLookaheadKind::NoLookahead,
                loop_count: RuleElementLoopCount { min: 0, max: Infinitable::Normal(1) },
            },
        ),
{
    e_id_loop(name, lc_opt())
}

/// A rule reference used as negative lookahead.
fn e_id_not(name: &str) -> (r: RuleElement)
    ensures
        r@ == ElemView::Expression(
            ExprView {
                pos: CharacterPosition { line: 0, column: 0 },
                kind: crate::rule::ExprKindView::ID,
                value: name@,
                ast_reflection_style: ReflectView::Reflection(name@),
                lookahead_kind: RuleElementLookaheadKind::Negative,
                loop_count: RuleElementLoopCount { min: 1, max: Infinitable::Normal(1) },
            },
        ),
{
    elem_expr(
        RuleExpressionKind::ID,
        name,
        RuleElementLookaheadKind::Negative,
        lc_one(),
        ASTReflectionStyle::reflection(name),
    )
}

/// A string literal element, reflected under the empty name.
fn e_str(value: &str) -> (r: RuleElement)
    ensures
        r@ == ElemView::Expression(
            ExprView {
                pos: CharacterPosition { line: 0, column: 0 },
                kind: crate::rule::ExprKindView::Str,
                value: value@,
                ast_reflection_style: ReflectView::Reflection(Seq::empty()),
                lookahead_kind: RuleElementLookaheadKind::NoLookahead,
                loop_count: RuleElementLoopCount { min: 1, max: Infinitable::Normal(1) },
            },
        ),
{
    elem_expr(
        RuleExpressionKind::Str,
        value,
        RuleElementLookaheadKind::NoLookahead,
        lc_one(),
        ASTReflectionStyle::Reflection(String::new()),
    )
}

/// A string literal element dropped from the output tree.
fn e_str_hidden(value: &str) -> (r: RuleElement)
    ensures
        r@ == ElemView::Expression(
            ExprView {
                pos: CharacterPosition { line: 0, column: 0 },
                kind: crate::rule::ExprKindView::Str,
                value: value@,
                ast_reflection_style: ReflectView::NoReflection,
                lookahead_kind: RuleElementLookaheadKind::NoLookahead,
                loop_count: RuleElementLoopCount { min: 1, max: Infinitable::Normal(1) },
            },
        ),
{
    elem_expr(
        RuleExpressionKind::Str,
        value,
        RuleElementLookaheadKind::NoLookahead,
        lc_one(),
        ASTReflectionStyle::NoReflection,
    )
}

/// A string literal used as negative lookahead.
fn e_str_not(value: &str) -> (r: RuleElement)
    ensures
        r@ == ElemView::Expression(
            ExprView {
                pos: CharacterPosition { line: 0, column: 0 },
                kind: crate::rule::ExprKindView::Str,
                value: value@,
                ast_reflection_style: ReflectView::Reflection(Seq::empty()),
                lookahead_kind: RuleElementLookaheadKind::Negative,
                loop_count: RuleElementLoopCount { min: 1, max: Infinitable::Normal(1) },
            },
        ),
{
    elem_expr(
        RuleExpressionKind::Str,
        value,
        RuleElementLookaheadKind::Negative,
        lc_one(),
        ASTReflectionStyle::Reflection(String::new()),
    )
}

/// A character-class element, reflected under the empty name.
fn e_class(value: &str, lc: RuleElementLoopCount) -> (r: RuleElement)
    ensures
        r@ == ElemView::Expression(
            ExprView {
                pos: CharacterPosition { line: 0, column: 0 },
                kind: crate::rule::ExprKindView::CharClass,
                value: value@,
                ast_reflection_style: ReflectView::Reflection(Seq::empty()),
                lookahead_kind: RuleElementLookaheadKind::NoLookahead,
                loop_count: lc,
            },
        ),
{
    elem_expr(
        RuleExpressionKind::CharClass,
        value,
        RuleElementLookaheadKind::NoLookahead,
        lc,
        ASTReflectionStyle::Reflection(String::new()),
    )
}

/// A wildcard element.
fn e_wild() -> (r: RuleElement)
    ensures
        r@ == ElemView::Expression(
            ExprView {
                pos: CharacterPosition { line: 0, column: 0 },
                kind: crate::rule::ExprKindView::Wildcard,
                value: "."@,
                ast_reflection_style: ReflectView::Reflection(Seq::empty()),
                lookahead_kind: RuleElementLookaheadKind::NoLookahead,
                loop_count: RuleElementLoopCount { min: 1, max: Infinitable::Normal(1) },
            },
        ),
{
    elem_expr(
        RuleExpressionKind::Wildcard,
        ".",
        RuleElementLookaheadKind::NoLookahead,
        lc_one(),
        ASTReflectionStyle::Reflection(String::new()),
    )
}

/// A nested group element of the bootstrap grammar.
fn elem_group(
    kind: RuleGroupKind,
    elems: Vec<RuleElement>,
    look: RuleElementLookaheadKind,
    lc: RuleElementLoopCount,
    refl: ASTReflectionStyle,
) -> (r: RuleElement)
    ensures
        r@ == ElemView::Group(
            GroupView {
                kind,
                sub_elems: elems_view(elems@),
                ast_reflection_style: refl@,
                lookahead_kind: look,
                loop_count: lc,
                elem_order: RuleElementOrder::Sequential,
            },
        ),
{
    RuleElement::Group(
        RuleGroup {
            kind,
            sub_elems: elems,
            ast_reflection_style: refl,
            lookahead_kind: look,
            loop_count: lc,
            elem_order: RuleElementOrder::Sequential,
        },
    )
}

/// A sequence group with the default attributes.
fn g_seq(elems: Vec<RuleElement>) -> (r: RuleElement)
    ensures
        r@ == ElemView::Group(
            GroupView {
                kind: RuleGroupKind::Sequence,
                sub_elems: elems_view(elems@),
                ast_reflection_style: ReflectView::Reflection(Seq::empty()),
                lookahead_kind: RuleElementLookaheadKind::NoLookahead,
                loop_count: RuleElementLoopCount { min: 1, max: Infinitable::Normal(1) },
                elem_order: RuleElementOrder::Sequential,
            },
        ),
{
    elem_group(
        RuleGroupKind::Sequence,
        elems,
        RuleElementLookaheadKind::NoLookahead,
        lc_one(),
        ASTReflectionStyle::Reflection(String::new()),
    )
}

/// A sequence group with a repetition range.
fn g_seq_loop(elems: Vec<RuleElement>, lc: RuleElementLoopCount) -> (r: RuleElement)
    ensures
        r@ == ElemView::Group(
            GroupView {
                kind: RuleGroupKind::Sequence,
                sub_elems: elems_view(elems@),
                ast_reflection_style: ReflectView::Reflection(Seq::empty()),
                lookahead_kind: RuleElementLookaheadKind::NoLookahead,
                loop_count: lc,
                elem_order: RuleElementOrder::Sequential,
            },
        ),
{
    elem_group(
        RuleGroupKind::Sequence,
        elems,
        RuleElementLookaheadKind::NoLookahead,
        lc,
        ASTReflectionStyle::Reflection(String::new()),
    )
}

/// A sequence group with a repetition range, spliced into its parent.
fn g_seq_loop_exp(elems: Vec<RuleElement>, lc: RuleElementLoopCount) -> (r: RuleElement)
    ensures
        r@ == ElemView::Group(
            GroupView {
                kind: RuleGroupKind::Sequence,
                sub_elems: elems_view(elems@),
                ast_reflection_style: ReflectView::Expandable,
                lookahead_kind: RuleElementLookaheadKind::NoLookahead,
                loop_count: lc,
                elem_order: RuleElementOrder::Sequential,
            },
        ),
{
    elem_group(
        RuleGroupKind::Sequence,
        elems,
        RuleElementLookaheadKind::NoLookahead,
        lc,
        ASTReflectionStyle::Expandable,
    )
}

/// An alternation group with the default attributes.
fn g_choice(elems: Vec<RuleElement>) -> (r: RuleElement)
    ensures
        r@ == ElemView::Group(
            GroupView {
                kind: RuleGroupKind::Choice,
                sub_elems: elems_view(elems@),
                ast_reflection_style: ReflectView::Reflection(Seq::empty()),
                lookahead_kind: RuleElementLookaheadKind::NoLookahead,
                loop_count: RuleElementLoopCount { min: 1, max: Infinitable::Normal(1) },
                elem_order: RuleElementOrder::Sequential,
            },
        ),
{
    elem_group(
        RuleGroupKind::Choice,
        elems,
        RuleElementLookaheadKind::NoLookahead,
        lc_one(),
        ASTReflectionStyle::Reflection(String::new()),
    )
}

/// An import of another block under its own name.
fn use_block(name: &str) -> (r: BlockCommand)
    ensures
        r@ == (CmdView::Use {
            pos: CharacterPosition { line: 0, column: 0 },
            file_alias: Seq::empty(),
            block_id: name@,
            local_alias: name@,
        }),
{
    BlockCommand::Use {
        pos: CharacterPosition::unknown(),
        file_alias: String::new(),
        block_id: name.to_owned(),
        local_alias: name.to_owned(),
    }
}

/// An entry-point declaration.
fn start_cmd(file_alias: &str, block_id: &str, rule_id: &str) -> (r: BlockCommand)
    ensures
        r@ == (CmdView::Start {
            pos: CharacterPosition { line: 0, column: 0 },
            file_alias: file_alias@,
            block_id: block_id@,
            rule_id: rule_id@,
        }),
{
    BlockCommand::Start {
        pos: CharacterPosition::unknown(),
        file_alias: file_alias.to_owned(),
        block_id: block_id.to_owned(),
        rule_id: rule_id.to_owned(),
    }
}

/// A rule definition whose root is an alternation over the given
/// elements.
fn define_rule(name: &str, alternatives: Vec<RuleElement>) -> (r: BlockCommand)
    ensures
        r@ == (CmdView::Define {
            pos: CharacterPosition { line: 0, column: 0 },
            rule: RuleView {
                pos: CharacterPosition { line: 0, column: 0 },
                id: name@,
                name: name@,
                generics_arg_ids: Seq::empty(),
                func_arg_ids: Seq::empty(),
                group: GroupView {
                    kind: RuleGroupKind::Choice,
                    sub_elems: elems_view(alternatives@),
                    ast_reflection_style: ReflectView::Reflection(Seq::empty()),
                    lookahead_kind: RuleElementLookaheadKind::NoLookahead,
                    loop_count: RuleElementLoopCount { min: 1, max: Infinitable::Normal(1) },
                    elem_order: RuleElementOrder::Sequential,
                },
            },
        }),
{
    let group = RuleGroup {
        kind: RuleGroupKind::Choice,
        sub_elems: alternatives,
        ast_reflection_style: ASTReflectionStyle::Reflection(String::new()),
        lookahead_kind: RuleElementLookaheadKind::NoLookahead,
        loop_count: lc_one(),
        elem_order: RuleElementOrder::Sequential,
    };
    let rule = Rule {
        pos: CharacterPosition::unknown(),
        id: name.to_owned(),
        name: name.to_owned(),
        generics_arg_ids: Vec::new(),
        func_arg_ids: Vec::new(),
        group,
    };
    proof {
        assert(strs_view(Seq::<String>::empty()) =~= Seq::<Seq<char>>::empty());
    }
    BlockCommand::Define { pos: CharacterPosition::unknown(), rule }
}

/// A list of 1 element, with its exact view.
fn elems1(e0: RuleElement) -> (r: Vec<RuleElement>)
    ensures
        elems_view(r@) == seq![e0@],
{
    let ghost g0 = e0@;
    let v = vec![e0];
    let ghost vv = v@;
    proof {
        crate::rule::lemma_elems_view(vv);
        assert(elems_view(vv) =~= seq![g0]);
    }
    v
}

/// A list of 2 elements, with its exact view.
fn elems2(e0: RuleElement, e1: RuleElement) -> (r: Vec<RuleElement>)
    ensures
        elems_view(r@) == seq![e0@, e1@],
{
    let ghost g0 = e0@;
    let ghost g1 = e1@;
    let v = vec![e0, e1];
    let ghost vv = v@;
    proof {
        crate::rule::lemma_elems_view(vv);
        assert(elems_view(vv) =~= seq![g0, g1]);
    }
    v
}

/// A list of 3 elements, with its exact view.
fn elems3(e0: RuleElement, e1: RuleElement, e2: RuleElement) -> (r: Vec<RuleElement>)
    ensures
        elems_view(r@) == seq![e0@, e1@, e2@],
{
    let ghost g0 = e0@;
    let ghost g1 = e1@;
    let ghost g2 = e2@;
    let v = vec![e0, e1, e2];
    let ghost vv = v@;
    proof {
        crate::rule::lemma_elems_view(vv);
        assert(elems_view(vv) =~= seq![g0, g1, g2]);
    }
    v
}

/// A list of 4 elements, with its exact view.
fn elems4(e0: RuleElement, e1: RuleElement, e2: RuleElement, e3: RuleElement) -> (r: Vec<RuleElement>)
    ensures
        elems_view(r@) == seq![e0@, e1@, e2@, e3@],
{
    let ghost g0 = e0@;
    let ghost g1 = e1@;
    let ghost g2 = e2@;
    let ghost g3 = e3@;
    let v = vec![e0, e1, e2, e3];
    let ghost vv = v@;
    proof {
        crate::rule::lemma_elems_view(vv);
        assert(elems_view(vv) =~= seq![g0, g1, g2, g3]);
    }
    v
}

/// A list of 5 elements, with its exact view.
fn elems5(e0: RuleElement, e1: RuleElement, e2: RuleElement, e3: RuleElement, e4: RuleElement) -> (r: Vec<RuleElement>)
    ensures
        elems_view(r@) == seq![e0@, e1@, e2@, e3@, e4@],
{
    let ghost g0 = e0@;
    let ghost g1 = e1@;
    let ghost g2 = e2@;
    let ghost g3 = e3@;
    let ghost g4 = e4@;
    let v = vec![e0, e1, e2, e3, e4];
    let ghost vv = v@;
    proof {
        crate::rule::lemma_elems_view(vv);
        assert(elems_view(vv) =~= seq![g0, g1, g2, g3, g4]);
    }
    v
}

/// A list of 7 elements, with its exact view.
fn elems7(e0: RuleElement, e1: RuleElement, e2: RuleElement, e3: RuleElement, e4: RuleElement, e5: RuleElement, e6: RuleElement) -> (r: Vec<RuleElement>)
    ensures
        elems_view(r@) == seq![e0@, e1@, e2@, e3@, e4@, e5@, e6@],
{
    let ghost g0 = e0@;
    let ghost g1 = e1@;
    let ghost g2 = e2@;
    let ghost g3 = e3@;
    let ghost g4 = e4@;
    let ghost g5 = e5@;
    let ghost g6 = e6@;
    let v = vec![e0, e1, e2, e3, e4, e5, e6];
    let ghost vv = v@;
    proof {
        crate::rule::lemma_elems_view(vv);
        assert(elems_view(vv) =~= seq![g0, g1, g2, g3, g4, g5, g6]);
    }
    v
}

/// A list of 8 elements, with its exact view.
fn elems8(e0: RuleElement, e1: RuleElement, e2: RuleElement, e3: RuleElement, e4: RuleElement, e5: RuleElement, e6: RuleElement, e7: RuleElement) -> (r: Vec<RuleElement>)
    ensures
        elems_view(r@) == seq![e0@, e1@, e2@, e3@, e4@, e5@, e6@, e7@],
{
    let ghost g0 = e0@;
    let ghost g1 = e1@;
    let ghost g2 = e2@;
    let ghost g3 = e3@;
    let ghost g4 = e4@;
    let ghost g5 = e5@;
    let ghost g6 = e6@;
    let ghost g7 = e7@;
    let v = vec![e0, e1, e2, e3, e4, e5, e6, e7];
    let ghost vv = v@;
    proof {
        crate::rule::lemma_elems_view(vv);
        assert(elems_view(vv) =~= seq![g0, g1, g2, g3, g4, g5, g6, g7]);
    }
    v
}

/// A list of 10 elements, with its exact view.
fn elems10(e0: RuleElement, e1: RuleElement, e2: RuleElement, e3: RuleElement, e4: RuleElement, e5: RuleElement, e6: RuleElement, e7: RuleElement, e8: RuleElement, e9: RuleElement) -> (r: Vec<RuleElement>)
    ensures
        elems_view(r@) == seq![e0@, e1@, e2@, e3@, e4@, e5@, e6@, e7@, e8@, e9@],
{
    let ghost g0 = e0@;
    let ghost g1 = e1@;
    let ghost g2 = e2@;
    let ghost g3 = e3@;
    let ghost g4 = e4@;
    let ghost g5 = e5@;
    let ghost g6 = e6@;
    let ghost g7 = e7@;
    let ghost g8 = e8@;
    let ghost g9 = e9@;
    let v = vec![e0, e1, e2, e3, e4, e5, e6, e7, e8, e9];
    let ghost vv = v@;
    proof {
        crate::rule::lemma_elems_view(vv);
        assert(elems_view(vv) =~= seq![g0, g1, g2, g3, g4, g5, g6, g7, g8, g9]);
    }
    v
}

/// The position hand-built values carry.
pub open spec fn zero_pos() -> CharacterPosition {
    CharacterPosition { line: 0, column: 0 }
}

pub open spec fn one_loop() -> RuleElementLoopCount {
    RuleElementLoopCount { min: 1, max: Infinitable::Normal(1) }
}

pub open spec fn opt_loop() -> RuleElementLoopCount {
    RuleElementLoopCount { min: 0, max: Infinitable::Normal(1) }
}

pub open spec fn many_loop() -> RuleElementLoopCount {
    RuleElementLoopCount { min: 0, max: Infinitable::Infinite }
}

pub open spec fn more_loop() -> RuleElementLoopCount {
    RuleElementLoopCount { min: 1, max: Infinitable::Infinite }
}

/// A leaf expression of the bootstrap grammar, as a value.
pub open spec fn spec_expr(
    kind: crate::rule::ExprKindView,
    value: Seq<char>,
    look: RuleElementLookaheadKind,
    lc: RuleElementLoopCount,
    refl: ReflectView,
) -> ElemView {
    ElemView::Expression(
        ExprView {
            pos: zero_pos(),
            kind,
            value,
            ast_reflection_style: refl,
            lookahead_kind: look,
            loop_count: lc,
        },
    )
}

/// A group of the bootstrap grammar, as a value.
pub open spec fn spec_group(
    kind: RuleGroupKind,
    elems: Seq<ElemView>,
    look: RuleElementLookaheadKind,
    lc: RuleElementLoopCount,
    refl: ReflectView,
) -> ElemView {
    ElemView::Group(
        GroupView {
            kind,
            sub_elems: elems,
            ast_reflection_style: refl,
            lookahead_kind: look,
            loop_count: lc,
            elem_order: RuleElementOrder::Sequential,
        },
    )
}

pub open spec fn spec_id(name: Seq<char>) -> ElemView {
    spec_expr(
        crate::rule::ExprKindView::ID,
        name,
        RuleElementLookaheadKind::NoLookahead,
        one_loop(),
        ReflectView::Reflection(name),
    )
}

pub open spec fn spec_id_loop(name: Seq<char>, lc: RuleElementLoopCount) -> ElemView {
    spec_expr(
        crate::rule::ExprKindView::ID,
        name,
        RuleElementLookaheadKind::NoLookahead,
        lc,
        ReflectView::Reflection(name),
    )
}

pub open spec fn spec_id_hidden(name: Seq<char>, lc: RuleElementLoopCount) -> ElemView {
    spec_expr(
        crate::rule::ExprKindView::ID,
        name,
        RuleElementLookaheadKind::NoLookahead,
        lc,
        ReflectView::NoReflection,
    )
}

pub open spec fn spec_id_opt(name: Seq<char>) -> ElemView {
    spec_id_loop(name, opt_loop())
}

pub open spec fn spec_id_not(name: Seq<char>) -> ElemView {
    spec_expr(
        crate::rule::ExprKindView::ID,
        name,
        RuleElementLookaheadKind::Negative,
        one_loop(),
        ReflectView::Reflection(name),
    )
}

pub open spec fn spec_str(value: Seq<char>) -> ElemView {
    spec_expr(
        crate::rule::ExprKindView::Str,
        value,
        RuleElementLookaheadKind::NoLookahead,
        one_loop(),
        ReflectView::Reflection(Seq::empty()),
    )
}

pub open spec fn spec_str_hidden(value: Seq<char>) -> ElemView {
    spec_expr(
        crate::rule::ExprKindView::Str,
        value,
        RuleElementLookaheadKind::NoLookahead,
        one_loop(),
        ReflectView::NoReflection,
    )
}

pub open spec fn spec_str_not(value: Seq<char>) -> ElemView {
    spec_expr(
        crate::rule::ExprKindView::Str,
        value,
        RuleElementLookaheadKind::Negative,
        one_loop(),
        ReflectView::Reflection(Seq::empty()),
    )
}

pub open spec fn spec_class(value: Seq<char>, lc: RuleElementLoopCount) -> ElemView {
    spec_expr(
        crate::rule::ExprKindView::CharClass,
        value,
        RuleElementLookaheadKind::NoLookahead,
        lc,
        ReflectView::Reflection(Seq::empty()),
    )
}

pub open spec fn spec_wild() -> ElemView {
    spec_expr(
        crate::rule::ExprKindView::Wildcard,
        "."@,
        RuleElementLookaheadKind::NoLookahead,
        one_loop(),
        ReflectView::Reflection(Seq::empty()),
    )
}

pub open spec fn spec_seq(elems: Seq<ElemView>) -> ElemView {
    spec_group(
        RuleGroupKind::Sequence,
        elems,
        RuleElementLookaheadKind::NoLookahead,
        one_loop(),
        ReflectView::Reflection(Seq::empty()),
    )
}

pub open spec fn spec_seq_loop(elems: Seq<ElemView>, lc: RuleElementLoopCount) -> ElemView {
    spec_group(
        RuleGroupKind::Sequence,
        elems,
        RuleElementLookaheadKind::NoLookahead,
        lc,
        ReflectView::Reflection(Seq::empty()),
    )
}

pub open spec fn spec_seq_loop_exp(elems: Seq<ElemView>, lc: RuleElementLoopCount) -> ElemView {
    spec_group(
        RuleGroupKind::Sequence,
        elems,
        RuleElementLookaheadKind::NoLookahead,
        lc,
        ReflectView::Expandable,
    )
}

pub open spec fn spec_choice(elems: Seq<ElemView>) -> ElemView {
    spec_group(
        RuleGroupKind::Choice,
        elems,
        RuleElementLookaheadKind::NoLookahead,
        one_loop(),
        ReflectView::Reflection(Seq::empty()),
    )
}

/// An import command of the bootstrap grammar, as a value.
pub open spec fn spec_use(name: Seq<char>) -> CmdView {
    CmdView::Use { pos: zero_pos(), file_alias: Seq::empty(), block_id: name, local_alias: name }
}

/// The entry-point declaration of the bootstrap grammar, as a value.
pub open spec fn spec_start(
    file_alias: Seq<char>,
    block_id: Seq<char>,
    rule_id: Seq<char>,
) -> CmdView {
    CmdView::Start { pos: zero_pos(), file_alias, block_id, rule_id }
}

/// A rule definition of the bootstrap grammar, as a value.
pub open spec fn spec_define(name: Seq<char>, alternatives: Seq<ElemView>) -> CmdView {
    CmdView::Define {
        pos: zero_pos(),
        rule: RuleView {
            pos: zero_pos(),
            id: name,
            name,
            generics_arg_ids: Seq::empty(),
            func_arg_ids: Seq::empty(),
            group: GroupView {
                kind: RuleGroupKind::Choice,
                sub_elems: alternatives,
                ast_reflection_style: ReflectView::Reflection(Seq::empty()),
                lookahead_kind: RuleElementLookaheadKind::NoLookahead,
                loop_count: one_loop(),
                elem_order: RuleElementOrder::Sequential,
            },
        },
    }
}

/// The root namespace, in full: the entry-point declaration alone.
pub open spec fn main_block_view() -> crate::block::BlockView {
    crate::block::BlockView {
        name: "Main"@,
        cmds: seq![spec_start(Seq::empty(), "Syntax"@, "FCPEG"@)],
    }
}

/// The whole-file block, in full: imports and the `FCPEG` rule,
/// `Symbol.Space*# Symbol.LineEnd*# (Block.Block Symbol.LineEnd+#)*
/// Symbol.LineEnd*# Symbol.Space*#`.
pub open spec fn syntax_block_view() -> crate::block::BlockView {
    crate::block::BlockView {
        name: "Syntax"@,
        cmds: seq![
            spec_use("Block"@),
            spec_use("Symbol"@),
            spec_define(
                "FCPEG"@,
                seq![
                    spec_seq(
                        seq![
                            spec_id_hidden("Symbol.Space"@, many_loop()),
                            spec_id_hidden("Symbol.LineEnd"@, many_loop()),
                            spec_seq_loop(
                                seq![
                                    spec_seq(
                                        seq![
                                            spec_id("Block.Block"@),
                                            spec_id_hidden("Symbol.LineEnd"@, more_loop()),
                                        ],
                                    ),
                                ],
                                many_loop(),
                            ),
                            spec_id_hidden("Symbol.LineEnd"@, many_loop()),
                            spec_id_hidden("Symbol.Space"@, many_loop()),
                        ],
                    ),
                ],
            ),
        ],
    }
}

/// The identifier block, in full: `SingleID <- [a-zA-Z_]
/// [a-zA-Z0-9_]*` and `ChainID <- SingleID ("."# SingleID)*##`.
pub open spec fn misc_block_view() -> crate::block::BlockView {
    crate::block::BlockView {
        name: "Misc"@,
        cmds: seq![
            spec_define(
                "SingleID"@,
                seq![
                    spec_seq(
                        seq![
                            spec_class("[a-zA-Z_]"@, one_loop()),
                            spec_class("[a-zA-Z0-9_]"@, many_loop()),
                        ],
                    ),
                ],
            ),
            spec_define(
                "ChainID"@,
                seq![
                    spec_seq(
                        seq![
                            spec_id("SingleID"@),
                            spec_seq_loop_exp(
                                seq![
                                    spec_seq(
                                        seq![spec_str_hidden("."@), spec_id("SingleID"@)],
                                    ),
                                ],
                                many_loop(),
                            ),
                        ],
                    ),
                ],
            ),
        ],
    }
}

/// The whitespace block, in full: one space, and line ends with
/// surrounding spaces.
pub open spec fn symbol_block_view() -> crate::block::BlockView {
    crate::block::BlockView {
        name: "Symbol"@,
        cmds: seq![
            spec_define("Space"@, seq![spec_seq(seq![spec_str(" "@)])]),
            spec_define(
                "LineEnd"@,
                seq![
                    spec_seq(
                        seq![
                            spec_id_loop("Space"@, many_loop()),
                            spec_str("\n"@),
                            spec_id_loop("Space"@, many_loop()),
                        ],
                    ),
                ],
            ),
        ],
    }
}

/// The command block, in full: block delimiters, the command
/// alternation, comments, rule definitions, entry-point declarations
/// and imports, as the notation writes them.
pub open spec fn block_block_view() -> crate::block::BlockView {
    crate::block::BlockView {
        name: "Block"@,
        cmds: seq![
            spec_use("Misc"@),
            spec_use("Rule"@),
            spec_use("Symbol"@),
            spec_define(
                "Block"@,
                seq![
                    spec_seq(
                        seq![
                            spec_str_hidden("["@),
                            spec_id_hidden("Symbol.Space"@, many_loop()),
                            spec_id("Misc.SingleID"@),
                            spec_id_hidden("Symbol.Space"@, many_loop()),
                            spec_str_hidden("]"@),
                            spec_id_hidden("Symbol.Space"@, many_loop()),
                            spec_str_hidden("{"@),
                            spec_id_hidden("Symbol.LineEnd"@, more_loop()),
                            spec_seq_loop(
                                seq![
                                    spec_seq(
                                        seq![
                                            spec_id("Cmd"@),
                                            spec_id_hidden("Symbol.LineEnd"@, more_loop()),
                                        ],
                                    ),
                                ],
                                many_loop(),
                            ),
                            spec_str_hidden("}"@),
                        ],
                    ),
                ],
            ),
            spec_define(
                "Cmd"@,
                seq![
                    spec_seq(
                        seq![
                            spec_choice(
                                seq![
                                    spec_seq(seq![spec_id("Comment"@)]),
                                    spec_seq(seq![spec_id("DefineCmd"@)]),
                                    spec_seq(seq![spec_id("StartCmd"@)]),
                                    spec_seq(seq![spec_id("UseCmd"@)]),
                                ],
                            ),
                        ],
                    ),
                ],
            ),
            spec_define(
                "Comment"@,
                seq![
                    spec_seq(
                        seq![
                            spec_str_hidden("%"@),
                            spec_seq_loop(
                                seq![
                                    spec_seq(
                                        seq![
                                            spec_str_not(","@),
                                            spec_id_not("Symbol.LineEnd"@),
                                            spec_wild(),
                                        ],
                                    ),
                                ],
                                many_loop(),
                            ),
                            spec_str_hidden(","@),
                        ],
                    ),
                ],
            ),
            spec_define(
                "DefineCmd"@,
                seq![
                    spec_seq(
                        seq![
                            spec_id("Misc.SingleID"@),
                            spec_id_hidden("Symbol.Space"@, many_loop()),
                            spec_str_hidden("<-"@),
                            spec_id_hidden("Symbol.Space"@, many_loop()),
                            spec_id("Rule.PureChoice"@),
                            spec_id_hidden("Symbol.Space"@, many_loop()),
                            spec_str_hidden(","@),
                        ],
                    ),
                ],
            ),
            spec_define(
                "StartCmd"@,
                seq![
                    spec_seq(
                        seq![
                            spec_str_hidden("+"@),
                            spec_id_hidden("Symbol.Space"@, many_loop()),
                            spec_str_hidden("start"@),
                            spec_id_hidden("Symbol.Space"@, more_loop()),
                            spec_id("Misc.ChainID"@),
                            spec_id_hidden("Symbol.Space"@, many_loop()),
                            spec_str_hidden(","@),
                        ],
                    ),
                ],
            ),
            spec_define(
                "UseCmd"@,
                seq![
                    spec_seq(
                        seq![
                            spec_str_hidden("+"@),
                            spec_id_hidden("Symbol.Space"@, many_loop()),
                            spec_str_hidden("use"@),
                            spec_id_hidden("Symbol.Space"@, more_loop()),
                            spec_id("Misc.ChainID"@),
                            spec_id_opt("UseCmdBlockAlias"@),
                            spec_id_hidden("Symbol.Space"@, many_loop()),
                            spec_str_hidden(","@),
                        ],
                    ),
                ],
            ),
            spec_define(
                "UseCmdBlockAlias"@,
                seq![
                    spec_seq(
                        seq![
                            spec_id_hidden("Symbol.Space"@, more_loop()),
                            spec_str_hidden("as"@),
                            spec_id_hidden("Symbol.Space"@, more_loop()),
                            spec_id("Misc.SingleID"@),
                        ],
                    ),
                ],
            ),
        ],
    }
}

/// The expression block, in full: alternation, sequences, the
/// quantifier and lookahead markers, reflection markers, identifiers,
/// string literals with their escapes, character classes and the
/// wildcard, as the notation writes them.
pub open spec fn rule_block_view() -> crate::block::BlockView {
    crate::block::BlockView {
        name: "Rule"@,
        cmds: seq![
            spec_use("Misc"@),
            spec_use("Symbol"@),
            spec_define(
                "PureChoice"@,
                seq![
                    spec_seq(
                        seq![
                            spec_id("Seq"@),
                            spec_seq_loop_exp(
                                seq![
                                    spec_id_hidden("Symbol.Space"@, one_loop()),
                                    spec_str(":"@),
                                    spec_id_hidden("Symbol.Space"@, one_loop()),
                                    spec_id("Seq"@),
                                ],
                                many_loop(),
                            ),
                        ],
                    ),
                ],
            ),
            spec_define(
                "Choice"@,
                seq![
                    spec_seq(
                        seq![spec_str_hidden("("@), spec_id("PureChoice"@), spec_str_hidden(")"@)],
                    ),
                ],
            ),
            spec_define(
                "Seq"@,
                seq![
                    spec_seq(
                        seq![
                            spec_id("SeqElem"@),
                            spec_seq_loop_exp(
                                seq![
                                    spec_seq(
                                        seq![
                                            spec_seq(
                                                seq![
                                                    spec_id_hidden("Symbol.Space"@, more_loop()),
                                                    spec_id("SeqElem"@),
                                                ],
                                            ),
                                        ],
                                    ),
                                ],
                                many_loop(),
                            ),
                        ],
                    ),
                ],
            ),
            spec_define(
                "SeqElem"@,
                seq![
                    spec_seq(
                        seq![
                            spec_id_opt("Lookahead"@),
                            spec_seq_loop_exp(
                                seq![
                                    spec_choice(
                                        seq![
                                            spec_seq(seq![spec_id("Choice"@)]),
                                            spec_seq(seq![spec_id("Expr"@)]),
                                        ],
                                    ),
                                ],
                                one_loop(),
                            ),
                            spec_id_opt("Loop"@),
                            spec_id_opt("RandomOrder"@),
                            spec_id_opt("ASTReflection"@),
                        ],
                    ),
                ],
            ),
            spec_define(
                "Expr"@,
                seq![
                    spec_seq(
                        seq![
                            spec_choice(
                                seq![
                                    spec_seq(seq![spec_id("ID"@)]),
                                    spec_seq(seq![spec_id("Str"@)]),
                                    spec_seq(seq![spec_id("CharClass"@)]),
                                    spec_seq(seq![spec_id("Wildcard"@)]),
                                ],
                            ),
                        ],
                    ),
                ],
            ),
            spec_define(
                "Lookahead"@,
                seq![
                    spec_seq(
                        seq![
                            spec_choice(
                                seq![
                                    spec_seq(seq![spec_str("!"@)]),
                                    spec_seq(seq![spec_str("&"@)]),
                                ],
                            ),
                        ],
                    ),
                ],
            ),
            spec_define(
                "Loop"@,
                seq![
                    spec_seq(
                        seq![
                            spec_choice(
                                seq![
                                    spec_seq(seq![spec_str("?"@)]),
                                    spec_seq(seq![spec_str("*"@)]),
                                    spec_seq(seq![spec_str("+"@)]),
                                    spec_seq(seq![spec_id("LoopRange"@)]),
                                ],
                            ),
                        ],
                    ),
                ],
            ),
            spec_define(
                "LoopRange"@,
                seq![
                    spec_seq(
                        seq![
                            spec_str_hidden("{"@),
                            spec_id_opt("Num"@),
                            spec_str_hidden(","@),
                            spec_id_opt("Num"@),
                            spec_str_hidden("}"@),
                        ],
                    ),
                ],
            ),
            spec_define(
                "RandomOrder"@,
                seq![
                    spec_seq(seq![spec_str_hidden("^"@), spec_id_opt("RandomOrderRange"@)]),
                ],
            ),
            spec_define(
                "RandomOrderRange"@,
                seq![
                    spec_seq(
                        seq![
                            spec_str_hidden("["@),
                            spec_id_opt("Num"@),
                            spec_str_hidden(","@),
                            spec_id_opt("Num"@),
                            spec_str_hidden("]"@),
                        ],
                    ),
                ],
            ),
            spec_define(
                "ASTReflection"@,
                seq![
                    spec_seq(seq![spec_str_hidden("#"@), spec_id_opt("Misc.SingleID"@)]),
                ],
            ),
            spec_define("Num"@, seq![spec_seq(seq![spec_class("[0-9]"@, more_loop())])]),
            spec_define("ID"@, seq![spec_seq(seq![spec_id("Misc.ChainID"@)])]),
            spec_define(
                "EscSeq"@,
                seq![
                    spec_seq(
                        seq![
                            spec_str("\\"@),
                            spec_seq(
                                seq![
                                    spec_choice(
                                        seq![
                                            spec_seq(seq![spec_str("\\"@)]),
                                            spec_seq(seq![spec_str("0"@)]),
                                            spec_seq(seq![spec_str("\""@)]),
                                            spec_seq(seq![spec_str("n"@)]),
                                        ],
                                    ),
                                ],
                            ),
                        ],
                    ),
                ],
            ),
            spec_define(
                "Str"@,
                seq![
                    spec_seq(
                        seq![
                            spec_str_hidden("\""@),
                            spec_seq_loop_exp(
                                seq![
                                    spec_choice(
                                        seq![
                                            spec_seq(seq![spec_id("EscSeq"@)]),
                                            spec_seq(
                                                seq![
                                                    spec_group(
                                                        RuleGroupKind::Sequence,
                                                        seq![
                                                            spec_choice(
                                                                seq![
                                                                    spec_seq(
                                                                        seq![spec_str("\\"@)],
                                                                    ),
                                                                    spec_seq(
                                                                        seq![spec_str("\""@)],
                                                                    ),
                                                                ],
                                                            ),
                                                        ],
                                                        RuleElementLookaheadKind::Negative,
                                                        one_loop(),
                                                        ReflectView::Reflection(Seq::empty()),
                                                    ),
                                                    spec_wild(),
                                                ],
                                            ),
                                        ],
                                    ),
                                ],
                                more_loop(),
                            ),
                            spec_str_hidden("\""@),
                        ],
                    ),
                ],
            ),
            spec_define(
                "CharClass"@,
                seq![
                    spec_seq(
                        seq![
                            spec_str_hidden("["@),
                            spec_seq_loop_exp(
                                seq![
                                    spec_str_not("["@),
                                    spec_str_not("]"@),
                                    spec_id_not("Symbol.LineEnd"@),
                                    spec_seq_loop_exp(
                                        seq![
                                            spec_choice(
                                                seq![
                                                    spec_seq(seq![spec_str("\\["@)]),
                                                    spec_seq(seq![spec_str("\\]"@)]),
                                                    spec_seq(seq![spec_str("\\\\"@)]),
                                                    spec_seq(seq![spec_wild()]),
                                                ],
                                            ),
                                        ],
                                        one_loop(),
                                    ),
                                ],
                                more_loop(),
                            ),
                            spec_str_hidden("]"@),
                        ],
                    ),
                ],
            ),
            spec_define("Wildcard"@, seq![spec_seq(seq![spec_str_hidden("."@)])]),
        ],
    }
}

/// The whole bootstrap grammar, in full: its six blocks in order.
pub open spec fn bootstrap_map_view() -> crate::block::BlockMapView {
    crate::block::BlockMapView {
        file_alias: Seq::empty(),
        blocks: seq![
            main_block_view(),
            syntax_block_view(),
            symbol_block_view(),
            misc_block_view(),
            block_block_view(),
            rule_block_view(),
        ],
    }
}

/// The bootstrap grammar, block by block.
pub struct FCPEGBlock {}

impl FCPEGBlock {
    /// The root namespace: only the entry-point declaration pointing at
    /// the grammar-notation rule.
    pub fn get_main_block() -> (r: Block)
        ensures
            r@ == main_block_view(),
    {
        let start = start_cmd("", "Syntax", "FCPEG");
        proof {
            reveal_strlit("");
            assert(""@ =~= Seq::<char>::empty());
            assert(start@ =~~= main_block_view().cmds[0]);
        }
        let ghost c0 = start@;
        let cmds = vec![start];
        let ghost cv = cmds@;
        let b = Block::new("Main".to_owned(), cmds);
        proof {
            lemma_cmds_view(cv);
            assert(cmds_view(cv) =~= seq![c0]);
            assert(b@ =~= main_block_view());
        }
        b
    }

    /// The whole-file rule: leading space, the blocks, trailing space.
    pub fn get_syntax_block() -> (r: Block)
        ensures
            r@ == syntax_block_view(),
    {
        let fcpeg_rule = define_rule(
            "FCPEG",
            elems1(
                g_seq(
                    elems5(
                        e_id_hidden("Symbol.Space", lc_many()),
                        e_id_hidden("Symbol.LineEnd", lc_many()),
                        g_seq_loop(
                            elems1(
                                g_seq(
                                    elems2(
                                        e_id("Block.Block"),
                                        e_id_hidden("Symbol.LineEnd", lc_more()),
                                    ),
                                ),
                            ),
                            lc_many(),
                        ),
                        e_id_hidden("Symbol.LineEnd", lc_many()),
                        e_id_hidden("Symbol.Space", lc_many()),
                    ),
                ),
            ),
        );
        let use_block_cmd = use_block("Block");
        let use_symbol_cmd = use_block("Symbol");
        proof {
            reveal_strlit("");
            assert(""@ =~= Seq::<char>::empty());
            assert(use_block_cmd@ =~~= syntax_block_view().cmds[0]);
            assert(use_symbol_cmd@ =~~= syntax_block_view().cmds[1]);
            assert(fcpeg_rule@ =~~= syntax_block_view().cmds[2]);
        }
        let ghost c0 = use_block_cmd@;
        let ghost c1 = use_symbol_cmd@;
        let ghost c2 = fcpeg_rule@;
        let cmds = vec![use_block_cmd, use_symbol_cmd, fcpeg_rule];
        let ghost cv = cmds@;
        let b = Block::new("Syntax".to_owned(), cmds);
        proof {
            lemma_cmds_view(cv);
            assert(cmds_view(cv) =~= seq![c0, c1, c2]);
            assert(b@ =~= syntax_block_view());
        }
        b
    }

    /// Whitespace: one space, and line ends with surrounding spaces.
    pub fn get_symbol_block() -> (r: Block)
        ensures
            r@ == symbol_block_view(),
    {
        let space_rule = define_rule("Space", elems1(g_seq(elems1(e_str(" ")))));
        let line_end_rule = define_rule(
            "LineEnd",
            elems1(
                g_seq(
                    elems3(
                        e_id_loop("Space", lc_many()),
                        e_str("\n"),
                        e_id_loop("Space", lc_many()),
                    ),
                ),
            ),
        );
        proof {
            assert(space_rule@ =~~= symbol_block_view().cmds[0]);
            assert(line_end_rule@ =~~= symbol_block_view().cmds[1]);
        }
        let ghost c0 = space_rule@;
        let ghost c1 = line_end_rule@;
        let cmds = vec![space_rule, line_end_rule];
        let ghost cv = cmds@;
        let b = Block::new("Symbol".to_owned(), cmds);
        proof {
            lemma_cmds_view(cv);
            assert(cmds_view(cv) =~= seq![c0, c1]);
            assert(b@ =~= symbol_block_view());
        }
        b
    }

    /// Identifiers: a single identifier, and a dot-separated chain.
    pub fn get_misc_block() -> (r: Block)
        ensures
            r@ == misc_block_view(),
    {
        let single_id_rule = define_rule(
            "SingleID",
            elems1(
                g_seq(elems2(e_class("[a-zA-Z_]", lc_one()), e_class("[a-zA-Z0-9_]", lc_many()))),
            ),
        );
        let chain_id_rule = define_rule(
            "ChainID",
            elems1(
                g_seq(
                    elems2(
                        e_id("SingleID"),
                        g_seq_loop_exp(
                            elems1(g_seq(elems2(e_str_hidden("."), e_id("SingleID")))),
                            lc_many(),
                        ),
                    ),
                ),
            ),
        );
        proof {
            assert(single_id_rule@ =~~= misc_block_view().cmds[0]);
            assert(chain_id_rule@ =~~= misc_block_view().cmds[1]);
        }
        let ghost c0 = single_id_rule@;
        let ghost c1 = chain_id_rule@;
        let cmds = vec![single_id_rule, chain_id_rule];
        let ghost cv = cmds@;
        let b = Block::new("Misc".to_owned(), cmds);
        proof {
            lemma_cmds_view(cv);
            assert(cmds_view(cv) =~= seq![c0, c1]);
            assert(b@ =~= misc_block_view());
        }
        b
    }

    /// Blocks and their commands: block delimiters, comments, rule
    /// definitions, entry-point declarations and imports.
    pub fn get_block_block() -> (r: Block)
        ensures
            r@ == block_block_view(),
    {
        let block_rule = define_rule(
            "Block",
            elems1(
                g_seq(
                    elems10(
                        e_str_hidden("["),
                        e_id_hidden("Symbol.Space", lc_many()),
                        e_id("Misc.SingleID"),
                        e_id_hidden("Symbol.Space", lc_many()),
                        e_str_hidden("]"),
                        e_id_hidden("Symbol.Space", lc_many()),
                        e_str_hidden("{"),
                        e_id_hidden("Symbol.LineEnd", lc_more()),
                        g_seq_loop(
                            elems1(
                                g_seq(
                                    elems2(
                                        e_id("Cmd"),
                                        e_id_hidden("Symbol.LineEnd", lc_more()),
                                    ),
                                ),
                            ),
                            lc_many(),
                        ),
                        e_str_hidden("}"),
                    ),
                ),
            ),
        );
        let cmd_rule = define_rule(
            "Cmd",
            elems1(
                g_seq(
                    elems1(
                        g_choice(
                            elems4(
                                g_seq(elems1(e_id("Comment"))),
                                g_seq(elems1(e_id("DefineCmd"))),
                                g_seq(elems1(e_id("StartCmd"))),
                                g_seq(elems1(e_id("UseCmd"))),
                            ),
                        ),
                    ),
                ),
            ),
        );
        let comment_rule = define_rule(
            "Comment",
            elems1(
                g_seq(
                    elems3(
                        e_str_hidden("%"),
                        g_seq_loop(
                            elems1(
                                g_seq(
                                    elems3(
                                        e_str_not(","),
                                        e_id_not("Symbol.LineEnd"),
                                        e_wild(),
                                    ),
                                ),
                            ),
                            lc_many(),
                        ),
                        e_str_hidden(","),
                    ),
                ),
            ),
        );
        let define_cmd_rule = define_rule(
            "DefineCmd",
            elems1(
                g_seq(
                    elems7(
                        e_id("Misc.SingleID"),
                        e_id_hidden("Symbol.Space", lc_many()),
                        e_str_hidden("<-"),
                        e_id_hidden("Symbol.Space", lc_many()),
                        e_id("Rule.PureChoice"),
                        e_id_hidden("Symbol.Space", lc_many()),
                        e_str_hidden(","),
                    ),
                ),
            ),
        );
        let start_cmd_rule = define_rule(
            "StartCmd",
            elems1(
                g_seq(
                    elems7(
                        e_str_hidden("+"),
                        e_id_hidden("Symbol.Space", lc_many()),
                        e_str_hidden("start"),
                        e_id_hidden("Symbol.Space", lc_more()),
                        e_id("Misc.ChainID"),
                        e_id_hidden("Symbol.Space", lc_many()),
                        e_str_hidden(","),
                    ),
                ),
            ),
        );
        let use_cmd_rule = define_rule(
            "UseCmd",
            elems1(
                g_seq(
                    elems8(
                        e_str_hidden("+"),
                        e_id_hidden("Symbol.Space", lc_many()),
                        e_str_hidden("use"),
                        e_id_hidden("Symbol.Space", lc_more()),
                        e_id("Misc.ChainID"),
                        e_id_opt("UseCmdBlockAlias"),
                        e_id_hidden("Symbol.Space", lc_many()),
                        e_str_hidden(","),
                    ),
                ),
            ),
        );
        let use_cmd_block_alias_rule = define_rule(
            "UseCmdBlockAlias",
            elems1(
                g_seq(
                    elems4(
                        e_id_hidden("Symbol.Space", lc_more()),
                        e_str_hidden("as"),
                        e_id_hidden("Symbol.Space", lc_more()),
                        e_id("Misc.SingleID"),
                    ),
                ),
            ),
        );
        let use_misc_cmd = use_block("Misc");
        let use_rule_cmd = use_block("Rule");
        let use_symbol_cmd = use_block("Symbol");
        proof {
            reveal_strlit("");
            assert(""@ =~= Seq::<char>::empty());
            assert(use_misc_cmd@ =~~= block_block_view().cmds[0]);
            assert(use_rule_cmd@ =~~= block_block_view().cmds[1]);
            assert(use_symbol_cmd@ =~~= block_block_view().cmds[2]);
            assert(block_rule@ =~~= block_block_view().cmds[3]);
            assert(cmd_rule@ =~~= block_block_view().cmds[4]);
            assert(comment_rule@ =~~= block_block_view().cmds[5]);
            assert(define_cmd_rule@ =~~= block_block_view().cmds[6]);
            assert(start_cmd_rule@ =~~= block_block_view().cmds[7]);
            assert(use_cmd_rule@ =~~= block_block_view().cmds[8]);
            assert(use_cmd_block_alias_rule@ =~~= block_block_view().cmds[9]);
        }
        let ghost c0 = use_misc_cmd@;
        let ghost c1 = use_rule_cmd@;
        let ghost c2 = use_symbol_cmd@;
        let ghost c3 = block_rule@;
        let ghost c4 = cmd_rule@;
        let ghost c5 = comment_rule@;
        let ghost c6 = define_cmd_rule@;
        let ghost c7 = start_cmd_rule@;
        let ghost c8 = use_cmd_rule@;
        let ghost c9 = use_cmd_block_alias_rule@;
        let cmds = vec![
            use_misc_cmd,
            use_rule_cmd,
            use_symbol_cmd,
            block_rule,
            cmd_rule,
            comment_rule,
            define_cmd_rule,
            start_cmd_rule,
            use_cmd_rule,
            use_cmd_block_alias_rule,
        ];
        let ghost cv = cmds@;
        let b = Block::new("Block".to_owned(), cmds);
        proof {
            lemma_cmds_view(cv);
            assert(cmds_view(cv) =~= seq![c0, c1, c2, c3, c4, c5, c6, c7, c8, c9]);
            assert(b@ =~= block_block_view());
        }
        b
    }


    /// Rule expressions: alternation, sequences, quantifiers,
    /// lookahead, reflection markers, identifiers, literals, character
    /// classes and wildcards.
    #[verifier::rlimit(60)]
    pub fn get_rule_block() -> (r: Block)
        ensures
            r@ == rule_block_view(),
    {
        let pure_choice_rule = define_rule(
            "PureChoice",
            elems1(
                g_seq(
                    elems2(
                        e_id("Seq"),
                        g_seq_loop_exp(
                            elems4(
                                e_id_hidden("Symbol.Space", lc_one()),
                                e_str(":"),
                                e_id_hidden("Symbol.Space", lc_one()),
                                e_id("Seq"),
                            ),
                            lc_many(),
                        ),
                    ),
                ),
            ),
        );
        let choice_rule = define_rule(
            "Choice",
            elems1(
                g_seq(elems3(e_str_hidden("("), e_id("PureChoice"), e_str_hidden(")"))),
            ),
        );
        let seq_rule = define_rule(
            "Seq",
            elems1(
                g_seq(
                    elems2(
                        e_id("SeqElem"),
                        g_seq_loop_exp(
                            elems1(
                                g_seq(
                                    elems1(
                                        g_seq(
                                            elems2(
                                                e_id_hidden("Symbol.Space", lc_more()),
                                                e_id("SeqElem"),
                                            ),
                                        ),
                                    ),
                                ),
                            ),
                            lc_many(),
                        ),
                    ),
                ),
            ),
        );
        let seq_elem_rule = define_rule(
            "SeqElem",
            elems1(
                g_seq(
                    elems5(
                        e_id_opt("Lookahead"),
                        g_seq_loop_exp(
                            elems1(
                                g_choice(
                                    elems2(
                                        g_seq(elems1(e_id("Choice"))),
                                        g_seq(elems1(e_id("Expr"))),
                                    ),
                                ),
                            ),
                            lc_one(),
                        ),
                        e_id_opt("Loop"),
                        e_id_opt("RandomOrder"),
                        e_id_opt("ASTReflection"),
                    ),
                ),
            ),
        );
        let expr_rule = define_rule(
            "Expr",
            elems1(
                g_seq(
                    elems1(
                        g_choice(
                            elems4(
                                g_seq(elems1(e_id("ID"))),
                                g_seq(elems1(e_id("Str"))),
                                g_seq(elems1(e_id("CharClass"))),
                                g_seq(elems1(e_id("Wildcard"))),
                            ),
                        ),
                    ),
                ),
            ),
        );
        let lookahead_rule = define_rule(
            "Lookahead",
            elems1(
                g_seq(
                    elems1(
                        g_choice(
                            elems2(g_seq(elems1(e_str("!"))), g_seq(elems1(e_str("&")))),
                        ),
                    ),
                ),
            ),
        );
        let loop_rule = define_rule(
            "Loop",
            elems1(
                g_seq(
                    elems1(
                        g_choice(
                            elems4(
                                g_seq(elems1(e_str("?"))),
                                g_seq(elems1(e_str("*"))),
                                g_seq(elems1(e_str("+"))),
                                g_seq(elems1(e_id("LoopRange"))),
                            ),
                        ),
                    ),
                ),
            ),
        );
        let loop_range_rule = define_rule(
            "LoopRange",
            elems1(
                g_seq(
                    elems5(
                        e_str_hidden("{"),
                        e_id_opt("Num"),
                        e_str_hidden(","),
                        e_id_opt("Num"),
                        e_str_hidden("}"),
                    ),
                ),
            ),
        );
        let random_order_rule = define_rule(
            "RandomOrder",
            elems1(
                g_seq(elems2(e_str_hidden("^"), e_id_opt("RandomOrderRange"))),
            ),
        );
        let random_order_range_rule = define_rule(
            "RandomOrderRange",
            elems1(
                g_seq(
                    elems5(
                        e_str_hidden("["),
                        e_id_opt("Num"),
                        e_str_hidden(","),
                        e_id_opt("Num"),
                        e_str_hidden("]"),
                    ),
                ),
            ),
        );
        let ast_reflection_rule = define_rule(
            "ASTReflection",
            elems1(
                g_seq(elems2(e_str_hidden("#"), e_id_opt("Misc.SingleID"))),
            ),
        );
        let num_rule = define_rule("Num", elems1(g_seq(elems1(e_class("[0-9]", lc_more())))));
        let id_rule = define_rule("ID", elems1(g_seq(elems1(e_id("Misc.ChainID")))));
        let esc_seq_rule = define_rule(
            "EscSeq",
            elems1(
                g_seq(
                    elems2(
                        e_str("\\"),
                        g_seq(
                            elems1(
                                g_choice(
                                    elems4(
                                        g_seq(elems1(e_str("\\"))),
                                        g_seq(elems1(e_str("0"))),
                                        g_seq(elems1(e_str("\""))),
                                        g_seq(elems1(e_str("n"))),
                                    ),
                                ),
                            ),
                        ),
                    ),
                ),
            ),
        );
        let not_quote_or_backslash = elem_group(
            RuleGroupKind::Sequence,
            elems1(
                g_choice(elems2(g_seq(elems1(e_str("\\"))), g_seq(elems1(e_str("\""))))),
            ),
            RuleElementLookaheadKind::Negative,
            lc_one(),
            ASTReflectionStyle::Reflection(String::new()),
        );
        let str_rule = define_rule(
            "Str",
            elems1(
                g_seq(
                    elems3(
                        e_str_hidden("\""),
                        g_seq_loop_exp(
                            elems1(
                                g_choice(
                                    elems2(
                                        g_seq(elems1(e_id("EscSeq"))),
                                        g_seq(elems2(not_quote_or_backslash, e_wild())),
                                    ),
                                ),
                            ),
                            lc_more(),
                        ),
                        e_str_hidden("\""),
                    ),
                ),
            ),
        );
        let char_class_rule = define_rule(
            "CharClass",
            elems1(
                g_seq(
                    elems3(
                        e_str_hidden("["),
                        g_seq_loop_exp(
                            elems4(
                                e_str_not("["),
                                e_str_not("]"),
                                e_id_not("Symbol.LineEnd"),
                                g_seq_loop_exp(
                                    elems1(
                                        g_choice(
                                            elems4(
                                                g_seq(elems1(e_str("\\["))),
                                                g_seq(elems1(e_str("\\]"))),
                                                g_seq(elems1(e_str("\\\\"))),
                                                g_seq(elems1(e_wild())),
                                            ),
                                        ),
                                    ),
                                    lc_one(),
                                ),
                            ),
                            lc_more(),
                        ),
                        e_str_hidden("]"),
                    ),
                ),
            ),
        );
        let wildcard_rule = define_rule("Wildcard", elems1(g_seq(elems1(e_str_hidden(".")))));
        let use_misc_cmd = use_block("Misc");
        let use_symbol_cmd = use_block("Symbol");
        proof {
            reveal_strlit("");
            assert(""@ =~= Seq::<char>::empty());
            assert(use_misc_cmd@ =~~= rule_block_view().cmds[0]);
            assert(use_symbol_cmd@ =~~= rule_block_view().cmds[1]);
            assert(pure_choice_rule@ =~~= rule_block_view().cmds[2]);
            assert(choice_rule@ =~~= rule_block_view().cmds[3]);
            assert(seq_rule@ =~~= rule_block_view().cmds[4]);
            assert(seq_elem_rule@ =~~= rule_block_view().cmds[5]);
            assert(expr_rule@ =~~= rule_block_view().cmds[6]);
            assert(lookahead_rule@ =~~= rule_block_view().cmds[7]);
            assert(loop_rule@ =~~= rule_block_view().cmds[8]);
            assert(loop_range_rule@ =~~= rule_block_view().cmds[9]);
            assert(random_order_rule@ =~~= rule_block_view().cmds[10]);
            assert(random_order_range_rule@ =~~= rule_block_view().cmds[11]);
            assert(ast_reflection_rule@ =~~= rule_block_view().cmds[12]);
            assert(num_rule@ =~~= rule_block_view().cmds[13]);
            assert(id_rule@ =~~= rule_block_view().cmds[14]);
            assert(esc_seq_rule@ =~~= rule_block_view().cmds[15]);
            assert(str_rule@ =~~= rule_block_view().cmds[16]);
            assert(char_class_rule@ =~~= rule_block_view().cmds[17]);
            assert(wildcard_rule@ =~~= rule_block_view().cmds[18]);
        }
        let ghost c0 = use_misc_cmd@;
        let ghost c1 = use_symbol_cmd@;
        let ghost c2 = pure_choice_rule@;
        let ghost c3 = choice_rule@;
        let ghost c4 = seq_rule@;
        let ghost c5 = seq_elem_rule@;
        let ghost c6 = expr_rule@;
        let ghost c7 = lookahead_rule@;
        let ghost c8 = loop_rule@;
        let ghost c9 = loop_range_rule@;
        let ghost c10 = random_order_rule@;
        let ghost c11 = random_order_range_rule@;
        let ghost c12 = ast_reflection_rule@;
        let ghost c13 = num_rule@;
        let ghost c14 = id_rule@;
        let ghost c15 = esc_seq_rule@;
        let ghost c16 = str_rule@;
        let ghost c17 = char_class_rule@;
        let ghost c18 = wildcard_rule@;
        let cmds = vec![
            use_misc_cmd,
            use_symbol_cmd,
            pure_choice_rule,
            choice_rule,
            seq_rule,
            seq_elem_rule,
            expr_rule,
            lookahead_rule,
            loop_rule,
            loop_range_rule,
            random_order_rule,
            random_order_range_rule,
            ast_reflection_rule,
            num_rule,
            id_rule,
            esc_seq_rule,
            str_rule,
            char_class_rule,
            wildcard_rule,
        ];
        let ghost cv = cmds@;
        let b = Block::new("Rule".to_owned(), cmds);
        proof {
            lemma_cmds_view(cv);
            assert(cmds_view(cv) =~= seq![
                c0, c1, c2, c3, c4, c5, c6, c7, c8, c9, c10, c11, c12, c13, c14, c15, c16, c17,
                c18,
            ]);
            assert(b@ =~= rule_block_view());
        }
        b
    }


    /// The whole bootstrap grammar as one block map, ready for
    /// [`crate::rule::RuleMap::new`].
    pub fn get_block_map() -> (r: BlockMap)
        ensures
            r@ == bootstrap_map_view(),
            r@.wf(),
    {
        let main_b = FCPEGBlock::get_main_block();
        let syntax_b = FCPEGBlock::get_syntax_block();
        let symbol_b = FCPEGBlock::get_symbol_block();
        let misc_b = FCPEGBlock::get_misc_block();
        let block_b = FCPEGBlock::get_block_block();
        let rule_b = FCPEGBlock::get_rule_block();
        let blocks = vec![main_b, syntax_b, symbol_b, misc_b, block_b, rule_b];
        let ghost bv = blocks@;
        let m = BlockMap { file_alias: String::new(), blocks };
        proof {
            lemma_blocks_view(bv);
            assert(crate::block::blocks_view(bv) =~= seq![
                main_block_view(),
                syntax_block_view(),
                symbol_block_view(),
                misc_block_view(),
                block_block_view(),
                rule_block_view(),
            ]);
            assert(m@ =~= bootstrap_map_view());
            reveal_strlit("Main");
            reveal_strlit("Syntax");
            reveal_strlit("Symbol");
            reveal_strlit("Misc");
            reveal_strlit("Block");
            reveal_strlit("Rule");
            assert("Main"@.len() == 4);
            assert("Syntax"@.len() == 6);
            assert("Symbol"@.len() == 6);
            assert("Misc"@.len() == 4);
            assert("Block"@.len() == 5);
            assert("Rule"@.len() == 4);
            assert("Main"@[0] == 'M');
            assert("Rule"@[0] == 'R');
            assert("Misc"@[0] == 'M');
            assert("Main"@[1] == 'a');
            assert("Misc"@[1] == 'i');
            assert("Syntax"@[2] == 'n');
            assert("Symbol"@[2] == 'm');
            assert(m@.wf());
        }
        m
    }
}

} // verus!
