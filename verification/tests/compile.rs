//! Tests of the block compiler: scenario lowerings, the quantifier
//! range forms, escape resolution, dotted identifiers, and the errors
//! a malformed tree produces.

use fcpeg::block::BlockCommand;
use fcpeg::block::BlockParseError;
use fcpeg::compiler::BlockParser;
use fcpeg::cst::CstChild;
use fcpeg::cst::CstLeaf;
use fcpeg::cst::CstNode;
use fcpeg::cst::CstNodeTag;
use fcpeg::rule::CharacterPosition;
use fcpeg::rule::Infinitable;
use fcpeg::rule::RuleElement;
use fcpeg::rule::RuleElementLoopCount;
use fcpeg::rule::ASTReflectionStyle;
use fcpeg::rule::RuleElementLookaheadKind;
use fcpeg::rule::RuleExpressionKind;
use fcpeg::rule::RuleGroupKind;

fn node(tag: CstNodeTag, children: Vec<CstChild>) -> CstNode {
    CstNode { tag, pos: CharacterPosition { line: 1, column: 1 }, visible: true, children }
}

fn node_at(tag: CstNodeTag, line: usize, children: Vec<CstChild>) -> CstNode {
    CstNode { tag, pos: CharacterPosition { line, column: 1 }, visible: true, children }
}

fn nch(n: CstNode) -> CstChild {
    CstChild::Node(n)
}

fn leaf(value: &str) -> CstChild {
    CstChild::Leaf(CstLeaf { value: value.to_string(), visible: true })
}

fn hidden_leaf(value: &str) -> CstChild {
    CstChild::Leaf(CstLeaf { value: value.to_string(), visible: false })
}

fn single_id(name: &str) -> CstNode {
    node(CstNodeTag::SingleId, vec![leaf(name)])
}

fn chain_id(segments: &[&str]) -> CstNode {
    let mut children = Vec::new();
    for s in segments {
        children.push(nch(single_id(s)));
    }
    node(CstNodeTag::ChainId, children)
}

fn expr_node(child: CstNode) -> CstNode {
    node(CstNodeTag::Expr, vec![nch(child)])
}

fn seq_elem(children: Vec<CstChild>) -> CstNode {
    node(CstNodeTag::SeqElem, children)
}

fn sequence(elems: Vec<CstNode>) -> CstNode {
    let mut children = Vec::new();
    for e in elems {
        children.push(nch(e));
    }
    node(CstNodeTag::Sequence, children)
}

fn define_cmd(name: &str, pure_choice: CstNode) -> CstNode {
    node(CstNodeTag::DefineCmd, vec![nch(single_id(name)), nch(pure_choice)])
}

fn cmd(inner: CstNode) -> CstNode {
    node(CstNodeTag::Cmd, vec![nch(inner)])
}

fn block(name: &str, cmds: Vec<CstNode>) -> CstNode {
    let mut list = Vec::new();
    for c in cmds {
        list.push(nch(cmd(c)));
    }
    node(CstNodeTag::Block, vec![nch(single_id(name)), nch(node(CstNodeTag::CmdList, list))])
}

fn root(blocks: Vec<CstNode>) -> CstNode {
    let mut children = Vec::new();
    for b in blocks {
        children.push(nch(b));
    }
    node(CstNodeTag::Root, children)
}

fn digit_tree() -> CstNode {
    // Digit <- [0-9]+,
    let elem = seq_elem(vec![
        nch(node(CstNodeTag::Loop, vec![leaf("+")])),
        nch(expr_node(node(CstNodeTag::CharClass, vec![leaf("0-9")]))),
    ]);
    root(vec![block(
        "B",
        vec![define_cmd("Digit", node(CstNodeTag::PureChoice, vec![nch(sequence(vec![elem]))]))],
    )])
}

fn find_rule<'a>(map: &'a fcpeg::block::BlockMap, block_name: &str, rule_name: &str) -> &'a fcpeg::rule::Rule {
    for b in &map.blocks {
        if b.name == block_name {
            for c in &b.cmds {
                if let BlockCommand::Define { rule, .. } = c {
                    if rule.name == rule_name {
                        return rule;
                    }
                }
            }
        }
    }
    panic!("rule not found");
}

#[test]
fn digit_rule_lowers_to_char_class() {
    let tree = digit_tree();
    let map = BlockParser::to_block_map(&tree).expect("compilation should succeed");
    let rule = find_rule(&map, "B", "Digit");
    let extracted = rule.group.extract();
    assert_eq!(extracted.sub_elems.len(), 1);
    match &extracted.sub_elems[0] {
        RuleElement::Expression(x) => {
            assert!(matches!(x.kind, RuleExpressionKind::CharClass));
            assert_eq!(x.value, "[0-9]");
            assert_eq!(
                x.loop_count,
                RuleElementLoopCount { min: 1, max: Infinitable::Infinite }
            );
        }
        RuleElement::Group(_) => panic!("expected a leaf expression"),
    }
}

#[test]
fn two_alternatives_lower_to_choice_of_two_sequences() {
    // A <- "x" : "y",
    let alt = |s: &str| {
        sequence(vec![seq_elem(vec![nch(expr_node(node(
            CstNodeTag::Str,
            vec![leaf(s)],
        )))])])
    };
    let pure = node(CstNodeTag::PureChoice, vec![nch(alt("x")), leaf(":"), nch(alt("y"))]);
    let tree = root(vec![block("B", vec![define_cmd("A", pure)])]);
    let map = BlockParser::to_block_map(&tree).expect("compilation should succeed");
    let rule = find_rule(&map, "B", "A");
    assert_eq!(rule.group.kind, RuleGroupKind::Choice);
    assert_eq!(rule.group.sub_elems.len(), 2);
    let values: Vec<String> = rule
        .group
        .sub_elems
        .iter()
        .map(|e| match e {
            RuleElement::Group(g) => {
                assert_eq!(g.kind, RuleGroupKind::Sequence);
                assert_eq!(g.sub_elems.len(), 1);
                match &g.sub_elems[0] {
                    RuleElement::Expression(x) => {
                        assert!(matches!(x.kind, RuleExpressionKind::Str));
                        x.value.clone()
                    }
                    RuleElement::Group(_) => panic!("expected a leaf expression"),
                }
            }
            RuleElement::Expression(_) => panic!("expected a sequence group"),
        })
        .collect();
    assert_eq!(values, vec!["x".to_string(), "y".to_string()]);
}

#[test]
fn compiling_twice_gives_identical_results() {
    let tree = digit_tree();
    let map1 = BlockParser::to_block_map(&tree).expect("compilation should succeed");
    let map2 = BlockParser::to_block_map(&tree).expect("compilation should succeed");
    assert_eq!(map1.blocks.len(), map2.blocks.len());
    for (b1, b2) in map1.blocks.iter().zip(map2.blocks.iter()) {
        assert_eq!(b1.name, b2.name);
        assert_eq!(b1.cmds.len(), b2.cmds.len());
        for (c1, c2) in b1.cmds.iter().zip(b2.cmds.iter()) {
            match (c1, c2) {
                (BlockCommand::Define { rule: r1, .. }, BlockCommand::Define { rule: r2, .. }) => {
                    assert_eq!(r1.to_text(), r2.to_text());
                    assert_eq!(r1.id, r2.id);
                }
                _ => panic!("expected rule definitions"),
            }
        }
    }
}

#[test]
fn dotted_identifier_joins_segments() {
    let chain = chain_id(&["Block", "Sub", "Rule"]);
    assert_eq!(BlockParser::to_chain_id(&chain), "Block.Sub.Rule");
}

#[test]
fn explicit_ranges_lower_to_bounds() {
    let range = |min: &str, max: &str| {
        node(
            CstNodeTag::LoopRange,
            vec![
                nch(node(CstNodeTag::Num, vec![leaf(min)])),
                nch(node(CstNodeTag::Num, vec![leaf(max)])),
            ],
        )
    };
    let seq_of = |r: CstNode| {
        sequence(vec![seq_elem(vec![
            nch(node(CstNodeTag::Loop, vec![nch(r)])),
            nch(expr_node(node(CstNodeTag::Wildcard, vec![]))),
        ])])
    };
    let lowered = |min: &str, max: &str| {
        let g = BlockParser::to_seq_elem(&seq_of(range(min, max))).expect("lowering should succeed");
        match &g.sub_elems[0] {
            RuleElement::Expression(x) => x.loop_count,
            RuleElement::Group(_) => panic!("expected a leaf expression"),
        }
    };
    assert_eq!(lowered("2", "5"), RuleElementLoopCount { min: 2, max: Infinitable::Normal(5) });
    assert_eq!(lowered("", "5"), RuleElementLoopCount { min: 0, max: Infinitable::Normal(5) });
    assert_eq!(lowered("2", ""), RuleElementLoopCount { min: 2, max: Infinitable::Infinite });
    assert_eq!(lowered("", ""), RuleElementLoopCount { min: 0, max: Infinitable::Infinite });
}

#[test]
fn oversized_bound_is_refused() {
    let big = "99999999999999999999999999";
    let range = node(
        CstNodeTag::LoopRange,
        vec![
            nch(node(CstNodeTag::Num, vec![leaf(big)])),
            nch(node(CstNodeTag::Num, vec![])),
        ],
    );
    let seq = sequence(vec![seq_elem(vec![
        nch(node(CstNodeTag::Loop, vec![nch(range)])),
        nch(expr_node(node(CstNodeTag::Wildcard, vec![]))),
    ])]);
    match BlockParser::to_seq_elem(&seq) {
        Err(BlockParseError::TooBigNumber(_, t)) => assert_eq!(t, big),
        other => panic!("expected an oversized-number error, got {:?}", other),
    }
}

#[test]
fn non_numeric_bound_is_refused() {
    let range = node(
        CstNodeTag::LoopRange,
        vec![
            nch(node(CstNodeTag::Num, vec![leaf("1x")])),
            nch(node(CstNodeTag::Num, vec![])),
        ],
    );
    let seq = sequence(vec![seq_elem(vec![
        nch(node(CstNodeTag::Loop, vec![nch(range)])),
        nch(expr_node(node(CstNodeTag::Wildcard, vec![]))),
    ])]);
    assert!(matches!(
        BlockParser::to_seq_elem(&seq),
        Err(BlockParseError::UnknownSyntax(1, _))
    ));
}

#[test]
fn inverted_range_is_refused() {
    let range = node(
        CstNodeTag::LoopRange,
        vec![
            nch(node(CstNodeTag::Num, vec![leaf("5")])),
            nch(node(CstNodeTag::Num, vec![leaf("2")])),
        ],
    );
    let seq = sequence(vec![seq_elem(vec![
        nch(node(CstNodeTag::Loop, vec![nch(range)])),
        nch(expr_node(node(CstNodeTag::Wildcard, vec![]))),
    ])]);
    assert!(matches!(BlockParser::to_seq_elem(&seq), Err(BlockParseError::UnknownSyntax(1, _))));
}

#[test]
fn string_escapes_are_resolved() {
    let str_node = node(
        CstNodeTag::Str,
        vec![
            leaf("a"),
            nch(node(CstNodeTag::EscSeq, vec![leaf("\\"), leaf("n")])),
            leaf("b"),
            nch(node(CstNodeTag::EscSeq, vec![leaf("\\"), leaf("\\")])),
            nch(node(CstNodeTag::EscSeq, vec![leaf("\\"), leaf("\"")])),
            nch(node(CstNodeTag::EscSeq, vec![leaf("\\"), leaf("0")])),
        ],
    );
    let x = BlockParser::to_rule_expr_elem(&expr_node(str_node)).expect("lowering should succeed");
    assert_eq!(x.value, "a\nb\\\"\0");
}

#[test]
fn empty_char_class_is_refused() {
    let cc = node_at(CstNodeTag::CharClass, 7, vec![]);
    match BlockParser::to_rule_expr_elem(&expr_node(cc)) {
        Err(BlockParseError::InvalidCharClassFormat(line, _)) => assert_eq!(line, 7),
        other => panic!("expected a character-class error, got {:?}", other),
    }
}

#[test]
fn char_class_with_line_end_is_refused() {
    let cc = node(CstNodeTag::CharClass, vec![leaf("a\nb")]);
    assert!(matches!(
        BlockParser::to_rule_expr_elem(&expr_node(cc)),
        Err(BlockParseError::InvalidCharClassFormat(_, _))
    ));
}

#[test]
fn element_without_content_is_refused() {
    let seq = sequence(vec![seq_elem(vec![nch(node(CstNodeTag::Loop, vec![leaf("?")]))])]);
    assert!(matches!(
        BlockParser::to_seq_elem(&seq),
        Err(BlockParseError::NoChoiceOrExpressionContent(1))
    ));
}

#[test]
fn unknown_command_node_is_an_internal_error() {
    let bad = node(CstNodeTag::Num, vec![leaf("3")]);
    let tree = root(vec![block("B", vec![bad])]);
    assert!(matches!(
        BlockParser::to_block_map(&tree),
        Err(BlockParseError::InternalErr(_))
    ));
}

#[test]
fn comments_lower_to_nothing() {
    let comment = node(CstNodeTag::Comment, vec![leaf("note")]);
    let tree = root(vec![block("B", vec![comment])]);
    let map = BlockParser::to_block_map(&tree).expect("compilation should succeed");
    for b in &map.blocks {
        if b.name == "B" {
            assert_eq!(b.cmds.len(), 0);
            return;
        }
    }
    panic!("block not found");
}

#[test]
fn duplicate_block_name_is_refused() {
    let pure = node(CstNodeTag::PureChoice, vec![]);
    let tree = root(vec![block("B", vec![define_cmd("R", pure)]), block("B", vec![])]);
    match BlockParser::to_block_map(&tree) {
        Err(BlockParseError::DuplicatedBlockName(_, name)) => assert_eq!(name, "B"),
        other => panic!("expected a duplicated-block error, got {:?}", other),
    }
}

#[test]
fn implicit_main_block_is_added() {
    let tree = root(vec![block("B", vec![])]);
    let map = BlockParser::to_block_map(&tree).expect("compilation should succeed");
    assert_eq!(map.blocks.len(), 2);
    assert_eq!(map.blocks[1].name, "Main");
    assert_eq!(map.blocks[1].cmds.len(), 0);
}

#[test]
fn invisible_children_are_skipped() {
    let str_node = node(CstNodeTag::Str, vec![hidden_leaf("\""), leaf("x"), hidden_leaf("\"")]);
    let x = BlockParser::to_rule_expr_elem(&expr_node(str_node)).expect("lowering should succeed");
    assert_eq!(x.value, "x");
}

#[test]
fn lookahead_markers_lower_to_kinds() {
    let with_marker = |m: &str| {
        let seq = sequence(vec![seq_elem(vec![
            nch(node(CstNodeTag::Lookahead, vec![leaf(m)])),
            nch(expr_node(node(CstNodeTag::Wildcard, vec![]))),
        ])]);
        let g = BlockParser::to_seq_elem(&seq).expect("lowering should succeed");
        match &g.sub_elems[0] {
            RuleElement::Expression(x) => x.lookahead_kind,
            RuleElement::Group(_) => panic!("expected a leaf expression"),
        }
    };
    assert_eq!(with_marker("&"), RuleElementLookaheadKind::Positive);
    assert_eq!(with_marker("!"), RuleElementLookaheadKind::Negative);
}

#[test]
fn reflection_markers_lower_to_styles() {
    let id_expr = || expr_node(node(CstNodeTag::Id, vec![nch(chain_id(&["Token"]))]));
    // #name keeps the node under that name.
    let named = sequence(vec![seq_elem(vec![
        nch(node(CstNodeTag::AstReflection, vec![nch(single_id("tok"))])),
        nch(id_expr()),
    ])]);
    // a bare # drops the node.
    let dropped = sequence(vec![seq_elem(vec![
        nch(node(CstNodeTag::AstReflection, vec![])),
        nch(id_expr()),
    ])]);
    // no marker: a rule reference reflects under the referenced name.
    let absent = sequence(vec![seq_elem(vec![nch(id_expr())])]);
    let style_of = |seq: &CstNode| {
        let g = BlockParser::to_seq_elem(seq).expect("lowering should succeed");
        match &g.sub_elems[0] {
            RuleElement::Expression(x) => x.ast_reflection_style.clone(),
            RuleElement::Group(_) => panic!("expected a leaf expression"),
        }
    };
    assert_eq!(style_of(&named), ASTReflectionStyle::Reflection("tok".to_string()));
    assert_eq!(style_of(&dropped), ASTReflectionStyle::NoReflection);
    assert_eq!(style_of(&absent), ASTReflectionStyle::Reflection("Token".to_string()));
}

#[test]
fn use_command_lowers_with_and_without_alias() {
    let with_alias = node(
        CstNodeTag::UseCmd,
        vec![
            nch(chain_id(&["Sub", "Helpers"])),
            nch(node(CstNodeTag::UseCmdBlockAlias, vec![nch(single_id("H"))])),
        ],
    );
    match BlockParser::to_use_cmd(&with_alias).expect("lowering should succeed") {
        BlockCommand::Use { file_alias, block_id, local_alias, .. } => {
            assert_eq!(file_alias, "Sub");
            assert_eq!(block_id, "Helpers");
            assert_eq!(local_alias, "H");
        }
        _ => panic!("expected an import command"),
    }
    let without_alias = node(CstNodeTag::UseCmd, vec![nch(chain_id(&["Helpers"]))]);
    match BlockParser::to_use_cmd(&without_alias).expect("lowering should succeed") {
        BlockCommand::Use { file_alias, block_id, local_alias, .. } => {
            assert_eq!(file_alias, "");
            assert_eq!(block_id, "Helpers");
            assert_eq!(local_alias, "Helpers");
        }
        _ => panic!("expected an import command"),
    }
}

#[test]
fn start_command_lowers_by_segment_count() {
    let two = node(CstNodeTag::StartCmd, vec![nch(chain_id(&["Syntax", "FCPEG"]))]);
    match BlockParser::to_start_cmd(&two).expect("lowering should succeed") {
        BlockCommand::Start { file_alias, block_id, rule_id, .. } => {
            assert_eq!(file_alias, "");
            assert_eq!(block_id, "Syntax");
            assert_eq!(rule_id, "FCPEG");
        }
        _ => panic!("expected a start command"),
    }
    let three = node(CstNodeTag::StartCmd, vec![nch(chain_id(&["f", "B", "R"]))]);
    match BlockParser::to_start_cmd(&three).expect("lowering should succeed") {
        BlockCommand::Start { file_alias, block_id, rule_id, .. } => {
            assert_eq!(file_alias, "f");
            assert_eq!(block_id, "B");
            assert_eq!(rule_id, "R");
        }
        _ => panic!("expected a start command"),
    }
    let one = node(CstNodeTag::StartCmd, vec![nch(chain_id(&["R"]))]);
    match BlockParser::to_start_cmd(&one) {
        Err(BlockParseError::UnknownSyntax(_, t)) => assert_eq!(t, "R"),
        other => panic!("expected an unknown-syntax error, got {:?}", other),
    }
}

#[test]
fn wildcard_lowers_to_a_dot() {
    let x = BlockParser::to_rule_expr_elem(&expr_node(node(CstNodeTag::Wildcard, vec![])))
        .expect("lowering should succeed");
    assert!(matches!(x.kind, RuleExpressionKind::Wildcard));
    assert_eq!(x.value, ".");
}

#[test]
fn error_rendering_and_lines() {
    let e = BlockParseError::TooBigNumber(4, "999".to_string());
    assert_eq!(e.message(), "too big number 999");
    assert_eq!(e.line(), Some(4));
    let e = BlockParseError::BlockAliasNotFound(2, "H".to_string());
    assert_eq!(e.message(), "block alias 'H' not found");
    assert_eq!(e.line(), Some(2));
    let e = BlockParseError::NoStartCmdInMainBlock;
    assert_eq!(e.message(), "no start command in main block");
    assert_eq!(e.line(), None);
    let e = BlockParseError::UnexpectedToken(9, ",".to_string(), "an identifier".to_string());
    assert_eq!(e.message(), "unexpected token ',', expected an identifier");
    assert_eq!(e.line(), Some(9));
}

#[test]
fn largest_bound_fits_and_one_more_does_not() {
    let max_text = usize::MAX.to_string();
    let range_with = |max: &str| {
        node(
            CstNodeTag::LoopRange,
            vec![
                nch(node(CstNodeTag::Num, vec![leaf("")])),
                nch(node(CstNodeTag::Num, vec![leaf(max)])),
            ],
        )
    };
    let seq_with = |r: CstNode| {
        sequence(vec![seq_elem(vec![
            nch(node(CstNodeTag::Loop, vec![nch(r)])),
            nch(expr_node(node(CstNodeTag::Wildcard, vec![]))),
        ])])
    };
    let g = BlockParser::to_seq_elem(&seq_with(range_with(max_text.as_str())))
        .expect("the largest bound should be accepted");
    match &g.sub_elems[0] {
        RuleElement::Expression(x) => {
            assert_eq!(x.loop_count, RuleElementLoopCount { min: 0, max: Infinitable::Normal(usize::MAX) });
        }
        RuleElement::Group(_) => panic!("expected a leaf expression"),
    }
    let too_big = format!("{}0", max_text);
    assert!(matches!(
        BlockParser::to_seq_elem(&seq_with(range_with(too_big.as_str()))),
        Err(BlockParseError::TooBigNumber(_, _))
    ));
}

#[test]
fn node_text_concatenates_visible_leaves() {
    let inner = node(CstNodeTag::SingleId, vec![leaf("ab"), hidden_leaf("x"), leaf("c")]);
    let hidden_inner = CstNode {
        tag: CstNodeTag::SingleId,
        pos: CharacterPosition { line: 1, column: 1 },
        visible: false,
        children: vec![leaf("nope")],
    };
    let outer = node(
        CstNodeTag::ChainId,
        vec![nch(inner), nch(hidden_inner), leaf("!")],
    );
    assert_eq!(outer.text(), "abc!");
}
