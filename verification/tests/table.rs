//! Tests of rule-table assembly: qualification, alias resolution,
//! duplicate detection, start-command placement, and the bootstrap
//! grammar assembled end to end.

use fcpeg::block::Block;
use fcpeg::block::BlockCommand;
use fcpeg::block::BlockMap;
use fcpeg::block::BlockParseError;
use fcpeg::bootstrap::FCPEGBlock;
use fcpeg::rule::ASTReflectionStyle;
use fcpeg::rule::CharacterPosition;
use fcpeg::rule::Rule;
use fcpeg::rule::RuleElement;
use fcpeg::rule::RuleExpression;
use fcpeg::rule::RuleExpressionKind;
use fcpeg::rule::RuleGroup;
use fcpeg::rule::RuleGroupKind;
use fcpeg::rule::RuleMap;

fn pos() -> CharacterPosition {
    CharacterPosition { line: 3, column: 1 }
}

fn rule_with_ref(name: &str, ref_id: &str) -> BlockCommand {
    let expr = RuleExpression::new(pos(), RuleExpressionKind::ID, ref_id.to_string());
    let mut seq = RuleGroup::new(RuleGroupKind::Sequence);
    seq.sub_elems = vec![RuleElement::Expression(expr)];
    let mut group = RuleGroup::new(RuleGroupKind::Choice);
    group.sub_elems = vec![RuleElement::Group(seq)];
    let rule = Rule::new(pos(), name.to_string(), name.to_string(), Vec::new(), Vec::new(), group);
    BlockCommand::Define { pos: pos(), rule }
}

fn plain_rule(name: &str) -> BlockCommand {
    let expr = RuleExpression::new(pos(), RuleExpressionKind::Str, "x".to_string());
    let mut group = RuleGroup::new(RuleGroupKind::Choice);
    group.sub_elems = vec![RuleElement::Expression(expr)];
    let rule = Rule::new(pos(), name.to_string(), name.to_string(), Vec::new(), Vec::new(), group);
    BlockCommand::Define { pos: pos(), rule }
}

fn use_cmd(file_alias: &str, block_id: &str, local_alias: &str) -> BlockCommand {
    BlockCommand::Use {
        pos: pos(),
        file_alias: file_alias.to_string(),
        block_id: block_id.to_string(),
        local_alias: local_alias.to_string(),
    }
}

fn start_cmd(block_id: &str, rule_id: &str) -> BlockCommand {
    BlockCommand::Start {
        pos: pos(),
        file_alias: String::new(),
        block_id: block_id.to_string(),
        rule_id: rule_id.to_string(),
    }
}

fn mk_block(name: &str, cmds: Vec<BlockCommand>) -> Block {
    Block::new(name.to_string(), cmds)
}

fn mk_map(file_alias: &str, blocks: Vec<Block>) -> BlockMap {
    BlockMap { file_alias: file_alias.to_string(), blocks }
}

fn ref_value(rule: &Rule) -> &str {
    match &rule.group.sub_elems[0] {
        RuleElement::Group(seq) => match &seq.sub_elems[0] {
            RuleElement::Expression(x) => x.value.as_str(),
            RuleElement::Group(_) => panic!("expected a leaf expression"),
        },
        RuleElement::Expression(x) => x.value.as_str(),
    }
}

#[test]
fn assembly_qualifies_ids_and_local_references() {
    let map = mk_map(
        "",
        vec![
            mk_block("Main", vec![start_cmd("B", "R")]),
            mk_block("B", vec![rule_with_ref("R", "Helper"), plain_rule("Helper")]),
        ],
    );
    let table = RuleMap::new(vec![map]).expect("assembly should succeed");
    assert_eq!(table.start_rule_id, "B.R");
    let r = table.get("B.R").expect("rule should be in the table");
    assert_eq!(r.name, "R");
    assert_eq!(ref_value(r), "B.Helper");
    assert!(table.get("B.Helper").is_some());
    assert!(table.get("Helper").is_none());
}

#[test]
fn alias_reference_resolves_to_imported_block() {
    let helpers = mk_map("Sub", vec![mk_block("Helpers", vec![plain_rule("Token")])]);
    let root = mk_map(
        "",
        vec![
            mk_block("Main", vec![start_cmd("B", "R")]),
            mk_block(
                "B",
                vec![use_cmd("Sub", "Helpers", "H"), rule_with_ref("R", "H.Token")],
            ),
        ],
    );
    let table = RuleMap::new(vec![helpers, root]).expect("assembly should succeed");
    let r = table.get("B.R").expect("rule should be in the table");
    assert_eq!(ref_value(r), "Sub.Helpers.Token");
    assert!(table.get("Sub.Helpers.Token").is_some());
}

#[test]
fn two_aliases_for_one_block_do_not_collide() {
    let root = mk_map(
        "",
        vec![
            mk_block("Main", vec![start_cmd("B", "R")]),
            mk_block(
                "B",
                vec![
                    use_cmd("", "C", "First"),
                    use_cmd("", "C", "Second"),
                    rule_with_ref("R", "First.X"),
                    rule_with_ref("S", "Second.X"),
                ],
            ),
            mk_block("C", vec![plain_rule("X")]),
        ],
    );
    let table = RuleMap::new(vec![root]).expect("assembly should succeed");
    assert_eq!(ref_value(table.get("B.R").unwrap()), "C.X");
    assert_eq!(ref_value(table.get("B.S").unwrap()), "C.X");
}

#[test]
fn duplicate_alias_is_refused() {
    let root = mk_map(
        "",
        vec![
            mk_block("Main", vec![start_cmd("B", "R")]),
            mk_block("B", vec![use_cmd("", "C", "H"), use_cmd("", "D", "H"), plain_rule("R")]),
        ],
    );
    match RuleMap::new(vec![root]) {
        Err(BlockParseError::DuplicatedBlockAliasName(_, name)) => assert_eq!(name, "H"),
        other => panic!("expected a duplicated-alias error, got {:?}", other),
    }
}

#[test]
fn unknown_alias_is_refused() {
    let root = mk_map(
        "",
        vec![
            mk_block("Main", vec![start_cmd("B", "R")]),
            mk_block("B", vec![rule_with_ref("R", "X.Y")]),
        ],
    );
    match RuleMap::new(vec![root]) {
        Err(BlockParseError::BlockAliasNotFound(_, name)) => assert_eq!(name, "X"),
        other => panic!("expected an alias-not-found error, got {:?}", other),
    }
}

#[test]
fn duplicate_rule_id_in_one_block_is_refused() {
    let root = mk_map(
        "",
        vec![
            mk_block("Main", vec![start_cmd("B", "R")]),
            mk_block("B", vec![plain_rule("R"), plain_rule("R")]),
        ],
    );
    match RuleMap::new(vec![root]) {
        Err(BlockParseError::DuplicatedBlockName(line, id)) => {
            assert_eq!(id, "B.R");
            assert_eq!(line, 3);
        }
        other => panic!("expected a duplicate-identifier error, got {:?}", other),
    }
}

#[test]
fn duplicate_rule_id_across_files_is_refused() {
    let first = mk_map("", vec![mk_block("B", vec![plain_rule("R")])]);
    let root = mk_map(
        "",
        vec![
            mk_block("Main", vec![start_cmd("B", "R")]),
            mk_block("B", vec![plain_rule("R")]),
        ],
    );
    match RuleMap::new(vec![first, root]) {
        Err(BlockParseError::DuplicatedBlockName(_, id)) => assert_eq!(id, "B.R"),
        other => panic!("expected a duplicate-identifier error, got {:?}", other),
    }
}

#[test]
fn missing_start_command_is_refused() {
    let root = mk_map(
        "",
        vec![mk_block("Main", vec![]), mk_block("B", vec![plain_rule("R")])],
    );
    assert!(matches!(
        RuleMap::new(vec![root]),
        Err(BlockParseError::NoStartCmdInMainBlock)
    ));
}

#[test]
fn second_start_command_is_refused() {
    let root = mk_map(
        "",
        vec![
            mk_block("Main", vec![start_cmd("B", "R"), start_cmd("B", "S")]),
            mk_block("B", vec![plain_rule("R"), plain_rule("S")]),
        ],
    );
    assert!(matches!(RuleMap::new(vec![root]), Err(BlockParseError::DuplicatedStartCmd)));
}

#[test]
fn start_command_outside_main_is_refused() {
    let root = mk_map(
        "",
        vec![
            mk_block("Main", vec![start_cmd("B", "R")]),
            mk_block("B", vec![start_cmd("B", "R"), plain_rule("R")]),
        ],
    );
    assert!(matches!(
        RuleMap::new(vec![root]),
        Err(BlockParseError::StartCmdOutsideMainBlock)
    ));
}

#[test]
fn rule_defined_in_main_is_refused() {
    let root = mk_map(
        "",
        vec![mk_block("Main", vec![plain_rule("R"), start_cmd("B", "R")])],
    );
    assert!(matches!(RuleMap::new(vec![root]), Err(BlockParseError::RuleInMainBlock)));
}

#[test]
fn missing_main_block_is_refused() {
    assert!(matches!(RuleMap::new(Vec::new()), Err(BlockParseError::MainBlockNotFound)));
    let root = mk_map("", vec![mk_block("B", vec![plain_rule("R")])]);
    assert!(matches!(RuleMap::new(vec![root]), Err(BlockParseError::MainBlockNotFound)));
}

#[test]
fn assembling_twice_gives_identical_tables() {
    let build = || {
        mk_map(
            "",
            vec![
                mk_block("Main", vec![start_cmd("B", "R")]),
                mk_block("B", vec![rule_with_ref("R", "Helper"), plain_rule("Helper")]),
            ],
        )
    };
    let t1 = RuleMap::new(vec![build()]).expect("assembly should succeed");
    let t2 = RuleMap::new(vec![build()]).expect("assembly should succeed");
    assert_eq!(t1.start_rule_id, t2.start_rule_id);
    assert_eq!(t1.to_text(), t2.to_text());
}

#[test]
fn bootstrap_grammar_assembles() {
    let map = FCPEGBlock::get_block_map();
    assert_eq!(map.blocks.len(), 6);
    assert_eq!(map.blocks[0].name, "Main");
    assert_eq!(map.blocks[5].name, "Rule");
    let table = RuleMap::new(vec![map]).expect("the bootstrap grammar should assemble");
    assert_eq!(table.start_rule_id, "Syntax.FCPEG");
    assert_eq!(table.rules.len(), 29);
    assert!(table.get("Syntax.FCPEG").is_some());
    assert!(table.get("Misc.ChainID").is_some());
    assert!(table.get("Block.DefineCmd").is_some());
    let pure_choice = table.get("Rule.PureChoice").expect("rule should be in the table");
    match &pure_choice.group.sub_elems[0] {
        RuleElement::Group(seq) => match &seq.sub_elems[0] {
            RuleElement::Expression(x) => assert_eq!(x.value, "Rule.Seq"),
            RuleElement::Group(_) => panic!("expected a leaf expression"),
        },
        RuleElement::Expression(_) => panic!("expected a sequence group"),
    }
    let rendered = table.to_text();
    assert!(rendered.contains("FCPEG"));
    assert!(rendered.ends_with('\n'));
}

#[test]
fn bootstrap_whitespace_rules_hold_their_literals() {
    let map = FCPEGBlock::get_symbol_block();
    assert_eq!(map.name, "Symbol");
    let rules: Vec<&Rule> = map
        .cmds
        .iter()
        .map(|c| match c {
            BlockCommand::Define { rule, .. } => rule,
            _ => panic!("expected a rule definition"),
        })
        .collect();
    assert_eq!(rules[0].name, "Space");
    match &rules[0].group.sub_elems[0] {
        RuleElement::Group(seq) => match &seq.sub_elems[0] {
            RuleElement::Expression(x) => {
                assert!(matches!(x.kind, RuleExpressionKind::Str));
                assert_eq!(x.value, " ");
            }
            RuleElement::Group(_) => panic!("expected a leaf expression"),
        },
        RuleElement::Expression(_) => panic!("expected a sequence group"),
    }
    assert_eq!(rules[1].name, "LineEnd");
    match &rules[1].group.sub_elems[0] {
        RuleElement::Group(seq) => {
            assert_eq!(seq.sub_elems.len(), 3);
            match &seq.sub_elems[0] {
                RuleElement::Expression(x) => {
                    assert_eq!(x.value, "Space");
                    assert_eq!(
                        x.ast_reflection_style,
                        ASTReflectionStyle::Reflection("Space".to_string())
                    );
                }
                RuleElement::Group(_) => panic!("expected a leaf expression"),
            }
            match &seq.sub_elems[1] {
                RuleElement::Expression(x) => assert_eq!(x.value, "\n"),
                RuleElement::Group(_) => panic!("expected a leaf expression"),
            }
        }
        RuleElement::Expression(_) => panic!("expected a sequence group"),
    }
}
