//! Tests of the rule representation: quantifier mappings, extraction,
//! loop-count rendering and the diagnostic renderings.

use fcpeg::rule::ASTReflectionStyle;
use fcpeg::rule::CharacterPosition;
use fcpeg::rule::Infinitable;
use fcpeg::rule::Rule;
use fcpeg::rule::RuleElement;
use fcpeg::rule::RuleElementLookaheadKind;
use fcpeg::rule::RuleElementLoopCount;
use fcpeg::rule::RuleElementOrder;
use fcpeg::rule::RuleExpression;
use fcpeg::rule::RuleExpressionKind;
use fcpeg::rule::RuleGroup;
use fcpeg::rule::RuleGroupKind;

fn pos() -> CharacterPosition {
    CharacterPosition { line: 0, column: 0 }
}

fn expr(kind: RuleExpressionKind, value: &str) -> RuleExpression {
    RuleExpression::new(pos(), kind, value.to_string())
}

fn group_of(kind: RuleGroupKind, elems: Vec<RuleElement>) -> RuleGroup {
    let mut g = RuleGroup::new(kind);
    g.sub_elems = elems;
    g
}

#[test]
fn lookahead_symbol_mapping() {
    assert_eq!(RuleElementLookaheadKind::new("&"), RuleElementLookaheadKind::Positive);
    assert_eq!(RuleElementLookaheadKind::new("!"), RuleElementLookaheadKind::Negative);
    assert_eq!(RuleElementLookaheadKind::new(""), RuleElementLookaheadKind::NoLookahead);
    assert_eq!(RuleElementLookaheadKind::new("x"), RuleElementLookaheadKind::NoLookahead);
    assert!(RuleElementLookaheadKind::new("?").is_none());
    assert!(!RuleElementLookaheadKind::new("&").is_none());
}

#[test]
fn loop_symbol_mapping() {
    assert_eq!(
        RuleElementLoopCount::from_symbol("?"),
        RuleElementLoopCount { min: 0, max: Infinitable::Normal(1) }
    );
    assert_eq!(
        RuleElementLoopCount::from_symbol("*"),
        RuleElementLoopCount { min: 0, max: Infinitable::Infinite }
    );
    assert_eq!(
        RuleElementLoopCount::from_symbol("+"),
        RuleElementLoopCount { min: 1, max: Infinitable::Infinite }
    );
    assert_eq!(
        RuleElementLoopCount::from_symbol(""),
        RuleElementLoopCount { min: 1, max: Infinitable::Normal(1) }
    );
    assert_eq!(RuleElementLoopCount::from_symbol("x"), RuleElementLoopCount::get_single_loop());
}

#[test]
fn single_loop_checks() {
    assert!(RuleElementLoopCount::get_single_loop().is_single_loop());
    assert!(!RuleElementLoopCount::from_symbol("?").is_single_loop());
    assert!(Infinitable::<usize>::Infinite.is_infinite());
    assert!(!Infinitable::Normal(3usize).is_infinite());
}

#[test]
fn loop_count_to_tuple() {
    assert_eq!(RuleElementLoopCount::new(2, Infinitable::Normal(5)).to_tuple(), (2, 5));
    assert_eq!(RuleElementLoopCount::new(1, Infinitable::Infinite).to_tuple(), (1, -1));
}

#[test]
fn loop_count_rendering() {
    let single = RuleElementLoopCount::get_single_loop();
    assert_eq!(single.to_string(true, "{", ",", "}"), "");
    assert_eq!(RuleElementLoopCount::from_symbol("?").to_string(true, "{", ",", "}"), "?");
    assert_eq!(RuleElementLoopCount::from_symbol("*").to_string(true, "{", ",", "}"), "*");
    assert_eq!(RuleElementLoopCount::from_symbol("+").to_string(true, "{", ",", "}"), "+");
    let two_five = RuleElementLoopCount::new(2, Infinitable::Normal(5));
    assert_eq!(two_five.to_string(true, "{", ",", "}"), "{2,5}");
    let zero_five = RuleElementLoopCount::new(0, Infinitable::Normal(5));
    assert_eq!(zero_five.to_string(true, "{", ",", "}"), "{,5}");
    let two_inf = RuleElementLoopCount::new(2, Infinitable::Infinite);
    assert_eq!(two_inf.to_string(true, "{", ",", "}"), "{2,}");
    let zero_one = RuleElementLoopCount::new(0, Infinitable::Normal(1));
    assert_eq!(zero_one.to_string(false, "^[", "-", "]"), "^[-1]");
    let big = RuleElementLoopCount::new(12, Infinitable::Normal(340));
    assert_eq!(big.to_string(true, "{", ",", "}"), "{12,340}");
}

#[test]
fn extract_collapses_single_child_chains() {
    let leaf = RuleElement::Expression(expr(RuleExpressionKind::CharClass, "[0-9]"));
    let inner = group_of(RuleGroupKind::Sequence, vec![leaf]);
    let middle = group_of(RuleGroupKind::Choice, vec![RuleElement::Group(inner)]);
    let outer = group_of(RuleGroupKind::Choice, vec![RuleElement::Group(middle)]);
    let extracted = outer.extract();
    assert_eq!(extracted.kind, RuleGroupKind::Sequence);
    assert_eq!(extracted.sub_elems.len(), 1);
    match &extracted.sub_elems[0] {
        RuleElement::Expression(x) => {
            assert!(matches!(x.kind, RuleExpressionKind::CharClass));
            assert_eq!(x.value, "[0-9]");
        }
        RuleElement::Group(_) => panic!("extraction left a nested group"),
    }
}

#[test]
fn extract_is_idempotent() {
    let leaf = RuleElement::Expression(expr(RuleExpressionKind::Str, "x"));
    let inner = group_of(RuleGroupKind::Sequence, vec![leaf]);
    let outer = group_of(RuleGroupKind::Choice, vec![RuleElement::Group(inner)]);
    let once = outer.extract();
    let twice = once.extract();
    assert_eq!(once.to_text(), twice.to_text());
    assert_eq!(once.kind, twice.kind);
    assert_eq!(once.sub_elems.len(), twice.sub_elems.len());
}

#[test]
fn extract_keeps_multi_child_groups() {
    let a = RuleElement::Expression(expr(RuleExpressionKind::Str, "a"));
    let b = RuleElement::Expression(expr(RuleExpressionKind::Str, "b"));
    let g = group_of(RuleGroupKind::Sequence, vec![a, b]);
    let extracted = g.extract();
    assert_eq!(extracted.sub_elems.len(), 2);
    assert_eq!(extracted.kind, RuleGroupKind::Sequence);
}

#[test]
fn expression_rendering() {
    let mut x = expr(RuleExpressionKind::Str, "ab");
    x.ast_reflection_style = ASTReflectionStyle::Reflection(String::new());
    assert_eq!(x.to_text(), "\"ab\"");
    let mut id = expr(RuleExpressionKind::ID, "Block.Rule");
    id.ast_reflection_style = ASTReflectionStyle::Reflection("Rule".to_string());
    id.loop_count = RuleElementLoopCount::from_symbol("*");
    id.lookahead_kind = RuleElementLookaheadKind::Negative;
    assert_eq!(id.to_text(), "!Block.Rule*#Rule");
    let mut w = expr(RuleExpressionKind::Wildcard, ".");
    w.ast_reflection_style = ASTReflectionStyle::Expandable;
    assert_eq!(w.to_text(), ".##");
    let hidden = expr(RuleExpressionKind::ArgID, "arg");
    assert_eq!(hidden.to_text(), "$arg#");
}

#[test]
fn group_rendering() {
    let a = RuleElement::Expression({
        let mut x = expr(RuleExpressionKind::Str, "x");
        x.ast_reflection_style = ASTReflectionStyle::Reflection(String::new());
        x
    });
    let b = RuleElement::Expression({
        let mut x = expr(RuleExpressionKind::Str, "y");
        x.ast_reflection_style = ASTReflectionStyle::Reflection(String::new());
        x
    });
    let mut g = group_of(RuleGroupKind::Choice, vec![a, b]);
    assert_eq!(g.to_text(), "(\"x\" : \"y\")");
    g.elem_order = RuleElementOrder::Random(RuleElementLoopCount::new(1, Infinitable::Normal(2)));
    assert_eq!(g.to_text(), "(\"x\", \"y\")^[1-2]");
}

#[test]
fn rule_rendering() {
    let leaf = RuleElement::Expression({
        let mut x = expr(RuleExpressionKind::CharClass, "[0-9]");
        x.ast_reflection_style = ASTReflectionStyle::Reflection(String::new());
        x.loop_count = RuleElementLoopCount::from_symbol("+");
        x
    });
    let g = group_of(RuleGroupKind::Sequence, vec![leaf]);
    let r = Rule::new(
        pos(),
        "Main.Digit".to_string(),
        "Digit".to_string(),
        Vec::new(),
        Vec::new(),
        g,
    );
    assert_eq!(r.to_text(), "Digit <- ([0-9]+)");
    assert_eq!(r.id, "Main.Digit");
}
