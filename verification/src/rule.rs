//! The rule intermediate representation: the algebraic description of one
//! grammar production's matching expression, together with the flat rule
//! table assembled from compiled blocks.

use vstd::prelude::*;

verus! {

/// Lookahead applied to a rule element: none, positive (`&`) or negative
/// (`!`). Lookahead is zero-width and the three kinds are mutually
/// exclusive.
#[derive(Clone, Copy, PartialEq, Eq, Structural, Debug)]
pub enum RuleElementLookaheadKind {
    NoLookahead,
    Positive,
    Negative,
}

impl RuleElementLookaheadKind {
    /// Maps a lookahead marker to its kind: `&` is positive, `!` is
    /// negative, and any other text means no lookahead.
    pub fn new(value: &str) -> (r: RuleElementLookaheadKind)
        ensures
            value@ == "&"@ ==> r == RuleElementLookaheadKind::Positive,
            value@ == "!"@ ==> r == RuleElementLookaheadKind::Negative,
            value@ != "&"@ && value@ != "!"@ ==> r == RuleElementLookaheadKind::NoLookahead,
    {
        proof {
            reveal_strlit("&");
            reveal_strlit("!");
            assert("&"@[0] == '&');
            assert("!"@[0] == '!');
        }
        if crate::text::str_eq(value, "&") {
            RuleElementLookaheadKind::Positive
        } else if crate::text::str_eq(value, "!") {
            RuleElementLookaheadKind::Negative
        } else {
            RuleElementLookaheadKind::NoLookahead
        }
    }

    pub fn is_none(&self) -> (r: bool)
        ensures
            r == (*self == RuleElementLookaheadKind::NoLookahead),
    {
        matches!(self, RuleElementLookaheadKind::NoLookahead)
    }
}

/// A bound that is either a plain value or unbounded.
#[derive(Clone, Copy, PartialEq, Eq, Structural, Debug)]
pub enum Infinitable<T> {
    Normal(T),
    Infinite,
}

impl<T> Infinitable<T> {
    pub fn is_infinite(&self) -> (r: bool)
        ensures
            r == (*self matches Infinitable::Infinite),
    {
        matches!(self, Infinitable::Infinite)
    }
}

/// How many times a rule element may repeat: at least `min` and at most
/// `max` matches. Invariant: when `max` is finite it is at least `min`.
#[derive(Clone, Copy, PartialEq, Eq, Structural, Debug)]
pub struct RuleElementLoopCount {
    pub min: usize,
    pub max: Infinitable<usize>,
}

impl RuleElementLoopCount {
    /// A finite `max` must be at least `min`.
    pub open spec fn wf(self) -> bool {
        match self.max {
            Infinitable::Normal(m) => self.min <= m,
            Infinitable::Infinite => true,
        }
    }

    pub fn new(min: usize, max: Infinitable<usize>) -> (r: RuleElementLoopCount)
        requires
            (RuleElementLoopCount { min, max }).wf(),
        ensures
            r == (RuleElementLoopCount { min, max }),
    {
        RuleElementLoopCount { min, max }
    }

    /// Maps a quantifier symbol to its repetition range: `?` is zero or
    /// one, `*` is zero or more, `+` is one or more, and any other text
    /// means exactly one.
    pub fn from_symbol(value: &str) -> (r: RuleElementLoopCount)
        ensures
            value@ == "?"@ ==> r == (RuleElementLoopCount { min: 0, max: Infinitable::Normal(1) }),
            value@ == "*"@ ==> r == (RuleElementLoopCount { min: 0, max: Infinitable::Infinite }),
            value@ == "+"@ ==> r == (RuleElementLoopCount { min: 1, max: Infinitable::Infinite }),
            value@ != "?"@ && value@ != "*"@ && value@ != "+"@ ==> r == (RuleElementLoopCount {
                min: 1,
                max: Infinitable::Normal(1),
            }),
            r.wf(),
    {
        proof {
            reveal_strlit("?");
            reveal_strlit("*");
            reveal_strlit("+");
            assert("?"@[0] == '?');
            assert("*"@[0] == '*');
            assert("+"@[0] == '+');
        }
        if crate::text::str_eq(value, "?") {
            RuleElementLoopCount { min: 0, max: Infinitable::Normal(1) }
        } else if crate::text::str_eq(value, "*") {
            RuleElementLoopCount { min: 0, max: Infinitable::Infinite }
        } else if crate::text::str_eq(value, "+") {
            RuleElementLoopCount { min: 1, max: Infinitable::Infinite }
        } else {
            RuleElementLoopCount { min: 1, max: Infinitable::Normal(1) }
        }
    }

    /// The range of an element without any quantifier: exactly one match.
    pub fn get_single_loop() -> (r: RuleElementLoopCount)
        ensures
            r == (RuleElementLoopCount { min: 1, max: Infinitable::Normal(1) }),
    {
        RuleElementLoopCount { min: 1, max: Infinitable::Normal(1) }
    }

    pub fn is_single_loop(&self) -> (r: bool)
        ensures
            r == (*self == RuleElementLoopCount { min: 1, max: Infinitable::Normal(1) }),
    {
        self.min == 1 && self.max == Infinitable::Normal(1)
    }
}

/// A place in grammar source text, with 1-based line and column.
#[derive(Clone, Copy, PartialEq, Eq, Structural, Debug)]
pub struct CharacterPosition {
    pub line: usize,
    pub column: usize,
}

impl CharacterPosition {
    /// The position used for values that were not read from source text,
    /// such as the hand-built bootstrap grammar.
    pub fn unknown() -> (r: CharacterPosition)
        ensures
            r == (CharacterPosition { line: 0, column: 0 }),
    {
        CharacterPosition { line: 0, column: 0 }
    }
}

/// The order in which a choice group's alternatives may be attempted:
/// in declaration order, or in any order with a bound on how many
/// distinct alternatives must match.
#[derive(Clone, Copy, PartialEq, Eq, Structural, Debug)]
pub enum RuleElementOrder {
    Random(RuleElementLoopCount),
    Sequential,
}

impl RuleElementOrder {
    pub fn is_random(&self) -> (r: bool)
        ensures
            r == (*self != RuleElementOrder::Sequential),
    {
        matches!(self, RuleElementOrder::Random(_))
    }
}

/// Whether and how a matched element appears in the engine's output
/// tree: omitted entirely, kept under a (possibly empty) name, or
/// spliced into the parent with the element itself elided.
#[derive(PartialEq, Eq, Debug)]
pub enum ASTReflectionStyle {
    NoReflection,
    Reflection(String),
    Expandable,
}

/// Mathematical value of an [`ASTReflectionStyle`].
#[verifier::ext_equal]
pub enum ReflectView {
    NoReflection,
    Reflection(Seq<char>),
    Expandable,
}

pub open spec fn reflect_view(s: ASTReflectionStyle) -> ReflectView {
    match s {
        ASTReflectionStyle::NoReflection => ReflectView::NoReflection,
        ASTReflectionStyle::Reflection(name) => ReflectView::Reflection(name@),
        ASTReflectionStyle::Expandable => ReflectView::Expandable,
    }
}

impl View for ASTReflectionStyle {
    type V = ReflectView;

    open spec fn view(&self) -> ReflectView {
        reflect_view(*self)
    }
}

impl ASTReflectionStyle {
    /// Builds the style that keeps a matched node under the given name.
    pub fn reflection(name: &str) -> (r: ASTReflectionStyle)
        ensures
            r@ == ReflectView::Reflection(name@),
    {
        ASTReflectionStyle::Reflection(name.to_owned())
    }
}

/// Which kind of leaf matcher a [`RuleExpression`] is. `Func` and
/// `Generics` carry argument groups for parametrized rule references, a
/// declared extension that the block compiler does not yet produce.
#[derive(Debug)]
pub enum RuleExpressionKind {
    ArgID,
    CharClass,
    Func(Vec<RuleGroup>),
    Generics(Vec<RuleGroup>),
    ID,
    Str,
    Wildcard,
}

/// Mathematical value of a [`RuleExpressionKind`].
#[verifier::ext_equal]
pub enum ExprKindView {
    ArgID,
    CharClass,
    Func(Seq<GroupView>),
    Generics(Seq<GroupView>),
    ID,
    Str,
    Wildcard,
}

/// A leaf matcher: a rule reference, a string literal (escapes already
/// resolved), a bracketed character-class pattern, a wildcard matching
/// one unit, or a reference to an enclosing rule's argument.
#[derive(Debug)]
pub struct RuleExpression {
    pub pos: CharacterPosition,
    pub kind: RuleExpressionKind,
    pub value: String,
    pub ast_reflection_style: ASTReflectionStyle,
    pub lookahead_kind: RuleElementLookaheadKind,
    pub loop_count: RuleElementLoopCount,
}

/// Mathematical value of a [`RuleExpression`].
#[verifier::ext_equal]
pub struct ExprView {
    pub pos: CharacterPosition,
    pub kind: ExprKindView,
    pub value: Seq<char>,
    pub ast_reflection_style: ReflectView,
    pub lookahead_kind: RuleElementLookaheadKind,
    pub loop_count: RuleElementLoopCount,
}

/// One child of a group: either a nested group or a leaf expression.
#[derive(Debug)]
pub enum RuleElement {
    Group(RuleGroup),
    Expression(RuleExpression),
}

/// Mathematical value of a [`RuleElement`].
#[verifier::ext_equal]
pub enum ElemView {
    Group(GroupView),
    Expression(ExprView),
}

/// Whether a group's children are alternatives or a concatenation.
#[derive(Clone, Copy, PartialEq, Eq, Structural, Debug)]
pub enum RuleGroupKind {
    Choice,
    Sequence,
}

/// An ordered group of rule elements: alternation (`Choice`) or
/// concatenation (`Sequence`), with the lookahead, repetition,
/// reflection and attempt-order attributes of the group as a whole.
#[derive(Debug)]
pub struct RuleGroup {
    pub kind: RuleGroupKind,
    pub sub_elems: Vec<RuleElement>,
    pub ast_reflection_style: ASTReflectionStyle,
    pub lookahead_kind: RuleElementLookaheadKind,
    pub loop_count: RuleElementLoopCount,
    pub elem_order: RuleElementOrder,
}

/// Mathematical value of a [`RuleGroup`].
#[verifier::ext_equal]
pub struct GroupView {
    pub kind: RuleGroupKind,
    pub sub_elems: Seq<ElemView>,
    pub ast_reflection_style: ReflectView,
    pub lookahead_kind: RuleElementLookaheadKind,
    pub loop_count: RuleElementLoopCount,
    pub elem_order: RuleElementOrder,
}

/// The views of a sequence of argument groups, in order.
pub open spec fn groups_view(s: Seq<RuleGroup>) -> Seq<GroupView>
    decreases s,
{
    if s.len() == 0 {
        Seq::empty()
    } else {
        groups_view(s.subrange(0, s.len() - 1)).push(group_view(s[s.len() - 1]))
    }
}

/// Pointwise description of [`groups_view`].
pub broadcast proof fn lemma_groups_view(s: Seq<RuleGroup>)
    ensures
        (#[trigger] groups_view(s)).len() == s.len(),
        forall|i: int| 0 <= i < s.len() ==> groups_view(s)[i] == group_view(s[i]),
    decreases s.len(),
{
    if s.len() > 0 {
        lemma_groups_view(s.subrange(0, s.len() - 1));
    }
}

pub open spec fn expr_kind_view(k: RuleExpressionKind) -> ExprKindView
    decreases k,
{
    match k {
        RuleExpressionKind::ArgID => ExprKindView::ArgID,
        RuleExpressionKind::CharClass => ExprKindView::CharClass,
        RuleExpressionKind::Func(args) => ExprKindView::Func(groups_view(args@)),
        RuleExpressionKind::Generics(args) => ExprKindView::Generics(groups_view(args@)),
        RuleExpressionKind::ID => ExprKindView::ID,
        RuleExpressionKind::Str => ExprKindView::Str,
        RuleExpressionKind::Wildcard => ExprKindView::Wildcard,
    }
}

pub open spec fn expr_view(e: RuleExpression) -> ExprView
    decreases e,
{
    ExprView {
        pos: e.pos,
        kind: expr_kind_view(e.kind),
        value: e.value@,
        ast_reflection_style: reflect_view(e.ast_reflection_style),
        lookahead_kind: e.lookahead_kind,
        loop_count: e.loop_count,
    }
}

pub open spec fn elem_view(e: RuleElement) -> ElemView
    decreases e,
{
    match e {
        RuleElement::Group(g) => ElemView::Group(group_view(g)),
        RuleElement::Expression(x) => ElemView::Expression(expr_view(x)),
    }
}

/// The views of a sequence of elements, in order.
pub open spec fn elems_view(s: Seq<RuleElement>) -> Seq<ElemView>
    decreases s,
{
    if s.len() == 0 {
        Seq::empty()
    } else {
        elems_view(s.subrange(0, s.len() - 1)).push(elem_view(s[s.len() - 1]))
    }
}

/// Pointwise description of [`elems_view`].
pub broadcast proof fn lemma_elems_view(s: Seq<RuleElement>)
    ensures
        (#[trigger] elems_view(s)).len() == s.len(),
        forall|i: int| 0 <= i < s.len() ==> elems_view(s)[i] == elem_view(s[i]),
    decreases s.len(),
{
    if s.len() > 0 {
        lemma_elems_view(s.subrange(0, s.len() - 1));
    }
}

pub open spec fn group_view(g: RuleGroup) -> GroupView
    decreases g,
{
    GroupView {
        kind: g.kind,
        sub_elems: elems_view(g.sub_elems@),
        ast_reflection_style: reflect_view(g.ast_reflection_style),
        lookahead_kind: g.lookahead_kind,
        loop_count: g.loop_count,
        elem_order: g.elem_order,
    }
}

impl View for RuleExpression {
    type V = ExprView;

    open spec fn view(&self) -> ExprView {
        expr_view(*self)
    }
}

impl View for RuleElement {
    type V = ElemView;

    open spec fn view(&self) -> ElemView {
        elem_view(*self)
    }
}

impl View for RuleGroup {
    type V = GroupView;

    open spec fn view(&self) -> GroupView {
        group_view(*self)
    }
}

impl RuleExpression {
    /// Builds a leaf expression with no lookahead, a single loop and no
    /// reflection; the attributes are adjusted afterwards by whoever
    /// builds the enclosing sequence.
    pub fn new(pos: CharacterPosition, kind: RuleExpressionKind, value: String) -> (r:
        RuleExpression)
        ensures
            r@ == (ExprView {
                pos,
                kind: expr_kind_view(kind),
                value: value@,
                ast_reflection_style: ReflectView::NoReflection,
                lookahead_kind: RuleElementLookaheadKind::NoLookahead,
                loop_count: RuleElementLoopCount { min: 1, max: Infinitable::Normal(1) },
            }),
    {
        RuleExpression {
            pos,
            kind,
            value,
            ast_reflection_style: ASTReflectionStyle::NoReflection,
            lookahead_kind: RuleElementLookaheadKind::NoLookahead,
            loop_count: RuleElementLoopCount { min: 1, max: Infinitable::Normal(1) },
        }
    }
}

impl RuleGroup {
    /// Builds an empty group of the given kind with the default
    /// attributes: a single loop, no lookahead, reflection under the
    /// empty name, and sequential attempt order.
    pub fn new(kind: RuleGroupKind) -> (r: RuleGroup)
        ensures
            r@ == (GroupView {
                kind,
                sub_elems: Seq::<ElemView>::empty(),
                ast_reflection_style: ReflectView::Reflection(Seq::<char>::empty()),
                lookahead_kind: RuleElementLookaheadKind::NoLookahead,
                loop_count: RuleElementLoopCount { min: 1, max: Infinitable::Normal(1) },
                elem_order: RuleElementOrder::Sequential,
            }),
    {
        let r = RuleGroup {
            kind,
            sub_elems: Vec::new(),
            ast_reflection_style: ASTReflectionStyle::Reflection(String::new()),
            lookahead_kind: RuleElementLookaheadKind::NoLookahead,
            loop_count: RuleElementLoopCount { min: 1, max: Infinitable::Normal(1) },
            elem_order: RuleElementOrder::Sequential,
        };
        proof {
            assert(r@.sub_elems =~= Seq::<ElemView>::empty());
        }
        r
    }
}

fn clone_expr_kind(k: &RuleExpressionKind) -> (r: RuleExpressionKind)
    ensures
        expr_kind_view(r) == expr_kind_view(*k),
    decreases *k,
{
    broadcast use lemma_groups_view;

    match k {
        RuleExpressionKind::ArgID => RuleExpressionKind::ArgID,
        RuleExpressionKind::CharClass => RuleExpressionKind::CharClass,
        RuleExpressionKind::Func(args) => {
            let mut groups: Vec<RuleGroup> = Vec::new();
            let mut i: usize = 0;
            while i < args.len()
                invariant
                    *k == RuleExpressionKind::Func(*args),
                    i <= args@.len(),
                    groups@.len() == i,
                    forall|j: int| 0 <= j < i ==> groups@[j]@ == args@[j]@,
                decreases args@.len() - i,
            {
                proof {
                    assert(decreases_to!(*k => k->Func_0));
                    assert(decreases_to!(*args => args@[i as int]));
                    assert(decreases_to!(*k => args@[i as int]));
                }
                groups.push(clone_group(&args[i]));
                i = i + 1;
            }
            proof {
                assert(groups_view(groups@) =~= groups_view(args@));
            }
            RuleExpressionKind::Func(groups)
        },
        RuleExpressionKind::Generics(args) => {
            let mut groups: Vec<RuleGroup> = Vec::new();
            let mut i: usize = 0;
            while i < args.len()
                invariant
                    *k == RuleExpressionKind::Generics(*args),
                    i <= args@.len(),
                    groups@.len() == i,
                    forall|j: int| 0 <= j < i ==> groups@[j]@ == args@[j]@,
                decreases args@.len() - i,
            {
                proof {
                    assert(decreases_to!(*k => k->Generics_0));
                    assert(decreases_to!(*args => args@[i as int]));
                    assert(decreases_to!(*k => args@[i as int]));
                }
                groups.push(clone_group(&args[i]));
                i = i + 1;
            }
            proof {
                assert(groups_view(groups@) =~= groups_view(args@));
            }
            RuleExpressionKind::Generics(groups)
        },
        RuleExpressionKind::ID => RuleExpressionKind::ID,
        RuleExpressionKind::Str => RuleExpressionKind::Str,
        RuleExpressionKind::Wildcard => RuleExpressionKind::Wildcard,
    }
}

fn clone_expr(e: &RuleExpression) -> (r: RuleExpression)
    ensures
        r@ == e@,
    decreases *e,
{
    RuleExpression {
        pos: e.pos,
        kind: clone_expr_kind(&e.kind),
        value: e.value.clone(),
        ast_reflection_style: e.ast_reflection_style.clone(),
        lookahead_kind: e.lookahead_kind,
        loop_count: e.loop_count,
    }
}

fn clone_elem(e: &RuleElement) -> (r: RuleElement)
    ensures
        r@ == e@,
    decreases *e,
{
    match e {
        RuleElement::Group(g) => RuleElement::Group(clone_group(g)),
        RuleElement::Expression(x) => RuleElement::Expression(clone_expr(x)),
    }
}

fn clone_group(g: &RuleGroup) -> (r: RuleGroup)
    ensures
        r@ == g@,
    decreases *g,
{
    broadcast use lemma_elems_view;

    let mut elems: Vec<RuleElement> = Vec::new();
    let mut i: usize = 0;
    while i < g.sub_elems.len()
        invariant
            i <= g.sub_elems@.len(),
            elems@.len() == i,
            forall|j: int| 0 <= j < i ==> elems@[j]@ == g.sub_elems@[j]@,
        decreases g.sub_elems@.len() - i,
    {
        elems.push(clone_elem(&g.sub_elems[i]));
        i = i + 1;
    }
    let r = RuleGroup {
        kind: g.kind,
        sub_elems: elems,
        ast_reflection_style: g.ast_reflection_style.clone(),
        lookahead_kind: g.lookahead_kind,
        loop_count: g.loop_count,
        elem_order: g.elem_order,
    };
    proof {
        assert(elems_view(elems@) =~= elems_view(g.sub_elems@));
        assert(r@ =~= g@);
    }
    r
}

impl Clone for ASTReflectionStyle {
    fn clone(&self) -> (r: Self)
        ensures
            r@ == self@,
    {
        match self {
            ASTReflectionStyle::NoReflection => ASTReflectionStyle::NoReflection,
            ASTReflectionStyle::Reflection(name) => ASTReflectionStyle::Reflection(name.clone()),
            ASTReflectionStyle::Expandable => ASTReflectionStyle::Expandable,
        }
    }
}

impl Clone for RuleExpressionKind {
    fn clone(&self) -> (r: Self)
        ensures
            expr_kind_view(r) == expr_kind_view(*self),
    {
        clone_expr_kind(self)
    }
}

impl Clone for RuleExpression {
    fn clone(&self) -> (r: Self)
        ensures
            r@ == self@,
    {
        clone_expr(self)
    }
}

impl Clone for RuleElement {
    fn clone(&self) -> (r: Self)
        ensures
            r@ == self@,
    {
        clone_elem(self)
    }
}

impl Clone for RuleGroup {
    fn clone(&self) -> (r: Self)
        ensures
            r@ == self@,
    {
        clone_group(self)
    }
}

/// One grammar production: its fully-qualified identifier, its display
/// name, its declared formal parameters (never filled by the block
/// compiler, which does not yet produce parametrized rules) and the
/// root group of its matching expression.
#[derive(Debug)]
pub struct Rule {
    pub pos: CharacterPosition,
    pub id: String,
    pub name: String,
    pub generics_arg_ids: Vec<String>,
    pub func_arg_ids: Vec<String>,
    pub group: RuleGroup,
}

/// Mathematical value of a [`Rule`].
#[verifier::ext_equal]
pub struct RuleView {
    pub pos: CharacterPosition,
    pub id: Seq<char>,
    pub name: Seq<char>,
    pub generics_arg_ids: Seq<Seq<char>>,
    pub func_arg_ids: Seq<Seq<char>>,
    pub group: GroupView,
}

/// The views of a sequence of strings, in order.
pub open spec fn strs_view(s: Seq<String>) -> Seq<Seq<char>> {
    Seq::new(s.len(), |i: int| s[i]@)
}

pub open spec fn rule_view(r: Rule) -> RuleView {
    RuleView {
        pos: r.pos,
        id: r.id@,
        name: r.name@,
        generics_arg_ids: strs_view(r.generics_arg_ids@),
        func_arg_ids: strs_view(r.func_arg_ids@),
        group: group_view(r.group),
    }
}

impl View for Rule {
    type V = RuleView;

    open spec fn view(&self) -> RuleView {
        rule_view(*self)
    }
}

impl Rule {
    pub fn new(
        pos: CharacterPosition,
        id: String,
        name: String,
        generics_arg_ids: Vec<String>,
        func_arg_ids: Vec<String>,
        group: RuleGroup,
    ) -> (r: Rule)
        ensures
            r@ == (RuleView {
                pos,
                id: id@,
                name: name@,
                generics_arg_ids: strs_view(generics_arg_ids@),
                func_arg_ids: strs_view(func_arg_ids@),
                group: group_view(group),
            }),
    {
        Rule { pos, id, name, generics_arg_ids, func_arg_ids, group }
    }
}

fn clone_strings(v: &Vec<String>) -> (r: Vec<String>)
    ensures
        strs_view(r@) == strs_view(v@),
{
    let mut out: Vec<String> = Vec::new();
    let mut i: usize = 0;
    while i < v.len()
        invariant
            i <= v@.len(),
            out@.len() == i,
            forall|j: int| 0 <= j < i ==> out@[j]@ == v@[j]@,
        decreases v@.len() - i,
    {
        out.push(v[i].clone());
        i = i + 1;
    }
    proof {
        assert(strs_view(out@) =~= strs_view(v@));
    }
    out
}

impl Clone for Rule {
    fn clone(&self) -> (r: Self)
        ensures
            r@ == self@,
    {
        let r = Rule {
            pos: self.pos,
            id: self.id.clone(),
            name: self.name.clone(),
            generics_arg_ids: clone_strings(&self.generics_arg_ids),
            func_arg_ids: clone_strings(&self.func_arg_ids),
            group: self.group.clone(),
        };
        proof {
            assert(r@ =~= self@);
        }
        r
    }
}

impl RuleElementLoopCount {
    /// The range as a pair, with an unbounded maximum encoded as `-1`;
    /// a finite maximum must fit the pair's signed component.
    pub fn to_tuple(&self) -> (r: (usize, i32))
        requires
            self.max matches Infinitable::Normal(m) ==> m <= i32::MAX as usize,
        ensures
            r.0 == self.min,
            self.max matches Infinitable::Normal(m) ==> r.1 == m as i32,
            self.max is Infinite ==> r.1 == -1,
    {
        let max_num: i32 = match self.max {
            Infinitable::Normal(num) => num as i32,
            Infinitable::Infinite => -1,
        };
        (self.min, max_num)
    }
}

/// The rendering of a repetition range: nothing for a single loop, the
/// quantifier symbol where one exists and is asked for, and otherwise
/// the bounds (an omitted bound for a zero minimum or an unbounded
/// maximum) between the given prefix, separator and suffix.
pub open spec fn loop_count_text(
    lc: RuleElementLoopCount,
    is_loop_count: bool,
    prefix: Seq<char>,
    separator: Seq<char>,
    suffix: Seq<char>,
) -> Seq<char> {
    if lc == (RuleElementLoopCount { min: 1, max: Infinitable::Normal(1) }) {
        Seq::empty()
    } else if is_loop_count && lc == (RuleElementLoopCount { min: 0, max: Infinitable::Normal(1) }) {
        "?"@
    } else if is_loop_count && lc == (RuleElementLoopCount { min: 0, max: Infinitable::Infinite }) {
        "*"@
    } else if is_loop_count && lc == (RuleElementLoopCount { min: 1, max: Infinitable::Infinite }) {
        "+"@
    } else {
        let min_text: Seq<char> = if lc.min == 0 {
            Seq::empty()
        } else {
            crate::text::dec_digits(lc.min as nat)
        };
        let max_text: Seq<char> = match lc.max {
            Infinitable::Normal(m) => crate::text::dec_digits(m as nat),
            Infinitable::Infinite => Seq::empty(),
        };
        prefix + min_text + separator + max_text + suffix
    }
}

impl RuleElementLoopCount {
    /// Renders the range; see [`loop_count_text`].
    pub fn to_string(&self, is_loop_count: bool, prefix: &str, separator: &str, suffix: &str) -> (r:
        String)
        ensures
            r@ == loop_count_text(*self, is_loop_count, prefix@, separator@, suffix@),
    {
        if self.is_single_loop() {
            return String::new();
        }
        if is_loop_count {
            if self.min == 0 && self.max == Infinitable::Normal(1) {
                return "?".to_owned();
            }
            if self.min == 0 && self.max == Infinitable::Infinite {
                return "*".to_owned();
            }
            if self.min == 1 && self.max == Infinitable::Infinite {
                return "+".to_owned();
            }
        }
        let mut s = prefix.to_owned();
        if self.min != 0 {
            let min_text = crate::text::usize_to_text(self.min);
            s.append(min_text.as_str());
        }
        s.append(separator);
        match self.max {
            Infinitable::Normal(m) => {
                let max_text = crate::text::usize_to_text(m);
                s.append(max_text.as_str());
            },
            Infinitable::Infinite => {},
        }
        s.append(suffix);
        proof {
            assert(s@ =~= loop_count_text(*self, is_loop_count, prefix@, separator@, suffix@));
        }
        s
    }
}

/// The fully-qualified identifier of a rule: the optional file alias,
/// the block name and the rule name, joined by dots.
pub open spec fn qualified_id(file_alias: Seq<char>, block_name: Seq<char>, name: Seq<char>) -> Seq<
    char,
> {
    if file_alias.len() == 0 {
        block_name + "."@ + name
    } else {
        file_alias + "."@ + block_name + "."@ + name
    }
}

/// The block an import stands for: the imported file's alias, if any,
/// joined to the block's name.
pub open spec fn alias_target(file_alias: Seq<char>, block_id: Seq<char>) -> Seq<char> {
    if file_alias.len() == 0 {
        block_id
    } else {
        file_alias + "."@ + block_id
    }
}

/// The aliases a block's import commands declare, in order: each `Use`
/// adds one entry from its local alias to the imported block; a second
/// entry under one alias fails instead of overwriting, while two
/// aliases for one target block are fine.
pub open spec fn spec_block_aliases(cmds: Seq<crate::block::CmdView>) -> Result<
    Seq<(Seq<char>, Seq<char>)>,
    crate::block::ErrView,
>
    decreases cmds.len(),
{
    if cmds.len() == 0 {
        Ok(Seq::empty())
    } else {
        match spec_block_aliases(cmds.subrange(0, cmds.len() - 1)) {
            Err(e) => Err(e),
            Ok(acc) => match cmds[cmds.len() - 1] {
                crate::block::CmdView::Use { pos, file_alias, block_id, local_alias } => {
                    if exists|k: int| 0 <= k < acc.len() && (#[trigger] acc[k]).0 == local_alias {
                        Err(crate::block::ErrView::DuplicatedBlockAliasName(pos.line, local_alias))
                    } else {
                        Ok(acc.push((local_alias, alias_target(file_alias, block_id))))
                    }
                },
                _ => Ok(acc),
            },
        }
    }
}

/// The target of the first alias entry under a name, if any.
pub open spec fn alias_lookup(aliases: Seq<(Seq<char>, Seq<char>)>, name: Seq<char>) -> Option<
    Seq<char>,
>
    decreases aliases.len(),
{
    if aliases.len() == 0 {
        None
    } else if aliases[0].0 == name {
        Some(aliases[0].1)
    } else {
        alias_lookup(aliases.subrange(1, aliases.len() as int), name)
    }
}

/// The position of the first occurrence of a character, if any.
pub open spec fn find_char(s: Seq<char>, c: char) -> Option<int>
    decreases s.len(),
{
    if s.len() == 0 {
        None
    } else if s[0] == c {
        Some(0)
    } else {
        match find_char(s.subrange(1, s.len() as int), c) {
            Some(j) => Some(j + 1),
            None => None,
        }
    }
}

/// A rule reference resolved against its surroundings. A plain name
/// refers to a rule of the enclosing block and is qualified with the
/// enclosing file alias and block name. A dotted name is split at its
/// first dot: the head must be an alias declared by the block's import
/// commands, and the reference becomes the alias's target followed by
/// the rest; a head that is no alias fails.
pub open spec fn spec_resolve_id(
    value: Seq<char>,
    line: usize,
    file_alias: Seq<char>,
    block_name: Seq<char>,
    aliases: Seq<(Seq<char>, Seq<char>)>,
) -> Result<Seq<char>, crate::block::ErrView> {
    match find_char(value, '.') {
        None => Ok(qualified_id(file_alias, block_name, value)),
        Some(k) => {
            let head = value.take(k);
            let rest = value.skip(k + 1);
            match alias_lookup(aliases, head) {
                Some(target) => Ok(target + "."@ + rest),
                None => Err(crate::block::ErrView::BlockAliasNotFound(line, head)),
            }
        },
    }
}

/// An expression with every rule reference resolved; only references
/// and the argument groups of parametrized references change.
pub open spec fn spec_resolve_expr(
    x: ExprView,
    file_alias: Seq<char>,
    block_name: Seq<char>,
    aliases: Seq<(Seq<char>, Seq<char>)>,
) -> Result<ExprView, crate::block::ErrView>
    decreases x,
{
    match x.kind {
        ExprKindView::ID => match spec_resolve_id(
            x.value,
            x.pos.line,
            file_alias,
            block_name,
            aliases,
        ) {
            Err(e) => Err(e),
            Ok(v) => Ok(ExprView { value: v, ..x }),
        },
        ExprKindView::Func(args) => match spec_resolve_groups(
            args,
            file_alias,
            block_name,
            aliases,
        ) {
            Err(e) => Err(e),
            Ok(rs) => Ok(ExprView { kind: ExprKindView::Func(rs), ..x }),
        },
        ExprKindView::Generics(args) => match spec_resolve_groups(
            args,
            file_alias,
            block_name,
            aliases,
        ) {
            Err(e) => Err(e),
            Ok(rs) => Ok(ExprView { kind: ExprKindView::Generics(rs), ..x }),
        },
        _ => Ok(x),
    }
}

pub open spec fn spec_resolve_groups(
    s: Seq<GroupView>,
    file_alias: Seq<char>,
    block_name: Seq<char>,
    aliases: Seq<(Seq<char>, Seq<char>)>,
) -> Result<Seq<GroupView>, crate::block::ErrView>
    decreases s,
{
    if s.len() == 0 {
        Ok(Seq::empty())
    } else {
        match spec_resolve_groups(s.subrange(0, s.len() - 1), file_alias, block_name, aliases) {
            Err(e) => Err(e),
            Ok(acc) => match spec_resolve_group(s[s.len() - 1], file_alias, block_name, aliases) {
                Err(e) => Err(e),
                Ok(g) => Ok(acc.push(g)),
            },
        }
    }
}

pub open spec fn spec_resolve_elem(
    e: ElemView,
    file_alias: Seq<char>,
    block_name: Seq<char>,
    aliases: Seq<(Seq<char>, Seq<char>)>,
) -> Result<ElemView, crate::block::ErrView>
    decreases e,
{
    match e {
        ElemView::Group(g) => match spec_resolve_group(g, file_alias, block_name, aliases) {
            Err(err) => Err(err),
            Ok(r) => Ok(ElemView::Group(r)),
        },
        ElemView::Expression(x) => match spec_resolve_expr(x, file_alias, block_name, aliases) {
            Err(err) => Err(err),
            Ok(r) => Ok(ElemView::Expression(r)),
        },
    }
}

pub open spec fn spec_resolve_elems(
    s: Seq<ElemView>,
    file_alias: Seq<char>,
    block_name: Seq<char>,
    aliases: Seq<(Seq<char>, Seq<char>)>,
) -> Result<Seq<ElemView>, crate::block::ErrView>
    decreases s,
{
    if s.len() == 0 {
        Ok(Seq::empty())
    } else {
        match spec_resolve_elems(s.subrange(0, s.len() - 1), file_alias, block_name, aliases) {
            Err(e) => Err(e),
            Ok(acc) => match spec_resolve_elem(s[s.len() - 1], file_alias, block_name, aliases) {
                Err(e) => Err(e),
                Ok(el) => Ok(acc.push(el)),
            },
        }
    }
}

/// A group with every rule reference in it resolved; nothing but the
/// references changes.
pub open spec fn spec_resolve_group(
    g: GroupView,
    file_alias: Seq<char>,
    block_name: Seq<char>,
    aliases: Seq<(Seq<char>, Seq<char>)>,
) -> Result<GroupView, crate::block::ErrView>
    decreases g,
{
    match spec_resolve_elems(g.sub_elems, file_alias, block_name, aliases) {
        Err(e) => Err(e),
        Ok(elems) => Ok(GroupView { sub_elems: elems, ..g }),
    }
}

/// A defined rule made ready for the rule table: its identifier is
/// qualified with the enclosing file alias and block name, and every
/// reference inside it is resolved.
pub open spec fn spec_resolve_rule(
    rule: RuleView,
    file_alias: Seq<char>,
    block_name: Seq<char>,
    aliases: Seq<(Seq<char>, Seq<char>)>,
) -> Result<RuleView, crate::block::ErrView> {
    match spec_resolve_group(rule.group, file_alias, block_name, aliases) {
        Err(e) => Err(e),
        Ok(g) => Ok(
            RuleView { id: qualified_id(file_alias, block_name, rule.name), group: g, ..rule },
        ),
    }
}

/// Whether some rule in the sequence carries the identifier.
pub open spec fn rules_contain(rules: Seq<RuleView>, id: Seq<char>) -> bool {
    exists|k: int| 0 <= k < rules.len() && rules[k].id == id
}

/// The rules a block contributes, appended to the table in order; a
/// second rule under an identifier already present fails instead of
/// overwriting.
pub open spec fn spec_add_block_rules(
    acc: Seq<RuleView>,
    cmds: Seq<crate::block::CmdView>,
    file_alias: Seq<char>,
    block_name: Seq<char>,
    aliases: Seq<(Seq<char>, Seq<char>)>,
) -> Result<Seq<RuleView>, crate::block::ErrView>
    decreases cmds.len(),
{
    if cmds.len() == 0 {
        Ok(acc)
    } else {
        match spec_add_block_rules(
            acc,
            cmds.subrange(0, cmds.len() - 1),
            file_alias,
            block_name,
            aliases,
        ) {
            Err(e) => Err(e),
            Ok(table) => match cmds[cmds.len() - 1] {
                crate::block::CmdView::Define { pos: _, rule } => {
                    match spec_resolve_rule(rule, file_alias, block_name, aliases) {
                        Err(e) => Err(e),
                        Ok(rr) => if rules_contain(table, rr.id) {
                            Err(crate::block::ErrView::DuplicatedBlockName(rr.pos.line, rr.id))
                        } else {
                            Ok(table.push(rr))
                        },
                    }
                },
                _ => Ok(table),
            },
        }
    }
}

/// The rules the blocks of one file contribute, in order.
pub open spec fn spec_add_map_rules(
    acc: Seq<RuleView>,
    blocks: Seq<crate::block::BlockView>,
    file_alias: Seq<char>,
) -> Result<Seq<RuleView>, crate::block::ErrView>
    decreases blocks.len(),
{
    if blocks.len() == 0 {
        Ok(acc)
    } else {
        match spec_add_map_rules(acc, blocks.subrange(0, blocks.len() - 1), file_alias) {
            Err(e) => Err(e),
            Ok(table) => {
                let b = blocks[blocks.len() - 1];
                match spec_block_aliases(b.cmds) {
                    Err(e) => Err(e),
                    Ok(aliases) => spec_add_block_rules(
                        table,
                        b.cmds,
                        file_alias,
                        b.name,
                        aliases,
                    ),
                }
            },
        }
    }
}

/// The whole rule table: every file's blocks, in file order.
pub open spec fn spec_collect_rules(maps: Seq<crate::block::BlockMapView>) -> Result<
    Seq<RuleView>,
    crate::block::ErrView,
>
    decreases maps.len(),
{
    if maps.len() == 0 {
        Ok(Seq::empty())
    } else {
        match spec_collect_rules(maps.subrange(0, maps.len() - 1)) {
            Err(e) => Err(e),
            Ok(table) => spec_add_map_rules(
                table,
                maps[maps.len() - 1].blocks,
                maps[maps.len() - 1].file_alias,
            ),
        }
    }
}

/// The first block under a name, if any.
pub open spec fn find_block(m: crate::block::BlockMapView, name: Seq<char>) -> Option<
    crate::block::BlockView,
>
    decreases m.blocks.len(),
{
    if m.blocks.len() == 0 {
        None
    } else if m.blocks[0].name == name {
        Some(m.blocks[0])
    } else {
        find_block(
            crate::block::BlockMapView {
                file_alias: m.file_alias,
                blocks: m.blocks.subrange(1, m.blocks.len() as int),
            },
            name,
        )
    }
}

/// The entry-point declarations of one block's commands, checked for
/// placement: a rule defined in a `Main` block is illegal, and a start
/// command anywhere but the root file's `Main` block is illegal. The
/// start commands seen are handed back in order.
pub open spec fn spec_scan_cmds(
    cmds: Seq<crate::block::CmdView>,
    is_main_block: bool,
    is_root_map: bool,
) -> Result<Seq<crate::block::CmdView>, crate::block::ErrView>
    decreases cmds.len(),
{
    if cmds.len() == 0 {
        Ok(Seq::empty())
    } else {
        match spec_scan_cmds(cmds.subrange(0, cmds.len() - 1), is_main_block, is_root_map) {
            Err(e) => Err(e),
            Ok(acc) => match cmds[cmds.len() - 1] {
                crate::block::CmdView::Define { .. } => if is_main_block {
                    Err(crate::block::ErrView::RuleInMainBlock)
                } else {
                    Ok(acc)
                },
                crate::block::CmdView::Start { .. } => if is_main_block && is_root_map {
                    Ok(acc.push(cmds[cmds.len() - 1]))
                } else {
                    Err(crate::block::ErrView::StartCmdOutsideMainBlock)
                },
                crate::block::CmdView::Use { .. } => Ok(acc),
            },
        }
    }
}

/// The placement scan over one file's blocks.
pub open spec fn spec_scan_blocks(
    blocks: Seq<crate::block::BlockView>,
    is_root_map: bool,
) -> Result<Seq<crate::block::CmdView>, crate::block::ErrView>
    decreases blocks.len(),
{
    if blocks.len() == 0 {
        Ok(Seq::empty())
    } else {
        match spec_scan_blocks(blocks.subrange(0, blocks.len() - 1), is_root_map) {
            Err(e) => Err(e),
            Ok(acc) => {
                let b = blocks[blocks.len() - 1];
                match spec_scan_cmds(b.cmds, b.name == "Main"@, is_root_map) {
                    Err(e) => Err(e),
                    Ok(starts) => Ok(acc + starts),
                }
            },
        }
    }
}

/// The placement scan over the imported (non-root) files.
pub open spec fn spec_scan_nonroot(maps: Seq<crate::block::BlockMapView>) -> Result<
    (),
    crate::block::ErrView,
>
    decreases maps.len(),
{
    if maps.len() == 0 {
        Ok(())
    } else {
        match spec_scan_nonroot(maps.subrange(0, maps.len() - 1)) {
            Err(e) => Err(e),
            Ok(()) => match spec_scan_blocks(maps[maps.len() - 1].blocks, false) {
                Err(e) => Err(e),
                Ok(_) => Ok(()),
            },
        }
    }
}

/// The identifier a start command points at.
pub open spec fn start_target(c: crate::block::CmdView) -> Seq<char> {
    match c {
        crate::block::CmdView::Start { file_alias, block_id, rule_id, .. } => qualified_id(
            file_alias,
            block_id,
            rule_id,
        ),
        _ => Seq::empty(),
    }
}

/// The designated start rule of a compilation: the files are given in
/// dependency order, imported files first, so the last map is the root
/// file; its `Main` block is the root namespace. A missing root `Main`
/// block, a start command outside it, a rule defined in any `Main`
/// block, no start command at all, or more than one, are each errors.
pub open spec fn spec_find_start(maps: Seq<crate::block::BlockMapView>) -> Result<
    Seq<char>,
    crate::block::ErrView,
> {
    if maps.len() == 0 {
        Err(crate::block::ErrView::MainBlockNotFound)
    } else {
        let root = maps[maps.len() - 1];
        match find_block(root, "Main"@) {
            None => Err(crate::block::ErrView::MainBlockNotFound),
            Some(_) => match spec_scan_nonroot(maps.subrange(0, maps.len() - 1)) {
                Err(e) => Err(e),
                Ok(()) => match spec_scan_blocks(root.blocks, true) {
                    Err(e) => Err(e),
                    Ok(starts) => if starts.len() == 0 {
                        Err(crate::block::ErrView::NoStartCmdInMainBlock)
                    } else if starts.len() > 1 {
                        Err(crate::block::ErrView::DuplicatedStartCmd)
                    } else {
                        Ok(start_target(starts[0]))
                    },
                },
            },
        }
    }
}

/// Mathematical value of a [`RuleMap`].
#[verifier::ext_equal]
pub struct RuleMapView {
    pub rules: Seq<RuleView>,
    pub start_rule_id: Seq<char>,
}

/// The rule table a list of block maps assembles into: the placement
/// and start checks first, then every block's rules, qualified and
/// resolved, in file, block and definition order.
pub open spec fn spec_rule_map(maps: Seq<crate::block::BlockMapView>) -> Result<
    RuleMapView,
    crate::block::ErrView,
> {
    match spec_find_start(maps) {
        Err(e) => Err(e),
        Ok(start) => match spec_collect_rules(maps) {
            Err(e) => Err(e),
            Ok(rules) => Ok(RuleMapView { rules, start_rule_id: start }),
        },
    }
}

/// The views of a sequence of rules, in order.
pub open spec fn rules_view(s: Seq<Rule>) -> Seq<RuleView> {
    Seq::new(s.len(), |i: int| rule_view(s[i]))
}

/// The views of a sequence of alias entries, in order.
pub open spec fn pairs_view(s: Seq<(String, String)>) -> Seq<(Seq<char>, Seq<char>)> {
    Seq::new(s.len(), |i: int| (s[i].0@, s[i].1@))
}

/// The position of a character found by a left-to-right walk.
pub proof fn lemma_find_char_at(s: Seq<char>, c: char, k: int)
    requires
        0 <= k < s.len(),
        s[k] == c,
        forall|j: int| 0 <= j < k ==> s[j] != c,
    ensures
        find_char(s, c) == Some(k),
    decreases k,
{
    if k > 0 {
        let t = s.subrange(1, s.len() as int);
        lemma_find_char_at(t, c, k - 1);
    }
}

/// A character absent from a text is never found.
pub proof fn lemma_find_char_none(s: Seq<char>, c: char)
    requires
        forall|j: int| 0 <= j < s.len() ==> s[j] != c,
    ensures
        find_char(s, c) is None,
    decreases s.len(),
{
    if s.len() > 0 {
        lemma_find_char_none(s.subrange(1, s.len() as int), c);
    }
}

/// The first occurrence of a character, if any.
fn char_index(s: &str, c: char) -> (r: Option<usize>)
    ensures
        match r {
            Some(k) => k < s@.len() && find_char(s@, c) == Some(k as int),
            None => find_char(s@, c) is None,
        },
{
    let n = s.unicode_len();
    let mut i: usize = 0;
    while i < n
        invariant
            0 <= i <= n,
            n == s@.len(),
            forall|j: int| 0 <= j < i ==> s@[j] != c,
        decreases n - i,
    {
        if s.get_char(i) == c {
            proof {
                lemma_find_char_at(s@, c, i as int);
            }
            return Some(i);
        }
        i = i + 1;
    }
    proof {
        lemma_find_char_none(s@, c);
    }
    None
}

/// The target of an alias entry found by a left-to-right walk.
pub proof fn lemma_alias_lookup_at(aliases: Seq<(Seq<char>, Seq<char>)>, name: Seq<char>, k: int)
    requires
        0 <= k < aliases.len(),
        aliases[k].0 == name,
        forall|j: int| 0 <= j < k ==> (#[trigger] aliases[j]).0 != name,
    ensures
        alias_lookup(aliases, name) == Some(aliases[k].1),
    decreases k,
{
    if k > 0 {
        let t = aliases.subrange(1, aliases.len() as int);
        lemma_alias_lookup_at(t, name, k - 1);
    }
}

/// An alias absent from the entries is never found.
pub proof fn lemma_alias_lookup_none(aliases: Seq<(Seq<char>, Seq<char>)>, name: Seq<char>)
    requires
        forall|j: int| 0 <= j < aliases.len() ==> (#[trigger] aliases[j]).0 != name,
    ensures
        alias_lookup(aliases, name) is None,
    decreases aliases.len(),
{
    if aliases.len() > 0 {
        lemma_alias_lookup_none(aliases.subrange(1, aliases.len() as int), name);
    }
}

/// Looks an alias up among the entries declared so far.
fn alias_lookup_exec(aliases: &Vec<(String, String)>, name: &str) -> (r: Option<String>)
    ensures
        match r {
            Some(t) => alias_lookup(pairs_view(aliases@), name@) == Some(t@),
            None => alias_lookup(pairs_view(aliases@), name@) is None,
        },
{
    let mut i: usize = 0;
    while i < aliases.len()
        invariant
            0 <= i <= aliases@.len(),
            forall|j: int| 0 <= j < i ==> (#[trigger] pairs_view(aliases@)[j]).0 != name@,
        decreases aliases@.len() - i,
    {
        if crate::text::str_eq(aliases[i].0.as_str(), name) {
            let t = aliases[i].1.clone();
            proof {
                lemma_alias_lookup_at(pairs_view(aliases@), name@, i as int);
            }
            return Some(t);
        }
        i = i + 1;
    }
    proof {
        lemma_alias_lookup_none(pairs_view(aliases@), name@);
    }
    None
}

/// Whether some rule in the table carries the identifier.
fn rules_contain_exec(rules: &Vec<Rule>, id: &str) -> (r: bool)
    ensures
        r == rules_contain(rules_view(rules@), id@),
{
    let mut i: usize = 0;
    while i < rules.len()
        invariant
            0 <= i <= rules@.len(),
            forall|j: int| 0 <= j < i ==> (#[trigger] rules_view(rules@)[j]).id != id@,
        decreases rules@.len() - i,
    {
        if crate::text::str_eq(rules[i].id.as_str(), id) {
            proof {
                assert(rules_view(rules@)[i as int].id == id@);
            }
            return true;
        }
        i = i + 1;
    }
    proof {
        assert(!rules_contain(rules_view(rules@), id@)) by {
            if rules_contain(rules_view(rules@), id@) {
                let k = choose|k: int|
                    0 <= k < rules_view(rules@).len() && rules_view(rules@)[k].id == id@;
                assert((#[trigger] rules_view(rules@)[k]).id != id@);
            }
        }
    }
    false
}

/// The block found under a name by a left-to-right walk.
pub proof fn lemma_find_block_at(m: crate::block::BlockMapView, name: Seq<char>, k: int)
    requires
        0 <= k < m.blocks.len(),
        m.blocks[k].name == name,
        forall|j: int| 0 <= j < k ==> (#[trigger] m.blocks[j]).name != name,
    ensures
        find_block(m, name) == Some(m.blocks[k]),
    decreases k,
{
    if k > 0 {
        let t = crate::block::BlockMapView {
            file_alias: m.file_alias,
            blocks: m.blocks.subrange(1, m.blocks.len() as int),
        };
        lemma_find_block_at(t, name, k - 1);
    }
}

/// A name no block carries is never found.
pub proof fn lemma_find_block_none(m: crate::block::BlockMapView, name: Seq<char>)
    requires
        forall|j: int| 0 <= j < m.blocks.len() ==> (#[trigger] m.blocks[j]).name != name,
    ensures
        find_block(m, name) is None,
    decreases m.blocks.len(),
{
    if m.blocks.len() > 0 {
        let t = crate::block::BlockMapView {
            file_alias: m.file_alias,
            blocks: m.blocks.subrange(1, m.blocks.len() as int),
        };
        lemma_find_block_none(t, name);
    }
}

/// The aliases a block's import commands declare; see
/// [`spec_block_aliases`].
fn block_aliases(cmds: &Vec<crate::block::BlockCommand>) -> (r: Result<
    Vec<(String, String)>,
    crate::block::BlockParseError,
>)
    ensures
        match r {
            Ok(a) => spec_block_aliases(crate::block::cmds_view(cmds@)) == Ok::<
                Seq<(Seq<char>, Seq<char>)>,
                crate::block::ErrView,
            >(pairs_view(a@)),
            Err(e) => spec_block_aliases(crate::block::cmds_view(cmds@)) == Err::<
                Seq<(Seq<char>, Seq<char>)>,
                crate::block::ErrView,
            >(crate::block::err_view(e)),
        },
{
    proof {
        crate::block::lemma_cmds_view(cmds@);
    }
    let ghost cv = crate::block::cmds_view(cmds@);
    let mut out: Vec<(String, String)> = Vec::new();
    let mut i: usize = 0;
    proof {
        assert(cv.take(0) =~= Seq::<crate::block::CmdView>::empty());
        assert(pairs_view(out@) =~= Seq::<(Seq<char>, Seq<char>)>::empty());
    }
    while i < cmds.len()
        invariant
            0 <= i <= cmds@.len(),
            cv == crate::block::cmds_view(cmds@),
            cv.len() == cmds@.len(),
            forall|j: int| 0 <= j < cmds@.len() ==> cv[j] == crate::block::cmd_view(cmds@[j]),
            spec_block_aliases(cv.take(i as int)) == Ok::<
                Seq<(Seq<char>, Seq<char>)>,
                crate::block::ErrView,
            >(pairs_view(out@)),
        decreases cmds@.len() - i,
    {
        proof {
            assert(cv.take(i + 1).subrange(0, i as int) =~= cv.take(i as int));
            assert(cv.take(i + 1)[i as int] == cv[i as int]);
        }
        match &cmds[i] {
            crate::block::BlockCommand::Use { pos, file_alias, block_id, local_alias } => {
                let mut k: usize = 0;
                let mut dup = false;
                while k < out.len()
                    invariant
                        0 <= k <= out@.len(),
                        dup ==> exists|j: int|
                            0 <= j < out@.len() && (#[trigger] pairs_view(out@)[j]).0
                                == local_alias@,
                        !dup ==> forall|j: int|
                            0 <= j < k ==> (#[trigger] pairs_view(out@)[j]).0 != local_alias@,
                    decreases out@.len() - k,
                {
                    if crate::text::str_eq(out[k].0.as_str(), local_alias.as_str()) {
                        proof {
                            assert((pairs_view(out@)[k as int]).0 == local_alias@);
                        }
                        dup = true;
                    }
                    k = k + 1;
                }
                if dup {
                    proof {
                        lemma_spec_block_aliases_err_extends(cv, i + 1);
                    }
                    return Err(
                        crate::block::BlockParseError::DuplicatedBlockAliasName(
                            pos.line,
                            local_alias.clone(),
                        ),
                    );
                }
                let target: String = if file_alias.as_str().unicode_len() == 0 {
                    block_id.clone()
                } else {
                    proof {
                        reveal_strlit(".");
                    }
                    let mut t = file_alias.clone();
                    t.append(".");
                    t.append(block_id.as_str());
                    t
                };
                proof {
                    assert(target@ == alias_target(file_alias@, block_id@));
                }
                let ghost old_out = out@;
                let alias_name = local_alias.clone();
                out.push((alias_name, target));
                proof {
                    assert(pairs_view(out@) =~= pairs_view(old_out).push(
                        (local_alias@, out@[out@.len() - 1].1@),
                    ));
                }
            },
            _ => {},
        }
        i = i + 1;
    }
    proof {
        assert(cv.take(i as int) =~= cv);
    }
    Ok(out)
}

/// A failed prefix decides the whole alias walk.
proof fn lemma_spec_block_aliases_err_extends(s: Seq<crate::block::CmdView>, i: int)
    requires
        0 <= i <= s.len(),
        spec_block_aliases(s.take(i)) is Err,
    ensures
        spec_block_aliases(s) == spec_block_aliases(s.take(i)),
    decreases s.len() - i,
{
    if i < s.len() {
        assert(s.take(i + 1).subrange(0, i) =~= s.take(i));
        assert(s.take(i + 1)[i] == s[i]);
        lemma_spec_block_aliases_err_extends(s, i + 1);
    } else {
        assert(s.take(i) =~= s);
    }
}

/// A failed prefix decides the whole argument-group walk.
proof fn lemma_resolve_groups_err_extends(
    s: Seq<GroupView>,
    file_alias: Seq<char>,
    block_name: Seq<char>,
    aliases: Seq<(Seq<char>, Seq<char>)>,
    i: int,
)
    requires
        0 <= i <= s.len(),
        spec_resolve_groups(s.take(i), file_alias, block_name, aliases) is Err,
    ensures
        spec_resolve_groups(s, file_alias, block_name, aliases) == spec_resolve_groups(
            s.take(i),
            file_alias,
            block_name,
            aliases,
        ),
    decreases s.len() - i,
{
    if i < s.len() {
        assert(s.take(i + 1).subrange(0, i) =~= s.take(i));
        assert(s.take(i + 1)[i] == s[i]);
        lemma_resolve_groups_err_extends(s, file_alias, block_name, aliases, i + 1);
    } else {
        assert(s.take(i) =~= s);
    }
}

/// A failed prefix decides the whole element walk.
proof fn lemma_resolve_elems_err_extends(
    s: Seq<ElemView>,
    file_alias: Seq<char>,
    block_name: Seq<char>,
    aliases: Seq<(Seq<char>, Seq<char>)>,
    i: int,
)
    requires
        0 <= i <= s.len(),
        spec_resolve_elems(s.take(i), file_alias, block_name, aliases) is Err,
    ensures
        spec_resolve_elems(s, file_alias, block_name, aliases) == spec_resolve_elems(
            s.take(i),
            file_alias,
            block_name,
            aliases,
        ),
    decreases s.len() - i,
{
    if i < s.len() {
        assert(s.take(i + 1).subrange(0, i) =~= s.take(i));
        assert(s.take(i + 1)[i] == s[i]);
        lemma_resolve_elems_err_extends(s, file_alias, block_name, aliases, i + 1);
    } else {
        assert(s.take(i) =~= s);
    }
}

/// Builds a fully-qualified identifier; see [`qualified_id`].
fn qualify(file_alias: &str, block_name: &str, name: &str) -> (r: String)
    ensures
        r@ == qualified_id(file_alias@, block_name@, name@),
{
    proof {
        reveal_strlit(".");
    }
    let mut out: String;
    if file_alias.unicode_len() == 0 {
        out = block_name.to_owned();
    } else {
        out = file_alias.to_owned();
        out.append(".");
        out.append(block_name);
    }
    out.append(".");
    out.append(name);
    proof {
        assert(out@ =~= qualified_id(file_alias@, block_name@, name@));
    }
    out
}

/// Resolves one rule reference; see [`spec_resolve_id`].
fn resolve_id(
    value: &str,
    line: usize,
    file_alias: &str,
    block_name: &str,
    aliases: &Vec<(String, String)>,
) -> (r: Result<String, crate::block::BlockParseError>)
    ensures
        match r {
            Ok(v) => spec_resolve_id(value@, line, file_alias@, block_name@, pairs_view(aliases@))
                == Ok::<Seq<char>, crate::block::ErrView>(v@),
            Err(e) => spec_resolve_id(
                value@,
                line,
                file_alias@,
                block_name@,
                pairs_view(aliases@),
            ) == Err::<Seq<char>, crate::block::ErrView>(crate::block::err_view(e)),
        },
{
    proof {
        reveal_strlit(".");
    }
    match char_index(value, '.') {
        None => Ok(qualify(file_alias, block_name, value)),
        Some(k) => {
            let n = value.unicode_len();
            let head = value.substring_char(0, k);
            let rest = value.substring_char(k + 1, n);
            proof {
                assert(head@ =~= value@.take(k as int));
                assert(rest@ =~= value@.skip(k + 1));
            }
            match alias_lookup_exec(aliases, head) {
                Some(target) => {
                    let mut out = target;
                    out.append(".");
                    out.append(rest);
                    proof {
                        assert(out@ =~= alias_lookup(pairs_view(aliases@), value@.take(k as int))->0
                            + "."@ + value@.skip(k + 1));
                    }
                    Ok(out)
                },
                None => Err(crate::block::BlockParseError::BlockAliasNotFound(
                    line,
                    head.to_owned(),
                )),
            }
        },
    }
}

/// Resolves the references inside one expression; see
/// [`spec_resolve_expr`].
fn resolve_expr(
    x: &RuleExpression,
    file_alias: &str,
    block_name: &str,
    aliases: &Vec<(String, String)>,
) -> (r: Result<RuleExpression, crate::block::BlockParseError>)
    ensures
        match r {
            Ok(v) => spec_resolve_expr(x@, file_alias@, block_name@, pairs_view(aliases@)) == Ok::<
                ExprView,
                crate::block::ErrView,
            >(v@),
            Err(e) => spec_resolve_expr(x@, file_alias@, block_name@, pairs_view(aliases@))
                == Err::<ExprView, crate::block::ErrView>(crate::block::err_view(e)),
        },
    decreases *x, 1int,
{
    match &x.kind {
        RuleExpressionKind::ID => {
            match resolve_id(x.value.as_str(), x.pos.line, file_alias, block_name, aliases) {
                Ok(v) => {
                    let out = RuleExpression {
                        pos: x.pos,
                        kind: RuleExpressionKind::ID,
                        value: v,
                        ast_reflection_style: x.ast_reflection_style.clone(),
                        lookahead_kind: x.lookahead_kind,
                        loop_count: x.loop_count,
                    };
                    proof {
                        assert(out@ =~= (ExprView { value: out.value@, ..x@ }));
                    }
                    Ok(out)
                },
                Err(e) => Err(e),
            }
        },
        RuleExpressionKind::Func(args) => {
            match resolve_groups(args, file_alias, block_name, aliases, Ghost(x)) {
                Ok(rs) => {
                    let out = RuleExpression {
                        pos: x.pos,
                        kind: RuleExpressionKind::Func(rs),
                        value: x.value.clone(),
                        ast_reflection_style: x.ast_reflection_style.clone(),
                        lookahead_kind: x.lookahead_kind,
                        loop_count: x.loop_count,
                    };
                    proof {
                        assert(out@ =~= (ExprView {
                            kind: ExprKindView::Func(expr_kind_view(out.kind)->Func_0),
                            ..x@
                        }));
                    }
                    Ok(out)
                },
                Err(e) => Err(e),
            }
        },
        RuleExpressionKind::Generics(args) => {
            match resolve_groups(args, file_alias, block_name, aliases, Ghost(x)) {
                Ok(rs) => {
                    let out = RuleExpression {
                        pos: x.pos,
                        kind: RuleExpressionKind::Generics(rs),
                        value: x.value.clone(),
                        ast_reflection_style: x.ast_reflection_style.clone(),
                        lookahead_kind: x.lookahead_kind,
                        loop_count: x.loop_count,
                    };
                    proof {
                        assert(out@ =~= (ExprView {
                            kind: ExprKindView::Generics(expr_kind_view(out.kind)->Generics_0),
                            ..x@
                        }));
                    }
                    Ok(out)
                },
                Err(e) => Err(e),
            }
        },
        _ => {
            let out = x.clone();
            proof {
                assert(spec_resolve_expr(x@, file_alias@, block_name@, pairs_view(aliases@))
                    == Ok::<ExprView, crate::block::ErrView>(x@));
            }
            Ok(out)
        },
    }
}

/// Resolves the references inside a list of argument groups; see
/// [`spec_resolve_groups`].
fn resolve_groups(
    args: &Vec<RuleGroup>,
    file_alias: &str,
    block_name: &str,
    aliases: &Vec<(String, String)>,
    parent: Ghost<&RuleExpression>,
) -> (r: Result<Vec<RuleGroup>, crate::block::BlockParseError>)
    requires
        parent@.kind == (RuleExpressionKind::Func(*args)) || parent@.kind == (
        RuleExpressionKind::Generics(*args)),
    ensures
        match r {
            Ok(rs) => spec_resolve_groups(
                groups_view(args@),
                file_alias@,
                block_name@,
                pairs_view(aliases@),
            ) == Ok::<Seq<GroupView>, crate::block::ErrView>(groups_view(rs@)),
            Err(e) => spec_resolve_groups(
                groups_view(args@),
                file_alias@,
                block_name@,
                pairs_view(aliases@),
            ) == Err::<Seq<GroupView>, crate::block::ErrView>(crate::block::err_view(e)),
        },
    decreases *parent@, 0int,
{
    broadcast use lemma_groups_view;

    let ghost gv = groups_view(args@);
    let mut out: Vec<RuleGroup> = Vec::new();
    let mut i: usize = 0;
    proof {
        assert(gv.take(0) =~= Seq::<GroupView>::empty());
        assert(groups_view(out@) =~= Seq::<GroupView>::empty());
    }
    while i < args.len()
        invariant
            0 <= i <= args@.len(),
            parent@.kind == (RuleExpressionKind::Func(*args)) || parent@.kind == (
            RuleExpressionKind::Generics(*args)),
            gv == groups_view(args@),
            gv.len() == args@.len(),
            forall|j: int| 0 <= j < args@.len() ==> gv[j] == group_view(args@[j]),
            spec_resolve_groups(gv.take(i as int), file_alias@, block_name@, pairs_view(aliases@))
                == Ok::<Seq<GroupView>, crate::block::ErrView>(groups_view(out@)),
        decreases args@.len() - i,
    {
        proof {
            assert(gv.take(i + 1).subrange(0, i as int) =~= gv.take(i as int));
            assert(gv.take(i + 1)[i as int] == gv[i as int]);
            if parent@.kind is Func {
                assert(decreases_to!(*parent@ => parent@.kind));
                assert(decreases_to!(parent@.kind => parent@.kind->Func_0));
                assert(decreases_to!(*args => args@[i as int]));
            } else {
                assert(decreases_to!(*parent@ => parent@.kind));
                assert(decreases_to!(parent@.kind => parent@.kind->Generics_0));
                assert(decreases_to!(*args => args@[i as int]));
            }
            assert(decreases_to!(*parent@ => args@[i as int]));
        }
        match resolve_group(&args[i], file_alias, block_name, aliases) {
            Ok(g) => {
                let ghost old_out = out@;
                out.push(g);
                proof {
                    lemma_groups_view(out@);
                    lemma_groups_view(old_out);
                    assert(groups_view(out@) =~= groups_view(old_out).push(
                        group_view(out@[out@.len() - 1]),
                    ));
                }
            },
            Err(e) => {
                proof {
                    lemma_resolve_groups_err_extends(
                        gv,
                        file_alias@,
                        block_name@,
                        pairs_view(aliases@),
                        i + 1,
                    );
                }
                return Err(e);
            },
        }
        i = i + 1;
    }
    proof {
        assert(gv.take(i as int) =~= gv);
    }
    Ok(out)
}

/// Resolves the references inside one element; see
/// [`spec_resolve_elem`].
fn resolve_elem(
    e: &RuleElement,
    file_alias: &str,
    block_name: &str,
    aliases: &Vec<(String, String)>,
) -> (r: Result<RuleElement, crate::block::BlockParseError>)
    ensures
        match r {
            Ok(v) => spec_resolve_elem(e@, file_alias@, block_name@, pairs_view(aliases@)) == Ok::<
                ElemView,
                crate::block::ErrView,
            >(v@),
            Err(err) => spec_resolve_elem(e@, file_alias@, block_name@, pairs_view(aliases@))
                == Err::<ElemView, crate::block::ErrView>(crate::block::err_view(err)),
        },
    decreases *e, 0int,
{
    match e {
        RuleElement::Group(g) => match resolve_group(g, file_alias, block_name, aliases) {
            Ok(v) => Ok(RuleElement::Group(v)),
            Err(err) => Err(err),
        },
        RuleElement::Expression(x) => match resolve_expr(x, file_alias, block_name, aliases) {
            Ok(v) => Ok(RuleElement::Expression(v)),
            Err(err) => Err(err),
        },
    }
}

/// Resolves the references inside one group; see
/// [`spec_resolve_group`].
fn resolve_group(
    g: &RuleGroup,
    file_alias: &str,
    block_name: &str,
    aliases: &Vec<(String, String)>,
) -> (r: Result<RuleGroup, crate::block::BlockParseError>)
    ensures
        match r {
            Ok(v) => spec_resolve_group(g@, file_alias@, block_name@, pairs_view(aliases@))
                == Ok::<GroupView, crate::block::ErrView>(v@),
            Err(e) => spec_resolve_group(g@, file_alias@, block_name@, pairs_view(aliases@))
                == Err::<GroupView, crate::block::ErrView>(crate::block::err_view(e)),
        },
    decreases *g, 0int,
{
    broadcast use lemma_elems_view;

    let ghost ev = elems_view(g.sub_elems@);
    let mut elems: Vec<RuleElement> = Vec::new();
    let mut i: usize = 0;
    proof {
        assert(ev.take(0) =~= Seq::<ElemView>::empty());
        assert(elems_view(elems@) =~= Seq::<ElemView>::empty());
    }
    while i < g.sub_elems.len()
        invariant
            0 <= i <= g.sub_elems@.len(),
            ev == elems_view(g.sub_elems@),
            ev.len() == g.sub_elems@.len(),
            forall|j: int| 0 <= j < g.sub_elems@.len() ==> ev[j] == elem_view(g.sub_elems@[j]),
            spec_resolve_elems(ev.take(i as int), file_alias@, block_name@, pairs_view(aliases@))
                == Ok::<Seq<ElemView>, crate::block::ErrView>(elems_view(elems@)),
        decreases g.sub_elems@.len() - i,
    {
        proof {
            assert(ev.take(i + 1).subrange(0, i as int) =~= ev.take(i as int));
            assert(ev.take(i + 1)[i as int] == ev[i as int]);
        }
        match resolve_elem(&g.sub_elems[i], file_alias, block_name, aliases) {
            Ok(el) => {
                let ghost old_elems = elems@;
                elems.push(el);
                proof {
                    lemma_elems_view(elems@);
                    lemma_elems_view(old_elems);
                    assert(elems_view(elems@) =~= elems_view(old_elems).push(
                        elem_view(elems@[elems@.len() - 1]),
                    ));
                }
            },
            Err(e) => {
                proof {
                    lemma_resolve_elems_err_extends(
                        ev,
                        file_alias@,
                        block_name@,
                        pairs_view(aliases@),
                        i + 1,
                    );
                }
                return Err(e);
            },
        }
        i = i + 1;
    }
    proof {
        assert(ev.take(i as int) =~= ev);
    }
    let out = RuleGroup {
        kind: g.kind,
        sub_elems: elems,
        ast_reflection_style: g.ast_reflection_style.clone(),
        lookahead_kind: g.lookahead_kind,
        loop_count: g.loop_count,
        elem_order: g.elem_order,
    };
    proof {
        assert(out@ =~= (GroupView { sub_elems: elems_view(out.sub_elems@), ..g@ }));
    }
    Ok(out)
}

/// Qualifies and resolves one defined rule; see [`spec_resolve_rule`].
fn resolve_rule(
    rule: &Rule,
    file_alias: &str,
    block_name: &str,
    aliases: &Vec<(String, String)>,
) -> (r: Result<Rule, crate::block::BlockParseError>)
    ensures
        match r {
            Ok(v) => spec_resolve_rule(rule@, file_alias@, block_name@, pairs_view(aliases@))
                == Ok::<RuleView, crate::block::ErrView>(v@),
            Err(e) => spec_resolve_rule(rule@, file_alias@, block_name@, pairs_view(aliases@))
                == Err::<RuleView, crate::block::ErrView>(crate::block::err_view(e)),
        },
{
    match resolve_group(&rule.group, file_alias, block_name, aliases) {
        Ok(g) => {
            let out = Rule {
                pos: rule.pos,
                id: qualify(file_alias, block_name, rule.name.as_str()),
                name: rule.name.clone(),
                generics_arg_ids: clone_strings(&rule.generics_arg_ids),
                func_arg_ids: clone_strings(&rule.func_arg_ids),
                group: g,
            };
            proof {
                assert(out@ =~= (RuleView {
                    id: qualified_id(file_alias@, block_name@, rule@.name),
                    group: out.group@,
                    ..rule@
                }));
            }
            Ok(out)
        },
        Err(e) => Err(e),
    }
}

/// The views of a sequence of block maps, in order.
pub open spec fn maps_view(s: Seq<crate::block::BlockMap>) -> Seq<crate::block::BlockMapView> {
    Seq::new(s.len(), |i: int| s[i]@)
}

/// The identifiers a sequence of start commands point at, in order.
pub open spec fn start_targets(sv: Seq<crate::block::CmdView>) -> Seq<Seq<char>> {
    Seq::new(sv.len(), |i: int| start_target(sv[i]))
}

/// A failed prefix decides the whole command placement scan.
proof fn lemma_scan_cmds_err_extends(
    s: Seq<crate::block::CmdView>,
    is_main_block: bool,
    is_root_map: bool,
    i: int,
)
    requires
        0 <= i <= s.len(),
        spec_scan_cmds(s.take(i), is_main_block, is_root_map) is Err,
    ensures
        spec_scan_cmds(s, is_main_block, is_root_map) == spec_scan_cmds(
            s.take(i),
            is_main_block,
            is_root_map,
        ),
    decreases s.len() - i,
{
    if i < s.len() {
        assert(s.take(i + 1).subrange(0, i) =~= s.take(i));
        assert(s.take(i + 1)[i] == s[i]);
        lemma_scan_cmds_err_extends(s, is_main_block, is_root_map, i + 1);
    } else {
        assert(s.take(i) =~= s);
    }
}

/// A failed prefix decides the whole block placement scan.
proof fn lemma_scan_blocks_err_extends(
    s: Seq<crate::block::BlockView>,
    is_root_map: bool,
    i: int,
)
    requires
        0 <= i <= s.len(),
        spec_scan_blocks(s.take(i), is_root_map) is Err,
    ensures
        spec_scan_blocks(s, is_root_map) == spec_scan_blocks(s.take(i), is_root_map),
    decreases s.len() - i,
{
    if i < s.len() {
        assert(s.take(i + 1).subrange(0, i) =~= s.take(i));
        assert(s.take(i + 1)[i] == s[i]);
        lemma_scan_blocks_err_extends(s, is_root_map, i + 1);
    } else {
        assert(s.take(i) =~= s);
    }
}

/// A failed prefix decides the whole file placement scan.
proof fn lemma_scan_nonroot_err_extends(s: Seq<crate::block::BlockMapView>, i: int)
    requires
        0 <= i <= s.len(),
        spec_scan_nonroot(s.take(i)) is Err,
    ensures
        spec_scan_nonroot(s) == spec_scan_nonroot(s.take(i)),
    decreases s.len() - i,
{
    if i < s.len() {
        assert(s.take(i + 1).subrange(0, i) =~= s.take(i));
        assert(s.take(i + 1)[i] == s[i]);
        lemma_scan_nonroot_err_extends(s, i + 1);
    } else {
        assert(s.take(i) =~= s);
    }
}

/// Scans one block's commands for placement errors and collects the
/// targets of its legal start commands; see [`spec_scan_cmds`].
fn scan_cmds(
    cmds: &Vec<crate::block::BlockCommand>,
    is_main_block: bool,
    is_root_map: bool,
) -> (r: Result<Vec<String>, crate::block::BlockParseError>)
    ensures
        match r {
            Ok(ts) => spec_scan_cmds(crate::block::cmds_view(cmds@), is_main_block, is_root_map)
                is Ok && strs_view(ts@) == start_targets(
                spec_scan_cmds(crate::block::cmds_view(cmds@), is_main_block, is_root_map)->Ok_0,
            ),
            Err(e) => spec_scan_cmds(crate::block::cmds_view(cmds@), is_main_block, is_root_map)
                == Err::<Seq<crate::block::CmdView>, crate::block::ErrView>(
                crate::block::err_view(e),
            ),
        },
{
    proof {
        crate::block::lemma_cmds_view(cmds@);
    }
    let ghost cv = crate::block::cmds_view(cmds@);
    let mut out: Vec<String> = Vec::new();
    let mut i: usize = 0;
    proof {
        assert(cv.take(0) =~= Seq::<crate::block::CmdView>::empty());
        assert(strs_view(out@) =~= start_targets(
            spec_scan_cmds(cv.take(0), is_main_block, is_root_map)->Ok_0,
        ));
    }
    while i < cmds.len()
        invariant
            0 <= i <= cmds@.len(),
            cv == crate::block::cmds_view(cmds@),
            cv.len() == cmds@.len(),
            forall|j: int| 0 <= j < cmds@.len() ==> cv[j] == crate::block::cmd_view(cmds@[j]),
            spec_scan_cmds(cv.take(i as int), is_main_block, is_root_map) is Ok,
            strs_view(out@) == start_targets(
                spec_scan_cmds(cv.take(i as int), is_main_block, is_root_map)->Ok_0,
            ),
        decreases cmds@.len() - i,
    {
        proof {
            assert(cv.take(i + 1).subrange(0, i as int) =~= cv.take(i as int));
            assert(cv.take(i + 1)[i as int] == cv[i as int]);
        }
        match &cmds[i] {
            crate::block::BlockCommand::Define { .. } => {
                if is_main_block {
                    proof {
                        lemma_scan_cmds_err_extends(cv, is_main_block, is_root_map, i + 1);
                    }
                    return Err(crate::block::BlockParseError::RuleInMainBlock);
                }
            },
            crate::block::BlockCommand::Start { pos: _, file_alias, block_id, rule_id } => {
                if is_main_block && is_root_map {
                    let t = qualify(file_alias.as_str(), block_id.as_str(), rule_id.as_str());
                    let ghost old_out = out@;
                    out.push(t);
                    proof {
                        let prefix = spec_scan_cmds(
                            cv.take(i as int),
                            is_main_block,
                            is_root_map,
                        )->Ok_0;
                        let cvi = cv[i as int];
                        assert(start_target(cvi) == qualified_id(file_alias@, block_id@, rule_id@));
                        assert(spec_scan_cmds(cv.take(i + 1), is_main_block, is_root_map) == Ok::<
                            Seq<crate::block::CmdView>,
                            crate::block::ErrView,
                        >(prefix.push(cvi)));
                        assert(out@ == old_out.push(t));
                        assert(strs_view(old_out).len() == old_out.len());
                        assert(start_targets(prefix).len() == prefix.len());
                        assert(old_out.len() == prefix.len());
                        assert(strs_view(out@).len() == out@.len());
                        assert(start_targets(prefix.push(cvi)).len() == prefix.len() + 1);
                        assert forall|j: int| 0 <= j < out@.len() implies strs_view(out@)[j]
                            == start_targets(prefix.push(cvi))[j] by {
                            if j < old_out.len() {
                                assert(strs_view(old_out)[j] == start_targets(prefix)[j]);
                            }
                        }
                        assert(strs_view(out@) =~= start_targets(prefix.push(cvi)));
                    }
                } else {
                    proof {
                        lemma_scan_cmds_err_extends(cv, is_main_block, is_root_map, i + 1);
                    }
                    return Err(crate::block::BlockParseError::StartCmdOutsideMainBlock);
                }
            },
            crate::block::BlockCommand::Use { .. } => {},
        }
        i = i + 1;
    }
    proof {
        assert(cv.take(i as int) =~= cv);
    }
    Ok(out)
}

/// Scans one file's blocks; see [`spec_scan_blocks`].
fn scan_blocks(blocks: &Vec<crate::block::Block>, is_root_map: bool) -> (r: Result<
    Vec<String>,
    crate::block::BlockParseError,
>)
    ensures
        match r {
            Ok(ts) => spec_scan_blocks(crate::block::blocks_view(blocks@), is_root_map) is Ok
                && strs_view(ts@) == start_targets(
                spec_scan_blocks(crate::block::blocks_view(blocks@), is_root_map)->Ok_0,
            ),
            Err(e) => spec_scan_blocks(crate::block::blocks_view(blocks@), is_root_map) == Err::<
                Seq<crate::block::CmdView>,
                crate::block::ErrView,
            >(crate::block::err_view(e)),
        },
{
    proof {
        crate::block::lemma_blocks_view(blocks@);
        reveal_strlit("Main");
    }
    let ghost bv = crate::block::blocks_view(blocks@);
    let mut out: Vec<String> = Vec::new();
    let mut i: usize = 0;
    proof {
        assert(bv.take(0) =~= Seq::<crate::block::BlockView>::empty());
        assert(strs_view(out@) =~= start_targets(spec_scan_blocks(bv.take(0), is_root_map)->Ok_0));
    }
    while i < blocks.len()
        invariant
            0 <= i <= blocks@.len(),
            bv == crate::block::blocks_view(blocks@),
            bv.len() == blocks@.len(),
            forall|j: int|
                0 <= j < blocks@.len() ==> bv[j] == crate::block::block_view(blocks@[j]),
            spec_scan_blocks(bv.take(i as int), is_root_map) is Ok,
            strs_view(out@) == start_targets(spec_scan_blocks(bv.take(i as int), is_root_map)->Ok_0),
        decreases blocks@.len() - i,
    {
        proof {
            assert(bv.take(i + 1).subrange(0, i as int) =~= bv.take(i as int));
            assert(bv.take(i + 1)[i as int] == bv[i as int]);
        }
        let is_main = crate::text::str_eq(blocks[i].name.as_str(), "Main");
        match scan_cmds(&blocks[i].cmds, is_main, is_root_map) {
            Ok(ts) => {
                let ghost old_out = out@;
                let ghost added = spec_scan_cmds(bv[i as int].cmds, is_main, is_root_map)->Ok_0;
                let mut k: usize = 0;
                while k < ts.len()
                    invariant
                        0 <= k <= ts@.len(),
                        strs_view(ts@) == start_targets(added),
                        out@.len() == old_out.len() + k,
                        forall|j: int| 0 <= j < old_out.len() ==> out@[j] == old_out[j],
                        forall|j: int|
                            0 <= j < k ==> out@[old_out.len() + j]@ == start_targets(added)[j],
                    decreases ts@.len() - k,
                {
                    let t = ts[k].clone();
                    out.push(t);
                    k = k + 1;
                }
                proof {
                    let prefix = spec_scan_blocks(bv.take(i as int), is_root_map)->Ok_0;
                    assert(bv[i as int].name == blocks@[i as int].name@);
                    assert(spec_scan_blocks(bv.take(i + 1), is_root_map) == Ok::<
                        Seq<crate::block::CmdView>,
                        crate::block::ErrView,
                    >(prefix + added));
                    assert(strs_view(old_out).len() == old_out.len());
                    assert(start_targets(prefix).len() == prefix.len());
                    assert(old_out.len() == prefix.len());
                    assert(strs_view(ts@).len() == ts@.len());
                    assert(start_targets(added).len() == added.len());
                    assert(ts@.len() == added.len());
                    assert(strs_view(out@).len() == out@.len());
                    assert(start_targets(prefix + added).len() == prefix.len() + added.len());
                    assert forall|j: int| 0 <= j < out@.len() implies strs_view(out@)[j]
                        == start_targets(prefix + added)[j] by {
                        if j < old_out.len() {
                            assert(out@[j] == old_out[j]);
                            assert(strs_view(old_out)[j] == start_targets(prefix)[j]);
                            assert((prefix + added)[j] == prefix[j]);
                        } else {
                            assert(out@[j]@ == start_targets(added)[j - old_out.len()]);
                            assert((prefix + added)[j] == added[j - prefix.len()]);
                        }
                    }
                    assert(strs_view(out@) =~= start_targets(prefix + added));
                }
            },
            Err(e) => {
                proof {
                    lemma_scan_blocks_err_extends(bv, is_root_map, i + 1);
                }
                return Err(e);
            },
        }
        i = i + 1;
    }
    proof {
        assert(bv.take(i as int) =~= bv);
    }
    Ok(out)
}

/// Finds the designated start rule of a compilation; see
/// [`spec_find_start`].
fn find_start(block_maps: &Vec<crate::block::BlockMap>) -> (r: Result<
    String,
    crate::block::BlockParseError,
>)
    ensures
        match r {
            Ok(v) => spec_find_start(maps_view(block_maps@)) == Ok::<
                Seq<char>,
                crate::block::ErrView,
            >(v@),
            Err(e) => spec_find_start(maps_view(block_maps@)) == Err::<
                Seq<char>,
                crate::block::ErrView,
            >(crate::block::err_view(e)),
        },
{
    let ghost mv = maps_view(block_maps@);
    if block_maps.len() == 0 {
        return Err(crate::block::BlockParseError::MainBlockNotFound);
    }
    let root = &block_maps[block_maps.len() - 1];
    proof {
        assert(mv[mv.len() - 1] == root@);
        crate::block::lemma_blocks_view(root.blocks@);
    }
    let mut has_main = false;
    let mut i: usize = 0;
    while i < root.blocks.len()
        invariant
            0 <= i <= root.blocks@.len(),
            root@.blocks.len() == root.blocks@.len(),
            forall|j: int|
                0 <= j < root.blocks@.len() ==> root@.blocks[j] == crate::block::block_view(
                    root.blocks@[j],
                ),
            has_main ==> find_block(root@, "Main"@) is Some,
            !has_main ==> forall|j: int|
                0 <= j < i ==> (#[trigger] root@.blocks[j]).name != "Main"@,
        decreases root.blocks@.len() - i,
    {
        if !has_main && crate::text::str_eq(root.blocks[i].name.as_str(), "Main") {
            proof {
                lemma_find_block_at(root@, "Main"@, i as int);
            }
            has_main = true;
        }
        i = i + 1;
    }
    if !has_main {
        proof {
            lemma_find_block_none(root@, "Main"@);
        }
        return Err(crate::block::BlockParseError::MainBlockNotFound);
    }
    let ghost nonroot = mv.subrange(0, mv.len() - 1);
    let mut m: usize = 0;
    proof {
        assert(nonroot.take(0) =~= Seq::<crate::block::BlockMapView>::empty());
    }
    while m < block_maps.len() - 1
        invariant
            0 <= m <= block_maps@.len() - 1,
            mv == maps_view(block_maps@),
            mv.len() == block_maps@.len(),
            forall|j: int| 0 <= j < block_maps@.len() ==> mv[j] == block_maps@[j]@,
            nonroot == mv.subrange(0, mv.len() - 1),
            find_block(mv[mv.len() - 1], "Main"@) is Some,
            mv.len() >= 1,
            spec_scan_nonroot(nonroot.take(m as int)) is Ok,
        decreases block_maps@.len() - 1 - m,
    {
        proof {
            assert(nonroot.take(m + 1).subrange(0, m as int) =~= nonroot.take(m as int));
            assert(nonroot.take(m + 1)[m as int] == nonroot[m as int]);
            assert(nonroot[m as int] == mv[m as int]);
        }
        match scan_blocks(&block_maps[m].blocks, false) {
            Ok(_) => {},
            Err(e) => {
                proof {
                    lemma_scan_nonroot_err_extends(nonroot, m + 1);
                }
                return Err(e);
            },
        }
        m = m + 1;
    }
    proof {
        assert(nonroot.take(m as int) =~= nonroot);
    }
    let starts = match scan_blocks(&root.blocks, true) {
        Ok(ts) => ts,
        Err(e) => {
            return Err(e);
        },
    };
    if starts.len() == 0 {
        proof {
            assert(start_targets(spec_scan_blocks(root@.blocks, true)->Ok_0).len() == 0);
        }
        return Err(crate::block::BlockParseError::NoStartCmdInMainBlock);
    }
    proof {
        assert(mv.len() > 0);
        assert(mv[mv.len() - 1] == root@);
        assert(find_block(mv[mv.len() - 1], "Main"@) is Some);
        assert(spec_scan_nonroot(mv.subrange(0, mv.len() - 1)) is Ok);
        assert(spec_scan_blocks(mv[mv.len() - 1].blocks, true) is Ok);
        assert(strs_view(starts@).len() == start_targets(
            spec_scan_blocks(root@.blocks, true)->Ok_0,
        ).len());
    }
    if starts.len() > 1 {
        return Err(crate::block::BlockParseError::DuplicatedStartCmd);
    }
    let t = starts[0].clone();
    proof {
        assert(t@ == strs_view(starts@)[0]);
        assert(t@ == start_targets(spec_scan_blocks(root@.blocks, true)->Ok_0)[0]);
        assert(t@ == start_target(spec_scan_blocks(root@.blocks, true)->Ok_0[0]));
    }
    Ok(t)
}

/// A failed prefix decides the whole definition walk.
proof fn lemma_add_block_rules_err_extends(
    acc: Seq<RuleView>,
    s: Seq<crate::block::CmdView>,
    file_alias: Seq<char>,
    block_name: Seq<char>,
    aliases: Seq<(Seq<char>, Seq<char>)>,
    i: int,
)
    requires
        0 <= i <= s.len(),
        spec_add_block_rules(acc, s.take(i), file_alias, block_name, aliases) is Err,
    ensures
        spec_add_block_rules(acc, s, file_alias, block_name, aliases) == spec_add_block_rules(
            acc,
            s.take(i),
            file_alias,
            block_name,
            aliases,
        ),
    decreases s.len() - i,
{
    if i < s.len() {
        assert(s.take(i + 1).subrange(0, i) =~= s.take(i));
        assert(s.take(i + 1)[i] == s[i]);
        lemma_add_block_rules_err_extends(acc, s, file_alias, block_name, aliases, i + 1);
    } else {
        assert(s.take(i) =~= s);
    }
}

/// A failed prefix decides the whole block walk.
proof fn lemma_add_map_rules_err_extends(
    acc: Seq<RuleView>,
    s: Seq<crate::block::BlockView>,
    file_alias: Seq<char>,
    i: int,
)
    requires
        0 <= i <= s.len(),
        spec_add_map_rules(acc, s.take(i), file_alias) is Err,
    ensures
        spec_add_map_rules(acc, s, file_alias) == spec_add_map_rules(acc, s.take(i), file_alias),
    decreases s.len() - i,
{
    if i < s.len() {
        assert(s.take(i + 1).subrange(0, i) =~= s.take(i));
        assert(s.take(i + 1)[i] == s[i]);
        lemma_add_map_rules_err_extends(acc, s, file_alias, i + 1);
    } else {
        assert(s.take(i) =~= s);
    }
}

/// A failed prefix decides the whole file walk.
proof fn lemma_collect_rules_err_extends(s: Seq<crate::block::BlockMapView>, i: int)
    requires
        0 <= i <= s.len(),
        spec_collect_rules(s.take(i)) is Err,
    ensures
        spec_collect_rules(s) == spec_collect_rules(s.take(i)),
    decreases s.len() - i,
{
    if i < s.len() {
        assert(s.take(i + 1).subrange(0, i) =~= s.take(i));
        assert(s.take(i + 1)[i] == s[i]);
        lemma_collect_rules_err_extends(s, i + 1);
    } else {
        assert(s.take(i) =~= s);
    }
}

/// The flat rule table: every compiled rule under its fully-qualified
/// identifier, in insertion order, and the designated start rule.
/// Built once per compilation by [`RuleMap::new`], then immutable.
#[derive(Debug)]
pub struct RuleMap {
    pub rules: Vec<Rule>,
    pub start_rule_id: String,
}

impl View for RuleMap {
    type V = RuleMapView;

    open spec fn view(&self) -> RuleMapView {
        RuleMapView { rules: rules_view(self.rules@), start_rule_id: self.start_rule_id@ }
    }
}

impl RuleMap {
    /// Assembles the rule table of a compilation from its files' block
    /// maps, given in dependency order with the root file last; see
    /// [`spec_rule_map`]. Every rule identifier is qualified and every
    /// reference resolved; a duplicate rule identifier, a misplaced or
    /// missing start command, a duplicate import alias or an unknown
    /// alias each fail with their own error.
    pub fn new(block_maps: Vec<crate::block::BlockMap>) -> (r: Result<
        RuleMap,
        crate::block::BlockParseError,
    >)
        ensures
            match r {
                Ok(m) => spec_rule_map(maps_view(block_maps@)) == Ok::<
                    RuleMapView,
                    crate::block::ErrView,
                >(m@),
                Err(e) => spec_rule_map(maps_view(block_maps@)) == Err::<
                    RuleMapView,
                    crate::block::ErrView,
                >(crate::block::err_view(e)),
            },
    {
        let start_rule_id = match find_start(&block_maps) {
            Ok(v) => v,
            Err(e) => {
                return Err(e);
            },
        };
        let rules = match RuleMap::to_rule_map(&block_maps) {
            Ok(v) => v,
            Err(e) => {
                return Err(e);
            },
        };
        Ok(RuleMap { rules, start_rule_id })
    }

    /// Collects, qualifies and resolves every defined rule; see
    /// [`spec_collect_rules`].
    fn to_rule_map(block_maps: &Vec<crate::block::BlockMap>) -> (r: Result<
        Vec<Rule>,
        crate::block::BlockParseError,
    >)
        ensures
            match r {
                Ok(rs) => spec_collect_rules(maps_view(block_maps@)) == Ok::<
                    Seq<RuleView>,
                    crate::block::ErrView,
                >(rules_view(rs@)),
                Err(e) => spec_collect_rules(maps_view(block_maps@)) == Err::<
                    Seq<RuleView>,
                    crate::block::ErrView,
                >(crate::block::err_view(e)),
            },
    {
        let ghost mv = maps_view(block_maps@);
        let mut table: Vec<Rule> = Vec::new();
        let mut m: usize = 0;
        proof {
            assert(mv.take(0) =~= Seq::<crate::block::BlockMapView>::empty());
            assert(rules_view(table@) =~= Seq::<RuleView>::empty());
        }
        while m < block_maps.len()
            invariant
                0 <= m <= block_maps@.len(),
                mv == maps_view(block_maps@),
                mv.len() == block_maps@.len(),
                forall|j: int| 0 <= j < block_maps@.len() ==> mv[j] == block_maps@[j]@,
                spec_collect_rules(mv.take(m as int)) == Ok::<
                    Seq<RuleView>,
                    crate::block::ErrView,
                >(rules_view(table@)),
            decreases block_maps@.len() - m,
        {
            proof {
                assert(mv.take(m + 1).subrange(0, m as int) =~= mv.take(m as int));
                assert(mv.take(m + 1)[m as int] == mv[m as int]);
            }
            let map_ref = &block_maps[m];
            let ghost bv = crate::block::blocks_view(map_ref.blocks@);
            let ghost acc0 = rules_view(table@);
            proof {
                crate::block::lemma_blocks_view(map_ref.blocks@);
                assert(bv.take(0) =~= Seq::<crate::block::BlockView>::empty());
                assert(mv[m as int].blocks == bv);
                assert(mv[m as int].file_alias == map_ref.file_alias@);
            }
            let mut b: usize = 0;
            while b < map_ref.blocks.len()
                invariant
                    0 <= b <= map_ref.blocks@.len(),
                    0 <= m < block_maps@.len(),
                    mv == maps_view(block_maps@),
                    mv.len() == block_maps@.len(),
                    forall|j: int| 0 <= j < block_maps@.len() ==> mv[j] == block_maps@[j]@,
                    bv == crate::block::blocks_view(map_ref.blocks@),
                    bv.len() == map_ref.blocks@.len(),
                    forall|j: int|
                        0 <= j < map_ref.blocks@.len() ==> bv[j] == crate::block::block_view(
                            map_ref.blocks@[j],
                        ),
                    mv[m as int].blocks == bv,
                    mv[m as int].file_alias == map_ref.file_alias@,
                    spec_collect_rules(mv.take(m as int)) == Ok::<
                        Seq<RuleView>,
                        crate::block::ErrView,
                    >(acc0),
                    spec_add_map_rules(acc0, bv.take(b as int), map_ref.file_alias@) == Ok::<
                        Seq<RuleView>,
                        crate::block::ErrView,
                    >(rules_view(table@)),
                decreases map_ref.blocks@.len() - b,
            {
                proof {
                    assert(bv.take(b + 1).subrange(0, b as int) =~= bv.take(b as int));
                    assert(bv.take(b + 1)[b as int] == bv[b as int]);
                }
                let block_ref = &map_ref.blocks[b];
                let ghost cvv = crate::block::cmds_view(block_ref.cmds@);
                let ghost acc1 = rules_view(table@);
                proof {
                    crate::block::lemma_cmds_view(block_ref.cmds@);
                    assert(cvv.take(0) =~= Seq::<crate::block::CmdView>::empty());
                    assert(bv[b as int].cmds == cvv);
                    assert(bv[b as int].name == block_ref.name@);
                }
                let aliases = match block_aliases(&block_ref.cmds) {
                    Ok(a) => a,
                    Err(e) => {
                        proof {
                            lemma_add_map_rules_err_extends(
                                acc0,
                                bv,
                                map_ref.file_alias@,
                                b + 1,
                            );
                            assert(mv.take(m + 1).subrange(0, m as int) =~= mv.take(m as int));
                            assert(mv.take(m + 1)[m as int] == mv[m as int]);
                            lemma_collect_rules_err_extends(mv, m + 1);
                        }
                        return Err(e);
                    },
                };
                let mut c: usize = 0;
                while c < block_ref.cmds.len()
                    invariant
                        0 <= c <= block_ref.cmds@.len(),
                        0 <= b < map_ref.blocks@.len(),
                        0 <= m < block_maps@.len(),
                        mv == maps_view(block_maps@),
                        mv.len() == block_maps@.len(),
                        forall|j: int| 0 <= j < block_maps@.len() ==> mv[j] == block_maps@[j]@,
                        bv == crate::block::blocks_view(map_ref.blocks@),
                        bv.len() == map_ref.blocks@.len(),
                        forall|j: int|
                            0 <= j < map_ref.blocks@.len() ==> bv[j] == crate::block::block_view(
                                map_ref.blocks@[j],
                            ),
                        mv[m as int].blocks == bv,
                        mv[m as int].file_alias == map_ref.file_alias@,
                        cvv == crate::block::cmds_view(block_ref.cmds@),
                        cvv.len() == block_ref.cmds@.len(),
                        forall|j: int|
                            0 <= j < block_ref.cmds@.len() ==> cvv[j] == crate::block::cmd_view(
                                block_ref.cmds@[j],
                            ),
                        bv[b as int].cmds == cvv,
                        bv[b as int].name == block_ref.name@,
                        spec_block_aliases(cvv) == Ok::<
                            Seq<(Seq<char>, Seq<char>)>,
                            crate::block::ErrView,
                        >(pairs_view(aliases@)),
                        spec_collect_rules(mv.take(m as int)) == Ok::<
                            Seq<RuleView>,
                            crate::block::ErrView,
                        >(acc0),
                        spec_add_map_rules(acc0, bv.take(b as int), map_ref.file_alias@) == Ok::<
                            Seq<RuleView>,
                            crate::block::ErrView,
                        >(acc1),
                        spec_add_block_rules(
                            acc1,
                            cvv.take(c as int),
                            map_ref.file_alias@,
                            block_ref.name@,
                            pairs_view(aliases@),
                        ) == Ok::<Seq<RuleView>, crate::block::ErrView>(rules_view(table@)),
                    decreases block_ref.cmds@.len() - c,
                {
                    proof {
                        assert(cvv.take(c + 1).subrange(0, c as int) =~= cvv.take(c as int));
                        assert(cvv.take(c + 1)[c as int] == cvv[c as int]);
                    }
                    match &block_ref.cmds[c] {
                        crate::block::BlockCommand::Define { pos: _, rule } => {
                            match resolve_rule(
                                rule,
                                map_ref.file_alias.as_str(),
                                block_ref.name.as_str(),
                                &aliases,
                            ) {
                                Ok(rr) => {
                                    if rules_contain_exec(&table, rr.id.as_str()) {
                                        let e = crate::block::BlockParseError::DuplicatedBlockName(
                                            rr.pos.line,
                                            rr.id,
                                        );
                                        proof {
                                            lemma_add_block_rules_err_extends(
                                                acc1,
                                                cvv,
                                                map_ref.file_alias@,
                                                block_ref.name@,
                                                pairs_view(aliases@),
                                                c + 1,
                                            );
                                            assert(bv.take(b + 1).subrange(0, b as int)
                                                =~= bv.take(b as int));
                                            assert(bv.take(b + 1)[b as int] == bv[b as int]);
                                            lemma_add_map_rules_err_extends(
                                                acc0,
                                                bv,
                                                map_ref.file_alias@,
                                                b + 1,
                                            );
                                            assert(mv.take(m + 1).subrange(0, m as int)
                                                =~= mv.take(m as int));
                                            assert(mv.take(m + 1)[m as int] == mv[m as int]);
                                            lemma_collect_rules_err_extends(mv, m + 1);
                                        }
                                        return Err(e);
                                    }
                                    let ghost old_table = table@;
                                    table.push(rr);
                                    proof {
                                        assert(rules_view(table@) =~= rules_view(old_table).push(
                                            rule_view(table@[table@.len() - 1]),
                                        ));
                                    }
                                },
                                Err(e) => {
                                    proof {
                                        lemma_add_block_rules_err_extends(
                                            acc1,
                                            cvv,
                                            map_ref.file_alias@,
                                            block_ref.name@,
                                            pairs_view(aliases@),
                                            c + 1,
                                        );
                                        assert(bv.take(b + 1).subrange(0, b as int) =~= bv.take(
                                            b as int,
                                        ));
                                        assert(bv.take(b + 1)[b as int] == bv[b as int]);
                                        lemma_add_map_rules_err_extends(
                                            acc0,
                                            bv,
                                            map_ref.file_alias@,
                                            b + 1,
                                        );
                                        assert(mv.take(m + 1).subrange(0, m as int) =~= mv.take(
                                            m as int,
                                        ));
                                        assert(mv.take(m + 1)[m as int] == mv[m as int]);
                                        lemma_collect_rules_err_extends(mv, m + 1);
                                    }
                                    return Err(e);
                                },
                            }
                        },
                        _ => {},
                    }
                    c = c + 1;
                }
                proof {
                    assert(cvv.take(c as int) =~= cvv);
                }
                b = b + 1;
            }
            proof {
                assert(bv.take(b as int) =~= bv);
            }
            m = m + 1;
        }
        proof {
            assert(mv.take(m as int) =~= mv);
        }
        Ok(table)
    }

    /// Looks a rule up by its fully-qualified identifier; the first
    /// match wins (assembly guarantees there is at most one).
    pub fn get(&self, id: &str) -> (r: Option<&Rule>)
        ensures
            match r {
                Some(rule) => rule@.id == id@ && exists|k: int|
                    0 <= k < self@.rules.len() && #[trigger] self@.rules[k] == rule@ && forall|
                        j: int,
                    | 0 <= j < k ==> (#[trigger] self@.rules[j]).id != id@,
                None => !rules_contain(self@.rules, id@),
            },
    {
        let mut i: usize = 0;
        while i < self.rules.len()
            invariant
                0 <= i <= self.rules@.len(),
                self@.rules.len() == self.rules@.len(),
                forall|j: int|
                    0 <= j < self.rules@.len() ==> self@.rules[j] == rule_view(self.rules@[j]),
                forall|j: int| 0 <= j < i ==> (#[trigger] self@.rules[j]).id != id@,
            decreases self.rules@.len() - i,
        {
            if crate::text::str_eq(self.rules[i].id.as_str(), id) {
                proof {
                    assert(self@.rules[i as int].id == id@);
                    assert(self@.rules[i as int] == rule_view(self.rules@[i as int]));
                }
                return Some(&self.rules[i]);
            }
            i = i + 1;
        }
        proof {
            assert(!rules_contain(self@.rules, id@)) by {
                if rules_contain(self@.rules, id@) {
                    let k = choose|k: int|
                        0 <= k < self@.rules.len() && self@.rules[k].id == id@;
                    assert((#[trigger] self@.rules[k]).id != id@);
                }
            }
        }
        None
    }
}

/// No two rules of a table share an identifier.
pub open spec fn unique_rule_ids(rules: Seq<RuleView>) -> bool {
    forall|i: int, j: int| 0 <= i < j < rules.len() ==> rules[i].id != rules[j].id
}

proof fn lemma_add_block_rules_unique(
    acc: Seq<RuleView>,
    cmds: Seq<crate::block::CmdView>,
    file_alias: Seq<char>,
    block_name: Seq<char>,
    aliases: Seq<(Seq<char>, Seq<char>)>,
)
    requires
        unique_rule_ids(acc),
    ensures
        spec_add_block_rules(acc, cmds, file_alias, block_name, aliases) matches Ok(t)
            ==> unique_rule_ids(t),
    decreases cmds.len(),
{
    if cmds.len() > 0 {
        lemma_add_block_rules_unique(
            acc,
            cmds.subrange(0, cmds.len() - 1),
            file_alias,
            block_name,
            aliases,
        );
        match spec_add_block_rules(
            acc,
            cmds.subrange(0, cmds.len() - 1),
            file_alias,
            block_name,
            aliases,
        ) {
            Err(_) => {},
            Ok(table) => {
                match cmds[cmds.len() - 1] {
                    crate::block::CmdView::Define { pos: _, rule } => {
                        match spec_resolve_rule(rule, file_alias, block_name, aliases) {
                            Err(_) => {},
                            Ok(rr) => {
                                if !rules_contain(table, rr.id) {
                                    assert(unique_rule_ids(table.push(rr))) by {
                                        assert forall|i: int, j: int|
                                            0 <= i < j < table.push(rr).len() implies table.push(
                                            rr,
                                        )[i].id != table.push(rr)[j].id by {
                                            if j == table.len() {
                                                assert(!(exists|k: int|
                                                    0 <= k < table.len() && table[k].id
                                                        == rr.id));
                                                assert(table[i].id != rr.id);
                                            }
                                        }
                                    }
                                }
                            },
                        }
                    },
                    _ => {},
                }
            },
        }
    }
}

proof fn lemma_add_map_rules_unique(
    acc: Seq<RuleView>,
    blocks: Seq<crate::block::BlockView>,
    file_alias: Seq<char>,
)
    requires
        unique_rule_ids(acc),
    ensures
        spec_add_map_rules(acc, blocks, file_alias) matches Ok(t) ==> unique_rule_ids(t),
    decreases blocks.len(),
{
    if blocks.len() > 0 {
        lemma_add_map_rules_unique(acc, blocks.subrange(0, blocks.len() - 1), file_alias);
        match spec_add_map_rules(acc, blocks.subrange(0, blocks.len() - 1), file_alias) {
            Err(_) => {},
            Ok(table) => {
                let b = blocks[blocks.len() - 1];
                match spec_block_aliases(b.cmds) {
                    Err(_) => {},
                    Ok(aliases) => {
                        lemma_add_block_rules_unique(table, b.cmds, file_alias, b.name, aliases);
                    },
                }
            },
        }
    }
}

proof fn lemma_collect_rules_unique(maps: Seq<crate::block::BlockMapView>)
    ensures
        spec_collect_rules(maps) matches Ok(t) ==> unique_rule_ids(t),
    decreases maps.len(),
{
    if maps.len() > 0 {
        lemma_collect_rules_unique(maps.subrange(0, maps.len() - 1));
        match spec_collect_rules(maps.subrange(0, maps.len() - 1)) {
            Err(_) => {},
            Ok(table) => {
                lemma_add_map_rules_unique(
                    table,
                    maps[maps.len() - 1].blocks,
                    maps[maps.len() - 1].file_alias,
                );
            },
        }
    }
}

/// A rule table never holds two rules under one identifier: a second
/// definition of an identifier fails assembly instead of silently
/// replacing the first.
pub proof fn lemma_rule_map_unique_ids(maps: Seq<crate::block::BlockMapView>)
    ensures
        spec_rule_map(maps) matches Ok(m) ==> unique_rule_ids(m.rules),
{
    lemma_collect_rules_unique(maps);
}

/// Assembling one list of block maps twice yields identical rule
/// tables: assembly is a mathematical function of its input.
pub proof fn lemma_assembly_deterministic(
    maps: Seq<crate::block::BlockMapView>,
    r1: Result<RuleMapView, crate::block::ErrView>,
    r2: Result<RuleMapView, crate::block::ErrView>,
)
    requires
        r1 == spec_rule_map(maps),
        r2 == spec_rule_map(maps),
    ensures
        r1 == r2,
{
}

/// A plain rule reference names a rule of the enclosing block: it
/// resolves to the reference qualified with the enclosing file alias
/// and block name.
pub proof fn lemma_resolve_plain(
    value: Seq<char>,
    line: usize,
    file_alias: Seq<char>,
    block_name: Seq<char>,
    aliases: Seq<(Seq<char>, Seq<char>)>,
)
    requires
        find_char(value, '.') is None,
    ensures
        spec_resolve_id(value, line, file_alias, block_name, aliases) == Ok::<
            Seq<char>,
            crate::block::ErrView,
        >(qualified_id(file_alias, block_name, value)),
{
}

/// A dotted rule reference whose head is a declared alias resolves to
/// the alias's target followed by the rest of the reference; each
/// alias resolves independently, so two aliases for one block never
/// collide.
pub proof fn lemma_resolve_through_alias(
    value: Seq<char>,
    line: usize,
    file_alias: Seq<char>,
    block_name: Seq<char>,
    aliases: Seq<(Seq<char>, Seq<char>)>,
    k: int,
)
    requires
        find_char(value, '.') == Some(k),
        alias_lookup(aliases, value.take(k)) is Some,
    ensures
        spec_resolve_id(value, line, file_alias, block_name, aliases) == Ok::<
            Seq<char>,
            crate::block::ErrView,
        >(alias_lookup(aliases, value.take(k))->0 + "."@ + value.skip(k + 1)),
{
}

/// The rendering of a lookahead marker.
pub open spec fn lookahead_text(k: RuleElementLookaheadKind) -> Seq<char> {
    match k {
        RuleElementLookaheadKind::NoLookahead => Seq::empty(),
        RuleElementLookaheadKind::Positive => "&"@,
        RuleElementLookaheadKind::Negative => "!"@,
    }
}

/// The rendering of a reflection style: `#` for a dropped node, `#`
/// and the name for a renamed node, nothing for the empty name, and
/// `##` for an expanded node.
pub open spec fn reflect_text(r: ReflectView) -> Seq<char> {
    match r {
        ReflectView::NoReflection => "#"@,
        ReflectView::Reflection(name) => if name.len() == 0 {
            Seq::empty()
        } else {
            "#"@ + name
        },
        ReflectView::Expandable => "##"@,
    }
}

/// The rendering of an attempt order: nothing for sequential order,
/// the `^[min-max]` marker otherwise.
pub open spec fn order_text(o: RuleElementOrder) -> Seq<char> {
    match o {
        RuleElementOrder::Sequential => Seq::empty(),
        RuleElementOrder::Random(lc) => loop_count_text(lc, false, "^["@, "-"@, "]"@),
    }
}

/// The canonical diagnostic rendering of an expression: lookahead,
/// then the value in its kind's shape, then the quantifier and the
/// reflection marker. For diagnostics only; omitted attributes and
/// their explicit defaults render alike, so the text need not re-read
/// to an identical value.
pub open spec fn expr_text(x: ExprView) -> Seq<char>
    decreases x,
{
    lookahead_text(x.lookahead_kind) + expr_value_text(x) + loop_count_text(
        x.loop_count,
        true,
        "{"@,
        ","@,
        "}"@,
    ) + reflect_text(x.ast_reflection_style)
}

pub open spec fn expr_value_text(x: ExprView) -> Seq<char>
    decreases x, 0nat,
{
    match x.kind {
        ExprKindView::ArgID => "$"@ + x.value,
        ExprKindView::CharClass => x.value,
        ExprKindView::Func(args) => x.value + "("@ + groups_text(args, ", "@) + ")"@,
        ExprKindView::Generics(args) => x.value + "<"@ + groups_text(args, ", "@) + ">"@,
        ExprKindView::ID => x.value,
        ExprKindView::Str => "\""@ + x.value + "\""@,
        ExprKindView::Wildcard => "."@,
    }
}

pub open spec fn groups_text(s: Seq<GroupView>, sep: Seq<char>) -> Seq<char>
    decreases s, 1nat,
{
    if s.len() == 0 {
        Seq::empty()
    } else if s.len() == 1 {
        group_text(s[0])
    } else {
        groups_text(s.subrange(0, s.len() - 1), sep) + sep + group_text(s[s.len() - 1])
    }
}

/// The canonical diagnostic rendering of a group: lookahead, then the
/// parenthesized children (space-joined for a sequence, joined with
/// ` : ` for an ordered choice and `, ` for a random-order choice),
/// then the quantifier, the order marker and the reflection marker.
pub open spec fn group_text(g: GroupView) -> Seq<char>
    decreases g, 2nat,
{
    lookahead_text(g.lookahead_kind) + "("@ + elems_text(g.sub_elems, group_separator(g)) + ")"@
        + loop_count_text(g.loop_count, true, "{"@, ","@, "}"@) + order_text(g.elem_order)
        + reflect_text(g.ast_reflection_style)
}

pub open spec fn group_separator(g: GroupView) -> Seq<char> {
    match g.kind {
        RuleGroupKind::Choice => match g.elem_order {
            RuleElementOrder::Random(_) => ", "@,
            RuleElementOrder::Sequential => " : "@,
        },
        RuleGroupKind::Sequence => " "@,
    }
}

pub open spec fn elems_text(s: Seq<ElemView>, sep: Seq<char>) -> Seq<char>
    decreases s, 1nat,
{
    if s.len() == 0 {
        Seq::empty()
    } else if s.len() == 1 {
        elem_text(s[0])
    } else {
        elems_text(s.subrange(0, s.len() - 1), sep) + sep + elem_text(s[s.len() - 1])
    }
}

pub open spec fn elem_text(e: ElemView) -> Seq<char>
    decreases e, 3nat,
{
    match e {
        ElemView::Group(g) => group_text(g),
        ElemView::Expression(x) => expr_text(x),
    }
}

/// The canonical diagnostic rendering of a rule: its display name, its
/// declared parameters and the rendering of its root group.
pub open spec fn rule_text(r: RuleView) -> Seq<char> {
    r.name + generics_text(r.generics_arg_ids) + " <- "@ + group_text(r.group)
}

pub open spec fn generics_text(ids: Seq<Seq<char>>) -> Seq<char> {
    if ids.len() == 0 {
        Seq::empty()
    } else {
        "("@ + generics_list_text(ids) + ")"@
    }
}

pub open spec fn generics_list_text(ids: Seq<Seq<char>>) -> Seq<char>
    decreases ids.len(),
{
    if ids.len() == 0 {
        Seq::empty()
    } else if ids.len() == 1 {
        "$"@ + ids[0]
    } else {
        generics_list_text(ids.subrange(0, ids.len() - 1)) + ", "@ + "$"@ + ids[ids.len() - 1]
    }
}

/// The diagnostic renderings of a table's rules, one line each.
pub open spec fn rules_text(s: Seq<RuleView>) -> Seq<char>
    decreases s.len(),
{
    if s.len() == 0 {
        Seq::empty()
    } else if s.len() == 1 {
        rule_text(s[0])
    } else {
        rules_text(s.subrange(0, s.len() - 1)) + "\n"@ + rule_text(s[s.len() - 1])
    }
}

fn lookahead_str(k: RuleElementLookaheadKind) -> (r: &'static str)
    ensures
        r@ == lookahead_text(k),
{
    proof {
        reveal_strlit("");
        assert(""@ =~= Seq::<char>::empty());
    }
    match k {
        RuleElementLookaheadKind::NoLookahead => "",
        RuleElementLookaheadKind::Positive => "&",
        RuleElementLookaheadKind::Negative => "!",
    }
}

fn reflect_to_text(r: &ASTReflectionStyle) -> (t: String)
    ensures
        t@ == reflect_text(r@),
{
    proof {
        reveal_strlit("#");
    }
    match r {
        ASTReflectionStyle::NoReflection => "#".to_owned(),
        ASTReflectionStyle::Reflection(name) => {
            if name.as_str().unicode_len() == 0 {
                let t = String::new();
                proof {
                    assert(t@ =~= reflect_text(r@));
                }
                t
            } else {
                let mut t = "#".to_owned();
                t.append(name.as_str());
                t
            }
        },
        ASTReflectionStyle::Expandable => "##".to_owned(),
    }
}

fn order_to_text(o: &RuleElementOrder) -> (t: String)
    ensures
        t@ == order_text(*o),
{
    match o {
        RuleElementOrder::Sequential => {
            let t = String::new();
            proof {
                assert(t@ =~= order_text(*o));
            }
            t
        },
        RuleElementOrder::Random(lc) => lc.to_string(false, "^[", "-", "]"),
    }
}

impl RuleExpression {
    /// Renders this expression for diagnostics; see [`expr_text`].
    pub fn to_text(&self) -> (r: String)
        ensures
            r@ == expr_text(self@),
        decreases *self, 1nat,
    {
        let mut t = lookahead_str(self.lookahead_kind).to_owned();
        match &self.kind {
            RuleExpressionKind::ArgID => {
                t.append("$");
                t.append(self.value.as_str());
            },
            RuleExpressionKind::CharClass => {
                t.append(self.value.as_str());
            },
            RuleExpressionKind::Func(args) => {
                t.append(self.value.as_str());
                t.append("(");
                let inner = groups_to_text(args, Ghost(self));
                t.append(inner.as_str());
                t.append(")");
            },
            RuleExpressionKind::Generics(args) => {
                t.append(self.value.as_str());
                t.append("<");
                let inner = groups_to_text(args, Ghost(self));
                t.append(inner.as_str());
                t.append(">");
            },
            RuleExpressionKind::ID => {
                t.append(self.value.as_str());
            },
            RuleExpressionKind::Str => {
                t.append("\"");
                t.append(self.value.as_str());
                t.append("\"");
            },
            RuleExpressionKind::Wildcard => {
                t.append(".");
            },
        }
        let lc_text = self.loop_count.to_string(true, "{", ",", "}");
        t.append(lc_text.as_str());
        let refl = reflect_to_text(&self.ast_reflection_style);
        t.append(refl.as_str());
        proof {
            assert(t@ =~= expr_text(self@));
        }
        t
    }
}

/// Renders a parametrized reference's argument groups, joined by
/// commas; see [`groups_text`].
fn groups_to_text(args: &Vec<RuleGroup>, parent: Ghost<&RuleExpression>) -> (r: String)
    requires
        parent@.kind == (RuleExpressionKind::Func(*args)) || parent@.kind == (
        RuleExpressionKind::Generics(*args)),
    ensures
        r@ == groups_text(groups_view(args@), ", "@),
    decreases *parent@, 0nat,
{
    let ghost gv = groups_view(args@);
    let mut t = String::new();
    let mut i: usize = 0;
    proof {
        lemma_groups_view(args@);
        assert(gv.take(0) =~= Seq::<GroupView>::empty());
    }
    while i < args.len()
        invariant
            0 <= i <= args@.len(),
            parent@.kind == (RuleExpressionKind::Func(*args)) || parent@.kind == (
            RuleExpressionKind::Generics(*args)),
            gv == groups_view(args@),
            gv.len() == args@.len(),
            forall|j: int| 0 <= j < args@.len() ==> gv[j] == group_view(args@[j]),
            t@ == groups_text(gv.take(i as int), ", "@),
        decreases args@.len() - i,
    {
        proof {
            assert(gv.take(i + 1).subrange(0, i as int) =~= gv.take(i as int));
            assert(gv.take(i + 1)[i as int] == gv[i as int]);
            if parent@.kind is Func {
                assert(decreases_to!(*parent@ => parent@.kind));
                assert(decreases_to!(parent@.kind => parent@.kind->Func_0));
                assert(decreases_to!(*args => args@[i as int]));
            } else {
                assert(decreases_to!(*parent@ => parent@.kind));
                assert(decreases_to!(parent@.kind => parent@.kind->Generics_0));
                assert(decreases_to!(*args => args@[i as int]));
            }
            assert(decreases_to!(*parent@ => args@[i as int]));
        }
        if i > 0 {
            t.append(", ");
        }
        let gt = args[i].to_text();
        t.append(gt.as_str());
        proof {
            assert(t@ =~= groups_text(gv.take(i + 1), ", "@));
        }
        i = i + 1;
    }
    proof {
        assert(gv.take(i as int) =~= gv);
    }
    t
}

fn elem_to_text(e: &RuleElement) -> (r: String)
    ensures
        r@ == elem_text(e@),
    decreases *e, 3nat,
{
    match e {
        RuleElement::Group(g) => g.to_text(),
        RuleElement::Expression(x) => x.to_text(),
    }
}

impl RuleGroup {
    /// Renders this group for diagnostics; see [`group_text`].
    pub fn to_text(&self) -> (r: String)
        ensures
            r@ == group_text(self@),
        decreases *self, 2nat,
    {
        let sep: &'static str = match self.kind {
            RuleGroupKind::Choice => match self.elem_order {
                RuleElementOrder::Random(_) => ", ",
                RuleElementOrder::Sequential => " : ",
            },
            RuleGroupKind::Sequence => " ",
        };
        proof {
            assert(sep@ == group_separator(self@));
        }
        let mut t = lookahead_str(self.lookahead_kind).to_owned();
        t.append("(");
        let ghost ev = elems_view(self.sub_elems@);
        let mut body = String::new();
        let mut i: usize = 0;
        proof {
            lemma_elems_view(self.sub_elems@);
            assert(ev.take(0) =~= Seq::<ElemView>::empty());
        }
        while i < self.sub_elems.len()
            invariant
                0 <= i <= self.sub_elems@.len(),
                ev == elems_view(self.sub_elems@),
                ev.len() == self.sub_elems@.len(),
                forall|j: int| 0 <= j < self.sub_elems@.len() ==> ev[j] == elem_view(
                    self.sub_elems@[j],
                ),
                sep@ == group_separator(self@),
                body@ == elems_text(ev.take(i as int), sep@),
            decreases self.sub_elems@.len() - i,
        {
            proof {
                assert(ev.take(i + 1).subrange(0, i as int) =~= ev.take(i as int));
                assert(ev.take(i + 1)[i as int] == ev[i as int]);
            }
            if i > 0 {
                body.append(sep);
            }
            let et = elem_to_text(&self.sub_elems[i]);
            body.append(et.as_str());
            proof {
                assert(body@ =~= elems_text(ev.take(i + 1), sep@));
            }
            i = i + 1;
        }
        proof {
            assert(ev.take(i as int) =~= ev);
        }
        t.append(body.as_str());
        t.append(")");
        let lc_text = self.loop_count.to_string(true, "{", ",", "}");
        t.append(lc_text.as_str());
        let ot = order_to_text(&self.elem_order);
        t.append(ot.as_str());
        let refl = reflect_to_text(&self.ast_reflection_style);
        t.append(refl.as_str());
        proof {
            assert(t@ =~= group_text(self@));
        }
        t
    }
}

impl Rule {
    /// Renders this rule for diagnostics; see [`rule_text`].
    pub fn to_text(&self) -> (r: String)
        ensures
            r@ == rule_text(self@),
    {
        let mut t = self.name.clone();
        if self.generics_arg_ids.len() > 0 {
            t.append("(");
            let ghost ids = strs_view(self.generics_arg_ids@);
            let mut i: usize = 0;
            let mut list = String::new();
            proof {
                assert(ids.take(0) =~= Seq::<Seq<char>>::empty());
            }
            while i < self.generics_arg_ids.len()
                invariant
                    0 <= i <= self.generics_arg_ids@.len(),
                    ids == strs_view(self.generics_arg_ids@),
                    ids.len() == self.generics_arg_ids@.len(),
                    forall|j: int|
                        0 <= j < self.generics_arg_ids@.len() ==> ids[j]
                            == self.generics_arg_ids@[j]@,
                    list@ == generics_list_text(ids.take(i as int)),
                decreases self.generics_arg_ids@.len() - i,
            {
                proof {
                    assert(ids.take(i + 1).subrange(0, i as int) =~= ids.take(i as int));
                    assert(ids.take(i + 1)[i as int] == ids[i as int]);
                }
                if i > 0 {
                    list.append(", ");
                }
                list.append("$");
                list.append(self.generics_arg_ids[i].as_str());
                proof {
                    assert(list@ =~= generics_list_text(ids.take(i + 1)));
                }
                i = i + 1;
            }
            proof {
                assert(ids.take(i as int) =~= ids);
            }
            t.append(list.as_str());
            t.append(")");
        } else {
            proof {
                assert(strs_view(self.generics_arg_ids@).len() == 0);
            }
        }
        t.append(" <- ");
        let gt = self.group.to_text();
        t.append(gt.as_str());
        proof {
            assert(t@ =~= rule_text(self@));
        }
        t
    }
}

impl RuleMap {
    /// Renders every rule of the table, one line each, for diagnostic
    /// dumps; see [`rules_text`].
    pub fn to_text(&self) -> (r: String)
        ensures
            r@ == rules_text(rules_view(self.rules@)) + "\n"@,
    {
        let ghost rv = rules_view(self.rules@);
        let mut t = String::new();
        let mut i: usize = 0;
        proof {
            assert(rv.take(0) =~= Seq::<RuleView>::empty());
        }
        while i < self.rules.len()
            invariant
                0 <= i <= self.rules@.len(),
                rv == rules_view(self.rules@),
                rv.len() == self.rules@.len(),
                forall|j: int| 0 <= j < self.rules@.len() ==> rv[j] == rule_view(self.rules@[j]),
                t@ == rules_text(rv.take(i as int)),
            decreases self.rules@.len() - i,
        {
            proof {
                assert(rv.take(i + 1).subrange(0, i as int) =~= rv.take(i as int));
                assert(rv.take(i + 1)[i as int] == rv[i as int]);
            }
            if i > 0 {
                t.append("\n");
            }
            let rt = self.rules[i].to_text();
            t.append(rt.as_str());
            proof {
                assert(t@ =~= rules_text(rv.take(i + 1)));
            }
            i = i + 1;
        }
        proof {
            assert(rv.take(i as int) =~= rv);
        }
        t.append("\n");
        t
    }
}

/// Collapses a group that wraps exactly one child group into that
/// child, repeatedly, until the group either has a number of children
/// other than one or its single child is a leaf expression.
pub open spec fn spec_extract(g: GroupView) -> GroupView
    decreases g,
{
    if g.sub_elems.len() == 1 {
        match g.sub_elems[0] {
            ElemView::Group(sub) => spec_extract(sub),
            ElemView::Expression(_) => g,
        }
    } else {
        g
    }
}

/// A group is in extracted form when it does not wrap exactly one child
/// group.
pub open spec fn is_extracted(g: GroupView) -> bool {
    g.sub_elems.len() == 1 ==> g.sub_elems[0] is Expression
}

/// The result of [`spec_extract`] is in extracted form.
pub proof fn lemma_extract_extracted(g: GroupView)
    ensures
        is_extracted(spec_extract(g)),
    decreases g,
{
    if g.sub_elems.len() == 1 {
        match g.sub_elems[0] {
            ElemView::Group(sub) => lemma_extract_extracted(sub),
            ElemView::Expression(_) => {},
        }
    }
}

/// Extraction is idempotent: extracting an already-extracted group
/// returns the same group.
pub proof fn lemma_extract_idempotent(g: GroupView)
    ensures
        spec_extract(spec_extract(g)) == spec_extract(g),
{
    lemma_extract_extracted(g);
}

impl RuleGroup {
    /// Returns the extracted form of this group; see [`spec_extract`].
    pub fn extract(&self) -> (r: RuleGroup)
        ensures
            r@ == spec_extract(self@),
        decreases *self,
    {
        if self.sub_elems.len() == 1 {
            match &self.sub_elems[0] {
                RuleElement::Group(sub) => sub.extract(),
                RuleElement::Expression(_) => self.clone(),
            }
        } else {
            self.clone()
        }
    }
}

} // verus!
