//! The block and command model: a block is a named ordered list of
//! commands (rule definitions, cross-file imports, entry-point
//! declarations), and a block map gathers the blocks of one source
//! file. The closed error taxonomy of the whole front end lives here
//! too.

use vstd::prelude::*;

use crate::rule::CharacterPosition;
use crate::rule::Rule;
use crate::rule::RuleView;
use crate::rule::rule_view;

verus! {

/// Kind of one lexical token of grammar source. The token abstraction
/// is part of the data model but is not exercised by the block
/// compiler, which starts from an already-built syntax tree.
#[derive(Clone, Copy, PartialEq, Eq, Structural, Debug)]
pub enum BlockTokenKind {
    ID,
    Number,
    Space,
    Str,
    StringInBracket,
    Symbol,
}

/// One lexical token: the 1-based source line it starts on, its kind
/// and its raw text.
#[derive(Debug)]
pub struct BlockToken {
    pub line: usize,
    pub kind: BlockTokenKind,
    pub value: String,
}

impl BlockToken {
    pub fn new(line: usize, kind: BlockTokenKind, value: String) -> (r: BlockToken)
        ensures
            r.line == line,
            r.kind == kind,
            r.value@ == value@,
    {
        BlockToken { line, kind, value }
    }
}

/// Everything that can go wrong while compiling grammar source into a
/// rule table, grouped by layer: lexical, structural, name resolution
/// and internal invariant violations. Each value carries the 1-based
/// source line and the offending text where those are meaningful, so a
/// diagnostic can be rendered without re-reading the source.
#[derive(PartialEq, Eq, Debug)]
pub enum BlockParseError {
    Unknown,
    BlockAliasNotFound(usize, String),
    DuplicatedBlockAliasName(usize, String),
    DuplicatedBlockName(usize, String),
    DuplicatedStartCmd,
    ExpectedBlockDef(usize),
    ExpectedToken(usize, String),
    InternalErr(String),
    InvalidCharClassFormat(usize, String),
    InvalidToken(usize, String),
    MainBlockNotFound,
    NoChoiceOrExpressionContent(usize),
    NoStartCmdInMainBlock,
    RuleHasNoChoice(String),
    RuleInMainBlock,
    StartCmdOutsideMainBlock,
    TooBigNumber(usize, String),
    UnexpectedEOF(usize, String),
    UnexpectedToken(usize, String, String),
    UnknownPragmaName(usize, String),
    UnknownSyntax(usize, String),
    UnknownToken(usize, String),
}

/// Mathematical value of a [`BlockParseError`].
#[verifier::ext_equal]
pub enum ErrView {
    Unknown,
    BlockAliasNotFound(usize, Seq<char>),
    DuplicatedBlockAliasName(usize, Seq<char>),
    DuplicatedBlockName(usize, Seq<char>),
    DuplicatedStartCmd,
    ExpectedBlockDef(usize),
    ExpectedToken(usize, Seq<char>),
    InternalErr(Seq<char>),
    InvalidCharClassFormat(usize, Seq<char>),
    InvalidToken(usize, Seq<char>),
    MainBlockNotFound,
    NoChoiceOrExpressionContent(usize),
    NoStartCmdInMainBlock,
    RuleHasNoChoice(Seq<char>),
    RuleInMainBlock,
    StartCmdOutsideMainBlock,
    TooBigNumber(usize, Seq<char>),
    UnexpectedEOF(usize, Seq<char>),
    UnexpectedToken(usize, Seq<char>, Seq<char>),
    UnknownPragmaName(usize, Seq<char>),
    UnknownSyntax(usize, Seq<char>),
    UnknownToken(usize, Seq<char>),
}

pub open spec fn err_view(e: BlockParseError) -> ErrView {
    match e {
        BlockParseError::Unknown => ErrView::Unknown,
        BlockParseError::BlockAliasNotFound(line, s) => ErrView::BlockAliasNotFound(line, s@),
        BlockParseError::DuplicatedBlockAliasName(line, s) => ErrView::DuplicatedBlockAliasName(
            line,
            s@,
        ),
        BlockParseError::DuplicatedBlockName(line, s) => ErrView::DuplicatedBlockName(line, s@),
        BlockParseError::DuplicatedStartCmd => ErrView::DuplicatedStartCmd,
        BlockParseError::ExpectedBlockDef(line) => ErrView::ExpectedBlockDef(line),
        BlockParseError::ExpectedToken(line, s) => ErrView::ExpectedToken(line, s@),
        BlockParseError::InternalErr(s) => ErrView::InternalErr(s@),
        BlockParseError::InvalidCharClassFormat(line, s) => ErrView::InvalidCharClassFormat(
            line,
            s@,
        ),
        BlockParseError::InvalidToken(line, s) => ErrView::InvalidToken(line, s@),
        BlockParseError::MainBlockNotFound => ErrView::MainBlockNotFound,
        BlockParseError::NoChoiceOrExpressionContent(line) => ErrView::NoChoiceOrExpressionContent(
            line,
        ),
        BlockParseError::NoStartCmdInMainBlock => ErrView::NoStartCmdInMainBlock,
        BlockParseError::RuleHasNoChoice(s) => ErrView::RuleHasNoChoice(s@),
        BlockParseError::RuleInMainBlock => ErrView::RuleInMainBlock,
        BlockParseError::StartCmdOutsideMainBlock => ErrView::StartCmdOutsideMainBlock,
        BlockParseError::TooBigNumber(line, s) => ErrView::TooBigNumber(line, s@),
        BlockParseError::UnexpectedEOF(line, s) => ErrView::UnexpectedEOF(line, s@),
        BlockParseError::UnexpectedToken(line, s, t) => ErrView::UnexpectedToken(line, s@, t@),
        BlockParseError::UnknownPragmaName(line, s) => ErrView::UnknownPragmaName(line, s@),
        BlockParseError::UnknownSyntax(line, s) => ErrView::UnknownSyntax(line, s@),
        BlockParseError::UnknownToken(line, s) => ErrView::UnknownToken(line, s@),
    }
}

impl View for BlockParseError {
    type V = ErrView;

    open spec fn view(&self) -> ErrView {
        err_view(*self)
    }
}

/// The diagnostic text of an error, with the offending name embedded.
pub open spec fn err_text(e: ErrView) -> Seq<char> {
    match e {
        ErrView::Unknown => "unknown error"@,
        ErrView::BlockAliasNotFound(_, name) => "block alias '"@ + name + "' not found"@,
        ErrView::DuplicatedBlockAliasName(_, name) => "duplicated block alias name '"@ + name
            + "'"@,
        ErrView::DuplicatedBlockName(_, name) => "duplicated block name '"@ + name + "'"@,
        ErrView::DuplicatedStartCmd => "duplicated start command"@,
        ErrView::ExpectedBlockDef(_) => "expected block definition"@,
        ErrView::ExpectedToken(_, t) => "expected token "@ + t,
        ErrView::InternalErr(t) => "internal error: "@ + t,
        ErrView::InvalidCharClassFormat(_, t) => "invalid character class format '"@ + t + "'"@,
        ErrView::InvalidToken(_, t) => "invalid token '"@ + t + "'"@,
        ErrView::MainBlockNotFound => "main block not found"@,
        ErrView::NoChoiceOrExpressionContent(_) => "no choice or expression content"@,
        ErrView::NoStartCmdInMainBlock => "no start command in main block"@,
        ErrView::RuleHasNoChoice(name) => "rule '"@ + name + "' has no choice"@,
        ErrView::RuleInMainBlock => "rule in main block"@,
        ErrView::StartCmdOutsideMainBlock => "start command outside main block"@,
        ErrView::TooBigNumber(_, t) => "too big number "@ + t,
        ErrView::UnexpectedEOF(_, t) => "unexpected EOF, expected "@ + t,
        ErrView::UnexpectedToken(_, u, t) => "unexpected token '"@ + u + "', expected "@ + t,
        ErrView::UnknownPragmaName(_, name) => "unknown pragma name '"@ + name + "'"@,
        ErrView::UnknownSyntax(_, t) => "unknown syntax '"@ + t + "'"@,
        ErrView::UnknownToken(_, t) => "unknown token '"@ + t + "'"@,
    }
}

/// The 1-based source line an error points at, where it carries one.
pub open spec fn err_line(e: ErrView) -> Option<usize> {
    match e {
        ErrView::BlockAliasNotFound(line, _) => Some(line),
        ErrView::DuplicatedBlockAliasName(line, _) => Some(line),
        ErrView::DuplicatedBlockName(line, _) => Some(line),
        ErrView::ExpectedBlockDef(line) => Some(line),
        ErrView::ExpectedToken(line, _) => Some(line),
        ErrView::InvalidCharClassFormat(line, _) => Some(line),
        ErrView::InvalidToken(line, _) => Some(line),
        ErrView::NoChoiceOrExpressionContent(line) => Some(line),
        ErrView::TooBigNumber(line, _) => Some(line),
        ErrView::UnexpectedEOF(line, _) => Some(line),
        ErrView::UnexpectedToken(line, _, _) => Some(line),
        ErrView::UnknownPragmaName(line, _) => Some(line),
        ErrView::UnknownSyntax(line, _) => Some(line),
        ErrView::UnknownToken(line, _) => Some(line),
        _ => None,
    }
}

impl BlockParseError {
    /// Renders this error for a diagnostic; see [`err_text`].
    pub fn message(&self) -> (r: String)
        ensures
            r@ == err_text(self@),
    {
        match self {
            BlockParseError::Unknown => "unknown error".to_owned(),
            BlockParseError::BlockAliasNotFound(_, name) => {
                let mut t = "block alias '".to_owned();
                t.append(name.as_str());
                t.append("' not found");
                proof {
                    assert(t@ =~= err_text(self@));
                }
                t
            },
            BlockParseError::DuplicatedBlockAliasName(_, name) => {
                let mut t = "duplicated block alias name '".to_owned();
                t.append(name.as_str());
                t.append("'");
                proof {
                    assert(t@ =~= err_text(self@));
                }
                t
            },
            BlockParseError::DuplicatedBlockName(_, name) => {
                let mut t = "duplicated block name '".to_owned();
                t.append(name.as_str());
                t.append("'");
                proof {
                    assert(t@ =~= err_text(self@));
                }
                t
            },
            BlockParseError::DuplicatedStartCmd => "duplicated start command".to_owned(),
            BlockParseError::ExpectedBlockDef(_) => "expected block definition".to_owned(),
            BlockParseError::ExpectedToken(_, tok) => {
                let mut t = "expected token ".to_owned();
                t.append(tok.as_str());
                proof {
                    assert(t@ =~= err_text(self@));
                }
                t
            },
            BlockParseError::InternalErr(what) => {
                let mut t = "internal error: ".to_owned();
                t.append(what.as_str());
                proof {
                    assert(t@ =~= err_text(self@));
                }
                t
            },
            BlockParseError::InvalidCharClassFormat(_, v) => {
                let mut t = "invalid character class format '".to_owned();
                t.append(v.as_str());
                t.append("'");
                proof {
                    assert(t@ =~= err_text(self@));
                }
                t
            },
            BlockParseError::InvalidToken(_, v) => {
                let mut t = "invalid token '".to_owned();
                t.append(v.as_str());
                t.append("'");
                proof {
                    assert(t@ =~= err_text(self@));
                }
                t
            },
            BlockParseError::MainBlockNotFound => "main block not found".to_owned(),
            BlockParseError::NoChoiceOrExpressionContent(_) => {
                "no choice or expression content".to_owned()
            },
            BlockParseError::NoStartCmdInMainBlock => "no start command in main block".to_owned(),
            BlockParseError::RuleHasNoChoice(name) => {
                let mut t = "rule '".to_owned();
                t.append(name.as_str());
                t.append("' has no choice");
                proof {
                    assert(t@ =~= err_text(self@));
                }
                t
            },
            BlockParseError::RuleInMainBlock => "rule in main block".to_owned(),
            BlockParseError::StartCmdOutsideMainBlock => {
                "start command outside main block".to_owned()
            },
            BlockParseError::TooBigNumber(_, n) => {
                let mut t = "too big number ".to_owned();
                t.append(n.as_str());
                proof {
                    assert(t@ =~= err_text(self@));
                }
                t
            },
            BlockParseError::UnexpectedEOF(_, tok) => {
                let mut t = "unexpected EOF, expected ".to_owned();
                t.append(tok.as_str());
                proof {
                    assert(t@ =~= err_text(self@));
                }
                t
            },
            BlockParseError::UnexpectedToken(_, u, tok) => {
                let mut t = "unexpected token '".to_owned();
                t.append(u.as_str());
                t.append("', expected ");
                t.append(tok.as_str());
                proof {
                    assert(t@ =~= err_text(self@));
                }
                t
            },
            BlockParseError::UnknownPragmaName(_, name) => {
                let mut t = "unknown pragma name '".to_owned();
                t.append(name.as_str());
                t.append("'");
                proof {
                    assert(t@ =~= err_text(self@));
                }
                t
            },
            BlockParseError::UnknownSyntax(_, tok) => {
                let mut t = "unknown syntax '".to_owned();
                t.append(tok.as_str());
                t.append("'");
                proof {
                    assert(t@ =~= err_text(self@));
                }
                t
            },
            BlockParseError::UnknownToken(_, tok) => {
                let mut t = "unknown token '".to_owned();
                t.append(tok.as_str());
                t.append("'");
                proof {
                    assert(t@ =~= err_text(self@));
                }
                t
            },
        }
    }

    /// The 1-based source line this error points at, where it carries
    /// one; see [`err_line`].
    pub fn line(&self) -> (r: Option<usize>)
        ensures
            r == err_line(self@),
    {
        match self {
            BlockParseError::BlockAliasNotFound(line, _) => Some(*line),
            BlockParseError::DuplicatedBlockAliasName(line, _) => Some(*line),
            BlockParseError::DuplicatedBlockName(line, _) => Some(*line),
            BlockParseError::ExpectedBlockDef(line) => Some(*line),
            BlockParseError::ExpectedToken(line, _) => Some(*line),
            BlockParseError::InvalidCharClassFormat(line, _) => Some(*line),
            BlockParseError::InvalidToken(line, _) => Some(*line),
            BlockParseError::NoChoiceOrExpressionContent(line) => Some(*line),
            BlockParseError::TooBigNumber(line, _) => Some(*line),
            BlockParseError::UnexpectedEOF(line, _) => Some(*line),
            BlockParseError::UnexpectedToken(line, _, _) => Some(*line),
            BlockParseError::UnknownPragmaName(line, _) => Some(*line),
            BlockParseError::UnknownSyntax(line, _) => Some(*line),
            BlockParseError::UnknownToken(line, _) => Some(*line),
            _ => None,
        }
    }
}

/// One command of a block: a rule definition, an entry-point
/// declaration naming the start rule, or an import of another block
/// under a local alias.
#[derive(Debug)]
pub enum BlockCommand {
    Define { pos: CharacterPosition, rule: Rule },
    Start { pos: CharacterPosition, file_alias: String, block_id: String, rule_id: String },
    Use { pos: CharacterPosition, file_alias: String, block_id: String, local_alias: String },
}

/// Mathematical value of a [`BlockCommand`].
#[verifier::ext_equal]
pub enum CmdView {
    Define { pos: CharacterPosition, rule: RuleView },
    Start { pos: CharacterPosition, file_alias: Seq<char>, block_id: Seq<char>, rule_id: Seq<char> },
    Use {
        pos: CharacterPosition,
        file_alias: Seq<char>,
        block_id: Seq<char>,
        local_alias: Seq<char>,
    },
}

pub open spec fn cmd_view(c: BlockCommand) -> CmdView {
    match c {
        BlockCommand::Define { pos, rule } => CmdView::Define { pos, rule: rule_view(rule) },
        BlockCommand::Start { pos, file_alias, block_id, rule_id } => CmdView::Start {
            pos,
            file_alias: file_alias@,
            block_id: block_id@,
            rule_id: rule_id@,
        },
        BlockCommand::Use { pos, file_alias, block_id, local_alias } => CmdView::Use {
            pos,
            file_alias: file_alias@,
            block_id: block_id@,
            local_alias: local_alias@,
        },
    }
}

impl View for BlockCommand {
    type V = CmdView;

    open spec fn view(&self) -> CmdView {
        cmd_view(*self)
    }
}

/// The views of a sequence of commands, in order.
pub open spec fn cmds_view(s: Seq<BlockCommand>) -> Seq<CmdView>
    decreases s,
{
    if s.len() == 0 {
        Seq::empty()
    } else {
        cmds_view(s.subrange(0, s.len() - 1)).push(cmd_view(s[s.len() - 1]))
    }
}

/// Pointwise description of [`cmds_view`].
pub broadcast proof fn lemma_cmds_view(s: Seq<BlockCommand>)
    ensures
        (#[trigger] cmds_view(s)).len() == s.len(),
        forall|i: int| 0 <= i < s.len() ==> cmds_view(s)[i] == cmd_view(s[i]),
    decreases s.len(),
{
    if s.len() > 0 {
        lemma_cmds_view(s.subrange(0, s.len() - 1));
    }
}

/// A named namespace of commands, corresponding to one `[Name]{ ... }`
/// unit of grammar source.
#[derive(Debug)]
pub struct Block {
    pub name: String,
    pub cmds: Vec<BlockCommand>,
}

/// Mathematical value of a [`Block`].
#[verifier::ext_equal]
pub struct BlockView {
    pub name: Seq<char>,
    pub cmds: Seq<CmdView>,
}

pub open spec fn block_view(b: Block) -> BlockView {
    BlockView { name: b.name@, cmds: cmds_view(b.cmds@) }
}

impl View for Block {
    type V = BlockView;

    open spec fn view(&self) -> BlockView {
        block_view(*self)
    }
}

impl Block {
    pub fn new(name: String, cmds: Vec<BlockCommand>) -> (r: Block)
        ensures
            r@ == (BlockView { name: name@, cmds: cmds_view(cmds@) }),
    {
        Block { name, cmds }
    }
}

/// The views of a sequence of blocks, in order.
pub open spec fn blocks_view(s: Seq<Block>) -> Seq<BlockView>
    decreases s,
{
    if s.len() == 0 {
        Seq::empty()
    } else {
        blocks_view(s.subrange(0, s.len() - 1)).push(block_view(s[s.len() - 1]))
    }
}

/// Pointwise description of [`blocks_view`].
pub broadcast proof fn lemma_blocks_view(s: Seq<Block>)
    ensures
        (#[trigger] blocks_view(s)).len() == s.len(),
        forall|i: int| 0 <= i < s.len() ==> blocks_view(s)[i] == block_view(s[i]),
    decreases s.len(),
{
    if s.len() > 0 {
        lemma_blocks_view(s.subrange(0, s.len() - 1));
    }
}

/// The blocks of one source file, in order of definition, keyed by
/// block name, together with the alias under which the file itself was
/// imported (empty for the root file). Kept insertion-ordered;
/// [`BlockMap::add_block`] refuses a duplicate name instead of
/// overwriting.
#[derive(Debug)]
pub struct BlockMap {
    pub file_alias: String,
    pub blocks: Vec<Block>,
}

/// Mathematical value of a [`BlockMap`].
#[verifier::ext_equal]
pub struct BlockMapView {
    pub file_alias: Seq<char>,
    pub blocks: Seq<BlockView>,
}

impl View for BlockMap {
    type V = BlockMapView;

    open spec fn view(&self) -> BlockMapView {
        BlockMapView { file_alias: self.file_alias@, blocks: blocks_view(self.blocks@) }
    }
}

impl BlockMapView {
    /// No two blocks share a name.
    pub open spec fn wf(self) -> bool {
        forall|i: int, j: int|
            0 <= i < j < self.blocks.len() ==> self.blocks[i].name != self.blocks[j].name
    }

    /// Whether some block is named `name`.
    pub open spec fn has_block(self, name: Seq<char>) -> bool {
        exists|i: int| 0 <= i < self.blocks.len() && self.blocks[i].name == name
    }
}

impl BlockMap {
    /// An empty block map for a file imported under the given alias;
    /// the root file's alias is empty.
    pub fn new(file_alias: String) -> (r: BlockMap)
        ensures
            r@ == (BlockMapView { file_alias: file_alias@, blocks: Seq::<BlockView>::empty() }),
            r@.wf(),
    {
        let r = BlockMap { file_alias, blocks: Vec::new() };
        proof {
            assert(r@.blocks =~= Seq::<BlockView>::empty());
        }
        r
    }

    /// Whether some block is named `name`.
    pub fn has_block(&self, name: &str) -> (r: bool)
        ensures
            r == self@.has_block(name@),
    {
        broadcast use lemma_blocks_view;

        let mut i: usize = 0;
        while i < self.blocks.len()
            invariant
                i <= self.blocks@.len(),
                forall|j: int| 0 <= j < i ==> self@.blocks[j].name != name@,
                self@.blocks.len() == self.blocks@.len(),
                forall|j: int|
                    0 <= j < self.blocks@.len() ==> self@.blocks[j] == block_view(self.blocks@[j]),
            decreases self.blocks@.len() - i,
        {
            if crate::text::str_eq(self.blocks[i].name.as_str(), name) {
                proof {
                    assert(0 <= i < self@.blocks.len() && self@.blocks[i as int].name == name@);
                }
                return true;
            }
            i = i + 1;
        }
        false
    }

    /// Appends a block, refusing a duplicate name: inserting a block
    /// under a name that is already present fails with
    /// `DuplicatedBlockName` carrying the line of the new block's first
    /// command (or line zero when it has none) and the name.
    pub fn add_block(&mut self, block: Block) -> (r: Result<(), BlockParseError>)
        ensures
            old(self)@.has_block(block@.name) ==> (r matches Err(e) && e@
                == ErrView::DuplicatedBlockName(block_first_line(block@), block@.name)
                && *final(self) == *old(self)),
            !old(self)@.has_block(block@.name) ==> (r is Ok && final(self)@ == (BlockMapView {
                file_alias: old(self)@.file_alias,
                blocks: old(self)@.blocks.push(block@),
            })),
            !old(self)@.has_block(block@.name) && old(self)@.wf() ==> final(self)@.wf(),
    {
        broadcast use lemma_blocks_view;

        if self.has_block(block.name.as_str()) {
            let line = block_first_line_exec(&block);
            return Err(BlockParseError::DuplicatedBlockName(line, block.name));
        }
        let ghost old_blocks = self.blocks@;
        let ghost bv = block@;
        self.blocks.push(block);
        proof {
            lemma_blocks_view(old_blocks);
            lemma_blocks_view(self.blocks@);
            assert(self@.blocks =~= blocks_view(old_blocks).push(bv));
            if !old(self)@.has_block(bv.name) && old(self)@.wf() {
                assert forall|i: int, j: int|
                    0 <= i < j < self@.blocks.len() implies self@.blocks[i].name
                    != self@.blocks[j].name by {
                    assert(self@.blocks[i] == old(self)@.blocks[i]);
                    if j == self@.blocks.len() - 1 {
                        assert(self@.blocks[j] == bv);
                        assert(old(self)@.blocks[i].name != bv.name);
                    } else {
                        assert(self@.blocks[j] == old(self)@.blocks[j]);
                    }
                }
            }
        }
        Ok(())
    }
}

/// The 1-based line of a block's first command, or zero for an empty
/// block; used to report where a duplicated block was defined.
pub open spec fn block_first_line(b: BlockView) -> usize {
    if b.cmds.len() == 0 {
        0usize
    } else {
        match b.cmds[0] {
            CmdView::Define { pos, .. } => pos.line,
            CmdView::Start { pos, .. } => pos.line,
            CmdView::Use { pos, .. } => pos.line,
        }
    }
}

fn block_first_line_exec(b: &Block) -> (r: usize)
    ensures
        r == block_first_line(b@),
{
    broadcast use lemma_cmds_view;

    if b.cmds.len() == 0 {
        0
    } else {
        match &b.cmds[0] {
            BlockCommand::Define { pos, .. } => pos.line,
            BlockCommand::Start { pos, .. } => pos.line,
            BlockCommand::Use { pos, .. } => pos.line,
        }
    }
}

} // verus!
