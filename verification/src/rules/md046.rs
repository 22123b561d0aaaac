//! MD046: code block style.
//!
//! A code block is fenced, between lines of backticks or tildes, or
//! indented by four spaces. The option `style` asks for `fenced` or for
//! `indented` blocks; without it, every block is to have the style of the
//! first.

use crate::patterns::{Matcher, first_match, group, group_of};
use crate::rules::{ParserType, Rule, RuleParams, selected, strings, strip_terminator};
use crate::text::{
    append_str, chars_of, occurs_at, same, starts_with, string_of, trim, trimmed, utf8_width,
    width, without_terminator,
};
use crate::types::{LintError, LintErrorView, Severity, issues_view, texts_view};
use vstd::prelude::*;

verus! {

/// The rule that asks for one style of code blocks.
pub struct MD046;

/// The pattern of a line that opens or closes a fenced code block: its
/// indentation, then three backticks or tildes or more.
pub const CODE_FENCE_PATTERN: &'static str = "^(\\s*)(`{3,}|~{3,})";

/// The style of a code block.
#[derive(Clone, Copy, Debug, PartialEq, Eq, Structural)]
pub enum BlockStyle {
    Fenced,
    Indented,
}

/// A code block: its style and the number of the line it begins on.
#[derive(Clone, Copy, Debug, PartialEq, Eq, Structural)]
pub struct CodeBlock {
    pub style: BlockStyle,
    pub start_line: usize,
}

/// The fence of a line: how far it is indented, the character it is made
/// of, and how long it is.
#[derive(Clone, Copy, Debug, PartialEq, Eq, Structural)]
pub struct FenceMark {
    pub indent: usize,
    pub mark: char,
    pub length: usize,
}

/// What one line holds for the rule.
#[derive(Clone, Copy, Debug, PartialEq, Eq, Structural)]
pub struct BlockLine {
    /// The fence that the line begins with.
    pub fence: Option<FenceMark>,
    /// Whether the line is empty.
    pub blank: bool,
    /// Whether the line begins with four spaces.
    pub indented: bool,
    /// Whether the line holds nothing but whitespace.
    pub whitespace_only: bool,
}

/// `n` as a machine number, or the largest one where it does not fit.
pub open spec fn clamp_usize(n: nat) -> usize {
    if n <= usize::MAX {
        n as usize
    } else {
        usize::MAX
    }
}

/// The fence of a match of the fence pattern: the length of the first
/// group in bytes, and the first character and the length in bytes of the
/// second. None where a group is missing or the second is empty.
pub open spec fn fence_of(groups: Seq<Option<Seq<char>>>) -> Option<FenceMark> {
    match (group_of(groups, 1), group_of(groups, 2)) {
        (Some(indent), Some(fence)) => if fence.len() > 0 {
            Some(
                FenceMark {
                    indent: clamp_usize(utf8_width(indent)),
                    mark: fence[0],
                    length: clamp_usize(utf8_width(fence)),
                },
            )
        } else {
            None
        },
        _ => None,
    }
}

/// What a line holds for the rule.
pub open spec fn block_line(line: Seq<char>) -> BlockLine {
    let trimmed = without_terminator(line);
    BlockLine {
        fence: match first_match(CODE_FENCE_PATTERN@, trimmed) {
            Some(groups) => fence_of(groups),
            None => None,
        },
        blank: trimmed.len() == 0,
        indented: occurs_at(line, "    "@, 0),
        whitespace_only: trim(trimmed).len() == 0,
    }
}

/// What the lines of a document hold for the rule.
pub open spec fn block_lines(lines: Seq<Seq<char>>) -> Seq<BlockLine> {
    Seq::new(lines.len(), |i: int| block_line(lines[i]))
}

/// The fence of a match of the fence pattern.
pub fn match_fence(groups: &Vec<Option<String>>) -> (r: Option<FenceMark>)
    ensures
        r == fence_of(crate::patterns::groups_view(groups@)),
{
    let indent = match group(groups, 1) {
        Some(s) => chars_of(s.as_str()),
        None => { return None; },
    };
    let fence = match group(groups, 2) {
        Some(s) => chars_of(s.as_str()),
        None => { return None; },
    };
    if fence.len() == 0 {
        return None;
    }
    Some(
        FenceMark {
            indent: width(indent.as_slice()),
            mark: fence[0],
            length: width(fence.as_slice()),
        },
    )
}

/// Reads what the lines of a document hold for the rule.
pub fn scan_blocks(lines: &Vec<String>) -> (r: Vec<BlockLine>)
    ensures
        r@ == block_lines(texts_view(lines@)),
{
    let pattern = Matcher::new(CODE_FENCE_PATTERN);
    let mut r: Vec<BlockLine> = Vec::new();
    let mut i: usize = 0;
    while i < lines.len()
        invariant
            i <= lines.len(),
            r.len() == i,
            pattern@ == CODE_FENCE_PATTERN@,
            forall|k: int| 0 <= k < i ==> r@[k] == block_line(lines@[k]@),
        decreases lines.len() - i,
    {
        let line = chars_of(lines[i].as_str());
        let trimmed = strip_terminator(line.as_slice());
        let fence = match pattern.first(string_of(trimmed.as_slice()).as_str()) {
            Some(groups) => match_fence(&groups),
            None => None,
        };
        r.push(
            BlockLine {
                fence,
                blank: trimmed.len() == 0,
                indented: starts_with(line.as_slice(), chars_of("    ").as_slice()),
                whitespace_only: trimmed_is_empty(trimmed.as_slice()),
            },
        );
        i += 1;
    }
    assert(r@ =~= block_lines(texts_view(lines@)));
    r
}

/// Whether a text holds nothing but whitespace.
fn trimmed_is_empty(s: &[char]) -> (r: bool)
    ensures
        r == (trim(s@).len() == 0),
{
    trimmed(s).len() == 0
}

/// The state of the search for code blocks.
pub struct BlockScan {
    /// The blocks found, in the order in which they begin or end.
    pub blocks: Seq<CodeBlock>,
    /// Whether a fenced block is open, and the fence that opened it.
    pub in_fenced: bool,
    pub opener: FenceMark,
    /// Whether an indented block is open, and the line it began on.
    pub in_indented: bool,
    pub indented_start: usize,
}

/// Whether `mark` closes the fenced block that `opener` opened: it is made
/// of the same character, is no shorter and no further indented.
pub open spec fn closes(opener: FenceMark, mark: FenceMark) -> bool {
    mark.mark == opener.mark && mark.length >= opener.length && mark.indent <= opener.indent
}

/// `blocks` with the open indented block, if there is one.
pub open spec fn with_open_indented(scan: BlockScan) -> Seq<CodeBlock> {
    if scan.in_indented {
        scan.blocks.push(CodeBlock { style: BlockStyle::Indented, start_line: scan.indented_start })
    } else {
        scan.blocks
    }
}

/// The state after the first `n` lines.
///
/// Within a fenced block only a fence that closes it counts. Outside, a
/// fence indented by less than four opens a fenced block, which ends an
/// open indented block. An indented line that is not empty opens an
/// indented block where the line before it holds only whitespace or there
/// is none; a line that is neither indented nor empty ends the block.
pub open spec fn block_scan(facts: Seq<BlockLine>, n: int) -> BlockScan
    decreases n,
{
    if n <= 0 || n > facts.len() {
        BlockScan {
            blocks: Seq::empty(),
            in_fenced: false,
            opener: FenceMark { indent: 0, mark: ' ', length: 0 },
            in_indented: false,
            indented_start: 0,
        }
    } else {
        let before = block_scan(facts, n - 1);
        let fact = facts[n - 1];
        match fact.fence {
            Some(mark) => {
                if before.in_fenced {
                    BlockScan { in_fenced: !closes(before.opener, mark), ..before }
                } else if mark.indent < 4 {
                    BlockScan {
                        blocks: with_open_indented(before).push(
                            CodeBlock { style: BlockStyle::Fenced, start_line: n as usize },
                        ),
                        in_fenced: true,
                        opener: mark,
                        in_indented: false,
                        indented_start: before.indented_start,
                    }
                } else {
                    before
                }
            },
            None => {
                if before.in_fenced {
                    before
                } else if !fact.blank && fact.indented {
                    if !before.in_indented && (n == 1 || facts[n - 2].whitespace_only) {
                        BlockScan { in_indented: true, indented_start: n as usize, ..before }
                    } else {
                        before
                    }
                } else if before.in_indented && !fact.blank {
                    BlockScan {
                        blocks: with_open_indented(before),
                        in_indented: false,
                        ..before
                    }
                } else {
                    before
                }
            },
        }
    }
}

/// The code blocks of a document.
pub open spec fn code_blocks(facts: Seq<BlockLine>) -> Seq<CodeBlock> {
    with_open_indented(block_scan(facts, facts.len() as int))
}

/// Finds the code blocks from what the lines hold.
pub fn blocks_of(facts: &Vec<BlockLine>) -> (blocks: Vec<CodeBlock>)
    ensures
        blocks@ == code_blocks(facts@),
{
    let mut blocks: Vec<CodeBlock> = Vec::new();
    let mut in_fenced = false;
    let mut opener = FenceMark { indent: 0, mark: ' ', length: 0 };
    let mut in_indented = false;
    let mut indented_start: usize = 0;
    let mut idx: usize = 0;
    while idx < facts.len()
        invariant
            idx <= facts.len(),
            block_scan(facts@, idx as int) == (BlockScan {
                blocks: blocks@,
                in_fenced,
                opener,
                in_indented,
                indented_start,
            }),
        decreases facts.len() - idx,
    {
        let line_number = idx + 1;
        let fact = facts[idx];
        match fact.fence {
            Some(mark) => {
                if in_fenced {
                    if mark.mark == opener.mark && mark.length >= opener.length && mark.indent
                        <= opener.indent {
                        in_fenced = false;
                    }
                } else if mark.indent < 4 {
                    if in_indented {
                        blocks.push(
                            CodeBlock { style: BlockStyle::Indented, start_line: indented_start },
                        );
                        in_indented = false;
                    }
                    in_fenced = true;
                    opener = mark;
                    blocks.push(CodeBlock { style: BlockStyle::Fenced, start_line: line_number });
                }
            },
            None => {
                if !in_fenced {
                    if !fact.blank && fact.indented {
                        if !in_indented {
                            let prev_blank = if idx == 0 {
                                true
                            } else {
                                facts[idx - 1].whitespace_only
                            };
                            if prev_blank {
                                in_indented = true;
                                indented_start = line_number;
                            }
                        }
                    } else if in_indented && !fact.blank {
                        blocks.push(
                            CodeBlock { style: BlockStyle::Indented, start_line: indented_start },
                        );
                        in_indented = false;
                    }
                }
            },
        }
        idx += 1;
    }
    if in_indented {
        blocks.push(CodeBlock { style: BlockStyle::Indented, start_line: indented_start });
    }
    blocks
}

/// Finds the code blocks of a document: their styles and the lines they
/// begin on.
pub fn find_code_blocks(lines: &Vec<String>) -> (blocks: Vec<CodeBlock>)
    ensures
        blocks@ == code_blocks(block_lines(texts_view(lines@))),
{
    let facts = scan_blocks(lines);
    blocks_of(&facts)
}

/// The value of the first option named `name`.
pub open spec fn option_value(config: Seq<(String, String)>, name: Seq<char>) -> Option<Seq<char>>
    decreases config.len(),
{
    if config.len() == 0 {
        None
    } else if config[0].0@ == name {
        Some(config[0].1@)
    } else {
        option_value(config.drop_first(), name)
    }
}

/// The style that the options ask for.
pub open spec fn required_style(config: Seq<(String, String)>) -> Option<BlockStyle> {
    match option_value(config, "style"@) {
        Some(style) => if style == "fenced"@ {
            Some(BlockStyle::Fenced)
        } else if style == "indented"@ {
            Some(BlockStyle::Indented)
        } else {
            None
        },
        None => None,
    }
}

/// The style that every block is to have: the required one, else that of
/// the first block.
pub open spec fn expected_style(blocks: Seq<CodeBlock>, required: Option<BlockStyle>) -> BlockStyle {
    match required {
        Some(style) => style,
        None => if blocks.len() > 0 {
            blocks[0].style
        } else {
            BlockStyle::Fenced
        },
    }
}

/// The word for a style.
pub open spec fn style_label(style: BlockStyle) -> Seq<char> {
    match style {
        BlockStyle::Fenced => "fenced"@,
        BlockStyle::Indented => "indented"@,
    }
}

/// The rule's names.
pub open spec fn md046_names() -> Seq<Seq<char>> {
    seq!["MD046"@, "code-block-style"@]
}

/// Where the rule is documented.
pub open spec fn md046_information() -> Seq<char> {
    "https://github.com/DavidAnson/markdownlint/blob/main/doc/md046.md"@
}

/// The issue of a block that has not the expected style.
pub open spec fn style_issue(block: CodeBlock, expected: BlockStyle) -> LintErrorView {
    LintErrorView {
        line_number: block.start_line,
        rule_names: md046_names(),
        rule_description: "Code block style"@,
        error_detail: Some(
            "Expected: "@ + style_label(expected) + "; Actual: "@ + style_label(block.style),
        ),
        error_context: None,
        rule_information: Some(md046_information()),
        error_range: None,
        fix_info: None,
        suggestion: Some("Use "@ + style_label(expected) + " code block style"@),
        severity: Severity::Error,
        fix_only: false,
    }
}

/// The issues of the blocks: one for each block that has not the expected
/// style, in the order of the blocks.
pub open spec fn style_issues(blocks: Seq<CodeBlock>, required: Option<BlockStyle>) -> Seq<
    LintErrorView,
> {
    let expected = expected_style(blocks, required);
    let found = selected(blocks.len() as int, |k: int| blocks[k].style != expected);
    Seq::new(found.len(), |k: int| style_issue(blocks[found[k]], expected))
}

/// The style that the options ask for.
pub fn style_option(config: &Vec<(String, String)>) -> (r: Option<BlockStyle>)
    ensures
        r == required_style(config@),
{
    let name = chars_of("style");
    let mut i: usize = 0;
    assert(config@.skip(0) =~= config@);
    while i < config.len()
        invariant
            i <= config.len(),
            name@ == "style"@,
            option_value(config@, "style"@) == option_value(config@.skip(i as int), "style"@),
        decreases config.len() - i,
    {
        assert(config@.skip(i as int).drop_first() =~= config@.skip(i + 1));
        if same(chars_of(config[i].0.as_str()).as_slice(), name.as_slice()) {
            let value = chars_of(config[i].1.as_str());
            if same(value.as_slice(), chars_of("fenced").as_slice()) {
                return Some(BlockStyle::Fenced);
            } else if same(value.as_slice(), chars_of("indented").as_slice()) {
                return Some(BlockStyle::Indented);
            } else {
                return None;
            }
        }
        i += 1;
    }
    None
}

/// The word for a style.
fn label(style: BlockStyle) -> (r: &'static str)
    ensures
        r@ == style_label(style),
{
    match style {
        BlockStyle::Fenced => "fenced",
        BlockStyle::Indented => "indented",
    }
}

/// Reports the blocks that have not the expected style.
pub fn report_styles(blocks: &Vec<CodeBlock>, required: Option<BlockStyle>) -> (errors: Vec<
    LintError,
>)
    ensures
        issues_view(errors@) == style_issues(blocks@, required),
{
    let mut errors: Vec<LintError> = Vec::new();
    if blocks.len() == 0 {
        assert(issues_view(errors@) =~= style_issues(blocks@, required));
        return errors;
    }
    let expected = match required {
        Some(style) => style,
        None => blocks[0].style,
    };
    let ghost wanted = |k: int| blocks@[k].style != expected;
    let mut i: usize = 0;
    while i < blocks.len()
        invariant
            i <= blocks.len(),
            expected == expected_style(blocks@, required),
            wanted == (|k: int| blocks@[k].style != expected),
            errors@.len() == selected(i as int, wanted).len(),
            forall|k: int|
                0 <= k < errors@.len() ==> errors@[k]@ == style_issue(
                    blocks@[selected(i as int, wanted)[k]],
                    expected,
                ),
        decreases blocks.len() - i,
    {
        let block = blocks[i];
        let differs = match (block.style, expected) {
            (BlockStyle::Fenced, BlockStyle::Fenced) => false,
            (BlockStyle::Indented, BlockStyle::Indented) => false,
            _ => true,
        };
        if differs {
            let mut detail: Vec<char> = Vec::new();
            append_str(&mut detail, "Expected: ");
            append_str(&mut detail, label(expected));
            append_str(&mut detail, "; Actual: ");
            append_str(&mut detail, label(block.style));
            let mut suggestion: Vec<char> = Vec::new();
            append_str(&mut suggestion, "Use ");
            append_str(&mut suggestion, label(expected));
            append_str(&mut suggestion, " code block style");
            let names = strings(vec!["MD046", "code-block-style"]);
            assert(texts_view(names@) =~= md046_names());
            errors.push(
                LintError {
                    line_number: block.start_line,
                    rule_names: names,
                    rule_description: string_of(chars_of("Code block style").as_slice()),
                    error_detail: Some(string_of(detail.as_slice())),
                    error_context: None,
                    rule_information: Some(
                        string_of(
                            chars_of(
                                "https://github.com/DavidAnson/markdownlint/blob/main/doc/md046.md",
                            ).as_slice(),
                        ),
                    ),
                    error_range: None,
                    fix_info: None,
                    suggestion: Some(string_of(suggestion.as_slice())),
                    severity: Severity::Error,
                    fix_only: false,
                },
            );
        }
        assert(differs == wanted(i as int));
        i += 1;
    }
    assert(issues_view(errors@) =~= style_issues(blocks@, required));
    errors
}

impl Rule for MD046 {
    fn names(&self) -> (r: Vec<String>)
        ensures
            texts_view(r@) == md046_names(),
    {
        let r = strings(vec!["MD046", "code-block-style"]);
        assert(texts_view(r@) =~= md046_names());
        r
    }

    fn description(&self) -> (r: String)
        ensures
            r@ == "Code block style"@,
    {
        string_of(chars_of("Code block style").as_slice())
    }

    fn tags(&self) -> (r: Vec<String>)
        ensures
            texts_view(r@) == seq!["code"@],
    {
        let r = strings(vec!["code"]);
        assert(texts_view(r@) =~= seq!["code"@]);
        r
    }

    fn parser_type(&self) -> (r: ParserType)
        ensures
            r == ParserType::NoParser,
    {
        ParserType::NoParser
    }

    fn is_enabled_by_default(&self) -> (r: bool)
        ensures
            r,
    {
        true
    }

    fn information(&self) -> (r: Option<String>)
        ensures
            crate::types::text_view(r) == Some(md046_information()),
    {
        Some(
            string_of(
                chars_of(
                    "https://github.com/DavidAnson/markdownlint/blob/main/doc/md046.md",
                ).as_slice(),
            ),
        )
    }

    fn lint(&self, params: &RuleParams) -> (errors: Vec<LintError>)
        ensures
            issues_view(errors@) == style_issues(
                code_blocks(block_lines(texts_view(params.lines@))),
                required_style(params.config@),
            ),
    {
        let required = style_option(&params.config);
        let blocks = find_code_blocks(&params.lines);
        report_styles(&blocks, required)
    }
}

} // verus!
