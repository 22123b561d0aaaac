//! Runs the rules over a document.
//!
//! The rules are registered in a fixed order, and the issues of a document
//! are the issues of the enabled rules in that order. A rule is enabled
//! where the configuration says so under one of its names, and else where
//! it is enabled by default.

use crate::lines::{lines_with_terminators, terminated_lines};
use crate::lsp::config::{Config, ConfigView, RuleSettingView, config_view};
use crate::rules::footnotes::footnote_lines;
use crate::rules::kmd001::{KMD001, kmd001_issues, kmd001_names};
use crate::rules::kmd002::{KMD002, kmd002_issues, kmd002_names};
use crate::rules::kmd003::{KMD003, kmd003_issues, kmd003_names};
use crate::rules::kmd004::{KMD004, abbreviation_lines, kmd004_issues, kmd004_names};
use crate::rules::kmd005::{KMD005, duplicate_issues, heading_lines, headings_of, kmd005_names};
use crate::rules::md046::{
    BlockStyle, MD046, block_lines, code_blocks, md046_names, style_issues,
};
use crate::rules::{Rule, RuleParams};
use crate::text::{chars_of, string_of};
use crate::types::{LintError, LintErrorView, clone_texts, issues_view, texts_view};
use vstd::prelude::*;

verus! {

/// The first setting of a configuration that goes by one of `names`.
pub open spec fn setting_of(rules: Seq<RuleSettingView>, names: Seq<Seq<char>>) -> Option<
    RuleSettingView,
>
    decreases rules.len(),
{
    if rules.len() == 0 {
        None
    } else if names.contains(rules[0].name) {
        Some(rules[0])
    } else {
        setting_of(rules.drop_first(), names)
    }
}

/// Whether a rule with the given names runs.
pub open spec fn is_enabled(config: Option<ConfigView>, names: Seq<Seq<char>>, default: bool) -> bool {
    match config {
        Some(c) => match setting_of(c.rules, names) {
            Some(setting) => setting.enabled,
            None => default,
        },
        None => default,
    }
}

/// The style that the configuration sets for a rule with the given names.
pub open spec fn style_of(config: Option<ConfigView>, names: Seq<Seq<char>>) -> Option<BlockStyle> {
    match config {
        Some(c) => match setting_of(c.rules, names) {
            Some(setting) => match setting.style {
                Some(style) => if style == "fenced"@ {
                    Some(BlockStyle::Fenced)
                } else if style == "indented"@ {
                    Some(BlockStyle::Indented)
                } else {
                    None
                },
                None => None,
            },
            None => None,
        },
        None => None,
    }
}

/// `issues` where the rule runs, else nothing.
pub open spec fn when_enabled(enabled: bool, issues: Seq<LintErrorView>) -> Seq<LintErrorView> {
    if enabled {
        issues
    } else {
        Seq::empty()
    }
}

/// The issues of a document under a configuration: those of the enabled
/// rules, in the order in which the rules are registered.
pub open spec fn lint_result(content: Seq<char>, config: Option<ConfigView>) -> Seq<LintErrorView> {
    let lines = lines_with_terminators(content);
    when_enabled(
        is_enabled(config, md046_names(), true),
        style_issues(code_blocks(block_lines(lines)), style_of(config, md046_names())),
    ) + when_enabled(is_enabled(config, kmd001_names(), false), kmd001_issues(lines))
        + when_enabled(
        is_enabled(config, kmd002_names(), false),
        kmd002_issues(footnote_lines(lines)),
    ) + when_enabled(
        is_enabled(config, kmd003_names(), false),
        kmd003_issues(footnote_lines(lines)),
    ) + when_enabled(
        is_enabled(config, kmd004_names(), false),
        kmd004_issues(abbreviation_lines(lines)),
    ) + when_enabled(
        is_enabled(config, kmd005_names(), false),
        duplicate_issues(headings_of(heading_lines(lines))),
    )
}

/// Whether `name` is one of `names`.
fn is_one_of(names: &Vec<String>, name: &String) -> (r: bool)
    ensures
        r == texts_view(names@).contains(name@),
{
    let mut i: usize = 0;
    while i < names.len()
        invariant
            i <= names.len(),
            forall|k: int| 0 <= k < i ==> texts_view(names@)[k] != name@,
        decreases names.len() - i,
    {
        if names[i] == *name {
            assert(texts_view(names@)[i as int] == name@);
            return true;
        }
        i += 1;
    }
    false
}

/// The place of the first setting that goes by one of `names`.
fn find_setting(config: &Config, names: &Vec<String>) -> (r: Option<usize>)
    ensures
        match r {
            Some(i) => i < config.rules@.len() && setting_of(config@.rules, texts_view(names@))
                == Some(config.rules@[i as int]@),
            None => setting_of(config@.rules, texts_view(names@)) is None,
        },
{
    let ghost all = config@.rules;
    let mut i: usize = 0;
    assert(all.skip(0) =~= all);
    while i < config.rules.len()
        invariant
            i <= config.rules@.len(),
            all == config@.rules,
            setting_of(all, texts_view(names@)) == setting_of(
                all.skip(i as int),
                texts_view(names@),
            ),
        decreases config.rules.len() - i,
    {
        assert(all.skip(i as int).drop_first() =~= all.skip(i + 1));
        assert(all.skip(i as int)[0] == config.rules@[i as int]@);
        if is_one_of(names, &config.rules[i].name) {
            return Some(i);
        }
        i += 1;
    }
    None
}

/// Whether a rule runs, and the options it is given.
fn settings_for(config: &Option<Config>, names: &Vec<String>, default: bool) -> (r: (
    bool,
    Vec<(String, String)>,
))
    ensures
        r.0 == is_enabled(config_view(*config), texts_view(names@), default),
        crate::rules::md046::required_style(r.1@) == style_of(
            config_view(*config),
            texts_view(names@),
        ),
{
    let mut options: Vec<(String, String)> = Vec::new();
    let enabled = match config {
        Some(c) => match find_setting(c, names) {
            Some(i) => {
                match &c.rules[i].style {
                    Some(style) => {
                        let key = string_of(chars_of("style").as_slice());
                        options.push((key, style.clone()));
                        assert(options@.drop_first() =~= Seq::<(String, String)>::empty());
                    },
                    None => {},
                }
                c.rules[i].enabled
            },
            None => default,
        },
        None => default,
    };
    (enabled, options)
}

/// Lints a document: runs the enabled rules in their order and returns
/// their issues one after the other.
pub fn lint_document(name: &str, content: &str, config: &Option<Config>) -> (errors: Vec<LintError>)
    ensures
        issues_view(errors@) == lint_result(content@, config_view(*config)),
{
    let lines = terminated_lines(content);
    let mut errors: Vec<LintError> = Vec::new();
    let ghost all = texts_view(lines@);

    let (enabled, options) = settings_for(config, &MD046.names(), MD046.is_enabled_by_default());
    let found = if enabled {
        MD046.lint(&params(name, &lines, options))
    } else {
        Vec::new()
    };
    let ghost first = issues_view(found@);
    assert(first =~= when_enabled(
        is_enabled(config_view(*config), md046_names(), true),
        style_issues(code_blocks(block_lines(all)), style_of(config_view(*config), md046_names())),
    ));
    extend(&mut errors, found);

    let (enabled, options) = settings_for(config, &KMD001.names(), KMD001.is_enabled_by_default());
    let found = if enabled {
        KMD001.lint(&params(name, &lines, options))
    } else {
        Vec::new()
    };
    let ghost second = issues_view(found@);
    assert(second =~= when_enabled(
        is_enabled(config_view(*config), kmd001_names(), false),
        kmd001_issues(all),
    ));
    extend(&mut errors, found);

    let (enabled, options) = settings_for(config, &KMD002.names(), KMD002.is_enabled_by_default());
    let found = if enabled {
        KMD002.lint(&params(name, &lines, options))
    } else {
        Vec::new()
    };
    let ghost third = issues_view(found@);
    assert(third =~= when_enabled(
        is_enabled(config_view(*config), kmd002_names(), false),
        kmd002_issues(footnote_lines(all)),
    ));
    extend(&mut errors, found);

    let (enabled, options) = settings_for(config, &KMD003.names(), KMD003.is_enabled_by_default());
    let found = if enabled {
        KMD003.lint(&params(name, &lines, options))
    } else {
        Vec::new()
    };
    let ghost fourth = issues_view(found@);
    assert(fourth =~= when_enabled(
        is_enabled(config_view(*config), kmd003_names(), false),
        kmd003_issues(footnote_lines(all)),
    ));
    extend(&mut errors, found);

    let (enabled, options) = settings_for(config, &KMD004.names(), KMD004.is_enabled_by_default());
    let found = if enabled {
        KMD004.lint(&params(name, &lines, options))
    } else {
        Vec::new()
    };
    let ghost fifth = issues_view(found@);
    assert(fifth =~= when_enabled(
        is_enabled(config_view(*config), kmd004_names(), false),
        kmd004_issues(abbreviation_lines(all)),
    ));
    extend(&mut errors, found);

    let (enabled, options) = settings_for(config, &KMD005.names(), KMD005.is_enabled_by_default());
    let found = if enabled {
        KMD005.lint(&params(name, &lines, options))
    } else {
        Vec::new()
    };
    let ghost sixth = issues_view(found@);
    assert(sixth =~= when_enabled(
        is_enabled(config_view(*config), kmd005_names(), false),
        duplicate_issues(headings_of(heading_lines(all))),
    ));
    extend(&mut errors, found);
    assert(issues_view(errors@) =~= first + second + third + fourth + fifth + sixth);
    errors
}

/// What a rule is given.
fn params(name: &str, lines: &Vec<String>, config: Vec<(String, String)>) -> (r: RuleParams)
    ensures
        texts_view(r.lines@) == texts_view(lines@),
        r.config@ == config@,
{
    RuleParams {
        name: string_of(chars_of(name).as_slice()),
        version: string_of(chars_of("0.1.0").as_slice()),
        lines: clone_texts(lines),
        front_matter_lines: Vec::new(),
        config,
    }
}

/// Appends the issues of `more` to `errors`.
fn extend(errors: &mut Vec<LintError>, more: Vec<LintError>)
    ensures
        issues_view(final(errors)@) == issues_view(old(errors)@) + issues_view(more@),
{
    let mut more = more;
    let ghost target = issues_view(old(errors)@) + issues_view(more@);
    errors.append(&mut more);
    assert(issues_view(errors@) =~= target);
}

} // verus!
