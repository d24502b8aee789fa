//! The course of a load, as its user sees it.

use vstd::prelude::*;
use vstd::string::*;

use crate::template::TemplateConfig;
use crate::text;
use crate::text::{decimal_text, text_eq, Text};

verus! {

/// What is done with the objects once they are built.
#[derive(Debug)]
pub enum RunStep {
    /// They are saved at the given path; nothing is loaded.
    SaveDryRun(String),
    /// They are shown; nothing is loaded.
    ShowDryRun,
    /// They are loaded, if the user agrees.
    Confirm,
}

/// What is done with the objects once they are built: a dry run never loads
/// them.
pub fn after_build(dry_run: bool, output: Option<String>) -> (r: RunStep)
    ensures
        match (dry_run, output) {
            (true, Some(path)) => r matches RunStep::SaveDryRun(p) && p@ == path@,
            (true, None) => r is ShowDryRun,
            (false, _) => r is Confirm,
        },
{
    if dry_run {
        match output {
            Some(path) => RunStep::SaveDryRun(path),
            None => RunStep::ShowDryRun,
        }
    } else {
        RunStep::Confirm
    }
}

/// Whether to load.
#[derive(Debug, PartialEq, Eq, Structural, Clone, Copy)]
pub enum LoadDecision {
    Yes,
    No,
}

/// What an answer means; none where it has to be asked again.
pub open spec fn decision_of(answer: Text) -> Option<LoadDecision> {
    let said = text::lowercase(text::trimmed(answer));
    if said == "y"@ || said == "yes"@ {
        Some(LoadDecision::Yes)
    } else if said == "n"@ || said == "no"@ {
        Some(LoadDecision::No)
    } else {
        None
    }
}

/// What an answer means; none where it has to be asked again.
pub fn confirm_load(answer: &str) -> (r: Option<LoadDecision>)
    ensures
        r == decision_of(answer@),
{
    let said = answer.trim().to_lowercase();
    let said = said.as_str();
    if text_eq(said, "y") || text_eq(said, "yes") {
        Some(LoadDecision::Yes)
    } else if text_eq(said, "n") || text_eq(said, "no") {
        Some(LoadDecision::No)
    } else {
        None
    }
}

/// The question whether to load.
pub fn confirm_prompt(record_count: usize) -> (r: String)
    ensures
        r@ == "\nReady to load "@ + text::decimal(record_count as nat)
            + " record(s). Continue? (y/n): "@,
{
    let mut prompt = "\nReady to load ".to_string();
    prompt.append(decimal_text(record_count as u128).as_str());
    prompt.append(" record(s). Continue? (y/n): ");
    prompt
}

/// What is about to be loaded.
pub open spec fn summary(template_config: TemplateConfig, record_count: nat) -> Text {
    "----------------------------------------\nTemplate:    "@ + template_config.name@
        + "\nVersion:     "@ + text::decimal(template_config.version as nat) + "\nDescription: "@
        + template_config.description@ + "\nObject:      "@ + template_config.target.object@
        + "\nOperation:   "@ + template_config.target.operation@ + "\nRecords:     "@
        + text::decimal(record_count) + "\n----------------------------------------"@
}

/// What is about to be loaded.
pub fn load_summary(template_config: &TemplateConfig, record_count: usize) -> (r: String)
    ensures
        r@ == summary(*template_config, record_count as nat),
{
    let mut out = "----------------------------------------\nTemplate:    ".to_string();
    out.append(template_config.name.as_str());
    out.append("\nVersion:     ");
    out.append(decimal_text(template_config.version as u128).as_str());
    out.append("\nDescription: ");
    out.append(template_config.description.as_str());
    out.append("\nObject:      ");
    out.append(template_config.target.object.as_str());
    out.append("\nOperation:   ");
    out.append(template_config.target.operation.as_str());
    out.append("\nRecords:     ");
    out.append(decimal_text(record_count as u128).as_str());
    out.append("\n----------------------------------------");
    out
}

} // verus!
