//! `Stage:` says which part of the processing the lines after it are for.

use vstd::prelude::*;
use crate::host::parse::parser::{ConfigError, ConfigErrorView, ParseContext, ProcessingStage};
use crate::text;
use crate::text::{concat3, eq, to_lowercase};

verus! {

/// The stage of a name in lower case.
pub open spec fn stage_named(name: Seq<char>) -> Option<ProcessingStage> {
    if name == "premix"@ || name == "pre-mix"@ || name == "pre_mix"@ {
        Some(ProcessingStage::PreMix)
    } else if name == "postmix"@ || name == "post-mix"@ || name == "post_mix"@ {
        Some(ProcessingStage::PostMix)
    } else if name == "capture"@ {
        Some(ProcessingStage::Capture)
    } else {
        None
    }
}

/// The stage of a name, in whatever case.
pub fn find_stage(name: &str) -> (r: Option<ProcessingStage>)
    ensures
        r == stage_named(text::unicode_lower(name@)),
{
    let lowered = to_lowercase(name);
    let s = lowered.as_str();
    if eq(s, "premix") || eq(s, "pre-mix") || eq(s, "pre_mix") {
        Some(ProcessingStage::PreMix)
    } else if eq(s, "postmix") || eq(s, "post-mix") || eq(s, "post_mix") {
        Some(ProcessingStage::PostMix)
    } else if eq(s, "capture") {
        Some(ProcessingStage::Capture)
    } else {
        None
    }
}

/// What is said of a name that is not that of a stage.
pub open spec fn unknown_stage(value: Seq<char>) -> Seq<char> {
    "unknown stage '"@ + value + "', expected PreMix/PostMix/Capture"@
}

/// Handles a `Stage:` line: the stage is set, or the value is not that of one.
pub fn handle(value: &str, ctx: &mut ParseContext) -> (r: Result<(), ConfigError>)
    ensures
        match stage_named(text::unicode_lower(value@)) {
            Some(stage) => {
                &&& r is Ok
                &&& *final(ctx) == (ParseContext { stage, ..*old(ctx) })
            },
            None => {
                &&& r matches Err(e) && e@ == (ConfigErrorView::SyntaxError {
                    file: old(ctx).current_file@,
                    line: old(ctx).line_number,
                    message: unknown_stage(value@),
                })
                &&& *final(ctx) == *old(ctx)
            },
        },
{
    match find_stage(value) {
        Some(stage) => {
            ctx.stage = stage;
            Ok(())
        },
        None => {
            let m = concat3("unknown stage '", value, "', expected PreMix/PostMix/Capture");
            Err(ConfigError::syntax(ctx.current_file.as_str(), ctx.line_number, m.as_str()))
        },
    }
}

} // verus!
