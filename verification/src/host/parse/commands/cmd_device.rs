//! `Device:` names the device that a file is for, or ends the file.

use vstd::prelude::*;
use crate::host::parse::parser::{ConfigError, ConfigErrorView, ParseContext};
use crate::text;
use crate::text::eq_ignore_case;

verus! {

/// Handles a `Device:` line. `AbortFile`, in whatever case, ends the current file
/// and no other; every other value but the empty one is the path of a device.
pub fn handle(value: &str, ctx: &mut ParseContext) -> (r: Result<(), ConfigError>)
    ensures
        if text::eq_ci(value@, "AbortFile"@) {
            &&& r matches Err(e) && e@ == ConfigErrorView::AbortFile
            &&& *final(ctx) == (ParseContext { abort_file: true, ..*old(ctx) })
        } else if value@.len() == 0 {
            &&& r matches Err(e) && e@ == (ConfigErrorView::SyntaxError {
                file: old(ctx).current_file@,
                line: old(ctx).line_number,
                message: "Device: requires a path or 'AbortFile'"@,
            })
            &&& *final(ctx) == *old(ctx)
        } else {
            r is Ok && *final(ctx) == *old(ctx)
        },
{
    if eq_ignore_case(value, "AbortFile") {
        ctx.abort_file = true;
        return Err(ConfigError::AbortFile);
    }
    if value.is_empty() {
        return Err(
            ConfigError::syntax(
                ctx.current_file.as_str(),
                ctx.line_number,
                "Device: requires a path or 'AbortFile'",
            ),
        );
    }
    Ok(())
}

} // verus!
