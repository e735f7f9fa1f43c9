//! `Channel:` selects the channels that the lines after it are for.

use vstd::prelude::*;
use crate::host::chain;
use crate::host::chain::ChainView;
use crate::host::parse::parser::{ConfigError, ConfigErrorView, ParseContext};
use crate::registry::copy_texts;
use crate::text;
use crate::text::{eq, split_words, trim_text};

verus! {

/// What a `Channel:` line comes to: the channels it selects, or what is wrong with
/// it.
pub open spec fn selected(value: Seq<char>, chain: ChainView) -> Result<ChainView, Seq<char>> {
    if value.len() == 0 {
        Err("Channel: requires at least one channel name or '*'"@)
    } else if text::trim(value) == "*"@ {
        Ok(ChainView { current_names: chain.all_names, ..chain })
    } else if text::words(value).len() == 0 {
        Err("Channel: requires at least one channel name"@)
    } else {
        Ok(
            ChainView {
                all_names: chain::with_channels(chain.all_names, text::words(value)),
                current_names: text::words(value),
                ..chain
            },
        )
    }
}

fn ensure_channels(ctx: &mut ParseContext, names: &[String])
    ensures
        final(ctx).chain@ == (ChainView {
            all_names: chain::with_channels(old(ctx).chain@.all_names, text::texts(names@)),
            ..old(ctx).chain@
        }),
        *final(ctx) == (ParseContext { chain: final(ctx).chain, ..*old(ctx) }),
{
    let ghost all = text::texts(names@);
    let ghost start = ctx.chain@;
    let mut i: usize = 0;
    assert(all.take(0) =~= Seq::empty());
    while i < names.len()
        invariant
            i <= names.len(),
            all == text::texts(names@),
            start == old(ctx).chain@,
            ctx.chain@ == (ChainView {
                all_names: chain::with_channels(start.all_names, all.take(i as int)),
                ..start
            }),
            *ctx == (ParseContext { chain: ctx.chain, ..*old(ctx) }),
        decreases names.len() - i,
    {
        let ghost t = all.take(i + 1);
        let ghost before = ctx.chain@.all_names;
        assert(t.drop_last() =~= all.take(i as int));
        assert(t.last() == names@[i as int]@);
        ctx.chain.ensure_channel_exists(names[i].as_str());
        proof {
            let one = seq![names@[i as int]@];
            assert(one.drop_last() =~= Seq::empty());
            assert(one.last() == names@[i as int]@);
            assert(chain::with_channels(before, one.drop_last()) == before);
        }
        i += 1;
    }
    assert(all.take(i as int) =~= all);
}

/// Handles a `Channel:` line: the named channels are selected, and made where they
/// are not there; `*` selects all.
pub fn handle(value: &str, ctx: &mut ParseContext) -> (r: Result<(), ConfigError>)
    ensures
        match selected(value@, old(ctx).chain@) {
            Ok(chain) => {
                &&& r is Ok
                &&& final(ctx).chain@ == chain
                &&& *final(ctx) == (ParseContext { chain: final(ctx).chain, ..*old(ctx) })
            },
            Err(message) => {
                &&& r matches Err(e) && e@ == (ConfigErrorView::SyntaxError {
                    file: old(ctx).current_file@,
                    line: old(ctx).line_number,
                    message,
                })
                &&& *final(ctx) == *old(ctx)
            },
        },
{
    if value.is_empty() {
        return Err(
            ConfigError::syntax(
                ctx.current_file.as_str(),
                ctx.line_number,
                "Channel: requires at least one channel name or '*'",
            ),
        );
    }
    let trimmed = trim_text(value);
    if eq(trimmed.as_str(), "*") {
        let all = copy_texts(ctx.chain.all_channel_names());
        ctx.chain.set_current_channel_names(all);
        return Ok(());
    }
    let names = split_words(value);
    assert(text::texts(names@).len() == names@.len());
    if names.len() == 0 {
        return Err(
            ConfigError::syntax(
                ctx.current_file.as_str(),
                ctx.line_number,
                "Channel: requires at least one channel name",
            ),
        );
    }
    ensure_channels(ctx, names.as_slice());
    ctx.chain.set_current_channel_names(names);
    Ok(())
}

/// After a `Channel:` line every selected channel is there.
pub proof fn law_selected_channels_exist(value: Seq<char>, chain: ChainView)
    ensures
        selected(value, chain) matches Ok(after) ==> forall|i: int|
            0 <= i < after.current_names.len() ==> after.all_names.contains(
                #[trigger] after.current_names[i],
            ),
{
    chain::law_channels_exist(chain.all_names, text::words(value));
    match selected(value, chain) {
        Ok(after) => {
            assert forall|i: int| 0 <= i < after.current_names.len() implies after.all_names.contains(
                #[trigger] after.current_names[i],
            ) by {
                if text::trim(value) == "*"@ {
                    assert(after.all_names[i] == after.current_names[i]);
                }
            }
        },
        Err(_) => {},
    }
}

/// A star selects all channels and makes none; names select exactly themselves, in the
/// order in which they are written; without any the line is an error.
pub proof fn law_selection(value: Seq<char>, chain: ChainView)
    ensures
        text::trim(value) == "*"@ && value.len() > 0 ==> (selected(value, chain) matches Ok(c)
            && c.current_names == chain.all_names && c.all_names == chain.all_names),
        text::trim(value) != "*"@ && text::words(value).len() > 0 && value.len() > 0 ==> (selected(
            value,
            chain,
        ) matches Ok(c) && c.current_names == text::words(value)),
        text::trim(value) != "*"@ && text::words(value).len() == 0 ==> selected(value, chain) is Err,
        value.len() == 0 ==> selected(value, chain) is Err,
        selected(value, chain) matches Ok(c) ==> c.channel_count == chain.channel_count
            && c.max_frames == chain.max_frames,
{
}

} // verus!
