//! Telling the audio service that something changed.

use vstd::prelude::*;

verus! {

/// What is sent to the audio service after a change: nothing so far.
pub fn notify_audio_service_changed() -> (messages: Vec<String>)
    ensures
        messages@.len() == 0,
{
    Vec::new()
}

} // verus!
