//! Old images whose file is still on disk are sent as path references: the
//! engine re-reads the bytes when it calls the model. The newest image with a
//! file behind it is left as it is, so the model can still look at what it
//! was just shown.

use vstd::prelude::*;
use crate::compaction::passes::reclaim::{downgrade_images_with, downgrade_with_spec};
use crate::compaction::phase::PhaseResult;
use crate::compaction::types::av;
use crate::types::{AgentMessage, mv};

verus! {

/// Every message but the one holding the newest image with a file has its
/// base64 images with a known file turned into path references, user,
/// assistant and tool-result messages alike; each message changed is
/// recorded as an image-stripped action.
pub fn run(messages: Vec<AgentMessage>) -> (r: PhaseResult)
    ensures
        (mv(r.messages@), av(r.actions@)) == downgrade_with_spec(mv(messages@), true),
{
    let (messages, actions) = downgrade_images_with(messages, true);
    PhaseResult { messages, actions }
}

} // verus!
