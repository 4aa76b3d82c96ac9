//! The rules by which cooperating processes train together: how a group forms, what a
//! collective returns, and how parameters are divided among ranks and put together again.
pub mod collective;
pub mod collective_laws;
pub mod group;
pub mod group_laws;
pub mod payload;
pub mod record;
pub mod replica;
pub mod shard;
pub mod shard_laws;
pub mod trainer;

use crate::error::{setting_error, setting_text, ErrorView, RustTorchError};
use vstd::prelude::*;

verus! {

/// The content of a refusal in a group.
pub open spec fn refused(reason: Seq<char>) -> ErrorView {
    setting_text("distributed"@, reason)
}

pub(crate) fn invalid(reason: &str) -> (e: RustTorchError)
    ensures
        e@ == refused(reason@),
{
    setting_error("distributed", reason)
}

} // verus!
