//! Checkpoints of a training run: the rules of the archive, its weights and their restoration.
pub mod archive;
pub mod laws;
pub mod restore;
pub mod save;
pub mod weights;

use crate::error::{ErrorView, RustTorchError};
use crate::text::{join, owned};
use vstd::prelude::*;

verus! {

/// Why a checkpoint operation was refused.
#[derive(Debug)]
#[non_exhaustive]
pub enum CheckpointError {
    /// A checkpoint violates its format, resource or destination contract.
    Invalid(String),
    /// A file or a member of an archive could not be read or written.
    Io(String),
    /// The archive could not be read or written.
    Archive(String),
    /// The stored weights are malformed.
    Weights(String),
    /// Model or optimizer validation failed.
    Model(RustTorchError),
    /// The tensor runtime refused an operation.
    Backend(String),
}

/// The mathematical content of a [`CheckpointError`].
pub enum Fault {
    Invalid(Seq<char>),
    Io(Seq<char>),
    Archive(Seq<char>),
    Weights(Seq<char>),
    Model(ErrorView),
    Backend(Seq<char>),
}

impl View for CheckpointError {
    type V = Fault;

    open spec fn view(&self) -> Fault {
        match self {
            CheckpointError::Invalid(reason) => Fault::Invalid(reason@),
            CheckpointError::Io(reason) => Fault::Io(reason@),
            CheckpointError::Archive(reason) => Fault::Archive(reason@),
            CheckpointError::Weights(reason) => Fault::Weights(reason@),
            CheckpointError::Model(error) => Fault::Model(error@),
            CheckpointError::Backend(reason) => Fault::Backend(reason@),
        }
    }
}

impl CheckpointError {
    /// The text of the error.
    pub fn text(&self) -> (r: String)
        ensures
            self matches CheckpointError::Invalid(reason) ==> r@ == "invalid training checkpoint: "@ + reason@,
            self matches CheckpointError::Io(reason) ==> r@ == reason@,
            self matches CheckpointError::Archive(reason) ==> r@ == reason@,
            self matches CheckpointError::Weights(reason) ==> r@ == reason@,
            self matches CheckpointError::Backend(reason) ==> r@ == reason@,
            self is Model ==> r@ == "model or optimizer validation failed"@,
    {
        match self {
            CheckpointError::Invalid(reason) => join("invalid training checkpoint: ", reason.as_str()),
            CheckpointError::Io(reason) => reason.clone(),
            CheckpointError::Archive(reason) => reason.clone(),
            CheckpointError::Weights(reason) => reason.clone(),
            CheckpointError::Backend(reason) => reason.clone(),
            CheckpointError::Model(_) => owned("model or optimizer validation failed"),
        }
    }
}

/// The result of a checkpoint operation.
pub type CheckpointResult<T> = core::result::Result<T, CheckpointError>;

/// What a check found: nothing to refuse, or the error it returned.
pub open spec fn fault<T>(r: CheckpointResult<T>) -> Option<Fault> {
    match r {
        Ok(_) => None,
        Err(e) => Some(e@),
    }
}

/// A violation of the format.
pub open spec fn invalid_fault(reason: Seq<char>) -> Fault {
    Fault::Invalid(reason)
}

pub(crate) fn invalid(reason: &str) -> (r: CheckpointError)
    ensures
        r@ == invalid_fault(reason@),
{
    CheckpointError::Invalid(owned(reason))
}

/// Resource ceilings that hold for both saving and loading.
#[derive(Debug, Clone, Copy, PartialEq, Eq, Structural)]
pub struct CheckpointLimits {
    /// The most bytes of an archive.
    pub archive_bytes: usize,
    /// The most bytes of the weights with their header.
    pub weight_bytes: usize,
    /// The most bytes of each JSON member.
    pub json_bytes: usize,
    /// The most named parameters and buffers.
    pub tensors: usize,
}

impl Default for CheckpointLimits {
    fn default() -> (r: Self)
        ensures
            r == (CheckpointLimits {
                archive_bytes: 1073741824,
                weight_bytes: 536870912,
                json_bytes: 268435456,
                tensors: 100000,
            }),
    {
        CheckpointLimits { archive_bytes: 1073741824, weight_bytes: 536870912, json_bytes: 268435456, tensors: 100000 }
    }
}

/// Why a size is refused, if it is.
pub open spec fn size_fault(name: Seq<char>, size: u64, limit: usize) -> Option<Fault> {
    if size > limit {
        Some(invalid_fault(name + " exceeds resource limit"@))
    } else {
        None
    }
}

/// Checks a size against its limit.
pub fn check_size(name: &str, size: u64, limit: usize) -> (r: CheckpointResult<()>)
    ensures
        fault(r) == size_fault(name@, size, limit),
{
    if size > limit as u64 {
        let message = join(name, " exceeds resource limit");
        Err(CheckpointError::Invalid(message))
    } else {
        Ok(())
    }
}

/// Appends bytes of a JSON member that is being written, up to a limit.
pub fn append_bounded(bytes: &mut Vec<u8>, more: &[u8], limit: usize) -> (r: bool)
    ensures
        r == (old(bytes)@.len() + more@.len() <= limit),
        r ==> final(bytes)@ == old(bytes)@ + more@,
        !r ==> final(bytes)@ == old(bytes)@,
{
    if bytes.len() > limit || more.len() > limit - bytes.len() {
        return false;
    }
    bytes.extend_from_slice(more);
    assert(bytes@ =~= old(bytes)@ + more@);
    true
}

/// Checks the version of the metadata.
pub fn check_version(version: u32) -> (r: CheckpointResult<()>)
    ensures
        fault(r) == (if version != 1 {
            Some(invalid_fault("unsupported checkpoint schema version"@))
        } else {
            None
        }),
{
    if version != 1 {
        Err(invalid("unsupported checkpoint schema version"))
    } else {
        Ok(())
    }
}

/// A checkpoint that has been read: weights, optimizer state and application state.
#[derive(Debug)]
pub struct TrainingCheckpoint<O, S> {
    pub(crate) weights: weights::Weights,
    pub(crate) optimizer: O,
    pub(crate) state: S,
}

impl<O, S> TrainingCheckpoint<O, S> {
    /// The weights.
    pub closed spec fn held_weights(self) -> weights::Weights {
        self.weights
    }

    /// The optimizer state.
    pub closed spec fn held_optimizer(self) -> O {
        self.optimizer
    }

    /// The application state.
    pub closed spec fn held_state(self) -> S {
        self.state
    }

    /// Puts a checkpoint together.
    pub fn new(weights: weights::Weights, optimizer: O, state: S) -> (r: Self)
        ensures
            r.held_weights() == weights,
            r.held_optimizer() == optimizer,
            r.held_state() == state,
    {
        TrainingCheckpoint { weights, optimizer, state }
    }

    /// Borrows the application state.
    pub fn state(&self) -> (r: &S)
        ensures
            *r == self.held_state(),
    {
        &self.state
    }

    /// Borrows the weights.
    pub fn weights(&self) -> (r: &weights::Weights)
        ensures
            *r == self.held_weights(),
    {
        &self.weights
    }

    /// Takes the optimizer state and the application state.
    pub fn into_parts(self) -> (r: (O, S))
        ensures
            r.0 == self.held_optimizer(),
            r.1 == self.held_state(),
    {
        (self.optimizer, self.state)
    }
}

} // verus!
