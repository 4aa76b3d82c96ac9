//! The error type that every fallible operation of the library returns.
use crate::float::Binary64;
use crate::kind::{Device, Kind};
use crate::text::join;
use vstd::prelude::*;

verus! {

/// Why an operation was refused.
#[derive(Debug)]
#[allow(inconsistent_fields)]
#[non_exhaustive]
pub enum RustTorchError {
    /// A graph, a program or one of its parts breaks a rule.
    GraphValidation(String),
    /// A name was bound twice.
    DuplicateName(String),
    /// A named graph output does not exist.
    MissingGraphOutput(String),
    /// A named graph input was not supplied.
    MissingGraphInput(String),
    /// A supplied name is no graph input.
    UnexpectedGraphInput(String),
    /// Two state entries map to one destination.
    DuplicateMappedKey(String),
    /// A setting is outside its permitted range.
    InvalidConfiguration {
        /// The setting.
        field: &'static str,
        /// What it has to satisfy.
        reason: String,
        /// The number that does not, where it is told.
        value: Option<Binary64>,
    },
    /// A tensor has the wrong dimensions.
    InvalidDimensions {
        /// What was examined.
        context: String,
        /// What was required.
        expected: String,
        /// What was found.
        actual: String,
    },
    /// A tensor has the wrong shape.
    ShapeMismatch {
        /// What was examined.
        name: String,
        /// The required shape.
        expected: Vec<i64>,
        /// The shape that was found.
        actual: Vec<i64>,
    },
    /// The tensor runtime cannot stretch two shapes to a common one.
    IncompatibleShapes {
        /// The one shape.
        left: Vec<i64>,
        /// The other shape.
        right: Vec<i64>,
    },
    /// A tensor has the wrong dtype.
    DtypeMismatch {
        /// What was examined.
        name: String,
        /// The required dtype.
        expected: Kind,
        /// The dtype that was found.
        actual: Kind,
    },
    /// A tensor lies on the wrong device.
    DeviceMismatch {
        /// What was examined.
        context: String,
        /// The required device.
        expected: Device,
        /// The device that was found.
        actual: Device,
    },
    /// Stored state does not fit a model.
    IncompatibleModelState {
        /// Names the model needs and the state lacks.
        missing: Vec<String>,
        /// Names the state holds and the model lacks.
        unexpected: Vec<String>,
    },
    /// A file is of a kind that cannot be read.
    UnsupportedModelFile {
        /// The file.
        path: String,
        /// What was expected.
        reason: String,
    },
    /// An option is recognised but not offered.
    UnsupportedOption {
        /// The component with the option.
        component: &'static str,
        /// The option.
        option: &'static str,
    },
}

/// The result of a fallible operation.
pub type Result<T> = core::result::Result<T, RustTorchError>;

/// The mathematical content of a [`RustTorchError`].
#[verifier::ext_equal]
#[allow(inconsistent_fields)]
pub enum ErrorView {
    GraphValidation(Seq<char>),
    DuplicateName(Seq<char>),
    MissingGraphOutput(Seq<char>),
    MissingGraphInput(Seq<char>),
    UnexpectedGraphInput(Seq<char>),
    DuplicateMappedKey(Seq<char>),
    InvalidConfiguration { field: Seq<char>, reason: Seq<char>, value: Option<Binary64> },
    InvalidDimensions { context: Seq<char>, expected: Seq<char>, actual: Seq<char> },
    ShapeMismatch { name: Seq<char>, expected: Seq<i64>, actual: Seq<i64> },
    IncompatibleShapes { left: Seq<i64>, right: Seq<i64> },
    DtypeMismatch { name: Seq<char>, expected: Kind, actual: Kind },
    DeviceMismatch { context: Seq<char>, expected: Device, actual: Device },
    IncompatibleModelState { missing: Seq<Seq<char>>, unexpected: Seq<Seq<char>> },
    UnsupportedModelFile { path: Seq<char>, reason: Seq<char> },
    UnsupportedOption { component: Seq<char>, option: Seq<char> },
}

/// The texts of a list of strings.
pub open spec fn texts(list: Seq<String>) -> Seq<Seq<char>> {
    list.map_values(|s: String| s@)
}

impl View for RustTorchError {
    type V = ErrorView;

    open spec fn view(&self) -> ErrorView {
        match self {
            RustTorchError::GraphValidation(m) => ErrorView::GraphValidation(m@),
            RustTorchError::DuplicateName(m) => ErrorView::DuplicateName(m@),
            RustTorchError::MissingGraphOutput(m) => ErrorView::MissingGraphOutput(m@),
            RustTorchError::MissingGraphInput(m) => ErrorView::MissingGraphInput(m@),
            RustTorchError::UnexpectedGraphInput(m) => ErrorView::UnexpectedGraphInput(m@),
            RustTorchError::DuplicateMappedKey(m) => ErrorView::DuplicateMappedKey(m@),
            RustTorchError::InvalidConfiguration { field, reason, value } => ErrorView::InvalidConfiguration {
                field: field@,
                reason: reason@,
                value: *value,
            },
            RustTorchError::InvalidDimensions { context, expected, actual } => ErrorView::InvalidDimensions {
                context: context@,
                expected: expected@,
                actual: actual@,
            },
            RustTorchError::ShapeMismatch { name, expected, actual } => ErrorView::ShapeMismatch {
                name: name@,
                expected: expected@,
                actual: actual@,
            },
            RustTorchError::IncompatibleShapes { left, right } => ErrorView::IncompatibleShapes {
                left: left@,
                right: right@,
            },
            RustTorchError::DtypeMismatch { name, expected, actual } => ErrorView::DtypeMismatch {
                name: name@,
                expected: *expected,
                actual: *actual,
            },
            RustTorchError::DeviceMismatch { context, expected, actual } => ErrorView::DeviceMismatch {
                context: context@,
                expected: *expected,
                actual: *actual,
            },
            RustTorchError::IncompatibleModelState { missing, unexpected } => ErrorView::IncompatibleModelState {
                missing: texts(missing@),
                unexpected: texts(unexpected@),
            },
            RustTorchError::UnsupportedModelFile { path, reason } => ErrorView::UnsupportedModelFile {
                path: path@,
                reason: reason@,
            },
            RustTorchError::UnsupportedOption { component, option } => ErrorView::UnsupportedOption {
                component: component@,
                option: option@,
            },
        }
    }
}

/// What a check found: nothing to refuse, or the error it returned.
pub open spec fn refusal<T>(r: Result<T>) -> Option<ErrorView> {
    match r {
        Ok(_) => None,
        Err(e) => Some(e@),
    }
}

/// The content of a fallible result.
pub open spec fn outcome<T: View>(r: Result<T>) -> core::result::Result<T::V, ErrorView> {
    match r {
        Ok(v) => Ok(v@),
        Err(e) => Err(e@),
    }
}

/// The first of two refusals.
pub open spec fn either(a: Option<ErrorView>, b: Option<ErrorView>) -> Option<ErrorView> {
    if a is Some {
        a
    } else {
        b
    }
}

/// The first refusal of a list of checks, taken in order from `from` up to `end`.
pub open spec fn first_at(from: int, end: int, check: spec_fn(int) -> Option<ErrorView>) -> Option<ErrorView>
    decreases end - from,
{
    if from >= end {
        None
    } else {
        match check(from) {
            Some(e) => Some(e),
            None => first_at(from + 1, end, check),
        }
    }
}

/// One step of [`first_at`].
pub proof fn first_at_step(from: int, end: int, check: spec_fn(int) -> Option<ErrorView>)
    requires
        from < end,
    ensures
        first_at(from, end, check) == (match check(from) {
            Some(e) => Some(e),
            None => first_at(from + 1, end, check),
        }),
{
}

/// A list of checks refuses nothing exactly when none of them refuses.
pub proof fn first_at_none(from: int, end: int, check: spec_fn(int) -> Option<ErrorView>)
    ensures
        first_at(from, end, check) is None <==> forall|i: int| from <= i < end ==> (#[trigger] check(i)) is None,
    decreases end - from,
{
    if from < end {
        first_at_none(from + 1, end, check);
    }
}

/// A graph rule that is broken, told by `message`.
pub fn graph_error(message: &str) -> (e: RustTorchError)
    ensures
        e@ == ErrorView::GraphValidation(message@),
{
    RustTorchError::GraphValidation(message.to_owned())
}

/// The text of a deployment error.
pub open spec fn deployment_text(message: Seq<char>) -> ErrorView {
    ErrorView::GraphValidation("deployment: "@ + message)
}

/// A deployment rule that is broken, told by `message`.
pub fn deployment_error(message: &str) -> (e: RustTorchError)
    ensures
        e@ == deployment_text(message@),
{
    RustTorchError::GraphValidation(join("deployment: ", message))
}

/// The content of a refused setting.
pub open spec fn setting_text(field: Seq<char>, reason: Seq<char>) -> ErrorView {
    ErrorView::InvalidConfiguration { field, reason, value: None }
}

/// A setting outside its range.
pub fn setting_error(field: &'static str, reason: &str) -> (e: RustTorchError)
    ensures
        e@ == setting_text(field@, reason@),
{
    RustTorchError::InvalidConfiguration { field, reason: reason.to_owned(), value: None }
}

/// The content of a refused number.
pub open spec fn number_text(field: Seq<char>, reason: Seq<char>, value: Binary64) -> ErrorView {
    ErrorView::InvalidConfiguration { field, reason, value: Some(value) }
}

/// A number outside its range.
pub fn number_error(field: &'static str, reason: &str, value: Binary64) -> (e: RustTorchError)
    ensures
        e@ == number_text(field@, reason@, value),
{
    RustTorchError::InvalidConfiguration { field, reason: reason.to_owned(), value: Some(value) }
}

} // verus!
