//! Static facts about graph values.
use crate::error::{first_at, first_at_step, graph_error, refusal, ErrorView, Result};
use crate::kind::{DeviceSpec, Kind};
use crate::text::{decimal, integer_text, join, natural_text, same};
use vstd::prelude::*;
use vstd::string::*;

verus! {

/// One dimension in a [`TensorSpec`].
#[derive(Debug, PartialEq, Eq)]
#[non_exhaustive]
pub enum Dim {
    /// A statically known non-negative size.
    Known(i64),
    /// A size that is known only when the graph runs.
    Dynamic,
    /// A named size that must agree wherever the symbol appears at runtime.
    Symbol(String),
}

/// The content of a [`Dim`].
#[verifier::ext_equal]
pub enum DimView {
    Known(i64),
    Dynamic,
    Symbol(Seq<char>),
}

impl View for Dim {
    type V = DimView;

    open spec fn view(&self) -> DimView {
        match self {
            Dim::Known(n) => DimView::Known(*n),
            Dim::Dynamic => DimView::Dynamic,
            Dim::Symbol(s) => DimView::Symbol(s@),
        }
    }
}

/// The contents of a list of dimensions.
pub open spec fn dims_view(dims: Seq<Dim>) -> Seq<DimView> {
    dims.map_values(|d: Dim| d@)
}

impl Clone for Dim {
    fn clone(&self) -> (r: Self)
        ensures
            r@ == self@,
    {
        match self {
            Dim::Known(n) => Dim::Known(*n),
            Dim::Dynamic => Dim::Dynamic,
            Dim::Symbol(s) => Dim::Symbol(s.clone()),
        }
    }
}

impl Dim {
    /// Whether two dimensions are the same size, the same symbol, or both dynamic.
    pub fn same_as(&self, other: &Dim) -> (r: bool)
        ensures
            r == (self@ == other@),
    {
        match (self, other) {
            (Dim::Known(a), Dim::Known(b)) => *a == *b,
            (Dim::Dynamic, Dim::Dynamic) => true,
            (Dim::Symbol(a), Dim::Symbol(b)) => same(a.as_str(), b.as_str()),
            _ => false,
        }
    }
}

/// Copies a list of dimensions.
pub fn copy_dims(dims: &[Dim]) -> (r: Vec<Dim>)
    ensures
        dims_view(r@) == dims_view(dims@),
{
    let mut out: Vec<Dim> = Vec::new();
    let mut i: usize = 0;
    while i < dims.len()
        invariant
            i <= dims@.len(),
            out@.len() == i,
            forall|j: int| 0 <= j < i ==> (#[trigger] out@[j])@ == dims@[j]@,
        decreases dims@.len() - i,
    {
        out.push(dims[i].clone());
        i += 1;
    }
    assert(dims_view(out@) =~= dims_view(dims@));
    out
}

/// Whether two lists of dimensions agree in every place.
pub fn same_dims(a: &[Dim], b: &[Dim]) -> (r: bool)
    ensures
        r == (dims_view(a@) == dims_view(b@)),
{
    if a.len() != b.len() {
        assert(dims_view(a@).len() != dims_view(b@).len());
        return false;
    }
    let mut i: usize = 0;
    while i < a.len()
        invariant
            a@.len() == b@.len(),
            i <= a@.len(),
            forall|j: int| 0 <= j < i ==> (#[trigger] a@[j])@ == b@[j]@,
        decreases a@.len() - i,
    {
        if !a[i].same_as(&b[i]) {
            assert(dims_view(a@)[i as int] != dims_view(b@)[i as int]);
            return false;
        }
        i += 1;
    }
    assert(dims_view(a@) =~= dims_view(b@));
    true
}

/// Optional static facts attached to a graph value.
#[derive(Debug, PartialEq, Eq)]
pub struct TensorSpec {
    dimensions: Option<Vec<Dim>>,
    rank: Option<usize>,
    kind: Option<Kind>,
    device: Option<DeviceSpec>,
}

/// The content of a [`TensorSpec`].
#[verifier::ext_equal]
pub struct SpecView {
    pub dimensions: Option<Seq<DimView>>,
    pub rank: Option<usize>,
    pub kind: Option<Kind>,
    pub device: Option<DeviceSpec>,
}

impl View for TensorSpec {
    type V = SpecView;

    closed spec fn view(&self) -> SpecView {
        SpecView {
            dimensions: match self.dimensions {
                Some(dims) => Some(dims_view(dims@)),
                None => None,
            },
            rank: self.rank,
            kind: self.kind,
            device: self.device,
        }
    }
}

impl SpecView {
    /// A spec that states nothing.
    pub open spec fn nothing() -> SpecView {
        SpecView { dimensions: None, rank: None, kind: None, device: None }
    }

    /// The declared or dimension-derived rank.
    pub open spec fn known_rank(self) -> Option<usize> {
        match self.dimensions {
            Some(dims) => Some(dims.len() as usize),
            None => self.rank,
        }
    }
}

/// Why a dimension is refused, if it is.
pub open spec fn dim_refusal(dim: DimView, context: Seq<char>) -> Option<ErrorView> {
    match dim {
        DimView::Known(value) => if value < 0 {
            Some(ErrorView::GraphValidation(context + " contains negative known dimension "@ + decimal(value as int)))
        } else {
            None
        },
        DimView::Dynamic => None,
        DimView::Symbol(symbol) => if symbol.len() == 0 {
            Some(ErrorView::GraphValidation(context + " contains an empty symbolic dimension"@))
        } else {
            None
        },
    }
}

/// The check of each dimension in turn.
pub open spec fn dim_checks(dims: Seq<DimView>, context: Seq<char>) -> spec_fn(int) -> Option<ErrorView> {
    |i: int| dim_refusal(dims[i], context)
}

/// Why a spec is refused, if it is: a rank that differs from its dimensions, or its first
/// negative or unnamed dimension.
pub open spec fn spec_refusal(spec: SpecView, context: Seq<char>) -> Option<ErrorView> {
    match spec.dimensions {
        None => None,
        Some(dims) => match spec.rank {
            Some(rank) if rank != dims.len() => Some(
                ErrorView::GraphValidation(
                    context + " declares rank "@ + decimal(rank as int) + " but has "@ + decimal(dims.len() as int)
                        + " dimensions"@,
                ),
            ),
            _ => first_at(0, dims.len() as int, dim_checks(dims, context)),
        },
    }
}

impl Clone for TensorSpec {
    fn clone(&self) -> (r: Self)
        ensures
            r@ == self@,
    {
        let dimensions = match &self.dimensions {
            Some(dims) => Some(copy_dims(dims.as_slice())),
            None => None,
        };
        TensorSpec { dimensions, rank: self.rank, kind: self.kind, device: self.device }
    }
}

impl Default for TensorSpec {
    fn default() -> (r: Self)
        ensures
            r@ == SpecView::nothing(),
    {
        TensorSpec { dimensions: None, rank: None, kind: None, device: None }
    }
}

fn same_kind(a: Option<Kind>, b: Option<Kind>) -> (r: bool)
    ensures
        r == (a == b),
{
    match (a, b) {
        (Some(x), Some(y)) => x == y,
        (None, None) => true,
        _ => false,
    }
}

fn same_device(a: Option<DeviceSpec>, b: Option<DeviceSpec>) -> (r: bool)
    ensures
        r == (a == b),
{
    match (a, b) {
        (Some(x), Some(y)) => x == y,
        (None, None) => true,
        _ => false,
    }
}

fn same_rank(a: Option<usize>, b: Option<usize>) -> (r: bool)
    ensures
        r == (a == b),
{
    match (a, b) {
        (Some(x), Some(y)) => x == y,
        (None, None) => true,
        _ => false,
    }
}

impl TensorSpec {
    /// A spec made of its four parts.
    pub(crate) fn from_parts(
        dimensions: Option<Vec<Dim>>,
        rank: Option<usize>,
        kind: Option<Kind>,
        device: Option<DeviceSpec>,
    ) -> (r: Self)
        ensures
            r@.dimensions == (match dimensions {
                Some(dims) => Some(dims_view(dims@)),
                None => None,
            }),
            r@.rank == rank,
            r@.kind == kind,
            r@.device == device,
    {
        TensorSpec { dimensions, rank, kind, device }
    }

    /// Creates a tensor spec with no static constraints.
    pub fn new() -> (r: Self)
        ensures
            r@ == SpecView::nothing(),
    {
        TensorSpec { dimensions: None, rank: None, kind: None, device: None }
    }

    /// Constrains the tensor rank without specifying individual dimensions.
    #[must_use]
    pub fn rank(self, rank: usize) -> (r: Self)
        ensures
            r@ == (SpecView { rank: Some(rank), ..self@ }),
    {
        TensorSpec { dimensions: self.dimensions, rank: Some(rank), kind: self.kind, device: self.device }
    }

    /// Constrains every dimension and derives the rank from the supplied list.
    #[must_use]
    pub fn dimensions(self, dimensions: Vec<Dim>) -> (r: Self)
        ensures
            r@ == (SpecView {
                dimensions: Some(dims_view(dimensions@)),
                rank: Some(dimensions@.len() as usize),
                ..self@
            }),
    {
        let rank: usize = dimensions.len();
        TensorSpec { dimensions: Some(dimensions), rank: Some(rank), kind: self.kind, device: self.device }
    }

    /// Constrains every dimension to a known size.
    #[must_use]
    pub fn known_dimensions<const N: usize>(self, dimensions: [i64; N]) -> (r: Self)
        ensures
            r@ == (SpecView {
                dimensions: Some(dimensions@.map_values(|n: i64| DimView::Known(n))),
                rank: Some(N),
                ..self@
            }),
    {
        let mut list: Vec<Dim> = Vec::new();
        let mut i: usize = 0;
        while i < N
            invariant
                i <= N,
                dimensions@.len() == N,
                list@.len() == i,
                forall|j: int| 0 <= j < i ==> (#[trigger] list@[j])@ == DimView::Known(dimensions@[j]),
            decreases N - i,
        {
            list.push(Dim::Known(dimensions[i]));
            i += 1;
        }
        assert(dims_view(list@) =~= dimensions@.map_values(|n: i64| DimView::Known(n)));
        self.dimensions(list)
    }

    /// Constrains the tensor dtype.
    #[must_use]
    pub fn kind(self, kind: Kind) -> (r: Self)
        ensures
            r@ == (SpecView { kind: Some(kind), ..self@ }),
    {
        TensorSpec { dimensions: self.dimensions, rank: self.rank, kind: Some(kind), device: self.device }
    }

    /// Constrains the tensor device after resolving the device request.
    #[must_use]
    pub fn device(self, device: DeviceSpec) -> (r: Self)
        ensures
            r@ == (SpecView { device: Some(device), ..self@ }),
    {
        TensorSpec { dimensions: self.dimensions, rank: self.rank, kind: self.kind, device: Some(device) }
    }

    /// Returns the declared or dimension-derived rank, if any.
    pub fn rank_value(&self) -> (r: Option<usize>)
        ensures
            r == self@.known_rank(),
    {
        match &self.dimensions {
            Some(dims) => Some(dims.len()),
            None => self.rank,
        }
    }

    /// The rank as it was declared, whatever the dimensions say.
    pub(crate) fn declared_rank(&self) -> (r: Option<usize>)
        ensures
            r == self@.rank,
    {
        self.rank
    }

    /// Returns the declared dimensions, if any.
    pub fn dims(&self) -> (r: Option<&[Dim]>)
        ensures
            match r {
                Some(dims) => self@.dimensions == Some(dims_view(dims@)),
                None => self@.dimensions is None,
            },
    {
        match &self.dimensions {
            Some(dims) => Some(dims.as_slice()),
            None => None,
        }
    }

    /// Returns the declared dtype, if any.
    pub fn kind_value(&self) -> (r: Option<Kind>)
        ensures
            r == self@.kind,
    {
        self.kind
    }

    /// Returns the declared device request, if any.
    pub fn device_value(&self) -> (r: Option<DeviceSpec>)
        ensures
            r == self@.device,
    {
        self.device
    }

    /// Whether two specs state the same facts.
    pub fn same_as(&self, other: &TensorSpec) -> (r: bool)
        ensures
            r == (self@ == other@),
    {
        let dims = match (&self.dimensions, &other.dimensions) {
            (Some(a), Some(b)) => same_dims(a.as_slice(), b.as_slice()),
            (None, None) => true,
            _ => false,
        };
        dims && same_rank(self.rank, other.rank) && same_kind(self.kind, other.kind) && same_device(
            self.device,
            other.device,
        )
    }

    /// Checks that the rank agrees with the dimensions, that known sizes are not negative and
    /// that symbols have names. `context` opens the text of the error.
    pub fn validate(&self, context: &str) -> (r: Result<()>)
        ensures
            refusal(r) == spec_refusal(self@, context@),
    {
        let dims = match &self.dimensions {
            None => {
                return Ok(());
            },
            Some(dims) => dims,
        };
        if let Some(rank) = self.rank {
            if rank != dims.len() {
                let mut message = join(context, " declares rank ");
                let declared = natural_text(rank as u64);
                message.append(declared.as_str());
                message.append(" but has ");
                let listed = natural_text(dims.len() as u64);
                message.append(listed.as_str());
                message.append(" dimensions");
                return Err(graph_error(message.as_str()));
            }
        }
        let ghost checks = dim_checks(dims_view(dims@), context@);
        let mut i: usize = 0;
        while i < dims.len()
            invariant
                i <= dims@.len(),
                checks == dim_checks(dims_view(dims@), context@),
                spec_refusal(self@, context@) == first_at(i as int, dims@.len() as int, checks),
            decreases dims@.len() - i,
        {
            proof {
                first_at_step(i as int, dims@.len() as int, checks);
                assert(dims_view(dims@)[i as int] == dims@[i as int]@);
            }
            match &dims[i] {
                Dim::Known(value) => {
                    if *value < 0 {
                        let mut message = join(context, " contains negative known dimension ");
                        let number = integer_text(*value);
                        message.append(number.as_str());
                        return Err(graph_error(message.as_str()));
                    }
                },
                Dim::Dynamic => {},
                Dim::Symbol(symbol) => {
                    if symbol.as_str().is_empty() {
                        let message = join(context, " contains an empty symbolic dimension");
                        return Err(graph_error(message.as_str()));
                    }
                },
            }
            i += 1;
        }
        Ok(())
    }
}

} // verus!
