//! Recurrent layers, attention and transformers: their settings, what has to be allocated for
//! them, and what they accept.
use super::functional::{check_eps, dropout_refusal, eps_refusal, validate_dropout};
use crate::error::{either, refusal, setting_error, setting_text, ErrorView, Result, RustTorchError};
use crate::float::Binary64;
use crate::kind::{Device, Kind};
use crate::tensor::{copy_shape, device_refusal, ensure_device, same_shape, MetaView, TensorMeta};
use crate::text::{decimal, join, natural_text, owned};
use vstd::prelude::*;

verus! {

/// Why parameters of an element type are refused, if they are.
pub open spec fn real_refusal(kind: Kind) -> Option<ErrorView> {
    if crate::autograd::is_fractional(kind) {
        None
    } else {
        Some(
            setting_text(
                "parameter dtype"@,
                "sequence models require float, double, half, or bfloat16 parameters"@,
            ),
        )
    }
}

fn real_parameters(kind: Kind) -> (r: Result<()>)
    ensures
        refusal(r) == real_refusal(kind),
{
    if !crate::autograd::fractional(kind) {
        return Err(
            setting_error("parameter dtype", "sequence models require float, double, half, or bfloat16 parameters"),
        );
    }
    Ok(())
}

/// Why a tensor is refused beside parameters, if it is.
pub open spec fn beside_refusal(input: MetaView, kind: Kind, device: Device, context: Seq<char>) -> Option<ErrorView> {
    either(
        device_refusal(context, input.device, device),
        if input.kind != kind {
            Some(setting_text(context, "tensor dtype must match the model parameters"@))
        } else {
            None
        },
    )
}

fn same_tensor(input: &TensorMeta, kind: Kind, device: Device, context: &'static str) -> (r: Result<()>)
    ensures
        refusal(r) == beside_refusal(input@, kind, device, context@),
{
    if let Err(e) = ensure_device(context, input.device, device) {
        return Err(e);
    }
    if input.kind != kind {
        return Err(setting_error(context, "tensor dtype must match the model parameters"));
    }
    Ok(())
}

/// Why two sizes cannot be multiplied, if they cannot.
pub open spec fn product_refusal(field: Seq<char>, a: int, b: int) -> Option<ErrorView> {
    if i64::MIN <= a * b <= i64::MAX {
        None
    } else {
        Some(setting_text(field, "dimension product overflows i64"@))
    }
}

fn product(field: &'static str, a: i64, b: i64) -> (r: Result<i64>)
    ensures
        refusal(r) == product_refusal(field@, a as int, b as int),
        r matches Ok(p) ==> p == a * b,
{
    match a.checked_mul(b) {
        Some(p) => Ok(p),
        None => Err(setting_error(field, "dimension product overflows i64")),
    }
}

/// The nonlinearity of a plain recurrent layer.
#[derive(Debug, Clone, Copy, PartialEq, Eq, Structural)]
pub enum RnnActivation {
    Tanh,
    Relu,
}

impl Default for RnnActivation {
    fn default() -> (r: Self)
        ensures
            r == RnnActivation::Tanh,
    {
        RnnActivation::Tanh
    }
}

/// Which recurrent layer is built.
#[derive(Debug, Clone, Copy, PartialEq, Eq, Structural)]
pub enum Cell {
    /// One with a plain nonlinearity.
    Rnn,
    /// One with long short-term memory.
    Lstm,
    /// One with gated units.
    Gru,
}

impl Cell {
    /// How many gates each unit has.
    pub open spec fn gates(self) -> int {
        match self {
            Cell::Rnn => 1,
            Cell::Lstm => 4,
            Cell::Gru => 3,
        }
    }

    fn gate_count(self) -> (r: i64)
        ensures
            r == self.gates(),
    {
        match self {
            Cell::Rnn => 1,
            Cell::Lstm => 4,
            Cell::Gru => 3,
        }
    }
}

/// The settings of a recurrent layer.
#[derive(Debug, Clone, Copy, PartialEq, Eq, Structural)]
pub struct RnnConfig {
    /// The features that come in.
    pub input_size: i64,
    /// The features of the state.
    pub hidden_size: i64,
    /// How many layers are stacked.
    pub num_layers: i64,
    /// Whether biases are added.
    pub bias: bool,
    /// Whether the batch comes before the time.
    pub batch_first: bool,
    /// The share of elements that is cleared between layers.
    pub dropout: Binary64,
    /// Whether the sequence is also read from its end.
    pub bidirectional: bool,
    /// The features to which the state is projected, or 0.
    pub projection: i64,
}

impl RnnConfig {
    /// One layer with biases in one direction; the time comes first.
    pub fn new(input_size: i64, hidden_size: i64) -> (r: Self)
        ensures
            r == (RnnConfig {
                input_size,
                hidden_size,
                num_layers: 1,
                bias: true,
                batch_first: false,
                dropout: Binary64 { bits: 0 },
                bidirectional: false,
                projection: 0,
            }),
    {
        RnnConfig {
            input_size,
            hidden_size,
            num_layers: 1,
            bias: true,
            batch_first: false,
            dropout: Binary64::zero(),
            bidirectional: false,
            projection: 0,
        }
    }

    /// Sets how many layers are stacked.
    #[must_use]
    pub fn num_layers(self, value: i64) -> (r: Self)
        ensures
            r == (RnnConfig { num_layers: value, ..self }),
    {
        RnnConfig { num_layers: value, ..self }
    }

    /// Sets whether biases are added.
    #[must_use]
    pub fn bias(self, value: bool) -> (r: Self)
        ensures
            r == (RnnConfig { bias: value, ..self }),
    {
        RnnConfig { bias: value, ..self }
    }

    /// Sets whether the batch comes before the time.
    #[must_use]
    pub fn batch_first(self, value: bool) -> (r: Self)
        ensures
            r == (RnnConfig { batch_first: value, ..self }),
    {
        RnnConfig { batch_first: value, ..self }
    }

    /// Sets the share of elements that is cleared between layers.
    #[must_use]
    pub fn dropout(self, value: Binary64) -> (r: Self)
        ensures
            r == (RnnConfig { dropout: value, ..self }),
    {
        RnnConfig { dropout: value, ..self }
    }

    /// Sets whether the sequence is also read from its end.
    #[must_use]
    pub fn bidirectional(self, value: bool) -> (r: Self)
        ensures
            r == (RnnConfig { bidirectional: value, ..self }),
    {
        RnnConfig { bidirectional: value, ..self }
    }

    /// Sets the features to which the state is projected.
    #[must_use]
    pub fn projection(self, value: i64) -> (r: Self)
        ensures
            r == (RnnConfig { projection: value, ..self }),
    {
        RnnConfig { projection: value, ..self }
    }

    /// In how many directions the sequence is read.
    pub open spec fn directions(self) -> int {
        if self.bidirectional {
            2
        } else {
            1
        }
    }

    /// The features that go out in each direction.
    pub open spec fn width(self) -> int {
        if self.projection == 0 {
            self.hidden_size as int
        } else {
            self.projection as int
        }
    }

    /// The parameters of one layer in one direction.
    pub open spec fn parameters_per_layer(self) -> int {
        2 + (if self.bias {
            2int
        } else {
            0
        }) + (if self.projection > 0 {
            1int
        } else {
            0
        })
    }

    /// Why sizes are refused for being too large, if they are.
    pub open spec fn size_refusal(self, gates: int) -> Option<ErrorView> {
        let gate_size = self.hidden_size * gates;
        let layer_width = self.width() * self.directions();
        let layer_count = self.num_layers * self.directions();
        if product_refusal("hidden_size"@, self.hidden_size as int, gates) is Some {
            product_refusal("hidden_size"@, self.hidden_size as int, gates)
        } else if product_refusal("hidden_size"@, self.width(), self.directions()) is Some {
            product_refusal("hidden_size"@, self.width(), self.directions())
        } else if product_refusal("num_layers"@, self.num_layers as int, self.directions()) is Some {
            product_refusal("num_layers"@, self.num_layers as int, self.directions())
        } else if product_refusal("recurrent parameters"@, layer_count, self.parameters_per_layer()) is Some {
            product_refusal("recurrent parameters"@, layer_count, self.parameters_per_layer())
        } else if layer_count * self.parameters_per_layer() > i32::MAX {
            Some(
                setting_text("num_layers"@, "parameter count exceeds the native recurrent interface limit"@),
            )
        } else {
            either(
                product_refusal("recurrent weights"@, gate_size, self.input_size as int),
                either(
                    product_refusal("recurrent weights"@, gate_size, layer_width),
                    product_refusal("recurrent weights"@, gate_size, self.width()),
                ),
            )
        }
    }

    /// Why the settings are refused, if they are.
    pub open spec fn refusal(self, kind: Kind, cell: Cell) -> Option<ErrorView> {
        if real_refusal(kind) is Some {
            real_refusal(kind)
        } else if dropout_refusal(self.dropout) is Some {
            dropout_refusal(self.dropout)
        } else if self.input_size <= 0 || self.hidden_size <= 0 || self.num_layers <= 0 {
            Some(
                setting_text(
                    "recurrent dimensions"@,
                    "input_size, hidden_size, and num_layers must be positive"@,
                ),
            )
        } else if self.projection < 0 || self.projection >= self.hidden_size || (!(cell is Lstm) && self.projection != 0) {
            Some(
                setting_text(
                    "projection"@,
                    "only LSTM accepts projections; width must be nonnegative and less than hidden_size"@,
                ),
            )
        } else {
            self.size_refusal(cell.gates())
        }
    }

    /// Checks the settings of one kind of layer, and tells what has to be allocated.
    pub fn build(self, kind: Kind, cell: Cell) -> (r: Result<Recurrent>)
        ensures
            refusal(r) == self.refusal(kind, cell),
            r matches Ok(layer) ==> layer.wf() && layer.settings() == self && layer.unit() == cell && layer.parameters()
                == layer_parameters(self, cell, self.num_layers as int),
    {
        if let Err(e) = real_parameters(kind) {
            return Err(e);
        }
        if let Err(e) = validate_dropout(self.dropout) {
            return Err(e);
        }
        if self.input_size <= 0 || self.hidden_size <= 0 || self.num_layers <= 0 {
            return Err(
                setting_error("recurrent dimensions", "input_size, hidden_size, and num_layers must be positive"),
            );
        }
        let lstm = match cell {
            Cell::Lstm => true,
            _ => false,
        };
        if self.projection < 0 || self.projection >= self.hidden_size || (!lstm && self.projection != 0) {
            return Err(
                setting_error(
                    "projection",
                    "only LSTM accepts projections; width must be nonnegative and less than hidden_size",
                ),
            );
        }
        let directions: i64 = if self.bidirectional {
            2
        } else {
            1
        };
        let width: i64 = if self.projection == 0 {
            self.hidden_size
        } else {
            self.projection
        };
        let gate_size: i64 = match product("hidden_size", self.hidden_size, cell.gate_count()) {
            Ok(p) => p,
            Err(e) => {
                return Err(e);
            },
        };
        let layer_width: i64 = match product("hidden_size", width, directions) {
            Ok(p) => p,
            Err(e) => {
                return Err(e);
            },
        };
        let layer_count: i64 = match product("num_layers", self.num_layers, directions) {
            Ok(p) => p,
            Err(e) => {
                return Err(e);
            },
        };
        let mut each: i64 = 2;
        if self.bias {
            each = each + 2;
        }
        if self.projection > 0 {
            each = each + 1;
        }
        match product("recurrent parameters", layer_count, each) {
            Ok(p) => {
                if p > i32::MAX as i64 {
                    return Err(
                        setting_error("num_layers", "parameter count exceeds the native recurrent interface limit"),
                    );
                }
            },
            Err(e) => {
                return Err(e);
            },
        }
        if let Err(e) = product("recurrent weights", gate_size, self.input_size) {
            return Err(e);
        }
        if let Err(e) = product("recurrent weights", gate_size, layer_width) {
            return Err(e);
        }
        if let Err(e) = product("recurrent weights", gate_size, width) {
            return Err(e);
        }
        let parameters = self.list_parameters(cell, gate_size, layer_width, width);
        Ok(Recurrent { config: self, cell, parameters })
    }

    fn list_parameters(self, cell: Cell, gate_size: i64, layer_width: i64, width: i64) -> (r: Vec<(String, Vec<i64>)>)
        requires
            self.num_layers > 0,
            gate_size == self.hidden_size * cell.gates(),
            layer_width == self.width() * self.directions(),
            width == self.width(),
        ensures
            super::sequential::named_shapes(r@) == layer_parameters(self, cell, self.num_layers as int),
    {
        let mut out: Vec<(String, Vec<i64>)> = Vec::new();
        assert(super::sequential::named_shapes(out@) =~= Seq::empty());
        let mut layer: i64 = 0;
        while layer < self.num_layers
            invariant
                0 <= layer <= self.num_layers,
                gate_size == self.hidden_size * cell.gates(),
                layer_width == self.width() * self.directions(),
                width == self.width(),
                super::sequential::named_shapes(out@) == layer_parameters(self, cell, layer as int),
            decreases self.num_layers - layer,
        {
            let input_width: i64 = if layer == 0 {
                self.input_size
            } else {
                layer_width
            };
            let ghost before = super::sequential::named_shapes(out@);
            self.push_direction(&mut out, layer, false, gate_size, input_width, width);
            if self.bidirectional {
                self.push_direction(&mut out, layer, true, gate_size, input_width, width);
                assert(super::sequential::named_shapes(out@) == before + direction_parameters(self, cell, layer as int, false)
                    + direction_parameters(self, cell, layer as int, true));
            }
            layer = layer + 1;
        }
        out
    }

    fn push_direction(
        self,
        out: &mut Vec<(String, Vec<i64>)>,
        layer: i64,
        reverse: bool,
        gate_size: i64,
        input_width: i64,
        width: i64,
    )
        requires
            layer >= 0,
        ensures
            super::sequential::named_shapes(final(out)@) == super::sequential::named_shapes(old(out)@) + direction_shapes(
                self,
                layer as int,
                reverse,
                gate_size,
                input_width,
                width,
            ),
    {
        let number = natural_text(layer as u64);
        let place = join(
            number.as_str(),
            if reverse {
                "_reverse"
            } else {
                ""
            },
        );
        let ghost start = super::sequential::named_shapes(out@);
        let ghost p = place@;
        proof {
            assert(p == place_of(layer as int, reverse));
        }
        push_shape(out, "weight_ih_l", place.as_str(), gate_size, Some(input_width));
        push_shape(out, "weight_hh_l", place.as_str(), gate_size, Some(width));
        if self.bias {
            push_shape(out, "bias_ih_l", place.as_str(), gate_size, None);
            push_shape(out, "bias_hh_l", place.as_str(), gate_size, None);
        }
        if self.projection > 0 {
            push_shape(out, "weight_hr_l", place.as_str(), width, Some(self.hidden_size));
        }
        assert(super::sequential::named_shapes(out@) =~= start + direction_shapes(
            self,
            layer as int,
            reverse,
            gate_size,
            input_width,
            width,
        ));
    }
}

fn push_shape(out: &mut Vec<(String, Vec<i64>)>, name: &str, place: &str, first: i64, second: Option<i64>)
    ensures
        super::sequential::named_shapes(final(out)@) == super::sequential::named_shapes(old(out)@).push(
            (name@ + place@, axes_of(first, second)),
        ),
{
    let mut shape: Vec<i64> = Vec::new();
    shape.push(first);
    if let Some(second) = second {
        shape.push(second);
    }
    assert(shape@ =~= axes_of(first, second));
    let text = join(name, place);
    let ghost before = out@;
    let ghost entry = (text@, shape@);
    out.push((text, shape));
    assert(super::sequential::named_shapes(out@) =~= super::sequential::named_shapes(before).push(entry));
}

/// One axis or two.
pub open spec fn axes_of(first: i64, second: Option<i64>) -> Seq<i64> {
    match second {
        Some(second) => seq![first, second],
        None => seq![first],
    }
}

/// How a layer is named in one direction.
pub open spec fn place_of(layer: int, reverse: bool) -> Seq<char> {
    decimal(layer) + (if reverse {
        "_reverse"@
    } else {
        ""@
    })
}

/// The names and shapes of the parameters of a layer in one direction, for given sizes.
pub open spec fn direction_shapes(
    config: RnnConfig,
    layer: int,
    reverse: bool,
    gate_size: i64,
    input_width: i64,
    width: i64,
) -> Seq<(Seq<char>, Seq<i64>)> {
    let place = place_of(layer, reverse);
    let weights = seq![
        ("weight_ih_l"@ + place, seq![gate_size, input_width]),
        ("weight_hh_l"@ + place, seq![gate_size, width]),
    ];
    let biased = if config.bias {
        weights.push(("bias_ih_l"@ + place, seq![gate_size])).push(("bias_hh_l"@ + place, seq![gate_size]))
    } else {
        weights
    };
    if config.projection > 0 {
        biased.push(("weight_hr_l"@ + place, seq![width, config.hidden_size]))
    } else {
        biased
    }
}

/// The names and shapes of the parameters of a layer in one direction.
pub open spec fn direction_parameters(config: RnnConfig, cell: Cell, layer: int, reverse: bool) -> Seq<(Seq<char>, Seq<i64>)> {
    direction_shapes(
        config,
        layer,
        reverse,
        (config.hidden_size * cell.gates()) as i64,
        if layer == 0 {
            config.input_size
        } else {
            (config.width() * config.directions()) as i64
        },
        config.width() as i64,
    )
}

/// The names and shapes of the parameters of the first `n` layers: forward, then backward.
pub open spec fn layer_parameters(config: RnnConfig, cell: Cell, n: int) -> Seq<(Seq<char>, Seq<i64>)>
    decreases n,
{
    if n <= 0 {
        Seq::empty()
    } else {
        let forward = layer_parameters(config, cell, n - 1) + direction_parameters(config, cell, n - 1, false);
        if config.bidirectional {
            forward + direction_parameters(config, cell, n - 1, true)
        } else {
            forward
        }
    }
}

/// A recurrent layer needs as many parameters as its settings tell.
pub proof fn parameters_are_counted(config: RnnConfig, cell: Cell, n: int)
    requires
        0 <= n,
    ensures
        layer_parameters(config, cell, n).len() == n * config.directions() * config.parameters_per_layer(),
    decreases n,
{
    let d = config.directions();
    let p = config.parameters_per_layer();
    if n > 0 {
        parameters_are_counted(config, cell, n - 1);
        assert(direction_parameters(config, cell, n - 1, false).len() == p);
        assert(direction_parameters(config, cell, n - 1, true).len() == p);
        assert(n * d * p == (n - 1) * d * p + d * p) by (nonlinear_arith);
        if config.bidirectional {
            assert(d * p == 2 * p);
        } else {
            assert(d * p == p);
        }
    } else {
        assert(n * d * p == 0) by (nonlinear_arith)
            requires
                n == 0,
        ;
    }
}

/// A recurrent layer.
#[derive(Debug)]
pub struct Recurrent {
    config: RnnConfig,
    cell: Cell,
    parameters: Vec<(String, Vec<i64>)>,
}

/// How a sequence is handed to a recurrent layer.
#[derive(Debug, Clone, Copy, PartialEq, Eq, Structural)]
pub struct SequencePlan {
    /// Whether the sequence has no batch; an axis of size one is then put in its place.
    pub unbatched: bool,
    /// The size of the batch.
    pub batch: i64,
    /// Whether the batch comes before the time.
    pub batch_first: bool,
}

/// Some size but the last is zero.
pub open spec fn is_empty_before_last(shape: Seq<i64>) -> bool {
    exists|i: int| 0 <= i < shape.len() - 1 && #[trigger] shape[i] == 0
}

fn empty_before_last(shape: &Vec<i64>) -> (r: bool)
    ensures
        r == is_empty_before_last(shape@),
{
    if shape.len() == 0 {
        return false;
    }
    let mut i: usize = 0;
    while i < shape.len() - 1
        invariant
            shape@.len() > 0,
            i <= shape@.len() - 1,
            forall|j: int| 0 <= j < i ==> #[trigger] shape@[j] != 0,
        decreases shape@.len() - i,
    {
        if shape[i] == 0 {
            assert(shape@[i as int] == 0);
            return true;
        }
        i += 1;
    }
    false
}

impl Recurrent {
    /// The settings.
    pub closed spec fn settings(self) -> RnnConfig {
        self.config
    }

    /// Which layer it is.
    pub closed spec fn unit(self) -> Cell {
        self.cell
    }

    /// The names and shapes of the parameters.
    pub closed spec fn parameters(self) -> Seq<(Seq<char>, Seq<i64>)> {
        super::sequential::named_shapes(self.parameters@)
    }

    /// The settings were accepted.
    pub open spec fn wf(self) -> bool {
        &&& self.settings().num_layers > 0
        &&& self.settings().num_layers * self.settings().directions() <= i64::MAX
        &&& self.settings().hidden_size > 0
        &&& 0 <= self.settings().projection < self.settings().hidden_size
    }

    /// The names and shapes of the parameters.
    pub fn allocation(&self) -> (r: &Vec<(String, Vec<i64>)>)
        ensures
            super::sequential::named_shapes(r@) == self.parameters(),
    {
        &self.parameters
    }

    /// How a sequence is taken, or why it is refused.
    pub open spec fn accepted(self, input: MetaView, kind: Kind, device: Device) -> core::result::Result<SequencePlan, ErrorView> {
        let shape = input.shape;
        let context = "recurrent input"@;
        if beside_refusal(input, kind, device, context) is Some {
            Err(beside_refusal(input, kind, device, context)->0)
        } else if !(2 <= shape.len() <= 3) || shape.last() != self.settings().input_size || is_empty_before_last(shape) {
            Err(
                setting_text(
                    context,
                    "expected nonempty [time, features] or rank-three sequences with the configured feature width"@,
                ),
            )
        } else {
            let unbatched = shape.len() == 2;
            Ok(
                SequencePlan {
                    unbatched,
                    batch: if unbatched {
                        1
                    } else if self.settings().batch_first {
                        shape[0]
                    } else {
                        shape[1]
                    },
                    batch_first: self.settings().batch_first && !unbatched,
                },
            )
        }
    }

    /// Checks a sequence and tells how it is taken.
    pub fn input(&self, input: &TensorMeta, kind: Kind, device: Device) -> (r: Result<SequencePlan>)
        ensures
            match (r, self.accepted(input@, kind, device)) {
                (Ok(a), Ok(b)) => a == b,
                (Err(a), Err(b)) => a@ == b,
                _ => false,
            },
    {
        if let Err(e) = same_tensor(input, kind, device, "recurrent input") {
            return Err(e);
        }
        let rank: usize = input.shape.len();
        if rank < 2 || rank > 3 || input.shape[rank - 1] != self.config.input_size || empty_before_last(&input.shape) {
            return Err(
                setting_error(
                    "recurrent input",
                    "expected nonempty [time, features] or rank-three sequences with the configured feature width",
                ),
            );
        }
        let unbatched = rank == 2;
        let batch: i64 = if unbatched {
            1
        } else if self.config.batch_first {
            input.shape[0]
        } else {
            input.shape[1]
        };
        Ok(SequencePlan { unbatched, batch, batch_first: self.config.batch_first && !unbatched })
    }

    /// The shape of a state of some width.
    pub open spec fn state_shape(self, plan: SequencePlan, width: i64) -> Seq<i64> {
        let layers = (self.settings().num_layers * self.settings().directions()) as i64;
        if plan.unbatched {
            seq![layers, width]
        } else {
            seq![layers, plan.batch, width]
        }
    }

    /// Why a state is refused, if it is.
    pub open spec fn state_refusal(
        self,
        state: MetaView,
        plan: SequencePlan,
        width: i64,
        kind: Kind,
        device: Device,
    ) -> Option<ErrorView> {
        either(
            beside_refusal(state, kind, device, "recurrent state"@),
            if state.shape != self.state_shape(plan, width) {
                Some(
                    ErrorView::ShapeMismatch {
                        name: "recurrent state"@,
                        expected: self.state_shape(plan, width),
                        actual: state.shape,
                    },
                )
            } else {
                None
            },
        )
    }

    /// Checks a state of some width. Without one, zeros of the returned shape are taken, which
    /// always has a batch.
    pub fn state(
        &self,
        state: Option<&TensorMeta>,
        plan: SequencePlan,
        width: i64,
        kind: Kind,
        device: Device,
    ) -> (r: Result<Vec<i64>>)
        requires
            self.wf(),
        ensures
            refusal(r) == (match state {
                Some(state) => self.state_refusal(state@, plan, width, kind, device),
                None => None,
            }),
            r matches Ok(shape) ==> shape@ == seq![
                (self.settings().num_layers * self.settings().directions()) as i64,
                plan.batch,
                width,
            ],
    {
        let layers: i64 = if self.config.bidirectional {
            self.config.num_layers * 2
        } else {
            self.config.num_layers
        };
        if let Some(state) = state {
            if let Err(e) = same_tensor(state, kind, device, "recurrent state") {
                return Err(e);
            }
            let mut expected: Vec<i64> = Vec::new();
            expected.push(layers);
            if !plan.unbatched {
                expected.push(plan.batch);
            }
            expected.push(width);
            assert(expected@ =~= self.state_shape(plan, width));
            if !same_shape(state.shape.as_slice(), expected.as_slice()) {
                return Err(
                    RustTorchError::ShapeMismatch {
                        name: owned("recurrent state"),
                        expected,
                        actual: copy_shape(state.shape.as_slice()),
                    },
                );
            }
        }
        let mut shape: Vec<i64> = Vec::new();
        shape.push(layers);
        shape.push(plan.batch);
        shape.push(width);
        assert(shape@ =~= seq![layers, plan.batch, width]);
        Ok(shape)
    }

    /// The features that go out in each direction.
    pub fn width(&self) -> (r: i64)
        requires
            self.wf(),
        ensures
            r == self.settings().width(),
    {
        if self.config.projection == 0 {
            self.config.hidden_size
        } else {
            self.config.projection
        }
    }

    /// The features of the state.
    pub fn hidden_size(&self) -> (r: i64)
        ensures
            r == self.settings().hidden_size,
    {
        self.config.hidden_size
    }
}

/// The settings of attention with several heads.
#[derive(Debug, Clone, Copy, PartialEq, Eq, Structural)]
pub struct MultiheadAttentionConfig {
    /// The features.
    pub embed_dim: i64,
    /// The heads among which they are divided.
    pub num_heads: i64,
    /// The share of weights that is cleared.
    pub dropout: Binary64,
    /// Whether biases are added.
    pub bias: bool,
    /// Whether the batch comes before the time.
    pub batch_first: bool,
}

impl MultiheadAttentionConfig {
    /// No dropout, with biases; the time comes first.
    pub fn new(embed_dim: i64, num_heads: i64) -> (r: Self)
        ensures
            r == (MultiheadAttentionConfig {
                embed_dim,
                num_heads,
                dropout: Binary64 { bits: 0 },
                bias: true,
                batch_first: false,
            }),
    {
        MultiheadAttentionConfig { embed_dim, num_heads, dropout: Binary64::zero(), bias: true, batch_first: false }
    }

    /// Sets the share of weights that is cleared.
    #[must_use]
    pub fn dropout(self, value: Binary64) -> (r: Self)
        ensures
            r == (MultiheadAttentionConfig { dropout: value, ..self }),
    {
        MultiheadAttentionConfig { dropout: value, ..self }
    }

    /// Sets whether biases are added.
    #[must_use]
    pub fn bias(self, value: bool) -> (r: Self)
        ensures
            r == (MultiheadAttentionConfig { bias: value, ..self }),
    {
        MultiheadAttentionConfig { bias: value, ..self }
    }

    /// Sets whether the batch comes before the time.
    #[must_use]
    pub fn batch_first(self, value: bool) -> (r: Self)
        ensures
            r == (MultiheadAttentionConfig { batch_first: value, ..self }),
    {
        MultiheadAttentionConfig { batch_first: value, ..self }
    }

    /// Why the settings are refused, if they are.
    pub open spec fn refusal(self, kind: Kind) -> Option<ErrorView> {
        if real_refusal(kind) is Some {
            real_refusal(kind)
        } else if dropout_refusal(self.dropout) is Some {
            dropout_refusal(self.dropout)
        } else if self.embed_dim <= 0 || self.num_heads <= 0 || self.embed_dim as int % self.num_heads as int != 0 {
            Some(
                setting_text(
                    "attention dimensions"@,
                    "positive embed_dim must be divisible by positive num_heads"@,
                ),
            )
        } else {
            either(
                product_refusal("embed_dim"@, self.embed_dim as int, 3),
                product_refusal("attention weights"@, self.embed_dim * 3, self.embed_dim as int),
            )
        }
    }

    /// Checks the settings. The projections into heads have a weight of three times the
    /// features by the features, and a bias of three times the features where there is one; the
    /// projection out of them is a linear map of the features.
    pub fn validate(self, kind: Kind) -> (r: Result<()>)
        ensures
            refusal(r) == self.refusal(kind),
    {
        if let Err(e) = real_parameters(kind) {
            return Err(e);
        }
        if let Err(e) = validate_dropout(self.dropout) {
            return Err(e);
        }
        if self.embed_dim <= 0 || self.num_heads <= 0 || self.embed_dim % self.num_heads != 0 {
            return Err(setting_error("attention dimensions", "positive embed_dim must be divisible by positive num_heads"));
        }
        let triple: i64 = match product("embed_dim", self.embed_dim, 3) {
            Ok(p) => p,
            Err(e) => {
                return Err(e);
            },
        };
        match product("attention weights", triple, self.embed_dim) {
            Ok(_) => Ok(()),
            Err(e) => Err(e),
        }
    }
}

/// Which positions attention may not see.
#[derive(Debug, Clone, Copy)]
pub struct AttentionMask<'a> {
    /// For each target and source, alike for all heads or for each by itself.
    pub attention: Option<&'a TensorMeta>,
    /// For each source.
    pub key_padding: Option<&'a TensorMeta>,
    /// Whether no target may see what comes after it.
    pub causal: bool,
}

impl<'a> Default for AttentionMask<'a> {
    /// Every position is seen.
    fn default() -> (r: Self)
        ensures
            r.attention is None,
            r.key_padding is None,
            !r.causal,
    {
        AttentionMask { attention: None, key_padding: None, causal: false }
    }
}

/// How a mask over targets and sources is laid out.
#[derive(Debug, Clone, Copy, PartialEq, Eq, Structural)]
pub enum MaskLayout {
    /// Alike for all batches and heads.
    Shared,
    /// For each batch and head by itself.
    PerHead,
}

/// How attention is computed.
#[derive(Debug, Clone, Copy, PartialEq, Eq, Structural)]
pub struct AttentionPlan {
    /// Whether there is no batch.
    pub unbatched: bool,
    /// Whether the batch comes before the time.
    pub batch_first: bool,
    /// The size of the batch.
    pub batch: i64,
    /// The number of targets.
    pub target: i64,
    /// The number of sources.
    pub source: i64,
    /// The features of each target and source.
    pub features: i64,
    /// The number of heads.
    pub heads: i64,
    /// The features of each head.
    pub head_width: i64,
    /// How the mask over targets and sources is laid out, if there is one.
    pub mask: Option<MaskLayout>,
    /// Whether a mask over sources is merged.
    pub padded: bool,
    /// Whether a mask is merged that hides from each target what comes after it.
    pub causal: bool,
}

impl AttentionPlan {
    /// The shape of the output.
    pub open spec fn output(self) -> Seq<i64> {
        if self.unbatched {
            seq![self.target, self.features]
        } else if self.batch_first {
            seq![self.batch, self.target, self.features]
        } else {
            seq![self.target, self.batch, self.features]
        }
    }

    /// The shape of the weights of each head.
    pub open spec fn head_weights(self) -> Seq<i64> {
        if self.unbatched {
            seq![self.heads, self.target, self.source]
        } else {
            seq![self.batch, self.heads, self.target, self.source]
        }
    }

    /// The shape of the weights that are averaged over the heads.
    pub open spec fn mean_weights(self) -> Seq<i64> {
        if self.unbatched {
            seq![self.target, self.source]
        } else {
            seq![self.batch, self.target, self.source]
        }
    }

    /// The shape of the output: that of the query.
    pub fn output_shape(self) -> (r: Vec<i64>)
        ensures
            r@ == self.output(),
    {
        if self.unbatched {
            vec![self.target, self.features]
        } else if self.batch_first {
            vec![self.batch, self.target, self.features]
        } else {
            vec![self.target, self.batch, self.features]
        }
    }

    /// The shape of the weights of each head.
    pub fn head_weights_shape(self) -> (r: Vec<i64>)
        ensures
            r@ == self.head_weights(),
    {
        if self.unbatched {
            vec![self.heads, self.target, self.source]
        } else {
            vec![self.batch, self.heads, self.target, self.source]
        }
    }

    /// The shape of the weights that are averaged over the heads.
    pub fn mean_weights_shape(self) -> (r: Vec<i64>)
        ensures
            r@ == self.mean_weights(),
    {
        if self.unbatched {
            vec![self.target, self.source]
        } else {
            vec![self.batch, self.target, self.source]
        }
    }
}

/// Why one operand of attention is refused, if it is.
pub open spec fn attended_refusal(
    config: MultiheadAttentionConfig,
    input: MetaView,
    kind: Kind,
    device: Device,
    name: Seq<char>,
) -> Option<ErrorView> {
    either(
        beside_refusal(input, kind, device, name),
        if !(2 <= input.shape.len() <= 3) || input.shape.last() != config.embed_dim {
            Some(setting_text(name, "expected rank-two or rank-three input ending in embed_dim"@))
        } else {
            None
        },
    )
}

fn check_attended(
    config: MultiheadAttentionConfig,
    input: &TensorMeta,
    kind: Kind,
    device: Device,
    name: &'static str,
) -> (r: Result<()>)
    ensures
        refusal(r) == attended_refusal(config, input@, kind, device, name@),
{
    if let Err(e) = same_tensor(input, kind, device, name) {
        return Err(e);
    }
    let rank: usize = input.shape.len();
    if rank < 2 || rank > 3 || input.shape[rank - 1] != config.embed_dim {
        return Err(setting_error(name, "expected rank-two or rank-three input ending in embed_dim"));
    }
    Ok(())
}

/// Where the batch of an operand stands.
pub open spec fn batch_of(shape: Seq<i64>, batch_first: bool) -> i64 {
    if shape.len() == 2 {
        1
    } else if batch_first {
        shape[0]
    } else {
        shape[1]
    }
}

/// Where the time of an operand stands.
pub open spec fn time_of(shape: Seq<i64>, batch_first: bool) -> i64 {
    if shape.len() == 2 || !batch_first {
        shape[0]
    } else {
        shape[1]
    }
}

fn batch_and_time(shape: &Vec<i64>, batch_first: bool) -> (r: (i64, i64))
    requires
        2 <= shape@.len() <= 3,
    ensures
        r.0 == batch_of(shape@, batch_first),
        r.1 == time_of(shape@, batch_first),
{
    if shape.len() == 2 {
        (1, shape[0])
    } else if batch_first {
        (shape[0], shape[1])
    } else {
        (shape[1], shape[0])
    }
}

/// Why a mask is refused for its element type or device, if it is.
pub open spec fn mask_refusal(mask: MetaView, query: MetaView) -> Option<ErrorView> {
    either(
        device_refusal("attention mask"@, mask.device, query.device),
        if mask.kind != Kind::Bool && mask.kind != query.kind {
            Some(setting_text("attention mask"@, "expected bool or the query floating-point dtype"@))
        } else {
            None
        },
    )
}

fn check_mask(mask: &TensorMeta, query: &TensorMeta) -> (r: Result<()>)
    ensures
        refusal(r) == mask_refusal(mask@, query@),
{
    if let Err(e) = ensure_device("attention mask", mask.device, query.device) {
        return Err(e);
    }
    if mask.kind != Kind::Bool && mask.kind != query.kind {
        return Err(setting_error("attention mask", "expected bool or the query floating-point dtype"));
    }
    Ok(())
}

/// How a mask over targets and sources is laid out, or why it is refused.
pub open spec fn mask_layout(
    mask: MetaView,
    query: MetaView,
    batch: i64,
    heads: i64,
    target: i64,
    source: i64,
) -> core::result::Result<MaskLayout, ErrorView> {
    if mask_refusal(mask, query) is Some {
        Err(mask_refusal(mask, query)->0)
    } else if mask.shape == seq![target, source] {
        Ok(MaskLayout::Shared)
    } else if product_refusal("attention batch"@, batch as int, heads as int) is Some {
        Err(product_refusal("attention batch"@, batch as int, heads as int)->0)
    } else if mask.shape == seq![(batch * heads) as i64, target, source] {
        Ok(MaskLayout::PerHead)
    } else {
        Err(setting_text("attention mask"@, "expected [target, source] or [batch * heads, target, source]"@))
    }
}

fn lay_out_mask(
    mask: &TensorMeta,
    query: &TensorMeta,
    batch: i64,
    heads: i64,
    target: i64,
    source: i64,
) -> (r: Result<MaskLayout>)
    ensures
        match (r, mask_layout(mask@, query@, batch, heads, target, source)) {
            (Ok(a), Ok(b)) => a == b,
            (Err(a), Err(b)) => a@ == b,
            _ => false,
        },
{
    if let Err(e) = check_mask(mask, query) {
        return Err(e);
    }
    let shape = &mask.shape;
    if shape.len() == 2 && shape[0] == target && shape[1] == source {
        assert(shape@ =~= seq![target, source]);
        return Ok(MaskLayout::Shared);
    }
    let rows: i64 = match product("attention batch", batch, heads) {
        Ok(p) => p,
        Err(e) => {
            return Err(e);
        },
    };
    if shape.len() == 3 && shape[0] == rows && shape[1] == target && shape[2] == source {
        assert(shape@ =~= seq![rows, target, source]);
        return Ok(MaskLayout::PerHead);
    }
    Err(setting_error("attention mask", "expected [target, source] or [batch * heads, target, source]"))
}

/// Why a mask over sources is refused, if it is.
pub open spec fn padding_refusal(
    mask: MetaView,
    query: MetaView,
    unbatched: bool,
    batch: i64,
    source: i64,
) -> Option<ErrorView> {
    let expected = if unbatched {
        seq![source]
    } else {
        seq![batch, source]
    };
    either(
        mask_refusal(mask, query),
        if mask.shape != expected {
            Some(ErrorView::ShapeMismatch { name: "key padding mask"@, expected, actual: mask.shape })
        } else {
            None
        },
    )
}

fn check_padding(mask: &TensorMeta, query: &TensorMeta, unbatched: bool, batch: i64, source: i64) -> (r: Result<()>)
    ensures
        refusal(r) == padding_refusal(mask@, query@, unbatched, batch, source),
{
    if let Err(e) = check_mask(mask, query) {
        return Err(e);
    }
    let mut expected: Vec<i64> = Vec::new();
    if !unbatched {
        expected.push(batch);
    }
    expected.push(source);
    proof {
        if unbatched {
            assert(expected@ =~= seq![source]);
        } else {
            assert(expected@ =~= seq![batch, source]);
        }
    }
    if !same_shape(mask.shape.as_slice(), expected.as_slice()) {
        return Err(
            RustTorchError::ShapeMismatch {
                name: owned("key padding mask"),
                expected,
                actual: copy_shape(mask.shape.as_slice()),
            },
        );
    }
    Ok(())
}

/// The layout of an optional mask over targets and sources, or why it is refused.
pub open spec fn optional_layout(
    mask: Option<MetaView>,
    query: MetaView,
    batch: i64,
    heads: i64,
    target: i64,
    source: i64,
) -> core::result::Result<Option<MaskLayout>, ErrorView> {
    match mask {
        None => Ok(None),
        Some(mask) => match mask_layout(mask, query, batch, heads, target, source) {
            Ok(layout) => Ok(Some(layout)),
            Err(e) => Err(e),
        },
    }
}

/// How attention is computed, or why its operands are refused.
pub open spec fn attention_plan(
    config: MultiheadAttentionConfig,
    query: MetaView,
    key: MetaView,
    value: MetaView,
    attention: Option<MetaView>,
    key_padding: Option<MetaView>,
    causal: bool,
    kind: Kind,
    device: Device,
) -> core::result::Result<AttentionPlan, ErrorView> {
    let operands = either(
        attended_refusal(config, query, kind, device, "attention query"@),
        either(
            attended_refusal(config, key, kind, device, "attention key"@),
            attended_refusal(config, value, kind, device, "attention value"@),
        ),
    );
    let batch = batch_of(query.shape, config.batch_first);
    let target = time_of(query.shape, config.batch_first);
    let source = time_of(key.shape, config.batch_first);
    let unbatched = query.shape.len() == 2;
    let layout = optional_layout(attention, query, batch, config.num_heads, target, source);
    let padding = match key_padding {
        Some(mask) => padding_refusal(mask, query, unbatched, batch, source),
        None => None,
    };
    if operands is Some {
        Err(operands->0)
    } else if query.shape.len() != key.shape.len() || key.shape != value.shape {
        Err(
            setting_text(
                "attention inputs"@,
                "query, key and value must have equal rank; key and value shapes must match"@,
            ),
        )
    } else if batch_of(key.shape, config.batch_first) != batch {
        Err(setting_text("attention batch"@, "query and key batch sizes must match"@))
    } else if layout is Err {
        Err(layout->Err_0)
    } else if padding is Some {
        Err(padding->0)
    } else if product_refusal("attention output"@, target as int, batch as int) is Some {
        Err(product_refusal("attention output"@, target as int, batch as int)->0)
    } else {
        Ok(
            AttentionPlan {
                unbatched,
                batch_first: config.batch_first,
                batch,
                target,
                source,
                features: config.embed_dim,
                heads: config.num_heads,
                head_width: (config.embed_dim as int / config.num_heads as int) as i64,
                mask: layout->Ok_0,
                padded: key_padding is Some,
                causal,
            },
        )
    }
}

/// Attention with several heads. Its parameters have one element type and lie on one device.
#[derive(Debug, Clone, Copy, PartialEq, Eq, Structural)]
pub struct MultiheadAttention {
    config: MultiheadAttentionConfig,
    kind: Kind,
    device: Device,
}

impl MultiheadAttention {
    /// The settings.
    pub closed spec fn settings(self) -> MultiheadAttentionConfig {
        self.config
    }

    /// The element type of the parameters.
    pub closed spec fn element(self) -> Kind {
        self.kind
    }

    /// Where the parameters are stored.
    pub closed spec fn place(self) -> Device {
        self.device
    }

    /// The settings were accepted.
    pub open spec fn wf(self) -> bool {
        self.settings().refusal(self.element()) is None
    }

    /// Attention with checked settings.
    pub fn new(config: MultiheadAttentionConfig, kind: Kind, device: Device) -> (r: Result<Self>)
        ensures
            refusal(r) == config.refusal(kind),
            r matches Ok(a) ==> a.wf() && a.settings() == config && a.element() == kind && a.place() == device,
    {
        if let Err(e) = config.validate(kind) {
            return Err(e);
        }
        Ok(MultiheadAttention { config, kind, device })
    }

    /// Checks the operands and masks, and tells how attention is computed.
    pub fn plan(&self, query: &TensorMeta, key: &TensorMeta, value: &TensorMeta, mask: &AttentionMask<'_>) -> (r: Result<
        AttentionPlan,
    >)
        requires
            self.wf(),
        ensures
            match (
                r,
                attention_plan(
                    self.settings(),
                    query@,
                    key@,
                    value@,
                    super::functional::optional_view(mask.attention),
                    super::functional::optional_view(mask.key_padding),
                    mask.causal,
                    self.element(),
                    self.place(),
                ),
            ) {
                (Ok(a), Ok(b)) => a == b,
                (Err(a), Err(b)) => a@ == b,
                _ => false,
            },
    {
        let config = self.config;
        if let Err(e) = check_attended(config, query, self.kind, self.device, "attention query") {
            return Err(e);
        }
        if let Err(e) = check_attended(config, key, self.kind, self.device, "attention key") {
            return Err(e);
        }
        if let Err(e) = check_attended(config, value, self.kind, self.device, "attention value") {
            return Err(e);
        }
        if query.shape.len() != key.shape.len() || !same_shape(key.shape.as_slice(), value.shape.as_slice()) {
            return Err(
                setting_error(
                    "attention inputs",
                    "query, key and value must have equal rank; key and value shapes must match",
                ),
            );
        }
        let unbatched = query.shape.len() == 2;
        let (batch, target): (i64, i64) = batch_and_time(&query.shape, config.batch_first);
        let (others, source): (i64, i64) = batch_and_time(&key.shape, config.batch_first);
        if others != batch {
            return Err(setting_error("attention batch", "query and key batch sizes must match"));
        }
        let layout = match mask.attention {
            None => None,
            Some(attention) => {
                match lay_out_mask(attention, query, batch, config.num_heads, target, source) {
                    Ok(layout) => Some(layout),
                    Err(e) => {
                        return Err(e);
                    },
                }
            },
        };
        if let Some(padding) = mask.key_padding {
            if let Err(e) = check_padding(padding, query, unbatched, batch, source) {
                return Err(e);
            }
        }
        if let Err(e) = product("attention output", target, batch) {
            return Err(e);
        }
        proof {
            super::layers::whole_group(config.embed_dim as int, config.num_heads as int);
        }
        let head_width: i64 = config.embed_dim / config.num_heads;
        Ok(
            AttentionPlan {
                unbatched,
                batch_first: config.batch_first,
                batch,
                target,
                source,
                features: config.embed_dim,
                heads: config.num_heads,
                head_width,
                mask: layout,
                padded: mask.key_padding.is_some(),
                causal: mask.causal,
            },
        )
    }
}

/// The output of attention has the shape of the query.
pub proof fn attention_keeps_the_query_shape(
    config: MultiheadAttentionConfig,
    query: MetaView,
    key: MetaView,
    value: MetaView,
    attention: Option<MetaView>,
    key_padding: Option<MetaView>,
    causal: bool,
    kind: Kind,
    device: Device,
)
    requires
        attention_plan(config, query, key, value, attention, key_padding, causal, kind, device) is Ok,
    ensures
        attention_plan(config, query, key, value, attention, key_padding, causal, kind, device)->Ok_0.output() == query.shape,
{
    let plan = attention_plan(config, query, key, value, attention, key_padding, causal, kind, device)->Ok_0;
    assert(plan.output() =~= query.shape);
}

/// The heads of an accepted attention share all its features: none is left over.
pub proof fn heads_share_the_features(config: MultiheadAttentionConfig, kind: Kind)
    requires
        config.refusal(kind) is None,
    ensures
        (config.embed_dim as int / config.num_heads as int) * config.num_heads == config.embed_dim,
        config.embed_dim as int / config.num_heads as int > 0,
{
    super::layers::whole_group(config.embed_dim as int, config.num_heads as int);
    vstd::arithmetic::div_mod::lemma_fundamental_div_mod(config.embed_dim as int, config.num_heads as int);
    vstd::arithmetic::mul::lemma_mul_is_commutative(
        config.num_heads as int,
        config.embed_dim as int / config.num_heads as int,
    );
}

/// The nonlinearity of a transformer.
#[derive(Debug, Clone, Copy, PartialEq, Eq, Structural)]
pub enum TransformerActivation {
    Relu,
    Gelu,
}

impl Default for TransformerActivation {
    fn default() -> (r: Self)
        ensures
            r == TransformerActivation::Relu,
    {
        TransformerActivation::Relu
    }
}

/// The settings of a transformer.
#[derive(Debug, Clone, Copy, PartialEq, Eq, Structural)]
pub struct TransformerConfig {
    /// The features.
    pub d_model: i64,
    /// The heads of each attention.
    pub num_heads: i64,
    /// The features between the two linear maps of a layer.
    pub dim_feedforward: i64,
    /// The share of elements that is cleared.
    pub dropout: Binary64,
    /// The nonlinearity between the two linear maps.
    pub activation: TransformerActivation,
    /// What is added to variances.
    pub layer_norm_eps: Binary64,
    /// Whether the batch comes before the time.
    pub batch_first: bool,
    /// Whether inputs are normalized rather than sums.
    pub norm_first: bool,
    /// Whether biases are added.
    pub bias: bool,
    /// How many layers the encoder has.
    pub num_encoder_layers: i64,
    /// How many layers the decoder has.
    pub num_decoder_layers: i64,
}

impl TransformerConfig {
    /// Six layers on each side, 2048 inner features, and one tenth cleared.
    pub fn new(d_model: i64, num_heads: i64) -> (r: Self)
        ensures
            r == (TransformerConfig {
                d_model,
                num_heads,
                dim_feedforward: 2048,
                dropout: Binary64 { bits: 0x3fb9_9999_9999_999a },
                activation: TransformerActivation::Relu,
                layer_norm_eps: Binary64 { bits: 0x3ee4_f8b5_88e3_68f1 },
                batch_first: false,
                norm_first: false,
                bias: true,
                num_encoder_layers: 6,
                num_decoder_layers: 6,
            }),
    {
        TransformerConfig {
            d_model,
            num_heads,
            dim_feedforward: 2048,
            dropout: Binary64 { bits: 0x3fb9_9999_9999_999a },
            activation: TransformerActivation::Relu,
            layer_norm_eps: Binary64 { bits: 0x3ee4_f8b5_88e3_68f1 },
            batch_first: false,
            norm_first: false,
            bias: true,
            num_encoder_layers: 6,
            num_decoder_layers: 6,
        }
    }

    /// Sets the features between the two linear maps of a layer.
    #[must_use]
    pub fn dim_feedforward(self, value: i64) -> (r: Self)
        ensures
            r == (TransformerConfig { dim_feedforward: value, ..self }),
    {
        TransformerConfig { dim_feedforward: value, ..self }
    }

    /// Sets the share of elements that is cleared.
    #[must_use]
    pub fn dropout(self, value: Binary64) -> (r: Self)
        ensures
            r == (TransformerConfig { dropout: value, ..self }),
    {
        TransformerConfig { dropout: value, ..self }
    }

    /// Sets the nonlinearity between the two linear maps.
    #[must_use]
    pub fn activation(self, value: TransformerActivation) -> (r: Self)
        ensures
            r == (TransformerConfig { activation: value, ..self }),
    {
        TransformerConfig { activation: value, ..self }
    }

    /// Sets what is added to variances.
    #[must_use]
    pub fn layer_norm_eps(self, value: Binary64) -> (r: Self)
        ensures
            r == (TransformerConfig { layer_norm_eps: value, ..self }),
    {
        TransformerConfig { layer_norm_eps: value, ..self }
    }

    /// Sets whether the batch comes before the time.
    #[must_use]
    pub fn batch_first(self, value: bool) -> (r: Self)
        ensures
            r == (TransformerConfig { batch_first: value, ..self }),
    {
        TransformerConfig { batch_first: value, ..self }
    }

    /// Sets whether inputs are normalized rather than sums.
    #[must_use]
    pub fn norm_first(self, value: bool) -> (r: Self)
        ensures
            r == (TransformerConfig { norm_first: value, ..self }),
    {
        TransformerConfig { norm_first: value, ..self }
    }

    /// Sets whether biases are added.
    #[must_use]
    pub fn bias(self, value: bool) -> (r: Self)
        ensures
            r == (TransformerConfig { bias: value, ..self }),
    {
        TransformerConfig { bias: value, ..self }
    }

    /// Sets how many layers the encoder has.
    #[must_use]
    pub fn num_encoder_layers(self, value: i64) -> (r: Self)
        ensures
            r == (TransformerConfig { num_encoder_layers: value, ..self }),
    {
        TransformerConfig { num_encoder_layers: value, ..self }
    }

    /// Sets how many layers the decoder has.
    #[must_use]
    pub fn num_decoder_layers(self, value: i64) -> (r: Self)
        ensures
            r == (TransformerConfig { num_decoder_layers: value, ..self }),
    {
        TransformerConfig { num_decoder_layers: value, ..self }
    }

    /// The settings of each attention.
    pub open spec fn attention_of(self) -> MultiheadAttentionConfig {
        MultiheadAttentionConfig {
            embed_dim: self.d_model,
            num_heads: self.num_heads,
            dropout: self.dropout,
            bias: self.bias,
            batch_first: self.batch_first,
        }
    }

    /// The settings of each attention.
    pub fn attention(self) -> (r: MultiheadAttentionConfig)
        ensures
            r == self.attention_of(),
    {
        MultiheadAttentionConfig {
            embed_dim: self.d_model,
            num_heads: self.num_heads,
            dropout: self.dropout,
            bias: self.bias,
            batch_first: self.batch_first,
        }
    }

    /// Why the settings of a layer are refused, if they are.
    pub open spec fn layer_refusal(self, kind: Kind) -> Option<ErrorView> {
        if self.attention_of().refusal(kind) is Some {
            self.attention_of().refusal(kind)
        } else if self.dim_feedforward <= 0 {
            Some(setting_text("dim_feedforward"@, "must be positive"@))
        } else {
            either(
                product_refusal("feed-forward weights"@, self.d_model as int, self.dim_feedforward as int),
                eps_refusal("layer_norm_eps"@, self.layer_norm_eps),
            )
        }
    }

    /// Checks the settings of one layer.
    pub fn validate(self, kind: Kind) -> (r: Result<()>)
        ensures
            refusal(r) == self.layer_refusal(kind),
    {
        if let Err(e) = self.attention().validate(kind) {
            return Err(e);
        }
        if self.dim_feedforward <= 0 {
            return Err(setting_error("dim_feedforward", "must be positive"));
        }
        if let Err(e) = product("feed-forward weights", self.d_model, self.dim_feedforward) {
            return Err(e);
        }
        check_eps("layer_norm_eps", self.layer_norm_eps)
    }

    /// Why a number of layers is refused, if it is.
    pub open spec fn depth_refusal(self, num_layers: i64, field: Seq<char>) -> Option<ErrorView> {
        if num_layers <= 0 {
            Some(setting_text(field, "must be positive"@))
        } else {
            either(
                product_refusal(field, self.d_model as int, self.dim_feedforward as int),
                product_refusal(field, self.d_model * self.dim_feedforward, num_layers as int),
            )
        }
    }

    fn validate_depth(self, num_layers: i64, field: &'static str) -> (r: Result<()>)
        ensures
            refusal(r) == self.depth_refusal(num_layers, field@),
    {
        if num_layers <= 0 {
            return Err(setting_error(field, "must be positive"));
        }
        let one: i64 = match product(field, self.d_model, self.dim_feedforward) {
            Ok(p) => p,
            Err(e) => {
                return Err(e);
            },
        };
        match product(field, one, num_layers) {
            Ok(_) => Ok(()),
            Err(e) => Err(e),
        }
    }

    /// Checks the settings of an encoder.
    pub fn build_encoder(self, kind: Kind, num_layers: i64) -> (r: Result<()>)
        ensures
            refusal(r) == either(self.layer_refusal(kind), self.depth_refusal(num_layers, "encoder layers"@)),
    {
        if let Err(e) = self.validate(kind) {
            return Err(e);
        }
        self.validate_depth(num_layers, "encoder layers")
    }

    /// Checks the settings of a decoder.
    pub fn build_decoder(self, kind: Kind, num_layers: i64) -> (r: Result<()>)
        ensures
            refusal(r) == either(self.layer_refusal(kind), self.depth_refusal(num_layers, "decoder layers"@)),
    {
        if let Err(e) = self.validate(kind) {
            return Err(e);
        }
        self.validate_depth(num_layers, "decoder layers")
    }

    /// Checks the settings of an encoder with a decoder.
    pub fn build(self, kind: Kind) -> (r: Result<()>)
        ensures
            refusal(r) == either(
                self.layer_refusal(kind),
                either(
                    self.depth_refusal(self.num_encoder_layers, "encoder layers"@),
                    self.depth_refusal(self.num_decoder_layers, "decoder layers"@),
                ),
            ),
    {
        if let Err(e) = self.validate(kind) {
            return Err(e);
        }
        if let Err(e) = self.validate_depth(self.num_encoder_layers, "encoder layers") {
            return Err(e);
        }
        self.validate_depth(self.num_decoder_layers, "decoder layers")
    }
}

/// What one layer of a transformer does next.
#[derive(Debug, Clone, Copy, PartialEq, Eq, Structural)]
pub enum BlockStep {
    /// Normalize a copy for the next branch with the norm of this number.
    NormalizeBranch(usize),
    /// Attend to the input itself and add the result.
    SelfAttention,
    /// Attend to the memory and add the result.
    CrossAttention,
    /// Apply both linear maps and add the result.
    FeedForward,
    /// Normalize the sum with the norm of this number.
    NormalizeSum(usize),
}

/// One branch of a layer: its input or its sum is normalized.
pub open spec fn branch_steps(norm_first: bool, norm: usize, branch: BlockStep) -> Seq<BlockStep> {
    if norm_first {
        seq![BlockStep::NormalizeBranch(norm), branch]
    } else {
        seq![branch, BlockStep::NormalizeSum(norm)]
    }
}

/// The steps of a layer: attention to itself, then to the memory where there is one, then the
/// linear maps. A decoder has three norms, an encoder two; the last belongs to the linear maps.
pub open spec fn block_steps(norm_first: bool, decoder: bool, memory: bool) -> Seq<BlockStep> {
    let first = branch_steps(norm_first, 0, BlockStep::SelfAttention);
    let second = if decoder && memory {
        first + branch_steps(norm_first, 1, BlockStep::CrossAttention)
    } else {
        first
    };
    second + branch_steps(
        norm_first,
        if decoder {
            2
        } else {
            1
        },
        BlockStep::FeedForward,
    )
}

fn push_branch(out: &mut Vec<BlockStep>, norm_first: bool, norm: usize, branch: BlockStep)
    ensures
        final(out)@ == old(out)@ + branch_steps(norm_first, norm, branch),
{
    let ghost before = out@;
    if norm_first {
        out.push(BlockStep::NormalizeBranch(norm));
        out.push(branch);
    } else {
        out.push(branch);
        out.push(BlockStep::NormalizeSum(norm));
    }
    assert(out@ =~= before + branch_steps(norm_first, norm, branch));
}

/// The steps of a layer.
pub fn plan_block(norm_first: bool, decoder: bool, memory: bool) -> (r: Vec<BlockStep>)
    ensures
        r@ == block_steps(norm_first, decoder, memory),
{
    let mut out: Vec<BlockStep> = Vec::new();
    push_branch(&mut out, norm_first, 0, BlockStep::SelfAttention);
    assert(out@ =~= branch_steps(norm_first, 0, BlockStep::SelfAttention));
    if decoder && memory {
        push_branch(&mut out, norm_first, 1, BlockStep::CrossAttention);
    }
    push_branch(
        &mut out,
        norm_first,
        if decoder {
            2
        } else {
            1
        },
        BlockStep::FeedForward,
    );
    out
}

} // verus!
