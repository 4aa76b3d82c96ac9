//! Which parameters sequence models have, and which sequences they accept.
use super::sequence::{
    attended_refusal, attention_plan, block_steps, direction_parameters, layer_parameters, mask_layout, padding_refusal,
    place_of, BlockStep, Cell, MultiheadAttentionConfig, Recurrent, RnnConfig, TransformerConfig,
};
use crate::kind::{Device, Kind};
use crate::number_laws::value_of;
use crate::tensor::MetaView;
use crate::text::decimal;
use vstd::prelude::*;

verus! {

/// A recurrent unit of each kind has its number of gates, a model runs in one or both directions, and
/// what it hands on is as wide as its hidden state, or as its projection where it has one.
pub proof fn recurrent_models_have_their_widths(config: RnnConfig)
    ensures
        Cell::Rnn.gates() == 1 && Cell::Gru.gates() == 3 && Cell::Lstm.gates() == 4,
        config.bidirectional ==> config.directions() == 2,
        !config.bidirectional ==> config.directions() == 1,
        config.projection == 0 ==> config.width() == config.hidden_size,
        config.projection > 0 ==> config.width() == config.projection,
{
}

/// The parameters of one direction of a layer: a weight for its input and one for its state, each with a
/// row for every gate, a bias for each of these where the model has biases, and a projection where it
/// projects. The first layer reads the input and the others what all directions before them hand on.
pub proof fn directions_have_their_parameters(config: RnnConfig, cell: Cell, layer: int, reverse: bool)
    requires
        config.hidden_size * cell.gates() <= i64::MAX,
        config.width() * config.directions() <= i64::MAX,
        config.hidden_size > 0,
        0 <= config.projection,
    ensures
        ({
            let list = direction_parameters(config, cell, layer, reverse);
            let end = if reverse {
                decimal(layer) + "_reverse"@
            } else {
                decimal(layer)
            };
            let rows = (config.hidden_size * cell.gates()) as i64;
            let columns = if layer == 0 {
                config.input_size as int
            } else {
                config.width() * config.directions()
            };
            &&& list[0] == ("weight_ih_l"@ + end, seq![rows, columns as i64])
            &&& list[1] == ("weight_hh_l"@ + end, seq![rows, config.width() as i64])
            &&& config.bias ==> list[2] == ("bias_ih_l"@ + end, seq![rows]) && list[3] == ("bias_hh_l"@ + end, seq![rows])
            &&& config.projection > 0 ==> list.last() == ("weight_hr_l"@ + end, seq![config.projection, config.hidden_size])
            &&& list.len() == 2 + (if config.bias {
                2int
            } else {
                0
            }) + (if config.projection > 0 {
                1int
            } else {
                0
            })
        }),
{
    reveal_strlit("");
    assert(decimal(layer) + ""@ =~= decimal(layer));
    assert(place_of(layer, false) =~= decimal(layer));
    assert(place_of(layer, true) =~= decimal(layer) + "_reverse"@);
}

/// The parameters of each layer are listed after those of the layers before it, forward first.
pub proof fn layers_follow_each_other(config: RnnConfig, cell: Cell, n: int)
    requires
        n > 0,
    ensures
        layer_parameters(config, cell, 0).len() == 0,
        !config.bidirectional ==> layer_parameters(config, cell, n) == layer_parameters(config, cell, n - 1) + direction_parameters(
            config,
            cell,
            n - 1,
            false,
        ),
        config.bidirectional ==> layer_parameters(config, cell, n) == layer_parameters(config, cell, n - 1) + direction_parameters(
            config,
            cell,
            n - 1,
            false,
        ) + direction_parameters(config, cell, n - 1, true),
{
}

/// A recurrent model is refused where its sizes are not positive, where its projection is negative or as
/// wide as its state, and where it projects without being an LSTM.
pub proof fn recurrent_models_are_configured_soundly(config: RnnConfig, kind: Kind, cell: Cell)
    ensures
        config.refusal(kind, cell) is None ==> {
            &&& kind is Float || kind is Double || kind is Half || kind is BFloat16
            &&& config.input_size > 0 && config.hidden_size > 0 && config.num_layers > 0
            &&& 0 <= config.projection < config.hidden_size
            &&& config.projection > 0 ==> cell is Lstm
            &&& config.dropout.finite() && value_of(config.dropout) >= 0
            &&& config.hidden_size * cell.gates() <= i64::MAX
            &&& config.num_layers * config.directions() * config.parameters_per_layer() <= i32::MAX
        },
{
    if config.refusal(kind, cell) is None {
        crate::number_laws::fractions_lie_between_zero_and_one(config.dropout);
    }
}

/// A sequence is accepted exactly if it has the element type and device of the model, two or three
/// axes of which the last holds the features, and no axis before it is empty. The batch is the first or
/// the second axis of three, as the model says, and one where there are two.
pub proof fn sequences_are_read_along_their_axes(model: Recurrent, input: MetaView, kind: Kind, device: Device)
    ensures
        model.accepted(input, kind, device) is Ok <==> {
            let n = input.shape.len();
            &&& input.device == device && input.kind == kind
            &&& n == 2 || n == 3
            &&& input.shape[n - 1] == model.settings().input_size
            &&& input.shape[0] != 0
            &&& n == 3 ==> input.shape[1] != 0
        },
        model.accepted(input, kind, device) matches Ok(plan) ==> {
            &&& plan.unbatched <==> input.shape.len() == 2
            &&& input.shape.len() == 2 ==> plan.batch == 1 && !plan.batch_first
            &&& input.shape.len() == 3 && model.settings().batch_first ==> plan.batch == input.shape[0] && plan.batch_first
            &&& input.shape.len() == 3 && !model.settings().batch_first ==> plan.batch == input.shape[1] && !plan.batch_first
        },
{
    let shape = input.shape;
    let n = shape.len() as int;
    if n == 2 || n == 3 {
        assert(super::sequence::is_empty_before_last(shape) <==> shape[0] == 0 || (n == 3 && shape[1] == 0));
    }
}

/// A state has one row for each layer and direction, and for each sequence of a batch where there is one.
pub proof fn states_have_a_row_per_layer_and_direction(
    model: Recurrent,
    state: MetaView,
    plan: super::sequence::SequencePlan,
    width: i64,
    kind: Kind,
    device: Device,
)
    requires
        model.wf(),
    ensures
        model.state_refusal(state, plan, width, kind, device) is None <==> {
            let rows = model.settings().num_layers * model.settings().directions();
            &&& state.device == device && state.kind == kind
            &&& plan.unbatched ==> state.shape.len() == 2 && state.shape[0] == rows && state.shape[1] == width
            &&& !plan.unbatched ==> state.shape.len() == 3 && state.shape[0] == rows && state.shape[1] == plan.batch && state.shape[2]
                == width
        },
{
    let rows = model.settings().num_layers * model.settings().directions();
    assert(rows >= 1) by (nonlinear_arith)
        requires
            rows == model.settings().num_layers * model.settings().directions(),
            model.settings().num_layers > 0,
            model.settings().directions() >= 1,
    ;
    if plan.unbatched && state.shape.len() == 2 && state.shape[0] == rows && state.shape[1] == width {
        assert(state.shape =~= model.state_shape(plan, width));
    }
    if !plan.unbatched && state.shape.len() == 3 && state.shape[0] == rows && state.shape[1] == plan.batch && state.shape[2] == width {
        assert(state.shape =~= model.state_shape(plan, width));
    }
}

/// An operand of attention is accepted exactly if it has the element type and device of the model and two
/// or three axes, the last of which holds the features.
pub proof fn attended_operands_end_in_features(
    config: MultiheadAttentionConfig,
    input: MetaView,
    kind: Kind,
    device: Device,
    name: Seq<char>,
)
    ensures
        attended_refusal(config, input, kind, device, name) is None <==> {
            &&& input.device == device && input.kind == kind
            &&& input.shape.len() == 2 || input.shape.len() == 3
            &&& input.shape[input.shape.len() - 1] == config.embed_dim
        },
{
}

/// A mask over places has a row for each target and a column for each source, once for all heads or once
/// for each head of each sequence; it holds truth values or numbers of the query's element type and lies
/// on its device.
pub proof fn masks_cover_targets_and_sources(mask: MetaView, query: MetaView, batch: i64, heads: i64, target: i64, source: i64)
    requires
        0 <= batch * heads <= i64::MAX,
    ensures
        mask_layout(mask, query, batch, heads, target, source) is Ok <==> {
            &&& mask.device == query.device
            &&& mask.kind is Bool || mask.kind == query.kind
            &&& mask.shape == seq![target, source] || mask.shape == seq![(batch * heads) as i64, target, source]
        },
        mask_layout(mask, query, batch, heads, target, source) matches Ok(layout) ==> {
            &&& layout is Shared <==> mask.shape.len() == 2
            &&& layout is PerHead <==> mask.shape.len() == 3
        },
{
}

/// A mask over padding has a truth value for each source, and for each sequence where there is a batch.
pub proof fn padding_covers_the_sources(mask: MetaView, query: MetaView, unbatched: bool, batch: i64, source: i64)
    ensures
        padding_refusal(mask, query, unbatched, batch, source) is None <==> {
            &&& mask.device == query.device
            &&& mask.kind is Bool || mask.kind == query.kind
            &&& unbatched ==> mask.shape == seq![source]
            &&& !unbatched ==> mask.shape == seq![batch, source]
        },
{
}

/// Attention without masks is accepted exactly if its operands are, they have equally many axes, keys and
/// values have one shape, and queries and keys come in equally large batches. The plan reads the number
/// of targets off the query and that of the sources off the key, along the axis that holds the time.
pub proof fn attention_reads_its_operands(
    config: MultiheadAttentionConfig,
    query: MetaView,
    key: MetaView,
    value: MetaView,
    causal: bool,
    kind: Kind,
    device: Device,
)
    requires
        config.refusal(kind) is None,
        query.shape.len() == 3 && key.shape.len() == 3,
        forall|i: int| 0 <= i < 3 ==> (#[trigger] query.shape[i]) >= 0,
        query.shape[0] * query.shape[1] <= i64::MAX,
    ensures
        ({
            let plan = attention_plan(config, query, key, value, None, None, causal, kind, device);
            let (b, t) = if config.batch_first {
                (0int, 1int)
            } else {
                (1int, 0int)
            };
            &&& plan is Ok <==> {
                &&& attended_refusal(config, query, kind, device, "attention query"@) is None
                &&& attended_refusal(config, key, kind, device, "attention key"@) is None
                &&& attended_refusal(config, value, kind, device, "attention value"@) is None
                &&& value.shape == key.shape
                &&& key.shape[b] == query.shape[b]
            }
            &&& plan matches Ok(p) ==> {
                &&& !p.unbatched && p.batch == query.shape[b]
                &&& p.target == query.shape[t]
                &&& p.source == key.shape[t]
                &&& p.features == config.embed_dim && p.heads == config.num_heads
                &&& p.head_width * config.num_heads == config.embed_dim
                &&& p.mask is None && !p.padded
                &&& p.causal == causal
                &&& p.output() == query.shape
            }
        }),
{
    let embed = config.embed_dim as int;
    let heads = config.num_heads as int;
    vstd::arithmetic::div_mod::lemma_fundamental_div_mod(embed, heads);
    vstd::arithmetic::mul::lemma_mul_is_commutative(heads, embed / heads);
    vstd::arithmetic::div_mod::lemma_div_is_ordered_by_denominator(embed, 1, heads);
    vstd::arithmetic::div_mod::lemma_div_pos_is_pos(embed, heads);
    vstd::arithmetic::mul::lemma_mul_is_commutative(query.shape[0] as int, query.shape[1] as int);
    let a = query.shape[0] as int;
    let b = query.shape[1] as int;
    assert(a * b >= 0) by (nonlinear_arith)
        requires
            a >= 0,
            b >= 0,
    ;
    let plan = attention_plan(config, query, key, value, None, None, causal, kind, device);
    if plan is Ok {
        assert(query.shape.last() == query.shape[2]);
        assert(plan->Ok_0.output() =~= query.shape);
    }
}

/// A block of a transformer attends to itself, a decoder with a memory then attends to the memory, and
/// the block ends with its feed-forward part. Each part is normalized: before it where the block
/// normalizes first, and otherwise after its result was added.
pub proof fn blocks_take_their_steps_in_order(norm_first: bool)
    ensures
        block_steps(true, false, false) == seq![
            BlockStep::NormalizeBranch(0),
            BlockStep::SelfAttention,
            BlockStep::NormalizeBranch(1),
            BlockStep::FeedForward,
        ],
        block_steps(false, false, false) == seq![
            BlockStep::SelfAttention,
            BlockStep::NormalizeSum(0),
            BlockStep::FeedForward,
            BlockStep::NormalizeSum(1),
        ],
        block_steps(true, true, true) == seq![
            BlockStep::NormalizeBranch(0),
            BlockStep::SelfAttention,
            BlockStep::NormalizeBranch(1),
            BlockStep::CrossAttention,
            BlockStep::NormalizeBranch(2),
            BlockStep::FeedForward,
        ],
        block_steps(false, true, true) == seq![
            BlockStep::SelfAttention,
            BlockStep::NormalizeSum(0),
            BlockStep::CrossAttention,
            BlockStep::NormalizeSum(1),
            BlockStep::FeedForward,
            BlockStep::NormalizeSum(2),
        ],
        block_steps(true, true, false) == seq![
            BlockStep::NormalizeBranch(0),
            BlockStep::SelfAttention,
            BlockStep::NormalizeBranch(2),
            BlockStep::FeedForward,
        ],
        block_steps(norm_first, false, true) == block_steps(norm_first, false, false),
{
    assert(block_steps(true, false, false) =~= seq![
        BlockStep::NormalizeBranch(0),
        BlockStep::SelfAttention,
        BlockStep::NormalizeBranch(1),
        BlockStep::FeedForward,
    ]);
    assert(block_steps(false, false, false) =~= seq![
        BlockStep::SelfAttention,
        BlockStep::NormalizeSum(0),
        BlockStep::FeedForward,
        BlockStep::NormalizeSum(1),
    ]);
    assert(block_steps(true, true, true) =~= seq![
        BlockStep::NormalizeBranch(0),
        BlockStep::SelfAttention,
        BlockStep::NormalizeBranch(1),
        BlockStep::CrossAttention,
        BlockStep::NormalizeBranch(2),
        BlockStep::FeedForward,
    ]);
    assert(block_steps(false, true, true) =~= seq![
        BlockStep::SelfAttention,
        BlockStep::NormalizeSum(0),
        BlockStep::CrossAttention,
        BlockStep::NormalizeSum(1),
        BlockStep::FeedForward,
        BlockStep::NormalizeSum(2),
    ]);
    assert(block_steps(true, true, false) =~= seq![
        BlockStep::NormalizeBranch(0),
        BlockStep::SelfAttention,
        BlockStep::NormalizeBranch(2),
        BlockStep::FeedForward,
    ]);
}

/// The attention of a transformer has its width, heads, dropout, biases and layout.
pub proof fn transformers_attend_with_their_settings(config: TransformerConfig)
    ensures
        ({
            let attention = config.attention_of();
            &&& attention.embed_dim == config.d_model && attention.num_heads == config.num_heads
            &&& attention.dropout == config.dropout && attention.bias == config.bias && attention.batch_first == config.batch_first
        }),
{
}

} // verus!
