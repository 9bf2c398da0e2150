//! Which linear layers are extracted from a checkpoint, in which order, and their shapes.
use vstd::prelude::*;

verus! {

/// The seven linear projections of a transformer block, in extraction order.
#[derive(Clone, Copy, Debug, PartialEq, Eq)]
pub enum Projection {
    QProj,
    KProj,
    VProj,
    OProj,
    GateProj,
    UpProj,
    DownProj,
}

/// The dimensions of the model that fix the projection shapes.
#[derive(Clone, Copy, Debug, PartialEq, Eq)]
pub struct ModelDims {
    pub hidden_size: usize,
    pub intermediate_size: usize,
    pub num_attention_heads: usize,
    pub num_key_value_heads: usize,
    pub num_hidden_layers: usize,
    pub vocab_size: usize,
}

/// A linear layer of the model: a projection of a block, or the output head.
#[derive(Clone, Copy, Debug, PartialEq, Eq)]
pub enum LinearSlot {
    Layer { layer: usize, projection: Projection },
    LmHead,
}

/// Projection `p` of the fixed order.
pub open spec fn projection_at(p: int) -> Projection {
    if p == 0 {
        Projection::QProj
    } else if p == 1 {
        Projection::KProj
    } else if p == 2 {
        Projection::VProj
    } else if p == 3 {
        Projection::OProj
    } else if p == 4 {
        Projection::GateProj
    } else if p == 5 {
        Projection::UpProj
    } else {
        Projection::DownProj
    }
}

/// Slot `i` of the extraction order over `layers` blocks: seven projections per
/// block, block by block, then the output head.
pub open spec fn slot_at(layers: nat, i: int) -> LinearSlot {
    if i < layers * 7 {
        LinearSlot::Layer { layer: (i / 7) as usize, projection: projection_at(i % 7) }
    } else {
        LinearSlot::LmHead
    }
}

/// Rows of a query (and output) projection: head width times head count.
pub open spec fn query_rows(dims: ModelDims) -> int {
    (dims.hidden_size / dims.num_attention_heads) * dims.num_attention_heads
}

/// Rows of a key or value projection: head width times key-value head count.
pub open spec fn key_rows(dims: ModelDims) -> int {
    (dims.hidden_size / dims.num_attention_heads) * dims.num_key_value_heads
}

/// Rows and columns of a projection.
pub open spec fn spec_projection_shape(projection: Projection, dims: ModelDims) -> (int, int) {
    match projection {
        Projection::QProj | Projection::OProj => (query_rows(dims), dims.hidden_size as int),
        Projection::KProj | Projection::VProj => (key_rows(dims), dims.hidden_size as int),
        Projection::GateProj | Projection::UpProj => (
            dims.intermediate_size as int,
            dims.hidden_size as int,
        ),
        Projection::DownProj => (dims.hidden_size as int, dims.intermediate_size as int),
    }
}

/// The dimensions give shapes that fit in memory sizes.
pub open spec fn dims_valid(dims: ModelDims) -> bool {
    &&& dims.num_attention_heads > 0
    &&& key_rows(dims) <= usize::MAX
}

/// The path of a projection inside a block of the checkpoint.
pub open spec fn projection_path(projection: Projection) -> Seq<char> {
    match projection {
        Projection::QProj => "self_attn.q_proj"@,
        Projection::KProj => "self_attn.k_proj"@,
        Projection::VProj => "self_attn.v_proj"@,
        Projection::OProj => "self_attn.o_proj"@,
        Projection::GateProj => "mlp.gate_proj"@,
        Projection::UpProj => "mlp.up_proj"@,
        Projection::DownProj => "mlp.down_proj"@,
    }
}

/// The extraction order of a block, by path: the attention projections q,
/// k, v, o, then the feed-forward gate, up and down projections; every
/// block's slots follow this order, and the output head comes last.
pub proof fn lemma_projection_order(layers: nat)
    ensures
        projection_path(projection_at(0)) == "self_attn.q_proj"@,
        projection_path(projection_at(1)) == "self_attn.k_proj"@,
        projection_path(projection_at(2)) == "self_attn.v_proj"@,
        projection_path(projection_at(3)) == "self_attn.o_proj"@,
        projection_path(projection_at(4)) == "mlp.gate_proj"@,
        projection_path(projection_at(5)) == "mlp.up_proj"@,
        projection_path(projection_at(6)) == "mlp.down_proj"@,
        forall|layer: int, p: int|
            0 <= layer < layers && 0 <= p < 7 ==> #[trigger] slot_at(layers, layer * 7 + p)
                == (LinearSlot::Layer { layer: layer as usize, projection: projection_at(p) }),
        slot_at(layers, (layers * 7) as int) == LinearSlot::LmHead,
{
    assert forall|layer: int, p: int| 0 <= layer < layers && 0 <= p < 7 implies #[trigger] slot_at(
        layers,
        layer * 7 + p,
    ) == (LinearSlot::Layer { layer: layer as usize, projection: projection_at(p) }) by {
        crate::packed::lemma_position(layer, 7, p);
        assert(layer * 7 + p < layers * 7) by (nonlinear_arith)
            requires
                layer < layers,
                p < 7,
        ;
    }
}

impl Projection {
    /// The projection's path inside a block.
    pub fn path(self) -> (r: &'static str)
        ensures
            r@ == projection_path(self),
            r@ == match self {
                Projection::QProj => "self_attn.q_proj"@,
                Projection::KProj => "self_attn.k_proj"@,
                Projection::VProj => "self_attn.v_proj"@,
                Projection::OProj => "self_attn.o_proj"@,
                Projection::GateProj => "mlp.gate_proj"@,
                Projection::UpProj => "mlp.up_proj"@,
                Projection::DownProj => "mlp.down_proj"@,
            },
    {
        match self {
            Projection::QProj => "self_attn.q_proj",
            Projection::KProj => "self_attn.k_proj",
            Projection::VProj => "self_attn.v_proj",
            Projection::OProj => "self_attn.o_proj",
            Projection::GateProj => "mlp.gate_proj",
            Projection::UpProj => "mlp.up_proj",
            Projection::DownProj => "mlp.down_proj",
        }
    }
}

/// The projections of a block, in extraction order.
pub fn projections() -> (r: Vec<Projection>)
    ensures
        r@.len() == 7,
        forall|p: int| 0 <= p < 7 ==> #[trigger] r@[p] == projection_at(p),
{
    let r = vec![
        Projection::QProj,
        Projection::KProj,
        Projection::VProj,
        Projection::OProj,
        Projection::GateProj,
        Projection::UpProj,
        Projection::DownProj,
    ];
    r
}

/// Rows and columns of a projection's weight.
pub fn projection_shape(projection: Projection, dims: ModelDims) -> (r: (usize, usize))
    requires
        dims_valid(dims),
    ensures
        (r.0 as int, r.1 as int) == spec_projection_shape(projection, dims),
{
    let head_dim = dims.hidden_size / dims.num_attention_heads;
    proof {
        assert(head_dim * dims.num_attention_heads <= dims.hidden_size) by (nonlinear_arith)
            requires
                head_dim == dims.hidden_size / dims.num_attention_heads,
                dims.num_attention_heads > 0,
        ;
    }
    match projection {
        Projection::QProj | Projection::OProj => (
            head_dim * dims.num_attention_heads,
            dims.hidden_size,
        ),
        Projection::KProj | Projection::VProj => (
            head_dim * dims.num_key_value_heads,
            dims.hidden_size,
        ),
        Projection::GateProj | Projection::UpProj => (dims.intermediate_size, dims.hidden_size),
        Projection::DownProj => (dims.hidden_size, dims.intermediate_size),
    }
}

/// Rows and columns of the output head's weight: one row per vocabulary entry.
pub fn lm_head_shape(dims: ModelDims) -> (r: (usize, usize))
    ensures
        r == (dims.vocab_size, dims.hidden_size),
{
    (dims.vocab_size, dims.hidden_size)
}

/// Every linear layer of a model with `layers` blocks, in extraction order.
pub fn linear_slots(layers: usize) -> (r: Vec<LinearSlot>)
    requires
        layers * 7 + 1 <= usize::MAX,
    ensures
        r@.len() == layers * 7 + 1,
        forall|i: int| 0 <= i < r@.len() ==> #[trigger] r@[i] == slot_at(layers as nat, i),
{
    let order = projections();
    let mut out: Vec<LinearSlot> = Vec::new();
    let mut layer: usize = 0;
    while layer < layers
        invariant
            layers * 7 + 1 <= usize::MAX,
            order@.len() == 7,
            forall|p: int| 0 <= p < 7 ==> #[trigger] order@[p] == projection_at(p),
            layer <= layers,
            out@.len() == layer * 7,
            forall|i: int| 0 <= i < out@.len() ==> #[trigger] out@[i] == slot_at(layers as nat, i),
        decreases layers - layer,
    {
        let mut p: usize = 0;
        proof {
            assert((layer + 1) * 7 <= layers * 7) by (nonlinear_arith)
                requires
                    layer + 1 <= layers,
            ;
        }
        while p < 7
            invariant
                order@.len() == 7,
                forall|q: int| 0 <= q < 7 ==> #[trigger] order@[q] == projection_at(q),
                layer < layers,
                p <= 7,
                out@.len() == layer * 7 + p,
                forall|i: int| 0 <= i < out@.len() ==> #[trigger] out@[i] == slot_at(layers as nat, i),
            decreases 7 - p,
        {
            proof {
                crate::packed::lemma_position(layer as int, 7, p as int);
                assert(layer * 7 + p < layers * 7) by (nonlinear_arith)
                    requires
                        layer < layers,
                        p < 7,
                ;
            }
            out.push(LinearSlot::Layer { layer, projection: order[p] });
            p = p + 1;
        }
        layer = layer + 1;
    }
    out.push(LinearSlot::LmHead);
    out
}

} // verus!
