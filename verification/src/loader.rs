//! Checkpoint inventory: which tensors a model of a given configuration must
//! have, and whether a checkpoint has them.

use crate::config::{LayerType, Qwen3NextConfig};
use crate::text::{
    decimal, decimal_text, joined, lemma_ordered_insert, same_text,
    sorted_unique, strictly_ordered, text_in_order, text_le, texts,
};
use vstd::prelude::*;

verus! {

/// One tensor of a checkpoint.
#[derive(Debug, Clone, PartialEq, Eq)]
pub struct TensorInfo {
    pub name: String,
    pub dtype: String,
    pub shape: Vec<usize>,
}

/// What a checkpoint holds, at a glance.
#[derive(Debug, Clone, PartialEq, Eq)]
pub struct ModelSummary {
    pub architecture: String,
    pub layers: usize,
    pub hidden_size: usize,
    pub experts_per_layer: usize,
    pub experts_selected: usize,
    pub vocab_size: usize,
    pub full_attention_layers: usize,
    pub linear_attention_layers: usize,
    pub tensor_count: usize,
    pub dtypes: Vec<String>,
    pub format: String,
}

/// Why a checkpoint cannot be used.
#[derive(Debug, Clone, PartialEq, Eq)]
pub enum LoadError {
    /// A required tensor is missing.
    Missing { name: String },
    /// A required tensor has another shape.
    WrongShape { name: String, found: Vec<usize>, expected: Vec<usize> },
    /// A required tensor is stored in a type that is not supported.
    UnsupportedType { name: String, dtype: String },
    /// The shard index lists no shards.
    NoShards,
    /// A shard that the index lists is missing.
    MissingShard { file: String },
    /// There is neither a single file nor a shard index.
    NoModelFile,
}

/// What a [`LoadError`] about a tensor says.
pub ghost enum TensorProblem {
    Missing { name: Seq<char> },
    WrongShape { name: Seq<char>, found: Seq<usize>, expected: Seq<usize> },
    UnsupportedType { name: Seq<char>, dtype: Seq<char> },
}

impl LoadError {
    /// Whether this error reports the given problem.
    pub open spec fn reports(&self, problem: TensorProblem) -> bool {
        match (*self, problem) {
            (LoadError::Missing { name }, TensorProblem::Missing { name: n }) => name@ == n,
            (
                LoadError::WrongShape { name, found, expected },
                TensorProblem::WrongShape { name: n, found: f, expected: e },
            ) => name@ == n && found@ == f && expected@ == e,
            (
                LoadError::UnsupportedType { name, dtype },
                TensorProblem::UnsupportedType { name: n, dtype: d },
            ) => name@ == n && dtype@ == d,
            _ => false,
        }
    }
}

/// Contents of one inventory record.
pub ghost struct RecordView {
    pub name: Seq<char>,
    pub dtype: Seq<char>,
    pub shape: Seq<usize>,
}

impl View for TensorInfo {
    type V = RecordView;

    open spec fn view(&self) -> RecordView {
        RecordView { name: self.name@, dtype: self.dtype@, shape: self.shape@ }
    }
}

/// The record of a name in an inventory.
pub open spec fn record_of(inventory: Seq<RecordView>, name: Seq<char>) -> Option<RecordView>
    decreases inventory.len(),
{
    if inventory.len() == 0 {
        None
    } else if inventory[0].name == name {
        Some(inventory[0])
    } else {
        record_of(inventory.skip(1), name)
    }
}

/// The views of an inventory.
pub open spec fn records(inventory: Seq<TensorInfo>) -> Seq<RecordView> {
    Seq::new(inventory.len(), |i: int| inventory[i]@)
}

/// What is wrong with a required tensor: it is missing, has another shape, or
/// is stored in a type that is not supported.
pub open spec fn tensor_problem(inventory: Seq<RecordView>, name: Seq<char>, shape: Seq<usize>) -> Option<
    TensorProblem,
> {
    match record_of(inventory, name) {
        None => Some(TensorProblem::Missing { name }),
        Some(record) => if record.shape != shape {
            Some(TensorProblem::WrongShape { name, found: record.shape, expected: shape })
        } else if record.dtype != "BF16"@ && record.dtype != "F16"@ && record.dtype != "F32"@ {
            Some(TensorProblem::UnsupportedType { name, dtype: record.dtype })
        } else {
            None
        },
    }
}

/// A tensor that a model must have.
#[derive(Debug, Clone, PartialEq, Eq)]
pub struct Requirement {
    pub name: String,
    pub shape: Vec<usize>,
}

/// Contents of a [`Requirement`].
pub type Required = (Seq<char>, Seq<usize>);

/// The views of a list of requirements.
pub open spec fn requirements(list: Seq<Requirement>) -> Seq<Required> {
    Seq::new(list.len(), |i: int| (list[i].name@, list[i].shape@))
}

/// What is wrong with the first of the required tensors that is not as it must
/// be.
pub open spec fn first_problem(inventory: Seq<RecordView>, required: Seq<Required>) -> Option<
    TensorProblem,
>
    decreases required.len(),
{
    if required.len() == 0 {
        None
    } else {
        match tensor_problem(inventory, required[0].0, required[0].1) {
            Some(problem) => Some(problem),
            None => first_problem(inventory, required.skip(1)),
        }
    }
}

/// Where every required tensor is as it must be, there is no problem, and the
/// other way round.
pub proof fn no_problem_means_every_tensor_fits(
    inventory: Seq<RecordView>,
    required: Seq<Required>,
)
    ensures
        first_problem(inventory, required) is None <==> forall|i: int|
            0 <= i < required.len() ==> tensor_problem(
                inventory,
                (#[trigger] required[i]).0,
                required[i].1,
            ) is None,
    decreases required.len(),
{
    if required.len() > 0 {
        let rest = required.skip(1);
        no_problem_means_every_tensor_fits(inventory, rest);
        if first_problem(inventory, required) is None {
            assert forall|i: int| 0 <= i < required.len() implies tensor_problem(
                inventory,
                (#[trigger] required[i]).0,
                required[i].1,
            ) is None by {
                if i > 0 {
                    assert(rest[i - 1] == required[i]);
                }
            }
        }
        if forall|i: int|
            0 <= i < required.len() ==> tensor_problem(
                inventory,
                (#[trigger] required[i]).0,
                required[i].1,
            ) is None {
            assert(required[0] == required[0]);
            assert forall|i: int| 0 <= i < rest.len() implies tensor_problem(
                inventory,
                (#[trigger] rest[i]).0,
                rest[i].1,
            ) is None by {
                assert(rest[i] == required[i + 1]);
            }
        }
    }
}

/// The widths that tensor shapes are made of fit the machine.
pub open spec fn widths_fit(c: Qwen3NextConfig) -> bool {
    &&& c.num_attention_heads * c.head_dim * 2 <= usize::MAX
    &&& c.num_key_value_heads * c.head_dim <= usize::MAX
    &&& c.linear_num_key_heads * c.linear_key_head_dim * 2 + c.linear_num_value_heads
        * c.linear_value_head_dim * 2 <= usize::MAX
    &&& c.linear_num_value_heads * 2 <= usize::MAX
}

/// The common start of the names of one layer's tensors.
pub open spec fn layer_prefix(layer: int) -> Seq<char> {
    "model.layers."@ + decimal(layer as nat)
}

/// The tensors of one layer's attention.
pub open spec fn attention_tensors(c: Qwen3NextConfig, layer: int) -> Seq<Required> {
    let p = layer_prefix(layer);
    let hidden = c.hidden_size;
    match c.type_of(layer) {
        LayerType::FullAttention => {
            let query = (c.num_attention_heads * c.head_dim) as usize;
            let kv = (c.num_key_value_heads * c.head_dim) as usize;
            seq![
                (p + ".self_attn.q_proj.weight"@, seq![(query * 2) as usize, hidden]),
                (p + ".self_attn.k_proj.weight"@, seq![kv, hidden]),
                (p + ".self_attn.v_proj.weight"@, seq![kv, hidden]),
                (p + ".self_attn.o_proj.weight"@, seq![hidden, query]),
                (p + ".self_attn.q_norm.weight"@, seq![c.head_dim]),
                (p + ".self_attn.k_norm.weight"@, seq![c.head_dim]),
            ]
        },
        LayerType::LinearAttention => {
            let key = c.linear_num_key_heads * c.linear_key_head_dim;
            let value = c.linear_num_value_heads * c.linear_value_head_dim;
            let heads = c.linear_num_value_heads;
            seq![
                (p + ".linear_attn.in_proj_qkvz.weight"@, seq![(key * 2 + value * 2) as usize, hidden]),
                (p + ".linear_attn.in_proj_ba.weight"@, seq![(heads * 2) as usize, hidden]),
                (p + ".linear_attn.conv1d.weight"@, seq![(key * 2 + value) as usize, 1usize, c.linear_conv_kernel_dim]),
                (p + ".linear_attn.dt_bias"@, seq![heads]),
                (p + ".linear_attn.A_log"@, seq![heads]),
                (p + ".linear_attn.norm.weight"@, seq![c.linear_value_head_dim]),
                (p + ".linear_attn.out_proj.weight"@, seq![hidden, value as usize]),
            ]
        },
    }
}

/// The tensors of the first `n` experts of one layer.
pub open spec fn expert_tensors(c: Qwen3NextConfig, layer: int, n: int) -> Seq<Required>
    decreases n,
{
    if n <= 0 {
        Seq::empty()
    } else {
        let e = layer_prefix(layer) + ".mlp.experts."@ + decimal((n - 1) as nat);
        let wide = c.moe_intermediate_size;
        expert_tensors(c, layer, n - 1) + seq![
            (e + ".gate_proj.weight"@, seq![wide, c.hidden_size]),
            (e + ".up_proj.weight"@, seq![wide, c.hidden_size]),
            (e + ".down_proj.weight"@, seq![c.hidden_size, wide]),
        ]
    }
}

/// The tensors of one layer's feed-forward block: a router, the experts and the
/// shared expert, or one dense block.
pub open spec fn feed_forward_tensors(c: Qwen3NextConfig, layer: int) -> Seq<Required> {
    let m = layer_prefix(layer) + ".mlp"@;
    let hidden = c.hidden_size;
    if c.is_moe(layer) {
        let shared = c.shared_expert_intermediate_size;
        seq![(m + ".gate.weight"@, seq![c.num_experts, hidden])] + expert_tensors(
            c,
            layer,
            c.num_experts as int,
        ) + seq![
            (m + ".shared_expert.gate_proj.weight"@, seq![shared, hidden]),
            (m + ".shared_expert.up_proj.weight"@, seq![shared, hidden]),
            (m + ".shared_expert.down_proj.weight"@, seq![hidden, shared]),
            (m + ".shared_expert_gate.weight"@, seq![1usize, hidden]),
        ]
    } else {
        let wide = c.intermediate_size;
        seq![
            (m + ".gate_proj.weight"@, seq![wide, hidden]),
            (m + ".up_proj.weight"@, seq![wide, hidden]),
            (m + ".down_proj.weight"@, seq![hidden, wide]),
        ]
    }
}

/// The tensors of one layer.
pub open spec fn layer_tensors(c: Qwen3NextConfig, layer: int) -> Seq<Required> {
    let p = layer_prefix(layer);
    seq![
        (p + ".input_layernorm.weight"@, seq![c.hidden_size]),
        (p + ".post_attention_layernorm.weight"@, seq![c.hidden_size]),
    ] + attention_tensors(c, layer) + feed_forward_tensors(c, layer)
}

/// The tensors that a model must have, up to layer `n`: the embedding, the
/// final norm, the head, and the layers in order.
pub open spec fn model_tensors(c: Qwen3NextConfig, n: int) -> Seq<Required>
    decreases n,
{
    if n <= 0 {
        seq![
            ("model.embed_tokens.weight"@, seq![c.vocab_size, c.hidden_size]),
            ("model.norm.weight"@, seq![c.hidden_size]),
            ("lm_head.weight"@, seq![c.vocab_size, c.hidden_size]),
        ]
    } else {
        model_tensors(c, n - 1) + layer_tensors(c, n - 1)
    }
}

/// Appends a requirement with a one-dimensional shape.
fn require1(list: &mut Vec<Requirement>, prefix: &str, suffix: &str, a: usize)
    ensures
        requirements(final(list)@) == requirements(old(list)@).push(
            (prefix@ + suffix@, seq![a]),
        ),
{
    let mut shape: Vec<usize> = Vec::new();
    shape.push(a);
    list.push(Requirement { name: joined(prefix, suffix), shape });
    proof {
        assert(shape@ =~= seq![a]);
        assert(requirements(list@) =~= requirements(old(list)@).push(
            (prefix@ + suffix@, seq![a]),
        ));
    }
}

/// Appends a requirement with a two-dimensional shape.
fn require2(list: &mut Vec<Requirement>, prefix: &str, suffix: &str, a: usize, b: usize)
    ensures
        requirements(final(list)@) == requirements(old(list)@).push(
            (prefix@ + suffix@, seq![a, b]),
        ),
{
    let mut shape: Vec<usize> = Vec::new();
    shape.push(a);
    shape.push(b);
    list.push(Requirement { name: joined(prefix, suffix), shape });
    proof {
        assert(shape@ =~= seq![a, b]);
        assert(requirements(list@) =~= requirements(old(list)@).push(
            (prefix@ + suffix@, seq![a, b]),
        ));
    }
}

/// Appends a requirement with a three-dimensional shape.
fn require3(
    list: &mut Vec<Requirement>,
    prefix: &str,
    suffix: &str,
    a: usize,
    b: usize,
    c: usize,
)
    ensures
        requirements(final(list)@) == requirements(old(list)@).push(
            (prefix@ + suffix@, seq![a, b, c]),
        ),
{
    let mut shape: Vec<usize> = Vec::new();
    shape.push(a);
    shape.push(b);
    shape.push(c);
    list.push(Requirement { name: joined(prefix, suffix), shape });
    proof {
        assert(shape@ =~= seq![a, b, c]);
        assert(requirements(list@) =~= requirements(old(list)@).push(
            (prefix@ + suffix@, seq![a, b, c]),
        ));
    }
}

/// Appends what a layer's attention requires.
fn require_attention(list: &mut Vec<Requirement>, c: &Qwen3NextConfig, layer: usize, p: &str)
    requires
        widths_fit(*c),
        c.has_layer_type(layer as int),
        p@ == layer_prefix(layer as int),
    ensures
        requirements(final(list)@) == requirements(old(list)@) + attention_tensors(
            *c,
            layer as int,
        ),
{
    let ghost before = requirements(list@);
    let hidden: usize = c.hidden_size;
    match c.layer_type(layer) {
        LayerType::FullAttention => {
            proof {
                assert(c.num_attention_heads * c.head_dim >= 0) by (nonlinear_arith);
            }
            let query: usize = c.num_attention_heads * c.head_dim;
            let kv: usize = c.num_key_value_heads * c.head_dim;
            require2(list, p, ".self_attn.q_proj.weight", query * 2, hidden);
            require2(list, p, ".self_attn.k_proj.weight", kv, hidden);
            require2(list, p, ".self_attn.v_proj.weight", kv, hidden);
            require2(list, p, ".self_attn.o_proj.weight", hidden, query);
            require1(list, p, ".self_attn.q_norm.weight", c.head_dim);
            require1(list, p, ".self_attn.k_norm.weight", c.head_dim);
        },
        LayerType::LinearAttention => {
            proof {
                assert(c.linear_num_key_heads * c.linear_key_head_dim >= 0
                    && c.linear_num_value_heads * c.linear_value_head_dim >= 0) by (
                nonlinear_arith);
            }
            let key: usize = c.linear_num_key_heads * c.linear_key_head_dim;
            let value: usize = c.linear_num_value_heads * c.linear_value_head_dim;
            let heads: usize = c.linear_num_value_heads;
            require2(list, p, ".linear_attn.in_proj_qkvz.weight", key * 2 + value * 2, hidden);
            require2(list, p, ".linear_attn.in_proj_ba.weight", heads * 2, hidden);
            require3(
                list,
                p,
                ".linear_attn.conv1d.weight",
                key * 2 + value,
                1,
                c.linear_conv_kernel_dim,
            );
            require1(list, p, ".linear_attn.dt_bias", heads);
            require1(list, p, ".linear_attn.A_log", heads);
            require1(list, p, ".linear_attn.norm.weight", c.linear_value_head_dim);
            require2(list, p, ".linear_attn.out_proj.weight", hidden, value);
        },
    }
    proof {
        assert(requirements(list@) =~= before + attention_tensors(*c, layer as int));
    }
}

/// Appends what a layer's feed-forward block requires.
fn require_feed_forward(list: &mut Vec<Requirement>, c: &Qwen3NextConfig, layer: usize, p: &str)
    requires
        layer < usize::MAX,
        p@ == layer_prefix(layer as int),
    ensures
        requirements(final(list)@) == requirements(old(list)@) + feed_forward_tensors(
            *c,
            layer as int,
        ),
{
    let ghost before = requirements(list@);
    let hidden: usize = c.hidden_size;
    let m = joined(p, ".mlp");
    if c.layer_is_moe(layer) {
        require2(list, m.as_str(), ".gate.weight", c.num_experts, hidden);
        let ghost head = requirements(list@);
        let wide: usize = c.moe_intermediate_size;
        let experts = joined(p, ".mlp.experts.");
        let mut expert: usize = 0;
        proof {
            assert(head + expert_tensors(*c, layer as int, 0) =~= head);
        }
        while expert < c.num_experts
            invariant
                expert <= c.num_experts,
                hidden == c.hidden_size,
                wide == c.moe_intermediate_size,
                experts@ == layer_prefix(layer as int) + ".mlp.experts."@,
                requirements(list@) == head + expert_tensors(*c, layer as int, expert as int),
            decreases c.num_experts - expert,
        {
            let ghost seen = requirements(list@);
            let e = joined(experts.as_str(), decimal_text(expert).as_str());
            require2(list, e.as_str(), ".gate_proj.weight", wide, hidden);
            require2(list, e.as_str(), ".up_proj.weight", wide, hidden);
            require2(list, e.as_str(), ".down_proj.weight", hidden, wide);
            expert += 1;
            proof {
                assert(requirements(list@) =~= head + expert_tensors(
                    *c,
                    layer as int,
                    expert as int,
                ));
            }
        }
        let shared: usize = c.shared_expert_intermediate_size;
        require2(list, m.as_str(), ".shared_expert.gate_proj.weight", shared, hidden);
        require2(list, m.as_str(), ".shared_expert.up_proj.weight", shared, hidden);
        require2(list, m.as_str(), ".shared_expert.down_proj.weight", hidden, shared);
        require2(list, m.as_str(), ".shared_expert_gate.weight", 1, hidden);
    } else {
        let wide: usize = c.intermediate_size;
        require2(list, m.as_str(), ".gate_proj.weight", wide, hidden);
        require2(list, m.as_str(), ".up_proj.weight", wide, hidden);
        require2(list, m.as_str(), ".down_proj.weight", hidden, wide);
    }
    proof {
        assert(requirements(list@) =~= before + feed_forward_tensors(*c, layer as int));
    }
}

/// The tensors that a model of this configuration must have, in the order in
/// which they are checked.
pub fn required_tensors(c: &Qwen3NextConfig) -> (list: Vec<Requirement>)
    requires
        widths_fit(*c),
        forall|layer: int|
            0 <= layer < c.num_hidden_layers ==> #[trigger] c.has_layer_type(layer),
    ensures
        requirements(list@) == model_tensors(*c, c.num_hidden_layers as int),
{
    let mut list: Vec<Requirement> = Vec::new();
    proof {
        assert(requirements(list@) =~= Seq::<Required>::empty());
        assert(""@ + "model.embed_tokens.weight"@ =~= "model.embed_tokens.weight"@) by {
            reveal_strlit("");
        }
        assert(""@ + "model.norm.weight"@ =~= "model.norm.weight"@) by {
            reveal_strlit("");
        }
        assert(""@ + "lm_head.weight"@ =~= "lm_head.weight"@) by {
            reveal_strlit("");
        }
    }
    require2(&mut list, "", "model.embed_tokens.weight", c.vocab_size, c.hidden_size);
    require1(&mut list, "", "model.norm.weight", c.hidden_size);
    require2(&mut list, "", "lm_head.weight", c.vocab_size, c.hidden_size);
    proof {
        assert(requirements(list@) =~= model_tensors(*c, 0));
    }
    let mut layer: usize = 0;
    while layer < c.num_hidden_layers
        invariant
            widths_fit(*c),
            forall|layer: int|
                0 <= layer < c.num_hidden_layers ==> #[trigger] c.has_layer_type(layer),
            layer <= c.num_hidden_layers,
            requirements(list@) == model_tensors(*c, layer as int),
        decreases c.num_hidden_layers - layer,
    {
        let ghost before = requirements(list@);
        let p = joined("model.layers.", decimal_text(layer).as_str());
        require1(&mut list, p.as_str(), ".input_layernorm.weight", c.hidden_size);
        require1(&mut list, p.as_str(), ".post_attention_layernorm.weight", c.hidden_size);
        assert(c.has_layer_type(layer as int));
        require_attention(&mut list, c, layer, p.as_str());
        require_feed_forward(&mut list, c, layer, p.as_str());
        proof {
            assert(requirements(list@) =~= before + layer_tensors(*c, layer as int));
        }
        layer += 1;
    }
    list
}

/// A checkpoint: its configuration and the tensors it holds.
#[derive(Debug, Clone)]
pub struct Checkpoint {
    config: Qwen3NextConfig,
    inventory: Vec<TensorInfo>,
}

/// Whether two shapes are equal.
fn same_shape(a: &Vec<usize>, b: &Vec<usize>) -> (same: bool)
    ensures
        same == (a@ == b@),
{
    if a.len() != b.len() {
        return false;
    }
    let mut i: usize = 0;
    while i < a.len()
        invariant
            a@.len() == b@.len(),
            i <= a@.len(),
            forall|j: int| 0 <= j < i ==> a@[j] == b@[j],
        decreases a@.len() - i,
    {
        if a[i] != b[i] {
            return false;
        }
        i += 1;
    }
    proof {
        assert(a@ =~= b@);
    }
    true
}

/// The names of an inventory.
pub open spec fn record_names(inventory: Seq<RecordView>) -> Seq<Seq<char>> {
    Seq::new(inventory.len(), |i: int| inventory[i].name)
}

/// The last record of a name in a list of records.
pub open spec fn last_record(list: Seq<RecordView>, name: Seq<char>) -> Option<RecordView>
    decreases list.len(),
{
    if list.len() == 0 {
        None
    } else if list.last().name == name {
        Some(list.last())
    } else {
        last_record(list.drop_last(), name)
    }
}

/// In an inventory in order, a record is found by its name.
proof fn lemma_record_at(inventory: Seq<RecordView>, i: int)
    requires
        0 <= i < inventory.len(),
        forall|j: int| 0 <= j < i ==> (#[trigger] inventory[j]).name != inventory[i].name,
    ensures
        record_of(inventory, inventory[i].name) == Some(inventory[i]),
    decreases i,
{
    if i > 0 {
        let rest = inventory.skip(1);
        assert(inventory[0].name != inventory[i].name);
        assert forall|j: int| 0 <= j < i - 1 implies (#[trigger] rest[j]).name != rest[i
            - 1].name by {
            assert(rest[j] == inventory[j + 1]);
        }
        lemma_record_at(rest, i - 1);
    }
}

/// A name that no record has is not found.
proof fn lemma_no_record(inventory: Seq<RecordView>, name: Seq<char>)
    requires
        forall|j: int| 0 <= j < inventory.len() ==> (#[trigger] inventory[j]).name != name,
    ensures
        record_of(inventory, name) is None,
    decreases inventory.len(),
{
    if inventory.len() > 0 {
        let rest = inventory.skip(1);
        assert(inventory[0].name != name);
        assert forall|j: int| 0 <= j < rest.len() implies (#[trigger] rest[j]).name != name by {
            assert(rest[j] == inventory[j + 1]);
        }
        lemma_no_record(rest, name);
    }
}

/// What a lookup finds is the record with that name.
proof fn lemma_record_of(inventory: Seq<RecordView>, name: Seq<char>)
    ensures
        match record_of(inventory, name) {
            Some(record) => exists|i: int|
                0 <= i < inventory.len() && #[trigger] inventory[i] == record && record.name
                    == name,
            None => forall|j: int|
                0 <= j < inventory.len() ==> (#[trigger] inventory[j]).name != name,
        },
    decreases inventory.len(),
{
    if inventory.len() > 0 && inventory[0].name != name {
        let rest = inventory.skip(1);
        lemma_record_of(rest, name);
        match record_of(rest, name) {
            Some(record) => {
                let i = choose|i: int|
                    0 <= i < rest.len() && #[trigger] rest[i] == record && record.name == name;
                assert(inventory[i + 1] == record);
            },
            None => {
                assert forall|j: int| 0 <= j < inventory.len() implies (
                #[trigger] inventory[j]).name != name by {
                    if j > 0 {
                        assert(rest[j - 1] == inventory[j]);
                    }
                }
            },
        }
    } else if inventory.len() > 0 {
        assert(inventory[0].name == name);
    }
}

/// A copy of one record.
fn copy_info(info: &TensorInfo) -> (copy: TensorInfo)
    ensures
        copy@ == info@,
{
    TensorInfo {
        name: info.name.clone(),
        dtype: info.dtype.clone(),
        shape: crate::buffers::copied(info.shape.as_slice()),
    }
}

/// Puts a record into its place, over an earlier one of the same name.
fn put(inventory: &mut Vec<TensorInfo>, info: TensorInfo)
    requires
        strictly_ordered(record_names(records(old(inventory)@))),
    ensures
        strictly_ordered(record_names(records(final(inventory)@))),
        forall|name: Seq<char>| #[trigger]
            record_of(records(final(inventory)@), name) == if name == info.name@ {
                Some(info@)
            } else {
                record_of(records(old(inventory)@), name)
            },
{
    let ghost before = records(inventory@);
    let ghost names = record_names(before);
    let ghost new = info@;
    let mut at: usize = 0;
    while at < inventory.len() && !text_in_order(info.name.as_str(), inventory[at].name.as_str())
        invariant
            before == records(inventory@),
            names == record_names(before),
            at <= inventory@.len(),
            new == info@,
            forall|j: int| 0 <= j < at ==> !text_le(new.name, #[trigger] names[j]),
        ensures
            at < inventory@.len() ==> text_le(new.name, names[at as int]),
        decreases inventory@.len() - at,
    {
        proof {
            assert(names[at as int] == inventory@[at as int].name@);
        }
        at += 1;
    }
    let present: bool = at < inventory.len() && same_text(
        info.name.as_str(),
        inventory[at].name.as_str(),
    );
    if present {
        inventory.set(at, info);
        proof {
            let after = records(inventory@);
            assert(after =~= before.update(at as int, new));
            assert(record_names(after) =~= names);
            assert forall|name: Seq<char>| #[trigger] record_of(after, name) == if name
                == new.name {
                Some(new)
            } else {
                record_of(before, name)
            } by {
                lemma_put_lookup(before, after, names, at as int, new, name, true);
            }
        }
    } else {
        inventory.insert(at, info);
        proof {
            let after = records(inventory@);
            assert(after =~= before.insert(at as int, new));
            assert(record_names(after) =~= names.insert(at as int, new.name));
            lemma_ordered_insert(names, at as int, new.name);
            assert forall|name: Seq<char>| #[trigger] record_of(after, name) == if name
                == new.name {
                Some(new)
            } else {
                record_of(before, name)
            } by {
                lemma_put_lookup(before, after, names, at as int, new, name, false);
            }
        }
    }
}

proof fn lemma_put_lookup(
    before: Seq<RecordView>,
    after: Seq<RecordView>,
    names: Seq<Seq<char>>,
    at: int,
    new: RecordView,
    name: Seq<char>,
    replaced: bool,
)
    requires
        names == record_names(before),
        strictly_ordered(names),
        strictly_ordered(record_names(after)),
        if replaced {
            0 <= at < before.len() && before[at].name == new.name && after == before.update(
                at,
                new,
            )
        } else {
            0 <= at <= before.len() && after == before.insert(at, new)
        },
    ensures
        record_of(after, name) == if name == new.name {
            Some(new)
        } else {
            record_of(before, name)
        },
{
    let after_names = record_names(after);
    if name == new.name {
        assert forall|j: int| 0 <= j < at implies (#[trigger] after[j]).name != after[at].name by {
            assert(after_names[j] != after_names[at]);
        }
        lemma_record_at(after, at);
    } else {
        lemma_record_of(before, name);
        match record_of(before, name) {
            Some(record) => {
                let i = choose|i: int|
                    0 <= i < before.len() && #[trigger] before[i] == record && record.name == name;
                let k = if replaced || i < at {
                    i
                } else {
                    i + 1
                };
                assert(after[k] == record);
                assert forall|j: int| 0 <= j < k implies (#[trigger] after[j]).name
                    != after[k].name by {
                    assert(after_names[j] != after_names[k]);
                }
                lemma_record_at(after, k);
            },
            None => {
                assert forall|j: int| 0 <= j < after.len() implies (#[trigger] after[j]).name
                    != name by {
                    if replaced {
                        if j != at {
                            assert(after[j] == before[j]);
                        }
                    } else if j < at {
                        assert(after[j] == before[j]);
                    } else if j > at {
                        assert(after[j] == before[j - 1]);
                    }
                }
                lemma_no_record(after, name);
            },
        }
    }
}

impl Checkpoint {
    /// The inventory, in the order of names.
    pub closed spec fn inventory(&self) -> Seq<RecordView> {
        records(self.inventory@)
    }

    /// The configuration.
    pub closed spec fn model(&self) -> Qwen3NextConfig {
        self.config
    }

    /// A checkpoint with the given tensors, if they are those that the
    /// configuration asks for. Of several records with one name the last
    /// counts.
    pub fn new(config: Qwen3NextConfig, tensors: &Vec<TensorInfo>) -> (result: Result<
        Checkpoint,
        LoadError,
    >)
        requires
            widths_fit(config),
            forall|layer: int|
                0 <= layer < config.num_hidden_layers ==> #[trigger] config.has_layer_type(layer),
        ensures
            match result {
                Ok(checkpoint) => {
                    &&& checkpoint.model() == config
                    &&& strictly_ordered(record_names(checkpoint.inventory()))
                    &&& forall|name: Seq<char>| #[trigger]
                        record_of(checkpoint.inventory(), name) == last_record(
                            records(tensors@),
                            name,
                        )
                    &&& first_problem(
                        checkpoint.inventory(),
                        model_tensors(config, config.num_hidden_layers as int),
                    ) is None
                },
                Err(error) => exists|inventory: Seq<RecordView>|
                    {
                        &&& #[trigger] strictly_ordered(record_names(inventory))
                        &&& forall|name: Seq<char>| #[trigger]
                            record_of(inventory, name) == last_record(records(tensors@), name)
                        &&& first_problem(
                            inventory,
                            model_tensors(config, config.num_hidden_layers as int),
                        ) is Some
                        &&& error.reports(
                            first_problem(
                                inventory,
                                model_tensors(config, config.num_hidden_layers as int),
                            )->0,
                        )
                    },
            },
    {
        let mut inventory: Vec<TensorInfo> = Vec::new();
        let ghost list = records(tensors@);
        let mut i: usize = 0;
        proof {
            assert(records(inventory@) =~= Seq::<RecordView>::empty());
            assert(list.take(0) =~= Seq::<RecordView>::empty());
        }
        while i < tensors.len()
            invariant
                i <= tensors@.len(),
                list == records(tensors@),
                strictly_ordered(record_names(records(inventory@))),
                forall|name: Seq<char>| #[trigger]
                    record_of(records(inventory@), name) == last_record(list.take(i as int), name),
            decreases tensors@.len() - i,
        {
            let info = copy_info(&tensors[i]);
            put(&mut inventory, info);
            proof {
                assert(list.take(i + 1).drop_last() =~= list.take(i as int));
                assert(list.take(i + 1).last() == info@);
            }
            i += 1;
        }
        proof {
            assert(list.take(list.len() as int) =~= list);
        }
        let checkpoint = Checkpoint { config, inventory };
        match checkpoint.validate_required_tensors() {
            Ok(_) => Ok(checkpoint),
            Err(error) => {
                proof {
                    assert(strictly_ordered(record_names(checkpoint.inventory())));
                }
                Err(error)
            },
        }
    }

    /// The configuration.
    pub fn config(&self) -> (config: &Qwen3NextConfig)
        ensures
            *config == self.model(),
    {
        &self.config
    }

    /// Every tensor, in the order of names.
    pub fn tensor_infos(&self) -> (infos: &[TensorInfo])
        ensures
            records(infos@) == self.inventory(),
    {
        self.inventory.as_slice()
    }

    /// The record of one tensor.
    pub fn tensor_info(&self, name: &str) -> (info: Option<&TensorInfo>)
        ensures
            match info {
                Some(info) => record_of(self.inventory(), name@) == Some(info@),
                None => record_of(self.inventory(), name@) is None,
            },
    {
        let ghost inventory = self.inventory();
        let mut i: usize = 0;
        while i < self.inventory.len()
            invariant
                i <= self.inventory@.len(),
                inventory == records(self.inventory@),
                forall|j: int| 0 <= j < i ==> (#[trigger] inventory[j]).name != name@,
            decreases self.inventory@.len() - i,
        {
            if same_text(self.inventory[i].name.as_str(), name) {
                proof {
                    assert(inventory[i as int].name == name@);
                    lemma_record_at(inventory, i as int);
                }
                return Some(&self.inventory[i]);
            }
            i += 1;
        }
        proof {
            lemma_no_record(inventory, name@);
        }
        None
    }

    /// Accepts a tensor that is there, has the expected shape and is stored as
    /// BF16, F16 or F32.
    pub fn expect(&self, name: &str, expected: &Vec<usize>) -> (result: Result<(), LoadError>)
        ensures
            match result {
                Ok(_) => tensor_problem(self.inventory(), name@, expected@) is None,
                Err(error) => tensor_problem(self.inventory(), name@, expected@) is Some
                    && error.reports(tensor_problem(self.inventory(), name@, expected@)->0),
            },
    {
        match self.tensor_info(name) {
            None => Err(LoadError::Missing { name: name.to_owned() }),
            Some(info) => {
                if !same_shape(&info.shape, expected) {
                    return Err(
                        LoadError::WrongShape {
                            name: name.to_owned(),
                            found: crate::buffers::copied(info.shape.as_slice()),
                            expected: crate::buffers::copied(expected.as_slice()),
                        },
                    );
                }
                if !same_text(info.dtype.as_str(), "BF16") && !same_text(
                    info.dtype.as_str(),
                    "F16",
                ) && !same_text(info.dtype.as_str(), "F32") {
                    return Err(
                        LoadError::UnsupportedType {
                            name: name.to_owned(),
                            dtype: info.dtype.clone(),
                        },
                    );
                }
                Ok(())
            },
        }
    }

    /// Accepts an inventory that holds every tensor the configuration asks for,
    /// with its shape, in a supported type.
    pub fn validate_required_tensors(&self) -> (result: Result<(), LoadError>)
        requires
            widths_fit(self.model()),
            forall|layer: int|
                0 <= layer < self.model().num_hidden_layers
                    ==> #[trigger] self.model().has_layer_type(layer),
        ensures
            ({
                let problem = first_problem(
                    self.inventory(),
                    model_tensors(self.model(), self.model().num_hidden_layers as int),
                );
                match result {
                    Ok(_) => problem is None,
                    Err(error) => problem is Some && error.reports(problem->0),
                }
            }),
    {
        let list = required_tensors(&self.config);
        let ghost required = requirements(list@);
        let mut i: usize = 0;
        proof {
            assert(required.skip(0) =~= required);
        }
        while i < list.len()
            invariant
                i <= list@.len(),
                required == requirements(list@),
                first_problem(self.inventory(), required) == first_problem(
                    self.inventory(),
                    required.skip(i as int),
                ),
                required == model_tensors(self.model(), self.model().num_hidden_layers as int),
            decreases list@.len() - i,
        {
            proof {
                assert(required.skip(i as int).skip(1) =~= required.skip(i + 1));
                assert(required.skip(i as int)[0] == required[i as int]);
            }
            match self.expect(list[i].name.as_str(), &list[i].shape) {
                Ok(_) => {},
                Err(error) => {
                    return Err(error);
                },
            }
            i += 1;
        }
        Ok(())
    }

    /// What the checkpoint holds, at a glance.
    pub fn summary(&self) -> (summary: ModelSummary)
        requires
            forall|layer: int|
                0 <= layer < self.model().num_hidden_layers
                    ==> #[trigger] self.model().has_layer_type(layer),
        ensures
            summary.architecture@ == self.model().model_type@,
            summary.layers == self.model().num_hidden_layers,
            summary.hidden_size == self.model().hidden_size,
            summary.experts_per_layer == self.model().num_experts,
            summary.experts_selected == self.model().num_experts_per_tok,
            summary.vocab_size == self.model().vocab_size,
            summary.full_attention_layers == self.model().full_layers(
                self.model().num_hidden_layers as nat,
            ),
            summary.linear_attention_layers == self.model().num_hidden_layers
                - summary.full_attention_layers,
            summary.tensor_count == self.inventory().len(),
            strictly_ordered(texts(summary.dtypes@)),
            forall|t: Seq<char>| #[trigger]
                texts(summary.dtypes@).contains(t) <==> exists|i: int|
                    0 <= i < self.inventory().len() && (#[trigger] self.inventory()[i]).dtype == t,
            summary.format@ == "safetensors"@,
    {
        let c = &self.config;
        let mut full: usize = 0;
        let mut layer: usize = 0;
        while layer < c.num_hidden_layers
            invariant
                *c == self.model(),
                forall|layer: int|
                    0 <= layer < self.model().num_hidden_layers
                        ==> #[trigger] self.model().has_layer_type(layer),
                layer <= c.num_hidden_layers,
                full == c.full_layers(layer as nat),
                full <= layer,
            decreases c.num_hidden_layers - layer,
        {
            assert(self.model().has_layer_type(layer as int));
            if c.layer_type(layer) == LayerType::FullAttention {
                full += 1;
            }
            layer += 1;
        }
        let mut dtypes: Vec<String> = Vec::new();
        let mut i: usize = 0;
        while i < self.inventory.len()
            invariant
                i <= self.inventory@.len(),
                dtypes@.len() == i,
                forall|j: int| 0 <= j < i ==> (#[trigger] dtypes@[j])@ == self.inventory@[j].dtype@,
            decreases self.inventory@.len() - i,
        {
            dtypes.push(self.inventory[i].dtype.clone());
            i += 1;
        }
        let dtypes_sorted = sorted_unique(&dtypes);
        proof {
            assert forall|t: Seq<char>| #[trigger]
                texts(dtypes_sorted@).contains(t) <==> exists|i: int|
                    0 <= i < self.inventory().len() && (#[trigger] self.inventory()[i]).dtype
                        == t by {
                if texts(dtypes@).contains(t) {
                    let i = choose|i: int| 0 <= i < texts(dtypes@).len() && texts(dtypes@)[i] == t;
                    assert(dtypes@[i]@ == t);
                    assert(self.inventory()[i].dtype == t);
                }
                if exists|i: int|
                    0 <= i < self.inventory().len() && (#[trigger] self.inventory()[i]).dtype == t {
                    let i = choose|i: int|
                        0 <= i < self.inventory().len() && (#[trigger] self.inventory()[i]).dtype
                            == t;
                    assert(dtypes@[i]@ == t);
                    assert(texts(dtypes@)[i] == t);
                }
            }
        }
        ModelSummary {
            architecture: c.model_type.clone(),
            layers: c.num_hidden_layers,
            hidden_size: c.hidden_size,
            experts_per_layer: c.num_experts,
            experts_selected: c.num_experts_per_tok,
            vocab_size: c.vocab_size,
            full_attention_layers: full,
            linear_attention_layers: c.num_hidden_layers - full,
            tensor_count: self.inventory.len(),
            dtypes: dtypes_sorted,
            format: "safetensors".to_owned(),
        }
    }
}

/// Whether `shards` are the files that an index lists, in order and each once.
pub open spec fn shards_of(shards: Seq<Seq<char>>, listed: Seq<Seq<char>>) -> bool {
    &&& strictly_ordered(shards)
    &&& forall|t: Seq<char>| #[trigger] shards.contains(t) <==> listed.contains(t)
}

/// Whether `file` is the first of the shards, and at place `at`, that is not
/// present.
pub open spec fn first_missing(
    shards: Seq<Seq<char>>,
    at: int,
    listed: Seq<Seq<char>>,
    present: Seq<bool>,
    file: Seq<char>,
) -> bool {
    &&& shards_of(shards, listed)
    &&& 0 <= at < shards.len()
    &&& shards[at] == file
    &&& at == present.len() || at < present.len() && !present[at]
    &&& forall|j: int| 0 <= j < at ==> #[trigger] present[j]
}

/// Whether `file` is the first of the listed files, in order, that is not
/// present.
pub open spec fn is_first_missing(
    listed: Seq<Seq<char>>,
    present: Seq<bool>,
    file: Seq<char>,
) -> bool {
    exists|shards: Seq<Seq<char>>, at: int| #[trigger]
        first_missing(shards, at, listed, present, file)
}

/// The shard files that an index lists, in order, each once. `listed` is the
/// file of each tensor in the index.
pub fn listed_shards(listed: &Vec<String>) -> (shards: Result<Vec<String>, LoadError>)
    ensures
        match shards {
            Ok(shards) => {
                &&& listed@.len() > 0
                &&& shards_of(texts(shards@), texts(listed@))
            },
            Err(error) => error == LoadError::NoShards && listed@.len() == 0,
        },
{
    let shards = sorted_unique(listed);
    if shards.len() == 0 {
        proof {
            if listed@.len() > 0 {
                assert(texts(listed@)[0] == listed@[0]@);
                assert(texts(listed@).contains(listed@[0]@));
                assert(texts(shards@).contains(listed@[0]@));
            }
        }
        return Err(LoadError::NoShards);
    }
    proof {
        assert(texts(shards@)[0] == shards@[0]@);
        assert(texts(shards@).contains(shards@[0]@));
        assert(texts(listed@).contains(shards@[0]@));
    }
    Ok(shards)
}

/// Where the weights of a model are.
#[derive(Debug, Clone, PartialEq, Eq)]
pub enum WeightFiles {
    Single,
    Shards(Vec<String>),
}

/// Decides which weight files to load. `listed` holds the file of each tensor
/// where there is a shard index; `present` tells, for every listed file in
/// order and each once, whether it exists; `single` tells whether there is one
/// file that holds everything.
pub fn discover_safetensors(listed: Option<Vec<String>>, present: &Vec<bool>, single: bool) -> (files:
    Result<WeightFiles, LoadError>)
    ensures
        match listed {
            None => if single {
                files == Ok::<WeightFiles, LoadError>(WeightFiles::Single)
            } else {
                files == Err::<WeightFiles, LoadError>(LoadError::NoModelFile)
            },
            Some(names) => match files {
                Ok(WeightFiles::Shards(shards)) => {
                    &&& names@.len() > 0
                    &&& shards_of(texts(shards@), texts(names@))
                    &&& shards@.len() <= present@.len()
                    &&& forall|i: int| 0 <= i < shards@.len() ==> #[trigger] present@[i]
                },
                Ok(WeightFiles::Single) => false,
                Err(LoadError::NoShards) => names@.len() == 0,
                Err(LoadError::MissingShard { file }) => is_first_missing(
                    texts(names@),
                    present@,
                    file@,
                ),
                Err(_) => false,
            },
        },
{
    match listed {
        None => {
            if single {
                Ok(WeightFiles::Single)
            } else {
                Err(LoadError::NoModelFile)
            }
        },
        Some(names) => {
            let shards = match listed_shards(&names) {
                Ok(shards) => shards,
                Err(error) => {
                    return Err(error);
                },
            };
            let mut i: usize = 0;
            while i < shards.len()
                invariant
                    i <= shards@.len(),
                    listed == Some(names),
                    names@.len() > 0,
                    shards_of(texts(shards@), texts(names@)),
                    i <= present@.len(),
                    forall|j: int| 0 <= j < i ==> #[trigger] present@[j],
                decreases shards@.len() - i,
            {
                if i >= present.len() || !present[i] {
                    let file = shards[i].clone();
                    proof {
                        assert(first_missing(
                            texts(shards@),
                            i as int,
                            texts(names@),
                            present@,
                            file@,
                        ));
                        assert(is_first_missing(texts(names@), present@, file@));
                    }
                    return Err(LoadError::MissingShard { file });
                }
                i += 1;
            }
            Ok(WeightFiles::Shards(shards))
        },
    }
}

} // verus!
