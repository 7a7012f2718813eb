//! What a checkpoint that was accepted holds: every tensor of its architecture,
//! under its name, with its shape, in a type that can be read.

use crate::config::{LayerType, Qwen3NextConfig};
use crate::loader::{
    attention_tensors, expert_tensors, feed_forward_tensors, first_problem, layer_tensors,
    model_tensors, no_problem_means_every_tensor_fits, record_of, tensor_problem, RecordView,
    Required,
};
use crate::text::decimal;
use vstd::prelude::*;

verus! {

/// Whether an inventory holds a tensor of the given shape, in a type that can be
/// read.
pub open spec fn holds(inventory: Seq<RecordView>, name: Seq<char>, shape: Seq<usize>) -> bool {
    record_of(inventory, name) matches Some(record) && {
        &&& record.shape == shape
        &&& record.dtype == "BF16"@ || record.dtype == "F16"@ || record.dtype == "F32"@
    }
}

/// A record that is found under a name is one of the inventory with that name, and
/// none is found only where there is none.
pub proof fn a_record_is_found_by_its_name(inventory: Seq<RecordView>, name: Seq<char>)
    ensures
        match record_of(inventory, name) {
            Some(record) => inventory.contains(record) && record.name == name,
            None => forall|i: int| 0 <= i < inventory.len() ==> (#[trigger] inventory[i]).name
                != name,
        },
    decreases inventory.len(),
{
    if inventory.len() > 0 {
        let rest = inventory.skip(1);
        if inventory[0].name == name {
            assert(inventory.contains(inventory[0]));
        } else {
            a_record_is_found_by_its_name(rest, name);
            match record_of(rest, name) {
                Some(record) => {
                    let i = choose|i: int| 0 <= i < rest.len() && rest[i] == record;
                    assert(inventory[i + 1] == record);
                },
                None => {
                    assert forall|i: int| 0 <= i < inventory.len() implies (
                    #[trigger] inventory[i]).name != name by {
                        if i > 0 {
                            assert(rest[i - 1] == inventory[i]);
                        }
                    }
                },
            }
        }
    }
}

proof fn lemma_parts(inventory: Seq<RecordView>, a: Seq<Required>, b: Seq<Required>)
    requires
        first_problem(inventory, a + b) is None,
    ensures
        first_problem(inventory, a) is None,
        first_problem(inventory, b) is None,
{
    no_problem_means_every_tensor_fits(inventory, a + b);
    no_problem_means_every_tensor_fits(inventory, a);
    no_problem_means_every_tensor_fits(inventory, b);
    assert forall|i: int| 0 <= i < a.len() implies tensor_problem(
        inventory,
        (#[trigger] a[i]).0,
        a[i].1,
    ) is None by {
        assert((a + b)[i] == a[i]);
    }
    assert forall|i: int| 0 <= i < b.len() implies tensor_problem(
        inventory,
        (#[trigger] b[i]).0,
        b[i].1,
    ) is None by {
        assert((a + b)[a.len() + i] == b[i]);
    }
}

proof fn lemma_listed(inventory: Seq<RecordView>, required: Seq<Required>, i: int)
    requires
        first_problem(inventory, required) is None,
        0 <= i < required.len(),
    ensures
        holds(inventory, required[i].0, required[i].1),
{
    no_problem_means_every_tensor_fits(inventory, required);
    assert(tensor_problem(inventory, required[i].0, required[i].1) is None);
}

proof fn lemma_layer(inventory: Seq<RecordView>, c: Qwen3NextConfig, layer: int, n: int)
    requires
        0 <= layer < n,
        first_problem(inventory, model_tensors(c, n)) is None,
    ensures
        first_problem(inventory, layer_tensors(c, layer)) is None,
    decreases n,
{
    lemma_parts(inventory, model_tensors(c, n - 1), layer_tensors(c, n - 1));
    if layer < n - 1 {
        lemma_layer(inventory, c, layer, n - 1);
    }
}

/// An accepted checkpoint holds the embedding, the final norm and the head.
pub proof fn an_accepted_checkpoint_holds_its_ends(
    inventory: Seq<RecordView>,
    c: Qwen3NextConfig,
    n: int,
)
    requires
        0 <= n,
        first_problem(inventory, model_tensors(c, n)) is None,
    ensures
        holds(inventory, "model.embed_tokens.weight"@, seq![c.vocab_size, c.hidden_size]),
        holds(inventory, "model.norm.weight"@, seq![c.hidden_size]),
        holds(inventory, "lm_head.weight"@, seq![c.vocab_size, c.hidden_size]),
    decreases n,
{
    if n > 0 {
        lemma_parts(inventory, model_tensors(c, n - 1), layer_tensors(c, n - 1));
        an_accepted_checkpoint_holds_its_ends(inventory, c, n - 1);
    } else {
        lemma_listed(inventory, model_tensors(c, 0), 0);
        lemma_listed(inventory, model_tensors(c, 0), 1);
        lemma_listed(inventory, model_tensors(c, 0), 2);
    }
}

/// An accepted checkpoint holds both norms of every layer and, of a layer that
/// attends fully, the projections to queries with their gates, to keys and to
/// values, the one back, and a norm for the queries and one for the keys of a head.
pub proof fn an_accepted_checkpoint_holds_its_full_attention(
    inventory: Seq<RecordView>,
    c: Qwen3NextConfig,
    layer: int,
)
    requires
        0 <= layer < c.num_hidden_layers,
        first_problem(inventory, model_tensors(c, c.num_hidden_layers as int)) is None,
        c.type_of(layer) == LayerType::FullAttention,
    ensures
        ({
            let p = "model.layers."@ + decimal(layer as nat);
            let hidden = c.hidden_size;
            let query = (c.num_attention_heads * c.head_dim) as usize;
            let kv = (c.num_key_value_heads * c.head_dim) as usize;
            &&& holds(inventory, p + ".input_layernorm.weight"@, seq![hidden])
            &&& holds(inventory, p + ".post_attention_layernorm.weight"@, seq![hidden])
            &&& holds(
                inventory,
                p + ".self_attn.q_proj.weight"@,
                seq![(query * 2) as usize, hidden],
            )
            &&& holds(inventory, p + ".self_attn.k_proj.weight"@, seq![kv, hidden])
            &&& holds(inventory, p + ".self_attn.v_proj.weight"@, seq![kv, hidden])
            &&& holds(inventory, p + ".self_attn.o_proj.weight"@, seq![hidden, query])
            &&& holds(inventory, p + ".self_attn.q_norm.weight"@, seq![c.head_dim])
            &&& holds(inventory, p + ".self_attn.k_norm.weight"@, seq![c.head_dim])
        }),
{
    lemma_layer(inventory, c, layer, c.num_hidden_layers as int);
    let all = layer_tensors(c, layer);
    let own = attention_tensors(c, layer);
    let norms = all.take(2);
    assert(all =~= norms + own + feed_forward_tensors(c, layer));
    lemma_parts(inventory, norms + own, feed_forward_tensors(c, layer));
    lemma_parts(inventory, norms, own);
    lemma_listed(inventory, norms, 0);
    lemma_listed(inventory, norms, 1);
    lemma_listed(inventory, own, 0);
    lemma_listed(inventory, own, 1);
    lemma_listed(inventory, own, 2);
    lemma_listed(inventory, own, 3);
    lemma_listed(inventory, own, 4);
    lemma_listed(inventory, own, 5);
}

/// Of a layer with linear attention an accepted checkpoint holds the projection to
/// queries, keys, values and gates, the one to betas and alphas, the convolution
/// of queries, keys and values, a time bias and a decay for every value head, the
/// norm of a head and the projection back.
pub proof fn an_accepted_checkpoint_holds_its_linear_attention(
    inventory: Seq<RecordView>,
    c: Qwen3NextConfig,
    layer: int,
)
    requires
        0 <= layer < c.num_hidden_layers,
        first_problem(inventory, model_tensors(c, c.num_hidden_layers as int)) is None,
        c.type_of(layer) == LayerType::LinearAttention,
    ensures
        ({
            let p = "model.layers."@ + decimal(layer as nat) + ".linear_attn"@;
            let hidden = c.hidden_size;
            let key = c.linear_num_key_heads * c.linear_key_head_dim;
            let value = c.linear_num_value_heads * c.linear_value_head_dim;
            let heads = c.linear_num_value_heads;
            &&& holds(
                inventory,
                p + ".in_proj_qkvz.weight"@,
                seq![(key + key + value + value) as usize, hidden],
            )
            &&& holds(inventory, p + ".in_proj_ba.weight"@, seq![(heads + heads) as usize, hidden])
            &&& holds(
                inventory,
                p + ".conv1d.weight"@,
                seq![(key + key + value) as usize, 1usize, c.linear_conv_kernel_dim],
            )
            &&& holds(inventory, p + ".dt_bias"@, seq![heads])
            &&& holds(inventory, p + ".A_log"@, seq![heads])
            &&& holds(inventory, p + ".norm.weight"@, seq![c.linear_value_head_dim])
            &&& holds(inventory, p + ".out_proj.weight"@, seq![hidden, value as usize])
        }),
{
    lemma_layer(inventory, c, layer, c.num_hidden_layers as int);
    let all = layer_tensors(c, layer);
    let own = attention_tensors(c, layer);
    let norms = all.take(2);
    assert(all =~= norms + own + feed_forward_tensors(c, layer));
    lemma_parts(inventory, norms + own, feed_forward_tensors(c, layer));
    lemma_parts(inventory, norms, own);
    lemma_listed(inventory, own, 0);
    lemma_listed(inventory, own, 1);
    lemma_listed(inventory, own, 2);
    lemma_listed(inventory, own, 3);
    lemma_listed(inventory, own, 4);
    lemma_listed(inventory, own, 5);
    lemma_listed(inventory, own, 6);
    let p = "model.layers."@ + decimal(layer as nat);
    reveal_strlit(".linear_attn");
    reveal_strlit(".in_proj_qkvz.weight");
    reveal_strlit(".linear_attn.in_proj_qkvz.weight");
    reveal_strlit(".in_proj_ba.weight");
    reveal_strlit(".linear_attn.in_proj_ba.weight");
    reveal_strlit(".conv1d.weight");
    reveal_strlit(".linear_attn.conv1d.weight");
    reveal_strlit(".dt_bias");
    reveal_strlit(".linear_attn.dt_bias");
    reveal_strlit(".A_log");
    reveal_strlit(".linear_attn.A_log");
    reveal_strlit(".norm.weight");
    reveal_strlit(".linear_attn.norm.weight");
    reveal_strlit(".out_proj.weight");
    reveal_strlit(".linear_attn.out_proj.weight");
    let q = p + ".linear_attn"@;
    assert(q + ".in_proj_qkvz.weight"@ =~= p + ".linear_attn.in_proj_qkvz.weight"@);
    assert(q + ".in_proj_ba.weight"@ =~= p + ".linear_attn.in_proj_ba.weight"@);
    assert(q + ".conv1d.weight"@ =~= p + ".linear_attn.conv1d.weight"@);
    assert(q + ".dt_bias"@ =~= p + ".linear_attn.dt_bias"@);
    assert(q + ".A_log"@ =~= p + ".linear_attn.A_log"@);
    assert(q + ".norm.weight"@ =~= p + ".linear_attn.norm.weight"@);
    assert(q + ".out_proj.weight"@ =~= p + ".linear_attn.out_proj.weight"@);
}

proof fn lemma_expert(
    inventory: Seq<RecordView>,
    c: Qwen3NextConfig,
    layer: int,
    expert: int,
    n: int,
)
    requires
        0 <= expert < n,
        first_problem(inventory, expert_tensors(c, layer, n)) is None,
    ensures
        ({
            let e = "model.layers."@ + decimal(layer as nat) + ".mlp.experts."@ + decimal(
                expert as nat,
            );
            let wide = c.moe_intermediate_size;
            &&& holds(inventory, e + ".gate_proj.weight"@, seq![wide, c.hidden_size])
            &&& holds(inventory, e + ".up_proj.weight"@, seq![wide, c.hidden_size])
            &&& holds(inventory, e + ".down_proj.weight"@, seq![c.hidden_size, wide])
        }),
    decreases n,
{
    let fewer = expert_tensors(c, layer, n - 1);
    let own = expert_tensors(c, layer, n).skip(fewer.len() as int);
    assert(expert_tensors(c, layer, n) =~= fewer + own);
    lemma_parts(inventory, fewer, own);
    if expert < n - 1 {
        lemma_expert(inventory, c, layer, expert, n - 1);
    } else {
        lemma_listed(inventory, own, 0);
        lemma_listed(inventory, own, 1);
        lemma_listed(inventory, own, 2);
    }
}

/// Of a layer that routes to experts an accepted checkpoint holds the router, the
/// three matrices of every expert, and the shared expert with its selector.
pub proof fn an_accepted_checkpoint_holds_its_experts(
    inventory: Seq<RecordView>,
    c: Qwen3NextConfig,
    layer: int,
    expert: int,
)
    requires
        0 <= layer < c.num_hidden_layers,
        0 <= expert < c.num_experts,
        first_problem(inventory, model_tensors(c, c.num_hidden_layers as int)) is None,
        c.is_moe(layer),
    ensures
        ({
            let m = "model.layers."@ + decimal(layer as nat) + ".mlp"@;
            let e = "model.layers."@ + decimal(layer as nat) + ".mlp.experts."@ + decimal(
                expert as nat,
            );
            let hidden = c.hidden_size;
            let wide = c.moe_intermediate_size;
            let shared = c.shared_expert_intermediate_size;
            &&& holds(inventory, m + ".gate.weight"@, seq![c.num_experts, hidden])
            &&& holds(inventory, e + ".gate_proj.weight"@, seq![wide, hidden])
            &&& holds(inventory, e + ".up_proj.weight"@, seq![wide, hidden])
            &&& holds(inventory, e + ".down_proj.weight"@, seq![hidden, wide])
            &&& holds(inventory, m + ".shared_expert.gate_proj.weight"@, seq![shared, hidden])
            &&& holds(inventory, m + ".shared_expert.up_proj.weight"@, seq![shared, hidden])
            &&& holds(inventory, m + ".shared_expert.down_proj.weight"@, seq![hidden, shared])
            &&& holds(inventory, m + ".shared_expert_gate.weight"@, seq![1usize, hidden])
        }),
{
    lemma_layer(inventory, c, layer, c.num_hidden_layers as int);
    let all = layer_tensors(c, layer);
    let front = all.take(2) + attention_tensors(c, layer);
    let own = feed_forward_tensors(c, layer);
    assert(all =~= front + own);
    lemma_parts(inventory, front, own);
    let middle = expert_tensors(c, layer, c.num_experts as int);
    let router = own.take(1);
    let last = own.skip(1 + middle.len() as int);
    assert(own =~= router + middle + last);
    lemma_parts(inventory, router + middle, last);
    lemma_parts(inventory, router, middle);
    lemma_listed(inventory, router, 0);
    lemma_expert(inventory, c, layer, expert, c.num_experts as int);
    lemma_listed(inventory, last, 0);
    lemma_listed(inventory, last, 1);
    lemma_listed(inventory, last, 2);
    lemma_listed(inventory, last, 3);
}

/// Of any other layer an accepted checkpoint holds the three matrices of one dense
/// block.
pub proof fn an_accepted_checkpoint_holds_its_dense_blocks(
    inventory: Seq<RecordView>,
    c: Qwen3NextConfig,
    layer: int,
)
    requires
        0 <= layer < c.num_hidden_layers,
        first_problem(inventory, model_tensors(c, c.num_hidden_layers as int)) is None,
        !c.is_moe(layer),
    ensures
        ({
            let m = "model.layers."@ + decimal(layer as nat) + ".mlp"@;
            let hidden = c.hidden_size;
            let wide = c.intermediate_size;
            &&& holds(inventory, m + ".gate_proj.weight"@, seq![wide, hidden])
            &&& holds(inventory, m + ".up_proj.weight"@, seq![wide, hidden])
            &&& holds(inventory, m + ".down_proj.weight"@, seq![hidden, wide])
        }),
{
    lemma_layer(inventory, c, layer, c.num_hidden_layers as int);
    let all = layer_tensors(c, layer);
    let front = all.take(2) + attention_tensors(c, layer);
    let own = feed_forward_tensors(c, layer);
    assert(all =~= front + own);
    lemma_parts(inventory, front, own);
    lemma_listed(inventory, own, 0);
    lemma_listed(inventory, own, 1);
    lemma_listed(inventory, own, 2);
}

} // verus!
