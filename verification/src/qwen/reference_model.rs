//! Which tensors of an uncompressed checkpoint each stage of a pass reads, and
//! in which order; and how what its experts give is put together.

use super::experts::{combine_row, lemma_routed_len, result_views, routed_sum};
use super::moe::Route;
use super::pass::{PassError, PassStage};
use crate::arithmetic::Arithmetic;
use crate::buffers::append_all;
use crate::config::{LayerType, Qwen3NextConfig};
use crate::loader::{
    attention_tensors, expert_tensors, feed_forward_tensors, layer_prefix, layer_tensors,
    model_tensors, Required,
};
use crate::text::{decimal, decimal_text, joined, texts};
use vstd::prelude::*;

verus! {

/// The tensors of one expert of a layer.
pub open spec fn expert_reads(layer: int, expert: int) -> Seq<Seq<char>> {
    let e = layer_prefix(layer) + ".mlp.experts."@ + decimal(expert as nat);
    seq![e + ".gate_proj.weight"@, e + ".up_proj.weight"@, e + ".down_proj.weight"@]
}

/// The tensors of the first `n` experts of a list.
pub open spec fn experts_reads(layer: int, experts: Seq<usize>, n: int) -> Seq<Seq<char>>
    decreases n,
{
    if n <= 0 {
        Seq::empty()
    } else {
        experts_reads(layer, experts, n - 1) + expert_reads(layer, experts[n - 1] as int)
    }
}

/// The tensors that the attention of a layer reads.
pub open spec fn mixer_reads(c: Qwen3NextConfig, layer: int) -> Seq<Seq<char>> {
    let p = layer_prefix(layer);
    match c.type_of(layer) {
        LayerType::FullAttention => seq![
            p + ".input_layernorm.weight"@,
            p + ".self_attn.q_proj.weight"@,
            p + ".self_attn.k_proj.weight"@,
            p + ".self_attn.v_proj.weight"@,
            p + ".self_attn.q_norm.weight"@,
            p + ".self_attn.k_norm.weight"@,
            p + ".self_attn.o_proj.weight"@,
        ],
        LayerType::LinearAttention => seq![
            p + ".input_layernorm.weight"@,
            p + ".linear_attn.in_proj_qkvz.weight"@,
            p + ".linear_attn.in_proj_ba.weight"@,
            p + ".linear_attn.conv1d.weight"@,
            p + ".linear_attn.A_log"@,
            p + ".linear_attn.dt_bias"@,
            p + ".linear_attn.norm.weight"@,
            p + ".linear_attn.out_proj.weight"@,
        ],
    }
}

/// The tensors that the feed-forward block of a layer reads, where the given
/// experts are chosen one after the other.
pub open spec fn feed_forward_reads(c: Qwen3NextConfig, layer: int, experts: Seq<usize>) -> Seq<
    Seq<char>,
> {
    let p = layer_prefix(layer);
    let m = p + ".mlp"@;
    if c.is_moe(layer) {
        seq![p + ".post_attention_layernorm.weight"@, m + ".gate.weight"@] + experts_reads(
            layer,
            experts,
            experts.len() as int,
        ) + seq![
            m + ".shared_expert.gate_proj.weight"@,
            m + ".shared_expert.up_proj.weight"@,
            m + ".shared_expert.down_proj.weight"@,
            m + ".shared_expert_gate.weight"@,
        ]
    } else {
        seq![
            p + ".post_attention_layernorm.weight"@,
            m + ".gate_proj.weight"@,
            m + ".up_proj.weight"@,
            m + ".down_proj.weight"@,
        ]
    }
}

/// The tensors that a stage of a pass reads. A model whose embedding is tied to
/// its head reads the embedding again.
pub open spec fn stage_reads(c: Qwen3NextConfig, stage: PassStage, experts: Seq<usize>) -> Seq<
    Seq<char>,
> {
    match stage {
        PassStage::Embedding => seq!["model.embed_tokens.weight"@],
        PassStage::Mixer { layer } => mixer_reads(c, layer as int),
        PassStage::FeedForward { layer } => feed_forward_reads(c, layer as int, experts),
        PassStage::FinalNorm => seq!["model.norm.weight"@],
        PassStage::Head => if c.tie_word_embeddings {
            seq!["model.embed_tokens.weight"@]
        } else {
            seq!["lm_head.weight"@]
        },
        PassStage::Finished => Seq::empty(),
    }
}

/// Appends a name made of two parts.
fn name_tensor(names: &mut Vec<String>, prefix: &str, suffix: &str)
    ensures
        texts(final(names)@) == texts(old(names)@).push(prefix@ + suffix@),
{
    names.push(joined(prefix, suffix));
    proof {
        assert(texts(names@) =~= texts(old(names)@).push(prefix@ + suffix@));
    }
}

/// The name of a single tensor.
fn single_name(name: &str) -> (names: Vec<String>)
    ensures
        texts(names@) == seq![name@],
{
    let mut names: Vec<String> = Vec::new();
    names.push(name.to_owned());
    proof {
        assert(texts(names@) =~= seq![name@]);
    }
    names
}

/// The tensors that the attention of a layer reads.
fn mixer_names(c: &Qwen3NextConfig, layer: usize) -> (names: Vec<String>)
    requires
        c.has_layer_type(layer as int),
    ensures
        texts(names@) == mixer_reads(*c, layer as int),
{
    let prefix = joined("model.layers.", decimal_text(layer).as_str());
    let p: &str = prefix.as_str();
    let mut names: Vec<String> = Vec::new();
    proof {
        assert(texts(names@) =~= Seq::<Seq<char>>::empty());
    }
    name_tensor(&mut names, p, ".input_layernorm.weight");
    match c.layer_type(layer) {
        LayerType::FullAttention => {
            name_tensor(&mut names, p, ".self_attn.q_proj.weight");
            name_tensor(&mut names, p, ".self_attn.k_proj.weight");
            name_tensor(&mut names, p, ".self_attn.v_proj.weight");
            name_tensor(&mut names, p, ".self_attn.q_norm.weight");
            name_tensor(&mut names, p, ".self_attn.k_norm.weight");
            name_tensor(&mut names, p, ".self_attn.o_proj.weight");
        },
        LayerType::LinearAttention => {
            name_tensor(&mut names, p, ".linear_attn.in_proj_qkvz.weight");
            name_tensor(&mut names, p, ".linear_attn.in_proj_ba.weight");
            name_tensor(&mut names, p, ".linear_attn.conv1d.weight");
            name_tensor(&mut names, p, ".linear_attn.A_log");
            name_tensor(&mut names, p, ".linear_attn.dt_bias");
            name_tensor(&mut names, p, ".linear_attn.norm.weight");
            name_tensor(&mut names, p, ".linear_attn.out_proj.weight");
        },
    }
    proof {
        assert(texts(names@) =~= mixer_reads(*c, layer as int));
    }
    names
}

/// The tensors that the feed-forward block of a layer reads.
fn feed_forward_names(c: &Qwen3NextConfig, layer: usize, experts: &[usize]) -> (names: Vec<String>)
    requires
        layer < usize::MAX,
    ensures
        texts(names@) == feed_forward_reads(*c, layer as int, experts@),
{
    let prefix = joined("model.layers.", decimal_text(layer).as_str());
    let p: &str = prefix.as_str();
    let block = joined(p, ".mlp");
    let m: &str = block.as_str();
    let mut names: Vec<String> = Vec::new();
    proof {
        assert(texts(names@) =~= Seq::<Seq<char>>::empty());
    }
    name_tensor(&mut names, p, ".post_attention_layernorm.weight");
    if c.layer_is_moe(layer) {
        name_tensor(&mut names, m, ".gate.weight");
        let ghost head = texts(names@);
        let listed = joined(p, ".mlp.experts.");
        let count: usize = experts.len();
        let mut i: usize = 0;
        proof {
            assert(head + experts_reads(layer as int, experts@, 0) =~= head);
        }
        while i < count
            invariant
                i <= count,
                count == experts@.len(),
                listed@ == layer_prefix(layer as int) + ".mlp.experts."@,
                texts(names@) == head + experts_reads(layer as int, experts@, i as int),
            decreases count - i,
        {
            let ghost before = texts(names@);
            let named = joined(listed.as_str(), decimal_text(experts[i]).as_str());
            name_tensor(&mut names, named.as_str(), ".gate_proj.weight");
            name_tensor(&mut names, named.as_str(), ".up_proj.weight");
            name_tensor(&mut names, named.as_str(), ".down_proj.weight");
            i += 1;
            proof {
                assert(texts(names@) =~= before + expert_reads(
                    layer as int,
                    experts@[i - 1] as int,
                ));
                assert(before + expert_reads(layer as int, experts@[i - 1] as int) =~= head
                    + experts_reads(layer as int, experts@, i as int));
            }
        }
        name_tensor(&mut names, m, ".shared_expert.gate_proj.weight");
        name_tensor(&mut names, m, ".shared_expert.up_proj.weight");
        name_tensor(&mut names, m, ".shared_expert.down_proj.weight");
        name_tensor(&mut names, m, ".shared_expert_gate.weight");
    } else {
        name_tensor(&mut names, m, ".gate_proj.weight");
        name_tensor(&mut names, m, ".up_proj.weight");
        name_tensor(&mut names, m, ".down_proj.weight");
    }
    proof {
        assert(texts(names@) =~= feed_forward_reads(*c, layer as int, experts@));
    }
    names
}

/// The tensors that a stage of a pass reads, in order.
pub fn stage_tensors(c: &Qwen3NextConfig, stage: PassStage, experts: &[usize]) -> (names: Vec<
    String,
>)
    requires
        stage matches PassStage::Mixer { layer } ==> c.has_layer_type(layer as int),
        stage matches PassStage::FeedForward { layer } ==> layer < usize::MAX,
    ensures
        texts(names@) == stage_reads(*c, stage, experts@),
{
    match stage {
        PassStage::Embedding => single_name("model.embed_tokens.weight"),
        PassStage::Mixer { layer } => mixer_names(c, layer),
        PassStage::FeedForward { layer } => feed_forward_names(c, layer, experts),
        PassStage::FinalNorm => single_name("model.norm.weight"),
        PassStage::Head => if c.tie_word_embeddings {
            single_name("model.embed_tokens.weight")
        } else {
            single_name("lm_head.weight")
        },
        PassStage::Finished => {
            let names: Vec<String> = Vec::new();
            proof {
                assert(texts(names@) =~= Seq::<Seq<char>>::empty());
            }
            names
        },
    }
}

/// Whether a name is one of required tensors.
pub open spec fn is_required(name: Seq<char>, required: Seq<Required>) -> bool {
    exists|i: int| 0 <= i < required.len() && (#[trigger] required[i]).0 == name
}

/// Whether all names are those of required tensors.
pub open spec fn all_required(names: Seq<Seq<char>>, required: Seq<Required>) -> bool {
    forall|k: int| 0 <= k < names.len() ==> is_required(#[trigger] names[k], required)
}

/// What is required stays so when more is.
proof fn lemma_more_required(name: Seq<char>, a: Seq<Required>, b: Seq<Required>)
    ensures
        is_required(name, a) ==> is_required(name, a + b),
        is_required(name, b) ==> is_required(name, a + b),
{
    if is_required(name, a) {
        let i = choose|i: int| 0 <= i < a.len() && (#[trigger] a[i]).0 == name;
        assert((a + b)[i].0 == name);
    }
    if is_required(name, b) {
        let i = choose|i: int| 0 <= i < b.len() && (#[trigger] b[i]).0 == name;
        assert((a + b)[a.len() + i].0 == name);
    }
}

/// The tensors of an expert are among those of the first `n` experts.
proof fn lemma_expert_required(c: Qwen3NextConfig, layer: int, expert: int, n: int)
    requires
        0 <= expert < n,
    ensures
        all_required(expert_reads(layer, expert), expert_tensors(c, layer, n)),
    decreases n,
{
    let e = layer_prefix(layer) + ".mlp.experts."@ + decimal((n - 1) as nat);
    let wide = c.moe_intermediate_size;
    let before = expert_tensors(c, layer, n - 1);
    let last = seq![
        (e + ".gate_proj.weight"@, seq![wide, c.hidden_size]),
        (e + ".up_proj.weight"@, seq![wide, c.hidden_size]),
        (e + ".down_proj.weight"@, seq![c.hidden_size, wide]),
    ];
    let names = expert_reads(layer, expert);
    if expert < n - 1 {
        lemma_expert_required(c, layer, expert, n - 1);
    }
    assert forall|k: int| 0 <= k < names.len() implies is_required(
        #[trigger] names[k],
        before + last,
    ) by {
        if expert == n - 1 {
            assert(last[k].0 == names[k]);
        }
        lemma_more_required(names[k], before, last);
    }
}

/// The tensors of chosen experts are among those of all experts.
proof fn lemma_experts_required(c: Qwen3NextConfig, layer: int, experts: Seq<usize>, n: int)
    requires
        0 <= n <= experts.len(),
        forall|i: int| 0 <= i < n ==> #[trigger] experts[i] < c.num_experts,
    ensures
        all_required(
            experts_reads(layer, experts, n),
            expert_tensors(c, layer, c.num_experts as int),
        ),
    decreases n,
{
    if n > 0 {
        lemma_experts_required(c, layer, experts, n - 1);
        lemma_expert_required(c, layer, experts[n - 1] as int, c.num_experts as int);
        let a = experts_reads(layer, experts, n - 1);
        let b = expert_reads(layer, experts[n - 1] as int);
        assert forall|k: int| 0 <= k < (a + b).len() implies is_required(
            #[trigger] (a + b)[k],
            expert_tensors(c, layer, c.num_experts as int),
        ) by {
            if k < a.len() {
                assert((a + b)[k] == a[k]);
            } else {
                assert((a + b)[k] == b[k - a.len()]);
            }
        }
    }
}

/// The attention of a layer reads tensors of the layer.
proof fn lemma_mixer_required(c: Qwen3NextConfig, layer: int)
    ensures
        all_required(mixer_reads(c, layer), layer_tensors(c, layer)),
{
    let p = layer_prefix(layer);
    let norms = seq![
        (p + ".input_layernorm.weight"@, seq![c.hidden_size]),
        (p + ".post_attention_layernorm.weight"@, seq![c.hidden_size]),
    ];
    let own = attention_tensors(c, layer);
    let other = feed_forward_tensors(c, layer);
    let names = mixer_reads(c, layer);
    assert forall|k: int| 0 <= k < names.len() implies is_required(
        #[trigger] names[k],
        layer_tensors(c, layer),
    ) by {
        if k == 0 {
            assert(norms[0].0 == names[0]);
        } else {
            let at = match c.type_of(layer) {
                LayerType::FullAttention => if k <= 3 {
                    k - 1
                } else if k <= 5 {
                    k
                } else {
                    3
                },
                LayerType::LinearAttention => if k == 4 {
                    4
                } else if k == 5 {
                    3
                } else {
                    k - 1
                },
            };
            assert(own[at].0 == names[k]);
        }
        lemma_more_required(names[k], norms, own);
        lemma_more_required(names[k], norms + own, other);
    }
}

/// The feed-forward block of a layer reads tensors of the layer.
proof fn lemma_feed_forward_required(c: Qwen3NextConfig, layer: int, experts: Seq<usize>)
    requires
        forall|i: int| 0 <= i < experts.len() ==> #[trigger] experts[i] < c.num_experts,
    ensures
        all_required(feed_forward_reads(c, layer, experts), layer_tensors(c, layer)),
{
    let p = layer_prefix(layer);
    let m = p + ".mlp"@;
    let norms = seq![
        (p + ".input_layernorm.weight"@, seq![c.hidden_size]),
        (p + ".post_attention_layernorm.weight"@, seq![c.hidden_size]),
    ];
    let before = norms + attention_tensors(c, layer);
    let own = feed_forward_tensors(c, layer);
    let names = feed_forward_reads(c, layer, experts);
    lemma_experts_required(c, layer, experts, experts.len() as int);
    let hidden = c.hidden_size;
    let shared = c.shared_expert_intermediate_size;
    let router = seq![(m + ".gate.weight"@, seq![c.num_experts, hidden])];
    let listed = expert_tensors(c, layer, c.num_experts as int);
    let tail = seq![
        (m + ".shared_expert.gate_proj.weight"@, seq![shared, hidden]),
        (m + ".shared_expert.up_proj.weight"@, seq![shared, hidden]),
        (m + ".shared_expert.down_proj.weight"@, seq![hidden, shared]),
        (m + ".shared_expert_gate.weight"@, seq![1usize, hidden]),
    ];
    let middle = experts_reads(layer, experts, experts.len() as int);
    assert forall|k: int| 0 <= k < names.len() implies is_required(
        #[trigger] names[k],
        layer_tensors(c, layer),
    ) by {
        if k == 0 {
            assert(norms[1].0 == names[0]);
            lemma_more_required(names[0], norms, attention_tensors(c, layer));
        } else if c.is_moe(layer) {
            if k == 1 {
                assert(router[0].0 == names[1]);
            } else if k < 2 + middle.len() {
                assert(names[k] == middle[k - 2]);
                assert(is_required(middle[k - 2], listed));
            } else {
                assert(tail[k - 2 - middle.len()].0 == names[k]);
            }
            lemma_more_required(names[k], router, listed);
            lemma_more_required(names[k], router + listed, tail);
        } else {
            assert(own[k - 1].0 == names[k]);
        }
        lemma_more_required(names[k], before, own);
    }
}

/// The tensors of a layer are among those of the first `n` layers.
proof fn lemma_layer_required(c: Qwen3NextConfig, name: Seq<char>, layer: int, n: int)
    requires
        0 <= layer < n,
        is_required(name, layer_tensors(c, layer)),
    ensures
        is_required(name, model_tensors(c, n)),
    decreases n,
{
    if layer < n - 1 {
        lemma_layer_required(c, name, layer, n - 1);
    }
    lemma_more_required(name, model_tensors(c, n - 1), layer_tensors(c, n - 1));
}

/// The tensors outside the layers are required as well.
proof fn lemma_outer_required(c: Qwen3NextConfig, n: int)
    requires
        0 <= n,
    ensures
        is_required("model.embed_tokens.weight"@, model_tensors(c, n)),
        is_required("model.norm.weight"@, model_tensors(c, n)),
        is_required("lm_head.weight"@, model_tensors(c, n)),
    decreases n,
{
    if n > 0 {
        lemma_outer_required(c, n - 1);
        lemma_more_required(
            "model.embed_tokens.weight"@,
            model_tensors(c, n - 1),
            layer_tensors(c, n - 1),
        );
        lemma_more_required(
            "model.norm.weight"@,
            model_tensors(c, n - 1),
            layer_tensors(c, n - 1),
        );
        lemma_more_required("lm_head.weight"@, model_tensors(c, n - 1), layer_tensors(c, n - 1));
    } else {
        let outer = model_tensors(c, 0);
        assert(outer[0].0 == "model.embed_tokens.weight"@);
        assert(outer[1].0 == "model.norm.weight"@);
        assert(outer[2].0 == "lm_head.weight"@);
    }
}

/// A checkpoint that has every tensor it must have never lacks one in the middle
/// of a pass: whatever a stage reads, for whatever experts were chosen, is among
/// the tensors that were checked when the checkpoint was opened.
pub proof fn a_pass_reads_only_required_tensors(
    c: Qwen3NextConfig,
    stage: PassStage,
    experts: Seq<usize>,
)
    requires
        stage matches PassStage::Mixer { layer } ==> layer < c.num_hidden_layers,
        stage matches PassStage::FeedForward { layer } ==> layer < c.num_hidden_layers,
        forall|i: int| 0 <= i < experts.len() ==> #[trigger] experts[i] < c.num_experts,
    ensures
        all_required(
            stage_reads(c, stage, experts),
            model_tensors(c, c.num_hidden_layers as int),
        ),
{
    let n = c.num_hidden_layers as int;
    lemma_outer_required(c, n);
    match stage {
        PassStage::Mixer { layer } => {
            lemma_mixer_required(c, layer as int);
            let names = mixer_reads(c, layer as int);
            assert forall|k: int| 0 <= k < names.len() implies is_required(
                #[trigger] names[k],
                model_tensors(c, n),
            ) by {
                lemma_layer_required(c, names[k], layer as int, n);
            }
        },
        PassStage::FeedForward { layer } => {
            lemma_feed_forward_required(c, layer as int, experts);
            let names = feed_forward_reads(c, layer as int, experts);
            assert forall|k: int| 0 <= k < names.len() implies is_required(
                #[trigger] names[k],
                model_tensors(c, n),
            ) by {
                lemma_layer_required(c, names[k], layer as int, n);
            }
        },
        _ => {},
    }
}

/// A row of hidden numbers with the shared expert's row added, scaled by how far
/// the row selects it.
pub open spec fn with_shared<T, A: Arithmetic<T>>(
    math: A,
    routed: Seq<T>,
    shared: Seq<T>,
    selected: Seq<T>,
    hidden: int,
) -> Seq<T> {
    Seq::new(
        routed.len(),
        |i: int| math.sum(routed[i], math.product(shared[i], selected[i / hidden])),
    )
}

/// Adds the shared expert's rows to the routed rows; each row is scaled by how
/// far it selects the shared expert.
pub fn add_shared<T: Copy, A: Arithmetic<T>>(
    math: &A,
    routed: &[T],
    shared: &[T],
    selected: &[T],
    hidden: usize,
) -> (out: Vec<T>)
    requires
        hidden > 0,
        routed@.len() == selected@.len() * hidden,
        shared@.len() == routed@.len(),
    ensures
        out@ == with_shared(*math, routed@, shared@, selected@, hidden as int),
{
    let total: usize = routed.len();
    let rows: usize = selected.len();
    let mut out: Vec<T> = Vec::new();
    let mut i: usize = 0;
    while i < total
        invariant
            hidden > 0,
            total == routed@.len(),
            rows == selected@.len(),
            total == rows * hidden,
            shared@.len() == total,
            i <= total,
            out@.len() == i,
            forall|k: int|
                0 <= k < i ==> #[trigger] out@[k] == with_shared(
                    *math,
                    routed@,
                    shared@,
                    selected@,
                    hidden as int,
                )[k],
        decreases total - i,
    {
        let row: usize = i / hidden;
        proof {
            assert(row < rows) by (nonlinear_arith)
                requires
                    row == i as int / hidden as int,
                    i < total,
                    total == rows * hidden,
                    hidden > 0,
            ;
        }
        out.push(math.plus(routed[i], math.times(shared[i], selected[row])));
        i += 1;
    }
    proof {
        assert(out@ =~= with_shared(*math, routed@, shared@, selected@, hidden as int));
    }
    out
}

/// The views of the results of several rows.
pub open spec fn row_views<T>(results: Seq<Vec<Vec<T>>>) -> Seq<Seq<Seq<T>>> {
    Seq::new(results.len(), |r: int| result_views(results[r]@))
}

/// Whether every row has one result of the given width per expert of its route.
pub open spec fn results_fit<T>(
    routes: Seq<Route<T>>,
    results: Seq<Vec<Vec<T>>>,
    hidden: int,
) -> bool {
    &&& results.len() == routes.len()
    &&& forall|r: int|
        0 <= r < routes.len() ==> (#[trigger] results[r])@.len() == routes[r].weights@.len()
    &&& forall|r: int, i: int|
        0 <= r < routes.len() && 0 <= i < results[r]@.len() ==> (#[trigger] results[r]@[i])@.len()
            == hidden
}

/// What the routed experts give, token after token.
pub fn combine_tokens<T: Copy, A: Arithmetic<T>>(
    math: &A,
    routes: &Vec<Route<T>>,
    results: &Vec<Vec<Vec<T>>>,
    hidden: usize,
) -> (out: Vec<T>)
    requires
        results_fit(routes@, results@, hidden as int),
    ensures
        out@ == routed_sum(
            *math,
            routes@,
            row_views(results@),
            hidden as nat,
            routes@.len() as int,
        ),
{
    let mut out: Vec<T> = Vec::new();
    let mut row: usize = 0;
    while row < routes.len()
        invariant
            results_fit(routes@, results@, hidden as int),
            row <= routes@.len(),
            out@ == routed_sum(*math, routes@, row_views(results@), hidden as nat, row as int),
        decreases routes@.len() - row,
    {
        let sum: Vec<T> = combine_row(math, &routes[row].weights, &results[row], hidden);
        append_all(&mut out, sum.as_slice());
        proof {
            assert(row_views(results@)[row as int] == result_views(results@[row as int]@));
        }
        row += 1;
    }
    out
}

/// Puts together what the experts of a layer gave for a pass: for each token the
/// weighted results of its route in order, and the shared expert's row, scaled by
/// how far the token selects it. A pass whose routes are not one per token is
/// refused.
pub fn sparse_moe<T: Copy, A: Arithmetic<T>>(
    math: &A,
    layer: usize,
    tokens: usize,
    routes: &Vec<Route<T>>,
    results: &Vec<Vec<Vec<T>>>,
    shared: &[T],
    selected: &[T],
    hidden: usize,
) -> (out: Result<Vec<T>, PassError>)
    requires
        hidden > 0,
        results_fit(routes@, results@, hidden as int),
        selected@.len() == routes@.len(),
        shared@.len() == routes@.len() * hidden,
    ensures
        match out {
            Ok(out) => routes@.len() == tokens && out@ == with_shared(
                *math,
                routed_sum(
                    *math,
                    routes@,
                    row_views(results@),
                    hidden as nat,
                    routes@.len() as int,
                ),
                shared@,
                selected@,
                hidden as int,
            ),
            Err(error) => routes@.len() != tokens && error == (PassError::RouteCount {
                layer,
                routes: routes@.len() as usize,
                tokens,
            }),
        },
{
    if routes.len() != tokens {
        return Err(PassError::RouteCount { layer, routes: routes.len(), tokens });
    }
    let routed: Vec<T> = combine_tokens(math, routes, results, hidden);
    proof {
        lemma_routed_len(
            *math,
            routes@,
            row_views(results@),
            hidden as nat,
            routes@.len() as int,
        );
    }
    Ok(add_shared(math, routed.as_slice(), shared, selected, hidden))
}

} // verus!
