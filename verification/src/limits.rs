//! Which sizes fit the machine. What is read from a file can be any number; these
//! functions say beforehand whether the sizes made of it can be counted.

use crate::config::{LayerType, Qwen3NextConfig};
use crate::gguf::{block_size, countable, elements, type_size, GgufCheckpoint, HeaderTensor};
use crate::loader::widths_fit;
use crate::prompt_cache::format::{archive_fits, data_bytes, image_rows, layer_row, ElementType};
use crate::qwen::attention::QuantizedAttentionLayer;
use crate::qwen::delta_layer::QuantizedDeltaLayer;
use crate::qwen::delta_state::DeltaGeometry;
use crate::qwen::layers::delta_of;
use crate::qwen::model_load::{kind_fits, layer_fits, loadable, tensors_fit};
use crate::qwen::model_state::{LayerStateImage, SessionImage};
use crate::qwen::scan::{MIN_COLUMN_BLOCK, MIN_PAST_BLOCK};
use vstd::prelude::*;

verus! {

/// A product, where it and its first factor can be counted.
fn times(a: Option<usize>, b: usize) -> (product: Option<usize>)
    ensures
        product is Some <==> a is Some && a->Some_0 * b <= usize::MAX,
        product is Some ==> product->Some_0 == a->Some_0 * b,
{
    match a {
        Some(a) => a.checked_mul(b),
        None => None,
    }
}

/// A sum, where it and its terms can be counted.
fn plus(a: Option<usize>, b: Option<usize>) -> (sum: Option<usize>)
    ensures
        sum is Some <==> a is Some && b is Some && a->Some_0 + b->Some_0 <= usize::MAX,
        sum is Some ==> sum->Some_0 == a->Some_0 + b->Some_0,
{
    match (a, b) {
        (Some(a), Some(b)) => a.checked_add(b),
        _ => None,
    }
}

/// The number of elements of a shape, where it can be counted dimension by
/// dimension.
pub fn counted(shape: &Vec<usize>) -> (count: Option<usize>)
    ensures
        count is Some <==> countable(shape@),
        count is Some ==> count->Some_0 == elements(shape@),
{
    let mut count: usize = 1;
    let mut i: usize = 0;
    while i < shape.len()
        invariant
            i <= shape@.len(),
            count == elements(shape@.take(i as int)),
            forall|k: int|
                0 <= k <= i ==> elements(#[trigger] shape@.take(k)) <= usize::MAX,
        decreases shape@.len() - i,
    {
        proof {
            assert(shape@.take(i + 1).drop_last() =~= shape@.take(i as int));
        }
        match count.checked_mul(shape[i]) {
            Some(next) => {
                count = next;
            },
            None => {
                assert(elements(shape@.take(i + 1)) > usize::MAX);
                return None;
            },
        }
        i += 1;
    }
    proof {
        assert(shape@.take(shape@.len() as int) =~= shape@);
    }
    Some(count)
}

/// The bytes of the first `n` tensors of an archive, where each of them can be
/// counted in bits and all of them in bytes.
spec fn laid_out(rows: Seq<(Seq<char>, (Option<ElementType>, Seq<u8>))>, n: int) -> Option<nat> {
    if (forall|i: int| 0 <= i < n ==> (#[trigger] rows[i]).1.1.len() * 8 <= usize::MAX)
        && data_bytes(rows.take(n)) <= usize::MAX {
        Some(data_bytes(rows.take(n)))
    } else {
        None
    }
}

/// What one more tensor, of `words` words, adds to an archive.
proof fn lemma_one_more(
    rows: Seq<(Seq<char>, (Option<ElementType>, Seq<u8>))>,
    n: int,
    words: nat,
)
    requires
        0 <= n < rows.len(),
        rows[n].1.1.len() == words * 4,
    ensures
        laid_out(rows, n + 1) == (if laid_out(rows, n) is Some && words * 4 * 8 <= usize::MAX
            && laid_out(rows, n)->0 + words * 4 <= usize::MAX {
            Some((laid_out(rows, n)->0 + words * 4) as nat)
        } else {
            None
        }),
{
    assert(rows.take(n + 1).drop_last() =~= rows.take(n));
    assert(rows.take(n + 1).last() == rows[n]);
    if laid_out(rows, n + 1) is Some {
        assert(rows[n].1.1.len() * 8 <= usize::MAX);
    }
}

/// The bytes of an archive with one more tensor, of `words` words.
fn one_more(total: Option<usize>, words: usize) -> (more: Option<usize>)
    ensures
        more is Some <==> total is Some && words * 4 * 8 <= usize::MAX && total->Some_0 + words * 4
            <= usize::MAX,
        more is Some ==> more->Some_0 == total->Some_0 + words * 4,
{
    let bytes: Option<usize> = times(Some(words), 4);
    match times(bytes, 8) {
        Some(_) => plus(total, bytes),
        None => None,
    }
}

/// Whether an image can be laid out in memory as an entry.
pub fn is_storable(image: &SessionImage<u32>) -> (fits: bool)
    ensures
        fits == archive_fits(image_rows(image@)),
{
    let ghost rows = image_rows(image@);
    let ghost n = image@.model.layers.len() as int;
    proof {
        assert(rows.take(0) =~= Seq::empty());
        lemma_one_more(rows, 0, image.tokens@.len());
    }
    let mut total: Option<usize> = one_more(Some(0), image.tokens.len());
    let mut i: usize = 0;
    while i < image.model.layers.len()
        invariant
            i <= image.model.layers@.len(),
            rows == image_rows(image@),
            total is Some == laid_out(rows, 1 + 2 * i) is Some,
            total is Some ==> total->Some_0 == laid_out(rows, 1 + 2 * i)->0,
        decreases image.model.layers@.len() - i,
    {
        let (first, second): (usize, usize) = match &image.model.layers[i] {
            LayerStateImage::Full(state) => (state.keys.len(), state.values.len()),
            LayerStateImage::Linear(state) => (state.conv().len(), state.recurrent().len()),
        };
        proof {
            assert(image@.model.layers[i as int] == image.model.layers@[i as int]@);
            assert((2 * i + 1 - 1) / 2 == i && (2 * i + 2 - 1) / 2 == i);
            assert(rows[1 + 2 * i] == layer_row(image@.model.layers[i as int], i as int, false));
            assert(rows[2 + 2 * i] == layer_row(image@.model.layers[i as int], i as int, true));
            lemma_one_more(rows, 1 + 2 * i, first as nat);
            lemma_one_more(rows, 2 + 2 * i, second as nat);
        }
        total = one_more(one_more(total, first), second);
        i += 1;
    }
    match &image.mtp {
        Some(mtp) => {
            proof {
                lemma_one_more(rows, 1 + 2 * n, mtp.keys@.len());
                lemma_one_more(rows, 2 + 2 * n, mtp.values@.len());
            }
            total = one_more(one_more(total, mtp.keys.len()), mtp.values.len());
        },
        None => {},
    }
    match &image.last_target_hidden {
        Some(hidden) => {
            proof {
                lemma_one_more(rows, rows.len() - 1, hidden@.len());
            }
            total = one_more(total, hidden.len());
        },
        None => {},
    }
    proof {
        assert(rows.take(rows.len() as int) =~= rows);
    }
    match total {
        Some(total) => total <= isize::MAX as usize - 100_000_008,
        None => false,
    }
}

impl HeaderTensor {
    /// Whether the place and the size of the data fit the machine.
    pub fn is_countable(&self, data: u64) -> (fits: bool)
        ensures
            fits == self.fits(data),
    {
        let count: usize = match counted(&self.shape) {
            Some(count) => count,
            None => {
                return false;
            },
        };
        let blocks: usize = count / block_size(self.dtype);
        let bytes: Option<usize> = times(Some(blocks), type_size(self.dtype));
        bytes.is_some() && data.checked_add(self.offset).is_some()
    }
}

impl GgufCheckpoint {
    /// Whether the places and the sizes of all tensors fit the machine.
    pub fn is_countable(&self) -> (fits: bool)
        ensures
            fits == tensors_fit(*self),
    {
        let mut i: usize = 0;
        while i < self.tensors.len()
            invariant
                i <= self.tensors@.len(),
                forall|j: int|
                    0 <= j < i ==> (#[trigger] self.tensors@[j]).fits(self.tensor_data_offset),
            decreases self.tensors@.len() - i,
        {
            if !self.tensors[i].is_countable(self.tensor_data_offset) {
                return false;
            }
            i += 1;
        }
        true
    }
}

/// Whether the widths of a configuration's tensors fit the machine.
pub fn widths_are_countable(c: &Qwen3NextConfig) -> (fits: bool)
    ensures
        fits == widths_fit(*c),
{
    let query: Option<usize> = times(times(Some(c.num_attention_heads), c.head_dim), 2);
    let kv: Option<usize> = times(Some(c.num_key_value_heads), c.head_dim);
    let keys: Option<usize> = times(
        times(Some(c.linear_num_key_heads), c.linear_key_head_dim),
        2,
    );
    let values: Option<usize> = times(
        times(Some(c.linear_num_value_heads), c.linear_value_head_dim),
        2,
    );
    let gates: Option<usize> = times(Some(c.linear_num_value_heads), 2);
    query.is_some() && kv.is_some() && plus(keys, values).is_some() && gates.is_some()
}

impl DeltaGeometry {
    /// Whether there is a kernel, and the widths and lengths of a linear layer
    /// with heads of some width fit the machine.
    pub fn is_countable(&self) -> (fits: bool)
        requires
            self.key_head_dim > 0,
            self.value_head_dim > 0,
        ensures
            fits == self.fits(),
    {
        if self.conv_kernel == 0 {
            return false;
        }
        let keys: Option<usize> = times(times(Some(self.key_heads), self.key_head_dim), 2);
        let values: Option<usize> = times(Some(self.value_heads), self.value_head_dim);
        let conv: Option<usize> = plus(keys, values);
        let history: Option<usize> = times(conv, self.conv_kernel - 1);
        let repeated: Option<usize> = times(Some(self.value_heads), self.key_head_dim);
        let state: Option<usize> = times(repeated, self.value_head_dim);
        proof {
            let h = self.value_heads as int;
            let k = self.key_head_dim as int;
            let v = self.value_head_dim as int;
            assert(h * k <= h * k * v) by (nonlinear_arith)
                requires
                    0 <= h,
                    0 < k,
                    0 < v,
            ;
        }
        keys.is_some() && values.is_some() && conv.is_some() && history.is_some()
            && repeated.is_some() && state.is_some()
    }
}

impl QuantizedDeltaLayer {
    /// Whether a layer has key heads, its heads have some width, its value heads
    /// are shared out evenly, and its widths and lengths fit the machine.
    pub fn is_well_formed(&self) -> (fits: bool)
        ensures
            fits == self.wf(),
    {
        let g: DeltaGeometry = self.geometry;
        if g.key_heads == 0 || g.key_head_dim == 0 || g.value_head_dim == 0 {
            return false;
        }
        if !g.is_countable() || g.value_heads % g.key_heads != 0 {
            return false;
        }
        let values: Option<usize> = times(Some(g.value_heads), g.value_head_dim);
        let keys: Option<usize> = times(times(Some(g.key_heads), g.key_head_dim), 2);
        let row: Option<usize> = plus(plus(keys, values), values);
        times(Some(g.value_heads), 2).is_some() && row.is_some() && times(
            Some(g.key_head_dim),
            g.value_head_dim,
        ).is_some()
    }
}

/// Whether the widths of a configuration's layers of one kind fit the machine.
pub fn layers_are_countable(config: &Qwen3NextConfig, kind: LayerType) -> (fits: bool)
    ensures
        fits == kind_fits(*config, kind),
{
    match kind {
        LayerType::FullAttention => {
            let attention: QuantizedAttentionLayer = QuantizedAttentionLayer::of(config);
            let query: Option<usize> = times(
                times(Some(attention.query_heads), attention.head_dim),
                2,
            );
            let kv: Option<usize> = times(Some(attention.kv_heads), attention.head_dim);
            query.is_some() && kv.is_some()
        },
        LayerType::LinearAttention => {
            let delta: QuantizedDeltaLayer = QuantizedDeltaLayer::of(config, true);
            assert(delta == delta_of(*config, true));
            let g: DeltaGeometry = delta.geometry;
            let keys: Option<usize> = times(times(Some(g.key_heads), g.key_head_dim), 2);
            let values: Option<usize> = times(Some(g.value_heads), g.value_head_dim);
            let conv: Option<usize> = plus(keys, values);
            times(conv, config.linear_conv_kernel_dim).is_some() && times(
                Some(g.value_heads),
                2,
            ).is_some()
        },
    }
}

/// Whether a layer of a configuration has a kind.
pub fn layer_is_typed(config: &Qwen3NextConfig, layer: usize) -> (typed: bool)
    ensures
        typed == config.has_layer_type(layer as int),
{
    match &config.layer_types {
        Some(types) => layer < types.len(),
        None => layer < usize::MAX,
    }
}

/// Whether every layer of a configuration has a kind, and layers of that kind
/// fit the machine.
fn layers_fit(config: &Qwen3NextConfig) -> (fit: bool)
    ensures
        fit == forall|layer: int|
            0 <= layer < config.num_hidden_layers ==> #[trigger] layer_fits(*config, layer),
{
    let full: bool = layers_are_countable(config, LayerType::FullAttention);
    let linear: bool = layers_are_countable(config, LayerType::LinearAttention);
    let mut layer: usize = 0;
    while layer < config.num_hidden_layers
        invariant
            full == kind_fits(*config, LayerType::FullAttention),
            linear == kind_fits(*config, LayerType::LinearAttention),
            forall|i: int| 0 <= i < layer ==> #[trigger] layer_fits(*config, i),
        decreases config.num_hidden_layers - layer,
    {
        if !layer_is_typed(config, layer) {
            assert(!layer_fits(*config, layer as int));
            return false;
        }
        let fits: bool = match config.layer_type(layer) {
            LayerType::FullAttention => full,
            LayerType::LinearAttention => linear,
        };
        if !fits {
            assert(!layer_fits(*config, layer as int));
            return false;
        }
        layer += 1;
    }
    true
}

/// Whether a checkpoint and a configuration can be held against each other: all
/// sizes fit the machine, and every layer has a kind.
pub fn is_loadable(checkpoint: &GgufCheckpoint, config: &Qwen3NextConfig) -> (fits: bool)
    ensures
        fits == loadable(*checkpoint, *config),
{
    if config.mtp_num_hidden_layers == 1 {
        if !layers_are_countable(config, LayerType::FullAttention) {
            return false;
        }
        if times(Some(config.hidden_size), 2).is_none() {
            return false;
        }
    }
    checkpoint.is_countable() && layers_fit(config)
}

impl QuantizedAttentionLayer {
    /// Whether the heads of a layer are shared out evenly and their widths fit
    /// the machine.
    pub open spec fn heads_fit(&self) -> bool {
        &&& self.head_dim > 0
        &&& self.head_dim * 2 <= usize::MAX
        &&& self.kv_heads > 0
        &&& self.query_heads > 0
        &&& self.query_heads as int % self.kv_heads as int == 0
        &&& self.rotary_dim <= self.head_dim
    }

    /// Whether a pass of `seq` rows behind `positions` cached ones fits the
    /// machine.
    pub open spec fn has_room(&self, positions: int, seq: int, threads: int) -> bool {
        &&& (positions + seq) * self.kv_heads * self.head_dim * 2 * 4 <= usize::MAX
        &&& positions + seq + MIN_PAST_BLOCK <= usize::MAX
        &&& self.head_dim + MIN_COLUMN_BLOCK <= usize::MAX
        &&& self.query_heads * (positions + seq) <= usize::MAX
        &&& self.query_heads * self.head_dim <= usize::MAX
        &&& seq * self.query_heads * self.head_dim <= usize::MAX
        &&& 2 * threads <= usize::MAX
    }

    /// Whether the heads of a layer, and a pass through it, fit the machine.
    pub fn takes_pass(&self, positions: usize, seq: usize, threads: usize) -> (fits: bool)
        ensures
            fits == (self.heads_fit() && self.has_room(
                positions as int,
                seq as int,
                threads as int,
            )),
    {
        if self.head_dim == 0 || self.kv_heads == 0 || self.query_heads == 0 || self.rotary_dim
            > self.head_dim {
            return false;
        }
        if self.query_heads % self.kv_heads != 0 || times(Some(self.head_dim), 2).is_none() {
            return false;
        }
        let total: Option<usize> = plus(Some(positions), Some(seq));
        let cells: Option<usize> = times(times(total, self.kv_heads), self.head_dim);
        let bytes: Option<usize> = times(times(cells, 2), 4);
        let rows: Option<usize> = times(times(Some(seq), self.query_heads), self.head_dim);
        proof {
            let p = positions + seq;
            let k = self.kv_heads as int;
            let d = self.head_dim as int;
            let q = self.query_heads as int;
            assert(p <= p * k && p * k <= p * k * d && p * k * d <= p * k * d * 2 && p * k * d * 2
                <= p * k * d * 2 * 4) by (nonlinear_arith)
                requires
                    0 <= p,
                    0 < k,
                    0 < d,
            ;
            assert(seq * q <= seq * q * d) by (nonlinear_arith)
                requires
                    0 <= seq,
                    0 < q,
                    0 < d,
            ;
            assert(p * q == q * p) by (nonlinear_arith);
        }
        bytes.is_some() && plus(total, Some(MIN_PAST_BLOCK)).is_some() && plus(
            Some(self.head_dim),
            Some(MIN_COLUMN_BLOCK),
        ).is_some() && times(total, self.query_heads).is_some() && times(
            Some(self.query_heads),
            self.head_dim,
        ).is_some() && rows.is_some() && times(Some(threads), 2).is_some()
    }
}

} // verus!
