//! One full-attention layer between its projections: normalized and rotated
//! queries and keys, the cache that grows by the pass, and the scan over it.

use super::attention_state::QuantizedAttentionState;
use super::blocked::blocked_scan;
use super::per_head::per_head_scan;
use super::scan::{has_rows, lemma_cell_inside, scan_of, ScanPlan, ScanShape, ScanTimes};
use crate::arithmetic::{Arithmetic, Clock};
use crate::buffers::append_all;
use crate::config::Qwen3NextConfig;
use vstd::prelude::*;

verus! {

/// The heads of an attention layer.
#[derive(Debug, Clone, Copy, PartialEq, Eq, Structural)]
pub struct QuantizedAttentionLayer {
    pub hidden_size: usize,
    pub query_heads: usize,
    pub kv_heads: usize,
    pub head_dim: usize,
    pub rotary_dim: usize,
}

/// Why a layer's weights or a pass are refused.
#[derive(Debug, Clone, Copy, PartialEq, Eq, Structural)]
pub enum AttentionError {
    /// The query and gate matrix has another shape.
    QueryShape,
    /// The key or the value matrix has another shape.
    KeyValueShape,
    /// The output matrix has another shape.
    OutputShape,
    /// The query or the key norm has another length.
    NormLength,
    /// The cache is at another position.
    PositionMismatch,
    /// The input is not made of whole rows.
    PartialRow,
}

impl QuantizedAttentionLayer {
    /// The geometry of a model's attention layers.
    pub fn of(config: &Qwen3NextConfig) -> (geometry: QuantizedAttentionLayer)
        ensures
            geometry == (QuantizedAttentionLayer {
                hidden_size: config.hidden_size,
                query_heads: config.num_attention_heads,
                kv_heads: config.num_key_value_heads,
                head_dim: config.head_dim,
                rotary_dim: config.rotary_dim,
            }),
    {
        QuantizedAttentionLayer {
            hidden_size: config.hidden_size,
            query_heads: config.num_attention_heads,
            kv_heads: config.num_key_value_heads,
            head_dim: config.head_dim,
            rotary_dim: config.rotary_dim(),
        }
    }

    /// Widths that fit the machine.
    pub open spec fn fits(&self) -> bool {
        &&& self.query_heads * self.head_dim * 2 <= usize::MAX
        &&& self.kv_heads * self.head_dim <= usize::MAX
    }

    /// Why matrices of these shapes are refused, if they are.
    pub open spec fn matrix_problem(
        &self,
        query: Seq<usize>,
        key: Seq<usize>,
        value: Seq<usize>,
        output: Seq<usize>,
    ) -> Option<AttentionError> {
        let wide = self.query_heads * self.head_dim;
        let kv = self.kv_heads * self.head_dim;
        if query != seq![(wide * 2) as usize, self.hidden_size] {
            Some(AttentionError::QueryShape)
        } else if key != seq![kv as usize, self.hidden_size] || value != key {
            Some(AttentionError::KeyValueShape)
        } else if output != seq![self.hidden_size, wide as usize] {
            Some(AttentionError::OutputShape)
        } else {
            None
        }
    }

    /// Accepts the matrices of a layer.
    pub fn check_matrices(
        &self,
        query: [usize; 2],
        key: [usize; 2],
        value: [usize; 2],
        output: [usize; 2],
    ) -> (result: Result<(), AttentionError>)
        requires
            self.fits(),
        ensures
            match self.matrix_problem(query@, key@, value@, output@) {
                Some(problem) => result == Err::<(), AttentionError>(problem),
                None => result is Ok,
            },
    {
        proof {
            assert(self.query_heads * self.head_dim >= 0) by (nonlinear_arith);
        }
        let wide: usize = self.query_heads * self.head_dim;
        let kv: usize = self.kv_heads * self.head_dim;
        if query[0] != wide * 2 || query[1] != self.hidden_size {
            return Err(AttentionError::QueryShape);
        }
        proof {
            assert(query@ =~= seq![(wide * 2) as usize, self.hidden_size]);
        }
        if key[0] != kv || key[1] != self.hidden_size || value[0] != key[0] || value[1] != key[1] {
            return Err(AttentionError::KeyValueShape);
        }
        proof {
            assert(key@ =~= seq![kv as usize, self.hidden_size]);
            assert(value@ =~= key@);
        }
        if output[0] != self.hidden_size || output[1] != wide {
            return Err(AttentionError::OutputShape);
        }
        proof {
            assert(output@ =~= seq![self.hidden_size, wide as usize]);
        }
        Ok(())
    }

    /// Accepts the norms of a layer.
    pub fn check_norms(&self, query_norm: usize, key_norm: usize) -> (result: Result<
        (),
        AttentionError,
    >)
        ensures
            result == if query_norm == self.head_dim && key_norm == self.head_dim {
                Ok::<(), AttentionError>(())
            } else {
                Err::<(), AttentionError>(AttentionError::NormLength)
            },
    {
        if query_norm == self.head_dim && key_norm == self.head_dim {
            Ok(())
        } else {
            Err(AttentionError::NormLength)
        }
    }

    /// The number of rows of an input of `elements` numbers, if the cache is at
    /// the pass's position and the rows are whole.
    pub fn check_pass(&self, elements: usize, position: usize, cached: usize) -> (seq: Result<
        usize,
        AttentionError,
    >)
        requires
            cached == position && elements == 0 ==> self.hidden_size > 0,
        ensures
            seq == if cached != position {
                Err::<usize, AttentionError>(AttentionError::PositionMismatch)
            } else if self.hidden_size == 0 || elements as int % self.hidden_size as int != 0 {
                Err::<usize, AttentionError>(AttentionError::PartialRow)
            } else {
                Ok::<usize, AttentionError>((elements as int / self.hidden_size as int) as usize)
            },
    {
        if cached != position {
            return Err(AttentionError::PositionMismatch);
        }
        if self.hidden_size == 0 || elements % self.hidden_size != 0 {
            return Err(AttentionError::PartialRow);
        }
        Ok(elements / self.hidden_size)
    }
}

/// The sum of the squares of the first `n` numbers.
pub open spec fn squares_of<T, A: Arithmetic<T>>(math: A, v: Seq<T>, n: int) -> T
    decreases n,
{
    if n <= 0 {
        math.empty_of()
    } else {
        math.sum(squares_of(math, v, n - 1), math.product(v[n - 1], v[n - 1]))
    }
}

/// The factor that brings numbers to a mean square of one.
pub open spec fn norm_scale<T, A: Arithmetic<T>>(math: A, v: Seq<T>, eps: T) -> T {
    math.inverse(
        math.root(
            math.sum(
                math.quotient(squares_of(math, v, v.len() as int), math.count_of(v.len())),
                eps,
            ),
        ),
    )
}

/// Numbers brought to a mean square of one and weighted. The weights are used
/// as they are, without an offset.
pub open spec fn normed<T, A: Arithmetic<T>>(math: A, v: Seq<T>, weight: Seq<T>, eps: T) -> Seq<T> {
    Seq::new(
        v.len(),
        |i: int| math.product(math.product(v[i], norm_scale(math, v, eps)), weight[i]),
    )
}

/// The sum of the squares of numbers.
pub fn sum_of_squares<T: Copy, A: Arithmetic<T>>(math: &A, values: &Vec<T>) -> (total: T)
    ensures
        total == squares_of(*math, values@, values@.len() as int),
{
    let mut total: T = math.empty_sum();
    let mut i: usize = 0;
    while i < values.len()
        invariant
            i <= values@.len(),
            total == squares_of(*math, values@, i as int),
        decreases values@.len() - i,
    {
        total = math.plus(total, math.times(values[i], values[i]));
        i += 1;
    }
    total
}

/// Brings numbers to a mean square of one and weights them.
pub fn converted_norm<T: Copy, A: Arithmetic<T>>(
    math: &A,
    values: &mut Vec<T>,
    weight: &[T],
    eps: T,
)
    requires
        old(values)@.len() == weight@.len(),
    ensures
        final(values)@ == normed(*math, old(values)@, weight@, eps),
{
    let ghost v = values@;
    let n: usize = values.len();
    let variance: T = math.over(sum_of_squares(math, values), math.count(n));
    let scale: T = math.recip(math.sqrt(math.plus(variance, eps)));
    let mut i: usize = 0;
    while i < n
        invariant
            n == v.len(),
            weight@.len() == n,
            scale == norm_scale(*math, v, eps),
            i <= n,
            values@.len() == n,
            forall|k: int|
                0 <= k < n ==> #[trigger] values@[k] == if k < i {
                    normed(*math, v, weight@, eps)[k]
                } else {
                    v[k]
                },
        decreases n - i,
    {
        values.set(i, math.times(math.times(values[i], scale), weight[i]));
        i += 1;
    }
    proof {
        assert(values@ =~= normed(*math, v, weight@, eps));
    }
}

/// Numbers of which the first are rotated in pairs, half a rotary width apart.
/// A rotation is given by its cosine and its sine.
pub open spec fn rotated<T, A: Arithmetic<T>>(
    math: A,
    v: Seq<T>,
    half: int,
    rotations: Seq<(T, T)>,
) -> Seq<T> {
    Seq::new(
        v.len(),
        |i: int|
            if i < half {
                math.difference(
                    math.product(v[i], rotations[i].0),
                    math.product(v[half + i], rotations[i].1),
                )
            } else if i < 2 * half {
                math.sum(
                    math.product(v[i], rotations[i - half].0),
                    math.product(v[i - half], rotations[i - half].1),
                )
            } else {
                v[i]
            },
    )
}

/// Rotates the first numbers in pairs and leaves the others.
pub fn apply_rope<T: Copy, A: Arithmetic<T>>(
    math: &A,
    values: &mut Vec<T>,
    rotary_dim: usize,
    rotations: &Vec<(T, T)>,
)
    requires
        rotary_dim <= old(values)@.len(),
        rotations@.len() == rotary_dim / 2,
    ensures
        final(values)@ == rotated(
            *math,
            old(values)@,
            rotary_dim as int / 2,
            rotations@,
        ),
{
    let ghost v = values@;
    let half: usize = rotary_dim / 2;
    let original: Vec<T> = crate::buffers::copied(values.as_slice());
    let mut i: usize = 0;
    while i < half
        invariant
            half == rotary_dim as int / 2,
            rotary_dim <= v.len(),
            original@ == v,
            rotations@.len() == half,
            i <= half,
            values@.len() == v.len(),
            forall|k: int|
                0 <= k < v.len() ==> #[trigger] values@[k] == if k < i || half <= k < half + i {
                    rotated(*math, v, half as int, rotations@)[k]
                } else {
                    v[k]
                },
        decreases half - i,
    {
        let (cos, sin): (T, T) = rotations[i];
        values.set(
            i,
            math.minus(math.times(original[i], cos), math.times(original[half + i], sin)),
        );
        values.set(
            half + i,
            math.plus(math.times(original[half + i], cos), math.times(original[i], sin)),
        );
        i += 1;
    }
    proof {
        assert(values@ =~= rotated(*math, v, half as int, rotations@));
    }
}

/// What lies behind the rotary width is left as it is.
pub proof fn rotation_keeps_the_rest<T, A: Arithmetic<T>>(
    math: A,
    v: Seq<T>,
    rotary_dim: int,
    rotations: Seq<(T, T)>,
    i: int,
)
    requires
        0 <= rotary_dim <= i < v.len(),
    ensures
        rotated(math, v, rotary_dim / 2, rotations)[i] == v[i],
{
}

/// A head of a row of projections, normalized and rotated.
pub open spec fn placed<T, A: Arithmetic<T>>(
    math: A,
    geometry: QuantizedAttentionLayer,
    v: Seq<T>,
    weight: Seq<T>,
    eps: T,
    rotations: Seq<(T, T)>,
) -> Seq<T> {
    rotated(math, normed(math, v, weight, eps), geometry.rotary_dim as int / 2, rotations)
}

/// A head of a flat list of rows, and a part of it.
pub open spec fn head_part<T>(
    flat: Seq<T>,
    heads: int,
    width: int,
    token: int,
    head: int,
    from: int,
    len: int,
) -> Seq<T> {
    let start = (token * heads + head) * width + from;
    flat.subrange(start, start + len)
}

/// A part of one head of a flat list of rows.
fn copy_part<T: Copy>(
    flat: &Vec<T>,
    heads: usize,
    width: usize,
    token: usize,
    head: usize,
    from: usize,
    len: usize,
    Ghost(tokens): Ghost<int>,
) -> (part: Vec<T>)
    requires
        head < heads,
        token < tokens,
        from + len <= width,
        width > 0,
        flat@.len() == tokens * heads * width,
    ensures
        part@ == head_part(
            flat@,
            heads as int,
            width as int,
            token as int,
            head as int,
            from as int,
            len as int,
        ),
        part@.len() == len,
{
    let count: usize = flat.len();
    proof {
        lemma_cell_inside(tokens, heads as int, token as int, head as int);
        lemma_cell_inside(tokens * heads, width as int, token * heads + head, 0);
        let r = token * heads + head;
        assert(r * width + width <= tokens * heads * width && r <= r * width) by (nonlinear_arith)
            requires
                0 <= r < tokens * heads,
                0 < width,
        ;
    }
    let start: usize = (token * heads + head) * width + from;
    crate::buffers::copied(vstd::slice::slice_subrange(flat.as_slice(), start, start + len))
}

/// The queries of a pass: the first half of each head of the projected rows,
/// normalized and rotated.
pub open spec fn are_queries<T, A: Arithmetic<T>>(
    queries: Seq<Vec<Vec<T>>>,
    math: A,
    geometry: QuantizedAttentionLayer,
    projected: Seq<T>,
    weight: Seq<T>,
    eps: T,
    rotations: Seq<Vec<(T, T)>>,
    seq: int,
) -> bool {
    let heads = geometry.query_heads as int;
    let dim = geometry.head_dim as int;
    &&& has_rows(queries, seq, heads, dim)
    &&& forall|t: int, h: int|
        0 <= t < seq && 0 <= h < heads ==> (#[trigger] queries[t]@[h])@ == placed(
            math,
            geometry,
            head_part(projected, heads, dim * 2, t, h, 0, dim),
            weight,
            eps,
            rotations[t]@,
        )
}

/// The gates of a pass: the second half of each head of the projected rows.
pub open spec fn are_gates<T>(
    gates: Seq<Vec<Vec<T>>>,
    geometry: QuantizedAttentionLayer,
    projected: Seq<T>,
    seq: int,
) -> bool {
    let heads = geometry.query_heads as int;
    let dim = geometry.head_dim as int;
    &&& has_rows(gates, seq, heads, dim)
    &&& forall|t: int, h: int|
        0 <= t < seq && 0 <= h < heads ==> (#[trigger] gates[t]@[h])@ == head_part(
            projected,
            heads,
            dim * 2,
            t,
            h,
            dim,
            dim,
        )
}

/// The keys of the first `rows` heads of a pass, one after the other.
pub open spec fn placed_keys<T, A: Arithmetic<T>>(
    math: A,
    geometry: QuantizedAttentionLayer,
    projected: Seq<T>,
    weight: Seq<T>,
    eps: T,
    rotations: Seq<Vec<(T, T)>>,
    rows: int,
) -> Seq<T>
    decreases rows,
{
    if rows <= 0 {
        Seq::empty()
    } else {
        let heads = geometry.kv_heads as int;
        let dim = geometry.head_dim as int;
        let t = (rows - 1) / heads;
        placed_keys(math, geometry, projected, weight, eps, rotations, rows - 1) + placed(
            math,
            geometry,
            head_part(projected, heads, dim, t, (rows - 1) % heads, 0, dim),
            weight,
            eps,
            rotations[t]@,
        )
    }
}

/// Whether the operands of a pass have a layer's dimensions.
pub open spec fn pass_fits<T>(
    geometry: QuantizedAttentionLayer,
    seq: int,
    projected_query: Seq<T>,
    projected_key: Seq<T>,
    projected_value: Seq<T>,
    query_norm: Seq<T>,
    key_norm: Seq<T>,
    rotations: Seq<Vec<(T, T)>>,
) -> bool {
    let dim = geometry.head_dim as int;
    &&& dim > 0
    &&& dim * 2 <= usize::MAX
    &&& geometry.kv_heads > 0
    &&& geometry.query_heads > 0
    &&& geometry.query_heads as int % geometry.kv_heads as int == 0
    &&& geometry.rotary_dim <= dim
    &&& query_norm.len() == dim
    &&& key_norm.len() == dim
    &&& rotations.len() == seq
    &&& forall|t: int|
        0 <= t < seq ==> (#[trigger] rotations[t])@.len() == geometry.rotary_dim as int / 2
    &&& projected_query.len() == seq * geometry.query_heads * (dim * 2)
    &&& projected_key.len() == seq * geometry.kv_heads * dim
    &&& projected_value.len() == seq * geometry.kv_heads * dim
}

/// Splits, normalizes and rotates the queries of a pass.
pub fn place_queries<T: Copy, A: Arithmetic<T>>(
    math: &A,
    geometry: &QuantizedAttentionLayer,
    seq: usize,
    projected: &Vec<T>,
    weight: &[T],
    eps: T,
    rotations: &Vec<Vec<(T, T)>>,
) -> (result: (Vec<Vec<Vec<T>>>, Vec<Vec<Vec<T>>>))
    requires
        geometry.head_dim > 0,
        geometry.head_dim * 2 <= usize::MAX,
        geometry.rotary_dim <= geometry.head_dim,
        weight@.len() == geometry.head_dim,
        rotations@.len() == seq,
        forall|t: int|
            0 <= t < seq ==> (#[trigger] rotations@[t])@.len() == geometry.rotary_dim as int / 2,
        projected@.len() == seq * geometry.query_heads * (geometry.head_dim * 2),
    ensures
        are_queries(
            result.0@,
            *math,
            *geometry,
            projected@,
            weight@,
            eps,
            rotations@,
            seq as int,
        ),
        are_gates(result.1@, *geometry, projected@, seq as int),
{
    let heads: usize = geometry.query_heads;
    let dim: usize = geometry.head_dim;
    let mut queries: Vec<Vec<Vec<T>>> = Vec::new();
    let mut gates: Vec<Vec<Vec<T>>> = Vec::new();
    let mut token: usize = 0;
    while token < seq
        invariant
            heads == geometry.query_heads,
            dim == geometry.head_dim,
            dim > 0,
            dim * 2 <= usize::MAX,
            geometry.rotary_dim <= dim,
            weight@.len() == dim,
            rotations@.len() == seq,
            forall|t: int|
                0 <= t < seq ==> (#[trigger] rotations@[t])@.len() == geometry.rotary_dim as int
                    / 2,
            projected@.len() == seq * heads * (dim * 2),
            token <= seq,
            are_queries(
                queries@,
                *math,
                *geometry,
                projected@,
                weight@,
                eps,
                rotations@,
                token as int,
            ),
            are_gates(gates@, *geometry, projected@, token as int),
        decreases seq - token,
    {
        let mut query_row: Vec<Vec<T>> = Vec::new();
        let mut gate_row: Vec<Vec<T>> = Vec::new();
        let mut head: usize = 0;
        while head < heads
            invariant
                heads == geometry.query_heads,
                dim == geometry.head_dim,
                dim > 0,
                dim * 2 <= usize::MAX,
                geometry.rotary_dim <= dim,
                weight@.len() == dim,
                token < seq,
                rotations@.len() == seq,
                rotations@[token as int]@.len() == geometry.rotary_dim as int / 2,
                projected@.len() == seq * heads * (dim * 2),
                head <= heads,
                query_row@.len() == head,
                gate_row@.len() == head,
                forall|h: int|
                    0 <= h < head ==> (#[trigger] query_row@[h])@ == placed(
                        *math,
                        *geometry,
                        head_part(
                            projected@,
                            heads as int,
                            dim * 2,
                            token as int,
                            h,
                            0,
                            dim as int,
                        ),
                        weight@,
                        eps,
                        rotations@[token as int]@,
                    ) && query_row@[h]@.len() == dim,
                forall|h: int|
                    0 <= h < head ==> (#[trigger] gate_row@[h])@ == head_part(
                        projected@,
                        heads as int,
                        dim * 2,
                        token as int,
                        h,
                        dim as int,
                        dim as int,
                    ) && gate_row@[h]@.len() == dim,
            decreases heads - head,
        {
            let mut query = copy_part(
                projected,
                heads,
                dim * 2,
                token,
                head,
                0,
                dim,
                Ghost(seq as int),
            );
            let gate = copy_part(
                projected,
                heads,
                dim * 2,
                token,
                head,
                dim,
                dim,
                Ghost(seq as int),
            );
            converted_norm(math, &mut query, weight, eps);
            apply_rope(math, &mut query, geometry.rotary_dim, &rotations[token]);
            query_row.push(query);
            gate_row.push(gate);
            head += 1;
        }
        queries.push(query_row);
        gates.push(gate_row);
        token += 1;
    }
    (queries, gates)
}

/// Normalizes and rotates the keys of a pass and appends them, and the values
/// as they are, to the cache.
pub fn append_rows<T: Copy, A: Arithmetic<T>>(
    math: &A,
    geometry: &QuantizedAttentionLayer,
    seq: usize,
    projected_key: &Vec<T>,
    projected_value: &Vec<T>,
    weight: &[T],
    eps: T,
    rotations: &Vec<Vec<(T, T)>>,
    state: &mut QuantizedAttentionState<T>,
)
    requires
        geometry.head_dim > 0,
        geometry.kv_heads > 0,
        geometry.rotary_dim <= geometry.head_dim,
        weight@.len() == geometry.head_dim,
        rotations@.len() == seq,
        forall|t: int|
            0 <= t < seq ==> (#[trigger] rotations@[t])@.len() == geometry.rotary_dim as int / 2,
        projected_key@.len() == seq * geometry.kv_heads * geometry.head_dim,
        projected_value@.len() == seq * geometry.kv_heads * geometry.head_dim,
        old(state).positions + seq <= usize::MAX,
        seq * geometry.kv_heads <= usize::MAX,
    ensures
        final(state).keys@ == old(state).keys@ + placed_keys(
            *math,
            *geometry,
            projected_key@,
            weight@,
            eps,
            rotations@,
            seq * geometry.kv_heads,
        ),
        final(state).values@ == old(state).values@ + projected_value@,
        final(state).positions == old(state).positions + seq,
{
    let heads: usize = geometry.kv_heads;
    let dim: usize = geometry.head_dim;
    let total: usize = seq * heads;
    let ghost keys = state.keys@;
    let ghost values = state.values@;
    let mut row: usize = 0;
    proof {
        assert(keys + placed_keys(
            *math,
            *geometry,
            projected_key@,
            weight@,
            eps,
            rotations@,
            0,
        ) =~= keys);
    }
    while row < total
        invariant
            heads == geometry.kv_heads,
            heads > 0,
            dim == geometry.head_dim,
            dim > 0,
            geometry.rotary_dim <= dim,
            weight@.len() == dim,
            rotations@.len() == seq,
            forall|t: int|
                0 <= t < seq ==> (#[trigger] rotations@[t])@.len() == geometry.rotary_dim as int
                    / 2,
            projected_key@.len() == seq * heads * dim,
            total == seq * heads,
            row <= total,
            state.keys@ == keys + placed_keys(
                *math,
                *geometry,
                projected_key@,
                weight@,
                eps,
                rotations@,
                row as int,
            ),
            state.values@ == values,
            state.positions == old(state).positions,
        decreases total - row,
    {
        proof {
            vstd::arithmetic::div_mod::lemma_fundamental_div_mod(row as int, heads as int);
            let q = row as int / heads as int;
            assert(q < seq) by (nonlinear_arith)
                requires
                    row as int == heads as int * q + row as int % heads as int,
                    0 <= row as int % heads as int,
                    row < seq * heads,
                    heads > 0,
            ;
        }
        let token: usize = row / heads;
        let head: usize = row % heads;
        let mut key = copy_part(
            projected_key,
            heads,
            dim,
            token,
            head,
            0,
            dim,
            Ghost(seq as int),
        );
        converted_norm(math, &mut key, weight, eps);
        apply_rope(math, &mut key, geometry.rotary_dim, &rotations[token]);
        let ghost before = state.keys@;
        append_all(&mut state.keys, key.as_slice());
        row += 1;
        proof {
            assert(state.keys@ =~= keys + placed_keys(
                *math,
                *geometry,
                projected_key@,
                weight@,
                eps,
                rotations@,
                row as int,
            ));
        }
    }
    append_all(&mut state.values, projected_value.as_slice());
    state.positions = state.positions + seq;
}

/// The keys that a pass appends are as many as its values.
pub proof fn lemma_placed_len<T, A: Arithmetic<T>>(
    math: A,
    geometry: QuantizedAttentionLayer,
    projected: Seq<T>,
    weight: Seq<T>,
    eps: T,
    rotations: Seq<Vec<(T, T)>>,
    seq: int,
    rows: int,
)
    requires
        0 <= rows <= seq * geometry.kv_heads,
        geometry.kv_heads > 0,
        projected.len() == seq * geometry.kv_heads * geometry.head_dim,
    ensures
        placed_keys(math, geometry, projected, weight, eps, rotations, rows).len() == rows
            * geometry.head_dim,
    decreases rows,
{
    let heads = geometry.kv_heads as int;
    let dim = geometry.head_dim as int;
    if rows > 0 {
        lemma_placed_len(math, geometry, projected, weight, eps, rotations, seq, rows - 1);
        let t = (rows - 1) / heads;
        let h = (rows - 1) % heads;
        vstd::arithmetic::div_mod::lemma_fundamental_div_mod(rows - 1, heads);
        assert((t * heads + h) == rows - 1) by (nonlinear_arith)
            requires
                rows - 1 == heads * t + h,
        ;
        assert((rows - 1) * dim + dim == rows * dim && rows * dim <= seq * heads * dim && 0 <= (rows
            - 1) * dim) by (nonlinear_arith)
            requires
                0 < rows <= seq * heads,
                0 <= dim,
        ;
        assert(head_part(projected, heads, dim, t, h, 0, dim).len() == dim);
    } else {
        assert(0 * dim == 0);
    }
}

impl QuantizedAttentionLayer {
    /// Runs a pass between the projections of a layer: the cache grows by the
    /// pass's keys and values, and every query head attends to all positions up to
    /// its own. Which of the two scans does it makes no difference to the result.
    pub fn forward<T: Copy, A: Arithmetic<T>, C: Clock>(
        &self,
        math: &A,
        clock: &mut C,
        seq: usize,
        projected_query: &Vec<T>,
        projected_key: &Vec<T>,
        projected_value: &Vec<T>,
        query_norm: &[T],
        key_norm: &[T],
        eps: T,
        scale: T,
        rotations: &Vec<Vec<(T, T)>>,
        state: &mut QuantizedAttentionState<T>,
        threads: usize,
    ) -> (result: (Vec<T>, ScanTimes))
        requires
            pass_fits(
                *self,
                seq as int,
                projected_query@,
                projected_key@,
                projected_value@,
                query_norm@,
                key_norm@,
                rotations@,
            ),
            old(state).keys@.len() == old(state).positions * self.kv_heads * self.head_dim,
            old(state).values@.len() == old(state).keys@.len(),
            (old(state).positions + seq) * self.kv_heads * self.head_dim * 2 * 4 <= usize::MAX,
            old(state).positions + seq + super::scan::MIN_PAST_BLOCK <= usize::MAX,
            self.head_dim + super::scan::MIN_COLUMN_BLOCK <= usize::MAX,
            self.query_heads * (old(state).positions + seq) <= usize::MAX,
            self.query_heads * self.head_dim <= usize::MAX,
            seq * self.query_heads * self.head_dim <= usize::MAX,
            2 * threads <= usize::MAX,
        ensures
            final(state).keys@ == old(state).keys@ + placed_keys(
                *math,
                *self,
                projected_key@,
                key_norm@,
                eps,
                rotations@,
                seq * self.kv_heads,
            ),
            final(state).values@ == old(state).values@ + projected_value@,
            final(state).positions == old(state).positions + seq,
            is_attention(
                result.0@,
                *math,
                *self,
                seq as int,
                old(state).positions,
                projected_query@,
                query_norm@,
                eps,
                scale,
                rotations@,
                final(state).keys@,
                final(state).values@,
            ),
    {
        let existing: usize = state.positions;
        let ghost keys_before = state.keys@.len();
        let (queries, gates) = place_queries(
            math,
            self,
            seq,
            projected_query,
            query_norm,
            eps,
            rotations,
        );
        proof {
            let k = self.kv_heads as int;
            let d = self.head_dim as int;
            let p = existing as int;
            assert(seq * k <= (p + seq) * k * d * 2 * 4 && p * k * d + seq * k * d == (p + seq) * k * d
                && 0 <= (p + seq) * k * d) by (nonlinear_arith)
                requires
                    k > 0,
                    d > 0,
                    p >= 0,
                    seq >= 0,
            ;
            lemma_placed_len(
                *math,
                *self,
                projected_key@,
                key_norm@,
                eps,
                rotations@,
                seq as int,
                seq * k,
            );
        }
        append_rows(
            math,
            self,
            seq,
            projected_key,
            projected_value,
            key_norm,
            eps,
            rotations,
            state,
        );
        let shape = ScanShape {
            seq,
            existing,
            query_heads: self.query_heads,
            kv_heads: self.kv_heads,
            head_dim: self.head_dim,
        };
        let count: usize = state.keys.len();
        let count_values: usize = state.values.len();
        proof {
            let q = self.query_heads as int;
            let k = self.kv_heads as int;
            let g = shape.group();
            vstd::arithmetic::div_mod::lemma_fundamental_div_mod(q, k);
            assert(q == g * k && g > 0 && g <= q && k <= q) by (nonlinear_arith)
                requires
                    q == k * g + q % k,
                    q % k == 0,
                    q > 0,
                    k > 0,
            ;
            let d = self.head_dim as int;
            let s = seq as int;
            assert(d * g <= q * d && s * k <= s * q * d) by (nonlinear_arith)
                requires
                    0 < g <= q,
                    0 < k <= q,
                    0 < d,
                    0 <= s,
            ;
        }
        let result = match shape.plan() {
            ScanPlan::Blocked => {
                if seq == 0 {
                    per_head_scan(
                        math,
                        clock,
                        &shape,
                        scale,
                        &queries,
                        &gates,
                        state.keys.as_slice(),
                        state.values.as_slice(),
                    )
                } else {
                    blocked_scan(
                        math,
                        clock,
                        &shape,
                        scale,
                        &queries,
                        &gates,
                        state.keys.as_slice(),
                        state.values.as_slice(),
                        threads,
                    )
                }
            },
            ScanPlan::PerHead => per_head_scan(
                math,
                clock,
                &shape,
                scale,
                &queries,
                &gates,
                state.keys.as_slice(),
                state.values.as_slice(),
            ),
        };
        proof {
            assert(is_attention_of(
                result.0@,
                *math,
                *self,
                seq as int,
                existing,
                projected_query@,
                query_norm@,
                eps,
                scale,
                rotations@,
                state.keys@,
                state.values@,
                queries@,
                gates@,
            ));
        }
        result
    }
}

/// Whether numbers are what a scan computes of the pass's queries and gates.
pub open spec fn is_attention_of<T, A: Arithmetic<T>>(
    result: Seq<T>,
    math: A,
    geometry: QuantizedAttentionLayer,
    seq: int,
    existing: usize,
    projected: Seq<T>,
    weight: Seq<T>,
    eps: T,
    scale: T,
    rotations: Seq<Vec<(T, T)>>,
    keys: Seq<T>,
    values: Seq<T>,
    queries: Seq<Vec<Vec<T>>>,
    gates: Seq<Vec<Vec<T>>>,
) -> bool {
    &&& are_queries(queries, math, geometry, projected, weight, eps, rotations, seq)
    &&& are_gates(gates, geometry, projected, seq)
    &&& result == scan_of(
        math,
        (ScanShape {
            seq: seq as usize,
            existing,
            query_heads: geometry.query_heads,
            kv_heads: geometry.kv_heads,
            head_dim: geometry.head_dim,
        }),
        scale,
        queries,
        gates,
        keys,
        values,
        seq,
    )
}

/// Whether numbers are the attention of a pass over a cache.
pub open spec fn is_attention<T, A: Arithmetic<T>>(
    result: Seq<T>,
    math: A,
    geometry: QuantizedAttentionLayer,
    seq: int,
    existing: usize,
    projected: Seq<T>,
    weight: Seq<T>,
    eps: T,
    scale: T,
    rotations: Seq<Vec<(T, T)>>,
    keys: Seq<T>,
    values: Seq<T>,
) -> bool {
    exists|queries: Seq<Vec<Vec<T>>>, gates: Seq<Vec<Vec<T>>>| #[trigger]
        is_attention_of(
            result,
            math,
            geometry,
            seq,
            existing,
            projected,
            weight,
            eps,
            scale,
            rotations,
            keys,
            values,
            queries,
            gates,
        )
}

} // verus!
