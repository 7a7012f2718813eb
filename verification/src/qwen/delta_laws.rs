//! What holds of linear attention as a whole: a pass is its rows one after the
//! other, however they are shared out over passes.

use super::delta_layer::{
    after_rows, recorded, row_output, row_start_of, rows_output, stored_after, DeltaWeights,
    QuantizedDeltaLayer,
};
use super::delta_state::RecurrenceView;
use crate::arithmetic::Arithmetic;
use vstd::prelude::*;

verus! {

/// A row of what is left of a pass is a row of the pass.
proof fn lemma_later_row<T>(rows: Seq<T>, total: int, first: int, i: int, width: int, len: int)
    requires
        0 <= first,
        0 <= i,
        first + i < total,
        0 <= len <= width,
        rows.len() == total * width,
    ensures
        row_start_of(rows.skip(first * width), i, width, len) == row_start_of(
            rows,
            first + i,
            width,
            len,
        ),
{
    assert(0 <= first * width && first * width <= total * width && first * width + i * width == (
    first + i) * width && (first + i) * width + width <= total * width && 0 <= i * width)
        by (nonlinear_arith)
        requires
            0 <= first,
            0 <= i,
            first + i < total,
            0 <= width,
    ;
    assert(row_start_of(rows.skip(first * width), i, width, len) =~= row_start_of(
        rows,
        first + i,
        width,
        len,
    ));
}

/// A row of the start of a pass is a row of the pass.
proof fn lemma_earlier_row<T>(rows: Seq<T>, total: int, kept: int, i: int, width: int, len: int)
    requires
        0 <= i < kept <= total,
        0 <= len <= width,
        rows.len() == total * width,
    ensures
        row_start_of(rows.take(kept * width), i, width, len) == row_start_of(rows, i, width, len),
{
    assert(0 <= i * width && i * width + width <= kept * width && kept * width <= total * width)
        by (nonlinear_arith)
        requires
            0 <= i < kept <= total,
            0 <= width,
    ;
    assert(row_start_of(rows.take(kept * width), i, width, len) =~= row_start_of(
        rows,
        i,
        width,
        len,
    ));
}

/// The first rows of a pass do not see the later ones.
proof fn lemma_start_of_pass<T, A: Arithmetic<T>>(
    math: A,
    layer: QuantizedDeltaLayer,
    weights: DeltaWeights<T>,
    projected: Seq<T>,
    width: int,
    parameters: Seq<T>,
    state: RecurrenceView<T>,
    total: int,
    kept: int,
    n: int,
)
    requires
        0 <= n <= kept <= total,
        0 <= layer.geometry.conv_width() <= width,
        projected.len() == total * width,
        parameters.len() == total * (layer.geometry.value_heads * 2),
    ensures
        after_rows(math, layer, weights, projected, width, parameters, state, n) == after_rows(
            math,
            layer,
            weights,
            projected.take(kept * width),
            width,
            parameters.take(kept * (layer.geometry.value_heads * 2)),
            state,
            n,
        ),
        rows_output(math, layer, weights, projected, width, parameters, state, n) == rows_output(
            math,
            layer,
            weights,
            projected.take(kept * width),
            width,
            parameters.take(kept * (layer.geometry.value_heads * 2)),
            state,
            n,
        ),
    decreases n,
{
    if n > 0 {
        let two = layer.geometry.value_heads * 2;
        lemma_start_of_pass(
            math,
            layer,
            weights,
            projected,
            width,
            parameters,
            state,
            total,
            kept,
            n - 1,
        );
        lemma_earlier_row(projected, total, kept, n - 1, width, layer.geometry.conv_width());
        lemma_earlier_row(parameters, total, kept, n - 1, two, two);
    }
}

/// The later rows of a pass run on what the first rows left.
proof fn lemma_end_of_pass<T, A: Arithmetic<T>>(
    math: A,
    layer: QuantizedDeltaLayer,
    weights: DeltaWeights<T>,
    projected: Seq<T>,
    width: int,
    parameters: Seq<T>,
    state: RecurrenceView<T>,
    total: int,
    first: int,
    n: int,
)
    requires
        0 <= first,
        0 <= n,
        first + n <= total,
        0 <= layer.geometry.conv_width() <= width,
        projected.len() == total * width,
        parameters.len() == total * (layer.geometry.value_heads * 2),
    ensures
        ({
            let middle = after_rows(
                math,
                layer,
                weights,
                projected,
                width,
                parameters,
                state,
                first,
            );
            let later = projected.skip(first * width);
            let later_parameters = parameters.skip(first * (layer.geometry.value_heads * 2));
            &&& after_rows(math, layer, weights, projected, width, parameters, state, first + n)
                == after_rows(math, layer, weights, later, width, later_parameters, middle, n)
            &&& rows_output(math, layer, weights, projected, width, parameters, state, first + n)
                == rows_output(math, layer, weights, projected, width, parameters, state, first)
                + rows_output(math, layer, weights, later, width, later_parameters, middle, n)
        }),
    decreases n,
{
    let two = layer.geometry.value_heads * 2;
    let middle = after_rows(math, layer, weights, projected, width, parameters, state, first);
    let later = projected.skip(first * width);
    let later_parameters = parameters.skip(first * two);
    let start = rows_output(math, layer, weights, projected, width, parameters, state, first);
    if n > 0 {
        lemma_end_of_pass(
            math,
            layer,
            weights,
            projected,
            width,
            parameters,
            state,
            total,
            first,
            n - 1,
        );
        lemma_later_row(projected, total, first, n - 1, width, layer.geometry.conv_width());
        lemma_later_row(parameters, total, first, n - 1, two, two);
        let before = rows_output(
            math,
            layer,
            weights,
            later,
            width,
            later_parameters,
            middle,
            n - 1,
        );
        let last = row_output(
            math,
            layer,
            weights,
            row_start_of(later, n - 1, width, layer.geometry.conv_width()),
            row_start_of(later_parameters, n - 1, two, two),
            after_rows(math, layer, weights, later, width, later_parameters, middle, n - 1),
        );
        assert((start + before) + last =~= start + (before + last));
    } else {
        assert(start + Seq::<T>::empty() =~= start);
    }
}

/// A pass leaves the state, and gives out the rows, that its first rows and then
/// its later rows do in two passes, so that it makes no difference to a bit
/// whether tokens are run one by one, verified together or prefilled in chunks.
pub proof fn a_recurrence_is_its_rows_one_after_the_other<T, A: Arithmetic<T>>(
    math: A,
    layer: QuantizedDeltaLayer,
    weights: DeltaWeights<T>,
    projected: Seq<T>,
    width: int,
    parameters: Seq<T>,
    state: RecurrenceView<T>,
    first: int,
    later: int,
)
    requires
        0 <= first,
        0 <= later,
        layer.geometry.conv_width() <= width,
        projected.len() == (first + later) * width,
        parameters.len() == (first + later) * (layer.geometry.value_heads * 2),
    ensures
        ({
            let two = layer.geometry.value_heads * 2;
            let head = projected.take(first * width);
            let head_parameters = parameters.take(first * two);
            let tail = projected.skip(first * width);
            let tail_parameters = parameters.skip(first * two);
            let middle = after_rows(
                math,
                layer,
                weights,
                head,
                width,
                head_parameters,
                state,
                first,
            );
            &&& after_rows(
                math,
                layer,
                weights,
                projected,
                width,
                parameters,
                state,
                first + later,
            ) == after_rows(math, layer, weights, tail, width, tail_parameters, middle, later)
            &&& rows_output(
                math,
                layer,
                weights,
                projected,
                width,
                parameters,
                state,
                first + later,
            ) == rows_output(math, layer, weights, head, width, head_parameters, state, first)
                + rows_output(math, layer, weights, tail, width, tail_parameters, middle, later)
        }),
{
    assert(0 <= layer.geometry.conv_width()) by (nonlinear_arith)
        requires
            layer.geometry.conv_width() == layer.geometry.key_heads * layer.geometry.key_head_dim
                * 2 + layer.geometry.value_heads * layer.geometry.value_head_dim,
    ;
    lemma_start_of_pass(
        math,
        layer,
        weights,
        projected,
        width,
        parameters,
        state,
        first + later,
        first,
        first,
    );
    lemma_end_of_pass(
        math,
        layer,
        weights,
        projected,
        width,
        parameters,
        state,
        first + later,
        first,
        later,
    );
}

/// A slot holds what the pass had come to before the slot's row: the first slot
/// what the pass began with, and from any slot the rows from its own on lead to
/// where the pass ended.
pub proof fn a_slot_holds_the_state_before_its_row<T, A: Arithmetic<T>>(
    math: A,
    layer: QuantizedDeltaLayer,
    weights: DeltaWeights<T>,
    projected: Seq<T>,
    width: int,
    parameters: Seq<T>,
    state: RecurrenceView<T>,
    slots: Seq<RecurrenceView<T>>,
    stored: nat,
    seq: int,
    r: int,
)
    requires
        0 <= r < seq <= slots.len(),
        layer.geometry.conv_width() <= width,
        projected.len() == seq * width,
        parameters.len() == seq * (layer.geometry.value_heads * 2),
    ensures
        ({
            let kept = recorded(
                slots,
                math,
                layer,
                weights,
                projected,
                width,
                parameters,
                state,
                seq,
            );
            &&& kept.len() == slots.len()
            &&& kept[0] == state
            &&& after_rows(
                math,
                layer,
                weights,
                projected.skip(r * width),
                width,
                parameters.skip(r * (layer.geometry.value_heads * 2)),
                kept[r],
                seq - r,
            ) == after_rows(math, layer, weights, projected, width, parameters, state, seq)
            &&& forall|k: int| seq <= k < slots.len() ==> #[trigger] kept[k] == slots[k]
            &&& r < stored_after(stored, seq)
            &&& stored <= stored_after(stored, seq)
            &&& stored_after(stored, seq) == stored || stored_after(stored, seq) == seq
        }),
{
    assert(0 <= layer.geometry.conv_width()) by (nonlinear_arith)
        requires
            layer.geometry.conv_width() == layer.geometry.key_heads * layer.geometry.key_head_dim
                * 2 + layer.geometry.value_heads * layer.geometry.value_head_dim,
    ;
    lemma_end_of_pass(
        math,
        layer,
        weights,
        projected,
        width,
        parameters,
        state,
        seq,
        r,
        seq - r,
    );
}

} // verus!
