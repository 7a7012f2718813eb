//! The recurrent state of one linear-attention layer, and the per-row
//! snapshots that make rolling a pass back a copy.

use crate::buffers::{copied, filled, overwrite, overwritten, repeated, resize, resized};
use crate::config::Qwen3NextConfig;
use crate::qwen::attention_state::StateError;
use vstd::prelude::*;

verus! {

/// Head counts and widths of a linear-attention layer.
#[derive(Debug, Clone, Copy, PartialEq, Eq, Structural)]
pub struct DeltaGeometry {
    pub key_heads: usize,
    pub value_heads: usize,
    pub key_head_dim: usize,
    pub value_head_dim: usize,
    pub conv_kernel: usize,
}

impl DeltaGeometry {
    /// Elements of one row of queries, and of one row of keys.
    pub open spec fn key_width(self) -> int {
        self.key_heads * self.key_head_dim
    }

    /// Elements of one row of values.
    pub open spec fn value_width(self) -> int {
        self.value_heads * self.value_head_dim
    }

    /// Channels of the causal convolution: queries, keys and values.
    pub open spec fn conv_width(self) -> int {
        self.key_width() * 2 + self.value_width()
    }

    /// Elements of convolution history.
    pub open spec fn conv_state_len(self) -> int {
        self.conv_width() * (self.conv_kernel - 1)
    }

    /// Elements of recurrent state: one matrix per value head.
    pub open spec fn recurrent_state_len(self) -> int {
        self.value_heads * self.key_head_dim * self.value_head_dim
    }

    /// The widths fit the machine.
    pub open spec fn widths_fit(self) -> bool {
        &&& self.key_width() * 2 <= usize::MAX
        &&& self.value_width() <= usize::MAX
        &&& self.conv_width() <= usize::MAX
    }

    /// The widths and lengths fit the machine, and there is a kernel.
    pub open spec fn fits(self) -> bool {
        &&& self.conv_kernel >= 1
        &&& self.widths_fit()
        &&& self.conv_state_len() <= usize::MAX
        &&& self.value_heads * self.key_head_dim <= usize::MAX
        &&& self.recurrent_state_len() <= usize::MAX
    }

    /// The geometry that a configuration describes.
    pub fn of(config: &Qwen3NextConfig) -> (geometry: Self)
        ensures
            geometry == (DeltaGeometry {
                key_heads: config.linear_num_key_heads,
                value_heads: config.linear_num_value_heads,
                key_head_dim: config.linear_key_head_dim,
                value_head_dim: config.linear_value_head_dim,
                conv_kernel: config.linear_conv_kernel_dim,
            }),
    {
        DeltaGeometry {
            key_heads: config.linear_num_key_heads,
            value_heads: config.linear_num_value_heads,
            key_head_dim: config.linear_key_head_dim,
            value_head_dim: config.linear_value_head_dim,
            conv_kernel: config.linear_conv_kernel_dim,
        }
    }

    /// Elements of one row of queries, and of one row of keys.
    pub fn key_dim(&self) -> (width: usize)
        requires
            self.widths_fit(),
        ensures
            width == self.key_width(),
    {
        proof {
            assert(self.key_width() >= 0) by (nonlinear_arith)
                requires
                    self.key_width() == self.key_heads * self.key_head_dim,
            ;
        }
        self.key_heads * self.key_head_dim
    }

    /// Elements of one row of values.
    pub fn value_dim(&self) -> (width: usize)
        requires
            self.widths_fit(),
        ensures
            width == self.value_width(),
    {
        self.value_heads * self.value_head_dim
    }

    /// Channels of the causal convolution.
    pub fn conv_dim(&self) -> (width: usize)
        requires
            self.widths_fit(),
        ensures
            width == self.conv_width(),
    {
        proof {
            assert(self.value_width() >= 0) by (nonlinear_arith)
                requires
                    self.value_width() == self.value_heads * self.value_head_dim,
            ;
        }
        self.key_dim() * 2 + self.value_dim()
    }

    /// Elements of convolution history.
    pub fn conv_len(&self) -> (len: usize)
        requires
            self.fits(),
        ensures
            len == self.conv_state_len(),
    {
        self.conv_dim() * (self.conv_kernel - 1)
    }

    /// Elements of recurrent state.
    pub fn recurrent_len(&self) -> (len: usize)
        requires
            self.fits(),
        ensures
            len == self.recurrent_state_len(),
    {
        self.value_heads * self.key_head_dim * self.value_head_dim
    }
}

/// What a linear layer carries from one row to the next.
pub ghost struct RecurrenceView<T> {
    pub conv: Seq<T>,
    pub recurrent: Seq<T>,
}

/// A copy of a linear layer's state.
#[derive(Debug, Clone, PartialEq)]
pub struct QuantizedDeltaCheckpoint<T> {
    conv: Vec<T>,
    recurrent: Vec<T>,
}

impl<T> View for QuantizedDeltaCheckpoint<T> {
    type V = RecurrenceView<T>;

    closed spec fn view(&self) -> RecurrenceView<T> {
        RecurrenceView { conv: self.conv@, recurrent: self.recurrent@ }
    }
}

impl<T> QuantizedDeltaCheckpoint<T> {
    /// A checkpoint of the given parts.
    pub fn from_parts(conv: Vec<T>, recurrent: Vec<T>) -> (checkpoint: Self)
        ensures
            checkpoint@ == (RecurrenceView { conv: conv@, recurrent: recurrent@ }),
    {
        QuantizedDeltaCheckpoint { conv, recurrent }
    }

    /// The convolution history.
    pub fn conv(&self) -> (conv: &[T])
        ensures
            conv@ == self@.conv,
    {
        self.conv.as_slice()
    }

    /// The recurrent matrices.
    pub fn recurrent(&self) -> (recurrent: &[T])
        ensures
            recurrent@ == self@.recurrent,
    {
        self.recurrent.as_slice()
    }

    /// Bytes of state, at four bytes per element.
    pub fn bytes(&self) -> (bytes: usize)
        requires
            (self@.conv.len() + self@.recurrent.len()) * 4 <= usize::MAX,
        ensures
            bytes == (self@.conv.len() + self@.recurrent.len()) * 4,
    {
        (self.conv.len() + self.recurrent.len()) * 4
    }
}

/// Working buffers of one linear layer, reused from pass to pass.
#[derive(Debug, Clone)]
pub struct QuantizedDeltaScratch<T> {
    pub q: Vec<T>,
    pub k: Vec<T>,
    pub v: Vec<T>,
    pub convolved: Vec<T>,
    pub q_repeated: Vec<T>,
    pub k_repeated: Vec<T>,
    pub beta: Vec<T>,
    pub decay: Vec<T>,
    pub recurrent_output: Vec<T>,
    pub gates: Vec<T>,
}

impl<T: Copy> QuantizedDeltaScratch<T> {
    /// Buffers for one row; the outputs of a pass have no rows yet.
    pub fn new(geometry: &DeltaGeometry, zero: T) -> (scratch: Self)
        requires
            geometry.fits(),
        ensures
            scratch.q@ == repeated(zero, geometry.key_width()),
            scratch.k@ == repeated(zero, geometry.key_width()),
            scratch.v@ == repeated(zero, geometry.value_width()),
            scratch.convolved@ == repeated(zero, geometry.conv_width()),
            scratch.q_repeated@ == repeated(zero, geometry.value_heads * geometry.key_head_dim),
            scratch.k_repeated@ == repeated(zero, geometry.value_heads * geometry.key_head_dim),
            scratch.beta@ == repeated(zero, geometry.value_heads as int),
            scratch.decay@ == repeated(zero, geometry.value_heads as int),
            scratch.recurrent_output@ == Seq::<T>::empty(),
            scratch.gates@ == Seq::<T>::empty(),
    {
        let key_dim: usize = geometry.key_dim();
        let value_dim: usize = geometry.value_dim();
        let conv_dim: usize = geometry.conv_dim();
        let repeated_dim: usize = geometry.value_heads * geometry.key_head_dim;
        QuantizedDeltaScratch {
            q: filled(zero, key_dim),
            k: filled(zero, key_dim),
            v: filled(zero, value_dim),
            convolved: filled(zero, conv_dim),
            q_repeated: filled(zero, repeated_dim),
            k_repeated: filled(zero, repeated_dim),
            beta: filled(zero, geometry.value_heads),
            decay: filled(zero, geometry.value_heads),
            recurrent_output: Vec::new(),
            gates: Vec::new(),
        }
    }

    /// Makes room for the outputs of a pass and clears them; gates keep what
    /// they held.
    pub fn prepare_output(&mut self, len: usize, zero: T)
        ensures
            final(self).recurrent_output@ == repeated(zero, len as int),
            final(self).gates@ == resized(old(self).gates@, len as int, zero),
            final(self).q == old(self).q,
            final(self).k == old(self).k,
            final(self).v == old(self).v,
            final(self).convolved == old(self).convolved,
            final(self).q_repeated == old(self).q_repeated,
            final(self).k_repeated == old(self).k_repeated,
            final(self).beta == old(self).beta,
            final(self).decay == old(self).decay,
    {
        resize(&mut self.recurrent_output, len, zero);
        let mut i: usize = 0;
        while i < len
            invariant
                i <= len,
                self.recurrent_output@.len() == len,
                forall|j: int| 0 <= j < i ==> self.recurrent_output@[j] == zero,
                self.gates == old(self).gates,
                self.q == old(self).q,
                self.k == old(self).k,
                self.v == old(self).v,
                self.convolved == old(self).convolved,
                self.q_repeated == old(self).q_repeated,
                self.k_repeated == old(self).k_repeated,
                self.beta == old(self).beta,
                self.decay == old(self).decay,
            decreases len - i,
        {
            self.recurrent_output.set(i, zero);
            i += 1;
        }
        proof {
            assert(self.recurrent_output@ =~= repeated(zero, len as int));
        }
        resize(&mut self.gates, len, zero);
    }
}

/// The live state of one linear layer.
#[derive(Debug, Clone)]
pub struct QuantizedDeltaState<T> {
    pub conv: Vec<T>,
    pub recurrent: Vec<T>,
    pub scratch: QuantizedDeltaScratch<T>,
}

impl<T> View for QuantizedDeltaState<T> {
    type V = RecurrenceView<T>;

    open spec fn view(&self) -> RecurrenceView<T> {
        RecurrenceView { conv: self.conv@, recurrent: self.recurrent@ }
    }
}

/// Whether two recurrences have the same dimensions.
pub open spec fn same_shape<T>(a: RecurrenceView<T>, b: RecurrenceView<T>) -> bool {
    a.conv.len() == b.conv.len() && a.recurrent.len() == b.recurrent.len()
}

impl<T> QuantizedDeltaState<T> {
    /// Elements of convolution history.
    pub fn conv_len(&self) -> (len: usize)
        ensures
            len == self@.conv.len(),
    {
        self.conv.len()
    }

    /// Elements of recurrent state.
    pub fn recurrent_len(&self) -> (len: usize)
        ensures
            len == self@.recurrent.len(),
    {
        self.recurrent.len()
    }
}

impl<T: Copy> QuantizedDeltaState<T> {
    /// The state of a sequence without tokens: all zeros.
    pub fn with_geometry(geometry: &DeltaGeometry, zero: T) -> (state: Self)
        requires
            geometry.fits(),
        ensures
            state@.conv == repeated(zero, geometry.conv_state_len()),
            state@.recurrent == repeated(zero, geometry.recurrent_state_len()),
    {
        QuantizedDeltaState {
            conv: filled(zero, geometry.conv_len()),
            recurrent: filled(zero, geometry.recurrent_len()),
            scratch: QuantizedDeltaScratch::new(geometry, zero),
        }
    }

    /// The state of a sequence without tokens in the configured model.
    pub fn new(config: &Qwen3NextConfig, zero: T) -> (state: Self)
        requires
            (DeltaGeometry {
                key_heads: config.linear_num_key_heads,
                value_heads: config.linear_num_value_heads,
                key_head_dim: config.linear_key_head_dim,
                value_head_dim: config.linear_value_head_dim,
                conv_kernel: config.linear_conv_kernel_dim,
            }).fits(),
        ensures
            ({
                let geometry = DeltaGeometry {
                    key_heads: config.linear_num_key_heads,
                    value_heads: config.linear_num_value_heads,
                    key_head_dim: config.linear_key_head_dim,
                    value_head_dim: config.linear_value_head_dim,
                    conv_kernel: config.linear_conv_kernel_dim,
                };
                &&& state@.conv == repeated(zero, geometry.conv_state_len())
                &&& state@.recurrent == repeated(zero, geometry.recurrent_state_len())
            }),
    {
        let geometry = DeltaGeometry::of(config);
        Self::with_geometry(&geometry, zero)
    }

    /// A copy to roll back to.
    pub fn checkpoint(&self) -> (checkpoint: QuantizedDeltaCheckpoint<T>)
        ensures
            checkpoint@ == self@,
    {
        QuantizedDeltaCheckpoint {
            conv: copied(self.conv.as_slice()),
            recurrent: copied(self.recurrent.as_slice()),
        }
    }

    /// The whole linear-layer state, which for a recurrent layer is the same
    /// thing a rollback checkpoint holds: there is no append-only cache to
    /// truncate, so a checkpoint is already a complete image.
    pub fn image(&self) -> (image: QuantizedDeltaCheckpoint<T>)
        ensures
            image@ == self@,
    {
        self.checkpoint()
    }

    /// Takes the state of a checkpoint of the same dimensions.
    pub fn restore(&mut self, checkpoint: &QuantizedDeltaCheckpoint<T>) -> (result: Result<
        (),
        StateError,
    >)
        ensures
            match result {
                Ok(_) => same_shape(old(self)@, checkpoint@) && final(self)@ == checkpoint@,
                Err(error) => !same_shape(old(self)@, checkpoint@) && error
                    == StateError::CheckpointDimensions && final(self)@ == old(self)@,
            },
            final(self).scratch == old(self).scratch,
    {
        if self.conv.len() != checkpoint.conv.len() || self.recurrent.len()
            != checkpoint.recurrent.len() {
            return Err(StateError::CheckpointDimensions);
        }
        self.conv = copied(checkpoint.conv.as_slice());
        self.recurrent = copied(checkpoint.recurrent.as_slice());
        Ok(())
    }
}

/// Preallocated per-row snapshots of one linear layer's recurrent state.
///
/// A multi-row verification pass advances the recurrence one row at a time.
/// Slot `r` holds the state as it was *before* row `r` was consumed, so slot 0
/// is the pre-pass checkpoint and slot `r` restores the state a sequential
/// decode would hold after committing rows `0..r`. Rolling back a partially
/// accepted draft is then a copy rather than a replayed forward pass.
///
/// Buffers are sized once and reused across passes; `store` never allocates.
#[derive(Debug, Clone)]
pub struct QuantizedDeltaSnapshots<T> {
    conv: Vec<T>,
    recurrent: Vec<T>,
    conv_len: usize,
    recurrent_len: usize,
    rows: usize,
    stored_rows: usize,
}

/// Contents of an arena of row snapshots.
pub ghost struct SnapshotsView<T> {
    /// One slot per row, stored or not.
    pub slots: Seq<RecurrenceView<T>>,
    pub conv_len: nat,
    pub recurrent_len: nat,
    /// Rows up to the highest one stored in this pass.
    pub stored_rows: nat,
}

/// The row `row` of a buffer of rows of `len` elements.
pub open spec fn row_of<T>(buffer: Seq<T>, row: int, len: int) -> Seq<T> {
    buffer.subrange(row * len, row * len + len)
}

/// A row lies inside a buffer of so many rows, apart from the other rows.
proof fn lemma_row_bounds(rows: int, row: int, len: int)
    requires
        0 <= row < rows,
        0 <= len,
    ensures
        0 <= row * len,
        row * len + len <= rows * len,
{
    assert(0 <= row * len && row * len + len <= rows * len) by (nonlinear_arith)
        requires
            0 <= row < rows,
            0 <= len,
    ;
}

/// Overwriting one row replaces it and leaves the other rows alone.
proof fn lemma_overwrite_row<T>(buffer: Seq<T>, rows: int, len: int, row: int, source: Seq<T>)
    requires
        0 <= row < rows,
        0 <= len,
        buffer.len() == rows * len,
        source.len() == len,
    ensures
        overwritten(buffer, row * len, source).len() == buffer.len(),
        forall|r: int|
            0 <= r < rows ==> #[trigger] row_of(
                overwritten(buffer, row * len, source),
                r,
                len,
            ) == if r == row {
                source
            } else {
                row_of(buffer, r, len)
            },
{
    lemma_row_bounds(rows, row, len);
    let after = overwritten(buffer, row * len, source);
    assert forall|r: int| 0 <= r < rows implies #[trigger] row_of(after, r, len) == if r == row {
        source
    } else {
        row_of(buffer, r, len)
    } by {
        lemma_row_bounds(rows, r, len);
        if r < row {
            lemma_row_bounds(row, r, len);
            assert(row_of(after, r, len) =~= row_of(buffer, r, len));
        } else if r > row {
            lemma_row_bounds(r, row, len);
            assert(row_of(after, r, len) =~= row_of(buffer, r, len));
        } else {
            assert(row_of(after, r, len) =~= source);
        }
    }
}

impl<T> View for QuantizedDeltaSnapshots<T> {
    type V = SnapshotsView<T>;

    closed spec fn view(&self) -> SnapshotsView<T> {
        SnapshotsView {
            slots: Seq::new(
                self.rows as nat,
                |r: int|
                    RecurrenceView {
                        conv: row_of(self.conv@, r, self.conv_len as int),
                        recurrent: row_of(self.recurrent@, r, self.recurrent_len as int),
                    },
            ),
            conv_len: self.conv_len as nat,
            recurrent_len: self.recurrent_len as nat,
            stored_rows: self.stored_rows as nat,
        }
    }
}

impl<T> QuantizedDeltaSnapshots<T> {
    /// The buffers hold exactly the slots.
    pub closed spec fn wf(&self) -> bool {
        &&& self.conv@.len() == self.rows * self.conv_len
        &&& self.recurrent@.len() == self.rows * self.recurrent_len
        &&& self.stored_rows <= self.rows
    }

    /// An arena without slots.
    pub fn empty() -> (snapshots: Self)
        ensures
            snapshots.wf(),
            snapshots@.slots.len() == 0,
            snapshots@.conv_len == 0,
            snapshots@.recurrent_len == 0,
            snapshots@.stored_rows == 0,
    {
        QuantizedDeltaSnapshots {
            conv: Vec::new(),
            recurrent: Vec::new(),
            conv_len: 0,
            recurrent_len: 0,
            rows: 0,
            stored_rows: 0,
        }
    }

    /// Every slot of a well-formed arena has the arena's dimensions.
    pub proof fn slots_share_one_shape(&self)
        requires
            self.wf(),
        ensures
            self@.stored_rows <= self@.slots.len(),
            self@.slots.len() <= usize::MAX,
            self@.conv_len <= usize::MAX,
            self@.recurrent_len <= usize::MAX,
            forall|r: int|
                0 <= r < self@.slots.len() ==> #[trigger] self@.slots[r].conv.len()
                    == self@.conv_len && self@.slots[r].recurrent.len() == self@.recurrent_len,
    {
        assert forall|r: int| 0 <= r < self@.slots.len() implies #[trigger] self@.slots[r].conv.len()
            == self@.conv_len && self@.slots[r].recurrent.len() == self@.recurrent_len by {
            lemma_row_bounds(self.rows as int, r, self.conv_len as int);
            lemma_row_bounds(self.rows as int, r, self.recurrent_len as int);
        }
    }

    /// Slots of the arena.
    pub fn rows(&self) -> (rows: usize)
        ensures
            rows == self@.slots.len(),
    {
        self.rows
    }

    /// Rows stored in the current pass.
    pub fn stored_rows(&self) -> (rows: usize)
        ensures
            rows == self@.stored_rows,
    {
        self.stored_rows
    }

    /// Bytes of live state copied per stored row, at four bytes per element.
    pub fn bytes_per_row(&self) -> (bytes: usize)
        requires
            (self@.conv_len + self@.recurrent_len) * 4 <= usize::MAX,
        ensures
            bytes == (self@.conv_len + self@.recurrent_len) * 4,
    {
        (self.conv_len + self.recurrent_len) * 4
    }
}

impl<T: Copy> QuantizedDeltaSnapshots<T> {
    /// Size the arena for `rows` snapshot slots, reusing existing storage. An
    /// arena that already has these dimensions keeps what its slots hold.
    pub fn reserve(&mut self, rows: usize, conv_len: usize, recurrent_len: usize, zero: T)
        requires
            old(self).wf(),
            rows * conv_len <= usize::MAX,
            rows * recurrent_len <= usize::MAX,
        ensures
            final(self).wf(),
            final(self)@.slots.len() == rows,
            final(self)@.conv_len == conv_len,
            final(self)@.recurrent_len == recurrent_len,
            final(self)@.stored_rows == 0,
            old(self)@.slots.len() == rows && old(self)@.conv_len == conv_len
                && old(self)@.recurrent_len == recurrent_len ==> final(self)@.slots
                == old(self)@.slots,
    {
        if self.rows != rows || self.conv_len != conv_len || self.recurrent_len != recurrent_len {
            proof {
                assert(rows * conv_len >= 0 && rows * recurrent_len >= 0) by (nonlinear_arith);
            }
            resize(&mut self.conv, rows * conv_len, zero);
            resize(&mut self.recurrent, rows * recurrent_len, zero);
            self.rows = rows;
            self.conv_len = conv_len;
            self.recurrent_len = recurrent_len;
        }
        self.stored_rows = 0;
        proof {
            if old(self)@.slots.len() == rows && old(self)@.conv_len == conv_len && old(
                self,
            )@.recurrent_len == recurrent_len {
                assert(self@.slots =~= old(self)@.slots);
            }
        }
    }

    /// Records the state as it is before row `row` is consumed. `_nontemporal`
    /// asks for streaming stores; it does not change what is stored.
    pub fn store(&mut self, row: usize, conv: &[T], recurrent: &[T], _nontemporal: bool)
        requires
            old(self).wf(),
            row < old(self)@.slots.len(),
            conv@.len() == old(self)@.conv_len,
            recurrent@.len() == old(self)@.recurrent_len,
        ensures
            final(self).wf(),
            final(self)@.slots == old(self)@.slots.update(
                row as int,
                RecurrenceView { conv: conv@, recurrent: recurrent@ },
            ),
            final(self)@.conv_len == old(self)@.conv_len,
            final(self)@.recurrent_len == old(self)@.recurrent_len,
            final(self)@.stored_rows == (if row + 1 > old(self)@.stored_rows {
                (row + 1) as nat
            } else {
                old(self)@.stored_rows
            }),
    {
        proof {
            lemma_row_bounds(self.rows as int, row as int, self.conv_len as int);
            lemma_row_bounds(self.rows as int, row as int, self.recurrent_len as int);
            lemma_overwrite_row(
                self.conv@,
                self.rows as int,
                self.conv_len as int,
                row as int,
                conv@,
            );
            lemma_overwrite_row(
                self.recurrent@,
                self.rows as int,
                self.recurrent_len as int,
                row as int,
                recurrent@,
            );
        }
        let conv_total: usize = self.conv.len();
        let recurrent_total: usize = self.recurrent.len();
        overwrite(&mut self.conv, row * self.conv_len, conv);
        overwrite(&mut self.recurrent, row * self.recurrent_len, recurrent);
        if row + 1 > self.stored_rows {
            self.stored_rows = row + 1;
        }
        proof {
            let after = old(self)@.slots.update(
                row as int,
                RecurrenceView { conv: conv@, recurrent: recurrent@ },
            );
            assert forall|r: int| 0 <= r < self@.slots.len() implies self@.slots[r]
                == after[r] by {
                assert(row_of(self.conv@, r, self.conv_len as int) == if r == row {
                    conv@
                } else {
                    row_of(old(self).conv@, r, self.conv_len as int)
                });
                assert(row_of(self.recurrent@, r, self.recurrent_len as int) == if r == row {
                    recurrent@
                } else {
                    row_of(old(self).recurrent@, r, self.recurrent_len as int)
                });
            }
            assert(self@.slots =~= after);
        }
    }

    /// Restore `state` to snapshot slot `row`.
    ///
    /// A layer that did not run during the interrupted pass has no stored rows
    /// and is already at the pre-pass state, so restoring it is a no-op.
    pub fn restore_into(&self, row: usize, state: &mut QuantizedDeltaState<T>) -> (result: Result<
        (),
        StateError,
    >)
        requires
            self.wf(),
        ensures
            match result {
                Ok(_) => snapshot_error(self@, row as int, old(state)@) is None && final(state)@
                    == restored(self@, row as int, old(state)@),
                Err(error) => snapshot_error(self@, row as int, old(state)@) == Some(error)
                    && final(state)@ == old(state)@,
            },
            final(state).scratch == old(state).scratch,
    {
        if self.stored_rows == 0 {
            return Ok(());
        }
        if row >= self.stored_rows {
            return Err(StateError::RowNotStored { row, stored: self.stored_rows });
        }
        if state.conv.len() != self.conv_len || state.recurrent.len() != self.recurrent_len {
            return Err(StateError::SnapshotDimensions);
        }
        proof {
            lemma_row_bounds(self.rows as int, row as int, self.conv_len as int);
            lemma_row_bounds(self.rows as int, row as int, self.recurrent_len as int);
        }
        let conv_total: usize = self.conv.len();
        let recurrent_total: usize = self.recurrent.len();
        let conv_start: usize = row * self.conv_len;
        let recurrent_start: usize = row * self.recurrent_len;
        state.conv =
        copied(
            vstd::slice::slice_subrange(
                self.conv.as_slice(),
                conv_start,
                conv_start + self.conv_len,
            ),
        );
        state.recurrent =
        copied(
            vstd::slice::slice_subrange(
                self.recurrent.as_slice(),
                recurrent_start,
                recurrent_start + self.recurrent_len,
            ),
        );
        Ok(())
    }
}

/// How restoring a row fails, if it does.
pub open spec fn snapshot_error<T>(
    snapshots: SnapshotsView<T>,
    row: int,
    live: RecurrenceView<T>,
) -> Option<StateError> {
    if snapshots.stored_rows == 0 {
        None
    } else if row >= snapshots.stored_rows {
        Some(StateError::RowNotStored { row: row as usize, stored: snapshots.stored_rows as usize })
    } else if live.conv.len() != snapshots.conv_len || live.recurrent.len()
        != snapshots.recurrent_len {
        Some(StateError::SnapshotDimensions)
    } else {
        None
    }
}

/// The state after restoring a row: that row's slot, or the state as it is
/// where the pass stored nothing.
pub open spec fn restored<T>(
    snapshots: SnapshotsView<T>,
    row: int,
    live: RecurrenceView<T>,
) -> RecurrenceView<T> {
    if snapshots.stored_rows == 0 {
        live
    } else {
        snapshots.slots[row]
    }
}

/// Copies a state buffer element by element. `_nontemporal` asks for streaming
/// stores; it does not change what is copied.
pub fn copy_state<T: Copy>(dst: &mut Vec<T>, src: &[T], _nontemporal: bool)
    requires
        old(dst)@.len() == src@.len(),
    ensures
        final(dst)@ == src@,
{
    overwrite(dst, 0, src);
    proof {
        assert(dst@ =~= src@);
    }
}

impl<T> Default for QuantizedDeltaSnapshots<T> {
    fn default() -> (snapshots: Self)
        ensures
            snapshots.wf(),
            snapshots@.slots.len() == 0,
            snapshots@.conv_len == 0,
            snapshots@.recurrent_len == 0,
            snapshots@.stored_rows == 0,
    {
        Self::empty()
    }
}

} // verus!
