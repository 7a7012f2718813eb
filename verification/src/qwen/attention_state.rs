//! The key/value cache of one full-attention layer.

use crate::buffers::copied;
use vstd::arithmetic::div_mod::{lemma_div_multiples_vanish, lemma_fundamental_div_mod};
use vstd::arithmetic::mul::lemma_mul_is_commutative;
use vstd::prelude::*;

verus! {

/// Why a state could not be shortened, replaced or rolled back.
#[derive(Debug, Clone, Copy, PartialEq, Eq, Structural)]
pub enum StateError {
    /// An attention image holds rows for zero positions.
    RowsForZeroPositions,
    /// Attention storage is inconsistent with its number of positions.
    InconsistentRows { positions: usize },
    /// The row stride of an attention image does not match the live stride.
    StrideMismatch { image: usize, live: usize },
    /// A cache cannot be extended by truncation.
    CannotExtend { from: usize, to: usize },
    /// No snapshot was stored for this row.
    RowNotStored { row: usize, stored: usize },
    /// Snapshot dimensions do not match the live state.
    SnapshotDimensions,
    /// Checkpoint dimensions do not match the live state.
    CheckpointDimensions,
    /// A layer holds another number of positions than its image claims.
    LayerPositions { layer: usize, positions: usize, image: usize },
    /// An image or a checkpoint belongs to a model with another layer count.
    LayerCount { saved: usize, live: usize },
    /// A saved layer is of another type than the live one.
    LayerType { layer: usize },
    /// The snapshots cover fewer linear layers than the state has.
    MissingSnapshots { layer: usize },
    /// The rows of a saved layer are not as wide as the model's.
    RowWidth { layer: usize, keys: usize, values: usize, width: usize },
    /// A pass of so many rows cannot be rolled back to that many of them.
    RollbackRows { committed: usize, rows: usize },
}

/// The key and value rows of one attention layer, position after position.
#[derive(Debug, Clone, PartialEq)]
pub struct QuantizedAttentionState<T> {
    pub keys: Vec<T>,
    pub values: Vec<T>,
    pub positions: usize,
}

/// Every element of one attention layer's key/value cache.
///
/// This is what distinguishes an image from a rollback checkpoint: a
/// checkpoint records only a position, because rolling back can truncate rows
/// that are still in memory. Restoring state that was produced by an earlier
/// process has no such rows to truncate, so the image carries them.
#[derive(Debug, Clone, PartialEq)]
pub struct QuantizedAttentionImage<T> {
    pub keys: Vec<T>,
    pub values: Vec<T>,
    pub positions: usize,
}

/// Contents of a key/value cache.
pub ghost struct CacheView<T> {
    pub keys: Seq<T>,
    pub values: Seq<T>,
    pub positions: nat,
}

/// Whether the rows of a cache divide evenly among its positions. A cache at
/// position zero holds no rows.
pub open spec fn rows_divide<T>(c: CacheView<T>) -> bool {
    if c.positions == 0 {
        c.keys.len() == 0 && c.values.len() == 0
    } else {
        c.keys.len() % c.positions == 0 && c.values.len() % c.positions == 0
    }
}

/// The first `positions` positions of a cache.
pub open spec fn truncated<T>(c: CacheView<T>, positions: nat) -> CacheView<T> {
    if positions == c.positions {
        c
    } else {
        CacheView {
            keys: c.keys.take((positions * (c.keys.len() / c.positions)) as int),
            values: c.values.take((positions * (c.values.len() / c.positions)) as int),
            positions,
        }
    }
}

/// How truncation fails, if it does.
pub open spec fn truncation_error<T>(c: CacheView<T>, positions: int) -> Option<StateError> {
    if positions > c.positions {
        Some(StateError::CannotExtend { from: c.positions as usize, to: positions as usize })
    } else if 0 < positions < c.positions && !rows_divide(c) {
        Some(StateError::InconsistentRows { positions: c.positions as usize })
    } else {
        None
    }
}

/// How an image is inconsistent, if it is.
pub open spec fn image_error<T>(c: CacheView<T>) -> Option<StateError> {
    if rows_divide(c) {
        None
    } else if c.positions == 0 {
        Some(StateError::RowsForZeroPositions)
    } else {
        Some(StateError::InconsistentRows { positions: c.positions as usize })
    }
}

/// How restoring an image over a live cache fails, if it does.
pub open spec fn restore_image_error<T>(live: CacheView<T>, image: CacheView<T>) -> Option<
    StateError,
> {
    if image_error(image) is Some {
        image_error(image)
    } else if live.positions > 0 && image.positions > 0 && live.keys.len() / live.positions
        != image.keys.len() / image.positions {
        Some(
            StateError::StrideMismatch {
                image: (image.keys.len() / image.positions) as usize,
                live: (live.keys.len() / live.positions) as usize,
            },
        )
    } else {
        None
    }
}

proof fn lemma_rows_fit(total: nat, positions: nat, kept: nat)
    requires
        0 < positions,
        kept <= positions,
    ensures
        kept * (total / positions) <= total,
{
    let per: int = total as int / positions as int;
    lemma_fundamental_div_mod(total as int, positions as int);
    assert(kept * per <= positions * per) by (nonlinear_arith)
        requires
            kept <= positions,
            0 <= per,
    ;
}

impl<T> View for QuantizedAttentionState<T> {
    type V = CacheView<T>;

    open spec fn view(&self) -> CacheView<T> {
        CacheView { keys: self.keys@, values: self.values@, positions: self.positions as nat }
    }
}

impl<T> View for QuantizedAttentionImage<T> {
    type V = CacheView<T>;

    open spec fn view(&self) -> CacheView<T> {
        CacheView { keys: self.keys@, values: self.values@, positions: self.positions as nat }
    }
}

impl<T> QuantizedAttentionImage<T> {
    /// Bytes of key and value rows, at four bytes per element.
    pub fn bytes(&self) -> (bytes: usize)
        requires
            (self.keys@.len() + self.values@.len()) * 4 <= usize::MAX,
        ensures
            bytes == (self.keys@.len() + self.values@.len()) * 4,
    {
        (self.keys.len() + self.values.len()) * 4
    }

    /// Whether every position has a key row and a value row of `width` elements.
    pub fn has_width(&self, width: usize) -> (has: bool)
        ensures
            has == (self@.keys.len() == self@.positions * width && self@.values.len()
                == self@.positions * width),
    {
        let keys: usize = self.keys.len();
        let values: usize = self.values.len();
        match self.positions.checked_mul(width) {
            Some(elements) => keys == elements && values == elements,
            None => false,
        }
    }

    /// Reject a stored image whose row stride does not divide its position, so
    /// a truncated or hand-edited file fails here rather than in a kernel.
    pub fn validate(&self) -> (result: Result<(), StateError>)
        ensures
            match result {
                Ok(_) => image_error(self@) is None,
                Err(error) => image_error(self@) == Some(error),
            },
    {
        if self.positions == 0 {
            if self.keys.len() == 0 && self.values.len() == 0 {
                return Ok(());
            }
            return Err(StateError::RowsForZeroPositions);
        }
        if self.keys.len() % self.positions == 0 && self.values.len() % self.positions == 0 {
            Ok(())
        } else {
            Err(StateError::InconsistentRows { positions: self.positions })
        }
    }
}

impl<T> QuantizedAttentionState<T> {
    /// A cache without positions.
    pub fn empty() -> (state: Self)
        ensures
            state@ == (CacheView {
                keys: Seq::<T>::empty(),
                values: Seq::<T>::empty(),
                positions: 0,
            }),
    {
        QuantizedAttentionState { keys: Vec::new(), values: Vec::new(), positions: 0 }
    }

    /// Keeps the first `positions` positions.
    pub fn truncate(&mut self, positions: usize) -> (result: Result<(), StateError>)
        ensures
            match result {
                Ok(_) => truncation_error(old(self)@, positions as int) is None && final(self)@
                    == truncated(old(self)@, positions as nat),
                Err(error) => truncation_error(old(self)@, positions as int) == Some(error)
                    && *final(self) == *old(self),
            },
    {
        if positions > self.positions {
            return Err(StateError::CannotExtend { from: self.positions, to: positions });
        }
        if positions == self.positions {
            return Ok(());
        }
        if positions == 0 {
            self.keys.clear();
            self.values.clear();
            self.positions = 0;
            proof {
                let per_key: int = old(self)@.keys.len() as int / old(self)@.positions as int;
                let per_value: int = old(self)@.values.len() as int / old(self)@.positions as int;
                assert(0 * per_key == 0 && 0 * per_value == 0) by (nonlinear_arith);
                assert(self.keys@ =~= old(self).keys@.take(0));
                assert(self.values@ =~= old(self).values@.take(0));
            }
            return Ok(());
        }
        if self.keys.len() % self.positions != 0 || self.values.len() % self.positions != 0 {
            return Err(StateError::InconsistentRows { positions: self.positions });
        }
        proof {
            lemma_rows_fit(self.keys@.len(), self.positions as nat, positions as nat);
            lemma_rows_fit(self.values@.len(), self.positions as nat, positions as nat);
        }
        let keys_per_position: usize = self.keys.len() / self.positions;
        let values_per_position: usize = self.values.len() / self.positions;
        self.keys.truncate(positions * keys_per_position);
        self.values.truncate(positions * values_per_position);
        self.positions = positions;
        proof {
            assert(self.keys@ =~= truncated(old(self)@, positions as nat).keys);
            assert(self.values@ =~= truncated(old(self)@, positions as nat).values);
        }
        Ok(())
    }
}

impl<T: Copy> QuantizedAttentionState<T> {
    /// A copy of the whole cache.
    pub fn image(&self) -> (image: QuantizedAttentionImage<T>)
        ensures
            image@ == self@,
    {
        QuantizedAttentionImage {
            keys: copied(self.keys.as_slice()),
            values: copied(self.values.as_slice()),
            positions: self.positions,
        }
    }

    /// Replace this cache with an image, which may hold more rows than the
    /// live state does. The caller owns the check that the image belongs to
    /// this model; only self-consistency is checked here.
    pub fn restore_image(&mut self, image: &QuantizedAttentionImage<T>) -> (result: Result<
        (),
        StateError,
    >)
        ensures
            match result {
                Ok(_) => restore_image_error(old(self)@, image@) is None && final(self)@ == image@,
                Err(error) => restore_image_error(old(self)@, image@) == Some(error)
                    && *final(self) == *old(self),
            },
    {
        match image.validate() {
            Ok(_) => {},
            Err(error) => {
                return Err(error);
            },
        }
        if self.positions > 0 && image.positions > 0 {
            let live_stride: usize = self.keys.len() / self.positions;
            let image_stride: usize = image.keys.len() / image.positions;
            if live_stride != image_stride {
                return Err(StateError::StrideMismatch { image: image_stride, live: live_stride });
            }
        }
        self.keys = copied(image.keys.as_slice());
        self.values = copied(image.values.as_slice());
        self.positions = image.positions;
        Ok(())
    }
}

impl<T> Default for QuantizedAttentionState<T> {
    fn default() -> (state: Self)
        ensures
            state@ == (CacheView {
                keys: Seq::<T>::empty(),
                values: Seq::<T>::empty(),
                positions: 0,
            }),
    {
        Self::empty()
    }
}

/// A consistent cache restores from its own image, over an empty cache or over
/// one with the same stride, whatever that held.
pub proof fn an_image_restores_over_any_cache_of_its_stride<T>(
    live: CacheView<T>,
    saved: CacheView<T>,
)
    requires
        rows_divide(saved),
        live.positions == 0 || saved.positions == 0 || live.keys.len() / live.positions
            == saved.keys.len() / saved.positions,
    ensures
        restore_image_error(live, saved) is None,
{
}

/// Truncation keeps the stride: every kept position holds as many key and
/// value elements as before, and truncating twice is truncating once.
pub proof fn truncation_keeps_the_stride<T>(c: CacheView<T>, first: nat, second: nat)
    requires
        rows_divide(c),
        0 < second <= first <= c.positions,
    ensures
        rows_divide(truncated(c, first)),
        truncated(c, first).keys.len() / first == c.keys.len() / c.positions,
        truncated(c, first).values.len() / first == c.values.len() / c.positions,
        truncated(truncated(c, first), second) == truncated(c, second),
{
    if first < c.positions {
        let per_key: int = c.keys.len() as int / c.positions as int;
        let per_value: int = c.values.len() as int / c.positions as int;
        lemma_rows_fit(c.keys.len(), c.positions, first);
        lemma_rows_fit(c.values.len(), c.positions, first);
        lemma_mul_is_commutative(first as int, per_key);
        lemma_mul_is_commutative(first as int, per_value);
        lemma_div_multiples_vanish(per_key, first as int);
        lemma_div_multiples_vanish(per_value, first as int);
        vstd::arithmetic::div_mod::lemma_mod_multiples_basic(per_key, first as int);
        vstd::arithmetic::div_mod::lemma_mod_multiples_basic(per_value, first as int);
        if second < first {
            assert(second * per_key <= first * per_key && second * per_value <= first * per_value)
                by (nonlinear_arith)
                requires
                    second <= first,
                    0 <= per_key,
                    0 <= per_value,
            ;
            let t = truncated(truncated(c, first), second);
            assert(t.keys =~= truncated(c, second).keys);
            assert(t.values =~= truncated(c, second).values);
        }
    }
}

} // verus!
