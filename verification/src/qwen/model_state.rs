//! The state of a whole sequence: one state per decoder layer, and the three
//! ways of going back: to a checkpoint, to an image, to a row of a pass.

use crate::qwen::attention_state::{
    image_error, restore_image_error, rows_divide, truncated, truncation_error, CacheView,
    QuantizedAttentionImage, QuantizedAttentionState, StateError,
};
use crate::qwen::delta_state::{
    restored, same_shape, snapshot_error, DeltaGeometry, QuantizedDeltaCheckpoint,
    QuantizedDeltaSnapshots, QuantizedDeltaState, RecurrenceView, SnapshotsView,
};
use vstd::prelude::*;

verus! {

/// The state of one decoder layer.
#[derive(Debug, Clone)]
pub enum DecoderState<T> {
    Full(QuantizedAttentionState<T>),
    Linear(QuantizedDeltaState<T>),
}

/// Contents of one layer's state.
pub ghost enum LayerView<T> {
    Full(CacheView<T>),
    Linear(RecurrenceView<T>),
}

impl<T> View for DecoderState<T> {
    type V = LayerView<T>;

    open spec fn view(&self) -> LayerView<T> {
        match *self {
            DecoderState::Full(state) => LayerView::Full(state@),
            DecoderState::Linear(state) => LayerView::Linear(state@),
        }
    }
}

/// What a checkpoint keeps of one layer: of an append-only cache only how far
/// it reached.
#[derive(Debug, Clone)]
pub enum DecoderCheckpoint<T> {
    Full { position: usize },
    Linear(QuantizedDeltaCheckpoint<T>),
}

/// Contents of one layer's checkpoint.
pub ghost enum SavedView<T> {
    Full { position: nat },
    Linear(RecurrenceView<T>),
}

impl<T> View for DecoderCheckpoint<T> {
    type V = SavedView<T>;

    open spec fn view(&self) -> SavedView<T> {
        match *self {
            DecoderCheckpoint::Full { position } => SavedView::Full { position: position as nat },
            DecoderCheckpoint::Linear(saved) => SavedView::Linear(saved@),
        }
    }
}

/// What a live state can be rolled back to.
#[derive(Debug, Clone)]
pub struct QuantizedModelCheckpoint<T> {
    pub layers: Vec<DecoderCheckpoint<T>>,
    pub position: usize,
}

/// One layer's complete state, key/value rows included.
#[derive(Debug, Clone, PartialEq)]
pub enum LayerStateImage<T> {
    Full(QuantizedAttentionImage<T>),
    Linear(QuantizedDeltaCheckpoint<T>),
}

impl<T> View for LayerStateImage<T> {
    type V = LayerView<T>;

    open spec fn view(&self) -> LayerView<T> {
        match *self {
            LayerStateImage::Full(image) => LayerView::Full(image@),
            LayerStateImage::Linear(image) => LayerView::Linear(image@),
        }
    }
}

/// Elements that a layer's state holds.
pub open spec fn element_count<T>(layer: LayerView<T>) -> nat {
    match layer {
        LayerView::Full(c) => c.keys.len() + c.values.len(),
        LayerView::Linear(r) => r.conv.len() + r.recurrent.len(),
    }
}

/// Bytes that a sequence of layers holds, at four bytes per element.
pub open spec fn total_bytes<T>(layers: Seq<LayerView<T>>) -> nat
    decreases layers.len(),
{
    if layers.len() == 0 {
        0
    } else {
        total_bytes(layers.drop_last()) + element_count(layers.last()) * 4
    }
}

proof fn lemma_total_bytes_grows<T>(layers: Seq<LayerView<T>>, n: int)
    requires
        0 <= n <= layers.len(),
    ensures
        total_bytes(layers.take(n)) <= total_bytes(layers),
    decreases layers.len() - n,
{
    if n < layers.len() {
        assert(layers.take(n + 1).drop_last() =~= layers.take(n));
        lemma_total_bytes_grows(layers, n + 1);
    } else {
        assert(layers.take(n) =~= layers);
    }
}

impl<T> LayerStateImage<T> {
    /// Bytes of this layer's state.
    pub fn bytes(&self) -> (bytes: usize)
        requires
            element_count(self@) * 4 <= usize::MAX,
        ensures
            bytes == element_count(self@) * 4,
    {
        match self {
            LayerStateImage::Full(image) => image.bytes(),
            LayerStateImage::Linear(image) => image.bytes(),
        }
    }
}

/// A self-contained copy of a sequence's model state.
///
/// [`QuantizedModelCheckpoint`] exists to roll a live state back and therefore
/// stores only what truncation cannot recover. An image is the whole thing, so
/// it can be written to disk and restored into a state that never saw the
/// tokens that produced it.
#[derive(Debug, Clone, PartialEq)]
pub struct QuantizedStateImage<T> {
    pub layers: Vec<LayerStateImage<T>>,
    pub position: usize,
}

/// Contents of a sequence's state.
pub ghost struct SequenceView<T> {
    pub layers: Seq<LayerView<T>>,
    pub position: nat,
}

/// What is wrong with a sequence's state from layer `from` on: a full layer
/// whose rows do not divide, or that is at another position.
pub open spec fn image_problem<T>(s: SequenceView<T>, from: int) -> Option<StateError>
    decreases s.layers.len() - from,
{
    if from < 0 || from >= s.layers.len() {
        None
    } else {
        match s.layers[from] {
            LayerView::Full(c) => {
                if image_error(c) is Some {
                    image_error(c)
                } else if c.positions != s.position {
                    Some(
                        StateError::LayerPositions {
                            layer: from as usize,
                            positions: c.positions as usize,
                            image: s.position as usize,
                        },
                    )
                } else {
                    image_problem(s, from + 1)
                }
            },
            LayerView::Linear(_) => image_problem(s, from + 1),
        }
    }
}

impl<T> View for QuantizedStateImage<T> {
    type V = SequenceView<T>;

    open spec fn view(&self) -> SequenceView<T> {
        SequenceView {
            layers: Seq::new(self.layers@.len(), |i: int| self.layers@[i]@),
            position: self.position as nat,
        }
    }
}

impl<T> QuantizedStateImage<T> {
    /// Bytes of all layers.
    pub fn bytes(&self) -> (bytes: usize)
        requires
            total_bytes(self@.layers) <= usize::MAX,
        ensures
            bytes == total_bytes(self@.layers),
    {
        let mut total: usize = 0;
        let mut i: usize = 0;
        let ghost layers = self@.layers;
        proof {
            assert(layers.take(0) =~= Seq::<LayerView<T>>::empty());
        }
        while i < self.layers.len()
            invariant
                i <= self.layers@.len(),
                layers == self@.layers,
                total == total_bytes(layers.take(i as int)),
                total_bytes(layers) <= usize::MAX,
            decreases self.layers@.len() - i,
        {
            proof {
                assert(layers.take(i + 1).drop_last() =~= layers.take(i as int));
                lemma_total_bytes_grows(layers, i + 1);
            }
            total = total + self.layers[i].bytes();
            i += 1;
        }
        proof {
            assert(layers.take(layers.len() as int) =~= layers);
        }
        total
    }

    /// Check the image against itself: every full-attention layer must hold
    /// exactly the sequence position the image claims.
    pub fn validate(&self) -> (result: Result<(), StateError>)
        ensures
            match result {
                Ok(_) => image_problem(self@, 0) is None,
                Err(error) => image_problem(self@, 0) == Some(error),
            },
    {
        let mut i: usize = 0;
        while i < self.layers.len()
            invariant
                i <= self.layers@.len(),
                image_problem(self@, 0) == image_problem(self@, i as int),
            decreases self.layers@.len() - i,
        {
            proof {
                assert(self@.layers[i as int] == self.layers@[i as int]@);
            }
            match &self.layers[i] {
                LayerStateImage::Full(image) => {
                    match image.validate() {
                        Ok(_) => {},
                        Err(error) => {
                            return Err(error);
                        },
                    }
                    if image.positions != self.position {
                        return Err(
                            StateError::LayerPositions {
                                layer: i,
                                positions: image.positions,
                                image: self.position,
                            },
                        );
                    }
                },
                LayerStateImage::Linear(_) => {},
            }
            i += 1;
        }
        Ok(())
    }
}

/// Everything a session needs to go on from where it stopped.
#[derive(Debug, Clone, PartialEq)]
pub struct SessionImage<T> {
    /// The tokens that the state has consumed.
    pub tokens: Vec<u32>,
    pub model: QuantizedStateImage<T>,
    /// The predictor's own cache.
    pub mtp: Option<QuantizedAttentionImage<T>>,
    /// The hidden row that the predictor starts from.
    pub last_target_hidden: Option<Vec<T>>,
}

/// Contents of a session image.
pub ghost struct ImageView<T> {
    pub tokens: Seq<u32>,
    pub model: SequenceView<T>,
    pub mtp: Option<CacheView<T>>,
    pub last_target_hidden: Option<Seq<T>>,
}

impl<T> View for SessionImage<T> {
    type V = ImageView<T>;

    open spec fn view(&self) -> ImageView<T> {
        ImageView {
            tokens: self.tokens@,
            model: self.model@,
            mtp: match self.mtp {
                Some(mtp) => Some(mtp@),
                None => None,
            },
            last_target_hidden: match self.last_target_hidden {
                Some(hidden) => Some(hidden@),
                None => None,
            },
        }
    }
}

impl<T> SessionImage<T> {
    /// How many tokens the state has consumed.
    pub fn position(&self) -> (position: usize)
        ensures
            position == self.model@.position,
    {
        self.model.position
    }
}

/// The state of one sequence in a model.
#[derive(Debug, Clone)]
pub struct QuantizedModelState<T> {
    pub layers: Vec<DecoderState<T>>,
    pub position: usize,
    /// Elements of a key row, and of a value row, in the full-attention layers
    /// of the model.
    pub row_width: usize,
}

impl<T> View for QuantizedModelState<T> {
    type V = SequenceView<T>;

    open spec fn view(&self) -> SequenceView<T> {
        SequenceView {
            layers: Seq::new(self.layers@.len(), |i: int| self.layers@[i]@),
            position: self.position as nat,
        }
    }
}

impl<T> QuantizedModelCheckpoint<T> {
    /// What the checkpoint keeps, layer by layer.
    pub open spec fn saved(&self) -> Seq<SavedView<T>> {
        Seq::new(self.layers@.len(), |i: int| self.layers@[i]@)
    }
}

/// What a checkpoint keeps of a layer.
pub open spec fn checkpoint_of<T>(layer: LayerView<T>) -> SavedView<T> {
    match layer {
        LayerView::Full(c) => SavedView::Full { position: c.positions },
        LayerView::Linear(r) => SavedView::Linear(r),
    }
}

/// Taking one layer back to its checkpoint.
pub open spec fn restore_layer<T>(live: LayerView<T>, saved: SavedView<T>, index: int) -> Result<
    LayerView<T>,
    StateError,
> {
    match (live, saved) {
        (LayerView::Full(c), SavedView::Full { position }) => match truncation_error(
            c,
            position as int,
        ) {
            Some(error) => Err(error),
            None => Ok(LayerView::Full(truncated(c, position))),
        },
        (LayerView::Linear(r), SavedView::Linear(s)) => if same_shape(r, s) {
            Ok(LayerView::Linear(s))
        } else {
            Err(StateError::CheckpointDimensions)
        },
        _ => Err(StateError::LayerType { layer: index as usize }),
    }
}

/// Whether a cache holds rows of `width` elements, one key row and one value
/// row per position.
pub open spec fn has_rows_of<T>(c: CacheView<T>, width: int) -> bool {
    c.keys.len() == c.positions * width && c.values.len() == c.positions * width
}

/// Replacing one layer by its image, in a model whose key and value rows are
/// `width` elements wide.
pub open spec fn restore_layer_image<T>(
    live: LayerView<T>,
    saved: LayerView<T>,
    index: int,
    width: usize,
) -> Result<LayerView<T>, StateError> {
    match (live, saved) {
        (LayerView::Full(c), LayerView::Full(s)) => if !has_rows_of(s, width as int) {
            Err(
                StateError::RowWidth {
                    layer: index as usize,
                    keys: s.keys.len() as usize,
                    values: s.values.len() as usize,
                    width,
                },
            )
        } else {
            match restore_image_error(c, s) {
                Some(error) => Err(error),
                None => Ok(LayerView::Full(s)),
            }
        },
        (LayerView::Linear(r), LayerView::Linear(s)) => if same_shape(r, s) {
            Ok(LayerView::Linear(s))
        } else {
            Err(StateError::CheckpointDimensions)
        },
        _ => Err(StateError::LayerType { layer: index as usize }),
    }
}

/// How many of the first `n` layers are linear.
pub open spec fn linear_count<T>(layers: Seq<LayerView<T>>, n: int) -> nat
    decreases n,
{
    if n <= 0 {
        0
    } else {
        linear_count(layers, n - 1) + if layers[n - 1] is Linear {
            1nat
        } else {
            0nat
        }
    }
}

/// Rolling one layer back to a row of a pass.
pub open spec fn rollback_layer<T>(
    live: LayerView<T>,
    snapshots: Seq<SnapshotsView<T>>,
    linear: int,
    index: int,
    position: int,
    committed: int,
) -> Result<LayerView<T>, StateError> {
    match live {
        LayerView::Full(c) => match truncation_error(c, position) {
            Some(error) => Err(error),
            None => Ok(LayerView::Full(truncated(c, position as nat))),
        },
        LayerView::Linear(r) => if linear >= snapshots.len() {
            Err(StateError::MissingSnapshots { layer: index as usize })
        } else {
            match snapshot_error(snapshots[linear], committed, r) {
                Some(error) => Err(error),
                None => Ok(LayerView::Linear(restored(snapshots[linear], committed, r))),
            }
        },
    }
}

/// How many layers, counted from `from` on, a layer-by-layer operation gets
/// through before one of them fails.
pub open spec fn layers_done<T>(steps: Seq<Result<LayerView<T>, StateError>>, from: int) -> int
    decreases steps.len() - from,
{
    if 0 <= from < steps.len() && steps[from] is Ok {
        layers_done(steps, from + 1)
    } else {
        from
    }
}

/// What a layer-by-layer operation leaves behind: layers up to the first one
/// that fails are changed, that one and the later ones are not.
pub open spec fn applied<T>(
    before: Seq<LayerView<T>>,
    steps: Seq<Result<LayerView<T>, StateError>>,
) -> Seq<LayerView<T>> {
    Seq::new(
        before.len(),
        |i: int|
            if i < layers_done(steps, 0) {
                steps[i]->Ok_0
            } else {
                before[i]
            },
    )
}

/// What a layer-by-layer operation returns: the first failure, if there is one.
pub open spec fn outcome<T>(steps: Seq<Result<LayerView<T>, StateError>>) -> Result<
    (),
    StateError,
> {
    if layers_done(steps, 0) < steps.len() {
        Err(steps[layers_done(steps, 0)]->Err_0)
    } else {
        Ok(())
    }
}

/// Where every step succeeds, every layer is changed.
pub proof fn lemma_all_done<T>(steps: Seq<Result<LayerView<T>, StateError>>, from: int)
    requires
        0 <= from <= steps.len(),
        forall|i: int| from <= i < steps.len() ==> #[trigger] steps[i] is Ok,
    ensures
        layers_done(steps, from) == steps.len(),
    decreases steps.len() - from,
{
    if from < steps.len() {
        assert(steps[from] is Ok);
        lemma_all_done(steps, from + 1);
    }
}

/// Rolling back each layer to a row of a pass.
pub open spec fn rollback_steps<T>(
    layers: Seq<LayerView<T>>,
    pass: PassView<T>,
    committed: int,
) -> Seq<Result<LayerView<T>, StateError>> {
    Seq::new(
        layers.len(),
        |i: int|
            rollback_layer(
                layers[i],
                pass.linear_layers,
                linear_count(layers, i) as int,
                i,
                pass.position + committed,
                committed,
            ),
    )
}

/// Whether a pass of so many rows can be asked to roll back to `committed` of
/// them: to fewer than all. An arena that recorded no rows bounds nothing but
/// the position that it stands at itself; how far the layers can follow then
/// decides.
pub open spec fn can_ask(committed: int, rows: int) -> bool {
    committed < rows || (rows == 0 && committed > 0)
}

/// Taking each layer back to its checkpoint.
pub open spec fn restore_steps<T>(layers: Seq<LayerView<T>>, saved: Seq<SavedView<T>>) -> Seq<
    Result<LayerView<T>, StateError>,
> {
    Seq::new(layers.len(), |i: int| restore_layer(layers[i], saved[i], i))
}

/// Replacing each layer by its image.
pub open spec fn image_steps<T>(
    layers: Seq<LayerView<T>>,
    saved: Seq<LayerView<T>>,
    width: usize,
) -> Seq<Result<LayerView<T>, StateError>> {
    Seq::new(layers.len(), |i: int| restore_layer_image(layers[i], saved[i], i, width))
}

/// Reusable per-row rollback snapshots for one multi-row verification pass.
///
/// Full-attention layers need no storage: their key/value cache is append-only
/// and rolls back with `truncate`. Only the linear layers' recurrent state is
/// copied, one slot per row boundary the pass crosses.
#[derive(Debug, Clone)]
pub struct QuantizedStateSnapshots<T> {
    linear_layers: Vec<QuantizedDeltaSnapshots<T>>,
    /// The position of the state immediately before the pass began.
    position: usize,
    rows: usize,
    nontemporal: bool,
}

/// Contents of the snapshots of a pass.
pub ghost struct PassView<T> {
    pub linear_layers: Seq<SnapshotsView<T>>,
    pub position: nat,
    pub rows: nat,
}

impl<T> View for QuantizedStateSnapshots<T> {
    type V = PassView<T>;

    closed spec fn view(&self) -> PassView<T> {
        PassView {
            linear_layers: Seq::new(self.linear_layers@.len(), |i: int| self.linear_layers@[i]@),
            position: self.position as nat,
            rows: self.rows as nat,
        }
    }
}

/// The states of the linear layers, in order.
pub open spec fn linear_layers_of<T>(layers: Seq<LayerView<T>>) -> Seq<RecurrenceView<T>>
    decreases layers.len(),
{
    if layers.len() == 0 {
        Seq::empty()
    } else {
        match layers.last() {
            LayerView::Linear(r) => linear_layers_of(layers.drop_last()).push(r),
            LayerView::Full(_) => linear_layers_of(layers.drop_last()),
        }
    }
}

proof fn lemma_linear_layers_count_up<T>(layers: Seq<LayerView<T>>, n: int)
    requires
        0 <= n <= layers.len(),
    ensures
        linear_layers_of(layers.take(n)).len() == linear_count(layers, n),
        linear_count(layers, n) <= n,
    decreases n,
{
    if n > 0 {
        assert(layers.take(n).drop_last() =~= layers.take(n - 1));
        lemma_linear_layers_count_up(layers, n - 1);
    }
}

/// Linear layers that come first keep their place among the linear layers.
proof fn lemma_linear_layers_prefix<T>(layers: Seq<LayerView<T>>, n: int, m: int)
    requires
        0 <= n <= m <= layers.len(),
    ensures
        linear_layers_of(layers.take(n)).len() <= linear_layers_of(layers.take(m)).len(),
        forall|k: int|
            0 <= k < linear_layers_of(layers.take(n)).len() ==> #[trigger] linear_layers_of(
                layers.take(m),
            )[k] == linear_layers_of(layers.take(n))[k],
    decreases m - n,
{
    if n < m {
        lemma_linear_layers_prefix(layers, n, m - 1);
        assert(layers.take(m).drop_last() =~= layers.take(m - 1));
    }
}

/// The linear layers are numbered in order: the arena that a pass uses for a
/// linear layer is the one that a rollback looks up for it.
pub proof fn linear_layers_are_numbered_in_order<T>(layers: Seq<LayerView<T>>, i: int)
    requires
        0 <= i < layers.len(),
        layers[i] is Linear,
    ensures
        linear_count(layers, i) < linear_layers_of(layers).len(),
        linear_layers_of(layers)[linear_count(layers, i) as int] == layers[i]->Linear_0,
{
    lemma_linear_layers_count_up(layers, i);
    assert(layers.take(i + 1).drop_last() =~= layers.take(i));
    lemma_linear_layers_prefix(layers, i + 1, layers.len() as int);
    assert(layers.take(layers.len() as int) =~= layers);
}

impl<T> QuantizedStateSnapshots<T> {
    /// Every arena is well formed.
    pub closed spec fn wf(&self) -> bool {
        forall|i: int| 0 <= i < self.linear_layers@.len() ==> (#[trigger] self.linear_layers@[i]).wf()
    }

    /// Whether snapshot copies use streaming stores.
    pub closed spec fn streams(&self) -> bool {
        self.nontemporal
    }

    /// Snapshots of no pass at all.
    pub fn empty() -> (snapshots: Self)
        ensures
            snapshots.wf(),
            snapshots@.linear_layers.len() == 0,
            snapshots@.position == 0,
            snapshots@.rows == 0,
            !snapshots.streams(),
    {
        QuantizedStateSnapshots {
            linear_layers: Vec::new(),
            position: 0,
            rows: 0,
            nontemporal: false,
        }
    }

    /// Use streaming stores for the snapshot copy where the CPU supports them.
    pub fn set_nontemporal(&mut self, nontemporal: bool)
        ensures
            final(self).streams() == nontemporal,
            final(self)@ == old(self)@,
            old(self).wf() ==> final(self).wf(),
    {
        self.nontemporal = nontemporal;
    }

    /// Whether snapshot copies use streaming stores.
    pub fn nontemporal(&self) -> (nontemporal: bool)
        ensures
            nontemporal == self.streams(),
    {
        self.nontemporal
    }

    /// Where the pass began.
    pub fn position(&self) -> (position: usize)
        ensures
            position == self@.position,
    {
        self.position
    }

    /// Rows of the pass.
    pub fn rows(&self) -> (rows: usize)
        ensures
            rows == self@.rows,
    {
        self.rows
    }

    /// Bytes copied per stored row across every linear layer.
    pub fn bytes_per_row(&self) -> (bytes: usize)
        requires
            row_bytes(self@.linear_layers) <= usize::MAX,
        ensures
            bytes == row_bytes(self@.linear_layers),
    {
        let mut total: usize = 0;
        let mut i: usize = 0;
        let ghost arenas = self@.linear_layers;
        proof {
            assert(arenas.take(0) =~= Seq::<SnapshotsView<T>>::empty());
        }
        while i < self.linear_layers.len()
            invariant
                i <= self.linear_layers@.len(),
                arenas == self@.linear_layers,
                total == row_bytes(arenas.take(i as int)),
                row_bytes(arenas) <= usize::MAX,
            decreases self.linear_layers@.len() - i,
        {
            proof {
                assert(arenas.take(i + 1).drop_last() =~= arenas.take(i as int));
                lemma_row_bytes_grows(arenas, i + 1);
                assert(arenas[i as int] == self.linear_layers@[i as int]@);
            }
            total = total + self.linear_layers[i].bytes_per_row();
            i += 1;
        }
        proof {
            assert(arenas.take(arenas.len() as int) =~= arenas);
        }
        total
    }
}

impl<T> QuantizedStateSnapshots<T> {
    /// The number of linear layers that have an arena.
    pub fn linear_layers(&self) -> (count: usize)
        ensures
            count == self@.linear_layers.len(),
    {
        self.linear_layers.len()
    }

    /// The arena of a linear layer.
    pub fn layer_mut(&mut self, linear_index: usize) -> (arena: &mut QuantizedDeltaSnapshots<T>)
        requires
            old(self).wf(),
            linear_index < old(self)@.linear_layers.len(),
        ensures
            arena.wf(),
            arena@ == old(self)@.linear_layers[linear_index as int],
            final(self)@.linear_layers == old(self)@.linear_layers.update(
                linear_index as int,
                final(arena)@,
            ),
            final(self)@.position == old(self)@.position,
            final(self)@.rows == old(self)@.rows,
            final(self).streams() == old(self).streams(),
            final(arena).wf() ==> final(self).wf(),
    {
        &mut self.linear_layers[linear_index]
    }
}

/// Bytes of one row over all arenas, at four bytes per element.
pub open spec fn row_bytes<T>(arenas: Seq<SnapshotsView<T>>) -> nat
    decreases arenas.len(),
{
    if arenas.len() == 0 {
        0
    } else {
        row_bytes(arenas.drop_last()) + (arenas.last().conv_len + arenas.last().recurrent_len) * 4
    }
}

proof fn lemma_row_bytes_grows<T>(arenas: Seq<SnapshotsView<T>>, n: int)
    requires
        0 <= n <= arenas.len(),
    ensures
        row_bytes(arenas.take(n)) <= row_bytes(arenas),
    decreases arenas.len() - n,
{
    if n < arenas.len() {
        assert(arenas.take(n + 1).drop_last() =~= arenas.take(n));
        lemma_row_bytes_grows(arenas, n + 1);
    } else {
        assert(arenas.take(n) =~= arenas);
    }
}

impl<T: Copy> QuantizedStateSnapshots<T> {
    /// Prepare the arena for a pass of `rows` rows starting at `state`.
    ///
    /// Buffers are allocated on the first pass that needs them and reused
    /// afterwards.
    pub fn begin_pass(&mut self, state: &QuantizedModelState<T>, rows: usize, zero: T)
        requires
            old(self).wf(),
            forall|i: int|
                0 <= i < state@.layers.len() && #[trigger] state@.layers[i] is Linear ==> rows
                    * state@.layers[i]->Linear_0.conv.len() <= usize::MAX && rows
                    * state@.layers[i]->Linear_0.recurrent.len() <= usize::MAX,
        ensures
            final(self).wf(),
            final(self)@.position == state@.position,
            final(self)@.rows == rows,
            final(self).streams() == old(self).streams(),
            final(self)@.linear_layers.len() == linear_layers_of(state@.layers).len(),
            forall|k: int|
                0 <= k < final(self)@.linear_layers.len() ==> {
                    let arena = #[trigger] final(self)@.linear_layers[k];
                    &&& arena.slots.len() == rows
                    &&& arena.conv_len == linear_layers_of(state@.layers)[k].conv.len()
                    &&& arena.recurrent_len == linear_layers_of(state@.layers)[k].recurrent.len()
                    &&& arena.stored_rows == 0
                },
    {
        let ghost layers = state@.layers;
        let mut i: usize = 0;
        let mut linear: usize = 0;
        proof {
            assert(layers.take(0) =~= Seq::<LayerView<T>>::empty());
        }
        while i < state.layers.len()
            invariant
                i <= state.layers@.len(),
                layers == state@.layers,
                linear == linear_layers_of(layers.take(i as int)).len(),
                linear <= i,
                self.wf(),
                self.streams() == old(self).streams(),
                linear <= self.linear_layers@.len(),
                forall|j: int|
                    0 <= j < layers.len() && #[trigger] layers[j] is Linear ==> rows
                        * layers[j]->Linear_0.conv.len() <= usize::MAX && rows
                        * layers[j]->Linear_0.recurrent.len() <= usize::MAX,
                forall|k: int|
                    0 <= k < linear ==> {
                        let arena = (#[trigger] self.linear_layers@[k])@;
                        &&& arena.slots.len() == rows
                        &&& arena.conv_len == linear_layers_of(layers.take(i as int))[k].conv.len()
                        &&& arena.recurrent_len == linear_layers_of(
                            layers.take(i as int),
                        )[k].recurrent.len()
                        &&& arena.stored_rows == 0
                    },
            decreases state.layers@.len() - i,
        {
            proof {
                assert(layers.take(i + 1).drop_last() =~= layers.take(i as int));
                assert(layers.take(i + 1).last() == layers[i as int]);
                assert(layers[i as int] == state.layers@[i as int]@);
            }
            match &state.layers[i] {
                DecoderState::Linear(delta) => {
                    let mut arena: QuantizedDeltaSnapshots<T> = QuantizedDeltaSnapshots::empty();
                    let found: bool = linear < self.linear_layers.len();
                    if found {
                        std::mem::swap(&mut arena, &mut self.linear_layers[linear]);
                    }
                    arena.reserve(rows, delta.conv_len(), delta.recurrent_len(), zero);
                    if found {
                        std::mem::swap(&mut arena, &mut self.linear_layers[linear]);
                    } else {
                        self.linear_layers.push(arena);
                    }
                    linear += 1;
                },
                DecoderState::Full(_) => {},
            }
            i += 1;
        }
        self.linear_layers.truncate(linear);
        self.position = state.position;
        self.rows = rows;
        proof {
            assert(layers.take(layers.len() as int) =~= layers);
        }
    }
}

impl<T: Copy> QuantizedModelState<T> {
    /// The state of a sequence without tokens: an empty cache per full layer,
    /// zeros per linear layer.
    pub fn new(kinds: &[bool], row_width: usize, geometry: &DeltaGeometry, zero: T) -> (state: Self)
        requires
            forall|i: int| 0 <= i < kinds@.len() && !(#[trigger] kinds@[i]) ==> geometry.fits(),
        ensures
            state@.position == 0,
            state.row_width == row_width,
            state@.layers.len() == kinds@.len(),
            forall|i: int|
                0 <= i < kinds@.len() ==> #[trigger] state@.layers[i] == if kinds@[i] {
                    LayerView::Full(
                        CacheView {
                            keys: Seq::<T>::empty(),
                            values: Seq::<T>::empty(),
                            positions: 0,
                        },
                    )
                } else {
                    LayerView::Linear(
                        RecurrenceView {
                            conv: crate::buffers::repeated(zero, geometry.conv_state_len()),
                            recurrent: crate::buffers::repeated(
                                zero,
                                geometry.recurrent_state_len(),
                            ),
                        },
                    )
                },
    {
        let mut layers: Vec<DecoderState<T>> = Vec::new();
        let mut i: usize = 0;
        while i < kinds.len()
            invariant
                forall|i: int| 0 <= i < kinds@.len() && !(#[trigger] kinds@[i]) ==> geometry.fits(),
                i <= kinds@.len(),
                layers@.len() == i,
                forall|j: int|
                    0 <= j < i ==> (#[trigger] layers@[j])@ == if kinds@[j] {
                        LayerView::Full(
                            CacheView {
                                keys: Seq::<T>::empty(),
                                values: Seq::<T>::empty(),
                                positions: 0,
                            },
                        )
                    } else {
                        LayerView::Linear(
                            RecurrenceView {
                                conv: crate::buffers::repeated(zero, geometry.conv_state_len()),
                                recurrent: crate::buffers::repeated(
                                    zero,
                                    geometry.recurrent_state_len(),
                                ),
                            },
                        )
                    },
            decreases kinds@.len() - i,
        {
            if kinds[i] {
                layers.push(DecoderState::Full(QuantizedAttentionState::empty()));
            } else {
                layers.push(
                    DecoderState::Linear(QuantizedDeltaState::with_geometry(geometry, zero)),
                );
            }
            i += 1;
        }
        QuantizedModelState { layers, position: 0, row_width }
    }

    /// Roll the state back to the boundary after `committed_rows` rows of the
    /// pass that produced `snapshots`.
    ///
    /// This costs one state copy per linear layer plus a cache truncation per
    /// full-attention layer; it never replays a forward pass. Passing
    /// `committed_rows == snapshots.rows()` is rejected because a fully
    /// accepted pass has no snapshot to roll back to and needs none.
    ///
    /// Layers are rolled back in order. Where one of them fails, the layers
    /// before it are rolled back already and the position is as it was.
    pub fn rollback(
        &mut self,
        snapshots: &QuantizedStateSnapshots<T>,
        committed_rows: usize,
    ) -> (result: Result<(), StateError>)
        requires
            snapshots.wf(),
            can_ask(committed_rows as int, snapshots@.rows as int) ==> snapshots@.position
                + committed_rows <= usize::MAX,
        ensures
            !can_ask(committed_rows as int, snapshots@.rows as int) ==> result == Err::<(), StateError>(
                StateError::RollbackRows {
                    committed: committed_rows,
                    rows: snapshots@.rows as usize,
                },
            ) && *final(self) == *old(self),
            can_ask(committed_rows as int, snapshots@.rows as int) ==> {
                let steps = rollback_steps(
                    old(self)@.layers,
                    snapshots@,
                    committed_rows as int,
                );
                &&& result == outcome(steps)
                &&& final(self)@.layers == applied(old(self)@.layers, steps)
            },
            final(self)@.position == (if result is Ok {
                (snapshots@.position + committed_rows) as nat
            } else {
                old(self)@.position
            }),
            final(self).row_width == old(self).row_width,
    {
        if committed_rows == snapshots.rows || (committed_rows > snapshots.rows && snapshots.rows
            > 0) {
            return Err(
                StateError::RollbackRows { committed: committed_rows, rows: snapshots.rows },
            );
        }
        let position: usize = snapshots.position + committed_rows;
        let ghost before = self@.layers;
        let ghost steps = rollback_steps(before, snapshots@, committed_rows as int);
        let mut linear: usize = 0;
        let mut i: usize = 0;
        while i < self.layers.len()
            invariant
                i <= self.layers@.len(),
                snapshots.wf(),
                before == old(self)@.layers,
                self.position == old(self).position,
                self.row_width == old(self).row_width,
                self.layers@.len() == before.len(),
                linear == linear_count(before, i as int),
                linear <= i,
                position == snapshots@.position + committed_rows,
                can_ask(committed_rows as int, snapshots@.rows as int),
                steps == rollback_steps(before, snapshots@, committed_rows as int),
                layers_done(steps, 0) == layers_done(steps, i as int),
                forall|j: int|
                    0 <= j < i ==> #[trigger] steps[j] is Ok && self@.layers[j] == steps[j]->Ok_0,
                forall|j: int| i <= j < before.len() ==> #[trigger] self@.layers[j] == before[j],
            decreases self.layers@.len() - i,
        {
            let ghost mid = self@.layers;
            let index: usize = i;
            proof {
                assert(self@.layers[i as int] == before[i as int]);
            }
            let outcome: Result<(), StateError> = match &mut self.layers[i] {
                DecoderState::Full(state) => state.truncate(position),
                DecoderState::Linear(state) => {
                    if linear < snapshots.linear_layers.len() {
                        proof {
                            assert(snapshots@.linear_layers[linear as int]
                                == snapshots.linear_layers@[linear as int]@);
                        }
                        let r = snapshots.linear_layers[linear].restore_into(
                            committed_rows,
                            state,
                        );
                        linear += 1;
                        r
                    } else {
                        Err(StateError::MissingSnapshots { layer: index })
                    }
                },
            };
            proof {
                assert forall|j: int| 0 <= j < before.len() && j != i implies #[trigger]
                self@.layers[j] == mid[j] by {}
            }
            match outcome {
                Ok(_) => {
                    proof {
                        assert(steps[i as int] is Ok && self@.layers[i as int]
                            == steps[i as int]->Ok_0);
                    }
                },
                Err(error) => {
                    proof {
                        assert(self@.layers[i as int] == before[i as int]);
                        assert(self@.layers =~= applied(before, steps));
                    }
                    return Err(error);
                },
            }
            i += 1;
        }
        self.position = position;
        proof {
            assert(self@.layers =~= applied(before, steps));
        }
        Ok(())
    }

    /// Copy the whole state, key/value rows included, so it can outlive the
    /// session.
    pub fn image(&self) -> (image: QuantizedStateImage<T>)
        ensures
            image@ == self@,
    {
        let mut layers: Vec<LayerStateImage<T>> = Vec::new();
        let mut i: usize = 0;
        while i < self.layers.len()
            invariant
                i <= self.layers@.len(),
                layers@.len() == i,
                forall|j: int| 0 <= j < i ==> (#[trigger] layers@[j])@ == self.layers@[j]@,
            decreases self.layers@.len() - i,
        {
            match &self.layers[i] {
                DecoderState::Full(state) => {
                    layers.push(LayerStateImage::Full(state.image()));
                },
                DecoderState::Linear(state) => {
                    layers.push(LayerStateImage::Linear(state.image()));
                },
            }
            i += 1;
        }
        let image = QuantizedStateImage { layers, position: self.position };
        proof {
            assert(image@.layers =~= self@.layers);
        }
        image
    }

    /// Replace this state with an image, which may have been produced by an
    /// earlier process. The layer sequence and every tensor length must match
    /// the loaded model exactly; nothing here is coerced.
    ///
    /// Layers are replaced in order. Where one of them does not match, the
    /// layers before it are replaced already and the position is as it was.
    pub fn restore_image(&mut self, image: &QuantizedStateImage<T>) -> (result: Result<
        (),
        StateError,
    >)
        ensures
            old(self)@.layers.len() != image@.layers.len() ==> result == Err::<(), StateError>(
                StateError::LayerCount {
                    saved: image@.layers.len() as usize,
                    live: old(self)@.layers.len() as usize,
                },
            ) && *final(self) == *old(self),
            old(self)@.layers.len() == image@.layers.len() && image_problem(image@, 0) is Some
                ==> result == Err::<(), StateError>(image_problem(image@, 0)->0) && *final(self)
                == *old(self),
            old(self)@.layers.len() == image@.layers.len() && image_problem(image@, 0) is None
                ==> {
                let steps = image_steps(old(self)@.layers, image@.layers, old(self).row_width);
                &&& result == outcome(steps)
                &&& final(self)@.layers == applied(old(self)@.layers, steps)
            },
            final(self)@.position == (if result is Ok {
                image@.position
            } else {
                old(self)@.position
            }),
            final(self).row_width == old(self).row_width,
    {
        if self.layers.len() != image.layers.len() {
            return Err(
                StateError::LayerCount { saved: image.layers.len(), live: self.layers.len() },
            );
        }
        match image.validate() {
            Ok(_) => {},
            Err(error) => {
                return Err(error);
            },
        }
        let ghost before = self@.layers;
        let width: usize = self.row_width;
        let ghost steps = image_steps(before, image@.layers, width);
        let mut i: usize = 0;
        while i < self.layers.len()
            invariant
                i <= self.layers@.len(),
                before == old(self)@.layers,
                self.position == old(self).position,
                self.row_width == old(self).row_width,
                self.layers@.len() == before.len(),
                before.len() == image@.layers.len(),
                image_problem(image@, 0) is None,
                width == old(self).row_width,
                steps == image_steps(before, image@.layers, width),
                layers_done(steps, 0) == layers_done(steps, i as int),
                forall|j: int|
                    0 <= j < i ==> #[trigger] steps[j] is Ok && self@.layers[j] == steps[j]->Ok_0,
                forall|j: int| i <= j < before.len() ==> #[trigger] self@.layers[j] == before[j],
            decreases self.layers@.len() - i,
        {
            let ghost mid = self@.layers;
            let index: usize = i;
            proof {
                assert(self@.layers[i as int] == before[i as int]);
                assert(image@.layers[i as int] == image.layers@[i as int]@);
            }
            let outcome: Result<(), StateError> = match &mut self.layers[i] {
                DecoderState::Full(state) => match &image.layers[index] {
                    LayerStateImage::Full(saved) => {
                        if saved.has_width(width) {
                            state.restore_image(saved)
                        } else {
                            Err(
                                StateError::RowWidth {
                                    layer: index,
                                    keys: saved.keys.len(),
                                    values: saved.values.len(),
                                    width,
                                },
                            )
                        }
                    },
                    LayerStateImage::Linear(_) => Err(StateError::LayerType { layer: index }),
                },
                DecoderState::Linear(state) => match &image.layers[index] {
                    LayerStateImage::Linear(saved) => state.restore(saved),
                    LayerStateImage::Full(_) => Err(StateError::LayerType { layer: index }),
                },
            };
            proof {
                assert forall|j: int| 0 <= j < before.len() && j != i implies #[trigger]
                self@.layers[j] == mid[j] by {}
            }
            match outcome {
                Ok(_) => {
                    proof {
                        assert(steps[i as int] is Ok && self@.layers[i as int]
                            == steps[i as int]->Ok_0);
                    }
                },
                Err(error) => {
                    proof {
                        assert(self@.layers[i as int] == before[i as int]);
                        assert(self@.layers =~= applied(before, steps));
                    }
                    return Err(error);
                },
            }
            i += 1;
        }
        self.position = image.position;
        proof {
            assert(self@.layers =~= applied(before, steps));
        }
        Ok(())
    }

    /// What the state can be rolled back to while it only grows.
    pub fn checkpoint(&self) -> (checkpoint: QuantizedModelCheckpoint<T>)
        ensures
            checkpoint.position == self@.position,
            checkpoint.saved().len() == self@.layers.len(),
            forall|i: int|
                0 <= i < self@.layers.len() ==> #[trigger] checkpoint.saved()[i] == checkpoint_of(
                    self@.layers[i],
                ),
    {
        let mut layers: Vec<DecoderCheckpoint<T>> = Vec::new();
        let mut i: usize = 0;
        while i < self.layers.len()
            invariant
                i <= self.layers@.len(),
                layers@.len() == i,
                forall|j: int|
                    0 <= j < i ==> (#[trigger] layers@[j])@ == checkpoint_of(self.layers@[j]@),
            decreases self.layers@.len() - i,
        {
            match &self.layers[i] {
                DecoderState::Full(state) => {
                    layers.push(DecoderCheckpoint::Full { position: state.positions });
                },
                DecoderState::Linear(state) => {
                    layers.push(DecoderCheckpoint::Linear(state.checkpoint()));
                },
            }
            i += 1;
        }
        QuantizedModelCheckpoint { layers, position: self.position }
    }

    /// Takes every layer back to a checkpoint of this state.
    ///
    /// Layers are taken back in order. Where one of them does not match, the
    /// layers before it are taken back already and the position is as it was.
    pub fn restore(&mut self, checkpoint: &QuantizedModelCheckpoint<T>) -> (result: Result<
        (),
        StateError,
    >)
        ensures
            old(self)@.layers.len() != checkpoint.saved().len() ==> result == Err::<
                (),
                StateError,
            >(
                StateError::LayerCount {
                    saved: checkpoint.saved().len() as usize,
                    live: old(self)@.layers.len() as usize,
                },
            ) && *final(self) == *old(self),
            old(self)@.layers.len() == checkpoint.saved().len() ==> {
                let steps = restore_steps(old(self)@.layers, checkpoint.saved());
                &&& result == outcome(steps)
                &&& final(self)@.layers == applied(old(self)@.layers, steps)
            },
            final(self)@.position == (if result is Ok {
                checkpoint.position as nat
            } else {
                old(self)@.position
            }),
            final(self).row_width == old(self).row_width,
    {
        if self.layers.len() != checkpoint.layers.len() {
            return Err(
                StateError::LayerCount {
                    saved: checkpoint.layers.len(),
                    live: self.layers.len(),
                },
            );
        }
        let ghost before = self@.layers;
        let ghost steps = restore_steps(before, checkpoint.saved());
        let mut i: usize = 0;
        while i < self.layers.len()
            invariant
                i <= self.layers@.len(),
                before == old(self)@.layers,
                self.position == old(self).position,
                self.row_width == old(self).row_width,
                self.layers@.len() == before.len(),
                before.len() == checkpoint.saved().len(),
                steps == restore_steps(before, checkpoint.saved()),
                layers_done(steps, 0) == layers_done(steps, i as int),
                forall|j: int|
                    0 <= j < i ==> #[trigger] steps[j] is Ok && self@.layers[j] == steps[j]->Ok_0,
                forall|j: int| i <= j < before.len() ==> #[trigger] self@.layers[j] == before[j],
            decreases self.layers@.len() - i,
        {
            let ghost mid = self@.layers;
            let index: usize = i;
            proof {
                assert(self@.layers[i as int] == before[i as int]);
                assert(checkpoint.saved()[i as int] == checkpoint.layers@[i as int]@);
            }
            let outcome: Result<(), StateError> = match &mut self.layers[i] {
                DecoderState::Full(state) => match &checkpoint.layers[index] {
                    DecoderCheckpoint::Full { position } => state.truncate(*position),
                    DecoderCheckpoint::Linear(_) => Err(StateError::LayerType { layer: index }),
                },
                DecoderState::Linear(state) => match &checkpoint.layers[index] {
                    DecoderCheckpoint::Linear(saved) => state.restore(saved),
                    DecoderCheckpoint::Full { .. } => Err(StateError::LayerType { layer: index }),
                },
            };
            proof {
                assert forall|j: int| 0 <= j < before.len() && j != i implies #[trigger]
                self@.layers[j] == mid[j] by {}
            }
            match outcome {
                Ok(_) => {
                    proof {
                        assert(steps[i as int] is Ok && self@.layers[i as int]
                            == steps[i as int]->Ok_0);
                    }
                },
                Err(error) => {
                    proof {
                        assert(self@.layers[i as int] == before[i as int]);
                        assert(self@.layers =~= applied(before, steps));
                    }
                    return Err(error);
                },
            }
            i += 1;
        }
        self.position = checkpoint.position;
        proof {
            assert(self@.layers =~= applied(before, steps));
        }
        Ok(())
    }
}

/// Whether `after` is `before` with positions appended.
pub open spec fn cache_extends<T>(after: CacheView<T>, before: CacheView<T>) -> bool {
    &&& rows_divide(after)
    &&& rows_divide(before)
    &&& before.positions <= after.positions
    &&& before.keys == after.keys.take(before.keys.len() as int)
    &&& before.values == after.values.take(before.values.len() as int)
    &&& before.keys.len() <= after.keys.len()
    &&& before.values.len() <= after.values.len()
    &&& before.positions > 0 ==> {
        &&& after.keys.len() / after.positions == before.keys.len() / before.positions
        &&& after.values.len() / after.positions == before.values.len() / before.positions
    }
}

/// Whether `after` can come from `before` by running tokens through it: caches
/// have grown, recurrences hold anything of the same dimensions.
pub open spec fn layer_extends<T>(after: LayerView<T>, before: LayerView<T>) -> bool {
    match (after, before) {
        (LayerView::Full(a), LayerView::Full(b)) => cache_extends(a, b),
        (LayerView::Linear(a), LayerView::Linear(b)) => same_shape(a, b),
        _ => false,
    }
}

/// Truncation takes appended positions away again.
proof fn lemma_truncation_undoes_growth<T>(after: CacheView<T>, before: CacheView<T>)
    requires
        cache_extends(after, before),
    ensures
        truncation_error(after, before.positions as int) is None,
        truncated(after, before.positions) == before,
{
    let t = truncated(after, before.positions);
    if before.positions == 0 {
        if after.positions > 0 {
            let per_key: int = after.keys.len() as int / after.positions as int;
            let per_value: int = after.values.len() as int / after.positions as int;
            assert(0 * per_key == 0 && 0 * per_value == 0) by (nonlinear_arith);
        }
        assert(t.keys =~= before.keys);
        assert(t.values =~= before.values);
    } else {
        let n = before.positions as int;
        let m = after.positions as int;
        let pk = before.keys.len() as int / n;
        let pv = before.values.len() as int / n;
        vstd::arithmetic::div_mod::lemma_fundamental_div_mod(before.keys.len() as int, n);
        vstd::arithmetic::div_mod::lemma_fundamental_div_mod(before.values.len() as int, n);
        vstd::arithmetic::div_mod::lemma_fundamental_div_mod(after.keys.len() as int, m);
        vstd::arithmetic::div_mod::lemma_fundamental_div_mod(after.values.len() as int, m);
        assert(before.keys.len() == n * pk);
        assert(before.values.len() == n * pv);
        assert(after.keys.len() == m * pk);
        assert(after.values.len() == m * pv);
        assert(t.keys =~= before.keys);
        assert(t.values =~= before.values);
    }
}

proof fn lemma_no_problem<T>(s: SequenceView<T>, from: int, i: int)
    requires
        image_problem(s, from) is None,
        0 <= from <= i < s.layers.len(),
        s.layers[i] is Full,
    ensures
        image_error(s.layers[i]->Full_0) is None,
        s.layers[i]->Full_0.positions == s.position,
    decreases i - from,
{
    if from < i {
        lemma_no_problem(s, from + 1, i);
    }
}

/// The width of a cache's rows is what division by its positions gives.
proof fn lemma_rows_share_a_width<T>(c: CacheView<T>, width: int)
    requires
        has_rows_of(c, width),
    ensures
        c.positions > 0 ==> c.keys.len() as int / c.positions as int == width,
{
    if c.positions > 0 {
        vstd::arithmetic::div_mod::lemma_div_multiples_vanish(width, c.positions as int);
        vstd::arithmetic::mul::lemma_mul_is_commutative(c.positions as int, width);
    }
}

/// An image restores completely, into any state of a model with the same
/// layers: every layer afterwards holds exactly what was saved.
pub proof fn an_image_restores_the_whole_state<T>(
    live: SequenceView<T>,
    saved: SequenceView<T>,
    width: usize,
)
    requires
        live.layers.len() == saved.layers.len(),
        image_problem(saved, 0) is None,
        forall|i: int|
            0 <= i < live.layers.len() ==> match (#[trigger] live.layers[i], saved.layers[i]) {
                (LayerView::Full(c), LayerView::Full(s)) => has_rows_of(c, width as int)
                    && has_rows_of(s, width as int),
                (LayerView::Linear(r), LayerView::Linear(s)) => same_shape(r, s),
                _ => false,
            },
    ensures
        outcome(image_steps(live.layers, saved.layers, width)) is Ok,
        applied(live.layers, image_steps(live.layers, saved.layers, width)) == saved.layers,
{
    let steps = image_steps(live.layers, saved.layers, width);
    assert forall|i: int| 0 <= i < steps.len() implies #[trigger] steps[i] is Ok && steps[i]->Ok_0
        == saved.layers[i] by {
        let l = live.layers[i];
        if saved.layers[i] is Full {
            lemma_no_problem(saved, 0, i);
            lemma_rows_share_a_width(l->Full_0, width as int);
            lemma_rows_share_a_width(saved.layers[i]->Full_0, width as int);
        }
    }
    lemma_all_done(steps, 0);
    assert(applied(live.layers, steps) =~= saved.layers);
}

/// Nothing is coerced: where the rows of some full layer of an image do not
/// have the width of the model's rows, restoring it fails, whatever the live
/// state holds.
pub proof fn an_image_of_other_rows_is_refused<T>(
    live: SequenceView<T>,
    saved: SequenceView<T>,
    width: usize,
    layer: int,
)
    requires
        live.layers.len() == saved.layers.len(),
        0 <= layer < saved.layers.len(),
        saved.layers[layer] is Full,
        !has_rows_of(saved.layers[layer]->Full_0, width as int),
    ensures
        outcome(image_steps(live.layers, saved.layers, width)) is Err,
{
    let steps = image_steps(live.layers, saved.layers, width);
    assert(steps[layer] is Err);
    lemma_stops_before(steps, 0, layer);
}

/// A layer-by-layer operation does not get past a step that fails.
proof fn lemma_stops_before<T>(
    steps: Seq<Result<LayerView<T>, StateError>>,
    from: int,
    failing: int,
)
    requires
        0 <= from <= failing < steps.len(),
        steps[failing] is Err,
    ensures
        layers_done(steps, from) <= failing,
    decreases failing - from,
{
    if from < failing && steps[from] is Ok {
        lemma_stops_before(steps, from + 1, failing);
    }
}

/// Restoring a checkpoint after any number of passes gives the state back as
/// it was when the checkpoint was taken.
pub proof fn a_checkpoint_undoes_later_passes<T>(
    after: SequenceView<T>,
    before: SequenceView<T>,
    saved: Seq<SavedView<T>>,
)
    requires
        after.layers.len() == before.layers.len(),
        saved.len() == before.layers.len(),
        forall|i: int|
            0 <= i < before.layers.len() ==> #[trigger] saved[i] == checkpoint_of(before.layers[i]),
        forall|i: int|
            0 <= i < before.layers.len() ==> layer_extends(
                #[trigger] after.layers[i],
                before.layers[i],
            ),
    ensures
        outcome(restore_steps(after.layers, saved)) is Ok,
        applied(after.layers, restore_steps(after.layers, saved)) == before.layers,
{
    let steps = restore_steps(after.layers, saved);
    assert forall|i: int| 0 <= i < steps.len() implies #[trigger] steps[i] is Ok && steps[i]->Ok_0
        == before.layers[i] by {
        let a = after.layers[i];
        let k = saved[i];
        match (a, before.layers[i]) {
            (LayerView::Full(x), LayerView::Full(y)) => {
                lemma_truncation_undoes_growth(x, y);
            },
            _ => {},
        }
    }
    lemma_all_done(steps, 0);
    assert(applied(after.layers, steps) =~= before.layers);
}

/// Rolling a pass back to a row boundary gives the state that held there.
/// `at_row` is that state: its caches are a prefix of the caches now, and its
/// recurrences are what the snapshots recorded before the row was consumed.
pub proof fn a_rollback_returns_to_the_row<T>(
    after: SequenceView<T>,
    at_row: SequenceView<T>,
    pass: PassView<T>,
    committed: nat,
)
    requires
        after.layers.len() == at_row.layers.len(),
        at_row.position == pass.position + committed,
        forall|i: int|
            0 <= i < after.layers.len() ==> layer_extends(
                #[trigger] after.layers[i],
                at_row.layers[i],
            ),
        forall|i: int|
            0 <= i < after.layers.len() && #[trigger] at_row.layers[i] is Full
                ==> at_row.layers[i]->Full_0.positions == at_row.position,
        forall|i: int|
            0 <= i < after.layers.len() && #[trigger] at_row.layers[i] is Linear ==> {
                let k = linear_count(after.layers, i) as int;
                &&& k < pass.linear_layers.len()
                &&& committed < pass.linear_layers[k].stored_rows
                &&& pass.linear_layers[k].slots[committed as int] == at_row.layers[i]->Linear_0
                &&& pass.linear_layers[k].conv_len == at_row.layers[i]->Linear_0.conv.len()
                &&& pass.linear_layers[k].recurrent_len
                    == at_row.layers[i]->Linear_0.recurrent.len()
            },
    ensures
        outcome(rollback_steps(after.layers, pass, committed as int)) is Ok,
        applied(after.layers, rollback_steps(after.layers, pass, committed as int))
            == at_row.layers,
{
    let steps = rollback_steps(after.layers, pass, committed as int);
    assert forall|i: int| 0 <= i < steps.len() implies #[trigger] steps[i] is Ok && steps[i]->Ok_0
        == at_row.layers[i] by {
        let a = after.layers[i];
        match (a, at_row.layers[i]) {
            (LayerView::Full(x), LayerView::Full(y)) => {
                lemma_truncation_undoes_growth(x, y);
            },
            _ => {},
        }
    }
    lemma_all_done(steps, 0);
    assert(applied(after.layers, steps) =~= at_row.layers);
}

/// The predictor's own attention cache.
#[derive(Debug, Clone)]
pub struct QuantizedMtpState<T> {
    pub attention: QuantizedAttentionState<T>,
}

impl<T> QuantizedMtpState<T> {
    /// A predictor that has seen nothing.
    pub fn new() -> (state: Self)
        ensures
            state.attention@ == (CacheView {
                keys: Seq::<T>::empty(),
                values: Seq::<T>::empty(),
                positions: 0,
            }),
    {
        QuantizedMtpState { attention: QuantizedAttentionState::empty() }
    }

    /// How many positions the predictor has seen.
    pub fn position(&self) -> (position: usize)
        ensures
            position == self.attention@.positions,
    {
        self.attention.positions
    }

    /// Keeps the first `position` positions.
    pub fn truncate(&mut self, position: usize) -> (result: Result<(), StateError>)
        ensures
            match result {
                Ok(_) => truncation_error(old(self).attention@, position as int) is None
                    && final(self).attention@ == truncated(old(self).attention@, position as nat),
                Err(error) => truncation_error(old(self).attention@, position as int) == Some(error)
                    && *final(self) == *old(self),
            },
    {
        self.attention.truncate(position)
    }
}

proof fn lemma_no_full_layer_is_off<T>(s: SequenceView<T>, from: int)
    requires
        0 <= from,
        forall|i: int|
            from <= i < s.layers.len() && #[trigger] s.layers[i] is Full
                ==> s.layers[i]->Full_0.positions == s.position && rows_divide(
                s.layers[i]->Full_0,
            ),
    ensures
        image_problem(s, from) is None,
    decreases s.layers.len() - from,
{
    if from < s.layers.len() {
        assert(s.layers[from] is Full ==> s.layers[from]->Full_0.positions == s.position);
        lemma_no_full_layer_is_off(s, from + 1);
    }
}

/// An image is consistent exactly if every full-attention layer holds the position
/// that the image claims, with rows that divide evenly among its positions, and no
/// rows at position zero.
pub proof fn a_consistent_image_holds_one_position<T>(s: SequenceView<T>)
    ensures
        image_problem(s, 0) is None <==> forall|i: int|
            0 <= i < s.layers.len() && #[trigger] s.layers[i] is Full ==> {
                let c = s.layers[i]->Full_0;
                &&& c.positions == s.position
                &&& c.positions == 0 ==> c.keys.len() == 0 && c.values.len() == 0
                &&& c.positions > 0 ==> c.keys.len() as int % c.positions as int == 0
                    && c.values.len() as int % c.positions as int == 0
            },
{
    if image_problem(s, 0) is None {
        assert forall|i: int| 0 <= i < s.layers.len() && #[trigger] s.layers[i] is Full implies {
            let c = s.layers[i]->Full_0;
            &&& c.positions == s.position
            &&& rows_divide(c)
        } by {
            lemma_no_problem(s, 0, i);
        }
    }
    if forall|i: int|
        0 <= i < s.layers.len() && #[trigger] s.layers[i] is Full ==> {
            let c = s.layers[i]->Full_0;
            &&& c.positions == s.position
            &&& c.positions == 0 ==> c.keys.len() == 0 && c.values.len() == 0
            &&& c.positions > 0 ==> c.keys.len() as int % c.positions as int == 0
                && c.values.len() as int % c.positions as int == 0
        } {
        lemma_no_full_layer_is_off(s, 0);
    }
}

/// A cache cannot be lengthened by truncation; shortened, it keeps the rows of its
/// first positions and nothing else.
pub proof fn truncation_keeps_the_first_rows<T>(c: CacheView<T>, positions: nat, width: nat)
    requires
        c.keys.len() == c.positions * width,
        c.values.len() == c.positions * width,
    ensures
        positions > c.positions <==> truncation_error(c, positions as int) is Some,
        positions <= c.positions ==> truncated(c, positions) == (CacheView {
            keys: c.keys.take((positions * width) as int),
            values: c.values.take((positions * width) as int),
            positions,
        }),
{
    if c.positions > 0 {
        vstd::arithmetic::div_mod::lemma_div_multiples_vanish(width as int, c.positions as int);
        vstd::arithmetic::div_mod::lemma_mod_multiples_basic(width as int, c.positions as int);
        vstd::arithmetic::mul::lemma_mul_is_commutative(c.positions as int, width as int);
    }
    if positions == c.positions {
        assert(c.keys.take((positions * width) as int) =~= c.keys);
        assert(c.values.take((positions * width) as int) =~= c.values);
    }
}

/// An image takes four bytes for every number of every layer.
pub proof fn an_image_takes_four_bytes_per_number<T>(layers: Seq<LayerView<T>>)
    ensures
        total_bytes(layers) == 4 * crate::sums::sum_to(
            |i: int|
                match layers[i] {
                    LayerView::Full(c) => c.keys.len() + c.values.len(),
                    LayerView::Linear(r) => r.conv.len() + r.recurrent.len(),
                } as int,
            layers.len() as int,
        ),
    decreases layers.len(),
{
    let f = |i: int|
        match layers[i] {
            LayerView::Full(c) => c.keys.len() + c.values.len(),
            LayerView::Linear(r) => r.conv.len() + r.recurrent.len(),
        } as int;
    if layers.len() > 0 {
        let fewer = layers.drop_last();
        an_image_takes_four_bytes_per_number(fewer);
        let g = |i: int|
            match fewer[i] {
                LayerView::Full(c) => c.keys.len() + c.values.len(),
                LayerView::Linear(r) => r.conv.len() + r.recurrent.len(),
            } as int;
        crate::sums::lemma_sums_agree(f, g, fewer.len() as int);
        assert(f(layers.len() - 1) == element_count(layers.last()));
    }
}

} // verus!
