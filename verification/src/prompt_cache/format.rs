//! The on-disk representation of one cached prefix.
//!
//! Entries are safetensors files: a JSON header naming every state tensor,
//! followed by the raw little-endian f32 rows. A header read is enough to
//! reject an entry that belongs to another checkpoint.
//!
//! ```text
//! __metadata__  inferq_format, model_fingerprint, position, layer_count, ...
//! tokens        u32[position]        the exact prefix this state represents
//! layer.N.keys  f32[position, ...]   full-attention layers
//! layer.N.values
//! layer.N.conv  f32[...]             linear (DeltaNet) layers
//! layer.N.recurrent
//! mtp.keys      f32[position, ...]   the predictor's own cache
//! mtp.values
//! last_hidden   f32[hidden_size]     target hidden carry for the predictor
//! ```
//!
//! State elements are handled as 32-bit words, the bit patterns of the floats
//! they stand for.

use crate::config::{LayerType, Qwen3NextConfig};
use crate::qwen::attention_state::{CacheView, QuantizedAttentionImage, StateError};
use crate::qwen::delta_state::{QuantizedDeltaCheckpoint, RecurrenceView};
use crate::qwen::model_state::{
    image_problem, ImageView, LayerStateImage, LayerView, QuantizedStateImage, SequenceView,
    SessionImage,
};
use crate::text::{
    chars_of, decimal, decimal_text, number_text, parse_number, parsed_number, same_text,
};
use safetensors::tensor::{Dtype, SafeTensorError, SafeTensors, TensorView};
use vstd::prelude::*;

verus! {

/// Why safetensors could not read or write an archive.
#[verifier::external_type_specification]
#[verifier::external_body]
pub struct ExSafeTensorError(SafeTensorError);

/// The element types that an entry stores.
#[derive(Debug, Clone, Copy, PartialEq, Eq, Structural)]
pub enum ElementType {
    F32,
    U32,
}

/// Named texts of an archive's metadata.
pub type Metadata = Map<Seq<char>, Seq<char>>;

/// Named tensors of an archive: the element type, where it is one that entries
/// store, and the raw bytes.
pub type Tensors = Map<Seq<char>, (Option<ElementType>, Seq<u8>)>;

/// The tensors that a byte sequence holds as an archive, if it is one.
pub uninterp spec fn archive_tensors(bytes: Seq<u8>) -> Option<
    Map<Seq<char>, (Option<ElementType>, Seq<u8>)>,
>;

/// The `__metadata__` block that a byte sequence holds as an archive: nothing
/// if it is no archive, an empty option if it has no such block.
pub uninterp spec fn archive_metadata(bytes: Seq<u8>) -> Option<Option<Map<Seq<char>, Seq<char>>>>;

/// Whether the header of an archive of these tensors and these metadata stays
/// within the size that the format allows.
pub uninterp spec fn archive_writable(
    rows: Seq<(Seq<char>, (Option<ElementType>, Seq<u8>))>,
    fields: Seq<(Seq<char>, Seq<char>)>,
) -> bool;

/// The map that a list of named values stands for. Of several values with one
/// name the first counts.
pub open spec fn first_wins<V>(rows: Seq<(Seq<char>, V)>) -> Map<Seq<char>, V>
    decreases rows.len(),
{
    if rows.len() == 0 {
        Map::empty()
    } else {
        first_wins(rows.skip(1)).insert(rows[0].0, rows[0].1)
    }
}

/// The first row with a name is what the list says of it.
proof fn lemma_first_row<V>(rows: Seq<(Seq<char>, V)>, i: int)
    requires
        0 <= i < rows.len(),
        forall|j: int| 0 <= j < i ==> (#[trigger] rows[j]).0 != rows[i].0,
    ensures
        first_wins(rows).contains_key(rows[i].0),
        first_wins(rows)[rows[i].0] == rows[i].1,
    decreases i,
{
    if i > 0 {
        let rest = rows.skip(1);
        assert forall|j: int| 0 <= j < i - 1 implies (#[trigger] rest[j]).0 != rest[i - 1].0 by {
            assert(rest[j] == rows[j + 1]);
        }
        lemma_first_row(rest, i - 1);
        assert(rows[0].0 != rows[i].0);
    }
}

/// A name that no row has is not in the list.
proof fn lemma_no_row<V>(rows: Seq<(Seq<char>, V)>, name: Seq<char>)
    requires
        forall|j: int| 0 <= j < rows.len() ==> (#[trigger] rows[j]).0 != name,
    ensures
        !first_wins(rows).contains_key(name),
    decreases rows.len(),
{
    if rows.len() > 0 {
        let rest = rows.skip(1);
        assert forall|j: int| 0 <= j < rest.len() implies (#[trigger] rest[j]).0 != name by {
            assert(rest[j] == rows[j + 1]);
        }
        lemma_no_row(rest, name);
        assert(rows[0].0 != name);
    }
}

/// Listed metadata as named texts.
pub open spec fn pair_rows(pairs: Seq<(String, String)>) -> Seq<(Seq<char>, Seq<char>)> {
    Seq::new(pairs.len(), |i: int| (pairs[i].0@, pairs[i].1@))
}

/// A tensor of an archive, still in the archive's bytes.
#[derive(Debug, Clone)]
pub struct StoredTensor<'a> {
    pub name: String,
    /// The element type, where it is one that entries store.
    pub dtype: Option<ElementType>,
    pub data: &'a [u8],
}

/// Listed tensors as named contents.
pub open spec fn tensor_rows(tensors: Seq<StoredTensor<'_>>) -> Seq<
    (Seq<char>, (Option<ElementType>, Seq<u8>)),
> {
    Seq::new(tensors.len(), |i: int| (tensors[i].name@, (tensors[i].dtype, tensors[i].data@)))
}

/// `SafeTensors::deserialize` and `SafeTensors::tensors`: parses a byte buffer
/// as an archive and lists its tensors, without copying their data. Claimed:
/// the outcome and the tensors depend on the bytes alone, and it succeeds
/// exactly where `SafeTensors::read_metadata` does. The order of the list is
/// left open. A header that declares more data than any machine can hold is
/// refused; a build that checks for overflow stops on adding its lengths up.
#[verifier::external_body]
fn deserialize<'a>(bytes: &'a [u8]) -> (tensors: Result<Vec<StoredTensor<'a>>, SafeTensorError>)
    ensures
        match tensors {
            Ok(tensors) => archive_tensors(bytes@) == Some(first_wins(tensor_rows(tensors@))),
            Err(_) => archive_tensors(bytes@) is None,
        },
        tensors is Ok == archive_metadata(bytes@) is Some,
{
    let mut tensors = Vec::new();
    for (name, view) in SafeTensors::deserialize(bytes)?.tensors() {
        let dtype = match view.dtype() {
            Dtype::F32 => Some(ElementType::F32),
            Dtype::U32 => Some(ElementType::U32),
            _ => None,
        };
        tensors.push(StoredTensor { name, dtype, data: view.data() });
    }
    Ok(tensors)
}

/// `SafeTensors::read_metadata`: parses the header of an archive. Claimed: the
/// outcome depends on the bytes alone. The order of the list is left open. A
/// header that declares more data than any machine can hold is refused; a build
/// that checks for overflow stops on adding its lengths up.
#[verifier::external_body]
fn read_metadata(bytes: &[u8]) -> (metadata: Result<Option<Vec<(String, String)>>, SafeTensorError>)
    ensures
        match metadata {
            Ok(Some(pairs)) => archive_metadata(bytes@) == Some(
                Some(first_wins(pair_rows(pairs@))),
            ),
            Ok(None) => archive_metadata(bytes@) == Some(None::<Map<Seq<char>, Seq<char>>>),
            Err(_) => archive_metadata(bytes@) is None,
        },
{
    let (_, metadata) = SafeTensors::read_metadata(bytes)?;
    Ok(metadata.metadata().clone().map(|map| map.into_iter().collect()))
}

/// One tensor of an entry, ready to be written.
#[derive(Debug, Clone)]
pub struct EntryTensor {
    pub name: String,
    pub dtype: ElementType,
    /// How many elements the bytes hold, at four bytes per element.
    pub elements: usize,
    pub bytes: Vec<u8>,
}

/// Whether every tensor's bytes are those of its elements.
pub open spec fn elements_counted(tensors: Seq<EntryTensor>) -> bool {
    forall|i: int|
        0 <= i < tensors.len() ==> (#[trigger] tensors[i]).bytes@.len() == tensors[i].elements * 4
}

/// Tensors of an entry as named contents.
pub open spec fn entry_rows(tensors: Seq<EntryTensor>) -> Seq<
    (Seq<char>, (Option<ElementType>, Seq<u8>)),
> {
    Seq::new(tensors.len(), |i: int| (tensors[i].name@, (Some(tensors[i].dtype), tensors[i].bytes@)))
}

/// Whether all names differ.
pub open spec fn names_differ<V>(rows: Seq<(Seq<char>, V)>) -> bool {
    forall|i: int, j: int|
        0 <= i < j < rows.len() ==> (#[trigger] rows[i]).0 != (#[trigger] rows[j]).0
}

/// Bytes of tensor data.
pub open spec fn data_bytes(rows: Seq<(Seq<char>, (Option<ElementType>, Seq<u8>))>) -> nat
    decreases rows.len(),
{
    if rows.len() == 0 {
        0
    } else {
        data_bytes(rows.drop_last()) + rows.last().1.1.len()
    }
}

/// Whether an archive of these tensors can be laid out in memory: its sizes in
/// bits are machine words, and data and header fit one buffer.
pub open spec fn archive_fits(rows: Seq<(Seq<char>, (Option<ElementType>, Seq<u8>))>) -> bool {
    &&& forall|i: int| 0 <= i < rows.len() ==> (#[trigger] rows[i]).1.1.len() * 8 <= usize::MAX
    &&& data_bytes(rows) + 100_000_008 <= isize::MAX
}

/// `safetensors::serialize`, over views made by `TensorView::new`: lays tensors
/// and metadata out as one archive. Claimed: what it writes parses again, to
/// the same tensors and the same metadata; and it fails exactly where the header
/// exceeds the size that the format allows, which depends on the tensors and the
/// metadata alone. How long a header is stays unsaid, and the order in which
/// metadata is written is open, so the bytes themselves are not fixed.
#[verifier::external_body]
fn serialize(tensors: &Vec<EntryTensor>, metadata: Vec<(String, String)>) -> (bytes: Result<
    Vec<u8>,
    SafeTensorError,
>)
    requires
        names_differ(entry_rows(tensors@)),
        archive_fits(entry_rows(tensors@)),
        elements_counted(tensors@),
        forall|i: int|
            0 <= i < tensors@.len() ==> (#[trigger] entry_rows(tensors@)[i]).0 != "__metadata__"@,
        names_differ(pair_rows(metadata@)),
    ensures
        bytes is Ok == archive_writable(entry_rows(tensors@), pair_rows(metadata@)),
        bytes matches Ok(bytes) ==> archive_tensors(bytes@) == Some(
            first_wins(entry_rows(tensors@)),
        ),
        bytes matches Ok(bytes) ==> archive_metadata(bytes@) == Some(
            Some(first_wins(pair_rows(metadata@))),
        ),
{
    let mut views = Vec::with_capacity(tensors.len());
    for tensor in tensors {
        let dtype = match tensor.dtype {
            ElementType::F32 => Dtype::F32,
            ElementType::U32 => Dtype::U32,
        };
        let view = TensorView::new(dtype, vec![tensor.elements], &tensor.bytes)?;
        views.push((tensor.name.as_str(), view));
    }
    safetensors::serialize(views, Some(metadata.into_iter().collect()))
}

/// The 32-bit word at index `k` of a little-endian byte sequence.
pub open spec fn word_at(bytes: Seq<u8>, k: int) -> u32 {
    (bytes[4 * k] + 256 * bytes[4 * k + 1] + 65536 * bytes[4 * k + 2] + 16777216 * bytes[4 * k
        + 3]) as u32
}

/// The words of a little-endian byte sequence.
pub open spec fn words_of(bytes: Seq<u8>) -> Seq<u32> {
    Seq::new(bytes.len() / 4, |k: int| word_at(bytes, k))
}

/// Byte `j` of a word, counted from the low end.
pub open spec fn byte_of(word: u32, j: int) -> u8 {
    if j == 0 {
        (word % 256) as u8
    } else if j == 1 {
        (word / 256 % 256) as u8
    } else if j == 2 {
        (word / 65536 % 256) as u8
    } else {
        (word / 16777216) as u8
    }
}

/// The little-endian bytes of a sequence of words.
pub open spec fn bytes_of(words: Seq<u32>) -> Seq<u8> {
    Seq::new(words.len() * 4, |i: int| byte_of(words[i / 4], i % 4))
}

/// Words read back from their bytes.
pub proof fn words_round_trip(words: Seq<u32>)
    ensures
        bytes_of(words).len() == words.len() * 4,
        words_of(bytes_of(words)) == words,
{
    let bytes = bytes_of(words);
    assert forall|k: int| 0 <= k < words.len() implies word_at(bytes, k) == words[k] by {
        let w = words[k];
        assert(bytes[4 * k] == byte_of(w, 0));
        assert(bytes[4 * k + 1] == byte_of(w, 1));
        assert(bytes[4 * k + 2] == byte_of(w, 2));
        assert(bytes[4 * k + 3] == byte_of(w, 3));
        assert(w == w % 256 + 256 * (w / 256 % 256) + 65536 * (w / 65536 % 256) + 16777216 * (w
            / 16777216));
    }
    assert(words_of(bytes) =~= words);
}

/// The little-endian bytes of a slice of words.
fn encode_words(words: &[u32]) -> (bytes: Vec<u8>)
    ensures
        bytes@ == bytes_of(words@),
{
    let mut bytes: Vec<u8> = Vec::new();
    let mut i: usize = 0;
    while i < words.len()
        invariant
            i <= words@.len(),
            bytes@ == bytes_of(words@.take(i as int)),
        decreases words@.len() - i,
    {
        let w: u32 = words[i];
        bytes.push((w % 256) as u8);
        bytes.push((w / 256 % 256) as u8);
        bytes.push((w / 65536 % 256) as u8);
        bytes.push((w / 16777216) as u8);
        i += 1;
        proof {
            assert(bytes@ =~= bytes_of(words@.take(i as int)));
        }
    }
    proof {
        assert(words@.take(words@.len() as int) =~= words@);
    }
    bytes
}

/// The words of a little-endian byte slice.
fn decode_words(bytes: &[u8]) -> (words: Vec<u32>)
    requires
        bytes@.len() % 4 == 0,
    ensures
        words@ == words_of(bytes@),
{
    let mut words: Vec<u32> = Vec::new();
    let mut i: usize = 0;
    while i < bytes.len()
        invariant
            i <= bytes@.len(),
            i % 4 == 0,
            bytes@.len() % 4 == 0,
            words@ == words_of(bytes@).take(i as int / 4),
        decreases bytes@.len() - i,
    {
        let ghost k = i as int / 4;
        let w: u32 = bytes[i] as u32 + 256 * bytes[i + 1] as u32 + 65536 * bytes[i + 2] as u32
            + 16777216 * bytes[i + 3] as u32;
        words.push(w);
        proof {
            assert(w == word_at(bytes@, k));
            assert(words_of(bytes@).take(k + 1) =~= words_of(bytes@).take(k).push(w));
        }
        i += 4;
    }
    proof {
        assert(words_of(bytes@).take(words_of(bytes@).len() as int) =~= words_of(bytes@));
    }
    words
}

/// Bumped whenever the meaning of the stored bytes changes. Entries written by
/// another version are ignored rather than migrated.
pub const FORMAT: &'static str = "inferq-prompt-cache-1";

/// The extension of entry files.
pub const EXTENSION: &'static str = "inferq-prompt";

/// Which state a layer keeps, as the loaded model reports it.
///
/// A full-attention layer carries the number of f32 elements one position
/// occupies, so an entry whose rows are the wrong width is rejected on read
/// rather than restored into a kernel that reads them as a different shape.
/// Linear layers need no width here: restoring one compares its conv and
/// recurrent lengths against the live state.
#[derive(Debug, Clone, Copy, PartialEq, Eq, Structural)]
pub enum LayerKind {
    Full { stride: usize },
    Linear,
}

impl LayerKind {
    /// The kind of one layer of a configured model.
    pub open spec fn of_layer(config: Qwen3NextConfig, layer: int) -> LayerKind {
        match config.type_of(layer) {
            LayerType::FullAttention => LayerKind::Full {
                stride: (config.num_key_value_heads * config.head_dim) as usize,
            },
            LayerType::LinearAttention => LayerKind::Linear,
        }
    }

    /// The layer sequence and key/value widths of a loaded model.
    pub fn for_config(config: &Qwen3NextConfig) -> (kinds: Vec<LayerKind>)
        requires
            config.num_key_value_heads * config.head_dim <= usize::MAX,
            forall|layer: int|
                0 <= layer < config.num_hidden_layers ==> #[trigger] config.has_layer_type(layer),
        ensures
            kinds@ == Seq::new(
                config.num_hidden_layers as nat,
                |layer: int| LayerKind::of_layer(*config, layer),
            ),
    {
        let stride: usize = config.num_key_value_heads * config.head_dim;
        let mut kinds: Vec<LayerKind> = Vec::new();
        let mut layer: usize = 0;
        while layer < config.num_hidden_layers
            invariant
                layer <= config.num_hidden_layers,
                stride == config.num_key_value_heads * config.head_dim,
                forall|l: int|
                    0 <= l < config.num_hidden_layers ==> #[trigger] config.has_layer_type(l),
                kinds@ == Seq::new(layer as nat, |l: int| LayerKind::of_layer(*config, l)),
            decreases config.num_hidden_layers - layer,
        {
            assert(config.has_layer_type(layer as int));
            let kind = match config.layer_type(layer) {
                LayerType::FullAttention => LayerKind::Full { stride },
                LayerType::LinearAttention => LayerKind::Linear,
            };
            kinds.push(kind);
            layer += 1;
            proof {
                assert(kinds@ =~= Seq::new(
                    layer as nat,
                    |l: int| LayerKind::of_layer(*config, l),
                ));
            }
        }
        kinds
    }
}

/// Why an entry cannot be used.
#[derive(Debug)]
pub enum EntryError {
    /// The file is no readable archive.
    Unreadable(SafeTensorError),
    /// The archive carries no metadata.
    NoMetadata,
    /// A metadata field is missing.
    MissingMetadata { key: String },
    /// The entry was written in another format.
    WrongFormat { found: String },
    /// The entry belongs to another checkpoint.
    WrongCheckpoint { found: String },
    /// A metadata field does not hold a number.
    UnreadableNumber { key: String },
    /// The entry holds another number of layers than the model has.
    LayerCount { stored: usize, model: usize },
    /// A tensor is missing.
    MissingTensor { name: String },
    /// A tensor is stored with another element type.
    WrongType { name: String },
    /// A tensor is stored with a partial element at its end.
    PartialElement { name: String },
    /// The number of tokens is not the position.
    TokenCount { tokens: usize, position: usize },
    /// The rows of a layer are not as wide as this model needs.
    LayerWidth { layer: usize, keys: usize, values: usize, expected: usize },
    /// The rows of the predictor are not as wide as this model needs.
    MtpWidth { keys: usize, values: usize, expected: usize },
    /// The layers contradict one another.
    Inconsistent(StateError),
}

/// What an [`EntryError`] says.
pub ghost enum EntryProblem {
    Unreadable,
    NoMetadata,
    MissingMetadata { key: Seq<char> },
    WrongFormat { found: Seq<char> },
    WrongCheckpoint { found: Seq<char> },
    UnreadableNumber { key: Seq<char> },
    LayerCount { stored: nat, model: nat },
    MissingTensor { name: Seq<char> },
    WrongType { name: Seq<char> },
    PartialElement { name: Seq<char> },
    TokenCount { tokens: nat, position: nat },
    LayerWidth { layer: nat, keys: nat, values: nat, expected: nat },
    MtpWidth { keys: nat, values: nat, expected: nat },
    Inconsistent(StateError),
}

impl View for EntryError {
    type V = EntryProblem;

    open spec fn view(&self) -> EntryProblem {
        match *self {
            EntryError::Unreadable(_) => EntryProblem::Unreadable,
            EntryError::NoMetadata => EntryProblem::NoMetadata,
            EntryError::MissingMetadata { key } => EntryProblem::MissingMetadata { key: key@ },
            EntryError::WrongFormat { found } => EntryProblem::WrongFormat { found: found@ },
            EntryError::WrongCheckpoint { found } => EntryProblem::WrongCheckpoint {
                found: found@,
            },
            EntryError::UnreadableNumber { key } => EntryProblem::UnreadableNumber { key: key@ },
            EntryError::LayerCount { stored, model } => EntryProblem::LayerCount {
                stored: stored as nat,
                model: model as nat,
            },
            EntryError::MissingTensor { name } => EntryProblem::MissingTensor { name: name@ },
            EntryError::WrongType { name } => EntryProblem::WrongType { name: name@ },
            EntryError::PartialElement { name } => EntryProblem::PartialElement { name: name@ },
            EntryError::TokenCount { tokens, position } => EntryProblem::TokenCount {
                tokens: tokens as nat,
                position: position as nat,
            },
            EntryError::LayerWidth { layer, keys, values, expected } => EntryProblem::LayerWidth {
                layer: layer as nat,
                keys: keys as nat,
                values: values as nat,
                expected: expected as nat,
            },
            EntryError::MtpWidth { keys, values, expected } => EntryProblem::MtpWidth {
                keys: keys as nat,
                values: values as nat,
                expected: expected as nat,
            },
            EntryError::Inconsistent(error) => EntryProblem::Inconsistent(error),
        }
    }
}

/// A metadata field.
pub open spec fn field(metadata: Metadata, key: Seq<char>) -> Result<Seq<char>, EntryProblem> {
    if metadata.contains_key(key) {
        Ok(metadata[key])
    } else {
        Err(EntryProblem::MissingMetadata { key })
    }
}

/// A metadata field that holds a number.
pub open spec fn number_field(metadata: Metadata, key: Seq<char>) -> Result<nat, EntryProblem> {
    match field(metadata, key) {
        Err(problem) => Err(problem),
        Ok(value) => match parsed_number(value, 10, usize::MAX as nat) {
            Some(n) => Ok(n),
            None => Err(EntryProblem::UnreadableNumber { key }),
        },
    }
}

/// Why metadata does not identify an entry of this format and checkpoint.
pub open spec fn identity_problem(metadata: Metadata, fingerprint: Seq<char>) -> Option<
    EntryProblem,
> {
    match field(metadata, "inferq_format"@) {
        Err(problem) => Some(problem),
        Ok(format) => if format != FORMAT@ {
            Some(EntryProblem::WrongFormat { found: format })
        } else {
            match field(metadata, "model_fingerprint"@) {
                Err(problem) => Some(problem),
                Ok(found) => if found != fingerprint {
                    Some(EntryProblem::WrongCheckpoint { found })
                } else {
                    None
                },
            }
        },
    }
}

/// The words of a tensor of the given element type.
pub open spec fn tensor_words(tensors: Tensors, name: Seq<char>, dtype: ElementType) -> Result<
    Seq<u32>,
    EntryProblem,
> {
    if !tensors.contains_key(name) {
        Err(EntryProblem::MissingTensor { name })
    } else if tensors[name].0 != Some(dtype) {
        Err(EntryProblem::WrongType { name })
    } else if tensors[name].1.len() % 4 != 0 {
        Err(EntryProblem::PartialElement { name })
    } else {
        Ok(words_of(tensors[name].1))
    }
}

/// Looks up a field in listed metadata.
pub fn metadata_value<'a>(metadata: &'a Vec<(String, String)>, key: &str) -> (value: Result<
    &'a str,
    EntryError,
>)
    ensures
        match value {
            Ok(value) => field(first_wins(pair_rows(metadata@)), key@) == Ok::<_, EntryProblem>(
                value@,
            ),
            Err(error) => field(first_wins(pair_rows(metadata@)), key@) == Err::<Seq<char>, _>(
                error@,
            ),
        },
{
    let ghost rows = pair_rows(metadata@);
    let mut i: usize = 0;
    while i < metadata.len()
        invariant
            i <= metadata@.len(),
            rows == pair_rows(metadata@),
            forall|j: int| 0 <= j < i ==> (#[trigger] rows[j]).0 != key@,
        decreases metadata@.len() - i,
    {
        if same_text(metadata[i].0.as_str(), key) {
            proof {
                assert(rows[i as int].0 == key@);
                lemma_first_row(rows, i as int);
            }
            return Ok(metadata[i].1.as_str());
        }
        i += 1;
    }
    proof {
        lemma_no_row(rows, key@);
    }
    Err(EntryError::MissingMetadata { key: key.to_owned() })
}

/// Reads a number out of listed metadata.
pub fn metadata_number(metadata: &Vec<(String, String)>, key: &str) -> (value: Result<
    usize,
    EntryError,
>)
    ensures
        match value {
            Ok(value) => number_field(first_wins(pair_rows(metadata@)), key@) == Ok::<
                _,
                EntryProblem,
            >(value as nat),
            Err(error) => number_field(first_wins(pair_rows(metadata@)), key@) == Err::<nat, _>(
                error@,
            ),
        },
{
    match metadata_value(metadata, key) {
        Err(error) => Err(error),
        Ok(text) => {
            let chars = chars_of(text);
            match parse_number(chars.as_slice(), 10) {
                Some(n) => {
                    if n <= usize::MAX as u64 {
                        Ok(n as usize)
                    } else {
                        Err(EntryError::UnreadableNumber { key: key.to_owned() })
                    }
                },
                None => Err(EntryError::UnreadableNumber { key: key.to_owned() }),
            }
        },
    }
}

/// Accepts metadata of an entry of this format that belongs to the checkpoint
/// with this fingerprint.
pub fn check_identity(metadata: &Vec<(String, String)>, fingerprint: &str) -> (result: Result<
    (),
    EntryError,
>)
    ensures
        match result {
            Ok(_) => identity_problem(first_wins(pair_rows(metadata@)), fingerprint@) is None,
            Err(error) => identity_problem(first_wins(pair_rows(metadata@)), fingerprint@) == Some(
                error@,
            ),
        },
{
    match metadata_value(metadata, "inferq_format") {
        Err(error) => {
            return Err(error);
        },
        Ok(format) => {
            if !same_text(format, FORMAT) {
                return Err(EntryError::WrongFormat { found: format.to_owned() });
            }
        },
    }
    match metadata_value(metadata, "model_fingerprint") {
        Err(error) => Err(error),
        Ok(found) => {
            if same_text(found, fingerprint) {
                Ok(())
            } else {
                Err(EntryError::WrongCheckpoint { found: found.to_owned() })
            }
        },
    }
}

/// The file's `__metadata__` block, which is what identifies the entry.
fn metadata_map(bytes: &[u8]) -> (metadata: Result<Vec<(String, String)>, EntryError>)
    ensures
        match metadata {
            Ok(pairs) => archive_metadata(bytes@) == Some(Some(first_wins(pair_rows(pairs@)))),
            Err(error) => match archive_metadata(bytes@) {
                None => error@ == EntryProblem::Unreadable,
                Some(None) => error@ == EntryProblem::NoMetadata,
                Some(Some(_)) => false,
            },
        },
{
    match read_metadata(bytes) {
        Err(error) => Err(EntryError::Unreadable(error)),
        Ok(None) => Err(EntryError::NoMetadata),
        Ok(Some(pairs)) => Ok(pairs),
    }
}

/// Where a tensor of this name stands in a list, if it does.
fn find_tensor(tensors: &Vec<StoredTensor<'_>>, name: &str) -> (found: Option<usize>)
    ensures
        match found {
            Some(i) => i < tensors@.len() && first_wins(tensor_rows(tensors@)).contains_key(name@)
                && first_wins(tensor_rows(tensors@))[name@] == (
                tensors@[i as int].dtype,
                tensors@[i as int].data@,
            ),
            None => !first_wins(tensor_rows(tensors@)).contains_key(name@),
        },
{
    let ghost rows = tensor_rows(tensors@);
    let mut i: usize = 0;
    while i < tensors.len()
        invariant
            i <= tensors@.len(),
            rows == tensor_rows(tensors@),
            forall|j: int| 0 <= j < i ==> (#[trigger] rows[j]).0 != name@,
        decreases tensors@.len() - i,
    {
        if same_text(tensors[i].name.as_str(), name) {
            proof {
                assert(rows[i as int].0 == name@);
                lemma_first_row(rows, i as int);
            }
            return Some(i);
        }
        i += 1;
    }
    proof {
        lemma_no_row(rows, name@);
    }
    None
}

/// Reads a tensor of the given element type as words.
pub fn read_words(tensors: &Vec<StoredTensor<'_>>, name: &str, dtype: ElementType) -> (words: Result<
    Vec<u32>,
    EntryError,
>)
    ensures
        match words {
            Ok(words) => tensor_words(first_wins(tensor_rows(tensors@)), name@, dtype) == Ok::<
                _,
                EntryProblem,
            >(words@),
            Err(error) => tensor_words(first_wins(tensor_rows(tensors@)), name@, dtype) == Err::<
                Seq<u32>,
                _,
            >(error@),
        },
{
    match find_tensor(tensors, name) {
        None => Err(EntryError::MissingTensor { name: name.to_owned() }),
        Some(i) => {
            let expected: bool = match tensors[i].dtype {
                Some(found) => found == dtype,
                None => false,
            };
            if !expected {
                return Err(EntryError::WrongType { name: name.to_owned() });
            }
            if tensors[i].data.len() % 4 != 0 {
                return Err(EntryError::PartialElement { name: name.to_owned() });
            }
            Ok(decode_words(tensors[i].data))
        },
    }
}

/// What is needed to decide whether an entry is usable: the exact tokens it
/// represents.
#[derive(Debug, Clone, PartialEq, Eq)]
pub struct EntryHeader {
    pub tokens: Vec<u32>,
    pub position: usize,
}

/// The tokens of an entry whose metadata and tensors are these, where they are
/// as many as its position says.
pub open spec fn header_tokens(metadata: Metadata, tensors: Tensors) -> Result<
    Seq<u32>,
    EntryProblem,
> {
    match number_field(metadata, "position"@) {
        Err(problem) => Err(problem),
        Ok(position) => match tensor_words(tensors, "tokens"@, ElementType::U32) {
            Err(problem) => Err(problem),
            Ok(tokens) => if tokens.len() == position {
                Ok(tokens)
            } else {
                Err(EntryProblem::TokenCount { tokens: tokens.len(), position })
            },
        },
    }
}

/// The tokens that the bytes of an entry file represent.
pub open spec fn entry_tokens(bytes: Seq<u8>, fingerprint: Seq<char>) -> Result<
    Seq<u32>,
    EntryProblem,
> {
    match archive_metadata(bytes) {
        None => Err(EntryProblem::Unreadable),
        Some(None) => Err(EntryProblem::NoMetadata),
        Some(Some(metadata)) => match identity_problem(metadata, fingerprint) {
            Some(problem) => Err(problem),
            None => header_tokens(metadata, archive_tensors(bytes)->0),
        },
    }
}

/// Reads the tokens out of listed metadata and tensors.
pub fn decode_header(metadata: &Vec<(String, String)>, tensors: &Vec<StoredTensor<'_>>) -> (header:
    Result<EntryHeader, EntryError>)
    ensures
        match header {
            Ok(header) => header_tokens(
                first_wins(pair_rows(metadata@)),
                first_wins(tensor_rows(tensors@)),
            ) == Ok::<_, EntryProblem>(header.tokens@) && header.position == header.tokens@.len(),
            Err(error) => header_tokens(
                first_wins(pair_rows(metadata@)),
                first_wins(tensor_rows(tensors@)),
            ) == Err::<Seq<u32>, _>(error@),
        },
{
    let position: usize = match metadata_number(metadata, "position") {
        Ok(position) => position,
        Err(error) => {
            return Err(error);
        },
    };
    let tokens = match read_words(tensors, "tokens", ElementType::U32) {
        Ok(tokens) => tokens,
        Err(error) => {
            return Err(error);
        },
    };
    if tokens.len() != position {
        return Err(EntryError::TokenCount { tokens: tokens.len(), position });
    }
    Ok(EntryHeader { tokens, position })
}

/// Read the tokens an entry represents without touching its state.
pub fn read_header(bytes: &[u8], fingerprint: &str) -> (header: Result<EntryHeader, EntryError>)
    ensures
        match header {
            Ok(header) => entry_tokens(bytes@, fingerprint@) == Ok::<_, EntryProblem>(
                header.tokens@,
            ) && header.position == header.tokens@.len(),
            Err(error) => entry_tokens(bytes@, fingerprint@) == Err::<Seq<u32>, _>(error@),
        },
{
    let metadata = match metadata_map(bytes) {
        Ok(metadata) => metadata,
        Err(error) => {
            return Err(error);
        },
    };
    match check_identity(&metadata, fingerprint) {
        Ok(_) => {},
        Err(error) => {
            return Err(error);
        },
    }
    match deserialize(bytes) {
        Ok(tensors) => decode_header(&metadata, &tensors),
        Err(error) => Err(EntryError::Unreadable(error)),
    }
}

/// The name of a tensor of one layer.
pub open spec fn layer_tensor(layer: int, part: Seq<char>) -> Seq<char> {
    "layer."@ + decimal(layer as nat) + "."@ + part
}

/// Builds the name of a tensor of one layer.
fn layer_tensor_name(layer: usize, part: &str) -> (name: String)
    ensures
        name@ == layer_tensor(layer as int, part@),
{
    let mut name = "layer.".to_owned();
    name.append(decimal_text(layer).as_str());
    name.append(".");
    name.append(part);
    name
}

/// A product as far as it can be counted.
pub open spec fn saturated(n: int) -> nat {
    if n > usize::MAX {
        usize::MAX as nat
    } else {
        n as nat
    }
}

/// The state of one layer in an archive.
pub open spec fn stored_layer(tensors: Tensors, kind: LayerKind, position: nat, layer: int) -> Result<
    LayerView<u32>,
    EntryProblem,
> {
    match kind {
        LayerKind::Full { stride } => match tensor_words(
            tensors,
            layer_tensor(layer, "keys"@),
            ElementType::F32,
        ) {
            Err(problem) => Err(problem),
            Ok(keys) => match tensor_words(
                tensors,
                layer_tensor(layer, "values"@),
                ElementType::F32,
            ) {
                Err(problem) => Err(problem),
                Ok(values) => if keys.len() == position * stride && values.len() == position
                    * stride {
                    Ok(LayerView::Full(CacheView { keys, values, positions: position }))
                } else {
                    Err(
                        EntryProblem::LayerWidth {
                            layer: layer as nat,
                            keys: keys.len(),
                            values: values.len(),
                            expected: saturated(position * stride),
                        },
                    )
                },
            },
        },
        LayerKind::Linear => match tensor_words(
            tensors,
            layer_tensor(layer, "conv"@),
            ElementType::F32,
        ) {
            Err(problem) => Err(problem),
            Ok(conv) => match tensor_words(
                tensors,
                layer_tensor(layer, "recurrent"@),
                ElementType::F32,
            ) {
                Err(problem) => Err(problem),
                Ok(recurrent) => Ok(LayerView::Linear(RecurrenceView { conv, recurrent })),
            },
        },
    }
}

/// The states of the first `n` layers in an archive.
pub open spec fn stored_layers(tensors: Tensors, kinds: Seq<LayerKind>, position: nat, n: int) -> Result<
    Seq<LayerView<u32>>,
    EntryProblem,
>
    decreases n,
{
    if n <= 0 {
        Ok(Seq::empty())
    } else {
        match stored_layers(tensors, kinds, position, n - 1) {
            Err(problem) => Err(problem),
            Ok(layers) => match stored_layer(tensors, kinds[n - 1], position, n - 1) {
                Err(problem) => Err(problem),
                Ok(layer) => Ok(layers.push(layer)),
            },
        }
    }
}

/// The row width of the first full-attention layer.
pub open spec fn first_stride(kinds: Seq<LayerKind>) -> Option<usize>
    decreases kinds.len(),
{
    if kinds.len() == 0 {
        None
    } else {
        match kinds[0] {
            LayerKind::Full { stride } => Some(stride),
            LayerKind::Linear => first_stride(kinds.skip(1)),
        }
    }
}

/// The predictor's cache in an archive. The predictor is one full-attention
/// layer, so its rows are as wide as the target's.
pub open spec fn stored_mtp(tensors: Tensors, kinds: Seq<LayerKind>, position: nat) -> Result<
    Option<CacheView<u32>>,
    EntryProblem,
> {
    if !tensors.contains_key("mtp.keys"@) {
        Ok(None)
    } else {
        match tensor_words(tensors, "mtp.keys"@, ElementType::F32) {
            Err(problem) => Err(problem),
            Ok(keys) => match tensor_words(tensors, "mtp.values"@, ElementType::F32) {
                Err(problem) => Err(problem),
                Ok(values) => match first_stride(kinds) {
                    Some(stride) => if keys.len() == position * stride && values.len() == position
                        * stride {
                        Ok(Some(CacheView { keys, values, positions: position }))
                    } else {
                        Err(
                            EntryProblem::MtpWidth {
                                keys: keys.len(),
                                values: values.len(),
                                expected: saturated(position * stride),
                            },
                        )
                    },
                    None => Ok(Some(CacheView { keys, values, positions: position })),
                },
            },
        }
    }
}

/// The hidden row in an archive.
pub open spec fn stored_hidden(tensors: Tensors) -> Result<Option<Seq<u32>>, EntryProblem> {
    if !tensors.contains_key("last_hidden"@) {
        Ok(None)
    } else {
        match tensor_words(tensors, "last_hidden"@, ElementType::F32) {
            Err(problem) => Err(problem),
            Ok(hidden) => Ok(Some(hidden)),
        }
    }
}

/// The session image that metadata and tensors of an entry describe, for a
/// model with the given layers.
pub open spec fn described_image(metadata: Metadata, tensors: Tensors, kinds: Seq<LayerKind>) -> Result<
    ImageView<u32>,
    EntryProblem,
> {
    match (number_field(metadata, "position"@), number_field(metadata, "layer_count"@)) {
        (Err(problem), _) => Err(problem),
        (_, Err(problem)) => Err(problem),
        (Ok(position), Ok(layer_count)) => if layer_count != kinds.len() {
            Err(EntryProblem::LayerCount { stored: layer_count, model: kinds.len() })
        } else {
            match header_tokens(metadata, tensors) {
                Err(problem) => Err(problem),
                Ok(tokens) => described_state(tensors, kinds, tokens, position),
            }
        },
    }
}

/// The part of [`described_image`] that follows the tokens.
pub open spec fn described_state(
    tensors: Tensors,
    kinds: Seq<LayerKind>,
    tokens: Seq<u32>,
    position: nat,
) -> Result<ImageView<u32>, EntryProblem> {
    match stored_layers(tensors, kinds, position, kinds.len() as int) {
        Err(problem) => Err(problem),
        Ok(layers) => {
            let model = SequenceView { layers, position };
            match image_problem(model, 0) {
                Some(error) => Err(EntryProblem::Inconsistent(error)),
                None => match stored_mtp(tensors, kinds, position) {
                    Err(problem) => Err(problem),
                    Ok(mtp) => match stored_hidden(tensors) {
                        Err(problem) => Err(problem),
                        Ok(last_target_hidden) => Ok(
                            ImageView { tokens, model, mtp, last_target_hidden },
                        ),
                    },
                },
            }
        },
    }
}

/// The session image that the bytes of an entry file describe.
pub open spec fn entry_image(bytes: Seq<u8>, fingerprint: Seq<char>, kinds: Seq<LayerKind>) -> Result<
    ImageView<u32>,
    EntryProblem,
> {
    match archive_metadata(bytes) {
        None => Err(EntryProblem::Unreadable),
        Some(None) => Err(EntryProblem::NoMetadata),
        Some(Some(metadata)) => match identity_problem(metadata, fingerprint) {
            Some(problem) => Err(problem),
            None => described_image(metadata, archive_tensors(bytes)->0, kinds),
        },
    }
}

/// Whether two lengths both are `position * stride`.
fn both_wide(a: usize, b: usize, position: usize, stride: usize) -> (result: (bool, usize))
    ensures
        result.0 == (a == position * stride && b == position * stride),
        result.1 == saturated(position * stride),
{
    proof {
        assert(position * stride >= 0) by (nonlinear_arith);
    }
    match position.checked_mul(stride) {
        Some(expected) => (a == expected && b == expected, expected),
        None => (false, usize::MAX),
    }
}

/// Reads the state of one layer.
fn decode_layer(
    tensors: &Vec<StoredTensor<'_>>,
    kind: LayerKind,
    position: usize,
    layer: usize,
) -> (state: Result<LayerStateImage<u32>, EntryError>)
    ensures
        match state {
            Ok(state) => stored_layer(
                first_wins(tensor_rows(tensors@)),
                kind,
                position as nat,
                layer as int,
            ) == Ok::<_, EntryProblem>(state@),
            Err(error) => stored_layer(
                first_wins(tensor_rows(tensors@)),
                kind,
                position as nat,
                layer as int,
            ) == Err::<LayerView<u32>, _>(error@),
        },
{
    match kind {
        LayerKind::Full { stride } => {
            let name = layer_tensor_name(layer, "keys");
            let keys = match read_words(tensors, name.as_str(), ElementType::F32) {
                Ok(keys) => keys,
                Err(error) => {
                    return Err(error);
                },
            };
            let name = layer_tensor_name(layer, "values");
            let values = match read_words(tensors, name.as_str(), ElementType::F32) {
                Ok(values) => values,
                Err(error) => {
                    return Err(error);
                },
            };
            let (wide, expected) = both_wide(keys.len(), values.len(), position, stride);
            if !wide {
                return Err(
                    EntryError::LayerWidth {
                        layer,
                        keys: keys.len(),
                        values: values.len(),
                        expected,
                    },
                );
            }
            Ok(LayerStateImage::Full(QuantizedAttentionImage { keys, values, positions: position }))
        },
        LayerKind::Linear => {
            let name = layer_tensor_name(layer, "conv");
            let conv = match read_words(tensors, name.as_str(), ElementType::F32) {
                Ok(conv) => conv,
                Err(error) => {
                    return Err(error);
                },
            };
            let name = layer_tensor_name(layer, "recurrent");
            let recurrent = match read_words(tensors, name.as_str(), ElementType::F32) {
                Ok(recurrent) => recurrent,
                Err(error) => {
                    return Err(error);
                },
            };
            Ok(LayerStateImage::Linear(QuantizedDeltaCheckpoint::from_parts(conv, recurrent)))
        },
    }
}

/// The row width of the first full-attention layer.
fn stride_of(kinds: &[LayerKind]) -> (stride: Option<usize>)
    ensures
        stride == first_stride(kinds@),
{
    let mut i: usize = 0;
    proof {
        assert(kinds@.skip(0) =~= kinds@);
    }
    while i < kinds.len()
        invariant
            i <= kinds@.len(),
            first_stride(kinds@) == first_stride(kinds@.skip(i as int)),
        decreases kinds@.len() - i,
    {
        proof {
            assert(kinds@.skip(i as int).skip(1) =~= kinds@.skip(i + 1));
        }
        match kinds[i] {
            LayerKind::Full { stride } => {
                return Some(stride);
            },
            LayerKind::Linear => {},
        }
        i += 1;
    }
    None
}

/// Reads the predictor's cache.
fn decode_mtp(tensors: &Vec<StoredTensor<'_>>, kinds: &[LayerKind], position: usize) -> (mtp: Result<
    Option<QuantizedAttentionImage<u32>>,
    EntryError,
>)
    ensures
        match mtp {
            Ok(mtp) => stored_mtp(first_wins(tensor_rows(tensors@)), kinds@, position as nat)
                == Ok::<_, EntryProblem>(
                match mtp {
                    Some(mtp) => Some(mtp@),
                    None => None,
                },
            ),
            Err(error) => stored_mtp(first_wins(tensor_rows(tensors@)), kinds@, position as nat)
                == Err::<Option<CacheView<u32>>, _>(error@),
        },
{
    if find_tensor(tensors, "mtp.keys").is_none() {
        return Ok(None);
    }
    let keys = match read_words(tensors, "mtp.keys", ElementType::F32) {
        Ok(keys) => keys,
        Err(error) => {
            return Err(error);
        },
    };
    let values = match read_words(tensors, "mtp.values", ElementType::F32) {
        Ok(values) => values,
        Err(error) => {
            return Err(error);
        },
    };
    match stride_of(kinds) {
        Some(stride) => {
            let (wide, expected) = both_wide(keys.len(), values.len(), position, stride);
            if !wide {
                return Err(
                    EntryError::MtpWidth { keys: keys.len(), values: values.len(), expected },
                );
            }
        },
        None => {},
    }
    Ok(Some(QuantizedAttentionImage { keys, values, positions: position }))
}

/// Rebuilds a session image from listed metadata and tensors.
pub fn decode(
    metadata: &Vec<(String, String)>,
    tensors: &Vec<StoredTensor<'_>>,
    kinds: &[LayerKind],
) -> (image: Result<SessionImage<u32>, EntryError>)
    ensures
        match image {
            Ok(image) => described_image(
                first_wins(pair_rows(metadata@)),
                first_wins(tensor_rows(tensors@)),
                kinds@,
            ) == Ok::<_, EntryProblem>(image@),
            Err(error) => described_image(
                first_wins(pair_rows(metadata@)),
                first_wins(tensor_rows(tensors@)),
                kinds@,
            ) == Err::<ImageView<u32>, _>(error@),
        },
{
    let position: usize = match metadata_number(metadata, "position") {
        Ok(position) => position,
        Err(error) => {
            return Err(error);
        },
    };
    let layer_count: usize = match metadata_number(metadata, "layer_count") {
        Ok(layer_count) => layer_count,
        Err(error) => {
            return Err(error);
        },
    };
    if layer_count != kinds.len() {
        return Err(EntryError::LayerCount { stored: layer_count, model: kinds.len() });
    }
    let header = match decode_header(metadata, tensors) {
        Ok(header) => header,
        Err(error) => {
            return Err(error);
        },
    };
    let ghost map = first_wins(tensor_rows(tensors@));
    let mut layers: Vec<LayerStateImage<u32>> = Vec::new();
    let ghost mut views: Seq<LayerView<u32>> = Seq::empty();
    let mut i: usize = 0;
    while i < kinds.len()
        invariant
            i <= kinds@.len(),
            map == first_wins(tensor_rows(tensors@)),
            layers@.len() == i,
            views.len() == i,
            forall|j: int| 0 <= j < i ==> views[j] == (#[trigger] layers@[j])@,
            stored_layers(map, kinds@, position as nat, i as int) == Ok::<_, EntryProblem>(views),
            header.position == position,
            described_image(
                first_wins(pair_rows(metadata@)),
                first_wins(tensor_rows(tensors@)),
                kinds@,
            ) == described_state(map, kinds@, header.tokens@, position as nat),
        decreases kinds@.len() - i,
    {
        match decode_layer(tensors, kinds[i], position, i) {
            Ok(layer) => {
                proof {
                    views = views.push(layer@);
                }
                layers.push(layer);
            },
            Err(error) => {
                proof {
                    lemma_layers_fail(map, kinds@, position as nat, i + 1, kinds@.len() as int);
                }
                return Err(error);
            },
        }
        i += 1;
    }
    let model = QuantizedStateImage { layers, position };
    proof {
        assert(model@.layers =~= views);
    }
    match model.validate() {
        Ok(_) => {},
        Err(error) => {
            return Err(EntryError::Inconsistent(error));
        },
    }
    let mtp = match decode_mtp(tensors, kinds, position) {
        Ok(mtp) => mtp,
        Err(error) => {
            return Err(error);
        },
    };
    let last_target_hidden: Option<Vec<u32>> = match find_tensor(tensors, "last_hidden") {
        None => None,
        Some(_) => match read_words(tensors, "last_hidden", ElementType::F32) {
            Ok(hidden) => Some(hidden),
            Err(error) => {
                return Err(error);
            },
        },
    };
    Ok(SessionImage { tokens: header.tokens, model, mtp, last_target_hidden })
}

/// A layer that cannot be read keeps all longer layer sequences from being
/// read, for the same reason.
proof fn lemma_layers_fail(
    tensors: Tensors,
    kinds: Seq<LayerKind>,
    position: nat,
    n: int,
    m: int,
)
    requires
        0 <= n <= m,
        stored_layers(tensors, kinds, position, n) is Err,
    ensures
        stored_layers(tensors, kinds, position, m) == stored_layers(tensors, kinds, position, n),
    decreases m - n,
{
    if n < m {
        lemma_layers_fail(tensors, kinds, position, n, m - 1);
    }
}

/// Rebuild a session image. `kinds` describes the loaded model, so a file
/// whose layer sequence disagrees is rejected before any state is copied.
pub fn read(bytes: &[u8], fingerprint: &str, kinds: &[LayerKind]) -> (image: Result<
    SessionImage<u32>,
    EntryError,
>)
    ensures
        match image {
            Ok(image) => entry_image(bytes@, fingerprint@, kinds@) == Ok::<_, EntryProblem>(image@),
            Err(error) => entry_image(bytes@, fingerprint@, kinds@) == Err::<ImageView<u32>, _>(
                error@,
            ),
        },
{
    let metadata = match metadata_map(bytes) {
        Ok(metadata) => metadata,
        Err(error) => {
            return Err(error);
        },
    };
    match check_identity(&metadata, fingerprint) {
        Ok(_) => {},
        Err(error) => {
            return Err(error);
        },
    }
    match deserialize(bytes) {
        Ok(tensors) => decode(&metadata, &tensors, kinds),
        Err(error) => Err(EntryError::Unreadable(error)),
    }
}

/// One of the two tensors that hold a layer's state.
pub open spec fn layer_row(layer: LayerView<u32>, index: int, second: bool) -> (
    Seq<char>,
    (Option<ElementType>, Seq<u8>),
) {
    let (part, words) = match layer {
        LayerView::Full(c) => if second {
            ("values"@, c.values)
        } else {
            ("keys"@, c.keys)
        },
        LayerView::Linear(r) => if second {
            ("recurrent"@, r.recurrent)
        } else {
            ("conv"@, r.conv)
        },
    };
    (layer_tensor(index, part), (Some(ElementType::F32), bytes_of(words)))
}

/// How many tensors hold an image.
pub open spec fn row_count(image: ImageView<u32>) -> int {
    1 + 2 * image.model.layers.len() + (if image.mtp is Some {
        2int
    } else {
        0int
    }) + (if image.last_target_hidden is Some {
        1int
    } else {
        0int
    })
}

/// The tensors that hold an image: the tokens, two tensors per layer, the
/// predictor's cache and the hidden row where there are any.
pub open spec fn image_row(image: ImageView<u32>, index: int) -> (
    Seq<char>,
    (Option<ElementType>, Seq<u8>),
) {
    let layers = image.model.layers;
    let after = index - 1 - 2 * layers.len();
    if index == 0 {
        ("tokens"@, (Some(ElementType::U32), bytes_of(image.tokens)))
    } else if after < 0 {
        layer_row(layers[(index - 1) / 2], (index - 1) / 2, (index - 1) % 2 == 1)
    } else if image.mtp is Some && after == 0 {
        ("mtp.keys"@, (Some(ElementType::F32), bytes_of(image.mtp->0.keys)))
    } else if image.mtp is Some && after == 1 {
        ("mtp.values"@, (Some(ElementType::F32), bytes_of(image.mtp->0.values)))
    } else {
        ("last_hidden"@, (Some(ElementType::F32), bytes_of(image.last_target_hidden->0)))
    }
}

/// All tensors of an entry.
pub open spec fn image_rows(image: ImageView<u32>) -> Seq<
    (Seq<char>, (Option<ElementType>, Seq<u8>)),
> {
    Seq::new(row_count(image) as nat, |i: int| image_row(image, i))
}

/// The metadata of an entry.
pub open spec fn image_metadata(
    image: ImageView<u32>,
    fingerprint: Seq<char>,
    quantization: Seq<char>,
    created_unix: u64,
) -> Seq<(Seq<char>, Seq<char>)> {
    seq![
        ("inferq_format"@, FORMAT@),
        ("model_fingerprint"@, fingerprint),
        ("quantization"@, quantization),
        ("position"@, decimal(image.model.position)),
        ("layer_count"@, decimal(image.model.layers.len())),
        ("created_unix"@, decimal(created_unix as nat)),
    ]
}

/// A layer's tensor is named after its number and part alone.
proof fn lemma_layer_names(i: int, p: Seq<char>, j: int, q: Seq<char>)
    requires
        0 <= i,
        0 <= j,
        layer_tensor(i, p) == layer_tensor(j, q),
    ensures
        i == j,
        p == q,
{
    reveal_strlit("layer.");
    reveal_strlit(".");
    let a = decimal(i as nat);
    let b = decimal(j as nat);
    crate::text::numeral_round_trips(i as nat, 10);
    crate::text::numeral_round_trips(j as nat, 10);
    let s = layer_tensor(i, p);
    let t = layer_tensor(j, q);
    assert(s[6 + a.len() as int] == '.');
    assert(t[6 + b.len() as int] == '.');
    assert forall|k: int| 0 <= k < a.len() implies s[6 + k] == a[k] by {}
    assert forall|k: int| 0 <= k < b.len() implies t[6 + k] == b[k] by {}
    if a.len() < b.len() {
        assert(crate::text::digit_value(b[a.len() as int], 10) is Some);
        assert(t[6 + a.len() as int] == b[a.len() as int]);
        assert(false);
    }
    if b.len() < a.len() {
        assert(crate::text::digit_value(a[b.len() as int], 10) is Some);
        assert(s[6 + b.len() as int] == a[b.len() as int]);
        assert(false);
    }
    assert(a =~= b) by {
        assert forall|k: int| 0 <= k < a.len() implies a[k] == b[k] by {
            assert(s[6 + k] == t[6 + k]);
        }
    }
    assert(p =~= q) by {
        assert(s.len() == 7 + a.len() + p.len());
        assert(t.len() == 7 + b.len() + q.len());
        assert forall|k: int| 0 <= k < p.len() implies p[k] == q[k] by {
            assert(s[7 + a.len() + k] == p[k]);
            assert(t[7 + b.len() + k] == q[k]);
        }
    }
}

/// A layer's tensor never takes one of the fixed names.
proof fn lemma_layer_name_is_no_other(i: int, part: Seq<char>)
    requires
        0 <= i,
    ensures
        layer_tensor(i, part) != "tokens"@,
        layer_tensor(i, part) != "mtp.keys"@,
        layer_tensor(i, part) != "mtp.values"@,
        layer_tensor(i, part) != "last_hidden"@,
        layer_tensor(i, part) != "__metadata__"@,
{
    reveal_strlit("layer.");
    reveal_strlit("tokens");
    reveal_strlit("mtp.keys");
    reveal_strlit("mtp.values");
    reveal_strlit("last_hidden");
    reveal_strlit("__metadata__");
    let s = layer_tensor(i, part);
    assert(s[0] == 'l');
    assert(s[2] == 'y');
}

proof fn lemma_fixed_names()
    ensures
        "tokens"@ != "mtp.keys"@,
        "tokens"@ != "mtp.values"@,
        "tokens"@ != "last_hidden"@,
        "mtp.keys"@ != "mtp.values"@,
        "mtp.keys"@ != "last_hidden"@,
        "mtp.values"@ != "last_hidden"@,
        "tokens"@ != "__metadata__"@,
        "mtp.keys"@ != "__metadata__"@,
        "mtp.values"@ != "__metadata__"@,
        "last_hidden"@ != "__metadata__"@,
        "keys"@ != "values"@,
        "conv"@ != "recurrent"@,
{
    reveal_strlit("tokens");
    reveal_strlit("mtp.keys");
    reveal_strlit("mtp.values");
    reveal_strlit("last_hidden");
    reveal_strlit("__metadata__");
    reveal_strlit("keys");
    reveal_strlit("values");
    reveal_strlit("conv");
    reveal_strlit("recurrent");
    assert("tokens"@.len() == 6);
    assert("mtp.keys"@.len() == 8);
    assert("mtp.values"@.len() == 10);
    assert("last_hidden"@.len() == 11);
    assert("__metadata__"@.len() == 12);
    assert("keys"@.len() == 4);
    assert("values"@.len() == 6);
    assert("conv"@.len() == 4);
    assert("recurrent"@.len() == 9);
}

/// No two tensors of an entry share a name, and none takes the reserved one.
proof fn lemma_image_names(image: ImageView<u32>)
    ensures
        names_differ(image_rows(image)),
        forall|i: int|
            0 <= i < image_rows(image).len() ==> (#[trigger] image_rows(image)[i]).0
                != "__metadata__"@ && image_rows(image)[i].1.1.len() % 4 == 0,
{
    lemma_fixed_names();
    let rows = image_rows(image);
    let n = image.model.layers.len() as int;
    assert forall|i: int| 0 <= i < rows.len() implies (#[trigger] rows[i]).0 != "__metadata__"@
        && rows[i].1.1.len() % 4 == 0 by {
        if 0 < i < 1 + 2 * n {
            let k = (i - 1) / 2;
            lemma_layer_name_is_no_other(k, "keys"@);
            lemma_layer_name_is_no_other(k, "values"@);
            lemma_layer_name_is_no_other(k, "conv"@);
            lemma_layer_name_is_no_other(k, "recurrent"@);
        }
    }
    assert forall|i: int, j: int| 0 <= i < j < rows.len() implies (#[trigger] rows[i]).0 != (
    #[trigger] rows[j]).0 by {
        let a = (i - 1) / 2;
        let b = (j - 1) / 2;
        if 0 < i < 1 + 2 * n {
            lemma_layer_name_is_no_other(a, "keys"@);
            lemma_layer_name_is_no_other(a, "values"@);
            lemma_layer_name_is_no_other(a, "conv"@);
            lemma_layer_name_is_no_other(a, "recurrent"@);
        }
        if 0 < j < 1 + 2 * n {
            lemma_layer_name_is_no_other(b, "keys"@);
            lemma_layer_name_is_no_other(b, "values"@);
            lemma_layer_name_is_no_other(b, "conv"@);
            lemma_layer_name_is_no_other(b, "recurrent"@);
        }
        if 0 < i && j < 1 + 2 * n && rows[i].0 == rows[j].0 {
            let p = match image.model.layers[a] {
                LayerView::Full(_) => if (i - 1) % 2 == 1 {
                    "values"@
                } else {
                    "keys"@
                },
                LayerView::Linear(_) => if (i - 1) % 2 == 1 {
                    "recurrent"@
                } else {
                    "conv"@
                },
            };
            let q = match image.model.layers[b] {
                LayerView::Full(_) => if (j - 1) % 2 == 1 {
                    "values"@
                } else {
                    "keys"@
                },
                LayerView::Linear(_) => if (j - 1) % 2 == 1 {
                    "recurrent"@
                } else {
                    "conv"@
                },
            };
            assert(rows[i].0 == layer_tensor(a, p));
            assert(rows[j].0 == layer_tensor(b, q));
            lemma_layer_names(a, p, b, q);
        }
    }
}

/// The fields of an entry's metadata all have names of their own.
proof fn lemma_metadata_names(
    image: ImageView<u32>,
    fingerprint: Seq<char>,
    quantization: Seq<char>,
    created_unix: u64,
)
    ensures
        names_differ(image_metadata(image, fingerprint, quantization, created_unix)),
{
    reveal_strlit("inferq_format");
    reveal_strlit("model_fingerprint");
    reveal_strlit("quantization");
    reveal_strlit("position");
    reveal_strlit("layer_count");
    reveal_strlit("created_unix");
    assert("inferq_format"@.len() == 13);
    assert("model_fingerprint"@.len() == 17);
    assert("quantization"@.len() == 12);
    assert("position"@.len() == 8);
    assert("layer_count"@.len() == 11);
    assert("created_unix"@.len() == 12);
    assert("quantization"@[0] == 'q');
    assert("created_unix"@[0] == 'c');
}

/// Appends a tensor that holds the given words.
fn push_tensor(tensors: &mut Vec<EntryTensor>, name: String, dtype: ElementType, words: &[u32])
    requires
        elements_counted(old(tensors)@),
    ensures
        elements_counted(final(tensors)@),
        entry_rows(final(tensors)@) == entry_rows(old(tensors)@).push(
            (name@, (Some(dtype), bytes_of(words@))),
        ),
{
    let bytes = encode_words(words);
    tensors.push(EntryTensor { name, dtype, elements: words.len(), bytes });
    proof {
        assert(entry_rows(tensors@) =~= entry_rows(old(tensors)@).push(
            (name@, (Some(dtype), bytes_of(words@))),
        ));
    }
}

/// Lays an image out as the tensors and the metadata of an entry.
pub fn encode(
    image: &SessionImage<u32>,
    fingerprint: &str,
    quantization: &str,
    created_unix: u64,
) -> (entry: (Vec<EntryTensor>, Vec<(String, String)>))
    ensures
        elements_counted(entry.0@),
        entry_rows(entry.0@) == image_rows(image@),
        pair_rows(entry.1@) == image_metadata(
            image@,
            fingerprint@,
            quantization@,
            created_unix,
        ),
{
    let ghost rows = image_rows(image@);
    let mut tensors: Vec<EntryTensor> = Vec::new();
    push_tensor(&mut tensors, "tokens".to_owned(), ElementType::U32, image.tokens.as_slice());
    proof {
        assert(entry_rows(tensors@) =~= rows.take(1));
    }
    let mut i: usize = 0;
    while i < image.model.layers.len()
        invariant
            i <= image.model.layers@.len(),
            rows == image_rows(image@),
            elements_counted(tensors@),
            entry_rows(tensors@) == rows.take(1 + 2 * i),
        decreases image.model.layers@.len() - i,
    {
        proof {
            assert(image@.model.layers[i as int] == image.model.layers@[i as int]@);
            assert((2 * i + 1 - 1) / 2 == i && (2 * i + 2 - 1) / 2 == i);
            assert(rows[1 + 2 * i] == layer_row(image@.model.layers[i as int], i as int, false));
            assert(rows[2 + 2 * i] == layer_row(image@.model.layers[i as int], i as int, true));
            assert(rows.take(3 + 2 * i) =~= rows.take(1 + 2 * i).push(rows[1 + 2 * i]).push(
                rows[2 + 2 * i],
            ));
        }
        match &image.model.layers[i] {
            LayerStateImage::Full(state) => {
                let name = layer_tensor_name(i, "keys");
                push_tensor(&mut tensors, name, ElementType::F32, state.keys.as_slice());
                let name = layer_tensor_name(i, "values");
                push_tensor(&mut tensors, name, ElementType::F32, state.values.as_slice());
            },
            LayerStateImage::Linear(state) => {
                let name = layer_tensor_name(i, "conv");
                push_tensor(&mut tensors, name, ElementType::F32, state.conv());
                let name = layer_tensor_name(i, "recurrent");
                push_tensor(&mut tensors, name, ElementType::F32, state.recurrent());
            },
        }
        i += 1;
    }
    let ghost n = image@.model.layers.len() as int;
    match &image.mtp {
        Some(mtp) => {
            push_tensor(
                &mut tensors,
                "mtp.keys".to_owned(),
                ElementType::F32,
                mtp.keys.as_slice(),
            );
            push_tensor(
                &mut tensors,
                "mtp.values".to_owned(),
                ElementType::F32,
                mtp.values.as_slice(),
            );
            proof {
                assert(rows.take(3 + 2 * n) =~= rows.take(1 + 2 * n).push(rows[1 + 2 * n]).push(
                    rows[2 + 2 * n],
                ));
            }
        },
        None => {},
    }
    let ghost m = if image@.mtp is Some {
        3 + 2 * n
    } else {
        1 + 2 * n
    };
    match &image.last_target_hidden {
        Some(hidden) => {
            push_tensor(
                &mut tensors,
                "last_hidden".to_owned(),
                ElementType::F32,
                hidden.as_slice(),
            );
            proof {
                assert(rows.take(m + 1) =~= rows.take(m).push(rows[m]));
            }
        },
        None => {},
    }
    proof {
        assert(rows.take(rows.len() as int) =~= rows);
    }
    let mut metadata: Vec<(String, String)> = Vec::new();
    metadata.push(("inferq_format".to_owned(), FORMAT.to_owned()));
    metadata.push(("model_fingerprint".to_owned(), fingerprint.to_owned()));
    metadata.push(("quantization".to_owned(), quantization.to_owned()));
    metadata.push(("position".to_owned(), decimal_text(image.position())));
    metadata.push(("layer_count".to_owned(), decimal_text(image.model.layers.len())));
    metadata.push(("created_unix".to_owned(), number_text(created_unix, 10, 0)));
    proof {
        assert(pair_rows(metadata@) =~= image_metadata(
            image@,
            fingerprint@,
            quantization@,
            created_unix,
        ));
    }
    (tensors, metadata)
}

/// Whether an image is one that a model with these layers produces: all its
/// parts are at one position, and their rows have the model's widths.
pub open spec fn image_matches(image: ImageView<u32>, kinds: Seq<LayerKind>) -> bool {
    let position = image.model.position;
    &&& image.tokens.len() == position
    &&& position <= usize::MAX
    &&& image.model.layers.len() == kinds.len()
    &&& kinds.len() <= usize::MAX
    &&& forall|i: int|
        0 <= i < kinds.len() ==> match (#[trigger] image.model.layers[i], kinds[i]) {
            (LayerView::Full(c), LayerKind::Full { stride }) => c.positions == position
                && c.keys.len() == position * stride && c.values.len() == position * stride,
            (LayerView::Linear(_), LayerKind::Linear) => true,
            _ => false,
        }
    &&& image.mtp is Some ==> {
        &&& image.mtp->0.positions == position
        &&& first_stride(kinds) matches Some(stride) ==> image.mtp->0.keys.len() == position
            * stride && image.mtp->0.values.len() == position * stride
    }
}

/// A tensor of an entry reads back as the words that were written.
proof fn lemma_row_reads_back(image: ImageView<u32>, index: int, dtype: ElementType, words: Seq<u32>)
    requires
        0 <= index < row_count(image),
        image_row(image, index).1 == (Some(dtype), bytes_of(words)),
    ensures
        tensor_words(first_wins(image_rows(image)), image_row(image, index).0, dtype) == Ok::<
            _,
            EntryProblem,
        >(words),
        first_wins(image_rows(image)).contains_key(image_row(image, index).0),
{
    lemma_image_names(image);
    let rows = image_rows(image);
    assert(rows[index] == image_row(image, index));
    lemma_first_row(rows, index);
    words_round_trip(words);
}

/// The layers of an entry read back as they were written.
proof fn lemma_layers_read_back(image: ImageView<u32>, kinds: Seq<LayerKind>, n: int)
    requires
        image_matches(image, kinds),
        0 <= n <= kinds.len(),
    ensures
        stored_layers(first_wins(image_rows(image)), kinds, image.model.position, n) == Ok::<
            _,
            EntryProblem,
        >(image.model.layers.take(n)),
    decreases n,
{
    let layers = image.model.layers;
    if n > 0 {
        let k = n - 1;
        lemma_layers_read_back(image, kinds, k);
        assert((2 * k + 1 - 1) / 2 == k && (2 * k + 2 - 1) / 2 == k);
        let first = image_row(image, 1 + 2 * k);
        let second = image_row(image, 2 + 2 * k);
        assert(first == layer_row(layers[k], k, false));
        assert(second == layer_row(layers[k], k, true));
        match layers[k] {
            LayerView::Full(c) => {
                lemma_row_reads_back(image, 1 + 2 * k, ElementType::F32, c.keys);
                lemma_row_reads_back(image, 2 + 2 * k, ElementType::F32, c.values);
            },
            LayerView::Linear(r) => {
                lemma_row_reads_back(image, 1 + 2 * k, ElementType::F32, r.conv);
                lemma_row_reads_back(image, 2 + 2 * k, ElementType::F32, r.recurrent);
            },
        }
        assert(layers.take(n) =~= layers.take(k).push(layers[k]));
    } else {
        assert(layers.take(0) =~= Seq::<LayerView<u32>>::empty());
    }
}

proof fn lemma_matching_image_is_consistent(image: ImageView<u32>, kinds: Seq<LayerKind>, from: int)
    requires
        image_matches(image, kinds),
        0 <= from <= kinds.len(),
    ensures
        image_problem(image.model, from) is None,
    decreases kinds.len() - from,
{
    if from < kinds.len() {
        lemma_matching_image_is_consistent(image, kinds, from + 1);
        let position = image.model.position;
        match (image.model.layers[from], kinds[from]) {
            (LayerView::Full(c), LayerKind::Full { stride }) => {
                if position > 0 {
                    vstd::arithmetic::div_mod::lemma_mod_multiples_basic(
                        stride as int,
                        position as int,
                    );
                    vstd::arithmetic::mul::lemma_mul_is_commutative(
                        stride as int,
                        position as int,
                    );
                } else {
                    assert(0 * stride == 0) by (nonlinear_arith);
                }
            },
            _ => {},
        }
    }
}

/// What is written reads back: the tensors and the metadata of an entry
/// describe exactly the image they were made from, to a model with the same
/// layers and fingerprint.
pub proof fn a_written_entry_describes_its_image(
    image: ImageView<u32>,
    kinds: Seq<LayerKind>,
    fingerprint: Seq<char>,
    quantization: Seq<char>,
    created_unix: u64,
)
    requires
        image_matches(image, kinds),
    ensures
        ({
            let metadata = first_wins(
                image_metadata(image, fingerprint, quantization, created_unix),
            );
            let tensors = first_wins(image_rows(image));
            &&& identity_problem(metadata, fingerprint) is None
            &&& header_tokens(metadata, tensors) == Ok::<_, EntryProblem>(image.tokens)
            &&& described_image(metadata, tensors, kinds) == Ok::<_, EntryProblem>(image)
        }),
{
    let fields = image_metadata(image, fingerprint, quantization, created_unix);
    let tensors = first_wins(image_rows(image));
    let position = image.model.position;
    let n = image.model.layers.len() as int;
    lemma_metadata_names(image, fingerprint, quantization, created_unix);
    lemma_first_row(fields, 0);
    lemma_first_row(fields, 1);
    lemma_first_row(fields, 3);
    lemma_first_row(fields, 4);
    crate::text::padded_numeral_round_trips(position, 10, 0, usize::MAX as nat);
    crate::text::padded_numeral_round_trips(n as nat, 10, 0, usize::MAX as nat);
    lemma_row_reads_back(image, 0, ElementType::U32, image.tokens);
    lemma_layers_read_back(image, kinds, n);
    assert(image.model.layers.take(n) =~= image.model.layers);
    lemma_matching_image_is_consistent(image, kinds, 0);
    lemma_fixed_names();
    let rows = image_rows(image);
    if image.mtp is Some {
        lemma_row_reads_back(image, 1 + 2 * n, ElementType::F32, image.mtp->0.keys);
        lemma_row_reads_back(image, 2 + 2 * n, ElementType::F32, image.mtp->0.values);
    } else {
        assert forall|j: int| 0 <= j < rows.len() implies (#[trigger] rows[j]).0
            != "mtp.keys"@ by {
            lemma_row_is_no_mtp(image, j);
        }
        lemma_no_row(rows, "mtp.keys"@);
    }
    let last = row_count(image) - 1;
    if image.last_target_hidden is Some {
        lemma_row_reads_back(image, last, ElementType::F32, image.last_target_hidden->0);
    } else {
        assert forall|j: int| 0 <= j < rows.len() implies (#[trigger] rows[j]).0
            != "last_hidden"@ by {
            lemma_row_is_no_hidden(image, j);
        }
        lemma_no_row(rows, "last_hidden"@);
    }
    match image.mtp {
        Some(mtp) => {
            assert(mtp == (CacheView { keys: mtp.keys, values: mtp.values, positions: position }));
        },
        None => {},
    }
    assert(image == (ImageView {
        tokens: image.tokens,
        model: SequenceView { layers: image.model.layers, position },
        mtp: image.mtp,
        last_target_hidden: image.last_target_hidden,
    }));
}

proof fn lemma_row_is_no_mtp(image: ImageView<u32>, j: int)
    requires
        0 <= j < row_count(image),
        image.mtp is None,
    ensures
        image_row(image, j).0 != "mtp.keys"@,
{
    lemma_fixed_names();
    if 0 < j < 1 + 2 * image.model.layers.len() {
        let k = (j - 1) / 2;
        lemma_layer_name_is_no_other(k, "keys"@);
        lemma_layer_name_is_no_other(k, "values"@);
        lemma_layer_name_is_no_other(k, "conv"@);
        lemma_layer_name_is_no_other(k, "recurrent"@);
    }
}

proof fn lemma_row_is_no_hidden(image: ImageView<u32>, j: int)
    requires
        0 <= j < row_count(image),
        image.last_target_hidden is None,
    ensures
        image_row(image, j).0 != "last_hidden"@,
{
    lemma_fixed_names();
    if 0 < j < 1 + 2 * image.model.layers.len() {
        let k = (j - 1) / 2;
        lemma_layer_name_is_no_other(k, "keys"@);
        lemma_layer_name_is_no_other(k, "values"@);
        lemma_layer_name_is_no_other(k, "conv"@);
        lemma_layer_name_is_no_other(k, "recurrent"@);
    }
}

/// The bytes of an entry file that holds an image. A reader of the same
/// checkpoint gets the image back.
pub fn write(
    image: &SessionImage<u32>,
    fingerprint: &str,
    quantization: &str,
    created_unix: u64,
) -> (bytes: Result<Vec<u8>, EntryError>)
    requires
        archive_fits(image_rows(image@)),
    ensures
        bytes is Ok == archive_writable(
            image_rows(image@),
            image_metadata(image@, fingerprint@, quantization@, created_unix),
        ),
        match bytes {
            Ok(bytes) => {
                &&& archive_tensors(bytes@) == Some(first_wins(image_rows(image@)))
                &&& archive_metadata(bytes@) == Some(
                    Some(
                        first_wins(
                            image_metadata(image@, fingerprint@, quantization@, created_unix),
                        ),
                    ),
                )
                &&& forall|kinds: Seq<LayerKind>| #[trigger]
                    image_matches(image@, kinds) ==> entry_image(bytes@, fingerprint@, kinds)
                        == Ok::<_, EntryProblem>(image@) && entry_tokens(bytes@, fingerprint@)
                        == Ok::<_, EntryProblem>(image@.tokens)
                &&& forall|other: Seq<char>, kinds: Seq<LayerKind>|
                    other != fingerprint@ ==> #[trigger] entry_image(bytes@, other, kinds) == Err::<
                        ImageView<u32>,
                        _,
                    >(EntryProblem::WrongCheckpoint { found: fingerprint@ })
            },
            Err(error) => error@ == EntryProblem::Unreadable,
        },
{
    let (tensors, metadata) = encode(image, fingerprint, quantization, created_unix);
    proof {
        lemma_image_names(image@);
        lemma_metadata_names(image@, fingerprint@, quantization@, created_unix);
        let fields = image_metadata(image@, fingerprint@, quantization@, created_unix);
        lemma_first_row(fields, 0);
        lemma_first_row(fields, 1);
        assert forall|kinds: Seq<LayerKind>| #[trigger]
            image_matches(image@, kinds) implies described_image(
            first_wins(image_metadata(image@, fingerprint@, quantization@, created_unix)),
            first_wins(image_rows(image@)),
            kinds,
        ) == Ok::<_, EntryProblem>(image@) && header_tokens(
            first_wins(image_metadata(image@, fingerprint@, quantization@, created_unix)),
            first_wins(image_rows(image@)),
        ) == Ok::<_, EntryProblem>(image@.tokens) && identity_problem(
            first_wins(image_metadata(image@, fingerprint@, quantization@, created_unix)),
            fingerprint@,
        ) is None by {
            a_written_entry_describes_its_image(
                image@,
                kinds,
                fingerprint@,
                quantization@,
                created_unix,
            );
        }
    }
    match serialize(&tensors, metadata) {
        Ok(bytes) => Ok(bytes),
        Err(error) => Err(EntryError::Unreadable(error)),
    }
}

} // verus!
