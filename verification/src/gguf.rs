//! Quantized checkpoints in the GGUF format: what the header says of the
//! tensors, where the bytes of a fused expert lie, and which matrices can be
//! executed.

use crate::order::{arranges, order_by_text, text_ordered};
use crate::text::{same_text, sorted_unique, strictly_ordered, texts};
use candle_core::quantized::GgmlDType;
use vstd::prelude::*;

verus! {

/// How the elements of a tensor are stored.
#[derive(Debug, Clone, Copy, PartialEq, Eq, Structural)]
pub enum GgmlType {
    F32,
    F16,
    BF16,
    Q4_0,
    Q4_1,
    Q5_0,
    Q5_1,
    Q8_0,
    Q8_1,
    Q2K,
    Q3K,
    Q4K,
    Q5K,
    Q6K,
    Q8K,
}

impl GgmlType {
    /// The number of elements of one block.
    pub open spec fn block_elements(self) -> nat {
        match self {
            GgmlType::F32 | GgmlType::F16 | GgmlType::BF16 => 1,
            GgmlType::Q4_0
            | GgmlType::Q4_1
            | GgmlType::Q5_0
            | GgmlType::Q5_1
            | GgmlType::Q8_0
            | GgmlType::Q8_1 => 32,
            _ => 256,
        }
    }

    /// The number of bytes of one block.
    pub open spec fn block_bytes(self) -> nat {
        match self {
            GgmlType::F32 => 4,
            GgmlType::F16 | GgmlType::BF16 => 2,
            GgmlType::Q4_0 => 18,
            GgmlType::Q4_1 => 20,
            GgmlType::Q5_0 => 22,
            GgmlType::Q5_1 => 24,
            GgmlType::Q8_0 => 34,
            GgmlType::Q8_1 => 36,
            GgmlType::Q2K => 84,
            GgmlType::Q3K => 110,
            GgmlType::Q4K => 144,
            GgmlType::Q5K => 176,
            GgmlType::Q6K => 210,
            GgmlType::Q8K => 292,
        }
    }

    /// The name of the type.
    pub open spec fn label(self) -> Seq<char> {
        match self {
            GgmlType::F32 => "F32"@,
            GgmlType::F16 => "F16"@,
            GgmlType::BF16 => "BF16"@,
            GgmlType::Q4_0 => "Q4_0"@,
            GgmlType::Q4_1 => "Q4_1"@,
            GgmlType::Q5_0 => "Q5_0"@,
            GgmlType::Q5_1 => "Q5_1"@,
            GgmlType::Q8_0 => "Q8_0"@,
            GgmlType::Q8_1 => "Q8_1"@,
            GgmlType::Q2K => "Q2K"@,
            GgmlType::Q3K => "Q3K"@,
            GgmlType::Q4K => "Q4K"@,
            GgmlType::Q5K => "Q5K"@,
            GgmlType::Q6K => "Q6K"@,
            GgmlType::Q8K => "Q8K"@,
        }
    }

    /// Whether a matrix of this type can be multiplied without being expanded.
    pub open spec fn executable(self) -> bool {
        self == GgmlType::Q4K || self == GgmlType::Q5K || self == GgmlType::Q6K || self
            == GgmlType::Q8_0 || self == GgmlType::F32
    }

    /// The name of the type.
    pub fn name(self) -> (name: String)
        ensures
            name@ == self.label(),
    {
        match self {
            GgmlType::F32 => "F32".to_owned(),
            GgmlType::F16 => "F16".to_owned(),
            GgmlType::BF16 => "BF16".to_owned(),
            GgmlType::Q4_0 => "Q4_0".to_owned(),
            GgmlType::Q4_1 => "Q4_1".to_owned(),
            GgmlType::Q5_0 => "Q5_0".to_owned(),
            GgmlType::Q5_1 => "Q5_1".to_owned(),
            GgmlType::Q8_0 => "Q8_0".to_owned(),
            GgmlType::Q8_1 => "Q8_1".to_owned(),
            GgmlType::Q2K => "Q2K".to_owned(),
            GgmlType::Q3K => "Q3K".to_owned(),
            GgmlType::Q4K => "Q4K".to_owned(),
            GgmlType::Q5K => "Q5K".to_owned(),
            GgmlType::Q6K => "Q6K".to_owned(),
            GgmlType::Q8K => "Q8K".to_owned(),
        }
    }

    /// Whether a matrix of this type can be multiplied without being expanded.
    pub fn is_executable(self) -> (executable: bool)
        ensures
            executable == self.executable(),
    {
        match self {
            GgmlType::Q4K | GgmlType::Q5K | GgmlType::Q6K | GgmlType::Q8_0 | GgmlType::F32 => true,
            _ => false,
        }
    }
}

/// `GgmlDType::block_size` of candle-core: the number of elements that one
/// block holds is 1 for the plain types, 32 for the types with a suffix `_0`
/// or `_1`, and 256 for the K types.
#[verifier::external_body]
pub(crate) fn block_size(t: GgmlType) -> (elements: usize)
    ensures
        elements == t.block_elements(),
{
    let dtype = match t {
        GgmlType::F32 => GgmlDType::F32, GgmlType::F16 => GgmlDType::F16,
        GgmlType::BF16 => GgmlDType::BF16, GgmlType::Q4_0 => GgmlDType::Q4_0,
        GgmlType::Q4_1 => GgmlDType::Q4_1, GgmlType::Q5_0 => GgmlDType::Q5_0,
        GgmlType::Q5_1 => GgmlDType::Q5_1, GgmlType::Q8_0 => GgmlDType::Q8_0,
        GgmlType::Q8_1 => GgmlDType::Q8_1, GgmlType::Q2K => GgmlDType::Q2K,
        GgmlType::Q3K => GgmlDType::Q3K, GgmlType::Q4K => GgmlDType::Q4K,
        GgmlType::Q5K => GgmlDType::Q5K, GgmlType::Q6K => GgmlDType::Q6K,
        GgmlType::Q8K => GgmlDType::Q8K,
    };
    dtype.block_size()
}

/// `GgmlDType::type_size` of candle-core: the number of bytes that one block
/// takes, which is the size of the crate's block struct of the type.
#[verifier::external_body]
pub(crate) fn type_size(t: GgmlType) -> (bytes: usize)
    ensures
        bytes == t.block_bytes(),
{
    let dtype = match t {
        GgmlType::F32 => GgmlDType::F32, GgmlType::F16 => GgmlDType::F16,
        GgmlType::BF16 => GgmlDType::BF16, GgmlType::Q4_0 => GgmlDType::Q4_0,
        GgmlType::Q4_1 => GgmlDType::Q4_1, GgmlType::Q5_0 => GgmlDType::Q5_0,
        GgmlType::Q5_1 => GgmlDType::Q5_1, GgmlType::Q8_0 => GgmlDType::Q8_0,
        GgmlType::Q8_1 => GgmlDType::Q8_1, GgmlType::Q2K => GgmlDType::Q2K,
        GgmlType::Q3K => GgmlDType::Q3K, GgmlType::Q4K => GgmlDType::Q4K,
        GgmlType::Q5K => GgmlDType::Q5K, GgmlType::Q6K => GgmlDType::Q6K,
        GgmlType::Q8K => GgmlDType::Q8K,
    };
    dtype.type_size()
}

/// The number of elements of a tensor of the given shape.
pub open spec fn elements(shape: Seq<usize>) -> nat
    decreases shape.len(),
{
    if shape.len() == 0 {
        1
    } else {
        elements(shape.drop_last()) * shape.last() as nat
    }
}

/// The number of elements can be counted dimension by dimension.
pub open spec fn countable(shape: Seq<usize>) -> bool {
    forall|k: int| 0 <= k <= shape.len() ==> elements(#[trigger] shape.take(k)) <= usize::MAX
}

/// The number of elements of a tensor of the given shape.
pub fn element_count(shape: &Vec<usize>) -> (count: usize)
    requires
        countable(shape@),
    ensures
        count == elements(shape@),
{
    let mut count: usize = 1;
    let mut i: usize = 0;
    while i < shape.len()
        invariant
            i <= shape@.len(),
            countable(shape@),
            count == elements(shape@.take(i as int)),
        decreases shape@.len() - i,
    {
        proof {
            assert(shape@.take(i + 1).drop_last() =~= shape@.take(i as int));
            assert(elements(shape@.take(i + 1)) <= usize::MAX);
        }
        count = count * shape[i];
        i += 1;
    }
    proof {
        assert(shape@.take(shape@.len() as int) =~= shape@);
    }
    count
}

/// One tensor of a header.
#[derive(Debug, Clone, PartialEq, Eq)]
pub struct HeaderTensor {
    pub name: String,
    pub dtype: GgmlType,
    pub shape: Vec<usize>,
    /// Where the data starts, counted from the start of the data section.
    pub offset: u64,
}

impl HeaderTensor {
    /// The number of bytes of the data.
    pub open spec fn data_bytes(&self) -> nat {
        elements(self.shape@) / self.dtype.block_elements() * self.dtype.block_bytes()
    }

    /// The place and the size of the data fit the machine.
    pub open spec fn fits(&self, data: u64) -> bool {
        &&& countable(self.shape@)
        &&& self.data_bytes() <= usize::MAX
        &&& data + self.offset <= u64::MAX
    }
}

/// One tensor of a file.
#[derive(Debug, Clone, PartialEq, Eq)]
pub struct GgufTensorInfo {
    pub name: String,
    pub dtype: String,
    pub shape: Vec<usize>,
    /// Where the data starts, counted from the start of the file.
    pub offset: u64,
    pub storage_bytes: usize,
}

impl GgufTensorInfo {
    /// Whether this is what a tensor of a header is in the file.
    pub open spec fn describes(&self, tensor: HeaderTensor, data: u64) -> bool {
        &&& self.name@ == tensor.name@
        &&& self.dtype@ == tensor.dtype.label()
        &&& self.shape@ == tensor.shape@
        &&& self.offset == data + tensor.offset
        &&& self.storage_bytes == tensor.data_bytes()
    }
}

/// A value of a header's metadata.
#[derive(Debug, Clone, PartialEq, Eq)]
pub enum GgufValue {
    U8(u8),
    I8(i8),
    U16(u16),
    I16(i16),
    U32(u32),
    I32(i32),
    U64(u64),
    I64(i64),
    Text(String),
    /// An array, by its length.
    Array(usize),
    /// A value that is neither an integer, a text nor an array.
    Other,
}

impl GgufValue {
    /// The integer that the value holds.
    pub open spec fn number(&self) -> Option<int> {
        match *self {
            GgufValue::U8(v) => Some(v as int),
            GgufValue::I8(v) => Some(v as int),
            GgufValue::U16(v) => Some(v as int),
            GgufValue::I16(v) => Some(v as int),
            GgufValue::U32(v) => Some(v as int),
            GgufValue::I32(v) => Some(v as int),
            GgufValue::U64(v) => Some(v as int),
            GgufValue::I64(v) => Some(v as int),
            _ => None,
        }
    }
}

/// An integer, reduced to the range of a size as a cast reduces it.
pub open spec fn wrapped(v: int) -> int {
    v % (usize::MAX + 1)
}

/// Reduces an integer to the range of a size.
fn wrap(v: i128) -> (size: usize)
    ensures
        size == wrapped(v as int),
{
    let range: i128 = usize::MAX as i128 + 1;
    if v >= 0 {
        (v % range) as usize
    } else {
        let below: i128 = -(v + 1);
        let rest: i128 = below % range;
        proof {
            let m = range as int;
            let q = below as int / m;
            vstd::arithmetic::div_mod::lemma_fundamental_div_mod(below as int, m);
            assert(v == -(q + 1) * m + (m - 1 - rest)) by (nonlinear_arith)
                requires
                    below == m * q + rest,
                    below == -(v + 1),
            ;
            vstd::arithmetic::div_mod::lemma_fundamental_div_mod_converse(
                v as int,
                m,
                -(q + 1),
                m - 1 - rest,
            );
        }
        (range - 1 - rest) as usize
    }
}

/// The integer that a value holds, as a size.
pub fn integer(value: &GgufValue) -> (size: Option<usize>)
    ensures
        match (size, value.number()) {
            (Some(size), Some(v)) => size == wrapped(v),
            (None, None) => true,
            _ => false,
        },
{
    match value {
        GgufValue::U8(v) => Some(wrap(*v as i128)),
        GgufValue::I8(v) => Some(wrap(*v as i128)),
        GgufValue::U16(v) => Some(wrap(*v as i128)),
        GgufValue::I16(v) => Some(wrap(*v as i128)),
        GgufValue::U32(v) => Some(wrap(*v as i128)),
        GgufValue::I32(v) => Some(wrap(*v as i128)),
        GgufValue::U64(v) => Some(wrap(*v as i128)),
        GgufValue::I64(v) => Some(wrap(*v as i128)),
        _ => None,
    }
}

/// What a checkpoint holds, at a glance.
#[derive(Debug, Clone, PartialEq, Eq)]
pub struct GgufSummary {
    pub architecture: String,
    pub layers: usize,
    pub hidden_size: usize,
    pub experts_per_layer: usize,
    pub experts_selected: usize,
    pub vocab_size: usize,
    pub full_attention_layers: usize,
    pub linear_attention_layers: usize,
    pub tensor_count: usize,
    pub dtypes: Vec<String>,
    pub format: String,
}

/// Why a file cannot be used.
#[derive(Debug, Clone, PartialEq, Eq)]
pub enum GgufError {
    /// The architecture is missing or is not a text.
    InvalidArchitecture,
    /// The architecture is another one.
    UnsupportedArchitecture { architecture: String },
    /// A metadata key is missing.
    MissingKey { key: String },
    /// The value of a metadata key is not an integer.
    NotAnInteger { key: String },
    /// The interval of full-attention layers is zero.
    ZeroInterval,
    /// The vocabulary is missing or is not an array.
    InvalidTokens,
    /// A tensor is missing.
    MissingTensor { name: String },
    /// A tensor is not a matrix.
    NotAMatrix { name: String, shape: Vec<usize> },
    /// A tensor is not a stack of matrices, one per expert.
    NotExperts { name: String, shape: Vec<usize> },
    /// A tensor has no such expert.
    NoSuchExpert { name: String, expert: usize, experts: usize },
    /// The rows of an expert's matrix are not made of whole blocks.
    SplitBlock { name: String, columns: usize, dtype: GgmlType },
    /// The size or the place of an expert's matrix does not fit the machine.
    TooLarge { name: String },
    /// A matrix of this type cannot be executed.
    UnsupportedType { dtype: GgmlType },
    /// The shape of a matrix does not have two dimensions.
    NotTwoDimensional { shape: Vec<usize> },
}

/// The value of a metadata key.
pub open spec fn value_of(metadata: Seq<(String, GgufValue)>, key: Seq<char>) -> Option<GgufValue>
    decreases metadata.len(),
{
    if metadata.len() == 0 {
        None
    } else if metadata[0].0@ == key {
        Some(metadata[0].1)
    } else {
        value_of(metadata.skip(1), key)
    }
}

/// The size that a metadata key holds.
pub open spec fn size_of_key(metadata: Seq<(String, GgufValue)>, key: Seq<char>) -> Option<int> {
    match value_of(metadata, key) {
        Some(value) => match value.number() {
            Some(v) => Some(wrapped(v)),
            None => None,
        },
        None => None,
    }
}

/// Whether an error says that a key holds no size: that it is missing, or that
/// its value is not an integer.
pub open spec fn no_size(
    error: GgufError,
    metadata: Seq<(String, GgufValue)>,
    key: Seq<char>,
) -> bool {
    match error {
        GgufError::MissingKey { key: k } => k@ == key && value_of(metadata, key) is None,
        GgufError::NotAnInteger { key: k } => k@ == key && value_of(metadata, key) is Some,
        _ => false,
    }
}

/// The tensor of a name.
pub open spec fn tensor_of(tensors: Seq<HeaderTensor>, name: Seq<char>) -> Option<HeaderTensor>
    decreases tensors.len(),
{
    if tensors.len() == 0 {
        None
    } else if tensors[0].name@ == name {
        Some(tensors[0])
    } else {
        tensor_of(tensors.skip(1), name)
    }
}

/// A tensor that is found by its name has it, and is one of the tensors.
pub proof fn lemma_tensor_of(tensors: Seq<HeaderTensor>, name: Seq<char>)
    ensures
        tensor_of(tensors, name) matches Some(t) ==> t.name@ == name && tensors.contains(t),
    decreases tensors.len(),
{
    if tensors.len() > 0 {
        if tensors[0].name@ == name {
            assert(tensors.contains(tensors[0]));
        } else {
            let rest = tensors.skip(1);
            lemma_tensor_of(rest, name);
            if let Some(t) = tensor_of(rest, name) {
                let i = choose|i: int| 0 <= i < rest.len() && rest[i] == t;
                assert(tensors[i + 1] == t);
            }
        }
    }
}

/// The bytes of one expert's matrix in a file.
#[derive(Debug, Clone, Copy, PartialEq, Eq)]
pub struct ExpertRange {
    pub dtype: GgmlType,
    pub rows: usize,
    pub columns: usize,
    /// Where the bytes start, counted from the start of the file.
    pub start: u64,
    pub bytes: usize,
}

/// The number of bytes of one expert's matrix.
pub open spec fn expert_bytes(tensor: HeaderTensor) -> nat {
    tensor.shape@[1] as nat * (tensor.shape@[2] as nat / tensor.dtype.block_elements())
        * tensor.dtype.block_bytes()
}

/// A sum of places, held at the largest place.
pub open spec fn place(a: int, b: int) -> int {
    if a + b > u64::MAX {
        u64::MAX as int
    } else {
        a + b
    }
}

/// Whether an expert's matrix in a tensor has an exact place.
pub open spec fn expert_fits(tensor: HeaderTensor, expert: int) -> bool {
    &&& tensor.shape@[1] as nat * (tensor.shape@[2] as nat / tensor.dtype.block_elements())
        <= usize::MAX
    &&& expert_bytes(tensor) <= usize::MAX
    &&& expert * expert_bytes(tensor) <= usize::MAX
}

/// Whether a range is that of an expert's matrix in a tensor.
pub open spec fn is_expert_range(
    range: ExpertRange,
    tensor: HeaderTensor,
    data: u64,
    expert: int,
) -> bool {
    &&& range.dtype == tensor.dtype
    &&& range.rows == tensor.shape@[1]
    &&& range.columns == tensor.shape@[2]
    &&& range.bytes == expert_bytes(tensor)
    &&& range.start == place(
        place(data as int, tensor.offset as int),
        expert * expert_bytes(tensor),
    )
}

/// What a file's header says, and where its data section starts.
#[derive(Debug, Clone)]
pub struct GgufCheckpoint {
    pub metadata: Vec<(String, GgufValue)>,
    pub tensors: Vec<HeaderTensor>,
    pub tensor_data_offset: u64,
}

/// The type names of tensors.
pub open spec fn labels(tensors: Seq<HeaderTensor>) -> Seq<Seq<char>> {
    Seq::new(tensors.len(), |i: int| tensors[i].dtype.label())
}

/// The names of tensors.
pub open spec fn tensor_names(tensors: Seq<HeaderTensor>) -> Seq<Seq<char>> {
    Seq::new(tensors.len(), |i: int| tensors[i].name@)
}

impl GgufCheckpoint {
    /// One tensor of the header, as it is in the file.
    fn describe(&self, tensor: &HeaderTensor) -> (info: GgufTensorInfo)
        requires
            tensor.fits(self.tensor_data_offset),
        ensures
            info.describes(*tensor, self.tensor_data_offset),
    {
        let blocks: usize = element_count(&tensor.shape) / block_size(tensor.dtype);
        GgufTensorInfo {
            name: tensor.name.clone(),
            dtype: tensor.dtype.name(),
            shape: crate::buffers::copied(tensor.shape.as_slice()),
            offset: self.tensor_data_offset + tensor.offset,
            storage_bytes: blocks * type_size(tensor.dtype),
        }
    }

    /// The tensor of a name, as it is in the file.
    pub fn tensor_info(&self, name: &str) -> (info: Option<GgufTensorInfo>)
        requires
            forall|i: int|
                0 <= i < self.tensors@.len() ==> (#[trigger] self.tensors@[i]).fits(
                    self.tensor_data_offset,
                ),
        ensures
            match info {
                Some(info) => tensor_of(self.tensors@, name@) matches Some(t) && info.describes(
                    t,
                    self.tensor_data_offset,
                ),
                None => tensor_of(self.tensors@, name@) is None,
            },
    {
        match self.tensor(name) {
            Some(tensor) => {
                proof {
                    lemma_tensor_of(self.tensors@, name@);
                }
                Some(self.describe(tensor))
            },
            None => None,
        }
    }

    /// Every tensor of the file, in the order of names.
    pub fn tensor_infos(&self) -> (infos: Vec<GgufTensorInfo>)
        requires
            forall|i: int|
                0 <= i < self.tensors@.len() ==> (#[trigger] self.tensors@[i]).fits(
                    self.tensor_data_offset,
                ),
        ensures
            exists|order: Seq<usize>|
                {
                    &&& #[trigger] arranges(order, self.tensors@.len())
                    &&& text_ordered(order, tensor_names(self.tensors@))
                    &&& infos@.len() == self.tensors@.len()
                    &&& forall|i: int|
                        0 <= i < infos@.len() ==> (#[trigger] infos@[i]).describes(
                            self.tensors@[order[i] as int],
                            self.tensor_data_offset,
                        )
                },
    {
        let mut names: Vec<String> = Vec::new();
        let mut i: usize = 0;
        while i < self.tensors.len()
            invariant
                i <= self.tensors@.len(),
                names@.len() == i,
                forall|j: int| 0 <= j < i ==> (#[trigger] names@[j])@ == self.tensors@[j].name@,
            decreases self.tensors@.len() - i,
        {
            names.push(self.tensors[i].name.clone());
            i += 1;
        }
        let order = order_by_text(&names);
        proof {
            assert(texts(names@) =~= tensor_names(self.tensors@));
        }
        let mut infos: Vec<GgufTensorInfo> = Vec::new();
        let mut k: usize = 0;
        while k < order.len()
            invariant
                forall|i: int|
                    0 <= i < self.tensors@.len() ==> (#[trigger] self.tensors@[i]).fits(
                        self.tensor_data_offset,
                    ),
                arranges(order@, self.tensors@.len()),
                k <= order@.len(),
                infos@.len() == k,
                forall|i: int|
                    0 <= i < k ==> (#[trigger] infos@[i]).describes(
                        self.tensors@[order@[i] as int],
                        self.tensor_data_offset,
                    ),
            decreases order@.len() - k,
        {
            let tensor = &self.tensors[order[k]];
            assert(tensor.fits(self.tensor_data_offset));
            let info = self.describe(tensor);
            infos.push(info);
            k += 1;
        }
        proof {
            assert(arranges(order@, self.tensors@.len()));
        }
        infos
    }

    /// The tensor of a name.
    pub fn tensor(&self, name: &str) -> (tensor: Option<&HeaderTensor>)
        ensures
            match tensor {
                Some(t) => tensor_of(self.tensors@, name@) == Some(*t),
                None => tensor_of(self.tensors@, name@) is None,
            },
    {
        let mut i: usize = 0;
        proof {
            assert(self.tensors@.skip(0) =~= self.tensors@);
        }
        while i < self.tensors.len()
            invariant
                i <= self.tensors@.len(),
                tensor_of(self.tensors@, name@) == tensor_of(self.tensors@.skip(i as int), name@),
            decreases self.tensors@.len() - i,
        {
            proof {
                assert(self.tensors@.skip(i as int)[0] == self.tensors@[i as int]);
                assert(self.tensors@.skip(i as int).skip(1) =~= self.tensors@.skip(i + 1));
            }
            if same_text(self.tensors[i].name.as_str(), name) {
                return Some(&self.tensors[i]);
            }
            i += 1;
        }
        None
    }

    /// The value of a metadata key.
    pub fn value(&self, key: &str) -> (value: Option<&GgufValue>)
        ensures
            match value {
                Some(v) => value_of(self.metadata@, key@) == Some(*v),
                None => value_of(self.metadata@, key@) is None,
            },
    {
        let mut i: usize = 0;
        proof {
            assert(self.metadata@.skip(0) =~= self.metadata@);
        }
        while i < self.metadata.len()
            invariant
                i <= self.metadata@.len(),
                value_of(self.metadata@, key@) == value_of(self.metadata@.skip(i as int), key@),
            decreases self.metadata@.len() - i,
        {
            proof {
                assert(self.metadata@.skip(i as int)[0] == self.metadata@[i as int]);
                assert(self.metadata@.skip(i as int).skip(1) =~= self.metadata@.skip(i + 1));
            }
            if same_text(self.metadata[i].0.as_str(), key) {
                return Some(&self.metadata[i].1);
            }
            i += 1;
        }
        None
    }

    /// The size that a metadata key holds.
    pub fn get_usize(&self, key: &str) -> (size: Result<usize, GgufError>)
        ensures
            match size {
                Ok(size) => size_of_key(self.metadata@, key@) == Some(size as int),
                Err(error) => size_of_key(self.metadata@, key@) is None && no_size(
                    error,
                    self.metadata@,
                    key@,
                ),
            },
    {
        match self.value(key) {
            None => Err(GgufError::MissingKey { key: key.to_owned() }),
            Some(value) => match integer(value) {
                Some(size) => Ok(size),
                None => Err(GgufError::NotAnInteger { key: key.to_owned() }),
            },
        }
    }

    /// The tensor of a name, which must be a matrix.
    pub fn load_matrix(&self, name: &str) -> (tensor: Result<&HeaderTensor, GgufError>)
        ensures
            match tensor {
                Ok(t) => tensor_of(self.tensors@, name@) == Some(*t) && t.shape@.len() == 2,
                Err(GgufError::MissingTensor { name: n }) => n@ == name@ && tensor_of(
                    self.tensors@,
                    name@,
                ) is None,
                Err(GgufError::NotAMatrix { name: n, shape }) => {
                    &&& n@ == name@
                    &&& tensor_of(self.tensors@, name@) matches Some(t)
                    &&& shape@ == t.shape@
                    &&& t.shape@.len() != 2
                },
                Err(_) => false,
            },
    {
        match self.tensor(name) {
            None => Err(GgufError::MissingTensor { name: name.to_owned() }),
            Some(t) => {
                if t.shape.len() != 2 {
                    return Err(
                        GgufError::NotAMatrix {
                            name: name.to_owned(),
                            shape: crate::buffers::copied(t.shape.as_slice()),
                        },
                    );
                }
                Ok(t)
            },
        }
    }

    /// The bytes of one matrix of a tensor shaped `[experts, rows, columns]`.
    pub fn load_expert_matrix(&self, name: &str, expert: usize) -> (range: Result<
        ExpertRange,
        GgufError,
    >)
        ensures
            match range {
                Ok(range) => {
                    &&& tensor_of(self.tensors@, name@) matches Some(t)
                    &&& t.shape@.len() == 3
                    &&& expert < t.shape@[0]
                    &&& t.shape@[2] as nat % t.dtype.block_elements() == 0
                    &&& expert_fits(t, expert as int)
                    &&& is_expert_range(range, t, self.tensor_data_offset, expert as int)
                },
                Err(GgufError::MissingTensor { name: n }) => n@ == name@ && tensor_of(
                    self.tensors@,
                    name@,
                ) is None,
                Err(GgufError::NotExperts { name: n, shape }) => {
                    &&& n@ == name@
                    &&& tensor_of(self.tensors@, name@) matches Some(t)
                    &&& shape@ == t.shape@
                    &&& t.shape@.len() != 3
                },
                Err(GgufError::NoSuchExpert { name: n, expert: e, experts }) => {
                    &&& n@ == name@
                    &&& e == expert
                    &&& tensor_of(self.tensors@, name@) matches Some(t)
                    &&& t.shape@.len() == 3
                    &&& experts == t.shape@[0]
                    &&& expert >= experts
                },
                Err(GgufError::SplitBlock { name: n, columns, dtype }) => {
                    &&& n@ == name@
                    &&& tensor_of(self.tensors@, name@) matches Some(t)
                    &&& t.shape@.len() == 3
                    &&& expert < t.shape@[0]
                    &&& columns == t.shape@[2]
                    &&& dtype == t.dtype
                    &&& t.shape@[2] as nat % t.dtype.block_elements() != 0
                },
                Err(GgufError::TooLarge { name: n }) => {
                    &&& n@ == name@
                    &&& tensor_of(self.tensors@, name@) matches Some(t)
                    &&& t.shape@.len() == 3
                    &&& expert < t.shape@[0]
                    &&& t.shape@[2] as nat % t.dtype.block_elements() == 0
                    &&& !expert_fits(t, expert as int)
                },
                Err(_) => false,
            },
    {
        let tensor = match self.tensor(name) {
            None => {
                return Err(GgufError::MissingTensor { name: name.to_owned() });
            },
            Some(t) => t,
        };
        if tensor.shape.len() != 3 {
            return Err(
                GgufError::NotExperts {
                    name: name.to_owned(),
                    shape: crate::buffers::copied(tensor.shape.as_slice()),
                },
            );
        }
        let experts: usize = tensor.shape[0];
        if expert >= experts {
            return Err(GgufError::NoSuchExpert { name: name.to_owned(), expert, experts });
        }
        let rows: usize = tensor.shape[1];
        let columns: usize = tensor.shape[2];
        let block: usize = block_size(tensor.dtype);
        if columns % block != 0 {
            return Err(
                GgufError::SplitBlock { name: name.to_owned(), columns, dtype: tensor.dtype },
            );
        }
        let blocks: usize = match rows.checked_mul(columns / block) {
            Some(blocks) => blocks,
            None => {
                return Err(GgufError::TooLarge { name: name.to_owned() });
            },
        };
        let bytes: usize = match blocks.checked_mul(type_size(tensor.dtype)) {
            Some(bytes) => bytes,
            None => {
                return Err(GgufError::TooLarge { name: name.to_owned() });
            },
        };
        let offset: usize = match expert.checked_mul(bytes) {
            Some(offset) => offset,
            None => {
                return Err(GgufError::TooLarge { name: name.to_owned() });
            },
        };
        let start: u64 = self.tensor_data_offset.saturating_add(tensor.offset).saturating_add(
            offset as u64,
        );
        Ok(ExpertRange { dtype: tensor.dtype, rows, columns, start, bytes })
    }

    /// What the file holds, at a glance.
    pub fn inspect_gguf(&self) -> (summary: Result<GgufSummary, GgufError>)
        ensures
            is_summary(summary, self.metadata@, self.tensors@),
    {
        let architecture = match self.value("general.architecture") {
            Some(GgufValue::Text(text)) => text.clone(),
            _ => {
                return Err(GgufError::InvalidArchitecture);
            },
        };
        if !same_text(architecture.as_str(), "qwen3next") {
            return Err(GgufError::UnsupportedArchitecture { architecture });
        }
        let layers: usize = match self.get_usize("qwen3next.block_count") {
            Ok(size) => size,
            Err(error) => {
                return Err(error);
            },
        };
        let interval: usize = match self.get_usize("qwen3next.full_attention_interval") {
            Ok(size) => size,
            Err(error) => {
                return Err(error);
            },
        };
        if interval == 0 {
            return Err(GgufError::ZeroInterval);
        }
        let full_attention_layers: usize = layers / interval;
        proof {
            assert(full_attention_layers <= layers) by (nonlinear_arith)
                requires
                    full_attention_layers == layers as int / interval as int,
                    interval > 0,
            ;
        }
        let vocab_size: usize = match self.value("tokenizer.ggml.tokens") {
            Some(GgufValue::Array(len)) => *len,
            _ => {
                return Err(GgufError::InvalidTokens);
            },
        };
        let hidden_size: usize = match self.get_usize("qwen3next.embedding_length") {
            Ok(size) => size,
            Err(error) => {
                return Err(error);
            },
        };
        let experts_per_layer: usize = match self.get_usize("qwen3next.expert_count") {
            Ok(size) => size,
            Err(error) => {
                return Err(error);
            },
        };
        let experts_selected: usize = match self.get_usize("qwen3next.expert_used_count") {
            Ok(size) => size,
            Err(error) => {
                return Err(error);
            },
        };
        let mut names: Vec<String> = Vec::new();
        let mut i: usize = 0;
        while i < self.tensors.len()
            invariant
                i <= self.tensors@.len(),
                names@.len() == i,
                forall|j: int|
                    0 <= j < i ==> (#[trigger] names@[j])@ == self.tensors@[j].dtype.label(),
            decreases self.tensors@.len() - i,
        {
            names.push(self.tensors[i].dtype.name());
            i += 1;
        }
        proof {
            assert(texts(names@) =~= labels(self.tensors@));
        }
        Ok(
            GgufSummary {
                architecture,
                layers,
                hidden_size,
                experts_per_layer,
                experts_selected,
                vocab_size,
                full_attention_layers,
                linear_attention_layers: layers - full_attention_layers,
                tensor_count: self.tensors.len(),
                dtypes: sorted_unique(&names),
                format: "gguf".to_owned(),
            },
        )
    }
}

/// Whether a result is the summary of a header, or the first reason why there
/// is none.
pub open spec fn is_summary(
    result: Result<GgufSummary, GgufError>,
    metadata: Seq<(String, GgufValue)>,
    tensors: Seq<HeaderTensor>,
) -> bool {
    let layers = size_of_key(metadata, "qwen3next.block_count"@);
    let interval = size_of_key(metadata, "qwen3next.full_attention_interval"@);
    let tokens = value_of(metadata, "tokenizer.ggml.tokens"@);
    let hidden = size_of_key(metadata, "qwen3next.embedding_length"@);
    let experts = size_of_key(metadata, "qwen3next.expert_count"@);
    let selected = size_of_key(metadata, "qwen3next.expert_used_count"@);
    match value_of(metadata, "general.architecture"@) {
        Some(GgufValue::Text(text)) => if text@ != "qwen3next"@ {
            result matches Err(GgufError::UnsupportedArchitecture { architecture })
                && architecture@ == text@
        } else if layers is None {
            result matches Err(error) && no_size(error, metadata, "qwen3next.block_count"@)
        } else if interval is None {
            result matches Err(error) && no_size(
                error,
                metadata,
                "qwen3next.full_attention_interval"@,
            )
        } else if interval == Some(0int) {
            result == Err::<GgufSummary, GgufError>(GgufError::ZeroInterval)
        } else if !(tokens matches Some(GgufValue::Array(_))) {
            result == Err::<GgufSummary, GgufError>(GgufError::InvalidTokens)
        } else if hidden is None {
            result matches Err(error) && no_size(error, metadata, "qwen3next.embedding_length"@)
        } else if experts is None {
            result matches Err(error) && no_size(error, metadata, "qwen3next.expert_count"@)
        } else if selected is None {
            result matches Err(error) && no_size(error, metadata, "qwen3next.expert_used_count"@)
        } else {
            &&& result matches Ok(summary)
            &&& summary.architecture@ == "qwen3next"@
            &&& Some(summary.layers as int) == layers
            &&& Some(summary.hidden_size as int) == hidden
            &&& Some(summary.experts_per_layer as int) == experts
            &&& Some(summary.experts_selected as int) == selected
            &&& tokens == Some(GgufValue::Array(summary.vocab_size))
            &&& summary.full_attention_layers == layers->0 / interval->0
            &&& summary.linear_attention_layers == layers->0 - summary.full_attention_layers
            &&& summary.tensor_count == tensors.len()
            &&& strictly_ordered(texts(summary.dtypes@))
            &&& forall|t: Seq<char>| #[trigger]
                texts(summary.dtypes@).contains(t) <==> labels(tensors).contains(t)
            &&& summary.format@ == "gguf"@
        },
        _ => result == Err::<GgufSummary, GgufError>(GgufError::InvalidArchitecture),
    }
}

/// The matrices of a fused tensor's experts lie one after the other, without a
/// gap, and together they are the tensor's data.
pub proof fn experts_tile_their_tensor(
    tensor: HeaderTensor,
    data: u64,
    expert: int,
    range: ExpertRange,
    next: ExpertRange,
)
    requires
        tensor.shape@.len() == 3,
        tensor.shape@[2] as nat % tensor.dtype.block_elements() == 0,
        0 <= expert < tensor.shape@[0],
        is_expert_range(range, tensor, data, expert),
        is_expert_range(next, tensor, data, expert + 1),
        data + tensor.offset + tensor.data_bytes() <= u64::MAX,
    ensures
        expert == 0 ==> range.start == data + tensor.offset,
        range.start + range.bytes == next.start,
        expert + 1 == tensor.shape@[0] ==> range.start + range.bytes == data + tensor.offset
            + tensor.data_bytes(),
{
    let s = tensor.shape@;
    let e = s[0] as int;
    let r = s[1] as int;
    let c = s[2] as int;
    let b = tensor.dtype.block_elements() as int;
    let t = tensor.dtype.block_bytes() as int;
    assert(s.drop_last().drop_last().drop_last() =~= Seq::<usize>::empty());
    reveal_with_fuel(elements, 4);
    assert(elements(s) == 1 * e * r * c) by {
        assert(s.drop_last().last() == s[1]);
        assert(s.drop_last().drop_last().last() == s[0]);
    }
    let w = c / b;
    vstd::arithmetic::div_mod::lemma_fundamental_div_mod(c, b);
    assert(1 * e * r * c == (e * r * w) * b) by (nonlinear_arith)
        requires
            c == b * w,
    ;
    vstd::arithmetic::div_mod::lemma_div_multiples_vanish(e * r * w, b);
    assert((e * r * w) * b / b == e * r * w) by {
        assert((e * r * w) * b == b * (e * r * w)) by (nonlinear_arith);
    }
    let one = r * w * t;
    assert(expert_bytes(tensor) == one);
    assert(tensor.data_bytes() == e * one) by (nonlinear_arith)
        requires
            tensor.data_bytes() == e * r * w * t,
            one == r * w * t,
    ;
    assert(one >= 0) by (nonlinear_arith)
        requires
            one == r * w * t,
            r >= 0,
            w >= 0,
            t >= 0,
    ;
    assert(0 <= expert * one && expert * one + one == (expert + 1) * one && (expert + 1) * one <= e
        * one) by (nonlinear_arith)
        requires
            0 <= expert < e,
            one >= 0,
    ;
    assert(expert == 0 ==> expert * one == 0) by (nonlinear_arith);
}

/// What is known of an executable matrix: its type, its shape and the size of
/// its compressed data.
#[derive(Debug, Clone, Copy, PartialEq, Eq)]
pub struct QuantizedMatrix {
    dtype: GgmlType,
    rows: usize,
    columns: usize,
    storage_bytes: usize,
}

/// Why an input cannot be multiplied with a matrix.
#[derive(Debug, Clone, Copy, PartialEq, Eq, Structural)]
pub enum InputError {
    /// The input has fewer than two dimensions.
    Rank,
    /// The last dimension of the input is not the width of the matrix.
    Width { found: usize, expected: usize },
}

impl QuantizedMatrix {
    /// The type of the elements.
    pub closed spec fn element_type(&self) -> GgmlType {
        self.dtype
    }

    /// Rows and columns.
    pub closed spec fn dims(&self) -> (usize, usize) {
        (self.rows, self.columns)
    }

    /// The size of the compressed data.
    pub closed spec fn size(&self) -> usize {
        self.storage_bytes
    }

    /// A matrix, if its type can be executed and it has two dimensions.
    pub fn new(dtype: GgmlType, shape: &Vec<usize>, storage_bytes: usize) -> (matrix: Result<
        QuantizedMatrix,
        GgufError,
    >)
        ensures
            match matrix {
                Ok(matrix) => {
                    &&& dtype.executable()
                    &&& shape@.len() == 2
                    &&& matrix.element_type() == dtype
                    &&& matrix.dims() == (shape@[0], shape@[1])
                    &&& matrix.size() == storage_bytes
                },
                Err(GgufError::UnsupportedType { dtype: d }) => d == dtype && !dtype.executable(),
                Err(GgufError::NotTwoDimensional { shape: s }) => dtype.executable() && shape@.len()
                    != 2 && s@ == shape@,
                Err(_) => false,
            },
    {
        if !dtype.is_executable() {
            return Err(GgufError::UnsupportedType { dtype });
        }
        if shape.len() != 2 {
            return Err(
                GgufError::NotTwoDimensional { shape: crate::buffers::copied(shape.as_slice()) },
            );
        }
        Ok(QuantizedMatrix { dtype, rows: shape[0], columns: shape[1], storage_bytes })
    }

    /// The name of the type of the elements.
    pub fn dtype(&self) -> (name: String)
        ensures
            name@ == self.element_type().label(),
    {
        self.dtype.name()
    }

    /// Rows and columns.
    pub fn shape(&self) -> (shape: [usize; 2])
        ensures
            shape@ == seq![self.dims().0, self.dims().1],
    {
        [self.rows, self.columns]
    }

    /// The size of the compressed data.
    pub fn storage_bytes(&self) -> (bytes: usize)
        ensures
            bytes == self.size(),
    {
        self.storage_bytes
    }

    /// Accepts the shape of an input that the matrix can be multiplied with:
    /// two dimensions or more, the last one the width of the matrix.
    pub fn check_input(&self, shape: &Vec<usize>) -> (result: Result<(), InputError>)
        ensures
            result == if shape@.len() < 2 {
                Err::<(), InputError>(InputError::Rank)
            } else if shape@.last() != self.dims().1 {
                Err::<(), InputError>(
                    InputError::Width { found: shape@.last(), expected: self.dims().1 },
                )
            } else {
                Ok::<(), InputError>(())
            },
    {
        if shape.len() < 2 {
            return Err(InputError::Rank);
        }
        let found: usize = shape[shape.len() - 1];
        if found != self.columns {
            return Err(InputError::Width { found, expected: self.columns });
        }
        Ok(())
    }
}

} // verus!
