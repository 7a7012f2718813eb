//! What stands in an entry file and under which name, when such a file is read,
//! and what a directory of them is taken for.

use crate::prompt_cache::format::{
    archive_metadata, archive_tensors, bytes_of, entry_image, entry_tokens, image_metadata,
    image_rows, stored_layers, ElementType, EntryProblem, LayerKind,
};
use crate::prompt_cache::index::{scanned, FileView, FoundView};
use crate::prompt_cache::keys::{extension_of, named_key, EntryKey};
use crate::qwen::model_state::{ImageView, LayerView};
use crate::sums::sum_to;
use crate::text::decimal;
use vstd::prelude::*;

verus! {

/// A word is stored as four bytes, the lowest first.
pub proof fn words_are_stored_lowest_byte_first(words: Seq<u32>, k: int)
    requires
        0 <= k < words.len(),
    ensures
        bytes_of(words).len() == words.len() * 4,
        words[k] == bytes_of(words)[4 * k] + 256 * bytes_of(words)[4 * k + 1] + 65536 * bytes_of(
            words,
        )[4 * k + 2] + 16777216 * bytes_of(words)[4 * k + 3],
{
    let w = words[k] as int;
    assert((4 * k) / 4 == k && (4 * k + 1) / 4 == k && (4 * k + 2) / 4 == k && (4 * k + 3) / 4 == k);
    assert((4 * k) % 4 == 0 && (4 * k + 1) % 4 == 1 && (4 * k + 2) % 4 == 2 && (4 * k + 3) % 4
        == 3);
    assert(w == w % 256 + 256 * (w / 256 % 256) + 65536 * (w / 65536 % 256) + 16777216 * (w
        / 16777216));
}

/// An entry holds the tokens first, then for every layer its two tensors under
/// its number: keys and values, or the convolution's history and the recurrent
/// state.
pub proof fn a_layer_is_stored_under_its_number(image: ImageView<u32>, layer: int)
    requires
        0 <= layer < image.model.layers.len(),
    ensures
        image_rows(image).len() > 2 + 2 * layer,
        image_rows(image)[0] == ("tokens"@, (Some(ElementType::U32), bytes_of(image.tokens))),
        match image.model.layers[layer] {
            LayerView::Full(c) => {
                &&& image_rows(image)[1 + 2 * layer] == (
                    "layer."@ + decimal(layer as nat) + "."@ + "keys"@,
                    (Some(ElementType::F32), bytes_of(c.keys)),
                )
                &&& image_rows(image)[2 + 2 * layer] == (
                    "layer."@ + decimal(layer as nat) + "."@ + "values"@,
                    (Some(ElementType::F32), bytes_of(c.values)),
                )
            },
            LayerView::Linear(r) => {
                &&& image_rows(image)[1 + 2 * layer] == (
                    "layer."@ + decimal(layer as nat) + "."@ + "conv"@,
                    (Some(ElementType::F32), bytes_of(r.conv)),
                )
                &&& image_rows(image)[2 + 2 * layer] == (
                    "layer."@ + decimal(layer as nat) + "."@ + "recurrent"@,
                    (Some(ElementType::F32), bytes_of(r.recurrent)),
                )
            },
        },
{
    assert((1 + 2 * layer - 1) / 2 == layer && (2 + 2 * layer - 1) / 2 == layer);
    assert((1 + 2 * layer - 1) % 2 == 0 && (2 + 2 * layer - 1) % 2 == 1);
}

/// Behind the layers stand the predictor's keys and values, and the hidden row
/// that it starts from, where there are any.
pub proof fn what_drafting_needs_is_stored_last(image: ImageView<u32>)
    ensures
        ({
            let rows = image_rows(image);
            let first: int = 1 + 2 * image.model.layers.len() as int;
            let drafts = if image.mtp is Some {
                2int
            } else {
                0int
            };
            &&& image.mtp is Some ==> rows[first] == (
                "mtp.keys"@,
                (Some(ElementType::F32), bytes_of(image.mtp->0.keys)),
            )
            &&& image.mtp is Some ==> rows[first + 1] == (
                "mtp.values"@,
                (Some(ElementType::F32), bytes_of(image.mtp->0.values)),
            )
            &&& image.last_target_hidden is Some ==> rows[first + drafts] == (
                "last_hidden"@,
                (Some(ElementType::F32), bytes_of(image.last_target_hidden->0)),
            )
            &&& rows.len() == first + drafts + (if image.last_target_hidden is Some {
                1int
            } else {
                0int
            })
        }),
{
}

/// An entry says of itself which format it has, which checkpoint and which
/// quantization wrote it, how many tokens and layers it holds, and when it was
/// made.
pub proof fn an_entry_describes_itself(
    image: ImageView<u32>,
    fingerprint: Seq<char>,
    quantization: Seq<char>,
    created_unix: u64,
)
    ensures
        image_metadata(image, fingerprint, quantization, created_unix) == seq![
            ("inferq_format"@, "inferq-prompt-cache-1"@),
            ("model_fingerprint"@, fingerprint),
            ("quantization"@, quantization),
            ("position"@, decimal(image.model.position)),
            ("layer_count"@, decimal(image.model.layers.len())),
            ("created_unix"@, decimal(created_unix as nat)),
        ],
{
}

proof fn lemma_stored_len(
    tensors: Map<Seq<char>, (Option<ElementType>, Seq<u8>)>,
    kinds: Seq<LayerKind>,
    position: nat,
    n: int,
)
    requires
        0 <= n,
        stored_layers(tensors, kinds, position, n) is Ok,
    ensures
        stored_layers(tensors, kinds, position, n)->Ok_0.len() == n,
    decreases n,
{
    if n > 0 {
        lemma_stored_len(tensors, kinds, position, n - 1);
    }
}

/// An entry is read only where it has this format and was written by this very
/// checkpoint, and where it holds as many tokens as the position it claims.
pub proof fn only_entries_of_this_checkpoint_are_read(
    bytes: Seq<u8>,
    fingerprint: Seq<char>,
    kinds: Seq<LayerKind>,
)
    requires
        entry_image(bytes, fingerprint, kinds) is Ok,
    ensures
        archive_metadata(bytes) matches Some(Some(metadata)) && {
            &&& metadata.contains_key("inferq_format"@)
            &&& metadata["inferq_format"@] == "inferq-prompt-cache-1"@
            &&& metadata.contains_key("model_fingerprint"@)
            &&& metadata["model_fingerprint"@] == fingerprint
        },
        ({
            let image = entry_image(bytes, fingerprint, kinds)->Ok_0;
            &&& image.tokens.len() == image.model.position
            &&& image.model.layers.len() == kinds.len()
            &&& entry_tokens(bytes, fingerprint) == Ok::<_, EntryProblem>(image.tokens)
        }),
{
    let metadata = archive_metadata(bytes)->0->0;
    let tensors = archive_tensors(bytes)->0;
    lemma_stored_len(
        tensors,
        kinds,
        entry_image(bytes, fingerprint, kinds)->Ok_0.model.position,
        kinds.len() as int,
    );
}

/// Whether a found file is an entry file.
pub open spec fn is_entry_file(found: FoundView) -> bool {
    found.is_file && extension_of(found.name) == Some("inferq-prompt"@)
}

/// What a directory holds is taken file by file: an entry file whose name leads to
/// a key of this checkpoint is an entry under that key, any other entry file is
/// another's, and no other file counts at all. Together they take what they take.
pub proof fn a_directory_is_taken_file_by_file(
    files: Seq<FoundView>,
    n: int,
    fingerprint: Seq<char>,
    i: int,
)
    requires
        0 <= i < n <= files.len(),
        is_entry_file(files[i]),
    ensures
        match named_key(files[i].name, fingerprint) {
            Some(key) => scanned(files, n, fingerprint).entries.contains_key(key),
            None => scanned(files, n, fingerprint).foreign.contains(
                FileView { name: files[i].name, bytes: files[i].bytes, used: files[i].modified },
            ),
        },
    decreases n,
{
    let before = scanned(files, n - 1, fingerprint);
    let after = scanned(files, n, fingerprint);
    let own = FileView { name: files[i].name, bytes: files[i].bytes, used: files[i].modified };
    if i < n - 1 {
        a_directory_is_taken_file_by_file(files, n - 1, fingerprint, i);
        if named_key(files[i].name, fingerprint) is None {
            let k = choose|k: int| 0 <= k < before.foreign.len() && before.foreign[k] == own;
            assert(after.foreign[k] == own);
        }
    } else if named_key(files[i].name, fingerprint) is None {
        assert(after.foreign[after.foreign.len() - 1] == own);
    }
}

/// Every entry that a directory is taken to hold is a file of it, under the key
/// that its name leads to.
pub proof fn an_entry_is_a_file_of_its_name(
    files: Seq<FoundView>,
    n: int,
    fingerprint: Seq<char>,
    key: EntryKey,
)
    requires
        0 <= n <= files.len(),
        scanned(files, n, fingerprint).entries.contains_key(key),
    ensures
        exists|i: int|
            {
                &&& 0 <= i < n
                &&& is_entry_file(#[trigger] files[i])
                &&& named_key(files[i].name, fingerprint) == Some(key)
                &&& scanned(files, n, fingerprint).entries[key] == (FileView {
                    name: files[i].name,
                    bytes: files[i].bytes,
                    used: files[i].modified,
                })
            },
    decreases n,
{
    if n > 0 {
        let last = files[n - 1];
        if is_entry_file(last) && named_key(last.name, fingerprint) == Some(key) {
            assert(is_entry_file(files[n - 1]));
        } else {
            an_entry_is_a_file_of_its_name(files, n - 1, fingerprint, key);
            let i = choose|i: int|
                {
                    &&& 0 <= i < n - 1
                    &&& is_entry_file(#[trigger] files[i])
                    &&& named_key(files[i].name, fingerprint) == Some(key)
                    &&& scanned(files, n - 1, fingerprint).entries[key] == (FileView {
                        name: files[i].name,
                        bytes: files[i].bytes,
                        used: files[i].modified,
                    })
                };
            assert(is_entry_file(files[i]));
        }
    }
}

/// The entry files of a directory, whoever wrote them, count against the budget
/// with all their bytes.
pub proof fn every_entry_file_counts(files: Seq<FoundView>, n: int, fingerprint: Seq<char>)
    requires
        0 <= n <= files.len(),
        sum_to(
            |i: int|
                if is_entry_file(files[i]) {
                    files[i].bytes as int
                } else {
                    0
                },
            n,
        ) <= u64::MAX,
    ensures
        scanned(files, n, fingerprint).bytes == sum_to(
            |i: int|
                if is_entry_file(files[i]) {
                    files[i].bytes as int
                } else {
                    0
                },
            n,
        ),
    decreases n,
{
    let f = |i: int|
        if is_entry_file(files[i]) {
            files[i].bytes as int
        } else {
            0
        };
    if n > 0 {
        assert(f(n - 1) >= 0);
        every_entry_file_counts(files, n - 1, fingerprint);
    }
}

} // verus!
