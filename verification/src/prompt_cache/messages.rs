//! What is said of an entry that cannot be used.

use crate::prompt_cache::format::{EntryError, EntryProblem, FORMAT};
use crate::text::{decimal, decimal_text};
use vstd::prelude::*;

verus! {

impl EntryProblem {
    /// What is wrong with the file at `path` for a checkpoint of the given
    /// fingerprint, in words.
    pub open spec fn text(self, path: Seq<char>, fingerprint: Seq<char>) -> Seq<char> {
        match self {
            EntryProblem::Unreadable => path + " is not a readable entry"@,
            EntryProblem::NoMetadata => path + " carries no metadata"@,
            EntryProblem::MissingMetadata { key } => path + " has no `"@ + key + "` metadata"@,
            EntryProblem::WrongFormat { found } => path + " was written in format `"@ + found
                + "`, this build reads `"@ + FORMAT@ + "`"@,
            EntryProblem::WrongCheckpoint { found } => path + " belongs to checkpoint "@ + found
                + ", not "@ + fingerprint,
            EntryProblem::UnreadableNumber { key } => path + " has an unreadable "@ + key,
            EntryProblem::LayerCount { stored, model } => path + " holds "@ + decimal(stored)
                + " layers, the model has "@ + decimal(model),
            EntryProblem::MissingTensor { name } => path + " is missing `"@ + name + "`"@,
            EntryProblem::WrongType { name } => path + " stores `"@ + name
                + "` with another element type"@,
            EntryProblem::PartialElement { name } => path + " stores `"@ + name
                + "` with a partial element"@,
            EntryProblem::TokenCount { tokens, position } => path + " holds "@ + decimal(tokens)
                + " tokens for position "@ + decimal(position),
            EntryProblem::LayerWidth { layer, keys, values, expected } => path + " layer "@
                + decimal(layer) + " holds "@ + decimal(keys) + "/"@ + decimal(values)
                + " key/value elements, this model needs "@ + decimal(expected),
            EntryProblem::MtpWidth { keys, values, expected } => path + " holds "@ + decimal(keys)
                + "/"@ + decimal(values) + " MTP key/value elements, this model needs "@ + decimal(expected),
            EntryProblem::Inconsistent(_) => path + " holds inconsistent state"@,
        }
    }
}

impl EntryError {
    /// What is wrong with the file at `path` for a checkpoint of the given
    /// fingerprint, in words.
    pub fn message(&self, path: &str, fingerprint: &str) -> (text: String)
        ensures
            text@ == self@.text(path@, fingerprint@),
    {
        let mut text = path.to_owned();
        match self {
            EntryError::Unreadable(_) => {
                text.append(" is not a readable entry");
            },
            EntryError::NoMetadata => {
                text.append(" carries no metadata");
            },
            EntryError::MissingMetadata { key } => {
                text.append(" has no `");
                text.append(key.as_str());
                text.append("` metadata");
            },
            EntryError::WrongFormat { found } => {
                text.append(" was written in format `");
                text.append(found.as_str());
                text.append("`, this build reads `");
                text.append(FORMAT);
                text.append("`");
            },
            EntryError::WrongCheckpoint { found } => {
                text.append(" belongs to checkpoint ");
                text.append(found.as_str());
                text.append(", not ");
                text.append(fingerprint);
            },
            EntryError::UnreadableNumber { key } => {
                text.append(" has an unreadable ");
                text.append(key.as_str());
            },
            EntryError::LayerCount { stored, model } => {
                text.append(" holds ");
                text.append(decimal_text(*stored).as_str());
                text.append(" layers, the model has ");
                text.append(decimal_text(*model).as_str());
            },
            EntryError::MissingTensor { name } => {
                text.append(" is missing `");
                text.append(name.as_str());
                text.append("`");
            },
            EntryError::WrongType { name } => {
                text.append(" stores `");
                text.append(name.as_str());
                text.append("` with another element type");
            },
            EntryError::PartialElement { name } => {
                text.append(" stores `");
                text.append(name.as_str());
                text.append("` with a partial element");
            },
            EntryError::TokenCount { tokens, position } => {
                text.append(" holds ");
                text.append(decimal_text(*tokens).as_str());
                text.append(" tokens for position ");
                text.append(decimal_text(*position).as_str());
            },
            EntryError::LayerWidth { layer, keys, values, expected } => {
                text.append(" layer ");
                text.append(decimal_text(*layer).as_str());
                text.append(" holds ");
                text.append(decimal_text(*keys).as_str());
                text.append("/");
                text.append(decimal_text(*values).as_str());
                text.append(" key/value elements, this model needs ");
                text.append(decimal_text(*expected).as_str());
            },
            EntryError::MtpWidth { keys, values, expected } => {
                text.append(" holds ");
                text.append(decimal_text(*keys).as_str());
                text.append("/");
                text.append(decimal_text(*values).as_str());
                text.append(" MTP key/value elements, this model needs ");
                text.append(decimal_text(*expected).as_str());
            },
            EntryError::Inconsistent(_) => {
                text.append(" holds inconsistent state");
            },
        }
        text
    }
}

} // verus!
