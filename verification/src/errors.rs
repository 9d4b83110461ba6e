//! Why a set of stats could not be produced.

use vstd::prelude::*;
use crate::text::{decimal, join, join_strings, push_decimal, strings_view};

verus! {

/// The failures that end a stats computation. None of them leaves a partial
/// report behind.
#[derive(Debug)]
pub enum StatsError {
    /// The seed store could not be read, written or cleaned.
    Storage(String),
    /// More seed generations failed than are tolerated. `failures` counts
    /// them all; `messages` holds those of the first ones, up to the limit.
    SeedGeneration { failures: usize, messages: Vec<String> },
    /// One key occurred more often than a count can hold.
    CountOverflow,
}

/// The text that reports `failures` failed generations of which `messages`
/// were kept: the number first, then the messages, one on each line.
pub open spec fn generation_text(failures: nat, messages: Seq<Seq<char>>) -> Seq<char> {
    decimal(failures) + " errors while generating seeds"@ + if messages.len() == 0 {
        Seq::empty()
    } else {
        ":\n"@ + join(messages, "\n"@)
    }
}

impl StatsError {
    /// The text of the error.
    pub open spec fn text(self) -> Seq<char> {
        match self {
            StatsError::Storage(message) => message@,
            StatsError::SeedGeneration { failures, messages } => generation_text(
                failures as nat,
                strings_view(messages@),
            ),
            StatsError::CountOverflow => "a key occurred more often than a count can hold"@,
        }
    }

    /// Describes the error in words: the message of the store, the number of
    /// failed generations with the messages that were kept, or the overflow.
    pub fn message(&self) -> (message: String)
        ensures
            message@ == self.text(),
    {
        match self {
            StatsError::Storage(message) => message.clone(),
            StatsError::SeedGeneration { failures, messages } => {
                let mut text = String::new();
                push_decimal(&mut text, *failures as u64);
                text.append(" errors while generating seeds");
                if messages.len() > 0 {
                    text.append(":\n");
                    let kept = join_strings(messages, "\n");
                    text.append(kept.as_str());
                }
                assert(text@ =~= self.text());
                text
            },
            StatsError::CountOverflow => String::from_str(
                "a key occurred more often than a count can hold",
            ),
        }
    }
}

} // verus!
