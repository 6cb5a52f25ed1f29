//! The text exchanged with `fzf` when a lyric file is picked.
use vstd::prelude::*;

use crate::text::{joined, newline, join_with, trim, trimmed};

verus! {

/// The list handed to fzf on stdin: one file per line.
pub fn fzf_input(files: &Vec<String>) -> (res: String)
    ensures
        res@ == joined(files@.map_values(|f: String| f@), seq!['\n']),
{
    join_with(files, newline())
}

/// The file fzf picked: its output without surrounding whitespace when it
/// exited successfully, else nothing (the selection was cancelled).
pub fn fzf_selection(success: bool, output: &str) -> (res: String)
    ensures
        res@ == if success {
            trimmed(output@)
        } else {
            Seq::empty()
        },
{
    if success {
        trim(output)
    } else {
        String::new()
    }
}

} // verus!
