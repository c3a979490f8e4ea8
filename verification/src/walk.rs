//! The decision made for each directory entry while collecting score files.
use vstd::prelude::*;
use vstd::string::*;

verus! {

/// What the collector does with one entry of a directory.
#[derive(Clone, Copy, Debug, PartialEq, Eq, Structural)]
pub enum EntryAction {
    /// Read this subdirectory, whose entries lie at the given depth.
    Descend(usize),
    /// Take this entry as a score file.
    Collect,
    /// Leave this entry out.
    Skip,
}

/// Decides what to do with an entry found at `current_depth`: a directory is
/// searched while the depth stays below `max_depth`; otherwise an entry whose
/// extension is `json` is collected, and anything else is left out.
pub fn entry_action(is_dir: bool, current_depth: usize, max_depth: usize, extension: Option<&str>) -> (r: EntryAction)
    ensures
        r == (if is_dir && current_depth < max_depth {
            EntryAction::Descend((current_depth + 1) as usize)
        } else if extension matches Some(e) && e@ == "json"@ {
            EntryAction::Collect
        } else {
            EntryAction::Skip
        }),
{
    if is_dir && current_depth < max_depth {
        return EntryAction::Descend(current_depth + 1);
    }
    match extension {
        Some(e) => {
            let ext = String::from_str(e);
            let json = String::from_str("json");
            if ext == json {
                EntryAction::Collect
            } else {
                EntryAction::Skip
            }
        },
        None => EntryAction::Skip,
    }
}

} // verus!
