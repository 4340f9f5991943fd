//! Platform queries on systems without a native pasteboard integration:
//! there is no change counter, no copied file list and no frontmost application.
use vstd::prelude::*;

verus! {

/// The pasteboard change counter; always 0 here.
pub fn clipboard_change_count() -> (c: isize)
    ensures
        c == 0,
{
    0
}

/// The file paths on the pasteboard; always none here.
pub fn read_clipboard_file_paths() -> (paths: Vec<String>)
    ensures
        paths@.len() == 0,
{
    Vec::new()
}

/// The application the copy came from; unknown here.
pub fn get_frontmost_app() -> (app: Option<String>)
    ensures
        app is None,
{
    None
}

/// The Core ML inference backend, as the session manager names it.
pub struct CoreMLBackend;

impl CoreMLBackend {
    /// The backend's name.
    pub fn name(&self) -> (n: &'static str)
        ensures
            n@ == "CoreML"@,
    {
        "CoreML"
    }
}

} // verus!
