//! The failure kinds one capture invocation can end in. Each is terminal
//! for its invocation: the caller reports it and retries nothing.

use vstd::prelude::*;

verus! {

/// Which step of the capture-and-commit pipeline failed.
#[derive(Clone, Copy, Debug, PartialEq, Eq, Structural)]
pub enum GardenError {
    /// The temp directory would not take a scratch file.
    ScratchCreation,
    /// The editor was missing, would not start, or exited non-zero.
    EditorLaunch,
    /// The scratch file read back as something other than UTF-8 text.
    InvalidContent,
    /// The garden root exists but is not a usable directory.
    GardenRoot,
    /// Writing or renaming the entry failed; no entry is visible.
    Persist,
}

impl GardenError {
    /// A short human-readable description of the failure.
    pub fn message(&self) -> (r: &'static str)
        ensures
            r@.len() > 0,
    {
        match self {
            GardenError::ScratchCreation => {
                proof {
                    reveal_strlit("could not create a scratch file");
                }
                "could not create a scratch file"
            },
            GardenError::EditorLaunch => {
                proof {
                    reveal_strlit("could not run the editor, or it failed");
                }
                "could not run the editor, or it failed"
            },
            GardenError::InvalidContent => {
                proof {
                    reveal_strlit("the scratch file did not read back as text");
                }
                "the scratch file did not read back as text"
            },
            GardenError::GardenRoot => {
                proof {
                    reveal_strlit("the garden root is not a usable directory");
                }
                "the garden root is not a usable directory"
            },
            GardenError::Persist => {
                proof {
                    reveal_strlit("could not persist the entry");
                }
                "could not persist the entry"
            },
        }
    }
}

} // verus!
