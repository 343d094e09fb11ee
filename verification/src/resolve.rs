//! Turning a possibly-relative path into an absolute one.

use vstd::prelude::*;
use vstd::string::*;
use crate::errors::Error;
use crate::paths::{is_absolute, is_absolute_spec, join, join_spec};

verus! {

/// The mathematical content of a [`RootContext`].
pub struct RootContextView {
    pub env_root: Option<Seq<char>>,
    pub home_found: bool,
    pub audio_dir: Option<Seq<char>>,
}

/// The root directory information against which relative paths are resolved,
/// determined once per invocation.
///
/// `env_root` is the environment override, when set. Otherwise the platform's
/// per-user audio directory applies: `home_found` records whether the user's
/// home directory could be determined at all, and `audio_dir` the audio
/// directory within it, when one exists.
pub struct RootContext {
    pub env_root: Option<String>,
    pub home_found: bool,
    pub audio_dir: Option<String>,
}

impl View for RootContext {
    type V = RootContextView;

    open spec fn view(&self) -> RootContextView {
        RootContextView {
            env_root: match self.env_root {
                Some(ref r) => Some(r@),
                None => None,
            },
            home_found: self.home_found,
            audio_dir: match self.audio_dir {
                Some(ref a) => Some(a@),
                None => None,
            },
        }
    }
}

impl RootContextView {
    /// An audio directory can only be known once the home directory is.
    pub open spec fn wf(self) -> bool {
        self.audio_dir is Some ==> self.home_found
    }
}

/// What resolution returns: an absolute path unchanged; a relative path
/// joined onto the environment override when set, else onto the user audio
/// directory; failing with `MissingHomeDir` when the home directory is
/// unknown and with `MissingMusicDir` when only the audio directory is.
pub open spec fn resolve_spec(ctx: RootContextView, p: Seq<char>) -> Result<Seq<char>, Error> {
    if is_absolute_spec(p) {
        Ok(p)
    } else {
        match ctx.env_root {
            Some(root) => Ok(join_spec(root, p)),
            None => if !ctx.home_found {
                Err(Error::MissingHomeDir)
            } else {
                match ctx.audio_dir {
                    Some(audio) => Ok(join_spec(audio, p)),
                    None => Err(Error::MissingMusicDir),
                }
            },
        }
    }
}

impl RootContext {
    /// Make `p` absolute against this context.
    pub fn resolve(&self, p: &str) -> (r: Result<String, Error>)
        ensures
            match r {
                Ok(abs) => resolve_spec(self@, p@) == Ok::<Seq<char>, Error>(abs@),
                Err(e) => resolve_spec(self@, p@) == Err::<Seq<char>, Error>(e),
            },
    {
        if is_absolute(p) {
            Ok(String::from_str(p))
        } else {
            match &self.env_root {
                Some(root) => Ok(join(root.as_str(), p)),
                None => if !self.home_found {
                    Err(Error::MissingHomeDir)
                } else {
                    match &self.audio_dir {
                        Some(audio) => Ok(join(audio.as_str(), p)),
                        None => Err(Error::MissingMusicDir),
                    }
                },
            }
        }
    }
}

} // verus!
