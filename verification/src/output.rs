//! Output configuration and the directory lifecycle's bookkeeping: the
//! target directory, the chain of directories a run created for it, and
//! the rules for creating and pruning that chain.
//!
//! The filesystem itself is outside the library: the thin front end
//! walks directories and calls `create`/`remove`, while every decision
//! — which target, which chain, what counts as failure, in which order
//! to prune — is taken here.

use vstd::prelude::*;
use crate::errors::ConfigError;
use crate::input::Input;
use crate::paths::SLASH;
use crate::paths::byte_views;
use crate::paths::spec_join;
use crate::paths::spec_normalize;
use crate::paths::spec_parent_of;

verus! {

/// The name of the default output subdirectory, `cleaned`.
pub open spec fn default_subdir() -> Seq<u8> {
    seq![99u8, 108u8, 101u8, 97u8, 110u8, 101u8, 100u8]
}

/// The tilde byte; a path beginning with it is left for the shell's
/// owner to resolve and is never anchored to the working directory.
pub const TILDE: u8 = 126;

/// Anchoring a path: one that starts with a tilde or with the
/// separator stays as it is, any other is joined under the working
/// directory.
pub open spec fn spec_absolutize(p: Seq<u8>, cwd: Seq<u8>) -> Seq<u8> {
    if p.len() > 0 && (p[0] == TILDE || p[0] == SLASH) {
        p
    } else {
        spec_join(cwd, p)
    }
}

/// The output directory a given input implies: a `cleaned` subdirectory
/// beside the input file, or below the input directory.
pub open spec fn spec_default_target(input: Input) -> Seq<u8> {
    match input {
        Input::Dir(d) => spec_join(d@, default_subdir()),
        Input::File(f) => {
            let base = match spec_parent_of(f.path@) {
                Some(q) => q,
                None => seq![46u8],
            };
            spec_join(base, default_subdir())
        },
    }
}

/// Output configuration.
#[derive(Clone, Debug, PartialEq)]
pub struct Output {
    /// Output directory.
    pub dir: Vec<u8>,
    /// The descending directory chain this run created on the way to
    /// `dir`, innermost first; empty until `record_created` stores it.
    pub created_dirs: Vec<Vec<u8>>,
}

/// Validates, anchors and normalizes an output directory path: a path
/// naming an existing regular file is rejected; any other is anchored
/// to the working directory and rebuilt from its components, so that
/// repeated or trailing separators and `.` names never reach the
/// output root (the recursive scan excludes that root by a prefix
/// test, which needs the normalized form).
pub fn new_dir(path: &[u8], is_file: bool, cwd: &[u8]) -> (r: Result<Vec<u8>, ConfigError>)
    ensures
        is_file ==> (r matches Err(e) && e == ConfigError::NotADirectory),
        !is_file ==> (r matches Ok(d) && d@ == spec_normalize(spec_absolutize(path@, cwd@))),
{
    if is_file {
        return Err(ConfigError::NotADirectory);
    }
    let anchored = if path.len() > 0 && (path[0] == TILDE || path[0] == SLASH) {
        crate::paths::copy_bytes(path)
    } else {
        crate::paths::path_join(cwd, path)
    };
    Ok(crate::paths::normalize_path(anchored.as_slice()))
}

impl Output {
    /// An output configuration for a requested directory.  `is_file`
    /// reports whether the path names an existing regular file, `cwd`
    /// is the working directory used to anchor a relative path.
    pub fn new(path: &[u8], is_file: bool, cwd: &[u8]) -> (r: Result<Output, ConfigError>)
        ensures
            is_file ==> (r matches Err(e) && e == ConfigError::NotADirectory),
            !is_file ==> (r matches Ok(o) && o.dir@ == spec_normalize(spec_absolutize(path@, cwd@))
                && o.created_dirs@.len() == 0),
    {
        let dir = new_dir(path, is_file, cwd)?;
        Ok(Output { dir, created_dirs: Vec::new() })
    }

    /// The output configuration an input implies when none is given: a
    /// `cleaned` directory beside or below the input.  `target_is_file`
    /// reports whether that derived path names an existing regular
    /// file.
    pub fn try_from_input(input: &Input, target_is_file: bool, cwd: &[u8]) -> (r: Result<
        Output,
        ConfigError,
    >)
        ensures
            target_is_file ==> (r matches Err(e) && e == ConfigError::NotADirectory),
            !target_is_file ==> (r matches Ok(o) && o.dir@ == spec_normalize(
                spec_absolutize(spec_default_target(*input), cwd@),
            ) && o.created_dirs@.len() == 0),
    {
        let target = derived_target(input);
        Output::new(target.as_slice(), target_is_file, cwd)
    }

    /// Hands the recorded chain back for pruning, in its recorded
    /// order: innermost first, so a parent is only reached once its
    /// child is gone.
    pub fn remove_created_dirs(&self) -> (r: Vec<Vec<u8>>)
        ensures
            byte_views(r@) == byte_views(self.created_dirs@),
    {
        clone_chain(&self.created_dirs)
    }

    /// Stores the chain of directories the run just created, innermost
    /// first.
    pub fn record_created(&mut self, dirs: Vec<Vec<u8>>)
        ensures
            final(self).dir == old(self).dir,
            final(self).created_dirs == dirs,
    {
        self.created_dirs = dirs;
    }
}

/// The output path an input implies: a `cleaned` subdirectory beside
/// the input file, or below the input directory.
pub fn derived_target(input: &Input) -> (r: Vec<u8>)
    ensures
        r@ == spec_default_target(*input),
{
    let cleaned: Vec<u8> = vec![99u8, 108u8, 101u8, 97u8, 110u8, 101u8, 100u8];
    proof {
        assert(cleaned@ =~= default_subdir());
    }
    match input {
        Input::Dir(d) => crate::paths::path_join(d.as_slice(), cleaned.as_slice()),
        Input::File(f) => {
            match crate::paths::parent_of(f.path.as_slice()) {
                Some(q) => crate::paths::path_join(q.as_slice(), cleaned.as_slice()),
                None => {
                    let dot: Vec<u8> = vec![46u8];
                    proof {
                        assert(dot@ =~= seq![46u8]);
                    }
                    crate::paths::path_join(dot.as_slice(), cleaned.as_slice())
                },
            }
        },
    }
}

/// The creation-failure rule: a creation step truly failed only when
/// the call errored and the directory still does not exist afterwards —
/// losing a race to another creator of the same directory counts as
/// success.
pub fn creation_failed(create_err: bool, exists_after: bool) -> (r: bool)
    ensures
        r == (create_err && !exists_after),
{
    create_err && !exists_after
}

/// Copies a chain of paths.
pub fn clone_chain(v: &Vec<Vec<u8>>) -> (r: Vec<Vec<u8>>)
    ensures
        byte_views(r@) == byte_views(v@),
{
    let mut r: Vec<Vec<u8>> = Vec::new();
    let n = v.len();
    let mut i: usize = 0;
    while i < n
        invariant
            n == v@.len(),
            0 <= i <= n,
            r@.len() == i,
            forall|j: int| 0 <= j < i ==> r@[j]@ == v@[j]@,
        decreases n - i,
    {
        r.push(crate::paths::copy_bytes(v[i].as_slice()));
        i += 1;
    }
    proof {
        assert(byte_views(r@) =~= byte_views(v@));
    }
    r
}

} // verus!
