//! Input classification: which paths name a document the batch works
//! on, and in which container form.

use vstd::prelude::*;
use crate::errors::ConfigError;
use crate::paths::spec_has_suffix_ci;

verus! {

/// Input file type: the container form a source document arrives in.
#[derive(Copy, Clone, Debug, Hash, Eq, PartialEq, Structural)]
pub enum InputFileType {
    /// A plain document.
    Fb2,
    /// A single-entry zip archive holding the document.
    Fb2Zip,
}

/// Input file: a classified source document.
#[derive(Clone, Debug, Hash, Eq, PartialEq)]
pub struct InputFile {
    pub ty: InputFileType,
    pub path: Vec<u8>,
}

/// Input directory OR file.
#[derive(Clone, Debug, PartialEq)]
pub enum Input {
    Dir(Vec<u8>),
    File(InputFile),
}

/// The suffix `.fb2`.
pub open spec fn ext_fb2() -> Seq<u8> {
    seq![46u8, 102u8, 98u8, 50u8]
}

/// The suffix `.fb2.zip`.
pub open spec fn ext_fb2_zip() -> Seq<u8> {
    seq![46u8, 102u8, 98u8, 50u8, 46u8, 122u8, 105u8, 112u8]
}

/// The container form a path denotes, by its (ASCII case-insensitive)
/// suffix; `.fb2` is tried before `.fb2.zip`, as the suffixes cannot
/// both match.
pub open spec fn spec_input_file_type(p: Seq<u8>) -> Option<InputFileType> {
    if spec_has_suffix_ci(p, ext_fb2()) {
        Some(InputFileType::Fb2)
    } else if spec_has_suffix_ci(p, ext_fb2_zip()) {
        Some(InputFileType::Fb2Zip)
    } else {
        None
    }
}

/// Classifies a path by its extension.
pub fn get_input_file_type(f: &[u8]) -> (r: Option<InputFileType>)
    ensures
        r == spec_input_file_type(f@),
{
    let fb2: Vec<u8> = vec![46u8, 102u8, 98u8, 50u8];
    let fb2_zip: Vec<u8> = vec![46u8, 102u8, 98u8, 50u8, 46u8, 122u8, 105u8, 112u8];
    proof {
        assert(fb2@ =~= ext_fb2());
        assert(fb2_zip@ =~= ext_fb2_zip());
    }
    if crate::paths::has_suffix_ci(f, fb2.as_slice()) {
        Some(InputFileType::Fb2)
    } else if crate::paths::has_suffix_ci(f, fb2_zip.as_slice()) {
        Some(InputFileType::Fb2Zip)
    } else {
        None
    }
}

impl InputFileType {
    pub fn is_fb2(&self) -> (r: bool)
        ensures
            r == (self is Fb2),
    {
        matches!(self, Self::Fb2)
    }

    pub fn is_fb2_zip(&self) -> (r: bool)
        ensures
            r == (self is Fb2Zip),
    {
        matches!(self, Self::Fb2Zip)
    }

    /// The extension the destination file of this form carries, without
    /// the leading dot.
    pub open spec fn spec_extension(&self) -> Seq<u8> {
        match self {
            InputFileType::Fb2 => seq![102u8, 98u8, 50u8],
            InputFileType::Fb2Zip => seq![102u8, 98u8, 50u8, 46u8, 122u8, 105u8, 112u8],
        }
    }

    /// The extension for this container form, without the leading dot.
    pub fn as_extension(&self) -> (r: Vec<u8>)
        ensures
            r@ == self.spec_extension(),
    {
        match self {
            InputFileType::Fb2 => {
                let v: Vec<u8> = vec![102u8, 98u8, 50u8];
                proof {
                    assert(v@ =~= self.spec_extension());
                }
                v
            },
            InputFileType::Fb2Zip => {
                let v: Vec<u8> = vec![102u8, 98u8, 50u8, 46u8, 122u8, 105u8, 112u8];
                proof {
                    assert(v@ =~= self.spec_extension());
                }
                v
            },
        }
    }
}

impl Input {
    /// Classifies an already-canonicalized path: a directory is taken
    /// as a tree of candidates, a file must carry a recognized
    /// extension.  `is_dir` reports what the filesystem says of the
    /// path.
    pub fn new(path: Vec<u8>, is_dir: bool) -> (r: Result<Input, ConfigError>)
        ensures
            is_dir ==> (r matches Ok(i) && i matches Input::Dir(d) && d@ == path@),
            (!is_dir && spec_input_file_type(path@) is Some) ==> (r matches Ok(i)
                && i matches Input::File(f) && Some(f.ty) == spec_input_file_type(path@)
                && f.path@ == path@),
            (!is_dir && spec_input_file_type(path@) is None) ==> (r matches Err(e) && e
                == ConfigError::UnsupportedExtension),
    {
        if is_dir {
            Ok(Input::Dir(path))
        } else {
            match get_input_file_type(path.as_slice()) {
                Some(ty) => Ok(Input::File(InputFile { ty, path })),
                None => Err(ConfigError::UnsupportedExtension),
            }
        }
    }
}

/// The pair view of a classified file: its form and its path bytes.
pub open spec fn file_views(s: Seq<InputFile>) -> Seq<(InputFileType, Seq<u8>)> {
    s.map_values(|f: InputFile| (f.ty, f.path@))
}

/// The classified files among `paths`, in order: each path with a
/// recognized extension, paired with its form.
pub open spec fn spec_selected(paths: Seq<Seq<u8>>) -> Seq<(InputFileType, Seq<u8>)>
    decreases paths.len(),
{
    if paths.len() == 0 {
        Seq::empty()
    } else {
        let rest = spec_selected(paths.drop_last());
        match spec_input_file_type(paths.last()) {
            Some(ty) => rest.push((ty, paths.last())),
            None => rest,
        }
    }
}

/// Keeps the candidate paths that name a recognized document, in their
/// given order: the enumeration step of a directory scan.
pub fn select_input_files(paths: Vec<Vec<u8>>) -> (r: Vec<InputFile>)
    ensures
        file_views(r@) == spec_selected(paths@.map_values(|p: Vec<u8>| p@)),
{
    let ghost all = paths@.map_values(|p: Vec<u8>| p@);
    let mut r: Vec<InputFile> = Vec::new();
    let n = paths.len();
    let mut i: usize = 0;
    proof {
        assert(file_views(r@) =~= spec_selected(all.take(0)));
    }
    while i < n
        invariant
            n == paths@.len(),
            0 <= i <= n,
            all == paths@.map_values(|p: Vec<u8>| p@),
            file_views(r@) == spec_selected(all.take(i as int)),
        decreases n - i,
    {
        let ghost old_r = r@;
        let p = &paths[i];
        match get_input_file_type(p.as_slice()) {
            Some(ty) => {
                let mut path: Vec<u8> = Vec::new();
                crate::paths::push_all(&mut path, p.as_slice());
                proof {
                    assert(path@ =~= p@);
                }
                r.push(InputFile { ty, path });
                proof {
                    assert(file_views(r@) =~= file_views(old_r).push((ty, p@)));
                }
            },
            None => {},
        }
        proof {
            assert(all.take(i as int + 1).drop_last() =~= all.take(i as int));
            assert(all.take(i as int + 1).last() == all[i as int]);
            assert(file_views(r@) =~= spec_selected(all.take(i as int + 1)));
        }
        i += 1;
    }
    proof {
        assert(all.take(n as int) =~= all);
    }
    r
}

} // verus!
