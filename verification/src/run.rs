//! The per-item half of the batch driver: destination resolution, the
//! filtering pipeline from source bytes to destination bytes, and the
//! decisions the driver takes around them — skipping existing outputs,
//! the in-place swap path, and the deepest-first pruning order.

use vstd::prelude::*;
use vstd::multiset::Multiset;
use crate::archive::has_fb2_entry;
use crate::archive::is_fb2_entry;
use crate::archive::zip_data_of;
use crate::archive::zip_names_of;
use crate::archive::zip_single_of;
use crate::config::Config;
use crate::errors::CleanError;
use crate::input::InputFile;
use crate::input::InputFileType;
use crate::paths::byte_views;
use crate::paths::last_byte_at;
use crate::paths::spec_join;
use crate::paths::spec_walk;
use crate::paths::spec_walk_prefixes;
use crate::paths::spec_parent_of;
use crate::paths::SLASH;
use crate::tags::Tags;
use crate::xml::cleaned;
use crate::xml::stream_of;

verus! {

/// The dot byte, the separator of a file name and its extension.
pub const DOT: u8 = 46;

/// The file-name part of a path: everything after its last separator.
pub open spec fn file_name_of(p: Seq<u8>) -> Seq<u8> {
    p.subrange(last_byte_at(p, SLASH) + 1, p.len() as int)
}

/// A file name with its extension removed: the part before the last
/// dot, unless the only dot leads the name (or there is none), in
/// which case the name stays whole.
pub open spec fn spec_strip_ext(n: Seq<u8>) -> Seq<u8> {
    let d = last_byte_at(n, DOT);
    if d <= 0 {
        n
    } else {
        n.take(d)
    }
}

/// The output container form: compressing always archives,
/// uncompressing always lays the document out plain, and neither keeps
/// the source's form.
pub open spec fn spec_resolved_ty(zip: bool, unzip: bool, src_ty: InputFileType) -> InputFileType {
    if zip {
        InputFileType::Fb2Zip
    } else if unzip {
        InputFileType::Fb2
    } else {
        src_ty
    }
}

/// The output stem of a source document: its file name without the
/// outer container suffix — one extension is stripped, and an archived
/// source loses its inner extension too; a path without a file name
/// falls back to the default stem.
pub open spec fn spec_dest_stem(path: Seq<u8>, src_ty: InputFileType) -> Seq<u8> {
    let name = file_name_of(path);
    if name.len() == 0 {
        crate::output::default_subdir()
    } else {
        let s1 = spec_strip_ext(name);
        if src_ty is Fb2Zip {
            spec_strip_ext(s1)
        } else {
            s1
        }
    }
}

/// The destination descriptor of one batch item: container form, stem,
/// final path, the per-item subdirectories the path runs through, and
/// the ones this run actually created.
#[derive(Debug)]
pub struct Dest {
    /// The output container form.
    pub ty: InputFileType,
    /// The output stem: the source file name without container
    /// suffixes.
    pub stem: Vec<u8>,
    /// The resolved output path.
    pub path: Vec<u8>,
    /// The full subdirectory chain below the output root that the path
    /// runs through, outermost first.
    pub subdir_paths: Vec<Vec<u8>>,
    /// The subdirectories this run created, outermost first; filled by
    /// `mark_created` as creations succeed.
    pub created_dirs: Vec<Vec<u8>>,
}

impl Dest {
    /// Resolves where a source document's filtered copy goes: the
    /// container policy picks the form, the stem drops the container
    /// suffixes, and the path descends from the output root through
    /// the item's subdirectory chain.
    pub fn new(cfg: &Config, subdirs: Option<Vec<Vec<u8>>>, src: &InputFile) -> (r: Dest)
        ensures
            r.ty == spec_resolved_ty(cfg.zip, cfg.unzip, src.ty),
            r.stem@ == spec_dest_stem(src.path@, src.ty),
            byte_views(r.subdir_paths@) == match subdirs {
                Option::None => Seq::<Seq<u8>>::empty(),
                Option::Some(s) => spec_walk_prefixes(cfg.output.dir@, byte_views(s@)),
            },
            r.path@ == spec_join(
                match subdirs {
                    Option::None => cfg.output.dir@,
                    Option::Some(s) => spec_walk(cfg.output.dir@, byte_views(s@)),
                },
                r.stem@ + seq![DOT] + r.ty.spec_extension(),
            ),
            r.created_dirs@.len() == 0,
    {
        let ty = if cfg.zip {
            InputFileType::Fb2Zip
        } else if cfg.unzip {
            InputFileType::Fb2
        } else {
            src.ty
        };
        let stem = dest_stem(src.path.as_slice(), src.ty);

        let mut base = crate::paths::copy_bytes(cfg.output.dir.as_slice());
        let mut subdir_paths: Vec<Vec<u8>> = Vec::new();
        if let Some(subs) = &subdirs {
            let n = subs.len();
            let mut i: usize = 0;
            proof {
                assert(byte_views(subs@).take(0) =~= Seq::<Seq<u8>>::empty());
                assert(spec_walk_prefixes(cfg.output.dir@, byte_views(subs@).take(0))
                    =~= Seq::<Seq<u8>>::empty());
                assert(byte_views(subdir_paths@) =~= Seq::<Seq<u8>>::empty());
            }
            while i < n
                invariant
                    n == subs@.len(),
                    0 <= i <= n,
                    base@ == spec_walk(cfg.output.dir@, byte_views(subs@).take(i as int)),
                    byte_views(subdir_paths@) == spec_walk_prefixes(
                        cfg.output.dir@,
                        byte_views(subs@).take(i as int),
                    ),
                decreases n - i,
            {
                let next = crate::paths::path_join(base.as_slice(), subs[i].as_slice());
                subdir_paths.push(crate::paths::copy_bytes(next.as_slice()));
                base = next;
                proof {
                    let views = byte_views(subs@);
                    assert(views.take(i as int + 1).drop_last() =~= views.take(i as int));
                    assert(views.take(i as int + 1).last() == views[i as int]);
                    assert(base@ == spec_walk(cfg.output.dir@, views.take(i as int + 1)));
                    assert(byte_views(subdir_paths@) =~= spec_walk_prefixes(
                        cfg.output.dir@,
                        views.take(i as int + 1),
                    ));
                }
                i += 1;
            }
            proof {
                assert(byte_views(subs@).take(n as int) =~= byte_views(subs@));
            }
        }

        let mut leaf = crate::paths::copy_bytes(stem.as_slice());
        leaf.push(DOT);
        let ext = ty.as_extension();
        crate::paths::push_all(&mut leaf, ext.as_slice());
        proof {
            assert(leaf@ =~= stem@ + seq![DOT] + ty.spec_extension());
        }
        let path = crate::paths::path_join(base.as_slice(), leaf.as_slice());
        Dest { ty, stem, path, subdir_paths, created_dirs: Vec::new() }
    }

    /// Records one successfully created per-item subdirectory.
    pub fn mark_created(&mut self, p: Vec<u8>)
        ensures
            final(self).created_dirs@ == old(self).created_dirs@.push(p),
            final(self).ty == old(self).ty,
            final(self).stem == old(self).stem,
            final(self).path == old(self).path,
            final(self).subdir_paths == old(self).subdir_paths,
    {
        self.created_dirs.push(p);
    }

    /// The in-place name the filtered output takes when it replaces
    /// its source: the source's own path if the container form is
    /// unchanged, else a sibling with the new form's extension.
    pub fn force_path(&self, src: &InputFile) -> (r: Vec<u8>)
        ensures
            self.ty == src.ty ==> r@ == src.path@,
            self.ty != src.ty ==> r@ == spec_join(
                match spec_parent_of(src.path@) {
                    Some(q) => q,
                    None => seq![DOT],
                },
                self.stem@ + seq![DOT] + self.ty.spec_extension(),
            ),
    {
        if self.ty == src.ty {
            return crate::paths::copy_bytes(src.path.as_slice());
        }
        let base = match crate::paths::parent_of(src.path.as_slice()) {
            Some(q) => q,
            None => {
                let dot: Vec<u8> = vec![DOT];
                proof {
                    assert(dot@ =~= seq![DOT]);
                }
                dot
            },
        };
        let mut leaf = crate::paths::copy_bytes(self.stem.as_slice());
        leaf.push(DOT);
        let ext = self.ty.as_extension();
        crate::paths::push_all(&mut leaf, ext.as_slice());
        proof {
            assert(leaf@ =~= self.stem@ + seq![DOT] + self.ty.spec_extension());
        }
        crate::paths::path_join(base.as_slice(), leaf.as_slice())
    }

    /// Hands the per-item created directories back for pruning, in
    /// reverse creation order: deepest first.
    pub fn remove_created_dirs(&self) -> (r: Vec<Vec<u8>>)
        ensures
            r@.len() == self.created_dirs@.len(),
            forall|i: int|
                0 <= i < r@.len() ==> r@[i]@ == self.created_dirs@[self.created_dirs@.len() - 1
                    - i]@,
    {
        let n = self.created_dirs.len();
        let mut r: Vec<Vec<u8>> = Vec::new();
        let mut i: usize = 0;
        while i < n
            invariant
                n == self.created_dirs@.len(),
                0 <= i <= n,
                r@.len() == i,
                forall|j: int|
                    0 <= j < i ==> r@[j]@ == self.created_dirs@[self.created_dirs@.len() - 1 - j]@,
            decreases n - i,
        {
            r.push(crate::paths::copy_bytes(self.created_dirs[n - 1 - i].as_slice()));
            i += 1;
        }
        r
    }

    /// The name of the single entry written into an archived output:
    /// the stem with the plain extension.
    pub fn zip_start_file(&self) -> (r: Vec<u8>)
        ensures
            r@ == self.stem@ + seq![DOT] + seq![102u8, 98u8, 50u8],
    {
        let mut r = crate::paths::copy_bytes(self.stem.as_slice());
        r.push(DOT);
        r.push(102u8);
        r.push(98u8);
        r.push(50u8);
        proof {
            assert(r@ =~= self.stem@ + seq![DOT] + seq![102u8, 98u8, 50u8]);
        }
        r
    }
}

/// The file-name part of a path, with container suffixes stripped per
/// the source's form; the default stem where the path has no file
/// name.
fn dest_stem(path: &[u8], src_ty: InputFileType) -> (r: Vec<u8>)
    ensures
        r@ == spec_dest_stem(path@, src_ty),
{
    let plen = path.len();
    let found = crate::paths::rfind_byte(path, SLASH);
    let name: &[u8] = match found {
        Some(k) => vstd::slice::slice_subrange(path, k + 1, plen),
        None => path,
    };
    proof {
        assert(name@ =~= file_name_of(path@));
    }
    if name.len() == 0 {
        let fallback: Vec<u8> = vec![99u8, 108u8, 101u8, 97u8, 110u8, 101u8, 100u8];
        proof {
            assert(fallback@ =~= crate::output::default_subdir());
        }
        return fallback;
    }
    let s1 = strip_ext(name);
    if src_ty.is_fb2_zip() {
        strip_ext(s1.as_slice())
    } else {
        s1
    }
}

/// A file name without its extension.
fn strip_ext(n: &[u8]) -> (r: Vec<u8>)
    ensures
        r@ == spec_strip_ext(n@),
{
    match crate::paths::rfind_byte(n, DOT) {
        Some(k) if k > 0 => {
            let head = vstd::slice::slice_subrange(n, 0, k);
            crate::paths::copy_bytes(head)
        },
        _ => crate::paths::copy_bytes(n),
    }
}

/// What the batch driver does with one item whose destination may
/// already exist.
#[derive(Copy, Clone, Debug, PartialEq, Eq, Structural)]
pub enum ItemDecision {
    /// The destination already exists and overwriting was not asked
    /// for: leave the source untouched, warn, and go on with the next
    /// item.
    SkipExisting,
    /// Filter the item.
    Process,
}

/// The skip rule: an existing destination is only ever overwritten
/// under the force flag; skipping is not an error and the run goes on.
pub fn decide_item(force: bool, dest_exists: bool) -> (r: ItemDecision)
    ensures
        r == ItemDecision::SkipExisting <==> (!force && dest_exists),
{
    if !force && dest_exists {
        ItemDecision::SkipExisting
    } else {
        ItemDecision::Process
    }
}

/// What the batch driver does after one item fails.
#[derive(Copy, Clone, Debug, PartialEq, Eq, Structural)]
pub enum FailurePolicy {
    /// Abort the whole batch, surfacing the item's error.
    Abort,
    /// Warn about the item and go on with the next one.
    SkipAndWarn,
}

/// The failure rule: a per-item error aborts the whole batch exactly
/// when stopping on the first error was asked for; otherwise the item
/// is skipped with a warning and the run goes on.
pub fn on_item_error(exit_on_err: bool) -> (r: FailurePolicy)
    ensures
        r == FailurePolicy::Abort <==> exit_on_err,
{
    if exit_on_err {
        FailurePolicy::Abort
    } else {
        FailurePolicy::SkipAndWarn
    }
}

/// The pruning depth of one item: the component count of the deepest
/// directory it created (they are recorded outermost first, so the
/// deepest is the last), or zero where it created none.
pub open spec fn dest_depth(d: Dest) -> int {
    if d.created_dirs@.len() == 0 {
        0
    } else {
        crate::paths::components_of(d.created_dirs@.last()@).len() as int
    }
}

/// The pruning depth of one item.
pub fn depth_of(d: &Dest) -> (r: usize)
    ensures
        r == dest_depth(*d),
{
    if d.created_dirs.len() == 0 {
        0
    } else {
        let last = &d.created_dirs[d.created_dirs.len() - 1];
        let comps = crate::paths::split_components(last.as_slice());
        proof {
            assert(byte_views(comps@).len() == comps@.len());
        }
        comps.len()
    }
}

/// Orders the finished items for directory pruning: by the depth of
/// the deepest directory each item created, descending, so a child
/// directory is always pruned before its parent, whichever item
/// created which.  The result holds exactly the given descriptors (a
/// permutation).
pub fn removal_sorted(dests: Vec<Dest>) -> (r: Vec<Dest>)
    ensures
        r@.to_multiset() == dests@.to_multiset(),
        forall|i: int, j: int| 0 <= i < j < r@.len() ==> dest_depth(r@[i]) >= dest_depth(r@[j]),
{
    broadcast use vstd::seq_lib::group_to_multiset_ensures;

    let mut rest = dests;
    let mut r: Vec<Dest> = Vec::new();
    proof {
        assert(r@.to_multiset().add(rest@.to_multiset()) =~= dests@.to_multiset());
    }
    while rest.len() > 0
        invariant
            r@.to_multiset().add(rest@.to_multiset()) == dests@.to_multiset(),
            forall|i: int, j: int| 0 <= i < j < r@.len() ==> dest_depth(r@[i]) >= dest_depth(r@[j]),
            forall|i: int, j: int|
                0 <= i < r@.len() && 0 <= j < rest@.len() ==> dest_depth(r@[i]) >= dest_depth(
                    rest@[j],
                ),
        decreases rest@.len(),
    {
        let n = rest.len();
        let mut m: usize = 0;
        let mut k: usize = 1;
        while k < n
            invariant
                n == rest@.len(),
                0 <= m < k <= n,
                forall|j: int| 0 <= j < k ==> dest_depth(rest@[m as int]) >= dest_depth(rest@[j]),
            decreases n - k,
        {
            if depth_of(&rest[k]) > depth_of(&rest[m]) {
                m = k;
            }
            k += 1;
        }
        let ghost old_rest = rest@;
        let ghost old_r = r@;
        let d = rest.remove(m);
        r.push(d);
        proof {
            old_rest.to_multiset_ensures();
            old_r.to_multiset_ensures();
            assert(old_rest.contains(old_rest[m as int]));
            assert(rest@ == old_rest.remove(m as int));
            assert(rest@.to_multiset() == old_rest.to_multiset().remove(d));
            assert(r@ == old_r.push(d));
            assert(r@.to_multiset() == old_r.to_multiset().insert(d));
            assert(r@.to_multiset().add(rest@.to_multiset()) =~= old_r.to_multiset().add(
                old_rest.to_multiset(),
            ));
        }
    }
    proof {
        rest@.to_multiset_ensures();
        vstd::multiset::lemma_multiset_empty_len(rest@.to_multiset());
        assert(rest@.to_multiset() =~= Multiset::<Dest>::empty());
        assert(r@.to_multiset().add(rest@.to_multiset()) =~= r@.to_multiset());
    }
    r
}

/// The document bytes a source resolves to, per its container form.
pub open spec fn spec_source_doc(bytes: Seq<u8>, ty: InputFileType, doc: Seq<u8>) -> bool {
    match ty {
        InputFileType::Fb2 => doc == bytes,
        InputFileType::Fb2Zip => exists|i: int|
            0 <= i < zip_names_of(bytes).len() && is_fb2_entry(#[trigger] zip_names_of(bytes)[i])
                && (forall|j: int| 0 <= j < i ==> !is_fb2_entry(#[trigger] zip_names_of(bytes)[j]))
                && doc == zip_data_of(bytes)[i],
    }
}

/// The destination bytes a filtered document packs to, per the
/// resolved container form.
pub open spec fn spec_packed(
    doc: Seq<u8>,
    dest_ty: InputFileType,
    entry_name: Seq<u8>,
    tags: Set<Seq<u8>>,
    out: Seq<u8>,
) -> bool {
    match dest_ty {
        InputFileType::Fb2 => out == cleaned(stream_of(doc), tags),
        InputFileType::Fb2Zip => out == zip_single_of(entry_name, cleaned(stream_of(doc), tags)),
    }
}

/// One batch item is owed a result when its source resolves (a plain
/// file always does; an archived one needs a fully valid archive with
/// a matching entry), its document tokenizes cleanly and is countable,
/// and — for an archived destination — the writer accepts the entry.
pub open spec fn spec_item_ok(
    bytes: Seq<u8>,
    src_ty: InputFileType,
    dest_ty: InputFileType,
    entry_name: Seq<u8>,
    tags: Set<Seq<u8>>,
) -> bool {
    (src_ty is Fb2Zip ==> crate::archive::zip_ok(bytes) && has_fb2_entry(zip_names_of(bytes)))
        && (forall|doc: Seq<u8>|
        #[trigger] spec_source_doc(bytes, src_ty, doc) ==> crate::xml::xml_ok(doc) && stream_of(
            doc,
        ).len() < usize::MAX && (dest_ty is Fb2Zip ==> crate::archive::zip_write_ok(
            entry_name,
            cleaned(stream_of(doc), tags),
        )))
}

/// Filters one batch item end to end, in memory: resolves the source's
/// document (plain, or the first matching entry of its archive), runs
/// the tag filter over it, and packs the result into the destination's
/// container form under the destination's entry name.  A well-formed
/// item is owed its output; a missing inner document names the
/// source's path.
pub fn process_document(src_bytes: Vec<u8>, src: &InputFile, dest: &Dest, tags: &Tags) -> (r:
    Result<Vec<u8>, CleanError>)
    ensures
        r matches Ok(out) ==> exists|doc: Seq<u8>|
            #[trigger] spec_source_doc(src_bytes@, src.ty, doc) && spec_packed(
                doc,
                dest.ty,
                dest.stem@ + seq![DOT] + seq![102u8, 98u8, 50u8],
                tags@,
                out@,
            ),
        src.ty is Fb2 ==> (r matches Ok(out) ==> spec_packed(
            src_bytes@,
            dest.ty,
            dest.stem@ + seq![DOT] + seq![102u8, 98u8, 50u8],
            tags@,
            out@,
        )),
        src.ty is Fb2Zip && !has_fb2_entry(zip_names_of(src_bytes@)) ==> r is Err,
        spec_item_ok(
            src_bytes@,
            src.ty,
            dest.ty,
            dest.stem@ + seq![DOT] + seq![102u8, 98u8, 50u8],
            tags@,
        ) ==> r is Ok,
        r matches Err(CleanError::MissingEntry(p)) ==> p@ == src.path@ && src.ty is Fb2Zip,
    {
    let ghost src_view = src_bytes@;
    let ghost item_ok = spec_item_ok(
        src_bytes@,
        src.ty,
        dest.ty,
        dest.stem@ + seq![DOT] + seq![102u8, 98u8, 50u8],
        tags@,
    );
    let doc = crate::archive::extract_document(src_bytes, src.ty, src.path.as_slice())?;
    let ghost doc_view = doc@;
    proof {
        assert(spec_source_doc(src_view, src.ty, doc_view));
    }
    let filtered = crate::xml::clean_xml(doc, tags)?;
    let entry_name = dest.zip_start_file();
    let out = crate::archive::pack_document(filtered, dest.ty, entry_name)?;
    proof {
        assert(spec_packed(
            doc_view,
            dest.ty,
            dest.stem@ + seq![DOT] + seq![102u8, 98u8, 50u8],
            tags@,
            out@,
        ));
    }
    Ok(out)
}

} // verus!
