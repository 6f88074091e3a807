//! Byte-level helpers shared by the whole crate: ASCII case folding,
//! byte-string comparison, and the path model (a path is a `/`-separated
//! byte string).

use vstd::prelude::*;

verus! {

/// ASCII lower-casing of one byte, the folding used for extension and
/// archive-entry matching.
pub open spec fn spec_ascii_lower(b: u8) -> u8 {
    if 65 <= b && b <= 90 {
        (b + 32) as u8
    } else {
        b
    }
}

/// Two byte strings are equal after ASCII lower-casing.
pub open spec fn seq_eq_ci(a: Seq<u8>, b: Seq<u8>) -> bool {
    a.map_values(|x: u8| spec_ascii_lower(x)) == b.map_values(|x: u8| spec_ascii_lower(x))
}

/// `s` ends (case-insensitively, ASCII) with `suffix`.
pub open spec fn spec_has_suffix_ci(s: Seq<u8>, suffix: Seq<u8>) -> bool {
    s.len() >= suffix.len() && seq_eq_ci(s.subrange(s.len() - suffix.len(), s.len() as int), suffix)
}

pub fn ascii_lower(b: u8) -> (r: u8)
    ensures
        r == spec_ascii_lower(b),
{
    if 65 <= b && b <= 90 {
        b + 32
    } else {
        b
    }
}

/// Exact byte-string equality.
pub fn bytes_eq(a: &[u8], b: &[u8]) -> (r: bool)
    ensures
        r == (a@ == b@),
{
    if a.len() != b.len() {
        proof {
            assert(a@.len() != b@.len());
        }
        return false;
    }
    let mut i: usize = 0;
    while i < a.len()
        invariant
            i <= a@.len(),
            a@.len() == b@.len(),
            forall|j: int| 0 <= j < i ==> a@[j] == b@[j],
        decreases a@.len() - i,
    {
        if a[i] != b[i] {
            return false;
        }
        i += 1;
    }
    proof {
        assert(a@ =~= b@);
    }
    true
}

/// Byte-string equality after ASCII lower-casing.
pub fn bytes_eq_ci(a: &[u8], b: &[u8]) -> (r: bool)
    ensures
        r == seq_eq_ci(a@, b@),
{
    let ghost la = a@.map_values(|x: u8| spec_ascii_lower(x));
    let ghost lb = b@.map_values(|x: u8| spec_ascii_lower(x));
    if a.len() != b.len() {
        proof {
            assert(la.len() != lb.len());
        }
        return false;
    }
    let mut i: usize = 0;
    while i < a.len()
        invariant
            i <= a@.len(),
            a@.len() == b@.len(),
            la == a@.map_values(|x: u8| spec_ascii_lower(x)),
            lb == b@.map_values(|x: u8| spec_ascii_lower(x)),
            forall|j: int| 0 <= j < i ==> la[j] == lb[j],
        decreases a@.len() - i,
    {
        if ascii_lower(a[i]) != ascii_lower(b[i]) {
            proof {
                assert(la[i as int] != lb[i as int]);
            }
            return false;
        }
        i += 1;
    }
    proof {
        assert(la =~= lb);
    }
    true
}

/// The separator byte of the path model, `/`.
pub const SLASH: u8 = 47;

/// The views of a list of owned byte strings, in order.
pub open spec fn byte_views(s: Seq<Vec<u8>>) -> Seq<Seq<u8>> {
    s.map_values(|v: Vec<u8>| v@)
}

/// The index of the last separator in `p`, or -1 if it has none.
pub open spec fn last_slash(p: Seq<u8>) -> int
    decreases p.len(),
{
    if p.len() == 0 {
        -1
    } else if p.last() == SLASH {
        p.len() - 1
    } else {
        last_slash(p.drop_last())
    }
}

/// The parent of a normalized path: none for the root or the empty
/// path, the empty path for a bare name, the leading separator alone
/// for a direct child of the root, and everything before the last
/// separator otherwise.
pub open spec fn spec_parent_of(p: Seq<u8>) -> Option<Seq<u8>> {
    if p.len() == 0 || p == seq![SLASH] {
        None
    } else {
        let k = last_slash(p);
        if k == -1 {
            Some(Seq::empty())
        } else if k == 0 {
            Some(seq![SLASH])
        } else {
            Some(p.take(k))
        }
    }
}

/// Joining a path and a child name: a separator goes between them
/// unless the base is empty or already ends with one.
pub open spec fn spec_join(base: Seq<u8>, name: Seq<u8>) -> Seq<u8> {
    if base.len() == 0 || base.last() == SLASH {
        base + name
    } else {
        base + seq![SLASH] + name
    }
}

proof fn lemma_last_slash_at(p: Seq<u8>, k: int)
    requires
        0 <= k < p.len(),
        p[k] == SLASH,
        forall|j: int| k < j < p.len() ==> p[j] != SLASH,
    ensures
        last_slash(p) == k,
    decreases p.len(),
{
    if k == p.len() - 1 {
    } else {
        assert(p.last() != SLASH);
        assert(p.drop_last()[k] == SLASH);
        lemma_last_slash_at(p.drop_last(), k);
    }
}

proof fn lemma_no_slash(p: Seq<u8>)
    requires
        forall|j: int| 0 <= j < p.len() ==> p[j] != SLASH,
    ensures
        last_slash(p) == -1,
    decreases p.len(),
{
    if p.len() > 0 {
        lemma_no_slash(p.drop_last());
    }
}

/// The parent of a normalized path, or none for the root and for the
/// empty path.
pub fn parent_of(p: &[u8]) -> (r: Option<Vec<u8>>)
    ensures
        match r {
            Some(q) => spec_parent_of(p@) matches Some(qq) && q@ == qq,
            None => spec_parent_of(p@) is None,
        },
{
    if p.len() == 0 || (p.len() == 1 && p[0] == SLASH) {
        proof {
            if p@.len() == 1 && p@[0] == SLASH {
                assert(p@ =~= seq![SLASH]);
            }
        }
        return None;
    }
    proof {
        assert(p@ != seq![SLASH]);
    }
    let mut k: usize = p.len();
    while k > 0
        invariant
            k <= p@.len(),
            p@.len() != 0,
            p@ != seq![SLASH],
            forall|j: int| k <= j < p@.len() ==> p@[j] != SLASH,
        decreases k,
    {
        if p[k - 1] == SLASH {
            proof {
                lemma_last_slash_at(p@, k as int - 1);
            }
            if k == 1 {
                let root: Vec<u8> = vec![SLASH];
                proof {
                    assert(root@ =~= seq![SLASH]);
                }
                return Some(root);
            }
            let head = vstd::slice::slice_subrange(p, 0, k - 1);
            let mut out: Vec<u8> = Vec::new();
            push_all(&mut out, head);
            proof {
                assert(out@ =~= p@.take(k as int - 1));
            }
            return Some(out);
        }
        k -= 1;
    }
    proof {
        lemma_no_slash(p@);
    }
    Some(Vec::new())
}

/// Joins a path and a child name.
pub fn path_join(base: &[u8], name: &[u8]) -> (r: Vec<u8>)
    ensures
        r@ == spec_join(base@, name@),
{
    let mut out: Vec<u8> = Vec::new();
    push_all(&mut out, base);
    if base.len() != 0 && base[base.len() - 1] != SLASH {
        out.push(SLASH);
        proof {
            assert(out@ =~= base@ + seq![SLASH]);
        }
    }
    push_all(&mut out, name);
    proof {
        assert(out@ =~= spec_join(base@, name@));
    }
    out
}

/// The index of the last occurrence of `b` in `p`, or -1 if none.
pub open spec fn last_byte_at(p: Seq<u8>, b: u8) -> int
    decreases p.len(),
{
    if p.len() == 0 {
        -1
    } else if p.last() == b {
        p.len() - 1
    } else {
        last_byte_at(p.drop_last(), b)
    }
}

proof fn lemma_last_byte_at(p: Seq<u8>, b: u8, k: int)
    requires
        0 <= k < p.len(),
        p[k] == b,
        forall|j: int| k < j < p.len() ==> p[j] != b,
    ensures
        last_byte_at(p, b) == k,
    decreases p.len(),
{
    if k == p.len() - 1 {
    } else {
        assert(p.drop_last()[k] == b);
        lemma_last_byte_at(p.drop_last(), b, k);
    }
}

proof fn lemma_no_byte(p: Seq<u8>, b: u8)
    requires
        forall|j: int| 0 <= j < p.len() ==> p[j] != b,
    ensures
        last_byte_at(p, b) == -1,
    decreases p.len(),
{
    if p.len() > 0 {
        lemma_no_byte(p.drop_last(), b);
    }
}

/// The position of the last occurrence of `b` in `p`, if any.
pub fn rfind_byte(p: &[u8], b: u8) -> (r: Option<usize>)
    ensures
        match r {
            Some(k) => k < p@.len() && last_byte_at(p@, b) == k,
            None => last_byte_at(p@, b) == -1,
        },
{
    let mut k: usize = p.len();
    while k > 0
        invariant
            k <= p@.len(),
            forall|j: int| k <= j < p@.len() ==> p@[j] != b,
        decreases k,
    {
        if p[k - 1] == b {
            proof {
                lemma_last_byte_at(p@, b, k as int - 1);
            }
            return Some(k - 1);
        }
        k -= 1;
    }
    proof {
        lemma_no_byte(p@, b);
    }
    None
}

/// The directory a subdirectory chain leads to, starting from `base`.
pub open spec fn spec_walk(base: Seq<u8>, subs: Seq<Seq<u8>>) -> Seq<u8>
    decreases subs.len(),
{
    if subs.len() == 0 {
        base
    } else {
        spec_join(spec_walk(base, subs.drop_last()), subs.last())
    }
}

/// Every directory a subdirectory chain passes through, outermost
/// first.
pub open spec fn spec_walk_prefixes(base: Seq<u8>, subs: Seq<Seq<u8>>) -> Seq<Seq<u8>>
    decreases subs.len(),
{
    if subs.len() == 0 {
        Seq::empty()
    } else {
        spec_walk_prefixes(base, subs.drop_last()).push(spec_walk(base, subs))
    }
}

/// The non-empty names between separators, in order: the component
/// chain of a relative path.
pub open spec fn components_of(p: Seq<u8>) -> Seq<Seq<u8>>
    decreases p.len(),
{
    if p.len() == 0 {
        Seq::empty()
    } else {
        let k = last_byte_at(p, SLASH);
        if !(0 <= k && k < p.len()) {
            seq![p]
        } else if k == p.len() - 1 {
            components_of(p.take(k))
        } else {
            components_of(p.take(k)).push(p.subrange(k + 1, p.len() as int))
        }
    }
}

/// Splits a path into its component names, dropping separators and
/// empty pieces.
pub fn split_components(p: &[u8]) -> (r: Vec<Vec<u8>>)
    ensures
        byte_views(r@) == components_of(p@),
    decreases p@.len(),
{
    let plen = p.len();
    if plen == 0 {
        let r: Vec<Vec<u8>> = Vec::new();
        proof {
            assert(byte_views(r@) =~= components_of(p@));
        }
        return r;
    }
    match rfind_byte(p, SLASH) {
        None => {
            let mut r: Vec<Vec<u8>> = Vec::new();
            r.push(copy_bytes(p));
            proof {
                assert(byte_views(r@) =~= seq![p@]);
            }
            r
        },
        Some(k) => {
            let head = vstd::slice::slice_subrange(p, 0, k);
            proof {
                assert(head@ =~= p@.take(k as int));
            }
            if k == plen - 1 {
                split_components(head)
            } else {
                let mut r = split_components(head);
                let ghost before = r@;
                let tail = vstd::slice::slice_subrange(p, k + 1, plen);
                r.push(copy_bytes(tail));
                proof {
                    assert(byte_views(r@) =~= byte_views(before).push(tail@));
                }
                r
            }
        },
    }
}

/// A path anchored at the root: it begins with the separator.
pub open spec fn spec_is_absolute(p: Seq<u8>) -> bool {
    p.len() > 0 && p[0] == SLASH
}

/// A component chain without its `.` names, which point back at their
/// own directory and carry nothing.
pub open spec fn drop_dots(comps: Seq<Seq<u8>>) -> Seq<Seq<u8>>
    decreases comps.len(),
{
    if comps.len() == 0 {
        Seq::empty()
    } else {
        let rest = drop_dots(comps.drop_last());
        if comps.last() == seq![46u8] {
            rest
        } else {
            rest.push(comps.last())
        }
    }
}

/// The component-normalized form of a path: its non-empty, non-`.`
/// names rejoined with single separators, under the leading separator
/// if the path was absolute.  Collapses repeated and trailing
/// separators and inner `.` names; `..` names are kept.
pub open spec fn spec_normalize(p: Seq<u8>) -> Seq<u8> {
    spec_walk(
        if spec_is_absolute(p) {
            seq![SLASH]
        } else {
            Seq::<u8>::empty()
        },
        drop_dots(components_of(p)),
    )
}

/// Rebuilds a path from its component names: the normalization the
/// output directory is stored under.
pub fn normalize_path(p: &[u8]) -> (r: Vec<u8>)
    ensures
        r@ == spec_normalize(p@),
{
    let comps = split_components(p);
    let mut out: Vec<u8> = Vec::new();
    if p.len() > 0 && p[0] == SLASH {
        out.push(SLASH);
        proof {
            assert(out@ =~= seq![SLASH]);
        }
    }
    let ghost base = out@;
    let n = comps.len();
    let mut i: usize = 0;
    proof {
        assert(byte_views(comps@).take(0) =~= Seq::<Seq<u8>>::empty());
        assert(out@ == spec_walk(base, drop_dots(byte_views(comps@).take(0))));
    }
    while i < n
        invariant
            n == comps@.len(),
            0 <= i <= n,
            byte_views(comps@) == components_of(p@),
            out@ == spec_walk(base, drop_dots(byte_views(comps@).take(i as int))),
        decreases n - i,
    {
        let c = &comps[i];
        proof {
            let views = byte_views(comps@);
            assert(views.take(i as int + 1).drop_last() =~= views.take(i as int));
            assert(views.take(i as int + 1).last() == views[i as int]);
        }
        if !(c.len() == 1 && c[0] == 46) {
            out = path_join(out.as_slice(), c.as_slice());
            proof {
                let views = byte_views(comps@);
                let kept = drop_dots(views.take(i as int));
                let kept2 = drop_dots(views.take(i as int + 1));
                assert(views[i as int] != seq![46u8]);
                assert(kept2 == kept.push(views[i as int]));
                assert(kept2.drop_last() =~= kept);
                assert(kept2.len() > 0 && kept2.last() == views[i as int]);
                assert(out@ == spec_walk(base, kept2));
            }
        } else {
            proof {
                assert(comps@[i as int]@ =~= seq![46u8]);
                assert(drop_dots(byte_views(comps@).take(i as int + 1)) == drop_dots(
                    byte_views(comps@).take(i as int),
                ));
            }
        }
        i += 1;
    }
    proof {
        assert(byte_views(comps@).take(n as int) =~= byte_views(comps@));
    }
    out
}

/// `p` lies inside `root`'s subtree (or is `root` itself): `root` is a
/// prefix of `p` and the prefix ends on a name boundary.
pub open spec fn spec_is_under(p: Seq<u8>, root: Seq<u8>) -> bool {
    p.len() >= root.len() && p.take(root.len() as int) == root && (p.len() == root.len() || (
    root.len() > 0 && root.last() == SLASH) || p[root.len() as int] == SLASH)
}

/// Whether `p` lies inside `root`'s subtree; the check recursive
/// enumeration uses to keep the output root out of its own scan.
pub fn is_under(p: &[u8], root: &[u8]) -> (r: bool)
    ensures
        r == spec_is_under(p@, root@),
{
    let rl = root.len();
    if p.len() < rl {
        return false;
    }
    let prefix = vstd::slice::slice_subrange(p, 0, rl);
    if !bytes_eq(prefix, root) {
        proof {
            assert(p@.take(rl as int) =~= prefix@);
        }
        return false;
    }
    proof {
        assert(p@.take(rl as int) =~= prefix@);
    }
    if p.len() == rl {
        return true;
    }
    if rl > 0 && root[rl - 1] == SLASH {
        return true;
    }
    p[rl] == SLASH
}

/// The part of `p` below `root`, when `p` lies in `root`'s subtree.
pub fn relative_to(p: &[u8], root: &[u8]) -> (r: Option<Vec<u8>>)
    ensures
        spec_is_under(p@, root@) ==> (r matches Some(q) && q@ == p@.skip(root@.len() as int)),
        !spec_is_under(p@, root@) ==> r is None,
{
    if is_under(p, root) {
        let tail = vstd::slice::slice_subrange(p, root.len(), p.len());
        proof {
            assert(tail@ =~= p@.skip(root@.len() as int));
        }
        Some(copy_bytes(tail))
    } else {
        None
    }
}

/// Appends every byte of `piece` to `out`.
pub fn push_all(out: &mut Vec<u8>, piece: &[u8])
    ensures
        final(out)@ == old(out)@ + piece@,
{
    let mut i: usize = 0;
    while i < piece.len()
        invariant
            0 <= i <= piece@.len(),
            out@ == old(out)@ + piece@.subrange(0, i as int),
        decreases piece@.len() - i,
    {
        out.push(piece[i]);
        proof {
            assert(out@ =~= old(out)@ + piece@.subrange(0, i as int + 1));
        }
        i += 1;
    }
    proof {
        assert(out@ =~= old(out)@ + piece@);
    }
}

/// Copies a byte string.
pub fn copy_bytes(p: &[u8]) -> (r: Vec<u8>)
    ensures
        r@ == p@,
{
    let mut out: Vec<u8> = Vec::new();
    push_all(&mut out, p);
    proof {
        assert(out@ =~= p@);
    }
    out
}

/// `s` ends with `suffix`, ASCII case-insensitively.
pub fn has_suffix_ci(s: &[u8], suffix: &[u8]) -> (r: bool)
    ensures
        r == spec_has_suffix_ci(s@, suffix@),
{
    if s.len() < suffix.len() {
        return false;
    }
    let start: usize = s.len() - suffix.len();
    let tail = vstd::slice::slice_subrange(s, start, s.len());
    bytes_eq_ci(tail, suffix)
}

} // verus!
