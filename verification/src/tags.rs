//! The set of element names to elide, and the parser for its textual
//! form (a comma-separated list of names; empty pieces are ignored).

use vstd::prelude::*;

verus! {

/// The comma byte, the separator of the textual tag list.
pub const COMMA: u8 = 44;

/// `t` is one of the non-empty pieces found between commas in `s`.
pub open spec fn is_tag_segment(s: Seq<u8>, t: Seq<u8>) -> bool {
    exists|i: int, j: int|
        0 <= i < j <= s.len() && t == s.subrange(i, j) && (i == 0 || s[i - 1] == COMMA) && (j
            == s.len() || s[j] == COMMA) && (forall|k: int| i <= k < j ==> s[k] != COMMA)
}

/// The set of names that the textual form `s` denotes.
pub open spec fn tag_set_of(s: Seq<u8>) -> Set<Seq<u8>> {
    Set::new(|t: Seq<u8>| is_tag_segment(s, t))
}

/// `t` is a tag segment of `s` whose end lies strictly before `bound`.
pub open spec fn is_segment_before(s: Seq<u8>, t: Seq<u8>, bound: int) -> bool {
    exists|i: int, j: int|
        0 <= i < j <= s.len() && j < bound && t == s.subrange(i, j) && (i == 0 || s[i - 1]
            == COMMA) && (j == s.len() || s[j] == COMMA) && (forall|k: int|
            i <= k < j ==> s[k] != COMMA)
}

/// The segments of `s` that end before `bound`.
pub open spec fn seg_set_before(s: Seq<u8>, bound: int) -> Set<Seq<u8>> {
    Set::new(|t: Seq<u8>| is_segment_before(s, t, bound))
}

/// The set of byte strings a list of owned byte strings holds.
pub open spec fn names_of(elems: Seq<Vec<u8>>) -> Set<Seq<u8>> {
    Set::new(|t: Seq<u8>| exists|i: int| 0 <= i < elems.len() && elems[i]@ == t)
}

/// Clean tags configuration: the element names to remove, with their
/// whole subtrees.  The view of a value is the set of names it holds.
#[derive(Clone, Debug, PartialEq)]
pub struct Tags(pub Vec<Vec<u8>>);

impl View for Tags {
    type V = Set<Seq<u8>>;

    open spec fn view(&self) -> Set<Seq<u8>> {
        names_of(self.0@)
    }
}

impl Tags {
    /// Whether `tag` is one of the configured names.
    pub fn contains(&self, tag: &[u8]) -> (r: bool)
        ensures
            r == self@.contains(tag@),
    {
        let n = self.0.len();
        let mut i: usize = 0;
        while i < n
            invariant
                n == self.0@.len(),
                0 <= i <= n,
                forall|j: int| 0 <= j < i ==> self.0@[j]@ != tag@,
            decreases n - i,
        {
            if crate::paths::bytes_eq(self.0[i].as_slice(), tag) {
                return true;
            }
            i += 1;
        }
        false
    }

    /// Parses the textual form: the names between commas, empty pieces
    /// dropped.
    pub fn new(s: &[u8]) -> (r: Tags)
        ensures
            r@ == tag_set_of(s@),
    {
        let n = s.len();
        let mut elems: Vec<Vec<u8>> = Vec::new();
        let mut start: usize = 0;
        let mut j: usize = 0;
        proof {
            lemma_no_segment_before_zero(s@);
        }
        while j <= n
            invariant
                n == s@.len(),
                0 <= start <= j <= n,
                start == 0 || s@[start as int - 1] == COMMA,
                forall|k: int| start <= k < j ==> s@[k] != COMMA,
                names_of(elems@) == seg_set_before(s@, j as int),
            decreases n - j,
        {
            if j == n || s[j] == COMMA {
                if start != j {
                    let piece = vstd::slice::slice_subrange(s, start, j);
                    let mut owned: Vec<u8> = Vec::new();
                    crate::paths::push_all(&mut owned, piece);
                    let ghost old_elems = elems@;
                    elems.push(owned);
                    proof {
                        lemma_segment_step(s@, start as int, j as int);
                        assert(elems@[old_elems.len() as int]@ =~= s@.subrange(
                            start as int,
                            j as int,
                        ));
                        lemma_names_push(old_elems, elems@);
                        assert(names_of(elems@) =~= seg_set_before(s@, j as int + 1));
                    }
                } else {
                    proof {
                        lemma_no_segment_ends_here(s@, start as int, j as int);
                        assert(names_of(elems@) =~= seg_set_before(s@, j as int + 1));
                    }
                }
                if j == n {
                    let r = Tags(elems);
                    proof {
                        lemma_full_bound(s@);
                        assert(r@ =~= tag_set_of(s@));
                    }
                    return r;
                }
                start = j + 1;
            } else {
                proof {
                    lemma_no_segment_mid(s@, j as int);
                    assert(names_of(elems@) =~= seg_set_before(s@, j as int + 1));
                }
            }
            j += 1;
        }
        // The boundary at `j == n` always returns, so the loop cannot
        // run off its end.
        let r = Tags(elems);
        proof {
            lemma_full_bound(s@);
            assert(r@ =~= tag_set_of(s@));
        }
        r
    }
}

/// The bytes of the name `binary`.
pub open spec fn tag_binary() -> Seq<u8> {
    seq![98u8, 105u8, 110u8, 97u8, 114u8, 121u8]
}

/// The bytes of the name `coverpage`.
pub open spec fn tag_coverpage() -> Seq<u8> {
    seq![99u8, 111u8, 118u8, 101u8, 114u8, 112u8, 97u8, 103u8, 101u8]
}

/// The bytes of the name `image`.
pub open spec fn tag_image() -> Seq<u8> {
    seq![105u8, 109u8, 97u8, 103u8, 101u8]
}

/// The tag set used when none is configured.
pub open spec fn default_tag_set() -> Set<Seq<u8>> {
    set![tag_binary(), tag_coverpage(), tag_image()]
}

impl Default for Tags {
    /// The default configuration: the names `binary`, `coverpage` and
    /// `image`.
    fn default() -> (r: Tags)
        ensures
            r@ == default_tag_set(),
    {
        let binary: Vec<u8> = vec![98u8, 105u8, 110u8, 97u8, 114u8, 121u8];
        let coverpage: Vec<u8> = vec![99u8, 111u8, 118u8, 101u8, 114u8, 112u8, 97u8, 103u8, 101u8];
        let image: Vec<u8> = vec![105u8, 109u8, 97u8, 103u8, 101u8];
        let mut elems: Vec<Vec<u8>> = Vec::new();
        elems.push(binary);
        elems.push(coverpage);
        elems.push(image);
        let r = Tags(elems);
        proof {
            assert(r.0@[0]@ =~= tag_binary());
            assert(r.0@[1]@ =~= tag_coverpage());
            assert(r.0@[2]@ =~= tag_image());
            assert forall|t: Seq<u8>| #[trigger] r@.contains(t) <==> default_tag_set().contains(
                t,
            ) by {
                if r@.contains(t) {
                    let i = choose|i: int| 0 <= i < r.0@.len() && r.0@[i]@ == t;
                    assert(i == 0 || i == 1 || i == 2);
                }
                if t == tag_binary() {
                    assert(r.0@[0]@ == t);
                }
                if t == tag_coverpage() {
                    assert(r.0@[1]@ == t);
                }
                if t == tag_image() {
                    assert(r.0@[2]@ == t);
                }
            }
            assert(r@ =~= default_tag_set());
        }
        r
    }
}

/// No segment ends before position zero.
proof fn lemma_no_segment_before_zero(s: Seq<u8>)
    ensures
        names_of(Seq::<Vec<u8>>::empty()) == seg_set_before(s, 0),
{
    assert(names_of(Seq::<Vec<u8>>::empty()) =~= seg_set_before(s, 0));
}

/// Segments ending before the length bound plus one are exactly all
/// segments.
proof fn lemma_full_bound(s: Seq<u8>)
    ensures
        seg_set_before(s, s.len() as int + 1) == tag_set_of(s),
{
    assert forall|t: Seq<u8>| #[trigger] seg_set_before(s, s.len() as int + 1).contains(t)
        <==> tag_set_of(s).contains(t) by {
        if is_segment_before(s, t, s.len() as int + 1) {
            assert(is_tag_segment(s, t));
        }
        if is_tag_segment(s, t) {
            let (i2, j2) = choose|i2: int, j2: int|
                0 <= i2 < j2 <= s.len() && t == s.subrange(i2, j2) && (i2 == 0 || s[i2 - 1]
                    == COMMA) && (j2 == s.len() || s[j2] == COMMA) && (forall|k: int|
                    i2 <= k < j2 ==> s[k] != COMMA);
            assert(j2 < s.len() as int + 1);
            assert(is_segment_before(s, t, s.len() as int + 1));
        }
    }
    assert(seg_set_before(s, s.len() as int + 1) =~= tag_set_of(s));
}

/// Pushing one byte string onto a list adds exactly its view to the set
/// of names.
proof fn lemma_names_push(old_elems: Seq<Vec<u8>>, new_elems: Seq<Vec<u8>>)
    requires
        new_elems.len() == old_elems.len() as int + 1,
        forall|i: int| 0 <= i < old_elems.len() ==> new_elems[i] == old_elems[i],
    ensures
        names_of(new_elems) == names_of(old_elems).insert(new_elems[old_elems.len() as int]@),
{
    let added = new_elems[old_elems.len() as int]@;
    assert forall|t: Seq<u8>| #[trigger] names_of(new_elems).contains(t) <==> names_of(
        old_elems,
    ).insert(added).contains(t) by {
        if names_of(new_elems).contains(t) {
            let i = choose|i: int| 0 <= i < new_elems.len() && new_elems[i]@ == t;
            if i < old_elems.len() {
                assert(old_elems[i]@ == t);
                assert(names_of(old_elems).contains(t));
            } else {
                assert(t == added);
            }
        }
        if names_of(old_elems).contains(t) {
            let i = choose|i: int| 0 <= i < old_elems.len() && old_elems[i]@ == t;
            assert(new_elems[i]@ == t);
            assert(names_of(new_elems).contains(t));
        }
        if t == added {
            assert(new_elems[old_elems.len() as int]@ == t);
            assert(names_of(new_elems).contains(t));
        }
    }
    assert(names_of(new_elems) =~= names_of(old_elems).insert(added));
}

/// At a boundary `j` whose current piece `[start, j)` is non-empty, the
/// only segment that ends at `j` is that piece.
proof fn lemma_segment_step(s: Seq<u8>, start: int, j: int)
    requires
        0 <= start < j <= s.len(),
        start == 0 || s[start - 1] == COMMA,
        j == s.len() || s[j] == COMMA,
        forall|k: int| start <= k < j ==> s[k] != COMMA,
    ensures
        seg_set_before(s, j + 1) == seg_set_before(s, j).insert(s.subrange(start, j)),
{
    let piece = s.subrange(start, j);
    assert forall|t: Seq<u8>| #[trigger] seg_set_before(s, j + 1).contains(t) <==> seg_set_before(
        s,
        j,
    ).insert(piece).contains(t) by {
        if is_segment_before(s, t, j + 1) && !is_segment_before(s, t, j) {
            let (i2, j2) = choose|i2: int, j2: int|
                0 <= i2 < j2 <= s.len() && j2 < j + 1 && t == s.subrange(i2, j2) && (i2 == 0 || s[i2
                    - 1] == COMMA) && (j2 == s.len() || s[j2] == COMMA) && (forall|k: int|
                    i2 <= k < j2 ==> s[k] != COMMA);
            assert(j2 == j);
            if i2 < start {
                assert(s[start - 1] == COMMA);
                assert(i2 <= start - 1 < j2);
                assert(false);
            }
            if i2 > start {
                assert(s[i2 - 1] == COMMA);
                assert(start <= i2 - 1 < j);
                assert(false);
            }
            assert(t == piece);
        }
        if t == piece {
            assert(0 <= start < j <= s.len() && j < j + 1 && t == s.subrange(start, j) && (start
                == 0 || s[start - 1] == COMMA) && (j == s.len() || s[j] == COMMA) && (forall|k: int|
                start <= k < j ==> s[k] != COMMA));
            assert(is_segment_before(s, t, j + 1));
        }
        if is_segment_before(s, t, j) {
            let (i2, j2) = choose|i2: int, j2: int|
                0 <= i2 < j2 <= s.len() && j2 < j && t == s.subrange(i2, j2) && (i2 == 0 || s[i2
                    - 1] == COMMA) && (j2 == s.len() || s[j2] == COMMA) && (forall|k: int|
                    i2 <= k < j2 ==> s[k] != COMMA);
            assert(is_segment_before(s, t, j + 1));
        }
    }
    assert(seg_set_before(s, j + 1) =~= seg_set_before(s, j).insert(piece));
}

/// At a boundary `j` whose current piece is empty, no segment ends at
/// `j`.
proof fn lemma_no_segment_ends_here(s: Seq<u8>, start: int, j: int)
    requires
        0 <= start == j <= s.len(),
        start == 0 || s[start - 1] == COMMA,
    ensures
        seg_set_before(s, j + 1) == seg_set_before(s, j),
{
    assert forall|t: Seq<u8>| #[trigger] seg_set_before(s, j + 1).contains(t) <==> seg_set_before(
        s,
        j,
    ).contains(t) by {
        if is_segment_before(s, t, j + 1) && !is_segment_before(s, t, j) {
            let (i2, j2) = choose|i2: int, j2: int|
                0 <= i2 < j2 <= s.len() && j2 < j + 1 && t == s.subrange(i2, j2) && (i2 == 0 || s[i2
                    - 1] == COMMA) && (j2 == s.len() || s[j2] == COMMA) && (forall|k: int|
                    i2 <= k < j2 ==> s[k] != COMMA);
            assert(j2 == j);
            assert(i2 < j2);
            assert(j >= 1 && s[j - 1] == COMMA);
            assert(i2 <= j - 1 < j2);
            assert(false);
        }
        if is_segment_before(s, t, j) {
            let (i2, j2) = choose|i2: int, j2: int|
                0 <= i2 < j2 <= s.len() && j2 < j && t == s.subrange(i2, j2) && (i2 == 0 || s[i2
                    - 1] == COMMA) && (j2 == s.len() || s[j2] == COMMA) && (forall|k: int|
                    i2 <= k < j2 ==> s[k] != COMMA);
            assert(is_segment_before(s, t, j + 1));
        }
    }
    assert(seg_set_before(s, j + 1) =~= seg_set_before(s, j));
}

/// In the middle of a piece (no comma at `j`), no segment ends at `j`.
proof fn lemma_no_segment_mid(s: Seq<u8>, j: int)
    requires
        0 <= j < s.len(),
        s[j] != COMMA,
    ensures
        seg_set_before(s, j + 1) == seg_set_before(s, j),
{
    assert forall|t: Seq<u8>| #[trigger] seg_set_before(s, j + 1).contains(t) <==> seg_set_before(
        s,
        j,
    ).contains(t) by {
        if is_segment_before(s, t, j + 1) && !is_segment_before(s, t, j) {
            let (i2, j2) = choose|i2: int, j2: int|
                0 <= i2 < j2 <= s.len() && j2 < j + 1 && t == s.subrange(i2, j2) && (i2 == 0 || s[i2
                    - 1] == COMMA) && (j2 == s.len() || s[j2] == COMMA) && (forall|k: int|
                    i2 <= k < j2 ==> s[k] != COMMA);
            assert(j2 == j);
            assert(false);
        }
        if is_segment_before(s, t, j) {
            let (i2, j2) = choose|i2: int, j2: int|
                0 <= i2 < j2 <= s.len() && j2 < j && t == s.subrange(i2, j2) && (i2 == 0 || s[i2
                    - 1] == COMMA) && (j2 == s.len() || s[j2] == COMMA) && (forall|k: int|
                    i2 <= k < j2 ==> s[k] != COMMA);
            assert(is_segment_before(s, t, j + 1));
        }
    }
    assert(seg_set_before(s, j + 1) =~= seg_set_before(s, j));
}

} // verus!
