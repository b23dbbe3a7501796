//! Paths as the protocol sees them: component lists on the sender, byte
//! strings on the wire, and the safety rule that keeps a received relative
//! path inside the destination directory.

use vstd::prelude::*;

verus! {

use crate::FilePath;

/// The path separator byte, `/`.
pub const SEP: u8 = 47;

/// The byte `.`.
pub const DOT: u8 = 46;

impl View for FilePath {
    type V = Seq<Seq<u8>>;

    open spec fn view(&self) -> Seq<Seq<u8>> {
        self.components.deep_view()
    }
}

impl DeepView for FilePath {
    type V = Seq<Seq<u8>>;

    open spec fn deep_view(&self) -> Seq<Seq<u8>> {
        self.view()
    }
}

/// The parent of a path: its components without the file name. The empty
/// path is its own parent.
pub open spec fn parent_of(c: Seq<Seq<u8>>) -> Seq<Seq<u8>> {
    if c.len() == 0 {
        c
    } else {
        c.drop_last()
    }
}

/// The directory common to a list of files, as the protocol defines it:
/// start from the parent of the first file and replace the candidate
/// whenever a later file's parent has strictly fewer components. Ties keep
/// the incumbent.
pub open spec fn spec_common_folder(files: Seq<Seq<Seq<u8>>>) -> Seq<Seq<u8>>
    recommends
        files.len() >= 1,
    decreases files.len(),
{
    if files.len() <= 1 {
        parent_of(files[0])
    } else {
        let prev = spec_common_folder(files.drop_last());
        let cur = parent_of(files.last());
        if cur.len() < prev.len() {
            cur
        } else {
            prev
        }
    }
}

/// Computes the common folder of the selected files.
#[verifier::loop_isolation(false)]
pub fn common_folder(files: &Vec<FilePath>) -> (r: FilePath)
    requires
        files@.len() >= 1,
    ensures
        r@ == spec_common_folder(files.deep_view()),
{
    let ghost views: Seq<Seq<Seq<u8>>> = files.deep_view();
    let first = &files[0];
    let mut best_idx: usize = 0;
    let mut best_len: usize = if first.components.len() == 0 {
        0
    } else {
        first.components.len() - 1
    };
    proof {
        assert(views[0] == files[0]@);
        assert(views.take(1).drop_last() =~= views.take(0));
        assert(views.take(1)[0] == views[0]);
        assert(best_len as int == parent_of(views[0]).len());
        assert(spec_common_folder(views.take(1)) == parent_of(views[0]));
    }
    let mut i: usize = 1;
    while i < files.len()
        invariant
            1 <= i <= files@.len(),
            best_idx < i,
            views == files.deep_view(),
            spec_common_folder(views.take(i as int)) == parent_of(views[best_idx as int]),
            best_len as int == parent_of(views[best_idx as int]).len(),
            best_len as int <= views[best_idx as int].len(),
        decreases files@.len() - i,
    {
        let cur = &files[i];
        let cur_len: usize = if cur.components.len() == 0 {
            0
        } else {
            cur.components.len() - 1
        };
        proof {
            assert(views[i as int] == files[i as int]@);
            assert(cur_len as int == parent_of(views[i as int]).len());
            assert(views.take(i + 1).drop_last() =~= views.take(i as int));
            assert(views.take(i + 1).last() == views[i as int]);
        }
        if cur_len < best_len {
            best_idx = i;
            best_len = cur_len;
        }
        i += 1;
    }
    proof {
        assert(views.take(files@.len() as int) =~= views);
    }
    let src = &files[best_idx];
    let mut components: Vec<Vec<u8>> = Vec::new();
    let mut j: usize = 0;
    while j < best_len
        invariant
            j <= best_len,
            best_idx < files@.len(),
            best_len as int <= views[best_idx as int].len(),
            views == files.deep_view(),
            src == files[best_idx as int],
            components.deep_view() =~= views[best_idx as int].take(j as int),
        decreases best_len - j,
    {
        components.push(vstd::slice::slice_to_vec(files[best_idx].components[j].as_slice()));
        proof {
            assert(components.deep_view() =~= views[best_idx as int].take(j + 1));
        }
        j += 1;
    }
    let r = FilePath { components };
    proof {
        assert(parent_of(views[best_idx as int]) =~= views[best_idx as int].take(
            parent_of(views[best_idx as int]).len() as int,
        ));
        assert(r@ =~= parent_of(views[best_idx as int]));
    }
    r
}

/// The byte form of a component list: components joined by `/`.
pub open spec fn spec_join(comps: Seq<Seq<u8>>) -> Seq<u8>
    decreases comps.len(),
{
    if comps.len() == 0 {
        Seq::empty()
    } else if comps.len() == 1 {
        comps[0]
    } else {
        comps[0] + seq![SEP] + spec_join(comps.drop_first())
    }
}

/// Joining after appending one component extends the bytes by a separator
/// and that component.
pub proof fn lemma_join_push(comps: Seq<Seq<u8>>, c: Seq<u8>)
    ensures
        comps.len() == 0 ==> spec_join(comps.push(c)) == c,
        comps.len() > 0 ==> spec_join(comps.push(c)) == spec_join(comps) + seq![SEP] + c,
    decreases comps.len(),
{
    if comps.len() == 0 {
        assert(spec_join(comps.push(c)) == comps.push(c)[0]);
        assert(comps.push(c)[0] == c);
    } else if comps.len() == 1 {
        assert(comps.push(c).drop_first() =~= seq![c]);
        assert(comps.push(c)[0] == comps[0]);
        assert(spec_join(seq![c]) == c);
        assert(spec_join(comps.push(c)) =~= comps[0] + seq![SEP] + c);
        assert(spec_join(comps) == comps[0]);
    } else {
        lemma_join_push(comps.drop_first(), c);
        assert(comps.push(c).drop_first() =~= comps.drop_first().push(c));
        assert(spec_join(comps.push(c)) == comps[0] + seq![SEP] + spec_join(
            comps.drop_first().push(c),
        ));
        assert(spec_join(comps) + seq![SEP] + c == comps[0] + seq![SEP] + (spec_join(
            comps.drop_first(),
        ) + seq![SEP] + c));
        assert(spec_join(comps.push(c)) =~= spec_join(comps) + seq![SEP] + c);
    }
}

/// Whether `prefix` is a leading run of `whole`.
pub open spec fn is_component_prefix(prefix: Seq<Seq<u8>>, whole: Seq<Seq<u8>>) -> bool {
    prefix.len() <= whole.len() && whole.take(prefix.len() as int) == prefix
}

/// The relative wire path of `file` under `ancestor`: the components after
/// the ancestor prefix, joined by `/`. `None` when the ancestor is not a
/// prefix of the file's path or nothing remains below it.
pub fn relative_path_bytes(file: &FilePath, ancestor: &FilePath) -> (r: Option<Vec<u8>>)
    ensures
        match r {
            Some(bytes) => is_component_prefix(ancestor@, file@) && file@.len() > ancestor@.len()
                && bytes@ == spec_join(file@.skip(ancestor@.len() as int)),
            None => !is_component_prefix(ancestor@, file@) || file@.len() == ancestor@.len(),
        },
{
    let alen = ancestor.components.len();
    let flen = file.components.len();
    if alen >= flen {
        proof {
            if alen > flen {
                assert(!is_component_prefix(ancestor@, file@));
            }
        }
        return None;
    }
    let mut i: usize = 0;
    while i < alen
        invariant
            i <= alen,
            alen < flen,
            alen == ancestor@.len(),
            flen == file@.len(),
            forall|j: int| 0 <= j < i ==> ancestor@[j] == file@[j],
        decreases alen - i,
    {
        if !byte_vecs_equal(&ancestor.components[i], &file.components[i]) {
            proof {
                assert(ancestor@[i as int] =~= ancestor.components@[i as int]@);
                assert(file@[i as int] =~= file.components@[i as int]@);
                assert(file@.take(alen as int)[i as int] == file@[i as int]);
                assert(!is_component_prefix(ancestor@, file@));
            }
            return None;
        }
        proof {
            assert(ancestor@[i as int] =~= ancestor.components@[i as int]@);
            assert(file@[i as int] =~= file.components@[i as int]@);
            assert(ancestor@[i as int] == file@[i as int]);
        }
        i += 1;
    }
    proof {
        assert(file@.take(alen as int) =~= ancestor@);
    }
    let mut out: Vec<u8> = Vec::new();
    let ghost suffix: Seq<Seq<u8>> = file@.skip(alen as int);
    let mut k: usize = alen;
    while k < flen
        invariant
            alen <= k <= flen,
            alen == ancestor@.len(),
            flen == file@.len(),
            suffix == file@.skip(alen as int),
            out@ == spec_join(suffix.take(k - alen)),
            k > alen ==> out@.len() > 0 || spec_join(suffix.take(k - alen)).len() == 0,
        decreases flen - k,
    {
        if k > alen {
            out.push(SEP);
        }
        let mut b: usize = 0;
        let comp = &file.components[k];
        while b < comp.len()
            invariant
                b <= comp@.len(),
                comp == file.components[k as int],
                alen <= k < flen,
                flen == file@.len(),
                suffix == file@.skip(alen as int),
                k > alen ==> out@ == spec_join(suffix.take(k - alen)) + seq![SEP] + comp@.take(
                    b as int,
                ),
                k == alen ==> out@ == comp@.take(b as int),
            decreases comp@.len() - b,
        {
            out.push(comp[b]);
            proof {
                if k > alen {
                    assert(out@ =~= spec_join(suffix.take(k - alen)) + seq![SEP] + comp@.take(
                        b + 1,
                    ));
                } else {
                    assert(out@ =~= comp@.take(b + 1));
                }
            }
            b += 1;
        }
        proof {
            assert(comp@.take(comp@.len() as int) =~= comp@);
            assert(suffix.take(k - alen).push(suffix[k - alen]) =~= suffix.take(k - alen + 1));
            assert(suffix[k - alen] == file@[k as int]);
            assert(comp@ == file@[k as int]);
            lemma_join_push(suffix.take(k - alen), suffix[k - alen]);
            if k == alen {
                assert(out@ == spec_join(suffix.take(k - alen + 1)));
            } else {
                assert(out@ == spec_join(suffix.take(k - alen + 1)));
            }
        }
        k += 1;
    }
    proof {
        assert(suffix.take(flen - alen) =~= suffix);
    }
    Some(out)
}

/// Byte-vector equality.
pub fn byte_vecs_equal(a: &Vec<u8>, b: &Vec<u8>) -> (r: bool)
    ensures
        r == (a@ == b@),
{
    if a.len() != b.len() {
        return false;
    }
    let mut i: usize = 0;
    while i < a.len()
        invariant
            i <= a@.len(),
            a@.len() == b@.len(),
            forall|j: int| 0 <= j < i ==> a@[j] == b@[j],
        decreases a@.len() - i,
    {
        if a[i] != b[i] {
            return false;
        }
        i += 1;
    }
    proof {
        assert(a@ =~= b@);
    }
    true
}

/// Whether the bytes hold an empty path segment: a leading or trailing
/// separator, two adjacent separators, or nothing at all.
pub open spec fn has_empty_segment(p: Seq<u8>) -> bool {
    p.len() == 0 || p[0] == SEP || p[p.len() - 1] == SEP || exists|i: int|
        #![trigger p[i]]
        0 <= i < p.len() - 1 && p[i] == SEP && p[i + 1] == SEP
}

/// Composes the destination directory with a received relative path:
/// appends the path's `/`-separated segments to the directory's
/// components. Returns `None` instead of ever appending an empty or `..`
/// segment; a path that passed `validate_relative_path` and has no empty
/// segment always composes.
#[verifier::loop_isolation(false)]
pub fn compose_path(dest: &FilePath, rel: &[u8]) -> (r: Option<FilePath>)
    ensures
        match r {
            Some(fp) => {
                &&& fp@.len() > dest@.len()
                &&& fp@.take(dest@.len() as int) == dest@
                &&& spec_join(fp@.skip(dest@.len() as int)) == rel@
                &&& forall|k: int|
                    dest@.len() <= k < fp@.len() ==> (#[trigger] fp@[k]).len() >= 1 && fp@[k]
                        != seq![DOT, DOT]
                &&& forall|k: int, b: int|
                    dest@.len() <= k < fp@.len() && 0 <= b < fp@[k].len() ==> #[trigger] fp@[k][b]
                        != SEP
            },
            None => true,
        },
        valid_rel_path(rel@) && !has_empty_segment(rel@) ==> r is Some,
{
    let mut components: Vec<Vec<u8>> = Vec::new();
    let mut i: usize = 0;
    while i < dest.components.len()
        invariant
            i <= dest@.len(),
            components.deep_view() =~= dest@.take(i as int),
        decreases dest@.len() - i,
    {
        components.push(vstd::slice::slice_to_vec(dest.components[i].as_slice()));
        proof {
            assert(dest@[i as int] =~= dest.components@[i as int]@);
            assert(components.deep_view() =~= dest@.take(i + 1));
        }
        i += 1;
    }
    proof {
        assert(dest@.take(dest@.len() as int) =~= dest@);
    }
    if rel.len() == 0 {
        return None;
    }
    let dlen = dest.components.len();
    let mut pos: usize = 0;
    while pos < rel.len()
        invariant
            pos <= rel@.len(),
            rel@.len() > 0,
            dlen == dest@.len(),
            components.deep_view().len() >= dlen,
            components.deep_view().take(dlen as int) =~= dest@,
            pos == 0 ==> components.deep_view().len() == dlen,
            pos > 0 ==> components.deep_view().len() > dlen && pos <= rel@.len() && rel@[pos - 1]
                != SEP && spec_join(components.deep_view().skip(dlen as int)) == rel@.take(
                pos as int,
            ),
            pos < rel@.len() ==> pos == 0 || rel@[pos as int] == SEP,
            forall|k: int|
                dlen <= k < components.deep_view().len() ==> (#[trigger] components.deep_view()[k]).len()
                    >= 1 && components.deep_view()[k] != seq![DOT, DOT],
            forall|k: int, b: int|
                dlen <= k < components.deep_view().len() && 0 <= b
                    < components.deep_view()[k].len() ==> #[trigger] components.deep_view()[k][b]
                    != SEP,
        decreases rel@.len() - pos,
    {
        // At a segment boundary: step over the separator (if any) and read
        // the next segment.
        let seg_start = if pos == 0 {
            0
        } else {
            pos + 1
        };
        if seg_start >= rel.len() {
            // A trailing separator: empty final segment.
            proof {
                assert(rel@[rel@.len() - 1] == SEP);
                assert(has_empty_segment(rel@));
            }
            return None;
        }
        if rel[seg_start] == SEP {
            // Two separators in a row, or a leading separator.
            proof {
                if seg_start == 0 {
                    assert(rel@[0] == SEP);
                } else {
                    assert(rel@[seg_start - 1] == SEP && rel@[seg_start as int] == SEP);
                }
                assert(has_empty_segment(rel@));
            }
            return None;
        }
        let mut e: usize = seg_start;
        while e < rel.len() && rel[e] != SEP
            invariant
                seg_start <= e <= rel@.len(),
                forall|j: int| seg_start <= j < e ==> rel@[j] != SEP,
            decreases rel@.len() - e,
        {
            e += 1;
        }
        proof {
            assert(e > seg_start) by {
                if e == seg_start {
                    assert(rel@[seg_start as int] != SEP);
                }
            }
        }
        let seg = vstd::slice::slice_to_vec(vstd::slice::slice_subrange(rel, seg_start, e));
        if seg.len() == 2 && seg[0] == DOT && seg[1] == DOT {
            // A parent reference: never composed into the destination.
            proof {
                assert(rel@[seg_start as int] == DOT && rel@[seg_start + 1] == DOT);
                assert(seg_start == 0 || rel@[seg_start - 1] == SEP);
                assert(seg_start + 2 == rel@.len() || rel@[seg_start + 2] == SEP);
                assert(has_dotdot_segment(rel@));
            }
            return None;
        }
        let ghost old_cv = components.deep_view();
        components.push(seg);
        proof {
            let cv = components.deep_view();
            assert(cv =~~= old_cv.push(seg@));
            assert(cv.take(dlen as int) =~= dest@);
            let suff = cv.skip(dlen as int);
            let old_suff = old_cv.skip(dlen as int);
            assert(suff =~= old_suff.push(seg@));
            lemma_join_push(old_suff, seg@);
            if pos == 0 {
                assert(old_suff.len() == 0);
                assert(spec_join(suff) == seg@);
                assert(seg@ =~= rel@.subrange(seg_start as int, e as int));
                assert(spec_join(suff) =~= rel@.take(e as int));
            } else {
                assert(spec_join(suff) == spec_join(old_suff) + seq![SEP] + seg@);
                assert(spec_join(old_suff) == rel@.take(pos as int));
                assert(rel@[pos as int] == SEP);
                assert(spec_join(suff) =~= rel@.take(e as int));
            }
            assert(seg@.len() >= 1);
            assert(forall|b: int| 0 <= b < seg@.len() ==> #[trigger] seg@[b] != SEP);
            assert(seg@ != seq![DOT, DOT]) by {
                if seg@ == seq![DOT, DOT] {
                    assert(seg@.len() == 2 && seg@[0] == DOT && seg@[1] == DOT);
                }
            }
        }
        pos = e;
    }
    proof {
        assert(rel@.take(rel@.len() as int) =~= rel@);
        assert(components.deep_view().take(dlen as int) == dest@);
    }
    Some(FilePath { components })
}

/// Whether the bytes hold a `..` path segment: two dots bounded by the
/// string's ends or separators.
pub open spec fn has_dotdot_segment(p: Seq<u8>) -> bool {
    exists|i: int|
        #![trigger p[i]]
        0 <= i && i + 2 <= p.len() && p[i] == DOT && p[i + 1] == DOT && (i == 0 || p[i - 1]
            == SEP) && (i + 2 == p.len() || p[i + 2] == SEP)
}

/// A wire path the receiver accepts: non-empty, relative (no leading
/// separator), and without parent references.
pub open spec fn valid_rel_path(p: Seq<u8>) -> bool {
    1 <= p.len() && p[0] != SEP && !has_dotdot_segment(p)
}

/// Checks a received relative path before any file is touched: it must be
/// non-empty, must not be absolute, and must not contain a `..` segment.
#[verifier::loop_isolation(false)]
pub fn validate_relative_path(p: &[u8]) -> (r: bool)
    ensures
        r == valid_rel_path(p@),
{
    if p.len() == 0 {
        return false;
    }
    if p[0] == SEP {
        return false;
    }
    let mut i: usize = 0;
    while i < p.len() - 1
        invariant
            i + 1 <= p@.len(),
            forall|j: int|
                #![trigger p@[j]]
                0 <= j < i ==> !(j + 2 <= p@.len() && p@[j] == DOT && p@[j + 1] == DOT && (j == 0
                    || p@[j - 1] == SEP) && (j + 2 == p@.len() || p@[j + 2] == SEP)),
        decreases p@.len() - i,
    {
        if p[i] == DOT && p[i + 1] == DOT && (i == 0 || p[i - 1] == SEP) && (i + 2 == p.len() || p[i
            + 2] == SEP) {
            return false;
        }
        i += 1;
    }
    proof {
        assert(!has_dotdot_segment(p@));
    }
    true
}

} // verus!
