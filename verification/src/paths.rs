//! Paths as byte strings, and the little arithmetic of names this library
//! needs: where a file name starts, where its extension begins, what the
//! backup name of a path is, and where a symlink's target must be looked up.
//!
//! Paths are plain Unix byte strings (`Vec<u8>`); the surrounding binary
//! converts between them and `PathBuf`.

use vstd::prelude::*;

verus! {

/// Path separator.
pub const SLASH: u8 = 47;

/// Extension separator.
pub const DOT: u8 = 46;

/// The fixed suffix appended to a path when its occupant is preserved:
/// `.bkp` as bytes.
pub open spec fn bkp_suffix() -> Seq<u8> {
    seq![DOT, 98u8, 107u8, 112u8]
}

/// Index of the last occurrence of `c` in `s`, if there is one.
pub open spec fn last_occurrence(s: Seq<u8>, c: u8) -> Option<int>
    decreases s.len(),
{
    if s.len() == 0 {
        None
    } else if s[s.len() - 1] == c {
        Some(s.len() - 1)
    } else {
        last_occurrence(s.drop_last(), c)
    }
}

/// `last_occurrence` is the position of `c` with nothing but other bytes
/// after it.
pub proof fn lemma_last_occurrence_at(s: Seq<u8>, c: u8, i: int)
    requires
        0 <= i < s.len(),
        s[i] == c,
        forall|k: int| i < k < s.len() ==> s[k] != c,
    ensures
        last_occurrence(s, c) == Some(i),
    decreases s.len(),
{
    if i < s.len() - 1 {
        lemma_last_occurrence_at(s.drop_last(), c, i);
    }
}

/// A byte string without `c` has no last occurrence of it.
pub proof fn lemma_last_occurrence_none(s: Seq<u8>, c: u8)
    requires
        forall|k: int| 0 <= k < s.len() ==> s[k] != c,
    ensures
        last_occurrence(s, c) is None,
    decreases s.len(),
{
    if s.len() > 0 {
        lemma_last_occurrence_none(s.drop_last(), c);
    }
}

/// Find the last occurrence of `c` in `s`, scanning from the end.
fn rfind_byte(s: &Vec<u8>, c: u8) -> (r: Option<usize>)
    ensures
        match r {
            Some(i) => i < s@.len() && last_occurrence(s@, c) == Some(i as int),
            None => last_occurrence(s@, c) is None,
        },
{
    let mut i: usize = s.len();
    while i > 0
        invariant
            i <= s@.len(),
            forall|k: int| i <= k < s@.len() ==> s@[k] != c,
        decreases i,
    {
        i = i - 1;
        if s[i] == c {
            proof {
                lemma_last_occurrence_at(s@, c, i as int);
            }
            return Some(i);
        }
    }
    proof {
        lemma_last_occurrence_none(s@, c);
    }
    None
}

/// The file name of a path starts right after its last slash, or at the
/// beginning when there is none.
pub open spec fn spec_name_start(p: Seq<u8>) -> int {
    match last_occurrence(p, SLASH) {
        Some(i) => i + 1,
        None => 0,
    }
}

/// Where the backup suffix cuts the path: at the dot of the file name's
/// extension when it has one (a dot that leads the file name does not count),
/// at the end otherwise.
pub open spec fn spec_backup_cut(p: Seq<u8>) -> int {
    match last_occurrence(p, DOT) {
        Some(j) => if j > spec_name_start(p) {
            j
        } else {
            p.len() as int
        },
        None => p.len() as int,
    }
}

/// The backup name of a path: its extension replaced by `bkp`, or `.bkp`
/// appended when the file name has no extension.
pub open spec fn spec_backup_name(p: Seq<u8>) -> Seq<u8> {
    p.subrange(0, spec_backup_cut(p)) + bkp_suffix()
}

/// Compute the backup name of a path.
pub fn backup_name(p: &Vec<u8>) -> (r: Vec<u8>)
    ensures
        r@ == spec_backup_name(p@),
{
    let slash = rfind_byte(p, SLASH);
    let dot = rfind_byte(p, DOT);
    proof {
        assert(p@.len() == p.len());
    }
    let name_start: usize = match slash {
        Some(i) => i + 1,
        None => 0,
    };
    let cut: usize = match dot {
        Some(j) => if j > name_start {
            j
        } else {
            p.len()
        },
        None => p.len(),
    };
    let mut r: Vec<u8> = Vec::new();
    let mut k: usize = 0;
    while k < cut
        invariant
            k <= cut,
            cut <= p@.len(),
            r@ == p@.subrange(0, k as int),
        decreases cut - k,
    {
        r.push(p[k]);
        proof {
            assert(r@ =~= p@.subrange(0, k + 1));
        }
        k = k + 1;
    }
    r.push(DOT);
    r.push(98);
    r.push(107);
    r.push(112);
    proof {
        assert(r@ =~= spec_backup_name(p@));
    }
    r
}

/// The parent of a path: everything before the last slash, a single slash
/// when that slash leads the path, and empty when the path has no slash.
pub open spec fn spec_parent(p: Seq<u8>) -> Seq<u8> {
    match last_occurrence(p, SLASH) {
        Some(i) => if i == 0 {
            p.subrange(0, 1)
        } else {
            p.subrange(0, i)
        },
        None => Seq::<u8>::empty(),
    }
}

/// A path is absolute when it starts with a slash.
pub open spec fn spec_is_absolute(p: Seq<u8>) -> bool {
    p.len() > 0 && p[0] == SLASH
}

/// The path at which a symlink's target must be looked up: an absolute
/// target stands alone; a relative one is resolved against the parent
/// directory of the link itself, never against the working directory.
pub open spec fn spec_link_candidate(link: Seq<u8>, target: Seq<u8>) -> Seq<u8> {
    if spec_is_absolute(target) {
        target
    } else {
        let par = spec_parent(link);
        if par.len() == 0 {
            target
        } else if par == seq![SLASH] {
            par + target
        } else {
            par + seq![SLASH] + target
        }
    }
}

/// Copy a byte string.
pub(crate) fn copy_bytes(p: &Vec<u8>) -> (r: Vec<u8>)
    ensures
        r@ == p@,
{
    let mut r: Vec<u8> = Vec::new();
    let mut k: usize = 0;
    while k < p.len()
        invariant
            k <= p@.len(),
            r@ == p@.subrange(0, k as int),
        decreases p@.len() - k,
    {
        r.push(p[k]);
        proof {
            assert(r@ =~= p@.subrange(0, k + 1));
        }
        k = k + 1;
    }
    proof {
        assert(r@ =~= p@);
    }
    r
}

/// Compare two byte strings.
pub(crate) fn bytes_eq(a: &Vec<u8>, b: &Vec<u8>) -> (r: bool)
    ensures
        r == (a@ == b@),
{
    if a.len() != b.len() {
        return false;
    }
    let mut k: usize = 0;
    while k < a.len()
        invariant
            k <= a@.len(),
            a@.len() == b@.len(),
            forall|i: int| 0 <= i < k ==> a@[i] == b@[i],
        decreases a@.len() - k,
    {
        if a[k] != b[k] {
            return false;
        }
        k = k + 1;
    }
    proof {
        assert(a@ =~= b@);
    }
    true
}

/// Resolve where a symlink's target points: the target itself when absolute,
/// the target joined onto the link's parent directory when relative.
pub fn link_target_candidate(link: &Vec<u8>, target: &Vec<u8>) -> (r: Vec<u8>)
    ensures
        r@ == spec_link_candidate(link@, target@),
{
    if target.len() > 0 && target[0] == SLASH {
        return copy_bytes(target);
    }
    let mut r: Vec<u8> = Vec::new();
    match rfind_byte(link, SLASH) {
        None => {},
        Some(i) => {
            let par_end: usize = if i == 0 {
                1
            } else {
                i
            };
            let mut k: usize = 0;
            while k < par_end
                invariant
                    k <= par_end,
                    par_end <= link@.len(),
                    r@ == link@.subrange(0, k as int),
                decreases par_end - k,
            {
                r.push(link[k]);
                proof {
                    assert(r@ =~= link@.subrange(0, k + 1));
                }
                k = k + 1;
            }
            proof {
                assert(r@ =~= spec_parent(link@));
            }
            if r.len() == 1 && r[0] == SLASH {
                proof {
                    assert(spec_parent(link@) =~= seq![SLASH]);
                }
            } else {
                r.push(SLASH);
                proof {
                    assert(r@ =~= spec_parent(link@) + seq![SLASH]);
                }
            }
        },
    }
    let ghost prefix = r@;
    let mut k: usize = 0;
    while k < target.len()
        invariant
            k <= target@.len(),
            r@ == prefix + target@.subrange(0, k as int),
        decreases target@.len() - k,
    {
        r.push(target[k]);
        proof {
            assert(r@ =~= prefix + target@.subrange(0, k + 1));
        }
        k = k + 1;
    }
    proof {
        assert(target@.subrange(0, target@.len() as int) =~= target@);
        assert(r@ =~= spec_link_candidate(link@, target@));
    }
    r
}

} // verus!
