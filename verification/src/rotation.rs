//! Rotation of backups: the oldest files of a directory go once there are
//! more than a number to keep, never a protected file.
use vstd::prelude::*;
use crate::model::strings_view;
use crate::text::str_eq;

verus! {

/// A directory entry: its path, whether it is a regular file, and when it
/// was last modified (nanoseconds since the Unix epoch), when known.
#[derive(Debug)]
pub struct FileEntry {
    pub path: String,
    pub is_file: bool,
    pub modified: Option<i128>,
}

/// Modification times in order: unknown before known, earlier before later.
pub open spec fn older(a: Option<i128>, b: Option<i128>) -> bool {
    match (a, b) {
        (None, Some(_)) => true,
        (Some(x), Some(y)) => x < y,
        _ => false,
    }
}

/// A file that rotation may remove: a regular file that is not protected.
pub open spec fn prunable(f: FileEntry, protected: Seq<Seq<char>>) -> bool {
    f.is_file && !protected.contains(f.path@)
}

/// The prunable files by index, oldest first, ties in directory order,
/// each exactly once.
pub open spec fn is_age_order(files: Seq<FileEntry>, protected: Seq<Seq<char>>, order: Seq<usize>) -> bool {
    &&& forall|k: int| 0 <= k < order.len() ==> #[trigger] order[k] < files.len() && prunable(files[order[k] as int], protected)
    &&& forall|j: int| 0 <= j < files.len() && prunable(#[trigger] files[j], protected) ==> order.contains(j as usize)
    &&& order.no_duplicates()
    &&& forall|k: int, l: int|
        #![trigger order[k], order[l]]
        0 <= k < l < order.len() ==> !older(files[order[l] as int].modified, files[order[k] as int].modified)
    &&& forall|k: int, l: int|
        #![trigger order[k], order[l]]
        0 <= k < l < order.len() && files[order[k] as int].modified == files[order[l] as int].modified ==> order[k]
            < order[l]
}

/// What holds after the first `i` files.
#[verifier::opaque]
pub open spec fn age_inv(files: Seq<FileEntry>, protected: Seq<Seq<char>>, order: Seq<usize>, i: int) -> bool {
    &&& 0 <= i <= files.len()
    &&& forall|k: int| 0 <= k < order.len() ==> #[trigger] order[k] < i && prunable(files[order[k] as int], protected)
    &&& forall|j: int| 0 <= j < i && prunable(#[trigger] files[j], protected) ==> order.contains(j as usize)
    &&& order.no_duplicates()
    &&& forall|k: int, l: int|
        #![trigger order[k], order[l]]
        0 <= k < l < order.len() ==> !older(files[order[l] as int].modified, files[order[k] as int].modified)
    &&& forall|k: int, l: int|
        #![trigger order[k], order[l]]
        0 <= k < l < order.len() && files[order[k] as int].modified == files[order[l] as int].modified ==> order[k]
            < order[l]
}

/// Inserting a later file where the scan stopped keeps the order.
proof fn lemma_age_insert(files: Seq<FileEntry>, protected: Seq<Seq<char>>, order: Seq<usize>, p: int, i: usize)
    requires
        age_inv(files, protected, order, i as int),
        i < files.len(),
        prunable(files[i as int], protected),
        0 <= p <= order.len(),
        forall|k: int| 0 <= k < p ==> !older(files[i as int].modified, #[trigger] files[order[k] as int].modified),
        p < order.len() ==> older(files[i as int].modified, files[order[p] as int].modified),
    ensures
        age_inv(files, protected, order.insert(p, i), i + 1),
{
    reveal(age_inv);
    let new = order.insert(p, i);
    let m = files[i as int].modified;
    assert forall|k: int| 0 <= k < new.len() implies #[trigger] new[k] < i + 1 && prunable(files[new[k] as int], protected) by {
        if k < p {
            assert(new[k] == order[k]);
        } else if k > p {
            assert(new[k] == order[k - 1]);
        }
    }
    assert forall|j: int| 0 <= j < i + 1 && prunable(#[trigger] files[j], protected) implies new.contains(j as usize) by {
        if j == i {
            assert(new[p] == i);
        } else {
            assert(order.contains(j as usize));
            let k = choose|k: int| 0 <= k < order.len() && order[k] == j as usize;
            if k < p {
                assert(new[k] == j as usize);
            } else {
                assert(new[k + 1] == j as usize);
            }
        }
    }
    assert forall|k: int, l: int| 0 <= k < new.len() && 0 <= l < new.len() && k != l implies new[k] != new[l] by {
        let k0 = if k < p { k } else { k - 1 };
        let l0 = if l < p { l } else { l - 1 };
        if k != p && l != p {
            assert(new[k] == order[k0] && new[l] == order[l0]);
        } else if k == p {
            assert(new[l] == order[l0]);
        } else {
            assert(new[k] == order[k0]);
        }
    }
    assert forall|k: int, l: int| #![trigger new[k], new[l]] 0 <= k < l < new.len() implies !older(
        files[new[l] as int].modified,
        files[new[k] as int].modified,
    ) && (files[new[k] as int].modified == files[new[l] as int].modified ==> new[k] < new[l]) by {
        if l < p {
            assert(new[k] == order[k] && new[l] == order[l]);
        } else if l == p {
            assert(new[l] == i && new[k] == order[k]);
            assert(order[k] < i);
        } else if k == p {
            assert(new[k] == i && new[l] == order[l - 1]);
            if l - 1 > p {
                assert(!older(files[order[l - 1] as int].modified, files[order[p] as int].modified));
            }
        } else if k < p {
            assert(new[k] == order[k] && new[l] == order[l - 1]);
        } else {
            assert(new[k] == order[k - 1] && new[l] == order[l - 1]);
        }
    }
}

/// Whether a path is among the protected ones.
fn is_protected(protected: &[String], path: &str) -> (b: bool)
    ensures
        b == strings_view(protected@).contains(path@),
{
    let mut i: usize = 0;
    while i < protected.len()
        invariant
            i <= protected@.len(),
            forall|j: int| 0 <= j < i ==> strings_view(protected@)[j] != path@,
        decreases protected.len() - i,
    {
        assert(strings_view(protected@)[i as int] == protected@[i as int]@);
        if str_eq(protected[i].as_str(), path) {
            return true;
        }
        i += 1;
    }
    false
}

/// Whether one modification time is older than another.
fn is_older(a: Option<i128>, b: Option<i128>) -> (r: bool)
    ensures
        r == older(a, b),
{
    match (a, b) {
        (None, Some(_)) => true,
        (Some(x), Some(y)) => x < y,
        _ => false,
    }
}

/// The prunable files by index, oldest first.
fn age_order(files: &[FileEntry], protected: &[String]) -> (order: Vec<usize>)
    ensures
        is_age_order(files@, strings_view(protected@), order@),
{
    let ghost pv = strings_view(protected@);
    let mut order: Vec<usize> = Vec::new();
    let mut i: usize = 0;
    proof {
        reveal(age_inv);
    }
    while i < files.len()
        invariant
            i <= files@.len(),
            pv == strings_view(protected@),
            age_inv(files@, pv, order@, i as int),
        decreases files.len() - i,
    {
        let f = &files[i];
        if f.is_file && !is_protected(protected, f.path.as_str()) {
            let mut p: usize = 0;
            proof {
                reveal(age_inv);
            }
            while p < order.len()
                invariant
                    p <= order@.len(),
                    i < files@.len(),
                    f.modified == files@[i as int].modified,
                    forall|k: int| 0 <= k < order@.len() ==> #[trigger] order@[k] < i,
                    forall|k: int| 0 <= k < p ==> !older(files@[i as int].modified, #[trigger] files@[order@[k] as int].modified),
                ensures
                    p <= order@.len(),
                    forall|k: int| 0 <= k < p ==> !older(files@[i as int].modified, #[trigger] files@[order@[k] as int].modified),
                    p < order@.len() ==> older(files@[i as int].modified, files@[order@[p as int] as int].modified),
                decreases order.len() - p,
            {
                let j = order[p];
                assert(j < i);
                if is_older(f.modified, files[j].modified) {
                    break;
                }
                p += 1;
            }
            proof {
                lemma_age_insert(files@, pv, order@, p as int, i);
            }
            order.insert(p, i);
        } else {
            proof {
                reveal(age_inv);
            }
        }
        i += 1;
    }
    proof {
        reveal(age_inv);
    }
    order
}

/// How many files go when `keep` may stay of `total` files of which
/// `prunable` may go: as many as bring the total down to `keep`, but no
/// more than may go.
pub open spec fn prune_count(total: nat, prunable: nat, keep: usize) -> nat {
    let excess: nat = if total > keep {
        (total - keep) as nat
    } else {
        0
    };
    if excess < prunable {
        excess
    } else {
        prunable
    }
}

/// The number of regular files among entries (protected ones included).
pub open spec fn file_count(files: Seq<FileEntry>) -> nat
    decreases files.len(),
{
    if files.len() == 0 {
        0
    } else {
        file_count(files.drop_last()) + if files.last().is_file {
            1nat
        } else {
            0nat
        }
    }
}

/// The files to remove so that at most `keep` files stay, protected files
/// counted among them: the oldest unprotected files, oldest first, until
/// `keep` files remain or only protected files are left; protected files
/// and entries that are not files never go.
pub fn files_to_prune(files: &[FileEntry], protected: &[String], keep: usize) -> (v: Vec<String>)
    ensures
        exists|order: Seq<usize>|
            {
                &&& is_age_order(files@, strings_view(protected@), order)
                &&& v@.len() == prune_count(file_count(files@), order.len(), keep)
                &&& forall|k: int| 0 <= k < v@.len() ==> (#[trigger] v@[k])@ == files@[order[k] as int].path@
            },
{
    let order = age_order(files, protected);
    let mut total: usize = 0;
    let mut i: usize = 0;
    assert(files@.take(0) =~= Seq::<FileEntry>::empty());
    while i < files.len()
        invariant
            i <= files@.len(),
            total == file_count(files@.take(i as int)),
            total <= i,
        decreases files.len() - i,
    {
        assert(files@.take(i + 1).drop_last() =~= files@.take(i as int));
        assert(files@.take(i + 1).last() == files@[i as int]);
        if files[i].is_file {
            total += 1;
        }
        i += 1;
    }
    assert(files@.take(files@.len() as int) =~= files@);
    let excess = if total > keep {
        total - keep
    } else {
        0
    };
    let n = if excess < order.len() {
        excess
    } else {
        order.len()
    };
    let mut v: Vec<String> = Vec::new();
    let mut k: usize = 0;
    while k < n
        invariant
            k <= n,
            n <= order@.len(),
            is_age_order(files@, strings_view(protected@), order@),
            v@.len() == k,
            forall|m: int| 0 <= m < k ==> (#[trigger] v@[m])@ == files@[order@[m] as int].path@,
        decreases n - k,
    {
        assert(order@[k as int] < files@.len());
        v.push(files[order[k]].path.clone());
        k += 1;
    }
    v
}

/// Whether users other than the owner may write a file with these
/// permission bits.
pub fn path_is_other_writable(mode: u32) -> (b: bool)
    ensures
        b == (mode & 2 != 0),
{
    mode & 2 != 0
}

} // verus!
