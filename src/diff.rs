//! The differences-only filter: drops the groups whose content stands once
//! in each directory under one name.
use vstd::prelude::*;
use crate::grouping::{FileEntry, Group};

verus! {

/// All files bear the name of the first.
pub open spec fn same_names(files: Seq<FileEntry>) -> bool {
    forall|i: int| 0 <= i < files.len() ==> (#[trigger] files[i]).name@ == files[0].name@
}

/// A group shows a difference unless it holds one file per directory, all
/// under one name.
pub open spec fn shows_difference(files: Seq<FileEntry>, n_dirs: nat) -> bool {
    files.len() != n_dirs || !same_names(files)
}

/// The groups that show a difference, in their order.
pub open spec fn differences(groups: Seq<Group>, n_dirs: nat) -> Seq<Group>
    decreases groups.len(),
{
    if groups.len() == 0 {
        Seq::empty()
    } else if shows_difference(groups.last().files@, n_dirs) {
        differences(groups.drop_last(), n_dirs).push(groups.last())
    } else {
        differences(groups.drop_last(), n_dirs)
    }
}

/// Whether a group with these files shows a difference between
/// `n_dirs` directories.
pub fn group_differs(files: &Vec<FileEntry>, n_dirs: usize) -> (r: bool)
    ensures
        r == shows_difference(files@, n_dirs as nat),
{
    if files.len() != n_dirs {
        return true;
    }
    if files.len() == 0 {
        return false;
    }
    let mut i: usize = 0;
    while i < files.len()
        invariant
            0 < files@.len(),
            i <= files@.len(),
            forall|j: int| 0 <= j < i ==> (#[trigger] files@[j]).name@ == files@[0].name@,
        decreases files@.len() - i,
    {
        if files[i].name != files[0].name {
            return true;
        }
        i = i + 1;
    }
    false
}

/// Keeps the groups that show a difference between `n_dirs` directories,
/// in their order.
pub fn retain_differences(groups: &mut Vec<Group>, n_dirs: usize)
    ensures
        final(groups)@ == differences(old(groups)@, n_dirs as nat),
{
    let ghost orig = groups@;
    let n = groups.len();
    let mut i: usize = 0;
    let mut j: usize = 0;
    assert(orig.take(0) =~= Seq::<Group>::empty());
    assert(orig.skip(0) =~= orig);
    assert(groups@ =~= differences(orig.take(0), n_dirs as nat) + orig.skip(0));
    while j < n
        invariant
            n == orig.len(),
            j <= orig.len(),
            i == differences(orig.take(j as int), n_dirs as nat).len(),
            groups@ == differences(orig.take(j as int), n_dirs as nat) + orig.skip(j as int),
        decreases n - j,
    {
        assert(orig.take(j + 1).drop_last() =~= orig.take(j as int));
        assert(groups@[i as int] == orig[j as int]);
        let len = groups.len();
        if group_differs(&groups[i].files, n_dirs) {
            assert(i < len);
            i = i + 1;
            assert(groups@ =~= differences(orig.take(j + 1), n_dirs as nat) + orig.skip(j + 1));
        } else {
            let _dropped = groups.remove(i);
            assert(groups@ =~= differences(orig.take(j + 1), n_dirs as nat) + orig.skip(j + 1));
        }
        j = j + 1;
    }
    assert(orig.take(orig.len() as int) =~= orig);
    assert(groups@ =~= differences(orig, n_dirs as nat));
}

/// In differences-only mode a group is shown exactly when it shows a
/// difference; in particular a group with one file per directory, all under
/// one name, is never shown.
pub proof fn lemma_differences_exact(groups: Seq<Group>, n_dirs: nat, g: Group)
    ensures
        differences(groups, n_dirs).contains(g) <==> (groups.contains(g) && shows_difference(
            g.files@,
            n_dirs,
        )),
        (g.files@.len() == n_dirs && same_names(g.files@)) ==> !differences(groups, n_dirs).contains(g),
    decreases groups.len(),
{
    broadcast use vstd::seq_lib::group_seq_properties;

    if groups.len() > 0 {
        lemma_differences_exact(groups.drop_last(), n_dirs, g);
        assert(groups =~= groups.drop_last().push(groups.last()));
        if groups.contains(g) && g != groups.last() {
            let k = choose|k: int| 0 <= k < groups.len() && groups[k] == g;
            assert(groups.drop_last()[k] == g);
        }
    }
}

} // verus!
