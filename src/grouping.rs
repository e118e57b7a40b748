//! Grouping of files by the digest of their content.
use vstd::prelude::*;

verus! {

/// A file found directly inside one of the compared directories.
pub struct FileEntry {
    /// Position of the directory among the compared ones.
    pub dir: usize,
    /// The file's name, without its directory.
    pub name: String,
}

/// All files, over all directories, whose content has one digest.
pub struct Group {
    pub digest: String,
    pub files: Vec<FileEntry>,
}

/// The files added so far, grouped by digest.
pub struct Grouping {
    pub groups: Vec<Group>,
    /// Every (digest, file) pair added, in order.
    pub added: Ghost<Seq<(Seq<char>, FileEntry)>>,
}

/// Whether a file with extension `extension` is compared: always without a
/// filter, else only when its extension is exactly the filter's.
pub open spec fn passes_filter_spec(filter: Option<Seq<char>>, extension: Option<Seq<char>>) -> bool {
    match filter {
        None => true,
        Some(f) => extension == Some(f),
    }
}

/// Whether a file with extension `extension` passes the extension filter.
pub fn passes_filter(filter: &Option<String>, extension: &Option<String>) -> (r: bool)
    ensures
        r == passes_filter_spec(
            match filter {
                Some(f) => Some(f@),
                None => None,
            },
            match extension {
                Some(e) => Some(e@),
                None => None,
            },
        ),
{
    match filter {
        None => true,
        Some(f) => match extension {
            Some(e) => *f == *e,
            None => false,
        },
    }
}

/// The files among `added` whose digest is `d`, in the order they were added.
pub open spec fn entries_with(added: Seq<(Seq<char>, FileEntry)>, d: Seq<char>) -> Seq<FileEntry>
    decreases added.len(),
{
    if added.len() == 0 {
        Seq::empty()
    } else if added.last().0 == d {
        entries_with(added.drop_last(), d).push(added.last().1)
    } else {
        entries_with(added.drop_last(), d)
    }
}

/// Whether some group of `groups` has digest `d`.
pub open spec fn has_group(groups: Seq<Group>, d: Seq<char>) -> bool {
    exists|i: int| 0 <= i < groups.len() && (#[trigger] groups[i]).digest@ == d
}

impl Grouping {
    /// Digests are distinct, each group holds exactly the added files with
    /// its digest, and each added digest has its group.
    pub open spec fn wf(&self) -> bool {
        &&& forall|i: int, j: int|
            0 <= i < j < self.groups@.len() ==> (#[trigger] self.groups@[i]).digest@
                != (#[trigger] self.groups@[j]).digest@
        &&& forall|i: int|
            0 <= i < self.groups@.len() ==> (#[trigger] self.groups@[i]).files@ == entries_with(
                self.added@,
                self.groups@[i].digest@,
            ) && self.groups@[i].files@.len() > 0
        &&& forall|k: int|
            0 <= k < self.added@.len() ==> has_group(self.groups@, #[trigger] self.added@[k].0)
    }

    /// An empty grouping.
    pub fn new() -> (r: Grouping)
        ensures
            r.wf(),
            r.groups@.len() == 0,
            r.added@.len() == 0,
    {
        Grouping { groups: Vec::new(), added: Ghost(Seq::empty()) }
    }

    /// The position of the group with digest `digest`, if there is one.
    pub fn find(&self, digest: &String) -> (r: Option<usize>)
        ensures
            match r {
                Some(i) => i < self.groups@.len() && self.groups@[i as int].digest@ == digest@,
                None => !has_group(self.groups@, digest@),
            },
    {
        let mut i: usize = 0;
        while i < self.groups.len()
            invariant
                i <= self.groups@.len(),
                forall|j: int| 0 <= j < i ==> (#[trigger] self.groups@[j]).digest@ != digest@,
            decreases self.groups@.len() - i,
        {
            if self.groups[i].digest == *digest {
                return Some(i);
            }
            i = i + 1;
        }
        None
    }

    /// Adds `entry` with content digest `digest`: to the group of that
    /// digest where there is one, else to a new group at the end.
    pub fn add(&mut self, digest: String, entry: FileEntry)
        requires
            old(self).wf(),
        ensures
            final(self).wf(),
            final(self).added@ == old(self).added@.push((digest@, entry)),
            final(self).groups@.len() == old(self).groups@.len() + if has_group(
                old(self).groups@,
                digest@,
            ) {
                0int
            } else {
                1int
            },
            forall|i: int|
                0 <= i < old(self).groups@.len() ==> (#[trigger] final(self).groups@[i]).digest@
                    == old(self).groups@[i].digest@,
    {
        let ghost old_added = self.added@;
        let ghost old_groups = self.groups@;
        let ghost rec = (digest@, entry);
        let ghost new_added = old_added.push(rec);
        proof {
            assert(new_added.drop_last() =~= old_added);
            assert forall|d: Seq<char>|
                #[trigger] entries_with(new_added, d) == if d == digest@ {
                    entries_with(old_added, d).push(entry)
                } else {
                    entries_with(old_added, d)
                } by {}
        }
        match self.find(&digest) {
            Some(i) => {
                let mut g = self.groups.remove(i);
                g.files.push(entry);
                self.groups.insert(i, g);
                self.added = Ghost(new_added);
                proof {
                    assert(self.groups@ =~= old_groups.update(i as int, self.groups@[i as int]));
                    assert forall|k: int| 0 <= k < new_added.len() implies has_group(
                        self.groups@,
                        #[trigger] new_added[k].0,
                    ) by {
                        if k < old_added.len() {
                            assert(old_added[k] == new_added[k]);
                            let j = choose|j: int|
                                0 <= j < old_groups.len() && (#[trigger] old_groups[j]).digest@
                                    == old_added[k].0;
                            assert(self.groups@[j].digest@ == new_added[k].0);
                        } else {
                            assert(self.groups@[i as int].digest@ == new_added[k].0);
                        }
                    }
                }
            },
            None => {
                let mut files = Vec::new();
                files.push(entry);
                self.groups.push(Group { digest, files });
                self.added = Ghost(new_added);
                proof {
                    let n = self.groups@.len() - 1;
                    assert(self.groups@.take(n) =~= old_groups);
                    assert(entries_with(old_added, digest@) =~= Seq::<FileEntry>::empty()) by {
                        lemma_no_group_no_entries(old_added, digest@, old_groups);
                    }
                    assert(self.groups@[n].files@ =~= seq![entry]);
                    assert forall|k: int| 0 <= k < new_added.len() implies has_group(
                        self.groups@,
                        #[trigger] new_added[k].0,
                    ) by {
                        if k < old_added.len() {
                            assert(old_added[k] == new_added[k]);
                            let j = choose|j: int|
                                0 <= j < n && (#[trigger] old_groups[j]).digest@
                                    == old_added[k].0;
                            assert(self.groups@[j].digest@ == new_added[k].0);
                        } else {
                            assert(self.groups@[n].digest@ == new_added[k].0);
                        }
                    }
                }
            },
        }
    }
}

/// A digest that no group has was never added.
proof fn lemma_no_group_no_entries(added: Seq<(Seq<char>, FileEntry)>, d: Seq<char>, groups: Seq<Group>)
    requires
        !has_group(groups, d),
        forall|k: int| 0 <= k < added.len() ==> has_group(groups, #[trigger] added[k].0),
    ensures
        entries_with(added, d).len() == 0,
    decreases added.len(),
{
    if added.len() > 0 {
        assert(has_group(groups, added[added.len() - 1].0));
        lemma_no_group_no_entries(added.drop_last(), d, groups);
    }
}

/// The file of the `k`-th added pair is among the files with its digest.
proof fn lemma_entries_with_has(added: Seq<(Seq<char>, FileEntry)>, k: int)
    requires
        0 <= k < added.len(),
    ensures
        entries_with(added, added[k].0).contains(added[k].1),
    decreases added.len(),
{
    let d = added[k].0;
    if k == added.len() - 1 {
        assert(entries_with(added, d).last() == added[k].1);
    } else {
        assert(added.drop_last()[k] == added[k]);
        lemma_entries_with_has(added.drop_last(), k);
        let m = choose|m: int|
            0 <= m < entries_with(added.drop_last(), d).len() && entries_with(added.drop_last(), d)[m]
                == added[k].1;
        assert(entries_with(added, d)[m] == added[k].1);
    }
}

/// Each file with digest `d` comes from a pair added with digest `d`.
proof fn lemma_entries_with_from(added: Seq<(Seq<char>, FileEntry)>, d: Seq<char>, m: int)
    requires
        0 <= m < entries_with(added, d).len(),
    ensures
        exists|k: int| 0 <= k < added.len() && #[trigger] added[k] == (d, entries_with(added, d)[m]),
    decreases added.len(),
{
    let prev = entries_with(added.drop_last(), d);
    if m < prev.len() {
        lemma_entries_with_from(added.drop_last(), d, m);
        let k = choose|k: int|
            0 <= k < added.drop_last().len() && #[trigger] added.drop_last()[k] == (d, prev[m]);
        assert(added[k] == (d, entries_with(added, d)[m]));
    } else {
        assert(added[added.len() - 1] == (d, entries_with(added, d)[m]));
    }
}

/// Every added file stands in a group with its digest, and in no group with
/// another digest: the only group of that digest holds it.
pub proof fn lemma_each_file_in_exactly_one_group(g: &Grouping, k: int)
    requires
        g.wf(),
        0 <= k < g.added@.len(),
    ensures
        exists|i: int|
            0 <= i < g.groups@.len() && (#[trigger] g.groups@[i]).digest@ == g.added@[k].0
                && g.groups@[i].files@.contains(g.added@[k].1) && forall|j: int|
                0 <= j < g.groups@.len() && j != i ==> (#[trigger] g.groups@[j]).digest@
                    != g.added@[k].0,
{
    let d = g.added@[k].0;
    assert(has_group(g.groups@, d));
    let i = choose|i: int| 0 <= i < g.groups@.len() && (#[trigger] g.groups@[i]).digest@ == d;
    lemma_entries_with_has(g.added@, k);
    assert forall|j: int| 0 <= j < g.groups@.len() && j != i implies (#[trigger] g.groups@[j]).digest@
        != d by {
        if j < i {
            assert(g.groups@[j].digest@ != g.groups@[i].digest@);
        } else {
            assert(g.groups@[i].digest@ != g.groups@[j].digest@);
        }
    }
}

/// Every file in a group was added with that group's digest.
pub proof fn lemma_group_files_were_added(g: &Grouping, i: int, m: int)
    requires
        g.wf(),
        0 <= i < g.groups@.len(),
        0 <= m < g.groups@[i].files@.len(),
    ensures
        exists|k: int|
            0 <= k < g.added@.len() && #[trigger] g.added@[k] == (
                g.groups@[i].digest@,
                g.groups@[i].files@[m],
            ),
{
    lemma_entries_with_from(g.added@, g.groups@[i].digest@, m);
}

/// Two files added with the same digest stand in the same group.
pub proof fn lemma_same_digest_same_group(g: &Grouping, k1: int, k2: int)
    requires
        g.wf(),
        0 <= k1 < g.added@.len(),
        0 <= k2 < g.added@.len(),
        g.added@[k1].0 == g.added@[k2].0,
    ensures
        exists|i: int|
            0 <= i < g.groups@.len() && (#[trigger] g.groups@[i]).files@.contains(g.added@[k1].1)
                && g.groups@[i].files@.contains(g.added@[k2].1),
{
    let d = g.added@[k1].0;
    assert(has_group(g.groups@, d));
    let i = choose|i: int| 0 <= i < g.groups@.len() && (#[trigger] g.groups@[i]).digest@ == d;
    lemma_entries_with_has(g.added@, k1);
    lemma_entries_with_has(g.added@, k2);
}

} // verus!
