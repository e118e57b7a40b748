//! The report: groups sorted by digest, optionally only the differences,
//! laid out as a tab-separated table with one column per directory.
use vstd::prelude::*;
use crate::diff::{differences, retain_differences};
use crate::grouping::{FileEntry, Group};
use crate::order::{sort_by_digest, sorted_by_digest};
use crate::text::{decimal, decimal_of, fitted, fixed_length, graphemes_of, views};

verus! {

/// Width of the digest column: 64 hexadecimal digits.
pub const DIGEST_WIDTH: usize = 64;

/// The files of `files` that lie directly in directory `d`, in order.
pub open spec fn in_dir(files: Seq<FileEntry>, d: nat) -> Seq<FileEntry>
    decreases files.len(),
{
    if files.len() == 0 {
        Seq::empty()
    } else if files.last().dir == d {
        in_dir(files.drop_last(), d).push(files.last())
    } else {
        in_dir(files.drop_last(), d)
    }
}

/// The cell of directory `d` in a group's row: a dash when none of the
/// files lies there, the file's name when one does, else the count.
pub open spec fn cell_of(files: Seq<FileEntry>, d: nat) -> Seq<char> {
    let here = in_dir(files, d);
    if here.len() == 0 {
        seq!['\u{2013}']
    } else if here.len() == 1 {
        here[0].name@
    } else {
        seq!['('] + decimal_of(here.len()) + seq![' ', 'f', 'i', 'l', 'e', 's', ')']
    }
}

/// The parts with a tab between each two.
pub open spec fn tab_joined(parts: Seq<Seq<char>>) -> Seq<char>
    decreases parts.len(),
{
    if parts.len() == 0 {
        Seq::empty()
    } else if parts.len() == 1 {
        parts[0]
    } else {
        tab_joined(parts.drop_last()) + seq!['\t'] + parts.last()
    }
}

/// A text fitted to a column of width `w`, padded with spaces.
pub open spec fn column_of(s: Seq<char>, w: nat) -> Seq<char> {
    fitted(graphemes_of(s), w, seq![' '])
}

/// The directory columns of a group's row.
pub open spec fn row_cells(files: Seq<FileEntry>, n_dirs: nat, w: nat) -> Seq<Seq<char>> {
    Seq::new(n_dirs, |d: int| column_of(cell_of(files, d as nat), w))
}

/// A group's row: ordinal, digest, then one column per directory.
pub open spec fn row_of(ordinal: nat, g: Group, n_dirs: nat, w: nat) -> Seq<char> {
    decimal_of(ordinal) + seq!['\t'] + g.digest@ + seq!['\t'] + tab_joined(
        row_cells(g.files@, n_dirs, w),
    )
}

/// The label of a directory column: its name, or `???` when it has none.
pub open spec fn label_of(name: Option<String>) -> Seq<char> {
    match name {
        Some(s) => s@,
        None => seq!['?', '?', '?'],
    }
}

/// The label of the digest column, padded to its width.
pub open spec fn digest_label() -> Seq<char> {
    seq!['S', 'H', 'A', '2', '5', '6'] + Seq::new((DIGEST_WIDTH - 6) as nat, |i: int| ' ')
}

/// The header row.
pub open spec fn header_of(names: Seq<Option<String>>, w: nat) -> Seq<char> {
    seq!['#', '\t'] + digest_label() + seq!['\t'] + tab_joined(
        Seq::new(names.len(), |i: int| column_of(label_of(names[i]), w)),
    )
}

/// The cell of directory `dir` for a group with these files.
pub fn cell_text(files: &Vec<FileEntry>, dir: usize) -> (r: String)
    ensures
        r@ == cell_of(files@, dir as nat),
{
    let mut count: usize = 0;
    let mut first: usize = 0;
    let mut i: usize = 0;
    assert(files@.take(0) =~= Seq::<FileEntry>::empty());
    while i < files.len()
        invariant
            i <= files@.len(),
            count == in_dir(files@.take(i as int), dir as nat).len(),
            count <= i,
            count > 0 ==> first < files@.len() && files@[first as int] == in_dir(
                files@.take(i as int),
                dir as nat,
            )[0],
        decreases files@.len() - i,
    {
        assert(files@.take(i + 1).drop_last() =~= files@.take(i as int));
        if files[i].dir == dir {
            if count == 0 {
                first = i;
            }
            count = count + 1;
        }
        i = i + 1;
    }
    assert(files@.take(files@.len() as int) =~= files@);
    if count == 0 {
        proof {
            reveal_strlit("\u{2013}");
        }
        let r = String::from_str("\u{2013}");
        assert(r@ =~= seq!['\u{2013}']);
        r
    } else if count == 1 {
        files[first].name.clone()
    } else {
        proof {
            reveal_strlit("(");
            reveal_strlit(" files)");
        }
        let mut r = String::from_str("(");
        r.append(decimal(count).as_str());
        r.append(" files)");
        assert(r@ =~= cell_of(files@, dir as nat));
        r
    }
}

/// Joins the parts with a tab between each two.
pub fn tab_join(parts: &Vec<String>) -> (r: String)
    ensures
        r@ == tab_joined(views(parts@)),
{
    let ghost ps = views(parts@);
    let mut r = String::new();
    let mut i: usize = 0;
    assert(ps.take(0) =~= Seq::<Seq<char>>::empty());
    while i < parts.len()
        invariant
            i <= parts@.len(),
            ps == views(parts@),
            r@ == tab_joined(ps.take(i as int)),
        decreases parts@.len() - i,
    {
        assert(ps.take(i + 1).drop_last() =~= ps.take(i as int));
        if i > 0 {
            proof {
                reveal_strlit("\t");
            }
            r.append("\t");
        } else {
            assert(ps.take(1) =~= seq![ps[0]]);
        }
        r.append(parts[i].as_str());
        i = i + 1;
    }
    assert(ps.take(parts@.len() as int) =~= ps);
    r
}

/// The row of a group, numbered `ordinal`, over `n_dirs` directories whose
/// columns are `width` wide.
pub fn render_row(ordinal: usize, group: &Group, n_dirs: usize, width: usize) -> (r: String)
    ensures
        r@ == row_of(ordinal as nat, *group, n_dirs as nat, width as nat),
{
    let ghost want = row_cells(group.files@, n_dirs as nat, width as nat);
    let mut cells: Vec<String> = Vec::new();
    let mut d: usize = 0;
    while d < n_dirs
        invariant
            d <= n_dirs,
            want == row_cells(group.files@, n_dirs as nat, width as nat),
            views(cells@) == want.take(d as int),
        decreases n_dirs - d,
    {
        let cell = cell_text(&group.files, d);
        let col = fixed_length(cell.as_str(), width, " ");
        proof {
            reveal_strlit(" ");
            assert(" "@ =~= seq![' ']);
            assert(cell@ == cell_of(group.files@, d as nat));
            assert(col@ == column_of(cell_of(group.files@, d as nat), width as nat));
            assert(col@ == want[d as int]);
        }
        let ghost before = cells@;
        cells.push(col);
        assert(views(cells@) =~= views(before).push(want[d as int]));
        assert(want.take(d + 1) =~= want.take(d as int).push(want[d as int]));
        d = d + 1;
    }
    assert(want.take(n_dirs as int) =~= want);
    proof {
        reveal_strlit("\t");
    }
    let mut r = decimal(ordinal);
    r.append("\t");
    r.append(group.digest.as_str());
    r.append("\t");
    r.append(tab_join(&cells).as_str());
    assert(r@ =~= row_of(ordinal as nat, *group, n_dirs as nat, width as nat));
    r
}

/// The header row for directories with these names and columns `width`
/// wide.
pub fn render_header(names: &Vec<Option<String>>, width: usize) -> (r: String)
    ensures
        r@ == header_of(names@, width as nat),
{
    let ghost want = Seq::new(names@.len(), |i: int| column_of(label_of(names@[i]), width as nat));
    let mut cells: Vec<String> = Vec::new();
    let mut d: usize = 0;
    proof {
        reveal_strlit(" ");
        reveal_strlit("???");
        reveal_strlit("#\tSHA256");
        reveal_strlit("\t");
        assert(" "@ =~= seq![' ']);
        assert("???"@ =~= seq!['?', '?', '?']);
        assert("\t"@ =~= seq!['\t']);
        assert("#\tSHA256"@ =~= seq!['#', '\t', 'S', 'H', 'A', '2', '5', '6']);
        assert(Seq::new(0, |i: int| ' ') + seq![] =~= Seq::<char>::empty());
    }
    while d < names.len()
        invariant
            d <= names@.len(),
            want == Seq::new(names@.len(), |i: int| column_of(label_of(names@[i]), width as nat)),
            views(cells@) == want.take(d as int),
        decreases names@.len() - d,
    {
        proof {
            reveal_strlit(" ");
            reveal_strlit("???");
            assert(" "@ =~= seq![' ']);
            assert("???"@ =~= seq!['?', '?', '?']);
        }
        let col = match &names[d] {
            Some(s) => fixed_length(s.as_str(), width, " "),
            None => fixed_length("???", width, " "),
        };
        assert(col@ == want[d as int]);
        let ghost before = cells@;
        cells.push(col);
        assert(views(cells@) =~= views(before).push(want[d as int]));
        assert(want.take(d + 1) =~= want.take(d as int).push(want[d as int]));
        d = d + 1;
    }
    assert(want.take(names@.len() as int) =~= want);
    let mut r = String::from_str("#\tSHA256");
    let mut k: usize = 6;
    assert(r@ =~= seq!['#', '\t', 'S', 'H', 'A', '2', '5', '6'] + Seq::new(0, |i: int| ' '));
    while k < DIGEST_WIDTH
        invariant
            6 <= k <= DIGEST_WIDTH,
            r@ == seq!['#', '\t', 'S', 'H', 'A', '2', '5', '6'] + Seq::new((k - 6) as nat, |i: int| ' '),
        decreases DIGEST_WIDTH - k,
    {
        proof {
            reveal_strlit(" ");
            assert(" "@ =~= seq![' ']);
        }
        r.append(" ");
        assert(r@ =~= seq!['#', '\t', 'S', 'H', 'A', '2', '5', '6'] + Seq::new((k + 1 - 6) as nat, |i: int| ' '));
        k = k + 1;
    }
    r.append("\t");
    r.append(tab_join(&cells).as_str());
    assert(r@ =~= header_of(names@, width as nat));
    r
}

/// The groups to show: all of them, or only those that show a difference
/// between `n_dirs` directories, sorted by digest.
pub fn arrange(groups: Vec<Group>, n_dirs: usize, diff_only: bool) -> (r: Vec<Group>)
    ensures
        sorted_by_digest(r@),
        r@.to_multiset() == (if diff_only {
            differences(groups@, n_dirs as nat)
        } else {
            groups@
        }).to_multiset(),
{
    let mut shown = groups;
    if diff_only {
        retain_differences(&mut shown, n_dirs);
    }
    sort_by_digest(shown)
}

/// The lines of the table: a blank line, the header, one row per group
/// numbered from 1 in the given order, and a blank line.
pub fn render_table(shown: &Vec<Group>, names: &Vec<Option<String>>, width: usize) -> (r: Vec<
    String,
>)
    ensures
        r@.len() == shown@.len() + 3,
        r@[0]@ == Seq::<char>::empty(),
        r@[1]@ == header_of(names@, width as nat),
        forall|k: int|
            0 <= k < shown@.len() ==> (#[trigger] r@[k + 2])@ == row_of(
                (k + 1) as nat,
                shown@[k],
                names@.len(),
                width as nat,
            ),
        r@[shown@.len() + 2int]@ == Seq::<char>::empty(),
{
    let mut r: Vec<String> = Vec::new();
    r.push(String::new());
    r.push(render_header(names, width));
    let mut k: usize = 0;
    while k < shown.len()
        invariant
            k <= shown@.len(),
            r@.len() == k + 2,
            r@[0]@ == Seq::<char>::empty(),
            r@[1]@ == header_of(names@, width as nat),
            forall|j: int|
                0 <= j < k ==> (#[trigger] r@[j + 2])@ == row_of(
                    (j + 1) as nat,
                    shown@[j],
                    names@.len(),
                    width as nat,
                ),
        decreases shown@.len() - k,
    {
        let row = render_row(k + 1, &shown[k], names.len(), width);
        r.push(row);
        k = k + 1;
    }
    r.push(String::new());
    r
}

} // verus!
