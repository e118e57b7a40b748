//! Ordering of groups by digest, the way strings compare: byte by byte.
use vstd::prelude::*;
use vstd::multiset::{group_multiset_axioms, Multiset};
use vstd::utf8::encode_utf8;
use vstd::seq_lib::{group_to_multiset_ensures, to_multiset_build, to_multiset_insert};
use crate::grouping::Group;

verus! {

/// Lexicographic order on byte sequences, a prefix first.
pub open spec fn bytes_le(a: Seq<u8>, b: Seq<u8>) -> bool
    decreases a.len(),
{
    if a.len() == 0 {
        true
    } else if b.len() == 0 {
        false
    } else if a[0] != b[0] {
        a[0] < b[0]
    } else {
        bytes_le(a.drop_first(), b.drop_first())
    }
}

/// The order of strings: that of their UTF-8 bytes.
pub open spec fn text_le(a: Seq<char>, b: Seq<char>) -> bool {
    bytes_le(encode_utf8(a), encode_utf8(b))
}

/// Groups in non-decreasing order of digest.
pub open spec fn sorted_by_digest(gs: Seq<Group>) -> bool {
    forall|i: int, j: int|
        0 <= i < j < gs.len() ==> text_le(#[trigger] gs[i].digest@, #[trigger] gs[j].digest@)
}

/// Any two byte sequences compare one way or the other.
pub proof fn lemma_bytes_le_total(a: Seq<u8>, b: Seq<u8>)
    ensures
        bytes_le(a, b) || bytes_le(b, a),
    decreases a.len(),
{
    if a.len() > 0 && b.len() > 0 && a[0] == b[0] {
        lemma_bytes_le_total(a.drop_first(), b.drop_first());
    }
}

/// The order on byte sequences is transitive.
pub proof fn lemma_bytes_le_trans(a: Seq<u8>, b: Seq<u8>, c: Seq<u8>)
    requires
        bytes_le(a, b),
        bytes_le(b, c),
    ensures
        bytes_le(a, c),
    decreases a.len(),
{
    if a.len() > 0 && b.len() > 0 && c.len() > 0 && a[0] == b[0] && b[0] == c[0] {
        lemma_bytes_le_trans(a.drop_first(), b.drop_first(), c.drop_first());
    }
}

/// Whether `a` comes before `b` or equals it, as strings compare.
pub fn text_le_exec(a: &String, b: &String) -> (r: bool)
    ensures
        r == text_le(a@, b@),
{
    let x = a.as_str().as_bytes();
    let y = b.as_str().as_bytes();
    let mut i: usize = 0;
    assert(x@.skip(0) =~= x@);
    assert(y@.skip(0) =~= y@);
    while i < x.len() && i < y.len() && x[i] == y[i]
        invariant
            x@ == encode_utf8(a@),
            y@ == encode_utf8(b@),
            i <= x@.len(),
            i <= y@.len(),
            bytes_le(x@, y@) == bytes_le(x@.skip(i as int), y@.skip(i as int)),
        decreases x@.len() - i,
    {
        proof {
            assert(x@.skip(i as int).drop_first() =~= x@.skip(i + 1));
            assert(y@.skip(i as int).drop_first() =~= y@.skip(i + 1));
        }
        i = i + 1;
    }
    if i == x.len() {
        true
    } else if i == y.len() {
        false
    } else {
        x[i] < y[i]
    }
}

/// Sorts groups by digest, keeping each group.
pub fn sort_by_digest(groups: Vec<Group>) -> (r: Vec<Group>)
    ensures
        sorted_by_digest(r@),
        r@.to_multiset() == groups@.to_multiset(),
{
    broadcast use group_to_multiset_ensures, group_multiset_axioms;

    let ghost all = groups@.to_multiset();
    let mut rest = groups;
    let mut out: Vec<Group> = Vec::new();
    while rest.len() > 0
        invariant
            sorted_by_digest(out@),
            out@.to_multiset().add(rest@.to_multiset()) == all,
        decreases rest@.len(),
    {
        let ghost before = rest@;
        let g = rest.pop().unwrap();
        proof {
            assert(before =~= rest@.push(g));
        }
        let mut i: usize = 0;
        while i < out.len() && text_le_exec(&out[i].digest, &g.digest)
            invariant
                i <= out@.len(),
                forall|j: int| 0 <= j < i ==> text_le(#[trigger] out@[j].digest@, g.digest@),
            decreases out@.len() - i,
        {
            i = i + 1;
        }
        let ghost old_out = out@;
        proof {
            if i < old_out.len() {
                lemma_bytes_le_total(encode_utf8(old_out[i as int].digest@), encode_utf8(g.digest@));
            }
        }
        out.insert(i, g);
        proof {
            let n = out@;
            assert forall|a: int, b: int| 0 <= a < b < n.len() implies text_le(
                #[trigger] n[a].digest@,
                #[trigger] n[b].digest@,
            ) by {
                let ea = encode_utf8(n[a].digest@);
                let eb = encode_utf8(n[b].digest@);
                if a < i && b == i {
                } else if a < i && b > i {
                    assert(n[b] == old_out[b - 1]);
                } else if a == i {
                    assert(n[b] == old_out[b - 1]);
                    if b - 1 > i {
                        assert(text_le(old_out[i as int].digest@, old_out[b - 1].digest@));
                        lemma_bytes_le_trans(ea, encode_utf8(old_out[i as int].digest@), eb);
                    }
                } else if a > i {
                    assert(n[a] == old_out[a - 1]);
                    assert(n[b] == old_out[b - 1]);
                }
            }
            to_multiset_insert(old_out, i as int, g);
            assert(out@.to_multiset() == old_out.to_multiset().insert(g));
            to_multiset_build(rest@, g);
            assert(before.to_multiset() =~= rest@.to_multiset().insert(g));
            assert(out@.to_multiset().add(rest@.to_multiset()) =~= all);
        }
    }
    assert(rest@.to_multiset() =~= Multiset::empty());
    assert(out@.to_multiset().add(rest@.to_multiset()) =~= out@.to_multiset());
    out
}

} // verus!
