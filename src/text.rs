//! Strings: fitting a cell to a fixed number of grapheme clusters, and
//! writing a count in decimal.
use vstd::prelude::*;
use unicode_segmentation::UnicodeSegmentation;

verus! {

/// The grapheme clusters (extended, per UAX #29) of a string, in order.
pub uninterp spec fn graphemes_of(s: Seq<char>) -> Seq<Seq<char>>;

/// The character sequences of a sequence of strings.
pub open spec fn views(v: Seq<String>) -> Seq<Seq<char>> {
    v.map_values(|c: String| c@)
}

/// The parts joined one after another.
pub open spec fn joined(parts: Seq<Seq<char>>) -> Seq<char>
    decreases parts.len(),
{
    if parts.len() == 0 {
        Seq::empty()
    } else {
        joined(parts.drop_last()) + parts.last()
    }
}

/// The `len` pieces of a fitted cell: the clusters first, then `pad` as
/// often as needed.
pub open spec fn fit_pieces(clusters: Seq<Seq<char>>, len: nat, pad: Seq<char>) -> Seq<Seq<char>> {
    Seq::new(len, |i: int| if i < clusters.len() { clusters[i] } else { pad })
}

/// A cell of exactly `len` pieces: the first `len` clusters, padded with
/// `pad` when there are fewer.
pub open spec fn fitted(clusters: Seq<Seq<char>>, len: nat, pad: Seq<char>) -> Seq<char> {
    joined(fit_pieces(clusters, len, pad))
}

/// Relies on `UnicodeSegmentation::graphemes(s, true)`: the extended grapheme
/// clusters of `s`, which cut `s` into consecutive slices.
#[verifier::external_body]
fn graphemes(s: &str) -> (r: Vec<String>)
    ensures
        views(r@) == graphemes_of(s@),
        joined(views(r@)) == s@,
{
    s.graphemes(true).map(|g| g.to_string()).collect()
}

/// Joins the first `len` clusters, and appends `padding` once for each
/// cluster missing up to `len`.
pub fn fit_clusters(clusters: &Vec<String>, len: usize, padding: &str) -> (r: String)
    ensures
        r@ == fitted(views(clusters@), len as nat, padding@),
{
    let ghost pieces = fit_pieces(views(clusters@), len as nat, padding@);
    let mut r = String::new();
    let mut i: usize = 0;
    while i < len
        invariant
            i <= len,
            pieces == fit_pieces(views(clusters@), len as nat, padding@),
            r@ == joined(pieces.take(i as int)),
        decreases len - i,
    {
        if i < clusters.len() {
            r.append(clusters[i].as_str());
        } else {
            r.append(padding);
        }
        proof {
            assert(pieces.take(i + 1).drop_last() =~= pieces.take(i as int));
        }
        i = i + 1;
    }
    assert(pieces.take(len as int) =~= pieces);
    r
}

/// Fits `s` to exactly `len` grapheme clusters: longer strings are cut
/// after `len` whole clusters, shorter ones get `padding` appended.
pub fn fixed_length(s: &str, len: usize, padding: &str) -> (r: String)
    ensures
        r@ == fitted(graphemes_of(s@), len as nat, padding@),
{
    let clusters = graphemes(s);
    fit_clusters(&clusters, len, padding)
}

proof fn lemma_joined_append(a: Seq<Seq<char>>, b: Seq<Seq<char>>)
    ensures
        joined(a + b) == joined(a) + joined(b),
    decreases b.len(),
{
    if b.len() == 0 {
        assert(a + b =~= a);
        assert(joined(a) + joined(b) =~= joined(a));
    } else {
        lemma_joined_append(a, b.drop_last());
        assert((a + b).drop_last() =~= a + b.drop_last());
        assert(joined(a) + joined(b) =~= joined(a) + joined(b.drop_last()) + b.last());
    }
}

/// A fitted cell is made of whole clusters: the first `len` of them when
/// there are enough, else all of them followed by the padding.
pub proof fn lemma_fitted_whole_clusters(clusters: Seq<Seq<char>>, len: nat, pad: Seq<char>)
    ensures
        len <= clusters.len() ==> fitted(clusters, len, pad) == joined(clusters.take(len as int)),
        len > clusters.len() ==> fitted(clusters, len, pad) == joined(clusters) + joined(
            Seq::new((len - clusters.len()) as nat, |i: int| pad),
        ),
{
    let pieces = fit_pieces(clusters, len, pad);
    if len <= clusters.len() {
        assert(pieces =~= clusters.take(len as int));
    } else {
        let pads = Seq::new((len - clusters.len()) as nat, |i: int| pad);
        assert(pieces =~= clusters + pads);
        lemma_joined_append(clusters, pads);
    }
}

/// The decimal digit `d`.
pub open spec fn digit_char(d: nat) -> char {
    if d == 0 { '0' }
    else if d == 1 { '1' }
    else if d == 2 { '2' }
    else if d == 3 { '3' }
    else if d == 4 { '4' }
    else if d == 5 { '5' }
    else if d == 6 { '6' }
    else if d == 7 { '7' }
    else if d == 8 { '8' }
    else { '9' }
}

/// `n` written in decimal, without leading zeros.
pub open spec fn decimal_of(n: nat) -> Seq<char>
    decreases n,
{
    if n < 10 {
        seq![digit_char(n)]
    } else {
        decimal_of(n / 10).push(digit_char(n % 10))
    }
}

fn digit_str(d: usize) -> (r: &'static str)
    requires
        d < 10,
    ensures
        r@ == seq![digit_char(d as nat)],
{
    proof {
        reveal_strlit("0");
        reveal_strlit("1");
        reveal_strlit("2");
        reveal_strlit("3");
        reveal_strlit("4");
        reveal_strlit("5");
        reveal_strlit("6");
        reveal_strlit("7");
        reveal_strlit("8");
        reveal_strlit("9");
    }
    let r = if d == 0 { "0" }
    else if d == 1 { "1" }
    else if d == 2 { "2" }
    else if d == 3 { "3" }
    else if d == 4 { "4" }
    else if d == 5 { "5" }
    else if d == 6 { "6" }
    else if d == 7 { "7" }
    else if d == 8 { "8" }
    else { "9" };
    assert(r@ =~= seq![digit_char(d as nat)]);
    r
}

/// Writes `n` in decimal.
pub fn decimal(n: usize) -> (r: String)
    ensures
        r@ == decimal_of(n as nat),
    decreases n,
{
    if n < 10 {
        String::from_str(digit_str(n))
    } else {
        let mut r = decimal(n / 10);
        r.append(digit_str(n % 10));
        assert(r@ =~= decimal_of(n as nat));
        r
    }
}

} // verus!
