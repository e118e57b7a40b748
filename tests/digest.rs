use dircmp::ContentHasher;

const EMPTY_SHA256: &str = "E3B0C44298FC1C149AFBF4C8996FB92427AE41E4649B934CA495991B7852B855";
const ABC_SHA256: &str = "BA7816BF8F01CFEA414140DE5DAE2223B00361A396177A9CB410FF61F20015AD";

#[test]
fn digest_of_nothing() {
    let h = ContentHasher::new();
    assert_eq!(h.finish(), EMPTY_SHA256);
}

#[test]
fn digest_of_abc_in_one_chunk() {
    let mut h = ContentHasher::new();
    assert!(h.feed(b"abc"));
    assert!(!h.feed(b""));
    assert_eq!(h.finish(), ABC_SHA256);
}

#[test]
fn digest_same_across_chunkings() {
    let mut h = ContentHasher::new();
    assert!(h.feed(b"a"));
    assert!(h.feed(b"bc"));
    let d = h.finish();
    assert_eq!(d, ABC_SHA256);
    assert_eq!(d.len(), 64);
}

#[test]
fn digest_differs_for_different_content() {
    let mut a = ContentHasher::new();
    a.feed(b"content X");
    let mut b = ContentHasher::new();
    b.feed(b"content Y");
    assert_ne!(a.finish(), b.finish());
}
