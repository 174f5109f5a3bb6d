use merkle_root::combinator::{hash, ConcatCombinator, Sha256Combinator};
use merkle_root::depth_walk::DepthWalk;
use merkle_root::source::LeafSource;
use merkle_root::width_walk::WidthWalk;
use merkle_root::MerkleTreeRoot;
use merkle_root::Digest;

fn leaf(c: char) -> Vec<char> {
    vec![c]
}

fn chars_source(s: &str) -> LeafSource<Vec<char>> {
    LeafSource::new(s.chars().map(leaf).collect())
}

#[test]
#[should_panic]
fn depth_walk_empty_source() {
    let mut source = LeafSource::new(Vec::<Vec<char>>::new());
    DepthWalk::calculate(&mut source, &ConcatCombinator);
}

#[test]
fn depth_walk_full_tree() {
    let mut source = LeafSource::new(vec![vec!['a'], vec!['b']]);
    assert_eq!(vec!['a', 'b'], DepthWalk::calculate(&mut source, &ConcatCombinator));

    let mut source = LeafSource::new(vec![vec!['a'], vec!['b'], vec!['c'], vec!['d']]);
    assert_eq!(
        vec!['a', 'b', 'c', 'd'],
        DepthWalk::calculate(&mut source, &ConcatCombinator)
    );
}

#[test]
fn depth_walk_partial_tree() {
    let mut source = LeafSource::new(vec![vec!['a']]);
    assert_eq!(vec!['a', 'a'], DepthWalk::calculate(&mut source, &ConcatCombinator));

    let mut source = LeafSource::new(vec![vec!['a'], vec!['b'], vec!['c']]);
    assert_eq!(
        vec!['a', 'b', 'c', 'c'],
        DepthWalk::calculate(&mut source, &ConcatCombinator)
    );
}

#[test]
#[should_panic]
fn width_walk_empty_source() {
    let mut source = LeafSource::new(Vec::<Vec<char>>::new());
    WidthWalk::calculate(&mut source, &ConcatCombinator);
}

#[test]
fn width_walk_full_tree() {
    let mut source = LeafSource::new(vec![vec!['a'], vec!['b']]);
    assert_eq!(vec!['a', 'b'], WidthWalk::calculate(&mut source, &ConcatCombinator));

    let mut source = LeafSource::new(vec![vec!['a'], vec!['b'], vec!['c'], vec!['d']]);
    assert_eq!(
        vec!['a', 'b', 'c', 'd'],
        WidthWalk::calculate(&mut source, &ConcatCombinator)
    );
}

#[test]
fn width_walk_partial_tree() {
    // a sole leaf is duplicated and combined with itself, exactly as in
    // the depth-first strategy
    let mut source = LeafSource::new(vec![vec!['a']]);
    assert_eq!(vec!['a', 'a'], WidthWalk::calculate(&mut source, &ConcatCombinator));

    let mut source = LeafSource::new(vec![vec!['a'], vec!['b'], vec!['c']]);
    assert_eq!(
        vec!['a', 'b', 'c', 'c'],
        WidthWalk::calculate(&mut source, &ConcatCombinator)
    );
}

#[test]
fn cross_strategy_equivalence() {
    // both strategies must return the identical root for every
    // non-empty leaf sequence; exercise counts around powers of two
    let alphabet = "abcdefghijklmnop";
    for n in 1..=alphabet.len() {
        let mut depth_source = chars_source(&alphabet[..n]);
        let mut width_source = chars_source(&alphabet[..n]);
        let depth_root = DepthWalk::calculate(&mut depth_source, &ConcatCombinator);
        let width_root = WidthWalk::calculate(&mut width_source, &ConcatCombinator);
        assert_eq!(depth_root, width_root, "strategies disagree on {} leaves", n);
    }
}

#[test]
fn deterministic_roots() {
    // two independently constructed sources carrying the same leaves
    // yield byte-identical roots
    let mut first = chars_source("abcde");
    let mut second = chars_source("abcde");
    assert_eq!(
        DepthWalk::calculate(&mut first, &ConcatCombinator),
        DepthWalk::calculate(&mut second, &ConcatCombinator)
    );
    let mut third = chars_source("abcde");
    let mut fourth = chars_source("abcde");
    assert_eq!(
        WidthWalk::calculate(&mut third, &ConcatCombinator),
        WidthWalk::calculate(&mut fourth, &ConcatCombinator)
    );
}

#[test]
fn power_of_two_no_duplication() {
    // with a power-of-two leaf count every node has two genuine
    // children: the concatenating combinator shows each leaf once
    let mut source = chars_source("abcdefgh");
    let root = DepthWalk::calculate(&mut source, &ConcatCombinator);
    assert_eq!("abcdefgh".chars().collect::<Vec<char>>(), root);
}

#[test]
fn odd_levels_duplicate_rightmost() {
    // five leaves: level one ends in `ee`, level two in `eeee`
    let mut source = chars_source("abcde");
    let root = DepthWalk::calculate(&mut source, &ConcatCombinator);
    assert_eq!("abcdeeee".chars().collect::<Vec<char>>(), root);

    let mut source = chars_source("abcde");
    let root = WidthWalk::calculate(&mut source, &ConcatCombinator);
    assert_eq!("abcdeeee".chars().collect::<Vec<char>>(), root);
}

#[test]
fn hash_matches_sha256_of_concatenation() {
    let left: Digest = [0u8; 32];
    let right: Digest = [1u8; 32];

    let mut input = [0u8; 64];
    input[..32].copy_from_slice(&left);
    input[32..].copy_from_slice(&right);
    let expected: [u8; 32] = <sha2::Sha256 as sha2::Digest>::digest(input).into();
    assert_eq!(expected, hash(&left, Some(&right)));

    let mut doubled = [0u8; 64];
    doubled[..32].copy_from_slice(&left);
    doubled[32..].copy_from_slice(&left);
    let expected_dup: [u8; 32] = <sha2::Sha256 as sha2::Digest>::digest(doubled).into();
    assert_eq!(expected_dup, hash(&left, None));
}

#[test]
fn hash_duplicates_left_on_missing_right() {
    let left: Digest = [7u8; 32];
    assert_eq!(hash(&left, None), hash(&left, Some(&left)));
}

#[test]
fn sha256_strategies_agree_with_manual_tree() {
    let a: Digest = [1u8; 32];
    let b: Digest = [2u8; 32];
    let c: Digest = [3u8; 32];
    // three leaves: root = hash(hash(a, b), hash(c, c))
    let expected = hash(&hash(&a, Some(&b)), Some(&hash(&c, None)));

    let mut depth_source = LeafSource::new(vec![a, b, c]);
    assert_eq!(expected, DepthWalk::calculate(&mut depth_source, &Sha256Combinator));
    let mut width_source = LeafSource::new(vec![a, b, c]);
    assert_eq!(expected, WidthWalk::calculate(&mut width_source, &Sha256Combinator));
}

#[test]
fn source_is_forward_only_and_peekable() {
    let mut source = LeafSource::new(vec![vec!['x'], vec!['y']]);
    assert_eq!(2, source.len());
    assert!(source.has_more());
    assert_eq!(Some(vec!['x']), source.next());
    assert!(source.has_more());
    assert_eq!(Some(vec!['y']), source.next());
    assert!(!source.has_more());
    assert_eq!(None, source.next());
    assert_eq!(0, source.len());
}
