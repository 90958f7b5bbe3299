use hypersketch::entry::{CompositeEntry, Part};
use hypersketch::registers::{Bucket, BUCKETS};
use hypersketch::sketch::CardinalitySketch;

fn sketch_of(from: u64, to: u64) -> CardinalitySketch {
    let hashes: Vec<u64> = (from..to).collect();
    CardinalitySketch::from_hashes(&hashes)
}

#[test]
fn new_sketch_is_empty() {
    let sketch = CardinalitySketch::new();
    assert!(sketch.is_empty());
    assert!(sketch.outside().is_empty());
    assert_eq!(sketch.bucket_count(), BUCKETS);
    assert_eq!(sketch.bucket_count(), 16384);
}

#[test]
fn default_sketch_is_the_new_sketch() {
    assert!(CardinalitySketch::default() == CardinalitySketch::new());
    assert!(CardinalitySketch::default().is_empty());
}

#[test]
fn sketch_with_an_element_is_not_empty() {
    let mut sketch = CardinalitySketch::new();
    sketch.add(&Part::Hash(0));
    assert!(!sketch.is_empty());
    assert!(sketch != CardinalitySketch::new());
}

#[test]
fn sketch_with_the_empty_entry_is_not_empty() {
    let mut sketch = CardinalitySketch::new();
    sketch.add_entry(&CompositeEntry::new());
    assert!(!sketch.is_empty());
}

#[test]
fn add_is_one_entry_with_one_part() {
    let part = Part::Bytes(b"element".to_vec());
    let mut direct = CardinalitySketch::new();
    direct.add(&part);

    let mut entry = CompositeEntry::new();
    entry.add(&part);
    let mut by_entry = CardinalitySketch::new();
    by_entry.add_entry(&entry);

    assert!(direct == by_entry);
    assert_eq!(direct.save(), by_entry.save());
}

#[test]
fn from_hashes_absorbs_each_hash() {
    let hashes = [3u64, 1, 4, 1, 5, 9, 2, 6, 5, 3, 5];
    let built = CardinalitySketch::from_hashes(&hashes);
    let mut by_hand = CardinalitySketch::new();
    for h in hashes {
        by_hand.add(&Part::Hash(h));
    }
    assert!(built == by_hand);
    assert!(!built.is_empty());
}

#[test]
fn from_no_hashes_is_empty() {
    assert!(CardinalitySketch::from_hashes(&[]).is_empty());
}

#[test]
fn from_hashes_has_the_ranks_of_the_outside_sketch() {
    let hashes: Vec<u64> = (0..1000).collect();
    let built = CardinalitySketch::from_hashes(&hashes);
    if 1u16.to_ne_bytes() == 1u16.to_le_bytes() {
        let outside: hyperminhash::Sketch = hashes.iter().copied().collect();
        assert_eq!(built.outside().cardinality(), outside.cardinality());
    }
}

#[test]
fn union_with_itself_changes_nothing() {
    let mut a = sketch_of(0, 5000);
    let before = a.save();
    let copy = a.clone();
    a.union(&copy);
    assert_eq!(a.save(), before);
    assert_eq!(a.outside().cardinality(), copy.outside().cardinality());
}

#[test]
fn union_is_commutative() {
    let a = sketch_of(0, 3000);
    let b = sketch_of(2000, 7000);
    let mut ab = a.clone();
    ab.union(&b);
    let mut ba = b.clone();
    ba.union(&a);
    assert_eq!(ab.save(), ba.save());
}

#[test]
fn union_is_associative() {
    let a = sketch_of(0, 3000);
    let b = sketch_of(2000, 7000);
    let c = sketch_of(6000, 6500);

    let mut left = a.clone();
    left.union(&b);
    left.union(&c);

    let mut bc = b.clone();
    bc.union(&c);
    let mut right = a.clone();
    right.union(&bc);

    assert_eq!(left.save(), right.save());
}

#[test]
fn union_takes_the_greater_rank_and_the_lesser_signature() {
    let a = sketch_of(0, 4000);
    let b = sketch_of(4000, 9000);
    let mut u = a.clone();
    u.union(&b);
    for bucket in 0..BUCKETS {
        let (ra, rb) = (a.bucket(bucket).unwrap(), b.bucket(bucket).unwrap());
        let expected = Bucket {
            rank: ra.rank.max(rb.rank),
            min_signature: ra.min_signature.min(rb.min_signature),
        };
        assert_eq!(u.bucket(bucket), Some(expected));
    }
}

#[test]
fn union_joins_rank_and_signature_each_on_its_own() {
    let mut bytes = CardinalitySketch::new().save();
    bytes[8..10].copy_from_slice(&(3u16 * 1024 + 5).to_le_bytes());
    let mut a = CardinalitySketch::load(&bytes).unwrap();
    bytes[8..10].copy_from_slice(&(2u16 * 1024 + 1).to_le_bytes());
    let b = CardinalitySketch::load(&bytes).unwrap();
    assert_eq!(a.bucket(0), Some(Bucket { rank: 3, min_signature: 5 }));
    assert_eq!(b.bucket(0), Some(Bucket { rank: 2, min_signature: 1 }));
    a.union(&b);
    assert_eq!(a.bucket(0), Some(Bucket { rank: 3, min_signature: 1 }));
    assert_eq!(a.bucket(1), Some(Bucket { rank: 0, min_signature: 1023 }));
}

#[test]
fn union_is_the_sketch_of_both_streams() {
    let mut u = sketch_of(0, 4000);
    u.union(&sketch_of(4000, 9000));
    assert!(u == sketch_of(0, 9000));
}

#[test]
fn union_with_empty_changes_nothing() {
    let mut a = sketch_of(0, 100);
    let before = a.save();
    a.union(&CardinalitySketch::new());
    assert_eq!(a.save(), before);

    let mut e = CardinalitySketch::new();
    e.union(&a);
    assert_eq!(e.save(), before);
}

#[test]
fn union_leaves_the_other_operand() {
    let mut a = sketch_of(0, 100);
    let b = sketch_of(100, 200);
    let before = b.save();
    a.union(&b);
    assert_eq!(b.save(), before);
}

#[test]
fn merged_with_leaves_both_operands() {
    let a = sketch_of(0, 100);
    let b = sketch_of(100, 200);
    let (a_before, b_before) = (a.save(), b.save());
    let m = a.merged_with(&b);
    assert_eq!(a.save(), a_before);
    assert_eq!(b.save(), b_before);
    let mut u = a.clone();
    u.union(&b);
    assert!(m == u);
    assert!(m != a);
}

#[test]
fn clone_is_independent() {
    let a = sketch_of(0, 100);
    let mut copy = a.clone();
    assert!(copy == a);
    copy.add(&Part::Hash(1_000_000));
    assert!(copy != a);
    assert!(a == sketch_of(0, 100));
}

#[test]
fn equality_is_over_registers() {
    let a = sketch_of(0, 100);
    let mut b = CardinalitySketch::new();
    for i in (0..100u64).rev() {
        b.add(&Part::Hash(i));
        b.add(&Part::Hash(i));
    }
    assert!(a == b);
    assert!(a != sketch_of(0, 101));
}
