use hypersketch::entry::{CompositeEntry, Part};
use hypersketch::registers::{hash_parts, Bucket, HashParts, BUCKETS, EMPTY_SIGNATURE, MAX_RANK, SIGNATURES};
use hypersketch::sketch::CardinalitySketch;

const EMPTY: Bucket = Bucket { rank: 0, min_signature: 1023 };

fn sketch_with(bucket: usize, rank: u8, signature: u16) -> CardinalitySketch {
    let mut bytes = CardinalitySketch::new().save();
    let word = u16::from(rank) * 1024 + signature;
    bytes[8 + 2 * bucket] = word.to_le_bytes()[0];
    bytes[8 + 2 * bucket + 1] = word.to_le_bytes()[1];
    CardinalitySketch::load(&bytes).unwrap()
}

#[test]
fn parts_of_zero_hash() {
    let parts = hash_parts(0);
    assert_eq!(parts, HashParts { bucket: 0, rank: 51, signature: 0 });
    assert_eq!(parts.offer(), Bucket { rank: 51, min_signature: 0 });
}

#[test]
fn parts_of_all_ones_hash() {
    let parts = hash_parts(u128::MAX);
    assert_eq!(parts, HashParts { bucket: 16383, rank: 1, signature: 1023 });
    assert_eq!(parts.offer(), Bucket { rank: 1, min_signature: 1023 });
}

#[test]
fn parts_of_chosen_hash() {
    let h: u128 = (0x1234u128 << 64) | 0x8000_0000_0000_0001u128;
    let parts = hash_parts(h);
    assert_eq!(parts.bucket, 8192);
    assert_eq!(parts.rank, 50);
    assert_eq!(parts.signature, 0x234);
    assert_eq!(parts.offer(), Bucket { rank: 50, min_signature: 0x234 });
}

#[test]
fn bucket_is_top_of_lower_half() {
    let h: u128 = 0x0004_0000_0000_0000u128;
    assert_eq!(hash_parts(h).bucket, 1);
    assert_eq!(hash_parts(h).rank, 51);
    assert_eq!(hash_parts(h - 1).bucket, 0);
    assert_eq!(hash_parts(h - 1).rank, 1);
}

#[test]
fn rank_counts_leading_zeros_of_remainder() {
    let mut remainder: u128 = 1;
    let mut expected: u8 = 50;
    while remainder < (1u128 << 50) {
        assert_eq!(hash_parts(remainder).rank, expected);
        assert_eq!(hash_parts(2 * remainder - 1).rank, expected);
        remainder *= 2;
        expected -= 1;
    }
    assert_eq!(expected, 0);
}

#[test]
fn signature_ignores_lower_half_and_high_bits() {
    assert_eq!(hash_parts(u64::MAX as u128).signature, 0);
    assert_eq!(hash_parts(1u128 << 64).signature, 1);
    assert_eq!(hash_parts(1u128 << 74).signature, 0);
    assert_eq!(hash_parts(0x3ffu128 << 64).signature, 1023);
}

#[test]
fn parts_stay_in_range() {
    let mut h: u128 = 0x9e37_79b9_7f4a_7c15_f39c_c060_5ced_c834;
    for _ in 0..2000 {
        let parts = hash_parts(h);
        assert!(parts.bucket < BUCKETS);
        assert!(parts.rank >= 1 && parts.rank <= MAX_RANK);
        assert!(parts.signature < SIGNATURES);
        h = h.wrapping_mul(0x2360_ed05_1fc6_5da4_4385_df64_9fcc_f645).wrapping_add(0x5851_f42d_4c95_7f2d);
    }
}

#[test]
fn empty_bucket_has_rank_zero_and_the_greatest_signature() {
    assert_eq!(Bucket::empty(), EMPTY);
    assert_eq!(EMPTY_SIGNATURE, 1023);
    assert_eq!(EMPTY_SIGNATURE, SIGNATURES - 1);
    assert!(Bucket::empty().is_empty());
    assert!(!Bucket { rank: 0, min_signature: 1022 }.is_empty());
    assert!(!Bucket { rank: 1, min_signature: 1023 }.is_empty());
}

#[test]
fn join_takes_the_greater_rank_and_the_lesser_signature() {
    let x = Bucket { rank: 3, min_signature: 5 };
    let y = Bucket { rank: 2, min_signature: 1 };
    assert_eq!(x.join(&y), Bucket { rank: 3, min_signature: 1 });
    assert_eq!(y.join(&x), Bucket { rank: 3, min_signature: 1 });
    assert_eq!(x.join(&x), x);
    assert_eq!(x.join(&EMPTY), x);
    assert_eq!(EMPTY.join(&y), y);
    assert_eq!(
        Bucket { rank: 7, min_signature: 9 }.join(&Bucket { rank: 7, min_signature: 4 }),
        Bucket { rank: 7, min_signature: 4 }
    );
}

#[test]
fn new_sketch_has_only_empty_buckets() {
    let sketch = CardinalitySketch::new();
    for bucket in 0..BUCKETS {
        assert_eq!(sketch.bucket(bucket), Some(EMPTY));
    }
    assert_eq!(sketch.bucket(BUCKETS), None);
    assert_eq!(sketch.bucket(usize::MAX), None);
}

#[test]
fn absorbing_sets_the_bucket_of_the_digest() {
    let mut entry = CompositeEntry::new();
    entry.add(&Part::Bytes(b"some element".to_vec()));
    let parts = entry.parts();
    assert_eq!(parts, hash_parts(entry.digest()));

    let mut sketch = CardinalitySketch::new();
    sketch.add_entry(&entry);
    for bucket in 0..BUCKETS {
        let expected = if bucket == parts.bucket {
            Bucket { rank: parts.rank, min_signature: parts.signature }
        } else {
            EMPTY
        };
        assert_eq!(sketch.bucket(bucket), Some(expected));
    }
}

#[test]
fn absorbing_into_a_higher_bucket_keeps_the_rank_and_takes_the_lesser_signature() {
    let mut entry = CompositeEntry::new();
    entry.add(&Part::Bytes(b"some element".to_vec()));
    let parts = entry.parts();
    assert!(parts.signature < 1023);

    let mut sketch = sketch_with(parts.bucket, 60, 1023);
    sketch.add_entry(&entry);
    assert_eq!(
        sketch.bucket(parts.bucket),
        Some(Bucket { rank: 60, min_signature: parts.signature })
    );

    let mut low = sketch_with(parts.bucket, 60, 0);
    low.add_entry(&entry);
    assert_eq!(low.bucket(parts.bucket), Some(Bucket { rank: 60, min_signature: 0 }));
}

#[test]
fn absorbing_follows_the_rule_for_many_elements() {
    let mut sketch = CardinalitySketch::new();
    let mut model = vec![EMPTY; BUCKETS];
    for i in 0..50_000u64 {
        let mut entry = CompositeEntry::new();
        entry.add(&Part::Hash(i));
        let parts = entry.parts();
        let held = model[parts.bucket];
        model[parts.bucket] = Bucket {
            rank: held.rank.max(parts.rank),
            min_signature: held.min_signature.min(parts.signature),
        };
        sketch.add_entry(&entry);
    }
    for bucket in 0..BUCKETS {
        assert_eq!(sketch.bucket(bucket), Some(model[bucket]));
    }
}

#[test]
fn absorbing_only_improves() {
    let mut sketch = CardinalitySketch::new();
    for i in 0..3000u64 {
        let before = sketch.clone();
        sketch.add(&Part::Hash(i));
        let mut changed = 0;
        for bucket in 0..BUCKETS {
            let (old, new) = (before.bucket(bucket).unwrap(), sketch.bucket(bucket).unwrap());
            assert!(new.rank >= old.rank);
            assert!(new.min_signature <= old.min_signature);
            if new != old {
                changed += 1;
            }
        }
        assert!(changed <= 1);
    }
}

#[test]
fn absorbing_twice_changes_nothing() {
    let mut sketch = CardinalitySketch::new();
    sketch.add(&Part::Bytes(b"again".to_vec()));
    let once = sketch.save();
    sketch.add(&Part::Bytes(b"again".to_vec()));
    assert_eq!(sketch.save(), once);
}

#[test]
fn absorbing_in_either_order_gives_the_same_registers() {
    let mut forward = CardinalitySketch::new();
    let mut backward = CardinalitySketch::new();
    for i in 0..5000u64 {
        forward.add(&Part::Hash(i));
        backward.add(&Part::Hash(4999 - i));
    }
    assert_eq!(forward.save(), backward.save());
    assert!(forward == backward);
}
