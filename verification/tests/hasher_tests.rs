use prom_reaper::hasher::{assign_shard, assign_shard_from_parts, jump_consistent_hash};

#[test]
fn deterministic() {
    let shard = assign_shard("ceph_osd_op_latency", 4);
    for _ in 0..100 {
        assert_eq!(assign_shard("ceph_osd_op_latency", 4), shard);
    }
}

#[test]
fn in_range() {
    for shards in 1..=16 {
        for i in 0..1000 {
            let name = format!("metric_{}", i);
            let shard = assign_shard(&name, shards);
            assert!(shard < shards, "shard {} out of range for {}", shard, shards);
        }
    }
}

#[test]
fn minimal_movement_on_shard_change() {
    let num_metrics = 10000;
    let old_shards = 4;
    let new_shards = 5;
    let mut moved = 0;
    for i in 0..num_metrics {
        let name = format!("metric_{}", i);
        if assign_shard(&name, old_shards) != assign_shard(&name, new_shards) {
            moved += 1;
        }
    }
    // With jump consistent hash, ~1/new_shards of keys should move (20% for 4->5).
    // Allow some tolerance.
    let move_ratio = moved as f64 / num_metrics as f64;
    assert!(
        move_ratio < 0.30,
        "too many keys moved: {:.1}%",
        move_ratio * 100.0
    );
}

#[test]
fn reasonable_balance() {
    let num_shards = 4;
    let num_metrics = 10000;
    let mut counts = vec![0u32; num_shards as usize];
    for i in 0..num_metrics {
        let name = format!("metric_{}", i);
        counts[assign_shard(&name, num_shards) as usize] += 1;
    }
    let expected = num_metrics as f64 / num_shards as f64;
    for (i, &count) in counts.iter().enumerate() {
        let ratio = count as f64 / expected;
        assert!(
            (0.7..1.3).contains(&ratio),
            "shard {} has {} metrics, expected ~{:.0} (ratio {:.2})",
            i,
            count,
            expected,
            ratio
        );
    }
}

/// The double-precision reference form of the jump consistent hash.
fn jump_float(mut key: u64, num_buckets: u32) -> u32 {
    let mut b: i64 = -1;
    let mut j: i64 = 0;
    while j < num_buckets as i64 {
        b = j;
        key = key.wrapping_mul(2862933555777941757).wrapping_add(1);
        j = ((b.wrapping_add(1)) as f64 * ((1i64 << 31) as f64) / ((key >> 33) as f64 + 1.0))
            as i64;
    }
    b as u32
}

#[test]
fn jump_matches_double_precision_reference() {
    // The integer round-to-nearest-even emulation must be bit-identical to
    // the floating-point formula, across keys and bucket counts.
    let mut key: u64 = 0x9E3779B97F4A7C15;
    for n in [1u32, 2, 3, 4, 5, 7, 16, 100, 1000, 65536, 1 << 20] {
        for _ in 0..2000 {
            key = key.wrapping_mul(6364136223846793005).wrapping_add(1442695040888963407);
            assert_eq!(
                jump_consistent_hash(key, n),
                jump_float(key, n),
                "bucket mismatch for key {key} and {n} buckets"
            );
        }
    }
    for n in 1..=64u32 {
        for k in 0..512u64 {
            let key2 = k.wrapping_mul(0x2545F4914F6CDD1D);
            assert_eq!(jump_consistent_hash(key2, n), jump_float(key2, n));
        }
    }
}

#[test]
fn label_key_changes_the_shard_hash() {
    // The label key is part of the fingerprint: for some shard count the
    // same name with different labels lands elsewhere.
    let mut differs = false;
    for n in 2..=16 {
        if assign_shard_from_parts("up", "cluster=\"prod\"", n)
            != assign_shard_from_parts("up", "", n)
        {
            differs = true;
        }
    }
    assert!(differs, "label key must feed the consistent-hash key");
}
