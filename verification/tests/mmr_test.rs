//! The MMR engine: appends, peaks, roots, inclusion proofs.

use fossil_mmr::hasher::hash_pair;
use fossil_mmr::hex::u64_to_hex;
use fossil_mmr::hex::validate_u256_hex;
use fossil_mmr::mmr::Mmr;
use fossil_mmr::positions::find_peaks;

fn leaf(i: u64) -> String {
    format!("0x{:02x}", i)
}

fn build_mmr(n: u64) -> (Mmr, Vec<String>) {
    let mut mmr = Mmr::new();
    let mut hashes: Vec<String> = vec![];
    let mut i: u64 = 1;
    while i <= n {
        let h = leaf(i);
        mmr.append(h.clone()).unwrap();
        hashes.push(h);
        i += 1;
    }
    (mmr, hashes)
}

#[test]
fn test_mmr_proofs() {
    let (mmr, hashes) = build_mmr(8);
    let indices: Vec<u64> = vec![1, 2, 4, 5, 8, 9, 11, 12];
    for (i, index) in indices.iter().enumerate() {
        let proof = mmr.get_proof(*index, None).unwrap();
        assert!(mmr.verify_proof(&proof, &hashes[i], None).unwrap());
    }
}

#[test]
fn test_append_counters() {
    // Element counts after l leaves follow 2l - popcount(l).
    let expected: Vec<u64> = vec![1, 3, 4, 7, 8, 10, 11, 15];
    let mut mmr = Mmr::new();
    for l in 1..=8u64 {
        let r = mmr.append(leaf(l)).unwrap();
        assert_eq!(r.leaves_count, l);
        assert_eq!(r.elements_count, expected[(l - 1) as usize]);
        assert_eq!(mmr.elements_count(), expected[(l - 1) as usize]);
    }
}

#[test]
fn test_four_leaves_single_peak() {
    let (mmr, _) = build_mmr(4);
    assert_eq!(mmr.elements_count(), 7);
    assert_eq!(mmr.leaves_count(), 4);
    let peaks = mmr.get_peaks();
    assert_eq!(peaks.len(), 1);
    let expected = hash_pair(
        &hash_pair(&leaf(1), &leaf(2)),
        &hash_pair(&leaf(3), &leaf(4)),
    );
    assert_eq!(peaks[0], expected);
}

#[test]
fn test_three_leaves_two_peaks() {
    let (mmr, _) = build_mmr(3);
    assert_eq!(mmr.elements_count(), 4);
    assert_eq!(mmr.leaves_count(), 3);
    let peaks = mmr.get_peaks();
    assert_eq!(peaks.len(), 2);
    assert_eq!(peaks[0], hash_pair(&leaf(1), &leaf(2)));
    assert_eq!(peaks[1], leaf(3));
}

#[test]
fn test_root_formula() {
    let (mmr, _) = build_mmr(3);
    let bag = mmr.bag_the_peaks();
    let expected_bag = hash_pair(&hash_pair(&leaf(1), &leaf(2)), &leaf(3));
    assert_eq!(bag, expected_bag);
    let root = mmr.calculate_root_hash(&bag, mmr.elements_count()).unwrap();
    assert_eq!(root, hash_pair(&u64_to_hex(4), &bag));
    assert!(validate_u256_hex(&root).is_ok());
}

#[test]
fn test_root_deterministic() {
    // Two builds of the same leaf sequence give byte-identical roots.
    let (m1, _) = build_mmr(7);
    let (m2, _) = build_mmr(7);
    let b1 = m1.bag_the_peaks();
    let b2 = m2.bag_the_peaks();
    let r1 = m1.calculate_root_hash(&b1, m1.elements_count()).unwrap();
    let r2 = m2.calculate_root_hash(&b2, m2.elements_count()).unwrap();
    assert_eq!(r1, r2);
}

#[test]
fn test_proof_rejects_mutation() {
    let (mmr, hashes) = build_mmr(8);
    let good = mmr.get_proof(4, None).unwrap();
    assert!(mmr.verify_proof(&good, &hashes[2], None).unwrap());

    // A corrupted sibling makes verification fail.
    let mut bad_sibling = mmr.get_proof(4, None).unwrap();
    bad_sibling.siblings_hashes[0] = leaf(99);
    assert!(!mmr.verify_proof(&bad_sibling, &hashes[2], None).unwrap());

    // A corrupted leaf hash makes verification fail.
    let mut bad_leaf = mmr.get_proof(4, None).unwrap();
    bad_leaf.element_hash = leaf(99);
    assert!(!mmr.verify_proof(&bad_leaf, &hashes[2], None).unwrap());

    // A corrupted peak list makes verification fail.
    let mut bad_peaks = mmr.get_proof(4, None).unwrap();
    bad_peaks.peaks_hashes[0] = leaf(99);
    assert!(!mmr.verify_proof(&bad_peaks, &hashes[2], None).unwrap());

    // A wrong element index makes verification fail.
    let mut bad_index = mmr.get_proof(4, None).unwrap();
    bad_index.element_index = 5;
    assert!(!mmr.verify_proof(&bad_index, &hashes[2], None).unwrap());
}

#[test]
fn test_proof_errors() {
    let (mmr, _) = build_mmr(4);
    // Position 0 and positions beyond the size are invalid.
    assert!(mmr.get_proof(0, None).is_err());
    assert!(mmr.get_proof(8, None).is_err());
    // Interior positions are not leaves.
    assert!(mmr.get_proof(3, None).is_err());
    assert!(mmr.get_proof(7, None).is_err());
    // A historical size beyond the current one is out of range.
    assert!(mmr.get_proof(1, Some(100)).is_err());
}

#[test]
fn test_hash_index_round_trip() {
    // hash_to_index and the node table stay aligned for every leaf.
    let (mmr, hashes) = build_mmr(5);
    for (i, h) in hashes.iter().enumerate() {
        let idx = mmr.get_element_index_for_value(h).unwrap();
        let back = mmr.get_value_for_element_index(idx).unwrap();
        assert_eq!(&back, h);
        let _ = i;
    }
    assert_eq!(mmr.get_element_index_for_value(&leaf(1)).unwrap(), 1);
    assert_eq!(mmr.get_element_index_for_value(&leaf(2)).unwrap(), 2);
    assert_eq!(mmr.get_element_index_for_value(&leaf(3)).unwrap(), 4);
}

#[test]
fn test_find_peaks_positions() {
    assert_eq!(find_peaks(0), Vec::<u64>::new());
    assert_eq!(find_peaks(1), vec![1]);
    assert_eq!(find_peaks(3), vec![3]);
    assert_eq!(find_peaks(4), vec![3, 4]);
    assert_eq!(find_peaks(7), vec![7]);
    assert_eq!(find_peaks(11), vec![7, 10, 11]);
    // Sizes that are not well-formed give no peaks.
    assert_eq!(find_peaks(2), Vec::<u64>::new());
    assert_eq!(find_peaks(5), Vec::<u64>::new());
}

#[test]
fn test_append_rejects_malformed_leaf() {
    let mut mmr = Mmr::new();
    assert!(mmr.append("01".to_string()).is_err());
    assert!(mmr.append("0x".to_string()).is_err());
    assert!(mmr.append("0xZZ".to_string()).is_err());
    assert_eq!(mmr.elements_count(), 0);
}

#[test]
fn test_validate_u256_hex_cases() {
    assert!(validate_u256_hex("0x0").is_ok());
    assert!(validate_u256_hex("0x").is_ok());
    assert!(validate_u256_hex("0xABCDEF").is_ok());
    let max = format!("0x{}", "f".repeat(64));
    assert!(validate_u256_hex(&max).is_ok());
    let too_long = format!("0x{}", "f".repeat(65));
    assert!(validate_u256_hex(&too_long).is_err());
    assert!(validate_u256_hex("00").is_err());
    assert!(validate_u256_hex("0xzz").is_err());
}

#[test]
fn test_u64_to_hex_values() {
    assert_eq!(u64_to_hex(0), "0x0");
    assert_eq!(u64_to_hex(10), "0xa");
    assert_eq!(u64_to_hex(255), "0xff");
    assert_eq!(u64_to_hex(4096), "0x1000");
    assert_eq!(u64_to_hex(u64::MAX), "0xffffffffffffffff");
}

#[test]
fn test_delete_value_index_mapping() {
    let (mut mmr, hashes) = build_mmr(3);
    assert!(mmr.get_element_index_for_value(&hashes[0]).is_some());
    mmr.delete_value_index_mapping(&hashes[0]);
    assert!(mmr.get_element_index_for_value(&hashes[0]).is_none());
    // The node table itself is untouched.
    assert_eq!(mmr.get_value_for_element_index(1).unwrap(), hashes[0]);
}
