use caret::data::Dataset;
use caret::engine::{
    extract_content_bytes, BitMask, DedupEngine, DedupStrategy, Fingerprint, SimHasher,
};
use caret::format::InputFormat;

fn dataset_of(text: &str) -> Dataset {
    Dataset::from_bytes(text.as_bytes().to_vec(), "test".to_string(), InputFormat::Jsonl)
}

#[test]
fn test_bitmask_basic() {
    let mut bm = BitMask::new(128);
    assert!(!bm.get(0));
    assert!(!bm.get(63));
    assert!(!bm.get(64));
    assert!(!bm.get(127));

    bm.set(0);
    bm.set(63);
    bm.set(64);
    bm.set(127);

    assert!(bm.get(0));
    assert!(bm.get(63));
    assert!(bm.get(64));
    assert!(bm.get(127));
    assert!(!bm.get(1));
    assert_eq!(bm.count_ones(), 4);
}

#[test]
fn test_bitmask_out_of_bounds() {
    let bm = BitMask::new(10);
    assert!(!bm.get(10));
    assert!(!bm.get(100));
}

#[test]
fn test_bitmask_outside_128() {
    let mut bm = BitMask::new(128);
    bm.set(0);
    bm.set(63);
    bm.set(64);
    bm.set(127);
    assert!(!bm.get(128));
    assert!(!bm.get(129));
    assert!(!bm.get(usize::MAX));
    assert_eq!(bm.len(), 128);
    assert!(!bm.is_empty());
}

#[test]
fn test_bitmask_partial_last_word() {
    let mut bm = BitMask::new(70);
    for i in 0..70 {
        bm.set(i);
    }
    assert_eq!(bm.count_ones(), 70);
    bm.set(69);
    assert_eq!(bm.count_ones(), 70);
    let empty = BitMask::new(0);
    assert!(empty.is_empty());
    assert_eq!(empty.count_ones(), 0);
}

#[test]
fn test_fingerprint_hamming() {
    let a = Fingerprint(0b1010);
    let b = Fingerprint(0b1001);
    assert_eq!(a.hamming_distance(b), 2);
    assert!(a.is_near_duplicate(b, 2));
    assert!(!a.is_near_duplicate(b, 1));
}

#[test]
fn test_fingerprint_identical() {
    let a = Fingerprint(0xDEADBEEF);
    assert_eq!(a.hamming_distance(a), 0);
    assert!(a.is_near_duplicate(a, 0));
}

#[test]
fn test_fingerprint_extremes() {
    let zero = Fingerprint(0);
    let ones = Fingerprint(u64::MAX);
    assert_eq!(zero.hamming_distance(ones), 64);
    assert_eq!(ones.hamming_distance(zero), 64);
    assert_eq!(Fingerprint(1 << 63).hamming_distance(zero), 1);
}

#[test]
fn test_simhash_identical_inputs() {
    let hasher = SimHasher::default();
    let fp1 = hasher.fingerprint(b"The quick brown fox jumps over the lazy dog");
    let fp2 = hasher.fingerprint(b"The quick brown fox jumps over the lazy dog");
    assert_eq!(fp1, fp2);
}

#[test]
fn test_simhash_similar_inputs() {
    let hasher = SimHasher::default();
    let fp1 = hasher.fingerprint(b"The quick brown fox jumps over the lazy dog");
    let fp2 = hasher.fingerprint(b"The quick brown fox leaps over the lazy dog");
    let dist = fp1.hamming_distance(fp2);
    assert!(dist < 20, "Expected similar inputs to have low distance, got {}", dist);
}

#[test]
fn test_simhash_different_inputs() {
    let hasher = SimHasher::default();
    let fp1 = hasher.fingerprint(b"The quick brown fox jumps over the lazy dog");
    let fp2 = hasher.fingerprint(b"Lorem ipsum dolor sit amet consectetur adipiscing elit");
    let dist = fp1.hamming_distance(fp2);
    assert!(dist > 5, "Expected different inputs to have high distance, got {}", dist);
}

#[test]
fn test_simhash_short_input() {
    let hasher = SimHasher::default();
    let fp = hasher.fingerprint(b"Hi");
    assert_ne!(fp.0, 0);
}

#[test]
fn test_fnv1a_known_values() {
    let hasher = SimHasher::default();
    assert_eq!(hasher.hash_bytes(b""), 0xcbf29ce484222325);
    assert_eq!(hasher.hash_bytes(b"a"), 0xaf63dc4c8601ec8c);
    assert_eq!(hasher.hash_bytes(b"foobar"), 0x85944171f73967e8);
}

#[test]
fn test_simhash_short_input_is_fnv() {
    let hasher = SimHasher::default();
    assert_eq!(hasher.fingerprint(b"abc").0, hasher.hash_bytes(b"abc"));
    assert_eq!(hasher.fingerprint(b"").0, 0xcbf29ce484222325);
    let wide = SimHasher::new(10);
    assert_eq!(wide.fingerprint(b"123456789").0, wide.hash_bytes(b"123456789"));
}

#[test]
fn test_simhash_single_window() {
    // One window: every accumulator is +1 or -1, so the fingerprint is the
    // hash of that window.
    let hasher = SimHasher::default();
    assert_eq!(hasher.fingerprint(b"abcd").0, hasher.hash_bytes(b"abcd"));
    let narrow = SimHasher::new(0);
    assert_eq!(narrow.fingerprint(b"ab").0, narrow.hash_bytes(b"ab"));
}

#[test]
fn test_simhash_two_windows() {
    // Two windows: a bit is set only where both window hashes have it.
    let hasher = SimHasher::new(2);
    let first = hasher.hash_bytes(b"ab");
    let second = hasher.hash_bytes(b"bc");
    assert_eq!(hasher.fingerprint(b"abc").0, first & second);
}

#[test]
fn test_extract_content_bytes() {
    let json = br#"{"prompt":"hello world","response":"goodbye moon"}"#;
    let content = extract_content_bytes(json);
    let text = String::from_utf8(content).unwrap();
    assert!(text.contains("hello world"), "Expected 'hello world' in '{}'", text);
    assert!(text.contains("goodbye moon"), "Expected 'goodbye moon' in '{}'", text);
    assert!(!text.contains("prompt"), "Should not contain key 'prompt' in '{}'", text);
    assert!(!text.contains("response"));
}

#[test]
fn test_extract_content_nested() {
    let json = br#"{"messages":[{"role":"user","content":"What is Rust?"}]}"#;
    let content = extract_content_bytes(json);
    let text = String::from_utf8(content).unwrap();
    assert!(text.contains("What is Rust?"), "Expected nested content in '{}'", text);
}

#[test]
fn test_extract_content_exact() {
    let json = br#"{"prompt":"hello world","response":"goodbye moon"}"#;
    assert_eq!(extract_content_bytes(json), b"hello world goodbye moon ".to_vec());
    let nested = br#"{"messages":[{"role":"user","content":"What is Rust?"}]}"#;
    assert_eq!(extract_content_bytes(nested), b"user What is Rust? ".to_vec());
    let flat = br#"{"role":"user","content":"What is Rust?"}"#;
    assert_eq!(extract_content_bytes(flat), b"user What is Rust? ".to_vec());
    let escaped = br#"{"a":"say \"hi\"\\"}"#;
    assert_eq!(extract_content_bytes(escaped), b"say \"hi\"\\ ".to_vec());
    assert_eq!(extract_content_bytes(b""), Vec::<u8>::new());
    assert_eq!(extract_content_bytes(br#"["x","y"]"#), b"x y ".to_vec());
    assert_eq!(extract_content_bytes(br#""alone""#), Vec::<u8>::new());
}

#[test]
fn test_extract_content_keys_absent() {
    let json = br#"{"messages":[{"role":"user","content":"What is Rust?"}]}"#;
    let text = String::from_utf8(extract_content_bytes(json)).unwrap();
    assert!(text.contains("user What is Rust?"), "got '{}'", text);
    assert!(!text.contains("messages"), "got '{}'", text);
    assert!(!text.contains("role"), "got '{}'", text);
    assert!(!text.contains("content"), "got '{}'", text);
}

#[test]
fn test_extract_content_arrays_and_objects() {
    let json = br#"{"tags":["alpha","beta"],"n":{"k":"gamma"}}"#;
    assert_eq!(extract_content_bytes(json), b"alpha beta gamma ".to_vec());
    let mixed = br#"{"a":[{"x":"y"},"z",["p",{"q":"r"}]],"b":{"c":["d"],"e":"f"}}"#;
    assert_eq!(extract_content_bytes(mixed), b"y z p r d f ".to_vec());
    let marks = br#"{"a":"{[,:]}","b{":["c]"]}"#;
    assert_eq!(extract_content_bytes(marks), b"{[,:]} c] ".to_vec());
    let loose = br#"]}{"k":"v"}"#;
    assert_eq!(extract_content_bytes(loose), b"v ".to_vec());
}

#[test]
fn test_dedup_strategy_display() {
    assert_eq!(DedupStrategy::Exact.to_string(), "exact");
    assert_eq!(DedupStrategy::SimHash { threshold: 3 }.to_string(), "simhash(t=3)");
}

#[test]
fn test_dedup_strategy_default() {
    assert!(matches!(DedupStrategy::default(), DedupStrategy::SimHash { threshold: 3 }));
    assert_eq!(DedupStrategy::SimHash { threshold: 4000000000 }.to_string(), "simhash(t=4000000000)");
    assert_eq!(DedupStrategy::SimHash { threshold: 0 }.to_string(), "simhash(t=0)");
}

#[test]
fn test_exact_dedup_small_corpus() {
    let dataset = dataset_of("A\nB\nA\nC\nB");
    let result = DedupEngine::new(DedupStrategy::Exact).scan(&dataset);
    assert_eq!(result.total_lines, 5);
    assert_eq!(result.canonical_map, vec![0, 1, 0, 3, 1]);
    let flagged: Vec<usize> = (0..5).filter(|i| result.is_duplicate(*i)).collect();
    assert_eq!(flagged, vec![2, 4]);
    assert_eq!(result.unique_count, 3);
    assert_eq!(result.duplicate_count, 2);
    assert_eq!(result.duplicates.count_ones() + result.unique_count, result.total_lines);
    assert!(!result.is_duplicate(5));
}

#[test]
fn test_similarity_dedup_threshold_3() {
    let first = r#"{"prompt":"Explain in detail how a binary search tree keeps its keys in order and why lookups take logarithmic time on average when the tree is balanced","response":"A binary search tree stores smaller keys to the left and larger keys to the right of every node, so each comparison halves the part of the tree that is left to search"}"#;
    let second = r#"{"prompt":"Explain in detail how a binary search tree keeps its keys in order and why lookups take logarithmic time on average when the tree is balanced","response":"A binary search tree stores smaller keys to the left and larger keys to the right of every node, so each comparison halves the part of the tree that is left to search."}"#;
    let third = r#"{"prompt":"What is the capital of France?","response":"Paris has been the capital since the tenth century"}"#;
    let dataset = dataset_of(&format!("{}\n{}\n{}", first, second, third));
    let result = DedupEngine::new(DedupStrategy::SimHash { threshold: 3 }).scan(&dataset);
    assert_eq!(result.total_lines, 3);
    assert!(!result.is_duplicate(0));
    assert!(result.is_duplicate(1));
    assert!(!result.is_duplicate(2));
    assert_eq!(result.canonical_map, vec![0, 0, 2]);
    assert_eq!(result.unique_count, 2);
}

#[test]
fn test_scan_invariants_hold() {
    let dataset = dataset_of("x\ny\nx\nx\nz\ny\n\n\nz");
    for strategy in [DedupStrategy::Exact, DedupStrategy::SimHash { threshold: 0 }] {
        let result = DedupEngine::new(strategy).scan(&dataset);
        let n = result.total_lines;
        assert_eq!(n, 9);
        assert_eq!(result.fingerprints.len(), n);
        assert_eq!(result.canonical_map.len(), n);
        for i in 0..n {
            let c = result.canonical_map[i];
            assert!(c <= i);
            assert_eq!(result.canonical_map[c], c);
            assert!(!result.is_duplicate(c));
            assert_eq!(result.is_duplicate(i), c != i);
        }
        assert_eq!(result.duplicates.count_ones(), result.duplicate_count);
        assert_eq!(result.duplicate_count + result.unique_count, n);
    }
    let exact = DedupEngine::new(DedupStrategy::Exact).scan(&dataset);
    assert_eq!(exact.canonical_map, vec![0, 1, 0, 0, 4, 1, 6, 6, 4]);
}

#[test]
fn test_scan_fingerprints_do_not_depend_on_the_run() {
    let dataset = dataset_of("{\"a\":\"one\"}\n{\"a\":\"two\"}\n{\"a\":\"one\"}");
    let engine = DedupEngine::new(DedupStrategy::default());
    let first = engine.scan(&dataset);
    let second = engine.scan(&dataset);
    assert_eq!(first.fingerprints, second.fingerprints);
    for i in 0..3 {
        assert_eq!(first.fingerprints[i], engine.fingerprint_record(&dataset, i));
    }
    assert_eq!(first.fingerprints[0], first.fingerprints[2]);
    let hasher = SimHasher::default();
    assert_eq!(first.fingerprints[0], hasher.fingerprint(b"one "));
}

#[test]
fn test_scan_invalid_utf8_is_empty_content() {
    let bytes = vec![0xff, 0xfe, b'\n', b'o', b'k', b'\n', 0xc3];
    let dataset = Dataset::from_bytes(bytes, "raw".to_string(), InputFormat::Jsonl);
    let result = DedupEngine::new(DedupStrategy::Exact).scan(&dataset);
    assert_eq!(result.total_lines, 3);
    assert_eq!(result.fingerprints[0].0, 0xcbf29ce484222325);
    assert_eq!(result.fingerprints[2].0, 0xcbf29ce484222325);
    assert_eq!(result.canonical_map, vec![0, 1, 0]);
}

#[test]
fn test_with_shingle_size() {
    let dataset = dataset_of("{\"t\":\"abcdefgh\"}");
    let engine = DedupEngine::new(DedupStrategy::default()).with_shingle_size(3);
    let result = engine.scan(&dataset);
    assert_eq!(result.fingerprints[0], SimHasher::new(3).fingerprint(b"abcdefgh "));
}
