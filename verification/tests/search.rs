use permhash::hashes::Hashes;
use permhash::permute::orderings;
use permhash::search::{can_sweep, ordering_matches, sweep, sweep_in_batches, SearchResult, BATCH};

fn tokens(items: &[&str]) -> Vec<Vec<u8>> {
    items.iter().map(|item| item.as_bytes().to_vec()).collect()
}

#[test]
fn end_to_end_match_is_reported() {
    let lines = tokens(&["abc", "def"]);
    let target = Hashes::Md5.digest(b"abc-def");
    assert!(can_sweep(&lines, b"-"));
    let result = sweep(Hashes::Md5, &lines, b"-", &target);
    assert_eq!(result, SearchResult::Found(b"abc-def".to_vec()));
}

#[test]
fn end_to_end_exhaustion_is_reported() {
    let lines = tokens(&["abc", "def"]);
    let target = Hashes::Md5.digest(b"xyz");
    assert!(can_sweep(&lines, b"-"));
    let result = sweep(Hashes::Md5, &lines, b"-", &target);
    assert_eq!(result, SearchResult::Exhausted);
}

#[test]
fn the_other_ordering_is_found_too() {
    let lines = tokens(&["abc", "def"]);
    let target = Hashes::Sha256.digest(b"def-abc");
    let result = sweep(Hashes::Sha256, &lines, b"-", &target);
    assert_eq!(result, SearchResult::Found(b"def-abc".to_vec()));
}

#[test]
fn single_match_is_reported_whatever_the_pool_size() {
    let lines = tokens(&["one", "two", "three", "four", "five", "six"]);
    let target = Hashes::Sha1.digest(b"four,six,one,five,three,two");
    assert!(can_sweep(&lines, b","));
    for workers in 1..=8usize {
        let pool = rayon::ThreadPoolBuilder::new()
            .num_threads(workers)
            .build()
            .unwrap();
        let result = pool.install(|| sweep(Hashes::Sha1, &lines, b",", &target));
        assert_eq!(
            result,
            SearchResult::Found(b"four,six,one,five,three,two".to_vec())
        );
    }
}

#[test]
fn exhaustion_is_reported_whatever_the_pool_size() {
    let lines = tokens(&["one", "two", "three", "four", "five"]);
    let target = Hashes::Sha1.digest(b"one,two,three,four,six");
    for workers in 1..=4usize {
        let pool = rayon::ThreadPoolBuilder::new()
            .num_threads(workers)
            .build()
            .unwrap();
        let result = pool.install(|| sweep(Hashes::Sha1, &lines, b",", &target));
        assert_eq!(result, SearchResult::Exhausted);
    }
}

#[test]
fn exhaustion_means_that_every_candidate_failed() {
    let lines = tokens(&["a", "b", "c", "d", "e"]);
    let target = Hashes::Md5.digest(b"not among them");
    assert_eq!(sweep(Hashes::Md5, &lines, b"", &target), SearchResult::Exhausted);
    let candidates = orderings(lines.len());
    let mut evaluated: usize = 0;
    for order in &candidates {
        assert!(!ordering_matches(Hashes::Md5, &lines, order, b"", &target));
        evaluated += 1;
    }
    assert_eq!(evaluated, 120);
}

#[test]
fn exhaustion_comes_after_all_candidates() {
    let names = ["a", "b", "c", "d", "e", "f", "g", "h"];
    let mut expected: u64 = 1;
    for n in 0..=8usize {
        if n > 0 {
            expected *= n as u64;
        }
        let lines = tokens(&names[..n]);
        let target = Hashes::Md5.digest(b"not among them");
        let batches: Vec<usize> = if n <= 6 {
            vec![1, 2, 7, 100, BATCH]
        } else {
            vec![100, 1000, BATCH]
        };
        for batch in batches {
            let (result, tried) = sweep_in_batches(Hashes::Md5, &lines, b"+", &target, batch);
            assert_eq!(result, SearchResult::Exhausted);
            assert_eq!(tried, expected);
        }
    }
}

#[test]
fn match_is_found_whatever_the_batch_size() {
    let lines = tokens(&["one", "two", "three", "four", "five"]);
    let target = Hashes::Sha256.digest(b"five two four one three");
    for batch in [1usize, 2, 3, 24, 119, 120, 121, BATCH] {
        let (result, tried) = sweep_in_batches(Hashes::Sha256, &lines, b" ", &target, batch);
        assert_eq!(
            result,
            SearchResult::Found(b"five two four one three".to_vec())
        );
        assert!(tried >= 1);
        assert!(tried <= 120);
    }
}

#[test]
fn first_candidate_is_the_tokens_as_they_stand() {
    let lines = tokens(&["one", "two", "three"]);
    let target = Hashes::Sha1.digest(b"one two three");
    let (result, tried) = sweep_in_batches(Hashes::Sha1, &lines, b" ", &target, 1);
    assert_eq!(result, SearchResult::Found(b"one two three".to_vec()));
    assert_eq!(tried, 1);
}

#[test]
fn one_of_several_matches_is_reported() {
    let lines = tokens(&["ab", "ab", "c"]);
    let target = Hashes::Md5.digest(b"ab ab c");
    let result = sweep(Hashes::Md5, &lines, b" ", &target);
    assert_eq!(result, SearchResult::Found(b"ab ab c".to_vec()));
}

#[test]
fn sweep_of_no_token_tries_the_empty_string() {
    let none: Vec<Vec<u8>> = Vec::new();
    let hit = Hashes::Sha224.digest(b"");
    assert_eq!(
        sweep(Hashes::Sha224, &none, b"-", &hit),
        SearchResult::Found(Vec::new())
    );
    let miss = Hashes::Sha224.digest(b"-");
    assert_eq!(sweep(Hashes::Sha224, &none, b"-", &miss), SearchResult::Exhausted);
}

#[test]
fn sweep_of_one_token_emits_no_delimiter() {
    let one = tokens(&["abc"]);
    let target = Hashes::Sha512.digest(b"abc");
    assert_eq!(
        sweep(Hashes::Sha512, &one, b"-", &target),
        SearchResult::Found(b"abc".to_vec())
    );
}

#[test]
fn sweep_with_the_empty_delimiter() {
    let lines = tokens(&["abc", "def", "ghi"]);
    let target = Hashes::Sha384.digest(b"ghiabcdef");
    assert_eq!(
        sweep(Hashes::Sha384, &lines, b"", &target),
        SearchResult::Found(b"ghiabcdef".to_vec())
    );
}

#[test]
fn ordering_matches_checks_one_candidate() {
    let lines = tokens(&["abc", "def", "ghi"]);
    let target = Hashes::Md5.digest(b"ghi:abc:def");
    assert!(ordering_matches(Hashes::Md5, &lines, &[2, 0, 1], b":", &target));
    assert!(!ordering_matches(Hashes::Md5, &lines, &[0, 1, 2], b":", &target));
    assert!(!ordering_matches(Hashes::Md5, &lines, &[2, 0, 1], b"-", &target));
}

#[test]
fn too_many_tokens_cannot_be_swept() {
    let sixteen: Vec<Vec<u8>> = vec![b"x".to_vec(); 16];
    let seventeen: Vec<Vec<u8>> = vec![b"x".to_vec(); 17];
    assert!(can_sweep(&sixteen, b"-"));
    assert!(!can_sweep(&seventeen, b"-"));
    assert!(can_sweep(&Vec::new(), b"-"));
}
