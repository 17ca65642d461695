use filedrop::token::{token_from_hash, uid, ALPHABET_SIZE, TOKEN_LEN};

fn is_token(s: &str) -> bool {
    s.chars().count() == TOKEN_LEN && s.chars().all(|c| c.is_ascii_uppercase())
}

#[test]
fn token_from_hash_zero_is_all_a() {
    assert_eq!(token_from_hash(0), "AAAAA");
}

#[test]
fn token_from_hash_least_significant_digit_first() {
    assert_eq!(token_from_hash(1), "BAAAA");
    assert_eq!(token_from_hash(25), "ZAAAA");
    assert_eq!(token_from_hash(26), "ABAAA");
    assert_eq!(token_from_hash(27), "BBAAA");
}

#[test]
fn token_from_hash_exact_values() {
    assert_eq!(token_from_hash(123456789), "BKEEK");
    assert_eq!(token_from_hash(u64::MAX), "PQMUY");
}

#[test]
fn token_from_hash_ignores_high_digits() {
    let base = 26u64.pow(5);
    assert_eq!(token_from_hash(base + 3), token_from_hash(3));
}

#[test]
fn generated_tokens_have_token_shape() {
    for _ in 0..2000 {
        let t = uid();
        assert!(is_token(&t), "bad token {t}");
    }
}

#[test]
fn generated_tokens_vary() {
    let first = uid();
    let mut all_same = true;
    for _ in 0..20 {
        if uid() != first {
            all_same = false;
        }
    }
    assert!(!all_same);
}

#[test]
fn generated_tokens_are_near_uniform_per_position() {
    let n: usize = 52_000;
    let letters = ALPHABET_SIZE as usize;
    let mut counts = vec![vec![0usize; letters]; TOKEN_LEN];
    for _ in 0..n {
        let t = uid();
        for (pos, b) in t.bytes().enumerate() {
            counts[pos][(b - b'A') as usize] += 1;
        }
    }
    let expected = n as f64 / letters as f64;
    for pos in 0..TOKEN_LEN {
        for letter in 0..letters {
            let c = counts[pos][letter] as f64;
            assert!((c - expected).abs() < expected * 0.25, "position {pos} letter {letter}: {c}");
        }
    }
}

#[test]
fn each_token_once_in_a_block_of_hashes() {
    let block = 26u64.pow(3);
    let mut seen = std::collections::HashSet::new();
    for h in 0..block {
        let t = token_from_hash(h);
        assert!(t.ends_with("AA"));
        assert!(seen.insert(t));
    }
    assert_eq!(seen.len() as u64, block);
}
