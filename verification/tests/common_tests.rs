use inode::common::{
    commitment, generate_entropy, generate_random, join_delay_secs, last_n_chars, random_split,
    score_delay_millis, split_at_index, unix_epoch,
};

fn strings(v: &[&str]) -> Vec<String> {
    v.iter().map(|s| s.to_string()).collect()
}

#[test]
fn last_n_chars_takes_the_tail() {
    assert_eq!(last_n_chars("/ip4/127.0.0.1/tcp/40123", 5), "40123");
    assert_eq!(last_n_chars("abc", 5), "abc");
    assert_eq!(last_n_chars("abc", 3), "abc");
    assert_eq!(last_n_chars("abc", 0), "");
    assert_eq!(last_n_chars("", 4), "");
}

#[test]
fn last_n_chars_counts_characters_not_bytes() {
    assert_eq!(last_n_chars("héllo wörld", 5), "wörld");
    assert_eq!(last_n_chars("日本語テキスト", 3), "キスト");
}

#[test]
fn commitment_is_hex_sha256() {
    assert_eq!(
        commitment("abc"),
        "ba7816bf8f01cfea414140de5dae2223b00361a396177a9cb410ff61f20015ad"
    );
    assert_eq!(
        commitment(""),
        "e3b0c44298fc1c149afbf4c8996fb92427ae41e4649b934ca495991b7852b855"
    );
}

#[test]
fn entropy_is_a_secret_and_its_digest() {
    for _ in 0..20 {
        let (secret, hash) = generate_entropy();
        assert_eq!(secret.chars().count(), 16);
        assert!(secret.chars().all(|c| c.is_ascii_alphanumeric()));
        assert_eq!(hash.len(), 64);
        assert!(hash.chars().all(|c| c.is_ascii_digit() || ('a'..='f').contains(&c)));
        assert_eq!(hash, commitment(&secret));
    }
}

#[test]
fn random_ids_are_seven_alphanumerics() {
    for _ in 0..50 {
        let id = generate_random();
        assert_eq!(id.chars().count(), 7);
        assert!(id.chars().all(|c| c.is_ascii_alphanumeric()));
    }
}

#[test]
fn split_at_index_is_exact() {
    let (l, r) = split_at_index(strings(&["a", "b", "c", "d"]), 1);
    assert_eq!(l, strings(&["a"]));
    assert_eq!(r, strings(&["b", "c", "d"]));
    let (l, r) = split_at_index(strings(&["a", "b"]), 2);
    assert_eq!(l, strings(&["a", "b"]));
    assert!(r.is_empty());
}

#[test]
fn random_split_keeps_order_and_both_sides() {
    let v = strings(&["p1", "p2", "p3", "p4", "p5"]);
    let mut seen = std::collections::HashSet::new();
    for _ in 0..200 {
        let (l, r) = random_split(v.clone());
        assert!(!l.is_empty() && !r.is_empty());
        let mut joined = l.clone();
        joined.extend(r.clone());
        assert_eq!(joined, v);
        seen.insert(l.len());
    }
    assert!(seen.iter().all(|n| (1..5).contains(n)));
}

#[test]
fn random_split_of_two_is_one_and_one() {
    let (l, r) = random_split(strings(&["x", "y"]));
    assert_eq!(l, strings(&["x"]));
    assert_eq!(r, strings(&["y"]));
}

#[test]
fn jitters_stay_in_their_ranges() {
    for _ in 0..200 {
        let s = join_delay_secs();
        assert!((4..6).contains(&s));
        let m = score_delay_millis();
        assert!((200..900).contains(&m));
    }
}

#[test]
fn unix_epoch_reads_the_clock() {
    let t = unix_epoch().expect("clock after 1970");
    assert!(t > 1_600_000_000);
}
