use vodka::crypt::{
    check_record, cost_checked, get_hashed, hash_argon2, lanes_checked, memory_checked, verify,
    HashCost,
};
use vodka::crypto::{
    decrypt_aes256, encrypt_aes256, hash_bcrypt, hash_sha256, pad, unpad, verify_password,
};

fn hex(text: &str) -> Vec<u8> {
    let digits: Vec<u32> = text.chars().map(|c| c.to_digit(16).unwrap()).collect();
    digits.chunks(2).map(|pair| (pair[0] * 16 + pair[1]) as u8).collect()
}

fn sample_key() -> Vec<u8> {
    hex("000102030405060708090a0b0c0d0e0f101112131415161718191a1b1c1d1e1f")
}

#[test]
fn round_trip_short_text() {
    let key = hash_sha256(b"correct-key");
    let cipher = encrypt_aes256(b"secret123", &key);
    assert_eq!(cipher.len(), 16);
    assert_eq!(decrypt_aes256(&cipher, &key), b"secret123".to_vec());
}

#[test]
fn round_trip_every_length_up_to_three_blocks() {
    let key = sample_key();
    for length in 0..=48usize {
        let plain: Vec<u8> = (0..length).map(|i| (i * 7 + 3) as u8).collect();
        let cipher = encrypt_aes256(&plain, &key);
        assert_eq!(decrypt_aes256(&cipher, &key), plain);
    }
}

#[test]
fn round_trip_text_ending_in_small_bytes() {
    let key = sample_key();
    let plain = vec![9u8, 1, 1, 1, 2, 2, 3, 16, 0, 1];
    let cipher = encrypt_aes256(&plain, &key);
    assert_eq!(decrypt_aes256(&cipher, &key), plain);
}

#[test]
fn padding_rounds_up_to_the_next_block() {
    let key = sample_key();
    assert_eq!(encrypt_aes256(&[], &key).len(), 16);
    assert_eq!(encrypt_aes256(&[1u8; 1], &key).len(), 16);
    assert_eq!(encrypt_aes256(&[1u8; 15], &key).len(), 16);
    assert_eq!(encrypt_aes256(&[1u8; 16], &key).len(), 32);
    assert_eq!(encrypt_aes256(&[1u8; 17], &key).len(), 32);
    assert_eq!(encrypt_aes256(&[1u8; 32], &key).len(), 48);
}

#[test]
fn ciphertext_is_longer_and_block_aligned() {
    let key = sample_key();
    for length in 0..100usize {
        let cipher = encrypt_aes256(&vec![0xabu8; length], &key);
        assert_eq!(cipher.len() % 16, 0);
        assert!(cipher.len() > length);
        assert_eq!(cipher.len(), length + 16 - length % 16);
    }
}

#[test]
fn encrypts_the_standard_vector() {
    let plain = hex("00112233445566778899aabbccddeeff");
    let cipher = encrypt_aes256(&plain, &sample_key());
    assert_eq!(cipher.len(), 32);
    assert_eq!(cipher[..16].to_vec(), hex("8ea2b7ca516745bfeafc49904b496089"));
    assert_ne!(cipher[16..].to_vec(), vec![16u8; 16]);
}

#[test]
fn decrypts_the_standard_vector() {
    let cipher = hex("8ea2b7ca516745bfeafc49904b496089");
    // The last plaintext byte, 0xff, is no padding length for 16 bytes: nothing is cut.
    assert_eq!(decrypt_aes256(&cipher, &sample_key()), hex("00112233445566778899aabbccddeeff"));
}

#[test]
fn equal_blocks_encrypt_alike() {
    let key = sample_key();
    let cipher = encrypt_aes256(&[7u8; 32], &key);
    assert_eq!(cipher[..16], cipher[16..32]);
}

#[test]
fn decrypting_nothing_gives_nothing() {
    assert_eq!(decrypt_aes256(&[], &sample_key()), Vec::<u8>::new());
}

#[test]
fn wrong_key_does_not_give_the_text_back() {
    let cipher = encrypt_aes256(b"secret123", &hash_sha256(b"correct-key"));
    assert_ne!(decrypt_aes256(&cipher, &hash_sha256(b"wrong-key")), b"secret123".to_vec());
}

#[test]
fn sha256_of_abc() {
    assert_eq!(
        hash_sha256(b"abc"),
        hex("ba7816bf8f01cfea414140de5dae2223b00361a396177a9cb410ff61f20015ad")
    );
}

#[test]
fn sha256_of_nothing() {
    assert_eq!(
        hash_sha256(b""),
        hex("e3b0c44298fc1c149afbf4c8996fb92427ae41e4649b934ca495991b7852b855")
    );
}

#[test]
fn key_derivation_is_deterministic() {
    assert_eq!(hash_sha256(b"correct-key"), hash_sha256(b"correct-key"));
    assert_eq!(hash_sha256(b"correct-key").len(), 32);
    assert_ne!(hash_sha256(b"correct-key"), hash_sha256(b"wrong-key"));
}

#[test]
fn hashed_master_key_verifies() {
    let hash = get_hashed(b"correct-key").unwrap();
    assert!(hash.starts_with("$argon2id$v=19$m=19456,t=2,p=1$"));
    assert_eq!(verify(b"correct-key", hash.clone()), Some(true));
    assert_eq!(verify(b"wrong-key", hash), Some(false));
}

#[test]
fn each_hash_has_its_own_salt() {
    let first = get_hashed(b"correct-key").unwrap();
    let second = get_hashed(b"correct-key").unwrap();
    assert_ne!(first, second);
    assert_eq!(verify(b"correct-key", second), Some(true));
}

#[test]
fn verify_fails_closed_on_a_broken_record() {
    assert_eq!(verify(b"correct-key", String::from("not a hash")), None);
    assert_eq!(verify(b"correct-key", String::new()), None);
}

#[test]
fn verify_against_a_known_record() {
    let record = "$argon2id$v=19$m=32,t=2,p=1$VmvWhG/KUQU0pY0zYenlKg$rQMWN4REepUJ8rSQRo7wvlc1POdU6/XycWglpUWOHPE";
    assert_eq!(verify(b"correct-key", String::from(record)), Some(true));
    assert_eq!(verify(b"correct-kez", String::from(record)), Some(false));
    assert_eq!(verify(b"", String::from(record)), Some(false));
}

#[test]
fn a_record_for_another_algorithm_does_not_verify() {
    let record = "$pbkdf2-sha256$i=1000$VmvWhG/KUQU0pY0zYenlKg$rQMWN4REepUJ8rSQRo7wvlc1POdU6/XycWglpUWOHPE";
    assert_ne!(verify(b"correct-key", String::from(record)), Some(true));
}

#[test]
fn default_cost() {
    let cost = HashCost::default();
    assert_eq!((cost.memory, cost.iterations, cost.parallelism), (19456, 2, 1));
    assert!(cost.valid());
}

#[test]
fn hash_at_a_chosen_cost() {
    let cost = HashCost { memory: 32, iterations: 3, parallelism: 2 };
    let hash = hash_argon2(b"correct-key", &cost).unwrap();
    assert!(hash.starts_with("$argon2id$v=19$m=32,t=3,p=2$"));
    assert_eq!(verify(b"correct-key", hash.clone()), Some(true));
    assert_eq!(verify(b"wrong-key", hash), Some(false));
}

#[test]
fn invalid_costs_are_refused() {
    for (memory, iterations, parallelism) in [
        (64, 0, 1),
        (64, 1, 0),
        (7, 1, 1),
        (15, 1, 2),
        (0, 0, 0),
        (4294967295, 1, 16777216),
        (4294967295, 1, 4294967295),
        (2097152, 1, 1),
        (4294967295, 1, 1),
        (2097151, 1, 262144),
    ] {
        let cost = HashCost { memory, iterations, parallelism };
        assert!(!cost.valid());
        assert_eq!(hash_argon2(b"correct-key", &cost), None);
    }
    assert!(HashCost { memory: 8, iterations: 1, parallelism: 1 }.valid());
    assert!(HashCost { memory: 16, iterations: 1, parallelism: 2 }.valid());
    assert!(HashCost { memory: 2097151, iterations: 4294967295, parallelism: 1 }.valid());
    assert!(HashCost { memory: 2097144, iterations: 1, parallelism: 262143 }.valid());
}

#[test]
fn hash_at_the_smallest_cost() {
    let cost = HashCost { memory: 8, iterations: 1, parallelism: 1 };
    let hash = hash_argon2(b"", &cost).unwrap();
    assert_eq!(verify(b"", hash.clone()), Some(true));
    assert_eq!(verify(b" ", hash), Some(false));
}

#[test]
fn hash_bcrypt_gives_an_argon2_record() {
    let hash = hash_bcrypt(b"correct-key").unwrap();
    assert!(hash.starts_with("$argon2id$v=19$m=19456,t=2,p=1$"));
    assert_eq!(verify_password(b"correct-key", &Some(hash.clone())), Some(true));
    assert_eq!(verify_password(b"wrong-key", &Some(hash)), Some(false));
}

#[test]
fn verify_password_without_a_usable_record() {
    assert_eq!(verify_password(b"correct-key", &None), None);
    assert_eq!(verify_password(b"correct-key", &Some(String::from("garbage"))), None);
}

#[test]
fn padding_bytes_hold_their_number() {
    assert_eq!(pad(b"abc"), [b"abc".to_vec(), vec![13u8; 13]].concat());
    assert_eq!(pad(&[]), vec![16u8; 16]);
    assert_eq!(pad(&[7u8; 15]), [vec![7u8; 15], vec![1u8]].concat());
    assert_eq!(pad(&[7u8; 16]), [vec![7u8; 16], vec![16u8; 16]].concat());
    assert_eq!(pad(&[7u8; 17]), [vec![7u8; 17], vec![15u8; 15]].concat());
}

#[test]
fn unpad_drops_as_many_bytes_as_the_last_one_says() {
    assert_eq!(unpad(vec![1, 2, 3, 2, 2]), vec![1, 2, 3]);
    assert_eq!(unpad(vec![9, 1]), vec![9]);
    assert_eq!(unpad(vec![3, 3, 3]), Vec::<u8>::new());
    assert_eq!(unpad(vec![16u8; 16]), Vec::<u8>::new());
    // The bytes dropped are not looked at: only the last one counts.
    assert_eq!(unpad(vec![1, 7, 8, 3]), vec![1]);
}

#[test]
fn unpad_leaves_what_has_no_valid_padding() {
    assert_eq!(unpad(Vec::new()), Vec::<u8>::new());
    assert_eq!(unpad(vec![1, 2, 0]), vec![1, 2, 0]);
    assert_eq!(unpad(vec![1, 2, 4]), vec![1, 2, 4]);
    assert_eq!(unpad(vec![255]), vec![255]);
}

#[test]
fn unpad_undoes_pad() {
    for length in 0..70usize {
        let data: Vec<u8> = (0..length).map(|i| (i % 5) as u8).collect();
        assert_eq!(unpad(pad(&data)), data);
    }
}

#[test]
fn the_record_names_its_cost_in_decimal() {
    let cost = HashCost { memory: 1024, iterations: 10, parallelism: 4 };
    let hash = hash_argon2(b"correct-key", &cost).unwrap();
    assert!(hash.starts_with("$argon2id$v=19$m=1024,t=10,p=4$"));
    let rest = &hash["$argon2id$v=19$m=1024,t=10,p=4$".len()..];
    assert!(!rest.is_empty());
    assert_eq!(verify(b"correct-key", hash), Some(true));
}

const TOO_MANY_LANES: &str = "$argon2id$v=19$m=8,t=1,p=536870912$c29tZXNhbHQ$aGFzaGhhc2hoYXNo";

#[test]
fn a_record_with_too_many_lanes_is_not_checked() {
    assert!(!lanes_checked(TOO_MANY_LANES));
    assert_eq!(verify(b"correct-key", String::from(TOO_MANY_LANES)), None);
    assert_eq!(check_record(b"correct-key", TOO_MANY_LANES), None);
    assert_eq!(verify_password(b"correct-key", &Some(String::from(TOO_MANY_LANES))), None);
}

#[test]
fn the_most_lanes_there_can_be_are_still_checked() {
    let most = "$argon2id$v=19$m=8,t=1,p=16777215$c29tZXNhbHQ$aGFzaGhhc2hoYXNo";
    assert!(lanes_checked(most));
    assert_eq!(verify(b"correct-key", String::from(most)), Some(false));
    let one_more = "$argon2id$v=19$m=8,t=1,p=16777216$c29tZXNhbHQ$aGFzaGhhc2hoYXNo";
    assert!(!lanes_checked(one_more));
    assert_eq!(verify(b"correct-key", String::from(one_more)), None);
}

#[test]
fn lanes_are_read_after_every_p_equals() {
    for fit in [
        "",
        "p",
        "p=",
        "=p",
        "p=0",
        "p=1",
        "p=16777215",
        "p=0016777215",
        "p=x99999999",
        "p=+99999999",
        "p =99999999",
        "P=99999999",
        "q=99999999",
        "m=99999999,t=99999999,p=4",
        "p=4,p=5$p=6",
        "pp=7",
        "p=16777215abc99999999",
        "$argon2id$v=19$m=19456,t=2,p=1$VmvWhG/KUQU0pY0zYenlKg$rQMWN4REepUJ8rSQRo7wvlc1POdU6",
    ] {
        assert!(lanes_checked(fit), "for {:?}", fit);
    }
    for unfit in [
        "p=16777216",
        "p=99999999",
        "p=4294967296",
        "p=99999999999999999999999999999999999999999",
        "p=000000000099999999",
        "pp=16777216",
        "p=1,p=16777216",
        "p=16777216,p=1",
        "xp=536870912x",
        "keyp=16777216",
    ] {
        assert!(!lanes_checked(unfit), "for {:?}", unfit);
    }
}

#[test]
fn every_record_made_here_is_checked() {
    for (memory, iterations, parallelism) in [(8, 1, 1), (64, 2, 3), (4096, 1, 16)] {
        let cost = HashCost { memory, iterations, parallelism };
        let hash = hash_argon2(b"correct-key", &cost).unwrap();
        assert!(lanes_checked(&hash));
        assert!(memory_checked(&hash));
        assert!(cost_checked(&hash));
        assert!(!hash[hash.find(",p=").unwrap() + 3..].contains('='));
        assert_eq!(verify(b"correct-key", hash), Some(true));
    }
}

#[test]
fn cost_from_the_knobs_of_the_configuration() {
    let cost = HashCost::from_knobs(None, None, None);
    assert_eq!(cost, HashCost::default());
    let cost = HashCost::from_knobs(Some(64), None, Some(2));
    assert_eq!(cost, HashCost { memory: 64, iterations: 2, parallelism: 2 });
    let cost = HashCost::from_knobs(Some(2147483647), Some(0), Some(1));
    assert_eq!(cost, HashCost { memory: 2147483647, iterations: 0, parallelism: 1 });
    assert!(!cost.valid());
    let cost = HashCost::from_knobs(Some(-1), Some(-2147483648), Some(-7));
    assert_eq!(cost, HashCost { memory: 0, iterations: 0, parallelism: 0 });
    assert!(!cost.valid());
}

#[test]
fn a_record_with_too_much_memory_is_not_checked() {
    let record = "$argon2id$v=19$m=2097152,t=1,p=1$c29tZXNhbHQ$aGFzaGhhc2hoYXNo";
    assert!(lanes_checked(record));
    assert!(!memory_checked(record));
    assert!(!cost_checked(record));
    assert_eq!(verify(b"correct-key", String::from(record)), None);
    let huge = "$argon2id$v=19$m=4294967295,t=1,p=1$c29tZXNhbHQ$aGFzaGhhc2hoYXNo";
    assert_eq!(verify(b"correct-key", String::from(huge)), None);
    assert_eq!(verify_password(b"correct-key", &Some(String::from(huge))), None);
}

#[test]
fn memory_is_read_after_every_m_equals() {
    for fit in ["", "m=", "m=0", "m=2097151", "m=19456,t=2,p=1", "M=9999999", "m=x9999999", "p=2097152"] {
        assert!(memory_checked(fit), "for {:?}", fit);
    }
    for unfit in ["m=2097152", "m=9999999", "m=8,m=99999999", "mm=2097152", "m=00000002097152"] {
        assert!(!memory_checked(unfit), "for {:?}", unfit);
    }
    assert!(cost_checked("m=2097151,p=16777215"));
    assert!(!cost_checked("m=2097151,p=16777216"));
    assert!(!cost_checked("m=2097152,p=16777215"));
}
