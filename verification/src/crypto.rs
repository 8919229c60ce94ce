//! Key derivation, the block cipher with its padding, and the password generator.
use crate::crypt::{
    begins_with, check_record, checked_verdict, default_cost, hash_argon2, record_header, HashCost,
};
use crate::{chars_of, record_view, string_from_chars};
use aes::cipher::generic_array::GenericArray;
use aes::cipher::{BlockDecrypt, BlockEncrypt, KeyInit};
use aes::Aes256;
use rand::seq::SliceRandom;
use rand::Rng;
use rand_core::OsRng;
use sha2::{Digest, Sha256};
use vstd::prelude::*;
use vstd::slice::slice_subrange;

verus! {

/// The AES-256 encryption of one 16-byte block under a 32-byte key.
pub uninterp spec fn aes256_block_enc(key: Seq<u8>, block: Seq<u8>) -> Seq<u8>;

/// The AES-256 decryption of one 16-byte block under a 32-byte key.
pub uninterp spec fn aes256_block_dec(key: Seq<u8>, block: Seq<u8>) -> Seq<u8>;

/// The SHA-256 digest of a byte string.
pub uninterp spec fn sha256_digest(data: Seq<u8>) -> Seq<u8>;

/// Number of padding bytes that follow a plaintext of `len` bytes: between 1 and 16,
/// bringing the total to the next multiple of the block width.
pub open spec fn pad_len(len: nat) -> nat {
    (16 - len % 16) as nat
}

/// The plaintext followed by its padding: `pad_len` bytes, each holding `pad_len`.
pub open spec fn padded(data: Seq<u8>) -> Seq<u8> {
    data + Seq::new(pad_len(data.len()), |i: int| pad_len(data.len()) as u8)
}

/// What is left of a decrypted text once its padding is taken off. The last byte is
/// read as the padding length; where it is 0 or exceeds the text's length nothing is
/// removed.
pub open spec fn unpadded(data: Seq<u8>) -> Seq<u8> {
    if data.len() > 0 && 1 <= data.last() as int <= data.len() {
        data.subrange(0, data.len() - data.last() as int)
    } else {
        data
    }
}

/// Block-by-block encryption of a text whose length is a multiple of 16.
pub open spec fn ecb_encrypted(data: Seq<u8>, key: Seq<u8>) -> Seq<u8>
    decreases data.len(),
{
    if data.len() < 16 {
        Seq::empty()
    } else {
        ecb_encrypted(data.subrange(0, data.len() - 16), key) + aes256_block_enc(
            key,
            data.subrange(data.len() - 16, data.len() as int),
        )
    }
}

/// Block-by-block decryption of a text whose length is a multiple of 16.
pub open spec fn ecb_decrypted(data: Seq<u8>, key: Seq<u8>) -> Seq<u8>
    decreases data.len(),
{
    if data.len() < 16 {
        Seq::empty()
    } else {
        ecb_decrypted(data.subrange(0, data.len() - 16), key) + aes256_block_dec(
            key,
            data.subrange(data.len() - 16, data.len() as int),
        )
    }
}

/// The ciphertext of `data` under `key`: pad, then encrypt each block.
pub open spec fn encrypted(data: Seq<u8>, key: Seq<u8>) -> Seq<u8> {
    ecb_encrypted(padded(data), key)
}

/// The plaintext of `data` under `key`: decrypt each block, then take the padding off.
pub open spec fn decrypted(data: Seq<u8>, key: Seq<u8>) -> Seq<u8> {
    unpadded(ecb_decrypted(data, key))
}

/// Encrypts one block with `aes::Aes256` (`KeyInit::new`, then
/// `BlockEncrypt::encrypt_block`). The contract names the result, gives its width, and
/// claims that AES decryption under the same key maps it back to `block`.
#[verifier::external_body]
fn aes256_encrypt_block(key: &[u8], block: &[u8]) -> (out: Vec<u8>)
    requires
        key@.len() == 32,
        block@.len() == 16,
    ensures
        out@ == aes256_block_enc(key@, block@),
        out@.len() == 16,
        aes256_block_dec(key@, out@) == block@,
{
    let cipher = Aes256::new(GenericArray::from_slice(key));
    let mut buffer = GenericArray::clone_from_slice(block);
    cipher.encrypt_block(&mut buffer);
    buffer.as_slice().to_vec()
}

/// Decrypts one block with `aes::Aes256` (`KeyInit::new`, then
/// `BlockDecrypt::decrypt_block`). The contract names the result and gives its width.
#[verifier::external_body]
fn aes256_decrypt_block(key: &[u8], block: &[u8]) -> (out: Vec<u8>)
    requires
        key@.len() == 32,
        block@.len() == 16,
    ensures
        out@ == aes256_block_dec(key@, block@),
        out@.len() == 16,
{
    let cipher = Aes256::new(GenericArray::from_slice(key));
    let mut buffer = GenericArray::clone_from_slice(block);
    cipher.decrypt_block(&mut buffer);
    buffer.as_slice().to_vec()
}

/// Digests `data` with `sha2::Sha256` (`Digest::new`, `update`, `finalize`). The
/// contract names the result and gives its width, 32 bytes.
#[verifier::external_body]
fn sha256(data: &[u8]) -> (out: Vec<u8>)
    ensures
        out@ == sha256_digest(data@),
        out@.len() == 32,
{
    let mut hasher = Sha256::new();
    hasher.update(data);
    hasher.finalize().to_vec()
}

/// Unfolds `ecb_encrypted` and `ecb_decrypted` by one block at the end.
proof fn lemma_ecb_step(done: Seq<u8>, block: Seq<u8>, key: Seq<u8>)
    requires
        block.len() == 16,
    ensures
        ecb_encrypted(done + block, key) == ecb_encrypted(done, key) + aes256_block_enc(
            key,
            block,
        ),
        ecb_decrypted(done + block, key) == ecb_decrypted(done, key) + aes256_block_dec(
            key,
            block,
        ),
{
    let whole = done + block;
    assert(whole.subrange(0, whole.len() - 16) =~= done);
    assert(whole.subrange(whole.len() - 16, whole.len() as int) =~= block);
}

/// Taking the padding off a padded text gives the text back.
pub proof fn lemma_unpadded_padded(data: Seq<u8>)
    ensures
        unpadded(padded(data)) == data,
        padded(data).len() == data.len() + pad_len(data.len()),
        padded(data).len() % 16 == 0,
{
    let p = padded(data);
    let n = pad_len(data.len());
}

/// The symmetric key depends on the master key alone: whenever it is derived from the
/// same master key it is the same key.
pub proof fn lemma_key_derivation_deterministic(first: Seq<u8>, second: Seq<u8>)
    requires
        first == second,
    ensures
        sha256_digest(first) == sha256_digest(second),
{
}

/// The symmetric key of a master key: its SHA-256 digest, 32 bytes.
pub fn hash_sha256(password: &[u8]) -> (key: Vec<u8>)
    ensures
        key@ == sha256_digest(password@),
        key@.len() == 32,
{
    sha256(password)
}

/// `data` followed by its padding: between 1 and 16 bytes, each holding their number,
/// so that the whole is a multiple of 16 bytes long.
pub fn pad(data: &[u8]) -> (out: Vec<u8>)
    ensures
        out@ == padded(data@),
        out@.len() == data@.len() + pad_len(data@.len()),
        out@.len() % 16 == 0,
{
    let padding_length: usize = 16 - (data.len() % 16);
    let mut padded_data: Vec<u8> = Vec::new();
    padded_data.extend_from_slice(data);
    let mut k: usize = 0;
    while k < padding_length
        invariant
            k <= padding_length,
            padding_length == pad_len(data@.len()),
            padded_data@ == data@ + Seq::new(k as nat, |i: int| pad_len(data@.len()) as u8),
        decreases padding_length - k,
    {
        padded_data.push(padding_length as u8);
        k += 1;
    }
    proof {
        lemma_unpadded_padded(data@);
    }
    padded_data
}

/// `data` without its padding: the last byte says how many bytes to drop. Where it
/// is 0 or more than there are bytes, `data` comes back whole.
pub fn unpad(data: Vec<u8>) -> (out: Vec<u8>)
    ensures
        out@ == unpadded(data@),
{
    let mut data = data;
    let length: usize = data.len();
    if length > 0 {
        let padding_length: usize = data[length - 1] as usize;
        if 1 <= padding_length && padding_length <= length {
            data.truncate(length - padding_length);
        }
    }
    data
}

/// Encrypts `data` under a 32-byte key. The result is a whole number of blocks, longer
/// than `data`, and `decrypt_aes256` under the same key gives `data` back.
pub fn encrypt_aes256(data: &[u8], key: &[u8]) -> (out: Vec<u8>)
    requires
        key@.len() == 32,
    ensures
        out@ == encrypted(data@, key@),
        out@.len() == data@.len() + pad_len(data@.len()),
        out@.len() % 16 == 0,
        out@.len() > data@.len(),
        decrypted(out@, key@) == data@,
{
    let padded_data = pad(data);
    proof {
        lemma_unpadded_padded(data@);
    }
    let total: usize = padded_data.len();
    let mut encrypted_data: Vec<u8> = Vec::new();
    let mut at: usize = 0;
    while at < total
        invariant
            key@.len() == 32,
            total == padded_data@.len(),
            total % 16 == 0,
            at <= total,
            at % 16 == 0,
            encrypted_data@.len() == at,
            encrypted_data@ == ecb_encrypted(padded_data@.subrange(0, at as int), key@),
            ecb_decrypted(encrypted_data@, key@) == padded_data@.subrange(0, at as int),
        decreases total - at,
    {
        let block = aes256_encrypt_block(key, slice_subrange(padded_data.as_slice(), at, at + 16));
        proof {
            let done = padded_data@.subrange(0, at as int);
            let plain = padded_data@.subrange(at as int, at + 16);
            assert(padded_data@.subrange(0, at + 16) =~= done + plain);
            lemma_ecb_step(done, plain, key@);
            lemma_ecb_step(encrypted_data@, block@, key@);
        }
        encrypted_data.extend_from_slice(block.as_slice());
        at += 16;
    }
    assert(padded_data@.subrange(0, total as int) =~= padded_data@);
    encrypted_data
}

/// Decrypts a whole number of blocks under a 32-byte key and takes the padding off.
/// Where the last decrypted byte is no valid padding length, nothing is taken off.
pub fn decrypt_aes256(encrypted_data: &[u8], key: &[u8]) -> (out: Vec<u8>)
    requires
        key@.len() == 32,
        encrypted_data@.len() % 16 == 0,
    ensures
        out@ == decrypted(encrypted_data@, key@),
{
    let total: usize = encrypted_data.len();
    let mut decrypted_data: Vec<u8> = Vec::new();
    let mut at: usize = 0;
    while at < total
        invariant
            key@.len() == 32,
            total == encrypted_data@.len(),
            total % 16 == 0,
            at <= total,
            at % 16 == 0,
            decrypted_data@.len() == at,
            decrypted_data@ == ecb_decrypted(encrypted_data@.subrange(0, at as int), key@),
        decreases total - at,
    {
        let block = aes256_decrypt_block(key, slice_subrange(encrypted_data, at, at + 16));
        proof {
            let done = encrypted_data@.subrange(0, at as int);
            let cipher = encrypted_data@.subrange(at as int, at + 16);
            assert(encrypted_data@.subrange(0, at + 16) =~= done + cipher);
            lemma_ecb_step(done, cipher, key@);
        }
        decrypted_data.extend_from_slice(block.as_slice());
        at += 16;
    }
    assert(encrypted_data@.subrange(0, total as int) =~= encrypted_data@);
    unpad(decrypted_data)
}

/// A fresh password-hash string for the master key, salted at random. Its name
/// notwithstanding it hashes with Argon2, at the default cost. `None` only where the
/// hashing itself fails. Every string returned names Argon2id and the default cost at
/// its head, and the password verifies against it.
pub fn hash_bcrypt(password: &[u8]) -> (hashed: Option<String>)
    ensures
        hashed matches Some(hash) ==> checked_verdict(password@, hash@) == Some(true),
        hashed matches Some(hash) ==> begins_with(hash@, record_header(default_cost())),
{
    hash_argon2(password, &HashCost::default())
}

/// Checks `password` against the stored master-key record. `None` where there is no
/// record, or it asks for more lanes or memory than there can be, or it does not parse;
/// `Some(true)` only where the password matches.
pub fn verify_password(password: &[u8], record: &Option<String>) -> (verdict: Option<bool>)
    ensures
        verdict == match record_view(*record) {
            Some(hash) => checked_verdict(password@, hash),
            None => None,
        },
{
    match record {
        Some(hash) => check_record(password, hash.as_str()),
        None => None,
    }
}

/// The capital letters that a generated password draws on.
pub open spec fn upper_case() -> Seq<char> {
    "ABCDEFGHIJKLMNOPQRSTUVWXYZ"@
}

/// The small letters that a generated password draws on.
pub open spec fn lower_case() -> Seq<char> {
    "abcdefghijklmnopqrstuvwxyz"@
}

/// The digits that a generated password draws on.
pub open spec fn digits() -> Seq<char> {
    "0123456789"@
}

/// The special characters that a generated password draws on.
pub open spec fn special_chars() -> Seq<char> {
    "!@#$%^&*()-_+=[]{}|;:,.<>?"@
}

/// Every character that a generated password can hold.
pub open spec fn charset() -> Seq<char> {
    upper_case() + lower_case() + digits() + special_chars()
}

/// Whether some character of `text` belongs to `class`.
pub open spec fn has_one_of(text: Seq<char>, class: Seq<char>) -> bool {
    exists|i: int| 0 <= i < text.len() && class.contains(#[trigger] text[i])
}

/// Whether every character of `text` belongs to `class`.
pub open spec fn all_of(text: Seq<char>, class: Seq<char>) -> bool {
    forall|i: int| 0 <= i < text.len() ==> class.contains(#[trigger] text[i])
}

/// What holds of every generated password: 24 characters of the charset, among them
/// a capital letter, a small letter, a digit and a special character.
pub open spec fn is_generated_password(text: Seq<char>) -> bool {
    &&& text.len() == GENERATED_LEN
    &&& all_of(text, charset())
    &&& has_one_of(text, upper_case())
    &&& has_one_of(text, lower_case())
    &&& has_one_of(text, digits())
    &&& has_one_of(text, special_chars())
}

/// Length of a generated password, in characters.
pub const GENERATED_LEN: usize = 24;

/// `chars` read in the order that `order` gives: position `k` holds `chars[order[k]]`.
pub open spec fn arranged(chars: Seq<char>, order: Seq<usize>) -> Seq<char> {
    Seq::new(order.len(), |k: int| chars[order[k] as int])
}

/// Draws an index below `bound` from the system's random source with
/// `rand::Rng::gen_range(0..bound)`. The contract claims only that it is below `bound`.
#[verifier::external_body]
fn random_below(bound: usize) -> (index: usize)
    requires
        bound > 0,
    ensures
        index < bound,
{
    OsRng.gen_range(0..bound)
}

/// Shuffles in place with `rand::seq::SliceRandom::shuffle`, which only swaps items:
/// the contract claims that the same items are there, each as often as before.
#[verifier::external_body]
fn shuffle(items: &mut Vec<usize>)
    ensures
        final(items)@.to_multiset() == old(items)@.to_multiset(),
{
    items.shuffle(&mut OsRng);
}

/// One character of `chars`, picked at random.
fn choose_random(chars: &Vec<char>) -> (picked: char)
    requires
        chars@.len() > 0,
    ensures
        chars@.contains(picked),
{
    chars[random_below(chars.len())]
}

/// Reads `chars` in the order that `order` gives.
pub fn rearrange(chars: &Vec<char>, order: &Vec<usize>) -> (out: Vec<char>)
    requires
        forall|k: int| 0 <= k < order@.len() ==> (#[trigger] order@[k]) < chars@.len(),
    ensures
        out@ == arranged(chars@, order@),
{
    let mut out: Vec<char> = Vec::new();
    let mut k: usize = 0;
    while k < order.len()
        invariant
            k <= order@.len(),
            forall|j: int| 0 <= j < order@.len() ==> (#[trigger] order@[j]) < chars@.len(),
            out@ == arranged(chars@, order@.take(k as int)),
        decreases order@.len() - k,
    {
        out.push(chars[order[k]]);
        k += 1;
    }
    out
}

/// A rearrangement along an order that reaches every position keeps each class of
/// characters that the text had, and holds no character that the text had not.
proof fn lemma_arranged_keeps(chars: Seq<char>, order: Seq<usize>, class: Seq<char>)
    requires
        forall|j: usize| j < chars.len() ==> #[trigger] order.contains(j),
        forall|k: int| 0 <= k < order.len() ==> (#[trigger] order[k]) < chars.len(),
        chars.len() <= usize::MAX,
    ensures
        has_one_of(chars, class) ==> has_one_of(arranged(chars, order), class),
        all_of(chars, class) ==> all_of(arranged(chars, order), class),
{
    if has_one_of(chars, class) {
        let j = choose|j: int| 0 <= j < chars.len() && class.contains(#[trigger] chars[j]);
        assert(order.contains(j as usize));
        let k = choose|k: int| 0 <= k < order.len() && order[k] == j as usize;
        assert(arranged(chars, order)[k] == chars[j]);
    }
}

/// A character of one of the four classes is a character of the charset.
proof fn lemma_class_in_charset(c: char)
    requires
        upper_case().contains(c) || lower_case().contains(c) || digits().contains(c)
            || special_chars().contains(c),
    ensures
        charset().contains(c),
{
    let letters = upper_case() + lower_case();
    let plain = letters + digits();
    if upper_case().contains(c) {
        let i = choose|i: int| 0 <= i < upper_case().len() && upper_case()[i] == c;
        assert(charset()[i] == c);
    } else if lower_case().contains(c) {
        let i = choose|i: int| 0 <= i < lower_case().len() && lower_case()[i] == c;
        assert(charset()[upper_case().len() + i] == c);
    } else if digits().contains(c) {
        let i = choose|i: int| 0 <= i < digits().len() && digits()[i] == c;
        assert(charset()[letters.len() + i] == c);
    } else {
        let i = choose|i: int| 0 <= i < special_chars().len() && special_chars()[i] == c;
        assert(charset()[plain.len() + i] == c);
    }
}

/// A random password of 24 characters with at least one capital letter, one small
/// letter, one digit and one special character, in random order.
pub fn get_random_password() -> (password: String)
    ensures
        is_generated_password(password@),
{
    let upper = chars_of("ABCDEFGHIJKLMNOPQRSTUVWXYZ");
    let lower = chars_of("abcdefghijklmnopqrstuvwxyz");
    let numbers = chars_of("0123456789");
    let special = chars_of("!@#$%^&*()-_+=[]{}|;:,.<>?");
    proof {
        reveal_strlit("ABCDEFGHIJKLMNOPQRSTUVWXYZ");
        reveal_strlit("abcdefghijklmnopqrstuvwxyz");
        reveal_strlit("0123456789");
        reveal_strlit("!@#$%^&*()-_+=[]{}|;:,.<>?");
    }
    let mut all: Vec<char> = Vec::new();
    all.extend_from_slice(upper.as_slice());
    all.extend_from_slice(lower.as_slice());
    all.extend_from_slice(numbers.as_slice());
    all.extend_from_slice(special.as_slice());

    let mut picks: Vec<char> = Vec::new();
    picks.push(choose_random(&upper));
    picks.push(choose_random(&lower));
    picks.push(choose_random(&numbers));
    picks.push(choose_random(&special));
    proof {
        lemma_class_in_charset(picks@[0]);
        lemma_class_in_charset(picks@[1]);
        lemma_class_in_charset(picks@[2]);
        lemma_class_in_charset(picks@[3]);
    }
    while picks.len() < GENERATED_LEN
        invariant
            4 <= picks@.len() <= GENERATED_LEN,
            all@ == charset(),
            all@.len() > 0,
            all_of(picks@, charset()),
            upper_case().contains(picks@[0]),
            lower_case().contains(picks@[1]),
            digits().contains(picks@[2]),
            special_chars().contains(picks@[3]),
        decreases GENERATED_LEN - picks@.len(),
    {
        picks.push(choose_random(&all));
    }

    let mut indices: Vec<usize> = Vec::new();
    let mut next: usize = 0;
    while next < picks.len()
        invariant
            next <= picks@.len(),
            indices@.len() == next,
            forall|j: int| 0 <= j < next ==> indices@[j] == j,
        decreases picks@.len() - next,
    {
        indices.push(next);
        next += 1;
    }
    let ghost in_order = indices@;
    shuffle(&mut indices);
    proof {
        in_order.to_multiset_ensures();
        indices@.to_multiset_ensures();
        assert forall|j: usize| j < picks@.len() implies #[trigger] indices@.contains(j) by {
            assert(in_order[j as int] == j);
            assert(indices@.to_multiset().count(j) > 0);
        }
        assert forall|k: int| 0 <= k < indices@.len() implies (#[trigger] indices@[k])
            < picks@.len() by {
            assert(in_order.to_multiset().count(indices@[k]) > 0);
        }
        lemma_arranged_keeps(picks@, indices@, charset());
        lemma_arranged_keeps(picks@, indices@, upper_case());
        lemma_arranged_keeps(picks@, indices@, lower_case());
        lemma_arranged_keeps(picks@, indices@, digits());
        lemma_arranged_keeps(picks@, indices@, special_chars());
    }
    let shuffled = rearrange(&picks, &indices);
    string_from_chars(shuffled.as_slice())
}

} // verus!
