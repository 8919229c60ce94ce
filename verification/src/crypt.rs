//! Hashing and verifying the master key with Argon2.
use argon2::password_hash::{PasswordHash, PasswordHasher, PasswordVerifier, SaltString};
use argon2::{Algorithm, Argon2, Params, Version};
use crate::chars_of;
use crate::config::{decimal_value, is_digit};
use rand_core::OsRng;
use vstd::prelude::*;

verus! {

/// What checking `password` against the password-hash string `hash` gives: `None`
/// where `hash` does not parse as such a string, else whether the password matches.
pub uninterp spec fn argon2_verdict(password: Seq<u8>, hash: Seq<char>) -> Option<bool>;

/// What hashing a master key costs: memory in KiB, number of passes, and lanes.
#[derive(Debug, Clone, Copy, PartialEq, Eq, Structural)]
pub struct HashCost {
    pub memory: u32,
    pub iterations: u32,
    pub parallelism: u32,
}

/// The most lanes that a hashing can have: 2^24 - 1.
pub const MAX_LANES: u32 = 0xff_ffff;

/// The most memory, in KiB, that a hashing can have here: 2^21 - 1, one KiB short of
/// 2 GiB. The memory is allocated in one piece, whose bytes have to be counted in an
/// `isize` of 32 bits where addresses are no wider.
pub const MAX_MEMORY: u32 = 0x1f_ffff;

impl HashCost {
    /// Whether the hashing accepts this cost: at least one pass, between 1 and
    /// `MAX_LANES` lanes, at least 8 KiB of memory for each lane, and no more than
    /// `MAX_MEMORY`.
    pub open spec fn is_valid(self) -> bool {
        &&& 1 <= self.iterations
        &&& 1 <= self.parallelism <= MAX_LANES
        &&& 8 * self.parallelism <= self.memory <= MAX_MEMORY
    }

    /// Tells whether the hashing accepts this cost.
    pub fn valid(&self) -> (valid: bool)
        ensures
            valid == self.is_valid(),
    {
        1 <= self.iterations && 1 <= self.parallelism && self.parallelism <= MAX_LANES
            && self.parallelism <= self.memory / 8 && self.memory <= MAX_MEMORY
    }
}

/// What a knob of the configuration sets: its number where it is set to one from 0
/// on, the default where it is not set, and 0, which no hashing accepts, where it is
/// set below 0.
pub open spec fn knob_value(knob: Option<i32>, default: u32) -> u32 {
    match knob {
        Some(number) => if number >= 0 {
            number as u32
        } else {
            0
        },
        None => default,
    }
}

/// The number that a knob of the configuration sets; see `knob_value`.
fn knob_of(knob: Option<i32>, default: u32) -> (value: u32)
    ensures
        value == knob_value(knob, default),
{
    match knob {
        Some(number) => if number >= 0 {
            number as u32
        } else {
            0
        },
        None => default,
    }
}

impl HashCost {
    /// The cost that the configuration asks for: the default, but for the knobs that
    /// are set.
    pub fn from_knobs(memory: Option<i32>, iterations: Option<i32>, parallelism: Option<i32>) -> (cost:
        HashCost)
        ensures
            cost == (HashCost {
                memory: knob_value(memory, default_cost().memory),
                iterations: knob_value(iterations, default_cost().iterations),
                parallelism: knob_value(parallelism, default_cost().parallelism),
            }),
    {
        let default = HashCost::default();
        HashCost {
            memory: knob_of(memory, default.memory),
            iterations: knob_of(iterations, default.iterations),
            parallelism: knob_of(parallelism, default.parallelism),
        }
    }
}

impl Default for HashCost {
    /// 19 MiB of memory, 2 passes, 1 lane.
    fn default() -> (cost: HashCost)
        ensures
            cost == default_cost(),
            cost.is_valid(),
    {
        HashCost { memory: 19456, iterations: 2, parallelism: 1 }
    }
}

/// Hashes `password` with the crate's default algorithm and version, Argon2id 0x13, at
/// the given cost (`argon2::Params::new`, `Argon2::new`,
/// `PasswordHasher::hash_password`) under a salt drawn by `SaltString::generate` from
/// the system's random source, and renders the hash as a string. Which string comes
/// back is open; the contract claims that checking the same password against it
/// succeeds, that it begins as `PasswordHash` writes every such string: `$`, the
/// algorithm, `$v=` and the version, `$` and the cost as `m=`, `t=`, `p=` in decimal,
/// then `$` before the salt; and that no `=` follows, salt and digest being written in
/// an alphabet of letters, digits, `+` and `/`.
#[verifier::external_body]
pub(crate) fn argon2_hash(password: &[u8], memory: u32, iterations: u32, parallelism: u32) -> (hashed:
    Option<String>)
    requires
        (HashCost { memory, iterations, parallelism }).is_valid(),
    ensures
        hashed matches Some(hash) ==> argon2_verdict(password@, hash@) == Some(true),
        hashed matches Some(hash) ==> begins_with(
            hash@,
            record_header(HashCost { memory, iterations, parallelism }),
        ),
        hashed matches Some(hash) ==> plain_after(
            hash@,
            record_header(HashCost { memory, iterations, parallelism }).len() as int,
        ),
{
    let params = match Params::new(memory, iterations, parallelism, None) {
        Ok(params) => params,
        Err(_) => return None,
    };
    let salt = SaltString::generate(&mut OsRng);
    match Argon2::new(Algorithm::default(), Version::default(), params).hash_password(password, &salt) {
        Ok(hash) => Some(hash.to_string()),
        Err(_) => None,
    }
}

/// Parses `hash` with `PasswordHash::new` and checks `password` against it with
/// `argon2::Argon2::default()` (`PasswordVerifier::verify_password`). The contract
/// names the result. Two kinds of record are left out. One asks for 2^29 lanes or
/// more: on it `argon2::Params::new` multiplies beyond 32 bits before it looks at
/// the number. The other asks for 2 GiB of memory or more: `hash_password_into`
/// allocates it in one piece before anything is validated, and with addresses of 32
/// bits that piece cannot be had.
#[verifier::external_body]
fn argon2_verify(password: &[u8], hash: &str) -> (verdict: Option<bool>)
    requires
        cost_fits(hash@),
    ensures
        verdict == argon2_verdict(password@, hash@),
{
    match PasswordHash::new(hash) {
        Ok(parsed) => Some(Argon2::default().verify_password(password, &parsed).is_ok()),
        Err(_) => None,
    }
}

/// A fresh password-hash string for `password` at the given cost, salted at random.
/// `None` where the cost is not valid or the hashing itself fails. Every string
/// returned names Argon2id and the cost at its head, and the password verifies
/// against it.
pub fn hash_argon2(password: &[u8], cost: &HashCost) -> (hashed: Option<String>)
    ensures
        !cost.is_valid() ==> hashed is None,
        hashed matches Some(hash) ==> checked_verdict(password@, hash@) == Some(true),
        hashed matches Some(hash) ==> begins_with(hash@, record_header(*cost)),
{
    if cost.valid() {
        let hashed = argon2_hash(password, cost.memory, cost.iterations, cost.parallelism);
        proof {
            if hashed is Some {
                lemma_own_record_fits(hashed->0@, *cost);
            }
        }
        hashed
    } else {
        None
    }
}

/// A fresh password-hash string for `password` at the default cost, salted at random.
/// `None` only where the hashing itself fails. Every string returned names Argon2id
/// and the default cost at its head, and the password verifies against it.
pub fn get_hashed(password: &[u8]) -> (hashed: Option<String>)
    ensures
        hashed matches Some(hash) ==> checked_verdict(password@, hash@) == Some(true),
        hashed matches Some(hash) ==> begins_with(hash@, record_header(default_cost())),
{
    hash_argon2(password, &HashCost::default())
}

/// Checks `password` against a stored password-hash string. `None` where the string
/// asks for more lanes or memory than there can be, or does not parse; `Some(true)`
/// only where the password matches.
pub fn check_record(password: &[u8], hash: &str) -> (verdict: Option<bool>)
    ensures
        verdict == checked_verdict(password@, hash@),
{
    if cost_checked(hash) {
        argon2_verify(password, hash)
    } else {
        None
    }
}

/// Checks `password` against a stored password-hash string; see `check_record`.
pub fn verify(password: &[u8], hash: String) -> (verdict: Option<bool>)
    ensures
        verdict == checked_verdict(password@, hash@),
{
    check_record(password, hash.as_str())
}

/// Whether `key` and `=` stand at `at` in `text`.
pub open spec fn key_at(text: Seq<char>, key: char, at: int) -> bool {
    0 <= at && at + 2 <= text.len() && text[at] == key && text[at + 1] == '='
}

/// Where the run of decimal digits that starts at `from` ends.
pub open spec fn digits_end(text: Seq<char>, from: int) -> int
    decreases text.len() - from,
{
    if 0 <= from < text.len() && is_digit(text[from]) {
        digits_end(text, from + 1)
    } else {
        from
    }
}

/// The number that the decimal digits from `from` on write; 0 where no digit stands
/// there.
pub open spec fn number_at(text: Seq<char>, from: int) -> nat {
    decimal_value(text.subrange(from, digits_end(text, from)))
}

/// Whether every decimal that follows `key` and `=` in `text` is at most `bound`.
pub open spec fn fits_after(text: Seq<char>, key: char, bound: nat) -> bool {
    forall|at: int| #[trigger] key_at(text, key, at) ==> number_at(text, at + 2) <= bound
}

/// Whether every decimal that follows a `p=` in the record is at most `MAX_LANES`.
pub open spec fn lanes_fit(hash: Seq<char>) -> bool {
    fits_after(hash, 'p', MAX_LANES as nat)
}

/// Whether every decimal that follows an `m=` in the record is at most `MAX_MEMORY`.
pub open spec fn memory_fits(hash: Seq<char>) -> bool {
    fits_after(hash, 'm', MAX_MEMORY as nat)
}

/// Whether the record asks for no more lanes and no more memory than there can be.
pub open spec fn cost_fits(hash: Seq<char>) -> bool {
    lanes_fit(hash) && memory_fits(hash)
}

/// What checking `password` against a stored record gives: `None` where the record
/// asks for more lanes or memory than there can be, else what Argon2 makes of it.
pub open spec fn checked_verdict(password: Seq<u8>, hash: Seq<char>) -> Option<bool> {
    if cost_fits(hash) {
        argon2_verdict(password, hash)
    } else {
        None
    }
}

/// Whether no `=` stands in `text` from `from` on.
pub open spec fn plain_after(text: Seq<char>, from: int) -> bool {
    forall|i: int| from <= i < text.len() ==> text[i] != '='
}

/// Tells whether the decimal digits from `from` on write a number that is at most
/// `bound`.
fn number_fits(chars: &Vec<char>, from: usize, bound: u32) -> (fits: bool)
    requires
        from <= chars@.len(),
        bound <= MAX_LANES,
    ensures
        fits == (number_at(chars@, from as int) <= bound),
{
    let mut value: u32 = 0;
    let mut fits = true;
    let mut at: usize = from;
    while at < chars.len() && '0' <= chars[at] && chars[at] <= '9'
        invariant
            from <= at <= chars@.len(),
            bound <= MAX_LANES,
            digits_end(chars@, from as int) == digits_end(chars@, at as int),
            fits ==> value == decimal_value(chars@.subrange(from as int, at as int)) && value
                <= bound,
            !fits ==> decimal_value(chars@.subrange(from as int, at as int)) > bound,
        decreases chars@.len() - at,
    {
        proof {
            let longer = chars@.subrange(from as int, at + 1);
            assert(longer.drop_last() =~= chars@.subrange(from as int, at as int));
        }
        if fits {
            value = value * 10 + (chars[at] as u32 - '0' as u32);
            if value > bound {
                fits = false;
            }
        }
        at += 1;
    }
    fits
}

/// Tells whether every decimal that follows `key` and `=` in `chars` is at most
/// `bound`.
fn checked_after(chars: &Vec<char>, key: char, bound: u32) -> (fit: bool)
    requires
        bound <= MAX_LANES,
    ensures
        fit == fits_after(chars@, key, bound as nat),
{
    let length: usize = chars.len();
    if length < 2 {
        return true;
    }
    let mut at: usize = 0;
    while at + 1 < length
        invariant
            at < length,
            length == chars@.len(),
            bound <= MAX_LANES,
            forall|i: int|
                0 <= i < at && #[trigger] key_at(chars@, key, i) ==> number_at(chars@, i + 2)
                    <= bound,
        decreases length - at,
    {
        if chars[at] == key && chars[at + 1] == '=' {
            if !number_fits(chars, at + 2, bound) {
                assert(key_at(chars@, key, at as int));
                return false;
            }
        }
        at += 1;
    }
    true
}

/// Tells whether every decimal that follows a `p=` in the record is a number of
/// lanes that there can be.
pub fn lanes_checked(hash: &str) -> (fit: bool)
    ensures
        fit == lanes_fit(hash@),
{
    checked_after(&chars_of(hash), 'p', MAX_LANES)
}

/// Tells whether every decimal that follows an `m=` in the record is an amount of
/// memory that there can be.
pub fn memory_checked(hash: &str) -> (fit: bool)
    ensures
        fit == memory_fits(hash@),
{
    checked_after(&chars_of(hash), 'm', MAX_MEMORY)
}

/// Tells whether the record asks for no more lanes and no more memory than there
/// can be.
pub fn cost_checked(hash: &str) -> (fit: bool)
    ensures
        fit == cost_fits(hash@),
{
    lanes_checked(hash) && memory_checked(hash)
}

/// The cost at which a master key is hashed unless another is asked for: 19 MiB of
/// memory, 2 passes, 1 lane.
pub open spec fn default_cost() -> HashCost {
    HashCost { memory: 19456, iterations: 2, parallelism: 1 }
}

/// The character that writes the digit `d`.
pub open spec fn digit(d: nat) -> char {
    ('0' as nat + d) as char
}

/// `n` written in decimal, without leading zeros.
pub open spec fn decimal(n: nat) -> Seq<char>
    decreases n,
{
    if n < 10 {
        seq![digit(n)]
    } else {
        decimal(n / 10).push(digit(n % 10))
    }
}

/// How every password-hash string made at `cost` begins: it names the algorithm, its
/// version and the cost, so that the string alone tells how to check a password
/// against it. The salt and the digest follow.
pub open spec fn record_header(cost: HashCost) -> Seq<char> {
    "$argon2id$v=19$m="@ + decimal(cost.memory as nat) + ",t="@ + decimal(cost.iterations as nat)
        + ",p="@ + decimal(cost.parallelism as nat) + "$"@
}

/// Whether `text` begins with `start`.
pub open spec fn begins_with(text: Seq<char>, start: Seq<char>) -> bool {
    start.len() <= text.len() && text.subrange(0, start.len() as int) == start
}

/// At the default cost a password-hash string begins with
/// `$argon2id$v=19$m=19456,t=2,p=1$`.
pub proof fn lemma_default_header()
    ensures
        record_header(default_cost()) == "$argon2id$v=19$m=19456,t=2,p=1$"@,
{
    reveal_strlit("$argon2id$v=19$m=");
    reveal_strlit(",t=");
    reveal_strlit(",p=");
    reveal_strlit("$");
    reveal_strlit("$argon2id$v=19$m=19456,t=2,p=1$");
    reveal_with_fuel(decimal, 6);
}

/// `n` written in decimal is made of digits, at least one.
pub proof fn lemma_decimal_digits(n: nat)
    ensures
        decimal(n).len() >= 1,
        forall|i: int| 0 <= i < decimal(n).len() ==> is_digit(#[trigger] decimal(n)[i]),
    decreases n,
{
    if n >= 10 {
        lemma_decimal_digits(n / 10);
    }
}

/// Reading back what writes `n` in decimal gives `n`.
pub proof fn lemma_decimal_value(n: nat)
    ensures
        decimal_value(decimal(n)) == n,
    decreases n,
{
    if n < 10 {
        assert(decimal(n).drop_last() =~= Seq::<char>::empty());
        assert(decimal_value(Seq::<char>::empty()) == 0);
    } else {
        lemma_decimal_value(n / 10);
        assert(decimal(n).drop_last() =~= decimal(n / 10));
    }
}

/// A run of digits that stops before a character that is no digit, or at the end,
/// ends there.
proof fn lemma_digits_end(text: Seq<char>, from: int, to: int)
    requires
        0 <= from <= to <= text.len(),
        forall|i: int| from <= i < to ==> is_digit(#[trigger] text[i]),
        to == text.len() || !is_digit(text[to]),
    ensures
        digits_end(text, from) == to,
    decreases to - from,
{
    if from < to {
        lemma_digits_end(text, from + 1, to);
    }
}

/// In a record that begins with the header of `cost` and holds no `=` after it, the
/// one decimal that follows `key` and `=` is the header's own, at `from`.
proof fn lemma_header_number(hash: Seq<char>, cost: HashCost, from: int, number: nat, bound: nat)
    requires
        begins_with(hash, record_header(cost)),
        0 <= from,
        from + decimal(number).len() < record_header(cost).len(),
        forall|i: int|
            0 <= i < decimal(number).len() ==> record_header(cost)[from + i] == decimal(number)[i],
        !is_digit(record_header(cost)[from + decimal(number).len()]),
        number <= bound,
    ensures
        number_at(hash, from) <= bound,
{
    let header = record_header(cost);
    let digits = decimal(number);
    let to = from + digits.len();
    lemma_decimal_digits(number);
    lemma_decimal_value(number);
    assert forall|i: int| from <= i < to implies is_digit(#[trigger] hash[i]) by {
        assert(header[i] == digits[i - from]);
    }
    assert(hash[to] == header[to]);
    lemma_digits_end(hash, from, to);
    assert(hash.subrange(from, to) =~= digits) by {
        assert forall|i: int| 0 <= i < digits.len() implies hash.subrange(from, to)[i]
            == digits[i] by {
            assert(header[from + i] == digits[i]);
        }
    }
}

/// A record that begins with the header of a valid cost and holds no `=` after it
/// asks for no more lanes and memory than there can be: its one `p=` and its one
/// `m=` are the header's.
proof fn lemma_own_record_fits(hash: Seq<char>, cost: HashCost)
    requires
        cost.is_valid(),
        begins_with(hash, record_header(cost)),
        plain_after(hash, record_header(cost).len() as int),
    ensures
        cost_fits(hash),
{
    let header = record_header(cost);
    let memory = decimal(cost.memory as nat);
    let passes = decimal(cost.iterations as nat);
    let lanes = decimal(cost.parallelism as nat);
    reveal_strlit("$argon2id$v=19$m=");
    reveal_strlit(",t=");
    reveal_strlit(",p=");
    reveal_strlit("$");
    lemma_decimal_digits(cost.memory as nat);
    lemma_decimal_digits(cost.iterations as nat);
    lemma_decimal_digits(cost.parallelism as nat);
    let a: int = 17;
    let b: int = a + memory.len();
    let d: int = b + 3 + passes.len();
    let e: int = d + 3;
    assert forall|at: int| #[trigger] key_at(hash, 'p', at) implies number_at(hash, at + 2)
        <= MAX_LANES by {
        // The `=` stands in the header, and there only the last one follows a `p`.
        assert(header[at] == 'p' && header[at + 1] == '=');
        assert(at + 2 == e);
        lemma_header_number(hash, cost, e, cost.parallelism as nat, MAX_LANES as nat);
    }
    assert forall|at: int| #[trigger] key_at(hash, 'm', at) implies number_at(hash, at + 2)
        <= MAX_MEMORY by {
        // Of the header's `=` only the second follows an `m`.
        assert(header[at] == 'm' && header[at + 1] == '=');
        assert(at + 2 == a);
        lemma_header_number(hash, cost, a, cost.memory as nat, MAX_MEMORY as nat);
    }
}

} // verus!
