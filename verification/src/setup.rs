//! Setting the master key and checking that an installation is complete.
use crate::crypt::{begins_with, checked_verdict, hash_argon2, record_header, HashCost};
use crate::{record_view, Error};
use vstd::prelude::*;
use vstd::utf8::encode_utf8;

verus! {

/// Whether a new master-key record may take the place of what is stored: always where
/// nothing is stored yet, else only where overwriting was asked for.
pub open spec fn may_store(record: Option<Seq<char>>, overwrite: bool) -> bool {
    record is None || overwrite
}

/// Tells whether a new master-key record may take the place of what is stored.
pub fn may_replace(record: &Option<String>, overwrite: bool) -> (allowed: bool)
    ensures
        allowed == may_store(record_view(*record), overwrite),
{
    record.is_none() || overwrite
}

/// Puts a freshly hashed master key in the record's place, where that is allowed and
/// the hashing worked; else leaves the record as it is. Tells whether it was replaced.
pub fn store_master(record: &mut Option<String>, hashed: Option<String>, overwrite: bool) -> (stored:
    bool)
    ensures
        stored == (hashed is Some && may_store(record_view(*old(record)), overwrite)),
        stored ==> *final(record) == hashed,
        !stored ==> *final(record) == *old(record),
{
    match hashed {
        Some(hash) => {
            if may_replace(record, overwrite) {
                *record = Some(hash);
                true
            } else {
                false
            }
        },
        None => false,
    }
}

/// Sets the master key: hashes it at the given cost under a fresh salt and stores the
/// hash as the record, replacing an earlier record only where `overwrite` says so.
/// Tells whether the record was replaced; if so, the record names Argon2id and the
/// cost at its head, and `master_key` verifies against it.
pub fn set_master(
    record: &mut Option<String>,
    master_key: String,
    overwrite: bool,
    cost: &HashCost,
) -> (stored: bool)
    ensures
        stored ==> may_store(record_view(*old(record)), overwrite) && cost.is_valid(),
        stored ==> (*final(record) matches Some(hash) && checked_verdict(
            encode_utf8(master_key@),
            hash@,
        ) == Some(true) && begins_with(hash@, record_header(*cost))),
        !stored ==> *final(record) == *old(record),
{
    if !may_replace(record, overwrite) {
        return false;
    }
    let hashed = hash_argon2(master_key.as_str().as_bytes(), cost);
    store_master(record, hashed, overwrite)
}

/// Checks that the installation is complete: its folder, then the master-key record,
/// then the cellar. The first one missing is reported.
pub fn check_setup(folder_exists: bool, master_key_exists: bool, cellar_exists: bool) -> (result:
    Result<(), Error>)
    ensures
        !folder_exists ==> result matches Err(Error::VodkaFolderNotFound),
        folder_exists && !master_key_exists ==> result matches Err(Error::MasterKeyFileNotFound),
        folder_exists && master_key_exists && !cellar_exists ==> result matches Err(
            Error::CellarFileNotFound,
        ),
        folder_exists && master_key_exists && cellar_exists ==> result is Ok,
{
    if !folder_exists {
        return Err(Error::VodkaFolderNotFound);
    }
    if !master_key_exists {
        return Err(Error::MasterKeyFileNotFound);
    }
    if !cellar_exists {
        return Err(Error::CellarFileNotFound);
    }
    Ok(())
}

} // verus!
