//! Exporting the cellar's entries in the clear and importing records into it.
use crate::crypto::encrypted;
use crate::store::{erase_all, Cellar, CellarView};
use crate::{add_entry, password_text, DecryptedEntry, DecryptedEntryView, Entry, EntryView, Error};
use vstd::prelude::*;
use vstd::string::StringExecFns;
use vstd::utf8::encode_utf8;

verus! {

/// Whether every row's password decrypts to text under `key`.
pub open spec fn all_readable(rows: Seq<EntryView>, key: Seq<u8>) -> bool {
    forall|i: int| 0 <= i < rows.len() ==> password_text((#[trigger] rows[i]).password, key) is Some
}

/// A row with its password in the clear.
pub open spec fn opened(row: EntryView, key: Seq<u8>) -> DecryptedEntryView {
    DecryptedEntryView {
        id: row.id,
        name: row.name,
        login: row.login,
        password: password_text(row.password, key).unwrap(),
        comment: row.comment,
    }
}

/// The views of a run of decrypted entries, in order.
pub open spec fn decrypted_views(entries: Seq<DecryptedEntry>) -> Seq<DecryptedEntryView> {
    entries.map_values(|e: DecryptedEntry| e@)
}

/// Field `at` of an imported record, or the empty text where the record is shorter.
pub open spec fn field(record: Seq<String>, at: int) -> Seq<char> {
    if 0 <= at < record.len() {
        record[at]@
    } else {
        Seq::empty()
    }
}

/// The entry that an imported record stands for: name, login, password and comment
/// in this order, the password encrypted under `key`. The id is left to the cellar.
pub open spec fn imported(record: Seq<String>, key: Seq<u8>) -> EntryView {
    EntryView {
        id: 0,
        name: field(record, 0),
        login: field(record, 1),
        password: encrypted(encode_utf8(field(record, 2)), key),
        comment: field(record, 3),
    }
}

/// The entries that a run of imported records stands for, in order.
pub open spec fn all_imported(records: Seq<Vec<String>>, key: Seq<u8>) -> Seq<EntryView> {
    records.map_values(|r: Vec<String>| imported(r@, key))
}

/// Field `at` of `record`, or the empty text where the record is shorter.
fn field_of(record: &Vec<String>, at: usize) -> (text: String)
    ensures
        text@ == field(record@, at as int),
{
    if at < record.len() {
        record[at].clone()
    } else {
        String::new()
    }
}

/// The cellar's entries with their passwords in the clear, ready to be written out.
/// Refused with `ExportFileExists` where the target exists and `overwrite` is not
/// set; fails with `DecodingError` where some password does not decrypt to text.
pub fn export(
    cellar: &Cellar,
    export_file: &str,
    file_exists: bool,
    master_key: &[u8],
    overwrite: bool,
) -> (result: Result<Vec<DecryptedEntry>, Error>)
    requires
        master_key@.len() == 32,
    ensures
        !overwrite && file_exists ==> (result matches Err(Error::ExportFileExists(path)) && path@
            == export_file@),
        (overwrite || !file_exists) && all_readable(cellar@.rows, master_key@) ==> (result matches Ok(
            entries,
        ) && decrypted_views(entries@) == cellar@.rows.map_values(
            |row: EntryView| opened(row, master_key@),
        )),
        (overwrite || !file_exists) && !all_readable(cellar@.rows, master_key@) ==> result matches Err(
            Error::DecodingError,
        ),
{
    if !overwrite && file_exists {
        return Err(Error::ExportFileExists(String::from_str(export_file)));
    }
    let entries = crate::store::get_all_rows(cellar);
    let mut out: Vec<DecryptedEntry> = Vec::new();
    let mut at: usize = 0;
    while at < entries.len()
        invariant
            at <= entries@.len(),
            overwrite || !file_exists,
            master_key@.len() == 32,
            crate::entry_views(entries@) == cellar@.rows,
            all_readable(cellar@.rows.take(at as int), master_key@),
            decrypted_views(out@) == cellar@.rows.take(at as int).map_values(
                |row: EntryView| opened(row, master_key@),
            ),
        decreases entries@.len() - at,
    {
        match entries[at].decrypted(master_key) {
            Ok(entry) => {
                let ghost written = out@;
                out.push(entry);
                assert(decrypted_views(out@) =~= decrypted_views(written).push(entry@));
                assert(cellar@.rows.take(at + 1) =~= cellar@.rows.take(at as int).push(
                    cellar@.rows[at as int],
                ));
                assert(decrypted_views(out@) =~= cellar@.rows.take(at + 1).map_values(
                    |row: EntryView| opened(row, master_key@),
                ));
            },
            Err(error) => {
                return Err(Error::DecodingError);
            },
        }
        at += 1;
    }
    assert(cellar@.rows.take(at as int) =~= cellar@.rows);
    Ok(out)
}

/// Refuses an import with `ImportFileExists` where a cellar exists and `overwrite` is
/// not set; else lets it go on.
pub fn check_import(cellar_file: &str, cellar_exists: bool, overwrite: bool) -> (result: Result<
    (),
    Error,
>)
    ensures
        !overwrite && cellar_exists ==> (result matches Err(Error::ImportFileExists(path)) && path@
            == cellar_file@),
        overwrite || !cellar_exists ==> result is Ok,
{
    if !overwrite && cellar_exists {
        Err(Error::ImportFileExists(String::from_str(cellar_file)))
    } else {
        Ok(())
    }
}

/// Replaces the cellar's content by the imported records: empties it, then inserts
/// one entry for each record, in order. Refused with `ImportFileExists`, the cellar
/// untouched, where a cellar exists and `overwrite` is not set. Where the ids run
/// out the import stops with `CellarFull`, the records before that point stored.
pub fn import(
    cellar: &mut Cellar,
    records: &Vec<Vec<String>>,
    cellar_file: &str,
    cellar_exists: bool,
    master_key: &[u8],
    overwrite: bool,
) -> (result: Result<(), Error>)
    requires
        master_key@.len() == 32,
    ensures
        !overwrite && cellar_exists ==> (result matches Err(Error::ImportFileExists(path)) && path@
            == cellar_file@) && final(cellar)@ == old(cellar)@,
        (overwrite || !cellar_exists) && records@.len() <= i32::MAX ==> result is Ok
            && final(cellar)@ == CellarView::empty().insert_all(
            all_imported(records@, master_key@),
        ),
        (overwrite || !cellar_exists) && records@.len() > i32::MAX ==> (result matches Err(
            Error::CellarFull,
        )) && final(cellar)@ == CellarView::empty().insert_all(
            all_imported(records@.take(i32::MAX as int), master_key@),
        ),
{
    match check_import(cellar_file, cellar_exists, overwrite) {
        Ok(()) => {},
        Err(error) => {
            return Err(error);
        },
    }
    let _ = erase_all(cellar);
    let mut at: usize = 0;
    while at < records.len()
        invariant
            at <= records@.len(),
            at <= i32::MAX,
            overwrite || !cellar_exists,
            master_key@.len() == 32,
            cellar@ == CellarView::empty().insert_all(
                all_imported(records@.take(at as int), master_key@),
            ),
            cellar@.last_id == at,
        decreases records@.len() - at,
    {
        if cellar.is_full() {
            return Err(Error::CellarFull);
        }
        let record = &records[at];
        let name = field_of(record, 0);
        let login = field_of(record, 1);
        let password = field_of(record, 2);
        let comment = field_of(record, 3);
        let entry = Entry::new(cellar, name, login, password, comment, master_key);
        proof {
            let before = all_imported(records@.take(at as int), master_key@);
            let after = all_imported(records@.take(at + 1), master_key@);
            assert(after.drop_last() =~= before);
        }
        let _ = add_entry(cellar, entry);
        at += 1;
    }
    assert(records@.take(at as int) =~= records@);
    Ok(())
}

} // verus!
