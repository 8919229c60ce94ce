//! A local password manager's core: entries whose passwords are kept encrypted under a
//! key derived from one master key, the table that stores them, and the rules for
//! unlocking it and for finding one entry in it.
//!
//! The library computes on plain values. Prompting, files, the database and the
//! clipboard are the caller's business: it hands in what it read and persists what the
//! library decided.
use crate::crypt::{check_record, checked_verdict};
use crate::crypto::{decrypt_aes256, decrypted, encrypt_aes256, encrypted, hash_sha256, sha256_digest};
use crate::store::{search_entries, Cellar};
use vstd::prelude::*;
use vstd::slice::slice_subrange;
use vstd::utf8::{decode_utf8, encode_utf8, valid_utf8};

pub mod config;
pub mod crypt;
pub mod crypto;
pub mod display;
pub mod setup;
pub mod store;
pub mod transport;

verus! {

/// One stored credential. `password` holds ciphertext, never the password itself.
#[derive(Debug)]
pub struct Entry {
    pub id: i32,
    pub name: String,
    pub login: String,
    pub password: Vec<u8>,
    pub comment: String,
}

/// What an `Entry` holds, as mathematical values.
pub struct EntryView {
    pub id: int,
    pub name: Seq<char>,
    pub login: Seq<char>,
    pub password: Seq<u8>,
    pub comment: Seq<char>,
}

impl View for Entry {
    type V = EntryView;

    open spec fn view(&self) -> EntryView {
        EntryView {
            id: self.id as int,
            name: self.name@,
            login: self.login@,
            password: self.password@,
            comment: self.comment@,
        }
    }
}

impl Clone for Entry {
    fn clone(&self) -> (copy: Entry)
        ensures
            copy@ == self@,
    {
        Entry {
            id: self.id,
            name: self.name.clone(),
            login: self.login.clone(),
            password: self.password.clone(),
            comment: self.comment.clone(),
        }
    }
}

/// The views of a run of entries, in order.
pub open spec fn entry_views(entries: Seq<Entry>) -> Seq<EntryView> {
    entries.map_values(|e: Entry| e@)
}

/// What can go wrong in the library or around it.
#[derive(Debug)]
pub enum Error {
    /// The export target exists and overwriting was not asked for.
    ExportFileExists(String),
    /// A cellar exists and overwriting it by an import was not asked for.
    ImportFileExists(String),
    /// The installation's folder is missing.
    VodkaFolderNotFound,
    /// No master-key record is stored: the installation is not set up.
    MasterKeyFileNotFound,
    /// The cellar is missing.
    CellarFileNotFound,
    /// The configuration has nothing under this path.
    ConfigKeyNotFound(String),
    /// Reading or writing CSV failed; the message says how.
    CsvError(String),
    /// The database failed; the message says how.
    RusqliteError(String),
    /// Reading or writing a file failed; the message says how.
    IOError(String),
    /// The master key offered does not match the stored record.
    AuthenticationFailed,
    /// A stored password does not decrypt to text: wrong key or damaged ciphertext.
    DecodingError,
    /// Every id has been given out; no further entry can be stored.
    CellarFull,
}

/// The variant of an `Error`, without what it carries.
#[derive(Debug, Clone, Copy, PartialEq, Eq, Structural)]
pub enum ErrorKind {
    ExportFileExists,
    ImportFileExists,
    VodkaFolderNotFound,
    MasterKeyFileNotFound,
    CellarFileNotFound,
    ConfigKeyNotFound,
    CsvError,
    RusqliteError,
    IOError,
    AuthenticationFailed,
    DecodingError,
    CellarFull,
}

impl Error {
    /// The kind of this error.
    pub open spec fn spec_kind(&self) -> ErrorKind {
        match self {
            Error::ExportFileExists(_) => ErrorKind::ExportFileExists,
            Error::ImportFileExists(_) => ErrorKind::ImportFileExists,
            Error::VodkaFolderNotFound => ErrorKind::VodkaFolderNotFound,
            Error::MasterKeyFileNotFound => ErrorKind::MasterKeyFileNotFound,
            Error::CellarFileNotFound => ErrorKind::CellarFileNotFound,
            Error::ConfigKeyNotFound(_) => ErrorKind::ConfigKeyNotFound,
            Error::CsvError(_) => ErrorKind::CsvError,
            Error::RusqliteError(_) => ErrorKind::RusqliteError,
            Error::IOError(_) => ErrorKind::IOError,
            Error::AuthenticationFailed => ErrorKind::AuthenticationFailed,
            Error::DecodingError => ErrorKind::DecodingError,
            Error::CellarFull => ErrorKind::CellarFull,
        }
    }

    /// Tells what kind of error this is.
    pub fn kind(&self) -> (kind: ErrorKind)
        ensures
            kind == self.spec_kind(),
    {
        match self {
            Error::ExportFileExists(_) => ErrorKind::ExportFileExists,
            Error::ImportFileExists(_) => ErrorKind::ImportFileExists,
            Error::VodkaFolderNotFound => ErrorKind::VodkaFolderNotFound,
            Error::MasterKeyFileNotFound => ErrorKind::MasterKeyFileNotFound,
            Error::CellarFileNotFound => ErrorKind::CellarFileNotFound,
            Error::ConfigKeyNotFound(_) => ErrorKind::ConfigKeyNotFound,
            Error::CsvError(_) => ErrorKind::CsvError,
            Error::RusqliteError(_) => ErrorKind::RusqliteError,
            Error::IOError(_) => ErrorKind::IOError,
            Error::AuthenticationFailed => ErrorKind::AuthenticationFailed,
            Error::DecodingError => ErrorKind::DecodingError,
            Error::CellarFull => ErrorKind::CellarFull,
        }
    }
}

/// A credential with its password in the clear, as it is exported.
#[derive(Debug)]
pub struct DecryptedEntry {
    pub id: i32,
    pub name: String,
    pub login: String,
    pub password: String,
    pub comment: String,
}

/// What a `DecryptedEntry` holds, as mathematical values.
pub struct DecryptedEntryView {
    pub id: int,
    pub name: Seq<char>,
    pub login: Seq<char>,
    pub password: Seq<char>,
    pub comment: Seq<char>,
}

impl View for DecryptedEntry {
    type V = DecryptedEntryView;

    open spec fn view(&self) -> DecryptedEntryView {
        DecryptedEntryView {
            id: self.id as int,
            name: self.name@,
            login: self.login@,
            password: self.password@,
            comment: self.comment@,
        }
    }
}

/// The password that a ciphertext holds under `key`, or `None` where the ciphertext
/// is no whole number of blocks or does not decrypt to UTF-8 text.
pub open spec fn password_text(cipher: Seq<u8>, key: Seq<u8>) -> Option<Seq<char>> {
    if cipher.len() % 16 == 0 && valid_utf8(decrypted(cipher, key)) {
        Some(decode_utf8(decrypted(cipher, key)))
    } else {
        None
    }
}

/// Decodes bytes as UTF-8 with `String::from_utf8`: the text that they encode, or
/// `None` where they are not valid UTF-8.
#[verifier::external_body]
fn string_from_utf8(bytes: Vec<u8>) -> (text: Option<String>)
    ensures
        text is Some <==> valid_utf8(bytes@),
        text matches Some(s) ==> s@ == decode_utf8(bytes@),
{
    String::from_utf8(bytes).ok()
}

/// The characters of `text`.
pub(crate) fn chars_of(text: &str) -> (chars: Vec<char>)
    ensures
        chars@ == text@,
{
    let mut chars: Vec<char> = Vec::new();
    for c in iter: text.chars()
        invariant
            iter.seq() == text@,
            chars@ == iter.seq().take(iter.index()),
    {
        chars.push(c);
    }
    chars
}

/// Appends `c` to `text` with `String::push`.
#[verifier::external_body]
fn push_char(text: &mut String, c: char)
    ensures
        final(text)@ == old(text)@.push(c),
{
    text.push(c);
}

/// The text made of `chars`.
pub(crate) fn string_from_chars(chars: &[char]) -> (text: String)
    ensures
        text@ == chars@,
{
    let mut text = String::new();
    let mut at: usize = 0;
    while at < chars.len()
        invariant
            at <= chars@.len(),
            text@ == chars@.take(at as int),
        decreases chars@.len() - at,
    {
        push_char(&mut text, chars[at]);
        at += 1;
    }
    text
}

impl Entry {
    /// A new entry for `cellar`, carrying the id that the cellar gives out next and
    /// the password encrypted under `master_key`.
    pub fn new(
        cellar: &Cellar,
        name: String,
        login: String,
        password: String,
        comment: String,
        master_key: &[u8],
    ) -> (entry: Entry)
        requires
            !cellar@.is_full(),
            master_key@.len() == 32,
        ensures
            entry@ == (EntryView {
                id: cellar@.next_id(),
                name: name@,
                login: login@,
                password: encrypted(encode_utf8(password@), master_key@),
                comment: comment@,
            }),
            password_text(entry@.password, master_key@) == Some(password@),
    {
        broadcast use vstd::utf8::encode_utf8_valid_utf8, vstd::utf8::encode_utf8_decode_utf8;

        Entry {
            id: store::get_next_id(cellar),
            name,
            login,
            password: encrypt_aes256(password.as_str().as_bytes(), master_key),
            comment,
        }
    }

    /// The password in the clear. Fails with `DecodingError` where the stored bytes
    /// are no whole number of blocks or do not decrypt to text under `master_key`,
    /// as happens with a wrong key or damaged ciphertext.
    pub fn get_password(&self, master_key: &[u8]) -> (result: Result<String, Error>)
        requires
            master_key@.len() == 32,
        ensures
            match password_text(self@.password, master_key@) {
                Some(text) => result matches Ok(password) && password@ == text,
                None => result matches Err(Error::DecodingError),
            },
    {
        if self.password.len() % 16 != 0 {
            return Err(Error::DecodingError);
        }
        let decrypted_password_bytes = decrypt_aes256(self.password.as_slice(), master_key);
        match string_from_utf8(decrypted_password_bytes) {
            Some(password) => Ok(password),
            None => Err(Error::DecodingError),
        }
    }

    /// The entry with its password in the clear, or `DecodingError` where
    /// `get_password` fails.
    pub fn decrypted(&self, master_key: &[u8]) -> (result: Result<DecryptedEntry, Error>)
        requires
            master_key@.len() == 32,
        ensures
            match password_text(self@.password, master_key@) {
                Some(text) => result matches Ok(open) && open@ == (DecryptedEntryView {
                    id: self@.id,
                    name: self@.name,
                    login: self@.login,
                    password: text,
                    comment: self@.comment,
                }),
                None => result matches Err(Error::DecodingError),
            },
    {
        match self.get_password(master_key) {
            Ok(password) => Ok(
                DecryptedEntry {
                    id: self.id,
                    name: self.name.clone(),
                    login: self.login.clone(),
                    password,
                    comment: self.comment.clone(),
                },
            ),
            Err(error) => Err(error),
        }
    }
}

/// The outcome of looking for one entry.
#[derive(Debug)]
pub enum SearchResult {
    OneResult(Entry),
    NoResults,
    ManyResults(Vec<Entry>),
}

/// What a `SearchResult` holds, as mathematical values.
pub enum SearchResultView {
    OneResult(EntryView),
    NoResults,
    ManyResults(Seq<EntryView>),
}

impl View for SearchResult {
    type V = SearchResultView;

    open spec fn view(&self) -> SearchResultView {
        match self {
            SearchResult::OneResult(entry) => SearchResultView::OneResult(entry@),
            SearchResult::NoResults => SearchResultView::NoResults,
            SearchResult::ManyResults(entries) => SearchResultView::ManyResults(entry_views(entries@)),
        }
    }
}

/// Whether `at` is the first position in `matches` of an entry without a login.
pub open spec fn first_without_login(matches: Seq<EntryView>, at: int) -> bool {
    &&& 0 <= at < matches.len()
    &&& matches[at].login.len() == 0
    &&& forall|i: int| 0 <= i < at ==> (#[trigger] matches[i]).login.len() != 0
}

/// How the matches of a search are narrowed to one entry. A single match is the
/// result. Among several, a strict search that gave no login settles on the first
/// match that has no login either; otherwise all of them are handed back.
pub open spec fn narrowed(matches: Seq<EntryView>, login: Seq<char>, strict: bool) -> SearchResultView {
    if matches.len() == 1 {
        SearchResultView::OneResult(matches[0])
    } else if matches.len() == 0 {
        SearchResultView::NoResults
    } else if strict && login.len() == 0 && exists|at: int| first_without_login(matches, at) {
        SearchResultView::OneResult(matches[choose|at: int| first_without_login(matches, at)])
    } else {
        SearchResultView::ManyResults(matches)
    }
}

/// The position of the last `@` in `text`, where there is one.
pub open spec fn is_last_at(text: Seq<char>, at: int) -> bool {
    &&& 0 <= at < text.len()
    &&& text[at] == '@'
    &&& forall|i: int| at < i < text.len() ==> text[i] != '@'
}

/// Splits `login@name` at its last `@` into login and name. Without an `@` the whole
/// text is the name and the login is empty.
pub fn parse_fullname(fullname: String) -> (parts: (String, String))
    ensures
        forall|at: int|
            is_last_at(fullname@, at) ==> parts.0@ == fullname@.subrange(0, at) && parts.1@
                == fullname@.subrange(at + 1, fullname@.len() as int),
        !fullname@.contains('@') ==> parts.0@ == Seq::<char>::empty() && parts.1@ == fullname@,
{
    let chars = chars_of(fullname.as_str());
    let length = chars.len();
    let mut at: usize = length;
    while at > 0
        invariant
            at <= length,
            length == chars@.len(),
            chars@ == fullname@,
            forall|i: int| at <= i < length ==> chars@[i] != '@',
        decreases at,
    {
        if chars[at - 1] == '@' {
            let login = string_from_chars(slice_subrange(chars.as_slice(), 0, at - 1));
            let name = string_from_chars(slice_subrange(chars.as_slice(), at, length));
            return (login, name);
        }
        at -= 1;
    }
    (String::new(), fullname)
}

/// Stores `entry` in `cellar`. The cellar gives the row its id: the one that
/// `Entry::new` foresaw, as long as nothing was inserted in between.
pub fn add_entry(cellar: &mut Cellar, entry: Entry) -> (result: Result<(), Error>)
    ensures
        !old(cellar)@.is_full() ==> result is Ok && final(cellar)@ == old(cellar)@.insert(
            entry@.name,
            entry@.login,
            entry@.password,
            entry@.comment,
        ),
        old(cellar)@.is_full() ==> (result matches Err(Error::CellarFull)) && final(cellar)@ == old(
            cellar,
        )@,
        final(cellar)@.wf(),
{
    store::add_entry(cellar, entry.name, entry.login, entry.password.as_slice(), entry.comment)
}

/// Looks for the one entry that `name` and `login` describe; see `narrowed`.
pub fn get_entry(cellar: &Cellar, name: String, login: String, strict: bool) -> (result:
    SearchResult)
    ensures
        result@ == narrowed(cellar@.search(name@, login@), login@, strict),
{
    let login_given = !login.as_str().is_empty();
    let result_entries: Vec<Entry> = search_entries(cellar, name, login);
    let ghost matches = entry_views(result_entries@);

    if result_entries.len() == 1 {
        return SearchResult::OneResult(result_entries[0].clone());
    } else if result_entries.len() == 0 {
        return SearchResult::NoResults;
    }
    if strict && !login_given {
        let mut at: usize = 0;
        while at < result_entries.len()
            invariant
                at <= result_entries.len(),
                matches == entry_views(result_entries@),
                matches == cellar@.search(name@, login@),
                matches.len() >= 2,
                strict && login@.len() == 0,
                forall|i: int| 0 <= i < at ==> (#[trigger] matches[i]).login.len() != 0,
            decreases result_entries.len() - at,
        {
            if result_entries[at].login.as_str().is_empty() {
                proof {
                    assert(first_without_login(matches, at as int));
                }
                return SearchResult::OneResult(result_entries[at].clone());
            }
            at += 1;
        }
    }
    SearchResult::ManyResults(result_entries)
}

/// What unlocking gives for a stored master-key record and an offered master key:
/// the symmetric key where the record exists and the key verifies against it.
pub open spec fn unlocked(record: Option<Seq<char>>, master_key: Seq<u8>) -> Result<
    Seq<u8>,
    ErrorKind,
> {
    match record {
        None => Err(ErrorKind::MasterKeyFileNotFound),
        Some(hash) => if checked_verdict(master_key, hash) == Some(true) {
            Ok(sha256_digest(master_key))
        } else {
            Err(ErrorKind::AuthenticationFailed)
        },
    }
}

/// The view of a stored master-key record.
pub open spec fn record_view(record: Option<String>) -> Option<Seq<char>> {
    match record {
        None => None,
        Some(hash) => Some(hash@),
    }
}

/// Whether a check of the master key lets the user in: only a match does; a record
/// that could not be checked fails like a wrong key.
pub fn authenticated(verdict: Option<bool>) -> (result: Result<(), Error>)
    ensures
        verdict == Some(true) ==> result is Ok,
        verdict != Some(true) ==> result matches Err(Error::AuthenticationFailed),
{
    match verdict {
        Some(true) => Ok(()),
        _ => Err(Error::AuthenticationFailed),
    }
}

/// Unlocks with the master key that the user typed. Without a stored record the
/// installation is not set up; with one, the key must verify against it, and the
/// symmetric key derived from it is returned. A record that does not parse, or that
/// asks for more lanes or memory than there can be, fails like a wrong key.
pub fn unlock(record: &Option<String>, master_key: &str) -> (result: Result<Vec<u8>, Error>)
    ensures
        match unlocked(record_view(*record), encode_utf8(master_key@)) {
            Ok(key) => result matches Ok(derived) && derived@ == key && derived@.len() == 32,
            Err(kind) => result matches Err(error) && error.spec_kind() == kind,
        },
{
    match record {
        None => Err(Error::MasterKeyFileNotFound),
        Some(hash) => {
            let plaintext = master_key.as_bytes();
            match authenticated(check_record(plaintext, hash.as_str())) {
                Ok(()) => Ok(hash_sha256(plaintext)),
                Err(error) => Err(error),
            }
        },
    }
}

/// Whether the installation is complete: its folder, the master-key record and the
/// cellar are all there.
pub fn vodka_is_setup(folder_exists: bool, master_key_exists: bool, cellar_exists: bool) -> (ready:
    bool)
    ensures
        ready == (folder_exists && master_key_exists && cellar_exists),
{
    setup::check_setup(folder_exists, master_key_exists, cellar_exists).is_ok()
}

} // verus!
