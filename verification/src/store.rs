//! The cellar: the table of entries, with the ids it gives out.
use crate::{entry_views, Entry, EntryView, Error};
use vstd::prelude::*;

verus! {

/// The table of entries as a mathematical value: its rows in the order in which they
/// were inserted, and the highest id ever given out since the table was last created.
pub struct CellarView {
    pub rows: Seq<EntryView>,
    pub last_id: int,
}

/// Whether an entry passes a search: an empty `name` or `login` admits every entry,
/// a non-empty one only the entries that hold exactly it.
pub open spec fn matches_search(entry: EntryView, name: Seq<char>, login: Seq<char>) -> bool {
    &&& (name.len() == 0 || entry.name == name)
    &&& (login.len() == 0 || entry.login == login)
}

impl CellarView {
    /// Ids start at 1, grow along the rows, and none exceeds the highest one given out.
    pub open spec fn wf(self) -> bool {
        &&& 0 <= self.last_id <= i32::MAX
        &&& forall|i: int| 0 <= i < self.rows.len() ==> 1 <= (#[trigger] self.rows[i]).id <= self.last_id
        &&& forall|i: int, j: int|
            0 <= i < j < self.rows.len() ==> (#[trigger] self.rows[i]).id < (#[trigger] self.rows[j]).id
    }

    /// The table as it is first created: no rows, no id given out.
    pub open spec fn empty() -> CellarView {
        CellarView { rows: Seq::empty(), last_id: 0 }
    }

    /// The id that the next inserted row gets.
    pub open spec fn next_id(self) -> int {
        self.last_id + 1
    }

    /// Whether every id has been given out.
    pub open spec fn is_full(self) -> bool {
        self.last_id >= i32::MAX
    }

    /// Whether some row carries `id`.
    pub open spec fn has_id(self, id: int) -> bool {
        exists|i: int| 0 <= i < self.rows.len() && (#[trigger] self.rows[i]).id == id
    }

    /// The table after one row is inserted: it goes last and takes the next id.
    pub open spec fn insert(
        self,
        name: Seq<char>,
        login: Seq<char>,
        password: Seq<u8>,
        comment: Seq<char>,
    ) -> CellarView {
        CellarView {
            rows: self.rows.push(EntryView { id: self.last_id + 1, name, login, password, comment }),
            last_id: self.last_id + 1,
        }
    }

    /// The table after each of `entries` is inserted in turn; the ids that they carry
    /// are ignored, the table gives out its own.
    pub open spec fn insert_all(self, entries: Seq<EntryView>) -> CellarView
        decreases entries.len(),
    {
        if entries.len() == 0 {
            self
        } else {
            let last = entries.last();
            self.insert_all(entries.drop_last()).insert(
                last.name,
                last.login,
                last.password,
                last.comment,
            )
        }
    }

    /// The table after the row with `id`, if there is one, is removed. The highest id
    /// given out stays, so the id is not given out again.
    pub open spec fn delete(self, id: int) -> CellarView {
        CellarView { rows: self.rows.filter(other_than(id)), last_id: self.last_id }
    }

    /// The rows that pass a search, in table order.
    pub open spec fn search(self, name: Seq<char>, login: Seq<char>) -> Seq<EntryView> {
        self.rows.filter(search_pred(name, login))
    }
}

/// The test that a search applies to each row.
pub open spec fn search_pred(name: Seq<char>, login: Seq<char>) -> spec_fn(EntryView) -> bool {
    |e: EntryView| matches_search(e, name, login)
}

/// The test that keeps every row but the one with `id`.
pub open spec fn other_than(id: int) -> spec_fn(EntryView) -> bool {
    |e: EntryView| e.id != id
}

/// The table of stored entries.
pub struct Cellar {
    rows: Vec<Entry>,
    last_id: i32,
}

impl View for Cellar {
    type V = CellarView;

    closed spec fn view(&self) -> CellarView {
        CellarView { rows: entry_views(self.rows@), last_id: self.last_id as int }
    }
}

impl Cellar {
    /// What holds of every cellar: its table is well-formed.
    #[verifier::type_invariant]
    pub open spec fn inv(&self) -> bool {
        self@.wf()
    }

    /// An empty table.
    pub fn new() -> (cellar: Cellar)
        ensures
            cellar@ == CellarView::empty(),
    {
        let cellar = Cellar { rows: Vec::new(), last_id: 0 };
        assert(cellar@.rows =~= Seq::empty());
        cellar
    }

    /// A table with the given rows and highest id, as read back from where it is kept.
    /// `None` where they break the table's rules: an id below 1 or above `last_id`, ids
    /// that do not grow along the rows, or a negative `last_id`.
    pub fn restore(rows: Vec<Entry>, last_id: i32) -> (cellar: Option<Cellar>)
        ensures
            cellar is Some <==> (CellarView { rows: entry_views(rows@), last_id: last_id as int }).wf(),
            cellar matches Some(c) ==> c@ == (CellarView {
                rows: entry_views(rows@),
                last_id: last_id as int,
            }),
    {
        let ghost view = CellarView { rows: entry_views(rows@), last_id: last_id as int };
        if last_id < 0 {
            return None;
        }
        let mut at: usize = 0;
        while at < rows.len()
            invariant
                at <= rows.len(),
                0 <= last_id,
                view == (CellarView { rows: entry_views(rows@), last_id: last_id as int }),
                forall|i: int| 0 <= i < at ==> 1 <= (#[trigger] view.rows[i]).id <= last_id,
                forall|i: int, j: int|
                    0 <= i < j < at ==> (#[trigger] view.rows[i]).id < (#[trigger] view.rows[j]).id,
            decreases rows.len() - at,
        {
            let id = rows[at].id;
            assert(view.rows[at as int].id == id);
            if id < 1 || id > last_id {
                return None;
            }
            if at > 0 && rows[at - 1].id >= id {
                assert(view.rows[at - 1].id >= view.rows[at as int].id);
                return None;
            }
            assert forall|i: int, j: int| 0 <= i < j < at + 1 implies (#[trigger] view.rows[i]).id < (
            #[trigger] view.rows[j]).id by {
                if j == at && i < at - 1 {
                    assert(view.rows[i].id < view.rows[at - 1].id);
                }
            }
            at += 1;
        }
        Some(Cellar { rows, last_id })
    }

    /// Whether every id has been given out, so that nothing more can be inserted.
    pub fn is_full(&self) -> (full: bool)
        ensures
            full == self@.is_full(),
    {
        self.last_id == i32::MAX
    }
}

/// Inserting into a well-formed table that is not full leaves it well-formed.
pub proof fn lemma_insert_wf(
    table: CellarView,
    name: Seq<char>,
    login: Seq<char>,
    password: Seq<u8>,
    comment: Seq<char>,
)
    requires
        table.wf(),
        !table.is_full(),
    ensures
        table.insert(name, login, password, comment).wf(),
{
}

/// An inserted row gets an id that no row of the table carries and that is higher
/// than the id of every row.
pub proof fn lemma_insert_takes_fresh_id(
    table: CellarView,
    name: Seq<char>,
    login: Seq<char>,
    password: Seq<u8>,
    comment: Seq<char>,
)
    requires
        table.wf(),
    ensures
        table.insert(name, login, password, comment).rows.last().id == table.next_id(),
        !table.has_id(table.next_id()),
        forall|i: int| 0 <= i < table.rows.len() ==> (#[trigger] table.rows[i]).id < table.next_id(),
{
}

/// Inserting N entries in turn appends N rows whose ids are the N numbers that follow
/// the highest id given out before: strictly increasing, distinct, and new. The rows
/// that were there stay as they were.
pub proof fn lemma_insert_all_ids(table: CellarView, entries: Seq<EntryView>)
    requires
        table.wf(),
        table.last_id + entries.len() <= i32::MAX,
    ensures
        table.insert_all(entries).wf(),
        table.insert_all(entries).last_id == table.last_id + entries.len(),
        table.insert_all(entries).rows.len() == table.rows.len() + entries.len(),
        forall|i: int|
            0 <= i < table.rows.len() ==> (#[trigger] table.insert_all(entries).rows[i])
                == table.rows[i],
        forall|k: int|
            0 <= k < entries.len() ==> (#[trigger] table.insert_all(entries).rows[table.rows.len()
                + k]) == (EntryView { id: table.last_id + 1 + k, ..entries[k] }),
    decreases entries.len(),
{
    if entries.len() > 0 {
        lemma_insert_all_ids(table, entries.drop_last());
    }
}

/// A deleted id is not given out again: whatever is inserted after a row was deleted,
/// no row carries the deleted id.
pub proof fn lemma_deleted_id_not_reused(table: CellarView, id: int, entries: Seq<EntryView>)
    requires
        table.wf(),
        table.has_id(id),
        table.last_id + entries.len() <= i32::MAX,
    ensures
        !table.delete(id).insert_all(entries).has_id(id),
{
    let left = table.delete(id);
    let after = left.insert_all(entries);
    lemma_delete_wf(table, id);
    lemma_insert_all_ids(left, entries);
    assert forall|i: int| 0 <= i < after.rows.len() implies (#[trigger] after.rows[i]).id != id by {
        if i < left.rows.len() {
            table.rows.lemma_filter_pred(other_than(id), i);
        } else {
            let k = i - left.rows.len();
            assert(after.rows[left.rows.len() + k].id == left.last_id + 1 + k);
        }
    }
}

/// After the table is emptied it holds no row, and the next row inserted gets id 1
/// again. Deleting never brings that about: once a row was inserted, the next id
/// stays above 1 whatever is deleted.
pub proof fn lemma_erase_restarts_ids(
    table: CellarView,
    id: int,
    name: Seq<char>,
    login: Seq<char>,
    password: Seq<u8>,
    comment: Seq<char>,
)
    requires
        table.wf(),
    ensures
        CellarView::empty().wf(),
        CellarView::empty().rows.len() == 0,
        CellarView::empty().insert(name, login, password, comment).rows.last().id == 1,
        table.delete(id).next_id() == table.next_id(),
        table.insert(name, login, password, comment).delete(id).next_id() > 1,
{
}

/// Deleting from a well-formed table leaves it well-formed.
pub proof fn lemma_delete_wf(table: CellarView, id: int)
    requires
        table.wf(),
    ensures
        table.delete(id).wf(),
{
    if table.has_id(id) {
        let at = choose|i: int| 0 <= i < table.rows.len() && (#[trigger] table.rows[i]).id == id;
        lemma_remove_is_delete(table, at);
    } else {
        lemma_absent_delete(table, id);
    }
}

/// Removing the one row that carries `id` is the same as keeping all the others.
proof fn lemma_remove_is_delete(table: CellarView, at: int)
    requires
        table.wf(),
        0 <= at < table.rows.len(),
    ensures
        table.rows.remove(at) == table.delete(table.rows[at].id).rows,
    decreases table.rows.len(),
{
    let id = table.rows[at].id;
    let keep = other_than(id);
    let rest = table.rows.drop_last();
    let last = table.rows.last();
    let shorter = CellarView { rows: rest, last_id: table.last_id };
    assert(table.rows =~= rest.push(last));
    rest.lemma_filter_push(last, keep);
    if at == table.rows.len() - 1 {
        lemma_absent_delete(shorter, id);
    } else {
        lemma_remove_is_delete(shorter, at);
    }
}

/// Deleting an id that no row carries changes nothing.
proof fn lemma_absent_delete(table: CellarView, id: int)
    requires
        !table.has_id(id),
    ensures
        table.delete(id) == table,
    decreases table.rows.len(),
{
    let keep = other_than(id);
    if table.rows.len() == 0 {
        reveal(Seq::filter);
    } else {
        let rest = table.rows.drop_last();
        let last = table.rows.last();
        let shorter = CellarView { rows: rest, last_id: table.last_id };
        assert(table.rows =~= rest.push(last));
        lemma_absent_delete(shorter, id);
        rest.lemma_filter_push(last, keep);
    }
}

/// The id that the next inserted entry will get: one more than the highest id ever
/// given out, whether or not its row is still there.
pub fn get_next_id(cellar: &Cellar) -> (id: i32)
    requires
        !cellar@.is_full(),
    ensures
        id == cellar@.next_id(),
{
    cellar.last_id + 1
}

/// Inserts one row at the end, under the next id. Either the whole row is stored or,
/// where every id has been given out, the table stays as it was.
pub fn add_entry(
    cellar: &mut Cellar,
    name: String,
    login: String,
    password: &[u8],
    comment: String,
) -> (result: Result<(), Error>)
    ensures
        !old(cellar)@.is_full() ==> result is Ok && final(cellar)@ == old(cellar)@.insert(
            name@,
            login@,
            password@,
            comment@,
        ),
        old(cellar)@.is_full() ==> (result matches Err(Error::CellarFull)) && final(cellar)@ == old(
            cellar,
        )@,
        final(cellar)@.wf(),
{
    proof {
        use_type_invariant(&*cellar);
    }
    if cellar.last_id == i32::MAX {
        return Err(Error::CellarFull);
    }
    let id: i32 = cellar.last_id + 1;
    let entry = Entry { id, name, login, password: vstd::slice::slice_to_vec(password), comment };
    let ghost before = cellar@;
    let mut rows: Vec<Entry> = Vec::new();
    core::mem::swap(&mut cellar.rows, &mut rows);
    rows.push(entry);
    proof {
        assert(entry_views(rows@) =~= before.rows.push(entry@));
        lemma_insert_wf(before, entry@.name, entry@.login, entry@.password, entry@.comment);
    }
    *cellar = Cellar { rows, last_id: id };
    Ok(())
}

/// The rows that match a search, in table order. An empty `name` or `login` does not
/// restrict the search; a non-empty one must be matched exactly.
pub fn search_entries(cellar: &Cellar, name: String, login: String) -> (found: Vec<Entry>)
    ensures
        entry_views(found@) == cellar@.search(name@, login@),
{
    let ghost wanted = search_pred(name@, login@);
    let by_name = !name.as_str().is_empty();
    let by_login = !login.as_str().is_empty();
    let mut found: Vec<Entry> = Vec::new();
    let mut at: usize = 0;
    proof {
        reveal(Seq::filter);
    }
    while at < cellar.rows.len()
        invariant
            at <= cellar.rows.len(),
            by_name == (name@.len() != 0),
            by_login == (login@.len() != 0),
            wanted == search_pred(name@, login@),
            entry_views(found@) == cellar@.rows.take(at as int).filter(wanted),
        decreases cellar.rows.len() - at,
    {
        let entry = &cellar.rows[at];
        let ghost seen = cellar@.rows.take(at as int);
        proof {
            assert(cellar@.rows.take(at + 1) =~= seen.push(entry@));
            seen.lemma_filter_push(entry@, wanted);
        }
        if (!by_name || entry.name == name) && (!by_login || entry.login == login) {
            let copy = entry.clone();
            found.push(copy);
        }
        at += 1;
    }
    assert(cellar@.rows.take(at as int) =~= cellar@.rows);
    found
}

/// The row that carries `id`, or `None` where no row does.
pub fn get_entry_by_id(cellar: &Cellar, id: i32) -> (found: Option<Entry>)
    ensures
        found is Some <==> cellar@.has_id(id as int),
        found matches Some(entry) ==> entry@.id == id && cellar@.rows.contains(entry@),
{
    let mut at: usize = 0;
    while at < cellar.rows.len()
        invariant
            at <= cellar.rows.len(),
            forall|i: int| 0 <= i < at ==> (#[trigger] cellar@.rows[i]).id != id,
        decreases cellar.rows.len() - at,
    {
        if cellar.rows[at].id == id {
            let entry = cellar.rows[at].clone();
            assert(cellar@.rows[at as int] == entry@);
            return Some(entry);
        }
        at += 1;
    }
    None
}

/// Removes the row that carries `id`. Where no row does, nothing changes and the
/// call still succeeds. The id is not given out again.
pub fn delete_entry(cellar: &mut Cellar, id: i32) -> (result: Result<(), Error>)
    ensures
        result is Ok,
        final(cellar)@ == old(cellar)@.delete(id as int),
        final(cellar)@.wf(),
{
    proof {
        use_type_invariant(&*cellar);
    }
    let ghost before = cellar@;
    let mut at: usize = 0;
    while at < cellar.rows.len()
        invariant
            at <= cellar.rows.len(),
            cellar@ == before,
            before == old(cellar)@,
            before.wf(),
            forall|i: int| 0 <= i < at ==> (#[trigger] before.rows[i]).id != id,
        decreases cellar.rows.len() - at,
    {
        if cellar.rows[at].id == id {
            proof {
                lemma_remove_is_delete(before, at as int);
            }
            let mut rows: Vec<Entry> = Vec::new();
            core::mem::swap(&mut cellar.rows, &mut rows);
            rows.remove(at);
            proof {
                assert(entry_views(rows@) =~= before.rows.remove(at as int));
                lemma_delete_wf(before, id as int);
            }
            *cellar = Cellar { rows, last_id: cellar.last_id };
            return Ok(());
        }
        at += 1;
    }
    proof {
        lemma_absent_delete(before, id as int);
    }
    Ok(())
}

/// Every row, in table order.
pub fn get_all_rows(cellar: &Cellar) -> (all: Vec<Entry>)
    ensures
        entry_views(all@) == cellar@.rows,
{
    let mut all: Vec<Entry> = Vec::new();
    let mut at: usize = 0;
    while at < cellar.rows.len()
        invariant
            at <= cellar.rows.len(),
            entry_views(all@) == cellar@.rows.take(at as int),
        decreases cellar.rows.len() - at,
    {
        let copy = cellar.rows[at].clone();
        all.push(copy);
        assert(cellar@.rows.take(at + 1) =~= cellar@.rows.take(at as int).push(copy@));
        at += 1;
    }
    all
}

/// Empties the table and starts the ids over: the next entry gets id 1.
pub fn erase_all(cellar: &mut Cellar) -> (result: Result<(), Error>)
    ensures
        result is Ok,
        final(cellar)@ == CellarView::empty(),
{
    *cellar = Cellar { rows: Vec::new(), last_id: 0 };
    assert(cellar@.rows =~= Seq::empty());
    Ok(())
}

} // verus!
