//! Entries as lines of a table, passwords masked.
use crate::store::{get_all_rows, search_entries, Cellar};
use crate::{entry_views, Entry, EntryView};
use vstd::prelude::*;
use vstd::string::StringExecFns;

verus! {

/// One line of the table in which entries are shown. The password column never
/// holds a password, only a mask.
#[derive(Debug)]
pub struct TableRow {
    pub id: i32,
    pub name: String,
    pub login: String,
    pub password: String,
    pub comment: String,
}

/// What a `TableRow` holds, as mathematical values.
pub struct TableRowView {
    pub id: int,
    pub name: Seq<char>,
    pub login: Seq<char>,
    pub password: Seq<char>,
    pub comment: Seq<char>,
}

impl View for TableRow {
    type V = TableRowView;

    open spec fn view(&self) -> TableRowView {
        TableRowView {
            id: self.id as int,
            name: self.name@,
            login: self.login@,
            password: self.password@,
            comment: self.comment@,
        }
    }
}

/// What stands in the password column.
pub open spec fn password_mask() -> Seq<char> {
    "********"@
}

/// The line that shows `entry`.
pub open spec fn row_of(entry: EntryView) -> TableRowView {
    TableRowView {
        id: entry.id,
        name: entry.name,
        login: entry.login,
        password: password_mask(),
        comment: entry.comment,
    }
}

/// The lines that show `entries`, in order.
pub open spec fn rows_of(entries: Seq<EntryView>) -> Seq<TableRowView> {
    entries.map_values(|e: EntryView| row_of(e))
}

/// The views of a run of lines, in order.
pub open spec fn row_views(rows: Seq<TableRow>) -> Seq<TableRowView> {
    rows.map_values(|r: TableRow| r@)
}

impl Entry {
    /// The line that shows this entry: its fields, with the password masked.
    pub fn as_table_row(&self) -> (row: TableRow)
        ensures
            row@ == row_of(self@),
    {
        TableRow {
            id: self.id,
            name: self.name.clone(),
            login: self.login.clone(),
            password: String::from_str("********"),
            comment: self.comment.clone(),
        }
    }
}

/// The headings of the table.
pub fn table_title() -> (title: Vec<&'static str>)
    ensures
        title@.len() == 4,
        title@[0]@ == "Name"@,
        title@[1]@ == "Login"@,
        title@[2]@ == "Password"@,
        title@[3]@ == "Comment"@,
{
    let mut title: Vec<&'static str> = Vec::new();
    title.push("Name");
    title.push("Login");
    title.push("Password");
    title.push("Comment");
    title
}

/// The table lines for `entries`, in order.
pub fn display(entries: Vec<Entry>) -> (table: Vec<TableRow>)
    ensures
        row_views(table@) == rows_of(entry_views(entries@)),
{
    let mut table: Vec<TableRow> = Vec::new();
    let mut at: usize = 0;
    while at < entries.len()
        invariant
            at <= entries@.len(),
            row_views(table@) == rows_of(entry_views(entries@.take(at as int))),
        decreases entries@.len() - at,
    {
        let row = entries[at].as_table_row();
        table.push(row);
        assert(rows_of(entry_views(entries@.take(at + 1))) =~= rows_of(
            entry_views(entries@.take(at as int)),
        ).push(row_of(entries@[at as int]@)));
        at += 1;
    }
    table
}

/// The table lines for every entry of the cellar.
pub fn display_all(cellar: &Cellar) -> (table: Vec<TableRow>)
    ensures
        row_views(table@) == rows_of(cellar@.rows),
{
    let entries = get_all_rows(cellar);
    display(entries)
}

/// The table lines for the entries that a search finds.
pub fn display_search(cellar: &Cellar, name: String, login: String) -> (table: Vec<TableRow>)
    ensures
        row_views(table@) == rows_of(cellar@.search(name@, login@)),
{
    let entries = search_entries(cellar, name, login);
    display(entries)
}

} // verus!
