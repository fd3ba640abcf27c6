//! The columns that older plugin databases lack.
use crate::order::viewed;
use crate::text::{holds, views};
use vstd::prelude::*;

verus! {

/// A column of the plugin table, and the statement that adds it.
#[derive(Debug)]
pub struct Migration {
    pub column: String,
    pub statement: String,
}

/// A column of the plugin table, and the statement that adds it.
pub struct MigrationView {
    pub column: Seq<char>,
    pub statement: Seq<char>,
}

impl View for Migration {
    type V = MigrationView;

    open spec fn view(&self) -> MigrationView {
        MigrationView { column: self.column@, statement: self.statement@ }
    }
}

/// The columns that were added to the plugin table over time, in order.
pub open spec fn added_columns() -> Seq<MigrationView> {
    seq![
        MigrationView {
            column: "bin_path"@,
            statement: "ALTER TABLE plugins ADD COLUMN bin_path TEXT"@,
        },
        MigrationView {
            column: "removable"@,
            statement: "ALTER TABLE plugins ADD COLUMN removable INTEGER NOT NULL DEFAULT 1"@,
        },
        MigrationView {
            column: "github_url"@,
            statement: "ALTER TABLE plugins ADD COLUMN github_url TEXT"@,
        },
        MigrationView {
            column: "channel"@,
            statement: "ALTER TABLE plugins ADD COLUMN channel TEXT"@,
        },
        MigrationView {
            column: "webview"@,
            statement: "ALTER TABLE plugins ADD COLUMN webview INTEGER"@,
        },
        MigrationView {
            column: "tls"@,
            statement: "ALTER TABLE plugins ADD COLUMN tls INTEGER NOT NULL DEFAULT 0"@,
        },
        MigrationView {
            column: "icon"@,
            statement: "ALTER TABLE plugins ADD COLUMN icon TEXT"@,
        },
        MigrationView {
            column: "target_name"@,
            statement: "ALTER TABLE plugins ADD COLUMN target_name TEXT"@,
        },
        MigrationView {
            column: "sha256"@,
            statement: "ALTER TABLE plugins ADD COLUMN sha256 TEXT NOT NULL DEFAULT ''"@,
        },
    ]
}

/// The columns that a table with `columns` lacks, in order.
pub open spec fn lacking(columns: Seq<Seq<char>>, wanted: Seq<MigrationView>) -> Seq<MigrationView> {
    wanted.filter(|m: MigrationView| !columns.contains(m.column))
}

/// A column and the statement that adds it.
fn migration(column: &str, statement: &str) -> (out: Migration)
    ensures
        out@ == (MigrationView { column: column@, statement: statement@ }),
{
    Migration { column: column.to_owned(), statement: statement.to_owned() }
}

/// The columns that were added to the plugin table over time, in order.
fn all_migrations() -> (out: Vec<Migration>)
    ensures
        viewed(out@) == added_columns(),
{
    let mut out: Vec<Migration> = Vec::new();
    out.push(migration("bin_path", "ALTER TABLE plugins ADD COLUMN bin_path TEXT"));
    out.push(
        migration(
            "removable",
            "ALTER TABLE plugins ADD COLUMN removable INTEGER NOT NULL DEFAULT 1",
        ),
    );
    out.push(migration("github_url", "ALTER TABLE plugins ADD COLUMN github_url TEXT"));
    out.push(migration("channel", "ALTER TABLE plugins ADD COLUMN channel TEXT"));
    out.push(migration("webview", "ALTER TABLE plugins ADD COLUMN webview INTEGER"));
    out.push(
        migration("tls", "ALTER TABLE plugins ADD COLUMN tls INTEGER NOT NULL DEFAULT 0"),
    );
    out.push(migration("icon", "ALTER TABLE plugins ADD COLUMN icon TEXT"));
    out.push(migration("target_name", "ALTER TABLE plugins ADD COLUMN target_name TEXT"));
    out.push(
        migration("sha256", "ALTER TABLE plugins ADD COLUMN sha256 TEXT NOT NULL DEFAULT ''"),
    );
    assert(viewed(out@) =~= added_columns());
    out
}

/// The columns that the plugin table lacks, in the order to add them.
pub fn missing_columns(columns: &Vec<String>) -> (out: Vec<Migration>)
    ensures
        viewed(out@) == lacking(views(columns@), added_columns()),
{
    let wanted = all_migrations();
    let ghost all = added_columns();
    let mut out: Vec<Migration> = Vec::new();
    let mut i: usize = 0;
    proof {
        reveal(Seq::filter);
        assert(all.take(0) =~= Seq::<MigrationView>::empty());
        assert(viewed(out@) =~= lacking(views(columns@), all.take(0)));
    }
    while i < wanted.len()
        invariant
            i <= wanted@.len(),
            viewed(wanted@) == all,
            viewed(out@) == lacking(views(columns@), all.take(i as int)),
        decreases wanted@.len() - i,
    {
        let ghost before = viewed(out@);
        proof {
            reveal(Seq::filter);
            assert(all.take(i + 1).drop_last() =~= all.take(i as int));
            assert(all.take(i + 1).last() == wanted@[i as int]@);
        }
        if !holds(columns, wanted[i].column.as_str()) {
            let entry = migration(wanted[i].column.as_str(), wanted[i].statement.as_str());
            out.push(entry);
            assert(viewed(out@) =~= before.push(entry@));
        }
        i += 1;
    }
    assert(all.take(i as int) =~= all);
    out
}

/// A table that has had its missing columns added lacks none.
pub proof fn migrating_once_is_enough(columns: Seq<Seq<char>>)
    ensures
        lacking(
            columns + lacking(columns, added_columns()).map_values(|m: MigrationView| m.column),
            added_columns(),
        ) == Seq::<MigrationView>::empty(),
{
    let wanted = added_columns();
    let first = lacking(columns, wanted);
    let names = first.map_values(|m: MigrationView| m.column);
    let all = columns + names;
    let lack = |m: MigrationView| !columns.contains(m.column);
    assert forall|w: int| 0 <= w < wanted.len() implies all.contains(
        (#[trigger] wanted[w]).column,
    ) by {
        let m = wanted[w];
        if columns.contains(m.column) {
            let k = choose|k: int| 0 <= k < columns.len() && columns[k] == m.column;
            assert(all[k] == m.column);
        } else {
            wanted.lemma_filter_contains(lack, w);
            let k = choose|k: int| 0 <= k < first.len() && first[k] == m;
            assert(all[columns.len() + k] == names[k]);
        }
    }
    lemma_none_lacking(all, wanted);
}

/// A table with all the columns that are wanted lacks none.
proof fn lemma_none_lacking(columns: Seq<Seq<char>>, wanted: Seq<MigrationView>)
    requires
        forall|w: int| 0 <= w < wanted.len() ==> columns.contains((#[trigger] wanted[w]).column),
    ensures
        lacking(columns, wanted) == Seq::<MigrationView>::empty(),
    decreases wanted.len(),
{
    reveal(Seq::filter);
    if wanted.len() > 0 {
        let rest = wanted.drop_last();
        assert forall|w: int| 0 <= w < rest.len() implies columns.contains(
            (#[trigger] rest[w]).column,
        ) by {
            assert(rest[w] == wanted[w]);
        }
        lemma_none_lacking(columns, rest);
        assert(columns.contains(wanted[wanted.len() - 1].column));
    }
    assert(lacking(columns, wanted) =~= Seq::<MigrationView>::empty());
}

/// A column is added if and only if the table lacks it.
pub proof fn lacking_columns_are_added(columns: Seq<Seq<char>>, i: int)
    requires
        0 <= i < added_columns().len(),
    ensures
        lacking(columns, added_columns()).contains(added_columns()[i]) <==> !columns.contains(
            added_columns()[i].column,
        ),
{
    let wanted = added_columns();
    let lack = |m: MigrationView| !columns.contains(m.column);
    if lack(wanted[i]) {
        wanted.lemma_filter_contains(lack, i);
    } else if wanted.filter(lack).contains(wanted[i]) {
        let k = choose|k: int|
            0 <= k < wanted.filter(lack).len() && wanted.filter(lack)[k] == wanted[i];
        wanted.lemma_filter_pred(lack, k);
    }
}

} // verus!
