//! The columns that later versions added to the stored tables, and the
//! statements that add them to a database made before.
use vstd::prelude::*;

use crate::text::{chars_of, eq_chars, starts_with, string_of};

verus! {

/// The tables that gained columns, in the order they are brought up to date.
pub open spec fn upgraded_tables() -> Seq<Seq<char>> {
    seq!["instance"@, "templates"@, "template_fields"@, "documents"@]
}

/// The tables that gained columns, in the order they are brought up to date.
pub fn upgraded_table_names() -> (v: Vec<&'static str>)
    ensures
        v@.map_values(|s: &'static str| s@) == upgraded_tables(),
{
    let v = vec!["instance", "templates", "template_fields", "documents"];
    assert(v@.map_values(|s: &'static str| s@) =~= upgraded_tables());
    v
}

/// The columns a table gained, each with the statement that adds it.
pub open spec fn extra_columns(table: Seq<char>) -> Seq<(Seq<char>, Seq<char>)> {
    if table == "instance"@ {
        seq![("setup_done"@, "ALTER TABLE instance ADD COLUMN setup_done INTEGER NOT NULL DEFAULT 0"@)]
    } else if table == "templates"@ {
        seq![
            ("body"@, "ALTER TABLE templates ADD COLUMN body TEXT NOT NULL DEFAULT ''"@),
            ("source_name"@, "ALTER TABLE templates ADD COLUMN source_name TEXT"@),
            ("source_mime"@, "ALTER TABLE templates ADD COLUMN source_mime TEXT"@),
            ("source_path"@, "ALTER TABLE templates ADD COLUMN source_path TEXT"@),
        ]
    } else if table == "template_fields"@ {
        seq![
            ("config_json"@, "ALTER TABLE template_fields ADD COLUMN config_json TEXT NOT NULL DEFAULT '{}'"@),
            ("fill_mode"@, "ALTER TABLE template_fields ADD COLUMN fill_mode TEXT NOT NULL DEFAULT 'manual'"@),
        ]
    } else if table == "documents"@ {
        seq![
            ("body"@, "ALTER TABLE documents ADD COLUMN body TEXT NOT NULL DEFAULT ''"@),
            ("source_name"@, "ALTER TABLE documents ADD COLUMN source_name TEXT"@),
            ("source_mime"@, "ALTER TABLE documents ADD COLUMN source_mime TEXT"@),
            ("source_path"@, "ALTER TABLE documents ADD COLUMN source_path TEXT"@),
        ]
    } else {
        Seq::empty()
    }
}

/// Whether `names` holds `name`.
pub open spec fn has_name(names: Seq<String>, name: Seq<char>) -> bool {
    exists|k: int| 0 <= k < names.len() && names[k]@ == name
}

/// The statements of `cols`, in order, for the columns `present` lacks.
pub open spec fn missing_statements(cols: Seq<(Seq<char>, Seq<char>)>, present: Seq<String>) -> Seq<
    Seq<char>,
>
    decreases cols.len(),
{
    if cols.len() == 0 {
        Seq::empty()
    } else {
        (if has_name(present, cols[0].0) {
            Seq::empty()
        } else {
            seq![cols[0].1]
        }) + missing_statements(cols.drop_first(), present)
    }
}

fn extra_columns_exec(table: &str) -> (v: Vec<(&'static str, &'static str)>)
    ensures
        v@.map_values(|p: (&'static str, &'static str)| (p.0@, p.1@)) == extra_columns(table@),
{
    let t = chars_of(table);
    proof {
        reveal_strlit("instance");
        reveal_strlit("templates");
        reveal_strlit("template_fields");
        reveal_strlit("documents");
    }
    let v: Vec<(&'static str, &'static str)> = if eq_chars(&t, &chars_of("instance")) {
        vec![("setup_done", "ALTER TABLE instance ADD COLUMN setup_done INTEGER NOT NULL DEFAULT 0")]
    } else if eq_chars(&t, &chars_of("templates")) {
        vec![
            ("body", "ALTER TABLE templates ADD COLUMN body TEXT NOT NULL DEFAULT ''"),
            ("source_name", "ALTER TABLE templates ADD COLUMN source_name TEXT"),
            ("source_mime", "ALTER TABLE templates ADD COLUMN source_mime TEXT"),
            ("source_path", "ALTER TABLE templates ADD COLUMN source_path TEXT"),
        ]
    } else if eq_chars(&t, &chars_of("template_fields")) {
        vec![
            ("config_json", "ALTER TABLE template_fields ADD COLUMN config_json TEXT NOT NULL DEFAULT '{}'"),
            ("fill_mode", "ALTER TABLE template_fields ADD COLUMN fill_mode TEXT NOT NULL DEFAULT 'manual'"),
        ]
    } else if eq_chars(&t, &chars_of("documents")) {
        vec![
            ("body", "ALTER TABLE documents ADD COLUMN body TEXT NOT NULL DEFAULT ''"),
            ("source_name", "ALTER TABLE documents ADD COLUMN source_name TEXT"),
            ("source_mime", "ALTER TABLE documents ADD COLUMN source_mime TEXT"),
            ("source_path", "ALTER TABLE documents ADD COLUMN source_path TEXT"),
        ]
    } else {
        Vec::new()
    };
    assert(v@.map_values(|p: (&'static str, &'static str)| (p.0@, p.1@)) =~= extra_columns(table@));
    v
}

fn has_name_exec(names: &Vec<String>, name: &Vec<char>) -> (b: bool)
    ensures
        b == has_name(names@, name@),
{
    let mut i: usize = 0;
    while i < names.len()
        invariant
            i <= names.len(),
            forall|k: int| 0 <= k < i ==> names@[k]@ != name@,
        decreases names.len() - i,
    {
        if eq_chars(&chars_of(names[i].as_str()), name) {
            return true;
        }
        i = i + 1;
    }
    false
}

/// The statements that bring `table` up to date, given the columns it has.
pub fn column_additions(table: &str, present: &Vec<String>) -> (out: Vec<String>)
    ensures
        out@.map_values(|s: String| s@) == missing_statements(extra_columns(table@), present@),
{
    let cols = extra_columns_exec(table);
    let ghost all = cols@.map_values(|p: (&'static str, &'static str)| (p.0@, p.1@));
    let mut out: Vec<String> = Vec::new();
    let mut i: usize = 0;
    assert(all.skip(0) =~= all);
    assert(out@.map_values(|s: String| s@) =~= Seq::<Seq<char>>::empty());
    while i < cols.len()
        invariant
            i <= cols.len(),
            all == cols@.map_values(|p: (&'static str, &'static str)| (p.0@, p.1@)),
            missing_statements(all, present@) == out@.map_values(|s: String| s@)
                + missing_statements(all.skip(i as int), present@),
        decreases cols.len() - i,
    {
        let ghost before = out@.map_values(|s: String| s@);
        assert(all.skip(i as int)[0] == all[i as int]);
        assert(all[i as int] == (cols@[i as int].0@, cols@[i as int].1@));
        assert(all.skip(i as int).drop_first() =~= all.skip(i + 1));
        let (col, stmt) = cols[i];
        if !has_name_exec(present, &chars_of(col)) {
            out.push(string_of(&chars_of(stmt)));
            assert(out@.map_values(|s: String| s@) =~= before.push(stmt@));
        } else {
            assert(out@.map_values(|s: String| s@) =~= before);
        }
        i = i + 1;
    }
    assert(all.skip(i as int) =~= Seq::<(Seq<char>, Seq<char>)>::empty());
    proof {
        let v = out@.map_values(|s: String| s@);
        assert(v + Seq::<Seq<char>>::empty() =~= v);
    }
    out
}

/// Only the columns a table lacks get a statement.
proof fn lemma_missing_statements(cols: Seq<(Seq<char>, Seq<char>)>, present: Seq<String>)
    ensures
        (forall|k: int| 0 <= k < cols.len() ==> has_name(present, #[trigger] cols[k].0)) ==> missing_statements(
            cols,
            present,
        ).len() == 0,
        missing_statements(cols, present).len() <= cols.len(),
    decreases cols.len(),
{
    if cols.len() > 0 {
        lemma_missing_statements(cols.drop_first(), present);
        if forall|k: int| 0 <= k < cols.len() ==> has_name(present, #[trigger] cols[k].0) {
            assert(has_name(present, cols[0].0));
            assert forall|k: int| 0 <= k < cols.drop_first().len() implies has_name(present, #[trigger] cols.drop_first()[k].0) by {
                assert(cols.drop_first()[k] == cols[k + 1]);
            }
        }
    }
}

/// Law: bringing a table up to date is done once: a table that has every column
/// it gained gets no statement, and no table gets more statements than it
/// gained columns.
pub proof fn law_upgrade_settles(table: Seq<char>, present: Seq<String>)
    ensures
        (forall|k: int| 0 <= k < extra_columns(table).len() ==> has_name(present, #[trigger] extra_columns(table)[k].0))
            ==> missing_statements(extra_columns(table), present).len() == 0,
        missing_statements(extra_columns(table), present).len() <= extra_columns(table).len(),
{
    lemma_missing_statements(extra_columns(table), present);
}

/// Law: each statement adds to its table the column it stands for: it reads
/// `ALTER TABLE <table> ADD COLUMN <column> ` and then the column's type.
pub proof fn law_statement_adds_its_column(table: Seq<char>, k: int)
    requires
        0 <= k < extra_columns(table).len(),
    ensures
        starts_with(
            extra_columns(table)[k].1,
            "ALTER TABLE "@ + table + " ADD COLUMN "@ + extra_columns(table)[k].0 + " "@,
        ),
{
    reveal_strlit("instance");
    reveal_strlit("templates");
    reveal_strlit("template_fields");
    reveal_strlit("documents");
    reveal_strlit("ALTER TABLE ");
    reveal_strlit(" ADD COLUMN ");
    reveal_strlit(" ");
    reveal_strlit("setup_done");
    reveal_strlit("body");
    reveal_strlit("source_name");
    reveal_strlit("source_mime");
    reveal_strlit("source_path");
    reveal_strlit("config_json");
    reveal_strlit("fill_mode");
    reveal_strlit("ALTER TABLE instance ADD COLUMN setup_done INTEGER NOT NULL DEFAULT 0");
    reveal_strlit("ALTER TABLE templates ADD COLUMN body TEXT NOT NULL DEFAULT ''");
    reveal_strlit("ALTER TABLE templates ADD COLUMN source_name TEXT");
    reveal_strlit("ALTER TABLE templates ADD COLUMN source_mime TEXT");
    reveal_strlit("ALTER TABLE templates ADD COLUMN source_path TEXT");
    reveal_strlit("ALTER TABLE template_fields ADD COLUMN config_json TEXT NOT NULL DEFAULT '{}'");
    reveal_strlit("ALTER TABLE template_fields ADD COLUMN fill_mode TEXT NOT NULL DEFAULT 'manual'");
    reveal_strlit("ALTER TABLE documents ADD COLUMN body TEXT NOT NULL DEFAULT ''");
    reveal_strlit("ALTER TABLE documents ADD COLUMN source_name TEXT");
    reveal_strlit("ALTER TABLE documents ADD COLUMN source_mime TEXT");
    reveal_strlit("ALTER TABLE documents ADD COLUMN source_path TEXT");
    let c = extra_columns(table)[k];
    let p = "ALTER TABLE "@ + table + " ADD COLUMN "@ + c.0 + " "@;
    assert(c.1.subrange(0, p.len() as int) =~= p);
}

/// Law: a second upgrade changes nothing. Once the statements for the columns
/// a table lacked have added them (`after` holds every column of `present`
/// and every column that got a statement), the table gets no statement.
pub proof fn law_second_upgrade_changes_nothing(
    table: Seq<char>,
    present: Seq<String>,
    after: Seq<String>,
)
    requires
        forall|i: int| 0 <= i < present.len() ==> has_name(after, #[trigger] present[i]@),
        forall|k: int|
            0 <= k < extra_columns(table).len() && !has_name(present, #[trigger] extra_columns(table)[k].0)
                ==> has_name(after, extra_columns(table)[k].0),
    ensures
        missing_statements(extra_columns(table), after).len() == 0,
{
    let cols = extra_columns(table);
    assert forall|k: int| 0 <= k < cols.len() implies has_name(after, #[trigger] cols[k].0) by {
        if has_name(present, cols[k].0) {
            let j = choose|j: int| 0 <= j < present.len() && present[j]@ == cols[k].0;
            assert(has_name(after, present[j]@));
        }
    }
    lemma_missing_statements(cols, after);
}

} // verus!
