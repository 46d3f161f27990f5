//! The optional modules an installation can switch on.
use vstd::prelude::*;

use crate::error::AppError;
use crate::model::ModuleStatus;
use crate::text::{chars_of, eq_chars, string_of};

verus! {

/// A module as the catalogue describes it.
#[derive(Debug, Clone, Copy)]
pub struct ModuleInfo {
    pub id: &'static str,
    pub name: &'static str,
    pub description: &'static str,
    pub available: bool,
}

/// A catalogue entry as mathematics sees it: identifier, name, description,
/// and whether it can be had yet.
pub open spec fn info_view(m: ModuleInfo) -> (Seq<char>, Seq<char>, Seq<char>, bool) {
    (m.id@, m.name@, m.description@, m.available)
}

/// The catalogue, in order.
pub open spec fn catalog_spec() -> Seq<(Seq<char>, Seq<char>, Seq<char>, bool)> {
    seq![
        (
            "employees"@,
            "Сотрудники"@,
            "Кадровая база. Документы потом смогут ссылаться на человека, а не копировать ФИО руками. Подключается отдельно — если не нужна, её нет."@,
            false,
        ),
        (
            "archive"@,
            "Архив"@,
            "Старые файлы компании: кладёте папку как есть, ищете по имени и содержимому. Не путать с живыми документами ZED."@,
            false,
        ),
    ]
}

/// The first entry of `entries` with the identifier `id`.
pub open spec fn find_entry(entries: Seq<(Seq<char>, Seq<char>, Seq<char>, bool)>, id: Seq<char>) -> Option<
    (Seq<char>, Seq<char>, Seq<char>, bool),
>
    decreases entries.len(),
{
    if entries.len() == 0 {
        None
    } else if entries[0].0 == id {
        Some(entries[0])
    } else {
        find_entry(entries.drop_first(), id)
    }
}

/// The catalogue of modules.
pub fn catalog() -> (v: Vec<ModuleInfo>)
    ensures
        v@.map_values(|m: ModuleInfo| info_view(m)) == catalog_spec(),
{
    let v = vec![
        ModuleInfo {
            id: "employees",
            name: "Сотрудники",
            description: "Кадровая база. Документы потом смогут ссылаться на человека, а не копировать ФИО руками. Подключается отдельно — если не нужна, её нет.",
            available: false,
        },
        ModuleInfo {
            id: "archive",
            name: "Архив",
            description: "Старые файлы компании: кладёте папку как есть, ищете по имени и содержимому. Не путать с живыми документами ZED.",
            available: false,
        },
    ];
    assert(v@.map_values(|m: ModuleInfo| info_view(m)) =~= catalog_spec());
    v
}

/// The catalogue entry of the module `id`; an unknown module is not found.
pub fn info(id: &str) -> (r: Result<ModuleInfo, AppError>)
    ensures
        match find_entry(catalog_spec(), id@) {
            Some(e) => r matches Ok(m) && info_view(m) == e,
            None => r matches Err(e) && e is NotFound,
        },
{
    let all = catalog();
    let ghost entries = catalog_spec();
    let want = chars_of(id);
    let mut i: usize = 0;
    assert(entries.skip(0) =~= entries);
    while i < all.len()
        invariant
            i <= all.len(),
            want@ == id@,
            all@.map_values(|m: ModuleInfo| info_view(m)) == entries,
            entries == catalog_spec(),
            find_entry(entries, id@) == find_entry(entries.skip(i as int), id@),
        decreases all.len() - i,
    {
        assert(entries.skip(i as int)[0] == entries[i as int]);
        assert(entries.skip(i as int).drop_first() =~= entries.skip(i + 1));
        assert(entries[i as int] == info_view(all@[i as int]));
        if eq_chars(&chars_of(all[i].id), &want) {
            return Ok(all[i]);
        }
        i = i + 1;
    }
    assert(entries.skip(i as int) =~= Seq::<(Seq<char>, Seq<char>, Seq<char>, bool)>::empty());
    Err(AppError::NotFound)
}

/// The state of a module: its catalogue entry, whether it is on and since when.
pub fn module_status(m: &ModuleInfo, enabled: bool, enabled_at: Option<String>) -> (s: ModuleStatus)
    ensures
        s.id@ == m.id@ && s.name@ == m.name@ && s.description@ == m.description@,
        s.enabled == enabled && s.available == m.available && s.enabled_at == enabled_at,
{
    ModuleStatus {
        id: string_of(&chars_of(m.id)),
        name: string_of(&chars_of(m.name)),
        description: string_of(&chars_of(m.description)),
        enabled,
        available: m.available,
        enabled_at,
    }
}

/// Whether `ids` names `id`.
pub open spec fn names_id(ids: Seq<String>, id: Seq<char>) -> bool {
    exists|k: int| 0 <= k < ids.len() && ids[k]@ == id
}

fn names_exec(ids: &Vec<String>, id: &str) -> (b: bool)
    ensures
        b == names_id(ids@, id@),
{
    let want = chars_of(id);
    let mut j: usize = 0;
    while j < ids.len()
        invariant
            j <= ids.len(),
            want@ == id@,
            forall|k: int| 0 <= k < j ==> ids@[k]@ != id@,
        decreases ids.len() - j,
    {
        if eq_chars(&chars_of(ids[j].as_str()), &want) {
            return true;
        }
        j = j + 1;
    }
    false
}

/// `plan` pairs the first modules of the catalogue, in order, with whether
/// `ids` names them.
pub open spec fn plan_matches(plan: Seq<(ModuleInfo, bool)>, ids: Seq<String>) -> bool {
    forall|k: int|
        0 <= k < plan.len() ==> info_view(#[trigger] plan[k].0) == catalog_spec()[k] && plan[k].1
            == names_id(ids, catalog_spec()[k].0)
}

/// Each module of the catalogue, in order, with whether `ids` switches it on:
/// exactly the modules named there are on, the others off; unknown names are
/// passed over.
pub fn switch_plan(ids: &Vec<String>) -> (plan: Vec<(ModuleInfo, bool)>)
    ensures
        plan@.len() == catalog_spec().len(),
        plan_matches(plan@, ids@),
{
    let all = catalog();
    let mut plan: Vec<(ModuleInfo, bool)> = Vec::new();
    let mut i: usize = 0;
    while i < all.len()
        invariant
            i <= all.len(),
            all@.map_values(|m: ModuleInfo| info_view(m)) == catalog_spec(),
            plan@.len() == i,
            plan_matches(plan@, ids@),
        decreases all.len() - i,
    {
        let m = all[i];
        assert(info_view(m) == catalog_spec()[i as int]) by {
            assert(all@.map_values(|m: ModuleInfo| info_view(m))[i as int] == info_view(all@[i as int]));
        }
        let on = names_exec(ids, m.id);
        let ghost before = plan@;
        plan.push((m, on));
        assert forall|k: int| 0 <= k < plan@.len() implies info_view(#[trigger] plan@[k].0) == catalog_spec()[k]
            && plan@[k].1 == names_id(ids@, catalog_spec()[k].0) by {
            if k < before.len() {
                assert(plan@[k] == before[k]);
            }
        }
        i = i + 1;
    }
    plan
}

} // verus!
