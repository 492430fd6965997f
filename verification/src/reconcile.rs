//! The merge of the two sources: one record for every database entry, then
//! one for every listed identifier that the database does not hold.

use vstd::prelude::*;
use vstd::hash_set::StringHashSet;
use vstd::string::StringExecFns;
use crate::kev::{KevEntry, KevField, KevIndex, KevTable, KevVuln, kev_index};
use crate::metrics::{best_cvss, extract_best_cvss};
use crate::nvd::{
    DatabaseEntry,
    NvdCve,
    no_description,
    pick_english_description,
    picked_description,
    reference_urls,
};
use crate::record::{CanonicalItem, Record};
use crate::score::{bucket_cvss, bucket_label};
use crate::text::{copy_text, present_all, trim, trimmed};
use crate::unique::{dedup, first_occurrences};

verus! {

/// The tag of records that the database describes.
pub open spec fn nvd_tag() -> Seq<char> {
    "nvd"@
}

/// The tag of records that the known-exploited list names.
pub open spec fn kev_tag() -> Seq<char> {
    "kev"@
}

/// The address of the detail page of `id`.
pub open spec fn detail_url(id: Seq<char>) -> Seq<char> {
    "https://nvd.nist.gov/vuln/detail/"@ + id
}

/// The description of a record that only the list names and gives no note for.
pub open spec fn listed_only_description() -> Seq<char> {
    "KEV-listed vulnerability (details not in current NVD modified feed)."@
}

/// The record of a database entry, given the index of the list.
pub open spec fn reconciled(kev: KevTable, entry: DatabaseEntry) -> Record {
    let id = trimmed(entry.id);
    let cvss = best_cvss(entry.metrics);
    let picked = picked_description(entry.descriptions);
    Record {
        id,
        sources: if kev.lists(id) {
            seq![nvd_tag(), kev_tag()]
        } else {
            seq![nvd_tag()]
        },
        published: entry.published,
        last_modified: entry.last_modified,
        cvss,
        severity_bucket: bucket_label(cvss),
        kev: kev.lists(id),
        short_desc: if picked == no_description() && kev.get(id, KevField::Note) is Some {
            kev.get(id, KevField::Note)->0
        } else {
            picked
        },
        vendor: kev.get(id, KevField::Vendor),
        product: kev.get(id, KevField::Product),
        refs: first_occurrences(present_all(entry.references).push(detail_url(id))),
    }
}

/// The record of an identifier that the list names and the database lacks.
pub open spec fn kev_only(kev: KevTable, id: Seq<char>) -> Record {
    Record {
        id,
        sources: seq![kev_tag()],
        published: None,
        last_modified: None,
        cvss: None,
        severity_bucket: bucket_label(None),
        kev: true,
        short_desc: match kev.get(id, KevField::Note) {
            Some(note) => note,
            None => listed_only_description(),
        },
        vendor: kev.get(id, KevField::Vendor),
        product: kev.get(id, KevField::Product),
        refs: seq![detail_url(id)],
    }
}

/// The identifiers of the database entries, trimmed, in order.
pub open spec fn database_ids(nvd: Seq<DatabaseEntry>) -> Seq<Seq<char>> {
    nvd.map_values(|entry: DatabaseEntry| trimmed(entry.id))
}

/// The records of the database entries, in order.
pub open spec fn database_records(kev: KevTable, nvd: Seq<DatabaseEntry>) -> Seq<Record> {
    nvd.map_values(|entry: DatabaseEntry| reconciled(kev, entry))
}

/// Those of `ids` that are not among `emitted`, in order.
pub open spec fn unmatched(ids: Seq<Seq<char>>, emitted: Seq<Seq<char>>) -> Seq<Seq<char>> {
    ids.filter(|id: Seq<char>| !emitted.contains(id))
}

/// The records of identifiers that only the list names, in order.
pub open spec fn listed_only_records(kev: KevTable, ids: Seq<Seq<char>>) -> Seq<Record> {
    ids.map_values(|id: Seq<char>| kev_only(kev, id))
}

/// The canonical record set of a list and a database: the records of the
/// database entries in their order, then those of the listed identifiers
/// that no database entry has, in the order of first listing.
pub open spec fn normalized(kev: Seq<KevEntry>, nvd: Seq<DatabaseEntry>) -> Seq<Record> {
    let index = kev_index(kev);
    database_records(index, nvd) + listed_only_records(
        index,
        unmatched(index.ids, database_ids(nvd)),
    )
}

/// The address of the detail page of `id`.
pub fn detail_page(id: &str) -> (url: String)
    ensures
        url@ == detail_url(id@),
{
    String::from_str("https://nvd.nist.gov/vuln/detail/").concat(id)
}

/// Builds the record of a database entry.
pub fn reconcile_entry(index: &KevIndex, cve: &NvdCve) -> (item: CanonicalItem)
    ensures
        item@ == reconciled(index@, cve@),
{
    let id = trim(cve.id.as_str()).to_owned();
    let cvss = extract_best_cvss(&cve.metrics);

    let mut found = reference_urls(cve.references.as_slice());
    let ghost listed_urls = found.deep_view();
    let page = detail_page(id.as_str());
    found.push(page);
    assert(found.deep_view() =~= listed_urls.push(detail_url(id@)));
    let refs = dedup(&found);

    let picked = pick_english_description(cve.descriptions.as_slice());
    let short_desc = if picked == String::from_str("No description available.") {
        match index.get(id.as_str(), KevField::Note) {
            Some(note) => note,
            None => picked,
        }
    } else {
        picked
    };

    let is_kev = index.contains(id.as_str());
    let mut sources: Vec<String> = Vec::new();
    sources.push(String::from_str("nvd"));
    if is_kev {
        sources.push(String::from_str("kev"));
        assert(sources.deep_view() =~= seq![nvd_tag(), kev_tag()]);
    } else {
        assert(sources.deep_view() =~= seq![nvd_tag()]);
    }

    let vendor = index.get(id.as_str(), KevField::Vendor);
    let product = index.get(id.as_str(), KevField::Product);
    CanonicalItem {
        id,
        sources,
        published: copy_text(&cve.published),
        last_modified: copy_text(&cve.last_modified),
        cvss,
        severity_bucket: bucket_cvss(cvss),
        kev: is_kev,
        short_desc,
        vendor,
        product,
        refs,
    }
}

/// Builds the record of an identifier that only the list names.
pub fn kev_only_item(index: &KevIndex, id: &str) -> (item: CanonicalItem)
    ensures
        item@ == kev_only(index@, id@),
{
    let mut refs: Vec<String> = Vec::new();
    refs.push(detail_page(id));
    assert(refs.deep_view() =~= seq![detail_url(id@)]);
    let mut sources: Vec<String> = Vec::new();
    sources.push(String::from_str("kev"));
    assert(sources.deep_view() =~= seq![kev_tag()]);
    let short_desc = match index.get(id, KevField::Note) {
        Some(note) => note,
        None => String::from_str(
            "KEV-listed vulnerability (details not in current NVD modified feed).",
        ),
    };
    CanonicalItem {
        id: id.to_owned(),
        sources,
        published: None,
        last_modified: None,
        cvss: None,
        severity_bucket: bucket_cvss(None),
        kev: true,
        short_desc,
        vendor: index.get(id, KevField::Vendor),
        product: index.get(id, KevField::Product),
        refs,
    }
}

/// Reconciles a known-exploited list with a database export.
pub fn normalize(kev: &[KevVuln], nvd: &[NvdCve]) -> (items: Vec<CanonicalItem>)
    ensures
        items.deep_view() == normalized(kev.deep_view(), nvd.deep_view()),
{
    let index = KevIndex::build(kev);
    let ghost table = index@;
    let ghost entries = nvd.deep_view();
    let mut items: Vec<CanonicalItem> = Vec::new();
    let mut existing = StringHashSet::new();

    let mut i: usize = 0;
    proof {
        assert(items.deep_view() =~= database_records(table, entries.take(0)));
    }
    while i < nvd.len()
        invariant
            i <= nvd.len(),
            entries == nvd.deep_view(),
            table == index@,
            items.deep_view() == database_records(table, entries.take(i as int)),
            forall|id: Seq<char>|
                existing@.contains(id) <==> database_ids(entries.take(i as int)).contains(id),
        decreases nvd.len() - i,
    {
        let ghost before = items.deep_view();
        let ghost seen = database_ids(entries.take(i as int));
        let item = reconcile_entry(&index, &nvd[i]);
        existing.insert(item.id.clone());
        items.push(item);
        proof {
            let next = database_ids(entries.take(i + 1));
            assert(entries.take(i + 1)[i as int] == nvd@[i as int]@);
            assert(items.deep_view() =~= before.push(item@));
            assert(database_records(table, entries.take(i + 1)) =~= before.push(
                reconciled(table, entries[i as int]),
            ));
            assert(next =~= seen.push(item.id@));
            assert forall|id: Seq<char>| existing@.contains(id) <==> next.contains(id) by {
                if seen.contains(id) {
                    let j = choose|j: int| 0 <= j < seen.len() && seen[j] == id;
                    assert(next[j] == id);
                }
                assert(next[seen.len() as int] == item.id@);
            }
        }
        i = i + 1;
    }

    let ids = index.ids();
    let ghost emitted = database_ids(entries);
    let ghost from_database = items.deep_view();
    let mut j: usize = 0;
    proof {
        assert(entries.take(i as int) =~= entries);
        reveal(Seq::filter);
        assert(ids.deep_view().take(0) =~= Seq::<Seq<char>>::empty());
        assert(items.deep_view() =~= from_database + listed_only_records(
            table,
            unmatched(ids.deep_view().take(0), emitted),
        ));
    }
    while j < ids.len()
        invariant
            j <= ids.len(),
            table == index@,
            ids.deep_view() == table.ids,
            emitted == database_ids(entries),
            from_database == database_records(table, entries),
            forall|id: Seq<char>| existing@.contains(id) <==> emitted.contains(id),
            items.deep_view() == from_database + listed_only_records(
                table,
                unmatched(table.ids.take(j as int), emitted),
            ),
        decreases ids.len() - j,
    {
        let ghost before = items.deep_view();
        let ghost kept = unmatched(table.ids.take(j as int), emitted);
        let id = &ids[j];
        proof {
            reveal(Seq::filter);
            assert(table.ids.take(j + 1).drop_last() =~= table.ids.take(j as int));
            assert(table.ids.take(j + 1).last() == id@);
        }
        if !existing.contains(id.as_str()) {
            let item = kev_only_item(&index, id.as_str());
            items.push(item);
            proof {
                assert(unmatched(table.ids.take(j + 1), emitted) == kept.push(id@));
                assert(items.deep_view() =~= before.push(item@));
                assert(listed_only_records(table, kept.push(id@)) =~= listed_only_records(
                    table,
                    kept,
                ).push(kev_only(table, id@)));
            }
        }
        j = j + 1;
    }
    proof {
        assert(table.ids.take(j as int) =~= table.ids);
    }
    items
}

} // verus!
