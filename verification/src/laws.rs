//! What holds of every canonical record set.

use vstd::prelude::*;
use crate::kev::{
    KevEntry,
    KevField,
    KevTable,
    entry_ids,
    kev_index,
    latest,
    lemma_entry_ids,
    lemma_latest_present,
    listed_ids,
};
use crate::nvd::{
    DatabaseEntry,
    lemma_first_text_at,
    lemma_first_text_present,
    no_description,
    usable,
};
use crate::reconcile::{
    database_ids,
    detail_url,
    kev_only,
    kev_tag,
    normalized,
    nvd_tag,
    reconciled,
    unmatched,
};
use crate::record::Record;
use crate::score::bucket_label;
use crate::text::{lemma_trimmed_stays, present_all, trimmed};
use crate::unique::{
    first_occurrences,
    lemma_first_occurrences_distinct,
    lemma_first_occurrences_members,
};

verus! {

/// The identifiers of a run of records, in order.
pub open spec fn record_ids(records: Seq<Record>) -> Seq<Seq<char>> {
    records.map_values(|r: Record| r.id)
}

/// Of a run without repeated identifiers, the unmatched ones are again
/// without repetition, and are those that are not among the emitted.
pub proof fn lemma_unmatched(ids: Seq<Seq<char>>, emitted: Seq<Seq<char>>)
    requires
        ids.no_duplicates(),
    ensures
        unmatched(ids, emitted).no_duplicates(),
        forall|id: Seq<char>|
            unmatched(ids, emitted).contains(id) <==> ids.contains(id) && !emitted.contains(id),
    decreases ids.len(),
{
    reveal(Seq::filter);
    if ids.len() > 0 {
        let init = ids.drop_last();
        let last = ids.last();
        let kept = unmatched(init, emitted);
        lemma_unmatched(init, emitted);
        assert forall|id: Seq<char>|
            unmatched(ids, emitted).contains(id) <==> ids.contains(id) && !emitted.contains(
                id,
            ) by {
            if ids.contains(id) {
                let i = choose|i: int| 0 <= i < ids.len() && ids[i] == id;
                if i < init.len() {
                    assert(init[i] == id);
                }
            }
            if init.contains(id) {
                let i = choose|i: int| 0 <= i < init.len() && init[i] == id;
                assert(ids[i] == id);
            }
            assert(ids[ids.len() - 1] == last);
            if !emitted.contains(last) {
                let after = kept.push(last);
                assert(after[kept.len() as int] == last);
                if kept.contains(id) {
                    let j = choose|j: int| 0 <= j < kept.len() && kept[j] == id;
                    assert(after[j] == id);
                }
                if after.contains(id) {
                    let j = choose|j: int| 0 <= j < after.len() && after[j] == id;
                    if j < kept.len() {
                        assert(kept[j] == id);
                    }
                }
            }
        }
        if !emitted.contains(last) {
            if kept.contains(last) {
                let i = choose|i: int| 0 <= i < init.len() && init[i] == last;
                assert(ids[i] == ids[ids.len() - 1]);
            }
        }
    }
}

/// The index of a list names each identifier once; every identifier it
/// names is trimmed and not empty; and every value it holds is not empty and
/// belongs to an identifier that it names.
pub proof fn lemma_index_well_formed(kev: Seq<KevEntry>)
    ensures
        kev_index(kev).ids.no_duplicates(),
        forall|id: Seq<char>| #[trigger]
            kev_index(kev).lists(id) ==> id.len() > 0 && trimmed(id) == id,
        forall|id: Seq<char>, field: KevField|
            #[trigger] kev_index(kev).get(id, field) is Some ==> kev_index(kev).lists(id)
                && kev_index(kev).get(id, field)->0.len() > 0,
{
    lemma_first_occurrences_distinct(entry_ids(kev));
    lemma_first_occurrences_members(entry_ids(kev));
    lemma_entry_ids(kev);
    assert forall|id: Seq<char>| #[trigger] kev_index(kev).lists(id) implies id.len() > 0
        && trimmed(id) == id by {
        assert(listed_ids(kev).contains(id));
        assert(entry_ids(kev).contains(id));
        let k = choose|k: int| 0 <= k < kev.len() && (#[trigger] kev[k]).id() == Some(id);
        lemma_trimmed_stays(kev[k].cve_id->0);
    }
    assert forall|id: Seq<char>, field: KevField| #[trigger]
        kev_index(kev).get(id, field) is Some implies kev_index(kev).lists(id) && kev_index(
        kev,
    ).get(id, field)->0.len() > 0 by {
        lemma_latest_present(kev, id, field);
        assert(latest(kev, id, field) is Some);
    }
}

/// The identifiers of a canonical record set are those of the database
/// entries, followed by the listed identifiers that no entry has.
pub proof fn lemma_record_ids(kev: Seq<KevEntry>, nvd: Seq<DatabaseEntry>)
    ensures
        record_ids(normalized(kev, nvd)) == database_ids(nvd) + unmatched(
            listed_ids(kev),
            database_ids(nvd),
        ),
{
    let index = kev_index(kev);
    let missing = unmatched(index.ids, database_ids(nvd));
    assert(record_ids(normalized(kev, nvd)) =~= database_ids(nvd) + missing);
}

/// Completeness without duplicates: where no two database entries share an
/// identifier, no two records do, every identifier of a database entry and
/// every identifier of a list entry has a record, and every record is that
/// of an identifier of one of the sources.
pub proof fn lemma_each_identifier_once(kev: Seq<KevEntry>, nvd: Seq<DatabaseEntry>)
    requires
        database_ids(nvd).no_duplicates(),
    ensures
        record_ids(normalized(kev, nvd)).no_duplicates(),
        forall|k: int|
            0 <= k < nvd.len() ==> record_ids(normalized(kev, nvd)).contains(
                trimmed(#[trigger] nvd[k].id),
            ),
        forall|k: int|
            0 <= k < kev.len() && (#[trigger] kev[k]).id() is Some ==> record_ids(
                normalized(kev, nvd),
            ).contains(kev[k].id()->0),
        forall|id: Seq<char>|
            record_ids(normalized(kev, nvd)).contains(id) ==> (exists|k: int|
                0 <= k < nvd.len() && trimmed(#[trigger] nvd[k].id) == id) || (exists|k: int|
                0 <= k < kev.len() && (#[trigger] kev[k]).id() == Some(id)),
{
    let out = record_ids(normalized(kev, nvd));
    let emitted = database_ids(nvd);
    let listed = listed_ids(kev);
    let missing = unmatched(listed, emitted);
    lemma_record_ids(kev, nvd);
    lemma_first_occurrences_distinct(entry_ids(kev));
    lemma_first_occurrences_members(entry_ids(kev));
    lemma_unmatched(listed, emitted);
    lemma_entry_ids(kev);
    assert forall|i: int, j: int| 0 <= i < emitted.len() && 0 <= j < missing.len() implies emitted[i]
        != missing[j] by {
        assert(missing.contains(missing[j]));
        if emitted[i] == missing[j] {
            assert(emitted.contains(missing[j]));
        }
    }
    vstd::seq_lib::lemma_no_dup_in_concat(emitted, missing);
    assert forall|k: int| 0 <= k < nvd.len() implies out.contains(trimmed(#[trigger] nvd[k].id)) by {
        assert(out[k] == trimmed(nvd[k].id));
    }
    assert forall|k: int| 0 <= k < kev.len() && (#[trigger] kev[k]).id() is Some implies out.contains(
        kev[k].id()->0,
    ) by {
        let id = kev[k].id()->0;
        assert(entry_ids(kev).contains(id));
        assert(listed.contains(id));
        if emitted.contains(id) {
            let i = choose|i: int| 0 <= i < emitted.len() && emitted[i] == id;
            assert(out[i] == id);
        } else {
            assert(missing.contains(id));
            let j = choose|j: int| 0 <= j < missing.len() && missing[j] == id;
            assert(out[emitted.len() + j] == id);
        }
    }
    assert forall|id: Seq<char>| out.contains(id) implies (exists|k: int|
        0 <= k < nvd.len() && trimmed(#[trigger] nvd[k].id) == id) || (exists|k: int|
        0 <= k < kev.len() && (#[trigger] kev[k]).id() == Some(id)) by {
        let i = choose|i: int| 0 <= i < out.len() && out[i] == id;
        if i < emitted.len() {
            assert(emitted[i] == id);
            assert(trimmed(nvd[i].id) == id);
        } else {
            assert(missing[i - emitted.len()] == id);
            assert(missing.contains(id));
            assert(listed.contains(id));
            assert(entry_ids(kev).contains(id));
        }
    }
}

/// Two records share an identifier only where two database entries do: a
/// listed identifier that the database lacks has one record.
pub proof fn lemma_repeats_only_among_database_entries(
    kev: Seq<KevEntry>,
    nvd: Seq<DatabaseEntry>,
    i: int,
    j: int,
)
    requires
        0 <= i < j < normalized(kev, nvd).len(),
        normalized(kev, nvd)[i].id == normalized(kev, nvd)[j].id,
    ensures
        j < nvd.len(),
        trimmed(nvd[i].id) == trimmed(nvd[j].id),
{
    let out = record_ids(normalized(kev, nvd));
    let emitted = database_ids(nvd);
    let missing = unmatched(listed_ids(kev), emitted);
    lemma_record_ids(kev, nvd);
    lemma_first_occurrences_distinct(entry_ids(kev));
    lemma_unmatched(listed_ids(kev), emitted);
    assert(out[i] == out[j]);
    if j >= nvd.len() {
        assert(missing.contains(missing[j - nvd.len()]));
        if i < nvd.len() {
            assert(emitted[i] == out[i]);
            assert(emitted.contains(out[j]));
        } else {
            assert(missing[i - nvd.len()] == missing[j - nvd.len()]);
        }
    } else {
        assert(emitted[i] == out[i] && emitted[j] == out[j]);
    }
}

/// The identifier of every record is trimmed.
pub proof fn lemma_identifiers_trimmed(kev: Seq<KevEntry>, nvd: Seq<DatabaseEntry>)
    ensures
        forall|i: int|
            0 <= i < normalized(kev, nvd).len() ==> trimmed(
                (#[trigger] normalized(kev, nvd)[i]).id,
            ) == normalized(kev, nvd)[i].id,
{
    assert forall|i: int| 0 <= i < normalized(kev, nvd).len() implies trimmed(
        (#[trigger] normalized(kev, nvd)[i]).id,
    ) == normalized(kev, nvd)[i].id by {
        lemma_record_origin(kev, nvd, i);
        if i < nvd.len() {
            lemma_trimmed_stays(nvd[i].id);
        } else {
            lemma_index_well_formed(kev);
            assert(kev_index(kev).lists(normalized(kev, nvd)[i].id));
        }
    }
}

/// The record set is decided by the two sources alone: two runs on the same
/// list and the same database give the same records in the same order.
pub proof fn lemma_runs_agree(
    kev: Seq<KevEntry>,
    nvd: Seq<DatabaseEntry>,
    first: Seq<Record>,
    second: Seq<Record>,
)
    requires
        first == normalized(kev, nvd),
        second == normalized(kev, nvd),
    ensures
        first == second,
{
}

/// Where a record comes from: the first records are those of the database
/// entries, one each and in their order; every later one is that of a listed
/// identifier that no database entry has.
pub proof fn lemma_record_origin(kev: Seq<KevEntry>, nvd: Seq<DatabaseEntry>, i: int)
    requires
        0 <= i < normalized(kev, nvd).len(),
    ensures
        i < nvd.len() ==> normalized(kev, nvd)[i] == reconciled(kev_index(kev), nvd[i]),
        i >= nvd.len() ==> {
            let id = normalized(kev, nvd)[i].id;
            &&& normalized(kev, nvd)[i] == kev_only(kev_index(kev), id)
            &&& listed_ids(kev).contains(id)
            &&& !database_ids(nvd).contains(id)
        },
{
    let index = kev_index(kev);
    let missing = unmatched(index.ids, database_ids(nvd));
    if i >= nvd.len() {
        let id = missing[i - nvd.len()];
        assert(missing.contains(id));
        lemma_first_occurrences_distinct(entry_ids(kev));
        lemma_unmatched(index.ids, database_ids(nvd));
    }
}

/// The bucket of every record is the bucket of its score.
pub proof fn lemma_bucket_follows_score(kev: Seq<KevEntry>, nvd: Seq<DatabaseEntry>)
    ensures
        forall|i: int|
            0 <= i < normalized(kev, nvd).len() ==> (#[trigger] normalized(
                kev,
                nvd,
            )[i]).severity_bucket == bucket_label(normalized(kev, nvd)[i].cvss),
{
    assert forall|i: int| 0 <= i < normalized(kev, nvd).len() implies (#[trigger] normalized(
        kev,
        nvd,
    )[i]).severity_bucket == bucket_label(normalized(kev, nvd)[i].cvss) by {
        lemma_record_origin(kev, nvd, i);
    }
}

/// The references of every record hold the detail page of its identifier,
/// and no reference twice.
pub proof fn lemma_refs_hold_detail_page_once(kev: Seq<KevEntry>, nvd: Seq<DatabaseEntry>)
    ensures
        forall|i: int|
            0 <= i < normalized(kev, nvd).len() ==> {
                let r = #[trigger] normalized(kev, nvd)[i];
                r.refs.contains(detail_url(r.id)) && r.refs.no_duplicates()
            },
{
    assert forall|i: int| 0 <= i < normalized(kev, nvd).len() implies {
        let r = #[trigger] normalized(kev, nvd)[i];
        r.refs.contains(detail_url(r.id)) && r.refs.no_duplicates()
    } by {
        let r = normalized(kev, nvd)[i];
        lemma_record_origin(kev, nvd, i);
        if i < nvd.len() {
            let found = present_all(nvd[i].references).push(detail_url(r.id));
            assert(r.refs == first_occurrences(found));
            assert(found[found.len() - 1] == detail_url(r.id));
            assert(found.contains(detail_url(r.id)));
            lemma_first_occurrences_members(found);
            lemma_first_occurrences_distinct(found);
        } else {
            assert(r.refs == seq![detail_url(r.id)]);
            assert(r.refs[0] == detail_url(r.id));
        }
    }
}

/// The first English description that is not blank is the description of
/// the record, whatever the other languages say and whatever note the list
/// holds, unless its text is the stand-in for a missing description.
pub proof fn lemma_english_description_wins(kev: KevTable, entry: DatabaseEntry, i: int)
    requires
        0 <= i < entry.descriptions.len(),
        usable(entry.descriptions[i], true),
        forall|j: int| 0 <= j < i ==> !usable(#[trigger] entry.descriptions[j], true),
        trimmed(entry.descriptions[i].value->0) != no_description(),
    ensures
        reconciled(kev, entry).short_desc == trimmed(entry.descriptions[i].value->0),
{
    lemma_first_text_at(entry.descriptions, true, i);
}

/// The description of every record holds some text.
pub proof fn lemma_description_never_empty(kev: Seq<KevEntry>, nvd: Seq<DatabaseEntry>)
    ensures
        forall|i: int|
            0 <= i < normalized(kev, nvd).len() ==> (#[trigger] normalized(
                kev,
                nvd,
            )[i]).short_desc.len() > 0,
{
    reveal_strlit("No description available.");
    reveal_strlit("KEV-listed vulnerability (details not in current NVD modified feed).");
    assert forall|i: int| 0 <= i < normalized(kev, nvd).len() implies (#[trigger] normalized(
        kev,
        nvd,
    )[i]).short_desc.len() > 0 by {
        let r = normalized(kev, nvd)[i];
        lemma_record_origin(kev, nvd, i);
        lemma_latest_present(kev, r.id, KevField::Note);
        if i < nvd.len() {
            lemma_first_text_present(nvd[i].descriptions, true);
            lemma_first_text_present(nvd[i].descriptions, false);
        }
    }
}

/// A record is flagged exactly if the list names its identifier, and
/// exactly then it carries the list's tag. Its tags are the database's, the
/// list's, or both in this order.
pub proof fn lemma_provenance(kev: Seq<KevEntry>, nvd: Seq<DatabaseEntry>)
    ensures
        forall|i: int|
            0 <= i < normalized(kev, nvd).len() ==> {
                let r = #[trigger] normalized(kev, nvd)[i];
                &&& r.kev == listed_ids(kev).contains(r.id)
                &&& r.kev == r.sources.contains(kev_tag())
                &&& r.sources == seq![nvd_tag()] || r.sources == seq![nvd_tag(), kev_tag()]
                    || r.sources == seq![kev_tag()]
            },
{
    reveal_strlit("nvd");
    reveal_strlit("kev");
    assert(nvd_tag() != kev_tag()) by {
        assert(nvd_tag()[0] != kev_tag()[0]);
    }
    assert forall|i: int| 0 <= i < normalized(kev, nvd).len() implies {
        let r = #[trigger] normalized(kev, nvd)[i];
        &&& r.kev == listed_ids(kev).contains(r.id)
        &&& r.kev == r.sources.contains(kev_tag())
        &&& r.sources == seq![nvd_tag()] || r.sources == seq![nvd_tag(), kev_tag()] || r.sources
            == seq![kev_tag()]
    } by {
        let r = normalized(kev, nvd)[i];
        lemma_record_origin(kev, nvd, i);
        if r.kev {
            assert(r.sources[r.sources.len() - 1] == kev_tag());
        }
    }
}

} // verus!
