//! The known-exploited list: its entries, and the index that is built from
//! them before reconciliation.

use vstd::prelude::*;
use vstd::hash_map::StringHashMap;
use vstd::hash_set::StringHashSet;
use crate::text::{present, present_text};
use crate::unique::first_occurrences;

verus! {

/// One entry of the known-exploited list. Every field may be missing.
#[derive(Debug)]
pub struct KevVuln {
    pub cve_id: Option<String>,
    pub notes: Option<String>,
    pub product: Option<String>,
    pub vendor_project: Option<String>,
    pub short_description: Option<String>,
}

/// The mathematical value of a list entry.
pub struct KevEntry {
    pub cve_id: Option<Seq<char>>,
    pub notes: Option<Seq<char>>,
    pub product: Option<Seq<char>>,
    pub vendor_project: Option<Seq<char>>,
    pub short_description: Option<Seq<char>>,
}

impl View for KevVuln {
    type V = KevEntry;

    open spec fn view(&self) -> KevEntry {
        KevEntry {
            cve_id: self.cve_id.deep_view(),
            notes: self.notes.deep_view(),
            product: self.product.deep_view(),
            vendor_project: self.vendor_project.deep_view(),
            short_description: self.short_description.deep_view(),
        }
    }
}

impl DeepView for KevVuln {
    type V = KevEntry;

    open spec fn deep_view(&self) -> KevEntry {
        self@
    }
}

/// What the index keeps of an entry besides its identifier.
#[derive(Clone, Copy, Debug, PartialEq, Eq, Structural)]
pub enum KevField {
    Note,
    Vendor,
    Product,
}

impl KevEntry {
    /// The identifier of the entry, trimmed. An entry whose identifier is
    /// missing or blank has none and adds nothing to the index.
    pub open spec fn id(self) -> Option<Seq<char>> {
        present(self.cve_id)
    }

    /// The note of the entry: its short description, or else its notes.
    pub open spec fn note(self) -> Option<Seq<char>> {
        match present(self.short_description) {
            Some(t) => Some(t),
            None => present(self.notes),
        }
    }

    /// The value that the entry gives for `field`, trimmed, if it gives one
    /// that is not blank.
    pub open spec fn field(self, field: KevField) -> Option<Seq<char>> {
        match field {
            KevField::Note => self.note(),
            KevField::Vendor => present(self.vendor_project),
            KevField::Product => present(self.product),
        }
    }
}

/// The identifiers of the entries, in order, repeated as often as listed.
pub open spec fn entry_ids(entries: Seq<KevEntry>) -> Seq<Seq<char>> {
    entries.filter_map(|e: KevEntry| e.id())
}

/// The identifiers of the list, each once, in the order in which the list
/// first names them.
pub open spec fn listed_ids(entries: Seq<KevEntry>) -> Seq<Seq<char>> {
    first_occurrences(entry_ids(entries))
}

/// An identifier is among those of the entries exactly if some entry has it.
pub proof fn lemma_entry_ids(entries: Seq<KevEntry>)
    ensures
        forall|id: Seq<char>|
            entry_ids(entries).contains(id) <==> exists|k: int|
                0 <= k < entries.len() && (#[trigger] entries[k]).id() == Some(id),
    decreases entries.len(),
{
    if entries.len() > 0 {
        let init = entries.drop_last();
        let run = entry_ids(init);
        lemma_entry_ids(init);
        assert forall|id: Seq<char>|
            entry_ids(entries).contains(id) <==> exists|k: int|
                0 <= k < entries.len() && (#[trigger] entries[k]).id() == Some(id) by {
            let ids = entry_ids(entries);
            if ids.contains(id) {
                let j = choose|j: int| 0 <= j < ids.len() && ids[j] == id;
                if j < run.len() {
                    assert(run[j] == id);
                    assert(run.contains(id));
                    let k = choose|k: int|
                        0 <= k < init.len() && (#[trigger] init[k]).id() == Some(id);
                    assert(entries[k].id() == Some(id));
                } else {
                    assert(entries[entries.len() - 1].id() == Some(id));
                }
            }
            if exists|k: int| 0 <= k < entries.len() && (#[trigger] entries[k]).id() == Some(id) {
                let k = choose|k: int|
                    0 <= k < entries.len() && (#[trigger] entries[k]).id() == Some(id);
                if k < init.len() {
                    assert(init[k].id() == Some(id));
                    assert(run.contains(id));
                    let j = choose|j: int| 0 <= j < run.len() && run[j] == id;
                    assert(ids[j] == id);
                } else {
                    assert(ids[run.len() as int] == id);
                }
            }
        }
    }
}

/// The value of `field` for `id`: that of the last entry with this
/// identifier that gives one.
pub open spec fn latest(entries: Seq<KevEntry>, id: Seq<char>, field: KevField) -> Option<
    Seq<char>,
>
    decreases entries.len(),
{
    if entries.len() == 0 {
        None
    } else if entries.last().id() == Some(id) && entries.last().field(field) is Some {
        entries.last().field(field)
    } else {
        latest(entries.drop_last(), id, field)
    }
}

/// A value that the list gives is not empty, and it is given for an
/// identifier of some entry.
pub proof fn lemma_latest_present(entries: Seq<KevEntry>, id: Seq<char>, field: KevField)
    ensures
        latest(entries, id, field) is Some ==> latest(entries, id, field)->0.len() > 0
            && entry_ids(entries).contains(id),
    decreases entries.len(),
{
    if entries.len() > 0 {
        lemma_latest_present(entries.drop_last(), id, field);
        lemma_entry_ids(entries);
        lemma_entry_ids(entries.drop_last());
        if latest(entries, id, field) is Some {
            if entries.last().id() == Some(id) {
                assert(entries[entries.len() - 1].id() == Some(id));
            } else {
                let k = choose|k: int|
                    0 <= k < entries.drop_last().len() && (#[trigger] entries.drop_last()[k]).id()
                        == Some(id);
                assert(entries[k].id() == Some(id));
            }
        }
    }
}

/// The lookup from identifier to the value of `field`.
pub open spec fn lookup(entries: Seq<KevEntry>, field: KevField) -> Map<Seq<char>, Seq<char>> {
    Map::new(
        |id: Seq<char>| latest(entries, id, field) is Some,
        |id: Seq<char>| latest(entries, id, field)->0,
    )
}

/// The mathematical value of an index: the listed identifiers and the three
/// lookups.
pub struct KevTable {
    pub ids: Seq<Seq<char>>,
    pub notes: Map<Seq<char>, Seq<char>>,
    pub vendors: Map<Seq<char>, Seq<char>>,
    pub products: Map<Seq<char>, Seq<char>>,
}

impl KevTable {
    /// Whether the list names `id`.
    pub open spec fn lists(self, id: Seq<char>) -> bool {
        self.ids.contains(id)
    }

    /// The lookup for `field`.
    pub open spec fn values(self, field: KevField) -> Map<Seq<char>, Seq<char>> {
        match field {
            KevField::Note => self.notes,
            KevField::Vendor => self.vendors,
            KevField::Product => self.products,
        }
    }

    /// The value of `field` for `id`, if the list gives one.
    pub open spec fn get(self, id: Seq<char>, field: KevField) -> Option<Seq<char>> {
        if self.values(field).contains_key(id) {
            Some(self.values(field)[id])
        } else {
            None
        }
    }
}

/// The index of a list.
pub open spec fn kev_index(entries: Seq<KevEntry>) -> KevTable {
    KevTable {
        ids: listed_ids(entries),
        notes: lookup(entries, KevField::Note),
        vendors: lookup(entries, KevField::Vendor),
        products: lookup(entries, KevField::Product),
    }
}

/// The texts of a lookup's strings.
spec fn texts(m: Map<Seq<char>, String>) -> Map<Seq<char>, Seq<char>> {
    m.map_values(|s: String| s@)
}

/// Whether `m` is the lookup of `field` over `entries`.
spec fn holds_lookup(m: Map<Seq<char>, String>, entries: Seq<KevEntry>, field: KevField) -> bool {
    forall|id: Seq<char>|
        match #[trigger] latest(entries, id, field) {
            Some(t) => m.contains_key(id) && m[id]@ == t,
            None => !m.contains_key(id),
        }
}

/// A lookup of `field` over `entries` has the texts of `lookup`.
proof fn lemma_holds_lookup(m: Map<Seq<char>, String>, entries: Seq<KevEntry>, field: KevField)
    requires
        holds_lookup(m, entries, field),
    ensures
        texts(m) == lookup(entries, field),
{
    assert forall|id: Seq<char>| texts(m).contains_key(id) <==> lookup(entries, field).contains_key(
        id,
    ) by {
        let _ = latest(entries, id, field);
    }
    assert forall|id: Seq<char>| texts(m).contains_key(id) implies texts(m)[id] == lookup(
        entries,
        field,
    )[id] by {
        let _ = latest(entries, id, field);
    }
    assert(texts(m) =~= lookup(entries, field));
}

/// The index over a list: the listed identifiers in order, and for each the
/// note, vendor and product that the list gives.
pub struct KevIndex {
    ids: Vec<String>,
    listed: StringHashSet,
    notes: StringHashMap<String>,
    vendors: StringHashMap<String>,
    products: StringHashMap<String>,
}

impl View for KevIndex {
    type V = KevTable;

    closed spec fn view(&self) -> KevTable {
        KevTable {
            ids: self.ids.deep_view(),
            notes: texts(self.notes@),
            vendors: texts(self.vendors@),
            products: texts(self.products@),
        }
    }
}

/// Records `value` for `id` in a lookup, replacing an earlier value.
fn keep(m: &mut StringHashMap<String>, id: &String, value: Option<String>)
    ensures
        final(m)@ == match value {
            Some(v) => old(m)@.insert(id@, v),
            None => old(m)@,
        },
{
    match value {
        Some(v) => {
            m.insert(id.clone(), v);
        },
        None => {},
    }
}

/// A lookup stays one when the next entry is taken in.
proof fn lemma_lookup_step(
    before: Map<Seq<char>, String>,
    after: Map<Seq<char>, String>,
    entries: Seq<KevEntry>,
    field: KevField,
    value: Option<String>,
)
    requires
        entries.len() > 0,
        holds_lookup(before, entries.drop_last(), field),
        match entries.last().id() {
            Some(id) => value.deep_view() == entries.last().field(field) && after == match value {
                Some(v) => before.insert(id, v),
                None => before,
            },
            None => after == before,
        },
    ensures
        holds_lookup(after, entries, field),
{
    assert forall|id: Seq<char>|
        match #[trigger] latest(entries, id, field) {
            Some(t) => after.contains_key(id) && after[id]@ == t,
            None => !after.contains_key(id),
        } by {
        let _ = latest(entries.drop_last(), id, field);
    }
}

impl KevIndex {
    /// The set of listed identifiers agrees with their ordered run.
    #[verifier::type_invariant]
    spec fn inv(self) -> bool {
        forall|id: Seq<char>| self.listed@.contains(id) <==> self.ids.deep_view().contains(id)
    }

    /// Builds the index of a list.
    pub fn build(entries: &[KevVuln]) -> (index: KevIndex)
        ensures
            index@ == kev_index(entries.deep_view()),
    {
        let ghost all = entries.deep_view();
        let mut ids: Vec<String> = Vec::new();
        let mut listed = StringHashSet::new();
        let mut notes: StringHashMap<String> = StringHashMap::new();
        let mut vendors: StringHashMap<String> = StringHashMap::new();
        let mut products: StringHashMap<String> = StringHashMap::new();
        let mut i: usize = 0;
        proof {
            assert(all.take(0) =~= Seq::<KevEntry>::empty());
            assert(ids.deep_view() =~= Seq::<Seq<char>>::empty());
        }
        while i < entries.len()
            invariant
                i <= entries.len(),
                all == entries.deep_view(),
                ids.deep_view() == listed_ids(all.take(i as int)),
                forall|id: Seq<char>| listed@.contains(id) <==> ids.deep_view().contains(id),
                holds_lookup(notes@, all.take(i as int), KevField::Note),
                holds_lookup(vendors@, all.take(i as int), KevField::Vendor),
                holds_lookup(products@, all.take(i as int), KevField::Product),
            decreases entries.len() - i,
        {
            let entry = &entries[i];
            let ghost prefix = all.take(i + 1);
            let ghost old_ids = ids.deep_view();
            let ghost old_notes = notes@;
            let ghost old_vendors = vendors@;
            let ghost old_products = products@;
            proof {
                assert(prefix.drop_last() =~= all.take(i as int));
                assert(prefix.last() == entry@);
            }
            match present_text(&entry.cve_id) {
                Some(id) => {
                    let note = match present_text(&entry.short_description) {
                        Some(t) => Some(t),
                        None => present_text(&entry.notes),
                    };
                    let vendor = present_text(&entry.vendor_project);
                    let product = present_text(&entry.product);
                    let ghost given_note = note;
                    let ghost given_vendor = vendor;
                    let ghost given_product = product;
                    keep(&mut notes, &id, note);
                    keep(&mut vendors, &id, vendor);
                    keep(&mut products, &id, product);
                    proof {
                        lemma_lookup_step(old_notes, notes@, prefix, KevField::Note, given_note);
                        lemma_lookup_step(
                            old_vendors,
                            vendors@,
                            prefix,
                            KevField::Vendor,
                            given_vendor,
                        );
                        lemma_lookup_step(
                            old_products,
                            products@,
                            prefix,
                            KevField::Product,
                            given_product,
                        );
                    }
                    proof {
                        let run = entry_ids(all.take(i as int));
                        assert(entry_ids(prefix) == run + seq![id@]);
                        assert((run + seq![id@]).drop_last() =~= run);
                    }
                    if !listed.contains(id.as_str()) {
                        listed.insert(id.clone());
                        ids.push(id);
                        proof {
                            assert(ids.deep_view() =~= old_ids.push(id@));
                            assert forall|x: Seq<char>| listed@.contains(x) <==> ids.deep_view().contains(
                                x,
                            ) by {
                                if old_ids.contains(x) {
                                    let j = choose|j: int| 0 <= j < old_ids.len() && old_ids[j] == x;
                                    assert(ids.deep_view()[j] == x);
                                }
                                assert(ids.deep_view()[old_ids.len() as int] == id@);
                            }
                        }
                    }
                },
                None => {
                    proof {
                        lemma_lookup_step(old_notes, old_notes, prefix, KevField::Note, None);
                        lemma_lookup_step(old_vendors, old_vendors, prefix, KevField::Vendor, None);
                        lemma_lookup_step(old_products, old_products, prefix, KevField::Product, None);
                        assert(entry_ids(prefix) == entry_ids(all.take(i as int)));
                    }
                },
            }
            i = i + 1;
        }
        proof {
            assert(all.take(i as int) =~= all);
            lemma_holds_lookup(notes@, all, KevField::Note);
            lemma_holds_lookup(vendors@, all, KevField::Vendor);
            lemma_holds_lookup(products@, all, KevField::Product);
        }
        KevIndex { ids, listed, notes, vendors, products }
    }

    /// Whether the list names `id`.
    pub fn contains(&self, id: &str) -> (r: bool)
        ensures
            r == self@.lists(id@),
    {
        proof {
            use_type_invariant(self);
        }
        self.listed.contains(id)
    }

    /// The value of `field` for `id`, if the list gives one.
    pub fn get(&self, id: &str, field: KevField) -> (r: Option<String>)
        ensures
            r.deep_view() == self@.get(id@, field),
    {
        let found = match field {
            KevField::Note => self.notes.get(id),
            KevField::Vendor => self.vendors.get(id),
            KevField::Product => self.products.get(id),
        };
        match found {
            Some(v) => Some(v.clone()),
            None => None,
        }
    }

    /// The listed identifiers, each once, in the order of first listing.
    pub fn ids(&self) -> (r: &Vec<String>)
        ensures
            r.deep_view() == self@.ids,
    {
        &self.ids
    }
}

} // verus!
