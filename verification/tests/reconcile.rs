use bastion_core::json::Json;
use bastion_core::kev::{KevIndex, KevVuln};
use bastion_core::nvd::{NvdCve, NvdLangValue, NvdRef};
use bastion_core::reconcile::{detail_page, kev_only_item, normalize, reconcile_entry};
use bastion_core::record::CanonicalItem;
use bastion_core::score::Score;

fn text(s: &str) -> Option<String> {
    Some(s.to_string())
}

fn listed(id: &str) -> KevVuln {
    KevVuln {
        cve_id: text(id),
        notes: None,
        product: None,
        vendor_project: None,
        short_description: None,
    }
}

fn cve(id: &str) -> NvdCve {
    NvdCve {
        id: id.to_string(),
        published: None,
        last_modified: None,
        descriptions: vec![],
        references: vec![],
        metrics: None,
    }
}

fn english(value: &str) -> NvdLangValue {
    NvdLangValue { lang: text("en"), value: text(value) }
}

fn link(url: &str) -> NvdRef {
    NvdRef { url: text(url) }
}

fn obj(members: Vec<(&str, Json)>) -> Json {
    Json::Object(members.into_iter().map(|(k, v)| (k.to_string(), v)).collect())
}

fn scored(x: f64) -> Json {
    obj(vec![(
        "cvssData",
        obj(vec![("baseScore", Json::Number(Score::from_bits(x.to_bits())))]),
    )])
}

fn strings(items: &[&str]) -> Vec<String> {
    items.iter().map(|s| s.to_string()).collect()
}

fn ids(items: &[CanonicalItem]) -> Vec<String> {
    items.iter().map(|i| i.id.clone()).collect()
}

fn value(score: Option<Score>) -> Option<f64> {
    score.map(|s| f64::from_bits(s.to_bits()))
}

#[test]
fn listed_identifier_without_database_entry() {
    let mut e = listed("CVE-2021-9999");
    e.vendor_project = text("Acme");
    let items = normalize(&[e], &[]);
    assert_eq!(items.len(), 1);
    let item = &items[0];
    assert_eq!(item.id, "CVE-2021-9999");
    assert!(item.kev);
    assert_eq!(item.sources, strings(&["kev"]));
    assert_eq!(item.severity_bucket, "unknown");
    assert_eq!(item.refs, strings(&["https://nvd.nist.gov/vuln/detail/CVE-2021-9999"]));
    assert_eq!(item.vendor, text("Acme"));
    assert_eq!(item.product, None);
    assert_eq!(item.published, None);
    assert_eq!(item.last_modified, None);
    assert_eq!(item.cvss, None);
    assert_eq!(
        item.short_desc,
        "KEV-listed vulnerability (details not in current NVD modified feed)."
    );
}

#[test]
fn list_note_fills_in_for_missing_description() {
    let mut e = listed("CVE-2022-1111");
    e.notes = text("Actively exploited.");
    let items = normalize(&[e], &[cve("CVE-2022-1111")]);
    assert_eq!(items.len(), 1);
    let item = &items[0];
    assert_eq!(item.id, "CVE-2022-1111");
    assert_eq!(item.short_desc, "Actively exploited.");
    assert_eq!(item.severity_bucket, "unknown");
    assert!(item.kev);
    assert_eq!(item.sources, strings(&["nvd", "kev"]));
    assert_eq!(item.cvss, None);
}

#[test]
fn newest_metric_decides_score_and_bucket() {
    let mut entry = cve("CVE-2023-0001");
    entry.metrics = Some(obj(vec![
        ("cvssMetricV31", Json::Array(vec![scored(9.8)])),
        ("cvssMetricV2", Json::Array(vec![scored(5.0)])),
    ]));
    let items = normalize(&[], &[entry]);
    assert_eq!(items.len(), 1);
    assert_eq!(value(items[0].cvss), Some(9.8));
    assert_eq!(items[0].severity_bucket, "critical");
    assert!(!items[0].kev);
    assert_eq!(items[0].sources, strings(&["nvd"]));
}

#[test]
fn english_description_wins_over_other_languages_and_list_note() {
    let mut e = listed("CVE-2023-0002");
    e.short_description = text("List note.");
    let mut entry = cve("CVE-2023-0002");
    entry.descriptions = vec![
        NvdLangValue { lang: text("es"), value: text("Descripción.") },
        english(" English description. "),
    ];
    let items = normalize(&[e], &[entry]);
    assert_eq!(items[0].short_desc, "English description.");
    assert!(items[0].kev);
}

#[test]
fn other_language_wins_over_list_note() {
    let mut e = listed("CVE-2023-0003");
    e.short_description = text("List note.");
    let mut entry = cve("CVE-2023-0003");
    entry.descriptions = vec![NvdLangValue { lang: text("es"), value: text("Descripción.") }];
    let items = normalize(&[e], &[entry]);
    assert_eq!(items[0].short_desc, "Descripción.");
}

#[test]
fn placeholder_stays_without_list_note() {
    let items = normalize(&[listed("CVE-2023-0004")], &[cve("CVE-2023-0004"), cve("CVE-2023-0005")]);
    assert_eq!(items[0].short_desc, "No description available.");
    assert_eq!(items[1].short_desc, "No description available.");
    assert!(items[0].kev);
    assert!(!items[1].kev);
}

#[test]
fn description_equal_to_placeholder_yields_to_list_note() {
    let mut e = listed("CVE-2023-0006");
    e.notes = text("From the list.");
    let mut entry = cve("CVE-2023-0006");
    entry.descriptions = vec![english("No description available.")];
    let items = normalize(&[e], &[entry]);
    assert_eq!(items[0].short_desc, "From the list.");
}

#[test]
fn references_end_with_detail_page_and_hold_no_duplicates() {
    let mut entry = cve(" CVE-2023-0007 ");
    entry.references = vec![
        link("https://vendor.example/advisory"),
        link(" https://vendor.example/advisory "),
        NvdRef { url: None },
        link("   "),
        link("https://other.example/"),
        link("https://vendor.example/advisory"),
    ];
    let items = normalize(&[], &[entry]);
    assert_eq!(items[0].id, "CVE-2023-0007");
    assert_eq!(
        items[0].refs,
        strings(&[
            "https://vendor.example/advisory",
            "https://other.example/",
            "https://nvd.nist.gov/vuln/detail/CVE-2023-0007",
        ])
    );
}

#[test]
fn detail_page_listed_by_the_source_is_not_repeated() {
    let mut entry = cve("CVE-2023-0008");
    entry.references = vec![
        link("https://nvd.nist.gov/vuln/detail/CVE-2023-0008"),
        link("https://vendor.example/"),
    ];
    let items = normalize(&[], &[entry]);
    assert_eq!(
        items[0].refs,
        strings(&["https://nvd.nist.gov/vuln/detail/CVE-2023-0008", "https://vendor.example/"])
    );
}

#[test]
fn every_record_holds_its_detail_page_once() {
    let mut a = cve("CVE-2023-0010");
    a.references = vec![link("https://x.example/"), link("https://x.example/")];
    let items = normalize(&[listed("CVE-2023-0011"), listed("CVE-2023-0010")], &[a, cve("CVE-2023-0012")]);
    assert_eq!(items.len(), 3);
    for item in &items {
        let page = format!("https://nvd.nist.gov/vuln/detail/{}", item.id);
        assert_eq!(item.refs.iter().filter(|r| **r == page).count(), 1);
        for (i, r) in item.refs.iter().enumerate() {
            assert!(!item.refs[..i].contains(r));
        }
    }
}

#[test]
fn every_identifier_appears_exactly_once() {
    let kev = vec![
        listed("CVE-2020-0003"),
        listed("CVE-2020-0001"),
        listed(" CVE-2020-0003 "),
        listed("CVE-2020-0005"),
        listed("CVE-2020-0001"),
    ];
    let nvd = vec![cve("CVE-2020-0001"), cve("CVE-2020-0002 "), cve("CVE-2020-0004")];
    let items = normalize(&kev, &nvd);
    assert_eq!(
        ids(&items),
        strings(&[
            "CVE-2020-0001",
            "CVE-2020-0002",
            "CVE-2020-0004",
            "CVE-2020-0003",
            "CVE-2020-0005",
        ])
    );
    let flags: Vec<bool> = items.iter().map(|i| i.kev).collect();
    assert_eq!(flags, vec![true, false, false, true, true]);
}

#[test]
fn database_records_come_first_in_source_order() {
    let kev = vec![listed("CVE-2020-0009"), listed("CVE-2020-0008")];
    let nvd = vec![cve("CVE-2020-0007"), cve("CVE-2020-0008"), cve("CVE-2020-0006")];
    let items = normalize(&kev, &nvd);
    assert_eq!(
        ids(&items),
        strings(&["CVE-2020-0007", "CVE-2020-0008", "CVE-2020-0006", "CVE-2020-0009"])
    );
    assert_eq!(items[1].sources, strings(&["nvd", "kev"]));
    assert_eq!(items[3].sources, strings(&["kev"]));
}

#[test]
fn database_entries_with_one_identifier_each_give_a_record() {
    let items = normalize(&[listed("CVE-2020-0001")], &[cve("CVE-2020-0001"), cve("CVE-2020-0001")]);
    assert_eq!(ids(&items), strings(&["CVE-2020-0001", "CVE-2020-0001"]));
}

#[test]
fn empty_sources_give_no_records() {
    assert!(normalize(&[], &[]).is_empty());
}

#[test]
fn list_entries_without_identifier_give_no_record() {
    let mut nameless = listed("x");
    nameless.cve_id = None;
    let items = normalize(&[nameless, listed("   ")], &[]);
    assert!(items.is_empty());
}

#[test]
fn timestamps_pass_through_unchanged() {
    let mut entry = cve("CVE-2023-0020");
    entry.published = text("2023-01-02T03:04:05.000");
    entry.last_modified = text(" 2023-02-03T04:05:06.000 ");
    let items = normalize(&[], &[entry]);
    assert_eq!(items[0].published, text("2023-01-02T03:04:05.000"));
    assert_eq!(items[0].last_modified, text(" 2023-02-03T04:05:06.000 "));
}

#[test]
fn vendor_and_product_come_from_the_list_only() {
    let mut e = listed("CVE-2023-0021");
    e.vendor_project = text("Acme");
    e.product = text("Anvil");
    let items = normalize(&[e], &[cve("CVE-2023-0021"), cve("CVE-2023-0022")]);
    assert_eq!(items[0].vendor, text("Acme"));
    assert_eq!(items[0].product, text("Anvil"));
    assert_eq!(items[1].vendor, None);
    assert_eq!(items[1].product, None);
}

#[test]
fn listed_only_record_uses_the_list_note() {
    let mut e = listed("CVE-2023-0023");
    e.short_description = text(" Exploited in the wild. ");
    e.notes = text("https://example.com/advisory");
    let items = normalize(&[e], &[]);
    assert_eq!(items[0].short_desc, "Exploited in the wild.");
}

#[test]
fn normalizing_twice_gives_the_same_records() {
    let build = || {
        let mut e = listed("CVE-2024-0001");
        e.vendor_project = text("Acme");
        let mut entry = cve("CVE-2024-0002");
        entry.descriptions = vec![english("Something.")];
        entry.references = vec![link("https://a.example/"), link("https://a.example/")];
        entry.metrics = Some(obj(vec![("cvssMetricV30", Json::Array(vec![scored(7.5)]))]));
        (vec![e, listed("CVE-2024-0003"), listed("CVE-2024-0004")], vec![entry])
    };
    let (kev_a, nvd_a) = build();
    let (kev_b, nvd_b) = build();
    let first = format!("{:?}", normalize(&kev_a, &nvd_a));
    let second = format!("{:?}", normalize(&kev_b, &nvd_b));
    let again = format!("{:?}", normalize(&kev_a, &nvd_a));
    assert_eq!(first, second);
    assert_eq!(first, again);
}

#[test]
fn bucket_of_each_record_follows_its_score() {
    let mut entries = Vec::new();
    for (n, x) in [0.0f64, 3.9, 4.0, 6.9, 7.0, 8.9, 9.0, 10.0].iter().enumerate() {
        let mut entry = cve(&format!("CVE-2024-10{:02}", n));
        entry.metrics = Some(obj(vec![("cvssMetricV31", Json::Array(vec![scored(*x)]))]));
        entries.push(entry);
    }
    entries.push(cve("CVE-2024-1099"));
    let items = normalize(&[], &entries);
    let buckets: Vec<&str> = items.iter().map(|i| i.severity_bucket.as_str()).collect();
    assert_eq!(
        buckets,
        vec!["low", "low", "medium", "medium", "high", "high", "critical", "critical", "unknown"]
    );
}

#[test]
fn single_entry_functions_agree_with_normalize() {
    let mut e = listed("CVE-2024-2000");
    e.notes = text("Note.");
    let index = KevIndex::build(&[e, listed("CVE-2024-2001")]);
    let item = reconcile_entry(&index, &cve(" CVE-2024-2000 "));
    assert_eq!(item.id, "CVE-2024-2000");
    assert_eq!(item.short_desc, "Note.");
    assert!(item.kev);
    let only = kev_only_item(&index, "CVE-2024-2001");
    assert_eq!(only.id, "CVE-2024-2001");
    assert_eq!(only.sources, strings(&["kev"]));
    assert_eq!(only.refs, strings(&["https://nvd.nist.gov/vuln/detail/CVE-2024-2001"]));
}

#[test]
fn detail_page_appends_the_identifier() {
    assert_eq!(detail_page("CVE-2021-9999"), "https://nvd.nist.gov/vuln/detail/CVE-2021-9999");
    assert_eq!(detail_page(""), "https://nvd.nist.gov/vuln/detail/");
}
