use bastion_core::json::Json;
use bastion_core::kev::KevVuln;
use bastion_core::nvd::{NvdCve, NvdLangValue, NvdRef};
use bastion_core::reconcile::normalize;
use bastion_core::score::Score;
use serde_json::Value;

const KEV_FEED: &str = r#"{
  "title": "Known Exploited Vulnerabilities Catalog",
  "count": 3,
  "vulnerabilities": [
    {
      "cveID": "CVE-2021-9999",
      "vendorProject": "Acme",
      "product": "Rocket Skates",
      "shortDescription": "Acme Rocket Skates contain a command injection vulnerability.",
      "notes": "https://example.com/advisory"
    },
    {
      "cveID": " CVE-2022-1111 ",
      "vendorProject": "   ",
      "notes": "Actively exploited."
    },
    {
      "cveID": "CVE-2023-4444",
      "vendorProject": "Globex"
    }
  ]
}"#;

const NVD_FEED: &str = r#"{
  "format": "NVD_CVE",
  "vulnerabilities": [
    {
      "cve": {
        "id": "CVE-2022-1111",
        "published": "2022-03-01T10:15:00.000",
        "lastModified": "2022-03-09T18:20:00.000",
        "descriptions": [],
        "references": [
          {"url": "https://vendor.example/sa-1", "source": "cve@mitre.org"},
          {"url": "https://vendor.example/sa-1"},
          {"source": "cve@mitre.org"}
        ]
      }
    },
    {
      "cve": {
        "id": "CVE-2023-4444",
        "descriptions": [
          {"lang": "es", "value": "Desbordamiento de enteros."},
          {"lang": "en", "value": "Integer overflow in the parser. "}
        ],
        "metrics": {
          "cvssMetricV2": [
            {"cvssData": {"version": "2.0", "baseScore": 5.0}}
          ],
          "cvssMetricV31": [
            {"source": "nvd@nist.gov", "cvssData": {"version": "3.1", "baseScore": 9.8}}
          ]
        },
        "references": []
      }
    },
    {
      "cve": {
        "id": "CVE-2024-5555",
        "descriptions": [{"lang": "en", "value": "Path traversal."}],
        "metrics": {"cvssMetricV30": [{"cvssData": {"baseScore": 7}}]}
      }
    }
  ]
}"#;

fn text(value: Option<&Value>) -> Option<String> {
    value.and_then(Value::as_str).map(str::to_string)
}

fn document(value: &Value) -> Json {
    match value {
        Value::Null => Json::Null,
        Value::Bool(b) => Json::Bool(*b),
        Value::Number(n) => match n.as_f64() {
            Some(x) => Json::Number(Score::from_bits(x.to_bits())),
            None => Json::Null,
        },
        Value::String(s) => Json::Text(s.clone()),
        Value::Array(items) => Json::Array(items.iter().map(document).collect()),
        Value::Object(members) => {
            Json::Object(members.iter().map(|(k, v)| (k.clone(), document(v))).collect())
        }
    }
}

fn entries(feed: &str) -> Vec<Value> {
    let root: Value = serde_json::from_str(feed).expect("feed parses");
    root.get("vulnerabilities").and_then(Value::as_array).cloned().unwrap_or_default()
}

fn list(feed: &str) -> Vec<KevVuln> {
    entries(feed)
        .iter()
        .map(|e| KevVuln {
            cve_id: text(e.get("cveID")),
            notes: text(e.get("notes")),
            product: text(e.get("product")),
            vendor_project: text(e.get("vendorProject")),
            short_description: text(e.get("shortDescription")),
        })
        .collect()
}

fn database(feed: &str) -> Vec<NvdCve> {
    entries(feed)
        .iter()
        .map(|wrap| {
            let cve = &wrap["cve"];
            let each = |key: &str| cve.get(key).and_then(Value::as_array).cloned().unwrap_or_default();
            NvdCve {
                id: text(cve.get("id")).expect("entry has an id"),
                published: text(cve.get("published")),
                last_modified: text(cve.get("lastModified")),
                descriptions: each("descriptions")
                    .iter()
                    .map(|d| NvdLangValue { lang: text(d.get("lang")), value: text(d.get("value")) })
                    .collect(),
                references: each("references").iter().map(|r| NvdRef { url: text(r.get("url")) }).collect(),
                metrics: cve.get("metrics").map(document),
            }
        })
        .collect()
}

#[test]
fn feeds_reconcile_into_one_record_per_identifier() {
    let items = normalize(&list(KEV_FEED), &database(NVD_FEED));
    let ids: Vec<&str> = items.iter().map(|i| i.id.as_str()).collect();
    assert_eq!(ids, vec!["CVE-2022-1111", "CVE-2023-4444", "CVE-2024-5555", "CVE-2021-9999"]);

    let first = &items[0];
    assert_eq!(first.sources, vec!["nvd", "kev"]);
    assert!(first.kev);
    assert_eq!(first.published.as_deref(), Some("2022-03-01T10:15:00.000"));
    assert_eq!(first.last_modified.as_deref(), Some("2022-03-09T18:20:00.000"));
    assert_eq!(first.cvss, None);
    assert_eq!(first.severity_bucket, "unknown");
    assert_eq!(first.short_desc, "Actively exploited.");
    assert_eq!(first.vendor, None);
    assert_eq!(first.product, None);
    assert_eq!(
        first.refs,
        vec!["https://vendor.example/sa-1", "https://nvd.nist.gov/vuln/detail/CVE-2022-1111"]
    );

    let second = &items[1];
    assert_eq!(second.sources, vec!["nvd", "kev"]);
    assert_eq!(second.cvss.map(|s| f64::from_bits(s.to_bits())), Some(9.8));
    assert_eq!(second.severity_bucket, "critical");
    assert_eq!(second.short_desc, "Integer overflow in the parser.");
    assert_eq!(second.vendor.as_deref(), Some("Globex"));
    assert_eq!(second.refs, vec!["https://nvd.nist.gov/vuln/detail/CVE-2023-4444"]);

    let third = &items[2];
    assert_eq!(third.sources, vec!["nvd"]);
    assert!(!third.kev);
    assert_eq!(third.cvss.map(|s| f64::from_bits(s.to_bits())), Some(7.0));
    assert_eq!(third.severity_bucket, "high");
    assert_eq!(third.short_desc, "Path traversal.");

    let fourth = &items[3];
    assert_eq!(fourth.sources, vec!["kev"]);
    assert!(fourth.kev);
    assert_eq!(fourth.published, None);
    assert_eq!(fourth.cvss, None);
    assert_eq!(fourth.severity_bucket, "unknown");
    assert_eq!(
        fourth.short_desc,
        "Acme Rocket Skates contain a command injection vulnerability."
    );
    assert_eq!(fourth.vendor.as_deref(), Some("Acme"));
    assert_eq!(fourth.product.as_deref(), Some("Rocket Skates"));
    assert_eq!(fourth.refs, vec!["https://nvd.nist.gov/vuln/detail/CVE-2021-9999"]);
}

#[test]
fn whole_number_scores_are_read_as_numbers() {
    let nvd = database(NVD_FEED);
    let score = bastion_core::metrics::extract_best_cvss(&nvd[2].metrics);
    assert_eq!(score, Some(Score::from_bits(7.0f64.to_bits())));
    assert_eq!(bastion_core::score::bucket_cvss(score), "high");
}
