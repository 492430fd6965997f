//! Entries of the vulnerability database and what is drawn from each:
//! a description, a severity score and reference links.

use vstd::prelude::*;
use vstd::string::StringExecFns;
use crate::json::{Json, JsonValue, optional_value};
use crate::text::{present, present_all, present_text};

verus! {

/// A description in one language.
#[derive(Debug)]
pub struct NvdLangValue {
    pub lang: Option<String>,
    pub value: Option<String>,
}

/// A reference, which may carry a link.
#[derive(Debug)]
pub struct NvdRef {
    pub url: Option<String>,
}

/// One entry of the vulnerability database.
#[derive(Debug)]
pub struct NvdCve {
    pub id: String,
    pub published: Option<String>,
    pub last_modified: Option<String>,
    pub descriptions: Vec<NvdLangValue>,
    pub references: Vec<NvdRef>,
    pub metrics: Option<Json>,
}

/// The mathematical value of a description.
pub struct LangValue {
    pub lang: Option<Seq<char>>,
    pub value: Option<Seq<char>>,
}

/// The mathematical value of a database entry.
pub struct DatabaseEntry {
    pub id: Seq<char>,
    pub published: Option<Seq<char>>,
    pub last_modified: Option<Seq<char>>,
    pub descriptions: Seq<LangValue>,
    pub references: Seq<Option<Seq<char>>>,
    pub metrics: Option<JsonValue>,
}

impl View for NvdLangValue {
    type V = LangValue;

    open spec fn view(&self) -> LangValue {
        LangValue { lang: self.lang.deep_view(), value: self.value.deep_view() }
    }
}

impl DeepView for NvdLangValue {
    type V = LangValue;

    open spec fn deep_view(&self) -> LangValue {
        self@
    }
}

impl View for NvdRef {
    type V = Option<Seq<char>>;

    open spec fn view(&self) -> Option<Seq<char>> {
        self.url.deep_view()
    }
}

impl DeepView for NvdRef {
    type V = Option<Seq<char>>;

    open spec fn deep_view(&self) -> Option<Seq<char>> {
        self@
    }
}

impl View for NvdCve {
    type V = DatabaseEntry;

    open spec fn view(&self) -> DatabaseEntry {
        DatabaseEntry {
            id: self.id@,
            published: self.published.deep_view(),
            last_modified: self.last_modified.deep_view(),
            descriptions: self.descriptions.deep_view(),
            references: self.references.deep_view(),
            metrics: optional_value(self.metrics),
        }
    }
}

impl DeepView for NvdCve {
    type V = DatabaseEntry;

    open spec fn deep_view(&self) -> DatabaseEntry {
        self@
    }
}

/// The text that stands in for a description when an entry has none.
pub open spec fn no_description() -> Seq<char> {
    "No description available."@
}

/// Whether a description is tagged as English.
pub open spec fn is_english(d: LangValue) -> bool {
    d.lang == Some("en"@)
}

/// Whether a description has a text that is not blank and, where only
/// English ones are asked for, is tagged as English.
pub open spec fn usable(d: LangValue, english_only: bool) -> bool {
    (!english_only || is_english(d)) && present(d.value) is Some
}

/// The trimmed text of the first usable description, among the English ones
/// only or among all.
pub open spec fn first_text(descs: Seq<LangValue>, english_only: bool) -> Option<Seq<char>>
    decreases descs.len(),
{
    if descs.len() == 0 {
        None
    } else if usable(descs.first(), english_only) {
        present(descs.first().value)
    } else {
        first_text(descs.drop_first(), english_only)
    }
}

/// The description of an entry: the first English text, else the first text
/// in any language, else the stand-in.
pub open spec fn picked_description(descs: Seq<LangValue>) -> Seq<char> {
    match first_text(descs, true) {
        Some(t) => t,
        None => match first_text(descs, false) {
            Some(t) => t,
            None => no_description(),
        },
    }
}

/// The first usable description decides: those before it are passed over,
/// those after it are not looked at.
pub proof fn lemma_first_text_at(descs: Seq<LangValue>, english_only: bool, i: int)
    requires
        0 <= i < descs.len(),
        usable(descs[i], english_only),
        forall|j: int| 0 <= j < i ==> !usable(#[trigger] descs[j], english_only),
    ensures
        first_text(descs, english_only) == present(descs[i].value),
    decreases i,
{
    if i > 0 {
        let rest = descs.drop_first();
        assert(!usable(descs[0], english_only));
        assert forall|j: int| 0 <= j < i - 1 implies !usable(#[trigger] rest[j], english_only) by {
            assert(rest[j] == descs[j + 1]);
        }
        lemma_first_text_at(rest, english_only, i - 1);
    }
}

/// A text that is found is that of a usable description, so it is not empty.
pub proof fn lemma_first_text_present(descs: Seq<LangValue>, english_only: bool)
    ensures
        first_text(descs, english_only) is Some ==> first_text(descs, english_only)->0.len() > 0,
    decreases descs.len(),
{
    if descs.len() > 0 && !usable(descs.first(), english_only) {
        lemma_first_text_present(descs.drop_first(), english_only);
    }
}

/// Computes `first_text`.
pub fn first_usable(descs: &[NvdLangValue], english_only: bool) -> (r: Option<String>)
    ensures
        r.deep_view() == first_text(descs.deep_view(), english_only),
{
    let english = String::from_str("en");
    let ghost all = descs.deep_view();
    let mut i: usize = 0;
    proof {
        assert(all.skip(0) =~= all);
    }
    while i < descs.len()
        invariant
            i <= descs.len(),
            all == descs.deep_view(),
            english@ == "en"@,
            first_text(all, english_only) == first_text(all.skip(i as int), english_only),
        decreases descs.len() - i,
    {
        proof {
            assert(all.skip(i as int).drop_first() =~= all.skip(i + 1));
            assert(all.skip(i as int).first() == descs@[i as int]@);
        }
        let d = &descs[i];
        let tagged = match &d.lang {
            Some(l) => *l == english,
            None => false,
        };
        if !english_only || tagged {
            let text = present_text(&d.value);
            if text.is_some() {
                return text;
            }
        }
        i = i + 1;
    }
    None
}

/// The description of an entry with the given descriptions.
pub fn pick_english_description(descs: &[NvdLangValue]) -> (r: String)
    ensures
        r@ == picked_description(descs.deep_view()),
{
    match first_usable(descs, true) {
        Some(t) => t,
        None => match first_usable(descs, false) {
            Some(t) => t,
            None => String::from_str("No description available."),
        },
    }
}

/// The links of the references that carry one, trimmed, in order.
pub fn reference_urls(references: &[NvdRef]) -> (urls: Vec<String>)
    ensures
        urls.deep_view() == present_all(references.deep_view()),
{
    let ghost all = references.deep_view();
    let mut urls: Vec<String> = Vec::new();
    let mut i: usize = 0;
    proof {
        assert(all.take(0) =~= Seq::<Option<Seq<char>>>::empty());
        assert(urls.deep_view() =~= Seq::<Seq<char>>::empty());
    }
    while i < references.len()
        invariant
            i <= references.len(),
            all == references.deep_view(),
            urls.deep_view() == present_all(all.take(i as int)),
        decreases references.len() - i,
    {
        let ghost before = urls.deep_view();
        proof {
            assert(all.take(i + 1).drop_last() =~= all.take(i as int));
            assert(all.take(i + 1).last() == references@[i as int]@);
        }
        match present_text(&references[i].url) {
            Some(url) => {
                urls.push(url);
                proof {
                    assert(urls.deep_view() =~= before + seq![url@]);
                }
            },
            None => {},
        }
        i = i + 1;
    }
    proof {
        assert(all.take(i as int) =~= all);
    }
    urls
}

} // verus!
