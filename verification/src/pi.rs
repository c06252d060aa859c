//! Pi settings: finding references to the OMNI package in a settings
//! document. Reading the two files is the caller's; the texts are parsed
//! here, by serde_json, and searched.
use vstd::prelude::*;

use crate::text::{ascii_lower, chars_of, to_ascii_lower};

verus! {

/// Whether lower-casing `s` gives a text containing `omni`. Besides ASCII
/// letters, the one character whose lower case starts with an ASCII letter of
/// the word is `İ`, which lowers to `i` and a combining dot.
pub open spec fn mentions_omni(s: Seq<char>) -> bool {
    exists|k: int|
        0 <= k && k + 4 <= s.len() && ascii_lower(#[trigger] s[k]) == 'o' && ascii_lower(s[k + 1])
            == 'm' && ascii_lower(s[k + 2]) == 'n' && (ascii_lower(s[k + 3]) == 'i' || s[k + 3]
            == '\u{130}')
}

/// Whether `s` mentions OMNI in any case.
pub fn contains_omni(s: &str) -> (r: bool)
    ensures
        r == mentions_omni(s@),
{
    let cs = chars_of(s);
    let n = cs.len();
    if n < 4 {
        return false;
    }
    let mut k: usize = 0;
    while k <= n - 4
        invariant
            n == cs.len(),
            cs@ == s@,
            4 <= n,
            k <= n - 3,
            forall|j: int|
                0 <= j < k ==> !(ascii_lower(#[trigger] cs@[j]) == 'o' && ascii_lower(cs@[j + 1])
                    == 'm' && ascii_lower(cs@[j + 2]) == 'n' && (ascii_lower(cs@[j + 3]) == 'i'
                    || cs@[j + 3] == '\u{130}')),
        decreases n - k,
    {
        if to_ascii_lower(cs[k]) == 'o' && to_ascii_lower(cs[k + 1]) == 'm' && to_ascii_lower(
            cs[k + 2],
        ) == 'n' && (to_ascii_lower(cs[k + 3]) == 'i' || cs[k + 3] == '\u{130}') {
            return true;
        }
        k = k + 1;
    }
    false
}

/// A JSON document, as far as the search reads it: strings, and the values
/// inside arrays and objects, in order. Object keys are never searched, so
/// an object is held as its values.
pub enum Json {
    /// `null`, a boolean or a number: never a reference.
    Scalar,
    Str(String),
    Array(JsonList),
    Object(JsonList),
}

/// The values of an array or an object, in order.
pub enum JsonList {
    Nil,
    Cons(Box<Json>, Box<JsonList>),
}

/// Whether `v` holds, at any depth, a string that mentions OMNI.
pub open spec fn refers_to_omni(v: Json) -> bool
    decreases v,
{
    match v {
        Json::Str(s) => mentions_omni(s@),
        Json::Array(items) => any_refers_to_omni(items),
        Json::Object(values) => any_refers_to_omni(values),
        Json::Scalar => false,
    }
}

/// Whether any value of `l` refers to OMNI.
pub open spec fn any_refers_to_omni(l: JsonList) -> bool
    decreases l,
{
    match l {
        JsonList::Nil => false,
        JsonList::Cons(head, tail) => refers_to_omni(*head) || any_refers_to_omni(*tail),
    }
}

/// The strings of `v` that mention OMNI, in document order.
pub open spec fn omni_strings(v: Json) -> Seq<Seq<char>>
    decreases v,
{
    match v {
        Json::Str(s) => if mentions_omni(s@) {
            seq![s@]
        } else {
            seq![]
        },
        Json::Array(items) => omni_strings_in(items),
        Json::Object(values) => omni_strings_in(values),
        Json::Scalar => seq![],
    }
}

/// The strings of the values of `l` that mention OMNI, in order.
pub open spec fn omni_strings_in(l: JsonList) -> Seq<Seq<char>>
    decreases l,
{
    match l {
        JsonList::Nil => seq![],
        JsonList::Cons(head, tail) => omni_strings(*head) + omni_strings_in(*tail),
    }
}

/// Search a JSON value recursively for strings containing "omni" in any case.
pub fn find_omni_references(val: &Json) -> (r: bool)
    ensures
        r == refers_to_omni(*val),
    decreases val,
{
    match val {
        Json::Str(s) => contains_omni(s.as_str()),
        Json::Array(items) => any_references(items),
        Json::Object(values) => any_references(values),
        Json::Scalar => false,
    }
}

/// Whether any value of `l` refers to OMNI.
fn any_references(l: &JsonList) -> (r: bool)
    ensures
        r == any_refers_to_omni(*l),
    decreases l,
{
    match l {
        JsonList::Nil => false,
        JsonList::Cons(head, tail) => find_omni_references(head) || any_references(tail),
    }
}

/// Collect OMNI-related source strings, in document order.
pub fn collect_omni_sources(val: &Json) -> (out: Vec<String>)
    ensures
        out@.map_values(|s: String| s@) == omni_strings(*val),
{
    let mut out: Vec<String> = Vec::new();
    collect_into(val, &mut out);
    assert(out@.map_values(|s: String| s@) =~= seq![] + omni_strings(*val));
    out
}

fn collect_into(val: &Json, out: &mut Vec<String>)
    ensures
        final(out)@.map_values(|s: String| s@) == old(out)@.map_values(|s: String| s@)
            + omni_strings(*val),
    decreases val,
{
    match val {
        Json::Str(s) => {
            if contains_omni(s.as_str()) {
                out.push(s.clone());
                assert(out@.map_values(|s: String| s@) =~= old(out)@.map_values(|s: String| s@)
                    + seq![s@]);
            } else {
                assert(out@.map_values(|s: String| s@) =~= old(out)@.map_values(|s: String| s@)
                    + seq![]);
            }
        },
        Json::Array(items) => collect_list_into(items, out),
        Json::Object(values) => collect_list_into(values, out),
        Json::Scalar => {
            assert(out@.map_values(|s: String| s@) =~= old(out)@.map_values(|s: String| s@)
                + seq![]);
        },
    }
}

fn collect_list_into(l: &JsonList, out: &mut Vec<String>)
    ensures
        final(out)@.map_values(|s: String| s@) == old(out)@.map_values(|s: String| s@)
            + omni_strings_in(*l),
    decreases l,
{
    match l {
        JsonList::Nil => {
            assert(out@.map_values(|s: String| s@) =~= old(out)@.map_values(|s: String| s@)
                + seq![]);
        },
        JsonList::Cons(head, tail) => {
            let ghost before = out@.map_values(|s: String| s@);
            collect_into(head, out);
            collect_list_into(tail, out);
            assert(out@.map_values(|s: String| s@) =~= before + (omni_strings(**head)
                + omni_strings_in(**tail)));
        },
    }
}

/// The document serde_json reads from a settings text, in the shape above:
/// `None` where it refuses the text.
pub uninterp spec fn settings_json(text: Seq<char>) -> Option<Json>;

/// serde_json's document value.
#[verifier::external_type_specification]
#[verifier::external_body]
pub struct ExJsonValue(serde_json::Value);

/// Parses a settings text with `serde_json::from_str` into a
/// `serde_json::Value` and converts that to a `Json`; `None` where serde_json
/// refuses the text. What it returns on a given text is named, not stated.
#[verifier::external_body]
fn parse_settings(text: &str) -> (r: Option<Json>)
    ensures
        r == settings_json(text@),
{
    serde_json::from_str::<serde_json::Value>(text).ok().map(|v| json_of(&v))
}

/// The conversion half of `parse_settings`, apart only because a document
/// nests: a string stays a string, an array keeps its items and an object
/// its values, in serde_json's order, and anything else is a scalar.
#[verifier::external_body]
fn json_of(v: &serde_json::Value) -> Json {
    let list = |items: Vec<&serde_json::Value>| {
        items.into_iter().rev().fold(JsonList::Nil, |rest, x| {
            JsonList::Cons(Box::new(json_of(x)), Box::new(rest))
        })
    };
    match v {
        serde_json::Value::String(s) => Json::Str(s.clone()),
        serde_json::Value::Array(items) => Json::Array(list(items.iter().collect())),
        serde_json::Value::Object(map) => Json::Object(list(map.values().collect())),
        _ => Json::Scalar,
    }
}

/// A settings file as read, if it was: its parsed document.
pub open spec fn parsed_settings(text: Option<&str>) -> Option<Json> {
    match text {
        Some(t) => settings_json(t@),
        None => None,
    }
}

/// Which settings file diagnostics read, and what it held.
pub struct PiSettingsSnapshot {
    pub path: String,
    pub json: Option<Json>,
}

/// The settings diagnostics read: whichever file refers to the OMNI package,
/// the global one first; failing that, the global path with whichever
/// document exists.
pub open spec fn chosen_settings(
    global_path: String,
    global_json: Option<Json>,
    local_path: String,
    local_json: Option<Json>,
) -> PiSettingsSnapshot {
    if global_json matches Some(g) && refers_to_omni(g) {
        PiSettingsSnapshot { path: global_path, json: global_json }
    } else if local_json matches Some(l) && refers_to_omni(l) {
        PiSettingsSnapshot { path: local_path, json: local_json }
    } else {
        PiSettingsSnapshot {
            path: global_path,
            json: if global_json is Some {
                global_json
            } else {
                local_json
            },
        }
    }
}

impl PiSettingsSnapshot {
    /// Load settings from the texts of the global and the project-local
    /// settings files (`None` for a file that could not be read), preferring
    /// whichever refers to the OMNI package and falling back to whichever
    /// parses.
    pub fn load_from_texts(
        global_path: String,
        global_text: Option<&str>,
        local_path: String,
        local_text: Option<&str>,
    ) -> (s: PiSettingsSnapshot)
        ensures
            s == chosen_settings(
                global_path,
                parsed_settings(global_text),
                local_path,
                parsed_settings(local_text),
            ),
    {
        let global_json = match global_text {
            Some(t) => parse_settings(t),
            None => None,
        };
        let local_json = match local_text {
            Some(t) => parse_settings(t),
            None => None,
        };
        Self::from_documents(global_path, global_json, local_path, local_json)
    }

    /// Prefer whichever settings document refers to the OMNI package, the
    /// global one first; failing that, the global path with whichever
    /// document exists.
    pub fn from_documents(
        global_path: String,
        global_json: Option<Json>,
        local_path: String,
        local_json: Option<Json>,
    ) -> (s: PiSettingsSnapshot)
        ensures
            s == chosen_settings(global_path, global_json, local_path, local_json),
    {
        let global_refers = match &global_json {
            Some(g) => find_omni_references(g),
            None => false,
        };
        if global_refers {
            return PiSettingsSnapshot { path: global_path, json: global_json };
        }
        let local_refers = match &local_json {
            Some(l) => find_omni_references(l),
            None => false,
        };
        if local_refers {
            return PiSettingsSnapshot { path: local_path, json: local_json };
        }
        let json = match global_json {
            Some(g) => Some(g),
            None => local_json,
        };
        PiSettingsSnapshot { path: global_path, json }
    }

    /// True if settings contain a package entry referencing OMNI or pi-omni.
    pub fn has_omni_package(&self) -> (r: bool)
        ensures
            r == (self.json matches Some(v) && refers_to_omni(v)),
    {
        match &self.json {
            None => false,
            Some(v) => find_omni_references(v),
        }
    }

    /// Package or extension sources that appear to be OMNI-related
    /// duplicates.
    pub fn duplicate_sources(&self) -> (out: Vec<String>)
        ensures
            out@.map_values(|s: String| s@) == match self.json {
                Some(v) => omni_strings(v),
                None => Seq::<Seq<char>>::empty(),
            },
    {
        match &self.json {
            None => {
                let out: Vec<String> = Vec::new();
                assert(out@.map_values(|s: String| s@) =~= Seq::<Seq<char>>::empty());
                out
            },
            Some(v) => collect_omni_sources(v),
        }
    }
}

} // verus!
