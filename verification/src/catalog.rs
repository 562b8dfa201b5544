//! The catalog of applications: a JSON file that maps the name of each
//! application to what is known of it.
use crate::order;
use crate::text;
use crate::text::{chars_of, text_of, trimmed};
use serde_json::Value;
use std::collections::BTreeMap;
use vstd::prelude::*;
use vstd::string::*;

verus! {

/// Where the catalog is.
pub const JSON_PATH: &'static str =
    "/SNS/VENUS/shared/software/menu/list_marimo_general_users_applications.json";

// ----------------------------------------------------------------- applications

/// An application of the catalog.
#[derive(Debug)]
pub struct AppEntry {
    pub description: String,
    pub path: String,
    pub marimo_path: String,
    pub screenshot: String,
    /// The section that lists the application; empty for none.
    pub category: String,
    /// The instruments that the application is for; empty for all.
    pub instruments: Vec<String>,
}

/// What is known of an application.
pub struct AppModel {
    pub description: Seq<char>,
    pub path: Seq<char>,
    pub marimo_path: Seq<char>,
    pub screenshot: Seq<char>,
    pub category: Seq<char>,
    pub instruments: Seq<Seq<char>>,
}

impl View for AppEntry {
    type V = AppModel;

    open spec fn view(&self) -> AppModel {
        AppModel {
            description: self.description@,
            path: self.path@,
            marimo_path: self.marimo_path@,
            screenshot: self.screenshot@,
            category: self.category@,
            instruments: text::strings(self.instruments@),
        }
    }
}

impl AppModel {
    /// Whether the application is for `instrument`: it names no instrument, or
    /// it names this one, in whatever ASCII case.
    pub open spec fn available(self, instrument: Seq<char>) -> bool {
        self.instruments.len() == 0 || exists|i: int|
            0 <= i < self.instruments.len() && text::same_but_case(
                #[trigger] self.instruments[i],
                instrument,
            )
    }
}

impl AppEntry {
    /// Whether the application is for `instrument`.
    pub fn available_at(&self, instrument: &str) -> (res: bool)
        ensures
            res == self@.available(instrument@),
    {
        let n: usize = self.instruments.len();
        if n == 0 {
            return true;
        }
        let wanted = chars_of(instrument);
        let ghost named = self@.instruments;
        for i in 0..n
            invariant
                n == self.instruments@.len(),
                named == text::strings(self.instruments@),
                named == self@.instruments,
                wanted@ == instrument@,
                forall|j: int|
                    0 <= j < i ==> !text::same_but_case(#[trigger] named[j], instrument@),
        {
            let name = chars_of(self.instruments[i].as_str());
            assert(named[i as int] == name@);
            if text::is_same_but_case(name.as_slice(), wanted.as_slice()) {
                return true;
            }
        }
        false
    }
}

// ------------------------------------------------------------------------ JSON

/// `serde_json::Value`: a JSON value. What it holds is `json_contents`.
#[verifier::external_type_specification]
#[verifier::external_body]
pub struct ExValue(serde_json::Value);

/// `serde_json::Error`: why a text could not be read.
#[verifier::external_type_specification]
#[verifier::external_body]
pub struct ExJsonError(serde_json::Error);

/// What a JSON value holds, as far as the catalog can use it.
pub enum Json {
    Text(Seq<char>),
    Array(Seq<Json>),
    Object(Map<Seq<char>, Json>),
    /// Null, a truth value or a number.
    Other,
}

/// What a JSON value of the outside crate holds.
pub uninterp spec fn json_contents(value: serde_json::Value) -> Json;

/// What `serde_json::from_str` makes of a text that should be a JSON object:
/// the members, or the reason why it is not one.
pub uninterp spec fn json_members(text: Seq<char>) -> Result<Seq<(Seq<char>, Json)>, Seq<char>>;

/// What the members of an object hold.
pub open spec fn member_views(members: Seq<(String, serde_json::Value)>) -> Seq<(Seq<char>, Json)> {
    members.map_values(|m: (String, serde_json::Value)| (m.0@, json_contents(m.1)))
}

/// `serde_json::from_str` into a `BTreeMap`, handed out as its entries: what
/// it makes of the text depends on the text alone, and so does the way in
/// which its error prints. The entries of a `BTreeMap` come in the order of
/// their keys, each key once. Which texts are JSON is not said.
#[verifier::external_body]
fn parse_members(text: &str) -> (res: Result<Vec<(String, Value)>, serde_json::Error>)
    ensures
        match res {
            Ok(members) => {
                &&& json_members(text@) == Ok::<Seq<(Seq<char>, Json)>, Seq<char>>(
                    member_views(members@),
                )
                &&& forall|i: int, j: int|
                    0 <= i < j < members@.len() ==> order::before(
                        (#[trigger] members@[i]).0@,
                        (#[trigger] members@[j]).0@,
                    )
            },
            Err(e) => forall|reason: String| #[trigger]
                to_string_from_display_ensures(&e, reason) ==> json_members(text@) == Err::<
                    Seq<(Seq<char>, Json)>,
                    Seq<char>,
                >(reason@),
        },
{
    let members: BTreeMap<String, Value> = serde_json::from_str(text)?;
    Ok(members.into_iter().collect())
}

/// `serde_json::Value::as_str`: the text, where the value is a string.
pub assume_specification[ serde_json::Value::as_str ](value: &serde_json::Value) -> (res: Option<
    &str,
>)
    ensures
        match json_contents(*value) {
            Json::Text(s) => res is Some && res->0@ == s,
            _ => res is None,
        },
;

/// `serde_json::Value::as_array`: the items, where the value is an array.
pub assume_specification[ serde_json::Value::as_array ](value: &serde_json::Value) -> (res: Option<
    &Vec<serde_json::Value>,
>)
    ensures
        match json_contents(*value) {
            Json::Array(items) => res is Some && res->0@.map_values(
                |v: serde_json::Value| json_contents(v),
            ) == items,
            _ => res is None,
        },
;

/// `serde_json::Value::get` with a string: the member of that name, where the
/// value is an object that has one.
#[verifier::external_body]
fn member_of<'a>(value: &'a Value, key: &str) -> (res: Option<&'a Value>)
    ensures
        match res {
            Some(v) => member(json_contents(*value), key@) == Some(json_contents(*v)),
            None => member(json_contents(*value), key@) is None,
        },
{
    value.get(key)
}

/// The member `key` of an object.
pub open spec fn member(json: Json, key: Seq<char>) -> Option<Json> {
    match json {
        Json::Object(members) => if members.contains_key(key) {
            Some(members[key])
        } else {
            None
        },
        _ => None,
    }
}

/// The text of a string.
pub open spec fn json_text(json: Json) -> Option<Seq<char>> {
    match json {
        Json::Text(s) => Some(s),
        _ => None,
    }
}

/// The text of the member `key`.
pub open spec fn text_member(json: Json, key: Seq<char>) -> Option<Seq<char>> {
    match member(json, key) {
        Some(v) => json_text(v),
        None => None,
    }
}

/// The texts of the items of the member `key`.
pub open spec fn list_member(json: Json, key: Seq<char>) -> Option<Seq<Option<Seq<char>>>> {
    match member(json, key) {
        Some(Json::Array(items)) => Some(items.map_values(|v: Json| json_text(v))),
        _ => None,
    }
}

fn text_member_of(value: &Value, key: &str) -> (res: Option<String>)
    ensures
        text::text_view(res) == text_member(json_contents(*value), key@),
{
    match member_of(value, key) {
        Some(v) => match v.as_str() {
            Some(s) => Some(s.to_owned()),
            None => None,
        },
        None => None,
    }
}

/// The texts of optional strings.
pub open spec fn text_views(items: Seq<Option<String>>) -> Seq<Option<Seq<char>>> {
    items.map_values(|s: Option<String>| text::text_view(s))
}

fn list_member_of(value: &Value, key: &str) -> (res: Option<Vec<Option<String>>>)
    ensures
        match res {
            Some(items) => list_member(json_contents(*value), key@) == Some(text_views(items@)),
            None => list_member(json_contents(*value), key@) is None,
        },
{
    let v = match member_of(value, key) {
        Some(v) => v,
        None => {
            return None;
        },
    };
    let items = match v.as_array() {
        Some(items) => items,
        None => {
            return None;
        },
    };
    let ghost all = json_contents(*v)->Array_0;
    let ghost texts = all.map_values(|v: Json| json_text(v));
    let n: usize = items.len();
    let mut res: Vec<Option<String>> = Vec::new();
    for i in 0..n
        invariant
            n == items@.len(),
            items@.map_values(|v: Value| json_contents(v)) == all,
            texts == all.map_values(|v: Json| json_text(v)),
            text_views(res@) == texts.take(i as int),
    {
        let ghost sofar = res@;
        let ghost json = json_contents(items@[i as int]);
        assert(items@.map_values(|v: Value| json_contents(v))[i as int] == json);
        let item = match items[i].as_str() {
            Some(s) => Some(s.to_owned()),
            None => None,
        };
        res.push(item);
        proof {
            assert(texts[i as int] == json_text(json));
            assert(text_views(res@) =~= text_views(sofar).push(texts[i as int]));
            assert(texts.take(i + 1) =~= texts.take(i as int).push(texts[i as int]));
        }
    }
    assert(texts.take(n as int) == texts);
    Some(res)
}

// ----------------------------------------------------------- from JSON to entry

/// What the catalog says of an application, as it stands there: a key that is
/// missing, or that holds something else than expected, says nothing.
#[derive(Debug)]
pub struct RawEntry {
    pub description: Option<String>,
    pub path: Option<String>,
    pub marimo_path: Option<String>,
    pub screenshot: Option<String>,
    pub category: Option<String>,
    pub instruments: Option<Vec<Option<String>>>,
}

/// What a raw entry says.
pub struct RawModel {
    pub description: Option<Seq<char>>,
    pub path: Option<Seq<char>>,
    pub marimo_path: Option<Seq<char>>,
    pub screenshot: Option<Seq<char>>,
    pub category: Option<Seq<char>>,
    pub instruments: Option<Seq<Option<Seq<char>>>>,
}

impl View for RawEntry {
    type V = RawModel;

    open spec fn view(&self) -> RawModel {
        RawModel {
            description: text::text_view(self.description),
            path: text::text_view(self.path),
            marimo_path: text::text_view(self.marimo_path),
            screenshot: text::text_view(self.screenshot),
            category: text::text_view(self.category),
            instruments: match self.instruments {
                Some(items) => Some(text_views(items@)),
                None => None,
            },
        }
    }
}

/// The keys of an application.
pub open spec fn raw_model(json: Json) -> RawModel {
    RawModel {
        description: text_member(json, "description"@),
        path: text_member(json, "path"@),
        marimo_path: text_member(json, "marimo_path"@),
        screenshot: text_member(json, "screenshot"@),
        category: text_member(json, "category"@),
        instruments: list_member(json, "instruments"@),
    }
}

fn raw_entry(value: &Value) -> (res: RawEntry)
    ensures
        res@ == raw_model(json_contents(*value)),
{
    RawEntry {
        description: text_member_of(value, "description"),
        path: text_member_of(value, "path"),
        marimo_path: text_member_of(value, "marimo_path"),
        screenshot: text_member_of(value, "screenshot"),
        category: text_member_of(value, "category"),
        instruments: list_member_of(value, "instruments"),
    }
}

/// The text, or the empty text.
pub open spec fn or_empty(s: Option<Seq<char>>) -> Seq<char> {
    match s {
        Some(s) => s,
        None => seq![],
    }
}

/// The names in a list: its texts without the white space around them, as far
/// as anything is left.
pub open spec fn names(items: Seq<Option<Seq<char>>>) -> Seq<Seq<char>>
    decreases items.len(),
{
    if items.len() == 0 {
        seq![]
    } else {
        let earlier = names(items.drop_last());
        match items.last() {
            Some(s) => if text::trim(s).len() > 0 {
                earlier.push(text::trim(s))
            } else {
                earlier
            },
            None => earlier,
        }
    }
}

/// The application that a raw entry describes.
pub open spec fn app_model(raw: RawModel) -> AppModel {
    AppModel {
        description: or_empty(raw.description),
        path: or_empty(raw.path),
        marimo_path: or_empty(raw.marimo_path),
        screenshot: or_empty(raw.screenshot),
        category: or_empty(raw.category),
        instruments: match raw.instruments {
            Some(items) => names(items),
            None => seq![],
        },
    }
}

fn text_or_empty(s: Option<String>) -> (res: String)
    ensures
        res@ == or_empty(text::text_view(s)),
{
    match s {
        Some(s) => s,
        None => String::new(),
    }
}

fn names_of(items: &Vec<Option<String>>) -> (res: Vec<String>)
    ensures
        text::strings(res@) == names(text_views(items@)),
{
    let mut res: Vec<String> = Vec::new();
    let n: usize = items.len();
    let ghost all = text_views(items@);
    assert(text::strings(res@) =~= names(all.take(0)));
    for i in 0..n
        invariant
            n == items@.len(),
            all == text_views(items@),
            text::strings(res@) == names(all.take(i as int)),
    {
        let ghost sofar = res@;
        proof {
            assert(all.take(i + 1).drop_last() == all.take(i as int));
            assert(all[i as int] == text::text_view(items@[i as int]));
        }
        if let Some(s) = &items[i] {
            let chars = chars_of(s.as_str());
            let name = trimmed(chars.as_slice());
            if name.len() > 0 {
                res.push(text_of(name));
                assert(text::strings(res@) =~= text::strings(sofar).push(name@));
            }
        }
    }
    assert(all.take(n as int) == all);
    res
}

impl AppEntry {
    /// The application that a raw entry describes.
    pub fn from_raw(raw: RawEntry) -> (res: AppEntry)
        ensures
            res@ == app_model(raw@),
    {
        let instruments = match &raw.instruments {
            Some(items) => names_of(items),
            None => {
                let none: Vec<String> = Vec::new();
                assert(text::strings(none@) =~= seq![]);
                none
            },
        };
        AppEntry {
            description: text_or_empty(raw.description),
            path: text_or_empty(raw.path),
            marimo_path: text_or_empty(raw.marimo_path),
            screenshot: text_or_empty(raw.screenshot),
            category: text_or_empty(raw.category),
            instruments,
        }
    }
}

// --------------------------------------------------------------------- loading

/// The catalog's text as JSON: it is written with single quotes.
pub open spec fn double_quoted(s: Seq<char>) -> Seq<char> {
    s.map_values(
        |c: char|
            if c == '\'' {
                '"'
            } else {
                c
            },
    )
}

/// Turns the single quotes of a text into double quotes.
pub fn with_double_quotes(s: &str) -> (res: String)
    ensures
        res@ == double_quoted(s@),
{
    let mut res = String::new();
    for c in it: s.chars()
        invariant
            it.seq() == s@,
            res@ == double_quoted(s@).take(it.index()),
    {
        if c == '\'' {
            res.push('"');
        } else {
            res.push(c);
        }
    }
    assert(double_quoted(s@).take(s@.len() as int) == double_quoted(s@));
    res
}

/// A catalog that is not JSON.
#[derive(Debug)]
pub struct CatalogError {
    /// What the JSON parser says of it.
    pub reason: String,
}

/// The names and the applications.
pub open spec fn app_views(apps: Seq<(String, AppEntry)>) -> Seq<(Seq<char>, AppModel)> {
    apps.map_values(|a: (String, AppEntry)| (a.0@, a.1@))
}

/// The names and the raw entries.
pub open spec fn raw_views(raw: Seq<(String, RawEntry)>) -> Seq<(Seq<char>, RawModel)> {
    raw.map_values(|r: (String, RawEntry)| (r.0@, r.1@))
}

/// The raw entries that the members of the catalog are.
pub open spec fn raw_members(members: Seq<(Seq<char>, Json)>) -> Seq<(Seq<char>, RawModel)> {
    members.map_values(|m: (Seq<char>, Json)| (m.0, raw_model(m.1)))
}

/// The applications that raw entries describe, each under its name.
pub open spec fn app_models(raw: Seq<(Seq<char>, RawModel)>) -> Seq<(Seq<char>, AppModel)> {
    raw.map_values(|r: (Seq<char>, RawModel)| (r.0, app_model(r.1)))
}

/// The applications that the members of the catalog describe.
pub open spec fn described(members: Seq<(Seq<char>, Json)>) -> Seq<(Seq<char>, AppModel)> {
    app_models(raw_members(members))
}

/// The applications that raw entries describe, each under its name.
pub fn applications_from(raw: Vec<(String, RawEntry)>) -> (res: Vec<(String, AppEntry)>)
    ensures
        app_views(res@) == app_models(raw_views(raw@)),
{
    let mut apps: Vec<(String, AppEntry)> = Vec::new();
    let ghost entries = raw@;
    let ghost all = app_models(raw_views(entries));
    for m in it: raw.into_iter()
        invariant
            it.seq() == entries,
            all == app_models(raw_views(entries)),
            app_views(apps@) == all.take(it.index()),
    {
        let ghost i = it.index();
        let ghost sofar = apps@;
        let (name, entry) = m;
        apps.push((name, AppEntry::from_raw(entry)));
        proof {
            assert(raw_views(entries)[i] == (entries[i].0@, entries[i].1@));
            assert(app_views(apps@) =~= app_views(sofar).push(all[i]));
            assert(all.take(i + 1) =~= all.take(i).push(all[i]));
        }
    }
    assert(all.take(all.len() as int) == all);
    apps
}

/// The raw entries that the members of the catalog are.
fn raw_members_of(members: &Vec<(String, Value)>) -> (res: Vec<(String, RawEntry)>)
    ensures
        raw_views(res@) == raw_members(member_views(members@)),
{
    let mut raw: Vec<(String, RawEntry)> = Vec::new();
    let n: usize = members.len();
    let ghost all = raw_members(member_views(members@));
    for i in 0..n
        invariant
            n == members@.len(),
            all == raw_members(member_views(members@)),
            raw_views(raw@) == all.take(i as int),
    {
        let ghost sofar = raw@;
        raw.push((members[i].0.clone(), raw_entry(&members[i].1)));
        proof {
            assert(member_views(members@)[i as int] == (
                members@[i as int].0@,
                json_contents(members@[i as int].1),
            ));
            assert(raw_views(raw@) =~= raw_views(sofar).push(all[i as int]));
            assert(all.take(i + 1) =~= all.take(i as int).push(all[i as int]));
        }
    }
    assert(all.take(n as int) == all);
    raw
}

/// The names come in order, each once.
pub open spec fn named_in_order(apps: Seq<(Seq<char>, AppModel)>) -> bool {
    forall|i: int, j: int|
        0 <= i < j < apps.len() ==> order::before((#[trigger] apps[i]).0, (#[trigger] apps[j]).0)
}

/// Reads the applications out of the catalog's text.
pub fn parse_applications(content: &str) -> (res: Result<Vec<(String, AppEntry)>, CatalogError>)
    ensures
        match res {
            Ok(apps) => {
                &&& json_members(double_quoted(content@)) is Ok
                &&& app_views(apps@) == described(json_members(double_quoted(content@))->Ok_0)
                &&& named_in_order(app_views(apps@))
            },
            Err(e) => json_members(double_quoted(content@)) == Err::<
                Seq<(Seq<char>, Json)>,
                Seq<char>,
            >(e.reason@),
        },
{
    let text = with_double_quotes(content);
    let members = match parse_members(text.as_str()) {
        Ok(members) => members,
        Err(e) => {
            return Err(CatalogError { reason: e.to_string() });
        },
    };
    let apps = applications_from(raw_members_of(&members));
    proof {
        let all = app_views(apps@);
        assert forall|i: int, j: int| 0 <= i < j < all.len() implies order::before(
            (#[trigger] all[i]).0,
            (#[trigger] all[j]).0,
        ) by {
            assert(member_views(members@)[i].0 == members@[i].0@);
            assert(member_views(members@)[j].0 == members@[j].0@);
        }
    }
    Ok(apps)
}

/// The applications of a catalog, and what is wrong with it.
#[derive(Debug)]
pub struct Catalog {
    pub applications: Vec<(String, AppEntry)>,
    pub complaint: Option<String>,
}

/// Loads the catalog from what reading its file gave: its text, or why it
/// could not be read. A catalog that cannot be read or parsed is empty.
pub fn load_applications(content: Result<String, String>) -> (res: Catalog)
    ensures
        named_in_order(app_views(res.applications@)),
        match content {
            Ok(s) => match json_members(double_quoted(s@)) {
                Ok(members) => {
                    &&& app_views(res.applications@) == described(members)
                    &&& res.complaint is None
                },
                Err(reason) => {
                    &&& res.applications@.len() == 0
                    &&& text::text_view(res.complaint) == Some("Failed to parse JSON: "@ + reason)
                },
            },
            Err(reason) => {
                &&& res.applications@.len() == 0
                &&& text::text_view(res.complaint) == Some(
                    "Failed to read "@ + JSON_PATH@ + ": "@ + reason@,
                )
            },
        },
{
    match content {
        Ok(s) => match parse_applications(s.as_str()) {
            Ok(applications) => Catalog { applications, complaint: None },
            Err(e) => Catalog {
                applications: Vec::new(),
                complaint: Some("Failed to parse JSON: ".to_owned().concat(e.reason.as_str())),
            },
        },
        Err(e) => Catalog {
            applications: Vec::new(),
            complaint: Some(
                "Failed to read ".to_owned().concat(JSON_PATH).concat(": ").concat(e.as_str()),
            ),
        },
    }
}

// ------------------------------------------------------------------------ laws

/// Whether an application is for an instrument does not depend on the case in
/// which either is written.
pub proof fn availability_ignores_case(app: AppModel, a: Seq<char>, b: Seq<char>)
    requires
        text::same_but_case(a, b),
    ensures
        app.available(a) == app.available(b),
{
    assert forall|s: Seq<char>| text::same_but_case(s, a) == text::same_but_case(s, b) by {
        if s.len() == a.len() {
            assert forall|i: int| 0 <= i < s.len() implies #[trigger] text::ascii_lower(a[i])
                == text::ascii_lower(b[i]) by {}
            if text::same_but_case(s, a) {
                assert forall|i: int| 0 <= i < s.len() implies #[trigger] text::ascii_lower(s[i])
                    == text::ascii_lower(b[i]) by {
                    assert(text::ascii_lower(a[i]) == text::ascii_lower(b[i]));
                }
            }
            if text::same_but_case(s, b) {
                assert forall|i: int| 0 <= i < s.len() implies #[trigger] text::ascii_lower(s[i])
                    == text::ascii_lower(a[i]) by {
                    assert(text::ascii_lower(a[i]) == text::ascii_lower(b[i]));
                }
            }
        }
    }
    if app.available(a) && app.instruments.len() > 0 {
        let i = choose|i: int|
            0 <= i < app.instruments.len() && text::same_but_case(
                #[trigger] app.instruments[i],
                a,
            );
        assert(text::same_but_case(app.instruments[i], b));
    }
    if app.available(b) && app.instruments.len() > 0 {
        let i = choose|i: int|
            0 <= i < app.instruments.len() && text::same_but_case(
                #[trigger] app.instruments[i],
                b,
            );
        assert(text::same_but_case(app.instruments[i], a));
    }
}

/// An application that names no instrument, or only blanks, is for every one.
pub proof fn unnamed_instruments_mean_all(raw: RawModel, instrument: Seq<char>)
    requires
        raw.instruments matches Some(items) ==> forall|i: int|
            0 <= i < items.len() ==> ((#[trigger] items[i]) matches Some(s) ==> text::trim(s).len()
                == 0),
    ensures
        app_model(raw).available(instrument),
{
    if let Some(items) = raw.instruments {
        lemma_no_names(items);
    }
}

proof fn lemma_no_names(items: Seq<Option<Seq<char>>>)
    requires
        forall|i: int|
            0 <= i < items.len() ==> ((#[trigger] items[i]) matches Some(s) ==> text::trim(s).len()
                == 0),
    ensures
        names(items).len() == 0,
    decreases items.len(),
{
    if items.len() > 0 {
        assert(items.last() == items[items.len() - 1]);
        assert forall|i: int| 0 <= i < items.drop_last().len() implies ((
        #[trigger] items.drop_last()[i]) matches Some(s) ==> text::trim(s).len() == 0) by {
            assert(items.drop_last()[i] == items[i]);
        }
        lemma_no_names(items.drop_last());
    }
}

/// A catalog that is written with double quotes alone is read as it is.
pub proof fn double_quotes_are_kept(s: Seq<char>)
    ensures
        !double_quoted(s).contains('\''),
        double_quoted(double_quoted(s)) == double_quoted(s),
        !s.contains('\'') ==> double_quoted(s) == s,
{
    let q = double_quoted(s);
    if q.contains('\'') {
        let i = choose|i: int| 0 <= i < q.len() && q[i] == '\'';
    }
    assert(double_quoted(q) =~= q) by {
        assert forall|i: int| 0 <= i < q.len() implies #[trigger] q[i] != '\'' by {}
    }
    if !s.contains('\'') {
        assert forall|i: int| 0 <= i < s.len() implies #[trigger] s[i] != '\'' by {
            assert(s.contains(s[i]));
        }
        assert(q =~= s);
    }
}

/// An application is for each instrument that it names, and, where it names
/// some, for no other.
pub proof fn application_is_for_those_it_names(app: AppModel, i: int, instrument: Seq<char>)
    ensures
        0 <= i < app.instruments.len() && text::same_but_case(app.instruments[i], instrument)
            ==> app.available(instrument),
        0 <= i < app.instruments.len() ==> app.available(app.instruments[i]),
        app.instruments.len() == 0 ==> app.available(instrument),
        app.available(instrument) && app.instruments.len() > 0 ==> exists|k: int|
            0 <= k < app.instruments.len() && text::same_but_case(
                #[trigger] app.instruments[k],
                instrument,
            ),
{
    if 0 <= i < app.instruments.len() {
        let own = app.instruments[i];
        assert(text::same_but_case(own, own));
    }
}

/// What is said under a key is found there: the text of a string, and the texts
/// in a list. A key that is missing, or that holds something else, says
/// nothing, and so does a value that is no object.
pub proof fn keys_are_found_in_objects(
    members: Map<Seq<char>, Json>,
    key: Seq<char>,
    s: Seq<char>,
    items: Seq<Json>,
)
    ensures
        text_member(Json::Object(members.insert(key, Json::Text(s))), key) == Some(s),
        text_member(Json::Object(members.insert(key, Json::Array(items))), key) is None,
        text_member(Json::Object(members.insert(key, Json::Object(members))), key) is None,
        text_member(Json::Object(members.insert(key, Json::Other)), key) is None,
        text_member(Json::Object(members.remove(key)), key) is None,
        text_member(Json::Text(s), key) is None,
        text_member(Json::Array(items), key) is None,
        text_member(Json::Other, key) is None,
        list_member(Json::Object(members.insert(key, Json::Text(s))), key) is None,
        list_member(Json::Object(members.insert(key, Json::Object(members))), key) is None,
        list_member(Json::Object(members.insert(key, Json::Other)), key) is None,
        list_member(Json::Object(members.remove(key)), key) is None,
        list_member(Json::Text(s), key) is None,
        list_member(Json::Array(items), key) is None,
        list_member(Json::Other, key) is None,
        ({
            let list = list_member(Json::Object(members.insert(key, Json::Array(items))), key);
            &&& list is Some
            &&& list->0.len() == items.len()
            &&& forall|i: int|
                0 <= i < items.len() ==> (#[trigger] list->0[i]) == match items[i] {
                    Json::Text(t) => Some(t),
                    _ => None,
                }
        }),
        !members.contains_key(key) ==> member(Json::Object(members), key) is None,
        members.contains_key(key) ==> member(Json::Object(members), key) == Some(members[key]),
{
}

/// An entry is read from its keys: what they say is what is known of the
/// application, and what they do not say is empty.
pub proof fn entry_is_read_from_its_keys(json: Json)
    ensures
        ({
            let app = app_model(raw_model(json));
            &&& app.description == match text_member(json, "description"@) {
                Some(s) => s,
                None => Seq::<char>::empty(),
            }
            &&& app.path == match text_member(json, "path"@) {
                Some(s) => s,
                None => Seq::<char>::empty(),
            }
            &&& app.marimo_path == match text_member(json, "marimo_path"@) {
                Some(s) => s,
                None => Seq::<char>::empty(),
            }
            &&& app.screenshot == match text_member(json, "screenshot"@) {
                Some(s) => s,
                None => Seq::<char>::empty(),
            }
            &&& app.category == match text_member(json, "category"@) {
                Some(s) => s,
                None => Seq::<char>::empty(),
            }
            &&& app.instruments == match list_member(json, "instruments"@) {
                Some(items) => names(items),
                None => Seq::<Seq<char>>::empty(),
            }
        }),
{
}

/// What a raw entry says is what is known of the application, and what it does
/// not say is empty.
pub proof fn raw_entry_says_what_is_known(raw: RawModel)
    ensures
        raw.description matches Some(s) ==> app_model(raw).description == s,
        raw.path matches Some(s) ==> app_model(raw).path == s,
        raw.marimo_path matches Some(s) ==> app_model(raw).marimo_path == s,
        raw.screenshot matches Some(s) ==> app_model(raw).screenshot == s,
        raw.category matches Some(s) ==> app_model(raw).category == s,
        raw.instruments matches Some(items) ==> app_model(raw).instruments == names(items),
        raw.description is None ==> app_model(raw).description.len() == 0,
        raw.path is None ==> app_model(raw).path.len() == 0,
        raw.marimo_path is None ==> app_model(raw).marimo_path.len() == 0,
        raw.screenshot is None ==> app_model(raw).screenshot.len() == 0,
        raw.category is None ==> app_model(raw).category.len() == 0,
        raw.instruments is None ==> app_model(raw).instruments.len() == 0,
{
}

/// The names of a list are those of its first items, then those of the others.
/// An item names what it holds between white space; what is blank or no text
/// names nothing.
pub proof fn names_are_the_texts_in_order(
    a: Seq<Option<Seq<char>>>,
    b: Seq<Option<Seq<char>>>,
    before: Seq<char>,
    name: Seq<char>,
    behind: Seq<char>,
)
    requires
        forall|i: int| 0 <= i < before.len() ==> text::white_space(#[trigger] before[i]),
        forall|i: int| 0 <= i < behind.len() ==> text::white_space(#[trigger] behind[i]),
        name.len() > 0 ==> !text::white_space(name[0]) && !text::white_space(name.last()),
    ensures
        names(a + b) == names(a) + names(b),
        names(seq![None]) == Seq::<Seq<char>>::empty(),
        name.len() == 0 ==> names(seq![Some(before + name + behind)]) == Seq::<Seq<char>>::empty(),
        name.len() > 0 ==> names(seq![Some(before + name + behind)]) == seq![name],
    decreases b.len(),
{
    text::trimming_takes_off_white_space(before, name, behind);
    let none: Seq<Option<Seq<char>>> = Seq::empty();
    assert(names(none) =~= Seq::<Seq<char>>::empty());
    let blank: Seq<Option<Seq<char>>> = seq![None];
    assert(blank.drop_last() =~= none);
    let one = seq![Some(before + name + behind)];
    assert(one.drop_last() =~= none);
    if name.len() > 0 {
        assert(names(one) =~= seq![name]);
    }
    if b.len() == 0 {
        assert(a + b =~= a);
        assert(names(a) + names(b) =~= names(a));
    } else {
        let rest = b.drop_last();
        names_are_the_texts_in_order(a, rest, before, name, behind);
        assert((a + b).drop_last() =~= a + rest);
        assert((a + b).last() == b.last());
        assert(names(a + b) =~= names(a) + names(b));
    }
}

/// Single quotes become double quotes, and every other character stays where it
/// is.
pub proof fn only_single_quotes_change(s: Seq<char>)
    ensures
        double_quoted(s).len() == s.len(),
        forall|i: int|
            0 <= i < s.len() && s[i] != '\'' ==> #[trigger] double_quoted(s)[i] == s[i],
        forall|i: int|
            0 <= i < s.len() && s[i] == '\'' ==> #[trigger] double_quoted(s)[i] == '"',
{
}

/// Each member of the catalog is an application under its own name, in order.
pub proof fn each_member_is_an_application(members: Seq<(Seq<char>, Json)>, i: int)
    ensures
        described(members).len() == members.len(),
        0 <= i < members.len() ==> described(members)[i].0 == members[i].0 && described(
            members,
        )[i].1 == app_model(raw_model(members[i].1)),
{
}

/// Each raw entry is an application under its own name, in order.
pub proof fn each_raw_entry_is_an_application(raw: Seq<(Seq<char>, RawModel)>, i: int)
    ensures
        app_models(raw).len() == raw.len(),
        0 <= i < raw.len() ==> app_models(raw)[i] == (raw[i].0, app_model(raw[i].1)),
{
}

/// Applications and raw entries are what they hold.
pub proof fn entries_hold_their_fields(
    app: AppEntry,
    raw: RawEntry,
    apps: Seq<(String, AppEntry)>,
    raws: Seq<(String, RawEntry)>,
    i: int,
)
    ensures
        app@.description == app.description@,
        app@.path == app.path@,
        app@.marimo_path == app.marimo_path@,
        app@.screenshot == app.screenshot@,
        app@.category == app.category@,
        app@.instruments == text::strings(app.instruments@),
        raw@.description == text::text_view(raw.description),
        raw@.path == text::text_view(raw.path),
        raw@.marimo_path == text::text_view(raw.marimo_path),
        raw@.screenshot == text::text_view(raw.screenshot),
        raw@.category == text::text_view(raw.category),
        raw.instruments is None <==> raw@.instruments is None,
        raw.instruments matches Some(items) ==> {
            &&& raw@.instruments->0.len() == items@.len()
            &&& 0 <= i < items@.len() ==> raw@.instruments->0[i] == text::text_view(items@[i])
        },
        app_views(apps).len() == apps.len(),
        0 <= i < apps.len() ==> app_views(apps)[i] == (apps[i].0@, apps[i].1@),
        raw_views(raws).len() == raws.len(),
        0 <= i < raws.len() ==> raw_views(raws)[i] == (raws[i].0@, raws[i].1@),
{
}

/// Names in order rise from each to every later one.
pub proof fn names_in_order_rise(apps: Seq<(Seq<char>, AppModel)>, i: int, j: int)
    requires
        named_in_order(apps),
        0 <= i < j < apps.len(),
    ensures
        order::before(apps[i].0, apps[j].0),
        apps[i].0 != apps[j].0,
{
    assert(order::before(apps[i].0, apps[j].0));
    order::before_is_total(apps[i].0, apps[j].0);
}

/// Where the catalog is, and what its members hold.
pub proof fn members_hold_names_and_values(members: Seq<(String, serde_json::Value)>, i: int)
    ensures
        JSON_PATH@
            == "/SNS/VENUS/shared/software/menu/list_marimo_general_users_applications.json"@,
        member_views(members).len() == members.len(),
        0 <= i < members.len() ==> member_views(members)[i] == (
            members[i].0@,
            json_contents(members[i].1),
        ),
{
}

} // verus!
