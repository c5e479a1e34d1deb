//! How much of Codex is used up.
use crate::json::{json_option, json_views, parsed, Json, JsonView};
use crate::order::{along, indices, order_texts, texts_sorted};
use crate::passage::{after_prefix, before_suffix, strip_prefix, strip_suffix};
use crate::text::{
    concat3, contains_text, decimal, decimal_text, has_prefix, same_text, starts_with, views,
};
use vstd::prelude::*;

verus! {

/// The first of two fields that is there.
pub open spec fn either(value: JsonView, first: Seq<char>, second: Seq<char>) -> Option<JsonView> {
    match value.get(first) {
        Some(found) => Some(found),
        None => value.get(second),
    }
}

fn either_field<'a>(value: &'a Json, first: &str, second: &str) -> (found: Option<&'a Json>)
    ensures
        match found {
            Some(found) => either(value@, first@, second@) == Some(found@),
            None => either(value@, first@, second@) is None,
        },
{
    match value.get(first) {
        Some(found) => Some(found),
        None => value.get(second),
    }
}

/// The text of a number.
pub open spec fn number_text(value: JsonView) -> Option<Seq<char>> {
    match value {
        JsonView::Integer(number) => Some(decimal(number)),
        JsonView::Fraction(text) => Some(text),
        _ => None,
    }
}

fn number_key(value: &Json) -> (text: Option<String>)
    ensures
        match text {
            Some(text) => number_text(value@) == Some(text@),
            None => number_text(value@) is None,
        },
{
    match value {
        Json::Integer(number) => Some(decimal_text(*number)),
        Json::Fraction(text) => Some(text.clone()),
        _ => None,
    }
}

/// Whole minutes of seconds, without the rest.
pub open spec fn whole_minutes(seconds: i64) -> int {
    if seconds >= 0 {
        seconds / 60
    } else {
        -((-seconds) / 60)
    }
}

fn minutes_of(seconds: i64) -> (minutes: i128)
    ensures
        minutes == whole_minutes(seconds),
{
    let seconds = seconds as i128;
    if seconds >= 0 {
        seconds / 60
    } else {
        -((-seconds) / 60)
    }
}

/// The seconds of a window whose minutes are no whole number of an ordinary
/// size.
pub open spec fn odd_seconds(window: JsonView) -> Option<Seq<char>> {
    match window.get("limit_window_seconds"@) {
        Some(seconds) => if seconds.as_i64() is Some {
            None
        } else {
            number_text(seconds)
        },
        None => None,
    }
}

/// How long a window is in minutes: as it says, or from its seconds. What the
/// fractions of a minute come to is looked up under the text of the seconds.
pub open spec fn window_minutes(window: JsonView, fractions: JsonView) -> JsonView {
    match window.get("window_minutes"@) {
        Some(JsonView::Null) | None => match window.get("limit_window_seconds"@) {
            Some(seconds) => match seconds.as_i64() {
                Some(seconds) => JsonView::Integer(whole_minutes(seconds)),
                None => match number_text(seconds) {
                    Some(text) => fractions.field(text),
                    None => JsonView::Null,
                },
            },
            None => JsonView::Null,
        },
        Some(minutes) => minutes,
    }
}

/// When a window starts anew.
pub open spec fn window_reset(window: JsonView) -> JsonView {
    match either(window, "resets_at"@, "reset_at"@) {
        Some(time) => time,
        None => JsonView::Null,
    }
}

/// A window in the form that is shown; null where it does not tell how much is
/// used.
pub open spec fn shown_window(window: Option<JsonView>, fractions: JsonView) -> JsonView {
    match window {
        None => JsonView::Null,
        Some(window) => match window.get("used_percent"@) {
            None | Some(JsonView::Null) => JsonView::Null,
            Some(used) => JsonView::object().with("used_percent"@, used).with(
                "window_minutes"@,
                window_minutes(window, fractions),
            ).with("resets_at"@, window_reset(window)),
        },
    }
}

/// A window in the form that is shown.
pub fn normalize_rate_limit_window(window: Option<&Json>, fractions: &Json) -> (shown: Json)
    ensures
        shown@ == shown_window(
            match window {
                Some(window) => Some(window@),
                None => None,
            },
            fractions@,
        ),
{
    let window = match window {
        Some(window) => window,
        None => {
            return Json::Null;
        },
    };
    let used = match window.get("used_percent") {
        Some(used) => if used.is_null() {
            return Json::Null;
        } else {
            used.clone()
        },
        None => {
            return Json::Null;
        },
    };
    let told = match window.get("window_minutes") {
        Some(minutes) => if minutes.is_null() {
            None
        } else {
            Some(minutes.clone())
        },
        None => None,
    };
    let minutes = match told {
        Some(minutes) => minutes,
        None => match window.get("limit_window_seconds") {
            Some(seconds) => match seconds.as_i64() {
                Some(seconds) => Json::Integer(minutes_of(seconds)),
                None => match number_key(seconds) {
                    Some(text) => fractions.field(text.as_str()),
                    None => Json::Null,
                },
            },
            None => Json::Null,
        },
    };
    let reset = match either_field(window, "resets_at", "reset_at") {
        Some(time) => time.clone(),
        None => Json::Null,
    };
    Json::object().with("used_percent", used).with("window_minutes", minutes).with(
        "resets_at",
        reset,
    )
}

/// A limit in the form that is shown.
pub open spec fn shown_limit(value: JsonView, id: Seq<char>, fractions: JsonView) -> JsonView {
    JsonView::object().with_text("limit_id"@, id).with("limit_name"@, value.field("limit_name"@)).with(
        "primary"@,
        shown_window(either(value, "primary_window"@, "primary"@), fractions),
    ).with(
        "secondary"@,
        shown_window(either(value, "secondary_window"@, "secondary"@), fractions),
    ).with("credits"@, value.field("credits"@)).with("plan_type"@, value.field("plan_type"@))
}

/// A limit in the form that is shown.
pub fn normalize_rate_limit(value: &Json, id: &str, fractions: &Json) -> (shown: Json)
    ensures
        shown@ == shown_limit(value@, id@, fractions@),
{
    let primary = normalize_rate_limit_window(
        either_field(value, "primary_window", "primary"),
        fractions,
    );
    let secondary = normalize_rate_limit_window(
        either_field(value, "secondary_window", "secondary"),
        fractions,
    );
    Json::object().with_text("limit_id", id).with("limit_name", value.field("limit_name")).with(
        "primary",
        primary,
    ).with("secondary", secondary).with("credits", value.field("credits")).with(
        "plan_type",
        value.field("plan_type"),
    )
}

/// The text of a field, or "codex".
pub open spec fn limit_name(value: JsonView, key: Seq<char>) -> Seq<char> {
    match value.str_field(key) {
        Some(name) => name,
        None => "codex"@,
    }
}

fn limit_name_text(value: &Json, key: &str) -> (name: String)
    ensures
        name@ == limit_name(value@, key@),
{
    match value.str_field(key) {
        Some(name) => name.to_owned(),
        None => "codex".to_owned(),
    }
}

/// The limits that a list holds, with their names.
pub open spec fn listed_limits(limits: Seq<JsonView>) -> Seq<(JsonView, Seq<char>)> {
    Seq::new(limits.len(), |i: int| (limits[i], limit_name(limits[i], "limit_id"@)))
}

/// The additional limits that a list holds, with their names.
pub open spec fn additional_limits(limits: Seq<JsonView>) -> Seq<(JsonView, Seq<char>)> {
    Seq::new(
        limits.len(),
        |i: int|
            (
                match limits[i].get("rate_limit"@) {
                    Some(limit) => limit,
                    None => limits[i],
                },
                limit_name(limits[i], "limit_name"@),
            ),
    )
}

/// The limits that an answer tells of, with their names.
pub open spec fn limit_sources(value: JsonView) -> Seq<(JsonView, Seq<char>)> {
    match value {
        JsonView::Array(limits) => listed_limits(limits),
        _ => {
            let first = match value.get("rate_limit"@) {
                Some(limit) => Seq::empty().push((limit, "codex"@)),
                None => Seq::empty(),
            };
            let more = match value.field("additional_rate_limits"@).as_array() {
                Some(limits) => additional_limits(limits),
                None => Seq::empty(),
            };
            let all = first + more;
            if all.len() == 0 && value is Object {
                Seq::empty().push((value, limit_name(value, "limit_id"@)))
            } else {
                all
            }
        },
    }
}

/// What limits stand for.
pub open spec fn source_views(sources: Seq<(Json, String)>) -> Seq<(JsonView, Seq<char>)> {
    Seq::new(sources.len(), |i: int| (sources[i].0@, sources[i].1@))
}

/// The limits that an answer tells of, with their names.
pub fn rate_limit_sources(value: &Json) -> (sources: Vec<(Json, String)>)
    ensures
        source_views(sources@) == limit_sources(value@),
{
    let mut sources: Vec<(Json, String)> = Vec::new();
    match value.as_array() {
        Some(limits) => {
            let ghost expected = listed_limits(json_views(limits@));
            let mut i: usize = 0;
            while i < limits.len()
                invariant
                    i <= limits.len(),
                    expected == listed_limits(json_views(limits@)),
                    sources.len() == i,
                    forall|k: int|
                        0 <= k < i ==> #[trigger] source_views(sources@)[k] == expected[k],
                decreases limits.len() - i,
            {
                let ghost before = source_views(sources@);
                assert(json_views(limits@)[i as int] == limits[i as int]@);
                sources.push((limits[i].clone(), limit_name_text(&limits[i], "limit_id")));
                assert forall|k: int| 0 <= k < i + 1 implies #[trigger] source_views(sources@)[k]
                    == expected[k] by {
                    if k < i {
                        assert(source_views(sources@)[k] == before[k]);
                    }
                }
                i += 1;
            }
            assert(source_views(sources@) =~= expected);
            return sources;
        },
        None => {},
    }
    let ghost mut all: Seq<(JsonView, Seq<char>)> = Seq::empty();
    assert(source_views(sources@) =~= all);
    match value.get("rate_limit") {
        Some(limit) => {
            sources.push((limit.clone(), "codex".to_owned()));
            proof {
                all = all.push((limit@, "codex"@));
                assert(source_views(sources@) =~= all);
            }
        },
        None => {},
    }
    let ghost first = all;
    let additional = value.field("additional_rate_limits");
    match additional.as_array() {
        Some(limits) => {
            let ghost more = additional_limits(json_views(limits@));
            let mut i: usize = 0;
            assert(first + more.take(0) =~= first);
            while i < limits.len()
                invariant
                    i <= limits.len(),
                    more == additional_limits(json_views(limits@)),
                    source_views(sources@) == first + more.take(i as int),
                decreases limits.len() - i,
            {
                let ghost before = source_views(sources@);
                assert(json_views(limits@)[i as int] == limits[i as int]@);
                let limit = match limits[i].get("rate_limit") {
                    Some(limit) => limit.clone(),
                    None => limits[i].clone(),
                };
                sources.push((limit, limit_name_text(&limits[i], "limit_name")));
                proof {
                    assert(source_views(sources@) =~= before.push(more[i as int]));
                    assert(more.take(i + 1) =~= more.take(i as int).push(more[i as int]));
                    assert(first + more.take(i + 1) =~= (first + more.take(i as int)).push(
                        more[i as int],
                    ));
                }
                i += 1;
            }
            assert(more.take(i as int) =~= more);
        },
        None => {
            assert(first + Seq::<(JsonView, Seq<char>)>::empty() =~= first);
        },
    }
    if sources.len() == 0 && value.is_object() {
        sources.push((value.clone(), limit_name_text(value, "limit_id")));
        assert(source_views(sources@) =~= Seq::empty().push(
            (value@, limit_name(value@, "limit_id"@)),
        ));
    }
    sources
}

/// The odd seconds of the windows of the first `count` limits.
pub open spec fn odd_windows(sources: Seq<(JsonView, Seq<char>)>, count: nat) -> Seq<Seq<char>>
    decreases count,
{
    if count == 0 {
        Seq::empty()
    } else {
        let before = odd_windows(sources, (count - 1) as nat);
        let value = sources[count - 1].0;
        let with_primary = match either(value, "primary_window"@, "primary"@) {
            Some(window) => match odd_seconds(window) {
                Some(text) => before.push(text),
                None => before,
            },
            None => before,
        };
        match either(value, "secondary_window"@, "secondary"@) {
            Some(window) => match odd_seconds(window) {
                Some(text) => with_primary.push(text),
                None => with_primary,
            },
            None => with_primary,
        }
    }
}

fn add_odd_seconds(window: Option<&Json>, texts: &mut Vec<String>)
    ensures
        views(final(texts)@) == (match window {
            Some(window) => match odd_seconds(window@) {
                Some(text) => views(old(texts)@).push(text),
                None => views(old(texts)@),
            },
            None => views(old(texts)@),
        }),
{
    let ghost before = views(texts@);
    match window {
        Some(window) => match window.get("limit_window_seconds") {
            Some(seconds) => {
                if seconds.as_i64().is_none() {
                    match number_key(seconds) {
                        Some(text) => {
                            let ghost added = text@;
                            texts.push(text);
                            assert(views(texts@) =~= before.push(added));
                        },
                        None => {},
                    }
                }
            },
            None => {},
        },
        None => {},
    }
}

/// The seconds of windows whose minutes are to be worked out.
pub fn fractional_seconds(sources: &Vec<(Json, String)>) -> (texts: Vec<String>)
    ensures
        views(texts@) == odd_windows(source_views(sources@), sources@.len()),
{
    let mut texts: Vec<String> = Vec::new();
    let mut i: usize = 0;
    assert(views(texts@) =~= Seq::empty());
    while i < sources.len()
        invariant
            i <= sources.len(),
            views(texts@) == odd_windows(source_views(sources@), i as nat),
        decreases sources.len() - i,
    {
        let value = &sources[i].0;
        assert(source_views(sources@)[i as int].0 == value@);
        add_odd_seconds(either_field(value, "primary_window", "primary"), &mut texts);
        add_odd_seconds(either_field(value, "secondary_window", "secondary"), &mut texts);
        i += 1;
    }
    texts
}

/// The limits that an answer tells of, in the form that is shown.
pub open spec fn snapshots(sources: Seq<(JsonView, Seq<char>)>, fractions: JsonView) -> Seq<
    JsonView,
> {
    Seq::new(sources.len(), |i: int| shown_limit(sources[i].0, sources[i].1, fractions))
}

/// The limits that an answer tells of, in the form that is shown.
pub fn rate_limit_snapshots(value: &Json, fractions: &Json) -> (shown: Vec<Json>)
    ensures
        json_views(shown@) == snapshots(limit_sources(value@), fractions@),
{
    let sources = rate_limit_sources(value);
    let mut shown: Vec<Json> = Vec::new();
    let ghost expected = snapshots(limit_sources(value@), fractions@);
    let mut i: usize = 0;
    while i < sources.len()
        invariant
            i <= sources.len(),
            source_views(sources@) == limit_sources(value@),
            expected == snapshots(limit_sources(value@), fractions@),
            shown.len() == i,
            forall|k: int| 0 <= k < i ==> #[trigger] shown[k]@ == expected[k],
        decreases sources.len() - i,
    {
        assert(source_views(sources@)[i as int] == (sources[i as int].0@, sources[i as int].1@));
        shown.push(normalize_rate_limit(&sources[i].0, sources[i].1.as_str(), fractions));
        i += 1;
    }
    assert(json_views(shown@) =~= expected);
    shown
}

/// The limits that the text of an answer tells of, with their names; none where it
/// is not JSON.
pub fn usage_sources(body: &str) -> (sources: Option<Vec<(Json, String)>>)
    ensures
        match (parsed(body@), sources) {
            (Some(value), Some(sources)) => source_views(sources@) == limit_sources(value),
            (None, None) => true,
            _ => false,
        },
{
    match Json::parse(body) {
        Some(value) => Some(rate_limit_sources(&value)),
        None => None,
    }
}

/// The limits that the text of an answer tells of, in the form that is shown; none
/// where it is not JSON.
pub fn usage_snapshots(body: &str, fractions: &Json) -> (shown: Option<Vec<Json>>)
    ensures
        match (parsed(body@), shown) {
            (Some(value), Some(shown)) => json_views(shown@) == snapshots(
                limit_sources(value),
                fractions@,
            ),
            (None, None) => true,
            _ => false,
        },
{
    match Json::parse(body) {
        Some(value) => Some(rate_limit_snapshots(&value, fractions)),
        None => None,
    }
}

/// A header of an answer: its name, its text where it has one, and the number
/// that the text is.
#[derive(Debug)]
pub struct Header {
    pub name: String,
    pub text: Option<String>,
    pub number: Option<Json>,
}

/// What a [`Header`] stands for.
pub struct HeaderView {
    pub name: Seq<char>,
    pub text: Option<Seq<char>>,
    pub number: Option<JsonView>,
}

impl View for Header {
    type V = HeaderView;

    open spec fn view(&self) -> HeaderView {
        HeaderView {
            name: self.name@,
            text: crate::text::view_option(self.text),
            number: json_option(self.number),
        }
    }
}

/// What headers stand for.
pub open spec fn header_views(headers: Seq<Header>) -> Seq<HeaderView> {
    Seq::new(headers.len(), |i: int| headers[i]@)
}

/// The header of a name, from `from` on.
pub open spec fn header(headers: Seq<HeaderView>, name: Seq<char>, from: nat) -> Option<HeaderView>
    decreases headers.len() - from,
{
    if from >= headers.len() {
        None
    } else if headers[from as int].name == name {
        Some(headers[from as int])
    } else {
        header(headers, name, from + 1)
    }
}

fn find_header<'a>(headers: &'a Vec<Header>, name: &str) -> (found: Option<&'a Header>)
    ensures
        match found {
            Some(found) => header(header_views(headers@), name@, 0) == Some(found@),
            None => header(header_views(headers@), name@, 0) is None,
        },
{
    let mut i: usize = 0;
    while i < headers.len()
        invariant
            i <= headers.len(),
            header(header_views(headers@), name@, 0) == header(
                header_views(headers@),
                name@,
                i as nat,
            ),
        decreases headers.len() - i,
    {
        assert(header_views(headers@)[i as int] == headers[i as int]@);
        if same_text(headers[i].name.as_str(), name) {
            return Some(&headers[i]);
        }
        i += 1;
    }
    None
}

/// The number of a header, or null.
pub open spec fn header_number(headers: Seq<HeaderView>, name: Seq<char>) -> JsonView {
    match header(headers, name, 0) {
        Some(found) => match found.number {
            Some(number) => number,
            None => JsonView::Null,
        },
        None => JsonView::Null,
    }
}

/// Whether a header is a number.
pub open spec fn has_number(headers: Seq<HeaderView>, name: Seq<char>) -> bool {
    match header(headers, name, 0) {
        Some(found) => found.number is Some,
        None => false,
    }
}

/// The text of a header, or null.
pub open spec fn header_text(headers: Seq<HeaderView>, name: Seq<char>) -> JsonView {
    match header(headers, name, 0) {
        Some(found) => match found.text {
            Some(text) => JsonView::Text(text),
            None => JsonView::Null,
        },
        None => JsonView::Null,
    }
}

/// Whether a header says true or false, or null.
pub open spec fn header_truth(headers: Seq<HeaderView>, name: Seq<char>) -> JsonView {
    match header(headers, name, 0) {
        Some(found) => match found.text {
            Some(text) => if text == "true"@ {
                JsonView::Bool(true)
            } else if text == "false"@ {
                JsonView::Bool(false)
            } else {
                JsonView::Null
            },
            None => JsonView::Null,
        },
        None => JsonView::Null,
    }
}

fn number_of(headers: &Vec<Header>, name: &str) -> (value: Json)
    ensures
        value@ == header_number(header_views(headers@), name@),
{
    match find_header(headers, name) {
        Some(found) => match &found.number {
            Some(number) => number.clone(),
            None => Json::Null,
        },
        None => Json::Null,
    }
}

fn text_value_of(headers: &Vec<Header>, name: &str) -> (value: Json)
    ensures
        value@ == header_text(header_views(headers@), name@),
{
    match find_header(headers, name) {
        Some(found) => match &found.text {
            Some(text) => Json::text(text.as_str()),
            None => Json::Null,
        },
        None => Json::Null,
    }
}

fn truth_of(headers: &Vec<Header>, name: &str) -> (value: Json)
    ensures
        value@ == header_truth(header_views(headers@), name@),
{
    match find_header(headers, name) {
        Some(found) => match &found.text {
            Some(text) => if same_text(text.as_str(), "true") {
                Json::Bool(true)
            } else if same_text(text.as_str(), "false") {
                Json::Bool(false)
            } else {
                Json::Null
            },
            None => Json::Null,
        },
        None => Json::Null,
    }
}

/// What the name of a limit's header starts with.
pub open spec fn header_prefix(name: Seq<char>) -> Option<Seq<char>> {
    let prefix = match before_suffix(name, "-primary-used-percent"@) {
        Some(prefix) => Some(prefix),
        None => before_suffix(name, "-secondary-used-percent"@),
    };
    match prefix {
        Some(prefix) => if has_prefix(prefix, "x-codex"@) {
            Some(prefix)
        } else {
            None
        },
        None => None,
    }
}

fn header_prefix_text(name: &str) -> (prefix: Option<String>)
    ensures
        match prefix {
            Some(prefix) => header_prefix(name@) == Some(prefix@),
            None => header_prefix(name@) is None,
        },
{
    let prefix = match strip_suffix(name, "-primary-used-percent") {
        Some(prefix) => Some(prefix),
        None => strip_suffix(name, "-secondary-used-percent"),
    };
    match prefix {
        Some(prefix) => if starts_with(prefix.as_str(), "x-codex") {
            Some(prefix)
        } else {
            None
        },
        None => None,
    }
}

/// Whether the limits of the account itself are told of.
pub open spec fn tells_account(headers: Seq<HeaderView>) -> bool {
    header(headers, "x-codex-credits-balance"@, 0) is Some || header(
        headers,
        "x-codex-plan-type"@,
        0,
    ) is Some
}

/// The limits that the first `count` headers tell of, each once.
pub open spec fn header_prefixes(headers: Seq<HeaderView>, count: nat) -> Seq<Seq<char>>
    decreases count,
{
    if count == 0 {
        Seq::empty()
    } else {
        let before = header_prefixes(headers, (count - 1) as nat);
        match header_prefix(headers[count - 1].name) {
            Some(prefix) => if before.contains(prefix) {
                before
            } else {
                before.push(prefix)
            },
            None => before,
        }
    }
}

/// The limits that headers tell of, each once.
pub open spec fn all_prefixes(headers: Seq<HeaderView>) -> Seq<Seq<char>> {
    let named = header_prefixes(headers, headers.len());
    if tells_account(headers) && !named.contains("x-codex"@) {
        named.push("x-codex"@)
    } else {
        named
    }
}

/// What a limit is called.
pub open spec fn limit_id(prefix: Seq<char>) -> Seq<char> {
    match after_prefix(prefix, "x-codex-"@) {
        Some(id) => if id.len() == 0 {
            "codex"@
        } else {
            id
        },
        None => "codex"@,
    }
}

/// The name of a header of a limit's window.
pub open spec fn window_header(prefix: Seq<char>, window: Seq<char>, field: Seq<char>) -> Seq<char> {
    prefix + window + field
}

/// A window of a limit in the form that is shown; null where no number tells how
/// much of it is used.
pub open spec fn header_window(headers: Seq<HeaderView>, prefix: Seq<char>, window: Seq<char>) -> JsonView {
    let name = window_header(prefix, window, "-used-percent"@);
    if !has_number(headers, name) {
        JsonView::Null
    } else {
        JsonView::object().with("used_percent"@, header_number(headers, name)).with(
            "window_minutes"@,
            header_number(headers, window_header(prefix, window, "-window-minutes"@)),
        ).with(
            "resets_at"@,
            header_number(headers, window_header(prefix, window, "-reset-at"@)),
        )
    }
}

/// A limit in the form that is shown. Credits and the plan belong to the account
/// itself.
pub open spec fn header_limit(headers: Seq<HeaderView>, prefix: Seq<char>) -> JsonView {
    let account = prefix == "x-codex"@;
    JsonView::object().with_text("limit_id"@, limit_id(prefix)).with(
        "primary"@,
        header_window(headers, prefix, "-primary"@),
    ).with("secondary"@, header_window(headers, prefix, "-secondary"@)).with(
        "credits"@,
        if account {
            JsonView::object().with(
                "has_credits"@,
                header_truth(headers, "x-codex-credits-has-credits"@),
            ).with("unlimited"@, header_truth(headers, "x-codex-credits-unlimited"@)).with(
                "balance"@,
                header_number(headers, "x-codex-credits-balance"@),
            )
        } else {
            JsonView::Null
        },
    ).with(
        "plan_type"@,
        if account {
            header_text(headers, "x-codex-plan-type"@)
        } else {
            JsonView::Null
        },
    )
}

fn limit_id_text(prefix: &str) -> (id: String)
    ensures
        id@ == limit_id(prefix@),
{
    match strip_prefix(prefix, "x-codex-") {
        Some(id) => {
            if id.as_str().is_empty() {
                "codex".to_owned()
            } else {
                id
            }
        },
        None => "codex".to_owned(),
    }
}

fn window_of(headers: &Vec<Header>, prefix: &str, window: &str) -> (value: Json)
    ensures
        value@ == header_window(header_views(headers@), prefix@, window@),
{
    let name = concat3(prefix, window, "-used-percent");
    let known = match find_header(headers, name.as_str()) {
        Some(found) => found.number.is_some(),
        None => false,
    };
    if !known {
        return Json::Null;
    }
    let used = number_of(headers, name.as_str());
    let minutes = concat3(prefix, window, "-window-minutes");
    let reset = concat3(prefix, window, "-reset-at");
    Json::object().with("used_percent", used).with(
        "window_minutes",
        number_of(headers, minutes.as_str()),
    ).with("resets_at", number_of(headers, reset.as_str()))
}

fn limit_of(headers: &Vec<Header>, prefix: &str) -> (value: Json)
    ensures
        value@ == header_limit(header_views(headers@), prefix@),
{
    let account = same_text(prefix, "x-codex");
    let id = limit_id_text(prefix);
    let credits = if account {
        Json::object().with("has_credits", truth_of(headers, "x-codex-credits-has-credits")).with(
            "unlimited",
            truth_of(headers, "x-codex-credits-unlimited"),
        ).with("balance", number_of(headers, "x-codex-credits-balance"))
    } else {
        Json::Null
    };
    let plan = if account {
        text_value_of(headers, "x-codex-plan-type")
    } else {
        Json::Null
    };
    Json::object().with_text("limit_id", id.as_str()).with(
        "primary",
        window_of(headers, prefix, "-primary"),
    ).with("secondary", window_of(headers, prefix, "-secondary")).with("credits", credits).with(
        "plan_type",
        plan,
    )
}

/// Whether values are the limits that headers tell of, sorted by how their
/// headers start.
pub open spec fn lists_limits(headers: Seq<HeaderView>, values: Seq<JsonView>) -> bool {
    let prefixes = all_prefixes(headers);
    exists|order: Seq<usize>|
        {
            &&& #[trigger] indices(order, prefixes.len())
            &&& texts_sorted(along(prefixes, order))
            &&& values == Seq::new(
                order.len(),
                |i: int| header_limit(headers, along(prefixes, order)[i]),
            )
        }
}

/// The limits that the headers of an answer tell of, in the form that is shown.
pub fn rate_limit_headers(headers: &Vec<Header>) -> (values: Vec<Json>)
    ensures
        lists_limits(header_views(headers@), json_views(values@)),
{
    let ghost all = header_views(headers@);
    let mut prefixes: Vec<String> = Vec::new();
    let mut i: usize = 0;
    assert(views(prefixes@) =~= Seq::empty());
    while i < headers.len()
        invariant
            i <= headers.len(),
            all == header_views(headers@),
            views(prefixes@) == header_prefixes(all, i as nat),
        decreases headers.len() - i,
    {
        assert(all[i as int].name == headers[i as int].name@);
        match header_prefix_text(headers[i].name.as_str()) {
            Some(prefix) => {
                if !contains_text(&prefixes, prefix.as_str()) {
                    let ghost before = views(prefixes@);
                    let ghost text = prefix@;
                    prefixes.push(prefix);
                    assert(views(prefixes@) =~= before.push(text));
                }
            },
            None => {},
        }
        i += 1;
    }
    let account = find_header(headers, "x-codex-credits-balance").is_some() || find_header(
        headers,
        "x-codex-plan-type",
    ).is_some();
    if account && !contains_text(&prefixes, "x-codex") {
        let ghost before = views(prefixes@);
        prefixes.push("x-codex".to_owned());
        assert(views(prefixes@) =~= before.push("x-codex"@));
    }
    let order = order_texts(&prefixes);
    let ghost sorted = along(views(prefixes@), order@);
    let ghost expected = Seq::new(order@.len(), |k: int| header_limit(all, sorted[k]));
    let mut values: Vec<Json> = Vec::new();
    let mut k: usize = 0;
    while k < order.len()
        invariant
            k <= order.len(),
            all == header_views(headers@),
            indices(order@, prefixes@.len()),
            sorted == along(views(prefixes@), order@),
            expected == Seq::new(order@.len(), |m: int| header_limit(all, sorted[m])),
            values.len() == k,
            forall|m: int| 0 <= m < k ==> #[trigger] values[m]@ == expected[m],
        decreases order.len() - k,
    {
        let at = order[k];
        assert(at < prefixes.len());
        assert(sorted[k as int] == prefixes[at as int]@);
        values.push(limit_of(headers, prefixes[at].as_str()));
        k += 1;
    }
    proof {
        assert(json_views(values@) =~= expected);
        assert(indices(order@, all_prefixes(all).len()));
    }
    values
}

/// A window is shown with how much of it is used, where that is told, and not at all
/// otherwise. It lasts as long as is told in minutes, else in whole minutes of the
/// seconds that are told, and ends when either of the two names says.
pub proof fn law_window_is_shown_as_told(window: JsonView, fractions: JsonView)
    ensures
        ({
            let shown = shown_window(Some(window), fractions);
            let minutes = shown.field("window_minutes"@);
            let told = window.field("window_minutes"@);
            let seconds = window.field("limit_window_seconds"@).as_i64();
            &&& window.field("used_percent"@) is Null <==> shown is Null
            &&& !(shown is Null) ==> {
                &&& shown.field("used_percent"@) == window.field("used_percent"@)
                &&& !(told is Null) ==> minutes == told
                &&& told is Null && seconds is Some && seconds->0 >= 0 ==> (
                minutes matches JsonView::Integer(count) && 60 * count <= seconds->0 < 60 * (count
                    + 1))
                &&& told is Null && seconds is Some && seconds->0 < 0 ==> (
                minutes matches JsonView::Integer(count) && 60 * count >= seconds->0 > 60 * (count
                    - 1))
                &&& window.get("resets_at"@) is Some ==> shown.field("resets_at"@) == window.field(
                    "resets_at"@,
                )
                &&& window.get("resets_at"@) is None ==> shown.field("resets_at"@) == window.field(
                    "reset_at"@,
                )
            }
        }),
        shown_window(None, fractions) is Null,
{
    broadcast use crate::json::lemma_with, crate::json::lemma_no_fields;

    reveal_strlit("used_percent");
    reveal_strlit("window_minutes");
    reveal_strlit("resets_at");
    assert("used_percent"@.len() == 12 && "window_minutes"@.len() == 14 && "resets_at"@.len() == 9);
}

/// A limit is shown under its name with its two windows, each in its place, whichever
/// of the two names they have, and with what is told of credits and plan.
pub proof fn law_limit_has_both_windows(value: JsonView, id: Seq<char>, fractions: JsonView)
    ensures
        ({
            let shown = shown_limit(value, id, fractions);
            &&& shown.str_field("limit_id"@) == Some(id)
            &&& shown.field("limit_name"@) == value.field("limit_name"@)
            &&& shown.field("credits"@) == value.field("credits"@)
            &&& shown.field("plan_type"@) == value.field("plan_type"@)
            &&& value.get("primary_window"@) matches Some(window) ==> shown.field("primary"@)
                == shown_window(Some(window), fractions)
            &&& value.get("primary_window"@) is None ==> shown.field("primary"@) == shown_window(
                value.get("primary"@),
                fractions,
            )
            &&& value.get("secondary_window"@) matches Some(window) ==> shown.field("secondary"@)
                == shown_window(Some(window), fractions)
            &&& value.get("secondary_window"@) is None ==> shown.field("secondary"@)
                == shown_window(value.get("secondary"@), fractions)
        }),
{
    broadcast use crate::json::lemma_with, crate::json::lemma_no_fields;

    reveal_strlit("limit_id");
    reveal_strlit("limit_name");
    reveal_strlit("primary");
    reveal_strlit("secondary");
    reveal_strlit("credits");
    reveal_strlit("plan_type");
    assert("limit_id"@.len() == 8 && "limit_name"@.len() == 10 && "primary"@.len() == 7 && "secondary"@.len() == 9 && "credits"@.len() == 7 && "plan_type"@.len() == 9);
    assert("primary"@[0] != "credits"@[0]);
    assert("secondary"@[0] != "plan_type"@[0]);
}

/// The limits of an account: each of a list; else the one of Codex, and after it those
/// that are added under their names; and where neither is told, the whole is one.
pub proof fn law_every_limit_is_shown(value: JsonView, i: int)
    ensures
        ({
            let sources = limit_sources(value);
            let own = value.get("rate_limit"@);
            let added = value.field("additional_rate_limits"@);
            &&& value is Array && 0 <= i < value->Array_0.len() ==> sources.len()
                == value->Array_0.len() && sources[i].0 == value->Array_0[i]
            &&& !(value is Array) && own is Some ==> sources.len() > 0 && sources[0] == (
                own->0,
                "codex"@,
            )
            &&& !(value is Array) && added is Array && 0 <= i < added->Array_0.len() ==> {
                let at = i + (if own is Some {
                    1int
                } else {
                    0
                });
                let limit = added->Array_0[i];
                &&& sources.len() == added->Array_0.len() + at - i
                &&& limit.str_field("limit_name"@) matches Some(name) ==> sources[at].1 == name
                &&& limit.get("rate_limit"@) matches Some(inner) ==> sources[at].0 == inner
                &&& limit.get("rate_limit"@) is None ==> sources[at].0 == limit
            }
            &&& value is Object && own is None && !(added is Array) ==> sources.len() == 1
                && sources[0].0 == value
        }),
{
}

/// A header names a limit by what comes before its ending; the limit has the name that
/// comes after the common start.
pub proof fn law_header_names_its_limit(rest: Seq<char>)
    ensures
        header_prefix("x-codex"@ + rest + "-primary-used-percent"@) == Some("x-codex"@ + rest),
        header_prefix("x-codex"@ + rest + "-secondary-used-percent"@) == Some("x-codex"@ + rest),
        rest.len() > 0 ==> limit_id("x-codex-"@ + rest) == rest,
        limit_id("x-codex"@) == "codex"@,
{
    reveal_strlit("-primary-used-percent");
    reveal_strlit("-secondary-used-percent");
    reveal_strlit("x-codex");
    reveal_strlit("x-codex-");
    let prefix = "x-codex"@ + rest;
    let first = "-primary-used-percent"@;
    let second = "-secondary-used-percent"@;
    let one = prefix + first;
    assert(one.skip(one.len() - first.len()) =~= first);
    assert(one.take(one.len() - first.len()) =~= prefix);
    let two = prefix + second;
    assert(two.skip(two.len() - second.len()) =~= second);
    assert(two.take(two.len() - second.len()) =~= prefix);
    if crate::text::has_suffix(two, first) {
        let ending = two.skip(two.len() - first.len());
        assert(first[0] == '-');
        assert(second[2] == 'e');
        assert(ending[0] == second[2]);
    }
    assert(prefix.take(7) =~= "x-codex"@);
    let whole = "x-codex-"@ + rest;
    assert(whole.take(8) =~= "x-codex-"@);
    assert(whole.skip(8) =~= rest);
}

/// A header is the first that has its name.
pub proof fn law_header_is_the_first(headers: Seq<HeaderView>, name: Seq<char>, from: nat, i: int)
    requires
        from <= i < headers.len(),
        headers[i].name == name,
        forall|j: int| from <= j < i ==> (#[trigger] headers[j]).name != name,
    ensures
        header(headers, name, from) == Some(headers[i]),
    decreases headers.len() - from,
{
    if from < i {
        assert(headers[from as int].name != name);
        law_header_is_the_first(headers, name, from + 1, i);
    }
}

/// A limit that headers tell of has its two windows, each from the headers of its own,
/// and credits and plan only where it is that of the account.
pub proof fn law_headers_tell_of_a_limit(headers: Seq<HeaderView>, prefix: Seq<char>)
    ensures
        ({
            let shown = header_limit(headers, prefix);
            let primary = shown.field("primary"@);
            let secondary = shown.field("secondary"@);
            let account = prefix == "x-codex"@;
            &&& shown.str_field("limit_id"@) == Some(limit_id(prefix))
            &&& !(primary is Null) ==> primary.field("used_percent"@) == header_number(
                headers,
                prefix + "-primary"@ + "-used-percent"@,
            ) && primary.field("window_minutes"@) == header_number(
                headers,
                prefix + "-primary"@ + "-window-minutes"@,
            ) && primary.field("resets_at"@) == header_number(
                headers,
                prefix + "-primary"@ + "-reset-at"@,
            )
            &&& !(secondary is Null) ==> secondary.field("used_percent"@) == header_number(
                headers,
                prefix + "-secondary"@ + "-used-percent"@,
            ) && secondary.field("window_minutes"@) == header_number(
                headers,
                prefix + "-secondary"@ + "-window-minutes"@,
            ) && secondary.field("resets_at"@) == header_number(
                headers,
                prefix + "-secondary"@ + "-reset-at"@,
            )
            &&& primary is Null <==> !has_number(headers, prefix + "-primary"@ + "-used-percent"@)
            &&& secondary is Null <==> !has_number(
                headers,
                prefix + "-secondary"@ + "-used-percent"@,
            )
            &&& account ==> shown.field("plan_type"@) == header_text(headers, "x-codex-plan-type"@)
                && shown.field("credits"@).field("balance"@) == header_number(
                headers,
                "x-codex-credits-balance"@,
            ) && shown.field("credits"@).field("has_credits"@) == header_truth(
                headers,
                "x-codex-credits-has-credits"@,
            ) && shown.field("credits"@).field("unlimited"@) == header_truth(
                headers,
                "x-codex-credits-unlimited"@,
            )
            &&& !account ==> shown.field("plan_type"@) is Null && shown.field("credits"@) is Null
        }),
{
    broadcast use crate::json::lemma_with, crate::json::lemma_no_fields;

    reveal_strlit("limit_id");
    reveal_strlit("primary");
    reveal_strlit("secondary");
    reveal_strlit("credits");
    reveal_strlit("plan_type");
    reveal_strlit("used_percent");
    reveal_strlit("window_minutes");
    reveal_strlit("resets_at");
    reveal_strlit("has_credits");
    reveal_strlit("unlimited");
    reveal_strlit("balance");
    assert("limit_id"@.len() == 8 && "primary"@.len() == 7 && "secondary"@.len() == 9 && "credits"@.len() == 7 && "plan_type"@.len() == 9 && "used_percent"@.len() == 12 && "window_minutes"@.len() == 14 && "resets_at"@.len() == 9 && "has_credits"@.len() == 11 && "unlimited"@.len() == 9 && "balance"@.len() == 7);
    assert("primary"@[0] != "credits"@[0]);
    assert("primary"@[0] != "balance"@[0]);
    assert("credits"@[0] != "balance"@[0]);
    assert("secondary"@[0] != "plan_type"@[0]);
    assert("secondary"@[0] != "resets_at"@[0]);
    assert("secondary"@[0] != "unlimited"@[0]);
    assert("plan_type"@[0] != "resets_at"@[0]);
    assert("plan_type"@[0] != "unlimited"@[0]);
    assert("resets_at"@[0] != "unlimited"@[0]);
}

/// What a header tells: its text, its number, or whether something is so.
pub proof fn law_header_tells_its_value(headers: Seq<HeaderView>, name: Seq<char>)
    ensures
        ({
            let found = header(headers, name, 0);
            let text = if found is Some {
                found->0.text
            } else {
                None
            };
            &&& header_text(headers, name) is Null <==> text is None
            &&& text matches Some(words) ==> header_text(headers, name) == JsonView::Text(words)
            &&& text == Some("true"@) ==> header_truth(headers, name) == JsonView::Bool(true)
            &&& text == Some("false"@) ==> header_truth(headers, name) == JsonView::Bool(false)
            &&& text != Some("true"@) && text != Some("false"@) ==> header_truth(headers, name)
                is Null
            &&& has_number(headers, name) ==> Some(header_number(headers, name))
                == found->0.number
            &&& !has_number(headers, name) ==> header_number(headers, name) is Null
        }),
{
    reveal_strlit("true");
    reveal_strlit("false");
    assert("true"@.len() == 4 && "false"@.len() == 5);
}

/// The limits that headers tell of are in the order of their names, each once: every
/// name that a header gives is among them, and no other but that of the account.
pub proof fn law_limits_of_headers_are_each_named(headers: Seq<HeaderView>, i: int)
    requires
        0 <= i < headers.len(),
    ensures
        header_prefix(headers[i].name) matches Some(prefix) ==> all_prefixes(headers).contains(
            prefix,
        ),
        tells_account(headers) ==> all_prefixes(headers).contains("x-codex"@),
        all_prefixes(headers).no_duplicates(),
{
    lemma_prefixes(headers, headers.len());
    let named = header_prefixes(headers, headers.len());
    if header_prefix(headers[i].name) is Some {
        let prefix = header_prefix(headers[i].name)->0;
        assert(named.contains(prefix));
        let k = choose|k: int| 0 <= k < named.len() && named[k] == prefix;
        assert(all_prefixes(headers)[k] == prefix);
    }
    if tells_account(headers) && !named.contains("x-codex"@) {
        assert(all_prefixes(headers).last() == "x-codex"@);
    }
}

proof fn lemma_prefixes(headers: Seq<HeaderView>, count: nat)
    requires
        count <= headers.len(),
    ensures
        header_prefixes(headers, count).no_duplicates(),
        forall|i: int|
            0 <= i < count && header_prefix((#[trigger] headers[i]).name) is Some
                ==> header_prefixes(headers, count).contains(header_prefix(headers[i].name)->0),
    decreases count,
{
    if count > 0 {
        lemma_prefixes(headers, (count - 1) as nat);
        let before = header_prefixes(headers, (count - 1) as nat);
        let after = header_prefixes(headers, count);
        assert forall|i: int|
            0 <= i < count && header_prefix((#[trigger] headers[i]).name)
                is Some implies after.contains(header_prefix(headers[i].name)->0) by {
            let prefix = header_prefix(headers[i].name)->0;
            if before.contains(prefix) {
                let k = choose|k: int| 0 <= k < before.len() && before[k] == prefix;
                assert(after[k] == prefix);
            } else {
                assert(i == count - 1);
                assert(after.last() == prefix);
            }
        }
    }
}

} // verus!
