//! Who carries out the web tools, and what they may reach.
use crate::api::sse::utf8_text;
use crate::codec::{lossy, lossy_text};
use crate::json::{json_read, json_views, parsed, Json, JsonView};
use crate::markup::{nesting, nesting_of};
use crate::passage::{after_prefix, contains_part, holds, lines, strip_prefix, text_lines};
use crate::provider::codex_auth::{build_url, pair_views, url_with_pairs};
use crate::text::{
    blank, concat2, concat3, has_prefix, is_blank, same_text, starts_with, trim, trimmed,
    view_option, views,
};
use vstd::prelude::*;
use vstd::utf8::{decode_utf8, valid_utf8};

verus! {

/// How long a fetched answer is at most.
pub const MAX_FETCH_BYTES: usize = 5242880;

/// How deep a page that is converted nests at most.
pub const MAX_NESTING: usize = 256;

/// How often a fetch is sent elsewhere.
pub const MAX_REDIRECTS: usize = 5;

/// Who carries out a tool.
#[derive(Clone, Copy, Debug, PartialEq, Eq, Structural)]
pub enum Binding {
    Hosted,
    Function(Executor),
}

/// What carries out a tool beside the model.
#[derive(Clone, Copy, Debug, PartialEq, Eq, Structural)]
pub enum Executor {
    Ollama,
    Exa,
    DirectFetch,
}

impl Binding {
    /// The name of the binding.
    pub open spec fn words(self) -> Seq<char> {
        match self {
            Binding::Hosted => "hosted"@,
            Binding::Function(Executor::Ollama) => "ollama"@,
            Binding::Function(Executor::Exa) => "exa"@,
            Binding::Function(Executor::DirectFetch) => "direct"@,
        }
    }

    /// The name of the binding.
    pub fn name(self) -> (name: &'static str)
        ensures
            name@ == self.words(),
    {
        match self {
            Binding::Hosted => "hosted",
            Binding::Function(Executor::Ollama) => "ollama",
            Binding::Function(Executor::Exa) => "exa",
            Binding::Function(Executor::DirectFetch) => "direct",
        }
    }
}

/// The binding of a tool with Codex: the web search is its own.
pub fn codex(name: &str) -> (binding: Option<Binding>)
    ensures
        binding == (if name@ == "web_search"@ {
            Some(Binding::Hosted)
        } else {
            None
        }),
{
    if same_text(name, "web_search") {
        Some(Binding::Hosted)
    } else {
        None
    }
}

/// The binding of a tool with Ollama.
pub fn ollama(name: &str) -> (binding: Option<Binding>)
    ensures
        binding == (if name@ == "web_search"@ || name@ == "web_fetch"@ {
            Some(Binding::Function(Executor::Ollama))
        } else {
            None
        }),
{
    if same_text(name, "web_search") || same_text(name, "web_fetch") {
        Some(Binding::Function(Executor::Ollama))
    } else {
        None
    }
}

/// Why a web tool fails.
#[derive(Debug)]
pub enum ToolError {
    MissingQuery,
    MissingUrl,
    /// The address cannot be read; the words of the error.
    InvalidUrl { message: String },
    Scheme,
    NoHost,
    NoPort,
    UnsupportedTool { name: String },
    /// The answer of Ollama to a tool is not JSON.
    UndecodedResult { name: String },
    /// The answer of the search is not JSON; the words of the error.
    InvalidAnswer { message: String },
    NoResult,
    NoKey,
    NoAddress,
    PrivateAddress { address: String },
    NoLocation,
    TimedOut,
    TooLarge,
    TooManyRedirects,
    /// The status of an answer is an error; the words of it.
    Status { message: String },
    Conversion,
    TooNested,
}

impl ToolError {
    /// What the model is told.
    pub open spec fn words(self) -> Seq<char> {
        match self {
            ToolError::MissingQuery => "web_search requires string property `query`"@,
            ToolError::MissingUrl => "web_fetch requires string property `url`"@,
            ToolError::InvalidUrl { message } => message@,
            ToolError::Scheme => "web_fetch only supports HTTP and HTTPS"@,
            ToolError::NoHost => "web_fetch URL has no host"@,
            ToolError::NoPort => "URL has no known port"@,
            ToolError::UnsupportedTool { name } => "unsupported Ollama tool "@ + name@,
            ToolError::UndecodedResult { name } => "failed to decode Ollama "@ + name@ + " result"@,
            ToolError::InvalidAnswer { message } => message@,
            ToolError::NoResult => "Exa returned no textual search result"@,
            ToolError::NoKey => "Ollama API key is unavailable"@,
            ToolError::NoAddress => "web_fetch host resolved to no addresses"@,
            ToolError::PrivateAddress { address } => "web_fetch refuses non-public address "@
                + address@,
            ToolError::NoLocation => "redirect response omitted Location"@,
            ToolError::TimedOut => "web_fetch timed out"@,
            ToolError::TooLarge => "web_fetch response exceeds 5242880 bytes"@,
            ToolError::TooManyRedirects => "web_fetch exceeded 5 redirects"@,
            ToolError::Status { message } => message@,
            ToolError::Conversion => "failed to convert fetched HTML to Markdown"@,
            ToolError::TooNested => "web_fetch page is nested too deeply"@,
        }
    }

    /// What the model is told.
    pub fn message(&self) -> (text: String)
        ensures
            text@ == self.words(),
    {
        match self {
            ToolError::MissingQuery => "web_search requires string property `query`".to_owned(),
            ToolError::MissingUrl => "web_fetch requires string property `url`".to_owned(),
            ToolError::InvalidUrl { message } => message.clone(),
            ToolError::Scheme => "web_fetch only supports HTTP and HTTPS".to_owned(),
            ToolError::NoHost => "web_fetch URL has no host".to_owned(),
            ToolError::NoPort => "URL has no known port".to_owned(),
            ToolError::UnsupportedTool { name } => {
                concat2("unsupported Ollama tool ", name.as_str())
            },
            ToolError::UndecodedResult { name } => {
                concat3("failed to decode Ollama ", name.as_str(), " result")
            },
            ToolError::InvalidAnswer { message } => message.clone(),
            ToolError::NoResult => "Exa returned no textual search result".to_owned(),
            ToolError::NoKey => "Ollama API key is unavailable".to_owned(),
            ToolError::NoAddress => "web_fetch host resolved to no addresses".to_owned(),
            ToolError::PrivateAddress { address } => {
                concat2("web_fetch refuses non-public address ", address.as_str())
            },
            ToolError::NoLocation => "redirect response omitted Location".to_owned(),
            ToolError::TimedOut => "web_fetch timed out".to_owned(),
            ToolError::TooLarge => "web_fetch response exceeds 5242880 bytes".to_owned(),
            ToolError::TooManyRedirects => "web_fetch exceeded 5 redirects".to_owned(),
            ToolError::Status { message } => message.clone(),
            ToolError::Conversion => "failed to convert fetched HTML to Markdown".to_owned(),
            ToolError::TooNested => "web_fetch page is nested too deeply".to_owned(),
        }
    }
}

/// Where a search is asked, with a key or without one.
pub open spec fn search_url(key: Option<Seq<char>>) -> Option<Seq<char>> {
    match key {
        Some(key) if !blank(key) => url_with_pairs(
            "https://mcp.exa.ai/mcp"@,
            Seq::empty().push(("exaApiKey"@, trimmed(key))),
        ),
        _ => Some("https://mcp.exa.ai/mcp"@),
    }
}

/// Where a search is asked. A key that is blank is none.
pub fn exa_url(key: &Option<String>) -> (url: Option<String>)
    ensures
        match url {
            Some(url) => search_url(view_option(*key)) == Some(url@),
            None => search_url(view_option(*key)) is None,
        },
{
    match key {
        Some(key) => {
            if is_blank(key.as_str()) {
                return Some("https://mcp.exa.ai/mcp".to_owned());
            }
            let mut pairs: Vec<(String, String)> = Vec::new();
            pairs.push(("exaApiKey".to_owned(), trim(key.as_str())));
            proof {
                reveal_strlit("https://mcp.exa.ai/mcp");
                assert(pair_views(pairs@) =~= Seq::empty().push(("exaApiKey"@, trimmed(key@))));
            }
            build_url("https://mcp.exa.ai/mcp", &pairs)
        },
        None => Some("https://mcp.exa.ai/mcp".to_owned()),
    }
}

/// How many results are asked for: five, or as many as the arguments say, one at
/// least and ten at most.
pub open spec fn result_count(arguments: JsonView) -> int {
    match arguments.field("max_results"@).as_u64() {
        None => 5,
        Some(count) => if count < 1 {
            1
        } else if count > 10 {
            10
        } else {
            count as int
        },
    }
}

/// The body of a search request.
pub open spec fn search_body(query: Seq<char>, count: int) -> JsonView {
    JsonView::object().with_text("jsonrpc"@, "2.0"@).with("id"@, JsonView::Integer(1)).with_text(
        "method"@,
        "tools/call"@,
    ).with(
        "params"@,
        JsonView::object().with_text("name"@, "web_search_exa"@).with(
            "arguments"@,
            JsonView::object().with_text("query"@, query).with_text("type"@, "auto"@).with(
                "numResults"@,
                JsonView::Integer(count),
            ).with_text("livecrawl"@, "fallback"@),
        ),
    )
}

/// The body of a search request.
pub fn exa_request(arguments: &Json) -> (result: Result<Json, ToolError>)
    ensures
        match arguments@.str_field("query"@) {
            Some(query) => result matches Ok(body) && body@ == search_body(
                query,
                result_count(arguments@),
            ),
            None => result matches Err(ToolError::MissingQuery),
        },
{
    let query = match arguments.str_field("query") {
        Some(query) => query,
        None => {
            return Err(ToolError::MissingQuery);
        },
    };
    let count: u64 = match arguments.field("max_results").as_u64() {
        None => 5,
        Some(count) => if count < 1 {
            1
        } else if count > 10 {
            10
        } else {
            count
        },
    };
    Ok(
        Json::object().with_text("jsonrpc", "2.0").with("id", Json::Integer(1)).with_text(
            "method",
            "tools/call",
        ).with(
            "params",
            Json::object().with_text("name", "web_search_exa").with(
                "arguments",
                Json::object().with_text("query", query).with_text("type", "auto").with(
                    "numResults",
                    Json::Integer(count as i128),
                ).with_text("livecrawl", "fallback"),
            ),
        ),
    )
}

/// The first text among the items from `from` on.
pub open spec fn first_text(items: Seq<JsonView>, from: nat) -> Option<Seq<char>>
    decreases items.len() - from,
{
    if from >= items.len() {
        None
    } else {
        match items[from as int].str_field("text"@) {
            Some(text) => Some(text),
            None => first_text(items, from + 1),
        }
    }
}

/// The text of the result that a payload holds.
pub open spec fn payload_text(payload: JsonView) -> Option<Seq<char>> {
    match payload.field("result"@).field("content"@).as_array() {
        Some(items) => first_text(items, 0),
        None => None,
    }
}

/// What a search answered: the first text among the payloads from `from` on. A
/// payload that looks like JSON and is not spoils the answer; the words of what is
/// wrong with it come out then.
pub open spec fn search_answer(payloads: Seq<Seq<char>>, from: nat) -> Result<
    Option<Seq<char>>,
    Seq<char>,
>
    decreases payloads.len() - from,
{
    if from >= payloads.len() {
        Ok(None)
    } else if !has_prefix(payloads[from as int], "{"@) {
        search_answer(payloads, from + 1)
    } else {
        match json_read(payloads[from as int]) {
            Err(words) => Err(words),
            Ok(value) => match payload_text(value) {
                Some(text) => Ok(Some(text)),
                None => search_answer(payloads, from + 1),
            },
        }
    }
}

/// The data of those of the first `count` lines that carry some.
pub open spec fn data_lines(all: Seq<Seq<char>>, count: nat) -> Seq<Seq<char>>
    decreases count,
{
    if count == 0 {
        Seq::empty()
    } else {
        let before = data_lines(all, (count - 1) as nat);
        match after_prefix(all[count - 1], "data: "@) {
            Some(data) => before.push(data),
            None => before,
        }
    }
}

/// What an answer may hold: itself, and the data of its lines.
pub open spec fn answer_payloads(body: Seq<char>) -> Seq<Seq<char>> {
    seq![trimmed(body)] + data_lines(lines(body), lines(body).len())
}

fn find_text(items: &Vec<Json>) -> (text: Option<String>)
    ensures
        match text {
            Some(text) => first_text(json_views(items@), 0) == Some(text@),
            None => first_text(json_views(items@), 0) is None,
        },
{
    let mut i: usize = 0;
    while i < items.len()
        invariant
            i <= items.len(),
            first_text(json_views(items@), 0) == first_text(json_views(items@), i as nat),
        decreases items.len() - i,
    {
        assert(json_views(items@)[i as int] == items[i as int]@);
        match items[i].str_field("text") {
            Some(text) => {
                return Some(text.to_owned());
            },
            None => {},
        }
        i += 1;
    }
    None
}

/// The text that a search answered.
pub fn exa_text(body: &str) -> (result: Result<String, ToolError>)
    ensures
        match search_answer(answer_payloads(body@), 0) {
            Ok(Some(text)) => result matches Ok(found) && found@ == text,
            Ok(None) => result matches Err(ToolError::NoResult),
            Err(words) => result matches Err(ToolError::InvalidAnswer { message }) && message@
                == words,
        },
{
    let mut payloads: Vec<String> = Vec::new();
    payloads.push(trim(body));
    let all = text_lines(body);
    let mut i: usize = 0;
    assert(views(payloads@) =~= seq![trimmed(body@)] + data_lines(lines(body@), 0));
    while i < all.len()
        invariant
            i <= all.len(),
            views(all@) == lines(body@),
            views(payloads@) == seq![trimmed(body@)] + data_lines(lines(body@), i as nat),
        decreases all.len() - i,
    {
        assert(views(all@)[i as int] == all[i as int]@);
        match strip_prefix(all[i].as_str(), "data: ") {
            Some(data) => {
                let ghost before = views(payloads@);
                let ghost text = data@;
                payloads.push(data);
                assert(views(payloads@) =~= before.push(text));
                assert(seq![trimmed(body@)] + data_lines(lines(body@), i as nat).push(text) =~= (
                seq![trimmed(body@)] + data_lines(lines(body@), i as nat)).push(text));
            },
            None => {},
        }
        i += 1;
    }
    let mut k: usize = 0;
    while k < payloads.len()
        invariant
            k <= payloads.len(),
            views(payloads@) == answer_payloads(body@),
            search_answer(answer_payloads(body@), 0) == search_answer(
                answer_payloads(body@),
                k as nat,
            ),
        decreases payloads.len() - k,
    {
        assert(answer_payloads(body@)[k as int] == payloads[k as int]@);
        if starts_with(payloads[k].as_str(), "{") {
            match Json::read(payloads[k].as_str()) {
                Err(message) => {
                    return Err(ToolError::InvalidAnswer { message });
                },
                Ok(value) => {
                    let content = value.nested("result", "content");
                    match content.as_array() {
                        Some(items) => match find_text(items) {
                            Some(text) => {
                                return Ok(text);
                            },
                            None => {},
                        },
                        None => {},
                    }
                },
            }
        }
        k += 1;
    }
    Err(ToolError::NoResult)
}

/// Where a tool of Ollama is called.
pub fn ollama_path(name: &str) -> (result: Result<&'static str, ToolError>)
    ensures
        if name@ == "web_search"@ {
            result matches Ok(path) && path@ == "web_search"@
        } else if name@ == "web_fetch"@ {
            result matches Ok(path) && path@ == "web_fetch"@
        } else {
            result matches Err(ToolError::UnsupportedTool { name: n }) && n@ == name@
        },
{
    if same_text(name, "web_search") {
        Ok("web_search")
    } else if same_text(name, "web_fetch") {
        Ok("web_fetch")
    } else {
        Err(ToolError::UnsupportedTool { name: name.to_owned() })
    }
}

/// What a tool of Ollama gives, from what the service answers.
pub fn ollama_answer(name: &str, body: &[u8]) -> (result: Result<Json, ToolError>)
    ensures
        match result {
            Ok(value) => valid_utf8(body@) && parsed(decode_utf8(body@)) == Some(value@),
            Err(error) => (error matches ToolError::UndecodedResult { name: n } && n@ == name@)
                && (!valid_utf8(body@) || parsed(decode_utf8(body@)) is None),
        },
{
    let value = match utf8_text(body) {
        Some(text) => Json::parse(text.as_str()),
        None => None,
    };
    match value {
        Some(value) => Ok(value),
        None => Err(ToolError::UndecodedResult { name: name.to_owned() }),
    }
}

/// The parts of an address that a fetch reads.
#[derive(Debug)]
pub struct Address {
    pub scheme: String,
    pub host: Option<String>,
    /// The port, be it written or that of the scheme.
    pub port: Option<u16>,
    /// The whole address as it is written in full.
    pub text: String,
}

/// What an [`Address`] stands for.
pub struct AddressView {
    pub scheme: Seq<char>,
    pub host: Option<Seq<char>>,
    pub port: Option<u16>,
    pub text: Seq<char>,
}

impl View for Address {
    type V = AddressView;

    open spec fn view(&self) -> AddressView {
        AddressView {
            scheme: self.scheme@,
            host: view_option(self.host),
            port: self.port,
            text: self.text@,
        }
    }
}

/// What an address or the words of an error stand for.
pub open spec fn address_view(result: Result<Address, String>) -> Result<AddressView, Seq<char>> {
    match result {
        Ok(address) => Ok(address@),
        Err(words) => Err(words@),
    }
}

/// The address that a text holds, or the words of the error where it holds none.
pub uninterp spec fn address_of(text: Seq<char>) -> Result<AddressView, Seq<char>>;

/// Where a location leads from an address, or the words of the error where it
/// leads nowhere.
pub uninterp spec fn joined_address(base: Seq<char>, location: Seq<char>) -> Result<
    AddressView,
    Seq<char>,
>;

/// `reqwest::Url::parse`, with `scheme`, `host_str`, `port_or_known_default` and
/// `as_str` of the result. Believed: whether it fails and with which words, and the
/// parts otherwise, depend on the text alone.
#[verifier::external_body]
fn read_address(text: &str) -> (result: Result<Address, String>)
    ensures
        address_view(result) == address_of(text@),
{
    let url = reqwest::Url::parse(text).map_err(|error| error.to_string())?;
    Ok(Address {
        scheme: url.scheme().to_owned(),
        host: url.host_str().map(str::to_owned),
        port: url.port_or_known_default(),
        text: url.into(),
    })
}

/// `join` of the `reqwest::Url` that `reqwest::Url::parse` reads from `base`, with
/// the same parts of the result. Believed: whether one of the two fails and with
/// which words, and the parts otherwise, depend on the two texts alone.
#[verifier::external_body]
fn join_address(base: &str, location: &str) -> (result: Result<Address, String>)
    ensures
        address_view(result) == joined_address(base@, location@),
{
    let base = reqwest::Url::parse(base).map_err(|error| error.to_string())?;
    let url = base.join(location).map_err(|error| error.to_string())?;
    Ok(Address {
        scheme: url.scheme().to_owned(),
        host: url.host_str().map(str::to_owned),
        port: url.port_or_known_default(),
        text: url.into(),
    })
}

/// What is fetched: from which host, at which port, and by which address.
#[derive(Debug)]
pub struct FetchTarget {
    pub host: String,
    pub port: u16,
    pub url: String,
}

/// Whether a result of judging an address is the right one: only HTTP and HTTPS
/// are fetched, and only from a host and a port.
pub open spec fn judged(address: AddressView, result: Result<FetchTarget, ToolError>) -> bool {
    if address.scheme != "http"@ && address.scheme != "https"@ {
        result matches Err(ToolError::Scheme)
    } else {
        match (address.host, address.port) {
            (None, _) => result matches Err(ToolError::NoHost),
            (Some(_), None) => result matches Err(ToolError::NoPort),
            (Some(host), Some(port)) => result matches Ok(target) && target.host@ == host
                && target.port == port && target.url@ == address.text,
        }
    }
}

/// Whether a result of reading and judging an address is the right one.
pub open spec fn targeted(
    address: Result<AddressView, Seq<char>>,
    result: Result<FetchTarget, ToolError>,
) -> bool {
    match address {
        Err(words) => result matches Err(ToolError::InvalidUrl { message }) && message@ == words,
        Ok(address) => judged(address, result),
    }
}

/// What is fetched for an address.
pub fn judge_address(address: Address) -> (result: Result<FetchTarget, ToolError>)
    ensures
        judged(address@, result),
{
    if !same_text(address.scheme.as_str(), "http") && !same_text(
        address.scheme.as_str(),
        "https",
    ) {
        return Err(ToolError::Scheme);
    }
    match (address.host, address.port) {
        (None, _) => Err(ToolError::NoHost),
        (Some(_), None) => Err(ToolError::NoPort),
        (Some(host), Some(port)) => Ok(FetchTarget { host, port, url: address.text }),
    }
}

/// What is fetched for the arguments of a call.
pub fn fetch_target(arguments: &Json) -> (result: Result<FetchTarget, ToolError>)
    ensures
        match arguments@.str_field("url"@) {
            None => result matches Err(ToolError::MissingUrl),
            Some(url) => targeted(address_of(url), result),
        },
{
    match arguments.str_field("url") {
        None => Err(ToolError::MissingUrl),
        Some(url) => match read_address(url) {
            Err(message) => Err(ToolError::InvalidUrl { message }),
            Ok(address) => judge_address(address),
        },
    }
}

/// What is fetched where an answer leads from `current` to `location`.
pub fn redirect_target(current: &str, location: &str) -> (result: Result<FetchTarget, ToolError>)
    ensures
        targeted(joined_address(current@, location@), result),
{
    match join_address(current, location) {
        Err(message) => Err(ToolError::InvalidUrl { message }),
        Ok(address) => judge_address(address),
    }
}

/// The address of a host.
#[derive(Clone, Copy, Debug, PartialEq, Eq, Structural)]
pub enum IpAddress {
    V4(u8, u8, u8, u8),
    V6(u16, u16, u16, u16, u16, u16, u16, u16),
}

/// Whether an address of four bytes can be reached from everywhere.
pub open spec fn public_v4(a: u8, b: u8, c: u8, d: u8) -> bool {
    let private = a == 10 || a == 172 && 16 <= b <= 31 || a == 192 && b == 168;
    let loopback = a == 127;
    let link_local = a == 169 && b == 254;
    let broadcast = a == 255 && b == 255 && c == 255 && d == 255;
    let documentation = a == 192 && b == 0 && c == 2 || a == 198 && b == 51 && c == 100 || a == 203
        && b == 0 && c == 113;
    let unspecified = a == 0 && b == 0 && c == 0 && d == 0;
    let multicast = 224 <= a <= 239;
    !(private || loopback || link_local || broadcast || documentation || unspecified || multicast)
}

/// Whether an address can be reached from everywhere. One that stands for an
/// address of four bytes is judged as that.
pub open spec fn public(address: IpAddress) -> bool {
    match address {
        IpAddress::V4(a, b, c, d) => public_v4(a, b, c, d),
        IpAddress::V6(a, b, c, d, e, f, g, h) => {
            let head = a == 0 && b == 0 && c == 0 && d == 0 && e == 0;
            if head && f == 0xffff {
                public_v4((g / 256) as u8, (g % 256) as u8, (h / 256) as u8, (h % 256) as u8)
            } else {
                let loopback = head && f == 0 && g == 0 && h == 1;
                let unspecified = head && f == 0 && g == 0 && h == 0;
                let multicast = a >= 0xff00;
                let unique_local = 0xfc00 <= a <= 0xfdff;
                let link_local = 0xfe80 <= a <= 0xfebf;
                !(loopback || unspecified || multicast || unique_local || link_local)
            }
        },
    }
}

fn is_public_v4(a: u8, b: u8, c: u8, d: u8) -> (result: bool)
    ensures
        result == public_v4(a, b, c, d),
{
    let private = a == 10 || a == 172 && 16 <= b && b <= 31 || a == 192 && b == 168;
    let loopback = a == 127;
    let link_local = a == 169 && b == 254;
    let broadcast = a == 255 && b == 255 && c == 255 && d == 255;
    let documentation = a == 192 && b == 0 && c == 2 || a == 198 && b == 51 && c == 100 || a == 203
        && b == 0 && c == 113;
    let unspecified = a == 0 && b == 0 && c == 0 && d == 0;
    let multicast = 224 <= a && a <= 239;
    !(private || loopback || link_local || broadcast || documentation || unspecified || multicast)
}

/// Whether an address can be reached from everywhere.
pub fn public_ip(address: IpAddress) -> (result: bool)
    ensures
        result == public(address),
{
    match address {
        IpAddress::V4(a, b, c, d) => is_public_v4(a, b, c, d),
        IpAddress::V6(a, b, c, d, e, f, g, h) => {
            let head = a == 0 && b == 0 && c == 0 && d == 0 && e == 0;
            if head && f == 0xffff {
                return is_public_v4(
                    (g / 256) as u8,
                    (g % 256) as u8,
                    (h / 256) as u8,
                    (h % 256) as u8,
                );
            }
            let loopback = head && f == 0 && g == 0 && h == 1;
            let unspecified = head && f == 0 && g == 0 && h == 0;
            let multicast = a >= 0xff00;
            let unique_local = 0xfc00 <= a && a <= 0xfdff;
            let link_local = 0xfe80 <= a && a <= 0xfebf;
            !(loopback || unspecified || multicast || unique_local || link_local)
        },
    }
}

/// Writing an address of four bytes in the long form does not make it public.
pub proof fn law_mapped_address_is_judged_alike(a: u8, b: u8, c: u8, d: u8)
    ensures
        public(
            IpAddress::V6(
                0,
                0,
                0,
                0,
                0,
                0xffff,
                (a * 256 + b) as u16,
                (c * 256 + d) as u16,
            ),
        ) == public(IpAddress::V4(a, b, c, d)),
{
}

/// Whether a host can be fetched from: it has addresses, and all of them can be
/// reached from everywhere. Each address is given with how it is written.
pub fn check_addresses(addresses: &Vec<(IpAddress, String)>) -> (result: Result<(), ToolError>)
    ensures
        if addresses@.len() == 0 {
            result matches Err(ToolError::NoAddress)
        } else if forall|i: int| 0 <= i < addresses@.len() ==> public((#[trigger] addresses@[i]).0) {
            result is Ok
        } else {
            result matches Err(ToolError::PrivateAddress { address }) && exists|i: int|
                0 <= i < addresses@.len() && !public((#[trigger] addresses@[i]).0) && address@
                    == addresses@[i].1@ && forall|k: int|
                    0 <= k < i ==> public((#[trigger] addresses@[k]).0)
        },
{
    if addresses.len() == 0 {
        return Err(ToolError::NoAddress);
    }
    let mut i: usize = 0;
    while i < addresses.len()
        invariant
            i <= addresses.len(),
            forall|k: int| 0 <= k < i ==> public((#[trigger] addresses@[k]).0),
        decreases addresses.len() - i,
    {
        if !public_ip(addresses[i].0) {
            let address = addresses[i].1.clone();
            assert(!public(addresses@[i as int].0));
            return Err(ToolError::PrivateAddress { address });
        }
        i += 1;
    }
    Ok(())
}

/// What a server answered to a fetch.
#[derive(Debug)]
pub struct FetchResponse {
    pub status: u16,
    /// What is told of the status where it is an error.
    pub refusal: String,
    pub location: Option<String>,
    pub content_length: Option<u64>,
}

/// What is done next for a fetch.
#[derive(Debug)]
pub enum FetchAction {
    /// The other address is fetched.
    Redirect { target: FetchTarget },
    /// The answer is read.
    Read,
}

/// What is done after an answer to the fetch of `current`, where so many redirects
/// came before it. Where an answer leads is read even where it is not followed.
pub fn fetch_step(redirects: usize, current: &str, response: FetchResponse) -> (result: Result<
    FetchAction,
    ToolError,
>)
    ensures
        if 300 <= response.status <= 399 {
            match response.location {
                None => result matches Err(ToolError::NoLocation),
                Some(location) => match joined_address(current@, location@) {
                    Err(words) => result matches Err(ToolError::InvalidUrl { message }) && message@
                        == words,
                    Ok(address) => if redirects >= MAX_REDIRECTS {
                        result matches Err(ToolError::TooManyRedirects)
                    } else {
                        match result {
                            Ok(FetchAction::Redirect { target }) => judged(address, Ok(target)),
                            Ok(FetchAction::Read) => false,
                            Err(error) => judged(address, Err(error)),
                        }
                    },
                },
            }
        } else if response.status == 408 {
            result matches Err(ToolError::TimedOut)
        } else if 400 <= response.status <= 599 {
            result matches Err(ToolError::Status { message }) && message == response.refusal
        } else if response.content_length matches Some(length) && length > MAX_FETCH_BYTES {
            result matches Err(ToolError::TooLarge)
        } else {
            result matches Ok(FetchAction::Read)
        },
{
    if 300 <= response.status && response.status <= 399 {
        return match response.location {
            None => Err(ToolError::NoLocation),
            Some(location) => {
                if redirects < MAX_REDIRECTS {
                    match redirect_target(current, location.as_str()) {
                        Ok(target) => Ok(FetchAction::Redirect { target }),
                        Err(error) => Err(error),
                    }
                } else {
                    match join_address(current, location.as_str()) {
                        Ok(_) => Err(ToolError::TooManyRedirects),
                        Err(message) => Err(ToolError::InvalidUrl { message }),
                    }
                }
            },
        };
    }
    if response.status == 408 {
        return Err(ToolError::TimedOut);
    }
    if 400 <= response.status && response.status <= 599 {
        return Err(ToolError::Status { message: response.refusal });
    }
    match response.content_length {
        Some(length) => {
            if length > MAX_FETCH_BYTES as u64 {
                return Err(ToolError::TooLarge);
            }
        },
        None => {},
    }
    Ok(FetchAction::Read)
}

/// A page as Markdown; none where it cannot be converted.
pub uninterp spec fn markdown(html: Seq<char>) -> Option<Seq<char>>;

/// `htmd::convert`. Believed: whether it fails, and the text otherwise, depend on
/// the page alone. The converter calls itself for each level of the elements, so a
/// page that nests deeply is left out: at the depth that is admitted its calls fit
/// into a stack of two mebibytes, which threads have by default.
#[verifier::external_body]
fn convert_html(html: &str) -> (text: Option<String>)
    requires
        nesting(html@) <= MAX_NESTING,
    ensures
        match text {
            Some(text) => markdown(html@) == Some(text@),
            None => markdown(html@) is None,
        },
{
    htmd::convert(html).ok()
}

/// The result of a fetch.
pub open spec fn page(url: Seq<char>, content_type: Seq<char>, text: Seq<char>) -> JsonView {
    JsonView::object().with_text("url"@, url).with_text("content_type"@, content_type).with_text(
        "markdown"@,
        text,
    )
}

/// The result of a fetch from a text that was read, or that was converted where
/// it is a page.
pub fn fetched_page(url: &str, content_type: &str, text: &str) -> (result: Json)
    ensures
        result@ == page(url@, content_type@, text@),
{
    Json::object().with_text("url", url).with_text("content_type", content_type).with_text(
        "markdown",
        text,
    )
}

/// The result of a fetch: a page is converted to Markdown, unless it nests too
/// deeply for that.
pub fn fetch_result(url: &str, content_type: &str, bytes: &[u8]) -> (result: Result<Json, ToolError>)
    ensures
        if bytes@.len() > MAX_FETCH_BYTES {
            result matches Err(ToolError::TooLarge)
        } else if !holds(content_type@, "text/html"@) {
            result matches Ok(value) && value@ == page(url@, content_type@, lossy(bytes@))
        } else if nesting(lossy(bytes@)) > MAX_NESTING {
            result matches Err(ToolError::TooNested)
        } else {
            match markdown(lossy(bytes@)) {
                Some(text) => result matches Ok(value) && value@ == page(url@, content_type@, text),
                None => result matches Err(ToolError::Conversion),
            }
        },
{
    if bytes.len() > MAX_FETCH_BYTES {
        return Err(ToolError::TooLarge);
    }
    let text = lossy_text(bytes);
    if contains_part(content_type, "text/html") {
        if nesting_of(text.as_str()) > MAX_NESTING {
            return Err(ToolError::TooNested);
        }
        match convert_html(text.as_str()) {
            Some(text) => Ok(fetched_page(url, content_type, text.as_str())),
            None => Err(ToolError::Conversion),
        }
    } else {
        Ok(fetched_page(url, content_type, text.as_str()))
    }
}

/// Which tool each provider has, and who does it.
pub proof fn law_tools_are_done_by_their_provider(
    name: &str,
    hosted: Option<Binding>,
    done: Option<Binding>,
    path: Result<&'static str, ToolError>,
)
    requires
        call_ensures(codex, (name,), hosted),
        call_ensures(ollama, (name,), done),
        call_ensures(ollama_path, (name,), path),
    ensures
        hosted is Some <==> name@ == "web_search"@,
        hosted matches Some(binding) ==> binding is Hosted,
        done is Some <==> name@ == "web_search"@ || name@ == "web_fetch"@,
        done matches Some(binding) ==> binding == Binding::Function(Executor::Ollama),
        path is Ok <==> done is Some,
        path matches Ok(found) ==> found@ == name@,
        path matches Err(ToolError::UnsupportedTool { name: told }) ==> told@ == name@,
        path matches Err(error) ==> error is UnsupportedTool,
{
    reveal_strlit("web_search");
    reveal_strlit("web_fetch");
    assert("web_search"@.len() == 10 && "web_fetch"@.len() == 9);
}

/// A search asks for as many results as are wanted, of one to ten, and for five where
/// that is not said; it asks for what is searched.
pub proof fn law_search_asks_for_what_is_wanted(arguments: JsonView, query: Seq<char>)
    ensures
        1 <= result_count(arguments) <= 10,
        arguments.field("max_results"@).as_u64() is None ==> result_count(arguments) == 5,
        arguments.field("max_results"@).as_u64() matches Some(count) ==> (1 <= count <= 10
            ==> result_count(arguments) == count) && (count > 10 ==> result_count(arguments) == 10)
            && (count == 0 ==> result_count(arguments) == 1),
        ({
            let body = search_body(query, result_count(arguments));
            let params = body.field("params"@);
            &&& body.str_field("method"@) == Some("tools/call"@)
            &&& params.str_field("name"@) == Some("web_search_exa"@)
            &&& params.field("arguments"@).str_field("query"@) == Some(query)
            &&& params.field("arguments"@).field("numResults"@) == JsonView::Integer(
                result_count(arguments),
            )
        }),
{
    broadcast use crate::json::lemma_with, crate::json::lemma_no_fields;

    reveal_strlit("jsonrpc");
    reveal_strlit("id");
    reveal_strlit("method");
    reveal_strlit("params");
    reveal_strlit("name");
    reveal_strlit("arguments");
    reveal_strlit("query");
    reveal_strlit("type");
    reveal_strlit("numResults");
    reveal_strlit("livecrawl");
    assert("jsonrpc"@.len() == 7 && "id"@.len() == 2 && "method"@.len() == 6 && "params"@.len() == 6 && "name"@.len() == 4 && "arguments"@.len() == 9 && "query"@.len() == 5 && "type"@.len() == 4 && "numResults"@.len() == 10 && "livecrawl"@.len() == 9);
    assert("method"@[0] != "params"@[0]);
    assert("name"@[0] != "type"@[0]);
    assert("arguments"@[0] != "livecrawl"@[0]);
}

/// The result of a search is the first text that the answer holds.
pub proof fn law_search_result_is_the_first(items: Seq<JsonView>, from: nat, i: int)
    requires
        from <= i < items.len(),
        items[i].str_field("text"@) is Some,
        forall|j: int| from <= j < i ==> (#[trigger] items[j]).str_field("text"@) is None,
    ensures
        first_text(items, from) == items[i].str_field("text"@),
    decreases items.len() - from,
{
    if from < i {
        assert(items[from as int].str_field("text"@) is None);
        law_search_result_is_the_first(items, from + 1, i);
    }
}

/// Parts of an answer that are no object are passed over, and so are those without a
/// text; one that cannot be read ends the search.
pub proof fn law_answer_is_searched_in_order(payloads: Seq<Seq<char>>, from: nat, i: int)
    requires
        from <= i < payloads.len(),
        forall|j: int|
            from <= j < i ==> !has_prefix(#[trigger] payloads[j], "{"@) || (json_read(
                payloads[j],
            ) matches Ok(value) && payload_text(value) is None),
        has_prefix(payloads[i], "{"@),
    ensures
        json_read(payloads[i]) matches Err(words) ==> search_answer(payloads, from) == Err::<
            Option<Seq<char>>,
            Seq<char>,
        >(words),
        json_read(payloads[i]) matches Ok(value) ==> (payload_text(value) matches Some(text)
            ==> search_answer(payloads, from) == Ok::<Option<Seq<char>>, Seq<char>>(Some(text))),
    decreases payloads.len() - from,
{
    if from < i {
        let payload = payloads[from as int];
        assert(!has_prefix(payload, "{"@) || (json_read(payload) matches Ok(value)
            && payload_text(value) is None));
        law_answer_is_searched_in_order(payloads, from + 1, i);
    }
}

/// What is fetched: only an address of the web that has a host and a port, as it is
/// written.
pub proof fn law_only_the_web_is_fetched(address: AddressView, result: Result<FetchTarget, ToolError>)
    requires
        judged(address, result),
    ensures
        result is Ok <==> (address.scheme == "http"@ || address.scheme == "https"@)
            && address.host is Some && address.port is Some,
        result matches Ok(target) ==> Some(target.host@) == address.host && Some(target.port)
            == address.port && target.url@ == address.text,
        result matches Err(error) ==> (error is Scheme <==> address.scheme != "http"@
            && address.scheme != "https"@),
        result matches Err(error) ==> error is Scheme || error is NoHost || error is NoPort,
        result matches Err(error) ==> (error is NoPort ==> address.host is Some),
{
}

/// Only public addresses are fetched from: none of the machine, of its network or of a
/// reserved range.
pub proof fn law_only_public_addresses_are_fetched(
    a: u8,
    b: u8,
    c: u8,
    d: u8,
    addresses: Vec<(IpAddress, String)>,
    result: Result<(), ToolError>,
)
    requires
        call_ensures(check_addresses, (&addresses,), result),
    ensures
        !public(IpAddress::V4(127, b, c, d)),
        !public(IpAddress::V4(10, b, c, d)),
        !public(IpAddress::V4(192, 168, c, d)),
        16 <= b <= 31 ==> !public(IpAddress::V4(172, b, c, d)),
        !public(IpAddress::V4(169, 254, c, d)),
        !public(IpAddress::V4(0, 0, 0, 0)),
        !public(IpAddress::V4(255, 255, 255, 255)),
        224 <= a <= 239 ==> !public(IpAddress::V4(a, b, c, d)),
        a == 8 || a == 1 || a == 100 ==> public(IpAddress::V4(a, b, c, d)),
        !public(IpAddress::V6(0, 0, 0, 0, 0, 0, 0, 1)),
        !public(IpAddress::V6(0, 0, 0, 0, 0, 0, 0, 0)),
        result is Ok <==> addresses@.len() > 0 && forall|i: int|
            0 <= i < addresses@.len() ==> public((#[trigger] addresses@[i]).0),
        addresses@.len() == 0 <==> (result matches Err(ToolError::NoAddress)),
        result matches Err(ToolError::PrivateAddress { address }) ==> exists|i: int|
            0 <= i < addresses@.len() && !public((#[trigger] addresses@[i]).0) && address@
                == addresses@[i].1@,
{
}

/// Addresses of the sixth version by their first part: global ones are public, those of
/// a site, of a link and of a group are not.
pub proof fn law_first_part_tells_the_range(a: u16, g: u16, h: u16)
    ensures
        0x2000 <= a <= 0x3fff ==> public(IpAddress::V6(a, 0, 0, 0, 0, 0, g, h)),
        0xfc00 <= a <= 0xfdff ==> !public(IpAddress::V6(a, 0, 0, 0, 0, 0, g, h)),
        0xfe80 <= a <= 0xfebf ==> !public(IpAddress::V6(a, 0, 0, 0, 0, 0, g, h)),
        0xff00 <= a ==> !public(IpAddress::V6(a, 0, 0, 0, 0, 0, g, h)),
{
}

/// What is done with an answer: it is followed where it leads elsewhere, five times at
/// most, read where it is fine and not too large, and refused otherwise.
pub proof fn law_answer_is_followed_or_read(
    redirects: usize,
    current: &str,
    response: FetchResponse,
    result: Result<FetchAction, ToolError>,
)
    requires
        call_ensures(fetch_step, (redirects, current, response), result),
    ensures
        ({
            let elsewhere = 300 <= response.status <= 399;
            let refused = 400 <= response.status <= 599;
            let large = response.content_length is Some && response.content_length->0 > 5_242_880;
            &&& (result matches Ok(FetchAction::Read)) <==> !elsewhere && !refused && !large
            &&& result matches Ok(FetchAction::Redirect { target }) ==> elsewhere && redirects < 5
                && response.location is Some
            &&& elsewhere && response.location is None ==> (
            result matches Err(ToolError::NoLocation))
            &&& elsewhere && redirects >= 5 ==> result is Err
            &&& response.status == 408 ==> (result matches Err(ToolError::TimedOut))
            &&& refused && response.status != 408 ==> (
            result matches Err(ToolError::Status { message }) && message == response.refusal)
            &&& !elsewhere && !refused && large ==> (result matches Err(ToolError::TooLarge))
        }),
{
}

/// A page is given with its address and its kind; one of more bytes than are allowed is
/// refused, and text that is no page is given as it is.
pub proof fn law_page_is_given_with_its_address(
    url: &str,
    content_type: &str,
    bytes: &[u8],
    result: Result<Json, ToolError>,
)
    requires
        call_ensures(fetch_result, (url, content_type, bytes), result),
    ensures
        bytes@.len() > 5_242_880 ==> (result matches Err(ToolError::TooLarge)),
        result matches Ok(value) ==> bytes@.len() <= 5_242_880 && value@.str_field("url"@) == Some(
            url@,
        ) && value@.str_field("content_type"@) == Some(content_type@) && (!holds(
            content_type@,
            "text/html"@,
        ) ==> value@.str_field("markdown"@) == Some(lossy(bytes@))) && (holds(
            content_type@,
            "text/html"@,
        ) ==> value@.str_field("markdown"@) == markdown(lossy(bytes@))),
        bytes@.len() <= 5_242_880 && !holds(content_type@, "text/html"@) ==> result is Ok,
{
    broadcast use crate::json::lemma_with, crate::json::lemma_no_fields;

    reveal_strlit("url");
    reveal_strlit("content_type");
    reveal_strlit("markdown");
    assert("url"@.len() == 3 && "content_type"@.len() == 12 && "markdown"@.len() == 8);
}

/// The address of a search has the key where one is set, and none where it is blank.
pub proof fn law_search_address_has_the_key(key: Seq<char>)
    ensures
        search_url(None) == Some("https://mcp.exa.ai/mcp"@),
        blank(key) ==> search_url(Some(key)) == search_url(None),
        !blank(key) ==> exists|pairs: Seq<(Seq<char>, Seq<char>)>|
            pairs.len() == 1 && pairs[0] == ("exaApiKey"@, trimmed(key)) && search_url(Some(key))
                == #[trigger] url_with_pairs("https://mcp.exa.ai/mcp"@, pairs),
{
    if !blank(key) {
        let pairs = Seq::empty().push(("exaApiKey"@, trimmed(key)));
        assert(search_url(Some(key)) == url_with_pairs("https://mcp.exa.ai/mcp"@, pairs));
    }
}

} // verus!
