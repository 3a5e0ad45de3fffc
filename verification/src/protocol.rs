//! Interpretation of telemetry responses: every response is a JSON object
//! whose key names the command (possibly with a leading space or with the
//! command's parameter) and whose value carries the data.

use vstd::prelude::*;
use std::collections::HashMap;
use crate::model::mempool::MempoolInfo;
use crate::model::port::{LinkStatus, PortInfo, PortStats};
use crate::text::{chars_of, chars_eq, contains, contains_chars, decimal, decimal_chars, trim, trim_chars};

verus! {

/// A JSON value, holding for numbers what this library reads of them.
#[derive(Debug)]
pub enum JsonValue {
    Null,
    Bool(bool),
    /// A number, with its value when it is a non-negative integer that fits
    /// a `u64` (what `serde_json::Value::as_u64` gives), `None` otherwise.
    Number(Option<u64>),
    Str(String),
    Array(Vec<JsonValue>),
    Object(Vec<(String, JsonValue)>),
}

/// Raw `/ethdev/info` fields; each is `None` when the response lacks it.
#[derive(Clone, Debug, Default)]
pub struct EthdevInfoRaw {
    /// `device_name`, or its alias `name`.
    pub device_name: Option<String>,
    pub driver_name: Option<String>,
    pub mac_addr: Option<String>,
    pub mtu: Option<u16>,
    pub link_speed: Option<u32>,
    pub link_status: Option<String>,
    pub dev_started: Option<u8>,
    pub nb_rx_queues: Option<u16>,
    pub nb_tx_queues: Option<u16>,
}

/// Raw `/mempool/info` fields; each is `None` when the response lacks it.
#[derive(Clone, Debug, Default)]
pub struct MempoolInfoRaw {
    pub size: Option<u64>,
    pub count: Option<u64>,
    pub populated_size: Option<u64>,
    pub free_count: Option<u64>,
    pub common_pool_count: Option<u64>,
    pub total_cache_count: Option<u64>,
    pub cache_size: Option<u32>,
    pub elt_size: Option<u32>,
    pub element_size: Option<u32>,
    pub flags: Option<u32>,
}

/// A response was no JSON object, or lacked the entry its command answers
/// with.
#[derive(Clone, Copy, Debug, PartialEq, Eq, Structural)]
pub enum ProtocolError {
    /// A `/ethdev/list` response is no JSON object.
    EthdevListParse,
    /// A `/mempool/list` response is no JSON object.
    MempoolListParse,
    /// A `/ethdev/xstats` response is no JSON object.
    XstatsParse,
    EthdevInfoKeyNotFound,
    EthdevStatsKeyNotFound,
    XstatsKeyNotFound,
    MempoolInfoKeyNotFound,
}

impl ProtocolError {
    /// A short description of the error.
    pub fn message(&self) -> (m: &'static str)
        ensures
            m@ == match *self {
                ProtocolError::EthdevListParse => "Parse /ethdev/list"@,
                ProtocolError::MempoolListParse => "Parse /mempool/list"@,
                ProtocolError::XstatsParse => "Parse xstats"@,
                ProtocolError::EthdevInfoKeyNotFound => "ethdev info key not found"@,
                ProtocolError::EthdevStatsKeyNotFound => "ethdev stats key not found"@,
                ProtocolError::XstatsKeyNotFound => "xstats key not found"@,
                ProtocolError::MempoolInfoKeyNotFound => "mempool info key not found"@,
            },
    {
        match self {
            ProtocolError::EthdevListParse => "Parse /ethdev/list",
            ProtocolError::MempoolListParse => "Parse /mempool/list",
            ProtocolError::XstatsParse => "Parse xstats",
            ProtocolError::EthdevInfoKeyNotFound => "ethdev info key not found",
            ProtocolError::EthdevStatsKeyNotFound => "ethdev stats key not found",
            ProtocolError::XstatsKeyNotFound => "xstats key not found",
            ProtocolError::MempoolInfoKeyNotFound => "mempool info key not found",
        }
    }
}

/// How an entry's key is tested when looking up a response entry.
pub enum KeyTest {
    /// The key equals the text.
    Exact(Vec<char>),
    /// The key contains the text.
    Contains(Vec<char>),
    /// The key, trimmed of surrounding whitespace, contains the text.
    TrimmedContains(Vec<char>),
}

/// The predicate a key test stands for.
pub open spec fn key_pred(t: KeyTest) -> spec_fn(Seq<char>) -> bool {
    match t {
        KeyTest::Exact(p) => |k: Seq<char>| k == p@,
        KeyTest::Contains(p) => |k: Seq<char>| contains(k, p@),
        KeyTest::TrimmedContains(p) => |k: Seq<char>| contains(trim(k), p@),
    }
}

/// The value of the first entry whose key satisfies `pred`.
pub open spec fn lookup<V>(entries: Seq<(String, V)>, pred: spec_fn(Seq<char>) -> bool) -> Option<V>
    decreases entries.len(),
{
    if entries.len() == 0 {
        None
    } else if pred(entries[0].0@) {
        Some(entries[0].1)
    } else {
        lookup(entries.drop_first(), pred)
    }
}

/// Keys equal to `key`.
pub open spec fn key_is(key: Seq<char>) -> spec_fn(Seq<char>) -> bool {
    |k: Seq<char>| k == key
}

/// Keys that contain `text`.
pub open spec fn key_contains(text: Seq<char>) -> spec_fn(Seq<char>) -> bool {
    |k: Seq<char>| contains(k, text)
}

/// Keys that contain `text` once surrounding whitespace is trimmed.
pub open spec fn key_trimmed_contains(text: Seq<char>) -> spec_fn(Seq<char>) -> bool {
    |k: Seq<char>| contains(trim(k), text)
}

/// The entry that an exact key names, or failing that the first entry
/// whose key passes the fallback test.
pub open spec fn lookup_or<V>(
    entries: Seq<(String, V)>,
    key: Seq<char>,
    fallback: spec_fn(Seq<char>) -> bool,
) -> Option<V> {
    match lookup(entries, key_is(key)) {
        Some(v) => Some(v),
        None => lookup(entries, fallback),
    }
}

fn key_matches(key: &str, test: &KeyTest) -> (r: bool)
    ensures
        r == (key_pred(*test))(key@),
{
    let k = chars_of(key);
    match test {
        KeyTest::Exact(p) => chars_eq(&k, p),
        KeyTest::Contains(p) => contains_chars(&k, p),
        KeyTest::TrimmedContains(p) => {
            let t = trim_chars(&k);
            contains_chars(&t, p)
        },
    }
}

/// Index of the first entry whose key passes `test`.
pub fn find_entry<V>(entries: &Vec<(String, V)>, test: &KeyTest) -> (r: Option<usize>)
    ensures
        match r {
            Some(i) => i < entries@.len() && lookup(entries@, key_pred(*test)) == Some(entries@[i as int].1),
            None => lookup(entries@, key_pred(*test)) == None::<V>,
        },
{
    let mut i: usize = 0;
    assert(entries@.skip(0) =~= entries@);
    while i < entries.len()
        invariant
            i <= entries@.len(),
            lookup(entries@, key_pred(*test)) == lookup(entries@.skip(i as int), key_pred(*test)),
        decreases entries@.len() - i,
    {
        assert(entries@.skip(i as int)[0] == entries@[i as int]);
        if key_matches(entries[i].0.as_str(), test) {
            return Some(i);
        }
        assert(entries@.skip(i as int).drop_first() =~= entries@.skip(i + 1));
        i = i + 1;
    }
    None
}

proof fn lemma_key_preds(p: Vec<char>)
    ensures
        key_pred(KeyTest::Exact(p)) == key_is(p@),
        key_pred(KeyTest::Contains(p)) == key_contains(p@),
        key_pred(KeyTest::TrimmedContains(p)) == key_trimmed_contains(p@),
{
    assert(key_pred(KeyTest::Exact(p)) =~= key_is(p@));
    assert(key_pred(KeyTest::Contains(p)) =~= key_contains(p@));
    assert(key_pred(KeyTest::TrimmedContains(p)) =~= key_trimmed_contains(p@));
}

/// Index of the entry `lookup_or(entries, key, fallback)` picks, with the
/// fallback test being `fallback`.
fn find_entry_or<V>(entries: &Vec<(String, V)>, key: Vec<char>, fallback: KeyTest) -> (r: Option<usize>)
    ensures
        match r {
            Some(i) => i < entries@.len()
                && lookup_or(entries@, key@, key_pred(fallback)) == Some(entries@[i as int].1),
            None => lookup_or(entries@, key@, key_pred(fallback)) == None::<V>,
        },
{
    proof { lemma_key_preds(key); }
    let exact = KeyTest::Exact(key);
    match find_entry(entries, &exact) {
        Some(i) => Some(i),
        None => find_entry(entries, &fallback),
    }
}

/// Port ids among `items`: each number that fits a `u64`, truncated to its
/// low 16 bits (as `n as u16`); other items are skipped.
pub open spec fn port_ids(items: Seq<JsonValue>) -> Seq<u16>
    decreases items.len(),
{
    if items.len() == 0 {
        Seq::empty()
    } else {
        let rest = port_ids(items.drop_last());
        match items.last() {
            JsonValue::Number(Some(n)) => rest.push((n % 0x10000) as u16),
            _ => rest,
        }
    }
}

/// The port ids a `/ethdev/list` response lists: the array under the key
/// `/ethdev/list`, or else under the first key that contains `ethdev/list`
/// once trimmed; none when there is no such key or its value is no array.
pub open spec fn spec_ethdev_list(response: Seq<(String, JsonValue)>) -> Seq<u16> {
    match lookup_or(response, "/ethdev/list"@, key_trimmed_contains("ethdev/list"@)) {
        Some(JsonValue::Array(items)) => port_ids(items@),
        _ => Seq::empty(),
    }
}

/// Port ids from the entries of a `/ethdev/list` response
/// (`{"/ethdev/list": [0, 1, ...]}`, the key possibly with a leading space).
pub fn ethdev_list_of(response: &Vec<(String, JsonValue)>) -> (ids: Vec<u16>)
    ensures
        ids@ == spec_ethdev_list(response@),
{
    let needle = chars_of("ethdev/list");
    proof { lemma_key_preds(needle); }
    let found = find_entry_or(response, chars_of("/ethdev/list"), KeyTest::TrimmedContains(needle));
    let mut ids: Vec<u16> = Vec::new();
    if let Some(idx) = found {
        if let JsonValue::Array(items) = &response[idx].1 {
            let mut i: usize = 0;
            while i < items.len()
                invariant
                    i <= items@.len(),
                    ids@ == port_ids(items@.take(i as int)),
                decreases items@.len() - i,
            {
                proof {
                    assert(items@.take(i + 1).drop_last() =~= items@.take(i as int));
                    assert(items@.take(i + 1).last() == items@[i as int]);
                }
                if let JsonValue::Number(Some(n)) = &items[i] {
                    ids.push((*n % 0x10000) as u16);
                }
                i = i + 1;
            }
            assert(items@.take(items@.len() as int) =~= items@);
        }
    }
    ids
}

/// Names among `items`: each string item, others skipped.
pub open spec fn string_items(items: Seq<JsonValue>) -> Seq<String>
    decreases items.len(),
{
    if items.len() == 0 {
        Seq::empty()
    } else {
        let rest = string_items(items.drop_last());
        match items.last() {
            JsonValue::Str(s) => rest.push(s),
            _ => rest,
        }
    }
}

/// The mempool names a `/mempool/list` response lists: the array under the
/// key `/mempool/list`, or else under the first key that contains
/// `mempool/list` once trimmed; none when there is no such key or its value
/// is no array.
pub open spec fn spec_mempool_list(response: Seq<(String, JsonValue)>) -> Seq<String> {
    match lookup_or(response, "/mempool/list"@, key_trimmed_contains("mempool/list"@)) {
        Some(JsonValue::Array(items)) => string_items(items@),
        _ => Seq::empty(),
    }
}

/// Mempool names from the entries of a `/mempool/list` response
/// (`{"/mempool/list": ["name", ...]}`, the key possibly with a leading space).
pub fn mempool_list_of(response: &Vec<(String, JsonValue)>) -> (names: Vec<String>)
    ensures
        names@ == spec_mempool_list(response@),
{
    let needle = chars_of("mempool/list");
    proof { lemma_key_preds(needle); }
    let found = find_entry_or(response, chars_of("/mempool/list"), KeyTest::TrimmedContains(needle));
    let mut names: Vec<String> = Vec::new();
    if let Some(idx) = found {
        if let JsonValue::Array(items) = &response[idx].1 {
            let mut i: usize = 0;
            while i < items.len()
                invariant
                    i <= items@.len(),
                    names@ == string_items(items@.take(i as int)),
                decreases items@.len() - i,
            {
                proof {
                    assert(items@.take(i + 1).drop_last() =~= items@.take(i as int));
                    assert(items@.take(i + 1).last() == items@[i as int]);
                }
                if let JsonValue::Str(s) = &items[i] {
                    names.push(s.clone());
                }
                i = i + 1;
            }
            assert(items@.take(items@.len() as int) =~= items@);
        }
    }
    names
}

/// The xstat an array element describes: an object with a string `name`
/// and a `u64` `value`.
pub open spec fn array_xstat(entry: JsonValue) -> Option<(String, u64)> {
    match entry {
        JsonValue::Object(fields) => match (lookup(fields@, key_is("name"@)), lookup(fields@, key_is("value"@))) {
            (Some(JsonValue::Str(n)), Some(JsonValue::Number(Some(v)))) => Some((n, v)),
            _ => None,
        },
        _ => None,
    }
}

/// The xstats of the array format, in order, skipping malformed elements.
pub open spec fn array_xstats(items: Seq<JsonValue>) -> Seq<(String, u64)>
    decreases items.len(),
{
    if items.len() == 0 {
        Seq::empty()
    } else {
        let rest = array_xstats(items.drop_last());
        match array_xstat(items.last()) {
            Some(x) => rest.push(x),
            None => rest,
        }
    }
}

/// The xstats of the object format (name to value), in order, skipping
/// values that are no `u64`.
pub open spec fn object_xstats(fields: Seq<(String, JsonValue)>) -> Seq<(String, u64)>
    decreases fields.len(),
{
    if fields.len() == 0 {
        Seq::empty()
    } else {
        let rest = object_xstats(fields.drop_last());
        match fields.last().1 {
            JsonValue::Number(Some(v)) => rest.push((fields.last().0, v)),
            _ => rest,
        }
    }
}

/// The (name, value) pairs a `/ethdev/xstats` response carries: under the
/// key `/ethdev/xstats`, or else the first key containing `ethdev/xstats`;
/// either an array of `{"name": .., "value": ..}` objects or an object of
/// name to value; any other value carries none.
pub open spec fn spec_xstats(response: Seq<(String, JsonValue)>) -> Result<Seq<(String, u64)>, ProtocolError> {
    match lookup_or(response, "/ethdev/xstats"@, key_contains("ethdev/xstats"@)) {
        None => Err(ProtocolError::XstatsKeyNotFound),
        Some(JsonValue::Array(items)) => Ok(array_xstats(items@)),
        Some(JsonValue::Object(fields)) => Ok(object_xstats(fields@)),
        Some(_) => Ok(Seq::empty()),
    }
}

fn xstat_of_element(entry: &JsonValue) -> (r: Option<(String, u64)>)
    ensures
        r == array_xstat(*entry),
{
    if let JsonValue::Object(fields) = entry {
        let kn = chars_of("name");
        let kv = chars_of("value");
        proof {
            lemma_key_preds(kn);
            lemma_key_preds(kv);
        }
        let n = find_entry(fields, &KeyTest::Exact(kn));
        let v = find_entry(fields, &KeyTest::Exact(kv));
        match (n, v) {
            (Some(a), Some(b)) => {
                match (&fields[a].1, &fields[b].1) {
                    (JsonValue::Str(name), JsonValue::Number(Some(value))) => Some((name.clone(), *value)),
                    _ => None,
                }
            },
            _ => None,
        }
    } else {
        None
    }
}

/// Extended stats from the entries of a `/ethdev/xstats` response, in either format:
/// an array `[{"name": "rx_good_packets", "value": 123}, ...]` or an object
/// `{"rx_good_packets": 123, ...}`.
pub fn ethdev_xstats_of(response: &Vec<(String, JsonValue)>) -> (r: Result<Vec<(String, u64)>, ProtocolError>)
    ensures
        r.is_ok() == spec_xstats(response@).is_ok(),
        r matches Ok(v) ==> spec_xstats(response@) == Ok::<Seq<(String, u64)>, ProtocolError>(v@),
        r matches Err(e) ==> spec_xstats(response@) == Err::<Seq<(String, u64)>, ProtocolError>(e),
{
    let needle = chars_of("ethdev/xstats");
    proof { lemma_key_preds(needle); }
    let found = find_entry_or(response, chars_of("/ethdev/xstats"), KeyTest::Contains(needle));
    let idx = match found {
        Some(i) => i,
        None => return Err(ProtocolError::XstatsKeyNotFound),
    };
    let mut out: Vec<(String, u64)> = Vec::new();
    match &response[idx].1 {
        JsonValue::Array(items) => {
            let mut i: usize = 0;
            while i < items.len()
                invariant
                    i <= items@.len(),
                    out@ == array_xstats(items@.take(i as int)),
                decreases items@.len() - i,
            {
                proof {
                    assert(items@.take(i + 1).drop_last() =~= items@.take(i as int));
                    assert(items@.take(i + 1).last() == items@[i as int]);
                }
                if let Some(x) = xstat_of_element(&items[i]) {
                    out.push(x);
                }
                i = i + 1;
            }
            assert(items@.take(items@.len() as int) =~= items@);
        },
        JsonValue::Object(fields) => {
            let mut i: usize = 0;
            while i < fields.len()
                invariant
                    i <= fields@.len(),
                    out@ == object_xstats(fields@.take(i as int)),
                decreases fields@.len() - i,
            {
                proof {
                    assert(fields@.take(i + 1).drop_last() =~= fields@.take(i as int));
                    assert(fields@.take(i + 1).last() == fields@[i as int]);
                }
                if let JsonValue::Number(Some(v)) = &fields[i].1 {
                    out.push((fields[i].0.clone(), *v));
                }
                i = i + 1;
            }
            assert(fields@.take(fields@.len() as int) =~= fields@);
        },
        _ => {},
    }
    Ok(out)
}

/// The key of a per-port response, such as `/ethdev/stats,0`.
pub open spec fn port_key(command: Seq<char>, port_id: u16) -> Seq<char> {
    command + seq![','] + decimal(port_id as nat)
}

fn port_key_chars(command: &str, port_id: u16) -> (k: Vec<char>)
    ensures
        k@ == port_key(command@, port_id),
{
    let mut c = chars_of(command);
    c.push(',');
    let d = decimal_chars(port_id as u64);
    crate::text::concat_chars(c, &d)
}

/// The stats a `/ethdev/stats,<port>` response carries: under that key,
/// or else under `/ethdev/stats`.
pub open spec fn spec_ethdev_stats(response: Seq<(String, PortStats)>, port_id: u16) -> Result<PortStats, ProtocolError> {
    match lookup_or(response, port_key("/ethdev/stats"@, port_id), key_is("/ethdev/stats"@)) {
        Some(s) => Ok(s),
        None => Err(ProtocolError::EthdevStatsKeyNotFound),
    }
}

/// Port stats from a `/ethdev/stats,<port>` response.
pub fn parse_ethdev_stats(response: &Vec<(String, PortStats)>, port_id: u16) -> (r: Result<PortStats, ProtocolError>)
    ensures
        r == spec_ethdev_stats(response@, port_id),
{
    let fallback = chars_of("/ethdev/stats");
    proof { lemma_key_preds(fallback); }
    let key = port_key_chars("/ethdev/stats", port_id);
    match find_entry_or(response, key, KeyTest::Exact(fallback)) {
        Some(i) => Ok(response[i].1),
        None => Err(ProtocolError::EthdevStatsKeyNotFound),
    }
}

/// The characters of an optional string, empty when absent.
pub open spec fn opt_chars(o: Option<String>) -> Seq<char> {
    match o {
        Some(s) => s@,
        None => Seq::empty(),
    }
}

/// Whether an optional string holds exactly `text`.
pub open spec fn opt_is(o: Option<String>, text: Seq<char>) -> bool {
    match o {
        Some(s) => s@ == text,
        None => false,
    }
}

/// Link state from raw info: up when `link_status` is "up" or the device is
/// started (`dev_started` is 1), down when `link_status` is "down",
/// unknown otherwise.
pub open spec fn spec_link_status(raw: EthdevInfoRaw) -> LinkStatus {
    if opt_is(raw.link_status, "up"@) || raw.dev_started == Some(1u8) {
        LinkStatus::Up
    } else if opt_is(raw.link_status, "down"@) {
        LinkStatus::Down
    } else {
        LinkStatus::Unknown
    }
}

/// `info` is what raw info `raw` of port `port_id` gives: absent strings
/// become empty, except the PCI name, which falls back to `port_<id>`;
/// absent numbers become 0.
pub open spec fn port_info_from_raw(info: PortInfo, raw: EthdevInfoRaw, port_id: u16) -> bool {
    &&& info.name@ == opt_chars(raw.device_name)
    &&& info.pci@ == match raw.device_name {
        Some(s) => s@,
        None => "port_"@ + decimal(port_id as nat),
    }
    &&& info.driver@ == opt_chars(raw.driver_name)
    &&& info.mac@ == opt_chars(raw.mac_addr)
    &&& info.mtu == match raw.mtu { Some(v) => v, None => 0 }
    &&& info.link_speed_mbps == match raw.link_speed { Some(v) => v, None => 0 }
    &&& info.link_status == spec_link_status(raw)
    &&& info.nb_rx_queues == match raw.nb_rx_queues { Some(v) => v, None => 0 }
    &&& info.nb_tx_queues == match raw.nb_tx_queues { Some(v) => v, None => 0 }
}

fn string_or_empty(o: &Option<String>) -> (s: String)
    ensures
        s@ == opt_chars(*o),
{
    match o {
        Some(v) => v.clone(),
        None => String::new(),
    }
}

fn is_text(o: &Option<String>, text: &str) -> (r: bool)
    ensures
        r == opt_is(*o, text@),
{
    match o {
        Some(v) => crate::text::str_eq(v.as_str(), text),
        None => false,
    }
}

/// The raw info a `/ethdev/info,<port>` response carries: under that key,
/// or else under `/ethdev/info`.
pub open spec fn ethdev_info_entry(response: Seq<(String, EthdevInfoRaw)>, port_id: u16) -> Option<EthdevInfoRaw> {
    lookup_or(response, port_key("/ethdev/info"@, port_id), key_is("/ethdev/info"@))
}

/// Port info from a `/ethdev/info,<port>` response.
pub fn parse_ethdev_info(response: &Vec<(String, EthdevInfoRaw)>, port_id: u16) -> (r: Result<PortInfo, ProtocolError>)
    ensures
        match ethdev_info_entry(response@, port_id) {
            Some(raw) => r matches Ok(info) && port_info_from_raw(info, raw, port_id),
            None => r == Err::<PortInfo, ProtocolError>(ProtocolError::EthdevInfoKeyNotFound),
        },
{
    let fallback = chars_of("/ethdev/info");
    proof { lemma_key_preds(fallback); }
    let key = port_key_chars("/ethdev/info", port_id);
    let idx = match find_entry_or(response, key, KeyTest::Exact(fallback)) {
        Some(i) => i,
        None => return Err(ProtocolError::EthdevInfoKeyNotFound),
    };
    let raw = &response[idx].1;
    let link_status = if is_text(&raw.link_status, "up") || raw.dev_started == Some(1u8) {
        LinkStatus::Up
    } else if is_text(&raw.link_status, "down") {
        LinkStatus::Down
    } else {
        LinkStatus::Unknown
    };
    let pci = match &raw.device_name {
        Some(n) => n.clone(),
        None => {
            let mut s = "port_".to_owned();
            let d = crate::text::decimal_string(port_id as u64);
            s.append(d.as_str());
            s
        },
    };
    Ok(PortInfo {
        name: string_or_empty(&raw.device_name),
        pci,
        driver: string_or_empty(&raw.driver_name),
        mac: string_or_empty(&raw.mac_addr),
        mtu: match raw.mtu { Some(v) => v, None => 0 },
        link_speed_mbps: match raw.link_speed { Some(v) => v, None => 0 },
        link_status,
        nb_rx_queues: match raw.nb_rx_queues { Some(v) => v, None => 0 },
        nb_tx_queues: match raw.nb_tx_queues { Some(v) => v, None => 0 },
    })
}

/// The raw info a `/mempool/info,<name>` response carries: under that key,
/// or else under `/mempool/info`.
pub open spec fn mempool_info_entry(response: Seq<(String, MempoolInfoRaw)>, name: Seq<char>) -> Option<MempoolInfoRaw> {
    lookup_or(response, "/mempool/info,"@ + name, key_is("/mempool/info"@))
}

/// The free count raw info gives: `free_count`, or else the common pool
/// count plus the total cache count (each 0 when absent).
pub open spec fn spec_free_count(raw: MempoolInfoRaw) -> int {
    match raw.free_count {
        Some(f) => f as int,
        None => (match raw.common_pool_count { Some(v) => v as int, None => 0 })
            + (match raw.total_cache_count { Some(v) => v as int, None => 0 }),
    }
}

/// The pool size raw info gives: `size`, else `count`, else
/// `populated_size`, else 0.
pub open spec fn spec_pool_size(raw: MempoolInfoRaw) -> u64 {
    match raw.size {
        Some(v) => v,
        None => match raw.count {
            Some(v) => v,
            None => match raw.populated_size {
                Some(v) => v,
                None => 0,
            },
        },
    }
}

/// `info` is what raw info `raw` of the pool `name` gives.
pub open spec fn mempool_info_from_raw(info: MempoolInfo, raw: MempoolInfoRaw, name: Seq<char>) -> bool {
    &&& info.name@ == name
    &&& info.size == spec_pool_size(raw)
    &&& info.free_count == spec_free_count(raw)
    &&& info.cache_size == match raw.cache_size { Some(v) => v, None => 0 }
    &&& info.element_size == match raw.elt_size {
        Some(v) => v,
        None => match raw.element_size { Some(v) => v, None => 0 },
    }
    &&& info.flags == match raw.flags { Some(v) => v, None => 0 }
}

/// Whether `parse_mempool_info` can read this response for pool `name`:
/// false exactly when the free count it would sum from the pool and cache
/// counts overflows a `u64`.
pub fn mempool_free_count_fits(response: &Vec<(String, MempoolInfoRaw)>, name: &str) -> (r: bool)
    ensures
        r == (mempool_info_entry(response@, name@) matches Some(raw) ==> spec_free_count(raw) <= u64::MAX),
{
    let fallback = chars_of("/mempool/info");
    proof { lemma_key_preds(fallback); }
    let key = crate::text::concat_chars(chars_of("/mempool/info,"), &chars_of(name));
    match find_entry_or(response, key, KeyTest::Exact(fallback)) {
        None => true,
        Some(i) => {
            let raw = &response[i].1;
            match raw.free_count {
                Some(_) => true,
                None => {
                    let pool = match raw.common_pool_count { Some(v) => v, None => 0 };
                    let cache = match raw.total_cache_count { Some(v) => v, None => 0 };
                    pool <= u64::MAX - cache
                },
            }
        },
    }
}

/// Mempool info from a `/mempool/info,<name>` response. The pool's free
/// count, when it has to be summed from the pool and cache counts, must fit
/// a `u64`.
pub fn parse_mempool_info(response: &Vec<(String, MempoolInfoRaw)>, name: &str) -> (r: Result<MempoolInfo, ProtocolError>)
    requires
        mempool_info_entry(response@, name@) matches Some(raw) ==> spec_free_count(raw) <= u64::MAX,
    ensures
        match mempool_info_entry(response@, name@) {
            Some(raw) => r matches Ok(info) && mempool_info_from_raw(info, raw, name@),
            None => r == Err::<MempoolInfo, ProtocolError>(ProtocolError::MempoolInfoKeyNotFound),
        },
{
    let fallback = chars_of("/mempool/info");
    proof { lemma_key_preds(fallback); }
    let key = crate::text::concat_chars(chars_of("/mempool/info,"), &chars_of(name));
    let idx = match find_entry_or(response, key, KeyTest::Exact(fallback)) {
        Some(i) => i,
        None => return Err(ProtocolError::MempoolInfoKeyNotFound),
    };
    let raw = &response[idx].1;
    let size = match raw.size {
        Some(v) => v,
        None => match raw.count {
            Some(v) => v,
            None => match raw.populated_size {
                Some(v) => v,
                None => 0,
            },
        },
    };
    let free_count = match raw.free_count {
        Some(f) => f,
        None => {
            let pool = match raw.common_pool_count { Some(v) => v, None => 0 };
            let cache = match raw.total_cache_count { Some(v) => v, None => 0 };
            pool + cache
        },
    };
    Ok(MempoolInfo {
        name: name.to_owned(),
        size,
        free_count,
        cache_size: match raw.cache_size { Some(v) => v, None => 0 },
        element_size: match raw.elt_size {
            Some(v) => v,
            None => match raw.element_size { Some(v) => v, None => 0 },
        },
        flags: match raw.flags { Some(v) => v, None => 0 },
    })
}


/// `serde_json::Value`, carried only into `json_value_of`.
#[verifier::external_type_specification]
#[verifier::external_body]
pub struct ExSerdeJsonValue(serde_json::Value);

/// The object `serde_json::from_str` reads from `text` into a
/// `HashMap<String, serde_json::Value>`, as a map from keys to values
/// (each value as `json_value_of` carries it over); `None` when `text` is
/// no JSON object.
pub uninterp spec fn json_object(text: Seq<char>) -> Option<Map<Seq<char>, JsonValue>>;

/// The map the entries give: each key to its value (the last one, were a
/// key given twice).
pub open spec fn entries_map(entries: Seq<(String, JsonValue)>) -> Map<Seq<char>, JsonValue>
    decreases entries.len(),
{
    if entries.len() == 0 {
        Map::empty()
    } else {
        entries_map(entries.drop_last()).insert(entries.last().0@, entries.last().1)
    }
}

/// No key is given twice.
pub open spec fn keys_distinct(entries: Seq<(String, JsonValue)>) -> bool {
    forall|i: int, j: int| 0 <= i < j < entries.len() ==> (#[trigger] entries[i]).0@ != (#[trigger] entries[j]).0@
}

/// A `serde_json::Value` as this library holds it, variant for variant,
/// numbers read by `serde_json::Number::as_u64`. Nothing is stated of it:
/// `parse_response` states what the converted response is.
#[verifier::external_body]
fn json_value_of(v: serde_json::Value) -> JsonValue {
    match v {
        serde_json::Value::Null => JsonValue::Null,
        serde_json::Value::Bool(b) => JsonValue::Bool(b),
        serde_json::Value::Number(n) => JsonValue::Number(n.as_u64()),
        serde_json::Value::String(s) => JsonValue::Str(s),
        serde_json::Value::Array(a) => JsonValue::Array(a.into_iter().map(json_value_of).collect()),
        serde_json::Value::Object(o) => JsonValue::Object(o.into_iter().map(|(k, x)| (k, json_value_of(x))).collect()),
    }
}

/// `serde_json::from_str` into a `HashMap<String, serde_json::Value>`: the
/// entries of the JSON object `text` holds, in the map's (unspecified)
/// order, or `None` when `text` is no JSON object.
#[verifier::external_body]
pub fn parse_response(text: &str) -> (r: Option<Vec<(String, JsonValue)>>)
    ensures
        r.is_some() == json_object(text@).is_some(),
        r matches Some(v) ==> entries_map(v@) == json_object(text@)->0 && keys_distinct(v@),
{
    match serde_json::from_str::<HashMap<String, serde_json::Value>>(text) {
        Ok(m) => Some(m.into_iter().map(|(k, v)| (k, json_value_of(v))).collect()),
        Err(_) => None,
    }
}

/// Port ids from a `/ethdev/list` response text: an error when the text is
/// no JSON object, else the ids its entries list (see `spec_ethdev_list`),
/// the entries taken in some order.
pub fn parse_ethdev_list(json: &str) -> (r: Result<Vec<u16>, ProtocolError>)
    ensures
        r.is_ok() == json_object(json@).is_some(),
        r matches Err(e) ==> e == ProtocolError::EthdevListParse,
        r matches Ok(ids) ==> exists|e: Seq<(String, JsonValue)>|
            #[trigger] entries_map(e) == json_object(json@)->0 && keys_distinct(e) && ids@ == spec_ethdev_list(e),
{
    match parse_response(json) {
        Some(entries) => {
            let ids = ethdev_list_of(&entries);
            assert(entries_map(entries@) == json_object(json@)->0 && keys_distinct(entries@)
                && ids@ == spec_ethdev_list(entries@));
            Ok(ids)
        },
        None => Err(ProtocolError::EthdevListParse),
    }
}

/// Mempool names from a `/mempool/list` response text: an error when the
/// text is no JSON object, else the names its entries list (see
/// `spec_mempool_list`), the entries taken in some order.
pub fn parse_mempool_list(json: &str) -> (r: Result<Vec<String>, ProtocolError>)
    ensures
        r.is_ok() == json_object(json@).is_some(),
        r matches Err(e) ==> e == ProtocolError::MempoolListParse,
        r matches Ok(names) ==> exists|e: Seq<(String, JsonValue)>|
            #[trigger] entries_map(e) == json_object(json@)->0 && keys_distinct(e) && names@ == spec_mempool_list(e),
{
    match parse_response(json) {
        Some(entries) => {
            let names = mempool_list_of(&entries);
            assert(entries_map(entries@) == json_object(json@)->0 && keys_distinct(entries@)
                && names@ == spec_mempool_list(entries@));
            Ok(names)
        },
        None => Err(ProtocolError::MempoolListParse),
    }
}

/// Extended stats from a `/ethdev/xstats` response text: a parse error when
/// the text is no JSON object, else what its entries give (see
/// `spec_xstats`), the entries taken in some order.
pub fn parse_ethdev_xstats(json: &str) -> (r: Result<Vec<(String, u64)>, ProtocolError>)
    ensures
        json_object(json@).is_none() ==> r == Err::<Vec<(String, u64)>, ProtocolError>(ProtocolError::XstatsParse),
        json_object(json@).is_some() ==> exists|e: Seq<(String, JsonValue)>|
            #[trigger] entries_map(e) == json_object(json@)->0 && keys_distinct(e) && match r {
                Ok(v) => spec_xstats(e) == Ok::<Seq<(String, u64)>, ProtocolError>(v@),
                Err(err) => spec_xstats(e) == Err::<Seq<(String, u64)>, ProtocolError>(err),
            },
{
    match parse_response(json) {
        Some(entries) => {
            let r = ethdev_xstats_of(&entries);
            assert(entries_map(entries@) == json_object(json@)->0 && keys_distinct(entries@) && match r {
                Ok(v) => spec_xstats(entries@) == Ok::<Seq<(String, u64)>, ProtocolError>(v@),
                Err(err) => spec_xstats(entries@) == Err::<Seq<(String, u64)>, ProtocolError>(err),
            });
            r
        },
        None => Err(ProtocolError::XstatsParse),
    }
}


/// Each field of the parsed port info is the raw field it is named after:
/// the reported number when there is one and 0 when there is none, the
/// reported text when there is one; the device name gives both the name
/// and the PCI column; a link reported up, or a started device, is up.
pub proof fn lemma_port_info_fields(info: PortInfo, raw: EthdevInfoRaw, port_id: u16)
    requires
        port_info_from_raw(info, raw, port_id),
    ensures
        raw.link_speed matches Some(v) ==> info.link_speed_mbps == v,
        raw.link_speed is None ==> info.link_speed_mbps == 0,
        raw.mtu matches Some(v) ==> info.mtu == v,
        raw.mtu is None ==> info.mtu == 0,
        raw.nb_rx_queues matches Some(v) ==> info.nb_rx_queues == v,
        raw.nb_rx_queues is None ==> info.nb_rx_queues == 0,
        raw.nb_tx_queues matches Some(v) ==> info.nb_tx_queues == v,
        raw.nb_tx_queues is None ==> info.nb_tx_queues == 0,
        raw.device_name matches Some(n) ==> info.name@ == n@ && info.pci@ == n@,
        raw.device_name is None ==> info.name@.len() == 0 && info.pci@ == "port_"@ + decimal(port_id as nat),
        raw.driver_name matches Some(d) ==> info.driver@ == d@,
        raw.mac_addr matches Some(m) ==> info.mac@ == m@,
        raw.dev_started == Some(1u8) ==> info.link_status == LinkStatus::Up,
        (raw.link_status matches Some(t) && t@ == "up"@) ==> info.link_status == LinkStatus::Up,
        (raw.link_status matches Some(t) && t@ == "down"@) && raw.dev_started != Some(1u8)
            ==> info.link_status == LinkStatus::Down,
        raw.link_status is None && raw.dev_started != Some(1u8) ==> info.link_status == LinkStatus::Unknown,
{
    reveal_strlit("up");
    reveal_strlit("down");
    assert("up"@ != "down"@) by {
        assert("up"@.len() != "down"@.len());
    }
}

/// Each field of the parsed mempool info is the raw field it is named
/// after: the cache size, flags and free count as reported (the free
/// count, when not reported, as the common pool plus cache counts), the
/// size as reported or else from `count` or `populated_size`, the element
/// size from `elt_size` or else `element_size`; 0 when not reported.
pub proof fn lemma_mempool_info_fields(info: MempoolInfo, raw: MempoolInfoRaw, name: Seq<char>)
    requires
        mempool_info_from_raw(info, raw, name),
    ensures
        info.name@ == name,
        raw.cache_size matches Some(v) ==> info.cache_size == v,
        raw.cache_size is None ==> info.cache_size == 0,
        raw.flags matches Some(v) ==> info.flags == v,
        raw.flags is None ==> info.flags == 0,
        raw.size matches Some(v) ==> info.size == v,
        raw.size is None ==> (raw.count matches Some(v) ==> info.size == v),
        raw.size is None && raw.count is None ==> (raw.populated_size matches Some(v) ==> info.size == v),
        raw.size is None && raw.count is None && raw.populated_size is None ==> info.size == 0,
        raw.free_count matches Some(v) ==> info.free_count == v,
        raw.free_count is None ==> (raw.common_pool_count matches Some(p) ==> (raw.total_cache_count matches Some(c)
            ==> info.free_count == p + c)),
        raw.free_count is None && raw.common_pool_count is None && raw.total_cache_count is None ==> info.free_count == 0,
        raw.elt_size matches Some(v) ==> info.element_size == v,
        raw.elt_size is None ==> (raw.element_size matches Some(v) ==> info.element_size == v),
{
}

} // verus!
