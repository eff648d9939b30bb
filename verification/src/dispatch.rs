//! The dispatcher's decisions for one dequeued item: the message is always
//! broadcast first; a payload is persisted only when the store is ready,
//! the payload is populated, and it is under the byte ceiling — and then
//! only if it parses as a JSON object, which is enriched before saving.
//!
//! The persisted record stays a `serde_json::Value`, opaque to the
//! verifier; its observable top-level content is abstracted by the named
//! views `fields_of` and `strings_of`, over which parsing and enrichment
//! carry exact contracts.

use vstd::prelude::*;
use vstd::utf8::{decode_utf8, encode_utf8, valid_utf8};

use crate::ingest::decoded_utf8;
use crate::msg::QueueItem;

verus! {

/// The byte ceiling: a payload of this many bytes or more is broadcast
/// live but never persisted.
pub const PERSIST_CEILING: usize = 8192;

/// The UTF-8 byte length of a text payload, as the machine word that
/// `str::len` returns.
pub open spec fn text_byte_len(s: Seq<char>) -> usize {
    encode_utf8(s).len() as usize
}

/// Whether the item's text payload is eligible for persistence.
pub open spec fn text_persistable(item: QueueItem, store_ready: bool) -> bool {
    store_ready && 0 < text_byte_len(item.data.data@) < PERSIST_CEILING
}

/// Whether the item's binary payload is eligible for persistence.
pub open spec fn binary_persistable(item: QueueItem, store_ready: bool) -> bool {
    store_ready && 0 < item.data.bytes@.len() < PERSIST_CEILING
}

/// The dispatcher's plan for one item.  Broadcasting is not recorded here:
/// the item's message is always broadcast, before any persistence attempt,
/// whatever the plan says.
pub struct DispatchPlan {
    pub persist_text: bool,
    pub persist_binary: bool,
}

/// Decides which payload forms of a dequeued item are persisted: each only
/// when the store is ready and the payload holds more than zero and fewer
/// than the ceiling's bytes.
pub fn plan_item(item: &QueueItem, store_ready: bool) -> (p: DispatchPlan)
    ensures
        p.persist_text == text_persistable(*item, store_ready),
        p.persist_binary == binary_persistable(*item, store_ready),
{
    let text_len = item.data.data.as_str().len();
    let byte_len = item.data.bytes.len();
    DispatchPlan {
        persist_text: store_ready && 0 < text_len && text_len < PERSIST_CEILING,
        persist_binary: store_ready && 0 < byte_len && byte_len < PERSIST_CEILING,
    }
}

/// Ceiling law: an item whose payload reaches the byte ceiling is never
/// persisted (while its broadcast is unconditional); neither is anything
/// persisted while the store is not ready.
pub proof fn lemma_oversize_never_persisted(item: QueueItem, store_ready: bool)
    ensures
        text_byte_len(item.data.data@) >= PERSIST_CEILING ==> !text_persistable(
            item,
            store_ready,
        ),
        item.data.bytes@.len() >= PERSIST_CEILING ==> !binary_persistable(item, store_ready),
        !store_ready ==> !text_persistable(item, store_ready) && !binary_persistable(
            item,
            store_ready,
        ),
{
}

/// What the parsed record's `refer` field held before enrichment.
pub enum ReferState {
    /// No `refer` field at all.
    Absent,
    /// A `refer` field that is not a string.
    NotText,
    /// A textual `refer` field with this content.
    Text(String),
}

/// The first-write-wins policy for the `refer` field: the request metadata
/// is written when the field is absent, not textual, or empty; a non-empty
/// textual value is kept untouched.
pub fn refer_value(existing: &ReferState, fallback: &String) -> (r: Option<String>)
    ensures
        (match *existing {
            ReferState::Text(ref t) => if t@.len() > 0 {
                r is None
            } else {
                r matches Some(v) && v@ == fallback@
            },
            _ => r matches Some(v) && v@ == fallback@,
        }),
{
    match existing {
        ReferState::Text(t) => if t.as_str().is_empty() {
            Some(fallback.clone())
        } else {
            None
        },
        _ => Some(fallback.clone()),
    }
}

// ---------------------------------------------------------------------------
// The trusted view of JSON records.
// ---------------------------------------------------------------------------

#[verifier::external_type_specification]
#[verifier::external_body]
pub struct ExJsonValue(serde_json::Value);

/// Whether this JSON value is an object.
pub uninterp spec fn is_object_value(v: serde_json::Value) -> bool;

/// What a JSON object holds at its top level: each field name mapped to
/// that field's value, the value standing abstractly as its serde_json
/// serialization.  Empty when `v` is not an object.
pub uninterp spec fn fields_of(v: serde_json::Value) -> Map<Seq<char>, Seq<char>>;

/// The textual part of what a JSON object holds: each top-level field
/// whose value is a string, mapped to that string's character content.
/// Empty when `v` is not an object.
pub uninterp spec fn strings_of(v: serde_json::Value) -> Map<Seq<char>, Seq<char>>;

/// Whether this text parses as a JSON object.
pub uninterp spec fn parses_to_object(s: Seq<char>) -> bool;

/// The `fields_of` view of the object this text parses to, when it does.
pub uninterp spec fn object_fields_of(s: Seq<char>) -> Map<Seq<char>, Seq<char>>;

/// The `strings_of` view of the object this text parses to, when it does.
pub uninterp spec fn object_strings_of(s: Seq<char>) -> Map<Seq<char>, Seq<char>>;

/// serde_json's serialization of a string value (quoted, with escapes), as
/// a function of its characters.
pub uninterp spec fn string_repr(s: Seq<char>) -> Seq<char>;

/// The character of one decimal digit.
pub open spec fn digit_char(d: int) -> char {
    if d == 0 {
        '0'
    } else if d == 1 {
        '1'
    } else if d == 2 {
        '2'
    } else if d == 3 {
        '3'
    } else if d == 4 {
        '4'
    } else if d == 5 {
        '5'
    } else if d == 6 {
        '6'
    } else if d == 7 {
        '7'
    } else if d == 8 {
        '8'
    } else {
        '9'
    }
}

/// serde_json's serialization of an unsigned integer value: its plain
/// decimal digits.
pub open spec fn decimal_repr(n: u64) -> Seq<char>
    decreases n,
{
    if n < 10 {
        seq![digit_char(n as int)]
    } else {
        decimal_repr(n / 10).push(digit_char((n % 10) as int))
    }
}

/// Relies on serde_json's `from_str` and `Value::is_object`: parses text
/// as JSON and keeps the result only when it is an object.  Success and
/// the object's content are functions of the text alone, named
/// `parses_to_object`, `object_fields_of` and `object_strings_of`.
#[verifier::external_body]
fn parse_object_text(s: &str) -> (r: Option<serde_json::Value>)
    ensures
        r is Some <==> parses_to_object(s@),
        r matches Some(v) ==> is_object_value(v) && fields_of(v) == object_fields_of(s@)
            && strings_of(v) == object_strings_of(s@),
{
    match serde_json::from_str::<serde_json::Value>(s) {
        Ok(v) => {
            if v.is_object() {
                Some(v)
            } else {
                None
            }
        },
        Err(_) => None,
    }
}

/// Relies on serde_json's `Value::get` and `Value::as_str`: how the value
/// stored under this top-level key reads as text — absent, present but
/// not textual, or textual with its content.
#[verifier::external_body]
fn read_text_field(v: &serde_json::Value, key: &str) -> (r: ReferState)
    ensures
        (r is Absent <==> !fields_of(*v).dom().contains(key@)),
        (r is NotText ==> fields_of(*v).dom().contains(key@) && !strings_of(*v).dom().contains(
            key@,
        )),
        (r matches ReferState::Text(t) ==> strings_of(*v).dom().contains(key@) && t@
            == strings_of(*v)[key@]),
        (fields_of(*v).dom().contains(key@) && strings_of(*v).dom().contains(key@)
            ==> r is Text),
{
    match v.get(key) {
        Some(field) => match field.as_str() {
            Some(t) => ReferState::Text(t.to_owned()),
            None => ReferState::NotText,
        },
        None => ReferState::Absent,
    }
}

/// Relies on serde_json's `Value::as_object_mut` and `Map::insert`: stores
/// a string under this key when `v` is an object — replacing whatever the
/// key held — and does nothing otherwise.
#[verifier::external_body]
fn json_set_text(v: &mut serde_json::Value, key: &str, s: String)
    ensures
        is_object_value(*old(v)) ==> {
            &&& is_object_value(*final(v))
            &&& fields_of(*final(v)) == fields_of(*old(v)).insert(key@, string_repr(s@))
            &&& strings_of(*final(v)) == strings_of(*old(v)).insert(key@, s@)
        },
        !is_object_value(*old(v)) ==> *final(v) == *old(v),
{
    if let Some(m) = v.as_object_mut() {
        m.insert(key.to_owned(), serde_json::Value::String(s));
    }
}

/// Relies on serde_json's `Value::as_object_mut` and `Map::insert`: stores
/// an unsigned number under this key when `v` is an object — replacing
/// whatever the key held, so the key no longer reads as text — and does
/// nothing otherwise.
#[verifier::external_body]
fn json_set_number(v: &mut serde_json::Value, key: &str, n: u64)
    ensures
        is_object_value(*old(v)) ==> {
            &&& is_object_value(*final(v))
            &&& fields_of(*final(v)) == fields_of(*old(v)).insert(key@, decimal_repr(n))
            &&& strings_of(*final(v)) == strings_of(*old(v)).remove(key@)
        },
        !is_object_value(*old(v)) ==> *final(v) == *old(v),
{
    if let Some(m) = v.as_object_mut() {
        m.insert(key.to_owned(), serde_json::Value::from(n));
    }
}

// ---------------------------------------------------------------------------
// Enrichment.
// ---------------------------------------------------------------------------

/// Whether enrichment writes the `refer` field: the record has none, has a
/// non-textual one, or has an empty textual one.
pub open spec fn refer_filled(
    fields: Map<Seq<char>, Seq<char>>,
    strings: Map<Seq<char>, Seq<char>>,
) -> bool {
    ||| !fields.dom().contains("refer"@)
    ||| !strings.dom().contains("refer"@)
    ||| strings["refer"@].len() == 0
}

/// The record's fields after enrichment: `time` holds the ingestion
/// timestamp and `ip` and `ua` the request metadata, unconditionally;
/// `refer` is written from the metadata exactly when `refer_filled` says;
/// every other field is untouched.
pub open spec fn enriched_fields(
    fields: Map<Seq<char>, Seq<char>>,
    strings: Map<Seq<char>, Seq<char>>,
    ip: Seq<char>,
    ua: Seq<char>,
    refer_meta: Seq<char>,
    now: u64,
) -> Map<Seq<char>, Seq<char>> {
    let m = fields.insert("time"@, decimal_repr(now)).insert("ip"@, string_repr(ip)).insert(
        "ua"@,
        string_repr(ua),
    );
    if refer_filled(fields, strings) {
        m.insert("refer"@, string_repr(refer_meta))
    } else {
        m
    }
}

/// The record's textual fields after enrichment, matching
/// `enriched_fields`: `time` becomes a number, `ip` and `ua` the metadata
/// strings, `refer` the metadata exactly when `refer_filled` says.
pub open spec fn enriched_strings(
    fields: Map<Seq<char>, Seq<char>>,
    strings: Map<Seq<char>, Seq<char>>,
    ip: Seq<char>,
    ua: Seq<char>,
    refer_meta: Seq<char>,
) -> Map<Seq<char>, Seq<char>> {
    let m = strings.remove("time"@).insert("ip"@, ip).insert("ua"@, ua);
    if refer_filled(fields, strings) {
        m.insert("refer"@, refer_meta)
    } else {
        m
    }
}

proof fn lemma_enrich_keys_distinct()
    ensures
        "refer"@ != "time"@,
        "refer"@ != "ip"@,
        "refer"@ != "ua"@,
        "time"@ != "ip"@,
        "time"@ != "ua"@,
        "ip"@ != "ua"@,
{
    reveal_strlit("refer");
    reveal_strlit("time");
    reveal_strlit("ip");
    reveal_strlit("ua");
    assert("refer"@.len() == 5);
    assert("time"@.len() == 4);
    assert("ip"@.len() == 2);
    assert("ua"@.len() == 2);
    assert("ip"@[0] != "ua"@[0]);
}

/// Enriches a parsed record in place, exactly as `enriched_fields` and
/// `enriched_strings` describe: `time`, `ip` and `ua` are set from the
/// ingestion context, overwriting what the payload held; `refer` is
/// filled from the metadata only as `refer_value` allows — a non-empty
/// textual `refer` the record already had is kept; no other field is
/// added, removed or modified.
fn enrich(res: &mut serde_json::Value, item: &QueueItem, now: u64)
    requires
        is_object_value(*old(res)),
    ensures
        is_object_value(*final(res)),
        fields_of(*final(res)) == enriched_fields(
            fields_of(*old(res)),
            strings_of(*old(res)),
            item.ip@,
            item.ua@,
            item.refer@,
            now,
        ),
        strings_of(*final(res)) == enriched_strings(
            fields_of(*old(res)),
            strings_of(*old(res)),
            item.ip@,
            item.ua@,
            item.refer@,
        ),
{
    let ghost base_fields = fields_of(*res);
    let ghost base_strings = strings_of(*res);
    json_set_number(res, "time", now);
    json_set_text(res, "ip", item.ip.clone());
    json_set_text(res, "ua", item.ua.clone());
    let state = read_text_field(&*res, "refer");
    proof {
        lemma_enrich_keys_distinct();
        assert(fields_of(*res).dom().contains("refer"@) == base_fields.dom().contains(
            "refer"@,
        ));
        assert(strings_of(*res).dom().contains("refer"@) == base_strings.dom().contains(
            "refer"@,
        ));
        assert(strings_of(*res).dom().contains("refer"@) ==> strings_of(*res)["refer"@]
            == base_strings["refer"@]);
    }
    match refer_value(&state, &item.refer) {
        Some(v) => {
            proof {
                assert(refer_filled(base_fields, base_strings));
            }
            json_set_text(res, "refer", v);
        },
        None => {
            proof {
                assert(!refer_filled(base_fields, base_strings));
            }
        },
    }
}

/// Enrichment law: `time`, `ip` and `ua` are always set to the ingestion
/// timestamp and the request metadata, overwriting whatever the payload
/// held; `refer` is set from the metadata exactly when the record had no
/// non-empty textual `refer`, which otherwise survives unchanged.
pub proof fn lemma_enrich_sets_metadata(
    fields: Map<Seq<char>, Seq<char>>,
    strings: Map<Seq<char>, Seq<char>>,
    ip: Seq<char>,
    ua: Seq<char>,
    refer_meta: Seq<char>,
    now: u64,
)
    ensures
        enriched_fields(fields, strings, ip, ua, refer_meta, now).dom().contains("time"@),
        enriched_fields(fields, strings, ip, ua, refer_meta, now)["time"@] == decimal_repr(
            now,
        ),
        enriched_fields(fields, strings, ip, ua, refer_meta, now)["ip"@] == string_repr(ip),
        enriched_fields(fields, strings, ip, ua, refer_meta, now)["ua"@] == string_repr(ua),
        enriched_strings(fields, strings, ip, ua, refer_meta)["ip"@] == ip,
        enriched_strings(fields, strings, ip, ua, refer_meta)["ua"@] == ua,
        refer_filled(fields, strings) ==> enriched_fields(
            fields,
            strings,
            ip,
            ua,
            refer_meta,
            now,
        )["refer"@] == string_repr(refer_meta) && enriched_strings(
            fields,
            strings,
            ip,
            ua,
            refer_meta,
        )["refer"@] == refer_meta,
        !refer_filled(fields, strings) ==> enriched_strings(
            fields,
            strings,
            ip,
            ua,
            refer_meta,
        )["refer"@] == strings["refer"@] && strings["refer"@].len() > 0,
{
    lemma_enrich_keys_distinct();
}

/// Enrichment law: a field other than `time`, `ip`, `ua` and `refer` —
/// such as the payload's own data — survives enrichment unchanged, and
/// none is invented.
pub proof fn lemma_enrich_preserves_others(
    fields: Map<Seq<char>, Seq<char>>,
    strings: Map<Seq<char>, Seq<char>>,
    ip: Seq<char>,
    ua: Seq<char>,
    refer_meta: Seq<char>,
    now: u64,
    k: Seq<char>,
)
    requires
        k != "time"@,
        k != "ip"@,
        k != "ua"@,
        k != "refer"@,
    ensures
        enriched_fields(fields, strings, ip, ua, refer_meta, now).dom().contains(k)
            == fields.dom().contains(k),
        fields.dom().contains(k) ==> enriched_fields(fields, strings, ip, ua, refer_meta, now)[k]
            == fields[k],
        enriched_strings(fields, strings, ip, ua, refer_meta).dom().contains(k)
            == strings.dom().contains(k),
        strings.dom().contains(k) ==> enriched_strings(fields, strings, ip, ua, refer_meta)[k]
            == strings[k],
{
}

// ---------------------------------------------------------------------------
// The persisted records.
// ---------------------------------------------------------------------------

/// The record persisted for a text payload: a record exists exactly when
/// the payload parses as a JSON object, and it is that object enriched —
/// the payload's fields plus `time`, `ip`, `ua` and the `refer` policy.
pub fn build_record_from_text(data: &str, item: &QueueItem, now: u64) -> (r: Option<
    serde_json::Value,
>)
    ensures
        r is Some <==> parses_to_object(data@),
        r matches Some(rec) ==> is_object_value(rec) && fields_of(rec) == enriched_fields(
            object_fields_of(data@),
            object_strings_of(data@),
            item.ip@,
            item.ua@,
            item.refer@,
            now,
        ) && strings_of(rec) == enriched_strings(
            object_fields_of(data@),
            object_strings_of(data@),
            item.ip@,
            item.ua@,
            item.refer@,
        ),
{
    match parse_object_text(data) {
        Some(mut v) => {
            enrich(&mut v, item, now);
            Some(v)
        },
        None => None,
    }
}

/// The record persisted for a binary payload: the bytes are decoded as
/// UTF-8 (JSON is UTF-8; undecodable bytes cannot parse) and handled like
/// a text payload — a record exists exactly when the decoded text parses
/// as a JSON object, and it is that object enriched.
pub fn build_record_from_bytes(bytes: &Vec<u8>, item: &QueueItem, now: u64) -> (r: Option<
    serde_json::Value,
>)
    ensures
        r is Some <==> (valid_utf8(bytes@) && parses_to_object(decode_utf8(bytes@))),
        r matches Some(rec) ==> is_object_value(rec) && fields_of(rec) == enriched_fields(
            object_fields_of(decode_utf8(bytes@)),
            object_strings_of(decode_utf8(bytes@)),
            item.ip@,
            item.ua@,
            item.refer@,
            now,
        ) && strings_of(rec) == enriched_strings(
            object_fields_of(decode_utf8(bytes@)),
            object_strings_of(decode_utf8(bytes@)),
            item.ip@,
            item.ua@,
            item.refer@,
        ),
{
    match decoded_utf8(bytes) {
        Some(t) => build_record_from_text(t.as_str(), item, now),
        None => None,
    }
}

} // verus!
