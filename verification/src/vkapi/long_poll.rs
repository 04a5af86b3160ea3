//! Long-poll event handling: the session state, the classification of one
//! poll response, and the parser that turns a raw update into a message.
//!
//! A response either reports a recoverable failure (the session is stale and
//! is to be re-initiated), a fatal one, or carries a new cursor and an array
//! of updates. A malformed update is dropped; a missing cursor or update
//! array is fatal.

use vstd::prelude::*;
use crate::json::{json_seq_size, json_size, Json};
use crate::vkapi::types::{VkMessage, VkPhoto};

verus! {

/// The long-poll session: key, server address and cursor, replaced wholesale
/// on re-initiation; the cursor alone is replaced on every successful poll.
#[derive(Debug, PartialEq)]
pub struct VkLongPollState {
    pub key: String,
    pub server: String,
    pub ts: String,
}

/// Whether a session-state object carries its three required strings.
pub open spec fn spec_state_parseable(j: Json) -> bool {
    &&& j.spec_get("key"@) matches Some(k) && k.spec_as_str() is Some
    &&& j.spec_get("server"@) matches Some(s) && s.spec_as_str() is Some
    &&& j.spec_get("ts"@) matches Some(t) && t.spec_as_str() is Some
}

/// Parses the session-initiation payload: its `key`, `server` and `ts`
/// strings, each required.
pub fn parse_long_poll_state(j: &Json) -> (r: Option<VkLongPollState>)
    ensures
        r is Some <==> spec_state_parseable(*j),
        r matches Some(st) ==> {
            &&& Some(st.key) == j.spec_get("key"@)->0.spec_as_str()
            &&& Some(st.server) == j.spec_get("server"@)->0.spec_as_str()
            &&& Some(st.ts) == j.spec_get("ts"@)->0.spec_as_str()
        },
{
    let key = match j.get("key") {
        Some(v) => match v.as_str() {
            Some(s) => s.clone(),
            None => {
                return None;
            },
        },
        None => {
            return None;
        },
    };
    let server = match j.get("server") {
        Some(v) => match v.as_str() {
            Some(s) => s.clone(),
            None => {
                return None;
            },
        },
        None => {
            return None;
        },
    };
    let ts = match j.get("ts") {
        Some(v) => match v.as_str() {
            Some(s) => s.clone(),
            None => {
                return None;
            },
        },
        None => {
            return None;
        },
    };
    Some(VkLongPollState { key, server, ts })
}

/// Whether a message object can be parsed at all: only the sender identity
/// is required, and it must be a number in `i64` range.
pub open spec fn spec_message_parseable(j: Json) -> bool {
    j.spec_get("from_id"@) matches Some(v) && v.spec_as_i64() is Some
}

/// The photo object an attachment offers: a document's preview, or the
/// attachment itself.
pub open spec fn spec_photo_obj(att: Json) -> Option<Json> {
    match att.spec_get("doc"@) {
        Some(doc) => doc.spec_get("preview"@),
        None => Some(att),
    }
}

/// The size variants the photo object offers.
pub open spec fn spec_sizes(att: Json) -> Option<Seq<Json>> {
    match spec_photo_obj(att) {
        Some(po) => match po.spec_get("photo"@) {
            Some(ph) => match ph.spec_get("sizes"@) {
                Some(sz) => sz.spec_as_arr(),
                None => None,
            },
            None => None,
        },
        None => None,
    }
}

/// Whether a size variant's code belongs to the admissible set.
pub open spec fn spec_size_admissible(sz: Json) -> bool {
    match sz.spec_get("type"@) {
        Some(t) => match t.spec_as_str() {
            Some(s) => s@ == "m"@ || s@ == "x"@ || s@ == "y"@ || s@ == "z"@ || s@ == "w"@,
            None => false,
        },
        None => false,
    }
}

/// A size variant's width, for choosing the smallest; a missing or
/// malformed width sorts last.
pub open spec fn spec_size_width(sz: Json) -> int {
    match sz.spec_get("width"@) {
        Some(w) => match w.spec_as_u64() {
            Some(u) => u as int,
            None => u64::MAX as int,
        },
        None => u64::MAX as int,
    }
}

/// The better of the running choice and one more variant: admissible and
/// strictly narrower wins, so the earliest narrowest variant is kept.
pub open spec fn spec_better_size(cur: Option<Json>, sz: Json) -> Option<Json> {
    if !spec_size_admissible(sz) {
        cur
    } else {
        match cur {
            None => Some(sz),
            Some(c) => if spec_size_width(sz) < spec_size_width(c) {
                Some(sz)
            } else {
                cur
            },
        }
    }
}

/// The chosen size variant: the first admissible variant of smallest width,
/// or nothing when no variant is admissible.
pub open spec fn spec_pick_size(sizes: Seq<Json>) -> Option<Json>
    decreases sizes.len(),
{
    if sizes.len() == 0 {
        None
    } else {
        spec_better_size(spec_pick_size(sizes.drop_last()), sizes.last())
    }
}

/// The chosen variant's URL: its `url` string, else its `src` string.
pub open spec fn spec_size_url(sz: Json) -> Option<String> {
    match sz.spec_get("url"@) {
        Some(u) => match u.spec_as_str() {
            Some(s) => Some(s),
            None => spec_src_url(sz),
        },
        None => spec_src_url(sz),
    }
}

/// The `src` fallback of a size variant.
pub open spec fn spec_src_url(sz: Json) -> Option<String> {
    match sz.spec_get("src"@) {
        Some(u) => u.spec_as_str(),
        None => None,
    }
}

/// What one attachment contributes: the URL of its chosen size variant.
/// An attachment offering no admissible size is dropped, not defaulted.
pub open spec fn spec_extract_attachment(att: Json) -> Option<String> {
    match spec_sizes(att) {
        Some(sizes) => match spec_pick_size(sizes) {
            Some(sz) => spec_size_url(sz),
            None => None,
        },
        None => None,
    }
}

/// The URLs the attachment array contributes, in order.
pub open spec fn spec_attachment_urls(js: Seq<Json>) -> Seq<String>
    decreases js.len(),
{
    if js.len() == 0 {
        Seq::empty()
    } else {
        spec_attachment_urls(js.drop_last()) + (match spec_extract_attachment(js.last()) {
            Some(u) => seq![u],
            None => Seq::empty(),
        })
    }
}

/// No admissible size variant means no chosen variant at all.
proof fn lemma_pick_size_none(sizes: Seq<Json>)
    requires
        forall|i: int| 0 <= i < sizes.len() ==> !spec_size_admissible(#[trigger] sizes[i]),
    ensures
        spec_pick_size(sizes) is None,
    decreases sizes.len(),
{
    if sizes.len() > 0 {
        assert forall|i: int| 0 <= i < sizes.drop_last().len() implies !spec_size_admissible(
            #[trigger] sizes.drop_last()[i],
        ) by {
            assert(sizes.drop_last()[i] == sizes[i]);
        }
        lemma_pick_size_none(sizes.drop_last());
    }
}

/// Law: an attachment whose size list offers only inadmissible codes is
/// dropped outright, never defaulted to some size.
pub proof fn lemma_inadmissible_sizes_dropped(att: Json)
    requires
        spec_sizes(att) is Some,
        forall|i: int|
            0 <= i < spec_sizes(att)->0.len() ==> !spec_size_admissible(
                #[trigger] spec_sizes(att)->0[i],
            ),
    ensures
        spec_extract_attachment(att) is None,
{
    lemma_pick_size_none(spec_sizes(att)->0);
}

/// `m` is the message parsed from `j`: required sender, text defaulting to
/// empty, attachments reduced to their chosen URLs, forwarded messages and
/// the reply parsed recursively, each unparsable element dropped.
pub open spec fn spec_parses_to(j: Json, m: VkMessage) -> bool
    decreases json_size(j), 0int,
    when json_size(j) >= 1
    via spec_parses_to_decreases
{
    &&& (match j.spec_get("text"@) {
        Some(t) => match t.spec_as_str() {
            Some(s) => m.text@ == s@,
            None => m.text@ == Seq::<char>::empty(),
        },
        None => m.text@ == Seq::<char>::empty(),
    })
    &&& (match j.spec_get("from_id"@) {
        Some(v) => v.spec_as_i64() == Some(m.from_id),
        None => false,
    })
    &&& (match j.spec_get("attachments"@) {
        Some(a) => match a.spec_as_arr() {
            Some(items) => m.attachments@.map_values(|p: VkPhoto| p.0) == spec_attachment_urls(
                items,
            ),
            None => m.attachments@.len() == 0,
        },
        None => m.attachments@.len() == 0,
    })
    &&& (match j.spec_get("fwd_messages"@) {
        Some(a) => match a.spec_as_arr() {
            Some(items) => spec_parses_list(items, m.forwarded@),
            None => m.forwarded@.len() == 0,
        },
        None => m.forwarded@.len() == 0,
    })
    &&& (match j.spec_get("reply_message"@) {
        Some(rj) => if spec_message_parseable(rj) {
            m.reply_to matches Some(rm) && spec_parses_to(rj, *rm)
        } else {
            m.reply_to is None
        },
        None => m.reply_to is None,
    })
}

/// `ms` is the run of messages parsed from `js`, unparsable ones dropped.
pub open spec fn spec_parses_list(js: Seq<Json>, ms: Seq<VkMessage>) -> bool
    decreases json_seq_size(js), 1int,
    when json_seq_size(js) >= 0
    via spec_parses_list_decreases
{
    if js.len() == 0 {
        ms.len() == 0
    } else if spec_message_parseable(js[0]) {
        ms.len() > 0 && spec_parses_to(js[0], ms[0]) && spec_parses_list(
            js.drop_first(),
            ms.drop_first(),
        )
    } else {
        spec_parses_list(js.drop_first(), ms)
    }
}

/// Every JSON tree has at least one node.
proof fn lemma_json_size_pos(j: Json)
    ensures
        json_size(j) >= 1,
{
}

/// A sequence's total size covers its head and its tail.
proof fn lemma_json_seq_size_first(js: Seq<Json>)
    requires
        js.len() > 0,
    ensures
        json_seq_size(js) == json_size(js[0]) + json_seq_size(js.drop_first()),
        json_size(js[0]) <= json_seq_size(js),
        json_seq_size(js.drop_first()) < json_seq_size(js),
{
    lemma_json_size_pos(js[0]);
}

#[via_fn]
proof fn spec_parses_to_decreases(j: Json, m: VkMessage) {
    match j.spec_get("fwd_messages"@) {
        Some(a) => {
            j.lemma_get_size("fwd_messages"@);
            match a.spec_as_arr() {
                Some(items) => {
                    assert(json_size(a) == 1 + json_seq_size(items));
                },
                None => {},
            }
        },
        None => {},
    }
    match j.spec_get("reply_message"@) {
        Some(rj) => {
            j.lemma_get_size("reply_message"@);
        },
        None => {},
    }
}

#[via_fn]
proof fn spec_parses_list_decreases(js: Seq<Json>, ms: Seq<VkMessage>) {
    if js.len() > 0 {
        lemma_json_seq_size_first(js);
    }
}

/// Extracts one attachment: the smallest admissible size variant's URL; a
/// document's preview stands in for the document.
pub fn try_extract_attachment(attachment: &Json) -> (r: Option<VkPhoto>)
    ensures
        match spec_extract_attachment(*attachment) {
            Some(u) => r matches Some(p) && p.0 == u,
            None => r is None,
        },
{
    let photo_obj: &Json = match attachment.get("doc") {
        Some(doc) => match doc.get("preview") {
            Some(p) => p,
            None => {
                return None;
            },
        },
        None => attachment,
    };
    let sizes: &Vec<Json> = match photo_obj.get("photo") {
        Some(ph) => match ph.get("sizes") {
            Some(sz) => match sz.as_arr() {
                Some(items) => items,
                None => {
                    return None;
                },
            },
            None => {
                return None;
            },
        },
        None => {
            return None;
        },
    };
    let n = sizes.len();
    let mut best: Option<usize> = None;
    let mut i: usize = 0;
    proof {
        assert(sizes@.take(0) =~= Seq::<Json>::empty());
    }
    while i < n
        invariant
            n == sizes@.len(),
            0 <= i <= n,
            match best {
                Some(b) => b < i && spec_pick_size(sizes@.take(i as int)) == Some(sizes@[b as int]),
                None => spec_pick_size(sizes@.take(i as int)) is None,
            },
        decreases n - i,
    {
        let admissible = size_type_admissible(&sizes[i]);
        let w = size_width(&sizes[i]);
        let better: bool = if admissible {
            match best {
                None => true,
                Some(b) => w < size_width(&sizes[b]),
            }
        } else {
            false
        };
        proof {
            assert(sizes@.take(i + 1).drop_last() =~= sizes@.take(i as int));
            assert(sizes@.take(i + 1).last() == sizes@[i as int]);
        }
        if better {
            best = Some(i);
        }
        i = i + 1;
    }
    proof {
        assert(sizes@.take(n as int) =~= sizes@);
    }
    match best {
        Some(b) => size_url(&sizes[b]),
        None => None,
    }
}

/// Whether the variant's size code is admissible.
fn size_type_admissible(sz: &Json) -> (r: bool)
    ensures
        r == spec_size_admissible(*sz),
{
    match sz.get("type") {
        Some(t) => match t.as_str() {
            Some(s) => {
                let st = s.as_str();
                crate::text::str_eq(st, "m") || crate::text::str_eq(st, "x") || crate::text::str_eq(
                    st,
                    "y",
                ) || crate::text::str_eq(st, "z") || crate::text::str_eq(st, "w")
            },
            None => false,
        },
        None => false,
    }
}

/// The variant's width, a missing or malformed one sorting last.
fn size_width(sz: &Json) -> (r: u64)
    ensures
        r == spec_size_width(*sz),
{
    match sz.get("width") {
        Some(w) => match w.as_u64() {
            Some(u) => u,
            None => u64::MAX,
        },
        None => u64::MAX,
    }
}

/// The variant's URL: `url`, else `src`.
fn size_url(sz: &Json) -> (r: Option<VkPhoto>)
    ensures
        match spec_size_url(*sz) {
            Some(u) => r matches Some(p) && p.0 == u,
            None => r is None,
        },
{
    match sz.get("url") {
        Some(u) => match u.as_str() {
            Some(s) => Some(VkPhoto(s.clone())),
            None => src_url(sz),
        },
        None => src_url(sz),
    }
}

/// The variant's `src` URL fallback.
fn src_url(sz: &Json) -> (r: Option<VkPhoto>)
    ensures
        match spec_src_url(*sz) {
            Some(u) => r matches Some(p) && p.0 == u,
            None => r is None,
        },
{
    match sz.get("src") {
        Some(u) => match u.as_str() {
            Some(s) => Some(VkPhoto(s.clone())),
            None => None,
        },
        None => None,
    }
}

/// The attachments of a message object, in array order.
fn extract_attachments(items: &Vec<Json>) -> (r: Vec<VkPhoto>)
    ensures
        r@.map_values(|p: VkPhoto| p.0) == spec_attachment_urls(items@),
{
    let n = items.len();
    let mut out: Vec<VkPhoto> = Vec::new();
    let mut i: usize = 0;
    proof {
        assert(items@.take(0) =~= Seq::<Json>::empty());
        assert(out@.map_values(|p: VkPhoto| p.0) =~= spec_attachment_urls(items@.take(0)));
    }
    while i < n
        invariant
            n == items@.len(),
            0 <= i <= n,
            out@.map_values(|p: VkPhoto| p.0) == spec_attachment_urls(items@.take(i as int)),
        decreases n - i,
    {
        let ghost before = out@;
        let got = try_extract_attachment(&items[i]);
        match got {
            Some(p) => {
                out.push(p);
            },
            None => {},
        }
        proof {
            assert(items@.take(i + 1).drop_last() =~= items@.take(i as int));
            assert(items@.take(i + 1).last() == items@[i as int]);
            match spec_extract_attachment(items@[i as int]) {
                Some(u) => {
                    assert(out@ =~= before.push(VkPhoto(u)));
                    assert(out@.map_values(|p: VkPhoto| p.0) =~= before.map_values(
                        |p: VkPhoto| p.0,
                    ).push(u));
                    assert(out@.map_values(|p: VkPhoto| p.0) =~= spec_attachment_urls(
                        items@.take(i + 1),
                    ));
                },
                None => {
                    assert(out@.map_values(|p: VkPhoto| p.0) =~= spec_attachment_urls(
                        items@.take(i + 1),
                    ));
                },
            }
        }
        i = i + 1;
    }
    proof {
        assert(items@.take(n as int) =~= items@);
    }
    out
}

/// Parses one message object. Only the sender identity is required; text,
/// attachments, forwarded messages and the reply are each independently
/// optional, and nested messages are parsed by genuine recursion.
pub fn try_parse_message(message: &Json) -> (r: Option<VkMessage>)
    ensures
        r is Some <==> spec_message_parseable(*message),
        r matches Some(m) ==> spec_parses_to(*message, m),
    decreases json_size(*message), 0int,
{
    let from_id: i64 = match message.get("from_id") {
        Some(v) => match v.as_i64() {
            Some(x) => x,
            None => {
                return None;
            },
        },
        None => {
            return None;
        },
    };
    let text: String = match message.get("text") {
        Some(t) => match t.as_str() {
            Some(s) => s.clone(),
            None => String::new(),
        },
        None => String::new(),
    };
    let attachments: Vec<VkPhoto> = match message.get("attachments") {
        Some(a) => match a.as_arr() {
            Some(items) => extract_attachments(items),
            None => Vec::new(),
        },
        None => Vec::new(),
    };
    let forwarded: Vec<VkMessage> = match message.get("fwd_messages") {
        Some(a) => match a.as_arr() {
            Some(items) => {
                proof {
                    message.lemma_get_size("fwd_messages"@);
                    assert(json_size(*a) == 1 + json_seq_size(items@));
                    assert(items@.skip(0) =~= items@);
                }
                parse_message_list_from(items, 0)
            },
            None => Vec::new(),
        },
        None => Vec::new(),
    };
    let reply_to: Option<Box<VkMessage>> = match message.get("reply_message") {
        Some(rj) => {
            proof {
                message.lemma_get_size("reply_message"@);
            }
            match try_parse_message(rj) {
                Some(m) => Some(Box::new(m)),
                None => None,
            }
        },
        None => None,
    };
    let m = VkMessage { text, from_id, attachments, forwarded, reply_to };
    proof {
        assert(m.attachments@.len() == 0 ==> m.attachments@.map_values(|p: VkPhoto| p.0)
            =~= Seq::<String>::empty());
    }
    Some(m)
}

/// Parses the run of messages from `items[i..]`, dropping unparsable ones.
fn parse_message_list_from(items: &Vec<Json>, i: usize) -> (r: Vec<VkMessage>)
    requires
        i <= items@.len(),
    ensures
        spec_parses_list(items@.skip(i as int), r@),
    decreases json_seq_size(items@.skip(i as int)), 1int,
{
    let n = items.len();
    if i >= n {
        proof {
            assert(items@.skip(i as int) =~= Seq::<Json>::empty());
        }
        Vec::new()
    } else {
        proof {
            lemma_json_seq_size_first(items@.skip(i as int));
            assert(items@.skip(i as int)[0] == items@[i as int]);
            assert(items@.skip(i as int).drop_first() =~= items@.skip(i + 1));
        }
        let head = try_parse_message(&items[i]);
        let rest = parse_message_list_from(items, i + 1);
        match head {
            Some(m) => {
                let mut out: Vec<VkMessage> = Vec::new();
                out.push(m);
                let mut rest_mut = rest;
                let ghost rest_view = rest_mut@;
                out.append(&mut rest_mut);
                proof {
                    assert(out@[0] == m);
                    assert(out@.drop_first() =~= rest_view);
                }
                out
            },
            None => rest,
        }
    }
}

/// Parses one raw update: the message object under `object.message`.
pub open spec fn spec_update_parseable(u: Json) -> bool {
    u.spec_get("object"@) matches Some(o) && o.spec_get("message"@) matches Some(m)
        && spec_message_parseable(m)
}

/// The message object inside a parseable update.
pub open spec fn spec_update_inner(u: Json) -> Json {
    u.spec_get("object"@)->0.spec_get("message"@)->0
}

pub fn try_parse_update(update: &Json) -> (r: Option<VkMessage>)
    ensures
        r is Some <==> spec_update_parseable(*update),
        r matches Some(m) ==> spec_parses_to(spec_update_inner(*update), m),
{
    match update.get("object") {
        Some(o) => match o.get("message") {
            Some(msg) => try_parse_message(msg),
            None => None,
        },
        None => None,
    }
}

/// `ms` is the run of messages parsed from raw updates `js`, in order,
/// unparsable updates dropped.
pub open spec fn spec_parses_updates(js: Seq<Json>, ms: Seq<VkMessage>) -> bool
    decreases js.len(),
{
    if js.len() == 0 {
        ms.len() == 0
    } else if spec_update_parseable(js[0]) {
        ms.len() > 0 && spec_parses_to(spec_update_inner(js[0]), ms[0]) && spec_parses_updates(
            js.drop_first(),
            ms.drop_first(),
        )
    } else {
        spec_parses_updates(js.drop_first(), ms)
    }
}

/// Parses the updates from `items[i..]`.
fn parse_updates_from(items: &Vec<Json>, i: usize) -> (r: Vec<VkMessage>)
    requires
        i <= items@.len(),
    ensures
        spec_parses_updates(items@.skip(i as int), r@),
    decreases items@.len() - i,
{
    let n = items.len();
    if i >= n {
        proof {
            assert(items@.skip(i as int) =~= Seq::<Json>::empty());
        }
        Vec::new()
    } else {
        proof {
            assert(items@.skip(i as int)[0] == items@[i as int]);
            assert(items@.skip(i as int).drop_first() =~= items@.skip(i + 1));
        }
        let head = try_parse_update(&items[i]);
        let rest = parse_updates_from(items, i + 1);
        match head {
            Some(m) => {
                let mut out: Vec<VkMessage> = Vec::new();
                out.push(m);
                let mut rest_mut = rest;
                let ghost rest_view = rest_mut@;
                out.append(&mut rest_mut);
                proof {
                    assert(out@[0] == m);
                    assert(out@.drop_first() =~= rest_view);
                }
                out
            },
            None => rest,
        }
    }
}

/// Why a poll response is fatal.
#[derive(Debug, PartialEq)]
pub enum PollFault {
    /// The server reported an unrecoverable failure code.
    ServerFailure(u64),
    /// The response carries no cursor string.
    MissingTs,
    /// The response carries no update array.
    MissingUpdates,
}

/// What one poll response means.
#[derive(Debug, PartialEq)]
pub enum PollDecision {
    /// A recoverable failure: re-initiate the session and poll again; no
    /// messages this round.
    Recover,
    /// An unrecoverable response: surface the error to the caller.
    Fatal(PollFault),
    /// A successful round: replace the cursor with exactly `new_ts` and
    /// hand the messages to the handler in this order.
    Batch { new_ts: String, messages: Vec<VkMessage> },
}

/// Classifies one poll response. A small `failed` code is recoverable, a
/// large one fatal; otherwise the new cursor and the update array are both
/// required, and each update yields at most one message.
pub fn classify_poll_response(resp: &Json) -> (r: PollDecision)
    ensures
        ({
            let failed_code = match resp.spec_get("failed"@) {
                Some(e) => e.spec_as_u64(),
                None => None,
            };
            let ts_str = match resp.spec_get("ts"@) {
                Some(t) => t.spec_as_str(),
                None => None,
            };
            let upd_arr = match resp.spec_get("updates"@) {
                Some(u) => u.spec_as_arr(),
                None => None,
            };
            match failed_code {
                Some(code) => if code < 4 {
                    r == PollDecision::Recover
                } else {
                    r == PollDecision::Fatal(PollFault::ServerFailure(code))
                },
                None => match ts_str {
                    None => r == PollDecision::Fatal(PollFault::MissingTs),
                    Some(t) => match upd_arr {
                        None => r == PollDecision::Fatal(PollFault::MissingUpdates),
                        Some(items) => r matches PollDecision::Batch { new_ts, messages }
                            && new_ts == t && spec_parses_updates(items, messages@),
                    },
                },
            }
        }),
{
    let failed_code: Option<u64> = match resp.get("failed") {
        Some(e) => e.as_u64(),
        None => None,
    };
    match failed_code {
        Some(code) => {
            if code < 4 {
                PollDecision::Recover
            } else {
                PollDecision::Fatal(PollFault::ServerFailure(code))
            }
        },
        None => {
            let ts: String = match resp.get("ts") {
                Some(t) => match t.as_str() {
                    Some(s) => s.clone(),
                    None => {
                        return PollDecision::Fatal(PollFault::MissingTs);
                    },
                },
                None => {
                    return PollDecision::Fatal(PollFault::MissingTs);
                },
            };
            match resp.get("updates") {
                Some(u) => match u.as_arr() {
                    Some(items) => {
                        proof {
                            assert(items@.skip(0) =~= items@);
                        }
                        let messages = parse_updates_from(items, 0);
                        PollDecision::Batch { new_ts: ts, messages }
                    },
                    None => PollDecision::Fatal(PollFault::MissingUpdates),
                },
                None => PollDecision::Fatal(PollFault::MissingUpdates),
            }
        },
    }
}

} // verus!
