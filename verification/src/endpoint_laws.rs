//! What the endpoints take, give and refuse.
use crate::flows::{lookup_after, submit_after, LookupReply, LookupStep, SubmitReply, SubmitView};
use crate::hash::Hash256;
use crate::hexcodec::{hex_text, law_hex_is_read_back};
use crate::http::{address_in, request_of, stream_rest, RequestView};
use crate::json::JsonView;
use crate::lex::{index_of, is_white, lemma_index_is_first, trimmed, trimmed_end, trimmed_start};
use crate::net::IpAddr;
use crate::rpc::{
    answer_of, batch_fault, batch_item_fault, call_view, first_item_fault, page_part, UtxoRow,
};
use crate::sse::{
    event_text, joined, law_addresses_are_read_back, open_streams, opening_text, query_addresses,
    stream_answer, with_stream, without_stream, ChainEvent,
};
use vstd::prelude::*;
use vstd::string::*;

verus! {

// ---------------------------------------------------------------------------
// Submissions and searches
// ---------------------------------------------------------------------------
/// A submission goes on with every good answer and is refused at the first bad
/// one: bytes that were not read to the end, an id that cannot be told, an
/// objection of the mempool, invalid signatures or amounts, a tip that moved
/// meanwhile. With good answers throughout it is relayed under the id that the
/// mempool gave.
pub proof fn law_submission_stands_or_falls(
    total: usize,
    n: usize,
    tip: Hash256,
    now: Hash256,
    tx_id: Hash256,
)
    ensures
        submit_after(
            SubmitView::Deserialize,
            SubmitReply::Deserialized(Ok(total)),
            total,
        ) is Identify,
        n != total ==> submit_after(
            SubmitView::Deserialize,
            SubmitReply::Deserialized(Ok(n)),
            total,
        ) is Refuse,
        submit_after(SubmitView::Identify, SubmitReply::Identified(Ok(())), total) is PreCheck,
        submit_after(SubmitView::PreCheck, SubmitReply::PreChecked(Ok(())), total) is Validate,
        submit_after(
            SubmitView::Validate,
            SubmitReply::Validated { tip, verdict: Ok(()) },
            total,
        ) == (SubmitView::Recheck { validated_at: tip }),
        submit_after(
            SubmitView::Recheck { validated_at: tip },
            SubmitReply::Tip(tip),
            total,
        ) is Add,
        now != tip ==> submit_after(
            SubmitView::Recheck { validated_at: tip },
            SubmitReply::Tip(now),
            total,
        ) is Refuse,
        submit_after(SubmitView::Add, SubmitReply::Added(Ok(tx_id)), total) == (SubmitView::Relay {
            tx_id,
        }),
{
}

/// Every error that comes in answer to a step of a submission refuses it.
pub proof fn law_errors_refuse_a_submission(m: String, tip: Hash256, total: usize)
    ensures
        submit_after(
            SubmitView::Deserialize,
            SubmitReply::Deserialized(Err(m)),
            total,
        ) is Refuse,
        submit_after(SubmitView::Identify, SubmitReply::Identified(Err(m)), total) is Refuse,
        submit_after(SubmitView::PreCheck, SubmitReply::PreChecked(Err(m)), total) is Refuse,
        submit_after(
            SubmitView::Validate,
            SubmitReply::Validated { tip, verdict: Err(m) },
            total,
        ) is Refuse,
        submit_after(SubmitView::Add, SubmitReply::Added(Err(m)), total) is Refuse,
{
}

/// A transaction is looked for in the mempool first, then in the block that the
/// index names, and is missing only if neither has it.
pub proof fn law_search_goes_on_to_the_blocks(id: Hash256, height: u64, block_id: Hash256)
    ensures
        lookup_after(LookupStep::Mempool, LookupReply::Mempool(true), id) is Waiting,
        lookup_after(LookupStep::Mempool, LookupReply::Mempool(false), id) is Height,
        lookup_after(LookupStep::Height, LookupReply::Height(Some(height)), id) == (
        LookupStep::BlockId { height }),
        lookup_after(LookupStep::Height, LookupReply::Height(None), id) is Missing,
        lookup_after(LookupStep::BlockId { height }, LookupReply::BlockId(None), id) is Missing,
        lookup_after(
            LookupStep::BlockId { height },
            LookupReply::BlockId(Some(block_id)),
            id,
        ) matches LookupStep::Block(p) && p.block_id == block_id && p.height == height,
{
}

// ---------------------------------------------------------------------------
// Lists and pages
// ---------------------------------------------------------------------------
/// A list of addresses is taken exactly if it has between one and a hundred, and
/// each is the hexadecimal text of 32 bytes.
pub proof fn law_address_lists_are_checked(s: Seq<Seq<char>>, i: int)
    ensures
        s.len() == 0 || s.len() > 100 ==> batch_fault(s) is Some,
        0 <= i < s.len() && batch_item_fault(s[i]) is Some ==> batch_fault(s) is Some,
        0 < s.len() <= 100 && (forall|j: int|
            0 <= j < s.len() ==> batch_item_fault(#[trigger] s[j]) is None) ==> batch_fault(s)
            is None,
{
    lemma_first_item(s);
}

proof fn lemma_first_item(s: Seq<Seq<char>>)
    ensures
        first_item_fault(s) is None <==> forall|j: int|
            0 <= j < s.len() ==> batch_item_fault(#[trigger] s[j]) is None,
    decreases s.len(),
{
    if s.len() > 0 {
        let t = s.drop_first();
        lemma_first_item(t);
        assert forall|j: int| 0 < j < s.len() implies #[trigger] s[j] == t[j - 1] by {}
        if forall|j: int| 0 <= j < s.len() ==> batch_item_fault(#[trigger] s[j]) is None {
            assert forall|j: int| 0 <= j < t.len() implies batch_item_fault(#[trigger] t[j])
                is None by {
                assert(s[j + 1] == t[j]);
            }
        }
        if first_item_fault(s) is None {
            assert forall|j: int| 0 <= j < s.len() implies batch_item_fault(#[trigger] s[j])
                is None by {
                if j > 0 {
                    assert(s[j] == t[j - 1]);
                }
            }
        }
    }
}

/// An address of a list is good exactly if it is the text of 32 bytes.
pub proof fn law_listed_address_has_32_bytes(b: Seq<u8>)
    ensures
        batch_item_fault(hex_text(b)) is None <==> b.len() == 32,
{
    law_hex_is_read_back(b);
}

/// A page holds the first outputs that the store gave, in order: all of them, or
/// as many as fit.
pub proof fn law_page_is_the_first_part(rows: Seq<UtxoRow>, page: usize, i: int)
    ensures
        page_part(rows, page).len() == (if rows.len() <= page {
            rows.len() as int
        } else {
            page as int
        }),
        0 <= i < page_part(rows, page).len() ==> page_part(rows, page)[i] == rows[i],
{
}

// ---------------------------------------------------------------------------
// Streams
// ---------------------------------------------------------------------------
/// A request for a stream is granted exactly if there is a free slot, its address
/// has fewer than four streams open, and its query names no more than 256
/// addresses; what is granted is what the query names.
pub proof fn law_streams_are_granted_within_limits(
    pool_free: bool,
    counts: Map<IpAddr, usize>,
    ip: IpAddr,
    query: Seq<char>,
)
    ensures
        ({
            let a = stream_answer(pool_free, counts, ip, query);
            let few = !counts.contains_key(ip) || counts[ip] < 4;
            &&& a is Ok <==> pool_free && few && (query_addresses(query) matches Ok(v) && v.len()
                <= 256)
            &&& a matches Ok(v) ==> query_addresses(query) == Ok::<_, Seq<char>>(v)
            &&& !pool_free ==> a is Err && a->Err_0.0 == 503
            &&& pool_free && !few ==> a is Err && a->Err_0.0 == 429
            &&& pool_free && few && a is Err ==> a->Err_0.0 == 400
        }),
{
}

/// A query that names up to 256 addresses of 32 bytes opens a stream that follows
/// exactly them.
pub proof fn law_stream_follows_what_was_asked(
    counts: Map<IpAddr, usize>,
    ip: IpAddr,
    addresses: Seq<Seq<u8>>,
)
    requires
        0 < addresses.len() <= 256,
        forall|i: int| 0 <= i < addresses.len() ==> (#[trigger] addresses[i]).len() == 32,
        !counts.contains_key(ip),
    ensures
        stream_answer(true, counts, ip, "addresses="@ + joined(addresses)) == Ok::<
            Seq<Seq<u8>>,
            (u16, Seq<char>),
        >(addresses),
{
    law_addresses_are_read_back(addresses);
}

/// A stream that opens counts for its address and no other; one that closes counts
/// no longer.
pub proof fn law_streams_are_counted(m: Map<IpAddr, usize>, ip: IpAddr, other: IpAddr)
    requires
        other != ip,
        open_streams(m, ip) < usize::MAX,
    ensures
        open_streams(with_stream(m, ip), ip) == open_streams(m, ip) + 1,
        open_streams(with_stream(m, ip), other) == open_streams(m, other),
        open_streams(without_stream(m, ip), other) == open_streams(m, other),
        open_streams(m, ip) > 0 ==> open_streams(without_stream(m, ip), ip) == open_streams(m, ip)
            - 1,
{
}

/// Whether a text stands in another one.
pub open spec fn holds_text(s: Seq<char>, part: Seq<char>) -> bool {
    exists|i: int| 0 <= i <= s.len() - part.len() && #[trigger] s.subrange(i, i + part.len()) == part
}

/// An event names its kind and what has changed: the script in hexadecimal, or the
/// height of the tip.
pub proof fn law_events_name_what_changed(script: Vec<u8>, height: u64)
    ensures
        holds_text(event_text(ChainEvent::ScriptChanged(script)), "script_changed"@),
        holds_text(event_text(ChainEvent::ScriptChanged(script)), hex_text(script@)),
        holds_text(event_text(ChainEvent::TipChanged { height }), "tip"@),
        holds_text(
            event_text(ChainEvent::TipChanged { height }),
            crate::text::decimal(height as nat),
        ),
        holds_text(event_text(ChainEvent::Resync), "resync"@),
{
    reveal_strlit("event: script_changed\ndata: {\"script\":\"");
    reveal_strlit("event: tip\ndata: {\"height\":");
    reveal_strlit("event: resync\ndata: {}\n\n");
    reveal_strlit("script_changed");
    reveal_strlit("tip");
    reveal_strlit("resync");
    let e = event_text(ChainEvent::ScriptChanged(script));
    let p = "event: script_changed\ndata: {\"script\":\""@;
    let h = hex_text(script@);
    assert(e.subrange(7, 7 + "script_changed"@.len() as int) =~= "script_changed"@);
    assert(e.subrange(p.len() as int, p.len() as int + h.len()) =~= h);
    let t = event_text(ChainEvent::TipChanged { height });
    let q = "event: tip\ndata: {\"height\":"@;
    let d = crate::text::decimal(height as nat);
    assert(t.subrange(7, 7 + "tip"@.len() as int) =~= "tip"@);
    assert(t.subrange(q.len() as int, q.len() as int + d.len()) =~= d);
    let r = event_text(ChainEvent::Resync);
    assert(r.subrange(7, 7 + "resync"@.len() as int) =~= "resync"@);
}

/// A stream opens with an event for each script that it follows, in order.
pub proof fn law_stream_opens_with_every_script(scripts: Seq<Seq<u8>>, script: Vec<u8>)
    ensures
        opening_text(Seq::empty()) == Seq::<char>::empty(),
        opening_text(scripts.push(script@)) == opening_text(scripts) + event_text(
            ChainEvent::ScriptChanged(script),
        ),
{
    assert(scripts.push(script@).drop_last() =~= scripts);
}

// ---------------------------------------------------------------------------
// Requests
// ---------------------------------------------------------------------------
/// A request that is not for a stream is a call only if it is a POST with a body
/// of between one byte and two and a half megabytes.
pub proof fn law_calls_have_a_body(head: Seq<char>)
    ensures
        request_of(head) matches RequestView::Call { content_length } ==> 0 < content_length
            <= 2_621_440 && crate::text::is_prefix("POST "@, head),
        stream_rest(crate::http::first_line(head)) is Some <==> request_of(head) is Stream,
        request_of(head) is WrongMethod <==> !(request_of(head) is Stream)
            && !crate::text::is_prefix("POST "@, head),
{
}

/// The address in a URL is what stands between the scheme and the first slash.
pub proof fn law_address_of_a_url(host: Seq<char>, path: Seq<char>)
    requires
        forall|i: int| 0 <= i < host.len() ==> host[i] != '/',
    ensures
        address_in("http://"@ + host) == host,
        address_in("http://"@ + host + seq!['/'] + path) == host,
{
    reveal_strlit("http://");
    let p = "http://"@;
    let a = p + host;
    let b = p + host + seq!['/'] + path;
    assert(a.take(p.len() as int) =~= p);
    assert(b.take(p.len() as int) =~= p);
    assert(a.skip(p.len() as int) =~= host);
    let rest = host + seq!['/'] + path;
    assert(b.skip(p.len() as int) =~= rest);
    lemma_index_is_first(host, '/');
    lemma_index_is_first(rest, '/');
    let i = index_of(rest, '/');
    assert(rest[host.len() as int] == '/');
    if 0 <= i < host.len() {
        assert(rest[i] == host[i]);
    }
    assert(i == host.len());
    assert(rest.take(i) =~= host);
}

/// What a node answers is what its caller reads: a result if there is no error,
/// and else the error's message.
pub proof fn law_answers_are_read(fields: Map<Seq<char>, JsonView>, x: JsonView, m: Seq<char>)
    ensures
        ({
            let v = JsonView::Object(fields);
            let e = fields["error"@];
            let failed = fields.contains_key("error"@) && !(e is Null);
            &&& !failed && fields.contains_key("result"@) ==> answer_of(v) == Ok::<_, Seq<char>>(
                fields["result"@],
            )
            &&& !failed && !fields.contains_key("result"@) ==> answer_of(v) is Err
            &&& failed ==> answer_of(v) is Err
            &&& failed && (e matches JsonView::Object(f) && f.contains_key("message"@)
                && f["message"@] == JsonView::Text(m)) ==> answer_of(v) == Err::<JsonView, _>(
                "RPC error: "@ + m,
            )
        }),
{
}

/// A call names its method and hands over its parameters, under version 2.0.
pub proof fn law_call_says_what_is_asked(method: Seq<char>, params: JsonView)
    ensures
        call_view(method, params) matches JsonView::Object(f) && f.contains_key("method"@)
            && f["method"@] == JsonView::Text(method) && f.contains_key("params"@) && f["params"@]
            == params && f.contains_key("jsonrpc"@) && f["jsonrpc"@] == JsonView::Text("2.0"@),
{
    reveal_strlit("method");
    reveal_strlit("params");
    reveal_strlit("jsonrpc");
    reveal_strlit("id");
    assert("method"@[0] != "params"@[0]);
    assert("method"@.len() == 6 && "params"@.len() == 6 && "jsonrpc"@.len() == 7 && "id"@.len()
        == 2);
}

/// A text without the white space around it neither begins nor ends with any, and
/// is a part of the text; one without such white space stays as it is.
pub proof fn law_white_space_is_trimmed(s: Seq<char>)
    ensures
        trimmed(s).len() > 0 ==> !is_white(trimmed(s)[0]) && !is_white(trimmed(s).last()),
        s.len() > 0 && !is_white(s[0]) && !is_white(s.last()) ==> trimmed(s) == s,
        trimmed(s).len() <= s.len(),
{
    lemma_trim_start(s);
    lemma_trim_end(trimmed_start(s));
}

proof fn lemma_trim_start(s: Seq<char>)
    ensures
        trimmed_start(s).len() > 0 ==> !is_white(trimmed_start(s)[0]),
        s.len() > 0 && !is_white(s[0]) ==> trimmed_start(s) == s,
        trimmed_start(s).len() <= s.len(),
    decreases s.len(),
{
    if s.len() > 0 && is_white(s[0]) {
        lemma_trim_start(s.drop_first());
    }
}

proof fn lemma_trim_end(s: Seq<char>)
    ensures
        trimmed_end(s).len() > 0 ==> !is_white(trimmed_end(s).last()),
        s.len() > 0 && !is_white(s.last()) ==> trimmed_end(s) == s,
        trimmed_end(s).len() <= s.len(),
        trimmed_end(s).len() > 0 ==> trimmed_end(s)[0] == s[0],
    decreases s.len(),
{
    if s.len() > 0 && is_white(s.last()) {
        lemma_trim_end(s.drop_last());
    }
}

} // verus!
