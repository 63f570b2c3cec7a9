//! Streams of events for those who follow some addresses.
use crate::assoc::AssocMap;
use crate::hexcodec::{
    decode_hex, hex_decoded, hex_encode, hex_text, law_hex_is_read_back, lemma_hex_text,
};
use crate::lex::{
    after_prefix, from_chars, index_of, lemma_index_is_first, split, split_on, strip_prefix, texts,
};
use crate::net::IpAddr;
use crate::text::{cat2, cat3, cat_num, decimal, push_decimal, to_chars};
use vstd::prelude::*;
use vstd::string::*;
use vstd::utf8::encode_utf8;

verus! {

/// How many streams are open at a time.
pub const MAX_RPC_SSE_CONNECTIONS: usize = 256;

/// How many streams one address may have open.
pub const MAX_RPC_SSE_PER_IP: usize = 4;

/// How many addresses one stream may follow.
pub const MAX_RPC_SSE_ADDRESSES: usize = 256;

/// How long a stream is silent at most, in seconds.
pub const HEARTBEAT_SECS: u64 = 25;

// ---------------------------------------------------------------------------
// Which addresses a stream follows
// ---------------------------------------------------------------------------
/// The value of the first parameter of the name.
pub open spec fn addresses_value(pairs: Seq<Seq<char>>) -> Option<Seq<char>>
    decreases pairs.len(),
{
    if pairs.len() == 0 {
        None
    } else {
        match after_prefix(pairs[0], "addresses="@) {
            Some(v) => Some(v),
            None => addresses_value(pairs.drop_first()),
        }
    }
}

/// The bytes of an address, or what is wrong with it.
pub open spec fn token_bytes(token: Seq<char>) -> Result<Seq<u8>, Seq<char>> {
    match hex_decoded(encode_utf8(token)) {
        Err(e) => Err("address `"@ + token + "` is not hex: "@ + e.text()),
        Ok(b) => if b.len() != 32 {
            Err("address must decode to 32 bytes, `"@ + token + "` gave "@ + decimal(b.len()))
        } else {
            Ok(b)
        },
    }
}

/// The bytes of each address, or what is wrong with the first one that is no
/// good.
pub open spec fn tokens_bytes(tokens: Seq<Seq<char>>) -> Result<Seq<Seq<u8>>, Seq<char>>
    decreases tokens.len(),
{
    if tokens.len() == 0 {
        Ok(Seq::empty())
    } else {
        match tokens_bytes(tokens.drop_last()) {
            Err(e) => Err(e),
            Ok(init) => match token_bytes(tokens.last()) {
                Err(e) => Err(e),
                Ok(b) => Ok(init.push(b)),
            },
        }
    }
}

/// The addresses that a query names, or what is wrong with it.
pub open spec fn query_addresses(query: Seq<char>) -> Result<Seq<Seq<u8>>, Seq<char>> {
    match addresses_value(split_on(query, '&')) {
        None => Err("missing addresses= query param"@),
        Some(raw) => if raw.len() == 0 {
            Err("empty addresses list"@)
        } else {
            tokens_bytes(split_on(raw, ','))
        },
    }
}

/// The contents of lists of bytes.
pub open spec fn byte_lists(s: Seq<Vec<u8>>) -> Seq<Seq<u8>> {
    s.map_values(|v: Vec<u8>| v@)
}

fn find_addresses(pairs: &Vec<Vec<char>>) -> (r: Option<Vec<char>>)
    ensures
        match r {
            Some(v) => addresses_value(texts(pairs@)) == Some(v@),
            None => addresses_value(texts(pairs@)) is None,
        },
{
    let name = to_chars("addresses=");
    let ghost all = texts(pairs@);
    let mut i: usize = 0;
    assert(all.skip(0) =~= all);
    while i < pairs.len()
        invariant
            all == texts(pairs@),
            name@ == "addresses="@,
            i <= pairs@.len(),
            addresses_value(all.skip(i as int)) == addresses_value(all),
        decreases pairs@.len() - i,
    {
        assert(all.skip(i as int)[0] == pairs@[i as int]@);
        assert(all.skip(i as int).drop_first() =~= all.skip(i + 1));
        match strip_prefix(pairs[i].as_slice(), name.as_slice()) {
            Some(v) => {
                return Some(v);
            },
            None => {},
        }
        i = i + 1;
    }
    None
}

fn decode_token(token: &Vec<char>) -> (r: Result<Vec<u8>, String>)
    ensures
        match r {
            Ok(b) => token_bytes(token@) == Ok::<Seq<u8>, Seq<char>>(b@),
            Err(e) => token_bytes(token@) == Err::<Seq<u8>, Seq<char>>(e@),
        },
{
    let text = from_chars(token.as_slice());
    match decode_hex(text.as_str()) {
        Err(e) => {
            let m = e.message();
            let mut s = cat3("address `", text.as_str(), "` is not hex: ");
            s.append(m.as_str());
            Err(s)
        },
        Ok(b) => {
            if b.len() != 32 {
                let mut s = cat3(
                    "address must decode to 32 bytes, `",
                    text.as_str(),
                    "` gave ",
                );
                push_decimal(&mut s, b.len() as u64);
                return Err(s);
            }
            Ok(b)
        },
    }
}

proof fn lemma_tokens_fail(tokens: Seq<Seq<char>>, n: int)
    requires
        0 <= n <= tokens.len(),
        tokens_bytes(tokens.take(n)) is Err,
    ensures
        tokens_bytes(tokens) == tokens_bytes(tokens.take(n)),
    decreases tokens.len(),
{
    if n == tokens.len() {
        assert(tokens.take(n) =~= tokens);
    } else {
        let init = tokens.drop_last();
        assert(init.take(n) =~= tokens.take(n));
        lemma_tokens_fail(init, n);
    }
}

/// The addresses that a query names.
pub fn parse_addresses(query: &str) -> (r: Result<Vec<Vec<u8>>, String>)
    ensures
        match r {
            Ok(v) => query_addresses(query@) == Ok::<Seq<Seq<u8>>, Seq<char>>(byte_lists(v@)),
            Err(e) => query_addresses(query@) == Err::<Seq<Seq<u8>>, Seq<char>>(e@),
        },
{
    let chars = to_chars(query);
    let pairs = split(chars.as_slice(), '&');
    let raw = match find_addresses(&pairs) {
        None => {
            return Err(String::from_str("missing addresses= query param"));
        },
        Some(v) => v,
    };
    if raw.len() == 0 {
        return Err(String::from_str("empty addresses list"));
    }
    let tokens = split(raw.as_slice(), ',');
    let ghost all = texts(tokens@);
    let mut out: Vec<Vec<u8>> = Vec::new();
    let mut i: usize = 0;
    assert(byte_lists(out@) =~= Seq::<Seq<u8>>::empty());
    while i < tokens.len()
        invariant
            all == texts(tokens@),
            i <= tokens@.len(),
            query_addresses(query@) == tokens_bytes(all),
            tokens_bytes(all.take(i as int)) == Ok::<Seq<Seq<u8>>, Seq<char>>(byte_lists(out@)),
        decreases tokens@.len() - i,
    {
        let ghost next = all.take(i + 1);
        let ghost before = out@;
        assert(next.drop_last() =~= all.take(i as int));
        assert(next.last() == tokens@[i as int]@);
        match decode_token(&tokens[i]) {
            Err(e) => {
                proof {
                    lemma_tokens_fail(all, i + 1);
                }
                return Err(e);
            },
            Ok(b) => {
                out.push(b);
                assert(byte_lists(out@) =~= byte_lists(before).push(b@));
            },
        }
        i = i + 1;
    }
    assert(all.take(i as int) =~= all);
    Ok(out)
}

/// The addresses of a query are 32 bytes each.
pub proof fn law_followed_addresses_have_their_length(tokens: Seq<Seq<char>>)
    ensures
        match tokens_bytes(tokens) {
            Ok(v) => v.len() == tokens.len() && forall|i: int|
                0 <= i < v.len() ==> (#[trigger] v[i]).len() == 32,
            Err(_) => true,
        },
    decreases tokens.len(),
{
    if tokens.len() > 0 {
        law_followed_addresses_have_their_length(tokens.drop_last());
    }
}

/// Addresses in a row, with commas between them.
pub open spec fn joined(addresses: Seq<Seq<u8>>) -> Seq<char>
    decreases addresses.len(),
{
    if addresses.len() == 0 {
        Seq::empty()
    } else if addresses.len() == 1 {
        hex_text(addresses[0])
    } else {
        hex_text(addresses[0]) + seq![','] + joined(addresses.drop_first())
    }
}

/// The texts of addresses.
pub open spec fn hex_texts(addresses: Seq<Seq<u8>>) -> Seq<Seq<char>> {
    addresses.map_values(|a: Seq<u8>| hex_text(a))
}

proof fn lemma_joined_is_plain(addresses: Seq<Seq<u8>>)
    ensures
        forall|i: int| 0 <= i < joined(addresses).len() ==> joined(addresses)[i] != '&',
    decreases addresses.len(),
{
    if addresses.len() > 0 {
        lemma_hex_text(addresses[0]);
        let h = hex_text(addresses[0]);
        assert forall|i: int| 0 <= i < h.len() implies h[i] != '&' by {}
        if addresses.len() > 1 {
            lemma_joined_is_plain(addresses.drop_first());
            let j = joined(addresses);
            let rest = joined(addresses.drop_first());
            assert forall|i: int| 0 <= i < j.len() implies j[i] != '&' by {
                if i < h.len() {
                    assert(j[i] == h[i]);
                } else if i > h.len() {
                    assert(j[i] == rest[i - h.len() - 1]);
                }
            }
        }
    }
}

proof fn lemma_split_none(s: Seq<char>, c: char)
    requires
        forall|i: int| 0 <= i < s.len() ==> s[i] != c,
    ensures
        split_on(s, c) == seq![s],
{
    lemma_index_is_first(s, c);
}

proof fn lemma_split_joined(addresses: Seq<Seq<u8>>)
    requires
        addresses.len() > 0,
    ensures
        split_on(joined(addresses), ',') == hex_texts(addresses),
    decreases addresses.len(),
{
    let h = hex_text(addresses[0]);
    lemma_hex_text(addresses[0]);
    assert forall|i: int| 0 <= i < h.len() implies h[i] != ',' by {}
    if addresses.len() == 1 {
        lemma_split_none(h, ',');
        assert(hex_texts(addresses) =~= seq![h]);
    } else {
        let rest = joined(addresses.drop_first());
        let s = h + seq![','] + rest;
        lemma_index_is_first(s, ',');
        let i = index_of(s, ',');
        assert(s[h.len() as int] == ',');
        if i < h.len() {
            assert(s[i] == h[i]);
        }
        assert(i == h.len());
        assert(s.take(i) =~= h);
        assert(s.skip(i + 1) =~= rest);
        lemma_split_joined(addresses.drop_first());
        assert(seq![h] + hex_texts(addresses.drop_first()) =~= hex_texts(addresses));
    }
}

proof fn lemma_tokens_read_back(addresses: Seq<Seq<u8>>)
    requires
        forall|i: int| 0 <= i < addresses.len() ==> (#[trigger] addresses[i]).len() == 32,
    ensures
        tokens_bytes(hex_texts(addresses)) == Ok::<Seq<Seq<u8>>, Seq<char>>(addresses),
    decreases addresses.len(),
{
    let t = hex_texts(addresses);
    if addresses.len() == 0 {
        assert(addresses =~= Seq::<Seq<u8>>::empty());
    } else {
        let init = addresses.drop_last();
        assert forall|i: int| 0 <= i < init.len() implies (#[trigger] init[i]).len() == 32 by {
            assert(init[i] == addresses[i]);
        }
        lemma_tokens_read_back(init);
        assert(t.drop_last() =~= hex_texts(init));
        law_hex_is_read_back(addresses.last());
        assert(addresses[addresses.len() - 1].len() == 32);
        assert(init.push(addresses.last()) =~= addresses);
    }
}

/// A query that names some addresses is read back as those addresses, in their
/// order.
pub proof fn law_addresses_are_read_back(addresses: Seq<Seq<u8>>)
    requires
        addresses.len() > 0,
        forall|i: int| 0 <= i < addresses.len() ==> (#[trigger] addresses[i]).len() == 32,
    ensures
        query_addresses("addresses="@ + joined(addresses)) == Ok::<Seq<Seq<u8>>, Seq<char>>(
            addresses,
        ),
{
    reveal_strlit("addresses=");
    let p = "addresses="@;
    let j = joined(addresses);
    let q = p + j;
    lemma_joined_is_plain(addresses);
    assert forall|i: int| 0 <= i < q.len() implies q[i] != '&' by {
        if i >= p.len() {
            assert(q[i] == j[i - p.len()]);
        }
    }
    lemma_split_none(q, '&');
    assert(q.take(p.len() as int) =~= p);
    assert(q.skip(p.len() as int) =~= j);
    lemma_split_joined(addresses);
    lemma_tokens_read_back(addresses);
    lemma_hex_text(addresses[0]);
    assert(addresses[0].len() == 32);
    assert(j.len() > 0);
}

// ---------------------------------------------------------------------------
// How many streams an address has open
// ---------------------------------------------------------------------------
/// How many streams each address has open.
pub struct SsePerIp {
    counts: AssocMap<IpAddr, usize>,
}

impl View for SsePerIp {
    type V = Map<IpAddr, usize>;

    closed spec fn view(&self) -> Map<IpAddr, usize> {
        self.counts@
    }
}

/// How many streams an address has open.
pub open spec fn open_streams(m: Map<IpAddr, usize>, ip: IpAddr) -> int {
    if m.contains_key(ip) {
        m[ip] as int
    } else {
        0
    }
}

/// The counts with one more stream of an address.
pub open spec fn with_stream(m: Map<IpAddr, usize>, ip: IpAddr) -> Map<IpAddr, usize> {
    m.insert(ip, (open_streams(m, ip) + 1) as usize)
}

/// The counts with one stream of an address less.
pub open spec fn without_stream(m: Map<IpAddr, usize>, ip: IpAddr) -> Map<IpAddr, usize> {
    if !m.contains_key(ip) {
        m
    } else if m[ip] <= 1 {
        m.remove(ip)
    } else {
        m.insert(ip, (m[ip] - 1) as usize)
    }
}

/// Only addresses with open streams are counted, and none has too many.
pub open spec fn counts_inv(m: Map<IpAddr, usize>) -> bool {
    forall|ip: IpAddr| #[trigger]
        m.contains_key(ip) ==> 1 <= m[ip] <= MAX_RPC_SSE_PER_IP
}

/// An open stream of an address.
#[derive(Debug)]
pub struct IpGuard {
    pub ip: IpAddr,
}

impl SsePerIp {
    /// No address is held twice; see `counts_inv`.
    pub closed spec fn wf(&self) -> bool {
        self.counts.wf() && counts_inv(self.counts@)
    }

    /// What is counted of a well-formed counter.
    pub proof fn lemma_counts(&self)
        requires
            self.wf(),
        ensures
            counts_inv(self@),
    {
    }
}

/// A counter without streams.
pub fn new_per_ip_counter() -> (r: SsePerIp)
    ensures
        r.wf(),
        r@ == Map::<IpAddr, usize>::empty(),
{
    SsePerIp { counts: AssocMap::new() }
}

/// Counts a stream of an address, unless the address has as many open as it
/// may have.
pub fn try_acquire_per_ip(counter: &mut SsePerIp, ip: IpAddr) -> (r: Result<IpGuard, ()>)
    requires
        old(counter).wf(),
    ensures
        final(counter).wf(),
        match r {
            Ok(g) => g.ip == ip && open_streams(old(counter)@, ip) < MAX_RPC_SSE_PER_IP
                && final(counter)@ == with_stream(old(counter)@, ip),
            Err(_) => open_streams(old(counter)@, ip) >= MAX_RPC_SSE_PER_IP && final(counter)@
                == old(counter)@,
        },
{
    let n: usize = match counter.counts.get(&ip) {
        Some(n) => *n,
        None => 0,
    };
    if n >= MAX_RPC_SSE_PER_IP {
        return Err(());
    }
    let prev = counter.counts.insert(ip, n + 1);
    Ok(IpGuard { ip })
}

/// Counts a stream as closed.
pub fn release_per_ip(counter: &mut SsePerIp, guard: IpGuard)
    requires
        old(counter).wf(),
    ensures
        final(counter).wf(),
        final(counter)@ == without_stream(old(counter)@, guard.ip),
{
    let n: usize = match counter.counts.get(&guard.ip) {
        Some(n) => *n,
        None => {
            return ;
        },
    };
    if n <= 1 {
        let prev = counter.counts.remove(&guard.ip);
    } else {
        let prev = counter.counts.insert(guard.ip, n - 1);
    }
}

/// Closing a stream undoes the counting of it.
pub proof fn law_closing_undoes_opening(m: Map<IpAddr, usize>, ip: IpAddr)
    requires
        counts_inv(m),
    ensures
        without_stream(with_stream(m, ip), ip) == m,
{
    assert(without_stream(with_stream(m, ip), ip) =~= m);
}

/// An address that has as many streams as it may have gets another one after
/// one of them is closed.
pub proof fn law_closing_makes_room(m: Map<IpAddr, usize>, ip: IpAddr)
    requires
        counts_inv(m),
        m.contains_key(ip),
    ensures
        open_streams(without_stream(m, ip), ip) < MAX_RPC_SSE_PER_IP,
{
}

// ---------------------------------------------------------------------------
// Opening a stream
// ---------------------------------------------------------------------------
/// Why a stream is not opened.
#[derive(Debug)]
pub struct Refusal {
    pub code: u16,
    pub message: String,
}

/// An open stream.
#[derive(Debug)]
pub struct OpenStream {
    pub scripts: Vec<Vec<u8>>,
    pub guard: IpGuard,
}

/// What is answered to a request for a stream: the addresses that it follows,
/// or the status and the message of a refusal.
pub open spec fn stream_answer(
    pool_free: bool,
    counts: Map<IpAddr, usize>,
    ip: IpAddr,
    query: Seq<char>,
) -> Result<Seq<Seq<u8>>, (u16, Seq<char>)> {
    if !pool_free {
        Err((503, "SSE connection pool exhausted"@))
    } else if open_streams(counts, ip) >= MAX_RPC_SSE_PER_IP {
        Err((429, "Too many SSE connections from this IP"@))
    } else {
        match query_addresses(query) {
            Err(e) => Err((400, "bad query: "@ + e)),
            Ok(v) => if v.len() > MAX_RPC_SSE_ADDRESSES {
                Err(
                    (
                        400,
                        "too many addresses ("@ + decimal(v.len()) + "); max is "@ + decimal(
                            MAX_RPC_SSE_ADDRESSES as nat,
                        ),
                    ),
                )
            } else {
                Ok(v)
            },
        }
    }
}

/// Answers a request for a stream. `pool_free` says whether there is room for
/// another one. A stream that is opened is counted; a request that is refused
/// leaves the counts as they were.
pub fn open_stream(pool_free: bool, counter: &mut SsePerIp, ip: IpAddr, query: &str) -> (r: Result<
    OpenStream,
    Refusal,
>)
    requires
        old(counter).wf(),
    ensures
        final(counter).wf(),
        match r {
            Ok(s) => {
                &&& stream_answer(pool_free, old(counter)@, ip, query@) == Ok::<
                    Seq<Seq<u8>>,
                    (u16, Seq<char>),
                >(byte_lists(s.scripts@))
                &&& s.guard.ip == ip
                &&& final(counter)@ == with_stream(old(counter)@, ip)
            },
            Err(e) => {
                &&& stream_answer(pool_free, old(counter)@, ip, query@) == Err::<
                    Seq<Seq<u8>>,
                    (u16, Seq<char>),
                >((e.code, e.message@))
                &&& final(counter)@ == old(counter)@
            },
        },
{
    if !pool_free {
        return Err(
            Refusal { code: 503, message: String::from_str("SSE connection pool exhausted") },
        );
    }
    let guard = match try_acquire_per_ip(counter, ip) {
        Ok(g) => g,
        Err(_) => {
            return Err(
                Refusal {
                    code: 429,
                    message: String::from_str("Too many SSE connections from this IP"),
                },
            );
        },
    };
    proof {
        old(counter).lemma_counts();
        law_closing_undoes_opening(old(counter)@, ip);
    }
    match parse_addresses(query) {
        Err(e) => {
            release_per_ip(counter, guard);
            Err(Refusal { code: 400, message: cat2("bad query: ", e.as_str()) })
        },
        Ok(scripts) => {
            if scripts.len() > MAX_RPC_SSE_ADDRESSES {
                release_per_ip(counter, guard);
                let mut s = cat_num("too many addresses (", scripts.len() as u64, "); max is ");
                push_decimal(&mut s, MAX_RPC_SSE_ADDRESSES as u64);
                return Err(Refusal { code: 400, message: s });
            }
            Ok(OpenStream { scripts, guard })
        },
    }
}

// ---------------------------------------------------------------------------
// What is sent
// ---------------------------------------------------------------------------
/// The words for the status of a refusal.
pub open spec fn reason_text(code: u16) -> Seq<char> {
    if code == 400 {
        "Bad Request"@
    } else if code == 429 {
        "Too Many Requests"@
    } else if code == 503 {
        "Service Unavailable"@
    } else {
        "Error"@
    }
}

/// A refusal as it is sent.
pub open spec fn refusal_text(code: u16, message: Seq<char>) -> Seq<char> {
    "HTTP/1.1 "@ + decimal(code as nat) + " "@ + reason_text(code)
        + "\r\nContent-Type: text/plain\r\nContent-Length: "@ + decimal(encode_utf8(message).len())
        + "\r\nConnection: close\r\n\r\n"@ + message
}

/// A refusal as it is sent.
pub fn refusal_payload(refusal: &Refusal) -> (r: String)
    ensures
        r@ == refusal_text(refusal.code, refusal.message@),
{
    let reason = if refusal.code == 400 {
        "Bad Request"
    } else if refusal.code == 429 {
        "Too Many Requests"
    } else if refusal.code == 503 {
        "Service Unavailable"
    } else {
        "Error"
    };
    let mut s = cat_num("HTTP/1.1 ", refusal.code as u64, " ");
    s.append(reason);
    s.append("\r\nContent-Type: text/plain\r\nContent-Length: ");
    push_decimal(&mut s, refusal.message.as_str().as_bytes().len() as u64);
    s.append("\r\nConnection: close\r\n\r\n");
    s.append(refusal.message.as_str());
    s
}

/// The head of a stream.
pub fn stream_head() -> (r: &'static str)
    ensures
        r@
            == "HTTP/1.1 200 OK\r\nContent-Type: text/event-stream\r\nCache-Control: no-cache\r\nConnection: keep-alive\r\nX-Accel-Buffering: no\r\n\r\n"@,
{
    "HTTP/1.1 200 OK\r\nContent-Type: text/event-stream\r\nCache-Control: no-cache\r\nConnection: keep-alive\r\nX-Accel-Buffering: no\r\n\r\n"
}

/// Something that happened to the chain.
#[derive(Debug)]
pub enum ChainEvent {
    /// Something changed for a script.
    ScriptChanged(Vec<u8>),
    TipChanged { height: u64 },
    /// Events were lost: everything is to be read again.
    Resync,
}

/// An event as it is sent.
pub open spec fn event_text(e: ChainEvent) -> Seq<char> {
    match e {
        ChainEvent::ScriptChanged(s) => "event: script_changed\ndata: {\"script\":\""@ + hex_text(
            s@,
        ) + "\"}\n\n"@,
        ChainEvent::TipChanged { height } => "event: tip\ndata: {\"height\":"@ + decimal(
            height as nat,
        ) + "}\n\n"@,
        ChainEvent::Resync => "event: resync\ndata: {}\n\n"@,
    }
}

/// An event as it is sent.
pub fn event_payload(e: &ChainEvent) -> (r: String)
    ensures
        r@ == event_text(*e),
{
    match e {
        ChainEvent::ScriptChanged(s) => {
            let h = hex_encode(s.as_slice());
            cat3("event: script_changed\ndata: {\"script\":\"", h.as_str(), "\"}\n\n")
        },
        ChainEvent::TipChanged { height } => cat_num(
            "event: tip\ndata: {\"height\":",
            *height,
            "}\n\n",
        ),
        ChainEvent::Resync => String::from_str("event: resync\ndata: {}\n\n"),
    }
}

/// What is sent when a stream opens: everything that it follows may have
/// changed.
pub open spec fn opening_text(scripts: Seq<Seq<u8>>) -> Seq<char>
    decreases scripts.len(),
{
    if scripts.len() == 0 {
        Seq::empty()
    } else {
        opening_text(scripts.drop_last()) + ("event: script_changed\ndata: {\"script\":\""@
            + hex_text(scripts.last()) + "\"}\n\n"@)
    }
}

/// What is sent when a stream opens.
pub fn opening_payload(scripts: &Vec<Vec<u8>>) -> (r: String)
    ensures
        r@ == opening_text(byte_lists(scripts@)),
{
    let ghost all = byte_lists(scripts@);
    let mut out = String::from_str("");
    proof {
        reveal_strlit("");
    }
    assert(out@ =~= opening_text(all.take(0)));
    let mut i: usize = 0;
    while i < scripts.len()
        invariant
            all == byte_lists(scripts@),
            i <= scripts@.len(),
            out@ == opening_text(all.take(i as int)),
        decreases scripts@.len() - i,
    {
        let h = hex_encode(scripts[i].as_slice());
        let line = cat3("event: script_changed\ndata: {\"script\":\"", h.as_str(), "\"}\n\n");
        out.append(line.as_str());
        assert(all.take(i + 1).drop_last() =~= all.take(i as int));
        assert(all.take(i + 1).last() == scripts@[i as int]@);
        i = i + 1;
    }
    assert(all.take(i as int) =~= all);
    out
}

/// What is sent on a stream that has been silent.
pub fn heartbeat_payload() -> (r: &'static str)
    ensures
        r@ == ": heartbeat\n\n"@,
{
    ": heartbeat\n\n"
}

} // verus!
