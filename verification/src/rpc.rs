//! The calls that a node answers.
use crate::assoc::AssocMap;
use crate::chain::{Block, ChainTip, OutPoint, Transaction};
use crate::clock::{age, within_secs, SECOND};
use crate::hash::Hash256;
use crate::hexcodec::{
    decode_hex, hex_decoded, hex_encode, hex_text, law_hex_is_read_back, lemma_hex_text, HexError,
};
use crate::http::{address_in, address_of, call_head, call_head_text};
use crate::json::{
    json_as_text, json_bytes, json_copy, json_document, json_field, json_is_null, json_list,
    json_model, json_null, json_object, json_parse, json_render, json_set, json_set_bool,
    json_set_number, json_set_text, json_text, JsonView,
};
use crate::lex::{
    cut, cut_at, from_chars, index_of, law_decimal_is_read_back, lemma_index_is_first, number_of,
    parse_number,
};
use crate::net::IpAddr;
use crate::text::{cat2, cat3, cat_num, decimal, push_decimal, same_text, to_chars};
use crate::tip_validation::push_hash;
use vstd::prelude::*;
use vstd::string::*;
use vstd::utf8::encode_utf8;

verus! {

pub const PARSE_ERROR: i32 = -32700;

pub const METHOD_NOT_FOUND: i32 = -32601;

pub const INVALID_PARAMS: i32 = -32602;

pub const INTERNAL_ERROR: i32 = -32603;

/// How many transactions an address may submit in a minute.
pub const MAX_RPC_TX_PER_MIN: u32 = 60;

/// How many times an address may have the unspent outputs searched in a minute.
pub const MAX_RPC_SCAN_PER_MIN: u32 = 30;

/// How many addresses one call may ask for.
pub const MAX_BATCH_ADDRESSES: usize = 100;

/// How many calls are answered at a time.
pub const MAX_RPC_CONNECTIONS: usize = 32;

/// How long a call may take, in seconds.
pub const RPC_TIMEOUT_SECS: u64 = 30;

/// How long the body of a call about a script may be, in bytes.
pub const MAX_RPC_BODY_SCRIPT: usize = 200_000;

/// How long the body of most calls may be, in bytes.
pub const MAX_RPC_BODY_SMALL: usize = 65_536;

/// How many unspent outputs one answer holds at most.
pub const UTXO_PAGE_LIMIT: usize = 1_000;

/// How long an output script may be, in bytes.
pub const MAX_SCRIPT_BYTES: usize = 65_535;

// ---------------------------------------------------------------------------
// Answers
// ---------------------------------------------------------------------------
/// Why a call failed.
#[derive(Debug)]
pub struct RpcError {
    pub code: i32,
    pub message: String,
}

/// What an `RpcError` says.
pub ghost struct RpcFault {
    pub code: i32,
    pub message: Seq<char>,
}

impl View for RpcError {
    type V = RpcFault;

    open spec fn view(&self) -> RpcFault {
        RpcFault { code: self.code, message: self.message@ }
    }
}

/// The answer to a call.
pub struct RpcResponse {
    pub result: Option<serde_json::Value>,
    pub error: Option<RpcError>,
    pub id: serde_json::Value,
}

impl RpcResponse {
    /// The answer to a call that succeeded.
    pub fn ok(id: serde_json::Value, result: serde_json::Value) -> (r: Self)
        ensures
            r.id == id,
            r.result == Some(result),
            r.error is None,
    {
        RpcResponse { result: Some(result), error: None, id }
    }

    /// The answer to a call that failed.
    pub fn err(id: serde_json::Value, code: i32, message: String) -> (r: Self)
        ensures
            r.id == id,
            r.result is None,
            r.error == Some(RpcError { code, message }),
    {
        RpcResponse { result: None, error: Some(RpcError { code, message }), id }
    }

    /// The answer to a call, either way.
    pub fn of(id: serde_json::Value, outcome: Result<serde_json::Value, RpcError>) -> (r: Self)
        ensures
            r.id == id,
            match outcome {
                Ok(v) => r.result == Some(v) && r.error is None,
                Err(e) => r.result is None && r.error == Some(e),
            },
    {
        match outcome {
            Ok(v) => RpcResponse::ok(id, v),
            Err(e) => RpcResponse::err(id, e.code, e.message),
        }
    }

    /// The answer to a body that is no call.
    pub fn parse_error() -> (r: Self)
        ensures
            json_model(r.id) is Null,
            r.result is None,
            r.error matches Some(e) && e@ == (RpcFault {
                code: PARSE_ERROR,
                message: "Parse error"@,
            }),
    {
        RpcResponse::err(json_null(), PARSE_ERROR, String::from_str("Parse error"))
    }
}

/// Where the handling of a call failed.
#[derive(Clone, Copy, Debug, PartialEq, Eq, Structural)]
pub enum Trouble {
    Params,
    Hex,
    ScriptHex,
    Storage,
    Serialization,
    Deserialization,
    TxId,
    PreCheck,
    Validation,
    Mempool,
    Cursor,
}

/// The code and the beginning of the message for trouble.
pub open spec fn trouble_text(t: Trouble) -> (i32, Seq<char>) {
    match t {
        Trouble::Params => (INVALID_PARAMS, "Invalid params: "@),
        Trouble::Hex => (INVALID_PARAMS, "Invalid hex: "@),
        Trouble::ScriptHex => (INVALID_PARAMS, "Invalid hex in script_hex: "@),
        Trouble::Storage => (INTERNAL_ERROR, "Storage error: "@),
        Trouble::Serialization => (INTERNAL_ERROR, "Serialization error: "@),
        Trouble::Deserialization => (INVALID_PARAMS, "Failed to deserialize transaction: "@),
        Trouble::TxId => (INTERNAL_ERROR, "Failed to compute tx_id: "@),
        Trouble::PreCheck => (INVALID_PARAMS, "Mempool pre-check failed: "@),
        Trouble::Validation => (INVALID_PARAMS, "Transaction validation failed: "@),
        Trouble::Mempool => (INVALID_PARAMS, "Mempool rejected transaction: "@),
        Trouble::Cursor => (INVALID_PARAMS, "Invalid cursor: "@),
    }
}

/// The fault for trouble with the given detail.
pub open spec fn fault_of(t: Trouble, detail: Seq<char>) -> RpcFault {
    RpcFault { code: trouble_text(t).0, message: trouble_text(t).1 + detail }
}

/// The error for trouble with the given detail.
pub fn trouble(t: Trouble, detail: &str) -> (r: RpcError)
    ensures
        r@ == fault_of(t, detail@),
{
    let (code, head): (i32, &str) = match t {
        Trouble::Params => (INVALID_PARAMS, "Invalid params: "),
        Trouble::Hex => (INVALID_PARAMS, "Invalid hex: "),
        Trouble::ScriptHex => (INVALID_PARAMS, "Invalid hex in script_hex: "),
        Trouble::Storage => (INTERNAL_ERROR, "Storage error: "),
        Trouble::Serialization => (INTERNAL_ERROR, "Serialization error: "),
        Trouble::Deserialization => (INVALID_PARAMS, "Failed to deserialize transaction: "),
        Trouble::TxId => (INTERNAL_ERROR, "Failed to compute tx_id: "),
        Trouble::PreCheck => (INVALID_PARAMS, "Mempool pre-check failed: "),
        Trouble::Validation => (INVALID_PARAMS, "Transaction validation failed: "),
        Trouble::Mempool => (INVALID_PARAMS, "Mempool rejected transaction: "),
        Trouble::Cursor => (INVALID_PARAMS, "Invalid cursor: "),
    };
    RpcError { code, message: cat2(head, detail) }
}

fn plain_error(code: i32, message: &str) -> (r: RpcError)
    ensures
        r@ == (RpcFault { code, message: message@ }),
{
    RpcError { code, message: String::from_str(message) }
}

// ---------------------------------------------------------------------------
// Which calls are answered
// ---------------------------------------------------------------------------
/// A call that is known.
#[derive(Clone, Copy, Debug, PartialEq, Eq, Structural)]
pub enum RpcMethod {
    GetBlockHeight,
    GetBalance,
    GetAddressUtxos,
    GetScriptUtxos,
    GetBalances,
    GetAddressUtxosBatch,
    GetAddressMempool,
    GetBlock,
    GetTransaction,
    GetOutputSpentBy,
    SendRawTransaction,
}

/// The call of a name.
pub open spec fn method_named(name: Seq<char>) -> Option<RpcMethod> {
    if name == "get_block_height"@ {
        Some(RpcMethod::GetBlockHeight)
    } else if name == "get_balance"@ {
        Some(RpcMethod::GetBalance)
    } else if name == "get_address_utxos"@ {
        Some(RpcMethod::GetAddressUtxos)
    } else if name == "get_script_utxos"@ {
        Some(RpcMethod::GetScriptUtxos)
    } else if name == "get_balances"@ {
        Some(RpcMethod::GetBalances)
    } else if name == "get_address_utxos_batch"@ {
        Some(RpcMethod::GetAddressUtxosBatch)
    } else if name == "get_address_mempool"@ {
        Some(RpcMethod::GetAddressMempool)
    } else if name == "get_block"@ {
        Some(RpcMethod::GetBlock)
    } else if name == "get_transaction"@ {
        Some(RpcMethod::GetTransaction)
    } else if name == "get_output_spent_by"@ {
        Some(RpcMethod::GetOutputSpentBy)
    } else if name == "send_raw_transaction"@ {
        Some(RpcMethod::SendRawTransaction)
    } else {
        None
    }
}

/// The call of a name.
pub fn method_of(name: &str) -> (r: Option<RpcMethod>)
    ensures
        r == method_named(name@),
{
    if same_text(name, "get_block_height") {
        Some(RpcMethod::GetBlockHeight)
    } else if same_text(name, "get_balance") {
        Some(RpcMethod::GetBalance)
    } else if same_text(name, "get_address_utxos") {
        Some(RpcMethod::GetAddressUtxos)
    } else if same_text(name, "get_script_utxos") {
        Some(RpcMethod::GetScriptUtxos)
    } else if same_text(name, "get_balances") {
        Some(RpcMethod::GetBalances)
    } else if same_text(name, "get_address_utxos_batch") {
        Some(RpcMethod::GetAddressUtxosBatch)
    } else if same_text(name, "get_address_mempool") {
        Some(RpcMethod::GetAddressMempool)
    } else if same_text(name, "get_block") {
        Some(RpcMethod::GetBlock)
    } else if same_text(name, "get_transaction") {
        Some(RpcMethod::GetTransaction)
    } else if same_text(name, "get_output_spent_by") {
        Some(RpcMethod::GetOutputSpentBy)
    } else if same_text(name, "send_raw_transaction") {
        Some(RpcMethod::SendRawTransaction)
    } else {
        None
    }
}

/// How long the body of a call may be.
pub open spec fn body_cap(name: Seq<char>) -> usize {
    if name == "send_raw_transaction"@ {
        crate::http::MAX_RPC_BODY
    } else if name == "get_script_utxos"@ {
        MAX_RPC_BODY_SCRIPT
    } else {
        MAX_RPC_BODY_SMALL
    }
}

/// What is wrong with a call, before it is looked at closely.
pub open spec fn call_fault(name: Seq<char>, content_length: usize, version: Seq<char>) -> Option<
    RpcFault,
> {
    if content_length > body_cap(name) {
        Some(
            RpcFault {
                code: PARSE_ERROR,
                message: "Request too large: "@ + decimal(content_length as nat) + " bytes (max "@
                    + decimal(body_cap(name) as nat) + " for this method)"@,
            },
        )
    } else if version != "2.0"@ {
        Some(RpcFault { code: PARSE_ERROR, message: "Invalid JSON-RPC version"@ })
    } else {
        None
    }
}

/// Whether an optional error is the modelled one.
pub open spec fn reports(r: Option<RpcError>, fault: Option<RpcFault>) -> bool {
    match r {
        Some(e) => fault == Some(e@),
        None => fault is None,
    }
}

/// Looks at the size and the version of a call.
pub fn screen_call(name: &str, content_length: usize, version: &str) -> (r: Option<RpcError>)
    ensures
        reports(r, call_fault(name@, content_length, version@)),
{
    let cap: usize = if same_text(name, "send_raw_transaction") {
        crate::http::MAX_RPC_BODY
    } else if same_text(name, "get_script_utxos") {
        MAX_RPC_BODY_SCRIPT
    } else {
        MAX_RPC_BODY_SMALL
    };
    if content_length > cap {
        let mut s = cat_num("Request too large: ", content_length as u64, " bytes (max ");
        push_decimal(&mut s, cap as u64);
        s.append(" for this method)");
        return Some(RpcError { code: PARSE_ERROR, message: s });
    }
    if !same_text(version, "2.0") {
        return Some(plain_error(PARSE_ERROR, "Invalid JSON-RPC version"));
    }
    None
}

/// Whether a call searches the unspent outputs, so that only one at a time is
/// handled.
pub fn is_serialized(m: RpcMethod) -> (r: bool)
    ensures
        r == (m is GetBalance || m is GetAddressUtxos || m is GetScriptUtxos || m is GetBalances
            || m is GetAddressUtxosBatch),
{
    match m {
        RpcMethod::GetBalance => true,
        RpcMethod::GetAddressUtxos => true,
        RpcMethod::GetScriptUtxos => true,
        RpcMethod::GetBalances => true,
        RpcMethod::GetAddressUtxosBatch => true,
        _ => false,
    }
}

/// Whether a call counts as a search.
pub open spec fn is_scan(m: RpcMethod) -> bool {
    m is GetBalance || m is GetAddressUtxos || m is GetScriptUtxos || m is GetBalances
        || m is GetAddressUtxosBatch || m is GetAddressMempool
}

/// The calls of an address within a minute.
#[derive(Clone, Copy, Debug)]
pub struct CallWindow {
    pub start: u64,
    pub count: u32,
}

/// The calls of an address with one more at `now`.
pub open spec fn counted(w: Option<CallWindow>, now: u64) -> CallWindow {
    match w {
        Some(x) if age(now, x.start) < 60 * SECOND => CallWindow {
            start: x.start,
            count: if x.count < u32::MAX {
                (x.count + 1) as u32
            } else {
                u32::MAX
            },
        },
        _ => CallWindow { start: now, count: 1 },
    }
}

/// The calls of each address within a minute.
pub struct CallLimiter {
    windows: AssocMap<IpAddr, CallWindow>,
}

impl View for CallLimiter {
    type V = Map<IpAddr, CallWindow>;

    closed spec fn view(&self) -> Map<IpAddr, CallWindow> {
        self.windows@
    }
}

/// The calls of an address.
pub open spec fn window_of(m: Map<IpAddr, CallWindow>, ip: IpAddr) -> Option<CallWindow> {
    if m.contains_key(ip) {
        Some(m[ip])
    } else {
        None
    }
}

impl CallLimiter {
    /// No address is held twice.
    pub closed spec fn wf(&self) -> bool {
        self.windows.wf()
    }

    pub fn new() -> (r: Self)
        ensures
            r.wf(),
            r@ == Map::<IpAddr, CallWindow>::empty(),
    {
        CallLimiter { windows: AssocMap::new() }
    }

    /// Counts a call; whether it is within the cap. A call over the cap counts
    /// as well.
    pub fn count_call(&mut self, ip: IpAddr, now: u64, cap: u32) -> (r: bool)
        requires
            old(self).wf(),
        ensures
            final(self).wf(),
            final(self)@ == old(self)@.insert(ip, counted(window_of(old(self)@, ip), now)),
            r == (counted(window_of(old(self)@, ip), now).count <= cap),
    {
        let next = match self.windows.get(&ip) {
            Some(w) => if within_secs(now, w.start, 60) {
                CallWindow { start: w.start, count: w.count.saturating_add(1) }
            } else {
                CallWindow { start: now, count: 1 }
            },
            None => CallWindow { start: now, count: 1 },
        };
        let prev = self.windows.insert(ip, next);
        next.count <= cap
    }
}

/// What is wrong with a call, given how many its sender has made.
pub open spec fn rate_fault(
    m: RpcMethod,
    scans: Map<IpAddr, CallWindow>,
    submissions: Map<IpAddr, CallWindow>,
    ip: IpAddr,
    now: u64,
) -> Option<RpcFault> {
    if is_scan(m) && counted(window_of(scans, ip), now).count > MAX_RPC_SCAN_PER_MIN {
        Some(
            RpcFault {
                code: INTERNAL_ERROR,
                message: "Rate limit exceeded: max 30 balance/utxo queries per minute"@,
            },
        )
    } else if m is SendRawTransaction && counted(window_of(submissions, ip), now).count
        > MAX_RPC_TX_PER_MIN {
        Some(
            RpcFault {
                code: INTERNAL_ERROR,
                message: "Rate limit exceeded: max 60 tx submissions per minute"@,
            },
        )
    } else {
        None
    }
}

/// Finds the call of a name and counts it. A call that is not known is refused,
/// and so is one too many.
pub fn dispatch_call(
    name: &str,
    scans: &mut CallLimiter,
    submissions: &mut CallLimiter,
    ip: IpAddr,
    now: u64,
) -> (r: Result<RpcMethod, RpcError>)
    requires
        old(scans).wf(),
        old(submissions).wf(),
    ensures
        final(scans).wf(),
        final(submissions).wf(),
        match method_named(name@) {
            None => {
                &&& r matches Err(e) && e@ == (RpcFault {
                    code: METHOD_NOT_FOUND,
                    message: "Method not found"@,
                })
                &&& final(scans)@ == old(scans)@
                &&& final(submissions)@ == old(submissions)@
            },
            Some(m) => {
                &&& match r {
                    Ok(x) => x == m && rate_fault(
                        m,
                        old(scans)@,
                        old(submissions)@,
                        ip,
                        now,
                    ) is None,
                    Err(e) => rate_fault(m, old(scans)@, old(submissions)@, ip, now) == Some(e@),
                }
                &&& final(scans)@ == (if is_scan(m) {
                    old(scans)@.insert(ip, counted(window_of(old(scans)@, ip), now))
                } else {
                    old(scans)@
                })
                &&& final(submissions)@ == (if m is SendRawTransaction {
                    old(submissions)@.insert(ip, counted(window_of(old(submissions)@, ip), now))
                } else {
                    old(submissions)@
                })
            },
        },
{
    match method_of(name) {
        None => Err(plain_error(METHOD_NOT_FOUND, "Method not found")),
        Some(m) => {
            if is_serialized(m) || m == RpcMethod::GetAddressMempool {
                if !scans.count_call(ip, now, MAX_RPC_SCAN_PER_MIN) {
                    return Err(
                        plain_error(
                            INTERNAL_ERROR,
                            "Rate limit exceeded: max 30 balance/utxo queries per minute",
                        ),
                    );
                }
            }
            if m == RpcMethod::SendRawTransaction {
                if !submissions.count_call(ip, now, MAX_RPC_TX_PER_MIN) {
                    return Err(
                        plain_error(
                            INTERNAL_ERROR,
                            "Rate limit exceeded: max 60 tx submissions per minute",
                        ),
                    );
                }
            }
            Ok(m)
        },
    }
}

/// The calls of an address after `n` of them at the times given.
pub open spec fn counted_all(w: Option<CallWindow>, times: Seq<u64>) -> Option<CallWindow>
    decreases times.len(),
{
    if times.len() == 0 {
        w
    } else {
        Some(counted(counted_all(w, times.drop_last()), times.last()))
    }
}

/// Of the calls that an address makes within a minute of the first one, no
/// more than the cap are answered: the next one is refused.
pub proof fn law_calls_are_limited(times: Seq<u64>, cap: u32)
    requires
        0 < times.len() < u32::MAX,
        forall|i: int| 0 <= i < times.len() ==> age(#[trigger] times[i], times[0]) < 60 * SECOND,
    ensures
        counted_all(None, times) == Some(
            CallWindow { start: times[0], count: times.len() as u32 },
        ),
        counted_all(None, times)->0.count <= cap <==> times.len() <= cap,
    decreases times.len(),
{
    let t = times.drop_last();
    if t.len() > 0 {
        assert forall|i: int| 0 <= i < t.len() implies age(#[trigger] t[i], t[0]) < 60 * SECOND by {
            assert(t[i] == times[i]);
        }
        law_calls_are_limited(t, cap);
        assert(age(times[times.len() - 1], times[0]) < 60 * SECOND);
    } else {
        assert(counted_all(None, t) is None);
    }
}

// ---------------------------------------------------------------------------
// Parameters
// ---------------------------------------------------------------------------
/// The bytes of an address, or what is wrong with it.
pub open spec fn address_bytes(text: Seq<char>) -> Result<Seq<u8>, RpcFault> {
    match hex_decoded(encode_utf8(text)) {
        Err(e) => Err(fault_of(Trouble::Hex, e.text())),
        Ok(b) => if b.len() != 32 {
            Err(
                RpcFault {
                    code: INVALID_PARAMS,
                    message: "Address must be 32 bytes (64 hex chars), got "@ + decimal(b.len())
                        + ""@,
                },
            )
        } else {
            Ok(b)
        },
    }
}

/// Whether a result with bytes is the modelled one.
pub open spec fn gives_bytes(r: Result<Vec<u8>, RpcError>, want: Result<Seq<u8>, RpcFault>) -> bool {
    match r {
        Ok(b) => want == Ok::<Seq<u8>, RpcFault>(b@),
        Err(e) => want == Err::<Seq<u8>, RpcFault>(e@),
    }
}

/// Reads an address.
pub fn decode_address(text: &str) -> (r: Result<Vec<u8>, RpcError>)
    ensures
        gives_bytes(r, address_bytes(text@)),
{
    match decode_hex(text) {
        Err(e) => {
            let m = e.message();
            Err(trouble(Trouble::Hex, m.as_str()))
        },
        Ok(b) => {
            if b.len() != 32 {
                return Err(
                    RpcError {
                        code: INVALID_PARAMS,
                        message: cat_num(
                            "Address must be 32 bytes (64 hex chars), got ",
                            b.len() as u64,
                            "",
                        ),
                    },
                );
            }
            Ok(b)
        },
    }
}

/// The bytes of a script, or what is wrong with it.
pub open spec fn script_bytes(text: Seq<char>) -> Result<Seq<u8>, RpcFault> {
    match hex_decoded(encode_utf8(text)) {
        Err(e) => Err(fault_of(Trouble::ScriptHex, e.text())),
        Ok(b) => if b.len() > MAX_SCRIPT_BYTES {
            Err(
                RpcFault {
                    code: INVALID_PARAMS,
                    message: "script_hex exceeds max output-script size (got "@ + decimal(b.len())
                        + " bytes, max 65535)"@,
                },
            )
        } else {
            Ok(b)
        },
    }
}

/// Reads a script.
pub fn decode_script(text: &str) -> (r: Result<Vec<u8>, RpcError>)
    ensures
        gives_bytes(r, script_bytes(text@)),
{
    match decode_hex(text) {
        Err(e) => {
            let m = e.message();
            Err(trouble(Trouble::ScriptHex, m.as_str()))
        },
        Ok(b) => {
            if b.len() > MAX_SCRIPT_BYTES {
                return Err(
                    RpcError {
                        code: INVALID_PARAMS,
                        message: cat_num(
                            "script_hex exceeds max output-script size (got ",
                            b.len() as u64,
                            " bytes, max 65535)",
                        ),
                    },
                );
            }
            Ok(b)
        },
    }
}

/// The bytes of an id, or what is wrong with it.
pub open spec fn id_bytes(text: Seq<char>, wrong_length: Seq<char>) -> Result<Seq<u8>, RpcFault> {
    match hex_decoded(encode_utf8(text)) {
        Err(e) => Err(fault_of(Trouble::Hex, e.text())),
        Ok(b) => if b.len() != 32 {
            Err(RpcFault { code: INVALID_PARAMS, message: wrong_length })
        } else {
            Ok(b)
        },
    }
}

fn to_hash(b: &Vec<u8>) -> (r: Hash256)
    requires
        b@.len() == 32,
    ensures
        r.0@ == b@,
{
    let mut h: [u8; 32] = [0u8; 32];
    let mut i: usize = 0;
    while i < 32
        invariant
            i <= 32,
            b@.len() == 32,
            forall|j: int| 0 <= j < i ==> h@[j] == b@[j],
        decreases 32 - i,
    {
        h[i] = b[i];
        i = i + 1;
    }
    assert(h@ =~= b@);
    Hash256(h)
}

/// Reads an id. `wrong_length` is the message for one that is not 32 bytes
/// long.
pub fn decode_id(text: &str, wrong_length: &str) -> (r: Result<Hash256, RpcError>)
    ensures
        match r {
            Ok(h) => id_bytes(text@, wrong_length@) == Ok::<Seq<u8>, RpcFault>(h.0@),
            Err(e) => id_bytes(text@, wrong_length@) == Err::<Seq<u8>, RpcFault>(e@),
        },
{
    match decode_hex(text) {
        Err(e) => {
            let m = e.message();
            Err(trouble(Trouble::Hex, m.as_str()))
        },
        Ok(b) => {
            if b.len() != 32 {
                return Err(plain_error(INVALID_PARAMS, wrong_length));
            }
            Ok(to_hash(&b))
        },
    }
}

// ---------------------------------------------------------------------------
// Pages
// ---------------------------------------------------------------------------
/// How many unspent outputs a page holds.
pub fn resolve_page_limit(requested: Option<usize>) -> (r: usize)
    ensures
        r == (match requested {
            None => UTXO_PAGE_LIMIT as int,
            Some(n) => if n < 1 {
                1
            } else if n > UTXO_PAGE_LIMIT {
                UTXO_PAGE_LIMIT as int
            } else {
                n as int
            },
        }),
        1 <= r <= UTXO_PAGE_LIMIT,
{
    match requested {
        None => UTXO_PAGE_LIMIT,
        Some(n) => if n < 1 {
            1
        } else if n > UTXO_PAGE_LIMIT {
            UTXO_PAGE_LIMIT
        } else {
            n
        },
    }
}

/// The text that marks where a page ends: the tip at which the walk began, and
/// the last output of the page.
pub open spec fn cursor_text(tip: Seq<u8>, tx: Seq<u8>, index: nat) -> Seq<char> {
    hex_text(tip) + ":"@ + hex_text(tx) + ":"@ + decimal(index)
}

/// The text that marks where a page ends.
pub fn encode_utxo_cursor(tip_id: &Hash256, op: &OutPoint) -> (r: String)
    ensures
        r@ == cursor_text(tip_id.0@, op.tx_id.0@, op.output_index as nat),
{
    let mut s = hex_encode(tip_id.0.as_slice());
    s.append(":");
    push_hash(&mut s, &op.tx_id);
    s.append(":");
    push_decimal(&mut s, op.output_index as u64);
    s
}

/// What a mark says.
pub ghost struct CursorView {
    pub tip: Seq<u8>,
    pub tx: Seq<u8>,
    pub index: nat,
}

/// An id in a mark, or what is wrong with it.
pub open spec fn cursor_id(label: Seq<char>, text: Seq<char>) -> Result<Seq<u8>, Seq<char>> {
    match hex_decoded(encode_utf8(text)) {
        Err(e) => Err("invalid cursor "@ + label + " hex: "@ + e.text()),
        Ok(b) => if b.len() != 32 {
            Err("cursor "@ + label + " must be 32 bytes, got "@ + decimal(b.len()))
        } else {
            Ok(b)
        },
    }
}

/// What a mark says, or what is wrong with it.
pub open spec fn cursor_of(s: Seq<char>) -> Result<CursorView, Seq<char>> {
    let shape = "cursor must be '<tip_id_hex>:<tx_id_hex>:<output_index>'"@;
    match cut_at(s, ':') {
        None => Err(shape),
        Some((a, rest)) => match cut_at(rest, ':') {
            None => Err(shape),
            Some((b, c)) => match cursor_id("tip_id"@, a) {
                Err(e) => Err(e),
                Ok(tip) => match cursor_id("tx_id"@, b) {
                    Err(e) => Err(e),
                    Ok(tx) => match number_of(c, u32::MAX as nat) {
                        Err(f) => Err("invalid cursor output_index: "@ + f.text()),
                        Ok(n) => Ok(CursorView { tip, tx, index: n }),
                    },
                },
            },
        },
    }
}

fn parse_cursor_id(label: &str, text: &[char]) -> (r: Result<Hash256, String>)
    ensures
        match r {
            Ok(h) => cursor_id(label@, text@) == Ok::<Seq<u8>, Seq<char>>(h.0@),
            Err(e) => cursor_id(label@, text@) == Err::<Seq<u8>, Seq<char>>(e@),
        },
{
    let s = from_chars(text);
    match decode_hex(s.as_str()) {
        Err(e) => {
            let m = e.message();
            let mut out = cat3("invalid cursor ", label, " hex: ");
            out.append(m.as_str());
            Err(out)
        },
        Ok(b) => {
            if b.len() != 32 {
                let mut out = cat3("cursor ", label, " must be 32 bytes, got ");
                push_decimal(&mut out, b.len() as u64);
                return Err(out);
            }
            Ok(to_hash(&b))
        },
    }
}

/// Reads the text that marks where a page ends.
pub fn parse_utxo_cursor(s: &str) -> (r: Result<(Hash256, OutPoint), String>)
    ensures
        match r {
            Ok((tip, op)) => cursor_of(s@) == Ok::<CursorView, Seq<char>>(
                CursorView { tip: tip.0@, tx: op.tx_id.0@, index: op.output_index as nat },
            ),
            Err(e) => cursor_of(s@) == Err::<CursorView, Seq<char>>(e@),
        },
{
    let chars = to_chars(s);
    let shape = "cursor must be '<tip_id_hex>:<tx_id_hex>:<output_index>'";
    let (a, rest) = match cut(chars.as_slice(), ':') {
        None => {
            return Err(String::from_str(shape));
        },
        Some(p) => p,
    };
    let (b, c) = match cut(rest.as_slice(), ':') {
        None => {
            return Err(String::from_str(shape));
        },
        Some(p) => p,
    };
    let tip = match parse_cursor_id("tip_id", a.as_slice()) {
        Err(e) => {
            return Err(e);
        },
        Ok(h) => h,
    };
    let tx = match parse_cursor_id("tx_id", b.as_slice()) {
        Err(e) => {
            return Err(e);
        },
        Ok(h) => h,
    };
    match parse_number(c.as_slice(), u32::MAX as u64) {
        Err(f) => Err(cat2("invalid cursor output_index: ", f.message())),
        Ok(n) => Ok((tip, OutPoint::new(tx, n as u32))),
    }
}

proof fn lemma_cut_after(a: Seq<char>, b: Seq<char>, c: char)
    requires
        forall|i: int| 0 <= i < a.len() ==> a[i] != c,
    ensures
        cut_at(a + seq![c] + b, c) == Some((a, b)),
{
    let s = a + seq![c] + b;
    lemma_index_is_first(s, c);
    let i = index_of(s, c);
    if i < a.len() {
        assert(s[i] == a[i]);
    }
    if i > a.len() {
        assert(s[a.len() as int] == c);
    }
    assert(i == a.len());
    assert(s.take(i) =~= a);
    assert(s.skip(i + 1) =~= b);
}

/// A mark that was handed out is read back as it was.
pub proof fn law_cursor_is_read_back(tip: Seq<u8>, tx: Seq<u8>, index: nat)
    requires
        tip.len() == 32,
        tx.len() == 32,
        index <= u32::MAX,
    ensures
        cursor_of(cursor_text(tip, tx, index)) == Ok::<CursorView, Seq<char>>(
            CursorView { tip, tx, index },
        ),
{
    reveal_strlit(":");
    assert(":"@ =~= seq![':']);
    let d = decimal(index);
    let a = hex_text(tip);
    let b = hex_text(tx);
    let rest = b + seq![':'] + d;
    lemma_hex_text(tip);
    lemma_hex_text(tx);
    assert(cursor_text(tip, tx, index) =~= a + seq![':'] + rest);
    assert forall|i: int| 0 <= i < a.len() implies a[i] != ':' by {}
    assert forall|i: int| 0 <= i < b.len() implies b[i] != ':' by {}
    lemma_cut_after(a, rest, ':');
    lemma_cut_after(b, d, ':');
    law_hex_is_read_back(tip);
    law_hex_is_read_back(tx);
    law_decimal_is_read_back(index, u32::MAX as nat);
}

/// An unspent output.
#[derive(Clone, Copy, Debug)]
pub struct UtxoRow {
    pub outpoint: OutPoint,
    pub value: u64,
    pub height: u64,
    pub is_coinbase: bool,
}

/// A page of unspent outputs.
pub struct UtxoPage {
    pub matched: Vec<UtxoRow>,
    pub next_cursor: Option<String>,
    pub truncated: bool,
    pub tip_height: u64,
}

/// Where a walk goes on, or why it cannot.
pub open spec fn walk_from(cursor: Option<Seq<char>>, tip_id: Seq<u8>) -> Result<
    Option<CursorView>,
    RpcFault,
> {
    match cursor {
        None => Ok(None),
        Some(c) => match cursor_of(c) {
            Err(e) => Err(fault_of(Trouble::Cursor, e)),
            Ok(v) => if v.tip != tip_id {
                Err(
                    RpcFault {
                        code: INVALID_PARAMS,
                        message: "pagination snapshot expired, restart from cursor=None"@,
                    },
                )
            } else {
                Ok(Some(v))
            },
        },
    }
}

/// An optional text.
pub open spec fn opt_text(s: Option<&str>) -> Option<Seq<char>> {
    match s {
        Some(x) => Some(x@),
        None => None,
    }
}

/// Where a walk goes on: after the output that its mark names. A mark that was
/// handed out at another tip is refused, as outputs may have come or gone
/// before it.
pub fn resume_walk(cursor: Option<&str>, tip_id: &Hash256) -> (r: Result<
    Option<OutPoint>,
    RpcError,
>)
    ensures
        match r {
            Ok(None) => walk_from(opt_text(cursor), tip_id.0@) == Ok::<
                Option<CursorView>,
                RpcFault,
            >(None),
            Ok(Some(op)) => walk_from(opt_text(cursor), tip_id.0@) == Ok::<
                Option<CursorView>,
                RpcFault,
            >(
                Some(
                    CursorView {
                        tip: tip_id.0@,
                        tx: op.tx_id.0@,
                        index: op.output_index as nat,
                    },
                ),
            ),
            Err(e) => walk_from(opt_text(cursor), tip_id.0@) == Err::<
                Option<CursorView>,
                RpcFault,
            >(e@),
        },
{
    match cursor {
        None => Ok(None),
        Some(c) => match parse_utxo_cursor(c) {
            Err(e) => Err(trouble(Trouble::Cursor, e.as_str())),
            Ok((tip, op)) => {
                if tip != *tip_id {
                    proof {
                        if tip.0@ == tip_id.0@ {
                            assert(tip.0 =~= tip_id.0);
                        }
                    }
                    return Err(
                        plain_error(
                            INVALID_PARAMS,
                            "pagination snapshot expired, restart from cursor=None",
                        ),
                    );
                }
                Ok(Some(op))
            },
        },
    }
}

/// How many outputs to ask the store for: one more than a page holds, which
/// tells whether there is another page.
pub fn probe_len(page: usize) -> (r: usize)
    requires
        page <= UTXO_PAGE_LIMIT,
    ensures
        r == page + 1,
{
    page + 1
}

fn take_rows(rows: &Vec<UtxoRow>, n: usize) -> (r: Vec<UtxoRow>)
    requires
        n <= rows@.len(),
    ensures
        r@ == rows@.take(n as int),
{
    let mut out: Vec<UtxoRow> = Vec::new();
    let mut i: usize = 0;
    assert(rows@.take(0) =~= Seq::<UtxoRow>::empty());
    while i < n
        invariant
            i <= n <= rows@.len(),
            out@ == rows@.take(i as int),
        decreases n - i,
    {
        out.push(rows[i]);
        i = i + 1;
        assert(out@ =~= rows@.take(i as int));
    }
    out
}

/// The part of what the store gave that makes a page.
pub open spec fn page_part(rows: Seq<UtxoRow>, page: usize) -> Seq<UtxoRow> {
    if rows.len() > page {
        rows.take(page as int)
    } else {
        rows
    }
}

/// Makes a page of what the store gave.
pub fn cut_page(rows: &Vec<UtxoRow>, page: usize, tip: &ChainTip) -> (r: UtxoPage)
    requires
        page >= 1,
    ensures
        r.matched@ == page_part(rows@, page),
        r.truncated == (rows@.len() > page),
        r.tip_height == tip.height,
        match r.next_cursor {
            Some(c) => r.truncated && c@ == cursor_text(
                tip.block_id.0@,
                r.matched@.last().outpoint.tx_id.0@,
                r.matched@.last().outpoint.output_index as nat,
            ),
            None => !r.truncated,
        },
{
    let truncated = rows.len() > page;
    let matched = take_rows(
        rows,
        if truncated {
            page
        } else {
            rows.len()
        },
    );
    assert(!truncated ==> matched@ =~= rows@);
    let next_cursor = if truncated {
        Some(encode_utxo_cursor(&tip.block_id, &matched[matched.len() - 1].outpoint))
    } else {
        None
    };
    UtxoPage { matched, next_cursor, truncated, tip_height: tip.height }
}

/// What a store gives that holds `all`, in order, from position `start` on: at
/// most one more than a page.
pub open spec fn probed(all: Seq<UtxoRow>, start: int, page: usize) -> Seq<UtxoRow> {
    if start + page + 1 <= all.len() {
        all.subrange(start, start + page + 1)
    } else {
        all.skip(start)
    }
}

/// A walk misses nothing and meets nothing twice: each page continues where
/// the one before ended, says that there is another one exactly if there is,
/// and the last page ends with the last output.
pub proof fn law_pages_cover_everything(all: Seq<UtxoRow>, start: int, page: usize)
    requires
        0 <= start <= all.len(),
        page >= 1,
    ensures
        ({
            let rows = probed(all, start, page);
            let part = page_part(rows, page);
            let more = rows.len() > page;
            &&& part == all.subrange(start, start + part.len())
            &&& more <==> start + part.len() < all.len()
            &&& more ==> part.len() == page
            &&& !more ==> start + part.len() == all.len()
        }),
{
    let rows = probed(all, start, page);
    let part = page_part(rows, page);
    assert(part =~= all.subrange(start, start + part.len()));
}

/// The part of what the store gave for an address, and whether there is more.
pub fn cut_batch(rows: &Vec<UtxoRow>) -> (r: (Vec<UtxoRow>, bool))
    ensures
        r.0@ == page_part(rows@, UTXO_PAGE_LIMIT),
        r.1 == (rows@.len() > UTXO_PAGE_LIMIT),
{
    let more = rows.len() > UTXO_PAGE_LIMIT;
    let part = take_rows(
        rows,
        if more {
            UTXO_PAGE_LIMIT
        } else {
            rows.len()
        },
    );
    assert(!more ==> part@ =~= rows@);
    (part, more)
}

/// The height at which outputs are asked for: that of the next block.
pub fn next_height(tip_height: u64) -> (r: u64)
    ensures
        r == (if tip_height < u64::MAX {
            tip_height + 1
        } else {
            u64::MAX as int
        }),
{
    tip_height.saturating_add(1)
}

// ---------------------------------------------------------------------------
// Many addresses
// ---------------------------------------------------------------------------
/// An address and its bytes.
pub struct BatchItem {
    pub address: String,
    pub script: Vec<u8>,
}

/// The texts of a list.
pub open spec fn strings(s: Seq<String>) -> Seq<Seq<char>> {
    s.map_values(|x: String| x@)
}

/// What is wrong with an address of a list.
pub open spec fn batch_item_fault(a: Seq<char>) -> Option<RpcFault> {
    match hex_decoded(encode_utf8(a)) {
        Err(e) => Some(
            RpcFault {
                code: INVALID_PARAMS,
                message: "Invalid hex in '"@ + a + "': "@ + e.text(),
            },
        ),
        Ok(b) => if b.len() != 32 {
            Some(
                RpcFault {
                    code: INVALID_PARAMS,
                    message: "Address '"@ + a + "' must be 32 bytes (64 hex chars), got "@
                        + decimal(b.len()),
                },
            )
        } else {
            None
        },
    }
}

/// What is wrong with the first address of a list that is no good.
pub open spec fn first_item_fault(s: Seq<Seq<char>>) -> Option<RpcFault>
    decreases s.len(),
{
    if s.len() == 0 {
        None
    } else if batch_item_fault(s[0]) is Some {
        batch_item_fault(s[0])
    } else {
        first_item_fault(s.drop_first())
    }
}

/// What is wrong with a list of addresses.
pub open spec fn batch_fault(s: Seq<Seq<char>>) -> Option<RpcFault> {
    if s.len() == 0 {
        Some(RpcFault { code: INVALID_PARAMS, message: "addresses must not be empty"@ })
    } else if s.len() > MAX_BATCH_ADDRESSES {
        Some(
            RpcFault {
                code: INVALID_PARAMS,
                message: "too many addresses (got "@ + decimal(s.len()) + ", max "@ + decimal(
                    MAX_BATCH_ADDRESSES as nat,
                ) + ")"@,
            },
        )
    } else {
        first_item_fault(s)
    }
}

/// Reads a list of addresses: each with its bytes, or what is wrong with the
/// first one that is no good.
pub fn decode_batch_addresses(addresses: &Vec<String>) -> (r: Result<Vec<BatchItem>, RpcError>)
    ensures
        match r {
            Err(e) => batch_fault(strings(addresses@)) == Some(e@),
            Ok(items) => {
                &&& batch_fault(strings(addresses@)) is None
                &&& items@.len() == addresses@.len()
                &&& forall|i: int|
                    0 <= i < items@.len() ==> (#[trigger] items@[i]).address@ == addresses@[i]@
                        && hex_decoded(encode_utf8(addresses@[i]@)) == Ok::<Seq<u8>, HexError>(
                        items@[i].script@,
                    ) && items@[i].script@.len() == 32
            },
        },
{
    if addresses.len() == 0 {
        return Err(plain_error(INVALID_PARAMS, "addresses must not be empty"));
    }
    if addresses.len() > MAX_BATCH_ADDRESSES {
        let mut s = cat_num("too many addresses (got ", addresses.len() as u64, ", max ");
        push_decimal(&mut s, MAX_BATCH_ADDRESSES as u64);
        s.append(")");
        return Err(RpcError { code: INVALID_PARAMS, message: s });
    }
    let ghost all = strings(addresses@);
    let mut items: Vec<BatchItem> = Vec::new();
    let mut i: usize = 0;
    assert(all.skip(0) =~= all);
    while i < addresses.len()
        invariant
            all == strings(addresses@),
            0 < addresses@.len() <= MAX_BATCH_ADDRESSES,
            i <= addresses@.len(),
            items@.len() == i,
            first_item_fault(all.skip(i as int)) == first_item_fault(all),
            forall|k: int|
                0 <= k < items@.len() ==> (#[trigger] items@[k]).address@ == addresses@[k]@
                    && hex_decoded(encode_utf8(addresses@[k]@)) == Ok::<Seq<u8>, HexError>(
                    items@[k].script@,
                ) && items@[k].script@.len() == 32,
        decreases addresses@.len() - i,
    {
        let ghost rest = all.skip(i as int);
        assert(rest[0] == addresses@[i as int]@);
        assert(rest.drop_first() =~= all.skip(i + 1));
        let addr = addresses[i].as_str();
        match decode_hex(addr) {
            Err(e) => {
                let m = e.message();
                let mut s = cat3("Invalid hex in '", addr, "': ");
                s.append(m.as_str());
                return Err(RpcError { code: INVALID_PARAMS, message: s });
            },
            Ok(b) => {
                if b.len() != 32 {
                    let mut s = cat3("Address '", addr, "' must be 32 bytes (64 hex chars), got ");
                    push_decimal(&mut s, b.len() as u64);
                    return Err(RpcError { code: INVALID_PARAMS, message: s });
                }
                items.push(BatchItem { address: String::from_str(addr), script: b });
            },
        }
        i = i + 1;
    }
    assert(all.skip(i as int).len() == 0);
    Ok(items)
}

// ---------------------------------------------------------------------------
// Results
// ---------------------------------------------------------------------------
/// The fields of an object.
pub type Fields = Map<Seq<char>, JsonView>;

/// An object without fields.
pub open spec fn no_fields() -> Fields {
    Map::empty()
}

/// A number in a result.
pub open spec fn num(n: nat) -> JsonView {
    JsonView::Number(decimal(n))
}

/// An id in a result.
pub open spec fn hex(b: Seq<u8>) -> JsonView {
    JsonView::Text(hex_text(b))
}

fn set_hash(v: &mut serde_json::Value, key: &str, h: &Hash256)
    requires
        json_model(*old(v)) is Object,
    ensures
        json_model(*final(v)) == JsonView::Object(
            json_model(*old(v))->Object_0.insert(key@, hex(h.0@)),
        ),
{
    json_set_text(v, key, hex_encode(h.0.as_slice()));
}

/// The result of `get_block_height`.
pub fn height_result(tip: &ChainTip) -> (r: serde_json::Value)
    ensures
        json_model(r) == JsonView::Object(
            no_fields().insert("height"@, num(tip.height as nat)).insert(
                "block_id"@,
                hex(tip.block_id.0@),
            ),
        ),
{
    let mut v = json_object();
    json_set_number(&mut v, "height", tip.height);
    set_hash(&mut v, "block_id", &tip.block_id);
    v
}

/// The fields of a balance.
pub open spec fn balance_fields(balance: u64, address: Seq<char>) -> JsonView {
    JsonView::Object(
        no_fields().insert("balance"@, num(balance as nat)).insert(
            "address"@,
            JsonView::Text(address),
        ),
    )
}

/// The result of `get_balance`.
pub fn balance_result(balance: u64, address: &str) -> (r: serde_json::Value)
    ensures
        json_model(r) == balance_fields(balance, address@),
{
    let mut v = json_object();
    json_set_number(&mut v, "balance", balance);
    json_set_text(&mut v, "address", String::from_str(address));
    v
}

/// An unspent output in a result.
pub open spec fn row_view(row: UtxoRow, script_len: Option<usize>) -> JsonView {
    let f = no_fields().insert("tx_id"@, hex(row.outpoint.tx_id.0@)).insert(
        "output_index"@,
        num(row.outpoint.output_index as nat),
    ).insert("value"@, num(row.value as nat));
    let g = match script_len {
        Some(n) => f.insert("script_len"@, num(n as nat)),
        None => f,
    };
    JsonView::Object(
        g.insert("height"@, num(row.height as nat)).insert(
            "is_coinbase"@,
            JsonView::Bool(row.is_coinbase),
        ),
    )
}

fn row_value(row: &UtxoRow, script_len: Option<usize>) -> (r: serde_json::Value)
    ensures
        json_model(r) == row_view(*row, script_len),
{
    let mut v = json_object();
    set_hash(&mut v, "tx_id", &row.outpoint.tx_id);
    json_set_number(&mut v, "output_index", row.outpoint.output_index as u64);
    json_set_number(&mut v, "value", row.value);
    match script_len {
        Some(n) => json_set_number(&mut v, "script_len", n as u64),
        None => {},
    }
    json_set_number(&mut v, "height", row.height);
    json_set_bool(&mut v, "is_coinbase", row.is_coinbase);
    v
}

/// Unspent outputs in a result.
pub open spec fn rows_view(rows: Seq<UtxoRow>, script_len: Option<usize>) -> JsonView {
    JsonView::List(rows.map_values(|row: UtxoRow| row_view(row, script_len)))
}

fn rows_value(rows: &Vec<UtxoRow>, script_len: Option<usize>) -> (r: serde_json::Value)
    ensures
        json_model(r) == rows_view(rows@, script_len),
{
    let mut items: Vec<serde_json::Value> = Vec::new();
    let mut i: usize = 0;
    while i < rows.len()
        invariant
            i <= rows@.len(),
            items@.len() == i,
            forall|k: int|
                0 <= k < items@.len() ==> json_model(#[trigger] items@[k]) == row_view(
                    rows@[k],
                    script_len,
                ),
        decreases rows@.len() - i,
    {
        items.push(row_value(&rows[i], script_len));
        i = i + 1;
    }
    assert(items@.map_values(|v: serde_json::Value| json_model(v)) =~= rows@.map_values(
        |row: UtxoRow| row_view(row, script_len),
    ));
    json_list(items)
}

/// A mark in a result.
pub open spec fn cursor_view(c: Option<String>) -> JsonView {
    match c {
        Some(s) => JsonView::Text(s@),
        None => JsonView::Null,
    }
}

/// A page in a result.
pub open spec fn page_view(
    key: Seq<char>,
    subject: Seq<char>,
    script_len: Option<usize>,
    page: UtxoPage,
) -> JsonView {
    JsonView::Object(
        no_fields().insert(key, JsonView::Text(subject)).insert(
            "utxos"@,
            rows_view(page.matched@, script_len),
        ).insert("truncated"@, JsonView::Bool(page.truncated)).insert(
            "next_cursor"@,
            cursor_view(page.next_cursor),
        ).insert("tip_height"@, num(page.tip_height as nat)),
    )
}

fn page_value(key: &str, subject: &str, script_len: Option<usize>, page: &UtxoPage) -> (r:
    serde_json::Value)
    ensures
        json_model(r) == page_view(key@, subject@, script_len, *page),
{
    let mut v = json_object();
    json_set_text(&mut v, key, String::from_str(subject));
    json_set(&mut v, "utxos", rows_value(&page.matched, script_len));
    json_set_bool(&mut v, "truncated", page.truncated);
    let cursor = match &page.next_cursor {
        Some(c) => json_text(c.clone()),
        None => json_null(),
    };
    json_set(&mut v, "next_cursor", cursor);
    json_set_number(&mut v, "tip_height", page.tip_height);
    v
}

/// The result of `get_address_utxos`.
pub fn address_utxos_result(address: &str, page: &UtxoPage) -> (r: serde_json::Value)
    ensures
        json_model(r) == page_view("address"@, address@, None, *page),
{
    page_value("address", address, None, page)
}

/// The result of `get_script_utxos`.
pub fn script_utxos_result(script_hex: &str, script_len: usize, page: &UtxoPage) -> (r:
    serde_json::Value)
    ensures
        json_model(r) == page_view("script_hex"@, script_hex@, Some(script_len), *page),
{
    page_value("script_hex", script_hex, Some(script_len), page)
}

/// The balance of an address.
pub struct AddressBalance {
    pub address: String,
    pub balance: u64,
}

/// The result of `get_balances`.
pub fn balances_result(balances: &Vec<AddressBalance>) -> (r: serde_json::Value)
    ensures
        json_model(r) == JsonView::Object(
            no_fields().insert(
                "balances"@,
                JsonView::List(
                    balances@.map_values(|b: AddressBalance| balance_fields(b.balance, b.address@)),
                ),
            ),
        ),
{
    let mut items: Vec<serde_json::Value> = Vec::new();
    let mut i: usize = 0;
    while i < balances.len()
        invariant
            i <= balances@.len(),
            items@.len() == i,
            forall|k: int|
                0 <= k < items@.len() ==> json_model(#[trigger] items@[k]) == balance_fields(
                    balances@[k].balance,
                    balances@[k].address@,
                ),
        decreases balances@.len() - i,
    {
        items.push(balance_result(balances[i].balance, balances[i].address.as_str()));
        i = i + 1;
    }
    assert(items@.map_values(|v: serde_json::Value| json_model(v)) =~= balances@.map_values(
        |b: AddressBalance| balance_fields(b.balance, b.address@),
    ));
    let mut v = json_object();
    json_set(&mut v, "balances", json_list(items));
    v
}

/// The unspent outputs of an address.
pub struct AddressUtxos {
    pub address: String,
    pub utxos: Vec<UtxoRow>,
    pub truncated: bool,
}

/// The unspent outputs of an address in a result.
pub open spec fn address_utxos_view(a: AddressUtxos) -> JsonView {
    JsonView::Object(
        no_fields().insert("address"@, JsonView::Text(a.address@)).insert(
            "utxos"@,
            rows_view(a.utxos@, None),
        ).insert("truncated"@, JsonView::Bool(a.truncated)),
    )
}

fn address_utxos_value(a: &AddressUtxos) -> (r: serde_json::Value)
    ensures
        json_model(r) == address_utxos_view(*a),
{
    let mut v = json_object();
    json_set_text(&mut v, "address", a.address.clone());
    json_set(&mut v, "utxos", rows_value(&a.utxos, None));
    json_set_bool(&mut v, "truncated", a.truncated);
    v
}

/// The result of `get_address_utxos_batch`.
pub fn address_utxos_batch_result(list: &Vec<AddressUtxos>, tip_height: u64) -> (r:
    serde_json::Value)
    ensures
        json_model(r) == JsonView::Object(
            no_fields().insert(
                "addresses"@,
                JsonView::List(list@.map_values(|a: AddressUtxos| address_utxos_view(a))),
            ).insert("tip_height"@, num(tip_height as nat)),
        ),
{
    let mut items: Vec<serde_json::Value> = Vec::new();
    let mut i: usize = 0;
    while i < list.len()
        invariant
            i <= list@.len(),
            items@.len() == i,
            forall|k: int|
                0 <= k < items@.len() ==> json_model(#[trigger] items@[k]) == address_utxos_view(
                    list@[k],
                ),
        decreases list@.len() - i,
    {
        items.push(address_utxos_value(&list[i]));
        i = i + 1;
    }
    assert(items@.map_values(|v: serde_json::Value| json_model(v)) =~= list@.map_values(
        |a: AddressUtxos| address_utxos_view(a),
    ));
    let mut v = json_object();
    json_set(&mut v, "addresses", json_list(items));
    json_set_number(&mut v, "tip_height", tip_height);
    v
}

/// An output that a waiting transaction pays to an address.
#[derive(Clone, Copy, Debug)]
pub struct Received {
    pub output_index: u32,
    pub value: u64,
}

/// An output of an address that a waiting transaction spends.
#[derive(Clone, Copy, Debug)]
pub struct Spent {
    pub outpoint: OutPoint,
    pub value: u64,
}

/// A waiting transaction, as far as it concerns an address.
pub struct MempoolRow {
    pub tx_id: Hash256,
    pub received: Vec<Received>,
    pub spent: Vec<Spent>,
}

/// A received output in a result.
pub open spec fn received_view(x: Received) -> JsonView {
    JsonView::Object(
        no_fields().insert("output_index"@, num(x.output_index as nat)).insert(
            "value"@,
            num(x.value as nat),
        ),
    )
}

/// A spent output in a result.
pub open spec fn spent_view(x: Spent) -> JsonView {
    JsonView::Object(
        no_fields().insert("tx_id"@, hex(x.outpoint.tx_id.0@)).insert(
            "output_index"@,
            num(x.outpoint.output_index as nat),
        ).insert("value"@, num(x.value as nat)),
    )
}

/// A waiting transaction in a result.
pub open spec fn mempool_row_view(t: MempoolRow) -> JsonView {
    JsonView::Object(
        no_fields().insert("tx_id"@, hex(t.tx_id.0@)).insert(
            "received"@,
            JsonView::List(t.received@.map_values(|x: Received| received_view(x))),
        ).insert("spent"@, JsonView::List(t.spent@.map_values(|x: Spent| spent_view(x)))),
    )
}

fn received_list(rows: &Vec<Received>) -> (r: serde_json::Value)
    ensures
        json_model(r) == JsonView::List(rows@.map_values(|x: Received| received_view(x))),
{
    let mut items: Vec<serde_json::Value> = Vec::new();
    let mut i: usize = 0;
    while i < rows.len()
        invariant
            i <= rows@.len(),
            items@.len() == i,
            forall|k: int|
                0 <= k < items@.len() ==> json_model(#[trigger] items@[k]) == received_view(
                    rows@[k],
                ),
        decreases rows@.len() - i,
    {
        let mut v = json_object();
        json_set_number(&mut v, "output_index", rows[i].output_index as u64);
        json_set_number(&mut v, "value", rows[i].value);
        items.push(v);
        i = i + 1;
    }
    assert(items@.map_values(|v: serde_json::Value| json_model(v)) =~= rows@.map_values(
        |x: Received| received_view(x),
    ));
    json_list(items)
}

fn spent_list(rows: &Vec<Spent>) -> (r: serde_json::Value)
    ensures
        json_model(r) == JsonView::List(rows@.map_values(|x: Spent| spent_view(x))),
{
    let mut items: Vec<serde_json::Value> = Vec::new();
    let mut i: usize = 0;
    while i < rows.len()
        invariant
            i <= rows@.len(),
            items@.len() == i,
            forall|k: int|
                0 <= k < items@.len() ==> json_model(#[trigger] items@[k]) == spent_view(rows@[k]),
        decreases rows@.len() - i,
    {
        let mut v = json_object();
        set_hash(&mut v, "tx_id", &rows[i].outpoint.tx_id);
        json_set_number(&mut v, "output_index", rows[i].outpoint.output_index as u64);
        json_set_number(&mut v, "value", rows[i].value);
        items.push(v);
        i = i + 1;
    }
    assert(items@.map_values(|v: serde_json::Value| json_model(v)) =~= rows@.map_values(
        |x: Spent| spent_view(x),
    ));
    json_list(items)
}

/// The result of `get_address_mempool`.
pub fn mempool_result(address: &str, tip_height: u64, txs: &Vec<MempoolRow>) -> (r:
    serde_json::Value)
    ensures
        json_model(r) == JsonView::Object(
            no_fields().insert("address"@, JsonView::Text(address@)).insert(
                "tip_height"@,
                num(tip_height as nat),
            ).insert(
                "mempool"@,
                JsonView::List(txs@.map_values(|t: MempoolRow| mempool_row_view(t))),
            ),
        ),
{
    let mut items: Vec<serde_json::Value> = Vec::new();
    let mut i: usize = 0;
    while i < txs.len()
        invariant
            i <= txs@.len(),
            items@.len() == i,
            forall|k: int|
                0 <= k < items@.len() ==> json_model(#[trigger] items@[k]) == mempool_row_view(
                    txs@[k],
                ),
        decreases txs@.len() - i,
    {
        let mut v = json_object();
        set_hash(&mut v, "tx_id", &txs[i].tx_id);
        json_set(&mut v, "received", received_list(&txs[i].received));
        json_set(&mut v, "spent", spent_list(&txs[i].spent));
        items.push(v);
        i = i + 1;
    }
    assert(items@.map_values(|v: serde_json::Value| json_model(v)) =~= txs@.map_values(
        |t: MempoolRow| mempool_row_view(t),
    ));
    let mut v = json_object();
    json_set_text(&mut v, "address", String::from_str(address));
    json_set_number(&mut v, "tip_height", tip_height);
    json_set(&mut v, "mempool", json_list(items));
    v
}

// ---------------------------------------------------------------------------
// Blocks and transactions
// ---------------------------------------------------------------------------
/// Which block a call asks for.
#[derive(Clone, Copy, Debug)]
pub enum BlockQuery {
    ById(Hash256),
    AtHeight(u64),
}

/// Which block the parameters of `get_block` ask for: that of the id, if one
/// is given, and else that at the height.
pub fn block_query(hash: Option<&str>, height: Option<u64>) -> (r: Result<BlockQuery, RpcError>)
    ensures
        match (hash, height) {
            (Some(h), _) => match r {
                Ok(BlockQuery::ById(id)) => id_bytes(h@, "Hash must be 32 bytes"@) == Ok::<
                    Seq<u8>,
                    RpcFault,
                >(id.0@),
                Ok(_) => false,
                Err(e) => id_bytes(h@, "Hash must be 32 bytes"@) == Err::<Seq<u8>, RpcFault>(e@),
            },
            (None, Some(n)) => r matches Ok(q) && q == BlockQuery::AtHeight(n),
            (None, None) => r matches Err(e) && e@ == (RpcFault {
                code: INVALID_PARAMS,
                message: "Provide either 'hash' or 'height'"@,
            }),
        },
{
    match (hash, height) {
        (Some(h), _) => match decode_id(h, "Hash must be 32 bytes") {
            Ok(id) => Ok(BlockQuery::ById(id)),
            Err(e) => Err(e),
        },
        (None, Some(n)) => Ok(BlockQuery::AtHeight(n)),
        (None, None) => Err(plain_error(INVALID_PARAMS, "Provide either 'hash' or 'height'")),
    }
}

/// The id of the block at a height, given what storage says.
pub fn block_id_at(height: u64, found: Result<Option<Hash256>, String>) -> (r: Result<
    Hash256,
    RpcError,
>)
    ensures
        match found {
            Ok(Some(id)) => r matches Ok(x) && x == id,
            Ok(None) => r matches Err(e) && e@ == (RpcFault {
                code: INVALID_PARAMS,
                message: "No block at height "@ + decimal(height as nat) + ""@,
            }),
            Err(m) => r matches Err(e) && e@ == fault_of(Trouble::Storage, m@),
        },
{
    match found {
        Ok(Some(id)) => Ok(id),
        Ok(None) => Err(
            RpcError { code: INVALID_PARAMS, message: cat_num("No block at height ", height, "") },
        ),
        Err(m) => Err(trouble(Trouble::Storage, m.as_str())),
    }
}

/// A block in a result.
pub open spec fn block_view(id: Hash256, block: Block) -> JsonView {
    JsonView::Object(
        no_fields().insert("hash"@, hex(id.0@)).insert(
            "height"@,
            num(block.header.height as nat),
        ).insert("timestamp"@, num(block.header.timestamp as nat)).insert(
            "tx_count"@,
            num(block.transactions@.len()),
        ).insert(
            "transactions"@,
            JsonView::List(block.transactions@.map_values(|t: Transaction| hex(t.tx_id.0@))),
        ).insert("prev_block_id"@, hex(block.header.prev_block_id.0@)).insert(
            "difficulty_target"@,
            hex(block.header.difficulty_target.0@),
        ).insert("nonce"@, num(block.header.nonce as nat)).insert(
            "state_root"@,
            hex(block.header.state_root.0@),
        ).insert("tx_root"@, hex(block.header.tx_root.0@)),
    )
}

/// The result of `get_block`, given what storage says.
pub fn block_result(id: &Hash256, found: Result<Option<Block>, String>) -> (r: Result<
    serde_json::Value,
    RpcError,
>)
    ensures
        match found {
            Ok(Some(b)) => r matches Ok(v) && json_model(v) == block_view(*id, b),
            Ok(None) => r matches Err(e) && e@ == (RpcFault {
                code: INVALID_PARAMS,
                message: "Block not found"@,
            }),
            Err(m) => r matches Err(e) && e@ == fault_of(Trouble::Storage, m@),
        },
{
    let block = match found {
        Ok(Some(b)) => b,
        Ok(None) => {
            return Err(plain_error(INVALID_PARAMS, "Block not found"));
        },
        Err(m) => {
            return Err(trouble(Trouble::Storage, m.as_str()));
        },
    };
    let mut ids: Vec<serde_json::Value> = Vec::new();
    let mut i: usize = 0;
    while i < block.transactions.len()
        invariant
            i <= block.transactions@.len(),
            ids@.len() == i,
            forall|k: int|
                0 <= k < ids@.len() ==> json_model(#[trigger] ids@[k]) == hex(
                    block.transactions@[k].tx_id.0@,
                ),
        decreases block.transactions@.len() - i,
    {
        ids.push(json_text(hex_encode(block.transactions[i].tx_id.0.as_slice())));
        i = i + 1;
    }
    assert(ids@.map_values(|v: serde_json::Value| json_model(v))
        =~= block.transactions@.map_values(|t: Transaction| hex(t.tx_id.0@)));
    let mut v = json_object();
    set_hash(&mut v, "hash", id);
    json_set_number(&mut v, "height", block.header.height);
    json_set_number(&mut v, "timestamp", block.header.timestamp);
    json_set_number(&mut v, "tx_count", block.transactions.len() as u64);
    json_set(&mut v, "transactions", json_list(ids));
    set_hash(&mut v, "prev_block_id", &block.header.prev_block_id);
    set_hash(&mut v, "difficulty_target", &block.header.difficulty_target);
    json_set_number(&mut v, "nonce", block.header.nonce);
    set_hash(&mut v, "state_root", &block.header.state_root);
    set_hash(&mut v, "tx_root", &block.header.tx_root);
    Ok(v)
}

/// The position of a transaction in a block.
pub fn find_transaction(block: &Block, id: &Hash256) -> (r: Option<usize>)
    ensures
        match r {
            Some(i) => i < block.transactions@.len() && block.transactions@[i as int].tx_id == *id
                && forall|j: int|
                0 <= j < i ==> (#[trigger] block.transactions@[j]).tx_id != *id,
            None => forall|j: int|
                0 <= j < block.transactions@.len() ==> (#[trigger] block.transactions@[j]).tx_id
                    != *id,
        },
{
    let mut i: usize = 0;
    while i < block.transactions.len()
        invariant
            i <= block.transactions@.len(),
            forall|j: int| 0 <= j < i ==> (#[trigger] block.transactions@[j]).tx_id != *id,
        decreases block.transactions@.len() - i,
    {
        if block.transactions[i].tx_id == *id {
            return Some(i);
        }
        i = i + 1;
    }
    None
}

/// Where a transaction was found.
#[derive(Clone, Copy, Debug)]
pub struct BlockPlace {
    pub block_id: Hash256,
    pub height: u64,
}

/// A transaction in a result.
pub open spec fn transaction_view(
    hash: Seq<char>,
    data: Seq<u8>,
    place: Option<BlockPlace>,
) -> JsonView {
    let f = no_fields().insert("tx_id"@, JsonView::Text(hash)).insert("tx_hex"@, hex(data)).insert(
        "in_mempool"@,
        JsonView::Bool(place is None),
    );
    JsonView::Object(
        match place {
            None => f,
            Some(p) => f.insert("block_hash"@, hex(p.block_id.0@)).insert(
                "block_height"@,
                num(p.height as nat),
            ),
        },
    )
}

/// The result of `get_transaction` for a transaction that was found: waiting,
/// or in a block.
pub fn transaction_result(
    hash: &str,
    serialized: Result<Vec<u8>, String>,
    place: Option<BlockPlace>,
) -> (r: Result<serde_json::Value, RpcError>)
    ensures
        match serialized {
            Ok(data) => r matches Ok(v) && json_model(v) == transaction_view(hash@, data@, place),
            Err(m) => r matches Err(e) && e@ == fault_of(Trouble::Serialization, m@),
        },
{
    match serialized {
        Err(m) => Err(trouble(Trouble::Serialization, m.as_str())),
        Ok(data) => {
            let mut v = json_object();
            json_set_text(&mut v, "tx_id", String::from_str(hash));
            json_set_text(&mut v, "tx_hex", hex_encode(data.as_slice()));
            json_set_bool(&mut v, "in_mempool", place.is_none());
            match place {
                None => {},
                Some(p) => {
                    set_hash(&mut v, "block_hash", &p.block_id);
                    json_set_number(&mut v, "block_height", p.height);
                },
            }
            Ok(v)
        },
    }
}

/// The error for a transaction that was not found.
pub fn transaction_not_found() -> (r: RpcError)
    ensures
        r@ == (RpcFault { code: INVALID_PARAMS, message: "Transaction not found"@ }),
{
    plain_error(INVALID_PARAMS, "Transaction not found")
}

/// What spent an output.
#[derive(Clone, Copy, Debug)]
pub struct SpendRecord {
    pub spending_tx_id: Hash256,
    pub input_index: u32,
    pub block_height: u64,
}

/// The result of `get_output_spent_by`, given what storage says.
pub fn spent_by_result(found: Result<Option<SpendRecord>, String>) -> (r: Result<
    serde_json::Value,
    RpcError,
>)
    ensures
        match found {
            Ok(Some(s)) => r matches Ok(v) && json_model(v) == JsonView::Object(
                no_fields().insert("spent"@, JsonView::Bool(true)).insert(
                    "spending_tx_id"@,
                    hex(s.spending_tx_id.0@),
                ).insert("input_index"@, num(s.input_index as nat)).insert(
                    "block_height"@,
                    num(s.block_height as nat),
                ),
            ),
            Ok(None) => r matches Ok(v) && json_model(v) == JsonView::Object(
                no_fields().insert("spent"@, JsonView::Bool(false)),
            ),
            Err(m) => r matches Err(e) && e@ == fault_of(Trouble::Storage, m@),
        },
{
    match found {
        Err(m) => Err(trouble(Trouble::Storage, m.as_str())),
        Ok(None) => {
            let mut v = json_object();
            json_set_bool(&mut v, "spent", false);
            Ok(v)
        },
        Ok(Some(s)) => {
            let mut v = json_object();
            json_set_bool(&mut v, "spent", true);
            set_hash(&mut v, "spending_tx_id", &s.spending_tx_id);
            json_set_number(&mut v, "input_index", s.input_index as u64);
            json_set_number(&mut v, "block_height", s.block_height);
            Ok(v)
        },
    }
}

/// The bytes of a transaction that is submitted.
pub fn decode_submission(tx_hex: &str) -> (r: Result<Vec<u8>, RpcError>)
    ensures
        match hex_decoded(encode_utf8(tx_hex@)) {
            Ok(b) => r matches Ok(x) && x@ == b,
            Err(f) => r matches Err(e) && e@ == fault_of(Trouble::Hex, f.text()),
        },
{
    match decode_hex(tx_hex) {
        Ok(b) => Ok(b),
        Err(e) => {
            let m = e.message();
            Err(trouble(Trouble::Hex, m.as_str()))
        },
    }
}

/// Checks that a transaction takes up all of the bytes it came in.
pub fn check_consumed(consumed: usize, total: usize) -> (r: Option<RpcError>)
    ensures
        reports(
            r,
            if consumed == total {
                None
            } else {
                Some(
                    RpcFault {
                        code: INVALID_PARAMS,
                        message: "Trailing bytes after transaction: consumed "@ + decimal(
                            consumed as nat,
                        ) + " of "@ + decimal(total as nat),
                    },
                )
            },
        ),
{
    if consumed != total {
        let mut s = cat_num(
            "Trailing bytes after transaction: consumed ",
            consumed as u64,
            " of ",
        );
        push_decimal(&mut s, total as u64);
        return Some(RpcError { code: INVALID_PARAMS, message: s });
    }
    None
}

/// Checks that the tip is still the one at which a transaction was validated.
pub fn check_tip_unchanged(validated_at: &Hash256, current: &Hash256) -> (r: Option<RpcError>)
    ensures
        reports(
            r,
            if *validated_at == *current {
                None
            } else {
                Some(
                    RpcFault {
                        code: INTERNAL_ERROR,
                        message: "Tip changed during validation, try again"@,
                    },
                )
            },
        ),
{
    if *validated_at != *current {
        return Some(plain_error(INTERNAL_ERROR, "Tip changed during validation, try again"));
    }
    None
}

/// The result of `send_raw_transaction`.
pub fn submission_result(tx_id: &Hash256) -> (r: serde_json::Value)
    ensures
        json_model(r) == JsonView::Object(no_fields().insert("tx_id"@, hex(tx_id.0@))),
{
    let mut v = json_object();
    set_hash(&mut v, "tx_id", tx_id);
    v
}

// ---------------------------------------------------------------------------
// Calling another node
// ---------------------------------------------------------------------------
/// A call that is ready to be sent.
pub struct OutgoingCall {
    pub address: String,
    pub head: String,
    pub body: Vec<u8>,
}

/// The call of a method.
pub open spec fn call_view(method: Seq<char>, params: JsonView) -> JsonView {
    JsonView::Object(
        no_fields().insert("jsonrpc"@, JsonView::Text("2.0"@)).insert(
            "method"@,
            JsonView::Text(method),
        ).insert("params"@, params).insert("id"@, num(1)),
    )
}

/// Makes a call ready to be sent.
pub fn prepare_call(url: &str, method: &str, params: serde_json::Value) -> (r: Result<
    OutgoingCall,
    String,
>)
    ensures
        r matches Ok(c) && {
            &&& c.address@ == address_in(url@)
            &&& c.body@ == json_bytes(call_view(method@, json_model(params)))
            &&& c.head@ == call_head_text(c.address@, c.body@.len())
        },
{
    let address = address_of(url);
    let mut v = json_object();
    json_set_text(&mut v, "jsonrpc", String::from_str("2.0"));
    json_set_text(&mut v, "method", String::from_str(method));
    json_set(&mut v, "params", params);
    json_set_number(&mut v, "id", 1);
    match json_render(&v) {
        Err(e) => Err(cat2("JSON encode: ", e.as_str())),
        Ok(body) => {
            let head = call_head(address.as_str(), body.len());
            Ok(OutgoingCall { address, head, body })
        },
    }
}

/// The field of an object.
pub open spec fn field_of(v: JsonView, key: Seq<char>) -> Option<JsonView> {
    match v {
        JsonView::Object(m) if m.contains_key(key) => Some(m[key]),
        _ => None,
    }
}

/// What an answer says: its result, or its error.
pub open spec fn answer_of(v: JsonView) -> Result<JsonView, Seq<char>> {
    match field_of(v, "error"@) {
        Some(e) if !(e is Null) => Err(
            "RPC error: "@ + match field_of(e, "message"@) {
                Some(JsonView::Text(t)) => t,
                _ => "unknown error"@,
            },
        ),
        _ => match field_of(v, "result"@) {
            Some(x) => Ok(x),
            None => Err("Missing 'result' in RPC response"@),
        },
    }
}

/// What an answer says.
pub fn interpret_answer(v: &serde_json::Value) -> (r: Result<serde_json::Value, String>)
    ensures
        match r {
            Ok(x) => answer_of(json_model(*v)) == Ok::<JsonView, Seq<char>>(json_model(x)),
            Err(e) => answer_of(json_model(*v)) == Err::<JsonView, Seq<char>>(e@),
        },
{
    match json_field(v, "error") {
        Some(err) => {
            if !json_is_null(err) {
                let message = match json_field(err, "message") {
                    Some(m) => match json_as_text(m) {
                        Some(t) => t,
                        None => "unknown error",
                    },
                    None => "unknown error",
                };
                return Err(cat2("RPC error: ", message));
            }
        },
        None => {},
    }
    match json_field(v, "result") {
        Some(x) => Ok(json_copy(x)),
        None => Err(String::from_str("Missing 'result' in RPC response")),
    }
}

/// What the body of an answer says.
pub fn read_answer(body: &[u8]) -> (r: Result<serde_json::Value, String>)
    ensures
        match json_document(body@) {
            Err(m) => r matches Err(e) && e@ == "JSON parse error: "@ + m,
            Ok(v) => match r {
                Ok(x) => answer_of(v) == Ok::<JsonView, Seq<char>>(json_model(x)),
                Err(e) => answer_of(v) == Err::<JsonView, Seq<char>>(e@),
            },
        },
{
    match json_parse(body) {
        Err(e) => Err(cat2("JSON parse error: ", e.as_str())),
        Ok(v) => interpret_answer(&v),
    }
}

} // verus!
