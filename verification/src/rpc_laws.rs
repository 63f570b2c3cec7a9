//! What the answers to calls show.
use crate::chain::Block;
use crate::clock::age;
use crate::hash::Hash256;
use crate::hexcodec::{hex_text, law_hex_is_read_back};
use crate::json::JsonView;
use crate::rpc::{
    address_bytes, address_utxos_view, balance_fields, block_view, call_fault, cursor_text, fault_of,
    id_bytes, law_cursor_is_read_back, mempool_row_view, method_named, page_view, rate_fault,
    row_view, rows_view, script_bytes, transaction_view, walk_from, AddressUtxos, BlockPlace,
    CallWindow, CursorView, MempoolRow, RpcFault, RpcMethod, Trouble, UtxoPage, UtxoRow,
};
use crate::net::IpAddr;
use crate::text::decimal;
use vstd::prelude::*;
use vstd::string::*;

verus! {

/// Whether an answer has a field with a value.
pub open spec fn shows(v: JsonView, key: Seq<char>, x: JsonView) -> bool {
    v matches JsonView::Object(f) && f.contains_key(key) && f[key] == x
}

/// Whether an answer has a field with a number.
pub open spec fn shows_number(v: JsonView, key: Seq<char>, n: nat) -> bool {
    shows(v, key, JsonView::Number(decimal(n)))
}

/// Whether an answer has a field with bytes in hexadecimal.
pub open spec fn shows_hex(v: JsonView, key: Seq<char>, b: Seq<u8>) -> bool {
    shows(v, key, JsonView::Text(hex_text(b)))
}

/// Whether an answer has a field with a list of the given length.
pub open spec fn shows_list(v: JsonView, key: Seq<char>, len: nat) -> bool {
    v matches JsonView::Object(f) && f.contains_key(key) && (f[key] matches JsonView::List(l)
        && l.len() == len)
}

/// An item of a list under a field.
pub open spec fn item(v: JsonView, key: Seq<char>, i: int) -> JsonView {
    v->Object_0[key]->List_0[i]
}

/// Whether an object shows an unspent output: all of it, as it is.
pub open spec fn shows_output(v: JsonView, row: UtxoRow) -> bool {
    &&& shows_hex(v, "tx_id"@, row.outpoint.tx_id.0@)
    &&& shows_number(v, "output_index"@, row.outpoint.output_index as nat)
    &&& shows_number(v, "value"@, row.value as nat)
    &&& shows_number(v, "height"@, row.height as nat)
    &&& shows(v, "is_coinbase"@, JsonView::Bool(row.is_coinbase))
}

proof fn lemma_row_is_shown(row: UtxoRow, script_len: Option<usize>)
    ensures
        shows_output(row_view(row, script_len), row),
        script_len matches Some(n) ==> shows_number(
            row_view(row, script_len),
            "script_len"@,
            n as nat,
        ),
        script_len is None ==> !row_view(row, script_len)->Object_0.contains_key("script_len"@),
{
    reveal_strlit("tx_id");
    reveal_strlit("output_index");
    reveal_strlit("value");
    reveal_strlit("script_len");
    reveal_strlit("height");
    reveal_strlit("is_coinbase");
    assert("value"@[0] != "tx_id"@[0]);
    assert("output_index"@.len() == 12 && "script_len"@.len() == 10 && "is_coinbase"@.len() == 11);
    assert("height"@.len() == 6 && "value"@.len() == 5 && "tx_id"@.len() == 5);
}

/// A page shows every unspent output of its part of the walk, in order, with
/// its transaction, index, value and height; it names whose outputs they are,
/// and says whether there are more, and from where.
pub proof fn law_page_shows_every_output(
    key: Seq<char>,
    subject: Seq<char>,
    script_len: Option<usize>,
    page: UtxoPage,
    i: int,
)
    requires
        key == "address"@ || key == "script_hex"@,
        0 <= i < page.matched@.len(),
    ensures
        ({
            let v = page_view(key, subject, script_len, page);
            &&& shows(v, key, JsonView::Text(subject))
            &&& shows_list(v, "utxos"@, page.matched@.len())
            &&& shows_output(item(v, "utxos"@, i), page.matched@[i])
            &&& script_len matches Some(n) ==> shows_number(
                item(v, "utxos"@, i),
                "script_len"@,
                n as nat,
            )
            &&& shows(v, "truncated"@, JsonView::Bool(page.truncated))
            &&& page.next_cursor matches Some(c) ==> shows(v, "next_cursor"@, JsonView::Text(c@))
            &&& page.next_cursor is None ==> shows(v, "next_cursor"@, JsonView::Null)
            &&& shows_number(v, "tip_height"@, page.tip_height as nat)
        }),
{
    lemma_page_fields(key, subject, script_len, page);
    lemma_row_is_shown(page.matched@[i], script_len);
}

proof fn lemma_page_fields(
    key: Seq<char>,
    subject: Seq<char>,
    script_len: Option<usize>,
    page: UtxoPage,
)
    requires
        key == "address"@ || key == "script_hex"@,
    ensures
        ({
            let v = page_view(key, subject, script_len, page);
            &&& shows(v, key, JsonView::Text(subject))
            &&& shows(v, "utxos"@, rows_view(page.matched@, script_len))
            &&& shows(v, "truncated"@, JsonView::Bool(page.truncated))
            &&& page.next_cursor matches Some(c) ==> shows(v, "next_cursor"@, JsonView::Text(c@))
            &&& page.next_cursor is None ==> shows(v, "next_cursor"@, JsonView::Null)
            &&& shows_number(v, "tip_height"@, page.tip_height as nat)
        }),
{
    reveal_strlit("address");
    reveal_strlit("script_hex");
    reveal_strlit("utxos");
    reveal_strlit("truncated");
    reveal_strlit("next_cursor");
    reveal_strlit("tip_height");
    assert("script_hex"@[0] != "tip_height"@[0]);
    assert("address"@.len() == 7 && "utxos"@.len() == 5 && "truncated"@.len() == 9
        && "next_cursor"@.len() == 11);
}

/// A page without outputs shows an empty list.
pub proof fn law_empty_page_shows_nothing(
    key: Seq<char>,
    subject: Seq<char>,
    script_len: Option<usize>,
    page: UtxoPage,
)
    requires
        key == "address"@ || key == "script_hex"@,
        page.matched@.len() == 0,
    ensures
        shows_list(page_view(key, subject, script_len, page), "utxos"@, 0),
{
    lemma_page_fields(key, subject, script_len, page);
}

/// Of several addresses, each shows every unspent output that was cut for it, in
/// order, and says whether there are more.
pub proof fn law_batch_shows_every_output(a: AddressUtxos, i: int)
    requires
        0 <= i < a.utxos@.len(),
    ensures
        ({
            let v = address_utxos_view(a);
            &&& shows(v, "address"@, JsonView::Text(a.address@))
            &&& shows_list(v, "utxos"@, a.utxos@.len())
            &&& shows_output(item(v, "utxos"@, i), a.utxos@[i])
            &&& shows(v, "truncated"@, JsonView::Bool(a.truncated))
        }),
{
    reveal_strlit("address");
    reveal_strlit("utxos");
    reveal_strlit("truncated");
    assert("address"@.len() == 7 && "utxos"@.len() == 5 && "truncated"@.len() == 9);
    lemma_row_is_shown(a.utxos@[i], None);
}

/// A balance is shown with the address that it belongs to.
pub proof fn law_balance_is_shown(balance: u64, address: Seq<char>)
    ensures
        shows_number(balance_fields(balance, address), "balance"@, balance as nat),
        shows(balance_fields(balance, address), "address"@, JsonView::Text(address)),
{
    reveal_strlit("balance");
    reveal_strlit("address");
    assert("balance"@[0] != "address"@[0]);
}

/// A waiting transaction is shown with each output that it pays to the address
/// and each output of the address that it spends.
pub proof fn law_waiting_transaction_is_shown(t: MempoolRow, i: int, j: int)
    requires
        0 <= i < t.received@.len() || 0 <= j < t.spent@.len(),
    ensures
        ({
            let v = mempool_row_view(t);
            let x = item(v, "received"@, i);
            let y = item(v, "spent"@, j);
            &&& shows_hex(v, "tx_id"@, t.tx_id.0@)
            &&& shows_list(v, "received"@, t.received@.len())
            &&& shows_list(v, "spent"@, t.spent@.len())
            &&& 0 <= i < t.received@.len() ==> {
                &&& shows_number(x, "output_index"@, t.received@[i].output_index as nat)
                &&& shows_number(x, "value"@, t.received@[i].value as nat)
            }
            &&& 0 <= j < t.spent@.len() ==> {
                &&& shows_hex(y, "tx_id"@, t.spent@[j].outpoint.tx_id.0@)
                &&& shows_number(y, "output_index"@, t.spent@[j].outpoint.output_index as nat)
                &&& shows_number(y, "value"@, t.spent@[j].value as nat)
            }
        }),
{
    reveal_strlit("tx_id");
    reveal_strlit("received");
    reveal_strlit("spent");
    reveal_strlit("output_index");
    reveal_strlit("value");
    assert("tx_id"@[0] != "spent"@[0] && "tx_id"@[0] != "value"@[0]);
    assert("received"@.len() == 8 && "output_index"@.len() == 12 && "spent"@.len() == 5
        && "tx_id"@.len() == 5 && "value"@.len() == 5);
}

/// A block is shown with its place in the chain, the fields of its header, and
/// the ids of all of its transactions in order.
pub proof fn law_block_is_shown(id: Hash256, block: Block, i: int)
    ensures
        ({
            let v = block_view(id, block);
            let h = block.header;
            &&& shows_hex(v, "hash"@, id.0@)
            &&& shows_number(v, "height"@, h.height as nat)
            &&& shows_number(v, "timestamp"@, h.timestamp as nat)
            &&& shows_number(v, "tx_count"@, block.transactions@.len())
            &&& shows_list(v, "transactions"@, block.transactions@.len())
            &&& 0 <= i < block.transactions@.len() ==> item(v, "transactions"@, i)
                == JsonView::Text(hex_text(block.transactions@[i].tx_id.0@))
            &&& shows_hex(v, "prev_block_id"@, h.prev_block_id.0@)
            &&& shows_hex(v, "difficulty_target"@, h.difficulty_target.0@)
            &&& shows_number(v, "nonce"@, h.nonce as nat)
            &&& shows_hex(v, "state_root"@, h.state_root.0@)
            &&& shows_hex(v, "tx_root"@, h.tx_root.0@)
        }),
{
    reveal_strlit("hash");
    reveal_strlit("height");
    reveal_strlit("timestamp");
    reveal_strlit("tx_count");
    reveal_strlit("transactions");
    reveal_strlit("prev_block_id");
    reveal_strlit("difficulty_target");
    reveal_strlit("nonce");
    reveal_strlit("state_root");
    reveal_strlit("tx_root");
    assert("hash"@.len() == 4 && "height"@.len() == 6 && "timestamp"@.len() == 9
        && "tx_count"@.len() == 8 && "transactions"@.len() == 12 && "prev_block_id"@.len() == 13
        && "difficulty_target"@.len() == 17 && "nonce"@.len() == 5 && "state_root"@.len() == 10
        && "tx_root"@.len() == 7);
}

/// A transaction is shown with its bytes; one in a block with its place, and one
/// without a place as waiting.
pub proof fn law_transaction_is_shown(hash: Seq<char>, data: Seq<u8>, place: Option<BlockPlace>)
    ensures
        ({
            let v = transaction_view(hash, data, place);
            &&& shows(v, "tx_id"@, JsonView::Text(hash))
            &&& shows_hex(v, "tx_hex"@, data)
            &&& shows(v, "in_mempool"@, JsonView::Bool(place is None))
            &&& place matches Some(p) ==> shows_hex(v, "block_hash"@, p.block_id.0@)
                && shows_number(v, "block_height"@, p.height as nat)
        }),
{
    reveal_strlit("tx_id");
    reveal_strlit("tx_hex");
    reveal_strlit("in_mempool");
    reveal_strlit("block_hash");
    reveal_strlit("block_height");
    assert("tx_id"@.len() == 5 && "tx_hex"@.len() == 6 && "in_mempool"@.len() == 10
        && "block_hash"@.len() == 10 && "block_height"@.len() == 12);
    assert("in_mempool"@[0] != "block_hash"@[0]);
}

/// Every address of 32 bytes is read from its hexadecimal text, and so is every
/// id; every script of up to 65535 bytes likewise. Nothing of another length is
/// taken for one.
pub proof fn law_parameters_are_read(b: Seq<u8>, wrong_length: Seq<char>)
    ensures
        b.len() == 32 ==> address_bytes(hex_text(b)) == Ok::<Seq<u8>, RpcFault>(b),
        b.len() != 32 ==> address_bytes(hex_text(b)) is Err,
        b.len() == 32 ==> id_bytes(hex_text(b), wrong_length) == Ok::<Seq<u8>, RpcFault>(b),
        b.len() != 32 ==> id_bytes(hex_text(b), wrong_length) == Err::<Seq<u8>, RpcFault>(
            RpcFault { code: -32602i32, message: wrong_length },
        ),
        b.len() <= 65_535 ==> script_bytes(hex_text(b)) == Ok::<Seq<u8>, RpcFault>(b),
        b.len() > 65_535 ==> script_bytes(hex_text(b)) is Err,
{
    law_hex_is_read_back(b);
}

/// A walk without a mark begins at the start. One with a mark that was handed
/// out at the same tip goes on behind the output that the mark names; one with a
/// mark of another tip is refused.
pub proof fn law_walk_goes_on_at_the_same_tip(
    tip: Seq<u8>,
    tx: Seq<u8>,
    index: nat,
    now_tip: Seq<u8>,
)
    requires
        tip.len() == 32,
        tx.len() == 32,
        index <= u32::MAX,
    ensures
        walk_from(None, now_tip) == Ok::<Option<CursorView>, RpcFault>(None),
        walk_from(Some(cursor_text(tip, tx, index)), tip) == Ok::<Option<CursorView>, RpcFault>(
            Some(CursorView { tip, tx, index }),
        ),
        now_tip != tip ==> walk_from(Some(cursor_text(tip, tx, index)), now_tip) is Err,
{
    law_cursor_is_read_back(tip, tx, index);
}

/// Calls that read balances or outputs are refused when more than thirty came
/// from an address in a minute, submissions when more than sixty did; no other
/// call is ever refused for its number, and no call for those of other
/// addresses.
pub proof fn law_rates_are_limited(
    m: RpcMethod,
    scans: Map<IpAddr, CallWindow>,
    submissions: Map<IpAddr, CallWindow>,
    ip: IpAddr,
    now: u64,
)
    ensures
        ({
            let reads = m is GetBalance || m is GetAddressUtxos || m is GetScriptUtxos
                || m is GetBalances || m is GetAddressUtxosBatch || m is GetAddressMempool;
            let earlier = |w: Map<IpAddr, CallWindow>|
                if w.contains_key(ip) && age(now, w[ip].start) < 60_000_000_000 {
                    w[ip].count as int
                } else {
                    0
                };
            rate_fault(m, scans, submissions, ip, now) is Some <==> (reads && earlier(scans) >= 30)
                || (m is SendRawTransaction && earlier(submissions) >= 60)
        }),
{
}

/// Only calls of the known names are answered, each by its own method; a call
/// that is too large, or not of version 2.0, is refused before that.
pub proof fn law_calls_are_known_by_name(name: Seq<char>, len: usize, version: Seq<char>)
    ensures
        method_named("get_block_height"@) == Some(RpcMethod::GetBlockHeight),
        method_named("get_balance"@) == Some(RpcMethod::GetBalance),
        method_named("send_raw_transaction"@) == Some(RpcMethod::SendRawTransaction),
        method_named(name) == Some(RpcMethod::GetBlock) ==> name == "get_block"@,
        method_named(name) == Some(RpcMethod::GetTransaction) ==> name == "get_transaction"@,
        method_named(name) == Some(RpcMethod::GetBalances) ==> name == "get_balances"@,
        method_named(name) == Some(RpcMethod::GetAddressUtxos) ==> name == "get_address_utxos"@,
        method_named(name) == Some(RpcMethod::GetScriptUtxos) ==> name == "get_script_utxos"@,
        method_named(name) == Some(RpcMethod::SendRawTransaction) ==> name
            == "send_raw_transaction"@,
        version != "2.0"@ ==> call_fault(name, len, version) is Some,
        len > 2_621_440 ==> call_fault(name, len, version) is Some,
        len <= 65_536 && version == "2.0"@ ==> call_fault(name, len, version) is None,
        name == "send_raw_transaction"@ && version == "2.0"@ ==> (call_fault(name, len, version)
            is None <==> len <= 2_621_440),
        name == "get_script_utxos"@ && version == "2.0"@ ==> (call_fault(name, len, version) is None
            <==> len <= 200_000),
        name != "send_raw_transaction"@ && name != "get_script_utxos"@ && len > 65_536
            ==> call_fault(name, len, version) is Some,
{
    reveal_strlit("get_block_height");
    reveal_strlit("get_balance");
    reveal_strlit("get_address_utxos");
    reveal_strlit("get_script_utxos");
    reveal_strlit("get_balances");
    reveal_strlit("get_address_utxos_batch");
    reveal_strlit("get_address_mempool");
    reveal_strlit("get_block");
    reveal_strlit("get_transaction");
    reveal_strlit("get_output_spent_by");
    reveal_strlit("send_raw_transaction");
    assert("get_script_utxos"@.len() == 16 && "get_block_height"@.len() == 16);
    assert("send_raw_transaction"@.len() == 20 && "get_output_spent_by"@.len() == 19
        && "get_address_mempool"@.len() == 19);
    assert("get_script_utxos"@[4] != "get_block_height"@[4]);
}

/// What a caller did wrong is told apart from what the node could not do, and the
/// detail is passed on.
pub proof fn law_faults_are_told_apart(detail: Seq<char>)
    ensures
        fault_of(Trouble::Params, detail).code == -32602,
        fault_of(Trouble::Hex, detail).code == -32602,
        fault_of(Trouble::Cursor, detail).code == -32602,
        fault_of(Trouble::Validation, detail).code == -32602,
        fault_of(Trouble::Mempool, detail).code == -32602,
        fault_of(Trouble::Storage, detail).code == -32603,
        fault_of(Trouble::Serialization, detail).code == -32603,
        forall|t: Trouble| #[trigger]
            fault_of(t, detail).message.skip(fault_of(t, detail).message.len() - detail.len())
                == detail,
{
    assert forall|t: Trouble| #[trigger]
        fault_of(t, detail).message.skip(fault_of(t, detail).message.len() - detail.len())
            == detail by {
        let m = fault_of(t, detail).message;
        assert(m.skip(m.len() - detail.len()) =~= detail);
    }
}

} // verus!
