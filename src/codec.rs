use crate::accounts_store::{log_wf, records_wf, Transaction, TransactionType};
use crate::ledger::{AccountIdentifier, Memo, TimeStamp, Tokens, Transfer};
use vstd::bytes::{
    lemma_auto_spec_u64_to_from_le_bytes, spec_u64_from_le_bytes, spec_u64_to_le_bytes,
    u64_from_le_bytes, u64_to_le_bytes,
};
use vstd::prelude::*;
use vstd::slice::slice_subrange;

verus! {

// A snapshot is a sequence of 64-bit words, each stored as eight little-endian bytes:
// the record count, ten words per record, then the watermark (a presence flag and a
// value) and the time of the last sync.

/// Words per stored record.
pub const RECORD_WORDS: usize = 10;

/// Persisted bytes that do not hold a well-formed snapshot.
#[derive(Clone, Copy, Debug, PartialEq, Eq, Structural)]
pub enum DecodeError {
    Malformed,
}

pub open spec fn type_word(ty: Option<TransactionType>) -> u64 {
    match ty {
        None => 0,
        Some(TransactionType::Burn) => 1,
        Some(TransactionType::Mint) => 2,
        Some(TransactionType::Send) => 3,
    }
}

pub open spec fn record_words(t: Transaction) -> Seq<u64> {
    let (tag, a, b, c, d) = match t.transfer {
        Transfer::Burn { from, amount } => (0u64, from.id, amount.e8s, 0u64, 0u64),
        Transfer::Mint { to, amount } => (1u64, to.id, amount.e8s, 0u64, 0u64),
        Transfer::Send { from, to, amount, fee } => (2u64, from.id, to.id, amount.e8s, fee.e8s),
    };
    seq![
        t.transaction_index,
        t.block_height,
        t.timestamp.timestamp_nanos,
        t.memo.0,
        tag,
        a,
        b,
        c,
        d,
        type_word(t.transaction_type),
    ]
}

/// The record that ten words hold, if the tags are known.
pub open spec fn parse_record(w: Seq<u64>) -> Option<Transaction> {
    let transfer = if w[4] == 0 {
        Some(Transfer::Burn { from: AccountIdentifier { id: w[5] }, amount: Tokens { e8s: w[6] } })
    } else if w[4] == 1 {
        Some(Transfer::Mint { to: AccountIdentifier { id: w[5] }, amount: Tokens { e8s: w[6] } })
    } else if w[4] == 2 {
        Some(
            Transfer::Send {
                from: AccountIdentifier { id: w[5] },
                to: AccountIdentifier { id: w[6] },
                amount: Tokens { e8s: w[7] },
                fee: Tokens { e8s: w[8] },
            },
        )
    } else {
        None
    };
    let ty = if w[9] == 0 {
        Some(None)
    } else if w[9] == 1 {
        Some(Some(TransactionType::Burn))
    } else if w[9] == 2 {
        Some(Some(TransactionType::Mint))
    } else if w[9] == 3 {
        Some(Some(TransactionType::Send))
    } else {
        None
    };
    if transfer is Some && ty is Some {
        Some(
            Transaction {
                transaction_index: w[0],
                block_height: w[1],
                timestamp: TimeStamp { timestamp_nanos: w[2] },
                memo: Memo(w[3]),
                transfer: transfer.unwrap(),
                transaction_type: ty.unwrap(),
            },
        )
    } else {
        None
    }
}

pub open spec fn log_words(log: Seq<Transaction>) -> Seq<u64>
    decreases log.len(),
{
    if log.len() == 0 {
        Seq::empty()
    } else {
        log_words(log.drop_last()) + record_words(log.last())
    }
}

pub open spec fn snapshot_words(log: Seq<Transaction>, synced_up_to: Option<u64>, last_sync_nanos: u64) -> Seq<u64> {
    seq![log.len() as u64] + log_words(log) + seq![
        if synced_up_to is Some { 1u64 } else { 0u64 },
        if synced_up_to is Some { synced_up_to.unwrap() } else { 0u64 },
        last_sync_nanos,
    ]
}

pub open spec fn words_bytes(ws: Seq<u64>) -> Seq<u8>
    decreases ws.len(),
{
    if ws.len() == 0 {
        Seq::empty()
    } else {
        words_bytes(ws.drop_last()) + spec_u64_to_le_bytes(ws.last())
    }
}

pub open spec fn bytes_words(b: Seq<u8>) -> Seq<u64> {
    Seq::new(b.len() / 8, |i: int| spec_u64_from_le_bytes(b.subrange(8 * i, 8 * i + 8)))
}

/// The bytes of a snapshot of the log, the watermark and the last sync time.
pub open spec fn encoding(log: Seq<Transaction>, synced_up_to: Option<u64>, last_sync_nanos: u64) -> Seq<u8> {
    words_bytes(snapshot_words(log, synced_up_to, last_sync_nanos))
}

/// The words of record `i` in a snapshot.
pub open spec fn record_slice(ws: Seq<u64>, i: int) -> Seq<u64> {
    ws.subrange(1 + 10 * i, 11 + 10 * i)
}

pub open spec fn word_count_ok(ws: Seq<u64>) -> bool {
    ws.len() >= 4 && (ws.len() - 4) % 10 == 0 && ws[0] == (ws.len() - 4) / 10
}

pub open spec fn decoded_log(ws: Seq<u64>) -> Seq<Transaction> {
    Seq::new(((ws.len() - 4) / 10) as nat, |i: int| parse_record(record_slice(ws, i)).unwrap())
}

pub open spec fn decoded_watermark(ws: Seq<u64>) -> Option<u64> {
    if ws[ws.len() - 3] == 1 {
        Some(ws[ws.len() - 2])
    } else {
        None
    }
}

/// The log, watermark and last sync time that `b` holds, if it is a well-formed snapshot.
pub open spec fn decoding(b: Seq<u8>) -> Option<(Seq<Transaction>, Option<u64>, u64)> {
    let ws = bytes_words(b);
    if b.len() % 8 == 0 && word_count_ok(ws) && (forall|i: int|
        0 <= i < (ws.len() - 4) / 10 ==> #[trigger] parse_record(record_slice(ws, i)) is Some)
        && ws[ws.len() - 3] <= 1 && log_wf(decoded_log(ws), decoded_watermark(ws)) {
        Some((decoded_log(ws), decoded_watermark(ws), ws[ws.len() - 1]))
    } else {
        None
    }
}

proof fn lemma_decoding_some(b: Seq<u8>)
    requires
        decoding(b) is Some,
    ensures
        word_count_ok(bytes_words(b)),
        forall|i: int|
            0 <= i < (bytes_words(b).len() - 4) / 10 ==> #[trigger] parse_record(
                record_slice(bytes_words(b), i),
            ) is Some,
        log_wf(decoded_log(bytes_words(b)), decoded_watermark(bytes_words(b))),
{
}

proof fn lemma_log_words(log: Seq<Transaction>)
    ensures
        log_words(log).len() == 10 * log.len(),
        forall|i: int|
            0 <= i < log.len() ==> #[trigger] log_words(log).subrange(10 * i, 10 * i + 10)
                == record_words(log[i]),
    decreases log.len(),
{
    if log.len() > 0 {
        let init = log.drop_last();
        lemma_log_words(init);
        let ws = log_words(log);
        assert forall|i: int| 0 <= i < log.len() implies #[trigger] ws.subrange(10 * i, 10 * i + 10)
            == record_words(log[i]) by {
            if i < init.len() {
                assert(ws.subrange(10 * i, 10 * i + 10) =~= log_words(init).subrange(
                    10 * i,
                    10 * i + 10,
                ));
            } else {
                assert(ws.subrange(10 * i, 10 * i + 10) =~= record_words(log.last()));
            }
        }
    }
}

proof fn lemma_words_bytes(ws: Seq<u64>)
    ensures
        words_bytes(ws).len() == 8 * ws.len(),
        forall|i: int|
            0 <= i < ws.len() ==> #[trigger] words_bytes(ws).subrange(8 * i, 8 * i + 8)
                == spec_u64_to_le_bytes(ws[i]),
    decreases ws.len(),
{
    lemma_auto_spec_u64_to_from_le_bytes();
    if ws.len() > 0 {
        let init = ws.drop_last();
        lemma_words_bytes(init);
        let b = words_bytes(ws);
        assert forall|i: int| 0 <= i < ws.len() implies #[trigger] b.subrange(8 * i, 8 * i + 8)
            == spec_u64_to_le_bytes(ws[i]) by {
            if i < init.len() {
                assert(b.subrange(8 * i, 8 * i + 8) =~= words_bytes(init).subrange(8 * i, 8 * i + 8));
            } else {
                assert(b.subrange(8 * i, 8 * i + 8) =~= spec_u64_to_le_bytes(ws.last()));
            }
        }
    }
}

proof fn lemma_bytes_words_inverse(ws: Seq<u64>)
    ensures
        bytes_words(words_bytes(ws)) == ws,
        words_bytes(ws).len() % 8 == 0,
{
    lemma_words_bytes(ws);
    lemma_auto_spec_u64_to_from_le_bytes();
    let b = words_bytes(ws);
    assert forall|i: int| 0 <= i < ws.len() implies #[trigger] bytes_words(b)[i] == ws[i] by {
        assert(b.subrange(8 * i, 8 * i + 8) == spec_u64_to_le_bytes(ws[i]));
    }
    assert(bytes_words(b) =~= ws);
}

proof fn lemma_parse_record(t: Transaction)
    ensures
        parse_record(record_words(t)) == Some(t),
{
}

/// Decoding the encoding of a well-formed store gives back its log, its watermark and its
/// last sync time, the empty store included.
pub proof fn lemma_round_trip(log: Seq<Transaction>, synced_up_to: Option<u64>, last_sync_nanos: u64)
    requires
        log_wf(log, synced_up_to),
        log.len() <= usize::MAX,
    ensures
        decoding(encoding(log, synced_up_to, last_sync_nanos)) == Some(
            (log, synced_up_to, last_sync_nanos),
        ),
{
    let ws = snapshot_words(log, synced_up_to, last_sync_nanos);
    lemma_bytes_words_inverse(ws);
    lemma_log_words(log);
    let n = log.len() as int;
    assert(ws.len() == 10 * n + 4);
    assert((ws.len() - 4) / 10 == n) by (nonlinear_arith)
        requires ws.len() == 10 * n + 4;
    assert((ws.len() - 4) % 10 == 0) by (nonlinear_arith)
        requires ws.len() == 10 * n + 4;
    assert forall|i: int| 0 <= i < n implies #[trigger] parse_record(record_slice(ws, i)) == Some(
        log[i],
    ) by {
        assert(record_slice(ws, i) =~= log_words(log).subrange(10 * i, 10 * i + 10));
        lemma_parse_record(log[i]);
    }
    assert(ws[0] == n);
    assert(ws[ws.len() - 3] == ws[10 * n + 1]);
    assert(decoded_log(ws) =~= log);
    assert(decoded_watermark(ws) == synced_up_to);
}

fn push_record_words(words: &mut Vec<u64>, t: &Transaction)
    ensures
        final(words)@ == old(words)@ + record_words(*t),
{
    let (tag, a, b, c, d) = match t.transfer {
        Transfer::Burn { from, amount } => (0u64, from.id, amount.e8s, 0u64, 0u64),
        Transfer::Mint { to, amount } => (1u64, to.id, amount.e8s, 0u64, 0u64),
        Transfer::Send { from, to, amount, fee } => (2u64, from.id, to.id, amount.e8s, fee.e8s),
    };
    let ty: u64 = match t.transaction_type {
        None => 0,
        Some(TransactionType::Burn) => 1,
        Some(TransactionType::Mint) => 2,
        Some(TransactionType::Send) => 3,
    };
    words.push(t.transaction_index);
    words.push(t.block_height);
    words.push(t.timestamp.timestamp_nanos);
    words.push(t.memo.0);
    words.push(tag);
    words.push(a);
    words.push(b);
    words.push(c);
    words.push(d);
    words.push(ty);
    assert(words@ =~= old(words)@ + record_words(*t));
}

/// The snapshot bytes of a log, a watermark and a last sync time.
pub fn encode_parts(log: &Vec<Transaction>, synced_up_to: Option<u64>, last_sync_nanos: u64) -> (r:
    Vec<u8>)
    ensures
        r@ == encoding(log@, synced_up_to, last_sync_nanos),
        log@.len() <= usize::MAX,
{
    let mut words: Vec<u64> = Vec::new();
    words.push(log.len() as u64);
    let mut i: usize = 0;
    while i < log.len()
        invariant
            i <= log@.len(),
            words@ == seq![log@.len() as u64] + log_words(log@.subrange(0, i as int)),
        decreases log@.len() - i,
    {
        proof {
            assert(log@.subrange(0, i + 1).drop_last() =~= log@.subrange(0, i as int));
        }
        push_record_words(&mut words, &log[i]);
        i = i + 1;
    }
    assert(log@.subrange(0, log@.len() as int) =~= log@);
    match synced_up_to {
        Some(w) => {
            words.push(1);
            words.push(w);
        },
        None => {
            words.push(0);
            words.push(0);
        },
    }
    words.push(last_sync_nanos);
    assert(words@ =~= snapshot_words(log@, synced_up_to, last_sync_nanos));
    let mut bytes: Vec<u8> = Vec::new();
    let mut j: usize = 0;
    while j < words.len()
        invariant
            j <= words@.len(),
            bytes@ == words_bytes(words@.subrange(0, j as int)),
        decreases words@.len() - j,
    {
        proof {
            assert(words@.subrange(0, j + 1).drop_last() =~= words@.subrange(0, j as int));
        }
        let mut piece = u64_to_le_bytes(words[j]);
        bytes.append(&mut piece);
        j = j + 1;
    }
    assert(words@.subrange(0, words@.len() as int) =~= words@);
    bytes
}

fn parse_record_at(words: &Vec<u64>, s: usize) -> (r: Option<Transaction>)
    requires
        s + 10 <= words@.len(),
    ensures
        r == parse_record(words@.subrange(s as int, s + 10)),
{
    let len = words.len();
    let tag = words[s + 4];
    let transfer = if tag == 0 {
        Transfer::Burn {
            from: AccountIdentifier { id: words[s + 5] },
            amount: Tokens { e8s: words[s + 6] },
        }
    } else if tag == 1 {
        Transfer::Mint {
            to: AccountIdentifier { id: words[s + 5] },
            amount: Tokens { e8s: words[s + 6] },
        }
    } else if tag == 2 {
        Transfer::Send {
            from: AccountIdentifier { id: words[s + 5] },
            to: AccountIdentifier { id: words[s + 6] },
            amount: Tokens { e8s: words[s + 7] },
            fee: Tokens { e8s: words[s + 8] },
        }
    } else {
        return None;
    };
    let ty_word = words[s + 9];
    let transaction_type = if ty_word == 0 {
        None
    } else if ty_word == 1 {
        Some(TransactionType::Burn)
    } else if ty_word == 2 {
        Some(TransactionType::Mint)
    } else if ty_word == 3 {
        Some(TransactionType::Send)
    } else {
        return None;
    };
    Some(
        Transaction {
            transaction_index: words[s],
            block_height: words[s + 1],
            timestamp: TimeStamp { timestamp_nanos: words[s + 2] },
            memo: Memo(words[s + 3]),
            transfer,
            transaction_type,
        },
    )
}

/// Reads a snapshot back; fails exactly where `bytes` is not a well-formed one.
pub fn decode_parts(bytes: &Vec<u8>) -> (r: Result<(Vec<Transaction>, Option<u64>, u64), DecodeError>)
    ensures
        match r {
            Ok((log, synced_up_to, last_sync_nanos)) => decoding(bytes@) == Some(
                (log@, synced_up_to, last_sync_nanos),
            ) && log_wf(log@, synced_up_to),
            Err(e) => e == DecodeError::Malformed && decoding(bytes@) is None,
        },
{
    if bytes.len() % 8 != 0 {
        return Err(DecodeError::Malformed);
    }
    let nw = bytes.len() / 8;
    let ghost ws = bytes_words(bytes@);
    let mut words: Vec<u64> = Vec::new();
    let mut i: usize = 0;
    while i < nw
        invariant
            nw == bytes@.len() / 8,
            bytes@.len() % 8 == 0,
            bytes@.len() <= usize::MAX,
            ws == bytes_words(bytes@),
            i <= nw,
            words@.len() == i,
            forall|k: int| 0 <= k < i ==> words@[k] == ws[k],
        decreases nw - i,
    {
        assert(8 * i + 8 <= bytes@.len()) by (nonlinear_arith)
            requires
                i < nw,
                nw == bytes@.len() / 8,
        ;
        let w = u64_from_le_bytes(slice_subrange(bytes.as_slice(), 8 * i, 8 * i + 8));
        words.push(w);
        i = i + 1;
    }
    assert(words@ =~= ws);
    if nw < 4 || (nw - 4) % 10 != 0 || words[0] != ((nw - 4) / 10) as u64 {
        return Err(DecodeError::Malformed);
    }
    let n = (nw - 4) / 10;
    let mut log: Vec<Transaction> = Vec::new();
    let mut k: usize = 0;
    while k < n
        invariant
            words@ == ws,
            ws == bytes_words(bytes@),
            bytes@.len() % 8 == 0,
            ws.len() == nw,
            word_count_ok(ws),
            n == (nw - 4) / 10,
            k <= n,
            log@.len() == k,
            forall|j: int|
                0 <= j < k ==> #[trigger] parse_record(record_slice(ws, j)) is Some && log@[j]
                    == parse_record(record_slice(ws, j)).unwrap(),
            records_wf(log@),
        decreases n - k,
    {
        assert(1 + 10 * k + 10 <= nw) by (nonlinear_arith)
            requires
                k < n,
                n == (nw - 4) / 10,
                nw >= 4,
        ;
        let parsed = parse_record_at(&words, 1 + 10 * k);
        assert(words@.subrange(1 + 10 * k, 1 + 10 * k + 10) =~= record_slice(ws, k as int));
        let rec = match parsed {
            Some(rec) => rec,
            None => {
                proof {
                    if decoding(bytes@) is Some {
                        lemma_decoding_some(bytes@);
                        assert(parse_record(record_slice(ws, k as int)) is Some);
                    }
                }
                return Err(DecodeError::Malformed);
            },
        };
        let mut fits = rec.transaction_index <= rec.block_height;
        if k > 0 {
            let prev = log[k - 1];
            if prev.block_height >= rec.block_height || prev.transaction_index == u64::MAX
                || rec.transaction_index != prev.transaction_index + 1 {
                fits = false;
            }
        }
        if !fits {
            proof {
                if decoding(bytes@) is Some {
                    let dl = decoded_log(ws);
                    lemma_decoding_some(bytes@);
                    assert(records_wf(dl));
                    assert(dl[k as int] == rec);
                    assert(rec.transaction_index <= rec.block_height);
                    if k > 0 {
                        assert(dl[k - 1] == log@[k - 1]);
                        assert(dl[0] == log@[0]);
                        assert(dl[k - 1].block_height < dl[k as int].block_height);
                        assert(dl[k - 1].transaction_index == dl[0].transaction_index + k - 1);
                        assert(dl[k as int].transaction_index == dl[0].transaction_index + k);
                    }
                }
            }
            return Err(DecodeError::Malformed);
        }
        proof {
            let l = log@.push(rec);
            if k > 0 {
                assert(log@[k - 1].transaction_index == log@[0].transaction_index + k - 1);
            }
            assert forall|a: int, b: int| 0 <= a < b < l.len() implies #[trigger] l[a].block_height
                < #[trigger] l[b].block_height by {
                if b == k && a < k - 1 {
                    assert(log@[a].block_height < log@[k - 1].block_height);
                }
            }
        }
        log.push(rec);
        k = k + 1;
    }
    let dl_ghost = Ghost(decoded_log(ws));
    assert(log@ =~= dl_ghost@);
    let flag = words[nw - 3];
    if flag > 1 {
        return Err(DecodeError::Malformed);
    }
    let synced_up_to = if flag == 1 {
        Some(words[nw - 2])
    } else {
        None
    };
    if n > 0 {
        match synced_up_to {
            Some(w) => {
                if log[n - 1].block_height > w {
                    return Err(DecodeError::Malformed);
                }
            },
            None => {
                return Err(DecodeError::Malformed);
            },
        }
    }
    proof {
        lemma_decoding_some(bytes@);
    }
    Ok((log, synced_up_to, words[nw - 1]))
}

} // verus!
