//! What an Electrum backend makes of a server's replies.
use vstd::prelude::*;
use vstd::seq_lib::lemma_multiset_commutative;
use vstd::string::*;
use bitcoin::hashes::Hash as HashTrait;
use crate::addresses::{
    derive_addresses_local, derived_addresses, read_descriptor, spec_read_descriptor,
};
use crate::assoc::AssocMap;
use crate::backend::{BlockHash, BlockchainBackend, ElectrumBackend, ElectrumConfig};
use crate::bytes::{option_view, views, ScriptBuf};
use crate::error::WalletError;
use crate::keys::{decode_hex, hex_bytes};
use crate::raw_tx::{compute_wtxid, decode_tx, decoded_tx, txid_display, txid_text, wtxid_of};
use crate::primitives::{
    contains_outpoint, Network, OutPoint, Transaction, TransactionView, TxOut, Txid,
};
use crate::query::{
    batch_views, build_private_query_batches_from_pool, law_decoys_are_marked,
    law_every_own_script_asked_once, law_plain_batches_ask_once, mixed_batches, plain_batches,
    times_asked, ItemView, PrivateQueryItem, FALLBACK_BATCH_SIZE,
};
use crate::spend_info::{ListUnspentResultEntry, UtxoView};
use crate::text::{decimal, decimal_text, hex, same_text};

verus! {

/// One unspent output of a script, as an Electrum server lists it.
#[derive(Debug, Clone, Copy, PartialEq, Eq, Structural)]
pub struct UnspentEntry {
    /// The transaction that holds the output.
    pub tx_hash: Txid,
    /// The output's position in it.
    pub tx_pos: usize,
    /// The height of its block, or zero while it is unconfirmed.
    pub height: usize,
    /// Its value in satoshis.
    pub value: u64,
}

/// The confirmations of an output in a block of the given height, at the given tip.
pub open spec fn confirmations_at(height: u64, tip: u64) -> u32 {
    if height == 0 {
        0
    } else {
        (if tip + 1 >= height {
            (tip + 1 - height) as u64
        } else {
            0
        }) as u32
    }
}

/// The confirmations of an output: none while it is unconfirmed, one in the block at the tip.
pub fn entry_confirmations(height: u64, tip: u64) -> (confirmations: u32)
    requires
        tip < u64::MAX,
    ensures
        confirmations == confirmations_at(height, tip),
{
    if height == 0 {
        0
    } else {
        (tip + 1).saturating_sub(height) as u32
    }
}

/// An output in the block at the tip has one confirmation, every further block adds one, and an
/// unconfirmed output has none.
pub proof fn law_confirmations_grow(height: u64, tip: u64)
    requires
        0 < height <= tip,
        tip < u64::MAX - 1,
        tip + 2 - height <= u32::MAX,
    ensures
        confirmations_at(height, height) == 1,
        confirmations_at(height, (tip + 1) as u64) == confirmations_at(height, tip) + 1,
        confirmations_at(0, tip) == 0,
{
}

/// An unspent output of one of the wallet's scripts, as the wallet sees it.
pub open spec fn listed_utxo(script: Seq<u8>, e: UnspentEntry, tip: u64) -> UtxoView {
    UtxoView {
        txid: e.tx_hash,
        vout: e.tx_pos as u32,
        address: None,
        label: None,
        redeem_script: None,
        witness_script: None,
        script_pub_key: script,
        amount: e.value,
        confirmations: confirmations_at(e.height as u64, tip),
        spendable: true,
        solvable: true,
        descriptor: None,
        safe: true,
    }
}

/// Whether an unspent output counts: it is not locked, and has enough confirmations.
pub open spec fn counts(e: UnspentEntry, locked: Seq<OutPoint>, tip: u64, min_conf: u32) -> bool {
    &&& !locked.contains(OutPoint { txid: e.tx_hash, vout: e.tx_pos as u32 })
    &&& confirmations_at(e.height as u64, tip) >= min_conf
}

/// The outputs of one script that count, in order.
pub open spec fn item_utxos(
    script: Seq<u8>,
    entries: Seq<UnspentEntry>,
    locked: Seq<OutPoint>,
    tip: u64,
    min_conf: u32,
) -> Seq<UtxoView>
    decreases entries.len(),
{
    if entries.len() == 0 {
        Seq::empty()
    } else {
        let before = item_utxos(script, entries.drop_last(), locked, tip, min_conf);
        if counts(entries.last(), locked, tip, min_conf) {
            before.push(listed_utxo(script, entries.last(), tip))
        } else {
            before
        }
    }
}

/// The outputs of the first `n` items of a batch that count: those of decoys never do.
pub open spec fn batch_utxos(
    batch: Seq<ItemView>,
    replies: Seq<Seq<UnspentEntry>>,
    n: nat,
    locked: Seq<OutPoint>,
    tip: u64,
    min_conf: u32,
) -> Seq<UtxoView>
    decreases n,
{
    if n == 0 {
        Seq::empty()
    } else {
        let before = batch_utxos(batch, replies, (n - 1) as nat, locked, tip, min_conf);
        if batch[n - 1].1 {
            before + item_utxos(batch[n - 1].0, replies[n - 1], locked, tip, min_conf)
        } else {
            before
        }
    }
}

/// The number of items of a batch that were answered.
pub open spec fn answered(batch: Seq<ItemView>, replies: Seq<Seq<UnspentEntry>>) -> nat {
    if replies.len() <= batch.len() {
        replies.len()
    } else {
        batch.len()
    }
}

/// The entries of a server's replies to one batch.
pub open spec fn reply_views(replies: Seq<Vec<UnspentEntry>>) -> Seq<Seq<UnspentEntry>> {
    Seq::new(replies.len(), |k: int| replies[k]@)
}

fn push_item_utxos(
    out: &mut Vec<ListUnspentResultEntry>,
    script: &ScriptBuf,
    entries: &Vec<UnspentEntry>,
    locked: &Vec<OutPoint>,
    tip: u64,
    min_conf: u32,
)
    requires
        tip < u64::MAX,
    ensures
        views(final(out)@) == views(old(out)@) + item_utxos(
            script@,
            entries@,
            locked@,
            tip,
            min_conf,
        ),
{
    let ghost before = views(out@);
    let mut i: usize = 0;
    assert(entries@.take(0) =~= Seq::<UnspentEntry>::empty());
    assert(views(out@) =~= before + item_utxos(
        script@,
        entries@.take(0),
        locked@,
        tip,
        min_conf,
    ));
    while i < entries.len()
        invariant
            tip < u64::MAX,
            i <= entries.len(),
            views(out@) == before + item_utxos(
                script@,
                entries@.take(i as int),
                locked@,
                tip,
                min_conf,
            ),
        decreases entries.len() - i,
    {
        let e = entries[i];
        let ghost so_far = views(out@);
        proof {
            assert(entries@.take(i + 1).drop_last() =~= entries@.take(i as int));
            assert(entries@.take(i + 1).last() == e);
        }
        let outpoint = OutPoint { txid: e.tx_hash, vout: e.tx_pos as u32 };
        let confirmations = entry_confirmations(e.height as u64, tip);
        if !contains_outpoint(locked, &outpoint) && confirmations >= min_conf {
            let utxo = ListUnspentResultEntry {
                txid: e.tx_hash,
                vout: e.tx_pos as u32,
                address: None,
                label: None,
                redeem_script: None,
                witness_script: None,
                script_pub_key: script.clone(),
                amount: e.value,
                confirmations,
                spendable: true,
                solvable: true,
                descriptor: None,
                safe: true,
            };
            assert(utxo@ == listed_utxo(script@, e, tip));
            out.push(utxo);
            proof {
                assert(views(out@) =~= so_far.push(listed_utxo(script@, e, tip)));
                assert(views(out@) =~= before + item_utxos(
                    script@,
                    entries@.take(i + 1),
                    locked@,
                    tip,
                    min_conf,
                ));
            }
        }
        i += 1;
    }
    assert(entries@.take(i as int) =~= entries@);
}

/// Puts what a server answered to one batch behind the outputs found so far.
pub fn collect_batch(
    out: &mut Vec<ListUnspentResultEntry>,
    batch: &Vec<PrivateQueryItem>,
    replies: &Vec<Vec<UnspentEntry>>,
    locked: &Vec<OutPoint>,
    tip: u64,
    min_conf: u32,
)
    requires
        tip < u64::MAX,
    ensures
        views(final(out)@) == views(old(out)@) + batch_utxos(
            views(batch@),
            reply_views(replies@),
            answered(views(batch@), reply_views(replies@)),
            locked@,
            tip,
            min_conf,
        ),
{
    let ghost before = views(out@);
    let ghost items = views(batch@);
    let ghost answers = reply_views(replies@);
    let mut k: usize = 0;
    assert(views(out@) =~= before + batch_utxos(items, answers, 0, locked@, tip, min_conf));
    while k < batch.len() && k < replies.len()
        invariant
            tip < u64::MAX,
            items == views(batch@),
            answers == reply_views(replies@),
            k <= batch.len(),
            k <= replies.len(),
            views(out@) == before + batch_utxos(
                items,
                answers,
                k as nat,
                locked@,
                tip,
                min_conf,
            ),
        decreases batch.len() - k,
    {
        let ghost so_far = batch_utxos(items, answers, k as nat, locked@, tip, min_conf);
        assert(items[k as int] == batch@[k as int]@);
        assert(answers[k as int] == replies@[k as int]@);
        if batch[k].is_real {
            push_item_utxos(out, &batch[k].script, &replies[k], locked, tip, min_conf);
            proof {
                assert(views(out@) =~= before + batch_utxos(
                    items,
                    answers,
                    (k + 1) as nat,
                    locked@,
                    tip,
                    min_conf,
                ));
            }
        }
        k += 1;
    }
}

proof fn lemma_item_utxos(
    script: Seq<u8>,
    entries: Seq<UnspentEntry>,
    locked: Seq<OutPoint>,
    tip: u64,
    min_conf: u32,
    utxo: UtxoView,
)
    requires
        item_utxos(script, entries, locked, tip, min_conf).contains(utxo),
    ensures
        utxo.script_pub_key == script,
        !locked.contains(utxo.outpoint()),
        utxo.confirmations >= min_conf,
    decreases entries.len(),
{
    if entries.len() > 0 {
        let all = item_utxos(script, entries, locked, tip, min_conf);
        let before = item_utxos(script, entries.drop_last(), locked, tip, min_conf);
        let i = choose|i: int| 0 <= i < all.len() && all[i] == utxo;
        if i < before.len() {
            assert(before[i] == utxo);
            lemma_item_utxos(script, entries.drop_last(), locked, tip, min_conf, utxo);
        }
    }
}

/// What comes of a batch comes from the wallet's own scripts in it, never from a decoy; it is not
/// locked, and has enough confirmations.
pub proof fn law_decoy_results_are_ignored(
    batch: Seq<ItemView>,
    replies: Seq<Seq<UnspentEntry>>,
    n: nat,
    locked: Seq<OutPoint>,
    tip: u64,
    min_conf: u32,
    utxo: UtxoView,
)
    requires
        n <= batch.len(),
        batch_utxos(batch, replies, n, locked, tip, min_conf).contains(utxo),
    ensures
        batch.contains((utxo.script_pub_key, true)),
        !locked.contains(utxo.outpoint()),
        utxo.confirmations >= min_conf,
    decreases n,
{
    if n > 0 {
        let all = batch_utxos(batch, replies, n, locked, tip, min_conf);
        let before = batch_utxos(batch, replies, (n - 1) as nat, locked, tip, min_conf);
        let i = choose|i: int| 0 <= i < all.len() && all[i] == utxo;
        if i < before.len() {
            assert(before[i] == utxo);
            law_decoy_results_are_ignored(
                batch,
                replies,
                (n - 1) as nat,
                locked,
                tip,
                min_conf,
                utxo,
            );
        } else {
            let item = item_utxos(batch[n - 1].0, replies[n - 1], locked, tip, min_conf);
            assert(item[i - before.len()] == utxo);
            lemma_item_utxos(batch[n - 1].0, replies[n - 1], locked, tip, min_conf, utxo);
            assert(batch[n - 1] == (utxo.script_pub_key, true));
        }
    }
}

/// The replies to the batches, as entries.
pub open spec fn all_replies(replies: Seq<Vec<Vec<UnspentEntry>>>) -> Seq<Seq<Seq<UnspentEntry>>> {
    Seq::new(replies.len(), |b: int| reply_views(replies[b]@))
}

/// What comes of the first `n` batches.
pub open spec fn listed(
    batches: Seq<Seq<ItemView>>,
    replies: Seq<Seq<Seq<UnspentEntry>>>,
    n: nat,
    locked: Seq<OutPoint>,
    tip: u64,
    min_conf: u32,
) -> Seq<UtxoView>
    decreases n,
{
    if n == 0 {
        Seq::empty()
    } else {
        listed(batches, replies, (n - 1) as nat, locked, tip, min_conf) + batch_utxos(
            batches[n - 1],
            replies[n - 1],
            answered(batches[n - 1], replies[n - 1]),
            locked,
            tip,
            min_conf,
        )
    }
}

/// Whatever is listed comes from a script that some batch asks for as the wallet's own; it is not
/// locked, and has enough confirmations.
pub proof fn law_listed_are_own(
    batches: Seq<Seq<ItemView>>,
    replies: Seq<Seq<Seq<UnspentEntry>>>,
    n: nat,
    locked: Seq<OutPoint>,
    tip: u64,
    min_conf: u32,
    utxo: UtxoView,
)
    requires
        n <= batches.len(),
        listed(batches, replies, n, locked, tip, min_conf).contains(utxo),
    ensures
        exists|b: int|
            0 <= b < n && (#[trigger] batches[b]).contains((utxo.script_pub_key, true)),
        !locked.contains(utxo.outpoint()),
        utxo.confirmations >= min_conf,
    decreases n,
{
    if n > 0 {
        let all = listed(batches, replies, n, locked, tip, min_conf);
        let before = listed(batches, replies, (n - 1) as nat, locked, tip, min_conf);
        let i = choose|i: int| 0 <= i < all.len() && all[i] == utxo;
        if i < before.len() {
            assert(before[i] == utxo);
            law_listed_are_own(batches, replies, (n - 1) as nat, locked, tip, min_conf, utxo);
        } else {
            let last = batch_utxos(
                batches[n - 1],
                replies[n - 1],
                answered(batches[n - 1], replies[n - 1]),
                locked,
                tip,
                min_conf,
            );
            assert(last[i - before.len()] == utxo);
            law_decoy_results_are_ignored(
                batches[n - 1],
                replies[n - 1],
                answered(batches[n - 1], replies[n - 1]),
                locked,
                tip,
                min_conf,
                utxo,
            );
            assert(batches[n - 1].contains((utxo.script_pub_key, true)));
        }
    }
}

/// The outputs of a list of scripts that count, where `unspent` gives the outputs of a script.
pub open spec fn scripts_utxos(
    scripts: Seq<Seq<u8>>,
    unspent: spec_fn(Seq<u8>) -> Seq<UnspentEntry>,
    locked: Seq<OutPoint>,
    tip: u64,
    min_conf: u32,
) -> Seq<UtxoView>
    decreases scripts.len(),
{
    if scripts.len() == 0 {
        Seq::empty()
    } else {
        let last = scripts.last();
        scripts_utxos(scripts.drop_last(), unspent, locked, tip, min_conf) + item_utxos(
            last,
            unspent(last),
            locked,
            tip,
            min_conf,
        )
    }
}

/// Whether a server answered every item of every batch with the outputs of its script.
pub open spec fn answers_all(
    batches: Seq<Seq<ItemView>>,
    replies: Seq<Seq<Seq<UnspentEntry>>>,
    unspent: spec_fn(Seq<u8>) -> Seq<UnspentEntry>,
) -> bool {
    &&& replies.len() == batches.len()
    &&& forall|b: int|
        0 <= b < batches.len() ==> (#[trigger] replies[b]) == batches[b].map_values(
            |item: ItemView| unspent(item.0),
        )
}

/// The wallet's own scripts of a batch, in order.
spec fn own_scripts(batch: Seq<ItemView>) -> Seq<Seq<u8>>
    decreases batch.len(),
{
    if batch.len() == 0 {
        Seq::empty()
    } else if batch.last().1 {
        own_scripts(batch.drop_last()).push(batch.last().0)
    } else {
        own_scripts(batch.drop_last())
    }
}

/// The wallet's own scripts of a list of batches, in order.
spec fn asked_scripts(batches: Seq<Seq<ItemView>>) -> Seq<Seq<u8>>
    decreases batches.len(),
{
    if batches.len() == 0 {
        Seq::empty()
    } else {
        asked_scripts(batches.drop_last()) + own_scripts(batches.last())
    }
}

proof fn lemma_own_count(batch: Seq<ItemView>, script: Seq<u8>)
    ensures
        own_scripts(batch).to_multiset().count(script) == batch.to_multiset().count(
            (script, true),
        ),
    decreases batch.len(),
{
    broadcast use vstd::seq_lib::group_to_multiset_ensures;

    if batch.len() > 0 {
        lemma_own_count(batch.drop_last(), script);
        assert(batch =~= batch.drop_last().push(batch.last()));
    }
}

proof fn lemma_asked_count(batches: Seq<Seq<ItemView>>, script: Seq<u8>)
    ensures
        asked_scripts(batches).to_multiset().count(script) == times_asked(
            batches,
            (script, true),
        ),
    decreases batches.len(),
{
    broadcast use vstd::seq_lib::group_to_multiset_ensures;

    if batches.len() > 0 {
        lemma_asked_count(batches.drop_last(), script);
        lemma_own_count(batches.last(), script);
        lemma_multiset_commutative(
            asked_scripts(batches.drop_last()),
            own_scripts(batches.last()),
        );
    }
}

proof fn lemma_utxos_concat(
    a: Seq<Seq<u8>>,
    b: Seq<Seq<u8>>,
    unspent: spec_fn(Seq<u8>) -> Seq<UnspentEntry>,
    locked: Seq<OutPoint>,
    tip: u64,
    min_conf: u32,
)
    ensures
        scripts_utxos(a + b, unspent, locked, tip, min_conf) == scripts_utxos(
            a,
            unspent,
            locked,
            tip,
            min_conf,
        ) + scripts_utxos(b, unspent, locked, tip, min_conf),
    decreases b.len(),
{
    if b.len() == 0 {
        assert(a + b =~= a);
        assert(scripts_utxos(b, unspent, locked, tip, min_conf) =~= Seq::empty());
    } else {
        lemma_utxos_concat(a, b.drop_last(), unspent, locked, tip, min_conf);
        assert((a + b).drop_last() =~= a + b.drop_last());
        assert((a + b).last() == b.last());
    }
    assert(scripts_utxos(a + b, unspent, locked, tip, min_conf) =~= scripts_utxos(
        a,
        unspent,
        locked,
        tip,
        min_conf,
    ) + scripts_utxos(b, unspent, locked, tip, min_conf));
}

proof fn lemma_utxos_permuted(
    a: Seq<Seq<u8>>,
    b: Seq<Seq<u8>>,
    unspent: spec_fn(Seq<u8>) -> Seq<UnspentEntry>,
    locked: Seq<OutPoint>,
    tip: u64,
    min_conf: u32,
)
    requires
        a.to_multiset() == b.to_multiset(),
    ensures
        scripts_utxos(a, unspent, locked, tip, min_conf).to_multiset() == scripts_utxos(
            b,
            unspent,
            locked,
            tip,
            min_conf,
        ).to_multiset(),
    decreases a.len(),
{
    broadcast use vstd::seq_lib::group_to_multiset_ensures;

    assert(a.len() == a.to_multiset().len());
    assert(b.len() == b.to_multiset().len());
    if a.len() > 0 {
        let x = a.last();
        assert(b.to_multiset().count(x) > 0);
        let i = choose|i: int| 0 <= i < b.len() && b[i] == x;
        let front = b.take(i);
        let back = b.skip(i + 1);
        let one = seq![x];
        assert(a =~= a.drop_last().push(x));
        assert(b =~= (front + one) + back);
        assert(b.remove(i) =~= front + back);
        assert(b.remove(i).to_multiset() =~= b.to_multiset().remove(x));
        assert(a.drop_last().to_multiset() =~= a.to_multiset().remove(x));
        lemma_utxos_permuted(a.drop_last(), front + back, unspent, locked, tip, min_conf);
        lemma_utxos_concat(front + one, back, unspent, locked, tip, min_conf);
        lemma_utxos_concat(front, one, unspent, locked, tip, min_conf);
        lemma_utxos_concat(front, back, unspent, locked, tip, min_conf);
        let of_front = scripts_utxos(front, unspent, locked, tip, min_conf);
        let of_back = scripts_utxos(back, unspent, locked, tip, min_conf);
        let of_x = item_utxos(x, unspent(x), locked, tip, min_conf);
        assert(scripts_utxos(one, unspent, locked, tip, min_conf) =~= of_x) by {
            assert(one.drop_last() =~= Seq::<Seq<u8>>::empty());
            assert(scripts_utxos(one.drop_last(), unspent, locked, tip, min_conf) =~= Seq::empty());
        }
        lemma_multiset_commutative(of_front + of_x, of_back);
        lemma_multiset_commutative(of_front, of_x);
        lemma_multiset_commutative(of_front, of_back);
        lemma_multiset_commutative(
            scripts_utxos(a.drop_last(), unspent, locked, tip, min_conf),
            of_x,
        );
        assert(scripts_utxos(a, unspent, locked, tip, min_conf).to_multiset() =~= scripts_utxos(
            b,
            unspent,
            locked,
            tip,
            min_conf,
        ).to_multiset());
    } else {
        assert(a =~= b);
    }
}

proof fn lemma_item_lock_order(
    script: Seq<u8>,
    entries: Seq<UnspentEntry>,
    a: Seq<OutPoint>,
    b: Seq<OutPoint>,
    tip: u64,
    min_conf: u32,
)
    requires
        a.to_set() == b.to_set(),
    ensures
        item_utxos(script, entries, a, tip, min_conf) == item_utxos(
            script,
            entries,
            b,
            tip,
            min_conf,
        ),
    decreases entries.len(),
{
    if entries.len() > 0 {
        lemma_item_lock_order(script, entries.drop_last(), a, b, tip, min_conf);
        let e = entries.last();
        let outpoint = OutPoint { txid: e.tx_hash, vout: e.tx_pos as u32 };
        assert(a.contains(outpoint) == a.to_set().contains(outpoint));
        assert(b.contains(outpoint) == b.to_set().contains(outpoint));
    }
}

proof fn lemma_lock_order(
    scripts: Seq<Seq<u8>>,
    unspent: spec_fn(Seq<u8>) -> Seq<UnspentEntry>,
    a: Seq<OutPoint>,
    b: Seq<OutPoint>,
    tip: u64,
    min_conf: u32,
)
    requires
        a.to_set() == b.to_set(),
    ensures
        scripts_utxos(scripts, unspent, a, tip, min_conf) == scripts_utxos(
            scripts,
            unspent,
            b,
            tip,
            min_conf,
        ),
    decreases scripts.len(),
{
    if scripts.len() > 0 {
        let last = scripts.last();
        lemma_lock_order(scripts.drop_last(), unspent, a, b, tip, min_conf);
        lemma_item_lock_order(last, unspent(last), a, b, tip, min_conf);
    }
}

proof fn lemma_batch_is_of_own(
    batch: Seq<ItemView>,
    unspent: spec_fn(Seq<u8>) -> Seq<UnspentEntry>,
    n: nat,
    locked: Seq<OutPoint>,
    tip: u64,
    min_conf: u32,
)
    requires
        n <= batch.len(),
    ensures
        batch_utxos(
            batch,
            batch.map_values(|item: ItemView| unspent(item.0)),
            n,
            locked,
            tip,
            min_conf,
        ) == scripts_utxos(own_scripts(batch.take(n as int)), unspent, locked, tip, min_conf),
    decreases n,
{
    let part = batch.take(n as int);
    if n > 0 {
        lemma_batch_is_of_own(batch, unspent, (n - 1) as nat, locked, tip, min_conf);
        assert(part.drop_last() =~= batch.take(n - 1));
        assert(part.last() == batch[n - 1]);
        if batch[n - 1].1 {
            let scripts = own_scripts(part);
            assert(scripts.drop_last() =~= own_scripts(part.drop_last()));
            assert(scripts.last() == batch[n - 1].0);
        }
    } else {
        assert(own_scripts(part) =~= Seq::empty());
    }
}

proof fn lemma_listed_are_of_asked(
    batches: Seq<Seq<ItemView>>,
    replies: Seq<Seq<Seq<UnspentEntry>>>,
    unspent: spec_fn(Seq<u8>) -> Seq<UnspentEntry>,
    n: nat,
    locked: Seq<OutPoint>,
    tip: u64,
    min_conf: u32,
)
    requires
        answers_all(batches, replies, unspent),
        n <= batches.len(),
    ensures
        listed(batches, replies, n, locked, tip, min_conf) == scripts_utxos(
            asked_scripts(batches.take(n as int)),
            unspent,
            locked,
            tip,
            min_conf,
        ),
    decreases n,
{
    let part = batches.take(n as int);
    if n > 0 {
        lemma_listed_are_of_asked(
            batches,
            replies,
            unspent,
            (n - 1) as nat,
            locked,
            tip,
            min_conf,
        );
        let batch = batches[n - 1];
        assert(part.drop_last() =~= batches.take(n - 1));
        assert(part.last() == batch);
        assert(replies[n - 1].len() == batch.len());
        lemma_batch_is_of_own(batch, unspent, batch.len(), locked, tip, min_conf);
        assert(batch.take(batch.len() as int) =~= batch);
        lemma_utxos_concat(
            asked_scripts(part.drop_last()),
            own_scripts(batch),
            unspent,
            locked,
            tip,
            min_conf,
        );
    } else {
        assert(asked_scripts(part) =~= Seq::empty());
    }
}

/// What is listed is what the watched scripts hold, each output once: no output of a script that is
/// only a decoy, and every output of a watched script that is not locked and has enough
/// confirmations.
pub proof fn law_listed_is_what_is_watched(
    backend: ElectrumBackend,
    batches: Seq<Seq<ItemView>>,
    replies: Seq<Seq<Seq<UnspentEntry>>>,
    unspent: spec_fn(Seq<u8>) -> Seq<UnspentEntry>,
    tip: u64,
    min_conf: u32,
)
    requires
        backend.asks_with(batches),
        answers_all(batches, replies, unspent),
    ensures
        listed(
            batches,
            replies,
            batches.len(),
            backend.locked@,
            tip,
            min_conf,
        ).to_multiset() == scripts_utxos(
            views(backend.watched@),
            unspent,
            backend.locked@,
            tip,
            min_conf,
        ).to_multiset(),
{
    let own = views(backend.watched@);
    let asked = asked_scripts(batches);
    assert forall|script: Seq<u8>| #[trigger]
        asked.to_multiset().count(script) == own.to_multiset().count(script) by {
        lemma_asked_count(batches, script);
        if own.len() == 0 {
            broadcast use vstd::seq_lib::group_to_multiset_ensures;

            assert(own =~= Seq::<Seq<u8>>::empty());
        } else if backend.privacy.enabled && backend.decoys@.len() > 0 {
            law_every_own_script_asked_once(
                batches,
                own,
                backend.privacy,
                |s: Seq<u8>| views(backend.decoys@).contains(s),
                script,
            );
        } else {
            law_plain_batches_ask_once(batches, own, FALLBACK_BATCH_SIZE as int, script);
        }
    }
    assert(asked.to_multiset() =~= own.to_multiset());
    lemma_listed_are_of_asked(
        batches,
        replies,
        unspent,
        batches.len(),
        backend.locked@,
        tip,
        min_conf,
    );
    assert(batches.take(batches.len() as int) =~= batches);
    lemma_utxos_permuted(asked, own, unspent, backend.locked@, tip, min_conf);
}

/// Two backends that differ only in decoys and privacy settings list the same coins: what the one
/// lists is a permutation of what the other lists.
pub proof fn law_privacy_keeps_the_list(
    a: ElectrumBackend,
    b: ElectrumBackend,
    batches_a: Seq<Seq<ItemView>>,
    batches_b: Seq<Seq<ItemView>>,
    replies_a: Seq<Seq<Seq<UnspentEntry>>>,
    replies_b: Seq<Seq<Seq<UnspentEntry>>>,
    unspent: spec_fn(Seq<u8>) -> Seq<UnspentEntry>,
    tip: u64,
    min_conf: u32,
)
    requires
        a.well_formed(),
        b.well_formed(),
        a.local().watched == b.local().watched,
        a.locked@.to_set() == b.locked@.to_set(),
        a.asks_with(batches_a),
        b.asks_with(batches_b),
        answers_all(batches_a, replies_a, unspent),
        answers_all(batches_b, replies_b, unspent),
    ensures
        listed(
            batches_a,
            replies_a,
            batches_a.len(),
            a.locked@,
            tip,
            min_conf,
        ).to_multiset() == listed(
            batches_b,
            replies_b,
            batches_b.len(),
            b.locked@,
            tip,
            min_conf,
        ).to_multiset(),
{
    let own_a = views(a.watched@);
    let own_b = views(b.watched@);
    law_listed_is_what_is_watched(a, batches_a, replies_a, unspent, tip, min_conf);
    law_listed_is_what_is_watched(b, batches_b, replies_b, unspent, tip, min_conf);
    assert(own_a.to_multiset() =~= own_b.to_multiset()) by {
        own_a.lemma_multiset_has_no_duplicates();
        own_b.lemma_multiset_has_no_duplicates();
        assert forall|script: Seq<u8>| #[trigger]
            own_a.to_multiset().count(script) == own_b.to_multiset().count(script) by {
            broadcast use vstd::seq_lib::group_to_multiset_ensures;

            assert(own_a.contains(script) == own_a.to_set().contains(script));
            assert(own_b.contains(script) == own_b.to_set().contains(script));
        }
    }
    lemma_utxos_permuted(own_a, own_b, unspent, a.locked@, tip, min_conf);
    lemma_lock_order(own_b, unspent, a.locked@, b.locked@, tip, min_conf);
}

impl ElectrumBackend {
    /// Whether batches ask a server for the watched scripts, hidden among the decoys where the
    /// settings ask for it and there are decoys.
    pub open spec fn asks_with(self, batches: Seq<Seq<ItemView>>) -> bool {
        if self.watched@.len() == 0 {
            batches.len() == 0
        } else if self.privacy.enabled && self.decoys@.len() > 0 {
            mixed_batches(
                batches,
                views(self.watched@),
                self.privacy,
                |script: Seq<u8>| views(self.decoys@).contains(script),
            )
        } else {
            plain_batches(batches, views(self.watched@), FALLBACK_BATCH_SIZE as int)
        }
    }

    /// Lists the wallet's unspent outputs from the server's replies to the batches. Outputs that are
    /// locked, or have fewer than `minconf` confirmations, are left out.
    pub fn list_unspent(
        &self,
        minconf: Option<usize>,
        tip: u64,
        batches: &Vec<Vec<PrivateQueryItem>>,
        replies: &Vec<Vec<Vec<UnspentEntry>>>,
    ) -> (utxos: Vec<ListUnspentResultEntry>)
        requires
            tip < u64::MAX,
            replies@.len() == batches@.len(),
        ensures
            views(utxos@) == listed(
                batch_views(batches@),
                all_replies(replies@),
                batches@.len(),
                self.locked@,
                tip,
                (match minconf {
                    Some(n) => n,
                    None => 0,
                }) as u32,
            ),
    {
        let min_conf: u32 = (match minconf {
            Some(n) => n,
            None => 0,
        }) as u32;
        let mut utxos: Vec<ListUnspentResultEntry> = Vec::new();
        let ghost items = batch_views(batches@);
        let ghost answers = all_replies(replies@);
        let mut b: usize = 0;
        assert(views(utxos@) =~= listed(items, answers, 0, self.locked@, tip, min_conf));
        while b < batches.len()
            invariant
                tip < u64::MAX,
                items == batch_views(batches@),
                answers == all_replies(replies@),
                replies.len() == batches.len(),
                b <= batches.len(),
                views(utxos@) == listed(items, answers, b as nat, self.locked@, tip, min_conf),
            decreases batches.len() - b,
        {
            assert(items[b as int] == views(batches@[b as int]@));
            assert(answers[b as int] == reply_views(replies@[b as int]@));
            collect_batch(&mut utxos, &batches[b], &replies[b], &self.locked, tip, min_conf);
            b += 1;
        }
        utxos
    }

    /// The batches that ask the server for the wallet's scripts, hidden among decoys.
    pub fn query_batches(&self) -> (batches: Vec<Vec<PrivateQueryItem>>)
        ensures
            self.asks_with(batch_views(batches@)),
            forall|b: int, k: int|
                0 <= b < batches@.len() && 0 <= k < batches@[b]@.len() ==> ((
                #[trigger] batches@[b]@[k])@.1 ==> views(self.watched@).contains(
                    batches@[b]@[k]@.0,
                )),
    {
        let batches = build_private_query_batches_from_pool(
            &self.watched,
            &self.decoys,
            &self.privacy,
        );
        proof {
            let all = batch_views(batches@);
            let own = views(self.watched@);
            assert forall|b: int, k: int|
                0 <= b < batches@.len() && 0 <= k < batches@[b]@.len() && (
                #[trigger] batches@[b]@[k])@.1 implies own.contains(batches@[b]@[k]@.0) by {
                let item = batches@[b]@[k]@;
                assert(all[b] == views(batches@[b]@));
                assert(all[b][k] == item);
                assert(all[b].contains(item));
                if self.privacy.enabled && self.decoys@.len() > 0 {
                    law_decoys_are_marked(
                        all,
                        own,
                        self.privacy,
                        |script: Seq<u8>| views(self.decoys@).contains(script),
                        b,
                        item,
                    );
                } else {
                    let size = FALLBACK_BATCH_SIZE as int;
                    let end = if size * (b + 1) <= own.len() {
                        size * (b + 1)
                    } else {
                        own.len() as int
                    };
                    assert(all[b] == crate::query::as_items(own.subrange(size * b, end), true));
                    assert(own.subrange(size * b, end)[k] == item.0);
                    assert(own[size * b + k] == item.0);
                }
            }
        }
        batches
    }

    /// Locks outputs, on top of those that are locked already.
    pub fn lock_unspent(&mut self, outputs: &Vec<OutPoint>) -> (locked: bool)
        requires
            old(self).well_formed(),
        ensures
            locked,
            final(self).well_formed(),
            *final(self) == (ElectrumBackend { locked: final(self).locked, ..*old(self) }),
            forall|o: OutPoint| #[trigger]
                final(self).locked@.contains(o) <==> old(self).locked@.contains(o)
                    || outputs@.contains(o),
    {
        let mut i: usize = 0;
        while i < outputs.len()
            invariant
                i <= outputs.len(),
                self.well_formed(),
                *self == (ElectrumBackend { locked: self.locked, ..*old(self) }),
                forall|o: OutPoint| #[trigger]
                    self.locked@.contains(o) <==> old(self).locked@.contains(o) || outputs@.take(
                        i as int,
                    ).contains(o),
            decreases outputs.len() - i,
        {
            let ghost before = self.locked@;
            let ghost taken = outputs@.take(i as int);
            let outpoint = outputs[i];
            if !contains_outpoint(&self.locked, &outpoint) {
                self.locked.push(outpoint);
            }
            proof {
                assert(outputs@.take(i + 1) =~= taken.push(outpoint));
                assert forall|o: OutPoint| #[trigger]
                    self.locked@.contains(o) <==> old(self).locked@.contains(o) || outputs@.take(
                        i + 1,
                    ).contains(o) by {
                    let longer = outputs@.take(i + 1);
                    assert(longer[i as int] == outpoint);
                    if taken.contains(o) {
                        let j = choose|j: int| 0 <= j < taken.len() && taken[j] == o;
                        assert(longer[j] == o);
                    }
                    if longer.contains(o) && o != outpoint {
                        let j = choose|j: int| 0 <= j < longer.len() && longer[j] == o;
                        assert(taken[j] == o);
                    }
                    if before.contains(o) {
                        let j = choose|j: int| 0 <= j < before.len() && before[j] == o;
                        assert(self.locked@[j] == o);
                    }
                    if self.locked@.contains(o) && o != outpoint {
                        let now = self.locked@;
                        let j = choose|j: int| 0 <= j < now.len() && now[j] == o;
                        assert(before[j] == o);
                    }
                    if !before.contains(outpoint) {
                        assert(self.locked@[before.len() as int] == outpoint);
                    }
                }
            }
            i += 1;
        }
        assert(outputs@.take(i as int) =~= outputs@);
        true
    }

    /// Unlocks every output.
    pub fn unlock_unspent_all(&mut self) -> (unlocked: bool)
        requires
            old(self).well_formed(),
        ensures
            unlocked,
            final(self).well_formed(),
            *final(self) == (ElectrumBackend { locked: final(self).locked, ..*old(self) }),
            final(self).locked@.len() == 0,
    {
        self.locked.clear();
        true
    }

    /// Remembers the hash of the block at a height.
    pub fn remember_header(&mut self, height: u64, hash: BlockHash)
        requires
            old(self).well_formed(),
        ensures
            final(self).well_formed(),
            *final(self) == (ElectrumBackend {
                height_to_hash: final(self).height_to_hash,
                hash_to_height: final(self).hash_to_height,
                ..*old(self)
            }),
            final(self).height_to_hash.has(height),
            final(self).height_to_hash.at(height) == hash,
            final(self).hash_to_height.has(hash),
            final(self).hash_to_height.at(hash) == height,
            forall|h: u64|
                h != height ==> #[trigger] final(self).height_to_hash.has(h) == old(
                    self,
                ).height_to_hash.has(h),
            forall|h: u64|
                h != height && #[trigger] old(self).height_to_hash.has(h) ==> final(
                    self).height_to_hash.at(h) == old(self).height_to_hash.at(h),
            forall|b: BlockHash|
                b != hash ==> #[trigger] final(self).hash_to_height.has(b) == old(
                    self,
                ).hash_to_height.has(b),
            forall|b: BlockHash|
                b != hash && #[trigger] old(self).hash_to_height.has(b) ==> final(
                    self).hash_to_height.at(b) == old(self).hash_to_height.at(b),
    {
        self.height_to_hash.insert(height, hash);
        self.hash_to_height.insert(hash, height);
    }

    /// The hash of the block at a height, where it is remembered.
    pub fn cached_block_hash(&self, height: u64) -> (hash: Option<BlockHash>)
        requires
            self.well_formed(),
        ensures
            hash == if self.height_to_hash.has(height) {
                Some(self.height_to_hash.at(height))
            } else {
                None
            },
    {
        match self.height_to_hash.get(&height) {
            Some(hash) => Some(*hash),
            None => None,
        }
    }

    /// The height of a block, where it is remembered.
    pub fn cached_height(&self, hash: &BlockHash) -> (height: Result<u64, String>)
        requires
            self.well_formed(),
        ensures
            match height {
                Ok(h) => self.hash_to_height.has(*hash) && h == self.hash_to_height.at(*hash),
                Err(e) => !self.hash_to_height.has(*hash) && e@ == "electrum: unknown block hash "@
                    + block_hash_display(*hash) + " (no cached height)"@,
            },
    {
        match self.hash_to_height.get(hash) {
            Some(height) => Ok(*height),
            None => {
                let mut message = "electrum: unknown block hash ".to_owned();
                message.append(block_hash_text(hash).as_str());
                message.append(" (no cached height)");
                Err(message)
            },
        }
    }
}

/// The text of a block hash: its bytes from the last to the first, in lower-case hexadecimal.
pub open spec fn block_hash_display(hash: BlockHash) -> Seq<char> {
    hex(hash.spec_bytes().reverse())
}

/// Calls the `Display` of `bitcoin::BlockHash`. The contract says that it writes the bytes from the
/// last to the first, in lower-case hexadecimal.
#[verifier::external_body]
fn block_hash_text(hash: &BlockHash) -> (text: String)
    ensures
        text@ == block_hash_display(*hash),
{
    let bytes = [hash.hi.to_le_bytes(), hash.lo.to_le_bytes()].concat();
    bitcoin::BlockHash::from_slice(&bytes).unwrap().to_string()
}

/// The confirmations of the block at a height, as a node gives them for a header.
pub fn header_confirmations(height: u64, tip: u64) -> (confirmations: i32)
    requires
        tip < u64::MAX,
    ensures
        confirmations == (if tip + 1 >= height {
            (tip + 1 - height) as u64
        } else {
            0
        }) as i32,
{
    (tip + 1).saturating_sub(height) as i32
}

/// The name that a node gives to a network.
pub open spec fn spec_chain_name(network: Network) -> Seq<char> {
    match network {
        Network::Bitcoin => "main"@,
        Network::Testnet => "test"@,
        Network::Signet => "signet"@,
        Network::Regtest => "regtest"@,
    }
}

/// The name that a node gives to a network.
pub fn chain_name(network: Network) -> (name: &'static str)
    ensures
        name@ == spec_chain_name(network),
{
    match network {
        Network::Bitcoin => "main",
        Network::Testnet => "test",
        Network::Signet => "signet",
        Network::Regtest => "regtest",
    }
}

/// The hash of the first block of a network, in internal order.
pub uninterp spec fn genesis_hash_of(network: Network) -> Seq<u8>;

/// Calls `bitcoin::constants::genesis_block` and hashes the block. The contract names the 32 bytes
/// of the hash, in internal order, as a function of the network.
#[verifier::external_body]
fn genesis_hash(network: Network) -> (hash: Vec<u8>)
    ensures
        hash@ == genesis_hash_of(network),
{
    let network = match network {
        Network::Bitcoin => bitcoin::Network::Bitcoin,
        Network::Testnet => bitcoin::Network::Testnet,
        Network::Signet => bitcoin::Network::Signet,
        Network::Regtest => bitcoin::Network::Regtest,
    };
    bitcoin::constants::genesis_block(network).block_hash().to_byte_array().to_vec()
}

/// The network whose first block has the given hash, in the order in which a server gives it: the
/// reverse of the internal order.
pub open spec fn network_of(genesis: Seq<u8>) -> Option<Network> {
    if genesis_hash_of(Network::Bitcoin).reverse() == genesis {
        Some(Network::Bitcoin)
    } else if genesis_hash_of(Network::Testnet).reverse() == genesis {
        Some(Network::Testnet)
    } else if genesis_hash_of(Network::Signet).reverse() == genesis {
        Some(Network::Signet)
    } else if genesis_hash_of(Network::Regtest).reverse() == genesis {
        Some(Network::Regtest)
    } else {
        None
    }
}

fn is_reverse(a: &Vec<u8>, b: &Vec<u8>) -> (yes: bool)
    ensures
        yes == (a@.reverse() == b@),
{
    if a.len() != b.len() {
        assert(a@.reverse().len() == a@.len());
        return false;
    }
    let n = a.len();
    let mut i: usize = 0;
    while i < n
        invariant
            n == a.len(),
            n == b.len(),
            i <= n,
            forall|j: int| 0 <= j < i ==> a@.reverse()[j] == b@[j],
        decreases n - i,
    {
        if a[n - 1 - i] != b[i] {
            assert(a@.reverse()[i as int] == a@[n - 1 - i]);
            return false;
        }
        i += 1;
    }
    assert(a@.reverse() =~= b@);
    true
}

/// A list of bytes as Rust prints it.
pub open spec fn byte_list(bytes: Seq<u8>) -> Seq<char>
    decreases bytes.len(),
{
    if bytes.len() == 0 {
        Seq::empty()
    } else if bytes.len() == 1 {
        decimal(bytes[0] as nat)
    } else {
        byte_list(bytes.drop_last()) + ", "@ + decimal(bytes.last() as nat)
    }
}

fn byte_list_text(bytes: &Vec<u8>) -> (text: String)
    ensures
        text@ == byte_list(bytes@),
{
    let mut text = "".to_owned();
    proof {
        reveal_strlit("");
    }
    let mut i: usize = 0;
    assert(text@ =~= byte_list(bytes@.take(0)));
    while i < bytes.len()
        invariant
            i <= bytes.len(),
            text@ == byte_list(bytes@.take(i as int)),
        decreases bytes.len() - i,
    {
        let ghost before = text@;
        proof {
            assert(bytes@.take(i + 1).drop_last() =~= bytes@.take(i as int));
            assert(bytes@.take(i + 1).last() == bytes@[i as int]);
            if i == 0 {
                assert(bytes@.take(1)[0] == bytes@[0]);
            }
        }
        if i > 0 {
            text.append(", ");
        }
        text.append(decimal_text(bytes[i] as u64).as_str());
        assert(text@ =~= byte_list(bytes@.take(i + 1)));
        i += 1;
    }
    assert(bytes@.take(i as int) =~= bytes@);
    text
}

impl ElectrumBackend {
    /// A backend for a server that has given the hash of its first block: nothing is watched yet.
    pub fn new(cfg: &ElectrumConfig, genesis_hash_given: &Vec<u8>) -> (backend: Result<
        ElectrumBackend,
        WalletError,
    >)
        ensures
            match backend {
                Ok(b) => {
                    &&& b.well_formed()
                    &&& network_of(genesis_hash_given@) == Some(b.network)
                    &&& b.privacy == cfg.privacy
                    &&& b.watched@.len() == 0
                    &&& b.decoys@.len() == 0
                    &&& b.hd_paths.entries@.len() == 0
                    &&& b.locked@.len() == 0
                    &&& b.height_to_hash.entries@.len() == 0
                    &&& b.hash_to_height.entries@.len() == 0
                },
                Err(e) => network_of(genesis_hash_given@) is None && e.is_general(
                    "unknown genesis from electrum server: ["@ + byte_list(genesis_hash_given@)
                        + "]"@,
                ),
            },
    {
        let network = if is_reverse(&genesis_hash(Network::Bitcoin), genesis_hash_given) {
            Network::Bitcoin
        } else if is_reverse(&genesis_hash(Network::Testnet), genesis_hash_given) {
            Network::Testnet
        } else if is_reverse(&genesis_hash(Network::Signet), genesis_hash_given) {
            Network::Signet
        } else if is_reverse(&genesis_hash(Network::Regtest), genesis_hash_given) {
            Network::Regtest
        } else {
            let mut message = "unknown genesis from electrum server: [".to_owned();
            message.append(byte_list_text(genesis_hash_given).as_str());
            message.append("]");
            return Err(WalletError::General(message));
        };
        Ok(
            ElectrumBackend {
                watched: Vec::new(),
                decoys: Vec::new(),
                hd_paths: AssocMap::new(),
                locked: Vec::new(),
                height_to_hash: AssocMap::new(),
                hash_to_height: AssocMap::new(),
                network,
                privacy: cfg.privacy.clone(),
            },
        )
    }
}

/// What an Electrum server tells of a transaction.
#[derive(Debug)]
pub struct VerboseTx {
    /// The confirmations, where the server gives them.
    pub confirmations: Option<u64>,
    /// The encoding in hexadecimal, where the server gives it.
    pub hex: Option<String>,
}

fn joined_text(a: &str, b: &str, c: &str) -> (text: String)
    ensures
        text@ == a@ + b@ + c@,
{
    let mut text = a.to_owned();
    text.append(b);
    text.append(c);
    text
}

/// The transaction that a text in hexadecimal encodes, or the text of the error, with `hex_error`
/// or `tx_error` before what went wrong.
pub open spec fn tx_from_hex(
    text: Seq<char>,
    hex_error: Seq<char>,
    tx_error: Seq<char>,
) -> Result<(Seq<u8>, TransactionView), Seq<char>> {
    match hex_bytes(text) {
        Err(e) => Err(hex_error + e),
        Ok(raw) => match decoded_tx(raw) {
            Err(e) => Err(tx_error + e),
            Ok(tx) => Ok((raw, tx)),
        },
    }
}

fn read_tx(text: &str, hex_error: &str, tx_error: &str) -> (read: Result<
    (Vec<u8>, Transaction),
    String,
>)
    ensures
        match read {
            Ok((raw, tx)) => tx_from_hex(text@, hex_error@, tx_error@) == Ok::<
                (Seq<u8>, TransactionView),
                Seq<char>,
            >((raw@, tx@)),
            Err(e) => tx_from_hex(text@, hex_error@, tx_error@) == Err::<
                (Seq<u8>, TransactionView),
                Seq<char>,
            >(e@),
        },
{
    match decode_hex(text) {
        Err(e) => {
            let mut message = hex_error.to_owned();
            message.append(e.as_str());
            Err(message)
        },
        Ok(raw) => match decode_tx(&raw) {
            Err(e) => {
                let mut message = tx_error.to_owned();
                message.append(e.as_str());
                Err(message)
            },
            Ok(tx) => Ok((raw, tx)),
        },
    }
}

/// The transaction that is sent to the server for a text in hexadecimal, or the text of the error.
pub fn transaction_to_send(raw_hex: &str) -> (tx: Result<Transaction, String>)
    ensures
        match tx {
            Ok(t) => tx_from_hex(raw_hex@, "hex decode: "@, "tx decode: "@) matches Ok(read)
                && read.1 == t@,
            Err(e) => tx_from_hex(raw_hex@, "hex decode: "@, "tx decode: "@) == Err::<
                (Seq<u8>, TransactionView),
                Seq<char>,
            >(e@),
        },
{
    match read_tx(raw_hex, "hex decode: ", "tx decode: ") {
        Ok((_, tx)) => Ok(tx),
        Err(e) => Err(e),
    }
}

/// What the wallet reads of a transaction.
#[derive(Debug)]
pub struct RawTxInfo {
    /// The confirmations, where the server gives them.
    pub confirmations: Option<u32>,
    /// The encoding in hexadecimal.
    pub hex: String,
    /// The id of the transaction with its witnesses.
    pub hash: Txid,
    /// The length of the encoding, which also stands for the virtual size.
    pub size: usize,
    /// The transaction.
    pub tx: Transaction,
}

/// Reads what a server tells of a transaction.
pub fn raw_transaction_info(reply: VerboseTx, txid: &Txid) -> (info: Result<RawTxInfo, String>)
    ensures
        match reply.hex {
            None => info matches Err(e) && e@ == "electrum: missing `hex` field for transaction "@
                + txid_display(*txid),
            Some(hex) => {
                let read = tx_from_hex(
                    hex@,
                    "electrum: invalid transaction hex for "@ + txid_display(*txid) + ": "@,
                    "electrum: undecodable transaction bytes for "@ + txid_display(*txid) + ": "@,
                );
                match info {
                    Ok(i) => {
                        &&& read is Ok
                        &&& i.tx@ == read->Ok_0.1
                        &&& i.size == read->Ok_0.0.len()
                        &&& i.hash == wtxid_of(read->Ok_0.1)
                        &&& i.hex@ == hex@
                        &&& i.confirmations == match reply.confirmations {
                            Some(n) => Some(n as u32),
                            None => None,
                        }
                    },
                    Err(e) => read == Err::<(Seq<u8>, TransactionView), Seq<char>>(e@),
                }
            },
        },
{
    let id = txid_text(txid);
    let confirmations = match reply.confirmations {
        Some(n) => Some(n as u32),
        None => None,
    };
    let hex = match reply.hex {
        Some(hex) => hex,
        None => {
            let mut message = "electrum: missing `hex` field for transaction ".to_owned();
            message.append(id.as_str());
            return Err(message);
        },
    };
    let hex_error = joined_text("electrum: invalid transaction hex for ", id.as_str(), ": ");
    let tx_error = joined_text(
        "electrum: undecodable transaction bytes for ",
        id.as_str(),
        ": ",
    );
    match read_tx(hex.as_str(), hex_error.as_str(), tx_error.as_str()) {
        Ok((raw, tx)) => {
            let hash = compute_wtxid(&tx);
            Ok(RawTxInfo { confirmations, hex, hash, size: raw.len(), tx })
        },
        Err(e) => Err(e),
    }
}

/// The output of a transaction that a server has told of, if the server knows the transaction and
/// the transaction has the output. The text of the error comes where the server's encoding cannot
/// be read.
pub fn output_to_check(reply: &Option<VerboseTx>, vout: u32) -> (output: Result<
    Option<TxOut>,
    String,
>)
    ensures
        match *reply {
            None => output == Ok::<Option<TxOut>, String>(None),
            Some(r) => {
                let read = tx_from_hex(
                    match r.hex {
                        Some(hex) => hex@,
                        None => ""@,
                    },
                    "get_tx_out hex decode: "@,
                    "get_tx_out tx decode: "@,
                );
                match output {
                    Ok(found) => read is Ok && option_view(found) == (if vout
                        < read->Ok_0.1.output.len() {
                        Some(read->Ok_0.1.output[vout as int])
                    } else {
                        None
                    }),
                    Err(e) => read == Err::<(Seq<u8>, TransactionView), Seq<char>>(e@),
                }
            },
        },
{
    let reply = match reply {
        Some(reply) => reply,
        None => {
            return Ok(None);
        },
    };
    let hex = match &reply.hex {
        Some(hex) => hex.as_str(),
        None => "",
    };
    match read_tx(hex, "get_tx_out hex decode: ", "get_tx_out tx decode: ") {
        Ok((_, tx)) => {
            let at = vout as usize;
            assert(tx@.output.len() == tx.output@.len());
            if at < tx.output.len() {
                let mut tx = tx;
                let found = tx.output.swap_remove(at);
                Ok(Some(found))
            } else {
                Ok(None)
            }
        },
        Err(e) => Err(e),
    }
}

/// An unspent output that a node would tell of.
#[derive(Debug)]
pub struct TxOutInfo {
    /// Its confirmations.
    pub confirmations: u32,
    /// Its value in satoshis.
    pub value: u64,
    /// The script that locks it.
    pub script_pubkey: ScriptBuf,
}

/// Whether an output is among the unspent outputs of its script.
pub open spec fn still_unspent(
    entries: Option<Seq<UnspentEntry>>,
    txid: Txid,
    vout: u32,
) -> bool {
    match entries {
        Some(list) => exists|i: int|
            0 <= i < list.len() && (#[trigger] list[i]).tx_hash == txid && list[i].tx_pos as u32
                == vout,
        None => false,
    }
}

fn is_still_unspent(entries: &Option<Vec<UnspentEntry>>, txid: &Txid, vout: u32) -> (unspent: bool)
    ensures
        unspent == still_unspent(option_view(*entries), *txid, vout),
{
    match entries {
        Some(list) => {
            let mut i: usize = 0;
            while i < list.len()
                invariant
                    *entries == Some(*list),
                    i <= list.len(),
                    forall|j: int|
                        0 <= j < i ==> !((#[trigger] list@[j]).tx_hash == *txid
                            && list@[j].tx_pos as u32 == vout),
                decreases list.len() - i,
            {
                if list[i].tx_hash == *txid && list[i].tx_pos as u32 == vout {
                    proof {
                        let all = list@;
                        assert(all[i as int].tx_pos as u32 == vout);
                        assert(still_unspent(Some(all), *txid, vout));
                    }
                    return true;
                }
                i += 1;
            }
            false
        },
        None => false,
    }
}

/// What a node would tell of an output: nothing once it is spent. `entries` are the unspent outputs
/// of its script, if the server has told them.
pub fn tx_out_info(
    output: TxOut,
    entries: &Option<Vec<UnspentEntry>>,
    txid: &Txid,
    vout: u32,
    confirmations: Option<u64>,
) -> (info: Option<TxOutInfo>)
    ensures
        match info {
            Some(i) => {
                &&& still_unspent(option_view(*entries), *txid, vout)
                &&& i.value == output.value
                &&& i.script_pubkey == output.script_pubkey
                &&& i.confirmations == match confirmations {
                    Some(n) => n as u32,
                    None => 0,
                }
            },
            None => !still_unspent(option_view(*entries), *txid, vout),
        },
{
    if !is_still_unspent(entries, txid, vout) {
        return None;
    }
    let confirmations = match confirmations {
        Some(n) => n as u32,
        None => 0,
    };
    Some(
        TxOutInfo { confirmations, value: output.value, script_pubkey: output.script_pubkey },
    )
}

/// What a call of a node's method is given.
#[derive(Debug)]
pub struct CallArgs {
    /// The length of the first argument, where it is a list.
    pub first_len: Option<usize>,
    /// The first argument, where it is a text.
    pub first_text: Option<String>,
    /// The two ends of the second argument, where it is a list: each end where it is a number.
    pub range: Option<(Option<u64>, Option<u64>)>,
}

/// What a call of a node's method gives back.
#[derive(Debug)]
pub enum CallReply {
    /// So many descriptors were imported.
    Imported(usize),
    /// These outputs are locked.
    Locked(Vec<OutPoint>),
    /// These addresses were derived.
    Addresses(Vec<String>),
}

/// The range of indices that a call asks for.
pub open spec fn call_range(range: Option<(Option<u64>, Option<u64>)>) -> (u32, u32) {
    match range {
        None => (0, 0),
        Some(ends) => {
            let start = match ends.0 {
                Some(n) => n as u32,
                None => 0,
            };
            let end = match ends.1 {
                Some(n) => n as u32,
                None => start,
            };
            (start, end)
        },
    }
}

/// Whether a call asks for no range of indices, or for one that does not run backwards. The range is of
/// no account where there is no descriptor that can be read.
pub open spec fn call_in_range(cmd: Seq<char>, args: CallArgs) -> bool {
    cmd == "deriveaddresses"@ && args.first_text is Some && spec_read_descriptor(
        args.first_text->Some_0@,
    ) is Ok ==> call_range(args.range).0 <= call_range(args.range).1
}

impl ElectrumBackend {
    /// What the backend replies to a call of a node's method.
    pub open spec fn answers(
        self,
        cmd: Seq<char>,
        args: CallArgs,
        reply: Result<CallReply, String>,
    ) -> bool {
        if cmd == "importdescriptors"@ {
            reply == Ok::<CallReply, String>(
                CallReply::Imported(
                    match args.first_len {
                        Some(len) => len,
                        None => 0,
                    },
                ),
            )
        } else if cmd == "listlockunspent"@ {
            reply matches Ok(CallReply::Locked(list)) && list@ == self.locked@
        } else if cmd == "deriveaddresses"@ {
            match args.first_text {
                None => reply matches Err(e) && e@ == "deriveaddresses: missing descriptor"@,
                Some(descriptor) => match reply {
                    Ok(CallReply::Addresses(list)) => derived_addresses(
                        Ok(views(list@)),
                        descriptor@,
                        call_range(args.range).0,
                        call_range(args.range).1,
                        self.network,
                    ),
                    Ok(_) => false,
                    Err(e) => derived_addresses(
                        Err(e@),
                        descriptor@,
                        call_range(args.range).0,
                        call_range(args.range).1,
                        self.network,
                    ),
                },
            }
        } else {
            reply matches Err(e) && e@ == "ElectrumBackend: rpc method '"@ + cmd
                + "' not supported"@
        }
    }

    /// Answers a call as [`ElectrumBackend::call`] does, unless it asks for a range of indices that runs
    /// backwards.
    pub fn try_call(&self, cmd: &str, args: &CallArgs) -> (reply: Option<Result<CallReply, String>>)
        ensures
            match reply {
                Some(r) => call_in_range(cmd@, *args) && self.answers(cmd@, *args, r),
                None => !call_in_range(cmd@, *args),
            },
    {
        let (start, end) = asked_range(args);
        if start > end && same_text(cmd, "deriveaddresses") {
            if let Some(descriptor) = &args.first_text {
                if read_descriptor(descriptor.as_str()).is_ok() {
                    return None;
                }
            }
        }
        Some(self.call(cmd, args))
    }

    /// Answers the node's methods that the wallet calls, from what the backend keeps: importing
    /// descriptors has no effect, locked outputs are listed, and addresses are derived. Other methods
    /// are refused.
    pub fn call(&self, cmd: &str, args: &CallArgs) -> (reply: Result<CallReply, String>)
        requires
            call_in_range(cmd@, *args),
        ensures
            self.answers(cmd@, *args, reply),
    {
        proof {
            reveal_strlit("importdescriptors");
            reveal_strlit("listlockunspent");
            reveal_strlit("deriveaddresses");
            assert("importdescriptors"@[0] != "listlockunspent"@[0]);
            assert("importdescriptors"@[0] != "deriveaddresses"@[0]);
            assert("listlockunspent"@[0] != "deriveaddresses"@[0]);
        }
        if same_text(cmd, "importdescriptors") {
            return Ok(
                CallReply::Imported(
                    match args.first_len {
                        Some(len) => len,
                        None => 0,
                    },
                ),
            );
        }
        if same_text(cmd, "listlockunspent") {
            return Ok(CallReply::Locked(copy_outpoints(&self.locked)));
        }
        if same_text(cmd, "deriveaddresses") {
            let descriptor = match &args.first_text {
                Some(descriptor) => descriptor.as_str(),
                None => {
                    return Err("deriveaddresses: missing descriptor".to_owned());
                },
            };
            let (start, end) = asked_range(args);
            return match derive_addresses_local(descriptor, start, end, self.network) {
                Ok(list) => Ok(CallReply::Addresses(list)),
                Err(e) => Err(e),
            };
        }
        Err(joined_text("ElectrumBackend: rpc method '", cmd, "' not supported"))
    }
}

fn asked_range(args: &CallArgs) -> (range: (u32, u32))
    ensures
        range == call_range(args.range),
{
    match args.range {
        None => (0u32, 0u32),
        Some((from, to)) => {
            let start: u32 = match from {
                Some(n) => n as u32,
                None => 0,
            };
            let end: u32 = match to {
                Some(n) => n as u32,
                None => start,
            };
            (start, end)
        },
    }
}

fn copy_outpoints(list: &Vec<OutPoint>) -> (copy: Vec<OutPoint>)
    ensures
        copy@ == list@,
{
    let mut copy: Vec<OutPoint> = Vec::new();
    let mut i: usize = 0;
    while i < list.len()
        invariant
            i <= list.len(),
            copy@ == list@.take(i as int),
        decreases list.len() - i,
    {
        copy.push(list[i]);
        assert(list@.take(i + 1) =~= list@.take(i as int).push(list@[i as int]));
        i += 1;
    }
    assert(list@.take(i as int) =~= list@);
    copy
}

/// Every output that a server tells of for a script of the wallet is listed, unless it is locked or has too few
/// confirmations: with its transaction, its position and its value, and with as many confirmations as there
/// are blocks from its own to the tip.
pub proof fn law_every_free_output_is_listed(
    batches: Seq<Seq<ItemView>>,
    replies: Seq<Seq<Seq<UnspentEntry>>>,
    n: nat,
    locked: Seq<OutPoint>,
    tip: u64,
    min_conf: u32,
    b: int,
    k: int,
    m: int,
    confirmations: u32,
)
    requires
        0 <= b < n <= batches.len(),
        n <= replies.len(),
        0 <= k < batches[b].len(),
        k < replies[b].len(),
        batches[b][k].1,
        0 <= m < replies[b][k].len(),
        replies[b][k][m].tx_pos <= u32::MAX,
        !locked.contains(
            OutPoint {
                txid: replies[b][k][m].tx_hash,
                vout: replies[b][k][m].tx_pos as u32,
            },
        ),
        confirmations >= min_conf,
        tip < u64::MAX,
        replies[b][k][m].height == 0 ==> confirmations == 0,
        replies[b][k][m].height > tip + 1 ==> confirmations == 0,
        0 < replies[b][k][m].height <= tip + 1 ==> confirmations == tip + 1
            - replies[b][k][m].height,
    ensures
        listed(batches, replies, n, locked, tip, min_conf).contains(
            UtxoView {
                txid: replies[b][k][m].tx_hash,
                vout: replies[b][k][m].tx_pos as u32,
                address: None,
                label: None,
                redeem_script: None,
                witness_script: None,
                script_pub_key: batches[b][k].0,
                amount: replies[b][k][m].value,
                confirmations,
                spendable: true,
                solvable: true,
                descriptor: None,
                safe: true,
            },
        ),
    decreases n,
{
    let e = replies[b][k][m];
    let utxo = listed_utxo(batches[b][k].0, e, tip);
    assert(e.height as u64 == e.height);
    let before = listed(batches, replies, (n - 1) as nat, locked, tip, min_conf);
    let last = batch_utxos(
        batches[n - 1],
        replies[n - 1],
        answered(batches[n - 1], replies[n - 1]),
        locked,
        tip,
        min_conf,
    );
    let all = listed(batches, replies, n, locked, tip, min_conf);
    assert(utxo.confirmations == confirmations);
    if b < n - 1 {
        law_every_free_output_is_listed(
            batches,
            replies,
            (n - 1) as nat,
            locked,
            tip,
            min_conf,
            b,
            k,
            m,
            confirmations,
        );
        let i = choose|i: int| 0 <= i < before.len() && before[i] == utxo;
        assert(all[i] == utxo);
    } else {
        lemma_batch_lists(
            batches[b],
            replies[b],
            answered(batches[b], replies[b]),
            locked,
            tip,
            min_conf,
            k,
            m,
        );
        let i = choose|i: int| 0 <= i < last.len() && last[i] == utxo;
        assert(all[before.len() + i] == utxo);
    }
}

proof fn lemma_item_lists(
    script: Seq<u8>,
    entries: Seq<UnspentEntry>,
    locked: Seq<OutPoint>,
    tip: u64,
    min_conf: u32,
    m: int,
)
    requires
        0 <= m < entries.len(),
        counts(entries[m], locked, tip, min_conf),
    ensures
        item_utxos(script, entries, locked, tip, min_conf).contains(
            listed_utxo(script, entries[m], tip),
        ),
    decreases entries.len(),
{
    let utxo = listed_utxo(script, entries[m], tip);
    let before = item_utxos(script, entries.drop_last(), locked, tip, min_conf);
    let all = item_utxos(script, entries, locked, tip, min_conf);
    if m < entries.len() - 1 {
        lemma_item_lists(script, entries.drop_last(), locked, tip, min_conf, m);
        let i = choose|i: int| 0 <= i < before.len() && before[i] == utxo;
        assert(all[i] == utxo);
    } else {
        assert(all[before.len() as int] == utxo);
    }
}

proof fn lemma_batch_lists(
    batch: Seq<ItemView>,
    replies: Seq<Seq<UnspentEntry>>,
    n: nat,
    locked: Seq<OutPoint>,
    tip: u64,
    min_conf: u32,
    k: int,
    m: int,
)
    requires
        0 <= k < n,
        n <= batch.len(),
        n <= replies.len(),
        batch[k].1,
        0 <= m < replies[k].len(),
        counts(replies[k][m], locked, tip, min_conf),
    ensures
        batch_utxos(batch, replies, n, locked, tip, min_conf).contains(
            listed_utxo(batch[k].0, replies[k][m], tip),
        ),
    decreases n,
{
    let utxo = listed_utxo(batch[k].0, replies[k][m], tip);
    let before = batch_utxos(batch, replies, (n - 1) as nat, locked, tip, min_conf);
    let all = batch_utxos(batch, replies, n, locked, tip, min_conf);
    if k < n - 1 {
        lemma_batch_lists(batch, replies, (n - 1) as nat, locked, tip, min_conf, k, m);
        let i = choose|i: int| 0 <= i < before.len() && before[i] == utxo;
        assert(all[i] == utxo);
    } else {
        lemma_item_lists(batch[k].0, replies[k], locked, tip, min_conf, m);
        let item = item_utxos(batch[k].0, replies[k], locked, tip, min_conf);
        let i = choose|i: int| 0 <= i < item.len() && item[i] == utxo;
        assert(all[before.len() + i] == utxo);
    }
}

/// A server is on the network whose first block it names, by the reverse of the block's hash; where it names
/// that of no network, it is on none.
pub proof fn law_first_block_tells_the_network(network: Network, given: Seq<u8>)
    ensures
        network_of(genesis_hash_of(network).reverse()) is Some,
        network_of(given) matches Some(n) ==> genesis_hash_of(n).reverse() == given,
        network_of(given) is None ==> genesis_hash_of(network).reverse() != given,
{
}

/// An output is unspent where the server lists it by its transaction and its position among the unspent outputs
/// of its script, and is spent where the server does not.
pub proof fn law_listed_output_is_unspent(
    entries: Seq<UnspentEntry>,
    i: int,
    txid: Txid,
    vout: u32,
)
    ensures
        !still_unspent(None, txid, vout),
        !still_unspent(Some(Seq::empty()), txid, vout),
        0 <= i < entries.len() && entries[i].tx_hash == txid && entries[i].tx_pos == vout
            ==> still_unspent(Some(entries), txid, vout),
        (forall|j: int| 0 <= j < entries.len() ==> (#[trigger] entries[j]).tx_hash != txid)
            ==> !still_unspent(Some(entries), txid, vout),
        (forall|j: int|
            0 <= j < entries.len() ==> (#[trigger] entries[j]).tx_pos != vout && entries[j].tx_pos
                <= u32::MAX) ==> !still_unspent(Some(entries), txid, vout),
{
    if 0 <= i < entries.len() && entries[i].tx_hash == txid && entries[i].tx_pos == vout {
        let list = Some(entries)->Some_0;
        assert(list[i].tx_hash == txid && list[i].tx_pos as u32 == vout);
    }
}

/// A transaction is read from the hexadecimal text of its encoding; where the text or the encoding cannot be read,
/// the error says which, and why.
pub proof fn law_transaction_is_read_from_hex(
    text: Seq<char>,
    raw: Seq<u8>,
    tx: TransactionView,
    why: Seq<char>,
    hex_error: Seq<char>,
    tx_error: Seq<char>,
)
    ensures
        hex_bytes(text) == Ok::<Seq<u8>, Seq<char>>(raw) && decoded_tx(raw) == Ok::<
            TransactionView,
            Seq<char>,
        >(tx) ==> tx_from_hex(text, hex_error, tx_error) == Ok::<
            (Seq<u8>, TransactionView),
            Seq<char>,
        >((raw, tx)),
        hex_bytes(text) == Err::<Seq<u8>, Seq<char>>(why) ==> tx_from_hex(
            text,
            hex_error,
            tx_error,
        ) == Err::<(Seq<u8>, TransactionView), Seq<char>>(hex_error + why),
        hex_bytes(text) == Ok::<Seq<u8>, Seq<char>>(raw) && decoded_tx(raw) == Err::<
            TransactionView,
            Seq<char>,
        >(why) ==> tx_from_hex(text, hex_error, tx_error) == Err::<
            (Seq<u8>, TransactionView),
            Seq<char>,
        >(tx_error + why),
{
}

/// A call asks for the indices between the two numbers that it is given, both included; for one index where it
/// is given one number, and for the first where it is given none.
pub proof fn law_call_asks_for_its_range(start: u32, end: u32)
    ensures
        call_range(Some((Some(start as u64), Some(end as u64)))) == (start, end),
        call_range(Some((Some(start as u64), None))) == (start, start),
        call_range(Some((None, Some(end as u64)))) == (0u32, end),
        call_range(Some((None, None))) == (0u32, 0u32),
        call_range(None) == (0u32, 0u32),
{
}

/// A backend lists what it has locked, counts the descriptors that it is asked to import, and refuses a method that
/// it does not know.
pub proof fn law_calls_are_answered(
    backend: ElectrumBackend,
    cmd: Seq<char>,
    args: CallArgs,
    reply: Result<CallReply, String>,
)
    requires
        backend.answers(cmd, args, reply),
    ensures
        cmd == "listlockunspent"@ ==> (reply matches Ok(CallReply::Locked(list)) && list@
            == backend.locked@),
        cmd == "importdescriptors"@ ==> reply is Ok && (args.first_len matches Some(n) ==> reply
            == Ok::<CallReply, String>(CallReply::Imported(n))),
        cmd == "deriveaddresses"@ && args.first_text is None ==> reply is Err,
        cmd != "listlockunspent"@ && cmd != "importdescriptors"@ && cmd != "deriveaddresses"@
            ==> reply is Err,
{
    reveal_strlit("importdescriptors");
    reveal_strlit("listlockunspent");
    reveal_strlit("deriveaddresses");
    assert("importdescriptors"@[0] != "listlockunspent"@[0]);
    assert("importdescriptors"@[0] != "deriveaddresses"@[0]);
    assert("listlockunspent"@[0] != "deriveaddresses"@[0]);
}

} // verus!
