//! Laws of the two-phase load protocol, proved over the store's view: what
//! loading preserves, that unloading restores a freshly indexed stream, and
//! that loads of different streams commute.

use vstd::prelude::*;

use crate::dict::DictV;
use crate::store::{
    all_gens_exist, block_apply, load_blocks, payload_of, spec_load, txs_for_gen,
    lemma_txs_for_gen_empty,
};
use crate::block::txs_dec;
use crate::types::{
    find_gen, find_stream, lemma_find_gen_from_range, lemma_find_gen_same_ids,
    lemma_find_gen_unique, lemma_find_stream_from_range, spec_drop, wf, FtrView, GenView,
    StreamView, TxView,
};

verus! {

/// Loading never touches a generator's identity, owner or name, and never
/// removes transactions: it only appends.
pub proof fn lemma_load_blocks_meta(gens: Seq<GenView>, d: DictV, s: StreamView, k: int)
    ensures
        ({
            let (g2, ok) = load_blocks(gens, d, s, k);
            &&& g2.len() == gens.len()
            &&& forall|i: int|
                0 <= i < gens.len() ==> {
                    &&& (#[trigger] g2[i]).id == gens[i].id
                    &&& g2[i].stream_id == gens[i].stream_id
                    &&& g2[i].name == gens[i].name
                    &&& g2[i].transactions.len() >= gens[i].transactions.len()
                    &&& g2[i].transactions.take(gens[i].transactions.len() as int)
                        == gens[i].transactions
                }
        }),
    decreases s.blocks.len() - k,
{
    if 0 <= k < s.blocks.len() {
        match payload_of(s.blocks[k], s.block_data[k]) {
            None => {
                assert(forall|i: int|
                    0 <= i < gens.len() ==> (#[trigger] gens[i]).transactions.take(
                        gens[i].transactions.len() as int,
                    ) =~= gens[i].transactions);
            },
            Some(p) => {
                match txs_dec(p, 0, d) {
                    None => {
                        assert(forall|i: int|
                            0 <= i < gens.len() ==> (#[trigger] gens[i]).transactions.take(
                                gens[i].transactions.len() as int,
                            ) =~= gens[i].transactions);
                    },
                    Some(ts) => {
                        if all_gens_exist(gens, ts) {
                            let ga = block_apply(gens, ts);
                            lemma_load_blocks_meta(ga, d, s, k + 1);
                            let (g2, ok) = load_blocks(gens, d, s, k);
                            assert forall|i: int| 0 <= i < gens.len() implies {
                                &&& (#[trigger] g2[i]).transactions.len()
                                    >= gens[i].transactions.len()
                                &&& g2[i].transactions.take(gens[i].transactions.len() as int)
                                    == gens[i].transactions
                            } by {
                                let ni = gens[i].transactions.len() as int;
                                assert(ga[i].transactions == gens[i].transactions + txs_for_gen(
                                    ts,
                                    gens[i].id,
                                ));
                                assert(ga[i].transactions.take(ga[i].transactions.len() as int)
                                    == g2[i].transactions.take(ga[i].transactions.len() as int));
                                assert(g2[i].transactions.take(ni) =~= ga[i].transactions.take(
                                    ga[i].transactions.len() as int,
                                ).take(ni));
                                assert(ga[i].transactions.take(ni) =~= gens[i].transactions);
                                assert(ga[i].transactions.take(ga[i].transactions.len() as int).take(
                                    ni,
                                ) =~= ga[i].transactions.take(ni));
                            }
                        } else {
                            assert(forall|i: int|
                                0 <= i < gens.len() ==> (#[trigger] gens[i]).transactions.take(
                                    gens[i].transactions.len() as int,
                                ) =~= gens[i].transactions);
                        }
                    },
                }
            },
        }
    } else {
        assert(forall|i: int|
            0 <= i < gens.len() ==> (#[trigger] gens[i]).transactions.take(
                gens[i].transactions.len() as int,
            ) =~= gens[i].transactions);
    }
}

/// Loading a stream and then dropping it leaves every generator of that
/// stream with an empty transaction list, and every piece of metadata — time
/// scale, maximum timestamp, dictionary, streams with their block
/// descriptors, generator ids, owners and names, relations — exactly as it
/// was before the load.
pub proof fn lemma_load_then_drop(f: FtrView, stream_id: int)
    ensures
        ({
            let loaded = spec_load(f, stream_id).0;
            let dropped = spec_drop(loaded, stream_id);
            &&& dropped.time_scale == f.time_scale
            &&& dropped.max_timestamp == f.max_timestamp
            &&& dropped.dict == f.dict
            &&& dropped.streams == f.streams
            &&& dropped.relations == f.relations
            &&& dropped.file_name == f.file_name
            &&& dropped.generators.len() == f.generators.len()
            &&& forall|i: int|
                0 <= i < f.generators.len() ==> {
                    &&& (#[trigger] dropped.generators[i]).id == f.generators[i].id
                    &&& dropped.generators[i].stream_id == f.generators[i].stream_id
                    &&& dropped.generators[i].name == f.generators[i].name
                    &&& (f.generators[i].stream_id == stream_id ==> dropped.generators[
                        i
                    ].transactions.len() == 0)
                }
        }),
{
    match find_stream(f.streams, stream_id) {
        None => {},
        Some(k) => {
            lemma_load_blocks_meta(f.generators, f.dict, f.streams[k], 0);
        },
    }
}

/// Two generator sequences that agree on length, ids, owners and names.
pub open spec fn gens_meta_eq(a: Seq<GenView>, b: Seq<GenView>) -> bool {
    &&& a.len() == b.len()
    &&& forall|i: int|
        0 <= i < a.len() ==> {
            &&& (#[trigger] a[i]).id == b[i].id
            &&& a[i].stream_id == b[i].stream_id
            &&& a[i].name == b[i].name
        }
}

/// No two generators share an id.
pub open spec fn gen_ids_unique(a: Seq<GenView>) -> bool {
    forall|p: int, q: int| 0 <= p < q < a.len() ==> a[p].id != a[q].id
}

/// What block `k` of stream `s` decodes to under dictionary `d`.
pub open spec fn block_ts(d: DictV, s: StreamView, k: int) -> Option<Seq<TxView>> {
    match payload_of(s.blocks[k], s.block_data[k]) {
        None => None,
        Some(p) => txs_dec(p, 0, d),
    }
}

/// The generator `gid`, if it exists at all, is owned by stream `sid`.
pub open spec fn gen_of_stream(gens: Seq<GenView>, sid: int, gid: int) -> bool {
    match find_gen(gens, gid) {
        None => true,
        Some(w) => gens[w].stream_id == sid,
    }
}

/// Every transaction of `ts` targets a generator of stream `sid`.
pub open spec fn ts_local(gens: Seq<GenView>, sid: int, ts: Seq<TxView>) -> bool {
    forall|q: int| 0 <= q < ts.len() ==> gen_of_stream(gens, sid, (#[trigger] ts[q]).event.gen_id)
}

/// A self-contained stream: every transaction its blocks decode to targets
/// one of its own generators. Traces written by one recorder have this
/// shape; a block that names another stream's generator would not.
pub open spec fn stream_local(gens: Seq<GenView>, d: DictV, s: StreamView) -> bool {
    forall|k: int|
        0 <= k < s.blocks.len() ==> match #[trigger] block_ts(d, s, k) {
            None => true,
            Some(ts) => ts_local(gens, s.id, ts),
        }
}

/// Locality only reads ids and owners, so it carries over to any
/// metadata-equal generator sequence.
proof fn lemma_stream_local_meta(a: Seq<GenView>, b: Seq<GenView>, d: DictV, s: StreamView)
    requires
        gens_meta_eq(a, b),
        stream_local(a, d, s),
    ensures
        stream_local(b, d, s),
{
    assert forall|k: int| 0 <= k < s.blocks.len() implies match #[trigger] block_ts(d, s, k) {
        None => true,
        Some(ts) => ts_local(b, s.id, ts),
    } by {
        match block_ts(d, s, k) {
            None => {},
            Some(ts) => {
                assert forall|q: int| 0 <= q < ts.len() implies gen_of_stream(
                    b,
                    s.id,
                    (#[trigger] ts[q]).event.gen_id,
                ) by {
                    let gid = ts[q].event.gen_id;
                    lemma_find_gen_same_ids(a, b, 0, gid);
                    assert(gen_of_stream(a, s.id, gid));
                    match find_gen(b, gid) {
                        None => {},
                        Some(w) => {
                            lemma_find_gen_from_range(b, 0, gid);
                            assert(a[w].stream_id == b[w].stream_id);
                        },
                    }
                }
            },
        }
    }
}

/// Loading a self-contained stream from two stores whose generators agree on
/// metadata, and on the transactions of that stream's own generators, does
/// the same thing in both: the same success, the same transactions for the
/// stream's generators, and no change anywhere else.
proof fn lemma_load_blocks_congruence(
    ga: Seq<GenView>,
    gb: Seq<GenView>,
    d: DictV,
    s: StreamView,
    k: int,
)
    requires
        gens_meta_eq(ga, gb),
        gen_ids_unique(ga),
        stream_local(ga, d, s),
        forall|i: int|
            0 <= i < ga.len() && (#[trigger] ga[i]).stream_id == s.id ==> ga[i].transactions
                == gb[i].transactions,
    ensures
        ({
            let (ra, oka) = load_blocks(ga, d, s, k);
            let (rb, okb) = load_blocks(gb, d, s, k);
            &&& oka == okb
            &&& forall|i: int|
                0 <= i < ga.len() && (#[trigger] ga[i]).stream_id == s.id ==> ra[i].transactions
                    == rb[i].transactions
            &&& forall|i: int|
                0 <= i < ga.len() && (#[trigger] ga[i]).stream_id != s.id ==> ra[i].transactions
                    == ga[i].transactions && rb[i].transactions == gb[i].transactions
        }),
    decreases s.blocks.len() - k,
{
    if 0 <= k < s.blocks.len() {
        match payload_of(s.blocks[k], s.block_data[k]) {
            None => {},
            Some(p) => {
                match txs_dec(p, 0, d) {
                    None => {},
                    Some(ts) => {
                        assert(block_ts(d, s, k) == Some(ts));
                        assert(ts_local(ga, s.id, ts));
                        assert forall|q: int| 0 <= q < ts.len() implies find_gen(
                            ga,
                            (#[trigger] ts[q]).event.gen_id,
                        ) == find_gen(gb, ts[q].event.gen_id) by {
                            lemma_find_gen_same_ids(ga, gb, 0, ts[q].event.gen_id);
                        }
                        assert(all_gens_exist(ga, ts) == all_gens_exist(gb, ts));
                        if all_gens_exist(ga, ts) {
                            let aa = block_apply(ga, ts);
                            let ab = block_apply(gb, ts);
                            assert(gens_meta_eq(aa, ab));
                            assert(gens_meta_eq(ga, aa));
                            assert(gen_ids_unique(aa));
                            lemma_stream_local_meta(ga, aa, d, s);
                            // The stream's generators receive the same share
                            // on both sides; the others receive nothing.
                            assert forall|i: int|
                                0 <= i < ga.len() && (#[trigger] ga[i]).stream_id != s.id implies {
                                &&& aa[i].transactions == ga[i].transactions
                                &&& ab[i].transactions == gb[i].transactions
                            } by {
                                assert forall|q: int| 0 <= q < ts.len() implies (#[trigger] ts[
                                q]).event.gen_id != ga[i].id by {
                                    if ts[q].event.gen_id == ga[i].id {
                                        lemma_find_gen_unique(ga, i);
                                        assert(gen_of_stream(ga, s.id, ts[q].event.gen_id));
                                    }
                                }
                                lemma_txs_for_gen_empty(ts, ga[i].id);
                                assert(ga[i].transactions + Seq::<TxView>::empty()
                                    =~= ga[i].transactions);
                                assert(gb[i].transactions + Seq::<TxView>::empty()
                                    =~= gb[i].transactions);
                            }
                            lemma_load_blocks_congruence(aa, ab, d, s, k + 1);
                        }
                    },
                }
            },
        }
    }
}

/// Loading two different self-contained streams gives the same store in
/// either order, and the order does not change whether each load succeeds.
pub proof fn lemma_load_order_independent(f: FtrView, s1: int, s2: int)
    requires
        wf(f),
        s1 != s2,
        find_stream(f.streams, s1) is Some,
        find_stream(f.streams, s2) is Some,
        stream_local(f.generators, f.dict, f.streams[find_stream(f.streams, s1).unwrap()]),
        stream_local(f.generators, f.dict, f.streams[find_stream(f.streams, s2).unwrap()]),
    ensures
        spec_load(spec_load(f, s1).0, s2).0 == spec_load(spec_load(f, s2).0, s1).0,
        spec_load(spec_load(f, s1).0, s2).1 == spec_load(f, s2).1,
        spec_load(spec_load(f, s2).0, s1).1 == spec_load(f, s1).1,
{
    let k1 = find_stream(f.streams, s1).unwrap();
    let k2 = find_stream(f.streams, s2).unwrap();
    lemma_find_stream_from_range(f.streams, 0, s1);
    lemma_find_stream_from_range(f.streams, 0, s2);
    let sa = f.streams[k1];
    let sb = f.streams[k2];
    let g0 = f.generators;
    let d = f.dict;
    let a1 = load_blocks(g0, d, sa, 0).0;
    let b2 = load_blocks(g0, d, sb, 0).0;
    let a12 = load_blocks(a1, d, sb, 0).0;
    let b21 = load_blocks(b2, d, sa, 0).0;
    lemma_load_blocks_meta(g0, d, sa, 0);
    lemma_load_blocks_meta(g0, d, sb, 0);
    lemma_load_blocks_meta(a1, d, sb, 0);
    lemma_load_blocks_meta(b2, d, sa, 0);
    assert(gens_meta_eq(g0, g0));
    // Each load leaves the other stream's generators alone.
    lemma_load_blocks_congruence(g0, g0, d, sa, 0);
    lemma_load_blocks_congruence(g0, g0, d, sb, 0);
    // And from metadata-equal starting points it appends the same share.
    assert(gens_meta_eq(g0, b2));
    lemma_load_blocks_congruence(g0, b2, d, sa, 0);
    assert(gens_meta_eq(g0, a1));
    lemma_load_blocks_congruence(g0, a1, d, sb, 0);
    assert forall|i: int| 0 <= i < g0.len() implies a12[i] == b21[i] by {
        if g0[i].stream_id == s1 {
            assert(a12[i].transactions == a1[i].transactions);
            assert(a1[i].transactions == b21[i].transactions);
        } else if g0[i].stream_id == s2 {
            assert(b21[i].transactions == b2[i].transactions);
            assert(b2[i].transactions == a12[i].transactions);
        } else {
            assert(a12[i].transactions == a1[i].transactions);
            assert(a1[i].transactions == g0[i].transactions);
            assert(b21[i].transactions == b2[i].transactions);
            assert(b2[i].transactions == g0[i].transactions);
        }
        assert(a12[i] =~= b21[i]);
    }
    assert(a12 =~= b21);
    assert(spec_load(spec_load(f, s1).0, s2).0 =~~= spec_load(spec_load(f, s2).0, s1).0);
}

} // verus!
