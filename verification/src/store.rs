//! The on-demand block loader and the lazy relation resolver. Loading a
//! stream decodes its blocks (decompressing where flagged) and appends the
//! reconstructed transactions to their generators; loading is specified as a
//! fold over the stream's block descriptors, so what a load does to the
//! store is a function of the stream's payloads and the dictionary alone.

use vstd::prelude::*;

use crate::block::{decode_block, txs_dec};
use crate::compress::{decompress, lz4_decompressed};
use crate::dict::DictV;
use crate::types::{
    attrs_view, blocks_sized, find_gen, find_stream, lemma_find_gen_from_range,
    lemma_find_stream_from_range, rels_view, txs_view, Attribute, FtrView, GenView, RelView,
    StreamView, Transaction, TxGenerator, TxRelation, TxView, FTR,
};
use crate::FtrError;

verus! {

/// The transactions of `ts` that belong to the generator `gid`, in order.
pub open spec fn txs_for_gen(ts: Seq<TxView>, gid: int) -> Seq<TxView>
    decreases ts.len(),
{
    if ts.len() == 0 {
        Seq::empty()
    } else {
        txs_for_gen(ts.drop_last(), gid) + (if ts.last().event.gen_id == gid {
            seq![ts.last()]
        } else {
            Seq::empty()
        })
    }
}

/// One more transaction extends the per-generator selection at the end.
pub proof fn lemma_txs_for_gen_push(s: Seq<TxView>, e: TxView, gid: int)
    ensures
        txs_for_gen(s.push(e), gid) == txs_for_gen(s, gid) + (if e.event.gen_id == gid {
            seq![e]
        } else {
            Seq::<TxView>::empty()
        }),
{
    assert(s.push(e).drop_last() =~= s);
    assert(s.push(e).last() == e);
    assert(s.push(e).len() == s.len() + 1);
}

/// When none of the transactions belongs to `gid`, the selection is empty.
pub proof fn lemma_txs_for_gen_empty(ts: Seq<TxView>, gid: int)
    requires
        forall|q: int| 0 <= q < ts.len() ==> (#[trigger] ts[q]).event.gen_id != gid,
    ensures
        txs_for_gen(ts, gid) == Seq::<TxView>::empty(),
    decreases ts.len(),
{
    if ts.len() > 0 {
        lemma_txs_for_gen_empty(ts.drop_last(), gid);
        assert(ts.last() == ts[ts.len() - 1]);
        assert(txs_for_gen(ts.drop_last(), gid) + Seq::<TxView>::empty() =~= Seq::<
            TxView,
        >::empty());
    }
}

/// Every decoded transaction names a generator that exists.
pub open spec fn all_gens_exist(gens: Seq<GenView>, ts: Seq<TxView>) -> bool {
    forall|q: int| 0 <= q < ts.len() ==> find_gen(gens, (#[trigger] ts[q]).event.gen_id) is Some
}

/// One decoded block appended to the generators: each generator receives,
/// in record order, exactly the transactions that name it.
pub open spec fn block_apply(gens: Seq<GenView>, ts: Seq<TxView>) -> Seq<GenView> {
    Seq::new(
        gens.len(),
        |i: int|
            GenView {
                transactions: gens[i].transactions + txs_for_gen(ts, gens[i].id),
                ..gens[i]
            },
    )
}

/// The bytes a block descriptor yields for decoding: its payload, run
/// through the decompressor when the descriptor is flagged compressed.
pub open spec fn payload_of(block: (u64, bool), data: Seq<u8>) -> Option<Seq<u8>> {
    if block.1 {
        lz4_decompressed(data)
    } else {
        Some(data)
    }
}

/// The fold that loading a stream performs, starting at block `k`: the
/// generators after the load and whether every block decoded. A failing
/// block aborts the fold; blocks already applied stay applied.
pub open spec fn load_blocks(gens: Seq<GenView>, d: DictV, s: StreamView, k: int) -> (
    Seq<GenView>,
    bool,
)
    decreases s.blocks.len() - k,
{
    if k < 0 || k >= s.blocks.len() {
        (gens, true)
    } else {
        match payload_of(s.blocks[k], s.block_data[k]) {
            None => (gens, false),
            Some(p) => match txs_dec(p, 0, d) {
                None => (gens, false),
                Some(ts) => if all_gens_exist(gens, ts) {
                    load_blocks(block_apply(gens, ts), d, s, k + 1)
                } else {
                    (gens, false)
                },
            },
        }
    }
}

/// A block whose transactions name a missing generator stops the fold with
/// the generators as they stand.
pub proof fn lemma_load_blocks_fail(gens: Seq<GenView>, d: DictV, s: StreamView, k: int)
    requires
        0 <= k < s.blocks.len(),
        payload_of(s.blocks[k], s.block_data[k]) matches Some(p) && txs_dec(p, 0, d) matches Some(
            ts,
        ) && !all_gens_exist(gens, ts),
    ensures
        load_blocks(gens, d, s, k) == (gens, false),
{
}

/// What loading a stream does to the whole store, and whether it succeeds.
/// A missing stream leaves the store unchanged.
pub open spec fn spec_load(f: FtrView, stream_id: int) -> (FtrView, bool) {
    match find_stream(f.streams, stream_id) {
        None => (f, false),
        Some(k) => {
            let (g2, ok) = load_blocks(f.generators, f.dict, f.streams[k], 0);
            (FtrView { generators: g2, ..f }, ok)
        },
    }
}

impl Transaction {
    /// An exact copy.
    pub fn duplicate(&self) -> (t: Transaction)
        ensures
            t@ == self@,
    {
        let mut attributes: Vec<Attribute> = Vec::new();
        let mut i: usize = 0;
        let n = self.attributes.len();
        while i < n
            invariant
                i <= n,
                n == self.attributes@.len(),
                attributes@.len() == i,
                forall|q: int|
                    0 <= q < i ==> (#[trigger] attributes@[q])@ == self.attributes@[q]@,
            decreases n - i,
        {
            attributes.push(self.attributes[i].duplicate());
            i = i + 1;
        }
        let inc_relations = copy_relations(&self.inc_relations);
        let out_relations = copy_relations(&self.out_relations);
        let t = Transaction { event: self.event, attributes, inc_relations, out_relations };
        proof {
            assert(attrs_view(t.attributes@) =~= attrs_view(self.attributes@));
            assert(t@ =~~= self@);
        }
        t
    }
}

/// An exact copy of a relation list.
fn copy_relations(v: &Vec<TxRelation>) -> (r: Vec<TxRelation>)
    ensures
        rels_view(r@) == rels_view(v@),
{
    let mut out: Vec<TxRelation> = Vec::new();
    let mut i: usize = 0;
    let n = v.len();
    while i < n
        invariant
            i <= n,
            n == v@.len(),
            out@.len() == i,
            forall|q: int| 0 <= q < i ==> (#[trigger] out@[q])@ == v@[q]@,
        decreases n - i,
    {
        out.push(v[i].duplicate());
        i = i + 1;
    }
    proof {
        assert(rels_view(out@) =~= rels_view(v@));
    }
    out
}

impl FTR {
    /// Loads every transaction of the given stream into memory, block by
    /// block and in descriptor order. Loading an already loaded stream
    /// decodes and appends again: callers wanting a refresh unload first.
    /// A failing block aborts the call; blocks already appended stay.
    #[verifier::loop_isolation(false)]
    #[verifier::rlimit(100)]
    pub fn load_stream_into_memory(&mut self, stream_id: usize) -> (r: Result<(), FtrError>)
        requires
            blocks_sized(old(self)@),
        ensures
            find_stream(old(self)@.streams, stream_id as int) is None ==> r == Err::<
                (),
                FtrError,
            >(FtrError::UnknownStream) && final(self)@ == old(self)@,
            find_stream(old(self)@.streams, stream_id as int) is Some ==> {
                &&& final(self)@ == spec_load(old(self)@, stream_id as int).0
                &&& (r is Ok <==> spec_load(old(self)@, stream_id as int).1)
            },
    {
        let ns = self.tx_streams.len();
        let k = match self.find_stream_idx(stream_id) {
            None => {
                return Err(FtrError::UnknownStream);
            },
            Some(k) => k,
        };
        proof {
            lemma_find_stream_from_range(self@.streams, 0, stream_id as int);
        }
        let ghost s0 = self@.streams[k as int];
        let ghost d0 = self@.dict;
        let nb = self.tx_streams[k].tx_block_ids.len();
        proof {
            assert(self@.streams[k as int].block_data.len() == s0.blocks.len());
        }
        let mut b: usize = 0;
        while b < nb
            invariant
                b <= nb,
                k < self.tx_streams@.len(),
                nb == s0.blocks.len(),
                nb == self.tx_streams@[k as int].block_data@.len(),
                nb == self.tx_streams@[k as int].tx_block_ids@.len(),
                s0 == self@.streams[k as int],
                d0 == self@.dict,
                self.time_scale == old(self).time_scale,
                self.max_timestamp == old(self).max_timestamp,
                self.str_dict@ == old(self).str_dict@,
                self.tx_streams@ == old(self).tx_streams@,
                self.tx_relations@ == old(self).tx_relations@,
                self.file_name@ == old(self).file_name@,
                find_stream(old(self)@.streams, stream_id as int) == Some(k as int),
                s0 == old(self)@.streams[k as int],
                d0 == old(self)@.dict,
                load_blocks(old(self)@.generators, d0, s0, 0) == load_blocks(
                    self@.generators,
                    d0,
                    s0,
                    b as int,
                ),
            decreases nb - b,
        {
            let ghost pre_gens = self@.generators;
            proof {
                assert(self.tx_streams@[k as int]@ == s0);
                assert(s0.blocks[b as int] == self.tx_streams@[k as int].tx_block_ids@[b as int]);
                assert(s0.block_data[b as int] == self.tx_streams@[k as int].block_data@[b as int]@);
            }
            let compressed = self.tx_streams[k].tx_block_ids[b].1;
            let decoded = if compressed {
                let p = match decompress(self.tx_streams[k].block_data[b].as_slice()) {
                    None => {
                        proof {
                            assert(payload_of(s0.blocks[b as int], s0.block_data[b as int])
                                is None);
                            assert(load_blocks(self@.generators, d0, s0, b as int) == (
                            self@.generators,
                            false,
                            ));
                            assert(spec_load(old(self)@, stream_id as int).0 =~~= self@);
                        }
                        return Err(FtrError::DecompressionError);
                    },
                    Some(p) => p,
                };
                proof {
                    assert(payload_of(s0.blocks[b as int], s0.block_data[b as int]) == Some(p@));
                }
                decode_block(p.as_slice(), &self.str_dict)
            } else {
                proof {
                    assert(payload_of(s0.blocks[b as int], s0.block_data[b as int]) == Some(
                        s0.block_data[b as int],
                    ));
                }
                decode_block(self.tx_streams[k].block_data[b].as_slice(), &self.str_dict)
            };
            let ghost payload = payload_of(s0.blocks[b as int], s0.block_data[b as int])->Some_0;
            let txs = match decoded {
                Err(e) => {
                    proof {
                        assert(txs_dec(payload, 0, d0) is None);
                        assert(load_blocks(self@.generators, d0, s0, b as int) == (
                        self@.generators,
                        false,
                        ));
                        assert(spec_load(old(self)@, stream_id as int).0 =~~= self@);
                    }
                    return Err(e);
                },
                Ok(t) => t,
            };
            let ghost ts = txs_view(txs@);
            proof {
                assert(txs_dec(payload, 0, d0) == Some(ts));
            }
            // Every transaction must name a generator that exists; a block
            // is appended whole or not at all.
            let ntx = txs.len();
            let mut t: usize = 0;
            while t < ntx
                invariant
                    t <= ntx,
                    ntx == txs@.len(),
                    ts == txs_view(txs@),
                    forall|q: int|
                        0 <= q < t ==> find_gen(
                            self@.generators,
                            (#[trigger] ts[q]).event.gen_id,
                        ) is Some,
                decreases ntx - t,
            {
                proof {
                    assert(ts[t as int] == txs@[t as int]@);
                }
                if self.find_gen_idx(txs[t].event.gen_id).is_none() {
                    proof {
                        assert(find_gen(self@.generators, ts[t as int].event.gen_id) is None);
                        assert(!all_gens_exist(self@.generators, ts));
                        lemma_load_blocks_fail(self@.generators, d0, s0, b as int);
                        assert(spec_load(old(self)@, stream_id as int).0 =~~= self@);
                    }
                    return Err(FtrError::UnknownGenerator);
                }
                t = t + 1;
            }
            proof {
                assert(all_gens_exist(pre_gens, ts));
            }
            // Append each generator's share, in record order.
            let ng = self.tx_generators.len();
            let mut g: usize = 0;
            while g < ng
                invariant
                    g <= ng,
                    ng == self.tx_generators@.len(),
                    ng == pre_gens.len(),
                    ts == txs_view(txs@),
                    ntx == txs@.len(),
                    self.time_scale == old(self).time_scale,
                    self.max_timestamp == old(self).max_timestamp,
                    self.str_dict@ == old(self).str_dict@,
                    self.tx_streams@ == old(self).tx_streams@,
                    self.tx_relations@ == old(self).tx_relations@,
                    self.file_name@ == old(self).file_name@,
                    forall|p: int|
                        0 <= p < g ==> #[trigger] self.tx_generators@[p]@ == block_apply(
                            pre_gens,
                            ts,
                        )[p],
                    forall|p: int|
                        g <= p < ng ==> #[trigger] self.tx_generators@[p]@ == pre_gens[p],
                decreases ng - g,
            {
                proof {
                    assert(self.tx_generators@[g as int]@ == pre_gens[g as int]);
                }
                let gid = self.tx_generators[g].id;
                let ghost base = self.tx_generators@[g as int]@;
                proof {
                    assert(txs_for_gen(ts.take(0), gid as int) == Seq::<TxView>::empty());
                    assert(base.transactions + Seq::<TxView>::empty() =~= base.transactions);
                }
                let mut t: usize = 0;
                while t < ntx
                    invariant
                        t <= ntx,
                        ntx == txs@.len(),
                        ts == txs_view(txs@),
                        g < ng,
                        ng == self.tx_generators@.len(),
                        ng == pre_gens.len(),
                        gid as int == pre_gens[g as int].id,
                        self.time_scale == old(self).time_scale,
                        self.max_timestamp == old(self).max_timestamp,
                        self.str_dict@ == old(self).str_dict@,
                        self.tx_streams@ == old(self).tx_streams@,
                        self.tx_relations@ == old(self).tx_relations@,
                        self.file_name@ == old(self).file_name@,
                        forall|p: int|
                            0 <= p < g ==> #[trigger] self.tx_generators@[p]@ == block_apply(
                                pre_gens,
                                ts,
                            )[p],
                        forall|p: int|
                            g < p < ng ==> #[trigger] self.tx_generators@[p]@ == pre_gens[p],
                        self.tx_generators@[g as int]@ == (GenView {
                            transactions: pre_gens[g as int].transactions + txs_for_gen(
                                ts.take(t as int),
                                gid as int,
                            ),
                            ..pre_gens[g as int]
                        }),
                    decreases ntx - t,
                {
                    proof {
                        assert(ts.take(t + 1) =~= ts.take(t as int).push(ts[t as int]));
                        lemma_txs_for_gen_push(ts.take(t as int), ts[t as int], gid as int);
                        assert(ts[t as int] == txs@[t as int]@);
                    }
                    if txs[t].event.gen_id == gid {
                        let ghost oldvec = self.tx_generators@[g as int].transactions@;
                        proof {
                            assert(txs_view(oldvec) == pre_gens[g as int].transactions
                                + txs_for_gen(ts.take(t as int), gid as int));
                        }
                        let c = txs[t].duplicate();
                        self.tx_generators[g].transactions.push(c);
                        proof {
                            assert(c@ == ts[t as int]);
                            assert(self.tx_generators@[g as int].transactions@ =~= oldvec.push(c));
                            assert(txs_view(oldvec.push(c)) =~= txs_view(oldvec).push(c@));
                            assert(txs_for_gen(ts.take(t + 1), gid as int) == txs_for_gen(
                                ts.take(t as int),
                                gid as int,
                            ) + seq![ts[t as int]]);
                            assert((pre_gens[g as int].transactions + txs_for_gen(
                                ts.take(t as int),
                                gid as int,
                            )).push(c@) =~= pre_gens[g as int].transactions + txs_for_gen(
                                ts.take(t + 1),
                                gid as int,
                            ));
                            assert(self.tx_generators@[g as int]@ =~~= GenView {
                                transactions: pre_gens[g as int].transactions + txs_for_gen(
                                    ts.take(t + 1),
                                    gid as int,
                                ),
                                ..pre_gens[g as int]
                            });
                        }
                    } else {
                        proof {
                            assert(txs_for_gen(ts.take(t as int), gid as int) + Seq::<
                                TxView,
                            >::empty() =~= txs_for_gen(ts.take(t as int), gid as int));
                            assert(self.tx_generators@[g as int]@ =~~= GenView {
                                transactions: pre_gens[g as int].transactions + txs_for_gen(
                                    ts.take(t + 1),
                                    gid as int,
                                ),
                                ..pre_gens[g as int]
                            });
                        }
                    }
                    t = t + 1;
                }
                proof {
                    assert(ts.take(ntx as int) =~= ts);
                    assert(self.tx_generators@[g as int]@ =~~= block_apply(pre_gens, ts)[g as int]);
                }
                g = g + 1;
            }
            proof {
                assert(self@.generators =~~= block_apply(pre_gens, ts));
                assert(load_blocks(pre_gens, d0, s0, b as int) == load_blocks(
                    block_apply(pre_gens, ts),
                    d0,
                    s0,
                    b + 1,
                ));
            }
            b = b + 1;
        }
        proof {
            assert(load_blocks(self@.generators, d0, s0, nb as int) == (self@.generators, true));
            assert(spec_load(old(self)@, stream_id as int).0 =~~= self@);
        }
        Ok(())
    }
}

/// Index (into the generators) of the first generator in the id list `ids`
/// (from position `i`) that exists and carries `name`.
pub open spec fn find_gen_by_name(gens: Seq<GenView>, ids: Seq<int>, i: int, name: Seq<char>) -> Option<int>
    decreases ids.len() - i,
{
    if i < 0 || i >= ids.len() {
        None
    } else {
        match find_gen(gens, ids[i]) {
            Some(g) => if gens[g].name == name {
                Some(g)
            } else {
                find_gen_by_name(gens, ids, i + 1, name)
            },
            None => find_gen_by_name(gens, ids, i + 1, name),
        }
    }
}

impl FTR {
    fn gen_by_name_idx(&self, k: usize, j: usize, name: &String) -> (r: Option<usize>)
        requires
            k < self.tx_streams@.len(),
            j <= self.tx_streams@[k as int].generators@.len(),
        ensures
            match find_gen_by_name(
                self@.generators,
                self@.streams[k as int].generators,
                j as int,
                name@,
            ) {
                None => r is None,
                Some(g) => r == Some(g as usize) && 0 <= g < self@.generators.len(),
            },
        decreases self.tx_streams@[k as int].generators@.len() - j,
    {
        let n = self.tx_streams[k].generators.len();
        let ng = self.tx_generators.len();
        if j >= n {
            return None;
        }
        let gid = self.tx_streams[k].generators[j];
        proof {
            assert(self@.streams[k as int].generators[j as int] == gid as int);
            lemma_find_gen_from_range(self@.generators, 0, gid as int);
        }
        match self.find_gen_idx(gid) {
            Some(g) => {
                if self.tx_generators[g].name == *name {
                    Some(g)
                } else {
                    self.gen_by_name_idx(k, j + 1, name)
                }
            },
            None => self.gen_by_name_idx(k, j + 1, name),
        }
    }

    /// The generator with the given name among the generators owned by the
    /// given stream, or absence when the stream is missing or no generator
    /// matches. Linear in the stream's generator count.
    pub fn get_generator_from_name(&self, stream_id: usize, gen_name: String) -> (r: Option<
        &TxGenerator,
    >)
        ensures
            match find_stream(self@.streams, stream_id as int) {
                None => r is None,
                Some(k) => match find_gen_by_name(
                    self@.generators,
                    self@.streams[k].generators,
                    0,
                    gen_name@,
                ) {
                    None => r is None,
                    Some(g) => r matches Some(gen) && gen@ == self@.generators[g],
                },
            },
    {
        let ns = self.tx_streams.len();
        let ngen = self.tx_generators.len();
        let k = match self.find_stream_idx(stream_id) {
            None => {
                return None;
            },
            Some(k) => k,
        };
        proof {
            lemma_find_stream_from_range(self@.streams, 0, stream_id as int);
        }
        match self.gen_by_name_idx(k, 0, &gen_name) {
            None => None,
            Some(g) => Some(&self.tx_generators[g]),
        }
    }
}

/// Index of the first transaction with the given id, from position `i`.
pub open spec fn find_tx_in(ts: Seq<TxView>, i: int, tx_id: int) -> Option<int>
    decreases ts.len() - i,
{
    if i < 0 || i >= ts.len() {
        None
    } else if ts[i].event.tx_id == tx_id {
        Some(i)
    } else {
        find_tx_in(ts, i + 1, tx_id)
    }
}

/// Position of the first loaded transaction with the given id in a
/// generator owned by the given stream: generator index and index within
/// its list.
pub open spec fn find_tx(gens: Seq<GenView>, i: int, sid: int, tx_id: int) -> Option<(int, int)>
    decreases gens.len() - i,
{
    if i < 0 || i >= gens.len() {
        None
    } else if gens[i].stream_id == sid {
        match find_tx_in(gens[i].transactions, 0, tx_id) {
            Some(t) => Some((i, t)),
            None => find_tx(gens, i + 1, sid, tx_id),
        }
    } else {
        find_tx(gens, i + 1, sid, tx_id)
    }
}

/// The relations whose sink is the given transaction, in record order.
pub open spec fn rels_incoming(rs: Seq<RelView>, sid: int, tx_id: int) -> Seq<RelView>
    decreases rs.len(),
{
    if rs.len() == 0 {
        Seq::empty()
    } else {
        rels_incoming(rs.drop_last(), sid, tx_id) + (if rs.last().sink_stream_id == sid
            && rs.last().sink_tx_id == tx_id {
            seq![rs.last()]
        } else {
            Seq::empty()
        })
    }
}

/// The relations whose source is the given transaction, in record order.
pub open spec fn rels_outgoing(rs: Seq<RelView>, sid: int, tx_id: int) -> Seq<RelView>
    decreases rs.len(),
{
    if rs.len() == 0 {
        Seq::empty()
    } else {
        rels_outgoing(rs.drop_last(), sid, tx_id) + (if rs.last().source_stream_id == sid
            && rs.last().source_tx_id == tx_id {
            seq![rs.last()]
        } else {
            Seq::empty()
        })
    }
}

proof fn lemma_rels_incoming_push(rs: Seq<RelView>, e: RelView, sid: int, tx_id: int)
    ensures
        rels_incoming(rs.push(e), sid, tx_id) == rels_incoming(rs, sid, tx_id) + (if e.sink_stream_id
            == sid && e.sink_tx_id == tx_id {
            seq![e]
        } else {
            Seq::<RelView>::empty()
        }),
{
    assert(rs.push(e).drop_last() =~= rs);
    assert(rs.push(e).last() == e);
}

proof fn lemma_rels_outgoing_push(rs: Seq<RelView>, e: RelView, sid: int, tx_id: int)
    ensures
        rels_outgoing(rs.push(e), sid, tx_id) == rels_outgoing(rs, sid, tx_id) + (
        if e.source_stream_id == sid && e.source_tx_id == tx_id {
            seq![e]
        } else {
            Seq::<RelView>::empty()
        }),
{
    assert(rs.push(e).drop_last() =~= rs);
    assert(rs.push(e).last() == e);
}

/// The relations whose sink is the given transaction, as owned values.
#[verifier::loop_isolation(false)]
fn collect_incoming(v: &Vec<TxRelation>, sid: usize, tx_id: usize) -> (r: Vec<TxRelation>)
    ensures
        rels_view(r@) == rels_incoming(rels_view(v@), sid as int, tx_id as int),
{
    let mut out: Vec<TxRelation> = Vec::new();
    let mut i: usize = 0;
    let n = v.len();
    proof {
        assert(rels_view(v@).take(0) =~= Seq::<RelView>::empty());
        assert(rels_view(out@) =~= Seq::<RelView>::empty());
    }
    while i < n
        invariant
            i <= n,
            rels_view(out@) == rels_incoming(rels_view(v@).take(i as int), sid as int, tx_id as int),
        decreases n - i,
    {
        proof {
            assert(rels_view(v@).take(i + 1) =~= rels_view(v@).take(i as int).push(
                rels_view(v@)[i as int],
            ));
            lemma_rels_incoming_push(
                rels_view(v@).take(i as int),
                rels_view(v@)[i as int],
                sid as int,
                tx_id as int,
            );
        }
        let ghost pre = rels_view(out@);
        if v[i].sink_stream_id == sid && v[i].sink_tx_id == tx_id {
            out.push(v[i].duplicate());
            proof {
                assert(rels_view(out@) =~= pre.push(rels_view(v@)[i as int]));
                assert(pre.push(rels_view(v@)[i as int]) =~= pre + seq![rels_view(v@)[i as int]]);
            }
        } else {
            proof {
                assert(pre + Seq::<RelView>::empty() =~= pre);
            }
        }
        i = i + 1;
    }
    proof {
        assert(rels_view(v@).take(n as int) =~= rels_view(v@));
    }
    out
}

/// The relations whose source is the given transaction, as owned values.
#[verifier::loop_isolation(false)]
fn collect_outgoing(v: &Vec<TxRelation>, sid: usize, tx_id: usize) -> (r: Vec<TxRelation>)
    ensures
        rels_view(r@) == rels_outgoing(rels_view(v@), sid as int, tx_id as int),
{
    let mut out: Vec<TxRelation> = Vec::new();
    let mut i: usize = 0;
    let n = v.len();
    proof {
        assert(rels_view(v@).take(0) =~= Seq::<RelView>::empty());
        assert(rels_view(out@) =~= Seq::<RelView>::empty());
    }
    while i < n
        invariant
            i <= n,
            rels_view(out@) == rels_outgoing(rels_view(v@).take(i as int), sid as int, tx_id as int),
        decreases n - i,
    {
        proof {
            assert(rels_view(v@).take(i + 1) =~= rels_view(v@).take(i as int).push(
                rels_view(v@)[i as int],
            ));
            lemma_rels_outgoing_push(
                rels_view(v@).take(i as int),
                rels_view(v@)[i as int],
                sid as int,
                tx_id as int,
            );
        }
        let ghost pre = rels_view(out@);
        if v[i].source_stream_id == sid && v[i].source_tx_id == tx_id {
            out.push(v[i].duplicate());
            proof {
                assert(rels_view(out@) =~= pre.push(rels_view(v@)[i as int]));
                assert(pre.push(rels_view(v@)[i as int]) =~= pre + seq![rels_view(v@)[i as int]]);
            }
        } else {
            proof {
                assert(pre + Seq::<RelView>::empty() =~= pre);
            }
        }
        i = i + 1;
    }
    proof {
        assert(rels_view(v@).take(n as int) =~= rels_view(v@));
    }
    out
}

impl FTR {
    fn find_tx_in_idx(&self, g: usize, t: usize, tx_id: usize) -> (r: Option<usize>)
        requires
            g < self.tx_generators@.len(),
            t <= self.tx_generators@[g as int].transactions@.len(),
        ensures
            match find_tx_in(self@.generators[g as int].transactions, t as int, tx_id as int) {
                None => r is None,
                Some(w) => r == Some(w as usize) && 0 <= w < self@.generators[g as int].transactions.len(),
            },
        decreases self.tx_generators@[g as int].transactions@.len() - t,
    {
        let n = self.tx_generators[g].transactions.len();
        if t >= n {
            return None;
        }
        if self.tx_generators[g].transactions[t].event.tx_id == tx_id {
            Some(t)
        } else {
            self.find_tx_in_idx(g, t + 1, tx_id)
        }
    }

    fn find_tx_idx(&self, g: usize, stream_id: usize, tx_id: usize) -> (r: Option<(usize, usize)>)
        requires
            g <= self.tx_generators@.len(),
        ensures
            match find_tx(self@.generators, g as int, stream_id as int, tx_id as int) {
                None => r is None,
                Some((w, t)) => r == Some((w as usize, t as usize)) && 0 <= w
                    < self@.generators.len() && 0 <= t < self@.generators[w].transactions.len(),
            },
        decreases self.tx_generators@.len() - g,
    {
        let n = self.tx_generators.len();
        if g >= n {
            return None;
        }
        if self.tx_generators[g].stream_id == stream_id {
            match self.find_tx_in_idx(g, 0, tx_id) {
                Some(t) => Some((g, t)),
                None => self.find_tx_idx(g + 1, stream_id, tx_id),
            }
        } else {
            self.find_tx_idx(g + 1, stream_id, tx_id)
        }
    }

    /// Looks a transaction up by stream and transaction id, with its
    /// relations resolved: the returned copy carries every relation whose
    /// sink is this transaction in its incoming list and every relation
    /// whose source is this transaction in its outgoing list, in record
    /// order. Absence means the stream's transactions are not loaded, or no
    /// such transaction exists: resolution is deferred, not an error.
    pub fn get_transaction(&self, stream_id: usize, tx_id: usize) -> (r: Option<Transaction>)
        ensures
            match find_tx(self@.generators, 0, stream_id as int, tx_id as int) {
                None => r is None,
                Some((g, t)) => r matches Some(tx) && tx@ == (TxView {
                    inc_relations: rels_incoming(self@.relations, stream_id as int, tx_id as int),
                    out_relations: rels_outgoing(self@.relations, stream_id as int, tx_id as int),
                    ..self@.generators[g].transactions[t]
                }),
            },
    {
        let ng = self.tx_generators.len();
        let (g, t) = match self.find_tx_idx(0, stream_id, tx_id) {
            None => {
                return None;
            },
            Some(x) => x,
        };
        proof {
            assert(self@.generators.len() == self.tx_generators@.len());
        }
        let ntx = self.tx_generators[g].transactions.len();
        proof {
            assert(self@.generators[g as int].transactions.len() == self.tx_generators@[
            g as int].transactions@.len());
        }
        let found = self.tx_generators[g].transactions[t].duplicate();
        let inc_relations = collect_incoming(&self.tx_relations, stream_id, tx_id);
        let out_relations = collect_outgoing(&self.tx_relations, stream_id, tx_id);
        let tx = Transaction {
            event: found.event,
            attributes: found.attributes,
            inc_relations,
            out_relations,
        };
        proof {
            assert(tx@ =~~= TxView {
                inc_relations: rels_incoming(self@.relations, stream_id as int, tx_id as int),
                out_relations: rels_outgoing(self@.relations, stream_id as int, tx_id as int),
                ..self@.generators[g as int].transactions[t as int]
            });
        }
        Some(tx)
    }
}

} // verus!
