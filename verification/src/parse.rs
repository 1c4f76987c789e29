//! The header/index pass: one forward scan over the trace bytes that
//! produces the store's immutable metadata — time scale, maximum timestamp,
//! string dictionary, stream and generator definitions, block descriptors
//! and relations — without decoding any block's transactions. Its cost is
//! bounded by the header and index size, never by the number of recorded
//! transactions. The pass is proved against a spec-level record decoder:
//! parsing succeeds exactly when the spec decoder accepts the bytes, and the
//! resulting store is its value.

use vstd::prelude::*;

use crate::bigint::{bigint_from_bytes_le, bigint_from_u64, bigint_lt, le_bytes_val};
use crate::dict::{dictv_lookup, DictV, StrDict};
use crate::primitive::{
    bytes_to_string, lemma_rawstr_advances, lemma_vdec_advances, lossy_utf8, rawstr_dec,
    read_rawstr, read_varint, unzigzag, vdec, zigzag,
};
use crate::types::{
    find_gen, find_stream, lemma_find_gen_from_none, lemma_find_gen_from_range,
    lemma_find_gen_push, lemma_find_stream_from_none, lemma_find_stream_from_range,
    lemma_find_stream_push, lemma_find_stream_update, wf, FtrView,
    GenView, RelView, StreamView, Timescale, TxGenerator, TxRelation, TxStream, FTR,
};
use crate::FtrError;

verus! {

/// The store's view before any record was decoded.
pub open spec fn init_view(file_name: Seq<char>) -> FtrView {
    FtrView {
        time_scale: Timescale::Undefined,
        max_timestamp: 0,
        dict: Seq::empty(),
        streams: Seq::empty(),
        generators: Seq::empty(),
        relations: Seq::empty(),
        file_name: file_name,
    }
}

/// No generator holds transactions: true after the index pass, which never
/// opens a block.
pub open spec fn all_unloaded(f: FtrView) -> bool {
    forall|i: int|
        0 <= i < f.generators.len() ==> (#[trigger] f.generators[i]).transactions.len() == 0
}

/// Spec decoder for a tagged string: a dictionary key, then either a
/// back-reference to an assigned key or an inline string that assigns it.
pub open spec fn tstr_dec(s: Seq<u8>, i: int, d: DictV) -> Option<(Seq<char>, int, DictV)> {
    match vdec(s, i) {
        None => None,
        Some((key, j1)) => if key > usize::MAX {
            None
        } else {
            match vdec(s, j1) {
                None => None,
                Some((flag, j2)) => if flag == 0 {
                    match dictv_lookup(d, key) {
                        None => None,
                        Some(v) => Some((v, j2, d)),
                    }
                } else if flag == 1 {
                    match rawstr_dec(s, j2) {
                        None => None,
                        Some((raw, j3)) => if dictv_lookup(d, key) is Some {
                            None
                        } else {
                            Some((lossy_utf8(raw), j3, d.push((key, lossy_utf8(raw)))))
                        },
                    }
                } else {
                    None
                },
            }
        },
    }
}

/// A decoded tagged string lies inside the input and advances the cursor.
pub proof fn lemma_tstr_advances(s: Seq<u8>, i: int, d: DictV)
    ensures
        tstr_dec(s, i, d) matches Some((v, j, d2)) ==> i < j <= s.len(),
{
    lemma_vdec_advances(s, i);
    match vdec(s, i) {
        None => {},
        Some((key, j1)) => {
            lemma_vdec_advances(s, j1);
            lemma_rawstr_advances(s, j1);
            match vdec(s, j1) {
                None => {},
                Some((flag, j2)) => {
                    lemma_rawstr_advances(s, j2);
                },
            }
        },
    }
}

/// Spec decoder for one top-level record at `i`: the store after the record
/// and the cursor after it.
pub open spec fn record_dec(s: Seq<u8>, i: int, f: FtrView) -> Option<(FtrView, int)> {
    match vdec(s, i) {
        None => None,
        Some((tag, j0)) => if tag == 1 {
            // Time scale: zigzag-coded signed exponent.
            match vdec(s, j0) {
                None => None,
                Some((e, j1)) => if e > u64::MAX {
                    None
                } else {
                    Some((FtrView { time_scale: Timescale::spec_timescale(zigzag(e)), ..f }, j1))
                },
            }
        } else if tag == 2 {
            // Maximum timestamp: little-endian magnitude; the store keeps the
            // maximum across all such records.
            match rawstr_dec(s, j0) {
                None => None,
                Some((raw, j1)) => Some(
                    (
                        FtrView {
                            max_timestamp: if f.max_timestamp < le_bytes_val(raw) {
                                le_bytes_val(raw) as int
                            } else {
                                f.max_timestamp
                            },
                            ..f
                        },
                        j1,
                    ),
                ),
            }
        } else if tag == 3 {
            // Dictionary assignment: key and inline string.
            match vdec(s, j0) {
                None => None,
                Some((key, j1)) => if key > usize::MAX {
                    None
                } else {
                    match rawstr_dec(s, j1) {
                        None => None,
                        Some((raw, j2)) => if dictv_lookup(f.dict, key) is Some {
                            None
                        } else {
                            Some(
                                (
                                    FtrView { dict: f.dict.push((key, lossy_utf8(raw))), ..f },
                                    j2,
                                ),
                            )
                        },
                    }
                },
            }
        } else if tag == 4 {
            // Stream definition: id, name, kind.
            match vdec(s, j0) {
                None => None,
                Some((id, j1)) => if id > usize::MAX {
                    None
                } else {
                    match tstr_dec(s, j1, f.dict) {
                        None => None,
                        Some((name, j2, d1)) => match tstr_dec(s, j2, d1) {
                            None => None,
                            Some((kind, j3, d2)) => if find_stream(f.streams, id as int) is Some {
                                None
                            } else {
                                Some(
                                    (
                                        FtrView {
                                            dict: d2,
                                            streams: f.streams.push(
                                                StreamView {
                                                    id: id as int,
                                                    name: name,
                                                    kind: kind,
                                                    generators: Seq::empty(),
                                                    blocks: Seq::empty(),
                                                    block_data: Seq::empty(),
                                                },
                                            ),
                                            ..f
                                        },
                                        j3,
                                    ),
                                )
                            },
                        },
                    }
                },
            }
        } else if tag == 5 {
            // Generator definition: id, owning stream id, name. The owning
            // stream must already be defined.
            match vdec(s, j0) {
                None => None,
                Some((id, j1)) => if id > usize::MAX {
                    None
                } else {
                    match vdec(s, j1) {
                        None => None,
                        Some((sid, j2)) => if sid > usize::MAX {
                            None
                        } else {
                            match tstr_dec(s, j2, f.dict) {
                                None => None,
                                Some((name, j3, d1)) => match find_stream(f.streams, sid as int) {
                                    None => None,
                                    Some(k) => if find_gen(f.generators, id as int) is Some {
                                        None
                                    } else {
                                        Some(
                                            (
                                                FtrView {
                                                    dict: d1,
                                                    streams: f.streams.update(
                                                        k,
                                                        StreamView {
                                                            generators: f.streams[k].generators
                                                                .push(id as int),
                                                            ..f.streams[k]
                                                        },
                                                    ),
                                                    generators: f.generators.push(
                                                        GenView {
                                                            id: id as int,
                                                            stream_id: sid as int,
                                                            name: name,
                                                            transactions: Seq::empty(),
                                                        },
                                                    ),
                                                    ..f
                                                },
                                                j3,
                                            ),
                                        )
                                    },
                                },
                            }
                        },
                    }
                },
            }
        } else if tag == 6 {
            // Block index: owning stream id, block id, compressed flag, and
            // the block's payload, kept undecoded.
            match vdec(s, j0) {
                None => None,
                Some((sid, j1)) => if sid > usize::MAX {
                    None
                } else {
                    match vdec(s, j1) {
                        None => None,
                        Some((bid, j2)) => if bid > u64::MAX {
                            None
                        } else {
                            match vdec(s, j2) {
                                None => None,
                                Some((flag, j3)) => if flag > u64::MAX {
                                    None
                                } else {
                                    match rawstr_dec(s, j3) {
                                        None => None,
                                        Some((payload, j4)) => match find_stream(
                                            f.streams,
                                            sid as int,
                                        ) {
                                            None => None,
                                            Some(k) => Some(
                                                (
                                                    FtrView {
                                                        streams: f.streams.update(
                                                            k,
                                                            StreamView {
                                                                blocks: f.streams[k].blocks.push(
                                                                    (bid as u64, flag != 0),
                                                                ),
                                                                block_data: f.streams[
                                                                k].block_data.push(payload),
                                                                ..f.streams[k]
                                                            },
                                                        ),
                                                        ..f
                                                    },
                                                    j4,
                                                ),
                                            ),
                                        },
                                    }
                                },
                            }
                        },
                    }
                },
            }
        } else if tag == 7 {
            // Relation: name and the two transaction/stream endpoints. Both
            // endpoint streams must already be defined.
            match tstr_dec(s, j0, f.dict) {
                None => None,
                Some((name, j1, d1)) => match vdec(s, j1) {
                    None => None,
                    Some((stx, j2)) => if stx > usize::MAX {
                        None
                    } else {
                        match vdec(s, j2) {
                            None => None,
                            Some((ktx, j3)) => if ktx > usize::MAX {
                                None
                            } else {
                                match vdec(s, j3) {
                                    None => None,
                                    Some((sst, j4)) => if sst > usize::MAX {
                                        None
                                    } else {
                                        match vdec(s, j4) {
                                            None => None,
                                            Some((kst, j5)) => if kst > usize::MAX {
                                                None
                                            } else if find_stream(f.streams, sst as int) is None
                                                || find_stream(f.streams, kst as int) is None {
                                                None
                                            } else {
                                                Some(
                                                    (
                                                        FtrView {
                                                            dict: d1,
                                                            relations: f.relations.push(
                                                                RelView {
                                                                    name: name,
                                                                    source_tx_id: stx as int,
                                                                    sink_tx_id: ktx as int,
                                                                    source_stream_id: sst as int,
                                                                    sink_stream_id: kst as int,
                                                                },
                                                            ),
                                                            ..f
                                                        },
                                                        j5,
                                                    ),
                                                )
                                            },
                                        }
                                    },
                                }
                            },
                        }
                    },
                },
            }
        } else {
            None
        },
    }
}

/// A decoded record lies inside the input and advances the cursor.
pub proof fn lemma_record_advances(s: Seq<u8>, i: int, f: FtrView)
    ensures
        record_dec(s, i, f) matches Some((f2, j)) ==> i < j <= s.len(),
{
    lemma_vdec_advances(s, i);
    match vdec(s, i) {
        None => {},
        Some((tag, j0)) => {
            lemma_vdec_advances(s, j0);
            lemma_rawstr_advances(s, j0);
            lemma_tstr_advances(s, j0, f.dict);
            match vdec(s, j0) {
                None => {},
                Some((a1, j1)) => {
                    lemma_vdec_advances(s, j1);
                    lemma_rawstr_advances(s, j1);
                    lemma_tstr_advances(s, j1, f.dict);
                    match vdec(s, j1) {
                        None => {},
                        Some((a2, j2)) => {
                            lemma_vdec_advances(s, j2);
                            lemma_tstr_advances(s, j2, f.dict);
                            match vdec(s, j2) {
                                None => {},
                                Some((a3, j3)) => {
                                    lemma_vdec_advances(s, j3);
                                    lemma_rawstr_advances(s, j3);
                                },
                            }
                        },
                    }
                },
            }
            match tstr_dec(s, j0, f.dict) {
                None => {},
                Some((name, j1, d1)) => {
                    lemma_vdec_advances(s, j1);
                    match vdec(s, j1) {
                        None => {},
                        Some((a1, j2)) => {
                            lemma_vdec_advances(s, j2);
                            match vdec(s, j2) {
                                None => {},
                                Some((a2, j3)) => {
                                    lemma_vdec_advances(s, j3);
                                    match vdec(s, j3) {
                                        None => {},
                                        Some((a3, j4)) => {
                                            lemma_vdec_advances(s, j4);
                                        },
                                    }
                                },
                            }
                        },
                    }
                },
            }
            match vdec(s, j0) {
                None => {},
                Some((a1, j1)) => {
                    match tstr_dec(s, j1, f.dict) {
                        None => {},
                        Some((name, j2, d1)) => {
                            lemma_tstr_advances(s, j1, f.dict);
                            lemma_tstr_advances(s, j2, d1);
                        },
                    }
                    match vdec(s, j1) {
                        None => {},
                        Some((a2, j2)) => {
                            lemma_tstr_advances(s, j2, f.dict);
                            match vdec(s, j2) {
                                None => {},
                                Some((a3, j3)) => {
                                    lemma_vdec_advances(s, j3);
                                    lemma_rawstr_advances(s, j3);
                                },
                            }
                        },
                    }
                },
            }
        },
    }
}

/// What a sequence contains, it still contains after a push.
proof fn lemma_push_contains<T>(s: Seq<T>, x: T, y: T)
    requires
        s.contains(y),
    ensures
        s.push(x).contains(y),
{
    let w = choose|w: int| 0 <= w < s.len() && s[w] == y;
    assert(s.push(x)[w] == y);
}

/// One decoded record preserves referential integrity and materializes no
/// transactions.
#[verifier::rlimit(100)]
pub proof fn lemma_record_dec_wf(s: Seq<u8>, i: int, f: FtrView)
    requires
        wf(f),
        all_unloaded(f),
    ensures
        record_dec(s, i, f) matches Some((f2, j)) ==> wf(f2) && all_unloaded(f2),
{
    match record_dec(s, i, f) {
        None => {},
        Some((f2, j)) => {
            let tag = vdec(s, i)->Some_0.0;
            if tag == 4 {
                // A new stream with a fresh id and no generators or blocks.
                lemma_find_stream_from_none(f.streams, 0, f2.streams.last().id);
                assert forall|p: int, q: int| 0 <= p < q < f2.streams.len() implies f2.streams[
                    p
                ].id != f2.streams[q].id by {
                    assert(q < f.streams.len() + 1);
                    if q < f.streams.len() {
                    } else {
                        assert(f2.streams[q] == f2.streams.last());
                        assert(f2.streams[p] == f.streams[p]);
                    }
                }
                assert forall|gi: int| 0 <= gi < f2.generators.len() implies {
                    &&& #[trigger] find_stream(f2.streams, f2.generators[gi].stream_id) is Some
                    &&& f2.streams[find_stream(
                        f2.streams,
                        f2.generators[gi].stream_id,
                    ).unwrap()].generators.contains(f2.generators[gi].id)
                } by {
                    lemma_find_stream_push(
                        f.streams,
                        0,
                        f2.streams.last(),
                        f2.generators[gi].stream_id,
                    );
                    lemma_find_stream_from_range(f.streams, 0, f.generators[gi].stream_id);
                    let k = find_stream(f.streams, f.generators[gi].stream_id).unwrap();
                    assert(f2.streams[k] == f.streams[k]);
                }
                assert forall|p: int, q: int|
                    0 <= p < f2.streams.len() && 0 <= q < f2.streams[p].generators.len() implies {
                    &&& #[trigger] find_gen(f2.generators, f2.streams[p].generators[q]) is Some
                    &&& f2.generators[find_gen(
                        f2.generators,
                        f2.streams[p].generators[q],
                    ).unwrap()].stream_id == f2.streams[p].id
                } by {
                    assert(p < f.streams.len() + 1);
                    if p < f.streams.len() {
                        assert(f2.streams[p] == f.streams[p]);
                    } else {
                        assert(f2.streams[p] == f2.streams.last());
                    }
                }
                assert forall|ri: int| 0 <= ri < f2.relations.len() implies {
                    &&& find_stream(f2.streams, #[trigger] f2.relations[ri].source_stream_id)
                        is Some
                    &&& find_stream(f2.streams, f2.relations[ri].sink_stream_id) is Some
                } by {
                    lemma_find_stream_push(
                        f.streams,
                        0,
                        f2.streams.last(),
                        f.relations[ri].source_stream_id,
                    );
                    lemma_find_stream_push(
                        f.streams,
                        0,
                        f2.streams.last(),
                        f.relations[ri].sink_stream_id,
                    );
                }
                assert forall|p: int| 0 <= p < f2.streams.len() implies (#[trigger] f2.streams[
                    p
                ].block_data).len() == f2.streams[p].blocks.len() by {
                    if p < f.streams.len() {
                        assert(f2.streams[p] == f.streams[p]);
                    } else {
                        assert(f2.streams[p] == f2.streams.last());
                    }
                }
            } else if tag == 5 {
                // A new generator with a fresh id, appended to its (already
                // defined) owning stream's list.
                let sid = vdec(s, vdec(s, vdec(s, i)->Some_0.1)->Some_0.1)->Some_0.0 as int;
                let gid = vdec(s, vdec(s, i)->Some_0.1)->Some_0.0 as int;
                let k = find_stream(f.streams, sid).unwrap();
                lemma_find_stream_from_range(f.streams, 0, sid);
                lemma_find_gen_from_none(f.generators, 0, gid);
                let newgen = f2.generators.last();
                let news = f2.streams[k];
                assert forall|p: int, q: int| 0 <= p < q < f2.generators.len() implies f2.generators[
                    p
                ].id != f2.generators[q].id by {
                    if q < f.generators.len() {
                    } else {
                        assert(f2.generators[q] == newgen);
                        assert(f2.generators[p] == f.generators[p]);
                    }
                }
                assert forall|p: int, q: int| 0 <= p < q < f2.streams.len() implies f2.streams[
                    p
                ].id != f2.streams[q].id by {
                    assert(f2.streams[p].id == f.streams[p].id);
                    assert(f2.streams[q].id == f.streams[q].id);
                }
                assert forall|gi: int| 0 <= gi < f2.generators.len() implies {
                    &&& #[trigger] find_stream(f2.streams, f2.generators[gi].stream_id) is Some
                    &&& f2.streams[find_stream(
                        f2.streams,
                        f2.generators[gi].stream_id,
                    ).unwrap()].generators.contains(f2.generators[gi].id)
                } by {
                    lemma_find_stream_update(
                        f.streams,
                        0,
                        k,
                        news,
                        f2.generators[gi].stream_id,
                    );
                    if gi < f.generators.len() {
                        let kg = find_stream(f.streams, f.generators[gi].stream_id).unwrap();
                        lemma_find_stream_from_range(f.streams, 0, f.generators[gi].stream_id);
                        if kg == k {
                            lemma_push_contains(
                                f.streams[k].generators,
                                gid,
                                f.generators[gi].id,
                            );
                        } else {
                            assert(f2.streams[kg] == f.streams[kg]);
                        }
                    } else {
                        assert(f2.generators[gi] == newgen);
                        assert(news.generators.last() == gid);
                    }
                }
                assert forall|p: int, q: int|
                    0 <= p < f2.streams.len() && 0 <= q < f2.streams[p].generators.len() implies {
                    &&& #[trigger] find_gen(f2.generators, f2.streams[p].generators[q]) is Some
                    &&& f2.generators[find_gen(
                        f2.generators,
                        f2.streams[p].generators[q],
                    ).unwrap()].stream_id == f2.streams[p].id
                } by {
                    lemma_find_gen_push(f.generators, 0, newgen, f2.streams[p].generators[q]);
                    if p == k && q == f.streams[k].generators.len() {
                        assert(f2.streams[p].generators[q] == gid);
                        assert(f2.generators[f.generators.len() as int] == newgen);
                    } else {
                        assert(f2.streams[p].generators[q] == f.streams[p].generators[q]);
                        let w = find_gen(f.generators, f.streams[p].generators[q]).unwrap();
                        lemma_find_gen_from_range(f.generators, 0, f.streams[p].generators[q]);
                        assert(f2.generators[w] == f.generators[w]);
                    }
                }
                assert forall|ri: int| 0 <= ri < f2.relations.len() implies {
                    &&& find_stream(f2.streams, #[trigger] f2.relations[ri].source_stream_id)
                        is Some
                    &&& find_stream(f2.streams, f2.relations[ri].sink_stream_id) is Some
                } by {
                    lemma_find_stream_update(f.streams, 0, k, news, f.relations[ri].source_stream_id);
                    lemma_find_stream_update(f.streams, 0, k, news, f.relations[ri].sink_stream_id);
                }
                assert forall|p: int| 0 <= p < f2.streams.len() implies (#[trigger] f2.streams[
                    p
                ].block_data).len() == f2.streams[p].blocks.len() by {
                    if p != k {
                        assert(f2.streams[p] == f.streams[p]);
                    }
                }
            } else if tag == 6 {
                // One more block descriptor and payload on an existing stream.
                let sid = vdec(s, vdec(s, i)->Some_0.1)->Some_0.0 as int;
                let k = find_stream(f.streams, sid).unwrap();
                lemma_find_stream_from_range(f.streams, 0, sid);
                let news = f2.streams[k];
                assert forall|p: int, q: int| 0 <= p < q < f2.streams.len() implies f2.streams[
                    p
                ].id != f2.streams[q].id by {
                    assert(f2.streams[p].id == f.streams[p].id);
                    assert(f2.streams[q].id == f.streams[q].id);
                }
                assert forall|gi: int| 0 <= gi < f2.generators.len() implies {
                    &&& #[trigger] find_stream(f2.streams, f2.generators[gi].stream_id) is Some
                    &&& f2.streams[find_stream(
                        f2.streams,
                        f2.generators[gi].stream_id,
                    ).unwrap()].generators.contains(f2.generators[gi].id)
                } by {
                    lemma_find_stream_update(f.streams, 0, k, news, f.generators[gi].stream_id);
                    let kg = find_stream(f.streams, f.generators[gi].stream_id).unwrap();
                    lemma_find_stream_from_range(f.streams, 0, f.generators[gi].stream_id);
                    if kg != k {
                        assert(f2.streams[kg] == f.streams[kg]);
                    } else {
                        assert(f2.streams[kg].generators == f.streams[kg].generators);
                    }
                }
                assert forall|p: int, q: int|
                    0 <= p < f2.streams.len() && 0 <= q < f2.streams[p].generators.len() implies {
                    &&& #[trigger] find_gen(f2.generators, f2.streams[p].generators[q]) is Some
                    &&& f2.generators[find_gen(
                        f2.generators,
                        f2.streams[p].generators[q],
                    ).unwrap()].stream_id == f2.streams[p].id
                } by {
                    if p != k {
                        assert(f2.streams[p] == f.streams[p]);
                    } else {
                        assert(f2.streams[p].generators == f.streams[p].generators);
                        assert(f2.streams[p].id == f.streams[p].id);
                    }
                }
                assert forall|ri: int| 0 <= ri < f2.relations.len() implies {
                    &&& find_stream(f2.streams, #[trigger] f2.relations[ri].source_stream_id)
                        is Some
                    &&& find_stream(f2.streams, f2.relations[ri].sink_stream_id) is Some
                } by {
                    lemma_find_stream_update(f.streams, 0, k, news, f.relations[ri].source_stream_id);
                    lemma_find_stream_update(f.streams, 0, k, news, f.relations[ri].sink_stream_id);
                }
                assert forall|p: int| 0 <= p < f2.streams.len() implies (#[trigger] f2.streams[
                    p
                ].block_data).len() == f2.streams[p].blocks.len() by {
                    if p != k {
                        assert(f2.streams[p] == f.streams[p]);
                    }
                }
            } else {
                // Scalar fields, the dictionary, or one more relation whose
                // endpoint streams were checked: the graph shape is untouched.
                assert(f2.streams == f.streams);
                assert(f2.generators == f.generators);
                if tag == 7 {
                    assert forall|ri: int| 0 <= ri < f2.relations.len() implies {
                        &&& find_stream(f2.streams, #[trigger] f2.relations[ri].source_stream_id)
                            is Some
                        &&& find_stream(f2.streams, f2.relations[ri].sink_stream_id) is Some
                    } by {
                        if ri < f.relations.len() {
                            assert(f2.relations[ri] == f.relations[ri]);
                        } else {
                            assert(f2.relations[ri] == f2.relations.last());
                        }
                    }
                }
            }
        },
    }
}

/// Spec decoder for the whole header: records back to back until the input
/// is exhausted.
pub open spec fn records_dec(s: Seq<u8>, i: int, f: FtrView) -> Option<FtrView>
    decreases s.len() - i,
{
    if i == s.len() {
        Some(f)
    } else if i < 0 || i > s.len() {
        None
    } else {
        match record_dec(s, i, f) {
            None => None,
            Some((f2, j)) => if i < j <= s.len() {
                records_dec(s, j, f2)
            } else {
                None
            },
        }
    }
}

/// The whole header preserves referential integrity and materializes no
/// transactions.
pub proof fn lemma_records_dec_wf(s: Seq<u8>, i: int, f: FtrView)
    requires
        wf(f),
        all_unloaded(f),
    ensures
        records_dec(s, i, f) matches Some(f2) ==> wf(f2) && all_unloaded(f2),
    decreases s.len() - i,
{
    if i == s.len() {
    } else if i < 0 || i > s.len() {
    } else {
        match record_dec(s, i, f) {
            None => {},
            Some((f2, j)) => {
                lemma_record_dec_wf(s, i, f);
                if i < j <= s.len() {
                    lemma_records_dec_wf(s, j, f2);
                }
            },
        }
    }
}

/// Reads a tagged string at `pos`, interning an inline string through the
/// dictionary or resolving a back-reference.
fn read_tagged_str(bytes: &[u8], pos: usize, dict: &mut StrDict) -> (r: Result<
    (String, usize),
    FtrError,
>)
    ensures
        match tstr_dec(bytes@, pos as int, old(dict)@) {
            None => r is Err,
            Some((v, j, d2)) => r matches Ok((st, p)) && st@ == v && p == j && final(dict)@ == d2,
        },
{
    let (key, j1) = match read_varint(bytes, pos) {
        Ok(x) => x,
        Err(e) => {
            return Err(e);
        },
    };
    if key > usize::MAX as u64 {
        return Err(FtrError::MalformedVarint);
    }
    let (flag, j2) = match read_varint(bytes, j1) {
        Ok(x) => x,
        Err(e) => {
            return Err(e);
        },
    };
    if flag == 0 {
        match dict.lookup(key as usize) {
            None => Err(FtrError::UnknownDictionaryKey),
            Some(s) => Ok((s.clone(), j2)),
        }
    } else if flag == 1 {
        let (raw, j3) = match read_rawstr(bytes, j2) {
            Ok(x) => x,
            Err(e) => {
                return Err(e);
            },
        };
        let st = bytes_to_string(raw.as_slice());
        match dict.insert(key as usize, st.clone()) {
            Err(e) => Err(e),
            Ok(()) => Ok((st, j3)),
        }
    } else {
        Err(FtrError::UnknownRecordTag)
    }
}

/// Applies the record at `pos` to the store being built, returning the
/// cursor after the record.
#[verifier::rlimit(100)]
fn apply_record(ftr: &mut FTR, bytes: &[u8], pos: usize) -> (r: Result<usize, FtrError>)
    ensures
        match record_dec(bytes@, pos as int, old(ftr)@) {
            None => r is Err,
            Some((f2, j)) => r matches Ok(p) && p == j && final(ftr)@ == f2,
        },
{
    let (tag, j0) = match read_varint(bytes, pos) {
        Ok(x) => x,
        Err(e) => {
            return Err(e);
        },
    };
    if tag == 1 {
        let (e, j1) = match read_varint(bytes, j0) {
            Ok(x) => x,
            Err(er) => {
                return Err(er);
            },
        };
        ftr.time_scale = Timescale::get_timescale(unzigzag(e));
        proof {
            assert(ftr@ =~~= record_dec(bytes@, pos as int, old(ftr)@)->Some_0.0);
        }
        Ok(j1)
    } else if tag == 2 {
        let (raw, j1) = match read_rawstr(bytes, j0) {
            Ok(x) => x,
            Err(er) => {
                return Err(er);
            },
        };
        let b = bigint_from_bytes_le(raw.as_slice());
        if bigint_lt(&ftr.max_timestamp, &b) {
            ftr.max_timestamp = b;
        }
        proof {
            assert(ftr@ =~~= record_dec(bytes@, pos as int, old(ftr)@)->Some_0.0);
        }
        Ok(j1)
    } else if tag == 3 {
        let (key, j1) = match read_varint(bytes, j0) {
            Ok(x) => x,
            Err(er) => {
                return Err(er);
            },
        };
        if key > usize::MAX as u64 {
            return Err(FtrError::MalformedVarint);
        }
        let (raw, j2) = match read_rawstr(bytes, j1) {
            Ok(x) => x,
            Err(er) => {
                return Err(er);
            },
        };
        let st = bytes_to_string(raw.as_slice());
        match ftr.str_dict.insert(key as usize, st) {
            Err(e) => Err(e),
            Ok(()) => {
                proof {
                    assert(ftr@ =~~= record_dec(bytes@, pos as int, old(ftr)@)->Some_0.0);
                }
                Ok(j2)
            },
        }
    } else if tag == 4 {
        let (id, j1) = match read_varint(bytes, j0) {
            Ok(x) => x,
            Err(er) => {
                return Err(er);
            },
        };
        if id > usize::MAX as u64 {
            return Err(FtrError::MalformedVarint);
        }
        let (name, j2) = match read_tagged_str(bytes, j1, &mut ftr.str_dict) {
            Ok(x) => x,
            Err(er) => {
                return Err(er);
            },
        };
        let (kind, j3) = match read_tagged_str(bytes, j2, &mut ftr.str_dict) {
            Ok(x) => x,
            Err(er) => {
                return Err(er);
            },
        };
        if ftr.find_stream_idx(id as usize).is_some() {
            return Err(FtrError::DuplicateId);
        }
        ftr.tx_streams.push(
            TxStream {
                id: id as usize,
                name,
                kind,
                generators: Vec::new(),
                tx_block_ids: Vec::new(),
                block_data: Vec::new(),
            },
        );
        proof {
            assert(ftr@ =~~= record_dec(bytes@, pos as int, old(ftr)@)->Some_0.0);
        }
        Ok(j3)
    } else if tag == 5 {
        let (id, j1) = match read_varint(bytes, j0) {
            Ok(x) => x,
            Err(er) => {
                return Err(er);
            },
        };
        if id > usize::MAX as u64 {
            return Err(FtrError::MalformedVarint);
        }
        let (sid, j2) = match read_varint(bytes, j1) {
            Ok(x) => x,
            Err(er) => {
                return Err(er);
            },
        };
        if sid > usize::MAX as u64 {
            return Err(FtrError::MalformedVarint);
        }
        let (name, j3) = match read_tagged_str(bytes, j2, &mut ftr.str_dict) {
            Ok(x) => x,
            Err(er) => {
                return Err(er);
            },
        };
        let ns = ftr.tx_streams.len();
        let k = match ftr.find_stream_idx(sid as usize) {
            None => {
                return Err(FtrError::ForwardReference);
            },
            Some(k) => k,
        };
        if ftr.find_gen_idx(id as usize).is_some() {
            return Err(FtrError::DuplicateId);
        }
        proof {
            lemma_find_stream_from_range(ftr@.streams, 0, sid as int);
        }
        ftr.tx_generators.push(
            TxGenerator {
                id: id as usize,
                stream_id: sid as usize,
                name,
                transactions: Vec::new(),
            },
        );
        ftr.tx_streams[k].generators.push(id as usize);
        proof {
            assert(ftr@ =~~= record_dec(bytes@, pos as int, old(ftr)@)->Some_0.0);
        }
        Ok(j3)
    } else if tag == 6 {
        let (sid, j1) = match read_varint(bytes, j0) {
            Ok(x) => x,
            Err(er) => {
                return Err(er);
            },
        };
        if sid > usize::MAX as u64 {
            return Err(FtrError::MalformedVarint);
        }
        let (bid, j2) = match read_varint(bytes, j1) {
            Ok(x) => x,
            Err(er) => {
                return Err(er);
            },
        };
        let (flag, j3) = match read_varint(bytes, j2) {
            Ok(x) => x,
            Err(er) => {
                return Err(er);
            },
        };
        let (payload, j4) = match read_rawstr(bytes, j3) {
            Ok(x) => x,
            Err(er) => {
                return Err(er);
            },
        };
        let ns = ftr.tx_streams.len();
        let k = match ftr.find_stream_idx(sid as usize) {
            None => {
                return Err(FtrError::ForwardReference);
            },
            Some(k) => k,
        };
        proof {
            lemma_find_stream_from_range(ftr@.streams, 0, sid as int);
        }
        ftr.tx_streams[k].tx_block_ids.push((bid, flag != 0));
        ftr.tx_streams[k].block_data.push(payload);
        proof {
            let f = old(ftr)@;
            let spec2 = record_dec(bytes@, pos as int, f)->Some_0.0;
            assert(ftr.tx_streams@.len() == f.streams.len());
            assert(forall|p: int|
                0 <= p < f.streams.len() && p != k as int ==> #[trigger] ftr.tx_streams@[p]@
                    == f.streams[p]);
            assert(ftr.tx_streams@[k as int]@.blocks =~~= spec2.streams[k as int].blocks);
            assert(ftr.tx_streams@[k as int]@.block_data =~~= spec2.streams[k as int].block_data);
            assert(ftr.tx_streams@[k as int]@ =~~= spec2.streams[k as int]);
            assert(ftr@.streams =~~= spec2.streams);
            assert(ftr@ =~~= spec2);
        }
        Ok(j4)
    } else if tag == 7 {
        let (name, j1) = match read_tagged_str(bytes, j0, &mut ftr.str_dict) {
            Ok(x) => x,
            Err(er) => {
                return Err(er);
            },
        };
        let (stx, j2) = match read_varint(bytes, j1) {
            Ok(x) => x,
            Err(er) => {
                return Err(er);
            },
        };
        if stx > usize::MAX as u64 {
            return Err(FtrError::MalformedVarint);
        }
        let (ktx, j3) = match read_varint(bytes, j2) {
            Ok(x) => x,
            Err(er) => {
                return Err(er);
            },
        };
        if ktx > usize::MAX as u64 {
            return Err(FtrError::MalformedVarint);
        }
        let (sst, j4) = match read_varint(bytes, j3) {
            Ok(x) => x,
            Err(er) => {
                return Err(er);
            },
        };
        if sst > usize::MAX as u64 {
            return Err(FtrError::MalformedVarint);
        }
        let (kst, j5) = match read_varint(bytes, j4) {
            Ok(x) => x,
            Err(er) => {
                return Err(er);
            },
        };
        if kst > usize::MAX as u64 {
            return Err(FtrError::MalformedVarint);
        }
        if ftr.find_stream_idx(sst as usize).is_none() {
            return Err(FtrError::ForwardReference);
        }
        if ftr.find_stream_idx(kst as usize).is_none() {
            return Err(FtrError::ForwardReference);
        }
        ftr.tx_relations.push(
            TxRelation {
                name,
                source_tx_id: stx as usize,
                sink_tx_id: ktx as usize,
                source_stream_id: sst as usize,
                sink_stream_id: kst as usize,
            },
        );
        proof {
            assert(ftr@ =~~= record_dec(bytes@, pos as int, old(ftr)@)->Some_0.0);
        }
        Ok(j5)
    } else {
        Err(FtrError::UnknownRecordTag)
    }
}

/// Runs the header/index pass over one whole trace. On success the returned
/// store is exactly what the spec-level decoder makes of the bytes: its
/// metadata graph is referentially intact and no transactions are
/// materialized. On any decode error no store is returned at all.
pub fn parse_ftr(bytes: &[u8]) -> (r: Result<FTR, FtrError>)
    ensures
        match r {
            Ok(f) => {
                &&& records_dec(bytes@, 0, init_view(Seq::<char>::empty())) == Some(f@)
                &&& wf(f@)
                &&& all_unloaded(f@)
            },
            Err(_) => records_dec(bytes@, 0, init_view(Seq::<char>::empty())) is None,
        },
{
    let mut ftr = FTR {
        time_scale: Timescale::Undefined,
        max_timestamp: bigint_from_u64(0),
        str_dict: StrDict::new(),
        tx_streams: Vec::new(),
        tx_generators: Vec::new(),
        tx_relations: Vec::new(),
        file_name: String::new(),
    };
    proof {
        assert(ftr@ =~~= init_view(Seq::<char>::empty()));
    }
    let len = bytes.len();
    let mut pos: usize = 0;
    while pos < len
        invariant
            pos <= len,
            len == bytes@.len(),
            wf(ftr@),
            all_unloaded(ftr@),
            records_dec(bytes@, pos as int, ftr@) == records_dec(
                bytes@,
                0,
                init_view(Seq::<char>::empty()),
            ),
        decreases len - pos,
    {
        let ghost pre = ftr@;
        let next = match apply_record(&mut ftr, bytes, pos) {
            Ok(j) => j,
            Err(e) => {
                return Err(e);
            },
        };
        proof {
            lemma_record_advances(bytes@, pos as int, pre);
            lemma_record_dec_wf(bytes@, pos as int, pre);
        }
        pos = next;
    }
    Ok(ftr)
}

} // verus!
