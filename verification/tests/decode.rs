use ftr::parse::parse_ftr;
use ftr::types::{AttributeType, DataType, Timescale};
use ftr::FtrError;

// --- wire-format writers -------------------------------------------------

fn put_varint(mut x: u64, out: &mut Vec<u8>) {
    loop {
        let b = (x & 0x7f) as u8;
        x >>= 7;
        if x == 0 {
            out.push(b);
            return;
        }
        out.push(b | 0x80);
    }
}

fn zigzag(n: i64) -> u64 {
    if n >= 0 {
        (n as u64) * 2
    } else {
        (-(n + 1) as u64) * 2 + 1
    }
}

fn put_rawstr(bytes: &[u8], out: &mut Vec<u8>) {
    put_varint(bytes.len() as u64, out);
    out.extend_from_slice(bytes);
}

fn put_tstr_inline(key: u64, s: &str, out: &mut Vec<u8>) {
    put_varint(key, out);
    put_varint(1, out);
    put_rawstr(s.as_bytes(), out);
}

fn put_tstr_ref(key: u64, out: &mut Vec<u8>) {
    put_varint(key, out);
    put_varint(0, out);
}

fn rec_timescale(exp: i64, out: &mut Vec<u8>) {
    put_varint(1, out);
    put_varint(zigzag(exp), out);
}

fn rec_max_timestamp(le_bytes: &[u8], out: &mut Vec<u8>) {
    put_varint(2, out);
    put_rawstr(le_bytes, out);
}

fn rec_dict(key: u64, s: &str, out: &mut Vec<u8>) {
    put_varint(3, out);
    put_varint(key, out);
    put_rawstr(s.as_bytes(), out);
}

fn rec_stream(id: u64, name_key: u64, name: &str, kind_key: u64, kind: &str, out: &mut Vec<u8>) {
    put_varint(4, out);
    put_varint(id, out);
    put_tstr_inline(name_key, name, out);
    put_tstr_inline(kind_key, kind, out);
}

fn rec_generator(id: u64, stream_id: u64, name_key: u64, name: &str, out: &mut Vec<u8>) {
    put_varint(5, out);
    put_varint(id, out);
    put_varint(stream_id, out);
    put_tstr_inline(name_key, name, out);
}

fn rec_block(stream_id: u64, block_id: u64, compressed: bool, payload: &[u8], out: &mut Vec<u8>) {
    put_varint(6, out);
    put_varint(stream_id, out);
    put_varint(block_id, out);
    put_varint(if compressed { 1 } else { 0 }, out);
    put_rawstr(payload, out);
}

fn rec_relation(
    name_key: u64,
    name: &str,
    src_tx: u64,
    sink_tx: u64,
    src_stream: u64,
    sink_stream: u64,
    out: &mut Vec<u8>,
) {
    put_varint(7, out);
    put_tstr_inline(name_key, name, out);
    put_varint(src_tx, out);
    put_varint(sink_tx, out);
    put_varint(src_stream, out);
    put_varint(sink_stream, out);
}

struct AttrRec {
    kind: u64,
    data_type: u64,
    name_key: u64,
    value: i64,
}

fn put_tx(tx_id: u64, gen_id: u64, start: i64, end: i64, attrs: &[AttrRec], out: &mut Vec<u8>) {
    put_varint(tx_id, out);
    put_varint(gen_id, out);
    put_varint(zigzag(start), out);
    put_varint(zigzag(end), out);
    put_varint(attrs.len() as u64, out);
    for a in attrs {
        put_varint(a.kind, out);
        put_varint(a.data_type, out);
        put_varint(a.name_key, out);
        put_varint(zigzag(a.value), out);
    }
}

// --- the exponent table ---------------------------------------------------

#[test]
fn timescale_table_exact() {
    assert_eq!(Timescale::get_timescale(0), Timescale::S);
    assert_eq!(Timescale::get_timescale(-4), Timescale::Ms);
    assert_eq!(Timescale::get_timescale(-8), Timescale::Us);
    assert_eq!(Timescale::get_timescale(-12), Timescale::Ns);
    assert_eq!(Timescale::get_timescale(-16), Timescale::Ps);
    assert_eq!(Timescale::get_timescale(-20), Timescale::Fs);
    assert_eq!(Timescale::get_timescale(-3), Timescale::Unit);
    assert_eq!(Timescale::get_timescale(7), Timescale::Unit);
    assert_eq!(Timescale::get_timescale(-24), Timescale::Unit);
}

// --- blank values ---------------------------------------------------------

#[test]
fn blank_event_and_attribute() {
    let e = ftr::types::Event::new();
    assert_eq!(e.tx_id, 0);
    assert_eq!(e.gen_id, 0);
    assert_eq!(e.start_time, -1);
    assert_eq!(e.end_time, -1);
    let a = ftr::types::Attribute::new();
    assert!(matches!(a.kind, AttributeType::NONE));
    assert!(matches!(a.data_type, DataType::Error));
    assert_eq!(a.name, "");
    assert_eq!(a.value, -1);
}

// --- header pass ----------------------------------------------------------

#[test]
fn empty_trace_parses_to_empty_store() {
    let f = parse_ftr(&[]).unwrap();
    assert_eq!(f.time_scale, Timescale::Undefined);
    assert_eq!(f.max_timestamp, num_bigint::BigInt::from(0u32));
    assert!(f.tx_streams.is_empty());
    assert!(f.tx_generators.is_empty());
    assert!(f.tx_relations.is_empty());
}

#[test]
fn truncated_record_fails() {
    let mut b = Vec::new();
    put_varint(4, &mut b); // stream record tag with nothing behind it
    assert_eq!(parse_ftr(&b).unwrap_err(), FtrError::UnexpectedEndOfInput);
}

#[test]
fn unknown_tag_fails() {
    let mut b = Vec::new();
    put_varint(42, &mut b);
    assert_eq!(parse_ftr(&b).unwrap_err(), FtrError::UnknownRecordTag);
}

#[test]
fn max_timestamp_keeps_maximum_not_last() {
    let mut b = Vec::new();
    rec_max_timestamp(&[0x55, 0x02], &mut b); // 597
    rec_max_timestamp(&[0x10], &mut b); // 16
    let f = parse_ftr(&b).unwrap();
    assert_eq!(f.max_timestamp, num_bigint::BigInt::from(597u32));
}

#[test]
fn max_timestamp_beyond_64_bits() {
    let mut b = Vec::new();
    let bytes = [0u8, 0, 0, 0, 0, 0, 0, 0, 1]; // 2^64
    rec_max_timestamp(&bytes, &mut b);
    let f = parse_ftr(&b).unwrap();
    let expect = num_bigint::BigInt::from(1u32) << 64;
    assert_eq!(f.max_timestamp, expect);
}

#[test]
fn forward_reference_generator_fails() {
    let mut b = Vec::new();
    rec_generator(1, 9, 0, "gen0", &mut b); // stream 9 never defined
    assert_eq!(parse_ftr(&b).unwrap_err(), FtrError::ForwardReference);
}

#[test]
fn duplicate_dictionary_key_fails() {
    let mut b = Vec::new();
    rec_dict(5, "alpha", &mut b);
    rec_dict(5, "beta", &mut b);
    assert_eq!(parse_ftr(&b).unwrap_err(), FtrError::DuplicateDictionaryKey);
}

#[test]
fn same_key_resolves_to_same_string() {
    let mut b = Vec::new();
    rec_dict(5, "shared", &mut b);
    // Two streams whose kind is a back-reference to the same key.
    let mut s1 = Vec::new();
    put_varint(4, &mut s1);
    put_varint(1, &mut s1);
    put_tstr_inline(6, "one", &mut s1);
    put_tstr_ref(5, &mut s1);
    let mut s2 = Vec::new();
    put_varint(4, &mut s2);
    put_varint(2, &mut s2);
    put_tstr_inline(7, "two", &mut s2);
    put_tstr_ref(5, &mut s2);
    b.extend_from_slice(&s1);
    b.extend_from_slice(&s2);
    let f = parse_ftr(&b).unwrap();
    let a = f.get_stream(1).unwrap();
    let c = f.get_stream(2).unwrap();
    assert_eq!(a.kind, "shared");
    assert_eq!(c.kind, "shared");
    assert_eq!(a.kind, c.kind);
}

#[test]
fn unknown_dictionary_key_fails() {
    let mut b = Vec::new();
    let mut s1 = Vec::new();
    put_varint(4, &mut s1);
    put_varint(1, &mut s1);
    put_tstr_inline(6, "one", &mut s1);
    put_tstr_ref(5, &mut s1); // key 5 never assigned
    b.extend_from_slice(&s1);
    assert_eq!(parse_ftr(&b).unwrap_err(), FtrError::UnknownDictionaryKey);
}

// --- loading and unloading --------------------------------------------------

fn two_stream_trace() -> Vec<u8> {
    let mut b = Vec::new();
    rec_timescale(-12, &mut b);
    rec_dict(1, "addr", &mut b);
    rec_stream(1, 2, "bus0", 3, "bus", &mut b);
    rec_stream(2, 4, "bus1", 5, "bus", &mut b);
    rec_generator(1, 1, 6, "gen0", &mut b);
    rec_generator(2, 2, 7, "gen1", &mut b);
    let mut p1 = Vec::new();
    put_tx(
        1,
        1,
        0,
        4,
        &[AttrRec { kind: 0, data_type: 2, name_key: 1, value: 0x10 }],
        &mut p1,
    );
    let mut p2 = Vec::new();
    put_tx(2, 2, 5, 9, &[], &mut p2);
    rec_block(1, 1, false, &p1, &mut b);
    rec_block(2, 2, false, &p2, &mut b);
    rec_relation(8, "link", 1, 2, 1, 2, &mut b);
    b
}

#[test]
fn index_pass_materializes_no_transactions() {
    let f = parse_ftr(&two_stream_trace()).unwrap();
    for g in &f.tx_generators {
        assert!(g.transactions.is_empty());
    }
    assert_eq!(f.tx_streams.len(), 2);
    assert_eq!(f.tx_generators.len(), 2);
    assert_eq!(f.tx_relations.len(), 1);
}

#[test]
fn load_unknown_stream_leaves_store_unchanged() {
    let mut f = parse_ftr(&two_stream_trace()).unwrap();
    let streams_before: Vec<(usize, String)> =
        f.tx_streams.iter().map(|s| (s.id, s.name.clone())).collect();
    let r = f.load_stream_into_memory(99);
    assert_eq!(r.unwrap_err(), FtrError::UnknownStream);
    let streams_after: Vec<(usize, String)> =
        f.tx_streams.iter().map(|s| (s.id, s.name.clone())).collect();
    assert_eq!(streams_before, streams_after);
    for g in &f.tx_generators {
        assert!(g.transactions.is_empty());
    }
}

#[test]
fn drop_unknown_stream_fails() {
    let mut f = parse_ftr(&two_stream_trace()).unwrap();
    assert_eq!(f.drop_stream_from_memory(99).unwrap_err(), FtrError::UnknownStream);
}

#[test]
fn load_then_drop_restores_empty_lists_and_keeps_metadata() {
    let mut f = parse_ftr(&two_stream_trace()).unwrap();
    let meta_before: Vec<(usize, usize, String)> =
        f.tx_generators.iter().map(|g| (g.id, g.stream_id, g.name.clone())).collect();
    let blocks_before = f.get_stream(1).unwrap().tx_block_ids.clone();
    f.load_stream_into_memory(1).unwrap();
    assert_eq!(f.get_generator(1).unwrap().transactions.len(), 1);
    f.drop_stream_from_memory(1).unwrap();
    for g in &f.tx_generators {
        assert!(g.transactions.is_empty());
    }
    let meta_after: Vec<(usize, usize, String)> =
        f.tx_generators.iter().map(|g| (g.id, g.stream_id, g.name.clone())).collect();
    assert_eq!(meta_before, meta_after);
    assert_eq!(blocks_before, f.get_stream(1).unwrap().tx_block_ids);
    // A later load fully reconstructs the same transactions.
    f.load_stream_into_memory(1).unwrap();
    assert_eq!(f.get_generator(1).unwrap().transactions.len(), 1);
    assert_eq!(f.get_generator(1).unwrap().transactions[0].event.tx_id, 1);
}

#[test]
fn loading_in_any_order_gives_identical_contents() {
    let mut fa = parse_ftr(&two_stream_trace()).unwrap();
    fa.load_stream_into_memory(1).unwrap();
    fa.load_stream_into_memory(2).unwrap();
    let mut fb = parse_ftr(&two_stream_trace()).unwrap();
    fb.load_stream_into_memory(2).unwrap();
    fb.load_stream_into_memory(1).unwrap();
    for gid in [1usize, 2usize] {
        let ga = fa.get_generator(gid).unwrap();
        let gb = fb.get_generator(gid).unwrap();
        assert_eq!(ga.transactions.len(), gb.transactions.len());
        for (ta, tb) in ga.transactions.iter().zip(gb.transactions.iter()) {
            assert_eq!(ta.event.tx_id, tb.event.tx_id);
            assert_eq!(ta.event.gen_id, tb.event.gen_id);
            assert_eq!(ta.event.start_time, tb.event.start_time);
            assert_eq!(ta.event.end_time, tb.event.end_time);
            assert_eq!(ta.attributes.len(), tb.attributes.len());
        }
    }
}

#[test]
fn reload_appends_rather_than_replacing() {
    let mut f = parse_ftr(&two_stream_trace()).unwrap();
    f.load_stream_into_memory(1).unwrap();
    f.load_stream_into_memory(1).unwrap();
    assert_eq!(f.get_generator(1).unwrap().transactions.len(), 2);
}

#[test]
fn load_block_naming_missing_generator_fails() {
    let mut b = Vec::new();
    rec_stream(1, 2, "bus0", 3, "bus", &mut b);
    rec_generator(1, 1, 6, "gen0", &mut b);
    let mut p = Vec::new();
    put_tx(1, 99, 0, 1, &[], &mut p); // generator 99 does not exist
    rec_block(1, 1, false, &p, &mut b);
    let mut f = parse_ftr(&b).unwrap();
    assert_eq!(f.load_stream_into_memory(1).unwrap_err(), FtrError::UnknownGenerator);
}

#[test]
fn decompression_failure_keeps_earlier_blocks() {
    let mut b = Vec::new();
    rec_stream(1, 2, "bus0", 3, "bus", &mut b);
    rec_generator(1, 1, 6, "gen0", &mut b);
    let mut p1 = Vec::new();
    put_tx(1, 1, 0, 1, &[], &mut p1);
    rec_block(1, 1, false, &p1, &mut b);
    rec_block(1, 2, true, &[0xff, 0xff, 0xff], &mut b); // not a valid compressed block
    let mut f = parse_ftr(&b).unwrap();
    assert_eq!(f.load_stream_into_memory(1).unwrap_err(), FtrError::DecompressionError);
    // The first block's transaction was appended before the failure.
    assert_eq!(f.get_generator(1).unwrap().transactions.len(), 1);
    assert_eq!(f.get_stream(1).unwrap().tx_block_ids.len(), 2);
}

// --- lookups ----------------------------------------------------------------

#[test]
fn lookups_by_id_and_name() {
    let f = parse_ftr(&two_stream_trace()).unwrap();
    assert_eq!(f.get_stream(1).unwrap().name, "bus0");
    assert!(f.get_stream(3).is_none());
    assert_eq!(f.get_generator(2).unwrap().name, "gen1");
    assert!(f.get_generator(3).is_none());
    assert_eq!(f.get_stream_from_name(String::from("bus1")).unwrap().id, 2);
    assert!(f.get_stream_from_name(String::from("bus9")).is_none());
    assert_eq!(f.get_generator_from_name(1, String::from("gen0")).unwrap().id, 1);
    assert!(f.get_generator_from_name(1, String::from("gen1")).is_none());
    assert!(f.get_generator_from_name(9, String::from("gen0")).is_none());
}

// --- end to end -------------------------------------------------------------

#[test]
fn end_to_end_scenario() {
    let mut b = Vec::new();
    rec_timescale(-12, &mut b);
    rec_dict(1, "addr", &mut b);
    rec_stream(1, 2, "bus0", 3, "bus", &mut b);
    rec_generator(1, 1, 4, "gen0", &mut b);
    let mut p1 = Vec::new();
    put_tx(
        1,
        1,
        0,
        7,
        &[AttrRec { kind: 0, data_type: 2, name_key: 1, value: 0x10 }],
        &mut p1,
    );
    let mut p2 = Vec::new();
    put_tx(2, 1, 8, 15, &[], &mut p2);
    let p2c = lz4_flex::block::compress_prepend_size(&p2);
    rec_block(1, 1, false, &p1, &mut b);
    rec_block(1, 2, true, &p2c, &mut b);
    rec_relation(5, "link", 1, 2, 1, 1, &mut b);

    let mut f = parse_ftr(&b).unwrap();
    assert_eq!(f.time_scale, Timescale::Ns);
    assert_eq!(f.get_stream(1).unwrap().name, "bus0");
    assert_eq!(f.get_generator(1).unwrap().name, "gen0");
    assert!(f.get_generator(1).unwrap().transactions.is_empty());

    f.load_stream_into_memory(1).unwrap();
    let g = f.get_generator(1).unwrap();
    assert_eq!(g.transactions.len(), 2);
    assert_eq!(g.transactions[0].event.tx_id, 1);
    assert_eq!(g.transactions[1].event.tx_id, 2);
    let a = &g.transactions[0].attributes[0];
    assert!(matches!(a.kind, AttributeType::BEGIN));
    assert!(matches!(a.data_type, DataType::Integer));
    assert_eq!(a.name, "addr");
    assert_eq!(a.value, 0x10);

    let t1 = f.get_transaction(1, 1).unwrap();
    assert_eq!(t1.out_relations.len(), 1);
    assert_eq!(t1.out_relations[0].name, "link");
    assert_eq!(t1.inc_relations.len(), 0);
    let t2 = f.get_transaction(1, 2).unwrap();
    assert_eq!(t2.inc_relations.len(), 1);
    assert_eq!(t2.inc_relations[0].name, "link");
    assert!(f.get_transaction(1, 3).is_none());
}

#[test]
fn attribute_phase_and_type_fallbacks() {
    let mut b = Vec::new();
    rec_dict(1, "x", &mut b);
    rec_stream(1, 2, "s", 3, "k", &mut b);
    rec_generator(1, 1, 4, "g", &mut b);
    let mut p = Vec::new();
    put_tx(
        1,
        1,
        -1,
        -1,
        &[
            AttrRec { kind: 1, data_type: 0, name_key: 1, value: 1 },
            AttrRec { kind: 2, data_type: 11, name_key: 1, value: -3 },
            AttrRec { kind: 9, data_type: 99, name_key: 1, value: 0 },
        ],
        &mut p,
    );
    rec_block(1, 1, false, &p, &mut b);
    let mut f = parse_ftr(&b).unwrap();
    f.load_stream_into_memory(1).unwrap();
    let g = f.get_generator(1).unwrap();
    let tx = &g.transactions[0];
    assert_eq!(tx.event.start_time, -1);
    assert_eq!(tx.event.end_time, -1);
    assert!(matches!(tx.attributes[0].kind, AttributeType::RECORD));
    assert!(matches!(tx.attributes[0].data_type, DataType::Boolean));
    assert!(matches!(tx.attributes[1].kind, AttributeType::END));
    assert!(matches!(tx.attributes[1].data_type, DataType::Time));
    assert_eq!(tx.attributes[1].value, -3);
    assert!(matches!(tx.attributes[2].kind, AttributeType::NONE));
    assert!(matches!(tx.attributes[2].data_type, DataType::Error));
}
