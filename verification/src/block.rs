//! Block decoding: the transaction records inside one (already
//! decompressed) block payload. A block is a plain concatenation of
//! transaction records; each record is the event core followed by its
//! attribute snapshots. The exec decoder is proved against a spec-level
//! decoder over the payload bytes.

use vstd::prelude::*;

use crate::dict::{dictv_lookup, DictV, StrDict};
use crate::primitive::{read_varint, unzigzag, vdec, zigzag, lemma_vdec_advances};
use crate::types::{attrs_view, txs_view, Attribute, AttributeType, AttrView, DataType, Event, EventView, Transaction, TxView};
use crate::FtrError;

verus! {

/// Phase marker table. Tags outside the table fall back to `NONE`.
pub open spec fn attr_kind_of(tag: nat) -> AttributeType {
    if tag == 0 {
        AttributeType::BEGIN
    } else if tag == 1 {
        AttributeType::RECORD
    } else if tag == 2 {
        AttributeType::END
    } else {
        AttributeType::NONE
    }
}

/// Data-type tag table. Tags outside the table fall back to `Error`.
pub open spec fn data_type_of(tag: nat) -> DataType {
    if tag == 0 {
        DataType::Boolean
    } else if tag == 1 {
        DataType::Enumeration
    } else if tag == 2 {
        DataType::Integer
    } else if tag == 3 {
        DataType::Unsigned
    } else if tag == 4 {
        DataType::FloatingPointNumber
    } else if tag == 5 {
        DataType::BitVector
    } else if tag == 6 {
        DataType::LogicVector
    } else if tag == 7 {
        DataType::FixedPointInteger
    } else if tag == 8 {
        DataType::UnsignedFixedPointInteger
    } else if tag == 9 {
        DataType::Pointer
    } else if tag == 10 {
        DataType::String
    } else if tag == 11 {
        DataType::Time
    } else {
        DataType::Error
    }
}

/// Spec decoder for one attribute record: phase tag, data-type tag,
/// dictionary key of the name, zigzag-coded value.
pub open spec fn attr_dec(s: Seq<u8>, i: int, d: DictV) -> Option<(AttrView, int)> {
    match vdec(s, i) {
        None => None,
        Some((kt, j1)) => if kt > u64::MAX {
            None
        } else {
            match vdec(s, j1) {
                None => None,
                Some((tt, j2)) => if tt > u64::MAX {
                    None
                } else {
                    match vdec(s, j2) {
                        None => None,
                        Some((key, j3)) => if key > usize::MAX {
                            None
                        } else {
                            match dictv_lookup(d, key) {
                                None => None,
                                Some(name) => match vdec(s, j3) {
                                    None => None,
                                    Some((v, j4)) => if v > u64::MAX {
                                        None
                                    } else {
                                        Some(
                                            (
                                                AttrView {
                                                    kind: attr_kind_of(kt),
                                                    name: name,
                                                    data_type: data_type_of(tt),
                                                    value: zigzag(v),
                                                },
                                                j4,
                                            ),
                                        )
                                    },
                                },
                            }
                        },
                    }
                },
            }
        },
    }
}

/// A decoded attribute record lies inside the input and advances the cursor.
pub proof fn lemma_attr_dec_advances(s: Seq<u8>, i: int, d: DictV)
    ensures
        attr_dec(s, i, d) matches Some((a, j)) ==> i < j <= s.len(),
{
    lemma_vdec_advances(s, i);
    match vdec(s, i) {
        None => {},
        Some((kt, j1)) => {
            lemma_vdec_advances(s, j1);
            match vdec(s, j1) {
                None => {},
                Some((tt, j2)) => {
                    lemma_vdec_advances(s, j2);
                    match vdec(s, j2) {
                        None => {},
                        Some((key, j3)) => {
                            lemma_vdec_advances(s, j3);
                        },
                    }
                },
            }
        },
    }
}

/// Spec decoder for `n` attribute records in a row.
pub open spec fn attrs_dec(s: Seq<u8>, i: int, d: DictV, n: nat) -> Option<(Seq<AttrView>, int)>
    decreases n,
{
    if n == 0 {
        Some((Seq::empty(), i))
    } else {
        match attr_dec(s, i, d) {
            None => None,
            Some((a, j)) => match attrs_dec(s, j, d, (n - 1) as nat) {
                None => None,
                Some((rest, j2)) => Some((seq![a] + rest, j2)),
            },
        }
    }
}

/// Decoded attribute records lie inside the input and never move the cursor
/// backwards.
pub proof fn lemma_attrs_dec_advances(s: Seq<u8>, i: int, d: DictV, n: nat)
    ensures
        attrs_dec(s, i, d, n) matches Some((a, j)) ==> i <= j && (n > 0 ==> i < j <= s.len()),
    decreases n,
{
    if n > 0 {
        lemma_attr_dec_advances(s, i, d);
        match attr_dec(s, i, d) {
            None => {},
            Some((a0, j1)) => {
                lemma_attrs_dec_advances(s, j1, d, (n - 1) as nat);
            },
        }
    }
}

/// Spec decoder for one transaction record: transaction id, generator id,
/// zigzag-coded start and end times, then its attribute records.
pub open spec fn tx_dec(s: Seq<u8>, i: int, d: DictV) -> Option<(TxView, int)> {
    match vdec(s, i) {
        None => None,
        Some((tx_id, j1)) => if tx_id > usize::MAX {
            None
        } else {
            match vdec(s, j1) {
                None => None,
                Some((gen_id, j2)) => if gen_id > usize::MAX {
                    None
                } else {
                    match vdec(s, j2) {
                        None => None,
                        Some((st, j3)) => if st > u64::MAX {
                            None
                        } else {
                            match vdec(s, j3) {
                                None => None,
                                Some((en, j4)) => if en > u64::MAX {
                                    None
                                } else {
                                    match vdec(s, j4) {
                                        None => None,
                                        Some((n, j5)) => if n > u64::MAX {
                                            None
                                        } else {
                                            match attrs_dec(s, j5, d, n) {
                                                None => None,
                                                Some((attrs, j6)) => Some(
                                                    (
                                                        TxView {
                                                            event: EventView {
                                                                tx_id: tx_id as int,
                                                                gen_id: gen_id as int,
                                                                start_time: zigzag(st),
                                                                end_time: zigzag(en),
                                                            },
                                                            attributes: attrs,
                                                            inc_relations: Seq::empty(),
                                                            out_relations: Seq::empty(),
                                                        },
                                                        j6,
                                                    ),
                                                ),
                                            }
                                        },
                                    }
                                },
                            }
                        },
                    }
                },
            }
        },
    }
}

/// A decoded transaction record lies inside the input and advances the
/// cursor.
pub proof fn lemma_tx_dec_advances(s: Seq<u8>, i: int, d: DictV)
    ensures
        tx_dec(s, i, d) matches Some((t, j)) ==> i < j <= s.len(),
{
    lemma_vdec_advances(s, i);
    match vdec(s, i) {
        None => {},
        Some((a1, j1)) => {
            lemma_vdec_advances(s, j1);
            match vdec(s, j1) {
                None => {},
                Some((a2, j2)) => {
                    lemma_vdec_advances(s, j2);
                    match vdec(s, j2) {
                        None => {},
                        Some((a3, j3)) => {
                            lemma_vdec_advances(s, j3);
                            match vdec(s, j3) {
                                None => {},
                                Some((a4, j4)) => {
                                    lemma_vdec_advances(s, j4);
                                    match vdec(s, j4) {
                                        None => {},
                                        Some((a5, j5)) => {
                                            lemma_attrs_dec_advances(s, j5, d, a5);
                                        },
                                    }
                                },
                            }
                        },
                    }
                },
            }
        },
    }
}

/// Spec decoder for a whole block payload: transaction records back to
/// back until the payload is exhausted.
pub open spec fn txs_dec(s: Seq<u8>, i: int, d: DictV) -> Option<Seq<TxView>>
    decreases s.len() - i,
{
    if i == s.len() {
        Some(Seq::empty())
    } else if i < 0 || i > s.len() {
        None
    } else {
        match tx_dec(s, i, d) {
            None => None,
            Some((t, j)) => if i < j <= s.len() {
                match txs_dec(s, j, d) {
                    None => None,
                    Some(rest) => Some(seq![t] + rest),
                }
            } else {
                None
            },
        }
    }
}

/// Reads one attribute record at `pos`.
fn decode_attribute(bytes: &[u8], pos: usize, dict: &StrDict) -> (r: Result<
    (Attribute, usize),
    FtrError,
>)
    ensures
        match attr_dec(bytes@, pos as int, dict@) {
            None => r is Err,
            Some((a, j)) => r matches Ok((attr, p)) && attr@ == a && p == j,
        },
{
    let (kt, j1) = match read_varint(bytes, pos) {
        Ok(x) => x,
        Err(e) => {
            return Err(e);
        },
    };
    let kind = match kt {
        0 => AttributeType::BEGIN,
        1 => AttributeType::RECORD,
        2 => AttributeType::END,
        _ => AttributeType::NONE,
    };
    let (tt, j2) = match read_varint(bytes, j1) {
        Ok(x) => x,
        Err(e) => {
            return Err(e);
        },
    };
    let data_type = match tt {
        0 => DataType::Boolean,
        1 => DataType::Enumeration,
        2 => DataType::Integer,
        3 => DataType::Unsigned,
        4 => DataType::FloatingPointNumber,
        5 => DataType::BitVector,
        6 => DataType::LogicVector,
        7 => DataType::FixedPointInteger,
        8 => DataType::UnsignedFixedPointInteger,
        9 => DataType::Pointer,
        10 => DataType::String,
        11 => DataType::Time,
        _ => DataType::Error,
    };
    let (key, j3) = match read_varint(bytes, j2) {
        Ok(x) => x,
        Err(e) => {
            return Err(e);
        },
    };
    if key > usize::MAX as u64 {
        return Err(FtrError::MalformedVarint);
    }
    let name = match dict.lookup(key as usize) {
        None => {
            return Err(FtrError::UnknownDictionaryKey);
        },
        Some(s) => s.clone(),
    };
    let (v, j4) = match read_varint(bytes, j3) {
        Ok(x) => x,
        Err(e) => {
            return Err(e);
        },
    };
    let value = unzigzag(v);
    let a = Attribute { kind, name, data_type, value };
    proof {
        assert(a@ =~= attr_dec(bytes@, pos as int, dict@)->Some_0.0);
    }
    Ok((a, j4))
}

/// Reads `n` attribute records starting at `pos`.
fn decode_attributes(bytes: &[u8], pos: usize, dict: &StrDict, n: u64) -> (r: Result<
    (Vec<Attribute>, usize),
    FtrError,
>)
    ensures
        match attrs_dec(bytes@, pos as int, dict@, n as nat) {
            None => r is Err,
            Some((a, j)) => r matches Ok((attrs, p)) && attrs_view(attrs@) == a && p == j,
        },
{
    let mut attrs: Vec<Attribute> = Vec::new();
    let mut cur = pos;
    let mut k: u64 = 0;
    while k < n
        invariant
            k <= n,
            match attrs_dec(bytes@, cur as int, dict@, (n - k) as nat) {
                None => attrs_dec(bytes@, pos as int, dict@, n as nat) is None,
                Some((rest, j)) => attrs_dec(bytes@, pos as int, dict@, n as nat) matches Some((
                    all,
                    j2,
                )) && all == attrs_view(attrs@) + rest && j2 == j,
            },
        decreases n - k,
    {
        let ghost pre = attrs_view(attrs@);
        let (a, next) = match decode_attribute(bytes, cur, dict) {
            Ok(x) => x,
            Err(e) => {
                return Err(e);
            },
        };
        attrs.push(a);
        proof {
            assert(attrs_view(attrs@) =~= pre + seq![a@]);
            match attrs_dec(bytes@, next as int, dict@, (n - k - 1) as nat) {
                None => {},
                Some((rest2, jx)) => {
                    assert(pre + (seq![a@] + rest2) =~= (pre + seq![a@]) + rest2);
                },
            }
        }
        cur = next;
        k = k + 1;
    }
    proof {
        assert(attrs_view(attrs@) + Seq::<AttrView>::empty() =~= attrs_view(attrs@));
    }
    Ok((attrs, cur))
}

/// Reads one transaction record at `pos`.
pub(crate) fn decode_transaction(bytes: &[u8], pos: usize, dict: &StrDict) -> (r: Result<
    (Transaction, usize),
    FtrError,
>)
    ensures
        match tx_dec(bytes@, pos as int, dict@) {
            None => r is Err,
            Some((t, j)) => r matches Ok((tx, p)) && tx@ == t && p == j,
        },
{
    let (tx_id, j1) = match read_varint(bytes, pos) {
        Ok(x) => x,
        Err(e) => {
            return Err(e);
        },
    };
    if tx_id > usize::MAX as u64 {
        return Err(FtrError::MalformedVarint);
    }
    let (gen_id, j2) = match read_varint(bytes, j1) {
        Ok(x) => x,
        Err(e) => {
            return Err(e);
        },
    };
    if gen_id > usize::MAX as u64 {
        return Err(FtrError::MalformedVarint);
    }
    let (st, j3) = match read_varint(bytes, j2) {
        Ok(x) => x,
        Err(e) => {
            return Err(e);
        },
    };
    let (en, j4) = match read_varint(bytes, j3) {
        Ok(x) => x,
        Err(e) => {
            return Err(e);
        },
    };
    let (n, j5) = match read_varint(bytes, j4) {
        Ok(x) => x,
        Err(e) => {
            return Err(e);
        },
    };
    let (attributes, j6) = match decode_attributes(bytes, j5, dict, n) {
        Ok(x) => x,
        Err(e) => {
            return Err(e);
        },
    };
    let event = Event {
        tx_id: tx_id as usize,
        gen_id: gen_id as usize,
        start_time: unzigzag(st),
        end_time: unzigzag(en),
    };
    let tx = Transaction {
        event,
        attributes,
        inc_relations: Vec::new(),
        out_relations: Vec::new(),
    };
    proof {
        assert(tx@ =~= tx_dec(bytes@, pos as int, dict@)->Some_0.0);
    }
    Ok((tx, j6))
}

/// Decodes a whole block payload into its transactions, in record order.
pub(crate) fn decode_block(bytes: &[u8], dict: &StrDict) -> (r: Result<Vec<Transaction>, FtrError>)
    ensures
        match txs_dec(bytes@, 0, dict@) {
            None => r is Err,
            Some(ts) => r matches Ok(v) && txs_view(v@) == ts,
        },
{
    let mut txs: Vec<Transaction> = Vec::new();
    let mut pos: usize = 0;
    let len = bytes.len();
    while pos < len
        invariant
            pos <= len,
            len == bytes@.len(),
            match txs_dec(bytes@, pos as int, dict@) {
                None => txs_dec(bytes@, 0, dict@) is None,
                Some(rest) => txs_dec(bytes@, 0, dict@) matches Some(all) && all == txs_view(txs@)
                    + rest,
            },
        decreases len - pos,
    {
        let ghost pre = txs_view(txs@);
        proof {
            lemma_tx_dec_advances(bytes@, pos as int, dict@);
        }
        let (tx, next) = match decode_transaction(bytes, pos, dict) {
            Ok(x) => x,
            Err(e) => {
                return Err(e);
            },
        };
        txs.push(tx);
        proof {
            assert(txs_view(txs@) =~= pre + seq![tx@]);
            match txs_dec(bytes@, next as int, dict@) {
                None => {},
                Some(rest2) => {
                    assert(pre + (seq![tx@] + rest2) =~= (pre + seq![tx@]) + rest2);
                },
            }
        }
        pos = next;
    }
    proof {
        assert(txs_view(txs@) + Seq::<TxView>::empty() =~= txs_view(txs@));
    }
    Ok(txs)
}

} // verus!
