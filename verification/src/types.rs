//! The decoded trace model: streams, generators, transactions, attributes,
//! relations, the time scale table, and the store that owns them. Every type
//! has a mathematical view; the store's operations are specified as
//! transformations of its view.

use vstd::prelude::*;

use crate::bigint::bigint_value;
use crate::dict::{DictV, StrDict};
use crate::FtrError;

verus! {

/// Real-world duration of one on-disk time unit, from the trace's
/// power-of-ten exponent. `Undefined` is the state before any time-scale
/// record was seen.
#[derive(Clone, Copy, Debug, PartialEq, Eq, Structural)]
pub enum Timescale {
    Fs,
    Ps,
    Ns,
    Us,
    Ms,
    S,
    Unit,
    Undefined,
}

impl Timescale {
    /// The fixed exponent table. Any exponent outside the table is a
    /// deliberate lossy fallback to `Unit`, not an error: some producers
    /// emit non-standard exponents.
    pub fn get_timescale(exponent: i64) -> (t: Timescale)
        ensures
            t == Timescale::spec_timescale(exponent as int),
    {
        match exponent {
            0 => Timescale::S,
            -4 => Timescale::Ms,
            -8 => Timescale::Us,
            -12 => Timescale::Ns,
            -16 => Timescale::Ps,
            -20 => Timescale::Fs,
            _ => Timescale::Unit,
        }
    }

    /// The exponent table, as the contracts state it.
    pub open spec fn spec_timescale(exponent: int) -> Timescale {
        if exponent == 0 {
            Timescale::S
        } else if exponent == -4 {
            Timescale::Ms
        } else if exponent == -8 {
            Timescale::Us
        } else if exponent == -12 {
            Timescale::Ns
        } else if exponent == -16 {
            Timescale::Ps
        } else if exponent == -20 {
            Timescale::Fs
        } else {
            Timescale::Unit
        }
    }
}

/// On-disk data type of an attribute value. `Error` marks tags the format
/// does not define, kept for forward compatibility instead of failing.
#[derive(Clone, Copy, Debug, PartialEq, Eq, Structural)]
pub enum DataType {
    Boolean,
    Enumeration,
    Integer,
    Unsigned,
    FloatingPointNumber,
    BitVector,
    LogicVector,
    FixedPointInteger,
    UnsignedFixedPointInteger,
    Pointer,
    String,
    Time,
    Error,
}

/// Lifecycle phase at which an attribute was recorded.
#[derive(Clone, Copy, Debug, PartialEq, Eq, Structural)]
pub enum AttributeType {
    BEGIN,
    RECORD,
    END,
    NONE,
}

/// Core event fields of a transaction. An end time of `-1` marks a
/// transaction still open when it was recorded.
#[derive(Clone, Copy, Debug, PartialEq, Eq, Structural)]
pub struct Event {
    pub tx_id: usize,
    pub gen_id: usize,
    pub start_time: i64,
    pub end_time: i64,
}

#[verifier::ext_equal]
pub struct EventView {
    pub tx_id: int,
    pub gen_id: int,
    pub start_time: int,
    pub end_time: int,
}

impl View for Event {
    type V = EventView;

    open spec fn view(&self) -> EventView {
        EventView {
            tx_id: self.tx_id as int,
            gen_id: self.gen_id as int,
            start_time: self.start_time as int,
            end_time: self.end_time as int,
        }
    }
}

impl Event {
    /// A blank event: zero ids and sentinel times.
    pub fn new() -> (e: Event)
        ensures
            e@ == (EventView { tx_id: 0, gen_id: 0, start_time: -1, end_time: -1 }),
    {
        let tx_id: usize = 0;
        let gen_id: usize = 0;
        let start_time: i64 = -1;
        let end_time: i64 = -1;
        Event { tx_id, gen_id, start_time, end_time }
    }
}

/// A named, typed value attached to a transaction at one lifecycle phase.
#[derive(Clone, Debug)]
pub struct Attribute {
    pub kind: AttributeType,
    pub name: String,
    pub data_type: DataType,
    pub value: i64,
}

#[verifier::ext_equal]
pub struct AttrView {
    pub kind: AttributeType,
    pub name: Seq<char>,
    pub data_type: DataType,
    pub value: int,
}

impl View for Attribute {
    type V = AttrView;

    open spec fn view(&self) -> AttrView {
        AttrView {
            kind: self.kind,
            name: self.name@,
            data_type: self.data_type,
            value: self.value as int,
        }
    }
}

impl Attribute {
    /// A blank attribute: no phase, error type, sentinel value.
    pub fn new() -> (a: Attribute)
        ensures
            a@ == (AttrView {
                kind: AttributeType::NONE,
                name: Seq::<char>::empty(),
                data_type: DataType::Error,
                value: -1,
            }),
    {
        let kind = AttributeType::NONE;
        let name = String::new();
        let data_type = DataType::Error;
        let value: i64 = -1;
        let a = Attribute { kind, name, data_type, value };
        proof {
            assert(a@ =~= AttrView {
                kind: AttributeType::NONE,
                name: Seq::<char>::empty(),
                data_type: DataType::Error,
                value: -1,
            });
        }
        a
    }

    /// An exact copy.
    pub fn duplicate(&self) -> (a: Attribute)
        ensures
            a@ == self@,
    {
        Attribute {
            kind: self.kind,
            name: self.name.clone(),
            data_type: self.data_type,
            value: self.value,
        }
    }
}

/// A named directed link between two transactions, possibly across streams.
#[derive(Clone, Debug)]
pub struct TxRelation {
    pub name: String,
    pub source_tx_id: usize,
    pub sink_tx_id: usize,
    pub source_stream_id: usize,
    pub sink_stream_id: usize,
}

#[verifier::ext_equal]
pub struct RelView {
    pub name: Seq<char>,
    pub source_tx_id: int,
    pub sink_tx_id: int,
    pub source_stream_id: int,
    pub sink_stream_id: int,
}

impl View for TxRelation {
    type V = RelView;

    open spec fn view(&self) -> RelView {
        RelView {
            name: self.name@,
            source_tx_id: self.source_tx_id as int,
            sink_tx_id: self.sink_tx_id as int,
            source_stream_id: self.source_stream_id as int,
            sink_stream_id: self.sink_stream_id as int,
        }
    }
}

impl TxRelation {
    /// An exact copy.
    pub fn duplicate(&self) -> (r: TxRelation)
        ensures
            r@ == self@,
    {
        TxRelation {
            name: self.name.clone(),
            source_tx_id: self.source_tx_id,
            sink_tx_id: self.sink_tx_id,
            source_stream_id: self.source_stream_id,
            sink_stream_id: self.sink_stream_id,
        }
    }
}

/// One recorded event instance with its attribute snapshots and the
/// relations resolved for it so far.
#[derive(Clone, Debug)]
pub struct Transaction {
    pub event: Event,
    pub attributes: Vec<Attribute>,
    pub inc_relations: Vec<TxRelation>,
    pub out_relations: Vec<TxRelation>,
}

#[verifier::ext_equal]
pub struct TxView {
    pub event: EventView,
    pub attributes: Seq<AttrView>,
    pub inc_relations: Seq<RelView>,
    pub out_relations: Seq<RelView>,
}

/// Views of a sequence of attributes.
pub open spec fn attrs_view(s: Seq<Attribute>) -> Seq<AttrView> {
    Seq::new(s.len(), |i: int| s[i]@)
}

/// Views of a sequence of relations.
pub open spec fn rels_view(s: Seq<TxRelation>) -> Seq<RelView> {
    Seq::new(s.len(), |i: int| s[i]@)
}

/// Views of a sequence of transactions.
pub open spec fn txs_view(s: Seq<Transaction>) -> Seq<TxView> {
    Seq::new(s.len(), |i: int| s[i]@)
}

impl View for Transaction {
    type V = TxView;

    open spec fn view(&self) -> TxView {
        TxView {
            event: self.event@,
            attributes: attrs_view(self.attributes@),
            inc_relations: rels_view(self.inc_relations@),
            out_relations: rels_view(self.out_relations@),
        }
    }
}

/// A named channel of transaction activity. Its block descriptors are fixed
/// at index time; `block_data` keeps each descriptor's still-undecoded
/// payload bytes so a later load can materialize the transactions.
#[derive(Clone, Debug)]
pub struct TxStream {
    pub id: usize,
    pub name: String,
    pub kind: String,
    pub generators: Vec<usize>,
    pub tx_block_ids: Vec<(u64, bool)>,
    pub block_data: Vec<Vec<u8>>,
}

#[verifier::ext_equal]
pub struct StreamView {
    pub id: int,
    pub name: Seq<char>,
    pub kind: Seq<char>,
    pub generators: Seq<int>,
    pub blocks: Seq<(u64, bool)>,
    pub block_data: Seq<Seq<u8>>,
}

impl View for TxStream {
    type V = StreamView;

    open spec fn view(&self) -> StreamView {
        StreamView {
            id: self.id as int,
            name: self.name@,
            kind: self.kind@,
            generators: Seq::new(self.generators@.len(), |i: int| self.generators@[i] as int),
            blocks: self.tx_block_ids@,
            block_data: Seq::new(self.block_data@.len(), |i: int| self.block_data@[i]@),
        }
    }
}

/// A named source of transactions within a stream. The transaction list is
/// empty after the index pass and is the only field that load and unload
/// ever change.
#[derive(Clone, Debug)]
pub struct TxGenerator {
    pub id: usize,
    pub stream_id: usize,
    pub name: String,
    pub transactions: Vec<Transaction>,
}

#[verifier::ext_equal]
pub struct GenView {
    pub id: int,
    pub stream_id: int,
    pub name: Seq<char>,
    pub transactions: Seq<TxView>,
}

impl View for TxGenerator {
    type V = GenView;

    open spec fn view(&self) -> GenView {
        GenView {
            id: self.id as int,
            stream_id: self.stream_id as int,
            name: self.name@,
            transactions: txs_view(self.transactions@),
        }
    }
}

/// The trace store: all decoded state, keyed by numeric id.
#[derive(Debug)]
pub struct FTR {
    pub time_scale: Timescale,
    pub max_timestamp: num_bigint::BigInt,
    pub str_dict: StrDict,
    pub tx_streams: Vec<TxStream>,
    pub tx_generators: Vec<TxGenerator>,
    pub tx_relations: Vec<TxRelation>,
    pub file_name: String,
}

/// Views of a sequence of streams.
pub open spec fn streams_view(s: Seq<TxStream>) -> Seq<StreamView> {
    Seq::new(s.len(), |i: int| s[i]@)
}

/// Views of a sequence of generators.
pub open spec fn gens_view(s: Seq<TxGenerator>) -> Seq<GenView> {
    Seq::new(s.len(), |i: int| s[i]@)
}

#[verifier::ext_equal]
pub struct FtrView {
    pub time_scale: Timescale,
    pub max_timestamp: int,
    pub dict: DictV,
    pub streams: Seq<StreamView>,
    pub generators: Seq<GenView>,
    pub relations: Seq<RelView>,
    pub file_name: Seq<char>,
}

impl View for FTR {
    type V = FtrView;

    open spec fn view(&self) -> FtrView {
        FtrView {
            time_scale: self.time_scale,
            max_timestamp: bigint_value(self.max_timestamp),
            dict: self.str_dict@,
            streams: streams_view(self.tx_streams@),
            generators: gens_view(self.tx_generators@),
            relations: rels_view(self.tx_relations@),
            file_name: self.file_name@,
        }
    }
}

/// Index of the first stream with the given id at or after `i`.
pub open spec fn find_stream_from(ss: Seq<StreamView>, i: int, id: int) -> Option<int>
    decreases ss.len() - i,
{
    if i < 0 || i >= ss.len() {
        None
    } else if ss[i].id == id {
        Some(i)
    } else {
        find_stream_from(ss, i + 1, id)
    }
}

/// Index of the stream with the given id.
pub open spec fn find_stream(ss: Seq<StreamView>, id: int) -> Option<int> {
    find_stream_from(ss, 0, id)
}

/// A found stream index is in range and names the id searched for.
pub proof fn lemma_find_stream_from_range(ss: Seq<StreamView>, i: int, id: int)
    ensures
        find_stream_from(ss, i, id) matches Some(k) ==> i <= k < ss.len() && ss[k].id == id,
    decreases ss.len() - i,
{
    if 0 <= i < ss.len() && ss[i].id != id {
        lemma_find_stream_from_range(ss, i + 1, id);
    }
}

/// Index of the first generator with the given id at or after `i`.
pub open spec fn find_gen_from(gs: Seq<GenView>, i: int, id: int) -> Option<int>
    decreases gs.len() - i,
{
    if i < 0 || i >= gs.len() {
        None
    } else if gs[i].id == id {
        Some(i)
    } else {
        find_gen_from(gs, i + 1, id)
    }
}

/// Index of the generator with the given id.
pub open spec fn find_gen(gs: Seq<GenView>, id: int) -> Option<int> {
    find_gen_from(gs, 0, id)
}

/// When no stream is found, none of the entries carries the id.
pub proof fn lemma_find_stream_from_none(ss: Seq<StreamView>, i: int, id: int)
    requires
        0 <= i,
    ensures
        find_stream_from(ss, i, id) is None ==> forall|k: int|
            i <= k < ss.len() ==> (#[trigger] ss[k]).id != id,
    decreases ss.len() - i,
{
    if 0 <= i < ss.len() && ss[i].id != id {
        lemma_find_stream_from_none(ss, i + 1, id);
    }
}

/// How appending a stream changes what is found: earlier finds stand, and a
/// fresh id is found at the end.
pub proof fn lemma_find_stream_push(ss: Seq<StreamView>, i: int, x: StreamView, id: int)
    requires
        0 <= i <= ss.len(),
    ensures
        find_stream_from(ss.push(x), i, id) == (match find_stream_from(ss, i, id) {
            Some(k) => Some(k),
            None => if x.id == id {
                Some(ss.len() as int)
            } else {
                None
            },
        }),
    decreases ss.len() - i,
{
    if i < ss.len() {
        assert(ss.push(x)[i] == ss[i]);
        if ss[i].id != id {
            lemma_find_stream_push(ss, i + 1, x, id);
        }
    } else {
        assert(ss.push(x)[ss.len() as int] == x);
        assert(find_stream_from(ss.push(x), ss.len() as int + 1, id) is None);
    }
}

/// Updating a stream without changing its id changes no find result.
pub proof fn lemma_find_stream_update(ss: Seq<StreamView>, i: int, k: int, x: StreamView, id: int)
    requires
        0 <= k < ss.len(),
        x.id == ss[k].id,
        0 <= i,
    ensures
        find_stream_from(ss.update(k, x), i, id) == find_stream_from(ss, i, id),
    decreases ss.len() - i,
{
    if i < ss.len() {
        assert(ss.update(k, x)[i] == if i == k {
            x
        } else {
            ss[i]
        });
        if ss.update(k, x)[i].id != id {
            lemma_find_stream_update(ss, i + 1, k, x, id);
        }
    }
}

/// When no generator is found, none of the entries carries the id.
pub proof fn lemma_find_gen_from_none(gs: Seq<GenView>, i: int, id: int)
    requires
        0 <= i,
    ensures
        find_gen_from(gs, i, id) is None ==> forall|k: int|
            i <= k < gs.len() ==> (#[trigger] gs[k]).id != id,
    decreases gs.len() - i,
{
    if 0 <= i < gs.len() && gs[i].id != id {
        lemma_find_gen_from_none(gs, i + 1, id);
    }
}

/// How appending a generator changes what is found.
pub proof fn lemma_find_gen_push(gs: Seq<GenView>, i: int, x: GenView, id: int)
    requires
        0 <= i <= gs.len(),
    ensures
        find_gen_from(gs.push(x), i, id) == (match find_gen_from(gs, i, id) {
            Some(k) => Some(k),
            None => if x.id == id {
                Some(gs.len() as int)
            } else {
                None
            },
        }),
    decreases gs.len() - i,
{
    if i < gs.len() {
        assert(gs.push(x)[i] == gs[i]);
        if gs[i].id != id {
            lemma_find_gen_push(gs, i + 1, x, id);
        }
    } else {
        assert(gs.push(x)[gs.len() as int] == x);
        assert(find_gen_from(gs.push(x), gs.len() as int + 1, id) is None);
    }
}

/// Two generator sequences with the same ids in the same order are searched
/// alike.
pub proof fn lemma_find_gen_same_ids(ga: Seq<GenView>, gb: Seq<GenView>, i: int, id: int)
    requires
        ga.len() == gb.len(),
        forall|k: int| 0 <= k < ga.len() ==> (#[trigger] ga[k]).id == gb[k].id,
    ensures
        find_gen_from(ga, i, id) == find_gen_from(gb, i, id),
    decreases ga.len() - i,
{
    if 0 <= i < ga.len() && ga[i].id != id {
        lemma_find_gen_same_ids(ga, gb, i + 1, id);
    }
}

/// Under unique ids, a generator is found at its own index.
pub proof fn lemma_find_gen_unique(gs: Seq<GenView>, i: int)
    requires
        forall|p: int, q: int| 0 <= p < q < gs.len() ==> gs[p].id != gs[q].id,
        0 <= i < gs.len(),
    ensures
        find_gen(gs, gs[i].id) == Some(i),
{
    lemma_find_gen_unique_from(gs, 0, i);
}

proof fn lemma_find_gen_unique_from(gs: Seq<GenView>, j: int, i: int)
    requires
        forall|p: int, q: int| 0 <= p < q < gs.len() ==> gs[p].id != gs[q].id,
        0 <= j <= i < gs.len(),
    ensures
        find_gen_from(gs, j, gs[i].id) == Some(i),
    decreases gs.len() - j,
{
    if j < i {
        lemma_find_gen_unique_from(gs, j + 1, i);
    }
}

/// A found generator index is in range and names the id searched for.
pub proof fn lemma_find_gen_from_range(gs: Seq<GenView>, i: int, id: int)
    ensures
        find_gen_from(gs, i, id) matches Some(k) ==> i <= k < gs.len() && gs[k].id == id,
    decreases gs.len() - i,
{
    if 0 <= i < gs.len() && gs[i].id != id {
        lemma_find_gen_from_range(gs, i + 1, id);
    }
}

/// Referential integrity of the metadata graph: ids are unique, every
/// generator's owning stream exists and lists it, every listed generator
/// id resolves to a generator owned by that stream, every relation's
/// endpoint streams exist, each stream has one payload per descriptor, and
/// no transactions are materialized beyond what loads put there.
pub open spec fn wf(f: FtrView) -> bool {
    &&& forall|i: int, j: int|
        0 <= i < j < f.streams.len() ==> f.streams[i].id != f.streams[j].id
    &&& forall|i: int, j: int|
        0 <= i < j < f.generators.len() ==> f.generators[i].id != f.generators[j].id
    &&& forall|i: int|
        0 <= i < f.generators.len() ==> {
            &&& #[trigger] find_stream(f.streams, f.generators[i].stream_id) is Some
            &&& f.streams[find_stream(f.streams, f.generators[i].stream_id).unwrap()].generators
                .contains(f.generators[i].id)
        }
    &&& forall|i: int, j: int|
        0 <= i < f.streams.len() && 0 <= j < f.streams[i].generators.len() ==> {
            &&& #[trigger] find_gen(f.generators, f.streams[i].generators[j]) is Some
            &&& f.generators[find_gen(f.generators, f.streams[i].generators[j]).unwrap()].stream_id
                == f.streams[i].id
        }
    &&& forall|i: int|
        0 <= i < f.relations.len() ==> {
            &&& find_stream(f.streams, #[trigger] f.relations[i].source_stream_id) is Some
            &&& find_stream(f.streams, f.relations[i].sink_stream_id) is Some
        }
    &&& blocks_sized(f)
}

/// Each stream holds one payload per block descriptor.
pub open spec fn blocks_sized(f: FtrView) -> bool {
    forall|i: int|
        0 <= i < f.streams.len() ==> (#[trigger] f.streams[i].block_data).len()
            == f.streams[i].blocks.len()
}

impl FTR {
    fn find_stream_idx_from(&self, i: usize, id: usize) -> (r: Option<usize>)
        requires
            i <= self.tx_streams@.len(),
        ensures
            match find_stream_from(self@.streams, i as int, id as int) {
                None => r is None,
                Some(k) => r == Some(k as usize),
            },
        decreases self.tx_streams@.len() - i,
    {
        if i >= self.tx_streams.len() {
            None
        } else if self.tx_streams[i].id == id {
            Some(i)
        } else {
            self.find_stream_idx_from(i + 1, id)
        }
    }

    /// Index of the stream with the given id in `tx_streams`.
    pub(crate) fn find_stream_idx(&self, id: usize) -> (r: Option<usize>)
        ensures
            match find_stream(self@.streams, id as int) {
                None => r is None,
                Some(k) => r == Some(k as usize),
            },
    {
        self.find_stream_idx_from(0, id)
    }

    fn find_gen_idx_from(&self, i: usize, id: usize) -> (r: Option<usize>)
        requires
            i <= self.tx_generators@.len(),
        ensures
            match find_gen_from(self@.generators, i as int, id as int) {
                None => r is None,
                Some(k) => r == Some(k as usize),
            },
        decreases self.tx_generators@.len() - i,
    {
        if i >= self.tx_generators.len() {
            None
        } else if self.tx_generators[i].id == id {
            Some(i)
        } else {
            self.find_gen_idx_from(i + 1, id)
        }
    }

    /// Index of the generator with the given id in `tx_generators`.
    pub(crate) fn find_gen_idx(&self, id: usize) -> (r: Option<usize>)
        ensures
            match find_gen(self@.generators, id as int) {
                None => r is None,
                Some(k) => r == Some(k as usize),
            },
    {
        self.find_gen_idx_from(0, id)
    }

    /// The stream with the given id, or absence: probing a missing id is
    /// legitimate, not a failure.
    pub fn get_stream(&self, stream_id: usize) -> (r: Option<&TxStream>)
        ensures
            match find_stream(self@.streams, stream_id as int) {
                None => r is None,
                Some(k) => r matches Some(s) && s@ == self@.streams[k],
            },
    {
        let n = self.tx_streams.len();
        proof {
            lemma_find_stream_from_range(self@.streams, 0, stream_id as int);
        }
        match self.find_stream_idx(stream_id) {
            None => None,
            Some(i) => Some(&self.tx_streams[i]),
        }
    }

    /// The generator with the given id, or absence.
    pub fn get_generator(&self, gen_id: usize) -> (r: Option<&TxGenerator>)
        ensures
            match find_gen(self@.generators, gen_id as int) {
                None => r is None,
                Some(k) => r matches Some(g) && g@ == self@.generators[k],
            },
    {
        let n = self.tx_generators.len();
        proof {
            lemma_find_gen_from_range(self@.generators, 0, gen_id as int);
        }
        match self.find_gen_idx(gen_id) {
            None => None,
            Some(i) => Some(&self.tx_generators[i]),
        }
    }
}

/// Index of the first stream with the given name at or after `i`.
pub open spec fn find_stream_by_name_from(ss: Seq<StreamView>, i: int, name: Seq<char>) -> Option<
    int,
>
    decreases ss.len() - i,
{
    if i < 0 || i >= ss.len() {
        None
    } else if ss[i].name == name {
        Some(i)
    } else {
        find_stream_by_name_from(ss, i + 1, name)
    }
}

/// A found stream index is in range and carries the name searched for.
pub proof fn lemma_find_stream_by_name_range(ss: Seq<StreamView>, i: int, name: Seq<char>)
    ensures
        find_stream_by_name_from(ss, i, name) matches Some(k) ==> i <= k < ss.len() && ss[k].name
            == name,
    decreases ss.len() - i,
{
    if 0 <= i < ss.len() && ss[i].name != name {
        lemma_find_stream_by_name_range(ss, i + 1, name);
    }
}

impl FTR {
    fn find_stream_by_name_idx(&self, i: usize, name: &String) -> (r: Option<usize>)
        requires
            i <= self.tx_streams@.len(),
        ensures
            match find_stream_by_name_from(self@.streams, i as int, name@) {
                None => r is None,
                Some(k) => r == Some(k as usize),
            },
        decreases self.tx_streams@.len() - i,
    {
        if i >= self.tx_streams.len() {
            None
        } else if self.tx_streams[i].name == *name {
            Some(i)
        } else {
            self.find_stream_by_name_idx(i + 1, name)
        }
    }

    /// The first stream with the given name, or absence. Linear in the
    /// stream count, which is metadata-sized, not trace-sized.
    pub fn get_stream_from_name(&self, name: String) -> (r: Option<&TxStream>)
        ensures
            match find_stream_by_name_from(self@.streams, 0, name@) {
                None => r is None,
                Some(k) => r matches Some(s) && s@ == self@.streams[k],
            },
    {
        let n = self.tx_streams.len();
        proof {
            lemma_find_stream_by_name_range(self@.streams, 0, name@);
        }
        match self.find_stream_by_name_idx(0, &name) {
            None => None,
            Some(i) => Some(&self.tx_streams[i]),
        }
    }
}

/// The store after dropping one stream's transactions: every generator owned
/// by that stream is emptied; nothing else changes.
pub open spec fn spec_drop(f: FtrView, stream_id: int) -> FtrView {
    FtrView {
        generators: Seq::new(
            f.generators.len(),
            |i: int|
                if f.generators[i].stream_id == stream_id {
                    GenView { transactions: Seq::<TxView>::empty(), ..f.generators[i] }
                } else {
                    f.generators[i]
                },
        ),
        ..f
    }
}

impl FTR {
    /// Drops every transaction of the given stream from memory. Stream and
    /// generator metadata are untouched, so a later load fully reconstructs
    /// the same transactions. This never removes ids.
    pub fn drop_stream_from_memory(&mut self, stream_id: usize) -> (r: Result<(), FtrError>)
        ensures
            match r {
                Ok(()) => find_stream(old(self)@.streams, stream_id as int) is Some && final(self)@
                    == spec_drop(old(self)@, stream_id as int),
                Err(e) => e == FtrError::UnknownStream && find_stream(
                    old(self)@.streams,
                    stream_id as int,
                ) is None && final(self)@ == old(self)@,
            },
    {
        if self.find_stream_idx(stream_id).is_none() {
            proof {
                assert(self@ =~~= old(self)@);
            }
            return Err(FtrError::UnknownStream);
        }
        let n = self.tx_generators.len();
        let mut i: usize = 0;
        while i < n
            invariant
                n == self.tx_generators@.len(),
                n == old(self).tx_generators@.len(),
                i <= n,
                self.time_scale == old(self).time_scale,
                self.max_timestamp == old(self).max_timestamp,
                self.str_dict@ == old(self).str_dict@,
                self.tx_streams@ == old(self).tx_streams@,
                self.tx_relations@ == old(self).tx_relations@,
                self.file_name@ == old(self).file_name@,
                forall|k: int|
                    0 <= k < i ==> #[trigger] self.tx_generators@[k]@ == spec_drop(
                        old(self)@,
                        stream_id as int,
                    ).generators[k],
                forall|k: int|
                    i <= k < n ==> #[trigger] self.tx_generators@[k] == old(self).tx_generators@[k],
            decreases n - i,
        {
            if self.tx_generators[i].stream_id == stream_id {
                self.tx_generators[i].transactions = Vec::new();
                proof {
                    let f = old(self)@;
                    assert(f.generators.len() == n);
                    assert(f.generators[i as int] == old(self).tx_generators@[i as int]@);
                    assert(spec_drop(f, stream_id as int).generators.len() == n);
                    assert(spec_drop(f, stream_id as int).generators[i as int] == (if f.generators[
                        i as int
                    ].stream_id == stream_id as int {
                        GenView {
                            transactions: Seq::<TxView>::empty(),
                            ..f.generators[i as int]
                        }
                    } else {
                        f.generators[i as int]
                    }));
                }
            }
            proof {
                assert(self.tx_generators@[i as int]@ =~~= spec_drop(
                    old(self)@,
                    stream_id as int,
                ).generators[i as int]);
            }
            i = i + 1;
        }
        proof {
            assert(self@ =~~= spec_drop(old(self)@, stream_id as int));
        }
        Ok(())
    }
}

} // verus!
