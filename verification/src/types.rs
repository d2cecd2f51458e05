//! Values, records, filter expressions, pipeline stages and queries.
use crate::storage::key::StreamKey;
use vstd::prelude::*;

verus! {

/// A stored or queried value.
///
/// A floating-point number is carried as its decimal text (`Float`): the
/// shortest text that reads back as the same `f64`, or the literal text a
/// query wrote. Arithmetic on floats is done outside this crate.
/// `Object` holds its entries in ascending key order, each key once.
#[derive(Debug, PartialEq)]
pub enum DataValue {
    Null,
    Bool(bool),
    Int(i64),
    UInt(u64),
    Float(String),
    String(String),
    Binary(Vec<u8>),
    Array(Vec<DataValue>),
    Object(Vec<(String, DataValue)>),
    Vector(Vec<i8>),
}

/// How a payload is laid out on disk.
#[derive(Clone, Copy, Debug, PartialEq, Eq, Structural)]
pub enum PayloadType {
    RawBytes,
    Structured,
    QuantizedVector,
}

impl PayloadType {
    /// The byte that identifies the payload type on disk.
    pub fn code(&self) -> (c: u8)
        ensures
            *self == PayloadType::RawBytes ==> c == 1,
            *self == PayloadType::Structured ==> c == 2,
            *self == PayloadType::QuantizedVector ==> c == 3,
    {
        match self {
            PayloadType::RawBytes => 1,
            PayloadType::Structured => 2,
            PayloadType::QuantizedVector => 3,
        }
    }
}

/// Comparison operators of filter expressions.
#[derive(Clone, Copy, Debug, PartialEq, Eq, Structural)]
pub enum Op {
    Eq,
    NotEq,
    Gt,
    Lt,
    GtEq,
    LtEq,
    In,
    StartsWith,
    Contains,
    EndsWith,
    Between,
}

impl View for Op {
    type V = Op;

    open spec fn view(&self) -> Op {
        *self
    }
}

/// Aggregation of a time window.
#[derive(Clone, Copy, Debug, PartialEq, Eq, Structural)]
pub enum AggregateStrategy {
    Count,
    Sum,
    Average,
}

/// Output format of an export stage.
#[derive(Clone, Copy, Debug, PartialEq, Eq, Structural)]
pub enum ExportFormat {
    Jsonl,
    Csv,
    MsgPack,
}

/// A boolean filter over a record.
#[derive(Debug, PartialEq)]
pub enum FilterExpr {
    Simple { field: String, operator: Op, value: DataValue },
    And { left: Box<FilterExpr>, right: Box<FilterExpr> },
    Or { left: Box<FilterExpr>, right: Box<FilterExpr> },
    Not { expr: Box<FilterExpr> },
}

/// One stage of a query pipeline. `VectorFilter::threshold` is the decimal
/// text of the similarity threshold.
#[derive(Debug, PartialEq)]
pub enum PipelineStage {
    From { stream_name: String },
    Filter { expr: FilterExpr },
    VectorFilter { field: String, query_vector: Vec<i8>, threshold: String },
    Get { key: String },
    MapFields { projections: Vec<String> },
    Window { duration_ms: u64, strategy: AggregateStrategy },
    Limit { count: usize },
    Export { format: ExportFormat },
    Enrich { source_stream: String, join_key: String },
    Delete,
    Trash,
    Count,
    Sort { field: String, descending: bool },
    Page { page_number: usize, page_size: usize },
    PageCursor { cursor: String, page_size: usize },
    Group { field: String, aggregations: Vec<String> },
    Correlate { source_stream: String, join_key: String, within_ms: u64 },
    Sequence { steps: Vec<FilterExpr>, within_ms: u64 },
    Chain { target_stream: String, join_key: String },
    Distinct { field: String },
}

/// A JSON value as queries write it. `Object` keeps its entries in ascending
/// key order with each key once (a later entry for a key replaces an earlier
/// one). `Float` holds the text of a floating-point literal; it stands for the
/// JSON number that the text reads as, or `null` when that is not finite.
#[derive(Debug, PartialEq)]
pub enum JsonValue {
    Null,
    Bool(bool),
    Int(i64),
    UInt(u64),
    Float(String),
    String(String),
    Array(Vec<JsonValue>),
    Object(Vec<(String, JsonValue)>),
}

/// A parsed query.
#[derive(Debug, PartialEq)]
pub enum Query {
    Pipeline(Vec<PipelineStage>),
    Insert { stream_name: String, key: String, value: JsonValue },
    InsertBatch { stream_name: String, batch: Vec<(String, JsonValue)> },
    Upsert { stream_name: String, key: String, value: JsonValue },
    UpsertBatch { stream_name: String, batch: Vec<(String, JsonValue)> },
    Update { stream_name: String, key: String, value: JsonValue },
    DeleteKey { stream_name: String, key: String },
    Empty { stream_name: String },
    Drop { stream_name: String },
    PipelineUpdate { pipeline: Vec<PipelineStage>, update_value: JsonValue },
    PipelineDelete { pipeline: Vec<PipelineStage> },
    ListStreams,
    Status,
    Listen { pipeline: Vec<PipelineStage> },
    Explain { inner_query: Box<Query> },
}

impl Query {
    /// A short name of the query's kind.
    pub fn variant_name(&self) -> (r: &'static str)
        ensures
            self is Pipeline ==> r@ == "pipeline"@,
            self is Insert ==> r@ == "insert"@,
            self is InsertBatch ==> r@ == "insert_batch"@,
            self is Upsert ==> r@ == "upsert"@,
            self is UpsertBatch ==> r@ == "upsert_batch"@,
            self is Update ==> r@ == "update"@,
            self is DeleteKey ==> r@ == "delete_key"@,
            self is Empty ==> r@ == "empty"@,
            self is Drop ==> r@ == "drop"@,
            self is PipelineUpdate ==> r@ == "pipeline_update"@,
            self is PipelineDelete ==> r@ == "pipeline_delete"@,
            self is ListStreams ==> r@ == "list_streams"@,
            self is Status ==> r@ == "status"@,
            self is Listen ==> r@ == "listen"@,
            self is Explain ==> r@ == "explain"@,
    {
        match self {
            Query::Pipeline(_) => "pipeline",
            Query::Insert { .. } => "insert",
            Query::InsertBatch { .. } => "insert_batch",
            Query::Upsert { .. } => "upsert",
            Query::UpsertBatch { .. } => "upsert_batch",
            Query::Update { .. } => "update",
            Query::DeleteKey { .. } => "delete_key",
            Query::Empty { .. } => "empty",
            Query::Drop { .. } => "drop",
            Query::PipelineUpdate { .. } => "pipeline_update",
            Query::PipelineDelete { .. } => "pipeline_delete",
            Query::ListStreams => "list_streams",
            Query::Status => "status",
            Query::Listen { .. } => "listen",
            Query::Explain { .. } => "explain",
        }
    }
}

/// Where a record's frame lives: a segment file and a byte offset in it.
#[derive(Clone, Copy, Debug, PartialEq, Eq, Structural)]
pub struct LogPointer {
    pub segment_id: u64,
    pub file_offset: u64,
}

/// A stored record.
#[derive(PartialEq)]
pub struct Record {
    pub sequence_id: u64,
    pub timestamp: i64,
    pub type_tag: u8,
    pub flags: u8,
    pub stream_name: String,
    pub key: StreamKey,
    pub value: DataValue,
}

/// The type tag of a value as stored on disk.
pub open spec fn spec_type_tag(v: DataValue) -> u8 {
    match v {
        DataValue::Null => 0,
        DataValue::Bool(_) => 1,
        DataValue::Int(_) => 2,
        DataValue::UInt(_) => 3,
        DataValue::Float(_) => 4,
        DataValue::String(_) => 5,
        DataValue::Binary(_) => 6,
        DataValue::Array(_) => 7,
        DataValue::Object(_) => 9,
        DataValue::Vector(_) => 8,
    }
}

impl DataValue {
    /// The type tag of this value as stored on disk.
    pub fn type_tag(&self) -> (t: u8)
        ensures
            t == spec_type_tag(*self),
    {
        match self {
            DataValue::Null => 0,
            DataValue::Bool(_) => 1,
            DataValue::Int(_) => 2,
            DataValue::UInt(_) => 3,
            DataValue::Float(_) => 4,
            DataValue::String(_) => 5,
            DataValue::Binary(_) => 6,
            DataValue::Array(_) => 7,
            DataValue::Object(_) => 9,
            DataValue::Vector(_) => 8,
        }
    }
}


/// The mathematical model of a [`DataValue`].
pub enum DataValueV {
    Null,
    Bool(bool),
    Int(i64),
    UInt(u64),
    Float(Seq<char>),
    Str(Seq<char>),
    Binary(Seq<u8>),
    Array(Seq<DataValueV>),
    Object(Seq<(Seq<char>, DataValueV)>),
    Vector(Seq<i8>),
}

impl View for DataValue {
    type V = DataValueV;

    open spec fn view(&self) -> DataValueV
        decreases self, 0int,
    {
        match self {
            DataValue::Null => DataValueV::Null,
            DataValue::Bool(b) => DataValueV::Bool(*b),
            DataValue::Int(i) => DataValueV::Int(*i),
            DataValue::UInt(u) => DataValueV::UInt(*u),
            DataValue::Float(t) => DataValueV::Float(t@),
            DataValue::String(t) => DataValueV::Str(t@),
            DataValue::Binary(b) => DataValueV::Binary(b@),
            DataValue::Array(items) => DataValueV::Array(data_values_view(items@)),
            DataValue::Object(entries) => DataValueV::Object(data_entries_view(entries@)),
            DataValue::Vector(v) => DataValueV::Vector(v@),
        }
    }
}

/// The models of the values, in order.
pub open spec fn data_values_view(v: Seq<DataValue>) -> Seq<DataValueV>
    decreases v, 1int,
{
    if v.len() == 0 {
        Seq::empty()
    } else {
        data_values_view(v.drop_last()).push(v.last().view())
    }
}

/// The models of the (key, value) entries, in order.
pub open spec fn data_entries_view(v: Seq<(String, DataValue)>) -> Seq<(Seq<char>, DataValueV)>
    decreases v, 1int,
{
    if v.len() == 0 {
        Seq::empty()
    } else {
        data_entries_view(v.drop_last()).push((v.last().0@, v.last().1.view()))
    }
}

/// Pushing a value pushes its model.
pub proof fn lemma_data_values_view_push(v: Seq<DataValue>, x: DataValue)
    ensures
        data_values_view(v.push(x)) == data_values_view(v).push(x@),
{
    assert(v.push(x).drop_last() =~= v);
}

/// The models of values, index by index.
pub proof fn lemma_data_values_view_index(v: Seq<DataValue>)
    ensures
        data_values_view(v).len() == v.len(),
        forall|i: int| 0 <= i < v.len() ==> #[trigger] data_values_view(v)[i] == v[i]@,
    decreases v.len(),
{
    if v.len() > 0 {
        lemma_data_values_view_index(v.drop_last());
        assert(data_values_view(v) == data_values_view(v.drop_last()).push(v.last()@));
        assert forall|i: int| 0 <= i < v.len() implies #[trigger] data_values_view(v)[i] == v[i]@ by {
            if i < v.len() - 1 {
                assert(v.drop_last()[i] == v[i]);
            }
        }
    }
}

/// The models of entries, index by index.
pub proof fn lemma_data_entries_view_index(v: Seq<(String, DataValue)>)
    ensures
        data_entries_view(v).len() == v.len(),
        forall|i: int| 0 <= i < v.len() ==> #[trigger] data_entries_view(v)[i] == (v[i].0@, v[i].1@),
    decreases v.len(),
{
    if v.len() > 0 {
        lemma_data_entries_view_index(v.drop_last());
        assert(data_entries_view(v) == data_entries_view(v.drop_last()).push((v.last().0@, v.last().1@)));
        assert forall|i: int| 0 <= i < v.len() implies #[trigger] data_entries_view(v)[i] == (v[i].0@, v[i].1@) by {
            if i < v.len() - 1 {
                assert(v.drop_last()[i] == v[i]);
            }
        }
    }
}

/// The mathematical model of a [`FilterExpr`].
pub enum FilterExprV {
    Simple { field: Seq<char>, operator: Op, value: DataValueV },
    And { left: Box<FilterExprV>, right: Box<FilterExprV> },
    Or { left: Box<FilterExprV>, right: Box<FilterExprV> },
    Not { expr: Box<FilterExprV> },
}

impl View for FilterExpr {
    type V = FilterExprV;

    open spec fn view(&self) -> FilterExprV
        decreases self,
    {
        match self {
            FilterExpr::Simple { field, operator, value } => FilterExprV::Simple {
                field: field@,
                operator: *operator,
                value: value@,
            },
            FilterExpr::And { left, right } => FilterExprV::And {
                left: Box::new((**left).view()),
                right: Box::new((**right).view()),
            },
            FilterExpr::Or { left, right } => FilterExprV::Or {
                left: Box::new((**left).view()),
                right: Box::new((**right).view()),
            },
            FilterExpr::Not { expr } => FilterExprV::Not { expr: Box::new((**expr).view()) },
        }
    }
}

/// The characters of each string, in order.
pub open spec fn strings_view(v: Seq<String>) -> Seq<Seq<char>> {
    Seq::new(v.len(), |i: int| v[i]@)
}

/// The models of the filter expressions, in order.
pub open spec fn filters_view(v: Seq<FilterExpr>) -> Seq<FilterExprV> {
    Seq::new(v.len(), |i: int| v[i]@)
}

/// The mathematical model of a [`PipelineStage`].
pub enum StageV {
    From { stream_name: Seq<char> },
    Filter { expr: FilterExprV },
    VectorFilter { field: Seq<char>, query_vector: Seq<i8>, threshold: Seq<char> },
    Get { key: Seq<char> },
    MapFields { projections: Seq<Seq<char>> },
    Window { duration_ms: u64, strategy: AggregateStrategy },
    Limit { count: usize },
    Export { format: ExportFormat },
    Enrich { source_stream: Seq<char>, join_key: Seq<char> },
    Delete,
    Trash,
    Count,
    Sort { field: Seq<char>, descending: bool },
    Page { page_number: usize, page_size: usize },
    PageCursor { cursor: Seq<char>, page_size: usize },
    Group { field: Seq<char>, aggregations: Seq<Seq<char>> },
    Correlate { source_stream: Seq<char>, join_key: Seq<char>, within_ms: u64 },
    Sequence { steps: Seq<FilterExprV>, within_ms: u64 },
    Chain { target_stream: Seq<char>, join_key: Seq<char> },
    Distinct { field: Seq<char> },
}

impl View for PipelineStage {
    type V = StageV;

    open spec fn view(&self) -> StageV {
        match self {
            PipelineStage::From { stream_name } => StageV::From { stream_name: stream_name@ },
            PipelineStage::Filter { expr } => StageV::Filter { expr: expr@ },
            PipelineStage::VectorFilter { field, query_vector, threshold } => StageV::VectorFilter {
                field: field@,
                query_vector: query_vector@,
                threshold: threshold@,
            },
            PipelineStage::Get { key } => StageV::Get { key: key@ },
            PipelineStage::MapFields { projections } => StageV::MapFields {
                projections: strings_view(projections@),
            },
            PipelineStage::Window { duration_ms, strategy } => StageV::Window {
                duration_ms: *duration_ms,
                strategy: *strategy,
            },
            PipelineStage::Limit { count } => StageV::Limit { count: *count },
            PipelineStage::Export { format } => StageV::Export { format: *format },
            PipelineStage::Enrich { source_stream, join_key } => StageV::Enrich {
                source_stream: source_stream@,
                join_key: join_key@,
            },
            PipelineStage::Delete => StageV::Delete,
            PipelineStage::Trash => StageV::Trash,
            PipelineStage::Count => StageV::Count,
            PipelineStage::Sort { field, descending } => StageV::Sort {
                field: field@,
                descending: *descending,
            },
            PipelineStage::Page { page_number, page_size } => StageV::Page {
                page_number: *page_number,
                page_size: *page_size,
            },
            PipelineStage::PageCursor { cursor, page_size } => StageV::PageCursor {
                cursor: cursor@,
                page_size: *page_size,
            },
            PipelineStage::Group { field, aggregations } => StageV::Group {
                field: field@,
                aggregations: strings_view(aggregations@),
            },
            PipelineStage::Correlate { source_stream, join_key, within_ms } => StageV::Correlate {
                source_stream: source_stream@,
                join_key: join_key@,
                within_ms: *within_ms,
            },
            PipelineStage::Sequence { steps, within_ms } => StageV::Sequence {
                steps: filters_view(steps@),
                within_ms: *within_ms,
            },
            PipelineStage::Chain { target_stream, join_key } => StageV::Chain {
                target_stream: target_stream@,
                join_key: join_key@,
            },
            PipelineStage::Distinct { field } => StageV::Distinct { field: field@ },
        }
    }
}

/// The models of the stages, in order.
pub open spec fn stages_view(v: Seq<PipelineStage>) -> Seq<StageV> {
    Seq::new(v.len(), |i: int| v[i]@)
}

/// The mathematical model of a [`JsonValue`].
pub enum JsonV {
    Null,
    Bool(bool),
    Int(i64),
    UInt(u64),
    Float(Seq<char>),
    Str(Seq<char>),
    Array(Seq<JsonV>),
    Object(Seq<(Seq<char>, JsonV)>),
}

impl View for JsonValue {
    type V = JsonV;

    open spec fn view(&self) -> JsonV
        decreases self, 0int,
    {
        match self {
            JsonValue::Null => JsonV::Null,
            JsonValue::Bool(b) => JsonV::Bool(*b),
            JsonValue::Int(i) => JsonV::Int(*i),
            JsonValue::UInt(u) => JsonV::UInt(*u),
            JsonValue::Float(t) => JsonV::Float(t@),
            JsonValue::String(t) => JsonV::Str(t@),
            JsonValue::Array(items) => JsonV::Array(json_values_view(items@)),
            JsonValue::Object(entries) => JsonV::Object(json_entries_view(entries@)),
        }
    }
}

/// The models of the JSON values, in order.
pub open spec fn json_values_view(v: Seq<JsonValue>) -> Seq<JsonV>
    decreases v, 1int,
{
    if v.len() == 0 {
        Seq::empty()
    } else {
        json_values_view(v.drop_last()).push(v.last().view())
    }
}

/// The models of the JSON object entries, in order.
pub open spec fn json_entries_view(v: Seq<(String, JsonValue)>) -> Seq<(Seq<char>, JsonV)>
    decreases v, 1int,
{
    if v.len() == 0 {
        Seq::empty()
    } else {
        json_entries_view(v.drop_last()).push((v.last().0@, v.last().1.view()))
    }
}

pub proof fn lemma_json_values_view_push(v: Seq<JsonValue>, x: JsonValue)
    ensures
        json_values_view(v.push(x)) == json_values_view(v).push(x@),
{
    assert(v.push(x).drop_last() =~= v);
}

pub proof fn lemma_json_entries_view_push(v: Seq<(String, JsonValue)>, x: (String, JsonValue))
    ensures
        json_entries_view(v.push(x)) == json_entries_view(v).push((x.0@, x.1@)),
{
    assert(v.push(x).drop_last() =~= v);
}

/// The models of (key, value) pairs, in order.
pub open spec fn batch_view(v: Seq<(String, JsonValue)>) -> Seq<(Seq<char>, JsonV)> {
    Seq::new(v.len(), |i: int| (v[i].0@, v[i].1@))
}

/// The mathematical model of a [`Query`].
pub enum QueryV {
    Pipeline(Seq<StageV>),
    Insert { stream_name: Seq<char>, key: Seq<char>, value: JsonV },
    InsertBatch { stream_name: Seq<char>, batch: Seq<(Seq<char>, JsonV)> },
    Upsert { stream_name: Seq<char>, key: Seq<char>, value: JsonV },
    UpsertBatch { stream_name: Seq<char>, batch: Seq<(Seq<char>, JsonV)> },
    Update { stream_name: Seq<char>, key: Seq<char>, value: JsonV },
    DeleteKey { stream_name: Seq<char>, key: Seq<char> },
    Empty { stream_name: Seq<char> },
    Drop { stream_name: Seq<char> },
    PipelineUpdate { pipeline: Seq<StageV>, update_value: JsonV },
    PipelineDelete { pipeline: Seq<StageV> },
    ListStreams,
    Status,
    Listen { pipeline: Seq<StageV> },
    Explain { inner_query: Box<QueryV> },
}

impl View for Query {
    type V = QueryV;

    open spec fn view(&self) -> QueryV
        decreases self,
    {
        match self {
            Query::Pipeline(stages) => QueryV::Pipeline(stages_view(stages@)),
            Query::Insert { stream_name, key, value } => QueryV::Insert {
                stream_name: stream_name@,
                key: key@,
                value: value@,
            },
            Query::InsertBatch { stream_name, batch } => QueryV::InsertBatch {
                stream_name: stream_name@,
                batch: batch_view(batch@),
            },
            Query::Upsert { stream_name, key, value } => QueryV::Upsert {
                stream_name: stream_name@,
                key: key@,
                value: value@,
            },
            Query::UpsertBatch { stream_name, batch } => QueryV::UpsertBatch {
                stream_name: stream_name@,
                batch: batch_view(batch@),
            },
            Query::Update { stream_name, key, value } => QueryV::Update {
                stream_name: stream_name@,
                key: key@,
                value: value@,
            },
            Query::DeleteKey { stream_name, key } => QueryV::DeleteKey {
                stream_name: stream_name@,
                key: key@,
            },
            Query::Empty { stream_name } => QueryV::Empty { stream_name: stream_name@ },
            Query::Drop { stream_name } => QueryV::Drop { stream_name: stream_name@ },
            Query::PipelineUpdate { pipeline, update_value } => QueryV::PipelineUpdate {
                pipeline: stages_view(pipeline@),
                update_value: update_value@,
            },
            Query::PipelineDelete { pipeline } => QueryV::PipelineDelete {
                pipeline: stages_view(pipeline@),
            },
            Query::ListStreams => QueryV::ListStreams,
            Query::Status => QueryV::Status,
            Query::Listen { pipeline } => QueryV::Listen { pipeline: stages_view(pipeline@) },
            Query::Explain { inner_query } => QueryV::Explain {
                inner_query: Box::new((**inner_query).view()),
            },
        }
    }
}

/// The value that a parsed JSON document is held as: each scalar as it is,
/// arrays item by item and objects entry by entry.
pub open spec fn json_value_data(v: JsonV) -> DataValueV
    decreases v, 0int,
{
    match v {
        JsonV::Null => DataValueV::Null,
        JsonV::Bool(b) => DataValueV::Bool(b),
        JsonV::Int(i) => DataValueV::Int(i),
        JsonV::UInt(u) => DataValueV::UInt(u),
        JsonV::Float(t) => DataValueV::Float(t),
        JsonV::Str(t) => DataValueV::Str(t),
        JsonV::Array(items) => DataValueV::Array(json_value_items(items)),
        JsonV::Object(es) => DataValueV::Object(json_value_entries(es)),
    }
}

/// The values of JSON items, in order (see [`json_value_data`]).
pub open spec fn json_value_items(items: Seq<JsonV>) -> Seq<DataValueV>
    decreases items, 1int,
{
    if items.len() == 0 {
        Seq::empty()
    } else {
        json_value_items(items.drop_last()).push(json_value_data(items.last()))
    }
}

/// The entries of a JSON object as values, in order (see [`json_value_data`]).
pub open spec fn json_value_entries(es: Seq<(Seq<char>, JsonV)>) -> Seq<(Seq<char>, DataValueV)>
    decreases es, 1int,
{
    if es.len() == 0 {
        Seq::empty()
    } else {
        json_value_entries(es.drop_last()).push((es.last().0, json_value_data(es.last().1)))
    }
}

/// Converts a JSON document to a value (see [`json_value_data`]).
pub fn json_to_datavalue(json: &JsonValue) -> (r: DataValue)
    ensures
        r@ == json_value_data(json@),
    decreases json, 0int,
{
    match json {
        JsonValue::Null => DataValue::Null,
        JsonValue::Bool(b) => DataValue::Bool(*b),
        JsonValue::Int(i) => DataValue::Int(*i),
        JsonValue::UInt(u) => DataValue::UInt(*u),
        JsonValue::Float(t) => DataValue::Float(t.clone()),
        JsonValue::String(t) => DataValue::String(t.clone()),
        JsonValue::Array(items) => DataValue::Array(json_items_to_values(items)),
        JsonValue::Object(es) => DataValue::Object(json_entries_to_values(es)),
    }
}

fn json_items_to_values(items: &Vec<JsonValue>) -> (r: Vec<DataValue>)
    ensures
        data_values_view(r@) == json_value_items(json_values_view(items@)),
    decreases items, 0int,
{
    let ghost iv = json_values_view(items@);
    proof {
        crate::query_parser::lemma_json_values_view_index(items@);
        assert(iv.take(0) =~= Seq::<JsonV>::empty());
    }
    let mut out: Vec<DataValue> = Vec::new();
    let mut i: usize = 0;
    while i < items.len()
        invariant
            i <= items@.len(),
            iv == json_values_view(items@),
            iv.len() == items@.len(),
            forall|k: int| 0 <= k < items@.len() ==> #[trigger] iv[k] == items@[k]@,
            data_values_view(out@) == json_value_items(iv.take(i as int)),
        decreases items.len() - i,
    {
        let d = json_to_datavalue(&items[i]);
        let ghost before = out@;
        out.push(d);
        proof {
            let t = iv.take(i + 1);
            assert(t.drop_last() =~= iv.take(i as int));
            assert(t.last() == items@[i as int]@);
            lemma_data_values_view_push(before, d);
        }
        i += 1;
    }
    assert(iv.take(iv.len() as int) =~= iv);
    out
}

fn json_entries_to_values(es: &Vec<(String, JsonValue)>) -> (r: Vec<(String, DataValue)>)
    ensures
        data_entries_view(r@) == json_value_entries(json_entries_view(es@)),
    decreases es, 0int,
{
    let ghost ev = json_entries_view(es@);
    proof {
        crate::query_parser::lemma_json_entries_view_index(es@);
        assert(ev.take(0) =~= Seq::<(Seq<char>, JsonV)>::empty());
    }
    let mut out: Vec<(String, DataValue)> = Vec::new();
    let mut i: usize = 0;
    while i < es.len()
        invariant
            i <= es@.len(),
            ev == json_entries_view(es@),
            ev.len() == es@.len(),
            forall|k: int| 0 <= k < es@.len() ==> #[trigger] ev[k] == (es@[k].0@, es@[k].1@),
            data_entries_view(out@) == json_value_entries(ev.take(i as int)),
        decreases es.len() - i,
    {
        let d = json_to_datavalue(&es[i].1);
        let k = es[i].0.clone();
        let ghost before = out@;
        out.push((k, d));
        proof {
            let t = ev.take(i + 1);
            assert(t.drop_last() =~= ev.take(i as int));
            assert(t.last() == ev[i as int]);
            assert(out@.drop_last() =~= before);
        }
        i += 1;
    }
    assert(ev.take(ev.len() as int) =~= ev);
    out
}

/// The value of a text read as JSON: the parsed document (see
/// [`json_value_data`]), or the text itself when it is not JSON.
pub fn parse_json_to_datavalue(s: &str) -> (r: DataValue)
    ensures
        match crate::json_doc::json_doc_of(s@) {
            Some(j) => r@ == json_value_data(j),
            None => r@ == DataValueV::Str(s@),
        },
{
    match crate::json_doc::parse_json_doc(s) {
        Some(j) => json_to_datavalue(&j),
        None => DataValue::String(crate::text::owned(s)),
    }
}

} // verus!
