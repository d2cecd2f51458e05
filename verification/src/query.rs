//! Typed builders for queries, pipelines and filters.
use crate::types::{
    filters_view, strings_view, AggregateStrategy, DataValue, DataValueV, FilterExpr, FilterExprV, JsonValue,
    Op, PipelineStage, Query, QueryV, StageV,
};
use vstd::prelude::*;

verus! {

impl Query {
    /// An insert of one key.
    pub fn insert(stream_name: String, key: String, value: JsonValue) -> (q: Query)
        ensures
            q@ == (QueryV::Insert { stream_name: stream_name@, key: key@, value: value@ }),
    {
        Query::Insert { stream_name, key, value }
    }

    /// An insert of several keys.
    pub fn insert_batch(stream_name: String, batch: Vec<(String, JsonValue)>) -> (q: Query)
        ensures
            q@ == (QueryV::InsertBatch { stream_name: stream_name@, batch: crate::types::batch_view(batch@) }),
    {
        Query::InsertBatch { stream_name, batch }
    }

    /// An upsert of one key.
    pub fn upsert(stream_name: String, key: String, value: JsonValue) -> (q: Query)
        ensures
            q@ == (QueryV::Upsert { stream_name: stream_name@, key: key@, value: value@ }),
    {
        Query::Upsert { stream_name, key, value }
    }

    /// An upsert of several keys.
    pub fn upsert_batch(stream_name: String, batch: Vec<(String, JsonValue)>) -> (q: Query)
        ensures
            q@ == (QueryV::UpsertBatch { stream_name: stream_name@, batch: crate::types::batch_view(batch@) }),
    {
        Query::UpsertBatch { stream_name, batch }
    }

    /// An update that merges a value into an existing record.
    pub fn update(stream_name: String, key: String, value: JsonValue) -> (q: Query)
        ensures
            q@ == (QueryV::Update { stream_name: stream_name@, key: key@, value: value@ }),
    {
        Query::Update { stream_name, key, value }
    }

    /// A delete of one key.
    pub fn delete(stream_name: String, key: String) -> (q: Query)
        ensures
            q@ == (QueryV::DeleteKey { stream_name: stream_name@, key: key@ }),
    {
        Query::DeleteKey { stream_name, key }
    }

    /// Clears all records of a stream.
    pub fn empty(stream_name: String) -> (q: Query)
        ensures
            q@ == (QueryV::Empty { stream_name: stream_name@ }),
    {
        Query::Empty { stream_name }
    }

    /// Removes a stream entirely.
    pub fn drop_stream(stream_name: String) -> (q: Query)
        ensures
            q@ == (QueryV::Drop { stream_name: stream_name@ }),
    {
        Query::Drop { stream_name }
    }

    /// Lists the streams.
    pub fn list_streams() -> (q: Query)
        ensures
            q@ == QueryV::ListStreams,
    {
        Query::ListStreams
    }

    /// Reports the engine's status.
    pub fn status() -> (q: Query)
        ensures
            q@ == QueryV::Status,
    {
        Query::Status
    }
}

/// A pipeline under construction: a `from` stage, then the stages added in order.
pub struct Pipeline {
    stages: Vec<PipelineStage>,
}

impl View for Pipeline {
    type V = Seq<StageV>;

    closed spec fn view(&self) -> Seq<StageV> {
        crate::types::stages_view(self.stages@)
    }
}

impl Pipeline {
    /// A pipeline reading the given stream.
    pub fn from(stream_name: String) -> (p: Pipeline)
        ensures
            p@ == seq![StageV::From { stream_name: stream_name@ }],
    {
        let mut stages: Vec<PipelineStage> = Vec::new();
        stages.push(PipelineStage::From { stream_name });
        let p = Pipeline { stages };
        assert(p@ =~= seq![p.stages@[0]@]);
        p
    }

    fn push_stage(self, st: PipelineStage) -> (p: Pipeline)
        ensures
            p@ == self@.push(st@),
    {
        let mut stages = self.stages;
        let ghost old_stages = stages@;
        stages.push(st);
        let p = Pipeline { stages };
        assert(p@ =~= crate::types::stages_view(old_stages).push(st@));
        p
    }

    /// Adds a filter stage.
    pub fn filter(self, filter: Filter) -> (p: Pipeline)
        ensures
            p@ == self@.push(StageV::Filter { expr: filter@ }),
    {
        self.push_stage(PipelineStage::Filter { expr: filter.0 })
    }

    /// Adds a vector similarity filter; the threshold is its decimal text.
    pub fn vector_filter(self, field: String, query_vector: Vec<i8>, threshold: String) -> (p: Pipeline)
        ensures
            p@ == self@.push(StageV::VectorFilter { field: field@, query_vector: query_vector@, threshold: threshold@ }),
    {
        self.push_stage(PipelineStage::VectorFilter { field, query_vector, threshold })
    }

    /// Adds a point lookup by key.
    pub fn get(self, key: String) -> (p: Pipeline)
        ensures
            p@ == self@.push(StageV::Get { key: key@ }),
    {
        self.push_stage(PipelineStage::Get { key })
    }

    /// Adds a projection onto the given fields.
    pub fn map(self, fields: Vec<String>) -> (p: Pipeline)
        ensures
            p@ == self@.push(StageV::MapFields { projections: strings_view(fields@) }),
    {
        self.push_stage(PipelineStage::MapFields { projections: fields })
    }

    /// Adds a time-window aggregation.
    pub fn window(self, duration_ms: u64, strategy: AggregateStrategy) -> (p: Pipeline)
        ensures
            p@ == self@.push(StageV::Window { duration_ms, strategy }),
    {
        self.push_stage(PipelineStage::Window { duration_ms, strategy })
    }

    /// Adds a limit on the number of records.
    pub fn limit(self, count: usize) -> (p: Pipeline)
        ensures
            p@ == self@.push(StageV::Limit { count }),
    {
        self.push_stage(PipelineStage::Limit { count })
    }

    /// Adds a sort by a field.
    pub fn sort(self, field: String, descending: bool) -> (p: Pipeline)
        ensures
            p@ == self@.push(StageV::Sort { field: field@, descending }),
    {
        self.push_stage(PipelineStage::Sort { field, descending })
    }

    /// Adds offset pagination.
    pub fn page(self, page_number: usize, page_size: usize) -> (p: Pipeline)
        ensures
            p@ == self@.push(StageV::Page { page_number, page_size }),
    {
        self.push_stage(PipelineStage::Page { page_number, page_size })
    }

    /// Adds cursor pagination.
    pub fn page_cursor(self, cursor: String, page_size: usize) -> (p: Pipeline)
        ensures
            p@ == self@.push(StageV::PageCursor { cursor: cursor@, page_size }),
    {
        self.push_stage(PipelineStage::PageCursor { cursor, page_size })
    }

    /// Adds a count of the records.
    pub fn count(self) -> (p: Pipeline)
        ensures
            p@ == self@.push(StageV::Count),
    {
        self.push_stage(PipelineStage::Count)
    }

    /// Adds a group-by with aggregations.
    pub fn group(self, field: String, aggregations: Vec<String>) -> (p: Pipeline)
        ensures
            p@ == self@.push(StageV::Group { field: field@, aggregations: strings_view(aggregations@) }),
    {
        self.push_stage(PipelineStage::Group { field, aggregations })
    }

    /// Adds a time-bounded correlation with another stream.
    pub fn correlate(self, source_stream: String, join_key: String, within_ms: u64) -> (p: Pipeline)
        ensures
            p@ == self@.push(StageV::Correlate { source_stream: source_stream@, join_key: join_key@, within_ms }),
    {
        self.push_stage(PipelineStage::Correlate { source_stream, join_key, within_ms })
    }

    /// Adds a follow-up lookup in another stream.
    pub fn chain(self, target_stream: String, join_key: String) -> (p: Pipeline)
        ensures
            p@ == self@.push(StageV::Chain { target_stream: target_stream@, join_key: join_key@ }),
    {
        self.push_stage(PipelineStage::Chain { target_stream, join_key })
    }

    /// Adds deduplication by a field.
    pub fn distinct(self, field: String) -> (p: Pipeline)
        ensures
            p@ == self@.push(StageV::Distinct { field: field@ }),
    {
        self.push_stage(PipelineStage::Distinct { field })
    }

    /// Adds an enrichment from another stream.
    pub fn enrich(self, source_stream: String, join_key: String) -> (p: Pipeline)
        ensures
            p@ == self@.push(StageV::Enrich { source_stream: source_stream@, join_key: join_key@ }),
    {
        self.push_stage(PipelineStage::Enrich { source_stream, join_key })
    }

    /// Adds an ordered sequence of conditions to match within a time window.
    pub fn sequence(self, steps: Vec<Filter>, within_ms: u64) -> (p: Pipeline)
        ensures
            p@ == self@.push(StageV::Sequence { steps: Seq::new(steps@.len(), |i: int| steps@[i]@), within_ms }),
    {
        let mut exprs: Vec<FilterExpr> = Vec::new();
        let mut rest = steps;
        let ghost orig = rest@;
        let n = rest.len();
        let mut i: usize = 0;
        while i < n
            invariant
                i <= n == orig.len(),
                rest@ == orig.subrange(i as int, n as int),
                exprs@.len() == i,
                forall|k: int| 0 <= k < i ==> #[trigger] exprs@[k]@ == orig[k]@,
            decreases n - i,
        {
            let f = rest.remove(0);
            exprs.push(f.0);
            proof {
                assert(rest@ =~= orig.subrange(i + 1, n as int));
            }
            i += 1;
        }
        let ghost ev = filters_view(exprs@);
        assert(ev =~= Seq::new(orig.len(), |k: int| orig[k]@));
        self.push_stage(PipelineStage::Sequence { steps: exprs, within_ms })
    }

    /// The pipeline as a query.
    pub fn build(self) -> (q: Query)
        ensures
            q@ == QueryV::Pipeline(self@),
    {
        Query::Pipeline(self.stages)
    }

    /// The pipeline as a live subscription.
    pub fn build_listen(self) -> (q: Query)
        ensures
            q@ == (QueryV::Listen { pipeline: self@ }),
    {
        Query::Listen { pipeline: self.stages }
    }

    /// An update of every record that the pipeline selects.
    pub fn build_update(self, update_value: JsonValue) -> (q: Query)
        ensures
            q@ == (QueryV::PipelineUpdate { pipeline: self@, update_value: update_value@ }),
    {
        Query::PipelineUpdate { pipeline: self.stages, update_value }
    }

    /// A delete of every record that the pipeline selects.
    pub fn build_delete(self) -> (q: Query)
        ensures
            q@ == (QueryV::PipelineDelete { pipeline: self@ }),
    {
        Query::PipelineDelete { pipeline: self.stages }
    }
}

/// A filter under construction.
pub struct Filter(FilterExpr);

impl View for Filter {
    type V = FilterExprV;

    closed spec fn view(&self) -> FilterExprV {
        self.0@
    }
}

/// The left-nested conjunction (or disjunction) of the filters, in order.
pub open spec fn fold_filters(fs: Seq<FilterExprV>, and: bool) -> FilterExprV
    decreases fs.len(),
{
    if fs.len() <= 1 {
        fs[0]
    } else if and {
        FilterExprV::And { left: Box::new(fold_filters(fs.drop_last(), and)), right: Box::new(fs.last()) }
    } else {
        FilterExprV::Or { left: Box::new(fold_filters(fs.drop_last(), and)), right: Box::new(fs.last()) }
    }
}

impl Filter {
    /// Starts a condition on a field.
    pub fn field(field: String) -> (f: FieldFilter)
        ensures
            f.field@ == field@,
    {
        FieldFilter { field }
    }

    fn fold(filters: Vec<Filter>, and: bool) -> (f: Filter)
        requires
            filters@.len() >= 1,
        ensures
            f@ == fold_filters(Seq::new(filters@.len(), |i: int| filters@[i]@), and),
    {
        let ghost fv = Seq::new(filters@.len(), |i: int| filters@[i]@);
        let mut rest = filters;
        let ghost orig = rest@;
        let n = rest.len();
        let first = rest.remove(0);
        let mut expr = first.0;
        let mut i: usize = 1;
        assert(fv.subrange(0, 1).len() == 1);
        while i < n
            invariant
                1 <= i <= n == orig.len(),
                fv == Seq::new(orig.len(), |k: int| orig[k]@),
                rest@ == orig.subrange(i as int, n as int),
                expr@ == fold_filters(fv.subrange(0, i as int), and),
            decreases n - i,
        {
            let f = rest.remove(0);
            proof {
                assert(f == orig[i as int]);
                assert(rest@ =~= orig.subrange(i + 1, n as int));
                assert(fv.subrange(0, i + 1).drop_last() =~= fv.subrange(0, i as int));
            }
            if and {
                expr = FilterExpr::And { left: Box::new(expr), right: Box::new(f.0) };
            } else {
                expr = FilterExpr::Or { left: Box::new(expr), right: Box::new(f.0) };
            }
            i += 1;
        }
        assert(fv.subrange(0, n as int) =~= fv);
        Filter(expr)
    }

    /// All the filters: left-nested `and`. The list must not be empty.
    pub fn and(filters: Vec<Filter>) -> (f: Filter)
        requires
            filters@.len() >= 1,
        ensures
            f@ == fold_filters(Seq::new(filters@.len(), |i: int| filters@[i]@), true),
    {
        Self::fold(filters, true)
    }

    /// Any of the filters: left-nested `or`. The list must not be empty.
    pub fn or(filters: Vec<Filter>) -> (f: Filter)
        requires
            filters@.len() >= 1,
        ensures
            f@ == fold_filters(Seq::new(filters@.len(), |i: int| filters@[i]@), false),
    {
        Self::fold(filters, false)
    }

    /// The negation of a filter.
    pub fn not(filter: Filter) -> (f: Filter)
        ensures
            f@ == (FilterExprV::Not { expr: Box::new(filter@) }),
    {
        Filter(FilterExpr::Not { expr: Box::new(filter.0) })
    }

    /// The filter expression.
    pub fn build(self) -> (e: FilterExpr)
        ensures
            e@ == self@,
    {
        self.0
    }
}

/// A condition on a field, waiting for its operator and value.
pub struct FieldFilter {
    pub field: String,
}

impl FieldFilter {
    fn simple(self, op: Op, value: DataValue) -> (f: Filter)
        ensures
            f@ == (FilterExprV::Simple { field: self.field@, operator: op, value: value@ }),
    {
        Filter(FilterExpr::Simple { field: self.field, operator: op, value })
    }

    /// The field equals the value.
    pub fn eq(self, value: DataValue) -> (f: Filter)
        ensures
            f@ == (FilterExprV::Simple { field: self.field@, operator: Op::Eq, value: value@ }),
    {
        self.simple(Op::Eq, value)
    }

    /// The field differs from the value.
    pub fn ne(self, value: DataValue) -> (f: Filter)
        ensures
            f@ == (FilterExprV::Simple { field: self.field@, operator: Op::NotEq, value: value@ }),
    {
        self.simple(Op::NotEq, value)
    }

    /// The field is greater than the value.
    pub fn gt(self, value: DataValue) -> (f: Filter)
        ensures
            f@ == (FilterExprV::Simple { field: self.field@, operator: Op::Gt, value: value@ }),
    {
        self.simple(Op::Gt, value)
    }

    /// The field is less than the value.
    pub fn lt(self, value: DataValue) -> (f: Filter)
        ensures
            f@ == (FilterExprV::Simple { field: self.field@, operator: Op::Lt, value: value@ }),
    {
        self.simple(Op::Lt, value)
    }

    /// The field is at least the value.
    pub fn gte(self, value: DataValue) -> (f: Filter)
        ensures
            f@ == (FilterExprV::Simple { field: self.field@, operator: Op::GtEq, value: value@ }),
    {
        self.simple(Op::GtEq, value)
    }

    /// The field is at most the value.
    pub fn lte(self, value: DataValue) -> (f: Filter)
        ensures
            f@ == (FilterExprV::Simple { field: self.field@, operator: Op::LtEq, value: value@ }),
    {
        self.simple(Op::LtEq, value)
    }

    /// The field equals the string.
    pub fn equals(self, value: String) -> (f: Filter)
        ensures
            f@ == (FilterExprV::Simple { field: self.field@, operator: Op::Eq, value: DataValueV::Str(value@) }),
    {
        self.simple(Op::Eq, DataValue::String(value))
    }

    /// The field contains the string.
    pub fn contains(self, value: String) -> (f: Filter)
        ensures
            f@ == (FilterExprV::Simple { field: self.field@, operator: Op::Contains, value: DataValueV::Str(value@) }),
    {
        self.simple(Op::Contains, DataValue::String(value))
    }

    /// The field starts with the string.
    pub fn starts_with(self, value: String) -> (f: Filter)
        ensures
            f@ == (FilterExprV::Simple { field: self.field@, operator: Op::StartsWith, value: DataValueV::Str(value@) }),
    {
        self.simple(Op::StartsWith, DataValue::String(value))
    }

    /// The field ends with the string.
    pub fn ends_with(self, value: String) -> (f: Filter)
        ensures
            f@ == (FilterExprV::Simple { field: self.field@, operator: Op::EndsWith, value: DataValueV::Str(value@) }),
    {
        self.simple(Op::EndsWith, DataValue::String(value))
    }

    /// The field lies between two numbers, given as their decimal texts.
    pub fn between(self, low: String, high: String) -> (f: Filter)
        ensures
            f@ == (FilterExprV::Simple {
                field: self.field@,
                operator: Op::Between,
                value: DataValueV::Array(seq![DataValueV::Float(low@), DataValueV::Float(high@)]),
            }),
    {
        let mut items: Vec<DataValue> = Vec::new();
        items.push(DataValue::Float(low));
        items.push(DataValue::Float(high));
        proof {
            crate::types::lemma_data_values_view_index(items@);
            assert(crate::types::data_values_view(items@) =~= seq![items@[0]@, items@[1]@]);
        }
        self.simple(Op::Between, DataValue::Array(items))
    }

    /// The field equals one of the values.
    pub fn is_in(self, values: Vec<DataValue>) -> (f: Filter)
        ensures
            f@ == (FilterExprV::Simple {
                field: self.field@,
                operator: Op::In,
                value: DataValueV::Array(crate::types::data_values_view(values@)),
            }),
    {
        self.simple(Op::In, DataValue::Array(values))
    }
}

impl AggregateStrategy {
    pub fn count() -> (s: AggregateStrategy)
        ensures
            s == AggregateStrategy::Count,
    {
        AggregateStrategy::Count
    }

    pub fn sum() -> (s: AggregateStrategy)
        ensures
            s == AggregateStrategy::Sum,
    {
        AggregateStrategy::Sum
    }

    pub fn avg() -> (s: AggregateStrategy)
        ensures
            s == AggregateStrategy::Average,
    {
        AggregateStrategy::Average
    }
}

} // verus!
