//! Query plans: what `explain` reports for each kind of query and each
//! pipeline stage, with its cost class and a note.
use crate::types::{AggregateStrategy, ExportFormat, PipelineStage, Query, StageV};
use vstd::prelude::*;
use vstd::string::{StringExecFns, StringSliceAdditionalSpecFns};

verus! {

/// Texts joined with a separator.
pub open spec fn join_text(items: Seq<Seq<char>>, sep: Seq<char>) -> Seq<char>
    decreases items.len(),
{
    if items.len() == 0 {
        Seq::empty()
    } else if items.len() == 1 {
        items[0]
    } else {
        join_text(items.drop_last(), sep) + sep + items.last()
    }
}

/// Joins strings with a separator (std `[String]::join`).
pub fn join_texts(items: &Vec<String>, sep: &str) -> (r: String)
    ensures
        r@ == join_text(crate::types::strings_view(items@), sep@),
{
    let ghost v = crate::types::strings_view(items@);
    let mut out = String::new();
    let mut i: usize = 0;
    assert(v.take(0) =~= Seq::<Seq<char>>::empty());
    while i < items.len()
        invariant
            i <= items@.len(),
            v == crate::types::strings_view(items@),
            out@ == join_text(v.take(i as int), sep@),
        decreases items.len() - i,
    {
        if i > 0 {
            out.append(sep);
        }
        out.append(items[i].as_str());
        proof {
            let t = v.take(i + 1);
            assert(t.drop_last() =~= v.take(i as int));
            assert(t.last() == items@[i as int]@);
            if i == 0 {
                assert(out@ =~= t[0]);
            }
        }
        i += 1;
    }
    assert(v.take(v.len() as int) =~= v);
    out
}

/// The name that `{:?}` prints for a strategy.
pub open spec fn strategy_text(s: AggregateStrategy) -> Seq<char> {
    match s {
        AggregateStrategy::Count => "Count"@,
        AggregateStrategy::Sum => "Sum"@,
        AggregateStrategy::Average => "Average"@,
    }
}

/// The name that `{:?}` prints for a strategy.
pub fn strategy_name(s: AggregateStrategy) -> (r: &'static str)
    ensures
        r@ == strategy_text(s),
{
    match s {
        AggregateStrategy::Count => "Count",
        AggregateStrategy::Sum => "Sum",
        AggregateStrategy::Average => "Average",
    }
}

/// The name that `{:?}` prints for an export format.
pub open spec fn format_text(f: ExportFormat) -> Seq<char> {
    match f {
        ExportFormat::Jsonl => "Jsonl"@,
        ExportFormat::Csv => "Csv"@,
        ExportFormat::MsgPack => "MsgPack"@,
    }
}

/// The name that `{:?}` prints for an export format.
pub fn format_name(f: ExportFormat) -> (r: &'static str)
    ensures
        r@ == format_text(f),
{
    match f {
        ExportFormat::Jsonl => "Jsonl",
        ExportFormat::Csv => "Csv",
        ExportFormat::MsgPack => "MsgPack",
    }
}

/// How many records an offset page skips.
pub open spec fn skipped_records(page_number: usize, page_size: usize) -> nat {
    (if page_number > 0 {
        page_number - 1
    } else {
        0
    }) as nat * page_size as nat
}

/// Whether describing the stage would overflow the engine's arithmetic.
pub open spec fn describe_overflows(stage: StageV) -> bool {
    stage matches StageV::Page { page_number, page_size } && skipped_records(page_number, page_size)
        > usize::MAX
}

/// The plan entry of a stage: its name, cost class and note. `stream_keys`
/// is the number of indexed keys of a `from` stage's stream;
/// `threshold_text` is a vector filter's threshold printed with three decimals.
pub open spec fn spec_describe(stage: StageV, stream_keys: usize, threshold_text: Seq<char>) -> (Seq<char>, Seq<char>, Seq<char>) {
    match stage {
        crate::types::StageV::From { stream_name } => ("from"@, "O(n)"@, "Retain records for stream '"@ + stream_name + "'. ~"@ + crate::parser::nat_text(stream_keys as nat) + " indexed keys."@),
        crate::types::StageV::Filter { .. } => ("filter"@, "O(n)"@, "Evaluate filter expression on each record in-memory."@),
        crate::types::StageV::Get { key } => ("get"@, "O(n)"@, "Retain records where key == '"@ + key + "'. Applied after scan — not index-assisted at this stage."@),
        crate::types::StageV::VectorFilter { field, query_vector, .. } => ("vector_filter"@, "O(n * d)"@, "Cosine similarity on field '"@ + field + "'. Query vector dim: "@ + crate::parser::nat_text(query_vector.len()) + ". Threshold: "@ + threshold_text + ". No index — full scan comparison."@),
        crate::types::StageV::Correlate { source_stream, join_key, within_ms } => ("correlate"@, "O(n * m) WARNING"@, "WARNING: Secondary full scan triggered for stream '"@ + source_stream + "' on join key '"@ + join_key + "' within "@ + crate::parser::nat_text(within_ms as nat) + "ms. This is an O(n*m) nested loop. Place restrictive filters before correlate to reduce n. Avoid on large datasets until stream-scoped index is implemented."@),
        crate::types::StageV::Sequence { steps, within_ms } => ("sequence"@, "O(n)"@, "FSM with "@ + crate::parser::nat_text(steps.len()) + " steps over time window of "@ + crate::parser::nat_text(within_ms as nat) + "ms. Records are sorted by timestamp before processing. Only the final completing record of each sequence is emitted."@),
        crate::types::StageV::Chain { target_stream, join_key } => ("chain"@, "O(n log m)"@, "Left join to stream '"@ + target_stream + "' on key '"@ + join_key + "'. Each record does one SkipMap lookup. No secondary scan."@),
        crate::types::StageV::Enrich { source_stream, join_key } => ("enrich"@, "O(n log m)"@, "Enrich from stream '"@ + source_stream + "' on key '"@ + join_key + "'. One SkipMap point lookup per record. No secondary scan."@),
        crate::types::StageV::MapFields { projections } => ("map"@, "O(n)"@, "Project fields: "@ + join_text(projections, ", "@) + ". In-memory transformation."@),
        crate::types::StageV::Sort { field, descending } => ("sort"@, "O(n log n)"@, "Sort by '"@ + field + "' "@ + (if descending { "descending"@ } else { "ascending"@ }) + ". Requires all records in memory before returning results."@),
        crate::types::StageV::Limit { count } => ("limit"@, "O(1)"@, "Truncate to "@ + crate::parser::nat_text(count as nat) + " records. Applied after prior stages."@),
        crate::types::StageV::Window { duration_ms, strategy } => ("window"@, "O(n)"@, "Group records into "@ + crate::parser::nat_text(duration_ms as nat) + "ms buckets. Strategy: "@ + strategy_text(strategy) + ". One output record per window."@),
        crate::types::StageV::Group { field, aggregations } => ("group"@, "O(n)"@, "Group by '"@ + field + "'. Aggregations: "@ + join_text(aggregations, ", "@) + ". Requires all records in memory."@),
        crate::types::StageV::Page { page_number, page_size } => ("page"@, "O(n)"@, "Offset page "@ + crate::parser::nat_text(page_number as nat) + ". Skips "@ + crate::parser::nat_text(skipped_records(page_number, page_size)) + " records. Full scan still required to reach offset."@),
        crate::types::StageV::PageCursor { cursor, page_size } => ("page_cursor"@, "O(n)"@, "Cursor pagination after key '"@ + cursor + "'. Page size "@ + crate::parser::nat_text(page_size as nat) + ". Avoids offset scan drift."@),
        crate::types::StageV::Count => ("count"@, "O(n)"@, "Count records after prior stages. Full scan required — not metadata-based."@),
        crate::types::StageV::Export { format } => ("export"@, "O(n)"@, "Serialize results to "@ + format_text(format) + " format. Applied at transport layer."@),
        crate::types::StageV::Delete => ("delete"@, "O(n)"@, "Retain only tombstoned records. Used in pipeline context."@),
        crate::types::StageV::Trash => ("trash"@, "O(n)"@, "Retain only trashed records."@),
        crate::types::StageV::Distinct { field } => ("distinct"@, "O(n)"@, "Deduplicate by field '"@ + field + "'. Uses a HashSet internally."@),
    }
}

/// Describes a pipeline stage for a plan (see [`spec_describe`]).
#[verifier::rlimit(40)]
pub fn describe_stage(stage: &PipelineStage, stream_keys: usize, threshold_text: &str) -> (r: (String, String, String))
    requires
        !describe_overflows(stage@),
    ensures
        (r.0@, r.1@, r.2@) == spec_describe(stage@, stream_keys, threshold_text@),
{
    match stage {
        PipelineStage::From { stream_name } => {
            let mut m = crate::text::owned("Retain records for stream '");
            m.append(stream_name.as_str());
            m.append("'. ~");
            m.append(crate::parser::nat_text_exec(stream_keys as u64).as_str());
            m.append(" indexed keys.");
            (crate::text::owned("from"), crate::text::owned("O(n)"), m)
        },
        PipelineStage::Filter { .. } => {
            let m = crate::text::owned("Evaluate filter expression on each record in-memory.");
            (crate::text::owned("filter"), crate::text::owned("O(n)"), m)
        },
        PipelineStage::Get { key } => {
            let mut m = crate::text::owned("Retain records where key == '");
            m.append(key.as_str());
            m.append("'. Applied after scan — not index-assisted at this stage.");
            (crate::text::owned("get"), crate::text::owned("O(n)"), m)
        },
        PipelineStage::VectorFilter { field, query_vector, .. } => {
            let mut m = crate::text::owned("Cosine similarity on field '");
            m.append(field.as_str());
            m.append("'. Query vector dim: ");
            m.append(crate::parser::nat_text_exec(query_vector.len() as u64).as_str());
            m.append(". Threshold: ");
            m.append(threshold_text);
            m.append(". No index — full scan comparison.");
            (crate::text::owned("vector_filter"), crate::text::owned("O(n * d)"), m)
        },
        PipelineStage::Correlate { source_stream, join_key, within_ms } => {
            let mut m = crate::text::owned("WARNING: Secondary full scan triggered for stream '");
            m.append(source_stream.as_str());
            m.append("' on join key '");
            m.append(join_key.as_str());
            m.append("' within ");
            m.append(crate::parser::nat_text_exec(*within_ms).as_str());
            m.append("ms. This is an O(n*m) nested loop. Place restrictive filters before correlate to reduce n. Avoid on large datasets until stream-scoped index is implemented.");
            (crate::text::owned("correlate"), crate::text::owned("O(n * m) WARNING"), m)
        },
        PipelineStage::Sequence { steps, within_ms } => {
            let mut m = crate::text::owned("FSM with ");
            m.append(crate::parser::nat_text_exec(steps.len() as u64).as_str());
            m.append(" steps over time window of ");
            m.append(crate::parser::nat_text_exec(*within_ms).as_str());
            m.append("ms. Records are sorted by timestamp before processing. Only the final completing record of each sequence is emitted.");
            (crate::text::owned("sequence"), crate::text::owned("O(n)"), m)
        },
        PipelineStage::Chain { target_stream, join_key } => {
            let mut m = crate::text::owned("Left join to stream '");
            m.append(target_stream.as_str());
            m.append("' on key '");
            m.append(join_key.as_str());
            m.append("'. Each record does one SkipMap lookup. No secondary scan.");
            (crate::text::owned("chain"), crate::text::owned("O(n log m)"), m)
        },
        PipelineStage::Enrich { source_stream, join_key } => {
            let mut m = crate::text::owned("Enrich from stream '");
            m.append(source_stream.as_str());
            m.append("' on key '");
            m.append(join_key.as_str());
            m.append("'. One SkipMap point lookup per record. No secondary scan.");
            (crate::text::owned("enrich"), crate::text::owned("O(n log m)"), m)
        },
        PipelineStage::MapFields { projections } => {
            let mut m = crate::text::owned("Project fields: ");
            m.append(join_texts(projections, ", ").as_str());
            m.append(". In-memory transformation.");
            (crate::text::owned("map"), crate::text::owned("O(n)"), m)
        },
        PipelineStage::Sort { field, descending } => {
            let mut m = crate::text::owned("Sort by '");
            m.append(field.as_str());
            m.append("' ");
            m.append(if *descending { "descending" } else { "ascending" });
            m.append(". Requires all records in memory before returning results.");
            (crate::text::owned("sort"), crate::text::owned("O(n log n)"), m)
        },
        PipelineStage::Limit { count } => {
            let mut m = crate::text::owned("Truncate to ");
            m.append(crate::parser::nat_text_exec(*count as u64).as_str());
            m.append(" records. Applied after prior stages.");
            (crate::text::owned("limit"), crate::text::owned("O(1)"), m)
        },
        PipelineStage::Window { duration_ms, strategy } => {
            let mut m = crate::text::owned("Group records into ");
            m.append(crate::parser::nat_text_exec(*duration_ms).as_str());
            m.append("ms buckets. Strategy: ");
            m.append(strategy_name(*strategy));
            m.append(". One output record per window.");
            (crate::text::owned("window"), crate::text::owned("O(n)"), m)
        },
        PipelineStage::Group { field, aggregations } => {
            let mut m = crate::text::owned("Group by '");
            m.append(field.as_str());
            m.append("'. Aggregations: ");
            m.append(join_texts(aggregations, ", ").as_str());
            m.append(". Requires all records in memory.");
            (crate::text::owned("group"), crate::text::owned("O(n)"), m)
        },
        PipelineStage::Page { page_number, page_size } => {
            let skipped: usize = (if *page_number > 0 { *page_number - 1 } else { 0 }) * *page_size;
            let mut m = crate::text::owned("Offset page ");
            m.append(crate::parser::nat_text_exec(*page_number as u64).as_str());
            m.append(". Skips ");
            m.append(crate::parser::nat_text_exec(skipped as u64).as_str());
            m.append(" records. Full scan still required to reach offset.");
            (crate::text::owned("page"), crate::text::owned("O(n)"), m)
        },
        PipelineStage::PageCursor { cursor, page_size } => {
            let mut m = crate::text::owned("Cursor pagination after key '");
            m.append(cursor.as_str());
            m.append("'. Page size ");
            m.append(crate::parser::nat_text_exec(*page_size as u64).as_str());
            m.append(". Avoids offset scan drift.");
            (crate::text::owned("page_cursor"), crate::text::owned("O(n)"), m)
        },
        PipelineStage::Count => {
            let m = crate::text::owned("Count records after prior stages. Full scan required — not metadata-based.");
            (crate::text::owned("count"), crate::text::owned("O(n)"), m)
        },
        PipelineStage::Export { format } => {
            let mut m = crate::text::owned("Serialize results to ");
            m.append(format_name(*format));
            m.append(" format. Applied at transport layer.");
            (crate::text::owned("export"), crate::text::owned("O(n)"), m)
        },
        PipelineStage::Delete => {
            let m = crate::text::owned("Retain only tombstoned records. Used in pipeline context.");
            (crate::text::owned("delete"), crate::text::owned("O(n)"), m)
        },
        PipelineStage::Trash => {
            let m = crate::text::owned("Retain only trashed records.");
            (crate::text::owned("trash"), crate::text::owned("O(n)"), m)
        },
        PipelineStage::Distinct { field } => {
            let mut m = crate::text::owned("Deduplicate by field '");
            m.append(field.as_str());
            m.append("'. Uses a HashSet internally.");
            (crate::text::owned("distinct"), crate::text::owned("O(n)"), m)
        },
    }
}


// ------------------------------------------------------------------- plans

/// The model of a plan step: its number, stage, cost class and note.
pub type StepV = (nat, Seq<char>, Seq<char>, Seq<char>);

/// One step of a query plan.
pub struct PlanStep {
    pub step: usize,
    pub stage: String,
    pub cost: String,
    pub note: String,
}

impl View for PlanStep {
    type V = StepV;

    open spec fn view(&self) -> StepV {
        (self.step as nat, self.stage@, self.cost@, self.note@)
    }
}

/// The models of plan steps, in order.
pub open spec fn steps_view(v: Seq<PlanStep>) -> Seq<StepV> {
    Seq::new(v.len(), |i: int| v[i]@)
}

/// The index of the first `from` stage.
#[verifier::opaque]
pub open spec fn first_from(stages: Seq<StageV>) -> Option<int> {
    if exists|i: int| 0 <= i < stages.len() && #[trigger] stages[i] is From {
        Some(choose|i: int| 0 <= i < stages.len() && #[trigger] stages[i] is From && forall|j: int| 0 <= j < i ==> !(#[trigger] stages[j] is From))
    } else {
        None
    }
}

/// Whether the pipeline looks a key up: a `get` stage or a filter that
/// compares the key for equality.
#[verifier::opaque]
pub open spec fn has_key_equality(stages: Seq<StageV>) -> bool {
    exists|i: int|
        0 <= i < stages.len() && (#[trigger] stages[i] is Get || (stages[i] matches StageV::Filter { expr }
            && crate::executor::spec_is_key_equality(expr)))
}

/// Whether the pipeline has a `limit` stage.
#[verifier::opaque]
pub open spec fn has_limit(stages: Seq<StageV>) -> bool {
    exists|i: int| 0 <= i < stages.len() && #[trigger] stages[i] is Limit
}

/// The first step of a pipeline's plan: how the records are scanned.
pub open spec fn scan_step(stages: Seq<StageV>, total_keys: usize, counts: Seq<usize>) -> StepV {
    let name: Seq<char> = match first_from(stages) {
        Some(i) => stages[i]->From_stream_name,
        None => "unknown"@,
    };
    if has_key_equality(stages) {
        (0, "scan"@, "O(log n)"@, "Key equality detected — uses SkipMap point lookup. Total index keys: "@ + crate::parser::nat_text(total_keys as nat))
    } else if has_limit(stages) {
        let limit: usize = match crate::executor::spec_limit_of(stages) {
            Some(c) => c,
            None => 0,
        };
        let keys: usize = match first_from(stages) {
            Some(i) => counts[i],
            None => total_keys,
        };
        (0, "scan"@, "O(n) early-exit"@, "Full segment scan with early exit at "@ + crate::parser::nat_text(limit as nat) + " records. Stream '"@ + name + "' has ~"@ + crate::parser::nat_text(keys as nat) + " indexed keys."@)
    } else {
        let keys: usize = match first_from(stages) {
            Some(i) => counts[i],
            None => 0,
        };
        (0, "scan"@, "O(n)"@, "Full segment scan across all segments. Stream '"@ + name + "' has ~"@ + crate::parser::nat_text(keys as nat) + " indexed keys. Total index: "@ + crate::parser::nat_text(total_keys as nat) + "."@)
    }
}

/// The plan of a pipeline: the scan step, then one step per stage.
pub open spec fn pipeline_plan(stages: Seq<StageV>, total_keys: usize, counts: Seq<usize>, thresholds: Seq<Seq<char>>) -> Seq<StepV> {
    seq![scan_step(stages, total_keys, counts)] + Seq::new(stages.len(), |i: int| {
        let d = spec_describe(stages[i], counts[i], thresholds[i]);
        ((i + 1) as nat, d.0, d.1, d.2)
    })
}

/// The plan of a query. For a pipeline, `counts[i]` is the number of
/// indexed keys of stage `i`'s stream (read for `from` stages) and
/// `thresholds[i]` stage `i`'s threshold printed with three decimals (read
/// for vector filters); `target_keys` is the number of keys of the stream
/// that `empty` or `drop` clears.
pub open spec fn spec_plan(q: crate::types::QueryV, total_keys: usize, counts: Seq<usize>, thresholds: Seq<Seq<char>>, target_keys: usize) -> Seq<StepV> {
    match q {
        crate::types::QueryV::Pipeline(stages) => pipeline_plan(stages, total_keys, counts, thresholds),
        crate::types::QueryV::Listen { pipeline } => pipeline_plan(pipeline, total_keys, counts, thresholds),
        crate::types::QueryV::Insert { stream_name, key, .. } => seq![(0nat, "existence_check"@, "O(log n)"@, "SkipMap lookup for key '"@ + key + "' in stream '"@ + stream_name + "'"@), (1nat, "append"@, "O(1)"@, "Enqueue to ring buffer. Single sync_data call via group-commit flusher."@), (2nat, "index_update"@, "O(log n)"@, "SkipMap insert after flusher confirms write."@)],
        crate::types::QueryV::InsertBatch { stream_name, batch } => seq![(0nat, "write_lock"@, "O(1)"@, "Acquires write_lock mutex to prevent concurrent insert races."@), (1nat, "existence_check"@, "O(k log n)"@, crate::parser::nat_text(batch.len()) + " SkipMap lookups for stream '"@ + stream_name + "'"@), (2nat, "batch_append"@, "O(k)"@, crate::parser::nat_text(batch.len()) + " records enqueued. Single write_all + sync_data via group-commit."@), (3nat, "index_update"@, "O(k log n)"@, "SkipMap insert for each record after flusher confirms."@)],
        crate::types::QueryV::Upsert { stream_name, key, .. } | crate::types::QueryV::Update { stream_name, key, .. } => seq![(0nat, "append"@, "O(1)"@, "Enqueue write for key '"@ + key + "' in stream '"@ + stream_name + "'. No existence check."@), (1nat, "index_update"@, "O(log n)"@, "SkipMap pointer updated to new segment offset."@)],
        crate::types::QueryV::UpsertBatch { stream_name, batch } => seq![(0nat, "batch_append"@, "O(k)"@, crate::parser::nat_text(batch.len()) + " records upserted in stream '"@ + stream_name + "'. Single write_all + sync_data via group-commit."@), (1nat, "index_update"@, "O(k log n)"@, "SkipMap upsert for each record after flusher confirms."@)],
        crate::types::QueryV::DeleteKey { stream_name, key } => seq![(0nat, "existence_check"@, "O(log n)"@, "SkipMap lookup for '"@ + stream_name + ":"@ + key + "'"@), (1nat, "tombstone"@, "O(1)"@, "Append tombstone frame. SkipMap entry removed."@)],
        crate::types::QueryV::Empty { stream_name } | crate::types::QueryV::Drop { stream_name } => seq![(0nat, "list_keys"@, "O(k)"@, crate::parser::nat_text(target_keys as nat) + " keys found in stream '"@ + stream_name + "'"@), (1nat, "tombstone_batch"@, "O(k)"@, "Append "@ + crate::parser::nat_text(target_keys as nat) + " tombstone frames in one ring buffer call. Single sync_data."@)],
        crate::types::QueryV::PipelineDelete { .. } | crate::types::QueryV::PipelineUpdate { .. } => seq![(0nat, "scan"@, "O(n)"@, "Full historical scan required to identify matching records."@), (1nat, "pipeline_filter"@, "O(n)"@, "Apply pipeline stages in-memory to isolate targets."@), (2nat, "tombstone_or_append"@, "O(k)"@, "Write tombstone or new value for each matched record."@)],
        crate::types::QueryV::ListStreams => seq![(0nat, "streams_set"@, "O(s)"@, "Reads from in-memory HashSet. No disk access."@)],
        crate::types::QueryV::Status => seq![(0nat, "status"@, "O(1)"@, "Reads atomic counters. No disk access."@)],
        crate::types::QueryV::Explain { .. } => seq![(0nat, "explain"@, "O(1)"@, "Cannot explain an explain query."@)],
    }
}

/// Whether a query's plan can be described: a pipeline has a count and a
/// threshold text for each stage, and no page stage overflows.
pub open spec fn plan_ok(q: crate::types::QueryV, counts: Seq<usize>, thresholds: Seq<Seq<char>>) -> bool {
    match q {
        crate::types::QueryV::Pipeline(stages) => counts.len() == stages.len() && thresholds.len() == stages.len()
            && forall|i: int| 0 <= i < stages.len() ==> !describe_overflows(#[trigger] stages[i]),
        crate::types::QueryV::Listen { pipeline } => counts.len() == pipeline.len() && thresholds.len() == pipeline.len()
            && forall|i: int| 0 <= i < pipeline.len() ==> !describe_overflows(#[trigger] pipeline[i]),
        _ => true,
    }
}

fn step_of(step: usize, stage: &str, cost: &str, note: String) -> (r: PlanStep)
    ensures
        r@ == (step as nat, stage@, cost@, note@),
{
    PlanStep { step, stage: crate::text::owned(stage), cost: crate::text::owned(cost), note }
}

fn first_from_exec(stages: &Vec<PipelineStage>) -> (r: Option<usize>)
    ensures
        match first_from(crate::types::stages_view(stages@)) {
            Some(i) => r == Some(i as usize),
            None => r is None,
        },
        r matches Some(k) ==> k < stages@.len() && crate::types::stages_view(stages@)[k as int] is From,
        first_from(crate::types::stages_view(stages@)) matches Some(i) ==> 0 <= i < stages@.len(),
{
    let ghost sv = crate::types::stages_view(stages@);
    proof {
        reveal(first_from);
    }
    let mut i: usize = 0;
    while i < stages.len()
        invariant
            i <= stages@.len(),
            sv == crate::types::stages_view(stages@),
            forall|j: int| 0 <= j < i ==> !(#[trigger] sv[j] is From),
        decreases stages.len() - i,
    {
        if let PipelineStage::From { .. } = &stages[i] {
            proof {
                reveal(first_from);
                assert(sv[i as int] is From);
                let c = choose|k: int| 0 <= k < sv.len() && #[trigger] sv[k] is From && forall|j: int| 0 <= j < k ==> !(#[trigger] sv[j] is From);
                assert(c == i) by {
                    if c < i {
                        assert(!(sv[c] is From));
                    } else if c > i {
                        assert(!(sv[i as int] is From));
                    }
                }
            }
            return Some(i);
        }
        assert(!(sv[i as int] is From));
        i += 1;
    }
    proof {
        reveal(first_from);
    }
    None
}

#[verifier::rlimit(60)]
fn scan_step_exec(stages: &Vec<PipelineStage>, total_keys: usize, counts: &[usize], key_eq: bool, limit: Option<usize>) -> (r: PlanStep)
    requires
        counts@.len() == stages@.len(),
        key_eq == has_key_equality(crate::types::stages_view(stages@)),
        (limit is Some) == has_limit(crate::types::stages_view(stages@)),
        limit matches Some(c) ==> crate::executor::spec_limit_of(crate::types::stages_view(stages@)) == Some(c),
    ensures
        r@ == scan_step(crate::types::stages_view(stages@), total_keys, counts@),
{
    let ghost sv = crate::types::stages_view(stages@);
    let from_idx = first_from_exec(stages);
    let name: String = match from_idx {
        Some(k) => match &stages[k] {
            PipelineStage::From { stream_name } => stream_name.clone(),
            _ => crate::text::owned("unknown"),
        },
        None => crate::text::owned("unknown"),
    };
    if key_eq {
        let mut m = crate::text::owned("Key equality detected — uses SkipMap point lookup. Total index keys: ");
        m.append(crate::parser::nat_text_exec(total_keys as u64).as_str());
        return step_of(0, "scan", "O(log n)", m);
    } else if limit.is_some() {
        let lc: usize = match limit {
            Some(c) => c,
            None => 0,
        };
        let keys: usize = match from_idx {
            Some(k) => counts[k],
            None => total_keys,
        };
        let mut m = crate::text::owned("Full segment scan with early exit at ");
        m.append(crate::parser::nat_text_exec(lc as u64).as_str());
        m.append(" records. Stream '");
        m.append(name.as_str());
        m.append("' has ~");
        m.append(crate::parser::nat_text_exec(keys as u64).as_str());
        m.append(" indexed keys.");
        return step_of(0, "scan", "O(n) early-exit", m);
    } else {
        let keys: usize = match from_idx {
            Some(k) => counts[k],
            None => 0,
        };
        let mut m = crate::text::owned("Full segment scan across all segments. Stream '");
        m.append(name.as_str());
        m.append("' has ~");
        m.append(crate::parser::nat_text_exec(keys as u64).as_str());
        m.append(" indexed keys. Total index: ");
        m.append(crate::parser::nat_text_exec(total_keys as u64).as_str());
        m.append(".");
        return step_of(0, "scan", "O(n)", m);
    }
}

fn pipeline_plan_exec(stages: &Vec<PipelineStage>, total_keys: usize, counts: &[usize], thresholds: &[String]) -> (r: Vec<PlanStep>)
    requires
        counts@.len() == stages@.len(),
        thresholds@.len() == stages@.len(),
        forall|i: int| 0 <= i < stages@.len() ==> !describe_overflows(#[trigger] stages@[i]@),
    ensures
        steps_view(r@) == pipeline_plan(crate::types::stages_view(stages@), total_keys, counts@, crate::types::strings_view(thresholds@)),
{
    let ghost sv = crate::types::stages_view(stages@);
    let mut key_eq = false;
    let mut limit: Option<usize> = None;
    let mut i: usize = 0;
    assert(sv.subrange(0, sv.len() as int) =~= sv);
    while i < stages.len()
        invariant
            i <= stages@.len(),
            sv == crate::types::stages_view(stages@),
            key_eq == exists|j: int| 0 <= j < i && (#[trigger] sv[j] is Get || (sv[j] matches StageV::Filter { expr } && crate::executor::spec_is_key_equality(expr))),
            limit is Some == exists|j: int| 0 <= j < i && #[trigger] sv[j] is Limit,
            limit matches Some(c) ==> crate::executor::spec_limit_of(sv) == Some(c),
            limit is None ==> crate::executor::spec_limit_of(sv) == crate::executor::spec_limit_of(sv.subrange(i as int, sv.len() as int)),
        decreases stages.len() - i,
    {
        proof {
            assert(sv.subrange(i as int, sv.len() as int)[0] == sv[i as int]);
            assert(sv.subrange(i as int, sv.len() as int).drop_first() =~= sv.subrange(i + 1, sv.len() as int));
        }
        let is_eq = match &stages[i] {
            PipelineStage::Get { .. } => true,
            PipelineStage::Filter { expr } => crate::executor::is_key_equality_filter(expr),
            _ => false,
        };
        if is_eq {
            key_eq = true;
        }
        if limit.is_none() {
            if let PipelineStage::Limit { count } = &stages[i] {
                limit = Some(*count);
            }
        }
        proof {
            assert(is_eq == (sv[i as int] is Get || (sv[i as int] matches StageV::Filter { expr } && crate::executor::spec_is_key_equality(expr))));
        }
        i += 1;
    }
    proof {
        assert(sv.subrange(sv.len() as int, sv.len() as int).len() == 0);
        reveal(has_key_equality);
        reveal(has_limit);
    }
    let first = scan_step_exec(stages, total_keys, counts, key_eq, limit);
    let mut out: Vec<PlanStep> = Vec::new();
    out.push(first);
    proof {
        assert(steps_view(out@) =~= seq![scan_step(sv, total_keys, counts@)]);
    }
    let ghost tv = crate::types::strings_view(thresholds@);
    let mut i: usize = 0;
    while i < stages.len()
        invariant
            i <= stages@.len() == counts@.len() == thresholds@.len(),
            sv == crate::types::stages_view(stages@),
            tv == crate::types::strings_view(thresholds@),
            forall|k: int| 0 <= k < stages@.len() ==> !describe_overflows(#[trigger] stages@[k]@),
            steps_view(out@) == pipeline_plan(sv, total_keys, counts@, tv).take(i + 1),
            out@.len() == i + 1,
        decreases stages.len() - i,
    {
        let (a, b, c) = describe_stage(&stages[i], counts[i], thresholds[i].as_str());
        let ghost before = out@;
        out.push(PlanStep { step: i + 1, stage: a, cost: b, note: c });
        proof {
            let pp = pipeline_plan(sv, total_keys, counts@, tv);
            assert(tv[i as int] == thresholds@[i as int]@);
            assert(sv[i as int] == stages@[i as int]@);
            let ns = Seq::new(sv.len(), |k: int| {
                let d = spec_describe(sv[k], counts@[k], tv[k]);
                ((k + 1) as nat, d.0, d.1, d.2)
            });
            assert(pp == seq![scan_step(sv, total_keys, counts@)] + ns);
            assert(pp[i + 1] == ns[i as int]);
            assert(pp[i + 1] == out@[i + 1]@);
            assert(steps_view(out@) =~= pipeline_plan(sv, total_keys, counts@, tv).take(i + 2));
        }
        i += 1;
    }
    proof {
        assert(pipeline_plan(sv, total_keys, counts@, tv).take(stages@.len() + 1int) =~= pipeline_plan(sv, total_keys, counts@, tv));
    }
    out
}

/// The steps of a query's plan (see [`spec_plan`]).
#[verifier::rlimit(60)]
pub fn plan_steps(query: &crate::types::Query, total_keys: usize, counts: &[usize], thresholds: &[String], target_keys: usize) -> (r: Vec<PlanStep>)
    requires
        plan_ok(query@, counts@, crate::types::strings_view(thresholds@)),
    ensures
        steps_view(r@) == spec_plan(query@, total_keys, counts@, crate::types::strings_view(thresholds@), target_keys),
{

    let mut out: Vec<PlanStep> = Vec::new();
    match query {
        Query::Pipeline(stages) => {
            proof {
                let sv = crate::types::stages_view(stages@);
                assert forall|i: int| 0 <= i < stages@.len() implies !describe_overflows(#[trigger] stages@[i]@) by {
                    assert(sv[i] == stages@[i]@);
                }
            }
            return pipeline_plan_exec(stages, total_keys, counts, thresholds);
        },
        Query::Listen { pipeline } => {
            proof {
                let sv = crate::types::stages_view(pipeline@);
                assert forall|i: int| 0 <= i < pipeline@.len() implies !describe_overflows(#[trigger] pipeline@[i]@) by {
                    assert(sv[i] == pipeline@[i]@);
                }
            }
            return pipeline_plan_exec(pipeline, total_keys, counts, thresholds);
        },
        Query::Insert { stream_name, key, .. } => {
            let mut m0 = crate::text::owned("SkipMap lookup for key '");
            m0.append(key.as_str());
            m0.append("' in stream '");
            m0.append(stream_name.as_str());
            m0.append("'");
            out.push(step_of(0, "existence_check", "O(log n)", m0));
            let mut m1 = crate::text::owned("Enqueue to ring buffer. Single sync_data call via group-commit flusher.");
            out.push(step_of(1, "append", "O(1)", m1));
            let mut m2 = crate::text::owned("SkipMap insert after flusher confirms write.");
            out.push(step_of(2, "index_update", "O(log n)", m2));
        },
        Query::InsertBatch { stream_name, batch } => {
            let mut m0 = crate::text::owned("Acquires write_lock mutex to prevent concurrent insert races.");
            out.push(step_of(0, "write_lock", "O(1)", m0));
            let mut m1 = String::new();
            m1.append(crate::parser::nat_text_exec(batch.len() as u64).as_str());
            m1.append(" SkipMap lookups for stream '");
            m1.append(stream_name.as_str());
            m1.append("'");
            out.push(step_of(1, "existence_check", "O(k log n)", m1));
            let mut m2 = String::new();
            m2.append(crate::parser::nat_text_exec(batch.len() as u64).as_str());
            m2.append(" records enqueued. Single write_all + sync_data via group-commit.");
            out.push(step_of(2, "batch_append", "O(k)", m2));
            let mut m3 = crate::text::owned("SkipMap insert for each record after flusher confirms.");
            out.push(step_of(3, "index_update", "O(k log n)", m3));
        },
        Query::Upsert { stream_name, key, .. } | Query::Update { stream_name, key, .. } => {
            let mut m0 = crate::text::owned("Enqueue write for key '");
            m0.append(key.as_str());
            m0.append("' in stream '");
            m0.append(stream_name.as_str());
            m0.append("'. No existence check.");
            out.push(step_of(0, "append", "O(1)", m0));
            let mut m1 = crate::text::owned("SkipMap pointer updated to new segment offset.");
            out.push(step_of(1, "index_update", "O(log n)", m1));
        },
        Query::UpsertBatch { stream_name, batch } => {
            let mut m0 = String::new();
            m0.append(crate::parser::nat_text_exec(batch.len() as u64).as_str());
            m0.append(" records upserted in stream '");
            m0.append(stream_name.as_str());
            m0.append("'. Single write_all + sync_data via group-commit.");
            out.push(step_of(0, "batch_append", "O(k)", m0));
            let mut m1 = crate::text::owned("SkipMap upsert for each record after flusher confirms.");
            out.push(step_of(1, "index_update", "O(k log n)", m1));
        },
        Query::DeleteKey { stream_name, key } => {
            let mut m0 = crate::text::owned("SkipMap lookup for '");
            m0.append(stream_name.as_str());
            m0.append(":");
            m0.append(key.as_str());
            m0.append("'");
            out.push(step_of(0, "existence_check", "O(log n)", m0));
            let mut m1 = crate::text::owned("Append tombstone frame. SkipMap entry removed.");
            out.push(step_of(1, "tombstone", "O(1)", m1));
        },
        Query::Empty { stream_name } | Query::Drop { stream_name } => {
            let mut m0 = String::new();
            m0.append(crate::parser::nat_text_exec(target_keys as u64).as_str());
            m0.append(" keys found in stream '");
            m0.append(stream_name.as_str());
            m0.append("'");
            out.push(step_of(0, "list_keys", "O(k)", m0));
            let mut m1 = crate::text::owned("Append ");
            m1.append(crate::parser::nat_text_exec(target_keys as u64).as_str());
            m1.append(" tombstone frames in one ring buffer call. Single sync_data.");
            out.push(step_of(1, "tombstone_batch", "O(k)", m1));
        },
        Query::PipelineDelete { .. } | Query::PipelineUpdate { .. } => {
            let mut m0 = crate::text::owned("Full historical scan required to identify matching records.");
            out.push(step_of(0, "scan", "O(n)", m0));
            let mut m1 = crate::text::owned("Apply pipeline stages in-memory to isolate targets.");
            out.push(step_of(1, "pipeline_filter", "O(n)", m1));
            let mut m2 = crate::text::owned("Write tombstone or new value for each matched record.");
            out.push(step_of(2, "tombstone_or_append", "O(k)", m2));
        },
        Query::ListStreams => {
            let mut m0 = crate::text::owned("Reads from in-memory HashSet. No disk access.");
            out.push(step_of(0, "streams_set", "O(s)", m0));
        },
        Query::Status => {
            let mut m0 = crate::text::owned("Reads atomic counters. No disk access.");
            out.push(step_of(0, "status", "O(1)", m0));
        },
        Query::Explain { .. } => {
            let mut m0 = crate::text::owned("Cannot explain an explain query.");
            out.push(step_of(0, "explain", "O(1)", m0));
        },
    }
    proof {
        assert(steps_view(out@) =~= spec_plan(query@, total_keys, counts@, crate::types::strings_view(thresholds@), target_keys));
    }
    out
}


/// Whether `needle` occurs in `hay`.
pub open spec fn contains_text(hay: Seq<char>, needle: Seq<char>) -> bool {
    exists|i: int| 0 <= i && i + needle.len() <= hay.len() && #[trigger] hay.subrange(i, i + needle.len()) == needle
}

/// Whether `needle` occurs in `hay` (std `str::contains`).
pub fn contains_text_exec(hay: &str, needle: &str) -> (r: bool)
    ensures
        r == contains_text(hay@, needle@),
{
    let h = crate::text::chars_of(hay);
    let n = crate::text::chars_of(needle);
    if n.len() == 0 {
        assert(hay@.subrange(0int, 0int + needle@.len()) =~= needle@);
        return true;
    }
    if n.len() > h.len() {
        return false;
    }
    let mut i: usize = 0;
    while i <= h.len() - n.len()
        invariant
            h@ == hay@,
            n@ == needle@,
            n@.len() <= h@.len(),
            n@.len() >= 1,
            i <= h@.len() - n@.len() + 1,
            forall|k: int| 0 <= k < i ==> #[trigger] h@.subrange(k, k + n@.len()) != n@,
        decreases h.len() - n.len() + 1 - i,
    {
        if crate::parser::has_lit_exec(h.as_slice(), i, needle) {
            return true;
        }
        i += 1;
    }
    proof {
        assert forall|k: int| 0 <= k && k + needle@.len() <= hay@.len() implies #[trigger] hay@.subrange(
            k,
            k + needle@.len(),
        ) != needle@ by {
            assert(k < i);
        }
    }
    false
}

/// The JSON object of a plan step.
pub open spec fn step_json(st: StepV) -> crate::types::JsonV {
    crate::types::JsonV::Object(
        seq![
            ("cost"@, crate::types::JsonV::Str(st.2)),
            ("note"@, crate::types::JsonV::Str(st.3)),
            ("stage"@, crate::types::JsonV::Str(st.1)),
            ("step"@, crate::types::JsonV::UInt(st.0 as u64)),
        ],
    )
}

/// The notes that hold a warning, in order.
pub open spec fn warning_notes(steps: Seq<StepV>) -> Seq<crate::types::JsonV>
    decreases steps.len(),
{
    if steps.len() == 0 {
        Seq::empty()
    } else if contains_text(steps.last().3, "WARNING"@) {
        warning_notes(steps.drop_last()).push(crate::types::JsonV::Str(steps.last().3))
    } else {
        warning_notes(steps.drop_last())
    }
}

/// The plan as JSON: whether a step's note reports a secondary full scan
/// (a nested scan of another stream), the steps,
/// their number, and the notes that hold warnings.
pub open spec fn plan_json(steps: Seq<StepV>) -> crate::types::JsonV {
    crate::types::JsonV::Object(
        seq![
            ("has_secondary_scan"@, crate::types::JsonV::Bool(exists|i: int| 0 <= i < steps.len() && contains_text(#[trigger] steps[i].3, "Secondary full scan"@))),
            ("steps"@, crate::types::JsonV::Array(Seq::new(steps.len(), |i: int| step_json(steps[i])))),
            ("total_steps"@, crate::types::JsonV::UInt(steps.len() as u64)),
            ("warnings"@, crate::types::JsonV::Array(warning_notes(steps))),
        ],
    )
}

fn str_json(s: &str) -> (r: crate::types::JsonValue)
    ensures
        r@ == crate::types::JsonV::Str(s@),
{
    crate::types::JsonValue::String(crate::text::owned(s))
}

fn step_json_exec(st: &PlanStep) -> (r: crate::types::JsonValue)
    ensures
        r@ == step_json(st@),
{
    let mut es: Vec<(String, crate::types::JsonValue)> = Vec::new();
    es.push((crate::text::owned("cost"), str_json(st.cost.as_str())));
    es.push((crate::text::owned("note"), str_json(st.note.as_str())));
    es.push((crate::text::owned("stage"), str_json(st.stage.as_str())));
    es.push((crate::text::owned("step"), crate::types::JsonValue::UInt(st.step as u64)));
    proof {
        crate::query_parser::lemma_json_entries_view_index(es@);
        assert(crate::types::json_entries_view(es@) =~= seq![
            ("cost"@, crate::types::JsonV::Str(st.cost@)),
            ("note"@, crate::types::JsonV::Str(st.note@)),
            ("stage"@, crate::types::JsonV::Str(st.stage@)),
            ("step"@, crate::types::JsonV::UInt(st.step as u64)),
        ]);
    }
    crate::types::JsonValue::Object(es)
}

/// The plan's JSON (see [`plan_json`]).
pub fn plan_json_exec(steps: &Vec<PlanStep>) -> (r: crate::types::JsonValue)
    ensures
        r@ == plan_json(steps_view(steps@)),
{
    let ghost sv = steps_view(steps@);
    let mut secondary = false;
    let mut items: Vec<crate::types::JsonValue> = Vec::new();
    let mut warnings: Vec<crate::types::JsonValue> = Vec::new();
    let mut i: usize = 0;
    assert(sv.take(0) =~= Seq::<StepV>::empty());
    while i < steps.len()
        invariant
            i <= steps@.len(),
            sv == steps_view(steps@),
            secondary == exists|j: int| 0 <= j < i && contains_text(#[trigger] sv[j].3, "Secondary full scan"@),
            items@.len() == i,
            forall|j: int| 0 <= j < i ==> #[trigger] items@[j]@ == step_json(sv[j]),
            crate::types::json_values_view(warnings@) == warning_notes(sv.take(i as int)),
        decreases steps.len() - i,
    {
        let st = &steps[i];
        proof {
            assert(sv[i as int] == st@);
        }
        if contains_text_exec(st.note.as_str(), "Secondary full scan") {
            secondary = true;
        }
        items.push(step_json_exec(st));
        let ghost old_w = warnings@;
        proof {
            assert(sv.take(i + 1).drop_last() =~= sv.take(i as int));
            assert(sv.take(i + 1).last() == st@);
        }
        if contains_text_exec(st.note.as_str(), "WARNING") {
            warnings.push(str_json(st.note.as_str()));
            proof {
                crate::types::lemma_json_values_view_push(old_w, warnings@[warnings@.len() - 1]);
                assert(warnings@ =~= old_w.push(warnings@[warnings@.len() - 1]));
            }
        }
        i += 1;
    }
    assert(sv.take(sv.len() as int) =~= sv);
    proof {
        assert(secondary == exists|i: int| 0 <= i < sv.len() && contains_text(#[trigger] sv[i].3, "Secondary full scan"@));
        crate::query_parser::lemma_json_values_view_index(items@);
        assert(crate::types::json_values_view(items@) =~= Seq::new(sv.len(), |i: int| step_json(sv[i])));
    }
    let n = items.len() as u64;
    let mut es: Vec<(String, crate::types::JsonValue)> = Vec::new();
    es.push((crate::text::owned("has_secondary_scan"), crate::types::JsonValue::Bool(secondary)));
    es.push((crate::text::owned("steps"), crate::types::JsonValue::Array(items)));
    es.push((crate::text::owned("total_steps"), crate::types::JsonValue::UInt(n)));
    es.push((crate::text::owned("warnings"), crate::types::JsonValue::Array(warnings)));
    proof {
        crate::query_parser::lemma_json_entries_view_index(es@);
        assert(crate::types::json_entries_view(es@) =~= seq![
            ("has_secondary_scan"@, crate::types::JsonV::Bool(exists|i: int| 0 <= i < sv.len() && contains_text(#[trigger] sv[i].3, "Secondary full scan"@))),
            ("steps"@, crate::types::JsonV::Array(Seq::new(sv.len(), |i: int| step_json(sv[i])))),
            ("total_steps"@, crate::types::JsonV::UInt(sv.len() as u64)),
            ("warnings"@, crate::types::JsonV::Array(warning_notes(sv))),
        ]);
    }
    let r = crate::types::JsonValue::Object(es);
    assert(r@ == crate::types::JsonV::Object(crate::types::json_entries_view(es@)));
    assert(r@ == plan_json(sv));
    r
}

/// The record that `explain` returns: the plan of the query as JSON text,
/// stamped with `timestamp` (see [`spec_plan`] for the other inputs).
pub fn execute_explain(
    query: &Query,
    timestamp: i64,
    total_keys: usize,
    counts: &[usize],
    thresholds: &[String],
    target_keys: usize,
) -> (r: crate::types::Record)
    requires
        plan_ok(query@, counts@, crate::types::strings_view(thresholds@)),
    ensures
        r.sequence_id == 0,
        r.timestamp == timestamp,
        r.type_tag == 5,
        r.flags == 0,
        r.stream_name@ == "explain"@,
        r.key@ == seq![112u8, 108u8, 97u8, 110u8],
        r.value matches crate::types::DataValue::String(t) && t@ == crate::json_doc::json_text_of(
            plan_json(spec_plan(query@, total_keys, counts@, crate::types::strings_view(thresholds@), target_keys)),
        ),
{
    let steps = plan_steps(query, total_keys, counts, thresholds, target_keys);
    let plan = plan_json_exec(&steps);
    let mut text = String::new();
    crate::query_parser::push_json_text(&mut text, &plan);
    proof {
        reveal_strlit("plan");
        vstd::string::is_ascii_spec_bytes("plan");
        assert(vstd::string::is_ascii("plan"));
        assert("plan".spec_bytes() =~= seq![112u8, 108u8, 97u8, 110u8]);
    }
    crate::types::Record {
        sequence_id: 0,
        timestamp,
        type_tag: 5,
        flags: 0,
        stream_name: crate::text::owned("explain"),
        key: crate::storage::key::StreamKey::from_str_truncated("plan"),
        value: crate::types::DataValue::String(text),
    }
}

} // verus!
