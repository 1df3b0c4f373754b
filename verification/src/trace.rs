//! Kernel traces and the rocprof v2 trace filter.
use vstd::prelude::*;
use vstd::string::StringExecFns;

verus! {

/// One record of a rocprof v2 JSON trace.
#[derive(Debug, Clone)]
pub struct RocprofEntry {
    pub op: String,
    pub kernel_name: Option<String>,
    pub start_timestamp: Option<u64>,
    pub end_timestamp: Option<u64>,
}

/// One kernel launch as the profiler records it. Times are in nanoseconds;
/// the duration in microseconds is `duration_ns / 1000`.
#[derive(Debug, Clone)]
pub struct KernelTrace {
    pub kernel_name: String,
    pub grid_size: [u64; 3],
    pub block_size: [u64; 3],
    pub registers_per_thread: u32,
    pub shared_memory_bytes: u64,
    pub duration_ns: u64,
    pub memory_read_bytes: u64,
    pub memory_write_bytes: u64,
    pub gpu_id: u32,
    pub stream_id: u32,
    pub timestamp_ns: u64,
}

/// A record describes a kernel dispatch.
pub open spec fn is_dispatch(e: RocprofEntry) -> bool {
    e.op@ == "kernel_dispatch"@
}

/// Start of a record, 0 where the trace gives none.
pub open spec fn start_of(e: RocprofEntry) -> u64 {
    match e.start_timestamp {
        Some(t) => t,
        None => 0,
    }
}

/// End of a record, 0 where the trace gives none.
pub open spec fn end_of(e: RocprofEntry) -> u64 {
    match e.end_timestamp {
        Some(t) => t,
        None => 0,
    }
}

/// Kernel name of a record, empty where the trace gives none.
pub open spec fn name_of(e: RocprofEntry) -> Seq<char> {
    match e.kernel_name {
        Some(n) => n@,
        None => Seq::empty(),
    }
}

/// The dispatch records of a trace, in trace order.
pub open spec fn dispatches(s: Seq<RocprofEntry>) -> Seq<RocprofEntry>
    decreases s.len(),
{
    if s.len() == 0 {
        Seq::empty()
    } else if is_dispatch(s.last()) {
        dispatches(s.drop_last()).push(s.last())
    } else {
        dispatches(s.drop_last())
    }
}

/// No dispatch record ends before it starts.
pub open spec fn well_timed(s: Seq<RocprofEntry>) -> bool {
    forall|i: int| 0 <= i < s.len() && is_dispatch(#[trigger] s[i]) ==> start_of(s[i]) <= end_of(s[i])
}

/// The trace that a dispatch record becomes: a 1x1x1 grid of 64-thread
/// blocks on GPU 0, stream 0, with the record's name, start and duration.
pub open spec fn trace_of(t: KernelTrace, e: RocprofEntry) -> bool {
    &&& t.kernel_name@ == name_of(e)
    &&& t.grid_size@ == seq![1u64, 1u64, 1u64]
    &&& t.block_size@ == seq![64u64, 1u64, 1u64]
    &&& t.registers_per_thread == 0
    &&& t.shared_memory_bytes == 0
    &&& t.duration_ns == end_of(e) - start_of(e)
    &&& t.memory_read_bytes == 0
    &&& t.memory_write_bytes == 0
    &&& t.gpu_id == 0
    &&& t.stream_id == 0
    &&& t.timestamp_ns == start_of(e)
}

proof fn lemma_dispatches_len(s: Seq<RocprofEntry>)
    ensures
        dispatches(s).len() <= s.len(),
    decreases s.len(),
{
    if s.len() > 0 {
        lemma_dispatches_len(s.drop_last());
    }
}

/// The dispatch records of a trace are exactly its records whose op is
/// "kernel_dispatch", each kept once and in trace order, whatever their
/// names or times; a record that is not a dispatch adds nothing.
pub proof fn lemma_dispatches_are_filter(s: Seq<RocprofEntry>)
    ensures
        dispatches(s) == s.filter(|e: RocprofEntry| e.op@ == "kernel_dispatch"@),
    decreases s.len(),
{
    reveal_with_fuel(Seq::filter, 1);
    if s.len() > 0 {
        lemma_dispatches_are_filter(s.drop_last());
    }
}

/// Adding a record at the end of a trace adds one trace for a dispatch
/// and none for anything else; the earlier traces stay as they were.
pub proof fn lemma_dispatches_push(s: Seq<RocprofEntry>, e: RocprofEntry)
    ensures
        e.op@ == "kernel_dispatch"@ ==> dispatches(s.push(e)) == dispatches(s).push(e),
        e.op@ != "kernel_dispatch"@ ==> dispatches(s.push(e)) == dispatches(s),
{
    assert(s.push(e).drop_last() =~= s);
}

/// The traces of two traces written one after the other are the traces of
/// the first followed by those of the second.
pub proof fn lemma_dispatches_append(a: Seq<RocprofEntry>, b: Seq<RocprofEntry>)
    ensures
        dispatches(a + b) == dispatches(a) + dispatches(b),
    decreases b.len(),
{
    if b.len() == 0 {
        assert(a + b =~= a);
        assert(dispatches(a) + dispatches(b) =~= dispatches(a));
    } else {
        lemma_dispatches_append(a, b.drop_last());
        assert((a + b).drop_last() =~= a + b.drop_last());
        assert((a + b).last() == b.last());
        if is_dispatch(b.last()) {
            assert(dispatches(a) + dispatches(b) =~= (dispatches(a) + dispatches(b.drop_last())).push(
                b.last(),
            ));
        }
    }
}

/// Every dispatch record yields its own trace: the number of traces is the
/// number of records whose op is "kernel_dispatch".
pub proof fn lemma_one_trace_per_dispatch(s: Seq<RocprofEntry>)
    ensures
        dispatches(s).len() == s.filter(|e: RocprofEntry| e.op@ == "kernel_dispatch"@).len(),
        forall|i: int|
            0 <= i < dispatches(s).len() ==> (#[trigger] dispatches(s)[i]).op@ == "kernel_dispatch"@,
{
    lemma_dispatches_are_filter(s);
    let f = s.filter(|e: RocprofEntry| e.op@ == "kernel_dispatch"@);
    assert forall|i: int| 0 <= i < dispatches(s).len() implies (#[trigger] dispatches(s)[i]).op@
        == "kernel_dispatch"@ by {
        s.lemma_filter_pred(|e: RocprofEntry| e.op@ == "kernel_dispatch"@, i);
    }
}

/// A kernel trace spans its dispatch record: it starts at the record's
/// start and ends at the record's end (a missing time reads 0), and it
/// carries the record's kernel name (empty where there is none).
pub proof fn lemma_trace_spans_record(t: KernelTrace, e: RocprofEntry)
    requires
        trace_of(t, e),
        e.start_timestamp.unwrap_or(0) <= e.end_timestamp.unwrap_or(0),
    ensures
        t.timestamp_ns == e.start_timestamp.unwrap_or(0),
        t.timestamp_ns + t.duration_ns == e.end_timestamp.unwrap_or(0),
        e.kernel_name is Some ==> t.kernel_name@ == e.kernel_name->0@,
        e.kernel_name is None ==> t.kernel_name@.len() == 0,
{
}

/// Keeps the kernel dispatches of a rocprof v2 trace, in order, and turns
/// each into a kernel trace; every other record is dropped.
pub fn traces_from_rocprof(entries: &Vec<RocprofEntry>) -> (r: Vec<KernelTrace>)
    requires
        well_timed(entries@),
    ensures
        r@.len() == dispatches(entries@).len(),
        r@.len() <= entries@.len(),
        r@.len() == entries@.filter(|e: RocprofEntry| e.op@ == "kernel_dispatch"@).len(),
        forall|i: int| 0 <= i < r@.len() ==> trace_of(#[trigger] r@[i], dispatches(entries@)[i]),
{
    let dispatch_op = String::from_str("kernel_dispatch");
    let mut traces: Vec<KernelTrace> = Vec::new();
    let n: usize = entries.len();
    assert(entries@.take(0) =~= Seq::<RocprofEntry>::empty());
    for i in 0..n
        invariant
            n == entries@.len(),
            dispatch_op@ == "kernel_dispatch"@,
            well_timed(entries@),
            traces@.len() == dispatches(entries@.take(i as int)).len(),
            forall|j: int|
                0 <= j < traces@.len() ==> trace_of(
                    #[trigger] traces@[j],
                    dispatches(entries@.take(i as int))[j],
                ),
    {
        let e = &entries[i];
        proof {
            assert(entries@.take(i + 1).drop_last() =~= entries@.take(i as int));
            assert(entries@.take(i + 1).last() == entries@[i as int]);
        }
        if e.op == dispatch_op {
            let start: u64 = e.start_timestamp.unwrap_or(0);
            let end: u64 = e.end_timestamp.unwrap_or(0);
            assert(is_dispatch(entries@[i as int]));
            let name = match &e.kernel_name {
                Some(n) => n.clone(),
                None => String::new(),
            };
            let t = KernelTrace {
                kernel_name: name,
                grid_size: [1, 1, 1],
                block_size: [64, 1, 1],
                registers_per_thread: 0,
                shared_memory_bytes: 0,
                duration_ns: end - start,
                memory_read_bytes: 0,
                memory_write_bytes: 0,
                gpu_id: 0,
                stream_id: 0,
                timestamp_ns: start,
            };
            assert(t.grid_size@ =~= seq![1u64, 1u64, 1u64]);
            assert(t.block_size@ =~= seq![64u64, 1u64, 1u64]);
            traces.push(t);
        }
    }
    assert(entries@.take(n as int) =~= entries@);
    proof {
        lemma_dispatches_len(entries@);
        lemma_one_trace_per_dispatch(entries@);
    }
    traces
}

} // verus!
