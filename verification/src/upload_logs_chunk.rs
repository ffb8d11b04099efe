//! Packing of serialized records into chunks of bounded size, and the rule by
//! which the upload of a chunk is retried.

use vstd::prelude::*;

verus! {

/// No chunk of several records is larger than this, whatever the settings say.
pub const MAX_CHUNK_SIZE: usize = 1024 * 1024 * 2;

/// How often the upload of one chunk is tried before the chunk is dropped.
pub const MAX_UPLOAD_ATTEMPTS: u32 = 3;

/// Seconds to wait after a failed attempt before the next one.
pub const RETRY_DELAY_SECS: u64 = 1;

/// Seconds after which an attempt to upload is given up as failed.
pub const UPLOAD_TIMEOUT_SECS: u64 = 10;

/// A chunk of more bytes than this is compressed on its way, where
/// compression is switched on.
pub const COMPRESS_THRESHOLD: usize = 1024 * 1024;

/// What an upload is made of, but for the body: a POST to the address, with
/// the path segments and the query parameter appended to it and with the
/// headers.
#[derive(Debug)]
pub struct UploadRequest {
    /// The address of the log service.
    pub url: String,
    /// The segments of the path behind the address.
    pub path_segments: Vec<String>,
    /// The query parameter, which has no value.
    pub query_param: String,
    /// The headers, each with its value.
    pub headers: Vec<(String, String)>,
    /// Seconds after which the attempt is given up.
    pub timeout_secs: u64,
    /// Whether the body is compressed on its way.
    pub compress: bool,
}

/// The headers of an upload: what is accepted, what the body is, and the key
/// where there is one.
pub open spec fn upload_headers(api_key: Option<Seq<char>>) -> Seq<(Seq<char>, Seq<char>)> {
    let fixed = seq![
        ("Accept"@, "*/*"@),
        ("Content-Type"@, "application/vnd.serilog.clef"@),
    ];
    match api_key {
        Some(key) => fixed.push(("X-Seq-ApiKey"@, key)),
        None => fixed,
    }
}

/// Whether a chunk is compressed on its way: where compression is switched
/// on and the chunk is larger than the threshold.
pub open spec fn compresses(compress_enabled: bool, chunk_len: usize) -> bool {
    compress_enabled && chunk_len > COMPRESS_THRESHOLD
}

/// Says how a chunk of `chunk_len` bytes is uploaded to the log service at
/// `url`.
pub fn upload_request(url: &str, api_key: Option<&str>, chunk_len: usize, compress_enabled: bool) -> (request:
    UploadRequest)
    ensures
        request.url@ == url@,
        request.path_segments.deep_view() == seq!["api"@, "events"@, "raw"@],
        request.query_param@ == "clef"@,
        request.headers.deep_view() == upload_headers(
            match api_key {
                Some(key) => Some(key@),
                None => None,
            },
        ),
        request.timeout_secs == UPLOAD_TIMEOUT_SECS,
        request.compress == compresses(compress_enabled, chunk_len),
{
    let mut path_segments: Vec<String> = Vec::new();
    path_segments.push("api".to_owned());
    path_segments.push("events".to_owned());
    path_segments.push("raw".to_owned());
    assert(path_segments.deep_view() == seq!["api"@, "events"@, "raw"@]);
    let mut headers: Vec<(String, String)> = Vec::new();
    headers.push(("Accept".to_owned(), "*/*".to_owned()));
    headers.push(("Content-Type".to_owned(), "application/vnd.serilog.clef".to_owned()));
    assert(headers.deep_view() == upload_headers(None));
    match api_key {
        Some(key) => {
            headers.push(("X-Seq-ApiKey".to_owned(), key.to_owned()));
            assert(headers.deep_view() == upload_headers(Some(key@)));
        },
        None => {},
    }
    UploadRequest {
        url: url.to_owned(),
        path_segments,
        query_param: "clef".to_owned(),
        headers,
        timeout_secs: UPLOAD_TIMEOUT_SECS,
        compress: compress_enabled && chunk_len > COMPRESS_THRESHOLD,
    }
}

/// Whether an HTTP status code reports success: the codes 200 to 299.
pub fn is_status_code_ok(status_code: u16) -> (ok: bool)
    ensures
        ok == (200 <= status_code < 300),
{
    status_code >= 200 && status_code < 300
}

/// What stands between two records of a chunk: carriage return, line feed.
pub open spec fn record_separator() -> Seq<u8> {
    seq![13u8, 10u8]
}

/// The records one after another, with the separator between each two.
pub open spec fn join_records(records: Seq<Seq<u8>>) -> Seq<u8>
    decreases records.len(),
{
    if records.len() == 0 {
        Seq::empty()
    } else if records.len() == 1 {
        records[0]
    } else {
        join_records(records.drop_last()) + record_separator() + records.last()
    }
}

/// One chunk: the records `first .. first + count` of a batch, joined.
#[derive(Debug)]
pub struct LogsChunk {
    pub first: usize,
    pub count: usize,
    pub body: Vec<u8>,
}

impl LogsChunk {
    /// The index after the last record of the chunk.
    pub open spec fn end(&self) -> int {
        self.first + self.count
    }

    /// The chunk holds at least one record, all of them records of the batch,
    /// and its body is those records joined.
    pub open spec fn holds(&self, records: Seq<Seq<u8>>) -> bool {
        &&& self.count >= 1
        &&& self.end() <= records.len()
        &&& self.body@ == join_records(records.subrange(self.first as int, self.end()))
    }

    /// The chunk is within the budget, or it is a single record that alone is
    /// over the budget.
    pub open spec fn within(&self, budget: nat) -> bool {
        self.body@.len() <= budget || self.count == 1
    }
}

/// The chunks, in their order, hold all records of the batch, each once and in
/// order.
pub open spec fn covers(records: Seq<Seq<u8>>, chunks: Seq<LogsChunk>) -> bool {
    &&& forall|k: int| 0 <= k < chunks.len() ==> (#[trigger] chunks[k]).holds(records)
    &&& forall|k: int| 0 <= k < chunks.len() - 1 ==> chunks[k + 1].first == (#[trigger] chunks[k]).end()
    &&& if chunks.len() == 0 {
        records.len() == 0
    } else {
        chunks[0].first == 0 && chunks.last().end() == records.len()
    }
}

/// A chunk ends only where the next record would not fit into it any more.
pub open spec fn greedy(records: Seq<Seq<u8>>, budget: nat, chunks: Seq<LogsChunk>) -> bool {
    forall|k: int|
        0 <= k < chunks.len() - 1 ==> (#[trigger] chunks[k]).body@.len() + record_separator().len()
            + records[chunks[k].end()].len() > budget
}

/// The greedy packing of a batch: the chunks hold the records in order, no
/// chunk of several records is over the budget, and no chunk ends before it
/// has to.
pub open spec fn is_packing(records: Seq<Seq<u8>>, budget: nat, chunks: Seq<LogsChunk>) -> bool {
    &&& covers(records, chunks)
    &&& forall|k: int| 0 <= k < chunks.len() ==> (#[trigger] chunks[k]).within(budget)
    &&& greedy(records, budget, chunks)
}

/// The records of a batch as sequences of bytes.
pub open spec fn records_of(batch: Seq<Vec<u8>>) -> Seq<Seq<u8>> {
    batch.map_values(|record: Vec<u8>| record@)
}

/// Joining one record more appends the separator and the record.
pub proof fn lemma_join_one_more(records: Seq<Seq<u8>>, first: int, end: int)
    requires
        0 <= first <= end < records.len(),
    ensures
        join_records(records.subrange(first, end + 1)) == if first == end {
            records[end]
        } else {
            join_records(records.subrange(first, end)) + record_separator() + records[end]
        },
{
    let longer = records.subrange(first, end + 1);
    assert(longer.last() == records[end]);
    assert(longer.drop_last() == records.subrange(first, end));
    if first == end {
        assert(longer[0] == records[end]);
    }
}

/// No chunk of a packing is over the budget, except a chunk that is a single
/// record which alone is over the budget.
pub proof fn lemma_packing_respects_budget(
    records: Seq<Seq<u8>>,
    budget: nat,
    chunks: Seq<LogsChunk>,
    k: int,
)
    requires
        is_packing(records, budget, chunks),
        0 <= k < chunks.len(),
    ensures
        chunks[k].body@.len() <= budget || {
            &&& chunks[k].count == 1
            &&& chunks[k].body@ == records[chunks[k].first as int]
            &&& records[chunks[k].first as int].len() > budget
        },
{
    let chunk = chunks[k];
    assert(chunk.holds(records));
    assert(chunk.within(budget));
    if chunk.count == 1 {
        let single = records.subrange(chunk.first as int, chunk.end());
        assert(single.len() == 1);
        assert(single[0] == records[chunk.first as int]);
    }
}

/// Joining more records gives more bytes: at least those of the shorter
/// join, a separator, and the first record that the shorter join lacks.
pub proof fn lemma_join_grows(records: Seq<Seq<u8>>, first: int, end: int, later: int)
    requires
        0 <= first < end < later <= records.len(),
    ensures
        join_records(records.subrange(first, later)).len() >= join_records(
            records.subrange(first, end),
        ).len() + record_separator().len() + records[end].len(),
    decreases later - end,
{
    lemma_join_one_more(records, first, later - 1);
    if later - 1 > end {
        lemma_join_grows(records, first, end, later - 1);
    }
}

/// Two packings of the same batch within the same budget agree on the chunk
/// with the index `k`, where both have one.
proof fn lemma_packings_agree_at(
    records: Seq<Seq<u8>>,
    budget: nat,
    a: Seq<LogsChunk>,
    b: Seq<LogsChunk>,
    k: int,
)
    requires
        is_packing(records, budget, a),
        is_packing(records, budget, b),
        0 <= k < a.len(),
        k < b.len(),
    ensures
        a[k].first == b[k].first,
        a[k].count == b[k].count,
        a[k].body@ == b[k].body@,
    decreases k,
{
    if k > 0 {
        lemma_packings_agree_at(records, budget, a, b, k - 1);
        assert(a[k].first == a[k - 1].end());
        assert(b[k].first == b[k - 1].end());
    }
    let first = a[k].first as int;
    assert(a[k].holds(records) && a[k].within(budget));
    assert(b[k].holds(records) && b[k].within(budget));
    if a[k].count < b[k].count {
        lemma_closed_chunk_is_full(records, budget, a, k, b[k]);
    }
    if b[k].count < a[k].count {
        lemma_closed_chunk_is_full(records, budget, b, k, a[k]);
    }
}

/// A chunk of a packing cannot be outgrown: no chunk that starts where it
/// starts and holds more records is within the budget.
proof fn lemma_closed_chunk_is_full(
    records: Seq<Seq<u8>>,
    budget: nat,
    chunks: Seq<LogsChunk>,
    k: int,
    longer: LogsChunk,
)
    requires
        is_packing(records, budget, chunks),
        0 <= k < chunks.len(),
        longer.holds(records),
        longer.first == chunks[k].first,
        longer.count > chunks[k].count,
    ensures
        !longer.within(budget),
{
    let chunk = chunks[k];
    assert(chunk.holds(records));
    assert(chunk.end() < records.len());
    assert(k < chunks.len() - 1) by {
        if k == chunks.len() - 1 {
            assert(chunks.last().end() == records.len());
        }
    }
    assert(chunk.body@.len() + record_separator().len() + records[chunk.end()].len() > budget);
    lemma_join_grows(records, chunk.first as int, chunk.end(), longer.end());
}

/// There is one greedy packing only: two packings of the same batch within
/// the same budget have the same chunks.
pub proof fn lemma_packing_is_unique(
    records: Seq<Seq<u8>>,
    budget: nat,
    a: Seq<LogsChunk>,
    b: Seq<LogsChunk>,
)
    requires
        is_packing(records, budget, a),
        is_packing(records, budget, b),
    ensures
        a.len() == b.len(),
        forall|k: int|
            0 <= k < a.len() ==> {
                &&& (#[trigger] a[k]).first == b[k].first
                &&& a[k].count == b[k].count
                &&& a[k].body@ == b[k].body@
            },
{
    if a.len() < b.len() {
        lemma_one_packing_is_no_longer(records, budget, a, b);
    }
    if b.len() < a.len() {
        lemma_one_packing_is_no_longer(records, budget, b, a);
    }
    assert forall|k: int| 0 <= k < a.len() implies {
        &&& (#[trigger] a[k]).first == b[k].first
        &&& a[k].count == b[k].count
        &&& a[k].body@ == b[k].body@
    } by {
        lemma_packings_agree_at(records, budget, a, b, k);
    }
}

/// Of two packings of the same batch within the same budget, none has more
/// chunks than the other.
proof fn lemma_one_packing_is_no_longer(
    records: Seq<Seq<u8>>,
    budget: nat,
    a: Seq<LogsChunk>,
    b: Seq<LogsChunk>,
)
    requires
        is_packing(records, budget, a),
        is_packing(records, budget, b),
    ensures
        a.len() >= b.len(),
{
    if a.len() < b.len() {
        if a.len() == 0 {
            assert(records.len() == 0);
            assert(b[0].holds(records));
        } else {
            let last = a.len() - 1;
            lemma_packings_agree_at(records, budget, a, b, last);
            assert(a.last().end() == records.len());
            assert(b[last + 1].first == b[last].end());
            assert(b[last + 1].holds(records));
        }
    }
}

/// Appends the bytes of `src` to `out`.
pub fn append_bytes(out: &mut Vec<u8>, src: &[u8])
    ensures
        final(out)@ == old(out)@ + src@,
{
    let mut i: usize = 0;
    while i < src.len()
        invariant
            i <= src.len(),
            out@ == old(out)@ + src@.take(i as int),
        decreases src.len() - i,
    {
        out.push(src[i]);
        i += 1;
        assert(src@.take(i as int) == src@.take(i as int - 1).push(src@[i as int - 1]));
    }
    assert(src@.take(i as int) == src@);
}

/// Whether a record of `record_len` bytes still fits into a chunk of
/// `body_len` bytes.
fn fits(body_len: usize, record_len: usize, budget: usize) -> (yes: bool)
    ensures
        yes == (body_len + record_separator().len() + record_len <= budget),
{
    match body_len.checked_add(2) {
        None => false,
        Some(with_separator) => match with_separator.checked_add(record_len) {
            None => false,
            Some(total) => total <= budget,
        },
    }
}

/// Packs the records of a batch greedily into chunks: a record joins the
/// current chunk unless the chunk would then be over the budget; then the
/// chunk ends and the record starts the next one. A record is never split, so
/// one that alone is over the budget is a chunk by itself.
pub fn pack_chunks(batch: &Vec<Vec<u8>>, budget: usize) -> (chunks: Vec<LogsChunk>)
    ensures
        is_packing(records_of(batch@), budget as nat, chunks@),
{
    let ghost records = records_of(batch@);
    let mut chunks: Vec<LogsChunk> = Vec::new();
    if batch.len() == 0 {
        return chunks;
    }
    let mut current = LogsChunk { first: 0, count: 0, body: Vec::new() };
    let mut i: usize = 0;
    while i < batch.len()
        invariant
            records == records_of(batch@),
            i <= batch.len(),
            current.first + current.count == i,
            i > 0 ==> current.count >= 1,
            current.count == 0 ==> current.body@.len() == 0,
            current.count >= 1 ==> current.holds(records) && current.within(budget as nat),
            forall|k: int| 0 <= k < chunks.len() ==> (#[trigger] chunks[k]).holds(records),
            forall|k: int| 0 <= k < chunks.len() ==> (#[trigger] chunks[k]).within(budget as nat),
            forall|k: int|
                0 <= k < chunks.len() - 1 ==> chunks[k + 1].first == (#[trigger] chunks[k]).end(),
            chunks.len() > 0 ==> chunks[0].first == 0 && chunks@.last().end() == current.first,
            chunks.len() == 0 ==> current.first == 0,
            forall|k: int|
                0 <= k < chunks.len() - 1 ==> (#[trigger] chunks[k]).body@.len()
                    + record_separator().len() + records[chunks[k].end()].len() > budget,
            chunks.len() > 0 && current.count >= 1 ==> chunks@.last().body@.len()
                + record_separator().len() + records[current.first as int].len() > budget,
        decreases batch.len() - i,
    {
        let record = &batch[i];
        assert(records[i as int] == record@);
        proof {
            if current.count >= 1 {
                lemma_join_one_more(records, current.first as int, i as int);
            }
        }
        if current.count == 0 {
            proof {
                lemma_join_one_more(records, i as int, i as int);
            }
            append_bytes(&mut current.body, record.as_slice());
            current.count = 1;
            assert(current.body@ == records[i as int]);
        } else if fits(current.body.len(), record.len(), budget) {
            let ghost before = current.body@;
            current.body.push(13);
            current.body.push(10);
            assert(current.body@ == before + record_separator());
            append_bytes(&mut current.body, record.as_slice());
            current.count = current.count + 1;
            assert(current.body@ == join_records(
                records.subrange(current.first as int, i as int),
            ) + record_separator() + records[i as int]);
        } else {
            proof {
                lemma_join_one_more(records, i as int, i as int);
            }
            let mut body: Vec<u8> = Vec::new();
            append_bytes(&mut body, record.as_slice());
            let closed = current;
            current = LogsChunk { first: i, count: 1, body };
            chunks.push(closed);
        }
        i += 1;
    }
    chunks.push(current);
    chunks
}

/// How one attempt to upload a chunk ended.
#[derive(Debug, Clone, Copy, PartialEq, Eq, Structural)]
pub enum UploadOutcome {
    /// The server answered with this HTTP status code.
    Status(u16),
    /// No answer came: the request failed on the way.
    TransportError,
}

/// What follows an attempt to upload a chunk.
#[derive(Debug, Clone, Copy, PartialEq, Eq, Structural)]
pub enum UploadVerdict {
    /// The chunk has arrived.
    Delivered,
    /// The attempt failed and another one is due, after the retry delay.
    Retry,
    /// The attempt failed and no attempt is left: the chunk is dropped.
    GiveUp,
}

impl UploadOutcome {
    /// The attempt succeeded: the server answered with a code from 200 to 299.
    pub open spec fn succeeded(self) -> bool {
        self matches UploadOutcome::Status(code) && 200 <= code < 300
    }
}

/// What follows the attempt number `attempt_no` (the first attempt has the
/// number 1) where `max_attempts` attempts are allowed.
pub open spec fn verdict_of(attempt_no: u32, max_attempts: u32, outcome: UploadOutcome)
    -> UploadVerdict {
    if outcome.succeeded() {
        UploadVerdict::Delivered
    } else if attempt_no < max_attempts {
        UploadVerdict::Retry
    } else {
        UploadVerdict::GiveUp
    }
}

/// Decides what follows an attempt to upload a chunk.
pub fn upload_verdict(attempt_no: u32, max_attempts: u32, outcome: UploadOutcome) -> (verdict:
    UploadVerdict)
    ensures
        verdict == verdict_of(attempt_no, max_attempts, outcome),
{
    let delivered = match outcome {
        UploadOutcome::Status(code) => is_status_code_ok(code),
        UploadOutcome::TransportError => false,
    };
    if delivered {
        UploadVerdict::Delivered
    } else if attempt_no < max_attempts {
        UploadVerdict::Retry
    } else {
        UploadVerdict::GiveUp
    }
}

} // verus!
