//! Upload-facing data: files, progress events, errors, and the decisions
//! of the quote, pay, commit flow.

use vstd::prelude::*;

use crate::orders::{OrderResolution, PaymentOrder, PaymentOrderManager};
use crate::quote::{receipt_from_store_quotes, receipt_of_quote};
use crate::receipt::Receipt;
use crate::staging::{PendingUploadData, PendingUploads};
use crate::types::{Amount, Chunk};

verus! {

/// A file handed in for upload: its display name and its local path.
#[derive(Clone, Debug)]
pub struct File {
    pub name: String,
    pub path: String,
}

/// Whether a stored file is publicly addressable or private.
#[derive(Clone, Copy, PartialEq, Eq, Structural, Debug)]
pub enum FileType {
    Public,
    Private,
}

/// Progress of one upload, each event tagged with the operation's id.
#[derive(Clone, Debug)]
pub enum UploadProgress {
    Started { upload_id: String, total_files: usize, total_size: u64 },
    Processing {
        upload_id: String,
        current_file: String,
        files_processed: usize,
        total_files: usize,
        bytes_processed: u64,
        total_bytes: u64,
    },
    Encrypting {
        upload_id: String,
        current_file: String,
        files_processed: usize,
        total_files: usize,
    },
    RequestingPayment { upload_id: String, files_processed: usize, total_files: usize },
    Uploading {
        upload_id: String,
        chunks_uploaded: usize,
        total_chunks: usize,
        bytes_uploaded: u64,
        total_bytes: u64,
    },
    Completed { upload_id: String, total_files: usize, total_bytes: u64 },
    Failed { upload_id: String, error: String },
    Cancelled { upload_id: String },
}

/// Preparation-phase failures, reported synchronously to the caller.
#[derive(Clone, Debug)]
pub enum UploadError {
    /// Could not connect to the network.
    Connect(String),
    /// Could not read a local file; carries its path.
    Read(String),
    /// Failed to encrypt data.
    Encryption(String),
    /// Failed to retrieve store quotes.
    StoreQuote(String),
    /// Failed to get or create a scratchpad.
    Scratchpad(String),
    /// Failed to emit an event to the caller.
    EmitEvent(String),
    /// Failed to serialize data.
    Serialization(String),
}

/// Vault-read failures.
#[derive(Clone, Debug)]
pub enum VaultError {
    /// Could not connect to the network.
    Connect(String),
    /// Could not retrieve user data.
    UserDataGet(String),
    /// Could not retrieve data.
    DataGet(String),
    /// The named file is not in the vault.
    FileNotFound,
}

/// Download failures.
#[derive(Clone, Debug)]
pub enum DownloadError {
    /// Could not connect to the network.
    Connect(String),
    /// Could not download the file.
    Download(String),
}

/// Sum of a sequence of file sizes.
pub open spec fn sum_sizes(s: Seq<u64>) -> int
    decreases s.len(),
{
    if s.len() == 0 {
        0
    } else {
        sum_sizes(s.drop_last()) + s.last()
    }
}

proof fn lemma_sum_sizes_prefix(s: Seq<u64>, i: int)
    requires
        0 <= i <= s.len(),
    ensures
        sum_sizes(s.take(i)) <= sum_sizes(s),
    decreases s.len() - i,
{
    if i == s.len() {
        assert(s.take(i) =~= s);
    } else {
        assert(s.take(i + 1).drop_last() =~= s.take(i));
        lemma_sum_sizes_prefix(s, i + 1);
    }
}

/// Totals the sizes of the files of one upload, or `None` when the total
/// exceeds what a 64-bit size can carry.
pub fn calculate_total_size(sizes: &Vec<u64>) -> (r: Option<u64>)
    ensures
        match r {
            Some(t) => t == sum_sizes(sizes@),
            None => sum_sizes(sizes@) > u64::MAX,
        },
{
    let n = sizes.len();
    let mut total: u64 = 0;
    let mut i: usize = 0;
    proof {
        assert(sizes@.take(0) =~= Seq::<u64>::empty());
    }
    while i < n
        invariant
            n == sizes@.len(),
            0 <= i <= n,
            total == sum_sizes(sizes@.take(i as int)),
        decreases n - i,
    {
        proof {
            assert(sizes@.take(i + 1).drop_last() =~= sizes@.take(i as int));
            assert(sizes@.take(i + 1).last() == sizes@[i as int]);
        }
        if sizes[i] > u64::MAX - total {
            proof {
                lemma_sum_sizes_prefix(sizes@, i + 1);
            }
            return None;
        }
        total = total + sizes[i];
        i += 1;
    }
    proof {
        assert(sizes@.take(n as int) =~= sizes@);
    }
    Some(total)
}

/// What the quote phase decided for one upload.
pub enum StartUploadDecision {
    /// The quote costs nothing: no payment order is ever created, nothing
    /// is staged, and the payload is committed immediately. The caller
    /// observes start, upload and completion at once.
    CommitNow { payload: PendingUploadData, events: Vec<UploadProgress> },
    /// The quote costs something: a fresh payment order is opened, the
    /// payload is staged under the upload id until the payment concludes,
    /// and the caller observes a payment request.
    AwaitPayment { order: PaymentOrder, events: Vec<UploadProgress> },
}

/// Decides what happens to a prepared, quoted upload: a zero-cost quote
/// commits at once, with the event sequence started, uploading, completed
/// and without a payment order ever being created; a nonzero quote opens
/// a fresh payment order and stages the payload until the order concludes.
pub fn start_upload_flow(
    orders: &mut PaymentOrderManager,
    staging: &mut PendingUploads,
    upload_id: String,
    total_files: usize,
    total_size: u64,
    payload: PendingUploadData,
) -> (r: StartUploadDecision)
    requires
        old(orders).wf(),
        old(orders).orders@.len() < 65536,
        old(staging).wf(),
    ensures
        final(orders).wf(),
        final(staging).wf(),
        match r {
            StartUploadDecision::CommitNow { payload: given_back, events } => {
                &&& payload.spec_quote().spec_total_cost() == 0
                &&& given_back == payload
                &&& *final(orders) == *old(orders)
                &&& *final(staging) == *old(staging)
                &&& events@ == seq![
                    UploadProgress::Started { upload_id, total_files, total_size },
                    UploadProgress::Uploading {
                        upload_id,
                        chunks_uploaded: 0,
                        total_chunks: payload.spec_chunks().len() as usize,
                        bytes_uploaded: 0,
                        total_bytes: total_size,
                    },
                    UploadProgress::Completed { upload_id, total_files, total_bytes: total_size },
                ]
            },
            StartUploadDecision::AwaitPayment { order, events } => {
                &&& payload.spec_quote().spec_total_cost() > 0
                &&& !old(orders).spec_contains(order.id)
                &&& final(orders).spec_contains(order.id)
                &&& order.payments@ == crate::quote::spec_positive_payments(
                    payload.spec_quote().entries@,
                )
                &&& crate::quote::sum_amounts(order.payments@)
                    == payload.spec_quote().spec_total_cost()
                &&& final(staging)@ == old(staging)@.insert(upload_id@, payload)
                &&& events@ == seq![
                    UploadProgress::RequestingPayment {
                        upload_id,
                        files_processed: total_files,
                        total_files,
                    },
                ]
            },
        },
{
    let has_payments = payload.quote().has_payments();
    if !has_payments {
        proof {
            crate::quote::lemma_total_cost_nonneg(payload.spec_quote().entries@);
        }
        let total_chunks = payload.chunk_count();
        let mut events: Vec<UploadProgress> = Vec::new();
        events.push(
            UploadProgress::Started {
                upload_id: clone_string(&upload_id),
                total_files,
                total_size,
            },
        );
        events.push(
            UploadProgress::Uploading {
                upload_id: clone_string(&upload_id),
                chunks_uploaded: 0,
                total_chunks,
                bytes_uploaded: 0,
                total_bytes: total_size,
            },
        );
        events.push(
            UploadProgress::Completed {
                upload_id,
                total_files,
                total_bytes: total_size,
            },
        );
        proof {
            assert(events@ =~= seq![
                UploadProgress::Started { upload_id, total_files, total_size },
                UploadProgress::Uploading {
                    upload_id,
                    chunks_uploaded: 0,
                    total_chunks: payload.spec_chunks().len() as usize,
                    bytes_uploaded: 0,
                    total_bytes: total_size,
                },
                UploadProgress::Completed { upload_id, total_files, total_bytes: total_size },
            ]);
        }
        StartUploadDecision::CommitNow { payload, events }
    } else {
        let payments = payload.quote().positive_payments();
        let order = orders.create_order(payments);
        let mut events: Vec<UploadProgress> = Vec::new();
        events.push(
            UploadProgress::RequestingPayment {
                upload_id: clone_string(&upload_id),
                files_processed: total_files,
                total_files,
            },
        );
        staging.stage(upload_id, payload);
        proof {
            assert(events@ =~= seq![
                UploadProgress::RequestingPayment {
                    upload_id,
                    files_processed: total_files,
                    total_files,
                },
            ]);
        }
        StartUploadDecision::AwaitPayment { order, events }
    }
}

/// Law: a quote whose total cost is zero never creates a payment order.
/// Whatever decision the quote phase reached, a zero-cost quote means the
/// order table is untouched, nothing is staged, and the caller observes
/// completion at once: the decision's last event is the completion.
pub proof fn lemma_zero_cost_never_creates_order(
    orders_before: PaymentOrderManager,
    orders_after: PaymentOrderManager,
    staging_before: PendingUploads,
    staging_after: PendingUploads,
    upload_id: String,
    total_files: usize,
    total_size: u64,
    payload: PendingUploadData,
    decision: StartUploadDecision,
)
    requires
        payload.spec_quote().spec_total_cost() == 0,
        match decision {
            StartUploadDecision::CommitNow { payload: given_back, events } => {
                &&& given_back == payload
                &&& orders_after == orders_before
                &&& staging_after == staging_before
                &&& events@ == seq![
                    UploadProgress::Started { upload_id, total_files, total_size },
                    UploadProgress::Uploading {
                        upload_id,
                        chunks_uploaded: 0,
                        total_chunks: payload.spec_chunks().len() as usize,
                        bytes_uploaded: 0,
                        total_bytes: total_size,
                    },
                    UploadProgress::Completed { upload_id, total_files, total_bytes: total_size },
                ]
            },
            StartUploadDecision::AwaitPayment { order, events } => payload.spec_quote(
            ).spec_total_cost() > 0,
        },
    ensures
        decision is CommitNow,
        orders_after == orders_before,
        staging_after == staging_before,
        match decision {
            StartUploadDecision::CommitNow { payload: given_back, events } => events@.len() > 0
                && events@.last() == (UploadProgress::Completed {
                upload_id,
                total_files,
                total_bytes: total_size,
            }),
            StartUploadDecision::AwaitPayment { .. } => false,
        },
{
}

/// Why a payment confirmation could not be turned into a commit.
#[derive(Clone, Copy, PartialEq, Eq, Structural, Debug)]
pub enum ConfirmError {
    /// Nothing is staged under this id: never staged, or already
    /// committed once. A repeat confirmation is a user-visible error.
    NotFound,
    /// The staged quote prices some address twice; no receipt can be
    /// built from it. The payload stays staged.
    InvalidQuote,
    /// The staged quote's total cost exceeds what a 128-bit amount can
    /// carry; the payload stays staged.
    CostOverflow,
}

/// A committed upload: the payload, taken from the stage exactly once,
/// and the receipt built from its quote, which authorizes the writes.
pub struct CommitPlan {
    pub payload: PendingUploadData,
    pub receipt: Receipt,
}

/// Turns a payment confirmation into a commit: takes the staged payload
/// (destructively, so a second confirmation for the same id fails with
/// `NotFound`) and builds the receipt that authorizes its writes.
pub fn confirm_upload_payment(staging: &mut PendingUploads, upload_id: &String) -> (r: Result<
    CommitPlan,
    ConfirmError,
>)
    requires
        old(staging).wf(),
    ensures
        final(staging).wf(),
        match r {
            Ok(plan) => {
                &&& old(staging)@.dom().contains(upload_id@)
                &&& plan.payload == old(staging)@[upload_id@]
                &&& plan.payload.spec_quote().wf()
                &&& final(staging)@ == old(staging)@.remove(upload_id@)
                &&& plan.receipt.wf()
                &&& plan.receipt@ == receipt_of_quote(plan.payload.spec_quote().entries@)
            },
            Err(ConfirmError::NotFound) => {
                &&& !old(staging)@.dom().contains(upload_id@)
                &&& *final(staging) == *old(staging)
            },
            Err(ConfirmError::InvalidQuote) => {
                &&& old(staging)@.dom().contains(upload_id@)
                &&& !old(staging)@[upload_id@].spec_quote().wf()
                &&& final(staging)@ == old(staging)@
            },
            Err(ConfirmError::CostOverflow) => {
                &&& old(staging)@.dom().contains(upload_id@)
                &&& old(staging)@[upload_id@].spec_quote().wf()
                &&& old(staging)@[upload_id@].spec_quote().spec_total_cost() > Amount::MAX
                &&& final(staging)@ == old(staging)@
            },
        },
{
    let taken = staging.take(upload_id);
    match taken {
        None => Err(ConfirmError::NotFound),
        Some(payload) => {
            if crate::quote::quote_has_duplicates(payload.quote()) {
                let ghost before = old(staging)@;
                staging.stage(clone_string(upload_id), payload);
                proof {
                    assert(staging@ =~= before);
                }
                return Err(ConfirmError::InvalidQuote);
            }
            let fits = match payload.quote().total_cost() {
                Some(_) => true,
                None => false,
            };
            if !fits {
                let ghost before = old(staging)@;
                staging.stage(clone_string(upload_id), payload);
                proof {
                    assert(staging@ =~= before);
                }
                return Err(ConfirmError::CostOverflow);
            }
            let receipt = receipt_from_store_quotes(payload.quote());
            Ok(CommitPlan { payload, receipt })
        },
    }
}

/// One step of committing a paid upload, in commit order.
pub enum CommitStep {
    /// Upload one batch of encrypted chunks under the receipt.
    UploadChunkBatch { batch: Vec<Chunk> },
    /// Publish the datamaps of a public upload under the same receipt:
    /// the per-file datamaps, then the archive datamap.
    UploadDatamaps { datamaps: Vec<crate::types::DataMap> },
    /// Persist the updated vault metadata under the same receipt.
    VaultWrite,
    /// Record the finished upload in local storage.
    WriteLocalRecord,
}

/// The shape of a commit step, for stating order.
pub open spec fn commit_step_op(s: CommitStep) -> SpecCommitOp {
    match s {
        CommitStep::UploadChunkBatch { batch } => SpecCommitOp::Chunks { batch: batch@ },
        CommitStep::UploadDatamaps { datamaps } => SpecCommitOp::Datamaps { datamaps: datamaps@ },
        CommitStep::VaultWrite => SpecCommitOp::Vault,
        CommitStep::WriteLocalRecord => SpecCommitOp::Local,
    }
}

/// The mathematical shape of one commit step.
pub enum SpecCommitOp {
    Chunks { batch: Seq<Chunk> },
    Datamaps { datamaps: Seq<crate::types::DataMap> },
    Vault,
    Local,
}

/// The commit order a payload demands: all file-chunk batches first, then
/// for a public upload its datamaps, then the vault metadata write where
/// one was requested, then the local record.
pub open spec fn spec_commit_steps(payload: PendingUploadData) -> Seq<SpecCommitOp> {
    spec_chunk_batches(payload.spec_chunks()).map_values(
        |b: Seq<Chunk>| SpecCommitOp::Chunks { batch: b },
    ) + (if payload.spec_upload_datamaps().len() > 0 {
        seq![SpecCommitOp::Datamaps { datamaps: payload.spec_upload_datamaps() }]
    } else {
        Seq::empty()
    }) + (if payload.spec_add_to_vault() {
        seq![SpecCommitOp::Vault]
    } else {
        Seq::empty()
    }) + seq![SpecCommitOp::Local]
}

/// Plans the commit of a paid upload: the file chunks are uploaded batch
/// by batch, then a public upload publishes its datamaps, then the vault
/// metadata is written, then the local record, so a reader who can see a
/// higher-level reference can always resolve what it names.
pub fn plan_commit_steps(payload: &PendingUploadData) -> (r: Vec<CommitStep>)
    ensures
        r@.map_values(|s: CommitStep| commit_step_op(s)) == spec_commit_steps(*payload),
{
    let chunks = payload.chunks();
    let batches = plan_chunk_batches(&chunks);
    let ghost batch_views = spec_chunk_batches(payload.spec_chunks());
    let mut out: Vec<CommitStep> = Vec::new();
    let ghost chunk_ops = batch_views.map_values(|b: Seq<Chunk>| SpecCommitOp::Chunks { batch: b });
    let n = batches.len();
    let ghost all_batches = batches@;
    let mut batches = batches;
    let mut i: usize = 0;
    proof {
        assert(all_batches.map_values(|b: Vec<Chunk>| b@) == batch_views);
        assert(out@.map_values(|s: CommitStep| commit_step_op(s)) =~= chunk_ops.take(0));
    }
    while i < n
        invariant
            n == all_batches.len(),
            0 <= i <= n,
            batches@ == all_batches.skip(i as int),
            chunk_ops == all_batches.map_values(|b: Vec<Chunk>| b@).map_values(
                |b: Seq<Chunk>| SpecCommitOp::Chunks { batch: b },
            ),
            out@.map_values(|s: CommitStep| commit_step_op(s)) == chunk_ops.take(i as int),
        decreases n - i,
    {
        proof {
            assert(all_batches.skip(i as int).first() == all_batches[i as int]);
            assert(all_batches.skip(i as int).subrange(
                1,
                all_batches.skip(i as int).len() as int,
            ) =~= all_batches.skip(i + 1));
        }
        let ghost before = out@;
        let batch = batches.remove(0);
        out.push(CommitStep::UploadChunkBatch { batch });
        proof {
            assert(out@.map_values(|s: CommitStep| commit_step_op(s)) =~= before.map_values(
                |s: CommitStep| commit_step_op(s),
            ).push(commit_step_op(out@.last())));
            assert(chunk_ops.take(i + 1) =~= chunk_ops.take(i as int).push(
                chunk_ops[i as int],
            ));
        }
        i += 1;
    }
    proof {
        assert(chunk_ops.take(n as int) =~= chunk_ops);
    }
    let ghost with_chunks = out@.map_values(|s: CommitStep| commit_step_op(s));
    let datamaps = payload.upload_datamaps();
    let ghost datamap_views = datamaps@;
    if datamaps.len() > 0 {
        let ghost before = out@;
        out.push(CommitStep::UploadDatamaps { datamaps });
        proof {
            assert(out@.map_values(|s: CommitStep| commit_step_op(s)) =~= before.map_values(
                |s: CommitStep| commit_step_op(s),
            ).push(SpecCommitOp::Datamaps { datamaps: datamap_views }));
        }
    }
    let ghost with_datamaps = out@.map_values(|s: CommitStep| commit_step_op(s));
    proof {
        if payload.spec_upload_datamaps().len() > 0 {
            assert(with_datamaps =~= with_chunks + seq![
                SpecCommitOp::Datamaps { datamaps: payload.spec_upload_datamaps() },
            ]);
        } else {
            assert(with_datamaps =~= with_chunks + Seq::<SpecCommitOp>::empty());
        }
    }
    if payload.add_to_vault() {
        let ghost before = out@;
        out.push(CommitStep::VaultWrite);
        proof {
            assert(out@.map_values(|s: CommitStep| commit_step_op(s)) =~= before.map_values(
                |s: CommitStep| commit_step_op(s),
            ).push(SpecCommitOp::Vault));
        }
    }
    let ghost before = out@;
    out.push(CommitStep::WriteLocalRecord);
    proof {
        assert(out@.map_values(|s: CommitStep| commit_step_op(s)) =~= before.map_values(
            |s: CommitStep| commit_step_op(s),
        ).push(SpecCommitOp::Local));
        if payload.spec_add_to_vault() {
            assert(out@.map_values(|s: CommitStep| commit_step_op(s)) =~= with_datamaps + seq![
                SpecCommitOp::Vault,
            ] + seq![SpecCommitOp::Local]);
        } else {
            assert(out@.map_values(|s: CommitStep| commit_step_op(s)) =~= with_datamaps
                + Seq::<SpecCommitOp>::empty() + seq![SpecCommitOp::Local]);
        }
        assert(out@.map_values(|s: CommitStep| commit_step_op(s)) =~= spec_commit_steps(
            *payload,
        ));
    }
    out
}

/// What follows once an order's wait has concluded.
pub enum PaymentWaitFollowUp {
    /// The payment completed: commit the staged payload, chunk upload
    /// first, completion after.
    Commit,
    /// The wait failed: report the failure. Nothing was written, and
    /// nothing will be: writes only ever happen after success.
    Fail { event: UploadProgress },
}

/// Maps a concluded wait to its follow-up: success commits, failure
/// reports and writes nothing.
pub fn follow_up_after_wait(upload_id: &String, error: String, resolution: OrderResolution) -> (r:
    PaymentWaitFollowUp)
    requires
        resolution != OrderResolution::Pending,
    ensures
        match r {
            PaymentWaitFollowUp::Commit => resolution == OrderResolution::Succeeded,
            PaymentWaitFollowUp::Fail { event } => resolution == OrderResolution::Failed && event
                == (UploadProgress::Failed { upload_id: *upload_id, error }),
        },
{
    match resolution {
        OrderResolution::Succeeded => PaymentWaitFollowUp::Commit,
        _ => PaymentWaitFollowUp::Fail {
            event: UploadProgress::Failed { upload_id: clone_string(upload_id), error },
        },
    }
}

/// Copies a string; the copy is the same value.
pub fn clone_string(s: &String) -> (r: String)
    ensures
        r == *s,
{
    s.clone()
}

/// Chunks uploaded in one network call, at most.
pub const MAX_CHUNKS_PER_BATCH: usize = 64;

/// The batches a chunk list is uploaded in: every batch but the last
/// holds the full batch size, the last holds the remainder.
pub open spec fn spec_chunk_batches(s: Seq<Chunk>) -> Seq<Seq<Chunk>>
    decreases s.len(),
{
    if s.len() == 0 {
        Seq::empty()
    } else if s.len() <= MAX_CHUNKS_PER_BATCH {
        seq![s]
    } else {
        seq![s.take(MAX_CHUNKS_PER_BATCH as int)] + spec_chunk_batches(
            s.skip(MAX_CHUNKS_PER_BATCH as int),
        )
    }
}

/// Splits a chunk list into upload batches.
pub fn plan_chunk_batches(chunks: &Vec<Chunk>) -> (r: Vec<Vec<Chunk>>)
    ensures
        r@.map_values(|b: Vec<Chunk>| b@) == spec_chunk_batches(chunks@),
{
    let mut out: Vec<Vec<Chunk>> = Vec::new();
    let mut off: usize = 0;
    let n = chunks.len();
    proof {
        assert(chunks@.skip(0) =~= chunks@);
        assert(out@.map_values(|b: Vec<Chunk>| b@) + spec_chunk_batches(chunks@.skip(0))
            =~= spec_chunk_batches(chunks@));
    }
    while off < n
        invariant
            n == chunks@.len(),
            0 <= off <= n,
            spec_chunk_batches(chunks@) == out@.map_values(|b: Vec<Chunk>| b@)
                + spec_chunk_batches(chunks@.skip(off as int)),
        decreases n - off,
    {
        let len = if n - off > MAX_CHUNKS_PER_BATCH {
            MAX_CHUNKS_PER_BATCH
        } else {
            n - off
        };
        let mut batch: Vec<Chunk> = Vec::new();
        let mut k: usize = 0;
        while k < len
            invariant
                0 <= off,
                off + len <= n,
                n == chunks@.len(),
                0 <= k <= len,
                batch@ == chunks@.subrange(off as int, off + k),
            decreases len - k,
        {
            batch.push(chunks[off + k]);
            proof {
                assert(chunks@.subrange(off as int, off + k + 1) =~= chunks@.subrange(
                    off as int,
                    off + k,
                ).push(chunks@[off + k]));
            }
            k += 1;
        }
        let ghost rest = chunks@.skip(off as int);
        let ghost batch_view = batch@;
        let ghost views_before = out@.map_values(|b: Vec<Chunk>| b@);
        proof {
            assert(rest.len() == n - off);
            assert(batch_view =~= rest.take(len as int));
        }
        out.push(batch);
        proof {
            if rest.len() > MAX_CHUNKS_PER_BATCH {
                assert(spec_chunk_batches(rest) == seq![rest.take(MAX_CHUNKS_PER_BATCH as int)]
                    + spec_chunk_batches(rest.skip(MAX_CHUNKS_PER_BATCH as int)));
                assert(rest.skip(MAX_CHUNKS_PER_BATCH as int) =~= chunks@.skip(off + len));
                assert(spec_chunk_batches(rest) =~= seq![batch_view] + spec_chunk_batches(
                    chunks@.skip(off + len),
                ));
            } else {
                assert(batch_view =~= rest);
                assert(spec_chunk_batches(rest) == seq![rest]);
                assert(chunks@.skip(off + len) =~= Seq::<Chunk>::empty());
                assert(spec_chunk_batches(Seq::<Chunk>::empty()) == Seq::<Seq<Chunk>>::empty());
                assert(spec_chunk_batches(rest) =~= seq![batch_view] + spec_chunk_batches(
                    chunks@.skip(off + len),
                ));
            }
            assert forall|t: int|
                0 <= t < out@.map_values(|b: Vec<Chunk>| b@).len() implies out@.map_values(
                |b: Vec<Chunk>| b@,
            )[t] == views_before.push(batch_view)[t] by {
                if t < views_before.len() {
                    assert(out@[t] == out@.drop_last()[t]);
                }
            }
            assert(out@.map_values(|b: Vec<Chunk>| b@) =~= views_before.push(batch_view));
            assert(views_before.push(batch_view) + spec_chunk_batches(chunks@.skip(off + len))
                =~= views_before + spec_chunk_batches(chunks@.skip(off as int)));
            assert(spec_chunk_batches(chunks@) =~= out@.map_values(|b: Vec<Chunk>| b@)
                + spec_chunk_batches(chunks@.skip(off + len)));
        }
        off = off + len;
    }
    proof {
        assert(chunks@.skip(n as int) =~= Seq::<Chunk>::empty());
        assert(out@.map_values(|b: Vec<Chunk>| b@) =~= spec_chunk_batches(chunks@));
    }
    out
}

} // verus!
