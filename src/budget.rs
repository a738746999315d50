//! Rolling-window budget ledger.
//!
//! The ledger admits a candidate payment when the candidate's amount and fee bound,
//! added to every outgoing payment that still matters for the current window, stay
//! within the configured allowance. It also computes the low-water mark from which
//! the next history scan starts.
use vstd::prelude::*;
use crate::fee::{get_maxfee, max_fee_spec, FeeError};
use crate::gateway::Paycmd;
use crate::json::{Json, Params};
use crate::resolve::{invstring_name, invstring_param};

verus! {

/// Seconds after which a still-pending payment is considered stale (30 days).
pub const PENDING_GRACE_SECONDS: u64 = 2592000;

/// The configured allowance: at most `amount_msat` per `period_seconds`.
#[derive(Debug, PartialEq, Eq, Clone, Copy)]
pub struct BudgetConfig {
    pub amount_msat: u64,
    pub period_seconds: u64,
}

/// One entry of the daemon's outgoing payment history.
#[derive(Debug, PartialEq, Eq)]
pub struct Payment {
    /// Sequence index assigned at creation, if the daemon reported one.
    pub created_index: Option<u64>,
    /// Creation time, seconds since the epoch.
    pub created_at: u64,
    /// Completion time, seconds since the epoch (completed payments only).
    pub completed_at: Option<u64>,
    /// Amount sent including fees, in msat.
    pub amount_sent_msat: u64,
    /// Destination node id, if known.
    pub destination: Option<String>,
}

/// Why a payment was not admitted.
#[derive(Debug, PartialEq, Eq)]
pub enum BudgetError {
    /// The candidate's amount plus fee bound alone is above the allowance.
    CandidateOverBudget { candidate_msat: u128, budget_msat: u64 },
    /// The candidate together with the recent history is above the allowance.
    Exceeded { used_msat: u128, budget_msat: u64 },
}

/// A payment to this node itself, which never counts against the budget.
pub open spec fn is_self_payment(p: Payment, own_id: Seq<char>) -> bool {
    match p.destination {
        Some(d) => d@ == own_id,
        None => false,
    }
}

/// Whether a history entry counts against the budget. A pending payment counts
/// when it was created at or after `threshold` (the grace deadline); a completed
/// one when it completed at or after `threshold` (the window start), or when its
/// completion time is unknown.
pub open spec fn counted(p: Payment, own_id: Seq<char>, pending: bool, threshold: u64) -> bool {
    &&& !is_self_payment(p, own_id)
    &&& if pending {
        p.created_at >= threshold
    } else {
        match p.completed_at {
            Some(t) => t >= threshold,
            None => true,
        }
    }
}

/// Total amount of the counted entries.
pub open spec fn counted_sum(ps: Seq<Payment>, own_id: Seq<char>, pending: bool, threshold: u64) -> nat
    decreases ps.len(),
{
    if ps.len() == 0 {
        0
    } else {
        counted_sum(ps.drop_last(), own_id, pending, threshold) + if counted(
            ps.last(),
            own_id,
            pending,
            threshold,
        ) {
            ps.last().amount_sent_msat as nat
        } else {
            0
        }
    }
}

/// The smaller of two optional indices, where `None` means "nothing seen".
pub open spec fn lower(a: Option<u64>, b: Option<u64>) -> Option<u64> {
    match (a, b) {
        (None, y) => y,
        (x, None) => x,
        (Some(x), Some(y)) => Some(if x <= y { x } else { y }),
    }
}

/// The smallest creation index among the counted entries.
pub open spec fn counted_min_index(
    ps: Seq<Payment>,
    own_id: Seq<char>,
    pending: bool,
    threshold: u64,
) -> Option<u64>
    decreases ps.len(),
{
    if ps.len() == 0 {
        None
    } else {
        lower(
            counted_min_index(ps.drop_last(), own_id, pending, threshold),
            if counted(ps.last(), own_id, pending, threshold) {
                ps.last().created_index
            } else {
                None
            },
        )
    }
}

/// Start of the rolling window: `now - period`, or 0 when the period reaches back
/// before the epoch.
pub open spec fn window_start(now: u64, period: u64) -> u64 {
    if now >= period { (now - period) as u64 } else { 0 }
}

/// Creation time before which a pending payment is stale.
pub open spec fn grace_deadline(now: u64) -> u64 {
    window_start(now, PENDING_GRACE_SECONDS)
}

/// Everything counted against the budget when admitting a candidate.
pub open spec fn used_total(
    config: BudgetConfig,
    now: u64,
    candidate: int,
    own_id: Seq<char>,
    pending: Seq<Payment>,
    completed: Seq<Payment>,
) -> int {
    candidate + counted_sum(pending, own_id, true, grace_deadline(now)) + counted_sum(
        completed,
        own_id,
        false,
        window_start(now, config.period_seconds),
    )
}

/// `x`, or the largest `u128` where `x` is above it.
pub open spec fn capped(x: int) -> int {
    if x > u128::MAX { u128::MAX as int } else { x }
}

/// The low-water mark of one scan: the smallest index among all counted entries.
pub open spec fn scan_low_water(
    config: BudgetConfig,
    now: u64,
    own_id: Seq<char>,
    pending: Seq<Payment>,
    completed: Seq<Payment>,
) -> Option<u64> {
    lower(
        counted_min_index(pending, own_id, true, grace_deadline(now)),
        counted_min_index(completed, own_id, false, window_start(now, config.period_seconds)),
    )
}

/// The shared checkpoint: the index from which the next history scan starts, and
/// a count of the commits that changed it (wrapping around after `u64::MAX`), by
/// which a scan tells whether another one committed since it read the checkpoint.
#[derive(Debug, PartialEq, Eq, Clone, Copy)]
pub struct Checkpoint {
    pub index: u64,
    pub commits: u64,
}

/// The commit count after one more commit.
pub open spec fn next_commit(n: u64) -> u64 {
    if n == u64::MAX {
        0
    } else {
        (n + 1) as u64
    }
}

/// The checkpoint stored after a scan that read `read` at its start and observed
/// the low-water mark `observed`, when the shared value is now `stored`: the mark
/// itself when no commit happened since the read, otherwise the smaller of the mark
/// and the stored index. A scan that observed nothing leaves the checkpoint alone.
pub open spec fn merged_checkpoint(stored: Checkpoint, read: Checkpoint, observed: Option<u64>) -> Checkpoint {
    match observed {
        None => stored,
        Some(m) => Checkpoint {
            index: if stored.commits == read.commits || m <= stored.index {
                m
            } else {
                stored.index
            },
            commits: next_commit(stored.commits),
        },
    }
}

proof fn lemma_counted_sum_bound(ps: Seq<Payment>, own_id: Seq<char>, pending: bool, threshold: u64)
    ensures
        counted_sum(ps, own_id, pending, threshold) <= ps.len() * (u64::MAX as nat),
    decreases ps.len(),
{
    if ps.len() > 0 {
        lemma_counted_sum_bound(ps.drop_last(), own_id, pending, threshold);
        assert((ps.len() - 1) * (u64::MAX as nat) + (u64::MAX as nat) == ps.len() * (
        u64::MAX as nat)) by (nonlinear_arith);
    }
}

/// Sums the counted entries of `ps` and lowers `low` to the smallest counted index.
fn tally(ps: &Vec<Payment>, own_id: &String, pending: bool, threshold: u64, low: Option<u64>) -> (r: (
    u128,
    Option<u64>,
))
    ensures
        r.0 == counted_sum(ps@, own_id@, pending, threshold),
        r.1 == lower(low, counted_min_index(ps@, own_id@, pending, threshold)),
{
    let mut sum: u128 = 0;
    let mut min_index: Option<u64> = low;
    let mut i: usize = 0;
    while i < ps.len()
        invariant
            i <= ps.len(),
            sum == counted_sum(ps@.subrange(0, i as int), own_id@, pending, threshold),
            min_index == lower(low, counted_min_index(ps@.subrange(0, i as int), own_id@, pending, threshold)),
        decreases ps.len() - i,
    {
        let p = &ps[i];
        proof {
            let prefix = ps@.subrange(0, i as int + 1);
            assert(prefix.drop_last() =~= ps@.subrange(0, i as int));
            assert(prefix.last() == ps@[i as int]);
            lemma_counted_sum_bound(ps@.subrange(0, i as int), own_id@, pending, threshold);
            assert(i * (u64::MAX as nat) <= (usize::MAX as nat) * (u64::MAX as nat)) by (nonlinear_arith)
                requires i <= usize::MAX;
        }
        let self_payment = match &p.destination {
            Some(d) => String::eq(d, own_id),
            None => false,
        };
        let in_range = if pending {
            p.created_at >= threshold
        } else {
            match p.completed_at {
                Some(t) => t >= threshold,
                None => true,
            }
        };
        if !self_payment && in_range {
            sum = sum + p.amount_sent_msat as u128;
            match p.created_index {
                Some(ci) => {
                    min_index = match min_index {
                        Some(m) => if ci < m { Some(ci) } else { Some(m) },
                        None => Some(ci),
                    };
                },
                None => {},
            }
        }
        proof {
            let prefix = ps@.subrange(0, i as int + 1);
            assert(counted_sum(prefix, own_id@, pending, threshold) == counted_sum(ps@.subrange(0, i as int), own_id@, pending, threshold) + if counted(ps@[i as int], own_id@, pending, threshold) { ps@[i as int].amount_sent_msat as nat } else { 0 });
            assert(self_payment == is_self_payment(ps@[i as int], own_id@));
        }
        i = i + 1;
    }
    assert(ps@.subrange(0, ps.len() as int) =~= ps@);
    (sum, min_index)
}

/// Whether the candidate's amount plus fee bound alone fits the allowance; when it
/// does not, the payment is rejected without looking at the history.
pub fn candidate_fits(config: &BudgetConfig, amount_msat: u64, fee_msat: u64) -> (r: bool)
    ensures
        r == (amount_msat + fee_msat <= config.amount_msat),
{
    amount_msat as u128 + fee_msat as u128 <= config.amount_msat as u128
}

/// Admission check against the history returned by a scan.
///
/// `pending` and `completed` are the still-pending and completed outgoing payments
/// from the current checkpoint on; `own_id` is this node's id. On success the result
/// is the scan's low-water mark (`None` when nothing counted), to be merged into the
/// shared checkpoint with [`merge_checkpoint`].
pub fn assess(
    config: &BudgetConfig,
    now: u64,
    amount_msat: u64,
    fee_msat: u64,
    own_id: &String,
    pending: &Vec<Payment>,
    completed: &Vec<Payment>,
) -> (r: Result<Option<u64>, BudgetError>)
    ensures
        amount_msat + fee_msat > config.amount_msat <==> r matches Err(
            BudgetError::CandidateOverBudget { .. },
        ),
        r matches Err(BudgetError::CandidateOverBudget { candidate_msat, budget_msat }) ==> (
        candidate_msat == amount_msat + fee_msat && budget_msat == config.amount_msat),
        r matches Err(BudgetError::Exceeded { used_msat, budget_msat }) ==> (used_msat
            == capped(used_total(*config, now, amount_msat + fee_msat, own_id@, pending@, completed@))
            && budget_msat == config.amount_msat),
        amount_msat + fee_msat <= config.amount_msat ==> (r is Ok <==> used_total(
            *config,
            now,
            amount_msat + fee_msat,
            own_id@,
            pending@,
            completed@,
        ) <= config.amount_msat),
        r is Ok ==> r->Ok_0 == scan_low_water(*config, now, own_id@, pending@, completed@),
{
    let candidate: u128 = amount_msat as u128 + fee_msat as u128;
    if candidate > config.amount_msat as u128 {
        return Err(BudgetError::CandidateOverBudget { candidate_msat: candidate, budget_msat: config.amount_msat });
    }
    let window = if now >= config.period_seconds { now - config.period_seconds } else { 0 };
    let deadline = if now >= PENDING_GRACE_SECONDS { now - PENDING_GRACE_SECONDS } else { 0 };
    let (pending_sum, low) = tally(pending, own_id, true, deadline, None);
    let (completed_sum, low) = tally(completed, own_id, false, window, low);
    proof {
        lemma_counted_sum_bound(pending@, own_id@, true, deadline);
        lemma_counted_sum_bound(completed@, own_id@, false, window);
        let np = pending.len() as nat;
        let nc = completed.len() as nat;
        assert(np * (u64::MAX as nat) <= (usize::MAX as nat) * (u64::MAX as nat)) by (nonlinear_arith)
            requires np <= usize::MAX;
        assert(nc * (u64::MAX as nat) <= (usize::MAX as nat) * (u64::MAX as nat)) by (nonlinear_arith)
            requires nc <= usize::MAX;
    }
    let used = candidate.saturating_add(pending_sum).saturating_add(completed_sum);
    if used > config.amount_msat as u128 {
        Err(BudgetError::Exceeded { used_msat: used, budget_msat: config.amount_msat })
    } else {
        Ok(low)
    }
}

/// The new shared checkpoint after a successful scan that read `read` at its start
/// and observed the low-water mark `observed`, when the shared value is now
/// `stored`. When no other scan committed in between (the commit counts agree) the
/// observed mark is taken as it is; otherwise the smaller of the two wins, so that a
/// concurrent commit can never move the checkpoint past an index that another scan
/// still needs.
pub fn merge_checkpoint(stored: Checkpoint, read: Checkpoint, observed: Option<u64>) -> (r: Checkpoint)
    ensures
        r == merged_checkpoint(stored, read, observed),
        observed is None ==> r == stored,
        observed is Some && stored.commits == read.commits ==> r.index == observed->0,
        observed is Some && stored.commits != read.commits ==> r.index == if observed->0
            <= stored.index {
            observed->0
        } else {
            stored.index
        },
        observed is Some ==> r.index <= observed->0 && r.commits != stored.commits,
{
    match observed {
        None => stored,
        Some(m) => {
            let index = if stored.commits == read.commits || m <= stored.index {
                m
            } else {
                stored.index
            };
            let commits = if stored.commits == u64::MAX {
                0
            } else {
                stored.commits + 1
            };
            Checkpoint { index, commits }
        },
    }
}

/// Two admissions that read the same checkpoint and commit the marks `m1` and `m2`,
/// in either order, leave the checkpoint at or below both marks: the result is the
/// true minimum, whatever the interleaving.
pub proof fn concurrent_commits_keep_minimum(start: Checkpoint, m1: u64, m2: u64)
    ensures
        merged_checkpoint(merged_checkpoint(start, start, Some(m1)), start, Some(m2)).index <= m1,
        merged_checkpoint(merged_checkpoint(start, start, Some(m1)), start, Some(m2)).index <= m2,
        merged_checkpoint(merged_checkpoint(start, start, Some(m2)), start, Some(m1)).index <= m1,
        merged_checkpoint(merged_checkpoint(start, start, Some(m2)), start, Some(m1)).index <= m2,
{
}

proof fn lemma_min_index_below(ps: Seq<Payment>, own_id: Seq<char>, pending: bool, threshold: u64, k: int)
    requires
        0 <= k < ps.len(),
        counted(ps[k], own_id, pending, threshold),
        ps[k].created_index is Some,
    ensures
        counted_min_index(ps, own_id, pending, threshold) is Some,
        counted_min_index(ps, own_id, pending, threshold)->0 <= ps[k].created_index->0,
    decreases ps.len(),
{
    if k < ps.len() - 1 {
        assert(ps.drop_last()[k] == ps[k]);
        lemma_min_index_below(ps.drop_last(), own_id, pending, threshold, k);
    }
}

/// A pending payment that counted in an admitted scan is never skipped later: the
/// checkpoint left behind, whether the scan's own low-water mark or the result of
/// merging it into a concurrently updated value, is at or below that payment's
/// index, so the next scan (which starts at the checkpoint) includes it again.
pub proof fn checkpoint_keeps_pending(
    config: BudgetConfig,
    now: u64,
    own_id: Seq<char>,
    pending: Seq<Payment>,
    completed: Seq<Payment>,
    k: int,
    stored: Checkpoint,
    read: Checkpoint,
)
    requires
        0 <= k < pending.len(),
        counted(pending[k], own_id, true, grace_deadline(now)),
        pending[k].created_index is Some,
    ensures
        scan_low_water(config, now, own_id, pending, completed) is Some,
        scan_low_water(config, now, own_id, pending, completed)->0 <= pending[k].created_index->0,
        merged_checkpoint(stored, read, scan_low_water(config, now, own_id, pending, completed)).index
            <= pending[k].created_index->0,
{
    lemma_min_index_below(pending, own_id, true, grace_deadline(now), k);
}

proof fn lemma_counted_sum_includes(ps: Seq<Payment>, own_id: Seq<char>, pending: bool, threshold: u64, k: int)
    requires
        0 <= k < ps.len(),
        counted(ps[k], own_id, pending, threshold),
    ensures
        counted_sum(ps, own_id, pending, threshold) >= ps[k].amount_sent_msat,
    decreases ps.len(),
{
    if k < ps.len() - 1 {
        assert(ps.drop_last()[k] == ps[k]);
        lemma_counted_sum_includes(ps.drop_last(), own_id, pending, threshold, k);
    }
}

/// A pending payment that a scan returns again (the scan starts at a checkpoint at
/// or below its index) and that still counts, being recent and not to this node,
/// is charged against the budget: the total compared with the allowance includes
/// its amount on top of the candidate's.
pub proof fn rescanned_pending_is_charged(
    config: BudgetConfig,
    now: u64,
    candidate: int,
    own_id: Seq<char>,
    pending: Seq<Payment>,
    completed: Seq<Payment>,
    k: int,
)
    requires
        0 <= k < pending.len(),
        counted(pending[k], own_id, true, grace_deadline(now)),
    ensures
        used_total(config, now, candidate, own_id, pending, completed) >= candidate
            + pending[k].amount_sent_msat,
{
    lemma_counted_sum_includes(pending, own_id, true, grace_deadline(now), k);
}

/// What the daemon's decoder says a string is.
#[derive(Debug, PartialEq, Eq, Structural, Clone, Copy)]
pub enum InvoiceType {
    Bolt11,
    Bolt12,
    Other,
}

/// Why the amount of the payment could not be determined.
#[derive(Debug, PartialEq, Eq)]
pub enum AmountError {
    /// The identifier parameter is missing or not a string.
    NoInvoice,
    /// The decoded string is not an invoice.
    WrongInvoiceType,
    /// The invoice carries no amount.
    NoAmount,
    /// The fee parameters are unusable.
    Fee(FeeError),
}

/// The invoice string a payment command carries, under the command's parameter name.
pub fn invoice_of(params: &Params, cmd: Paycmd) -> (r: Result<String, AmountError>)
    ensures
        match params.get_spec(invstring_param(cmd)) {
            Some(Json::Str(s)) => r matches Ok(t) && t@ == s@,
            _ => r matches Err(AmountError::NoInvoice),
        },
{
    match params.get(invstring_name(cmd)) {
        Some(Json::Str(s)) => Ok(s.clone()),
        _ => Err(AmountError::NoInvoice),
    }
}

/// The amount of a decoded invoice: the BOLT11 amount or the BOLT12 invoice amount.
pub fn invoice_amount(kind: InvoiceType, amount_msat: Option<u64>, invoice_amount_msat: Option<u64>) -> (r:
    Result<u64, AmountError>)
    ensures
        kind == InvoiceType::Bolt11 ==> match amount_msat {
            Some(a) => r == Ok::<u64, AmountError>(a),
            None => r matches Err(AmountError::NoAmount),
        },
        kind == InvoiceType::Bolt12 ==> match invoice_amount_msat {
            Some(a) => r == Ok::<u64, AmountError>(a),
            None => r matches Err(AmountError::NoAmount),
        },
        kind == InvoiceType::Other ==> r matches Err(AmountError::WrongInvoiceType),
{
    let a = match kind {
        InvoiceType::Bolt11 => amount_msat,
        InvoiceType::Bolt12 => invoice_amount_msat,
        InvoiceType::Other => return Err(AmountError::WrongInvoiceType),
    };
    match a {
        Some(a) => Ok(a),
        None => Err(AmountError::NoAmount),
    }
}

/// The fee bound a payment command allows for an invoice of `amount_msat`, from its
/// `maxfee`, `maxfeepercent` and `exemptfee` parameters.
pub fn fee_bound(params: &Params, amount_msat: u64) -> (r: Result<u64, AmountError>)
    ensures
        match max_fee_spec(
            params.get_spec("maxfee"@),
            params.get_spec("maxfeepercent"@),
            params.get_spec("exemptfee"@),
            amount_msat as nat,
        ) {
            Ok(v) => r == Ok::<u64, AmountError>(v as u64),
            Err(e) => r == Err::<u64, AmountError>(AmountError::Fee(e)),
        },
{
    match get_maxfee(params.get("maxfee"), params.get("maxfeepercent"), params.get("exemptfee"), amount_msat) {
        Ok(v) => Ok(v),
        Err(e) => Err(AmountError::Fee(e)),
    }
}

} // verus!
