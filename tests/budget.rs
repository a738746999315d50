use payany::budget::{
    assess, candidate_fits, fee_bound, invoice_amount, invoice_of, merge_checkpoint, AmountError, Checkpoint,
    BudgetConfig, BudgetError, InvoiceType, Payment,
};
use payany::fee::FeeError;
use payany::gateway::Paycmd;
use payany::json::{Json, Params};

const NOW: u64 = 1_700_000_000;
const OWN: &str = "02aaaa";

fn pay(index: u64, created_at: u64, completed_at: Option<u64>, amount: u64, dest: &str) -> Payment {
    Payment {
        created_index: Some(index),
        created_at,
        completed_at,
        amount_sent_msat: amount,
        destination: Some(dest.to_string()),
    }
}

fn budget() -> BudgetConfig {
    BudgetConfig { amount_msat: 100_000, period_seconds: 3600 }
}

#[test]
fn budget_history_exceeds_allowance() {
    let completed = vec![pay(7, NOW - 700, Some(NOW - 600), 60_000, "03bbbb")];
    let pending = vec![pay(9, NOW - 300, None, 30_000, "03cccc")];
    let own = OWN.to_string();
    assert_eq!(
        assess(&budget(), NOW, 20_000, 0, &own, &pending, &completed),
        Err(BudgetError::Exceeded { used_msat: 110_000, budget_msat: 100_000 })
    );
}

#[test]
fn budget_within_allowance_sets_low_water_mark() {
    let completed = vec![pay(7, NOW - 700, Some(NOW - 600), 60_000, "03bbbb")];
    let pending = vec![pay(9, NOW - 300, None, 30_000, "03cccc")];
    let own = OWN.to_string();
    assert_eq!(assess(&budget(), NOW, 5_000, 5_000, &own, &pending, &completed), Ok(Some(7)));
}

#[test]
fn budget_ignores_old_and_self_payments() {
    let completed = vec![
        pay(1, NOW - 8000, Some(NOW - 7200), 90_000, "03bbbb"),
        pay(2, NOW - 100, Some(NOW - 50), 90_000, OWN),
    ];
    let pending = vec![
        pay(3, NOW - 31 * 86400, None, 90_000, "03cccc"),
        pay(4, NOW - 10, None, 10_000, "03dddd"),
    ];
    let own = OWN.to_string();
    assert_eq!(assess(&budget(), NOW, 50_000, 5_000, &own, &pending, &completed), Ok(Some(4)));
    assert_eq!(assess(&budget(), NOW, 50_000, 5_000, &own, &vec![], &vec![]), Ok(None));
}

#[test]
fn budget_candidate_alone_too_large() {
    let own = OWN.to_string();
    assert!(!candidate_fits(&budget(), 95_000, 5_001));
    assert!(candidate_fits(&budget(), 95_000, 5_000));
    assert_eq!(
        assess(&budget(), NOW, 95_000, 5_001, &own, &vec![], &vec![]),
        Err(BudgetError::CandidateOverBudget { candidate_msat: 100_001, budget_msat: 100_000 })
    );
    assert_eq!(assess(&budget(), NOW, 95_000, 5_000, &own, &vec![], &vec![]), Ok(None));
}

#[test]
fn checkpoint_stays_at_pending_payment() {
    let pending = vec![pay(5, NOW - 60, None, 1_000, "03cccc")];
    let completed = vec![pay(8, NOW - 60, Some(NOW - 30), 1_000, "03bbbb")];
    let own = OWN.to_string();
    let low = assess(&budget(), NOW, 1_000, 0, &own, &pending, &completed).unwrap();
    assert_eq!(low, Some(5));
    let start = Checkpoint { index: 0, commits: 0 };
    assert_eq!(merge_checkpoint(start, start, low), Checkpoint { index: 5, commits: 1 });
    // another scan committed 3 in the meantime: the smaller mark wins
    let other = Checkpoint { index: 3, commits: 1 };
    assert_eq!(merge_checkpoint(other, start, low), Checkpoint { index: 3, commits: 2 });
    // another scan committed 9 in the meantime: the pending payment keeps 5
    let other = Checkpoint { index: 9, commits: 1 };
    assert_eq!(merge_checkpoint(other, start, low), Checkpoint { index: 5, commits: 2 });
    let still = Checkpoint { index: 4, commits: 7 };
    assert_eq!(merge_checkpoint(still, still, None), still);
}

#[test]
fn concurrent_commit_of_the_read_value_is_noticed() {
    // both admissions read index 4; the first commits 4 itself, the second saw 9
    let start = Checkpoint { index: 4, commits: 2 };
    let first = merge_checkpoint(start, start, Some(4));
    assert_eq!(first, Checkpoint { index: 4, commits: 3 });
    let second = merge_checkpoint(first, start, Some(9));
    assert_eq!(second.index, 4);
    let wrapped = Checkpoint { index: 1, commits: u64::MAX };
    assert_eq!(merge_checkpoint(wrapped, wrapped, Some(2)).commits, 0);
}

#[test]
fn budget_amount_inputs() {
    let mut p = Params::new();
    p.insert("bolt11".to_string(), Json::Str("lnbc1".to_string()));
    assert_eq!(invoice_of(&p, Paycmd::Pay), Ok("lnbc1".to_string()));
    assert_eq!(invoice_of(&p, Paycmd::Xpay), Err(AmountError::NoInvoice));
    assert_eq!(invoice_amount(InvoiceType::Bolt11, Some(5), Some(6)), Ok(5));
    assert_eq!(invoice_amount(InvoiceType::Bolt12, Some(5), Some(6)), Ok(6));
    assert_eq!(invoice_amount(InvoiceType::Bolt12, Some(5), None), Err(AmountError::NoAmount));
    assert_eq!(invoice_amount(InvoiceType::Other, Some(5), Some(6)), Err(AmountError::WrongInvoiceType));
    assert_eq!(fee_bound(&p, 1_000_000), Ok(10_000));
    p.insert("maxfee".to_string(), Json::Number("7".to_string()));
    assert_eq!(fee_bound(&p, 1_000_000), Ok(7));
    p.insert("exemptfee".to_string(), Json::Number("7".to_string()));
    assert_eq!(fee_bound(&p, 1_000_000), Err(AmountError::Fee(FeeError::Conflict)));
}
