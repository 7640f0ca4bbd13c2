use validator_cu::aggregate::TOTAL_CAPABLE_CU;
use validator_cu::classify::{EncodedTransaction, Instruction, Message, VOTE_PROGRAM_ID};
use validator_cu::metrics::{block_metrics, extract_metrics, Block, TransactionMeta, TransactionWithMeta};

fn vote_tx(units: Option<u64>) -> TransactionWithMeta {
    TransactionWithMeta {
        transaction: EncodedTransaction::Json(Message::Parsed(vec![Instruction::Parsed {
            program_id: VOTE_PROGRAM_ID.to_string(),
        }])),
        meta: Some(TransactionMeta { failed: false, compute_units_consumed: units }),
    }
}

fn user_tx(failed: bool, units: Option<u64>) -> TransactionWithMeta {
    TransactionWithMeta {
        transaction: EncodedTransaction::Json(Message::Parsed(vec![Instruction::Parsed {
            program_id: "11111111111111111111111111111111".to_string(),
        }])),
        meta: Some(TransactionMeta { failed, compute_units_consumed: units }),
    }
}

#[test]
fn vote_failed_and_succeeded_block() {
    let block = Block { transactions: Some(vec![vote_tx(Some(1200)), user_tx(true, Some(500)), user_tx(false, Some(300))]) };
    let m = extract_metrics(&Some(block), 42).ok().unwrap();
    assert_eq!(m.slot, 42);
    assert_eq!(m.compute_units_used, 800);
    assert_eq!(m.vote_count, 1);
    assert_eq!(m.succeeded_count, 1);
    assert_eq!(m.failed_count, 1);
    let share = m.share_of(TOTAL_CAPABLE_CU);
    assert_eq!(share.used, 800);
    assert_eq!(share.capacity, 48_000_000);
    let percent = share.used as f64 / share.capacity as f64 * 100.0;
    assert!((percent - 0.001667).abs() < 0.000001);
}

#[test]
fn empty_block_has_zero_metrics() {
    let m = extract_metrics(&Some(Block { transactions: Some(vec![]) }), 7).ok().unwrap();
    assert_eq!(m.slot, 7);
    assert_eq!(m.compute_units_used, 0);
    assert_eq!(m.vote_count, 0);
    assert_eq!(m.succeeded_count, 0);
    assert_eq!(m.failed_count, 0);
}

#[test]
fn block_without_list_has_zero_metrics() {
    let m = extract_metrics(&Some(Block { transactions: None }), 8).ok().unwrap();
    assert_eq!(m.compute_units_used, 0);
    assert_eq!(m.vote_count + m.succeeded_count + m.failed_count, 0);
}

#[test]
fn missing_block_is_fetch_failure() {
    let r = extract_metrics(&None, 99);
    assert_eq!(r.err().unwrap().slot, 99);
}

#[test]
fn vote_compute_units_are_ignored() {
    let m = block_metrics(&vec![vote_tx(Some(u64::MAX)), vote_tx(None), user_tx(false, Some(5))], 1);
    assert_eq!(m.compute_units_used, 5);
    assert_eq!(m.vote_count, 2);
}

#[test]
fn transaction_without_meta_is_skipped() {
    let no_meta = TransactionWithMeta { transaction: EncodedTransaction::Json(Message::Raw), meta: None };
    let m = block_metrics(&vec![no_meta, user_tx(false, None)], 1);
    assert_eq!(m.compute_units_used, 0);
    assert_eq!(m.succeeded_count, 1);
    assert_eq!(m.vote_count + m.failed_count, 0);
}

#[test]
fn raw_vote_counts_as_user_transaction() {
    let raw = TransactionWithMeta {
        transaction: EncodedTransaction::Json(Message::Raw),
        meta: Some(TransactionMeta { failed: true, compute_units_consumed: Some(2100) }),
    };
    let m = block_metrics(&vec![raw], 3);
    assert_eq!(m.compute_units_used, 2100);
    assert_eq!(m.failed_count, 1);
    assert_eq!(m.vote_count, 0);
}

#[test]
fn compute_units_beyond_u64_are_summed_exactly() {
    let m = block_metrics(&vec![user_tx(false, Some(u64::MAX)), user_tx(false, Some(u64::MAX))], 1);
    assert_eq!(m.compute_units_used, 2 * (u64::MAX as u128));
}
