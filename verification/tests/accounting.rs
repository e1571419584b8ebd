use genvm::consts::VmError;
use genvm::fees::{charge_start, Amount, Bucket, BucketStart, DataLimit, FeeError};
use genvm::memlimiter::Limiter;

fn amt(v: u64) -> Amount {
    Amount([v, 0, 0, 0])
}

fn start(bucket_no: u8, v: u64) -> BucketStart {
    BucketStart {
        bucket_no,
        start: amt(v),
        oom_error: VmError("OOM Storage".to_string()),
    }
}

#[test]
fn limiter_starts_full_and_consumes() {
    let mut l = Limiter::new("test");
    let tok = l.save();
    assert!(l.consume(u32::MAX - 10, false));
    assert!(!l.consume(11, true));
    assert!(l.consume(10, true));
    assert!(!l.consume(1, false));
    l.restore(tok);
    assert!(l.consume(u32::MAX, false));
}

#[test]
fn limiter_consume_mul_overflow() {
    let mut l = Limiter::new("mul");
    assert!(!l.consume_mul(0x10000, 0x10000, false));
    assert!(l.consume_mul(1000, 1000, false));
    let tok = l.save();
    assert!(!l.consume_mul(u32::MAX, 1, false));
    l.restore(tok);
    assert!(l.consume(u32::MAX - 1_000_000, false));
    assert!(!l.consume(1, false));
}

#[test]
fn charge_start_errors() {
    let mut totals = vec![amt(10), amt(5)];
    assert!(charge_start(&mut totals, 1, amt(3), VmError("x".into())).is_ok());
    assert_eq!(totals, vec![amt(10), amt(2)]);
    match charge_start(&mut totals, 2, amt(1), VmError("x".into())) {
        Err(FeeError::BucketOutOfRange { bucket_no, buckets }) => {
            assert_eq!(bucket_no, 2);
            assert_eq!(buckets, 2);
        }
        _ => panic!("expected out of range"),
    }
    match charge_start(&mut totals, 1, amt(3), VmError("OOM".into())) {
        Err(FeeError::StartExceedsTotal { bucket_no, error }) => {
            assert_eq!(bucket_no, 1);
            assert_eq!(error.0, "OOM");
        }
        _ => panic!("expected start exceeding"),
    }
    assert_eq!(totals, vec![amt(10), amt(2)]);
}

#[test]
fn limbs_are_little_endian() {
    let mut totals = vec![Amount([0, 1, 0, 0])];
    assert!(charge_start(&mut totals, 0, amt(1), VmError("x".into())).is_ok());
    assert_eq!(totals[0], Amount([u64::MAX, 0, 0, 0]));
}

fn limit() -> DataLimit {
    DataLimit::new(
        vec![amt(100), amt(50)],
        start(0, 10),
        start(1, 5),
        start(0, 0),
        start(0, 0),
        start(1, 0),
    )
    .unwrap()
}

#[test]
fn data_limit_new_charges_starts() {
    let d = limit();
    assert_eq!(d.remaining(), vec![amt(90), amt(45)]);
    assert!(DataLimit::new(vec![amt(1)], start(0, 2), start(0, 0), start(0, 0), start(0, 0), start(0, 0)).is_err());
    assert!(DataLimit::new(vec![amt(1)], start(0, 0), start(1, 0), start(0, 0), start(0, 0), start(0, 0)).is_err());
}

#[test]
fn consume_bucket_raw_debits_or_refuses() {
    let mut d = limit();
    assert!(d.consume_bucket_raw(Bucket { bucket_no: 0 }, amt(90)));
    assert!(!d.consume_bucket_raw(Bucket { bucket_no: 0 }, amt(1)));
    assert!(!d.consume_bucket_raw(Bucket { bucket_no: 7 }, amt(1)));
    assert_eq!(d.remaining(), vec![amt(0), amt(45)]);
}

#[test]
fn consume_event_returns_cost() {
    let mut d = limit();
    assert_eq!(d.consume_event(amt(40)), Some(amt(40)));
    assert_eq!(d.consume_event(amt(10)), None);
    assert_eq!(d.remaining(), vec![amt(90), amt(5)]);
}

#[test]
fn message_fee_is_all_or_nothing() {
    // fee from bucket 0, receipt from bucket 1
    let mut d = DataLimit::new(
        vec![amt(100), amt(50)],
        start(0, 0),
        start(1, 0),
        start(0, 0),
        start(0, 0),
        start(0, 0),
    )
    .unwrap();
    assert!(!d.consume_message_fee(amt(10), amt(60)));
    assert_eq!(d.remaining(), vec![amt(100), amt(50)]);
    assert!(d.consume_message_fee(amt(10), amt(20)));
    assert_eq!(d.remaining(), vec![amt(90), amt(30)]);
}

#[test]
fn message_fee_same_bucket_uses_sum() {
    let mut d = DataLimit::new(vec![amt(100)], start(0, 0), start(0, 0), start(0, 0), start(0, 0), start(0, 0))
        .unwrap();
    assert!(!d.consume_message_fee(amt(60), amt(41)));
    assert!(d.consume_message_fee(amt(60), amt(40)));
    assert_eq!(d.remaining(), vec![amt(0)]);
    let max = Amount([u64::MAX; 4]);
    let mut d = DataLimit::new(vec![max], start(0, 0), start(0, 0), start(0, 0), start(0, 0), start(0, 0)).unwrap();
    // the sum overflows 256 bits: refused
    assert!(!d.consume_message_fee(max, amt(1)));
    assert_eq!(d.remaining(), vec![max]);
}

#[test]
fn storage_and_nondet_output_buckets() {
    // storage from bucket 0, non-deterministic output from bucket 1
    let mut d = DataLimit::new(vec![amt(10), amt(20)], start(0, 0), start(0, 0), start(1, 0), start(0, 0), start(0, 0))
        .unwrap();
    assert!(d.consume_storage_pages(amt(4)));
    assert!(!d.consume_storage_pages(amt(7)));
    assert!(d.consume_nondet_output(amt(20)));
    assert!(!d.consume_nondet_output(amt(1)));
    assert_eq!(d.remaining(), vec![amt(6), amt(0)]);
}

#[test]
fn data_limit_new_reports_first_failing_start() {
    match DataLimit::new(vec![amt(5)], start(0, 3), start(0, 3), start(0, 0), start(0, 0), start(0, 0)) {
        Err(FeeError::StartExceedsTotal { bucket_no, error }) => {
            assert_eq!(bucket_no, 0);
            assert_eq!(error.0, "OOM Storage");
        }
        _ => panic!("expected the receipt's start to exceed its bucket"),
    }
    match DataLimit::new(vec![amt(5)], start(0, 0), start(0, 0), start(0, 0), start(0, 0), start(3, 0)) {
        Err(FeeError::BucketOutOfRange { bucket_no, buckets }) => {
            assert_eq!(bucket_no, 3);
            assert_eq!(buckets, 1);
        }
        _ => panic!("expected the event bucket to be out of range"),
    }
}
