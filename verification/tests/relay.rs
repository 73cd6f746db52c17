use cgid::error::HttpError;
use cgid::relay::copy_exact;
use cgid::relay::ByteSink;
use cgid::relay::ByteSource;
use cgid::relay::RelayPlan;
use cgid::relay::BUFFER_SIZE;

fn pattern(n: usize) -> Vec<u8> {
    let mut v = Vec::with_capacity(n);
    for i in 0..n {
        v.push((i % 251) as u8);
    }
    v
}

#[test]
fn copy_exact_zero_length() {
    let mut src = ByteSource::new(Vec::new());
    let mut dst = ByteSink::new();
    assert!(copy_exact(&mut src, &mut dst, 0).is_ok());
    assert_eq!(dst.into_bytes().len(), 0);
}

#[test]
fn copy_exact_small_round_trip() {
    let data = pattern(100);
    let mut src = ByteSource::new(data.clone());
    let mut dst = ByteSink::new();
    assert!(copy_exact(&mut src, &mut dst, 100).is_ok());
    assert_eq!(dst.into_bytes(), data);
}

#[test]
fn copy_exact_multi_chunk_round_trip() {
    let n = 2 * BUFFER_SIZE + 1234;
    let data = pattern(n);
    let mut src = ByteSource::new(data.clone());
    let mut dst = ByteSink::new();
    assert!(copy_exact(&mut src, &mut dst, n).is_ok());
    assert_eq!(dst.into_bytes(), data);
}

#[test]
fn copy_exact_exact_buffer_multiple() {
    let n = BUFFER_SIZE;
    let data = pattern(n);
    let mut src = ByteSource::new(data.clone());
    let mut dst = ByteSink::new();
    assert!(copy_exact(&mut src, &mut dst, n).is_ok());
    assert_eq!(dst.into_bytes(), data);
}

#[test]
fn copy_exact_takes_only_declared_prefix() {
    let data = pattern(150);
    let mut src = ByteSource::new(data.clone());
    let mut dst = ByteSink::new();
    assert!(copy_exact(&mut src, &mut dst, 100).is_ok());
    assert_eq!(dst.into_bytes(), data[..100].to_vec());

    let mut rest = ByteSink::new();
    assert!(copy_exact(&mut src, &mut rest, 50).is_ok());
    assert_eq!(rest.into_bytes(), data[100..].to_vec());
}

#[test]
fn copy_exact_under_supply_fails_short() {
    let data = pattern(10);
    let mut src = ByteSource::new(data);
    let mut dst = ByteSink::new();
    assert_eq!(
        copy_exact(&mut src, &mut dst, 20),
        Err(HttpError::TransferFault)
    );
    assert_eq!(dst.into_bytes().len(), 0);
}

#[test]
fn copy_exact_under_supply_writes_at_most_available() {
    let n = BUFFER_SIZE + 5000;
    let data = pattern(n);
    let mut src = ByteSource::new(data.clone());
    let mut dst = ByteSink::new();
    let declared = 2 * BUFFER_SIZE;
    assert_eq!(
        copy_exact(&mut src, &mut dst, declared),
        Err(HttpError::TransferFault)
    );
    let written = dst.into_bytes();
    assert!(written.len() <= n);
    assert_eq!(written, data[..written.len()].to_vec());
}

#[test]
fn relay_plan_chunks_sum_to_length() {
    let length = 2 * BUFFER_SIZE + 17;
    let mut plan = RelayPlan::new(length);
    let mut chunks = Vec::new();
    while !plan.done() {
        chunks.push(plan.next_chunk());
    }
    assert_eq!(chunks, vec![BUFFER_SIZE, BUFFER_SIZE, 17]);
    assert_eq!(chunks.iter().sum::<usize>(), length);
}

#[test]
fn relay_plan_zero_is_done_at_once() {
    let plan = RelayPlan::new(0);
    assert!(plan.done());
}
