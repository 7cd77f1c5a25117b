use sipstream::config::available_workers;
use sipstream::config::PipelineConfig;
use sipstream::pool::Buf;
use sipstream::pool::BufferPool;

#[test]
fn acquire_hands_out_exactly_the_population() {
    let mut p = BufferPool::new(3, 16);
    let mut held: Vec<Buf> = Vec::new();
    for _ in 0..3 {
        held.push(p.acquire().expect("a buffer is free"));
    }
    assert!(p.acquire().is_none());
    // give one back and it can be acquired again
    p.release(held.pop().expect("held one"));
    assert!(p.acquire().is_some());
}

#[test]
fn release_clears_the_buffer() {
    let mut p = BufferPool::new(1, 8);
    let mut b = p.acquire().expect("a buffer is free");
    b.0 = 5;
    b.1.extend_from_slice(b"leftover");
    p.release(b);
    let again = p.acquire().expect("recycled");
    assert_eq!(again.1.len(), 0);
}

#[test]
fn empty_pool_has_nothing_to_acquire() {
    let mut p = BufferPool::new(0, 8);
    assert!(p.acquire().is_none());
}

#[test]
fn config_carries_its_tunables() {
    let c = PipelineConfig::new(512 * 1024, 4);
    assert_eq!(c.block_size, 512 * 1024);
    assert_eq!(c.worker_count, 4);
    assert_eq!(c.pool_size(), 8);
}

#[test]
fn auto_config_uses_the_host_parallelism() {
    let n = available_workers();
    assert!(n >= 1);
    let c = PipelineConfig::auto(1024);
    assert_eq!(c.block_size, 1024);
    assert!(c.worker_count >= 1);
}
