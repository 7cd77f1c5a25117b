use sipstream::digest::hash_block;
use sipstream::reducer::Reducer;
use sipstream::stream::run_single;

#[test]
fn out_of_order_arrival_matches_the_single_pass() {
    let input = b"abcdefghij";
    let blocks: Vec<&[u8]> = vec![b"abcd", b"efgh", b"ij"];

    let mut r = Reducer::new();
    for i in [2u64, 0, 1] {
        r.push(hash_block(i, blocks[i as usize]));
    }
    let got = r.finish().expect("no gap");

    let expected = run_single(input, 4);
    assert_eq!(got.hash, expected.hash);
    assert_eq!(got.len, expected.len);
}

#[test]
fn every_arrival_order_agrees() {
    let blocks: Vec<Vec<u8>> = vec![
        b"one".to_vec(),
        b"two".to_vec(),
        b"three".to_vec(),
    ];
    let orders: Vec<[u64; 3]> = vec![
        [0, 1, 2],
        [0, 2, 1],
        [1, 0, 2],
        [1, 2, 0],
        [2, 0, 1],
        [2, 1, 0],
    ];
    let mut results = Vec::new();
    for order in &orders {
        let mut r = Reducer::new();
        for &i in order {
            r.push(hash_block(i, &blocks[i as usize]));
        }
        let out = r.finish().expect("no gap");
        results.push((out.hash, out.len));
    }
    for w in results.windows(2) {
        assert_eq!(w[0], w[1]);
    }
}

#[test]
fn a_gap_at_close_is_reported() {
    let mut r = Reducer::new();
    r.push(hash_block(0, b"first"));
    r.push(hash_block(2, b"third"));
    assert!(r.finish().is_none());
}

#[test]
fn an_empty_stream_of_digests_is_complete() {
    let r = Reducer::new();
    let out = r.finish().expect("nothing buffered");
    assert_eq!(out.hash, 0);
    assert_eq!(out.len, 0);
}

#[test]
fn read_error_after_whole_blocks_digests_the_prefix() {
    // the producer consumed three whole blocks before the read failed;
    // the digests of exactly those blocks reach the reducer (here out
    // of order), and the result equals hashing just that prefix
    let full = (0..350u32).map(|i| (i % 256) as u8).collect::<Vec<u8>>();
    let consumed = &full[..300];

    let mut r = Reducer::new();
    for i in [1u64, 2, 0] {
        let start = i as usize * 100;
        r.push(hash_block(i, &consumed[start..start + 100]));
    }
    let got = r.finish().expect("no gap");

    let expected = run_single(consumed, 100);
    assert_eq!(got.hash, expected.hash);
    assert_eq!(got.len, 300);
}
