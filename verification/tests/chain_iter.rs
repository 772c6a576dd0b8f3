use cardano_cli::chain::{Block, Iter, IterError, IterPhase, Storage};
use cardano_cli::ptr::BlockDate;

fn hash(tag: u8) -> Vec<u8> {
    vec![tag; 32]
}

fn block(tag: u8, prev: u8, epoch: u64, slotid: u16) -> Block {
    Block {
        hash: hash(tag),
        prev: hash(prev),
        date: BlockDate::Normal { epoch, slotid },
        body: vec![tag],
    }
}

fn mirror() -> Storage {
    // three packed blocks over two epochs, two loose blocks
    let blocks = vec![
        block(1, 0, 0, 0),
        block(2, 1, 0, 1),
        block(3, 2, 1, 0),
        block(4, 3, 1, 1),
        block(5, 4, 1, 2),
    ];
    Storage::new(blocks, 3)
}

#[test]
fn range_crosses_the_packed_loose_seam() {
    let storage = mirror();
    let mut iter = Iter::new(&storage, hash(2), hash(5)).unwrap();
    assert_eq!(iter.phase, IterPhase::Packed);
    let yielded: Vec<u8> = {
        let mut v = Vec::new();
        while let Some(b) = iter.next(&storage) {
            v.push(b.hash[0]);
        }
        v
    };
    assert_eq!(yielded, vec![2, 3, 4, 5]);
    assert_eq!(iter.phase, IterPhase::Loose);
    assert!(iter.next(&storage).is_none());
}

#[test]
fn range_with_equal_ends_yields_exactly_one_block() {
    let storage = mirror();
    let mut iter = Iter::new(&storage, hash(3), hash(3)).unwrap();
    let first = iter.next(&storage).expect("the block itself must be yielded");
    assert_eq!(first.hash, hash(3));
    assert!(iter.next(&storage).is_none());
    assert!(iter.next(&storage).is_none());
}

#[test]
fn unresolvable_start_fails_fast() {
    let storage = mirror();
    match Iter::new(&storage, hash(9), hash(5)) {
        Err(IterError::InvalidBlockHash(h)) => assert_eq!(h, hash(9)),
        _ => panic!("an unknown starting hash must fail before any iteration"),
    }
}

#[test]
fn range_runs_to_chain_end_when_closing_hash_never_shows() {
    let storage = mirror();
    let mut iter = Iter::new(&storage, hash(4), hash(9)).unwrap();
    assert_eq!(iter.phase, IterPhase::Loose);
    let mut count = 0;
    while let Some(_) = iter.next(&storage) {
        count += 1;
    }
    assert_eq!(count, 2);
}

#[test]
fn loose_only_range_stays_loose() {
    let storage = mirror();
    let mut iter = Iter::new(&storage, hash(4), hash(5)).unwrap();
    assert_eq!(iter.phase, IterPhase::Loose);
    assert_eq!(iter.next(&storage).unwrap().hash, hash(4));
    assert_eq!(iter.next(&storage).unwrap().hash, hash(5));
    assert!(iter.next(&storage).is_none());
}
