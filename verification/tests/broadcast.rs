use bitcoin_zmq::{BroadcastCore, Delivery, Offer};
use std::sync::Arc;

fn read_all(core: &mut BroadcastCore<u32>, id: usize) -> (Vec<u32>, Delivery<Arc<u32>>) {
    let mut got = Vec::new();
    loop {
        match core.next(id) {
            Delivery::Item(item) => got.push(*item),
            other => return (got, other),
        }
    }
}

#[test]
fn every_reader_sees_every_item_in_order() {
    let mut core: BroadcastCore<u32> = BroadcastCore::open(8);
    let a = core.subscribe();
    let b = core.subscribe();
    let c = core.subscribe();
    for item in [10, 20, 20, 30, 5] {
        assert_eq!(core.publish(item), Offer::Accepted);
    }
    for id in [a, b, c] {
        let (got, last) = read_all(&mut core, id);
        assert_eq!(got, vec![10, 20, 20, 30, 5]);
        assert_eq!(last, Delivery::Pending);
    }
}

#[test]
fn readers_interleave_without_disturbing_each_other() {
    let mut core: BroadcastCore<u32> = BroadcastCore::open(4);
    let fast = core.subscribe();
    let slow = core.subscribe();
    assert_eq!(core.publish(1), Offer::Accepted);
    assert_eq!(core.publish(2), Offer::Accepted);
    assert_eq!(core.next(fast), Delivery::Item(Arc::new(1)));
    assert_eq!(core.next(fast), Delivery::Item(Arc::new(2)));
    assert_eq!(core.next(fast), Delivery::Pending);
    assert_eq!(core.publish(3), Offer::Accepted);
    assert_eq!(core.next(slow), Delivery::Item(Arc::new(1)));
    assert_eq!(core.next(fast), Delivery::Item(Arc::new(3)));
    assert_eq!(core.next(slow), Delivery::Item(Arc::new(2)));
    assert_eq!(core.next(slow), Delivery::Item(Arc::new(3)));
    assert_eq!(core.next(slow), Delivery::Pending);
    assert_eq!(core.unread(fast), Some(0));
    assert_eq!(core.unread(slow), Some(0));
}

#[test]
fn late_reader_sees_nothing_published_before_it() {
    let mut core: BroadcastCore<u32> = BroadcastCore::open(8);
    let early = core.subscribe();
    for item in [1, 2, 3] {
        assert_eq!(core.publish(item), Offer::Accepted);
    }
    let late = core.subscribe();
    assert_eq!(core.unread(late), Some(0));
    assert_eq!(core.next(late), Delivery::Pending);
    assert_eq!(core.publish(4), Offer::Accepted);
    assert_eq!(read_all(&mut core, late).0, vec![4]);
    assert_eq!(read_all(&mut core, early).0, vec![1, 2, 3, 4]);
}

#[test]
fn full_backlog_holds_the_producer_back() {
    let mut core: BroadcastCore<u32> = BroadcastCore::open(2);
    let slow = core.subscribe();
    let fast = core.subscribe();
    assert_eq!(core.publish(1), Offer::Accepted);
    assert_eq!(core.publish(2), Offer::Accepted);
    assert_eq!(read_all(&mut core, fast).0, vec![1, 2]);
    assert!(core.congested());
    assert!(!core.accepts());
    assert_eq!(core.publish(3), Offer::Full(3));
    assert_eq!(core.publish(3), Offer::Full(3));
    assert_eq!(core.unread(slow), Some(2));
    assert_eq!(core.next(fast), Delivery::Pending);
    assert_eq!(core.next(slow), Delivery::Item(Arc::new(1)));
    assert!(core.accepts());
    assert_eq!(core.publish(3), Offer::Accepted);
    assert_eq!(core.publish(4), Offer::Full(4));
    assert_eq!(read_all(&mut core, slow).0, vec![2, 3]);
    assert_eq!(read_all(&mut core, fast).0, vec![3]);
}

#[test]
fn closing_the_slow_reader_unblocks_the_producer() {
    let mut core: BroadcastCore<u32> = BroadcastCore::open(1);
    let slow = core.subscribe();
    let other = core.subscribe();
    assert_eq!(core.publish(7), Offer::Accepted);
    assert_eq!(core.next(other), Delivery::Item(Arc::new(7)));
    assert_eq!(core.publish(8), Offer::Full(8));
    core.close(slow);
    assert_eq!(core.unread(slow), None);
    assert_eq!(core.publish(8), Offer::Accepted);
    assert_eq!(core.next(other), Delivery::Item(Arc::new(8)));
    assert_eq!(core.next(slow), Delivery::End);
}

#[test]
fn closed_producer_drains_then_ends_for_good() {
    let mut core: BroadcastCore<u32> = BroadcastCore::open(4);
    let a = core.subscribe();
    let b = core.subscribe();
    for item in [1, 2, 3] {
        assert_eq!(core.publish(item), Offer::Accepted);
    }
    assert_eq!(core.next(a), Delivery::Item(Arc::new(1)));
    core.close_producer();
    assert!(core.is_closed());
    assert_eq!(core.publish(4), Offer::Closed(4));
    assert_eq!(core.next(a), Delivery::Item(Arc::new(2)));
    assert_eq!(core.next(a), Delivery::Item(Arc::new(3)));
    for _ in 0..3 {
        assert_eq!(core.next(a), Delivery::End);
    }
    let (got, last) = read_all(&mut core, b);
    assert_eq!(got, vec![1, 2, 3]);
    assert_eq!(last, Delivery::End);
    assert_eq!(core.next(b), Delivery::End);
}

#[test]
fn closing_the_producer_twice_is_closing_it_once() {
    let mut core: BroadcastCore<u32> = BroadcastCore::open(4);
    let a = core.subscribe();
    assert_eq!(core.publish(1), Offer::Accepted);
    core.close_producer();
    core.close_producer();
    assert!(core.is_closed());
    assert_eq!(core.next(a), Delivery::Item(Arc::new(1)));
    assert_eq!(core.next(a), Delivery::End);
}

#[test]
fn reader_attached_after_the_close_reads_the_end() {
    let mut core: BroadcastCore<u32> = BroadcastCore::open(4);
    assert_eq!(core.publish(1), Offer::Accepted);
    core.close_producer();
    let late = core.subscribe();
    assert_eq!(core.next(late), Delivery::End);
}

#[test]
fn unknown_and_detached_handles_read_the_end() {
    let mut core: BroadcastCore<u32> = BroadcastCore::open(4);
    assert_eq!(core.next(0), Delivery::End);
    let a = core.subscribe();
    assert_eq!(a, 0);
    assert_eq!(core.next(1), Delivery::End);
    assert_eq!(core.unread(1), None);
    assert_eq!(core.publish(1), Offer::Accepted);
    core.close(a);
    core.close(a);
    core.close(17);
    assert_eq!(core.next(a), Delivery::End);
    assert_eq!(core.retained(), 0);
}

#[test]
fn handles_count_up_from_zero() {
    let mut core: BroadcastCore<u32> = BroadcastCore::open(4);
    assert_eq!(core.subscribe(), 0);
    assert_eq!(core.subscribe(), 1);
    core.close(0);
    assert_eq!(core.subscribe(), 2);
}

#[test]
fn without_readers_nothing_is_kept_and_nothing_blocks() {
    let mut core: BroadcastCore<u32> = BroadcastCore::open(1);
    for item in 0..10 {
        assert_eq!(core.publish(item), Offer::Accepted);
    }
    assert_eq!(core.retained(), 0);
    assert_eq!(core.capacity(), 1);
    let a = core.subscribe();
    assert_eq!(core.next(a), Delivery::Pending);
}

#[test]
fn only_unread_items_are_kept() {
    let mut core: BroadcastCore<u32> = BroadcastCore::open(3);
    let a = core.subscribe();
    let b = core.subscribe();
    for item in [1, 2, 3] {
        assert_eq!(core.publish(item), Offer::Accepted);
    }
    assert_eq!(core.retained(), 3);
    assert_eq!(read_all(&mut core, a).0, vec![1, 2, 3]);
    assert_eq!(core.retained(), 3);
    assert_eq!(core.next(b), Delivery::Item(Arc::new(1)));
    assert_eq!(core.retained(), 2);
    core.close(b);
    assert_eq!(core.retained(), 0);
}

#[test]
fn readers_share_one_allocation_per_item() {
    let mut core: BroadcastCore<Vec<u8>> = BroadcastCore::open(2);
    let a = core.subscribe();
    let b = core.subscribe();
    assert_eq!(core.publish(vec![1, 2, 3]), Offer::Accepted);
    let first = match core.next(a) {
        Delivery::Item(item) => item,
        other => panic!("{:?}", other),
    };
    assert_eq!(Arc::strong_count(&first), 2);
    let second = match core.next(b) {
        Delivery::Item(item) => item,
        other => panic!("{:?}", other),
    };
    assert!(Arc::ptr_eq(&first, &second));
    assert_eq!(*first, vec![1, 2, 3]);
    assert_eq!(Arc::strong_count(&first), 2);
}

#[test]
fn shared_items_are_published_as_they_are() {
    let mut core: BroadcastCore<Vec<u8>> = BroadcastCore::open(1);
    let a = core.subscribe();
    let item = Arc::new(vec![9u8, 8, 7]);
    assert_eq!(core.publish_shared(Arc::clone(&item)), Offer::Accepted);
    let again = Arc::new(vec![1u8]);
    assert_eq!(core.publish_shared(Arc::clone(&again)), Offer::Full(Arc::clone(&again)));
    match core.next(a) {
        Delivery::Item(got) => assert!(Arc::ptr_eq(&got, &item)),
        other => panic!("{:?}", other),
    }
    core.close_producer();
    assert_eq!(core.publish_shared(Arc::clone(&again)), Offer::Closed(again));
}

#[test]
fn capacity_one_alternates_publish_and_read() {
    let mut core: BroadcastCore<u32> = BroadcastCore::open(1);
    let a = core.subscribe();
    for item in 0..5 {
        assert_eq!(core.publish(item), Offer::Accepted);
        assert_eq!(core.publish(item + 100), Offer::Full(item + 100));
        assert_eq!(core.next(a), Delivery::Item(Arc::new(item)));
    }
    assert_eq!(core.next(a), Delivery::Pending);
}
