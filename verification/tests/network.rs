use smolvm::network::device::VirtioNetworkDevice;
use smolvm::network::frame_queue::FrameQueue;
use smolvm::network::queues::{woken, NetworkFrameQueues, DEFAULT_FRAME_QUEUE_CAPACITY};

#[test]
fn queues_are_fifo() {
    let mut queues = NetworkFrameQueues::shared(4);
    queues.guest_to_host.push(vec![1, 2, 3]).unwrap();
    queues.guest_to_host.push(vec![4, 5, 6]).unwrap();

    assert_eq!(queues.guest_to_host.pop(), Some(vec![1, 2, 3]));
    assert_eq!(queues.guest_to_host.pop(), Some(vec![4, 5, 6]));
    assert_eq!(queues.guest_to_host.pop(), None);
}

#[test]
fn a_full_queue_hands_the_frame_back() {
    let mut queue = FrameQueue::new(2);
    assert_eq!(queue.capacity(), 2);
    queue.push(vec![1]).unwrap();
    queue.push(vec![2]).unwrap();
    assert_eq!(queue.push(vec![3]), Err(vec![3]));
    assert_eq!(queue.len(), 2);
    assert_eq!(queue.pop(), Some(vec![1]));
    queue.push(vec![4]).unwrap();
    assert_eq!(queue.pop(), Some(vec![2]));
    assert_eq!(queue.pop(), Some(vec![4]));
    assert_eq!(queue.len(), 0);
}

#[test]
fn receive_counts_guest_outbound_bytes_as_egress() {
    let mut queues = NetworkFrameQueues::shared(DEFAULT_FRAME_QUEUE_CAPACITY);
    let mut dev = VirtioNetworkDevice::new(1500);
    assert_eq!(queues.egress_bytes(), 0, "starts at zero");

    // A guest frame must be staged before it can be received.
    queues.guest_to_host.push(vec![0u8; 100]).unwrap();
    assert!(dev.stage_next_frame(&mut queues).is_some());
    let rx = dev.receive(&mut queues).expect("frame available");
    assert_eq!(rx.frame().len(), 100);
    assert_eq!(queues.egress_bytes(), 100, "one frame metered");

    // A second frame accumulates.
    queues.guest_to_host.push(vec![0u8; 40]).unwrap();
    assert!(dev.stage_next_frame(&mut queues).is_some());
    let _rx = dev.receive(&mut queues).expect("frame available");
    assert_eq!(queues.egress_bytes(), 140, "cumulative");
}

#[test]
fn dropped_staged_frame_is_not_metered() {
    let mut queues = NetworkFrameQueues::shared(DEFAULT_FRAME_QUEUE_CAPACITY);
    let mut dev = VirtioNetworkDevice::new(1500);
    queues.guest_to_host.push(vec![0u8; 100]).unwrap();
    assert!(dev.stage_next_frame(&mut queues).is_some());
    // The poll loop drops frames it won't forward (e.g. unsupported UDP);
    // those never reach the stack, so they must not bill egress.
    dev.drop_staged_frame();
    assert_eq!(queues.egress_bytes(), 0, "dropped frame not metered");
}

#[test]
fn staging_twice_keeps_the_frame() {
    let mut queues = NetworkFrameQueues::shared(4);
    let mut dev = VirtioNetworkDevice::new(1500);
    assert!(dev.stage_next_frame(&mut queues).is_none());
    assert!(dev.receive(&mut queues).is_none());
    queues.guest_to_host.push(vec![7]).unwrap();
    queues.guest_to_host.push(vec![8]).unwrap();
    assert_eq!(dev.stage_next_frame(&mut queues), Some(&[7u8][..]));
    assert_eq!(dev.stage_next_frame(&mut queues), Some(&[7u8][..]));
    assert_eq!(queues.guest_to_host.len(), 1);
    assert_eq!(dev.receive(&mut queues).unwrap().frame, vec![7]);
    assert_eq!(dev.stage_next_frame(&mut queues), Some(&[8u8][..]));
}

#[test]
fn frames_for_the_guest_need_room() {
    let mut queues = NetworkFrameQueues::shared(1);
    let mut dev = VirtioNetworkDevice::new(1500);
    assert!(!dev.frames_emitted);
    assert!(dev.transmit(&queues));
    assert!(dev.emit_frame(&mut queues, vec![1]));
    assert!(dev.frames_emitted);
    assert!(!dev.transmit(&queues));
    assert!(!dev.emit_frame(&mut queues, vec![2]));
    assert_eq!(queues.host_to_guest.pop(), Some(vec![1]));
    assert_eq!(dev.max_transmission_unit(), 1514);
}

#[test]
fn counters_and_shutdown() {
    let mut queues = NetworkFrameQueues::shared(1);
    queues.add_egress_bytes(u64::MAX);
    queues.add_egress_bytes(3);
    assert_eq!(queues.egress_bytes(), 2);
    assert!(!queues.is_shutting_down());
    queues.begin_shutdown();
    assert!(queues.is_shutting_down());
}

#[test]
fn a_wake_is_told_from_a_timeout() {
    assert!(woken(1, Some(5), 9));
    assert!(woken(0, None, 9));
    assert!(woken(0, Some(10), 9));
    assert!(!woken(0, Some(9), 9));
}
