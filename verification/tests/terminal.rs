use smolvm::terminal::console;
use smolvm::terminal::console::{KeyAnswer, KeySearch};
use smolvm::terminal::posix::{
    check_sigwinch, flush_retry, nonblocking_flags, poll_io, raw_mode, raw_mode_masks,
    write_all_retry, write_start, FlushReply, FlushStep, PollAnswer, PollFlags, PollResult,
    RawModeMasks, TerminalConstants, TerminalFlags, WriteReply, WriteStep,
};

#[test]
fn a_resize_is_reported_once() {
    let mut received = true;
    assert!(check_sigwinch(&mut received));
    assert!(!check_sigwinch(&mut received));
    let mut cache = None;
    console::install_sigwinch_handler(&mut cache, Some((80, 24)));
    assert!(!console::check_sigwinch(&mut cache, Some((80, 24))));
    assert!(console::check_sigwinch(&mut cache, Some((80, 25))));
    assert!(!console::check_sigwinch(&mut cache, Some((80, 25))));
    assert!(console::check_sigwinch(&mut cache, None));
}

#[test]
fn raw_mode_touches_only_its_flags() {
    let original = TerminalFlags {
        input: 0b1111,
        output: 0b0101,
        control: 0b1000,
        local: 0b1110,
        min_bytes: 0,
        read_timeout: 9,
    };
    let masks = RawModeMasks {
        input_off: 0b0110,
        output_off: 0b0001,
        control_on: 0b0011,
        local_off: 0b1100,
    };
    assert_eq!(
        raw_mode(original, masks),
        TerminalFlags {
            input: 0b1001,
            output: 0b0100,
            control: 0b1011,
            local: 0b0010,
            min_bytes: 1,
            read_timeout: 0,
        }
    );
    assert_eq!(nonblocking_flags(2, 0o4000), Some(0o4002));
    assert_eq!(nonblocking_flags(-1, 0o4000), None);
}

#[test]
fn raw_mode_switches_the_named_flags() {
    let masks = raw_mode_masks(TerminalConstants {
        brkint: 0o2,
        icrnl: 0o400,
        inpck: 0o20,
        istrip: 0o40,
        ixon: 0o2000,
        opost: 0o1,
        cs8: 0o60,
        echo: 0o10,
        icanon: 0o2,
        iexten: 0o100000,
        isig: 0o1,
    });
    assert_eq!(
        masks,
        RawModeMasks {
            input_off: 0o2462,
            output_off: 0o1,
            control_on: 0o60,
            local_off: 0o100013,
        }
    );
}

#[test]
fn poll_events_become_readiness() {
    let flags = PollFlags { readable: 1, hangup: 16, error: 8 };
    assert_eq!(poll_io(PollAnswer::Failed, flags), None);
    let quiet = PollResult { stdin_ready: false, socket_ready: false, socket_hangup: false };
    assert_eq!(poll_io(PollAnswer::Interrupted, flags), Some(quiet));
    assert_eq!(
        poll_io(PollAnswer::Events { stdin: 16, socket: 1 }, flags),
        Some(PollResult { stdin_ready: true, socket_ready: true, socket_hangup: false })
    );
    assert_eq!(
        poll_io(PollAnswer::Events { stdin: 4, socket: 8 }, flags),
        Some(PollResult { stdin_ready: false, socket_ready: false, socket_hangup: true })
    );
}

#[test]
fn writes_go_on_until_everything_is_taken() {
    assert_eq!(write_start(0), WriteStep::Done);
    assert_eq!(write_start(3), WriteStep::Write(0));
    assert_eq!(write_all_retry(0, 3, WriteReply::WouldBlock), WriteStep::WaitThenWrite(0));
    assert_eq!(write_all_retry(0, 3, WriteReply::Wrote(2)), WriteStep::Write(2));
    assert_eq!(write_all_retry(2, 3, WriteReply::Interrupted), WriteStep::Write(2));
    assert_eq!(write_all_retry(2, 3, WriteReply::Wrote(1)), WriteStep::Done);
    assert_eq!(write_all_retry(2, 3, WriteReply::Wrote(usize::MAX)), WriteStep::Done);
    assert_eq!(write_all_retry(2, 3, WriteReply::Wrote(0)), WriteStep::WriteZero);
    assert_eq!(write_all_retry(2, 3, WriteReply::Failed), WriteStep::Fail);
    assert_eq!(flush_retry(FlushReply::Flushed), FlushStep::Done);
    assert_eq!(flush_retry(FlushReply::WouldBlock), FlushStep::WaitThenFlush);
    assert_eq!(flush_retry(FlushReply::Interrupted), FlushStep::Flush);
    assert_eq!(flush_retry(FlushReply::Failed), FlushStep::Fail);
}

#[test]
fn console_modes_and_sizes() {
    assert_eq!(console::raw_input_mode(0x01f7), 0x03f0);
    assert_eq!(console::raw_output_mode(0x0003), 0x000f);
    assert_eq!(console::window_size(0, 0, 79, 24), (80, 25));
    assert_eq!(console::window_size(5, 5, 2, 4), (0, 0));
    assert_eq!(console::wait_timeout(-1), u32::MAX);
    assert_eq!(console::wait_timeout(250), 250);
}

#[test]
fn console_waits_look_for_keys() {
    let found = console::poll_io(Some(true), Some(0x21));
    assert!(found.stdin_ready && found.socket_ready && found.socket_hangup);
    let quiet = console::poll_io(None, None);
    assert!(!quiet.stdin_ready && !quiet.socket_ready && !quiet.socket_hangup);
    assert_eq!(console::key_search_step(KeyAnswer::Queued(Some(2))), KeySearch::Peek);
    assert_eq!(console::key_search_step(KeyAnswer::Queued(Some(0))), KeySearch::Absent);
    assert_eq!(console::key_search_step(KeyAnswer::Queued(None)), KeySearch::Absent);
    assert_eq!(console::key_search_step(KeyAnswer::Next(Some(1))), KeySearch::Found);
    assert_eq!(console::key_search_step(KeyAnswer::Next(Some(16))), KeySearch::Remove);
    assert_eq!(console::key_search_step(KeyAnswer::Next(None)), KeySearch::Absent);
    assert_eq!(console::key_search_step(KeyAnswer::Removed(true)), KeySearch::Count);
    assert_eq!(console::key_search_step(KeyAnswer::Removed(false)), KeySearch::Absent);
}
