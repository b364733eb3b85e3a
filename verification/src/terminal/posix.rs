//! POSIX terminals.
use vstd::prelude::*;

verus! {

/// Check and clear the resize flag, which the signal handler sets.
///
/// Returns `true` if a terminal resize occurred since the last check.
pub fn check_sigwinch(received: &mut bool) -> (r: bool)
    ensures
        r == *old(received),
        !*final(received),
{
    let before = *received;
    *received = false;
    before
}

/// Flag words of a terminal.
#[derive(Debug, Clone, Copy, PartialEq, Eq, Structural)]
pub struct TerminalFlags {
    /// Input modes.
    pub input: u64,
    /// Output modes.
    pub output: u64,
    /// Control modes.
    pub control: u64,
    /// Local modes.
    pub local: u64,
    /// Fewest bytes that a read waits for.
    pub min_bytes: u8,
    /// Time that a read waits for more bytes.
    pub read_timeout: u8,
}

/// Flags of a terminal, as the system numbers them.
#[derive(Debug, Clone, Copy, PartialEq, Eq, Structural)]
pub struct TerminalConstants {
    /// A break on the input interrupts.
    pub brkint: u64,
    /// Carriage returns are read as newlines.
    pub icrnl: u64,
    /// Parity is checked.
    pub inpck: u64,
    /// The eighth bit is stripped.
    pub istrip: u64,
    /// Output is stopped and started from the keyboard.
    pub ixon: u64,
    /// Output is processed.
    pub opost: u64,
    /// Characters have eight bits.
    pub cs8: u64,
    /// Input is echoed.
    pub echo: u64,
    /// Input is read by lines.
    pub icanon: u64,
    /// Extensions are on.
    pub iexten: u64,
    /// Keys send signals.
    pub isig: u64,
}

/// Flags that raw mode touches.
#[derive(Debug, Clone, Copy, PartialEq, Eq, Structural)]
pub struct RawModeMasks {
    /// Break, carriage return to newline, parity, strip and flow control.
    pub input_off: u64,
    /// Output post-processing.
    pub output_off: u64,
    /// Eight-bit characters.
    pub control_on: u64,
    /// Echo, canonical mode, signals and extensions.
    pub local_off: u64,
}

/// The flags that raw mode touches, put together.
pub fn raw_mode_masks(c: TerminalConstants) -> (r: RawModeMasks)
    ensures
        r.input_off == c.brkint | c.icrnl | c.inpck | c.istrip | c.ixon,
        r.output_off == c.opost,
        r.control_on == c.cs8,
        r.local_off == c.echo | c.icanon | c.iexten | c.isig,
{
    RawModeMasks {
        input_off: c.brkint | c.icrnl | c.inpck | c.istrip | c.ixon,
        output_off: c.opost,
        control_on: c.cs8,
        local_off: c.echo | c.icanon | c.iexten | c.isig,
    }
}

/// The flags of a terminal in raw mode.
pub open spec fn raw_flags(original: TerminalFlags, masks: RawModeMasks) -> TerminalFlags {
    TerminalFlags {
        input: original.input & !masks.input_off,
        output: original.output & !masks.output_off,
        control: original.control | masks.control_on,
        local: original.local & !masks.local_off,
        min_bytes: 1,
        read_timeout: 0,
    }
}

/// Raw mode: input and output unprocessed, eight-bit characters, and reads that
/// return as soon as a byte is there.
pub fn raw_mode(original: TerminalFlags, masks: RawModeMasks) -> (r: TerminalFlags)
    ensures
        r == raw_flags(original, masks),
        r.input == original.input & !masks.input_off,
        r.output == original.output & !masks.output_off,
        r.control == original.control | masks.control_on,
        r.local == original.local & !masks.local_off,
        r.min_bytes == 1,
        r.read_timeout == 0,
{
    TerminalFlags {
        input: original.input & !masks.input_off,
        output: original.output & !masks.output_off,
        control: original.control | masks.control_on,
        local: original.local & !masks.local_off,
        min_bytes: 1,
        read_timeout: 0,
    }
}

/// Clearing a mask clears its flags and leaves every other flag as it was.
pub proof fn law_cleared_flags(flags: u64, mask: u64)
    ensures
        (flags & !mask) & mask == 0,
        (flags & !mask) & !mask == flags & !mask,
{
    assert((flags & !mask) & mask == 0) by (bit_vector);
    assert((flags & !mask) & !mask == flags & !mask) by (bit_vector);
}

/// Setting a mask sets its flags and leaves every other flag as it was.
pub proof fn law_set_flags(flags: u64, mask: u64)
    ensures
        (flags | mask) & mask == mask,
        (flags | mask) & !mask == flags & !mask,
{
    assert((flags | mask) & mask == mask) by (bit_vector);
    assert((flags | mask) & !mask == flags & !mask) by (bit_vector);
}

/// Poll result indicating which sources have data available.
#[derive(Debug, Clone, Copy, PartialEq, Eq, Structural)]
pub struct PollResult {
    /// True if stdin has data available to read.
    pub stdin_ready: bool,
    /// True if the socket has data available to read.
    pub socket_ready: bool,
    /// True if the socket has hung up (peer closed connection).
    pub socket_hangup: bool,
}

/// Event flags of a poll.
#[derive(Debug, Clone, Copy, PartialEq, Eq, Structural)]
pub struct PollFlags {
    /// Data to read.
    pub readable: u16,
    /// The peer hung up.
    pub hangup: u16,
    /// The descriptor failed.
    pub error: u16,
}

/// Answer to a poll.
#[derive(Debug, Clone, Copy, PartialEq, Eq, Structural)]
pub enum PollAnswer {
    /// A signal came in between.
    Interrupted,
    /// The poll failed otherwise.
    Failed,
    /// The events of stdin and of the socket.
    Events {
        /// Events of stdin.
        stdin: u16,
        /// Events of the socket.
        socket: u16,
    },
}

/// What the events of stdin and of a socket mean.
pub open spec fn readiness(stdin: u16, socket: u16, flags: PollFlags) -> PollResult {
    PollResult {
        stdin_ready: stdin & (flags.readable | flags.hangup | flags.error) != 0,
        socket_ready: socket & flags.readable != 0,
        socket_hangup: socket & (flags.hangup | flags.error) != 0,
    }
}

/// What a poll of stdin and a socket found. An interrupted poll found nothing;
/// a failed one is the caller's error.
///
/// A hangup of stdin counts as readiness: the pipe's write end was closed.
/// Without this, piped stdin EOF is never detected and the host hangs forever
/// waiting for more input.
pub fn poll_io(answer: PollAnswer, flags: PollFlags) -> (r: Option<PollResult>)
    ensures
        match answer {
            PollAnswer::Failed => r is None,
            PollAnswer::Interrupted => r == Some(
                PollResult { stdin_ready: false, socket_ready: false, socket_hangup: false },
            ),
            PollAnswer::Events { stdin, socket } => r == Some(
                PollResult {
                    stdin_ready: stdin & (flags.readable | flags.hangup | flags.error) != 0,
                    socket_ready: socket & flags.readable != 0,
                    socket_hangup: socket & (flags.hangup | flags.error) != 0,
                },
            ),
        },
        answer matches PollAnswer::Events { stdin, socket } ==> r == Some(
            readiness(stdin, socket, flags),
        ),
{
    match answer {
        PollAnswer::Failed => None,
        PollAnswer::Interrupted => Some(
            PollResult { stdin_ready: false, socket_ready: false, socket_hangup: false },
        ),
        PollAnswer::Events { stdin, socket } => Some(
            PollResult {
                stdin_ready: stdin & (flags.readable | flags.hangup | flags.error) != 0,
                socket_ready: socket & flags.readable != 0,
                socket_hangup: socket & (flags.hangup | flags.error) != 0,
            },
        ),
    }
}

/// A closed pipe on stdin is always noticed.
pub proof fn law_stdin_hangup_is_ready(stdin: u16, flags: PollFlags)
    requires
        stdin & flags.hangup != 0,
    ensures
        stdin & (flags.readable | flags.hangup | flags.error) != 0,
{
    let a = flags.readable;
    let b = flags.hangup;
    let c = flags.error;
    assert(stdin & b != 0 ==> stdin & (a | b | c) != 0) by (bit_vector);
}

/// Answer of a writer.
#[derive(Debug, Clone, Copy, PartialEq, Eq, Structural)]
pub enum WriteReply {
    /// So many bytes were taken.
    Wrote(usize),
    /// The writer would have blocked.
    WouldBlock,
    /// A signal came in between.
    Interrupted,
    /// The write failed otherwise.
    Failed,
}

/// What to do after an answer of a writer.
#[derive(Debug, Clone, Copy, PartialEq, Eq, Structural)]
pub enum WriteStep {
    /// Write the bytes from this position on.
    Write(usize),
    /// Wait a moment, then write the bytes from this position on.
    WaitThenWrite(usize),
    /// Everything was written.
    Done,
    /// The writer takes nothing: report that the write failed.
    WriteZero,
    /// Report the writer's error.
    Fail,
}

/// The step before any answer.
pub fn write_start(len: usize) -> (r: WriteStep)
    ensures
        r == (if len == 0 {
            WriteStep::Done
        } else {
            WriteStep::Write(0)
        }),
{
    if len == 0 {
        WriteStep::Done
    } else {
        WriteStep::Write(0)
    }
}

/// The step after an answer to a write from `position` on.
pub open spec fn write_step(position: usize, len: usize, reply: WriteReply) -> WriteStep {
    match reply {
        WriteReply::Wrote(n) => if n == 0 {
            WriteStep::WriteZero
        } else if position + n >= len {
            WriteStep::Done
        } else {
            WriteStep::Write((position + n) as usize)
        },
        WriteReply::WouldBlock => WriteStep::WaitThenWrite(position),
        WriteReply::Interrupted => WriteStep::Write(position),
        WriteReply::Failed => WriteStep::Fail,
    }
}

/// Writing `len` bytes, retrying where the writer would block: the step after an
/// answer to a write from `position` on.
///
/// When stdin is set to non-blocking, the flag propagates to stdout/stderr on
/// terminals (they share the same kernel file description), so writes may fail
/// because they would block.
pub fn write_all_retry(position: usize, len: usize, reply: WriteReply) -> (r: WriteStep)
    requires
        position < len,
    ensures
        r == write_step(position, len, reply),
{
    match reply {
        WriteReply::Wrote(n) => if n == 0 {
            WriteStep::WriteZero
        } else if n >= len - position {
            WriteStep::Done
        } else {
            WriteStep::Write(position + n)
        },
        WriteReply::WouldBlock => WriteStep::WaitThenWrite(position),
        WriteReply::Interrupted => WriteStep::Write(position),
        WriteReply::Failed => WriteStep::Fail,
    }
}

/// What to do after an answer to a flush.
#[derive(Debug, Clone, Copy, PartialEq, Eq, Structural)]
pub enum FlushStep {
    /// Flush again.
    Flush,
    /// Wait a moment, then flush again.
    WaitThenFlush,
    /// Everything was flushed.
    Done,
    /// Report the writer's error.
    Fail,
}

/// Answer to a flush.
#[derive(Debug, Clone, Copy, PartialEq, Eq, Structural)]
pub enum FlushReply {
    /// Everything was flushed.
    Flushed,
    /// The writer would have blocked.
    WouldBlock,
    /// A signal came in between.
    Interrupted,
    /// The flush failed otherwise.
    Failed,
}

/// Flushing a writer, retrying where it would block: the step after an answer.
pub fn flush_retry(reply: FlushReply) -> (r: FlushStep)
    ensures
        r == match reply {
            FlushReply::Flushed => FlushStep::Done,
            FlushReply::WouldBlock => FlushStep::WaitThenFlush,
            FlushReply::Interrupted => FlushStep::Flush,
            FlushReply::Failed => FlushStep::Fail,
        },
{
    match reply {
        FlushReply::Flushed => FlushStep::Done,
        FlushReply::WouldBlock => FlushStep::WaitThenFlush,
        FlushReply::Interrupted => FlushStep::Flush,
        FlushReply::Failed => FlushStep::Fail,
    }
}

/// The flags of a descriptor with non-blocking mode set, and none where the
/// flags could not be read.
pub fn nonblocking_flags(flags: i32, nonblocking: u32) -> (r: Option<u32>)
    ensures
        r == (if flags < 0 {
            None
        } else {
            Some(flags as u32 | nonblocking)
        }),
{
    if flags < 0 {
        None
    } else {
        Some(flags as u32 | nonblocking)
    }
}

/// The step after a run of answers that starts at `position`.
pub open spec fn write_run(position: usize, len: usize, replies: Seq<WriteReply>) -> WriteStep
    decreases replies.len(),
{
    if replies.len() == 0 {
        WriteStep::Write(position)
    } else {
        match write_step(position, len, replies[0]) {
            WriteStep::Write(next) => write_run(next, len, replies.drop_first()),
            WriteStep::WaitThenWrite(next) => write_run(next, len, replies.drop_first()),
            end => end,
        }
    }
}

/// Bytes that a run of answers took.
pub open spec fn bytes_taken(replies: Seq<WriteReply>) -> nat
    decreases replies.len(),
{
    if replies.len() == 0 {
        0
    } else {
        bytes_taken(replies.drop_first()) + match replies[0] {
            WriteReply::Wrote(n) => n as nat,
            _ => 0,
        }
    }
}

/// A write is reported done only once everything was taken, however often the
/// writer blocked or was interrupted in between.
pub proof fn law_done_means_all_written(position: usize, len: usize, replies: Seq<WriteReply>)
    requires
        position < len,
        write_run(position, len, replies) is Done,
    ensures
        position + bytes_taken(replies) >= len,
    decreases replies.len(),
{
    if replies.len() > 0 {
        match write_step(position, len, replies[0]) {
            WriteStep::Write(next) => {
                law_done_means_all_written(next, len, replies.drop_first());
            },
            WriteStep::WaitThenWrite(next) => {
                law_done_means_all_written(next, len, replies.drop_first());
            },
            _ => {},
        }
    }
}

/// A writer that only blocks or is interrupted is asked again for the same
/// bytes.
pub proof fn law_blocking_loses_nothing(position: usize, len: usize, replies: Seq<WriteReply>)
    requires
        forall|i: int|
            0 <= i < replies.len() ==> (#[trigger] replies[i] is WouldBlock
                || replies[i] is Interrupted),
    ensures
        write_run(position, len, replies) == WriteStep::Write(position),
    decreases replies.len(),
{
    if replies.len() > 0 {
        assert(replies[0] is WouldBlock || replies[0] is Interrupted);
        let rest = replies.drop_first();
        assert forall|i: int| 0 <= i < rest.len() implies (#[trigger] rest[i] is WouldBlock
            || rest[i] is Interrupted) by {
            assert(rest[i] == replies[i + 1]);
        }
        law_blocking_loses_nothing(position, len, rest);
    }
}

/// In raw mode the named flags are off, or on, and all others are as they were;
/// a read returns with the first byte.
pub proof fn law_raw_mode_switches_its_flags_only(original: TerminalFlags, masks: RawModeMasks)
    ensures
        ({
            let raw = raw_flags(original, masks);
            &&& raw.input & masks.input_off == 0
            &&& raw.input & !masks.input_off == original.input & !masks.input_off
            &&& raw.output & masks.output_off == 0
            &&& raw.output & !masks.output_off == original.output & !masks.output_off
            &&& raw.control & masks.control_on == masks.control_on
            &&& raw.control & !masks.control_on == original.control & !masks.control_on
            &&& raw.local & masks.local_off == 0
            &&& raw.local & !masks.local_off == original.local & !masks.local_off
            &&& raw.min_bytes == 1 && raw.read_timeout == 0
        }),
{
    law_cleared_flags(original.input, masks.input_off);
    law_cleared_flags(original.output, masks.output_off);
    law_set_flags(original.control, masks.control_on);
    law_cleared_flags(original.local, masks.local_off);
}

/// Stdin is ready by any of the three events, the socket by data alone; it hung
/// up by a hangup or a failure. Neither source has a say in the other.
pub proof fn law_events_become_readiness(stdin: u16, socket: u16, flags: PollFlags)
    ensures
        ({
            let found = readiness(stdin, socket, flags);
            &&& found.stdin_ready <==> stdin & flags.readable != 0 || stdin & flags.hangup != 0
                || stdin & flags.error != 0
            &&& found.socket_ready <==> socket & flags.readable != 0
            &&& found.socket_hangup <==> socket & flags.hangup != 0 || socket & flags.error != 0
        }),
{
    let a = flags.readable;
    let b = flags.hangup;
    let c = flags.error;
    assert(stdin & (a | b | c) != 0 <==> stdin & a != 0 || stdin & b != 0 || stdin & c != 0)
        by (bit_vector);
    assert(socket & (b | c) != 0 <==> socket & b != 0 || socket & c != 0) by (bit_vector);
}

/// A write goes on where the writer stopped taking bytes: behind what it took,
/// or at the same place after a wait or a signal.
pub proof fn law_write_goes_on_where_it_stopped(position: usize, len: usize, n: usize)
    requires
        position < len,
    ensures
        0 < n && position + n < len ==> write_step(position, len, WriteReply::Wrote(n))
            == WriteStep::Write((position + n) as usize),
        position + n >= len ==> write_step(position, len, WriteReply::Wrote(n)) is Done,
        write_step(position, len, WriteReply::Wrote(0)) is WriteZero,
        write_step(position, len, WriteReply::WouldBlock) == WriteStep::WaitThenWrite(position),
        write_step(position, len, WriteReply::Interrupted) == WriteStep::Write(position),
        write_step(position, len, WriteReply::Failed) is Fail,
{
}

} // verus!
