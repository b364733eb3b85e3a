//! The Windows console.
use vstd::prelude::*;

verus! {

/// Input is processed by the system.
pub const ENABLE_PROCESSED_INPUT: u32 = 0x0001;

/// Input is read by lines.
pub const ENABLE_LINE_INPUT: u32 = 0x0002;

/// Input is echoed.
pub const ENABLE_ECHO_INPUT: u32 = 0x0004;

/// Keys arrive as escape sequences.
pub const ENABLE_VIRTUAL_TERMINAL_INPUT: u32 = 0x0200;

/// Escape sequences in the output are obeyed.
pub const ENABLE_VIRTUAL_TERMINAL_PROCESSING: u32 = 0x0004;

/// A newline does not return to the first column.
pub const DISABLE_NEWLINE_AUTO_RETURN: u32 = 0x0008;

/// Kind of a console record that is a key.
pub const KEY_EVENT: u16 = 0x0001;

/// The socket has data to read.
pub const FD_READ: u32 = 0x0001;

/// The socket was closed.
pub const FD_CLOSE: u32 = 0x0020;

/// Seed the resize cache with the current terminal size.
///
/// The Windows console has no resize signal; a resize is detected by comparing
/// the current size against this cache in [`check_sigwinch`].
pub fn install_sigwinch_handler(cache: &mut Option<(u16, u16)>, current: Option<(u16, u16)>)
    ensures
        *final(cache) == current,
{
    *cache = current;
}

/// Return `true` if the terminal has been resized since the last check.
pub fn check_sigwinch(cache: &mut Option<(u16, u16)>, current: Option<(u16, u16)>) -> (r: bool)
    ensures
        r == (*old(cache) != current),
        *final(cache) == current,
{
    let unchanged = match (*cache, current) {
        (Some((a, b)), Some((c, d))) => a == c && b == d,
        (None, None) => true,
        _ => false,
    };
    if unchanged {
        false
    } else {
        *cache = current;
        true
    }
}

/// The input mode without lines, echo and processing, and with escape sequences.
pub open spec fn raw_input(original: u32) -> u32 {
    (original & !(ENABLE_LINE_INPUT | ENABLE_ECHO_INPUT | ENABLE_PROCESSED_INPUT))
        | ENABLE_VIRTUAL_TERMINAL_INPUT
}

/// The output mode with escape sequences.
pub open spec fn raw_output(original: u32) -> u32 {
    original | ENABLE_VIRTUAL_TERMINAL_PROCESSING | DISABLE_NEWLINE_AUTO_RETURN
}

/// Raw input: lines, echo and processing off, escape sequences on.
pub fn raw_input_mode(original: u32) -> (r: u32)
    ensures
        r == raw_input(original),
        r == (original & !(ENABLE_LINE_INPUT | ENABLE_ECHO_INPUT | ENABLE_PROCESSED_INPUT))
            | ENABLE_VIRTUAL_TERMINAL_INPUT,
{
    (original & !(ENABLE_LINE_INPUT | ENABLE_ECHO_INPUT | ENABLE_PROCESSED_INPUT))
        | ENABLE_VIRTUAL_TERMINAL_INPUT
}

/// Output that renders the guest's escape sequences.
pub fn raw_output_mode(original: u32) -> (r: u32)
    ensures
        r == raw_output(original),
        r == original | ENABLE_VIRTUAL_TERMINAL_PROCESSING | DISABLE_NEWLINE_AUTO_RETURN,
{
    original | ENABLE_VIRTUAL_TERMINAL_PROCESSING | DISABLE_NEWLINE_AUTO_RETURN
}

/// Extent of one side of a window; an inverted window has none.
pub open spec fn extent(low: i16, high: i16) -> u16 {
    if high - low + 1 < 0 {
        0
    } else {
        (high - low + 1) as u16
    }
}

/// Columns and rows of the console window. Its sides must not be longer than
/// the coordinates reach.
pub fn window_size(left: i16, top: i16, right: i16, bottom: i16) -> (r: (u16, u16))
    requires
        i16::MIN <= right - left,
        right - left + 1 <= i16::MAX,
        i16::MIN <= bottom - top,
        bottom - top + 1 <= i16::MAX,
    ensures
        r == (extent(left, right), extent(top, bottom)),
{
    let width: i16 = right - left + 1;
    let height: i16 = bottom - top + 1;
    let columns: u16 = if width < 0 {
        0
    } else {
        width as u16
    };
    let rows: u16 = if height < 0 {
        0
    } else {
        height as u16
    };
    (columns, rows)
}

/// The wait time in milliseconds; a negative one means forever.
pub fn wait_timeout(timeout_ms: i32) -> (r: u32)
    ensures
        r == (if timeout_ms < 0 {
            u32::MAX
        } else {
            timeout_ms as u32
        }),
{
    if timeout_ms < 0 {
        u32::MAX
    } else {
        timeout_ms as u32
    }
}

/// Poll result indicating which sources have data available.
#[derive(Debug, Clone, Copy, PartialEq, Eq, Structural)]
pub struct PollResult {
    /// True if the console has a key to read.
    pub stdin_ready: bool,
    /// True if the socket has data available to read.
    pub socket_ready: bool,
    /// True if the socket was closed.
    pub socket_hangup: bool,
}

/// What a wait found: whether a key is queued, where the console was waited on,
/// and the socket's events, where they could be read. The socket's events count
/// whichever handle ended the wait.
pub fn poll_io(key_queued: Option<bool>, socket_events: Option<u32>) -> (r: PollResult)
    ensures
        r.stdin_ready == (key_queued == Some(true)),
        r.socket_ready == (socket_events matches Some(events) && events & FD_READ != 0),
        r.socket_hangup == (socket_events matches Some(events) && events & FD_CLOSE != 0),
{
    let stdin_ready = match key_queued {
        Some(queued) => queued,
        None => false,
    };
    let (socket_ready, socket_hangup) = match socket_events {
        Some(events) => (events & FD_READ != 0, events & FD_CLOSE != 0),
        None => (false, false),
    };
    PollResult { stdin_ready, socket_ready, socket_hangup }
}

/// What the search for a key does next.
#[derive(Debug, Clone, Copy, PartialEq, Eq, Structural)]
pub enum KeySearch {
    /// Count the queued records.
    Count,
    /// Peek at the next record.
    Peek,
    /// Remove the next record.
    Remove,
    /// A key is queued; it stays queued for the reader.
    Found,
    /// No key is queued.
    Absent,
}

/// Answer of the console: `None` where the call failed or gave nothing.
#[derive(Debug, Clone, Copy, PartialEq, Eq, Structural)]
pub enum KeyAnswer {
    /// Number of queued records.
    Queued(Option<u32>),
    /// Kind of the next record.
    Next(Option<u16>),
    /// Whether the record was removed.
    Removed(bool),
}

/// What the search for a key does after an answer.
pub open spec fn next_search(answer: KeyAnswer) -> KeySearch {
    match answer {
        KeyAnswer::Queued(queued) => if queued matches Some(n) && n > 0 {
            KeySearch::Peek
        } else {
            KeySearch::Absent
        },
        KeyAnswer::Next(next) => match next {
            Some(kind) => if kind == KEY_EVENT {
                KeySearch::Found
            } else {
                KeySearch::Remove
            },
            None => KeySearch::Absent,
        },
        KeyAnswer::Removed(removed) => if removed {
            KeySearch::Count
        } else {
            KeySearch::Absent
        },
    }
}

/// Search for a key among the queued console records. Other records (focus,
/// mouse, resize) are removed so that a wait does not keep waking for them.
pub fn key_search_step(answer: KeyAnswer) -> (r: KeySearch)
    ensures
        r == next_search(answer),
        r == match answer {
            KeyAnswer::Queued(Some(n)) if n > 0 => KeySearch::Peek,
            KeyAnswer::Queued(_) => KeySearch::Absent,
            KeyAnswer::Next(Some(kind)) => if kind == KEY_EVENT {
                KeySearch::Found
            } else {
                KeySearch::Remove
            },
            KeyAnswer::Next(None) => KeySearch::Absent,
            KeyAnswer::Removed(true) => KeySearch::Count,
            KeyAnswer::Removed(false) => KeySearch::Absent,
        },
{
    match answer {
        KeyAnswer::Queued(Some(n)) => if n > 0 {
            KeySearch::Peek
        } else {
            KeySearch::Absent
        },
        KeyAnswer::Queued(None) => KeySearch::Absent,
        KeyAnswer::Next(Some(kind)) => if kind == KEY_EVENT {
            KeySearch::Found
        } else {
            KeySearch::Remove
        },
        KeyAnswer::Next(None) => KeySearch::Absent,
        KeyAnswer::Removed(removed) => if removed {
            KeySearch::Count
        } else {
            KeySearch::Absent
        },
    }
}

/// Raw input never leaves a cooked-mode flag set, and always asks for escape
/// sequences.
pub proof fn law_raw_input_is_raw(original: u32)
    ensures
        ({
            let raw = (original & !(ENABLE_LINE_INPUT | ENABLE_ECHO_INPUT
                | ENABLE_PROCESSED_INPUT)) | ENABLE_VIRTUAL_TERMINAL_INPUT;
            &&& raw & ENABLE_LINE_INPUT == 0
            &&& raw & ENABLE_ECHO_INPUT == 0
            &&& raw & ENABLE_PROCESSED_INPUT == 0
            &&& raw & ENABLE_VIRTUAL_TERMINAL_INPUT == ENABLE_VIRTUAL_TERMINAL_INPUT
        }),
{
    let raw = (original & !(0x2u32 | 0x4u32 | 0x1u32)) | 0x200u32;
    assert(((original & !(0x2u32 | 0x4u32 | 0x1u32)) | 0x200u32) & 0x2u32 == 0) by (bit_vector);
    assert(((original & !(0x2u32 | 0x4u32 | 0x1u32)) | 0x200u32) & 0x4u32 == 0) by (bit_vector);
    assert(((original & !(0x2u32 | 0x4u32 | 0x1u32)) | 0x200u32) & 0x1u32 == 0) by (bit_vector);
    assert(((original & !(0x2u32 | 0x4u32 | 0x1u32)) | 0x200u32) & 0x200u32 == 0x200u32)
        by (bit_vector);
}

/// Raw modes switch the named flags and leave every other as it was.
pub proof fn law_raw_modes_switch_their_flags_only(original: u32)
    ensures
        raw_input(original) & 0x7 == 0,
        raw_input(original) & 0x200 == 0x200,
        raw_input(original) & !0x207 == original & !0x207,
        raw_output(original) & 0xc == 0xc,
        raw_output(original) & !0xc == original & !0xc,
{
    let x = original;
    assert(((x & !(0x2u32 | 0x4u32 | 0x1u32)) | 0x200u32) & 0x7u32 == 0) by (bit_vector);
    assert(((x & !(0x2u32 | 0x4u32 | 0x1u32)) | 0x200u32) & 0x200u32 == 0x200u32) by (bit_vector);
    assert(((x & !(0x2u32 | 0x4u32 | 0x1u32)) | 0x200u32) & !0x207u32 == x & !0x207u32)
        by (bit_vector);
    assert((x | 0x4u32 | 0x8u32) & 0xcu32 == 0xcu32) by (bit_vector);
    assert((x | 0x4u32 | 0x8u32) & !0xcu32 == x & !0xcu32) by (bit_vector);
}

/// What a search among the queued records, given by their kinds, comes to, and
/// what is queued then, if every call succeeds.
pub open spec fn search_among(records: Seq<u16>) -> (KeySearch, Seq<u16>)
    decreases records.len(),
{
    match next_search(KeyAnswer::Queued(Some(records.len() as u32))) {
        KeySearch::Peek => match next_search(KeyAnswer::Next(Some(records[0]))) {
            KeySearch::Remove => match next_search(KeyAnswer::Removed(true)) {
                KeySearch::Count => if records.len() > 0 {
                    search_among(records.drop_first())
                } else {
                    (KeySearch::Count, records)
                },
                step => (step, records.drop_first()),
            },
            step => (step, records),
        },
        step => (step, records),
    }
}

/// A key is found exactly if one is queued. What was queued before it is removed,
/// and the key stays queued, with all that follows; without a key nothing stays.
pub proof fn law_search_stops_at_the_first_key(records: Seq<u16>, i: int)
    requires
        records.len() <= u32::MAX,
        0 <= i <= records.len(),
        forall|j: int| 0 <= j < i ==> #[trigger] records[j] != 1,
        i < records.len() ==> records[i] == 1,
    ensures
        search_among(records) == if i < records.len() {
            (KeySearch::Found, records.skip(i))
        } else {
            (KeySearch::Absent, Seq::empty())
        },
    decreases records.len(),
{
    if records.len() == 0 {
        assert(records =~= Seq::empty());
    } else if i == 0 {
        assert(records.skip(0) =~= records);
    } else {
        let rest = records.drop_first();
        assert(records[0] != 1);
        assert forall|j: int| 0 <= j < i - 1 implies #[trigger] rest[j] != 1 by {
            assert(rest[j] == records[j + 1]);
        }
        if i < records.len() {
            assert(rest[i - 1] == records[i]);
        }
        law_search_stops_at_the_first_key(rest, i - 1);
        if i < records.len() {
            assert(rest.skip(i - 1) =~= records.skip(i));
        }
    }
}

/// A window is as long as its two ends are apart, both counted; an inverted one
/// has no extent. (Windows longer than 32767 are left out.)
pub proof fn law_extent_counts_both_ends(low: i16, high: i16)
    requires
        high - low < 32767,
    ensures
        low <= high ==> extent(low, high) == high - low + 1,
        low > high ==> extent(low, high) == 0,
{
}

} // verus!
