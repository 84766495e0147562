//! What the device can say about itself after the fact: the log ring and the
//! last panic.
//!
//! Both records live in memory that survives a software reset but may hold
//! any bit pattern after one, so neither carries a type invariant: every
//! reader decides validity at read time, from a magic word, bounds on the
//! header and a checksum. A record that does not check out is discarded.

use vstd::prelude::*;

use vstd::string::StringSliceAdditionalSpecFns;

use crate::checksum::{checksum, crc32_iso_hdlc, le32, push_le32};

verus! {

/// Bytes of log the ring holds.
pub const RING_BYTES: usize = 4096;

/// Longest panic message the record keeps, in bytes.
pub const MAX_PANIC_TEXT_LEN: usize = 160;

/// Marks a ring this build wrote: `b"RTSL"` read little-endian.
pub const RING_MAGIC: u32 = 0x4C53_5452;

/// Marks a panic record this build wrote: `b"RTSP"` read little-endian.
pub const PANIC_MAGIC: u32 = 0x5053_5452;

/// The line terminator.
pub const NEWLINE: u8 = 10;

/// The log ring, as it sits in reset-surviving memory.
pub struct Ring {
    /// [`RING_MAGIC`] when this build wrote it.
    pub magic: u32,
    /// Index of the oldest byte in `bytes`.
    pub head: u32,
    /// Bytes in use, at most [`RING_BYTES`].
    pub len: u32,
    /// Complete lines held.
    pub lines: u32,
    /// Lines evicted to make room, since the ring was last empty.
    pub dropped: u32,
    /// CRC over the five words above (not over the text).
    pub crc: u32,
    /// The lines, each terminated by `\n`.
    pub bytes: [u8; RING_BYTES],
}

/// The last panic, as it sits in reset-surviving memory.
pub struct Panic {
    /// [`PANIC_MAGIC`] when this build wrote it.
    pub magic: u32,
    /// Uptime when the panic happened, in seconds.
    pub uptime_s: u32,
    /// Boots since.
    pub boots_since: u32,
    /// Bytes of `text` in use.
    pub len: u32,
    /// Non-zero when the message was longer than [`MAX_PANIC_TEXT_LEN`].
    pub truncated: u32,
    /// CRC over the five words above and over `text[..len]`.
    pub crc: u32,
    /// The message, as printable ASCII.
    pub text: [u8; MAX_PANIC_TEXT_LEN],
}

/// How full the ring is.
pub struct LogDto {
    pub capacity: u32,
    pub bytes: u32,
    pub lines: u32,
    pub dropped: u32,
}

/// The last panic, as the diagnostics screen shows it.
pub struct PanicDto {
    /// Printable ASCII, at most [`MAX_PANIC_TEXT_LEN`] bytes.
    pub text: Vec<u8>,
    pub truncated: bool,
    pub uptime_s: u32,
    pub boots_since: u32,
}

/// Why this board started.
#[derive(Clone, Copy, Debug, PartialEq, Eq, Structural)]
pub enum ResetReasonDto {
    PowerOn,
    Software,
    Watchdog,
    Brownout,
    Debugger,
    Other,
}

// ---------------------------------------------------------------------------
// The model
// ---------------------------------------------------------------------------

/// `len` bytes of `bytes`, starting at `head` and wrapping at the ring's end.
pub open spec fn window(bytes: Seq<u8>, head: int, len: int) -> Seq<u8> {
    Seq::new(len as nat, |i: int| bytes[(head + i) % (RING_BYTES as int)])
}

/// Whether the header's indices are inside the ring.
pub open spec fn header_sane(ring: Ring) -> bool {
    ring.head < RING_BYTES && ring.len <= RING_BYTES
}

/// The text the ring holds, oldest byte first.
pub open spec fn content(ring: Ring) -> Seq<u8> {
    window(ring.bytes@, ring.head as int, ring.len as int)
}

/// The bytes the ring's checksum covers.
pub open spec fn ring_header_bytes(ring: Ring) -> Seq<u8> {
    le32(ring.magic) + le32(ring.head) + le32(ring.len) + le32(ring.lines) + le32(ring.dropped)
}

/// The checksum the ring's header should carry.
pub open spec fn ring_crc_spec(ring: Ring) -> u32 {
    crc32_iso_hdlc(ring_header_bytes(ring))
}

/// Whether the ring's header checks out.
pub open spec fn ring_is_valid(ring: Ring) -> bool {
    &&& ring.magic == RING_MAGIC
    &&& header_sane(ring)
    &&& ring.crc == ring_crc_spec(ring)
}

/// Bytes up to and including the first newline, or all of them if there is
/// none: what dropping the oldest line removes.
pub open spec fn first_line_len(text: Seq<u8>) -> nat
    decreases text.len(),
{
    if text.len() == 0 {
        0
    } else if text[0] == NEWLINE {
        1
    } else {
        1 + first_line_len(text.drop_first())
    }
}

/// `value - 1`, stopping at zero.
pub open spec fn sat_dec(value: u32) -> u32 {
    if value == 0 { 0 } else { (value - 1) as u32 }
}

/// `value + 1`, stopping at `u32::MAX`.
pub open spec fn sat_inc(value: u32) -> u32 {
    if value == u32::MAX { u32::MAX } else { (value + 1) as u32 }
}

/// Whether the text is empty or ends with a complete line.
pub open spec fn ends_on_line(text: Seq<u8>) -> bool {
    text.len() == 0 || text.last() == NEWLINE
}

/// What the ring holds, as plain values: its text, its line count and its
/// eviction count.
pub type Held = (Seq<u8>, u32, u32);

/// What the ring holds after one more byte: appended when there is room, and
/// otherwise after the oldest line has been evicted whole.
pub open spec fn after_byte(held: Held, byte: u8) -> Held {
    if held.0.len() < RING_BYTES {
        (held.0.push(byte), held.1, held.2)
    } else {
        (held.0.skip(first_line_len(held.0) as int).push(byte), sat_dec(held.1), sat_inc(held.2))
    }
}

/// What the ring holds after `bytes`, one at a time.
pub open spec fn after_bytes(held: Held, bytes: Seq<u8>) -> Held
    decreases bytes.len(),
{
    if bytes.len() == 0 {
        held
    } else {
        after_byte(after_bytes(held, bytes.drop_last()), bytes.last())
    }
}

/// What a ring holds, as [`Held`].
pub open spec fn held_of(ring: Ring) -> Held {
    (content(ring), ring.lines, ring.dropped)
}

/// What a ring holds when a line starts: itself when it checks out, and
/// nothing otherwise.
pub open spec fn held_at_start(ring: Ring) -> Held {
    if ring_is_valid(ring) {
        held_of(ring)
    } else {
        (Seq::<u8>::empty(), 0u32, 0u32)
    }
}

/// What the ring holds after `line` and its newline have been recorded.
pub open spec fn after_line(held: Held, line: Seq<u8>) -> Held {
    let closed = after_byte(after_bytes(held, line), NEWLINE);
    (closed.0, sat_inc(closed.1), closed.2)
}

/// What the panic record keeps of one message byte: printable ASCII other than
/// the two characters JSON escapes, and `.` for everything else.
pub open spec fn sanitised(byte: u8) -> u8 {
    if byte == 0x22 || byte == 0x5C {
        0x2E
    } else if 0x20 <= byte && byte <= 0x7E {
        byte
    } else {
        0x2E
    }
}

/// Whether a byte is one the panic record can hold.
pub open spec fn is_plain(byte: u8) -> bool {
    0x20 <= byte && byte <= 0x7E && byte != 0x22 && byte != 0x5C
}

/// The bytes the panic record's checksum covers.
pub open spec fn panic_checked_bytes(panic: Panic) -> Seq<u8> {
    let kept = if panic.len <= MAX_PANIC_TEXT_LEN { panic.len as int } else {
        MAX_PANIC_TEXT_LEN as int
    };
    le32(panic.magic) + le32(panic.uptime_s) + le32(panic.boots_since) + le32(panic.len)
        + le32(panic.truncated) + panic.text@.subrange(0, kept)
}

/// The checksum the panic record should carry.
pub open spec fn panic_crc_spec(panic: Panic) -> u32 {
    crc32_iso_hdlc(panic_checked_bytes(panic))
}

/// Whether the panic record checks out.
pub open spec fn panic_is_valid(panic: Panic) -> bool {
    &&& panic.magic == PANIC_MAGIC
    &&& panic.len <= MAX_PANIC_TEXT_LEN
    &&& panic.crc == panic_crc_spec(panic)
}

/// The message bytes a panic record keeps: sanitised, and cut at the capacity.
pub open spec fn kept_message(message: Seq<u8>) -> Seq<u8> {
    let kept = if message.len() <= MAX_PANIC_TEXT_LEN { message.len() as int } else {
        MAX_PANIC_TEXT_LEN as int
    };
    Seq::new(kept as nat, |i: int| sanitised(message[i]))
}

/// The panic record keeps a message as it was wherever it can: every byte
/// that is printable ASCII other than `"` and `\` is kept unchanged at its
/// position, and only the rest becomes `.`. Nothing past the capacity is
/// kept, and everything up to it is.
pub proof fn law_printable_bytes_kept(message: Seq<u8>, i: int)
    ensures
        kept_message(message).len() == (if message.len() <= MAX_PANIC_TEXT_LEN {
            message.len() as int
        } else {
            MAX_PANIC_TEXT_LEN as int
        }),
        0 <= i < kept_message(message).len() && 0x20 <= message[i] <= 0x7E && message[i] != 0x22
            && message[i] != 0x5C ==> kept_message(message)[i] == message[i],
        0 <= i < kept_message(message).len() && !(0x20 <= message[i] <= 0x7E && message[i] != 0x22
            && message[i] != 0x5C) ==> kept_message(message)[i] == 0x2E,
{
}

// ---------------------------------------------------------------------------
// Lemmas about the window
// ---------------------------------------------------------------------------

proof fn lemma_window_drop_first(bytes: Seq<u8>, head: int, len: int)
    requires
        0 <= head < RING_BYTES,
        0 < len <= RING_BYTES,
        bytes.len() == RING_BYTES,
    ensures
        window(bytes, head, len).drop_first() =~= window(
            bytes,
            (head + 1) % (RING_BYTES as int),
            len - 1,
        ),
{
    assert forall|i: int| 0 <= i < len - 1 implies #[trigger] window(bytes, head, len)[i + 1] == window(
        bytes,
        (head + 1) % (RING_BYTES as int),
        len - 1,
    )[i] by {
        assert(((head + 1) % 4096 + i) % 4096 == (head + 1 + i) % 4096);
    }
}

proof fn lemma_window_push(bytes: Seq<u8>, head: int, len: int, byte: u8)
    requires
        0 <= head < RING_BYTES,
        0 <= len < RING_BYTES,
        bytes.len() == RING_BYTES,
    ensures
        window(bytes.update((head + len) % (RING_BYTES as int), byte), head, len + 1) =~= window(
            bytes,
            head,
            len,
        ).push(byte),
{
    let at = (head + len) % 4096;
    let updated = bytes.update(at, byte);
    assert forall|i: int| 0 <= i < len implies #[trigger] updated[(head + i) % 4096] == bytes[(head + i) % 4096] by {
        if head + len < 4096 {
        } else if head + i < 4096 {
        } else {
        }
    }
}

proof fn lemma_first_line_len_bounds(text: Seq<u8>)
    ensures
        first_line_len(text) <= text.len(),
        text.len() > 0 ==> first_line_len(text) >= 1,
    decreases text.len(),
{
    if text.len() > 0 && text[0] != NEWLINE {
        lemma_first_line_len_bounds(text.drop_first());
    }
}

/// After the first line is gone, what is left starts a line: every byte
/// before the cut was part of that first line, and the cut is either the end
/// of the text or just after a newline.
proof fn lemma_first_line_cut(text: Seq<u8>)
    ensures
        first_line_len(text) == text.len() || text[first_line_len(text) - 1] == NEWLINE,
        forall|i: int| 0 <= i < first_line_len(text) - 1 ==> text[i] != NEWLINE,
    decreases text.len(),
{
    lemma_first_line_len_bounds(text);
    if text.len() > 0 && text[0] != NEWLINE {
        let rest = text.drop_first();
        lemma_first_line_cut(rest);
        lemma_first_line_len_bounds(rest);
        if first_line_len(rest) < rest.len() {
            assert(text[first_line_len(text) - 1] == rest[first_line_len(rest) - 1]);
        }
        assert forall|i: int| 0 <= i < first_line_len(text) - 1 implies text[i] != NEWLINE by {
            if i > 0 {
                assert(text[i] == rest[i - 1]);
            }
        }
    }
}

/// If the text ends with a newline, its first line ends inside it.
proof fn lemma_first_line_within(prior: Seq<u8>, partial: Seq<u8>)
    requires
        prior.len() > 0,
        prior.last() == NEWLINE,
    ensures
        first_line_len(prior + partial) == first_line_len(prior),
        first_line_len(prior) <= prior.len(),
    decreases prior.len(),
{
    lemma_first_line_len_bounds(prior);
    if prior[0] != NEWLINE {
        let rest = prior.drop_first();
        assert((prior + partial).drop_first() =~= rest + partial);
        lemma_first_line_within(rest, partial);
    }
}


/// Evicting the oldest line from a ring whose older part ends with a
/// newline removes only older lines, and never the line being written.
proof fn lemma_evict_spares_line(prior: Seq<u8>, cut: int, written: Seq<u8>)
    requires
        ends_on_line(prior),
        0 <= cut <= prior.len(),
        cut == 0 || prior[cut - 1] == NEWLINE,
        prior.skip(cut).len() > 0,
    ensures
        ({
            let dropped = first_line_len(prior.skip(cut) + written) as int;
            &&& 1 <= dropped
            &&& cut + dropped <= prior.len()
            &&& prior[cut + dropped - 1] == NEWLINE
            &&& (prior.skip(cut) + written).skip(dropped) =~= prior.skip(cut + dropped) + written
        }),
{
    let rest = prior.skip(cut);
    assert(rest.last() == prior.last());
    lemma_first_line_within(rest, written);
    lemma_first_line_cut(rest);
    lemma_first_line_len_bounds(rest);
    let dropped = first_line_len(rest) as int;
    assert((rest + written).skip(dropped) =~= rest.skip(dropped) + written);
    assert(rest.skip(dropped) =~= prior.skip(cut + dropped));
    assert(prior[cut + dropped - 1] == rest[dropped - 1]);
}

// ---------------------------------------------------------------------------
// Reading and writing the ring
// ---------------------------------------------------------------------------

/// The bytes of the ring's header, in the order the checksum covers them.
fn ring_header(ring: &Ring) -> (out: Vec<u8>)
    ensures
        out@ == ring_header_bytes(*ring),
{
    let mut out: Vec<u8> = Vec::new();
    push_le32(&mut out, ring.magic);
    push_le32(&mut out, ring.head);
    push_le32(&mut out, ring.len);
    push_le32(&mut out, ring.lines);
    push_le32(&mut out, ring.dropped);
    assert(out@ =~= ring_header_bytes(*ring));
    out
}

/// The checksum the ring's header should carry.
pub fn ring_crc(ring: &Ring) -> (crc: u32)
    ensures
        crc == ring_crc_spec(*ring),
{
    let header = ring_header(ring);
    checksum(header.as_slice())
}

/// Whether the ring's header checks out.
pub fn ring_valid(ring: &Ring) -> (valid: bool)
    ensures
        valid == ring_is_valid(*ring),
{
    if ring.magic != RING_MAGIC {
        return false;
    }
    if ring.head as usize >= RING_BYTES || ring.len as usize > RING_BYTES {
        return false;
    }
    ring.crc == ring_crc(ring)
}

/// Start again with an empty ring.
pub fn ring_reset(ring: &mut Ring)
    ensures
        ring_is_valid(*final(ring)),
        content(*final(ring)) == Seq::<u8>::empty(),
        final(ring).lines == 0,
        final(ring).dropped == 0,
        final(ring).bytes == old(ring).bytes,
{
    ring.magic = RING_MAGIC;
    ring.head = 0;
    ring.len = 0;
    ring.lines = 0;
    ring.dropped = 0;
    ring.crc = ring_crc(ring);
    assert(content(*ring) =~= Seq::<u8>::empty());
}

/// Drop the oldest line, whole: every byte up to and including the first
/// newline, or everything when there is none.
///
/// The checksum is not brought up to date here; [`record_finish`] does that
/// once per line.
pub fn drop_oldest_line(ring: &mut Ring)
    requires
        header_sane(*old(ring)),
    ensures
        header_sane(*final(ring)),
        content(*final(ring)) == content(*old(ring)).skip(
            first_line_len(content(*old(ring))) as int,
        ),
        final(ring).head == (old(ring).head + first_line_len(content(*old(ring)))) % (RING_BYTES as int),
        final(ring).len == old(ring).len - first_line_len(content(*old(ring))),
        final(ring).lines == sat_dec(old(ring).lines),
        final(ring).dropped == sat_inc(old(ring).dropped),
        final(ring).magic == old(ring).magic,
        final(ring).crc == old(ring).crc,
        final(ring).bytes == old(ring).bytes,
{
    let ghost held_text = content(*ring);
    let mut head = ring.head as usize;
    let mut len = ring.len as usize;
    proof {
        assert(held_text.skip(0) =~= held_text);
    }
    while len > 0
        invariant_except_break
            head < RING_BYTES,
            len <= ring.len,
            ring.len <= RING_BYTES,
            held_text.len() == ring.len,
            ring.bytes@.len() == RING_BYTES,
            window(ring.bytes@, head as int, len as int) == held_text.skip(
                ring.len - len,
            ),
            first_line_len(held_text) == (ring.len - len) + first_line_len(
                window(ring.bytes@, head as int, len as int),
            ),
            head == (ring.head + (ring.len - len)) % (RING_BYTES as int),
        ensures
            head < RING_BYTES,
            len <= ring.len,
            head == (ring.head + (ring.len - len)) % (RING_BYTES as int),
            window(ring.bytes@, head as int, len as int) == held_text.skip(
                first_line_len(held_text) as int,
            ),
        decreases len,
    {
        let ghost before = window(ring.bytes@, head as int, len as int);
        let byte = ring.bytes[head];
        proof {
            lemma_window_drop_first(ring.bytes@, head as int, len as int);
            assert(before[0] == byte);
            assert(held_text.skip(ring.len - len).drop_first() =~= held_text.skip(
                ring.len - len + 1,
            ));
        }
        head = (head + 1) % RING_BYTES;
        len -= 1;
        if byte == NEWLINE {
            break;
        }
    }
    proof {
        if len == 0 {
            assert(window(ring.bytes@, head as int, 0) =~= Seq::<u8>::empty());
        }
        lemma_first_line_len_bounds(held_text);
        assert(len == ring.len - first_line_len(held_text));
    }
    ring.head = head as u32;
    ring.len = len as u32;
    ring.lines = ring.lines.saturating_sub(1);
    ring.dropped = ring.dropped.saturating_add(1);
}

/// Append one byte, evicting whole lines until it fits.
pub fn push_byte(ring: &mut Ring, byte: u8)
    requires
        header_sane(*old(ring)),
    ensures
        header_sane(*final(ring)),
        final(ring).len >= 1,
        old(ring).len < RING_BYTES ==> {
            &&& content(*final(ring)) == content(*old(ring)).push(byte)
            &&& final(ring).lines == old(ring).lines
            &&& final(ring).dropped == old(ring).dropped
        },
        old(ring).len >= RING_BYTES ==> {
            &&& content(*final(ring)) == content(*old(ring)).skip(
                first_line_len(content(*old(ring))) as int,
            ).push(byte)
            &&& final(ring).lines == sat_dec(old(ring).lines)
            &&& final(ring).dropped == sat_inc(old(ring).dropped)
        },
        final(ring).magic == old(ring).magic,
        final(ring).crc == old(ring).crc,
{
    if ring.len as usize >= RING_BYTES {
        proof {
            lemma_first_line_len_bounds(content(*ring));
        }
        drop_oldest_line(ring);
        assert(content(*ring).len() == ring.len);
    }
    let head = ring.head as usize;
    let len = ring.len as usize;
    let at = (head + len) % RING_BYTES;
    proof {
        lemma_window_push(ring.bytes@, head as int, len as int, byte);
    }
    ring.bytes[at] = byte;
    ring.len = (len + 1) as u32;
}

/// Write one fragment of a line into the ring, byte by byte, evicting older
/// lines as needed. It cannot fail: a line that will not fit evicts older
/// ones, which is what a ring is for.
pub fn write_str(ring: &mut Ring, text: &str)
    requires
        header_sane(*old(ring)),
    ensures
        header_sane(*final(ring)),
        final(ring).magic == old(ring).magic,
        final(ring).crc == old(ring).crc,
        held_of(*final(ring)) == after_bytes(held_of(*old(ring)), text.spec_bytes()),
        old(ring).len + text.spec_bytes().len() <= RING_BYTES ==> {
            &&& content(*final(ring)) == content(*old(ring)) + text.spec_bytes()
            &&& final(ring).lines == old(ring).lines
            &&& final(ring).dropped == old(ring).dropped
        },
{
    let bytes = text.as_bytes();
    let ghost prior = content(*ring);
    let ghost roomy = old(ring).len + bytes@.len() <= RING_BYTES;
    let mut index: usize = 0;
    while index < bytes.len()
        invariant
            header_sane(*ring),
            ring.magic == old(ring).magic,
            ring.crc == old(ring).crc,
            index <= bytes@.len(),
            bytes@ == text.spec_bytes(),
            prior == content(*old(ring)),
            roomy == (old(ring).len + bytes@.len() <= RING_BYTES),
            held_of(*ring) == after_bytes(held_of(*old(ring)), bytes@.subrange(0, index as int)),
            roomy ==> content(*ring) == prior + bytes@.subrange(0, index as int),
            roomy ==> ring.len == old(ring).len + index,
            roomy ==> ring.lines == old(ring).lines,
            roomy ==> ring.dropped == old(ring).dropped,
        decreases bytes.len() - index,
    {
        let ghost before = held_of(*ring);
        push_byte(ring, bytes[index]);
        proof {
            if roomy {
                assert(before.0.len() == old(ring).len + index);
                assert(bytes@.subrange(0, index + 1) =~= bytes@.subrange(0, index as int).push(bytes@[index as int]));
                assert(content(*ring) =~= prior + bytes@.subrange(0, index + 1));
                assert(content(*ring).len() == ring.len);
            }
            let next = bytes@.subrange(0, index + 1);
            assert(next.drop_last() =~= bytes@.subrange(0, index as int));
            assert(next.last() == bytes@[index as int]);
            assert(held_of(*ring) == after_byte(before, bytes@[index as int]));
        }
        index += 1;
    }
    assert(bytes@.subrange(0, bytes@.len() as int) =~= bytes@);
}

/// Make the ring usable for a new line: a ring whose header does not check
/// out is started again, empty.
pub fn record_start(ring: &mut Ring)
    ensures
        ring_is_valid(*final(ring)),
        ring_is_valid(*old(ring)) ==> *final(ring) == *old(ring),
        !ring_is_valid(*old(ring)) ==> {
            &&& content(*final(ring)) == Seq::<u8>::empty()
            &&& final(ring).lines == 0
            &&& final(ring).dropped == 0
        },
{
    if !ring_valid(ring) {
        ring_reset(ring);
    }
}

/// Close the line being written: its newline, the line count, the checksum.
pub fn record_finish(ring: &mut Ring)
    requires
        header_sane(*old(ring)),
        old(ring).magic == RING_MAGIC,
    ensures
        ring_is_valid(*final(ring)),
        old(ring).len < RING_BYTES ==> {
            &&& content(*final(ring)) == content(*old(ring)).push(NEWLINE)
            &&& final(ring).lines == sat_inc(old(ring).lines)
            &&& final(ring).dropped == old(ring).dropped
        },
        old(ring).len >= RING_BYTES ==> {
            &&& content(*final(ring)) == content(*old(ring)).skip(
                first_line_len(content(*old(ring))) as int,
            ).push(NEWLINE)
            &&& final(ring).lines == sat_inc(sat_dec(old(ring).lines))
            &&& final(ring).dropped == sat_inc(old(ring).dropped)
        },
{
    push_byte(ring, NEWLINE);
    ring.lines = ring.lines.saturating_add(1);
    ring.crc = ring_crc(ring);
}

/// Put one line in the ring.
///
/// When the ring held whole lines and the line is shorter than the ring, the
/// ring afterwards holds a suffix of what it held that starts on a line
/// boundary, followed by this line and its newline — older lines are evicted
/// whole, never in part, and this line is never cut.
pub fn record(ring: &mut Ring, line: &str)
    ensures
        ring_is_valid(*final(ring)),
        ring_is_valid(*old(ring)) && ends_on_line(content(*old(ring)))
            && line.spec_bytes().len() < RING_BYTES ==> {
            exists|cut: int|
                0 <= cut <= content(*old(ring)).len() && (cut == 0 || content(
                    *old(ring),
                )[cut - 1] == NEWLINE) && content(*final(ring)) == content(*old(ring)).skip(
                    cut,
                ) + line.spec_bytes().push(NEWLINE)
        },
        !ring_is_valid(*old(ring)) && line.spec_bytes().len() < RING_BYTES ==> content(
            *final(ring),
        ) == line.spec_bytes().push(NEWLINE),
        held_of(*final(ring)) == after_line(held_at_start(*old(ring)), line.spec_bytes()),
{
    record_start(ring);
    let bytes = line.as_bytes();
    let ghost prior = content(*ring);
    let ghost start = held_at_start(*old(ring));
    proof {
        assert(held_of(*ring) == start);
        assert(bytes@.subrange(0, 0) =~= Seq::<u8>::empty());
    }
    let ghost fits = ends_on_line(prior) && bytes@.len() < RING_BYTES;
    let ghost mut cut: int = 0;
    let mut index: usize = 0;
    while index < bytes.len()
        invariant
            header_sane(*ring),
            ring.magic == RING_MAGIC,
            index <= bytes@.len(),
            fits == (ends_on_line(prior) && bytes@.len() < RING_BYTES),
            start == held_at_start(*old(ring)),
            bytes@ == line.spec_bytes(),
            held_of(*ring) == after_bytes(start, bytes@.subrange(0, index as int)),
            fits ==> {
                &&& 0 <= cut <= prior.len()
                &&& (cut == 0 || prior[cut - 1] == NEWLINE)
                &&& content(*ring) == prior.skip(cut) + bytes@.subrange(0, index as int)
            },
        decreases bytes.len() - index,
    {
        let ghost before = content(*ring);
        let ghost held_before = held_of(*ring);
        push_byte(ring, bytes[index as usize]);
        proof {
            let next = bytes@.subrange(0, index + 1);
            assert(next.drop_last() =~= bytes@.subrange(0, index as int));
            assert(next.last() == bytes@[index as int]);
            assert(held_of(*ring) == after_byte(held_before, bytes@[index as int]));
            if fits {
                let written = bytes@.subrange(0, index as int);
                let rest = prior.skip(cut);
                if before.len() >= RING_BYTES {
                    // The ring is full and this line is shorter than it, so
                    // what was there before the line is not empty, and it ends
                    // with a newline: the eviction stays inside it.
                    assert(before =~= rest + written);
                    assert(rest.len() > 0);
                    lemma_evict_spares_line(prior, cut, written);
                    cut = cut + first_line_len(before) as int;
                }
                assert(bytes@.subrange(0, index + 1) =~= written.push(bytes@[index as int]));
                assert(content(*ring) =~= prior.skip(cut) + bytes@.subrange(
                    0,
                    index + 1,
                ));
            }
        }
        index += 1;
    }
    let ghost before = content(*ring);
    let ghost held_before = held_of(*ring);
    record_finish(ring);
    proof {
        assert(bytes@.subrange(0, bytes@.len() as int) =~= bytes@);
        assert(held_before == after_bytes(start, bytes@));
        assert(held_of(*ring) == after_line(start, bytes@));
        if fits {
            let rest = prior.skip(cut);
            if before.len() >= RING_BYTES {
                assert(before =~= rest + bytes@);
                assert(rest.len() > 0);
                lemma_evict_spares_line(prior, cut, bytes@);
                cut = cut + first_line_len(before) as int;
            }
            assert(content(*ring) =~= prior.skip(cut) + bytes@.push(NEWLINE));
        }
    }
}

/// How full the ring is. A ring that does not check out reads as empty.
pub fn log_stats(ring: &Ring) -> (stats: LogDto)
    ensures
        stats.capacity == RING_BYTES,
        ring_is_valid(*ring) ==> {
            &&& stats.bytes == ring.len
            &&& stats.lines == ring.lines
            &&& stats.dropped == ring.dropped
        },
        !ring_is_valid(*ring) ==> stats.bytes == 0 && stats.lines == 0 && stats.dropped == 0,
{
    if !ring_valid(ring) {
        return LogDto { capacity: RING_BYTES as u32, bytes: 0, lines: 0, dropped: 0 };
    }
    LogDto { capacity: RING_BYTES as u32, bytes: ring.len, lines: ring.lines, dropped: ring.dropped }
}

/// Copy up to `out.len()` bytes of the log, starting `from` bytes in. Returns
/// how many were copied; zero means the end.
pub fn log_read(ring: &Ring, from: usize, out: &mut [u8]) -> (copied: usize)
    ensures
        final(out)@.len() == old(out)@.len(),
        !ring_is_valid(*ring) ==> copied == 0,
        ring_is_valid(*ring) ==> {
            &&& copied == if from >= ring.len {
                0
            } else if ring.len - from < old(out)@.len() {
                (ring.len - from) as int
            } else {
                old(out)@.len() as int
            }
            &&& copied > 0 ==> final(out)@.subrange(0, copied as int) == content(*ring).subrange(
                from as int,
                from + copied,
            )
        },
        final(out)@.subrange(copied as int, old(out)@.len() as int) == old(out)@.subrange(
            copied as int,
            old(out)@.len() as int,
        ),
{
    if !ring_valid(ring) {
        return 0;
    }
    let head = ring.head as usize;
    let len = ring.len as usize;
    let available = len.saturating_sub(from);
    let take = if available < out.len() { available } else { out.len() };
    let mut index: usize = 0;
    while index < take
        invariant
            index <= take,
            take <= out@.len(),
            take == 0 || from + take <= len,
            head < RING_BYTES,
            head == ring.head,
            len == ring.len,
            header_sane(*ring),
            out@.len() == old(out)@.len(),
            forall|i: int| 0 <= i < index ==> out@[i] == content(*ring)[from + i],
            forall|i: int| index <= i < out@.len() ==> out@[i] == old(out)@[i],
        decreases take - index,
    {
        let at = (head + from + index) % RING_BYTES;
        out[index] = ring.bytes[at];
        index += 1;
    }
    proof {
        if take > 0 {
            assert(out@.subrange(0, take as int) =~= content(*ring).subrange(
                from as int,
                from + take,
            ));
        }
        assert(out@.subrange(take as int, out@.len() as int) =~= old(out)@.subrange(
            take as int,
            old(out)@.len() as int,
        ));
    }
    take
}


// ---------------------------------------------------------------------------
// The panic record
// ---------------------------------------------------------------------------

/// One message byte as the panic record keeps it. See [`sanitised`].
fn sanitise(byte: u8) -> (plain: u8)
    ensures
        plain == sanitised(byte),
        is_plain(plain),
{
    if byte == 0x22 || byte == 0x5C {
        0x2E
    } else if 0x20 <= byte && byte <= 0x7E {
        byte
    } else {
        0x2E
    }
}

/// Append `text` to the record's text from `at`, as characters JSON does not
/// lengthen, stopping at the capacity. Returns the new length.
pub fn push_sanitised(panic: &mut Panic, at: usize, text: &str) -> (next: usize)
    ensures
        next == if at >= MAX_PANIC_TEXT_LEN {
            at as int
        } else if at + text.spec_bytes().len() <= MAX_PANIC_TEXT_LEN {
            at + text.spec_bytes().len()
        } else {
            MAX_PANIC_TEXT_LEN as int
        },
        forall|i: int|
            at <= i < next ==> #[trigger] final(panic).text@[i] == sanitised(
                text.spec_bytes()[i - at],
            ),
        forall|i: int|
            0 <= i < MAX_PANIC_TEXT_LEN && !(at <= i < next) ==> #[trigger] final(panic).text@[i]
                == old(panic).text@[i],
        final(panic).magic == old(panic).magic,
        final(panic).uptime_s == old(panic).uptime_s,
        final(panic).boots_since == old(panic).boots_since,
        final(panic).len == old(panic).len,
        final(panic).truncated == old(panic).truncated,
        final(panic).crc == old(panic).crc,
{
    let bytes = text.as_bytes();
    let mut next = at;
    let mut index: usize = 0;
    while index < bytes.len()
        invariant
            at < MAX_PANIC_TEXT_LEN ==> next <= MAX_PANIC_TEXT_LEN,
            at >= MAX_PANIC_TEXT_LEN ==> index == 0,
            next == at + index,
            index <= bytes@.len(),
            forall|i: int| at <= i < next ==> #[trigger] panic.text@[i] == sanitised(bytes@[i - at]),
            forall|i: int|
                0 <= i < MAX_PANIC_TEXT_LEN && !(at <= i < next) ==> #[trigger] panic.text@[i]
                    == old(panic).text@[i],
            panic.magic == old(panic).magic,
            panic.uptime_s == old(panic).uptime_s,
            panic.boots_since == old(panic).boots_since,
            panic.len == old(panic).len,
            panic.truncated == old(panic).truncated,
            panic.crc == old(panic).crc,
        ensures
            next == if at >= MAX_PANIC_TEXT_LEN {
                at as int
            } else if at + bytes@.len() <= MAX_PANIC_TEXT_LEN {
                at + bytes@.len()
            } else {
                MAX_PANIC_TEXT_LEN as int
            },
        decreases bytes.len() - index,
    {
        if next >= MAX_PANIC_TEXT_LEN {
            break;
        }
        panic.text[next] = sanitise(bytes[index]);
        next += 1;
        index += 1;
    }
    next
}

/// Formats a panic message into the record, sanitising and truncating.
pub struct PanicWriter {
    /// Bytes of the record's text written so far.
    pub at: usize,
    /// Whether any part of the message did not fit.
    pub overflowed: bool,
}

impl PanicWriter {
    /// A writer at the start of the record's text.
    pub fn new() -> (writer: PanicWriter)
        ensures
            writer.at == 0,
            !writer.overflowed,
    {
        PanicWriter { at: 0, overflowed: false }
    }

    /// Take one fragment of the message. Fewer bytes taken than offered —
    /// including none at all — means the record is full and the rest is gone.
    pub fn write_str(&mut self, panic: &mut Panic, text: &str)
        requires
            old(self).at <= MAX_PANIC_TEXT_LEN,
        ensures
            final(self).at <= MAX_PANIC_TEXT_LEN,
            final(self).at == if old(self).at + text.spec_bytes().len() <= MAX_PANIC_TEXT_LEN {
                old(self).at + text.spec_bytes().len()
            } else {
                MAX_PANIC_TEXT_LEN as int
            },
            final(self).overflowed == (old(self).overflowed || old(self).at
                + text.spec_bytes().len() > MAX_PANIC_TEXT_LEN),
            forall|i: int|
                old(self).at <= i < final(self).at ==> #[trigger] final(panic).text@[i]
                    == sanitised(text.spec_bytes()[i - old(self).at]),
            forall|i: int|
                0 <= i < old(self).at ==> #[trigger] final(panic).text@[i] == old(panic).text@[i],
    {
        let next = push_sanitised(panic, self.at, text);
        let offered = text.as_bytes().len();
        self.overflowed = self.overflowed || next - self.at < offered;
        self.at = next;
    }
}

/// The bytes of the panic record that its checksum covers.
fn panic_checked(panic: &Panic) -> (out: Vec<u8>)
    ensures
        out@ == panic_checked_bytes(*panic),
{
    let mut out: Vec<u8> = Vec::new();
    push_le32(&mut out, panic.magic);
    push_le32(&mut out, panic.uptime_s);
    push_le32(&mut out, panic.boots_since);
    push_le32(&mut out, panic.len);
    push_le32(&mut out, panic.truncated);
    let ghost header = out@;
    let kept = if (panic.len as usize) < MAX_PANIC_TEXT_LEN {
        panic.len as usize
    } else {
        MAX_PANIC_TEXT_LEN
    };
    let mut index: usize = 0;
    while index < kept
        invariant
            index <= kept,
            kept <= MAX_PANIC_TEXT_LEN,
            out@ == header + panic.text@.subrange(0, index as int),
        decreases kept - index,
    {
        out.push(panic.text[index]);
        index += 1;
        assert(out@ =~= header + panic.text@.subrange(0, index as int));
    }
    assert(out@ =~= panic_checked_bytes(*panic));
    out
}

/// The checksum the panic record should carry.
pub fn panic_crc(panic: &Panic) -> (crc: u32)
    ensures
        crc == panic_crc_spec(*panic),
{
    let bytes = panic_checked(panic);
    checksum(bytes.as_slice())
}

/// Seal a message the writer has put into the record: the header and the
/// checksum, with the boot count at zero.
pub fn seal_panic(panic: &mut Panic, writer: &PanicWriter, uptime_s: u32)
    requires
        writer.at <= MAX_PANIC_TEXT_LEN,
    ensures
        panic_is_valid(*final(panic)),
        final(panic).uptime_s == uptime_s,
        final(panic).boots_since == 0,
        final(panic).len == writer.at,
        final(panic).truncated == (if writer.overflowed { 1u32 } else { 0u32 }),
        final(panic).text == old(panic).text,
{
    panic.magic = PANIC_MAGIC;
    panic.uptime_s = uptime_s;
    panic.boots_since = 0;
    panic.len = writer.at as u32;
    panic.truncated = if writer.overflowed { 1 } else { 0 };
    panic.crc = panic_crc(panic);
}

/// Keep what a panic said, so the next boot can report it.
pub fn record_panic(panic: &mut Panic, message: &str, uptime_s: u32)
    ensures
        panic_is_valid(*final(panic)),
        final(panic).text@.subrange(0, final(panic).len as int) == kept_message(
            message.spec_bytes(),
        ),
        final(panic).uptime_s == uptime_s,
        final(panic).boots_since == 0,
        final(panic).truncated == (if message.spec_bytes().len() > MAX_PANIC_TEXT_LEN {
            1u32
        } else {
            0u32
        }),
{
    let mut writer = PanicWriter::new();
    writer.write_str(panic, message);
    seal_panic(panic, &writer, uptime_s);
    assert(panic.text@.subrange(0, panic.len as int) =~= kept_message(message.spec_bytes()));
}

/// The last panic, if there is one that checks out.
pub fn last_panic(panic: &Panic) -> (found: Option<PanicDto>)
    ensures
        found is Some <==> panic_is_valid(*panic),
        found matches Some(dto) ==> {
            &&& dto.text@ == panic.text@.subrange(0, panic.len as int)
            &&& dto.truncated == (panic.truncated != 0)
            &&& dto.uptime_s == panic.uptime_s
            &&& dto.boots_since == panic.boots_since
        },
{
    if panic.magic != PANIC_MAGIC {
        return None;
    }
    let len = panic.len as usize;
    if len > MAX_PANIC_TEXT_LEN {
        return None;
    }
    if panic.crc != panic_crc(panic) {
        return None;
    }
    let mut text: Vec<u8> = Vec::new();
    let mut index: usize = 0;
    while index < len
        invariant
            index <= len,
            len <= MAX_PANIC_TEXT_LEN,
            text@ == panic.text@.subrange(0, index as int),
        decreases len - index,
    {
        text.push(panic.text[index]);
        index += 1;
        assert(text@ =~= panic.text@.subrange(0, index as int));
    }
    Some(
        PanicDto {
            text,
            truncated: panic.truncated != 0,
            uptime_s: panic.uptime_s,
            boots_since: panic.boots_since,
        },
    )
}

/// Forget the last panic and empty the log: both are what this device
/// remembers about its own past, and they are dismissed together.
pub fn forget(panic: &mut Panic, ring: &mut Ring)
    ensures
        !panic_is_valid(*final(panic)),
        ring_is_valid(*final(ring)),
        content(*final(ring)) == Seq::<u8>::empty(),
        final(ring).lines == 0,
        final(ring).dropped == 0,
{
    panic.magic = 0;
    ring_reset(ring);
}

/// Whether the panic record checks out.
fn panic_valid(panic: &Panic) -> (valid: bool)
    ensures
        valid == panic_is_valid(*panic),
{
    panic.magic == PANIC_MAGIC && panic.len as usize <= MAX_PANIC_TEXT_LEN && panic.crc == panic_crc(panic)
}

/// Note that a boot has happened. A panic record that checks out ages by one
/// boot and is sealed again; one that does not is discarded, so that it can
/// never be shown. Returns whether the log carries lines from before this
/// boot, which is when a separator line belongs in it.
pub fn boot(panic: &mut Panic, ring: &Ring) -> (carried: bool)
    ensures
        carried == (ring_is_valid(*ring) && ring.len > 0),
        panic_is_valid(*old(panic)) ==> {
            &&& panic_is_valid(*final(panic))
            &&& final(panic).magic == old(panic).magic
            &&& final(panic).boots_since == sat_inc(old(panic).boots_since)
        },
        !panic_is_valid(*old(panic)) ==> {
            &&& final(panic).magic == 0
            &&& !panic_is_valid(*final(panic))
            &&& final(panic).boots_since == old(panic).boots_since
            &&& final(panic).crc == old(panic).crc
        },
        final(panic).uptime_s == old(panic).uptime_s,
        final(panic).len == old(panic).len,
        final(panic).truncated == old(panic).truncated,
        final(panic).text == old(panic).text,
{
    if panic_valid(panic) {
        panic.boots_since = panic.boots_since.saturating_add(1);
        panic.crc = panic_crc(panic);
    } else {
        panic.magic = 0;
    }
    ring_valid(ring) && ring.len > 0
}

/// Seconds of uptime as a `u32`, saturating rather than wrapping: a truncating
/// cast would report a fresh boot, which is the one reading that misleads.
pub fn uptime_s(seconds: u64) -> (uptime: u32)
    ensures
        uptime == if seconds > u32::MAX { u32::MAX as u64 } else { seconds },
{
    if seconds > u32::MAX as u64 {
        u32::MAX
    } else {
        seconds as u32
    }
}

/// Why this board started, from ESP-IDF's reset-reason code, or `None` when
/// the chip reported none.
pub fn reset_reason(code: Option<u8>) -> (reason: ResetReasonDto)
    ensures
        reason == match code {
            None => ResetReasonDto::Other,
            Some(c) => if c == 0x01 {
                ResetReasonDto::PowerOn
            } else if c == 0x03 || c == 0x0C {
                ResetReasonDto::Software
            } else if c == 0x07 || c == 0x08 || c == 0x09 || c == 0x0B || c == 0x0D || c == 0x10
                || c == 0x11 || c == 0x12 {
                ResetReasonDto::Watchdog
            } else if c == 0x0F {
                ResetReasonDto::Brownout
            } else if c == 0x15 || c == 0x16 {
                ResetReasonDto::Debugger
            } else {
                ResetReasonDto::Other
            },
        },
{
    match code {
        None => ResetReasonDto::Other,
        Some(c) => match c {
            0x01 => ResetReasonDto::PowerOn,
            0x03 | 0x0C => ResetReasonDto::Software,
            0x05 => ResetReasonDto::Other,
            0x07 | 0x08 | 0x09 | 0x0B | 0x0D | 0x10 | 0x11 | 0x12 => ResetReasonDto::Watchdog,
            0x0F => ResetReasonDto::Brownout,
            0x15 | 0x16 => ResetReasonDto::Debugger,
            _ => ResetReasonDto::Other,
        },
    }
}

/// What the panic record keeps of any message is printable ASCII with no
/// character JSON escapes, and never longer than the record: a kept message
/// serialises to exactly as many bytes as it has.
pub proof fn law_kept_message_is_plain(message: Seq<u8>)
    ensures
        kept_message(message).len() <= MAX_PANIC_TEXT_LEN,
        kept_message(message).len() == message.len() || kept_message(message).len()
            == MAX_PANIC_TEXT_LEN,
        forall|i: int| 0 <= i < kept_message(message).len() ==> is_plain(#[trigger] kept_message(message)[i]),
{
}

} // verus!
