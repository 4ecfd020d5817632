//! Recovery of consecutive block frames from the bytes of a block file.
//!
//! A frame is `magic: u32-LE, size: u32-LE, payload[size]`. Frames may be
//! separated by padding; the scan slides over it one byte at a time until the
//! next four bytes spell the magic.

use vstd::prelude::*;

verus! {

/// The payload window `start..end` of one frame inside a block file.
#[derive(Clone, Copy, Debug, PartialEq, Eq, Structural)]
pub struct Frame {
    pub start: usize,
    pub end: usize,
}

/// Why the scan of a block file stopped before its end.
#[derive(Clone, Copy, Debug, PartialEq, Eq, Structural)]
pub enum FramingError {
    /// The magic stands at `at`, but fewer than four bytes follow it.
    MissingSize { at: usize },
    /// The frame whose payload starts at `start` declares `size` bytes, more
    /// than the file still holds.
    Overrun { start: usize, size: u32 },
    /// The payload window `start..end` does not decode as a block.
    BadBlock { start: usize, end: usize },
}

/// What the scan finds when it resumes at some position.
#[derive(Clone, Copy, Debug, PartialEq, Eq, Structural)]
pub enum FrameStep {
    /// No magic from here to the end of the file.
    End,
    /// The next frame, its header complete and its payload inside the file.
    Found(Frame),
    /// A magic whose frame is cut short.
    Broken(FramingError),
}

/// The little-endian `u32` that the four bytes at `at` spell.
pub open spec fn le_u32_at(blob: Seq<u8>, at: int) -> int
    recommends
        0 <= at,
        at + 4 <= blob.len(),
{
    blob[at] as int + 256 * (blob[at + 1] as int) + 65536 * (blob[at + 2] as int) + 16777216 * (
    blob[at + 3] as int)
}

/// The four bytes at `at` exist and spell `magic`.
pub open spec fn is_magic_at(blob: Seq<u8>, magic: u32, at: int) -> bool {
    &&& 0 <= at
    &&& at + 4 <= blob.len()
    &&& le_u32_at(blob, at) == magic
}

/// The first position at or after `from` where the magic stands.
pub open spec fn next_magic(blob: Seq<u8>, magic: u32, from: int) -> Option<int>
    decreases blob.len() - from,
{
    if from < 0 || from + 4 > blob.len() {
        None
    } else if is_magic_at(blob, magic, from) {
        Some(from)
    } else {
        next_magic(blob, magic, from + 1)
    }
}

/// One step of the scan: the next frame at or after `from`, the end of the
/// file, or a frame that is cut short.
pub open spec fn frame_step(blob: Seq<u8>, magic: u32, from: int) -> FrameStep {
    match next_magic(blob, magic, from) {
        None => FrameStep::End,
        Some(at) => {
            if at + 8 > blob.len() {
                FrameStep::Broken(FramingError::MissingSize { at: at as usize })
            } else {
                let size = le_u32_at(blob, at + 4);
                if at + 8 + size > blob.len() {
                    FrameStep::Broken(
                        FramingError::Overrun { start: (at + 8) as usize, size: size as u32 },
                    )
                } else {
                    FrameStep::Found(
                        Frame { start: (at + 8) as usize, end: (at + 8 + size) as usize },
                    )
                }
            }
        },
    }
}

/// Where `next_magic` answers, the magic stands there and nowhere between
/// `from` and there; where it does not, the magic stands nowhere from `from`
/// on.
pub proof fn lemma_next_magic(blob: Seq<u8>, magic: u32, from: int)
    requires
        0 <= from,
    ensures
        match next_magic(blob, magic, from) {
            Some(at) => from <= at && is_magic_at(blob, magic, at) && forall|r: int|
                from <= r < at ==> !is_magic_at(blob, magic, r),
            None => forall|r: int| from <= r ==> !is_magic_at(blob, magic, r),
        },
    decreases blob.len() - from,
{
    if from + 4 > blob.len() {
    } else if is_magic_at(blob, magic, from) {
    } else {
        lemma_next_magic(blob, magic, from + 1);
    }
}

/// A step that finds a frame finds it past `from`, with its header before
/// its payload and its payload inside the file.
pub proof fn lemma_frame_step_bounds(blob: Seq<u8>, magic: u32, from: int)
    requires
        0 <= from,
        blob.len() <= usize::MAX,
    ensures
        match frame_step(blob, magic, from) {
            FrameStep::Found(f) => {
                &&& from + 8 <= f.start <= f.end <= blob.len()
                &&& is_magic_at(blob, magic, f.start - 8)
                &&& le_u32_at(blob, f.start - 4) == f.end - f.start
                &&& next_magic(blob, magic, from) == Some(f.start - 8)
            },
            FrameStep::Broken(FramingError::MissingSize { at }) => {
                &&& from <= at
                &&& at + 4 <= blob.len() < at + 8
                &&& next_magic(blob, magic, from) == Some(at as int)
            },
            FrameStep::Broken(FramingError::Overrun { start, size }) => {
                &&& from + 8 <= start <= blob.len() < start + size
                &&& le_u32_at(blob, start - 4) == size
                &&& next_magic(blob, magic, from) == Some(start - 8)
            },
            FrameStep::Broken(FramingError::BadBlock { .. }) => false,
            FrameStep::End => next_magic(blob, magic, from) is None,
        },
{
    lemma_next_magic(blob, magic, from);
}

/// The frames of `blob` from `from` on, in file order, where `accepts` says
/// which payloads are taken. The first cut-short frame or refused payload
/// ends the scan with its error.
pub open spec fn frames_from(
    blob: Seq<u8>,
    magic: u32,
    from: int,
    accepts: spec_fn(Seq<u8>) -> bool,
) -> Result<Seq<Frame>, FramingError>
    decreases blob.len() - from,
    when 0 <= from && blob.len() <= usize::MAX
{
    match frame_step(blob, magic, from) {
        FrameStep::End => Ok(Seq::empty()),
        FrameStep::Broken(e) => Err(e),
        FrameStep::Found(f) => {
            proof {
                lemma_frame_step_bounds(blob, magic, from);
            }
            if !accepts(blob.subrange(f.start as int, f.end as int)) {
                Err(FramingError::BadBlock { start: f.start, end: f.end })
            } else {
                match frames_from(blob, magic, f.end as int, accepts) {
                    Ok(rest) => Ok(seq![f] + rest),
                    Err(e) => Err(e),
                }
            }
        },
    }
}

/// Every payload is taken: framing alone.
pub open spec fn any_payload() -> spec_fn(Seq<u8>) -> bool {
    |payload: Seq<u8>| true
}

/// Reads the little-endian `u32` at `at`.
pub(crate) fn read_le_u32(blob: &[u8], at: usize) -> (value: u32)
    requires
        at + 4 <= blob@.len(),
    ensures
        value == le_u32_at(blob@, at as int),
{
    let b0: u32 = blob[at] as u32;
    let b1: u32 = blob[at + 1] as u32;
    let b2: u32 = blob[at + 2] as u32;
    let b3: u32 = blob[at + 3] as u32;
    b0 + 256 * b1 + 65536 * b2 + 16777216 * b3
}

/// Finds the next frame at or after `from`.
///
/// The cursor slides forward one byte at a time until four bytes spell the
/// magic; fewer than four bytes left end the scan. The size that follows the
/// magic must be there, and the payload it declares must fit in the file.
pub fn next_frame(blob: &[u8], magic: u32, from: usize) -> (step: FrameStep)
    ensures
        step == frame_step(blob@, magic, from as int),
{
    let len: usize = blob.len();
    let mut at: usize = from;
    while at <= len && len - at >= 4 && read_le_u32(blob, at) != magic
        invariant
            len == blob@.len(),
            from <= at,
            next_magic(blob@, magic, from as int) == next_magic(blob@, magic, at as int),
        decreases len - at,
    {
        at = at + 1;
    }
    if at > len || len - at < 4 {
        FrameStep::End
    } else if len - at < 8 {
        FrameStep::Broken(FramingError::MissingSize { at })
    } else {
        let size: u32 = read_le_u32(blob, at + 4);
        let start: usize = at + 8;
        if size as usize > len - start {
            FrameStep::Broken(FramingError::Overrun { start, size })
        } else {
            FrameStep::Found(Frame { start, end: start + size as usize })
        }
    }
}

/// Splits a block file into its frames without looking into the payloads.
pub fn split_frames(blob: &[u8], magic: u32) -> (res: Result<Vec<Frame>, FramingError>)
    ensures
        match (res, frames_from(blob@, magic, 0, any_payload())) {
            (Ok(frames), Ok(expected)) => frames@ == expected,
            (Err(e), Err(expected)) => e == expected,
            _ => false,
        },
{
    let len: usize = blob.len();
    let mut frames: Vec<Frame> = Vec::new();
    let mut pos: usize = 0;
    loop
        invariant
            pos <= len == blob@.len(),
            match frames_from(blob@, magic, pos as int, any_payload()) {
                Ok(rest) => frames_from(blob@, magic, 0, any_payload()) == Ok::<
                    Seq<Frame>,
                    FramingError,
                >(frames@ + rest),
                Err(e) => frames_from(blob@, magic, 0, any_payload()) == Err::<
                    Seq<Frame>,
                    FramingError,
                >(e),
            },
        decreases blob@.len() - pos,
    {
        proof {
            lemma_frame_step_bounds(blob@, magic, pos as int);
        }
        match next_frame(blob, magic, pos) {
            FrameStep::End => {
                return Ok(frames);
            },
            FrameStep::Broken(e) => {
                return Err(e);
            },
            FrameStep::Found(f) => {
                let ghost before = frames@;
                frames.push(f);
                pos = f.end;
                proof {
                    let rest = frames_from(blob@, magic, f.end as int, any_payload());
                    if rest is Ok {
                        assert(before + (seq![f] + rest->Ok_0) =~= frames@ + rest->Ok_0);
                    }
                }
            },
        }
    }
}

/// The bytes of `blob` are laid out, from `from` on, as the frames `frames`
/// in this order: before each frame stands padding in which the magic does
/// not occur, then the magic, then the size of the payload, then the payload.
pub open spec fn laid_out(blob: Seq<u8>, magic: u32, from: int, frames: Seq<Frame>) -> bool
    decreases frames.len(),
{
    if frames.len() == 0 {
        true
    } else {
        let f = frames[0];
        &&& from + 8 <= f.start <= f.end <= blob.len()
        &&& is_magic_at(blob, magic, f.start - 8)
        &&& le_u32_at(blob, f.start - 4) == f.end - f.start
        &&& forall|r: int| from <= r < f.start - 8 ==> !is_magic_at(blob, magic, r)
        &&& laid_out(blob, magic, f.end as int, frames.drop_first())
    }
}

/// Where the scan stands after the frames `frames`, having started at `from`.
pub open spec fn end_of(from: int, frames: Seq<Frame>) -> int {
    if frames.len() == 0 {
        from
    } else {
        frames.last().end as int
    }
}

/// Every payload of `frames` is one that `accepts` takes.
pub open spec fn all_accepted(
    blob: Seq<u8>,
    frames: Seq<Frame>,
    accepts: spec_fn(Seq<u8>) -> bool,
) -> bool {
    forall|i: int|
        0 <= i < frames.len() ==> accepts(
            blob.subrange((#[trigger] frames[i]).start as int, frames[i].end as int),
        )
}

/// `frames` put before the outcome `rest` of the scan that follows them.
pub open spec fn then_scan(frames: Seq<Frame>, rest: Result<Seq<Frame>, FramingError>) -> Result<
    Seq<Frame>,
    FramingError,
> {
    match rest {
        Ok(more) => Ok(frames + more),
        Err(e) => Err(e),
    }
}

/// A scan that starts before frames laid out one after the other, all of
/// them accepted, yields them in order and goes on behind the last.
pub proof fn lemma_scan_laid_out(
    blob: Seq<u8>,
    magic: u32,
    from: int,
    frames: Seq<Frame>,
    accepts: spec_fn(Seq<u8>) -> bool,
)
    requires
        0 <= from,
        blob.len() <= usize::MAX,
        laid_out(blob, magic, from, frames),
        all_accepted(blob, frames, accepts),
    ensures
        frames_from(blob, magic, from, accepts) == then_scan(
            frames,
            frames_from(blob, magic, end_of(from, frames), accepts),
        ),
    decreases frames.len(),
{
    let tail = frames_from(blob, magic, end_of(from, frames), accepts);
    if frames.len() == 0 {
        if tail is Ok {
            assert(frames + tail->Ok_0 =~= tail->Ok_0);
        }
    } else {
        let f = frames[0];
        let rest = frames.drop_first();
        lemma_next_magic(blob, magic, from);
        assert(next_magic(blob, magic, from) == Some(f.start - 8));
        assert(frame_step(blob, magic, from) == FrameStep::Found(f));
        assert(accepts(blob.subrange(f.start as int, f.end as int)));
        assert forall|i: int| 0 <= i < rest.len() implies accepts(
            blob.subrange((#[trigger] rest[i]).start as int, rest[i].end as int),
        ) by {
            assert(rest[i] == frames[i + 1]);
        }
        lemma_scan_laid_out(blob, magic, f.end as int, rest, accepts);
        assert(end_of(f.end as int, rest) == end_of(from, frames)) by {
            if rest.len() > 0 {
                assert(rest.last() == frames.last());
            }
        }
        if tail is Ok {
            assert(seq![f] + (rest + tail->Ok_0) =~= frames + tail->Ok_0);
        }
    }
}

/// A file that holds well-formed frames, with padding free of the magic
/// before, between and behind them, yields exactly these frames, in order.
pub proof fn lemma_frames_in_order(
    blob: Seq<u8>,
    magic: u32,
    frames: Seq<Frame>,
    accepts: spec_fn(Seq<u8>) -> bool,
)
    requires
        blob.len() <= usize::MAX,
        laid_out(blob, magic, 0, frames),
        all_accepted(blob, frames, accepts),
        forall|r: int| end_of(0, frames) <= r ==> !is_magic_at(blob, magic, r),
    ensures
        frames_from(blob, magic, 0, accepts) == Ok::<Seq<Frame>, FramingError>(frames),
{
    lemma_scan_laid_out(blob, magic, 0, frames, accepts);
    let end = end_of(0, frames);
    lemma_end_of_bounds(blob, magic, 0, frames);
    lemma_next_magic(blob, magic, end);
    assert(frames + Seq::<Frame>::empty() =~= frames);
}

/// The scan stands inside the file after frames that are laid out in it.
pub proof fn lemma_end_of_bounds(blob: Seq<u8>, magic: u32, from: int, frames: Seq<Frame>)
    requires
        0 <= from <= blob.len(),
        laid_out(blob, magic, from, frames),
    ensures
        from <= end_of(from, frames) <= blob.len(),
    decreases frames.len(),
{
    if frames.len() > 0 {
        let rest = frames.drop_first();
        lemma_end_of_bounds(blob, magic, frames[0].end as int, rest);
        if rest.len() > 0 {
            assert(rest.last() == frames.last());
        }
    }
}

/// A frame whose declared size exceeds the bytes that remain makes the scan
/// fail, whatever well-formed frames stand before it.
pub proof fn lemma_overrun_fails(
    blob: Seq<u8>,
    magic: u32,
    frames: Seq<Frame>,
    accepts: spec_fn(Seq<u8>) -> bool,
    at: int,
)
    requires
        blob.len() <= usize::MAX,
        laid_out(blob, magic, 0, frames),
        all_accepted(blob, frames, accepts),
        end_of(0, frames) <= at,
        forall|r: int| end_of(0, frames) <= r < at ==> !is_magic_at(blob, magic, r),
        is_magic_at(blob, magic, at),
        at + 8 <= blob.len(),
        at + 8 + le_u32_at(blob, at + 4) > blob.len(),
    ensures
        frames_from(blob, magic, 0, accepts) == Err::<Seq<Frame>, FramingError>(
            FramingError::Overrun {
                start: (at + 8) as usize,
                size: le_u32_at(blob, at + 4) as u32,
            },
        ),
{
    lemma_scan_laid_out(blob, magic, 0, frames, accepts);
    lemma_end_of_bounds(blob, magic, 0, frames);
    lemma_next_magic(blob, magic, end_of(0, frames));
    assert(next_magic(blob, magic, end_of(0, frames)) == Some(at));
}

/// The four bytes of `x`, the lowest first.
pub open spec fn le_bytes(x: u32) -> Seq<u8> {
    seq![
        (x % 256) as u8,
        ((x / 256) % 256) as u8,
        ((x / 65536) % 256) as u8,
        (x / 16777216) as u8,
    ]
}

/// One frame: the magic, the size of the payload, the payload.
pub open spec fn frame_bytes(magic: u32, payload: Seq<u8>) -> Seq<u8> {
    le_bytes(magic) + le_bytes(payload.len() as u32) + payload
}

/// A block file put together: before each payload its padding and the
/// header of its frame, and `tail` behind the last frame.
pub open spec fn block_file(
    magic: u32,
    pads: Seq<Seq<u8>>,
    payloads: Seq<Seq<u8>>,
    tail: Seq<u8>,
) -> Seq<u8>
    decreases payloads.len(),
{
    if payloads.len() == 0 || pads.len() != payloads.len() {
        tail
    } else {
        pads[0] + frame_bytes(magic, payloads[0]) + block_file(
            magic,
            pads.drop_first(),
            payloads.drop_first(),
            tail,
        )
    }
}

/// Where the payloads of such a file stand, for a file that starts at
/// `base`.
pub open spec fn windows(pads: Seq<Seq<u8>>, payloads: Seq<Seq<u8>>, base: int) -> Seq<Frame>
    decreases payloads.len(),
{
    if payloads.len() == 0 || pads.len() != payloads.len() {
        Seq::empty()
    } else {
        let start = base + pads[0].len() + 8;
        let end = start + payloads[0].len();
        seq![Frame { start: start as usize, end: end as usize }] + windows(
            pads.drop_first(),
            payloads.drop_first(),
            end,
        )
    }
}

/// Padding in which the magic does not start: not in the padding alone,
/// and not across its end into the magic that follows it.
pub open spec fn clean_pad(pad: Seq<u8>, magic: u32) -> bool {
    forall|r: int| 0 <= r < pad.len() ==> !is_magic_at(pad + le_bytes(magic), magic, r)
}

/// Bytes in which the magic does not occur.
pub open spec fn clean_tail(tail: Seq<u8>, magic: u32) -> bool {
    forall|r: int| !is_magic_at(tail, magic, r)
}

/// The four bytes of a number spell it.
pub proof fn lemma_le_bytes(x: u32, rest: Seq<u8>)
    ensures
        le_bytes(x).len() == 4,
        le_u32_at(le_bytes(x) + rest, 0) == x,
{
    let b = le_bytes(x) + rest;
    assert(b[0] == le_bytes(x)[0]);
    assert(b[1] == le_bytes(x)[1]);
    assert(b[2] == le_bytes(x)[2]);
    assert(b[3] == le_bytes(x)[3]);
}

/// Whether the magic stands at a place depends on the four bytes there
/// alone.
pub proof fn lemma_magic_is_local(a: Seq<u8>, at_a: int, b: Seq<u8>, at_b: int, magic: u32)
    requires
        0 <= at_a,
        at_a + 4 <= a.len(),
        0 <= at_b,
        at_b + 4 <= b.len(),
        a[at_a] == b[at_b],
        a[at_a + 1] == b[at_b + 1],
        a[at_a + 2] == b[at_b + 2],
        a[at_a + 3] == b[at_b + 3],
    ensures
        le_u32_at(a, at_a) == le_u32_at(b, at_b),
        is_magic_at(a, magic, at_a) == is_magic_at(b, magic, at_b),
{
}

/// Where clean padding stands in a file, with the magic behind it, the
/// magic starts nowhere in the padding.
proof fn lemma_clean_pad_in_file(blob: Seq<u8>, base: int, pad: Seq<u8>, magic: u32)
    requires
        0 <= base,
        base + pad.len() + 4 <= blob.len(),
        blob.subrange(base, base + pad.len() + 4) == pad + le_bytes(magic),
        clean_pad(pad, magic),
    ensures
        forall|r: int| base <= r < base + pad.len() ==> !is_magic_at(blob, magic, r),
{
    let padded = pad + le_bytes(magic);
    let piece = blob.subrange(base, base + pad.len() + 4);
    assert forall|r: int| base <= r < base + pad.len() implies !is_magic_at(blob, magic, r) by {
        assert(blob[r] == piece[r - base]);
        assert(blob[r + 1] == piece[r - base + 1]);
        assert(blob[r + 2] == piece[r - base + 2]);
        assert(blob[r + 3] == piece[r - base + 3]);
        lemma_magic_is_local(blob, r, padded, r - base, magic);
    }
}

/// Where a frame stands in a file, its header spells the magic and the
/// size of its payload, and its window holds its payload.
proof fn lemma_frame_in_file(blob: Seq<u8>, at: int, magic: u32, payload: Seq<u8>)
    requires
        0 <= at,
        payload.len() <= u32::MAX,
        at + 8 + payload.len() <= blob.len(),
        blob.subrange(at, at + 8 + payload.len()) == frame_bytes(magic, payload),
    ensures
        is_magic_at(blob, magic, at),
        le_u32_at(blob, at + 4) == payload.len(),
        blob.subrange(at + 8, at + 8 + payload.len()) == payload,
{
    let frame = frame_bytes(magic, payload);
    let piece = blob.subrange(at, at + 8 + payload.len());
    let sized = le_bytes(payload.len() as u32) + payload;
    lemma_le_bytes(magic, sized);
    assert(frame =~= le_bytes(magic) + sized);
    assert(blob[at] == piece[0]);
    assert(blob[at + 1] == piece[1]);
    assert(blob[at + 2] == piece[2]);
    assert(blob[at + 3] == piece[3]);
    lemma_magic_is_local(blob, at, frame, 0, magic);
    lemma_le_bytes(payload.len() as u32, payload);
    assert(blob[at + 4] == piece[4] && frame[4] == sized[0]);
    assert(blob[at + 5] == piece[5] && frame[5] == sized[1]);
    assert(blob[at + 6] == piece[6] && frame[6] == sized[2]);
    assert(blob[at + 7] == piece[7] && frame[7] == sized[3]);
    lemma_magic_is_local(blob, at + 4, sized, 0, magic);
    assert forall|k: int| 0 <= k < payload.len() implies blob.subrange(
        at + 8,
        at + 8 + payload.len(),
    )[k] == payload[k] by {
        assert(blob[at + 8 + k] == piece[8 + k]);
        assert(frame[8 + k] == payload[k]);
    }
    assert(blob.subrange(at + 8, at + 8 + payload.len()) =~= payload);
}

/// Where a clean tail ends a file, the magic occurs nowhere in it.
proof fn lemma_clean_tail_in_file(blob: Seq<u8>, base: int, tail: Seq<u8>, magic: u32)
    requires
        0 <= base,
        base + tail.len() == blob.len(),
        blob.subrange(base, blob.len() as int) == tail,
        clean_tail(tail, magic),
    ensures
        forall|r: int| base <= r ==> !is_magic_at(blob, magic, r),
{
    let piece = blob.subrange(base, blob.len() as int);
    assert forall|r: int| base <= r implies !is_magic_at(blob, magic, r) by {
        if r + 4 <= blob.len() {
            assert(blob[r] == piece[r - base]);
            assert(blob[r + 1] == piece[r - base + 1]);
            assert(blob[r + 2] == piece[r - base + 2]);
            assert(blob[r + 3] == piece[r - base + 3]);
            lemma_magic_is_local(blob, r, tail, r - base, magic);
        }
    }
}

/// The windows `frames` of `blob` hold the payloads `payloads`, one each.
pub open spec fn holds_payloads(blob: Seq<u8>, frames: Seq<Frame>, payloads: Seq<Seq<u8>>) -> bool {
    &&& frames.len() == payloads.len()
    &&& forall|i: int|
        0 <= i < frames.len() ==> blob.subrange(
            (#[trigger] frames[i]).start as int,
            frames[i].end as int,
        ) == payloads[i]
}

/// The magic stands nowhere in `blob` from `from` on.
pub open spec fn no_magic_from(blob: Seq<u8>, magic: u32, from: int) -> bool {
    forall|r: int| from <= r ==> !is_magic_at(blob, magic, r)
}

/// The pieces of a file that is a head, padding, a frame and a rest.
proof fn lemma_file_pieces(
    head: Seq<u8>,
    pad: Seq<u8>,
    magic: u32,
    payload: Seq<u8>,
    rest: Seq<u8>,
)
    ensures
        ({
            let frame = frame_bytes(magic, payload);
            let blob = head + (pad + frame + rest);
            let base = head.len() as int;
            let at = base + pad.len();
            let end = at + 8 + payload.len();
            &&& frame.len() == 8 + payload.len()
            &&& blob.len() == end + rest.len()
            &&& blob == (head + pad + frame) + rest
            &&& (head + pad + frame).len() == end
            &&& blob.subrange(base, at + 4) == pad + le_bytes(magic)
            &&& blob.subrange(at, end) == frame
        }),
{
    let frame = frame_bytes(magic, payload);
    let blob = head + (pad + frame + rest);
    let base = head.len() as int;
    let at = base + pad.len();
    let end = at + 8 + payload.len();
    assert(le_bytes(magic).len() == 4);
    assert(le_bytes(payload.len() as u32).len() == 4);
    assert(blob =~= (head + pad + frame) + rest);
    assert(blob.subrange(base, at + 4) =~= pad + le_bytes(magic));
    assert(blob.subrange(at, end) =~= frame);
}

/// A frame behind clean padding, and frames laid out behind it, are frames
/// laid out.
proof fn lemma_frame_then_rest(
    blob: Seq<u8>,
    magic: u32,
    base: int,
    pad: Seq<u8>,
    payload: Seq<u8>,
    rest_frames: Seq<Frame>,
)
    requires
        0 <= base,
        payload.len() <= u32::MAX,
        blob.len() <= usize::MAX,
        base + pad.len() + 8 + payload.len() <= blob.len(),
        blob.subrange(base, base + pad.len() + 4) == pad + le_bytes(magic),
        blob.subrange(base + pad.len(), base + pad.len() + 8 + payload.len()) == frame_bytes(
            magic,
            payload,
        ),
        clean_pad(pad, magic),
        laid_out(blob, magic, base + pad.len() + 8 + payload.len(), rest_frames),
    ensures
        ({
            let start = base + pad.len() + 8;
            let end = start + payload.len();
            let f = Frame { start: start as usize, end: end as usize };
            &&& laid_out(blob, magic, base, seq![f] + rest_frames)
            &&& blob.subrange(start, end) == payload
            &&& end_of(base, seq![f] + rest_frames) == end_of(end, rest_frames)
        }),
{
    let at = base + pad.len();
    let start = at + 8;
    let end = start + payload.len();
    let f = Frame { start: start as usize, end: end as usize };
    let frames = seq![f] + rest_frames;
    lemma_clean_pad_in_file(blob, base, pad, magic);
    lemma_frame_in_file(blob, at, magic, payload);
    assert(frames[0] == f);
    assert(frames.drop_first() =~= rest_frames);
    if rest_frames.len() > 0 {
        assert(frames.last() == rest_frames.last());
    }
}

/// A block file that stands behind `head` is laid out as its frames, its
/// windows hold its payloads, and the magic does not occur behind the last
/// frame.
proof fn lemma_block_file_laid_out(
    head: Seq<u8>,
    magic: u32,
    pads: Seq<Seq<u8>>,
    payloads: Seq<Seq<u8>>,
    tail: Seq<u8>,
)
    requires
        pads.len() == payloads.len(),
        forall|i: int| 0 <= i < pads.len() ==> clean_pad(#[trigger] pads[i], magic),
        forall|i: int| 0 <= i < payloads.len() ==> (#[trigger] payloads[i]).len() <= u32::MAX,
        clean_tail(tail, magic),
        (head + block_file(magic, pads, payloads, tail)).len() <= usize::MAX,
    ensures
        ({
            let blob = head + block_file(magic, pads, payloads, tail);
            let frames = windows(pads, payloads, head.len() as int);
            &&& laid_out(blob, magic, head.len() as int, frames)
            &&& head.len() <= end_of(head.len() as int, frames) <= blob.len()
            &&& no_magic_from(blob, magic, end_of(head.len() as int, frames))
            &&& holds_payloads(blob, frames, payloads)
        }),
    decreases payloads.len(),
{
    let blob = head + block_file(magic, pads, payloads, tail);
    let base = head.len() as int;
    let frames = windows(pads, payloads, base);
    if payloads.len() == 0 {
        assert(blob.subrange(base, blob.len() as int) =~= tail);
        lemma_clean_tail_in_file(blob, base, tail, magic);
    } else {
        let pad = pads[0];
        let payload = payloads[0];
        let rest_pads = pads.drop_first();
        let rest_payloads = payloads.drop_first();
        let rest_file = block_file(magic, rest_pads, rest_payloads, tail);
        let end = base + pad.len() + 8 + payload.len();
        let f = Frame { start: (end - payload.len()) as usize, end: end as usize };
        let rest_frames = windows(rest_pads, rest_payloads, end);
        let head2 = head + pad + frame_bytes(magic, payload);
        lemma_file_pieces(head, pad, magic, payload, rest_file);
        assert(rest_pads.len() == rest_payloads.len());
        assert forall|i: int| 0 <= i < rest_pads.len() implies clean_pad(
            #[trigger] rest_pads[i],
            magic,
        ) by {
            assert(rest_pads[i] == pads[i + 1]);
        }
        assert forall|i: int| 0 <= i < rest_payloads.len() implies (#[trigger] rest_payloads[i]).len()
            <= u32::MAX by {
            assert(rest_payloads[i] == payloads[i + 1]);
        }
        lemma_block_file_laid_out(head2, magic, rest_pads, rest_payloads, tail);
        lemma_frame_then_rest(blob, magic, base, pad, payload, rest_frames);
        assert(frames == seq![f] + rest_frames);
        assert(holds_payloads(blob, frames, payloads)) by {
            assert forall|i: int| 0 <= i < frames.len() implies blob.subrange(
                (#[trigger] frames[i]).start as int,
                frames[i].end as int,
            ) == payloads[i] by {
                if i > 0 {
                    assert(frames[i] == rest_frames[i - 1]);
                    assert(rest_payloads[i - 1] == payloads[i]);
                }
            }
        }
    }
}

/// A file that is put together from well-formed frames, with padding
/// before each in which the magic does not start and a tail in which it
/// does not occur, yields exactly the payloads that were put in, in order.
pub proof fn lemma_block_file_frames(
    magic: u32,
    pads: Seq<Seq<u8>>,
    payloads: Seq<Seq<u8>>,
    tail: Seq<u8>,
    accepts: spec_fn(Seq<u8>) -> bool,
)
    requires
        pads.len() == payloads.len(),
        forall|i: int| 0 <= i < pads.len() ==> clean_pad(#[trigger] pads[i], magic),
        forall|i: int| 0 <= i < payloads.len() ==> (#[trigger] payloads[i]).len() <= u32::MAX,
        forall|i: int| 0 <= i < payloads.len() ==> accepts(#[trigger] payloads[i]),
        clean_tail(tail, magic),
        block_file(magic, pads, payloads, tail).len() <= usize::MAX,
    ensures
        ({
            let blob = block_file(magic, pads, payloads, tail);
            let frames = windows(pads, payloads, 0);
            &&& frames_from(blob, magic, 0, accepts) == Ok::<Seq<Frame>, FramingError>(frames)
            &&& holds_payloads(blob, frames, payloads)
        }),
{
    let blob = block_file(magic, pads, payloads, tail);
    let frames = windows(pads, payloads, 0);
    assert(Seq::<u8>::empty() + blob =~= blob);
    lemma_block_file_laid_out(Seq::empty(), magic, pads, payloads, tail);
    assert(all_accepted(blob, frames, accepts)) by {
        assert forall|i: int| 0 <= i < frames.len() implies accepts(
            blob.subrange((#[trigger] frames[i]).start as int, frames[i].end as int),
        ) by {
            assert(accepts(payloads[i]));
        }
    }
    lemma_frames_in_order(blob, magic, frames, accepts);
}

/// A file that is one well-formed frame and at most three bytes behind it
/// yields this one frame.
pub proof fn lemma_single_frame(
    magic: u32,
    payload: Seq<u8>,
    tail: Seq<u8>,
    accepts: spec_fn(Seq<u8>) -> bool,
)
    requires
        payload.len() <= u32::MAX,
        8 + payload.len() + tail.len() <= usize::MAX,
        tail.len() <= 3,
        accepts(payload),
    ensures
        frames_from(frame_bytes(magic, payload) + tail, magic, 0, accepts) == Ok::<
            Seq<Frame>,
            FramingError,
        >(seq![Frame { start: 8, end: (8 + payload.len()) as usize }]),
        (frame_bytes(magic, payload) + tail).subrange(8, 8 + payload.len() as int) == payload,
{
    let pads = seq![Seq::<u8>::empty()];
    let payloads = seq![payload];
    let blob = frame_bytes(magic, payload) + tail;
    lemma_le_bytes(magic, Seq::empty());
    lemma_le_bytes(payload.len() as u32, Seq::empty());
    assert(pads.drop_first().len() == 0);
    assert(payloads.drop_first().len() == 0);
    assert(block_file(magic, pads.drop_first(), payloads.drop_first(), tail) == tail);
    assert(block_file(magic, pads, payloads, tail) =~= blob);
    assert(windows(pads.drop_first(), payloads.drop_first(), 8 + payload.len() as int)
        =~= Seq::<Frame>::empty());
    assert(windows(pads, payloads, 0) =~= seq![
        Frame { start: 8, end: (8 + payload.len()) as usize },
    ]);
    lemma_block_file_frames(magic, pads, payloads, tail, accepts);
    let frames = windows(pads, payloads, 0);
    assert(blob.subrange(frames[0].start as int, frames[0].end as int) == payloads[0]);
}

} // verus!
