//! Over-the-air updates, receiving side: the upload session's bookkeeping,
//! the rule that only the last page may be short, where each page lands and
//! when a sector is erased under it, and what a refused image is answered.
//!
//! The page buffer's channel, the image verifier and the flash are the
//! device's; what is decided between them is here.

use vstd::prelude::*;

use crate::api::ApiErrorCode;
use crate::ota::{clear_attempts, pending_after, AppSlot, ImageState, OtaError, OtaOp, OtaState, Slots};

verus! {

/// Bytes in one flash erase unit.
pub const SECTOR_BYTES: usize = 4096;

/// Bytes in one flash write word.
pub const WORD_BYTES: usize = 4;

/// Bytes in one page of an upload.
pub const PAGE_BYTES: usize = 256;

/// The erased value of a flash byte.
pub const ERASED: u8 = 0xFF;

/// One page of an upload. How many of its bytes are the image's is carried by
/// the request that asks for it to be written.
pub struct Page {
    pub bytes: [u8; PAGE_BYTES],
}

impl Page {
    /// A zeroed page.
    pub fn new() -> (page: Page)
        ensures
            forall|i: int| 0 <= i < PAGE_BYTES ==> page.bytes@[i] == 0,
    {
        Page { bytes: [0u8; PAGE_BYTES] }
    }
}

/// Why the image verifier refused an image.
#[derive(Clone, Copy, Debug, PartialEq, Eq, Structural)]
pub enum ImageError {
    NotAnImage,
    NotAnApp,
    BadSegmentCount,
    WrongChip,
    TooLarge,
    Truncated,
    LengthMismatch,
    BadChecksum,
    BadDigest,
}

/// The answer to a refused image: one per thing a person can do about it.
pub open spec fn refusal_of(error: ImageError) -> ApiErrorCode {
    match error {
        ImageError::NotAnImage | ImageError::NotAnApp | ImageError::BadSegmentCount => ApiErrorCode::ImageNotFirmware,
        ImageError::WrongChip => ApiErrorCode::ImageForAnotherChip,
        ImageError::TooLarge => ApiErrorCode::ImageTooLarge,
        _ => ApiErrorCode::ImageDamaged,
    }
}

/// A refused image is answered by what a person can do about it: every
/// error that means the image's bytes arrived damaged — short, the wrong
/// length, a bad checksum or a bad digest — is answered `ImageDamaged`; only
/// a file that is not an app image at all is answered `ImageNotFirmware`; an
/// image for another chip and one too large for the slot each have their own
/// answer.
pub proof fn law_refusals(error: ImageError)
    ensures
        (error == ImageError::Truncated || error == ImageError::LengthMismatch || error
            == ImageError::BadChecksum || error == ImageError::BadDigest) ==> refusal_of(error)
            == ApiErrorCode::ImageDamaged,
        refusal_of(error) == ApiErrorCode::ImageNotFirmware <==> (error == ImageError::NotAnImage
            || error == ImageError::NotAnApp || error == ImageError::BadSegmentCount),
        refusal_of(error) == ApiErrorCode::ImageForAnotherChip <==> error == ImageError::WrongChip,
        refusal_of(error) == ApiErrorCode::ImageTooLarge <==> error == ImageError::TooLarge,
{
}

/// The answer to a refused image.
pub fn refuse(error: ImageError) -> (code: ApiErrorCode)
    ensures
        code == refusal_of(error),
{
    match error {
        ImageError::NotAnImage | ImageError::NotAnApp | ImageError::BadSegmentCount => {
            ApiErrorCode::ImageNotFirmware
        },
        ImageError::WrongChip => ApiErrorCode::ImageForAnotherChip,
        ImageError::TooLarge => ApiErrorCode::ImageTooLarge,
        ImageError::Truncated | ImageError::LengthMismatch | ImageError::BadChecksum
        | ImageError::BadDigest => ApiErrorCode::ImageDamaged,
    }
}

/// One upload in progress.
#[derive(Clone, Copy, Debug, PartialEq, Eq, Structural)]
pub struct Session {
    /// Where the slots are, captured when the upload began.
    pub slots: Slots,
    /// Bytes of the image written to the target slot so far.
    pub written: u32,
}

/// The receiving side of an upload: at most one session.
pub struct Pages {
    pub session: Option<Session>,
}

impl Pages {
    /// No upload in progress.
    pub fn new() -> (pages: Pages)
        ensures
            pages.session is None,
    {
        Pages { session: None }
    }
}

/// The right to send pages: one upload holds it at a time, and the next one
/// finds it taken until the first gives it back.
pub struct UploadRight {
    free: bool,
}

/// The web server's end of one upload: proof that it holds the right.
pub struct Upload {
    held: (),
}

impl UploadRight {
    /// Whether no upload holds the right.
    pub closed spec fn is_free(&self) -> bool {
        self.free
    }

    /// Nobody uploading.
    pub fn new() -> (right: UploadRight)
        ensures
            right.is_free(),
    {
        UploadRight { free: true }
    }
}

/// Claim the right to upload, or find that somebody already has it.
pub fn take(right: &mut UploadRight) -> (taken: Option<Upload>)
    ensures
        taken is Some <==> old(right).is_free(),
        !final(right).is_free(),
{
    if right.free {
        right.free = false;
        Some(Upload { held: () })
    } else {
        None
    }
}

/// An upload is over, however it ended: the right is free again.
pub fn give_back(right: &mut UploadRight, upload: Upload)
    ensures
        final(right).is_free(),
{
    let Upload { held: () } = upload;
    right.free = true;
}

/// Start over for a new upload: a previous session is abandoned (and
/// reported as such), and an upload needs an `otadata` region to be
/// activated at all.
pub fn begin_check(pages: &mut Pages, slots: Option<Slots>) -> (checked: (bool, Result<Slots, ApiErrorCode>))
    ensures
        checked.0 == old(pages).session is Some,
        final(pages).session is None,
        checked.1 == match slots {
            Some(found) => Ok(found),
            None => Err(ApiErrorCode::UpdateUnwritable),
        },
{
    let abandoned = pages.session.is_some();
    pages.session = None;
    match slots {
        Some(found) => (abandoned, Ok(found)),
        None => (abandoned, Err(ApiErrorCode::UpdateUnwritable)),
    }
}

/// What seeding a blank `otadata` region asks for: nothing when it is not
/// blank, the running slot when it is and that slot is `ota_0`, and a refusal
/// otherwise — a blank region is what the bootloader reads as "boot ota_0".
pub fn seed_plan(blank: bool, booted: AppSlot) -> (plan: Result<Option<AppSlot>, OtaError>)
    ensures
        !blank ==> plan == Ok::<Option<AppSlot>, OtaError>(None),
        blank && booted == AppSlot::Ota0 ==> plan == Ok::<Option<AppSlot>, OtaError>(Some(AppSlot::Ota0)),
        blank && booted != AppSlot::Ota0 ==> plan == Err::<Option<AppSlot>, OtaError>(OtaError::NotInASlot),
{
    if !blank {
        return Ok(None);
    }
    if booted != AppSlot::Ota0 {
        return Err(OtaError::NotInASlot);
    }
    Ok(Some(booted))
}

/// Accept an upload: a new attempt begins here, so the attempt count is
/// cleared, and nothing has been written yet.
pub fn begin(pages: &mut Pages, ota: &mut OtaState, slots: Slots)
    ensures
        final(ota).pending() == pending_after(OtaOp::Bookkeeping, old(ota).pending()),
        final(pages).session == Some(Session { slots, written: 0 }),
        final(ota).attempts() == 0,
        final(ota).slots() == old(ota).slots(),
        final(ota).pending() == old(ota).pending(),
        final(ota).legs() == old(ota).legs(),
        final(ota).soak_from() == old(ota).soak_from(),
{
    clear_attempts(ota);
    pages.session = Some(Session { slots, written: 0 });
}

/// The image bytes of a page of `len`, capped at the page's size.
pub fn page_len(len: usize) -> (kept: usize)
    ensures
        kept == if len < PAGE_BYTES { len } else { PAGE_BYTES },
{
    if len < PAGE_BYTES {
        len
    } else {
        PAGE_BYTES
    }
}

/// Admit a page of `len` bytes when the verifier still expects `remaining`.
///
/// Every page but the last has to be full, or the sector-erase rule stops
/// holding; a short page is legitimate only as the page carrying everything
/// still expected. A refused page ends the session.
pub fn page_admit(pages: &mut Pages, len: usize, remaining: usize) -> (admitted: Result<usize, ApiErrorCode>)
    ensures
        old(pages).session is None ==> admitted == Err::<usize, ApiErrorCode>(ApiErrorCode::UpdateUnwritable)
            && final(pages).session is None,
        old(pages).session is Some ==> {
            let kept = if len < PAGE_BYTES { len } else { PAGE_BYTES };
            if kept != PAGE_BYTES && kept != remaining {
                admitted == Err::<usize, ApiErrorCode>(ApiErrorCode::UpdateUnwritable) && final(pages).session is None
            } else {
                admitted == Ok::<usize, ApiErrorCode>(kept) && final(pages).session == old(pages).session
            }
        },
{
    if pages.session.is_none() {
        return Err(ApiErrorCode::UpdateUnwritable);
    }
    let kept = page_len(len);
    let short = kept != PAGE_BYTES;
    if short && kept != remaining {
        pages.session = None;
        return Err(ApiErrorCode::UpdateUnwritable);
    }
    Ok(kept)
}

/// Where a page lands, whether a sector is erased first, and how many bytes
/// the word-aligned write covers.
#[derive(Clone, Copy, Debug, PartialEq, Eq, Structural)]
pub struct WritePlan {
    pub at: u32,
    pub erase: bool,
    pub padded: usize,
}

/// `len` rounded up to whole flash words.
pub open spec fn padded_len(len: int) -> int {
    ((len + WORD_BYTES - 1) / (WORD_BYTES as int)) * (WORD_BYTES as int)
}

/// Plan the write of a page of `len` bytes: at the end of what has been
/// written, with the sector erased first when the page starts one.
pub fn write_plan(session: &Session, len: usize) -> (plan: WritePlan)
    requires
        len <= PAGE_BYTES,
        session.slots.target_at + session.written + SECTOR_BYTES <= u32::MAX,
    ensures
        plan.at == session.slots.target_at + session.written,
        plan.erase == (session.written % (SECTOR_BYTES as u32) == 0),
        plan.padded == padded_len(len as int),
        len <= plan.padded <= PAGE_BYTES,
        plan.padded % WORD_BYTES == 0,
{
    let at = session.slots.target_at + session.written;
    let erase = session.written % (SECTOR_BYTES as u32) == 0;
    let padded = (len + WORD_BYTES - 1) / WORD_BYTES * WORD_BYTES;
    assert(padded as int == padded_len(len as int));
    assert(len <= padded <= PAGE_BYTES && padded % 4 == 0) by (nonlinear_arith)
        requires
            len <= 256,
            padded == (len + 3) / 4 * 4,
    ;
    WritePlan { at, erase, padded }
}

/// The page as it is written: its image bytes, then the erased value, which
/// writes nothing the flash did not already hold.
pub fn staged(page: &Page, len: usize) -> (out: [u8; PAGE_BYTES])
    requires
        len <= PAGE_BYTES,
    ensures
        forall|i: int| 0 <= i < len ==> out@[i] == page.bytes@[i],
        forall|i: int| len <= i < PAGE_BYTES ==> out@[i] == ERASED,
{
    let mut out = [ERASED; PAGE_BYTES];
    let mut index: usize = 0;
    while index < len
        invariant
            index <= len,
            len <= PAGE_BYTES,
            forall|i: int| 0 <= i < index ==> out@[i] == page.bytes@[i],
            forall|i: int| index <= i < PAGE_BYTES ==> out@[i] == ERASED,
        decreases len - index,
    {
        out[index] = page.bytes[index];
        index += 1;
    }
    out
}

/// Whether what was read back is what was written, for the image's bytes.
pub fn read_back_matches(check: &[u8; PAGE_BYTES], page: &Page, len: usize) -> (same: bool)
    requires
        len <= PAGE_BYTES,
    ensures
        same == (check@.subrange(0, len as int) == page.bytes@.subrange(0, len as int)),
{
    let mut index: usize = 0;
    while index < len
        invariant
            index <= len,
            len <= PAGE_BYTES,
            forall|i: int| 0 <= i < index ==> check@[i] == page.bytes@[i],
        decreases len - index,
    {
        if check[index] != page.bytes[index] {
            assert(check@.subrange(0, len as int)[index as int] != page.bytes@.subrange(0, len as int)[index as int]);
            return false;
        }
        index += 1;
    }
    assert(check@.subrange(0, len as int) =~= page.bytes@.subrange(0, len as int));
    true
}

/// Take what writing a page came to: a landed page advances the session, and
/// a failed one ends it — nothing was marked bootable and nothing will be.
pub fn page_written(pages: &mut Pages, outcome: Result<(), ApiErrorCode>, len: usize)
    requires
        len <= PAGE_BYTES,
        old(pages).session matches Some(session) ==> session.written + PAGE_BYTES <= u32::MAX,
    ensures
        outcome is Err ==> final(pages).session is None,
        outcome is Ok ==> final(pages).session == match old(pages).session {
            Some(session) => Some(Session { written: (session.written + len) as u32, ..session }),
            None => None,
        },
{
    match outcome {
        Ok(()) => {
            if let Some(session) = pages.session {
                pages.session = Some(Session { written: session.written + len as u32, ..session });
            }
        },
        Err(_) => {
            pages.session = None;
        },
    }
}

/// End the upload for marking: the session is taken, whatever follows.
pub fn finish(pages: &mut Pages) -> (taken: Result<Session, ApiErrorCode>)
    ensures
        final(pages).session is None,
        taken == match old(pages).session {
            Some(session) => Ok(session),
            None => Err(ApiErrorCode::UpdateUnwritable),
        },
{
    match pages.session.take() {
        Some(session) => Ok(session),
        None => Err(ApiErrorCode::UpdateUnwritable),
    }
}

/// What the image verifier's last word on a finished upload leads to: a
/// refusal is answered and `otadata` is never touched; only an accepted image
/// goes on to be marked bootable.
pub fn image_verdict(verified: Result<(), ImageError>) -> (verdict: Result<(), ApiErrorCode>)
    ensures
        verdict == (match verified {
            Ok(_) => Ok::<(), ApiErrorCode>(()),
            Err(error) => Err(refusal_of(error)),
        }),
{
    match verified {
        Ok(()) => Ok(()),
        Err(error) => Err(refuse(error)),
    }
}

/// Whether the target slot was marked `New`: the write has to succeed and
/// the state read back has to be `New`. A selection that landed without the
/// `New` behind it would boot the image with no self-test at all.
pub fn marked_new(written: Result<(), OtaError>, read_back: Result<ImageState, OtaError>) -> (marked: bool)
    ensures
        marked == (written is Ok && read_back == Ok::<ImageState, OtaError>(ImageState::New)),
{
    match (written, read_back) {
        (Ok(()), Ok(ImageState::New)) => true,
        _ => false,
    }
}

/// How marking an accepted image ends: the slot the selection is put back to,
/// if any, and the answer. Selecting the target and marking it `New` are one
/// operation; when the mark does not hold, the selection goes back to the
/// slot that is running, so the board boots what it runs now.
pub fn marking_outcome(slots: Slots, selected: Result<(), OtaError>, marked: bool) -> (outcome: (
    Option<AppSlot>,
    Result<(), ApiErrorCode>,
))
    ensures
        selected is Err ==> outcome == (None::<AppSlot>, Err::<(), ApiErrorCode>(ApiErrorCode::UpdateUnwritable)),
        selected is Ok && !marked ==> outcome == (Some(slots.booted), Err::<(), ApiErrorCode>(
            ApiErrorCode::UpdateUnwritable,
        )),
        selected is Ok && marked ==> outcome == (None::<AppSlot>, Ok::<(), ApiErrorCode>(())),
{
    match selected {
        Err(_) => (None, Err(ApiErrorCode::UpdateUnwritable)),
        Ok(()) => if marked {
            (None, Ok(()))
        } else {
            (Some(slots.booted), Err(ApiErrorCode::UpdateUnwritable))
        },
    }
}

/// Abandon the upload. Returns whether there was one.
pub fn abort(pages: &mut Pages) -> (abandoned: bool)
    ensures
        abandoned == old(pages).session is Some,
        final(pages).session is None,
{
    let abandoned = pages.session.is_some();
    pages.session = None;
    abandoned
}

/// A page never straddles an erase unit: while every page so far has been
/// full, the next one starts on a page boundary, and a page-aligned write of
/// a page fits inside the sector it starts in.
pub proof fn law_full_pages_never_straddle(written: u32, len: u32)
    requires
        written % (PAGE_BYTES as u32) == 0,
        len <= PAGE_BYTES,
    ensures
        written % (SECTOR_BYTES as u32) + len <= SECTOR_BYTES,
        len == PAGE_BYTES ==> (written + len) % (PAGE_BYTES as int) == 0,
{
    assert(written % 4096 + len <= 4096) by (nonlinear_arith)
        requires
            written % 256 == 0,
            len <= 256,
    {
        assert(written % 4096 == (written % 4096 / 256) * 256);
    }
}

} // verus!
