//! One download, from the request to the file in place.
//!
//! The body streams to a `.partial` file next to the destination, and the
//! content is validated before the final rename.
//!
//! - Resume: a leftover `.partial` is resumed with an HTTP `Range` header
//!   (appending); if the server ignores the range (plain 200) the partial is
//!   restarted from zero.
//! - Cancellation is looked at between chunks; on cancel the `.partial` is
//!   kept for a later resume.
//! - A validation failure deletes the `.partial`: an HTML error page must
//!   never become an installed model.

use crate::models::validation::{is_model, ModelValidationError};
use crate::models::ModelManagerError;
use crate::text::{decimal, decimal_text, joined};
use vstd::prelude::*;

verus! {

/// Progress of an in-flight download.
#[derive(Debug, Clone, Copy, PartialEq, Eq, Structural)]
pub struct DownloadProgress {
    pub bytes_downloaded: u64,
    /// `None` when the server did not report a length.
    pub total_bytes: Option<u64>,
}

impl DownloadProgress {
    /// How much of the whole has arrived, as numerator and denominator of a
    /// fraction from 0 to 1.
    pub fn fraction(&self) -> (r: Option<(u64, u64)>)
        ensures
            r == match self.total_bytes {
                Some(total) => if total == 0 {
                    None::<(u64, u64)>
                } else if self.bytes_downloaded < total {
                    Some((self.bytes_downloaded, total))
                } else {
                    Some((total, total))
                },
                None => None,
            },
    {
        match self.total_bytes {
            Some(total) => {
                if total == 0 {
                    None
                } else if self.bytes_downloaded < total {
                    Some((self.bytes_downloaded, total))
                } else {
                    Some((total, total))
                }
            },
            None => None,
        }
    }
}

/// What a model that is installed already counts as.
pub fn full_progress(size: u64) -> (p: DownloadProgress)
    ensures
        p == (DownloadProgress { bytes_downloaded: size, total_bytes: Some(size) }),
{
    DownloadProgress { bytes_downloaded: size, total_bytes: Some(size) }
}

/// How far a download is.
pub enum Phase {
    /// The file was asked for, from byte `offset` on.
    Asked { offset: u64 },
    /// The body is arriving.
    Receiving { bytes: u64, total: Option<u64> },
    /// All of it has arrived, and is being looked at.
    Validating,
    /// Nothing more happens.
    Over,
}

/// What happens to a download.
pub enum DownloadEvent {
    /// The server answered, and said how long the body is.
    Response { status: u16, length: Option<u64> },
    /// The user cancelled.
    Cancelled,
    /// So many bytes of the body arrived; none at its end.
    Chunk(usize),
    /// The partial file was validated.
    Verdict(Result<(), ModelValidationError>),
}

/// What is to be done about it.
pub enum DownloadAction {
    /// Open the partial file, at its end or emptied, and report.
    Receive { append: bool, progress: DownloadProgress },
    /// Append the chunk to the partial file and report.
    Store(DownloadProgress),
    /// Close the partial file and validate it.
    Validate,
    /// Rename the partial file to the destination.
    Promote,
    /// Delete the partial file and fail.
    Discard(ModelManagerError),
    /// Fail, and keep the partial file.
    Fail(ModelManagerError),
}

/// Whether a status tells of success.
pub open spec fn is_success(status: u16) -> bool {
    200 <= status < 300
}

/// Whether the length of a file that is resumed can be counted.
pub open spec fn fits(offset: u64, status: u16, length: Option<u64>) -> bool {
    status == 206 && length is Some ==> offset + length->0 <= u64::MAX
}

/// Whether a download can meet with an event where it is, within what a byte
/// count can hold.
pub open spec fn can_meet(phase: Phase, event: DownloadEvent) -> bool {
    match (phase, event) {
        (Phase::Asked { offset }, DownloadEvent::Response { status, length }) => fits(
            offset,
            status,
            length,
        ),
        (Phase::Receiving { .. }, DownloadEvent::Cancelled) => true,
        (Phase::Receiving { bytes, .. }, DownloadEvent::Chunk(n)) => bytes + n <= u64::MAX,
        (Phase::Validating, DownloadEvent::Verdict(_)) => true,
        _ => false,
    }
}

/// How a download goes on after an answer.
pub open spec fn answered(offset: u64, status: u16, length: Option<u64>) -> (Phase, DownloadAction) {
    if status == 416 {
        (Phase::Validating, DownloadAction::Validate)
    } else if !is_success(status) {
        (Phase::Over, DownloadAction::Fail(ModelManagerError::HttpStatus(status)))
    } else {
        let append = status == 206 && offset > 0;
        let bytes: u64 = if append {
            offset
        } else {
            0
        };
        let total: Option<u64> = match length {
            Some(n) => Some((bytes + n) as u64),
            None => None,
        };
        (
            Phase::Receiving { bytes, total },
            DownloadAction::Receive {
                append,
                progress: DownloadProgress { bytes_downloaded: bytes, total_bytes: total },
            },
        )
    }
}

/// How a download goes on after an event, and what is to be done.
pub open spec fn next(phase: Phase, event: DownloadEvent) -> (Phase, DownloadAction) {
    match event {
        DownloadEvent::Response { status, length } => answered(phase->offset, status, length),
        DownloadEvent::Cancelled => (
            Phase::Over,
            DownloadAction::Fail(ModelManagerError::Cancelled),
        ),
        DownloadEvent::Chunk(n) => if n == 0 {
            (Phase::Validating, DownloadAction::Validate)
        } else {
            let bytes = (phase->bytes + n) as u64;
            (
                Phase::Receiving { bytes, total: phase->total },
                DownloadAction::Store(
                    DownloadProgress { bytes_downloaded: bytes, total_bytes: phase->total },
                ),
            )
        },
        DownloadEvent::Verdict(verdict) => match verdict {
            Ok(_) => (Phase::Over, DownloadAction::Promote),
            Err(e) => (Phase::Over, DownloadAction::Discard(ModelManagerError::Validation(e))),
        },
    }
}

/// A download in progress.
pub struct Download {
    phase: Phase,
}

impl View for Download {
    type V = Phase;

    closed spec fn view(&self) -> Phase {
        self.phase
    }
}

/// The `Range` header that asks for what is missing behind the first `offset`
/// bytes.
pub open spec fn range_from(offset: u64) -> Seq<char> {
    "bytes="@ + decimal(offset as nat) + "-"@
}

impl Download {
    /// Starts a download. `partial` is the size of a partial file that an
    /// earlier one left, if there is one. Says which `Range` header the
    /// request takes, if any.
    pub fn new(partial: Option<u64>) -> (r: (Download, Option<String>))
        ensures
            r.0@ == (Phase::Asked {
                offset: match partial {
                    Some(n) => n,
                    None => 0,
                },
            }),
            match r.1 {
                Some(range) => partial is Some && partial->0 > 0 && range@ == range_from(
                    partial->0,
                ),
                None => partial is None || partial->0 == 0,
            },
    {
        let offset: u64 = match partial {
            Some(n) => n,
            None => 0,
        };
        let download: Download = Download { phase: Phase::Asked { offset } };
        if offset > 0 {
            let start: String = joined("bytes=", decimal_text(offset).as_str());
            (download, Some(joined(start.as_str(), "-")))
        } else {
            (download, None)
        }
    }

    fn answer(offset: u64, status: u16, length: Option<u64>) -> (r: (Phase, DownloadAction))
        requires
            fits(offset, status, length),
        ensures
            r == answered(offset, status, length),
    {
        if status == 416 {
            // Requested range not satisfiable: the partial already covers the
            // full file. Validate and promote it.
            return (Phase::Validating, DownloadAction::Validate);
        }
        if status < 200 || status >= 300 {
            // Keep the partial: a transient server error should not throw away
            // already-downloaded bytes.
            return (Phase::Over, DownloadAction::Fail(ModelManagerError::HttpStatus(status)));
        }
        let append: bool = status == 206 && offset > 0;
        // Plain 200: the server ignored the range (or there was none); the
        // body is the whole file, so start the partial over.
        let bytes: u64 = if append {
            offset
        } else {
            0
        };
        let total: Option<u64> = match length {
            Some(n) => Some(bytes + n),
            None => None,
        };
        let progress: DownloadProgress = DownloadProgress {
            bytes_downloaded: bytes,
            total_bytes: total,
        };
        (Phase::Receiving { bytes, total }, DownloadAction::Receive { append, progress })
    }

    /// Takes an event and says what is to be done.
    pub fn step(&mut self, event: DownloadEvent) -> (action: DownloadAction)
        requires
            can_meet(old(self)@, event),
        ensures
            final(self)@ == next(old(self)@, event).0,
            action == next(old(self)@, event).1,
    {
        match event {
            DownloadEvent::Response { status, length } => {
                let offset: u64 = match self.phase {
                    Phase::Asked { offset } => offset,
                    _ => 0,
                };
                let (phase, action): (Phase, DownloadAction) = Download::answer(
                    offset,
                    status,
                    length,
                );
                self.phase = phase;
                action
            },
            DownloadEvent::Cancelled => {
                self.phase = Phase::Over;
                DownloadAction::Fail(ModelManagerError::Cancelled)
            },
            DownloadEvent::Chunk(n) => {
                if n == 0 {
                    self.phase = Phase::Validating;
                    return DownloadAction::Validate;
                }
                let (had, total): (u64, Option<u64>) = match self.phase {
                    Phase::Receiving { bytes, total } => (bytes, total),
                    _ => (0, None),
                };
                let bytes: u64 = had + n as u64;
                self.phase = Phase::Receiving { bytes, total };
                DownloadAction::Store(
                    DownloadProgress { bytes_downloaded: bytes, total_bytes: total },
                )
            },
            DownloadEvent::Verdict(verdict) => {
                self.phase = Phase::Over;
                finalize_download(verdict)
            },
        }
    }
}

/// What becomes of a completed partial file: it goes into place if it was
/// found to be a model, and is deleted otherwise. This is the guard against
/// phantom "installed" models.
pub fn finalize_download(verdict: Result<(), ModelValidationError>) -> (action: DownloadAction)
    ensures
        action == match verdict {
            Ok(_) => DownloadAction::Promote,
            Err(e) => DownloadAction::Discard(ModelManagerError::Validation(e)),
        },
{
    match verdict {
        Ok(_) => DownloadAction::Promote,
        Err(e) => DownloadAction::Discard(ModelManagerError::Validation(e)),
    }
}

/// The two files that a download touches.
pub struct Disk {
    pub partial: Option<Seq<u8>>,
    pub dest: Option<Seq<u8>>,
}

/// What an action does to the files, where `data` is the chunk that arrived.
pub open spec fn performed(disk: Disk, action: DownloadAction, data: Seq<u8>) -> Disk {
    match action {
        DownloadAction::Receive { append, .. } => if append {
            disk
        } else {
            Disk { partial: Some(Seq::empty()), dest: disk.dest }
        },
        DownloadAction::Store(_) => Disk { partial: Some(disk.partial->0 + data), dest: disk.dest },
        DownloadAction::Validate => disk,
        DownloadAction::Promote => Disk { partial: None, dest: disk.partial },
        DownloadAction::Discard(_) => Disk { partial: None, dest: disk.dest },
        DownloadAction::Fail(_) => disk,
    }
}

/// Whether an event tells the truth: a chunk is as long as it says, and only a
/// partial file that passes for a model is found to be one.
pub open spec fn is_true(disk: Disk, event: DownloadEvent, data: Seq<u8>) -> bool {
    match event {
        DownloadEvent::Chunk(n) => data.len() == n,
        DownloadEvent::Verdict(verdict) => verdict is Ok ==> disk.partial is Some && is_model(
            disk.partial->0,
        ),
        _ => true,
    }
}

/// Whether a course of events is one that a download can meet with.
pub open spec fn can_happen(
    phase: Phase,
    disk: Disk,
    events: Seq<(DownloadEvent, Seq<u8>)>,
) -> bool
    decreases events.len(),
{
    events.len() == 0 || {
        let (event, data) = events[0];
        &&& can_meet(phase, event)
        &&& is_true(disk, event, data)
        &&& can_happen(
            next(phase, event).0,
            performed(disk, next(phase, event).1, data),
            events.drop_first(),
        )
    }
}

/// Where a download is, and what is on disk, after a course of events.
pub open spec fn after(phase: Phase, disk: Disk, events: Seq<(DownloadEvent, Seq<u8>)>) -> (
    Phase,
    Disk,
)
    decreases events.len(),
{
    if events.len() == 0 {
        (phase, disk)
    } else {
        let (event, data) = events[0];
        after(
            next(phase, event).0,
            performed(disk, next(phase, event).1, data),
            events.drop_first(),
        )
    }
}

/// A bad body never becomes an installed model: whatever the server sends,
/// however often the download is cancelled and wherever it breaks off, the
/// destination holds what it held or what passes for a model.
pub proof fn law_only_models_are_installed(
    phase: Phase,
    disk: Disk,
    events: Seq<(DownloadEvent, Seq<u8>)>,
)
    requires
        can_happen(phase, disk, events),
    ensures
        after(phase, disk, events).1.dest == disk.dest || (after(phase, disk, events).1.dest is Some
            && is_model(after(phase, disk, events).1.dest->0)),
    decreases events.len(),
{
    if events.len() > 0 {
        let (event, data) = events[0];
        law_only_models_are_installed(
            next(phase, event).0,
            performed(disk, next(phase, event).1, data),
            events.drop_first(),
        );
    }
}

/// Whether the phase counts the bytes of the partial file.
pub open spec fn is_counted(phase: Phase, disk: Disk) -> bool {
    match phase {
        Phase::Asked { offset } => offset == if disk.partial is Some {
            disk.partial->0.len()
        } else {
            0
        },
        Phase::Receiving { bytes, .. } => disk.partial is Some && disk.partial->0.len() == bytes,
        _ => true,
    }
}

/// The progress that is reported is the size of the partial file, also where
/// an earlier download is resumed.
pub proof fn law_progress_is_what_is_on_disk(
    phase: Phase,
    disk: Disk,
    events: Seq<(DownloadEvent, Seq<u8>)>,
)
    requires
        is_counted(phase, disk),
        can_happen(phase, disk, events),
    ensures
        is_counted(after(phase, disk, events).0, after(phase, disk, events).1),
    decreases events.len(),
{
    if events.len() > 0 {
        let (event, data) = events[0];
        law_progress_is_what_is_on_disk(
            next(phase, event).0,
            performed(disk, next(phase, event).1, data),
            events.drop_first(),
        );
    }
}

/// A resumed download puts the rest behind what was there, and one that is
/// not resumed starts over: after the answer and any number of chunks, the
/// partial file holds what it was opened with and the chunks in order.
pub proof fn law_chunks_follow_what_was_there(
    phase: Phase,
    disk: Disk,
    events: Seq<(DownloadEvent, Seq<u8>)>,
)
    requires
        phase is Receiving,
        disk.partial is Some,
        can_happen(phase, disk, events),
        forall|k: int|
            0 <= k < events.len() ==> ((#[trigger] events[k]).0 matches DownloadEvent::Chunk(n) && n
                > 0),
    ensures
        after(phase, disk, events).1.partial == Some(disk.partial->0 + arrived(events)),
    decreases events.len(),
{
    if events.len() > 0 {
        let (event, data) = events[0];
        let rest = events.drop_first();
        assert(events[0].0 is Chunk);
        assert forall|k: int| 0 <= k < rest.len() implies ((
        #[trigger] rest[k]).0 matches DownloadEvent::Chunk(n) && n > 0) by {
            assert(rest[k] == events[k + 1]);
        }
        let then = performed(disk, next(phase, event).1, data);
        law_chunks_follow_what_was_there(next(phase, event).0, then, rest);
        assert(disk.partial->0 + data + arrived(rest) == disk.partial->0 + (data + arrived(rest)));
    } else {
        assert(disk.partial->0 + Seq::<u8>::empty() == disk.partial->0);
    }
}

/// What arrived in a course of events.
pub open spec fn arrived(events: Seq<(DownloadEvent, Seq<u8>)>) -> Seq<u8>
    decreases events.len(),
{
    if events.len() == 0 {
        Seq::empty()
    } else {
        events[0].1 + arrived(events.drop_first())
    }
}

/// A download that is cancelled, or that the server refuses, leaves the
/// partial file for a later resume; one that was found to be no model does
/// not.
pub proof fn law_what_becomes_of_the_partial(
    phase: Phase,
    disk: Disk,
    event: DownloadEvent,
    data: Seq<u8>,
)
    requires
        can_meet(phase, event),
    ensures
        ({
            let (then, action) = next(phase, event);
            let left = performed(disk, action, data);
            &&& event is Cancelled ==> then is Over && left == disk
            &&& (event matches DownloadEvent::Response { status, .. } && status != 416
                && !is_success(status)) ==> then is Over && left == disk
            &&& event matches DownloadEvent::Verdict(verdict) ==> then is Over && left.partial
                is None && (verdict is Ok ==> left.dest == disk.partial) && (verdict is Err
                ==> left.dest == disk.dest)
        }),
{
}

/// A server that goes on where the partial file ends is taken at its word,
/// wherever that is: what is there stays, the progress starts with it, and the
/// whole is as long as it and the rest together.
pub proof fn law_resumed_download_goes_on(
    offset: u64,
    length: Option<u64>,
    disk: Disk,
    data: Seq<u8>,
)
    requires
        offset > 0,
        length is Some ==> offset + length->0 <= u64::MAX,
    ensures
        ({
            let (phase, action) = next(
                Phase::Asked { offset },
                DownloadEvent::Response { status: 206, length },
            );
            &&& phase is Receiving
            &&& phase->bytes == offset
            &&& action is Receive
            &&& action->append
            &&& action->progress.bytes_downloaded == offset
            &&& action->progress.total_bytes == phase->total
            &&& length is None ==> phase->total is None
            &&& length is Some ==> phase->total is Some && phase->total->0 == offset + length->0
            &&& performed(disk, action, data) == disk
        }),
{
}

/// A server that sends the whole file, or that was not asked to resume, starts
/// the partial file over, and the progress with it.
pub proof fn law_whole_body_starts_over(
    offset: u64,
    status: u16,
    length: Option<u64>,
    disk: Disk,
    data: Seq<u8>,
)
    requires
        200 <= status < 300,
        status != 206 || offset == 0,
    ensures
        ({
            let (phase, action) = next(
                Phase::Asked { offset },
                DownloadEvent::Response { status, length },
            );
            &&& phase == (Phase::Receiving { bytes: 0, total: length })
            &&& action == (DownloadAction::Receive {
                append: false,
                progress: DownloadProgress { bytes_downloaded: 0, total_bytes: length },
            })
            &&& performed(disk, action, data).partial == Some(Seq::<u8>::empty())
            &&& performed(disk, action, data).dest == disk.dest
        }),
{
}

/// A server that has nothing behind the partial file means that it is whole: it
/// is validated. Any other answer that is no success is an error, which tells
/// the status, and leaves the files as they are.
pub proof fn law_other_answers_keep_the_files(
    offset: u64,
    status: u16,
    length: Option<u64>,
    disk: Disk,
    data: Seq<u8>,
)
    requires
        status < 200 || status >= 300,
    ensures
        ({
            let (phase, action) = next(
                Phase::Asked { offset },
                DownloadEvent::Response { status, length },
            );
            &&& status == 416 ==> phase is Validating && action is Validate
            &&& status != 416 ==> phase is Over && action == DownloadAction::Fail(
                ModelManagerError::HttpStatus(status),
            )
            &&& performed(disk, action, data) == disk
        }),
{
}

/// Every chunk goes behind what is there and is counted, the whole stays as
/// long as it was said to be, and the end of the body has it validated. A
/// download that is cancelled ends at once and leaves the files as they are.
pub proof fn law_chunks_are_counted(
    bytes: u64,
    total: Option<u64>,
    n: usize,
    disk: Disk,
    data: Seq<u8>,
)
    requires
        bytes + n <= u64::MAX,
    ensures
        ({
            let here = Phase::Receiving { bytes, total };
            let (phase, action) = next(here, DownloadEvent::Chunk(n));
            let (stopped, refusal) = next(here, DownloadEvent::Cancelled);
            &&& n == 0 ==> phase is Validating && action is Validate
            &&& n > 0 ==> {
                &&& phase is Receiving
                &&& phase->bytes == bytes + n
                &&& phase->total == total
                &&& action is Store
                &&& action->Store_0.bytes_downloaded == bytes + n
                &&& action->Store_0.total_bytes == total
                &&& disk.partial is Some ==> performed(disk, action, data).partial == Some(
                    disk.partial->0 + data,
                )
                &&& performed(disk, action, data).dest == disk.dest
            }
            &&& stopped is Over
            &&& refusal == DownloadAction::Fail(ModelManagerError::Cancelled)
            &&& performed(disk, refusal, data) == disk
        }),
{
}

/// What was found to be a model is put in place, and what was not is deleted
/// and the reason told.
pub proof fn law_verdict_decides(why: ModelValidationError, disk: Disk, data: Seq<u8>)
    ensures
        ({
            let (phase, action) = next(Phase::Validating, DownloadEvent::Verdict(Ok(())));
            let (refused, removal) = next(Phase::Validating, DownloadEvent::Verdict(Err(why)));
            &&& phase is Over && refused is Over
            &&& action is Promote
            &&& performed(disk, action, data) == (Disk { partial: None, dest: disk.partial })
            &&& removal == DownloadAction::Discard(ModelManagerError::Validation(why))
            &&& performed(disk, removal, data) == (Disk { partial: None, dest: disk.dest })
        }),
{
}

/// A resumed download that runs to its end holds what was there before and then
/// all that arrived, in order; one that starts over holds what arrived.
pub proof fn law_body_is_put_together(
    offset: u64,
    status: u16,
    length: Option<u64>,
    there: Seq<u8>,
    dest: Option<Seq<u8>>,
    chunks: Seq<(DownloadEvent, Seq<u8>)>,
)
    requires
        200 <= status < 300,
        offset == there.len(),
        ({
            let disk = Disk { partial: Some(there), dest };
            let (phase, action) = next(
                Phase::Asked { offset },
                DownloadEvent::Response { status, length },
            );
            can_happen(phase, performed(disk, action, Seq::empty()), chunks)
        }),
        forall|k: int|
            0 <= k < chunks.len() ==> ((#[trigger] chunks[k]).0 matches DownloadEvent::Chunk(n) && n
                > 0),
    ensures
        ({
            let disk = Disk { partial: Some(there), dest };
            let (phase, action) = next(
                Phase::Asked { offset },
                DownloadEvent::Response { status, length },
            );
            let end = after(phase, performed(disk, action, Seq::empty()), chunks).1;
            end.partial == Some(
                if status == 206 {
                    there + arrived(chunks)
                } else {
                    arrived(chunks)
                },
            )
        }),
{
    let disk = Disk { partial: Some(there), dest };
    let (phase, action) = next(Phase::Asked { offset }, DownloadEvent::Response { status, length });
    let start = performed(disk, action, Seq::empty());
    law_chunks_follow_what_was_there(phase, start, chunks);
    assert(Seq::<u8>::empty() + arrived(chunks) == arrived(chunks));
    if there.len() == 0 {
        assert(there + arrived(chunks) == arrived(chunks));
    }
}

/// The rest of a file is asked for with its first missing byte.
pub proof fn law_range_names_the_first_missing_byte(offset: u64)
    ensures
        range_from(offset).take(6) == "bytes="@,
        range_from(offset).subrange(6, range_from(offset).len() - 1) == decimal(offset as nat),
        range_from(offset).last() == '-',
{
    reveal_strlit("bytes=");
    reveal_strlit("-");
    assert(range_from(offset).take(6) == "bytes="@);
    assert(range_from(offset).subrange(6, range_from(offset).len() - 1) == decimal(offset as nat));
}

/// A download meets with the answer first, then with the body or a cancel, and
/// at last with what the partial file was found to be. It takes each of them
/// wherever the bytes can be counted.
pub proof fn law_events_come_in_order(
    offset: u64,
    bytes: u64,
    total: Option<u64>,
    status: u16,
    length: Option<u64>,
    n: usize,
    verdict: Result<(), ModelValidationError>,
)
    ensures
        can_meet(Phase::Asked { offset }, DownloadEvent::Response { status, length }) <==> status
            != 206 || length is None || offset + length->0 <= u64::MAX,
        can_meet(Phase::Receiving { bytes, total }, DownloadEvent::Cancelled),
        can_meet(Phase::Receiving { bytes, total }, DownloadEvent::Chunk(n)) <==> bytes + n
            <= u64::MAX,
        can_meet(Phase::Validating, DownloadEvent::Verdict(verdict)),
{
}

} // verus!
