//! The development loop: which file-system events ask for a rebuild, when the
//! loop rebuilds, and which file answers a request.
//!
//! Watching, waiting, building and serving are done by the caller. The
//! watcher hands each debounced batch of events to [`should_notify`]; the
//! loop hands each thing that happened to [`DevLoop::step`] and does what it
//! answers; the server asks [`served_path`] which file to read, and
//! [`answer`] what to send. A request whose URL climbs above the output
//! root is answered as not found before anything is read.

use vstd::prelude::*;
use crate::paths::{is_separator, path_extension, path_file_name, path_join, path_starts_with};
use crate::text::{chars_of, first_where, lemma_first_where, str_eq, strip_leading, trim_leading};

verus! {

/// How the watcher came to report a path.
#[derive(Debug, Clone, Copy, PartialEq, Eq, Structural)]
pub enum ChangeKind {
    /// Some change, now at rest.
    Any,
    /// Some change, with more still arriving.
    Continuous,
}

/// One change reported by the watcher.
#[derive(Debug)]
pub struct WatchEvent {
    /// The path as reported.
    pub path: String,
    /// The same path in canonical form, where it could be resolved.
    pub canonical: Option<String>,
    pub kind: ChangeKind,
}

/// What [`should_notify`] reads of an event: its canonical path.
pub open spec fn canonical_of(e: WatchEvent) -> Option<Seq<char>> {
    crate::text::opt_view(e.canonical)
}

/// What the watcher delivers at the end of one debounce window.
#[derive(Debug)]
pub enum WatchBatch {
    /// The changes seen during the window.
    Events(Vec<WatchEvent>),
    /// The watch itself failed.
    Error,
}

/// File names that editors and tools write beside the real files: hidden
/// files, backups ending in `~`, and swap files ending in `.swp`.
pub open spec fn is_noise_name(name: Seq<char>) -> bool {
    ||| (name.len() > 0 && name[0] == '.')
    ||| (name.len() > 0 && name.last() == '~')
    ||| (name.len() >= 4 && name.subrange(name.len() - 4, name.len() as int) == seq![
        '.',
        's',
        'w',
        'p',
    ])
}

/// The extensions of content, configuration, template and asset files.
pub open spec fn is_watched_extension(ext: Seq<char>) -> bool {
    ||| ext == "md"@
    ||| ext == "toml"@
    ||| ext == "html"@
    ||| ext == "css"@
    ||| ext == "js"@
}

/// Whether `path` has one of the watched extensions.
pub open spec fn has_watched_extension(path: Seq<char>) -> bool {
    path_extension(path) matches Some(ext) && is_watched_extension(ext)
}

/// Whether a path passes the filter, given what is known of it: whether it
/// lies in the output directory and in the source directory, its file name
/// and its extension. It passes if it lies in the source directory and not in
/// the output directory, is no hidden, backup or swap file, and has a watched
/// extension.
pub open spec fn passes(
    in_out_dir: bool,
    in_src_dir: bool,
    name: Option<Seq<char>>,
    ext: Option<Seq<char>>,
) -> bool {
    &&& !in_out_dir
    &&& in_src_dir
    &&& !(name matches Some(n) && is_noise_name(n))
    &&& (ext matches Some(e) && is_watched_extension(e))
}

/// Whether a change at the canonical path `canonical` asks for a rebuild: the
/// path was resolved and passes the filter.
pub open spec fn qualifies(src_dir: Seq<char>, out_dir: Seq<char>, canonical: Option<Seq<char>>) -> bool {
    canonical matches Some(p) && passes(
        path_starts_with(p, out_dir),
        path_starts_with(p, src_dir),
        path_file_name(p),
        path_extension(p),
    )
}

/// Whether some event of the batch qualifies.
pub open spec fn some_qualifies(src_dir: Seq<char>, out_dir: Seq<char>, events: Seq<WatchEvent>) -> bool {
    exists|i: int|
        0 <= i < events.len() && qualifies(src_dir, out_dir, canonical_of(#[trigger] events[i]))
}

/// The number of rebuild notifications that one batch gives rise to: one for
/// a batch with a qualifying event, however many it holds, and one for a
/// failed watch; none otherwise.
pub open spec fn notification_count(src_dir: Seq<char>, out_dir: Seq<char>, batch: WatchBatch) -> nat {
    match batch {
        WatchBatch::Error => 1,
        WatchBatch::Events(events) => if some_qualifies(src_dir, out_dir, events@) {
            1
        } else {
            0
        },
    }
}

/// Decides [`is_noise_name`].
pub fn noise_name(name: &str) -> (r: bool)
    ensures
        r == is_noise_name(name@),
{
    let n = chars_of(name);
    let len = n.len();
    if len == 0 {
        return false;
    }
    if n[0] == '.' || n[len - 1] == '~' {
        return true;
    }
    if len < 4 {
        return false;
    }
    let r = n[len - 4] == '.' && n[len - 3] == 's' && n[len - 2] == 'w' && n[len - 1] == 'p';
    proof {
        let tail = name@.subrange(len - 4, len as int);
        let swp = seq!['.', 's', 'w', 'p'];
        if r {
            assert(tail =~= swp);
        } else {
            assert(tail[0] == name@[len - 4] && tail[1] == name@[len - 3] && tail[2] == name@[len
                - 2] && tail[3] == name@[len - 1]);
            assert(swp[0] == '.' && swp[1] == 's' && swp[2] == 'w' && swp[3] == 'p');
        }
    }
    r
}

/// Decides [`is_watched_extension`].
pub fn watched_extension(ext: &str) -> (r: bool)
    ensures
        r == is_watched_extension(ext@),
{
    str_eq(ext, "md") || str_eq(ext, "toml") || str_eq(ext, "html") || str_eq(ext, "css")
        || str_eq(ext, "js")
}

/// Decides [`passes`].
pub fn passes_filter(in_out_dir: bool, in_src_dir: bool, name: Option<&str>, ext: Option<&str>) -> (r:
    bool)
    ensures
        r == passes(
            in_out_dir,
            in_src_dir,
            match name {
                Some(s) => Some(s@),
                None => None,
            },
            match ext {
                Some(s) => Some(s@),
                None => None,
            },
        ),
{
    if in_out_dir || !in_src_dir {
        return false;
    }
    match name {
        Some(name) => {
            if noise_name(name) {
                return false;
            }
        },
        None => {},
    }
    match ext {
        Some(ext) => watched_extension(ext),
        None => false,
    }
}

/// Decides whether one event asks for a rebuild; see [`qualifies`].
pub fn event_qualifies(src_dir: &str, out_dir: &str, event: &WatchEvent) -> (r: bool)
    ensures
        r == qualifies(src_dir@, out_dir@, canonical_of(*event)),
{
    let p = match &event.canonical {
        Some(p) => p.as_str(),
        None => {
            return false;
        },
    };
    let name = crate::paths::file_name(p);
    let ext = crate::paths::extension(p);
    passes_filter(
        crate::paths::starts_with(p, out_dir),
        crate::paths::starts_with(p, src_dir),
        match &name {
            Some(s) => Some(s.as_str()),
            None => None,
        },
        match &ext {
            Some(s) => Some(s.as_str()),
            None => None,
        },
    )
}

/// Whether a batch from the watcher gives rise to a rebuild notification. A
/// batch never gives rise to more than one.
pub fn should_notify(src_dir: &str, out_dir: &str, batch: &WatchBatch) -> (notify: bool)
    ensures
        notify == (notification_count(src_dir@, out_dir@, *batch) == 1),
        !notify == (notification_count(src_dir@, out_dir@, *batch) == 0),
{
    match batch {
        WatchBatch::Error => true,
        WatchBatch::Events(events) => {
            let mut i: usize = 0;
            while i < events.len()
                invariant
                    i <= events.len(),
                    *batch == WatchBatch::Events(*events),
                    forall|j: int|
                        0 <= j < i ==> !qualifies(
                            src_dir@,
                            out_dir@,
                            canonical_of(#[trigger] events@[j]),
                        ),
                decreases events.len() - i,
            {
                if event_qualifies(src_dir, out_dir, &events[i]) {
                    return true;
                }
                i += 1;
            }
            false
        },
    }
}

/// Debounce. A batch of any number of events, all within one window, of which
/// at least one qualifies, gives rise to exactly one notification.
pub proof fn law_burst_notifies_once(
    src_dir: Seq<char>,
    out_dir: Seq<char>,
    events: Vec<WatchEvent>,
    i: int,
)
    requires
        0 <= i < events@.len(),
        qualifies(src_dir, out_dir, canonical_of(events@[i])),
    ensures
        notification_count(src_dir, out_dir, WatchBatch::Events(events)) == 1,
{
}

/// Filter correctness. A batch in which every event lies in the output
/// directory, or lacks a watched extension, or is a hidden, backup or swap
/// file, gives rise to no notification.
pub proof fn law_noise_never_notifies(src_dir: Seq<char>, out_dir: Seq<char>, events: Vec<WatchEvent>)
    requires
        forall|i: int|
            0 <= i < events@.len() ==> match canonical_of(#[trigger] events@[i]) {
                Some(p) => {
                    ||| path_starts_with(p, out_dir)
                    ||| !has_watched_extension(p)
                    ||| (path_file_name(p) matches Some(name) && is_noise_name(name))
                },
                None => true,
            },
    ensures
        notification_count(src_dir, out_dir, WatchBatch::Events(events)) == 0,
{
}

/// A file of the source tree and when it was last modified, in nanoseconds
/// since the epoch, where that is known.
#[derive(Debug)]
pub struct FileStamp {
    pub path: String,
    pub modified: Option<u128>,
}

/// Whether a file warrants a rebuild after a build at `since`: it was
/// modified later. A file modified at `since` itself does not.
pub open spec fn is_newer(file: FileStamp, since: u128) -> bool {
    file.modified matches Some(m) && m > since
}

/// Whether any of `files`, whatever its kind, was modified after `since`. A
/// file without a known modification time counts as not modified.
pub fn has_changes_since(files: &Vec<FileStamp>, since: u128) -> (changed: bool)
    ensures
        changed == exists|i: int| 0 <= i < files@.len() && is_newer(#[trigger] files@[i], since),
{
    let mut i: usize = 0;
    while i < files.len()
        invariant
            i <= files.len(),
            forall|j: int| 0 <= j < i ==> !is_newer(#[trigger] files@[j], since),
        decreases files.len() - i,
    {
        match files[i].modified {
            Some(m) => {
                if m > since {
                    return true;
                }
            },
            None => {},
        }
        i += 1;
    }
    false
}

/// Where the development loop stands.
#[derive(Debug, Clone, Copy, PartialEq, Eq, Structural)]
pub enum LoopState {
    /// Waiting for a notification.
    Idle,
    /// A notification came; checking whether anything changed since the last
    /// build.
    Verifying,
    /// Something changed; the build runs.
    Rebuilding,
    /// The notification source is closed; the loop is over.
    Stopped,
}

/// What happened since the loop last answered.
#[derive(Debug, Clone, Copy, PartialEq, Eq, Structural)]
pub enum LoopEvent {
    /// A rebuild notification arrived.
    Notified,
    /// The notification source was closed.
    Closed,
    /// The check for newer files ended.
    Verified { changed: bool },
    /// The build ended, at this time.
    Rebuilt { finished_at: u128 },
}

/// What the caller of the loop does next.
#[derive(Debug, Clone, Copy, PartialEq, Eq, Structural)]
pub enum LoopAction {
    /// Block until the next notification.
    Wait,
    /// Drain the notifications that are queued, then look for a file
    /// modified after `since`.
    Verify { since: u128 },
    /// Run the build.
    Rebuild,
    /// Sleep for `millis`, drain the notifications that came in during the
    /// build, then block until the next one.
    Settle { millis: u64 },
    /// Join the server and leave.
    Exit,
}

/// The delay after a rebuild, in milliseconds.
pub const SETTLE_MILLIS: u64 = 100;

/// The development loop: its state and the time of the last build.
#[derive(Debug, Clone, Copy, PartialEq, Eq, Structural)]
pub struct DevLoop {
    pub state: LoopState,
    pub last_build: u128,
}

/// What a state asks of the caller while nothing new has happened.
pub open spec fn pending(l: DevLoop) -> LoopAction {
    match l.state {
        LoopState::Idle => LoopAction::Wait,
        LoopState::Verifying => LoopAction::Verify { since: l.last_build },
        LoopState::Rebuilding => LoopAction::Rebuild,
        LoopState::Stopped => LoopAction::Exit,
    }
}

/// The loop after `event`, and what the caller does next.
///
/// A notification takes the idle loop to verifying. A check that found
/// nothing newer takes it back to idle: the wake was spurious. A check that
/// found a newer file takes it to rebuilding. The end of the build takes it
/// back to idle, with the time of the last build moved to the end of this
/// one. A closed notification source stops the loop in any state. An event
/// that the state does not wait for changes nothing.
pub open spec fn transition(l: DevLoop, event: LoopEvent) -> (DevLoop, LoopAction) {
    match (l.state, event) {
        (LoopState::Stopped, _) => (l, LoopAction::Exit),
        (_, LoopEvent::Closed) => (
            DevLoop { state: LoopState::Stopped, last_build: l.last_build },
            LoopAction::Exit,
        ),
        (LoopState::Idle, LoopEvent::Notified) => (
            DevLoop { state: LoopState::Verifying, last_build: l.last_build },
            LoopAction::Verify { since: l.last_build },
        ),
        (LoopState::Verifying, LoopEvent::Verified { changed }) => if changed {
            (DevLoop { state: LoopState::Rebuilding, last_build: l.last_build }, LoopAction::Rebuild)
        } else {
            (DevLoop { state: LoopState::Idle, last_build: l.last_build }, LoopAction::Wait)
        },
        (LoopState::Rebuilding, LoopEvent::Rebuilt { finished_at }) => (
            DevLoop { state: LoopState::Idle, last_build: finished_at },
            LoopAction::Settle { millis: SETTLE_MILLIS },
        ),
        _ => (l, pending(l)),
    }
}

impl DevLoop {
    /// The loop after the first build, which ended at `built_at`: idle.
    pub fn start(built_at: u128) -> (l: DevLoop)
        ensures
            l == (DevLoop { state: LoopState::Idle, last_build: built_at }),
    {
        DevLoop { state: LoopState::Idle, last_build: built_at }
    }

    /// Takes in `event` and answers what to do next; see [`transition`].
    pub fn step(&mut self, event: LoopEvent) -> (action: LoopAction)
        ensures
            (*final(self), action) == transition(*old(self), event),
    {
        let here = self.state;
        match (here, event) {
            (LoopState::Stopped, _) => LoopAction::Exit,
            (_, LoopEvent::Closed) => {
                self.state = LoopState::Stopped;
                LoopAction::Exit
            },
            (LoopState::Idle, LoopEvent::Notified) => {
                self.state = LoopState::Verifying;
                LoopAction::Verify { since: self.last_build }
            },
            (LoopState::Verifying, LoopEvent::Verified { changed }) => {
                if changed {
                    self.state = LoopState::Rebuilding;
                    LoopAction::Rebuild
                } else {
                    self.state = LoopState::Idle;
                    LoopAction::Wait
                }
            },
            (LoopState::Rebuilding, LoopEvent::Rebuilt { finished_at }) => {
                self.state = LoopState::Idle;
                self.last_build = finished_at;
                LoopAction::Settle { millis: SETTLE_MILLIS }
            },
            (LoopState::Idle, _) => LoopAction::Wait,
            (LoopState::Verifying, _) => LoopAction::Verify { since: self.last_build },
            (LoopState::Rebuilding, _) => LoopAction::Rebuild,
        }
    }
}

/// A spurious wake changes nothing: an idle loop that is notified and finds
/// no newer file is the loop it was.
pub proof fn law_spurious_wake_is_ignored(l: DevLoop)
    requires
        l.state == LoopState::Idle,
    ensures
        transition(transition(l, LoopEvent::Notified).0, LoopEvent::Verified { changed: false })
            == (l, LoopAction::Wait),
{
}

/// A real change is built: an idle loop that is notified, finds a newer file
/// and sees the build end at `finished_at` is idle again, with that time as
/// the time of its last build, and settles before it waits.
pub proof fn law_change_is_rebuilt(l: DevLoop, finished_at: u128)
    requires
        l.state == LoopState::Idle,
    ensures
        ({
            let verifying = transition(l, LoopEvent::Notified);
            let rebuilding = transition(verifying.0, LoopEvent::Verified { changed: true });
            let idle = transition(rebuilding.0, LoopEvent::Rebuilt { finished_at });
            &&& verifying.1 == LoopAction::Verify { since: l.last_build }
            &&& rebuilding.1 == LoopAction::Rebuild
            &&& idle.1 == LoopAction::Settle { millis: SETTLE_MILLIS }
            &&& idle.0 == DevLoop { state: LoopState::Idle, last_build: finished_at }
        }),
{
}

/// The time of the last build moves only when a rebuild ends, and then to
/// the end of that rebuild.
pub proof fn law_last_build_moves_on_rebuild(l: DevLoop, event: LoopEvent)
    ensures
        transition(l, event).0.last_build != l.last_build ==> l.state == LoopState::Rebuilding
            && event == (LoopEvent::Rebuilt { finished_at: transition(l, event).0.last_build }),
{
}

/// The loop enters a rebuild only from a check that found a newer file.
pub proof fn law_rebuild_follows_a_found_change(l: DevLoop, event: LoopEvent)
    requires
        l.state != LoopState::Rebuilding,
        transition(l, event).0.state == LoopState::Rebuilding,
    ensures
        l.state == LoopState::Verifying,
        event == (LoopEvent::Verified { changed: true }),
{
}

/// The rebuild signal between the watcher and the loop: one slot, so that
/// any number of notifications that are not yet consumed count as one.
#[derive(Debug, Clone, Copy, PartialEq, Eq, Structural)]
pub struct RebuildSignal {
    /// A notification waits to be consumed.
    pub pending: bool,
    /// The watcher is gone; nothing will be raised any more.
    pub closed: bool,
}

/// The signal after `n` notifications were raised on `s`.
pub open spec fn raised(s: RebuildSignal, n: nat) -> RebuildSignal
    decreases n,
{
    if n == 0 {
        s
    } else {
        RebuildSignal { pending: true, closed: raised(s, (n - 1) as nat).closed }
    }
}

/// What the loop consumes from the signal, and the signal after it: a
/// pending notification before all else, then the closing, else nothing.
pub open spec fn taken(s: RebuildSignal) -> (RebuildSignal, Option<LoopEvent>) {
    if s.pending {
        (RebuildSignal { pending: false, closed: s.closed }, Some(LoopEvent::Notified))
    } else if s.closed {
        (s, Some(LoopEvent::Closed))
    } else {
        (s, None)
    }
}

/// Coalescing. However many notifications were raised since the loop last
/// consumed one, as long as there was one, the loop consumes exactly one:
/// after it nothing is pending.
pub proof fn law_signal_coalesces(s: RebuildSignal, n: nat)
    requires
        n >= 1,
    ensures
        taken(raised(s, n)).1 == Some(LoopEvent::Notified),
        !taken(raised(s, n)).0.pending,
        taken(raised(s, n)).0.closed == s.closed,
        taken(taken(raised(s, n)).0).1 != Some(LoopEvent::Notified),
    decreases n,
{
    if n > 1 {
        law_signal_coalesces(s, (n - 1) as nat);
    } else {
        assert(raised(s, 0) == s);
    }
}

impl RebuildSignal {
    /// A signal with nothing pending, open.
    pub fn new() -> (s: RebuildSignal)
        ensures
            s == (RebuildSignal { pending: false, closed: false }),
    {
        RebuildSignal { pending: false, closed: false }
    }

    /// Raises a notification. One that is pending already absorbs it.
    pub fn raise(&mut self)
        ensures
            *final(self) == raised(*old(self), 1),
    {
        assert(raised(*self, 0) == *self);
        self.pending = true;
    }

    /// Closes the signal: the watcher is gone.
    pub fn close(&mut self)
        ensures
            *final(self) == (RebuildSignal { pending: old(self).pending, closed: true }),
    {
        self.closed = true;
    }

    /// Consumes what is pending; see [`taken`]. `None` tells the loop to
    /// wait.
    pub fn take(&mut self) -> (event: Option<LoopEvent>)
        ensures
            (*final(self), event) == taken(*old(self)),
    {
        if self.pending {
            self.pending = false;
            Some(LoopEvent::Notified)
        } else if self.closed {
            Some(LoopEvent::Closed)
        } else {
            None
        }
    }

    /// Drops a pending notification, if there is one.
    pub fn drain(&mut self)
        ensures
            *final(self) == (RebuildSignal { pending: false, closed: old(self).closed }),
    {
        self.pending = false;
    }
}

/// The media type that `mime_guess` gives for a path, by its extension;
/// `application/octet-stream` where it knows none.
pub uninterp spec fn guessed_mime(path: Seq<char>) -> Seq<char>;

/// Trusted: calls `mime_guess::from_path` and
/// `MimeGuess::first_or_octet_stream`; the result, as text, is the one named
/// by [`guessed_mime`]. The disk is not read.
#[verifier::external_body]
fn mime_of(path: &str) -> (mime: String)
    ensures
        mime@ == guessed_mime(path@),
{
    mime_guess::from_path(path).first_or_octet_stream().as_ref().to_string()
}

/// The content type under which the file at `path` is served.
pub fn content_type(path: &str) -> (mime: String)
    ensures
        mime@ == guessed_mime(path@),
{
    mime_of(path)
}

/// The name of the file that stands for a directory.
pub open spec fn index_name() -> Seq<char> {
    "index.html"@
}

/// The characters that separate the segments of a URL.
pub open spec fn a_separator() -> spec_fn(char) -> bool {
    |c: char| is_separator(c)
}

/// The segments of a URL: the pieces between its separators, without them.
pub open spec fn segments(url: Seq<char>) -> Seq<Seq<char>>
    decreases url.len(),
{
    let n = first_where(url, a_separator());
    if 0 <= n < url.len() {
        seq![url.take(n)] + segments(url.skip(n + 1))
    } else {
        seq![url]
    }
}

/// What a segment does to the depth below the start: `..` goes up by one, an
/// empty segment and `.` stay, any other segment goes down by one.
pub open spec fn step(segment: Seq<char>) -> int {
    if segment == seq!['.', '.'] {
        -1
    } else if segment.len() == 0 || segment == seq!['.'] {
        0
    } else {
        1
    }
}

/// The depth below the start after the first `n` segments.
pub open spec fn depth(segs: Seq<Seq<char>>, n: int) -> int
    decreases n,
{
    if n <= 0 {
        0
    } else {
        depth(segs, n - 1) + step(segs[n - 1])
    }
}

/// Whether a URL climbs above its start: after some segment it has gone up
/// more often than down. A URL that goes up and stays below its start, as
/// `/a/../b/` does, does not climb.
pub open spec fn climbs(url: Seq<char>) -> bool {
    exists|n: int| 0 <= n <= segments(url).len() && #[trigger] depth(segments(url), n) < 0
}

/// The views of a list of segments.
pub open spec fn segment_views(segs: Seq<Vec<char>>) -> Seq<Seq<char>> {
    Seq::new(segs.len(), |i: int| segs[i]@)
}

/// The file that a request for `url` is answered from when nothing is known
/// of the disk: the URL without its leading slashes, below `out_root`.
pub open spec fn requested(out_root: Seq<char>, url: Seq<char>) -> Seq<char> {
    path_join(out_root, strip_leading(url, '/'))
}

/// Whether a request is answered from an index file: its URL ends in a
/// slash, or the requested path is a directory.
pub open spec fn wants_index(url: Seq<char>, is_dir: bool) -> bool {
    (url.len() > 0 && url.last() == '/') || is_dir
}

/// The file that answers a request for `url`: the requested path, or the
/// index file in it.
pub open spec fn served(out_root: Seq<char>, url: Seq<char>, is_dir: bool) -> Seq<char> {
    if wants_index(url, is_dir) {
        path_join(requested(out_root, url), index_name())
    } else {
        requested(out_root, url)
    }
}

/// Decides [`wants_index`].
pub fn asks_for_index(url: &str, is_dir: bool) -> (r: bool)
    ensures
        r == wants_index(url@, is_dir),
{
    let chars = chars_of(url);
    (chars.len() > 0 && chars[chars.len() - 1] == '/') || is_dir
}

fn split_segments(u: &Vec<char>) -> (out: Vec<Vec<char>>)
    ensures
        segment_views(out@) == segments(u@),
{
    let mut out: Vec<Vec<char>> = Vec::new();
    let mut pos: usize = 0;
    let mut done = false;
    assert(u@.skip(0) == u@);
    assert(segment_views(out@) + segments(u@) =~= segments(u@));
    while !done
        invariant
            pos <= u.len(),
            !done ==> segments(u@) == segment_views(out@) + segments(u@.skip(pos as int)),
            done ==> segments(u@) == segment_views(out@),
        decreases (u.len() - pos) + (if done { 0int } else { 1int }),
    {
        let ghost here = u@.skip(pos as int);
        let ghost before = segment_views(out@);
        let mut end: usize = pos;
        let mut seg: Vec<char> = Vec::new();
        while end < u.len() && !(u[end] == '/' || u[end] == '\\')
            invariant
                pos <= end <= u.len(),
                here == u@.skip(pos as int),
                seg@ == here.take(end - pos),
                forall|i: int| 0 <= i < end - pos ==> !is_separator(#[trigger] here[i]),
            decreases u.len() - end,
        {
            seg.push(u[end]);
            assert(here.take(end + 1 - pos) == here.take(end - pos).push(here[end - pos]));
            end += 1;
        }
        proof {
            lemma_first_where(here, a_separator(), end - pos);
        }
        out.push(seg);
        if end < u.len() {
            assert(here.skip(end - pos + 1) == u@.skip(end + 1));
            assert(segment_views(out@) =~= before + seq![here.take(end - pos)]);
            assert(before + (seq![here.take(end - pos)] + segments(u@.skip(end + 1)))
                =~= segment_views(out@) + segments(u@.skip(end + 1)));
            pos = end + 1;
        } else {
            assert(here.take(end - pos) == here);
            assert(segment_views(out@) =~= before + seq![here]);
            done = true;
        }
    }
    out
}

fn segment_step(segment: &Vec<char>) -> (r: i8)
    ensures
        r == step(segment@),
{
    if segment.len() == 0 {
        0
    } else if segment.len() == 1 && segment[0] == '.' {
        assert(segment@ =~= seq!['.']);
        0
    } else if segment.len() == 2 && segment[0] == '.' && segment[1] == '.' {
        assert(segment@ =~= seq!['.', '.']);
        -1
    } else {
        proof {
            if segment@ == seq!['.'] {
                assert(segment@.len() == 1 && segment@[0] == '.');
            }
            if segment@ == seq!['.', '.'] {
                assert(segment@.len() == 2 && segment@[0] == '.' && segment@[1] == '.');
            }
        }
        1
    }
}

/// Decides [`climbs`].
pub fn url_climbs(url: &str) -> (r: bool)
    ensures
        r == climbs(url@),
{
    let u = chars_of(url);
    let segs = split_segments(&u);
    let ghost sv = segments(url@);
    let mut below: usize = 0;
    let mut i: usize = 0;
    while i < segs.len()
        invariant
            i <= segs.len(),
            sv == segment_views(segs@),
            sv == segments(url@),
            below == depth(sv, i as int),
            below <= i,
            forall|n: int| 0 <= n <= i ==> #[trigger] depth(sv, n) >= 0,
        decreases segs.len() - i,
    {
        let by = segment_step(&segs[i]);
        assert(sv[i as int] == segs@[i as int]@);
        assert(depth(sv, i + 1) == depth(sv, i as int) + step(sv[i as int]));
        if by < 0 {
            if below == 0 {
                assert(depth(sv, i + 1) < 0);
                return true;
            }
            below -= 1;
        } else if by > 0 {
            below += 1;
        }
        i += 1;
    }
    false
}

/// Whether a request for `url` is answered from below the output root: its
/// URL does not climb. A request for which this is false is answered as not
/// found, and nothing is read for it.
pub fn stays_below_root(url: &str) -> (ok: bool)
    ensures
        ok == !climbs(url@),
{
    !url_climbs(url)
}

/// The path to look at for a request, before anything is known of the
/// disk: [`requested`], and nothing for a URL that climbs above the root.
pub fn requested_path(out_root: &str, url: &str) -> (path: Option<String>)
    ensures
        crate::text::opt_view(path) == (if climbs(url@) {
            None
        } else {
            Some(requested(out_root@, url@))
        }),
{
    if !stays_below_root(url) {
        return None;
    }
    let rel = trim_leading(url, '/');
    Some(crate::paths::join(out_root, rel.as_str()))
}

/// The file that answers a request, given whether the requested path is a
/// directory: [`served`], and nothing for a URL that climbs above the
/// root.
pub fn served_path(out_root: &str, url: &str, is_dir: bool) -> (path: Option<String>)
    ensures
        crate::text::opt_view(path) == (if climbs(url@) {
            None
        } else {
            Some(served(out_root@, url@, is_dir))
        }),
{
    match requested_path(out_root, url) {
        None => None,
        Some(direct) => {
            if asks_for_index(url, is_dir) {
                Some(crate::paths::join(direct.as_str(), "index.html"))
            } else {
                Some(direct)
            }
        },
    }
}

/// The answer to a request.
#[derive(Debug, PartialEq, Eq)]
pub struct Response {
    pub status: u16,
    pub content_type: Option<String>,
    pub body: Vec<u8>,
}

/// The body of the answer to a request that no file matches.
pub open spec fn not_found_body() -> Seq<u8> {
    seq![52u8, 48, 52, 32, 78, 111, 116, 32, 70, 111, 117, 110, 100]
}

/// What a request is answered with, given whether the requested path is a
/// directory and what could be read of the file that serves it.
///
/// A URL that climbs above the output root is answered with status 404 and the
/// fixed body, whatever was read. So is a request whose file could not be
/// opened. Any other request is answered with status 200, the content of the
/// file, and the content type of the path that [`served`] gives.
pub open spec fn answered(
    out_root: Seq<char>,
    url: Seq<char>,
    is_dir: bool,
    file: Option<Seq<u8>>,
    r: Response,
) -> bool {
    match file {
        Some(content) if !climbs(url) => {
            &&& r.status == 200
            &&& crate::text::opt_view(r.content_type) == Some(
                guessed_mime(served(out_root, url, is_dir)),
            )
            &&& r.body@ == content
        },
        _ => {
            &&& r.status == 404
            &&& r.content_type is None
            &&& r.body@ == not_found_body()
        },
    }
}

/// A URL that climbs above the output root gets the fixed answer, whatever
/// was read for it.
pub proof fn law_climbing_is_not_found(
    out_root: Seq<char>,
    url: Seq<char>,
    is_dir: bool,
    file: Option<Seq<u8>>,
    r: Response,
)
    requires
        climbs(url),
        answered(out_root, url, is_dir, file, r),
    ensures
        r.status == 404,
        r.body@ == not_found_body(),
{
}

/// Going up and coming back is no climbing: a URL in which every `..` is
/// made good by an earlier ordinary segment stays below the root.
pub proof fn law_depth_decides(url: Seq<char>)
    ensures
        !climbs(url) <==> forall|n: int|
            0 <= n <= segments(url).len() ==> #[trigger] depth(segments(url), n) >= 0,
{
}

/// A URL without a `..` segment never climbs.
pub proof fn law_without_parent_segments_stays_below(url: Seq<char>)
    requires
        forall|i: int| 0 <= i < segments(url).len() ==> #[trigger] segments(url)[i] != seq!['.', '.'],
    ensures
        !climbs(url),
{
    let segs = segments(url);
    assert forall|n: int| 0 <= n <= segs.len() implies #[trigger] depth(segs, n) >= 0 by {
        lemma_depth_without_parents(segs, n);
    }
}

proof fn lemma_depth_without_parents(segs: Seq<Seq<char>>, n: int)
    requires
        0 <= n <= segs.len(),
        forall|i: int| 0 <= i < segs.len() ==> #[trigger] segs[i] != seq!['.', '.'],
    ensures
        depth(segs, n) >= 0,
    decreases n,
{
    if n > 0 {
        lemma_depth_without_parents(segs, n - 1);
        assert(segs[n - 1] != seq!['.', '.']);
    }
}

/// The answer to a request for `url`, given whether the requested path is a
/// directory and the content of the file at [`served_path`] where it could
/// be opened; see [`answered`].
pub fn answer(out_root: &str, url: &str, is_dir: bool, file: Option<Vec<u8>>) -> (r: Response)
    ensures
        answered(
            out_root@,
            url@,
            is_dir,
            match file {
                Some(content) => Some(content@),
                None => None,
            },
            r,
        ),
{
    match served_path(out_root, url, is_dir) {
        Some(path) => respond(true, path.as_str(), file),
        None => respond(false, out_root, None),
    }
}

/// The answer to a request, given what is known of it: whether its URL stays
/// below the output root, the path that serves it, and the content of that
/// file where it could be opened. Where the URL stays below the root and the
/// file was opened, the answer is status 200 with the content and the
/// content type of the path; in every other case status 404 with the body
/// `404 Not Found`.
pub fn respond(below_root: bool, path: &str, file: Option<Vec<u8>>) -> (r: Response)
    ensures
        match file {
            Some(content) if below_root => {
                &&& r.status == 200
                &&& crate::text::opt_view(r.content_type) == Some(guessed_mime(path@))
                &&& r.body@ == content@
            },
            _ => {
                &&& r.status == 404
                &&& r.content_type is None
                &&& r.body@ == not_found_body()
            },
        },
{
    match file {
        Some(content) if below_root => Response {
            status: 200,
            content_type: Some(content_type(path)),
            body: content,
        },
        _ => {
            let body: Vec<u8> = vec![52u8, 48, 52, 32, 78, 111, 116, 32, 70, 111, 117, 110, 100];
            assert(body@ =~= not_found_body());
            Response { status: 404, content_type: None, body }
        },
    }
}

} // verus!
