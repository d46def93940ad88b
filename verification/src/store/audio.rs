//! Audio files, and deleting recordings together with theirs.

use crate::ids::{id_text, RecordingId};
use crate::store::{
    is_statement, statement, RecordingsStore, SqlTerm, SqlValue, Statement, DELETE_ALL_RECORDINGS,
    DELETE_RECORDING, PENDING_STATUSES_SQL, SELECT_ALL_FILE_NAMES, SELECT_FILE_NAME,
    SELECT_OUTDATED,
};
use crate::text::joined;
use vstd::prelude::*;

verus! {

/// Milliseconds in a day.
pub const MILLIS_PER_DAY: i64 = 86_400_000;

/// An audio file, by the recordings directory and its name there.
pub struct AudioFile {
    pub dir: String,
    pub name: String,
}

/// What an [`AudioFile`] stands for.
pub struct AudioFileView {
    pub dir: Seq<char>,
    pub name: Seq<char>,
}

impl View for AudioFile {
    type V = AudioFileView;

    open spec fn view(&self) -> AudioFileView {
        AudioFileView { dir: self.dir@, name: self.name@ }
    }
}

/// What a component of a path is.
#[derive(Debug, Clone, Copy, PartialEq, Eq, Structural)]
pub enum PathPart {
    Prefix,
    Root,
    Current,
    Parent,
    Normal,
}

/// Whether a name starts as a drive does on Windows: with an ASCII letter and a
/// colon.
pub open spec fn starts_with_drive(n: Seq<char>) -> bool {
    &&& n.len() >= 2
    &&& 'a' <= n[0] <= 'z' || 'A' <= n[0] <= 'Z'
    &&& n[1] == ':'
}

/// Whether `n` names a file on every platform: it is not empty, not `.` or
/// `..`, holds no separator and does not start with a drive.
pub open spec fn is_plain_name(n: Seq<char>) -> bool {
    &&& n.len() > 0
    &&& n != seq!['.']
    &&& n != seq!['.', '.']
    &&& !n.contains('/')
    &&& !n.contains('\\')
    &&& !starts_with_drive(n)
}

/// Whether a path does not start with a name, on every platform: it starts
/// with a separator, or with `.` or `..`.
pub open spec fn starts_nameless(p: Seq<char>) -> bool {
    ||| p.len() > 0 && p[0] == '/'
    ||| p == seq!['.']
    ||| p.len() > 1 && p[0] == '.' && p[1] == '/'
    ||| p == seq!['.', '.']
    ||| p.len() > 2 && p[0] == '.' && p[1] == '.' && p[2] == '/'
}

/// Where what a path starts with ends: at its first slash, or with the path.
pub open spec fn head_len(p: Seq<char>) -> int
    decreases p.len(),
{
    if p.len() == 0 || p[0] == '/' {
        0
    } else {
        1 + head_len(p.drop_first())
    }
}

/// What a path starts with, up to its first slash.
pub open spec fn head(p: Seq<char>) -> Seq<char> {
    p.take(head_len(p))
}

/// What is left of the rest of a path after the slashes, and the components
/// `.`, that it starts with.
pub open spec fn below(rest: Seq<char>) -> Seq<char>
    decreases rest.len(),
{
    if rest.len() > 0 && rest[0] == '/' {
        below(rest.drop_first())
    } else if rest == seq!['.'] {
        Seq::empty()
    } else if rest.len() > 1 && rest[0] == '.' && rest[1] == '/' {
        below(rest.drop_first())
    } else {
        rest
    }
}

/// What a path leads to below what it starts with.
pub open spec fn tail(p: Seq<char>) -> Seq<char> {
    below(p.skip(head_len(p)))
}

/// Whether a path starts with the component `..`.
pub open spec fn starts_upwards(p: Seq<char>) -> bool {
    p == seq!['.', '.'] || (p.len() > 2 && p[0] == '.' && p[1] == '.' && p[2] == '/')
}

/// Whether `c` can neither separate nor stand for a component of its own.
pub open spec fn is_name_char(c: char) -> bool {
    c != '/' && c != '\\' && c != '.'
}

/// Whether it is up to the platform if there is a component in what is left of
/// a path: there is a backslash in it, and nothing but separators and dots.
pub open spec fn is_up_to_platform(rest: Seq<char>) -> bool {
    &&& rest.contains('\\')
    &&& !starts_upwards(rest)
    &&& forall|k: int| 0 <= k < rest.len() ==> !is_name_char(#[trigger] rest[k])
}

/// The first two components of a path, as `std::path::Path::components` gives
/// them.
///
/// Claimed of it is what holds on every platform. An empty path has none. The
/// first is not normal where the path starts with a slash, a `.` or a `..`. It
/// is normal where the path starts with a plain name, and then there is a
/// second one if anything is left after it: repeated slashes, a slash at the
/// end and the components `.` are passed over. Left open, as it is up to the
/// platform, is a path that starts with an ASCII letter and a colon, and what a
/// backslash does in what a path starts with, or in a rest that holds nothing
/// but separators and dots.
#[verifier::external_body]
fn path_parts(path: &str) -> (r: (Option<PathPart>, Option<PathPart>))
    ensures
        path@.len() == 0 ==> r == (None::<PathPart>, None::<PathPart>),
        starts_nameless(path@) ==> r.0 is Some && r.0 != Some(PathPart::Normal),
        is_plain_name(head(path@)) ==> r.0 == Some(PathPart::Normal),
        is_plain_name(head(path@)) && !is_up_to_platform(tail(path@)) ==> (r.1 is Some <==> tail(
            path@,
        ).len() > 0),
{
    let mut parts = std::path::Path::new(path).components().map(|part| match part {
        std::path::Component::Prefix(_) => PathPart::Prefix,
        std::path::Component::RootDir => PathPart::Root,
        std::path::Component::CurDir => PathPart::Current,
        std::path::Component::ParentDir => PathPart::Parent,
        std::path::Component::Normal(_) => PathPart::Normal,
    });
    (parts.next(), parts.next())
}

/// Whether a path with these first two components is a bare file name: exactly
/// one normal component, so no separators, no `..`, no absolute prefix.
pub fn is_bare_file(first: Option<PathPart>, second: Option<PathPart>) -> (r: bool)
    ensures
        r == (first == Some(PathPart::Normal) && second is None),
{
    match first {
        Some(PathPart::Normal) => second.is_none(),
        _ => false,
    }
}

/// Whether a stored name is that of a file in the recordings directory: it
/// starts with a plain name and leads nowhere below it.
pub open spec fn is_file_name(n: Seq<char>) -> bool {
    is_plain_name(head(n)) && tail(n).len() == 0
}

/// Whether a name means the same on every platform.
pub open spec fn is_settled(n: Seq<char>) -> bool {
    ||| n.len() == 0
    ||| starts_nameless(n)
    ||| is_plain_name(head(n)) && !is_up_to_platform(tail(n))
}

/// Whether a stored name is rightly taken for that of an audio file or not.
pub open spec fn is_kept_right(name: Seq<char>, kept: bool) -> bool {
    is_settled(name) ==> kept == is_file_name(name)
}

proof fn lemma_nameless(n: Seq<char>)
    requires
        n.len() == 0 || starts_nameless(n),
    ensures
        !is_plain_name(head(n)),
{
    reveal_with_fuel(head_len, 4);
    if n.len() > 0 && n[0] != '/' {
        if n.len() == 1 || n[1] == '/' {
            assert(head(n) == seq!['.']);
        } else {
            assert(head(n) == seq!['.', '.']);
        }
    }
}

proof fn lemma_head_len(p: Seq<char>, i: int)
    requires
        0 <= i <= p.len(),
        i < p.len() ==> p[i] == '/',
        forall|k: int| 0 <= k < i ==> p[k] != '/',
    ensures
        head_len(p) == i,
    decreases i,
{
    if i > 0 {
        lemma_head_len(p.drop_first(), i - 1);
    }
}

proof fn lemma_head_bounds(p: Seq<char>)
    ensures
        0 <= head_len(p) <= p.len(),
        forall|k: int| 0 <= k < head_len(p) ==> p[k] != '/',
    decreases p.len(),
{
    if p.len() > 0 && p[0] != '/' {
        let less = p.drop_first();
        lemma_head_bounds(less);
        assert forall|k: int| 0 <= k < head_len(p) implies p[k] != '/' by {
            if k > 0 {
                assert(less[k - 1] == p[k]);
            }
        }
    }
}

proof fn lemma_below_keeps(rest: Seq<char>, k: int)
    requires
        0 <= k < rest.len(),
        is_name_char(rest[k]),
    ensures
        below(rest).contains(rest[k]),
    decreases rest.len(),
{
    if rest[0] == '/' || (rest.len() > 1 && rest[0] == '.' && rest[1] == '/') {
        lemma_below_keeps(rest.drop_first(), k - 1);
    } else {
        assert(rest[k] != '.');
        assert(seq!['.'][0] == '.');
        assert(below(rest) == rest);
    }
}

proof fn lemma_nothing_below(rest: Seq<char>)
    requires
        below(rest).len() == 0,
    ensures
        forall|k: int|
            0 <= k < rest.len() ==> (#[trigger] rest[k] == '/' || rest[k] == '.'),
        forall|k: int|
            0 <= k < rest.len() - 1 ==> !(#[trigger] rest[k] == '.' && rest[k + 1] == '.'),
    decreases rest.len(),
{
    if rest.len() > 0 && (rest[0] == '/' || (rest.len() > 1 && rest[0] == '.' && rest[1]
        == '/')) {
        let less = rest.drop_first();
        lemma_nothing_below(less);
        assert forall|k: int| 0 <= k < rest.len() implies (#[trigger] rest[k] == '/' || rest[k]
            == '.') by {
            if k > 0 {
                assert(less[k - 1] == rest[k]);
            }
        }
        assert forall|k: int| 0 <= k < rest.len() - 1 implies !(#[trigger] rest[k] == '.'
            && rest[k + 1] == '.') by {
            if k > 0 {
                assert(less[k - 1] == rest[k]);
            }
        }
    }
}

/// A plain name is that of a file in the recordings directory.
pub proof fn law_plain_name_is_kept(n: Seq<char>)
    requires
        is_plain_name(n),
    ensures
        is_settled(n),
        is_file_name(n),
{
    assert forall|k: int| 0 <= k < n.len() implies n[k] != '/' by {
        assert(n.contains(n[k]));
    }
    lemma_head_len(n, n.len() as int);
    assert(head(n) == n);
    assert(n.skip(n.len() as int) == Seq::<char>::empty());
}

/// A name that leads up from a directory, or to anything below one, is not that
/// of a file in the recordings directory.
pub proof fn law_leading_away_is_not_kept(n: Seq<char>, i: int)
    requires
        0 < i < n.len(),
        n[i] == '/',
        is_plain_name(n.take(i)),
        starts_upwards(n.skip(i + 1)) || exists|k: int|
            i < k < n.len() && is_name_char(#[trigger] n[k]),
    ensures
        is_settled(n),
        !is_file_name(n),
{
    let first = n.take(i);
    assert forall|k: int| 0 <= k < i implies n[k] != '/' by {
        assert(first.contains(first[k]));
    }
    lemma_head_len(n, i);
    let rest = n.skip(i);
    assert(rest.drop_first() == n.skip(i + 1));
    assert(below(rest) == below(n.skip(i + 1)));
    if starts_upwards(n.skip(i + 1)) {
        assert(seq!['.', '.'][1] == '.');
        assert(below(n.skip(i + 1)) == n.skip(i + 1));
    } else {
        let k = choose|k: int| i < k < n.len() && is_name_char(#[trigger] n[k]);
        lemma_below_keeps(rest, k - i);
        let b = below(rest);
        let j = choose|j: int| 0 <= j < b.len() && b[j] == rest[k - i];
        assert(is_name_char(b[j]));
    }
}

/// Whether `..` is a component of a path, from `i` on.
pub open spec fn leads_up(p: Seq<char>, i: int) -> bool {
    &&& 0 <= i < p.len() - 1
    &&& p[i] == '.'
    &&& p[i + 1] == '.'
    &&& i == 0 || p[i - 1] == '/'
    &&& i + 2 == p.len() || p[i + 2] == '/'
}

/// The name of a file in the recordings directory does not escape it: it does
/// not start at the root, and `..` is nowhere a component of it.
pub proof fn law_file_name_stays(n: Seq<char>, i: int)
    requires
        is_file_name(n),
    ensures
        n.len() > 0,
        n[0] != '/',
        !leads_up(n, i),
{
    lemma_head_bounds(n);
    let h = head_len(n);
    lemma_nothing_below(n.skip(h));
    if leads_up(n, i) {
        if i == 0 {
            assert(h <= 2);
            assert(h == 1 ==> head(n) == seq!['.']);
            assert(h == 2 ==> head(n) == seq!['.', '.']);
        } else {
            assert(h <= i - 1);
            assert(n.skip(h)[i - h] == '.' && n.skip(h)[i - h + 1] == '.');
        }
    }
}

/// What deleting one recording comes to.
pub struct Deletion<D, P> {
    /// Deletes the row, if there is one. This comes first.
    pub row: Option<Statement<D, P>>,
    /// The audio file that goes with it. It may be gone already.
    pub audio: Option<AudioFile>,
    /// Whether a row is deleted.
    pub deleted: bool,
}

/// One step of deleting all recordings.
pub enum WipeStep<D, P> {
    /// Removes an audio file. It may be gone already.
    RemoveAudio(AudioFile),
    /// Deletes every row.
    DeleteRows(Statement<D, P>),
}

/// What deleting all recordings comes to.
pub struct Wipe<D, P> {
    /// What is done, in order.
    pub steps: Vec<WipeStep<D, P>>,
    /// How many recordings are deleted.
    pub deleted: usize,
}

/// Whether `steps` remove `files`, in order, and then delete every row.
pub open spec fn is_wipe_of<D, P>(steps: Seq<WipeStep<D, P>>, files: Seq<AudioFile>) -> bool {
    &&& steps.len() == files.len() + 1
    &&& forall|k: int|
        0 <= k < files.len() ==> #[trigger] steps[k] == WipeStep::<D, P>::RemoveAudio(files[k])
    &&& steps.last() matches WipeStep::DeleteRows(s) && is_statement(
        s,
        DELETE_ALL_RECORDINGS@,
        Seq::<SqlTerm<D, P>>::empty(),
    )
}

/// The names of those of `names` that `kept` marks.
pub open spec fn marked(names: Seq<Seq<char>>, kept: Seq<bool>) -> Seq<Seq<char>>
    decreases names.len(),
{
    if names.len() == 0 {
        Seq::empty()
    } else if kept.last() {
        marked(names.drop_last(), kept.drop_last()).push(names.last())
    } else {
        marked(names.drop_last(), kept.drop_last())
    }
}

/// Whether `files` are the audio files in `dir` of those of `names` that can
/// be names of audio files, in order.
pub open spec fn are_audio_files(
    dir: Seq<char>,
    names: Seq<Seq<char>>,
    files: Seq<AudioFile>,
    kept: Seq<bool>,
) -> bool {
    &&& kept.len() == names.len()
    &&& forall|k: int| 0 <= k < names.len() ==> is_kept_right(names[k], #[trigger] kept[k])
    &&& files.len() == marked(names, kept).len()
    &&& forall|k: int|
        0 <= k < files.len() ==> (#[trigger] files[k])@ == (AudioFileView {
            dir,
            name: marked(names, kept)[k],
        })
}

/// The names as sequences of characters.
pub open spec fn texts(names: Seq<String>) -> Seq<Seq<char>> {
    Seq::new(names.len(), |k: int| names[k]@)
}

/// The time before which recordings are outdated after `days` days, if any
/// are.
pub open spec fn cutoff(now: i64, days: i64) -> int {
    now - days * MILLIS_PER_DAY
}

impl RecordingsStore {
    /// A recording's audio file, or `None` if the stored file name would
    /// escape the recordings directory.
    pub fn audio_path(&self, file_name: &str) -> (r: Option<AudioFile>)
        ensures
            is_kept_right(file_name@, r is Some),
            r matches Some(f) ==> f@ == (AudioFileView { dir: self@, name: file_name@ }),
    {
        proof {
            if file_name@.len() == 0 || starts_nameless(file_name@) {
                lemma_nameless(file_name@);
            }
        }
        if file_name.is_empty() {
            return None;
        }
        let (first, second): (Option<PathPart>, Option<PathPart>) = path_parts(file_name);
        if is_bare_file(first, second) {
            Some(
                AudioFile { dir: self.recordings_dir().to_owned(), name: file_name.to_owned() },
            )
        } else {
            None
        }
    }

    /// Finds the audio file of a recording that is to be deleted.
    pub fn find_file_name<D, P>(&self, id: RecordingId) -> (s: Statement<D, P>)
        ensures
            is_statement(s, SELECT_FILE_NAME@, seq![SqlTerm::Text(id_text(id))]),
    {
        statement(SELECT_FILE_NAME, vec![SqlValue::Text(id.to_text())])
    }

    /// Deletes the row and its audio file (missing files are tolerated), when
    /// `file_name` was found for it. A recording that is not there is not
    /// deleted.
    pub fn delete_recording<D, P>(&self, id: RecordingId, file_name: Option<String>) -> (d: Deletion<
        D,
        P,
    >)
        ensures
            d.deleted == file_name is Some,
            match file_name {
                Some(name) => {
                    &&& d.row is Some
                    &&& is_statement(
                        d.row->0,
                        DELETE_RECORDING@,
                        seq![SqlTerm::Text(id_text(id))],
                    )
                    &&& is_kept_right(name@, d.audio is Some)
                    &&& d.audio matches Some(f) ==> f@ == (AudioFileView {
                        dir: self@,
                        name: name@,
                    })
                },
                None => d.row is None && d.audio is None,
            },
    {
        match file_name {
            Some(name) => {
                let row: Statement<D, P> = statement(
                    DELETE_RECORDING,
                    vec![SqlValue::Text(id.to_text())],
                );
                let audio: Option<AudioFile> = self.audio_path(name.as_str());
                Deletion { row: Some(row), audio, deleted: true }
            },
            None => Deletion { row: None, audio: None, deleted: false },
        }
    }

    /// How many of several recordings were deleted.
    pub fn delete_recordings(&self, outcomes: &Vec<bool>) -> (n: usize)
        ensures
            n == outcomes@.filter(|deleted: bool| deleted).len(),
    {
        let ghost is_deleted = |deleted: bool| deleted;
        let mut n: usize = 0;
        let mut i: usize = 0;
        proof {
            reveal(Seq::filter);
            assert(outcomes@.take(0).filter(is_deleted).len() == 0);
        }
        while i < outcomes.len()
            invariant
                is_deleted == (|deleted: bool| deleted),
                n <= i <= outcomes@.len(),
                n == outcomes@.take(i as int).filter(is_deleted).len(),
            decreases outcomes@.len() - i,
        {
            proof {
                reveal(Seq::filter);
                assert(outcomes@.take(i + 1).drop_last() == outcomes@.take(i as int));
                assert(outcomes@.take(i + 1).last() == outcomes@[i as int]);
            }
            if outcomes[i] {
                n = n + 1;
            }
            i = i + 1;
        }
        assert(outcomes@.take(i as int) == outcomes@);
        n
    }

    /// The audio files of the recordings with these file names.
    pub fn audio_files(&self, names: &Vec<String>) -> (files: Vec<AudioFile>)
        ensures
            exists|kept: Seq<bool>|
                #[trigger] are_audio_files(self@, texts(names@), files@, kept),
    {
        let mut files: Vec<AudioFile> = Vec::new();
        let ghost mut kept: Seq<bool> = Seq::empty();
        let mut i: usize = 0;
        let ghost all = texts(names@);
        assert(all.take(0) == Seq::<Seq<char>>::empty());
        assert(are_audio_files(self@, all.take(0), files@, kept));
        while i < names.len()
            invariant
                i <= names@.len(),
                all == texts(names@),
                are_audio_files(self@, all.take(i as int), files@, kept),
            decreases names@.len() - i,
        {
            let ghost before = files@;
            let ghost kept_before = kept;
            let file: Option<AudioFile> = self.audio_path(names[i].as_str());
            proof {
                kept = kept.push(file is Some);
                assert(all.take(i + 1).drop_last() == all.take(i as int));
                assert(kept.drop_last() == kept_before);
            }
            if let Some(f) = file {
                files.push(f);
            }
            proof {
                let then = all.take(i + 1);
                assert forall|k: int| 0 <= k < then.len() implies is_kept_right(
                    then[k],
                    #[trigger] kept[k],
                ) by {
                    if k < i {
                        assert(then[k] == all.take(i as int)[k]);
                        assert(kept[k] == kept_before[k]);
                    }
                }
                assert forall|k: int| 0 <= k < files@.len() implies (#[trigger] files@[k])@ == (
                AudioFileView { dir: self@, name: marked(then, kept)[k] }) by {
                    if k < before.len() {
                        assert(files@[k] == before[k]);
                    }
                }
            }
            i = i + 1;
        }
        assert(all.take(i as int) == all);
        files
    }

    /// Finds the audio files of all recordings, which are to be deleted.
    pub fn find_all_file_names<D, P>(&self) -> (s: Statement<D, P>)
        ensures
            is_statement(s, SELECT_ALL_FILE_NAMES@, Seq::<SqlTerm<D, P>>::empty()),
    {
        statement(SELECT_ALL_FILE_NAMES, Vec::new())
    }

    /// Removes every audio file, then every row, when `names` were found for
    /// them.
    pub fn delete_all_recordings<D, P>(&self, names: &Vec<String>) -> (w: Wipe<D, P>)
        ensures
            w.deleted == names@.len(),
            exists|files: Seq<AudioFile>, kept: Seq<bool>|
                is_wipe_of(w.steps@, files) && #[trigger] are_audio_files(
                    self@,
                    texts(names@),
                    files,
                    kept,
                ),
    {
        let files: Vec<AudioFile> = self.audio_files(names);
        let ghost all = files@;
        let mut steps: Vec<WipeStep<D, P>> = Vec::new();
        for file in it: files
            invariant
                it.seq() == all,
                steps@.len() == it.index(),
                forall|k: int|
                    0 <= k < steps@.len() ==> #[trigger] steps@[k] == WipeStep::<
                        D,
                        P,
                    >::RemoveAudio(all[k]),
        {
            steps.push(WipeStep::RemoveAudio(file));
        }
        steps.push(WipeStep::DeleteRows(statement(DELETE_ALL_RECORDINGS, Vec::new())));
        assert(is_wipe_of(steps@, all));
        Wipe { steps, deleted: names.len() }
    }

    /// Finds the recordings that are more than `days` days old, but for those
    /// that are pending. Where `days` is not positive, nothing is outdated.
    pub fn delete_recordings_older_than<D, P>(&self, days: i64, now: i64) -> (r: Option<Statement<
        D,
        P,
    >>)
        requires
            days > 0 ==> days * MILLIS_PER_DAY <= i64::MAX && cutoff(now, days) >= i64::MIN,
        ensures
            match r {
                Some(s) => {
                    &&& days > 0
                    &&& is_statement(
                        s,
                        SELECT_OUTDATED@ + PENDING_STATUSES_SQL@,
                        seq![SqlTerm::Integer(cutoff(now, days) as i64)],
                    )
                },
                None => days <= 0,
            },
    {
        if days <= 0 {
            return None;
        }
        let before: i64 = now - days * MILLIS_PER_DAY;
        Some(
            statement(
                joined(SELECT_OUTDATED, PENDING_STATUSES_SQL).as_str(),
                vec![SqlValue::Integer(before)],
            ),
        )
    }

    /// Deletes a row that was found to be outdated, by its stored identifier.
    pub fn delete_outdated<D, P>(&self, id: &str) -> (s: Statement<D, P>)
        ensures
            is_statement(s, DELETE_RECORDING@, seq![SqlTerm::Text(id@)]),
    {
        statement(DELETE_RECORDING, vec![SqlValue::Text(id.to_owned())])
    }
}

/// A recording is outdated when it is older than so many days of 24 hours.
pub proof fn law_days_have_24_hours(now: i64, days: i64)
    ensures
        cutoff(now, days) == now - days * (24 * 60 * 60 * 1000),
{
}

/// A name with no separator and no colon in it is that of a file in the
/// recordings directory, unless it is empty, `.` or `..`.
pub proof fn law_ordinary_names_are_kept(n: Seq<char>)
    requires
        n.len() > 0,
        n != seq!['.'],
        n != seq!['.', '.'],
        forall|k: int|
            0 <= k < n.len() ==> #[trigger] n[k] != '/' && n[k] != '\\' && n[k] != ':',
    ensures
        is_kept_right(n, true),
        !is_kept_right(n, false),
{
    assert(is_plain_name(n));
    law_plain_name_is_kept(n);
}

/// A name that is empty, starts at the root, or leads up or down from where it
/// starts, is not.
pub proof fn law_names_that_lead_elsewhere_are_not_kept(a: Seq<char>, b: Seq<char>)
    requires
        a.len() > 0,
        a != seq!['.'],
        a != seq!['.', '.'],
        b.len() > 0,
        forall|k: int|
            0 <= k < a.len() ==> #[trigger] a[k] != '/' && a[k] != '\\' && a[k] != ':',
        b == seq!['.', '.'] || exists|k: int|
            0 <= k < b.len() && #[trigger] b[k] != '/' && b[k] != '\\' && b[k] != '.',
    ensures
        !is_kept_right(Seq::empty(), true),
        !is_kept_right(seq!['.'], true),
        !is_kept_right(seq!['.', '.'], true),
        !is_kept_right(seq!['/'] + b, true),
        !is_kept_right(seq!['.', '.', '/'] + b, true),
        !is_kept_right(a + seq!['/'] + b, true),
{
    lemma_nameless(Seq::empty());
    lemma_nameless(seq!['.']);
    lemma_nameless(seq!['.', '.']);
    let root = seq!['/'] + b;
    assert(root[0] == '/');
    lemma_nameless(root);
    let up = seq!['.', '.', '/'] + b;
    assert(up[0] == '.' && up[1] == '.' && up[2] == '/');
    lemma_nameless(up);
    let n = a + seq!['/'] + b;
    let i = a.len() as int;
    assert(n.take(i) =~= a);
    assert(n.skip(i + 1) =~= b);
    assert(is_plain_name(a));
    if b != seq!['.', '.'] {
        let k = choose|k: int|
            0 <= k < b.len() && #[trigger] b[k] != '/' && b[k] != '\\' && b[k] != '.';
        assert(n[i + 1 + k] == b[k]);
        assert(is_name_char(n[i + 1 + k]));
    }
    law_leading_away_is_not_kept(n, i);
}

/// The files that go are those of the marked names, in order, none left out.
pub proof fn law_marked_names_are_taken(names: Seq<Seq<char>>, kept: Seq<bool>) -> (at: Seq<int>)
    requires
        kept.len() == names.len(),
    ensures
        at.len() == marked(names, kept).len(),
        forall|i: int|
            0 <= i < at.len() ==> 0 <= #[trigger] at[i] < names.len() && kept[at[i]] && marked(
                names,
                kept,
            )[i] == names[at[i]],
        forall|i: int, j: int| 0 <= i < j < at.len() ==> #[trigger] at[i] < #[trigger] at[j],
        forall|k: int| 0 <= k < names.len() && #[trigger] kept[k] ==> at.contains(k),
    decreases names.len(),
{
    if names.len() == 0 {
        Seq::empty()
    } else {
        let before = law_marked_names_are_taken(names.drop_last(), kept.drop_last());
        let n = names.len() - 1;
        let at = if kept[n] {
            before.push(n)
        } else {
            before
        };
        assert forall|k: int| 0 <= k < names.len() && #[trigger] kept[k] implies at.contains(k) by {
            if k < n {
                assert(kept.drop_last()[k] == kept[k]);
                let i = choose|i: int| 0 <= i < before.len() && before[i] == k;
                assert(at[i] == k);
            } else {
                assert(at[before.len() as int] == k);
            }
        }
        at
    }
}

/// When everything is deleted, the rows go last and once: every step before
/// removes an audio file.
pub proof fn law_rows_go_last<D, P>(steps: Seq<WipeStep<D, P>>, files: Seq<AudioFile>, k: int)
    requires
        is_wipe_of(steps, files),
        0 <= k < steps.len(),
    ensures
        steps[k] is DeleteRows <==> k == steps.len() - 1,
        steps[k] matches WipeStep::RemoveAudio(file) ==> file == files[k],
        steps.len() == files.len() + 1,
{
}

/// The audio files that go are in the recordings directory, under names that
/// were stored; each name that is that of a file there is among them, and none
/// that is not.
pub proof fn law_audio_files_are_in_the_directory(
    dir: Seq<char>,
    names: Seq<Seq<char>>,
    files: Seq<AudioFile>,
    kept: Seq<bool>,
)
    requires
        are_audio_files(dir, names, files, kept),
    ensures
        forall|i: int|
            0 <= i < files.len() ==> (#[trigger] files[i])@.dir == dir && names.contains(
                files[i]@.name,
            ) && (is_settled(files[i]@.name) ==> is_file_name(files[i]@.name)),
        forall|k: int|
            0 <= k < names.len() && is_settled(#[trigger] names[k]) && is_file_name(names[k])
                ==> exists|i: int| 0 <= i < files.len() && (#[trigger] files[i])@.name == names[k],
{
    let at = law_marked_names_are_taken(names, kept);
    assert forall|i: int| 0 <= i < files.len() implies (#[trigger] files[i])@.dir == dir
        && names.contains(files[i]@.name) && (is_settled(files[i]@.name) ==> is_file_name(
        files[i]@.name,
    )) by {
        assert(files[i]@.name == names[at[i]]);
        assert(is_kept_right(names[at[i]], kept[at[i]]));
    }
    assert forall|k: int|
        0 <= k < names.len() && is_settled(#[trigger] names[k]) && is_file_name(names[k]) implies
        exists|i: int| 0 <= i < files.len() && (#[trigger] files[i])@.name == names[k] by {
        assert(is_kept_right(names[k], kept[k]));
        let i = choose|i: int| 0 <= i < at.len() && at[i] == k;
        assert(files[i]@.name == names[at[i]]);
    }
}

/// A file is shown by its directory and its name.
pub proof fn law_file_is_shown_by_its_parts(f: AudioFile)
    ensures
        f@.dir == f.dir@,
        f@.name == f.name@,
{
}

} // verus!
