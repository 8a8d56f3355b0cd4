//! The notes that tell the user why an operation was refused.

use crate::text::{concat2, str_eq};
use vstd::prelude::*;

verus! {

/// A note for the user.
#[derive(Debug, PartialEq, Eq)]
pub enum Note {
    /// A file was copied into a tag directory instead of linked.
    BadCopy,
    /// A file was linked into the root, under no tag.
    DraggedToRoot,
    /// Something was deleted outright instead of renamed to the delete
    /// name. Holds the path.
    Unlink(String),
    /// A tag with files was renamed into a tag group. Holds the tag.
    TagToTagGroup(String),
}

/// A note with its text as a sequence of characters.
pub enum NoteView {
    BadCopy,
    DraggedToRoot,
    Unlink(Seq<char>),
    TagToTagGroup(Seq<char>),
}

impl View for Note {
    type V = NoteView;

    open spec fn view(&self) -> NoteView {
        match self {
            Note::BadCopy => NoteView::BadCopy,
            Note::DraggedToRoot => NoteView::DraggedToRoot,
            Note::Unlink(p) => NoteView::Unlink(p@),
            Note::TagToTagGroup(t) => NoteView::TagToTagGroup(t@),
        }
    }
}

impl Clone for Note {
    fn clone(&self) -> (r: Self)
        ensures
            r@ == self@,
    {
        match self {
            Note::BadCopy => Note::BadCopy,
            Note::DraggedToRoot => Note::DraggedToRoot,
            Note::Unlink(p) => Note::Unlink(p.clone()),
            Note::TagToTagGroup(t) => Note::TagToTagGroup(t.clone()),
        }
    }
}

/// The view of an optional note.
pub open spec fn note_view(n: Option<Note>) -> Option<NoteView> {
    match n {
        Some(x) => Some(x@),
        None => None,
    }
}

/// The name of the kind of a note, as it goes over the wire.
pub open spec fn kind_of(n: NoteView) -> Seq<char> {
    match n {
        NoteView::BadCopy => "BadCopy"@,
        NoteView::DraggedToRoot => "DraggedToRoot"@,
        NoteView::Unlink(_) => "Unlink"@,
        NoteView::TagToTagGroup(_) => "TagToTagGroup"@,
    }
}

/// What a desktop notification says for a note.
pub open spec fn body_of(n: NoteView) -> Seq<char> {
    match n {
        NoteView::BadCopy => "Cannot copy file into collection, symlink instead"@,
        NoteView::DraggedToRoot => "Cannot tag a file in the root collection"@,
        NoteView::Unlink(_) => "Delete by renaming folder to '"@ + crate::constants::UNLINK_NAME@
            + "'"@,
        NoteView::TagToTagGroup(_) => "Cannot change a non-empty tag to a tag group"@,
    }
}

/// The least time between two notifications, in milliseconds.
pub const NOTE_INTERVAL_MS: u64 = 500;

impl Note {
    /// Whether both are the same note.
    pub fn same_as(&self, other: &Note) -> (r: bool)
        ensures
            r == (self@ == other@),
    {
        match (self, other) {
            (Note::BadCopy, Note::BadCopy) => true,
            (Note::DraggedToRoot, Note::DraggedToRoot) => true,
            (Note::Unlink(a), Note::Unlink(b)) => str_eq(a.as_str(), b.as_str()),
            (Note::TagToTagGroup(a), Note::TagToTagGroup(b)) => str_eq(a.as_str(), b.as_str()),
            _ => false,
        }
    }

    /// The name of the kind of the note.
    pub fn kind(&self) -> (s: String)
        ensures
            s@ == kind_of(self@),
    {
        match self {
            Note::BadCopy => String::from_str("BadCopy"),
            Note::DraggedToRoot => String::from_str("DraggedToRoot"),
            Note::Unlink(_) => String::from_str("Unlink"),
            Note::TagToTagGroup(_) => String::from_str("TagToTagGroup"),
        }
    }

    /// What a desktop notification says for the note.
    pub fn body(&self) -> (s: String)
        ensures
            s@ == body_of(self@),
    {
        match self {
            Note::BadCopy => String::from_str("Cannot copy file into collection, symlink instead"),
            Note::DraggedToRoot => String::from_str("Cannot tag a file in the root collection"),
            Note::Unlink(_) => concat2(
                concat2("Delete by renaming folder to '", crate::constants::UNLINK_NAME).as_str(),
                "'",
            ),
            Note::TagToTagGroup(_) => String::from_str(
                "Cannot change a non-empty tag to a tag group",
            ),
        }
    }
}

/// Holds back notifications that follow one another too closely.
#[derive(Debug, Clone, Copy, PartialEq, Eq, Structural)]
pub struct RateLimiter {
    /// When the last message came, in milliseconds.
    pub last_message: u64,
}

impl RateLimiter {
    /// A limiter whose last message came at `now_ms`.
    pub fn new(now_ms: u64) -> (r: Self)
        ensures
            r.last_message == now_ms,
    {
        RateLimiter { last_message: now_ms }
    }

    /// Takes note of a message that comes at `now_ms` and says whether it
    /// is to be shown: it is where at least the interval has passed since
    /// the message before it, shown or not.
    pub fn allow(&mut self, now_ms: u64) -> (show: bool)
        ensures
            final(self).last_message == now_ms,
            show == (now_ms - old(self).last_message >= NOTE_INTERVAL_MS),
    {
        let show = now_ms >= self.last_message && now_ms - self.last_message >= NOTE_INTERVAL_MS;
        self.last_message = now_ms;
        show
    }
}

/// What a desktop notification shows.
#[derive(Debug)]
pub struct Notification {
    pub summary: String,
    pub body: String,
    pub icon: Option<String>,
    /// How long the notification stays, in milliseconds.
    pub timeout_ms: u32,
}

/// Shows notes on the desktop, no more than one in each interval.
#[derive(Debug)]
pub struct DesktopNotifier {
    pub tag: String,
    pub icon: Option<String>,
    pub limiter: RateLimiter,
}

impl DesktopNotifier {
    /// A notifier that shows its notes with the given icon.
    pub fn new(icon: Option<String>, now_ms: u64) -> (r: Self)
        ensures
            r.tag@ == "desktop-notification"@,
            r.icon == icon,
            r.limiter.last_message == now_ms,
    {
        DesktopNotifier {
            tag: String::from_str("desktop-notification"),
            icon,
            limiter: RateLimiter::new(now_ms),
        }
    }

    /// The notification to show for a note that comes at `now_ms`, or
    /// none where the note follows the one before it too closely.
    pub fn send_message(&mut self, note: &Note, now_ms: u64) -> (r: Option<Notification>)
        ensures
            final(self).limiter.last_message == now_ms,
            final(self).tag == old(self).tag,
            final(self).icon == old(self).icon,
            r is Some == (now_ms - old(self).limiter.last_message >= NOTE_INTERVAL_MS),
            r is Some ==> r->0.summary@ == "Supertag Error"@ && r->0.body@ == body_of(note@)
                && r->0.timeout_ms == 6000 && crate::sql::types::opt_view(r->0.icon)
                == crate::sql::types::opt_view(old(self).icon),
    {
        if !self.limiter.allow(now_ms) {
            return None;
        }
        Some(
            Notification {
                summary: String::from_str("Supertag Error"),
                body: note.body(),
                icon: crate::sql::types::clone_opt(&self.icon),
                timeout_ms: 6000,
            },
        )
    }
}

/// How many notes a listener keeps to look through.
pub const PEER_BUFFER: usize = 10_000;

/// The notes that a listener has heard, each with the number under which
/// it was heard. The numbers count up from one, and the oldest notes are
/// dropped where more than the listener keeps have come.
pub struct NoteBuffer {
    pub entries: std::collections::VecDeque<(usize, Note)>,
    /// The number that the next note gets.
    pub counter: usize,
}

/// The notes heard, with their numbers, by their views.
pub open spec fn heard(entries: Seq<(usize, Note)>) -> Seq<(usize, NoteView)> {
    entries.map_values(|e: (usize, Note)| (e.0, e.1@))
}

/// The position of the first note with a number above `idx` that is the
/// given note.
pub open spec fn first_after(entries: Seq<(usize, NoteView)>, note: NoteView, idx: usize) -> Option<
    int,
>
    decreases entries.len(),
{
    if entries.len() == 0 {
        None
    } else {
        match first_after(entries.drop_last(), note, idx) {
            Some(i) => Some(i),
            None => if entries.last().0 > idx && entries.last().1 == note {
                Some(entries.len() - 1)
            } else {
                None
            },
        }
    }
}

impl NoteBuffer {
    /// The notes come in the order of their numbers, which follow each
    /// other without a gap up to the number of the next note, and fewer
    /// are kept than the listener's limit.
    pub open spec fn wf(&self) -> bool {
        &&& self.counter >= 1
        &&& self.entries@.len() < PEER_BUFFER
        &&& self.entries@.len() < self.counter
        &&& forall|i: int|
            0 <= i < self.entries@.len() ==> (#[trigger] self.entries@[i]).0 == self.counter
                - self.entries@.len() + i
    }

    /// A listener that has heard nothing.
    pub fn new() -> (r: Self)
        ensures
            r.wf(),
            r.entries@.len() == 0,
            r.counter == 1,
    {
        NoteBuffer { entries: std::collections::VecDeque::new(), counter: 1 }
    }

    /// Hears a note: it is kept under the next number, and the oldest
    /// note is dropped where the limit is reached.
    pub fn push(&mut self, note: Note)
        requires
            old(self).wf(),
            old(self).counter < usize::MAX,
        ensures
            final(self).wf(),
            final(self).counter == old(self).counter + 1,
            heard(final(self).entries@) == ({
                let all = heard(old(self).entries@).push((old(self).counter, note@));
                if all.len() >= PEER_BUFFER {
                    all.drop_first()
                } else {
                    all
                }
            }),
    {
        let ghost before = heard(self.entries@);
        let ghost x = (self.counter, note@);
        self.entries.push_back((self.counter, note));
        self.counter = self.counter + 1;
        assert(heard(self.entries@) =~= before.push(x));
        if self.entries.len() >= PEER_BUFFER {
            let _ = self.entries.pop_front();
            assert(heard(self.entries@) =~= before.push(x).drop_first());
        }
    }

    /// The number of the note heard last, or zero where none was heard.
    pub fn marker(&self) -> (r: usize)
        requires
            self.wf(),
        ensures
            r == (if self.entries@.len() == 0 {
                0
            } else {
                self.entries@.last().0
            }),
            self.entries@.len() > 0 ==> r == self.counter - 1,
    {
        let n = self.entries.len();
        if n == 0 {
            0
        } else {
            self.entries[n - 1].0
        }
    }

    /// The first note heard after the note of number `idx` that is the
    /// given note, with its number.
    pub fn find_after(&self, note: &Note, idx: usize) -> (r: Option<(Note, usize)>)
        ensures
            match r {
                Some((n, k)) => n@ == note@ && first_after(heard(self.entries@), note@, idx) is Some
                    && k == heard(self.entries@)[first_after(
                    heard(self.entries@),
                    note@,
                    idx,
                )->0].0,
                None => first_after(heard(self.entries@), note@, idx) is None,
            },
    {
        let ghost all = heard(self.entries@);
        let mut i: usize = 0;
        assert(all.take(0) =~= Seq::empty());
        while i < self.entries.len()
            invariant
                i <= self.entries.len(),
                all == heard(self.entries@),
                first_after(all.take(i as int), note@, idx) is None,
            decreases self.entries.len() - i,
        {
            assert(all.take(i + 1).drop_last() =~= all.take(i as int));
            assert(all.take(i + 1).last() == (self.entries@[i as int].0, self.entries@[i as int].1@));
            let e = &self.entries[i];
            if e.0 > idx && e.1.same_as(note) {
                proof {
                    lemma_first_after_stays(all, i + 1, note@, idx);
                }
                return Some((e.1.clone(), e.0));
            }
            i += 1;
        }
        assert(all.take(self.entries.len() as int) =~= all);
        None
    }
}

/// What is found among the first notes is found among all of them.
pub proof fn lemma_first_after_stays(
    entries: Seq<(usize, NoteView)>,
    n: int,
    note: NoteView,
    idx: usize,
)
    requires
        0 <= n <= entries.len(),
        first_after(entries.take(n), note, idx) is Some,
    ensures
        first_after(entries, note, idx) == first_after(entries.take(n), note, idx),
    decreases entries.len() - n,
{
    if n < entries.len() {
        assert(entries.take(n + 1).drop_last() =~= entries.take(n));
        lemma_first_after_stays(entries, n + 1, note, idx);
    } else {
        assert(entries.take(n) =~= entries);
    }
}

} // verus!
