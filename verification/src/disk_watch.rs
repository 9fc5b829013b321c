//! When the copy of the document on disk has changed, and what is done about it.

use vstd::prelude::*;
use vstd::string::*;

use crate::labels;
use crate::labels::label_of;
use crate::safe_update::UpdateOutcome;
use crate::text;
use crate::text::pieces;

verus! {

/// How many milliseconds pass between looks at the disk.
pub const POLL_MS: u64 = 500;

/// How many milliseconds pass before a change is looked at again.
pub const SETTLE_MS: u64 = 200;

/// How often a change is looked at again before the attempt is given up.
pub const SETTLE_ROUNDS: u32 = 8;

/// What tells two states of a file apart: its size, and when it was changed, in
/// nanoseconds since the epoch where that is known.
#[derive(Clone, Copy, PartialEq, Eq, Debug, Structural)]
pub struct Stamp {
    pub len: u64,
    pub mtime: Option<i128>,
}

/// Whether two times are the same.
fn same_time(a: Option<i128>, b: Option<i128>) -> (r: bool)
    ensures
        r == (a == b),
{
    match (a, b) {
        (Some(x), Some(y)) => x == y,
        (None, None) => true,
        _ => false,
    }
}

impl Stamp {
    /// Whether the two are of different states.
    pub fn differs(&self, other: &Self) -> (r: bool)
        ensures
            r == (*self != *other),
            r == (self.len != other.len || self.mtime != other.mtime),
    {
        self.len != other.len || !same_time(self.mtime, other.mtime)
    }
}

/// The file changed, appeared or went away. A file that is not there and was not
/// there did not change.
pub open spec fn has_changed(known: Option<Stamp>, now: Option<Stamp>) -> bool {
    known != now
}

/// Whether the file changed, appeared or went away.
pub fn changed(known: Option<Stamp>, now: Option<Stamp>) -> (r: bool)
    ensures
        r == has_changed(known, now),
        r == match (known, now) {
            (Some(a), Some(b)) => a.len != b.len || a.mtime != b.mtime,
            (None, None) => false,
            _ => true,
        },
{
    match (known, now) {
        (Some(before), Some(after)) => before.differs(&after),
        (None, None) => false,
        _ => true,
    }
}

/// What is done about a change on disk.
#[derive(Clone, Copy, PartialEq, Eq, Debug, Structural)]
pub enum Verdict {
    /// It is taken into the editor.
    Reload,
    /// The editor has changes of its own: nothing is touched.
    KeepLocal,
    /// The file is not the user's.
    NotOurs,
}

/// What is done about a change on disk.
pub open spec fn judged(explicit_file: bool, dirty: bool) -> Verdict {
    if !explicit_file {
        Verdict::NotOurs
    } else if dirty {
        Verdict::KeepLocal
    } else {
        Verdict::Reload
    }
}

/// What is done about a change on disk.
pub fn verdict(explicit_file: bool, dirty: bool) -> (r: Verdict)
    ensures
        r == judged(explicit_file, dirty),
{
    if !explicit_file {
        Verdict::NotOurs
    } else if dirty {
        Verdict::KeepLocal
    } else {
        Verdict::Reload
    }
}

/// Unsaved changes are never overwritten.
pub proof fn unsaved_changes_are_kept(explicit_file: bool)
    ensures
        judged(explicit_file, true) != Verdict::Reload,
{
}

/// A file that is not the user's is never read again.
pub proof fn foreign_files_are_left_alone(dirty: bool)
    ensures
        judged(false, dirty) == Verdict::NotOurs,
{
}

/// A place in a text moved into it: a line past the last becomes the last, and a
/// column past the end of its line becomes that end. Columns count characters.
pub open spec fn clamped(line: int, character: int, s: Seq<char>) -> (int, int) {
    let lines = pieces(s, '\n');
    let l = if line < lines.len() {
        line
    } else {
        lines.len() - 1
    };
    (
        l,
        if character <= lines[l].len() {
            character
        } else {
            lines[l].len() as int
        },
    )
}

/// A place in a text moved into it.
pub fn clamp_position(line: u32, character: u32, new_text: &str) -> (r: (u32, u32))
    requires
        new_text@.len() <= u32::MAX,
    ensures
        (r.0 as int, r.1 as int) == clamped(line as int, character as int, new_text@),
{
    let lines = text::split(new_text, '\n');
    let ghost all = pieces(new_text@, '\n');
    proof {
        text::lemma_pieces_nonempty(new_text@, '\n');
        text::lemma_pieces_small(new_text@, '\n');
        assert(all.len() == lines@.len());
    }
    let last: u32 = (lines.len() - 1) as u32;
    let l: u32 = if line < last {
        line
    } else {
        last
    };
    assert(all[l as int] == lines@[l as int]@);
    let n: u32 = text::count(lines[l as usize].as_str()) as u32;
    (
        l,
        if character <= n {
            character
        } else {
            n
        },
    )
}

/// Moving a place into a text twice is the same as moving it once.
pub proof fn clamping_is_idempotent(line: int, character: int, s: Seq<char>)
    requires
        0 <= line,
        0 <= character,
    ensures
        clamped(clamped(line, character, s).0, clamped(line, character, s).1, s) == clamped(
            line,
            character,
            s,
        ),
        0 <= clamped(line, character, s).0 < pieces(s, '\n').len(),
        0 <= clamped(line, character, s).1 <= pieces(s, '\n')[clamped(line, character, s).0].len(),
{
    text::lemma_pieces_nonempty(s, '\n');
}

/// A place that is in the text stays where it is.
pub proof fn places_inside_stay(line: int, character: int, s: Seq<char>)
    requires
        0 <= line < pieces(s, '\n').len(),
        0 <= character <= pieces(s, '\n')[line].len(),
    ensures
        clamped(line, character, s) == (line, character),
{
}

/// Where the watch over a file is.
pub enum Phase {
    /// After a while, the document is asked which file matters.
    Poll,
    /// The file is looked at; `known` is how it was last seen.
    Probe { path: String, known: Option<Stamp> },
    /// The file has changed. After a shorter while it is looked at again, until two
    /// looks agree; `left` says how often.
    Settle { path: String, stamp: Stamp, left: u32 },
    /// The file is at rest. The document is asked whether it may be replaced.
    Judge { path: String, stamp: Stamp },
    /// The file is read.
    Read { path: String, stamp: Stamp },
    /// The document is gone.
    Stopped,
}

/// The phase, its texts as sequences.
pub enum Watching {
    Poll,
    Probe { path: Seq<char>, known: Option<Stamp> },
    Settle { path: Seq<char>, stamp: Stamp, left: nat },
    Judge { path: Seq<char>, stamp: Stamp },
    Read { path: Seq<char>, stamp: Stamp },
    Stopped,
}

impl View for Phase {
    type V = Watching;

    open spec fn view(&self) -> Watching {
        match *self {
            Phase::Poll => Watching::Poll,
            Phase::Probe { path, known } => Watching::Probe { path: path@, known },
            Phase::Settle { path, stamp, left } => Watching::Settle {
                path: path@,
                stamp,
                left: left as nat,
            },
            Phase::Judge { path, stamp } => Watching::Judge { path: path@, stamp },
            Phase::Read { path, stamp } => Watching::Read { path: path@, stamp },
            Phase::Stopped => Watching::Stopped,
        }
    }
}

/// What the document is to be told.
pub enum Effect {
    Nothing,
    /// A change was not taken over.
    Note { problem: String, stamp: Option<Stamp> },
    /// A text is to be shown.
    Pend { text: String, stamp: Stamp },
}

/// What the document is to be told, its texts as sequences.
pub enum Told {
    Nothing,
    Note { problem: Seq<char>, stamp: Option<Stamp> },
    Pend { text: Seq<char>, stamp: Stamp },
}

impl View for Effect {
    type V = Told;

    open spec fn view(&self) -> Told {
        match *self {
            Effect::Nothing => Told::Nothing,
            Effect::Note { problem, stamp } => Told::Note { problem: problem@, stamp },
            Effect::Pend { text, stamp } => Told::Pend { text: text@, stamp },
        }
    }
}

/// The phase after the document was asked which file matters.
pub open spec fn after_poll(answer: UpdateOutcome<Option<(String, Option<Stamp>)>>) -> Watching {
    match answer {
        UpdateOutcome::Done(Some((path, known))) => Watching::Probe { path: path@, known },
        UpdateOutcome::Done(None) | UpdateOutcome::Busy => Watching::Poll,
        UpdateOutcome::Gone => Watching::Stopped,
    }
}

/// What is said of a file that is not there any more.
pub open spec fn missing(path: Seq<char>) -> Seq<char> {
    "「"@ + label_of(path) + "」在磁盘上不见了（编辑器里的内容没动）"@
}

/// What is said of a change that would overwrite changes of the user.
pub open spec fn overruled(path: Seq<char>) -> Seq<char> {
    "「"@ + label_of(path)
        + "」在磁盘上被改过 —— 你有未保存的修改，没有重载（保存后以你为准）"@
}

/// What is said of a file that cannot be read.
pub open spec fn unreadable(path: Seq<char>, why: Seq<char>) -> Seq<char> {
    "磁盘上的「"@ + label_of(path) + "」读不了："@ + why + "（编辑器里的内容没动）"@
}

/// The phase after the file was looked at, and what the document is told.
pub open spec fn after_probe(path: Seq<char>, known: Option<Stamp>, now: Option<Stamp>) -> (
    Watching,
    Told,
) {
    if !has_changed(known, now) {
        (Watching::Poll, Told::Nothing)
    } else {
        match now {
            None => (Watching::Poll, Told::Note { problem: missing(path), stamp: None }),
            Some(stamp) => (
                Watching::Settle { path, stamp, left: SETTLE_ROUNDS as nat },
                Told::Nothing,
            ),
        }
    }
}

/// The phase after a file that had changed was looked at again.
pub open spec fn after_settle(
    path: Seq<char>,
    stamp: Stamp,
    left: nat,
    next: Option<Stamp>,
) -> Watching {
    match next {
        None => Watching::Poll,
        Some(now) => if now == stamp {
            Watching::Judge { path, stamp }
        } else if left <= 1 {
            Watching::Poll
        } else {
            Watching::Settle { path, stamp: now, left: (left - 1) as nat }
        },
    }
}

/// The phase after the document was asked whether it may be replaced, and what it is
/// told.
pub open spec fn after_judge(path: Seq<char>, stamp: Stamp, answer: UpdateOutcome<Verdict>) -> (
    Watching,
    Told,
) {
    match answer {
        UpdateOutcome::Done(Verdict::Reload) => (Watching::Read { path, stamp }, Told::Nothing),
        UpdateOutcome::Done(_) => (
            Watching::Poll,
            Told::Note { problem: overruled(path), stamp: Some(stamp) },
        ),
        UpdateOutcome::Busy => (Watching::Poll, Told::Nothing),
        UpdateOutcome::Gone => (Watching::Stopped, Told::Nothing),
    }
}

/// What the document is told of what was read.
pub open spec fn after_read(
    path: Seq<char>,
    stamp: Stamp,
    read: Result<Seq<char>, Seq<char>>,
) -> Told {
    match read {
        Ok(text) => Told::Pend { text, stamp },
        Err(why) => Told::Note { problem: unreadable(path, why), stamp: Some(stamp) },
    }
}

impl Phase {
    /// How many milliseconds are to be waited before what the phase asks for.
    pub fn delay(&self) -> (r: u64)
        ensures
            r == match self@ {
                Watching::Poll => POLL_MS,
                Watching::Settle { .. } => SETTLE_MS,
                _ => 0,
            },
    {
        match self {
            Phase::Poll => POLL_MS,
            Phase::Settle { .. } => SETTLE_MS,
            _ => 0,
        }
    }

    /// Takes over which file matters.
    pub fn polled(answer: UpdateOutcome<Option<(String, Option<Stamp>)>>) -> (r: Phase)
        ensures
            r@ == after_poll(answer),
    {
        match answer {
            UpdateOutcome::Done(Some((path, known))) => Phase::Probe { path, known },
            UpdateOutcome::Done(None) => Phase::Poll,
            UpdateOutcome::Busy => Phase::Poll,
            UpdateOutcome::Gone => Phase::Stopped,
        }
    }

    /// Takes over how the file looks.
    pub fn probed(path: String, known: Option<Stamp>, now: Option<Stamp>) -> (r: (Phase, Effect))
        ensures
            (r.0@, r.1@) == after_probe(path@, known, now),
    {
        if !changed(known, now) {
            return (Phase::Poll, Effect::Nothing);
        }
        match now {
            None => {
                let label = labels::short_label(path.as_str());
                let problem = text::three(
                    "「",
                    label.as_str(),
                    "」在磁盘上不见了（编辑器里的内容没动）",
                );
                (Phase::Poll, Effect::Note { problem, stamp: None })
            },
            Some(stamp) => (Phase::Settle { path, stamp, left: SETTLE_ROUNDS }, Effect::Nothing),
        }
    }

    /// Takes over how the file looks after a while.
    pub fn settled(path: String, stamp: Stamp, left: u32, next: Option<Stamp>) -> (r: Phase)
        ensures
            r@ == after_settle(path@, stamp, left as nat, next),
    {
        match next {
            None => Phase::Poll,
            Some(now) => if !now.differs(&stamp) {
                Phase::Judge { path, stamp }
            } else if left <= 1 {
                Phase::Poll
            } else {
                Phase::Settle { path, stamp: now, left: left - 1 }
            },
        }
    }

    /// Takes over whether the document may be replaced.
    pub fn judged(path: String, stamp: Stamp, answer: UpdateOutcome<Verdict>) -> (r: (Phase, Effect))
        ensures
            (r.0@, r.1@) == after_judge(path@, stamp, answer),
    {
        match answer {
            UpdateOutcome::Done(Verdict::Reload) => (Phase::Read { path, stamp }, Effect::Nothing),
            UpdateOutcome::Done(_) => {
                let label = labels::short_label(path.as_str());
                let problem = text::three(
                    "「",
                    label.as_str(),
                    "」在磁盘上被改过 —— 你有未保存的修改，没有重载（保存后以你为准）",
                );
                (Phase::Poll, Effect::Note { problem, stamp: Some(stamp) })
            },
            UpdateOutcome::Busy => (Phase::Poll, Effect::Nothing),
            UpdateOutcome::Gone => (Phase::Stopped, Effect::Nothing),
        }
    }

    /// Takes over what was read.
    pub fn read(path: &str, stamp: Stamp, outcome: Result<String, String>) -> (r: Effect)
        ensures
            r@ == after_read(
                path@,
                stamp,
                match outcome {
                    Ok(text) => Ok(text@),
                    Err(why) => Err(why@),
                },
            ),
    {
        match outcome {
            Ok(text) => Effect::Pend { text, stamp },
            Err(why) => {
                let label = labels::short_label(path);
                let mut problem = text::three("磁盘上的「", label.as_str(), "」读不了：");
                problem.append(why.as_str());
                problem.append("（编辑器里的内容没动）");
                Effect::Note { problem, stamp: Some(stamp) }
            },
        }
    }
}

/// No change is ever quiet. A file that is there and is of another size or of another time
/// than it was known to be, or was not there before, is looked at again until it is at
/// rest; of one that went away the document is told.
pub proof fn every_change_is_noticed(path: Seq<char>, known: Option<Stamp>, now: Option<Stamp>)
    ensures
        now matches Some(n) && (known matches Some(k) ==> n.len != k.len || n.mtime != k.mtime)
            ==> after_probe(path, known, now) == (
            Watching::Settle { path, stamp: now->0, left: SETTLE_ROUNDS as nat },
            Told::Nothing,
        ),
        now is None && known is Some ==> after_probe(path, known, now).0 == Watching::Poll
            && after_probe(path, known, now).1 is Note && after_probe(
            path,
            known,
            now,
        ).1->Note_stamp is None,
{
}

/// What the watch over a file comes to that had changed, after a number of looks.
pub open spec fn after_looks(path: Seq<char>, stamp: Stamp, left: nat, looks: Seq<Option<Stamp>>)
    -> Watching
    decreases looks.len(),
{
    if looks.len() == 0 {
        Watching::Settle { path, stamp, left }
    } else {
        match after_looks(path, stamp, left, looks.drop_last()) {
            Watching::Settle { path, stamp, left } => after_settle(
                path,
                stamp,
                left,
                looks.last(),
            ),
            other => other,
        }
    }
}

/// While a file goes on changing, the watch goes on with the state that it saw last.
pub proof fn changing_files_are_watched_on(
    path: Seq<char>,
    first: Stamp,
    left: nat,
    states: Seq<Stamp>,
)
    requires
        states.len() < left,
        states.len() > 0 ==> states[0] != first,
        forall|i: int| 0 < i < states.len() ==> #[trigger] states[i] != states[i - 1],
    ensures
        after_looks(path, first, left, states.map_values(|s: Stamp| Some(s)))
            == (Watching::Settle {
            path,
            stamp: if states.len() == 0 {
                first
            } else {
                states.last()
            },
            left: (left - states.len()) as nat,
        }),
    decreases states.len(),
{
    let looks = states.map_values(|s: Stamp| Some(s));
    if states.len() > 0 {
        let before = states.drop_last();
        assert forall|i: int| 0 < i < before.len() implies #[trigger] before[i] != before[i - 1] by {
            assert(before[i] == states[i]);
            assert(before[i - 1] == states[i - 1]);
        }
        changing_files_are_watched_on(path, first, left, before);
        assert(looks.drop_last() =~= before.map_values(|s: Stamp| Some(s)));
        assert(looks.last() == Some(states.last()));
        assert(states[states.len() - 1] == states.last());
    }
}

/// A change on disk reaches a clean document: whatever the file looked like before and
/// however often it changed while it was watched, once two looks agree the document is
/// given what was read, with the state that the file is then in.
pub proof fn changes_reach_a_clean_document(
    path: Seq<char>,
    known: Option<Stamp>,
    first: Stamp,
    states: Seq<Stamp>,
    text: Seq<char>,
)
    requires
        known != Some(first),
        states.len() < SETTLE_ROUNDS,
        states.len() > 0 ==> states[0] != first,
        forall|i: int| 0 < i < states.len() ==> #[trigger] states[i] != states[i - 1],
    ensures
        ({
            let last = if states.len() == 0 {
                first
            } else {
                states.last()
            };
            let looks = states.map_values(|s: Stamp| Some(s)).push(Some(last));
            &&& after_probe(path, known, Some(first)).0 == (Watching::Settle {
                path,
                stamp: first,
                left: SETTLE_ROUNDS as nat,
            })
            &&& after_looks(path, first, SETTLE_ROUNDS as nat, looks) == (Watching::Judge {
                path,
                stamp: last,
            })
            &&& after_judge(path, last, UpdateOutcome::Done(judged(true, false))) == (
                Watching::Read { path, stamp: last },
                Told::Nothing,
            )
            &&& after_read(path, last, Ok(text)) == (Told::Pend { text, stamp: last })
        }),
{
    let last = if states.len() == 0 {
        first
    } else {
        states.last()
    };
    let some = states.map_values(|s: Stamp| Some(s));
    changing_files_are_watched_on(path, first, SETTLE_ROUNDS as nat, states);
    assert(some.push(Some(last)).drop_last() =~= some);
}

/// Whoever has unsaved changes keeps them: a change on disk is told, and nothing is read.
pub proof fn changes_do_not_reach_an_edited_document(path: Seq<char>, stamp: Stamp)
    ensures
        after_judge(path, stamp, UpdateOutcome::Done(judged(true, true))).0 == Watching::Poll,
        after_judge(path, stamp, UpdateOutcome::Done(judged(true, true))).1 is Note,
        after_judge(path, stamp, UpdateOutcome::Done(judged(true, true))).1->Note_stamp == Some(
            stamp,
        ),
{
}

/// A file is judged only after two looks in a row agreed on it.
pub proof fn files_are_at_rest_when_judged(
    path: Seq<char>,
    stamp: Stamp,
    left: nat,
    next: Option<Stamp>,
)
    requires
        after_settle(path, stamp, left, next) is Judge,
    ensures
        next == Some(stamp),
        after_settle(path, stamp, left, next) == (Watching::Judge { path, stamp }),
{
}

/// A file that keeps changing is given up after a number of looks.
pub proof fn settling_ends(path: Seq<char>, stamp: Stamp, left: nat, next: Option<Stamp>)
    requires
        after_settle(path, stamp, left, next) is Settle,
    ensures
        after_settle(path, stamp, left, next)->Settle_left < left,
        after_settle(path, stamp, left, next)->Settle_left > 0,
{
}

/// A text is read from disk only where the document has no changes of its own and is
/// the user's.
pub proof fn only_clean_documents_are_replaced(
    path: Seq<char>,
    stamp: Stamp,
    explicit_file: bool,
    dirty: bool,
)
    requires
        after_judge(path, stamp, UpdateOutcome::Done(judged(explicit_file, dirty))).0 is Read,
    ensures
        explicit_file,
        !dirty,
{
}

/// A change that was told to the document is the state that it then knows: the same
/// state is no change again.
pub proof fn known_changes_are_quiet(path: Seq<char>, now: Option<Stamp>)
    ensures
        after_probe(path, now, now) == (Watching::Poll, Told::Nothing),
{
}

/// A place past the last line goes to the last line, and one past the end of its line to
/// that end.
pub proof fn places_outside_go_to_the_nearest_end(line: int, character: int, s: Seq<char>)
    requires
        0 <= line,
        0 <= character,
    ensures
        line >= pieces(s, '\n').len() ==> clamped(line, character, s).0 == pieces(s, '\n').len() - 1,
        line < pieces(s, '\n').len() ==> clamped(line, character, s).0 == line,
        ({
            let n = pieces(s, '\n')[clamped(line, character, s).0].len();
            &&& character > n ==> clamped(line, character, s).1 == n
            &&& character <= n ==> clamped(line, character, s).1 == character
        }),
{
}

} // verus!
