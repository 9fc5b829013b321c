//! A terminal: what is sent to it, and what comes of its events.

use vstd::prelude::*;
use vstd::string::*;

use crate::decimal;
use crate::decimal::signed;
use crate::offset::bytes;
use crate::text;
use crate::text::optional;

verus! {

/// How large a terminal is, in characters.
#[derive(Clone, Copy, Debug, PartialEq, Eq, Structural)]
pub struct TerminalSize {
    pub columns: usize,
    pub lines: usize,
}

/// What a terminal reports.
#[derive(Clone, Copy, Debug, PartialEq, Eq, Structural)]
pub enum TermEvent {
    /// There is something new to show.
    Wakeup,
    Bell,
    /// The shell has ended, with a code where that is known.
    ChildExit(Option<i32>),
}

/// What the terminal behind it reports.
#[derive(Clone, Copy, Debug, PartialEq, Eq, Structural)]
pub enum Signal {
    Wakeup,
    Bell,
    ChildExit(Option<i32>),
    Exit,
    /// Anything else.
    Other,
}

/// What is reported of a signal, if anything.
pub fn event_of(signal: Signal) -> (r: Option<TermEvent>)
    ensures
        r == match signal {
            Signal::Wakeup => Some(TermEvent::Wakeup),
            Signal::Bell => Some(TermEvent::Bell),
            Signal::ChildExit(code) => Some(TermEvent::ChildExit(code)),
            Signal::Exit => Some(TermEvent::ChildExit(None)),
            Signal::Other => None,
        },
{
    match signal {
        Signal::Wakeup => Some(TermEvent::Wakeup),
        Signal::Bell => Some(TermEvent::Bell),
        Signal::ChildExit(code) => Some(TermEvent::ChildExit(code)),
        Signal::Exit => Some(TermEvent::ChildExit(None)),
        Signal::Other => None,
    }
}

/// A text whose lines end with a carriage return, whichever way they ended before.
pub open spec fn with_returns(s: Seq<char>) -> Seq<char>
    decreases s.len(),
{
    if s.len() == 0 {
        Seq::empty()
    } else {
        let before = with_returns(s.drop_last());
        if s.last() != '\n' {
            before.push(s.last())
        } else if s.len() > 1 && s[s.len() - 2] == '\r' {
            before
        } else {
            before.push('\r')
        }
    }
}

/// What is sent to a terminal for a text that is pasted: in brackets where the shell
/// wants to tell it from typing.
pub open spec fn pasted(s: Seq<char>, bracketed: bool) -> Seq<char> {
    if bracketed {
        "\x1b[200~"@ + with_returns(s) + "\x1b[201~"@
    } else {
        with_returns(s)
    }
}

pub(crate) fn bytes_of(s: &str) -> (r: Vec<u8>)
    ensures
        r@ == bytes(s@),
{
    let b = s.as_bytes();
    let mut out: Vec<u8> = Vec::new();
    let mut i: usize = 0;
    while i < b.len()
        invariant
            i <= b@.len(),
            out@ == b@.take(i as int),
        decreases b@.len() - i,
    {
        out.push(b[i]);
        assert(out@ =~= b@.take(i + 1));
        i += 1;
    }
    assert(b@.take(i as int) =~= b@);
    out
}

/// The bytes that are sent to a terminal for a text that is pasted.
pub fn paste_bytes(text: &str, bracketed: bool) -> (r: Vec<u8>)
    ensures
        r@ == bytes(pasted(text@, bracketed)),
{
    let v = text::chars_of(text);
    let mut out = String::new();
    let mut i: usize = 0;
    while i < v.len()
        invariant
            i <= v@.len(),
            out@ == with_returns(v@.take(i as int)),
        decreases v@.len() - i,
    {
        assert(v@.take(i + 1).drop_last() =~= v@.take(i as int));
        if v[i] != '\n' {
            out.push(v[i]);
        } else if i > 0 && v[i - 1] == '\r' {
            assert(v@.take(i + 1)[i - 1] == '\r');
        } else {
            out.push('\r');
        }
        i += 1;
    }
    assert(v@.take(i as int) =~= v@);
    if bracketed {
        let all = text::three("\x1b[200~", out.as_str(), "\x1b[201~");
        bytes_of(all.as_str())
    } else {
        bytes_of(out.as_str())
    }
}

/// No line feed reaches the terminal, and a text without one is sent as it is.
pub proof fn line_feeds_are_never_pasted(s: Seq<char>)
    ensures
        !with_returns(s).contains('\n'),
        !s.contains('\n') ==> with_returns(s) == s,
        with_returns(s).len() <= s.len(),
    decreases s.len(),
{
    if s.len() > 0 {
        let t = s.drop_last();
        line_feeds_are_never_pasted(t);
        let w = with_returns(s);
        let b = with_returns(t);
        if w.contains('\n') {
            let k = choose|k: int| 0 <= k < w.len() && w[k] == '\n';
            if k < b.len() {
                assert(b[k] == '\n');
            }
        }
        if !s.contains('\n') {
            if t.contains('\n') {
                let k = choose|k: int| 0 <= k < t.len() && t[k] == '\n';
                assert(s[k] == '\n');
            }
            assert(s[s.len() - 1] == s.last());
            assert(w =~= s);
        }
    }
}

proof fn lemma_returns_add(a: Seq<char>, b: Seq<char>)
    requires
        a.len() == 0 || a.last() != '\r' || b.len() == 0 || b[0] != '\n',
    ensures
        with_returns(a + b) == with_returns(a) + with_returns(b),
    decreases b.len(),
{
    if b.len() == 0 {
        assert(a + b =~= a);
        assert(with_returns(a) + with_returns(b) =~= with_returns(a));
    } else {
        let d = b.drop_last();
        let all = a + b;
        lemma_returns_add(a, d);
        assert(all.drop_last() =~= a + d);
        assert(all.last() == b.last());
        if b.len() > 1 {
            assert(all[all.len() - 2] == b[b.len() - 2]);
        } else if a.len() > 0 {
            assert(all[all.len() - 2] == a.last());
        }
        assert(with_returns(all) =~= with_returns(a) + with_returns(b));
    }
}

/// Every line is pasted, and each ends with one carriage return, whether it ended with a
/// line feed or with a carriage return and a line feed.
pub proof fn every_line_is_pasted(a: Seq<char>, b: Seq<char>)
    ensures
        with_returns(a + seq!['\r', '\n'] + b) == with_returns(a) + seq!['\r'] + with_returns(b),
        a.len() == 0 || a.last() != '\r' ==> with_returns(a + seq!['\n'] + b) == with_returns(a)
            + seq!['\r'] + with_returns(b),
{
    let crlf = seq!['\r', '\n'];
    let lf = seq!['\n'];
    lemma_returns_add(a + crlf, b);
    lemma_returns_add(a, crlf);
    reveal_with_fuel(with_returns, 3);
    assert(crlf.drop_last() =~= seq!['\r']);
    assert(seq!['\r'].drop_last() =~= Seq::empty());
    assert(with_returns(crlf) =~= seq!['\r']);
    if a.len() == 0 || a.last() != '\r' {
        lemma_returns_add(a + lf, b);
        lemma_returns_add(a, lf);
        assert(lf.drop_last() =~= Seq::empty());
        assert(with_returns(lf) =~= seq!['\r']);
    }
}

/// What is pasted in brackets is what is pasted without, between the two marks.
pub proof fn brackets_go_around_what_is_pasted(s: Seq<char>)
    ensures
        pasted(s, true) == "\x1b[200~"@ + pasted(s, false) + "\x1b[201~"@,
        pasted(s, false) == with_returns(s),
{
}

/// The row of the history that a row of the screen shows, where the screen is scrolled
/// back by `offset` rows.
pub fn grid_line(row: i32, offset: i32) -> (r: i32)
    requires
        i32::MIN <= row - offset <= i32::MAX,
    ensures
        r == row - offset,
{
    row - offset
}

/// After how many quiet looks the terminal is looked at less often.
pub const IDLE_LIMIT: u32 = 40;

/// How often a terminal was looked at in a row without anything new.
pub struct Pump {
    pub idle: u32,
}

/// What a look at a terminal came to.
pub struct Pumped {
    /// What is said, where the shell has ended.
    pub message: Option<String>,
    /// Whether the terminal is drawn again.
    pub redraw: bool,
    /// Whether it is not looked at any more.
    pub over: bool,
}

/// The first exit among the events.
pub open spec fn first_exit(events: Seq<TermEvent>) -> Option<Option<i32>>
    decreases events.len(),
{
    if events.len() == 0 {
        None
    } else {
        match first_exit(events.drop_last()) {
            Some(code) => Some(code),
            None => match events.last() {
                TermEvent::ChildExit(code) => Some(code),
                _ => None,
            },
        }
    }
}

/// The first exit is the one that counts, wherever it comes.
pub proof fn the_first_exit_counts(events: Seq<TermEvent>, k: int, code: Option<i32>)
    requires
        0 <= k < events.len(),
        events[k] == TermEvent::ChildExit(code),
        forall|i: int| 0 <= i < k ==> !(#[trigger] events[i] is ChildExit),
    ensures
        first_exit(events) == Some(code),
    decreases events.len(),
{
    let some = events.drop_last();
    if k < some.len() {
        assert(some[k] == events[k]);
        assert forall|i: int| 0 <= i < k implies !(#[trigger] some[i] is ChildExit) by {
            assert(some[i] == events[i]);
        }
        the_first_exit_counts(some, k, code);
    } else {
        assert forall|i: int| 0 <= i < some.len() implies !(#[trigger] some[i] is ChildExit) by {
            assert(some[i] == events[i]);
        }
        no_exit_is_made_up(some);
    }
}

/// Without an exit among the events, none is told.
pub proof fn no_exit_is_made_up(events: Seq<TermEvent>)
    requires
        forall|i: int| 0 <= i < events.len() ==> !(#[trigger] events[i] is ChildExit),
    ensures
        first_exit(events) is None,
    decreases events.len(),
{
    if events.len() > 0 {
        let some = events.drop_last();
        assert forall|i: int| 0 <= i < some.len() implies !(#[trigger] some[i] is ChildExit) by {
            assert(some[i] == events[i]);
        }
        no_exit_is_made_up(some);
        assert(!(events[events.len() - 1] is ChildExit));
    }
}

/// What is said of a shell that has ended.
pub open spec fn exit_text(code: Option<i32>) -> Seq<char> {
    "终端已退出（退出码 "@ + (match code {
        Some(c) => "Some("@ + signed(c as int) + ")"@,
        None => "None"@,
    }) + "）"@
}

fn exit_message(code: Option<i32>) -> (r: String)
    ensures
        r@ == exit_text(code),
{
    let word = match code {
        Some(c) => {
            let number = decimal::show_signed(c);
            text::three("Some(", number.as_str(), ")")
        },
        None => "None".to_owned(),
    };
    text::three("终端已退出（退出码 ", word.as_str(), "）")
}

impl Pump {
    /// How many milliseconds pass before the next look: fewer while there is something
    /// new.
    pub fn interval(&self) -> (r: u64)
        ensures
            r == if self.idle > IDLE_LIMIT {
                120u64
            } else {
                50u64
            },
    {
        if self.idle > IDLE_LIMIT {
            120
        } else {
            50
        }
    }

    /// Takes over the events since the last look.
    pub fn feed(&mut self, events: &Vec<TermEvent>) -> (r: Pumped)
        ensures
            final(self).idle == if events@.len() > 0 {
                0
            } else if old(self).idle == u32::MAX {
                u32::MAX as int
            } else {
                old(self).idle + 1
            },
            r.redraw == events@.contains(TermEvent::Wakeup),
            r.over == first_exit(events@) is Some,
            match first_exit(events@) {
                Some(code) => r.message matches Some(m) && m@ == exit_text(code),
                None => r.message is None,
            },
    {
        if events.len() == 0 {
            self.idle = self.idle.saturating_add(1);
            return Pumped { message: None, redraw: false, over: false };
        }
        self.idle = 0;
        let mut redraw = false;
        let mut exited: Option<Option<i32>> = None;
        let mut i: usize = 0;
        while i < events.len()
            invariant
                i <= events@.len(),
                redraw == events@.take(i as int).contains(TermEvent::Wakeup),
                exited == first_exit(events@.take(i as int)),
            decreases events@.len() - i,
        {
            let ghost seen = events@.take(i as int);
            let ghost next = events@.take(i + 1);
            assert(next.drop_last() =~= seen);
            assert(next.last() == events@[i as int]);
            proof {
                if seen.contains(TermEvent::Wakeup) {
                    let k = choose|k: int| 0 <= k < seen.len() && seen[k] == TermEvent::Wakeup;
                    assert(next[k] == TermEvent::Wakeup);
                }
                if next.contains(TermEvent::Wakeup) && next.last() != TermEvent::Wakeup {
                    let k = choose|k: int| 0 <= k < next.len() && next[k] == TermEvent::Wakeup;
                    assert(seen[k] == TermEvent::Wakeup);
                }
            }
            match events[i] {
                TermEvent::Wakeup => {
                    redraw = true;
                    assert(next[i as int] == TermEvent::Wakeup);
                },
                TermEvent::Bell => {},
                TermEvent::ChildExit(code) => {
                    if exited.is_none() {
                        exited = Some(code);
                    }
                },
            }
            i += 1;
        }
        assert(events@.take(i as int) =~= events@);
        match exited {
            Some(code) => Pumped { message: Some(exit_message(code)), redraw, over: true },
            None => Pumped { message: None, redraw, over: false },
        }
    }
}

/// Whether a terminal is to be given another size.
pub fn needs_resize(last: TerminalSize, now: TerminalSize) -> (r: bool)
    ensures
        r == (last != now),
{
    last.columns != now.columns || last.lines != now.lines
}

/// The text that is selected; an empty one is none.
pub fn selection_text(text: Option<String>) -> (r: Option<String>)
    ensures
        match text {
            Some(t) => optional(r) == if t@.len() == 0 {
                None
            } else {
                Some(t@)
            },
            None => r is None,
        },
{
    match text {
        Some(t) => if t.as_str().is_empty() {
            None
        } else {
            Some(t)
        },
        None => None,
    }
}

} // verus!
