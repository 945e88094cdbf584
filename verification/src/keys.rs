//! Key presses and terminal events as values, and what is made of them.
use vstd::prelude::*;
use vstd::string::StringExecFns;

use crate::text::{decimal, decimal_u8, push_char, push_chars};

verus! {

/// A key, as the terminal reports it.
#[derive(Clone, Copy, Debug, PartialEq, Eq, Structural)]
pub enum KeyCode {
    Backspace,
    Enter,
    Left,
    Right,
    Up,
    Down,
    Home,
    End,
    PageUp,
    PageDown,
    Tab,
    BackTab,
    Delete,
    Insert,
    F(u8),
    Char(char),
    Null,
    Esc,
    /// Any other key (media keys, lone modifiers, ...).
    Other,
}

/// The modifier keys held down with a key.
#[derive(Clone, Copy, Debug, PartialEq, Eq, Structural)]
pub struct KeyModifiers {
    pub shift: bool,
    pub control: bool,
    pub alt: bool,
}

/// A key press: the key and its modifiers.
#[derive(Clone, Copy, Debug, PartialEq, Eq, Structural)]
pub struct KeyEvent {
    pub code: KeyCode,
    pub modifiers: KeyModifiers,
}

impl KeyModifiers {
    /// No modifier held.
    pub fn none() -> (m: KeyModifiers)
        ensures
            !m.shift && !m.control && !m.alt,
    {
        KeyModifiers { shift: false, control: false, alt: false }
    }
}

impl KeyEvent {
    /// A key pressed without modifiers.
    pub open spec fn plain_spec(code: KeyCode) -> KeyEvent {
        KeyEvent { code, modifiers: KeyModifiers { shift: false, control: false, alt: false } }
    }

    /// A key pressed without modifiers.
    pub fn plain(code: KeyCode) -> (e: KeyEvent)
        ensures
            e.code == code,
            !e.modifiers.shift && !e.modifiers.control && !e.modifiers.alt,
    {
        KeyEvent { code, modifiers: KeyModifiers::none() }
    }
}

/// Questions about the modifiers of a key press.
pub trait KeyEventExt {
    /// Alt is held.
    fn is_alt(&self) -> bool;

    /// Control is held.
    fn is_ctrl(&self) -> bool;

    /// The key is the character `c` with Control held.
    fn is_ctrl_char(&self, c: char) -> bool;

    /// Shift is held, or the key is an upper-case letter.
    fn is_shift(&self) -> bool;
}

impl KeyEventExt for KeyEvent {
    fn is_alt(&self) -> (b: bool)
        ensures
            b == self.modifiers.alt,
    {
        self.modifiers.alt
    }

    fn is_ctrl(&self) -> (b: bool)
        ensures
            b == self.modifiers.control,
    {
        self.modifiers.control
    }

    fn is_ctrl_char(&self, c: char) -> (b: bool)
        ensures
            b == (self.modifiers.control && self.code == KeyCode::Char(c)),
    {
        self.modifiers.control && match self.code {
            KeyCode::Char(k) => k == c,
            _ => false,
        }
    }

    fn is_shift(&self) -> (b: bool)
        ensures
            b == (self.modifiers.shift || (self.code matches KeyCode::Char(k) && 'A' <= k && k <= 'Z')),
    {
        self.modifiers.shift || match self.code {
            KeyCode::Char(k) => 'A' <= k && k <= 'Z',
            _ => false,
        }
    }
}

/// Something the terminal reported, other than a clock tick.
#[derive(Clone, Copy, Debug, PartialEq, Eq, Structural)]
pub enum InputEvent {
    Key(KeyEvent),
    Mouse,
    Resize(u16, u16),
    /// Focus changes, pastes and the like.
    Other,
}

/// An event of the terminal UI: a clock tick or terminal input.
#[derive(Clone, Copy, Debug, PartialEq, Eq, Structural)]
pub enum BfEvent {
    Tick,
    Input(InputEvent),
}

/// The unmodified key press of character `c`.
pub open spec fn is_plain_char(e: BfEvent, c: char) -> bool {
    e == BfEvent::Input(InputEvent::Key(KeyEvent { code: KeyCode::Char(c), modifiers: KeyModifiers { shift: false, control: false, alt: false } }))
}

/// The page key that the three events `a b c` spell as an escape sequence
/// that the terminal did not decode: `[` `5` `~` is Page Up and `[` `6` `~`
/// Page Down (the `5` or `6` may carry modifiers).
pub open spec fn page_key_of(a: BfEvent, b: BfEvent, c: BfEvent) -> Option<KeyCode> {
    if is_plain_char(a, '[') && is_plain_char(c, '~') {
        match b {
            BfEvent::Input(InputEvent::Key(k)) => if k.code == KeyCode::Char('5') {
                Some(KeyCode::PageUp)
            } else if k.code == KeyCode::Char('6') {
                Some(KeyCode::PageDown)
            } else {
                None
            },
            _ => None,
        }
    } else {
        None
    }
}

/// The events with every undecoded page-key sequence replaced by the page
/// key, matching from the end.
pub open spec fn collapse_spec(events: Seq<BfEvent>) -> Seq<BfEvent>
    decreases events.len(),
{
    if events.len() < 3 {
        events
    } else {
        let n = events.len() as int;
        match page_key_of(events[n - 3], events[n - 2], events[n - 1]) {
            Some(code) => collapse_spec(events.subrange(0, n - 3)).push(
                BfEvent::Input(InputEvent::Key(KeyEvent { code, modifiers: KeyModifiers { shift: false, control: false, alt: false } })),
            ),
            None => collapse_spec(events.drop_last()).push(events[n - 1]),
        }
    }
}

fn is_plain_char_event(e: &BfEvent, c: char) -> (b: bool)
    ensures
        b == is_plain_char(*e, c),
{
    match e {
        BfEvent::Input(InputEvent::Key(k)) => match k.code {
            KeyCode::Char(x) => x == c && !k.modifiers.shift && !k.modifiers.control && !k.modifiers.alt,
            _ => false,
        },
        _ => false,
    }
}

fn page_key(a: &BfEvent, b: &BfEvent, c: &BfEvent) -> (r: Option<KeyCode>)
    ensures
        r == page_key_of(*a, *b, *c),
{
    if is_plain_char_event(a, '[') && is_plain_char_event(c, '~') {
        match b {
            BfEvent::Input(InputEvent::Key(k)) => match k.code {
                KeyCode::Char('5') => Some(KeyCode::PageUp),
                KeyCode::Char('6') => Some(KeyCode::PageDown),
                _ => None,
            },
            _ => None,
        }
    } else {
        None
    }
}

/// Replaces the escape sequences of Page Up and Page Down that arrived as
/// three separate key presses (`[`, `5` or `6`, `~`) by the page key itself.
#[verifier::spinoff_prover]
#[verifier::rlimit(30)]
pub fn collapse_page_keys(events: Vec<BfEvent>) -> (r: Vec<BfEvent>)
    ensures
        r@ == collapse_spec(events@),
{
    let mut rev: Vec<BfEvent> = Vec::new();
    let mut j: usize = events.len();
    assert(events@.subrange(0, j as int) =~= events@);
    assert(rev@.reverse() =~= Seq::<BfEvent>::empty());
    assert(collapse_spec(events@) + Seq::<BfEvent>::empty() =~= collapse_spec(events@));
    while j >= 3
        invariant
            j <= events@.len(),
            collapse_spec(events@) == collapse_spec(events@.subrange(0, j as int)) + rev@.reverse(),
        decreases j,
    {
        let ghost pre = events@.subrange(0, j as int);
        assert(pre[j - 3] == events@[j - 3] && pre[j - 2] == events@[j - 2] && pre[j - 1] == events@[j - 1]);
        match page_key(&events[j - 3], &events[j - 2], &events[j - 1]) {
            Some(code) => {
                let e = BfEvent::Input(InputEvent::Key(KeyEvent { code, modifiers: KeyModifiers::none() }));
                let ghost old_rev = rev@;
                rev.push(e);
                assert(pre.subrange(0, j - 3) =~= events@.subrange(0, j - 3));
                assert(rev@.reverse() =~= seq![e] + old_rev.reverse());
                assert(collapse_spec(pre) == collapse_spec(events@.subrange(0, j - 3)).push(e));
                assert(collapse_spec(events@.subrange(0, j - 3)).push(e) + old_rev.reverse() =~= collapse_spec(events@.subrange(0, j - 3)) + rev@.reverse());
                j = j - 3;
            },
            None => {
                let e = events[j - 1];
                let ghost old_rev = rev@;
                rev.push(e);
                assert(pre.drop_last() =~= events@.subrange(0, j - 1));
                assert(rev@.reverse() =~= seq![e] + old_rev.reverse());
                assert(collapse_spec(pre) == collapse_spec(events@.subrange(0, j - 1)).push(e));
                assert(collapse_spec(events@.subrange(0, j - 1)).push(e) + old_rev.reverse() =~= collapse_spec(events@.subrange(0, j - 1)) + rev@.reverse());
                j = j - 1;
            },
        }
    }
    let ghost rest = events@.subrange(0, j as int);
    assert(collapse_spec(rest) == rest);
    let mut out: Vec<BfEvent> = Vec::new();
    let mut k: usize = 0;
    while k < j
        invariant
            k <= j,
            j <= events@.len(),
            j < 3,
            out@ == events@.subrange(0, k as int),
        decreases j - k,
    {
        out.push(events[k]);
        assert(events@.subrange(0, k as int + 1) =~= events@.subrange(0, k as int).push(events@[k as int]));
        k += 1;
    }
    let mut m: usize = rev.len();
    let ghost tail = rev@.reverse();
    while m > 0
        invariant
            m <= rev@.len(),
            tail == rev@.reverse(),
            out@ == rest + tail.subrange(0, (rev@.len() - m) as int),
        decreases m,
    {
        m -= 1;
        out.push(rev[m]);
        assert(tail[(rev@.len() - m - 1) as int] == rev@[m as int]);
        assert(tail.subrange(0, (rev@.len() - m) as int) =~= tail.subrange(0, (rev@.len() - m - 1) as int).push(rev@[m as int]));
    }
    assert(tail.subrange(0, rev@.len() as int) =~= tail);
    out
}

/// The name of a key as the input debugger shows it: a character in single
/// quotes (a quote escaped), `F` and the number of a function key, or the
/// key's name.
pub open spec fn key_name(code: KeyCode) -> Seq<char> {
    match code {
        KeyCode::Char(c) => if c == '\'' { seq!['\'', '\\', '\'', '\''] } else { seq!['\'', c, '\''] },
        KeyCode::F(n) => seq!['F'] + decimal(n as nat),
        KeyCode::Backspace => "Backspace"@,
        KeyCode::Enter => "Enter"@,
        KeyCode::Left => "Left"@,
        KeyCode::Right => "Right"@,
        KeyCode::Up => "Up"@,
        KeyCode::Down => "Down"@,
        KeyCode::Home => "Home"@,
        KeyCode::End => "End"@,
        KeyCode::PageUp => "PageUp"@,
        KeyCode::PageDown => "PageDown"@,
        KeyCode::Tab => "Tab"@,
        KeyCode::BackTab => "BackTab"@,
        KeyCode::Delete => "Delete"@,
        KeyCode::Insert => "Insert"@,
        KeyCode::Null => "Null"@,
        KeyCode::Esc => "Esc"@,
        KeyCode::Other => "Other"@,
    }
}

/// A key press as the input debugger shows it: the modifiers held
/// (Control, Alt, Shift — an upper-case letter counts as Shift) and the
/// key, joined by ` + `.
pub open spec fn key_label(e: KeyEvent) -> Seq<char> {
    let shift = e.modifiers.shift || (e.code matches KeyCode::Char(k) && 'A' <= k && k <= 'Z');
    (if e.modifiers.control { "Ctrl + "@ } else { Seq::empty() }) + (if e.modifiers.alt { "Alt + "@ } else { Seq::empty() })
        + (if shift { "Shift + "@ } else { Seq::empty() }) + key_name(e.code)
}

fn key_name_string(code: KeyCode) -> (s: String)
    ensures
        s@ == key_name(code),
{
    match code {
        KeyCode::Char(c) => {
            let mut s = String::new();
            if c == '\'' {
                push_char(&mut s, '\'');
                push_char(&mut s, '\\');
                push_char(&mut s, '\'');
                push_char(&mut s, '\'');
            } else {
                push_char(&mut s, '\'');
                push_char(&mut s, c);
                push_char(&mut s, '\'');
            }
            assert(s@ =~= key_name(code));
            s
        },
        KeyCode::F(n) => {
            let mut s = String::new();
            push_char(&mut s, 'F');
            let digits = decimal_u8(n);
            push_chars(&mut s, digits.as_slice());
            assert(s@ =~= key_name(code));
            s
        },
        KeyCode::Backspace => String::from_str("Backspace"),
        KeyCode::Enter => String::from_str("Enter"),
        KeyCode::Left => String::from_str("Left"),
        KeyCode::Right => String::from_str("Right"),
        KeyCode::Up => String::from_str("Up"),
        KeyCode::Down => String::from_str("Down"),
        KeyCode::Home => String::from_str("Home"),
        KeyCode::End => String::from_str("End"),
        KeyCode::PageUp => String::from_str("PageUp"),
        KeyCode::PageDown => String::from_str("PageDown"),
        KeyCode::Tab => String::from_str("Tab"),
        KeyCode::BackTab => String::from_str("BackTab"),
        KeyCode::Delete => String::from_str("Delete"),
        KeyCode::Insert => String::from_str("Insert"),
        KeyCode::Null => String::from_str("Null"),
        KeyCode::Esc => String::from_str("Esc"),
        KeyCode::Other => String::from_str("Other"),
    }
}

/// The label of a key press (see `key_label`).
pub fn key_event_label(event: KeyEvent) -> (s: String)
    ensures
        s@ == key_label(event),
{
    let mut s = String::new();
    if event.is_ctrl() {
        s.append("Ctrl + ");
    }
    if event.is_alt() {
        s.append("Alt + ");
    }
    if event.is_shift() {
        s.append("Shift + ");
    }
    let name = key_name_string(event.code);
    s.append(name.as_str());
    assert(s@ =~= key_label(event));
    s
}

/// Events among which no unmodified `[` key press occurs are left as they
/// are.
pub proof fn law_collapse_keeps_events_without_brackets(events: Seq<BfEvent>)
    requires
        forall|i: int| 0 <= i < events.len() ==> !is_plain_char(#[trigger] events[i], '['),
    ensures
        collapse_spec(events) == events,
    decreases events.len(),
{
    if events.len() >= 3 {
        let n = events.len() as int;
        assert(!is_plain_char(events[n - 3], '['));
        let dl = events.drop_last();
        assert forall|i: int| 0 <= i < dl.len() implies !is_plain_char(#[trigger] dl[i], '[') by {
            assert(dl[i] == events[i]);
        }
        law_collapse_keeps_events_without_brackets(dl);
        assert(dl.push(events[n - 1]) =~= events);
    }
}

} // verus!
