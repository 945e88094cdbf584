//! The decisions of the live editor: what a key press does to the editor,
//! its dialogues and the running script, and what the terminal side must
//! carry out (edit the text, save a file, restart the script).
use vstd::prelude::*;
use sha1::Digest;
use vstd::string::StringExecFns;
use vstd::utf8::encode_utf8;

use crate::dialogue::{command_view, dialogue_step, CommandView, Dialogue, DialogueButton, DialogueCommand, DialogueView, PromptDialogueCursor};
use crate::interpreter::{error_message, step, ExecError, Interpreter};
use crate::keys::{KeyCode, KeyEvent, KeyEventExt};
use crate::widgets::Spinner;

verus! {

/// An editing command for the code editor.
#[derive(Clone, Copy, Debug, PartialEq, Eq, Structural)]
pub enum EditCommand {
    /// Cursor one character back.
    Back,
    /// Cursor one character forward.
    Forward,
    /// Cursor one line up.
    Up,
    /// Cursor one line down.
    Down,
    /// Cursor to the start of the line.
    Head,
    /// Cursor to the end of the line.
    End,
    /// Cursor to the first line.
    Top,
    /// Cursor to the last line.
    Bottom,
    /// Break the line at the cursor.
    Newline,
    /// Insert a tab.
    Tab,
    /// Insert a character.
    Insert(char),
    /// Delete the character before the cursor.
    DeleteBack,
    /// Delete the character under the cursor.
    DeleteForward,
}

/// The editing command of a key press: arrows, Home, End, Page Up and Page
/// Down move the cursor (lines and pages only in a multi-line editor),
/// Enter and Tab insert (only in a multi-line editor), a character typed
/// without Control or Alt is inserted, Backspace and Delete delete.
pub open spec fn edit_command_of(e: KeyEvent, multi_line: bool) -> Option<EditCommand> {
    match e.code {
        KeyCode::Left => Some(EditCommand::Back),
        KeyCode::Right => Some(EditCommand::Forward),
        KeyCode::Up => if multi_line { Some(EditCommand::Up) } else { None },
        KeyCode::Down => if multi_line { Some(EditCommand::Down) } else { None },
        KeyCode::Home => Some(EditCommand::Head),
        KeyCode::End => Some(EditCommand::End),
        KeyCode::PageUp => if multi_line { Some(EditCommand::Top) } else { None },
        KeyCode::PageDown => if multi_line { Some(EditCommand::Bottom) } else { None },
        KeyCode::Enter => if multi_line { Some(EditCommand::Newline) } else { None },
        KeyCode::Tab => if multi_line { Some(EditCommand::Tab) } else { None },
        KeyCode::Char(c) => if !e.modifiers.control && !e.modifiers.alt { Some(EditCommand::Insert(c)) } else { None },
        KeyCode::Backspace => Some(EditCommand::DeleteBack),
        KeyCode::Delete => Some(EditCommand::DeleteForward),
        _ => None,
    }
}

/// What a key press asks of the code editor, if anything.
pub fn edit_command(event: KeyEvent, multi_line: bool) -> (c: Option<EditCommand>)
    ensures
        c == edit_command_of(event, multi_line),
{
    match event.code {
        KeyCode::Left => Some(EditCommand::Back),
        KeyCode::Right => Some(EditCommand::Forward),
        KeyCode::Up => if multi_line { Some(EditCommand::Up) } else { None },
        KeyCode::Down => if multi_line { Some(EditCommand::Down) } else { None },
        KeyCode::Home => Some(EditCommand::Head),
        KeyCode::End => Some(EditCommand::End),
        KeyCode::PageUp => if multi_line { Some(EditCommand::Top) } else { None },
        KeyCode::PageDown => if multi_line { Some(EditCommand::Bottom) } else { None },
        KeyCode::Enter => if multi_line { Some(EditCommand::Newline) } else { None },
        KeyCode::Tab => if multi_line { Some(EditCommand::Tab) } else { None },
        KeyCode::Char(c) => if !event.is_ctrl() && !event.is_alt() { Some(EditCommand::Insert(c)) } else { None },
        KeyCode::Backspace => Some(EditCommand::DeleteBack),
        KeyCode::Delete => Some(EditCommand::DeleteForward),
        _ => None,
    }
}

/// The SHA-1 digest of a byte string, as the `sha1` crate computes it.
pub uninterp spec fn sha1_of(data: Seq<u8>) -> Seq<u8>;

/// The SHA-1 digest of `data` (`sha1::Sha1::digest`), named `sha1_of`.
#[verifier::external_body]
pub fn sha1_digest(data: &[u8]) -> (d: [u8; 20])
    ensures
        d@ == sha1_of(data@),
{
    sha1::Sha1::digest(data).into()
}

/// The bytes of the lines of a text, one after the other (the line
/// endings are not part of the lines).
pub open spec fn lines_bytes(lines: Seq<Seq<u8>>) -> Seq<u8>
    decreases lines.len(),
{
    if lines.len() == 0 {
        Seq::empty()
    } else {
        lines_bytes(lines.drop_last()) + lines.last()
    }
}

/// The digest of the editor's text, line after line: what tells whether it
/// has changed since it was last saved.
pub fn lines_hash(lines: &[String]) -> (d: [u8; 20])
    ensures
        d@ == sha1_of(lines_bytes(lines@.map_values(|l: String| encode_utf8(l@)))),
{
    let ghost ls = lines@.map_values(|l: String| encode_utf8(l@));
    let mut all: Vec<u8> = Vec::new();
    let mut i: usize = 0;
    while i < lines.len()
        invariant
            i <= lines.len(),
            ls == lines@.map_values(|l: String| encode_utf8(l@)),
            all@ == lines_bytes(ls.subrange(0, i as int)),
        decreases lines.len() - i,
    {
        let b = lines[i].as_str().as_bytes();
        let mut k: usize = 0;
        let ghost before = all@;
        while k < b.len()
            invariant
                k <= b.len(),
                all@ == before + b@.subrange(0, k as int),
            decreases b.len() - k,
        {
            all.push(b[k]);
            assert(b@.subrange(0, k as int + 1) =~= b@.subrange(0, k as int).push(b@[k as int]));
            k += 1;
        }
        assert(b@.subrange(0, b.len() as int) =~= b@);
        assert(ls.subrange(0, i as int + 1).drop_last() =~= ls.subrange(0, i as int));
        assert(ls[i as int] == b@);
        i += 1;
    }
    assert(ls.subrange(0, lines.len() as int) =~= ls);
    sha1_digest(all.as_slice())
}

/// Whether two digests differ.
pub fn digests_differ(a: &[u8; 20], b: &[u8; 20]) -> (r: bool)
    ensures
        r == (a@ != b@),
{
    let mut i: usize = 0;
    while i < 20
        invariant
            i <= 20,
            a@.len() == 20,
            b@.len() == 20,
            forall|q: int| 0 <= q < i ==> a@[q] == b@[q],
        decreases 20 - i,
    {
        if a[i] != b[i] {
            return true;
        }
        i += 1;
    }
    assert(a@ =~= b@);
    false
}

/// How a script run in the background is doing.
#[derive(Clone, Debug)]
pub enum Status {
    /// Still running.
    Running,
    /// Stopped at a `,` with no input left.
    WaitingForInput,
    /// Ran to its end.
    Done,
    /// Stopped on an error, with its message.
    Error(String),
    /// The background run broke down, with the reason.
    FatalError(String),
}

/// The text the editor's header shows for a status.
pub open spec fn status_label(s: Status) -> Seq<char> {
    match s {
        Status::Done => "Done"@,
        Status::Running => "Running"@,
        Status::WaitingForInput => "Waiting for input"@,
        Status::Error(e) => "Error: "@ + e@,
        Status::FatalError(e) => "Fatal error: "@ + e@,
    }
}

impl Status {
    /// The text the editor's header shows for the status (see
    /// `status_label`).
    pub fn label(&self) -> (t: String)
        ensures
            t@ == status_label(*self),
    {
        match self {
            Status::Done => String::from_str("Done"),
            Status::Running => String::from_str("Running"),
            Status::WaitingForInput => String::from_str("Waiting for input"),
            Status::Error(e) => {
                let mut t = String::from_str("Error: ");
                t.append(e.as_str());
                t
            },
            Status::FatalError(e) => {
                let mut t = String::from_str("Fatal error: ");
                t.append(e.as_str());
                t
            },
        }
    }
}

/// Carries out one instruction of a background run and says how the run
/// is doing: `Done` at the end of the script, `WaitingForInput` at a `,`
/// with no input left, `Error` with the message of any other error,
/// `Running` otherwise.
pub fn advance(interpreter: &mut Interpreter) -> (s: Status)
    ensures
        final(interpreter)@ == step(old(interpreter)@).0,
        match step(old(interpreter)@).1 {
            None => s is Done,
            Some(Ok(_)) => s is Running,
            Some(Err(ExecError::InputNeeded)) => s is WaitingForInput,
            Some(Err(e)) => s matches Status::Error(m) && m@ == error_message(e),
        },
{
    match interpreter.next() {
        None => Status::Done,
        Some(Ok(_)) => Status::Running,
        Some(Err(ExecError::InputNeeded)) => Status::WaitingForInput,
        Some(Err(e)) => Status::Error(String::from_str(e.message())),
    }
}

/// The dialogue that asks for a file name, prefilled with `path` if given.
pub open spec fn save_as_view(path: Option<Seq<char>>) -> DialogueView {
    DialogueView::FileSaveAs(("Filename: "@, seq![DialogueButton::Cancel, DialogueButton::Okay], PromptDialogueCursor::Input, match path {
        Some(v) => (v, v.len() as int),
        None => (Seq::<char>::empty(), 0int),
    }))
}

/// The dialogue that asks for the script's input.
pub open spec fn input_view() -> DialogueView {
    DialogueView::ScriptInput(("Input: "@, seq![DialogueButton::Cancel, DialogueButton::Okay], PromptDialogueCursor::Input, (Seq::<char>::empty(), 0int)))
}

/// The dialogue that asks for the automatic input byte.
pub open spec fn auto_input_view() -> DialogueView {
    DialogueView::ScriptAutoInput(("Input (only the first byte will be used): "@, seq![DialogueButton::Cancel, DialogueButton::Okay], PromptDialogueCursor::Input, (Seq::<char>::empty(), 0int)))
}

/// The dialogue that shows an error.
pub open spec fn error_view(message: Seq<char>) -> DialogueView {
    DialogueView::Error((message, seq![DialogueButton::Okay], 0int))
}

/// What the terminal side must do after a key press, in this order: apply
/// `edit` to the code, write the code to `save`, restart the script.
#[derive(Debug)]
pub struct KeyOutcome {
    pub edit: Option<EditCommand>,
    pub save: Option<String>,
    pub restart: bool,
}

/// A `KeyOutcome` as values.
pub struct OutcomeView {
    pub edit: Option<EditCommand>,
    pub save: Option<Seq<char>>,
    pub restart: bool,
}

/// The state of the live editor, apart from the text under edit and the
/// terminal.
#[derive(Debug)]
pub struct LiveState {
    /// The file the code is saved to, once there is one.
    pub file_path: Option<String>,
    /// The editor is to close.
    pub should_quit: bool,
    /// The busy indicator.
    pub spinner: Spinner,
    /// The input the script reads.
    pub input: String,
    /// The byte `,` reads once the input is used up.
    pub auto_input: Option<u8>,
    /// Show cells as ASCII characters.
    pub ascii_values: bool,
    /// The digest of the code as last saved or loaded.
    pub clean_hash: [u8; 20],
    /// The dialogue on top of the editor, if any.
    pub dialogue: Option<Dialogue>,
}

/// A `LiveState` as values.
pub struct LiveView {
    pub file_path: Option<Seq<char>>,
    pub should_quit: bool,
    pub input: Seq<char>,
    pub auto_input: Option<u8>,
    pub ascii_values: bool,
    pub clean_hash: Seq<u8>,
    pub dialogue: Option<DialogueView>,
}

/// Nothing for the terminal side to do.
pub open spec fn no_outcome() -> OutcomeView {
    OutcomeView { edit: None, save: None, restart: false }
}

/// Saving: to the file the code came from or was last saved to, or, when
/// there is none, ask for a name.
pub open spec fn save_step(v: LiveView) -> (LiveView, Option<Seq<char>>) {
    match v.file_path {
        Some(p) => (v, Some(p)),
        None => (LiveView { dialogue: Some(save_as_view(None)), ..v }, None),
    }
}

/// What a key press does in the live editor. With a dialogue open, the key
/// goes to the dialogue: a closing answer closes it, a yes to quitting
/// quits, a file name is taken and saved to, and a new input or automatic
/// input byte is taken and the script restarted. Otherwise the key goes to
/// the code editor, and then: Control-S saves, Control-X asks where to
/// save, Control-A switches between numbers and ASCII, Control-C quits, F1
/// asks for the input, F2 for the automatic input byte, and a key that
/// changes the code (Backspace, Delete, Enter, Tab, a character without
/// Control or Alt) restarts the script.
pub open spec fn live_key_step(v: LiveView, e: KeyEvent) -> (LiveView, OutcomeView) {
    match v.dialogue {
        Some(d) => {
            let (d2, c) = dialogue_step(d, e);
            match c {
                CommandView::Continue => (LiveView { dialogue: Some(d2), ..v }, no_outcome()),
                CommandView::Dismissed => (LiveView { dialogue: None, ..v }, no_outcome()),
                CommandView::ConfirmUnsavedChangesConfirmed => (
                    LiveView { should_quit: true, dialogue: Some(d2), ..v },
                    no_outcome(),
                ),
                CommandView::FileSaveAsSubmitted(p) => (
                    LiveView { file_path: Some(p), dialogue: None, ..v },
                    OutcomeView { edit: None, save: Some(p), restart: false },
                ),
                CommandView::ScriptInputSubmitted(i) => (
                    LiveView { input: i, dialogue: None, ..v },
                    OutcomeView { edit: None, save: None, restart: true },
                ),
                CommandView::ScriptAutoInputSubmitted(b) => (
                    LiveView { auto_input: b, dialogue: None, ..v },
                    OutcomeView { edit: None, save: None, restart: true },
                ),
            }
        },
        None => {
            let edit = edit_command_of(e, true);
            let ctrl = e.modifiers.control;
            let alt = e.modifiers.alt;
            match e.code {
                KeyCode::Char(c) if ctrl => if c == 's' {
                    let (v2, p) = save_step(v);
                    (v2, OutcomeView { edit, save: p, restart: false })
                } else if c == 'x' {
                    (LiveView { dialogue: Some(save_as_view(v.file_path)), ..v }, OutcomeView { edit, save: None, restart: false })
                } else if c == 'a' {
                    (LiveView { ascii_values: !v.ascii_values, ..v }, OutcomeView { edit, save: None, restart: false })
                } else if c == 'c' {
                    (LiveView { should_quit: true, ..v }, OutcomeView { edit, save: None, restart: false })
                } else {
                    (v, OutcomeView { edit, save: None, restart: false })
                },
                KeyCode::F(1) => (LiveView { dialogue: Some(input_view()), ..v }, OutcomeView { edit, save: None, restart: false }),
                KeyCode::F(2) => (LiveView { dialogue: Some(auto_input_view()), ..v }, OutcomeView { edit, save: None, restart: false }),
                KeyCode::Backspace | KeyCode::Delete | KeyCode::Enter | KeyCode::Tab | KeyCode::Char(_) => (
                    v,
                    OutcomeView { edit, save: None, restart: !ctrl && !alt },
                ),
                _ => (v, OutcomeView { edit, save: None, restart: false }),
            }
        },
    }
}

/// The views of an optional string.
pub open spec fn opt_view(o: Option<String>) -> Option<Seq<char>> {
    match o {
        Some(s) => Some(s@),
        None => None,
    }
}

fn clone_opt(o: &Option<String>) -> (c: Option<String>)
    ensures
        opt_view(c) == opt_view(*o),
{
    match o {
        Some(s) => Some(s.clone()),
        None => None,
    }
}

impl View for LiveState {
    type V = LiveView;

    open spec fn view(&self) -> LiveView {
        LiveView {
            file_path: opt_view(self.file_path),
            should_quit: self.should_quit,
            input: self.input@,
            auto_input: self.auto_input,
            ascii_values: self.ascii_values,
            clean_hash: self.clean_hash@,
            dialogue: match self.dialogue {
                Some(d) => Some(d.spec_view()),
                None => None,
            },
        }
    }
}

impl KeyOutcome {
    pub open spec fn spec_view(&self) -> OutcomeView {
        OutcomeView { edit: self.edit, save: opt_view(self.save), restart: self.restart }
    }
}

impl LiveState {
    /// The editor for a script loaded from `file_path` (if any) whose text
    /// has the digest `clean_hash`.
    pub fn new(file_path: Option<String>, ascii_values: bool, clean_hash: [u8; 20]) -> (s: Self)
        ensures
            s@ == (LiveView {
                file_path: opt_view(file_path),
                should_quit: false,
                input: Seq::empty(),
                auto_input: None,
                ascii_values,
                clean_hash: clean_hash@,
                dialogue: None,
            }),
            s.spinner.0 == 0,
    {
        LiveState {
            file_path,
            should_quit: false,
            spinner: Spinner(0),
            input: String::new(),
            auto_input: None,
            ascii_values,
            clean_hash,
            dialogue: None,
        }
    }

    /// Whether the code, whose digest is `current`, has changed since it
    /// was last saved or loaded.
    pub fn is_dirty(&self, current: &[u8; 20]) -> (b: bool)
        ensures
            b == (current@ != self.clean_hash@),
    {
        digests_differ(current, &self.clean_hash)
    }

    fn on_save(&mut self) -> (p: Option<String>)
        ensures
            (final(self)@, opt_view(p)) == save_step(old(self)@),
            final(self).spinner == old(self).spinner,
    {
        match &self.file_path {
            Some(path) => Some(path.clone()),
            None => {
                self.dialogue = Some(Dialogue::file_save_as(None));
                None
            },
        }
    }

    /// Handles a key press (see `live_key_step`) and says what the terminal
    /// side must do.
    pub fn handle_key_event(&mut self, event: KeyEvent) -> (o: KeyOutcome)
        ensures
            (final(self)@, o.spec_view()) == live_key_step(old(self)@, event),
            final(self).spinner == old(self).spinner,
    {
        match self.dialogue.take() {
            Some(mut dialogue) => {
                let command = dialogue.on_event(event);
                match command {
                    DialogueCommand::Continue => {
                        self.dialogue = Some(dialogue);
                        KeyOutcome { edit: None, save: None, restart: false }
                    },
                    DialogueCommand::Dismissed => KeyOutcome { edit: None, save: None, restart: false },
                    DialogueCommand::ConfirmUnsavedChangesConfirmed => {
                        self.should_quit = true;
                        self.dialogue = Some(dialogue);
                        KeyOutcome { edit: None, save: None, restart: false }
                    },
                    DialogueCommand::FileSaveAsSubmitted(path) => {
                        let saved = path.clone();
                        self.file_path = Some(path);
                        KeyOutcome { edit: None, save: Some(saved), restart: false }
                    },
                    DialogueCommand::ScriptInputSubmitted(input) => {
                        self.input = input;
                        KeyOutcome { edit: None, save: None, restart: true }
                    },
                    DialogueCommand::ScriptAutoInputSubmitted(b) => {
                        self.auto_input = b;
                        KeyOutcome { edit: None, save: None, restart: true }
                    },
                }
            },
            None => {
                let edit = edit_command(event, true);
                let ctrl = event.is_ctrl();
                let alt = event.is_alt();
                match event.code {
                    KeyCode::Char(c) if ctrl => {
                        if c == 's' {
                            let save = self.on_save();
                            KeyOutcome { edit, save, restart: false }
                        } else {
                            if c == 'x' {
                                self.dialogue = Some(Dialogue::file_save_as(clone_opt(&self.file_path)));
                            } else if c == 'a' {
                                self.ascii_values = !self.ascii_values;
                            } else if c == 'c' {
                                self.should_quit = true;
                            }
                            KeyOutcome { edit, save: None, restart: false }
                        }
                    },
                    KeyCode::F(1) => {
                        self.dialogue = Some(Dialogue::script_input());
                        KeyOutcome { edit, save: None, restart: false }
                    },
                    KeyCode::F(2) => {
                        self.dialogue = Some(Dialogue::script_auto_input());
                        KeyOutcome { edit, save: None, restart: false }
                    },
                    KeyCode::Backspace | KeyCode::Delete | KeyCode::Enter | KeyCode::Tab | KeyCode::Char(_) => {
                        KeyOutcome { edit, save: None, restart: !ctrl && !alt }
                    },
                    _ => KeyOutcome { edit, save: None, restart: false },
                }
            },
        }
    }
}

/// The message shown when the code could not be saved to `path`.
pub open spec fn save_error_message(path: Seq<char>, error: Seq<char>) -> Seq<char> {
    "Error while saving file: "@ + path + "\n\n"@ + error
}

impl LiveState {
    /// Takes in how saving to `path` went: on success the digest of what
    /// was written becomes the clean one; on failure an error dialogue
    /// shows why.
    pub fn on_save_result(&mut self, path: &str, result: Result<[u8; 20], String>)
        ensures
            match result {
                Ok(h) => final(self)@ == (LiveView { clean_hash: h@, ..old(self)@ }),
                Err(e) => final(self)@ == (LiveView { dialogue: Some(error_view(save_error_message(path@, e@))), ..old(self)@ }),
            },
            final(self).spinner == old(self).spinner,
    {
        match result {
            Ok(h) => {
                self.clean_hash = h;
            },
            Err(e) => {
                let mut m = String::from_str("Error while saving file: ");
                m.append(path);
                m.append("\n\n");
                m.append(e.as_str());
                proof {
                    assert(m@ =~= save_error_message(path@, e@));
                }
                self.dialogue = Some(Dialogue::error(m));
            },
        }
    }

    /// Before the script restarts: a background run that broke down is
    /// reported in an error dialogue.
    pub fn on_restart(&mut self, status: &Status)
        ensures
            match *status {
                Status::FatalError(m) => final(self)@ == (LiveView { dialogue: Some(error_view(m@)), ..old(self)@ }),
                _ => final(self)@ == old(self)@,
            },
            final(self).spinner == old(self).spinner,
    {
        match status {
            Status::FatalError(m) => {
                self.dialogue = Some(Dialogue::error(m.clone()));
            },
            _ => {},
        }
    }
}

/// While a dialogue is open, key presses go to the dialogue alone: the code
/// is neither edited nor saved over a key that the dialogue keeps.
pub proof fn law_dialogue_takes_the_keys(v: LiveView, e: KeyEvent)
    requires
        v.dialogue is Some,
    ensures
        live_key_step(v, e).1.edit is None,
        live_key_step(v, e).0.ascii_values == v.ascii_values,
        live_key_step(v, e).0.dialogue is Some ==> live_key_step(v, e).1.save is None,
{
}

/// The edits that change the code's text, as opposed to moving the cursor.
pub open spec fn changes_text(c: Option<EditCommand>) -> bool {
    match c {
        Some(EditCommand::DeleteBack) | Some(EditCommand::DeleteForward) | Some(EditCommand::Newline) | Some(
            EditCommand::Tab,
        ) | Some(EditCommand::Insert(_)) => true,
        _ => false,
    }
}

/// With no dialogue open, the script is run again exactly when a key press
/// without Control or Alt changes the code's text: deleting either way,
/// breaking a line, a tab or a typed character always reruns it, and a key
/// that only moves the cursor, or any shortcut, never does.
pub proof fn law_text_edits_restart_the_run(v: LiveView, e: KeyEvent)
    requires
        v.dialogue is None,
    ensures
        live_key_step(v, e).1.restart <==> (!e.modifiers.control && !e.modifiers.alt && changes_text(
            live_key_step(v, e).1.edit,
        )),
        (!e.modifiers.control && !e.modifiers.alt && (e.code == KeyCode::Backspace || e.code == KeyCode::Delete
            || e.code == KeyCode::Enter || e.code == KeyCode::Tab || e.code is Char)) ==> live_key_step(v, e).1.restart
            && changes_text(live_key_step(v, e).1.edit),
{
}

} // verus!

