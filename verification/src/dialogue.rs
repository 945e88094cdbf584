//! The dialogues of the live editor: button and prompt dialogues as state
//! machines over key presses.
use vstd::prelude::*;

use vstd::arithmetic::div_mod::{lemma_mod_add_multiples_vanish, lemma_mod_self_0, lemma_small_mod};

use crate::line_input::{line_after_key, LineInput};
use crate::keys::{KeyCode, KeyEvent};

verus! {

/// A button of a dialogue.
#[derive(Clone, Copy, Debug, PartialEq, Eq, Structural)]
pub enum DialogueButton {
    Okay,
    Yes,
    Cancel,
}

/// The widest button label, in columns.
pub const BUTTON_WIDTH: u16 = 10;

/// The gap left of a row of buttons in `width` columns (and between two
/// buttons): a lone button is centered, two buttons share the room left
/// over in three equal gaps.
pub open spec fn button_gap(width: u16, buttons: int) -> int {
    if buttons == 1 {
        (if width >= BUTTON_WIDTH { width - BUTTON_WIDTH } else { 0 }) / 2
    } else {
        (if width >= 2 * BUTTON_WIDTH { width - 2 * BUTTON_WIDTH } else { 0 }) / 3
    }
}

/// The gap before (and between) the buttons of a dialogue (see
/// `button_gap`).
pub fn button_spacing(width: u16, buttons: usize) -> (g: u16)
    ensures
        g == button_gap(width, buttons as int),
{
    if buttons == 1 {
        width.saturating_sub(BUTTON_WIDTH) / 2
    } else {
        width.saturating_sub(BUTTON_WIDTH * 2) / 3
    }
}

impl DialogueButton {
    pub open spec fn spec_affirmative(self) -> bool {
        self is Okay || self is Yes
    }

    /// The label of the button.
    pub open spec fn spec_text(self) -> Seq<char> {
        match self {
            DialogueButton::Okay => "OK"@,
            DialogueButton::Yes => "YES"@,
            DialogueButton::Cancel => "CANCEL"@,
        }
    }

    /// The label of the button.
    pub fn text(self) -> (s: &'static str)
        ensures
            s@ == self.spec_text(),
    {
        match self {
            DialogueButton::Okay => "OK",
            DialogueButton::Yes => "YES",
            DialogueButton::Cancel => "CANCEL",
        }
    }

    /// Whether pressing the button accepts the dialogue.
    pub fn is_affirmative(self) -> (b: bool)
        ensures
            b == self.spec_affirmative(),
    {
        match self {
            DialogueButton::Okay | DialogueButton::Yes => true,
            DialogueButton::Cancel => false,
        }
    }
}

/// What a dialogue makes of a key press, as values.
pub enum ActionView {
    Pending,
    No,
    Yes,
    Submit(Seq<char>),
}

/// What the application is asked to do after a key press in a dialogue.
#[derive(Clone, Debug, PartialEq, Eq)]
pub enum DialogueCommand {
    /// Keep the dialogue open.
    Continue,
    /// Close the dialogue.
    Dismissed,
    /// Quit although there are unsaved changes.
    ConfirmUnsavedChangesConfirmed,
    /// Save under the given name.
    FileSaveAsSubmitted(String),
    /// Run the script with the given input.
    ScriptInputSubmitted(String),
    /// Run the script with the given automatic input byte.
    ScriptAutoInputSubmitted(Option<u8>),
}

/// A `DialogueCommand` as a value.
pub enum CommandView {
    Continue,
    Dismissed,
    ConfirmUnsavedChangesConfirmed,
    FileSaveAsSubmitted(Seq<char>),
    ScriptInputSubmitted(Seq<char>),
    ScriptAutoInputSubmitted(Option<u8>),
}

pub open spec fn command_view(c: DialogueCommand) -> CommandView {
    match c {
        DialogueCommand::Continue => CommandView::Continue,
        DialogueCommand::Dismissed => CommandView::Dismissed,
        DialogueCommand::ConfirmUnsavedChangesConfirmed => CommandView::ConfirmUnsavedChangesConfirmed,
        DialogueCommand::FileSaveAsSubmitted(s) => CommandView::FileSaveAsSubmitted(s@),
        DialogueCommand::ScriptInputSubmitted(s) => CommandView::ScriptInputSubmitted(s@),
        DialogueCommand::ScriptAutoInputSubmitted(b) => CommandView::ScriptAutoInputSubmitted(b),
    }
}

/// The key presses that cancel any dialogue: Escape and Control-C.
pub open spec fn is_cancel_key(e: KeyEvent) -> bool {
    e.code == KeyCode::Esc || (e.code == KeyCode::Char('c') && e.modifiers.control)
}

/// A message with a row of buttons, one of them focused.
#[derive(Debug)]
pub struct ButtonDialogueState {
    message: String,
    buttons: Vec<DialogueButton>,
    cursor: usize,
}

/// A button dialogue as values: message, buttons, focused button.
pub type ButtonView = (Seq<char>, Seq<DialogueButton>, int);

/// Focus on the next button, wrapping around.
pub open spec fn next_button(v: ButtonView) -> ButtonView {
    (v.0, v.1, (v.2 + 1) % (v.1.len() as int))
}

/// Focus on the previous button, wrapping around.
pub open spec fn prev_button(v: ButtonView) -> ButtonView {
    (v.0, v.1, (v.2 + v.1.len() - 1) % (v.1.len() as int))
}

/// A key press in a button dialogue: Escape and Control-C answer no, Enter
/// answers no on the first button and yes on any other, Tab and the arrows
/// move the focus.
pub open spec fn button_step(v: ButtonView, e: KeyEvent) -> (ButtonView, ActionView) {
    if is_cancel_key(e) {
        (v, ActionView::No)
    } else if e.code == KeyCode::Enter {
        (v, if v.2 == 0 { ActionView::No } else { ActionView::Yes })
    } else if e.code == KeyCode::Tab || e.code == KeyCode::Right {
        (next_button(v), ActionView::Pending)
    } else if e.code == KeyCode::BackTab || e.code == KeyCode::Left {
        (prev_button(v), ActionView::Pending)
    } else {
        (v, ActionView::Pending)
    }
}

impl ButtonDialogueState {
    #[verifier::type_invariant]
    spec fn inv(&self) -> bool {
        1 <= self.buttons.len() && self.cursor < self.buttons.len()
    }

    pub closed spec fn spec_view(&self) -> ButtonView {
        (self.message@, self.buttons@, self.cursor as int)
    }

    /// A dialogue showing `message` with `buttons`, the first one focused.
    pub fn new(message: String, buttons: Vec<DialogueButton>) -> (d: Self)
        requires
            1 <= buttons@.len(),
        ensures
            d.spec_view() == (message@, buttons@, 0int),
    {
        ButtonDialogueState { message, buttons, cursor: 0 }
    }

    /// The message.
    pub fn message(&self) -> (m: &String)
        ensures
            m@ == self.spec_view().0,
    {
        &self.message
    }

    /// The buttons.
    pub fn buttons(&self) -> (b: &Vec<DialogueButton>)
        ensures
            b@ == self.spec_view().1,
    {
        &self.buttons
    }

    /// The focused button.
    pub fn cursor(&self) -> (c: usize)
        ensures
            c == self.spec_view().2,
            c < self.spec_view().1.len(),
    {
        proof {
            use_type_invariant(self);
        }
        self.cursor
    }

    /// Focuses the next button, wrapping around to the first.
    pub fn focus_next_button(&mut self)
        ensures
            final(self).spec_view() == next_button(old(self).spec_view()),
    {
        proof {
            use_type_invariant(&*self);
        }
        let len = self.buttons.len();
        proof {
            if self.cursor + 1 < len {
                lemma_small_mod(self.cursor as nat + 1, len as nat);
            }
            lemma_mod_self_0(len as int);
        }
        self.cursor = if self.cursor + 1 == len { 0 } else { self.cursor + 1 };
    }

    /// Focuses the previous button, wrapping around to the last.
    pub fn focus_prev_button(&mut self)
        ensures
            final(self).spec_view() == prev_button(old(self).spec_view()),
    {
        proof {
            use_type_invariant(&*self);
        }
        let len = self.buttons.len();
        proof {
            lemma_mod_add_multiples_vanish(self.cursor as int - 1, len as int);
            if self.cursor > 0 {
                lemma_small_mod((self.cursor - 1) as nat, len as nat);
            }
            lemma_small_mod((len - 1) as nat, len as nat);
        }
        self.cursor = if self.cursor == 0 { len - 1 } else { self.cursor - 1 };
    }

    fn on_event(&mut self, event: KeyEvent) -> (a: DialogueAction)
        ensures
            (final(self).spec_view(), action_view(a)) == button_step(old(self).spec_view(), event),
    {
        proof {
            use_type_invariant(&*self);
        }
        if event.code == KeyCode::Esc || (event.code == KeyCode::Char('c') && event.modifiers.control) {
            DialogueAction::No
        } else if event.code == KeyCode::Enter {
            if self.cursor == 0 {
                DialogueAction::No
            } else {
                DialogueAction::Yes
            }
        } else if event.code == KeyCode::Tab || event.code == KeyCode::Right {
            self.focus_next_button();
            DialogueAction::Pending
        } else if event.code == KeyCode::BackTab || event.code == KeyCode::Left {
            self.focus_prev_button();
            DialogueAction::Pending
        } else {
            DialogueAction::Pending
        }
    }
}

/// What a dialogue makes of a key press.
enum DialogueAction {
    Pending,
    No,
    Yes,
    Submit(String),
}

spec fn action_view(a: DialogueAction) -> ActionView {
    match a {
        DialogueAction::Pending => ActionView::Pending,
        DialogueAction::No => ActionView::No,
        DialogueAction::Yes => ActionView::Yes,
        DialogueAction::Submit(s) => ActionView::Submit(s@),
    }
}

/// Where the focus of a prompt dialogue is: on the text input or on a
/// button.
#[derive(Clone, Copy, Debug, PartialEq, Eq, Structural)]
pub enum PromptDialogueCursor {
    Input,
    Button(usize),
}

/// A prompt, a one-line text input and a row of buttons.
#[derive(Debug)]
pub struct PromptDialogueState {
    prompt: String,
    buttons: Vec<DialogueButton>,
    cursor: PromptDialogueCursor,
    input: LineInput,
}

/// A prompt dialogue as values: prompt, buttons, focus, and the input field.
pub type PromptView = (Seq<char>, Seq<DialogueButton>, PromptDialogueCursor, (Seq<char>, int));

/// Focus moves from the input to the first button, along the buttons, and
/// from the last button back to the input.
pub open spec fn prompt_focus_next(v: PromptView) -> PromptDialogueCursor {
    match v.2 {
        PromptDialogueCursor::Input => PromptDialogueCursor::Button(0),
        PromptDialogueCursor::Button(i) => if i + 1 >= v.1.len() {
            PromptDialogueCursor::Input
        } else {
            PromptDialogueCursor::Button((i + 1) as usize)
        },
    }
}

/// Focus moves the other way round.
pub open spec fn prompt_focus_prev(v: PromptView) -> PromptDialogueCursor {
    match v.2 {
        PromptDialogueCursor::Input => PromptDialogueCursor::Button((v.1.len() - 1) as usize),
        PromptDialogueCursor::Button(i) => if i == 0 {
            PromptDialogueCursor::Input
        } else {
            PromptDialogueCursor::Button((i - 1) as usize)
        },
    }
}

/// Enter submits when the input or an affirmative button has the focus.
pub open spec fn prompt_should_submit(v: PromptView) -> bool {
    match v.2 {
        PromptDialogueCursor::Input => true,
        PromptDialogueCursor::Button(i) => v.1[i as int].spec_affirmative(),
    }
}

/// A key press in a prompt dialogue: Escape and Control-C answer no, Enter
/// submits the text (or answers no on a button that is not affirmative), Tab
/// and Back-Tab move the focus, and any other key edits the input while it
/// has the focus.
pub open spec fn prompt_step(v: PromptView, e: KeyEvent) -> (PromptView, ActionView) {
    if is_cancel_key(e) {
        (v, ActionView::No)
    } else if e.code == KeyCode::Enter {
        (v, if prompt_should_submit(v) { ActionView::Submit(v.3.0) } else { ActionView::No })
    } else if e.code == KeyCode::Tab {
        ((v.0, v.1, prompt_focus_next(v), v.3), ActionView::Pending)
    } else if e.code == KeyCode::BackTab {
        ((v.0, v.1, prompt_focus_prev(v), v.3), ActionView::Pending)
    } else if v.2 == PromptDialogueCursor::Input {
        ((v.0, v.1, v.2, line_after_key(v.3, e)), ActionView::Pending)
    } else {
        (v, ActionView::Pending)
    }
}

impl PromptDialogueState {
    #[verifier::type_invariant]
    spec fn inv(&self) -> bool {
        &&& 1 <= self.buttons.len()
        &&& (self.cursor matches PromptDialogueCursor::Button(i) ==> i < self.buttons.len())
    }

    pub closed spec fn spec_view(&self) -> PromptView {
        (self.prompt@, self.buttons@, self.cursor, self.input@)
    }

    /// A dialogue asking for text after `prompt`, the input focused and
    /// holding `input`.
    pub fn new(prompt: String, buttons: Vec<DialogueButton>, input: LineInput) -> (d: Self)
        requires
            1 <= buttons@.len(),
        ensures
            d.spec_view() == (prompt@, buttons@, PromptDialogueCursor::Input, input@),
    {
        PromptDialogueState { prompt, buttons, cursor: PromptDialogueCursor::Input, input }
    }

    /// The prompt.
    pub fn prompt(&self) -> (p: &String)
        ensures
            p@ == self.spec_view().0,
    {
        &self.prompt
    }

    /// The buttons.
    pub fn buttons(&self) -> (b: &Vec<DialogueButton>)
        ensures
            b@ == self.spec_view().1,
    {
        &self.buttons
    }

    /// Where the focus is.
    pub fn cursor(&self) -> (c: PromptDialogueCursor)
        ensures
            c == self.spec_view().2,
    {
        self.cursor
    }

    /// The text input.
    pub fn input(&self) -> (f: &LineInput)
        ensures
            f@ == self.spec_view().3,
    {
        &self.input
    }

    /// Whether Enter submits the text now.
    pub fn cursor_should_submit(&self) -> (b: bool)
        ensures
            b == prompt_should_submit(self.spec_view()),
    {
        proof {
            use_type_invariant(self);
        }
        match self.cursor {
            PromptDialogueCursor::Input => true,
            PromptDialogueCursor::Button(index) => self.buttons[index as usize].is_affirmative(),
        }
    }

    /// Moves the focus forward.
    pub fn focus_next(&mut self)
        ensures
            final(self).spec_view() == (old(self).spec_view().0, old(self).spec_view().1, prompt_focus_next(
                old(self).spec_view(),
            ), old(self).spec_view().3),
    {
        proof {
            use_type_invariant(&*self);
        }
        let len = self.buttons.len();
        self.cursor = match self.cursor {
            PromptDialogueCursor::Input => PromptDialogueCursor::Button(0),
            PromptDialogueCursor::Button(index) => {
                let next = index + 1;
                if next >= len {
                    PromptDialogueCursor::Input
                } else {
                    PromptDialogueCursor::Button(next)
                }
            },
        };
    }

    /// Moves the focus backward.
    pub fn focus_prev(&mut self)
        ensures
            final(self).spec_view() == (old(self).spec_view().0, old(self).spec_view().1, prompt_focus_prev(
                old(self).spec_view(),
            ), old(self).spec_view().3),
    {
        proof {
            use_type_invariant(&*self);
        }
        let len = self.buttons.len();
        self.cursor = match self.cursor {
            PromptDialogueCursor::Input => PromptDialogueCursor::Button(len - 1),
            PromptDialogueCursor::Button(index) => if index == 0 {
                PromptDialogueCursor::Input
            } else {
                PromptDialogueCursor::Button(index - 1)
            },
        };
    }

    fn on_event(&mut self, event: KeyEvent) -> (a: DialogueAction)
        ensures
            (final(self).spec_view(), action_view(a)) == prompt_step(old(self).spec_view(), event),
    {
        proof {
            use_type_invariant(&*self);
        }
        if event.code == KeyCode::Esc || (event.code == KeyCode::Char('c') && event.modifiers.control) {
            DialogueAction::No
        } else if event.code == KeyCode::Enter {
            if self.cursor_should_submit() {
                DialogueAction::Submit(self.input.text())
            } else {
                DialogueAction::No
            }
        } else if event.code == KeyCode::Tab {
            self.focus_next();
            DialogueAction::Pending
        } else if event.code == KeyCode::BackTab {
            self.focus_prev();
            DialogueAction::Pending
        } else if self.cursor == PromptDialogueCursor::Input {
            let mut input = self.input.clone();
            input.on_key(event);
            self.input = input;
            DialogueAction::Pending
        } else {
            DialogueAction::Pending
        }
    }
}

/// The first byte of the UTF-8 encoding of `s`, if `s` is not empty.
pub open spec fn first_byte_of(s: Seq<char>) -> Option<u8> {
    let b = vstd::utf8::encode_utf8(s);
    if b.len() > 0 { Some(b[0]) } else { None }
}

/// The first byte of the UTF-8 encoding of `s`, if any.
pub fn first_byte(s: &String) -> (r: Option<u8>)
    ensures
        r == first_byte_of(s@),
{
    let b = s.as_str().as_bytes();
    if b.len() > 0 {
        Some(b[0])
    } else {
        None
    }
}

/// The dialogues of the live editor.
#[derive(Debug)]
pub enum DialogueKind {
    /// Asks whether to quit with unsaved changes.
    ConfirmUnsavedChanges(ButtonDialogueState),
    /// Shows an error.
    Error(ButtonDialogueState),
    /// Asks for a file name to save under.
    FileSaveAs(PromptDialogueState),
    /// Asks for the input of the script.
    ScriptInput(PromptDialogueState),
    /// Asks for the byte to read once the input is used up.
    ScriptAutoInput(PromptDialogueState),
}

/// A dialogue as values.
pub enum DialogueView {
    ConfirmUnsavedChanges(ButtonView),
    Error(ButtonView),
    FileSaveAs(PromptView),
    ScriptInput(PromptView),
    ScriptAutoInput(PromptView),
}

/// A dialogue box with its title.
#[derive(Debug)]
pub struct Dialogue {
    title: &'static str,
    kind: DialogueKind,
}

/// What a key press does to a dialogue and what it asks of the editor.
/// Closing answers dismiss any dialogue; a yes quits from the unsaved-changes
/// question and dismisses an error; a submitted text becomes a file name, the
/// script input, or (its first byte, if any) the automatic input byte.
pub open spec fn dialogue_step(d: DialogueView, e: KeyEvent) -> (DialogueView, CommandView) {
    match d {
        DialogueView::ConfirmUnsavedChanges(v) => {
            let (v2, a) = button_step(v, e);
            (DialogueView::ConfirmUnsavedChanges(v2), match a {
                ActionView::Yes => CommandView::ConfirmUnsavedChangesConfirmed,
                ActionView::No => CommandView::Dismissed,
                _ => CommandView::Continue,
            })
        },
        DialogueView::Error(v) => {
            let (v2, a) = button_step(v, e);
            (DialogueView::Error(v2), match a {
                ActionView::Pending => CommandView::Continue,
                _ => CommandView::Dismissed,
            })
        },
        DialogueView::FileSaveAs(v) => {
            let (v2, a) = prompt_step(v, e);
            (DialogueView::FileSaveAs(v2), match a {
                ActionView::Submit(s) => CommandView::FileSaveAsSubmitted(s),
                ActionView::No => CommandView::Dismissed,
                _ => CommandView::Continue,
            })
        },
        DialogueView::ScriptInput(v) => {
            let (v2, a) = prompt_step(v, e);
            (DialogueView::ScriptInput(v2), match a {
                ActionView::Submit(s) => CommandView::ScriptInputSubmitted(s),
                ActionView::No => CommandView::Dismissed,
                _ => CommandView::Continue,
            })
        },
        DialogueView::ScriptAutoInput(v) => {
            let (v2, a) = prompt_step(v, e);
            (DialogueView::ScriptAutoInput(v2), match a {
                ActionView::Submit(s) => CommandView::ScriptAutoInputSubmitted(first_byte_of(s)),
                ActionView::No => CommandView::Dismissed,
                _ => CommandView::Continue,
            })
        },
    }
}

impl Dialogue {
    pub closed spec fn spec_view(&self) -> DialogueView {
        match self.kind {
            DialogueKind::ConfirmUnsavedChanges(s) => DialogueView::ConfirmUnsavedChanges(s.spec_view()),
            DialogueKind::Error(s) => DialogueView::Error(s.spec_view()),
            DialogueKind::FileSaveAs(s) => DialogueView::FileSaveAs(s.spec_view()),
            DialogueKind::ScriptInput(s) => DialogueView::ScriptInput(s.spec_view()),
            DialogueKind::ScriptAutoInput(s) => DialogueView::ScriptAutoInput(s.spec_view()),
        }
    }

    pub closed spec fn spec_title(&self) -> Seq<char> {
        self.title@
    }

    /// The title shown in the frame.
    pub fn title(&self) -> (s: &'static str)
        ensures
            s@ == self.spec_title(),
    {
        self.title
    }

    /// The kind of dialogue and its state.
    pub fn kind(&self) -> (k: &DialogueKind)
        ensures
            self.spec_view() == match *k {
                DialogueKind::ConfirmUnsavedChanges(s) => DialogueView::ConfirmUnsavedChanges(s.spec_view()),
                DialogueKind::Error(s) => DialogueView::Error(s.spec_view()),
                DialogueKind::FileSaveAs(s) => DialogueView::FileSaveAs(s.spec_view()),
                DialogueKind::ScriptInput(s) => DialogueView::ScriptInput(s.spec_view()),
                DialogueKind::ScriptAutoInput(s) => DialogueView::ScriptAutoInput(s.spec_view()),
            },
    {
        &self.kind
    }

    /// Asks whether to quit although there are unsaved changes: Cancel
    /// (focused) and Yes.
    pub fn confirm_unsaved_changes(message: String) -> (d: Self)
        ensures
            d.spec_view() == DialogueView::ConfirmUnsavedChanges((message@, seq![DialogueButton::Cancel, DialogueButton::Yes], 0int)),
            d.spec_title() == " Confirm "@,
    {
        let mut buttons: Vec<DialogueButton> = Vec::new();
        buttons.push(DialogueButton::Cancel);
        buttons.push(DialogueButton::Yes);
        assert(buttons@ =~= seq![DialogueButton::Cancel, DialogueButton::Yes]);
        Dialogue { title: " Confirm ", kind: DialogueKind::ConfirmUnsavedChanges(ButtonDialogueState::new(message, buttons)) }
    }

    /// Shows an error with an OK button.
    pub fn error(message: String) -> (d: Self)
        ensures
            d.spec_view() == DialogueView::Error((message@, seq![DialogueButton::Okay], 0int)),
            d.spec_title() == " Error "@,
    {
        let mut buttons: Vec<DialogueButton> = Vec::new();
        buttons.push(DialogueButton::Okay);
        assert(buttons@ =~= seq![DialogueButton::Okay]);
        Dialogue { title: " Error ", kind: DialogueKind::Error(ButtonDialogueState::new(message, buttons)) }
    }

    fn prompt_state(prompt: &str, value: Option<String>) -> (s: PromptDialogueState)
        ensures
            s.spec_view() == (prompt@, seq![DialogueButton::Cancel, DialogueButton::Okay], PromptDialogueCursor::Input, match value {
                Some(v) => (v@, v@.len() as int),
                None => (Seq::<char>::empty(), 0int),
            }),
    {
        let mut buttons: Vec<DialogueButton> = Vec::new();
        buttons.push(DialogueButton::Cancel);
        buttons.push(DialogueButton::Okay);
        assert(buttons@ =~= seq![DialogueButton::Cancel, DialogueButton::Okay]);
        let input = match value {
            Some(v) => LineInput::from(v.as_str()),
            None => LineInput::new(),
        };
        PromptDialogueState::new(String::from_str(prompt), buttons, input)
    }

    /// Asks for a file name, prefilled with `value` if given.
    pub fn file_save_as(value: Option<String>) -> (d: Self)
        ensures
            d.spec_view() == DialogueView::FileSaveAs(("Filename: "@, seq![DialogueButton::Cancel, DialogueButton::Okay], PromptDialogueCursor::Input, match value {
                Some(v) => (v@, v@.len() as int),
                None => (Seq::<char>::empty(), 0int),
            })),
            d.spec_title() == " Save As "@,
    {
        Dialogue { title: " Save As ", kind: DialogueKind::FileSaveAs(Self::prompt_state("Filename: ", value)) }
    }

    /// Asks for the input of the script.
    pub fn script_input() -> (d: Self)
        ensures
            d.spec_view() == DialogueView::ScriptInput(("Input: "@, seq![DialogueButton::Cancel, DialogueButton::Okay], PromptDialogueCursor::Input, (Seq::<char>::empty(), 0int))),
            d.spec_title() == " Input "@,
    {
        Dialogue { title: " Input ", kind: DialogueKind::ScriptInput(Self::prompt_state("Input: ", None)) }
    }

    /// Asks for the automatic input byte.
    pub fn script_auto_input() -> (d: Self)
        ensures
            d.spec_view() == DialogueView::ScriptAutoInput(("Input (only the first byte will be used): "@, seq![DialogueButton::Cancel, DialogueButton::Okay], PromptDialogueCursor::Input, (Seq::<char>::empty(), 0int))),
            d.spec_title() == " Auto-Input "@,
    {
        Dialogue {
            title: " Auto-Input ",
            kind: DialogueKind::ScriptAutoInput(Self::prompt_state("Input (only the first byte will be used): ", None)),
        }
    }

    /// Handles a key press and says what the editor should do.
    pub fn on_event(&mut self, event: KeyEvent) -> (c: DialogueCommand)
        ensures
            (final(self).spec_view(), command_view(c)) == dialogue_step(old(self).spec_view(), event),
            final(self).spec_title() == old(self).spec_title(),
    {
        match &mut self.kind {
            DialogueKind::ConfirmUnsavedChanges(s) => match s.on_event(event) {
                DialogueAction::Yes => DialogueCommand::ConfirmUnsavedChangesConfirmed,
                DialogueAction::No => DialogueCommand::Dismissed,
                _ => DialogueCommand::Continue,
            },
            DialogueKind::Error(s) => match s.on_event(event) {
                DialogueAction::Pending => DialogueCommand::Continue,
                _ => DialogueCommand::Dismissed,
            },
            DialogueKind::FileSaveAs(s) => match s.on_event(event) {
                DialogueAction::Submit(value) => DialogueCommand::FileSaveAsSubmitted(value),
                DialogueAction::No => DialogueCommand::Dismissed,
                _ => DialogueCommand::Continue,
            },
            DialogueKind::ScriptInput(s) => match s.on_event(event) {
                DialogueAction::Submit(value) => DialogueCommand::ScriptInputSubmitted(value),
                DialogueAction::No => DialogueCommand::Dismissed,
                _ => DialogueCommand::Continue,
            },
            DialogueKind::ScriptAutoInput(s) => match s.on_event(event) {
                DialogueAction::Submit(value) => DialogueCommand::ScriptAutoInputSubmitted(first_byte(&value)),
                DialogueAction::No => DialogueCommand::Dismissed,
                _ => DialogueCommand::Continue,
            },
        }
    }
}

/// Escape and Control-C close any dialogue.
pub proof fn law_cancel_key_dismisses(d: DialogueView, e: KeyEvent)
    requires
        is_cancel_key(e),
    ensures
        dialogue_step(d, e).1 == CommandView::Dismissed,
{
}

/// Moving the focus to the next button and back returns it to where it
/// was.
pub proof fn law_focus_next_then_prev(v: ButtonView)
    requires
        v.1.len() >= 1,
        0 <= v.2 < v.1.len(),
    ensures
        prev_button(next_button(v)) == v,
        next_button(prev_button(v)) == v,
{
    let n = v.1.len() as int;
    let i = v.2;
    if i + 1 < n {
        lemma_small_mod((i + 1) as nat, n as nat);
        lemma_mod_add_multiples_vanish(i, n);
        lemma_small_mod(i as nat, n as nat);
        assert(i + 1 + n - 1 == n + i);
    } else {
        lemma_mod_self_0(n);
        lemma_small_mod((n - 1) as nat, n as nat);
    }
    if i >= 1 {
        lemma_mod_add_multiples_vanish(i - 1, n);
        lemma_small_mod((i - 1) as nat, n as nat);
        lemma_small_mod(i as nat, n as nat);
        assert(i + n - 1 == n + (i - 1));
    } else {
        lemma_small_mod((n - 1) as nat, n as nat);
        lemma_mod_self_0(n);
    }
}

/// In a prompt, Tab and then Back-Tab bring the focus back.
pub proof fn law_prompt_focus_next_then_prev(v: PromptView)
    requires
        1 <= v.1.len() <= 100,
        v.2 matches PromptDialogueCursor::Button(i) ==> i < v.1.len(),
    ensures
        prompt_focus_prev((v.0, v.1, prompt_focus_next(v), v.3)) == v.2,
        prompt_focus_next((v.0, v.1, prompt_focus_prev(v), v.3)) == v.2,
{
}

/// In a button dialogue Enter answers no on the first button and yes on
/// any other, and Escape or Control-C answer no, all leaving the dialogue
/// as it was; Tab moves the focus to the next button, round to the first.
pub proof fn law_button_answers(v: ButtonView, e: KeyEvent)
    requires
        v.1.len() >= 1,
        0 <= v.2 < v.1.len(),
    ensures
        e.code == KeyCode::Enter ==> button_step(v, e).0 == v && (button_step(v, e).1 is No <==> v.2 == 0)
            && (button_step(v, e).1 is Yes <==> v.2 != 0),
        is_cancel_key(e) ==> button_step(v, e).0 == v && button_step(v, e).1 is No,
        e.code == KeyCode::Tab ==> button_step(v, e).1 is Pending && button_step(v, e).0.2 == if v.2 + 1 == v.1.len() {
            0
        } else {
            v.2 + 1
        },
{
    let n = v.1.len() as int;
    if v.2 + 1 < n {
        lemma_small_mod((v.2 + 1) as nat, n as nat);
    } else {
        lemma_mod_self_0(n);
    }
}

} // verus!

