use vstd::prelude::*;

verus! {

/// An internally generated action: one editing or mode effect, queued by key
/// dispatch and applied under the pending repetition count.
#[derive(Clone, Copy, PartialEq, Eq, Structural, Debug)]
pub enum AppEvent {
    Quit,
    NormalMode,
    InsertMode,
    CreateLine,
    WriteAfterCursor(char),
    DeleteBeforeCursor,
    MoveLeft,
    MoveUp,
    MoveRight,
    MoveDown,
    MoveToNextWord,
    MoveToPreviousWord,
    CommandPopup,
    WriteInCommandInput(char),
    DeleteLastInCommandInput,
    ExecuteCommand,
}

/// A key press, reduced to what dispatch reads: the key's code.  Keys the
/// editor does not bind arrive as `Other`.
#[derive(Clone, Copy, PartialEq, Eq, Structural, Debug)]
pub enum KeyCode {
    Char(char),
    Esc,
    Backspace,
    Enter,
    Left,
    Up,
    Right,
    Down,
    Other,
}

} // verus!
