//! From a key press to the command it stands for, and from the command to
//! the buffer's next state and to what the caller has to do.

use crate::editor::Editor;
use crate::position::{index_above, index_below, line_end, line_start};
use crate::rope::{spec_delete, spec_insert};
use vstd::prelude::*;

verus! {

/// A key as the input layer reports it.
#[derive(Clone, Copy, Debug, PartialEq, Eq, Structural)]
pub enum Key {
    Char(char),
    Enter,
    Backspace,
    Left,
    Right,
    Up,
    Down,
    Home,
    End,
    Other,
}

/// What a key press asks for.
#[derive(Clone, Copy, Debug, PartialEq, Eq, Structural)]
pub enum Command {
    Quit,
    Save,
    Open,
    Undo,
    Redo,
    Insert(char),
    Newline,
    Backspace,
    Left,
    Right,
    Up,
    Down,
    LineStart,
    LineEnd,
    Ignore,
}

/// What the caller has to do after a command: go on, leave, write the
/// buffer to its file, or ask for a file to read.
#[derive(Clone, Copy, Debug, PartialEq, Eq, Structural)]
pub enum Request {
    Continue,
    Quit,
    Save,
    Open,
}

/// The command of a key. With the control key held, `q` leaves, `a` saves,
/// `o` opens, `z` undoes and `y` redoes, and every other character is
/// ignored; without it a character is typed.
pub open spec fn command_of(key: Key, control: bool) -> Command {
    match key {
        Key::Char(c) => if control {
            if c == 'q' {
                Command::Quit
            } else if c == 'a' {
                Command::Save
            } else if c == 'o' {
                Command::Open
            } else if c == 'z' {
                Command::Undo
            } else if c == 'y' {
                Command::Redo
            } else {
                Command::Ignore
            }
        } else {
            Command::Insert(c)
        },
        Key::Enter => Command::Newline,
        Key::Backspace => Command::Backspace,
        Key::Left => Command::Left,
        Key::Right => Command::Right,
        Key::Up => Command::Up,
        Key::Down => Command::Down,
        Key::Home => Command::LineStart,
        Key::End => Command::LineEnd,
        Key::Other => Command::Ignore,
    }
}

/// What is left to the caller after a command.
pub open spec fn request_of(command: Command) -> Request {
    match command {
        Command::Quit => Request::Quit,
        Command::Save => Request::Save,
        Command::Open => Request::Open,
        _ => Request::Continue,
    }
}

/// Whether `after` is the state that `command` leads to from `before`.
pub open spec fn follows(after: Editor, before: Editor, command: Command) -> bool {
    let t = before.text();
    let idx = before.cursor_index as int;
    match command {
        Command::Quit | Command::Save | Command::Open | Command::Ignore => after == before,
        Command::Undo => after.wf() && after.is_undo_of(before),
        Command::Redo => after.wf() && after.is_redo_of(before),
        Command::Insert(c) => after.edited_from(before, spec_insert(t, idx, seq![c]), idx + 1),
        Command::Newline => after.edited_from(before, spec_insert(t, idx, seq!['\n']), idx + 1),
        Command::Backspace => after.edited_from(
            before,
            spec_delete(
                t,
                if idx > 0 {
                    idx - 1
                } else {
                    0
                },
                idx,
            ),
            if idx > 0 {
                idx - 1
            } else {
                0
            },
        ),
        Command::Left => after.moved_to(
            before,
            if idx > 0 {
                idx - 1
            } else {
                0
            },
        ),
        Command::Right => after.moved_to(
            before,
            if idx < t.len() {
                idx + 1
            } else {
                idx
            },
        ),
        Command::Up => after.moved_to(before, index_above(t, idx)),
        Command::Down => after.moved_to(before, index_below(t, idx)),
        Command::LineStart => after.moved_to(before, line_start(t, idx)),
        Command::LineEnd => after.moved_to(before, line_end(t, idx)),
    }
}

/// The command that a key stands for.
pub fn command_for(key: Key, control: bool) -> (command: Command)
    ensures
        command == command_of(key, control),
{
    match key {
        Key::Char(c) => {
            if !control {
                Command::Insert(c)
            } else if c == 'q' {
                Command::Quit
            } else if c == 'a' {
                Command::Save
            } else if c == 'o' {
                Command::Open
            } else if c == 'z' {
                Command::Undo
            } else if c == 'y' {
                Command::Redo
            } else {
                Command::Ignore
            }
        },
        Key::Enter => Command::Newline,
        Key::Backspace => Command::Backspace,
        Key::Left => Command::Left,
        Key::Right => Command::Right,
        Key::Up => Command::Up,
        Key::Down => Command::Down,
        Key::Home => Command::LineStart,
        Key::End => Command::LineEnd,
        Key::Other => Command::Ignore,
    }
}

/// Whether `command` puts a character into the text.
pub open spec fn types_a_character(command: Command) -> bool {
    command is Insert || command is Newline
}

/// Carries out `command` on the buffer and says what is left to the caller.
/// Only a command that types a character needs room for it.
pub fn execute(editor: &mut Editor, command: Command) -> (request: Request)
    requires
        old(editor).wf(),
        types_a_character(command) ==> old(editor).text().len() < usize::MAX,
    ensures
        final(editor).wf(),
        follows(*final(editor), *old(editor), command),
        request == request_of(command),
{
    match command {
        Command::Quit => Request::Quit,
        Command::Save => Request::Save,
        Command::Open => Request::Open,
        Command::Ignore => Request::Continue,
        Command::Undo => {
            editor.undo();
            Request::Continue
        },
        Command::Redo => {
            editor.redo();
            Request::Continue
        },
        Command::Insert(c) => {
            let mut typed: Vec<char> = Vec::new();
            typed.push(c);
            editor.insert_chars_at_cursor(typed);
            Request::Continue
        },
        Command::Newline => {
            let mut typed: Vec<char> = Vec::new();
            typed.push('\n');
            editor.insert_chars_at_cursor(typed);
            Request::Continue
        },
        Command::Backspace => {
            editor.delete_at_cursor(1);
            Request::Continue
        },
        Command::Left => {
            editor.move_cursor_left();
            Request::Continue
        },
        Command::Right => {
            editor.move_cursor_right();
            Request::Continue
        },
        Command::Up => {
            editor.move_cursor_up();
            Request::Continue
        },
        Command::Down => {
            editor.move_cursor_down();
            Request::Continue
        },
        Command::LineStart => {
            editor.move_to_line_start();
            Request::Continue
        },
        Command::LineEnd => {
            editor.move_to_line_end();
            Request::Continue
        },
    }
}

/// Handles one key press: carries out its command and says what is left to
/// the caller.
pub fn handle_key(editor: &mut Editor, key: Key, control: bool) -> (request: Request)
    requires
        old(editor).wf(),
        types_a_character(command_of(key, control)) ==> old(editor).text().len() < usize::MAX,
    ensures
        final(editor).wf(),
        follows(*final(editor), *old(editor), command_of(key, control)),
        request == request_of(command_of(key, control)),
{
    execute(editor, command_for(key, control))
}

} // verus!
