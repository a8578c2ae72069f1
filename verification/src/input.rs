//! The entry screens: which typed characters they accept, and in which order
//! they follow each other.

use vstd::prelude::*;

verus! {

/// The longest display name the name screen accepts, in characters.
pub const MAX_NAME_LENGTH: usize = 16;

/// A character of a server address: a decimal digit, a dot or a colon.
pub open spec fn valid_ip_char(c: char) -> bool {
    ('0' <= c && c <= '9') || c == '.' || c == ':'
}

/// A character of a display name: printable ASCII, from the space to the tilde.
pub open spec fn valid_name_char(c: char) -> bool {
    ' ' <= c && c <= '~'
}

/// Tells whether `c` may be typed into the server address.
pub fn is_valid_ip_char(c: char) -> (ok: bool)
    ensures
        ok == valid_ip_char(c),
{
    if c >= '0' && c <= '9' {
        return true;
    }
    if c == '.' || c == ':' {
        return true;
    }
    false
}

/// Tells whether `c` may be typed into the display name.
pub fn is_valid_name_char(c: char) -> (ok: bool)
    ensures
        ok == valid_name_char(c),
{
    c >= ' ' && c <= '~'
}

/// The shortest display name the name screen lets through, in characters.
pub const MIN_NAME_LENGTH: usize = 3;

/// Where the client is on its way into a game.
#[derive(Clone, Copy, Debug, PartialEq, Eq, Structural)]
pub enum Status {
    EnterIP,
    EnterName,
    SelectMap,
    Init,
    StartServerListener,
    Run,
}

/// What a typed character does to an entry field.
#[derive(Clone, Copy, Debug, PartialEq, Eq, Structural)]
pub enum Keystroke {
    /// The entry is done; the next screen follows.
    Submit,
    /// The character joins the entry.
    Append,
    /// Nothing happens.
    Ignore,
}

/// A character that ends an entry: a carriage return or an end-of-text.
pub open spec fn submits(c: char) -> bool {
    c == '\r' || c == '\u{3}'
}

/// What `c` does on the address screen: a submit character ends the entry,
/// an address character joins it, anything else is ignored.
pub open spec fn ip_effect(c: char) -> Keystroke {
    if submits(c) {
        Keystroke::Submit
    } else if valid_ip_char(c) {
        Keystroke::Append
    } else {
        Keystroke::Ignore
    }
}

/// What `c` does on the name screen when the name has `length` characters: a
/// submit character ends the entry once the name is long enough, a name
/// character joins it while there is room, anything else is ignored.
pub open spec fn name_effect(length: usize, c: char) -> Keystroke {
    if submits(c) && length >= MIN_NAME_LENGTH {
        Keystroke::Submit
    } else if length < MAX_NAME_LENGTH && valid_name_char(c) {
        Keystroke::Append
    } else {
        Keystroke::Ignore
    }
}

/// The screen that follows `status`; play goes on once it has begun.
pub open spec fn following(status: Status) -> Status {
    match status {
        Status::EnterIP => Status::EnterName,
        Status::EnterName => Status::SelectMap,
        Status::SelectMap => Status::Init,
        Status::Init => Status::StartServerListener,
        Status::StartServerListener => Status::Run,
        Status::Run => Status::Run,
    }
}

/// Decides what a character typed on the address screen does.
pub fn handle_ip_input(c: char) -> (effect: Keystroke)
    ensures
        effect == ip_effect(c),
{
    if c == '\u{3}' || c == '\r' {
        return Keystroke::Submit;
    }
    if is_valid_ip_char(c) {
        return Keystroke::Append;
    }
    Keystroke::Ignore
}

/// Decides what a character typed on the name screen does, for a name of
/// `length` characters.
pub fn handle_name_input(length: usize, c: char) -> (effect: Keystroke)
    ensures
        effect == name_effect(length, c),
{
    if c == '\u{3}' || c == '\r' {
        if length >= MIN_NAME_LENGTH {
            return Keystroke::Submit;
        }
    }
    if length < MAX_NAME_LENGTH && is_valid_name_char(c) {
        return Keystroke::Append;
    }
    Keystroke::Ignore
}

/// The entry of a list of `count` that is marked after the arrow keys were
/// read, when entry `selected` was marked before: one further down if the
/// down key was pressed and there is an entry further down, and then one
/// further up if the up key was pressed and there is an entry further up.
pub open spec fn selection_after(selected: int, count: int, down: bool, up: bool) -> int {
    let lowered = if down && selected + 1 < count {
        selected + 1
    } else {
        selected
    };
    if up && lowered > 0 {
        lowered - 1
    } else {
        lowered
    }
}

/// Moves the mark in the list of maps by the arrow keys.
pub fn move_selection(selected: usize, count: usize, down: bool, up: bool) -> (marked: usize)
    requires
        selected < count,
    ensures
        marked == selection_after(selected as int, count as int, down, up),
        marked < count,
{
    let mut marked = selected;
    if down && marked + 1 < count {
        marked = marked + 1;
    }
    if up && marked > 0 {
        marked = marked - 1;
    }
    marked
}

/// Gives the screen that follows `status`.
pub fn next_status(status: Status) -> (next: Status)
    ensures
        next == following(status),
{
    match status {
        Status::EnterIP => Status::EnterName,
        Status::EnterName => Status::SelectMap,
        Status::SelectMap => Status::Init,
        Status::Init => Status::StartServerListener,
        Status::StartServerListener => Status::Run,
        Status::Run => Status::Run,
    }
}

/// A name that the name screen has let grow never exceeds the longest name,
/// and one it has let through is never shorter than the shortest.
pub proof fn lemma_name_length(length: usize, c: char)
    ensures
        name_effect(length, c) == Keystroke::Append ==> length + 1 <= MAX_NAME_LENGTH,
        name_effect(length, c) == Keystroke::Submit ==> length >= MIN_NAME_LENGTH,
{
}

} // verus!
