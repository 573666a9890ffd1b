//! The records the console hands out: output lines, variable changes, and
//! the input, toggle and clear signals.
use vstd::prelude::*;
use vstd::string::*;

verus! {

/// The line that a console input event carries.
pub struct ConsoleInputEvent {
    /// The raw input line.
    pub command: String,
}

impl ConsoleInputEvent {
    /// An input event for `command`.
    pub fn new(command: &str) -> (r: Self)
        ensures
            r.command@ == command@,
    {
        ConsoleInputEvent { command: command.to_owned() }
    }
}

/// Severity of an output line.
#[derive(Debug, Clone, Copy, PartialEq, Eq, Structural)]
pub enum ConsoleOutputLevel {
    Debug,
    Info,
    Warn,
    Error,
    /// An echo of a command that was entered.
    Command,
    /// The result of a command.
    Result,
}

impl Default for ConsoleOutputLevel {
    fn default() -> (r: Self)
        ensures
            r == ConsoleOutputLevel::Info,
    {
        ConsoleOutputLevel::Info
    }
}

/// One line of console output.
#[derive(Debug)]
pub struct ConsoleOutputEvent {
    /// The text.
    pub message: String,
    /// The severity.
    pub level: ConsoleOutputLevel,
}

/// Abstract output line: severity and text.
pub struct OutputModel {
    pub level: ConsoleOutputLevel,
    pub message: Seq<char>,
}

impl View for ConsoleOutputEvent {
    type V = OutputModel;

    open spec fn view(&self) -> OutputModel {
        OutputModel { level: self.level, message: self.message@ }
    }
}

impl ConsoleOutputEvent {
    /// An output line of severity `level`.
    pub fn new(level: ConsoleOutputLevel, message: String) -> (r: Self)
        ensures
            r@ == (OutputModel { level, message: message@ }),
    {
        ConsoleOutputEvent { message, level }
    }

    /// A debug line.
    pub fn debug(message: String) -> (r: Self)
        ensures
            r@ == (OutputModel { level: ConsoleOutputLevel::Debug, message: message@ }),
    {
        Self::new(ConsoleOutputLevel::Debug, message)
    }

    /// An information line.
    pub fn info(message: String) -> (r: Self)
        ensures
            r@ == (OutputModel { level: ConsoleOutputLevel::Info, message: message@ }),
    {
        Self::new(ConsoleOutputLevel::Info, message)
    }

    /// A warning line.
    pub fn warn(message: String) -> (r: Self)
        ensures
            r@ == (OutputModel { level: ConsoleOutputLevel::Warn, message: message@ }),
    {
        Self::new(ConsoleOutputLevel::Warn, message)
    }

    /// An error line.
    pub fn error(message: String) -> (r: Self)
        ensures
            r@ == (OutputModel { level: ConsoleOutputLevel::Error, message: message@ }),
    {
        Self::new(ConsoleOutputLevel::Error, message)
    }

    /// An echo of an entered command.
    pub fn command(message: String) -> (r: Self)
        ensures
            r@ == (OutputModel { level: ConsoleOutputLevel::Command, message: message@ }),
    {
        Self::new(ConsoleOutputLevel::Command, message)
    }

    /// A result line.
    pub fn result(message: String) -> (r: Self)
        ensures
            r@ == (OutputModel { level: ConsoleOutputLevel::Result, message: message@ }),
    {
        Self::new(ConsoleOutputLevel::Result, message)
    }
}

/// A variable changed through the console.
#[derive(Debug)]
pub struct ConVarChangedEvent {
    /// The variable name.
    pub name: String,
    /// The value before, as text.
    pub old_value: String,
    /// The value after, as text.
    pub new_value: String,
}

/// Abstract change record: name, old text, new text.
pub struct ChangeModel {
    pub name: Seq<char>,
    pub old_value: Seq<char>,
    pub new_value: Seq<char>,
}

impl View for ConVarChangedEvent {
    type V = ChangeModel;

    open spec fn view(&self) -> ChangeModel {
        ChangeModel { name: self.name@, old_value: self.old_value@, new_value: self.new_value@ }
    }
}

impl ConVarChangedEvent {
    /// A change of `name` from `old_value` to `new_value`.
    pub fn new(name: &str, old_value: &str, new_value: &str) -> (r: Self)
        ensures
            r@ == (ChangeModel { name: name@, old_value: old_value@, new_value: new_value@ }),
    {
        ConVarChangedEvent {
            name: name.to_owned(),
            old_value: old_value.to_owned(),
            new_value: new_value.to_owned(),
        }
    }
}

/// The console was opened or closed.
#[derive(Debug, Clone, Copy, PartialEq, Eq, Structural)]
pub struct ConsoleToggleEvent {
    /// Whether it is now open.
    pub open: bool,
}

impl ConsoleToggleEvent {
    /// The console was opened.
    pub fn opened() -> (r: Self)
        ensures
            r.open,
    {
        ConsoleToggleEvent { open: true }
    }

    /// The console was closed.
    pub fn closed() -> (r: Self)
        ensures
            !r.open,
    {
        ConsoleToggleEvent { open: false }
    }
}

/// The output display should be cleared.
#[derive(Debug, Clone, Copy, PartialEq, Eq, Structural)]
pub struct ConsoleClearEvent;

} // verus!
