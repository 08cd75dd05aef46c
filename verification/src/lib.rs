//! Input-macro engine: binds chords of held keys and mouse buttons to
//! compiled scripts of synthesized input actions, and schedules their
//! playback.
//!
//! The crate covers the engine itself: compiling declared script events
//! (including reusable named blocks) into a flat action program, matching
//! live input against configured trigger chords, and deciding how each
//! script's playback task starts, restarts and stops. Capturing raw input
//! and injecting synthesized actions into the operating system are left to
//! the surrounding binary.

use vstd::prelude::*;

pub mod script;

verus! {

/// The command-line surface: an optional sub-command. The surrounding
/// binary parses the real argument list into this shape and executes
/// what `run` resolves.
#[derive(Debug)]
pub struct Cli {
    pub sub_command: Option<Commands>,
}

/// The available sub-commands.
#[derive(Debug)]
pub enum Commands {
    /// Run the scripts of a configuration file.
    Run(Run),
    /// Print raw event codes as they are captured.
    Event,
    /// Print live cursor coordinates on demand.
    Point,
    /// Record captured input into an exportable event sequence.
    Record,
}

/// Arguments of the `Run` sub-command.
#[derive(Debug)]
pub struct Run {
    /// Path of the configuration file.
    pub config: String,
}

impl Cli {
    /// Resolves what to execute: the given sub-command, or — when none
    /// was given — running the default configuration file
    /// `./config.toml`.
    pub fn run(self) -> (r: Commands)
        ensures
            match self.sub_command {
                Some(c) => r == c,
                None => r matches Commands::Run(ru) && ru.config@ == "./config.toml"@,
            },
    {
        match self.sub_command {
            Some(c) => c,
            None => Commands::Run(Run { config: "./config.toml".to_owned() }),
        }
    }
}

} // verus!
