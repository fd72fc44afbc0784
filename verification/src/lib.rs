//! Discovery, selection and launching of desktop applications.
//!
//! A run of the launcher goes through these steps, each decided here and
//! carried out by the program around the library:
//!
//! 1. [`discovery`] says which directories are searched, which of their
//!    entries are candidate descriptors, and reads the applications that the
//!    candidates declare ([`application`], on top of [`entry`]).
//! 2. [`registry`] merges what the directories gave into a map from display
//!    name to launch description; later directories override earlier ones.
//! 3. [`chooser`] builds the text offered to the chooser program, the names in
//!    ascending [`order`], and interprets what the chooser answers.
//! 4. [`launch`] decides the command line that starts the chosen application,
//!    directly or wrapped in a terminal emulator.
//! 5. [`outcome`] gives the status the process exits with.
//!
//! [`text`] holds the handling of strings that the steps share.

pub mod application;
pub mod chooser;
pub mod discovery;
pub mod entry;
pub mod launch;
pub mod order;
pub mod outcome;
pub mod registry;
pub mod text;
