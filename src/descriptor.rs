use vstd::prelude::*;

verus! {

/// Describes one flag of a command.
#[derive(Clone, Copy, Debug)]
pub struct Flag {
    /// The letter or phrase that names the flag, without the leading `-`.
    /// `h` is reserved and should not be used.
    pub identifier: &'static str,
    /// Help text for this flag.
    pub flag_help: &'static str,
    /// Whether the flag must be given for the command to run.
    pub required: bool,
}

/// What a command tells about itself: its name, its help text and its flags.
#[derive(Debug)]
pub struct CommandInformation {
    /// The name of the command.
    pub command_name: &'static str,
    /// The help description of the command.
    pub command_help: &'static str,
    /// The flags that the command supports or requires, in declaration order.
    pub flags: Vec<Flag>,
}

} // verus!
