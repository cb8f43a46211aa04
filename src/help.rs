use vstd::prelude::*;

use crate::commander::Command;
use crate::descriptor::{CommandInformation, Flag};
use crate::flags::{lookup, FlagMap};

verus! {

/// The built-in command that describes the registered commands. It keeps a
/// copy of every command's information, its own first.
pub struct HelpCommand {
    pub known_commands: Vec<CommandInformation>,
}

/// What the help command shows for one set of flags. Indices refer to
/// `HelpCommand::known_commands` and to that command's flags.
pub enum HelpPage {
    /// No `-c`: a line for every known command.
    AllCommands,
    /// `-c` names a known command and no `-f` is given: that command and its flags.
    Command(usize),
    /// `-c` and `-f` name a known command and one of its flags.
    Flag { command: usize, flag: usize },
    /// `-c` names a known command that has no flag named by `-f`.
    NoSuchFlag { command: usize, identifier: String },
    /// `-c` names no known command.
    UnknownCommand(String),
}

pub open spec fn command_names(known: Seq<CommandInformation>) -> Seq<Seq<char>> {
    known.map_values(|c: CommandInformation| c.command_name@)
}

pub open spec fn flag_identifiers(flags: Seq<Flag>) -> Seq<Seq<char>> {
    flags.map_values(|f: Flag| f.identifier@)
}

/// `i` is the first position of `x` in `names`.
pub open spec fn is_first_index(names: Seq<Seq<char>>, x: Seq<char>, i: int) -> bool {
    &&& 0 <= i < names.len()
    &&& names[i] == x
    &&& forall|j: int| 0 <= j < i ==> names[j] != x
}

/// The text a flag value stands for: a flag given without a value reads as
/// the empty text.
pub open spec fn value_text(v: Option<Seq<char>>) -> Seq<char> {
    match v {
        Some(t) => t,
        None => Seq::empty(),
    }
}

/// The help command's own information: named `help`, with its help text and
/// the two optional flags `c` and `f` with theirs.
pub open spec fn is_help_information(info: CommandInformation) -> bool {
    &&& info.command_name@ == seq!['h', 'e', 'l', 'p']
    &&& info.command_help@ == "Displays help information about commands and their flags."@
    &&& info.flags@.len() == 2
    &&& info.flags@[0].identifier@ == seq!['c']
    &&& info.flags@[0].flag_help@
        == "Displays information about the specified command and its flags"@
    &&& !info.flags@[0].required
    &&& info.flags@[1].identifier@ == seq!['f']
    &&& info.flags@[1].flag_help@
        == "Displays information about a flag specific to the specified command"@
    &&& !info.flags@[1].required
}

/// The page that the flags `flags` ask for, given the known commands.
pub open spec fn help_page_matches(
    known: Seq<CommandInformation>,
    flags: Seq<(Seq<char>, Option<Seq<char>>)>,
    page: HelpPage,
) -> bool {
    match lookup(flags, seq!['c']) {
        None => page is AllCommands,
        Some(cv) => {
            let name = value_text(cv);
            let names = command_names(known);
            if !names.contains(name) {
                page matches HelpPage::UnknownCommand(n) && n@ == name
            } else {
                match lookup(flags, seq!['f']) {
                    None => page matches HelpPage::Command(ci) && is_first_index(
                        names,
                        name,
                        ci as int,
                    ),
                    Some(fv) => {
                        let fname = value_text(fv);
                        match page {
                            HelpPage::Flag { command: ci, flag: fi } => {
                                &&& is_first_index(names, name, ci as int)
                                &&& is_first_index(
                                    flag_identifiers(known[ci as int].flags@),
                                    fname,
                                    fi as int,
                                )
                            },
                            HelpPage::NoSuchFlag { command: ci, identifier: n } => {
                                &&& is_first_index(names, name, ci as int)
                                &&& n@ == fname
                                &&& !flag_identifiers(known[ci as int].flags@).contains(fname)
                            },
                            _ => false,
                        }
                    },
                }
            }
        },
    }
}

/// Reads a flag's value as text: a flag without a value reads as empty.
fn value_or_empty(v: Option<String>) -> (r: String)
    ensures
        r@ == value_text(crate::flags::opt_view(v)),
{
    match v {
        Some(s) => s,
        None => String::new(),
    }
}

/// The first command in `known` named `name`.
fn find_command(known: &Vec<CommandInformation>, name: &str) -> (r: Option<usize>)
    ensures
        r is None ==> !command_names(known@).contains(name@),
        r matches Some(i) ==> is_first_index(command_names(known@), name@, i as int),
{
    let n = known.len();
    let mut i: usize = 0;
    while i < n
        invariant
            n == known@.len(),
            i <= n,
            forall|j: int| 0 <= j < i ==> command_names(known@)[j] != name@,
        decreases n - i,
    {
        if crate::flags::same_text(known[i].command_name, name) {
            return Some(i);
        }
        i = i + 1;
    }
    None
}

/// The first flag in `flags` named `identifier`.
fn find_flag(flags: &Vec<Flag>, identifier: &str) -> (r: Option<usize>)
    ensures
        r is None ==> !flag_identifiers(flags@).contains(identifier@),
        r matches Some(i) ==> is_first_index(flag_identifiers(flags@), identifier@, i as int),
{
    let n = flags.len();
    let mut i: usize = 0;
    while i < n
        invariant
            n == flags@.len(),
            i <= n,
            forall|j: int| 0 <= j < i ==> flag_identifiers(flags@)[j] != identifier@,
        decreases n - i,
    {
        if crate::flags::same_text(flags[i].identifier, identifier) {
            return Some(i);
        }
        i = i + 1;
    }
    None
}

impl HelpCommand {
    /// The help command's own information.
    pub fn get_info() -> (r: CommandInformation)
        ensures
            is_help_information(r),
    {
        let r = CommandInformation {
            command_name: "help",
            command_help: "Displays help information about commands and their flags.",
            flags: vec![
                Flag {
                    identifier: "c",
                    flag_help: "Displays information about the specified command and its flags",
                    required: false,
                },
                Flag {
                    identifier: "f",
                    flag_help: "Displays information about a flag specific to the specified command",
                    required: false,
                },
            ],
        };
        proof {
            reveal_strlit("help");
            reveal_strlit("c");
            reveal_strlit("f");
            assert(r.command_name@ =~= seq!['h', 'e', 'l', 'p']);
            assert(r.flags@[0].identifier@ =~= seq!['c']);
            assert(r.flags@[1].identifier@ =~= seq!['f']);
        }
        r
    }

    /// A help command that knows its own information followed by `infos`.
    pub fn from_information(infos: Vec<CommandInformation>) -> (r: HelpCommand)
        ensures
            r.known_commands@.len() == infos@.len() + 1,
            is_help_information(r.known_commands@[0]),
            r.known_commands@.subrange(1, r.known_commands@.len() as int) == infos@,
    {
        let mut known: Vec<CommandInformation> = Vec::new();
        known.push(HelpCommand::get_info());
        let mut infos = infos;
        let ghost given = infos@;
        known.append(&mut infos);
        proof {
            assert(known@.subrange(1, known@.len() as int) =~= given);
        }
        HelpCommand { known_commands: known }
    }

    /// A help command that knows its own information followed by that of
    /// each of `commands`, in order, as they describe themselves now.
    pub fn new<C: Command>(commands: &Vec<C>) -> (r: HelpCommand)
        ensures
            r.known_commands@.len() == commands@.len() + 1,
            is_help_information(r.known_commands@[0]),
    {
        let mut infos: Vec<CommandInformation> = Vec::new();
        let n = commands.len();
        let mut i: usize = 0;
        while i < n
            invariant
                n == commands@.len(),
                i <= n,
                infos@.len() == i,
            decreases n - i,
        {
            infos.push(commands[i].get_information());
            i = i + 1;
        }
        HelpCommand::from_information(infos)
    }

    /// The page that `flags` ask for: every command without `-c`; the
    /// command named by `-c`, or its flag named by `-f`; or a report that
    /// either name is unknown.
    pub fn execute_command(&self, flags: &FlagMap) -> (r: HelpPage)
        ensures
            help_page_matches(self.known_commands@, flags@, r),
    {
        let c = flags.get("c");
        proof {
            reveal_strlit("c");
            assert("c"@ =~= seq!['c']);
        }
        match c {
            None => HelpPage::AllCommands,
            Some(cv) => {
                let name = value_or_empty(cv);
                match find_command(&self.known_commands, name.as_str()) {
                    None => HelpPage::UnknownCommand(name),
                    Some(ci) => {
                        let f = flags.get("f");
                        proof {
                            reveal_strlit("f");
                            assert("f"@ =~= seq!['f']);
                        }
                        match f {
                            None => HelpPage::Command(ci),
                            Some(fv) => {
                                let fname = value_or_empty(fv);
                                match find_flag(&self.known_commands[ci].flags, fname.as_str()) {
                                    Some(fi) => HelpPage::Flag { command: ci, flag: fi },
                                    None => HelpPage::NoSuchFlag { command: ci, identifier: fname },
                                }
                            },
                        }
                    },
                }
            },
        }
    }
}

} // verus!
