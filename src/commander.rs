use vstd::prelude::*;

use crate::descriptor::CommandInformation;
use crate::flags::{
    ParsedFlags,
    first_missing_flag, parse_flags, scan_flags, FlagError, FlagMap,
    FLAG_PREFIX,
};
use crate::help::{help_page_matches, is_help_information, HelpCommand, HelpPage};
use crate::tokens::{split_tokens, split_ws, views};

verus! {

/// A command that the dispatcher can run. Implementors describe themselves
/// and carry out their work with the flags of one input line.
pub trait Command {
    /// Runs the command with the flags given on the input line.
    fn execute_command(&self, flags: FlagMap);

    /// The command's name, help text and flags.
    fn get_information(&self) -> CommandInformation;
}

/// The lower-case form of a text, as `str::to_lowercase` computes it.
pub uninterp spec fn lower_of(s: Seq<char>) -> Seq<char>;

/// Relies on `str::to_lowercase`: the result depends on the characters alone.
#[verifier::external_body]
fn lowercase(s: &str) -> (r: String)
    ensures
        r@ == lower_of(s@),
{
    s.to_lowercase()
}

/// What a registered name leads to: the built-in help command, or the
/// command at an index of `Commander::commands`.
#[derive(Clone, Copy, Debug, PartialEq, Eq, Structural)]
pub enum Target {
    Help,
    User(usize),
}

/// What became of one input line.
pub enum Outcome {
    /// The line held no token.
    NoCommand,
    /// No command is registered under the (lower-cased) name.
    UnknownCommand(String),
    /// The flags could not be read.
    BadFlags(FlagError),
    /// A required flag of the command was not given.
    MissingFlag(&'static str),
    /// The help command ran and asks for this page.
    Help(HelpPage),
    /// The command at this index of `Commander::commands` ran.
    Executed(usize),
}

/// The outcome of a line, with the value tokens that stood before any flag
/// and were dropped.
pub struct Report {
    pub dropped: Vec<String>,
    pub outcome: Outcome,
}

/// The registry: the commands, the lower-cased name each was registered
/// under, and the help command built from their information.
pub struct Commander<C> {
    pub commands: Vec<C>,
    /// `keys[i]` is the lower-cased name of `commands[i]`.
    pub keys: Vec<String>,
    /// The lower-cased name of the help command.
    pub help_key: String,
    pub help: HelpCommand,
}

pub open spec fn help_name() -> Seq<char> {
    seq!['h', 'e', 'l', 'p']
}

/// What `key` leads to in a registry whose commands were registered under
/// `keys`, in order, after the help command under `help_key`: the latest
/// registration under `key` wins.
pub open spec fn registered(keys: Seq<Seq<char>>, help_key: Seq<char>, key: Seq<char>) -> Option<
    Target,
>
    decreases keys.len(),
{
    if keys.len() == 0 {
        if key == help_key {
            Some(Target::Help)
        } else {
            None
        }
    } else if keys.last() == key {
        Some(Target::User((keys.len() - 1) as usize))
    } else {
        registered(keys.drop_last(), help_key, key)
    }
}

/// `r` is what dispatching command name `name` with flag tokens `rest` gives
/// in a registry with the given keys and help command. Where a command of the
/// caller runs, its flags were checked against the information it gave at
/// that moment, which nothing here fixes: then `r` is that it ran or that a
/// flag was missing.
pub open spec fn dispatch_matches(
    keys: Seq<Seq<char>>,
    help_key: Seq<char>,
    help_known: Seq<CommandInformation>,
    name: Seq<char>,
    rest: Seq<Seq<char>>,
    r: Report,
) -> bool {
    match registered(keys, help_key, name) {
        None => r.outcome matches Outcome::UnknownCommand(n) && n@ == name && r.dropped@.len()
            == 0,
        Some(t) => match scan_flags(rest, FLAG_PREFIX) {
            Err(e) => r.outcome matches Outcome::BadFlags(err) && err.view() == e
                && r.dropped@.len() == 0,
            Ok(st) => views(r.dropped@) == st.dropped && match t {
                Target::Help => r.outcome matches Outcome::Help(page) && help_page_matches(
                    help_known,
                    st.entries,
                    page,
                ),
                Target::User(i) => r.outcome == Outcome::Executed(i)
                    || r.outcome is MissingFlag,
            },
        },
    }
}

proof fn lemma_registered_in_range(keys: Seq<Seq<char>>, help_key: Seq<char>, key: Seq<char>)
    ensures
        registered(keys, help_key, key) matches Some(Target::User(i)) ==> i < keys.len(),
    decreases keys.len(),
{
    if keys.len() > 0 && keys.last() != key {
        lemma_registered_in_range(keys.drop_last(), help_key, key);
    }
}

impl<C: Command> Commander<C> {
    pub open spec fn wf(&self) -> bool {
        &&& self.keys@.len() == self.commands@.len()
        &&& self.help.known_commands@.len() == self.commands@.len() + 1
        &&& is_help_information(self.help.known_commands@[0])
    }

    pub open spec fn key_views(&self) -> Seq<Seq<char>> {
        views(self.keys@)
    }

    /// A registry of `commands`, where `infos[i]` is what `commands[i]`
    /// tells about itself. Each command is registered under its lower-cased
    /// name, after the help command; a later command takes a name from an
    /// earlier one.
    pub fn from_information(commands: Vec<C>, infos: Vec<CommandInformation>) -> (r: Commander<C>)
        requires
            infos@.len() == commands@.len(),
        ensures
            r.wf(),
            r.commands@ == commands@,
            r.help_key@ == lower_of(help_name()),
            forall|i: int|
                0 <= i < infos@.len() ==> #[trigger] r.key_views()[i] == lower_of(
                    infos@[i].command_name@,
                ),
            r.help.known_commands@.subrange(1, r.help.known_commands@.len() as int) == infos@,
    {
        let n = infos.len();
        let mut keys: Vec<String> = Vec::new();
        let mut i: usize = 0;
        while i < n
            invariant
                n == infos@.len(),
                i <= n,
                keys@.len() == i,
                forall|j: int|
                    0 <= j < i ==> #[trigger] keys@[j]@ == lower_of(infos@[j].command_name@),
            decreases n - i,
        {
            keys.push(lowercase(infos[i].command_name));
            i = i + 1;
        }
        proof {
            assert forall|j: int| 0 <= j < n implies #[trigger] views(keys@)[j] == lower_of(
                infos@[j].command_name@,
            ) by {
                assert(keys@[j]@ == lower_of(infos@[j].command_name@));
            }
        }
        let help_key = lowercase("help");
        proof {
            reveal_strlit("help");
            assert("help"@ =~= help_name());
        }
        let help = HelpCommand::from_information(infos);
        Commander { commands, keys, help_key, help }
    }

    /// A registry of `commands`, each registered under the lower-cased name
    /// it gives now, after the built-in help command.
    pub fn new(commands: Vec<C>) -> (r: Commander<C>)
        ensures
            r.wf(),
            r.commands@ == commands@,
            r.help_key@ == lower_of(help_name()),
            forall|i: int|
                0 <= i < commands@.len() ==> #[trigger] r.key_views()[i] == lower_of(
                    r.help.known_commands@[i + 1].command_name@,
                ),
    {
        let mut infos: Vec<CommandInformation> = Vec::new();
        let n = commands.len();
        let mut i: usize = 0;
        while i < n
            invariant
                n == commands@.len(),
                i <= n,
                infos@.len() == i,
            decreases n - i,
        {
            infos.push(commands[i].get_information());
            i = i + 1;
        }
        let r = Commander::from_information(commands, infos);
        proof {
            let known = r.help.known_commands@;
            assert forall|i: int| 0 <= i < r.commands@.len() implies #[trigger] r.key_views()[i]
                == lower_of(known[i + 1].command_name@) by {
                assert(known.subrange(1, known.len() as int)[i] == known[i + 1]);
            }
        }
        r
    }

    /// What the lower-cased name `key` leads to.
    pub fn lookup(&self, key: &str) -> (r: Option<Target>)
        requires
            self.wf(),
        ensures
            r == registered(self.key_views(), self.help_key@, key@),
    {
        let mut i: usize = self.keys.len();
        let ghost ks = self.key_views();
        proof {
            assert(ks.subrange(0, i as int) =~= ks);
        }
        while i > 0
            invariant
                i <= self.keys@.len(),
                ks == self.key_views(),
                registered(ks, self.help_key@, key@) == registered(
                    ks.subrange(0, i as int),
                    self.help_key@,
                    key@,
                ),
            decreases i,
        {
            let ghost pre = ks.subrange(0, i as int);
            proof {
                assert(pre.drop_last() =~= ks.subrange(0, i - 1));
            }
            if crate::flags::same_text(self.keys[i - 1].as_str(), key) {
                return Some(Target::User(i - 1));
            }
            i = i - 1;
        }
        if crate::flags::same_text(self.help_key.as_str(), key) {
            Some(Target::Help)
        } else {
            None
        }
    }

    /// Runs the command registered under the lower-cased name `name` with the
    /// flag tokens `rest`: reads the flags, checks them against the
    /// command's information, and runs the command if they pass.
    pub fn dispatch(&self, name: &str, rest: &[String]) -> (r: Report)
        requires
            self.wf(),
        ensures
            dispatch_matches(
                self.key_views(),
                self.help_key@,
                self.help.known_commands@,
                name@,
                views(rest@),
                r,
            ),
    {
        proof {
            lemma_registered_in_range(self.key_views(), self.help_key@, name@);
        }
        match self.lookup(name) {
            None => Report { dropped: Vec::new(), outcome: Outcome::UnknownCommand(String::from_str(name)) },
            Some(t) => match parse_flags(rest, FLAG_PREFIX) {
                Err(e) => Report { dropped: Vec::new(), outcome: Outcome::BadFlags(e) },
                Ok(parsed) => {
                    let ParsedFlags { flags, dropped } = parsed;
                    match t {
                        Target::Help => {
                            let own = &self.help.known_commands[0].flags;
                            match first_missing_flag(&flags, own) {
                                Some(k) => {
                                    proof {
                                        assert(own@[k as int].required);
                                        assert(false);
                                    }
                                    Report { dropped, outcome: Outcome::MissingFlag(own[k].identifier) }
                                },
                                None => {
                                    let page = self.help.execute_command(&flags);
                                    Report { dropped, outcome: Outcome::Help(page) }
                                },
                            }
                        },
                        Target::User(i) => {
                            let info = self.commands[i].get_information();
                            match first_missing_flag(&flags, &info.flags) {
                                Some(k) => Report {
                                    dropped,
                                    outcome: Outcome::MissingFlag(info.flags[k].identifier),
                                },
                                None => {
                                    self.commands[i].execute_command(flags);
                                    Report { dropped, outcome: Outcome::Executed(i) }
                                },
                            }
                        },
                    }
                },
            },
        }
    }

    /// Handles one input line: its first token names the command, case
    /// aside; the remaining tokens are its flags.
    pub fn handle_input(&self, input: String) -> (r: Report)
        requires
            self.wf(),
        ensures
            split_ws(input@).len() == 0 ==> r.outcome is NoCommand && r.dropped@.len() == 0,
            split_ws(input@).len() > 0 ==> dispatch_matches(
                self.key_views(),
                self.help_key@,
                self.help.known_commands@,
                lower_of(split_ws(input@)[0]),
                split_ws(input@).drop_first(),
                r,
            ),
    {
        let tokens = split_tokens(input.as_str());
        let n = tokens.len();
        if n == 0 {
            return Report { dropped: Vec::new(), outcome: Outcome::NoCommand };
        }
        let name = lowercase(tokens[0].as_str());
        let rest = vstd::slice::slice_subrange(tokens.as_slice(), 1, n);
        proof {
            assert(views(rest@) =~= split_ws(input@).drop_first());
        }
        self.dispatch(name.as_str(), rest)
    }
}

} // verus!

verus! {

proof fn lemma_registered_is_latest(
    keys: Seq<Seq<char>>,
    help_key: Seq<char>,
    key: Seq<char>,
    k: usize,
)
    requires
        registered(keys, help_key, key) == Some(Target::User(k)),
        keys.len() <= usize::MAX,
    ensures
        k < keys.len(),
        keys[k as int] == key,
        forall|m: int| k < m < keys.len() ==> keys[m] != key,
    decreases keys.len(),
{
    lemma_registered_in_range(keys, help_key, key);
    if keys.len() > 0 && keys.last() == key {
        assert(k as int == keys.len() - 1);
    } else if keys.len() > 0 {
        lemma_registered_is_latest(keys.drop_last(), help_key, key, k);
        assert forall|m: int| k < m < keys.len() implies keys[m] != key by {
            if m < keys.len() - 1 {
                assert(keys.drop_last()[m] == keys[m]);
            }
        }
    }
}

/// Of two commands registered under the same lower-cased name, the earlier
/// one is reachable under no name: the later registration wins.
pub proof fn law_later_registration_wins(
    keys: Seq<Seq<char>>,
    help_key: Seq<char>,
    i: int,
    j: int,
    key: Seq<char>,
)
    requires
        0 <= i < j < keys.len() <= usize::MAX,
        keys[i] == keys[j],
    ensures
        registered(keys, help_key, key) != Some(Target::User(i as usize)),
        registered(keys, help_key, keys[j]) matches Some(Target::User(k)) && j <= k,
{
    if registered(keys, help_key, key) == Some(Target::User(i as usize)) {
        lemma_registered_is_latest(keys, help_key, key, i as usize);
    }
    lemma_registered_found(keys, help_key, j);
    let r = registered(keys, help_key, keys[j]);
    if let Some(Target::User(k)) = r {
        lemma_registered_is_latest(keys, help_key, keys[j], k);
    }
}

proof fn lemma_registered_found(keys: Seq<Seq<char>>, help_key: Seq<char>, j: int)
    requires
        0 <= j < keys.len(),
    ensures
        registered(keys, help_key, keys[j]) is Some,
        registered(keys, help_key, keys[j]) != Some(Target::Help),
    decreases keys.len(),
{
    if keys.last() != keys[j] {
        assert(keys.drop_last()[j] == keys[j]);
        lemma_registered_found(keys.drop_last(), help_key, j);
    }
}

} // verus!
