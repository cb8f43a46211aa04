use std::cell::RefCell;

use cliargs::{
    Command, CommandInformation, Commander, Flag, FlagMap, HelpPage, Outcome, Report, Target,
};

struct Recorder {
    name: &'static str,
    flags: Vec<Flag>,
    seen: RefCell<Vec<Option<Option<String>>>>,
}

impl Recorder {
    fn new(name: &'static str, flags: Vec<Flag>) -> Recorder {
        Recorder { name, flags, seen: RefCell::new(Vec::new()) }
    }

    fn runs(&self) -> usize {
        self.seen.borrow().len()
    }
}

impl Command for Recorder {
    fn execute_command(&self, flags: FlagMap) {
        self.seen.borrow_mut().push(flags.get("x"));
    }

    fn get_information(&self) -> CommandInformation {
        CommandInformation {
            command_name: self.name,
            command_help: "Records the value of -x.",
            flags: self.flags.clone(),
        }
    }
}

fn echo() -> Recorder {
    Recorder::new(
        "echo",
        vec![Flag { identifier: "x", flag_help: "the value", required: true }],
    )
}

fn run(c: &Commander<Recorder>, line: &str) -> Report {
    c.handle_input(line.to_string())
}

#[test]
fn empty_line_is_no_command() {
    let c = Commander::new(vec![echo()]);
    assert!(matches!(run(&c, "").outcome, Outcome::NoCommand));
    assert!(matches!(run(&c, "   ").outcome, Outcome::NoCommand));
    assert_eq!(c.commands[0].runs(), 0);
}

#[test]
fn unregistered_name_is_unknown_command() {
    let c = Commander::new(vec![echo()]);
    match run(&c, "frobnicate -x 1").outcome {
        Outcome::UnknownCommand(name) => assert_eq!(name, "frobnicate"),
        _ => panic!("expected an unknown command"),
    }
    assert_eq!(c.commands[0].runs(), 0);
}

#[test]
fn registered_command_runs_with_its_flags() {
    let c = Commander::new(vec![echo()]);
    assert!(matches!(run(&c, "echo -x 7").outcome, Outcome::Executed(0)));
    assert_eq!(c.commands[0].seen.borrow()[0], Some(Some("7".to_string())));
}

#[test]
fn command_name_is_matched_case_aside() {
    let c = Commander::new(vec![echo()]);
    assert!(matches!(run(&c, "EcHo -x 1").outcome, Outcome::Executed(0)));
    assert_eq!(c.commands[0].runs(), 1);
    assert_eq!(c.lookup("echo"), Some(Target::User(0)));
    assert_eq!(c.lookup("help"), Some(Target::Help));
    assert_eq!(c.lookup("ECHO"), None);
}

#[test]
fn missing_required_flag_stops_the_command() {
    let c = Commander::new(vec![echo()]);
    match run(&c, "echo -y 1").outcome {
        Outcome::MissingFlag(id) => assert_eq!(id, "x"),
        _ => panic!("expected a missing flag"),
    }
    assert_eq!(c.commands[0].runs(), 0);
}

#[test]
fn flag_without_value_satisfies_required_flag() {
    let c = Commander::new(vec![echo()]);
    assert!(matches!(run(&c, "echo -x").outcome, Outcome::Executed(0)));
    assert_eq!(c.commands[0].seen.borrow()[0], Some(None));
}

#[test]
fn duplicate_flag_stops_the_command() {
    let c = Commander::new(vec![echo()]);
    match run(&c, "echo -x 1 -x 2").outcome {
        Outcome::BadFlags(cliargs::FlagError::DuplicateFlag(id)) => assert_eq!(id, "x"),
        _ => panic!("expected a duplicate flag"),
    }
    assert_eq!(c.commands[0].runs(), 0);
}

#[test]
fn dropped_values_are_reported() {
    let c = Commander::new(vec![echo()]);
    let r = run(&c, "echo stray -x 1");
    assert!(matches!(r.outcome, Outcome::Executed(0)));
    assert_eq!(r.dropped, vec!["stray".to_string()]);
}

#[test]
fn help_lists_every_command_with_flag_counts() {
    let other = Recorder::new("other", vec![]);
    let c = Commander::new(vec![echo(), other]);
    assert!(matches!(run(&c, "help").outcome, Outcome::Help(HelpPage::AllCommands)));
    let known = &c.help.known_commands;
    let names: Vec<&str> = known.iter().map(|i| i.command_name).collect();
    assert_eq!(names, vec!["help", "echo", "other"]);
    let counts: Vec<usize> = known.iter().map(|i| i.flags.len()).collect();
    assert_eq!(counts, vec![2, 1, 0]);
}

#[test]
fn help_shows_its_own_command_flag() {
    let c = Commander::new(vec![echo()]);
    match run(&c, "help -c help -f c").outcome {
        Outcome::Help(HelpPage::Flag { command, flag }) => {
            let info = &c.help.known_commands[command];
            assert_eq!(info.command_name, "help");
            assert_eq!(info.flags[flag].identifier, "c");
            assert_eq!(
                info.flags[flag].flag_help,
                "Displays information about the specified command and its flags"
            );
        },
        _ => panic!("expected a flag page"),
    }
}

#[test]
fn help_shows_a_command() {
    let c = Commander::new(vec![echo()]);
    assert!(matches!(run(&c, "help -c echo").outcome, Outcome::Help(HelpPage::Command(1))));
}

#[test]
fn help_reports_unknown_flag() {
    let c = Commander::new(vec![echo()]);
    match run(&c, "help -c echo -f z").outcome {
        Outcome::Help(HelpPage::NoSuchFlag { command, identifier }) => {
            assert_eq!(command, 1);
            assert_eq!(identifier, "z");
        },
        _ => panic!("expected a missing flag page"),
    }
}

#[test]
fn help_reports_unknown_command() {
    let c = Commander::new(vec![echo()]);
    match run(&c, "help -c nope").outcome {
        Outcome::Help(HelpPage::UnknownCommand(name)) => assert_eq!(name, "nope"),
        _ => panic!("expected an unknown command page"),
    }
}

#[test]
fn later_registration_of_a_name_wins() {
    let c = Commander::new(vec![echo(), Recorder::new("ECHO", vec![])]);
    assert!(matches!(run(&c, "echo").outcome, Outcome::Executed(1)));
    assert_eq!(c.commands[0].runs(), 0);
    assert_eq!(c.commands[1].runs(), 1);
}

#[test]
fn user_command_named_help_replaces_help() {
    let c = Commander::new(vec![Recorder::new("help", vec![])]);
    assert!(matches!(run(&c, "help").outcome, Outcome::Executed(0)));
}

#[test]
fn help_information_is_fixed() {
    let info = cliargs::HelpCommand::get_info();
    assert_eq!(info.command_name, "help");
    assert_eq!(info.flags.len(), 2);
    assert_eq!(info.flags[1].identifier, "f");
    assert!(!info.flags[0].required && !info.flags[1].required);
}

#[test]
fn dispatch_takes_a_lower_cased_name() {
    let c = Commander::new(vec![echo()]);
    let rest = vec!["-x".to_string(), "5".to_string()];
    assert!(matches!(c.dispatch("echo", &rest).outcome, Outcome::Executed(0)));
    match c.dispatch("ECHO", &rest).outcome {
        Outcome::UnknownCommand(name) => assert_eq!(name, "ECHO"),
        _ => panic!("expected an unknown command"),
    }
    assert_eq!(c.commands[0].runs(), 1);
}

#[test]
fn flag_entries_keep_their_order() {
    let c = Commander::new(vec![echo()]);
    let rest = vec!["-x".to_string(), "5".to_string(), "-b".to_string()];
    let parsed = cliargs::parse_flags(&rest, cliargs::FLAG_PREFIX).ok().unwrap();
    let ids: Vec<&str> = parsed.flags.entries().iter().map(|e| e.identifier.as_str()).collect();
    assert_eq!(ids, vec!["x", "b"]);
    assert_eq!(parsed.flags.entries()[1].value, None);
    assert!(c.lookup("other").is_none());
}

#[test]
fn help_page_of_help_shows_its_texts() {
    let c = Commander::new(Vec::<Recorder>::new());
    assert!(matches!(run(&c, "help -c help").outcome, Outcome::Help(HelpPage::Command(0))));
    let info = &c.help.known_commands[0];
    assert_eq!(info.command_help, "Displays help information about commands and their flags.");
    assert_eq!(
        info.flags[1].flag_help,
        "Displays information about a flag specific to the specified command"
    );
}
