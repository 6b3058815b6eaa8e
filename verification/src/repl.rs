//! The read/eval print loop, as far as it decides anything: which command a
//! line is, what is to be done about it, and what is to be said. Reading
//! lines and writing to the terminal is left to the caller.

use crate::clock::local_time_now;
use crate::order::{sorted_by, Direction, Order};
use crate::paint::{bold, green, plain, render};
use crate::repository::{Job, SoftwareJobs};
use crate::text::{concat, decimal, decimal_string, text_eq, trim, trimmed};
use vstd::prelude::*;

verus! {

/// The prompt of the loop.
pub const PROMPT: &'static str = ">> ";

/// Said before the datastore is filled.
pub const POPULATING: &'static str = "Populating/indexing local datastore...\n";

/// Said once the datastore is filled.
pub const WELCOME: &'static str =
    "Population/indexing completed successfully! Welcome, please begin your job hunt by entering a query:\n";

/// Said before the datastore is filled anew.
pub const REFRESHING: &'static str = "Refreshing...\n";

/// Said at the end.
pub const GOODBYE: &'static str = "\nThank you for using Job Hunt. Goodbye!\n";

/// A String with custom display used by the REPL writer.
pub struct ReplString {
    string: String,
}

impl View for ReplString {
    type V = Seq<char>;

    closed spec fn view(&self) -> Seq<char> {
        self.string@
    }
}

impl ReplString {
    /// Wraps a text.
    pub fn new(s: &str) -> (wrapped: Self)
        ensures
            wrapped@ == s@,
    {
        ReplString { string: s.to_owned() }
    }

    /// The text as it was given.
    pub fn as_str(&self) -> (s: &str)
        ensures
            s@ == self@,
    {
        self.string.as_str()
    }

    /// The text as the REPL shows it: in bold green.
    pub fn painted(&self) -> String {
        render(&green(bold(plain(self.string.as_str()))))
    }
}

/// The commands of the loop.
#[derive(Debug, Clone, Copy, PartialEq, Eq, Structural)]
pub enum Command {
    /// List all postings.
    FetchJobs,
    /// Leave the loop.
    Exit,
    /// Fetch everything anew.
    Refresh,
    /// Anything else.
    Unknown,
}

/// The command that a line is: one of three exact phrases, or unknown.
pub open spec fn command_of(line: Seq<char>) -> Command {
    if line == "fetch jobs"@ {
        Command::FetchJobs
    } else if line == "exit"@ {
        Command::Exit
    } else if line == "refresh"@ {
        Command::Refresh
    } else {
        Command::Unknown
    }
}

/// Reads a line as a command.
pub fn parse_command(line: &str) -> (command: Command)
    ensures
        command == command_of(line@),
{
    if text_eq(line, "fetch jobs") {
        Command::FetchJobs
    } else if text_eq(line, "exit") {
        Command::Exit
    } else if text_eq(line, "refresh") {
        Command::Refresh
    } else {
        Command::Unknown
    }
}

/// The order in which postings are listed: oldest date first, and within a
/// date by company from the end of the alphabet.
pub open spec fn listing_order() -> Order {
    Order { date: Direction::Ascending, company: Direction::Descending }
}

/// What is said after `n` postings were listed.
pub open spec fn items_returned(n: nat) -> Seq<char> {
    decimal(n) + " items returned.\n"@
}

/// What is said of a line that is no command.
pub open spec fn does_not_compute(line: Seq<char>) -> Seq<char> {
    "Does not compute! 🤖 \""@ + trimmed(line) + "\" is not a valid query/command.\n"@
}

/// What is said when reading a line failed for the reason `err`.
pub open spec fn error_occurred(err: Seq<char>) -> Seq<char> {
    "An error has occurred: "@ + err
}

/// What the line editor handed over.
#[derive(Debug)]
pub enum Event {
    /// A line was entered.
    Line(String),
    /// The user interrupted the editor.
    Interrupted,
    /// The input ended.
    Eof,
    /// Reading failed; carries the reason.
    Failed(String),
}

/// What is to be done about an event.
#[derive(Debug)]
pub enum Action {
    /// Show these postings, one after the other, then say the summary.
    List(Vec<Job>, String),
    /// Fill the repository anew.
    Refresh,
    /// Say this and go on.
    Say(String),
    /// Leave the loop, after saying the text if there is one.
    Quit(Option<String>),
}

/// This trait must be implemented by the specific job repo struct to be used
/// in Job Hunt (e.g. SoftwareJobs).
pub trait Repl {
    /// Whether `action` is what is to be done about `event`.
    spec fn responds(&self, event: Event, action: Action) -> bool;

    /// Decides what is to be done about an event of the loop.
    fn respond(&self, event: Event) -> (action: Action)
        ensures
            self.responds(event, action),
    ;
}

impl Repl for SoftwareJobs {
    open spec fn responds(&self, event: Event, action: Action) -> bool {
        match event {
            Event::Line(line) => match command_of(line@) {
                Command::FetchJobs => action matches Action::List(jobs, summary)
                    && jobs.deep_view() == sorted_by(self.all.deep_view(), listing_order())
                    && summary@ == items_returned(self.all.len() as nat),
                Command::Exit => action matches Action::Quit(None),
                Command::Refresh => action is Refresh,
                Command::Unknown => action matches Action::Say(said) && said@ == does_not_compute(
                    line@,
                ),
            },
            Event::Interrupted => action matches Action::Quit(None),
            Event::Eof => action matches Action::Quit(None),
            Event::Failed(err) => action matches Action::Quit(Some(said)) && said@
                == error_occurred(err@),
        }
    }

    fn respond(&self, event: Event) -> (action: Action) {
        match event {
            Event::Line(line) => match parse_command(line.as_str()) {
                Command::FetchJobs => {
                    let order = Order { date: Direction::Ascending, company: Direction::Descending };
                    let jobs = self.all_sorted(order);
                    let count = decimal_string(self.all.len() as u64);
                    let summary = concat(count.as_str(), " items returned.\n");
                    Action::List(jobs, summary)
                },
                Command::Exit => Action::Quit(None),
                Command::Refresh => Action::Refresh,
                Command::Unknown => {
                    let head = concat("Does not compute! 🤖 \"", trim(line.as_str()));
                    Action::Say(concat(head.as_str(), "\" is not a valid query/command.\n"))
                },
            },
            Event::Interrupted => Action::Quit(None),
            Event::Eof => Action::Quit(None),
            Event::Failed(err) => Action::Quit(
                Some(concat("An error has occurred: ", err.as_str())),
            ),
        }
    }
}

/// What is said once the repository was filled anew: that it was, and the
/// local time at which it was.
pub fn refreshed_notice() -> (said: String)
    ensures
        exists|stamp: Seq<char>|
            said@ == "Refresh completed successfully at "@ + stamp + ".\n"@,
{
    let stamp = local_time_now();
    let head = concat("Refresh completed successfully at ", stamp.as_str());
    let said = concat(head.as_str(), ".\n");
    assert(said@ == "Refresh completed successfully at "@ + stamp@ + ".\n"@);
    said
}

} // verus!
