//! The command-line surface: the commands the tool accepts and the parsing
//! of raw arguments into them.
//!
//! Grammar: `start <task> [--note|-n <text>]`, `stop`, `status`,
//! `show [period]` (period defaults to `today`). The first argument is the
//! program name. An unknown subcommand, a positional beginning with `-`, a
//! missing task or note value, a repeated note, or a surplus argument is
//! rejected.

use vstd::prelude::*;
use crate::error::TimeCheckerError;

verus! {

/// A parsed invocation.
#[derive(Debug, PartialEq)]
pub struct Cli {
    pub command: Commands,
}

/// The commands the tool accepts.
#[derive(Debug, PartialEq)]
pub enum Commands {
    /// Start a task, closing any task still running.
    Start { task: String, note: Option<String> },
    /// Stop the running task.
    Stop,
    /// Show the running task and today's summary.
    Status,
    /// Show the summary for a period; only `today` is supported.
    Show { period: String },
}

/// The mathematical value of a parsed command.
pub ghost enum CommandModel {
    Start { task: Seq<char>, note: Option<Seq<char>> },
    Stop,
    Status,
    Show { period: Seq<char> },
}

impl View for Commands {
    type V = CommandModel;

    open spec fn view(&self) -> CommandModel {
        match self {
            Commands::Start { task, note } => CommandModel::Start {
                task: task@,
                note: match note {
                    Some(n) => Some(n@),
                    None => None,
                },
            },
            Commands::Stop => CommandModel::Stop,
            Commands::Status => CommandModel::Status,
            Commands::Show { period } => CommandModel::Show { period: period@ },
        }
    }
}

impl View for Cli {
    type V = CommandModel;

    open spec fn view(&self) -> CommandModel {
        self.command@
    }
}

/// An argument in flag position: it begins with `-`.
pub open spec fn is_flag(a: Seq<char>) -> bool {
    a.len() > 0 && a[0] == '-'
}

/// Scan of the arguments after `start`: one positional task, an optional
/// `--note`/`-n` with a value, nothing else.
pub open spec fn parse_start_args(
    args: Seq<Seq<char>>,
    i: int,
    task: Option<Seq<char>>,
    note: Option<Seq<char>>,
) -> Option<CommandModel>
    decreases args.len() - i,
{
    if i >= args.len() {
        match task {
            Some(t) => Some(CommandModel::Start { task: t, note }),
            None => None,
        }
    } else if args[i] == "--note"@ || args[i] == "-n"@ {
        if note is Some || i + 1 >= args.len() {
            None
        } else {
            parse_start_args(args, i + 2, task, Some(args[i + 1]))
        }
    } else if is_flag(args[i]) {
        None
    } else if task is Some {
        None
    } else {
        parse_start_args(args, i + 1, Some(args[i]), note)
    }
}

/// What a full argument vector (program name first) parses to, if anything.
pub open spec fn parse_spec(args: Seq<Seq<char>>) -> Option<CommandModel> {
    if args.len() < 2 {
        None
    } else if args[1] == "start"@ {
        parse_start_args(args, 2, None, None)
    } else if args[1] == "stop"@ {
        if args.len() == 2 {
            Some(CommandModel::Stop)
        } else {
            None
        }
    } else if args[1] == "status"@ {
        if args.len() == 2 {
            Some(CommandModel::Status)
        } else {
            None
        }
    } else if args[1] == "show"@ {
        if args.len() == 2 {
            Some(CommandModel::Show { period: "today"@ })
        } else if args.len() == 3 && !is_flag(args[2]) {
            Some(CommandModel::Show { period: args[2] })
        } else {
            None
        }
    } else {
        None
    }
}

/// Whether the argument begins with `-`.
fn starts_with_dash(s: &String) -> (r: bool)
    ensures
        r == is_flag(s@),
{
    let st = s.as_str();
    if st.unicode_len() == 0 {
        false
    } else {
        st.get_char(0) == '-'
    }
}

impl Cli {
    /// Parses an argument vector (program name first); `None` when the
    /// arguments do not fit the grammar.
    #[verifier::loop_isolation(false)]
    pub fn parse_from(args: &Vec<String>) -> (r: Option<Cli>)
        ensures
            match r {
                Some(cli) => parse_spec(args.deep_view()) == Some(cli@),
                None => parse_spec(args.deep_view()) is None,
            },
    {
        let ghost av = args.deep_view();
        if args.len() < 2 {
            return None;
        }
        if args[1] == String::from_str("start") {
            let mut i: usize = 2;
            let mut task: Option<String> = None;
            let mut note: Option<String> = None;
            while i < args.len()
                invariant
                    2 <= i <= args@.len(),
                    parse_start_args(av, 2, None, None) == parse_start_args(
                        av,
                        i as int,
                        task.deep_view(),
                        note.deep_view(),
                    ),
                decreases args@.len() - i,
            {
                if args[i] == String::from_str("--note") || args[i] == String::from_str("-n") {
                    if note.is_some() || i + 1 >= args.len() {
                        return None;
                    }
                    note = Some(args[i + 1].clone());
                    i = i + 2;
                } else if starts_with_dash(&args[i]) {
                    return None;
                } else if task.is_some() {
                    return None;
                } else {
                    task = Some(args[i].clone());
                    i = i + 1;
                }
            }
            match task {
                Some(t) => Some(Cli { command: Commands::Start { task: t, note } }),
                None => None,
            }
        } else if args[1] == String::from_str("stop") {
            if args.len() == 2 {
                Some(Cli { command: Commands::Stop })
            } else {
                None
            }
        } else if args[1] == String::from_str("status") {
            if args.len() == 2 {
                Some(Cli { command: Commands::Status })
            } else {
                None
            }
        } else if args[1] == String::from_str("show") {
            if args.len() == 2 {
                Some(Cli { command: Commands::Show { period: String::from_str("today") } })
            } else if args.len() == 3 && !starts_with_dash(&args[2]) {
                Some(Cli { command: Commands::Show { period: args[2].clone() } })
            } else {
                None
            }
        } else {
            None
        }
    }
}

/// Accepts exactly the literal `today`; anything else is the
/// `InvalidPeriod` failure, carrying the rejected argument.
pub fn validate_period(period: &String) -> (r: Result<(), TimeCheckerError>)
    ensures
        match r {
            Ok(_) => period@ == "today"@,
            Err(e) => period@ != "today"@ && (e matches TimeCheckerError::InvalidPeriod(p)
                && p@ == period@),
        },
{
    if *period == String::from_str("today") {
        Ok(())
    } else {
        Err(TimeCheckerError::InvalidPeriod(period.clone()))
    }
}

} // verus!
