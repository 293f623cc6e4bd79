//! The decisions behind the command line: which subcommand runs, how a stored
//! command is added, how its text is filled in before it runs, and how its
//! output is shown.
use vstd::prelude::*;

use crate::app::config::{
    opt_view, with_commands, AppConfig, AppConfigAction, Command, CommandAction, CommandType,
    CommandView,
};
use crate::text::{
    decimal, decimal_chars, replace_all, replace_all_str, to_chars, chars_eq, trim_char,
    trim_matches_char,
};

verus! {

/// The placeholder that stands for the parameter at `index`: `$` and the
/// index in decimal.
pub open spec fn placeholder(index: nat) -> Seq<char> {
    seq!['$'] + decimal(index)
}

/// The text of `original` after the placeholders of the parameters have been
/// replaced in order: first every `$0` by the first parameter, then, in the
/// result, every `$1` by the second, and so on.
pub open spec fn substitute_params(original: Seq<char>, params: Seq<Seq<char>>) -> Seq<char>
    decreases params.len(),
{
    if params.len() == 0 {
        original
    } else {
        let last = (params.len() - 1) as nat;
        replace_all(
            substitute_params(original, params.take(last as int)),
            placeholder(last),
            params[last as int],
        )
    }
}

/// The characters of the placeholder for `index`.
fn placeholder_chars(index: usize) -> (v: Vec<char>)
    ensures
        v@ == placeholder(index as nat),
{
    let mut digits = decimal_chars(index);
    let mut v: Vec<char> = Vec::new();
    v.push('$');
    v.append(&mut digits);
    assert(v@ =~= placeholder(index as nat));
    v
}

/// Fills the parameters into a stored command's text: for each index in
/// turn, every occurrence of its placeholder is replaced by the parameter.
pub fn replace_command_detail(original: &str, params: Vec<&String>) -> (r: String)
    ensures
        r@ == substitute_params(original@, params@.map_values(|p: &String| p@)),
{
    let ghost ps = params@.map_values(|p: &String| p@);
    let mut result = original.to_owned();
    let mut index: usize = 0;
    assert(ps.take(0) =~= Seq::<Seq<char>>::empty());
    while index < params.len()
        invariant
            index <= params@.len(),
            ps == params@.map_values(|p: &String| p@),
            result@ == substitute_params(original@, ps.take(index as int)),
        decreases params@.len() - index,
    {
        let pattern = placeholder_chars(index);
        let param: &String = params[index];
        result = replace_all_str(result.as_str(), &pattern, param.as_str());
        assert(ps.take(index + 1).take(index as int) =~= ps.take(index as int));
        assert(ps.take(index + 1)[index as int] == param@);
        index = index + 1;
    }
    assert(ps.take(params@.len() as int) =~= ps);
    result
}

/// The operating systems that the tool runs commands on.
#[derive(Clone, Copy, Debug, PartialEq, Eq, Structural)]
pub enum TargetOs {
    MacOs,
    Windows,
    Linux,
}

/// The shell that runs a command's text on the given system.
pub fn get_shell_command(os: TargetOs) -> (r: &'static str)
    ensures
        r@ == (match os {
            TargetOs::Windows => "cmd"@,
            _ => "sh"@,
        }),
{
    match os {
        TargetOs::MacOs => "sh",
        TargetOs::Windows => "cmd",
        TargetOs::Linux => "sh",
    }
}

/// The subcommands of the tool.
#[derive(Clone, Copy, Debug, PartialEq, Eq, Structural)]
pub enum Subcommand {
    Add,
    Delete,
    Run,
    List,
}

/// What running a stored command takes: its text with the parameters filled
/// in, and the prefix and suffix of each output line.
pub struct RunPlan {
    pub command: String,
    pub prefix: String,
    pub suffix: String,
}

/// The characters of an optional string, or none.
pub open spec fn or_empty(o: Option<Seq<char>>) -> Seq<char> {
    match o {
        Some(s) => s,
        None => Seq::empty(),
    }
}

/// The stored form of a command added from the command line: its text with
/// all surrounding single quotes, then all surrounding double quotes, removed.
pub open spec fn added_command(
    name: Seq<char>,
    detail: Seq<char>,
    prefix: Option<Seq<char>>,
    suffix: Option<Seq<char>>,
) -> CommandView {
    CommandView {
        command_type: CommandType::String,
        name: name,
        detail: trim_char(trim_char(detail, '\''), '"'),
        prefix: prefix,
        suffix: suffix,
    }
}

/// Owned copy of an optional string, or an empty string.
fn unwrap_or_empty(o: &Option<String>) -> (r: String)
    ensures
        r@ == or_empty(opt_view(*o)),
{
    match o {
        Some(s) => s.clone(),
        None => String::new(),
    }
}

/// The tool's command-line actions.
pub struct AppCommands;

impl AppCommands {
    /// The subcommand that a name on the command line selects, if any.
    pub fn subcommand(name: &str) -> (r: Option<Subcommand>)
        ensures
            r == (if name@ == "add"@ {
                Some(Subcommand::Add)
            } else if name@ == "delete"@ {
                Some(Subcommand::Delete)
            } else if name@ == "run"@ {
                Some(Subcommand::Run)
            } else if name@ == "list"@ {
                Some(Subcommand::List)
            } else {
                None
            }),
    {
        let v = to_chars(name);
        if chars_eq(&v, &to_chars("add")) {
            Some(Subcommand::Add)
        } else if chars_eq(&v, &to_chars("delete")) {
            Some(Subcommand::Delete)
        } else if chars_eq(&v, &to_chars("run")) {
            Some(Subcommand::Run)
        } else if chars_eq(&v, &to_chars("list")) {
            Some(Subcommand::List)
        } else {
            None
        }
    }

    /// Adds the command given on the command line to the configuration, under
    /// its name; its text loses the quotes that surround it.
    pub fn add_command(
        config: &mut AppConfig,
        name: String,
        detail: &str,
        prefix: Option<String>,
        suffix: Option<String>,
    )
        ensures
            final(config)@ == with_commands(
                old(config)@,
                old(config)@.commands.insert(
                    name@,
                    added_command(name@, detail@, opt_view(prefix), opt_view(suffix)),
                ),
            ),
    {
        let single = trim_matches_char(detail, '\'');
        let trimmed = trim_matches_char(single.as_str(), '"');
        let command = <Command as CommandAction>::new(name, trimmed, prefix, suffix);
        config.add_command(command);
    }

    /// What running the command stored under `name` with `params` takes: the
    /// stored text with the parameters filled in, and the stored prefix and
    /// suffix, empty where none is stored.
    pub fn plan_run(config: &AppConfig, name: &str, params: Vec<&String>) -> (r: RunPlan)
        requires
            config@.commands.contains_key(name@),
        ensures
            r.command@ == substitute_params(
                config@.commands[name@].detail,
                params@.map_values(|p: &String| p@),
            ),
            r.prefix@ == or_empty(config@.commands[name@].prefix),
            r.suffix@ == or_empty(config@.commands[name@].suffix),
    {
        let command = config.get_command(name);
        let replaced = replace_command_detail(command.detail.as_str(), params);
        let prefix = unwrap_or_empty(&command.prefix);
        let suffix = unwrap_or_empty(&command.suffix);
        RunPlan { command: replaced, prefix, suffix }
    }

    /// How one message from a running command is shown: a line of its output
    /// is printed between the prefix and the suffix, and reading goes on; an
    /// error is printed as it is, and reading stops.
    pub fn output_step(message: &Result<String, String>, prefix: &str, suffix: &str) -> (r: (
        String,
        bool,
    ))
        ensures
            match message {
                Ok(line) => r.0@ == prefix@ + line@ + suffix@ && r.1,
                Err(err) => r.0@ == err@ && !r.1,
            },
    {
        match message {
            Ok(line) => {
                let mut out = prefix.to_owned();
                out.append(line.as_str());
                out.append(suffix);
                (out, true)
            },
            Err(err) => (err.clone(), false),
        }
    }
}

} // verus!
