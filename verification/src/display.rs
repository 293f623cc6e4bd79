//! The table in which stored commands are listed.
use vstd::prelude::*;

use crate::app::commands::or_empty;
use crate::app::config::{Command, CommandType, CommandView};

verus! {

/// The name under which a command type is shown.
pub open spec fn kind_label(t: CommandType) -> Seq<char> {
    match t {
        CommandType::String => "String"@,
        CommandType::Shell => "Shell"@,
    }
}

/// The cells of a command's row: name, type, text, prefix and suffix, with an
/// absent prefix or suffix shown empty.
pub open spec fn table_row(c: CommandView) -> Seq<Seq<char>> {
    seq![c.name, kind_label(c.command_type), c.detail, or_empty(c.prefix), or_empty(c.suffix)]
}

/// The text of each cell of a row.
pub open spec fn cells(row: Vec<String>) -> Seq<Seq<char>> {
    row@.map_values(|s: String| s@)
}

/// The listing of commands.
pub struct Display {}

impl Display {
    /// The cells of the row that lists `command`.
    pub fn command_row(command: &Command) -> (row: Vec<String>)
        ensures
            cells(row) == table_row(command@),
    {
        let mut row: Vec<String> = Vec::new();
        row.push(command.name.clone());
        row.push(command.command_type.name().to_owned());
        row.push(command.detail.clone());
        row.push(
            match &command.prefix {
                Some(p) => p.clone(),
                None => String::new(),
            },
        );
        row.push(
            match &command.suffix {
                Some(s) => s.clone(),
                None => String::new(),
            },
        );
        assert(row@.map_values(|s: String| s@) =~= table_row(command@));
        row
    }

    /// The rows of the table that lists `commands`, one per command, in order.
    pub fn command_rows(commands: &Vec<Command>) -> (rows: Vec<Vec<String>>)
        ensures
            rows@.len() == commands@.len(),
            forall|i: int|
                0 <= i < rows@.len() ==> cells(#[trigger] rows@[i])
                    == table_row(commands@[i]@),
    {
        let mut rows: Vec<Vec<String>> = Vec::new();
        let mut i: usize = 0;
        while i < commands.len()
            invariant
                i <= commands@.len(),
                rows@.len() == i,
                forall|k: int|
                    0 <= k < i ==> cells(#[trigger] rows@[k]) == table_row(
                        commands@[k]@,
                    ),
            decreases commands@.len() - i,
        {
            rows.push(Self::command_row(&commands[i]));
            i = i + 1;
        }
        rows
    }
}

} // verus!
