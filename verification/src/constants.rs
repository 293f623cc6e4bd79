use vstd::prelude::*;

verus! {

pub const APP_SECTION: &'static str = "App";
pub const APP_VERSION: &'static str = "Version";
pub const APP_GIT_SOURCE: &'static str = "https://github.com/Anyone-Developers/xxx";

pub const COMMANDS: &'static str = "Commands";

pub const FILE_NAME: &'static str = ".gc_config";

pub const GC_APP_AUTHOR: &'static str = "Edward Zhang (zhang_nan_163@163.com)";
pub const GC_APP_ABOUT: &'static str = "Orchestrate good commands with your desired way.";

pub const GC_ADD_ABOUT: &'static str = "Add a command";
pub const GC_ADD_LONG_ABOUT: &'static str = "This is for adding command in gc.";
pub const GC_DELETE_ABOUT: &'static str = "Delete a command";
pub const GC_DELETE_LONG_ABOUT: &'static str = "This is for deleting command in gc.";
pub const GC_RUN_ABOUT: &'static str = "Run a command";
pub const GC_RUN_LONG_ABOUT: &'static str = "This is for executing command in gc.";

pub const GC_COMMAND_HELP: &'static str = "user defined command name. eg. gc add git-diff develop main. The [command] indicate to [git-diff].";
pub const GC_DETAIL_HELP: &'static str =
    "The shell command that needs to be executed. eg: \"git diff --name-only $0 $1\"";
pub const GC_PREFIX_HELP: &'static str = "Optional: for adding prefix to each line of output";
pub const GC_SUFFIX_HELP: &'static str = "Optional: for adding suffix to each line of output";

} // verus!
