# gc

`gc` keeps named shell commands in a configuration file in the home directory
(`~/.gc_config`), lists them, deletes them, and runs them with parameters that
replace the placeholders `$0`, `$1`, ... in the stored text.

- `src/` is the library, verified with Verus: the configuration and its
  commands (`app::config`), the command-line decisions (`app::commands`), the
  location of the configuration file (`app::vars`), the rows of the listing
  (`display`), the text operations they rest on (`text`), and the properties
  that relate them (`laws`).
- `app/` is the program around it: argument parsing with clap, the JSON file
  with serde, the table with prettytable, and running the shell.

Notes on the design:

- The commands are kept in a `Vec` of (key, command) entries in which no key
  occurs twice, and are specified as a `Map` from key to command. A
  `HashMap<String, Command>` is not used because listing the commands needs
  their values walked, and vstd's String-keyed map (`StringHashMap`) offers no
  way to walk them; with the entry list every operation, the listing
  included, is proved against the map. Listing gives the commands in the order
  they were first stored.
- `tool::debug_print` prints nothing and returns `false` in every build;
  printing is output and has no place in the library.
- Placeholders in a stored command are `$` and the parameter's index, as in
  `git diff --name-only $0 $1`.
