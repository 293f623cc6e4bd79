//! Stored commands and the application configuration that holds them.
use vstd::prelude::*;

use crate::constants;

verus! {

/// How a stored command is to be executed.
#[derive(Clone, Copy, Debug, PartialEq, Eq, Structural)]
pub enum CommandType {
    String,
    Shell,
}

impl CommandType {
    /// The variant's name, as `{:?}` prints it.
    pub fn name(&self) -> (r: &'static str)
        ensures
            r@ == (match *self {
                CommandType::String => "String"@,
                CommandType::Shell => "Shell"@,
            }),
    {
        match self {
            CommandType::String => "String",
            CommandType::Shell => "Shell",
        }
    }
}

/// A user-defined command: a name, the shell text it stands for, and the
/// optional prefix and suffix that decorate each line of its output.
#[derive(Clone, Debug)]
pub struct Command {
    pub command_type: CommandType,
    pub name: String,
    pub detail: String,
    pub prefix: Option<String>,
    pub suffix: Option<String>,
}

/// The mathematical value of a [`Command`].
pub struct CommandView {
    pub command_type: CommandType,
    pub name: Seq<char>,
    pub detail: Seq<char>,
    pub prefix: Option<Seq<char>>,
    pub suffix: Option<Seq<char>>,
}

/// The characters of an optional string.
pub open spec fn opt_view(o: Option<String>) -> Option<Seq<char>> {
    match o {
        Some(s) => Some(s@),
        None => None,
    }
}

impl View for Command {
    type V = CommandView;

    open spec fn view(&self) -> CommandView {
        CommandView {
            command_type: self.command_type,
            name: self.name@,
            detail: self.detail@,
            prefix: opt_view(self.prefix),
            suffix: opt_view(self.suffix),
        }
    }
}

/// A copy of an optional string.
pub fn clone_opt(o: &Option<String>) -> (r: Option<String>)
    ensures
        opt_view(r) == opt_view(*o),
{
    match o {
        Some(s) => Some(s.clone()),
        None => None,
    }
}

impl Command {
    /// A copy of the command, field by field.
    pub fn duplicate(&self) -> (r: Command)
        ensures
            r@ == self@,
    {
        Command {
            command_type: self.command_type,
            name: self.name.clone(),
            detail: self.detail.clone(),
            prefix: clone_opt(&self.prefix),
            suffix: clone_opt(&self.suffix),
        }
    }
}

/// Construction of a [`Command`].
pub trait CommandAction {
    /// A new command of type `String` with the given fields.
    fn new(name: String, detail: String, prefix: Option<String>, suffix: Option<String>) -> (c:
        Command)
        ensures
            c@ == (CommandView {
                command_type: CommandType::String,
                name: name@,
                detail: detail@,
                prefix: opt_view(prefix),
                suffix: opt_view(suffix),
            }),
    ;
}

impl CommandAction for Command {
    fn new(name: String, detail: String, prefix: Option<String>, suffix: Option<String>) -> (c:
        Command) {
        Command { command_type: CommandType::String, name, detail, prefix, suffix }
    }
}

/// The mathematical value of an [`AppConfig`]: its three descriptive fields and
/// the commands it holds, by key.
pub struct AppConfigView {
    pub app: Seq<char>,
    pub version: Seq<char>,
    pub source: Seq<char>,
    pub commands: Map<Seq<char>, CommandView>,
}

/// The map that results from inserting the entries one after the other, so
/// that of two entries with the same key the later one stays.
pub open spec fn entries_map(es: Seq<(String, Command)>) -> Map<Seq<char>, CommandView>
    decreases es.len(),
{
    if es.len() == 0 {
        Map::empty()
    } else {
        entries_map(es.drop_last()).insert(es.last().0@, es.last().1@)
    }
}

/// No two entries share a key.
pub open spec fn distinct_keys(es: Seq<(String, Command)>) -> bool {
    forall|i: int, j: int| 0 <= i < es.len() && 0 <= j < es.len() && i != j ==> es[i].0@ != es[j].0@
}

/// A key is in the map exactly when some entry carries it.
proof fn lemma_entries_map_dom(es: Seq<(String, Command)>, k: Seq<char>)
    ensures
        entries_map(es).contains_key(k) <==> exists|i: int| 0 <= i < es.len() && es[i].0@ == k,
    decreases es.len(),
{
    if es.len() > 0 {
        lemma_entries_map_dom(es.drop_last(), k);
        if entries_map(es).contains_key(k) && k != es.last().0@ {
            let i = choose|i: int| 0 <= i < es.drop_last().len() && es.drop_last()[i].0@ == k;
            assert(es[i].0@ == k);
        }
        if exists|i: int| 0 <= i < es.len() && es[i].0@ == k {
            let i = choose|i: int| 0 <= i < es.len() && es[i].0@ == k;
            if i < es.len() - 1 {
                assert(es.drop_last()[i].0@ == k);
            }
        }
    }
}

/// With distinct keys, each entry's key maps to that entry's command.
proof fn lemma_entries_map_value(es: Seq<(String, Command)>, i: int)
    requires
        distinct_keys(es),
        0 <= i < es.len(),
    ensures
        entries_map(es).contains_key(es[i].0@),
        entries_map(es)[es[i].0@] == es[i].1@,
    decreases es.len(),
{
    if i < es.len() - 1 {
        lemma_entries_map_value(es.drop_last(), i);
        assert(es.drop_last()[i] == es[i]);
    }
}

/// With distinct keys, the map holds exactly as many keys as there are entries.
proof fn lemma_entries_map_len(es: Seq<(String, Command)>)
    requires
        distinct_keys(es),
    ensures
        entries_map(es).dom() == es.map_values(|e: (String, Command)| e.0@).to_set(),
        entries_map(es).len() == es.len(),
{
    let ks = es.map_values(|e: (String, Command)| e.0@);
    assert forall|k: Seq<char>| entries_map(es).dom().contains(k) <==> ks.to_set().contains(k) by {
        lemma_entries_map_dom(es, k);
        if ks.to_set().contains(k) {
            let i = choose|i: int| 0 <= i < ks.len() && ks[i] == k;
            assert(es[i].0@ == k);
        }
        if entries_map(es).dom().contains(k) {
            let i = choose|i: int| 0 <= i < es.len() && es[i].0@ == k;
            assert(ks[i] == k);
        }
    }
    assert(entries_map(es).dom() =~= ks.to_set());
    assert(ks.no_duplicates());
    ks.unique_seq_to_set();
}

/// The configuration of the application: what it is, where it comes from, and
/// the user's commands under their keys.
#[derive(Debug)]
pub struct AppConfig {
    app: String,
    version: String,
    source: String,
    commands: Vec<(String, Command)>,
}

impl AppConfig {
    #[verifier::type_invariant]
    spec fn keys_distinct(self) -> bool {
        distinct_keys(self.commands@)
    }
}

impl View for AppConfig {
    type V = AppConfigView;

    closed spec fn view(&self) -> AppConfigView {
        AppConfigView {
            app: self.app@,
            version: self.version@,
            source: self.source@,
            commands: entries_map(self.commands@),
        }
    }
}

/// Where the entry with key `key` stands, if one does.
fn find_entry(es: &Vec<(String, Command)>, key: &String) -> (r: Option<usize>)
    ensures
        match r {
            Some(j) => j < es@.len() && es@[j as int].0@ == key@,
            None => forall|i: int| 0 <= i < es@.len() ==> es@[i].0@ != key@,
        },
{
    let mut i: usize = 0;
    while i < es.len()
        invariant
            i <= es@.len(),
            forall|k: int| 0 <= k < i ==> es@[k].0@ != key@,
        decreases es@.len() - i,
    {
        if es[i].0 == *key {
            return Some(i);
        }
        i = i + 1;
    }
    None
}

/// Puts `cmd` under `key`, in place of the entry with that key if there is one.
fn insert_entry(es: &mut Vec<(String, Command)>, key: String, cmd: Command)
    requires
        distinct_keys(old(es)@),
    ensures
        distinct_keys(final(es)@),
        entries_map(final(es)@) == entries_map(old(es)@).insert(key@, cmd@),
{
    let ghost k = key@;
    let ghost v = cmd@;
    let ghost old_es = es@;
    match find_entry(es, &key) {
        Some(j) => {
            es.set(j, (key, cmd));
            let ghost new_es = es@;
            assert(distinct_keys(new_es)) by {
                assert forall|a: int, b: int|
                    0 <= a < new_es.len() && 0 <= b < new_es.len() && a != b implies new_es[a].0@
                    != new_es[b].0@ by {
                    if a != j && b != j {
                        assert(new_es[a] == old_es[a] && new_es[b] == old_es[b]);
                    } else if a == j {
                        assert(new_es[b] == old_es[b]);
                    } else {
                        assert(new_es[a] == old_es[a]);
                    }
                }
            }
            assert forall|q: Seq<char>|
                #![auto]
                entries_map(new_es).contains_key(q) == entries_map(old_es).insert(
                    k,
                    v,
                ).contains_key(q) by {
                lemma_entries_map_dom(new_es, q);
                lemma_entries_map_dom(old_es, q);
                if exists|i: int| 0 <= i < old_es.len() && old_es[i].0@ == q {
                    let i = choose|i: int| 0 <= i < old_es.len() && old_es[i].0@ == q;
                    if i == j {
                        assert(new_es[i].0@ == q);
                    } else {
                        assert(new_es[i] == old_es[i]);
                    }
                }
                if exists|i: int| 0 <= i < new_es.len() && new_es[i].0@ == q {
                    let i = choose|i: int| 0 <= i < new_es.len() && new_es[i].0@ == q;
                    if i != j {
                        assert(new_es[i] == old_es[i]);
                    }
                }
            }
            assert forall|q: Seq<char>| #[trigger]
                entries_map(new_es).contains_key(q) implies entries_map(new_es)[q]
                == entries_map(old_es).insert(k, v)[q] by {
                lemma_entries_map_dom(new_es, q);
                let i = choose|i: int| 0 <= i < new_es.len() && new_es[i].0@ == q;
                lemma_entries_map_value(new_es, i);
                if i != j {
                    assert(new_es[i] == old_es[i]);
                    lemma_entries_map_value(old_es, i);
                }
            }
            assert(entries_map(new_es) =~= entries_map(old_es).insert(k, v));
        },
        None => {
            es.push((key, cmd));
            assert(es@.drop_last() =~= old_es);
        },
    }
}

/// Takes out the entry with key `key`, if there is one.
fn remove_entry(es: &mut Vec<(String, Command)>, key: &String)
    requires
        distinct_keys(old(es)@),
    ensures
        distinct_keys(final(es)@),
        entries_map(final(es)@) == entries_map(old(es)@).remove(key@),
{
    let ghost k = key@;
    let ghost old_es = es@;
    match find_entry(es, key) {
        Some(j) => {
            es.remove(j);
            let ghost new_es = es@;
            assert forall|i: int| 0 <= i < new_es.len() implies #[trigger] new_es[i] == (if i < j {
                old_es[i]
            } else {
                old_es[i + 1]
            }) by {}
            assert(distinct_keys(new_es)) by {
                assert forall|a: int, b: int|
                    0 <= a < new_es.len() && 0 <= b < new_es.len() && a != b implies new_es[a].0@
                    != new_es[b].0@ by {
                    let a2 = if a < j {
                        a
                    } else {
                        a + 1
                    };
                    let b2 = if b < j {
                        b
                    } else {
                        b + 1
                    };
                    assert(new_es[a] == old_es[a2]);
                    assert(new_es[b] == old_es[b2]);
                }
            }
            assert forall|q: Seq<char>|
                #![auto]
                entries_map(new_es).contains_key(q) == entries_map(old_es).remove(k).contains_key(
                    q,
                ) by {
                lemma_entries_map_dom(new_es, q);
                lemma_entries_map_dom(old_es, q);
                if exists|i: int| 0 <= i < old_es.len() && old_es[i].0@ == q {
                    let i = choose|i: int| 0 <= i < old_es.len() && old_es[i].0@ == q;
                    if i < j {
                        assert(new_es[i] == old_es[i]);
                    } else if i > j {
                        assert(new_es[i - 1] == old_es[i]);
                    }
                }
                if exists|i: int| 0 <= i < new_es.len() && new_es[i].0@ == q {
                    let i = choose|i: int| 0 <= i < new_es.len() && new_es[i].0@ == q;
                    let i2 = if i < j {
                        i
                    } else {
                        i + 1
                    };
                    assert(new_es[i] == old_es[i2]);
                }
            }
            assert forall|q: Seq<char>| #[trigger]
                entries_map(new_es).contains_key(q) implies entries_map(new_es)[q]
                == entries_map(old_es).remove(k)[q] by {
                lemma_entries_map_dom(new_es, q);
                let i = choose|i: int| 0 <= i < new_es.len() && new_es[i].0@ == q;
                lemma_entries_map_value(new_es, i);
                let i2 = if i < j {
                    i
                } else {
                    i + 1
                };
                assert(new_es[i] == old_es[i2]);
                lemma_entries_map_value(old_es, i2);
            }
            assert(entries_map(new_es) =~= entries_map(old_es).remove(k));
        },
        None => {
            assert forall|q: Seq<char>| #[trigger]
                entries_map(old_es).contains_key(q) implies q != k by {
                lemma_entries_map_dom(old_es, q);
            }
            assert(entries_map(old_es) =~= entries_map(old_es).remove(k));
        },
    }
}

/// `v` with its commands replaced by `m`.
pub open spec fn with_commands(v: AppConfigView, m: Map<Seq<char>, CommandView>) -> AppConfigView {
    AppConfigView { app: v.app, version: v.version, source: v.source, commands: m }
}

/// `cs` holds each command of `m` once: it is as long as `m`, and its members
/// are the values of `m` under pairwise distinct keys.
pub open spec fn lists_all(m: Map<Seq<char>, CommandView>, cs: Seq<CommandView>) -> bool {
    &&& m.dom().finite()
    &&& cs.len() == m.len()
    &&& exists|ks: Seq<Seq<char>>|
        {
            &&& ks.len() == cs.len()
            &&& ks.no_duplicates()
            &&& forall|i: int| 0 <= i < cs.len() ==> #[trigger] m.contains_key(ks[i]) && m[ks[i]] == cs[i]
        }
}

/// The configuration that a new [`AppConfig`] holds.
pub open spec fn initial_config() -> AppConfigView {
    AppConfigView {
        app: constants::APP_SECTION@,
        version: constants::APP_VERSION@,
        source: constants::APP_GIT_SOURCE@,
        commands: Map::empty(),
    }
}

/// The operations on the configuration's commands.
pub trait AppConfigAction: Sized + View<V = AppConfigView> {
    /// The initial configuration: the application's section, version and
    /// source, and no command.
    fn new() -> (r: AppConfig)
        ensures
            r@ == initial_config(),
    ;

    /// Stores `command` under its name, in place of any command stored there.
    fn add_command(&mut self, command: Command)
        ensures
            final(self)@ == with_commands(
                old(self)@,
                old(self)@.commands.insert(command.name@, command@),
            ),
    ;

    /// Removes the command stored under `name`, if any.
    fn delete_command(&mut self, name: &str)
        ensures
            final(self)@ == with_commands(old(self)@, old(self)@.commands.remove(name@)),
    ;

    /// Copies of all stored commands, each once.
    fn list_commands(&self) -> (r: Vec<Command>)
        ensures
            lists_all(self@.commands, r@.map_values(|c: Command| c@)),
    ;

    /// The command stored under `name`, which must exist.
    fn get_command(&self, name: &str) -> (r: &Command)
        requires
            self@.commands.contains_key(name@),
        ensures
            r@ == self@.commands[name@],
    ;
}

impl AppConfigAction for AppConfig {
    fn new() -> (r: AppConfig) {
        let r = AppConfig {
            app: constants::APP_SECTION.to_owned(),
            version: constants::APP_VERSION.to_owned(),
            source: constants::APP_GIT_SOURCE.to_owned(),
            commands: Vec::new(),
        };
        assert(entries_map(r.commands@) =~= Map::empty());
        r
    }

    fn add_command(&mut self, command: Command) {
        proof {
            use_type_invariant(&*self);
        }
        let name = command.name.clone();
        let mut es: Vec<(String, Command)> = Vec::new();
        std::mem::swap(&mut es, &mut self.commands);
        insert_entry(&mut es, name, command);
        self.commands = es;
    }

    fn delete_command(&mut self, name: &str) {
        proof {
            use_type_invariant(&*self);
        }
        let key = name.to_owned();
        let mut es: Vec<(String, Command)> = Vec::new();
        std::mem::swap(&mut es, &mut self.commands);
        remove_entry(&mut es, &key);
        self.commands = es;
    }

    fn list_commands(&self) -> (r: Vec<Command>) {
        proof {
            use_type_invariant(self);
        }
        let ghost es = self.commands@;
        let mut r: Vec<Command> = Vec::new();
        let mut i: usize = 0;
        while i < self.commands.len()
            invariant
                es == self.commands@,
                i <= es.len(),
                r@.len() == i,
                forall|k: int| 0 <= k < i ==> #[trigger] r@[k]@ == es[k].1@,
            decreases es.len() - i,
        {
            r.push(self.commands[i].1.duplicate());
            i = i + 1;
        }
        proof {
            let cs = r@.map_values(|c: Command| c@);
            let ks = es.map_values(|e: (String, Command)| e.0@);
            lemma_entries_map_len(es);
            assert(self@.commands.dom().finite());
            assert forall|a: int| 0 <= a < cs.len() implies #[trigger] self@.commands.contains_key(
                ks[a],
            ) && self@.commands[ks[a]] == cs[a] by {
                lemma_entries_map_value(es, a);
            }
            assert(ks.no_duplicates());
        }
        r
    }

    fn get_command(&self, name: &str) -> (r: &Command) {
        proof {
            use_type_invariant(self);
        }
        let key = name.to_owned();
        let ghost es = self.commands@;
        proof {
            lemma_entries_map_dom(es, name@);
        }
        match find_entry(&self.commands, &key) {
            Some(j) => {
                proof {
                    lemma_entries_map_value(es, j as int);
                }
                &self.commands[j].1
            },
            None => {
                proof {
                    let i = choose|i: int| 0 <= i < es.len() && es[i].0@ == name@;
                    assert(es[i].0@ != name@);
                }
                &self.commands[0].1
            },
        }
    }
}

/// Two entry sequences with the same keys and commands, entry by entry, give
/// the same map.
proof fn lemma_entries_map_same_views(a: Seq<(String, Command)>, b: Seq<(String, Command)>)
    requires
        a.len() == b.len(),
        forall|i: int| 0 <= i < a.len() ==> a[i].0@ == b[i].0@ && a[i].1@ == b[i].1@,
    ensures
        entries_map(a) == entries_map(b),
    decreases a.len(),
{
    if a.len() > 0 {
        lemma_entries_map_same_views(a.drop_last(), b.drop_last());
    }
}

/// What loading a configuration leads to: reading the stored file back, or
/// writing the current configuration out as the file.
#[derive(Clone, Copy, Debug, PartialEq, Eq, Structural)]
pub enum ConfigInit {
    Resume,
    Save,
}

impl AppConfig {
    /// The application's section name.
    pub fn app(&self) -> (r: &String)
        ensures
            r@ == self@.app,
    {
        &self.app
    }

    /// The application's version field.
    pub fn version(&self) -> (r: &String)
        ensures
            r@ == self@.version,
    {
        &self.version
    }

    /// Where the application comes from.
    pub fn source(&self) -> (r: &String)
        ensures
            r@ == self@.source,
    {
        &self.source
    }

    /// A copy of the configuration: the same fields and the same commands.
    pub fn duplicate(&self) -> (r: AppConfig)
        ensures
            r@ == self@,
    {
        AppConfig {
            app: self.app.clone(),
            version: self.version.clone(),
            source: self.source.clone(),
            commands: self.entries(),
        }
    }

    /// Whether a command is stored under `name`.
    pub fn has_command(&self, name: &str) -> (r: bool)
        ensures
            r == self@.commands.contains_key(name@),
    {
        proof {
            use_type_invariant(self);
            lemma_entries_map_dom(self.commands@, name@);
        }
        let key = name.to_owned();
        match find_entry(&self.commands, &key) {
            Some(_) => true,
            None => false,
        }
    }

    /// A configuration with the given fields, whose commands are the entries
    /// inserted in order: of two entries with one key, the later one stays.
    pub fn from_parts(app: String, version: String, source: String, entries: Vec<(String, Command)>) -> (r:
        AppConfig)
        ensures
            r@ == (AppConfigView {
                app: app@,
                version: version@,
                source: source@,
                commands: entries_map(entries@),
            }),
    {
        let mut es: Vec<(String, Command)> = Vec::new();
        let mut i: usize = 0;
        assert(entries@.take(0) =~= Seq::<(String, Command)>::empty());
        while i < entries.len()
            invariant
                i <= entries@.len(),
                distinct_keys(es@),
                entries_map(es@) == entries_map(entries@.take(i as int)),
            decreases entries@.len() - i,
        {
            let key = entries[i].0.clone();
            let cmd = entries[i].1.duplicate();
            insert_entry(&mut es, key, cmd);
            assert(entries@.take(i + 1).drop_last() =~= entries@.take(i as int));
            i = i + 1;
        }
        assert(entries@.take(entries@.len() as int) =~= entries@);
        AppConfig { app, version, source, commands: es }
    }

    /// Copies of the stored commands with their keys, each key once.
    pub fn entries(&self) -> (r: Vec<(String, Command)>)
        ensures
            distinct_keys(r@),
            entries_map(r@) == self@.commands,
    {
        proof {
            use_type_invariant(self);
        }
        let ghost es = self.commands@;
        let mut r: Vec<(String, Command)> = Vec::new();
        let mut i: usize = 0;
        while i < self.commands.len()
            invariant
                es == self.commands@,
                i <= es.len(),
                r@.len() == i,
                forall|k: int| 0 <= k < i ==> #[trigger] r@[k].0@ == es[k].0@ && r@[k].1@ == es[k].1@,
            decreases es.len() - i,
        {
            r.push((self.commands[i].0.clone(), self.commands[i].1.duplicate()));
            i = i + 1;
        }
        proof {
            lemma_entries_map_same_views(r@, es);
            assert forall|a: int, b: int|
                0 <= a < r@.len() && 0 <= b < r@.len() && a != b implies r@[a].0@ != r@[b].0@ by {
                assert(r@[a].0@ == es[a].0@);
                assert(r@[b].0@ == es[b].0@);
            }
        }
        r
    }

    /// The step that loading the configuration takes: resume from the file
    /// when it exists, otherwise save the current configuration as the file.
    pub fn init_config_action(file_exist: bool) -> (a: ConfigInit)
        ensures
            a == (if file_exist {
                ConfigInit::Resume
            } else {
                ConfigInit::Save
            }),
    {
        if file_exist {
            ConfigInit::Resume
        } else {
            ConfigInit::Save
        }
    }
}

} // verus!
