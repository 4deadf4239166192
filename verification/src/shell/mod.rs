pub mod command;
pub mod input_reader;

use vstd::prelude::*;

use crate::text::{spec_trim, text_equals, trim};
use command::Command;
use input_reader::InputReader;

verus! {

/// The control shell: a prompt, the commands it knows by name, and the
/// channel over which its commands reach the server.
pub struct Shell<C, F> {
    prompt: String,
    cmds: Vec<(String, Command<F>)>,
    input_reader: InputReader,
    channel_2_server: C,
}

/// No two entries share a name.
spec fn names_distinct<F>(entries: Seq<(String, Command<F>)>) -> bool {
    forall|i: int, j: int|
        0 <= i < entries.len() && 0 <= j < entries.len() && i != j ==> entries[i].0@
            != entries[j].0@
}

/// Some entry has this name.
spec fn has_name<F>(entries: Seq<(String, Command<F>)>, name: Seq<char>) -> bool {
    exists|i: int| 0 <= i < entries.len() && entries[i].0@ == name
}

/// The entries, by name.
spec fn entries_map<F>(entries: Seq<(String, Command<F>)>) -> Map<Seq<char>, Command<F>> {
    Map::new(
        |name: Seq<char>| has_name(entries, name),
        |name: Seq<char>|
            entries[choose|i: int| 0 <= i < entries.len() && entries[i].0@ == name].1,
    )
}

/// Where the names are distinct, the entry at `i` is the one the map gives for its name.
proof fn lemma_entry_in_map<F>(entries: Seq<(String, Command<F>)>, i: int)
    requires
        names_distinct(entries),
        0 <= i < entries.len(),
    ensures
        entries_map(entries).contains_key(entries[i].0@),
        entries_map(entries)[entries[i].0@] == entries[i].1,
{
    let name = entries[i].0@;
    assert(has_name(entries, name));
    let j = choose|j: int| 0 <= j < entries.len() && entries[j].0@ == name;
    assert(j == i);
}

/// Replacing the entry of a name that is present.
proof fn lemma_replace_entry<F>(
    entries: Seq<(String, Command<F>)>,
    i: int,
    name: String,
    command: Command<F>,
)
    requires
        names_distinct(entries),
        0 <= i < entries.len(),
        entries[i].0@ == name@,
    ensures
        names_distinct(entries.update(i, (name, command))),
        entries_map(entries.update(i, (name, command))) == entries_map(entries).insert(
            name@,
            command,
        ),
        entries_map(entries).contains_key(name@),
        entries_map(entries)[name@] == entries[i].1,
{
    let after = entries.update(i, (name, command));
    lemma_entry_in_map(entries, i);
    assert(names_distinct(after));
    let expected = entries_map(entries).insert(name@, command);
    assert forall|k: Seq<char>| #[trigger] entries_map(after).contains_key(k) == expected.contains_key(k) by {
        if has_name(entries, k) {
            let j = choose|j: int| 0 <= j < entries.len() && entries[j].0@ == k;
            assert(after[j].0@ == k);
        }
        if has_name(after, k) {
            let j = choose|j: int| 0 <= j < after.len() && after[j].0@ == k;
            assert(entries[j].0@ == k || j == i);
        }
    }
    assert forall|k: Seq<char>| #[trigger] entries_map(after).contains_key(k) implies entries_map(after)[k] == expected[k] by {
        let j = choose|j: int| 0 <= j < after.len() && after[j].0@ == k;
        lemma_entry_in_map(after, j);
        if j != i {
            lemma_entry_in_map(entries, j);
        }
    }
    assert(entries_map(after) =~= expected);
}

/// Adding the entry of a name that is absent.
proof fn lemma_add_entry<F>(entries: Seq<(String, Command<F>)>, name: String, command: Command<F>)
    requires
        names_distinct(entries),
        !has_name(entries, name@),
    ensures
        names_distinct(entries.push((name, command))),
        entries_map(entries.push((name, command))) == entries_map(entries).insert(name@, command),
        !entries_map(entries).contains_key(name@),
{
    let after = entries.push((name, command));
    assert(names_distinct(after));
    let expected = entries_map(entries).insert(name@, command);
    assert forall|k: Seq<char>| #[trigger] entries_map(after).contains_key(k) == expected.contains_key(k) by {
        if has_name(entries, k) {
            let j = choose|j: int| 0 <= j < entries.len() && entries[j].0@ == k;
            assert(after[j].0@ == k);
        }
        if k == name@ {
            assert(after[entries.len() as int].0@ == k);
        }
        if has_name(after, k) {
            let j = choose|j: int| 0 <= j < after.len() && after[j].0@ == k;
            assert(j == entries.len() || entries[j].0@ == k);
        }
    }
    assert forall|k: Seq<char>| #[trigger] entries_map(after).contains_key(k) implies entries_map(after)[k] == expected[k] by {
        let j = choose|j: int| 0 <= j < after.len() && after[j].0@ == k;
        lemma_entry_in_map(after, j);
        if j < entries.len() {
            lemma_entry_in_map(entries, j);
        }
    }
    assert(entries_map(after) =~= expected);
}

impl<C, F> Shell<C, F> {
    /// No two commands share a name.
    #[verifier::type_invariant]
    closed spec fn distinct_names(self) -> bool {
        names_distinct(self.cmds@)
    }

    /// The commands, by name.
    pub closed spec fn commands(self) -> Map<Seq<char>, Command<F>> {
        entries_map(self.cmds@)
    }

    /// The prompt.
    pub closed spec fn prompt_text(self) -> Seq<char> {
        self.prompt@
    }

    /// The channel to the server.
    pub closed spec fn channel(self) -> C {
        self.channel_2_server
    }

    pub fn new(prompt: String, channel_2_server: C) -> (shell: Self)
        ensures
            shell.prompt_text() == prompt@,
            shell.commands() == Map::<Seq<char>, Command<F>>::empty(),
            shell.channel() == channel_2_server,
    {
        let shell = Self { prompt, cmds: Vec::new(), input_reader: InputReader, channel_2_server };
        assert(shell.commands() =~= Map::<Seq<char>, Command<F>>::empty());
        shell
    }

    pub fn prompt(&self) -> (prompt: &str)
        ensures
            prompt@ == self.prompt_text(),
    {
        self.prompt.as_str()
    }

    pub fn input_reader(&self) -> InputReader {
        self.input_reader
    }

    pub fn channel_2_server(&self) -> (channel: &C)
        ensures
            *channel == self.channel(),
    {
        &self.channel_2_server
    }

    /// Finds where the command named `name` stands.
    fn find(&self, name: &str) -> (pos: Option<usize>)
        ensures
            match pos {
                Some(i) => i < self.cmds@.len() && self.cmds@[i as int].0@ == name@,
                None => forall|i: int| 0 <= i < self.cmds@.len() ==> self.cmds@[i].0@ != name@,
            },
    {
        let mut i: usize = 0;
        while i < self.cmds.len()
            invariant
                i <= self.cmds@.len(),
                forall|k: int| 0 <= k < i ==> self.cmds@[k].0@ != name@,
            decreases self.cmds.len() - i,
        {
            if text_equals(self.cmds[i].0.as_str(), name) {
                return Some(i);
            }
            i = i + 1;
        }
        None
    }

    /// Finds the command that a typed line names: the line without its
    /// surrounding whitespace is the name of the command.
    pub fn lookup(&self, line: &str) -> (found: Option<&Command<F>>)
        ensures
            match found {
                Some(command) => self.commands().contains_key(spec_trim(line@))
                    && *command == self.commands()[spec_trim(line@)],
                None => !self.commands().contains_key(spec_trim(line@)),
            },
    {
        proof {
            use_type_invariant(self);
        }
        let name = trim(line);
        match self.find(name) {
            Some(i) => {
                proof {
                    lemma_entry_in_map(self.cmds@, i as int);
                }
                Some(&self.cmds[i].1)
            },
            None => None,
        }
    }

    /// Registers `command` under `name`, in place of the command of that
    /// name if there was one, which is given back.
    pub fn insert_command(&mut self, name: String, command: Command<F>) -> (previous: Option<
        Command<F>,
    >)
        ensures
            final(self).commands() == old(self).commands().insert(name@, command),
            previous == (if old(self).commands().contains_key(name@) {
                Some(old(self).commands()[name@])
            } else {
                None
            }),
            final(self).prompt_text() == old(self).prompt_text(),
            final(self).channel() == old(self).channel(),
    {
        proof {
            use_type_invariant(&*self);
        }
        let ghost before = self.cmds@;
        match self.find(name.as_str()) {
            Some(i) => {
                proof {
                    lemma_replace_entry(before, i as int, name, command);
                }
                let mut cmds: Vec<(String, Command<F>)> = Vec::new();
                std::mem::swap(&mut cmds, &mut self.cmds);
                let (_, old_command) = cmds.remove(i);
                cmds.insert(i, (name, command));
                assert(cmds@ =~= before.update(i as int, (name, command)));
                std::mem::swap(&mut cmds, &mut self.cmds);
                Some(old_command)
            },
            None => {
                proof {
                    lemma_add_entry(before, name, command);
                }
                let mut cmds: Vec<(String, Command<F>)> = Vec::new();
                std::mem::swap(&mut cmds, &mut self.cmds);
                cmds.push((name, command));
                std::mem::swap(&mut cmds, &mut self.cmds);
                None
            },
        }
    }
}

/// Once a command is registered under a name, a line that names it, with
/// or without surrounding whitespace, finds that command, and the commands
/// under the other names are those that were there before.
pub proof fn law_lookup_finds_inserted<C, F>(
    before: Shell<C, F>,
    after: Shell<C, F>,
    name: Seq<char>,
    command: Command<F>,
    line: Seq<char>,
)
    requires
        after.commands() == before.commands().insert(name, command),
        spec_trim(line) == name,
    ensures
        after.commands().contains_key(spec_trim(line)),
        after.commands()[spec_trim(line)] == command,
        forall|other: Seq<char>|
            other != name ==> (#[trigger] after.commands().contains_key(other)
                == before.commands().contains_key(other)),
        forall|other: Seq<char>|
            other != name && #[trigger] before.commands().contains_key(other)
                ==> after.commands()[other] == before.commands()[other],
{
}

} // verus!
