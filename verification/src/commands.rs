//! The commands of the workbench and the keys that they are bound to.

use vstd::prelude::*;
use vstd::string::*;

use crate::provider;
use crate::text;

verus! {

/// A command that a user can run.
#[derive(Debug, PartialEq, Eq)]
pub struct CommandDescriptor {
    pub id: String,
    pub title: String,
    pub description: String,
    pub category: String,
    pub default_shortcut: Option<String>,
    pub context: String,
}

/// A `CommandDescriptor` by what it says.
#[verifier::ext_equal]
pub struct CommandView {
    pub id: Seq<char>,
    pub title: Seq<char>,
    pub description: Seq<char>,
    pub category: Seq<char>,
    pub default_shortcut: Option<Seq<char>>,
    pub context: Seq<char>,
}

impl View for CommandDescriptor {
    type V = CommandView;

    open spec fn view(&self) -> CommandView {
        CommandView {
            id: self.id@,
            title: self.title@,
            description: self.description@,
            category: self.category@,
            default_shortcut: provider::optional_text(self.default_shortcut),
            context: self.context@,
        }
    }
}

impl Clone for CommandDescriptor {
    fn clone(&self) -> (r: Self)
        ensures
            r@ == self@,
    {
        CommandDescriptor {
            id: self.id.clone(),
            title: self.title.clone(),
            description: self.description.clone(),
            category: self.category.clone(),
            default_shortcut: provider::clone_optional(&self.default_shortcut),
            context: self.context.clone(),
        }
    }
}

/// The commands of a list by what they say.
pub open spec fn command_views(commands: Seq<CommandDescriptor>) -> Seq<CommandView> {
    commands.map_values(|c: CommandDescriptor| c@)
}

/// A command that can be run anywhere.
pub open spec fn entry(
    id: Seq<char>,
    title: Seq<char>,
    description: Seq<char>,
    category: Seq<char>,
    shortcut: Seq<char>,
) -> CommandView {
    CommandView {
        id,
        title,
        description,
        category,
        default_shortcut: Some(shortcut),
        context: "global"@,
    }
}

/// The commands of the workbench.
pub open spec fn builtin_commands() -> Seq<CommandView> {
    seq![
        entry(
            "editor.undo"@,
            "Undo"@,
            "Undoes the last editor change."@,
            "Editor"@,
            "ctrl-z"@,
        ),
        entry(
            "editor.redo"@,
            "Redo"@,
            "Redoes the last undone editor change."@,
            "Editor"@,
            "ctrl-y"@,
        ),
        entry(
            "editor.select_all"@,
            "Select All"@,
            "Selects the entire document."@,
            "Editor"@,
            "ctrl-a"@,
        ),
        entry(
            "editor.save"@,
            "Save"@,
            "Saves the active document."@,
            "Editor"@,
            "ctrl-s"@,
        ),
        entry(
            "editor.find"@,
            "Find"@,
            "Finds text in the active document."@,
            "Editor"@,
            "ctrl-f"@,
        ),
        entry(
            "editor.copy"@,
            "Copy"@,
            "Copies the selected text."@,
            "Editor"@,
            "ctrl-c"@,
        ),
        entry(
            "editor.cut"@,
            "Cut"@,
            "Cuts the selected text."@,
            "Editor"@,
            "ctrl-x"@,
        ),
        entry(
            "editor.paste"@,
            "Paste"@,
            "Pastes clipboard text."@,
            "Editor"@,
            "ctrl-v"@,
        ),
        entry(
            "editor.reformat"@,
            "Reformat Code"@,
            "Reformats the current PHP document."@,
            "Code"@,
            "ctrl-alt-l"@,
        ),
        entry(
            "navigate.definition"@,
            "Go to Definition"@,
            "Navigates to the declaration under the caret."@,
            "Navigate"@,
            "ctrl-b"@,
        ),
        entry(
            "navigate.class"@,
            "Go to Class"@,
            "Searches indexed PHP classes and opens their declaration."@,
            "Navigate"@,
            "ctrl-n"@,
        ),
        entry(
            "navigate.symbol"@,
            "Go to Symbol"@,
            "Searches classes, methods and functions in the project."@,
            "Navigate"@,
            "ctrl-shift-alt-o"@,
        ),
        entry(
            "navigate.back"@,
            "Back"@,
            "Returns to the previous navigation location."@,
            "Navigate"@,
            "alt-left"@,
        ),
        entry(
            "navigate.forward"@,
            "Forward"@,
            "Moves to the next navigation location."@,
            "Navigate"@,
            "alt-right"@,
        ),
        entry(
            "code.completion"@,
            "Completion"@,
            "Shows PHP completion proposals."@,
            "Code"@,
            "ctrl-space"@,
        ),
        entry(
            "terminal.toggle"@,
            "Terminal"@,
            "Shows or hides the integrated terminal."@,
            "Tool Windows"@,
            "ctrl-`"@,
        ),
        entry(
            "workspace.commands"@,
            "Command Palette"@,
            "Searches and runs Axiom commands."@,
            "Help"@,
            "ctrl-shift-p"@,
        ),
        entry(
            "help.features"@,
            "Axiom Features"@,
            "Shows implemented features and their current shortcuts."@,
            "Help"@,
            ""@,
        ),
        entry(
            "settings.open"@,
            "Settings"@,
            "Opens Axiom settings and the configurable keymap."@,
            "Help"@,
            ""@,
        ),
        entry(
            "project.open_project"@,
            "Open Project"@,
            "Opens a project directory."@,
            "Project"@,
            "ctrl-shift-o"@,
        ),
        entry(
            "project.open_file"@,
            "Open File"@,
            "Opens a file in the editor."@,
            "Project"@,
            "ctrl-o"@,
        ),
    ]
}

fn command(id: &str, title: &str, description: &str, category: &str, shortcut: &str) -> (r:
    CommandDescriptor)
    ensures
        r@ == entry(id@, title@, description@, category@, shortcut@),
{
    CommandDescriptor {
        id: String::from_str(id),
        title: String::from_str(title),
        description: String::from_str(description),
        category: String::from_str(category),
        default_shortcut: Some(String::from_str(shortcut)),
        context: String::from_str("global"),
    }
}

/// The commands of the workbench.
pub fn registry() -> (r: Vec<CommandDescriptor>)
    ensures
        command_views(r@) == builtin_commands(),
{
    let mut out: Vec<CommandDescriptor> = Vec::new();
    out.push(
        command(
            "editor.undo",
            "Undo",
            "Undoes the last editor change.",
            "Editor",
            "ctrl-z",
        ),
    );
    out.push(
        command(
            "editor.redo",
            "Redo",
            "Redoes the last undone editor change.",
            "Editor",
            "ctrl-y",
        ),
    );
    out.push(
        command(
            "editor.select_all",
            "Select All",
            "Selects the entire document.",
            "Editor",
            "ctrl-a",
        ),
    );
    out.push(
        command(
            "editor.save",
            "Save",
            "Saves the active document.",
            "Editor",
            "ctrl-s",
        ),
    );
    out.push(
        command(
            "editor.find",
            "Find",
            "Finds text in the active document.",
            "Editor",
            "ctrl-f",
        ),
    );
    out.push(
        command(
            "editor.copy",
            "Copy",
            "Copies the selected text.",
            "Editor",
            "ctrl-c",
        ),
    );
    out.push(
        command(
            "editor.cut",
            "Cut",
            "Cuts the selected text.",
            "Editor",
            "ctrl-x",
        ),
    );
    out.push(
        command(
            "editor.paste",
            "Paste",
            "Pastes clipboard text.",
            "Editor",
            "ctrl-v",
        ),
    );
    out.push(
        command(
            "editor.reformat",
            "Reformat Code",
            "Reformats the current PHP document.",
            "Code",
            "ctrl-alt-l",
        ),
    );
    out.push(
        command(
            "navigate.definition",
            "Go to Definition",
            "Navigates to the declaration under the caret.",
            "Navigate",
            "ctrl-b",
        ),
    );
    out.push(
        command(
            "navigate.class",
            "Go to Class",
            "Searches indexed PHP classes and opens their declaration.",
            "Navigate",
            "ctrl-n",
        ),
    );
    out.push(
        command(
            "navigate.symbol",
            "Go to Symbol",
            "Searches classes, methods and functions in the project.",
            "Navigate",
            "ctrl-shift-alt-o",
        ),
    );
    out.push(
        command(
            "navigate.back",
            "Back",
            "Returns to the previous navigation location.",
            "Navigate",
            "alt-left",
        ),
    );
    out.push(
        command(
            "navigate.forward",
            "Forward",
            "Moves to the next navigation location.",
            "Navigate",
            "alt-right",
        ),
    );
    out.push(
        command(
            "code.completion",
            "Completion",
            "Shows PHP completion proposals.",
            "Code",
            "ctrl-space",
        ),
    );
    out.push(
        command(
            "terminal.toggle",
            "Terminal",
            "Shows or hides the integrated terminal.",
            "Tool Windows",
            "ctrl-`",
        ),
    );
    out.push(
        command(
            "workspace.commands",
            "Command Palette",
            "Searches and runs Axiom commands.",
            "Help",
            "ctrl-shift-p",
        ),
    );
    out.push(
        command(
            "help.features",
            "Axiom Features",
            "Shows implemented features and their current shortcuts.",
            "Help",
            "",
        ),
    );
    out.push(
        command(
            "settings.open",
            "Settings",
            "Opens Axiom settings and the configurable keymap.",
            "Help",
            "",
        ),
    );
    out.push(
        command(
            "project.open_project",
            "Open Project",
            "Opens a project directory.",
            "Project",
            "ctrl-shift-o",
        ),
    );
    out.push(
        command(
            "project.open_file",
            "Open File",
            "Opens a file in the editor.",
            "Project",
            "ctrl-o",
        ),
    );
    assert(command_views(out@) =~= builtin_commands());
    out
}

/// The length of an id and some of its characters.
spec fn mark(id: Seq<char>) -> (nat, char) {
    (id.len(), id[7])
}

/// No two commands of the workbench share an id.
pub proof fn law_command_ids_are_unique(i: int, j: int)
    requires
        0 <= i < j < builtin_commands().len(),
    ensures
        builtin_commands()[i].id != builtin_commands()[j].id,
{
    reveal_strlit("editor.undo");
    assert(mark(builtin_commands()[0].id) == (11nat, 'u'));
    reveal_strlit("editor.redo");
    assert(mark(builtin_commands()[1].id) == (11nat, 'r'));
    reveal_strlit("editor.select_all");
    assert(mark(builtin_commands()[2].id) == (17nat, 's'));
    reveal_strlit("editor.save");
    assert(mark(builtin_commands()[3].id) == (11nat, 's'));
    reveal_strlit("editor.find");
    assert(mark(builtin_commands()[4].id) == (11nat, 'f'));
    reveal_strlit("editor.copy");
    assert(mark(builtin_commands()[5].id) == (11nat, 'c'));
    reveal_strlit("editor.cut");
    assert(mark(builtin_commands()[6].id) == (10nat, 'c'));
    reveal_strlit("editor.paste");
    assert(mark(builtin_commands()[7].id) == (12nat, 'p'));
    reveal_strlit("editor.reformat");
    assert(mark(builtin_commands()[8].id) == (15nat, 'r'));
    reveal_strlit("navigate.definition");
    assert(mark(builtin_commands()[9].id) == (19nat, 'e'));
    reveal_strlit("navigate.class");
    assert(mark(builtin_commands()[10].id) == (14nat, 'e'));
    reveal_strlit("navigate.symbol");
    assert(mark(builtin_commands()[11].id) == (15nat, 'e'));
    reveal_strlit("navigate.back");
    assert(mark(builtin_commands()[12].id) == (13nat, 'e'));
    reveal_strlit("navigate.forward");
    assert(mark(builtin_commands()[13].id) == (16nat, 'e'));
    reveal_strlit("code.completion");
    assert(mark(builtin_commands()[14].id) == (15nat, 'm'));
    reveal_strlit("terminal.toggle");
    assert(mark(builtin_commands()[15].id) == (15nat, 'l'));
    reveal_strlit("workspace.commands");
    assert(mark(builtin_commands()[16].id) == (18nat, 'c'));
    reveal_strlit("help.features");
    assert(mark(builtin_commands()[17].id) == (13nat, 'a'));
    reveal_strlit("settings.open");
    assert(mark(builtin_commands()[18].id) == (13nat, 's'));
    reveal_strlit("project.open_project");
    assert(mark(builtin_commands()[19].id) == (20nat, '.'));
    reveal_strlit("project.open_file");
    assert(mark(builtin_commands()[20].id) == (17nat, '.'));
}

/// Shortcuts that the user chose, as pairs of a command's id and its keys.
pub open spec fn override_views(entries: Seq<(String, Option<String>)>) -> Seq<
    (Seq<char>, Option<Seq<char>>),
> {
    entries.map_values(|e: (String, Option<String>)| (e.0@, provider::optional_text(e.1)))
}

/// Whether some pair is of an id.
pub open spec fn has_override(entries: Seq<(Seq<char>, Option<Seq<char>>)>, id: Seq<char>) -> bool {
    exists|i: int| 0 <= i < entries.len() && (#[trigger] entries[i]).0 == id
}

/// What some pair of an id gives.
pub open spec fn override_of(
    entries: Seq<(Seq<char>, Option<Seq<char>>)>,
    id: Seq<char>,
) -> Option<Seq<char>> {
    entries[choose|i: int| 0 <= i < entries.len() && (#[trigger] entries[i]).0 == id].1
}

/// The shortcuts that the user chose, by command.
pub open spec fn override_map(entries: Seq<(Seq<char>, Option<Seq<char>>)>) -> Map<
    Seq<char>,
    Option<Seq<char>>,
> {
    Map::new(|id: Seq<char>| has_override(entries, id), |id: Seq<char>| override_of(entries, id))
}

/// Whether no two pairs are of one id.
pub open spec fn distinct_ids(entries: Seq<(Seq<char>, Option<Seq<char>>)>) -> bool {
    forall|i: int, j: int|
        0 <= i < j < entries.len() ==> (#[trigger] entries[i]).0 != (#[trigger] entries[j]).0
}

/// The shortcuts of a file, by the ids of their commands.
#[derive(Debug, PartialEq, Eq)]
pub struct KeymapFile {
    pub bindings: Vec<(String, Option<String>)>,
}

/// The commands and the keys that they are bound to.
#[derive(Debug)]
pub struct Keymap {
    descriptors: Vec<CommandDescriptor>,
    overrides: Vec<(String, Option<String>)>,
}

/// A `Keymap` by what it says.
#[verifier::ext_equal]
pub struct KeymapView {
    pub commands: Seq<CommandView>,
    pub overrides: Map<Seq<char>, Option<Seq<char>>>,
}

impl View for Keymap {
    type V = KeymapView;

    closed spec fn view(&self) -> KeymapView {
        KeymapView {
            commands: command_views(self.descriptors@),
            overrides: override_map(override_views(self.overrides@)),
        }
    }
}

/// The keys that a command has by default: those of the first command of that id.
pub open spec fn default_keys(commands: Seq<CommandView>, id: Seq<char>) -> Option<Seq<char>>
    decreases commands.len(),
{
    if commands.len() == 0 {
        None
    } else if commands[0].id == id {
        commands[0].default_shortcut
    } else {
        default_keys(commands.skip(1), id)
    }
}

/// The keys that a command is bound to: those that the user chose, else its default ones. Choosing
/// none leaves the default.
pub open spec fn keys(keymap: KeymapView, id: Seq<char>) -> Option<Seq<char>> {
    if keymap.overrides.contains_key(id) && keymap.overrides[id] is Some {
        keymap.overrides[id]
    } else {
        default_keys(keymap.commands, id)
    }
}

/// Whether a command other than `id` is bound to these keys.
pub open spec fn conflicts(
    keymap: KeymapView,
    command: CommandView,
    id: Seq<char>,
    shortcut: Option<Seq<char>>,
) -> bool {
    command.id != id && keys(keymap, command.id) == shortcut
}

/// The first command, from index `from` on, that conflicts.
pub open spec fn first_conflict(
    keymap: KeymapView,
    id: Seq<char>,
    shortcut: Option<Seq<char>>,
    from: int,
) -> Option<int>
    decreases keymap.commands.len() - from,
{
    if from >= keymap.commands.len() {
        None
    } else if conflicts(keymap, keymap.commands[from], id, shortcut) {
        Some(from)
    } else {
        first_conflict(keymap, id, shortcut, from + 1)
    }
}

/// Whether a query, in whatever case, stands in a command's title, description or category.
pub open spec fn found_by(command: CommandView, query: Seq<char>) -> bool {
    let wanted = text::ascii_lowercase(query);
    ||| text::contains_text(text::ascii_lowercase(command.title), wanted)
    ||| text::contains_text(text::ascii_lowercase(command.description), wanted)
    ||| text::contains_text(text::ascii_lowercase(command.category), wanted)
}

impl Default for Keymap {
    fn default() -> (r: Self)
        ensures
            r.wf(),
            r@.commands == builtin_commands(),
            r@.overrides == Map::<Seq<char>, Option<Seq<char>>>::empty(),
    {
        let r = Keymap { descriptors: registry(), overrides: Vec::new() };
        assert(r@.overrides =~= Map::<Seq<char>, Option<Seq<char>>>::empty());
        r
    }
}

/// The overrides once a pair of an id is put in the place of the old one, or behind the others.
proof fn lemma_override_set(
    before: Seq<(Seq<char>, Option<Seq<char>>)>,
    after: Seq<(Seq<char>, Option<Seq<char>>)>,
    at: int,
    id: Seq<char>,
    value: Option<Seq<char>>,
)
    requires
        distinct_ids(before),
        0 <= at <= before.len(),
        at < before.len() ==> before[at].0 == id && after == before.update(at, (id, value)),
        at == before.len() ==> !has_override(before, id) && after == before.push((id, value)),
    ensures
        distinct_ids(after),
        override_map(after) == override_map(before).insert(id, value),
{
    assert(after[at] == (id, value));
    assert forall|k: Seq<char>| has_override(after, k) == (k == id || has_override(before, k)) by {
        if has_override(before, k) {
            let i = choose|i: int| 0 <= i < before.len() && (#[trigger] before[i]).0 == k;
            assert(after[i].0 == k);
        }
        if has_override(after, k) {
            let i = choose|i: int| 0 <= i < after.len() && (#[trigger] after[i]).0 == k;
            if i != at {
                assert(before[i].0 == k);
            }
        }
    }
    assert forall|k: Seq<char>| has_override(after, k) implies override_of(after, k) == (if k == id {
        value
    } else {
        override_of(before, k)
    }) by {
        let i = choose|i: int| 0 <= i < after.len() && (#[trigger] after[i]).0 == k;
        if k != id {
            let j = choose|j: int| 0 <= j < before.len() && (#[trigger] before[j]).0 == k;
            assert(before[i].0 == k);
            assert(i == j);
        } else {
            assert(i == at);
        }
    }
    assert(override_map(after) =~= override_map(before).insert(id, value));
}

proof fn lemma_override_removed(
    before: Seq<(Seq<char>, Option<Seq<char>>)>,
    after: Seq<(Seq<char>, Option<Seq<char>>)>,
    at: int,
    id: Seq<char>,
)
    requires
        distinct_ids(before),
        0 <= at < before.len(),
        before[at].0 == id,
        after == before.remove(at),
    ensures
        distinct_ids(after),
        override_map(after) == override_map(before).remove(id),
{
    assert forall|k: Seq<char>| has_override(after, k) == (k != id && has_override(before, k)) by {
        if has_override(before, k) && k != id {
            let i = choose|i: int| 0 <= i < before.len() && (#[trigger] before[i]).0 == k;
            if i < at {
                assert(after[i].0 == k);
            } else {
                assert(after[i - 1].0 == k);
            }
        }
        if has_override(after, k) {
            let i = choose|i: int| 0 <= i < after.len() && (#[trigger] after[i]).0 == k;
            let j = if i < at {
                i
            } else {
                i + 1
            };
            assert(before[j].0 == k);
            assert(before[at].0 == id);
        }
    }
    assert forall|k: Seq<char>| has_override(after, k) implies override_of(after, k)
        == override_of(before, k) by {
        let i = choose|i: int| 0 <= i < after.len() && (#[trigger] after[i]).0 == k;
        let j = choose|j: int| 0 <= j < before.len() && (#[trigger] before[j]).0 == k;
        let at_before = if i < at {
            i
        } else {
            i + 1
        };
        assert(before[at_before].0 == k);
        assert(at_before == j);
    }
    assert(override_map(after) =~= override_map(before).remove(id));
}

impl Keymap {
    /// Whether each command was given keys at most once.
    pub closed spec fn wf(&self) -> bool {
        distinct_ids(override_views(self.overrides@))
    }

    /// A keymap with the shortcuts of a file, of which the later of two for one command counts; with
    /// none where there is no file that can be read.
    pub fn load(file: Option<KeymapFile>) -> (r: Self)
        ensures
            r.wf(),
            r@.commands == builtin_commands(),
            r@.overrides == match file {
                Some(file) => bound(override_views(file.bindings@)),
                None => Map::empty(),
            },
    {
        let mut r = Keymap::default();
        let bindings: Vec<(String, Option<String>)> = match file {
            Some(file) => file.bindings,
            None => Vec::new(),
        };
        let ghost all = override_views(bindings@);
        let mut i: usize = 0;
        assert(all.take(0) =~= Seq::<(Seq<char>, Option<Seq<char>>)>::empty());
        while i < bindings.len()
            invariant
                i <= bindings@.len(),
                all == override_views(bindings@),
                r.wf(),
                r@.commands == builtin_commands(),
                r@.overrides == bound(all.take(i as int)),
            decreases bindings@.len() - i,
        {
            assert(all.take(i + 1).drop_last() =~= all.take(i as int));
            assert(all.take(i + 1).last() == all[i as int]);
            r.set_override(&bindings[i].0, provider::clone_optional(&bindings[i].1));
            i += 1;
        }
        assert(all.take(i as int) =~= all);
        r
    }

    /// The file of the shortcuts that the user chose.
    pub fn save(&self) -> (r: KeymapFile)
        requires
            self.wf(),
        ensures
            bound(override_views(r.bindings@)) == self@.overrides,
            distinct_ids(override_views(r.bindings@)),
    {
        let mut bindings: Vec<(String, Option<String>)> = Vec::new();
        let mut i: usize = 0;
        while i < self.overrides.len()
            invariant
                i <= self.overrides@.len(),
                override_views(bindings@) == override_views(self.overrides@).take(i as int),
            decreases self.overrides@.len() - i,
        {
            let ghost before = override_views(bindings@);
            bindings.push(
                (self.overrides[i].0.clone(), provider::clone_optional(&self.overrides[i].1)),
            );
            proof {
                let all = override_views(self.overrides@);
                assert(override_views(bindings@) =~= before.push(all[i as int]));
                assert(all.take(i + 1) =~= all.take(i as int).push(all[i as int]));
            }
            i += 1;
        }
        proof {
            let all = override_views(self.overrides@);
            assert(all.take(i as int) =~= all);
            law_saved_keys_are_loaded(all);
        }
        KeymapFile { bindings }
    }

    /// All commands.
    pub fn commands(&self) -> (r: &[CommandDescriptor])
        ensures
            command_views(r@) == self@.commands,
    {
        self.descriptors.as_slice()
    }

    /// The commands that a query finds, in their order.
    pub fn search(&self, query: &str) -> (r: Vec<&CommandDescriptor>)
        ensures
            r@.map_values(|c: &CommandDescriptor| c@) == self@.commands.filter(
                |c: CommandView| found_by(c, query@),
            ),
    {
        let wanted = text::lower(&text::chars_of(query));
        let ghost all = self@.commands;
        let ghost keep = |c: CommandView| found_by(c, query@);
        let mut out: Vec<&CommandDescriptor> = Vec::new();
        let mut i: usize = 0;
        assert(out@.map_values(|c: &CommandDescriptor| c@) =~= all.take(0).filter(keep)) by {
            reveal(Seq::filter);
        }
        while i < self.descriptors.len()
            invariant
                i <= self.descriptors@.len(),
                wanted@ == text::ascii_lowercase(query@),
                all == command_views(self.descriptors@),
                keep == (|c: CommandView| found_by(c, query@)),
                out@.map_values(|c: &CommandDescriptor| c@) == all.take(i as int).filter(keep),
            decreases self.descriptors@.len() - i,
        {
            let command = &self.descriptors[i];
            proof {
                text::lemma_filter_step(all, keep, i as int);
                assert(all[i as int] == command@);
            }
            if text::contains(&text::lower(&text::chars_of(&command.title)), &wanted)
                || text::contains(&text::lower(&text::chars_of(&command.description)), &wanted)
                || text::contains(&text::lower(&text::chars_of(&command.category)), &wanted) {
                let ghost before = out@.map_values(|c: &CommandDescriptor| c@);
                out.push(command);
                assert(out@.map_values(|c: &CommandDescriptor| c@) =~= before.push(command@));
            }
            i += 1;
        }
        assert(all.take(i as int) =~= all);
        out
    }

    /// The index of the pair of an id.
    fn find_override(&self, id: &str) -> (r: Option<usize>)
        ensures
            match r {
                Some(i) => i < self.overrides@.len() && override_views(self.overrides@)[i as int].0
                    == id@,
                None => !has_override(override_views(self.overrides@), id@),
            },
    {
        let mut i: usize = 0;
        let ghost entries = override_views(self.overrides@);
        while i < self.overrides.len()
            invariant
                i <= self.overrides@.len(),
                entries == override_views(self.overrides@),
                forall|k: int| 0 <= k < i ==> (#[trigger] entries[k]).0 != id@,
            decreases self.overrides@.len() - i,
        {
            if text::eq(&self.overrides[i].0, id) {
                return Some(i);
            }
            assert(entries[i as int].0 == self.overrides@[i as int].0@);
            i += 1;
        }
        None
    }

    fn set_override(&mut self, id: &str, value: Option<String>)
        requires
            old(self).wf(),
        ensures
            final(self).wf(),
            final(self)@.commands == old(self)@.commands,
            final(self)@.overrides == old(self)@.overrides.insert(
                id@,
                provider::optional_text(value),
            ),
    {
        let ghost before = override_views(self.overrides@);
        let found = self.find_override(id);
        let owned = String::from_str(id);
        let ghost shown = provider::optional_text(value);
        match found {
            Some(i) => {
                self.overrides.set(i, (owned, value));
                assert(override_views(self.overrides@) =~= before.update(i as int, (id@, shown)));
                proof {
                    lemma_override_set(
                        before,
                        override_views(self.overrides@),
                        i as int,
                        id@,
                        shown,
                    );
                }
            },
            None => {
                self.overrides.push((owned, value));
                assert(override_views(self.overrides@) =~= before.push((id@, shown)));
                proof {
                    lemma_override_set(
                        before,
                        override_views(self.overrides@),
                        before.len() as int,
                        id@,
                        shown,
                    );
                }
            },
        }
    }

    /// The keys that a command is bound to.
    pub fn shortcut(&self, id: &str) -> (r: Option<&str>)
        requires
            self.wf(),
        ensures
            match r {
                Some(found) => keys(self@, id@) == Some(found@),
                None => keys(self@, id@) is None,
            },
    {
        let ghost entries = override_views(self.overrides@);
        match self.find_override(id) {
            Some(i) => {
                assert(has_override(entries, id@));
                proof {
                    let j = choose|j: int|
                        0 <= j < entries.len() && (#[trigger] entries[j]).0 == id@;
                    assert(j == i);
                }
                match &self.overrides[i].1 {
                    Some(found) => {
                        return Some(found.as_str());
                    },
                    None => {},
                }
            },
            None => {},
        }
        let ghost all = self@.commands;
        let mut i: usize = 0;
        assert(all.skip(0) =~= all);
        while i < self.descriptors.len()
            invariant
                i <= self.descriptors@.len(),
                all == command_views(self.descriptors@),
                all == self@.commands,
                keys(self@, id@) == default_keys(all, id@),
                default_keys(all, id@) == default_keys(all.skip(i as int), id@),
            decreases self.descriptors@.len() - i,
        {
            assert(all.skip(i as int)[0] == self.descriptors@[i as int]@);
            assert(all.skip(i as int).skip(1) =~= all.skip(i + 1));
            if text::eq(&self.descriptors[i].id, id) {
                return match &self.descriptors[i].default_shortcut {
                    Some(found) => Some(found.as_str()),
                    None => None,
                };
            }
            i += 1;
        }
        None
    }

    fn bound_to(&self, id: &str, shortcut: &Option<String>) -> (r: bool)
        requires
            self.wf(),
        ensures
            r == (keys(self@, id@) == provider::optional_text(*shortcut)),
    {
        match (self.shortcut(id), shortcut) {
            (Some(bound), Some(wanted)) => text::eq(bound, wanted),
            (None, None) => true,
            _ => false,
        }
    }

    /// Binds a command to keys, unless another command is bound to them.
    pub fn set_shortcut(&mut self, id: &str, shortcut: Option<String>) -> (r: Result<(), String>)
        requires
            old(self).wf(),
        ensures
            final(self).wf(),
            match first_conflict(old(self)@, id@, provider::optional_text(shortcut), 0) {
                None => r is Ok && final(self)@ == (KeymapView {
                    overrides: old(self)@.overrides.insert(
                        id@,
                        provider::optional_text(shortcut),
                    ),
                    ..old(self)@
                }),
                Some(at) => r is Err && final(self)@ == old(self)@ && r->Err_0@ == (
                match shortcut {
                    Some(wanted) => wanted@,
                    None => Seq::empty(),
                }) + " is already assigned to "@ + old(self)@.commands[at].title,
            },
    {
        let ghost wanted = provider::optional_text(shortcut);
        let mut i: usize = 0;
        while i < self.descriptors.len()
            invariant
                self.wf(),
                self@ == old(self)@,
                i <= self.descriptors@.len(),
                wanted == provider::optional_text(shortcut),
                first_conflict(self@, id@, wanted, 0) == first_conflict(
                    self@,
                    id@,
                    wanted,
                    i as int,
                ),
            decreases self.descriptors@.len() - i,
        {
            assert(self@.commands[i as int] == self.descriptors@[i as int]@);
            if !text::eq(&self.descriptors[i].id, id) && self.bound_to(
                &self.descriptors[i].id,
                &shortcut,
            ) {
                let mut message = match shortcut {
                    Some(wanted) => wanted,
                    None => String::new(),
                };
                message.append(" is already assigned to ");
                message.append(&self.descriptors[i].title);
                return Err(message);
            }
            i += 1;
        }
        self.set_override(id, shortcut);
        Ok(())
    }

    /// Binds a command to keys. Whatever other commands were bound to them are given none of their
    /// own.
    pub fn replace_shortcut(&mut self, id: &str, shortcut: Option<String>)
        requires
            old(self).wf(),
        ensures
            final(self).wf(),
            final(self)@.commands == old(self)@.commands,
            final(self)@.overrides == replaced(
                old(self)@,
                id@,
                provider::optional_text(shortcut),
                old(self)@.commands,
            ).insert(id@, provider::optional_text(shortcut)),
    {
        let ghost start = self@;
        let ghost wanted = provider::optional_text(shortcut);
        let mut losers: Vec<String> = Vec::new();
        if shortcut.is_some() {
            let mut i: usize = 0;
            assert(losers_in(start, id@, wanted, start.commands.take(0)) =~= text::texts(losers@));
            while i < self.descriptors.len()
                invariant
                    self.wf(),
                    self@ == start,
                    i <= self.descriptors@.len(),
                    wanted == provider::optional_text(shortcut),
                    text::texts(losers@) == losers_in(
                        start,
                        id@,
                        wanted,
                        start.commands.take(i as int),
                    ),
                decreases self.descriptors@.len() - i,
            {
                assert(self@.commands[i as int] == self.descriptors@[i as int]@);
                assert(start.commands.take(i + 1).drop_last() =~= start.commands.take(i as int));
                assert(start.commands.take(i + 1).last() == start.commands[i as int]);
                if !text::eq(&self.descriptors[i].id, id) && self.bound_to(
                    &self.descriptors[i].id,
                    &shortcut,
                ) {
                    let ghost before = text::texts(losers@);
                    let loser = self.descriptors[i].id.clone();
                    losers.push(loser);
                    assert(text::texts(losers@) =~= before.push(loser@));
                }
                i += 1;
            }
            assert(start.commands.take(i as int) =~= start.commands);
            let ghost all = text::texts(losers@);
            let mut k: usize = 0;
            assert(all.take(0) =~= Seq::<Seq<char>>::empty());
            while k < losers.len()
                invariant
                    self.wf(),
                    self@.commands == start.commands,
                    k <= losers@.len(),
                    all == text::texts(losers@),
                    self@.overrides == cleared(start.overrides, all.take(k as int)),
                decreases losers@.len() - k,
            {
                assert(all.take(k + 1).drop_last() =~= all.take(k as int));
                assert(all.take(k + 1).last() == losers@[k as int]@);
                self.set_override(&losers[k], None);
                k += 1;
            }
            assert(all.take(k as int) =~= all);
        }
        self.set_override(id, shortcut);
    }

    /// Gives a command its default keys back.
    pub fn reset(&mut self, id: &str)
        requires
            old(self).wf(),
        ensures
            final(self).wf(),
            final(self)@ == (KeymapView {
                overrides: old(self)@.overrides.remove(id@),
                ..old(self)@
            }),
    {
        let ghost before = override_views(self.overrides@);
        match self.find_override(id) {
            Some(i) => {
                self.overrides.remove(i);
                assert(override_views(self.overrides@) =~= before.remove(i as int));
                proof {
                    lemma_override_removed(
                        before,
                        override_views(self.overrides@),
                        i as int,
                        id@,
                    );
                }
            },
            None => {
                assert(self@.overrides.remove(id@) =~= self@.overrides);
            },
        }
    }
}

/// The pairs of a list as a map; of two for one command the later counts.
pub open spec fn bound(bindings: Seq<(Seq<char>, Option<Seq<char>>)>) -> Map<
    Seq<char>,
    Option<Seq<char>>,
>
    decreases bindings.len(),
{
    if bindings.len() == 0 {
        Map::empty()
    } else {
        bound(bindings.drop_last()).insert(bindings.last().0, bindings.last().1)
    }
}

/// The shortcuts of a file in which no command stands twice are those that a keymap with them has:
/// what was saved is loaded again.
pub proof fn law_saved_keys_are_loaded(entries: Seq<(Seq<char>, Option<Seq<char>>)>)
    requires
        distinct_ids(entries),
    ensures
        bound(entries) == override_map(entries),
    decreases entries.len(),
{
    if entries.len() == 0 {
        assert(override_map(entries) =~= Map::empty());
    } else {
        let before = entries.drop_last();
        let (id, value) = entries.last();
        assert forall|i: int, j: int| 0 <= i < j < before.len() implies (#[trigger] before[i]).0 != (
        #[trigger] before[j]).0 by {
            assert(entries[i].0 != entries[j].0);
        }
        law_saved_keys_are_loaded(before);
        if has_override(before, id) {
            let i = choose|i: int| 0 <= i < before.len() && (#[trigger] before[i]).0 == id;
            assert(entries[i].0 != entries[entries.len() - 1].0);
        }
        assert(before.push((id, value)) =~= entries);
        lemma_override_set(before, entries, before.len() as int, id, value);
    }
}

/// The ids of the commands, among some, that lose their keys.
pub open spec fn losers_in(
    keymap: KeymapView,
    id: Seq<char>,
    shortcut: Option<Seq<char>>,
    commands: Seq<CommandView>,
) -> Seq<Seq<char>>
    decreases commands.len(),
{
    if commands.len() == 0 {
        Seq::empty()
    } else {
        let before = losers_in(keymap, id, shortcut, commands.drop_last());
        if conflicts(keymap, commands.last(), id, shortcut) {
            before.push(commands.last().id)
        } else {
            before
        }
    }
}

/// Overrides that give some commands no keys.
pub open spec fn cleared(
    overrides: Map<Seq<char>, Option<Seq<char>>>,
    ids: Seq<Seq<char>>,
) -> Map<Seq<char>, Option<Seq<char>>>
    decreases ids.len(),
{
    if ids.len() == 0 {
        overrides
    } else {
        cleared(overrides, ids.drop_last()).insert(ids.last(), None)
    }
}

/// The overrides once whoever was bound to these keys is given none.
pub open spec fn replaced(
    keymap: KeymapView,
    id: Seq<char>,
    shortcut: Option<Seq<char>>,
    commands: Seq<CommandView>,
) -> Map<Seq<char>, Option<Seq<char>>> {
    if shortcut is Some {
        cleared(keymap.overrides, losers_in(keymap, id, shortcut, commands))
    } else {
        keymap.overrides
    }
}

/// Keys that were set, or put in the place of others, are the keys that the command is then bound
/// to.
pub proof fn law_set_keys_are_read_back(keymap: KeymapView, id: Seq<char>, shortcut: Seq<char>)
    ensures
        keys(
            KeymapView { overrides: keymap.overrides.insert(id, Some(shortcut)), ..keymap },
            id,
        ) == Some(shortcut),
{
}

/// A command that is reset has its default keys, and the other commands keep theirs.
pub proof fn law_reset_restores_the_default(keymap: KeymapView, id: Seq<char>, other: Seq<char>)
    requires
        other != id,
    ensures
        ({
            let after = KeymapView { overrides: keymap.overrides.remove(id), ..keymap };
            &&& keys(after, id) == default_keys(keymap.commands, id)
            &&& keys(after, other) == keys(keymap, other)
        }),
{
}

/// Where no other command is bound to the keys, none is after they were set either: the keys of a
/// command stay its own.
pub proof fn law_set_keys_make_no_conflict(
    keymap: KeymapView,
    id: Seq<char>,
    shortcut: Seq<char>,
    k: int,
)
    requires
        first_conflict(keymap, id, Some(shortcut), 0) is None,
        0 <= k < keymap.commands.len(),
        keymap.commands[k].id != id,
    ensures
        keys(
            KeymapView { overrides: keymap.overrides.insert(id, Some(shortcut)), ..keymap },
            keymap.commands[k].id,
        ) != Some(shortcut),
{
    lemma_no_conflict(keymap, id, Some(shortcut), 0, k);
}

proof fn lemma_no_conflict(
    keymap: KeymapView,
    id: Seq<char>,
    shortcut: Option<Seq<char>>,
    from: int,
    k: int,
)
    requires
        0 <= from <= k < keymap.commands.len(),
        first_conflict(keymap, id, shortcut, from) is None,
    ensures
        !conflicts(keymap, keymap.commands[k], id, shortcut),
    decreases keymap.commands.len() - from,
{
    if from < k {
        lemma_no_conflict(keymap, id, shortcut, from + 1, k);
    }
}

} // verus!
