//! The kinds of plugins, the contexts handed to them, and the registry that
//! finds the plugin for a command.

use crate::parser::strings_view;
use crate::str_map::StrMap;
use vstd::prelude::*;

verus! {

broadcast use vstd::string::group_string_axioms;

/// What a plugin does, as plain values.
pub struct PluginTypeView {
    /// It processes actions.
    pub action: bool,
    /// The text commands it provides.
    pub text: Seq<Seq<char>>,
    /// The line types it provides.
    pub line: Seq<Seq<char>>,
    /// It processes the game.
    pub game: bool,
}

/// The kinds of a plugin.
///
/// Every plugin should provide a function `plugin_type`,
/// which returns [`PluginType`].
pub struct PluginType {
    /// The action plugin.
    /// This plugin processes the action after they are parsed.
    pub action: bool,
    /// The text plugin.
    /// The custom text commands are dealt with this type of plugin.
    pub text: Vec<String>,
    /// The line plugin.
    /// The custom line types are dealt with this type of plugin.
    pub line: Vec<String>,
    /// The game plugin.
    /// This plugin processes the game properties after it is loaded.
    pub game: bool,
}

impl View for PluginType {
    type V = PluginTypeView;

    open spec fn view(&self) -> PluginTypeView {
        PluginTypeView {
            action: self.action,
            text: strings_view(self.text@),
            line: strings_view(self.line@),
            game: self.game,
        }
    }
}

/// A plugin of no kind.
pub open spec fn no_plugin_type() -> PluginTypeView {
    PluginTypeView { action: false, text: Seq::empty(), line: Seq::empty(), game: false }
}

/// The characters of each of a list of names.
pub open spec fn strs_view(s: Seq<&str>) -> Seq<Seq<char>> {
    s.map_values(|x: &str| x@)
}

/// Owned copies of a list of names.
fn to_strings(cmds: &[&str]) -> (v: Vec<String>)
    ensures
        strings_view(v@) == strs_view(cmds@),
{
    let mut v: Vec<String> = Vec::new();
    let mut i: usize = 0;
    while i < cmds.len()
        invariant
            i <= cmds@.len(),
            strings_view(v@) == strs_view(cmds@.subrange(0, i as int)),
        decreases cmds@.len() - i,
    {
        let ghost before = v@;
        let s: &str = cmds[i];
        let owned = s.to_string();
        assert(owned@ == cmds@[i as int]@);
        v.push(owned);
        proof {
            assert(strs_view(cmds@.subrange(0, i as int + 1)) =~= strs_view(cmds@.subrange(0, i as int)).push(cmds@[i as int]@));
            assert(strings_view(v@) =~= strings_view(before).push(owned@));
        }
        i = i + 1;
    }
    proof {
        assert(cmds@.subrange(0, i as int) =~= cmds@);
    }
    v
}

impl PluginType {
    /// A plugin of no kind.
    pub fn new() -> (t: Self)
        ensures
            t@ == no_plugin_type(),
    {
        let t = PluginType { action: false, text: Vec::new(), line: Vec::new(), game: false };
        assert(t@.text =~= Seq::<Seq<char>>::empty());
        assert(t@.line =~= Seq::<Seq<char>>::empty());
        t
    }

    /// Creates a [`PluginTypeBuilder`] instance to build a [`PluginType`].
    pub fn builder() -> (b: PluginTypeBuilder)
        ensures
            b@ == no_plugin_type(),
    {
        PluginTypeBuilder { data: PluginType::new() }
    }
}

impl Default for PluginType {
    fn default() -> (t: Self)
        ensures
            t@ == no_plugin_type(),
    {
        PluginType::new()
    }
}

/// The builder of [`PluginType`].
pub struct PluginTypeBuilder {
    data: PluginType,
}

impl View for PluginTypeBuilder {
    type V = PluginTypeView;

    /// The plugin type built so far.
    closed spec fn view(&self) -> PluginTypeView {
        self.data@
    }
}

impl PluginTypeBuilder {
    /// An action plugin.
    pub fn action(self) -> (b: Self)
        ensures
            b@ == (PluginTypeView { action: true, ..self@ }),
    {
        let mut b = self;
        b.data.action = true;
        b
    }

    /// A text plugin, which provides commands.
    pub fn text(self, cmds: &[&str]) -> (b: Self)
        ensures
            b@ == (PluginTypeView { text: strs_view(cmds@), ..self@ }),
    {
        let mut b = self;
        b.data.text = to_strings(cmds);
        b
    }

    /// A line plugins, which provides custom line types.
    pub fn line(self, cmds: &[&str]) -> (b: Self)
        ensures
            b@ == (PluginTypeView { line: strs_view(cmds@), ..self@ }),
    {
        let mut b = self;
        b.data.line = to_strings(cmds);
        b
    }

    /// A game plugin.
    pub fn game(self) -> (b: Self)
        ensures
            b@ == (PluginTypeView { game: true, ..self@ }),
    {
        let mut b = self;
        b.data.game = true;
        b
    }

    /// Build a [`PluginType`].
    pub fn build(self) -> (t: PluginType)
        ensures
            t@ == self@,
    {
        self.data
    }
}

/// The type of current frontend.
#[derive(Debug, Clone, Copy)]
pub enum FrontendType {
    /// The frontend only accepts raw texts.
    Text,
    /// The frontend renders HTML.
    Html,
    /// The frontend renders LaTeX.
    Latex,
}

/// The argument to text plugin.
pub struct TextProcessContext {
    /// The global properties of the game profile.
    pub game_props: StrMap<String>,
    /// The frontend type.
    pub frontend: FrontendType,
}

/// The argument to text plugin, borrowed.
pub struct TextProcessContextRef<'a> {
    /// The global properties of the game profile.
    pub game_props: &'a StrMap<String>,
    /// The frontend type.
    pub frontend: FrontendType,
}

/// The argument to game plugin.
pub struct GameProcessContext {
    /// The title of the game.
    pub title: String,
    /// The author of the game.
    pub author: String,
    /// The global properties of the game.
    pub props: StrMap<String>,
}

/// The argument to game plugin, borrowed.
pub struct GameProcessContextRef<'a> {
    /// The title of the game.
    pub title: &'a str,
    /// The author of the game.
    pub author: &'a str,
    /// The global properties of the game.
    pub props: &'a StrMap<String>,
}

/// The result of game plugins.
pub struct GameProcessResult {
    /// The updated properties.
    pub props: StrMap<String>,
}

/// The map from each of `cmds` to `name`.
pub open spec fn cmds_to(cmds: Seq<Seq<char>>, name: Seq<char>) -> Map<Seq<char>, Seq<char>> {
    Map::new(|k: Seq<char>| cmds.contains(k), |k: Seq<char>| name)
}

/// A table of names, with its values as characters.
pub open spec fn names_view(m: Map<Seq<char>, String>) -> Map<Seq<char>, Seq<char>> {
    m.map_values(|s: String| s@)
}

/// The module that `names` gives for `key`, where it names a module.
pub open spec fn lookup<M>(names: Map<Seq<char>, Seq<char>>, modules: Map<Seq<char>, M>, key: Seq<char>) -> Option<M> {
    if names.contains_key(key) && modules.contains_key(names[key]) {
        Some(modules[names[key]])
    } else {
        None
    }
}

/// Every name in `names`, as key or as value, names a module of `modules`.
pub open spec fn names_resolve<M>(names: Map<Seq<char>, Seq<char>>, modules: Map<Seq<char>, M>) -> bool {
    forall|k: Seq<char>| #[trigger] names.contains_key(k) ==> modules.contains_key(names[k])
}

/// Every name in `list` names a module of `modules`.
pub open spec fn list_resolves<M>(list: Seq<Seq<char>>, modules: Map<Seq<char>, M>) -> bool {
    forall|i: int| 0 <= i < list.len() ==> modules.contains_key(#[trigger] list[i])
}

/// Maps each of `cmds` to `name` in `table`.
fn insert_cmds(table: &mut StrMap<String>, cmds: &Vec<String>, name: &String)
    ensures
        names_view(final(table)@) == names_view(old(table)@).union_prefer_right(
            cmds_to(strings_view(cmds@), name@),
        ),
{
    let ghost start = names_view(table@);
    let mut i: usize = 0;
    while i < cmds.len()
        invariant
            i <= cmds@.len(),
            names_view(table@) == start.union_prefer_right(
                cmds_to(strings_view(cmds@.subrange(0, i as int)), name@),
            ),
        decreases cmds@.len() - i,
    {
        let ghost before = table@;
        table.insert(cmds[i].clone(), name.clone());
        proof {
            let prev = strings_view(cmds@.subrange(0, i as int));
            let next = strings_view(cmds@.subrange(0, i as int + 1));
            assert(next =~= prev.push(cmds@[i as int]@));
            assert forall|k: Seq<char>| next.contains(k) <==> (prev.contains(k) || k == cmds@[i as int]@) by {
                if next.contains(k) {
                    let j = choose|j: int| 0 <= j < next.len() && next[j] == k;
                    if j < prev.len() {
                        assert(prev[j] == k);
                    }
                }
                if prev.contains(k) {
                    let j = choose|j: int| 0 <= j < prev.len() && prev[j] == k;
                    assert(next[j] == k);
                }
                if k == cmds@[i as int]@ {
                    assert(next[i as int] == k);
                }
            }
            assert(names_view(table@) =~= names_view(before).insert(cmds@[i as int]@, name@));
            assert(names_view(table@) =~= start.union_prefer_right(cmds_to(next, name@)));
        }
        i = i + 1;
    }
    proof {
        assert(cmds@.subrange(0, i as int) =~= cmds@);
    }
}

/// A registry of plugin modules, by name, and of the modules that handle each
/// kind of work.
pub struct PluginRuntime<M> {
    modules: StrMap<M>,
    action_modules: Vec<String>,
    text_modules: StrMap<String>,
    line_modules: StrMap<String>,
    game_modules: Vec<String>,
}

impl<M> PluginRuntime<M> {
    /// The modules, by name.
    pub closed spec fn modules_view(&self) -> Map<Seq<char>, M> {
        self.modules@
    }

    /// The names of the action modules, in the order they were registered.
    pub closed spec fn action_names(&self) -> Seq<Seq<char>> {
        strings_view(self.action_modules@)
    }

    /// The module name of each text command.
    pub closed spec fn text_names(&self) -> Map<Seq<char>, Seq<char>> {
        names_view(self.text_modules@)
    }

    /// The module name of each line type.
    pub closed spec fn line_names(&self) -> Map<Seq<char>, Seq<char>> {
        names_view(self.line_modules@)
    }

    /// The names of the game modules, in the order they were registered.
    pub closed spec fn game_names(&self) -> Seq<Seq<char>> {
        strings_view(self.game_modules@)
    }

    /// Every name the registry holds names a registered module.
    pub open spec fn resolves(&self) -> bool {
        &&& list_resolves(self.action_names(), self.modules_view())
        &&& names_resolve(self.text_names(), self.modules_view())
        &&& names_resolve(self.line_names(), self.modules_view())
        &&& list_resolves(self.game_names(), self.modules_view())
    }

    #[verifier::type_invariant]
    closed spec fn registry_resolves(&self) -> bool {
        self.resolves()
    }

    /// An empty registry.
    pub fn new() -> (rt: Self)
        ensures
            rt.modules_view() == Map::<Seq<char>, M>::empty(),
            rt.action_names() == Seq::<Seq<char>>::empty(),
            rt.text_names() == Map::<Seq<char>, Seq<char>>::empty(),
            rt.line_names() == Map::<Seq<char>, Seq<char>>::empty(),
            rt.game_names() == Seq::<Seq<char>>::empty(),
            rt.resolves(),
    {
        let rt = PluginRuntime {
            modules: StrMap::new(),
            action_modules: Vec::new(),
            text_modules: StrMap::new(),
            line_modules: StrMap::new(),
            game_modules: Vec::new(),
        };
        proof {
            assert(rt.action_names() =~= Seq::<Seq<char>>::empty());
            assert(rt.game_names() =~= Seq::<Seq<char>>::empty());
            assert(rt.text_names() =~= Map::<Seq<char>, Seq<char>>::empty());
            assert(rt.line_names() =~= Map::<Seq<char>, Seq<char>>::empty());
        }
        rt
    }

    /// Registers a module under `name`, as the kinds in `plugin_type` say: the
    /// module replaces one of the same name, and takes over each command and
    /// line type it provides.
    pub fn insert_module(&mut self, name: String, module: M, plugin_type: PluginType)
        ensures
            final(self).modules_view() == old(self).modules_view().insert(name@, module),
            final(self).action_names() == (if plugin_type.action {
                old(self).action_names().push(name@)
            } else {
                old(self).action_names()
            }),
            final(self).text_names() == old(self).text_names().union_prefer_right(
                cmds_to(plugin_type@.text, name@),
            ),
            final(self).line_names() == old(self).line_names().union_prefer_right(
                cmds_to(plugin_type@.line, name@),
            ),
            final(self).game_names() == (if plugin_type.game {
                old(self).game_names().push(name@)
            } else {
                old(self).game_names()
            }),
            final(self).resolves(),
    {
        let mut rt = PluginRuntime::new();
        std::mem::swap(&mut rt, self);
        proof {
            use_type_invariant(&rt);
        }
        let ghost old_rt = rt;
        let PluginRuntime { modules, action_modules, text_modules, line_modules, game_modules } = rt;
        let mut modules = modules;
        let mut action_modules = action_modules;
        let mut text_modules = text_modules;
        let mut line_modules = line_modules;
        let mut game_modules = game_modules;
        modules.insert(name.clone(), module);
        if plugin_type.action {
            action_modules.push(name.clone());
        }
        insert_cmds(&mut text_modules, &plugin_type.text, &name);
        insert_cmds(&mut line_modules, &plugin_type.line, &name);
        if plugin_type.game {
            game_modules.push(name.clone());
        }
        let ghost new_rt = PluginRuntime { modules, action_modules, text_modules, line_modules, game_modules };
        proof {
            assert(new_rt.action_names() =~= (if plugin_type.action {
                old_rt.action_names().push(name@)
            } else {
                old_rt.action_names()
            }));
            assert(new_rt.game_names() =~= (if plugin_type.game {
                old_rt.game_names().push(name@)
            } else {
                old_rt.game_names()
            }));
            let mv = new_rt.modules_view();
            assert(forall|k: Seq<char>| #[trigger] old_rt.modules_view().contains_key(k) ==> mv.contains_key(k));
            assert(list_resolves(new_rt.action_names(), mv)) by {
                assert forall|i: int| 0 <= i < new_rt.action_names().len() implies mv.contains_key(#[trigger] new_rt.action_names()[i]) by {
                    if i < old_rt.action_names().len() {
                        assert(old_rt.modules_view().contains_key(old_rt.action_names()[i]));
                    }
                }
            }
            assert(list_resolves(new_rt.game_names(), mv)) by {
                assert forall|i: int| 0 <= i < new_rt.game_names().len() implies mv.contains_key(#[trigger] new_rt.game_names()[i]) by {
                    if i < old_rt.game_names().len() {
                        assert(old_rt.modules_view().contains_key(old_rt.game_names()[i]));
                    }
                }
            }
            assert(names_resolve(new_rt.text_names(), mv)) by {
                assert forall|k: Seq<char>| #[trigger] new_rt.text_names().contains_key(k) implies mv.contains_key(new_rt.text_names()[k]) by {
                    if !cmds_to(plugin_type@.text, name@).contains_key(k) {
                        assert(old_rt.text_names().contains_key(k));
                    }
                }
            }
            assert(names_resolve(new_rt.line_names(), mv)) by {
                assert forall|k: Seq<char>| #[trigger] new_rt.line_names().contains_key(k) implies mv.contains_key(new_rt.line_names()[k]) by {
                    if !cmds_to(plugin_type@.line, name@).contains_key(k) {
                        assert(old_rt.line_names().contains_key(k));
                    }
                }
            }
        }
        let new_rt = PluginRuntime { modules, action_modules, text_modules, line_modules, game_modules };
        *self = new_rt;
    }

    /// The module registered under `name`.
    pub fn get_module(&self, name: &str) -> (r: Option<&M>)
        ensures
            match r {
                Some(m) => self.modules_view().contains_key(name@) && *m == self.modules_view()[name@],
                None => !self.modules_view().contains_key(name@),
            },
    {
        self.modules.get(name)
    }

    /// The module that handles the text command `cmd`.
    pub fn find_text_module(&self, cmd: &str) -> (r: Option<&M>)
        ensures
            match r {
                Some(m) => lookup(self.text_names(), self.modules_view(), cmd@) == Some(*m),
                None => !self.text_names().contains_key(cmd@),
            },
    {
        proof {
            use_type_invariant(self);
        }
        match self.text_modules.get(cmd) {
            Some(name) => {
                proof {
                    assert(self.text_names().contains_key(cmd@));
                    assert(self.text_names()[cmd@] == name@);
                }
                self.modules.get(name.as_str())
            },
            None => None,
        }
    }

    /// The module that handles the line type `cmd`.
    pub fn find_line_module(&self, cmd: &str) -> (r: Option<&M>)
        ensures
            match r {
                Some(m) => lookup(self.line_names(), self.modules_view(), cmd@) == Some(*m),
                None => !self.line_names().contains_key(cmd@),
            },
    {
        proof {
            use_type_invariant(self);
        }
        match self.line_modules.get(cmd) {
            Some(name) => {
                proof {
                    assert(self.line_names().contains_key(cmd@));
                    assert(self.line_names()[cmd@] == name@);
                }
                self.modules.get(name.as_str())
            },
            None => None,
        }
    }

    /// The modules that `names` lists, in its order.
    fn modules_of(&self, names: &Vec<String>) -> (v: Vec<&M>)
        requires
            list_resolves(strings_view(names@), self.modules_view()),
        ensures
            v@.len() == names@.len(),
            forall|i: int| 0 <= i < v@.len() ==> *#[trigger] v@[i] == self.modules_view()[names@[i]@],
    {
        let mut v: Vec<&M> = Vec::new();
        let mut i: usize = 0;
        while i < names.len()
            invariant
                i <= names@.len(),
                v@.len() == i,
                list_resolves(strings_view(names@), self.modules_view()),
                forall|j: int| 0 <= j < i ==> *#[trigger] v@[j] == self.modules_view()[names@[j]@],
            decreases names@.len() - i,
        {
            proof {
                assert(strings_view(names@)[i as int] == names@[i as int]@);
            }
            match self.modules.get(names[i].as_str()) {
                Some(m) => v.push(m),
                None => {
                    proof {
                        assert(false);
                    }
                },
            }
            i = i + 1;
        }
        v
    }

    /// The action modules, in the order they were registered.
    pub fn action_modules(&self) -> (v: Vec<&M>)
        ensures
            v@.len() == self.action_names().len(),
            forall|i: int| 0 <= i < v@.len() ==> *#[trigger] v@[i] == self.modules_view()[self.action_names()[i]],
    {
        proof {
            use_type_invariant(self);
        }
        self.modules_of(&self.action_modules)
    }

    /// The game modules, in the order they were registered.
    pub fn game_modules(&self) -> (v: Vec<&M>)
        ensures
            v@.len() == self.game_names().len(),
            forall|i: int| 0 <= i < v@.len() ==> *#[trigger] v@[i] == self.modules_view()[self.game_names()[i]],
    {
        proof {
            use_type_invariant(self);
        }
        self.modules_of(&self.game_modules)
    }
}

/// After a module is registered for some commands, each of them finds it.
pub proof fn lemma_insert_finds_command<M>(
    names: Map<Seq<char>, Seq<char>>,
    modules: Map<Seq<char>, M>,
    name: Seq<char>,
    module: M,
    cmds: Seq<Seq<char>>,
    cmd: Seq<char>,
)
    requires
        cmds.contains(cmd),
    ensures
        lookup(names.union_prefer_right(cmds_to(cmds, name)), modules.insert(name, module), cmd)
            == Some(module),
{
}

/// Registering a module leaves every other command with the module it had,
/// unless that module was the one replaced under the same name.
pub proof fn lemma_insert_keeps_others<M>(
    names: Map<Seq<char>, Seq<char>>,
    modules: Map<Seq<char>, M>,
    name: Seq<char>,
    module: M,
    cmds: Seq<Seq<char>>,
    cmd: Seq<char>,
)
    requires
        !cmds.contains(cmd),
        names.contains_key(cmd) ==> names[cmd] != name,
    ensures
        lookup(names.union_prefer_right(cmds_to(cmds, name)), modules.insert(name, module), cmd)
            == lookup(names, modules, cmd),
{
}

} // verus!
