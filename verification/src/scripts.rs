use vstd::prelude::*;
use vstd::string::StringSliceAdditionalSpecFns;
use std::collections::HashMap;
use crate::unwind::{Plugins, Registration};

verus! {

broadcast use vstd::std_specs::hash::group_hash_axioms;

/// A replacement for one ACMD script of an agent: the script's Hash40 and the
/// address of the function that replaces it. Two infos are equal when they
/// replace the same script.
#[derive(Clone, Copy, Debug)]
pub struct ScriptInfo {
    pub name: u64,
    pub replace: u64,
}

impl PartialEq for ScriptInfo {
    fn eq(&self, other: &Self) -> (r: bool) {
        self.name == other.name
    }
}

impl vstd::std_specs::cmp::PartialEqSpecImpl for ScriptInfo {
    open spec fn obeys_eq_spec() -> bool {
        true
    }

    open spec fn eq_spec(&self, other: &Self) -> bool {
        self.name == other.name
    }
}

/// A replacement for a status function: the status and condition (each a Lua
/// constant, held by its bind hash) and the address of the replacement.
#[derive(Clone, Copy, Debug)]
pub struct StatusInfo {
    pub status: u64,
    pub condition: u64,
    pub replace: u64,
}

/// The kind of ACMD script a replacement is for.
#[allow(non_camel_case_types)]
#[derive(Clone, Copy, Debug, PartialEq, Eq, Structural)]
pub enum ScriptCategory {
    EFFECT,
    EXPRESSION,
    GAME,
    SOUND,
}

/// Some script in `list` replaces the script named `name`.
pub open spec fn has_name(list: Seq<ScriptInfo>, name: u64) -> bool {
    exists|i: int| 0 <= i < list.len() && (#[trigger] list[i]).name == name
}

/// No two scripts in `list` replace the same script.
pub open spec fn distinct_names(list: Seq<ScriptInfo>) -> bool {
    forall|i: int, j: int| 0 <= i < j < list.len() ==> list[i].name != list[j].name
}

/// The scripts registered for `agent` (none when it has no entry).
pub open spec fn scripts_of(m: Map<u64, Vec<ScriptInfo>>, agent: u64) -> Seq<ScriptInfo> {
    if m.contains_key(agent) {
        m[agent]@
    } else {
        Seq::empty()
    }
}

/// What registering a script does to an agent's list: it is appended unless
/// a replacement for the same script is already there, which then stays.
pub open spec fn with_script(list: Seq<ScriptInfo>, info: ScriptInfo) -> Seq<ScriptInfo> {
    if has_name(list, info.name) {
        list
    } else {
        list.push(info)
    }
}

/// Whether some script in `list` replaces the script named `name`.
pub fn contains_name(list: &Vec<ScriptInfo>, name: u64) -> (r: bool)
    ensures
        r == has_name(list@, name),
{
    let mut i: usize = 0;
    while i < list.len()
        invariant
            i <= list@.len(),
            forall|j: int| 0 <= j < i ==> list@[j].name != name,
        decreases list@.len() - i,
    {
        if list[i].name == name {
            return true;
        }
        i = i + 1;
    }
    false
}

/// The script replacements of one category, by agent Hash40.
pub struct ScriptTable {
    pub map: HashMap<u64, Vec<ScriptInfo>>,
}

impl ScriptTable {
    /// Every registered agent has a non-empty list with no script twice.
    pub open spec fn wf(&self) -> bool {
        forall|k: u64|
            #[trigger] self.map@.contains_key(k) ==> self.map@[k]@.len() > 0 && distinct_names(
                self.map@[k]@,
            )
    }

    pub fn new() -> (t: Self)
        ensures
            t.map@ == Map::<u64, Vec<ScriptInfo>>::empty(),
            t.wf(),
    {
        ScriptTable { map: HashMap::new() }
    }

    /// The replacements registered for `agent`.
    pub fn get(&self, agent: u64) -> (r: Option<&Vec<ScriptInfo>>)
        ensures
            r matches Some(v) ==> self.map@.contains_key(agent) && *v == self.map@[agent],
            r is None ==> !self.map@.contains_key(agent),
    {
        self.map.get(&agent)
    }

    /// Registers `info` for `agent` unless a replacement of the same script is
    /// already registered; returns whether it was added.
    pub fn add(&mut self, agent: u64, info: ScriptInfo) -> (added: bool)
        requires
            old(self).wf(),
        ensures
            final(self).wf(),
            added == !has_name(scripts_of(old(self).map@, agent), info.name),
            final(self).map@.contains_key(agent),
            final(self).map@[agent]@ == with_script(scripts_of(old(self).map@, agent), info),
            added ==> final(self).map@[agent]@ == scripts_of(old(self).map@, agent).push(info),
            !added ==> final(self).map@[agent]@ == scripts_of(old(self).map@, agent),
            final(self).map@.remove(agent) == old(self).map@.remove(agent),
    {
        let ghost old_map = self.map@;
        match self.map.remove(&agent) {
            Some(mut x) => {
                let dup = contains_name(&x, info.name);
                if !dup {
                    x.push(info);
                }
                self.map.insert(agent, x);
                proof {
                    assert(self.map@.remove(agent) =~= old_map.remove(agent));
                    assert forall|k: u64| #[trigger] self.map@.contains_key(k) implies self.map@[k]@.len()
                        > 0 && distinct_names(self.map@[k]@) by {
                        if k != agent {
                            assert(old_map.contains_key(k));
                        } else {
                            assert(old_map.contains_key(agent));
                            let l = self.map@[k]@;
                            if !dup {
                                assert forall|i: int, j: int| 0 <= i < j < l.len() implies l[i].name
                                    != l[j].name by {
                                    if j == l.len() - 1 {
                                        assert(old_map[agent]@[i] == l[i]);
                                    }
                                }
                            }
                        }
                    }
                }
                !dup
            },
            None => {
                let mut v = Vec::new();
                v.push(info);
                self.map.insert(agent, v);
                proof {
                    assert(self.map@.remove(agent) =~= old_map.remove(agent));
                    assert(v@ =~= Seq::<ScriptInfo>::empty().push(info));
                    assert forall|k: u64| #[trigger] self.map@.contains_key(k) implies self.map@[k]@.len()
                        > 0 && distinct_names(self.map@[k]@) by {
                        if k != agent {
                            assert(old_map.contains_key(k));
                        }
                    }
                }
                true
            },
        }
    }
}

/// Registering a script that the agent does not replace yet appends it: every
/// earlier replacement stays, in its place, and the list grows by exactly
/// the new one; registering one it already replaces changes nothing.
pub proof fn lemma_with_script_appends(list: Seq<ScriptInfo>, info: ScriptInfo)
    ensures
        !has_name(list, info.name) ==> {
            &&& with_script(list, info).len() == list.len() + 1
            &&& forall|i: int| 0 <= i < list.len() ==> with_script(list, info)[i] == list[i]
            &&& with_script(list, info)[list.len() as int] == info
        },
        has_name(list, info.name) ==> with_script(list, info) == list,
{
}

/// Registering the same script twice for an agent leaves its list as
/// registering it once does, and afterwards the agent replaces that script.
pub proof fn lemma_with_script_idempotent(list: Seq<ScriptInfo>, info: ScriptInfo)
    ensures
        with_script(with_script(list, info), info) == with_script(list, info),
        has_name(with_script(list, info), info.name),
{
    if !has_name(list, info.name) {
        let l2 = list.push(info);
        assert(l2[list.len() as int].name == info.name);
    }
}

/// The status function replacements, by agent Hash40.
pub struct StatusTable {
    pub map: HashMap<u64, Vec<StatusInfo>>,
}

/// The status replacements registered for `agent` (none when it has no entry).
pub open spec fn statuses_of(m: Map<u64, Vec<StatusInfo>>, agent: u64) -> Seq<StatusInfo> {
    if m.contains_key(agent) {
        m[agent]@
    } else {
        Seq::empty()
    }
}

impl StatusTable {
    pub fn new() -> (t: Self)
        ensures
            t.map@ == Map::<u64, Vec<StatusInfo>>::empty(),
    {
        StatusTable { map: HashMap::new() }
    }

    /// The status replacements registered for `agent`.
    pub fn get(&self, agent: u64) -> (r: Option<&Vec<StatusInfo>>)
        ensures
            r matches Some(v) ==> self.map@.contains_key(agent) && *v == self.map@[agent],
            r is None ==> !self.map@.contains_key(agent),
    {
        self.map.get(&agent)
    }

    /// Appends `info` to the replacements of `agent`; status replacements are
    /// never checked for duplicates.
    pub fn add(&mut self, agent: u64, info: StatusInfo)
        ensures
            final(self).map@.contains_key(agent),
            final(self).map@[agent]@ == statuses_of(old(self).map@, agent).push(info),
            final(self).map@.remove(agent) == old(self).map@.remove(agent),
    {
        let ghost old_map = self.map@;
        match self.map.remove(&agent) {
            Some(mut x) => {
                x.push(info);
                self.map.insert(agent, x);
            },
            None => {
                let mut v = Vec::new();
                v.push(info);
                self.map.insert(agent, v);
                assert(v@ =~= Seq::<StatusInfo>::empty().push(info));
            },
        }
        assert(self.map@.remove(agent) =~= old_map.remove(agent));
    }
}

/// Replacement system-line control functions, by the bind hash of the
/// agent's kind constant.
pub struct SysLineTable {
    pub map: HashMap<u64, u64>,
}

impl SysLineTable {
    pub fn new() -> (t: Self)
        ensures
            t.map@ == Map::<u64, u64>::empty(),
    {
        SysLineTable { map: HashMap::new() }
    }

    /// Registers `func` for `agent` unless the agent already has one, which
    /// then stays; returns whether it was added.
    pub fn add(&mut self, agent: u64, func: u64) -> (added: bool)
        ensures
            added == !old(self).map@.contains_key(agent),
            final(self).map@ == if added {
                old(self).map@.insert(agent, func)
            } else {
                old(self).map@
            },
    {
        if self.map.contains_key(&agent) {
            false
        } else {
            self.map.insert(agent, func);
            true
        }
    }
}

/// The whole replacement state: the registered plugins and every table.
pub struct Registry {
    pub plugins: Plugins,
    pub effect: ScriptTable,
    pub expression: ScriptTable,
    pub game: ScriptTable,
    pub sound: ScriptTable,
    pub status: StatusTable,
    pub sys_fighter: SysLineTable,
    pub sys_weapon: SysLineTable,
    pub fighter_callbacks: Vec<u64>,
    pub weapon_callbacks: Vec<u64>,
}

impl Registry {
    pub open spec fn wf(&self) -> bool {
        &&& self.plugins.wf()
        &&& self.effect.wf()
        &&& self.expression.wf()
        &&& self.game.wf()
        &&& self.sound.wf()
    }

    /// The table of a script category.
    pub open spec fn table(&self, category: ScriptCategory) -> &ScriptTable {
        match category {
            ScriptCategory::EFFECT => &self.effect,
            ScriptCategory::EXPRESSION => &self.expression,
            ScriptCategory::GAME => &self.game,
            ScriptCategory::SOUND => &self.sound,
        }
    }

    pub fn new() -> (r: Self)
        ensures
            r.wf(),
            r.plugins@ == Seq::<crate::unwind::Nro>::empty(),
            r.effect.map@ == Map::<u64, Vec<ScriptInfo>>::empty(),
            r.expression.map@ == Map::<u64, Vec<ScriptInfo>>::empty(),
            r.game.map@ == Map::<u64, Vec<ScriptInfo>>::empty(),
            r.sound.map@ == Map::<u64, Vec<ScriptInfo>>::empty(),
            r.status.map@ == Map::<u64, Vec<StatusInfo>>::empty(),
            r.sys_fighter.map@ == Map::<u64, u64>::empty(),
            r.sys_weapon.map@ == Map::<u64, u64>::empty(),
            r.fighter_callbacks@ == Seq::<u64>::empty(),
            r.weapon_callbacks@ == Seq::<u64>::empty(),
    {
        Registry {
            plugins: Plugins::new(),
            effect: ScriptTable::new(),
            expression: ScriptTable::new(),
            game: ScriptTable::new(),
            sound: ScriptTable::new(),
            status: StatusTable::new(),
            sys_fighter: SysLineTable::new(),
            sys_weapon: SysLineTable::new(),
            fighter_callbacks: Vec::new(),
            weapon_callbacks: Vec::new(),
        }
    }
}

/// What a replacement request did.
#[derive(Clone, Copy, Debug, PartialEq, Eq, Structural)]
pub struct Replacement {
    /// What registering the requesting plugin did.
    pub registration: Registration,
    /// The replacement was recorded; `false` when an earlier one for the same
    /// script (or agent) is kept instead.
    pub added: bool,
}

/// Registers a status function replacement from the plugin at
/// `plug_start..plug_end`: the plugin is registered (once), and the
/// replacement is appended to `agent`'s list. Nothing else changes.
pub fn replace_status_script(
    reg: &mut Registry,
    plug_start: u64,
    plug_end: u64,
    agent: u64,
    status: u64,
    condition: u64,
    func: u64,
) -> (r: Registration)
    requires
        old(reg).wf(),
    ensures
        final(reg).wf(),
        r.missing_info == (plug_start == 0 || plug_end == 0),
        r.newly_registered == !old(reg).plugins@.contains(crate::unwind::Nro { start: plug_start, end: plug_end }),
        final(reg).plugins@ == registered(old(reg).plugins@, plug_start, plug_end),
        final(reg).status.map@.contains_key(agent),
        final(reg).status.map@[agent]@ == statuses_of(old(reg).status.map@, agent).push(
            StatusInfo { status, condition, replace: func },
        ),
        final(reg).status.map@.remove(agent) == old(reg).status.map@.remove(agent),
        final(reg).effect == old(reg).effect,
        final(reg).expression == old(reg).expression,
        final(reg).game == old(reg).game,
        final(reg).sound == old(reg).sound,
        final(reg).sys_fighter == old(reg).sys_fighter,
        final(reg).sys_weapon == old(reg).sys_weapon,
        final(reg).fighter_callbacks == old(reg).fighter_callbacks,
        final(reg).weapon_callbacks == old(reg).weapon_callbacks,
{
    let r = reg.plugins.register_user(plug_start, plug_end);
    reg.status.add(agent, StatusInfo { status, condition, replace: func });
    r
}

/// The plugin list after the plugin at `start..end` registers.
pub open spec fn registered(s: Seq<crate::unwind::Nro>, start: u64, end: u64) -> Seq<crate::unwind::Nro> {
    let nro = crate::unwind::Nro { start, end };
    if s.contains(nro) {
        s
    } else {
        s.push(nro)
    }
}

/// Registers a replacement of script `script` of `agent` in `category` from
/// the plugin at `plug_start..plug_end`: the plugin is registered (once), and
/// the script is added to the agent's list in that category unless it is
/// already replaced there (the first replacement stays). Nothing else changes.
pub fn replace_lua_script(
    reg: &mut Registry,
    plug_start: u64,
    plug_end: u64,
    agent: u64,
    script: u64,
    func: u64,
    category: ScriptCategory,
) -> (r: Replacement)
    requires
        old(reg).wf(),
    ensures
        final(reg).wf(),
        r.registration.missing_info == (plug_start == 0 || plug_end == 0),
        r.registration.newly_registered == !old(reg).plugins@.contains(crate::unwind::Nro { start: plug_start, end: plug_end }),
        final(reg).plugins@ == registered(old(reg).plugins@, plug_start, plug_end),
        r.added == !has_name(scripts_of(old(reg).table(category).map@, agent), script),
        final(reg).table(category).map@.contains_key(agent),
        final(reg).table(category).map@[agent]@ == with_script(
            scripts_of(old(reg).table(category).map@, agent),
            ScriptInfo { name: script, replace: func },
        ),
        r.added ==> final(reg).table(category).map@[agent]@ == scripts_of(
            old(reg).table(category).map@,
            agent,
        ).push(ScriptInfo { name: script, replace: func }),
        !r.added ==> final(reg).table(category).map@[agent]@ == scripts_of(
            old(reg).table(category).map@,
            agent,
        ),
        final(reg).table(category).map@.remove(agent) == old(reg).table(category).map@.remove(agent),
        forall|c: ScriptCategory| c != category ==> final(reg).table(c) == old(reg).table(c),
        final(reg).status == old(reg).status,
        final(reg).sys_fighter == old(reg).sys_fighter,
        final(reg).sys_weapon == old(reg).sys_weapon,
        final(reg).fighter_callbacks == old(reg).fighter_callbacks,
        final(reg).weapon_callbacks == old(reg).weapon_callbacks,
{
    let registration = reg.plugins.register_user(plug_start, plug_end);
    let info = ScriptInfo { name: script, replace: func };
    let added = match category {
        ScriptCategory::EFFECT => reg.effect.add(agent, info),
        ScriptCategory::EXPRESSION => reg.expression.add(agent, info),
        ScriptCategory::GAME => reg.game.add(agent, info),
        ScriptCategory::SOUND => reg.sound.add(agent, info),
    };
    Replacement { registration, added }
}

/// Registers a replacement of the fighter system-line control function of
/// `agent` from the plugin at `plug_start..plug_end`: the plugin is registered
/// (once), and the function is recorded unless the agent already has one
/// (which then stays). Nothing else changes.
pub fn replace_sys_line_fighter_script(
    reg: &mut Registry,
    plug_start: u64,
    plug_end: u64,
    agent: u64,
    func: u64,
) -> (r: Replacement)
    requires
        old(reg).wf(),
    ensures
        final(reg).wf(),
        r.registration.missing_info == (plug_start == 0 || plug_end == 0),
        r.registration.newly_registered == !old(reg).plugins@.contains(crate::unwind::Nro { start: plug_start, end: plug_end }),
        final(reg).plugins@ == registered(old(reg).plugins@, plug_start, plug_end),
        r.added == !old(reg).sys_fighter.map@.contains_key(agent),
        final(reg).sys_fighter.map@ == if r.added {
            old(reg).sys_fighter.map@.insert(agent, func)
        } else {
            old(reg).sys_fighter.map@
        },
        final(reg).effect == old(reg).effect,
        final(reg).expression == old(reg).expression,
        final(reg).game == old(reg).game,
        final(reg).sound == old(reg).sound,
        final(reg).status == old(reg).status,
        final(reg).sys_weapon == old(reg).sys_weapon,
        final(reg).fighter_callbacks == old(reg).fighter_callbacks,
        final(reg).weapon_callbacks == old(reg).weapon_callbacks,
{
    let registration = reg.plugins.register_user(plug_start, plug_end);
    let added = reg.sys_fighter.add(agent, func);
    Replacement { registration, added }
}

/// As `replace_sys_line_fighter_script`, for the weapon system-line control function.
pub fn replace_sys_line_weapon_script(
    reg: &mut Registry,
    plug_start: u64,
    plug_end: u64,
    agent: u64,
    func: u64,
) -> (r: Replacement)
    requires
        old(reg).wf(),
    ensures
        final(reg).wf(),
        r.registration.missing_info == (plug_start == 0 || plug_end == 0),
        r.registration.newly_registered == !old(reg).plugins@.contains(crate::unwind::Nro { start: plug_start, end: plug_end }),
        final(reg).plugins@ == registered(old(reg).plugins@, plug_start, plug_end),
        r.added == !old(reg).sys_weapon.map@.contains_key(agent),
        final(reg).sys_weapon.map@ == if r.added {
            old(reg).sys_weapon.map@.insert(agent, func)
        } else {
            old(reg).sys_weapon.map@
        },
        final(reg).effect == old(reg).effect,
        final(reg).expression == old(reg).expression,
        final(reg).game == old(reg).game,
        final(reg).sound == old(reg).sound,
        final(reg).status == old(reg).status,
        final(reg).sys_fighter == old(reg).sys_fighter,
        final(reg).fighter_callbacks == old(reg).fighter_callbacks,
        final(reg).weapon_callbacks == old(reg).weapon_callbacks,
{
    let registration = reg.plugins.register_user(plug_start, plug_end);
    let added = reg.sys_weapon.add(agent, func);
    Replacement { registration, added }
}

/// Appends a callback run before the fighter system-line control function.
pub fn add_sys_line_fighter_callback(reg: &mut Registry, func: u64)
    requires
        old(reg).wf(),
    ensures
        final(reg).wf(),
        final(reg).fighter_callbacks@ == old(reg).fighter_callbacks@.push(func),
        final(reg).weapon_callbacks == old(reg).weapon_callbacks,
        final(reg).plugins == old(reg).plugins,
        final(reg).effect == old(reg).effect,
        final(reg).expression == old(reg).expression,
        final(reg).game == old(reg).game,
        final(reg).sound == old(reg).sound,
        final(reg).status == old(reg).status,
        final(reg).sys_fighter == old(reg).sys_fighter,
        final(reg).sys_weapon == old(reg).sys_weapon,
{
    reg.fighter_callbacks.push(func);
}

/// Appends a callback run before the weapon system-line control function.
pub fn add_sys_line_weapon_callback(reg: &mut Registry, func: u64)
    requires
        old(reg).wf(),
    ensures
        final(reg).wf(),
        final(reg).weapon_callbacks@ == old(reg).weapon_callbacks@.push(func),
        final(reg).fighter_callbacks == old(reg).fighter_callbacks,
        final(reg).plugins == old(reg).plugins,
        final(reg).effect == old(reg).effect,
        final(reg).expression == old(reg).expression,
        final(reg).game == old(reg).game,
        final(reg).sound == old(reg).sound,
        final(reg).status == old(reg).status,
        final(reg).sys_fighter == old(reg).sys_fighter,
        final(reg).sys_weapon == old(reg).sys_weapon,
{
    reg.weapon_callbacks.push(func);
}

/// The control function the system-line hot patch installs for an object of
/// kind `kind`: among the registered `(kind, function)` pairs, in the order
/// given, the function of the last pair whose kind is `kind`; `default` (the
/// game's own function) when there is none.
pub open spec fn spec_select(entries: Seq<(i32, u64)>, kind: i32, default: u64) -> u64
    decreases entries.len(),
{
    if entries.len() == 0 {
        default
    } else if entries.last().0 == kind {
        entries.last().1
    } else {
        spec_select(entries.drop_last(), kind, default)
    }
}

/// The choice of the hot patch, stated directly: when some pair has kind
/// `kind`, the function of the last such pair; otherwise `default`.
pub proof fn lemma_select_last_match(entries: Seq<(i32, u64)>, kind: i32, default: u64)
    ensures
        (exists|i: int| 0 <= i < entries.len() && entries[i].0 == kind) ==> exists|i: int|
            0 <= i < entries.len() && entries[i].0 == kind && spec_select(entries, kind, default)
                == entries[i].1 && forall|j: int| i < j < entries.len() ==> entries[j].0 != kind,
        (forall|i: int| 0 <= i < entries.len() ==> entries[i].0 != kind) ==> spec_select(
            entries,
            kind,
            default,
        ) == default,
    decreases entries.len(),
{
    if entries.len() > 0 {
        let rest = entries.drop_last();
        lemma_select_last_match(rest, kind, default);
        let n = entries.len() - 1;
        if entries.last().0 == kind {
            assert(entries[n].0 == kind);
        } else {
            if exists|i: int| 0 <= i < entries.len() && entries[i].0 == kind {
                let i0 = choose|i: int| 0 <= i < entries.len() && entries[i].0 == kind;
                assert(i0 < n);
                assert(rest[i0].0 == kind);
                let i = choose|i: int|
                    0 <= i < rest.len() && rest[i].0 == kind && spec_select(rest, kind, default)
                        == rest[i].1 && forall|j: int| i < j < rest.len() ==> rest[j].0 != kind;
                assert(entries[i] == rest[i]);
                assert forall|j: int| i < j < entries.len() implies entries[j].0 != kind by {
                    if j < n {
                        assert(entries[j] == rest[j]);
                    }
                }
            }
            if forall|i: int| 0 <= i < entries.len() ==> entries[i].0 != kind {
                assert forall|i: int| 0 <= i < rest.len() implies rest[i].0 != kind by {
                    assert(rest[i] == entries[i]);
                }
            }
        }
    }
}

/// The function the system-line hot patch installs for kind `kind`: the
/// function of the last registered pair with that kind, else `default`.
pub fn select_sys_line_func(entries: &[(i32, u64)], kind: i32, default: u64) -> (f: u64)
    ensures
        f == spec_select(entries@, kind, default),
        (exists|i: int| 0 <= i < entries@.len() && entries@[i].0 == kind) ==> exists|i: int|
            0 <= i < entries@.len() && entries@[i].0 == kind && f == entries@[i].1 && forall|j: int|
                i < j < entries@.len() ==> entries@[j].0 != kind,
        (forall|i: int| 0 <= i < entries@.len() ==> entries@[i].0 != kind) ==> f == default,
{
    proof {
        lemma_select_last_match(entries@, kind, default);
    }
    let mut f = default;
    let mut i: usize = 0;
    while i < entries.len()
        invariant
            i <= entries@.len(),
            f == spec_select(entries@.subrange(0, i as int), kind, default),
        decreases entries@.len() - i,
    {
        let (agent, func) = entries[i];
        if agent == kind {
            f = func;
        }
        proof {
            assert(entries@.subrange(0, i + 1).drop_last() =~= entries@.subrange(0, i as int));
        }
        i = i + 1;
    }
    assert(entries@.subrange(0, entries@.len() as int) =~= entries@);
    f
}

/// How a freshly loaded (or unloaded) module is handled.
#[derive(Clone, Copy, Debug, PartialEq, Eq, Structural)]
pub enum NroRole {
    /// The shared `common` module: the system-line hot patches are installed in it.
    Common,
    /// The `item` module, which is left alone.
    Item,
    /// A fighter module, whose agent creators are hooked.
    Fighter,
}

/// Whether two byte strings are equal.
pub fn bytes_eq(a: &[u8], b: &[u8]) -> (r: bool)
    ensures
        r == (a@ == b@),
{
    if a.len() != b.len() {
        return false;
    }
    let mut i: usize = 0;
    while i < a.len()
        invariant
            a@.len() == b@.len(),
            i <= a@.len(),
            forall|j: int| 0 <= j < i ==> a@[j] == b@[j],
        decreases a@.len() - i,
    {
        if a[i] != b[i] {
            return false;
        }
        i = i + 1;
    }
    assert(a@ =~= b@);
    true
}

/// The role of the module named `name`: `common`, `item`, or any other (a fighter).
pub fn classify_nro(name: &str) -> (r: NroRole)
    ensures
        r == if name.spec_bytes() == "common".spec_bytes() {
            NroRole::Common
        } else if name.spec_bytes() == "item".spec_bytes() {
            NroRole::Item
        } else {
            NroRole::Fighter
        },
{
    if bytes_eq(name.as_bytes(), "common".as_bytes()) {
        NroRole::Common
    } else if bytes_eq(name.as_bytes(), "item".as_bytes()) {
        NroRole::Item
    } else {
        NroRole::Fighter
    }
}

/// Offsets, in the `common` module, of the calls that the fighter and weapon
/// system-line hot patches replace.
pub const SYS_LINE_FIGHTER_CALL_OFFSET: u64 = 0x174d0;
pub const SYS_LINE_WEAPON_CALL_OFFSET: u64 = 0x5ecc;

/// The addresses of the fighter and weapon hot patches in the `common`
/// module loaded at `module_base`.
pub fn hot_patch_addresses(module_base: u64) -> (r: (u64, u64))
    requires
        module_base + SYS_LINE_FIGHTER_CALL_OFFSET <= u64::MAX,
    ensures
        r.0 == module_base + SYS_LINE_FIGHTER_CALL_OFFSET,
        r.1 == module_base + SYS_LINE_WEAPON_CALL_OFFSET,
{
    (module_base + SYS_LINE_FIGHTER_CALL_OFFSET, module_base + SYS_LINE_WEAPON_CALL_OFFSET)
}

} // verus!
