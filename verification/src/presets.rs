//! Presets made from what the command line says: settings for a universe of
//! worlds, or for one world.

use vstd::prelude::*;
use crate::options::{
    Goal, GoalsOpt, HeaderConfig, HeaderConfigOpt, InlineHeader, InlineHeaderOpt, Spawn, SpawnOpt,
};
use crate::world_opts::{
    fault_message, first_index_fault, first_single_fault, holder, holds, received, recipients,
    resolve_nonduplicate_world_opts, resolve_world_opts, vec_in_option, WorldOpt,
};

verus! {

/// How prominently a preset is shown.
#[derive(Clone, Copy, Debug, PartialEq, Eq, Structural)]
pub enum PresetGroup {
    Base,
}

/// What a preset says about itself.
pub struct PresetInfo {
    pub name: Option<String>,
    pub description: Option<String>,
    pub group: Option<PresetGroup>,
}

/// Settings for one world. `None` leaves a setting as it is.
pub struct WorldPreset<D, T> {
    pub info: Option<PresetInfo>,
    pub includes: Option<Vec<String>>,
    pub spawn: Option<Spawn>,
    pub difficulty: Option<D>,
    pub tricks: Option<Vec<T>>,
    pub goals: Option<Vec<Goal>>,
    pub hard: Option<bool>,
    pub headers: Option<Vec<String>>,
    pub header_config: Option<Vec<HeaderConfig>>,
    pub inline_headers: Option<Vec<InlineHeader>>,
}

/// Settings for a universe of worlds. `None` leaves a setting as it is.
pub struct UniversePreset<D, T> {
    pub info: Option<PresetInfo>,
    pub includes: Option<Vec<String>>,
    pub world_settings: Option<Vec<WorldPreset<D, T>>>,
    pub disable_logic_filter: Option<bool>,
    pub seed: Option<String>,
    pub online: Option<bool>,
}

/// What the command line says about a preset.
pub struct PresetInfoArgs {
    /// Display name.
    pub name: Option<String>,
    /// Extended description.
    pub description: Option<String>,
    /// Mark this as a base preset.
    pub base_preset: bool,
}

/// What the command line says about one world.
pub struct WorldPresetSettings<D, T> {
    pub info: PresetInfoArgs,
    pub includes: Option<Vec<String>>,
    pub spawn: Option<SpawnOpt>,
    pub difficulty: Option<D>,
    pub tricks: Option<Vec<T>>,
    pub hard: bool,
    pub goals: Option<Vec<GoalsOpt>>,
    pub headers: Option<Vec<String>>,
    pub header_config: Option<Vec<HeaderConfigOpt>>,
    pub inline_headers: Option<Vec<InlineHeaderOpt>>,
}

/// `Some(true)` for a flag that is set, `None` for one that is not.
pub fn flag(set: bool) -> (value: Option<bool>)
    ensures
        value == if set {
            Some(true)
        } else {
            None::<bool>
        },
{
    if set {
        Some(true)
    } else {
        None
    }
}

/// The goals inside a list of goal options, in order.
pub fn goals_of(opts: Vec<GoalsOpt>) -> (goals: Vec<Goal>)
    ensures
        goals@.len() == opts@.len(),
        forall|k: int| 0 <= k < goals@.len() ==> #[trigger] goals@[k] == opts@[k].0,
{
    let mut goals: Vec<Goal> = Vec::new();
    for opt in it: opts
        invariant
            goals@.len() == it.index(),
            forall|k: int| 0 <= k < goals@.len() ==> #[trigger] goals@[k] == it.seq()[k].0,
    {
        goals.push(opt.into_inner());
    }
    goals
}

/// The header configurations inside a list of their options, in order.
pub fn header_configs_of(opts: Vec<HeaderConfigOpt>) -> (configs: Vec<HeaderConfig>)
    ensures
        configs@.len() == opts@.len(),
        forall|k: int| 0 <= k < configs@.len() ==> #[trigger] configs@[k] == opts@[k].0,
{
    let mut configs: Vec<HeaderConfig> = Vec::new();
    for opt in it: opts
        invariant
            configs@.len() == it.index(),
            forall|k: int| 0 <= k < configs@.len() ==> #[trigger] configs@[k] == it.seq()[k].0,
    {
        configs.push(opt.into_inner());
    }
    configs
}

/// The inline headers inside a list of their options, in order.
pub fn inline_headers_of(opts: Vec<InlineHeaderOpt>) -> (headers: Vec<InlineHeader>)
    ensures
        headers@.len() == opts@.len(),
        forall|k: int| 0 <= k < headers@.len() ==> #[trigger] headers@[k] == opts@[k].0,
{
    let mut headers: Vec<InlineHeader> = Vec::new();
    for opt in it: opts
        invariant
            headers@.len() == it.index(),
            forall|k: int| 0 <= k < headers@.len() ==> #[trigger] headers@[k] == it.seq()[k].0,
    {
        headers.push(opt.into_inner());
    }
    headers
}

impl PresetInfoArgs {
    /// The information that these arguments give, if they give any.
    pub open spec fn preset_info(self) -> Option<PresetInfo> {
        if self.name is None && self.description is None && !self.base_preset {
            None
        } else {
            Some(
                PresetInfo {
                    name: self.name,
                    description: self.description,
                    group: if self.base_preset {
                        Some(PresetGroup::Base)
                    } else {
                        None
                    },
                },
            )
        }
    }

    /// The information of a preset, or `None` where the command line gives
    /// none: no name, no description, and no mark as a base preset.
    pub fn into_preset_info(self) -> (info: Option<PresetInfo>)
        ensures
            info == self.preset_info(),
    {
        let PresetInfoArgs { name, description, base_preset } = self;
        if name.is_none() && description.is_none() && !base_preset {
            None
        } else {
            Some(
                PresetInfo {
                    name,
                    description,
                    group: if base_preset {
                        Some(PresetGroup::Base)
                    } else {
                        None
                    },
                },
            )
        }
    }
}

impl<D, T> WorldPresetSettings<D, T> {
    /// The preset for one world that the command line describes: every
    /// setting as given, and the flag `hard` only where it is set.
    pub fn into_world_preset(self) -> (preset: WorldPreset<D, T>)
        ensures
            preset.info == self.info.preset_info(),
            preset.includes == self.includes,
            match self.spawn {
                Some(opt) => preset.spawn == Some(opt.0),
                None => preset.spawn is None,
            },
            preset.difficulty == self.difficulty,
            preset.tricks == self.tricks,
            preset.hard == if self.hard {
                Some(true)
            } else {
                None::<bool>
            },
            match self.goals {
                Some(opts) => {
                    &&& preset.goals matches Some(goals)
                    &&& goals@.len() == opts@.len()
                    &&& forall|k: int| 0 <= k < goals@.len() ==> #[trigger] goals@[k] == opts@[k].0
                },
                None => preset.goals is None,
            },
            preset.headers == self.headers,
            match self.header_config {
                Some(opts) => {
                    &&& preset.header_config matches Some(configs)
                    &&& configs@.len() == opts@.len()
                    &&& forall|k: int|
                        0 <= k < configs@.len() ==> #[trigger] configs@[k] == opts@[k].0
                },
                None => preset.header_config is None,
            },
            match self.inline_headers {
                Some(opts) => {
                    &&& preset.inline_headers matches Some(headers)
                    &&& headers@.len() == opts@.len()
                    &&& forall|k: int|
                        0 <= k < headers@.len() ==> #[trigger] headers@[k] == opts@[k].0
                },
                None => preset.inline_headers is None,
            },
    {
        let WorldPresetSettings {
            info,
            includes,
            spawn,
            difficulty,
            tricks,
            hard,
            goals,
            headers,
            header_config,
            inline_headers,
        } = self;
        WorldPreset {
            info: info.into_preset_info(),
            includes,
            spawn: match spawn {
                Some(opt) => Some(opt.into_inner()),
                None => None,
            },
            difficulty,
            tricks,
            hard: flag(hard),
            goals: match goals {
                Some(opts) => Some(goals_of(opts)),
                None => None,
            },
            headers,
            header_config: match header_config {
                Some(opts) => Some(header_configs_of(opts)),
                None => None,
            },
            inline_headers: match inline_headers {
                Some(opts) => Some(inline_headers_of(opts)),
                None => None,
            },
        }
    }
}


/// What the command line says about a universe of worlds. The lists hold, in
/// the order of the command line, values and the selectors of the worlds they
/// are for.
pub struct SeedSettings<D, T> {
    /// Universe presets to start from.
    pub universe_presets: Option<Vec<String>>,
    /// World presets to start from.
    pub world_presets: Vec<WorldOpt<String>>,
    /// How many worlds to generate.
    pub worlds: usize,
    /// Spawn destination, one for each world at most.
    pub spawn: Vec<WorldOpt<SpawnOpt>>,
    /// Difficulty, one for each world at most.
    pub difficulty: Vec<WorldOpt<D>>,
    /// Tricks that may be required.
    pub tricks: Vec<WorldOpt<T>>,
    /// Whether to assume hard in-game difficulty, said once for each world at
    /// most.
    pub hard: Vec<WorldOpt<bool>>,
    /// Goals to meet before finishing the game.
    pub goals: Vec<WorldOpt<GoalsOpt>>,
    /// Names of headers to use.
    pub headers: Vec<WorldOpt<String>>,
    /// Configuration parameters to pass to headers.
    pub header_config: Vec<WorldOpt<HeaderConfigOpt>>,
    /// Headers written on the command line.
    pub inline_headers: Vec<WorldOpt<InlineHeaderOpt>>,
    /// Disallow the use of the in-logic filter while playing the seed.
    pub disable_logic_filter: bool,
    /// Require an online connection to play the seed.
    pub online: bool,
    /// Seed for the random number generator.
    pub seed: Option<String>,
}

/// The message of the first value in `opts` that is aimed at a world that
/// does not exist, if there is one.
pub open spec fn index_fault_text<X>(opts: Seq<WorldOpt<X>>, worlds: usize) -> Option<Seq<char>> {
    match first_index_fault(opts, worlds as int, opts.len() as int) {
        Some(fault) => Some(fault_message(opts, fault)),
        None => None,
    }
}

/// The message of the first value in `opts` that is aimed at a world that
/// does not exist or has a value already, if there is one.
pub open spec fn single_fault_text<X>(opts: Seq<WorldOpt<X>>, worlds: usize) -> Option<Seq<char>> {
    match first_single_fault(opts, worlds as int, opts.len() as int) {
        Some(fault) => Some(fault_message(opts, fault)),
        None => None,
    }
}

/// `first`, or `second` where `first` is `None`.
pub open spec fn or_else(first: Option<Seq<char>>, second: Option<Seq<char>>) -> Option<Seq<char>> {
    match first {
        Some(text) => Some(text),
        None => second,
    }
}

/// Whether `value` holds the values of `opts` that go to `world`, in order,
/// or is `None` where none goes there.
pub open spec fn listed<X: Clone>(opts: Seq<WorldOpt<X>>, world: int, value: Option<Vec<X>>) -> bool {
    let from = recipients(opts, opts.len() as int, world);
    if from.len() == 0 {
        value is None
    } else {
        value matches Some(values) && received(opts, from, values@)
    }
}

/// Whether `value` is the one value of `opts` that goes to `world`, or is
/// `None` where none goes there.
pub open spec fn chosen<X: Clone>(opts: Seq<WorldOpt<X>>, world: int, value: Option<X>) -> bool {
    holds(opts, holder(opts, opts.len() as int, world), value)
}

impl<D: Clone, T: Clone> SeedSettings<D, T> {
    /// The message of the first list that cannot be resolved, if there is
    /// one. The lists are taken in the order world presets, spawn,
    /// difficulty, tricks, hard, goals, headers, header configuration, inline
    /// headers.
    pub open spec fn fault_text(self) -> Option<Seq<char>> {
        or_else(
            index_fault_text(self.world_presets@, self.worlds),
            or_else(
                single_fault_text(self.spawn@, self.worlds),
                or_else(
                    single_fault_text(self.difficulty@, self.worlds),
                    or_else(
                        index_fault_text(self.tricks@, self.worlds),
                        or_else(
                            single_fault_text(self.hard@, self.worlds),
                            or_else(
                                index_fault_text(self.goals@, self.worlds),
                                or_else(
                                    index_fault_text(self.headers@, self.worlds),
                                    or_else(
                                        index_fault_text(self.header_config@, self.worlds),
                                        index_fault_text(self.inline_headers@, self.worlds),
                                    ),
                                ),
                            ),
                        ),
                    ),
                ),
            ),
        )
    }

    /// The preset for a universe that the command line describes: for each
    /// of the worlds one preset with the values that the lists give to that
    /// world, and the settings of the universe as given. A list that cannot be
    /// resolved stops it with the message of its first fault.
    pub fn into_universe_preset(self) -> (result: Result<UniversePreset<D, T>, String>)
        ensures
            match self.fault_text() {
                Some(text) => result matches Err(message) && message@ == text,
                None => {
                    &&& result matches Ok(preset)
                    &&& preset.info is None
                    &&& preset.includes == self.universe_presets
                    &&& preset.disable_logic_filter == if self.disable_logic_filter {
                        Some(true)
                    } else {
                        None::<bool>
                    }
                    &&& preset.seed == self.seed
                    &&& preset.online == if self.online {
                        Some(true)
                    } else {
                        None::<bool>
                    }
                    &&& preset.world_settings matches Some(world_settings)
                    &&& world_settings@.len() == self.worlds
                    &&& forall|world: int|
                        0 <= world < world_settings@.len() ==> self.world_resolved(
                            world,
                            #[trigger] world_settings@[world],
                        )
                },
            },
    {
        let ghost settings = self;
        let SeedSettings {
            universe_presets,
            world_presets,
            worlds,
            spawn,
            difficulty,
            tricks,
            hard,
            goals,
            headers,
            header_config,
            inline_headers,
            disable_logic_filter,
            online,
            seed,
        } = self;
        let mut world_presets = match resolve_world_opts(world_presets, worlds) {
            Ok(values) => values,
            Err(message) => {
                return Err(message);
            },
        };
        let mut world_spawns = match resolve_nonduplicate_world_opts(spawn, worlds) {
            Ok(values) => values,
            Err(message) => {
                return Err(message);
            },
        };
        let mut world_difficulties = match resolve_nonduplicate_world_opts(difficulty, worlds) {
            Ok(values) => values,
            Err(message) => {
                return Err(message);
            },
        };
        let mut world_tricks = match resolve_world_opts(tricks, worlds) {
            Ok(values) => values,
            Err(message) => {
                return Err(message);
            },
        };
        let mut world_hard_flags = match resolve_nonduplicate_world_opts(hard, worlds) {
            Ok(values) => values,
            Err(message) => {
                return Err(message);
            },
        };
        let mut world_goals = match resolve_world_opts(goals, worlds) {
            Ok(values) => values,
            Err(message) => {
                return Err(message);
            },
        };
        let mut world_headers = match resolve_world_opts(headers, worlds) {
            Ok(values) => values,
            Err(message) => {
                return Err(message);
            },
        };
        let mut world_header_configs = match resolve_world_opts(header_config, worlds) {
            Ok(values) => values,
            Err(message) => {
                return Err(message);
            },
        };
        let mut world_inline_headers = match resolve_world_opts(inline_headers, worlds) {
            Ok(values) => values,
            Err(message) => {
                return Err(message);
            },
        };
        let mut world_settings: Vec<WorldPreset<D, T>> = Vec::new();
        let mut left: usize = worlds;
        while left > 0
            invariant
                left <= worlds,
                worlds == settings.worlds,
                world_presets@.len() == left,
                world_spawns@.len() == left,
                world_difficulties@.len() == left,
                world_tricks@.len() == left,
                world_hard_flags@.len() == left,
                world_goals@.len() == left,
                world_headers@.len() == left,
                world_header_configs@.len() == left,
                world_inline_headers@.len() == left,
                forall|world: int|
                    0 <= world < left ==> received(
                        settings.world_presets@,
                        recipients(
                            settings.world_presets@,
                            settings.world_presets@.len() as int,
                            world,
                        ),
                        #[trigger] world_presets@[world]@,
                    ),
                forall|world: int|
                    0 <= world < left ==> chosen(
                        settings.spawn@,
                        world,
                        #[trigger] world_spawns@[world],
                    ),
                forall|world: int|
                    0 <= world < left ==> chosen(
                        settings.difficulty@,
                        world,
                        #[trigger] world_difficulties@[world],
                    ),
                forall|world: int|
                    0 <= world < left ==> received(
                        settings.tricks@,
                        recipients(settings.tricks@, settings.tricks@.len() as int, world),
                        #[trigger] world_tricks@[world]@,
                    ),
                forall|world: int|
                    0 <= world < left ==> chosen(
                        settings.hard@,
                        world,
                        #[trigger] world_hard_flags@[world],
                    ),
                forall|world: int|
                    0 <= world < left ==> received(
                        settings.goals@,
                        recipients(settings.goals@, settings.goals@.len() as int, world),
                        #[trigger] world_goals@[world]@,
                    ),
                forall|world: int|
                    0 <= world < left ==> received(
                        settings.headers@,
                        recipients(settings.headers@, settings.headers@.len() as int, world),
                        #[trigger] world_headers@[world]@,
                    ),
                forall|world: int|
                    0 <= world < left ==> received(
                        settings.header_config@,
                        recipients(
                            settings.header_config@,
                            settings.header_config@.len() as int,
                            world,
                        ),
                        #[trigger] world_header_configs@[world]@,
                    ),
                forall|world: int|
                    0 <= world < left ==> received(
                        settings.inline_headers@,
                        recipients(
                            settings.inline_headers@,
                            settings.inline_headers@.len() as int,
                            world,
                        ),
                        #[trigger] world_inline_headers@[world]@,
                    ),
                world_settings@.len() == worlds - left,
                forall|k: int|
                    0 <= k < world_settings@.len() ==> settings.world_resolved(
                        left + k,
                        #[trigger] world_settings@[k],
                    ),
            decreases left,
        {
            let ghost world = left - 1;
            assert(received(
                settings.world_presets@,
                recipients(settings.world_presets@, settings.world_presets@.len() as int, world),
                world_presets@[world]@,
            ));
            assert(chosen(settings.spawn@, world, world_spawns@[world]));
            assert(chosen(settings.difficulty@, world, world_difficulties@[world]));
            assert(received(
                settings.tricks@,
                recipients(settings.tricks@, settings.tricks@.len() as int, world),
                world_tricks@[world]@,
            ));
            assert(chosen(settings.hard@, world, world_hard_flags@[world]));
            assert(received(
                settings.goals@,
                recipients(settings.goals@, settings.goals@.len() as int, world),
                world_goals@[world]@,
            ));
            assert(received(
                settings.headers@,
                recipients(settings.headers@, settings.headers@.len() as int, world),
                world_headers@[world]@,
            ));
            assert(received(
                settings.header_config@,
                recipients(settings.header_config@, settings.header_config@.len() as int, world),
                world_header_configs@[world]@,
            ));
            assert(received(
                settings.inline_headers@,
                recipients(settings.inline_headers@, settings.inline_headers@.len() as int, world),
                world_inline_headers@[world]@,
            ));
            let includes = world_presets.pop().unwrap();
            let spawn = world_spawns.pop().unwrap();
            let difficulty = world_difficulties.pop().unwrap();
            let tricks = world_tricks.pop().unwrap();
            let hard = world_hard_flags.pop().unwrap();
            let goals = world_goals.pop().unwrap();
            let headers = world_headers.pop().unwrap();
            let header_config = world_header_configs.pop().unwrap();
            let inline_headers = world_inline_headers.pop().unwrap();
            let ghost goal_opts = if goals@.len() == 0 {
                None
            } else {
                Some(goals)
            };
            let ghost config_opts = if header_config@.len() == 0 {
                None
            } else {
                Some(header_config)
            };
            let ghost inline_opts = if inline_headers@.len() == 0 {
                None
            } else {
                Some(inline_headers)
            };
            let preset = WorldPreset {
                info: None,
                includes: vec_in_option(includes),
                spawn: match spawn {
                    Some(opt) => Some(opt.into_inner()),
                    None => None,
                },
                difficulty,
                tricks: vec_in_option(tricks),
                goals: vec_in_option(goals_of(goals)),
                hard,
                headers: vec_in_option(headers),
                header_config: vec_in_option(header_configs_of(header_config)),
                inline_headers: vec_in_option(inline_headers_of(inline_headers)),
            };
            proof {
                assert(listed(settings.goals@, world, goal_opts));
                assert(unwrapped_goals(goal_opts, preset.goals));
                assert(listed(settings.header_config@, world, config_opts));
                assert(unwrapped_header_configs(config_opts, preset.header_config));
                assert(listed(settings.inline_headers@, world, inline_opts));
                assert(unwrapped_inline_headers(inline_opts, preset.inline_headers));
                assert(settings.world_resolved(world, preset));
            }
            let ghost before = world_settings@;
            world_settings.insert(0, preset);
            proof {
                assert forall|k: int| 0 <= k < world_settings@.len() implies settings.world_resolved(
                    left - 1 + k,
                    #[trigger] world_settings@[k],
                ) by {
                    if k > 0 {
                        assert(world_settings@[k] == before[k - 1]);
                    }
                }
            }
            left -= 1;
        }
        Ok(
            UniversePreset {
                info: None,
                includes: universe_presets,
                world_settings: Some(world_settings),
                disable_logic_filter: flag(disable_logic_filter),
                seed,
                online: flag(online),
            },
        )
    }

    /// Whether `preset` holds what the lists give to `world`.
    pub open spec fn world_resolved(self, world: int, preset: WorldPreset<D, T>) -> bool {
        &&& preset.info is None
        &&& listed(self.world_presets@, world, preset.includes)
        &&& chosen(
            self.spawn@,
            world,
            match preset.spawn {
                Some(spawn) => Some(SpawnOpt(spawn)),
                None => None,
            },
        )
        &&& chosen(self.difficulty@, world, preset.difficulty)
        &&& listed(self.tricks@, world, preset.tricks)
        &&& chosen(self.hard@, world, preset.hard)
        &&& exists|goals: Option<Vec<GoalsOpt>>|
            {
                &&& #[trigger] listed(self.goals@, world, goals)
                &&& unwrapped_goals(goals, preset.goals)
            }
        &&& listed(self.headers@, world, preset.headers)
        &&& exists|configs: Option<Vec<HeaderConfigOpt>>|
            {
                &&& #[trigger] listed(self.header_config@, world, configs)
                &&& unwrapped_header_configs(configs, preset.header_config)
            }
        &&& exists|headers: Option<Vec<InlineHeaderOpt>>|
            {
                &&& #[trigger] listed(self.inline_headers@, world, headers)
                &&& unwrapped_inline_headers(headers, preset.inline_headers)
            }
    }
}

/// Whether `goals` holds what is inside `opts`, one for one.
pub open spec fn unwrapped_goals(opts: Option<Vec<GoalsOpt>>, goals: Option<Vec<Goal>>) -> bool {
    match opts {
        Some(opts) => {
            &&& goals matches Some(goals)
            &&& goals@.len() == opts@.len()
            &&& forall|k: int| 0 <= k < goals@.len() ==> #[trigger] goals@[k] == opts@[k].0
        },
        None => goals is None,
    }
}

/// Whether `configs` holds what is inside `opts`, one for one.
pub open spec fn unwrapped_header_configs(
    opts: Option<Vec<HeaderConfigOpt>>,
    configs: Option<Vec<HeaderConfig>>,
) -> bool {
    match opts {
        Some(opts) => {
            &&& configs matches Some(configs)
            &&& configs@.len() == opts@.len()
            &&& forall|k: int| 0 <= k < configs@.len() ==> #[trigger] configs@[k] == opts@[k].0
        },
        None => configs is None,
    }
}

/// Whether `headers` holds what is inside `opts`, one for one.
pub open spec fn unwrapped_inline_headers(
    opts: Option<Vec<InlineHeaderOpt>>,
    headers: Option<Vec<InlineHeader>>,
) -> bool {
    match opts {
        Some(opts) => {
            &&& headers matches Some(headers)
            &&& headers@.len() == opts@.len()
            &&& forall|k: int| 0 <= k < headers@.len() ==> #[trigger] headers@[k] == opts@[k].0
        },
        None => headers is None,
    }
}

} // verus!
