//! The values of command-line options, read from their text.

use vstd::prelude::*;
use crate::text::{
    parse_bounded, parse_number, same_text, split_at_first, split_once, strip_suffix,
};

verus! {

/// Where a world spawns.
pub enum Spawn {
    /// At the anchor of this name.
    Anchor(String),
    /// At a random teleporter.
    Random,
    /// At any location.
    FullyRandom,
}

/// Newtype to parse the spawn flag.
pub struct SpawnOpt(pub Spawn);

/// A goal that has to be met before the game can be finished.
pub enum Goal {
    Trees,
    Wisps,
    Quests,
    /// This many relics.
    Relics(usize),
    /// A relic in each area with this chance, written in percent.
    RelicChance(String),
}

/// Newtype to parse the goals flag.
pub struct GoalsOpt(pub Goal);

/// A configuration parameter passed to a header.
pub struct HeaderConfig {
    pub header_name: String,
    pub config_name: String,
    pub config_value: String,
}

/// Newtype to parse a header configuration.
pub struct HeaderConfigOpt(pub HeaderConfig);

/// A header written on the command line.
pub struct InlineHeader {
    pub name: Option<String>,
    pub content: String,
}

/// Newtype to parse inline headers.
pub struct InlineHeaderOpt(pub InlineHeader);

/// Something the player holds or has done when reach is checked. Skills,
/// teleporters and shards are kept as the text that names them.
pub enum ReachData {
    Skill(String),
    Teleporter(String),
    Shard(String),
    Water,
    Node(String),
}

impl Clone for Spawn {
    fn clone(&self) -> (res: Self)
        ensures
            res == *self,
    {
        match self {
            Spawn::Anchor(name) => Spawn::Anchor(name.clone()),
            Spawn::Random => Spawn::Random,
            Spawn::FullyRandom => Spawn::FullyRandom,
        }
    }
}

impl Clone for SpawnOpt {
    fn clone(&self) -> (res: Self)
        ensures
            res == *self,
    {
        SpawnOpt(self.0.clone())
    }
}

impl Clone for Goal {
    fn clone(&self) -> (res: Self)
        ensures
            res == *self,
    {
        match self {
            Goal::Trees => Goal::Trees,
            Goal::Wisps => Goal::Wisps,
            Goal::Quests => Goal::Quests,
            Goal::Relics(amount) => Goal::Relics(*amount),
            Goal::RelicChance(chance) => Goal::RelicChance(chance.clone()),
        }
    }
}

impl Clone for GoalsOpt {
    fn clone(&self) -> (res: Self)
        ensures
            res == *self,
    {
        GoalsOpt(self.0.clone())
    }
}

impl Clone for HeaderConfig {
    fn clone(&self) -> (res: Self)
        ensures
            res == *self,
    {
        HeaderConfig {
            header_name: self.header_name.clone(),
            config_name: self.config_name.clone(),
            config_value: self.config_value.clone(),
        }
    }
}

impl Clone for HeaderConfigOpt {
    fn clone(&self) -> (res: Self)
        ensures
            res == *self,
    {
        HeaderConfigOpt(self.0.clone())
    }
}

impl Clone for InlineHeader {
    fn clone(&self) -> (res: Self)
        ensures
            res == *self,
    {
        InlineHeader {
            name: match &self.name {
                Some(name) => Some(name.clone()),
                None => None,
            },
            content: self.content.clone(),
        }
    }
}

impl Clone for InlineHeaderOpt {
    fn clone(&self) -> (res: Self)
        ensures
            res == *self,
    {
        InlineHeaderOpt(self.0.clone())
    }
}

/// A clone of an option is the option over again.
pub proof fn lemma_clones_are_equal()
    ensures
        forall|a: SpawnOpt, b: SpawnOpt| #[trigger] vstd::pervasive::cloned(a, b) ==> a == b,
        forall|a: GoalsOpt, b: GoalsOpt| #[trigger] vstd::pervasive::cloned(a, b) ==> a == b,
        forall|a: HeaderConfigOpt, b: HeaderConfigOpt| #[trigger]
            vstd::pervasive::cloned(a, b) ==> a == b,
        forall|a: InlineHeaderOpt, b: InlineHeaderOpt| #[trigger]
            vstd::pervasive::cloned(a, b) ==> a == b,
{
}

/// The lower-case form of a text.
pub uninterp spec fn lowercase(text: Seq<char>) -> Seq<char>;

/// `str::to_lowercase`: the text with every character in lower case.
#[verifier::external_body]
fn to_lowercase(text: &str) -> (lowered: String)
    ensures
        lowered@ == lowercase(text@),
{
    text.to_lowercase()
}

/// The chance of a relic, in percent, where the goal names none.
pub open spec fn default_relic_chance() -> Seq<char> {
    "60"@
}

/// The most relics that a goal can ask for.
pub const MAX_RELICS: usize = 11;

/// The message for a goal of an unknown name.
pub open spec fn unknown_goal_message(identifier: Seq<char>) -> Seq<char> {
    "Unknown goal "@ + identifier
}

/// The message for more relics than there can be.
pub open spec fn invalid_amount_message(goal: Seq<char>) -> Seq<char> {
    "Invalid amount in details string for goal "@ + goal
}

/// The message for details of relics that are neither a number nor a chance.
pub open spec fn expected_amount_message(goal: Seq<char>) -> Seq<char> {
    "expected amount or % expression in details string for goal "@ + goal
}

/// The message for a chance of relics that is no number from 0 to 100.
pub open spec fn invalid_chance_message(goal: Seq<char>) -> Seq<char> {
    "Invalid chance in details string for goal "@ + goal
}

/// The message for a header configuration without a dot in its name.
pub open spec fn expected_header_parameter_message(parameter: Seq<char>) -> Seq<char> {
    "Expected <header>.<parameter> in header configuration parameter "@ + parameter
}

/// The message for a world event other than `0`.
pub open spec fn unknown_world_event_message(data: Seq<char>) -> Seq<char> {
    "Unknown world event \""@ + data + "\""@
}

/// The message for reach data of an unknown kind.
pub open spec fn invalid_reach_data_message() -> Seq<char> {
    "Innvalid arg \"{s}\", args have to start with s:, t:, sh:, w: or n:"@
}

/// The name of a goal and its details: what stands before and after the
/// first colon, or the whole text and no details.
pub open spec fn goal_parts(text: Seq<char>) -> (Seq<char>, Seq<char>) {
    match split_at_first(text, ':') {
        Some(parts) => parts,
        None => (text, Seq::empty()),
    }
}

/// The name of a header parameter and its value: what stands before and
/// after the first `=`, or the whole text and the value `true`.
pub open spec fn header_config_parts(text: Seq<char>) -> (Seq<char>, Seq<char>) {
    match split_at_first(text, '=') {
        Some(parts) => parts,
        None => (text, "true"@),
    }
}

/// `message` followed by `text`.
fn with_text(message: &str, text: &str) -> (whole: String)
    ensures
        whole@ == message@ + text@,
{
    let mut whole = String::from_str(message);
    whole.append(text);
    whole
}

impl SpawnOpt {
    /// The spawn inside.
    pub fn into_inner(self) -> (spawn: Spawn)
        ensures
            spawn == self.0,
    {
        self.0
    }

    /// Whether `spawn` is what the text `source` with the lower-case form
    /// `lowered` names.
    pub open spec fn named(lowered: Seq<char>, source: Seq<char>, spawn: Spawn) -> bool {
        if lowered == "r"@ || lowered == "random"@ {
            spawn is Random
        } else if lowered == "f"@ || lowered == "fullyrandom"@ {
            spawn is FullyRandom
        } else {
            spawn matches Spawn::Anchor(name) && name@ == source
        }
    }

    /// The spawn that `source` names, given its lower-case form: `r` or
    /// `random`, `f` or `fullyrandom` in any case, or else an anchor by its
    /// name as written.
    pub fn from_lowercase(lowered: &str, source: &str) -> (opt: SpawnOpt)
        ensures
            SpawnOpt::named(lowered@, source@, opt.0),
    {
        proof {
            reveal_strlit("r");
            reveal_strlit("random");
            reveal_strlit("f");
            reveal_strlit("fullyrandom");
        }
        let spawn = if same_text(lowered, "r") || same_text(lowered, "random") {
            Spawn::Random
        } else if same_text(lowered, "f") || same_text(lowered, "fullyrandom") {
            Spawn::FullyRandom
        } else {
            Spawn::Anchor(String::from_str(source))
        };
        SpawnOpt(spawn)
    }

    /// Reads a spawn: every text is one.
    pub fn from_str(s: &str) -> (result: Result<SpawnOpt, String>)
        ensures
            result matches Ok(opt) && SpawnOpt::named(lowercase(s@), s@, opt.0),
    {
        let lowered = to_lowercase(s);
        Ok(SpawnOpt::from_lowercase(lowered.as_str(), s))
    }
}

impl GoalsOpt {
    /// The goal inside.
    pub fn into_inner(self) -> (goal: Goal)
        ensures
            goal == self.0,
    {
        self.0
    }

    /// What a goal reads as. `Err` holds the message for a text that names no
    /// goal.
    pub open spec fn parsed(text: Seq<char>, goal: Goal) -> bool {
        let (identifier, details) = goal_parts(text);
        if identifier == "t"@ || identifier == "trees"@ {
            goal is Trees
        } else if identifier == "w"@ || identifier == "wisps"@ {
            goal is Wisps
        } else if identifier == "q"@ || identifier == "quests"@ {
            goal is Quests
        } else if identifier == "r"@ || identifier == "relics"@ {
            if details.len() == 0 {
                goal matches Goal::RelicChance(chance) && chance@ == default_relic_chance()
            } else if details.last() == '%' {
                goal matches Goal::RelicChance(chance) && chance@ == details.drop_last()
            } else {
                goal matches Goal::Relics(amount) && parse_bounded(details, MAX_RELICS as nat)
                    == Some(amount as nat)
            }
        } else {
            false
        }
    }

    /// The message for a text that names no goal, if it names none.
    pub open spec fn refused(text: Seq<char>) -> Option<Seq<char>> {
        let (identifier, details) = goal_parts(text);
        if identifier == "t"@ || identifier == "trees"@ || identifier == "w"@ || identifier
            == "wisps"@ || identifier == "q"@ || identifier == "quests"@ {
            None
        } else if identifier == "r"@ || identifier == "relics"@ {
            if details.len() == 0 || details.last() == '%' {
                None
            } else if parse_bounded(details, usize::MAX as nat) is None {
                Some(expected_amount_message(text))
            } else if parse_bounded(details, MAX_RELICS as nat) is None {
                Some(invalid_amount_message(text))
            } else {
                None
            }
        } else {
            Some(unknown_goal_message(identifier))
        }
    }

    /// Reads a goal: its name or the first letter of it, and for relics,
    /// behind a colon, their number or the chance of one in percent. The
    /// chance is kept as it is written; sixty percent where none is written.
    pub fn from_str(s: &str) -> (result: Result<GoalsOpt, String>)
        ensures
            match GoalsOpt::refused(s@) {
                Some(message) => result matches Err(text) && text@ == message,
                None => result matches Ok(opt) && GoalsOpt::parsed(s@, opt.0),
            },
    {
        proof {
            reveal_strlit("t");
            reveal_strlit("trees");
            reveal_strlit("w");
            reveal_strlit("wisps");
            reveal_strlit("q");
            reveal_strlit("quests");
            reveal_strlit("r");
            reveal_strlit("relics");
            reveal_strlit("");
        }
        let (identifier, details) = match split_once(s, ':') {
            Some(parts) => parts,
            None => (s, ""),
        };
        assert(details@ =~= goal_parts(s@).1);
        let goal = if same_text(identifier, "t") || same_text(identifier, "trees") {
            Goal::Trees
        } else if same_text(identifier, "w") || same_text(identifier, "wisps") {
            Goal::Wisps
        } else if same_text(identifier, "q") || same_text(identifier, "quests") {
            Goal::Quests
        } else if same_text(identifier, "r") || same_text(identifier, "relics") {
            if details.is_empty() {
                Goal::RelicChance(String::from_str("60"))
            } else {
                match strip_suffix(details, '%') {
                    Some(chance) => Goal::RelicChance(String::from_str(chance)),
                    None => {
                        let amount = match parse_number(details, usize::MAX as u64) {
                            Some(amount) => amount as usize,
                            None => {
                                return Err(
                                    with_text(
                                        "expected amount or % expression in details string for goal ",
                                        s,
                                    ),
                                );
                            },
                        };
                        if amount > MAX_RELICS {
                            return Err(with_text("Invalid amount in details string for goal ", s));
                        }
                        Goal::Relics(amount)
                    },
                }
            }
        } else {
            return Err(with_text("Unknown goal ", identifier));
        };
        Ok(GoalsOpt(goal))
    }
}

/// The message for a chance of relics that is no number between 0 and 100.
pub fn invalid_chance(goal: &str) -> (message: String)
    ensures
        message@ == invalid_chance_message(goal@),
{
    with_text("Invalid chance in details string for goal ", goal)
}

impl HeaderConfigOpt {
    /// The header configuration inside.
    pub fn into_inner(self) -> (config: HeaderConfig)
        ensures
            config == self.0,
    {
        self.0
    }

    /// Reads `<header>.<parameter>=<value>`; without `=<value>` the value is
    /// `true`. The name in front of the first `=` has to hold a dot: the header
    /// is what stands before the first one, the parameter what stands after it.
    pub fn from_str(s: &str) -> (result: Result<HeaderConfigOpt, String>)
        ensures
            match split_at_first(header_config_parts(s@).0, '.') {
                Some((header_name, config_name)) => {
                    &&& result matches Ok(opt)
                    &&& opt.0.header_name@ == header_name
                    &&& opt.0.config_name@ == config_name
                    &&& opt.0.config_value@ == header_config_parts(s@).1
                },
                None => result matches Err(message) && message@
                    == expected_header_parameter_message(s@),
            },
    {
        let (identifier, config_value) = match split_once(s, '=') {
            Some(parts) => parts,
            None => (s, "true"),
        };
        let (header_name, config_name) = match split_once(identifier, '.') {
            Some(parts) => parts,
            None => {
                return Err(
                    with_text("Expected <header>.<parameter> in header configuration parameter ", s),
                );
            },
        };
        Ok(
            HeaderConfigOpt(
                HeaderConfig {
                    header_name: String::from_str(header_name),
                    config_name: String::from_str(config_name),
                    config_value: String::from_str(config_value),
                },
            ),
        )
    }
}

impl InlineHeaderOpt {
    /// The inline header inside.
    pub fn into_inner(self) -> (header: InlineHeader)
        ensures
            header == self.0,
    {
        self.0
    }

    /// Reads an inline header: every text is the content of one without a
    /// name.
    pub fn from_str(s: &str) -> (result: Result<InlineHeaderOpt, String>)
        ensures
            result matches Ok(opt) && opt.0.name is None && opt.0.content@ == s@,
    {
        Ok(InlineHeaderOpt(InlineHeader { name: None, content: String::from_str(s) }))
    }
}

impl ReachData {
    /// Reads `<kind>:<data>`: a skill `s`, a teleporter `t`, a shard `sh`, the
    /// world event `w:0`, or a node `n`.
    pub fn from_str(s: &str) -> (result: Result<ReachData, String>)
        ensures
            match split_at_first(s@, ':') {
                None => result matches Err(message) && message@ == "Expected <kind>:<data>"@,
                Some((kind, data)) => {
                    if kind == "s"@ {
                        result matches Ok(ReachData::Skill(skill)) && skill@ == data
                    } else if kind == "t"@ {
                        result matches Ok(ReachData::Teleporter(teleporter)) && teleporter@ == data
                    } else if kind == "sh"@ {
                        result matches Ok(ReachData::Shard(shard)) && shard@ == data
                    } else if kind == "w"@ {
                        if data == "0"@ {
                            result matches Ok(ReachData::Water)
                        } else {
                            result matches Err(message) && message@ == unknown_world_event_message(
                                data,
                            )
                        }
                    } else if kind == "n"@ {
                        result matches Ok(ReachData::Node(node)) && node@ == data
                    } else {
                        result matches Err(message) && message@ == invalid_reach_data_message()
                    }
                },
            },
    {
        proof {
            reveal_strlit("s");
            reveal_strlit("t");
            reveal_strlit("sh");
            reveal_strlit("w");
            reveal_strlit("n");
            reveal_strlit("0");
        }
        let (kind, data) = match split_once(s, ':') {
            Some(parts) => parts,
            None => {
                return Err(String::from_str("Expected <kind>:<data>"));
            },
        };
        if same_text(kind, "s") {
            Ok(ReachData::Skill(String::from_str(data)))
        } else if same_text(kind, "t") {
            Ok(ReachData::Teleporter(String::from_str(data)))
        } else if same_text(kind, "sh") {
            Ok(ReachData::Shard(String::from_str(data)))
        } else if same_text(kind, "w") {
            if same_text(data, "0") {
                Ok(ReachData::Water)
            } else {
                let mut message = with_text("Unknown world event \"", data);
                message.append("\"");
                Err(message)
            }
        } else if same_text(kind, "n") {
            Ok(ReachData::Node(String::from_str(data)))
        } else {
            Err(
                String::from_str(
                    "Innvalid arg \"{s}\", args have to start with s:, t:, sh:, w: or n:",
                ),
            )
        }
    }
}

} // verus!
