//! Command-line options that mix world selectors with values.
//!
//! An option list is read from the front. A selector `:N` names the world that
//! the values after it are for; values in front of the first selector are for
//! every world.

use vstd::prelude::*;
use vstd::pervasive::cloned;
use crate::text::{decimal, parse_bounded, parse_number, push_decimal, strip_prefix};

verus! {

/// One entry of an option list: a world selector or a value.
pub enum WorldOptInner<T> {
    World(usize),
    Opt(T),
}

/// An entry of an option list together with the text it was read from.
pub struct WorldOpt<T> {
    pub source: String,
    pub inner: WorldOptInner<T>,
}

/// Why a text is no entry of an option list.
pub enum WorldOptError<E> {
    /// The text behind the colon of a selector is no world index.
    IndexError(String),
    /// The text is no value.
    ValueError(E),
}

/// The message for a selector without a world index.
pub open spec fn invalid_index_message(index: Seq<char>) -> Seq<char> {
    "Invalid world index :"@ + index
}

impl WorldOptError<String> {
    /// The text of the error: that of the value, or one that names the
    /// selector.
    pub fn message(&self) -> (message: String)
        ensures
            message@ == match self {
                WorldOptError::IndexError(index) => invalid_index_message(index@),
                WorldOptError::ValueError(error) => error@,
            },
    {
        match self {
            WorldOptError::IndexError(index) => {
                let mut message = String::from_str("Invalid world index :");
                message.append(index.as_str());
                message
            },
            WorldOptError::ValueError(error) => error.clone(),
        }
    }
}

impl<T> WorldOpt<T> {
    /// Whether `text` is a world selector: whether it begins with a colon.
    pub open spec fn is_selector(text: Seq<char>) -> bool {
        text.len() > 0 && text[0] == ':'
    }

    /// Reads one entry of an option list. A text that begins with a colon is
    /// a selector, and what follows the colon has to be the index of a world.
    /// Any other text is a value, and is whatever `parse_value` makes of it.
    pub fn from_str<E, F: FnOnce() -> Result<T, E>>(s: &str, parse_value: F) -> (result: Result<
        WorldOpt<T>,
        WorldOptError<E>,
    >)
        requires
            !Self::is_selector(s@) ==> parse_value.requires(()),
        ensures
            Self::is_selector(s@) ==> match parse_bounded(s@.skip(1), usize::MAX as nat) {
                Some(index) => {
                    &&& result matches Ok(opt)
                    &&& opt.source@ == s@
                    &&& opt.inner matches WorldOptInner::World(world)
                    &&& world == index
                },
                None => result matches Err(WorldOptError::IndexError(index)) && index@ == s@.skip(1),
            },
            !Self::is_selector(s@) ==> exists|value: Result<T, E>|
                {
                    &&& parse_value.ensures((), value)
                    &&& match value {
                        Ok(value) => {
                            &&& result matches Ok(opt)
                            &&& opt.source@ == s@
                            &&& opt.inner == WorldOptInner::Opt(value)
                        },
                        Err(error) => result matches Err(WorldOptError::ValueError(e)) && e == error,
                    }
                },
    {
        let inner = match strip_prefix(s, ':') {
            Some(world) => match parse_number(world, usize::MAX as u64) {
                Some(index) => WorldOptInner::World(index as usize),
                None => {
                    return Err(WorldOptError::IndexError(String::from_str(world)));
                },
            },
            None => match parse_value() {
                Ok(value) => WorldOptInner::Opt(value),
                Err(error) => {
                    return Err(WorldOptError::ValueError(error));
                },
            },
        };
        Ok(WorldOpt { source: String::from_str(s), inner })
    }
}

/// Why an option list cannot be resolved.
pub enum Fault {
    /// A value is meant for a world that does not exist.
    Index(usize),
    /// The entry at `source` brings a second value to a world that already
    /// has the value of the entry at `prior`.
    Duplicate { source: int, prior: int },
}

/// The world selected in front of entry `i`: that of the last selector among
/// the entries before it.
pub open spec fn selected_world<T>(opts: Seq<WorldOpt<T>>, i: int) -> Option<usize>
    decreases i,
{
    if i <= 0 {
        None
    } else {
        match opts[i - 1].inner {
            WorldOptInner::World(world) => Some(world),
            WorldOptInner::Opt(_) => selected_world(opts, i - 1),
        }
    }
}

/// Whether entry `i` is a value that goes to `world`.
pub open spec fn targets<T>(opts: Seq<WorldOpt<T>>, i: int, world: int) -> bool {
    &&& opts[i].inner is Opt
    &&& match selected_world(opts, i) {
        Some(selected) => selected == world,
        None => true,
    }
}

/// The entries among the first `n` whose values go to `world`, in order.
pub open spec fn recipients<T>(opts: Seq<WorldOpt<T>>, n: int, world: int) -> Seq<int>
    decreases n,
{
    if n <= 0 {
        Seq::empty()
    } else if targets(opts, n - 1, world) {
        recipients(opts, n - 1, world).push(n - 1)
    } else {
        recipients(opts, n - 1, world)
    }
}

/// The first entry among the first `n` whose value goes to `world`.
pub open spec fn holder<T>(opts: Seq<WorldOpt<T>>, n: int, world: int) -> Option<int>
    decreases n,
{
    if n <= 0 {
        None
    } else {
        match holder(opts, n - 1, world) {
            Some(j) => Some(j),
            None => if targets(opts, n - 1, world) {
                Some(n - 1)
            } else {
                None
            },
        }
    }
}

/// The holder of the lowest world below `worlds` that has one.
pub open spec fn first_holder<T>(opts: Seq<WorldOpt<T>>, n: int, worlds: int) -> Option<int>
    decreases worlds,
{
    if worlds <= 0 {
        None
    } else {
        match first_holder(opts, n, worlds - 1) {
            Some(j) => Some(j),
            None => holder(opts, n, worlds - 1),
        }
    }
}

/// The world that value entry `i` cannot reach, if it selects one past the end.
pub open spec fn index_fault<T>(opts: Seq<WorldOpt<T>>, worlds: int, i: int) -> Option<Fault> {
    match opts[i].inner {
        WorldOptInner::World(_) => None,
        WorldOptInner::Opt(_) => match selected_world(opts, i) {
            Some(world) => if world >= worlds {
                Some(Fault::Index(world))
            } else {
                None
            },
            None => None,
        },
    }
}

/// What goes wrong at entry `i` when each world takes one value at most and
/// the entries before it were in order.
pub open spec fn single_fault<T>(opts: Seq<WorldOpt<T>>, worlds: int, i: int) -> Option<Fault> {
    match opts[i].inner {
        WorldOptInner::World(_) => None,
        WorldOptInner::Opt(_) => match selected_world(opts, i) {
            Some(world) => if world >= worlds {
                Some(Fault::Index(world))
            } else {
                match holder(opts, i, world as int) {
                    Some(prior) => Some(Fault::Duplicate { source: i, prior }),
                    None => None,
                }
            },
            None => match first_holder(opts, i, worlds) {
                Some(prior) => Some(Fault::Duplicate { source: i, prior }),
                None => None,
            },
        },
    }
}

/// The first index fault among the first `n` entries.
pub open spec fn first_index_fault<T>(opts: Seq<WorldOpt<T>>, worlds: int, n: int) -> Option<Fault>
    decreases n,
{
    if n <= 0 {
        None
    } else {
        match first_index_fault(opts, worlds, n - 1) {
            Some(fault) => Some(fault),
            None => index_fault(opts, worlds, n - 1),
        }
    }
}

/// The first fault among the first `n` entries when each world takes one
/// value at most.
pub open spec fn first_single_fault<T>(opts: Seq<WorldOpt<T>>, worlds: int, n: int) -> Option<Fault>
    decreases n,
{
    if n <= 0 {
        None
    } else {
        match first_single_fault(opts, worlds, n - 1) {
            Some(fault) => Some(fault),
            None => single_fault(opts, worlds, n - 1),
        }
    }
}

/// The message for a second value for one world.
pub open spec fn duplicate_message(source: Seq<char>, prior: Seq<char>) -> Seq<char> {
    "Provided multiple values for the same world: "@ + source + " and "@ + prior
}

/// The message for a value meant for a world that does not exist.
pub open spec fn index_message(index: nat) -> Seq<char> {
    "World index "@ + decimal(index) + " greater than number of worlds"@
}

/// The message that reports `fault` of the option list `opts`.
pub open spec fn fault_message<T>(opts: Seq<WorldOpt<T>>, fault: Fault) -> Seq<char> {
    match fault {
        Fault::Index(world) => index_message(world as nat),
        Fault::Duplicate { source, prior } => duplicate_message(
            opts[source].source@,
            opts[prior].source@,
        ),
    }
}

/// Wraps a vector in `Some`, or gives `None` for an empty one.
pub fn vec_in_option<T>(vector: Vec<T>) -> (result: Option<Vec<T>>)
    ensures
        vector@.len() == 0 ==> result is None,
        vector@.len() > 0 ==> result == Some(vector),
{
    if vector.len() == 0 {
        None
    } else {
        Some(vector)
    }
}

/// The message for a value meant for the world `index`, which does not exist.
fn index_error(index: usize) -> (message: String)
    ensures
        message@ == index_message(index as nat),
{
    let mut message = String::from_str("World index ");
    push_decimal(&mut message, index as u64);
    message.append(" greater than number of worlds");
    message
}

/// Gives a world its value unless it has one already. The second value is
/// refused with a message that names both sources, and the entry stays as it
/// was.
pub fn assign_nonduplicate<T>(
    assign: T,
    current_world_entry: &mut Option<(T, String)>,
    source: String,
) -> (result: Result<(), String>)
    ensures
        match *old(current_world_entry) {
            Some((_, prior_source)) => {
                &&& result matches Err(message)
                &&& message@ == duplicate_message(source@, prior_source@)
                &&& *final(current_world_entry) == *old(current_world_entry)
            },
            None => {
                &&& result is Ok
                &&& *final(current_world_entry) == Some((assign, source))
            },
        },
{
    match current_world_entry {
        Some((_, prior_source)) => {
            let mut message = String::from_str("Provided multiple values for the same world: ");
            message.append(source.as_str());
            message.append(" and ");
            message.append(prior_source.as_str());
            Err(message)
        },
        None => {
            *current_world_entry = Some((assign, source));
            Ok(())
        },
    }
}


/// Once a prefix of an option list has an index fault, every longer prefix has
/// the same one.
pub proof fn lemma_index_fault_stays<T>(opts: Seq<WorldOpt<T>>, worlds: int, n: int, m: int)
    requires
        0 <= n <= m,
        first_index_fault(opts, worlds, n) is Some,
    ensures
        first_index_fault(opts, worlds, m) == first_index_fault(opts, worlds, n),
    decreases m - n,
{
    if n < m {
        lemma_index_fault_stays(opts, worlds, n, m - 1);
    }
}

/// Once a prefix of an option list has a fault under the rule of one value for
/// each world, every longer prefix has the same one.
pub proof fn lemma_single_fault_stays<T>(opts: Seq<WorldOpt<T>>, worlds: int, n: int, m: int)
    requires
        0 <= n <= m,
        first_single_fault(opts, worlds, n) is Some,
    ensures
        first_single_fault(opts, worlds, m) == first_single_fault(opts, worlds, n),
    decreases m - n,
{
    if n < m {
        lemma_single_fault_stays(opts, worlds, n, m - 1);
    }
}

/// Whether `value` is what a world gets of the value entry `i`: the entry's
/// own value where a selector stands in front of it, and a clone of it where
/// it goes to every world.
pub open spec fn delivered<T: Clone>(opts: Seq<WorldOpt<T>>, i: int, value: T) -> bool {
    match selected_world(opts, i) {
        Some(_) => value == opts[i].inner->Opt_0,
        None => cloned(opts[i].inner->Opt_0, value),
    }
}

/// Whether `values` are what a world gets of the entries `from`, one for
/// one.
pub open spec fn received<T: Clone>(opts: Seq<WorldOpt<T>>, from: Seq<int>, values: Seq<T>) -> bool {
    &&& values.len() == from.len()
    &&& forall|k: int|
        0 <= k < from.len() ==> delivered(opts, from[k], #[trigger] values[k])
}

/// Hands every value of an option list to the worlds it is meant for. Each of
/// `worlds` worlds gets its values in the order of the list. A value aimed at
/// a world that does not exist stops the reading with a message.
pub fn resolve_world_opts<T: Clone>(world_opts: Vec<WorldOpt<T>>, worlds: usize) -> (result: Result<
    Vec<Vec<T>>,
    String,
>)
    ensures
        match first_index_fault(world_opts@, worlds as int, world_opts@.len() as int) {
            Some(fault) => {
                &&& result matches Err(message)
                &&& message@ == fault_message(world_opts@, fault)
            },
            None => {
                &&& result matches Ok(values)
                &&& values@.len() == worlds
                &&& forall|world: int|
                    0 <= world < worlds ==> received(
                        world_opts@,
                        recipients(world_opts@, world_opts@.len() as int, world),
                        #[trigger] values@[world]@,
                    )
            },
        },
{
    let ghost opts = world_opts@;
    let mut world_values: Vec<Vec<T>> = Vec::new();
    let mut made: usize = 0;
    while made < worlds
        invariant
            made <= worlds,
            world_values@.len() == made,
            forall|world: int| 0 <= world < made ==> (#[trigger] world_values@[world])@.len() == 0,
        decreases worlds - made,
    {
        world_values.push(Vec::new());
        made += 1;
    }
    let mut current_world: Option<usize> = None;
    for world_opt in it: world_opts
        invariant
            it.seq() == opts,
            world_values@.len() == worlds,
            first_index_fault(opts, worlds as int, it.index() as int) is None,
            current_world == selected_world(opts, it.index() as int),
            forall|world: int|
                0 <= world < worlds ==> received(
                    opts,
                    recipients(opts, it.index() as int, world),
                    #[trigger] world_values@[world]@,
                ),
    {
        let ghost i = it.index() as int;
        match world_opt.inner {
            WorldOptInner::World(index) => {
                current_world = Some(index);
            },
            WorldOptInner::Opt(value) => {
                match current_world {
                    Some(index) => {
                        if index >= worlds {
                            proof {
                                lemma_index_fault_stays(opts, worlds as int, i + 1, opts.len() as int);
                            }
                            return Err(index_error(index));
                        }
                        world_values[index].push(value);
                    },
                    None => {
                        let mut world: usize = 0;
                        while world < worlds
                            invariant
                                world <= worlds,
                                world_values@.len() == worlds,
                                0 <= i < opts.len(),
                                opts[i].inner == WorldOptInner::Opt(value),
                                selected_world(opts, i) is None,
                                forall|w: int|
                                    0 <= w < world ==> received(
                                        opts,
                                        recipients(opts, i + 1, w),
                                        #[trigger] world_values@[w]@,
                                    ),
                                forall|w: int|
                                    world <= w < worlds ==> received(
                                        opts,
                                        recipients(opts, i, w),
                                        #[trigger] world_values@[w]@,
                                    ),
                            decreases worlds - world,
                        {
                            world_values[world].push(value.clone());
                            world += 1;
                        }
                    },
                }
            },
        }
    }
    Ok(world_values)
}


/// Whether `value` is what a world gets of the entry that `holder` names, or
/// absent where `holder` names none.
pub open spec fn holds<T: Clone>(opts: Seq<WorldOpt<T>>, holder: Option<int>, value: Option<T>) -> bool {
    match holder {
        Some(j) => value matches Some(v) && delivered(opts, j, v),
        None => value is None,
    }
}

/// `holds`, for a value that is kept together with the text it was read from.
spec fn entry_holds<T: Clone>(
    opts: Seq<WorldOpt<T>>,
    holder: Option<int>,
    entry: Option<(T, String)>,
) -> bool {
    match holder {
        Some(j) => {
            &&& entry matches Some((v, source))
            &&& delivered(opts, j, v)
            &&& source@ == opts[j].source@
        },
        None => entry is None,
    }
}

/// Where the worlds below `world` hold nothing and `world` holds a value, that
/// value is the first one held among the worlds below `worlds`.
proof fn lemma_first_holder_found<T>(opts: Seq<WorldOpt<T>>, n: int, world: int, worlds: int)
    requires
        0 <= world < worlds,
        first_holder(opts, n, world) is None,
        holder(opts, n, world) is Some,
    ensures
        first_holder(opts, n, worlds) == holder(opts, n, world),
    decreases worlds - world,
{
    if world + 1 < worlds {
        lemma_first_holder_found(opts, n, world, worlds - 1);
    }
}

/// Hands the values of an option list to the worlds they are meant for, one
/// value for each world at most. A value aimed at a world that does not exist,
/// or at a world that has a value already, stops the reading with a message.
pub fn resolve_nonduplicate_world_opts<T: Clone>(world_opts: Vec<WorldOpt<T>>, worlds: usize) -> (result:
    Result<Vec<Option<T>>, String>)
    ensures
        match first_single_fault(world_opts@, worlds as int, world_opts@.len() as int) {
            Some(fault) => {
                &&& result matches Err(message)
                &&& message@ == fault_message(world_opts@, fault)
            },
            None => {
                &&& result matches Ok(values)
                &&& values@.len() == worlds
                &&& forall|world: int|
                    0 <= world < worlds ==> holds(
                        world_opts@,
                        holder(world_opts@, world_opts@.len() as int, world),
                        #[trigger] values@[world],
                    )
            },
        },
{
    let ghost opts = world_opts@;
    let mut world_values: Vec<Option<(T, String)>> = Vec::new();
    let mut made: usize = 0;
    while made < worlds
        invariant
            made <= worlds,
            world_values@.len() == made,
            forall|world: int| 0 <= world < made ==> (#[trigger] world_values@[world]) is None,
        decreases worlds - made,
    {
        world_values.push(None);
        made += 1;
    }
    let mut current_world: Option<usize> = None;
    for world_opt in it: world_opts
        invariant
            it.seq() == opts,
            world_values@.len() == worlds,
            first_single_fault(opts, worlds as int, it.index() as int) is None,
            current_world == selected_world(opts, it.index() as int),
            forall|world: int|
                0 <= world < worlds ==> entry_holds(
                    opts,
                    holder(opts, it.index() as int, world),
                    #[trigger] world_values@[world],
                ),
    {
        let ghost i = it.index() as int;
        let WorldOpt { source, inner } = world_opt;
        match inner {
            WorldOptInner::World(index) => {
                current_world = Some(index);
            },
            WorldOptInner::Opt(value) => {
                match current_world {
                    Some(index) => {
                        if index >= worlds {
                            proof {
                                lemma_single_fault_stays(opts, worlds as int, i + 1, opts.len() as int);
                            }
                            return Err(index_error(index));
                        }
                        match assign_nonduplicate(value, &mut world_values[index], source) {
                            Err(message) => {
                                proof {
                                    lemma_single_fault_stays(opts, worlds as int, i + 1, opts.len() as int);
                                }
                                return Err(message);
                            },
                            Ok(()) => {},
                        }
                    },
                    None => {
                        let mut world: usize = 0;
                        while world < worlds
                            invariant
                                world <= worlds,
                                world_values@.len() == worlds,
                                0 <= i < opts.len(),
                                opts[i].inner == WorldOptInner::Opt(value),
                                opts == world_opts@,
                                opts[i].source@ == source@,
                                selected_world(opts, i) is None,
                                first_single_fault(opts, worlds as int, i) is None,
                                first_holder(opts, i, world as int) is None,
                                forall|w: int|
                                    0 <= w < world ==> entry_holds(
                                        opts,
                                        holder(opts, i + 1, w),
                                        #[trigger] world_values@[w],
                                    ),
                                forall|w: int|
                                    world <= w < worlds ==> entry_holds(
                                        opts,
                                        holder(opts, i, w),
                                        #[trigger] world_values@[w],
                                    ),
                            decreases worlds - world,
                        {
                            assert(entry_holds(
                                opts,
                                holder(opts, i, world as int),
                                world_values@[world as int],
                            ));
                            match assign_nonduplicate(value.clone(), &mut world_values[world], source.clone()) {
                                Err(message) => {
                                    proof {
                                        let prior = holder(opts, i, world as int);
                                        assert(prior is Some);
                                        lemma_first_holder_found(opts, i, world as int, worlds as int);
                                        assert(single_fault(opts, worlds as int, i) == Some(
                                            Fault::Duplicate { source: i, prior: prior->0 },
                                        ));
                                        assert(first_single_fault(opts, worlds as int, i + 1)
                                            == single_fault(opts, worlds as int, i));
                                        lemma_single_fault_stays(
                                            opts,
                                            worlds as int,
                                            i + 1,
                                            opts.len() as int,
                                        );
                                    }
                                    return Err(message);
                                },
                                Ok(()) => {},
                            }
                            world += 1;
                        }
                    },
                }
            },
        }
    }
    let mut values: Vec<Option<T>> = Vec::new();
    for entry in it: world_values
        invariant
            values@.len() == it.index(),
            it.seq().len() == worlds,
            forall|world: int|
                0 <= world < worlds ==> entry_holds(
                    opts,
                    holder(opts, opts.len() as int, world),
                    #[trigger] it.seq()[world],
                ),
            forall|world: int|
                0 <= world < it.index() ==> holds(
                    opts,
                    holder(opts, opts.len() as int, world),
                    #[trigger] values@[world],
                ),
    {
        let value = match entry {
            Some((value, _)) => Some(value),
            None => None,
        };
        values.push(value);
    }
    Ok(values)
}

} // verus!
