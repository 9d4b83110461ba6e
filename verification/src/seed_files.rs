//! Seed files: how they are named when they are written, how a seed is shown
//! on standard output, and what the header lines of a seed file say.

use vstd::prelude::*;
use crate::text::{decimal, parse_bounded, position, push_decimal, to_chars};

verus! {

/// The name of a file or folder at the `index`th try: the name itself at
/// first, then the name with `_1`, `_2` and so on behind it.
pub open spec fn numbered(stem: Seq<char>, index: nat) -> Seq<char> {
    if index == 0 {
        stem
    } else {
        stem + "_"@ + decimal(index)
    }
}

/// The name to try for a file or folder when `index` names are taken.
pub fn numbered_stem(stem: &str, index: usize) -> (name: String)
    ensures
        name@ == numbered(stem@, index as nat),
{
    let mut name = String::from_str(stem);
    if index > 0 {
        name.append("_");
        push_decimal(&mut name, index as u64);
    }
    name
}

/// The name of the seed file of one world: `filename` where there is one
/// world, `world_` and the index of the world where there are several.
pub fn seed_file_stem(filename: &str, multiworld: bool, index: usize) -> (name: String)
    ensures
        name@ == if multiworld {
            "world_"@ + decimal(index as nat)
        } else {
            filename@
        },
{
    if multiworld {
        let mut name = String::from_str("world_");
        push_decimal(&mut name, index as u64);
        name
    } else {
        String::from_str(filename)
    }
}

/// The name of the spoiler file that goes with the seed `filename`.
pub fn spoiler_file_stem(filename: &str) -> (name: String)
    ensures
        name@ == filename@ + "_spoiler"@,
{
    let mut name = String::from_str(filename);
    name.append("_spoiler");
    name
}

/// Why a file or folder could not be created.
#[derive(Clone, Copy, Debug, PartialEq, Eq, Structural)]
pub enum CreateFailure {
    /// The name is taken.
    AlreadyExists,
    /// The folder that should hold it does not exist.
    NotFound,
    /// Anything else.
    Other,
}

/// What to do after a file or folder could not be created.
#[derive(Clone, Copy, Debug, PartialEq, Eq, Structural)]
pub enum NextAttempt {
    /// Try the name with this index, after creating the folders above it
    /// where `create_parent` says so.
    Retry { index: usize, create_parent: bool },
    /// Report the failure.
    GiveUp,
}

/// Decides how to go on after the name with `index` could not be created: a
/// taken name is followed by the next one, a missing folder is created and the
/// same name tried again, and any other failure is final.
pub fn after_failure(index: usize, failure: CreateFailure) -> (next: NextAttempt)
    ensures
        next == match failure {
            CreateFailure::AlreadyExists => if index < usize::MAX {
                NextAttempt::Retry { index: (index + 1) as usize, create_parent: false }
            } else {
                NextAttempt::GiveUp
            },
            CreateFailure::NotFound => NextAttempt::Retry { index, create_parent: true },
            CreateFailure::Other => NextAttempt::GiveUp,
        },
{
    match failure {
        CreateFailure::AlreadyExists => if index < usize::MAX {
            NextAttempt::Retry { index: index + 1, create_parent: false }
        } else {
            NextAttempt::GiveUp
        },
        CreateFailure::NotFound => NextAttempt::Retry { index, create_parent: true },
        CreateFailure::Other => NextAttempt::GiveUp,
    }
}

/// The heading above the seed file of world `index`.
pub open spec fn world_heading(index: nat) -> Seq<char> {
    "======= World "@ + decimal(index) + " =======\n"@
}

/// The seed files of the first `n` worlds, each under its heading and
/// followed by a line break.
pub open spec fn worlds_text(files: Seq<Seq<char>>, n: int) -> Seq<char>
    decreases n,
{
    if n <= 0 {
        Seq::empty()
    } else {
        worlds_text(files, n - 1) + world_heading((n - 1) as nat) + files[n - 1] + "\n"@
    }
}

/// What is shown of a seed: the seed file alone where there is one world, the
/// seed files under their headings where there are several, and the spoiler
/// under a heading of its own after an empty line.
pub open spec fn seed_text(files: Seq<Seq<char>>, spoiler: Seq<char>) -> Seq<char> {
    (if files.len() > 1 {
        worlds_text(files, files.len() as int)
    } else {
        files[0] + "\n"@
    }) + "\n======= Spoiler =======\n"@ + spoiler + "\n"@
}

/// The text that shows a seed on standard output.
pub fn seed_output(files: &Vec<String>, spoiler: &str) -> (text: String)
    requires
        files@.len() > 0,
    ensures
        text@ == seed_text(crate::text::strings_view(files@), spoiler@),
{
    let ghost views = crate::text::strings_view(files@);
    let mut text = String::new();
    if files.len() > 1 {
        let mut index: usize = 0;
        assert(text@ =~= worlds_text(views, 0));
        while index < files.len()
            invariant
                index <= files.len(),
                views == crate::text::strings_view(files@),
                text@ == worlds_text(views, index as int),
            decreases files.len() - index,
        {
            let ghost before = text@;
            text.append("======= World ");
            push_decimal(&mut text, index as u64);
            text.append(" =======\n");
            text.append(files[index].as_str());
            text.append("\n");
            assert(text@ =~= before + world_heading(index as nat) + views[index as int] + "\n"@);
            index += 1;
        }
    } else {
        text.append(files[0].as_str());
        text.append("\n");
        assert(text@ =~= views[0] + "\n"@);
    }
    let ghost shown = text@;
    text.append("\n======= Spoiler =======\n");
    text.append(spoiler);
    text.append("\n");
    assert(text@ =~= shown + "\n======= Spoiler =======\n"@ + spoiler@ + "\n"@);
    text
}

/// The line of `text` that begins at `from`, without its line break: it ends
/// in front of the next line feed, and in front of a carriage return that
/// stands right before that line feed.
pub open spec fn line_at(text: Seq<char>, from: int) -> Seq<char> {
    let end = position(text, '\n', from);
    let line = text.subrange(from, end);
    if end < text.len() && line.len() > 0 && line.last() == '\r' {
        line.drop_last()
    } else {
        line
    }
}

/// What follows `prefix` in the first line, from position `from` on, that
/// begins with it.
pub open spec fn header_from(text: Seq<char>, prefix: Seq<char>, from: int) -> Option<Seq<char>>
    decreases text.len() - from,
{
    if from < 0 || from >= text.len() {
        None
    } else {
        let line = line_at(text, from);
        if prefix.is_prefix_of(line) {
            Some(line.skip(prefix.len() as int))
        } else {
            let next = position(text, '\n', from) + 1;
            if from < next <= text.len() {
                header_from(text, prefix, next)
            } else {
                None
            }
        }
    }
}

/// What follows `prefix` in the first line of `text` that begins with it.
pub open spec fn header(text: Seq<char>, prefix: Seq<char>) -> Option<Seq<char>> {
    header_from(text, prefix, 0)
}

/// Looks for the first line of `contents` that begins with `prefix` and gives
/// what follows `prefix` in it.
pub fn find_header<'a>(contents: &'a str, prefix: &str) -> (rest: Option<&'a str>)
    ensures
        match header(contents@, prefix@) {
            Some(found) => rest matches Some(line) && line@ == found,
            None => rest is None,
        },
{
    let text = to_chars(contents);
    let wanted = to_chars(prefix);
    let mut from: usize = 0;
    while from < text.len()
        invariant
            from <= text.len(),
            text@ == contents@,
            wanted@ == prefix@,
            header(contents@, prefix@) == header_from(contents@, prefix@, from as int),
        decreases text.len() - from,
    {
        let mut end: usize = from;
        while end < text.len() && text[end] != '\n'
            invariant
                from <= end <= text.len(),
                position(text@, '\n', from as int) == position(text@, '\n', end as int),
            decreases text.len() - end,
        {
            end += 1;
        }
        let line_end: usize = if end < text.len() && end > from && text[end - 1] == '\r' {
            end - 1
        } else {
            end
        };
        let ghost line = line_at(text@, from as int);
        assert(line =~= text@.subrange(from as int, line_end as int)) by {
            assert(position(text@, '\n', end as int) == end);
        }
        let mut matched: usize = 0;
        if wanted.len() <= line_end - from {
            while matched < wanted.len() && text[from + matched] == wanted[matched]
                invariant
                    matched <= wanted.len(),
                    wanted.len() <= line_end - from,
                    line_end <= text.len(),
                    line == text@.subrange(from as int, line_end as int),
                    forall|i: int| 0 <= i < matched ==> line[i] == wanted@[i],
                decreases wanted.len() - matched,
            {
                matched += 1;
            }
            if matched == wanted.len() {
                assert(wanted@ =~= line.subrange(0, wanted@.len() as int));
                let found = contents.substring_char(from + wanted.len(), line_end);
                assert(found@ =~= line.skip(wanted@.len() as int));
                return Some(found);
            }
            assert(!wanted@.is_prefix_of(line)) by {
                assert(line[matched as int] != wanted@[matched as int]);
                if wanted@.is_prefix_of(line) {
                    assert(line.subrange(0, wanted@.len() as int)[matched as int]
                        == wanted@[matched as int]);
                }
            }
        }
        assert(position(text@, '\n', from as int) == end) by {
            assert(position(text@, '\n', end as int) == end);
        }
        if end == text.len() {
            assert(header_from(contents@, prefix@, end + 1) is None);
            return None;
        }
        from = end + 1;
    }
    None
}


/// What `str::parse` says of a text that is no world index.
pub uninterp spec fn index_error_text(text: Seq<char>) -> Seq<char>;

/// `str::parse::<usize>`: the number that `text` denotes where it is an
/// optional `+` and then digits only, and the number fits; for any other text
/// the words of the error.
#[verifier::external_body]
fn parse_index(text: &str) -> (result: Result<usize, String>)
    ensures
        match parse_bounded(text@, usize::MAX as nat) {
            Some(index) => result matches Ok(number) && number == index,
            None => result matches Err(message) && message@ == index_error_text(text@),
        },
{
    text.parse::<usize>().map_err(|error| error.to_string())
}

/// Whether a character is white space: one of the characters with the
/// Unicode property `White_Space`.
pub open spec fn whitespace(c: char) -> bool {
    ||| '\u{9}' <= c && c <= '\u{d}'
    ||| c == ' '
    ||| c == '\u{85}'
    ||| c == '\u{a0}'
    ||| c == '\u{1680}'
    ||| '\u{2000}' <= c && c <= '\u{200a}'
    ||| c == '\u{2028}'
    ||| c == '\u{2029}'
    ||| c == '\u{202f}'
    ||| c == '\u{205f}'
    ||| c == '\u{3000}'
}

/// Whether a character is white space.
pub fn is_whitespace(c: char) -> (white: bool)
    ensures
        white == whitespace(c),
{
    ('\u{9}' <= c && c <= '\u{d}') || c == ' ' || c == '\u{85}' || c == '\u{a0}' || c == '\u{1680}'
        || ('\u{2000}' <= c && c <= '\u{200a}') || c == '\u{2028}' || c == '\u{2029}' || c
        == '\u{202f}' || c == '\u{205f}' || c == '\u{3000}'
}

/// The index of the world that a seed is for, from what was found of the
/// line that names it: the first world where no such line was found, and the
/// reason where the line names no world.
pub fn world_index(named: Option<Result<usize, String>>) -> (result: Result<usize, String>)
    ensures
        match named {
            None => result matches Ok(index) && index == 0,
            Some(Ok(world)) => result matches Ok(index) && index == world,
            Some(Err(reason)) => result matches Err(message) && message@
                == "Error reading current world: "@ + reason@,
        },
{
    match named {
        None => Ok(0),
        Some(Ok(world)) => Ok(world),
        Some(Err(reason)) => {
            let mut message = String::from_str("Error reading current world: ");
            message.append(reason.as_str());
            Err(message)
        },
    }
}

/// Reads from a seed file which world it is for: the number in the first
/// line that begins with `// This World: `, and the first world where there is
/// no such line.
pub fn current_world(contents: &str) -> (result: Result<usize, String>)
    ensures
        match header(contents@, "// This World: "@) {
            None => result matches Ok(index) && index == 0,
            Some(named) => match parse_bounded(named, usize::MAX as nat) {
                Some(world) => result matches Ok(index) && index == world,
                None => result matches Err(message) && message@
                    == "Error reading current world: "@ + index_error_text(named),
            },
        },
{
    let named = match find_header(contents, "// This World: ") {
        Some(named) => Some(parse_index(named)),
        None => None,
    };
    world_index(named)
}

/// The first position from `from` on at which `text` holds no white space,
/// or `to` where it holds nothing else in front of `to`.
pub open spec fn leading(text: Seq<char>, from: int, to: int) -> int
    decreases to - from,
{
    if from >= to {
        to
    } else if whitespace(text[from]) {
        leading(text, from + 1, to)
    } else {
        from
    }
}

/// The end of `text` in front of `to` once the white space that ends it is
/// taken off, but no further back than `from`.
pub open spec fn trailing(text: Seq<char>, from: int, to: int) -> int
    decreases to - from,
{
    if to <= from {
        from
    } else if whitespace(text[to - 1]) {
        trailing(text, from, to - 1)
    } else {
        to
    }
}

/// `text` without the white space at its beginning and at its end.
pub open spec fn trimmed(text: Seq<char>) -> Seq<char> {
    let start = leading(text, 0, text.len() as int);
    text.subrange(start, trailing(text, start, text.len() as int))
}

/// Takes the white space off both ends of `text`.
pub fn trim<'a>(text: &'a str) -> (rest: &'a str)
    ensures
        rest@ == trimmed(text@),
{
    let chars = to_chars(text);
    let mut start: usize = 0;
    while start < chars.len() && is_whitespace(chars[start])
        invariant
            start <= chars.len(),
            leading(chars@, 0, chars@.len() as int) == leading(
                chars@,
                start as int,
                chars@.len() as int,
            ),
        decreases chars.len() - start,
    {
        start += 1;
    }
    let mut end: usize = chars.len();
    while end > start && is_whitespace(chars[end - 1])
        invariant
            start <= end <= chars.len(),
            trailing(chars@, start as int, chars@.len() as int) == trailing(
                chars@,
                start as int,
                end as int,
            ),
        decreases end,
    {
        end -= 1;
    }
    text.substring_char(start, end)
}

/// The parts of `text` from `from` on between one `mark` and the next.
pub open spec fn pieces(text: Seq<char>, mark: char, from: int) -> Seq<Seq<char>>
    decreases text.len() - from,
{
    let at = position(text, mark, from);
    if 0 <= from <= at < text.len() {
        seq![text.subrange(from, at)] + pieces(text, mark, at + 1)
    } else {
        seq![text.skip(from)]
    }
}

/// The names in a line of names: what stands between the commas, without
/// white space around it. An empty line holds no name.
pub open spec fn names_in(line: Seq<char>) -> Seq<Seq<char>> {
    if line.len() == 0 {
        Seq::empty()
    } else {
        pieces(line, ',', 0).map_values(|piece: Seq<char>| trimmed(piece))
    }
}

/// Reads from a seed file the states that are set from the start: the names
/// in the first line that begins with `// Sets: `, separated by commas.
pub fn set_names(contents: &str) -> (names: Vec<String>)
    ensures
        crate::text::strings_view(names@) == match header(contents@, "// Sets: "@) {
            Some(line) => names_in(line),
            None => Seq::empty(),
        },
{
    let mut names: Vec<String> = Vec::new();
    let line = match find_header(contents, "// Sets: ") {
        Some(line) => line,
        None => {
            assert(crate::text::strings_view(names@) =~= Seq::empty());
            return names;
        },
    };
    if line.is_empty() {
        assert(crate::text::strings_view(names@) =~= Seq::empty());
        return names;
    }
    let chars = to_chars(line);
    let ghost all = names_in(line@);
    let mut from: usize = 0;
    assert(crate::text::strings_view(names@) + pieces(chars@, ',', 0).map_values(
        |piece: Seq<char>| trimmed(piece),
    ) =~= all);
    loop
        invariant_except_break
            crate::text::strings_view(names@) + pieces(chars@, ',', from as int).map_values(
                |piece: Seq<char>| trimmed(piece),
            ) == all,
        invariant
            from <= chars.len(),
            chars@ == line@,
        ensures
            crate::text::strings_view(names@) == all,
        decreases chars.len() - from,
    {
        let mut at: usize = from;
        while at < chars.len() && chars[at] != ','
            invariant
                from <= at <= chars.len(),
                position(chars@, ',', from as int) == position(chars@, ',', at as int),
            decreases chars.len() - at,
        {
            at += 1;
        }
        let piece = line.substring_char(from, at);
        let name = String::from_str(trim(piece));
        let ghost before = crate::text::strings_view(names@);
        let ghost left = pieces(chars@, ',', from as int);
        proof {
            assert(position(chars@, ',', at as int) == at);
            assert(piece@ =~= left[0]) by {
                if at < chars.len() {
                } else {
                    assert(chars@.subrange(from as int, at as int) =~= chars@.skip(from as int));
                }
            }
            assert(crate::text::strings_view(names@.push(name)) =~= before.push(name@));
        }
        names.push(name);
        if at == chars.len() {
            proof {
                assert(left =~= seq![chars@.skip(from as int)]);
                assert(left.map_values(|piece: Seq<char>| trimmed(piece)) =~= seq![name@]);
                assert(before + seq![name@] =~= before.push(name@));
            }
            break ;
        }
        proof {
            let rest = pieces(chars@, ',', at + 1);
            assert(left =~= seq![chars@.subrange(from as int, at as int)] + rest);
            assert(left.map_values(|piece: Seq<char>| trimmed(piece)) =~= seq![name@]
                + rest.map_values(|piece: Seq<char>| trimmed(piece)));
            assert(before.push(name@) + rest.map_values(|piece: Seq<char>| trimmed(piece)) =~= before
                + left.map_values(|piece: Seq<char>| trimmed(piece)));
        }
        from = at + 1;
    }
    names
}

/// The first position from `from` on at which `identifiers` holds
/// `identifier`, or the length of `identifiers` where it holds it nowhere.
pub open spec fn first_named(identifiers: Seq<Seq<char>>, identifier: Seq<char>, from: int) -> int
    decreases identifiers.len() - from,
{
    if from >= identifiers.len() {
        identifiers.len() as int
    } else if identifiers[from] == identifier {
        from
    } else {
        first_named(identifiers, identifier, from + 1)
    }
}

/// The message for a name that no node has.
pub open spec fn target_not_found_message(identifier: Seq<char>) -> Seq<char> {
    "target "@ + identifier + " not found"@
}

/// Looks a node up by its identifier among the identifiers of all nodes, in
/// their order: the position of the first node of that name.
pub fn find_node(identifiers: &Vec<String>, identifier: &str) -> (result: Result<usize, String>)
    ensures
        ({
            let at = first_named(crate::text::strings_view(identifiers@), identifier@, 0);
            if at < identifiers@.len() {
                result matches Ok(position) && position == at
            } else {
                result matches Err(message) && message@ == target_not_found_message(identifier@)
            }
        }),
{
    let ghost names = crate::text::strings_view(identifiers@);
    let mut at: usize = 0;
    while at < identifiers.len()
        invariant
            at <= identifiers.len(),
            names == crate::text::strings_view(identifiers@),
            first_named(names, identifier@, 0) == first_named(names, identifier@, at as int),
        decreases identifiers.len() - at,
    {
        if crate::text::same_text(identifiers[at].as_str(), identifier) {
            assert(names[at as int] == identifier@);
            return Ok(at);
        }
        assert(names[at as int] != identifier@);
        at += 1;
    }
    let mut message = String::from_str("target ");
    message.append(identifier);
    message.append(" not found");
    Err(message)
}

} // verus!
