//! The commands of the text protocol and the parsing of a command line.
use vstd::prelude::*;

use crate::protocol::number::{parse_decimal, parse_unsigned, NumberError};
use crate::protocol::text::{
    chars_of, is_ws, law_words_append_word, split_whitespace, string_from_chars, word_is, words,
};

verus! {

/// A command line of the text protocol.
#[derive(Debug)]
pub enum Command {
    /// `set <key> <flags> <ttl> <bytes> [noreply]`; the data block follows.
    SetItem { key: String, flags: u32, ttl: u64, bytes: usize, noreply: bool },
    /// `get <key>+`
    Get { keys: Vec<String> },
    /// `delete <key> [noreply]`
    Delete { key: String, noreply: bool },
    /// `version`
    Version,
    /// `quit`
    Quit,
}

/// A command with its strings taken as character sequences.
pub enum CommandView {
    SetItem { key: Seq<char>, flags: u32, ttl: u64, bytes: usize, noreply: bool },
    Get { keys: Seq<Seq<char>> },
    Delete { key: Seq<char>, noreply: bool },
    Version,
    Quit,
}

impl View for Command {
    type V = CommandView;

    open spec fn view(&self) -> CommandView {
        match self {
            Command::SetItem { key, flags, ttl, bytes, noreply } => CommandView::SetItem {
                key: key@,
                flags: *flags,
                ttl: *ttl,
                bytes: *bytes,
                noreply: *noreply,
            },
            Command::Get { keys } => CommandView::Get { keys: keys@.map_values(|k: String| k@) },
            Command::Delete { key, noreply } => CommandView::Delete { key: key@, noreply: *noreply },
            Command::Version => CommandView::Version,
            Command::Quit => CommandView::Quit,
        }
    }
}

/// Why a command line was refused.
#[derive(Debug, Clone, Copy, PartialEq, Eq, Structural)]
pub enum CommandError {
    /// The line is no command that the server knows, or has the wrong shape.
    Unknown,
    /// A numeric field (flags, ttl or bytes) is no valid number.
    Number(NumberError),
}

pub open spec fn word_set() -> Seq<char> {
    seq!['s', 'e', 't']
}

pub open spec fn word_get() -> Seq<char> {
    seq!['g', 'e', 't']
}

pub open spec fn word_delete() -> Seq<char> {
    seq!['d', 'e', 'l', 'e', 't', 'e']
}

pub open spec fn word_version() -> Seq<char> {
    seq!['v', 'e', 'r', 's', 'i', 'o', 'n']
}

pub open spec fn word_quit() -> Seq<char> {
    seq!['q', 'u', 'i', 't']
}

pub open spec fn word_noreply() -> Seq<char> {
    seq!['n', 'o', 'r', 'e', 'p', 'l', 'y']
}

/// The `set` command with the words `t` (the first is `set`), reading its
/// numbers in the order flags, ttl, bytes.
pub open spec fn spec_parse_set(t: Seq<Seq<char>>) -> Result<CommandView, CommandError> {
    match parse_unsigned(t[2], u32::MAX as nat) {
        Err(e) => Err(CommandError::Number(e)),
        Ok(flags) => match parse_unsigned(t[3], u64::MAX as nat) {
            Err(e) => Err(CommandError::Number(e)),
            Ok(ttl) => match parse_unsigned(t[4], usize::MAX as nat) {
                Err(e) => Err(CommandError::Number(e)),
                Ok(bytes) => Ok(
                    CommandView::SetItem {
                        key: t[1],
                        flags: flags as u32,
                        ttl: ttl as u64,
                        bytes: bytes as usize,
                        noreply: t.len() == 6,
                    },
                ),
            },
        },
    }
}

/// The command that the words of `line` spell.
pub open spec fn spec_parse_command(line: Seq<char>) -> Result<CommandView, CommandError> {
    let t = words(line);
    if t.len() >= 1 && t[0] == word_set() && (t.len() == 5 || (t.len() == 6 && t[5]
        == word_noreply())) {
        spec_parse_set(t)
    } else if t.len() >= 2 && t[0] == word_get() {
        Ok(CommandView::Get { keys: t.drop_first() })
    } else if t.len() >= 1 && t[0] == word_delete() && (t.len() == 2 || (t.len() == 3 && t[2]
        == word_noreply())) {
        Ok(CommandView::Delete { key: t[1], noreply: t.len() == 3 })
    } else if t.len() == 1 && t[0] == word_version() {
        Ok(CommandView::Version)
    } else if t.len() == 1 && t[0] == word_quit() {
        Ok(CommandView::Quit)
    } else {
        Err(CommandError::Unknown)
    }
}

/// A line whose first word is `get` and that has more words is a `get` of
/// every later word, in order: none is dropped, none added.
pub proof fn law_get_keys_are_later_words(line: Seq<char>)
    requires
        words(line).len() >= 2,
        words(line)[0] == word_get(),
    ensures
        spec_parse_command(line) matches Ok(CommandView::Get { keys }) && keys.len() + 1 == words(
            line,
        ).len() && forall|i: int| 0 <= i < keys.len() ==> keys[i] == words(line)[i + 1],
{
    assert(word_get()[0] != word_set()[0]);
    assert(word_get()[0] != word_delete()[0]);
}

/// Adding a space and one more non-blank word to a `get` line adds that
/// word as the last key, leaving the others as they were.
pub proof fn law_get_line_takes_one_more_key(line: Seq<char>, w: Seq<char>)
    requires
        spec_parse_command(line) is Ok,
        spec_parse_command(line)->Ok_0 is Get,
        w.len() > 0,
        forall|j: int| 0 <= j < w.len() ==> !is_ws(#[trigger] w[j]),
    ensures
        spec_parse_command(line + seq![' '] + w) == Ok::<CommandView, CommandError>(
            CommandView::Get { keys: spec_parse_command(line)->Ok_0->keys.push(w) },
        ),
{
    let t = words(line);
    assert(word_get()[0] != word_set()[0]);
    assert(word_get()[0] != word_delete()[0]);
    assert(word_get()[0] != word_version()[0]);
    assert(word_get()[0] != word_quit()[0]);
    assert(t.len() >= 2 && t[0] == word_get());
    law_words_append_word(line, w);
    let u = words(line + seq![' '] + w);
    assert(u == t.push(w));
    assert(u[0] == t[0]);
    assert(u.drop_first() =~= t.drop_first().push(w));
}

/// Whether `res` is what `spec_parse_command` gives for `line`.
pub open spec fn parsed_as(res: Result<Command, CommandError>, line: Seq<char>) -> bool {
    match (res, spec_parse_command(line)) {
        (Ok(c), Ok(v)) => c@ == v,
        (Err(e), Err(f)) => e == f,
        _ => false,
    }
}

/// Parses one command line (without its line ending).
pub fn parse_command_line(line: &str) -> (res: Result<Command, CommandError>)
    ensures
        parsed_as(res, line@),
{
    let chars = chars_of(line);
    parse_command_chars(&chars)
}

/// Parses one command line given as its characters.
pub fn parse_command_chars(line: &Vec<char>) -> (res: Result<Command, CommandError>)
    ensures
        parsed_as(res, line@),
{
    let t = split_whitespace(line);
    let ghost w = words(line@);
    let n = t.len();
    let lit_set = ['s', 'e', 't'];
    let lit_get = ['g', 'e', 't'];
    let lit_delete = ['d', 'e', 'l', 'e', 't', 'e'];
    let lit_version = ['v', 'e', 'r', 's', 'i', 'o', 'n'];
    let lit_quit = ['q', 'u', 'i', 't'];
    let lit_noreply = ['n', 'o', 'r', 'e', 'p', 'l', 'y'];
    assert(lit_set@ =~= word_set());
    assert(lit_get@ =~= word_get());
    assert(lit_delete@ =~= word_delete());
    assert(lit_version@ =~= word_version());
    assert(lit_quit@ =~= word_quit());
    assert(lit_noreply@ =~= word_noreply());
    if n >= 1 && word_is(&t[0], &lit_set) && (n == 5 || (n == 6 && word_is(&t[5], &lit_noreply))) {
        let flags = match parse_decimal(t[2].as_slice(), u32::MAX as u64) {
            Ok(v) => v as u32,
            Err(e) => return Err(CommandError::Number(e)),
        };
        let ttl = match parse_decimal(t[3].as_slice(), u64::MAX) {
            Ok(v) => v,
            Err(e) => return Err(CommandError::Number(e)),
        };
        let bytes = match parse_decimal(t[4].as_slice(), usize::MAX as u64) {
            Ok(v) => v as usize,
            Err(e) => return Err(CommandError::Number(e)),
        };
        let key = string_from_chars(t[1].as_slice());
        Ok(Command::SetItem { key, flags, ttl, bytes, noreply: n == 6 })
    } else if n >= 2 && word_is(&t[0], &lit_get) {
        let mut keys: Vec<String> = Vec::new();
        let mut i: usize = 1;
        while i < n
            invariant
                n == t.len(),
                n == w.len(),
                1 <= i <= n,
                forall|k: int| 0 <= k < n ==> #[trigger] t[k]@ == w[k],
                keys@.map_values(|k: String| k@) =~= w.subrange(1, i as int),
            decreases n - i,
        {
            let k = string_from_chars(t[i].as_slice());
            let ghost prev = keys@;
            keys.push(k);
            assert(keys@.map_values(|k: String| k@) =~= prev.map_values(|k: String| k@).push(
                w[i as int],
            ));
            assert(w.subrange(1, i + 1) =~= w.subrange(1, i as int).push(w[i as int]));
            i = i + 1;
        }
        assert(w.subrange(1, n as int) =~= w.drop_first());
        Ok(Command::Get { keys })
    } else if n >= 1 && word_is(&t[0], &lit_delete) && (n == 2 || (n == 3 && word_is(
        &t[2],
        &lit_noreply,
    ))) {
        let key = string_from_chars(t[1].as_slice());
        Ok(Command::Delete { key, noreply: n == 3 })
    } else if n == 1 && word_is(&t[0], &lit_version) {
        Ok(Command::Version)
    } else if n == 1 && word_is(&t[0], &lit_quit) {
        Ok(Command::Quit)
    } else {
        Err(CommandError::Unknown)
    }
}

} // verus!
