//! Reading a command line: a command word, whatever its case, and its
//! arguments, separated by white space.

use crate::codec::bytes::{byte_is_space, copy_range, is_space, same_bytes};
use crate::codec::text::string_from_utf8;
use vstd::prelude::*;
use vstd::utf8::{decode_utf8, encode_utf8, encode_utf8_decode_utf8, valid_utf8};

verus! {

/// A command that lacks arguments.
#[derive(Debug, Clone, Copy, PartialEq, Eq, Structural)]
pub enum Usage {
    /// `upload <file_path>`
    Upload,
    /// `download <file_id> <destination>`
    Download,
    /// `search <file_id>`
    Search,
}

/// What a command line asks for.
#[derive(Debug, PartialEq, Eq)]
pub enum Command {
    /// A blank line: nothing to do.
    Nothing,
    /// Upload the file at `file_path`.
    Upload { file_path: String },
    /// Download the file named by `file_id` to `destination`.
    Download { file_id: String, destination: String },
    /// Search the peers that hold the file named by `query`.
    Search { query: String },
    /// Leave.
    Exit,
    /// A known command without the arguments it needs.
    Usage(Usage),
    /// Anything else.
    Unknown,
}

/// A `Command` as a mathematical value.
pub enum CommandModel {
    Nothing,
    Upload { file_path: Seq<char> },
    Download { file_id: Seq<char>, destination: Seq<char> },
    Search { query: Seq<char> },
    Exit,
    Usage(Usage),
    Unknown,
}

impl View for Command {
    type V = CommandModel;

    open spec fn view(&self) -> CommandModel {
        match self {
            Command::Nothing => CommandModel::Nothing,
            Command::Upload { file_path } => CommandModel::Upload { file_path: file_path@ },
            Command::Download { file_id, destination } => CommandModel::Download {
                file_id: file_id@,
                destination: destination@,
            },
            Command::Search { query } => CommandModel::Search { query: query@ },
            Command::Exit => CommandModel::Exit,
            Command::Usage(which) => CommandModel::Usage(*which),
            Command::Unknown => CommandModel::Unknown,
        }
    }
}

/// Position of the first byte of `s` at or after `from` that is white space
/// if `space` is set and that is not if it is not, or `s.len()` when there
/// is none.
pub open spec fn next_change(s: Seq<u8>, from: int, space: bool) -> int
    decreases s.len() - from,
{
    if from < 0 || from >= s.len() {
        s.len() as int
    } else if is_space(s[from]) == space {
        from
    } else {
        next_change(s, from + 1, space)
    }
}

/// The words of `s` from `from` on: the longest runs of bytes that are not
/// white space, in order.
pub open spec fn words_from(s: Seq<u8>, from: int) -> Seq<Seq<u8>>
    decreases s.len() - from,
{
    let start = next_change(s, from, false);
    let end = next_change(s, start, true);
    if 0 <= from <= start < end <= s.len() {
        seq![s.subrange(start, end)] + words_from(s, end)
    } else {
        Seq::empty()
    }
}

/// The words of `s`.
pub open spec fn words(s: Seq<u8>) -> Seq<Seq<u8>> {
    words_from(s, 0)
}

/// A byte with an ASCII capital letter turned into the small one.
pub open spec fn lowered_byte(b: u8) -> u8 {
    if 65 <= b <= 90 {
        (b + 32) as u8
    } else {
        b
    }
}

/// A byte string with its ASCII capital letters turned into small ones.
pub open spec fn lowered(s: Seq<u8>) -> Seq<u8> {
    Seq::new(s.len(), |i: int| lowered_byte(s[i]))
}

/// The bytes of `upload`.
pub open spec fn upload_word() -> Seq<u8> {
    seq![117u8, 112u8, 108u8, 111u8, 97u8, 100u8]
}

/// The bytes of `download`.
pub open spec fn download_word() -> Seq<u8> {
    seq![100u8, 111u8, 119u8, 110u8, 108u8, 111u8, 97u8, 100u8]
}

/// The bytes of `search`.
pub open spec fn search_word() -> Seq<u8> {
    seq![115u8, 101u8, 97u8, 114u8, 99u8, 104u8]
}

/// The bytes of `exit`.
pub open spec fn exit_word() -> Seq<u8> {
    seq![101u8, 120u8, 105u8, 116u8]
}

/// What the given words ask for. The first word names the command, in any
/// case; arguments beyond those a command needs are ignored; an argument
/// that is not valid UTF-8 makes the command unknown.
pub open spec fn command_of(args: Seq<Seq<u8>>) -> CommandModel {
    if args.len() == 0 {
        CommandModel::Nothing
    } else {
        let name = lowered(args[0]);
        if name == upload_word() {
            if args.len() < 2 {
                CommandModel::Usage(Usage::Upload)
            } else if valid_utf8(args[1]) {
                CommandModel::Upload { file_path: decode_utf8(args[1]) }
            } else {
                CommandModel::Unknown
            }
        } else if name == download_word() {
            if args.len() < 3 {
                CommandModel::Usage(Usage::Download)
            } else if valid_utf8(args[1]) && valid_utf8(args[2]) {
                CommandModel::Download {
                    file_id: decode_utf8(args[1]),
                    destination: decode_utf8(args[2]),
                }
            } else {
                CommandModel::Unknown
            }
        } else if name == search_word() {
            if args.len() < 2 {
                CommandModel::Usage(Usage::Search)
            } else if valid_utf8(args[1]) {
                CommandModel::Search { query: decode_utf8(args[1]) }
            } else {
                CommandModel::Unknown
            }
        } else if name == exit_word() {
            CommandModel::Exit
        } else {
            CommandModel::Unknown
        }
    }
}

/// Finds the next byte that is white space, or that is not.
fn find_change(s: &[u8], from: usize, space: bool) -> (r: usize)
    requires
        from <= s@.len(),
    ensures
        r == next_change(s@, from as int, space),
        from <= r <= s@.len(),
{
    let n: usize = s.len();
    let mut i: usize = from;
    while i < n && byte_is_space(s[i]) != space
        invariant
            from <= i <= n,
            n == s@.len(),
            next_change(s@, from as int, space) == next_change(s@, i as int, space),
        decreases n - i,
    {
        i += 1;
    }
    i
}

/// Splits a line into its words.
pub fn split_words(line: &[u8]) -> (r: Vec<Vec<u8>>)
    ensures
        r@.len() == words(line@).len(),
        forall|i: int| 0 <= i < r@.len() ==> (#[trigger] r@[i])@ == words(line@)[i],
{
    let n: usize = line.len();
    let mut out: Vec<Vec<u8>> = Vec::new();
    let mut position: usize = 0;
    let ghost mut done: Seq<Seq<u8>> = Seq::empty();
    proof {
        assert(done + words_from(line@, 0) =~= words(line@));
    }
    loop
        invariant
            position <= n,
            n == line@.len(),
            out@.len() == done.len(),
            forall|i: int| 0 <= i < out@.len() ==> (#[trigger] out@[i])@ == done[i],
            words(line@) == done + words_from(line@, position as int),
        decreases n - position,
    {
        let start: usize = find_change(line, position, false);
        let end: usize = find_change(line, start, true);
        if start >= end {
            proof {
                assert(done + Seq::<Seq<u8>>::empty() =~= done);
            }
            return out;
        }
        let word = copy_range(line, start, end);
        proof {
            assert(done + (seq![word@] + words_from(line@, end as int)) =~= done.push(word@)
                + words_from(line@, end as int));
            done = done.push(word@);
        }
        out.push(word);
        position = end;
    }
}

/// Turns ASCII capital letters into small ones.
pub fn lower(word: &[u8]) -> (r: Vec<u8>)
    ensures
        r@ == lowered(word@),
{
    let mut out: Vec<u8> = Vec::new();
    let mut i: usize = 0;
    while i < word.len()
        invariant
            i <= word@.len(),
            out@ == lowered(word@).subrange(0, i as int),
        decreases word@.len() - i,
    {
        let b: u8 = word[i];
        out.push(if 65 <= b && b <= 90 { b + 32 } else { b });
        assert(out@ =~= lowered(word@).subrange(0, i + 1));
        i += 1;
    }
    assert(lowered(word@).subrange(0, word@.len() as int) =~= lowered(word@));
    out
}

/// The argument at position `i` as text, if it is valid UTF-8.
fn argument(args: &Vec<Vec<u8>>, i: usize) -> (r: Option<String>)
    requires
        i < args@.len(),
    ensures
        r is Some <==> valid_utf8(args@[i as int]@),
        r matches Some(text) ==> text@ == decode_utf8(args@[i as int]@),
{
    let bytes = copy_range(args[i].as_slice(), 0, args[i].len());
    assert(bytes@ =~= args@[i as int]@);
    match string_from_utf8(bytes) {
        Some(text) => {
            proof {
                encode_utf8_decode_utf8(text@);
            }
            Some(text)
        },
        None => None,
    }
}

/// The words of a list as mathematical values.
pub open spec fn word_models(args: Seq<Vec<u8>>) -> Seq<Seq<u8>> {
    Seq::new(args.len(), |i: int| args[i]@)
}

/// Says what the given words ask for.
pub fn command_from_words(args: &Vec<Vec<u8>>) -> (r: Command)
    ensures
        r@ == command_of(word_models(args@)),
{
    if args.len() == 0 {
        return Command::Nothing;
    }
    let name = lower(args[0].as_slice());
    let upload: Vec<u8> = vec![117u8, 112u8, 108u8, 111u8, 97u8, 100u8];
    let download: Vec<u8> = vec![100u8, 111u8, 119u8, 110u8, 108u8, 111u8, 97u8, 100u8];
    let search: Vec<u8> = vec![115u8, 101u8, 97u8, 114u8, 99u8, 104u8];
    let exit: Vec<u8> = vec![101u8, 120u8, 105u8, 116u8];
    assert(upload@ =~= upload_word());
    assert(download@ =~= download_word());
    assert(search@ =~= search_word());
    assert(exit@ =~= exit_word());
    if same_bytes(name.as_slice(), upload.as_slice()) {
        if args.len() < 2 {
            return Command::Usage(Usage::Upload);
        }
        match argument(args, 1) {
            Some(file_path) => Command::Upload { file_path },
            None => Command::Unknown,
        }
    } else if same_bytes(name.as_slice(), download.as_slice()) {
        if args.len() < 3 {
            return Command::Usage(Usage::Download);
        }
        match (argument(args, 1), argument(args, 2)) {
            (Some(file_id), Some(destination)) => Command::Download { file_id, destination },
            _ => Command::Unknown,
        }
    } else if same_bytes(name.as_slice(), search.as_slice()) {
        if args.len() < 2 {
            return Command::Usage(Usage::Search);
        }
        match argument(args, 1) {
            Some(query) => Command::Search { query },
            None => Command::Unknown,
        }
    } else if same_bytes(name.as_slice(), exit.as_slice()) {
        Command::Exit
    } else {
        Command::Unknown
    }
}

/// Reads a command line.
pub fn parse_command(line: &str) -> (r: Command)
    ensures
        r@ == command_of(words(encode_utf8(line@))),
{
    let args = split_words(line.as_bytes());
    assert(word_models(args@) =~= words(encode_utf8(line@)));
    command_from_words(&args)
}

} // verus!
