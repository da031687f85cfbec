//! A small shell over a filesystem: commands, what each does to the working
//! directory, and what it answers.

use crate::filesystem::{list, DirectoryEntry, FsRead};
use crate::runtime::words::{parse_usize, parsed_usize, split_words, views, words_of};
use core::ops::Range;
use core::str::FromStr;
use vstd::prelude::*;
use vstd::string::StringExecFns;

verus! {

/// A command of the shell.
#[derive(Debug)]
pub enum Command {
    Help,
    Ls,
    Cd(String),
    Rd(String, Range<usize>),
}

/// What the words of a line mean. The first word names the command; `cd`
/// takes a name, `rd` a name and the two ends of a byte range; words after
/// those are ignored.
pub open spec fn parses(words: Seq<Seq<char>>, r: Result<Command, &'static str>) -> bool {
    if words.len() == 0 {
        r is Err && r->Err_0@ == "Empty command"@
    } else if words[0] == "help"@ {
        r is Ok && r->Ok_0 is Help
    } else if words[0] == "ls"@ {
        r is Ok && r->Ok_0 is Ls
    } else if words[0] == "cd"@ {
        if words.len() < 2 {
            r is Err && r->Err_0@ == "cd must be followed by folder name"@
        } else {
            r is Ok && r->Ok_0 is Cd && r->Ok_0->Cd_0@ == words[1]
        }
    } else if words[0] == "rd"@ {
        if words.len() < 4 || parsed_usize(words[2]) is None || parsed_usize(words[3]) is None {
            r is Err && r->Err_0@ == "use help for rd usage"@
        } else {
            &&& r is Ok
            &&& r->Ok_0 is Rd
            &&& r->Ok_0->Rd_0@ == words[1]
            &&& r->Ok_0->Rd_1.start == parsed_usize(words[2])->0
            &&& r->Ok_0->Rd_1.end == parsed_usize(words[3])->0
        }
    } else {
        r is Err && r->Err_0@ == "No such command"@
    }
}

impl Command {
    /// Reads a command from the words of a line.
    pub fn from_words(words: &Vec<String>) -> (r: Result<Command, &'static str>)
        ensures
            parses(views(words@), r),
    {
        if words.len() == 0 {
            return Err("Empty command");
        }
        let command = &words[0];
        if *command == "help".to_owned() {
            Ok(Self::Help)
        } else if *command == "ls".to_owned() {
            Ok(Self::Ls)
        } else if *command == "cd".to_owned() {
            if words.len() < 2 {
                return Err("cd must be followed by folder name");
            }
            Ok(Self::Cd(words[1].clone()))
        } else if *command == "rd".to_owned() {
            let msg = "use help for rd usage";
            if words.len() < 4 {
                return Err(msg);
            }
            let from = match parse_usize(words[2].as_str()) {
                Some(v) => v,
                None => {
                    return Err(msg);
                },
            };
            let to = match parse_usize(words[3].as_str()) {
                Some(v) => v,
                None => {
                    return Err(msg);
                },
            };
            Ok(Command::Rd(words[1].clone(), from..to))
        } else {
            Err("No such command")
        }
    }
}

impl FromStr for Command {
    type Err = &'static str;

    /// Reads a command from a line.
    fn from_str(s: &str) -> (r: Result<Self, Self::Err>)
        ensures
            parses(words_of(s@), r),
    {
        let words = split_words(s);
        Self::from_words(&words)
    }
}

/// The answer to a command.
#[derive(Debug)]
pub enum Reply<E> {
    /// The usage text is to be shown.
    Help,
    /// The entries of the working directory, numbered from 1.
    Listing(Vec<(usize, String)>),
    /// The working directory is now the entry that was named.
    Moved,
    /// The working directory has no entry of that name to move to.
    NoSuchDirectory,
    /// The working directory has no entry of that name to read.
    NoSuchFile,
    /// The filesystem refused.
    Failed(E),
    /// The bytes that were read.
    Data(Vec<u8>),
}

impl<E> Reply<E> {
    /// The sentence that tells the user that a name was not found, for the
    /// two answers that say so.
    pub fn notice(&self) -> (text: Option<&'static str>)
        ensures
            match *self {
                Reply::NoSuchDirectory => text is Some && text->0@ == "No such directory"@,
                Reply::NoSuchFile => text is Some && text->0@ == "No such file"@,
                _ => text is None,
            },
    {
        match self {
            Reply::NoSuchDirectory => Some("No such directory"),
            Reply::NoSuchFile => Some("No such file"),
            _ => None,
        }
    }
}

/// The usage text, line by line.
pub fn help_lines() -> (lines: Vec<&'static str>)
    ensures
        lines@.len() == 4,
        lines@[0]@ == "ls - list entries in the working directory"@,
        lines@[1]@ == "cd <FOLDER> - list entries in the working directory"@,
        lines@[2]@ == "rd <FILE> <FROM> <TO>"@,
        lines@[3]@ == "help - display this message"@,
{
    let mut lines: Vec<&'static str> = Vec::new();
    lines.push("ls - list entries in the working directory");
    lines.push("cd <FOLDER> - list entries in the working directory");
    lines.push("rd <FILE> <FROM> <TO>");
    lines.push("help - display this message");
    lines
}

/// The sixteen digits of lower-case hexadecimal.
pub open spec fn hex_digit(n: u8) -> char {
    seq!['0', '1', '2', '3', '4', '5', '6', '7', '8', '9', 'a', 'b', 'c', 'd', 'e', 'f'][n as int]
}

/// What is printed for the byte `b` at position `i`: its two digits and a
/// space, one more space after every eighth byte, and a line break after
/// every thirty-second.
pub open spec fn hex_cell(i: int, b: u8) -> Seq<char> {
    seq![hex_digit(b / 16), hex_digit(b % 16), ' '] + (if (i + 1) % 8 == 0 {
        seq![' ']
    } else {
        Seq::empty()
    }) + (if (i + 1) % 32 == 0 {
        seq!['\n']
    } else {
        Seq::empty()
    })
}

/// The cells of all the bytes, in order.
pub open spec fn hex_cells(bytes: Seq<u8>) -> Seq<char>
    decreases bytes.len(),
{
    if bytes.len() == 0 {
        Seq::empty()
    } else {
        hex_cells(bytes.drop_last()) + hex_cell(bytes.len() - 1, bytes.last())
    }
}

/// The digit of `n` as text.
fn hex_digit_str(n: u8) -> (s: &'static str)
    requires
        n < 16,
    ensures
        s@ =~= seq![hex_digit(n)],
{
    proof {
        reveal_strlit("0");
        reveal_strlit("1");
        reveal_strlit("2");
        reveal_strlit("3");
        reveal_strlit("4");
        reveal_strlit("5");
        reveal_strlit("6");
        reveal_strlit("7");
        reveal_strlit("8");
        reveal_strlit("9");
        reveal_strlit("a");
        reveal_strlit("b");
        reveal_strlit("c");
        reveal_strlit("d");
        reveal_strlit("e");
        reveal_strlit("f");
    }
    match n {
        0 => "0",
        1 => "1",
        2 => "2",
        3 => "3",
        4 => "4",
        5 => "5",
        6 => "6",
        7 => "7",
        8 => "8",
        9 => "9",
        10 => "a",
        11 => "b",
        12 => "c",
        13 => "d",
        14 => "e",
        _ => "f",
    }
}

/// The bytes as text: the cell of each byte, then a line break.
pub fn hex_dump(bytes: &[u8]) -> (text: String)
    ensures
        text@ == hex_cells(bytes@) + seq!['\n'],
{
    proof {
        reveal_strlit(" ");
        reveal_strlit("\n");
    }
    let mut text = String::new();
    let mut i: usize = 0;
    assert(bytes@.take(0) =~= Seq::empty());
    while i < bytes.len()
        invariant
            i <= bytes@.len(),
            text@ == hex_cells(bytes@.take(i as int)),
        decreases bytes@.len() - i,
    {
        proof {
            reveal_strlit(" ");
            reveal_strlit("\n");
        }
        let b = bytes[i];
        let ghost before = text@;
        text.append(hex_digit_str(b / 16));
        text.append(hex_digit_str(b % 16));
        text.append(" ");
        assert(text@ =~= before + seq![hex_digit(b / 16), hex_digit(b % 16), ' ']);
        let ghost digits = text@;
        if (i + 1) % 8 == 0 {
            text.append(" ");
            assert(text@ =~= digits + seq![' ']);
        } else {
            assert(text@ =~= digits + Seq::<char>::empty());
        }
        let ghost spaced = text@;
        if (i + 1) % 32 == 0 {
            text.append("\n");
            assert(text@ =~= spaced + seq!['\n']);
        } else {
            assert(text@ =~= spaced + Seq::<char>::empty());
        }
        proof {
            let now = bytes@.take(i + 1);
            assert(now.drop_last() =~= bytes@.take(i as int));
            assert(now.last() == b);
            assert(text@ =~= before + hex_cell(i as int, b));
        }
        i += 1;
    }
    assert(bytes@.take(i as int) =~= bytes@);
    text.append("\n");
    text
}

/// The entry at `k` is the first of `entries` that is called `name`.
pub open spec fn first_named<H>(entries: Seq<(Seq<char>, H)>, name: Seq<char>, k: int) -> bool {
    &&& 0 <= k < entries.len()
    &&& entries[k].0 == name
    &&& forall|j: int| 0 <= j < k ==> (#[trigger] entries[j]).0 != name
}

/// No entry is called `name`.
pub open spec fn unnamed<H>(entries: Seq<(Seq<char>, H)>, name: Seq<char>) -> bool {
    forall|j: int| 0 <= j < entries.len() ==> (#[trigger] entries[j]).0 != name
}

/// `lines` numbers the names of `entries` from 1, in order.
pub open spec fn numbered<H>(lines: Seq<(usize, String)>, entries: Seq<(Seq<char>, H)>) -> bool {
    &&& lines.len() == entries.len()
    &&& forall|i: int|
        0 <= i < lines.len() ==> (#[trigger] lines[i]).0 == i + 1 && lines[i].1@ == entries[i].0
}

/// How many bytes a range asks for: none when it is empty or reversed.
pub open spec fn span(range: Range<usize>) -> nat {
    if range.start < range.end {
        (range.end - range.start) as nat
    } else {
        0
    }
}

/// The answer to reading `range` of `handle`: the handle is opened, then
/// read into a buffer of just the size that the range asks for.
pub open spec fn read_reply<FS: FsRead>(
    fs: FS,
    handle: FS::NodeHandle,
    range: Range<usize>,
    reply: Reply<FS::Error>,
) -> bool {
    match fs.file_check(handle) {
        Err(e) => reply == Reply::Failed(e),
        Ok(_) => match fs.range_bytes(handle, range.start, range.end, span(range)) {
            Err(e) => reply == Reply::Failed(e),
            Ok(bytes) => reply is Data && reply->Data_0@ == bytes,
        },
    }
}

/// What a command does: `reply` is the answer and `after` the working
/// directory that it leaves, for the filesystem `fs` and the working
/// directory `dir`.
///
/// Only `cd` moves, and only to the first entry whose name is exactly the
/// one given; with no such entry the working directory stays and the answer
/// says so. A listing that fails is answered with the filesystem's error.
pub open spec fn outcome<FS: FsRead>(
    fs: FS,
    dir: FS::NodeHandle,
    cmd: Command,
    reply: Reply<FS::Error>,
    after: FS::NodeHandle,
) -> bool {
    match cmd {
        Command::Help => reply is Help && after == dir,
        Command::Ls => after == dir && match fs.listing(dir) {
            Err(e) => reply == Reply::Failed(e),
            Ok(entries) => reply is Listing && numbered(reply->Listing_0@, entries),
        },
        Command::Cd(name) => match fs.listing(dir) {
            Err(e) => reply == Reply::Failed(e) && after == dir,
            Ok(entries) => {
                ||| unnamed(entries, name@) && reply is NoSuchDirectory && after == dir
                ||| exists|k: int|
                    first_named(entries, name@, k) && reply is Moved && cloned(
                        (#[trigger] entries[k]).1,
                        after,
                    )
            },
        },
        Command::Rd(name, range) => after == dir && match fs.listing(dir) {
            Err(e) => reply == Reply::Failed(e),
            Ok(entries) => {
                ||| unnamed(entries, name@) && reply is NoSuchFile
                ||| exists|k: int|
                    first_named(entries, name@, k) && read_reply(fs, (#[trigger] entries[k]).1, range, reply)
            },
        },
    }
}

/// What one line of input leads to.
#[derive(Debug)]
pub struct Turn<E> {
    /// The first word of the line, to be shown back.
    pub echo: Option<String>,
    /// Why the line is no command, if it is none; the usage text is then
    /// the answer.
    pub complaint: Option<&'static str>,
    /// The answer to the command.
    pub reply: Reply<E>,
}

/// `turn` is what the line `line` leads to, and `after` the working
/// directory that it leaves: the line's first word is shown back; a line
/// that is a command is carried out; one that is none is answered with the
/// reason and, as `help` would be, with the usage text.
pub open spec fn turn_outcome<FS: FsRead>(
    fs: FS,
    dir: FS::NodeHandle,
    line: Seq<char>,
    turn: Turn<FS::Error>,
    after: FS::NodeHandle,
) -> bool {
    let words = words_of(line);
    &&& match turn.echo {
        Some(word) => words.len() > 0 && word@ == words[0],
        None => words.len() == 0,
    }
    &&& exists|r: Result<Command, &'static str>| #[trigger]
        parses(words, r) && match r {
            Ok(cmd) => turn.complaint is None && outcome(fs, dir, cmd, turn.reply, after),
            Err(msg) => turn.complaint == Some(msg) && outcome(fs, dir, Command::Help, turn.reply, after),
        }
}

/// The position of the first entry called `name`, if there is one.
pub fn find_entry<FS: FsRead>(dir_data: &Vec<DirectoryEntry<FS>>, name: &String) -> (r: Option<usize>)
    ensures
        match r {
            Some(k) => {
                &&& k < dir_data@.len()
                &&& dir_data@[k as int].name@ == name@
                &&& forall|j: int| 0 <= j < k ==> (#[trigger] dir_data@[j]).name@ != name@
            },
            None => forall|j: int| 0 <= j < dir_data@.len() ==> (#[trigger] dir_data@[j]).name@ != name@,
        },
{
    let mut i: usize = 0;
    while i < dir_data.len()
        invariant
            i <= dir_data@.len(),
            forall|j: int| 0 <= j < i ==> (#[trigger] dir_data@[j]).name@ != name@,
        decreases dir_data@.len() - i,
    {
        if dir_data[i].name == *name {
            return Some(i);
        }
        i += 1;
    }
    None
}

/// A shell: a filesystem and the working directory in it.
pub struct Tui<FS: FsRead> {
    pub fs: FS,
    pub dir: FS::NodeHandle,
}

impl<FS: FsRead> Tui<FS> {
    /// Attaches the filesystem and starts in its root.
    pub fn new(fs: FS) -> (tui: Self)
        requires
            fs.wf(),
        ensures
            tui.fs.wf(),
            tui.dir == tui.fs.root(),
    {
        let mut fs = fs;
        fs.init();
        let dir = fs.dir_root();
        Tui { fs, dir }
    }

    /// Takes one line of input: reads the command from it and carries it
    /// out. No line stops the shell.
    pub fn step(&mut self, line: &str) -> (turn: Turn<FS::Error>)
        requires
            old(self).fs.wf(),
        ensures
            final(self).fs == old(self).fs,
            turn_outcome(old(self).fs, old(self).dir, line@, turn, final(self).dir),
    {
        let words = split_words(line);
        let echo = if words.len() > 0 {
            Some(words[0].clone())
        } else {
            None
        };
        let parsed = Command::from_words(&words);
        assert(parses(words_of(line@), parsed));
        match parsed {
            Ok(cmd) => {
                let reply = self.execute(cmd);
                Turn { echo, complaint: None, reply }
            },
            Err(msg) => {
                let reply = self.execute(Command::Help);
                Turn { echo, complaint: Some(msg), reply }
            },
        }
    }

    /// Carries out one command.
    pub fn execute(&mut self, cmd: Command) -> (reply: Reply<FS::Error>)
        requires
            old(self).fs.wf(),
        ensures
            final(self).fs == old(self).fs,
            outcome(old(self).fs, old(self).dir, cmd, reply, final(self).dir),
    {
        let mut dir_data: Vec<DirectoryEntry<FS>> = Vec::new();
        let ghost shown = self.fs.listing(self.dir);
        match cmd {
            Command::Help => Reply::Help,
            Command::Ls => {
                match list(&self.fs, &self.dir, &mut dir_data) {
                    Err(e) => Reply::Failed(e),
                    Ok(_) => {
                        let mut lines: Vec<(usize, String)> = Vec::new();
                        let mut i: usize = 0;
                        while i < dir_data.len()
                            invariant
                                i <= dir_data@.len(),
                                shown is Ok,
                                dir_data@.len() == shown->Ok_0.len(),
                                forall|j: int|
                                    0 <= j < dir_data@.len() ==> (#[trigger] dir_data@[j]).name@
                                        == shown->Ok_0[j].0,
                                lines@.len() == i,
                                forall|j: int|
                                    0 <= j < i ==> (#[trigger] lines@[j]).0 == j + 1 && lines@[j].1@
                                        == shown->Ok_0[j].0,
                            decreases dir_data@.len() - i,
                        {
                            lines.push((i + 1, dir_data[i].name.clone()));
                            i += 1;
                        }
                        Reply::Listing(lines)
                    },
                }
            },
            Command::Cd(name) => {
                match list(&self.fs, &self.dir, &mut dir_data) {
                    Err(e) => Reply::Failed(e),
                    Ok(_) => match find_entry(&dir_data, &name) {
                        None => {
                            assert(unnamed(shown->Ok_0, name@)) by {
                                assert forall|j: int| 0 <= j < shown->Ok_0.len() implies (
                                #[trigger] shown->Ok_0[j]).0 != name@ by {
                                    assert(dir_data@[j].name@ == shown->Ok_0[j].0);
                                }
                            }
                            Reply::NoSuchDirectory
                        },
                        Some(k) => {
                            self.dir = dir_data[k].handle.clone();
                            assert(first_named(shown->Ok_0, name@, k as int)) by {
                                assert(dir_data@[k as int].name@ == shown->Ok_0[k as int].0);
                                assert forall|j: int| 0 <= j < k implies (#[trigger] shown->Ok_0[j]).0
                                    != name@ by {
                                    assert(dir_data@[j].name@ == shown->Ok_0[j].0);
                                }
                            }
                            assert(dir_data@[k as int].handle == shown->Ok_0[k as int].1);
                            Reply::Moved
                        },
                    },
                }
            },
            Command::Rd(name, range) => {
                match list(&self.fs, &self.dir, &mut dir_data) {
                    Err(e) => Reply::Failed(e),
                    Ok(_) => match find_entry(&dir_data, &name) {
                        None => {
                            assert(unnamed(shown->Ok_0, name@)) by {
                                assert forall|j: int| 0 <= j < shown->Ok_0.len() implies (
                                #[trigger] shown->Ok_0[j]).0 != name@ by {
                                    assert(dir_data@[j].name@ == shown->Ok_0[j].0);
                                }
                            }
                            Reply::NoSuchFile
                        },
                        Some(k) => {
                            assert(first_named(shown->Ok_0, name@, k as int)) by {
                                assert(dir_data@[k as int].name@ == shown->Ok_0[k as int].0);
                                assert forall|j: int| 0 <= j < k implies (#[trigger] shown->Ok_0[j]).0
                                    != name@ by {
                                    assert(dir_data@[j].name@ == shown->Ok_0[j].0);
                                }
                            }
                            assert(dir_data@[k as int].handle == shown->Ok_0[k as int].1);
                            let handle = &dir_data[k].handle;
                            match self.fs.file_open(handle) {
                                Err(e) => Reply::Failed(e),
                                Ok(file_ctx) => {
                                    let len: usize = if range.start < range.end {
                                        range.end - range.start
                                    } else {
                                        0
                                    };
                                    let mut buf = vec![0u8; len];
                                    let start = range.start;
                                    let end = range.end;
                                    let read = self.fs.file_read(
                                        handle,
                                        &file_ctx,
                                        range,
                                        buf.as_mut_slice(),
                                    );
                                    let _ = self.fs.file_close(handle, file_ctx);
                                    match read {
                                        Err(e) => Reply::Failed(e),
                                        Ok(_) => {
                                            assert(buf@ =~= self.fs.range_bytes(
                                                *handle,
                                                start,
                                                end,
                                                len as nat,
                                            )->Ok_0);
                                            Reply::Data(buf)
                                        },
                                    }
                                },
                            }
                        },
                    },
                }
            },
        }
    }
}

/// `cd` with a name that the working directory does not list leaves the
/// working directory where it was, and the answer says that there is no
/// such directory.
pub proof fn lemma_cd_unknown_stays<FS: FsRead>(
    fs: FS,
    dir: FS::NodeHandle,
    name: String,
    reply: Reply<FS::Error>,
    after: FS::NodeHandle,
)
    requires
        outcome(fs, dir, Command::Cd(name), reply, after),
        fs.listing(dir) is Ok,
        unnamed(fs.listing(dir)->Ok_0, name@),
    ensures
        after == dir,
        reply is NoSuchDirectory,
{
}

} // verus!
