//! The command line: `[-u user] [-p password] [-f folder] [-n number]
//! command server`, and which command runs.
use vstd::prelude::*;

verus! {

broadcast use vstd::string::group_string_axioms;

/// What the command line gives.
#[derive(Debug, PartialEq, Eq)]
pub struct Arguments {
    pub username: String,
    pub password: String,
    pub folder: String,
    pub message_num: String,
    pub command: String,
    pub server_name: String,
}

/// The model of the command line's values.
pub struct SpecArguments {
    pub username: Seq<char>,
    pub password: Seq<char>,
    pub folder: Seq<char>,
    pub message_num: Seq<char>,
    pub command: Seq<char>,
    pub server_name: Seq<char>,
    /// One for each of `-u` and `-p`, two for the command and server.
    pub count: nat,
}

impl View for Arguments {
    type V = SpecArguments;

    open spec fn view(&self) -> SpecArguments {
        SpecArguments {
            username: self.username@,
            password: self.password@,
            folder: self.folder@,
            message_num: self.message_num@,
            command: self.command@,
            server_name: self.server_name@,
            count: 0,
        }
    }
}

/// How reading the command line ends.
pub enum ArgsVerdict {
    Read(SpecArguments),
    /// The command line is unusable (`exit_command_line`).
    Unusable,
    /// An option is the last word, so its value is missing: reading it
    /// indexes past the end.
    MissingValue,
}

/// Reading the words from index `i` on, with what was read so far in `st`.
/// The words are read in pairs; fewer than six words make the command line
/// unusable; the first word that is not an option is the command, and the
/// word after it the server.
pub open spec fn scan_args(args: Seq<Seq<char>>, i: nat, st: SpecArguments) -> ArgsVerdict
    decreases args.len() - i,
{
    if i >= args.len() {
        ArgsVerdict::Read(st)
    } else if args.len() < 6 {
        ArgsVerdict::Unusable
    } else if args[i as int] == "-u"@ || args[i as int] == "-p"@ || args[i as int] == "-f"@
        || args[i as int] == "-n"@ {
        if i + 1 >= args.len() {
            ArgsVerdict::MissingValue
        } else {
            let v = args[i + 1 as int];
            if args[i as int] == "-u"@ {
                scan_args(args, i + 2, SpecArguments { username: v, count: st.count + 1, ..st })
            } else if args[i as int] == "-p"@ {
                scan_args(args, i + 2, SpecArguments { password: v, count: st.count + 1, ..st })
            } else if args[i as int] == "-f"@ {
                if v.len() == 0 {
                    ArgsVerdict::Unusable
                } else {
                    scan_args(args, i + 2, SpecArguments { folder: v, ..st })
                }
            } else {
                scan_args(args, i + 2, SpecArguments { message_num: v, ..st })
            }
        }
    } else if args.len() < i + 2 {
        ArgsVerdict::Unusable
    } else {
        ArgsVerdict::Read(
            SpecArguments {
                command: args[i as int],
                server_name: args[i + 1 as int],
                count: st.count + 2,
                ..st
            },
        )
    }
}

/// Nothing read yet.
pub open spec fn no_arguments() -> SpecArguments {
    SpecArguments {
        username: Seq::empty(),
        password: Seq::empty(),
        folder: Seq::empty(),
        message_num: Seq::empty(),
        command: Seq::empty(),
        server_name: Seq::empty(),
        count: 0,
    }
}

/// The command line `args` (the program's name first): both `-u` and `-p`
/// and the command with its server must be given; the folder is `INBOX`
/// unless `-f` names one.
pub open spec fn spec_parse_arguments(args: Seq<Seq<char>>) -> ArgsVerdict {
    match scan_args(args, 1, no_arguments()) {
        ArgsVerdict::Read(st) => if st.count != 4 {
            ArgsVerdict::Unusable
        } else if st.folder.len() == 0 {
            ArgsVerdict::Read(SpecArguments { folder: "INBOX"@, count: 0, ..st })
        } else {
            ArgsVerdict::Read(SpecArguments { count: 0, ..st })
        },
        other => other,
    }
}

/// Why the command line cannot be used.
#[derive(Debug, Clone, Copy, PartialEq, Eq, Structural)]
pub enum ArgsFailure {
    Unusable,
    MissingValue,
}

/// Reads the command line `args`.
pub fn parse_arguments(args: &Vec<String>) -> (r: Result<Arguments, ArgsFailure>)
    ensures
        match spec_parse_arguments(args.deep_view()) {
            ArgsVerdict::Read(a) => r matches Ok(v) && v@ == a,
            ArgsVerdict::Unusable => r == Err::<Arguments, ArgsFailure>(ArgsFailure::Unusable),
            ArgsVerdict::MissingValue => r == Err::<Arguments, ArgsFailure>(
                ArgsFailure::MissingValue,
            ),
        },
{
    let ghost a = args.deep_view();
    let u = String::from_str("-u");
    let pw = String::from_str("-p");
    let f = String::from_str("-f");
    let n = String::from_str("-n");
    let mut username = String::new();
    let mut password = String::new();
    let mut folder = String::new();
    let mut message_num = String::new();
    let mut command = String::new();
    let mut server_name = String::new();
    let mut count: usize = 0;
    let mut i: usize = 1;
    let ghost start = no_arguments();
    let mut done = false;
    while !done && i < args.len()
        invariant
            a == args.deep_view(),
            a.len() == args.len(),
            start == no_arguments(),
            1 <= i,
            count <= args.len(),
            !done ==> count <= i,
            u@ == "-u"@,
            pw@ == "-p"@,
            f@ == "-f"@,
            n@ == "-n"@,
            scan_args(a, 1, start) == (if done {
                ArgsVerdict::Read(
                    SpecArguments {
                        username: username@,
                        password: password@,
                        folder: folder@,
                        message_num: message_num@,
                        command: command@,
                        server_name: server_name@,
                        count: count as nat,
                    },
                )
            } else {
                scan_args(
                    a,
                    i as nat,
                    SpecArguments {
                        username: username@,
                        password: password@,
                        folder: folder@,
                        message_num: message_num@,
                        command: command@,
                        server_name: server_name@,
                        count: count as nat,
                    },
                )
            }),
        decreases args.len() - i, if done { 0int } else { 1int },
    {
        if args.len() < 6 {
            return Err(ArgsFailure::Unusable);
        }
        let w = &args[i];
        assert(a[i as int] == w@);
        if *w == u || *w == pw || *w == f || *w == n {
            if i + 1 >= args.len() {
                return Err(ArgsFailure::MissingValue);
            }
            let v = args[i + 1].clone();
            assert(a[i + 1] == v@);
            if *w == u {
                username = v;
                count = count + 1;
            } else if *w == pw {
                password = v;
                count = count + 1;
            } else if *w == f {
                if v.as_str().is_empty() {
                    return Err(ArgsFailure::Unusable);
                }
                folder = v;
            } else {
                message_num = v;
            }
            i = i + 2;
        } else {
            if args.len() - i < 2 {
                return Err(ArgsFailure::Unusable);
            }
            command = w.clone();
            server_name = args[i + 1].clone();
            assert(a[i + 1] == server_name@);
            count = count + 2;
            done = true;
        }
    }
    if count != 4 {
        return Err(ArgsFailure::Unusable);
    }
    if folder.as_str().is_empty() {
        folder = String::from_str("INBOX");
    }
    Ok(Arguments { username, password, folder, message_num, command, server_name })
}

/// The command that runs.
#[derive(Debug, Clone, Copy, PartialEq, Eq, Structural)]
pub enum CommandKind {
    Retrieve,
    Parse,
    Mime,
    List,
    /// Any other word: nothing runs.
    Other,
}

pub open spec fn spec_command_kind(command: Seq<char>) -> CommandKind {
    if command == "retrieve"@ {
        CommandKind::Retrieve
    } else if command == "parse"@ {
        CommandKind::Parse
    } else if command == "mime"@ {
        CommandKind::Mime
    } else if command == "list"@ {
        CommandKind::List
    } else {
        CommandKind::Other
    }
}

/// Which command the word `command` names.
pub fn command_kind(command: &str) -> (k: CommandKind)
    ensures
        k == spec_command_kind(command@),
{
    let c = String::from_str(command);
    if c == String::from_str("retrieve") {
        CommandKind::Retrieve
    } else if c == String::from_str("parse") {
        CommandKind::Parse
    } else if c == String::from_str("mime") {
        CommandKind::Mime
    } else if c == String::from_str("list") {
        CommandKind::List
    } else {
        CommandKind::Other
    }
}

} // verus!
