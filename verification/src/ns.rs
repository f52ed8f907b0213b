//! The network namespace: the commands that create it, move an interface
//! into it and run a program inside it, how the outcome of such a command
//! is judged, and the resolver configuration seen inside the namespace.
//!
//! Running the commands and writing the file is the caller's part.

use vstd::prelude::*;
use vstd::string::StringExecFns;
use vstd::utf8::{decode_utf8, valid_utf8};
use crate::text::{dotted_quad, push_dotted_quad, push_signed_decimal, signed_decimal};

verus! {

/// A program and its arguments.
#[derive(Debug)]
pub struct CommandLine {
    pub program: String,
    pub args: Vec<String>,
}

/// The characters of each string of a list.
pub open spec fn texts(strings: Seq<String>) -> Seq<Seq<char>> {
    Seq::new(strings.len(), |i: int| strings[i]@)
}

impl View for CommandLine {
    type V = (Seq<char>, Seq<Seq<char>>);

    /// The program and the arguments, as characters.
    open spec fn view(&self) -> (Seq<char>, Seq<Seq<char>>) {
        (self.program@, texts(self.args@))
    }
}

/// Why a command counts as failed.
#[derive(Debug)]
pub enum CommandError {
    /// It ended with an exit code other than zero; `stderr` is what it wrote
    /// to standard error, or nothing where that is not text.
    NonZeroExit { code: i32, stderr: String },
    /// It was ended by a signal and left no exit code.
    KilledBySignal,
}

impl CommandError {
    /// The text of the error.
    pub open spec fn text(&self) -> Seq<char> {
        match self {
            CommandError::NonZeroExit { code, stderr } => "Non-Zero exit code ("@ + signed_decimal(
                *code as int,
            ) + "), "@ + stderr@,
            CommandError::KilledBySignal => "Process was killed by a signal"@,
        }
    }

    /// The text of the error.
    pub fn message(&self) -> (text: String)
        ensures
            text@ == self.text(),
    {
        match self {
            CommandError::NonZeroExit { code, stderr } => {
                let mut text = String::from_str("Non-Zero exit code (");
                push_signed_decimal(&mut text, *code);
                text.append("), ");
                text.append(stderr.as_str());
                assert(text@ =~= self.text());
                text
            },
            CommandError::KilledBySignal => String::from_str("Process was killed by a signal"),
        }
    }
}

/// The text that `bytes` encode, where they are UTF-8.
///
/// Trusted: this is `core::str::from_utf8`, which accepts exactly the byte
/// strings that are valid UTF-8 and reads them as the text they encode.
#[verifier::external_body]
fn utf8_text(bytes: &[u8]) -> (text: Option<&str>)
    ensures
        text is Some <==> valid_utf8(bytes@),
        text matches Some(t) ==> t@ == decode_utf8(bytes@),
{
    core::str::from_utf8(bytes).ok()
}

/// What a command wrote to standard error, as text: nothing where it is
/// not UTF-8.
pub open spec fn stderr_text(stderr: Seq<u8>) -> Seq<char> {
    if valid_utf8(stderr) {
        decode_utf8(stderr)
    } else {
        Seq::empty()
    }
}

/// Judges a finished command by its exit code: zero is success, another
/// code fails with what the command wrote to standard error, and no code
/// means that a signal ended it.
pub fn check_ok_return_code(code: Option<i32>, stderr: &[u8]) -> (checked: Result<
    (),
    CommandError,
>)
    ensures
        match code {
            Some(c) => if c == 0 {
                checked is Ok
            } else {
                checked matches Err(CommandError::NonZeroExit { code: failed, stderr: text })
                    && failed == c && text@ == stderr_text(stderr@)
            },
            None => checked matches Err(CommandError::KilledBySignal),
        },
{
    match code {
        Some(c) => {
            if c != 0 {
                let text = match utf8_text(stderr) {
                    Some(t) => t.to_owned(),
                    None => String::new(),
                };
                return Err(CommandError::NonZeroExit { code: c, stderr: text });
            }
            Ok(())
        },
        None => Err(CommandError::KilledBySignal),
    }
}

/// One line of resolver configuration.
pub open spec fn nameserver_line(server: u32) -> Seq<char> {
    "nameserver "@ + dotted_quad(server)
}

/// The resolver configuration that names `servers`: a line for each, with a
/// line feed between two lines and none at the end.
pub open spec fn resolv_conf(servers: Seq<u32>) -> Seq<char>
    decreases servers.len(),
{
    if servers.len() == 0 {
        Seq::empty()
    } else if servers.len() == 1 {
        nameserver_line(servers[0])
    } else {
        resolv_conf(servers.drop_last()) + seq!['\n'] + nameserver_line(servers.last())
    }
}

/// A resolver configuration and the place it belongs to: the file
/// `file_name` in the directory `namespace` below `root`.
#[derive(Debug)]
pub struct ResolvConf {
    pub root: String,
    pub namespace: String,
    pub file_name: String,
    pub contents: String,
}

/// A network namespace, known by its name.
#[derive(Debug)]
pub struct NetworkNamespace {
    name: String,
}

impl View for NetworkNamespace {
    type V = Seq<char>;

    /// The name.
    closed spec fn view(&self) -> Seq<char> {
        self.name@
    }
}

impl NetworkNamespace {
    /// The command that creates the namespace `name`.
    pub fn create_command(name: &str) -> (command: CommandLine)
        ensures
            command@ == ("ip"@, seq!["netns"@, "add"@, name@]),
    {
        let mut args: Vec<String> = Vec::new();
        args.push(String::from_str("netns"));
        args.push(String::from_str("add"));
        args.push(name.to_owned());
        let command = CommandLine { program: String::from_str("ip"), args };
        assert(command@.1 =~= seq!["netns"@, "add"@, name@]);
        command
    }

    /// The namespace `name`, once the command that creates it has ended
    /// with `code` and `stderr`: the handle if the command succeeded, its
    /// failure if not.
    pub fn new(name: &str, code: Option<i32>, stderr: &[u8]) -> (created: Result<
        NetworkNamespace,
        CommandError,
    >)
        ensures
            match code {
                Some(c) => if c == 0 {
                    created matches Ok(ns) && ns@ == name@
                } else {
                    created matches Err(CommandError::NonZeroExit { code: failed, stderr: text })
                        && failed == c && text@ == stderr_text(stderr@)
                },
                None => created matches Err(CommandError::KilledBySignal),
            },
    {
        match check_ok_return_code(code, stderr) {
            Ok(()) => Ok(NetworkNamespace { name: name.to_owned() }),
            Err(e) => Err(e),
        }
    }

    /// The name of the namespace.
    pub fn name(&self) -> (name: &str)
        ensures
            name@ == self@,
    {
        self.name.as_str()
    }

    /// The command that moves the interface `iface_name` into the namespace.
    pub fn attach_interface(&self, iface_name: &str) -> (command: CommandLine)
        ensures
            command@ == ("ip"@, seq!["link"@, "set"@, iface_name@, "netns"@, self@]),
    {
        let mut args: Vec<String> = Vec::new();
        args.push(String::from_str("link"));
        args.push(String::from_str("set"));
        args.push(iface_name.to_owned());
        args.push(String::from_str("netns"));
        args.push(self.name.clone());
        let command = CommandLine { program: String::from_str("ip"), args };
        assert(command@.1 =~= seq!["link"@, "set"@, iface_name@, "netns"@, self@]);
        command
    }

    /// The resolver configuration of the namespace that names `servers`,
    /// and where it is written: `/etc/ns/<name>/resolv.conf`.
    pub fn configure_dns_servers(&self, servers: &[u32]) -> (conf: ResolvConf)
        ensures
            conf.root@ == "/etc/ns"@,
            conf.namespace@ == self@,
            conf.file_name@ == "resolv.conf"@,
            conf.contents@ == resolv_conf(servers@),
    {
        let mut contents = String::new();
        let mut i: usize = 0;
        while i < servers.len()
            invariant
                i <= servers@.len(),
                contents@ == resolv_conf(servers@.take(i as int)),
            decreases servers@.len() - i,
        {
            if i > 0 {
                proof {
                    reveal_strlit("\n");
                }
                contents.append("\n");
            }
            contents.append("nameserver ");
            push_dotted_quad(&mut contents, servers[i]);
            proof {
                let next = servers@.take(i + 1);
                assert(next.drop_last() =~= servers@.take(i as int));
                assert(next.last() == servers@[i as int]);
                assert(contents@ =~= resolv_conf(next));
            }
            i += 1;
        }
        assert(servers@.take(i as int) =~= servers@);
        ResolvConf {
            root: String::from_str("/etc/ns"),
            namespace: self.name.clone(),
            file_name: String::from_str("resolv.conf"),
            contents,
        }
    }

    /// The command that runs `cmd` with `args` inside the namespace.
    pub fn exec_inside(&self, cmd: &str, args: &[&str]) -> (command: CommandLine)
        ensures
            command@ == ("ip"@, seq!["netns"@, "exec"@, self@, cmd@] + Seq::new(
                args@.len(),
                |i: int| args@[i]@,
            )),
    {
        let mut all: Vec<String> = Vec::new();
        all.push(String::from_str("netns"));
        all.push(String::from_str("exec"));
        all.push(self.name.clone());
        all.push(cmd.to_owned());
        let mut i: usize = 0;
        while i < args.len()
            invariant
                i <= args@.len(),
                texts(all@) == seq!["netns"@, "exec"@, self@, cmd@] + Seq::new(
                    i as nat,
                    |k: int| args@[k]@,
                ),
            decreases args@.len() - i,
        {
            let ghost before = texts(all@);
            all.push(args[i].to_owned());
            assert(texts(all@) =~= before.push(args@[i as int]@));
            assert(texts(all@) =~= seq!["netns"@, "exec"@, self@, cmd@] + Seq::new(
                (i + 1) as nat,
                |k: int| args@[k]@,
            ));
            i += 1;
        }
        CommandLine { program: String::from_str("ip"), args: all }
    }
}

} // verus!
