//! The configuration of a run and how it is resolved.
//!
//! Every setting that the command line leaves open takes a default, and some
//! defaults depend on the kind of host. Resolution happens once, before the
//! first attempt; nothing here is looked up again later.

use crate::encoding::{label_encoding_name, TextEncoding};
use vstd::prelude::*;

verus! {

/// The kinds of host that the defaults tell apart.
#[derive(Clone, Copy, Debug, PartialEq, Eq, Structural)]
pub enum HostKind {
    /// A host of the Windows family.
    Windows,
    /// Any other host.
    Other,
}

/// The defaults of one kind of host.
#[derive(Debug)]
pub struct PlatformDefaults {
    /// The shell that interprets the command.
    pub shell: String,
    /// The flag that makes the shell take the command from its arguments.
    pub shell_flag: String,
    /// The encoding used where none is asked for or the one asked for is
    /// unknown.
    pub encoding: TextEncoding,
}

/// The settings as the command line gives them.
#[derive(Debug)]
pub struct RunConfigArgs {
    /// The words of the command.
    pub command: Vec<String>,
    /// The shell to use in place of the host's default.
    pub shell: Option<String>,
    /// The working directory to use in place of the current one.
    pub path: Option<String>,
    /// The log file to use in place of the default.
    pub log_file_name: Option<String>,
    /// The label of the encoding to use in place of the host's default.
    pub encoding: Option<String>,
}

/// The settings of a run, fully resolved.
#[derive(Debug)]
pub struct RunConfig {
    /// The command line handed to the shell.
    pub command: String,
    /// The shell that interprets the command.
    pub shell: String,
    /// The directory in which the child runs.
    pub path: String,
    /// The file to which log lines are appended.
    pub log_file_name: String,
    /// The encoding of the child's output.
    pub encoding: TextEncoding,
}

/// What has to be launched for one attempt.
#[derive(Debug)]
pub struct Invocation {
    /// The program to launch.
    pub program: String,
    /// Its arguments, in order.
    pub arguments: Vec<String>,
    /// The directory to launch it in.
    pub working_directory: String,
}

/// The name under which the Windows family of hosts is known.
pub open spec fn windows_os_name() -> Seq<char> {
    "windows"@
}

/// The log file of a run that names none.
pub open spec fn default_log_file_name() -> Seq<char> {
    "stillrun.log"@
}

/// The default shell of a host.
pub open spec fn default_shell(host: HostKind) -> Seq<char> {
    match host {
        HostKind::Windows => "cmd"@,
        HostKind::Other => "sh"@,
    }
}

/// The flag with which a host's shell takes a command.
pub open spec fn shell_flag(host: HostKind) -> Seq<char> {
    match host {
        HostKind::Windows => "/C"@,
        HostKind::Other => "-c"@,
    }
}

/// The name of the fallback encoding of a host.
pub open spec fn fallback_encoding_name(host: HostKind) -> Seq<char> {
    match host {
        HostKind::Windows => "GBK"@,
        HostKind::Other => "UTF-8"@,
    }
}

/// The name of the encoding that a run uses: that of the label asked for
/// if there is one and it is known, and the host's fallback otherwise.
pub open spec fn resolved_encoding_name(requested: Option<Seq<char>>, host: HostKind) -> Seq<char> {
    match requested {
        Some(label) => match label_encoding_name(label) {
            Some(name) => name,
            None => fallback_encoding_name(host),
        },
        None => fallback_encoding_name(host),
    }
}

/// The texts of the strings of `words`.
pub open spec fn texts(words: Seq<String>) -> Seq<Seq<char>> {
    Seq::new(words.len(), |i: int| words[i]@)
}

/// The words of `words` with one space between each two neighbours.
pub open spec fn joined(words: Seq<Seq<char>>) -> Seq<char>
    decreases words.len(),
{
    if words.len() == 0 {
        Seq::empty()
    } else if words.len() == 1 {
        words[0]
    } else {
        joined(words.drop_last()) + seq![' '] + words.last()
    }
}

/// The text of an optional string.
pub open spec fn text_of(value: Option<String>) -> Option<Seq<char>> {
    match value {
        Some(s) => Some(s@),
        None => None,
    }
}

/// `value` where there is one, `default` otherwise.
pub open spec fn or_default(value: Option<Seq<char>>, default: Seq<char>) -> Seq<char> {
    match value {
        Some(s) => s,
        None => default,
    }
}

impl HostKind {
    /// The kind of host that goes by the operating system name `name`:
    /// `windows` is the Windows family, every other name is not.
    pub fn from_os_name(name: &str) -> (host: HostKind)
        ensures
            host == if name@ == windows_os_name() {
                HostKind::Windows
            } else {
                HostKind::Other
            },
    {
        if String::from_str(name) == String::from_str("windows") {
            HostKind::Windows
        } else {
            HostKind::Other
        }
    }
}

/// The defaults of a kind of host.
pub fn platform_defaults(host: HostKind) -> (defaults: PlatformDefaults)
    ensures
        defaults.shell@ == default_shell(host),
        defaults.shell_flag@ == shell_flag(host),
        defaults.encoding@ == fallback_encoding_name(host),
{
    match host {
        HostKind::Windows => PlatformDefaults {
            shell: String::from_str("cmd"),
            shell_flag: String::from_str("/C"),
            encoding: TextEncoding::gbk(),
        },
        HostKind::Other => PlatformDefaults {
            shell: String::from_str("sh"),
            shell_flag: String::from_str("-c"),
            encoding: TextEncoding::utf_8(),
        },
    }
}

/// Joins the words of a command with single spaces.
pub fn join_words(words: &Vec<String>) -> (line: String)
    ensures
        line@ == joined(texts(words@)),
{
    let mut line = String::new();
    let mut i: usize = 0;
    while i < words.len()
        invariant
            i <= words.len(),
            line@ == joined(texts(words@).take(i as int)),
        decreases words.len() - i,
    {
        if i > 0 {
            line.append(" ");
        }
        line.append(words[i].as_str());
        proof {
            reveal_strlit(" ");
            let before = texts(words@).take(i as int);
            let after = texts(words@).take(i as int + 1);
            assert(after.drop_last() =~= before);
        }
        i = i + 1;
    }
    assert(texts(words@).take(i as int) =~= texts(words@));
    line
}

/// The encoding of a run, given what the lookup of the requested label
/// found: the encoding found, or the host's fallback where none was.
pub fn choose_encoding(found: Option<TextEncoding>, host: HostKind) -> (encoding: TextEncoding)
    ensures
        encoding@ == match found {
            Some(e) => e@,
            None => fallback_encoding_name(host),
        },
{
    match found {
        Some(e) => e,
        None => platform_defaults(host).encoding,
    }
}

/// The encoding of a run that asks for the label `requested`, or for none.
pub fn resolve_encoding(requested: &Option<String>, host: HostKind) -> (encoding: TextEncoding)
    ensures
        encoding@ == resolved_encoding_name(text_of(*requested), host),
{
    match requested {
        Some(label) => choose_encoding(TextEncoding::for_label(label.as_str()), host),
        None => choose_encoding(None, host),
    }
}

/// Resolves the settings of a run from the command line, the kind of host
/// and the current directory.
pub fn get_config(args: &RunConfigArgs, host: HostKind, current_dir: &str) -> (config: RunConfig)
    ensures
        config.command@ == joined(texts(args.command@)),
        config.shell@ == or_default(text_of(args.shell), default_shell(host)),
        config.path@ == or_default(text_of(args.path), current_dir@),
        config.log_file_name@ == or_default(text_of(args.log_file_name), default_log_file_name()),
        config.encoding@ == resolved_encoding_name(text_of(args.encoding), host),
{
    let defaults = platform_defaults(host);
    RunConfig {
        shell: match &args.shell {
            Some(shell) => shell.clone(),
            None => defaults.shell,
        },
        path: match &args.path {
            Some(path) => path.clone(),
            None => String::from_str(current_dir),
        },
        command: join_words(&args.command),
        log_file_name: match &args.log_file_name {
            Some(name) => name.clone(),
            None => String::from_str("stillrun.log"),
        },
        encoding: resolve_encoding(&args.encoding, host),
    }
}

impl RunConfig {
    /// What to launch for an attempt: the shell, with its flag and the
    /// command line as its two arguments, in the working directory.
    pub fn invocation(&self, host: HostKind) -> (invocation: Invocation)
        ensures
            invocation.program@ == self.shell@,
            invocation.arguments@.len() == 2,
            invocation.arguments@[0]@ == shell_flag(host),
            invocation.arguments@[1]@ == self.command@,
            invocation.working_directory@ == self.path@,
    {
        let mut arguments: Vec<String> = Vec::new();
        arguments.push(platform_defaults(host).shell_flag);
        arguments.push(self.command.clone());
        Invocation {
            program: self.shell.clone(),
            arguments,
            working_directory: self.path.clone(),
        }
    }
}

} // verus!
