use chrono::{Datelike, Timelike};
use vstd::prelude::*;
use vstd::string::StrSliceExecFns;
use vstd::utf8::encode_utf8;

use crate::error::{Error, ErrorKind};
use crate::fs::{opt_str_view, opt_view};
use crate::shell::{escape_str, escaped};
use crate::run::random_below;
use crate::text::{
    chars_of, concat_str, decimal_view, padded_view, push_decimal, push_padded, push_str, string_of,
    sub_chars,
};

verus! {

/// The UTF-8 bytes of a text.
pub open spec fn utf8(s: Seq<char>) -> Seq<u8> {
    encode_utf8(s)
}

/// The views of an argument vector.
pub open spec fn argv_view(v: Seq<Vec<u8>>) -> Seq<Seq<u8>> {
    v.map_values(|a: Vec<u8>| a@)
}

/// A flag followed by its value, when the value is set.
pub open spec fn flag_pair(flag: Seq<char>, value: Option<Seq<char>>) -> Seq<Seq<u8>> {
    match value {
        Some(v) => seq![utf8(flag), utf8(v)],
        None => Seq::empty(),
    }
}

/// `-o option` for each ssh option, in order.
pub open spec fn option_flags(options: Seq<String>) -> Seq<Seq<u8>>
    decreases options.len(),
{
    if options.len() == 0 {
        Seq::empty()
    } else {
        option_flags(options.drop_last()) + seq![utf8("-o"@), utf8(options.last()@)]
    }
}

/// How to reach a remote host through ssh.
#[derive(Clone, Debug)]
pub struct Ssh {
    pub host: String,
    pub cipher: Option<String>,
    pub config: Option<String>,
    pub identity: Option<String>,
    pub port: Option<String>,
    /// The path of a live master control socket.
    pub control: Option<String>,
    pub options: Vec<String>,
}

/// `ssh` with the cipher, config, identity, port and options of `ssh`.
pub open spec fn ssh_base_argv(ssh: Ssh) -> Seq<Seq<u8>> {
    seq![utf8("ssh"@)] + flag_pair("-c"@, opt_view(ssh.cipher)) + flag_pair(
        "-F"@,
        opt_view(ssh.config),
    ) + flag_pair("-i"@, opt_view(ssh.identity)) + flag_pair("-p"@, opt_view(ssh.port))
        + option_flags(ssh.options@)
}

/// The ssh command that runs what follows it on the host, through the
/// control socket when there is one.
pub open spec fn ssh_argv(ssh: Ssh) -> Seq<Seq<u8>> {
    ssh_base_argv(ssh) + flag_pair("-S"@, opt_view(ssh.control)) + seq![utf8(ssh.host@)]
}

/// The bytes of a string literal or slice.
pub fn lit(s: &str) -> (r: Vec<u8>)
    ensures
        r@ == utf8(s@),
{
    s.as_bytes_vec()
}

/// Appends `more` to `argv`.
fn extend_argv(argv: &mut Vec<Vec<u8>>, more: Vec<Vec<u8>>)
    ensures
        argv_view(final(argv)@) == argv_view(old(argv)@) + argv_view(more@),
{
    let ghost start = argv_view(argv@);
    let mut i: usize = 0;
    while i < more.len()
        invariant
            0 <= i <= more.len(),
            argv_view(argv@) == start + argv_view(more@).subrange(0, i as int),
        decreases more.len() - i,
    {
        let ghost before = argv@;
        argv.push(more[i].clone());
        assert(argv_view(argv@) =~= argv_view(before).push(more@[i as int]@));
        assert(argv_view(more@).subrange(0, i + 1) =~= argv_view(more@).subrange(0, i as int).push(
            more@[i as int]@,
        ));
        i = i + 1;
    }
    assert(argv_view(more@).subrange(0, more.len() as int) =~= argv_view(more@));
}

/// Appends a flag and its value when the value is set.
fn push_flag(argv: &mut Vec<Vec<u8>>, flag: &str, value: &Option<String>)
    ensures
        argv_view(final(argv)@) == argv_view(old(argv)@) + flag_pair(flag@, opt_view(*value)),
{
    let ghost before = argv_view(argv@);
    match value {
        Some(v) => {
            argv.push(lit(flag));
            argv.push(lit(v.as_str()));
            assert(argv_view(argv@) =~= before + flag_pair(flag@, opt_view(*value)));
        },
        None => {
            assert(argv_view(argv@) =~= before + flag_pair(flag@, opt_view(*value)));
        },
    }
}

impl Ssh {
    pub fn new(
        host: &str,
        cipher: Option<&str>,
        config: Option<&str>,
        identity: Option<&str>,
        port: Option<&str>,
        options: &Vec<String>,
    ) -> (r: Ssh)
        ensures
            r.host@ == host@,
            opt_view(r.cipher) == opt_str_view(cipher),
            opt_view(r.config) == opt_str_view(config),
            opt_view(r.identity) == opt_str_view(identity),
            opt_view(r.port) == opt_str_view(port),
            r.control is None,
            r.options@ == options@,
    {
        Ssh {
            host: host.to_owned(),
            cipher: owned(cipher),
            config: owned(config),
            identity: owned(identity),
            port: owned(port),
            control: None,
            options: options.clone(),
        }
    }

    /// `ssh` with cipher, config, identity, port and options, before any
    /// control socket and host.
    pub fn make_pre_cmd(&self) -> (r: Vec<Vec<u8>>)
        ensures
            argv_view(r@) == ssh_base_argv(*self),
    {
        let mut argv: Vec<Vec<u8>> = Vec::new();
        argv.push(lit("ssh"));
        assert(argv_view(argv@) =~= seq![utf8("ssh"@)]);
        push_flag(&mut argv, "-c", &self.cipher);
        push_flag(&mut argv, "-F", &self.config);
        push_flag(&mut argv, "-i", &self.identity);
        push_flag(&mut argv, "-p", &self.port);
        let ghost start = argv_view(argv@);
        let mut i: usize = 0;
        while i < self.options.len()
            invariant
                0 <= i <= self.options.len(),
                argv_view(argv@) == start + option_flags(self.options@.subrange(0, i as int)),
            decreases self.options.len() - i,
        {
            let ghost before = argv_view(argv@);
            argv.push(lit("-o"));
            argv.push(lit(self.options[i].as_str()));
            proof {
                let sub = self.options@.subrange(0, i + 1);
                assert(sub.drop_last() =~= self.options@.subrange(0, i as int));
                assert(argv_view(argv@) =~= before + seq![
                    utf8("-o"@),
                    utf8(self.options@[i as int]@),
                ]);
            }
            i = i + 1;
        }
        assert(self.options@.subrange(0, self.options.len() as int) =~= self.options@);
        argv
    }

    /// The ssh command that runs what is appended to it on the host.
    pub fn to_cmd(&self) -> (r: Vec<Vec<u8>>)
        ensures
            argv_view(r@) == ssh_argv(*self),
    {
        let mut argv = self.make_pre_cmd();
        push_flag(&mut argv, "-S", &self.control);
        let ghost before = argv_view(argv@);
        argv.push(lit(self.host.as_str()));
        assert(argv_view(argv@) =~= before + seq![utf8(self.host@)]);
        argv
    }
}

/// An owned copy of an optional string slice.
fn owned(s: Option<&str>) -> (r: Option<String>)
    ensures
        opt_view(r) == opt_str_view(s),
{
    match s {
        Some(v) => Some(v.to_owned()),
        None => None,
    }
}

} // verus!

verus! {

/// Where a command runs.
#[derive(Clone, Debug)]
pub enum CmdTarget {
    Local,
    Remote { ssh: Ssh },
}

/// The command that runs program `base` on the target.
pub open spec fn target_argv(t: CmdTarget, base: Seq<char>) -> Seq<Seq<u8>> {
    match t {
        CmdTarget::Local => seq![utf8(base)],
        CmdTarget::Remote { ssh } => ssh_argv(ssh) + seq![utf8(base)],
    }
}

/// The command that asks the target's shell whether program `base` exists.
pub open spec fn check_argv(t: CmdTarget, base: Seq<char>) -> Seq<Seq<u8>> {
    match t {
        CmdTarget::Local => seq![utf8("sh"@), utf8("-c"@), utf8("command -v "@ + base)],
        CmdTarget::Remote { ssh } => ssh_argv(ssh) + seq![
            utf8("command"@),
            utf8("-v"@),
            utf8(base),
        ],
    }
}

/// `flag` and the value followed by a space, when the value is set.
pub open spec fn text_flag(flag: Seq<char>, value: Option<Seq<char>>) -> Seq<char> {
    match value {
        Some(v) => flag + v + seq![' '],
        None => Seq::empty(),
    }
}

/// `-o option ` for each ssh option.
pub open spec fn text_options(options: Seq<String>) -> Seq<char>
    decreases options.len(),
{
    if options.len() == 0 {
        Seq::empty()
    } else {
        text_options(options.drop_last()) + "-o "@ + options.last()@ + seq![' ']
    }
}

/// How a target reads in messages and scripts: empty for the local
/// machine, else the ssh command line up to and including the host and a
/// space.
pub open spec fn target_text(t: CmdTarget) -> Seq<char> {
    match t {
        CmdTarget::Local => Seq::empty(),
        CmdTarget::Remote { ssh } => "ssh "@ + text_flag("-c "@, opt_view(ssh.cipher))
            + text_flag("-F "@, opt_view(ssh.config)) + text_flag(
            "-i "@,
            opt_view(ssh.identity),
        ) + text_flag("-p "@, opt_view(ssh.port)) + text_flag("-S "@, opt_view(ssh.control))
            + text_options(ssh.options@) + ssh.host@ + seq![' '],
    }
}

/// Appends `flag`, the value and a space when the value is set.
fn push_text_flag(buf: &mut Vec<char>, flag: &str, value: &Option<String>)
    ensures
        final(buf)@ == old(buf)@ + text_flag(flag@, opt_view(*value)),
{
    let ghost before = buf@;
    match value {
        Some(v) => {
            push_str(buf, flag);
            push_str(buf, v.as_str());
            buf.push(' ');
            assert(buf@ =~= before + text_flag(flag@, opt_view(*value)));
        },
        None => {
            assert(buf@ =~= before + text_flag(flag@, opt_view(*value)));
        },
    }
}

impl CmdTarget {
    pub fn new_local() -> (r: CmdTarget)
        ensures
            r is Local,
    {
        CmdTarget::Local
    }

    /// A remote target when a host is given, else the local machine.
    pub fn new(
        host: Option<&str>,
        cipher: Option<&str>,
        config: Option<&str>,
        identity: Option<&str>,
        port: Option<&str>,
        ssh_options: &Vec<String>,
    ) -> (r: CmdTarget)
        ensures
            host is None <==> r is Local,
            r matches CmdTarget::Remote { ssh } ==> {
                &&& ssh.host@ == host->0@
                &&& opt_view(ssh.cipher) == opt_str_view(cipher)
                &&& opt_view(ssh.config) == opt_str_view(config)
                &&& opt_view(ssh.identity) == opt_str_view(identity)
                &&& opt_view(ssh.port) == opt_str_view(port)
                &&& ssh.control is None
                &&& ssh.options@ == ssh_options@
            },
    {
        match host {
            Some(h) => CmdTarget::Remote {
                ssh: Ssh::new(h, cipher, config, identity, port, ssh_options),
            },
            None => CmdTarget::Local,
        }
    }

    pub fn is_remote(&self) -> (r: bool)
        ensures
            r == (*self is Remote),
    {
        match self {
            CmdTarget::Local => false,
            CmdTarget::Remote { .. } => true,
        }
    }

    /// The command that asks the target's shell whether `base` exists.
    pub fn make_check(&self, base: &str) -> (r: Vec<Vec<u8>>)
        ensures
            argv_view(r@) == check_argv(*self, base@),
    {
        match self {
            CmdTarget::Local => {
                let script = concat_str("command -v ", base);
                let r = vec![lit("sh"), lit("-c"), lit(script.as_str())];
                assert(argv_view(r@) =~= check_argv(*self, base@));
                r
            },
            CmdTarget::Remote { ssh } => {
                let mut argv = ssh.to_cmd();
                let more = vec![lit("command"), lit("-v"), lit(base)];
                extend_argv(&mut argv, more);
                assert(argv_view(more@) =~= seq![utf8("command"@), utf8("-v"@), utf8(base@)]);
                argv
            },
        }
    }

    /// The command that runs program `base` on the target.
    pub fn make_cmd(&self, base: &str) -> (r: Vec<Vec<u8>>)
        ensures
            argv_view(r@) == target_argv(*self, base@),
    {
        match self {
            CmdTarget::Local => {
                let r = vec![lit(base)];
                assert(argv_view(r@) =~= seq![utf8(base@)]);
                r
            },
            CmdTarget::Remote { ssh } => {
                let mut argv = ssh.to_cmd();
                let ghost before = argv_view(argv@);
                argv.push(lit(base));
                assert(argv_view(argv@) =~= before + seq![utf8(base@)]);
                argv
            },
        }
    }

    /// Records the control socket of a remote target; a local one is left
    /// as it is.
    pub fn set_control(&mut self, control: Option<&str>)
        ensures
            match *old(self) {
                CmdTarget::Local => *final(self) is Local,
                CmdTarget::Remote { ssh } => {
                    &&& *final(self) is Remote
                    &&& final(self)->ssh == (Ssh { control: final(self)->ssh.control, ..ssh })
                    &&& opt_view(final(self)->ssh.control) == opt_str_view(control)
                },
            },
    {
        match self {
            CmdTarget::Local => {},
            CmdTarget::Remote { ssh } => {
                ssh.control = owned(control);
            },
        }
    }

    /// Takes the recorded control socket out of a remote target.
    pub fn take_control(&mut self) -> (r: Option<String>)
        ensures
            match *old(self) {
                CmdTarget::Local => r is None && *final(self) is Local,
                CmdTarget::Remote { ssh } => {
                    &&& r == ssh.control
                    &&& *final(self) == (CmdTarget::Remote { ssh: Ssh { control: None, ..ssh } })
                },
            },
    {
        match self {
            CmdTarget::Local => None,
            CmdTarget::Remote { ssh } => ssh.control.take(),
        }
    }

    /// `" on "` for a remote target, empty for the local machine.
    pub fn on_str(&self) -> (r: &'static str)
        ensures
            r@ == if *self is Remote {
                " on "@
            } else {
                ""@
            },
    {
        match self {
            CmdTarget::Local => "",
            CmdTarget::Remote { .. } => " on ",
        }
    }

    /// The host of a remote target, empty for the local machine.
    pub fn host(&self) -> (r: String)
        ensures
            r@ == match *self {
                CmdTarget::Local => ""@,
                CmdTarget::Remote { ssh } => ssh.host@,
            },
    {
        match self {
            CmdTarget::Local => "".to_owned(),
            CmdTarget::Remote { ssh } => ssh.host.clone(),
        }
    }

    /// The host of a remote target, `local machine` for the local one.
    pub fn pretty_str(&self) -> (r: String)
        ensures
            r@ == match *self {
                CmdTarget::Local => "local machine"@,
                CmdTarget::Remote { ssh } => ssh.host@,
            },
    {
        match self {
            CmdTarget::Local => "local machine".to_owned(),
            CmdTarget::Remote { ssh } => ssh.host.clone(),
        }
    }

    /// The ssh command line of a remote target up to and including the host
    /// and a space; empty for the local machine.
    pub fn to_text(&self) -> (r: String)
        ensures
            r@ == target_text(*self),
    {
        let mut buf: Vec<char> = Vec::new();
        match self {
            CmdTarget::Local => {},
            CmdTarget::Remote { ssh } => {
                push_str(&mut buf, "ssh ");
                push_text_flag(&mut buf, "-c ", &ssh.cipher);
                push_text_flag(&mut buf, "-F ", &ssh.config);
                push_text_flag(&mut buf, "-i ", &ssh.identity);
                push_text_flag(&mut buf, "-p ", &ssh.port);
                push_text_flag(&mut buf, "-S ", &ssh.control);
                let ghost start = buf@;
                let mut i: usize = 0;
                while i < ssh.options.len()
                    invariant
                        0 <= i <= ssh.options.len(),
                        buf@ == start + text_options(ssh.options@.subrange(0, i as int)),
                    decreases ssh.options.len() - i,
                {
                    let ghost before = buf@;
                    push_str(&mut buf, "-o ");
                    push_str(&mut buf, ssh.options[i].as_str());
                    buf.push(' ');
                    proof {
                        let sub = ssh.options@.subrange(0, i + 1);
                        assert(sub.drop_last() =~= ssh.options@.subrange(0, i as int));
                        assert(buf@ =~= before + "-o "@ + ssh.options@[i as int]@ + seq![' ']);
                    }
                    i = i + 1;
                }
                assert(ssh.options@.subrange(0, ssh.options.len() as int) =~= ssh.options@);
                push_str(&mut buf, ssh.host.as_str());
                buf.push(' ');
            },
        }
        assert(buf@ =~= target_text(*self));
        string_of(&buf)
    }
}

} // verus!

verus! {

/// A program with arguments, run on a target, perhaps through `sudo`.
#[derive(Clone, Debug)]
pub struct Cmd<'a> {
    pub target: &'a CmdTarget,
    pub sudo: bool,
    pub base: String,
    pub args: Vec<Vec<u8>>,
}

/// Each argument quoted for a remote shell.
pub open spec fn escaped_each(args: Seq<Vec<u8>>) -> Seq<Seq<u8>> {
    args.map_values(|a: Vec<u8>| escaped(a@))
}

/// The command line of a command: the target's way to run `sudo base` or
/// `base`, then the arguments, quoted when a remote shell reads them.
pub open spec fn cmd_argv(c: Cmd<'_>) -> Seq<Seq<u8>> {
    (if c.sudo {
        target_argv(*c.target, "sudo"@) + seq![utf8(c.base@)]
    } else {
        target_argv(*c.target, c.base@)
    }) + (if c.target is Remote {
        escaped_each(c.args@)
    } else {
        argv_view(c.args@)
    })
}

/// A space and the quoted argument, for each argument.
pub open spec fn spaced_escaped(args: Seq<Vec<u8>>) -> Seq<u8>
    decreases args.len(),
{
    if args.len() == 0 {
        Seq::empty()
    } else {
        spaced_escaped(args.drop_last()) + seq![0x20u8] + escaped(args.last()@)
    }
}

/// A command as one word of a script: the ssh prefix of a remote target,
/// `sudo `, the program, then each argument quoted after a space (a remote
/// command has one more space before its arguments).
pub open spec fn script_word(c: Cmd<'_>) -> Seq<u8> {
    (if c.target is Remote {
        utf8(target_text(*c.target))
    } else {
        Seq::empty()
    }) + (if c.sudo {
        utf8("sudo "@)
    } else {
        Seq::empty()
    }) + utf8(c.base@) + (if c.target is Remote {
        seq![0x20u8]
    } else {
        Seq::empty()
    }) + spaced_escaped(c.args@)
}

/// Appends the bytes of `b`.
fn push_bytes(buf: &mut Vec<u8>, b: &Vec<u8>)
    ensures
        final(buf)@ == old(buf)@ + b@,
{
    let ghost start = buf@;
    let mut i: usize = 0;
    while i < b.len()
        invariant
            0 <= i <= b.len(),
            buf@ == start + b@.subrange(0, i as int),
        decreases b.len() - i,
    {
        buf.push(b[i]);
        assert(b@.subrange(0, i + 1) =~= b@.subrange(0, i as int).push(b@[i as int]));
        i = i + 1;
    }
    assert(b@.subrange(0, b.len() as int) =~= b@);
}

impl<'a> Cmd<'a> {
    pub fn new(target: &'a CmdTarget, sudo: bool, cmd: &str, args: &Vec<String>) -> (r: Cmd<'a>)
        ensures
            r.target == *target,
            r.sudo == sudo,
            r.base@ == cmd@,
            argv_view(r.args@) == args@.map_values(|a: String| utf8(a@)),
    {
        let mut v: Vec<Vec<u8>> = Vec::new();
        let mut i: usize = 0;
        while i < args.len()
            invariant
                0 <= i <= args.len(),
                argv_view(v@) == args@.subrange(0, i as int).map_values(|a: String| utf8(a@)),
            decreases args.len() - i,
        {
            let ghost before = argv_view(v@);
            v.push(lit(args[i].as_str()));
            assert(argv_view(v@) =~= before.push(utf8(args@[i as int]@)));
            assert(args@.subrange(0, i + 1).map_values(|a: String| utf8(a@)) =~= args@.subrange(
                0,
                i as int,
            ).map_values(|a: String| utf8(a@)).push(utf8(args@[i as int]@)));
            i = i + 1;
        }
        assert(args@.subrange(0, args.len() as int) =~= args@);
        Cmd { target, sudo, base: cmd.to_owned(), args: v }
    }

    pub fn new_from_vec(target: &'a CmdTarget, sudo: bool, cmd: &str, args: Vec<Vec<u8>>) -> (r: Cmd<
        'a,
    >)
        ensures
            r.target == *target,
            r.sudo == sudo,
            r.base@ == cmd@,
            r.args == args,
    {
        Cmd { target, sudo, base: cmd.to_owned(), args }
    }

    /// The same command on the local machine.
    pub fn to_local(self) -> (r: Cmd<'a>)
        ensures
            *r.target is Local,
            r.sudo == self.sudo,
            r.base == self.base,
            r.args == self.args,
    {
        Cmd { target: &CmdTarget::Local, sudo: self.sudo, base: self.base, args: self.args }
    }

    pub fn target(&self) -> (r: &'a CmdTarget)
        ensures
            r == self.target,
    {
        self.target
    }

    pub fn base(&self) -> (r: &str)
        ensures
            r@ == self.base@,
    {
        self.base.as_str()
    }

    /// The command line that runs this command.
    pub fn to_cmd(&self) -> (r: Vec<Vec<u8>>)
        ensures
            argv_view(r@) == cmd_argv(*self),
    {
        let mut argv = if self.sudo {
            let mut a = self.target.make_cmd("sudo");
            let ghost before = argv_view(a@);
            a.push(lit(self.base.as_str()));
            assert(argv_view(a@) =~= before + seq![utf8(self.base@)]);
            a
        } else {
            self.target.make_cmd(self.base.as_str())
        };
        let remote = self.target.is_remote();
        let ghost start = argv_view(argv@);
        let mut i: usize = 0;
        while i < self.args.len()
            invariant
                0 <= i <= self.args.len(),
                remote == (self.target is Remote),
                argv_view(argv@) == start + (if remote {
                    escaped_each(self.args@.subrange(0, i as int))
                } else {
                    argv_view(self.args@.subrange(0, i as int))
                }),
            decreases self.args.len() - i,
        {
            let ghost before = argv_view(argv@);
            let a = if remote {
                escape_str(&self.args[i])
            } else {
                self.args[i].clone()
            };
            argv.push(a);
            proof {
                let sub = self.args@.subrange(0, i + 1);
                assert(sub =~= self.args@.subrange(0, i as int).push(self.args@[i as int]));
                assert(escaped_each(sub) =~= escaped_each(self.args@.subrange(0, i as int)).push(
                    escaped(self.args@[i as int]@),
                ));
                assert(argv_view(sub) =~= argv_view(self.args@.subrange(0, i as int)).push(
                    self.args@[i as int]@,
                ));
                assert(argv_view(argv@) =~= before.push(a@));
            }
            i = i + 1;
        }
        assert(self.args@.subrange(0, self.args.len() as int) =~= self.args@);
        argv
    }

    /// The command that asks the target's shell whether the program exists.
    pub fn to_check(&self) -> (r: Vec<Vec<u8>>)
        ensures
            argv_view(r@) == check_argv(*self.target, self.base@),
    {
        self.target.make_check(self.base.as_str())
    }

    pub fn arg(&mut self, value: &str)
        ensures
            final(self).target == old(self).target,
            final(self).sudo == old(self).sudo,
            final(self).base == old(self).base,
            argv_view(final(self).args@) == argv_view(old(self).args@).push(utf8(value@)),
    {
        let ghost before = argv_view(self.args@);
        self.args.push(lit(value));
        assert(argv_view(self.args@) =~= before.push(utf8(value@)));
    }

    pub fn arg_bytes(&mut self, value: Vec<u8>)
        ensures
            final(self).target == old(self).target,
            final(self).sudo == old(self).sudo,
            final(self).base == old(self).base,
            final(self).args@ == old(self).args@.push(value),
    {
        self.args.push(value);
    }

    pub fn args(&mut self, values: &Vec<&str>)
        ensures
            final(self).target == old(self).target,
            final(self).sudo == old(self).sudo,
            final(self).base == old(self).base,
            argv_view(final(self).args@) == argv_view(old(self).args@) + values@.map_values(
                |v: &str| utf8(v@),
            ),
    {
        let ghost start = argv_view(self.args@);
        let mut i: usize = 0;
        while i < values.len()
            invariant
                0 <= i <= values.len(),
                self.target == old(self).target,
                self.sudo == old(self).sudo,
                self.base == old(self).base,
                argv_view(self.args@) == start + values@.subrange(0, i as int).map_values(
                    |v: &str| utf8(v@),
                ),
            decreases values.len() - i,
        {
            let ghost before = argv_view(self.args@);
            self.args.push(lit(values[i]));
            assert(argv_view(self.args@) =~= before.push(utf8(values@[i as int]@)));
            assert(values@.subrange(0, i + 1).map_values(|v: &str| utf8(v@)) =~= values@.subrange(
                0,
                i as int,
            ).map_values(|v: &str| utf8(v@)).push(utf8(values@[i as int]@)));
            i = i + 1;
        }
        assert(values@.subrange(0, values.len() as int) =~= values@);
    }

    /// This command as one word of a script.
    pub fn escape_cmd(&self) -> (r: Vec<u8>)
        ensures
            r@ == script_word(*self),
    {
        let remote = self.target.is_remote();
        let mut out: Vec<u8> = Vec::new();
        if remote {
            let t = self.target.to_text();
            push_bytes(&mut out, &lit(t.as_str()));
        }
        if self.sudo {
            push_bytes(&mut out, &lit("sudo "));
        }
        push_bytes(&mut out, &lit(self.base.as_str()));
        if remote {
            out.push(0x20u8);
        }
        let ghost start = out@;
        let mut i: usize = 0;
        while i < self.args.len()
            invariant
                0 <= i <= self.args.len(),
                out@ == start + spaced_escaped(self.args@.subrange(0, i as int)),
            decreases self.args.len() - i,
        {
            let ghost before = out@;
            out.push(0x20u8);
            push_bytes(&mut out, &escape_str(&self.args[i]));
            proof {
                let sub = self.args@.subrange(0, i + 1);
                assert(sub.drop_last() =~= self.args@.subrange(0, i as int));
                assert(out@ =~= before + seq![0x20u8] + escaped(self.args@[i as int]@));
            }
            i = i + 1;
        }
        assert(self.args@.subrange(0, self.args.len() as int) =~= self.args@);
        assert(out@ =~= script_word(*self));
        out
    }
}

} // verus!

verus! {

/// Commands handed together, as one script, to `sh -c` or to ssh.
pub struct CmdVec<'a> {
    pub target: &'a CmdTarget,
    pub use_terminal_if_ssh: bool,
    pub cmds: Vec<Cmd<'a>>,
}

/// The commands as one local script: their words joined by ` sep `.
pub open spec fn joined_script(cmds: Seq<Cmd<'_>>, sep: Seq<char>) -> Seq<u8>
    decreases cmds.len(),
{
    if cmds.len() == 0 {
        Seq::empty()
    } else if cmds.len() == 1 {
        script_word(cmds[0])
    } else {
        joined_script(cmds.drop_last(), sep) + seq![0x20u8] + utf8(sep) + seq![0x20u8]
            + script_word(cmds.last())
    }
}

/// The commands as arguments of ssh: their words with `sep` between them.
pub open spec fn remote_words(cmds: Seq<Cmd<'_>>, sep: Seq<char>) -> Seq<Seq<u8>>
    decreases cmds.len(),
{
    if cmds.len() == 0 {
        Seq::empty()
    } else if cmds.len() == 1 {
        seq![script_word(cmds[0])]
    } else {
        remote_words(cmds.drop_last(), sep) + seq![utf8(sep), script_word(cmds.last())]
    }
}

/// The command line that runs the commands joined by `sep`: a single local
/// command as it is, several through `sh -c --`, and remote ones through
/// one ssh call.
pub open spec fn cmd_vec_argv(v: CmdVec<'_>, sep: Seq<char>) -> Seq<Seq<u8>> {
    match *v.target {
        CmdTarget::Local => if v.cmds.len() == 1 {
            cmd_argv(v.cmds@[0])
        } else {
            seq![utf8("sh"@), utf8("-c"@), utf8("--"@)] + if v.cmds.len() > 0 {
                seq![joined_script(v.cmds@, sep)]
            } else {
                Seq::empty()
            }
        },
        CmdTarget::Remote { ssh } => seq![utf8("ssh"@)] + (if v.use_terminal_if_ssh {
            seq![utf8("-t"@), utf8("-o"@), utf8("LogLevel=QUIET"@)]
        } else {
            Seq::empty()
        }) + flag_pair("-S"@, opt_view(ssh.control)) + option_flags(ssh.options@) + seq![
            utf8(ssh.host@),
        ] + remote_words(v.cmds@, sep),
    }
}

impl<'a> CmdVec<'a> {
    pub fn new(target: &'a CmdTarget, cmd: Cmd<'a>) -> (r: CmdVec<'a>)
        ensures
            r.target == target,
            !r.use_terminal_if_ssh,
            r.cmds@ == seq![cmd],
    {
        CmdVec { target, use_terminal_if_ssh: false, cmds: vec![cmd] }
    }

    pub fn add_cmd(&mut self, cmd: Cmd<'a>)
        ensures
            final(self).target == old(self).target,
            final(self).use_terminal_if_ssh == old(self).use_terminal_if_ssh,
            final(self).cmds@ == old(self).cmds@.push(cmd),
    {
        self.cmds.push(cmd);
    }

    pub fn is_remote(&self) -> (r: bool)
        ensures
            r == (*self.target is Remote),
    {
        self.target.is_remote()
    }

    pub fn use_terminal_if_ssh(&mut self, value: bool)
        ensures
            final(self).target == old(self).target,
            final(self).use_terminal_if_ssh == value,
            final(self).cmds == old(self).cmds,
    {
        self.use_terminal_if_ssh = value;
    }

    /// The commands in order, or `None` when there are none.
    pub fn from(target: &'a CmdTarget, from: Vec<Cmd<'a>>) -> (r: Option<CmdVec<'a>>)
        ensures
            r is None <==> from.len() == 0,
            r matches Some(v) ==> v.target == target && !v.use_terminal_if_ssh && v.cmds@
                == from@,
    {
        if from.len() == 0 {
            None
        } else {
            Some(CmdVec { target, use_terminal_if_ssh: false, cmds: from })
        }
    }

    /// The command line that runs the commands joined by `sep`.
    pub fn to_cmd_with_sep(&self, sep: &str) -> (r: Vec<Vec<u8>>)
        ensures
            argv_view(r@) == cmd_vec_argv(*self, sep@),
    {
        match self.target {
            CmdTarget::Local => {
                if self.cmds.len() == 1 {
                    return self.cmds[0].to_cmd();
                }
                let mut argv = vec![lit("sh"), lit("-c"), lit("--")];
                assert(argv_view(argv@) =~= seq![utf8("sh"@), utf8("-c"@), utf8("--"@)]);
                if self.cmds.len() > 0 {
                    let mut script = self.cmds[0].escape_cmd();
                    let sep_bytes = lit(sep);
                    let mut i: usize = 1;
                    assert(self.cmds@.subrange(0, 1).drop_last() =~= Seq::<Cmd<'a>>::empty());
                    assert(self.cmds@.subrange(0, 1)[0] == self.cmds@[0]);
                    while i < self.cmds.len()
                        invariant
                            1 <= i <= self.cmds.len(),
                            sep_bytes@ == utf8(sep@),
                            script@ == joined_script(self.cmds@.subrange(0, i as int), sep@),
                        decreases self.cmds.len() - i,
                    {
                        let ghost before = script@;
                        script.push(0x20u8);
                        push_bytes(&mut script, &sep_bytes);
                        script.push(0x20u8);
                        push_bytes(&mut script, &self.cmds[i].escape_cmd());
                        proof {
                            let sub = self.cmds@.subrange(0, i + 1);
                            assert(sub.drop_last() =~= self.cmds@.subrange(0, i as int));
                            assert(script@ =~= before + seq![0x20u8] + utf8(sep@) + seq![0x20u8]
                                + script_word(self.cmds@[i as int]));
                        }
                        i = i + 1;
                    }
                    assert(self.cmds@.subrange(0, self.cmds.len() as int) =~= self.cmds@);
                    let ghost before = argv_view(argv@);
                    argv.push(script);
                    assert(argv_view(argv@) =~= before + seq![
                        joined_script(self.cmds@, sep@),
                    ]);
                } else {
                    assert(argv_view(argv@) =~= argv_view(argv@) + Seq::<Seq<u8>>::empty());
                }
                argv
            },
            CmdTarget::Remote { ssh } => {
                let mut argv = vec![lit("ssh")];
                assert(argv_view(argv@) =~= seq![utf8("ssh"@)]);
                if self.use_terminal_if_ssh {
                    let more = vec![lit("-t"), lit("-o"), lit("LogLevel=QUIET")];
                    assert(argv_view(more@) =~= seq![
                        utf8("-t"@),
                        utf8("-o"@),
                        utf8("LogLevel=QUIET"@),
                    ]);
                    extend_argv(&mut argv, more);
                } else {
                    assert(argv_view(argv@) =~= argv_view(argv@) + Seq::<Seq<u8>>::empty());
                }
                push_flag(&mut argv, "-S", &ssh.control);
                let ghost start = argv_view(argv@);
                let mut k: usize = 0;
                while k < ssh.options.len()
                    invariant
                        0 <= k <= ssh.options.len(),
                        argv_view(argv@) == start + option_flags(ssh.options@.subrange(0, k as int)),
                    decreases ssh.options.len() - k,
                {
                    let ghost before = argv_view(argv@);
                    argv.push(lit("-o"));
                    argv.push(lit(ssh.options[k].as_str()));
                    proof {
                        let sub = ssh.options@.subrange(0, k + 1);
                        assert(sub.drop_last() =~= ssh.options@.subrange(0, k as int));
                        assert(argv_view(argv@) =~= before + seq![
                            utf8("-o"@),
                            utf8(ssh.options@[k as int]@),
                        ]);
                    }
                    k = k + 1;
                }
                assert(ssh.options@.subrange(0, ssh.options.len() as int) =~= ssh.options@);
                let ghost before_host = argv_view(argv@);
                argv.push(lit(ssh.host.as_str()));
                assert(argv_view(argv@) =~= before_host + seq![utf8(ssh.host@)]);
                let ghost base = argv_view(argv@);
                let mut i: usize = 0;
                while i < self.cmds.len()
                    invariant
                        0 <= i <= self.cmds.len(),
                        argv_view(argv@) == base + remote_words(
                            self.cmds@.subrange(0, i as int),
                            sep@,
                        ),
                    decreases self.cmds.len() - i,
                {
                    let ghost before = argv_view(argv@);
                    let ghost sub = self.cmds@.subrange(0, i + 1);
                    assert(sub.drop_last() =~= self.cmds@.subrange(0, i as int));
                    if i > 0 {
                        argv.push(lit(sep));
                        argv.push(self.cmds[i].escape_cmd());
                        assert(argv_view(argv@) =~= before + seq![
                            utf8(sep@),
                            script_word(self.cmds@[i as int]),
                        ]);
                    } else {
                        argv.push(self.cmds[i].escape_cmd());
                        assert(argv_view(argv@) =~= before + seq![script_word(self.cmds@[0])]);
                        assert(remote_words(Seq::<Cmd<'a>>::empty(), sep@) =~= Seq::<Seq<u8>>::empty());
                    }
                    i = i + 1;
                }
                assert(self.cmds@.subrange(0, self.cmds.len() as int) =~= self.cmds@);
                argv
            },
        }
    }
}

/// Commands joined by `|`, each feeding the next.
pub struct Pipeline<'a>(pub CmdVec<'a>);

impl<'a> Pipeline<'a> {
    pub fn new(target: &'a CmdTarget, cmd: Cmd<'a>) -> (r: Pipeline<'a>)
        ensures
            r.0.target == target,
            !r.0.use_terminal_if_ssh,
            r.0.cmds@ == seq![cmd],
    {
        Pipeline(CmdVec::new(target, cmd))
    }

    pub fn from(target: &'a CmdTarget, from: Vec<Cmd<'a>>) -> (r: Option<Pipeline<'a>>)
        ensures
            r is None <==> from.len() == 0,
            r matches Some(p) ==> p.0.target == target && !p.0.use_terminal_if_ssh && p.0.cmds@
                == from@,
    {
        match CmdVec::from(target, from) {
            Some(v) => Some(Pipeline(v)),
            None => None,
        }
    }

    /// The command line that runs the pipeline.
    pub fn to_cmd(&self) -> (r: Vec<Vec<u8>>)
        ensures
            argv_view(r@) == cmd_vec_argv(self.0, "|"@),
    {
        self.0.to_cmd_with_sep("|")
    }
}

/// Commands joined by `;`, run one after the other.
pub struct Sequence<'a>(pub CmdVec<'a>);

impl<'a> Sequence<'a> {
    pub fn new(target: &'a CmdTarget, cmd: Cmd<'a>) -> (r: Sequence<'a>)
        ensures
            r.0.target == target,
            !r.0.use_terminal_if_ssh,
            r.0.cmds@ == seq![cmd],
    {
        Sequence(CmdVec::new(target, cmd))
    }

    pub fn from(target: &'a CmdTarget, from: Vec<Cmd<'a>>) -> (r: Option<Sequence<'a>>)
        ensures
            r is None <==> from.len() == 0,
            r matches Some(p) ==> p.0.target == target && !p.0.use_terminal_if_ssh && p.0.cmds@
                == from@,
    {
        match CmdVec::from(target, from) {
            Some(v) => Some(Sequence(v)),
            None => None,
        }
    }

    /// The command line that runs the sequence.
    pub fn to_cmd(&self) -> (r: Vec<Vec<u8>>)
        ensures
            argv_view(r@) == cmd_vec_argv(self.0, ";"@),
    {
        self.0.to_cmd_with_sep(";")
    }
}

} // verus!

verus! {

/// A local date and time of day.
#[derive(Clone, Copy, Debug)]
pub struct LocalTime {
    pub year: i32,
    pub month: u32,
    pub day: u32,
    pub hour: u32,
    pub minute: u32,
    pub second: u32,
}

/// The fields of a date and time lie in their ranges.
pub open spec fn time_wf(t: LocalTime) -> bool {
    1 <= t.month <= 12 && 1 <= t.day <= 31 && t.hour < 24 && t.minute < 60 && t.second < 60
}

/// Relies on `chrono::Local::now` and its `Datelike` and `Timelike`
/// fields: month 1 to 12, day 1 to 31, hour 0 to 23, minute and second 0
/// to 59.
#[verifier::external_body]
fn local_now() -> (r: LocalTime)
    ensures
        time_wf(r),
{
    let now = chrono::Local::now();
    LocalTime {
        year: now.year(),
        month: now.month(),
        day: now.day(),
        hour: now.hour(),
        minute: now.minute(),
        second: now.second(),
    }
}

/// What a host character becomes in a socket name: `@` becomes `-`; ASCII
/// letters, digits and `-` stay; anything else goes.
pub open spec fn host_char(c: char) -> Seq<char> {
    let d = if c == '@' {
        '-'
    } else {
        c
    };
    if ('a' <= d && d <= 'z') || ('A' <= d && d <= 'Z') || ('0' <= d && d <= '9') || d == '-' {
        seq![d]
    } else {
        Seq::empty()
    }
}

/// Every character of a host as it goes into a socket name.
pub open spec fn host_chars(s: Seq<char>) -> Seq<char>
    decreases s.len(),
{
    if s.len() == 0 {
        Seq::empty()
    } else {
        host_chars(s.drop_last()) + host_char(s.last())
    }
}

/// A host as it goes into a socket name: at most 50 characters.
pub open spec fn sanitized_host(s: Seq<char>) -> Seq<char> {
    let t = host_chars(s);
    if t.len() > 50 {
        t.subrange(0, 50)
    } else {
        t
    }
}

/// A year with at least four places, as `{:04}` writes it.
pub open spec fn year_text(y: i32) -> Seq<char> {
    if y >= 0 {
        padded_view(y as nat, 4)
    } else {
        seq!['-'] + padded_view((-(y as int)) as nat, 3)
    }
}

/// The path of a master control socket:
/// `/tmp/chithi-<host>-<YYYYMMDDhhmmss>-<pid>-<draw>`.
pub open spec fn control_path_view(host: Seq<char>, t: LocalTime, pid: u32, draw: u32) -> Seq<char> {
    "/tmp/chithi-"@ + sanitized_host(host) + seq!['-'] + year_text(t.year) + padded_view(
        t.month as nat,
        2,
    ) + padded_view(t.day as nat, 2) + padded_view(t.hour as nat, 2) + padded_view(
        t.minute as nat,
        2,
    ) + padded_view(t.second as nat, 2) + seq!['-'] + decimal_view(pid as nat) + seq!['-']
        + decimal_view(draw as nat)
}

/// The host as it goes into a socket name.
pub fn sanitize_host(host: &str) -> (r: String)
    ensures
        r@ == sanitized_host(host@),
{
    let cs = chars_of(host);
    let mut out: Vec<char> = Vec::new();
    let mut i: usize = 0;
    while i < cs.len()
        invariant
            0 <= i <= cs.len(),
            cs@ == host@,
            out@ == host_chars(cs@.subrange(0, i as int)),
        decreases cs.len() - i,
    {
        let c = cs[i];
        let d = if c == '@' {
            '-'
        } else {
            c
        };
        proof {
            let sub = cs@.subrange(0, i + 1);
            assert(sub.drop_last() =~= cs@.subrange(0, i as int));
            assert(sub.last() == c);
        }
        let ghost before = out@;
        if ('a' <= d && d <= 'z') || ('A' <= d && d <= 'Z') || ('0' <= d && d <= '9') || d == '-' {
            out.push(d);
            assert(out@ =~= before + host_char(c));
        } else {
            assert(out@ =~= before + host_char(c));
        }
        i = i + 1;
    }
    assert(cs@.subrange(0, cs.len() as int) =~= cs@);
    if out.len() > 50 {
        string_of(&sub_chars(&out, 0, 50))
    } else {
        string_of(&out)
    }
}

/// The path of a master control socket for `host`, made at time `t` by
/// process `pid`, with the draw `draw`.
pub fn control_socket_path(host: &str, t: &LocalTime, pid: u32, draw: u32) -> (r: String)
    ensures
        r@ == control_path_view(host@, *t, pid, draw),
{
    let mut buf: Vec<char> = Vec::new();
    push_str(&mut buf, "/tmp/chithi-");
    let h = sanitize_host(host);
    push_str(&mut buf, h.as_str());
    buf.push('-');
    if t.year >= 0 {
        push_padded(&mut buf, t.year as u64, 4);
    } else {
        buf.push('-');
        let magnitude: u64 = (0i64 - t.year as i64) as u64;
        push_padded(&mut buf, magnitude, 3);
    }
    push_padded(&mut buf, t.month as u64, 2);
    push_padded(&mut buf, t.day as u64, 2);
    push_padded(&mut buf, t.hour as u64, 2);
    push_padded(&mut buf, t.minute as u64, 2);
    push_padded(&mut buf, t.second as u64, 2);
    buf.push('-');
    push_decimal(&mut buf, pid as u64);
    buf.push('-');
    push_decimal(&mut buf, draw as u64);
    assert(buf@ =~= control_path_view(host@, *t, pid, draw));
    string_of(&buf)
}

impl Ssh {
    /// A fresh path for a master control socket of this host, made now by
    /// process `pid`, ending in a draw below 1000.
    pub fn new_control_path(&self, pid: u32) -> (r: String)
        ensures
            exists|t: LocalTime, draw: u32|
                time_wf(t) && draw < 1000 && r@ == control_path_view(self.host@, t, pid, draw),
    {
        let t = local_now();
        let draw = random_below(1000);
        control_socket_path(self.host.as_str(), &t, pid, draw)
    }

    /// The command that starts a master control socket at `socket`, kept for
    /// a minute after its last use.
    pub fn master_control_argv(&self, socket: &str) -> (r: Vec<Vec<u8>>)
        ensures
            argv_view(r@) == ssh_base_argv(*self) + seq![
                utf8("-M"@),
                utf8("-S"@),
                utf8(socket@),
                utf8("-o"@),
                utf8("ControlPersist=1m"@),
                utf8(self.host@),
                utf8("exit"@),
            ],
    {
        let mut argv = self.make_pre_cmd();
        let more = vec![
            lit("-M"),
            lit("-S"),
            lit(socket),
            lit("-o"),
            lit("ControlPersist=1m"),
            lit(self.host.as_str()),
            lit("exit"),
        ];
        assert(argv_view(more@) =~= seq![
            utf8("-M"@),
            utf8("-S"@),
            utf8(socket@),
            utf8("-o"@),
            utf8("ControlPersist=1m"@),
            utf8(self.host@),
            utf8("exit"@),
        ]);
        extend_argv(&mut argv, more);
        argv
    }

    /// The command that checks a master control socket with a no-op echo.
    pub fn control_probe_argv(&self, socket: &str) -> (r: Vec<Vec<u8>>)
        ensures
            argv_view(r@) == ssh_base_argv(*self) + seq![
                utf8("-S"@),
                utf8(socket@),
                utf8(self.host@),
                utf8("echo"@),
                utf8("-n"@),
            ],
    {
        let mut argv = self.make_pre_cmd();
        let more = vec![lit("-S"), lit(socket), lit(self.host.as_str()), lit("echo"), lit("-n")];
        assert(argv_view(more@) =~= seq![
            utf8("-S"@),
            utf8(socket@),
            utf8(self.host@),
            utf8("echo"@),
            utf8("-n"@),
        ]);
        extend_argv(&mut argv, more);
        argv
    }

    /// The command that shuts a master control socket down.
    pub fn control_exit_argv(&self, socket: &str) -> (r: Vec<Vec<u8>>)
        ensures
            argv_view(r@) == ssh_base_argv(*self) + seq![
                utf8("-S"@),
                utf8(socket@),
                utf8(self.host@),
                utf8("-O"@),
                utf8("exit"@),
            ],
    {
        let mut argv = self.make_pre_cmd();
        let more = vec![lit("-S"), lit(socket), lit(self.host.as_str()), lit("-O"), lit("exit")];
        assert(argv_view(more@) =~= seq![
            utf8("-S"@),
            utf8(socket@),
            utf8(self.host@),
            utf8("-O"@),
            utf8("exit"@),
        ]);
        extend_argv(&mut argv, more);
        argv
    }
}

} // verus!

verus! {

/// A space and each argument, quoted when a remote shell reads them.
pub open spec fn spaced_args(args: Seq<Vec<u8>>, remote: bool) -> Seq<u8>
    decreases args.len(),
{
    if args.len() == 0 {
        Seq::empty()
    } else {
        spaced_args(args.drop_last(), remote) + seq![0x20u8] + if remote {
            escaped(args.last()@)
        } else {
            args.last()@
        }
    }
}

/// How a command reads in messages.
pub open spec fn cmd_text(c: Cmd<'_>) -> Seq<u8> {
    utf8(target_text(*c.target)) + (if c.sudo {
        utf8("sudo "@)
    } else {
        Seq::empty()
    }) + utf8(c.base@) + spaced_args(c.args@, *c.target is Remote)
}

/// The texts of the commands joined by ` sep `, each read by `word`.
pub open spec fn joined_texts(cmds: Seq<Cmd<'_>>, sep: Seq<char>, remote_words: bool) -> Seq<u8>
    decreases cmds.len(),
{
    if cmds.len() == 0 {
        Seq::empty()
    } else {
        let w = if remote_words {
            script_word(cmds.last())
        } else {
            cmd_text(cmds.last())
        };
        if cmds.len() == 1 {
            w
        } else {
            joined_texts(cmds.drop_last(), sep, remote_words) + seq![0x20u8] + utf8(sep) + seq![
                0x20u8,
            ] + w
        }
    }
}

/// How commands joined by `sep` read in messages.
pub open spec fn cmd_vec_text(v: CmdVec<'_>, sep: Seq<char>) -> Seq<u8> {
    match *v.target {
        CmdTarget::Local => if v.cmds.len() == 1 {
            cmd_text(v.cmds@[0])
        } else {
            utf8("sh -c -- "@) + joined_texts(v.cmds@, sep, false)
        },
        CmdTarget::Remote { .. } => utf8(target_text(*v.target)) + joined_texts(v.cmds@, sep, true),
    }
}

impl<'a> Cmd<'a> {
    /// The command as it reads in messages.
    pub fn to_text(&self) -> (r: Vec<u8>)
        ensures
            r@ == cmd_text(*self),
    {
        let remote = self.target.is_remote();
        let mut out: Vec<u8> = Vec::new();
        let t = self.target.to_text();
        push_bytes(&mut out, &lit(t.as_str()));
        if self.sudo {
            push_bytes(&mut out, &lit("sudo "));
        }
        push_bytes(&mut out, &lit(self.base.as_str()));
        let ghost start = out@;
        let mut i: usize = 0;
        while i < self.args.len()
            invariant
                0 <= i <= self.args.len(),
                remote == (*self.target is Remote),
                out@ == start + spaced_args(self.args@.subrange(0, i as int), remote),
            decreases self.args.len() - i,
        {
            let ghost before = out@;
            out.push(0x20u8);
            if remote {
                push_bytes(&mut out, &escape_str(&self.args[i]));
            } else {
                push_bytes(&mut out, &self.args[i]);
            }
            proof {
                let sub = self.args@.subrange(0, i + 1);
                assert(sub.drop_last() =~= self.args@.subrange(0, i as int));
            }
            assert(out@ =~= before + seq![0x20u8] + if remote {
                escaped(self.args@[i as int]@)
            } else {
                self.args@[i as int]@
            });
            i = i + 1;
        }
        assert(self.args@.subrange(0, self.args.len() as int) =~= self.args@);
        assert(out@ =~= cmd_text(*self));
        out
    }
}

impl<'a> CmdVec<'a> {
    /// The texts of the commands joined by ` sep `.
    fn join_texts(&self, sep: &str, remote_words: bool) -> (r: Vec<u8>)
        ensures
            r@ == joined_texts(self.cmds@, sep@, remote_words),
    {
        let sep_bytes = lit(sep);
        let mut out: Vec<u8> = Vec::new();
        let mut i: usize = 0;
        assert(self.cmds@.subrange(0, 0) =~= Seq::<Cmd<'a>>::empty());
        while i < self.cmds.len()
            invariant
                0 <= i <= self.cmds.len(),
                sep_bytes@ == utf8(sep@),
                out@ == joined_texts(self.cmds@.subrange(0, i as int), sep@, remote_words),
            decreases self.cmds.len() - i,
        {
            let ghost before = out@;
            let w = if remote_words {
                self.cmds[i].escape_cmd()
            } else {
                self.cmds[i].to_text()
            };
            if i > 0 {
                out.push(0x20u8);
                push_bytes(&mut out, &sep_bytes);
                out.push(0x20u8);
            }
            push_bytes(&mut out, &w);
            proof {
                let sub = self.cmds@.subrange(0, i + 1);
                assert(sub.drop_last() =~= self.cmds@.subrange(0, i as int));
                assert(sub.last() == self.cmds@[i as int]);
                if i > 0 {
                    assert(out@ =~= before + seq![0x20u8] + utf8(sep@) + seq![0x20u8] + w@);
                } else {
                    assert(out@ =~= w@);
                }
            }
            i = i + 1;
        }
        assert(self.cmds@.subrange(0, self.cmds.len() as int) =~= self.cmds@);
        out
    }

    /// The commands joined by `sep` as they read in messages.
    pub fn to_text_with_sep(&self, sep: &str) -> (r: Vec<u8>)
        ensures
            r@ == cmd_vec_text(*self, sep@),
    {
        match self.target {
            CmdTarget::Local => {
                if self.cmds.len() == 1 {
                    return self.cmds[0].to_text();
                }
                let mut out = lit("sh -c -- ");
                push_bytes(&mut out, &self.join_texts(sep, false));
                out
            },
            CmdTarget::Remote { .. } => {
                let t = self.target.to_text();
                let mut out = lit(t.as_str());
                push_bytes(&mut out, &self.join_texts(sep, true));
                out
            },
        }
    }
}

impl<'a> Pipeline<'a> {
    /// The pipeline as it reads in messages.
    pub fn to_text(&self) -> (r: Vec<u8>)
        ensures
            r@ == cmd_vec_text(self.0, "|"@),
    {
        self.0.to_text_with_sep("|")
    }
}

impl<'a> Sequence<'a> {
    /// The sequence as it reads in messages.
    pub fn to_text(&self) -> (r: Vec<u8>)
        ensures
            r@ == cmd_vec_text(self.0, ";"@),
    {
        self.0.to_text_with_sep(";")
    }
}

impl<'a> Cmd<'a> {
    /// The result of asking the target whether the program exists, given
    /// whether the check exited with success.
    pub fn check_outcome(&self, exists: bool) -> (r: Result<(), Error>)
        ensures
            r is Ok <==> exists,
            r matches Err(e) ==> e.kind == ErrorKind::NotFound,
    {
        if exists {
            Ok(())
        } else {
            Err(Error::new(ErrorKind::NotFound, "command not found".to_owned()))
        }
    }
}

} // verus!
