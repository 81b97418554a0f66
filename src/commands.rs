//! External commands as values: what to run, how to announce it, and the
//! argument vector that results.

use vstd::prelude::*;

use crate::installable::{string_views, Installable};

verus! {

/// A command to run.
pub struct Command {
    /// Only announce it.
    pub dry: bool,
    /// Announcement shown before running it.
    pub message: Option<String>,
    pub command: String,
    pub args: Vec<String>,
    /// Run it through sudo.
    pub elevate: bool,
}

impl Command {
    /// `command` with no arguments.
    pub fn new(command: &str) -> (r: Command)
        ensures
            r.command@ == command@,
            r.args@.len() == 0,
            !r.dry,
            !r.elevate,
            r.message is None,
    {
        Command { dry: false, message: None, command: command.to_owned(), args: Vec::new(), elevate: false }
    }

    pub fn elevate(self, elevate: bool) -> (r: Command)
        ensures
            r == (Command { elevate, ..self }),
    {
        Command { elevate, ..self }
    }

    pub fn dry(self, dry: bool) -> (r: Command)
        ensures
            r == (Command { dry, ..self }),
    {
        Command { dry, ..self }
    }

    /// Appends one argument.
    pub fn arg(self, arg: &str) -> (r: Command)
        ensures
            string_views(r.args@) == string_views(self.args@).push(arg@),
            r.command == self.command,
            r.dry == self.dry,
            r.elevate == self.elevate,
            r.message == self.message,
    {
        let mut s = self;
        let ghost start = string_views(s.args@);
        s.args.push(arg.to_owned());
        assert(string_views(s.args@) =~= start.push(arg@));
        s
    }

    /// Appends arguments, in order.
    pub fn args(self, args: Vec<&str>) -> (r: Command)
        ensures
            string_views(r.args@) == string_views(self.args@) + args@.map_values(|a: &str| a@),
            r.command == self.command,
            r.dry == self.dry,
            r.elevate == self.elevate,
            r.message == self.message,
    {
        let mut s = self;
        let ghost start = string_views(s.args@);
        let mut i: usize = 0;
        while i < args.len()
            invariant
                i <= args@.len(),
                string_views(s.args@) == start + args@.subrange(0, i as int).map_values(|a: &str| a@),
                s.command == self.command,
                s.dry == self.dry,
                s.elevate == self.elevate,
                s.message == self.message,
            decreases args@.len() - i,
        {
            let ghost before = string_views(s.args@);
            s.args.push(args[i].to_owned());
            assert(string_views(s.args@) =~= before.push(args@[i as int]@));
            assert(args@.subrange(0, i + 1).map_values(|a: &str| a@) =~= args@.subrange(
                0,
                i as int,
            ).map_values(|a: &str| a@).push(args@[i as int]@));
            i = i + 1;
        }
        assert(args@.subrange(0, i as int) == args@);
        s
    }

    pub fn message(self, message: &str) -> (r: Command)
        ensures
            r.message matches Some(m) && m@ == message@,
            r.command == self.command,
            r.args == self.args,
            r.dry == self.dry,
            r.elevate == self.elevate,
    {
        Command { message: Some(message.to_owned()), ..self }
    }

    /// The argument vector to execute: through sudo when elevated.
    pub open spec fn argv_spec(&self) -> Seq<Seq<char>> {
        if self.elevate {
            seq!["sudo"@, self.command@] + string_views(self.args@)
        } else {
            seq![self.command@] + string_views(self.args@)
        }
    }

    /// The argument vector to execute: through sudo when elevated.
    pub fn argv(&self) -> (r: Vec<String>)
        ensures
            string_views(r@) == self.argv_spec(),
    {
        let mut r: Vec<String> = Vec::new();
        if self.elevate {
            r.push(String::from_str("sudo"));
        }
        r.push(self.command.clone());
        let ghost head = string_views(r@);
        let mut i: usize = 0;
        while i < self.args.len()
            invariant
                i <= self.args@.len(),
                string_views(r@) == head + string_views(self.args@.subrange(0, i as int)),
            decreases self.args@.len() - i,
        {
            let ghost before = string_views(r@);
            r.push(self.args[i].clone());
            assert(string_views(r@) =~= before.push(self.args@[i as int]@));
            assert(string_views(self.args@.subrange(0, i + 1)) =~= string_views(
                self.args@.subrange(0, i as int),
            ).push(self.args@[i as int]@));
            i = i + 1;
        }
        assert(self.args@.subrange(0, i as int) == self.args@);
        assert(string_views(r@) =~= self.argv_spec());
        r
    }
}

/// A `nix build` of an installable.
pub struct Build {
    pub message: Option<String>,
    pub installable: Installable,
    pub extra_args: Vec<String>,
    /// Pipe the build's log through nix-output-monitor.
    pub nom: bool,
}

impl Build {
    pub fn new(installable: Installable) -> (r: Build)
        ensures
            r.installable == installable,
            r.message is None,
            r.extra_args@.len() == 0,
            !r.nom,
    {
        Build { message: None, installable, extra_args: Vec::new(), nom: false }
    }

    pub fn message(self, message: &str) -> (r: Build)
        ensures
            r.message matches Some(m) && m@ == message@,
            r.installable == self.installable,
            r.extra_args == self.extra_args,
            r.nom == self.nom,
    {
        Build { message: Some(message.to_owned()), ..self }
    }

    /// Appends one argument for `nix build`.
    pub fn extra_arg(self, arg: &str) -> (r: Build)
        ensures
            string_views(r.extra_args@) == string_views(self.extra_args@).push(arg@),
            r.installable == self.installable,
            r.message == self.message,
            r.nom == self.nom,
    {
        let mut s = self;
        let ghost start = string_views(s.extra_args@);
        s.extra_args.push(arg.to_owned());
        assert(string_views(s.extra_args@) =~= start.push(arg@));
        s
    }

    pub fn nom(self, yes: bool) -> (r: Build)
        ensures
            r == (Build { nom: yes, ..self }),
    {
        Build { nom: yes, ..self }
    }

    /// Appends arguments for `nix build`, in order.
    pub fn extra_args(self, args: Vec<String>) -> (r: Build)
        ensures
            string_views(r.extra_args@) == string_views(self.extra_args@) + string_views(args@),
            r.installable == self.installable,
            r.message == self.message,
            r.nom == self.nom,
    {
        let mut s = self;
        let mut args = args;
        let ghost start = string_views(s.extra_args@);
        let ghost all = string_views(args@);
        s.extra_args.append(&mut args);
        assert(string_views(s.extra_args@) =~= start + all);
        s
    }

    /// The arguments of `nix build`: the installable, the options that make
    /// its log readable by nix-output-monitor where that is used, then the
    /// extra arguments.
    pub open spec fn argv_spec(&self) -> Seq<Seq<char>> {
        seq!["nix"@, "build"@] + self.installable.args_spec() + (if self.nom {
            seq!["--log-format"@, "internal-json"@, "--verbose"@]
        } else {
            Seq::empty()
        }) + string_views(self.extra_args@)
    }

    /// The arguments of `nix build`.
    pub fn argv(&self) -> (r: Vec<String>)
        ensures
            string_views(r@) == self.argv_spec(),
    {
        let mut r: Vec<String> = Vec::new();
        r.push(String::from_str("nix"));
        r.push(String::from_str("build"));
        let mut inst = self.installable.to_args();
        let ghost head = string_views(r@);
        let ghost inst_v = string_views(inst@);
        r.append(&mut inst);
        assert(string_views(r@) =~= head + inst_v);
        if self.nom {
            r.push(String::from_str("--log-format"));
            r.push(String::from_str("internal-json"));
            r.push(String::from_str("--verbose"));
        }
        let ghost mid = string_views(r@);
        assert(mid =~= seq!["nix"@, "build"@] + self.installable.args_spec() + (if self.nom {
            seq!["--log-format"@, "internal-json"@, "--verbose"@]
        } else {
            Seq::empty()
        }));
        let mut i: usize = 0;
        while i < self.extra_args.len()
            invariant
                i <= self.extra_args@.len(),
                string_views(r@) == mid + string_views(self.extra_args@.subrange(0, i as int)),
            decreases self.extra_args@.len() - i,
        {
            let ghost before = string_views(r@);
            r.push(self.extra_args[i].clone());
            assert(string_views(r@) =~= before.push(self.extra_args@[i as int]@));
            assert(string_views(self.extra_args@.subrange(0, i + 1)) =~= string_views(
                self.extra_args@.subrange(0, i as int),
            ).push(self.extra_args@[i as int]@));
            i = i + 1;
        }
        assert(self.extra_args@.subrange(0, i as int) == self.extra_args@);
        r
    }
}

} // verus!
