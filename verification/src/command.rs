//! Typed arguments of the wrapped tool's subcommands, and what each one
//! renders to on the command line.

use vstd::prelude::*;

use crate::text::{chars_to_string, dec_digits_of, str_chars, u64_dec_chars};

verus! {

/// Typed arguments that render to command-line words.
pub trait ComposeCommandArgs {
    /// The words this argument renders to.
    spec fn args_spec(&self) -> Seq<Seq<char>>;

    fn args(&self) -> (r: Vec<String>)
        ensures
            r.deep_view() == self.args_spec(),
    ;
}

impl ComposeCommandArgs for () {
    open spec fn args_spec(&self) -> Seq<Seq<char>> {
        Seq::empty()
    }

    fn args(&self) -> (r: Vec<String>) {
        let r: Vec<String> = Vec::new();
        proof {
            assert(r.deep_view() =~= Seq::<Seq<char>>::empty());
        }
        r
    }
}

/// Which images a teardown removes.
#[derive(Debug, Clone, Copy)]
pub enum RemoveOptions {
    Local,
    All,
}

/// Arguments of the teardown subcommand. A timeout is held in whole
/// seconds.
#[derive(Debug, Clone)]
pub enum DownArgs {
    RemoveVolumes,
    RemoveOrphans,
    RemoveImages(RemoveOptions),
    Timeout(u64),
}

impl ComposeCommandArgs for DownArgs {
    open spec fn args_spec(&self) -> Seq<Seq<char>> {
        match self {
            DownArgs::RemoveVolumes => seq!["-v"@],
            DownArgs::RemoveOrphans => seq!["--remove-orphans"@],
            DownArgs::RemoveImages(RemoveOptions::Local) => seq!["--rmi"@, "local"@],
            DownArgs::RemoveImages(RemoveOptions::All) => seq!["--rmi"@, "all"@],
            DownArgs::Timeout(secs) => seq!["--timeout"@, dec_digits_of(*secs as int)],
        }
    }

    fn args(&self) -> (r: Vec<String>) {
        match self {
            DownArgs::RemoveVolumes => {
                let mut r: Vec<String> = Vec::new();
                r.push(String::from_str("-v"));
                proof {
                    assert(r.deep_view() =~= self.args_spec());
                }
                r
            },
            DownArgs::RemoveOrphans => {
                let mut r: Vec<String> = Vec::new();
                r.push(String::from_str("--remove-orphans"));
                proof {
                    assert(r.deep_view() =~= self.args_spec());
                }
                r
            },
            DownArgs::RemoveImages(opt) => {
                let mut r: Vec<String> = Vec::new();
                r.push(String::from_str("--rmi"));
                match opt {
                    RemoveOptions::Local => r.push(String::from_str("local")),
                    RemoveOptions::All => r.push(String::from_str("all")),
                }
                proof {
                    assert(r.deep_view() =~= self.args_spec());
                }
                r
            },
            DownArgs::Timeout(secs) => {
                let mut r: Vec<String> = Vec::new();
                r.push(String::from_str("--timeout"));
                r.push(chars_to_string(&u64_dec_chars(*secs)));
                proof {
                    assert(r.deep_view() =~= self.args_spec());
                }
                r
            },
        }
    }
}

/// Arguments of the bring-up subcommand.
#[derive(Debug, Clone)]
pub enum UpArgs {
    /// Scale a service to a number of entities.
    Scale(String, u32),
    /// Wait for the entities to be running or healthy before returning.
    Wait,
}

impl ComposeCommandArgs for UpArgs {
    open spec fn args_spec(&self) -> Seq<Seq<char>> {
        match self {
            UpArgs::Scale(service, count) => seq![
                "--scale"@,
                service@ + "="@ + dec_digits_of(*count as int),
            ],
            UpArgs::Wait => seq!["--wait"@],
        }
    }

    fn args(&self) -> (r: Vec<String>) {
        match self {
            UpArgs::Scale(service, count) => {
                let mut r: Vec<String> = Vec::new();
                r.push(String::from_str("--scale"));
                let mut word = str_chars(service.as_str());
                let mut eq = str_chars("=");
                word.append(&mut eq);
                let mut digits = u64_dec_chars(*count as u64);
                word.append(&mut digits);
                r.push(chars_to_string(&word));
                proof {
                    assert(r.deep_view() =~= self.args_spec());
                }
                r
            },
            UpArgs::Wait => {
                let mut r: Vec<String> = Vec::new();
                r.push(String::from_str("--wait"));
                proof {
                    assert(r.deep_view() =~= self.args_spec());
                }
                r
            },
        }
    }
}

/// Arguments of the scale subcommand.
#[derive(Debug, Clone)]
pub enum ScaleArgs {
    NoDeps,
    Service(u32, String),
}

impl ComposeCommandArgs for ScaleArgs {
    open spec fn args_spec(&self) -> Seq<Seq<char>> {
        match self {
            ScaleArgs::NoDeps => seq!["--no-deps"@],
            ScaleArgs::Service(count, service) => seq![
                service@ + "="@ + dec_digits_of(*count as int),
            ],
        }
    }

    fn args(&self) -> (r: Vec<String>) {
        match self {
            ScaleArgs::NoDeps => {
                let mut r: Vec<String> = Vec::new();
                r.push(String::from_str("--no-deps"));
                proof {
                    assert(r.deep_view() =~= self.args_spec());
                }
                r
            },
            ScaleArgs::Service(count, service) => {
                let mut r: Vec<String> = Vec::new();
                let mut word = str_chars(service.as_str());
                let mut eq = str_chars("=");
                word.append(&mut eq);
                let mut digits = u64_dec_chars(*count as u64);
                word.append(&mut digits);
                r.push(chars_to_string(&word));
                proof {
                    assert(r.deep_view() =~= self.args_spec());
                }
                r
            },
        }
    }
}

/// Arguments of the start subcommand.
#[derive(Debug, Clone)]
pub enum StartArgs {
    /// Run the subcommand in dry-run mode.
    DryRun,
}

impl ComposeCommandArgs for StartArgs {
    open spec fn args_spec(&self) -> Seq<Seq<char>> {
        match self {
            StartArgs::DryRun => seq!["--dry-run"@],
        }
    }

    fn args(&self) -> (r: Vec<String>) {
        match self {
            StartArgs::DryRun => {
                let mut r: Vec<String> = Vec::new();
                r.push(String::from_str("--dry-run"));
                proof {
                    assert(r.deep_view() =~= self.args_spec());
                }
                r
            },
        }
    }
}

} // verus!
