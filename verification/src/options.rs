//! The options of a run, and the base arguments that they stand for.

use vstd::prelude::*;
use crate::invocation::clone_strings;

verus! {

/// What the user asked for on the command line.
#[derive(Debug, PartialEq, Eq)]
pub struct Options {
    /// The command to run and its own arguments.
    pub args: Vec<String>,
    /// Print the version and do nothing else.
    pub version: bool,
    /// How many times `--verbose` was given.
    pub verbose: u32,
    pub quiet: Option<bool>,
    pub manifest_path: Option<String>,
    pub color: Option<String>,
    pub frozen: bool,
    pub locked: bool,
}

/// `word`, `count` times.
pub open spec fn repeated(word: Seq<char>, count: nat) -> Seq<Seq<char>> {
    Seq::new(count, |i: int| word)
}

/// `word` alone where `on` holds, and nothing where it does not.
pub open spec fn flag(on: bool, word: Seq<char>) -> Seq<Seq<char>> {
    if on {
        seq![word]
    } else {
        Seq::<Seq<char>>::empty()
    }
}

/// `name` and the value where there is one, and nothing where there is none.
pub open spec fn setting(name: Seq<char>, value: Option<String>) -> Seq<Seq<char>> {
    match value {
        Some(text) => seq![name, text@],
        None => Seq::<Seq<char>>::empty(),
    }
}

impl Options {
    /// The arguments that every invocation of the run starts with: the
    /// command, the options that are handed on to it, each in its fixed
    /// place, and last `--no-default-features`.
    pub open spec fn spec_base_args(&self) -> Seq<Seq<char>> {
        self.args.deep_view() + repeated("--verbose"@, self.verbose as nat) + flag(
            self.quiet == Some(true),
            "--quiet"@,
        ) + setting("--manifest-path"@, self.manifest_path) + setting("--color"@, self.color)
            + flag(self.frozen, "--frozen"@) + flag(self.locked, "--locked"@)
            + seq!["--no-default-features"@]
    }

    /// Builds the base arguments of the run.
    pub fn base_args(&self) -> (base_args: Vec<String>)
        ensures
            base_args.deep_view() == self.spec_base_args(),
    {
        let mut base_args = clone_strings(&self.args);
        let ghost command = self.args.deep_view();
        let mut given: u32 = 0;
        while given < self.verbose
            invariant
                given <= self.verbose,
                base_args.deep_view() == command + repeated("--verbose"@, given as nat),
            decreases self.verbose - given,
        {
            let ghost before = base_args.deep_view();
            base_args.push("--verbose".to_owned());
            given += 1;
            assert(base_args.deep_view() =~= before + seq!["--verbose"@]);
            assert(base_args.deep_view() =~= command + repeated("--verbose"@, given as nat));
        }
        let ghost verbose = base_args.deep_view();
        if let Some(true) = self.quiet {
            base_args.push("--quiet".to_owned());
        }
        let ghost quiet = base_args.deep_view();
        assert(quiet =~= verbose + flag(self.quiet == Some(true), "--quiet"@));
        if let Some(path) = &self.manifest_path {
            base_args.push("--manifest-path".to_owned());
            base_args.push(path.clone());
        }
        let ghost manifest_path = base_args.deep_view();
        assert(manifest_path =~= quiet + setting("--manifest-path"@, self.manifest_path));
        if let Some(color) = &self.color {
            base_args.push("--color".to_owned());
            base_args.push(color.clone());
        }
        let ghost color = base_args.deep_view();
        assert(color =~= manifest_path + setting("--color"@, self.color));
        if self.frozen {
            base_args.push("--frozen".to_owned());
        }
        let ghost frozen = base_args.deep_view();
        assert(frozen =~= color + flag(self.frozen, "--frozen"@));
        if self.locked {
            base_args.push("--locked".to_owned());
        }
        let ghost locked = base_args.deep_view();
        assert(locked =~= frozen + flag(self.locked, "--locked"@));
        base_args.push("--no-default-features".to_owned());
        assert(base_args.deep_view() =~= locked + seq!["--no-default-features"@]);
        base_args
    }
}

} // verus!
