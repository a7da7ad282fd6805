//! Invocations: the argument lists that the command is run with.

use vstd::prelude::*;

verus! {

/// The program that every invocation runs.
pub const PROGRAM: &'static str = "cargo";

/// The arguments of the invocation for a feature set: the base arguments,
/// followed by `--features` and the set. The empty set stands for the
/// baseline, which runs with the base arguments alone.
pub open spec fn invocation_args(base_args: Seq<Seq<char>>, feature_set: Seq<char>) -> Seq<
    Seq<char>,
> {
    if feature_set.len() == 0 {
        base_args
    } else {
        base_args + seq!["--features"@, feature_set]
    }
}

/// One run of the command: the arguments that follow the program's name.
#[derive(Debug, PartialEq, Eq)]
pub struct Invocation {
    args: Vec<String>,
}

impl View for Invocation {
    type V = Seq<Seq<char>>;

    closed spec fn view(&self) -> Seq<Seq<char>> {
        self.args.deep_view()
    }
}

/// A copy of a list of strings.
pub fn clone_strings(strings: &Vec<String>) -> (copy: Vec<String>)
    ensures
        copy.deep_view() == strings.deep_view(),
{
    let mut copy: Vec<String> = Vec::new();
    let mut i: usize = 0;
    while i < strings.len()
        invariant
            i <= strings@.len(),
            copy@.len() == i,
            forall|t: int| 0 <= t < i ==> copy@[t]@ == strings@[t]@,
        decreases strings@.len() - i,
    {
        copy.push(strings[i].clone());
        i += 1;
    }
    assert(copy.deep_view() =~= strings.deep_view());
    copy
}

impl Invocation {
    /// The invocation that enables the features of `feature_set` on top of
    /// `base_args`, or the baseline where `feature_set` is empty.
    pub fn new(base_args: &Vec<String>, feature_set: &str) -> (invocation: Invocation)
        ensures
            invocation@ == invocation_args(base_args.deep_view(), feature_set@),
    {
        let mut args = clone_strings(base_args);
        if !feature_set.is_empty() {
            let ghost before = args.deep_view();
            args.push("--features".to_owned());
            args.push(feature_set.to_owned());
            assert(args.deep_view() =~= before + seq!["--features"@, feature_set@]);
        }
        Invocation { args }
    }

    /// The baseline invocation: `base_args` and no feature set.
    pub fn baseline(base_args: &Vec<String>) -> (invocation: Invocation)
        ensures
            invocation@ == base_args.deep_view(),
    {
        Invocation { args: clone_strings(base_args) }
    }

    /// The arguments that follow the program's name.
    pub fn args(&self) -> (args: &Vec<String>)
        ensures
            args.deep_view() == self@,
    {
        &self.args
    }

    /// The whole command line: the program's name, then the arguments.
    pub fn argv(&self) -> (argv: Vec<String>)
        ensures
            argv.deep_view() == seq![PROGRAM@] + self@,
    {
        let mut argv: Vec<String> = Vec::new();
        argv.push(PROGRAM.to_owned());
        let mut i: usize = 0;
        while i < self.args.len()
            invariant
                i <= self.args@.len(),
                argv@.len() == i + 1,
                argv@[0]@ == PROGRAM@,
                forall|t: int| 0 <= t < i ==> argv@[t + 1]@ == self.args@[t]@,
            decreases self.args@.len() - i,
        {
            argv.push(self.args[i].clone());
            i += 1;
        }
        assert(argv.deep_view() =~= seq![PROGRAM@] + self@);
        argv
    }
}

} // verus!
