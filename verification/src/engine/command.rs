//! Commands to run, before anything runs them.
use crate::split;
use vstd::prelude::*;

verus! {

/// A program, its arguments, and the environment variables that are set (or, without a value,
/// removed) for it.
#[derive(Debug)]
pub struct CommandLine {
    pub program: String,
    pub args: Vec<String>,
    pub envs: Vec<(String, Option<String>)>,
}

/// The characters of a text that may be missing.
pub open spec fn maybe(text: Option<String>) -> Option<Seq<char>> {
    match text {
        Some(s) => Some(s@),
        None => None,
    }
}

/// What a [`CommandLine`] says.
#[verifier::ext_equal]
pub struct CommandView {
    pub program: Seq<char>,
    pub args: Seq<Seq<char>>,
    pub envs: Seq<(Seq<char>, Option<Seq<char>>)>,
}

impl View for CommandLine {
    type V = CommandView;

    open spec fn view(&self) -> CommandView {
        CommandView {
            program: self.program@,
            args: split::views(self.args@),
            envs: self.envs@.map_values(|e: (String, Option<String>)| (e.0@, maybe(e.1))),
        }
    }
}

/// Adds one argument.
pub fn push_arg(args: &mut Vec<String>, arg: &str)
    ensures
        split::views(final(args)@) == split::views(old(args)@).push(arg@),
{
    let ghost before = args@;
    let owned: String = arg.to_owned();
    args.push(owned);
    proof {
        split::lemma_views_push(before, owned);
    }
}

} // verus!
