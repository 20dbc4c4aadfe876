//! The configuration of a run and the command that it makes of a batch.

use crate::text::{
    join, joined, lemma_replaced_without_occurrence, occurs_in, replace, replaced,
    split_whitespace, words,
};
use vstd::prelude::*;
use vstd::string::*;

verus! {

/// The configuration of a run. It is set once, before the first line is read,
/// and only read after that.
#[derive(Debug)]
pub struct Opt {
    /// The number of lines in a batch. A run needs it to be one or more.
    pub limit: usize,
    /// The placeholder token. Where there is one, the input is substituted
    /// for it in the fixed arguments; where there is none, the input is
    /// appended to them.
    pub replace: Option<String>,
    /// Whether each command line is shown before it is run.
    pub verbose: bool,
    /// The program, followed by the arguments that every invocation gets.
    pub command_with_args: Vec<String>,
}

/// A configuration as plain values.
pub struct OptView {
    pub limit: nat,
    pub replace: Option<Seq<char>>,
    pub verbose: bool,
    pub command_with_args: Seq<Seq<char>>,
}

/// One command to run: the program, its arguments, and the line to show
/// just before it is started, if one is to be shown.
#[derive(Debug)]
pub struct Invocation {
    pub program: String,
    pub args: Vec<String>,
    pub echo: Option<String>,
}

/// An invocation as plain values.
pub struct InvocationView {
    pub program: Seq<char>,
    pub args: Seq<Seq<char>>,
    pub echo: Option<Seq<char>>,
}

/// The line that shows a command: the program, one space, and the arguments
/// with one space between each two.
pub open spec fn shown(program: Seq<char>, args: Seq<Seq<char>>) -> Seq<char> {
    program + " "@ + joined(args, " "@)
}

/// Append mode: the fixed arguments, followed by every word of every line of
/// the batch, in order. A line of several words gives several arguments.
pub open spec fn appended(fixed: Seq<Seq<char>>, input: Seq<Seq<char>>) -> Seq<Seq<char>> {
    fixed + input.flat_map(|line: Seq<char>| words(line))
}

/// Substitution mode: the fixed arguments, each with every occurrence of
/// `token` replaced by the lines of the batch joined with single spaces.
/// Nothing is appended.
pub open spec fn substituted(
    fixed: Seq<Seq<char>>,
    token: Seq<char>,
    input: Seq<Seq<char>>,
) -> Seq<Seq<char>> {
    fixed.map_values(|arg: Seq<char>| replaced(arg, token, joined(input, " "@)))
}

impl OptView {
    /// The program to run: the first string of the command, or `echo` where
    /// no command is given.
    pub open spec fn program(self) -> Seq<char> {
        if self.command_with_args.len() > 0 {
            self.command_with_args[0]
        } else {
            "echo"@
        }
    }

    /// The arguments that every invocation gets: the command without its
    /// first string.
    pub open spec fn fixed_args(self) -> Seq<Seq<char>> {
        if self.command_with_args.len() > 0 {
            self.command_with_args.skip(1)
        } else {
            Seq::empty()
        }
    }

    /// The arguments of the invocation for the batch `input`: in append
    /// mode without a placeholder, in substitution mode with one.
    pub open spec fn arguments(self, input: Seq<Seq<char>>) -> Seq<Seq<char>> {
        match self.replace {
            None => appended(self.fixed_args(), input),
            Some(token) => substituted(self.fixed_args(), token, input),
        }
    }

    /// The invocation for the batch `input`; it carries the line to show
    /// exactly when the configuration is verbose.
    pub open spec fn invocation(self, input: Seq<Seq<char>>) -> InvocationView {
        InvocationView {
            program: self.program(),
            args: self.arguments(input),
            echo: if self.verbose {
                Some(shown(self.program(), self.arguments(input)))
            } else {
                None
            },
        }
    }
}

/// With a placeholder, the invocation has one argument for each fixed
/// argument and none besides, and a fixed argument in which the placeholder
/// does not occur is passed on as it is.
pub proof fn lemma_substitution_keeps_other_arguments(
    opt: OptView,
    input: Seq<Seq<char>>,
    i: int,
)
    requires
        opt.replace is Some,
        0 <= i < opt.fixed_args().len(),
    ensures
        opt.arguments(input).len() == opt.fixed_args().len(),
        !occurs_in(opt.replace->0, opt.fixed_args()[i]) ==> opt.arguments(input)[i]
            == opt.fixed_args()[i],
{
    let token = opt.replace->0;
    if !occurs_in(token, opt.fixed_args()[i]) {
        lemma_replaced_without_occurrence(opt.fixed_args()[i], token, joined(input, " "@));
    }
}

impl View for Opt {
    type V = OptView;

    open spec fn view(&self) -> OptView {
        OptView {
            limit: self.limit as nat,
            replace: self.replace.deep_view(),
            verbose: self.verbose,
            command_with_args: self.command_with_args.deep_view(),
        }
    }
}

impl View for Invocation {
    type V = InvocationView;

    open spec fn view(&self) -> InvocationView {
        InvocationView {
            program: self.program@,
            args: self.args.deep_view(),
            echo: self.echo.deep_view(),
        }
    }
}

impl Default for Opt {
    /// Batches of one line, no placeholder, not verbose, no command.
    fn default() -> (opt: Opt)
        ensures
            opt@ == (OptView {
                limit: 1,
                replace: None,
                verbose: false,
                command_with_args: Seq::empty(),
            }),
    {
        let opt = Opt { limit: 1, replace: None, verbose: false, command_with_args: Vec::new() };
        assert(opt.command_with_args.deep_view() =~= Seq::<Seq<char>>::empty());
        opt
    }
}

/// The line that shows the command `program` with `args`.
pub fn command_line(program: &str, args: &[String]) -> (line: String)
    ensures
        line@ == shown(program@, args.deep_view()),
{
    let mut line = program.to_owned();
    line.append(" ");
    let rest = join(args, " ");
    line.append(rest.as_str());
    line
}

/// The arguments in append mode.
fn append_words(fixed: &[String], input: &[String]) -> (args: Vec<String>)
    ensures
        args.deep_view() == appended(fixed.deep_view(), input.deep_view()),
{
    let ghost lines = input.deep_view();
    let ghost split = |line: Seq<char>| words(line);
    let mut args: Vec<String> = Vec::new();
    let mut i: usize = 0;
    while i < fixed.len()
        invariant
            i <= fixed.len(),
            args.deep_view() == fixed.deep_view().take(i as int),
        decreases fixed.len() - i,
    {
        let ghost before = args.deep_view();
        args.push(fixed[i].clone());
        assert(args.deep_view() =~= before.push(fixed[i as int]@));
        assert(fixed.deep_view().take(i + 1) =~= before.push(fixed[i as int]@));
        i += 1;
    }
    assert(fixed.deep_view().take(i as int) =~= fixed.deep_view());
    assert(lines.take(0).flat_map(split) =~= Seq::<Seq<char>>::empty());
    let mut k: usize = 0;
    while k < input.len()
        invariant
            k <= input.len(),
            lines == input.deep_view(),
            split == |line: Seq<char>| words(line),
            args.deep_view() == fixed.deep_view() + lines.take(k as int).flat_map(split),
        decreases input.len() - k,
    {
        let ghost before = args.deep_view();
        let mut found = split_whitespace(input[k].as_str());
        let ghost found_view = found.deep_view();
        args.append(&mut found);
        proof {
            assert(args.deep_view() =~= before + found_view);
            lines.lemma_flat_map_take_append(split, k as int);
            assert(split(lines[k as int]) == found_view);
        }
        k += 1;
    }
    assert(lines.take(k as int) =~= lines);
    args
}

/// The arguments in substitution mode.
fn substitute(fixed: &[String], token: &str, input: &[String]) -> (args: Vec<String>)
    ensures
        args.deep_view() == substituted(fixed.deep_view(), token@, input.deep_view()),
{
    let ghost lines = input.deep_view();
    let ghost put_in = |arg: Seq<char>| replaced(arg, token@, joined(lines, " "@));
    let with = join(input, " ");
    let mut args: Vec<String> = Vec::new();
    let mut i: usize = 0;
    while i < fixed.len()
        invariant
            i <= fixed.len(),
            with@ == joined(lines, " "@),
            put_in == |arg: Seq<char>| replaced(arg, token@, joined(lines, " "@)),
            args.deep_view() == fixed.deep_view().take(i as int).map_values(put_in),
        decreases fixed.len() - i,
    {
        let ghost before = args.deep_view();
        args.push(replace(fixed[i].as_str(), token, with.as_str()));
        assert(args.deep_view() =~= before.push(put_in(fixed[i as int]@)));
        assert(fixed.deep_view().take(i + 1).map_values(put_in) =~= before.push(
            put_in(fixed[i as int]@),
        ));
        i += 1;
    }
    assert(fixed.deep_view().take(i as int) =~= fixed.deep_view());
    args
}

impl Opt {
    /// The program to run.
    pub fn program(&self) -> (program: &str)
        ensures
            program@ == self@.program(),
    {
        if self.command_with_args.len() > 0 {
            self.command_with_args[0].as_str()
        } else {
            "echo"
        }
    }

    /// The arguments that every invocation gets.
    pub fn fixed_args(&self) -> (args: &[String])
        ensures
            args.deep_view() == self@.fixed_args(),
    {
        let all = self.command_with_args.as_slice();
        if all.len() > 0 {
            let args = &all[1..all.len()];
            assert(args.deep_view() =~= self@.fixed_args());
            args
        } else {
            assert(all.deep_view() =~= self@.fixed_args());
            all
        }
    }

    /// The program and the arguments of the invocation for the batch `input`.
    pub fn command(&self, input: &[String]) -> (command: (String, Vec<String>))
        ensures
            command.0@ == self@.program(),
            command.1.deep_view() == self@.arguments(input.deep_view()),
    {
        let args = match &self.replace {
            None => append_words(self.fixed_args(), input),
            Some(token) => substitute(self.fixed_args(), token.as_str(), input),
        };
        (self.program().to_owned(), args)
    }

    /// The invocation for the batch `input`.
    pub fn invocation(&self, input: &[String]) -> (invocation: Invocation)
        ensures
            invocation@ == self@.invocation(input.deep_view()),
    {
        let (program, args) = self.command(input);
        let echo = if self.verbose {
            Some(command_line(program.as_str(), args.as_slice()))
        } else {
            None
        };
        Invocation { program, args, echo }
    }
}

} // verus!
