//! Command lines: a program and its arguments, separated by white space,
//! and where the output of a command is logged.

use crate::text::{
    fields, is_whitespace, lemma_fields_hold_no_separator, lemma_words_are_tokens, split,
    split_words, words, Separator,
};
use vstd::prelude::*;

verus! {

/// How a command is to be started.
#[derive(Debug)]
pub struct SpawnPlan {
    /// The program to run: the first word of the command line.
    pub program: String,
    /// Its arguments: the words after the first.
    pub args: Vec<String>,
    /// The file that receives its standard output and its standard error.
    /// It is created, or emptied, before the program starts.
    pub log_path: String,
}

/// A `SpawnPlan` as mathematical values.
pub struct SpawnPlanView {
    pub program: Seq<char>,
    pub args: Seq<Seq<char>>,
    pub log_path: Seq<char>,
}

impl View for SpawnPlan {
    type V = SpawnPlanView;

    open spec fn view(&self) -> SpawnPlanView {
        SpawnPlanView {
            program: self.program@,
            args: self.args.deep_view(),
            log_path: self.log_path@,
        }
    }
}

/// The directory that holds the log files, with the `/` that ends it.
pub open spec fn log_dir() -> Seq<char> {
    "/tmp/"@
}

/// The base name of a program: what follows its last `/`, or all of it
/// where it has none.
pub open spec fn base_name(program: Seq<char>) -> Seq<char> {
    fields(program, Separator::Char('/')).last()
}

/// The log file of a program: the file in the log directory that is named
/// by the program's base name.
pub open spec fn log_path_of(program: Seq<char>) -> Seq<char> {
    log_dir() + base_name(program)
}

/// The plan for a command line, if it names a program: the program is the
/// first word, the arguments are the words that follow, and the output goes
/// to the program's log file.
pub open spec fn plan_of(command: Seq<char>) -> Option<SpawnPlanView> {
    let w = words(command);
    if w.len() == 0 {
        None
    } else {
        Some(SpawnPlanView { program: w[0], args: w.skip(1), log_path: log_path_of(w[0]) })
    }
}

/// A plan names a program: its program has at least one character, and
/// neither the program nor an argument holds white space.
pub proof fn lemma_plan_is_made_of_tokens(command: Seq<char>)
    requires
        plan_of(command) is Some,
    ensures
        ({
            let plan = plan_of(command).unwrap();
            &&& plan.program.len() > 0
            &&& forall|j: int|
                0 <= j < plan.program.len() ==> !is_whitespace(
                    #[trigger] plan.program[j],
                )
            &&& forall|i: int, j: int|
                0 <= i < plan.args.len() && 0 <= j < plan.args[i].len()
                    ==> !is_whitespace(#[trigger] plan.args[i][j])
        }),
{
    lemma_words_are_tokens(command);
    let w = words(command);
    let plan = plan_of(command).unwrap();
    assert forall|i: int, j: int|
        0 <= i < plan.args.len() && 0 <= j < plan.args[i].len() implies !is_whitespace(
        #[trigger] plan.args[i][j],
    ) by {
        assert(plan.args[i] == w[i + 1]);
    }
}

/// The log file of a program stands in the log directory itself: the name
/// that follows the directory holds no `/`.
pub proof fn lemma_log_file_is_in_log_dir(program: Seq<char>)
    ensures
        log_path_of(program).subrange(0, log_dir().len() as int) == log_dir(),
        forall|j: int|
            log_dir().len() <= j < log_path_of(program).len() ==> #[trigger] log_path_of(
                program,
            )[j] != '/',
{
    let sep = Separator::Char('/');
    let all = fields(program, sep);
    lemma_fields_hold_no_separator(program, sep);
    assert forall|j: int| log_dir().len() <= j < log_path_of(program).len() implies #[trigger] log_path_of(
        program,
    )[j] != '/' by {
        assert(!sep.matches(all[all.len() - 1][j - log_dir().len()]));
    }
}

/// Computes the base name of a program.
pub fn program_base_name(program: &str) -> (name: String)
    ensures
        name@ == base_name(program@),
{
    let mut parts = split(program, Separator::Char('/'));
    assert(parts.deep_view().len() >= 1);
    parts.pop().unwrap()
}

/// Computes the log file of a program.
pub fn program_log_path(program: &str) -> (path: String)
    ensures
        path@ == log_path_of(program@),
{
    let name = program_base_name(program);
    String::from_str("/tmp/").concat(name.as_str())
}

/// Plans a command line: `None` where it holds no word, and so names no
/// program.
pub fn plan_command(command: &str) -> (plan: Option<SpawnPlan>)
    ensures
        match plan {
            Some(p) => plan_of(command@) == Some(p@),
            None => plan_of(command@) is None,
        },
{
    let mut parts = split_words(command);
    if parts.len() == 0 {
        return None;
    }
    let ghost all = parts.deep_view();
    let program = parts.remove(0);
    assert(parts.deep_view() == all.skip(1));
    let log_path = program_log_path(program.as_str());
    Some(SpawnPlan { program, args: parts, log_path })
}

} // verus!
