//! Programs to run, and what they are given.
use crate::paths;
use crate::paths::copied;
use vstd::prelude::*;
use vstd::string::*;

verus! {

/// A program to run.
#[derive(Debug)]
pub struct Invocation {
    pub program: String,
    pub args: Vec<Vec<u8>>,
    /// A variable that is set in its environment, and the value.
    pub variable: Option<(String, String)>,
    /// The folder to run it in, where it is not the current one.
    pub folder: Option<Vec<u8>>,
}

/// A program to run.
pub struct InvocationModel {
    pub program: Seq<char>,
    pub args: Seq<Seq<u8>>,
    pub variable: Option<(Seq<char>, Seq<char>)>,
    pub folder: Option<Seq<u8>>,
}

/// What arguments hold.
pub open spec fn arg_views(args: Seq<Vec<u8>>) -> Seq<Seq<u8>> {
    args.map_values(|a: Vec<u8>| a@)
}

impl View for Invocation {
    type V = InvocationModel;

    open spec fn view(&self) -> InvocationModel {
        InvocationModel {
            program: self.program@,
            args: arg_views(self.args@),
            variable: match self.variable {
                Some((name, value)) => Some((name@, value@)),
                None => None,
            },
            folder: match self.folder {
                Some(folder) => Some(folder@),
                None => None,
            },
        }
    }
}

/// A program with arguments, and nothing else.
pub open spec fn plain(program: Seq<char>, args: Seq<Seq<u8>>) -> InvocationModel {
    InvocationModel { program, args, variable: None, folder: None }
}

/// A program with one argument.
pub fn with_argument(program: &str, arg: &str) -> (res: Invocation)
    ensures
        res@ == plain(program@, seq![paths::bytes(arg@)]),
{
    let mut args: Vec<Vec<u8>> = Vec::new();
    args.push(copied(arg.as_bytes()));
    assert(arg_views(args@) =~= seq![paths::bytes(arg@)]);
    Invocation { program: program.to_owned(), args, variable: None, folder: None }
}

/// A program with two arguments.
pub fn with_arguments(program: &str, first: &str, second: &str) -> (res: Invocation)
    ensures
        res@ == plain(program@, seq![paths::bytes(first@), paths::bytes(second@)]),
{
    let mut args: Vec<Vec<u8>> = Vec::new();
    args.push(copied(first.as_bytes()));
    args.push(copied(second.as_bytes()));
    assert(arg_views(args@) =~= seq![paths::bytes(first@), paths::bytes(second@)]);
    Invocation { program: program.to_owned(), args, variable: None, folder: None }
}

/// A program to run is what it is given.
pub proof fn invocations_hold_their_fields(run: Invocation, i: int)
    ensures
        run@.program == run.program@,
        run@.args.len() == run.args@.len(),
        0 <= i < run.args@.len() ==> run@.args[i] == run.args@[i]@,
        run.variable is None <==> run@.variable is None,
        run.variable matches Some((name, value)) ==> run@.variable == Some((name@, value@)),
        run.folder is None <==> run@.folder is None,
        run.folder matches Some(folder) ==> run@.folder == Some(folder@),
{
}

/// A plain program has its arguments, and nothing else is set.
pub proof fn plain_programs_have_arguments_only(program: Seq<char>, args: Seq<Seq<u8>>)
    ensures
        plain(program, args).program == program,
        plain(program, args).args == args,
        plain(program, args).variable is None,
        plain(program, args).folder is None,
{
}

} // verus!
