//! The command line: which function is asked for, which arguments are flags,
//! and what the trash does in answer.

use vstd::prelude::*;
use vstd::string::*;
use crate::text::{contains_char, starts_with_char, text_eq};

verus! {

/// The functions of the trash.
#[derive(Debug)]
pub enum Function {
    Delete,
    List,
    Empty,
    ChangeDir(Option<String>),
    Restore(Option<Vec<String>>),
    Clean,
}

/// The function named by `input`, if any.
pub open spec fn spec_function(input: Seq<char>) -> Result<Function, ()> {
    if input == "delete"@ {
        Ok(Function::Delete)
    } else if input == "list"@ {
        Ok(Function::List)
    } else if input == "empty"@ {
        Ok(Function::Empty)
    } else if input == "change-dir"@ {
        Ok(Function::ChangeDir(None))
    } else if input == "restore"@ {
        Ok(Function::Restore(None))
    } else if input == "clean"@ {
        Ok(Function::Clean)
    } else {
        Err(())
    }
}

impl Function {
    /// The function named by `input`: `delete`, `list`, `empty`,
    /// `change-dir`, `restore` or `clean`; any other input names none.
    pub fn from_str(input: &str) -> (r: Result<Function, ()>)
        ensures
            r == spec_function(input@),
    {
        if text_eq(input, "delete") {
            Ok(Function::Delete)
        } else if text_eq(input, "list") {
            Ok(Function::List)
        } else if text_eq(input, "empty") {
            Ok(Function::Empty)
        } else if text_eq(input, "change-dir") {
            Ok(Function::ChangeDir(None))
        } else if text_eq(input, "restore") {
            Ok(Function::Restore(None))
        } else if text_eq(input, "clean") {
            Ok(Function::Clean)
        } else {
            Err(())
        }
    }
}

/// Whether an argument is a flag: it starts with `-`.
pub open spec fn is_flag(a: Seq<char>) -> bool {
    a.len() > 0 && a[0] == '-'
}

/// The flags among `args`, in order.
pub open spec fn flags_of(args: Seq<Seq<char>>) -> Seq<Seq<char>>
    decreases args.len(),
{
    if args.len() == 0 {
        Seq::empty()
    } else if is_flag(args.last()) {
        flags_of(args.drop_last()).push(args.last())
    } else {
        flags_of(args.drop_last())
    }
}

/// The arguments among `args` that are not flags, in order.
pub open spec fn rest_of(args: Seq<Seq<char>>) -> Seq<Seq<char>>
    decreases args.len(),
{
    if args.len() == 0 {
        Seq::empty()
    } else if is_flag(args.last()) {
        rest_of(args.drop_last())
    } else {
        rest_of(args.drop_last()).push(args.last())
    }
}

/// Splitting the command line loses and invents no argument: every argument
/// is either a flag or one of the rest, the flags all start with `-`, and
/// none of the rest does.
pub proof fn lemma_split_partition(args: Seq<Seq<char>>)
    ensures
        flags_of(args).len() + rest_of(args).len() == args.len(),
        forall|i: int| 0 <= i < flags_of(args).len() ==> is_flag(#[trigger] flags_of(args)[i]),
        forall|i: int| 0 <= i < rest_of(args).len() ==> !is_flag(#[trigger] rest_of(args)[i]),
    decreases args.len(),
{
    if args.len() > 0 {
        lemma_split_partition(args.drop_last());
        let f = flags_of(args.drop_last());
        let r = rest_of(args.drop_last());
        if is_flag(args.last()) {
            assert forall|i: int| 0 <= i < flags_of(args).len() implies is_flag(
                #[trigger] flags_of(args)[i],
            ) by {
                if i < f.len() {
                    assert(flags_of(args)[i] == f[i]);
                }
            }
        } else {
            assert forall|i: int| 0 <= i < rest_of(args).len() implies !is_flag(
                #[trigger] rest_of(args)[i],
            ) by {
                if i < r.len() {
                    assert(rest_of(args)[i] == r[i]);
                }
            }
        }
    }
}

/// Whether one of `flags` asks for help: `-h` or `--help`.
pub open spec fn asks_for_help(flags: Seq<Seq<char>>) -> bool {
    exists|i: int| 0 <= i < flags.len() && (#[trigger] flags[i] == "-h"@ || flags[i] == "--help"@)
}

/// Whether one of `flags` holds the character `c`.
pub open spec fn some_flag_holds(flags: Seq<Seq<char>>, c: char) -> bool {
    exists|i: int| 0 <= i < flags.len() && (#[trigger] flags[i]).contains(c)
}

/// The arguments that a function works on: all but the program and the
/// function's name.
pub open spec fn operands<T>(args: Seq<T>) -> Seq<T> {
    if args.len() >= 2 {
        args.skip(2)
    } else {
        Seq::empty()
    }
}

/// The command line taken apart: its flags, the other arguments, and
/// whether help was asked for.
#[derive(Debug)]
pub struct SplitArgs {
    pub flags: Vec<String>,
    pub rest: Vec<String>,
    pub help: bool,
}

/// Takes the command line apart into flags (the arguments that start with
/// `-`) and the other arguments, keeping their order, and notes whether
/// `-h` or `--help` is among the flags.
pub fn split_args(args: &Vec<String>) -> (r: SplitArgs)
    ensures
        r.flags.deep_view() == flags_of(args.deep_view()),
        r.rest.deep_view() == rest_of(args.deep_view()),
        r.help == asks_for_help(r.flags.deep_view()),
{
    let mut flags: Vec<String> = Vec::new();
    let mut rest: Vec<String> = Vec::new();
    let n = args.len();
    let mut i: usize = 0;
    while i < n
        invariant
            n == args.len(),
            i <= n,
            flags.deep_view() == flags_of(args.deep_view().take(i as int)),
            rest.deep_view() == rest_of(args.deep_view().take(i as int)),
        decreases n - i,
    {
        let a = &args[i];
        let ghost before = args.deep_view().take(i as int);
        assert(args.deep_view().take(i + 1).drop_last() =~= before);
        assert(args.deep_view().take(i + 1).last() == a@);
        if starts_with_char(a.as_str(), '-') {
            flags.push(a.clone());
            assert(flags.deep_view() =~= flags_of(before).push(a@));
        } else {
            rest.push(a.clone());
            assert(rest.deep_view() =~= rest_of(before).push(a@));
        }
        i = i + 1;
    }
    assert(args.deep_view().take(n as int) =~= args.deep_view());
    let help = any_help(&flags);
    SplitArgs { flags, rest, help }
}

/// Whether `-h` or `--help` is among `flags`.
fn any_help(flags: &Vec<String>) -> (r: bool)
    ensures
        r == asks_for_help(flags.deep_view()),
{
    let n = flags.len();
    let mut i: usize = 0;
    while i < n
        invariant
            n == flags.len(),
            i <= n,
            forall|j: int| 0 <= j < i ==> !(#[trigger] flags.deep_view()[j] == "-h"@ || flags.deep_view()[j] == "--help"@),
        decreases n - i,
    {
        if text_eq(flags[i].as_str(), "-h") || text_eq(flags[i].as_str(), "--help") {
            assert(flags.deep_view()[i as int] == flags[i as int]@);
            return true;
        }
        assert(flags.deep_view()[i as int] == flags[i as int]@);
        i = i + 1;
    }
    false
}

/// Whether some flag holds the character `c`.
pub fn any_flag_holds(flags: &Vec<String>, c: char) -> (r: bool)
    ensures
        r == some_flag_holds(flags.deep_view(), c),
{
    let n = flags.len();
    let mut i: usize = 0;
    while i < n
        invariant
            n == flags.len(),
            i <= n,
            forall|j: int| 0 <= j < i ==> !(#[trigger] flags.deep_view()[j]).contains(c),
        decreases n - i,
    {
        assert(flags.deep_view()[i as int] == flags[i as int]@);
        if contains_char(flags[i].as_str(), c) {
            return true;
        }
        i = i + 1;
    }
    false
}

/// The arguments a function works on: `args` without its first two.
pub fn operands_of(args: &Vec<String>) -> (r: Vec<String>)
    ensures
        r.deep_view() == operands(args.deep_view()),
{
    let mut r: Vec<String> = Vec::new();
    let n = args.len();
    let mut i: usize = 2;
    while i < n
        invariant
            n == args.len(),
            2 <= i,
            n >= 2 ==> i <= n,
            n >= 2 ==> r.deep_view() =~= args.deep_view().subrange(2, i as int),
            n < 2 ==> r.deep_view().len() == 0,
        decreases n - i,
    {
        let ghost before = r.deep_view();
        let a = args[i].clone();
        r.push(a);
        assert(r.deep_view() =~= before.push(args.deep_view()[i as int]));
        i = i + 1;
    }
    assert(r.deep_view() =~= operands(args.deep_view()));
    r
}

/// The subjects on which help is offered.
#[derive(Debug)]
pub enum Topic {
    Delete,
    List,
    Empty,
    ChangeDir,
    Restore,
    Clean,
}

/// What the trash does in answer to a command line.
#[derive(Debug)]
pub enum CliAction {
    /// No function was given: ask for one.
    MissingFunction,
    /// Show the usage of a function.
    Help(Topic),
    /// Move the operands to the trash.
    Delete,
    /// List what the trash holds.
    List,
    /// Permanently delete the operands from the trash.
    Empty,
    /// Change the trash directory (not available yet).
    ChangeDir,
    /// Restore the operands (not available yet).
    Restore,
    /// Show the flags, then recreate the configuration file and/or the trash
    /// directories, as the flags say.
    Clean { recreate_config: bool, recreate_dirs: bool },
    /// Show the flags, then the usage of `clean`, since no flag says what to
    /// recreate.
    CleanUsage,
    /// An unknown function with a request for help: point to the manual.
    Manual,
    /// An unknown function: say that it is not one.
    NotAFunction,
}

/// The answer to a command line whose function part is `function`, whose
/// flags are `flags`, and where help was asked for or not.
pub open spec fn spec_action(function: Result<Function, ()>, flags: Seq<Seq<char>>, help: bool) -> CliAction {
    match function {
        Ok(Function::Delete) => if help { CliAction::Help(Topic::Delete) } else { CliAction::Delete },
        Ok(Function::List) => if help { CliAction::Help(Topic::List) } else { CliAction::List },
        Ok(Function::Empty) => if help { CliAction::Help(Topic::Empty) } else { CliAction::Empty },
        Ok(Function::ChangeDir(_)) => if help { CliAction::Help(Topic::ChangeDir) } else { CliAction::ChangeDir },
        Ok(Function::Restore(_)) => if help { CliAction::Help(Topic::Restore) } else { CliAction::Restore },
        Ok(Function::Clean) => if help {
            CliAction::Help(Topic::Clean)
        } else if some_flag_holds(flags, 'c') || some_flag_holds(flags, 'd') {
            CliAction::Clean {
                recreate_config: some_flag_holds(flags, 'c'),
                recreate_dirs: some_flag_holds(flags, 'd'),
            }
        } else {
            CliAction::CleanUsage
        },
        Err(()) => if help { CliAction::Manual } else { CliAction::NotAFunction },
    }
}

/// Each function name names its own function.
proof fn lemma_function_names()
    ensures
        spec_function("delete"@) matches Ok(Function::Delete),
        spec_function("list"@) matches Ok(Function::List),
        spec_function("empty"@) matches Ok(Function::Empty),
        spec_function("change-dir"@) matches Ok(Function::ChangeDir(_)),
        spec_function("restore"@) matches Ok(Function::Restore(_)),
        spec_function("clean"@) matches Ok(Function::Clean),
{
    reveal_strlit("delete");
    reveal_strlit("list");
    reveal_strlit("empty");
    reveal_strlit("change-dir");
    reveal_strlit("restore");
    reveal_strlit("clean");
    assert("list"@[0] != "delete"@[0]);
    assert("empty"@[0] != "delete"@[0] && "empty"@[0] != "list"@[0]);
    assert("change-dir"@[0] != "delete"@[0] && "change-dir"@[0] != "list"@[0] && "change-dir"@[0]
        != "empty"@[0]);
    assert("restore"@[0] != "delete"@[0] && "restore"@[0] != "list"@[0] && "restore"@[0]
        != "empty"@[0] && "restore"@[0] != "change-dir"@[0]);
    assert("clean"@[0] != "delete"@[0] && "clean"@[0] != "list"@[0] && "clean"@[0] != "empty"@[0]
        && "clean"@[1] != "change-dir"@[1] && "clean"@[0] != "restore"@[0]);
}

/// Asking for help changes nothing: for a known function, whatever its flags,
/// the answer is the usage of that very function (so `clean -c -h` recreates
/// nothing), and for an unknown one it is a pointer to the manual.
pub proof fn lemma_help_is_only_usage(function: Result<Function, ()>, flags: Seq<Seq<char>>)
    ensures
        function matches Ok(Function::Delete) ==> spec_action(function, flags, true) matches CliAction::Help(
            Topic::Delete,
        ),
        function matches Ok(Function::List) ==> spec_action(function, flags, true) matches CliAction::Help(
            Topic::List,
        ),
        function matches Ok(Function::Empty) ==> spec_action(function, flags, true) matches CliAction::Help(
            Topic::Empty,
        ),
        function matches Ok(Function::ChangeDir(_)) ==> spec_action(function, flags, true) matches CliAction::Help(
            Topic::ChangeDir,
        ),
        function matches Ok(Function::Restore(_)) ==> spec_action(function, flags, true) matches CliAction::Help(
            Topic::Restore,
        ),
        function matches Ok(Function::Clean) ==> spec_action(function, flags, true) matches CliAction::Help(
            Topic::Clean,
        ),
        function is Err ==> spec_action(function, flags, true) is Manual,
{
}

/// Decides what to do with the command line `args` (the program first, then
/// the function's name) once it has been split into `split`.
pub fn plan_command(args: &Vec<String>, split: &SplitArgs) -> (r: CliAction)
    requires
        args.len() >= 1,
    ensures
        args.len() == 1 ==> r is MissingFunction,
        args.len() > 1 ==> r == spec_action(
            spec_function(args[1]@),
            split.flags.deep_view(),
            split.help,
        ),
        args.len() > 1 && split.help && args[1]@ == "delete"@ ==> (r matches CliAction::Help(Topic::Delete)),
        args.len() > 1 && split.help && args[1]@ == "list"@ ==> (r matches CliAction::Help(Topic::List)),
        args.len() > 1 && split.help && args[1]@ == "empty"@ ==> (r matches CliAction::Help(Topic::Empty)),
        args.len() > 1 && split.help && args[1]@ == "change-dir"@ ==> (r matches CliAction::Help(Topic::ChangeDir)),
        args.len() > 1 && split.help && args[1]@ == "restore"@ ==> (r matches CliAction::Help(Topic::Restore)),
        args.len() > 1 && split.help && args[1]@ == "clean"@ ==> (r matches CliAction::Help(Topic::Clean)),
        args.len() > 1 && split.help ==> (r matches CliAction::Help(_) || r is Manual),
{
    proof {
        lemma_function_names();
    }
    if args.len() == 1 {
        return CliAction::MissingFunction;
    }
    let help = split.help;
    match Function::from_str(args[1].as_str()) {
        Ok(Function::Delete) => if help { CliAction::Help(Topic::Delete) } else { CliAction::Delete },
        Ok(Function::List) => if help { CliAction::Help(Topic::List) } else { CliAction::List },
        Ok(Function::Empty) => if help { CliAction::Help(Topic::Empty) } else { CliAction::Empty },
        Ok(Function::ChangeDir(_)) => if help { CliAction::Help(Topic::ChangeDir) } else { CliAction::ChangeDir },
        Ok(Function::Restore(_)) => if help { CliAction::Help(Topic::Restore) } else { CliAction::Restore },
        Ok(Function::Clean) => {
            if help {
                CliAction::Help(Topic::Clean)
            } else {
                let c = any_flag_holds(&split.flags, 'c');
                let d = any_flag_holds(&split.flags, 'd');
                if c || d {
                    CliAction::Clean { recreate_config: c, recreate_dirs: d }
                } else {
                    CliAction::CleanUsage
                }
            }
        },
        Err(()) => if help { CliAction::Manual } else { CliAction::NotAFunction },
    }
}

} // verus!
