//! Dispatch decisions and built-in command logic: which names are built in,
//! what the `exit` built-in decides for its arguments, the line `echo`
//! prints, the report `type` gives for each name, the `cd` target after
//! tilde expansion, and the fixed error messages.

use vstd::prelude::*;

use crate::numbers::{parse_i32, parse_i32_spec};
use crate::strutil::str_eq;

verus! {

/// The closed set of built-in commands.
#[derive(Clone, Copy, PartialEq, Eq, Structural, Debug)]
pub enum BuiltinCmd {
    Exit,
    Echo,
    Type,
    Pwd,
    Cd,
}

/// Whether `name` names a built-in command.
pub open spec fn is_builtin_name(name: Seq<char>) -> bool {
    ||| name == "exit"@
    ||| name == "echo"@
    ||| name == "type"@
    ||| name == "pwd"@
    ||| name == "cd"@
}

/// The built-in a name designates, if any.
pub open spec fn builtin_of_name_spec(name: Seq<char>) -> Option<BuiltinCmd> {
    if name == "exit"@ {
        Some(BuiltinCmd::Exit)
    } else if name == "echo"@ {
        Some(BuiltinCmd::Echo)
    } else if name == "type"@ {
        Some(BuiltinCmd::Type)
    } else if name == "pwd"@ {
        Some(BuiltinCmd::Pwd)
    } else if name == "cd"@ {
        Some(BuiltinCmd::Cd)
    } else {
        None::<BuiltinCmd>
    }
}

/// Looks a command name up in the built-in registry.
pub fn builtin_of_name(name: &str) -> (r: Option<BuiltinCmd>)
    ensures
        r == builtin_of_name_spec(name@),
        r is Some <==> is_builtin_name(name@),
{
    if str_eq(name, "exit") {
        Some(BuiltinCmd::Exit)
    } else if str_eq(name, "echo") {
        Some(BuiltinCmd::Echo)
    } else if str_eq(name, "type") {
        Some(BuiltinCmd::Type)
    } else if str_eq(name, "pwd") {
        Some(BuiltinCmd::Pwd)
    } else if str_eq(name, "cd") {
        Some(BuiltinCmd::Cd)
    } else {
        None
    }
}

/// Whether `name` is a built-in; built-ins are dispatched directly and are
/// never looked up on the search path.
pub fn is_builtin(name: &str) -> (r: bool)
    ensures
        r == is_builtin_name(name@),
{
    builtin_of_name(name).is_some()
}

/// What the `exit` built-in decides for its argument vector.
#[derive(Clone, Copy, PartialEq, Eq, Structural, Debug)]
pub enum ExitDecision {
    /// Terminate the process with this status.
    Terminate(i32),
    /// A single argument that is no 32-bit integer: a fatal usage error.
    BadNumber,
    /// More than one argument: report the count and keep running.
    WrongArgCount(usize),
}

/// Decides what `exit` does: no argument terminates with status 0, one
/// integer argument terminates with that status, one malformed argument is
/// a number error, and more arguments are a count error.
pub fn exit_decision(args: &Vec<String>) -> (r: ExitDecision)
    ensures
        args@.len() == 0 ==> r == ExitDecision::Terminate(0),
        args@.len() == 1 ==> (match parse_i32_spec(args@[0]@) {
            Some(code) => r == ExitDecision::Terminate(code),
            None => r == ExitDecision::BadNumber,
        }),
        args@.len() > 1 ==> r == ExitDecision::WrongArgCount(args@.len() as usize),
{
    if args.len() == 0 {
        ExitDecision::Terminate(0)
    } else if args.len() == 1 {
        match parse_i32(args[0].as_str()) {
            Some(code) => ExitDecision::Terminate(code),
            None => ExitDecision::BadNumber,
        }
    } else {
        ExitDecision::WrongArgCount(args.len())
    }
}

/// The arguments joined by single spaces: what `echo` prints.
pub open spec fn join_spaces(args: Seq<Seq<char>>) -> Seq<char>
    decreases args.len(),
{
    if args.len() == 0 {
        Seq::<char>::empty()
    } else if args.len() == 1 {
        args[0]
    } else {
        join_spaces(args.drop_last()) + " "@ + args.last()
    }
}

/// Builds the line `echo` prints for its arguments.
pub fn echo_message(args: &Vec<String>) -> (r: String)
    ensures
        r@ == join_spaces(args.deep_view()),
{
    let n = args.len();
    let mut out = String::new();
    let mut i: usize = 0;
    proof {
        assert(args.deep_view().take(0) =~= Seq::<Seq<char>>::empty());
    }
    while i < n
        invariant
            n == args@.len(),
            0 <= i <= n,
            out@ == join_spaces(args.deep_view().take(i as int)),
        decreases n - i,
    {
        let ghost dv = args.deep_view();
        if i > 0 {
            out.append(" ");
        }
        out.append(args[i].as_str());
        proof {
            assert(dv.take(i + 1).drop_last() =~= dv.take(i as int));
            assert(dv.take(i + 1).last() == dv[i as int]);
            assert(dv[i as int] == args@[i as int]@);
            if i == 0 {
                assert(out@ =~= join_spaces(dv.take(i + 1)));
            } else {
                assert(out@ =~= join_spaces(dv.take(i as int)) + " "@ + dv[i as int]);
            }
        }
        i = i + 1;
    }
    proof {
        assert(args.deep_view().take(n as int) =~= args.deep_view());
    }
    out
}

/// The report `type` gives for one name: a built-in, the resolved path, or
/// not found.
pub open spec fn type_message_spec(arg: Seq<char>, resolved: Option<Seq<char>>) -> Seq<char> {
    if is_builtin_name(arg) {
        arg + " is a shell builtin"@
    } else {
        match resolved {
            Some(p) => arg + " is "@ + p,
            None => "type: "@ + arg + ": not found"@,
        }
    }
}

/// Builds the line `type` prints for one argument. `resolved` is the
/// search-path hit for the name; it is ignored for a built-in.
pub fn type_message(arg: &str, resolved: &Option<String>) -> (r: String)
    ensures
        r@ == type_message_spec(arg@, resolved.deep_view()),
{
    if is_builtin(arg) {
        let mut out: String = arg.to_owned();
        out.append(" is a shell builtin");
        out
    } else {
        match resolved {
            Some(p) => {
                let mut out: String = arg.to_owned();
                out.append(" is ");
                out.append(p.as_str());
                proof {
                    assert(out@ =~= arg@ + " is "@ + p@);
                }
                out
            },
            None => {
                let mut out: String = "type: ".to_owned();
                out.append(arg);
                out.append(": not found");
                proof {
                    assert(out@ =~= "type: "@ + arg@ + ": not found"@);
                }
                out
            },
        }
    }
}

/// The `cd` target after tilde expansion: a leading `~` becomes the home
/// directory; anything else is left alone.
pub open spec fn cd_target_spec(arg: Seq<char>, home: Seq<char>) -> Seq<char> {
    if arg.len() > 0 && arg[0] == '~' {
        home + arg.skip(1)
    } else {
        arg
    }
}

/// Expands a leading `~` in a `cd` argument to the home directory.
pub fn expand_tilde(arg: &str, home: &str) -> (r: String)
    ensures
        r@ == cd_target_spec(arg@, home@),
{
    let n = arg.unicode_len();
    if n > 0 && arg.get_char(0) == '~' {
        let rest = arg.substring_char(1, n);
        let mut out: String = home.to_owned();
        out.append(rest);
        proof {
            assert(rest@ =~= arg@.skip(1));
        }
        out
    } else {
        arg.to_owned()
    }
}

/// The message for a command found neither among the built-ins nor on the
/// search path.
pub fn not_found_message(cmd: &str) -> (r: String)
    ensures
        r@ == "Command "@ + cmd@ + " not found"@,
{
    let mut out: String = "Command ".to_owned();
    out.append(cmd);
    out.append(" not found");
    proof {
        assert(out@ =~= "Command "@ + cmd@ + " not found"@);
    }
    out
}

/// The message `cd` prints when the target cannot be entered; it names the
/// argument as the user wrote it, before tilde expansion.
pub fn cd_error_message(arg: &str) -> (r: String)
    ensures
        r@ == "cd: "@ + arg@ + ": No such file or directory"@,
{
    let mut out: String = "cd: ".to_owned();
    out.append(arg);
    out.append(": No such file or directory");
    proof {
        assert(out@ =~= "cd: "@ + arg@ + ": No such file or directory"@);
    }
    out
}

} // verus!
