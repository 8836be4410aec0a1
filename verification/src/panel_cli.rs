//! The `right-panel` command line: which request it makes of the running
//! application, or which usage message it prints.

use vstd::prelude::*;

use crate::right_panel::{join_path, join_spec};
use crate::text::{chars_of, extend_chars, has_prefix, parse_u32, parse_u32_spec, same_chars, starts_with, string_of};

verus! {

/// A request to open a path in the right panel of a pane.
#[derive(Debug, Clone, PartialEq, Eq)]
pub struct RightPanelOpenParams {
    pub path: String,
    pub line: Option<u32>,
    pub pane_id: Option<String>,
}

/// What `right-panel` does.
#[derive(Debug, Clone, PartialEq, Eq)]
pub enum PanelCommand {
    /// Sends an open request.
    Open(RightPanelOpenParams),
    /// Reports a bad `open` command line, with the open usage; exits with 2.
    OpenError(String),
    /// Sends a toggle request.
    Toggle,
    /// Prints the help and exits with the given status.
    Help(i32),
}

/// What the `open` arguments from `i` on give, with the path and line read so
/// far: `--line` takes a number; other `--` options are refused; the first
/// other argument is the path and a second one is refused.
pub open spec fn open_args_from(
    args: Seq<Seq<char>>,
    i: int,
    path: Option<Seq<char>>,
    line: Option<u32>,
) -> Result<(Option<Seq<char>>, Option<u32>), Seq<char>>
    decreases args.len() - i,
{
    if i < 0 || i >= args.len() {
        Ok((path, line))
    } else if args[i] == "--line"@ {
        if i + 1 >= args.len() {
            Err("missing value for --line"@)
        } else {
            match parse_u32_spec(args[i + 1]) {
                Some(v) => open_args_from(args, i + 2, path, Some(v)),
                None => Err("invalid line: "@ + args[i + 1]),
            }
        }
    } else if has_prefix(args[i], "--"@) {
        Err("unknown option: "@ + args[i])
    } else if path is Some {
        Err("unexpected argument: "@ + args[i])
    } else {
        open_args_from(args, i + 1, Some(args[i]), line)
    }
}

/// The open request the arguments make: a path is required; a relative one
/// is taken below `cwd` when it is known.
pub open spec fn open_params_spec(
    args: Seq<Seq<char>>,
    cwd: Option<Seq<char>>,
) -> Result<(Seq<char>, Option<u32>), Seq<char>> {
    match open_args_from(args, 0, None, None) {
        Err(e) => Err(e),
        Ok((None, _)) => Err("missing path"@),
        Ok((Some(path), line)) => Ok(
            (
                match cwd {
                    Some(c) => if !(path.len() > 0 && path[0] == '/') {
                        join_spec(c, path)
                    } else {
                        path
                    },
                    None => path,
                },
                line,
            ),
        ),
    }
}

/// The arguments as plain values.
pub open spec fn arg_views(args: Seq<String>) -> Seq<Seq<char>> {
    args.map_values(|a: String| a@)
}

fn message(prefix: &str, tail: &str) -> (r: String)
    ensures
        r@ == prefix@ + tail@,
{
    let mut out = chars_of(prefix);
    extend_chars(&mut out, chars_of(tail).as_slice());
    string_of(out.as_slice())
}

/// Reads the arguments of `right-panel open` into the request to send.
pub fn parse_right_panel_open_args(
    args: &[String],
    cwd: Option<&str>,
    pane_id: Option<String>,
) -> (r: Result<RightPanelOpenParams, String>)
    ensures
        r matches Ok(p) ==> open_params_spec(
            arg_views(args@),
            match cwd {
                Some(c) => Some(c@),
                None => None,
            },
        ) == Ok::<(Seq<char>, Option<u32>), Seq<char>>((p.path@, p.line)) && p.pane_id == pane_id,
        r matches Err(e) ==> open_params_spec(
            arg_views(args@),
            match cwd {
                Some(c) => Some(c@),
                None => None,
            },
        ) == Err::<(Seq<char>, Option<u32>), Seq<char>>(e@),
{
    let ghost a = arg_views(args@);
    let mut path: Option<String> = None;
    let mut line: Option<u32> = None;
    let mut index: usize = 0;
    let flag = chars_of("--line");
    let dashes = chars_of("--");
    while index < args.len()
        invariant
            index <= args.len(),
            a == arg_views(args@),
            flag@ == "--line"@,
            dashes@ == "--"@,
            open_args_from(a, 0, None, None) == open_args_from(
                a,
                index as int,
                crate::split::opt_view(path),
                line,
            ),
        decreases args.len() - index,
    {
        let arg = chars_of(args[index].as_str());
        assert(a[index as int] == args@[index as int]@);
        if same_chars(arg.as_slice(), flag.as_slice()) {
            if index + 1 >= args.len() {
                return Err(string_of(chars_of("missing value for --line").as_slice()));
            }
            let value = chars_of(args[index + 1].as_str());
            assert(a[index + 1] == args@[index + 1]@);
            match parse_u32(value.as_slice()) {
                Some(v) => {
                    line = Some(v);
                    index = index + 2;
                },
                None => return Err(message("invalid line: ", args[index + 1].as_str())),
            }
        } else if starts_with(arg.as_slice(), dashes.as_slice()) {
            return Err(message("unknown option: ", args[index].as_str()));
        } else if path.is_some() {
            return Err(message("unexpected argument: ", args[index].as_str()));
        } else {
            path = Some(args[index].clone());
            index = index + 1;
        }
    }
    let path = match path {
        Some(p) => p,
        None => return Err(string_of(chars_of("missing path").as_slice())),
    };
    let path_chars = chars_of(path.as_str());
    let path = match cwd {
        Some(c) => if !(path_chars.len() > 0 && path_chars[0] == '/') {
            string_of(join_path(chars_of(c).as_slice(), path_chars.as_slice()).as_slice())
        } else {
            path
        },
        None => path,
    };
    Ok(RightPanelOpenParams { path, line, pane_id })
}

/// All arguments but the first.
fn tail_args(args: &[String]) -> (r: Vec<String>)
    requires
        args@.len() > 0,
    ensures
        r@ == args@.skip(1),
{
    let mut rest: Vec<String> = Vec::new();
    let mut i: usize = 1;
    while i < args.len()
        invariant
            1 <= i <= args.len(),
            rest@ == args@.subrange(1, i as int),
        decreases args.len() - i,
    {
        rest.push(args[i].clone());
        assert(args@.subrange(1, i + 1) =~= args@.subrange(1, i as int).push(args@[i as int]));
        i = i + 1;
    }
    assert(rest@ =~= args@.skip(1));
    rest
}

/// What `right-panel` does with `args`: `open` reads the rest as an open
/// request; `toggle` alone sends a toggle; `help`, `--help` and `-h` print
/// the help; anything else, or nothing, prints it and fails.
pub fn run_right_panel_command(args: &[String], cwd: Option<&str>, pane_id: Option<String>) -> (r: PanelCommand)
    ensures
        args@.len() == 0 ==> r == PanelCommand::Help(2),
        args@.len() > 0 && args@[0]@ == "open"@ ==> match r {
            PanelCommand::Open(p) => open_params_spec(
                arg_views(args@.skip(1)),
                match cwd {
                    Some(c) => Some(c@),
                    None => None,
                },
            ) == Ok::<(Seq<char>, Option<u32>), Seq<char>>((p.path@, p.line)) && p.pane_id == pane_id,
            PanelCommand::OpenError(e) => open_params_spec(
                arg_views(args@.skip(1)),
                match cwd {
                    Some(c) => Some(c@),
                    None => None,
                },
            ) == Err::<(Seq<char>, Option<u32>), Seq<char>>(e@),
            _ => false,
        },
        args@.len() > 0 && args@[0]@ == "toggle"@ ==> r == (if args@.len() == 1 {
            PanelCommand::Toggle
        } else {
            PanelCommand::Help(2)
        }),
        args@.len() > 0 && (args@[0]@ == "help"@ || args@[0]@ == "--help"@ || args@[0]@ == "-h"@)
            ==> r == PanelCommand::Help(0),
        args@.len() > 0 && !(args@[0]@ == "open"@ || args@[0]@ == "toggle"@ || args@[0]@ == "help"@
            || args@[0]@ == "--help"@ || args@[0]@ == "-h"@) ==> r == PanelCommand::Help(2),
{
    proof {
        reveal_strlit("open");
        reveal_strlit("toggle");
        reveal_strlit("help");
        reveal_strlit("--help");
        reveal_strlit("-h");
        assert("open"@.len() == 4 && "open"@[0] == 'o');
        assert("toggle"@.len() == 6);
        assert("help"@.len() == 4 && "help"@[0] == 'h');
        assert("--help"@.len() == 6 && "--help"@[0] == '-');
        assert("-h"@.len() == 2);
        assert("toggle"@[0] == 't');
    }
    if args.len() == 0 {
        return PanelCommand::Help(2);
    }
    let sub = args[0].as_str();
    if crate::text::eq_str(sub, "open") {
        let rest = tail_args(args);
        return match parse_right_panel_open_args(rest.as_slice(), cwd, pane_id) {
            Ok(p) => PanelCommand::Open(p),
            Err(e) => PanelCommand::OpenError(e),
        };
    }
    if crate::text::eq_str(sub, "toggle") {
        return if args.len() == 1 {
            PanelCommand::Toggle
        } else {
            PanelCommand::Help(2)
        };
    }
    if crate::text::eq_str(sub, "help") || crate::text::eq_str(sub, "--help") || crate::text::eq_str(sub, "-h") {
        return PanelCommand::Help(0);
    }
    PanelCommand::Help(2)
}

} // verus!
