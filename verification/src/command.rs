use vstd::prelude::*;

verus! {

/// What the program is asked to do.
pub enum Command {
    /// No command was given: show how to use the program.
    Usage,
    /// `-I`: set up a new blog.
    Init,
    /// `-G`: generate the blog's pages.
    Generate,
    /// `-S`: serve the generated pages over HTTP.
    Serve,
    /// Any other first argument.
    Invalid,
}

/// The command that the program arguments `args` (the program's name first) ask for.
pub open spec fn command_of(args: Seq<Seq<char>>) -> Command {
    if args.len() < 2 {
        Command::Usage
    } else if args[1] == "-G"@ {
        Command::Generate
    } else if args[1] == "-S"@ {
        Command::Serve
    } else if args[1] == "-I"@ {
        Command::Init
    } else {
        Command::Invalid
    }
}

/// Decides the command from the program arguments (see `command_of`).
pub fn parse_command(args: &Vec<String>) -> (r: Command)
    ensures
        r == command_of(args@.map_values(|s: String| s@)),
{
    let ghost a = args@.map_values(|s: String| s@);
    if args.len() < 2 {
        return Command::Usage;
    }
    assert(a[1] == args@[1]@);
    let arg = &args[1];
    if *arg == String::from_str("-G") {
        Command::Generate
    } else if *arg == String::from_str("-S") {
        Command::Serve
    } else if *arg == String::from_str("-I") {
        Command::Init
    } else {
        Command::Invalid
    }
}

} // verus!
