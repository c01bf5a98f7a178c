//! The command-line surface: what the `cnvx` program can be asked to do.
use vstd::prelude::*;
use vstd::string::*;

verus! {

/// The program's arguments.
#[derive(Debug, Clone)]
pub struct CliArguments {
    /// The command to run.
    pub command: Command,
}

/// What to do.
#[derive(Debug, Clone)]
pub enum Command {
    /// Solve a model read from a file or from standard input.
    Solve(SolveCommand),
    /// Show the version.
    Version(VersionCommand),
}

/// Solves a model from a file.
#[derive(Debug, Clone)]
pub struct SolveCommand {
    /// Where the model comes from and in which language.
    pub args: SolveArgs,
}

/// Displays the current version.
#[derive(Debug, Clone, Copy)]
pub struct VersionCommand {}

/// Arguments of `solve`.
#[derive(Debug, Clone)]
pub struct SolveArgs {
    /// The model file, or standard input.
    pub input: Input,
    /// The model's language; needed when reading standard input.
    pub language_type: Option<LanguageType>,
}

/// An input that is either standard input or a path.
#[derive(Debug, Clone)]
pub enum Input {
    /// Standard input, written `-`.
    Stdin,
    /// A non-empty path.
    Path(String),
}

/// Languages that a model can be written in.
#[derive(Debug, Copy, Clone, PartialEq, Eq, Structural)]
pub enum LanguageType {
    /// GNU Math Programming Language (`.gmpl`).
    GMPL,
    /// Mathematical Programming System (`.mps`).
    MPS,
}

/// An older form of the arguments, with an optional command.
#[derive(Debug, Clone)]
pub struct Cli {
    pub command: Option<Commands>,
}

/// Commands of the older form of the arguments.
#[derive(Debug, Clone)]
pub enum Commands {
    /// Display the current version.
    Version,
    /// Load and solve a model from a file.
    Solve { file: String },
}

impl Input {
    /// Reads a command-line value: `-` is standard input, any other
    /// non-empty value a path, and the empty value is refused.
    pub fn parse_arg(value: &str) -> (r: Option<Input>)
        ensures
            value@.len() == 0 ==> r is None,
            value@ == "-"@ ==> r matches Some(Input::Stdin),
            value@.len() != 0 && value@ != "-"@ ==> (r matches Some(Input::Path(p)) && p@ == value@),
    {
        proof {
            reveal_strlit("-");
        }
        let n = value.unicode_len();
        if n == 0 {
            None
        } else if n == 1 && value.get_char(0) == '-' {
            assert(value@ =~= "-"@);
            Some(Input::Stdin)
        } else {
            assert(value@ != "-"@);
            Some(Input::Path(String::from_str(value)))
        }
    }

    /// The input as shown to users: `stdin`, or the path.
    pub fn describe(&self) -> (r: String)
        ensures
            self is Stdin ==> r@ == "stdin"@,
            self matches Input::Path(p) ==> r@ == p@,
    {
        match self {
            Input::Stdin => String::from_str("stdin"),
            Input::Path(p) => p.clone(),
        }
    }
}

impl LanguageType {
    /// The language's name, which is also its file extension.
    pub fn name(self) -> (r: &'static str)
        ensures
            self is GMPL ==> r@ == "gmpl"@,
            self is MPS ==> r@ == "mps"@,
    {
        match self {
            LanguageType::GMPL => "gmpl",
            LanguageType::MPS => "mps",
        }
    }
}

} // verus!
