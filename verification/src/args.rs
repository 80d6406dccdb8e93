//! The command line of the converter: `BIN --input INPUT_FILE --output OUTPUT_FILE`.
use vstd::prelude::*;

verus! {

/// The files that the converter reads and writes.
#[derive(Debug, PartialEq, Eq)]
pub struct Args {
    pub input: String,
    pub output: String,
}

/// The command line does not have the expected shape.
#[derive(Debug, PartialEq, Eq)]
pub struct UsageError;

impl UsageError {
    /// How to call the converter.
    pub fn message(&self) -> (r: String)
        ensures
            r@ == "Usage: --input INPUT_FILE --output OUTPUT_FILE"@,
    {
        "Usage: --input INPUT_FILE --output OUTPUT_FILE".to_owned()
    }
}

/// Whether a command line has the expected shape: the program's name, `--input`, a file,
/// `--output`, a file; anything after that is ignored.
pub open spec fn well_formed_command(args: Seq<Seq<char>>) -> bool {
    args.len() >= 5 && args[1] == "--input"@ && args[3] == "--output"@
}

/// The characters of each string.
pub open spec fn strings_view(args: Seq<String>) -> Seq<Seq<char>> {
    Seq::new(args.len(), |i: int| args[i]@)
}

impl Args {
    /// Reads the input and output files from a command line, the program's name first.
    pub fn parse(args: Vec<String>) -> (r: Result<Args, UsageError>)
        ensures
            r is Ok <==> well_formed_command(strings_view(args@)),
            r matches Ok(a) ==> a.input@ == args@[2]@ && a.output@ == args@[4]@,
    {
        if args.len() < 5 {
            return Err(UsageError);
        }
        if args[1] != "--input".to_owned() {
            return Err(UsageError);
        }
        if args[3] != "--output".to_owned() {
            return Err(UsageError);
        }
        Ok(Args { input: args[2].clone(), output: args[4].clone() })
    }
}

} // verus!
