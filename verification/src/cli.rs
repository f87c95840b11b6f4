use vstd::prelude::*;

verus! {

use crate::ratio::{accepted_ratio, decimal_denom, decimal_numer, default_ratio, parse_ratio, Ratio};

/// The failures the program can report.  Each is fatal: the driver prints
/// the diagnostic line on standard error and exits with a nonzero status.
#[derive(Clone, Copy, PartialEq, Eq, Structural, Debug)]
pub enum ProgramError {
    /// The first (base image) path was not given.
    MissingFirstPath,
    /// The second (overlay image) path was not given.
    MissingSecondPath,
    /// An input image could not be opened or decoded.
    ImageOpen,
    /// The output image could not be encoded or written.
    ImageSave,
}

/// The diagnostic line for an error; for the two image errors it is the
/// prefix to which the driver appends the underlying cause.
pub fn error_message(e: &ProgramError) -> (r: &'static str)
    ensures
        e is MissingFirstPath ==> r@ == "plz provide first filepath as argument"@,
        e is MissingSecondPath ==> r@ == "plz provide second filepath as argument"@,
        e is ImageOpen ==> r@ == "error opening image"@,
        e is ImageSave ==> r@ == "error saving image"@,
{
    match e {
        ProgramError::MissingFirstPath => "plz provide first filepath as argument",
        ProgramError::MissingSecondPath => "plz provide second filepath as argument",
        ProgramError::ImageOpen => "error opening image",
        ProgramError::ImageSave => "error saving image",
    }
}

/// The program's fixed knobs, exposed as explicit configuration.
pub struct Config {
    /// Rotate both inputs 270 degrees after loading (portrait normalization).
    pub rotate_input: bool,
    /// Where the composited image is written, relative to the working
    /// directory; always overwritten without confirmation.
    pub output_path: &'static str,
}

/// The defaults: inputs are rotated, and the output goes to `output.png`.
pub fn default_config() -> (c: Config)
    ensures
        c.rotate_input == true,
        c.output_path@ == "output.png"@,
{
    Config { rotate_input: true, output_path: "output.png" }
}

/// What the command line asks for.
pub struct Request {
    pub first_path: String,
    pub second_path: String,
    pub ratio: Ratio,
}

/// Reads the positional arguments (program name excluded): base image path,
/// overlay image path, and an optional circle-size ratio.  Fails exactly
/// when a required path is missing; a third argument that does not parse as
/// a decimal in range falls back to the default ratio silently, and any
/// further arguments are ignored.
pub fn parse_args(args: Vec<String>) -> (r: Result<Request, ProgramError>)
    ensures
        args@.len() == 0 ==> r == Result::<Request, ProgramError>::Err(
            ProgramError::MissingFirstPath,
        ),
        args@.len() == 1 ==> r == Result::<Request, ProgramError>::Err(
            ProgramError::MissingSecondPath,
        ),
        args@.len() >= 2 ==> (r matches Ok(q) && q.first_path@ == args@[0]@ && q.second_path@
            == args@[1]@ && q.ratio.wf()),
        args@.len() >= 3 && accepted_ratio(args@[2]@) ==> (r matches Ok(q) && q.ratio.num
            == decimal_numer(args@[2]@) && q.ratio.den == decimal_denom(args@[2]@)),
        args@.len() >= 2 && !(args@.len() >= 3 && accepted_ratio(args@[2]@)) ==> (r matches Ok(q)
            && q.ratio.num == 1 && q.ratio.den == 10),
{
    let mut rest = args;
    if rest.len() == 0 {
        return Err(ProgramError::MissingFirstPath);
    }
    if rest.len() == 1 {
        return Err(ProgramError::MissingSecondPath);
    }
    let first_path = rest.remove(0);
    let second_path = rest.remove(0);
    let ratio = if rest.len() >= 1 {
        match parse_ratio(rest[0].as_str()) {
            Some(rt) => rt,
            None => default_ratio(),
        }
    } else {
        default_ratio()
    };
    Ok(Request { first_path, second_path, ratio })
}

} // verus!
