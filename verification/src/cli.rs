//! The command line of the engine: what its arguments ask for, and the
//! work behind `--checkadf` and `--makeadfb` between reading a file and
//! writing one.

use vstd::prelude::*;
use crate::binary::encode_binary;
use crate::binary_laws::binary_roundtrip;
use crate::binary_model::{binary_document, binary_encoding};
use crate::document::{AdfCheckSummary, AdfError, DocumentModel, ErrorModel};
use crate::lexer::{decoded_by, deterministic};
use crate::reading::{bytes_document, parse_bytes};
use crate::text::{decimal, push_decimal, str_eq};

verus! {

/// What the engine is asked to do. `P` is how a path argument is held.
pub enum CliCommand<P> {
    /// No arguments: run the engine.
    RunApp,
    /// `--checkadf <file>`.
    CheckAdf(P),
    /// `--makeadfb <input> <output>`.
    MakeAdfb { input: P, output: P },
    /// `--viewadf <file>`.
    ViewAdf(P),
}

/// Why the arguments were refused.
pub enum CliError<P> {
    /// A known option with too few or too many paths; the message says which.
    Usage(String),
    /// The first argument is no known option (or is not UTF-8).
    UnknownArgument(P),
}

/// Whether the first argument is the option `flag`.
pub open spec fn first_is<P>(args: Seq<(Option<String>, P)>, flag: Seq<char>) -> bool {
    &&& args.len() > 0
    &&& args[0].0 matches Some(t) && t@ == flag
}

/// Whether `r` refuses the arguments with this message.
pub open spec fn usage_error<P>(r: Result<CliCommand<P>, CliError<P>>, message: Seq<char>) -> bool {
    r matches Err(CliError::Usage(m)) && m@ == message
}

fn text(s: &str) -> (r: String)
    ensures
        r@ == s@,
{
    let mut r = String::new();
    r.push_str(s);
    r
}

/// Whether an argument's text is `flag`; an argument that is not UTF-8 is
/// no option.
fn is_flag(arg: &Option<String>, flag: &str) -> (r: bool)
    ensures
        r == (arg matches Some(t) && t@ == flag@),
{
    match arg {
        Some(t) => str_eq(t.as_str(), flag),
        None => false,
    }
}

/// Reads the arguments that follow the program's name. Each comes as its
/// text, where it is UTF-8, beside the argument itself, which a path
/// argument is taken from.
pub fn parse_cli_args<P>(args: Vec<(Option<String>, P)>) -> (r: Result<CliCommand<P>, CliError<P>>)
    ensures
        args@.len() == 0 ==> r == Ok::<CliCommand<P>, CliError<P>>(CliCommand::RunApp),
        first_is(args@, "--checkadf"@) ==> if args@.len() < 2 {
            usage_error(r, "missing file path after --checkadf"@)
        } else if args@.len() > 2 {
            usage_error(r, "unexpected extra arguments after --checkadf <file>"@)
        } else {
            r == Ok::<CliCommand<P>, CliError<P>>(CliCommand::CheckAdf(args@[1].1))
        },
        first_is(args@, "--makeadfb"@) ==> if args@.len() < 2 {
            usage_error(r, "missing input path after --makeadfb"@)
        } else if args@.len() < 3 {
            usage_error(r, "missing output path after --makeadfb <input>"@)
        } else if args@.len() > 3 {
            usage_error(r, "unexpected extra arguments after --makeadfb <input> <output>"@)
        } else {
            r == Ok::<CliCommand<P>, CliError<P>>(
                CliCommand::MakeAdfb { input: args@[1].1, output: args@[2].1 },
            )
        },
        first_is(args@, "--viewadf"@) ==> if args@.len() < 2 {
            usage_error(r, "missing file path after --viewadf"@)
        } else if args@.len() > 2 {
            usage_error(r, "unexpected extra arguments after --viewadf <file>"@)
        } else {
            r == Ok::<CliCommand<P>, CliError<P>>(CliCommand::ViewAdf(args@[1].1))
        },
        args@.len() > 0 && !first_is(args@, "--checkadf"@) && !first_is(args@, "--makeadfb"@)
            && !first_is(args@, "--viewadf"@) ==> r == Err::<CliCommand<P>, CliError<P>>(
            CliError::UnknownArgument(args@[0].1),
        ),
{
    let ghost all = args@;
    proof {
        reveal_strlit("--checkadf");
        reveal_strlit("--makeadfb");
        reveal_strlit("--viewadf");
        assert("--checkadf"@[2] != "--makeadfb"@[2]);
        assert("--checkadf"@[2] != "--viewadf"@[2]);
        assert("--makeadfb"@[2] != "--viewadf"@[2]);
    }
    let mut rest = args;
    if rest.len() == 0 {
        return Ok(CliCommand::RunApp);
    }
    let (first_text, first) = rest.remove(0);
    assert(rest@ =~= all.drop_first());
    if is_flag(&first_text, "--checkadf") {
        if rest.len() == 0 {
            return Err(CliError::Usage(text("missing file path after --checkadf")));
        }
        if rest.len() > 1 {
            return Err(CliError::Usage(text("unexpected extra arguments after --checkadf <file>")));
        }
        let (_, path) = rest.remove(0);
        Ok(CliCommand::CheckAdf(path))
    } else if is_flag(&first_text, "--makeadfb") {
        if rest.len() == 0 {
            return Err(CliError::Usage(text("missing input path after --makeadfb")));
        }
        if rest.len() == 1 {
            return Err(CliError::Usage(text("missing output path after --makeadfb <input>")));
        }
        if rest.len() > 2 {
            return Err(
                CliError::Usage(text("unexpected extra arguments after --makeadfb <input> <output>")),
            );
        }
        let (_, input) = rest.remove(0);
        let (_, output) = rest.remove(0);
        Ok(CliCommand::MakeAdfb { input, output })
    } else if is_flag(&first_text, "--viewadf") {
        if rest.len() == 0 {
            return Err(CliError::Usage(text("missing file path after --viewadf")));
        }
        if rest.len() > 1 {
            return Err(CliError::Usage(text("unexpected extra arguments after --viewadf <file>")));
        }
        let (_, path) = rest.remove(0);
        Ok(CliCommand::ViewAdf(path))
    } else {
        Err(CliError::UnknownArgument(first))
    }
}

/// The message for an unknown first argument, given how it is shown.
pub open spec fn unknown_argument_text(shown: Seq<char>) -> Seq<char> {
    "unknown argument "@ + shown
        + ". supported usage: aperion --checkadf <file> | aperion --makeadfb <input> <output> | aperion --viewadf <file>"@
}

/// The message for an unknown first argument, `shown` being the argument
/// as `{:?}` writes it.
pub fn unknown_argument_message(shown: &str) -> (r: String)
    ensures
        r@ == unknown_argument_text(shown@),
{
    let mut s = String::new();
    s.push_str("unknown argument ");
    s.push_str(shown);
    s.push_str(
        ". supported usage: aperion --checkadf <file> | aperion --makeadfb <input> <output> | aperion --viewadf <file>",
    );
    s
}

/// The line that reports a check: `version: <v>, material imports: <m>, edits: <e>`.
pub open spec fn summary_text(s: AdfCheckSummary) -> Seq<char> {
    "version: "@ + decimal(s.version as nat) + ", material imports: "@ + decimal(
        s.material_imports as nat,
    ) + ", edits: "@ + decimal(s.edits as nat)
}

/// The line that reports a check: its version and how many statements of
/// each kind the document holds.
pub fn summary_line(summary: &AdfCheckSummary) -> (r: String)
    ensures
        r@ == summary_text(*summary),
{
    let mut s = String::new();
    s.push_str("version: ");
    push_decimal(&mut s, summary.version as u64);
    s.push_str(", material imports: ");
    push_decimal(&mut s, summary.material_imports as u64);
    s.push_str(", edits: ");
    push_decimal(&mut s, summary.edits as u64);
    s
}

/// Why a conversion to the binary form failed: reading the input, or
/// writing the document out.
pub enum MakeAdfbError {
    Parse(AdfError),
    Encode(AdfError),
}

/// Converts a document in either form to the binary form: the input is
/// parsed, then written. `number` gives the bits of the binary64 value that
/// a number literal denotes.
pub fn make_adfb<F: Fn(&str) -> u64>(bytes: &[u8], number: &F) -> (r: Result<Vec<u8>, MakeAdfbError>)
    requires
        bytes@.len() < usize::MAX,
        deterministic(*number),
    ensures
        match bytes_document(bytes@, decoded_by(*number)) {
            Err(e) => r matches Err(MakeAdfbError::Parse(x)) && x@ == e,
            Ok((_, d)) => match binary_encoding(d) {
                Ok(out) => r matches Ok(v) && v@ == out,
                Err(e) => r matches Err(MakeAdfbError::Encode(x)) && x@ == e,
            },
        },
{
    let document = match parse_bytes(bytes, number) {
        Ok((_, document)) => document,
        Err(e) => {
            return Err(MakeAdfbError::Parse(e));
        },
    };
    match encode_binary(&document) {
        Ok(out) => Ok(out),
        Err(e) => Err(MakeAdfbError::Encode(e)),
    }
}

/// What the conversion writes reads back, in the binary form, as the
/// document that the input holds.
pub proof fn make_adfb_roundtrip(input: Seq<u8>, number: spec_fn(Seq<char>) -> u64)
    requires
        bytes_document(input, number) is Ok,
        binary_encoding(bytes_document(input, number)->Ok_0.1) is Ok,
        binary_encoding(bytes_document(input, number)->Ok_0.1)->Ok_0.len() <= usize::MAX,
    ensures
        binary_document(binary_encoding(bytes_document(input, number)->Ok_0.1)->Ok_0) == Ok::<
            DocumentModel,
            ErrorModel,
        >(bytes_document(input, number)->Ok_0.1),
{
    binary_roundtrip(bytes_document(input, number)->Ok_0.1);
}

} // verus!
