//! Building the command line of a conversion and judging its outcome.
use vstd::prelude::*;
use std::time::SystemTime;
use crate::text::{lemma_replace_absent, occurs_in, replace, replace_all};

verus! {

/// Declares `std::time::SystemTime`, carried opaquely.
#[verifier::external_type_specification]
#[verifier::external_body]
pub struct ExSystemTime(std::time::SystemTime);

/// Declares `std::io::Error`, carried opaquely.
#[verifier::external_type_specification]
#[verifier::external_body]
pub struct ExIoError(std::io::Error);

/// Why running a converter failed.
#[derive(Debug)]
pub enum ConvertRunError {
    /// The converter program could not be started.
    CommandFailure { program: String, e: std::io::Error },
    /// The converter finished without creating the output file.
    FileNotCreated { program: String },
    /// The output file exists but was last written before the conversion.
    FileNotOverwritten { program: String, modified_time: SystemTime },
}

/// `x` inside single quotes.
pub open spec fn quoted(x: Seq<char>) -> Seq<char> {
    seq!['\''] + x + seq!['\'']
}

/// The placeholders of an argument template, in the order they are filled.
pub open spec fn in_form_tag() -> Seq<char> {
    seq!['%', 'I', 'N', 'F', 'O', 'R', 'M', '%']
}

pub open spec fn out_form_tag() -> Seq<char> {
    seq!['%', 'O', 'U', 'T', 'F', 'O', 'R', 'M', '%']
}

pub open spec fn out_file_tag() -> Seq<char> {
    seq!['%', 'O', 'U', 'T', 'F', 'I', 'L', 'E', '%']
}

pub open spec fn in_file_tag() -> Seq<char> {
    seq!['%', 'I', 'N', 'F', 'I', 'L', 'E', '%']
}

/// The argument template `args` with its placeholders filled in: the input
/// type, then the output type, then the output file, then the input file,
/// each quoted.
pub open spec fn command_line(
    args: Seq<char>,
    input: Seq<char>,
    output: Seq<char>,
    input_type: Seq<char>,
    output_type: Seq<char>,
) -> Seq<char> {
    let a = replace_all(args, in_form_tag(), quoted(input_type));
    let b = replace_all(a, out_form_tag(), quoted(output_type));
    let c = replace_all(b, out_file_tag(), quoted(output));
    replace_all(c, in_file_tag(), quoted(input))
}

/// An argument template without placeholders is the command line itself,
/// whatever the files and types.
pub proof fn lemma_plain_template_unchanged(
    args: Seq<char>,
    input: Seq<char>,
    output: Seq<char>,
    input_type: Seq<char>,
    output_type: Seq<char>,
)
    requires
        !occurs_in(in_form_tag(), args),
        !occurs_in(out_form_tag(), args),
        !occurs_in(out_file_tag(), args),
        !occurs_in(in_file_tag(), args),
    ensures
        command_line(args, input, output, input_type, output_type) == args,
{
    lemma_replace_absent(args, in_form_tag(), quoted(input_type));
    lemma_replace_absent(args, out_form_tag(), quoted(output_type));
    lemma_replace_absent(args, out_file_tag(), quoted(output));
    lemma_replace_absent(args, in_file_tag(), quoted(input));
}

/// How `shlex::split` divides a command line into words; `None` for a line
/// it rejects (an unterminated quote or a trailing backslash).
pub uninterp spec fn shell_words(line: Seq<char>) -> Option<Seq<Seq<char>>>;

/// Calls `shlex::split`, which splits a line into words with the quoting
/// rules of a POSIX shell.  Its result is taken to be `shell_words` of the
/// line; nothing more is claimed of it.
#[verifier::external_body]
fn split_shell_words(line: &str) -> (words: Option<Vec<String>>)
    ensures
        words is None <==> shell_words(line@) is None,
        words matches Some(v) ==> shell_words(line@) == Some(v@.map_values(|w: String| w@)),
{
    shlex::split(line)
}

fn quote(x: &str) -> (q: String)
    ensures
        q@ == quoted(x@),
{
    let mut q = String::new();
    proof {
        reveal_strlit("'");
    }
    q.append("'");
    q.append(x);
    q.append("'");
    q
}

/// Fills the placeholders `%INFORM%`, `%OUTFORM%`, `%OUTFILE%` and `%INFILE%`
/// of the argument template `args`, in that order, with the quoted types and
/// file names.
pub fn render_command(
    args: &str,
    input: &str,
    output: &str,
    input_type: &str,
    output_type: &str,
) -> (line: String)
    ensures
        line@ == command_line(args@, input@, output@, input_type@, output_type@),
{
    proof {
        reveal_strlit("%INFORM%");
        reveal_strlit("%OUTFORM%");
        reveal_strlit("%OUTFILE%");
        reveal_strlit("%INFILE%");
        assert("%INFORM%"@ =~= in_form_tag());
        assert("%OUTFORM%"@ =~= out_form_tag());
        assert("%OUTFILE%"@ =~= out_file_tag());
        assert("%INFILE%"@ =~= in_file_tag());
    }
    let a = replace(args, "%INFORM%", quote(input_type).as_str());
    let b = replace(a.as_str(), "%OUTFORM%", quote(output_type).as_str());
    let c = replace(b.as_str(), "%OUTFILE%", quote(output).as_str());
    replace(c.as_str(), "%INFILE%", quote(input).as_str())
}

/// The command line of a conversion and the words it splits into; the words
/// are `None` where the line has unbalanced quoting.
pub fn prepare_command(
    args: &str,
    input: &str,
    output: &str,
    input_type: &str,
    output_type: &str,
) -> (r: (String, Option<Vec<String>>))
    ensures
        r.0@ == command_line(args@, input@, output@, input_type@, output_type@),
        r.1 is None <==> shell_words(r.0@) is None,
        r.1 matches Some(v) ==> shell_words(r.0@) == Some(v@.map_values(|w: String| w@)),
{
    let line = render_command(args, input, output, input_type, output_type);
    let words = split_shell_words(line.as_str());
    (line, words)
}

/// The verdict on a conversion's output file `output`, given its modification
/// time (`None` when the file does not exist) and whether that time is stale,
/// that is more than a second before the conversion finished.
pub fn output_verdict(output: &str, modified: Option<SystemTime>, stale: bool) -> (r: Result<
    (),
    ConvertRunError,
>)
    ensures
        match modified {
            None => r matches Err(ConvertRunError::FileNotCreated { program }) && program@ == output@,
            Some(m) => if stale {
                r matches Err(ConvertRunError::FileNotOverwritten { program, modified_time })
                    && program@ == output@ && modified_time == m
            } else {
                r is Ok
            },
        },
{
    match modified {
        None => Err(ConvertRunError::FileNotCreated { program: output.to_owned() }),
        Some(m) => {
            if stale {
                Err(ConvertRunError::FileNotOverwritten { program: output.to_owned(), modified_time: m })
            } else {
                Ok(())
            }
        },
    }
}

/// Nanoseconds in a second.
pub const NANOS_PER_SECOND: i128 = 1_000_000_000i128;

/// A file written at `modified_nanos` is stale at `now_nanos` (both counted
/// in nanoseconds from the Unix epoch, negative before it) when it was
/// written more than one second earlier.
pub open spec fn is_stale(modified_nanos: int, now_nanos: int) -> bool {
    modified_nanos < now_nanos - NANOS_PER_SECOND
}

/// Staleness is exactly "written more than one second earlier", however much
/// earlier that is: every time before the one-second mark is stale and no
/// time from it on is.
pub proof fn lemma_stale_exactly_more_than_a_second(modified_nanos: int, now_nanos: int)
    ensures
        modified_nanos < now_nanos - 1_000_000_000 ==> is_stale(modified_nanos, now_nanos),
        modified_nanos >= now_nanos - 1_000_000_000 ==> !is_stale(modified_nanos, now_nanos),
        forall|earlier: int|
            earlier <= modified_nanos && is_stale(modified_nanos, now_nanos) ==> #[trigger] is_stale(
                earlier,
                now_nanos,
            ),
{
}

/// Checks the output file of a conversion that finished at `now_nanos`: it
/// must exist (`modified` holds its modification time, both as a `SystemTime`
/// and in nanoseconds from the Unix epoch; `None` when the file does not
/// exist) and must have been written no earlier than one second before
/// `now_nanos`.
pub fn check_output_file(output: &str, modified: Option<(SystemTime, i128)>, now_nanos: i128) -> (r:
    Result<(), ConvertRunError>)
    ensures
        match modified {
            None => r matches Err(ConvertRunError::FileNotCreated { program }) && program@ == output@,
            Some((m, m_ns)) => if (m_ns as int) < (now_nanos as int) - 1_000_000_000 {
                r matches Err(ConvertRunError::FileNotOverwritten { program, modified_time })
                    && program@ == output@ && modified_time == m
            } else {
                r is Ok
            },
        },
{
    match modified {
        None => output_verdict(output, None, false),
        Some((m, m_ns)) => {
            let stale = now_nanos >= i128::MIN + NANOS_PER_SECOND && m_ns < now_nanos
                - NANOS_PER_SECOND;
            output_verdict(output, Some(m), stale)
        },
    }
}

} // verus!
