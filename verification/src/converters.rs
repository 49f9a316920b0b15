//! Converter manifests and the search for a converter between two file types.
use vstd::prelude::*;
use std::path::PathBuf;
use crate::RunError;

verus! {

/// Declares `which::Error`, the error of `which::which`, carried opaquely.
#[verifier::external_type_specification]
#[verifier::external_body]
pub struct ExWhichError(which::Error);

/// Why the converters could not be loaded or used.
#[derive(Debug, PartialEq)]
pub enum ConverterError {
    /// The program of a converter is not on the search path.
    ConverterNotFound { program_name: String },
    /// The directory of converter manifests does not exist.
    DirectoryNotFound { directory: PathBuf },
    /// No manifest was valid and had its program available.
    NoConvertersLoaded,
}

/// A converter manifest: the program to run, its argument template, and the
/// file types it reads (`convert_from`) and writes (`convert_to`), each given
/// as pairs of a file extension and the name the program uses for that type.
#[derive(Debug, Clone)]
pub struct Converter {
    pub name: String,
    pub program_name: String,
    pub args: String,
    pub convert_from: Vec<(String, String)>,
    pub convert_to: Vec<(String, String)>,
}

/// `key` is one of the extensions listed in `table`.
pub open spec fn lists_extension(table: Seq<(String, String)>, key: Seq<char>) -> bool {
    exists|i: int| 0 <= i < table.len() && (#[trigger] table[i]).0@ == key
}

/// `c` reads files of type `input` and writes files of type `output`.
pub open spec fn converts_between(c: Converter, input: Seq<char>, output: Seq<char>) -> bool {
    lists_extension(c.convert_from@, input) && lists_extension(c.convert_to@, output)
}

/// Calls `which::which`, which searches the directories of `PATH` for an
/// executable named `name`.  What it finds depends on the file system and the
/// environment, so nothing is claimed of the result.
#[verifier::external_body]
fn locate_program(name: &str) -> (r: Result<PathBuf, which::Error>) {
    which::which(name)
}

impl Converter {
    /// The path of this converter's program, found on the search path; when
    /// it cannot be found, `ConverterNotFound` with the program's name.
    pub fn validate_program_existence(&self) -> (r: Result<PathBuf, ConverterError>)
        ensures
            r matches Err(e) ==> e == (ConverterError::ConverterNotFound {
                program_name: self.program_name,
            }),
    {
        let located = locate_program(self.program_name.as_str());
        self.resolve_program(located)
    }

    /// The outcome of looking up this converter's program, given what the
    /// search on the path returned: the path it found, or `ConverterNotFound`
    /// with the program's name when it found none.
    pub fn resolve_program(&self, located: Result<PathBuf, which::Error>) -> (r: Result<
        PathBuf,
        ConverterError,
    >)
        ensures
            match located {
                Ok(p) => r == Ok::<PathBuf, ConverterError>(p),
                Err(_) => r == Err::<PathBuf, ConverterError>(
                    ConverterError::ConverterNotFound { program_name: self.program_name },
                ),
            },
    {
        match located {
            Ok(p) => Ok(p),
            Err(_) => Err(ConverterError::ConverterNotFound { program_name: self.program_name.clone() }),
        }
    }
}

/// The converters of `cs` whose mark in `found` is set, in order.
pub open spec fn kept(cs: Seq<Converter>, found: Seq<bool>) -> Seq<Converter>
    decreases cs.len(),
{
    if cs.len() == 0 {
        Seq::empty()
    } else if found.last() {
        kept(cs.drop_last(), found.drop_last()).push(cs.last())
    } else {
        kept(cs.drop_last(), found.drop_last())
    }
}

/// The result of loading: the converters kept, or `NoConvertersLoaded` when
/// none is.
pub open spec fn loaded(cs: Seq<Converter>, found: Seq<bool>, r: Result<Vec<Converter>, ConverterError>) -> bool {
    if kept(cs, found).len() == 0 {
        r == Err::<Vec<Converter>, ConverterError>(ConverterError::NoConvertersLoaded)
    } else {
        r matches Ok(v) && v@ == kept(cs, found)
    }
}

/// Keeps the converters whose program was found (`found[i]` for
/// `converters[i]`); fails with `NoConvertersLoaded` when none is left.
pub fn keep_found(converters: Vec<Converter>, found: Vec<bool>) -> (r: Result<Vec<Converter>, ConverterError>)
    requires
        found@.len() == converters@.len(),
    ensures
        loaded(converters@, found@, r),
{
    let ghost all = converters@;
    let mut rest = converters;
    let mut out: Vec<Converter> = Vec::new();
    let mut i: usize = 0;
    let n = found.len();
    assert(all.take(0) =~= Seq::<Converter>::empty());
    while i < n
        invariant
            n == found@.len() == all.len(),
            i <= n,
            rest@ == all.skip(i as int),
            out@ == kept(all.take(i as int), found@.take(i as int)),
        decreases n - i,
    {
        let c = rest.remove(0);
        proof {
            assert(all.take(i + 1).drop_last() =~= all.take(i as int));
            assert(found@.take(i + 1).drop_last() =~= found@.take(i as int));
            assert(all.skip(i as int).remove(0) =~= all.skip(i + 1));
        }
        if found[i] {
            out.push(c);
        }
        i = i + 1;
    }
    assert(all.take(n as int) =~= all);
    assert(found@.take(n as int) =~= found@);
    if out.len() == 0 {
        Err(ConverterError::NoConvertersLoaded)
    } else {
        Ok(out)
    }
}

/// A converter left unmarked (a manifest whose program is missing), added
/// anywhere among the others, changes nothing in what is kept.
pub proof fn lemma_unmarked_converter_ignored(
    cs: Seq<Converter>,
    found: Seq<bool>,
    i: int,
    c: Converter,
)
    requires
        found.len() == cs.len(),
        0 <= i <= cs.len(),
    ensures
        kept(cs.insert(i, c), found.insert(i, false)) == kept(cs, found),
    decreases cs.len(),
{
    if i == cs.len() {
        assert(cs.insert(i, c).drop_last() =~= cs);
        assert(found.insert(i, false).drop_last() =~= found);
    } else {
        lemma_unmarked_converter_ignored(cs.drop_last(), found.drop_last(), i, c);
        assert(cs.insert(i, c).drop_last() =~= cs.drop_last().insert(i, c));
        assert(found.insert(i, false).drop_last() =~= found.drop_last().insert(i, false));
        assert(cs.insert(i, c).last() == cs.last());
        assert(found.insert(i, false).last() == found.last());
    }
}

/// Loading with an unmarked converter added anywhere gives what loading
/// without it gives: the same converters, or the same failure.
pub proof fn lemma_unmarked_converter_keeps_result(
    cs: Seq<Converter>,
    found: Seq<bool>,
    i: int,
    c: Converter,
    r: Result<Vec<Converter>, ConverterError>,
)
    requires
        found.len() == cs.len(),
        0 <= i <= cs.len(),
    ensures
        loaded(cs.insert(i, c), found.insert(i, false), r) == loaded(cs, found, r),
{
    lemma_unmarked_converter_ignored(cs, found, i, c);
}

/// The positions whose mark in `found` is clear, in increasing order.
pub open spec fn dropped_indices(found: Seq<bool>) -> Seq<int>
    decreases found.len(),
{
    if found.len() == 0 {
        Seq::empty()
    } else if found.last() {
        dropped_indices(found.drop_last())
    } else {
        dropped_indices(found.drop_last()).push(found.len() - 1)
    }
}

/// `missing` reports, in order, each converter of `cs` left unmarked in
/// `found`: its position and `ConverterNotFound` with its program's name.
pub open spec fn reports_missing(
    cs: Seq<Converter>,
    found: Seq<bool>,
    missing: Seq<(usize, ConverterError)>,
) -> bool {
    &&& missing.len() == dropped_indices(found).len()
    &&& forall|k: int|
        0 <= k < missing.len() ==> (#[trigger] missing[k]).0 as int == dropped_indices(found)[k]
            && missing[k].1 == (ConverterError::ConverterNotFound {
            program_name: cs[missing[k].0 as int].program_name,
        })
}

/// Keeps the converters whose program is on the search path, in order;
/// fails with `NoConvertersLoaded` when none is.  Beside that result come
/// the converters left out: the position of each and the `ConverterNotFound`
/// error for its program.  Which programs are found depends on the
/// environment: both results follow one marking of the converters, the
/// first as `keep_found` gives it.
pub fn retain_available(converters: Vec<Converter>) -> (r: (
    Result<Vec<Converter>, ConverterError>,
    Vec<(usize, ConverterError)>,
))
    ensures
        exists|found: Seq<bool>|
            #![trigger reports_missing(converters@, found, r.1@)]
            found.len() == converters@.len() && loaded(converters@, found, r.0) && reports_missing(
                converters@,
                found,
                r.1@,
            ),
{
    let mut found: Vec<bool> = Vec::new();
    let mut missing: Vec<(usize, ConverterError)> = Vec::new();
    let mut i: usize = 0;
    while i < converters.len()
        invariant
            i <= converters@.len(),
            found@.len() == i,
            reports_missing(converters@, found@, missing@),
        decreases converters@.len() - i,
    {
        let ghost before = found@;
        match converters[i].validate_program_existence() {
            Ok(_) => {
                found.push(true);
                assert(found@.drop_last() =~= before);
            },
            Err(e) => {
                found.push(false);
                assert(found@.drop_last() =~= before);
                missing.push((i, e));
                proof {
                    let m = missing@;
                    assert forall|k: int| 0 <= k < m.len() implies (#[trigger] m[k]).0 as int
                        == dropped_indices(found@)[k] && m[k].1 == (ConverterError::ConverterNotFound {
                        program_name: converters@[m[k].0 as int].program_name,
                    }) by {
                        if k < m.len() - 1 {
                            assert(m[k] == missing@.drop_last()[k]);
                        }
                    }
                }
            },
        }
        i = i + 1;
    }
    let ghost marks = found@;
    let ghost all = converters@;
    let r = keep_found(converters, found);
    let res = (r, missing);
    assert(marks.len() == all.len() && loaded(all, marks, res.0) && reports_missing(all, marks, res.1@));
    res
}

/// How a run of a converter program ended.
#[derive(Debug, Clone, PartialEq)]
pub enum RunOutcome {
    /// The program succeeded and its output file passed the check.
    Converted,
    /// The program succeeded but its output file failed the check.
    OutputRejected,
    /// The program reported failure.
    ProgramFailed,
}

/// The outcome of a run: the conversion succeeded only when the program
/// exited successfully and its output file passed the check (the check
/// counts only after a successful exit).
pub fn run_outcome(exit_success: bool, output_ok: bool) -> (r: RunOutcome)
    ensures
        r == (if !exit_success {
            RunOutcome::ProgramFailed
        } else if output_ok {
            RunOutcome::Converted
        } else {
            RunOutcome::OutputRejected
        }),
{
    if !exit_success {
        RunOutcome::ProgramFailed
    } else if output_ok {
        RunOutcome::Converted
    } else {
        RunOutcome::OutputRejected
    }
}

fn lists_key(table: &Vec<(String, String)>, key: &String) -> (found: bool)
    ensures
        found == lists_extension(table@, key@),
{
    let mut i: usize = 0;
    while i < table.len()
        invariant
            i <= table.len(),
            forall|j: int| 0 <= j < i ==> (#[trigger] table@[j]).0@ != key@,
        decreases table.len() - i,
    {
        if table[i].0 == *key {
            return true;
        }
        i = i + 1;
    }
    false
}

/// Returns the first converter of `converters` that reads `input_extension`
/// and writes `output_extension`, or `None` when no converter does.
pub fn find_converter<'a>(
    converters: &'a [Converter],
    input_extension: &str,
    output_extension: &str,
) -> (found: Option<&'a Converter>)
    ensures
        match found {
            Some(c) => exists|k: int|
                0 <= k < converters@.len() && converters@[k] == *c && converts_between(
                    *c,
                    input_extension@,
                    output_extension@,
                ) && forall|j: int|
                    0 <= j < k ==> !converts_between(
                        #[trigger] converters@[j],
                        input_extension@,
                        output_extension@,
                    ),
            None => forall|j: int|
                0 <= j < converters@.len() ==> !converts_between(
                    #[trigger] converters@[j],
                    input_extension@,
                    output_extension@,
                ),
        },
{
    let input = input_extension.to_owned();
    let output = output_extension.to_owned();
    let mut i: usize = 0;
    while i < converters.len()
        invariant
            i <= converters@.len(),
            input@ == input_extension@,
            output@ == output_extension@,
            forall|j: int|
                0 <= j < i ==> !converts_between(
                    #[trigger] converters@[j],
                    input_extension@,
                    output_extension@,
                ),
        decreases converters@.len() - i,
    {
        let c = &converters[i];
        if lists_key(&c.convert_from, &input) && lists_key(&c.convert_to, &output) {
            return Some(c);
        }
        i = i + 1;
    }
    None
}

/// The first converter of `converters` able to convert from
/// `input_extension` to `output_extension`; `NoConversionPossible` with both
/// extensions when there is none.
pub fn select_converter<'a>(
    converters: &'a [Converter],
    input_extension: &str,
    output_extension: &str,
) -> (r: Result<&'a Converter, RunError>)
    ensures
        match r {
            Ok(c) => exists|k: int|
                0 <= k < converters@.len() && converters@[k] == *c && converts_between(
                    *c,
                    input_extension@,
                    output_extension@,
                ) && forall|j: int|
                    0 <= j < k ==> !converts_between(
                        #[trigger] converters@[j],
                        input_extension@,
                        output_extension@,
                    ),
            Err(RunError::NoConversionPossible { in_ext, out_ext }) => in_ext@ == input_extension@
                && out_ext@ == output_extension@ && forall|j: int|
                0 <= j < converters@.len() ==> !converts_between(
                    #[trigger] converters@[j],
                    input_extension@,
                    output_extension@,
                ),
        },
{
    match find_converter(converters, input_extension, output_extension) {
        Some(c) => Ok(c),
        None => Err(
            RunError::NoConversionPossible {
                in_ext: input_extension.to_owned(),
                out_ext: output_extension.to_owned(),
            },
        ),
    }
}

} // verus!
