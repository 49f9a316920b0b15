use converter::converters::{
    find_converter, keep_found, retain_available, run_outcome, select_converter, Converter,
    ConverterError, RunOutcome,
};
use converter::converting::{
    check_output_file, output_verdict, prepare_command, render_command, ConvertRunError,
};
use converter::extension::{
    extension_of, extension_span_of, get_correct_extension, get_extension, get_extension_lossy, ExtensionChoice,
    ExtensionError,
};
use converter::file_types::{FileTypeError, FileTypeValue, FileTypes};
use converter::text::replace;
use converter::RunError;
use std::time::{Duration, SystemTime};

fn pairs(keys: &[&str]) -> Vec<(String, String)> {
    keys.iter().map(|k| (k.to_string(), k.to_string())).collect()
}

fn conv(name: &str, program: &str, from: &[&str], to: &[&str]) -> Converter {
    Converter {
        name: name.to_string(),
        program_name: program.to_string(),
        args: String::from("-i %INFILE% %OUTFILE%"),
        convert_from: pairs(from),
        convert_to: pairs(to),
    }
}

fn table() -> FileTypes {
    FileTypes::new(vec![
        ("jpg".to_string(), FileTypeValue::Text("mjpeg".to_string())),
        (
            "md".to_string(),
            FileTypeValue::List(vec![
                Some("markdown".to_string()),
                Some("commonmark".to_string()),
            ]),
        ),
        ("bad".to_string(), FileTypeValue::Other),
        (
            "mixed".to_string(),
            FileTypeValue::List(vec![Some("one".to_string()), None]),
        ),
        ("empty".to_string(), FileTypeValue::List(vec![])),
        ("jpg".to_string(), FileTypeValue::Text("jpeg".to_string())),
    ])
}

#[test]
fn find_converter_picks_first_match() {
    let cs = vec![
        conv("audio", "ffmpeg", &["mp3"], &["wav"]),
        conv("docs", "pandoc", &["md"], &["html", "pdf"]),
        conv("docs2", "other", &["md"], &["pdf"]),
    ];
    let found = find_converter(&cs, "md", "pdf").unwrap();
    assert_eq!(found.name, "docs");
    assert_eq!(find_converter(&cs, "mp3", "wav").unwrap().name, "audio");
}

#[test]
fn find_converter_needs_both_directions() {
    let cs = vec![conv("audio", "ffmpeg", &["mp3"], &["wav"])];
    assert!(find_converter(&cs, "wav", "mp3").is_none());
    assert!(find_converter(&cs, "mp3", "mp3").is_none());
    assert!(find_converter(&[], "mp3", "wav").is_none());
}

#[test]
fn select_converter_reports_extensions() {
    let cs = vec![conv("audio", "ffmpeg", &["mp3"], &["wav"])];
    assert_eq!(select_converter(&cs, "mp3", "wav").unwrap().name, "audio");
    match select_converter(&cs, "png", "gif") {
        Err(e) => assert_eq!(
            e,
            RunError::NoConversionPossible { in_ext: "png".to_string(), out_ext: "gif".to_string() }
        ),
        Ok(_) => panic!("no converter should match"),
    }
}

#[test]
fn keep_found_keeps_marked_in_order() {
    let cs = vec![
        conv("a", "x", &[], &[]),
        conv("b", "y", &[], &[]),
        conv("c", "z", &[], &[]),
    ];
    let kept = keep_found(cs, vec![true, false, true]).unwrap();
    let names: Vec<&str> = kept.iter().map(|c| c.name.as_str()).collect();
    assert_eq!(names, vec!["a", "c"]);
}

#[test]
fn keep_found_with_nothing_left_fails() {
    let cs = vec![conv("a", "x", &[], &[])];
    assert_eq!(keep_found(cs, vec![false]).unwrap_err(), ConverterError::NoConvertersLoaded);
    assert_eq!(keep_found(vec![], vec![]).unwrap_err(), ConverterError::NoConvertersLoaded);
}

#[test]
fn missing_program_is_reported_by_name() {
    let c = conv("ghost", "no-such-program-anywhere-4711", &[], &[]);
    assert_eq!(
        c.validate_program_existence().unwrap_err(),
        ConverterError::ConverterNotFound { program_name: "no-such-program-anywhere-4711".to_string() }
    );
}

#[test]
fn retain_available_drops_missing_programs() {
    let cs = vec![
        conv("missing", "no-such-program-anywhere-4711", &[], &[]),
        conv("shell", "/bin/sh", &[], &[]),
    ];
    let (kept, missing) = retain_available(cs);
    let kept = kept.unwrap();
    assert_eq!(kept.len(), 1);
    assert_eq!(kept[0].name, "shell");
    assert_eq!(
        missing,
        vec![(0, ConverterError::ConverterNotFound { program_name: "no-such-program-anywhere-4711".to_string() })]
    );
    let only_missing = vec![conv("missing", "no-such-program-anywhere-4711", &[], &[])];
    let (loaded, missing) = retain_available(only_missing);
    assert_eq!(loaded.unwrap_err(), ConverterError::NoConvertersLoaded);
    assert_eq!(missing.len(), 1);
}

#[test]
fn replace_scans_left_to_right() {
    assert_eq!(replace("aaa", "aa", "b"), "ba");
    assert_eq!(replace("xyx", "x", "<x>"), "<x>y<x>");
    assert_eq!(replace("", "x", "y"), "");
    assert_eq!(replace("héllo wörld", "ö", "o"), "héllo world");
}

#[test]
fn render_command_fills_placeholders() {
    let line = render_command(
        "-f %INFORM% -i %INFILE% -t %OUTFORM% -o %OUTFILE% %INFILE%",
        "in.md",
        "out.pdf",
        "markdown",
        "pdf",
    );
    assert_eq!(line, "-f 'markdown' -i 'in.md' -t 'pdf' -o 'out.pdf' 'in.md'");
}

#[test]
fn render_command_without_placeholders_is_unchanged() {
    let line = render_command("-y -loglevel error", "a", "b", "c", "d");
    assert_eq!(line, "-y -loglevel error");
}

#[test]
fn render_command_fills_in_order() {
    // The input type is filled first, so a placeholder inside it is filled later.
    let line = render_command("%INFORM%", "in", "out", "%OUTFILE%", "t");
    assert_eq!(line, "''out''");
}

#[test]
fn prepare_command_splits_words() {
    let (line, words) = prepare_command("-i %INFILE% %OUTFILE%", "my file.wav", "b.mp3", "wav", "mp3");
    assert_eq!(line, "-i 'my file.wav' 'b.mp3'");
    assert_eq!(words.unwrap(), vec!["-i".to_string(), "my file.wav".to_string(), "b.mp3".to_string()]);
}

#[test]
fn prepare_command_rejects_unbalanced_quotes() {
    let (line, words) = prepare_command("-i %INFILE%", "it's.wav", "b", "x", "y");
    assert_eq!(line, "-i 'it's.wav'");
    assert!(words.is_none());
}

#[test]
fn extension_of_follows_path_rules() {
    assert_eq!(extension_of("dir/Photo.PNG").as_deref(), Some("PNG"));
    assert_eq!(extension_of("archive.tar.gz").as_deref(), Some("gz"));
    assert_eq!(extension_of("a.b/c.d/").as_deref(), Some("d"));
    assert_eq!(extension_of("x.y/.").as_deref(), Some("y"));
    assert_eq!(extension_of("name.").as_deref(), Some(""));
    assert_eq!(extension_of(".bashrc"), None);
    assert_eq!(extension_of("..a").as_deref(), Some("a"));
    assert_eq!(extension_of("dir.d/file"), None);
    assert_eq!(extension_of("a/.."), None);
    assert_eq!(extension_of(".."), None);
    assert_eq!(extension_of("/"), None);
    assert_eq!(extension_of(""), None);
    assert_eq!(extension_of("."), None);
}

#[test]
fn extension_of_agrees_with_std() {
    let cases = [
        "a/b.c", "a//b.c//", "./x.y", "x.y/./", "..", "a/..", "/.hidden", "/.hidden.txt",
        "no_ext", "dots...", "a.b.c.", "/", "", ".", "./", "tilde~.bak", "ünï.cödé",
    ];
    for c in cases.iter() {
        let expected = std::path::Path::new(c)
            .extension()
            .map(|e| e.to_str().unwrap().to_string());
        assert_eq!(extension_of(c), expected, "path {:?}", c);
    }
}

#[test]
fn get_file_types_cases() {
    let t = table();
    assert_eq!(t.get_file_types("png".to_string()).unwrap(), vec!["png".to_string()]);
    assert_eq!(t.get_file_types("jpg".to_string()).unwrap(), vec!["jpeg".to_string()]);
    assert_eq!(
        t.get_file_types("md".to_string()).unwrap(),
        vec!["markdown".to_string(), "commonmark".to_string()]
    );
    assert_eq!(t.get_file_types("empty".to_string()).unwrap(), Vec::<String>::new());
    assert_eq!(
        t.get_file_types("bad".to_string()).unwrap_err(),
        FileTypeError::InvalidValueFound { key: "bad".to_string() }
    );
    assert_eq!(
        t.get_file_types("mixed".to_string()).unwrap_err(),
        FileTypeError::InvalidValueFound { key: "mixed".to_string() }
    );
}

#[test]
fn get_correct_extension_cases() {
    let t = table();
    assert_eq!(
        get_correct_extension(false, &t, "jpg".to_string()).unwrap(),
        ExtensionChoice::Chosen("jpeg".to_string())
    );
    assert_eq!(
        get_correct_extension(true, &t, "md".to_string()).unwrap(),
        ExtensionChoice::Chosen("markdown".to_string())
    );
    assert_eq!(
        get_correct_extension(false, &t, "md".to_string()).unwrap(),
        ExtensionChoice::Ask(vec!["markdown".to_string(), "commonmark".to_string()])
    );
    assert_eq!(
        get_correct_extension(true, &t, "empty".to_string()).unwrap(),
        ExtensionChoice::Ask(vec![])
    );
    assert_eq!(
        get_correct_extension(true, &t, "bad".to_string()).unwrap_err(),
        FileTypeError::InvalidValueFound { key: "bad".to_string() }
    );
}

#[test]
fn get_extension_lowercases() {
    let t = table();
    assert_eq!(
        get_extension(true, "shots/Photo.PNG", &t).unwrap(),
        ExtensionChoice::Chosen("png".to_string())
    );
    assert_eq!(
        get_extension(true, "Pic.JPG", &t).unwrap(),
        ExtensionChoice::Chosen("jpeg".to_string())
    );
    assert_eq!(
        get_extension(false, "notes.MD", &t).unwrap(),
        ExtensionChoice::Ask(vec!["markdown".to_string(), "commonmark".to_string()])
    );
}

#[test]
fn get_extension_errors() {
    let t = table();
    assert_eq!(get_extension(true, "README", &t).unwrap_err(), ExtensionError::Unrecognized);
    assert_eq!(
        get_extension(true, "x.BAD", &t).unwrap_err(),
        ExtensionError::InvalidValue(FileTypeError::InvalidValueFound { key: "bad".to_string() })
    );
}

#[test]
fn output_verdict_cases() {
    let now = SystemTime::now();
    match output_verdict("out.pdf", None, false) {
        Err(ConvertRunError::FileNotCreated { program }) => assert_eq!(program, "out.pdf"),
        other => panic!("unexpected {:?}", other),
    }
    assert!(output_verdict("out.pdf", Some(now), false).is_ok());
    match output_verdict("out.pdf", Some(now), true) {
        Err(ConvertRunError::FileNotOverwritten { program, modified_time }) => {
            assert_eq!(program, "out.pdf");
            assert_eq!(modified_time, now);
        }
        other => panic!("unexpected {:?}", other),
    }
}

#[test]
fn check_output_file_cases() {
    let now = SystemTime::now();
    let now_ns: i128 = 1_700_000_000_000_000_000;
    assert!(check_output_file("o", Some((now, now_ns)), now_ns).is_ok());
    assert!(check_output_file("o", Some((now, now_ns - 500_000_000)), now_ns).is_ok());
    assert!(check_output_file("o", Some((now, now_ns - 1_000_000_000)), now_ns).is_ok());
    let old = now - Duration::from_secs(10);
    match check_output_file("o", Some((old, now_ns - 1_000_000_001)), now_ns) {
        Err(ConvertRunError::FileNotOverwritten { program, modified_time }) => {
            assert_eq!(program, "o");
            assert_eq!(modified_time, old);
        }
        other => panic!("unexpected {:?}", other),
    }
    match check_output_file("o", None, now_ns) {
        Err(ConvertRunError::FileNotCreated { program }) => assert_eq!(program, "o"),
        other => panic!("unexpected {:?}", other),
    }
    // Near the lowest representable time, no time lies a second earlier.
    assert!(check_output_file("o", Some((now, i128::MIN)), i128::MIN + 5).is_ok());
}

#[test]
fn run_outcome_cases() {
    assert_eq!(run_outcome(true, true), RunOutcome::Converted);
    assert_eq!(run_outcome(true, false), RunOutcome::OutputRejected);
    assert_eq!(run_outcome(false, true), RunOutcome::ProgramFailed);
    assert_eq!(run_outcome(false, false), RunOutcome::ProgramFailed);
}

#[test]
fn get_extension_lossy_cases() {
    let t = table();
    // Invalid bytes in a directory do not matter.
    assert_eq!(
        get_extension_lossy(true, "d\u{FFFD}r/Photo.PNG", &vec![false, true], &t).unwrap(),
        ExtensionChoice::Chosen("png".to_string())
    );
    // Invalid bytes in the extension make it no extension.
    assert_eq!(
        get_extension_lossy(true, "dir/photo.p\u{FFFD}g", &vec![false; 11].into_iter().chain([true]).collect(), &t)
            .unwrap_err(),
        ExtensionError::Unrecognized
    );
    // A genuine U+FFFD in the extension is kept when the bytes there are valid.
    assert_eq!(
        get_extension_lossy(true, "d\u{FFFD}r/photo.p\u{FFFD}g", &vec![false, true], &t).unwrap(),
        ExtensionChoice::Chosen("p\u{FFFD}g".to_string())
    );
    assert_eq!(
        get_extension_lossy(true, "README", &vec![], &t).unwrap_err(),
        ExtensionError::Unrecognized
    );
}

#[test]
fn extension_span_matches_extension() {
    assert_eq!(extension_span_of("a.b/c.txt/"), Some((6, 9)));
    assert_eq!(extension_span_of("dir/.profile"), None);
    assert_eq!(extension_span_of("x.y/."), Some((2, 3)));
}

#[test]
fn extension_ignores_trailing_separator_and_directories() {
    assert_eq!(extension_of("notes.md/"), extension_of("notes.md"));
    assert_eq!(extension_of("some.dir/notes.md"), extension_of("notes.md"));
    assert_eq!(extension_of("a/b/c/.profile"), extension_of(".profile"));
}

#[test]
fn replace_of_absent_pattern_is_identity() {
    assert_eq!(replace("ffmpeg -i in -o out", "%INFILE%", "x"), "ffmpeg -i in -o out");
}

#[test]
fn resolve_program_passes_path_or_names_program() {
    let c = conv("shell", "sh", &[], &[]);
    let p = std::path::PathBuf::from("/bin/sh");
    assert_eq!(c.resolve_program(Ok(p.clone())).unwrap(), p);
    assert_eq!(
        c.resolve_program(Err(which::Error::CannotFindBinaryPath)).unwrap_err(),
        ConverterError::ConverterNotFound { program_name: "sh".to_string() }
    );
}

#[test]
fn unmarked_converter_changes_nothing() {
    let base = || vec![conv("a", "x", &[], &[]), conv("b", "y", &[], &[])];
    let without = keep_found(base(), vec![true, true]).unwrap();
    let mut with_bad = base();
    with_bad.insert(1, conv("bad", "missing", &[], &[]));
    let with = keep_found(with_bad, vec![true, false, true]).unwrap();
    let names = |v: &Vec<Converter>| v.iter().map(|c| c.name.clone()).collect::<Vec<_>>();
    assert_eq!(names(&without), names(&with));
}

#[test]
fn file_types_from_json_reads_table() {
    let t = FileTypes::from_json(
        r#"{"md": ["markdown", "commonmark"], "jpg": "jpeg", "bad": 3, "mixed": ["a", 1]}"#,
    )
    .unwrap();
    assert_eq!(
        t.get_file_types("md".to_string()).unwrap(),
        vec!["markdown".to_string(), "commonmark".to_string()]
    );
    assert_eq!(t.get_file_types("jpg".to_string()).unwrap(), vec!["jpeg".to_string()]);
    assert_eq!(t.get_file_types("png".to_string()).unwrap(), vec!["png".to_string()]);
    assert_eq!(
        t.get_file_types("bad".to_string()).unwrap_err(),
        FileTypeError::InvalidValueFound { key: "bad".to_string() }
    );
    assert_eq!(
        t.get_file_types("mixed".to_string()).unwrap_err(),
        FileTypeError::InvalidValueFound { key: "mixed".to_string() }
    );
}

#[test]
fn file_types_from_json_rejects_non_objects() {
    assert!(FileTypes::from_json("[1, 2]").is_err());
    assert!(FileTypes::from_json("{not json").is_err());
    assert!(FileTypes::from_json("{}").is_ok());
}
