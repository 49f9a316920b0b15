//! The file type of a path: its extension, lowercased, looked up in the
//! file-types table.
use vstd::prelude::*;
use crate::file_types::{FileTypes, FileTypeError, lookup, names_view, types_for};
use crate::text::chars_of;

verus! {

/// The position of the last `c` in `s`, or -1 when `s` holds no `c`.
pub open spec fn last_index_of(s: Seq<char>, c: char) -> int
    decreases s.len(),
{
    if s.len() == 0 {
        -1
    } else if s.last() == c {
        s.len() - 1
    } else {
        last_index_of(s.drop_last(), c)
    }
}

/// What follows the last `/` of `p` (all of `p` when it holds none).
pub open spec fn final_segment(p: Seq<char>) -> Seq<char> {
    p.skip(last_index_of(p, '/') + 1)
}

/// The file name of a Unix path: its last component, where empty components
/// and `.` components do not count.  There is none when no component is left
/// or when the last one is `..`.
pub open spec fn file_name(p: Seq<char>) -> Option<Seq<char>>
    decreases p.len(),
{
    if p.len() == 0 {
        None
    } else if p.last() == '/' {
        file_name(p.drop_last())
    } else if final_segment(p) == seq!['.'] {
        file_name(p.drop_last())
    } else if final_segment(p) == seq!['.', '.'] {
        None
    } else {
        Some(final_segment(p))
    }
}

/// The extension of a file name: what follows its last `.`, provided that
/// some character comes before that `.`.
pub open spec fn name_extension(name: Seq<char>) -> Option<Seq<char>> {
    let d = last_index_of(name, '.');
    if d <= 0 {
        None
    } else {
        Some(name.skip(d + 1))
    }
}

/// The extension of the path `p`, as `Path::extension` documents it: none
/// without a file name, without a `.` in it, or when the file name begins
/// with its only `.`; otherwise what follows the last `.` of the file name.
pub open spec fn path_extension(p: Seq<char>) -> Option<Seq<char>> {
    match file_name(p) {
        Some(n) => name_extension(n),
        None => None,
    }
}

/// Where the file name of `p` ends: `p` up to there, less what follows its
/// last `/`, is the file name (see `file_name`).
pub open spec fn file_name_end(p: Seq<char>) -> Option<int>
    decreases p.len(),
{
    if p.len() == 0 {
        None
    } else if p.last() == '/' {
        file_name_end(p.drop_last())
    } else if final_segment(p) == seq!['.'] {
        file_name_end(p.drop_last())
    } else if final_segment(p) == seq!['.', '.'] {
        None
    } else {
        Some(p.len() as int)
    }
}

/// Where the extension of the path `p` stands in `p`: from the character
/// after the last `.` of the file name to the end of the file name.
pub open spec fn extension_span(p: Seq<char>) -> Option<(int, int)> {
    match file_name_end(p) {
        None => None,
        Some(e) => {
            let s = last_index_of(p.take(e), '/') + 1;
            let d = last_index_of(p.subrange(s, e), '.');
            if d <= 0 {
                None
            } else {
                Some((s + d + 1, e))
            }
        },
    }
}

/// `str::to_lowercase` of a string, as a character sequence.
pub uninterp spec fn lowercase(s: Seq<char>) -> Seq<char>;

/// Calls `str::to_lowercase`, which maps each character to its Unicode
/// lowercase form.  Its result is taken to be `lowercase` of the argument;
/// nothing more is claimed of it.
#[verifier::external_body]
fn to_lowercase(s: &str) -> (r: String)
    ensures
        r@ == lowercase(s@),
{
    s.to_lowercase()
}

/// Every character of `s` is ASCII.
pub open spec fn is_ascii_text(s: Seq<char>) -> bool {
    forall|i: int| 0 <= i < s.len() ==> (#[trigger] s[i] as u32) < 128
}

/// The ASCII lowercase of `c`: `A` to `Z` become `a` to `z`; every other
/// character stays.
pub open spec fn ascii_lower(c: char) -> char {
    if 65 <= c as u32 <= 90 {
        (((c as u32) + 32) as u32) as char
    } else {
        c
    }
}

/// `s` with each character in its ASCII lowercase.
pub open spec fn ascii_lowercase(s: Seq<char>) -> Seq<char> {
    s.map_values(|c: char| ascii_lower(c))
}

/// The lowercase form of an extension: the ASCII lowercase for ASCII text
/// (what `str::to_lowercase` gives there), `lowercase` otherwise.
pub open spec fn folded(s: Seq<char>) -> Seq<char> {
    if is_ascii_text(s) {
        ascii_lowercase(s)
    } else {
        lowercase(s)
    }
}

/// Lowercasing ASCII text keeps its length and changes exactly its capital
/// letters, each into the small letter 32 code points above it.
pub proof fn lemma_ascii_folding(s: Seq<char>)
    requires
        is_ascii_text(s),
    ensures
        folded(s).len() == s.len(),
        forall|i: int|
            0 <= i < s.len() ==> {
                &&& (65 <= s[i] as u32 <= 90) ==> (#[trigger] folded(s)[i]) as u32 == s[i] as u32 + 32
                &&& !(65 <= s[i] as u32 <= 90) ==> folded(s)[i] == s[i]
            },
{
}

/// The lowercase form of `s`: computed here for ASCII text, by
/// `str::to_lowercase` otherwise.
fn fold_case(s: &str) -> (r: String)
    ensures
        r@ == folded(s@),
{
    let v = chars_of(s);
    let mut i: usize = 0;
    while i < v.len()
        invariant
            i <= v@.len(),
            v@ == s@,
            forall|j: int| 0 <= j < i ==> (#[trigger] v@[j] as u32) < 128,
        decreases v@.len() - i,
    {
        if (v[i] as u32) >= 128 {
            return to_lowercase(s);
        }
        i = i + 1;
    }
    let letters = "abcdefghijklmnopqrstuvwxyz";
    proof {
        reveal_strlit("abcdefghijklmnopqrstuvwxyz");
        assert forall|k: int| 0 <= k < 26 implies (#[trigger] letters@[k]) as u32 == 97 + k by {
        }
    }
    let mut out = String::new();
    let mut j: usize = 0;
    while j < v.len()
        invariant
            j <= v@.len(),
            v@ == s@,
            letters@.len() == 26,
            forall|k: int| 0 <= k < 26 ==> (#[trigger] letters@[k]) as u32 == 97 + k,
            out@ == ascii_lowercase(s@.take(j as int)),
        decreases v@.len() - j,
    {
        let code = v[j] as u32;
        proof {
            assert(s@.take(j + 1) =~= s@.take(j as int).push(s@[j as int]));
        }
        if 65 <= code && code <= 90 {
            let k = (code - 65) as usize;
            let piece = letters.substring_char(k, k + 1);
            proof {
                let c = letters@[k as int];
                assert(c as u32 == code + 32);
                vstd::utf8::char_u32_cast(c, ((code as int) + 32) as u32);
                assert(piece@ =~= seq![ascii_lower(s@[j as int])]);
            }
            out.append(piece);
        } else {
            let piece = s.substring_char(j, j + 1);
            proof {
                assert(piece@ =~= seq![ascii_lower(s@[j as int])]);
            }
            out.append(piece);
        }
        proof {
            assert(ascii_lowercase(s@.take(j + 1)) =~= ascii_lowercase(s@.take(j as int)).push(
                ascii_lower(s@[j as int]),
            ));
        }
        j = j + 1;
    }
    assert(s@.take(v@.len() as int) =~= s@);
    out
}

/// How a path's file type was settled: a single type, or a list of candidate
/// types among which the user has to choose.
#[derive(Debug, Clone, PartialEq)]
pub enum ExtensionChoice {
    Chosen(String),
    Ask(Vec<String>),
}

/// Why a path's file type could not be settled.
#[derive(Debug, Clone, PartialEq)]
pub enum ExtensionError {
    /// The path has no extension.
    Unrecognized,
    /// The table entry for the extension is invalid.
    InvalidValue(FileTypeError),
}

/// `c` is the choice for the candidate types `ts`: the only candidate, or the
/// first one when the default is wanted; otherwise all of them, to ask.
pub open spec fn is_choice(c: ExtensionChoice, ts: Seq<Seq<char>>, use_default: bool) -> bool {
    if ts.len() == 1 || (use_default && ts.len() > 0) {
        c matches ExtensionChoice::Chosen(t) && t@ == ts[0]
    } else {
        c matches ExtensionChoice::Ask(v) && names_view(v@) == ts
    }
}

/// What a choice is, for any number of candidates: with the default wanted,
/// the first candidate whenever there is one; with a single candidate, that
/// one; otherwise every candidate, in order, to ask.
pub proof fn lemma_choice_rules(c: ExtensionChoice, ts: Seq<Seq<char>>, use_default: bool)
    requires
        is_choice(c, ts, use_default),
    ensures
        (use_default && ts.len() >= 1) ==> (c matches ExtensionChoice::Chosen(t) && t@ == ts[0]),
        ts.len() == 1 ==> (c matches ExtensionChoice::Chosen(t) && t@ == ts[0]),
        (!use_default && ts.len() != 1) ==> (c matches ExtensionChoice::Ask(v) && v@.len()
            == ts.len() && forall|i: int| 0 <= i < ts.len() ==> (#[trigger] v@[i])@ == ts[i]),
        (use_default && ts.len() == 0) ==> (c matches ExtensionChoice::Ask(v) && v@.len() == 0),
{
    if let ExtensionChoice::Ask(v) = c {
        if !(ts.len() == 1 || (use_default && ts.len() > 0)) {
            assert forall|i: int| 0 <= i < ts.len() implies (#[trigger] v@[i])@ == ts[i] by {
                assert(names_view(v@)[i] == v@[i]@);
            }
        }
    }
}

proof fn lemma_last_index_after(s: Seq<char>, n: Seq<char>, c: char)
    requires
        !n.contains(c),
    ensures
        last_index_of(s + n, c) == last_index_of(s, c),
    decreases n.len(),
{
    if n.len() > 0 {
        assert((s + n).drop_last() =~= s + n.drop_last());
        assert((s + n).last() == n.last());
        assert(n[n.len() - 1] == n.last());
        if n.drop_last().contains(c) {
            let i = choose|i: int| 0 <= i < n.drop_last().len() && n.drop_last()[i] == c;
            assert(n[i] == c);
        }
        lemma_last_index_after(s, n.drop_last(), c);
    }
}

/// Separators at the end of a path do not change its extension.
pub proof fn lemma_trailing_separator_ignored(p: Seq<char>)
    ensures
        path_extension(p.push('/')) == path_extension(p),
{
    assert(p.push('/').drop_last() =~= p);
}

/// The extension of a path is that of its file name: the directories before
/// it do not matter.
pub proof fn lemma_extension_of_file_name(dir: Seq<char>, name: Seq<char>)
    requires
        name.len() > 0,
        !name.contains('/'),
        name != seq!['.'],
        name != seq!['.', '.'],
    ensures
        path_extension(dir + seq!['/'] + name) == path_extension(name),
{
    let p = dir + seq!['/'] + name;
    lemma_last_index_after(dir + seq!['/'], name, '/');
    lemma_last_index_after(Seq::<char>::empty(), name, '/');
    assert(Seq::<char>::empty() + name =~= name);
    assert((dir + seq!['/']).last() == '/');
    assert(p.skip(dir.len() + 1int) =~= name);
    assert(name.skip(0) =~= name);
    assert(p.last() == name.last());
    assert(name[name.len() - 1] == name.last());
}

/// The position of the last `c` in `v[from..end]`, counted from `from`.
fn last_index_in(v: &Vec<char>, from: usize, end: usize, c: char) -> (r: Option<usize>)
    requires
        from <= end <= v@.len(),
    ensures
        match r {
            Some(k) => last_index_of(v@.subrange(from as int, end as int), c) == k as int,
            None => last_index_of(v@.subrange(from as int, end as int), c) == -1,
        },
{
    let mut j: usize = end;
    while j > from
        invariant
            from <= j <= end <= v@.len(),
            last_index_of(v@.subrange(from as int, end as int), c) == last_index_of(
                v@.subrange(from as int, j as int),
                c,
            ),
        decreases j,
    {
        let ghost sub = v@.subrange(from as int, j as int);
        assert(sub.drop_last() =~= v@.subrange(from as int, j - 1));
        if v[j - 1] == c {
            return Some(j - 1 - from);
        }
        j = j - 1;
    }
    None
}

proof fn lemma_last_index_bounds(s: Seq<char>, c: char)
    ensures
        -1 <= last_index_of(s, c) < s.len(),
        last_index_of(s, c) >= 0 ==> s[last_index_of(s, c)] == c,
    decreases s.len(),
{
    if s.len() > 0 && s.last() != c {
        lemma_last_index_bounds(s.drop_last(), c);
    }
}

/// Where the extension of the Unix path `path` stands in it, if it has one.
pub fn extension_span_of(path: &str) -> (span: Option<(usize, usize)>)
    ensures
        match span {
            Some((a, b)) => extension_span(path@) == Some((a as int, b as int)) && a <= b
                <= path@.len() && path_extension(path@) == Some(path@.subrange(a as int, b as int)),
            None => extension_span(path@) is None && path_extension(path@) is None,
        },
{
    let v = chars_of(path);
    let mut end: usize = v.len();
    assert(v@.take(end as int) =~= path@);
    loop
        invariant
            v@ == path@,
            end <= v@.len(),
            file_name(path@) == file_name(v@.take(end as int)),
            file_name_end(path@) == file_name_end(v@.take(end as int)),
        decreases end,
    {
        let ghost p = v@.take(end as int);
        if end == 0 {
            return None;
        }
        assert(p.drop_last() =~= v@.take(end - 1));
        if v[end - 1] == '/' {
            end = end - 1;
        } else {
            proof {
                assert(v@.subrange(0, end as int) =~= p);
                lemma_last_index_bounds(p, '/');
            }
            let start: usize = match last_index_in(&v, 0, end, '/') {
                Some(k) => k + 1,
                None => 0,
            };
            proof {
                assert(final_segment(p) =~= v@.subrange(start as int, end as int));
            }
            if end - start == 1 && v[start] == '.' {
                assert(final_segment(p) =~= seq!['.']);
                end = end - 1;
            } else if end - start == 2 && v[start] == '.' && v[start + 1] == '.' {
                assert(final_segment(p) =~= seq!['.', '.']);
                return None;
            } else {
                proof {
                    if final_segment(p) == seq!['.'] {
                        assert(final_segment(p)[0] == v@[start as int]);
                    }
                    if final_segment(p) == seq!['.', '.'] {
                        assert(final_segment(p)[0] == v@[start as int]);
                        assert(final_segment(p)[1] == v@[start + 1]);
                    }
                }
                let ghost name = v@.subrange(start as int, end as int);
                match last_index_in(&v, start, end, '.') {
                    Some(d) => {
                        if d == 0 {
                            assert(path@.take(end as int) =~= p);
                            assert(path@.subrange(start as int, end as int) =~= name);
                            return None;
                        }
                        proof {
                            lemma_last_index_bounds(name, '.');
                            assert(name.skip(d + 1) =~= path@.subrange(start + d + 1, end as int));
                            assert(path@.take(end as int) =~= p);
                            assert(path@.subrange(start as int, end as int) =~= name);
                        }
                        return Some((start + d + 1, end));
                    },
                    None => {
                        assert(path@.take(end as int) =~= p);
                        assert(path@.subrange(start as int, end as int) =~= name);
                        return None;
                    },
                }
            }
        }
    }
}

/// The extension of the Unix path `path`, if it has one.
pub fn extension_of(path: &str) -> (ext: Option<String>)
    ensures
        match ext {
            Some(e) => path_extension(path@) == Some(e@),
            None => path_extension(path@) is None,
        },
{
    match extension_span_of(path) {
        Some((a, b)) => Some(path.substring_char(a, b).to_owned()),
        None => None,
    }
}

/// Settles the file type of the extension `ext` from its candidate types in
/// the table: the only candidate, or the first one when `use_default_format`
/// is set; otherwise the candidates are handed back so that the user can
/// choose.
pub fn get_correct_extension(use_default_format: bool, file_types: &FileTypes, ext: String) -> (r:
    Result<ExtensionChoice, FileTypeError>)
    ensures
        match types_for(lookup(file_types.entries(), ext@), ext@) {
            None => r matches Err(FileTypeError::InvalidValueFound { key }) && key@ == ext@,
            Some(ts) => r matches Ok(c) && is_choice(c, ts, use_default_format),
        },
        forall|ts: Seq<Seq<char>>|
            #![trigger types_for(lookup(file_types.entries(), ext@), ext@), ts.len()]
            types_for(lookup(file_types.entries(), ext@), ext@) == Some(ts) ==> {
                &&& (use_default_format && ts.len() >= 1) ==> (r matches Ok(
                    ExtensionChoice::Chosen(t),
                ) && t@ == ts[0])
                &&& ts.len() == 1 ==> (r matches Ok(ExtensionChoice::Chosen(t)) && t@ == ts[0])
                &&& (!use_default_format && ts.len() != 1) ==> (r matches Ok(
                    ExtensionChoice::Ask(v),
                ) && v@.len() == ts.len() && forall|i: int|
                    0 <= i < ts.len() ==> (#[trigger] v@[i])@ == ts[i])
                &&& (use_default_format && ts.len() == 0) ==> (r matches Ok(
                    ExtensionChoice::Ask(v),
                ) && v@.len() == 0)
            },
{
    let types = match file_types.get_file_types(ext) {
        Ok(t) => t,
        Err(e) => {
            return Err(e);
        },
    };
    let choice = if types.len() == 1 || (use_default_format && types.len() > 0) {
        let first = types[0].clone();
        ExtensionChoice::Chosen(first)
    } else {
        ExtensionChoice::Ask(types)
    };
    proof {
        let ts = types_for(lookup(file_types.entries(), ext@), ext@).unwrap();
        lemma_choice_rules(choice, ts, use_default_format);
    }
    Ok(choice)
}

/// `r` settles the file type of the path `target` as `get_extension` does.
pub open spec fn settles(
    r: Result<ExtensionChoice, ExtensionError>,
    target: Seq<char>,
    file_types: FileTypes,
    use_default: bool,
) -> bool {
    match path_extension(target) {
        None => r matches Err(ExtensionError::Unrecognized),
        Some(e) => match types_for(lookup(file_types.entries(), folded(e)), folded(e)) {
            None => r matches Err(
                ExtensionError::InvalidValue(FileTypeError::InvalidValueFound { key }),
            ) && key@ == folded(e),
            Some(ts) => r matches Ok(c) && is_choice(c, ts, use_default),
        },
    }
}

/// Settles the file type of the path `target`: its extension, lowercased, and
/// looked up in the file-types table as `get_correct_extension` does.
pub fn get_extension(use_default_format: bool, target: &str, file_types: &FileTypes) -> (r: Result<
    ExtensionChoice,
    ExtensionError,
>)
    ensures
        settles(r, target@, *file_types, use_default_format),
{
    match extension_of(target) {
        None => Err(ExtensionError::Unrecognized),
        Some(e) => {
            let ext = fold_case(e.as_str());
            match get_correct_extension(use_default_format, file_types, ext) {
                Ok(c) => Ok(c),
                Err(err) => Err(ExtensionError::InvalidValue(err)),
            }
        },
    }
}

/// Some position from `a` up to `b` is marked in `replaced`.
pub open spec fn marked_within(replaced: Seq<bool>, a: int, b: int) -> bool {
    exists|i: int| a <= i < b && i < replaced.len() && #[trigger] replaced[i]
}

/// Settles the file type of a path that was not UTF-8, read lossily into
/// `target`: each invalid byte sequence became one U+FFFD, and `replaced[i]`
/// marks the characters of `target` that stand for such bytes (a position
/// past the end of `replaced` is unmarked).  An extension that holds a marked
/// character is made of bytes that are not UTF-8 and counts as none;
/// otherwise the path settles as `get_extension` settles `target`.
pub fn get_extension_lossy(
    use_default_format: bool,
    target: &str,
    replaced: &Vec<bool>,
    file_types: &FileTypes,
) -> (r: Result<ExtensionChoice, ExtensionError>)
    ensures
        match extension_span(target@) {
            Some((a, b)) => if marked_within(replaced@, a, b) {
                r matches Err(ExtensionError::Unrecognized)
            } else {
                settles(r, target@, *file_types, use_default_format)
            },
            None => settles(r, target@, *file_types, use_default_format),
        },
{
    if let Some((a, b)) = extension_span_of(target) {
        let mut i: usize = a;
        while i < b
            invariant
                a <= i <= b,
                extension_span(target@) == Some((a as int, b as int)),
                forall|j: int| a <= j < i && j < replaced@.len() ==> !replaced@[j],
            decreases b - i,
        {
            if i < replaced.len() && replaced[i] {
                return Err(ExtensionError::Unrecognized);
            }
            i = i + 1;
        }
    }
    get_extension(use_default_format, target, file_types)
}

} // verus!
