//! The table that maps a file extension to the file type(s) it may stand for.
use vstd::prelude::*;
use serde_json::Value;

verus! {

/// Declares `serde_json::Error`, the error of a JSON parse, carried opaquely.
#[verifier::external_type_specification]
#[verifier::external_body]
pub struct ExJsonError(serde_json::Error);

/// What the file-types table holds for one extension, as read from its JSON
/// form: a single type name, an array whose elements are type names (`Some`)
/// or other JSON values (`None`), or any other JSON value.
#[derive(Debug, Clone, PartialEq)]
pub enum FileTypeValue {
    Text(String),
    List(Vec<Option<String>>),
    Other,
}

/// The table entry for an extension holds a value that is not a type name or
/// an array of type names.
#[derive(Debug, Clone, PartialEq)]
pub enum FileTypeError {
    InvalidValueFound { key: String },
}

/// The file-types table: pairs of an extension and its value, where a later
/// pair for the same extension overrides an earlier one (as a JSON object
/// read into a map does).
pub struct FileTypes {
    data: Vec<(String, FileTypeValue)>,
}

/// The value that `entries` give for `key`: that of the last pair for it.
pub open spec fn lookup(entries: Seq<(String, FileTypeValue)>, key: Seq<char>) -> Option<FileTypeValue>
    decreases entries.len(),
{
    if entries.len() == 0 {
        None
    } else if entries.last().0@ == key {
        Some(entries.last().1)
    } else {
        lookup(entries.drop_last(), key)
    }
}

/// Every element of the array is a type name.
pub open spec fn all_names(items: Seq<Option<String>>) -> bool {
    forall|i: int| 0 <= i < items.len() ==> (#[trigger] items[i]) is Some
}

/// The type names that an entry stands for; `None` when the entry is invalid.
/// An extension without an entry stands for itself.
pub open spec fn types_for(value: Option<FileTypeValue>, ext: Seq<char>) -> Option<Seq<Seq<char>>> {
    match value {
        None => Some(seq![ext]),
        Some(FileTypeValue::Text(t)) => Some(seq![t@]),
        Some(FileTypeValue::List(items)) => if all_names(items@) {
            Some(items@.map_values(|x: Option<String>| x.unwrap()@))
        } else {
            None
        },
        Some(FileTypeValue::Other) => None,
    }
}

/// The pairs that `serde_json` reads from the JSON object `text`, each value
/// turned into a `FileTypeValue`; `None` where `text` is not a JSON object.
pub uninterp spec fn json_table(text: Seq<char>) -> Option<Seq<(String, FileTypeValue)>>;

/// Calls `serde_json::from_str` for a `serde_json::Map<String, Value>` and
/// turns each value into a `FileTypeValue`: a string into `Text`, an array
/// into `List` (its strings as `Some`, its other elements as `None`), any
/// other value into `Other`.  Its result is taken to be `json_table` of the
/// text; nothing more is claimed of it.
#[verifier::external_body]
fn parse_json_table(text: &str) -> (r: Result<Vec<(String, FileTypeValue)>, serde_json::Error>)
    ensures
        r is Err <==> json_table(text@) is None,
        r matches Ok(v) ==> json_table(text@) == Some(v@),
{
    let map = serde_json::from_str::<serde_json::Map<String, Value>>(text)?;
    Ok(map.into_iter().map(|(k, v)| (k, match v {
        Value::String(s) => FileTypeValue::Text(s),
        Value::Array(a) => FileTypeValue::List(a.into_iter().map(|x| match x {
            Value::String(s) => Some(s),
            _ => None,
        }).collect()),
        _ => FileTypeValue::Other,
    })).collect())
}

/// The view of a list of strings as a sequence of character sequences.
pub open spec fn names_view(v: Seq<String>) -> Seq<Seq<char>> {
    v.map_values(|s: String| s@)
}

impl FileTypes {
    /// The pairs of the table, in order.
    pub closed spec fn entries(&self) -> Seq<(String, FileTypeValue)> {
        self.data@
    }

    /// The table made of `entries`; for an extension listed more than once,
    /// the last pair counts.
    pub fn new(entries: Vec<(String, FileTypeValue)>) -> (t: FileTypes)
        ensures
            t.entries() == entries@,
    {
        FileTypes { data: entries }
    }

    /// The table written as the JSON object `text`, or the parse error when
    /// `text` is not a JSON object.
    pub fn from_json(text: &str) -> (r: Result<FileTypes, serde_json::Error>)
        ensures
            match json_table(text@) {
                Some(es) => r matches Ok(t) && t.entries() == es,
                None => r is Err,
            },
    {
        match parse_json_table(text) {
            Ok(entries) => Ok(FileTypes::new(entries)),
            Err(e) => Err(e),
        }
    }

    /// The value of the table for `ext`.
    fn get(&self, ext: &String) -> (v: Option<&FileTypeValue>)
        ensures
            match v {
                Some(x) => lookup(self.entries(), ext@) == Some(*x),
                None => lookup(self.entries(), ext@) is None,
            },
    {
        let mut i: usize = self.data.len();
        assert(self.data@.take(i as int) =~= self.data@);
        while i > 0
            invariant
                i <= self.data@.len(),
                lookup(self.data@, ext@) == lookup(self.data@.take(i as int), ext@),
            decreases i,
        {
            let ghost prefix = self.data@.take(i as int);
            assert(prefix.drop_last() =~= self.data@.take(i - 1));
            if self.data[i - 1].0 == *ext {
                return Some(&self.data[i - 1].1);
            }
            i = i - 1;
        }
        None
    }

    /// The file types that the extension `ext` may stand for: the types that
    /// the table lists for it, or `ext` itself when the table has no entry
    /// for it.  An entry that is neither a type name nor an array of type
    /// names is an error.
    pub fn get_file_types(&self, ext: String) -> (r: Result<Vec<String>, FileTypeError>)
        ensures
            match types_for(lookup(self.entries(), ext@), ext@) {
                Some(ts) => r matches Ok(v) && names_view(v@) == ts,
                None => r matches Err(FileTypeError::InvalidValueFound { key }) && key@ == ext@,
            },
    {
        let value = self.get(&ext);
        match value {
            None => {
                let mut v: Vec<String> = Vec::new();
                v.push(ext);
                proof {
                    assert(names_view(v@) =~= seq![v@[0]@]);
                }
                Ok(v)
            },
            Some(FileTypeValue::Text(t)) => {
                let mut v: Vec<String> = Vec::new();
                v.push(t.clone());
                proof {
                    assert(names_view(v@) =~= seq![t@]);
                }
                Ok(v)
            },
            Some(FileTypeValue::List(items)) => {
                let mut v: Vec<String> = Vec::new();
                let mut i: usize = 0;
                while i < items.len()
                    invariant
                        i <= items@.len(),
                        v@.len() == i,
                        lookup(self.entries(), ext@) == Some(FileTypeValue::List(*items)),
                        forall|j: int| 0 <= j < i ==> (#[trigger] items@[j]) is Some,
                        forall|j: int| 0 <= j < i ==> (#[trigger] v@[j])@ == items@[j].unwrap()@,
                    decreases items@.len() - i,
                {
                    match &items[i] {
                        Some(name) => v.push(name.clone()),
                        None => {
                            assert(!all_names(items@));
                            return Err(FileTypeError::InvalidValueFound { key: ext });
                        },
                    }
                    i = i + 1;
                }
                proof {
                    assert(names_view(v@) =~= items@.map_values(|x: Option<String>| x.unwrap()@));
                }
                Ok(v)
            },
            Some(FileTypeValue::Other) => Err(FileTypeError::InvalidValueFound { key: ext }),
        }
    }
}

} // verus!
