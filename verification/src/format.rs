//! Table and file-format tags used by the external-table front ends: the
//! table-format marker and the mapping from a file extension to the listing
//! format it names.

use vstd::prelude::*;

verus! {

/// A file extension as given by the user, matched case-insensitively.
pub struct FileExtension(pub String);

/// Storage format of an external table.
#[derive(Clone, Copy, Debug, PartialEq, Eq, Structural)]
pub enum TableFormat {
    NoFormat,
    Delta,
}

/// File format a listing can be built over.
#[derive(Clone, Copy, Debug, PartialEq, Eq, Structural)]
pub enum ListingFormat {
    Avro,
    Csv,
    Json,
    Parquet,
}

/// An extension that names no supported listing format.
#[derive(Debug)]
pub enum FormatError {
    InvalidFileFormat(String),
}

/// Character `b` is character `a` after ASCII lowercasing.
pub open spec fn char_folds_to(a: char, b: char) -> bool {
    if 'A' <= a && a <= 'Z' {
        b as u32 == a as u32 + 32
    } else {
        b == a
    }
}

/// String `t` is string `s` after ASCII lowercasing, character by
/// character.
pub open spec fn folds_to(s: Seq<char>, t: Seq<char>) -> bool {
    s.len() == t.len() && forall|i: int| 0 <= i < s.len() ==> char_folds_to(s[i], #[trigger] t[i])
}

/// Whether `s` ASCII-lowercases to `name`.
fn matches_folded(s: &str, name: &str) -> (r: bool)
    ensures
        r == folds_to(s@, name@),
{
    let n = s.unicode_len();
    if n != name.unicode_len() {
        return false;
    }
    let mut i: usize = 0;
    while i < n
        invariant
            n == s@.len(),
            n == name@.len(),
            i <= n,
            forall|j: int| 0 <= j < i ==> char_folds_to(s@[j], #[trigger] name@[j]),
        decreases n - i,
    {
        let a = s.get_char(i);
        let b = name.get_char(i);
        let folded_ok = if 'A' <= a && a <= 'Z' {
            b as u32 == a as u32 + 32
        } else {
            b == a
        };
        if !folded_ok {
            return false;
        }
        i = i + 1;
    }
    true
}

impl TableFormat {
    /// The format's name: empty for `NoFormat`, `"delta"` for `Delta`.
    pub fn as_str(&self) -> (s: &str)
        ensures
            self is Delta ==> s@ == "delta"@,
            self is NoFormat ==> s@ == ""@,
    {
        match self {
            TableFormat::NoFormat => "",
            TableFormat::Delta => "delta",
        }
    }

    /// The format a name stands for; unknown names mean `NoFormat`.
    pub fn from(format: &str) -> (t: Self)
        ensures
            t is Delta <==> format@ == "delta"@,
    {
        let delta: String = "delta".to_owned();
        let given: String = format.to_owned();
        if given == delta {
            TableFormat::Delta
        } else {
            TableFormat::NoFormat
        }
    }

    /// Every table format, in declaration order.
    pub fn iter() -> (r: Vec<TableFormat>)
        ensures
            r@.len() == 2,
            r@[0] is NoFormat,
            r@[1] is Delta,
    {
        let mut r: Vec<TableFormat> = Vec::new();
        r.push(TableFormat::NoFormat);
        r.push(TableFormat::Delta);
        r
    }
}

impl FileExtension {
    /// The listing format this extension names, matched without regard to
    /// ASCII case; an unknown extension is reported (as given) in the
    /// error.
    pub fn listing_format(&self) -> (r: Result<ListingFormat, FormatError>)
        ensures
            folds_to(self.0@, "avro"@) ==> r == Ok::<ListingFormat, FormatError>(
                ListingFormat::Avro,
            ),
            folds_to(self.0@, "csv"@) ==> r == Ok::<ListingFormat, FormatError>(ListingFormat::Csv),
            folds_to(self.0@, "json"@) ==> r == Ok::<ListingFormat, FormatError>(
                ListingFormat::Json,
            ),
            folds_to(self.0@, "parquet"@) ==> r == Ok::<ListingFormat, FormatError>(
                ListingFormat::Parquet,
            ),
            !folds_to(self.0@, "avro"@) && !folds_to(self.0@, "csv"@) && !folds_to(self.0@, "json"@)
                && !folds_to(self.0@, "parquet"@) ==> (r matches Err(
                FormatError::InvalidFileFormat(s),
            ) && s@ == self.0@),
    {
        proof {
            reveal_strlit("avro");
            reveal_strlit("csv");
            reveal_strlit("json");
            reveal_strlit("parquet");
        }
        let ext = self.0.as_str();
        if matches_folded(ext, "avro") {
            proof {
                if folds_to(self.0@, "json"@) {
                    assert(char_folds_to(self.0@[0], "avro"@[0]));
                    assert(char_folds_to(self.0@[0], "json"@[0]));
                }
            }
            Ok(ListingFormat::Avro)
        } else if matches_folded(ext, "csv") {
            Ok(ListingFormat::Csv)
        } else if matches_folded(ext, "json") {
            Ok(ListingFormat::Json)
        } else if matches_folded(ext, "parquet") {
            Ok(ListingFormat::Parquet)
        } else {
            Err(FormatError::InvalidFileFormat(self.0.clone()))
        }
    }
}

} // verus!
