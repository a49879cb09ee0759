//! The table loader: delimited text in, a rectangular table of cells out.
//!
//! The delimited syntax itself is handled by the `csv` crate behind a trusted
//! wrapper; this module states what that parse returns, rejects tables with
//! no data, and carries the rectangular-shape invariant that everything
//! downstream relies on.

use vstd::prelude::*;

verus! {

/// The `csv` crate's error type, carried through opaquely.
#[verifier::external_type_specification]
#[verifier::external_body]
pub struct ExCsvError(csv::Error);

/// What parsing a byte sequence as delimited text yields: the header record
/// and the data records, or nothing if the reader rejects the bytes.  The
/// result is a function of the bytes alone.
pub uninterp spec fn csv_table_of(b: Seq<u8>) -> Option<(Seq<Seq<char>>, Seq<Seq<Seq<char>>>)>;

/// Relies on `csv::Reader`: with the default configuration it parses
/// comma-separated text, the first record is the header, and every data
/// record must have exactly as many fields as the header, else the reader
/// returns a length error.
#[verifier::external_body]
fn csv_decode(bytes: &[u8]) -> (r: Result<(Vec<String>, Vec<Vec<String>>), csv::Error>)
    ensures
        r matches Ok(t) ==> csv_table_of(bytes@) == Some(
            (t.0.deep_view(), t.1.deep_view()),
        ),
        r is Err ==> csv_table_of(bytes@) is None,
        r matches Ok(t) ==> forall|i: int|
            0 <= i < t.1@.len() ==> (#[trigger] t.1@[i])@.len() == t.0@.len(),
{
    let mut rd = csv::Reader::from_reader(bytes);
    let header: Vec<String> = match rd.headers() {
        Ok(h) => h.iter().map(|f| f.to_string()).collect(),
        Err(e) => return Err(e),
    };
    let mut rows: Vec<Vec<String>> = Vec::new();
    for rec in rd.records() {
        match rec {
            Ok(row) => rows.push(row.iter().map(|f| f.to_string()).collect()),
            Err(e) => return Err(e),
        }
    }
    Ok((header, rows))
}

/// A loaded table: one header record and at least one data record, all of
/// one length.
pub struct Table {
    /// The header record.
    pub header: Vec<String>,
    /// The data records, in input order.
    pub rows: Vec<Vec<String>>,
}

impl Table {
    /// The shape every loaded table has: at least one data row, at least one
    /// column, and every row as long as the header.
    pub open spec fn wf(&self) -> bool {
        &&& self.rows@.len() >= 1
        &&& self.rows@[0]@.len() >= 1
        &&& forall|i: int|
            0 <= i < self.rows@.len() ==> (#[trigger] self.rows@[i])@.len() == self.header@.len()
    }

    /// Number of grid columns: the length of the first data record.
    pub open spec fn ncols_spec(&self) -> int {
        self.rows@[0]@.len() as int
    }

    /// Number of grid rows: the data records plus the header row.
    pub open spec fn nrows_spec(&self) -> int {
        self.rows@.len() as int + 1
    }

    /// The raw text of grid cell `(i, j)`; row `0` is the header row.
    pub open spec fn cell_text_spec(&self, i: int, j: int) -> Seq<char> {
        if i == 0 {
            self.header@[j]@
        } else {
            self.rows@[i - 1]@[j]@
        }
    }

    /// Number of grid columns.
    pub fn ncols(&self) -> (n: usize)
        requires
            self.wf(),
        ensures
            n == self.ncols_spec(),
    {
        self.rows[0].len()
    }

    /// Number of grid rows, the header row counted.
    pub fn nrows(&self) -> (n: usize)
        requires
            self.wf(),
            self.rows@.len() < usize::MAX,
        ensures
            n == self.nrows_spec(),
    {
        self.rows.len() + 1
    }
}

/// Why no table came out of the input bytes.
#[derive(Debug)]
pub enum LoadError {
    /// The delimited text is malformed; the reader's error says how.
    Format(csv::Error),
    /// The table has no data rows, or its records have no fields.
    Empty,
}

/// Parses delimited text into a table, rejecting input without any data:
/// the result is `Ok` exactly when the bytes parse and hold at least one
/// data record with at least one field.
pub fn load_table(bytes: &[u8]) -> (r: Result<Table, LoadError>)
    ensures
        r matches Ok(t) ==> {
            &&& t.wf()
            &&& csv_table_of(bytes@) matches Some(p) && t.header.deep_view() == p.0
                && t.rows.deep_view() == p.1
        },
        r matches Err(e) ==> match e {
            LoadError::Format(_) => csv_table_of(bytes@) is None,
            LoadError::Empty => csv_table_of(bytes@) matches Some(p) && (p.1.len() == 0
                || p.1[0].len() == 0),
        },
        r is Ok <==> (csv_table_of(bytes@) matches Some(p) && p.1.len() >= 1 && p.1[0].len()
            >= 1),
{
    match csv_decode(bytes) {
        Err(e) => Err(LoadError::Format(e)),
        Ok((header, rows)) => {
            if rows.len() == 0 {
                proof {
                    assert(rows.deep_view().len() == 0);
                }
                Err(LoadError::Empty)
            } else if rows[0].len() == 0 {
                proof {
                    assert(rows.deep_view()[0].len() == rows@[0]@.len());
                }
                Err(LoadError::Empty)
            } else {
                proof {
                    assert(rows.deep_view()[0].len() == rows@[0]@.len());
                }
                Ok(Table { header, rows })
            }
        },
    }
}

} // verus!
