use vstd::prelude::*;

verus! {

/// The text of each field of a record.
pub open spec fn fields_view(v: Vec<String>) -> Seq<Seq<char>> {
    v@.map_values(|f: String| f@)
}

/// Records that could not be read are `None`.
pub open spec fn rows_view(rows: Seq<Option<Vec<String>>>) -> Seq<Option<Seq<Seq<char>>>> {
    rows.map_values(
        |r: Option<Vec<String>>|
            match r {
                Some(v) => Some(fields_view(v)),
                None => None,
            },
    )
}

/// A CSV text split into its header record and its data records.
pub struct CsvTable {
    /// `None` where the header record could not be read.
    pub header: Option<Vec<String>>,
    /// One entry per data record, in order; `None` for one that could not be
    /// read.
    pub rows: Vec<Option<Vec<String>>>,
}

impl View for CsvTable {
    type V = (Option<Seq<Seq<char>>>, Seq<Option<Seq<Seq<char>>>>);

    open spec fn view(&self) -> Self::V {
        (
            match self.header {
                Some(h) => Some(fields_view(h)),
                None => None,
            },
            rows_view(self.rows@),
        )
    }
}

/// How the csv crate splits a text into a header record and data records.
pub uninterp spec fn csv_table_of(text: Seq<char>) -> (
    Option<Seq<Seq<char>>>,
    Seq<Option<Seq<Seq<char>>>>,
);

/// Relies on `csv::Reader::from_reader`, `Reader::headers` and
/// `Reader::records` with the default settings (comma separated, first record
/// is the header, quoting handled, empty lines skipped, every record as long
/// as the header): the split is a function of the text alone.
#[verifier::external_body]
pub(crate) fn read_csv(text: &str) -> (r: CsvTable)
    ensures
        r@ == csv_table_of(text@),
{
    let mut reader = csv::Reader::from_reader(text.as_bytes());
    let header = match reader.headers() {
        Ok(h) => Some(h.iter().map(|f| f.to_string()).collect()),
        Err(_) => None,
    };
    let rows = reader.records().map(|r| r.ok().map(|rec| rec.iter().map(|f| f.to_string()).collect())).collect();
    CsvTable { header, rows }
}

/// Position `i` holds `name`, and no other position does.
pub open spec fn only_at(h: Seq<Seq<char>>, name: Seq<char>, i: int) -> bool {
    &&& 0 <= i < h.len()
    &&& h[i] == name
    &&& forall|j: int| 0 <= j < h.len() && h[j] == name ==> j == i
}

/// The position of the column called `name`, where exactly one is.
pub open spec fn column_of(h: Seq<Seq<char>>, name: Seq<char>) -> Option<int> {
    if exists|i: int| only_at(h, name, i) {
        Some(choose|i: int| only_at(h, name, i))
    } else {
        None
    }
}

/// Whether two texts are the same.
pub fn same_text(a: &str, b: &str) -> (r: bool)
    ensures
        r == (a@ == b@),
{
    let n = a.unicode_len();
    if n != b.unicode_len() {
        return false;
    }
    let mut i: usize = 0;
    while i < n
        invariant
            n == a@.len(),
            n == b@.len(),
            i <= n,
            forall|j: int| 0 <= j < i ==> a@[j] == b@[j],
        decreases n - i,
    {
        if a.get_char(i) != b.get_char(i) {
            return false;
        }
        i = i + 1;
    }
    assert(a@ =~= b@);
    true
}

/// The position of the header field `name`, where exactly one field has
/// that name.
pub fn find_column(header: &Vec<String>, name: &str) -> (r: Option<usize>)
    ensures
        match r {
            Some(i) => column_of(fields_view(*header), name@) == Some(i as int),
            None => column_of(fields_view(*header), name@) is None,
        },
{
    let ghost h = fields_view(*header);
    let mut found: Option<usize> = None;
    let mut twice = false;
    let mut i: usize = 0;
    while i < header.len()
        invariant
            h == fields_view(*header),
            h.len() == header@.len(),
            i <= header.len(),
            !twice ==> match found {
                Some(f) => f < i && h[f as int] == name@ && forall|j: int|
                    0 <= j < i && h[j] == name@ ==> j == f,
                None => forall|j: int| 0 <= j < i ==> h[j] != name@,
            },
            twice ==> exists|a: int, b: int|
                0 <= a < b < i && h[a] == name@ && h[b] == name@,
        decreases header.len() - i,
    {
        if same_text(header[i].as_str(), name) {
            if !twice {
                match found {
                    Some(f) => {
                        assert(h[f as int] == name@ && h[i as int] == name@);
                        twice = true;
                    },
                    None => {
                        found = Some(i);
                    },
                }
            }
        }
        i = i + 1;
    }
    if twice {
        proof {
            let (a, b) = choose|a: int, b: int|
                0 <= a < b < h.len() && h[a] == name@ && h[b] == name@;
            if exists|k: int| only_at(h, name@, k) {
                let k = choose|k: int| only_at(h, name@, k);
                assert(a == k && b == k);
            }
        }
        return None;
    }
    match found {
        Some(f) => {
            assert(only_at(h, name@, f as int));
            proof {
                let k = choose|k: int| only_at(h, name@, k);
                assert(k == f);
            }
            Some(f)
        },
        None => {
            proof {
                if exists|k: int| only_at(h, name@, k) {
                    let k = choose|k: int| only_at(h, name@, k);
                    assert(h[k] == name@);
                }
            }
            None
        },
    }
}

} // verus!
