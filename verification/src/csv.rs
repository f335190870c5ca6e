//! A small CSV dialect: records separated by newlines, a trailing
//! carriage return dropped from each record, fields separated by
//! commas, no quoting. The first record is the header; every other
//! record must have as many fields as the header.

use vstd::prelude::*;

verus! {

/// The maximal prefix without the separator.
pub open spec fn take_until(s: Seq<char>, sep: char) -> Seq<char>
    decreases s.len(),
{
    if s.len() == 0 {
        Seq::<char>::empty()
    } else if s[0] == sep {
        Seq::<char>::empty()
    } else {
        seq![s[0]] + take_until(s.drop_first(), sep)
    }
}

pub proof fn lemma_take_until_len(s: Seq<char>, sep: char)
    ensures
        take_until(s, sep).len() <= s.len(),
    decreases s.len(),
{
    if s.len() > 0 && s[0] != sep {
        lemma_take_until_len(s.drop_first(), sep);
    }
}

/// The prefix reaches exactly to the first separator.
pub proof fn lemma_take_until_chars(s: Seq<char>, j: int, sep: char)
    requires
        0 <= j <= s.len(),
        forall|k: int| 0 <= k < j ==> (#[trigger] s[k]) != sep,
        j == s.len() || s[j] == sep,
    ensures
        take_until(s, sep) == s.subrange(0, j),
    decreases s.len(),
{
    if j == 0 {
        assert(s.subrange(0, 0) =~= Seq::<char>::empty());
    } else {
        let rest = s.drop_first();
        assert(forall|k: int| 0 <= k < j - 1 ==> (#[trigger] rest[k]) != sep);
        lemma_take_until_chars(rest, j - 1, sep);
        assert(take_until(s, sep) =~= s.subrange(0, j));
    }
}

/// The parts of a sequence split at every separator: one part more
/// than there are separators, empty parts kept.
pub open spec fn split_on(s: Seq<char>, sep: char) -> Seq<Seq<char>>
    decreases s.len(),
    via split_on_decreases
{
    let w = take_until(s, sep);
    if w.len() == s.len() {
        seq![w]
    } else {
        seq![w] + split_on(s.skip(w.len() as int + 1), sep)
    }
}

#[via_fn]
proof fn split_on_decreases(s: Seq<char>, sep: char) {
    lemma_take_until_len(s, sep);
}

/// The parts of a string split at every separator, as owned strings.
pub fn split_on_char(s: &str, sep: char) -> (r: Vec<String>)
    ensures
        r@.map_values(|p: String| p@) == split_on(s@, sep),
{
    let n = s.unicode_len();
    let mut parts: Vec<String> = Vec::new();
    let mut i: usize = 0;
    let mut done = false;
    proof {
        assert(s@.skip(0) =~= s@);
        assert(parts@.map_values(|c: String| c@) =~= Seq::<Seq<char>>::empty());
    }
    while !done
        invariant
            i <= n,
            n == s@.len(),
            !done ==> split_on(s@, sep) == parts@.map_values(|c: String| c@) + split_on(s@.skip(i as int), sep),
            done ==> parts@.map_values(|c: String| c@) == split_on(s@, sep),
        decreases n - i + (if done {
            0int
        } else {
            1int
        }),
    {
        let mut j = i;
        while j < n && s.get_char(j) != sep
            invariant
                i <= j <= n,
                n == s@.len(),
                forall|k: int| i <= k < j ==> (#[trigger] s@[k]) != sep,
            decreases n - j,
        {
            j += 1;
        }
        let part = s.substring_char(i, j).to_owned();
        let ghost t = s@.skip(i as int);
        proof {
            assert(forall|k: int| 0 <= k < j - i ==> (#[trigger] t[k]) == s@[i + k]);
            assert(forall|k: int| 0 <= k < j - i ==> (#[trigger] t[k]) != sep);
            if j < n {
                assert(t[j - i] == s@[j as int]);
            }
            lemma_take_until_chars(t, j - i, sep);
            assert(t.subrange(0, j - i) =~= s@.subrange(i as int, j as int));
        }
        let ghost old_parts = parts@;
        parts.push(part);
        proof {
            assert(parts@.map_values(|c: String| c@) =~= old_parts.map_values(|c: String| c@).push(take_until(t, sep)));
        }
        if j == n {
            done = true;
            proof {
                assert(take_until(t, sep).len() == t.len());
                assert(split_on(t, sep) == seq![take_until(t, sep)]);
                assert(parts@.map_values(|c: String| c@) =~= old_parts.map_values(|c: String| c@) + split_on(t, sep));
            }
        } else {
            proof {
                assert(take_until(t, sep).len() < t.len());
                assert(t.skip(take_until(t, sep).len() as int + 1) =~= s@.skip(j + 1));
                assert(split_on(t, sep) == seq![take_until(t, sep)] + split_on(s@.skip(j + 1), sep));
                assert(parts@.map_values(|c: String| c@) + split_on(s@.skip(j + 1), sep) =~= old_parts.map_values(|c: String| c@) + split_on(t, sep));
            }
            i = j + 1;
        }
    }
    parts
}

/// A record's trailing carriage return, if any, dropped.
pub open spec fn strip_cr(l: Seq<char>) -> Seq<char> {
    if l.len() > 0 && l.last() == '\r' {
        l.drop_last()
    } else {
        l
    }
}

/// The records of an input: split at newlines, a final empty segment
/// (from a trailing newline) dropped, each record's trailing carriage
/// return dropped.
pub open spec fn spec_lines(s: Seq<char>) -> Seq<Seq<char>> {
    let ls = split_on(s, '\n');
    let kept = if ls.len() > 0 && ls.last().len() == 0 {
        ls.drop_last()
    } else {
        ls
    };
    kept.map_values(|l: Seq<char>| strip_cr(l))
}

/// The fields of one record.
pub open spec fn spec_cells(l: Seq<char>) -> Seq<Seq<char>> {
    split_on(l, ',')
}

/// The input parses: at least one record, and every record as wide as
/// the header.
pub open spec fn spec_csv_ok(s: Seq<char>) -> bool {
    let ls = spec_lines(s);
    &&& ls.len() >= 1
    &&& forall|k: int|
        1 <= k < ls.len() ==> spec_cells(#[trigger] ls[k]).len() == spec_cells(ls[0]).len()
}

/// A parse error with a message.
#[derive(Debug)]
pub struct Error {
    message: String,
}

impl View for Error {
    type V = Seq<char>;

    closed spec fn view(&self) -> Seq<char> {
        self.message@
    }
}

impl Error {
    pub fn new(message: &str) -> (r: Self)
        ensures
            r@ == message@,
    {
        Error { message: message.to_owned() }
    }

    /// The message the error carries.
    pub fn message(&self) -> (r: &String)
        ensures
            r@ == self@,
    {
        &self.message
    }
}

/// One record: its fields in order.
#[derive(Debug, PartialEq, Eq)]
pub struct Row {
    pub cells: Vec<String>,
}

impl View for Row {
    type V = Seq<Seq<char>>;

    open spec fn view(&self) -> Seq<Seq<char>> {
        self.cells@.map_values(|c: String| c@)
    }
}

impl Row {
    /// A row over the given fields.
    pub fn from_record(record: Vec<String>) -> (r: Self)
        ensures
            r@ == record@.map_values(|c: String| c@),
    {
        Row { cells: record }
    }
}

/// A parsed table: the header and the data records.
#[derive(Debug, PartialEq, Eq)]
pub struct Csv {
    pub header: Row,
    pub rows: Vec<Row>,
}

/// Mathematical model of `Csv`.
pub ghost struct CsvV {
    pub header: Seq<Seq<char>>,
    pub rows: Seq<Seq<Seq<char>>>,
}

impl View for Csv {
    type V = CsvV;

    open spec fn view(&self) -> CsvV {
        CsvV { header: self.header@, rows: self.rows@.map_values(|r: Row| r@) }
    }
}

impl Csv {
    /// Parses the dialect described above: succeeds exactly when the
    /// input has a header record and every data record matches its
    /// width, and returns header and records field by field.
    pub fn from_str(input: &str) -> (r: Result<Self, Error>)
        ensures
            match r {
                Ok(c) => {
                    &&& spec_csv_ok(input@)
                    &&& c@.header == spec_cells(spec_lines(input@)[0])
                    &&& c@.rows == spec_lines(input@).skip(1).map_values(
                        |l: Seq<char>| spec_cells(l),
                    )
                },
                Err(e) => {
                    &&& !spec_csv_ok(input@)
                    &&& e@ == (if spec_lines(input@).len() == 0 {
                        "the input holds no records"@
                    } else {
                        "a record does not match the header width"@
                    })
                },
            },
    {
            let mut raw: Vec<String> = split_on_char(input, '\n');
        if raw.len() > 0 && raw[raw.len() - 1].as_str().is_empty() {
            let _ = raw.pop();
            proof {
                assert(raw@.map_values(|c: String| c@) =~= split_on(input@, '\n').drop_last());
            }
        }
        // drop each record's trailing carriage return
        let mut clean: Vec<String> = Vec::new();
        let mut k: usize = 0;
        let ghost kept = raw@.map_values(|c: String| c@);
        proof {
            assert(clean@.map_values(|c: String| c@) =~= kept.map_values(|l: Seq<char>| strip_cr(l)).take(0));
        }
        while k < raw.len()
            invariant
                k <= raw@.len(),
                kept == raw@.map_values(|c: String| c@),
                clean@.map_values(|c: String| c@) == kept.map_values(|l: Seq<char>| strip_cr(l)).take(k as int),
            decreases raw@.len() - k,
        {
            let line = &raw[k];
            let m = line.as_str().unicode_len();
            let ghost old_clean = clean@;
            if m > 0 && line.as_str().get_char(m - 1) == '\r' {
                let stripped = line.as_str().substring_char(0, m - 1).to_owned();
                proof {
                    assert(line@.subrange(0, m - 1) =~= line@.drop_last());
                }
                clean.push(stripped);
            } else {
                clean.push(line.clone());
            }
            proof {
                let f = |l: Seq<char>| strip_cr(l);
                assert(clean@.map_values(|c: String| c@) =~= old_clean.map_values(|c: String| c@).push(strip_cr(kept[k as int])));
                assert(kept.map_values(f).take(k + 1) =~= kept.map_values(f).take(k as int).push(
                    strip_cr(kept[k as int]),
                ));
            }
            k += 1;
        }
        proof {
            assert(kept.map_values(|l: Seq<char>| strip_cr(l)).take(raw@.len() as int)
                =~= spec_lines(input@));
        }
        if clean.len() == 0 {
            return Err(Error::new("the input holds no records"));
        }
        let header_cells = split_on_char(clean[0].as_str(), ',');
        let width = header_cells.len();
        proof {
            assert(clean@.map_values(|c: String| c@)[0] == clean@[0]@);
            assert(header_cells@.map_values(|c: String| c@).len() == header_cells@.len());
        }
        let mut rows: Vec<Row> = Vec::new();
        let mut t: usize = 1;
        proof {
            assert(rows@.map_values(|r: Row| r@) =~= spec_lines(input@).skip(1).map_values(
                |l: Seq<char>| spec_cells(l),
            ).take(0));
        }
        while t < clean.len()
            invariant
                1 <= t <= clean@.len(),
                clean@.map_values(|c: String| c@) == spec_lines(input@),
                width == spec_cells(spec_lines(input@)[0]).len(),
                header_cells@.map_values(|c: String| c@) == spec_cells(spec_lines(input@)[0]),
                rows@.map_values(|r: Row| r@) == spec_lines(input@).skip(1).map_values(
                    |l: Seq<char>| spec_cells(l),
                ).take(t - 1),
                forall|k2: int|
                    1 <= k2 < t ==> spec_cells(#[trigger] spec_lines(input@)[k2]).len()
                        == spec_cells(spec_lines(input@)[0]).len(),
            decreases clean@.len() - t,
        {
            let cells = split_on_char(clean[t].as_str(), ',');
            proof {
                assert(clean@.map_values(|c: String| c@)[t as int] == clean@[t as int]@);
                assert(cells@.map_values(|c: String| c@).len() == cells@.len());
            }
            if cells.len() != width {
                proof {
                    assert(!spec_csv_ok(input@)) by {
                        assert(spec_cells(spec_lines(input@)[t as int]).len() != spec_cells(
                            spec_lines(input@)[0],
                        ).len());
                    }
                }
                return Err(Error::new("a record does not match the header width"));
            }
            let ghost old_rows = rows@;
            rows.push(Row { cells });
            proof {
                let f = |l: Seq<char>| spec_cells(l);
                let h = |r: Row| r@;
                assert(rows@.map_values(h) =~= old_rows.map_values(h).push(
                    spec_cells(spec_lines(input@)[t as int]),
                ));
                assert(spec_lines(input@).skip(1).map_values(f).take(t as int)
                    =~= spec_lines(input@).skip(1).map_values(f).take(t - 1).push(
                    spec_cells(spec_lines(input@)[t as int]),
                ));
            }
            t += 1;
        }
        proof {
            assert(spec_lines(input@).skip(1).map_values(|l: Seq<char>| spec_cells(l)).take(
                clean@.len() - 1,
            ) =~= spec_lines(input@).skip(1).map_values(|l: Seq<char>| spec_cells(l)));
        }
        Ok(Csv { header: Row { cells: header_cells }, rows })
    }
}

} // verus!
