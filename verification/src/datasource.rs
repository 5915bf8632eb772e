use vstd::prelude::*;

use crate::exec::ExecutionError;
use crate::rel::{DataType, FieldV, Row, Schema, Value};
use crate::relation::{items_view, Item};

verus! {

#[verifier::external_type_specification]
#[verifier::external_body]
pub struct ExCsvError(csv::Error);

/// The records that the `csv` crate reads from `data` with its default settings (a
/// header row, which it does not return, then comma-separated records): each `Some` is
/// a record's fields, each `None` a record that it could not read.
pub uninterp spec fn csv_records(data: Seq<u8>) -> Seq<Option<Seq<Seq<char>>>>;

/// The models of the records that the `csv` crate yields: a record's fields as texts, or
/// `None` for an error.
pub open spec fn records_view(records: Seq<Result<Vec<String>, csv::Error>>) -> Seq<Option<Seq<Seq<char>>>> {
    Seq::new(records.len(), |i: int| match records[i] {
        Ok(fields) => Some(texts(fields@)),
        Err(_) => None,
    })
}

/// The fields of a record, as texts.
pub open spec fn texts(fields: Seq<String>) -> Seq<Seq<char>> {
    Seq::new(fields.len(), |i: int| fields[i]@)
}

/// Calls `csv::Reader::from_reader` on `data` and collects what `into_records` yields,
/// each record as its fields. The records are those that [`csv_records`] names; the
/// grammar of CSV that decides them is the `csv` crate's and is left unsaid.
#[verifier::external_body]
fn read_csv_records(data: &[u8]) -> (r: Vec<Result<Vec<String>, csv::Error>>)
    ensures
        records_view(r@) == csv_records(data@),
{
    let reader = csv::Reader::from_reader(data);
    reader.into_records().map(|r| r.map(|rec| rec.iter().map(|f| f.to_string()).collect())).collect()
}


/// Whether a character is an ASCII digit.
pub open spec fn is_digit(c: char) -> bool {
    '0' <= c <= '9'
}

/// The number that a text of decimal digits denotes.
pub open spec fn decimal_value(digits: Seq<char>) -> nat
    decreases digits.len(),
{
    if digits.len() == 0 {
        0
    } else {
        decimal_value(digits.drop_last()) * 10 + (digits.last() as nat - '0' as nat) as nat
    }
}

/// A text without its leading `+`, if it has one.
pub open spec fn unsigned_digits(s: Seq<char>) -> Seq<char> {
    if s.len() > 0 && s[0] == '+' {
        s.drop_first()
    } else {
        s
    }
}

/// The `u64` that `str::parse::<u64>` reads from a text: an optional `+`, then one or more
/// ASCII digits whose value fits in 64 bits.
pub open spec fn parse_u64_spec(s: Seq<char>) -> Option<u64> {
    let digits = unsigned_digits(s);
    if digits.len() > 0 && (forall|i: int| 0 <= i < digits.len() ==> is_digit(#[trigger] digits[i]))
        && decimal_value(digits) <= u64::MAX {
        Some(decimal_value(digits) as u64)
    } else {
        None
    }
}

/// Reads an unsigned number from a text, as `str::parse::<u64>` does.
pub fn parse_u64(s: &str) -> (r: Option<u64>)
    ensures
        r == parse_u64_spec(s@),
{
    let chars = crate::rel::chars_of(s);
    let mut start: usize = 0;
    if chars.len() > 0 && chars[0] == '+' {
        start = 1;
    }
    let ghost digits = unsigned_digits(s@);
    assert(digits == chars@.skip(start as int));
    if start >= chars.len() {
        return None;
    }
    let mut value: u64 = 0;
    let mut i: usize = start;
    while i < chars.len()
        invariant
            start <= i <= chars.len(),
            start < chars.len(),
            chars@ == s@,
            digits == unsigned_digits(s@),
            digits == chars@.skip(start as int),
            forall|k: int| 0 <= k < i - start ==> is_digit(#[trigger] digits[k]),
            value as nat == decimal_value(digits.take(i - start)),
        decreases chars.len() - i,
    {
        let c = chars[i];
        proof {
            assert(digits.take(i - start + 1).drop_last() == digits.take(i - start));
            assert(digits.take(i - start + 1).last() == c);
        }
        if !('0' <= c && c <= '9') {
            proof {
                assert(!is_digit(digits[i - start]));
                assert(!(forall|k: int| 0 <= k < digits.len() ==> is_digit(#[trigger] digits[k])));
            }
            return None;
        }
        let d = (c as u32 - '0' as u32) as u64;
        assert(d as nat == (digits.take(i - start + 1).last() as nat - '0' as nat) as nat);
        if value > (u64::MAX - d) / 10 {
            proof {
                assert(value * 10 + d > u64::MAX) by (nonlinear_arith)
                    requires
                        value > (u64::MAX - d) / 10,
                        d <= 9,
                ;
                assert(decimal_value(digits.take(i - start + 1)) == value * 10 + d);
                let all_digits = forall|k: int| 0 <= k < digits.len() ==> is_digit(#[trigger] digits[k]);
                if all_digits {
                    lemma_decimal_prefix_grows(digits, i - start + 1);
                    assert(decimal_value(digits) > u64::MAX);
                }
            }
            return None;
        }
        assert(value * 10 + d <= u64::MAX) by (nonlinear_arith)
            requires
                value <= (u64::MAX - d) / 10,
                d <= 9,
        ;
        value = value * 10 + d;
        i = i + 1;
    }
    proof {
        assert(digits.take(i - start) == digits);
    }
    Some(value)
}

pub(crate) proof fn lemma_decimal_prefix_grows(digits: Seq<char>, n: int)
    requires
        0 <= n <= digits.len(),
        forall|k: int| 0 <= k < digits.len() ==> is_digit(#[trigger] digits[k]),
    ensures
        decimal_value(digits.take(n)) <= decimal_value(digits),
    decreases digits.len() - n,
{
    if n < digits.len() {
        assert(digits.take(n + 1).drop_last() == digits.take(n));
        assert(is_digit(digits[n]));
        lemma_decimal_prefix_grows(digits, n + 1);
    } else {
        assert(digits.take(n) == digits);
    }
}


/// Whether the text of a field can be read as a value of type `t`.
pub open spec fn field_fits(text: Seq<char>, t: DataType) -> bool {
    match t {
        DataType::UnsignedLong => parse_u64_spec(text) is Some,
        DataType::String => true,
        _ => false,
    }
}

/// Whether a record has a readable field for each column of `schema`.
pub open spec fn record_fits(fields: Seq<Seq<char>>, schema: Seq<FieldV>) -> bool {
    &&& fields.len() == schema.len()
    &&& forall|i: int| 0 <= i < fields.len() ==> field_fits(#[trigger] fields[i], schema[i].data_type)
}

/// Whether each record that could be read fits `schema`.
pub open spec fn records_fit(records: Seq<Option<Seq<Seq<char>>>>, schema: Seq<FieldV>) -> bool {
    forall|i: int| 0 <= i < records.len() && #[trigger] records[i] is Some ==> record_fits(records[i]->0, schema)
}

/// Whether `v` is the value of type `t` that the text of a field gives.
pub open spec fn value_read(v: Value, text: Seq<char>, t: DataType) -> bool {
    match t {
        DataType::UnsignedLong => v == Value::UnsignedLong(parse_u64_spec(text)->0),
        DataType::String => v matches Value::String(s) && s@ == text,
        _ => false,
    }
}

/// Whether `row` holds the values that a record gives for the columns of `schema`.
pub open spec fn tuple_read(row: Seq<Value>, fields: Seq<Seq<char>>, schema: Seq<FieldV>) -> bool {
    &&& row.len() == fields.len()
    &&& forall|i: int| 0 <= i < row.len() ==> value_read(#[trigger] row[i], fields[i], schema[i].data_type)
}

/// Whether an item is the row that a record gives for the columns of `schema`, or an
/// error for a record that could not be read.
pub open spec fn item_read(item: Option<Seq<Value>>, record: Option<Seq<Seq<char>>>, schema: Seq<FieldV>) -> bool {
    match (item, record) {
        (None, None) => true,
        (Some(row), Some(fields)) => tuple_read(row, fields, schema),
        _ => false,
    }
}

/// Whether `items` are the rows that `records` give for the columns of `schema`, with an
/// error for each record that could not be read.
pub open spec fn items_read(items: Seq<Option<Seq<Value>>>, records: Seq<Option<Seq<Seq<char>>>>, schema: Seq<FieldV>) -> bool {
    &&& items.len() == records.len()
    &&& forall|i: int| 0 <= i < items.len() ==> item_read(#[trigger] items[i], records[i], schema)
}

/// A CSV text with a known schema.
#[derive(Debug)]
pub struct CsvRelation {
    data: Vec<u8>,
    schema: Schema,
}

impl CsvRelation {
    /// The bytes of the CSV text.
    pub closed spec fn data(&self) -> Seq<u8> {
        self.data@
    }

    /// The schema of the relation.
    pub closed spec fn spec_schema(&self) -> Seq<FieldV> {
        self.schema@
    }

    pub fn open(data: Vec<u8>, schema: Schema) -> (r: Result<Self, ExecutionError>)
        ensures
            r matches Ok(rel) && rel.data() == data@ && rel.spec_schema() == schema@,
    {
        Ok(CsvRelation { data, schema })
    }

    /// Converts a record into a row of the schema's types.
    pub fn create_tuple(&self, r: &Vec<String>) -> (res: Result<Row, ExecutionError>)
        requires
            record_fits(texts(r@), self.spec_schema()),
        ensures
            res matches Ok(row) && tuple_read(row@, texts(r@), self.spec_schema()),
    {
        let mut values: Vec<Value> = Vec::new();
        let mut i: usize = 0;
        while i < r.len()
            invariant
                i <= r.len(),
                record_fits(texts(r@), self.spec_schema()),
                values.len() == i,
                forall|k: int| 0 <= k < i ==> value_read(#[trigger] values@[k], texts(r@)[k], self.spec_schema()[k].data_type),
            decreases r.len() - i,
        {
            assert(field_fits(texts(r@)[i as int], self.spec_schema()[i as int].data_type));
            let v = match self.schema.columns[i].data_type {
                DataType::UnsignedLong => match parse_u64(r[i].as_str()) {
                    Some(n) => Value::UnsignedLong(n),
                    None => {
                        proof {
                            assert(false);
                        }
                        Value::UnsignedLong(0)
                    },
                },
                DataType::String => Value::String(r[i].clone()),
                _ => {
                    proof {
                        assert(false);
                    }
                    Value::Boolean(false)
                },
            };
            values.push(v);
            i = i + 1;
        }
        Ok(Row::new(values))
    }

    /// The rows of the relation, with an error for each record that could not be read;
    /// `None` where a record does not fit the schema.
    pub fn scan(&self) -> (r: Option<Vec<Item>>)
        ensures
            match r {
                Some(items) => records_fit(csv_records(self.data()), self.spec_schema())
                    && items_read(items_view(items@), csv_records(self.data()), self.spec_schema())
                    && forall|k: int| 0 <= k < items@.len() && (#[trigger] csv_records(self.data())[k]) is None
                        ==> items@[k] matches Err(ExecutionError::CsvError(_)),
                None => !records_fit(csv_records(self.data()), self.spec_schema()),
            },
    {
        let records = read_csv_records(self.data.as_slice());
        self.rows_of_records(records)
    }

    /// The rows that the records of a CSV text give for the schema, with a CSV error for
    /// each record that could not be read; `None` where a record does not fit the schema.
    pub fn rows_of_records(&self, records: Vec<Result<Vec<String>, csv::Error>>) -> (r: Option<Vec<Item>>)
        ensures
            match r {
                Some(items) => records_fit(records_view(records@), self.spec_schema())
                    && items_read(items_view(items@), records_view(records@), self.spec_schema())
                    && forall|k: int| 0 <= k < items@.len() && (#[trigger] records_view(records@)[k]) is None
                        ==> items@[k] matches Err(ExecutionError::CsvError(_)),
                None => !records_fit(records_view(records@), self.spec_schema()),
            },
    {
        let ghost recs = records_view(records@);
        let mut i: usize = 0;
        while i < records.len()
            invariant
                i <= records.len(),
                recs == records_view(records@),
                forall|k: int| 0 <= k < i && #[trigger] recs[k] is Some ==> record_fits(recs[k]->0, self.spec_schema()),
            decreases records.len() - i,
        {
            match &records[i] {
                Ok(fields) => {
                    if !self.fits(fields) {
                        assert(recs[i as int] == Some(texts(fields@)));
                        return None;
                    }
                },
                Err(_) => {},
            }
            i = i + 1;
        }
        let mut items: Vec<Item> = Vec::new();
        for record in it: records
            invariant
                recs == records_view(it.seq()),
                records_fit(recs, self.spec_schema()),
                items@.len() == it.index(),
                forall|k: int| 0 <= k < items@.len() ==> item_read(#[trigger] items_view(items@)[k], recs[k], self.spec_schema()),
                forall|k: int| 0 <= k < items@.len() && (#[trigger] recs[k]) is None ==> items@[k] matches Err(ExecutionError::CsvError(_)),
        {
            let ghost k = it.index() as int;
            let ghost before = items@;
            match record {
                Ok(fields) => {
                    assert(recs[k] == Some(texts(fields@)));
                    let row = self.create_tuple(&fields);
                    let ghost rv = row->Ok_0@;
                    items.push(row);
                    assert(items_view(items@)[k] == Some(rv));
                    assert(item_read(items_view(items@)[k], recs[k], self.spec_schema()));
                },
                Err(e) => {
                    assert(recs[k] is None);
                    items.push(Err(ExecutionError::CsvError(e)));
                    assert(items_view(items@)[k] is None);
                    assert(item_read(items_view(items@)[k], recs[k], self.spec_schema()));
                },
            }
            assert forall|j: int| 0 <= j < items@.len() implies item_read(#[trigger] items_view(items@)[j], recs[j], self.spec_schema()) by {
                if j < k {
                    assert(items@[j] == before[j]);
                    assert(items_view(items@)[j] == items_view(before)[j]);
                }
            }
            assert forall|j: int| 0 <= j < items@.len() && (#[trigger] recs[j]) is None implies items@[j] matches Err(ExecutionError::CsvError(_)) by {
                if j < k {
                    assert(items@[j] == before[j]);
                }
            }
        }
        Some(items)
    }

    /// Whether a record fits the schema.
    fn fits(&self, fields: &Vec<String>) -> (r: bool)
        ensures
            r == record_fits(texts(fields@), self.spec_schema()),
    {
        if fields.len() != self.schema.columns.len() {
            return false;
        }
        let mut i: usize = 0;
        while i < fields.len()
            invariant
                i <= fields.len(),
                fields.len() == self.spec_schema().len(),
                forall|k: int| 0 <= k < i ==> field_fits(#[trigger] texts(fields@)[k], self.spec_schema()[k].data_type),
            decreases fields.len() - i,
        {
            let ok = match self.schema.columns[i].data_type {
                DataType::UnsignedLong => parse_u64(fields[i].as_str()).is_some(),
                DataType::String => true,
                _ => false,
            };
            if !ok {
                assert(!field_fits(texts(fields@)[i as int], self.spec_schema()[i as int].data_type));
                return false;
            }
            i = i + 1;
        }
        true
    }
}

}
