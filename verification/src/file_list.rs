//! The catalogue of stored files: which store holds it, how a file's key is
//! taken apart, and the rows that the store keeps.

use vstd::prelude::*;
use vstd::string::StringExecFns;
use crate::errors::Failure;
use crate::text::{same_text, split_n, split_text};

verus! {

/// The stores that can hold the catalogue.
#[derive(Debug, Clone, Copy, PartialEq, Eq, Structural)]
pub enum MetaStore {
    Sqlite,
    Postgres,
    Dynamo,
}

/// The store that a configured name stands for.
pub open spec fn store_named(name: Seq<char>) -> MetaStore {
    if name == "postgres"@ || name == "postgresql"@ {
        MetaStore::Postgres
    } else if name == "dynamo"@ || name == "dynamodb"@ {
        MetaStore::Dynamo
    } else {
        MetaStore::Sqlite
    }
}

/// Chooses the store of the catalogue by its configured name.
///
/// `postgres` and `postgresql` name the one, `dynamo` and `dynamodb` the
/// other; `sqlite` and every other name give the store in a local file.
pub fn connect(meta_store: &str) -> (r: MetaStore)
    ensures
        r == store_named(meta_store@),
{
    if same_text(meta_store, "postgres") || same_text(meta_store, "postgresql") {
        MetaStore::Postgres
    } else if same_text(meta_store, "dynamo") || same_text(meta_store, "dynamodb") {
        MetaStore::Dynamo
    } else {
        MetaStore::Sqlite
    }
}

/// The three parts of a file key.
pub ghost struct KeyColumns {
    pub stream_key: Seq<char>,
    pub date_key: Seq<char>,
    pub file_name: Seq<char>,
}

/// The columns of a file key: the key cut at its first eight slashes.
pub open spec fn key_columns(key: Seq<char>) -> Seq<Seq<char>> {
    split_n(key, '/', 9)
}

/// The parts of a file key with nine columns: the stream key is made of the
/// second to fourth column, the date key of the fifth to eighth, and the file
/// name is the ninth.
pub open spec fn key_parts(key: Seq<char>) -> KeyColumns {
    let columns = key_columns(key);
    KeyColumns {
        stream_key: columns[1] + "/"@ + columns[2] + "/"@ + columns[3],
        date_key: columns[4] + "/"@ + columns[5] + "/"@ + columns[6] + "/"@ + columns[7],
        file_name: columns[8],
    }
}

/// Takes a file key apart into stream key, date key and file name.
///
/// A key has the form `files/org/type/stream/year/month/day/hour/name`. A
/// key with fewer than nine columns is refused.
pub fn parse_file_key_columns(key: &str) -> (r: Result<(String, String, String), Failure>)
    ensures
        match r {
            Ok((stream_key, date_key, file_name)) => {
                &&& key_columns(key@).len() == 9
                &&& stream_key@ == key_parts(key@).stream_key
                &&& date_key@ == key_parts(key@).date_key
                &&& file_name@ == key_parts(key@).file_name
            },
            Err(error) => {
                &&& key_columns(key@).len() < 9
                &&& error.text() == "[file_list] Invalid file path: "@ + key@
            },
        },
{
    let columns = split_text(key, '/', 9);
    if columns.len() < 9 {
        let mut message = String::from_str("[file_list] Invalid file path: ");
        message.append(key);
        return Err(Failure::Message(message));
    }
    let ghost parts = columns.deep_view();
    let mut stream_key = columns[1].clone();
    stream_key.append("/");
    stream_key.append(columns[2].as_str());
    stream_key.append("/");
    stream_key.append(columns[3].as_str());
    let mut date_key = columns[4].clone();
    date_key.append("/");
    date_key.append(columns[5].as_str());
    date_key.append("/");
    date_key.append(columns[6].as_str());
    date_key.append("/");
    date_key.append(columns[7].as_str());
    let file_name = columns[8].clone();
    assert(parts[1] == columns[1]@ && parts[2] == columns[2]@ && parts[3] == columns[3]@);
    assert(parts[4] == columns[4]@ && parts[5] == columns[5]@ && parts[6] == columns[6]@);
    assert(parts[7] == columns[7]@ && parts[8] == columns[8]@);
    Ok((stream_key, date_key, file_name))
}

/// One file of the catalogue, as the store keeps it.
#[derive(Debug, Clone, PartialEq)]
pub struct FileRecord {
    pub stream: String,
    pub date: String,
    pub file: String,
    pub deleted: bool,
    pub min_ts: i64,
    pub max_ts: i64,
    pub records: i64,
    pub original_size: i64,
    pub compressed_size: i64,
}

/// What is known of the contents of one file.
#[derive(Debug, Clone, Copy, PartialEq, Eq, Structural)]
pub struct FileMeta {
    pub min_ts: i64,
    pub max_ts: i64,
    pub records: i64,
    pub original_size: i64,
    pub compressed_size: i64,
}

/// The statistics of one stream, as the store keeps them.
#[derive(Debug, Clone, PartialEq)]
pub struct StatsRecord {
    pub stream: String,
    pub file_num: i64,
    pub min_ts: i64,
    pub max_ts: i64,
    pub records: i64,
    pub original_size: i64,
    pub compressed_size: i64,
}

impl FileRecord {
    /// What the row says of the file's contents.
    pub open spec fn meta(&self) -> FileMeta {
        FileMeta {
            min_ts: self.min_ts,
            max_ts: self.max_ts,
            records: self.records,
            original_size: self.original_size,
            compressed_size: self.compressed_size,
        }
    }
}

impl From<&FileRecord> for FileMeta {
    fn from(record: &FileRecord) -> (r: Self) {
        FileMeta {
            min_ts: record.min_ts,
            max_ts: record.max_ts,
            records: record.records,
            original_size: record.original_size,
            compressed_size: record.compressed_size,
        }
    }
}

impl vstd::std_specs::convert::FromSpecImpl<&FileRecord> for FileMeta {
    open spec fn obeys_from_spec() -> bool {
        true
    }

    open spec fn from_spec(record: &FileRecord) -> Self {
        record.meta()
    }
}

/// The value of a decimal digit.
pub open spec fn digit_value(c: char) -> Option<int> {
    if 48 <= c as u32 <= 57 {
        Some(c as u32 - 48)
    } else {
        None
    }
}

/// The number that a text of decimal digits writes; the empty text writes
/// zero.
pub open spec fn digits_value(s: Seq<char>) -> Option<int>
    decreases s.len(),
{
    if s.len() == 0 {
        Some(0)
    } else {
        match (digits_value(s.drop_last()), digit_value(s.last())) {
            (Some(value), Some(digit)) => Some(value * 10 + digit),
            _ => None,
        }
    }
}

/// The number that a text writes: one or more decimal digits, with a plus
/// or a minus sign before them or none.
pub open spec fn decimal(s: Seq<char>) -> Option<int> {
    if s.len() == 0 {
        None
    } else if s[0] == '-' {
        match digits_value(s.skip(1)) {
            Some(value) => if s.len() > 1 {
                Some(-value)
            } else {
                None
            },
            None => None,
        }
    } else if s[0] == '+' {
        if s.len() > 1 {
            digits_value(s.skip(1))
        } else {
            None
        }
    } else {
        digits_value(s)
    }
}

/// The 64-bit number that a text writes, if it writes one.
pub open spec fn decimal_i64(s: Seq<char>) -> Option<i64> {
    match decimal(s) {
        Some(value) => if i64::MIN <= value <= i64::MAX {
            Some(value as i64)
        } else {
            None
        },
        None => None,
    }
}

proof fn lemma_digits_grow(s: Seq<char>, n: int)
    requires
        0 <= n <= s.len(),
        digits_value(s) is Some,
    ensures
        digits_value(s.take(n)) is Some,
        0 <= digits_value(s.take(n))->0 <= digits_value(s)->0,
    decreases s.len() - n,
{
    if n == s.len() {
        assert(s.take(n) =~= s);
        lemma_digits_not_negative(s);
    } else {
        assert(s.drop_last().take(n) =~= s.take(n));
        lemma_digits_grow(s.drop_last(), n);
    }
}

proof fn lemma_digits_not_negative(s: Seq<char>)
    requires
        digits_value(s) is Some,
    ensures
        digits_value(s)->0 >= 0,
    decreases s.len(),
{
    if s.len() > 0 {
        lemma_digits_not_negative(s.drop_last());
    }
}

/// Reads a 64-bit number from its decimal text.
pub fn parse_i64(text: &str) -> (r: Option<i64>)
    ensures
        r == decimal_i64(text@),
{
    let mut negative = false;
    let mut signed = false;
    let mut any_digit = false;
    let mut value: i128 = 0;
    let ghost mut digits: int = 0;
    let ghost body = if text@.len() > 0 && (text@[0] == '-' || text@[0] == '+') {
        text@.skip(1)
    } else {
        text@
    };
    for c in it: text.chars()
        invariant
            it.seq() == text@,
            signed == (it.index() > 0 && (text@[0] == '-' || text@[0] == '+')),
            negative == (it.index() > 0 && text@[0] == '-'),
            body == if text@.len() > 0 && (text@[0] == '-' || text@[0] == '+') {
                text@.skip(1)
            } else {
                text@
            },
            digits == if signed {
                it.index() - 1
            } else {
                it.index() as int
            },
            any_digit == (digits > 0),
            digits_value(body.take(digits)) == Some(value as int),
            0 <= value <= 0x8000_0000_0000_0000,
    {
        let ghost i = it.index() as int;
        assert(text@[i] == c);
        if !signed && !any_digit && (c == '-' || c == '+') {
            signed = true;
            negative = c == '-';
            assert(body.take(0) =~= Seq::<char>::empty());
        } else {
            let code = c as u32;
            assert(body[digits] == c);
            assert(body.take(digits + 1).drop_last() =~= body.take(digits));
            assert(body.take(digits + 1).last() == c);
            if code < 48 || code > 57 {
                proof {
                    if digits_value(body) is Some {
                        lemma_digits_grow(body, digits + 1);
                    }
                }
                return None;
            }
            let next: i128 = value * 10 + (code - 48) as i128;
            if next > 0x8000_0000_0000_0000 {
                proof {
                    if digits_value(body) is Some {
                        lemma_digits_grow(body, digits + 1);
                    }
                }
                return None;
            }
            value = next;
            any_digit = true;
            proof {
                digits = digits + 1;
            }
        }
    }
    assert(body.take(digits) =~= body);
    if !any_digit {
        return None;
    }
    if negative {
        Some((-value) as i64)
    } else if value > i64::MAX as i128 {
        None
    } else {
        Some(value as i64)
    }
}

/// A value of an item of the store.
#[derive(Debug)]
pub enum Attribute {
    /// A text.
    Text(String),
    /// A number, as its text.
    Number(String),
    /// Any other kind of value.
    Other,
}

/// An attribute as plain values.
pub ghost enum AttributeView {
    Text(Seq<char>),
    Number(Seq<char>),
    Other,
}

impl View for Attribute {
    type V = AttributeView;

    open spec fn view(&self) -> AttributeView {
        match self {
            Attribute::Text(text) => AttributeView::Text(text@),
            Attribute::Number(text) => AttributeView::Number(text@),
            Attribute::Other => AttributeView::Other,
        }
    }
}

/// The first attribute with the given name.
pub open spec fn attribute_named(item: Seq<(String, Attribute)>, name: Seq<char>) -> Option<AttributeView>
    decreases item.len(),
{
    if item.len() == 0 {
        None
    } else {
        match attribute_named(item.drop_last(), name) {
            Some(found) => Some(found),
            None => if item.last().0@ == name {
                Some(item.last().1@)
            } else {
                None
            },
        }
    }
}

/// The text of the attribute with the given name, where the item has it
/// and it is a text.
pub open spec fn text_named(item: Seq<(String, Attribute)>, name: Seq<char>) -> Option<Seq<char>> {
    match attribute_named(item, name) {
        Some(AttributeView::Text(text)) => Some(text),
        _ => None,
    }
}

/// The number of the attribute with the given name, where the item has it
/// and it writes a 64-bit number.
pub open spec fn number_named(item: Seq<(String, Attribute)>, name: Seq<char>) -> Option<i64> {
    match attribute_named(item, name) {
        Some(AttributeView::Number(text)) => decimal_i64(text),
        _ => None,
    }
}

proof fn lemma_attribute_stays(item: Seq<(String, Attribute)>, n: int, name: Seq<char>)
    requires
        0 <= n <= item.len(),
        attribute_named(item.take(n), name) is Some,
    ensures
        attribute_named(item, name) == attribute_named(item.take(n), name),
    decreases item.len() - n,
{
    if n < item.len() {
        assert(item.take(n + 1).drop_last() =~= item.take(n));
        lemma_attribute_stays(item, n + 1, name);
    } else {
        assert(item.take(n) =~= item);
    }
}

fn find_attribute(item: &Vec<(String, Attribute)>, name: &str) -> (r: Option<usize>)
    ensures
        match r {
            Some(i) => i < item.len() && attribute_named(item@, name@) == Some(item[i as int].1@),
            None => attribute_named(item@, name@) is None,
        },
{
    let wanted = name.to_owned();
    let mut i: usize = 0;
    while i < item.len()
        invariant
            i <= item.len(),
            wanted@ == name@,
            attribute_named(item@.take(i as int), name@) is None,
        decreases item.len() - i,
    {
        proof {
            assert(item@.take(i + 1).drop_last() =~= item@.take(i as int));
            assert(item@.take(i + 1).last() == item[i as int]);
        }
        if item[i].0 == wanted {
            proof {
                lemma_attribute_stays(item@, i as int + 1, name@);
            }
            return Some(i);
        }
        i += 1;
    }
    assert(item@.take(item.len() as int) =~= item@);
    None
}

fn text_attribute(item: &Vec<(String, Attribute)>, name: &str) -> (r: Option<String>)
    ensures
        match r {
            Some(text) => text_named(item@, name@) == Some(text@),
            None => text_named(item@, name@) is None,
        },
{
    match find_attribute(item, name) {
        Some(i) => match &item[i].1 {
            Attribute::Text(text) => Some(text.clone()),
            _ => None,
        },
        None => None,
    }
}

fn number_attribute(item: &Vec<(String, Attribute)>, name: &str) -> (r: Option<i64>)
    ensures
        r == number_named(item@, name@),
{
    match find_attribute(item, name) {
        Some(i) => match &item[i].1 {
            Attribute::Number(text) => parse_i64(text.as_str()),
            _ => None,
        },
        None => None,
    }
}

impl StatsRecord {
    /// Whether an item of the store holds the statistics of a stream: the
    /// name of the stream as a text, and the six counts as numbers.
    pub open spec fn readable(item: Seq<(String, Attribute)>) -> bool {
        &&& text_named(item, "stream"@) is Some
        &&& number_named(item, "file_num"@) is Some
        &&& number_named(item, "min_ts"@) is Some
        &&& number_named(item, "max_ts"@) is Some
        &&& number_named(item, "records"@) is Some
        &&& number_named(item, "original_size"@) is Some
        &&& number_named(item, "compressed_size"@) is Some
    }

    /// Reads the statistics of a stream from an item of the store.
    ///
    /// The item is read where it holds the name of the stream as a text and
    /// each of the six counts as the decimal text of a 64-bit number; any
    /// other item gives `None`.
    pub fn from_attributes(item: &Vec<(String, Attribute)>) -> (r: Option<Self>)
        ensures
            r is Some <==> Self::readable(item@),
            r matches Some(record) ==> {
                &&& Some(record.stream@) == text_named(item@, "stream"@)
                &&& Some(record.file_num) == number_named(item@, "file_num"@)
                &&& Some(record.min_ts) == number_named(item@, "min_ts"@)
                &&& Some(record.max_ts) == number_named(item@, "max_ts"@)
                &&& Some(record.records) == number_named(item@, "records"@)
                &&& Some(record.original_size) == number_named(item@, "original_size"@)
                &&& Some(record.compressed_size) == number_named(item@, "compressed_size"@)
            },
    {
        let stream = match text_attribute(item, "stream") {
            Some(text) => text,
            None => {
                return None;
            },
        };
        let file_num = match number_attribute(item, "file_num") {
            Some(number) => number,
            None => {
                return None;
            },
        };
        let min_ts = match number_attribute(item, "min_ts") {
            Some(number) => number,
            None => {
                return None;
            },
        };
        let max_ts = match number_attribute(item, "max_ts") {
            Some(number) => number,
            None => {
                return None;
            },
        };
        let records = match number_attribute(item, "records") {
            Some(number) => number,
            None => {
                return None;
            },
        };
        let original_size = match number_attribute(item, "original_size") {
            Some(number) => number,
            None => {
                return None;
            },
        };
        let compressed_size = match number_attribute(item, "compressed_size") {
            Some(number) => number,
            None => {
                return None;
            },
        };
        Some(StatsRecord { stream, file_num, min_ts, max_ts, records, original_size, compressed_size })
    }
}

} // verus!
