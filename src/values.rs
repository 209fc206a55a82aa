//! Value rows: delimited-text records turned into substitution values.
use vstd::prelude::*;
use crate::substitution::texts;

verus! {

/// What `str::trim` leaves of a text.
pub uninterp spec fn trimmed(s: Seq<char>) -> Seq<char>;

/// The pieces that `str::split` cuts a text into at a separator.
pub uninterp spec fn split_pieces(s: Seq<char>, sep: Seq<char>) -> Seq<Seq<char>>;

/// The records that the `csv` reader reads from bytes, header included;
/// `None` where the reader reports an error.
pub uninterp spec fn csv_rows_of(data: Seq<u8>) -> Option<Seq<Seq<Seq<char>>>>;

/// Relies on `str::trim`: leading and trailing whitespace removed.
#[verifier::external_body]
fn trim_str(s: &str) -> (r: String)
    ensures
        r@ == trimmed(s@),
{
    s.trim().to_owned()
}

/// Relies on `str::split` with a string separator.
#[verifier::external_body]
fn split_str(s: &str, sep: &str) -> (r: Vec<String>)
    ensures
        texts(r@) == split_pieces(s@, sep@),
{
    s.split(sep).map(|p| p.to_owned()).collect()
}

/// Relies on `csv::ReaderBuilder` with headers off and `Reader::records`: each
/// record as its fields, or the reader's error.
#[verifier::external_body]
pub(crate) fn csv_records(data: &[u8]) -> (r: Result<Vec<Vec<String>>, csv::Error>)
    ensures
        r is Ok <==> csv_rows_of(data@) is Some,
        r matches Ok(rows) ==> rows@.len() == csv_rows_of(data@)->Some_0.len() && forall|i: int|
            0 <= i < rows@.len() ==> texts(#[trigger] rows@[i]@) == csv_rows_of(data@)->Some_0[i],
{
    csv::ReaderBuilder::new().has_headers(false).from_reader(data).records().map(
        |rec| rec.map(|fields| fields.iter().map(|f| f.to_owned()).collect()),
    ).collect()
}

/// The fields that are not empty, each trimmed.
pub open spec fn values_of(fields: Seq<Seq<char>>) -> Seq<Seq<char>>
    decreases fields.len(),
{
    if fields.len() == 0 {
        seq![]
    } else if fields.last().len() == 0 {
        values_of(fields.drop_last())
    } else {
        values_of(fields.drop_last()).push(trimmed(fields.last()))
    }
}

/// Turns record fields into values: empty fields are dropped, the rest trimmed.
pub fn vec_str_to_values(input: &Vec<String>) -> (r: Vec<String>)
    ensures
        texts(r@) == values_of(texts(input@)),
{
    let mut out: Vec<String> = Vec::new();
    let mut i: usize = 0;
    while i < input.len()
        invariant
            i <= input.len(),
            texts(out@) == values_of(texts(input@).take(i as int)),
        decreases input.len() - i,
    {
        let ghost pre = texts(input@).take(i + 1);
        assert(pre.drop_last() =~= texts(input@).take(i as int));
        assert(pre.last() == input@[i as int]@);
        if input[i].as_str().unicode_len() != 0 {
            let t = trim_str(input[i].as_str());
            out.push(t);
            assert(texts(out@) =~= values_of(pre));
        } else {
            assert(input@[i as int]@.len() == 0);
        }
        i = i + 1;
    }
    assert(texts(input@).take(i as int) =~= texts(input@));
    out
}

/// Cuts a line into values at a separator: empty pieces are dropped, the rest
/// trimmed.
pub fn string_to_values(input: &str, separator: &str) -> (r: Vec<String>)
    ensures
        texts(r@) == values_of(split_pieces(input@, separator@)),
{
    let pieces = split_str(input, separator);
    vec_str_to_values(&pieces)
}

} // verus!
