//! Hiding the answers of validation records.
//!
//! Part of the records sent to a model as prediction data are validation
//! records whose answers are known. Before they are sent, each such record
//! has its value in the prediction column taken out and kept aside, so that
//! the model's predictions for it can be checked later.

use vstd::prelude::*;
use vstd::string::*;
use vstd::utf8::*;

use crate::utils::text::{
    join_bytes, lemma_encode_utf8_concat, split_ascii, split_bytes, strs_bytes, COMMA,
};

verus! {

/// The name of the column of record identifiers that tagged records start with.
pub open spec fn record_id_name() -> Seq<u8> {
    seq![114u8, 101u8, 99u8, 111u8, 114u8, 100u8, 95u8, 105u8, 100u8]
}

/// The column names of tagged records: the record identifier column, then
/// the columns of the dataset's header line `headers`.
pub open spec fn tagged_names(headers: Seq<u8>) -> Seq<Seq<u8>> {
    seq![record_id_name()] + split_bytes(headers, COMMA)
}

/// The first of the first `n` names that is `column`, if any.
pub open spec fn first_match(names: Seq<Seq<u8>>, column: Seq<u8>, n: int) -> Option<int>
    decreases n,
{
    if n <= 0 {
        None
    } else {
        match first_match(names, column, n - 1) {
            Some(k) => Some(k),
            None => if names[n - 1] == column {
                Some(n - 1)
            } else {
                None
            },
        }
    }
}

/// The first `n` fields, with each one under the column `column` emptied.
pub open spec fn blanked(fields: Seq<Seq<u8>>, names: Seq<Seq<u8>>, column: Seq<u8>, n: int) -> Seq<
    Seq<u8>,
> {
    Seq::new(n as nat, |i: int| if names[i] == column { Seq::<u8>::empty() } else { fields[i] })
}

/// The number of fields of a record that are paired with a column name: as
/// many as there are of the fewer.
pub open spec fn paired(fields: Seq<Seq<u8>>, names: Seq<Seq<u8>>) -> int {
    if fields.len() < names.len() {
        fields.len() as int
    } else {
        names.len() as int
    }
}

/// The answer of the tagged validation record `record` in the column
/// `column`, and the record with that answer emptied, or `None` when no
/// paired field lies under `column`.
pub open spec fn spec_separate_answer(record: Seq<u8>, headers: Seq<u8>, column: Seq<u8>) -> Option<
    (Seq<u8>, Seq<u8>),
> {
    let fields = split_bytes(record, COMMA);
    let names = tagged_names(headers);
    let n = paired(fields, names);
    match first_match(names, column, n) {
        None => None,
        Some(k) => Some((fields[k], join_bytes(blanked(fields, names, column, n), COMMA))),
    }
}

/// Whether two strings have the same bytes.
pub(crate) fn same_text(a: &str, b: &str) -> (same: bool)
    ensures
        same == (a.spec_bytes() == b.spec_bytes()),
{
    let x = a.as_bytes();
    let y = b.as_bytes();
    if x.len() != y.len() {
        return false;
    }
    let mut i: usize = 0;
    while i < x.len()
        invariant
            x@ == a.spec_bytes(),
            y@ == b.spec_bytes(),
            x@.len() == y@.len(),
            i <= x@.len(),
            forall|j: int| 0 <= j < i ==> x@[j] == y@[j],
        decreases x@.len() - i,
    {
        if x[i] != y[i] {
            return false;
        }
        i += 1;
    }
    assert(x@ =~= y@);
    true
}

/// Takes the answer out of a tagged validation record.
///
/// The fields of `record` are paired with the column names `record_id`
/// followed by those of `headers`; the field under `column` is the answer,
/// and the record is rebuilt with that field emptied. A record with no field
/// under `column` gives `None`.
pub fn separate_answer<'a>(record: &'a str, headers: &str, column: &str) -> (separated: Option<
    (&'a str, String),
>)
    ensures
        match spec_separate_answer(record.spec_bytes(), headers.spec_bytes(), column.spec_bytes()) {
            None => separated is None,
            Some((answer, rest)) => separated matches Some((a, r)) && a.spec_bytes() == answer
                && encode_utf8(r@) == rest,
        },
{
    let fields = split_ascii(record, COMMA);
    let header_fields = split_ascii(headers, COMMA);
    let record_id = "record_id";
    let comma = ",";
    proof {
        reveal_strlit("record_id");
        reveal_strlit(",");
        assert(record_id@ =~= seq!['r', 'e', 'c', 'o', 'r', 'd', '_', 'i', 'd']);
        assert(comma@ =~= seq![',']);
        assert(is_ascii_chars(record_id@));
        assert(is_ascii_chars(comma@));
        is_ascii_chars_encode_utf8(record_id@);
        is_ascii_chars_encode_utf8(comma@);
        assert(record_id.spec_bytes() =~= record_id_name());
        assert(comma.spec_bytes() =~= seq![COMMA]);
    }
    let ghost fs = strs_bytes(fields@);
    let ghost names = tagged_names(headers.spec_bytes());
    let ghost col = column.spec_bytes();
    let n: usize = if fields.len() <= header_fields.len() {
        fields.len()
    } else {
        header_fields.len() + 1
    };
    proof {
        assert(names.len() == header_fields@.len() + 1);
        assert(n == paired(fs, names));
    }
    let mut answer: Option<&'a str> = None;
    let mut rest = String::new();
    let mut i: usize = 0;
    while i < n
        invariant
            i <= n,
            n == paired(fs, names),
            fs == strs_bytes(fields@),
            fs == split_bytes(record.spec_bytes(), COMMA),
            names == tagged_names(headers.spec_bytes()),
            strs_bytes(header_fields@) == split_bytes(headers.spec_bytes(), COMMA),
            col == column.spec_bytes(),
            record_id.spec_bytes() == record_id_name(),
            comma@ == seq![','],
            comma.spec_bytes() == seq![COMMA],
            match first_match(names, col, i as int) {
                None => answer is None,
                Some(k) => 0 <= k < fs.len() && (answer matches Some(a) && a.spec_bytes() == fs[k]),
            },
            encode_utf8(rest@) == join_bytes(blanked(fs, names, col, i as int), COMMA),
        decreases n - i,
    {
        let name: &str = if i == 0 {
            record_id
        } else {
            header_fields[i - 1]
        };
        proof {
            if i > 0 {
                assert(names[i as int] == split_bytes(headers.spec_bytes(), COMMA)[i - 1]);
            }
            assert(name.spec_bytes() == names[i as int]);
            assert(fields@[i as int].spec_bytes() == fs[i as int]);
        }
        let is_answer = same_text(name, column);
        let ghost before = rest@;
        if is_answer && answer.is_none() {
            answer = Some(fields[i]);
        }
        if i > 0 {
            rest.append(comma);
        }
        let ghost mid = rest@;
        if !is_answer {
            rest.append(fields[i]);
        }
        proof {
            let prev = blanked(fs, names, col, i as int);
            let next = blanked(fs, names, col, i + 1);
            let piece: Seq<u8> = if names[i as int] == col {
                Seq::<u8>::empty()
            } else {
                fs[i as int]
            };
            assert(next.drop_last() =~= prev);
            assert(next.last() == piece);
            if i > 0 {
                lemma_encode_utf8_concat(before, comma@);
                assert(mid =~= before + comma@);
            } else {
                assert(mid =~= before);
            }
            if !is_answer {
                lemma_encode_utf8_concat(mid, fields@[i as int]@);
                assert(rest@ =~= mid + fields@[i as int]@);
                assert(encode_utf8(rest@) == encode_utf8(mid) + piece);
            } else {
                assert(rest@ =~= mid);
                assert(encode_utf8(mid) =~= encode_utf8(mid) + piece);
            }
            if i == 0 {
                assert(before =~= Seq::<char>::empty());
                assert(encode_utf8(before) =~= Seq::<u8>::empty());
                assert(encode_utf8(rest@) =~= piece);
                assert(join_bytes(next, COMMA) == next[0]);
            } else {
                assert(encode_utf8(mid) =~= encode_utf8(before) + seq![COMMA]);
                assert(join_bytes(next, COMMA) == join_bytes(prev, COMMA) + seq![COMMA] + piece);
                assert(encode_utf8(rest@) =~= join_bytes(prev, COMMA) + seq![COMMA] + piece);
            }
        }
        i += 1;
    }
    match answer {
        None => None,
        Some(a) => Some((a, rest)),
    }
}

} // verus!
