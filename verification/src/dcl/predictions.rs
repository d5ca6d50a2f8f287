//! Reading the predictions a model sends back: one line per record, holding
//! the record's identifier and the predicted value.

use vstd::prelude::*;
use vstd::string::*;
use vstd::utf8::*;

use crate::dcl::validation::{record_id_name, same_text};
use crate::utils::text::{split_ascii, split_bytes, strs_bytes, COMMA, NEWLINE};

verus! {

/// Whether `needle` occurs in `hay`.
pub open spec fn occurs_in(hay: Seq<u8>, needle: Seq<u8>) -> bool {
    exists|i: int|
        0 <= i && i + needle.len() <= hay.len() && #[trigger] hay.subrange(i, i + needle.len())
            == needle
}

/// The lines of a model's answer that hold predictions: all of them, but for
/// a first line that names the record identifier column, which is a header.
pub open spec fn prediction_lines(text: Seq<u8>) -> Seq<Seq<u8>> {
    let lines = split_bytes(text, NEWLINE);
    if occurs_in(lines[0], record_id_name()) {
        lines.drop_first()
    } else {
        lines
    }
}

/// The record identifiers and predictions of a model's answer, or `None`
/// when a line does not hold exactly two comma separated fields.
pub open spec fn spec_parse_predictions(text: Seq<u8>) -> Option<Seq<(Seq<u8>, Seq<u8>)>> {
    let lines = prediction_lines(text);
    if forall|i: int| 0 <= i < lines.len() ==> #[trigger] split_bytes(lines[i], COMMA).len() == 2 {
        Some(
            Seq::new(
                lines.len(),
                |i: int| (split_bytes(lines[i], COMMA)[0], split_bytes(lines[i], COMMA)[1]),
            ),
        )
    } else {
        None
    }
}

/// The identifier and prediction of each of `lines`, when every one of them
/// holds exactly two comma separated fields.
pub open spec fn pairs_of(lines: Seq<Seq<u8>>) -> Option<Seq<(Seq<u8>, Seq<u8>)>> {
    if forall|i: int| 0 <= i < lines.len() ==> #[trigger] split_bytes(lines[i], COMMA).len() == 2 {
        Some(
            Seq::new(
                lines.len(),
                |i: int| (split_bytes(lines[i], COMMA)[0], split_bytes(lines[i], COMMA)[1]),
            ),
        )
    } else {
        None
    }
}

/// An answer whose first line does not name the record identifier column
/// has no header: every one of its lines, the first included, is read as a
/// prediction.
pub proof fn law_without_header_every_line_is_read(text: Seq<u8>)
    requires
        !occurs_in(split_bytes(text, NEWLINE)[0], record_id_name()),
    ensures
        spec_parse_predictions(text) == pairs_of(split_bytes(text, NEWLINE)),
        spec_parse_predictions(text) matches Some(pairs) ==> pairs.len() == split_bytes(
            text,
            NEWLINE,
        ).len(),
{
}

/// An answer whose first line names the record identifier column starts
/// with a header, which is skipped: exactly the lines after it are read.
pub proof fn law_header_line_is_skipped(text: Seq<u8>)
    requires
        occurs_in(split_bytes(text, NEWLINE)[0], record_id_name()),
    ensures
        spec_parse_predictions(text) == pairs_of(split_bytes(text, NEWLINE).drop_first()),
        spec_parse_predictions(text) matches Some(pairs) ==> pairs.len() + 1 == split_bytes(
            text,
            NEWLINE,
        ).len(),
{
    crate::utils::text::lemma_split_nonempty(text, NEWLINE);
}

/// Whether `row` holds the two fields of `line`.
pub open spec fn row_of(row: (&str, &str), line: Seq<u8>) -> bool {
    let pieces = split_bytes(line, COMMA);
    &&& pieces.len() == 2
    &&& row.0.spec_bytes() == pieces[0]
    &&& row.1.spec_bytes() == pieces[1]
}

/// Whether the text `hay` contains the text `needle`.
fn contains_text(hay: &str, needle: &str) -> (found: bool)
    ensures
        found == occurs_in(hay.spec_bytes(), needle.spec_bytes()),
{
    let h = hay.as_bytes();
    let n = needle.as_bytes();
    let hay_len = h.len();
    assert(hay_len == h@.len());
    if n.len() == 0 {
        assert(hay.spec_bytes().subrange(0, 0int + needle.spec_bytes().len()) =~= needle.spec_bytes());
        return true;
    }
    if n.len() > h.len() {
        proof {
            assert forall|i: int|
                0 <= i && i + n@.len() <= h@.len() implies #[trigger] h@.subrange(i, i + n@.len())
                != n@ by {}
        }
        return false;
    }
    let last = h.len() - n.len();
    let mut i: usize = 0;
    while i <= last
        invariant
            h@ == hay.spec_bytes(),
            n@ == needle.spec_bytes(),
            last + n@.len() == h@.len(),
            h@.len() <= usize::MAX,
            n@.len() > 0,
            i <= last + 1,
            forall|k: int| 0 <= k < i ==> #[trigger] h@.subrange(k, k + n@.len()) != n@,
        decreases last + 1 - i,
    {
        let mut j: usize = 0;
        let mut same = true;
        while j < n.len()
            invariant
                h@ == hay.spec_bytes(),
                n@ == needle.spec_bytes(),
                i <= last,
                last + n@.len() == h@.len(),
                h@.len() <= usize::MAX,
                j <= n@.len(),
                same == (forall|m: int| 0 <= m < j ==> h@[i + m] == n@[m]),
            decreases n@.len() - j,
        {
            assert(i + j < h@.len());
            if h[i + j] != n[j] {
                same = false;
            }
            j += 1;
        }
        if same {
            assert(h@.subrange(i as int, i + n@.len()) =~= n@);
            return true;
        }
        assert(h@.subrange(i as int, i + n@.len()) != n@) by {
            let m = choose|m: int| 0 <= m < n@.len() && h@[i + m] != n@[m];
            assert(h@.subrange(i as int, i + n@.len())[m] == h@[i + m]);
        }
        i += 1;
    }
    proof {
        assert forall|k: int| 0 <= k && k + n@.len() <= h@.len() implies #[trigger] h@.subrange(
            k,
            k + n@.len(),
        ) != n@ by {
            assert(k < i);
        }
    }
    false
}

/// Reads the predictions a model sent back: after a header naming the
/// record identifier column, if there is one, each line must hold exactly a
/// record identifier and a prediction, separated by a comma. Any other line
/// makes the whole answer unreadable.
pub fn parse_predictions(text: &str) -> (rows: Option<Vec<(&str, &str)>>)
    ensures
        match spec_parse_predictions(text.spec_bytes()) {
            None => rows is None,
            Some(pairs) => rows matches Some(r) && r@.len() == pairs.len() && forall|i: int|
                0 <= i < pairs.len() ==> (#[trigger] r@[i]).0.spec_bytes() == pairs[i].0
                    && r@[i].1.spec_bytes() == pairs[i].1,
        },        !occurs_in(split_bytes(text.spec_bytes(), NEWLINE)[0], record_id_name()) ==> (
        rows matches Some(r) ==> r@.len() == split_bytes(text.spec_bytes(), NEWLINE).len()),
{
    proof {
        if !occurs_in(split_bytes(text.spec_bytes(), NEWLINE)[0], record_id_name()) {
            law_without_header_every_line_is_read(text.spec_bytes());
        }
    }
    let lines = split_ascii(text, NEWLINE);
    let ghost all = split_bytes(text.spec_bytes(), NEWLINE);
    proof {
        crate::utils::text::lemma_split_nonempty(text.spec_bytes(), NEWLINE);
        assert(strs_bytes(lines@).len() == lines@.len());
    }
    let record_id = "record_id";
    proof {
        reveal_strlit("record_id");
        assert(record_id@ =~= seq!['r', 'e', 'c', 'o', 'r', 'd', '_', 'i', 'd']);
        assert(is_ascii_chars(record_id@));
        is_ascii_chars_encode_utf8(record_id@);
        assert(record_id.spec_bytes() =~= record_id_name());
        assert(lines@[0].spec_bytes() == all[0]);
    }
    let start: usize = if contains_text(lines[0], record_id) {
        1
    } else {
        0
    };
    let ghost rows_spec = prediction_lines(text.spec_bytes());
    proof {
        if start == 1 {
            assert(rows_spec =~= all.subrange(1, all.len() as int));
        } else {
            assert(rows_spec =~= all.subrange(0, all.len() as int));
        }
    }
    let mut rows: Vec<(&str, &str)> = Vec::new();
    let mut i: usize = start;
    while i < lines.len()
        invariant
            start <= i <= lines@.len(),
            start <= 1,
            strs_bytes(lines@) == all,
            all.len() == lines@.len(),
            rows_spec == all.subrange(start as int, all.len() as int),
            rows_spec == prediction_lines(text.spec_bytes()),
            rows@.len() == i - start,
            forall|k: int| 0 <= k < rows@.len() ==> row_of(#[trigger] rows@[k], rows_spec[k]),
        decreases lines@.len() - i,
    {
        let fields = split_ascii(lines[i], COMMA);
        proof {
            assert(lines@[i as int].spec_bytes() == all[i as int]);
            assert(rows_spec[i - start] == all[i as int]);
            assert(strs_bytes(fields@).len() == fields@.len());
        }
        let ghost line = rows_spec[i - start];
        proof {
            assert(line == all[i as int]);
            assert(strs_bytes(fields@) == split_bytes(line, COMMA));
        }
        if fields.len() != 2 {
            proof {
                let m = i - start;
                let spec_lines = prediction_lines(text.spec_bytes());
                assert(spec_lines == rows_spec);
                assert(0 <= m < spec_lines.len());
                assert(split_bytes(spec_lines[m], COMMA).len() != 2);
                assert(!(forall|k: int|
                    0 <= k < spec_lines.len() ==> #[trigger] split_bytes(spec_lines[k], COMMA).len()
                        == 2));
            }
            return None;
        }
        let pair = (fields[0], fields[1]);
        proof {
            assert(pair.0.spec_bytes() == strs_bytes(fields@)[0]);
            assert(pair.1.spec_bytes() == strs_bytes(fields@)[1]);
        }
        let ghost old_rows = rows@;
        rows.push(pair);
        proof {
            assert forall|k: int| 0 <= k < rows@.len() implies row_of(
                #[trigger] rows@[k],
                rows_spec[k],
            ) by {
                if k < old_rows.len() {
                    assert(rows@[k] == old_rows[k]);
                } else {
                    assert(k == i - start);
                    assert(rows@[k] == pair);
                    assert(rows_spec[k] == line);
                    assert(split_bytes(rows_spec[k], COMMA) == strs_bytes(fields@));
                    assert(strs_bytes(fields@).len() == fields@.len());
                }
            }
        }
        i += 1;
    }
    proof {
        assert forall|m: int| 0 <= m < rows_spec.len() implies #[trigger] split_bytes(
            rows_spec[m],
            COMMA,
        ).len() == 2 by {
            assert(row_of(rows@[m], rows_spec[m]));
        }
    }
    Some(rows)
}

/// Whether `texts` holds a text with the bytes of `text`.
fn holds_text(texts: &Vec<&str>, text: &str) -> (found: bool)
    ensures
        found == strs_bytes(texts@).contains(text.spec_bytes()),
{
    let mut i: usize = 0;
    while i < texts.len()
        invariant
            i <= texts@.len(),
            forall|k: int| 0 <= k < i ==> #[trigger] strs_bytes(texts@)[k] != text.spec_bytes(),
        decreases texts@.len() - i,
    {
        if same_text(texts[i], text) {
            assert(strs_bytes(texts@)[i as int] == text.spec_bytes());
            return true;
        }
        i += 1;
    }
    false
}

/// Whether a model answered for exactly the records it was sent: the record
/// identifiers it `returned` and those `expected` form the same set.
pub fn same_record_ids(returned: &Vec<&str>, expected: &Vec<&str>) -> (same: bool)
    ensures
        same == (strs_bytes(returned@).to_set() == strs_bytes(expected@).to_set()),
{
    let ghost r = strs_bytes(returned@);
    let ghost e = strs_bytes(expected@);
    let mut i: usize = 0;
    while i < returned.len()
        invariant
            i <= returned@.len(),
            r == strs_bytes(returned@),
            e == strs_bytes(expected@),
            forall|k: int| 0 <= k < i ==> e.contains(#[trigger] r[k]),
        decreases returned@.len() - i,
    {
        if !holds_text(expected, returned[i]) {
            proof {
                assert(r[i as int] == returned@[i as int].spec_bytes());
                assert(r.to_set().contains(r[i as int])) by {
                    assert(r.contains(r[i as int]));
                }
                assert(!e.to_set().contains(r[i as int]));
            }
            return false;
        }
        assert(r[i as int] == returned@[i as int].spec_bytes());
        i += 1;
    }
    let mut j: usize = 0;
    while j < expected.len()
        invariant
            j <= expected@.len(),
            r == strs_bytes(returned@),
            e == strs_bytes(expected@),
            forall|k: int| 0 <= k < r.len() ==> e.contains(#[trigger] r[k]),
            forall|k: int| 0 <= k < j ==> r.contains(#[trigger] e[k]),
        decreases expected@.len() - j,
    {
        if !holds_text(returned, expected[j]) {
            proof {
                assert(e[j as int] == expected@[j as int].spec_bytes());
                assert(e.to_set().contains(e[j as int])) by {
                    assert(e.contains(e[j as int]));
                }
                assert(!r.to_set().contains(e[j as int]));
            }
            return false;
        }
        assert(e[j as int] == expected@[j as int].spec_bytes());
        j += 1;
    }
    proof {
        assert forall|x: Seq<u8>| r.to_set().contains(x) <==> e.to_set().contains(x) by {
            if r.contains(x) {
                let k = choose|k: int| 0 <= k < r.len() && r[k] == x;
                assert(e.contains(r[k]));
            }
            if e.contains(x) {
                let k = choose|k: int| 0 <= k < e.len() && e[k] == x;
                assert(r.contains(e[k]));
            }
        }
        assert(r.to_set() =~= e.to_set());
    }
    true
}

} // verus!
