//! Splitting of CSV datasets held as text.
//!
//! Datasets arrive as one string holding a header line and records separated
//! by newlines. The functions here work on the UTF-8 bytes of that string:
//! newlines and commas are single bytes that never occur inside the encoding
//! of another character, so splitting on them never cuts a character apart.

use rand::Rng;
use vstd::prelude::*;
use vstd::string::*;
use vstd::utf8::*;

verus! {

broadcast use vstd::utf8::encode_utf8_valid_utf8;

/// The newline byte.
pub const NEWLINE: u8 = 10;

/// The comma byte.
pub const COMMA: u8 = 44;

/// The index of the first `sep` in `s`, or `s.len()` when there is none.
pub open spec fn find_byte(s: Seq<u8>, sep: u8) -> nat
    decreases s.len(),
{
    if s.len() == 0 {
        0
    } else if s[0] == sep {
        0
    } else {
        1 + find_byte(s.drop_first(), sep)
    }
}

/// The pieces of `s` between occurrences of `sep`, in order; `n` separators
/// give `n + 1` pieces, some of which may be empty.
pub open spec fn split_bytes(s: Seq<u8>, sep: u8) -> Seq<Seq<u8>>
    decreases s.len(),
{
    let k = find_byte(s, sep);
    if k >= s.len() {
        seq![s]
    } else {
        seq![s.take(k as int)] + split_bytes(s.skip(k + 1 as int), sep)
    }
}

/// The UTF-8 bytes of each string of a sequence.
pub open spec fn strs_bytes(v: Seq<&str>) -> Seq<Seq<u8>> {
    v.map_values(|s: &str| s.spec_bytes())
}

/// `find_byte` is the first index holding `sep`, when there is one.
proof fn lemma_find_byte(s: Seq<u8>, sep: u8, i: int)
    requires
        0 <= i <= s.len(),
        forall|j: int| 0 <= j < i ==> s[j] != sep,
        i == s.len() || s[i] == sep,
    ensures
        find_byte(s, sep) == i,
    decreases i,
{
    if i > 0 {
        lemma_find_byte(s.drop_first(), sep, i - 1);
    }
}

/// In valid UTF-8, the byte after an ASCII byte starts a character.
proof fn lemma_boundary_after_ascii(t: Seq<u8>)
    requires
        valid_utf8(t),
        t.len() >= 1,
        t[0] < 0x80,
    ensures
        is_char_boundary(t, 1),
{
    reveal_with_fuel(is_char_boundary, 2);
    assert(length_of_first_scalar(t) == 1);
    assert(valid_utf8(pop_first_scalar(t)));
}

/// The index of the first `sep` byte in `s`, or its byte length when there is
/// none.
pub fn find_in(s: &str, sep: u8) -> (k: usize)
    ensures
        k == find_byte(s.spec_bytes(), sep),
        k <= s.spec_bytes().len(),
        s.spec_bytes().len() <= usize::MAX,
{
    let bytes = s.as_bytes();
    let mut i: usize = 0;
    while i < bytes.len()
        invariant
            bytes@ == s.spec_bytes(),
            i <= bytes@.len(),
            forall|j: int| 0 <= j < i ==> bytes@[j] != sep,
        decreases bytes@.len() - i,
    {
        if bytes[i] == sep {
            proof {
                lemma_find_byte(bytes@, sep, i as int);
            }
            return i;
        }
        i += 1;
    }
    proof {
        lemma_find_byte(bytes@, sep, i as int);
    }
    i
}

/// Splits `data` at every occurrence of the ASCII byte `sep`, as `str::split`
/// does with that character, borrowing the pieces from `data`.
pub fn split_ascii(data: &str, sep: u8) -> (lines: Vec<&str>)
    requires
        sep < 0x80,
    ensures
        strs_bytes(lines@) == split_bytes(data.spec_bytes(), sep),
{
    let mut lines: Vec<&str> = Vec::new();
    let mut rest: &str = data;
    loop
        invariant
            sep < 0x80,
            strs_bytes(lines@) + split_bytes(rest.spec_bytes(), sep) == split_bytes(
                data.spec_bytes(),
                sep,
            ),
        decreases rest.spec_bytes().len(),
    {
        let k = find_in(rest, sep);
        let ghost rb = rest.spec_bytes();
        if k == rest.len() {
            proof {
                assert(strs_bytes(lines@.push(rest)) =~= strs_bytes(lines@).push(rb));
                assert(split_bytes(rb, sep) == seq![rb]);
                assert(strs_bytes(lines@).push(rb) =~= strs_bytes(lines@) + seq![rb]);
            }
            lines.push(rest);
            return lines;
        }
        proof {
            assert(rb[k as int] == sep) by {
                lemma_find_is_sep(rb, sep);
            }
            is_char_boundary_iff_not_is_continuation_byte(rb, k as int);
        }
        let (line, tail) = rest.split_at(k);
        proof {
            let tb = tail.spec_bytes();
            assert(tb =~= rb.subrange(k as int, rb.len() as int));
            assert(tb[0] == sep);
            lemma_boundary_after_ascii(tb);
        }
        let (_separator, after) = tail.split_at(1);
        proof {
            let ab = after.spec_bytes();
            assert(ab =~= rb.skip(k + 1 as int));
            assert(line.spec_bytes() =~= rb.take(k as int));
            assert(split_bytes(rb, sep) == seq![rb.take(k as int)] + split_bytes(ab, sep));
            assert(strs_bytes(lines@.push(line)) =~= strs_bytes(lines@) + seq![rb.take(k as int)]);
            assert(strs_bytes(lines@.push(line)) + split_bytes(ab, sep) =~= strs_bytes(lines@)
                + split_bytes(rb, sep));
        }
        lines.push(line);
        rest = after;
    }
}

/// Splits `data` at every newline, as `str::split('\n')` does, borrowing the
/// lines from `data`.
pub fn split_lines(data: &str) -> (lines: Vec<&str>)
    ensures
        strs_bytes(lines@) == split_bytes(data.spec_bytes(), NEWLINE),
{
    split_ascii(data, NEWLINE)
}

/// The byte at `find_byte`, when it is in range, is the separator.
proof fn lemma_find_is_sep(s: Seq<u8>, sep: u8)
    ensures
        find_byte(s, sep) <= s.len(),
        find_byte(s, sep) < s.len() ==> s[find_byte(s, sep) as int] == sep,
        forall|j: int| 0 <= j < find_byte(s, sep) ==> s[j] != sep,
    decreases s.len(),
{
    if s.len() > 0 && s[0] != sep {
        lemma_find_is_sep(s.drop_first(), sep);
        assert forall|j: int| 0 <= j < find_byte(s, sep) implies s[j] != sep by {
            if j > 0 {
                assert(s[j] == s.drop_first()[j - 1]);
            }
        }
    }
}


/// Splitting always gives at least one piece.
pub proof fn lemma_split_nonempty(s: Seq<u8>, sep: u8)
    ensures
        split_bytes(s, sep).len() >= 1,
    decreases s.len(),
{
    let k = find_byte(s, sep);
    if k < s.len() {
        lemma_split_nonempty(s.skip(k + 1 as int), sep);
    }
}

/// A record belongs to the prediction set when its last field is empty: the
/// record is empty or ends with a comma.
pub open spec fn is_prediction_record(record: Seq<u8>) -> bool {
    record.len() == 0 || record.last() == COMMA
}

/// The last piece of a split is empty exactly when the sequence is empty or
/// ends with the separator.
pub proof fn lemma_last_piece_empty(s: Seq<u8>, sep: u8)
    ensures
        split_bytes(s, sep).len() >= 1,
        split_bytes(s, sep).last().len() == 0 <==> (s.len() == 0 || s.last() == sep),
    decreases s.len(),
{
    lemma_split_nonempty(s, sep);
    lemma_find_is_sep(s, sep);
    let k = find_byte(s, sep);
    if k < s.len() {
        let rest = s.skip(k + 1 as int);
        lemma_last_piece_empty(rest, sep);
        let pieces = split_bytes(s, sep);
        assert(pieces == seq![s.take(k as int)] + split_bytes(rest, sep));
        assert(pieces.last() == split_bytes(rest, sep).last());
        if rest.len() > 0 {
            assert(rest.last() == s.last());
        } else {
            assert(s.last() == s[k as int]);
        }
    } else {
        assert(split_bytes(s, sep) == seq![s]);
        if s.len() > 0 {
            assert(s.last() == s[s.len() - 1]);
        }
    }
}

/// A record goes to the prediction set exactly when the last of its comma
/// separated fields is empty, whatever its other fields hold.
pub proof fn law_prediction_records_have_an_empty_last_field(record: Seq<u8>)
    ensures
        is_prediction_record(record) <==> split_bytes(record, COMMA).last().len() == 0,
{
    lemma_last_piece_empty(record, COMMA);
}

/// Selects the records of the prediction set.
pub open spec fn prediction_records() -> spec_fn(Seq<u8>) -> bool {
    |r: Seq<u8>| is_prediction_record(r)
}

/// Selects the records of the training set.
pub open spec fn training_records() -> spec_fn(Seq<u8>) -> bool {
    |r: Seq<u8>| !is_prediction_record(r)
}

/// The training and prediction sets of a dataset: each is the header line
/// followed, in order, by the records that belong to it.
pub open spec fn spec_train_and_predict(data: Seq<u8>) -> (Seq<Seq<u8>>, Seq<Seq<u8>>) {
    let lines = split_bytes(data, NEWLINE);
    let records = lines.drop_first();
    (
        seq![lines[0]] + records.filter(training_records()),
        seq![lines[0]] + records.filter(prediction_records()),
    )
}

/// Whether the last comma separated field of `record` is empty.
pub fn last_field_is_empty(record: &str) -> (empty: bool)
    ensures
        empty == is_prediction_record(record.spec_bytes()),
        empty == (split_bytes(record.spec_bytes(), COMMA).last().len() == 0),
{
    proof {
        law_prediction_records_have_an_empty_last_field(record.spec_bytes());
    }
    let bytes = record.as_bytes();
    bytes.len() == 0 || bytes[bytes.len() - 1] == COMMA
}

/// Infers the training and prediction data based on whether the last column
/// is empty.
///
/// Both results start with the header of the data, so that they can be used
/// on their own later on. No string is allocated: the lines are borrowed
/// from `data`.
pub fn infer_train_and_predict(data: &str) -> (sets: (Vec<&str>, Vec<&str>))
    ensures
        (strs_bytes(sets.0@), strs_bytes(sets.1@)) == spec_train_and_predict(data.spec_bytes()),
{
    let lines = split_lines(data);
    let ghost all = split_bytes(data.spec_bytes(), NEWLINE);
    proof {
        lemma_split_nonempty(data.spec_bytes(), NEWLINE);
        assert(strs_bytes(lines@).len() == lines@.len());
    }
    let header = lines[0];
    let mut train: Vec<&str> = Vec::new();
    let mut predict: Vec<&str> = Vec::new();
    train.push(header);
    predict.push(header);
    let mut i: usize = 1;
    while i < lines.len()
        invariant
            1 <= i <= lines@.len(),
            strs_bytes(lines@) == all,
            all.len() == lines@.len(),
            strs_bytes(train@) =~= seq![all[0]] + all.subrange(1, i as int).filter(
                training_records(),
            ),
            strs_bytes(predict@) =~= seq![all[0]] + all.subrange(1, i as int).filter(
                prediction_records(),
            ),
        decreases lines@.len() - i,
    {
        let record = lines[i];
        let ghost r = all[i as int];
        proof {
            assert(r == record.spec_bytes());
            assert(all.subrange(1, i + 1) =~= all.subrange(1, i as int).push(r));
            all.subrange(1, i as int).lemma_filter_push(r, training_records());
            all.subrange(1, i as int).lemma_filter_push(r, prediction_records());
        }
        let ghost old_train = train@;
        let ghost old_predict = predict@;
        if last_field_is_empty(record) {
            predict.push(record);
            proof {
                assert(strs_bytes(predict@) =~= strs_bytes(old_predict).push(r));
            }
        } else {
            train.push(record);
            proof {
                assert(strs_bytes(train@) =~= strs_bytes(old_train).push(r));
            }
        }
        i += 1;
    }
    proof {
        assert(all.subrange(1, i as int) =~= all.drop_first());
    }
    (train, predict)
}


/// Every record of a dataset goes to exactly one of the training and
/// prediction sets: together they hold as many records as the dataset.
pub proof fn law_records_partitioned(records: Seq<Seq<u8>>)
    ensures
        records.filter(training_records()).len() + records.filter(prediction_records()).len()
            == records.len(),
    decreases records.len(),
{
    if records.len() > 0 {
        let prefix = records.drop_last();
        law_records_partitioned(prefix);
        assert(records =~= prefix.push(records.last()));
        prefix.lemma_filter_push(records.last(), training_records());
        prefix.lemma_filter_push(records.last(), prediction_records());
    }
}

/// Both sets start with the header line; every further line of the
/// training set has a filled last field, every further line of the
/// prediction set an empty one, and together they hold every record.
pub proof fn law_sets_split_by_last_field(data: Seq<u8>)
    ensures
        ({
            let lines = split_bytes(data, NEWLINE);
            let (train, predict) = spec_train_and_predict(data);
            &&& train[0] == lines[0]
            &&& predict[0] == lines[0]
            &&& forall|i: int|
                1 <= i < train.len() ==> #[trigger] split_bytes(train[i], COMMA).last().len() != 0
            &&& forall|i: int|
                1 <= i < predict.len() ==> #[trigger] split_bytes(predict[i], COMMA).last().len()
                    == 0
            &&& train.len() + predict.len() == lines.len() + 1
        }),
{
    let lines = split_bytes(data, NEWLINE);
    lemma_split_nonempty(data, NEWLINE);
    let records = lines.drop_first();
    let (train, predict) = spec_train_and_predict(data);
    let tr = records.filter(training_records());
    let pr = records.filter(prediction_records());
    law_records_partitioned(records);
    assert forall|i: int| 1 <= i < train.len() implies #[trigger] split_bytes(train[i], COMMA).last().len()
        != 0 by {
        records.lemma_filter_pred(training_records(), i - 1);
        assert(train[i] == tr[i - 1]);
        law_prediction_records_have_an_empty_last_field(train[i]);
    }
    assert forall|i: int| 1 <= i < predict.len() implies #[trigger] split_bytes(
        predict[i],
        COMMA,
    ).last().len() == 0 by {
        records.lemma_filter_pred(prediction_records(), i - 1);
        assert(predict[i] == pr[i - 1]);
        law_prediction_records_have_an_empty_last_field(predict[i]);
    }
}

/// The pieces joined into one sequence with `sep` between neighbours.
pub open spec fn join_bytes(pieces: Seq<Seq<u8>>, sep: u8) -> Seq<u8>
    decreases pieces.len(),
{
    if pieces.len() == 0 {
        seq![]
    } else if pieces.len() == 1 {
        pieces[0]
    } else {
        join_bytes(pieces.drop_last(), sep) + seq![sep] + pieces.last()
    }
}

/// The number of characters in a record identifier.
pub const RECORD_ID_LEN: usize = 8;

/// Whether `c` is an ASCII letter or digit.
pub open spec fn is_ascii_alphanumeric(c: char) -> bool {
    ('a' <= c && c <= 'z') || ('A' <= c && c <= 'Z') || ('0' <= c && c <= '9')
}

/// Whether `id` is a well formed record identifier.
pub open spec fn is_record_id(id: Seq<char>) -> bool {
    &&& id.len() == RECORD_ID_LEN
    &&& forall|i: int| 0 <= i < id.len() ==> is_ascii_alphanumeric(#[trigger] id[i])
}

/// The UTF-8 bytes of each string of a sequence of owned strings.
pub open spec fn strings_bytes(v: Seq<String>) -> Seq<Seq<u8>> {
    v.map_values(|s: String| encode_utf8(s@))
}

/// Each line prefixed with its identifier and a comma.
pub open spec fn tag_lines(lines: Seq<Seq<u8>>, ids: Seq<Seq<u8>>) -> Seq<Seq<u8>> {
    Seq::new(lines.len(), |i: int| ids[i] + seq![COMMA] + lines[i])
}

/// Encoding a concatenation of characters concatenates their encodings.
pub proof fn lemma_encode_utf8_concat(a: Seq<char>, b: Seq<char>)
    ensures
        encode_utf8(a + b) == encode_utf8(a) + encode_utf8(b),
    decreases a.len(),
{
    if a.len() == 0 {
        assert(a + b =~= b);
        assert(encode_utf8(a) =~= Seq::<u8>::empty());
        assert(encode_utf8(a) + encode_utf8(b) =~= encode_utf8(b));
    } else {
        lemma_encode_utf8_concat(a.drop_first(), b);
        assert((a + b).drop_first() =~= a.drop_first() + b);
        assert((a + b)[0] == a[0]);
        assert(encode_utf8(a + b) =~= encode_scalar(a[0] as u32) + encode_utf8(a.drop_first() + b));
    }
}

/// The encoding of a one character string of an ASCII character is that
/// character's byte.
proof fn lemma_encode_ascii_char(c: char, b: u8)
    requires
        c as u32 == b as u32,
        b < 0x80,
    ensures
        encode_utf8(seq![c]) == seq![b],
{
    let v = c as u32;
    assert(v & 0x7F == v) by (bit_vector)
        requires
            v < 0x80,
    ;
    assert(seq![c].drop_first() =~= Seq::<char>::empty());
    assert(encode_utf8(seq![c]) =~= encode_scalar(v) + encode_utf8(Seq::<char>::empty()));
    assert(encode_utf8(seq![c]) =~= seq![b]);
}

/// Draws a string of `len` random ASCII letters and digits.
///
/// Calls `rand::thread_rng()` and samples `len` characters from
/// `rand::distributions::Alphanumeric`, whose documentation says that it
/// samples uniformly over `a-z`, `A-Z` and `0-9`. Which characters come out
/// is left unsaid: they are random.
#[verifier::external_body]
fn random_alphanumeric(len: usize) -> (s: String)
    ensures
        s@.len() == len,
        forall|i: int| 0 <= i < s@.len() ==> is_ascii_alphanumeric(#[trigger] s@[i]),
{
    rand::thread_rng().sample_iter(&rand::distributions::Alphanumeric).take(len).map(
        char::from,
    ).collect()
}

/// Prefixes every line of `dataset` with a fresh random record identifier
/// and a comma, returning the tagged dataset and the identifiers in line order.
///
/// When a CSV is sent to a client, the records carry these identifiers so that
/// the client's predictions can be matched up with them on their return.
pub fn generate_ids(dataset: String) -> (tagged: (String, Vec<String>))
    ensures
        tagged.1@.len() == split_bytes(encode_utf8(dataset@), NEWLINE).len(),
        forall|i: int| 0 <= i < tagged.1@.len() ==> is_record_id(#[trigger] tagged.1@[i]@),
        encode_utf8(tagged.0@) == join_bytes(
            tag_lines(split_bytes(encode_utf8(dataset@), NEWLINE), strings_bytes(tagged.1@)),
            NEWLINE,
        ),
{
    let lines = split_lines(dataset.as_str());
    let ghost all = split_bytes(encode_utf8(dataset@), NEWLINE);
    let mut record_ids: Vec<String> = Vec::new();
    let mut with_ids = String::new();
    let comma = ",";
    let newline = "\n";
    proof {
        reveal_strlit(",");
        reveal_strlit("\n");
        lemma_encode_ascii_char(',', COMMA);
        lemma_encode_ascii_char('\n', NEWLINE);
        assert(newline@ =~= seq!['\n']);
        assert(comma@ =~= seq![',']);
        assert(strs_bytes(lines@).len() == lines@.len());
        assert(tag_lines(all.take(0), strings_bytes(record_ids@)) =~= Seq::<Seq<u8>>::empty());
    }
    let mut i: usize = 0;
    while i < lines.len()
        invariant
            i <= lines@.len(),
            strs_bytes(lines@) == all,
            all.len() == lines@.len(),
            comma@ == seq![','],
            newline@ == seq!['\n'],
            encode_utf8(comma@) == seq![COMMA],
            encode_utf8(newline@) == seq![NEWLINE],
            record_ids@.len() == i,
            forall|j: int| 0 <= j < i ==> is_record_id(#[trigger] record_ids@[j]@),
            encode_utf8(with_ids@) == join_bytes(
                tag_lines(all.take(i as int), strings_bytes(record_ids@)),
                NEWLINE,
            ),
        decreases lines@.len() - i,
    {
        let id = random_alphanumeric(RECORD_ID_LEN);
        let ghost before = with_ids@;
        let ghost idb = encode_utf8(id@);
        let ghost lb = all[i as int];
        let ghost piece = idb + seq![COMMA] + lb;
        let ghost old_ids = record_ids@;
        if i > 0 {
            with_ids.append(newline);
        }
        let ghost mid = with_ids@;
        with_ids.append(id.as_str());
        with_ids.append(comma);
        with_ids.append(lines[i]);
        proof {
            assert(lines@[i as int].spec_bytes() == lb);
            lemma_encode_utf8_concat(mid, id@);
            lemma_encode_utf8_concat(mid + id@, comma@);
            lemma_encode_utf8_concat(mid + id@ + comma@, lines@[i as int]@);
            assert(with_ids@ =~= mid + id@ + comma@ + lines@[i as int]@);
            assert(encode_utf8(with_ids@) =~= encode_utf8(mid) + piece);
            if i > 0 {
                lemma_encode_utf8_concat(before, newline@);
                assert(mid =~= before + newline@);
                assert(encode_utf8(mid) =~= encode_utf8(before) + seq![NEWLINE]);
            } else {
                assert(mid =~= before);
            }
        }
        record_ids.push(id);
        proof {
            let new_tags = tag_lines(all.take(i + 1), strings_bytes(record_ids@));
            let old_tags = tag_lines(all.take(i as int), strings_bytes(old_ids));
            assert(record_ids@ =~= old_ids.push(id));
            assert(new_tags.drop_last() =~= old_tags);
            assert(new_tags.last() =~= piece);
            assert(new_tags.len() == i + 1);
            if i == 0 {
                assert(before =~= Seq::<char>::empty());
                assert(encode_utf8(before) =~= Seq::<u8>::empty());
                assert(join_bytes(new_tags, NEWLINE) == new_tags[0]);
            }
        }
        i += 1;
    }
    proof {
        assert(all.take(i as int) =~= all);
    }
    (with_ids, record_ids)
}


/// Joining a piece in front of at least one other piece puts a separator
/// between it and the join of the others.
pub proof fn lemma_join_prepend(a: Seq<u8>, rest: Seq<Seq<u8>>, sep: u8)
    requires
        rest.len() >= 1,
    ensures
        join_bytes(seq![a] + rest, sep) == a + seq![sep] + join_bytes(rest, sep),
    decreases rest.len(),
{
    let all = seq![a] + rest;
    if rest.len() == 1 {
        assert(all.drop_last() =~= seq![a]);
        assert(join_bytes(seq![a], sep) == a);
        assert(all.last() == rest[0]);
        assert(join_bytes(rest, sep) == rest[0]);
        assert(join_bytes(all, sep) =~= a + seq![sep] + rest[0]);
    } else {
        lemma_join_prepend(a, rest.drop_last(), sep);
        assert(all.drop_last() =~= seq![a] + rest.drop_last());
        assert(all.last() == rest.last());
        assert(join_bytes(all, sep) =~= a + seq![sep] + join_bytes(rest, sep));
    }
}

/// Joining the pieces of a split with the same separator gives back the
/// sequence that was split: splitting a dataset into lines loses nothing.
pub proof fn lemma_join_split(s: Seq<u8>, sep: u8)
    ensures
        join_bytes(split_bytes(s, sep), sep) == s,
    decreases s.len(),
{
    let k = find_byte(s, sep);
    lemma_find_is_sep(s, sep);
    if k < s.len() {
        let tail = s.skip(k + 1 as int);
        lemma_join_split(tail, sep);
        lemma_split_nonempty(tail, sep);
        lemma_join_prepend(s.take(k as int), split_bytes(tail, sep), sep);
        assert(s =~= s.take(k as int) + seq![sep] + tail);
    }
}

/// No piece of a split holds the separator.
pub proof fn lemma_split_pieces_lack_sep(s: Seq<u8>, sep: u8)
    ensures
        forall|i: int|
            0 <= i < split_bytes(s, sep).len() ==> !(#[trigger] split_bytes(s, sep)[i]).contains(
                sep,
            ),
    decreases s.len(),
{
    let k = find_byte(s, sep);
    lemma_find_is_sep(s, sep);
    let pieces = split_bytes(s, sep);
    if k < s.len() {
        let tail = s.skip(k + 1 as int);
        lemma_split_pieces_lack_sep(tail, sep);
        assert forall|i: int| 0 <= i < pieces.len() implies !(#[trigger] pieces[i]).contains(
            sep,
        ) by {
            if i == 0 {
                assert(pieces[0] == s.take(k as int));
                if s.take(k as int).contains(sep) {
                    let j = choose|j: int| 0 <= j < k && s.take(k as int)[j] == sep;
                    assert(s[j] == sep);
                }
            } else {
                assert(pieces[i] == split_bytes(tail, sep)[i - 1]);
            }
        }
    } else {
        assert forall|i: int| 0 <= i < pieces.len() implies !(#[trigger] pieces[i]).contains(
            sep,
        ) by {
            assert(pieces[i] == s);
            if s.contains(sep) {
                let j = choose|j: int| 0 <= j < s.len() && s[j] == sep;
                assert(s[j] == sep);
            }
        }
    }
}

/// Splitting a join of pieces that lack the separator gives back the pieces.
pub proof fn lemma_split_join(pieces: Seq<Seq<u8>>, sep: u8)
    requires
        pieces.len() >= 1,
        forall|i: int| 0 <= i < pieces.len() ==> !(#[trigger] pieces[i]).contains(sep),
    ensures
        split_bytes(join_bytes(pieces, sep), sep) == pieces,
    decreases pieces.len(),
{
    let a = pieces[0];
    assert(!pieces[0].contains(sep));
    assert forall|j: int| 0 <= j < a.len() implies a[j] != sep by {
        if a[j] == sep {
            assert(a.contains(sep));
        }
    }
    if pieces.len() == 1 {
        lemma_find_byte(a, sep, a.len() as int);
        assert(join_bytes(pieces, sep) == a);
        assert(split_bytes(a, sep) =~= pieces);
    } else {
        let rest = pieces.drop_first();
        assert(pieces =~= seq![a] + rest);
        assert forall|i: int| 0 <= i < rest.len() implies !(#[trigger] rest[i]).contains(sep) by {
            assert(rest[i] == pieces[i + 1]);
        }
        lemma_split_join(rest, sep);
        lemma_join_prepend(a, rest, sep);
        let joined = a + seq![sep] + join_bytes(rest, sep);
        lemma_find_byte(joined, sep, a.len() as int);
        assert(joined.take(a.len() as int) =~= a);
        assert(joined.skip(a.len() + 1 as int) =~= join_bytes(rest, sep));
        assert(split_bytes(joined, sep) =~= seq![a] + rest);
    }
}

/// The tagged dataset of `generate_ids` splits at its newlines into exactly
/// one line per record identifier: that identifier, a comma, then the
/// corresponding line of the untagged dataset, in the same order.
pub proof fn law_tagged_lines(dataset: Seq<u8>, ids: Seq<String>)
    requires
        ids.len() == split_bytes(dataset, NEWLINE).len(),
        forall|i: int| 0 <= i < ids.len() ==> is_record_id(#[trigger] ids[i]@),
    ensures
        split_bytes(
            join_bytes(tag_lines(split_bytes(dataset, NEWLINE), strings_bytes(ids)), NEWLINE),
            NEWLINE,
        ) == tag_lines(split_bytes(dataset, NEWLINE), strings_bytes(ids)),
{
    let lines = split_bytes(dataset, NEWLINE);
    let idb = strings_bytes(ids);
    let tags = tag_lines(lines, idb);
    lemma_split_nonempty(dataset, NEWLINE);
    lemma_split_pieces_lack_sep(dataset, NEWLINE);
    assert forall|i: int| 0 <= i < tags.len() implies !(#[trigger] tags[i]).contains(NEWLINE) by {
        let id = ids[i]@;
        assert(is_record_id(id));
        assert(is_ascii_chars(id)) by {
            assert forall|j: int| 0 <= j < id.len() implies '\0' <= #[trigger] id[j] <= '\u{7f}' by {
                assert(is_ascii_alphanumeric(id[j]));
            }
        }
        is_ascii_chars_encode_utf8(id);
        assert(idb[i] == encode_utf8(id));
        assert(!lines[i].contains(NEWLINE));
        let t = tags[i];
        assert(t == idb[i] + seq![COMMA] + lines[i]);
        if t.contains(NEWLINE) {
            let j = choose|j: int| 0 <= j < t.len() && t[j] == NEWLINE;
            if j < idb[i].len() {
                assert(id[j] as u8 == encode_utf8(id)[j]);
                assert(is_ascii_alphanumeric(id[j]));
            } else if j > idb[i].len() {
                assert(lines[i][j - idb[i].len() - 1] == NEWLINE);
                assert(lines[i].contains(NEWLINE));
            }
        }
    }
    lemma_split_join(tags, NEWLINE);
}


/// Joins lines into one text with a newline between neighbours, as
/// `[&str]::join("\n")` does.
pub fn join_lines(lines: &Vec<&str>) -> (joined: String)
    ensures
        encode_utf8(joined@) == join_bytes(strs_bytes(lines@), NEWLINE),
{
    let mut joined = String::new();
    let newline = "\n";
    proof {
        reveal_strlit("\n");
        lemma_encode_ascii_char('\n', NEWLINE);
        assert(newline@ =~= seq!['\n']);
        assert(strs_bytes(lines@.take(0)) =~= Seq::<Seq<u8>>::empty());
        assert(encode_utf8(joined@) =~= Seq::<u8>::empty());
    }
    let mut i: usize = 0;
    while i < lines.len()
        invariant
            i <= lines@.len(),
            newline@ == seq!['\n'],
            encode_utf8(newline@) == seq![NEWLINE],
            encode_utf8(joined@) == join_bytes(strs_bytes(lines@.take(i as int)), NEWLINE),
        decreases lines@.len() - i,
    {
        let ghost before = joined@;
        if i > 0 {
            joined.append(newline);
        }
        let ghost mid = joined@;
        joined.append(lines[i]);
        proof {
            let prev = strs_bytes(lines@.take(i as int));
            let next = strs_bytes(lines@.take(i + 1));
            let line = lines@[i as int].spec_bytes();
            assert(next =~= prev.push(line));
            assert(next.drop_last() =~= prev);
            lemma_encode_utf8_concat(mid, lines@[i as int]@);
            assert(joined@ =~= mid + lines@[i as int]@);
            if i > 0 {
                lemma_encode_utf8_concat(before, newline@);
                assert(mid =~= before + newline@);
                assert(encode_utf8(joined@) =~= join_bytes(prev, NEWLINE) + seq![NEWLINE] + line);
            } else {
                assert(mid =~= before);
                assert(before =~= Seq::<char>::empty());
                assert(encode_utf8(before) =~= Seq::<u8>::empty());
                assert(encode_utf8(joined@) =~= line);
                assert(join_bytes(next, NEWLINE) == next[0]);
            }
        }
        i += 1;
    }
    proof {
        assert(lines@.take(i as int) =~= lines@);
    }
    joined
}

/// The lines of a training set followed by the records of a prediction
/// set, whose header line is the same and is dropped.
pub open spec fn merged_lines(train: Seq<u8>, predict: Seq<u8>) -> Seq<Seq<u8>> {
    split_bytes(train, NEWLINE) + split_bytes(predict, NEWLINE).drop_first()
}

/// Puts a project's training and prediction sets back together into one
/// dataset: the training set's lines, then the prediction set's records
/// without its header.
pub fn merge_datasets(train: &str, predict: &str) -> (merged: String)
    ensures
        encode_utf8(merged@) == join_bytes(merged_lines(train.spec_bytes(), predict.spec_bytes()), NEWLINE),
{
    let mut lines = split_lines(train);
    let records = split_lines(predict);
    let ghost first = strs_bytes(lines@);
    let ghost second = strs_bytes(records@);
    proof {
        lemma_split_nonempty(predict.spec_bytes(), NEWLINE);
        assert(second.len() == records@.len());
    }
    let mut i: usize = 1;
    while i < records.len()
        invariant
            1 <= i <= records@.len(),
            second == strs_bytes(records@),
            second == split_bytes(predict.spec_bytes(), NEWLINE),
            strs_bytes(lines@) == first + second.subrange(1, i as int),
        decreases records@.len() - i,
    {
        let ghost old_lines = lines@;
        lines.push(records[i]);
        proof {
            assert(strs_bytes(lines@) =~= strs_bytes(old_lines).push(records@[i as int].spec_bytes()));
            assert(second.subrange(1, i + 1) =~= second.subrange(1, i as int).push(second[i as int]));
        }
        i += 1;
    }
    proof {
        assert(second.subrange(1, i as int) =~= second.drop_first());
    }
    join_lines(&lines)
}

/// The number of rows stored together in one chunk of a dataset.
pub const CHUNK_SIZE: usize = 100;

/// The index of the chunk holding row `min_row`, for chunks of `chunk_size`
/// rows.
pub open spec fn lower_chunk(min_row: nat, chunk_size: nat) -> nat {
    min_row / chunk_size
}

/// The last chunk index to fetch for rows `min_row..=max_row`: the chunk
/// after the one reached by counting the rows' span in whole chunks from the
/// lower chunk.
pub open spec fn upper_chunk(min_row: nat, max_row: nat, chunk_size: nat) -> nat {
    lower_chunk(min_row, chunk_size) + ((max_row - min_row) as nat) / chunk_size + 1
}

/// Calculates the chunks to fetch for the rows `min_row..=max_row` of a
/// dataset stored in chunks of `chunk_size` rows.
///
/// Returns the chunk indices `0..=upper`, where `upper` is the lower chunk
/// plus the number of whole chunks the rows span plus one, together with the
/// lower chunk, the one holding `min_row`.
pub fn chunk_calculate(min_row: usize, max_row: usize, chunk_size: usize) -> (chunks: (
    Vec<usize>,
    usize,
))
    requires
        chunk_size > 0,
        min_row <= max_row,
        upper_chunk(min_row as nat, max_row as nat, chunk_size as nat) < usize::MAX,
    ensures
        chunks.1 == lower_chunk(min_row as nat, chunk_size as nat),
        chunks.0@.len() == upper_chunk(min_row as nat, max_row as nat, chunk_size as nat) + 1,
        forall|i: int| 0 <= i < chunks.0@.len() ==> #[trigger] chunks.0@[i] == i,
{
    let lower = min_row / chunk_size;
    let upper = lower + (max_row - min_row) / chunk_size + 1;
    let mut chunk_vec: Vec<usize> = Vec::new();
    let mut i: usize = 0;
    while i <= upper
        invariant
            i <= upper + 1,
            upper < usize::MAX,
            chunk_vec@.len() == i,
            forall|j: int| 0 <= j < i ==> #[trigger] chunk_vec@[j] == j,
        decreases upper + 1 - i,
    {
        chunk_vec.push(i);
        i += 1;
    }
    (chunk_vec, lower)
}

} // verus!
