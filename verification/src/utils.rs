//! Regrouping of request data and decoding of hex-encoded, zlib-compressed
//! payloads.
use vstd::prelude::*;

use std::io::Read;
use vstd::string::StringSliceAdditionalSpecFns;

use crate::text::{
    flat, join, join_strings, law_split_inverts_join, lemma_flat_keeps_pieces, lemma_join_of_joins,
    lemma_join_split_replaces, replace_char, split, split_parts, views,
};

verus! {

/// Error text of `group_by` for an empty input list.
pub open spec fn empty_input_message() -> Seq<char> {
    "empty array"@
}

/// Error text of `group_by` for an element with more pieces than the first.
pub open spec fn too_many_segments_message() -> Seq<char> {
    "an element has more segments than the first element"@
}

/// Each element of `input` split at `sep`.
pub open spec fn rows_of(input: Seq<String>, sep: char) -> Seq<Seq<Seq<char>>> {
    input.map_values(|s: String| split_parts(s@, sep))
}

/// The `i`-th pieces of the rows that have one, in row order.
pub open spec fn column(rows: Seq<Seq<Seq<char>>>, i: int) -> Seq<Seq<char>>
    decreases rows.len(),
{
    if rows.len() == 0 {
        Seq::<Seq<char>>::empty()
    } else {
        let prev = column(rows.drop_last(), i);
        if 0 <= i < rows.last().len() {
            prev.push(rows.last()[i])
        } else {
            prev
        }
    }
}

/// Number of places: the `sep`-separated pieces of the first element.
pub open spec fn segment_count(input: Seq<String>, sep: char) -> nat {
    split_parts(input[0]@, sep).len()
}

/// Whether some element splits into more pieces than there are segments.
pub open spec fn has_overlong_row(input: Seq<String>, sep: char) -> bool {
    exists|j: int| 0 <= j < input.len() && #[trigger] split_parts(input[j]@, sep).len()
        > segment_count(input, sep)
}

/// The grouped text: segment by segment, each segment's pieces in element
/// order, everything separated by single spaces.
pub open spec fn grouped_text(input: Seq<String>, sep: char) -> Seq<char> {
    let rows = rows_of(input, sep);
    join(
        Seq::new(segment_count(input, sep), |i: int| join(column(rows, i), " "@)),
        " "@,
    )
}

/// What `group_by` gives back for `input` and `sep`.
pub open spec fn group_by_result(input: Seq<String>, sep: char) -> Result<Seq<char>, Seq<char>> {
    if input.len() == 0 {
        Err(empty_input_message())
    } else if has_overlong_row(input, sep) {
        Err(too_many_segments_message())
    } else {
        Ok(grouped_text(input, sep))
    }
}

/// A `Result` of owned strings, by the views of its strings.
pub open spec fn result_view(r: Result<String, String>) -> Result<Seq<char>, Seq<char>> {
    match r {
        Ok(s) => Ok(s@),
        Err(e) => Err(e@),
    }
}

/// Groups the elements of `input` by their place in a `separator`-separated
/// list: with `','`, `["a1,b1,c1 d1", "a2,b2,c2 d2"]` gives
/// `"a1 a2 b1 b2 c1 d1 c2 d2"`. The number of places is the number of
/// pieces of the first element; an element with more pieces than that is
/// rejected.
pub fn group_by(input: Vec<String>, separator: char) -> (res: Result<String, String>)
    ensures
        result_view(res) == group_by_result(input@, separator),
{
    if input.len() == 0 {
        return Err(String::from_str("empty array"));
    }
    let first = split(input[0].as_str(), separator);
    let segments_count = first.len();
    let ghost rows = rows_of(input@, separator);

    let mut all_rows: Vec<Vec<String>> = Vec::new();
    let mut j: usize = 0;
    while j < input.len()
        invariant
            segments_count == segment_count(input@, separator),
            rows == rows_of(input@, separator),
            j <= input.len(),
            all_rows@.len() == j,
            forall|k: int| 0 <= k < j ==> views(#[trigger] all_rows@[k]@) == rows[k],
            forall|k: int| 0 <= k < j ==> rows[k].len() <= segments_count,
        decreases input.len() - j,
    {
        let parts = split(input[j].as_str(), separator);
        if parts.len() > segments_count {
            proof {
                assert(split_parts(input@[j as int]@, separator).len() > segment_count(input@, separator));
            }
            return Err(String::from_str("an element has more segments than the first element"));
        }
        all_rows.push(parts);
        j = j + 1;
    }
    assert(!has_overlong_row(input@, separator)) by {
        assert forall|k: int| 0 <= k < input@.len() implies !(
        #[trigger] split_parts(input@[k]@, separator).len() > segment_count(input@, separator)) by {
            assert(rows[k] == split_parts(input@[k]@, separator));
        }
    }

    let mut joined: Vec<String> = Vec::new();
    let mut i: usize = 0;
    while i < segments_count
        invariant
            segments_count == segment_count(input@, separator),
            rows == rows_of(input@, separator),
            all_rows@.len() == input@.len(),
            forall|k: int| 0 <= k < input@.len() ==> views(#[trigger] all_rows@[k]@) == rows[k],
            i <= segments_count,
            joined@.len() == i,
            forall|c: int| 0 <= c < i ==> #[trigger] joined@[c]@ == join(column(rows, c), " "@),
        decreases segments_count - i,
    {
        let mut col: Vec<String> = Vec::new();
        let mut k: usize = 0;
        while k < all_rows.len()
            invariant
                all_rows@.len() == rows.len(),
                forall|r: int| 0 <= r < rows.len() ==> views(#[trigger] all_rows@[r]@) == rows[r],
                k <= all_rows@.len(),
                views(col@) == column(rows.take(k as int), i as int),
            decreases all_rows@.len() - k,
        {
            proof {
                assert(rows.take(k + 1).drop_last() =~= rows.take(k as int));
                assert(rows.take(k + 1).last() == rows[k as int]);
            }
            let row = &all_rows[k];
            if i < row.len() {
                proof {
                    assert(views(row@)[i as int] == row@[i as int]@);
                }
                col.push(row[i].clone());
                assert(views(col@) =~= column(rows.take(k + 1), i as int));
            }
            k = k + 1;
        }
        assert(rows.take(rows.len() as int) =~= rows);
        let s = join_strings(&col, " ");
        joined.push(s);
        i = i + 1;
    }
    let result = join_strings(&joined, " ");
    assert(views(joined@) =~= Seq::new(
        segment_count(input@, separator),
        |c: int| join(column(rows, c), " "@),
    ));
    Ok(result)
}


/// Grouping a single element puts each of its pieces in a place of its own:
/// the result is the element with its separators turned into spaces.
pub proof fn law_group_single_element(s: String, sep: char)
    ensures
        group_by_result(seq![s], sep) == Ok::<Seq<char>, Seq<char>>(replace_char(s@, sep, ' ')),
{
    let input = seq![s];
    let parts = split_parts(s@, sep);
    let rows = rows_of(input, sep);
    assert(rows =~= seq![parts]);
    assert(!has_overlong_row(input, sep)) by {
        assert forall|j: int| 0 <= j < input.len() implies !(#[trigger] split_parts(input[j]@, sep).len()
            > segment_count(input, sep)) by {
            assert(input[j] == s);
        }
    }
    assert(input[0] == s);
    let cols = Seq::new(segment_count(input, sep), |i: int| join(column(rows, i), " "@));
    assert forall|i: int| 0 <= i < cols.len() implies cols[i] == parts[i] by {
        assert(input[0] == s);
        assert(rows.drop_last() =~= Seq::<Seq<Seq<char>>>::empty());
        assert(column(rows.drop_last(), i) =~= Seq::<Seq<char>>::empty());
        assert(rows.last() == parts);
        assert(column(rows, i) =~= seq![parts[i]]);
    }
    assert(cols =~= parts);
    reveal_strlit(" ");
    assert(" "@ =~= seq![' ']);
    lemma_join_split_replaces(s@, sep, ' ');
}

/// A place that some row has a piece for has a non-empty column.
proof fn lemma_column_nonempty(rows: Seq<Seq<Seq<char>>>, i: int, r: int)
    requires
        0 <= r < rows.len(),
        0 <= i < rows[r].len(),
    ensures
        column(rows, i).len() >= 1,
    decreases rows.len(),
{
    if r < rows.len() - 1 {
        lemma_column_nonempty(rows.drop_last(), i, r);
        assert(rows.drop_last()[r] == rows[r]);
    }
}

/// A character that no piece of the rows holds is in no piece of a column.
proof fn lemma_column_keeps_pieces(rows: Seq<Seq<Seq<char>>>, i: int, c: char)
    requires
        forall|j: int, k: int|
            0 <= j < rows.len() && 0 <= k < rows[j].len() ==> !(#[trigger] rows[j][k]).contains(c),
    ensures
        forall|k: int| 0 <= k < column(rows, i).len() ==> !(#[trigger] column(rows, i)[k]).contains(c),
    decreases rows.len(),
{
    if rows.len() > 0 {
        let init = rows.drop_last();
        assert forall|j: int, k: int| 0 <= j < init.len() && 0 <= k < init[j].len() implies !(
        #[trigger] init[j][k]).contains(c) by {
            assert(init[j] == rows[j]);
        }
        lemma_column_keeps_pieces(init, i, c);
        let col = column(rows, i);
        assert forall|k: int| 0 <= k < col.len() implies !(#[trigger] col[k]).contains(c) by {
            if k < column(init, i).len() {
                assert(col[k] == column(init, i)[k]);
            } else {
                assert(col[k] == rows[rows.len() - 1][i]);
            }
        }
    }
}

/// The pieces of the elements, place by place: first every element's first
/// piece, then every second piece, and so on.
pub open spec fn pieces_by_place(input: Seq<String>, sep: char) -> Seq<Seq<char>> {
    flat(Seq::new(segment_count(input, sep), |i: int| column(rows_of(input, sep), i)))
}

/// Splitting the grouped text at spaces gives back the pieces of the
/// elements place by place, when no piece holds a space: the witness
/// arguments of a request are its data pieces, grouped by place.
pub proof fn law_grouped_text_splits_into_pieces(input: Seq<String>, sep: char)
    requires
        input.len() >= 1,
        forall|j: int, k: int|
            0 <= j < input.len() && 0 <= k < split_parts(input[j]@, sep).len() ==> !(
            #[trigger] split_parts(input[j]@, sep)[k]).contains(' '),
    ensures
        split_parts(grouped_text(input, sep), ' ') == pieces_by_place(input, sep),
{
    let rows = rows_of(input, sep);
    let n = segment_count(input, sep);
    let cols = Seq::new(n, |i: int| column(rows, i));
    assert(rows[0] == split_parts(input[0]@, sep));
    assert forall|j: int, k: int| 0 <= j < rows.len() && 0 <= k < rows[j].len() implies !(
    #[trigger] rows[j][k]).contains(' ') by {
        assert(rows[j] == split_parts(input[j]@, sep));
    }
    assert forall|i: int| 0 <= i < cols.len() implies (#[trigger] cols[i]).len() >= 1 by {
        lemma_column_nonempty(rows, i, 0);
    }
    assert forall|i: int, k: int| 0 <= i < cols.len() && 0 <= k < cols[i].len() implies !(
    #[trigger] cols[i][k]).contains(' ') by {
        lemma_column_keeps_pieces(rows, i, ' ');
    }
    reveal_strlit(" ");
    assert(" "@ =~= seq![' ']);
    lemma_join_of_joins(cols, seq![' ']);
    assert(Seq::new(cols.len(), |i: int| join(cols[i], seq![' '])) =~= Seq::new(
        n,
        |i: int| join(column(rows, i), " "@),
    ));
    crate::text::lemma_split_parts_nonempty(input[0]@, sep);
    lemma_flat_keeps_pieces(cols, ' ');
    law_split_inverts_join(flat(cols), ' ');
}

/// Whether `b` is an ASCII hex digit (either case).
pub open spec fn is_hex_byte(b: u8) -> bool {
    (0x30 <= b <= 0x39) || (0x41 <= b <= 0x46) || (0x61 <= b <= 0x66)
}

/// The value of the ASCII hex digit `b`.
pub open spec fn hex_byte_value(b: u8) -> int {
    if 0x30 <= b <= 0x39 {
        b - 0x30
    } else if 0x41 <= b <= 0x46 {
        b - 0x41 + 10
    } else {
        b - 0x61 + 10
    }
}

/// The bytes that the hex digit pairs of `text` stand for.
pub open spec fn hex_pairs_value(text: Seq<u8>) -> Seq<u8> {
    Seq::new(
        text.len() / 2,
        |i: int| (hex_byte_value(text[2 * i]) * 16 + hex_byte_value(text[2 * i + 1])) as u8,
    )
}

/// Whether every byte of `text` is an ASCII hex digit.
pub open spec fn all_hex_bytes(text: Seq<u8>) -> bool {
    forall|i: int| 0 <= i < text.len() ==> is_hex_byte(#[trigger] text[i])
}

/// The error text that `hex::decode` gives for an even-length input holding a
/// byte that is not a hex digit (it names that byte and its position).
pub uninterp spec fn hex_invalid_character_message(text: Seq<u8>) -> Seq<char>;

/// What `hex::decode` gives for the bytes `text`, its error shown as text.
pub open spec fn hex_decode_result(text: Seq<u8>) -> Result<Seq<u8>, Seq<char>> {
    if text.len() % 2 != 0 {
        Err("Odd number of digits"@)
    } else if !all_hex_bytes(text) {
        Err(hex_invalid_character_message(text))
    } else {
        Ok(hex_pairs_value(text))
    }
}

/// What zlib decompression (`flate2::read::ZlibDecoder` read to the end)
/// gives for `data`, its I/O error shown as text.
pub uninterp spec fn zlib_inflate(data: Seq<u8>) -> Result<Seq<u8>, Seq<char>>;

/// A `Result` of bytes and a text error, by views.
pub open spec fn bytes_result_view(r: Result<Vec<u8>, String>) -> Result<Seq<u8>, Seq<char>> {
    match r {
        Ok(v) => Ok(v@),
        Err(e) => Err(e@),
    }
}

/// A failure with the text `e`.
pub open spec fn text_error(e: Seq<char>) -> Result<Seq<u8>, Seq<char>> {
    Err(e)
}

/// A success with the bytes `b`.
pub open spec fn bytes_ok(b: Seq<u8>) -> Result<Seq<u8>, Seq<char>> {
    Ok(b)
}

/// `hex::decode` on the UTF-8 bytes of `s`, with the error turned into its
/// `Display` text. Claimed: an odd byte count gives "Odd number of digits";
/// otherwise a byte outside `0-9a-fA-F` gives an error (its text is named,
/// not spelled out); otherwise each pair of digits becomes one byte, high
/// digit first.
#[verifier::external_body]
fn hex_decode(s: &str) -> (res: Result<Vec<u8>, String>)
    ensures
        s.spec_bytes().len() % 2 != 0 ==> bytes_result_view(res) == text_error(
            "Odd number of digits"@,
        ),
        s.spec_bytes().len() % 2 == 0 && !all_hex_bytes(s.spec_bytes()) ==> bytes_result_view(res)
            == text_error(hex_invalid_character_message(s.spec_bytes())),
        s.spec_bytes().len() % 2 == 0 && all_hex_bytes(s.spec_bytes()) ==> bytes_result_view(res)
            == bytes_ok(hex_pairs_value(s.spec_bytes())),
{
    hex::decode(s).map_err(|e| e.to_string())
}

/// Reads `flate2::read::ZlibDecoder::new(data)` to its end with
/// `std::io::Read::read_to_end`. Claimed: the outcome, bytes or the I/O
/// error's text, is `zlib_inflate(data)`, a function of `data` alone.
#[verifier::external_body]
fn zlib_decompress(data: &[u8]) -> (res: Result<Vec<u8>, String>)
    ensures
        bytes_result_view(res) == zlib_inflate(data@),
{
    let mut out = Vec::new();
    match flate2::read::ZlibDecoder::new(data).read_to_end(&mut out) {
        Ok(_) => Ok(out),
        Err(e) => Err(e.to_string()),
    }
}

/// What `convert_zlib_hex_to_bytes` gives for the UTF-8 bytes `text`.
pub open spec fn zlib_hex_result(text: Seq<u8>) -> Result<Seq<u8>, Seq<char>> {
    match hex_decode_result(text) {
        Err(e) => Err("couldn't convert hex string to bytes "@ + e),
        Ok(bytes) => match zlib_inflate(bytes) {
            Err(e) => Err("couldn't decompress string "@ + e),
            Ok(out) => Ok(out),
        },
    }
}

/// Decodes `hex_str` from hex to zlib-compressed bytes and decompresses them.
pub fn convert_zlib_hex_to_bytes(hex_str: &str) -> (res: Result<Vec<u8>, String>)
    ensures
        bytes_result_view(res) == zlib_hex_result(hex_str.spec_bytes()),
{
    let bytes = match hex_decode(hex_str) {
        Ok(bytes) => bytes,
        Err(e) => {
            return Err(String::from_str("couldn't convert hex string to bytes ").concat(e.as_str()));
        },
    };
    match zlib_decompress(bytes.as_slice()) {
        Ok(out) => Ok(out),
        Err(e) => Err(String::from_str("couldn't decompress string ").concat(e.as_str())),
    }
}

/// The hex digit character for `d` (below 16), upper or lower case.
pub open spec fn hex_digit_char(d: int, upper: bool) -> char {
    if d < 10 {
        (48 + d) as char
    } else if upper {
        (55 + d) as char
    } else {
        (87 + d) as char
    }
}

/// `data` as hex text, two digits per byte, high digit first.
pub open spec fn hex_text(data: Seq<u8>, upper: bool) -> Seq<char> {
    Seq::new(
        2 * data.len(),
        |i: int|
            if i % 2 == 0 {
                hex_digit_char(data[i / 2] as int / 16, upper)
            } else {
                hex_digit_char(data[i / 2] as int % 16, upper)
            },
    )
}

/// A hex digit character is ASCII, and its byte reads back as the digit.
proof fn lemma_hex_digit_char(d: int, upper: bool)
    requires
        0 <= d < 16,
    ensures
        (hex_digit_char(d, upper) as u32) < 128,
        is_hex_byte(hex_digit_char(d, upper) as u8),
        hex_byte_value(hex_digit_char(d, upper) as u8) == d,
{
}

/// Decoding the hex text of a zlib stream hands the stream to zlib: the hex
/// step of `convert_zlib_hex_to_bytes` undoes hex encoding, in either case.
pub proof fn law_hex_payload_reads_back(z: Seq<u8>, upper: bool)
    ensures
        hex_decode_result(vstd::utf8::encode_utf8(hex_text(z, upper))) == bytes_ok(z),
        zlib_hex_result(vstd::utf8::encode_utf8(hex_text(z, upper))) == match zlib_inflate(z) {
            Ok(b) => bytes_ok(b),
            Err(e) => text_error("couldn't decompress string "@ + e),
        },
{
    let t = hex_text(z, upper);
    assert forall|i: int| 0 <= i < t.len() implies '\0' <= #[trigger] t[i] <= '\u{7f}' by {
        if i % 2 == 0 {
            lemma_hex_digit_char(z[i / 2] as int / 16, upper);
        } else {
            lemma_hex_digit_char(z[i / 2] as int % 16, upper);
        }
    }
    vstd::utf8::is_ascii_chars_encode_utf8(t);
    let b = vstd::utf8::encode_utf8(t);
    assert forall|i: int| 0 <= i < b.len() implies is_hex_byte(#[trigger] b[i]) by {
        assert(b[i] == t[i] as u8);
        if i % 2 == 0 {
            lemma_hex_digit_char(z[i / 2] as int / 16, upper);
        } else {
            lemma_hex_digit_char(z[i / 2] as int % 16, upper);
        }
    }
    assert(b.len() % 2 == 0);
    assert forall|i: int| 0 <= i < z.len() implies #[trigger] hex_pairs_value(b)[i] == z[i] by {
        assert(b[2 * i] == t[2 * i] as u8);
        assert(b[2 * i + 1] == t[2 * i + 1] as u8);
        assert((2 * i) / 2 == i);
        assert((2 * i + 1) / 2 == i);
        assert((2 * i) % 2 == 0);
        assert((2 * i + 1) % 2 == 1);
        lemma_hex_digit_char(z[i] as int / 16, upper);
        lemma_hex_digit_char(z[i] as int % 16, upper);
    }
    assert(hex_pairs_value(b) =~= z);
}

/// What `convert` gives for the UTF-8 bytes `text` of a payload named `context`.
pub open spec fn convert_result(text: Seq<u8>, context: Seq<char>) -> Result<Seq<u8>, Seq<char>> {
    match zlib_hex_result(text) {
        Ok(out) => Ok(out),
        Err(e) => Err(
            "couldn't decode project_config "@ + context + ". should have been handled prior "@ + e,
        ),
    }
}

/// Decodes a hex, zlib-compressed payload named `context`; a failure is
/// reported with the payload's name, as an invalid-argument message.
pub fn convert(input: &str, context: &str) -> (res: Result<Vec<u8>, String>)
    ensures
        bytes_result_view(res) == convert_result(input.spec_bytes(), context@),
{
    match convert_zlib_hex_to_bytes(input) {
        Ok(out) => Ok(out),
        Err(e) => {
            let msg = String::from_str("couldn't decode project_config ").concat(context).concat(
                ". should have been handled prior ",
            ).concat(e.as_str());
            Err(msg)
        },
    }
}

/// A non-empty input is rejected exactly when some element has more pieces
/// than the first element; the rejection names that.
pub proof fn law_group_by_rejects_exactly_longer_elements(input: Seq<String>, sep: char)
    requires
        input.len() >= 1,
    ensures
        group_by_result(input, sep) is Err <==> exists|j: int|
            0 <= j < input.len() && #[trigger] split_parts(input[j]@, sep).len() > split_parts(
                input[0]@,
                sep,
            ).len(),
        group_by_result(input, sep) is Err ==> group_by_result(input, sep) == Err::<
            Seq<char>,
            Seq<char>,
        >(too_many_segments_message()),
{
}

/// `convert` hands on the whole decoded payload: when the text is an even
/// number of hex digits and zlib inflates the bytes they spell to `b`, the
/// result is exactly `b`, however long; when zlib fails, the failure is
/// reported with the payload's name.
pub proof fn law_convert_passes_full_payload(text: Seq<u8>, context: Seq<char>, b: Seq<u8>)
    ensures
        text.len() % 2 == 0 && all_hex_bytes(text) && zlib_inflate(hex_pairs_value(text)) == bytes_ok(b)
            ==> zlib_hex_result(text) == bytes_ok(b) && convert_result(text, context) == bytes_ok(b),
        zlib_hex_result(text) == bytes_ok(b) ==> convert_result(text, context) == bytes_ok(b),
        (convert_result(text, context) is Ok) == (text.len() % 2 == 0 && all_hex_bytes(text)
            && zlib_inflate(hex_pairs_value(text)) is Ok),
        convert_result(text, context) matches Ok(out) ==> zlib_inflate(hex_pairs_value(text))
            == bytes_ok(out),
{
}

} // verus!
