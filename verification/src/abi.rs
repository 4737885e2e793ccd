//! Assembly of Solidity ABI argument values from the JSON form of a proof.
//!
//! A JSON value is held as a `JsonNode`: its compact JSON text, and for an
//! array its items, for an object its keys and values in iteration order.
//! An ABI parameter is held as an `AbiParam`: its type string and the
//! parameters of its components. What comes out is a `SolValue`: 256-bit
//! unsigned integers, tuples and fixed-size arrays.
use vstd::prelude::*;

verus! {

/// A JSON value, with its compact JSON text (`serde_json::Value::to_string`).
pub enum JsonNode {
    /// An array, with its items in order.
    Array { text: String, items: Vec<JsonNode> },
    /// An object; `keys[i]` names `values[i]`, in the map's iteration order.
    Object { text: String, keys: Vec<String>, values: Vec<JsonNode> },
    /// Any other value (null, boolean, number, string).
    Scalar { text: String },
}

/// An ABI parameter: its type string (such as `uint256`, `uint256[2]` or
/// `tuple`) and the parameters of its components.
pub struct AbiParam {
    pub ty: String,
    pub components: Vec<AbiParam>,
}

/// A Solidity value: a `uint256` as four little-endian 64-bit limbs, a tuple,
/// or a fixed-size array.
pub enum SolValue {
    Uint([u64; 4]),
    Tuple(Vec<SolValue>),
    FixedArray(Vec<SolValue>),
}

/// The four little-endian 64-bit limbs of a 256-bit unsigned integer.
pub type Limbs = [u64; 4];

/// The mathematical form of a `SolValue`.
pub enum SolSpec {
    Uint(int),
    Tuple(Seq<SolSpec>),
    FixedArray(Seq<SolSpec>),
}

/// 2^256.
pub open spec fn u256_limit() -> int {
    0x1_0000_0000_0000_0000_0000_0000_0000_0000_0000_0000_0000_0000_0000_0000_0000_0000int
}

/// The number that four little-endian 64-bit limbs stand for.
pub open spec fn limbs_value(l: [u64; 4]) -> int {
    l@[0] + l@[1] * 0x1_0000_0000_0000_0000int + l@[2] * 0x1_0000_0000_0000_0000_0000_0000_0000_0000int
        + l@[3] * 0x1_0000_0000_0000_0000_0000_0000_0000_0000_0000_0000_0000_0000int
}

/// The mathematical form of `v`.
pub open spec fn sol_view(v: SolValue) -> SolSpec
    decreases v,
{
    match v {
        SolValue::Uint(l) => SolSpec::Uint(limbs_value(l)),
        SolValue::Tuple(items) => SolSpec::Tuple(sol_views(items@)),
        SolValue::FixedArray(items) => SolSpec::FixedArray(sol_views(items@)),
    }
}

/// The mathematical forms of `s`, in order.
pub open spec fn sol_views(s: Seq<SolValue>) -> Seq<SolSpec>
    decreases s,
{
    if s.len() == 0 {
        Seq::<SolSpec>::empty()
    } else {
        sol_views(s.drop_last()).push(sol_view(s.last()))
    }
}


/// The compact JSON text of `n`.
pub open spec fn node_text(n: JsonNode) -> Seq<char> {
    match n {
        JsonNode::Array { text, .. } => text@,
        JsonNode::Object { text, .. } => text@,
        JsonNode::Scalar { text } => text@,
    }
}

/// `s` without its leading `"` characters.
pub open spec fn trim_leading_quotes(s: Seq<char>) -> Seq<char>
    decreases s.len(),
{
    if s.len() > 0 && s[0] == '"' {
        trim_leading_quotes(s.drop_first())
    } else {
        s
    }
}

/// `s` without its trailing `"` characters.
pub open spec fn trim_trailing_quotes(s: Seq<char>) -> Seq<char>
    decreases s.len(),
{
    if s.len() > 0 && s.last() == '"' {
        trim_trailing_quotes(s.drop_last())
    } else {
        s
    }
}

/// `s` without its leading and trailing `"` characters (`trim_matches('"')`).
pub open spec fn trim_quotes(s: Seq<char>) -> Seq<char> {
    trim_trailing_quotes(trim_leading_quotes(s))
}

/// The number of bytes of the UTF-8 encoding of `c`.
pub open spec fn utf8_width(c: char) -> nat {
    if (c as u32) < 0x80 {
        1
    } else if (c as u32) < 0x800 {
        2
    } else if (c as u32) < 0x10000 {
        3
    } else {
        4
    }
}

/// The characters of `s` after its first two UTF-8 bytes (`&s[2..]`), or
/// `None` where byte 2 is past the end or inside a character, on which the
/// slicing panics.
pub open spec fn after_two_bytes(s: Seq<char>) -> Option<Seq<char>> {
    if s.len() >= 1 && utf8_width(s[0]) == 2 {
        Some(s.drop_first())
    } else if s.len() >= 2 && utf8_width(s[0]) == 1 && utf8_width(s[1]) == 1 {
        Some(s.skip(2))
    } else {
        None
    }
}

/// Whether `c` is a hex digit of either case.
pub open spec fn is_hex_digit_char(c: char) -> bool {
    (0x30 <= (c as u32) <= 0x39) || (0x41 <= (c as u32) <= 0x46) || (0x61 <= (c as u32) <= 0x66)
}

/// The value of the hex digit `c`.
pub open spec fn hex_digit_char_value(c: char) -> int {
    if 0x30 <= (c as u32) <= 0x39 {
        (c as u32) - 0x30
    } else if 0x41 <= (c as u32) <= 0x46 {
        (c as u32) - 0x41 + 10
    } else {
        (c as u32) - 0x61 + 10
    }
}

/// Whether every character of `s` is a hex digit or `_`.
pub open spec fn hex_digits_valid(s: Seq<char>) -> bool {
    forall|i: int| 0 <= i < s.len() ==> is_hex_digit_char(#[trigger] s[i]) || s[i] == '_'
}

/// The number that the hex digits of `s` spell, most significant first,
/// `_` skipped.
pub open spec fn hex_number_value(s: Seq<char>) -> nat
    decreases s.len(),
{
    if s.len() == 0 {
        0
    } else if s.last() == '_' {
        hex_number_value(s.drop_last())
    } else {
        (hex_number_value(s.drop_last()) * 16 + hex_digit_char_value(s.last())) as nat
    }
}

/// The error text that `U256::from_str_radix(s, 16)` gives for a string `s`
/// that it does not accept.
pub uninterp spec fn u256_hex_error_message(s: Seq<char>) -> Seq<char>;

/// A parsed number, by its value.
pub open spec fn number_result(r: Result<Limbs, String>) -> Result<int, Seq<char>> {
    match r {
        Ok(l) => Ok(limbs_value(l)),
        Err(e) => Err(e@),
    }
}

/// A successful parse of `v`.
pub open spec fn number_ok(v: int) -> Result<int, Seq<char>> {
    Ok(v)
}

/// A failed parse with the text `e`.
pub open spec fn number_err(e: Seq<char>) -> Result<int, Seq<char>> {
    Err(e)
}

/// `alloy_primitives::U256::from_str_radix(digits, 16)`, its value as limbs
/// and its error as `Display` text. Claimed: it succeeds exactly when every
/// character is a hex digit or `_` and the number is below 2^256, and then
/// the limbs hold that number; an otherwise valid string that is too large
/// fails with ruint's overflow text.
#[verifier::external_body]
fn u256_from_hex(digits: &str) -> (res: Result<Limbs, String>)
    ensures
        hex_digits_valid(digits@) && hex_number_value(digits@) < u256_limit() ==> number_result(res)
            == number_ok(hex_number_value(digits@) as int),
        !(hex_digits_valid(digits@) && hex_number_value(digits@) < u256_limit()) ==> number_result(
            res,
        ) == number_err(u256_hex_error_message(digits@)),
        hex_digits_valid(digits@) && hex_number_value(digits@) >= u256_limit() ==> number_result(res)
            == number_err("the value is too large to fit the target type"@),
{
    match alloy_primitives::U256::from_str_radix(digits, 16) {
        Ok(v) => Ok(v.into_limbs()),
        Err(e) => Err(e.to_string()),
    }
}

/// What `encode_single` gives for the type `ty` and a JSON value whose text
/// is `text`; `None` where it panics (an unsupported type, or a text too
/// short to drop its first two bytes).
pub open spec fn encode_single_text(ty: Seq<char>, text: Seq<char>) -> Option<
    Result<SolSpec, Seq<char>>,
> {
    if ty == "uint256"@ {
        match after_two_bytes(trim_quotes(text)) {
            None => None,
            Some(digits) => if hex_digits_valid(digits) && hex_number_value(digits) < u256_limit() {
                Some(Ok(SolSpec::Uint(hex_number_value(digits) as int)))
            } else {
                Some(Err("couldnt encode ty: "@ + ty + " with error: "@ + u256_hex_error_message(digits)))
            },
        }
    } else {
        None
    }
}

/// What `encode_single` gives for the type `ty` and the JSON value `input`.
pub open spec fn encode_single_result(ty: Seq<char>, input: JsonNode) -> Option<
    Result<SolSpec, Seq<char>>,
> {
    encode_single_text(ty, node_text(input))
}

/// An outcome of encoding, by views; `None` stands for a panic.
pub open spec fn outcome_view(r: Option<Result<SolValue, String>>) -> Option<Result<SolSpec, Seq<char>>> {
    match r {
        None => None,
        Some(Ok(v)) => Some(Ok(sol_view(v))),
        Some(Err(e)) => Some(Err(e@)),
    }
}

/// A result of encoding, by views.
pub open spec fn result_view(r: Result<SolValue, String>) -> Result<SolSpec, Seq<char>> {
    match r {
        Ok(v) => Ok(sol_view(v)),
        Err(e) => Err(e@),
    }
}

/// Whether `a` and `b` hold the same characters.
pub fn str_equal(a: &str, b: &str) -> (res: bool)
    ensures
        res == (a@ == b@),
{
    let n = a.unicode_len();
    if n != b.unicode_len() {
        return false;
    }
    let mut i: usize = 0;
    while i < n
        invariant
            n == a@.len(),
            n == b@.len(),
            i <= n,
            forall|k: int| 0 <= k < i ==> a@[k] == b@[k],
        decreases n - i,
    {
        if a.get_char(i) != b.get_char(i) {
            return false;
        }
        i = i + 1;
    }
    assert(a@ =~= b@);
    true
}

/// The characters of `text` without leading and trailing `"`.
fn trim_quote_chars(text: &str) -> (res: &str)
    ensures
        res@ == trim_quotes(text@),
{
    let n = text.unicode_len();
    let mut start: usize = 0;
    assert(text@.skip(0) =~= text@);
    while start < n && text.get_char(start) == '"'
        invariant
            n == text@.len(),
            start <= n,
            trim_leading_quotes(text@) == trim_leading_quotes(text@.skip(start as int)),
        decreases n - start,
    {
        assert(text@.skip(start as int).drop_first() =~= text@.skip(start + 1));
        start = start + 1;
    }
    let mut end: usize = n;
    let ghost lead = text@.skip(start as int);
    assert(trim_leading_quotes(lead) == lead);
    while end > start && text.get_char(end - 1) == '"'
        invariant
            n == text@.len(),
            start <= end <= n,
            lead == text@.skip(start as int),
            trim_trailing_quotes(lead) == trim_trailing_quotes(text@.subrange(start as int, end as int)),
        decreases end - start,
    {
        assert(text@.subrange(start as int, end as int).drop_last() =~= text@.subrange(start as int, end - 1));
        end = end - 1;
    }
    assert(lead =~= text@.subrange(start as int, n as int));
    text.substring_char(start, end)
}

/// The UTF-8 width of `c`.
fn char_width(c: char) -> (w: usize)
    ensures
        w == utf8_width(c),
{
    let v = c as u32;
    if v < 0x80 {
        1
    } else if v < 0x800 {
        2
    } else if v < 0x10000 {
        3
    } else {
        4
    }
}

/// `encode_single`, with `None` where the computation panics.
pub fn try_encode_single(ty: &str, input: &JsonNode) -> (res: Option<Result<SolValue, String>>)
    ensures
        outcome_view(res) == encode_single_result(ty@, *input),
{
    if !str_equal(ty, "uint256") {
        return None;
    }
    let text = match input {
        JsonNode::Array { text, .. } => text,
        JsonNode::Object { text, .. } => text,
        JsonNode::Scalar { text } => text,
    };
    let trimmed = trim_quote_chars(text.as_str());
    let n = trimmed.unicode_len();
    let digits = if n >= 1 && char_width(trimmed.get_char(0)) == 2 {
        trimmed.substring_char(1, n)
    } else if n >= 2 && char_width(trimmed.get_char(0)) == 1 && char_width(trimmed.get_char(1)) == 1 {
        trimmed.substring_char(2, n)
    } else {
        return None;
    };
    proof {
        assert(after_two_bytes(trimmed@) == Some(digits@));
    }
    match u256_from_hex(digits) {
        Ok(limbs) => Some(Ok(SolValue::Uint(limbs))),
        Err(e) => {
            let msg = String::from_str("couldnt encode ty: ").concat(ty).concat(
                " with error: ",
            ).concat(e.as_str());
            Some(Err(msg))
        },
    }
}

/// Encodes the JSON value `input` as a value of the elementary type `ty`;
/// only `uint256` is supported, read from the value's JSON text without its
/// quotes and its first two bytes (the `0x` prefix) as a hex number.
pub fn encode_single(ty: &str, input: &JsonNode) -> (res: Result<SolValue, String>)
    requires
        encode_single_result(ty@, *input) is Some,
    ensures
        Some(result_view(res)) == encode_single_result(ty@, *input),
{
    match try_encode_single(ty, input) {
        Some(r) => r,
        None => {
            assert(false);
            Err(String::new())
        },
    }
}

/// Whether `i` is the first position of `c` in `s`.
pub open spec fn is_first_index(s: Seq<char>, c: char, i: int) -> bool {
    &&& 0 <= i < s.len()
    &&& s[i] == c
    &&& forall|k: int| 0 <= k < i ==> s[k] != c
}

/// The part of an array type before its first `[` (`uint256` of
/// `uint256[4]`), if it has one.
pub open spec fn array_element_type(ty: Seq<char>) -> Option<Seq<char>> {
    if exists|i: int| is_first_index(ty, '[', i) {
        Some(ty.take(choose|i: int| is_first_index(ty, '[', i)))
    } else {
        None
    }
}

/// `pre` put in front of the values of a list outcome.
pub open spec fn prepend(pre: Seq<SolSpec>, o: Option<Result<Seq<SolSpec>, Seq<char>>>) -> Option<
    Result<Seq<SolSpec>, Seq<char>>,
> {
    match o {
        Some(Ok(vs)) => Some(Ok(pre + vs)),
        other => other,
    }
}

/// What encoding `nodes[k]` as `params[k]`, in order, gives: the values, the
/// first error, or `None` at the first panic.
pub open spec fn encode_list(params: Seq<AbiParam>, nodes: Seq<JsonNode>) -> Option<
    Result<Seq<SolSpec>, Seq<char>>,
>
    decreases nodes,
{
    if nodes.len() == 0 {
        Some(Ok(Seq::<SolSpec>::empty()))
    } else {
        match abi_encode_result(params[0], nodes[0]) {
            None => None,
            Some(Err(e)) => Some(Err(e)),
            Some(Ok(v)) => prepend(seq![v], encode_list(params.drop_first(), nodes.drop_first())),
        }
    }
}

/// What encoding each of `nodes` as the elementary type `ty`, in order,
/// gives.
pub open spec fn encode_items(ty: Seq<char>, nodes: Seq<JsonNode>) -> Option<
    Result<Seq<SolSpec>, Seq<char>>,
>
    decreases nodes.len(),
{
    if nodes.len() == 0 {
        Some(Ok(Seq::<SolSpec>::empty()))
    } else {
        match encode_single_result(ty, nodes[0]) {
            None => None,
            Some(Err(e)) => Some(Err(e)),
            Some(Ok(v)) => prepend(seq![v], encode_items(ty, nodes.drop_first())),
        }
    }
}

/// A list outcome with its values made a tuple.
pub open spec fn as_tuple(o: Option<Result<Seq<SolSpec>, Seq<char>>>) -> Option<
    Result<SolSpec, Seq<char>>,
> {
    match o {
        None => None,
        Some(Err(e)) => Some(Err(e)),
        Some(Ok(vs)) => Some(Ok(SolSpec::Tuple(vs))),
    }
}

/// A list outcome with its values made a fixed-size array.
pub open spec fn as_fixed_array(o: Option<Result<Seq<SolSpec>, Seq<char>>>) -> Option<
    Result<SolSpec, Seq<char>>,
> {
    match o {
        None => None,
        Some(Err(e)) => Some(Err(e)),
        Some(Ok(vs)) => Some(Ok(SolSpec::FixedArray(vs))),
    }
}

/// What `abi_encode` gives for `param` and `input`; `None` where it panics.
/// A `tuple` takes an array, or an object read in its iteration order, with
/// one entry per component; a type with `[` takes an array whose items are
/// all of the type before the `[`; any other type is elementary.
pub open spec fn abi_encode_result(param: AbiParam, input: JsonNode) -> Option<
    Result<SolSpec, Seq<char>>,
>
    decreases input,
{
    let ty = param.ty@;
    if ty == "tuple"@ {
        match input {
            JsonNode::Array { items, .. } => if param.components.len() != items.len() {
                None
            } else {
                as_tuple(encode_list(param.components@, items@))
            },
            JsonNode::Object { values, .. } => if param.components.len() != values.len() {
                None
            } else {
                as_tuple(encode_list(param.components@, values@))
            },
            JsonNode::Scalar { .. } => None,
        }
    } else {
        match array_element_type(ty) {
            Some(elem) => match input {
                JsonNode::Array { items, .. } => as_fixed_array(encode_items(elem, items@)),
                _ => Some(Err("could not "@)),
            },
            None => encode_single_result(ty, input),
        }
    }
}

/// A list outcome, by views; `None` stands for a panic.
pub open spec fn list_outcome_view(r: Option<Result<Vec<SolValue>, String>>) -> Option<
    Result<Seq<SolSpec>, Seq<char>>,
> {
    match r {
        None => None,
        Some(Ok(v)) => Some(Ok(sol_views(v@))),
        Some(Err(e)) => Some(Err(e@)),
    }
}

/// The first position of `c` in `s`, if any.
fn find_char(s: &str, c: char) -> (res: Option<usize>)
    ensures
        match res {
            Some(i) => is_first_index(s@, c, i as int),
            None => forall|k: int| 0 <= k < s@.len() ==> s@[k] != c,
        },
{
    let n = s.unicode_len();
    let mut i: usize = 0;
    while i < n
        invariant
            n == s@.len(),
            i <= n,
            forall|k: int| 0 <= k < i ==> s@[k] != c,
        decreases n - i,
    {
        if s.get_char(i) == c {
            return Some(i);
        }
        i = i + 1;
    }
    None
}

/// The element type of an array type, as `array_element_type` says.
fn element_type(ty: &str) -> (res: Option<&str>)
    ensures
        match res {
            Some(e) => array_element_type(ty@) == Some(e@),
            None => array_element_type(ty@) is None,
        },
{
    match find_char(ty, '[') {
        Some(i) => {
            proof {
                let j = choose|j: int| is_first_index(ty@, '[', j);
                assert(is_first_index(ty@, '[', j));
                if j < i {
                    assert(ty@[j] != '[');
                } else if j > i {
                    assert(ty@[i as int] != '[');
                }
            }
            Some(ty.substring_char(0, i))
        },
        None => None,
    }
}

/// Encodes `nodes[k]` as `params[k]` in order, stopping at the first error;
/// `None` where the computation panics.
fn try_encode_list(params: &Vec<AbiParam>, nodes: &Vec<JsonNode>) -> (res: Option<
    Result<Vec<SolValue>, String>,
>)
    requires
        params@.len() == nodes@.len(),
    ensures
        list_outcome_view(res) == encode_list(params@, nodes@),
    decreases nodes@,
{
    let mut out: Vec<SolValue> = Vec::new();
    let n = nodes.len();
    let mut i: usize = 0;
    assert(params@.skip(0) =~= params@);
    assert(nodes@.skip(0) =~= nodes@);
    while i < n
        invariant
            n == nodes@.len(),
            params@.len() == n,
            i <= n,
            encode_list(params@, nodes@) == prepend(
                sol_views(out@),
                encode_list(params@.skip(i as int), nodes@.skip(i as int)),
            ),
        decreases n - i,
    {
        proof {
            assert(params@.skip(i as int).drop_first() =~= params@.skip(i + 1));
            assert(nodes@.skip(i as int).drop_first() =~= nodes@.skip(i + 1));
            assert(params@.skip(i as int)[0] == params@[i as int]);
            assert(nodes@.skip(i as int)[0] == nodes@[i as int]);
        }
        match try_abi_encode(&params[i], &nodes[i]) {
            None => {
                return None;
            },
            Some(Err(e)) => {
                return Some(Err(e));
            },
            Some(Ok(v)) => {
                let ghost before = sol_views(out@);
                let ghost old_out = out@;
                out.push(v);
                proof {
                    assert(out@.drop_last() =~= old_out);
                    assert(sol_views(out@) == before.push(sol_view(v)));
                    let rest = encode_list(params@.skip(i + 1), nodes@.skip(i + 1));
                    match rest {
                        Some(Ok(vs)) => {
                            assert(before + (seq![sol_view(v)] + vs) =~= before.push(sol_view(v))
                                + vs);
                        },
                        _ => {},
                    }
                }
            },
        }
        i = i + 1;
    }
    assert(sol_views(out@) + Seq::<SolSpec>::empty() =~= sol_views(out@));
    Some(Ok(out))
}

/// Encodes each of `nodes` as the elementary type `ty`, stopping at the first
/// error; `None` where the computation panics.
fn try_encode_items(ty: &str, nodes: &Vec<JsonNode>) -> (res: Option<Result<Vec<SolValue>, String>>)
    ensures
        list_outcome_view(res) == encode_items(ty@, nodes@),
{
    let mut out: Vec<SolValue> = Vec::new();
    let n = nodes.len();
    let mut i: usize = 0;
    assert(nodes@.skip(0) =~= nodes@);
    while i < n
        invariant
            n == nodes@.len(),
            i <= n,
            encode_items(ty@, nodes@) == prepend(
                sol_views(out@),
                encode_items(ty@, nodes@.skip(i as int)),
            ),
        decreases n - i,
    {
        proof {
            assert(nodes@.skip(i as int).drop_first() =~= nodes@.skip(i + 1));
            assert(nodes@.skip(i as int)[0] == nodes@[i as int]);
        }
        match try_encode_single(ty, &nodes[i]) {
            None => {
                return None;
            },
            Some(Err(e)) => {
                return Some(Err(e));
            },
            Some(Ok(v)) => {
                let ghost before = sol_views(out@);
                let ghost old_out = out@;
                out.push(v);
                proof {
                    assert(out@.drop_last() =~= old_out);
                    assert(sol_views(out@) == before.push(sol_view(v)));
                    let rest = encode_items(ty@, nodes@.skip(i + 1));
                    match rest {
                        Some(Ok(vs)) => {
                            assert(before + (seq![sol_view(v)] + vs) =~= before.push(sol_view(v))
                                + vs);
                        },
                        _ => {},
                    }
                }
            },
        }
        i = i + 1;
    }
    assert(sol_views(out@) + Seq::<SolSpec>::empty() =~= sol_views(out@));
    Some(Ok(out))
}

/// `abi_encode`, with `None` on the inputs on which the computation panics.
pub fn try_abi_encode(param: &AbiParam, input: &JsonNode) -> (res: Option<Result<SolValue, String>>)
    ensures
        outcome_view(res) == abi_encode_result(*param, *input),
    decreases input,
{
    if str_equal(param.ty.as_str(), "tuple") {
        let list = match input {
            JsonNode::Array { items, .. } => {
                if param.components.len() != items.len() {
                    return None;
                }
                try_encode_list(&param.components, items)
            },
            JsonNode::Object { values, .. } => {
                if param.components.len() != values.len() {
                    return None;
                }
                try_encode_list(&param.components, values)
            },
            JsonNode::Scalar { .. } => {
                return None;
            },
        };
        match list {
            None => None,
            Some(Err(e)) => Some(Err(e)),
            Some(Ok(vs)) => Some(Ok(SolValue::Tuple(vs))),
        }
    } else {
        match element_type(param.ty.as_str()) {
            Some(elem) => match input {
                JsonNode::Array { items, .. } => match try_encode_items(elem, items) {
                    None => None,
                    Some(Err(e)) => Some(Err(e)),
                    Some(Ok(vs)) => Some(Ok(SolValue::FixedArray(vs))),
                },
                _ => Some(Err(String::from_str("could not "))),
            },
            None => try_encode_single(param.ty.as_str(), input),
        }
    }
}

/// Encodes the JSON value `input` as a value of the ABI parameter `param`.
pub fn abi_encode(param: &AbiParam, input: &JsonNode) -> (res: Result<SolValue, String>)
    requires
        abi_encode_result(*param, *input) is Some,
    ensures
        Some(result_view(res)) == abi_encode_result(*param, *input),
{
    match try_abi_encode(param, input) {
        Some(r) => r,
        None => {
            assert(false);
            Err(String::new())
        },
    }
}

/// A list outcome with values has one value per node.
proof fn lemma_encode_list_len(params: Seq<AbiParam>, nodes: Seq<JsonNode>)
    ensures
        encode_list(params, nodes) matches Some(Ok(vs)) ==> vs.len() == nodes.len(),
    decreases nodes.len(),
{
    if nodes.len() > 0 {
        lemma_encode_list_len(params.drop_first(), nodes.drop_first());
    }
}

/// An item-list outcome with values has one value per node.
proof fn lemma_encode_items_len(ty: Seq<char>, nodes: Seq<JsonNode>)
    ensures
        encode_items(ty, nodes) matches Some(Ok(vs)) ==> vs.len() == nodes.len(),
    decreases nodes.len(),
{
    if nodes.len() > 0 {
        lemma_encode_items_len(ty, nodes.drop_first());
    }
}

/// Encoding keeps the shape of the parameter: a `tuple` gives a tuple with
/// one value per component, an array type gives a fixed-size array with one
/// value per item of the JSON array, and any other type gives a `uint256`
/// below 2^256.
pub proof fn law_encoding_keeps_shape(param: AbiParam, input: JsonNode)
    ensures
        abi_encode_result(param, input) matches Some(Ok(v)) ==> {
            if param.ty@ == "tuple"@ {
                v matches SolSpec::Tuple(vs) && vs.len() == param.components@.len()
            } else if array_element_type(param.ty@) is Some {
                v matches SolSpec::FixedArray(vs) && input matches JsonNode::Array { items, .. }
                    && vs.len() == items@.len()
            } else {
                v matches SolSpec::Uint(x) && 0 <= x < u256_limit()
            }
        },
{
    match input {
        JsonNode::Array { items, .. } => {
            lemma_encode_list_len(param.components@, items@);
            lemma_encode_items_len(array_element_type(param.ty@)->0, items@);
        },
        JsonNode::Object { values, .. } => {
            lemma_encode_list_len(param.components@, values@);
        },
        JsonNode::Scalar { .. } => {},
    }
}

/// Removing the quotes around a text that neither starts nor ends with a
/// quote gives the text back.
proof fn lemma_trim_surrounding_quotes(s: Seq<char>)
    requires
        s.len() >= 1,
        s[0] != '"',
        s.last() != '"',
    ensures
        trim_quotes(seq!['"'] + s + seq!['"']) == s,
{
    let q = seq!['"'] + s + seq!['"'];
    let r = s + seq!['"'];
    assert(q[0] == '"');
    assert(q.drop_first() =~= r);
    assert(r[0] == s[0]);
    assert(trim_leading_quotes(r) == r);
    assert(trim_leading_quotes(q) == r);
    assert(r.last() == '"');
    assert(r.drop_last() =~= s);
    assert(trim_trailing_quotes(s) == s);
    assert(trim_trailing_quotes(r) == s);
}

/// An accepted `uint256` is the number its hex digits spell: the JSON string
/// `"0x<digits>"` with valid digits below 2^256 encodes as exactly that
/// number.
pub proof fn law_uint256_reads_hex_value(digits: Seq<char>)
    requires
        hex_digits_valid(digits),
        hex_number_value(digits) < u256_limit(),
    ensures
        encode_single_text("uint256"@, seq!['"', '0', 'x'] + digits + seq!['"']) == Some(
            Ok::<SolSpec, Seq<char>>(SolSpec::Uint(hex_number_value(digits) as int)),
        ),
{
    let s = seq!['0', 'x'] + digits;
    assert(seq!['"', '0', 'x'] + digits + seq!['"'] =~= seq!['"'] + s + seq!['"']);
    assert(s[0] == '0');
    assert(s.last() != '"') by {
        if digits.len() > 0 {
            assert(s.last() == digits[digits.len() - 1]);
        } else {
            assert(s.last() == 'x');
        }
    }
    lemma_trim_surrounding_quotes(s);
    assert(s.skip(2) =~= digits);
    assert(after_two_bytes(s) == Some(digits));
}

/// The values of a successful list encoding are the encodings of the nodes,
/// one by one.
proof fn lemma_encode_items_elementwise(ty: Seq<char>, nodes: Seq<JsonNode>)
    ensures
        encode_items(ty, nodes) matches Some(Ok(vs)) ==> vs.len() == nodes.len() && forall|k: int|
            0 <= k < vs.len() ==> Some(Ok::<SolSpec, Seq<char>>(#[trigger] vs[k]))
                == encode_single_result(ty, nodes[k]),
    decreases nodes.len(),
{
    if nodes.len() > 0 {
        lemma_encode_items_elementwise(ty, nodes.drop_first());
        if let Some(Ok(vs)) = encode_items(ty, nodes) {
            let rest = encode_items(ty, nodes.drop_first());
            assert forall|k: int| 0 <= k < vs.len() implies Some(Ok::<SolSpec, Seq<char>>(
                #[trigger] vs[k],
            )) == encode_single_result(ty, nodes[k]) by {
                if k > 0 {
                    assert(nodes.drop_first()[k - 1] == nodes[k]);
                }
            }
        }
    }
}

/// The values of a successful component-wise encoding are the encodings of
/// the nodes as the matching parameters, one by one.
proof fn lemma_encode_list_elementwise(params: Seq<AbiParam>, nodes: Seq<JsonNode>)
    requires
        params.len() == nodes.len(),
    ensures
        encode_list(params, nodes) matches Some(Ok(vs)) ==> vs.len() == nodes.len() && forall|k: int|
            0 <= k < vs.len() ==> Some(Ok::<SolSpec, Seq<char>>(#[trigger] vs[k]))
                == abi_encode_result(params[k], nodes[k]),
    decreases nodes.len(),
{
    if nodes.len() > 0 {
        lemma_encode_list_elementwise(params.drop_first(), nodes.drop_first());
        if let Some(Ok(vs)) = encode_list(params, nodes) {
            assert forall|k: int| 0 <= k < vs.len() implies Some(Ok::<SolSpec, Seq<char>>(
                #[trigger] vs[k],
            )) == abi_encode_result(params[k], nodes[k]) by {
                if k > 0 {
                    assert(nodes.drop_first()[k - 1] == nodes[k]);
                    assert(params.drop_first()[k - 1] == params[k]);
                }
            }
        }
    }
}

/// Each item of an encoded fixed-size array is the elementary encoding of
/// the matching JSON item, and each value of an encoded tuple is the
/// encoding of the matching JSON entry as the matching component.
pub proof fn law_encoding_is_elementwise(param: AbiParam, input: JsonNode)
    ensures
        param.ty@ != "tuple"@ && input is Array ==> match (
            array_element_type(param.ty@),
            abi_encode_result(param, input),
        ) {
            (Some(elem), Some(Ok(SolSpec::FixedArray(vs)))) => vs.len() == input->items@.len()
                && forall|k: int|
                0 <= k < vs.len() ==> Some(Ok::<SolSpec, Seq<char>>(#[trigger] vs[k]))
                    == encode_single_result(elem, input->items@[k]),
            _ => true,
        },
        param.ty@ == "tuple"@ && input is Array ==> match abi_encode_result(param, input) {
            Some(Ok(SolSpec::Tuple(vs))) => vs.len() == input->items@.len() && vs.len()
                == param.components@.len() && forall|k: int|
                0 <= k < vs.len() ==> Some(Ok::<SolSpec, Seq<char>>(#[trigger] vs[k]))
                    == abi_encode_result(param.components@[k], input->items@[k]),
            _ => true,
        },
        param.ty@ == "tuple"@ && input is Object ==> match abi_encode_result(param, input) {
            Some(Ok(SolSpec::Tuple(vs))) => vs.len() == input->values@.len() && vs.len()
                == param.components@.len() && forall|k: int|
                0 <= k < vs.len() ==> Some(Ok::<SolSpec, Seq<char>>(#[trigger] vs[k]))
                    == abi_encode_result(param.components@[k], input->values@[k]),
            _ => true,
        },
{
    match input {
        JsonNode::Array { items, .. } => {
            if param.components@.len() == items@.len() {
                lemma_encode_list_elementwise(param.components@, items@);
            }
            if let Some(elem) = array_element_type(param.ty@) {
                lemma_encode_items_elementwise(elem, items@);
            }
        },
        JsonNode::Object { values, .. } => {
            if param.components@.len() == values@.len() {
                lemma_encode_list_elementwise(param.components@, values@);
            }
        },
        JsonNode::Scalar { .. } => {},
    }
}

} // verus!
