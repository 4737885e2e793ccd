use zokrates_sprout::abi::{abi_encode, encode_single, try_abi_encode, try_encode_single, AbiParam, JsonNode, SolValue};

fn s(text: &str) -> JsonNode {
    JsonNode::Scalar { text: text.to_string() }
}

fn hexstr(h: &str) -> JsonNode {
    s(&format!("\"{}\"", h))
}

fn arr(items: Vec<JsonNode>) -> JsonNode {
    let text = format!(
        "[{}]",
        items.iter().map(text_of).collect::<Vec<_>>().join(",")
    );
    JsonNode::Array { text, items }
}

fn obj(entries: Vec<(&str, JsonNode)>) -> JsonNode {
    let text = format!(
        "{{{}}}",
        entries.iter().map(|(k, v)| format!("\"{}\":{}", k, text_of(v))).collect::<Vec<_>>().join(",")
    );
    let keys = entries.iter().map(|(k, _)| k.to_string()).collect();
    let values = entries.into_iter().map(|(_, v)| v).collect();
    JsonNode::Object { text, keys, values }
}

fn text_of(n: &JsonNode) -> String {
    match n {
        JsonNode::Array { text, .. } => text.clone(),
        JsonNode::Object { text, .. } => text.clone(),
        JsonNode::Scalar { text } => text.clone(),
    }
}

fn param(ty: &str, components: Vec<AbiParam>) -> AbiParam {
    AbiParam { ty: ty.to_string(), components }
}

fn uint(v: u64) -> SolValue {
    SolValue::Uint([v, 0, 0, 0])
}

fn limbs(v: &SolValue) -> [u64; 4] {
    match v {
        SolValue::Uint(l) => *l,
        _ => panic!("not a uint"),
    }
}

fn items(v: &SolValue) -> &Vec<SolValue> {
    match v {
        SolValue::Tuple(x) => x,
        SolValue::FixedArray(x) => x,
        _ => panic!("not a list"),
    }
}

#[test]
fn encode_single_reads_prefixed_hex() {
    let v = encode_single("uint256", &hexstr("0x1f")).unwrap();
    assert_eq!(limbs(&v), [31, 0, 0, 0]);
    let v = encode_single("uint256", &hexstr("0x0000000000000000000000000000000000000000000000010000000000000002")).unwrap();
    assert_eq!(limbs(&v), [2, 1, 0, 0]);
    let v = encode_single("uint256", &hexstr("0xFF_ff")).unwrap();
    assert_eq!(limbs(&v), [0xffff, 0, 0, 0]);
}

#[test]
fn encode_single_largest_value() {
    let max = format!("0x{}", "f".repeat(64));
    let v = encode_single("uint256", &hexstr(&max)).unwrap();
    assert_eq!(limbs(&v), [u64::MAX; 4]);
}

#[test]
fn encode_single_too_large_value_is_an_error() {
    let big = format!("0x1{}", "0".repeat(64));
    assert_eq!(
        encode_single("uint256", &hexstr(&big)).err(),
        Some("couldnt encode ty: uint256 with error: the value is too large to fit the target type".to_string())
    );
}

#[test]
fn encode_single_invalid_digit_is_an_error() {
    assert_eq!(
        encode_single("uint256", &hexstr("0xzz")).err(),
        Some("couldnt encode ty: uint256 with error: invalid digit: z".to_string())
    );
}

#[test]
fn encode_single_drops_two_bytes_whatever_they_are() {
    // An unquoted number: its first two digits are dropped.
    let v = encode_single("uint256", &s("1234")).unwrap();
    assert_eq!(limbs(&v), [0x34, 0, 0, 0]);
    // Exactly two bytes: nothing is left, which is zero.
    let v = encode_single("uint256", &hexstr("0x")).unwrap();
    assert_eq!(limbs(&v), [0, 0, 0, 0]);
}

#[test]
fn encode_single_panicking_inputs_are_reported() {
    assert!(try_encode_single("address", &hexstr("0x1")).is_none());
    assert!(try_encode_single("uint256", &s("5")).is_none());
    assert!(try_encode_single("uint256", &s("\"\"")).is_none());
    // A two-byte first character is a boundary; a three-byte one is not.
    assert!(try_encode_single("uint256", &s("é1")).is_some());
    assert!(try_encode_single("uint256", &s("€1")).is_none());
}

#[test]
fn abi_encode_tuple_from_array() {
    let p = param("tuple", vec![param("uint256", vec![]), param("uint256", vec![])]);
    let v = abi_encode(&p, &arr(vec![hexstr("0x1"), hexstr("0x2")])).unwrap();
    assert!(matches!(v, SolValue::Tuple(_)));
    assert_eq!(items(&v).len(), 2);
    assert_eq!(limbs(&items(&v)[0]), limbs(&uint(1)));
    assert_eq!(limbs(&items(&v)[1]), limbs(&uint(2)));
}

#[test]
fn abi_encode_tuple_from_object_in_entry_order() {
    let p = param("tuple", vec![param("uint256", vec![]), param("uint256[2]", vec![])]);
    let input = obj(vec![("a", hexstr("0x5")), ("b", arr(vec![hexstr("0x6"), hexstr("0x7")]))]);
    let v = abi_encode(&p, &input).unwrap();
    assert_eq!(limbs(&items(&v)[0]), [5, 0, 0, 0]);
    let inner = &items(&v)[1];
    assert!(matches!(inner, SolValue::FixedArray(_)));
    assert_eq!(limbs(&items(inner)[0]), [6, 0, 0, 0]);
    assert_eq!(limbs(&items(inner)[1]), [7, 0, 0, 0]);
}

#[test]
fn abi_encode_array_type_needs_array_input() {
    let p = param("uint256[2]", vec![]);
    assert_eq!(abi_encode(&p, &hexstr("0x1")).err(), Some("could not ".to_string()));
}

#[test]
fn abi_encode_first_error_wins() {
    let p = param("uint256[3]", vec![]);
    let input = arr(vec![hexstr("0x1"), hexstr("0xg"), s("5")]);
    assert_eq!(
        abi_encode(&p, &input).err(),
        Some("couldnt encode ty: uint256 with error: invalid digit: g".to_string())
    );
}

#[test]
fn abi_encode_panicking_inputs_are_reported() {
    let p = param("tuple", vec![param("uint256", vec![])]);
    // Wrong number of entries.
    assert!(try_abi_encode(&p, &arr(vec![hexstr("0x1"), hexstr("0x2")])).is_none());
    // A scalar for a tuple.
    assert!(try_abi_encode(&p, &hexstr("0x1")).is_none());
    // An array of tuples.
    assert!(try_abi_encode(&param("tuple[1]", vec![]), &arr(vec![hexstr("0x1")])).is_none());
}

#[test]
fn abi_encode_plain_elementary() {
    let v = abi_encode(&param("uint256", vec![]), &hexstr("0xabc")).unwrap();
    assert_eq!(limbs(&v), [0xabc, 0, 0, 0]);
}
