use std::io::Write;

use zokrates_sprout::abi::{AbiParam, JsonNode, SolValue};
use zokrates_sprout::compute_witness::check_witness_curve;
use alloy_dyn_abi::{DynSolValue, JsonAbiExt};
use alloy_json_abi::JsonAbi;
use alloy_primitives::U256;
use zokrates_sprout::generate_proof::{
    check_proof_curve, encode_verifier_arguments, finish_call_data, json_null,
    try_encode_verifier_arguments, verifier_call_data, verifier_function_inputs, Curve,
    VERIFIER_FUNCTION,
};
use zokrates_sprout::service::{on_proof_computed, on_witness_computed, Project, ProjectStore, StatusCode};

fn s(text: &str) -> JsonNode {
    JsonNode::Scalar { text: text.to_string() }
}

fn hexstr(h: &str) -> JsonNode {
    s(&format!("\"{}\"", h))
}

fn arr(items: Vec<JsonNode>) -> JsonNode {
    JsonNode::Array { text: "[..]".to_string(), items }
}

fn obj(entries: Vec<(&str, JsonNode)>) -> JsonNode {
    let keys = entries.iter().map(|(k, _)| k.to_string()).collect();
    let values = entries.into_iter().map(|(_, v)| v).collect();
    JsonNode::Object { text: "{..}".to_string(), keys, values }
}

fn param(ty: &str, components: Vec<AbiParam>) -> AbiParam {
    AbiParam { ty: ty.to_string(), components }
}

fn limbs(v: &SolValue) -> [u64; 4] {
    match v {
        SolValue::Uint(l) => *l,
        _ => panic!("not a uint"),
    }
}

fn items(v: &SolValue) -> &Vec<SolValue> {
    match v {
        SolValue::Tuple(x) => x,
        SolValue::FixedArray(x) => x,
        _ => panic!("not a list"),
    }
}

fn g1() -> AbiParam {
    param("tuple", vec![param("uint256", vec![]), param("uint256", vec![])])
}

fn g2() -> AbiParam {
    param("tuple", vec![param("uint256[2]", vec![]), param("uint256[2]", vec![])])
}

fn verify_tx_inputs() -> Vec<AbiParam> {
    vec![param("tuple", vec![g1(), g2(), g1()]), param("uint256[1]", vec![])]
}

fn g16_proof() -> JsonNode {
    obj(vec![
        ("curve", hexstr("bn128")),
        ("inputs", arr(vec![hexstr("0x9")])),
        (
            "proof",
            obj(vec![
                ("a", arr(vec![hexstr("0x1"), hexstr("0x2")])),
                (
                    "b",
                    arr(vec![
                        arr(vec![hexstr("0x3"), hexstr("0x4")]),
                        arr(vec![hexstr("0x5"), hexstr("0x6")]),
                    ]),
                ),
                ("c", arr(vec![hexstr("0x7"), hexstr("0x8")])),
            ]),
        ),
        ("scheme", hexstr("g16")),
    ])
}

#[test]
fn verifier_arguments_from_g16_proof() {
    let (proof_arg, inputs_arg) =
        encode_verifier_arguments(&Some(vec![verify_tx_inputs()]), &g16_proof()).unwrap();
    let parts = items(&proof_arg);
    assert_eq!(parts.len(), 3);
    assert_eq!(limbs(&items(&parts[0])[0]), [1, 0, 0, 0]);
    assert_eq!(limbs(&items(&parts[0])[1]), [2, 0, 0, 0]);
    let b = items(&parts[1]);
    assert_eq!(limbs(&items(&b[0])[1]), [4, 0, 0, 0]);
    assert_eq!(limbs(&items(&b[1])[0]), [5, 0, 0, 0]);
    assert_eq!(limbs(&items(&parts[2])[1]), [8, 0, 0, 0]);
    assert!(matches!(inputs_arg, SolValue::FixedArray(_)));
    assert_eq!(limbs(&items(&inputs_arg)[0]), [9, 0, 0, 0]);
}

#[test]
fn verifier_function_must_exist() {
    assert_eq!(VERIFIER_FUNCTION, "verifyTx");
    assert_eq!(
        encode_verifier_arguments(&None, &g16_proof()).err(),
        Some("could not find function with name: verifyTx".to_string())
    );
}

#[test]
fn missing_proof_field_is_null() {
    let proof = obj(vec![("inputs", arr(vec![]))]);
    let inputs = vec![param("uint256[1]", vec![]), param("uint256[1]", vec![])];
    assert_eq!(
        encode_verifier_arguments(&Some(vec![inputs]), &proof).err(),
        Some("could not ".to_string())
    );
    // A null for a tuple is a panic point.
    assert!(try_encode_verifier_arguments(&Some(vec![verify_tx_inputs()]), &obj(vec![])).is_none());
}

#[test]
fn verifier_function_needs_two_inputs() {
    assert!(try_encode_verifier_arguments(&Some(vec![vec![g1()]]), &g16_proof()).is_none());
    assert!(try_encode_verifier_arguments(&Some(vec![]), &g16_proof()).is_none());
    assert!(try_encode_verifier_arguments(&Some(vec![vec![]]), &g16_proof()).is_none());
}

#[test]
fn error_of_first_input_comes_before_missing_second() {
    let proof = obj(vec![("proof", hexstr("0x1"))]);
    let functions = Some(vec![vec![param("uint256[2]", vec![])]]);
    match try_encode_verifier_arguments(&functions, &proof) {
        Some(Err(e)) => assert_eq!(e, "could not "),
        _ => panic!("the first input's error is reported"),
    }
    assert_eq!(
        encode_verifier_arguments(&functions, &proof).err(),
        Some("could not ".to_string())
    );
}

const VERIFIER_ABI: &str = r#"[{"inputs":[{"components":[{"components":[{"internalType":"uint256","name":"X","type":"uint256"},{"internalType":"uint256","name":"Y","type":"uint256"}],"internalType":"struct Pairing.G1Point","name":"a","type":"tuple"},{"components":[{"internalType":"uint256[2]","name":"X","type":"uint256[2]"},{"internalType":"uint256[2]","name":"Y","type":"uint256[2]"}],"internalType":"struct Pairing.G2Point","name":"b","type":"tuple"},{"components":[{"internalType":"uint256","name":"X","type":"uint256"},{"internalType":"uint256","name":"Y","type":"uint256"}],"internalType":"struct Pairing.G1Point","name":"c","type":"tuple"}],"internalType":"struct Verifier.Proof","name":"proof","type":"tuple"},{"internalType":"uint256[1]","name":"input","type":"uint256[1]"}],"name":"verifyTx","outputs":[{"internalType":"bool","name":"r","type":"bool"}],"stateMutability":"view","type":"function"}]"#;

fn u(v: u64) -> DynSolValue {
    DynSolValue::from(U256::from(v))
}

#[test]
fn verifier_inputs_are_read_from_the_abi() {
    let functions = verifier_function_inputs(VERIFIER_ABI.as_bytes()).unwrap().unwrap();
    assert_eq!(functions.len(), 1);
    let inputs = &functions[0];
    assert_eq!(inputs.len(), 2);
    assert_eq!(inputs[0].ty, "tuple");
    assert_eq!(inputs[0].components.len(), 3);
    assert_eq!(inputs[0].components[1].components[0].ty, "uint256[2]");
    assert_eq!(inputs[1].ty, "uint256[1]");
    assert!(verifier_function_inputs(b"[]").unwrap().is_none());
    assert!(verifier_function_inputs(b"not json").is_err());
}

#[test]
fn verifier_call_data_matches_alloy_encoding() {
    let functions = verifier_function_inputs(VERIFIER_ABI.as_bytes()).unwrap();
    let call_data = verifier_call_data(&functions, &g16_proof()).unwrap().unwrap();

    let abi: JsonAbi = serde_json::from_str(VERIFIER_ABI).unwrap();
    let func = &abi.function("verifyTx").unwrap()[0];
    let values = [
        DynSolValue::Tuple(vec![
            DynSolValue::Tuple(vec![u(1), u(2)]),
            DynSolValue::Tuple(vec![
                DynSolValue::FixedArray(vec![u(3), u(4)]),
                DynSolValue::FixedArray(vec![u(5), u(6)]),
            ]),
            DynSolValue::Tuple(vec![u(7), u(8)]),
        ]),
        DynSolValue::FixedArray(vec![u(9)]),
    ];
    let expected = hex::encode(func.abi_encode_input(&values).unwrap());
    assert_eq!(call_data, expected);
    // Selector and nine 32-byte words.
    assert_eq!(call_data.len(), 2 * (4 + 9 * 32));
}

#[test]
fn verifier_call_data_reports_errors() {
    assert_eq!(
        verifier_call_data(&None, &g16_proof()),
        Some(Err("could not find function with name: verifyTx".to_string()))
    );
    // Arguments that do not fit the parameters are an encoding error.
    let functions = Some(vec![vec![param("uint256", vec![]), param("uint256[1]", vec![])]]);
    let proof = obj(vec![("proof", hexstr("0x1")), ("inputs", arr(vec![hexstr("0x2")]))]);
    let res = verifier_call_data(&functions, &proof).unwrap();
    assert!(res.is_ok());
    let bad = Some(vec![vec![param("uint256", vec![]), param("uint256[2]", vec![])]]);
    let res = verifier_call_data(&bad, &proof).unwrap();
    assert!(res.unwrap_err().starts_with("could not abi_encode: "));
}

#[test]
fn null_value_text() {
    match json_null() {
        JsonNode::Scalar { text } => assert_eq!(text, "null"),
        _ => panic!("null is a scalar"),
    }
}

#[test]
fn call_data_is_lower_hex() {
    assert_eq!(finish_call_data(Ok(vec![0xab, 0x01, 0xff])), Ok("ab01ff".to_string()));
    assert_eq!(finish_call_data(Ok(vec![])), Ok("".to_string()));
    assert_eq!(
        finish_call_data(Err("bad".to_string())),
        Err("could not abi_encode: bad".to_string())
    );
}

#[test]
fn only_bn128_is_supported() {
    assert_eq!(check_proof_curve(Curve::Bn128), Ok(()));
    assert_eq!(
        check_proof_curve(Curve::Bls12_381),
        Err("Unsupported curve! currently only bn128 is supported".to_string())
    );
    assert_eq!(check_witness_curve(Curve::Bn128), Ok(()));
    assert_eq!(
        check_witness_curve(Curve::Vesta),
        Err("sorry this curve isnt currently supported. zokrates can only export bn128 to eth".to_string())
    );
}

fn zlib_hex(data: &[u8]) -> String {
    let mut enc = flate2::write::ZlibEncoder::new(Vec::new(), flate2::Compression::default());
    enc.write_all(data).unwrap();
    hex::encode(enc.finish().unwrap())
}

fn project(params: &[&str]) -> Project {
    Project {
        content: zlib_hex(b"program"),
        exp_params: params.iter().map(|p| p.to_string()).collect(),
    }
}

#[test]
fn execute_finds_created_project() {
    let mut store = ProjectStore::new();
    let key = zlib_hex(b"key");
    store.create(7, project(&["g16", &key]));
    let plan = store
        .prepare_execution(7, vec!["1,2".to_string(), "3,4".to_string()])
        .ok()
        .unwrap();
    assert_eq!(plan.content, b"program".to_vec());
    assert_eq!(plan.method, "g16");
    assert_eq!(plan.proving_key, b"key".to_vec());
    assert_eq!(plan.witness_args, vec!["1", "3", "2", "4"]);
}

#[test]
fn create_replaces_and_keeps_others() {
    let mut store = ProjectStore::new();
    let key = zlib_hex(b"key");
    store.create(1, project(&["g16", &key]));
    store.create(2, project(&["gm17", &key]));
    store.create(1, project(&["marlin", &key]));
    assert_eq!(store.get(1).unwrap().exp_params[0], "marlin");
    assert_eq!(store.get(2).unwrap().exp_params[0], "gm17");
    assert!(store.get(3).is_none());
}

#[test]
fn unknown_project_is_not_found() {
    let store = ProjectStore::new();
    let err = store.prepare_execution(42, vec!["1".to_string()]).err().unwrap();
    assert_eq!(err.code, StatusCode::NotFound);
    assert_eq!(err.message, "couldn't find project_id: 42");
}

#[test]
fn undecodable_content_is_invalid_argument() {
    let mut store = ProjectStore::new();
    store.create(
        3,
        Project { content: "abc".to_string(), exp_params: Vec::new() },
    );
    let err = store.prepare_execution(3, vec!["1".to_string()]).err().unwrap();
    assert_eq!(err.code, StatusCode::InvalidArgument);
    assert_eq!(
        err.message,
        "couldn't decode project_config content. should have been handled prior couldn't convert hex string to bytes Odd number of digits"
    );
}

#[test]
fn too_few_parameters_is_a_panic_point() {
    let mut store = ProjectStore::new();
    store.create(4, project(&["g16"]));
    assert!(store.try_prepare_execution(4, vec!["1".to_string()]).is_none());
}

#[test]
fn bad_datas_is_invalid_argument() {
    let mut store = ProjectStore::new();
    let key = zlib_hex(b"key");
    store.create(5, project(&["g16", &key]));
    let err = store.prepare_execution(5, Vec::new()).err().unwrap();
    assert_eq!(err.code, StatusCode::InvalidArgument);
    assert_eq!(err.message, "some issue with the datas format empty array");
}

#[test]
fn bad_proving_key_is_invalid_argument() {
    let mut store = ProjectStore::new();
    store.create(6, project(&["g16", "zz"]));
    let err = store.prepare_execution(6, vec!["1".to_string()]).err().unwrap();
    assert_eq!(err.code, StatusCode::InvalidArgument);
    assert!(err.message.starts_with("couldn't decode project_config proving_key. should have been handled prior "));
}

#[test]
fn step_failures_carry_their_status() {
    assert_eq!(on_witness_computed(Ok(vec![1, 2])).ok(), Some(vec![1, 2]));
    let err = on_witness_computed(Err("boom".to_string())).err().unwrap();
    assert_eq!(err.code, StatusCode::InvalidArgument);
    assert_eq!(err.message, "couldn't deserialize program content boom");
    assert_eq!(on_proof_computed(Ok("ab".to_string())).ok(), Some("ab".to_string()));
    let err = on_proof_computed(Err("x".to_string())).err().unwrap();
    assert_eq!(err.code, StatusCode::Internal);
    assert_eq!(err.message, "couldnt compute proof x");
}

#[test]
fn not_found_names_the_largest_id() {
    let store = ProjectStore::new();
    let err = store.prepare_execution(u64::MAX, vec!["1".to_string()]).err().unwrap();
    assert_eq!(err.message, "couldn't find project_id: 18446744073709551615");
    let err = store.prepare_execution(0, vec!["1".to_string()]).err().unwrap();
    assert_eq!(err.message, "couldn't find project_id: 0");
}

#[test]
fn created_project_survives_later_creates() {
    let mut store = ProjectStore::new();
    let key = zlib_hex(b"key");
    store.create(9, project(&["g16", &key]));
    for id in 0..5u64 {
        store.create(id, project(&["gm17", &key]));
    }
    store.create(9, project(&["marlin", &key]));
    let plan = store.prepare_execution(9, vec!["1".to_string()]).ok().unwrap();
    assert_eq!(plan.method, "marlin");
}
