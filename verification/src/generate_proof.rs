//! The decisions of proof generation: which curves are supported, how the
//! arguments of the on-chain verifier call are assembled from a proof's
//! JSON, and how the encoded call is reported.
use vstd::prelude::*;

use alloy_dyn_abi::{DynSolValue, JsonAbiExt};
use alloy_json_abi::{Function, JsonAbi, Param, StateMutability};

use crate::abi::{
    abi_encode_result, array_element_type, encode_single_text, node_text, try_abi_encode, AbiParam,
    JsonNode, SolSpec, SolValue, outcome_view, sol_view, sol_views,
};
use crate::utils::{bytes_result_view, result_view};

verus! {

/// The curve a compiled program is defined over.
#[derive(Clone, Copy, Debug, PartialEq, Eq, Structural)]
pub enum Curve {
    Bn128,
    Bls12_381,
    Bls12_377,
    Bw6_761,
    Pallas,
    Vesta,
}

/// The name of the verifier contract's function whose call is encoded.
pub const VERIFIER_FUNCTION: &'static str = "verifyTx";

/// Error text for a program that is not over bn128, when proving.
pub open spec fn unsupported_proof_curve_message() -> Seq<char> {
    "Unsupported curve! currently only bn128 is supported"@
}

/// Proofs are generated for bn128 programs only.
pub fn check_proof_curve(curve: Curve) -> (res: Result<(), String>)
    ensures
        res is Ok <==> curve == Curve::Bn128,
        res matches Err(e) ==> e@ == unsupported_proof_curve_message(),
{
    match curve {
        Curve::Bn128 => Ok(()),
        _ => Err(String::from_str("Unsupported curve! currently only bn128 is supported")),
    }
}

/// The JSON `null` value.
pub fn json_null() -> (n: JsonNode)
    ensures
        n is Scalar,
        node_text(n) == "null"@,
{
    JsonNode::Scalar { text: String::from_str("null") }
}

/// Whether `k` is the first position among the object entries whose key is
/// `key`.
pub open spec fn is_first_key(keys: Seq<String>, values: Seq<JsonNode>, key: Seq<char>, k: int) -> bool {
    &&& 0 <= k < keys.len()
    &&& k < values.len()
    &&& keys[k]@ == key
    &&& forall|j: int| 0 <= j < k ==> keys[j]@ != key
}

/// `value[key]` of serde_json: the value stored under `key` in an object,
/// `None` (standing for `null`) for a missing key or a value that is not an
/// object.
pub open spec fn json_field(n: JsonNode, key: Seq<char>) -> Option<JsonNode> {
    match n {
        JsonNode::Object { keys, values, .. } => if exists|k: int|
            is_first_key(keys@, values@, key, k) {
            Some(values@[choose|k: int| is_first_key(keys@, values@, key, k)])
        } else {
            None
        },
        _ => None,
    }
}

/// What `abi_encode` gives for `param` and the JSON `null`.
pub open spec fn abi_encode_null_result(param: AbiParam) -> Option<Result<SolSpec, Seq<char>>> {
    let ty = param.ty@;
    if ty == "tuple"@ {
        None
    } else {
        match array_element_type(ty) {
            Some(_) => Some(Err("could not "@)),
            None => encode_single_text(ty, "null"@),
        }
    }
}

/// What `abi_encode` gives for `param` and a looked-up field.
pub open spec fn field_encode_result(param: AbiParam, field: Option<JsonNode>) -> Option<
    Result<SolSpec, Seq<char>>,
> {
    match field {
        Some(n) => abi_encode_result(param, n),
        None => abi_encode_null_result(param),
    }
}

/// Encoding a `null` scalar depends on nothing but its text.
proof fn lemma_null_encoding(param: AbiParam, n: JsonNode)
    requires
        n is Scalar,
        node_text(n) == "null"@,
    ensures
        abi_encode_result(param, n) == abi_encode_null_result(param),
{
}

/// The value under `key` of the object `n`, or `null`.
fn field_or_null<'a>(n: &'a JsonNode, key: &str) -> (res: Option<&'a JsonNode>)
    ensures
        res matches Some(v) ==> json_field(*n, key@) == Some(*v),
        res is None ==> json_field(*n, key@) is None,
{
    match n {
        JsonNode::Object { text, keys, values } => {
            assert(*n == JsonNode::Object { text: *text, keys: *keys, values: *values });
            let mut k: usize = 0;
            while k < keys.len() && k < values.len()
                invariant
                    *n == (JsonNode::Object { text: *text, keys: *keys, values: *values }),
                    k <= keys@.len(),
                    forall|j: int| 0 <= j < k ==> keys@[j]@ != key@,
                decreases keys@.len() - k,
            {
                if crate::abi::str_equal(keys[k].as_str(), key) {
                    proof {
                        assert(is_first_key(keys@, values@, key@, k as int));
                        let c = choose|c: int| is_first_key(keys@, values@, key@, c);
                        assert(is_first_key(keys@, values@, key@, c));
                        if c < k {
                            assert(keys@[c]@ != key@);
                        }
                        if c > k {
                            assert(keys@[k as int]@ == key@);
                        }
                        assert(c == k);
                        assert(json_field(*n, key@) == Some(values@[k as int]));
                    }
                    return Some(&values[k]);
                }
                k = k + 1;
            }
            proof {
                assert forall|c: int| !is_first_key(keys@, values@, key@, c) by {
                    if is_first_key(keys@, values@, key@, c) {
                        assert(keys@[c]@ == key@);
                    }
                }
            }
            None
        },
        _ => None,
    }
}

/// Encodes `param` from `n[key]`, a missing field being `null`.
fn try_encode_field(param: &AbiParam, n: &JsonNode, key: &str) -> (res: Option<Result<SolValue, String>>)
    ensures
        outcome_view(res) == field_encode_result(*param, json_field(*n, key@)),
{
    match field_or_null(n, key) {
        Some(v) => try_abi_encode(param, v),
        None => {
            let null = json_null();
            proof {
                lemma_null_encoding(*param, null);
            }
            try_abi_encode(param, &null)
        },
    }
}

/// What `encode_verifier_arguments` gives; `None` where the computation
/// panics (no function behind the name, a function without inputs, a panic
/// while encoding, or a second input missing once the first is encoded).
pub open spec fn verifier_arguments_result(functions: Option<Vec<Vec<AbiParam>>>, proof: JsonNode) -> Option<
    Result<(SolSpec, SolSpec), Seq<char>>,
> {
    match functions {
        None => Some(Err("could not find function with name: "@ + "verifyTx"@)),
        Some(fs) => if fs@.len() == 0 || fs@[0]@.len() == 0 {
            None
        } else {
            let inputs = fs@[0]@;
            match field_encode_result(inputs[0], json_field(proof, "proof"@)) {
                None => None,
                Some(Err(e)) => Some(Err(e)),
                Some(Ok(a)) => if inputs.len() < 2 {
                    None
                } else {
                    match field_encode_result(inputs[1], json_field(proof, "inputs"@)) {
                        None => None,
                        Some(Err(e)) => Some(Err(e)),
                        Some(Ok(b)) => Some(Ok((a, b))),
                    }
                },
            }
        },
    }
}

/// A pair outcome, by views.
pub open spec fn pair_outcome_view(r: Option<Result<(SolValue, SolValue), String>>) -> Option<
    Result<(SolSpec, SolSpec), Seq<char>>,
> {
    match r {
        None => None,
        Some(Ok((a, b))) => Some(Ok((sol_view(a), sol_view(b)))),
        Some(Err(e)) => Some(Err(e@)),
    }
}

/// `encode_verifier_arguments`, with `None` on the inputs on which the
/// computation panics.
pub fn try_encode_verifier_arguments(
    functions: &Option<Vec<Vec<AbiParam>>>,
    proof: &JsonNode,
) -> (res: Option<Result<(SolValue, SolValue), String>>)
    ensures
        pair_outcome_view(res) == verifier_arguments_result(*functions, *proof),
{
    match functions {
        None => Some(Err(String::from_str("could not find function with name: ").concat(VERIFIER_FUNCTION))),
        Some(fs) => {
            if fs.len() == 0 || fs[0].len() == 0 {
                return None;
            }
            let inputs = &fs[0];
            match try_encode_field(&inputs[0], proof, "proof") {
                None => None,
                Some(Err(e)) => Some(Err(e)),
                Some(Ok(a)) => {
                    if inputs.len() < 2 {
                        return None;
                    }
                    match try_encode_field(&inputs[1], proof, "inputs") {
                        None => None,
                        Some(Err(e)) => Some(Err(e)),
                        Some(Ok(b)) => Some(Ok((a, b))),
                    }
                },
            }
        },
    }
}

/// Assembles the two arguments of the verifier call from the proof's JSON:
/// the first input of the first function named `verifyTx` from the proof's
/// `proof` field, the second from its `inputs` field. `functions` holds the
/// input parameters of each function of that name, `None` if there is none.
pub fn encode_verifier_arguments(
    functions: &Option<Vec<Vec<AbiParam>>>,
    proof: &JsonNode,
) -> (res: Result<(SolValue, SolValue), String>)
    requires
        verifier_arguments_result(*functions, *proof) is Some,
    ensures
        pair_outcome_view(Some(res)) == verifier_arguments_result(*functions, *proof),
{
    match try_encode_verifier_arguments(functions, proof) {
        Some(r) => r,
        None => {
            assert(false);
            Err(String::new())
        },
    }
}

/// `data` as lower-case hex, two digits per byte, high digit first.
pub open spec fn lower_hex(data: Seq<u8>) -> Seq<char> {
    crate::utils::hex_text(data, false)
}

/// `hex::encode(data)`. Claimed: two lower-case hex digits per byte, high
/// digit first.
#[verifier::external_body]
fn hex_encode(data: &[u8]) -> (res: String)
    ensures
        res@ == lower_hex(data@),
{
    hex::encode(data)
}

/// What `finish_call_data` gives for the outcome of encoding the call.
pub open spec fn call_data_result(encoded: Result<Seq<u8>, Seq<char>>) -> Result<Seq<char>, Seq<char>> {
    match encoded {
        Ok(bytes) => Ok(lower_hex(bytes)),
        Err(e) => Err("could not abi_encode: "@ + e),
    }
}

/// Reports the ABI-encoded verifier call as lower-case hex, or why it could
/// not be encoded.
pub fn finish_call_data(encoded: Result<Vec<u8>, String>) -> (res: Result<String, String>)
    ensures
        result_view(res) == call_data_result(bytes_result_view(encoded)),
{
    match encoded {
        Ok(bytes) => Ok(hex_encode(bytes.as_slice())),
        Err(e) => Err(String::from_str("could not abi_encode: ").concat(e.as_str())),
    }
}

/// What parsing `abi_json` as a JSON ABI and looking up the functions named
/// `name` gives: the parse error's text, or for each function of that name
/// (in the ABI's order) its input parameters, or `None` where there is none.
pub uninterp spec fn abi_function_lookup(abi_json: Seq<u8>, name: Seq<char>) -> Result<
    Option<Seq<Seq<AbiParam>>>,
    Seq<char>,
>;

/// A lookup outcome, by views.
pub open spec fn lookup_view(r: Result<Option<Vec<Vec<AbiParam>>>, String>) -> Result<
    Option<Seq<Seq<AbiParam>>>,
    Seq<char>,
> {
    match r {
        Err(e) => Err(e@),
        Ok(None) => Ok(None),
        Ok(Some(fs)) => Ok(Some(fs@.map_values(|f: Vec<AbiParam>| f@))),
    }
}

/// What encoding a call of the function `name` with the input parameters
/// `inputs` on the arguments `args` gives: the 4-byte selector of the
/// function's signature followed by the ABI encoding of the arguments, or
/// the error's text when the arguments do not match the parameters.
pub uninterp spec fn abi_call_encoding(name: Seq<char>, inputs: Seq<AbiParam>, args: Seq<SolSpec>) -> Result<
    Seq<u8>,
    Seq<char>,
>;

/// alloy's ABI parameter, carried opaquely by the conversions below.
#[verifier::external_type_specification]
#[verifier::external_body]
pub struct ExParam(alloy_json_abi::Param);

/// alloy's dynamic Solidity value, carried opaquely by the conversions below.
#[verifier::external_type_specification]
#[verifier::external_body]
pub struct ExDynSolValue(alloy_dyn_abi::DynSolValue);

/// The alloy form of a parameter: its type and components, one for one.
#[verifier::external_body]
fn alloy_param(p: &AbiParam) -> Param {
    Param {
        ty: p.ty.clone(),
        name: String::new(),
        components: p.components.iter().map(alloy_param).collect(),
        internal_type: None,
    }
}

/// The library form of an alloy parameter: its type and components, one for
/// one.
#[verifier::external_body]
fn library_param(p: &Param) -> AbiParam {
    AbiParam { ty: p.ty.clone(), components: p.components.iter().map(library_param).collect() }
}

/// The alloy form of a Solidity value, one for one (a `uint256` from its
/// limbs).
#[verifier::external_body]
fn alloy_value(v: &SolValue) -> DynSolValue {
    match v {
        SolValue::Uint(limbs) => DynSolValue::from(alloy_primitives::U256::from_limbs(*limbs)),
        SolValue::Tuple(items) => DynSolValue::Tuple(items.iter().map(alloy_value).collect()),
        SolValue::FixedArray(items) => DynSolValue::FixedArray(items.iter().map(alloy_value).collect()),
    }
}

/// `serde_json::from_slice::<alloy_json_abi::JsonAbi>(abi_json)` followed by
/// `JsonAbi::function(name)`, the inputs of each function found given in the
/// library's form and a parse error as its `Display` text. Claimed: the
/// outcome is `abi_function_lookup(abi_json, name)`, a function of the bytes
/// and the name alone.
#[verifier::external_body]
fn abi_function_inputs(abi_json: &[u8], name: &str) -> (res: Result<Option<Vec<Vec<AbiParam>>>, String>)
    ensures
        lookup_view(res) == abi_function_lookup(abi_json@, name@),
{
    let abi: JsonAbi = serde_json::from_slice(abi_json).map_err(|e| e.to_string())?;
    Ok(abi.function(name).map(|fs| fs.iter().map(|f| f.inputs.iter().map(library_param).collect()).collect()))
}

/// `alloy_dyn_abi::JsonAbiExt::abi_encode_input` on the function `name` with
/// the parameters `inputs`, for the arguments `args` in alloy's form, its
/// error as `Display` text. Claimed: the outcome is
/// `abi_call_encoding(name, inputs, args)`, a function of these alone (the
/// selector depends on the name and the parameter types only).
#[verifier::external_body]
fn abi_encode_call(name: &str, inputs: &Vec<AbiParam>, args: Vec<SolValue>) -> (res: Result<Vec<u8>, String>)
    ensures
        bytes_result_view(res) == abi_call_encoding(name@, inputs@, sol_views(args@)),
{
    let function = Function {
        name: name.to_string(),
        inputs: inputs.iter().map(alloy_param).collect(),
        outputs: Vec::new(),
        state_mutability: StateMutability::NonPayable,
    };
    let values: Vec<DynSolValue> = args.iter().map(alloy_value).collect();
    function.abi_encode_input(&values).map_err(|e| e.to_string())
}

/// The input parameters of the functions named `verifyTx` in the JSON ABI
/// `abi_json` (`None` where there is none), or why the ABI does not parse.
pub fn verifier_function_inputs(abi_json: &[u8]) -> (res: Result<Option<Vec<Vec<AbiParam>>>, String>)
    ensures
        lookup_view(res) == abi_function_lookup(abi_json@, "verifyTx"@),
{
    abi_function_inputs(abi_json, VERIFIER_FUNCTION)
}

/// What `verifier_call_data` gives: the call of `verifyTx`, with the encoded
/// `proof` and `inputs` of the proof, ABI-encoded and reported as hex; the
/// first error on the way; `None` where the computation panics.
pub open spec fn verifier_call_data_result(functions: Option<Vec<Vec<AbiParam>>>, proof: JsonNode) -> Option<
    Result<Seq<char>, Seq<char>>,
> {
    match verifier_arguments_result(functions, proof) {
        None => None,
        Some(Err(e)) => Some(Err(e)),
        Some(Ok((a, b))) => Some(
            call_data_result(abi_call_encoding("verifyTx"@, functions->0@[0]@, seq![a, b])),
        ),
    }
}

/// A text outcome, by views.
pub open spec fn text_outcome_view(r: Option<Result<String, String>>) -> Option<Result<Seq<char>, Seq<char>>> {
    match r {
        None => None,
        Some(r) => Some(result_view(r)),
    }
}

/// The hex call data of `verifyTx` for a proof: its two arguments assembled
/// from the proof's JSON, the call ABI-encoded with the first function named
/// `verifyTx` among `functions`, and the bytes reported as lower-case hex.
/// `None` on the inputs on which the computation panics.
pub fn verifier_call_data(functions: &Option<Vec<Vec<AbiParam>>>, proof: &JsonNode) -> (res: Option<
    Result<String, String>,
>)
    ensures
        text_outcome_view(res) == verifier_call_data_result(*functions, *proof),
{
    match try_encode_verifier_arguments(functions, proof) {
        None => None,
        Some(Err(e)) => Some(Err(e)),
        Some(Ok((a, b))) => {
            let inputs = match functions {
                Some(fs) => &fs[0],
                None => {
                    return None;
                },
            };
            let ghost ga = a;
            let ghost gb = b;
            let mut args: Vec<SolValue> = Vec::new();
            args.push(a);
            args.push(b);
            proof {
                let s = args@;
                assert(s.drop_last().drop_last() =~= Seq::<SolValue>::empty());
                assert(s.drop_last().last() == ga);
                assert(s.last() == gb);
                assert(sol_views(s.drop_last().drop_last()) =~= Seq::<SolSpec>::empty());
                assert(sol_views(s.drop_last()) =~= seq![sol_view(ga)]);
                assert(sol_views(s) =~= seq![sol_view(ga), sol_view(gb)]);
            }
            let encoded = abi_encode_call(VERIFIER_FUNCTION, inputs, args);
            Some(finish_call_data(encoded))
        },
    }
}

} // verus!
