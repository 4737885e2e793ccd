# zokrates_sprout

A gRPC service that stores ZoKrates projects and answers execution requests
with a proof, ABI-encoded as a call of the verifier contract's `verifyTx`.

- `src/` is the verified library (Verus):
  - `text`: splitting and joining strings, specified over `Seq<char>`;
  - `utils`: `group_by` (regrouping request data by place) and the decoding
    of hex, zlib-compressed payloads (`convert_zlib_hex_to_bytes`, `convert`);
  - `abi`: JSON values and ABI parameters as plain data, and the encoding of
    a JSON value as a Solidity value (`encode_single`, `abi_encode`);
  - `generate_proof` / `compute_witness`: the supported curves, reading the
    verifier's inputs from its JSON ABI, assembly of the call arguments from a
    proof's JSON, and the hex call data of `verifyTx` (encoded with alloy);
  - `service`: the project store and the decisions of an execution request.
- `app/` is the server: networking, locking, and the ZoKrates witness and
  proof computations, which call the library for every decision.
- `tests/` run the library on concrete values.
