use stellar_mixer_treepir_server::api_error::{missing_registration_error, PirError};
use stellar_mixer_treepir_server::encoding::{decode_hash_hex, hex_encode, parse_hash_string};
use stellar_mixer_treepir_server::layout::{
    health, hex_decode_32, layout, ready, validate_crs_hash_format, TreePirLayout,
};
use stellar_mixer_treepir_server::path_query::{
    admit_path_query, decode_level_queries, has_core_response_shape, query_path, same_layout,
    validate_level_query_shape, TreePirLevelResponse, TreePirPathResponse,
};
use stellar_mixer_treepir_server::registration::{
    register_client, registered_crs, validate_registered_crs_params, PirParams,
};
use stellar_mixer_treepir_server::wire::fits_base64;
use stellar_mixer_treepir_server::{
    decode_bincode_base64, decode_json_base64, encode_bincode_base64, encode_json_base64, ApiError,
    LayoutDto, LayoutQuery, LevelQueryDto, PathQueryRequest, PathQueryResponse,
    RegisterClientRequest, SERVER_DEPTH,
};

fn tree_layout(leaf_count: usize) -> TreePirLayout {
    let mut level_lens = [1usize; SERVER_DEPTH];
    level_lens[0] = leaf_count;
    TreePirLayout { leaf_count, root: [leaf_count as u8; 32], level_lens }
}

fn crs_hash() -> String {
    "aB".repeat(32)
}

/// A query whose payloads cannot be decoded.
fn request(layout: &TreePirLayout) -> PathQueryRequest {
    PathQueryRequest {
        crs_hash: crs_hash(),
        layout: LayoutDto::from_treepir(layout),
        levels: (0..SERVER_DEPTH)
            .map(|level| LevelQueryDto {
                level,
                query_json_base64: "definitely-not-base64".to_string(),
            })
            .collect(),
    }
}

fn answer(error: ApiError) -> (u16, String) {
    let (status, body) = error.into_response();
    (status, body.error)
}

#[test]
fn unregistered_client_is_refused_before_payloads_are_decoded() {
    let current = tree_layout(16);
    let error = admit_path_query(&request(&current), false, &current).unwrap_err();
    assert_eq!(answer(error), (401, "missing client registration".to_string()));
}

#[test]
fn stale_layout_is_refused_before_payloads_are_decoded() {
    let error = admit_path_query(&request(&tree_layout(8)), true, &tree_layout(9)).unwrap_err();
    assert_eq!(
        answer(error),
        (409, "stale layout; refresh layout and rebuild PIR query".to_string())
    );
}

#[test]
fn non_canonical_levels_are_refused_before_payloads_are_decoded() {
    let current = tree_layout(16);
    let mut short = request(&current);
    short.levels.truncate(4);
    assert_eq!(
        answer(admit_path_query(&short, true, &current).unwrap_err()),
        (400, "invalid path request: expected 45 level PIR queries, got 4".to_string())
    );
    let mut twice = request(&current);
    twice.levels[1].level = 0;
    assert_eq!(
        answer(admit_path_query(&twice, true, &current).unwrap_err()),
        (
            400,
            "invalid path request: path request levels must be canonical 0..44; \
             at position 1, got level 0"
                .to_string()
        )
    );
    let mut empty = tree_layout(16);
    empty.level_lens[3] = 0;
    assert_eq!(
        answer(admit_path_query(&request(&empty), true, &empty).unwrap_err()),
        (400, "invalid layout: empty level database at level 3".to_string())
    );
}

#[test]
fn canonical_query_is_taken_and_then_decoded() {
    let current = tree_layout(16);
    let mut query = request(&current);
    let taken = admit_path_query(&query, true, &current).unwrap();
    assert!(same_layout(&taken, &current));
    assert!(validate_level_query_shape(&query.levels, &current).is_ok());
    let parse = |bytes: &[u8]| -> Result<u64, String> {
        serde_json::from_slice(bytes).map_err(|error| error.to_string())
    };
    assert_eq!(
        answer(decode_level_queries(&query.levels, parse).unwrap_err()),
        (400, "invalid base64: Invalid symbol 45, offset 10.".to_string())
    );
    for (i, level) in query.levels.iter_mut().enumerate() {
        level.query_json_base64 = encode_json_base64(Ok(format!("{}", i + 7).into_bytes())).unwrap();
    }
    let decoded = decode_level_queries(&query.levels, parse).unwrap();
    assert_eq!(decoded.len(), SERVER_DEPTH);
    assert_eq!(decoded[3], (3, 10));
    let (taken, queries) = query_path(&query, true, &current, parse).unwrap();
    assert!(same_layout(&taken, &current));
    assert_eq!(queries, decoded);
    assert_eq!(answer(query_path(&query, false, &current, parse).unwrap_err()).0, 401);
    query.levels[2].query_json_base64 = encode_json_base64(Ok(b"x".to_vec())).unwrap();
    assert_eq!(
        answer(decode_level_queries(&query.levels, parse).unwrap_err()),
        (400, "invalid json wire payload: expected value at line 1 column 1".to_string())
    );
}

#[test]
fn query_needs_a_crs_hash_and_a_layout() {
    let current = tree_layout(16);
    let mut query = request(&current);
    query.crs_hash = "ab".repeat(31) + "zz";
    assert_eq!(
        answer(admit_path_query(&query, false, &current).unwrap_err()),
        (400, "invalid CRS hash".to_string())
    );
    let mut query = request(&current);
    query.layout.level_lens.pop();
    assert_eq!(
        answer(admit_path_query(&query, false, &current).unwrap_err()),
        (400, "invalid layout: expected 45 level lengths, got 44".to_string())
    );
}

#[test]
fn layout_is_for_registered_clients() {
    let current = tree_layout(16);
    let ask = |crs_hash: Option<String>, registered: bool| {
        layout(&LayoutQuery { crs_hash }, registered, &current)
    };
    assert_eq!(answer(ask(None, true).unwrap_err()).0, 401);
    assert_eq!(answer(ask(Some(crs_hash()), false).unwrap_err()).0, 401);
    assert_eq!(answer(ask(Some("ab".to_string()), true).unwrap_err()).0, 400);
    let dto = ask(Some(crs_hash()), true).unwrap();
    assert_eq!(dto.leaf_count, 16);
    assert_eq!(dto.root_hex, "10".repeat(32));
    assert_eq!(dto.level_lens.len(), SERVER_DEPTH);
    assert_eq!(dto.level_lens[0], 16);
}

#[test]
fn layout_is_received_as_sent() {
    let sent = tree_layout(255);
    let dto = LayoutDto::from_treepir(&sent);
    assert!(dto.is_cut());
    assert!(same_layout(&dto.to_treepir().unwrap(), &sent));
}

#[test]
fn roots_are_hexadecimal_pairs() {
    assert_eq!(hex_decode_32(&"aB".repeat(32)).unwrap(), [0xab; 32]);
    assert_eq!(hex_decode_32(&"+1".repeat(32)).unwrap(), [1; 32]);
    assert_eq!(
        answer(hex_decode_32("ab").unwrap_err()).1,
        "invalid layout: expected 64 hex chars for root, got 2"
    );
    assert_eq!(
        answer(hex_decode_32(&"1+".repeat(32)).unwrap_err()).1,
        "invalid layout: invalid digit found in string"
    );
    let mut dto = LayoutDto::from_treepir(&tree_layout(1));
    dto.root_hex = "a\u{e9}b".to_string() + &"0".repeat(60);
    assert_eq!(dto.root_hex.len(), 64);
    assert!(!dto.is_cut());
    dto.root_hex = "\u{e9}".repeat(32);
    assert!(dto.is_cut());
    assert_eq!(
        answer(dto.to_treepir().unwrap_err()).1,
        "invalid layout: invalid digit found in string"
    );
}

#[test]
fn crs_hashes_are_64_digits() {
    assert!(validate_crs_hash_format(&crs_hash()).is_ok());
    assert!(validate_crs_hash_format("").is_err());
    assert!(validate_crs_hash_format(&"+1".repeat(32)).is_err());
}

#[test]
fn hexadecimal_reads_back() {
    let mut hash = [0u8; 32];
    for (i, byte) in hash.iter_mut().enumerate() {
        *byte = (i * 8 + 7) as u8;
    }
    let text = hex_encode(&hash);
    assert_eq!(&text[..8], "070f171f");
    assert_eq!(decode_hash_hex(&text).unwrap(), hash);
    assert_eq!(parse_hash_string(&format!(" 0x{text}\n")).ok(), Some(hash));
}

fn params() -> PirParams {
    PirParams {
        ring_dim: 2048,
        q: 7,
        crt_moduli: vec![1, 2],
        p: 65537,
        sigma_bits: 6.4f64.to_bits(),
        sigma: "6.4".to_string(),
        gadget_base: 16,
        gadget_len: 3,
        security_level: "Bits128".to_string(),
    }
}

#[test]
fn only_the_server_params_are_taken() {
    assert!(validate_registered_crs_params(&params(), &params()).is_ok());
    let message = |got: PirParams| {
        let error = validate_registered_crs_params(&got, &params()).unwrap_err();
        let (status, text) = answer(error);
        assert_eq!(status, 400);
        text
    };
    assert_eq!(
        message(PirParams { ring_dim: 2049, ..params() }),
        "invalid client CRS: ring_dim mismatch: expected 2048, got 2049"
    );
    assert_eq!(message(PirParams { q: 8, ..params() }), "invalid client CRS: q mismatch");
    assert_eq!(
        message(PirParams { crt_moduli: vec![1], ..params() }),
        "invalid client CRS: crt_moduli mismatch"
    );
    assert_eq!(message(PirParams { p: 8, ..params() }), "invalid client CRS: p mismatch");
    let sigma = PirParams {
        sigma_bits: 3.2f64.to_bits(),
        sigma: "3.2".to_string(),
        ..params()
    };
    assert_eq!(
        message(sigma),
        "invalid client CRS: sigma mismatch: expected 6.4, got 3.2"
    );
    assert_eq!(
        message(PirParams { gadget_base: 8, ..params() }),
        "invalid client CRS: gadget_base mismatch"
    );
    assert_eq!(
        message(PirParams { gadget_len: 8, ..params() }),
        "invalid client CRS: gadget_len mismatch"
    );
    assert_eq!(
        message(PirParams { security_level: "None".to_string(), ..params() }),
        "invalid client CRS: security_level mismatch"
    );
}

#[test]
fn crs_is_decoded_and_checked() {
    let read = |bytes: &[u8]| -> Result<usize, String> {
        match bytes {
            [a, b] => Ok(usize::from(*a) * 256 + usize::from(*b)),
            _ => Err("not two bytes".to_string()),
        }
    };
    let params_of = |crs: &usize| -> PirParams { PirParams { ring_dim: *crs, ..params() } };
    let ask = |bytes: Vec<u8>| {
        let request = RegisterClientRequest {
            crs_bincode_base64: encode_bincode_base64(Ok(bytes)).unwrap(),
        };
        registered_crs(&request, read, params_of, &params())
    };
    assert_eq!(ask(vec![8, 0]).unwrap(), 2048);
    assert_eq!(
        answer(ask(vec![8, 1]).unwrap_err()),
        (
            400,
            "invalid client CRS: ring_dim mismatch: expected 2048, got 2049".to_string()
        )
    );
    assert_eq!(
        answer(ask(vec![8]).unwrap_err()),
        (400, "invalid bincode: not two bytes".to_string())
    );
}

#[test]
fn registration_is_answered() {
    let response = register_client(Ok(crs_hash())).unwrap();
    assert_eq!(response.crs_hash, crs_hash());
    assert!(response.registered);
    let error = register_client(Err(PirError::Other("no room".to_string()))).unwrap_err();
    assert_eq!(answer(error), (400, "no room".to_string()));
}

#[test]
fn errors_are_answered() {
    assert_eq!(
        answer(missing_registration_error("ab")),
        (401, "missing client registration".to_string())
    );
    let stale = PirError::Inspire {
        message: "the stale layout".to_string(),
        display: "inspire: the stale layout".to_string(),
    };
    assert_eq!(
        answer(ApiError::TreePir(stale)),
        (409, "stale layout; refresh layout and rebuild PIR query".to_string())
    );
    let other = PirError::Inspire {
        message: "fresh".to_string(),
        display: "inspire: fresh".to_string(),
    };
    assert_eq!(answer(ApiError::TreePir(other)), (400, "inspire: fresh".to_string()));
    for (error, text) in [
        (PirError::InvalidIndex("i".to_string()), "i"),
        (PirError::InvalidLevel("l".to_string()), "l"),
        (PirError::InvalidRequest("r".to_string()), "r"),
    ] {
        assert_eq!(answer(ApiError::TreePir(error)), (400, text.to_string()));
    }
    assert_eq!(
        answer(ApiError::Bincode("b".to_string())),
        (400, "invalid bincode: b".to_string())
    );
    assert_eq!(
        answer(ApiError::InvalidPathResponse("p".to_string())),
        (400, "invalid path response: p".to_string())
    );
}

fn path_response(layout: TreePirLayout) -> TreePirPathResponse<Vec<u64>> {
    TreePirPathResponse {
        layout,
        levels: (0..SERVER_DEPTH)
            .map(|level| TreePirLevelResponse {
                level,
                level_len: layout.level_lens[level],
                response: vec![level as u64, 1000],
            })
            .collect(),
    }
}

fn write_json(value: &Vec<u64>) -> Result<Vec<u8>, String> {
    serde_json::to_vec(value).map_err(|error| error.to_string())
}

fn read_json(bytes: &[u8]) -> Result<Vec<u64>, String> {
    serde_json::from_slice(bytes).map_err(|error| error.to_string())
}

#[test]
fn response_is_received_as_sent() {
    let response = path_response(tree_layout(16));
    assert!(has_core_response_shape(&response));
    let dto = PathQueryResponse::from_treepir(&response, write_json).unwrap();
    assert_eq!(dto.levels[2].level, 2);
    assert_eq!(dto.levels[2].response_json_base64, "WzIsMTAwMF0=");
    let received = dto.to_treepir(read_json).unwrap();
    assert!(same_layout(&received.layout, &response.layout));
    for (got, sent) in received.levels.iter().zip(&response.levels) {
        assert_eq!(got.level, sent.level);
        assert_eq!(got.level_len, sent.level_len);
        assert_eq!(got.response, sent.response);
    }
}

#[test]
fn broken_responses_are_refused() {
    let sent = || {
        PathQueryResponse::from_treepir(&path_response(tree_layout(16)), write_json).unwrap()
    };
    let mut dto = sent();
    dto.levels.pop();
    assert_eq!(
        answer(dto.to_treepir(read_json).unwrap_err()).1,
        "invalid path response: expected 45 level PIR responses, got 44"
    );
    let mut dto = sent();
    dto.levels[7].level = 8;
    dto.levels[8].response_json_base64 = "?".to_string();
    assert_eq!(
        answer(dto.to_treepir(read_json).unwrap_err()).1,
        "invalid path response: path response levels must be canonical 0..44; \
         at position 7, got level 8"
    );
    let mut dto = sent();
    dto.levels[7].response_json_base64 = "e30=".to_string();
    assert!(answer(dto.to_treepir(read_json).unwrap_err())
        .1
        .starts_with("invalid json wire payload: "));
    let mut response = path_response(tree_layout(16));
    response.levels[3].level_len += 1;
    assert!(!has_core_response_shape(&response));
    let failing = |_: &Vec<u64>| -> Result<Vec<u8>, String> { Err("no".to_string()) };
    assert_eq!(
        answer(PathQueryResponse::from_treepir(&response, failing).unwrap_err()).1,
        "invalid json wire payload: no"
    );
}

#[test]
fn payloads_are_base64() {
    let read = |bytes: &[u8]| -> Result<Vec<u8>, String> {
        if bytes.is_empty() {
            Err("empty".to_string())
        } else {
            Ok(bytes.to_vec())
        }
    };
    let text = encode_bincode_base64(Ok(vec![0, 255, 16])).unwrap();
    assert_eq!(text, "AP8Q");
    assert_eq!(decode_bincode_base64(&text, read).unwrap(), vec![0, 255, 16]);
    assert_eq!(decode_json_base64(&text, read).unwrap(), vec![0, 255, 16]);
    assert_eq!(
        answer(decode_bincode_base64("", read).unwrap_err()).1,
        "invalid bincode: empty"
    );
    assert_eq!(
        answer(decode_bincode_base64("AP8", read).unwrap_err()).1,
        "invalid base64: Invalid padding"
    );
    assert_eq!(
        answer(encode_bincode_base64(Err("no".to_string())).unwrap_err()).1,
        "invalid bincode: no"
    );
    assert!(fits_base64(1 << 20));
    assert!(!fits_base64(usize::MAX));
}

#[test]
fn server_says_that_it_is_up() {
    let up = health();
    assert!(up.ok);
    assert_eq!(up.service, "stellar-mixer-treepir-server");
    let state = ready(3, &[0xab; 32]);
    assert!(state.ready);
    assert_eq!(state.depth, 45);
    assert_eq!(state.leaf_count, 3);
    assert_eq!(state.root_hex, "ab".repeat(32));
}
