use base64::Engine;
use soroban_sdk::xdr::{
    AccountId, ContractDataDurability, ContractId, HostFunction, LedgerEntry, LedgerEntryData, LedgerEntryExt,
    LedgerFootprint, LedgerKey, LedgerKeyAccount, LedgerKeyContractData, LedgerKeyTtl, Limits, OperationBody,
    PublicKey, ReadXdr, ScAddress as XScAddress, ScVal as XScVal, SorobanResources as XResources,
    SorobanTransactionData, SorobanTransactionDataExt, TransactionV1Envelope, TtlEntry, Uint256, WriteXdr,
};
use soroscope::simulation::{
    calculate_cost, create_invoke_transaction, decode_overrides, extract_footprint_from_xdr, finish_simulation,
    parse_contract_id, parse_sc_val_arg, plan_simulation, DataSource, SimulationError, SimulationResult,
};
use soroscope::resources::SorobanResources;
use soroscope::value::{estimate_scval_size, ScVal};

const BASE64: base64::engine::GeneralPurpose = base64::engine::general_purpose::STANDARD;

#[test]
fn test_soroban_resources_default() {
    let resources = SorobanResources::default();
    assert_eq!(resources.cpu_instructions, 0);
    assert_eq!(resources.ram_bytes, 0);
    assert_eq!(resources.ledger_read_bytes, 0);
    assert_eq!(resources.ledger_write_bytes, 0);
}

#[test]
fn test_calculate_cost() {
    let resources = SorobanResources {
        cpu_instructions: 1000000,
        ram_bytes: 2048,
        ledger_read_bytes: 512,
        ledger_write_bytes: 512,
        transaction_size_bytes: 1024,
    };
    assert!(calculate_cost(&resources) > 0);
}

#[test]
fn test_simulate_from_contract_id_empty() {
    let result = plan_simulation("", "test_function", &vec![], &None);
    assert!(matches!(result, Err(SimulationError::NodeError(_))));
}

#[test]
fn test_simulation_error_display() {
    let err = SimulationError::NodeTimeout;
    assert_eq!(err.message(), "RPC node timeout");

    let err = SimulationError::NodeError("test".to_string());
    assert_eq!(err.message(), "Node returned an error: test");

    let err = SimulationError::XdrError("invalid xdr".to_string());
    assert_eq!(err.message(), "XDR decode error: invalid xdr");
}

#[test]
fn test_extract_footprint_empty_data() {
    assert_eq!(extract_footprint_from_xdr(""), (0, 0));
}

#[test]
fn test_extract_footprint_invalid_base64() {
    assert_eq!(extract_footprint_from_xdr("not-valid-base64!!!"), (0, 0));
}

#[test]
fn test_extract_footprint_invalid_xdr() {
    assert_eq!(extract_footprint_from_xdr("SGVsbG8gV29ybGQ="), (0, 0));
}

#[test]
fn test_estimate_scval_size_primitives() {
    assert_eq!(estimate_scval_size(&ScVal::Bool(true)), 1);
    assert_eq!(estimate_scval_size(&ScVal::Void), 0);
    assert_eq!(estimate_scval_size(&ScVal::U32(42)), 4);
    assert_eq!(estimate_scval_size(&ScVal::I32(-42)), 4);
    assert_eq!(estimate_scval_size(&ScVal::U64(1000)), 8);
    assert_eq!(estimate_scval_size(&ScVal::I64(-1000)), 8);
}

#[test]
fn test_parse_sc_val_arg_bool() {
    assert!(matches!(parse_sc_val_arg("true").unwrap(), ScVal::Bool(true)));
    assert!(matches!(parse_sc_val_arg("false").unwrap(), ScVal::Bool(false)));
}

#[test]
fn test_parse_sc_val_arg_void() {
    assert!(matches!(parse_sc_val_arg("void").unwrap(), ScVal::Void));
    assert!(matches!(parse_sc_val_arg("()").unwrap(), ScVal::Void));
}

#[test]
fn test_parse_sc_val_arg_symbol() {
    assert!(matches!(parse_sc_val_arg(":my_symbol").unwrap(), ScVal::Symbol(_)));
}

#[test]
fn test_parse_sc_val_arg_integer() {
    assert!(matches!(parse_sc_val_arg("42").unwrap(), ScVal::I64(42)));
    assert!(matches!(parse_sc_val_arg("-100").unwrap(), ScVal::I64(-100)));
}

#[test]
fn test_parse_sc_val_arg_hex_bytes() {
    assert!(matches!(parse_sc_val_arg("0xdeadbeef").unwrap(), ScVal::Bytes(_)));
}

#[test]
fn test_parse_contract_id_valid() {
    let result = parse_contract_id("CDLZFC3SYJYDZT7K67VZ75HPJVIEUVNIXF47ZG2FB2RMQQVU2HHGCYSC");
    assert!(result.is_ok());
    assert_eq!(result.unwrap().len(), 32);
}

#[test]
fn test_parse_contract_id_invalid_prefix() {
    let result = parse_contract_id("GDLZFC3SYJYDZT7K67VZ75HPJVIEUVNIXF47ZG2FB2RMQQVU2HHGCYSC");
    assert!(matches!(result, Err(SimulationError::NodeError(_))));
}

#[test]
fn test_create_invoke_transaction() {
    let result = create_invoke_transaction(
        "CDLZFC3SYJYDZT7K67VZ75HPJVIEUVNIXF47ZG2FB2RMQQVU2HHGCYSC",
        "hello",
        &vec!["true".to_string(), "42".to_string()],
    );
    assert!(result.is_ok());
    assert!(BASE64.decode(result.unwrap()).is_ok());
}

// ── further cases ──────────────────────────────────────────────────────────

#[test]
fn envelope_decodes_with_the_network_types() {
    let b64 = create_invoke_transaction(
        "CDLZFC3SYJYDZT7K67VZ75HPJVIEUVNIXF47ZG2FB2RMQQVU2HHGCYSC",
        "hello",
        &vec!["true".to_string(), "42".to_string(), "{\"k\": [\":s\", \"0x0a\"]}".to_string()],
    )
    .unwrap();
    let bytes = BASE64.decode(b64).unwrap();
    let env = TransactionV1Envelope::from_xdr(&bytes, Limits::none()).unwrap();
    assert_eq!(env.tx.fee, 100);
    assert_eq!(env.tx.operations.len(), 1);
    assert_eq!(env.signatures.len(), 0);
    match &env.tx.operations[0].body {
        OperationBody::InvokeHostFunction(op) => {
            assert_eq!(op.auth.len(), 0);
            match &op.host_function {
                HostFunction::InvokeContract(args) => {
                    assert_eq!(args.function_name.0.to_utf8_string().unwrap(), "hello");
                    assert_eq!(args.args.len(), 3);
                    assert_eq!(args.args[0], XScVal::Bool(true));
                    assert_eq!(args.args[1], XScVal::I64(42));
                }
                _ => panic!("Expected an invoke-contract host function"),
            }
        }
        _ => panic!("Expected an invoke-host-function operation"),
    }
    // re-encoding with the network types gives the same bytes
    assert_eq!(env.to_xdr(Limits::none()).unwrap(), bytes);
}

#[test]
fn footprint_sizes_follow_the_table() {
    let account = LedgerKey::Account(LedgerKeyAccount {
        account_id: AccountId(PublicKey::PublicKeyTypeEd25519(Uint256([0; 32]))),
    });
    let data = LedgerKey::ContractData(LedgerKeyContractData {
        contract: XScAddress::Contract(ContractId(soroban_sdk::xdr::Hash([1; 32]))),
        key: XScVal::Vec(Some(vec![XScVal::U32(7), XScVal::Bool(true)].try_into().unwrap())),
        durability: ContractDataDurability::Persistent,
    });
    let ttl = LedgerKey::Ttl(LedgerKeyTtl { key_hash: soroban_sdk::xdr::Hash([2; 32]) });
    let tx_data = SorobanTransactionData {
        ext: SorobanTransactionDataExt::V0,
        resources: XResources {
            footprint: LedgerFootprint {
                read_only: vec![account, ttl].try_into().unwrap(),
                read_write: vec![data].try_into().unwrap(),
            },
            instructions: 1,
            disk_read_bytes: 2,
            write_bytes: 3,
        },
        resource_fee: 4,
    };
    let b64 = BASE64.encode(tx_data.to_xdr(Limits::none()).unwrap());
    // read-only: account 56 + ttl 32; read-write: 36 + (4 + 1 + 4)
    assert_eq!(extract_footprint_from_xdr(&b64), (88, 45));
}

#[test]
fn unknown_words_become_symbols_and_long_ones_fail() {
    assert_eq!(parse_sc_val_arg("  transfer ").unwrap(), ScVal::Symbol(b"transfer".to_vec()));
    assert_eq!(parse_sc_val_arg(" true ").unwrap(), ScVal::Bool(true));
    let long = "x".repeat(33);
    match parse_sc_val_arg(&long) {
        Err(SimulationError::NodeError(m)) => assert_eq!(m, format!("Cannot parse argument: {}", long)),
        _ => panic!("Expected NodeError"),
    }
    assert!(matches!(parse_sc_val_arg("{\"a\": 1.5}"), Err(SimulationError::ParseError(_))));
    assert_eq!(parse_sc_val_arg("\"quoted\"").unwrap(), ScVal::String(b"quoted".to_vec()));
    assert_eq!(parse_sc_val_arg("18446744073709551615").unwrap(), ScVal::U64(u64::MAX));
}

#[test]
fn contract_id_errors() {
    match parse_contract_id("") {
        Err(SimulationError::NodeError(m)) => assert_eq!(m, "Contract ID must start with 'C'"),
        _ => panic!("Expected NodeError"),
    }
    match parse_contract_id("Cnot-a-strkey") {
        Err(SimulationError::NodeError(m)) => assert!(m.starts_with("Invalid contract ID format: ")),
        _ => panic!("Expected NodeError"),
    }
}

#[test]
fn function_name_length_is_checked() {
    let r = create_invoke_transaction("CDLZFC3SYJYDZT7K67VZ75HPJVIEUVNIXF47ZG2FB2RMQQVU2HHGCYSC", &"f".repeat(33), &vec![]);
    match r {
        Err(SimulationError::NodeError(m)) => assert_eq!(m, "Invalid function name"),
        _ => panic!("Expected NodeError"),
    }
}

#[test]
fn overrides_are_checked_and_reported_as_injected() {
    let key = LedgerKey::Ttl(LedgerKeyTtl { key_hash: soroban_sdk::xdr::Hash([3; 32]) });
    let entry = LedgerEntry {
        last_modified_ledger_seq: 1,
        data: LedgerEntryData::Ttl(TtlEntry { key_hash: soroban_sdk::xdr::Hash([3; 32]), live_until_ledger_seq: 9 }),
        ext: LedgerEntryExt::V0,
    };
    let key_b64 = BASE64.encode(key.to_xdr(Limits::none()).unwrap());
    let entry_b64 = BASE64.encode(entry.to_xdr(Limits::none()).unwrap());
    let deps = decode_overrides(&vec![(key_b64.clone(), entry_b64.clone())]).unwrap();
    assert_eq!(deps.len(), 1);
    assert_eq!(deps[0].key, key_b64);
    assert_eq!(deps[0].source, DataSource::Injected);

    match decode_overrides(&vec![("AAAAAAAAAAA=".to_string(), entry_b64.clone())]) {
        Err(SimulationError::XdrError(m)) => assert!(m.starts_with("Invalid ledger key: ")),
        _ => panic!("Expected XdrError"),
    }
    match decode_overrides(&vec![(key_b64.clone(), "AAAAAAAAAAA=".to_string())]) {
        Err(SimulationError::XdrError(m)) => assert!(m.starts_with("Invalid ledger entry: ")),
        _ => panic!("Expected XdrError"),
    }
    assert!(matches!(decode_overrides(&vec![("***".to_string(), entry_b64)]), Err(SimulationError::Base64Error(_))));

    let plan = plan_simulation(
        "CDLZFC3SYJYDZT7K67VZ75HPJVIEUVNIXF47ZG2FB2RMQQVU2HHGCYSC",
        "hello",
        &vec![],
        &Some(vec![(key_b64.clone(), BASE64.encode(
            LedgerEntry {
                last_modified_ledger_seq: 1,
                data: LedgerEntryData::Ttl(TtlEntry { key_hash: soroban_sdk::xdr::Hash([3; 32]), live_until_ledger_seq: 9 }),
                ext: LedgerEntryExt::V0,
            }
            .to_xdr(Limits::none())
            .unwrap(),
        ))]),
    )
    .unwrap();
    let deps = plan.state_dependency.unwrap();
    assert_eq!(deps[0].key, key_b64);
}

#[test]
fn nested_size_estimates() {
    let v = ScVal::Vec(Some(vec![ScVal::Bytes(vec![1, 2, 3]), ScVal::U128 { hi: 0, lo: 1 }]));
    assert_eq!(estimate_scval_size(&v), 4 + 3 + 16);
    let m = ScVal::Mapping(Some(vec![soroscope::value::ScMapEntry {
        key: ScVal::Symbol(b"ab".to_vec()),
        val: ScVal::Vec(None),
    }]));
    assert_eq!(estimate_scval_size(&m), 4 + 2 + 4);
    assert_eq!(estimate_scval_size(&ScVal::LedgerKeyContractInstance), 32);
}

#[test]
fn upload_envelope_decodes_with_the_network_types() {
    let code = vec![0u8, 97, 115, 109, 1, 0, 0, 0, 7];
    let bytes = soroscope::xdr::encode_upload_envelope(&code);
    let env = TransactionV1Envelope::from_xdr(&bytes, Limits::none()).unwrap();
    match &env.tx.operations[0].body {
        OperationBody::InvokeHostFunction(op) => match &op.host_function {
            HostFunction::UploadContractWasm(wasm) => assert_eq!(wasm.to_vec(), code),
            _ => panic!("Expected an upload host function"),
        },
        _ => panic!("Expected an invoke-host-function operation"),
    }
}

#[test]
fn values_round_trip_through_the_codec() {
    let v = ScVal::Mapping(Some(vec![soroscope::value::ScMapEntry {
        key: ScVal::Symbol(b"k".to_vec()),
        val: ScVal::Vec(Some(vec![
            ScVal::I128 { high: -1, low: 5 },
            ScVal::String(b"hello".to_vec()),
            ScVal::Error(soroscope::value::ScErrorValue { kind: 0, code: 9 }),
        ])),
    }]));
    let mut out = Vec::new();
    soroscope::xdr::put_val(&mut out, &v);
    let theirs = XScVal::from_xdr(&out, Limits::none()).unwrap();
    assert_eq!(theirs.to_xdr(Limits::none()).unwrap(), out);
    let (back, end) = soroscope::xdr::get_val(&out, 0, 500).unwrap();
    assert_eq!(end, out.len());
    assert_eq!(back, v);
}

#[test]
fn override_report_lists_injected_then_live_keys() {
    let ttl = LedgerKey::Ttl(LedgerKeyTtl { key_hash: soroban_sdk::xdr::Hash([3; 32]) });
    let account = LedgerKey::Account(LedgerKeyAccount {
        account_id: AccountId(PublicKey::PublicKeyTypeEd25519(Uint256([5; 32]))),
    });
    let entry = LedgerEntry {
        last_modified_ledger_seq: 1,
        data: LedgerEntryData::Ttl(TtlEntry { key_hash: soroban_sdk::xdr::Hash([3; 32]), live_until_ledger_seq: 9 }),
        ext: LedgerEntryExt::V0,
    };
    let ttl_b64 = BASE64.encode(ttl.to_xdr(Limits::none()).unwrap());
    let account_b64 = BASE64.encode(account.to_xdr(Limits::none()).unwrap());
    let plan = plan_simulation(
        "CDLZFC3SYJYDZT7K67VZ75HPJVIEUVNIXF47ZG2FB2RMQQVU2HHGCYSC",
        "hello",
        &vec![],
        &Some(vec![(ttl_b64.clone(), BASE64.encode(entry.to_xdr(Limits::none()).unwrap()))]),
    )
    .unwrap();
    let tx_data = SorobanTransactionData {
        ext: SorobanTransactionDataExt::V0,
        resources: XResources {
            footprint: LedgerFootprint {
                read_only: vec![account, ttl].try_into().unwrap(),
                read_write: vec![].try_into().unwrap(),
            },
            instructions: 1,
            disk_read_bytes: 2,
            write_bytes: 3,
        },
        resource_fee: 4,
    };
    let data_b64 = BASE64.encode(tx_data.to_xdr(Limits::none()).unwrap());
    let result = SimulationResult {
        resources: SorobanResources::default(),
        transaction_hash: None,
        latest_ledger: 1,
        cost_stroops: 0,
        state_dependency: None,
    };
    let finished = finish_simulation(result, plan, &data_b64);
    let deps = finished.state_dependency.unwrap();
    assert_eq!(deps.len(), 2);
    assert_eq!(deps[0].key, ttl_b64);
    assert_eq!(deps[0].source, DataSource::Injected);
    assert_eq!(deps[1].key, account_b64);
    assert_eq!(deps[1].source, DataSource::Live);
}

#[test]
fn integer_arguments_follow_json_integer_rules() {
    assert_eq!(parse_sc_val_arg("42").unwrap(), ScVal::I64(42));
    assert_eq!(parse_sc_val_arg("-100").unwrap(), ScVal::I64(-100));
    assert_eq!(parse_sc_val_arg("9223372036854775808").unwrap(), ScVal::U64(9223372036854775808));
    assert_eq!(parse_sc_val_arg("-9223372036854775808").unwrap(), ScVal::I64(i64::MIN));
    // not JSON integers: read as symbols
    assert_eq!(parse_sc_val_arg("+5").unwrap(), ScVal::Symbol(b"+5".to_vec()));
    assert_eq!(parse_sc_val_arg("007").unwrap(), ScVal::Symbol(b"007".to_vec()));
    assert_eq!(parse_sc_val_arg("-0").unwrap(), ScVal::Symbol(b"-0".to_vec()));
}

#[test]
fn prefixed_arguments_are_read_as_strings() {
    assert_eq!(parse_sc_val_arg(":my_symbol").unwrap(), ScVal::Symbol(b"my_symbol".to_vec()));
    assert_eq!(parse_sc_val_arg("0xdeadbeef").unwrap(), ScVal::Bytes(vec![0xde, 0xad, 0xbe, 0xef]));
    // a bad symbol or bad hex falls back to a symbol of the whole text
    assert_eq!(parse_sc_val_arg(":bad sym").unwrap(), ScVal::Symbol(b":bad sym".to_vec()));
    assert_eq!(parse_sc_val_arg("0xabc").unwrap(), ScVal::Symbol(b"0xabc".to_vec()));
    assert!(matches!(
        parse_sc_val_arg("CAAAAAAAAAAAAAAAAAAAAAAAAAAAAAAAAAAAAAAAAAAAAAAAAAAAD2KM").unwrap(),
        ScVal::Address(soroscope::value::ScAddress::Contract(_))
    ));
    // escapes still go through the JSON parser
    assert_eq!(parse_sc_val_arg("\"a\\nb\"").unwrap(), ScVal::String(b"a\nb".to_vec()));
}
