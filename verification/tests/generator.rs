//! End-to-end tests of the three generation operations and of the testable
//! properties of the library.

use zk_inputs::errors::ZkError;
use zk_inputs::ZKInputsGenerator;

fn fresh_key(g: &ZKInputsGenerator) -> String {
    g.generate_public_key().expect("key generation cannot fail")
}

#[test]
fn test_inputs_generation() {
    let generator = ZKInputsGenerator::new();
    let public_key = fresh_key(&generator);
    let result = generator.generate_inputs(&public_key, 1);
    assert!(result.is_ok());
    let inputs_str = result.unwrap();
    assert!(inputs_str.contains("params"));
    assert!(inputs_str.contains("pk0is"));
}

#[test]
fn test_valid_votes_succeed_on_both_paths() {
    let generator = ZKInputsGenerator::new();
    let key = fresh_key(&generator);
    for vote in [0u8, 1u8] {
        let inputs = generator.generate_inputs(&key, vote).expect("inputs must succeed");
        let witness = generator.generate_witness(&key, vote).expect("witness must succeed");
        let iv: serde_json::Value = serde_json::from_str(&inputs).expect("inputs parse");
        let wv: serde_json::Value = serde_json::from_str(&witness).expect("witness parse");
        assert!(iv.get("params").is_some());
        assert!(iv.get("pk0is").is_some());
        assert!(wv.get("params").is_some());
        assert!(wv.get("pk0is").is_some());
        assert_eq!(iv["params"], wv["params"]);
        assert_eq!(iv["params"]["degree"], serde_json::Value::from(64u64));
        assert_eq!(iv["params"]["plaintext_modulus"], serde_json::Value::from(17u64));
    }
}

#[test]
fn test_invalid_votes_rejected_on_both_paths() {
    let generator = ZKInputsGenerator::new();
    let key = fresh_key(&generator);
    for vote in [2u8, 3u8, 255u8] {
        assert_eq!(generator.generate_inputs(&key, vote), Err(ZkError::InvalidVote));
        assert_eq!(generator.generate_witness(&key, vote), Err(ZkError::InvalidVote));
    }
}

#[test]
fn test_public_keys_are_fresh() {
    let generator = ZKInputsGenerator::new();
    let k1 = fresh_key(&generator);
    let k2 = fresh_key(&generator);
    assert_ne!(k1, k2);
}

#[test]
fn test_pk0is_length_matches_modulus_chain() {
    let generator = ZKInputsGenerator::new();
    let key = fresh_key(&generator);
    let inputs = generator.generate_inputs(&key, 1).unwrap();
    let witness = generator.generate_witness(&key, 1).unwrap();
    let iv: serde_json::Value = serde_json::from_str(&inputs).unwrap();
    let wv: serde_json::Value = serde_json::from_str(&witness).unwrap();
    let chain_len = iv["params"]["moduli"].as_array().unwrap().len();
    assert_eq!(chain_len, 2);
    assert_eq!(iv["pk0is"].as_array().unwrap().len(), chain_len);
    assert_eq!(wv["pk0is"].as_array().unwrap().len(), chain_len);
}

#[test]
fn test_scenario_inputs_and_witness() {
    let generator = ZKInputsGenerator::new();
    let key = fresh_key(&generator);
    let inputs = generator.generate_inputs(&key, 1).expect("inputs for vote 1");
    let iv: serde_json::Value = serde_json::from_str(&inputs).expect("structured data");
    assert!(iv.get("params").is_some());
    assert!(iv.get("pk0is").is_some());
    assert!(generator.generate_inputs(&key, 2).is_err());
    let witness = generator.generate_witness(&key, 0).expect("witness for vote 0");
    let wv: serde_json::Value = serde_json::from_str(&witness).unwrap();
    assert_eq!(wv["vote"], serde_json::Value::from(0u64));
}

#[test]
fn test_fresh_randomness_per_encryption() {
    let generator = ZKInputsGenerator::new();
    let key = fresh_key(&generator);
    let a = generator.generate_inputs(&key, 1).unwrap();
    let b = generator.generate_inputs(&key, 1).unwrap();
    assert_ne!(a, b);
    let av: serde_json::Value = serde_json::from_str(&a).unwrap();
    let bv: serde_json::Value = serde_json::from_str(&b).unwrap();
    assert_eq!(av["params"], bv["params"]);
    assert_eq!(av["pk0is"], bv["pk0is"]);
    assert_ne!(av["c0is"], bv["c0is"]);
}

#[test]
fn test_malformed_public_keys_rejected() {
    let generator = ZKInputsGenerator::new();
    assert_eq!(generator.generate_inputs("", 1), Err(ZkError::InvalidPublicKey));
    assert_eq!(generator.generate_inputs("abc", 1), Err(ZkError::InvalidPublicKey));
    // Right length, but not hexadecimal.
    let bad = "z".repeat(2 * 2 * 64 * 16);
    assert_eq!(generator.generate_inputs(&bad, 0), Err(ZkError::InvalidPublicKey));
    assert_eq!(generator.generate_witness(&bad, 0), Err(ZkError::InvalidPublicKey));
    // Right length and hexadecimal, but coefficients at or above the moduli.
    let too_big = "f".repeat(2 * 2 * 64 * 16);
    assert_eq!(generator.generate_inputs(&too_big, 1), Err(ZkError::InvalidPublicKey));
}

#[test]
fn test_witness_contains_randomness_fields() {
    let generator = ZKInputsGenerator::new();
    let key = fresh_key(&generator);
    let witness = generator.generate_witness(&key, 1).unwrap();
    let wv: serde_json::Value = serde_json::from_str(&witness).unwrap();
    for field in ["u", "e0", "e1"] {
        let poly = wv[field].as_array().expect("randomness field present");
        assert_eq!(poly.len(), 64);
        for c in poly {
            let v = c.as_i64().unwrap();
            assert!((-1..=1).contains(&v), "ternary coefficient out of range: {v}");
        }
    }
    assert_eq!(wv["vote"], serde_json::Value::from(1u64));
}

#[test]
fn test_version() {
    assert_eq!(ZKInputsGenerator::version(), "0.1.0");
}
