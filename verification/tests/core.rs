//! Tests of the verified core: ring arithmetic, parameter validation, the
//! key codec, vote encoding, encryption and the JSON renderers.

use zk_inputs::codec::{decode_public_key, encode_public_key};
use zk_inputs::encrypt::{encrypt_with_randomness, sample_randomness, Ciphertext, EncryptionRandomness};
use zk_inputs::errors::ZkError;
use zk_inputs::jsonout::{assemble_inputs, assemble_witness};
use zk_inputs::keys::{generate_key, PublicKey};
use zk_inputs::params::{check_prime, default_parameter_set, ParameterSet};
use zk_inputs::poly::{poly_add, poly_mul, poly_neg, poly_scale, reduce_centered};
use zk_inputs::sampling::sample_below;
use zk_inputs::vote::encode_vote;

#[test]
fn test_poly_mul_negacyclic_exact() {
    // In Z_5[X]/(X^2 + 1): (1 + 2X) * (3 + X) = 3 + 7X + 2X^2 = 1 + 2X.
    let a = vec![1u64, 2];
    let b = vec![3u64, 1];
    assert_eq!(poly_mul(&a, &b, 5), vec![1, 2]);
}

#[test]
fn test_poly_ops_exact() {
    let a = vec![3u64, 4];
    let b = vec![4u64, 4];
    assert_eq!(poly_add(&a, &b, 5), vec![2, 3]);
    assert_eq!(poly_neg(&a, 5), vec![2, 1]);
    assert_eq!(poly_scale(3, &a, 5), vec![4, 2]);
}

#[test]
fn test_reduce_centered_exact() {
    let offsets = vec![0u64, 1, 2];
    assert_eq!(reduce_centered(&offsets, 1, 17), vec![16, 0, 1]);
}

#[test]
fn test_check_prime() {
    assert!(check_prime(2));
    assert!(check_prime(17));
    assert!(check_prime(193));
    assert!(check_prime(257));
    assert!(!check_prime(0));
    assert!(!check_prime(1));
    assert!(!check_prime(9));
    assert!(!check_prime(255));
}

#[test]
fn test_parameter_validation() {
    assert!(ParameterSet::new(64, vec![193, 257], 17).is_ok());
    // Empty chain.
    assert_eq!(
        ParameterSet::new(64, vec![], 17).err(),
        Some(ZkError::InvalidParameters)
    );
    // A non-prime modulus.
    assert_eq!(
        ParameterSet::new(64, vec![193, 255], 17).err(),
        Some(ZkError::InvalidParameters)
    );
    // A modulus not exceeding the plaintext modulus.
    assert_eq!(
        ParameterSet::new(64, vec![193, 13], 17).err(),
        Some(ZkError::InvalidParameters)
    );
    // A repeated modulus.
    assert_eq!(
        ParameterSet::new(64, vec![193, 193], 17).err(),
        Some(ZkError::InvalidParameters)
    );
    // A degree that is not a power of two.
    assert_eq!(
        ParameterSet::new(48, vec![193, 257], 17).err(),
        Some(ZkError::InvalidParameters)
    );
}

#[test]
fn test_key_codec_round_trip() {
    let ps = default_parameter_set();
    let pk = generate_key(&ps);
    let encoded = encode_public_key(&pk, &ps);
    let decoded = decode_public_key(&encoded, &ps).expect("canonical encoding decodes");
    assert_eq!(decoded.pk0is, pk.pk0is);
    assert_eq!(decoded.pk1is, pk.pk1is);
}

#[test]
fn test_key_encoding_exact() {
    let ps = ParameterSet::new(1, vec![3], 2).unwrap();
    let pk = PublicKey { pk0is: vec![vec![1]], pk1is: vec![vec![2]] };
    let encoded = encode_public_key(&pk, &ps);
    assert_eq!(encoded, "00000000000000010000000000000002");
    let decoded = decode_public_key(&encoded, &ps).unwrap();
    assert_eq!(decoded.pk0is, pk.pk0is);
    assert_eq!(decoded.pk1is, pk.pk1is);
}

#[test]
fn test_decode_rejects_out_of_range_coefficient() {
    let ps = ParameterSet::new(1, vec![3], 2).unwrap();
    // Coefficient 3 is not below the modulus 3.
    let r = decode_public_key("00000000000000030000000000000002", &ps);
    assert_eq!(r.err(), Some(ZkError::InvalidPublicKey));
}

#[test]
fn test_vote_encoding() {
    let ps = default_parameter_set();
    let p = encode_vote(1, &ps).unwrap();
    assert_eq!(p.len(), 64);
    assert_eq!(p[0], 1);
    assert!(p[1..].iter().all(|&c| c == 0));
    let z = encode_vote(0, &ps).unwrap();
    assert!(z.iter().all(|&c| c == 0));
    assert_eq!(encode_vote(2, &ps).err(), Some(ZkError::InvalidVote));
}

#[test]
fn test_encryption_deterministic_in_randomness() {
    let ps = default_parameter_set();
    let pk = generate_key(&ps);
    let pt = encode_vote(1, &ps).unwrap();
    let rnd = sample_randomness(&ps);
    let c1 = encrypt_with_randomness(&ps, &pk, &pt, &rnd);
    let c2 = encrypt_with_randomness(&ps, &pk, &pt, &rnd);
    assert_eq!(c1.c0is, c2.c0is);
    assert_eq!(c1.c1is, c2.c1is);
}

#[test]
fn test_sample_below_range() {
    for _ in 0..200 {
        assert!(sample_below(17) < 17);
    }
}

#[test]
fn test_assemble_inputs_exact() {
    let ps = ParameterSet::new(1, vec![3], 2).unwrap();
    let pk = PublicKey { pk0is: vec![vec![1]], pk1is: vec![vec![2]] };
    let ct = Ciphertext { c0is: vec![vec![0]], c1is: vec![vec![1]] };
    let s = assemble_inputs(&ps, &pk, &ct);
    assert_eq!(
        s,
        "{\"params\":{\"degree\":1,\"plaintext_modulus\":2,\"moduli\":[3]},\"pk0is\":[[1]],\"pk1is\":[[2]],\"c0is\":[[0]],\"c1is\":[[1]]}"
    );
}

#[test]
fn test_assemble_witness_exact() {
    let ps = ParameterSet::new(1, vec![3], 2).unwrap();
    let pk = PublicKey { pk0is: vec![vec![1]], pk1is: vec![vec![2]] };
    let rnd = EncryptionRandomness { u: vec![0], e0: vec![1], e1: vec![2] };
    let s = assemble_witness(&ps, &pk, &rnd, 1);
    assert_eq!(
        s,
        "{\"params\":{\"degree\":1,\"plaintext_modulus\":2,\"moduli\":[3]},\"pk0is\":[[1]],\"pk1is\":[[2]],\"u\":[-1],\"e0\":[0],\"e1\":[1],\"vote\":1}"
    );
}

#[test]
fn test_ciphertext_shape() {
    let ps = default_parameter_set();
    let pk = generate_key(&ps);
    let pt = encode_vote(0, &ps).unwrap();
    let rnd = sample_randomness(&ps);
    let ct = encrypt_with_randomness(&ps, &pk, &pt, &rnd);
    assert_eq!(ct.c0is.len(), 2);
    assert_eq!(ct.c1is.len(), 2);
    for (i, &q) in [193u64, 257].iter().enumerate() {
        assert_eq!(ct.c0is[i].len(), 64);
        assert_eq!(ct.c1is[i].len(), 64);
        assert!(ct.c0is[i].iter().all(|&c| c < q));
        assert!(ct.c1is[i].iter().all(|&c| c < q));
    }
}
