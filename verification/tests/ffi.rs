use pairing_signatures::aggregate_sig::{PublicKey, SecretKey, Signature};
use pairing_signatures::ffi::{
    bls_aggregate, bls_derive_publickey, bls_empty_sig, bls_free_pk, bls_free_sig, bls_free_sk,
    bls_generate_secretkey, bls_generate_secretkey_from_seed, bls_pk_cmp, bls_pk_eq,
    bls_pk_from_bytes, bls_pk_to_bytes, bls_sig_cmp, bls_sig_eq, bls_sig_from_bytes,
    bls_sig_to_bytes, bls_sign, bls_sk_cmp, bls_sk_eq, bls_sk_from_bytes, bls_sk_to_bytes,
    bls_verify, bls_verify_aggregate, Table,
};
use pairing_signatures::handles::Handle;
use rand::rngs::StdRng;
use rand::{Rng, SeedableRng};

fn scalar_bytes(value: u8) -> [u8; 32] {
    let mut bytes = [0u8; 32];
    bytes[0] = value;
    bytes
}

#[test]
fn test_verify_aggregate_ffi() {
    let mut rng: StdRng = SeedableRng::seed_from_u64(1);
    let mut table = Table::new();

    for _ in 0..30 {
        let m = rng.gen::<[u8; 32]>();
        let sk1 = bls_generate_secretkey(&mut table, &mut rng).unwrap();
        let sk2 = bls_generate_secretkey(&mut table, &mut rng).unwrap();
        let pk1 = bls_derive_publickey(&mut table, sk1).unwrap();
        let pk2 = bls_derive_publickey(&mut table, sk2).unwrap();
        let sig1 = bls_sign(&mut table, &m, sk1).unwrap();
        let sig2 = bls_sign(&mut table, &m, sk2).unwrap();
        let sig = bls_aggregate(&mut table, sig1, sig2).unwrap();

        assert!(bls_verify_aggregate(&table, &m, &[pk1, pk2], sig));
    }
}

#[test]
fn test_eq() {
    for _i in 0..10 {
        let mut rng: StdRng = SeedableRng::seed_from_u64(1);
        let mut table = Table::new();
        let sk1 = bls_generate_secretkey(&mut table, &mut rng).unwrap();
        let sk2 = bls_generate_secretkey(&mut table, &mut rng).unwrap();
        let comparison = bls_sk_eq(&table, sk1, sk2);
        assert!(comparison == 0)
    }
}

#[test]
fn boundary_equality_is_one_on_the_same_value() {
    let mut table = Table::new();
    let a = bls_sk_from_bytes(&mut table, &scalar_bytes(5)).unwrap();
    let b = bls_sk_from_bytes(&mut table, &scalar_bytes(5)).unwrap();
    let c = bls_sk_from_bytes(&mut table, &scalar_bytes(6)).unwrap();
    assert_ne!(a, b);
    assert_eq!(bls_sk_eq(&table, a, a), 1);
    assert_eq!(bls_sk_eq(&table, a, b), 1);
    assert_eq!(bls_sk_eq(&table, a, c), 0);
    let pa = bls_derive_publickey(&mut table, a).unwrap();
    let pb = bls_derive_publickey(&mut table, b).unwrap();
    let pc = bls_derive_publickey(&mut table, c).unwrap();
    assert_eq!(bls_pk_eq(&table, pa, pb), 1);
    assert_eq!(bls_pk_eq(&table, pa, pc), 0);
    let sa = bls_sign(&mut table, b"m", a).unwrap();
    let sb = bls_sign(&mut table, b"m", b).unwrap();
    let sc = bls_sign(&mut table, b"n", a).unwrap();
    assert_eq!(bls_sig_eq(&table, sa, sb), 1);
    assert_eq!(bls_sig_eq(&table, sa, sc), 0);
    // a handle of another kind names nothing here
    let nothing = Handle { index: 99, generation: 1 };
    assert_eq!(bls_sk_eq(&table, a, nothing), 0);
    assert_eq!(bls_pk_eq(&table, nothing, pa), 0);
    assert_eq!(bls_sig_eq(&table, nothing, nothing), 0);
}

#[test]
fn boundary_order_is_lexicographic_on_encodings() {
    let mut table = Table::new();
    let mut low = [0u8; 32];
    low[0] = 0xff;
    let mut high = [0u8; 32];
    high[0] = 0x01;
    high[1] = 0x01;
    // as numbers `low` is the smaller, as byte strings the larger
    let a = bls_sk_from_bytes(&mut table, &low).unwrap();
    let b = bls_sk_from_bytes(&mut table, &high).unwrap();
    assert_eq!(bls_sk_cmp(&table, a, b), Some(1));
    assert_eq!(bls_sk_cmp(&table, b, a), Some(-1));
    assert_eq!(bls_sk_cmp(&table, a, a), Some(0));
    let pa = bls_derive_publickey(&mut table, a).unwrap();
    let pb = bls_derive_publickey(&mut table, b).unwrap();
    let bytes_a = bls_pk_to_bytes(&table, pa).unwrap();
    let bytes_b = bls_pk_to_bytes(&table, pb).unwrap();
    let expected = match bytes_a.cmp(&bytes_b) {
        std::cmp::Ordering::Less => -1,
        std::cmp::Ordering::Equal => 0,
        std::cmp::Ordering::Greater => 1,
    };
    assert_ne!(expected, 0);
    assert_eq!(bls_pk_cmp(&table, pa, pb), Some(expected));
    assert_eq!(bls_pk_cmp(&table, pb, pa), Some(-expected));
    assert_eq!(bls_pk_cmp(&table, pa, pa), Some(0));
    let sa = bls_sign(&mut table, b"ordered", a).unwrap();
    let sb = bls_sign(&mut table, b"ordered", b).unwrap();
    let sig_a = bls_sig_to_bytes(&table, sa).unwrap();
    let sig_b = bls_sig_to_bytes(&table, sb).unwrap();
    let expected = match sig_a.cmp(&sig_b) {
        std::cmp::Ordering::Less => -1,
        std::cmp::Ordering::Equal => 0,
        std::cmp::Ordering::Greater => 1,
    };
    assert_eq!(bls_sig_cmp(&table, sa, sb), Some(expected));
    assert_eq!(bls_sig_cmp(&table, sb, sb), Some(0));
    let nothing = Handle { index: 7, generation: 3 };
    assert_eq!(bls_sk_cmp(&table, a, nothing), None);
    assert_eq!(bls_pk_cmp(&table, nothing, pa), None);
    assert_eq!(bls_sig_cmp(&table, nothing, nothing), None);
}

#[test]
fn boundary_agrees_with_the_scheme() {
    let mut table = Table::new();
    let sk = SecretKey::from_bytes(&scalar_bytes(9)).unwrap();
    let h_sk = bls_sk_from_bytes(&mut table, &scalar_bytes(9)).unwrap();
    assert_eq!(bls_sk_to_bytes(&table, h_sk).unwrap(), sk.to_bytes());
    let h_pk = bls_derive_publickey(&mut table, h_sk).unwrap();
    assert_eq!(bls_pk_to_bytes(&table, h_pk).unwrap(), PublicKey::from_secret(sk).to_bytes());
    let h_sig = bls_sign(&mut table, b"over the boundary", h_sk).unwrap();
    assert_eq!(
        bls_sig_to_bytes(&table, h_sig).unwrap(),
        sk.sign(b"over the boundary").to_bytes()
    );
    assert!(bls_verify(&table, b"over the boundary", h_pk, h_sig));
    assert!(!bls_verify(&table, b"over the border", h_pk, h_sig));
    let h_other = bls_sign(&mut table, b"second", h_sk).unwrap();
    let h_both = bls_aggregate(&mut table, h_sig, h_other).unwrap();
    assert_eq!(
        bls_sig_to_bytes(&table, h_both).unwrap(),
        sk.sign(b"over the boundary").aggregate(sk.sign(b"second")).to_bytes()
    );
    let h_empty = bls_empty_sig(&mut table).unwrap();
    assert_eq!(bls_sig_to_bytes(&table, h_empty).unwrap(), Signature::empty().to_bytes());
    let again = bls_pk_from_bytes(&mut table, &PublicKey::from_secret(sk).to_bytes()).unwrap();
    assert_eq!(bls_pk_eq(&table, again, h_pk), 1);
    let again = bls_sig_from_bytes(&mut table, &sk.sign(b"second").to_bytes()).unwrap();
    assert_eq!(bls_sig_eq(&table, again, h_other), 1);
}

#[test]
fn boundary_seeded_generation_is_reproducible() {
    let mut table = Table::new();
    let a = bls_generate_secretkey_from_seed(&mut table, 42).unwrap();
    let b = bls_generate_secretkey_from_seed(&mut table, 42).unwrap();
    let c = bls_generate_secretkey_from_seed(&mut table, 43).unwrap();
    assert_eq!(bls_sk_eq(&table, a, b), 1);
    assert_eq!(bls_sk_eq(&table, a, c), 0);
    assert_eq!(
        bls_sk_to_bytes(&table, a).unwrap(),
        SecretKey::generate_from_seed(42).to_bytes()
    );
    let pk = bls_derive_publickey(&mut table, a).unwrap();
    let sig = bls_sign(&mut table, b"hello", a).unwrap();
    assert!(bls_verify(&table, b"hello", pk, sig));
    assert!(!bls_verify(&table, b"hallo", pk, sig));
}

#[test]
fn boundary_refuses_malformed_bytes() {
    let mut table = Table::new();
    assert_eq!(bls_sk_from_bytes(&mut table, &[0u8; 31]), None);
    assert_eq!(bls_sk_from_bytes(&mut table, &[0xffu8; 32]), None);
    assert_eq!(bls_pk_from_bytes(&mut table, &[0u8; 96]), None);
    assert_eq!(bls_pk_from_bytes(&mut table, &[0u8; 10]), None);
    assert_eq!(bls_sig_from_bytes(&mut table, &[0u8; 48]), None);
    assert_eq!(bls_sig_from_bytes(&mut table, &[]), None);
    // nothing was stored
    let first = bls_sk_from_bytes(&mut table, &scalar_bytes(1)).unwrap();
    assert_eq!(first, Handle { index: 0, generation: 1 });
}

#[test]
fn boundary_detects_use_after_release() {
    let mut table = Table::new();
    let sk = bls_sk_from_bytes(&mut table, &scalar_bytes(3)).unwrap();
    let pk = bls_derive_publickey(&mut table, sk).unwrap();
    let sig = bls_sign(&mut table, b"m", sk).unwrap();
    assert!(bls_verify(&table, b"m", pk, sig));
    assert!(bls_free_sig(&mut table, sig));
    // the released handle names nothing, for any operation
    assert!(!bls_verify(&table, b"m", pk, sig));
    assert_eq!(bls_sig_to_bytes(&table, sig), None);
    assert_eq!(bls_aggregate(&mut table, sig, sig), None);
    assert!(!bls_verify_aggregate(&table, b"m", &[pk], sig));
    // a second release is refused
    assert!(!bls_free_sig(&mut table, sig));
    // the place is used again under another generation
    let sig2 = bls_sign(&mut table, b"m", sk).unwrap();
    assert_eq!(sig2.index, sig.index);
    assert_ne!(sig2.generation, sig.generation);
    assert!(bls_verify(&table, b"m", pk, sig2));
    assert!(!bls_verify(&table, b"m", pk, sig));
    assert!(bls_free_sk(&mut table, sk));
    assert_eq!(bls_sign(&mut table, b"m", sk), None);
    assert_eq!(bls_derive_publickey(&mut table, sk), None);
    assert_eq!(bls_sk_to_bytes(&table, sk), None);
    assert!(!bls_free_sk(&mut table, sk));
    assert!(bls_free_pk(&mut table, pk));
    assert!(!bls_verify(&table, b"m", pk, sig2));
    assert_eq!(bls_pk_to_bytes(&table, pk), None);
    assert!(!bls_free_pk(&mut table, pk));
}

#[test]
fn boundary_aggregate_verification_needs_every_key() {
    let mut table = Table::new();
    let m = b"one message for all";
    let sk1 = bls_sk_from_bytes(&mut table, &scalar_bytes(2)).unwrap();
    let sk2 = bls_sk_from_bytes(&mut table, &scalar_bytes(3)).unwrap();
    let pk1 = bls_derive_publickey(&mut table, sk1).unwrap();
    let pk2 = bls_derive_publickey(&mut table, sk2).unwrap();
    let sig1 = bls_sign(&mut table, m, sk1).unwrap();
    let sig2 = bls_sign(&mut table, m, sk2).unwrap();
    let sig = bls_aggregate(&mut table, sig1, sig2).unwrap();
    assert!(bls_verify_aggregate(&table, m, &[pk1, pk2], sig));
    assert!(bls_verify_aggregate(&table, m, &[pk2, pk1], sig));
    assert!(!bls_verify_aggregate(&table, m, &[pk1], sig));
    assert!(!bls_verify_aggregate(&table, m, &[pk1, pk2, pk2], sig));
    assert!(!bls_verify_aggregate(&table, b"another message", &[pk1, pk2], sig));
    let nothing = Handle { index: 50, generation: 1 };
    assert!(!bls_verify_aggregate(&table, m, &[pk1, nothing], sig));
    assert!(!bls_verify_aggregate(&table, m, &[pk1, pk2], nothing));
    let empty = bls_empty_sig(&mut table).unwrap();
    assert!(bls_verify_aggregate(&table, m, &[], empty));
}
