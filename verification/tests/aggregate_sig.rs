use bls12_381::hash_to_curve::{ExpandMsgXmd, HashToCurve};
use bls12_381::{G1Affine, G1Projective, G2Affine};
use group::Group;
use pairing_signatures::aggregate_sig::{
    verify_aggregate_sig, verify_aggregate_sig_trusted_keys, AggregateSigError, PublicKey,
    SecretKey, Signature, PUBLIC_KEY_SIZE, SECRET_KEY_SIZE, SIGNATURE_SIZE,
};
use pairing_signatures::duplicates::has_duplicates;
use pairing_signatures::engine::HASH_DOMAIN;
use rand::rngs::StdRng;
use rand::{Rng, SeedableRng};

const SIGNERS: usize = 10;
const PAIRING_ITERATIONS: usize = 12;
const HASHING_ITERATIONS: usize = 1000;

// returns a pair of lists (sks, pks), such that sks[i] and pks[i] are
// corresponding secret and public key
fn get_sks_pks(amt: usize, rng: &mut StdRng) -> (Vec<SecretKey>, Vec<PublicKey>) {
    let sks: Vec<SecretKey> = (0..amt).map(|_| SecretKey::generate(rng)).collect();
    let pks: Vec<PublicKey> = sks.iter().map(|x| PublicKey::from_secret(*x)).collect();
    (sks, pks)
}

// returns a list of random bytes (of length 32)
fn get_random_messages(amt: usize, rng: &mut StdRng) -> Vec<[u8; 32]> {
    (0..amt).map(|_| rng.gen::<[u8; 32]>()).collect()
}

fn aggregate_sigs(messages: &[[u8; 32]], sks: &[SecretKey]) -> Signature {
    let mut sig = sks[0].sign(&messages[0]);
    for i in 1..sks.len() {
        let my_sig = sks[i].sign(&messages[i]);
        sig = sig.aggregate(my_sig);
    }
    sig
}

fn secret_key_of(value: u8) -> SecretKey {
    let mut bytes = [0u8; 32];
    bytes[0] = value;
    SecretKey::from_bytes(&bytes).unwrap()
}

fn hash_to_g1(message: &[u8]) -> G1Projective {
    <G1Projective as HashToCurve<ExpandMsgXmd<sha2::Sha256>>>::hash_to_curve(
        message,
        HASH_DOMAIN.as_bytes(),
    )
}

#[test]
fn test_sign_and_verify() {
    let mut rng: StdRng = SeedableRng::seed_from_u64(1);

    for _ in 0..3 * PAIRING_ITERATIONS {
        let sk = SecretKey::generate(&mut rng);
        let pk = PublicKey::from_secret(sk);

        // should verify correctly
        let m = rng.gen::<[u8; 32]>();
        let signature = sk.sign(&m);
        assert!(pk.verify(&m, signature));

        // should not verify!
        let signature = sk.sign(&m);
        let sk2 = SecretKey::generate(&mut rng);
        let pk2 = PublicKey::from_secret(sk2);
        assert!(!pk2.verify(&m, signature))
    }
}

#[test]
fn test_verify_aggregate_sig() {
    let mut rng: StdRng = SeedableRng::seed_from_u64(1);

    let (sks, pks) = get_sks_pks(SIGNERS, &mut rng);

    for _ in 0..PAIRING_ITERATIONS {
        let ms = get_random_messages(SIGNERS, &mut rng);
        let sig = aggregate_sigs(&ms, &sks);

        let mut m_pk_pairs: Vec<(&[u8], PublicKey)> = Vec::new();
        for i in 0..SIGNERS {
            m_pk_pairs.push((&ms[i], pks[i].clone()));
        }

        // signature should verify
        assert!(verify_aggregate_sig(&m_pk_pairs, sig));

        let (m_, pk_) = m_pk_pairs.pop().unwrap();
        let new_pk = PublicKey::from_secret(SecretKey::generate(&mut rng));
        m_pk_pairs.push((m_, new_pk));

        // altering a public key should make verification fail
        assert!(!verify_aggregate_sig(&m_pk_pairs, sig));

        let new_m: [u8; 32] = rng.gen::<[u8; 32]>();
        m_pk_pairs.pop();
        m_pk_pairs.push((&new_m, pk_));

        // altering a message should make verification fail
        assert!(!verify_aggregate_sig(&m_pk_pairs, sig));
    }
}

#[test]
fn test_verify_aggregate_sig_trusted_keys() {
    let mut rng: StdRng = SeedableRng::seed_from_u64(1);
    for _ in 0..PAIRING_ITERATIONS / 2 {
        let (sks, pks) = get_sks_pks(SIGNERS, &mut rng);
        let m: [u8; 32] = rng.gen::<[u8; 32]>();
        let sigs: Vec<Signature> = sks.iter().map(|sk| sk.sign(&m)).collect();
        let mut agg_sig = sigs[0].clone();
        sigs.iter().skip(1).for_each(|x| {
            agg_sig = agg_sig.aggregate(*x);
        });

        assert!(verify_aggregate_sig_trusted_keys(&m, &pks, agg_sig));

        // test changing message makes verification fails
        let m_alt: [u8; 32] = rng.gen::<[u8; 32]>();
        assert!(!verify_aggregate_sig_trusted_keys(&m_alt, &pks, agg_sig));

        // test that adding or removing a public key makes verification fail
        let mut pks_alt = pks.clone();
        pks_alt.push(PublicKey::from_secret(SecretKey::generate(&mut rng)));
        assert!(!verify_aggregate_sig_trusted_keys(&m, &pks_alt, agg_sig));

        // test that removing a public key makes verification fail
        pks_alt.pop();
        pks_alt.pop();
        assert!(!verify_aggregate_sig_trusted_keys(&m, &pks_alt, agg_sig));

        let random_point = G1Affine::from(G1Projective::random(&mut rng));
        let agg_sig_alt = Signature::from_bytes(&random_point.to_compressed()).unwrap();
        assert!(!verify_aggregate_sig_trusted_keys(&m, &pks, agg_sig_alt));
    }
}

#[test]
fn test_has_duplicates() {
    let mut rng: StdRng = SeedableRng::seed_from_u64(1);

    for _ in 0..HASHING_ITERATIONS {
        let mut ms: Vec<[u8; 8]> = (0..SIGNERS).map(|x| x.to_le_bytes()).collect();

        // Make a duplication in the messages
        let random_idx1: usize = rng.gen_range(0..SIGNERS);
        let mut random_idx2: usize = rng.gen_range(0..SIGNERS);
        while random_idx1 == random_idx2 {
            random_idx2 = rng.gen_range(0..SIGNERS);
        }
        ms[random_idx1] = ms[random_idx2];

        let messages: Vec<&[u8]> = (0..SIGNERS).map(|i| -> &[u8] { &ms[i] }).collect();
        let result = has_duplicates(&messages);
        assert!(result);
    }
}

#[test]
fn test_to_from_bytes_identity() {
    let mut rng: StdRng = SeedableRng::seed_from_u64(1);

    for _ in 0..3 * PAIRING_ITERATIONS {
        let m = rng.gen::<[u8; 32]>();
        let sk = SecretKey::generate(&mut rng);
        let pk = PublicKey::from_secret(sk);
        let sig = sk.sign(&m);
        let sk_bytes = sk.to_bytes();
        let pk_bytes = pk.to_bytes();
        let sig_bytes = sig.to_bytes();
        let sk_from_bytes = SecretKey::from_bytes(&sk_bytes).unwrap();
        let pk_from_bytes = PublicKey::from_bytes(&pk_bytes).unwrap();
        let sig_from_bytes = Signature::from_bytes(&sig_bytes).unwrap();

        assert_eq!(sig, sig_from_bytes);
        assert_eq!(sk, sk_from_bytes);
        assert_eq!(pk, pk_from_bytes);
        assert!(pk.verify(&m, sig_from_bytes));
        assert!(pk_from_bytes.verify(&m, sig_from_bytes));
    }
}

#[test]
fn test_to_bytes_correct_length() {
    let mut rng: StdRng = SeedableRng::seed_from_u64(1);

    for _ in 0..8 * PAIRING_ITERATIONS {
        let m = rng.gen::<[u8; 32]>();
        let sk = SecretKey::generate(&mut rng);
        let pk = PublicKey::from_secret(sk);
        let sig = sk.sign(&m);

        let sk_bytes = sk.to_bytes();
        let pk_bytes = pk.to_bytes();
        let sig_bytes = sig.to_bytes();

        assert_eq!(sk_bytes.len(), SecretKey::len());
        assert_eq!(pk_bytes.len(), PublicKey::len());
        assert_eq!(sig_bytes.len(), Signature::len());
    }
}

#[test]
fn encoded_lengths_are_the_fixed_constants() {
    assert_eq!(SecretKey::len(), 32);
    assert_eq!(PublicKey::len(), 96);
    assert_eq!(Signature::len(), 48);
    assert_eq!(SECRET_KEY_SIZE, 32);
    assert_eq!(PUBLIC_KEY_SIZE, 96);
    assert_eq!(SIGNATURE_SIZE, 48);
    let sk = secret_key_of(7);
    assert_eq!(sk.to_bytes().len(), 32);
    assert_eq!(PublicKey::from_secret(sk).to_bytes().len(), 96);
    assert_eq!(sk.sign(b"length").to_bytes().len(), 48);
    assert_eq!(Signature::empty().to_bytes().len(), 48);
}

#[test]
fn seeded_scenario_hello() {
    let sk = SecretKey::generate_from_seed(42);
    let pk = PublicKey::from_secret(sk);
    let sig = sk.sign(b"hello");
    assert!(pk.verify(b"hello", sig));
    assert!(!pk.verify(b"hallo", sig));
}

#[test]
fn seeded_generation_is_reproducible() {
    let a = SecretKey::generate_from_seed(7);
    let b = SecretKey::generate_from_seed(7);
    let c = SecretKey::generate_from_seed(8);
    assert_eq!(a, b);
    assert_ne!(a, c);
    let mut rng = StdRng::seed_from_u64(7);
    assert_eq!(a, SecretKey::generate(&mut rng));
}

#[test]
fn signing_is_deterministic() {
    let sk = secret_key_of(9);
    let first = sk.sign(b"the same message");
    let second = sk.sign(b"the same message");
    assert_eq!(first.to_bytes(), second.to_bytes());
    assert_ne!(first.to_bytes(), sk.sign(b"another message").to_bytes());
}

#[test]
fn public_key_of_one_is_the_generator() {
    let pk = PublicKey::from_secret(secret_key_of(1));
    assert_eq!(pk.to_bytes(), G2Affine::generator().to_compressed().to_vec());
    assert_eq!(
        hex::encode(pk.to_bytes()),
        "93e02b6052719f607dacd3a088274f65596bd0d09920b61ab5da61bbdc7f5049\
         334cf11213945d57e5ac7d055d042b7e024aa2b2f08f0a91260805272dc51051\
         c6e47ad4fa403b02b4510b647ae3d1770bac0326a805bbefd48056c8c121bdb8"
    );
}

#[test]
fn public_key_is_the_generator_times_the_key() {
    let pk = PublicKey::from_secret(secret_key_of(5));
    let expected = G2Affine::from(G2Affine::generator() * bls12_381::Scalar::from(5u64));
    assert_eq!(pk.to_bytes(), expected.to_compressed().to_vec());
}

#[test]
fn signature_is_the_hashed_message_times_the_key() {
    let message = b"a message";
    let by_one = secret_key_of(1).sign(message);
    assert_eq!(by_one.to_bytes(), G1Affine::from(hash_to_g1(message)).to_compressed().to_vec());
    let by_three = secret_key_of(3).sign(message);
    let expected = G1Affine::from(hash_to_g1(message) * bls12_381::Scalar::from(3u64));
    assert_eq!(by_three.to_bytes(), expected.to_compressed().to_vec());
}

#[test]
fn aggregate_is_the_sum_in_g1() {
    let message = b"summed";
    let by_two = secret_key_of(2).sign(message);
    let by_three = secret_key_of(3).sign(message);
    let by_five = secret_key_of(5).sign(message);
    assert_eq!(by_two.aggregate(by_three), by_five);
    assert_ne!(by_two.aggregate(by_three), by_two);
}

#[test]
fn aggregation_does_not_depend_on_grouping() {
    let mut rng = StdRng::seed_from_u64(3);
    let s1 = SecretKey::generate(&mut rng).sign(b"first");
    let s2 = SecretKey::generate(&mut rng).sign(b"second");
    let s3 = SecretKey::generate(&mut rng).sign(b"third");
    let left = s1.aggregate(s2).aggregate(s3);
    let right = s1.aggregate(s2.aggregate(s3));
    let rotated = s3.aggregate(s1.aggregate(s2));
    assert_eq!(left, right);
    assert_eq!(left, rotated);
}

#[test]
fn empty_signature_is_neutral() {
    let empty = Signature::empty();
    let mut expected = vec![0u8; 48];
    expected[0] = 0xc0;
    assert_eq!(empty.to_bytes(), expected);
    let sig = secret_key_of(4).sign(b"neutral");
    assert_eq!(sig.aggregate(empty), sig);
    assert_eq!(empty.aggregate(sig), sig);
}

#[test]
fn signature_of_another_key_is_rejected() {
    let m = b"not yours";
    let sk1 = secret_key_of(11);
    let sk2 = secret_key_of(12);
    assert!(PublicKey::from_secret(sk1).verify(m, sk1.sign(m)));
    assert!(!PublicKey::from_secret(sk2).verify(m, sk1.sign(m)));
}

#[test]
fn repeated_message_is_rejected() {
    let m: &[u8] = b"signed twice";
    let other: &[u8] = b"signed once";
    let sk1 = secret_key_of(21);
    let sk2 = secret_key_of(22);
    let sk3 = secret_key_of(23);
    let pk1 = PublicKey::from_secret(sk1);
    let pk2 = PublicKey::from_secret(sk2);
    let pk3 = PublicKey::from_secret(sk3);
    let sig = sk1.sign(m).aggregate(sk2.sign(m)).aggregate(sk3.sign(other));
    // each entry has a valid signature of its own, yet the batch is refused
    assert!(pk1.verify(m, sk1.sign(m)));
    assert!(pk2.verify(m, sk2.sign(m)));
    assert!(!verify_aggregate_sig(&[(m, pk1), (m, pk2), (other, pk3)], sig));
    assert!(!verify_aggregate_sig(&[(m, pk1), (other, pk3), (m, pk2)], sig));
    // the same signers on distinct messages pass
    let distinct: &[u8] = b"signed twice, not";
    let sig = sk1.sign(m).aggregate(sk2.sign(distinct)).aggregate(sk3.sign(other));
    assert!(verify_aggregate_sig(&[(m, pk1), (distinct, pk2), (other, pk3)], sig));
}

#[test]
fn aggregate_verification_covers_every_entry() {
    // a batch of several entries on one thread or many: each pairing enters the product
    let sks: Vec<SecretKey> = (1..=6).map(secret_key_of).collect();
    let pks: Vec<PublicKey> = sks.iter().map(|sk| PublicKey::from_secret(*sk)).collect();
    let ms: Vec<[u8; 32]> = (0..6u8).map(|i| [i; 32]).collect();
    let sig = aggregate_sigs(&ms, &sks);
    let pairs: Vec<(&[u8], PublicKey)> = (0..6).map(|i| (&ms[i][..], pks[i])).collect();
    assert!(verify_aggregate_sig(&pairs, sig));
    for dropped in 0..6 {
        let mut fewer = pairs.clone();
        fewer.remove(dropped);
        assert!(!verify_aggregate_sig(&fewer, sig));
    }
    let mut reordered = pairs.clone();
    reordered.reverse();
    assert!(verify_aggregate_sig(&reordered, sig));
}

#[test]
fn empty_batch_accepts_only_the_empty_signature() {
    assert!(verify_aggregate_sig(&[], Signature::empty()));
    assert!(!verify_aggregate_sig(&[], secret_key_of(1).sign(b"something")));
    assert!(verify_aggregate_sig_trusted_keys(b"anything", &[], Signature::empty()));
    let some = secret_key_of(1).sign(b"anything");
    assert!(!verify_aggregate_sig_trusted_keys(b"anything", &[], some));
}

#[test]
fn single_entry_batch_agrees_with_verify() {
    let sk = secret_key_of(31);
    let pk = PublicKey::from_secret(sk);
    let m: &[u8] = b"alone";
    assert!(verify_aggregate_sig(&[(m, pk)], sk.sign(m)));
    assert!(verify_aggregate_sig_trusted_keys(m, &[pk], sk.sign(m)));
    assert!(!verify_aggregate_sig(&[(m, pk)], sk.sign(b"other")));
    assert!(!verify_aggregate_sig_trusted_keys(m, &[pk], sk.sign(b"other")));
}

#[test]
fn trusted_keys_are_summed() {
    let m: &[u8] = b"one message";
    let sk2 = secret_key_of(2);
    let sk3 = secret_key_of(3);
    let sk5 = secret_key_of(5);
    let pks = [PublicKey::from_secret(sk2), PublicKey::from_secret(sk3)];
    // the sum of the keys 2 and 3 is the key 5
    assert!(verify_aggregate_sig_trusted_keys(m, &pks, sk5.sign(m)));
    assert!(verify_aggregate_sig_trusted_keys(m, &pks, sk2.sign(m).aggregate(sk3.sign(m))));
    assert!(!verify_aggregate_sig_trusted_keys(m, &pks, sk2.sign(m)));
}

#[test]
fn decoding_rejects_wrong_lengths() {
    assert_eq!(SecretKey::from_bytes(&[0u8; 31]).unwrap_err(), AggregateSigError::LengthError);
    assert_eq!(SecretKey::from_bytes(&[0u8; 33]).unwrap_err(), AggregateSigError::LengthError);
    assert_eq!(SecretKey::from_bytes(&[]).unwrap_err(), AggregateSigError::LengthError);
    assert_eq!(PublicKey::from_bytes(&[0u8; 95]).unwrap_err(), AggregateSigError::LengthError);
    assert_eq!(PublicKey::from_bytes(&[0u8; 48]).unwrap_err(), AggregateSigError::LengthError);
    assert_eq!(Signature::from_bytes(&[0u8; 49]).unwrap_err(), AggregateSigError::LengthError);
    assert_eq!(Signature::from_bytes(&[0u8; 96]).unwrap_err(), AggregateSigError::LengthError);
}

#[test]
fn decoding_rejects_invalid_encodings() {
    // the modulus itself is no canonical scalar, the number before it is
    let modulus =
        hex::decode("01000000fffffffffe5bfeff02a4bd5305d8a10908d83933487d9d2953a7ed73").unwrap();
    assert_eq!(
        SecretKey::from_bytes(&modulus).unwrap_err(),
        AggregateSigError::FieldDecodingError
    );
    let mut largest = modulus.clone();
    largest[0] = 0;
    assert_eq!(SecretKey::from_bytes(&largest).unwrap().to_bytes(), largest);
    assert_eq!(
        SecretKey::from_bytes(&[0xffu8; 32]).unwrap_err(),
        AggregateSigError::FieldDecodingError
    );
    // without the compression flag nothing decodes
    assert_eq!(
        Signature::from_bytes(&[0u8; 48]).unwrap_err(),
        AggregateSigError::CurveDecodingError
    );
    assert_eq!(
        PublicKey::from_bytes(&[0u8; 96]).unwrap_err(),
        AggregateSigError::CurveDecodingError
    );
    // the infinity flag with a coordinate that is not zero
    let mut bad = [0u8; 48];
    bad[0] = 0xc0;
    bad[47] = 1;
    assert_eq!(Signature::from_bytes(&bad).unwrap_err(), AggregateSigError::CurveDecodingError);
}

#[test]
fn decoding_inverts_encoding() {
    let sk = secret_key_of(77);
    let pk = PublicKey::from_secret(sk);
    let sig = sk.sign(b"round trip");
    assert_eq!(SecretKey::from_bytes(&sk.to_bytes()).unwrap(), sk);
    assert_eq!(PublicKey::from_bytes(&pk.to_bytes()).unwrap(), pk);
    assert_eq!(Signature::from_bytes(&sig.to_bytes()).unwrap(), sig);
    let infinity = Signature::from_bytes(&Signature::empty().to_bytes()).unwrap();
    assert_eq!(infinity, Signature::empty());
}

#[test]
fn duplicates_are_told_by_digest_not_by_prefix() {
    // two messages that agree on their first 63 bytes are not the same message
    let a = [0u8; 64];
    let mut b = [0u8; 64];
    b[63] = 1;
    assert!(!has_duplicates(&[&a[..], &b[..]]));
    assert!(has_duplicates(&[&a[..], &b[..], &a[..]]));
    assert!(!has_duplicates(&[]));
    assert!(!has_duplicates(&[&a[..]]));
    assert!(has_duplicates(&[&[][..], &[][..]]));
    // a proper prefix is another message
    assert!(!has_duplicates(&[&a[..10], &a[..11]]));
}

#[test]
fn duplicates_are_found_wherever_they_stand() {
    let ms: Vec<Vec<u8>> = (0..20u8).map(|i| vec![i, i, i]).collect();
    let distinct: Vec<&[u8]> = ms.iter().map(|m| &m[..]).collect();
    assert!(!has_duplicates(&distinct));
    for i in 0..20 {
        for j in 0..20 {
            if i != j {
                let mut with_repeat = distinct.clone();
                with_repeat[i] = distinct[j];
                assert!(has_duplicates(&with_repeat));
            }
        }
    }
}

#[test]
fn key_of_the_zero_scalar_is_neutral_in_the_sum() {
    let m: &[u8] = b"one message";
    let sk = secret_key_of(8);
    let zero = secret_key_of(0);
    let pk = PublicKey::from_secret(sk);
    let neutral = PublicKey::from_secret(zero);
    let mut infinity = vec![0u8; 96];
    infinity[0] = 0xc0;
    assert_eq!(neutral.to_bytes(), infinity);
    assert_eq!(zero.sign(m), Signature::empty());
    // the identity adds nothing to the sum of the keys
    assert!(verify_aggregate_sig_trusted_keys(m, &[pk], sk.sign(m)));
    assert!(verify_aggregate_sig_trusted_keys(m, &[pk, neutral], sk.sign(m)));
    assert!(verify_aggregate_sig_trusted_keys(m, &[neutral, pk, neutral], sk.sign(m)));
}

#[test]
fn empty_message_is_a_message() {
    let sk = secret_key_of(6);
    let pk = PublicKey::from_secret(sk);
    let sig = sk.sign(&[]);
    assert!(pk.verify(&[], sig));
    assert!(!pk.verify(&[0], sig));
    let expected = G1Affine::from(hash_to_g1(&[]) * bls12_381::Scalar::from(6u64));
    assert_eq!(sig.to_bytes(), expected.to_compressed().to_vec());
}
