use pairing_signatures::types::{
    Amount, AmountParseError, CredentialIndex, KeyIndex, Timestamp, TransactionTime,
};
use rand::Rng;

#[test]
// test amount serialization is correct
fn amount_serialization() {
    let mut rng = rand::thread_rng();
    for _ in 0..1000 {
        let microgtu = Amount::from(rng.gen::<u64>());
        let s = microgtu.to_string();
        let parsed = s.parse::<Amount>();
        assert_eq!(
            Ok(microgtu),
            parsed,
            "Parsed amount differs from expected amount."
        );
    }

    assert_eq!(
        "0.".parse::<Amount>(),
        Err(AmountParseError::ExpectedMore),
        "There must be at least one digit after dot."
    );
    assert_eq!(
        "0.1234567".parse::<Amount>(),
        Err(AmountParseError::AtMostSixDecimals),
        "There can be at most 6 digits after dot."
    );
    assert_eq!(
        "0.000000000".parse::<Amount>(),
        Err(AmountParseError::AtMostSixDecimals),
        "There can be at most 6 digits after dot."
    );
    assert_eq!(
        "00.1234".parse::<Amount>(),
        Err(AmountParseError::ExpectedDot),
        "There can be at most one leading 0."
    );
    assert_eq!(
        "01.1234".parse::<Amount>(),
        Err(AmountParseError::ExpectedDot),
        "Leading zero must be followed by a dot."
    );
    assert_eq!(
        "0.1234".parse::<Amount>(),
        Ok(Amount::from(123400u64)),
        "Leading zero is OK."
    );
    assert_eq!(
        "0.0".parse::<Amount>(),
        Ok(Amount::from(0)),
        "Leading zero and zero after dot is OK."
    );
    assert_eq!(
        ".0".parse::<Amount>(),
        Err(AmountParseError::ExpectedDigit),
        "There should be at least one digit before a dot."
    );
    assert_eq!(
        "13".parse::<Amount>(),
        Ok(Amount::from(13000000)),
        "No dot is needed."
    );
    assert_eq!(
        "".parse::<Amount>(),
        Err(AmountParseError::ExpectedMore),
        "Empty string is not a valid amount."
    );
}

#[test]
fn amount_notation_is_exact() {
    assert_eq!(Amount::from(0).to_string(), "0");
    assert_eq!(Amount::from(1).to_string(), "0.000001");
    assert_eq!(Amount::from(123400).to_string(), "0.123400");
    assert_eq!(Amount::from(1_000_000).to_string(), "1");
    assert_eq!(Amount::from(13_000_000).to_string(), "13");
    assert_eq!(Amount::from(13_000_001).to_string(), "13.000001");
    assert_eq!(Amount::from(13_500_000).to_string(), "13.500000");
    assert_eq!(Amount::from(u64::MAX).to_string(), "18446744073709.551615");
    assert_eq!(Amount::from(999_999).to_string(), "0.999999");
}

#[test]
fn amount_parsing_is_exact() {
    assert_eq!(Amount::parse("0"), Ok(Amount { microgtu: 0 }));
    assert_eq!(Amount::parse("1"), Ok(Amount { microgtu: 1_000_000 }));
    assert_eq!(Amount::parse("1.5"), Ok(Amount { microgtu: 1_500_000 }));
    assert_eq!(Amount::parse("1.05"), Ok(Amount { microgtu: 1_050_000 }));
    assert_eq!(Amount::parse("1.000001"), Ok(Amount { microgtu: 1_000_001 }));
    assert_eq!(Amount::parse("120.340000"), Ok(Amount { microgtu: 120_340_000 }));
    assert_eq!(Amount::parse("10"), Ok(Amount { microgtu: 10_000_000 }));
    assert_eq!(Amount::parse("18446744073709.551615"), Ok(Amount { microgtu: u64::MAX }));
    assert_eq!(Amount::parse("18446744073709"), Ok(Amount { microgtu: 18446744073709000000 }));
}

#[test]
fn amount_parsing_names_the_first_fault() {
    assert_eq!(Amount::parse("18446744073709.551616"), Err(AmountParseError::Overflow));
    assert_eq!(Amount::parse("18446744073710"), Err(AmountParseError::Overflow));
    assert_eq!(Amount::parse("99999999999999999999999"), Err(AmountParseError::Overflow));
    assert_eq!(Amount::parse("18446744073709551615"), Err(AmountParseError::Overflow));
    assert_eq!(Amount::parse("x"), Err(AmountParseError::ExpectedDigit));
    assert_eq!(Amount::parse("-1"), Err(AmountParseError::ExpectedDigit));
    assert_eq!(Amount::parse("+1"), Err(AmountParseError::ExpectedDigit));
    assert_eq!(Amount::parse(" 1"), Err(AmountParseError::ExpectedDigit));
    assert_eq!(Amount::parse("1 "), Err(AmountParseError::ExpectedDigitOrDot));
    assert_eq!(Amount::parse("1x"), Err(AmountParseError::ExpectedDigitOrDot));
    assert_eq!(Amount::parse("1,5"), Err(AmountParseError::ExpectedDigitOrDot));
    assert_eq!(Amount::parse("0x"), Err(AmountParseError::ExpectedDot));
    assert_eq!(Amount::parse("00"), Err(AmountParseError::ExpectedDot));
    assert_eq!(Amount::parse("1."), Err(AmountParseError::ExpectedMore));
    assert_eq!(Amount::parse("1.x"), Err(AmountParseError::ExpectedDigit));
    assert_eq!(Amount::parse("1.5."), Err(AmountParseError::ExpectedDigit));
    assert_eq!(Amount::parse("1..5"), Err(AmountParseError::ExpectedDigit));
    assert_eq!(Amount::parse("1.1234567"), Err(AmountParseError::AtMostSixDecimals));
    // the seventh character behind the dot is refused before it is looked at
    assert_eq!(Amount::parse("1.123456x"), Err(AmountParseError::AtMostSixDecimals));
    // what comes first from the left decides
    assert_eq!(
        Amount::parse("1x99999999999999999999999"),
        Err(AmountParseError::ExpectedDigitOrDot)
    );
    assert_eq!(Amount::parse("٣"), Err(AmountParseError::ExpectedDigit));
}

#[test]
fn amount_parse_errors_have_messages() {
    assert_eq!(AmountParseError::Overflow.to_string(), "Amount overflow.");
    assert_eq!(AmountParseError::ExpectedDot.to_string(), "Expected dot.");
    assert_eq!(AmountParseError::ExpectedDigit.to_string(), "Expected digit.");
    assert_eq!(AmountParseError::ExpectedMore.to_string(), "Expected more input.");
    assert_eq!(AmountParseError::ExpectedDigitOrDot.to_string(), "Expected digit or dot.");
    assert_eq!(
        AmountParseError::AtMostSixDecimals.to_string(),
        "Amounts can have at most six decimals."
    );
}

#[test]
fn amounts_add_with_overflow_check() {
    let a = Amount::from(5);
    let b = Amount::from(7);
    assert_eq!(a + b, Some(Amount::from(12)));
    assert_eq!(Amount::from(u64::MAX) + Amount::from(0), Some(Amount::from(u64::MAX)));
    assert_eq!(Amount::from(u64::MAX) + Amount::from(1), None);
    assert_eq!(a + Some(b), Some(Amount::from(12)));
    assert_eq!(a + None, None);
    assert_eq!(a + (b + Amount::from(u64::MAX)), None);
    assert_eq!(a + (b + b), Some(Amount::from(19)));
    assert_eq!(u64::from(Amount::from(19)), 19);
}

#[test]
fn indices_and_times_hold_their_numbers() {
    assert_eq!(KeyIndex::from(7), KeyIndex(7));
    assert_eq!(u8::from(KeyIndex(9)), 9);
    assert_eq!(CredentialIndex::from(3), CredentialIndex { index: 3 });
    assert_eq!(u8::from(CredentialIndex { index: 4 }), 4);
    assert!(KeyIndex(1) < KeyIndex(2));
    assert!(CredentialIndex { index: 200 } > CredentialIndex { index: 199 });
    assert_eq!(TransactionTime::from_seconds(17), TransactionTime { seconds: 17 });
    assert_eq!(TransactionTime::from(17), TransactionTime::from_seconds(17));
    assert_eq!(Timestamp::from(1000), Timestamp { millis: 1000 });
    assert!(Amount::from(1) < Amount::from(2));
}
