use oe4::keys::{parse_secret_key, KeyError};

#[test]
fn valid_key_is_accepted() {
    assert!(parse_secret_key(&[0xcd; 32]).is_ok());
    let mut one = [0u8; 32];
    one[31] = 1;
    assert!(parse_secret_key(&one).is_ok());
}

#[test]
fn zero_key_is_refused() {
    assert!(matches!(parse_secret_key(&[0u8; 32]), Err(KeyError::InvalidSecretKey)));
}

#[test]
fn key_at_or_above_the_order_is_refused() {
    let order: [u8; 32] = [
        0xff, 0xff, 0xff, 0xff, 0xff, 0xff, 0xff, 0xff, 0xff, 0xff, 0xff, 0xff, 0xff, 0xff, 0xff,
        0xfe, 0xba, 0xae, 0xdc, 0xe6, 0xaf, 0x48, 0xa0, 0x3b, 0xbf, 0xd2, 0x5e, 0x8c, 0xd0, 0x36,
        0x41, 0x41,
    ];
    assert!(matches!(parse_secret_key(&order), Err(KeyError::InvalidSecretKey)));
    assert!(matches!(parse_secret_key(&[0xff; 32]), Err(KeyError::InvalidSecretKey)));
    let mut below = order;
    below[31] = 0x40;
    assert!(parse_secret_key(&below).is_ok());
}

#[test]
fn key_of_wrong_length_is_refused() {
    assert!(matches!(parse_secret_key(&[0xcd; 31]), Err(KeyError::InvalidSecretKey)));
    assert!(matches!(parse_secret_key(&[0xcd; 33]), Err(KeyError::InvalidSecretKey)));
    assert!(matches!(parse_secret_key(&[]), Err(KeyError::InvalidSecretKey)));
}

#[test]
fn parsed_key_holds_the_given_bytes() {
    let key = parse_secret_key(&[0xcd; 32]).unwrap();
    assert_eq!(key.to_secret_bytes(), [0xcd; 32]);
    let mut bytes = [0u8; 32];
    for (i, b) in bytes.iter_mut().enumerate() {
        *b = i as u8 + 1;
    }
    assert_eq!(parse_secret_key(&bytes).unwrap().to_secret_bytes(), bytes);
}
