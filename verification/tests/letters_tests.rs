use salad::letters::split_letters;

fn letter(c: char) -> Vec<u8> {
    let mut buf = [0u8; 4];
    c.encode_utf8(&mut buf).as_bytes().to_vec()
}

#[test]
fn split_empty_gives_no_letters() {
    assert_eq!(split_letters(&Vec::new()), Vec::<Vec<u8>>::new());
}

#[test]
fn split_ascii_gives_single_bytes() {
    let r = split_letters(&b"floyd".to_vec());
    assert_eq!(
        r,
        vec![
            b"f".to_vec(),
            b"l".to_vec(),
            b"o".to_vec(),
            b"y".to_vec(),
            b"d".to_vec()
        ]
    );
}

#[test]
fn split_keeps_multibyte_characters_whole() {
    let r = split_letters(&"aé€😀".as_bytes().to_vec());
    assert_eq!(
        r,
        vec![letter('a'), letter('é'), letter('€'), letter('😀')]
    );
}

#[test]
fn split_matches_chars_of_any_valid_string() {
    for s in ["", "x", "passphrase", "über", "ναι", "日本語", "mixé d"] {
        let expected: Vec<Vec<u8>> = s.chars().map(letter).collect();
        assert_eq!(split_letters(&s.as_bytes().to_vec()), expected);
    }
}
