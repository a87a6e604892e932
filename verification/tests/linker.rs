use assembler::{bin_hexedln, finalize_bin, AsmError, Bin};

fn word(word: u32, pointer: Option<&str>, pointee: Option<&str>) -> Bin {
    Bin::new(word, pointer.map(|s| vec![s.to_string()]), pointee.map(|s| s.to_string()))
}

fn plain(word: u32) -> Bin {
    Bin::new(word, None, None)
}

#[test]
fn exact_length_is_not_padded() {
    let image = finalize_bin(vec![plain(1), plain(2)], 2);
    assert_eq!(image, Ok(vec![plain(1), plain(2)]));
}

#[test]
fn short_image_is_padded_with_zero() {
    let image = finalize_bin(vec![plain(7)], 4);
    assert_eq!(image, Ok(vec![plain(7), plain(0), plain(0), plain(0)]));
    assert_eq!(finalize_bin(Vec::new(), 2), Ok(vec![plain(0), plain(0)]));
    assert_eq!(finalize_bin(Vec::new(), 0), Ok(Vec::new()));
}

#[test]
fn long_image_is_refused() {
    let image = finalize_bin(vec![plain(1), plain(2), plain(3)], 2);
    assert_eq!(image, Err(AsmError::CapacityError { generated: 3, len: 2 }));
    assert_eq!(
        finalize_bin(vec![plain(1)], 0),
        Err(AsmError::CapacityError { generated: 1, len: 0 })
    );
}

#[test]
fn backward_and_forward_references() {
    let words = vec![
        word(0x1100_0000, Some("end"), Some("start")),
        plain(5),
        word(0x9100_0000, Some("start"), Some("end")),
        word(0, Some("end"), None),
    ];
    assert_eq!(
        finalize_bin(words, 4),
        Ok(vec![plain(0x1100_0002), plain(5), plain(0x9100_0000), plain(2)])
    );
}

#[test]
fn image_words_carry_no_label() {
    let image = finalize_bin(vec![word(0, Some("a"), Some("a"))], 1).unwrap();
    assert_eq!(image[0].pointer, None);
    assert_eq!(image[0].pointee, None);
}

#[test]
fn later_definition_wins() {
    let words = vec![
        word(0, None, Some("a")),
        word(0, Some("a"), None),
        word(0, None, Some("a")),
        word(0, Some("a"), None),
    ];
    assert_eq!(finalize_bin(words, 4), Ok(vec![plain(0), plain(2), plain(0), plain(2)]));
}

#[test]
fn address_is_combined_by_or() {
    let words = vec![plain(0), plain(0), plain(0), word(0x0000_0005, Some("x"), Some("x"))];
    assert_eq!(finalize_bin(words, 4).unwrap()[3], plain(7));
}

#[test]
fn several_labels_in_one_word() {
    let words = vec![
        Bin::new(0x1100_0000, Some(vec!["a".to_string(), "b".to_string()]), None),
        word(0, None, Some("a")),
        word(0, None, Some("b")),
        Bin::new(9, Some(Vec::new()), None),
    ];
    assert_eq!(
        finalize_bin(words, 4),
        Ok(vec![plain(0x1100_0003), plain(0), plain(0), plain(9)])
    );
}

#[test]
fn undefined_label() {
    let words = vec![word(0x1100_0000, Some("nowhere"), None)];
    assert_eq!(finalize_bin(words, 4), Err(AsmError::LinkError { label: "nowhere".to_string() }));
}

#[test]
fn first_undefined_label_is_named() {
    let words = vec![
        word(0, Some("a"), Some("a")),
        Bin::new(0, Some(vec!["a".to_string(), "x".to_string(), "y".to_string()]), None),
        word(0, Some("z"), None),
    ];
    assert_eq!(finalize_bin(words, 4), Err(AsmError::LinkError { label: "x".to_string() }));
}

#[test]
fn undefined_label_comes_before_capacity() {
    let words = vec![plain(0), plain(0), word(0, Some("x"), None)];
    assert_eq!(finalize_bin(words, 1), Err(AsmError::LinkError { label: "x".to_string() }));
}

#[test]
fn labels_are_compared_exactly() {
    let words = vec![word(0, Some("Start"), Some("start"))];
    assert_eq!(finalize_bin(words, 1), Err(AsmError::LinkError { label: "Start".to_string() }));
}

#[test]
fn one_line_for_each_word() {
    let text = bin_hexedln(vec![plain(0x7E00_0005), plain(0), plain(u32::MAX)]);
    assert_eq!(text, "7E000005\n00000000\nFFFFFFFF\n");
}

#[test]
fn no_word_gives_empty_text() {
    assert_eq!(bin_hexedln(Vec::new()), "");
}

#[test]
fn lines_show_the_value_only() {
    let text = bin_hexedln(vec![word(0xAB, Some("a"), Some("b"))]);
    assert_eq!(text, "000000AB\n");
}
