use assembler::{assemble, AsmError, Config, SyntaxError, UnsupportedFeature};

#[test]
fn forward_reference_resolution() {
    let text = assemble("$start:\nlac 0d5\njmp $start\n", 4).unwrap();
    let lines: Vec<&str> = text.lines().collect();
    assert_eq!(lines.len(), 4);
    assert_eq!(lines[0], "7E000005");
    let jmp = u32::from_str_radix(lines[1], 16).unwrap();
    assert_eq!(jmp & 0xFF_FFFF, 0);
    assert_eq!((jmp >> 24) & 0x7F, 17);
    assert_eq!(jmp >> 31, 0);
    assert_eq!(lines[2], "00000000");
    assert_eq!(lines[3], "00000000");
    assert_eq!(text, "7E000005\n11000000\n00000000\n00000000\n");
}

#[test]
fn reference_to_a_later_label() {
    let text = assemble("jmp $end\nnop\n$end:\nhlt\n", 3).unwrap();
    assert_eq!(text, "11000002\n79000000\n7F000000\n");
}

#[test]
fn capacity_violation() {
    assert_eq!(
        assemble("nop\nnop\nnop\n", 2),
        Err(AsmError::CapacityError { generated: 3, len: 2 })
    );
    assert_eq!(
        assemble(".data \"hello\"\n", 4),
        Err(AsmError::CapacityError { generated: 5, len: 4 })
    );
}

#[test]
fn padding() {
    let text = assemble("hlt\n", 5).unwrap();
    assert_eq!(text, "7F000000\n00000000\n00000000\n00000000\n00000000\n");
    let empty = assemble("", 3).unwrap();
    assert_eq!(empty, "00000000\n00000000\n00000000\n");
    assert_eq!(assemble("", 0).unwrap(), "");
}

#[test]
fn every_line_has_eight_digits() {
    let text = assemble("$a:\n.data \"xyz\"\nlaci $a\n.zero\n", 256).unwrap();
    assert_eq!(text.len(), 256 * 9);
    assert!(text.ends_with('\n'));
    let lines: Vec<&str> = text.lines().collect();
    assert_eq!(lines.len(), 256);
    for line in &lines {
        assert_eq!(line.len(), 8);
        assert!(line.bytes().all(|b| b.is_ascii_digit() || (b'A'..=b'F').contains(&b)));
    }
    assert_eq!(&lines[..5], ["00000078", "00000079", "0000007A", "FE000000", "00000000"]);
}

#[test]
fn data_string_after_a_label() {
    let text = assemble("$msg:\n.data \"AB\"\n.data $msg\n", 3).unwrap();
    assert_eq!(text, "00000041\n00000042\n00000000\n");
    let shifted = assemble("nop\n$msg:\n.data \"AB\"\n.data $msg\n", 4).unwrap();
    assert_eq!(shifted, "79000000\n00000041\n00000042\n00000001\n");
}

#[test]
fn unresolvable_reference() {
    assert_eq!(
        assemble("jmp $nowhere\n", 4),
        Err(AsmError::LinkError { label: "nowhere".to_string() })
    );
    assert_eq!(
        assemble("$somewhere:\nnop\njmp $nowhere\n", 1),
        Err(AsmError::LinkError { label: "nowhere".to_string() })
    );
}

#[test]
fn unknown_mnemonic() {
    assert_eq!(
        assemble("foo 1\n", 4),
        Err(AsmError::SyntaxError(SyntaxError::UnknownInstruction("foo".to_string())))
    );
    assert_eq!(
        assemble("foo 1\nlac 12\njmp $nowhere\n", 0),
        Err(AsmError::SyntaxError(SyntaxError::UnknownInstruction("foo".to_string())))
    );
}

#[test]
fn parsing_fails_before_encoding() {
    assert_eq!(
        assemble("lac 12\n$bad\n", 4),
        Err(AsmError::SyntaxError(SyntaxError::MalformedLabel))
    );
    assert_eq!(
        assemble("lac 12\nlac 0d1\n", 4),
        Err(AsmError::UnsupportedFeature(UnsupportedFeature::LiteralFormat))
    );
}

#[test]
fn comments_are_no_source() {
    let text = assemble("// a program\nlac 0d5 // load five\n// jmp $nowhere\nhlt", 2).unwrap();
    assert_eq!(text, "7E000005\n7F000000\n");
}

#[test]
fn comment_cuts_a_string() {
    assert_eq!(
        assemble(".data \"a//b\"\n", 2),
        Err(AsmError::UnsupportedFeature(UnsupportedFeature::LiteralFormat))
    );
    let text = assemble(".data \"ab\"//\"\n", 2).unwrap();
    assert_eq!(text, "00000061\n00000062\n");
}

#[test]
fn indirect_forms() {
    let text = assemble("laci 0x10\nlac [0x10]\njmpi $a\n$a:\nlac 0x10\n", 4).unwrap();
    assert_eq!(text, "FE000010\nFE000010\n91000003\n7E000010\n");
}

#[test]
fn duplicate_label_takes_the_later_address() {
    let text = assemble("$a:\nnop\n$a:\nnop\njmp $a\n", 3).unwrap();
    assert_eq!(text, "79000000\n79000000\n11000001\n");
}

#[test]
fn label_without_instruction_is_lost() {
    assert_eq!(
        assemble("jmp $a\n$a:\n", 2),
        Err(AsmError::LinkError { label: "a".to_string() })
    );
    assert_eq!(
        assemble("$a:\n$b:\nnop\njmp $a\n", 2),
        Err(AsmError::LinkError { label: "a".to_string() })
    );
}

#[test]
fn config_holds_the_length() {
    let config = Config::new("in.asm".to_string(), None);
    assert_eq!(config.len, 256);
    assert_eq!(config.src, "in.asm");
    assert_eq!(config.dest, None);
    let small = Config { src: String::new(), dest: Some("out.hex".to_string()), len: 2 };
    assert_eq!(small.assemble("hlt\n"), assemble("hlt\n", 2));
    assert_eq!(small.assemble("hlt\n").unwrap(), "7F000000\n00000000\n");
    assert_eq!(config.assemble("hlt\n"), assemble("hlt\n", 256));
}
