use assembler::{
    inst_word, AsmError, Bin, Flags, InstType, Instruction, Param, SyntaxError,
    UnsupportedFeature,
};

fn inst(t: InstType, indirect: bool, label: Option<&str>, params: Vec<Param>) -> Instruction {
    Instruction {
        t,
        flags: if indirect { Flags(vec!['i']) } else { Flags(Vec::new()) },
        label: label.map(|s| s.to_string()),
        params,
    }
}

fn data(label: Option<&str>, operand: Param) -> Instruction {
    inst(InstType::Dot(".data".to_string()), false, label, vec![operand])
}

fn word(word: u32, pointer: Option<&str>, pointee: Option<&str>) -> Bin {
    Bin::new(word, pointer.map(|s| vec![s.to_string()]), pointee.map(|s| s.to_string()))
}

#[test]
fn bin_new_keeps_its_arguments() {
    let bin = Bin::new(7, Some(vec!["a".to_string(), "b".to_string()]), Some("c".to_string()));
    assert_eq!(bin.word, 7);
    assert_eq!(bin.pointer, Some(vec!["a".to_string(), "b".to_string()]));
    assert_eq!(bin.pointee, Some("c".to_string()));
    let plain = Bin::new(0, None, None);
    assert_eq!(plain, Bin { word: 0, pointer: None, pointee: None });
}

#[test]
fn inst_word_layout() {
    assert_eq!(inst_word(5, 126, 0), 0x7E00_0005);
    assert_eq!(inst_word(0, 17, 0), 0x1100_0000);
    assert_eq!(inst_word(0x10, 126, 1), 0xFE00_0010);
    assert_eq!(inst_word(0xFF_FFFF, 127, 1), 0xFFFF_FFFF);
    assert_eq!(inst_word(0, 0, 0), 0);
    assert_eq!(inst_word(0, 0, 1), 0x8000_0000);
}

#[test]
fn inst_word_masks_nothing() {
    assert_eq!(inst_word(0x0100_0000, 0, 0), 0x0100_0000);
    assert_eq!(inst_word(0, 128, 0), 0x8000_0000);
    assert_eq!(inst_word(0, 0, 2), 0);
}

#[test]
fn opcode_numbers() {
    let table: [(InstType, u32); 30] = [
        (InstType::And, 0),
        (InstType::Or, 1),
        (InstType::Inc, 2),
        (InstType::Dec, 3),
        (InstType::Add, 4),
        (InstType::Sub, 5),
        (InstType::Xor, 6),
        (InstType::Not, 7),
        (InstType::Shr, 8),
        (InstType::Ashr, 9),
        (InstType::Ror, 10),
        (InstType::Rcr, 11),
        (InstType::Shl, 12),
        (InstType::Ashl, 13),
        (InstType::Rol, 14),
        (InstType::Rcl, 15),
        (InstType::Wac, 16),
        (InstType::Jmp, 17),
        (InstType::Je, 18),
        (InstType::Jne, 19),
        (InstType::Jg, 20),
        (InstType::Jl, 21),
        (InstType::Rac, 22),
        (InstType::Nop, 121),
        (InstType::Iof, 122),
        (InstType::Ion, 123),
        (InstType::Out, 124),
        (InstType::Ltr, 125),
        (InstType::Lac, 126),
        (InstType::Hlt, 127),
    ];
    for (t, number) in table {
        assert_eq!(t.opcode(), Some(number));
        let words = Bin::from(&[inst(t, false, None, vec![Param::Literal("0x1".to_string())])], 0);
        assert_eq!(words, Ok(vec![word((number << 24) | 1, None, None)]));
    }
    assert_eq!(InstType::Dot(".zero".to_string()).opcode(), None);
}

#[test]
fn zero_directive() {
    let src = [inst(InstType::Dot(".zero".to_string()), false, Some("z"), vec![])];
    assert_eq!(Bin::from(&src, 0), Ok(vec![word(0, None, Some("z"))]));
}

#[test]
fn data_string_with_label() {
    let src = [data(Some("msg"), Param::StringLiteral("AB".to_string()))];
    let words = Bin::from(&src, 0);
    assert_eq!(words, Ok(vec![word(0x41, None, Some("msg")), word(0x42, None, None)]));
}

#[test]
fn data_string_of_wide_characters() {
    let src = [data(None, Param::StringLiteral("\u{e9}\u{141}\u{10041}".to_string()))];
    let words = Bin::from(&src, 0);
    assert_eq!(
        words,
        Ok(vec![word(0xE9, None, None), word(0x41, None, None), word(0x41, None, None)])
    );
}

#[test]
fn data_empty_string_gives_no_word() {
    let src = [data(Some("msg"), Param::StringLiteral(String::new()))];
    assert_eq!(Bin::from(&src, 0), Ok(Vec::new()));
}

#[test]
fn data_label() {
    let src = [data(Some("p"), Param::Label("target".to_string()))];
    assert_eq!(Bin::from(&src, 0), Ok(vec![word(0, Some("target"), Some("p"))]));
}

#[test]
fn data_literal() {
    let src = [data(Some("n"), Param::Literal("0xFFFFFFFF".to_string()))];
    assert_eq!(Bin::from(&src, 0), Ok(vec![word(u32::MAX, None, Some("n"))]));
    let blank = [data(None, Param::Literal(String::new()))];
    assert_eq!(Bin::from(&blank, 0), Ok(vec![word(0, None, None)]));
}

#[test]
fn data_invalid_operand() {
    let indirect = [data(None, Param::Indirect("0x1".to_string()))];
    assert_eq!(
        Bin::from(&indirect, 0),
        Err(AsmError::SyntaxError(SyntaxError::InvalidDataOperand))
    );
    let expression =
        [data(None, Param::Expression(Box::new(Param::Literal("0x1".to_string()))))];
    assert_eq!(
        Bin::from(&expression, 0),
        Err(AsmError::SyntaxError(SyntaxError::InvalidDataOperand))
    );
}

#[test]
fn unknown_directive() {
    let src = [inst(InstType::Dot(".text".to_string()), false, None, vec![])];
    assert_eq!(
        Bin::from(&src, 0),
        Err(AsmError::SyntaxError(SyntaxError::UnknownInstruction(".text".to_string())))
    );
}

#[test]
fn opcode_with_literal() {
    let src = [inst(InstType::Lac, false, Some("start"), vec![Param::Literal("0d5".to_string())])];
    assert_eq!(Bin::from(&src, 0), Ok(vec![word(0x7E00_0005, None, Some("start"))]));
    let flagged = [inst(InstType::Lac, true, None, vec![Param::Literal("0d5".to_string())])];
    assert_eq!(Bin::from(&flagged, 0), Ok(vec![word(0xFE00_0005, None, None)]));
}

#[test]
fn opcode_with_indirect_operand_forces_the_flag() {
    let src = [inst(InstType::Add, false, None, vec![Param::Indirect("0x10".to_string())])];
    assert_eq!(Bin::from(&src, 0), Ok(vec![word(0x8400_0010, None, None)]));
    let flagged = [inst(InstType::Add, true, None, vec![Param::Indirect("0x10".to_string())])];
    assert_eq!(Bin::from(&flagged, 0), Ok(vec![word(0x8400_0010, None, None)]));
}

#[test]
fn opcode_with_label_leaves_the_value_field_empty() {
    let src = [inst(InstType::Jmp, false, None, vec![Param::Label("start".to_string())])];
    assert_eq!(Bin::from(&src, 0), Ok(vec![word(0x1100_0000, Some("start"), None)]));
    let flagged = [inst(InstType::Jmp, true, Some("x"), vec![Param::Label("start".to_string())])];
    assert_eq!(Bin::from(&flagged, 0), Ok(vec![word(0x9100_0000, Some("start"), Some("x"))]));
}

#[test]
fn opcode_with_expression_or_string() {
    let expression = [inst(
        InstType::Add,
        false,
        None,
        vec![Param::Expression(Box::new(Param::Literal("0x1".to_string())))],
    )];
    assert_eq!(
        Bin::from(&expression, 0),
        Err(AsmError::UnsupportedFeature(UnsupportedFeature::ExpressionOperand))
    );
    let string = [inst(InstType::Add, false, None, vec![Param::StringLiteral("a".to_string())])];
    assert_eq!(Bin::from(&string, 0), Err(AsmError::SyntaxError(SyntaxError::InvalidOperand)));
}

#[test]
fn opcode_with_bad_literal() {
    let src = [inst(InstType::Add, false, None, vec![Param::Literal("12".to_string())])];
    assert_eq!(
        Bin::from(&src, 0),
        Err(AsmError::UnsupportedFeature(UnsupportedFeature::LiteralFormat))
    );
    let inner = [inst(InstType::Add, false, None, vec![Param::Indirect(" 0x1".to_string())])];
    assert_eq!(
        Bin::from(&inner, 0),
        Err(AsmError::UnsupportedFeature(UnsupportedFeature::LiteralFormat))
    );
}

#[test]
fn only_the_first_operand_counts() {
    let src = [inst(
        InstType::Add,
        false,
        None,
        vec![Param::Literal("0d1".to_string()), Param::StringLiteral("x".to_string())],
    )];
    assert_eq!(Bin::from(&src, 0), Ok(vec![word(0x0400_0001, None, None)]));
}

#[test]
fn no_operand_is_an_empty_literal() {
    let src = [inst(InstType::Hlt, false, None, vec![])];
    assert_eq!(Bin::from(&src, 0), Ok(vec![word(0x7F00_0000, None, None)]));
    let directive = [inst(InstType::Dot(".data".to_string()), false, None, vec![])];
    assert_eq!(Bin::from(&directive, 0), Ok(vec![word(0, None, None)]));
}

#[test]
fn words_come_in_the_order_of_the_instructions() {
    let src = [
        inst(InstType::Lac, false, Some("a"), vec![Param::Literal("0d1".to_string())]),
        data(Some("s"), Param::StringLiteral("hi".to_string())),
        inst(InstType::Jmp, false, None, vec![Param::Label("a".to_string())]),
    ];
    assert_eq!(
        Bin::from(&src, 0),
        Ok(vec![
            word(0x7E00_0001, None, Some("a")),
            word(0x68, None, Some("s")),
            word(0x69, None, None),
            word(0x1100_0000, Some("a"), None),
        ])
    );
}

#[test]
fn the_offset_changes_nothing() {
    let src = [inst(InstType::Jmp, false, Some("a"), vec![Param::Label("a".to_string())])];
    assert_eq!(Bin::from(&src, 0), Bin::from(&src, 1000));
}

#[test]
fn first_instruction_in_error_ends_the_run() {
    let src = [
        inst(InstType::Add, false, None, vec![Param::Literal("0d1".to_string())]),
        inst(InstType::Add, false, None, vec![Param::StringLiteral("x".to_string())]),
        inst(InstType::Add, false, None, vec![Param::Literal("zz".to_string())]),
    ];
    assert_eq!(Bin::from(&src, 0), Err(AsmError::SyntaxError(SyntaxError::InvalidOperand)));
}

#[test]
fn no_instruction_gives_no_word() {
    assert_eq!(Bin::from(&[], 0), Ok(Vec::new()));
}
