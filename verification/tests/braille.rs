use braille_render::braille::Pattern;
use braille_render::braille::mask;

#[test]
fn mask_equiv() {
    for x in 0..2u32 {
        for y in 0..4u32 {
            println!("Testing mask({x}, {y})");
            let expected: u8 = 1 << match (x, y) {
                (0, 0) => 0,
                (0, 1) => 1,
                (0, 2) => 2,
                (0, 3) => 6,
                (1, 0) => 3,
                (1, 1) => 4,
                (1, 2) => 5,
                (1, 3) => 7,
                (_, _) => panic!(),
            };
            assert_eq!(mask(x, y), expected);
        }
    }
}

#[test]
fn works() {
    let mut pattern = Pattern::empty();
    assert_eq!(pattern.as_char(), '⠀');
    pattern = pattern.with(1, 0);
    assert_eq!(pattern.as_char(), '⠈');
    pattern = pattern.with(1, 1);
    assert_eq!(pattern.as_char(), '⠘');
    pattern = pattern.with(1, 3);
    assert_eq!(pattern.as_char(), '⢘');
    pattern = pattern.with(0, 2);
    assert_eq!(pattern.as_char(), '⢜');
    pattern = pattern.with(0, 1);
    assert_eq!(pattern.as_char(), '⢞');
}

#[test]
fn to_str_equiv() {
    for offset in 0..=255u8 {
        let pattern = Pattern::from_offset(offset);
        let mut buf = [0u8; 3];
        pattern.encode_utf8(&mut buf);
        assert_eq!(std::str::from_utf8(&buf).unwrap(), pattern.as_char().to_string());
    }
}

#[test]
fn empty_pattern_is_blank_cell() {
    let p = Pattern::empty();
    assert_eq!(p.offset(), 0);
    assert_eq!(p.as_char(), '\u{2800}');
    let mut buf = [0u8; 3];
    p.encode_utf8(&mut buf);
    assert_eq!(buf, [0xE2, 0xA0, 0x80]);
}

#[test]
fn codepoint_totality() {
    for offset in 0..=255u8 {
        let c = Pattern::from_offset(offset).as_char();
        assert_eq!(c as u32, 0x2800 + offset as u32);
    }
}

#[test]
fn set_order_independent_and_idempotent() {
    let a = Pattern::empty().with(0, 1).with(1, 2);
    let b = Pattern::empty().with(1, 2).with(0, 1);
    assert_eq!(a.offset(), b.offset());
    let twice = a.with(0, 1);
    assert_eq!(twice.offset(), a.offset());
}

#[test]
fn set_respects_flag() {
    let p = Pattern::empty().set(1, 0, true);
    assert_eq!(p.as_char(), '⠈');
    let unchanged = p.set(0, 2, false);
    assert_eq!(unchanged.offset(), p.offset());
    assert_eq!(p.set(1, 0, true).offset(), p.offset());
}

#[test]
fn encode_matches_offset_formula() {
    for offset in 0..=255u8 {
        let mut buf = [0u8; 3];
        Pattern::from_offset(offset).encode_utf8(&mut buf);
        assert_eq!(buf[0], 0xE2);
        assert_eq!(buf[1], 0xA0 | (offset >> 6));
        assert_eq!(buf[2], 0x80 | (offset & 0x3F));
    }
}
