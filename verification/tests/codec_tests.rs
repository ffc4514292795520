use sixbit::encode;
use sixbit::DecodeSixbit;
use sixbit::EncodeError;
use sixbit::PackedValue;

fn encode_str<N: PackedValue>(s: &str) -> Result<N, EncodeError> {
    let chars: Vec<char> = s.chars().collect();
    encode::<N>(&chars)
}

fn round_trip<N: PackedValue + std::fmt::Debug>(s: &str) -> Result<N, EncodeError> {
    match encode_str::<N>(s) {
        Ok(enc) => {
            let dec: String = enc.decode_sixbit().into_vec().into_iter().collect();
            println!("roundtrip: {:?} => {:?} => {:?}", s, enc, dec);
            assert!(dec == s);
            Ok(enc)
        }
        err => err,
    }
}

fn check_order<N: PackedValue + PartialOrd + std::fmt::Debug>(a: &str, b: &str) {
    assert!(a < b);
    assert!(encode_str::<N>(a).unwrap() < encode_str::<N>(b).unwrap());
}

#[test]
fn misc_invariants() {
    // Check that pages are ordered by unicode ranges.
    for p in 0..15usize {
        let first = sixbit::pages::char_of(p, 1);
        let next = sixbit::pages::char_of(p + 1, 1);
        if first != '\u{ffff}' && next != '\u{ffff}' {
            if first >= next {
                println!("mis-ordered page pair: {:?} >= {:?}", first, next);
            }
            assert!(first < next);
        }
    }
    for p in 0..16usize {
        // Check that every page has a zero code, or is invalid.
        let zero = sixbit::pages::char_of(p, 0);
        assert!(zero == '\0' || zero == '\u{ffff}');
        // Check that every page is sorted.
        for i in 0..63usize {
            let a = sixbit::pages::char_of(p, i);
            let b = sixbit::pages::char_of(p, i + 1);
            if a != '\0' && b != '\0' && a != '\u{ffff}' && b != '\u{ffff}' {
                if a >= b {
                    println!("mis-ordered char pair: {:?} >= {:?}", a, b);
                }
                assert!(a < b);
            }
        }
    }
}

// For Latin we try a full-width, a not-full-width, and each of the
// error conditions.
#[test]
fn test_latin() {
    // Full width.
    assert!(round_trip::<u128>("PRINTER_is_on_FIRE").is_ok());
    assert!(round_trip::<u64>("NO_CARRIER").is_ok());
    assert!(round_trip::<u32>("_CAT_").is_ok());
    assert!(round_trip::<u16>("OK").is_ok());
    assert!(round_trip::<u8>("1").is_ok());

    // Non-full-width.
    assert!(round_trip::<u128>("Printer_Working").is_ok());
    assert!(round_trip::<u64>("ATDT_123").is_ok());
    assert!(round_trip::<u32>("Uwu").is_ok());
    assert!(round_trip::<u16>("A").is_ok());
    assert!(round_trip::<u8>("").is_ok());

    // Error conditions: TooLong.
    assert!(round_trip::<u128>("PRINTER_FULLY_OPERATIONAL") == Err(EncodeError::TooLong));
    assert!(round_trip::<u64>("ATDT_123_4567") == Err(EncodeError::TooLong));
    assert!(round_trip::<u32>("aaaaaaa") == Err(EncodeError::TooLong));
    assert!(round_trip::<u16>("aba") == Err(EncodeError::TooLong));
    assert!(round_trip::<u8>("OOH") == Err(EncodeError::TooLong));

    // Error conditions: NoCodePageFor.
    assert!(round_trip::<u128>("©2018") == Err(EncodeError::NoCodePageFor('©')));

    // Error conditions: PageUnavailable.
    assert!(round_trip::<u128>("ΨΩ") == Err(EncodeError::PageUnavailable(1)));

    // Error conditions: MissingFromPage.
    assert!(round_trip::<u64>("sh@rk") == Err(EncodeError::MissingFromPage('@')));
}

#[test]
fn sorting() {
    // Check encoding order preservation within pages.
    check_order::<u32>("", "AB");
    check_order::<u64>("abcd", "abcde");
    check_order::<u64>("abcde", "abcdf");
    check_order::<u64>("α", "αβγ");
    check_order::<u64>("αβ", "αβγ");
    check_order::<u64>("αβγ", "αβδ");
    check_order::<u64>("怎么", "怎么样");
    check_order::<u64>("以前", "以后");
    // Check encoding order preservation across pages.
    check_order::<u64>("abc", "αβγ");
    check_order::<u64>("αβγ", "абв");
    check_order::<u64>("абв", "אבג");
    check_order::<u64>("אבג", "ابة");
    check_order::<u64>("ابة", "कखग");
    check_order::<u64>("कखग", "ㄱㄲㄳ");
    check_order::<u64>("ㄱㄲㄳ", "合伙人");
    check_order::<u64>("合伙人", "ｦｧｨ");
}

// For non-Latin scripts we just check a word at each width
// to make sure they work.

#[test]
fn test_greek() {
    // Non-primary tag: only available in u64 and u16 forms.
    assert!(round_trip::<u64>("αλήθεια").is_ok());
    assert!(round_trip::<u16>("γη").is_ok());
}

#[test]
fn test_cyrillic() {
    //Non-primary tag: available only in u64 and u16 forms.
    assert!(round_trip::<u64>("содержать").is_ok());
    assert!(round_trip::<u16>("же").is_ok());
}

#[test]
fn test_hebrew() {
    // Non-primary tag: only available in u64 and u16 forms.
    assert!(round_trip::<u64>("לעשות").is_ok());
    assert!(round_trip::<u16>("כל").is_ok());
}

#[test]
fn test_arabic() {
    // Primary tag: available in all forms.
    assert!(round_trip::<u128>("محافظت").is_ok());
    assert!(round_trip::<u64>("العاصمة").is_ok());
    assert!(round_trip::<u32>("البعض").is_ok());
    assert!(round_trip::<u16>("از").is_ok());
    assert!(round_trip::<u8>("و").is_ok());
}

#[test]
fn test_devanagari() {
    // Primary tag: available in all forms.
    assert!(round_trip::<u128>("किंकर्तव्यविमूढ़").is_ok());
    assert!(round_trip::<u64>("आवश्यकता").is_ok());
    assert!(round_trip::<u32>("सपना").is_ok());
    assert!(round_trip::<u16>("पल").is_ok());
    assert!(round_trip::<u8>("आ").is_ok());
}

#[test]
fn test_chinese() {
    // Special-case 15-bit primary tag: only forms >=32 bits.
    assert!(round_trip::<u128>("高速火车站").is_ok());
    assert!(round_trip::<u64>("合伙人").is_ok());
    assert!(round_trip::<u32>("同事").is_ok());
}

#[test]
fn test_compatibility_hangul_jamo() {
    // Non-primary tag: only available in u64 and u16 forms.
    assert!(round_trip::<u64>("ㅇㅜㅁㅈㅣㄱㅇㅣㅁ").is_ok());
    assert!(round_trip::<u16>("ㅅㅜ").is_ok());
}

#[test]
fn test_halfwidth_kana() {
    // Non-primary tag: only available in u64 and u16 forms.
    assert!(round_trip::<u64>("ｲｸﾂｶﾉ").is_ok());
    assert!(round_trip::<u16>("ﾔﾙ").is_ok());
}

#[test]
fn empty_string_is_zero() {
    assert!(encode_str::<u8>("") == Ok(0));
    assert!(encode_str::<u16>("") == Ok(0));
    assert!(encode_str::<u32>("") == Ok(0));
    assert!(encode_str::<u64>("") == Ok(0));
    assert!(encode_str::<u128>("") == Ok(0));
    assert!(0u64.decode_sixbit().into_vec().is_empty());
    assert!(0u8.decode_sixbit().into_vec().is_empty());
}

#[test]
fn exact_packed_values() {
    // u16: 4 tag bits (Latin is tag 0), then 'O' = code 25 and 'K' = code 21.
    assert!(encode_str::<u16>("OK") == Ok(0x655));
    // u8: 2 tag bits, then '1' = code 2, no padding left over.
    assert!(encode_str::<u8>("1") == Ok(2));
    // u32: URO tag 0b11 on top, delta 0 stored as unit 1, 15 bits of padding.
    assert!(encode_str::<u32>("一") == Ok(0xc000_8000));
}

#[test]
fn capacity_boundary_uro() {
    // u32 holds exactly two 15-bit units.
    assert!(round_trip::<u32>("同事").is_ok());
    assert!(encode_str::<u32>("高速火") == Err(EncodeError::TooLong));
    // u64 holds exactly four.
    assert!(round_trip::<u64>("高速火车").is_ok());
    assert!(encode_str::<u64>("高速火车站") == Err(EncodeError::TooLong));
}

#[test]
fn chinese_needs_wide_values() {
    // 8- and 16-bit values have no room for a 15-bit unit, and no table
    // page carries the ideographs.
    assert!(encode_str::<u16>("同") == Err(EncodeError::NoCodePageFor('同')));
    assert!(encode_str::<u8>("同") == Err(EncodeError::NoCodePageFor('同')));
}

#[test]
fn uro_low_characters_round_trip() {
    // Characters near the low end of the URO block store small units.
    assert!(round_trip::<u32>("一").is_ok());
    assert!(round_trip::<u64>("么").is_ok());
    assert!(round_trip::<u128>("一丁丂七").is_ok());
}

#[test]
fn terminator_and_sentinel_rejected() {
    assert!(encode_str::<u64>("\0") == Err(EncodeError::NoCodePageFor('\0')));
    assert!(encode_str::<u64>("\u{ffff}") == Err(EncodeError::NoCodePageFor('\u{ffff}')));
    assert!(encode_str::<u64>("a\0") == Err(EncodeError::MissingFromPage('\0')));
    assert!(encode_str::<u64>("a\u{ffff}") == Err(EncodeError::MissingFromPage('\u{ffff}')));
}

#[test]
fn decode_reserved_tag_yields_sentinels() {
    // Tag 0b0101 names a reserved page; decoding never fails, it hands back
    // sentinel characters instead.
    let v: u16 = 0x5040; // tag 5, first code 1, second code 0
    let dec = v.decode_sixbit().into_vec();
    assert!(dec == vec!['\u{ffff}']);
}

#[test]
fn packed_value_primitives() {
    assert_eq!(u16::truncating_cast_from(0x12345), 0x2345u16);
    assert_eq!(u8::truncating_cast_from(0x1ff), 0xffu8);
    assert_eq!(0xab12u16.most_significant_byte(), 0xab);
    assert_eq!(0x7f00_0000u32.most_significant_byte(), 0x7f);
    assert_eq!(u64::nbits(), 64);
    assert_eq!(u128::nbits(), 128);
}
