use dexgen::DexId;
use dexgen::parse_simple_style_attr;

fn chars(s: &str) -> Vec<char> {
    s.chars().collect()
}

fn string_of(v: &[char]) -> String {
    v.iter().collect()
}

#[test]
fn format_pads_to_four_digits() {
    assert_eq!(string_of(&DexId(7).format_chars()), "#0007");
    assert_eq!(string_of(&DexId(151).format_chars()), "#0151");
    assert_eq!(string_of(&DexId(1025).format_chars()), "#1025");
    assert_eq!(string_of(&DexId(10234).format_chars()), "#10234");
}

#[test]
fn parse_accepts_marker_and_plain() {
    assert_eq!(DexId::parse_chars(&chars("#0007")), Some(DexId(7)));
    assert_eq!(DexId::parse_chars(&chars("0007")), Some(DexId(7)));
    assert_eq!(DexId::parse_chars(&chars("151")), Some(DexId(151)));
    assert_eq!(DexId::parse_chars(&chars("#0000")), None);
    assert_eq!(DexId::parse_chars(&chars("")), None);
    assert_eq!(DexId::parse_chars(&chars("#")), None);
    assert_eq!(DexId::parse_chars(&chars("12a")), None);
    assert_eq!(DexId::parse_chars(&chars("99999999999")), None);
}

#[test]
fn parse_format_roundtrip() {
    for n in [1u32, 7, 9, 151, 1000, 9999, 10000, u32::MAX] {
        let formatted = DexId(n).format_chars();
        assert_eq!(DexId::parse_chars(&formatted), Some(DexId(n)));
    }
}

#[test]
fn prev_next_roundtrip() {
    assert_eq!(DexId(1).prev(), None);
    assert_eq!(DexId(2).prev(), Some(DexId(1)));
    assert_eq!(DexId(7).next(), DexId(8));
    for n in [1u32, 7, 151, 9999] {
        assert_eq!(DexId(n).next().prev(), Some(DexId(n)));
    }
}

#[test]
fn style_parse_basic() {
    let entries = parse_simple_style_attr("a:1;b:2;");
    assert_eq!(entries, vec![("a".to_string(), "1".to_string()), ("b".to_string(), "2".to_string())]);
}

#[test]
fn style_parse_duplicate_last_wins() {
    let entries = parse_simple_style_attr("a:1;a:2;");
    assert_eq!(entries, vec![("a".to_string(), "1".to_string()), ("a".to_string(), "2".to_string())]);
    // a lookup takes the last entry for a key
    let last = entries.iter().rev().find(|(k, _)| k == "a").map(|(_, v)| v.clone());
    assert_eq!(last, Some("2".to_string()));
}

#[test]
fn style_parse_trims_and_drops_colonless() {
    let entries = parse_simple_style_attr(" background : #fff ; nonsense ; text-align:center");
    assert_eq!(
        entries,
        vec![
            ("background".to_string(), "#fff".to_string()),
            ("text-align".to_string(), "center".to_string()),
        ],
    );
    assert_eq!(parse_simple_style_attr(""), Vec::<(String, String)>::new());
}

#[test]
fn style_value_with_colon_splits_at_first() {
    let entries = parse_simple_style_attr("background:url(http://x)");
    assert_eq!(entries, vec![("background".to_string(), "url(http://x)".to_string())]);
}

#[test]
fn roman_numeral_rendering() {
    assert_eq!(dexgen::roman_numerals(1), "I");
    assert_eq!(dexgen::roman_numerals(4), "IV");
    assert_eq!(dexgen::roman_numerals(9), "IX");
    assert_eq!(dexgen::roman_numerals(14), "XIV");
    assert_eq!(dexgen::roman_numerals(1987), "MCMLXXXVII");
}

#[test]
fn roman_value_subtractive_reading() {
    let chars = |s: &str| s.chars().collect::<Vec<char>>();
    assert_eq!(dexgen::roman_value(&chars("I")), Some(1));
    assert_eq!(dexgen::roman_value(&chars("IV")), Some(4));
    assert_eq!(dexgen::roman_value(&chars("IX")), Some(9));
    assert_eq!(dexgen::roman_value(&chars("XIV")), Some(14));
    assert_eq!(dexgen::roman_value(&chars("VIII")), Some(8));
    assert_eq!(dexgen::roman_value(&chars(" IX ")), Some(9));
    assert_eq!(dexgen::roman_value(&chars("5")), None);
}
