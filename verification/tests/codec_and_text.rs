use mfbot_server::codec::{EquipIdent, compress_ident, decompress_ident};
use mfbot_server::text::{parse_i64, parse_u64, split_str, trim_spaces, trim_sep, str_ends_with};

#[test]
fn ident_round_trip_all_fields() {
    let ident = EquipIdent { model_id: 23, color: 4, typ: 9, class: Some(2) };
    let packed = compress_ident(ident);
    assert_eq!(decompress_ident(packed), ident);
}

#[test]
fn ident_round_trip_no_class() {
    let ident = EquipIdent { model_id: 65535, color: 255, typ: 15, class: None };
    let packed = compress_ident(ident);
    assert_eq!(decompress_ident(packed), ident);
}

#[test]
fn ident_exact_packed_value() {
    // model 23 | color 1 << 16 | typ 1 << 24 | (class 5 + 1) << 28
    let ident = EquipIdent { model_id: 23, color: 1, typ: 1, class: Some(5) };
    let packed = compress_ident(ident);
    assert_eq!(packed as u32, 23 | (1 << 16) | (1 << 24) | (6u32 << 28));
}

#[test]
fn ident_distinct_values_distinct_packings() {
    let a = EquipIdent { model_id: 1, color: 0, typ: 1, class: None };
    let b = EquipIdent { model_id: 1, color: 0, typ: 2, class: None };
    assert_ne!(compress_ident(a), compress_ident(b));
}

#[test]
fn parse_i64_plain_and_signs() {
    assert_eq!(parse_i64("0"), Some(0));
    assert_eq!(parse_i64("12345"), Some(12345));
    assert_eq!(parse_i64("-7"), Some(-7));
    assert_eq!(parse_i64("+42"), Some(42));
}

#[test]
fn parse_i64_extremes() {
    assert_eq!(parse_i64("9223372036854775807"), Some(i64::MAX));
    assert_eq!(parse_i64("-9223372036854775808"), Some(i64::MIN));
    assert_eq!(parse_i64("9223372036854775808"), None);
    assert_eq!(parse_i64("-9223372036854775809"), None);
    assert_eq!(parse_i64("99999999999999999999999"), None);
}

#[test]
fn parse_i64_rejects_garbage() {
    assert_eq!(parse_i64(""), None);
    assert_eq!(parse_i64("-"), None);
    assert_eq!(parse_i64("+"), None);
    assert_eq!(parse_i64("1 2"), None);
    assert_eq!(parse_i64("12a"), None);
    assert_eq!(parse_i64("--3"), None);
}

#[test]
fn parse_i64_matches_std_parse() {
    for s in ["0", "-0", "+17", "blah", "", "184467", "-92233", "00100"] {
        assert_eq!(parse_i64(s), s.parse::<i64>().ok(), "input {s:?}");
    }
}

#[test]
fn parse_u64_basics() {
    assert_eq!(parse_u64("18446744073709551615"), Some(u64::MAX));
    assert_eq!(parse_u64("18446744073709551616"), None);
    assert_eq!(parse_u64("-1"), None);
    assert_eq!(parse_u64("+8"), Some(8));
}

#[test]
fn split_matches_std_split() {
    for s in ["a/b/c", "", "/", "a//b", "/x/", "abc"] {
        let got: Vec<String> = split_str(s, '/').into_iter().collect();
        let want: Vec<String> = s.split('/').map(|p| p.to_string()).collect();
        assert_eq!(got, want, "input {s:?}");
    }
}

#[test]
fn trim_spaces_both_ends() {
    assert_eq!(trim_spaces(" \t 1/2/3 \r\n"), "1/2/3".to_string());
    assert_eq!(trim_spaces(""), "".to_string());
    assert_eq!(trim_spaces("   "), "".to_string());
}

#[test]
fn trim_sep_matches_std_trim_matches() {
    for s in [";;a;b;;", "x", "", ";;;", ";mid;dle;"] {
        assert_eq!(trim_sep(s, ';'), s.trim_matches(';').to_string(), "input {s:?}");
    }
}

#[test]
fn ends_with_detects_sentinel() {
    assert!(str_ends_with("4,,,0,0,0,", ",,,0,0,0,"));
    assert!(!str_ends_with("1,Alice,G,10,500,3", ",,,0,0,0,"));
    assert!(!str_ends_with(",,0,0,0,", ",,,0,0,0,"));
}
