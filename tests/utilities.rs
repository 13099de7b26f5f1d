use std::ops::Range;
use treer::cal::{parse_int, parse_month, parse_year};
use treer::cut::{extract_bytes, extract_chars, parse_index, parse_pos, Extract};
use treer::fortune::{parse_u64, Fortune};
use treer::head::parse_positive_int;
use treer::perms::{format_mode, mk_triplet, Owner};
use treer::tail::{get_start_index, parse_num};
use treer::tail::TakeValue::{PlusZero, TakeNum};
use treer::wc::{count, FileInfo, FileParams};

#[test]
fn lib_test_format_mode() {
    assert_eq!(format_mode(0o755), "rwxr-xr-x");
    assert_eq!(format_mode(0o421), "r---w---x");
}

#[test]
fn format_mode_extremes() {
    assert_eq!(format_mode(0o000), "---------");
    assert_eq!(format_mode(0o777), "rwxrwxrwx");
    assert_eq!(format_mode(0o100644), "rw-r--r--");
}

#[test]
fn owner_masks_and_triplets() {
    assert_eq!(Owner::User.masks(), [0o400, 0o200, 0o100]);
    assert_eq!(Owner::Group.masks(), [0o040, 0o020, 0o010]);
    assert_eq!(Owner::Other.masks(), [0o004, 0o002, 0o001]);
    assert_eq!(mk_triplet(0o750, Owner::Group), "r-x");
    assert_eq!(mk_triplet(0o750, Owner::Other), "---");
}

#[test]
fn test_get_start_index() {
    // +0 from an empty file (0 lines/bytes) returns None
    assert_eq!(get_start_index(&PlusZero, 0), None);
    // +0 from a nonempty file returns an index that
    // is one less than the number of lines/bytes
    assert_eq!(get_start_index(&PlusZero, 1), Some(0));
    // Taking 0 lines/bytes returns None
    assert_eq!(get_start_index(&TakeNum(0), 1), None);
    // Taking any lines/bytes from an empty file returns None
    assert_eq!(get_start_index(&TakeNum(1), 0), None);
    // Taking more lines/bytes than is available returns None
    assert_eq!(get_start_index(&TakeNum(2), 1), None);
    // When starting line/byte is less than total lines/bytes,
    // return one less than starting number
    assert_eq!(get_start_index(&TakeNum(1), 10), Some(0));
    assert_eq!(get_start_index(&TakeNum(2), 10), Some(1));
    assert_eq!(get_start_index(&TakeNum(3), 10), Some(2));
    // When starting line/byte is negative and less than total,
    // return total - start
    assert_eq!(get_start_index(&TakeNum(-1), 10), Some(9));
    assert_eq!(get_start_index(&TakeNum(-2), 10), Some(8));
    assert_eq!(get_start_index(&TakeNum(-3), 10), Some(7));
    // When starting line/byte is negative and more than total,
    // return 0 to print the whole file
    assert_eq!(get_start_index(&TakeNum(-20), 10), Some(0));
}

#[test]
fn start_index_extreme_values() {
    assert_eq!(get_start_index(&TakeNum(i64::MIN), i64::MIN), Some(0));
    assert_eq!(get_start_index(&TakeNum(i64::MAX), i64::MAX), Some(i64::MAX - 1));
}

#[test]
fn test_parse_u64() {
    let res = parse_u64("a");
    assert!(res.is_err());
    assert_eq!(res.unwrap_err().to_string(), "\"a\" not a valid integer");
    let res = parse_u64("0");
    assert!(res.is_ok());
    assert_eq!(res.unwrap(), 0);
    let res = parse_u64("4");
    assert!(res.is_ok());
    assert_eq!(res.unwrap(), 4);
}

#[test]
fn parse_u64_limits() {
    assert_eq!(parse_u64("+7"), Ok(7));
    assert_eq!(parse_u64("18446744073709551615"), Ok(u64::MAX));
    assert!(parse_u64("18446744073709551616").is_err());
    assert!(parse_u64("-0").is_err());
    assert!(parse_u64("").is_err());
    assert!(parse_u64("+").is_err());
}

#[test]
fn fortune_holds_source_and_text() {
    let f = Fortune { source: "jokes".to_string(), text: "Q. What is oval?".to_string() };
    assert_eq!(f.source, "jokes");
    assert_eq!(f.text, "Q. What is oval?");
}

#[test]
fn lib_test_parse_positive_int() {
    let mut res;
    res = parse_positive_int("3");
    assert!(res.is_ok());
    assert_eq!(res.unwrap(), 3);
    res = parse_positive_int("foo");
    assert!(res.is_err());
    assert_eq!(res.unwrap_err().to_string(), "foo".to_string())
}

#[test]
fn cli_test_parse_positive_int() {
    let mut res;
    res = parse_positive_int("3");
    assert!(res.is_ok());
    assert_eq!(res.unwrap(), 3);
    res = parse_positive_int("foo");
    assert!(res.is_err());
    assert_eq!(res.unwrap_err().to_string(), "foo".to_string());
    res = parse_positive_int("0");
    assert!(res.is_err());
    assert_eq!(res.unwrap_err().to_string(), "0".to_string());
}

#[test]
fn parse_positive_int_signs() {
    assert_eq!(parse_positive_int("-3"), Ok(-3));
    assert_eq!(parse_positive_int("+12"), Ok(12));
    assert_eq!(parse_positive_int("-0"), Err("-0".to_string()));
}

#[test]
fn test_parse_year() {
    let res = parse_year("1");
    assert!(res.is_ok());
    assert_eq!(res.unwrap(), 1i32);
    let res = parse_year("9999");
    assert!(res.is_ok());
    assert_eq!(res.unwrap(), 9999i32);
    let res = parse_year("0");
    assert!(res.is_err());
    assert_eq!(
        res.unwrap_err().to_string(),
        "year \"0\" not in the range 1 through 9999"
    );
    let res = parse_year("10000");
    assert!(res.is_err());
    assert_eq!(
        res.unwrap_err().to_string(),
        "year \"10000\" not in the range 1 through 9999"
    );
    let res = parse_year("foo");
    assert!(res.is_err());
}

#[test]
fn parse_year_messages() {
    assert_eq!(parse_year("foo"), Err("invalid digit found in string".to_string()));
    assert_eq!(parse_year("99999999999"), Err("invalid digit found in string".to_string()));
    assert_eq!(
        parse_year("-5"),
        Err("year \"-5\" not in the range 1 through 9999".to_string())
    );
}

#[test]
fn test_count() {
    let text = "I don't want the world. I just want your half.\r\n";
    let info = count(text);
    let expected = FileInfo {
        num_bytes: 48,
        num_chars: 48,
        num_lines: 1,
        num_words: 10,
    };
    assert_eq!(info, expected);
}

#[test]
fn count_edge_cases() {
    assert_eq!(
        count(""),
        FileInfo { num_bytes: 0, num_chars: 0, num_lines: 0, num_words: 0 }
    );
    assert_eq!(
        count("ábc\n  two words"),
        FileInfo { num_bytes: 16, num_chars: 15, num_lines: 2, num_words: 3 }
    );
    assert_eq!(
        count("a\u{3000}b\n\n"),
        FileInfo { num_bytes: 7, num_chars: 5, num_lines: 2, num_words: 2 }
    );
}

#[test]
fn test_extract_chars() {
    assert_eq!(extract_chars("", &[0..1]), "".to_string());
    assert_eq!(extract_chars("ábc", &[0..1]), "á".to_string());
    assert_eq!(extract_chars("ábc", &[0..1, 2..3]), "ác".to_string());
    assert_eq!(extract_chars("ábc", &[0..3]), "ábc".to_string());
    assert_eq!(extract_chars("ábc", &[2..3, 1..2]), "cb".to_string());
    assert_eq!(extract_chars("ábc", &[0..1, 1..2, 4..5]), "áb".to_string());
}

#[test]
fn test_extract_bytes() {
    assert_eq!(extract_bytes("ábc", &[0..1]), "�".to_string());
    assert_eq!(extract_bytes("ábc", &[0..2]), "á".to_string());
    assert_eq!(extract_bytes("ábc", &[0..3]), "áb".to_string());
    assert_eq!(extract_bytes("ábc", &[0..4]), "ábc".to_string());
    assert_eq!(extract_bytes("ábc", &[3..4, 2..3]), "cb".to_string());
    assert_eq!(extract_bytes("ábc", &[0..2, 5..6]), "á".to_string());
}

#[test]
fn extract_with_reversed_range() {
    let reversed: Vec<Range<usize>> = vec![Range { start: 2, end: 1 }];
    assert_eq!(extract_chars("abc", &reversed), "");
    assert_eq!(extract_bytes("abc", &reversed), "");
}

#[test]
fn parse_index_cases() {
    assert_eq!(parse_index("1"), Ok(0));
    assert_eq!(parse_index("007"), Ok(6));
    assert_eq!(parse_index("0"), Err("illegal list value: \"0\"".to_string()));
    assert_eq!(parse_index("+1"), Err("illegal list value: \"+1\"".to_string()));
    assert_eq!(parse_index("a"), Err("illegal list value: \"a\"".to_string()));
    assert_eq!(parse_index(""), Err("illegal list value: \"\"".to_string()));
}

#[test]
fn extract_kind() {
    assert!(Extract::Bytes(vec![0..1]).is_bytes());
    assert!(!Extract::Chars(vec![0..1]).is_bytes());
    assert!(!Extract::Fields(vec![]).is_bytes());
}

#[test]
fn test_parse_int() {
    // Parse positive int as usize
    let res = parse_int::<usize>("1");
    assert!(res.is_ok());
    assert_eq!(res.unwrap(), 1usize);
    // Parse negative int as i32
    let res = parse_int::<i32>("-1");
    assert!(res.is_ok());
    assert_eq!(res.unwrap(), -1i32);
    // Fail on a string
    let res = parse_int::<i64>("foo");
    assert!(res.is_err());
    assert_eq!(res.unwrap_err().to_string(), "Invalid integer \"foo\"");
}

#[test]
fn test_parse_month() {
    let res = parse_month("1");
    assert!(res.is_ok());
    assert_eq!(res.unwrap(), [1u32]);
    let res = parse_month("12");
    assert!(res.is_ok());
    assert_eq!(res.unwrap(), [12u32]);
    let res = parse_month("jan");
    assert!(res.is_ok());
    assert_eq!(res.unwrap(), [1u32]);
    let res = parse_month("4,jan,jul-sep");
    assert!(res.is_ok());
    assert_eq!(res.unwrap(), [1, 4, 7, 8, 9]);
    let res = parse_month("8-4");
    assert!(res.is_err());
    assert_eq!(
        res.unwrap_err().to_string(),
        "Invalid month range: \"8-4\" 8 should come after 4"
    );
    let res = parse_month("4,apr,2-6");
    assert!(res.is_ok());
    assert_eq!(res.unwrap(), [2, 3, 4, 5, 6]);
    let res = parse_month("0");
    assert!(res.is_err());
    assert_eq!(
        res.unwrap_err().to_string(),
        "month \"0\" not in the range 1 through 12"
    );
    let res = parse_month("13");
    assert!(res.is_err());
    assert_eq!(
        res.unwrap_err().to_string(),
        "month \"13\" not in the range 1 through 12"
    );
    let res = parse_month("foo");
    assert!(res.is_err());
    assert_eq!(res.unwrap_err().to_string(), "Invalid month \"foo\"");
}

#[test]
fn parse_month_more_cases() {
    // an invalid part is ignored while another is valid
    assert_eq!(parse_month("foo,3"), Ok(vec![3]));
    // every message when nothing is valid
    assert_eq!(
        parse_month("ju,0"),
        Err("Invalid month \"ju\"\nmonth \"0\" not in the range 1 through 12".to_string())
    );
    assert_eq!(parse_month("JUL"), Ok(vec![7]));
    assert_eq!(parse_month("nov-dec"), Err("Invalid range \"nov-dec\"".to_string()));
    assert_eq!(parse_month("1-2-3"), Err("Invalid range \"1-2-3\"".to_string()));
    assert_eq!(parse_month(""), Err("Invalid month \"\"".to_string()));
    assert_eq!(parse_month("3,3,2-4"), Ok(vec![2, 3, 4]));
}

#[test]
fn test_parse_num() {
    // All integers should be interpreted as negative numbers
    let res = parse_num("3");
    assert!(res.is_ok());
    assert_eq!(res.unwrap(), TakeNum(-3));
    // A leading "+" should result in a positive number
    let res = parse_num("+3");
    assert!(res.is_ok());
    assert_eq!(res.unwrap(), TakeNum(3));
    // An explicit "-" value should result in a negative number
    let res = parse_num("-3");
    assert!(res.is_ok());
    assert_eq!(res.unwrap(), TakeNum(-3));
    // Zero is zero
    let res = parse_num("0");
    assert!(res.is_ok());
    assert_eq!(res.unwrap(), TakeNum(0));
    // Plus zero is special
    let res = parse_num("+0");
    assert!(res.is_ok());
    assert_eq!(res.unwrap(), PlusZero);
    // Test boundaries
    let res = parse_num(&i64::MAX.to_string());
    assert!(res.is_ok());
    assert_eq!(res.unwrap(), TakeNum(i64::MIN + 1));
    let res = parse_num(&(i64::MIN + 1).to_string());
    assert!(res.is_ok());
    assert_eq!(res.unwrap(), TakeNum(i64::MIN + 1));
    let res = parse_num(&format!("+{}", i64::MAX));
    assert!(res.is_ok());
    assert_eq!(res.unwrap(), TakeNum(i64::MAX));
    let res = parse_num(&i64::MIN.to_string());
    assert!(res.is_ok());
    assert_eq!(res.unwrap(), TakeNum(i64::MIN));
    // A floating-point value is invalid
    let res = parse_num("3.14");
    assert!(res.is_err());
    assert_eq!(res.unwrap_err().to_string(), "3.14");
    // Any noninteger string is invalid
    let res = parse_num("foo");
    assert!(res.is_err());
    assert_eq!(res.unwrap_err().to_string(), "foo");
}

#[test]
fn parse_num_out_of_range() {
    assert_eq!(parse_num("+9223372036854775808"), Err("+9223372036854775808".to_string()));
    assert_eq!(parse_num("9223372036854775809"), Err("9223372036854775809".to_string()));
    assert_eq!(parse_num("-0"), Ok(TakeNum(0)));
}

#[test]
fn file_info_helpers() {
    let mut total = FileInfo::void();
    assert!(total.is_void());
    total.add_assign(FileInfo { num_bytes: 48, num_chars: 47, num_lines: 1, num_words: 10 });
    total.add_assign(FileInfo { num_bytes: 2, num_chars: 2, num_lines: 1, num_words: 0 });
    assert_eq!(total, FileInfo { num_bytes: 50, num_chars: 49, num_lines: 2, num_words: 10 });
    assert!(!total.is_void());
    let only_lines = FileParams { bytes: false, chars: false, lines: true, words: false };
    assert_eq!(only_lines.arg_count(), 1);
    assert_eq!(total.max_digits(&only_lines), 1);
    let two = FileParams { bytes: false, chars: false, lines: true, words: true };
    assert_eq!(two.arg_count(), 2);
    assert_eq!(total.max_digits(&two), 2);
}

#[test]
fn test_parse_pos() {
    // The empty string is an error
    assert!(parse_pos("").is_err());
    // Zero is an error
    let res = parse_pos("0");
    assert!(res.is_err());
    assert_eq!(res.unwrap_err().to_string(), "illegal list value: \"0\"",);
    let res = parse_pos("0-1");
    assert!(res.is_err());
    assert_eq!(res.unwrap_err().to_string(), "illegal list value: \"0\"",);
    // A leading "+" is an error
    let res = parse_pos("+1");
    assert!(res.is_err());
    assert_eq!(res.unwrap_err().to_string(), "illegal list value: \"+1\"",);
    let res = parse_pos("+1-2");
    assert!(res.is_err());
    assert_eq!(res.unwrap_err().to_string(), "illegal list value: \"+1-2\"",);
    let res = parse_pos("1-+2");
    assert!(res.is_err());
    assert_eq!(res.unwrap_err().to_string(), "illegal list value: \"1-+2\"",);
    // Any non-number is an error
    let res = parse_pos("a");
    assert!(res.is_err());
    assert_eq!(res.unwrap_err().to_string(), "illegal list value: \"a\"",);
    let res = parse_pos("1,a");
    assert!(res.is_err());
    assert_eq!(res.unwrap_err().to_string(), "illegal list value: \"a\"",);
    let res = parse_pos("1-a");
    assert!(res.is_err());
    assert_eq!(res.unwrap_err().to_string(), "illegal list value: \"1-a\"",);
    let res = parse_pos("a-1");
    assert!(res.is_err());
    assert_eq!(res.unwrap_err().to_string(), "illegal list value: \"a-1\"",);
    // Wonky ranges
    let res = parse_pos("-");
    assert!(res.is_err());
    let res = parse_pos(",");
    assert!(res.is_err());
    let res = parse_pos("1,");
    assert!(res.is_err());
    let res = parse_pos("1-");
    assert!(res.is_err());
    let res = parse_pos("1-1-1");
    assert!(res.is_err());
    let res = parse_pos("1-1-a");
    assert!(res.is_err());
    // First number must be less than second
    let res = parse_pos("1-1");
    assert!(res.is_err());
    assert_eq!(
        res.unwrap_err().to_string(),
        "First number in range (1) must be lower than second number (1)"
    );
    let res = parse_pos("2-1");
    assert!(res.is_err());
    assert_eq!(
        res.unwrap_err().to_string(),
        "First number in range (2) must be lower than second number (1)"
    );
    // All the following are acceptable
    let res = parse_pos("1");
    assert!(res.is_ok());
    assert_eq!(res.unwrap(), vec![0..1]);
    let res = parse_pos("01");
    assert!(res.is_ok());
    assert_eq!(res.unwrap(), vec![0..1]);
    let res = parse_pos("1,3");
    assert!(res.is_ok());
    assert_eq!(res.unwrap(), vec![0..1, 2..3]);
    let res = parse_pos("001,0003");
    assert!(res.is_ok());
    assert_eq!(res.unwrap(), vec![0..1, 2..3]);
    let res = parse_pos("1-3");
    assert!(res.is_ok());
    assert_eq!(res.unwrap(), vec![0..3]);
    let res = parse_pos("0001-03");
    assert!(res.is_ok());
    assert_eq!(res.unwrap(), vec![0..3]);
    let res = parse_pos("1,7,3-5");
    println!("{:?}", res);
    assert!(res.is_ok());
    assert_eq!(res.unwrap(), vec![0..1, 6..7, 2..5]);
    let res = parse_pos("15,19-20");
    assert!(res.is_ok());
    assert_eq!(res.unwrap(), vec![14..15, 18..20]);
}
