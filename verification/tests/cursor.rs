use repo_birthday::commits::{decode_hash, make_seek, Branch, History, PageInfo, Target};
use repo_birthday::decimal::{parse_u64, u64_to_string};
use repo_birthday::errors::Error;

#[test]
fn decode_hash_keeps_the_leading_token() {
    assert_eq!(decode_hash("abc123 7").unwrap(), "abc123");
    assert_eq!(decode_hash("abc123").unwrap(), "abc123");
    assert_eq!(decode_hash("a b c").unwrap(), "a");
}

#[test]
fn decode_hash_fails_on_an_empty_cursor() {
    assert!(matches!(decode_hash(""), Err(Error::CursorMissing)));
}

#[test]
fn page_info_cursor_decodes_its_own_cursor() {
    let page = PageInfo { end_cursor: String::from("deadbeef 1") };
    assert_eq!(page.cursor().unwrap(), "deadbeef");
    let empty = PageInfo { end_cursor: String::new() };
    assert!(matches!(empty.cursor(), Err(Error::CursorMissing)));
}

#[test]
fn make_seek_lands_two_short_of_the_total() {
    assert_eq!(make_seek("hash", 10), "hash 8");
    assert_eq!(make_seek("hash", 2), "hash 0");
    assert_eq!(make_seek("hash", 1), "hash 0");
    assert_eq!(make_seek("hash", 0), "hash 0");
    assert_eq!(make_seek("hash", 102), "hash 100");
}

#[test]
fn last_commit_cursor_reseeks_from_the_page_cursor() {
    let branch = Branch {
        target: Target {
            history: History {
                nodes: Vec::new(),
                total_count: 9,
                page_info: PageInfo { end_cursor: String::from("deadbeef 1") },
            },
        },
    };
    assert_eq!(branch.last_commit_cursor().unwrap(), "deadbeef 7");

    let no_cursor = Branch {
        target: Target {
            history: History {
                nodes: Vec::new(),
                total_count: 9,
                page_info: PageInfo { end_cursor: String::new() },
            },
        },
    };
    assert!(matches!(no_cursor.last_commit_cursor(), Err(Error::CursorMissing)));
}

#[test]
fn parse_u64_reads_decimal_digits() {
    assert_eq!(parse_u64("0"), Some(0));
    assert_eq!(parse_u64("123"), Some(123));
    assert_eq!(parse_u64("18446744073709551615"), Some(u64::MAX));
    assert_eq!(parse_u64(""), None);
    assert_eq!(parse_u64("12a"), None);
    assert_eq!(parse_u64("-3"), None);
    assert_eq!(parse_u64("18446744073709551616"), None);
}

#[test]
fn u64_to_string_writes_decimal_digits() {
    assert_eq!(u64_to_string(0), "0");
    assert_eq!(u64_to_string(7), "7");
    assert_eq!(u64_to_string(1234), "1234");
    assert_eq!(u64_to_string(u64::MAX), "18446744073709551615");
}
