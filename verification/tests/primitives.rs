use mimicwx::bytes;
use mimicwx::number;
use mimicwx::text;

#[test]
fn white_space_is_that_of_unicode() {
    for u in 0..=0x10ffffu32 {
        if let Some(c) = char::from_u32(u) {
            assert_eq!(text::is_white_space(c), c.is_whitespace(), "{:x}", u);
        }
    }
}

#[test]
fn trimming_matches_std() {
    for s in ["", " ", "a", "  a b\t\n", "\u{3000}群聊\u{a0}", "\u{200b}x\u{200b}", "\u{85}\u{1680}q"] {
        assert_eq!(text::trimmed(s), s.trim());
    }
}

#[test]
fn searching_matches_std() {
    let cases = [("abcabc", "ca"), ("aaaa", "aa"), ("群聊@chatroom", "@chatroom"), ("", "x"), ("x", ""), ("héllo", "é")];
    for (s, p) in cases {
        assert_eq!(text::contains(s, p), s.contains(p));
        assert_eq!(text::starts_with(s, p), s.starts_with(p));
        assert_eq!(text::ends_with(s, p), s.ends_with(p));
        assert_eq!(text::strip_prefix(s, p), s.strip_prefix(p).map(String::from));
        assert_eq!(text::strip_suffix(s, p), s.strip_suffix(p).map(String::from));
        assert_eq!(text::find(s, p), s.find(p).map(|b| s[..b].chars().count()));
    }
}

#[test]
fn splitting_matches_std() {
    for s in ["", "a", "a,b", ",", "a,,b,", "甲,乙"] {
        let want: Vec<String> = s.split(',').map(String::from).collect();
        assert_eq!(text::split_on(s, ','), want);
        assert_eq!(
            text::split_once_on(s, ','),
            s.split_once(',').map(|(a, b)| (a.to_string(), b.to_string()))
        );
    }
    for s in ["", "a", "a\n", "a\nb", "a\r\nb\r\n", "\n\n", "a\r", "x\n\ny"] {
        let want: Vec<String> = s.lines().map(String::from).collect();
        let all: Vec<char> = s.chars().collect();
        let mut got: Vec<String> = Vec::new();
        let mut at = 0;
        while at < all.len() {
            let (end, next) = text::line_at(&all, at);
            got.push(all[at..end].iter().collect());
            at = next;
        }
        assert_eq!(got, want);
    }
}

#[test]
fn joining_matches_std() {
    let parts = vec!["a".to_string(), "".to_string(), "乙".to_string()];
    assert_eq!(text::join_with(&parts, ", "), parts.join(", "));
    assert_eq!(text::join_with(&Vec::new(), ","), "");
}

#[test]
fn ascii_case_is_ignored() {
    for (a, b) in [("local_id", "LOCAL_ID"), ("localId", "localid"), ("x", "y"), ("é", "É"), ("ab", "a")] {
        assert_eq!(text::eq_ignore_case(a, b), a.eq_ignore_ascii_case(b));
    }
}

#[test]
fn numbers_are_written_like_std() {
    for n in [0u64, 7, 10, 1999, u64::MAX] {
        assert_eq!(number::decimal(n), n.to_string());
    }
    for n in [0i64, -1, i64::MIN, i64::MAX, 42] {
        assert_eq!(number::signed_decimal(n), n.to_string());
    }
    assert_eq!(number::hex_padded(0xbeef, 4), "beef");
    assert_eq!(number::hex_padded(0xf, 4), "000f");
    assert_eq!(number::hex_padded(u64::MAX, 16), "ffffffffffffffff");
    assert_eq!(number::hex_string(&vec![0, 0xab, 0x0c]), "00ab0c");
}

#[test]
fn numbers_are_read_like_std() {
    for s in ["", "0", "+5", "-5", "007", "4294967295", "4294967296", " 1", "1x", "+", "-", "٣"] {
        assert_eq!(number::parse_u32(s), s.parse::<u32>().ok(), "{}", s);
        assert_eq!(number::parse_i32(s), s.parse::<i32>().ok(), "{}", s);
        assert_eq!(number::parse_i64(s), s.parse::<i64>().ok(), "{}", s);
    }
    for s in ["-9223372036854775808", "9223372036854775807", "9223372036854775808", "-2147483648", "2147483648"] {
        assert_eq!(number::parse_i64(s), s.parse::<i64>().ok());
        assert_eq!(number::parse_i32(s), s.parse::<i32>().ok());
    }
}

#[test]
fn decimal_reads_back() {
    for n in [0u64, 1, 42, 1000] {
        assert_eq!(number::parse_u32(&number::decimal(n)), Some(n as u32));
    }
}

#[test]
fn cutting_keeps_whole_characters() {
    assert_eq!(bytes::clipped("hello", 5), "hello");
    assert_eq!(bytes::clipped("hello!", 5), "hello...");
    assert_eq!(bytes::clipped("微信消息", 7), "微信...");
    assert_eq!(bytes::clipped("微信", 2), "...");
    assert_eq!(bytes::clipped("", 0), "");
    assert_eq!(bytes::len_bytes("a微é😀"), 1 + 3 + 2 + 4);
}
