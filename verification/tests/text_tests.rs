use raft::text::{decimal_string, split_whitespace, white_space};

#[test]
fn decimal_writes_numbers() {
    assert_eq!(decimal_string(0), "0");
    assert_eq!(decimal_string(7), "7");
    assert_eq!(decimal_string(10), "10");
    assert_eq!(decimal_string(4096), "4096");
    assert_eq!(decimal_string(u64::MAX), "18446744073709551615");
}

#[test]
fn split_matches_std_split_whitespace() {
    let samples = [
        "",
        "   ",
        "SET key1 value1",
        "  lead and trail  ",
        "a\tb\nc\rd\u{0b}e\u{0c}f",
        "x\u{85}y\u{a0}z\u{1680}w\u{2000}v\u{200a}u\u{2028}t\u{2029}s\u{202f}r\u{205f}q\u{3000}p",
        "no\u{200b}split",
        "héllo wörld",
    ];
    for s in samples.iter() {
        let ours = split_whitespace(s);
        let theirs: Vec<String> = s.split_whitespace().map(|w| w.to_string()).collect();
        assert_eq!(ours, theirs);
    }
}

#[test]
fn white_space_matches_std() {
    for code in 0u32..0x3100 {
        if let Some(c) = char::from_u32(code) {
            assert_eq!(white_space(c), c.is_whitespace());
        }
    }
}
