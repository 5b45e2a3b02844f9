use agentprof::format::format_tokens;

#[test]
fn format_tokens_display() {
    assert_eq!(format_tokens(0), "0");
    assert_eq!(format_tokens(500), "500");
    assert_eq!(format_tokens(999), "999");
    assert_eq!(format_tokens(1000), "1.0K");
    assert_eq!(format_tokens(1500), "1.5K");
    assert_eq!(format_tokens(999_999), "1000.0K");
    assert_eq!(format_tokens(1_000_000), "1.0M");
    assert_eq!(format_tokens(2_500_000), "2.5M");
}

fn float_text(tokens: usize) -> String {
    if tokens < 1000 {
        format!("{}", tokens)
    } else if tokens < 1_000_000 {
        format!("{:.1}K", tokens as f64 / 1000.0)
    } else {
        format!("{:.1}M", tokens as f64 / 1_000_000.0)
    }
}

#[test]
fn format_tokens_matches_float_formatting_on_ties() {
    // Exact decimal ties and near-ties in both ranges.
    for t in [1050, 1150, 1250, 1350, 1750, 2250, 9950, 99_950, 999_950, 1_050_000, 1_250_000, 1_750_000, 3_350_000] {
        assert_eq!(format_tokens(t), float_text(t), "tokens = {}", t);
    }
}

#[test]
fn format_tokens_matches_float_formatting_everywhere() {
    let mut t: usize = 0;
    while t < 2_000_000 {
        assert_eq!(format_tokens(t), float_text(t), "tokens = {}", t);
        t += 7;
    }
    for t in [
        (1usize << 53) - 1,
        1usize << 53,
        (1usize << 53) + 1,
        (1usize << 53) + 3,
        (1usize << 60) + 12345,
        usize::MAX - 1,
        usize::MAX,
        123_456_789_012_345_678,
        999_999_999_999,
    ] {
        assert_eq!(format_tokens(t), float_text(t), "tokens = {}", t);
    }
}
