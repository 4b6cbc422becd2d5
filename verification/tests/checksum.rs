use interstack::input::line_checksum;

fn checksum(s: &str) -> u8 {
    let chars: Vec<char> = s.chars().collect();
    line_checksum(&chars)
}

#[test]
fn empty_line_sums_to_zero() {
    assert_eq!(checksum(""), 0);
}

#[test]
fn ascii_bytes_are_summed() {
    assert_eq!(checksum("AB"), 131);
}

#[test]
fn carriage_return_and_line_feed_are_excluded() {
    assert_eq!(checksum("AB\r\n"), 131);
    assert_eq!(checksum("\r\n"), 0);
}

#[test]
fn sum_wraps_modulo_256() {
    // 100 bytes of 'd' (100 each): 10000 mod 256 = 16
    let line: String = "d".repeat(100);
    assert_eq!(checksum(&line), 16);
}

#[test]
fn only_the_low_byte_of_a_code_point_counts() {
    assert_eq!(checksum("\u{0100}"), 0);
    assert_eq!(checksum("\u{00FF}"), 255);
}
