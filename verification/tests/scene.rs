use reasonix_render::scene::parse_hex;

#[test]
fn hex_colors_parse_in_pairs() {
    assert_eq!(parse_hex("#ff8000"), Some((255, 128, 0)));
    assert_eq!(parse_hex("#FF8000"), Some((255, 128, 0)));
    assert_eq!(parse_hex("#0a0B0c"), Some((10, 11, 12)));
    assert_eq!(parse_hex("ff8000"), None);
    assert_eq!(parse_hex("#fff"), None);
    assert_eq!(parse_hex("#gg0000"), None);
    assert_eq!(parse_hex("#+f0000"), Some((15, 0, 0)));
    assert_eq!(parse_hex("#\u{e9}1234"), None);
}
