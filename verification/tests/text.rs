use overlay_contrast::colour::Rgb;
use overlay_contrast::data_uri::get_data_from_data_uri;
use overlay_contrast::hex::{get_rgb_from_hex, hex_to_decimal};

#[test]
fn test_get_data_from_data_uri() {
    let data_uri="data:image/png;base64,iVBORw0KGgoAAAANSUhEUgAAAAUAAAAFCAYAAACNbyblAAAAHElEQVQI12P4//8/w38GIAXDIBKE0DHxgljNBAAO9TXL0Y4OHwAAAABJRU5ErkJggg==";
    let data="iVBORw0KGgoAAAANSUhEUgAAAAUAAAAFCAYAAACNbyblAAAAHElEQVQI12P4//8/w38GIAXDIBKE0DHxgljNBAAO9TXL0Y4OHwAAAABJRU5ErkJggg==";
    assert_eq!(get_data_from_data_uri(data_uri), data);
    assert_eq!(get_data_from_data_uri(data), data);
}

#[test]
fn test_get_rgb_from_hex() {
    let hex_colour = String::from("#000000");
    assert_eq!(get_rgb_from_hex(&hex_colour).get_red(), 0);
    assert_eq!(get_rgb_from_hex(&hex_colour).get_green(), 0);
    assert_eq!(get_rgb_from_hex(&hex_colour).get_blue(), 0);

    let hex_colour = String::from("#000");
    assert_eq!(get_rgb_from_hex(&hex_colour).get_red(), 0);
    assert_eq!(get_rgb_from_hex(&hex_colour).get_green(), 0);
    assert_eq!(get_rgb_from_hex(&hex_colour).get_blue(), 0);

    let hex_colour = String::from("#ff8000");
    assert_eq!(get_rgb_from_hex(&hex_colour).get_red(), 255);
    assert_eq!(get_rgb_from_hex(&hex_colour).get_green(), 128);
    assert_eq!(get_rgb_from_hex(&hex_colour).get_blue(), 0);
}

#[test]
fn data_uri_short_payload() {
    assert_eq!(get_data_from_data_uri("data:image/png;base64,AAAA"), "AAAA");
    assert_eq!(get_data_from_data_uri("AAAA"), "AAAA");
}

#[test]
fn data_uri_keeps_all_after_first_comma() {
    assert_eq!(get_data_from_data_uri("a,b,c"), "b,c");
    assert_eq!(get_data_from_data_uri(",,"), ",");
}

#[test]
fn data_uri_edges() {
    assert_eq!(get_data_from_data_uri(""), "");
    assert_eq!(get_data_from_data_uri(","), "");
    assert_eq!(get_data_from_data_uri("abc,"), "");
    assert_eq!(get_data_from_data_uri(",abc"), "abc");
}

#[test]
fn data_uri_counts_characters_not_bytes() {
    assert_eq!(get_data_from_data_uri("é/ü;x,päy"), "päy");
    assert_eq!(get_data_from_data_uri("日本語"), "日本語");
}

#[test]
fn data_uri_splits_into_head_comma_payload() {
    let uri = "data:text/plain;charset=utf-8,hello, world";
    let payload = get_data_from_data_uri(uri);
    let head = &uri[..uri.len() - payload.len() - 1];
    assert!(!head.contains(','));
    assert_eq!(format!("{},{}", head, payload), uri);
}

#[test]
fn hex_to_decimal_values() {
    assert_eq!(hex_to_decimal("00"), 0);
    assert_eq!(hex_to_decimal("0a"), 10);
    assert_eq!(hex_to_decimal("80"), 128);
    assert_eq!(hex_to_decimal("ff"), 255);
    assert_eq!(hex_to_decimal("FF"), 255);
    assert_eq!(hex_to_decimal("aB"), 171);
    assert_eq!(hex_to_decimal("7"), 7);
    assert_eq!(hex_to_decimal("000ff"), 255);
}

#[test]
fn hex_to_decimal_gives_zero_for_what_is_no_octet() {
    assert_eq!(hex_to_decimal(""), 0);
    assert_eq!(hex_to_decimal("g0"), 0);
    assert_eq!(hex_to_decimal("0g"), 0);
    assert_eq!(hex_to_decimal(" f"), 0);
    assert_eq!(hex_to_decimal("f "), 0);
    assert_eq!(hex_to_decimal("0x"), 0);
    assert_eq!(hex_to_decimal("-1"), 0);
    assert_eq!(hex_to_decimal("1_"), 0);
    assert_eq!(hex_to_decimal("é"), 0);
    assert_eq!(hex_to_decimal("100"), 0);
    assert_eq!(hex_to_decimal("fff"), 0);
    assert_eq!(hex_to_decimal("ffffffffffffffffffffffff"), 0);
}

#[test]
fn hex_to_decimal_takes_one_leading_plus() {
    assert_eq!(hex_to_decimal("+f"), 15);
    assert_eq!(hex_to_decimal("+ff"), 255);
    assert_eq!(hex_to_decimal("+"), 0);
    assert_eq!(hex_to_decimal("++"), 0);
    assert_eq!(hex_to_decimal("++1"), 0);
    assert_eq!(hex_to_decimal("f+"), 0);
}

#[test]
fn hex_to_decimal_reads_as_the_standard_parser_does() {
    let alphabet = [
        '0', '1', '9', 'a', 'c', 'f', 'g', 'A', 'F', 'G', '+', '-', ' ', '_', 'x', '/', ':', '@',
        '`', 'é',
    ];
    let mut texts: Vec<String> = vec![String::new()];
    let mut last: Vec<String> = vec![String::new()];
    for _ in 0..3 {
        let mut next: Vec<String> = Vec::new();
        for text in &last {
            for c in alphabet {
                let mut longer = text.clone();
                longer.push(c);
                next.push(longer);
            }
        }
        texts.extend(next.iter().cloned());
        last = next;
    }
    assert_eq!(texts.len(), 1 + 20 + 400 + 8000);
    for text in &texts {
        let expected = u8::from_str_radix(text, 16).unwrap_or(0);
        assert_eq!(hex_to_decimal(text), expected, "{:?}", text);
    }
}

#[test]
fn hex_to_decimal_every_pair_of_digits() {
    let digits = "0123456789abcdef";
    for (h, high) in digits.chars().enumerate() {
        for (l, low) in digits.chars().enumerate() {
            let text = format!("{}{}", high, low);
            assert_eq!(usize::from(hex_to_decimal(&text)), 16 * h + l);
            assert_eq!(usize::from(hex_to_decimal(&text.to_uppercase())), 16 * h + l);
        }
    }
}

#[test]
fn rgb_from_long_hex() {
    assert_eq!(get_rgb_from_hex("#ffffff"), Rgb::new(255, 255, 255));
    assert_eq!(get_rgb_from_hex("#FFA500"), Rgb::new(255, 165, 0));
    assert_eq!(get_rgb_from_hex("#777777"), Rgb::new(119, 119, 119));
    assert_eq!(get_rgb_from_hex("#0000ff"), Rgb::new(0, 0, 255));
    assert_eq!(get_rgb_from_hex("#123456"), Rgb::new(0x12, 0x34, 0x56));
}

#[test]
fn rgb_from_short_hex_doubles_each_digit() {
    assert_eq!(get_rgb_from_hex("#fff"), Rgb::new(255, 255, 255));
    assert_eq!(get_rgb_from_hex("#abc"), Rgb::new(0xaa, 0xbb, 0xcc));
    assert_eq!(get_rgb_from_hex("#abc"), get_rgb_from_hex("#aabbcc"));
    assert_eq!(get_rgb_from_hex("#f80"), Rgb::new(255, 136, 0));
    assert_eq!(get_rgb_from_hex("#109"), Rgb::new(17, 0, 153));
}

#[test]
fn rgb_from_hex_takes_malformed_digits_for_zero() {
    assert_eq!(get_rgb_from_hex("#gg8000"), Rgb::new(0, 128, 0));
    assert_eq!(get_rgb_from_hex("#ff80zz"), Rgb::new(255, 128, 0));
    assert_eq!(get_rgb_from_hex("#f 80 0"), Rgb::new(0, 128, 0));
    assert_eq!(get_rgb_from_hex("# f8 0 "), Rgb::new(0, 0, 0));
    assert_eq!(get_rgb_from_hex("#xyz"), Rgb::new(0, 0, 0));
    assert_eq!(get_rgb_from_hex("#fxf"), Rgb::new(255, 0, 255));
    assert_eq!(get_rgb_from_hex("#+f0"), Rgb::new(0, 255, 0));
    assert_eq!(get_rgb_from_hex("#+f0000"), Rgb::new(15, 0, 0));
    assert_eq!(get_rgb_from_hex("#éé0000"), Rgb::new(0, 0, 0));
}

#[test]
fn rgb_from_hex_skips_the_first_character() {
    assert_eq!(get_rgb_from_hex("xff8000"), Rgb::new(255, 128, 0));
    assert_eq!(get_rgb_from_hex("0f80"), Rgb::new(255, 136, 0));
}

#[test]
fn rgb_accessors() {
    let colour = Rgb::new(1, 2, 3);
    assert_eq!(colour.get_red(), 1);
    assert_eq!(colour.get_green(), 2);
    assert_eq!(colour.get_blue(), 3);
    assert_eq!(colour, Rgb { r: 1, g: 2, b: 3 });
    assert_ne!(colour, Rgb::new(3, 2, 1));
}
