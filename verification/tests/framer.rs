use oneshot_reactor::framer::{
    frame_bytes, parse_content_length, Framing, CARRIAGE_RETURN, HEADER_PREFIX, LINE_FEED, MARKER,
    PLUS_SIGN,
};

/// The framer written with the string functions of the standard library.
fn by_std(data: &str) -> Framing {
    if !data.contains("HTTP") {
        return Framing::Absent;
    }
    let line = data
        .lines()
        .find(|l| l.to_lowercase().starts_with("content-length: "));
    match line {
        None => Framing::Absent,
        Some(line) => match line.to_lowercase().strip_prefix("content-length: ") {
            None => Framing::Absent,
            Some(value) => match value.parse::<usize>() {
                Ok(n) => Framing::Length(n),
                Err(_) => Framing::Malformed,
            },
        },
    }
}

#[test]
fn constants_spell_the_texts() {
    assert_eq!(&MARKER, b"HTTP");
    assert_eq!(&HEADER_PREFIX, b"content-length: ");
    assert_eq!(LINE_FEED, b'\n');
    assert_eq!(CARRIAGE_RETURN, b'\r');
    assert_eq!(PLUS_SIGN, b'+');
}

#[test]
fn finds_length_in_plain_request() {
    let text = "POST / HTTP/1.1\r\nhost: x\r\ncontent-length: 42\r\n\r\n";
    assert_eq!(parse_content_length(text), Framing::Length(42));
}

#[test]
fn header_is_matched_in_any_case() {
    assert_eq!(
        parse_content_length("GET / HTTP/1.0\nCONTENT-LENGTH: 7\n"),
        Framing::Length(7)
    );
    assert_eq!(
        parse_content_length("GET / HTTP/1.0\nContent-Length: 0\n\n"),
        Framing::Length(0)
    );
    assert_eq!(
        parse_content_length("GET / HTTP/1.0\ncOnTeNt-LeNgTh: 19\n"),
        Framing::Length(19)
    );
}

#[test]
fn nothing_is_found_without_the_marker() {
    assert_eq!(parse_content_length("content-length: 5\n"), Framing::Absent);
    assert_eq!(parse_content_length("GET / http/1.1\ncontent-length: 5\n"), Framing::Absent);
    assert_eq!(parse_content_length(""), Framing::Absent);
    assert_eq!(parse_content_length("HTT"), Framing::Absent);
}

#[test]
fn marker_may_stand_anywhere() {
    assert_eq!(parse_content_length("content-length: 5\nxxHTTP"), Framing::Length(5));
    assert_eq!(parse_content_length("content-length: 5HTTP"), Framing::Malformed);
    assert_eq!(parse_content_length("HTTP"), Framing::Absent);
}

#[test]
fn nothing_is_found_without_a_header_line() {
    assert_eq!(parse_content_length("GET / HTTP/1.1\r\nhost: x\r\n\r\n"), Framing::Absent);
    // the prefix must begin the line
    assert_eq!(parse_content_length("HTTP\n content-length: 5\n"), Framing::Absent);
    assert_eq!(parse_content_length("HTTP\nx-content-length: 5\n"), Framing::Absent);
    // the colon is followed by exactly one space
    assert_eq!(parse_content_length("HTTP\ncontent-length:5\n"), Framing::Absent);
    // a prefix cut short by the end of the text
    assert_eq!(parse_content_length("HTTP\ncontent-length:"), Framing::Absent);
}

#[test]
fn first_header_line_decides() {
    assert_eq!(
        parse_content_length("HTTP\ncontent-length: 3\ncontent-length: x\n"),
        Framing::Length(3)
    );
    assert_eq!(
        parse_content_length("HTTP\ncontent-length: x\ncontent-length: 3\n"),
        Framing::Malformed
    );
}

#[test]
fn header_on_the_first_line() {
    assert_eq!(parse_content_length("content-length: 8\nHTTP"), Framing::Length(8));
}

#[test]
fn line_endings() {
    // a line feed alone, a carriage return before it, and the end of the text
    assert_eq!(parse_content_length("HTTP\ncontent-length: 5\n"), Framing::Length(5));
    assert_eq!(parse_content_length("HTTP\ncontent-length: 5\r\n"), Framing::Length(5));
    assert_eq!(parse_content_length("HTTP\ncontent-length: 5"), Framing::Length(5));
    // a carriage return that no line feed follows stays in the line
    assert_eq!(parse_content_length("HTTP\ncontent-length: 5\r"), Framing::Malformed);
    // only one carriage return belongs to the line ending
    assert_eq!(parse_content_length("HTTP\ncontent-length: 5\r\r\n"), Framing::Malformed);
}

#[test]
fn values_that_are_numbers() {
    assert_eq!(parse_content_length("HTTP\ncontent-length: 0\n"), Framing::Length(0));
    assert_eq!(parse_content_length("HTTP\ncontent-length: 0005\n"), Framing::Length(5));
    assert_eq!(parse_content_length("HTTP\ncontent-length: +5\n"), Framing::Length(5));
    assert_eq!(parse_content_length("HTTP\ncontent-length: 1024\n"), Framing::Length(1024));
    assert_eq!(
        parse_content_length("HTTP\ncontent-length: 1234567890\n"),
        Framing::Length(1234567890)
    );
}

#[test]
fn values_that_are_no_numbers() {
    for value in ["", "+", "-1", "-0", " 5", "5 ", "5x", "x", "0x10", "1.0", "++1", "5+", "١"] {
        let text = format!("HTTP\ncontent-length: {}\n", value);
        assert_eq!(parse_content_length(&text), Framing::Malformed, "value {:?}", value);
    }
}

#[test]
fn largest_length_fits_and_the_next_does_not() {
    let max = format!("HTTP\ncontent-length: {}\n", usize::MAX);
    assert_eq!(parse_content_length(&max), Framing::Length(usize::MAX));
    let padded = format!("HTTP\ncontent-length: 000000000000000000000000{}\n", usize::MAX);
    assert_eq!(parse_content_length(&padded), Framing::Length(usize::MAX));
    let over = format!("HTTP\ncontent-length: {}\n", usize::MAX as u128 + 1);
    assert_eq!(parse_content_length(&over), Framing::Malformed);
    let far_over = format!("HTTP\ncontent-length: {}0\n", usize::MAX);
    assert_eq!(parse_content_length(&far_over), Framing::Malformed);
    assert_eq!(
        parse_content_length("HTTP\ncontent-length: 99999999999999999999999999999999999999999\n"),
        Framing::Malformed
    );
}

#[test]
fn zero_padding_after_the_request() {
    // a request in a scratch buffer that the read did not fill
    let mut text = String::from("GET / HTTP/1.1\r\ncontent-length: 12\r\n\r\n");
    while text.len() < 1024 {
        text.push('\0');
    }
    assert_eq!(parse_content_length(&text), Framing::Length(12));
    // without a line ending the padding runs into the value
    let mut cut = String::from("GET / HTTP/1.1\r\ncontent-length: 12");
    while cut.len() < 1024 {
        cut.push('\0');
    }
    assert_eq!(parse_content_length(&cut), Framing::Malformed);
}

#[test]
fn text_beyond_ascii() {
    assert_eq!(
        parse_content_length("HTTP \u{00e9}t\u{00e9}\ncontent-length: 5\n"),
        Framing::Length(5)
    );
    // a Kelvin sign is no ASCII letter, whatever its lower case is
    assert_eq!(parse_content_length("HTTP\ncontent-length: 5\u{212a}\n"), Framing::Malformed);
    assert_eq!(parse_content_length("HTTP\n\u{212a}ontent-length: 5\n"), Framing::Absent);
}

#[test]
fn bytes_that_are_no_text_are_not_searched() {
    let text = b"HTTP\ncontent-length: 5\n";
    assert_eq!(frame_bytes(text), Framing::Length(5));
    let mut broken = text.to_vec();
    broken.push(0xff);
    assert_eq!(frame_bytes(&broken), Framing::Absent);
    // a continuation byte without a leading byte, before the header
    let mut early = vec![0x80u8];
    early.extend_from_slice(text);
    assert_eq!(frame_bytes(&early), Framing::Absent);
    // a malformed value is not reported either when the bytes are no text
    assert_eq!(frame_bytes(b"HTTP\ncontent-length: x\n"), Framing::Malformed);
    assert_eq!(frame_bytes(b"HTTP\ncontent-length: x\n\xc3"), Framing::Absent);
    assert_eq!(frame_bytes(b""), Framing::Absent);
}

#[test]
fn agrees_with_the_string_functions_on_chosen_texts() {
    let texts = [
        "",
        "HTTP",
        "HTTP\n",
        "\nHTTP\n\ncontent-length: 1\n",
        "HTTP\r\ncontent-length: 10\r\n",
        "HTTP\ncontent-length: 10\r",
        "HTTP\rcontent-length: 10\n",
        "HTTP\ncontent-length: \n",
        "HTTP\ncontent-length: +\n",
        "HTTP\ncontent-length: +12\r\n",
        "HTTP\nCONTENT-LENGTH: 12\r\nContent-Length: 13\r\n",
        "HTTP\ncontent-length:  12\n",
        "HTTP\ncontent-length: 12\u{0}\n",
        "HTTP\ncontent-length: 18446744073709551616\n",
        "content-length: 3",
        "content-length: 3HTTP",
        "content-length: 3\nHTTP",
        "HTTP\u{212a}\nContent-length: 4\n",
        "HTTP\n\u{0130}content-length: 4\n",
        "HTTP\ncontent-length: 4\u{0130}\n",
        "HTTP\ncontent\u{2010}length: 4\n",
        "HTTP\ncontent-length: \u{ff15}\n",
    ];
    for text in texts {
        assert_eq!(parse_content_length(text), by_std(text), "text {:?}", text);
        assert_eq!(frame_bytes(text.as_bytes()), by_std(text), "text {:?}", text);
    }
}

#[test]
fn agrees_with_the_string_functions_on_generated_texts() {
    // texts over a small alphabet in which headers, markers and line
    // endings come up often
    let pieces = [
        "HTTP", "content-length: ", "Content-Length: ", "CONTENT-LENGTH:", "\n", "\r", "\r\n",
        " ", "0", "7", "12", "+", "-", "x", "\0", "T", "\u{00e9}", "\u{212a}", "length", ":",
        "99999999999", "content-", "H",
    ];
    let mut state: u64 = 0x2545_f491_4f6c_dd1d;
    let mut seen_length = 0;
    let mut seen_malformed = 0;
    let mut seen_absent = 0;
    for _ in 0..20000 {
        let mut text = String::new();
        state = state.wrapping_mul(6364136223846793005).wrapping_add(1442695040888963407);
        let count = (state >> 58) as usize % 9;
        for _ in 0..count {
            state = state.wrapping_mul(6364136223846793005).wrapping_add(1442695040888963407);
            text.push_str(pieces[(state >> 33) as usize % pieces.len()]);
        }
        let expected = by_std(&text);
        match expected {
            Framing::Length(_) => seen_length += 1,
            Framing::Malformed => seen_malformed += 1,
            Framing::Absent => seen_absent += 1,
        }
        assert_eq!(parse_content_length(&text), expected, "text {:?}", text);
    }
    assert!(seen_length > 0 && seen_malformed > 0 && seen_absent > 0);
}
