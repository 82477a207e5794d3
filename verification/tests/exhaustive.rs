use request_parser::{
    parse_authority, parse_headers, parse_host, parse_ipv4, parse_request, parse_uri, Host,
};

/// Calls `visit` with every text of at most `length` characters of `alphabet`.
fn every_text(alphabet: &[char], length: usize, visit: &mut dyn FnMut(&str)) {
    let mut indices: Vec<usize> = Vec::new();
    let mut text = String::new();
    loop {
        text.clear();
        for i in &indices {
            text.push(alphabet[*i]);
        }
        visit(&text);
        let mut at = indices.len();
        loop {
            if at == 0 {
                if indices.len() == length {
                    return;
                }
                indices.push(0);
                for i in indices.iter_mut() {
                    *i = 0;
                }
                break;
            }
            at -= 1;
            if indices[at] + 1 < alphabet.len() {
                indices[at] += 1;
                for i in indices[at + 1..].iter_mut() {
                    *i = 0;
                }
                break;
            }
        }
    }
}

#[test]
fn every_text_is_visited_once() {
    let mut seen: Vec<String> = Vec::new();
    every_text(&['a', 'b'], 2, &mut |text| seen.push(text.to_string()));
    assert_eq!(seen, vec!["", "a", "b", "aa", "ab", "ba", "bb"]);
}

#[test]
fn hosts_take_a_prefix_and_leave_the_rest() {
    let alphabet = ['a', 'Z', '1', '9', '.', '-', ':', '\u{e9}'];
    let mut count = 0;
    every_text(&alphabet, 5, &mut |input| {
        count += 1;
        let first = input.chars().next();
        let begins_with_label =
            matches!(first, Some(c) if c.is_ascii_alphanumeric() || c == '-');
        match parse_host(input) {
            Ok((host, rest)) => {
                assert!(begins_with_label, "{:?}", input);
                assert!(input.ends_with(rest), "{:?}", input);
                let taken = &input[..input.len() - rest.len()];
                assert!(!taken.is_empty());
                match (&host, parse_ipv4(input)) {
                    (Host::IPv4(octets), Ok((address, behind))) => {
                        assert_eq!(*octets, address);
                        assert_eq!(rest, behind);
                    }
                    (Host::Named(name), Err(_)) => assert_eq!(name, taken),
                    _ => panic!("{:?} was read as {:?}", input, host),
                }
            }
            Err(e) => {
                assert!(!begins_with_label, "{:?}", input);
                assert_eq!(e.offset, 0);
            }
        }
    });
    assert_eq!(count, 1 + 8 + 64 + 512 + 4096 + 32768);
}

#[test]
fn addresses_are_read_back_from_their_text() {
    for a in 0..=255u8 {
        for d in [0u8, 5, 10, 99, 100, 255] {
            let octets = [a, d, a.wrapping_mul(7), 255 - a];
            let text = request_parser::format_ipv4(octets);
            assert_eq!(parse_ipv4(&text), Ok((octets, "")));
            assert_eq!(parse_host(&text), Ok((Host::IPv4(octets), "")));
        }
    }
}

#[test]
fn credentials_never_fail() {
    let alphabet = ['u', '7', ':', '@', '.', ' '];
    every_text(&alphabet, 6, &mut |input| {
        let (authority, rest) = parse_authority(input).unwrap();
        assert!(input.ends_with(rest));
        match authority {
            Some(found) => {
                let written = match &found.password {
                    Some(password) => format!("{}:{}@", found.username, password),
                    None => format!("{}@", found.username),
                };
                let taken = &input[..input.len() - rest.len()];
                assert!(taken == written || taken == format!("{}:@", found.username));
                assert!(found.is_valid());
            }
            None => assert_eq!(rest, input),
        }
    });
}

#[test]
fn header_blocks_never_fail() {
    let alphabet = ['N', '-', ':', ' ', 'v', '\r', '\n'];
    every_text(&alphabet, 6, &mut |input| {
        let (headers, rest) = parse_headers(input).unwrap();
        assert!(input.ends_with(rest));
        let taken = &input[..input.len() - rest.len()];
        assert_eq!(taken.matches('\n').count(), headers.len());
        assert!(taken.is_empty() || taken.ends_with('\n'));
        for (name, value) in &headers {
            assert!(!name.is_empty());
            assert!(!value.contains('\n'));
            assert!(!value.starts_with(' '));
        }
    });
}

#[test]
fn targets_before_a_space_are_read_back_from_their_text() {
    let alphabet = ['a', '1', '.', ':', '/', '?', '#', '=', '&', '@', '*'];
    let mut read = 0;
    for start in ["", "/", "http://", "HTTPS://a", "http://1.2.3.", "http://u:p@"] {
        every_text(&alphabet, 4, &mut |middle| {
            let input = format!("{}{} ", start, middle);
            if let Ok((uri, rest)) = parse_uri(&input) {
                assert!(input.ends_with(rest));
                if rest == " " {
                    read += 1;
                    assert!(uri.is_valid(), "{:?}", input);
                    let text = format!("{} ", uri.to_text());
                    assert_eq!(parse_uri(&text), Ok((uri, " ")), "{:?}", input);
                }
            }
        });
    }
    assert!(read > 10000);
}

#[test]
fn requests_are_read_back_from_their_text() {
    let alphabet = ['a', ':', ' ', '\r', '\n', '/', '?'];
    let mut read = 0;
    for start in ["GET / HTTP/1.1\n", "put http://h:80 HTTP/1.0\r\nA: b\r\n"] {
        every_text(&alphabet, 5, &mut |end| {
            let input = format!("{}{}", start, end);
            if let Ok((request, rest)) = parse_request(&input) {
                read += 1;
                assert!(input.ends_with(rest));
                assert!(request.is_valid(), "{:?}", input);
                assert_eq!(parse_request(&request.to_text()), Ok((request, "")), "{:?}", input);
            }
        });
    }
    assert!(read > 1000);
}
