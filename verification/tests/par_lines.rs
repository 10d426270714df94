use perlrs::par_lines::{line_aligned_chunks, line_to_perl_string};

#[test]
fn line_aligned_chunks_splits_without_breaking_lines() {
    let data = b"a\nbb\nccc\n";
    let chunks = line_aligned_chunks(data, 4);
    let rebuilt: Vec<u8> = chunks
        .iter()
        .flat_map(|(s, e)| data[*s..*e].iter().copied())
        .collect();
    assert_eq!(rebuilt, data);
    for (s, _e) in &chunks {
        if *s > 0 {
            assert_eq!(data[*s - 1], b'\n');
        }
    }
}

#[test]
fn line_aligned_chunks_exact_ranges() {
    // len 9, k 4: even cuts 0,2,4,6,9 -> line starts 0,2,5,9,9
    let data = b"a\nbb\nccc\n";
    assert_eq!(line_aligned_chunks(data, 4), vec![(0, 2), (2, 5), (5, 9)]);
    assert_eq!(line_aligned_chunks(data, 1), vec![(0, 9)]);
    assert_eq!(line_aligned_chunks(data, 0), vec![(0, 9)]);
}

#[test]
fn line_aligned_chunks_empty_data_gives_no_ranges() {
    assert_eq!(line_aligned_chunks(b"", 8), Vec::<(usize, usize)>::new());
}

#[test]
fn line_aligned_chunks_single_long_line_is_one_range() {
    let data = b"abcdefgh";
    assert_eq!(line_aligned_chunks(data, 4), vec![(0, 8)]);
}

#[test]
fn line_aligned_chunks_caps_at_one_per_byte() {
    let data = b"\n\n\n";
    assert_eq!(line_aligned_chunks(data, 100), vec![(0, 1), (1, 2), (2, 3)]);
}

#[test]
fn line_to_perl_string_strips_one_carriage_return() {
    assert_eq!(line_to_perl_string(b"hello\r"), "hello");
    assert_eq!(line_to_perl_string(b"hello\r\r"), "hello\r");
    assert_eq!(line_to_perl_string(b"plain"), "plain");
    assert_eq!(line_to_perl_string(b""), "");
}

#[test]
fn line_to_perl_string_replaces_invalid_utf8() {
    assert_eq!(line_to_perl_string(b"a\xffb\r"), "a\u{FFFD}b");
    assert_eq!(line_to_perl_string("caf\u{e9}".as_bytes()), "caf\u{e9}");
}

#[test]
fn scan_lines_in_slice_three_lines() {
    let data = b"one\ntwo\nthree";
    let mut lines = Vec::new();
    let mut s = 0usize;
    while s < data.len() {
        let e = data[s..]
            .iter()
            .position(|&b| b == b'\n')
            .map(|p| s + p)
            .unwrap_or(data.len());
        lines.push(&data[s..e]);
        if e >= data.len() {
            break;
        }
        s = e + 1;
    }
    assert_eq!(lines, vec![&b"one"[..], &b"two"[..], &b"three"[..]]);
}
