use flate2::write::GzEncoder;
use flate2::Compression;
use rep_notary::http::{decode_http_response, dechunk, has_header, parse_hex_size};
use std::io::Write;

fn gzip(plain: &[u8]) -> Vec<u8> {
    let mut encoder = GzEncoder::new(Vec::new(), Compression::default());
    encoder.write_all(plain).unwrap();
    encoder.finish().unwrap()
}

fn chunked(parts: &[&[u8]]) -> Vec<u8> {
    let mut body = Vec::new();
    for part in parts {
        body.extend_from_slice(format!("{:x}\r\n", part.len()).as_bytes());
        body.extend_from_slice(part);
        body.extend_from_slice(b"\r\n");
    }
    body.extend_from_slice(b"0\r\n\r\n");
    body
}

fn response(headers: &str, body: &[u8]) -> Vec<u8> {
    let mut raw = headers.as_bytes().to_vec();
    raw.extend_from_slice(b"\r\n\r\n");
    raw.extend_from_slice(body);
    raw
}

#[test]
fn a_plain_response_passes_unchanged() {
    let raw = response("HTTP/1.1 200 OK\r\nContent-Type: text/plain", b"hello\r\n\r\nworld");
    assert_eq!(decode_http_response(&raw), String::from_utf8(raw.clone()).unwrap());
}

#[test]
fn a_response_without_a_body_is_shown_raw() {
    assert_eq!(decode_http_response(b"HTTP/1.1 200 OK\r\n"), "HTTP/1.1 200 OK\r\n");
    assert_eq!(decode_http_response(b""), "");
}

#[test]
fn malformed_text_is_shown_with_replacement_characters() {
    let raw = b"a\xff\xfe b";
    assert_eq!(decode_http_response(raw), String::from_utf8_lossy(raw));
    let raw = response("HTTP/1.1 200 OK", b"x\xffy");
    assert_eq!(decode_http_response(&raw), "HTTP/1.1 200 OK\r\n\r\nx\u{fffd}y");
}

#[test]
fn chunks_are_put_together() {
    let raw = response(
        "HTTP/1.1 200 OK\r\nTRANSFER-Encoding: Chunked",
        &chunked(&[b"hello ", b"wide world, with more than sixteen bytes"]),
    );
    assert_eq!(
        decode_http_response(&raw),
        "HTTP/1.1 200 OK\r\nTRANSFER-Encoding: Chunked\r\n\r\nhello wide world, with more than sixteen bytes"
    );
}

#[test]
fn chunk_extensions_and_trailers_are_ignored() {
    assert_eq!(
        dechunk(b" 5 ; name=value\r\nabcde\r\n0;x\r\nTrailer: y\r\n\r\n"),
        Some(b"abcde".to_vec())
    );
    assert_eq!(dechunk(b"0\r\n"), Some(vec![]));
}

#[test]
fn a_compressed_body_is_read() {
    let raw = response("HTTP/1.1 200 OK\r\nContent-Encoding: gzip", &gzip(b"{\"id\":1}"));
    assert_eq!(
        decode_http_response(&raw),
        "HTTP/1.1 200 OK\r\nContent-Encoding: gzip\r\n\r\n{\"id\":1}"
    );
}

#[test]
fn a_compressed_body_in_chunks_is_read() {
    let packed = gzip(b"one two three");
    let (a, b) = packed.split_at(7);
    let headers = "HTTP/1.1 200 OK\r\ncontent-encoding: gzip\r\ntransfer-encoding: chunked";
    let raw = response(headers, &chunked(&[a, b]));
    assert_eq!(decode_http_response(&raw), format!("{headers}\r\n\r\none two three"));
}

#[test]
fn a_damaged_compressed_body_is_shown_raw() {
    let mut packed = gzip(b"one two three");
    packed.truncate(12);
    let raw = response("HTTP/1.1 200 OK\r\nContent-Encoding: gzip", &packed);
    assert_eq!(decode_http_response(&raw), String::from_utf8_lossy(&raw));
}

#[test]
fn malformed_chunks_are_shown_raw() {
    for body in [
        &b"5\r\nabc"[..],
        b"zz\r\nabc\r\n0\r\n\r\n",
        b"3\r\nabc\r\n",
        b"3 abc",
        b"ffffffffffffffff\r\nabc\r\n0\r\n\r\n",
        b"fffffffffffffffff\r\nabc\r\n0\r\n\r\n",
        b"\r\n",
        b"3\r\nhelXY0\r\n\r\n",
        b"3\r\nhel\r00\r\n\r\n",
    ] {
        assert_eq!(dechunk(body), None);
        let raw = response("HTTP/1.1 200 OK\r\nTransfer-Encoding: chunked", body);
        assert_eq!(decode_http_response(&raw), String::from_utf8_lossy(&raw));
    }
}

#[test]
fn headers_are_read_line_by_line() {
    let headers: Vec<char> = "a: 1\r\nx-b: gzip\nc: d\r".chars().collect();
    assert!(has_header(&headers, "a:", "1"));
    assert!(has_header(&headers, "x-b:", "gzip"));
    assert!(!has_header(&headers, "b:", "gzip"));
    assert!(!has_header(&headers, "a:", "gzip"));
    assert!(has_header(&headers, "c:", "\r"));
    assert!(!has_header(&headers, "a:", "\r"));
}

#[test]
fn sizes_are_read_as_the_standard_library_reads_them() {
    for s in ["", "+", "0", "1f", "+1F", "-1", "++1", "g", "ffffffffffffffff", "10000000000000000"] {
        let chars: Vec<char> = s.chars().collect();
        assert_eq!(parse_hex_size(&chars), usize::from_str_radix(s, 16).ok(), "{s}");
    }
}
