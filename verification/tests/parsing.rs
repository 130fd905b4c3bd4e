use std::str::FromStr;

use http::header::{HeaderMap, HeaderName, HeaderValue};
use mime_multipart::{read_multipart, read_multipart_body, ErrorKind, Node};

fn request_headers(input: &[u8]) -> (HeaderMap, usize) {
    let mut raw_headers = [httparse::EMPTY_HEADER; 16];
    let mut req = httparse::Request::new(&mut raw_headers);
    let res = req.parse(input).unwrap();
    let body_start = res.unwrap();

    let mut headers = HeaderMap::new();
    for header in raw_headers {
        if header.value.is_empty() {
            break;
        }
        let trim = header
            .value
            .iter()
            .rev()
            .take_while(|&&x| x == b' ')
            .count();
        let value = &header.value[..header.value.len() - trim];

        let header_value = match HeaderValue::from_bytes(value) {
            Ok(value) => value,
            Err(_) => panic!("Issue converting headers"),
        };

        let header_name = header.name.to_owned();
        let header_name = match HeaderName::from_str(&header_name) {
            Ok(value) => value,
            Err(_) => panic!("Issue converting headers"),
        };
        headers.append(header_name, header_value);
    }
    (headers, body_start)
}

fn get_content_disposition_name(cd: &HeaderValue) -> Option<String> {
    match cd.to_str() {
        Ok(value) => match value.contains("name") {
            true => match value.find("name=") {
                Some(index) => {
                    let start = index + "name=".len();
                    Some(value.get(start..).unwrap().trim_matches('\"').to_owned())
                }
                None => match value.find("name*=UTF-8''") {
                    Some(index) => {
                        let start = index + "name*=UTF-8''".len();
                        Some(value.get(start..).unwrap().trim_matches('\"').to_owned())
                    }
                    None => None,
                },
            },
            false => None,
        },
        Err(_) => None,
    }
}

#[test]
fn parser() {
    let input = b"POST / HTTP/1.1\r\n\
                  Host: example.domain\r\n\
                  Content-Type: multipart/mixed; boundary=\"abcdefg\"\r\n\
                  Content-Length: 1000\r\n\
                  \r\n\
                  --abcdefg\r\n\
                  Content-Type: application/json\r\n\
                  \r\n\
                  {\r\n\
                    \"id\": 15\r\n\
                  }\r\n\
                  --abcdefg\r\n\
                  Content-Disposition: Attachment; filename=\"image.gif\"\r\n\
                  Content-Type: image/gif\r\n\
                  \r\n\
                  This is a file\r\n\
                  with two lines\r\n\
                  --abcdefg\r\n\
                  Content-Disposition: Attachment; filename=\"file.txt\"\r\n\
                  \r\n\
                  This is a file\r\n\
                  --abcdefg--";

    let (headers, body_start) = request_headers(input);
    let body = input[body_start..].to_vec();

    match read_multipart_body(&mut &*body, &headers, false) {
        Ok(nodes) => {
            assert_eq!(nodes.len(), 3);

            if let Node::Part(ref part) = nodes[0] {
                assert_eq!(
                    part.body,
                    b"{\r\n\
                                          \"id\": 15\r\n\
                                        }"
                );
            } else {
                panic!("1st node of wrong type");
            }

            if let Node::File(ref filepart) = nodes[1] {
                assert_eq!(filepart.size, Some(30));
                assert_eq!(filepart.filename().unwrap().unwrap(), "image.gif");
                assert_eq!(filepart.content_type().unwrap(), mime::IMAGE_GIF);

                assert_eq!(filepart.contents, b"This is a file\r\nwith two lines");
                assert!(filepart.path.is_empty());
                assert!(!filepart.owns_storage());
            } else {
                panic!("2nd node of wrong type");
            }

            if let Node::File(ref filepart) = nodes[2] {
                assert_eq!(filepart.size, Some(14));
                assert_eq!(filepart.filename().unwrap().unwrap(), "file.txt");
                assert!(filepart.content_type().is_none());

                assert_eq!(filepart.contents, b"This is a file");
                assert!(filepart.path.is_empty());
                assert!(!filepart.owns_storage());
            } else {
                panic!("3rd node of wrong type");
            }
        }
        Err(err) => panic!("{:?}", err.kind()),
    }
}

#[test]
fn mixed_parser() {
    let input = b"POST / HTTP/1.1\r\n\
                  Host: example.domain\r\n\
                  Content-Type: multipart/form-data; boundary=AaB03x\r\n\
                  Content-Length: 1000\r\n\
                  \r\n\
                  --AaB03x\r\n\
                  Content-Disposition: form-data; name=\"submit-name\"\r\n\
                  \r\n\
                  Larry\r\n\
                  --AaB03x\r\n\
                  Content-Disposition: form-data; name=\"files\"\r\n\
                  Content-Type: multipart/mixed; boundary=BbC04y\r\n\
                  \r\n\
                  --BbC04y\r\n\
                  Content-Disposition: file; filename=\"file1.txt\"\r\n\
                  \r\n\
                  ... contents of file1.txt ...\r\n\
                  --BbC04y\r\n\
                  Content-Disposition: file; filename=\"awesome_image.gif\"\r\n\
                  Content-Type: image/gif\r\n\
                  Content-Transfer-Encoding: binary\r\n\
                  \r\n\
                  ... contents of awesome_image.gif ...\r\n\
                  --BbC04y--\r\n\
                  --AaB03x--";

    let (headers, body_start) = request_headers(input);
    let body = input[body_start..].to_vec();

    match read_multipart_body(&mut &*body, &headers, false) {
        Ok(nodes) => {
            assert_eq!(nodes.len(), 2);

            if let Node::Part(ref part) = nodes[0] {
                let cd_name = match part.headers.get("content-disposition") {
                    Some(cd) => get_content_disposition_name(cd),
                    None => None,
                };
                assert_eq!(&*cd_name.unwrap(), "submit-name");
                assert_eq!(::std::str::from_utf8(&part.body).unwrap(), "Larry");
            } else {
                panic!("1st node of wrong type");
            }

            if let Node::Multipart((ref headers, ref subnodes)) = nodes[1] {
                let cd_name = match headers.get("content-disposition") {
                    Some(cd) => get_content_disposition_name(cd),
                    None => None,
                };
                assert_eq!(&*cd_name.unwrap(), "files");

                assert_eq!(subnodes.len(), 2);

                if let Node::File(ref filepart) = subnodes[0] {
                    assert_eq!(filepart.size, Some(29));
                    assert_eq!(filepart.filename().unwrap().unwrap(), "file1.txt");
                    assert!(filepart.content_type().is_none());

                    assert_eq!(filepart.contents, b"... contents of file1.txt ...");
                } else {
                    panic!("1st subnode of wrong type");
                }

                if let Node::File(ref filepart) = subnodes[1] {
                    assert_eq!(filepart.size, Some(37));
                    assert_eq!(filepart.filename().unwrap().unwrap(), "awesome_image.gif");
                    assert_eq!(filepart.content_type().unwrap(), mime::IMAGE_GIF);

                    assert_eq!(filepart.contents, b"... contents of awesome_image.gif ...");
                } else {
                    panic!("2st subnode of wrong type");
                }
            } else {
                panic!("2st node of wrong type");
            }
        }
        Err(err) => panic!("{:?}", err.kind()),
    }
}

#[test]
fn test_line_feed() {
    let input = b"POST /test HTTP/1.1\r\n\
                  Host: example.domain\r\n\
                  Cookie: session_id=a36ZVwAAAACDQ9gzBCzDVZ1VNrnZEI1U\r\n\
                  Content-Type: multipart/form-data; boundary=\"ABCDEFG\"\r\n\
                  Content-Length: 10000\r\n\
                  \r\n\
                  --ABCDEFG\n\
                  Content-Disposition: form-data; name=\"consignment_id\"\n\
                  \n\
                  4\n\
                  --ABCDEFG\n\
                  Content-Disposition: form-data; name=\"note\"\n\
                  \n\
                  Check out this file about genomes!\n\
                  --ABCDEFG\n\
                  Content-Type: text/plain\n\
                  Content-Disposition: attachment; filename=genome.txt\n\
                  \n\
                  This is a text file about genomes, apparently.\n\
                  Read on.\n\
                  --ABCDEFG--";

    let (headers, body_start) = request_headers(input);
    let body = input[body_start..].to_vec();

    if let Err(e) = read_multipart_body(&mut &*body, &headers, false) {
        panic!("{:?}", e.kind());
    }
}

#[test]
fn line_feed_body_yields_its_parts() {
    let input: &[u8] = b"Content-Type: multipart/form-data; boundary=\"ABCDEFG\"\r\n\
                  \r\n\
                  --ABCDEFG\n\
                  Content-Disposition: form-data; name=\"note\"\n\
                  \n\
                  line one\r\nline two\n\
                  --ABCDEFG\n\
                  Content-Disposition: attachment; filename=genome.txt\n\
                  \n\
                  Read on.\n\
                  --ABCDEFG--tail";
    let mut stream = input;
    let nodes = match read_multipart(&mut stream, false) {
        Ok(nodes) => nodes,
        Err(e) => panic!("{:?}", e.kind()),
    };
    assert_eq!(stream, b"--tail");
    assert_eq!(nodes.len(), 2);
    match &nodes[0] {
        Node::Part(part) => assert_eq!(part.body, b"line one\r\nline two"),
        _ => panic!("1st node of wrong type"),
    }
    match &nodes[1] {
        Node::File(file) => {
            assert_eq!(file.contents, b"Read on.");
            assert_eq!(file.size, Some(8));
            assert_eq!(file.filename().unwrap().unwrap(), "genome.txt");
        }
        _ => panic!("2nd node of wrong type"),
    }
}

fn kind_of(input: &[u8], always_use_files: bool) -> ErrorKind {
    let mut stream = input;
    match read_multipart(&mut stream, always_use_files) {
        Ok(_) => panic!("parsed"),
        Err(e) => e.kind(),
    }
}

#[test]
fn truncated_in_part_headers() {
    let input = b"Content-Type: multipart/mixed; boundary=abc\r\n\r\n\
                  --abc\r\n\
                  Content-Type: text/plain\r\n\
                  \r\n\
                  one\r\n\
                  --abc\r\n\
                  Content-Type: text/pl";
    assert_eq!(kind_of(input, false), ErrorKind::EofInPartHeaders);
}

#[test]
fn truncation_at_each_milestone() {
    assert_eq!(
        kind_of(b"Content-Type: multipart/mixed; boundary=abc\r\n", false),
        ErrorKind::EofInMainHeaders
    );
    assert_eq!(
        kind_of(b"Content-Type: multipart/mixed; boundary=abc\r\n\r\npreamble --ab", false),
        ErrorKind::EofBeforeFirstBoundary
    );
    assert_eq!(
        kind_of(b"Content-Type: multipart/mixed; boundary=abc\r\n\r\n--abc", false),
        ErrorKind::NoCrLfAfterBoundary
    );
    assert_eq!(
        kind_of(b"Content-Type: multipart/mixed; boundary=abc\r\n\r\n--abcX", false),
        ErrorKind::NoCrLfAfterBoundary
    );
    assert_eq!(
        kind_of(
            b"Content-Type: multipart/mixed; boundary=abc\r\n\r\n--abc\r\nA: b\r\n\r\nbody\r\n--ab",
            false
        ),
        ErrorKind::EofInPart
    );
    assert_eq!(
        kind_of(
            b"Content-Type: multipart/mixed; boundary=abc\r\n\r\n--abc\r\nA: b\r\n\r\nbody\r\n--ab",
            true
        ),
        ErrorKind::EofInFile
    );
}

#[test]
fn boundary_errors() {
    assert_eq!(kind_of(b"Host: x\r\n\r\n--abc--", false), ErrorKind::NoRequestContentType);
    assert_eq!(
        kind_of(b"Content-Type: text/plain; boundary=abc\r\n\r\n--abc--", false),
        ErrorKind::NotMultipart
    );
    assert_eq!(
        kind_of(b"Content-Type: multipart/mixed\r\n\r\n--abc--", false),
        ErrorKind::BoundaryNotSpecified
    );
    assert_eq!(
        kind_of(b"Content-Type: nonsense\r\n\r\n--abc--", false),
        ErrorKind::HeaderValueNotMime
    );
    assert_eq!(
        kind_of(b"Content-Type: multipart/mixed; boundary=\xffabc\r\n\r\n--abc--", false),
        ErrorKind::ToStr
    );
}

#[test]
fn container_without_parts_is_refused() {
    assert_eq!(
        kind_of(b"Content-Type: multipart/mixed; boundary=abc\r\n\r\n--abc--", false),
        ErrorKind::NoCrLfAfterBoundary
    );
    assert_eq!(
        kind_of(b"Content-Type: multipart/mixed; boundary=abc\r\n\r\n--abc\r\n--", false),
        ErrorKind::EofInPartHeaders
    );
}

#[test]
fn part_with_five_headers_is_read() {
    let mut headers = HeaderMap::new();
    headers.append(
        http::header::CONTENT_TYPE,
        HeaderValue::from_static("multipart/mixed; boundary=X"),
    );
    let mut stream: &[u8] =
        b"--X\r\nA: 1\r\nB: 2\r\nC: 3\r\nD: 4\r\nE: 5\r\n\r\nhi\r\n--X--";
    let nodes = match read_multipart_body(&mut stream, &headers, false) {
        Ok(nodes) => nodes,
        Err(e) => panic!("{:?}", e.kind()),
    };
    assert_eq!(nodes.len(), 1);
    match &nodes[0] {
        Node::Part(part) => {
            let got: Vec<(&str, &[u8])> =
                part.headers.iter().map(|(k, v)| (k.as_str(), v.as_bytes())).collect();
            let expected: Vec<(&str, &[u8])> =
                vec![("a", b"1"), ("b", b"2"), ("c", b"3"), ("d", b"4"), ("e", b"5")];
            assert_eq!(got, expected);
            assert_eq!(part.body, b"hi");
        }
        _ => panic!("1st node of wrong type"),
    }
}

#[test]
fn request_with_many_headers_is_read() {
    let mut input = Vec::new();
    for i in 0..70 {
        input.extend_from_slice(format!("X-{}: {}\r\n", i, i).as_bytes());
    }
    input.extend_from_slice(b"Content-Type: multipart/mixed; boundary=abc\r\n\r\n");
    input.extend_from_slice(b"--abc\r\nA: 1\r\n\r\none\r\n--abc--");
    let mut stream: &[u8] = &input;
    let nodes = read_multipart(&mut stream, false).ok().unwrap();
    assert_eq!(nodes.len(), 1);
}

#[test]
fn part_with_four_headers_is_read() {
    let mut stream: &[u8] = b"Content-Type: multipart/mixed; boundary=abc\r\n\r\n\
                  --abc\r\n\
                  A: 1\r\nB: 2\r\nC: 3\r\nD: 4\r\n\
                  \r\n\
                  one\r\n\
                  --abc--";
    let nodes = read_multipart(&mut stream, false).ok().unwrap();
    assert_eq!(nodes.len(), 1);
    match &nodes[0] {
        Node::Part(part) => {
            assert_eq!(part.headers.len(), 4);
            assert_eq!(part.body, b"one");
        }
        _ => panic!("1st node of wrong type"),
    }
}

#[test]
fn preamble_and_rest_of_the_boundary_line_are_passed_over() {
    let mut stream: &[u8] = b"Content-Type: multipart/mixed; boundary=abc\r\n\r\n\
                  This is the preamble.\r\n\
                  --abc\r\n\
                  A: 1\r\n\
                  \r\n\
                  one\r\n\
                  --abc   \r\n\
                  B: 2\r\n\
                  \r\n\
                  two\r\n\
                  --abc--\r\nepilogue";
    let nodes = read_multipart(&mut stream, false).ok().unwrap();
    assert_eq!(stream, b"--\r\nepilogue");
    assert_eq!(nodes.len(), 2);
    match (&nodes[0], &nodes[1]) {
        (Node::Part(one), Node::Part(two)) => {
            assert_eq!(one.body, b"one");
            assert_eq!(one.headers.get("a").unwrap(), "1");
            assert_eq!(two.body, b"two");
            assert_eq!(two.headers.get("b").unwrap(), "2");
        }
        _ => panic!("node of wrong type"),
    }
}

#[test]
fn every_leaf_is_a_file_when_asked() {
    let mut stream: &[u8] = b"Content-Type: multipart/mixed; boundary=abc\r\n\r\n\
                  --abc\r\n\
                  Content-Disposition: form-data; name=\"note\"\r\n\
                  \r\n\
                  one\r\n\
                  --abc--";
    let nodes = read_multipart(&mut stream, true).ok().unwrap();
    assert_eq!(nodes.len(), 1);
    match &nodes[0] {
        Node::File(file) => {
            assert_eq!(file.contents, b"one");
            assert_eq!(file.size, Some(3));
            assert_eq!(file.filename().ok().unwrap(), None);
        }
        _ => panic!("1st node of wrong type"),
    }
}

#[test]
fn nested_body_keeps_depth_and_order() {
    let mut stream: &[u8] = b"Content-Type: multipart/mixed; boundary=out\r\n\r\n\
                  --out\r\n\
                  X: first\r\n\
                  \r\n\
                  1\r\n\
                  --out\r\n\
                  Content-Type: multipart/mixed; boundary=in\r\n\
                  \r\n\
                  --in\r\n\
                  X: second\r\n\
                  \r\n\
                  2\r\n\
                  --in\r\n\
                  Content-Type: multipart/mixed; boundary=deep\r\n\
                  \r\n\
                  --deep\r\n\
                  X: third\r\n\
                  \r\n\
                  3\r\n\
                  --deep--\r\n\
                  --in--\r\n\
                  --out--";
    let nodes = read_multipart(&mut stream, false).ok().unwrap();
    assert_eq!(stream, b"--\r\n--in--\r\n--out--");
    assert_eq!(nodes.len(), 2);
    let body_of = |node: &Node| match node {
        Node::Part(part) => part.body.clone(),
        _ => panic!("no part in memory"),
    };
    let children_of = |node: &Node| match node {
        Node::Multipart((headers, children)) => {
            assert!(headers.get("content-type").is_some());
            children.clone()
        }
        _ => panic!("no container"),
    };
    assert_eq!(body_of(&nodes[0]), b"1");
    let inner = children_of(&nodes[1]);
    assert_eq!(inner.len(), 2);
    assert_eq!(body_of(&inner[0]), b"2");
    let deep = children_of(&inner[1]);
    assert_eq!(deep.len(), 1);
    assert_eq!(body_of(&deep[0]), b"3");
}

#[test]
fn nested_container_ends_the_one_around_it() {
    let mut stream: &[u8] = b"Content-Type: multipart/mixed; boundary=out\r\n\r\n\
                  --out\r\n\
                  Content-Type: multipart/mixed; boundary=in\r\n\
                  \r\n\
                  --in\r\n\
                  X: inner\r\n\
                  \r\n\
                  1\r\n\
                  --in--\r\n\
                  --out\r\n\
                  X: behind\r\n\
                  \r\n\
                  2\r\n\
                  --out--";
    let nodes = read_multipart(&mut stream, false).ok().unwrap();
    assert_eq!(nodes.len(), 1);
    assert!(stream.starts_with(b"--\r\n--out\r\n"));
}

#[test]
fn every_beginning_fails_early_or_parses_as_the_whole() {
    let input: &[u8] = b"Content-Type: multipart/mixed; boundary=out\r\n\r\n\
                  --out\r\n\
                  X: first\r\n\
                  \r\n\
                  1\r\n\
                  --out\r\n\
                  Content-Type: multipart/mixed; boundary=in\r\n\
                  \r\n\
                  --in\r\n\
                  Content-Disposition: attachment; filename=f\r\n\
                  \r\n\
                  2\r\n\
                  --in--\r\n\
                  --out--epilogue";
    let mut first_success = None;
    for end in 0..input.len() + 1 {
        let mut stream = &input[..end];
        match read_multipart(&mut stream, false) {
            Ok(nodes) => {
                assert_eq!(nodes.len(), 2);
                if first_success.is_none() {
                    first_success = Some(end);
                }
            }
            Err(e) => {
                assert!(first_success.is_none(), "{}", end);
                assert!(e.kind().is_end_of_input(), "{} {:?}", end, e.kind());
            }
        }
    }
    let closing = input.len() - b"\r\n--out--epilogue".len();
    assert_eq!(first_success, Some(closing));
}
