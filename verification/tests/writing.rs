use http::header::{HeaderMap, HeaderValue, CONTENT_DISPOSITION, CONTENT_TYPE};
use mime_multipart::{
    generate_boundary, read_multipart_body, write_chunk, write_closing, write_multipart,
    write_multipart_chunked, write_node, ErrorKind, FilePart, Node, Part,
};

fn name_part(field: &[u8], value: &[u8]) -> Part {
    let mut disposition = b"form-data; name=\"".to_vec();
    disposition.extend_from_slice(field);
    disposition.push(b'"');
    Part {
        headers: {
            let mut h = HeaderMap::new();
            h.append(CONTENT_TYPE, HeaderValue::from_str("text/plain").unwrap());
            h.append(CONTENT_DISPOSITION, HeaderValue::from_bytes(&disposition).unwrap());
            h
        },
        body: value.to_vec(),
    }
}

#[test]
fn test_output() {
    let mut output: Vec<u8> = Vec::new();
    let boundary = generate_boundary().unwrap();

    let first_name = Part {
        headers: {
            let mut h = HeaderMap::new();
            h.append(CONTENT_TYPE, HeaderValue::from_str("text/plain").unwrap());
            h.append(
                CONTENT_DISPOSITION,
                HeaderValue::from_bytes(b"form-data; name=\"first_name\"").unwrap(),
            );
            h
        },
        body: b"Michael".to_vec(),
    };

    let last_name = Part {
        headers: {
            let mut h = HeaderMap::new();
            h.append(CONTENT_TYPE, HeaderValue::from_str("text/plain").unwrap());
            h.append(
                CONTENT_DISPOSITION,
                HeaderValue::from_bytes(b"form-data; name=\"last_name\"").unwrap(),
            );
            h
        },
        body: b"Dilger".to_vec(),
    };

    let nodes: Vec<Node> = vec![Node::Part(first_name), Node::Part(last_name)];

    let count = match write_multipart(&mut output, &boundary, &nodes) {
        Ok(c) => c,
        Err(e) => panic!("{:?}", e.kind()),
    };
    assert_eq!(count, output.len());

    let string = String::from_utf8_lossy(&output);

    // Hard to compare programmatically since the headers could come in any order.
    println!("{}", string);

    assert_eq!(output.len(), 390);

    let mut closing = b"--".to_vec();
    closing.extend_from_slice(&boundary);
    closing.extend_from_slice(b"--");
    assert!(output.ends_with(&closing));
}

#[test]
fn test_chunked() {
    let mut output: Vec<u8> = Vec::new();
    let boundary = generate_boundary().unwrap();

    let first_name = Part {
        headers: {
            let mut h = HeaderMap::new();
            h.append(CONTENT_TYPE, HeaderValue::from_str("text/plain").unwrap());
            h.append(
                CONTENT_DISPOSITION,
                HeaderValue::from_bytes(b"form-data; name=\"first_name\"").unwrap(),
            );
            h
        },
        body: b"Michael".to_vec(),
    };

    let last_name = Part {
        headers: {
            let mut h = HeaderMap::new();
            h.append(CONTENT_TYPE, HeaderValue::from_str("text/plain").unwrap());
            h.append(
                CONTENT_DISPOSITION,
                HeaderValue::from_bytes(b"form-data; name=\"last_name\"").unwrap(),
            );
            h
        },
        body: b"Dilger".to_vec(),
    };

    let nodes: Vec<Node> = vec![Node::Part(first_name), Node::Part(last_name)];

    assert!(write_multipart_chunked(&mut output, &boundary, &nodes).is_ok());

    let string = String::from_utf8_lossy(&output);

    // Hard to compare programmatically since the headers could come in any order.
    println!("{}", string);

    assert_eq!(output.len(), 557);
}

#[test]
fn plain_output_is_exact() {
    let nodes = vec![Node::Part(name_part(b"a", b"one")), Node::Part(name_part(b"b", b"two"))];
    let mut output: Vec<u8> = b"head".to_vec();
    let count = write_multipart(&mut output, b"XyZ", &nodes).ok().unwrap();
    let expected: &[u8] = b"head--XyZ\r\n\
        content-type: text/plain\r\n\
        content-disposition: form-data; name=\"a\"\r\n\
        \r\n\
        one\r\n\
        --XyZ\r\n\
        content-type: text/plain\r\n\
        content-disposition: form-data; name=\"b\"\r\n\
        \r\n\
        two\r\n\
        --XyZ--";
    assert_eq!(output, expected);
    assert_eq!(count, expected.len() - 4);
}

#[test]
fn chunk_is_exact() {
    let mut output: Vec<u8> = Vec::new();
    assert!(write_chunk(&mut output, b"").is_ok());
    assert_eq!(output, b"0\r\n\r\n");
    output.clear();
    assert!(write_chunk(&mut output, b"hello world, hello").is_ok());
    assert_eq!(output, b"12\r\nhello world, hello\r\n");
    output.clear();
    let long = vec![b'x'; 0x1af];
    assert!(write_chunk(&mut output, &long).is_ok());
    assert!(output.starts_with(b"1af\r\nxxx"));
    assert_eq!(output.len(), 3 + 2 + 0x1af + 2);
}

#[test]
fn chunked_output_is_exact() {
    let mut headers = HeaderMap::new();
    headers.append(CONTENT_TYPE, HeaderValue::from_static("text/plain"));
    let nodes = vec![Node::Part(Part { headers, body: b"0123456789abcdef".to_vec() })];
    let mut output: Vec<u8> = Vec::new();
    assert!(write_multipart_chunked(&mut output, b"B", &nodes).is_ok());
    let expected: &[u8] = b"2\r\n--\r\n1\r\nB\r\n2\r\n\r\n\r\n\
        c\r\ncontent-type\r\n2\r\n: \r\na\r\ntext/plain\r\n2\r\n\r\n\r\n\
        2\r\n\r\n\r\n\
        10\r\n0123456789abcdef\r\n\
        2\r\n\r\n\r\n\
        2\r\n--\r\n1\r\nB\r\n2\r\n--\r\n0\r\n\r\n";
    assert_eq!(output, expected);
}

#[test]
fn file_part_is_written_with_its_contents() {
    let mut headers = HeaderMap::new();
    headers.append(CONTENT_DISPOSITION, HeaderValue::from_static("attachment; filename=a.txt"));
    let mut file = FilePart::new(headers, "/tmp/a.txt");
    file.contents = b"in the file".to_vec();
    let nodes = vec![Node::File(file)];
    let mut output: Vec<u8> = Vec::new();
    let count = write_multipart(&mut output, b"B", &nodes).ok().unwrap();
    let expected: &[u8] = b"--B\r\n\
        content-disposition: attachment; filename=a.txt\r\n\
        \r\n\
        in the file\r\n\
        --B--";
    assert_eq!(output, expected);
    assert_eq!(count, expected.len());
}

#[test]
fn nested_container_is_written_under_its_own_boundary() {
    let mut headers = HeaderMap::new();
    headers.append(CONTENT_TYPE, HeaderValue::from_static("multipart/mixed; boundary=in"));
    let children = vec![Node::Part(Part { headers: HeaderMap::new(), body: b"x".to_vec() })];
    let nodes = vec![Node::Multipart((headers, children))];
    let mut output: Vec<u8> = Vec::new();
    let count = write_multipart(&mut output, b"out", &nodes).ok().unwrap();
    let expected: &[u8] = b"--out\r\n\
        content-type: multipart/mixed; boundary=in\r\n\
        \r\n\
        --in\r\n\
        \r\n\
        x\r\n\
        --in--\r\n\
        --out--";
    assert_eq!(output, expected);
    assert_eq!(count, expected.len());
}

#[test]
fn container_without_children_is_written() {
    let mut headers = HeaderMap::new();
    headers.append(CONTENT_TYPE, HeaderValue::from_static("multipart/mixed; boundary=inner"));
    let nodes = vec![Node::Multipart((headers, Vec::new()))];
    let mut out: Vec<u8> = Vec::new();
    let count = write_multipart(&mut out, b"outer", &nodes).ok().unwrap();
    assert_eq!(count, out.len());
    assert_eq!(
        out,
        b"--outer\r\ncontent-type: multipart/mixed; boundary=inner\r\n\r\n--inner--\r\n--outer--"
    );
}

#[test]
fn chunked_container_is_written_under_its_own_boundary() {
    let mut headers = HeaderMap::new();
    headers.append(CONTENT_TYPE, HeaderValue::from_static("multipart/mixed; boundary=in"));
    let nodes = vec![Node::Multipart((headers, Vec::new()))];
    let mut out: Vec<u8> = Vec::new();
    assert!(write_multipart_chunked(&mut out, b"B", &nodes).is_ok());
    let expected: &[u8] = b"2\r\n--\r\n1\r\nB\r\n2\r\n\r\n\r\n\
        c\r\ncontent-type\r\n2\r\n: \r\n1c\r\nmultipart/mixed; boundary=in\r\n2\r\n\r\n\r\n\
        2\r\n\r\n\r\n\
        2\r\n--\r\n2\r\nin\r\n2\r\n--\r\n0\r\n\r\n\
        2\r\n\r\n\r\n\
        2\r\n--\r\n1\r\nB\r\n2\r\n--\r\n0\r\n\r\n";
    assert_eq!(out, expected);
}

#[test]
fn container_without_boundary_is_not_written() {
    let mut headers = HeaderMap::new();
    headers.append(CONTENT_TYPE, HeaderValue::from_static("multipart/mixed"));
    let nodes = vec![Node::Multipart((headers, Vec::new()))];
    let mut output: Vec<u8> = Vec::new();
    match write_multipart(&mut output, b"out", &nodes) {
        Ok(_) => panic!("written"),
        Err(e) => assert_eq!(e.kind(), ErrorKind::BoundaryNotSpecified),
    }
    let nodes = vec![Node::Multipart((HeaderMap::new(), Vec::new()))];
    match write_multipart_chunked(&mut output, b"out", &nodes) {
        Ok(_) => panic!("written"),
        Err(e) => assert_eq!(e.kind(), ErrorKind::NoRequestContentType),
    }
}

#[test]
fn round_trip_of_parts() {
    let nodes = vec![
        Node::Part(name_part(b"first_name", b"Michael")),
        Node::Part(name_part(b"last_name", b"Dilger\r\n--not the boundary")),
    ];
    let boundary = generate_boundary().unwrap();
    let mut output: Vec<u8> = Vec::new();
    let count = write_multipart(&mut output, &boundary, &nodes).ok().unwrap();
    assert_eq!(count, output.len());

    let mut outer = HeaderMap::new();
    let mut declared = b"multipart/form-data; boundary=\"".to_vec();
    declared.extend_from_slice(&boundary);
    declared.push(b'"');
    outer.append(CONTENT_TYPE, HeaderValue::from_bytes(&declared).unwrap());

    let mut stream: &[u8] = &output;
    let parsed = match read_multipart_body(&mut stream, &outer, false) {
        Ok(parsed) => parsed,
        Err(e) => panic!("{:?}", e.kind()),
    };
    assert_eq!(stream, b"--");
    assert_eq!(parsed.len(), nodes.len());
    for (got, sent) in parsed.iter().zip(nodes.iter()) {
        match (got, sent) {
            (Node::Part(got), Node::Part(sent)) => assert_eq!(got, sent),
            _ => panic!("node of wrong type"),
        }
    }
}

#[test]
fn generated_boundary_is_safe() {
    for _ in 0..50 {
        let boundary = generate_boundary().unwrap();
        assert_eq!(boundary.len(), 68);
        assert!(!boundary.contains(&b'='));
        assert!(!boundary.contains(&b'/'));
        assert!(boundary.iter().all(|b| b.is_ascii_alphanumeric() || *b == b'+' || *b == b'.'));
    }
}

#[test]
fn nested_round_trip() {
    let text = |body: &[u8]| {
        let mut headers = HeaderMap::new();
        headers.append(CONTENT_TYPE, HeaderValue::from_static("text/plain"));
        Part { headers, body: body.to_vec() }
    };
    let mut inner = HeaderMap::new();
    inner.append(CONTENT_TYPE, HeaderValue::from_static("multipart/mixed; boundary=inner"));
    let children = vec![Node::Part(text(b"one")), Node::Part(text(b"two"))];
    let nodes = vec![Node::Multipart((inner.clone(), children))];
    let mut out: Vec<u8> = Vec::new();
    let count = write_multipart(&mut out, b"outer", &nodes).ok().unwrap();
    assert_eq!(count, out.len());

    let mut outer = HeaderMap::new();
    outer.append(CONTENT_TYPE, HeaderValue::from_static("multipart/mixed; boundary=outer"));
    let mut stream: &[u8] = &out;
    let read = match read_multipart_body(&mut stream, &outer, false) {
        Ok(read) => read,
        Err(e) => panic!("{:?}", e.kind()),
    };
    assert_eq!(read.len(), 1);
    match &read[0] {
        Node::Multipart((headers, children)) => {
            assert_eq!(*headers, inner);
            assert_eq!(children.len(), 2);
            match (&children[0], &children[1]) {
                (Node::Part(one), Node::Part(two)) => {
                    assert_eq!(*one, text(b"one"));
                    assert_eq!(*two, text(b"two"));
                }
                _ => panic!("child of wrong type"),
            }
        }
        _ => panic!("1st node of wrong type"),
    }
}

#[test]
fn nested_round_trip_behind_a_part() {
    let mut inner = HeaderMap::new();
    inner.append(CONTENT_TYPE, HeaderValue::from_static("multipart/mixed; boundary=in"));
    let mut deep = HeaderMap::new();
    deep.append(CONTENT_TYPE, HeaderValue::from_static("multipart/mixed; boundary=deep"));
    let nodes = vec![
        Node::Part(name_part(b"a", b"1")),
        Node::Multipart((
            inner,
            vec![
                Node::Part(name_part(b"b", b"2")),
                Node::Multipart((deep, vec![Node::Part(name_part(b"c", b"3"))])),
            ],
        )),
    ];
    let mut out: Vec<u8> = Vec::new();
    write_multipart(&mut out, b"out", &nodes).ok().unwrap();
    let mut outer = HeaderMap::new();
    outer.append(CONTENT_TYPE, HeaderValue::from_static("multipart/mixed; boundary=out"));
    let mut stream: &[u8] = &out;
    let read = read_multipart_body(&mut stream, &outer, false).ok().unwrap();
    let body_of = |node: &Node| match node {
        Node::Part(part) => part.body.clone(),
        _ => panic!("no part in memory"),
    };
    let children_of = |node: &Node| match node {
        Node::Multipart((_, children)) => children.clone(),
        _ => panic!("no container"),
    };
    assert_eq!(read.len(), 2);
    assert_eq!(body_of(&read[0]), b"1");
    let second = children_of(&read[1]);
    assert_eq!(second.len(), 2);
    assert_eq!(body_of(&second[0]), b"2");
    let third = children_of(&second[1]);
    assert_eq!(third.len(), 1);
    assert_eq!(body_of(&third[0]), b"3");
}

#[test]
fn copies_are_equal() {
    let part = name_part(b"a", b"one");
    assert_eq!(part.clone(), part);
    let mut file = FilePart::create(HeaderMap::new(), "/tmp/d", "/tmp/d/f");
    file.contents = b"bytes".to_vec();
    file.size = Some(5);
    assert_eq!(file.clone(), file);
    let tree = Node::Multipart((
        HeaderMap::new(),
        vec![Node::Part(part.clone()), Node::File(file.clone())],
    ));
    match tree.clone() {
        Node::Multipart((headers, children)) => {
            assert!(headers.is_empty());
            assert_eq!(children.len(), 2);
            match (&children[0], &children[1]) {
                (Node::Part(p), Node::File(f)) => {
                    assert_eq!(*p, part);
                    assert_eq!(*f, file);
                }
                _ => panic!("node of wrong type"),
            }
        }
        _ => panic!("no container"),
    }
}

#[test]
fn body_is_its_nodes_and_the_closing() {
    let mut headers = HeaderMap::new();
    headers.append(CONTENT_TYPE, HeaderValue::from_static("multipart/mixed; boundary=in"));
    let nodes = vec![
        Node::Part(name_part(b"a", b"one")),
        Node::Multipart((headers, vec![Node::Part(name_part(b"b", b"two"))])),
    ];
    for framed in [false, true] {
        let mut whole: Vec<u8> = Vec::new();
        if framed {
            write_multipart_chunked(&mut whole, b"B", &nodes).ok().unwrap();
        } else {
            write_multipart(&mut whole, b"B", &nodes).ok().unwrap();
        }
        let mut pieces: Vec<u8> = Vec::new();
        for node in &nodes {
            write_node(&mut pieces, b"B", node, framed).ok().unwrap();
        }
        write_closing(&mut pieces, b"B", framed);
        assert_eq!(pieces, whole);
    }
    let mut closing: Vec<u8> = b"x".to_vec();
    write_closing(&mut closing, b"B", false);
    assert_eq!(closing, b"x--B--");
    closing.clear();
    write_closing(&mut closing, b"B", true);
    assert_eq!(closing, b"2\r\n--\r\n1\r\nB\r\n2\r\n--\r\n0\r\n\r\n");
    let mut one: Vec<u8> = Vec::new();
    write_node(&mut one, b"B", &Node::Part(Part { headers: HeaderMap::new(), body: b"x".to_vec() }), false)
        .ok()
        .unwrap();
    assert_eq!(one, b"--B\r\n\r\nx\r\n");
}
