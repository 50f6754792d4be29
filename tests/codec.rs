use mc_proxy::codec::{
    ping_request, read_packet, read_short, read_string, read_varint, server_list_ping,
    status_request, str_len, varint_len, write_packet, write_short, write_string, write_varint,
    ParseError, StringTooLong,
};

#[test]
fn test_varint_len() {
    let test_vectors = [
        (1, 1_usize),
        (128, 2_usize),
        (16384, 3_usize),
        (2097152, 4_usize),
        (268435456, 5_usize),
        (-1, 5_usize),
        (-128, 5_usize),
        (-16384, 5_usize),
        (-2097152, 5_usize),
        (-268435456, 5_usize),
    ];

    for (v, r) in test_vectors {
        assert_eq!(varint_len(v), r);
    }
}

#[test]
fn test_var_parse_serialize() {
    let test_vectors = [764, -1, 80, 25565, 1];

    for i in test_vectors {
        let mut output = Vec::with_capacity(10);

        write_varint(&mut output, i);

        let (_, r) = read_varint(&output).unwrap();

        assert_eq!(i, r);
    }
}

#[test]
fn varint_known_encodings() {
    let mut out = Vec::new();
    write_varint(&mut out, 764);
    assert_eq!(out, vec![0xFC, 0x05]);

    let mut out = Vec::new();
    write_varint(&mut out, -1);
    assert_eq!(out, vec![0xFF, 0xFF, 0xFF, 0xFF, 0x0F]);

    let mut out = Vec::new();
    write_varint(&mut out, 0);
    assert_eq!(out, vec![0x00]);
}

#[test]
fn varint_appends_to_existing_output() {
    let mut out = vec![0xAA];
    write_varint(&mut out, 300);
    assert_eq!(out, vec![0xAA, 0xAC, 0x02]);
}

#[test]
fn varint_len_table_edges() {
    assert_eq!(varint_len(0), 1);
    assert_eq!(varint_len(127), 1);
    assert_eq!(varint_len(16383), 2);
    assert_eq!(varint_len(2097151), 3);
    assert_eq!(varint_len(268435455), 4);
    assert_eq!(varint_len(i32::MAX), 5);
    assert_eq!(varint_len(i32::MIN), 5);
}

#[test]
fn varint_round_trip_consumes_its_length() {
    for v in [0, 1, 127, 128, 16383, 16384, 2097151, 2097152, 268435455, 268435456, i32::MAX, i32::MIN, -1, -764] {
        let mut out = Vec::new();
        write_varint(&mut out, v);
        assert_eq!(out.len(), varint_len(v));
        out.push(0x42);
        assert_eq!(read_varint(&out), Ok((varint_len(v), v)));
    }
}

#[test]
fn varint_incomplete_and_malformed() {
    assert_eq!(read_varint(&[]), Err(ParseError::Incomplete));
    assert_eq!(read_varint(&[0x80]), Err(ParseError::Incomplete));
    assert_eq!(read_varint(&[0xFF, 0xFF, 0xFF, 0xFF]), Err(ParseError::Incomplete));
    assert_eq!(read_varint(&[0x80, 0x80, 0x80, 0x80, 0x80]), Err(ParseError::Malformed));
    assert_eq!(read_varint(&[0x80, 0x80, 0x80, 0x80, 0x80, 0x01]), Err(ParseError::Malformed));
}

#[test]
fn varint_high_bits_of_fifth_byte_are_dropped() {
    assert_eq!(read_varint(&[0xFF, 0xFF, 0xFF, 0xFF, 0x7F]), Ok((5, -1)));
}

#[test]
fn short_is_big_endian() {
    let mut out = Vec::new();
    write_short(&mut out, 25565);
    assert_eq!(out, vec![0x63, 0xDD]);
    assert_eq!(read_short(&out), Ok((2, 25565)));
    assert_eq!(read_short(&[0x63]), Err(ParseError::Incomplete));
}

#[test]
fn string_below_max_len_is_written() {
    let mut out = Vec::new();
    assert_eq!(write_string(&mut out, "abc", 4), Ok(()));
    assert_eq!(out, vec![3, b'a', b'b', b'c']);
}

#[test]
fn string_at_or_over_max_len_is_refused() {
    let mut out = vec![9];
    assert_eq!(write_string(&mut out, "abcd", 4), Err(StringTooLong));
    assert_eq!(write_string(&mut out, "abcde", 4), Err(StringTooLong));
    assert_eq!(out, vec![9]);
}

#[test]
fn string_length_counts_bytes() {
    let mut out = Vec::new();
    assert_eq!(write_string(&mut out, "é", 3), Ok(()));
    assert_eq!(out, vec![2, 0xC3, 0xA9]);
    assert_eq!(str_len("é"), 3);
    assert_eq!(str_len(&"x".repeat(200)), 202);
}

#[test]
fn string_reads_back() {
    let mut out = Vec::new();
    write_string(&mut out, "localhost", 32767).unwrap();
    out.push(0xFF);
    assert_eq!(read_string(&out), Ok((10, "localhost")));
}

#[test]
fn string_read_errors() {
    assert_eq!(read_string(&[0x00]), Err(ParseError::Malformed));
    assert_eq!(read_string(&[0xFF, 0xFF, 0xFF, 0xFF, 0x0F, b'a']), Err(ParseError::Malformed));
    assert_eq!(read_string(&[0x03, b'a']), Err(ParseError::Incomplete));
    assert_eq!(read_string(&[0x80]), Err(ParseError::Incomplete));
    assert_eq!(read_string(&[0x02, 0xC3, 0x28]), Err(ParseError::Malformed));
}

#[test]
fn packet_round_trip() {
    let data = [1u8, 2, 3, 4];
    let packet = write_packet(5, &data);
    assert_eq!(packet, vec![5, 5, 1, 2, 3, 4]);
    let (n, (id, d)) = read_packet(&packet).unwrap();
    assert_eq!(n, packet.len());
    assert_eq!(id, 5);
    assert_eq!(d, &data[..]);

    let big = vec![7u8; 300];
    let packet = write_packet(200, &big);
    assert_eq!(&packet[..4], &[0xAE, 0x02, 0xC8, 0x01]);
    assert_eq!(read_packet(&packet), Ok((packet.len(), (200, &big[..]))));
}

#[test]
fn packet_read_errors() {
    assert_eq!(read_packet(&[]), Err(ParseError::Incomplete));
    assert_eq!(read_packet(&[0x00, 0x00]), Err(ParseError::Malformed));
    assert_eq!(read_packet(&[0xFF, 0xFF, 0xFF, 0xFF, 0x0F, 0x00]), Err(ParseError::Malformed));
    assert_eq!(read_packet(&[0x03, 0x00, 0x01]), Err(ParseError::Incomplete));
    assert_eq!(read_packet(&[0x02, 0xFF, 0xFF, 0xFF, 0xFF, 0x0F]), Err(ParseError::Malformed));
    assert_eq!(read_packet(&[0x02]), Err(ParseError::Incomplete));
}

#[test]
fn handshake_layout() {
    let packet = server_list_ping("localhost", 25565);
    let (n, (id, data)) = read_packet(&packet).unwrap();
    assert_eq!(n, packet.len());
    assert_eq!(id, 0x00);
    let (a, version) = read_varint(data).unwrap();
    assert_eq!(version, 764);
    let (b, host) = read_string(&data[a..]).unwrap();
    assert_eq!(host, "localhost");
    assert_eq!(&data[a + b..a + b + 2], &[0x63, 0xDD]);
    let (c, next) = read_varint(&data[a + b + 2..]).unwrap();
    assert_eq!(next, 1);
    assert_eq!(a + b + 2 + c, data.len());
}

#[test]
fn status_and_ping_requests_are_empty_packets() {
    assert_eq!(status_request(), vec![0x01, 0x00]);
    assert_eq!(ping_request(), vec![0x01, 0x00]);
}
