use log0::leb128::{decode_u32, encode_u32, DecodeError, CONTINUE};
use log0::parser::{Packet, ParseError, Parser};
use log0::reader::{bytes_to_read, plan_transfer, poll_step, transfer, PollAction, Transfer};
use log0::ring::{Cursors, LOG0_CAPACITY};

fn leb128_write(v: &mut Vec<u8>, mut word: u32) {
    loop {
        let mut byte = (word & 0x7f) as u8;
        word >>= 7;

        if word != 0 {
            byte |= CONTINUE;
        }
        v.push(byte);

        if word == 0 {
            return;
        }
    }
}

fn sample_frame() -> Vec<u8> {
    let data = &[1, 2, 3, 4, 5];
    let mut buf = Vec::new();
    leb128_write(&mut buf, data.len() as u32);
    leb128_write(&mut buf, 0xcafe);
    leb128_write(&mut buf, 0xdeafbeef);
    buf.extend(data.iter());
    buf
}

#[test]
fn encode_and_parse() {
    let data = &[1, 2, 3, 4, 5];
    let data_size = data.len();
    let sym = 0xcafe;
    let typ = 0xdeafbeef;

    let mut buf = Vec::new();
    leb128_write(&mut buf, data_size as u32);
    leb128_write(&mut buf, sym);
    leb128_write(&mut buf, typ);
    buf.extend(data.iter());

    let mut parser = Parser::new();

    parser.push(&buf[0..6]);
    let packet = parser.try_parse();
    assert_eq!(packet, None);

    parser.push(&buf[6..12]);
    let packet = parser.try_parse();
    assert_eq!(packet, None);

    parser.push(&buf[12..14]);
    let packet = parser.try_parse();
    assert_eq!(
        packet,
        Some(Packet {
            string_loc: 0xcafe,
            type_loc: 0xdeafbeef,
            buffer: vec![1, 2, 3, 4, 5]
        })
    );
}

#[test]
fn data_to_read() {
    let buf_size = 1024;
    assert_eq!(bytes_to_read(1022, 8, buf_size), 10);
}

#[test]
fn it_works() {
    let mut v = Vec::new();
    leb128_write(&mut v, 0xffff_ffff);
    println!("{:#?}", v);
    assert_eq!(v.len(), 5);
}

#[test]
fn encode_known_words() {
    assert_eq!(encode_u32(0), vec![0x00]);
    assert_eq!(encode_u32(127), vec![0x7f]);
    assert_eq!(encode_u32(128), vec![0x80, 0x01]);
    assert_eq!(encode_u32(300), vec![0xac, 0x02]);
    assert_eq!(encode_u32(0xffff_ffff), vec![0xff, 0xff, 0xff, 0xff, 0x0f]);
}

#[test]
fn encode_agrees_with_the_plain_loop() {
    for word in [0u32, 1, 127, 128, 16383, 16384, 0x1f_ffff, 0x20_0000, 0xfff_ffff, 0x1000_0000] {
        let mut v = Vec::new();
        leb128_write(&mut v, word);
        assert_eq!(encode_u32(word), v);
    }
}

#[test]
fn decode_gives_back_what_was_encoded() {
    for word in [0u32, 1, 127, 128, 300, 0xcafe, 0xdeaf_beef, 0x0fff_ffff, 0x1000_0000, u32::MAX] {
        let bytes = encode_u32(word);
        assert_eq!(decode_u32(&bytes), Ok((word, bytes.len())));
    }
}

#[test]
fn decode_ignores_what_follows_the_word() {
    assert_eq!(decode_u32(&[0x80, 0x01, 0xff, 0xff]), Ok((128, 2)));
    assert_eq!(decode_u32(&[0x05, 0x80]), Ok((5, 1)));
}

#[test]
fn decode_reports_a_word_that_is_cut_short() {
    assert_eq!(decode_u32(&[]), Err(DecodeError::Incomplete));
    assert_eq!(decode_u32(&[0x80]), Err(DecodeError::Incomplete));
    assert_eq!(decode_u32(&[0xff, 0xff, 0xff, 0xff]), Err(DecodeError::Incomplete));
}

#[test]
fn decode_rejects_a_flag_on_the_fifth_byte() {
    assert_eq!(decode_u32(&[0x80, 0x80, 0x80, 0x80, 0x80]), Err(DecodeError::Malformed));
    assert_eq!(decode_u32(&[0xff, 0xff, 0xff, 0xff, 0xff, 0x01]), Err(DecodeError::Malformed));
}

#[test]
fn decode_drops_bits_beyond_the_word() {
    assert_eq!(decode_u32(&[0xff, 0xff, 0xff, 0xff, 0x7f]), Ok((u32::MAX, 5)));
    assert_eq!(decode_u32(&[0x80, 0x80, 0x80, 0x80, 0x70]), Ok((0, 5)));
    assert_eq!(decode_u32(&[0x80, 0x00]), Ok((0, 2)));
}

#[test]
fn writer_emits_the_frame_bytes() {
    let mut ring = Cursors::new(1024);
    assert!(ring.is_well_formed());
    ring.write_frame(0xcafe, 0xdeaf_beef, &[1, 2, 3, 4, 5]);
    assert_eq!(ring.len(), 14);
    assert_eq!(ring.free(), 1024 - 1 - 14);
    assert_eq!(ring.target(), 14);
    assert_eq!(ring.host(), 0);
    assert_eq!(ring.copy_out(0, 14), sample_frame());
}

#[test]
fn frame_round_trip() {
    let mut ring = Cursors::new(1024);
    ring.write_frame(0xcafe, 0xdeaf_beef, &[1, 2, 3, 4, 5]);
    let bytes = transfer(&mut ring);
    assert_eq!(bytes, sample_frame());
    let mut parser = Parser::new();
    parser.push(&bytes);
    assert_eq!(
        parser.try_parse(),
        Some(Packet { string_loc: 0xcafe, type_loc: 0xdeaf_beef, buffer: vec![1, 2, 3, 4, 5] })
    );
    assert_eq!(parser.try_parse(), None);
    assert_eq!(ring.len(), 0);
    assert_eq!(ring.host(), 14);
}

#[test]
fn chunked_parse_waits_for_the_last_chunk() {
    let bytes = sample_frame();
    let mut parser = Parser::new();
    parser.push(&bytes[0..6]);
    assert_eq!(parser.poll(), Ok(None));
    parser.push(&bytes[6..12]);
    assert_eq!(parser.poll(), Ok(None));
    parser.push(&bytes[12..]);
    assert_eq!(
        parser.poll(),
        Ok(Some(Packet { string_loc: 0xcafe, type_loc: 0xdeaf_beef, buffer: vec![1, 2, 3, 4, 5] }))
    );
    assert_eq!(parser.poll(), Ok(None));
}

#[test]
fn every_split_gives_the_same_frames() {
    let mut stream = sample_frame();
    let mut second = Vec::new();
    leb128_write(&mut second, 0);
    leb128_write(&mut second, 7);
    leb128_write(&mut second, 0x1234_5678);
    stream.extend(second.iter());
    for cut in 0..=stream.len() {
        let mut parser = Parser::new();
        let mut frames = Vec::new();
        parser.push(&stream[..cut]);
        while let Some(p) = parser.try_parse() {
            frames.push(p);
        }
        parser.push(&stream[cut..]);
        while let Some(p) = parser.try_parse() {
            frames.push(p);
        }
        assert_eq!(
            frames,
            vec![
                Packet { string_loc: 0xcafe, type_loc: 0xdeaf_beef, buffer: vec![1, 2, 3, 4, 5] },
                Packet { string_loc: 7, type_loc: 0x1234_5678, buffer: vec![] },
            ]
        );
    }
}

#[test]
fn byte_by_byte_gives_the_same_frames() {
    let stream = sample_frame();
    let mut parser = Parser::new();
    let mut frames = Vec::new();
    for b in stream.iter() {
        parser.push(&[*b]);
        while let Some(p) = parser.try_parse() {
            frames.push(p);
        }
    }
    assert_eq!(
        frames,
        vec![Packet { string_loc: 0xcafe, type_loc: 0xdeaf_beef, buffer: vec![1, 2, 3, 4, 5] }]
    );
}

#[test]
fn header_cut_short_consumes_nothing() {
    let mut parser = Parser::new();
    parser.push(&[0x05, 0xfe]);
    assert_eq!(parser.poll(), Ok(None));
    parser.push(&[0x95, 0x03, 0x01]);
    assert_eq!(parser.poll(), Ok(None));
    parser.push(&[9, 8, 7, 6, 5]);
    assert_eq!(
        parser.poll(),
        Ok(Some(Packet { string_loc: 0xcafe, type_loc: 1, buffer: vec![9, 8, 7, 6, 5] }))
    );
}

#[test]
fn malformed_header_is_a_fault() {
    let mut parser = Parser::new();
    parser.push(&[0x80, 0x80, 0x80, 0x80, 0x80, 0x00]);
    assert_eq!(parser.poll(), Err(ParseError::MalformedHeader));
    assert_eq!(parser.poll(), Err(ParseError::MalformedHeader));
    let mut parser = Parser::new();
    parser.push(&[0x01, 0xff, 0xff, 0xff, 0xff, 0xff]);
    assert_eq!(parser.poll(), Err(ParseError::MalformedHeader));
}

#[test]
fn payload_above_the_limit_is_a_fault() {
    let mut parser = Parser::with_limit(4);
    parser.push(&[0x05, 0x01, 0x02, 1, 2, 3, 4, 5]);
    assert_eq!(parser.poll(), Err(ParseError::PayloadTooLarge));
    let mut parser = Parser::with_limit(5);
    parser.push(&[0x05, 0x01, 0x02, 1, 2, 3, 4, 5]);
    assert_eq!(
        parser.poll(),
        Ok(Some(Packet { string_loc: 1, type_loc: 2, buffer: vec![1, 2, 3, 4, 5] }))
    );
}

#[test]
fn zero_length_payload() {
    let mut ring = Cursors::new(64);
    ring.write_frame(3, 4, &[]);
    let bytes = transfer(&mut ring);
    assert_eq!(bytes, vec![0x00, 0x03, 0x04]);
    let mut parser = Parser::new();
    parser.push(&bytes);
    assert_eq!(parser.try_parse(), Some(Packet { string_loc: 3, type_loc: 4, buffer: vec![] }));
}

#[test]
fn cursor_arithmetic_stays_on_the_ring() {
    let c = 16;
    for h in 0..c {
        for t in 0..c {
            let n = bytes_to_read(h, t, c);
            assert!(n < c);
            assert_eq!(n, (t + c - h) % c);
        }
    }
}

#[test]
fn admission_needs_room_for_the_longest_header() {
    // 64 slots leave 63 free: a payload of 48 with 15 bytes of header room is the most.
    let mut ring = Cursors::new(64);
    ring.write_frame(1, 2, &[0u8; 49]);
    assert_eq!(ring.len(), 0);
    assert_eq!(ring.target(), 0);
    ring.write_frame(1, 2, &[0u8; 48]);
    assert_eq!(ring.len(), 51);
    assert_eq!(ring.free(), 12);
    // Nothing more is admitted now, not even an empty payload.
    ring.write_frame(1, 2, &[]);
    assert_eq!(ring.len(), 51);
}

#[test]
fn admission_adds_the_encoded_length() {
    let mut ring = Cursors::new(1024);
    let before = ring.len();
    ring.write_frame(0x1000_0000, 0x80, &[7; 200]);
    // 2 bytes for the length, 5 and 2 for the keys, 200 of payload
    assert_eq!(ring.len(), before + 209);
    assert_eq!(ring.free(), 1023 - 209);
}

#[test]
fn ring_wrap() {
    let mut ring = Cursors::new(16);
    // Two frames of six bytes each bring both cursors to 12.
    ring.write_frame(0x80, 0x4000, &[]);
    assert_eq!(transfer(&mut ring).len(), 6);
    ring.write_frame(0x80, 0x4000, &[]);
    assert_eq!(transfer(&mut ring).len(), 6);
    assert_eq!(ring.host(), 12);
    assert_eq!(ring.target(), 12);

    ring.write_frame(0xff, 0xabcd, &[]);
    assert_eq!(ring.target(), 2);
    assert_eq!(ring.len(), 6);
    let plan = plan_transfer(ring.host(), ring.target(), ring.capacity());
    assert_eq!(plan, Transfer { first_start: 12, first_len: 4, second_len: 2, new_host: 2 });
    let bytes = transfer(&mut ring);
    assert_eq!(bytes, vec![0x00, 0xff, 0x01, 0xcd, 0xd7, 0x02]);
    let mut parser = Parser::new();
    parser.push(&bytes);
    assert_eq!(parser.try_parse(), Some(Packet { string_loc: 0xff, type_loc: 0xabcd, buffer: vec![] }));
}

#[test]
fn wrap_around_reader_frees_what_it_read() {
    let mut ring = Cursors::new(64);
    ring.write_frame(1, 2, &[0xaa; 40]);
    transfer(&mut ring);
    ring.write_frame(3, 4, &[0xbb; 40]);
    let host = ring.host();
    let n = ring.len();
    assert!(host + n > ring.capacity());
    let free_before = ring.free();
    let plan = plan_transfer(host, ring.target(), ring.capacity());
    assert!(plan.second_len > 0);
    assert_eq!(plan.first_len + plan.second_len, n);
    assert_eq!(plan.new_host, (host + n) % ring.capacity());
    let bytes = transfer(&mut ring);
    assert_eq!(bytes.len(), n);
    assert_eq!(ring.host(), plan.new_host);
    assert_eq!(ring.free(), free_before + n);
    let mut parser = Parser::new();
    parser.push(&bytes);
    assert_eq!(parser.try_parse(), Some(Packet { string_loc: 3, type_loc: 4, buffer: vec![0xbb; 40] }));
}

#[test]
fn single_read_where_nothing_wraps() {
    assert_eq!(
        plan_transfer(4, 10, 16),
        Transfer { first_start: 4, first_len: 6, second_len: 0, new_host: 10 }
    );
    assert_eq!(
        plan_transfer(10, 10, 16),
        Transfer { first_start: 10, first_len: 0, second_len: 0, new_host: 10 }
    );
    assert_eq!(
        plan_transfer(10, 0, 16),
        Transfer { first_start: 10, first_len: 6, second_len: 0, new_host: 0 }
    );
}

#[test]
fn many_frames_through_a_small_ring() {
    let mut ring = Cursors::new(48);
    let mut parser = Parser::new();
    let mut seen = Vec::new();
    for round in 0u32..50 {
        let payload: Vec<u8> = (0..(round % 7) as u8).collect();
        ring.write_frame(round, round * 1000, &payload);
        let bytes = transfer(&mut ring);
        parser.push(&bytes);
        while let Some(p) = parser.try_parse() {
            seen.push(p);
        }
    }
    assert_eq!(seen.len(), 50);
    for (round, p) in seen.iter().enumerate() {
        assert_eq!(p.string_loc, round);
        assert_eq!(p.type_loc, round * 1000);
        assert_eq!(p.buffer.len(), round % 7);
    }
}

#[test]
fn the_host_waits_until_the_producer_moves() {
    assert_eq!(poll_step(5, 0, 5, 16), PollAction::Wait);
    assert_eq!(poll_step(0, 0, 0, 16), PollAction::Wait);
    // the producer cursor stands still, whatever else is wrong
    assert_eq!(poll_step(99, 99, 99, 16), PollAction::Wait);
    assert_eq!(
        poll_step(5, 3, 9, 16),
        PollAction::Read(Transfer { first_start: 3, first_len: 6, second_len: 0, new_host: 9 })
    );
    assert_eq!(
        poll_step(5, 12, 2, 16),
        PollAction::Read(Transfer { first_start: 12, first_len: 4, second_len: 2, new_host: 2 })
    );
}

#[test]
fn a_cursor_outside_the_ring_is_a_fault() {
    assert_eq!(poll_step(0, 0, 16, 16), PollAction::Fault);
    assert_eq!(poll_step(0, 16, 3, 16), PollAction::Fault);
    assert_eq!(poll_step(0, 0, 1, 0), PollAction::Fault);
}

#[test]
fn the_ring_as_built_holds_one_byte_less_than_its_slots() {
    let ring = Cursors::new(LOG0_CAPACITY);
    assert_eq!(ring.capacity(), 1024);
    assert_eq!(ring.len(), 0);
    assert_eq!(ring.free(), 1023);
}

#[test]
fn the_largest_frame_of_the_ring_as_built() {
    let mut ring = Cursors::new(LOG0_CAPACITY);
    ring.write_frame(u32::MAX, u32::MAX, &[0x55; 1009]);
    assert_eq!(ring.len(), 0);
    ring.write_frame(u32::MAX, u32::MAX, &[0x55; 1008]);
    assert_eq!(ring.len(), 2 + 5 + 5 + 1008);
    let bytes = transfer(&mut ring);
    let mut parser = Parser::new();
    parser.push(&bytes);
    assert_eq!(
        parser.try_parse(),
        Some(Packet { string_loc: 0xffff_ffff, type_loc: 0xffff_ffff, buffer: vec![0x55; 1008] })
    );
}
