use lib::gdb::command::{parse_command, GdbCommand};
use lib::gdb::hex::{parse_hex_u32, parse_hex_u8, parse_hex_usize};
use lib::gdb::packet::{compute_checksum, frame_packet, is_utf8, scan_packet, PacketScan, ProtocolError};
use lib::gdb::server::{
    decode_memory_data, memory_read_reply, memory_write_reply, target_xml, ArmArchitecture,
    CpuRegisters, GdbEffect, GdbServer, StopReason,
};

fn regs() -> CpuRegisters {
    let mut regs = [0u32; 16];
    for (i, r) in regs.iter_mut().enumerate() {
        *r = 0x1000_0000 * (i as u32 % 16) + 0x0012_3456 + i as u32;
    }
    regs[0] = 0x1234_5678;
    CpuRegisters { regs, cpsr: 0x6000_0010 }
}

fn reply_of(server: &GdbServer, packet: &[u8], stop: Option<StopReason>) -> (GdbEffect, Option<Vec<u8>>) {
    let cmd = parse_command(packet).expect("well-formed packet");
    let r = server.handle_command(cmd, stop, &regs());
    (r.effect, r.reply)
}

fn text(reply: Option<Vec<u8>>) -> String {
    String::from_utf8(reply.expect("a reply")).unwrap()
}

#[test]
fn hex_numbers_follow_from_str_radix() {
    assert_eq!(parse_hex_u32(b"1f"), Some(31));
    assert_eq!(parse_hex_u32(b"1F"), Some(31));
    assert_eq!(parse_hex_u32(b"+ff"), Some(255));
    assert_eq!(parse_hex_u32(b"FFFFFFFF"), Some(u32::MAX));
    assert_eq!(parse_hex_u32(b"000000000001"), Some(1));
    assert_eq!(parse_hex_u32(b"100000000"), None);
    assert_eq!(parse_hex_u32(b""), None);
    assert_eq!(parse_hex_u32(b"+"), None);
    assert_eq!(parse_hex_u32(b"-1"), None);
    assert_eq!(parse_hex_u32(b"12g"), None);
    assert_eq!(parse_hex_u32(b" 1"), None);
    assert_eq!(parse_hex_u8(b"ff"), Some(255));
    assert_eq!(parse_hex_u8(b"100"), None);
    assert_eq!(parse_hex_u8(b"+a"), Some(10));
    assert_eq!(parse_hex_usize(b"19"), Some(25));
    for s in ["0", "7fffffff", "+10", "abc", "", "+", "x", "123456789"] {
        assert_eq!(parse_hex_u32(s.as_bytes()), u32::from_str_radix(s, 16).ok(), "{s}");
        assert_eq!(parse_hex_u8(s.as_bytes()), u8::from_str_radix(s, 16).ok(), "{s}");
    }
}

#[test]
fn checksum_is_the_byte_sum_modulo_256() {
    assert_eq!(compute_checksum(b""), 0);
    assert_eq!(compute_checksum(b"OK"), 0x9a);
    assert_eq!(compute_checksum(&[0xff, 0x02]), 0x01);
}

#[test]
fn framing_writes_dollar_body_hash_checksum() {
    assert_eq!(frame_packet(b"OK"), b"$OK#9a".to_vec());
    assert_eq!(frame_packet(b""), b"$#00".to_vec());
    assert_eq!(frame_packet(b"S05"), b"$S05#b8".to_vec());
}

#[test]
fn scanning_the_receive_buffer() {
    assert_eq!(scan_packet(b"", 4096), Ok(PacketScan::NoData));
    assert_eq!(scan_packet(b"+$g#67", 4096), Ok(PacketScan::Ack));
    assert_eq!(scan_packet(b"x", 4096), Err(ProtocolError::UnexpectedByte));
    assert_eq!(scan_packet(b"$abc", 4096), Ok(PacketScan::Incomplete));
    assert_eq!(scan_packet(b"$abc", 4), Err(ProtocolError::BufferFull));
    assert_eq!(scan_packet(b"$OK#9", 4096), Ok(PacketScan::Incomplete));
    assert_eq!(scan_packet(b"$OK#zz", 4096), Err(ProtocolError::MalformedChecksum));
    assert_eq!(scan_packet(b"$OK#00", 4096), Err(ProtocolError::ChecksumMismatch));
    assert_eq!(scan_packet(b"$\xff#ff", 4096), Err(ProtocolError::InvalidUtf8));
    assert_eq!(scan_packet(b"$OK#9a+", 4096), Ok(PacketScan::Packet { body_end: 3 }));
    assert_eq!(scan_packet(b"$OK#9A", 4096), Ok(PacketScan::Packet { body_end: 3 }));
    assert_eq!(scan_packet(b"$\n#+a", 4096), Ok(PacketScan::Packet { body_end: 2 }));
    assert_eq!(PacketScan::Packet { body_end: 3 }.consumed(), 6);
    assert_eq!(PacketScan::Ack.consumed(), 1);
    assert_eq!(PacketScan::Incomplete.consumed(), 0);
}

#[test]
fn a_framed_packet_scans_back_to_its_body() {
    for body in [&b"qSupported:multiprocess+"[..], b"", b"m1000,4", "ñ".as_bytes()] {
        let framed = frame_packet(body);
        let scan = scan_packet(&framed, 4096).unwrap();
        assert_eq!(scan, PacketScan::Packet { body_end: body.len() + 1 });
        assert_eq!(scan.consumed(), framed.len());
        assert_eq!(&framed[1..body.len() + 1], body);
    }
}

#[test]
fn parsing_requests() {
    assert!(matches!(parse_command(b""), Some(GdbCommand::Ignore)));
    assert!(matches!(parse_command(b"?"), Some(GdbCommand::QueryHaltReason)));
    assert!(matches!(parse_command(b"g"), Some(GdbCommand::ReadRegisters)));
    assert!(matches!(parse_command(b"p19"), Some(GdbCommand::ReadRegister { num: 25 })));
    assert!(parse_command(b"pzz").is_none());
    assert!(matches!(
        parse_command(b"P0=01020304"),
        Some(GdbCommand::WriteRegister { num: 0, value: Some(0x0403_0201) })
    ));
    assert!(matches!(parse_command(b"P1a=zz"), Some(GdbCommand::WriteRegister { num: 26, value: None })));
    assert!(parse_command(b"P0=zz").is_none());
    assert!(parse_command(b"P0").is_none());
    assert!(matches!(parse_command(b"m1000,4"), Some(GdbCommand::ReadMemory { addr: 0x1000, length: 4 })));
    assert!(parse_command(b"m1000").is_none());
    match parse_command(b"M1000,2:abzz") {
        Some(GdbCommand::WriteMemory { addr: 0x1000, length: 2, data }) => assert_eq!(data, b"abzz".to_vec()),
        _ => panic!("expected a memory write"),
    }
    assert!(parse_command(b"M1000,2:abc").is_none());
    assert!(parse_command(b"M1000:ab").is_none());
    assert!(matches!(parse_command(b"c"), Some(GdbCommand::Resume { step: false, address: None })));
    assert!(matches!(parse_command(b"s100"), Some(GdbCommand::Resume { step: true, address: Some(0x100) })));
    assert!(matches!(parse_command(b"cxyz"), Some(GdbCommand::Resume { step: false, address: None })));
    assert!(matches!(
        parse_command(b"C05;2000"),
        Some(GdbCommand::Resume { step: false, address: Some(0x2000) })
    ));
    assert!(matches!(parse_command(b"S05"), Some(GdbCommand::Resume { step: true, address: None })));
    assert!(matches!(parse_command(b"k"), Some(GdbCommand::Kill)));
    assert!(matches!(parse_command(b"qAttached"), Some(GdbCommand::QueryAttached)));
    assert!(matches!(parse_command(b"qSupported"), Some(GdbCommand::QuerySupported)));
    assert!(matches!(parse_command(b"qSupported:xmlRegisters=arm"), Some(GdbCommand::QuerySupported)));
    assert!(matches!(parse_command(b"qSupportedX"), Some(GdbCommand::Unsupported)));
    assert!(matches!(
        parse_command(b"qXfer:features:read:target.xml:0,fff"),
        Some(GdbCommand::ReadFeatures { target_xml: true, offset: 0, length: 0xfff })
    ));
    assert!(matches!(
        parse_command(b"qXfer:features:read:other.xml:10,20"),
        Some(GdbCommand::ReadFeatures { target_xml: false, offset: 0x10, length: 0x20 })
    ));
    assert!(parse_command(b"qXfer:features:read:target.xml").is_none());
    assert!(matches!(parse_command(b"vCont?"), Some(GdbCommand::Unsupported)));
}

#[test]
fn write_registers_needs_sixteen_hex_words() {
    let mut data = b"G".to_vec();
    for i in 0..16u32 {
        data.extend_from_slice(format!("{:08x}", i << 24).as_bytes());
    }
    match parse_command(&data) {
        Some(GdbCommand::WriteRegisters { values }) => {
            assert_eq!(values, (0..16u32).collect::<Vec<_>>());
        }
        _ => panic!("expected a register write"),
    }
    assert!(parse_command(&data[..data.len() - 1]).is_none());
    let mut bad = data.clone();
    bad[5] = b'x';
    assert!(parse_command(&bad).is_none());
}

#[test]
fn stop_notifications() {
    let mut server = GdbServer::new();
    assert_eq!(server.architecture(), ArmArchitecture::Armv6);
    assert_eq!(server.halt_notification(None), None);
    assert_eq!(server.halt_notification(None), Some(b"S05".to_vec()));
    assert_eq!(server.halt_notification(Some(StopReason::Breakpoint)), Some(b"S05".to_vec()));
    assert_eq!(server.halt_notification(Some(StopReason::UndefinedInstruction)), Some(b"S05".to_vec()));
    assert_eq!(server.halt_notification(Some(StopReason::MemoryError)), Some(b"S0b".to_vec()));
    let mut fresh = GdbServer::new_with_architecture(ArmArchitecture::Armv7);
    assert_eq!(fresh.halt_notification(Some(StopReason::MemoryError)), Some(b"S0b".to_vec()));
    assert_eq!(fresh.halt_notification(None), None);
    assert_eq!(fresh.halt_notification(None), Some(b"S05".to_vec()));
}

#[test]
fn register_replies() {
    let server = GdbServer::new();
    let (_, reply) = reply_of(&server, b"?", None);
    assert_eq!(text(reply), "S00");
    let (_, reply) = reply_of(&server, b"g", None);
    let all = text(reply);
    assert_eq!(all.len(), 128);
    assert!(all.starts_with("78563412"));
    assert_eq!(text(reply_of(&server, b"p0", None).1), "78563412");
    assert_eq!(text(reply_of(&server, b"p19", None).1), "10000060");
    assert_eq!(text(reply_of(&server, b"p10", None).1), "00000000");
    assert_eq!(text(reply_of(&server, b"p18", None).1), "00000000");
    assert_eq!(text(reply_of(&server, b"p1a", None).1), "0000000000000000");
    assert_eq!(text(reply_of(&server, b"p39", None).1), "0000000000000000");
    assert_eq!(text(reply_of(&server, b"p3a", None).1), "00000000");
    assert_eq!(text(reply_of(&server, b"p3b", None).1), "E00");
}

#[test]
fn register_writes() {
    let server = GdbServer::new();
    let (effect, reply) = reply_of(&server, b"P2=78563412", None);
    assert!(matches!(effect, GdbEffect::SetRegister { num: 2, value: 0x1234_5678 }));
    assert_eq!(text(reply), "OK");
    let (effect, reply) = reply_of(&server, b"P19=10000060", None);
    assert!(matches!(effect, GdbEffect::SetCpsr { value: 0x6000_0010 }));
    assert_eq!(text(reply), "OK");
    let (effect, reply) = reply_of(&server, b"P1a=whatever", None);
    assert!(matches!(effect, GdbEffect::Nothing));
    assert_eq!(text(reply), "OK");
    let (effect, reply) = reply_of(&server, b"P3b=0", None);
    assert!(matches!(effect, GdbEffect::Nothing));
    assert_eq!(text(reply), "E00");
}

#[test]
fn read_registers_then_write_them_back() {
    let server = GdbServer::new();
    let (_, reply) = reply_of(&server, b"g", None);
    let mut packet = b"G".to_vec();
    packet.extend(reply.unwrap());
    let (effect, reply) = reply_of(&server, &packet, None);
    match effect {
        GdbEffect::SetRegisters { values } => assert_eq!(values, regs().regs.to_vec()),
        _ => panic!("expected a register write"),
    }
    assert_eq!(text(reply), "OK");
}

#[test]
fn memory_requests() {
    let server = GdbServer::new();
    let (effect, reply) = reply_of(&server, b"m2000,3", None);
    assert!(matches!(effect, GdbEffect::ReadMemory { addr: 0x2000, length: 3 }));
    assert!(reply.is_none());
    assert_eq!(memory_read_reply(Some(&[0xde, 0xad, 0x01])), b"dead01".to_vec());
    assert_eq!(memory_read_reply(Some(&[])), Vec::<u8>::new());
    assert_eq!(memory_read_reply(None), b"E00".to_vec());
    let (effect, reply) = reply_of(&server, b"M2000,2:+f0A", None);
    match effect {
        GdbEffect::WriteMemory { addr: 0x2000, length: 2, data } => {
            assert_eq!(decode_memory_data(&data), Some(vec![0x0f, 0x0a]));
        }
        _ => panic!("expected a memory write"),
    }
    assert!(reply.is_none());
    assert_eq!(decode_memory_data(b"zz"), None);
    assert_eq!(decode_memory_data(b"abc"), None);
    assert_eq!(decode_memory_data(b""), Some(vec![]));
    assert_eq!(memory_write_reply(true), b"OK".to_vec());
    assert_eq!(memory_write_reply(false), b"E00".to_vec());
}

#[test]
fn read_memory_then_write_it_back() {
    let bytes = [0u8, 1, 0x7f, 0x80, 0xfe, 0xff];
    let text = memory_read_reply(Some(&bytes));
    assert_eq!(decode_memory_data(&text), Some(bytes.to_vec()));
}

#[test]
fn resume_and_kill() {
    let server = GdbServer::new();
    let (effect, reply) = reply_of(&server, b"c", None);
    assert!(matches!(effect, GdbEffect::Resume { step: false, branch_to: None }));
    assert!(reply.is_none());
    let (effect, _) = reply_of(&server, b"s1001", Some(StopReason::Breakpoint));
    assert!(matches!(effect, GdbEffect::Resume { step: true, branch_to: Some(0x1001) }));
    let (effect, _) = reply_of(&server, b"C0b;", None);
    assert!(matches!(effect, GdbEffect::Resume { step: false, branch_to: None }));
    let (effect, _) = reply_of(&server, b"k", None);
    assert!(matches!(effect, GdbEffect::Kill));
}

#[test]
fn queries() {
    let server = GdbServer::new();
    assert_eq!(text(reply_of(&server, b"qAttached", None).1), "0");
    assert_eq!(text(reply_of(&server, b"qSupported:multiprocess+", None).1), "qXfer:features:read+");
    assert_eq!(text(reply_of(&server, b"qTStatus", None).1), "");
    let (effect, reply) = reply_of(&server, b"", None);
    assert!(matches!(effect, GdbEffect::Nothing));
    assert!(reply.is_none());
}

#[test]
fn target_description() {
    assert_eq!(
        target_xml(ArmArchitecture::Armv7),
        "\n<target version=\"1.0\">\n    <architecture>armv7</architecture>\n    <osabi>Darwin</osabi>\n</target>\n"
    );
    assert_eq!(ArmArchitecture::Armv6.gdb_name(), "armv6");
    let xml = target_xml(ArmArchitecture::Armv6);
    let server = GdbServer::new();
    assert_eq!(text(reply_of(&server, b"qXfer:features:read:target.xml:0,1000", None).1), format!("l{xml}"));
    assert_eq!(text(reply_of(&server, b"qXfer:features:read:target.xml:0,5", None).1), "m\n<tar");
    assert_eq!(text(reply_of(&server, b"qXfer:features:read:target.xml:5,5", None).1), "mget v");
    let end = format!("qXfer:features:read:target.xml:{:x},10", xml.len());
    assert_eq!(text(reply_of(&server, end.as_bytes(), None).1), "l");
    let past = format!("qXfer:features:read:target.xml:{:x},10", xml.len() + 1);
    assert_eq!(text(reply_of(&server, past.as_bytes(), None).1), "E00");
    let exact = format!("qXfer:features:read:target.xml:0,{:x}", xml.len());
    assert_eq!(text(reply_of(&server, exact.as_bytes(), None).1), format!("m{xml}"));
    assert_eq!(text(reply_of(&server, b"qXfer:features:read:arm.xml:0,10", None).1), "E00");
}

#[test]
fn target_description_read_in_chunks() {
    let server = GdbServer::new_with_architecture(ArmArchitecture::Armv7);
    let mut offset = 0usize;
    let mut document = String::new();
    loop {
        let request = format!("qXfer:features:read:target.xml:{offset:x},7");
        let reply = text(reply_of(&server, request.as_bytes(), None).1);
        document.push_str(&reply[1..]);
        offset += reply.len() - 1;
        if reply.starts_with('l') {
            break;
        }
        assert!(reply.starts_with('m'));
    }
    assert_eq!(document, target_xml(ArmArchitecture::Armv7));
}

#[test]
fn read_one_register_then_write_it_back() {
    let server = GdbServer::new();
    for num in 0..16usize {
        let (_, reply) = reply_of(&server, format!("p{num:x}").as_bytes(), None);
        let mut packet = format!("P{num:x}=").into_bytes();
        packet.extend(reply.unwrap());
        let (effect, _) = reply_of(&server, &packet, None);
        match effect {
            GdbEffect::SetRegister { num: n, value } => {
                assert_eq!(n, num);
                assert_eq!(value, regs().regs[num]);
            }
            _ => panic!("expected a register write"),
        }
    }
}

#[test]
fn utf8_validation_agrees_with_std() {
    let cases: [&[u8]; 16] = [
        b"",
        b"plain ascii",
        "ñandú €uro 𝄞".as_bytes(),
        b"\xc3",
        b"\xc0\xaf",
        b"\xe0\x80\xaf",
        b"\xed\xa0\x80",
        b"\xed\x9f\xbf",
        b"\xef\xbf\xbf",
        b"\xf4\x8f\xbf\xbf",
        b"\xf4\x90\x80\x80",
        b"\xf0\x8f\xbf\xbf",
        b"\x80",
        b"\xf8\x88\x80\x80\x80",
        b"a\xe2\x82",
        b"\xe2\x82\xacz",
    ];
    for case in cases {
        assert_eq!(is_utf8(case), std::str::from_utf8(case).is_ok(), "{case:?}");
    }
}

#[test]
fn write_registers_then_read_them() {
    let server = GdbServer::new();
    let words = [
        "78563412", "efcdab90", "01234567", "89abcdef", "00000000", "ffffffff", "10000000", "00000001",
        "11223344", "55667788", "99aabbcc", "ddeeff00", "0a0b0c0d", "deadbeef", "c0ffee00", "12345678",
    ];
    let data: String = words.concat();
    assert_eq!(data.len(), 128);
    let mut packet = b"G".to_vec();
    packet.extend_from_slice(data.as_bytes());
    let (effect, reply) = reply_of(&server, &packet, None);
    assert_eq!(text(reply), "OK");
    let values = match effect {
        GdbEffect::SetRegisters { values } => values,
        _ => panic!("expected a register write"),
    };
    assert_eq!(values[0], 0x1234_5678);
    assert_eq!(values[2], 0x6745_2301);
    let mut after = [0u32; 16];
    after.copy_from_slice(&values);
    let target = CpuRegisters { regs: after, cpsr: 0 };
    let cmd = parse_command(b"g").unwrap();
    let r = server.handle_command(cmd, None, &target);
    assert_eq!(text(r.reply), data);
}

#[test]
fn write_memory_then_read_it() {
    let server = GdbServer::new();
    let (effect, _) = reply_of(&server, b"M3000,4:00ff7a10", None);
    let data = match effect {
        GdbEffect::WriteMemory { addr: 0x3000, length: 4, data } => data,
        _ => panic!("expected a memory write"),
    };
    let bytes = decode_memory_data(&data).unwrap();
    assert_eq!(bytes, vec![0x00, 0xff, 0x7a, 0x10]);
    assert_eq!(memory_read_reply(Some(&bytes)), b"00ff7a10".to_vec());
}

#[test]
fn a_framed_packet_is_read_before_queued_ones() {
    let mut buf = frame_packet(b"m2000,4");
    let first_len = buf.len();
    buf.extend(frame_packet(b"g"));
    match scan_packet(&buf, 4096) {
        Ok(scan) => {
            assert_eq!(scan, PacketScan::Packet { body_end: 8 });
            assert_eq!(scan.consumed(), first_len);
            assert_eq!(&buf[1..8], b"m2000,4");
            assert_eq!(scan_packet(&buf[scan.consumed()..], 4096), Ok(PacketScan::Packet { body_end: 2 }));
        }
        Err(e) => panic!("unexpected {:?}", e),
    }
}
