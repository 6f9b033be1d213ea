use dns_wire::{AnswerSection, DnsError, Message, Parser, QuerySection, RData, Serializer};

fn name(labels: &[&str]) -> Vec<Vec<u8>> {
    labels.iter().map(|l| l.as_bytes().to_vec()).collect()
}

fn decode(bytes: &[u8]) -> Result<Message, DnsError> {
    Parser::new(bytes.to_vec()).parse()
}

fn encode(m: Message) -> Result<Vec<u8>, DnsError> {
    Serializer::new().serialize(m)
}

fn query_bytes() -> Vec<u8> {
    let mut b = vec![0x00, 0x01, 0x01, 0x00, 0x00, 0x01, 0x00, 0x00, 0x00, 0x00, 0x00, 0x00];
    b.extend_from_slice(&[0x03, b'w', b'w', b'w', 0x00, 0x00, 0x01, 0x00, 0x01]);
    b
}

fn sample_message() -> Message {
    Message {
        id: 0xBEEF,
        head: 0x8180,
        query_sections: vec![QuerySection { qname: name(&["example", "com"]), qtype: 1, qclass: 1 }],
        answer_sections: vec![
            AnswerSection {
                aname: name(&["www", "example", "com"]),
                atype: 5,
                aclass: 1,
                ttl: 300,
                rdata: RData::Cname(name(&["example", "com"])),
            },
            AnswerSection {
                aname: name(&["example", "com"]),
                atype: 1,
                aclass: 1,
                ttl: 3600,
                rdata: RData::Ipv4(vec![93, 184, 216, 34]),
            },
        ],
        authority_sections: vec![AnswerSection {
            aname: name(&["com"]),
            atype: 2,
            aclass: 1,
            ttl: 0xFFFF_FFFF,
            rdata: RData::Unknown(vec![1, 2, 3]),
        }],
        additional_information_sections: vec![],
    }
}

fn same_rdata(a: &RData, b: &RData) -> bool {
    match (a, b) {
        (RData::Cname(x), RData::Cname(y)) => x == y,
        (RData::Ipv4(x), RData::Ipv4(y)) => x == y,
        (RData::Unknown(x), RData::Unknown(y)) => x == y,
        _ => false,
    }
}

fn same_records(a: &[AnswerSection], b: &[AnswerSection]) -> bool {
    a.len() == b.len()
        && a.iter().zip(b.iter()).all(|(x, y)| {
            x.aname == y.aname
                && x.atype == y.atype
                && x.aclass == y.aclass
                && x.ttl == y.ttl
                && same_rdata(&x.rdata, &y.rdata)
        })
}

fn same_message(a: &Message, b: &Message) -> bool {
    a.id == b.id
        && a.head == b.head
        && a.query_sections.len() == b.query_sections.len()
        && a.query_sections.iter().zip(b.query_sections.iter()).all(|(x, y)| {
            x.qname == y.qname && x.qtype == y.qtype && x.qclass == y.qclass
        })
        && same_records(&a.answer_sections, &b.answer_sections)
        && same_records(&a.authority_sections, &b.authority_sections)
        && same_records(&a.additional_information_sections, &b.additional_information_sections)
}

#[test]
fn decodes_simple_query() {
    let m = decode(&query_bytes()).unwrap();
    assert_eq!(m.id, 1);
    assert_eq!(m.head, 0x0100);
    assert!(m.is_query());
    assert_eq!(m.query_sections.len(), 1);
    assert_eq!(m.query_sections[0].qname, name(&["www"]));
    assert_eq!(m.query_sections[0].qtype, 1);
    assert_eq!(m.query_sections[0].qclass, 1);
    assert!(m.answer_sections.is_empty());
    assert!(m.authority_sections.is_empty());
    assert!(m.additional_information_sections.is_empty());
}

#[test]
fn appended_answer_is_counted_and_encoded() {
    let mut m = decode(&query_bytes()).unwrap();
    let qname = m.query_sections[0].qname.clone();
    m.head |= 0x8000;
    m.answer_sections.push(AnswerSection {
        aname: qname,
        atype: 1,
        aclass: 1,
        ttl: 3600,
        rdata: RData::Ipv4(vec![0xC0, 0xA8, 0x01, 0x05]),
    });
    let out = encode(m).unwrap();
    assert_eq!(u16::from_be_bytes([out[6], out[7]]), 1);
    let tail = &out[out.len() - 4..];
    assert_eq!(RData::Ipv4(tail.to_vec()).render(), b"192.168.1.5".to_vec());
    assert_eq!(u16::from_be_bytes([out[out.len() - 6], out[out.len() - 5]]), 4);
    let back = decode(&out).unwrap();
    assert!(!back.is_query());
    assert_eq!(back.answer_sections[0].ttl, 3600);
}

#[test]
fn compressed_name_is_followed() {
    let mut b = vec![0x00, 0x02, 0x01, 0x00, 0x00, 0x02, 0x00, 0x00, 0x00, 0x00, 0x00, 0x00];
    // at offset 12: com. type 1 class 1
    b.extend_from_slice(&[0x03, b'c', b'o', b'm', 0x00, 0x00, 0x01, 0x00, 0x01]);
    // foo + pointer to offset 12, type 1 class 1
    b.extend_from_slice(&[0x03, b'f', b'o', b'o', 0xC0, 0x0C, 0x00, 0x01, 0x00, 0x01]);
    let m = decode(&b).unwrap();
    assert_eq!(m.query_sections[0].qname, name(&["com"]));
    assert_eq!(m.query_sections[1].qname, name(&["foo", "com"]));
    assert_eq!(m.query_sections[1].qtype, 1);
}

#[test]
fn pointer_and_spelled_out_names_agree() {
    let mut spelled = vec![0, 3, 0, 0, 0, 2, 0, 0, 0, 0, 0, 0];
    spelled.extend_from_slice(&[3, b'a', b'b', b'c', 2, b'd', b'e', 0, 0, 1, 0, 1]);
    spelled.extend_from_slice(&[3, b'a', b'b', b'c', 2, b'd', b'e', 0, 0, 1, 0, 1]);
    let mut pointed = vec![0, 3, 0, 0, 0, 2, 0, 0, 0, 0, 0, 0];
    pointed.extend_from_slice(&[3, b'a', b'b', b'c', 2, b'd', b'e', 0, 0, 1, 0, 1]);
    pointed.extend_from_slice(&[0xC0, 12, 0, 1, 0, 1]);
    let a = decode(&spelled).unwrap();
    let b = decode(&pointed).unwrap();
    assert_eq!(a.query_sections[1].qname, b.query_sections[1].qname);
    assert_eq!(b.query_sections[1].qname, name(&["abc", "de"]));
}

#[test]
fn self_pointer_is_malformed() {
    let mut b = vec![0, 1, 0, 0, 0, 1, 0, 0, 0, 0, 0, 0];
    b.extend_from_slice(&[0xC0, 12, 0, 1, 0, 1]);
    assert_eq!(decode(&b).err(), Some(DnsError::MalformedMessage));
}

#[test]
fn pointer_cycle_is_malformed() {
    let mut b = vec![0, 1, 0, 0, 0, 1, 0, 0, 0, 0, 0, 0];
    // offset 12: label "a" then pointer to 17; offset 17: pointer back to 12
    b.extend_from_slice(&[1, b'a', 0xC0, 17, 0, 0xC0, 12]);
    assert_eq!(decode(&b).err(), Some(DnsError::MalformedMessage));
}

#[test]
fn pointer_past_end_is_malformed() {
    let mut b = vec![0, 1, 0, 0, 0, 1, 0, 0, 0, 0, 0, 0];
    b.extend_from_slice(&[0xC0, 0xFF, 0, 1, 0, 1]);
    assert_eq!(decode(&b).err(), Some(DnsError::MalformedMessage));
}

#[test]
fn every_truncation_is_malformed() {
    let full = encode(sample_message()).unwrap();
    assert!(decode(&full).is_ok());
    for k in 0..full.len() {
        assert_eq!(decode(&full[..k]).err(), Some(DnsError::MalformedMessage), "prefix {}", k);
    }
}

#[test]
fn short_header_is_malformed() {
    assert_eq!(decode(&[]).err(), Some(DnsError::MalformedMessage));
    assert_eq!(decode(&[0, 1, 1, 0, 0]).err(), Some(DnsError::MalformedMessage));
}

#[test]
fn count_beyond_records_is_malformed() {
    let mut b = query_bytes();
    b[5] = 2;
    assert_eq!(decode(&b).err(), Some(DnsError::MalformedMessage));
}

#[test]
fn round_trip_keeps_message() {
    let m = sample_message();
    let out = encode(sample_message()).unwrap();
    let back = decode(&out).unwrap();
    assert!(same_message(&m, &back));
    assert_eq!(encode(back).unwrap(), out);
}

#[test]
fn encoded_header_holds_section_lengths() {
    let out = encode(sample_message()).unwrap();
    assert_eq!(&out[0..12], &[0xBE, 0xEF, 0x81, 0x80, 0, 1, 0, 2, 0, 1, 0, 0]);
}

#[test]
fn encodes_name_in_full() {
    let m = Message {
        id: 7,
        head: 0,
        query_sections: vec![QuerySection { qname: name(&["ab", "c"]), qtype: 28, qclass: 1 }],
        answer_sections: vec![],
        authority_sections: vec![],
        additional_information_sections: vec![],
    };
    let out = encode(m).unwrap();
    assert_eq!(
        out,
        vec![0, 7, 0, 0, 0, 1, 0, 0, 0, 0, 0, 0, 2, b'a', b'b', 1, b'c', 0, 0, 28, 0, 1]
    );
}

#[test]
fn encodes_record_fields_big_endian() {
    let m = Message {
        id: 0x1234,
        head: 0x8400,
        query_sections: vec![],
        answer_sections: vec![AnswerSection {
            aname: vec![],
            atype: 0x00FF,
            aclass: 0x0102,
            ttl: 0x01020304,
            rdata: RData::Unknown(vec![9, 8]),
        }],
        authority_sections: vec![],
        additional_information_sections: vec![],
    };
    let out = encode(m).unwrap();
    assert_eq!(
        out,
        vec![0x12, 0x34, 0x84, 0, 0, 0, 0, 1, 0, 0, 0, 0, 0, 0, 0xFF, 1, 2, 1, 2, 3, 4, 0, 2, 9, 8]
    );
}

#[test]
fn cname_data_length_is_derived() {
    let m = Message {
        id: 1,
        head: 0x8000,
        query_sections: vec![],
        answer_sections: vec![AnswerSection {
            aname: name(&["a"]),
            atype: 5,
            aclass: 1,
            ttl: 1,
            rdata: RData::Cname(name(&["bc", "d"])),
        }],
        authority_sections: vec![],
        additional_information_sections: vec![],
    };
    let out = encode(m).unwrap();
    // name(3) type(2) class(2) ttl(4) then the length
    assert_eq!(u16::from_be_bytes([out[23], out[24]]), 6);
    assert_eq!(&out[25..], &[2, b'b', b'c', 1, b'd', 0]);
}

#[test]
fn cname_with_pointer_is_followed() {
    let mut b = vec![0, 1, 0x81, 0x80, 0, 1, 0, 1, 0, 0, 0, 0];
    b.extend_from_slice(&[3, b'w', b'w', b'w', 1, b'x', 0, 0, 5, 0, 1]);
    // answer: name -> 12, type 5, class 1, ttl 60, rdlength 2, data: pointer -> 16
    b.extend_from_slice(&[0xC0, 12, 0, 5, 0, 1, 0, 0, 0, 60, 0, 2, 0xC0, 16]);
    let m = decode(&b).unwrap();
    let a = &m.answer_sections[0];
    assert_eq!(a.aname, name(&["www", "x"]));
    assert_eq!(a.ttl, 60);
    match &a.rdata {
        RData::Cname(n) => assert_eq!(n, &name(&["x"])),
        _ => panic!("expected a CNAME"),
    }
}

#[test]
fn unknown_type_passes_through() {
    let mut b = vec![0, 1, 0x81, 0x80, 0, 0, 0, 0, 0, 0, 0, 1];
    b.extend_from_slice(&[0, 0, 16, 0, 1, 0, 0, 0, 5, 0, 3, 2, b'h', b'i']);
    let m = decode(&b).unwrap();
    let r = &m.additional_information_sections[0];
    assert_eq!(r.atype, 16);
    assert!(matches!(&r.rdata, RData::Unknown(d) if d == &vec![2, b'h', b'i']));
    assert_eq!(encode(m).unwrap(), b);
}

#[test]
fn short_a_record_is_kept() {
    let mut b = vec![0, 1, 0x81, 0x80, 0, 0, 0, 1, 0, 0, 0, 0];
    b.extend_from_slice(&[0, 0, 1, 0, 1, 0, 0, 0, 5, 0, 2, 10, 0]);
    let m = decode(&b).unwrap();
    assert!(matches!(&m.answer_sections[0].rdata, RData::Ipv4(d) if d == &vec![10, 0]));
}

#[test]
fn rdata_past_end_is_malformed() {
    let mut b = vec![0, 1, 0x81, 0x80, 0, 0, 0, 1, 0, 0, 0, 0];
    b.extend_from_slice(&[0, 0, 1, 0, 1, 0, 0, 0, 5, 0, 4, 10, 0]);
    assert_eq!(decode(&b).err(), Some(DnsError::MalformedMessage));
}

#[test]
fn long_label_is_invalid_name() {
    let m = Message {
        id: 1,
        head: 0,
        query_sections: vec![QuerySection { qname: vec![vec![b'a'; 256]], qtype: 1, qclass: 1 }],
        answer_sections: vec![],
        authority_sections: vec![],
        additional_information_sections: vec![],
    };
    assert_eq!(encode(m).err(), Some(DnsError::InvalidName));
}

#[test]
fn label_of_255_bytes_is_encoded() {
    let m = Message {
        id: 1,
        head: 0,
        query_sections: vec![QuerySection { qname: vec![vec![b'a'; 255]], qtype: 1, qclass: 1 }],
        answer_sections: vec![],
        authority_sections: vec![],
        additional_information_sections: vec![],
    };
    let out = encode(m).unwrap();
    assert_eq!(out[12], 255);
    assert_eq!(out.len(), 12 + 1 + 255 + 1 + 4);
}

#[test]
fn long_cname_label_is_invalid_name() {
    let m = Message {
        id: 1,
        head: 0,
        query_sections: vec![],
        answer_sections: vec![AnswerSection {
            aname: vec![],
            atype: 5,
            aclass: 1,
            ttl: 1,
            rdata: RData::Cname(vec![vec![0u8; 300]]),
        }],
        authority_sections: vec![],
        additional_information_sections: vec![],
    };
    assert_eq!(encode(m).err(), Some(DnsError::InvalidName));
}

#[test]
fn oversized_rdata_is_refused() {
    let m = Message {
        id: 1,
        head: 0,
        query_sections: vec![],
        answer_sections: vec![AnswerSection {
            aname: vec![],
            atype: 99,
            aclass: 1,
            ttl: 1,
            rdata: RData::Unknown(vec![0u8; 65536]),
        }],
        authority_sections: vec![],
        additional_information_sections: vec![],
    };
    assert_eq!(encode(m).err(), Some(DnsError::Oversized));
}

#[test]
fn is_query_reads_top_bit() {
    let mut m = decode(&query_bytes()).unwrap();
    assert!(m.is_query());
    m.head = 0x0080;
    assert!(m.is_query());
    m.head = 0x8000;
    assert!(!m.is_query());
}

#[test]
fn root_name_decodes_empty() {
    let mut b = vec![0, 1, 0, 0, 0, 1, 0, 0, 0, 0, 0, 0];
    b.extend_from_slice(&[0, 0, 2, 0, 1]);
    let m = decode(&b).unwrap();
    assert!(m.query_sections[0].qname.is_empty());
    assert_eq!(m.query_sections[0].qtype, 2);
}
