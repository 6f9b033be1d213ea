use dns_wire::{AnswerSection, Message, Parser, QuerySection, RData};

fn name(labels: &[&str]) -> Vec<Vec<u8>> {
    labels.iter().map(|l| l.as_bytes().to_vec()).collect()
}

fn text(b: Vec<u8>) -> String {
    String::from_utf8(b).unwrap()
}

#[test]
fn address_renders_dotted_decimal() {
    assert_eq!(text(RData::Ipv4(vec![192, 168, 1, 5]).render()), "192.168.1.5");
    assert_eq!(text(RData::Ipv4(vec![0, 10, 100, 255]).render()), "0.10.100.255");
}

#[test]
fn cname_renders_dotted_labels() {
    assert_eq!(text(RData::Cname(name(&["www", "example", "com"])).render()), "www.example.com");
    assert_eq!(text(RData::Cname(vec![]).render()), "");
}

#[test]
fn unknown_data_renders_hex() {
    assert_eq!(text(RData::Unknown(vec![0xde, 0x0f, 0x00]).render()), "[de 0f 00]");
    assert_eq!(text(RData::Unknown(vec![]).render()), "[]");
}

#[test]
fn question_renders_name_type_class() {
    let q = QuerySection { qname: name(&["www"]), qtype: 1, qclass: 1 };
    assert_eq!(text(q.render()), "www: type 1, class 1");
    let q = QuerySection { qname: vec![], qtype: 65535, qclass: 0 };
    assert_eq!(text(q.render()), ": type 65535, class 0");
}

#[test]
fn record_renders_with_data() {
    let r = AnswerSection {
        aname: name(&["a", "b"]),
        atype: 1,
        aclass: 1,
        ttl: 60,
        rdata: RData::Ipv4(vec![10, 0, 0, 1]),
    };
    assert_eq!(text(r.render()), "a.b: type 1, class 1, rdata 10.0.0.1");
}

#[test]
fn message_renders_one_line_per_record() {
    let m = Message {
        id: 1,
        head: 0x8180,
        query_sections: vec![QuerySection { qname: name(&["x"]), qtype: 1, qclass: 1 }],
        answer_sections: vec![AnswerSection {
            aname: name(&["x"]),
            atype: 5,
            aclass: 1,
            ttl: 1,
            rdata: RData::Cname(name(&["y", "z"])),
        }],
        authority_sections: vec![AnswerSection {
            aname: name(&["z"]),
            atype: 2,
            aclass: 1,
            ttl: 1,
            rdata: RData::Unknown(vec![1, 0xab]),
        }],
        additional_information_sections: vec![AnswerSection {
            aname: name(&["y", "z"]),
            atype: 1,
            aclass: 1,
            ttl: 1,
            rdata: RData::Ipv4(vec![1, 2, 3, 4]),
        }],
    };
    assert_eq!(
        text(m.render()),
        "Query      | x: type 1, class 1\n\
         Answer     | x: type 5, class 1, rdata y.z\n\
         Authority  | z: type 2, class 1, rdata [01 ab]\n\
         Additi info| y.z: type 1, class 1, rdata 1.2.3.4\n"
    );
}

#[test]
fn decoded_query_renders() {
    let mut b = vec![0x00, 0x01, 0x01, 0x00, 0x00, 0x01, 0x00, 0x00, 0x00, 0x00, 0x00, 0x00];
    b.extend_from_slice(&[0x03, b'w', b'w', b'w', 0x00, 0x00, 0x01, 0x00, 0x01]);
    let m = Parser::new(b).parse().unwrap();
    assert_eq!(text(m.render()), "Query      | www: type 1, class 1\n");
}
