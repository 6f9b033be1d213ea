use vstd::prelude::*;
use crate::message::{
    labels_view, records_view, AnswerSection, DnsError, Message, MessageModel, QuerySection,
    QuestionModel, RData, RDataModel, RecordModel,
};

verus! {

/// A 16-bit value in network byte order.
pub open spec fn be16(v: u16) -> Seq<u8> {
    seq![(v / 256) as u8, (v % 256) as u8]
}

/// A 32-bit value in network byte order.
pub open spec fn be32(v: u32) -> Seq<u8> {
    seq![(v / 16777216) as u8, ((v / 65536) % 256) as u8, ((v / 256) % 256) as u8, (v % 256) as u8]
}

/// One label on the wire: its length byte, then its bytes.
pub open spec fn label_bytes(l: Seq<u8>) -> Seq<u8> {
    seq![l.len() as u8] + l
}

/// A name on the wire, spelled out in full: each label, then the zero terminator.
pub open spec fn name_bytes(n: Seq<Seq<u8>>) -> Seq<u8> {
    n.map_values(|l: Seq<u8>| label_bytes(l)).flatten() + seq![0u8]
}

/// Every label's length can be stated in its length byte.
pub open spec fn labels_fit(n: Seq<Seq<u8>>) -> bool {
    forall|i: int| 0 <= i < n.len() ==> #[trigger] n[i].len() <= 255
}

pub open spec fn rdata_bytes(r: RDataModel) -> Seq<u8> {
    match r {
        RDataModel::Cname(n) => name_bytes(n),
        RDataModel::Ipv4(b) => b,
        RDataModel::Unknown(b) => b,
    }
}

pub open spec fn rdata_names_fit(r: RDataModel) -> bool {
    match r {
        RDataModel::Cname(n) => labels_fit(n),
        _ => true,
    }
}

pub open spec fn question_bytes(q: QuestionModel) -> Seq<u8> {
    name_bytes(q.qname) + be16(q.qtype) + be16(q.qclass)
}

/// A resource record on the wire; its data length is that of the encoded data.
pub open spec fn record_bytes(r: RecordModel) -> Seq<u8> {
    name_bytes(r.aname) + be16(r.atype) + be16(r.aclass) + be32(r.ttl) + be16(
        rdata_bytes(r.rdata).len() as u16,
    ) + rdata_bytes(r.rdata)
}

pub open spec fn questions_bytes(qs: Seq<QuestionModel>) -> Seq<u8> {
    qs.map_values(|q: QuestionModel| question_bytes(q)).flatten()
}

pub open spec fn records_bytes(rs: Seq<RecordModel>) -> Seq<u8> {
    rs.map_values(|r: RecordModel| record_bytes(r)).flatten()
}

/// The encoded message: the header, whose counts are the section lengths, then the sections.
pub open spec fn message_bytes(m: MessageModel) -> Seq<u8> {
    be16(m.id) + be16(m.head) + be16(m.questions.len() as u16) + be16(m.answers.len() as u16)
        + be16(m.authority.len() as u16) + be16(m.additional.len() as u16) + questions_bytes(
        m.questions,
    ) + records_bytes(m.answers) + records_bytes(m.authority) + records_bytes(m.additional)
}

pub open spec fn record_names_fit(r: RecordModel) -> bool {
    labels_fit(r.aname) && rdata_names_fit(r.rdata)
}

pub open spec fn records_names_fit(rs: Seq<RecordModel>) -> bool {
    forall|i: int| 0 <= i < rs.len() ==> #[trigger] record_names_fit(rs[i])
}

pub open spec fn records_data_fit(rs: Seq<RecordModel>) -> bool {
    forall|i: int| 0 <= i < rs.len() ==> #[trigger] rdata_bytes(rs[i].rdata).len() <= 65535
}

pub open spec fn records_sizes_fit(rs: Seq<RecordModel>) -> bool {
    rs.len() <= 65535 && records_data_fit(rs)
}

/// Every label of every name in the message can be encoded.
pub open spec fn names_fit(m: MessageModel) -> bool {
    &&& forall|i: int| 0 <= i < m.questions.len() ==> #[trigger] labels_fit(m.questions[i].qname)
    &&& records_names_fit(m.answers)
    &&& records_names_fit(m.authority)
    &&& records_names_fit(m.additional)
}

/// Every count and every data length in the message fits its 16-bit field.
pub open spec fn sizes_fit(m: MessageModel) -> bool {
    &&& m.questions.len() <= 65535
    &&& records_sizes_fit(m.answers)
    &&& records_sizes_fit(m.authority)
    &&& records_sizes_fit(m.additional)
}

/// Builds the bytes of a message.
pub struct Serializer {
    data: Vec<u8>,
}

impl View for Serializer {
    type V = Seq<u8>;

    closed spec fn view(&self) -> Seq<u8> {
        self.data@
    }
}

impl Serializer {
    pub fn new() -> (s: Self)
        ensures
            s@ == Seq::<u8>::empty(),
    {
        Self { data: Vec::new() }
    }

    fn write_u8(&mut self, value: u8)
        ensures
            final(self)@ == old(self)@.push(value),
    {
        self.data.push(value);
    }

    fn write_u16(&mut self, value: u16)
        ensures
            final(self)@ == old(self)@ + be16(value),
    {
        self.write_u8((value / 256) as u8);
        self.write_u8((value % 256) as u8);
        assert(final(self)@ =~= old(self)@ + be16(value));
    }

    fn write_u32(&mut self, value: u32)
        ensures
            final(self)@ == old(self)@ + be32(value),
    {
        self.write_u8((value / 16777216) as u8);
        self.write_u8(((value / 65536) % 256) as u8);
        self.write_u8(((value / 256) % 256) as u8);
        self.write_u8((value % 256) as u8);
        assert(final(self)@ =~= old(self)@ + be32(value));
    }

    fn write_bytes(&mut self, values: &Vec<u8>)
        ensures
            final(self)@ == old(self)@ + values@,
    {
        let ghost start = self@;
        let mut i: usize = 0;
        while i < values.len()
            invariant
                i <= values.len(),
                self@ == start + values@.take(i as int),
            decreases values.len() - i,
        {
            self.write_u8(values[i]);
            i += 1;
            assert(self@ =~= start + values@.take(i as int));
        }
        assert(values@.take(values.len() as int) =~= values@);
    }

    /// The bytes of a name, spelled out in full; fails if a label is over 255 bytes.
    fn generate_name_bytes(&self, labels: &Vec<Vec<u8>>) -> (r: Result<Vec<u8>, DnsError>)
        ensures
            match r {
                Ok(b) => labels_fit(labels_view(*labels)) && b@ == name_bytes(labels_view(*labels)),
                Err(e) => !labels_fit(labels_view(*labels)) && e == DnsError::InvalidName,
            },
    {
        let ghost n = labels_view(*labels);
        let mut bytes: Vec<u8> = Vec::new();
        let mut i: usize = 0;
        while i < labels.len()
            invariant
                i <= labels.len(),
                n == labels_view(*labels),
                labels_fit(n.take(i as int)),
                bytes@ == n.take(i as int).map_values(|l: Seq<u8>| label_bytes(l)).flatten(),
            decreases labels.len() - i,
        {
            let label = &labels[i];
            if label.len() > 255 {
                assert(n[i as int].len() > 255);
                return Err(DnsError::InvalidName);
            }
            let ghost before = bytes@;
            bytes.push(label.len() as u8);
            let mut j: usize = 0;
            while j < label.len()
                invariant
                    j <= label.len(),
                    bytes@ == before + seq![label@.len() as u8] + label@.take(j as int),
                decreases label.len() - j,
            {
                bytes.push(label[j]);
                j += 1;
                assert(bytes@ =~= before + seq![label@.len() as u8] + label@.take(j as int));
            }
            proof {
                assert(label@.take(j as int) =~= label@);
                assert(n[i as int] == label@);
                let f = |l: Seq<u8>| label_bytes(l);
                assert(n.take(i + 1).map_values(f) =~= n.take(i as int).map_values(f).push(
                    label_bytes(n[i as int]),
                ));
                n.take(i as int).map_values(f).lemma_flatten_push(label_bytes(n[i as int]));
                assert(bytes@ =~= before + label_bytes(n[i as int]));
            }
            i += 1;
        }
        bytes.push(0u8);
        assert(n.take(i as int) =~= n);
        Ok(bytes)
    }
    fn write_name(&mut self, labels: &Vec<Vec<u8>>) -> (r: Result<(), DnsError>)
        ensures
            match r {
                Ok(_) => labels_fit(labels_view(*labels)) && final(self)@ == old(self)@
                    + name_bytes(labels_view(*labels)),
                Err(e) => !labels_fit(labels_view(*labels)) && e == DnsError::InvalidName,
            },
    {
        let bytes = self.generate_name_bytes(labels)?;
        self.write_bytes(&bytes);
        Ok(())
    }

    fn generate_rdata_bytes(&self, rdata: &RData) -> (r: Result<Vec<u8>, DnsError>)
        ensures
            match r {
                Ok(b) => rdata_names_fit(rdata@) && b@ == rdata_bytes(rdata@),
                Err(e) => !rdata_names_fit(rdata@) && e == DnsError::InvalidName,
            },
    {
        match rdata {
            RData::Cname(name) => self.generate_name_bytes(name),
            RData::Ipv4(bytes) => Ok(copy_bytes(bytes)),
            RData::Unknown(bytes) => Ok(copy_bytes(bytes)),
        }
    }

    fn write_query_section(&mut self, section: &QuerySection) -> (r: Result<(), DnsError>)
        ensures
            match r {
                Ok(_) => labels_fit(section@.qname) && final(self)@ == old(self)@ + question_bytes(
                    section@,
                ),
                Err(e) => !labels_fit(section@.qname) && e == DnsError::InvalidName,
            },
    {
        self.write_name(&section.qname)?;
        self.write_u16(section.qtype);
        self.write_u16(section.qclass);
        assert(self@ =~= old(self)@ + question_bytes(section@));
        Ok(())
    }

    fn write_answer_section(&mut self, section: &AnswerSection) -> (r: Result<(), DnsError>)
        ensures
            match r {
                Ok(_) => record_names_fit(section@) && rdata_bytes(section@.rdata).len() <= 65535
                    && final(self)@ == old(self)@ + record_bytes(section@),
                Err(e) => (e == DnsError::InvalidName && !record_names_fit(section@)) || (e
                    == DnsError::Oversized && rdata_bytes(section@.rdata).len() > 65535),
            },
    {
        self.write_name(&section.aname)?;
        self.write_u16(section.atype);
        self.write_u16(section.aclass);
        self.write_u32(section.ttl);
        let rdata_bytes = self.generate_rdata_bytes(&section.rdata)?;
        if rdata_bytes.len() > 65535 {
            return Err(DnsError::Oversized);
        }
        self.write_u16(rdata_bytes.len() as u16);
        self.write_bytes(&rdata_bytes);
        assert(self@ =~= old(self)@ + record_bytes(section@));
        Ok(())
    }

    fn write_query_sections(&mut self, sections: &Vec<QuerySection>) -> (r: Result<(), DnsError>)
        ensures
            match r {
                Ok(_) => (forall|i: int|
                    0 <= i < sections@.len() ==> #[trigger] labels_fit(sections@[i]@.qname))
                    && final(self)@ == old(self)@ + questions_bytes(
                    sections@.map_values(|q: QuerySection| q@),
                ),
                Err(e) => e == DnsError::InvalidName && exists|i: int|
                    0 <= i < sections@.len() && !#[trigger] labels_fit(sections@[i]@.qname),
            },
    {
        let ghost qs = sections@.map_values(|q: QuerySection| q@);
        let ghost f = |q: QuestionModel| question_bytes(q);
        let mut i: usize = 0;
        while i < sections.len()
            invariant
                i <= sections.len(),
                qs == sections@.map_values(|q: QuerySection| q@),
                f == (|q: QuestionModel| question_bytes(q)),
                forall|k: int| 0 <= k < i ==> #[trigger] labels_fit(sections@[k]@.qname),
                self@ == old(self)@ + qs.take(i as int).map_values(f).flatten(),
            decreases sections.len() - i,
        {
            let ghost before = self@;
            let r = self.write_query_section(&sections[i]);
            if r.is_err() {
                return Err(DnsError::InvalidName);
            }
            proof {
                assert(qs.take(i + 1).map_values(f) =~= qs.take(i as int).map_values(f).push(
                    f(qs[i as int]),
                ));
                qs.take(i as int).map_values(f).lemma_flatten_push(f(qs[i as int]));
            }
            i += 1;
        }
        assert(qs.take(i as int) =~= qs);
        Ok(())
    }

    fn write_answer_sections(&mut self, sections: &Vec<AnswerSection>) -> (r: Result<(), DnsError>)
        ensures
            match r {
                Ok(_) => records_names_fit(records_view(*sections)) && records_data_fit(
                    records_view(*sections),
                ) && final(self)@ == old(self)@ + records_bytes(records_view(*sections)),
                Err(e) => (e == DnsError::InvalidName && !records_names_fit(records_view(*sections)))
                    || (e == DnsError::Oversized && !records_data_fit(records_view(*sections))),
            },
    {
        let ghost rs = records_view(*sections);
        let ghost f = |r: RecordModel| record_bytes(r);
        let mut i: usize = 0;
        while i < sections.len()
            invariant
                i <= sections.len(),
                rs == records_view(*sections),
                f == (|r: RecordModel| record_bytes(r)),
                forall|k: int| 0 <= k < i ==> #[trigger] record_names_fit(rs[k]),
                forall|k: int| 0 <= k < i ==> #[trigger] rdata_bytes(rs[k].rdata).len() <= 65535,
                self@ == old(self)@ + rs.take(i as int).map_values(f).flatten(),
            decreases sections.len() - i,
        {
            let r = self.write_answer_section(&sections[i]);
            match r {
                Err(e) => {
                    assert(rs[i as int] == sections@[i as int]@);
                    return Err(e);
                },
                Ok(_) => {},
            }
            proof {
                assert(rs[i as int] == sections@[i as int]@);
                assert(rs.take(i + 1).map_values(f) =~= rs.take(i as int).map_values(f).push(
                    f(rs[i as int]),
                ));
                rs.take(i as int).map_values(f).lemma_flatten_push(f(rs[i as int]));
            }
            i += 1;
        }
        assert(rs.take(i as int) =~= rs);
        Ok(())
    }

    /// Encodes `msg` after whatever this serializer already holds. The header's
    /// counts are the lengths of the sections; names are never compressed.
    pub fn serialize(self, msg: Message) -> (r: Result<Vec<u8>, DnsError>)
        ensures
            match r {
                Ok(b) => names_fit(msg@) && sizes_fit(msg@) && b@ == self@ + message_bytes(msg@),
                Err(e) => (e == DnsError::InvalidName && !names_fit(msg@)) || (e
                    == DnsError::Oversized && !sizes_fit(msg@)),
            },
    {
        let ghost start = self@;
        let ghost m = msg@;
        let mut out = self;
        if msg.query_sections.len() > 65535 || msg.answer_sections.len() > 65535
            || msg.authority_sections.len() > 65535
            || msg.additional_information_sections.len() > 65535 {
            return Err(DnsError::Oversized);
        }
        out.write_u16(msg.id);
        out.write_u16(msg.head);
        out.write_u16(msg.query_sections.len() as u16);
        out.write_u16(msg.answer_sections.len() as u16);
        out.write_u16(msg.authority_sections.len() as u16);
        out.write_u16(msg.additional_information_sections.len() as u16);
        let ghost header = be16(m.id) + be16(m.head) + be16(m.questions.len() as u16) + be16(
            m.answers.len() as u16,
        ) + be16(m.authority.len() as u16) + be16(m.additional.len() as u16);
        assert(out@ =~= start + header);
        let r = out.write_query_sections(&msg.query_sections);
        if r.is_err() {
            proof {
                let i = choose|i: int|
                    0 <= i < msg.query_sections@.len() && !#[trigger] labels_fit(
                        msg.query_sections@[i]@.qname,
                    );
                assert(m.questions[i] == msg.query_sections@[i]@);
            }
            return Err(DnsError::InvalidName);
        }
        let ghost p1 = out@;
        assert(p1 == start + header + questions_bytes(m.questions));
        out.write_answer_sections(&msg.answer_sections)?;
        let ghost p2 = out@;
        out.write_answer_sections(&msg.authority_sections)?;
        let ghost p3 = out@;
        out.write_answer_sections(&msg.additional_information_sections)?;
        proof {
            assert(p2 == p1 + records_bytes(m.answers));
            assert(p3 == p2 + records_bytes(m.authority));
            assert(out@ == p3 + records_bytes(m.additional));
            assert(out@ =~= start + message_bytes(m));
        }
        Ok(out.data)
    }
}

/// A copy of `b`.
fn copy_bytes(b: &Vec<u8>) -> (r: Vec<u8>)
    ensures
        r@ == b@,
{
    let mut out: Vec<u8> = Vec::new();
    let mut i: usize = 0;
    while i < b.len()
        invariant
            i <= b.len(),
            out@ == b@.take(i as int),
        decreases b.len() - i,
    {
        out.push(b[i]);
        i += 1;
        assert(out@ =~= b@.take(i as int));
    }
    assert(b@.take(i as int) =~= b@);
    out
}

} // verus!
