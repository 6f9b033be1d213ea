use vstd::prelude::*;

verus! {

/// A domain name as its labels, each an opaque byte string; no labels is the root.
pub open spec fn labels_view(name: Vec<Vec<u8>>) -> Seq<Seq<u8>> {
    name@.map_values(|l: Vec<u8>| l@)
}

/// The payload of a resource record.
pub enum RData {
    /// Type 5: a domain name.
    Cname(Vec<Vec<u8>>),
    /// Type 1: the address bytes, four in a well-formed record.
    Ipv4(Vec<u8>),
    /// Any other type: the bytes as they stood on the wire.
    Unknown(Vec<u8>),
}

pub enum RDataModel {
    Cname(Seq<Seq<u8>>),
    Ipv4(Seq<u8>),
    Unknown(Seq<u8>),
}

impl View for RData {
    type V = RDataModel;

    open spec fn view(&self) -> RDataModel {
        match self {
            RData::Cname(n) => RDataModel::Cname(labels_view(*n)),
            RData::Ipv4(b) => RDataModel::Ipv4(b@),
            RData::Unknown(b) => RDataModel::Unknown(b@),
        }
    }
}

/// One entry of the question section.
pub struct QuerySection {
    pub qname: Vec<Vec<u8>>,
    pub qtype: u16,
    pub qclass: u16,
}

pub struct QuestionModel {
    pub qname: Seq<Seq<u8>>,
    pub qtype: u16,
    pub qclass: u16,
}

impl View for QuerySection {
    type V = QuestionModel;

    open spec fn view(&self) -> QuestionModel {
        QuestionModel { qname: labels_view(self.qname), qtype: self.qtype, qclass: self.qclass }
    }
}

/// One resource record, of the answer, authority or additional section.
/// Its on-wire data length is not stored: it is derived from `rdata` when encoding.
pub struct AnswerSection {
    pub aname: Vec<Vec<u8>>,
    pub atype: u16,
    pub aclass: u16,
    pub ttl: u32,
    pub rdata: RData,
}

pub struct RecordModel {
    pub aname: Seq<Seq<u8>>,
    pub atype: u16,
    pub aclass: u16,
    pub ttl: u32,
    pub rdata: RDataModel,
}

impl View for AnswerSection {
    type V = RecordModel;

    open spec fn view(&self) -> RecordModel {
        RecordModel {
            aname: labels_view(self.aname),
            atype: self.atype,
            aclass: self.aclass,
            ttl: self.ttl,
            rdata: self.rdata@,
        }
    }
}

/// A whole message. The four section counts of the header are not stored:
/// they are the lengths of the four lists.
pub struct Message {
    pub id: u16,
    pub head: u16,
    pub query_sections: Vec<QuerySection>,
    pub answer_sections: Vec<AnswerSection>,
    pub authority_sections: Vec<AnswerSection>,
    pub additional_information_sections: Vec<AnswerSection>,
}

pub struct MessageModel {
    pub id: u16,
    pub head: u16,
    pub questions: Seq<QuestionModel>,
    pub answers: Seq<RecordModel>,
    pub authority: Seq<RecordModel>,
    pub additional: Seq<RecordModel>,
}

pub open spec fn records_view(v: Vec<AnswerSection>) -> Seq<RecordModel> {
    v@.map_values(|r: AnswerSection| r@)
}

impl View for Message {
    type V = MessageModel;

    open spec fn view(&self) -> MessageModel {
        MessageModel {
            id: self.id,
            head: self.head,
            questions: self.query_sections@.map_values(|q: QuerySection| q@),
            answers: records_view(self.answer_sections),
            authority: records_view(self.authority_sections),
            additional: records_view(self.additional_information_sections),
        }
    }
}

/// The QR flag: bit 15 of the flags word, clear in a query.
pub open spec fn qr_clear(head: u16) -> bool {
    head & 0x8000 == 0
}

impl Message {
    /// Whether this message is a query rather than a response.
    pub fn is_query(&self) -> (r: bool)
        ensures
            r == qr_clear(self.head),
    {
        (self.head & 0x8000) == 0
    }
}

/// Why a message could not be decoded or encoded.
#[derive(Debug, Clone, Copy, PartialEq, Eq, Structural)]
pub enum DnsError {
    /// The bytes are not a well-formed message: a read runs past the end,
    /// or a compression pointer chain is too long or cyclic.
    MalformedMessage,
    /// A label is longer than a length byte can state.
    InvalidName,
    /// A section holds more records, or a record more data, than a 16-bit field can count.
    Oversized,
}

} // verus!
