use vstd::prelude::*;
use hex_slice::AsHex;
use crate::message::{
    labels_view, records_view, AnswerSection, Message, MessageModel, QuerySection, QuestionModel,
    RData, RDataModel, RecordModel,
};

verus! {

/// The decimal digits of `n`, in ASCII.
pub open spec fn decimal(n: nat) -> Seq<u8>
    decreases n,
{
    if n < 10 {
        seq![(48 + n) as u8]
    } else {
        decimal(n / 10) + seq![(48 + n % 10) as u8]
    }
}

/// The parts with `sep` between each two of them.
pub open spec fn join(parts: Seq<Seq<u8>>, sep: u8) -> Seq<u8>
    decreases parts.len(),
{
    if parts.len() == 0 {
        Seq::empty()
    } else if parts.len() == 1 {
        parts[0]
    } else {
        join(parts.drop_last(), sep) + seq![sep] + parts.last()
    }
}

pub open spec fn hex_digit(d: nat) -> u8 {
    if d < 10 {
        (48 + d) as u8
    } else {
        (87 + d) as u8
    }
}

/// A byte as two lower-case hex digits.
pub open spec fn hex_byte(x: u8) -> Seq<u8> {
    seq![hex_digit(x as nat / 16), hex_digit(x as nat % 16)]
}

/// Bytes in brackets, each as two hex digits, separated by spaces.
pub open spec fn hex_text(b: Seq<u8>) -> Seq<u8> {
    seq![91u8] + join(b.map_values(|x: u8| hex_byte(x)), 32u8) + seq![93u8]
}

/// A name as its labels joined by dots; the root is empty.
pub open spec fn name_text(n: Seq<Seq<u8>>) -> Seq<u8> {
    join(n, 46u8)
}

/// An address as its bytes in decimal, joined by dots.
pub open spec fn dotted_text(b: Seq<u8>) -> Seq<u8> {
    join(b.map_values(|x: u8| decimal(x as nat)), 46u8)
}

pub open spec fn rdata_text(r: RDataModel) -> Seq<u8> {
    match r {
        RDataModel::Cname(n) => name_text(n),
        RDataModel::Ipv4(b) => dotted_text(b),
        RDataModel::Unknown(b) => hex_text(b),
    }
}

pub open spec fn type_text() -> Seq<u8> {
    seq![58u8, 32, 116, 121, 112, 101, 32]
}

pub open spec fn class_text() -> Seq<u8> {
    seq![44u8, 32, 99, 108, 97, 115, 115, 32]
}

pub open spec fn rdata_text_tag() -> Seq<u8> {
    seq![44u8, 32, 114, 100, 97, 116, 97, 32]
}

pub open spec fn query_tag() -> Seq<u8> {
    seq![81u8, 117, 101, 114, 121, 32, 32, 32, 32, 32, 32, 124, 32]
}

pub open spec fn answer_tag() -> Seq<u8> {
    seq![65u8, 110, 115, 119, 101, 114, 32, 32, 32, 32, 32, 124, 32]
}

pub open spec fn authority_tag() -> Seq<u8> {
    seq![65u8, 117, 116, 104, 111, 114, 105, 116, 121, 32, 32, 124, 32]
}

pub open spec fn additional_tag() -> Seq<u8> {
    seq![65u8, 100, 100, 105, 116, 105, 32, 105, 110, 102, 111, 124, 32]
}
pub open spec fn question_text(q: QuestionModel) -> Seq<u8> {
    name_text(q.qname) + type_text() + decimal(q.qtype as nat) + class_text() + decimal(
        q.qclass as nat,
    )
}

pub open spec fn record_text(r: RecordModel) -> Seq<u8> {
    name_text(r.aname) + type_text() + decimal(r.atype as nat) + class_text() + decimal(
        r.aclass as nat,
    ) + rdata_text_tag() + rdata_text(r.rdata)
}

/// One line per record: the tag, the record's text, a newline.
pub open spec fn lines(tag: Seq<u8>, texts: Seq<Seq<u8>>) -> Seq<u8> {
    texts.map_values(|t: Seq<u8>| tag + t + seq![10u8]).flatten()
}

/// A message as text: a line for each record, section by section.
pub open spec fn message_text(m: MessageModel) -> Seq<u8> {
    lines(query_tag(), m.questions.map_values(|q: QuestionModel| question_text(q))) + lines(
        answer_tag(),
        m.answers.map_values(|r: RecordModel| record_text(r)),
    ) + lines(authority_tag(), m.authority.map_values(|r: RecordModel| record_text(r))) + lines(
        additional_tag(),
        m.additional.map_values(|r: RecordModel| record_text(r)),
    )
}

fn type_text_bytes() -> (r: Vec<u8>)
    ensures
        r@ == type_text(),
{
    let r = vec![58u8, 32, 116, 121, 112, 101, 32];
    assert(r@ =~= type_text());
    r
}

fn class_text_bytes() -> (r: Vec<u8>)
    ensures
        r@ == class_text(),
{
    let r = vec![44u8, 32, 99, 108, 97, 115, 115, 32];
    assert(r@ =~= class_text());
    r
}

fn rdata_text_tag_bytes() -> (r: Vec<u8>)
    ensures
        r@ == rdata_text_tag(),
{
    let r = vec![44u8, 32, 114, 100, 97, 116, 97, 32];
    assert(r@ =~= rdata_text_tag());
    r
}

fn query_tag_bytes() -> (r: Vec<u8>)
    ensures
        r@ == query_tag(),
{
    let r = vec![81u8, 117, 101, 114, 121, 32, 32, 32, 32, 32, 32, 124, 32];
    assert(r@ =~= query_tag());
    r
}

fn answer_tag_bytes() -> (r: Vec<u8>)
    ensures
        r@ == answer_tag(),
{
    let r = vec![65u8, 110, 115, 119, 101, 114, 32, 32, 32, 32, 32, 124, 32];
    assert(r@ =~= answer_tag());
    r
}

fn authority_tag_bytes() -> (r: Vec<u8>)
    ensures
        r@ == authority_tag(),
{
    let r = vec![65u8, 117, 116, 104, 111, 114, 105, 116, 121, 32, 32, 124, 32];
    assert(r@ =~= authority_tag());
    r
}

fn additional_tag_bytes() -> (r: Vec<u8>)
    ensures
        r@ == additional_tag(),
{
    let r = vec![65u8, 100, 100, 105, 116, 105, 32, 105, 110, 102, 111, 124, 32];
    assert(r@ =~= additional_tag());
    r
}
/// Relies on hex_slice's `AsHex::as_hex` formatted with `{:02x}`: a bracket,
/// each byte as two lower-case hex digits with a space between bytes, a bracket.
#[verifier::external_body]
fn hex_of(b: &Vec<u8>) -> (r: Vec<u8>)
    ensures
        r@ == hex_text(b@),
{
    format!("{:02x}", b.as_slice().as_hex()).into_bytes()
}

fn push_bytes(out: &mut Vec<u8>, b: &Vec<u8>)
    ensures
        final(out)@ == old(out)@ + b@,
{
    let ghost start = out@;
    let mut i: usize = 0;
    while i < b.len()
        invariant
            i <= b.len(),
            out@ == start + b@.take(i as int),
        decreases b.len() - i,
    {
        out.push(b[i]);
        i += 1;
        assert(out@ =~= start + b@.take(i as int));
    }
    assert(b@.take(i as int) =~= b@);
}

fn push_decimal(out: &mut Vec<u8>, n: u32)
    ensures
        final(out)@ == old(out)@ + decimal(n as nat),
    decreases n,
{
    if n >= 10 {
        push_decimal(out, n / 10);
    }
    out.push((48 + n % 10) as u8);
    assert(final(out)@ =~= old(out)@ + decimal(n as nat));
}

proof fn lemma_join_step(parts: Seq<Seq<u8>>, i: int, sep: u8)
    requires
        0 <= i < parts.len(),
    ensures
        join(parts.take(i + 1), sep) == if i == 0 {
            parts[0]
        } else {
            join(parts.take(i), sep) + seq![sep] + parts[i]
        },
{
    assert(parts.take(i + 1).drop_last() =~= parts.take(i));
}

fn push_name(out: &mut Vec<u8>, name: &Vec<Vec<u8>>)
    ensures
        final(out)@ == old(out)@ + name_text(labels_view(*name)),
{
    let ghost start = out@;
    let ghost n = labels_view(*name);
    let mut i: usize = 0;
    while i < name.len()
        invariant
            i <= name.len(),
            n == labels_view(*name),
            out@ == start + join(n.take(i as int), 46u8),
        decreases name.len() - i,
    {
        proof {
            lemma_join_step(n, i as int, 46u8);
        }
        if i > 0 {
            out.push(46u8);
        }
        push_bytes(out, &name[i]);
        assert(out@ =~= start + join(n.take(i + 1), 46u8));
        i += 1;
    }
    assert(n.take(i as int) =~= n);
}

fn push_dotted(out: &mut Vec<u8>, b: &Vec<u8>)
    ensures
        final(out)@ == old(out)@ + dotted_text(b@),
{
    let ghost start = out@;
    let ghost parts = b@.map_values(|x: u8| decimal(x as nat));
    let mut i: usize = 0;
    while i < b.len()
        invariant
            i <= b.len(),
            parts == b@.map_values(|x: u8| decimal(x as nat)),
            out@ == start + join(parts.take(i as int), 46u8),
        decreases b.len() - i,
    {
        proof {
            lemma_join_step(parts, i as int, 46u8);
        }
        if i > 0 {
            out.push(46u8);
        }
        push_decimal(out, b[i] as u32);
        assert(out@ =~= start + join(parts.take(i + 1), 46u8));
        i += 1;
    }
    assert(parts.take(i as int) =~= parts);
}

impl RData {
    /// The data as text: a name dotted, an address in dotted decimal, other data in hex.
    pub fn render(&self) -> (r: Vec<u8>)
        ensures
            r@ == rdata_text(self@),
    {
        match self {
            RData::Cname(name) => {
                let mut out: Vec<u8> = Vec::new();
                push_name(&mut out, name);
                out
            },
            RData::Ipv4(bytes) => {
                let mut out: Vec<u8> = Vec::new();
                push_dotted(&mut out, bytes);
                out
            },
            RData::Unknown(bytes) => hex_of(bytes),
        }
    }
}

impl QuerySection {
    /// The question as text: name, type and class.
    pub fn render(&self) -> (r: Vec<u8>)
        ensures
            r@ == question_text(self@),
    {
        let mut out: Vec<u8> = Vec::new();
        push_name(&mut out, &self.qname);
        push_bytes(&mut out, &type_text_bytes());
        push_decimal(&mut out, self.qtype as u32);
        push_bytes(&mut out, &class_text_bytes());
        push_decimal(&mut out, self.qclass as u32);
        assert(out@ =~= question_text(self@));
        out
    }
}

impl AnswerSection {
    /// The record as text: name, type, class and data.
    pub fn render(&self) -> (r: Vec<u8>)
        ensures
            r@ == record_text(self@),
    {
        let mut out: Vec<u8> = Vec::new();
        push_name(&mut out, &self.aname);
        push_bytes(&mut out, &type_text_bytes());
        push_decimal(&mut out, self.atype as u32);
        push_bytes(&mut out, &class_text_bytes());
        push_decimal(&mut out, self.aclass as u32);
        push_bytes(&mut out, &rdata_text_tag_bytes());
        let data = self.rdata.render();
        push_bytes(&mut out, &data);
        assert(out@ =~= record_text(self@));
        out
    }
}

fn push_record_lines(out: &mut Vec<u8>, tag: &Vec<u8>, records: &Vec<AnswerSection>)
    ensures
        final(out)@ == old(out)@ + lines(
            tag@,
            records_view(*records).map_values(|r: RecordModel| record_text(r)),
        ),
{
    let ghost start = out@;
    let ghost texts = records_view(*records).map_values(|r: RecordModel| record_text(r));
    let ghost f = |t: Seq<u8>| tag@ + t + seq![10u8];
    let mut i: usize = 0;
    while i < records.len()
        invariant
            i <= records.len(),
            texts == records_view(*records).map_values(|r: RecordModel| record_text(r)),
            f == (|t: Seq<u8>| tag@ + t + seq![10u8]),
            out@ == start + texts.take(i as int).map_values(f).flatten(),
        decreases records.len() - i,
    {
        let ghost before = out@;
        push_bytes(out, tag);
        let text = records[i].render();
        push_bytes(out, &text);
        out.push(10u8);
        proof {
            assert(texts[i as int] == text@);
            assert(texts.take(i + 1).map_values(f) =~= texts.take(i as int).map_values(f).push(
                f(texts[i as int]),
            ));
            texts.take(i as int).map_values(f).lemma_flatten_push(f(texts[i as int]));
            assert(out@ =~= before + f(texts[i as int]));
        }
        i += 1;
    }
    assert(texts.take(i as int) =~= texts);
}

impl Message {
    /// The message as text, one line per record: a section tag, then the record.
    pub fn render(&self) -> (r: Vec<u8>)
        ensures
            r@ == message_text(self@),
    {
        let mut out: Vec<u8> = Vec::new();
        let tag = query_tag_bytes();
        let ghost texts = self@.questions.map_values(|q: QuestionModel| question_text(q));
        let ghost f = |t: Seq<u8>| tag@ + t + seq![10u8];
        let mut i: usize = 0;
        while i < self.query_sections.len()
            invariant
                i <= self.query_sections.len(),
                tag@ == query_tag(),
                texts == self@.questions.map_values(|q: QuestionModel| question_text(q)),
                f == (|t: Seq<u8>| tag@ + t + seq![10u8]),
                out@ == texts.take(i as int).map_values(f).flatten(),
            decreases self.query_sections.len() - i,
        {
            let ghost before = out@;
            push_bytes(&mut out, &tag);
            let text = self.query_sections[i].render();
            push_bytes(&mut out, &text);
            out.push(10u8);
            proof {
                assert(texts[i as int] == text@);
                assert(texts.take(i + 1).map_values(f) =~= texts.take(i as int).map_values(f).push(
                    f(texts[i as int]),
                ));
                texts.take(i as int).map_values(f).lemma_flatten_push(f(texts[i as int]));
                assert(out@ =~= before + f(texts[i as int]));
            }
            i += 1;
        }
        assert(texts.take(i as int) =~= texts);
        let ghost p1 = out@;
        push_record_lines(&mut out, &answer_tag_bytes(), &self.answer_sections);
        let ghost p2 = out@;
        push_record_lines(&mut out, &authority_tag_bytes(), &self.authority_sections);
        let ghost p3 = out@;
        push_record_lines(&mut out, &additional_tag_bytes(), &self.additional_information_sections);
        assert(out@ =~= message_text(self@));
        out
    }
}

} // verus!
