use vstd::prelude::*;
use crate::message::{
    labels_view, records_view, AnswerSection, DnsError, Message, MessageModel, QuerySection,
    QuestionModel, RData, RDataModel, RecordModel,
};

verus! {

/// How many compression pointers one name may follow before it is rejected;
/// a pointer cycle exhausts it.
pub const MAX_POINTER_HOPS: u32 = 32;

/// The big-endian 16-bit value at `pos`, and the position after it.
pub open spec fn u16_at(data: Seq<u8>, pos: int) -> Option<(u16, int)> {
    if 0 <= pos && pos + 2 <= data.len() {
        Some((((data[pos] as int) * 256 + (data[pos + 1] as int)) as u16, pos + 2))
    } else {
        None
    }
}

/// The big-endian 32-bit value at `pos`, and the position after it.
pub open spec fn u32_at(data: Seq<u8>, pos: int) -> Option<(u32, int)> {
    if 0 <= pos && pos + 4 <= data.len() {
        Some(
            (
                ((data[pos] as int) * 16777216 + (data[pos + 1] as int) * 65536 + (data[pos + 2] as int)
                    * 256 + (data[pos + 3] as int)) as u32,
                pos + 4,
            ),
        )
    } else {
        None
    }
}

/// Whether a tag byte marks a compression pointer (its top two bits set).
pub open spec fn is_pointer(tag: u8) -> bool {
    tag & 0xC0u8 == 0xC0u8
}

/// The offset that the pointer at `pos` names: the low 14 bits of its two bytes.
pub open spec fn pointer_target(data: Seq<u8>, pos: int) -> int {
    ((data[pos] & 0x3Fu8) as int) * 256 + (data[pos + 1] as int)
}

/// The name at `pos`, following at most `hops` compression pointers, and the
/// position after the name's own bytes (after a pointer, two bytes past it).
pub open spec fn name_at(data: Seq<u8>, pos: int, hops: nat) -> Option<(Seq<Seq<u8>>, int)>
    decreases hops, data.len() - pos,
{
    if pos < 0 || pos >= data.len() {
        None
    } else if data[pos] == 0 {
        Some((Seq::empty(), pos + 1))
    } else if is_pointer(data[pos]) {
        if pos + 2 > data.len() || hops == 0 {
            None
        } else {
            match name_at(data, pointer_target(data, pos), (hops - 1) as nat) {
                Some((n, _)) => Some((n, pos + 2)),
                None => None,
            }
        }
    } else {
        let len = data[pos] as int;
        if pos + 1 + len > data.len() {
            None
        } else {
            match name_at(data, pos + 1 + len, hops) {
                Some((rest, end)) => Some((seq![data.subrange(pos + 1, pos + 1 + len)] + rest, end)),
                None => None,
            }
        }
    }
}

/// A name as it is read at the start of a field.
pub open spec fn field_name_at(data: Seq<u8>, pos: int) -> Option<(Seq<Seq<u8>>, int)> {
    name_at(data, pos, MAX_POINTER_HOPS as nat)
}

/// The data of a record of type `rtype` with data length `rdlength`, at `pos`.
/// A CNAME's data is a name, read to its own end whatever `rdlength` says.
pub open spec fn rdata_at(data: Seq<u8>, pos: int, rtype: u16, rdlength: u16) -> Option<
    (RDataModel, int),
> {
    if rtype == 5 {
        match field_name_at(data, pos) {
            Some((n, end)) => Some((RDataModel::Cname(n), end)),
            None => None,
        }
    } else if 0 <= pos && pos + rdlength <= data.len() {
        let b = data.subrange(pos, pos + rdlength);
        Some((if rtype == 1 { RDataModel::Ipv4(b) } else { RDataModel::Unknown(b) }, pos + rdlength))
    } else {
        None
    }
}

pub open spec fn question_at(data: Seq<u8>, pos: int) -> Option<(QuestionModel, int)> {
    match field_name_at(data, pos) {
        Some((n, p1)) => match u16_at(data, p1) {
            Some((t, p2)) => match u16_at(data, p2) {
                Some((c, p3)) => Some((QuestionModel { qname: n, qtype: t, qclass: c }, p3)),
                None => None,
            },
            None => None,
        },
        None => None,
    }
}

pub open spec fn record_at(data: Seq<u8>, pos: int) -> Option<(RecordModel, int)> {
    match field_name_at(data, pos) {
        Some((n, p1)) => match u16_at(data, p1) {
            Some((t, p2)) => match u16_at(data, p2) {
                Some((c, p3)) => match u32_at(data, p3) {
                    Some((ttl, p4)) => match u16_at(data, p4) {
                        Some((len, p5)) => match rdata_at(data, p5, t, len) {
                            Some((rd, p6)) => Some(
                                (
                                    RecordModel {
                                        aname: n,
                                        atype: t,
                                        aclass: c,
                                        ttl: ttl,
                                        rdata: rd,
                                    },
                                    p6,
                                ),
                            ),
                            None => None,
                        },
                        None => None,
                    },
                    None => None,
                },
                None => None,
            },
            None => None,
        },
        None => None,
    }
}

/// `count` questions, one after another from `pos`.
pub open spec fn questions_at(data: Seq<u8>, pos: int, count: nat) -> Option<
    (Seq<QuestionModel>, int),
>
    decreases count,
{
    if count == 0 {
        Some((Seq::empty(), pos))
    } else {
        match questions_at(data, pos, (count - 1) as nat) {
            Some((qs, p)) => match question_at(data, p) {
                Some((q, end)) => Some((qs.push(q), end)),
                None => None,
            },
            None => None,
        }
    }
}

/// `count` resource records, one after another from `pos`.
pub open spec fn records_at(data: Seq<u8>, pos: int, count: nat) -> Option<(Seq<RecordModel>, int)>
    decreases count,
{
    if count == 0 {
        Some((Seq::empty(), pos))
    } else {
        match records_at(data, pos, (count - 1) as nat) {
            Some((rs, p)) => match record_at(data, p) {
                Some((r, end)) => Some((rs.push(r), end)),
                None => None,
            },
            None => None,
        }
    }
}

/// The message at `pos`: the header, then as many records in each section as
/// the header counts; and the position after the last of them.
pub open spec fn message_at(data: Seq<u8>, pos: int) -> Option<(MessageModel, int)> {
    match u16_at(data, pos) {
        Some((id, p1)) => match u16_at(data, p1) {
            Some((head, p2)) => match u16_at(data, p2) {
                Some((qd, p3)) => match u16_at(data, p3) {
                    Some((an, p4)) => match u16_at(data, p4) {
                        Some((ns, p5)) => match u16_at(data, p5) {
                            Some((ar, p6)) => sections_at(data, p6, id, head, qd, an, ns, ar),
                            None => None,
                        },
                        None => None,
                    },
                    None => None,
                },
                None => None,
            },
            None => None,
        },
        None => None,
    }
}

/// The four sections after the header, with the header's fields.
pub open spec fn sections_at(
    data: Seq<u8>,
    pos: int,
    id: u16,
    head: u16,
    qd: u16,
    an: u16,
    ns: u16,
    ar: u16,
) -> Option<(MessageModel, int)> {
    match questions_at(data, pos, qd as nat) {
        Some((qs, p1)) => match records_at(data, p1, an as nat) {
            Some((ans, p2)) => match records_at(data, p2, ns as nat) {
                Some((nss, p3)) => match records_at(data, p3, ar as nat) {
                    Some((ars, p4)) => Some(
                        (
                            MessageModel {
                                id: id,
                                head: head,
                                questions: qs,
                                answers: ans,
                                authority: nss,
                                additional: ars,
                            },
                            p4,
                        ),
                    ),
                    None => None,
                },
                None => None,
            },
            None => None,
        },
        None => None,
    }
}

/// The message that a buffer holds, read from its first byte.
pub open spec fn decode(data: Seq<u8>) -> Option<MessageModel> {
    match message_at(data, 0) {
        Some((m, _)) => Some(m),
        None => None,
    }
}

/// Once the `k`-th question fails to read, so does every count past `k`.
proof fn lemma_questions_fail_after(data: Seq<u8>, pos: int, k: nat, count: nat)
    requires
        k < count,
        questions_at(data, pos, k) is Some,
        question_at(data, questions_at(data, pos, k).unwrap().1) is None,
    ensures
        questions_at(data, pos, count) is None,
    decreases count,
{
    if count > k + 1 {
        lemma_questions_fail_after(data, pos, k, (count - 1) as nat);
    }
}

/// Once the `k`-th record fails to read, so does every count past `k`.
proof fn lemma_records_fail_after(data: Seq<u8>, pos: int, k: nat, count: nat)
    requires
        k < count,
        records_at(data, pos, k) is Some,
        record_at(data, records_at(data, pos, k).unwrap().1) is None,
    ensures
        records_at(data, pos, count) is None,
    decreases count,
{
    if count > k + 1 {
        lemma_records_fail_after(data, pos, k, (count - 1) as nat);
    }
}

/// Reads one message from a buffer.
pub struct Parser {
    data: Vec<u8>,
    peak: usize,
}

impl Parser {
    /// The buffer being read.
    pub closed spec fn input(&self) -> Seq<u8> {
        self.data@
    }

    /// Where the next read starts.
    pub closed spec fn position(&self) -> int {
        self.peak as int
    }

    pub fn new(data: Vec<u8>) -> (p: Self)
        ensures
            p.input() == data@,
            p.position() == 0,
    {
        Self { data: data, peak: 0 }
    }

    fn read_peak(&mut self) -> (r: Result<u8, DnsError>)
        ensures
            final(self).data == old(self).data,
            old(self).peak < old(self).data@.len() ==> r == Ok::<u8, DnsError>(
                old(self).data@[old(self).peak as int],
            ) && final(self).peak == old(self).peak + 1,
            old(self).peak >= old(self).data@.len() ==> r == Err::<u8, DnsError>(
                DnsError::MalformedMessage,
            ),
    {
        if self.peak >= self.data.len() {
            return Err(DnsError::MalformedMessage);
        }
        let result = self.data[self.peak];
        self.peak += 1;
        Ok(result)
    }

    /// The next `len` bytes, copied out.
    fn read_peak_slice(&mut self, len: usize) -> (r: Result<Vec<u8>, DnsError>)
        ensures
            final(self).data == old(self).data,
            old(self).peak + len <= old(self).data@.len() ==> r is Ok && r->Ok_0@
                == old(self).data@.subrange(old(self).peak as int, old(self).peak + len)
                && final(self).peak == old(self).peak + len,
            old(self).peak + len > old(self).data@.len() ==> r == Err::<Vec<u8>, DnsError>(
                DnsError::MalformedMessage,
            ),
    {
        if self.peak > self.data.len() || len > self.data.len() - self.peak {
            return Err(DnsError::MalformedMessage);
        }
        let start = self.peak;
        let n = self.data.len();
        let mut out: Vec<u8> = Vec::new();
        let mut i: usize = 0;
        while i < len
            invariant
                i <= len,
                n == self.data@.len(),
                start + len <= n,
                out@ == self.data@.subrange(start as int, start + i),
            decreases len - i,
        {
            out.push(self.data[start + i]);
            i += 1;
            assert(out@ =~= self.data@.subrange(start as int, start + i));
        }
        self.peak = start + len;
        Ok(out)
    }

    /// The name at `pos`, read with a cursor of its own, and the position after it.
    fn parse_name_at(&self, pos: usize, hops: u32) -> (r: Result<(Vec<Vec<u8>>, usize), DnsError>)
        ensures
            match name_at(self.data@, pos as int, hops as nat) {
                Some((n, end)) => r is Ok && labels_view(r->Ok_0.0) == n && r->Ok_0.1 == end,
                None => r == Err::<(Vec<Vec<u8>>, usize), DnsError>(DnsError::MalformedMessage),
            },
        decreases hops, self.data@.len() - pos,
    {
        let n = self.data.len();
        if pos >= n {
            return Err(DnsError::MalformedMessage);
        }
        let tag = self.data[pos];
        if tag == 0 {
            let empty: Vec<Vec<u8>> = Vec::new();
            assert(labels_view(empty) =~= Seq::<Seq<u8>>::empty());
            return Ok((empty, pos + 1));
        }
        if tag & 0xC0 == 0xC0 {
            if n - pos < 2 || hops == 0 {
                return Err(DnsError::MalformedMessage);
            }
            let target = ((tag & 0x3F) as usize) * 256 + (self.data[pos + 1] as usize);
            let (name, _) = self.parse_name_at(target, hops - 1)?;
            return Ok((name, pos + 2));
        }
        let len = tag as usize;
        if len > n - pos - 1 {
            return Err(DnsError::MalformedMessage);
        }
        let mut label: Vec<u8> = Vec::new();
        let mut i: usize = 0;
        while i < len
            invariant
                i <= len,
                n == self.data@.len(),
                pos + 1 + len <= n,
                label@ == self.data@.subrange(pos + 1, pos + 1 + i),
            decreases len - i,
        {
            label.push(self.data[pos + 1 + i]);
            i += 1;
            assert(label@ =~= self.data@.subrange(pos + 1, pos + 1 + i));
        }
        let (mut rest, end) = self.parse_name_at(pos + 1 + len, hops)?;
        let mut name: Vec<Vec<u8>> = Vec::new();
        name.push(label);
        let ghost first = name@;
        let ghost tail = rest@;
        name.append(&mut rest);
        assert(labels_view(name) =~= seq![self.data@.subrange(pos + 1, pos + 1 + len as int)]
            + name_at(self.data@, pos + 1 + len, hops as nat).unwrap().0) by {
            assert(name@ == first + tail);
        }
        Ok((name, end))
    }

    /// The name at the cursor; the cursor moves past the name's own bytes.
    fn parse_name(&mut self) -> (r: Result<Vec<Vec<u8>>, DnsError>)
        ensures
            final(self).data == old(self).data,
            match field_name_at(old(self).data@, old(self).peak as int) {
                Some((n, end)) => r is Ok && labels_view(r->Ok_0) == n && final(self).peak == end,
                None => r == Err::<Vec<Vec<u8>>, DnsError>(DnsError::MalformedMessage),
            },
    {
        let (name, end) = self.parse_name_at(self.peak, MAX_POINTER_HOPS)?;
        self.peak = end;
        Ok(name)
    }

    fn parse_answer_section(&mut self) -> (r: Result<AnswerSection, DnsError>)
        ensures
            final(self).data == old(self).data,
            match record_at(old(self).data@, old(self).peak as int) {
                Some((rec, end)) => r is Ok && r->Ok_0@ == rec && final(self).peak == end,
                None => r == Err::<AnswerSection, DnsError>(DnsError::MalformedMessage),
            },
    {
        let aname = self.parse_name()?;
        let atype = self.read_u16()?;
        let aclass = self.read_u16()?;
        let ttl = self.read_u32()?;
        let rdlength = self.read_u16()?;
        let rdata = if atype == 5 {
            RData::Cname(self.parse_name()?)
        } else {
            let rdata_raw = self.read_peak_slice(rdlength as usize)?;
            if atype == 1 {
                RData::Ipv4(rdata_raw)
            } else {
                RData::Unknown(rdata_raw)
            }
        };
        Ok(AnswerSection { aname, atype, aclass, ttl, rdata })
    }

    fn parse_query_sections(&mut self, count: usize) -> (r: Result<Vec<QuerySection>, DnsError>)
        ensures
            final(self).data == old(self).data,
            match questions_at(old(self).data@, old(self).peak as int, count as nat) {
                Some((qs, end)) => r is Ok && r->Ok_0@.map_values(|q: QuerySection| q@) == qs
                    && final(self).peak == end,
                None => r == Err::<Vec<QuerySection>, DnsError>(DnsError::MalformedMessage),
            },
    {
        let ghost data = self.data@;
        let ghost start = self.peak as int;
        let mut query_sections: Vec<QuerySection> = Vec::new();
        let mut i: usize = 0;
        while i < count
            invariant
                i <= count,
                self.data@ == data,
                self.data == old(self).data,
                start == old(self).peak as int,
                query_sections@.len() == i,
                questions_at(data, start, i as nat) == Some(
                    (query_sections@.map_values(|q: QuerySection| q@), self.peak as int),
                ),
            decreases count - i,
        {
            let ghost p0 = self.peak as int;
            let qname = match self.parse_name() {
                Ok(v) => v,
                Err(e) => {
                    proof {
                        assert(question_at(data, p0) is None);
                        lemma_questions_fail_after(data, start, i as nat, count as nat);
                    }
                    return Err(e);
                },
            };
            let qtype = match self.read_u16() {
                Ok(v) => v,
                Err(e) => {
                    proof {
                        assert(question_at(data, p0) is None);
                        lemma_questions_fail_after(data, start, i as nat, count as nat);
                    }
                    return Err(e);
                },
            };
            let qclass = match self.read_u16() {
                Ok(v) => v,
                Err(e) => {
                    proof {
                        assert(question_at(data, p0) is None);
                        lemma_questions_fail_after(data, start, i as nat, count as nat);
                    }
                    return Err(e);
                },
            };
            let ghost before = query_sections@;
            query_sections.push(QuerySection { qname, qtype, qclass });
            assert(query_sections@.map_values(|q: QuerySection| q@) =~= before.map_values(
                |q: QuerySection| q@,
            ).push(query_sections@[i as int]@));
            i += 1;
        }
        Ok(query_sections)
    }

    fn parse_answer_sections(&mut self, count: usize) -> (r: Result<Vec<AnswerSection>, DnsError>)
        ensures
            final(self).data == old(self).data,
            match records_at(old(self).data@, old(self).peak as int, count as nat) {
                Some((rs, end)) => r is Ok && records_view(r->Ok_0) == rs && final(self).peak == end,
                None => r == Err::<Vec<AnswerSection>, DnsError>(DnsError::MalformedMessage),
            },
    {
        let ghost data = self.data@;
        let ghost start = self.peak as int;
        let mut answer_sections: Vec<AnswerSection> = Vec::new();
        let mut i: usize = 0;
        while i < count
            invariant
                i <= count,
                self.data@ == data,
                self.data == old(self).data,
                start == old(self).peak as int,
                answer_sections@.len() == i,
                records_at(data, start, i as nat) == Some(
                    (records_view(answer_sections), self.peak as int),
                ),
            decreases count - i,
        {
            let ghost p0 = self.peak as int;
            let answer_section = match self.parse_answer_section() {
                Ok(v) => v,
                Err(e) => {
                    proof {
                        assert(record_at(data, p0) is None);
                        lemma_records_fail_after(data, start, i as nat, count as nat);
                    }
                    return Err(e);
                },
            };
            let ghost before = answer_sections@;
            answer_sections.push(answer_section);
            assert(records_view(answer_sections) =~= before.map_values(|r: AnswerSection| r@).push(
                answer_sections@[i as int]@,
            ));
            i += 1;
        }
        Ok(answer_sections)
    }

    /// Reads a whole message from the cursor: the header, then as many records in
    /// each section as the header counts.
    pub fn parse(&mut self) -> (r: Result<Message, DnsError>)
        ensures
            final(self).input() == old(self).input(),
            match message_at(old(self).input(), old(self).position()) {
                Some((m, end)) => r is Ok && r->Ok_0@ == m && final(self).position() == end,
                None => r == Err::<Message, DnsError>(DnsError::MalformedMessage),
            },
    {
        let id = self.read_u16()?;
        let head = self.read_u16()?;
        let qd_count = self.read_u16()?;
        let an_count = self.read_u16()?;
        let ns_count = self.read_u16()?;
        let ar_count = self.read_u16()?;
        let query_sections = self.parse_query_sections(qd_count as usize)?;
        let answer_sections = self.parse_answer_sections(an_count as usize)?;
        let authority_sections = self.parse_answer_sections(ns_count as usize)?;
        let additional_information_sections = self.parse_answer_sections(ar_count as usize)?;
        Ok(
            Message {
                id,
                head,
                query_sections,
                answer_sections,
                authority_sections,
                additional_information_sections,
            },
        )
    }

    fn read_u16(&mut self) -> (r: Result<u16, DnsError>)
        ensures
            final(self).data == old(self).data,
            match u16_at(old(self).data@, old(self).peak as int) {
                Some((v, end)) => r == Ok::<u16, DnsError>(v) && final(self).peak == end,
                None => r == Err::<u16, DnsError>(DnsError::MalformedMessage),
            },
    {
        if self.peak > self.data.len() || self.data.len() - self.peak < 2 {
            return Err(DnsError::MalformedMessage);
        }
        let b0 = self.read_peak()?;
        let b1 = self.read_peak()?;
        Ok((b0 as u16) * 256 + (b1 as u16))
    }

    fn read_u32(&mut self) -> (r: Result<u32, DnsError>)
        ensures
            final(self).data == old(self).data,
            match u32_at(old(self).data@, old(self).peak as int) {
                Some((v, end)) => r == Ok::<u32, DnsError>(v) && final(self).peak == end,
                None => r == Err::<u32, DnsError>(DnsError::MalformedMessage),
            },
    {
        if self.peak > self.data.len() || self.data.len() - self.peak < 4 {
            return Err(DnsError::MalformedMessage);
        }
        let b0 = self.read_peak()?;
        let b1 = self.read_peak()?;
        let b2 = self.read_peak()?;
        let b3 = self.read_peak()?;
        Ok((b0 as u32) * 16777216 + (b1 as u32) * 65536 + (b2 as u32) * 256 + (b3 as u32))
    }
}

} // verus!
