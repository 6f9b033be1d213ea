use vstd::prelude::*;
use crate::message::{MessageModel, QuestionModel, RDataModel, RecordModel};
use crate::parser::{
    decode, field_name_at, is_pointer, message_at, name_at, pointer_target, question_at, questions_at,
    rdata_at, record_at, records_at, u16_at, u32_at, MAX_POINTER_HOPS,
};
use crate::serializer::{
    be16, be32, label_bytes, labels_fit, message_bytes, name_bytes, names_fit, question_bytes,
    questions_bytes, rdata_bytes, record_bytes, records_bytes, sizes_fit,
};

verus! {

/// `b` stands in `data` from `pos` on.
pub open spec fn holds_at(data: Seq<u8>, pos: int, b: Seq<u8>) -> bool {
    0 <= pos && pos + b.len() <= data.len() && data.subrange(pos, pos + b.len()) == b
}

/// A label that decodes as it was encoded: not empty, and short enough that its
/// length byte is neither the terminator nor a pointer tag.
pub open spec fn label_ok(l: Seq<u8>) -> bool {
    1 <= l.len() <= 63
}

pub open spec fn name_ok(n: Seq<Seq<u8>>) -> bool {
    forall|i: int| 0 <= i < n.len() ==> #[trigger] label_ok(n[i])
}

/// The data variant agrees with the record type, and every length fits its field.
pub open spec fn record_ok(r: RecordModel) -> bool {
    &&& name_ok(r.aname)
    &&& rdata_bytes(r.rdata).len() <= 65535
    &&& match r.rdata {
        RDataModel::Cname(n) => r.atype == 5 && name_ok(n),
        RDataModel::Ipv4(_) => r.atype == 1,
        RDataModel::Unknown(_) => r.atype != 5 && r.atype != 1,
    }
}

pub open spec fn records_ok(rs: Seq<RecordModel>) -> bool {
    rs.len() <= 65535 && forall|i: int| 0 <= i < rs.len() ==> #[trigger] record_ok(rs[i])
}

/// A message that its encoding describes exactly.
pub open spec fn message_ok(m: MessageModel) -> bool {
    &&& m.questions.len() <= 65535
    &&& forall|i: int| 0 <= i < m.questions.len() ==> #[trigger] name_ok(m.questions[i].qname)
    &&& records_ok(m.answers)
    &&& records_ok(m.authority)
    &&& records_ok(m.additional)
}

proof fn lemma_split(data: Seq<u8>, pos: int, a: Seq<u8>, c: Seq<u8>)
    requires
        holds_at(data, pos, a + c),
    ensures
        holds_at(data, pos, a),
        holds_at(data, pos + a.len(), c),
{
    assert(data.subrange(pos, pos + a.len()) =~= (a + c).subrange(0, a.len() as int));
    assert(data.subrange(pos + a.len(), pos + a.len() + c.len()) =~= (a + c).subrange(
        a.len() as int,
        (a.len() + c.len()) as int,
    ));
    assert((a + c).subrange(0, a.len() as int) =~= a);
    assert((a + c).subrange(a.len() as int, (a.len() + c.len()) as int) =~= c);
}

proof fn lemma_u16(data: Seq<u8>, pos: int, v: u16)
    requires
        holds_at(data, pos, be16(v)),
    ensures
        u16_at(data, pos) == Some((v, pos + 2)),
{
    assert(data[pos] == data.subrange(pos, pos + 2)[0]);
    assert(data[pos + 1] == data.subrange(pos, pos + 2)[1]);
    assert((v / 256) * 256 + v % 256 == v);
}

proof fn lemma_u32(data: Seq<u8>, pos: int, v: u32)
    requires
        holds_at(data, pos, be32(v)),
    ensures
        u32_at(data, pos) == Some((v, pos + 4)),
{
    assert(data[pos] == data.subrange(pos, pos + 4)[0]);
    assert(data[pos + 1] == data.subrange(pos, pos + 4)[1]);
    assert(data[pos + 2] == data.subrange(pos, pos + 4)[2]);
    assert(data[pos + 3] == data.subrange(pos, pos + 4)[3]);
    let x = v as int;
    assert((x / 16777216) * 16777216 + ((x / 65536) % 256) * 65536 + ((x / 256) % 256) * 256 + x
        % 256 == x) by (nonlinear_arith)
        requires
            0 <= x < 0x1_0000_0000,
    ;
}

proof fn lemma_name_bytes_first(n: Seq<Seq<u8>>)
    requires
        n.len() > 0,
    ensures
        name_bytes(n) == label_bytes(n[0]) + name_bytes(n.drop_first()),
{
    let f = |l: Seq<u8>| label_bytes(l);
    assert(n.map_values(f).drop_first() =~= n.drop_first().map_values(f));
    assert(n.map_values(f).flatten() == f(n[0]) + n.map_values(f).drop_first().flatten());
    assert(name_bytes(n) =~= label_bytes(n[0]) + name_bytes(n.drop_first()));
}

proof fn lemma_label_tag(x: u8)
    requires
        1 <= x <= 63,
    ensures
        !is_pointer(x),
{
    assert(x & 0xC0u8 != 0xC0u8) by (bit_vector)
        requires
            1 <= x <= 63,
    ;
}

/// A name spelled out in full decodes to its labels, whatever the pointer budget.
pub proof fn lemma_name_round_trip(data: Seq<u8>, pos: int, n: Seq<Seq<u8>>, hops: nat)
    requires
        name_ok(n),
        holds_at(data, pos, name_bytes(n)),
    ensures
        name_at(data, pos, hops) == Some((n, pos + name_bytes(n).len())),
    decreases n.len(),
{
    if n.len() == 0 {
        assert(name_bytes(n) =~= seq![0u8]);
        assert(data[pos] == data.subrange(pos, pos + 1)[0]);
        assert(n =~= Seq::<Seq<u8>>::empty());
    } else {
        lemma_name_bytes_first(n);
        let rest = n.drop_first();
        let first = n[0];
        assert(label_ok(first));
        assert(label_bytes(first) == seq![first.len() as u8] + first);
        lemma_split(data, pos, label_bytes(first), name_bytes(rest));
        lemma_split(data, pos, seq![first.len() as u8], first);
        assert(data[pos] == data.subrange(pos, pos + 1)[0]);
        let tag = data[pos];
        assert(tag == first.len() as u8);
        lemma_label_tag(tag);
        assert(name_ok(rest)) by {
            assert forall|i: int| 0 <= i < rest.len() implies #[trigger] label_ok(rest[i]) by {
                assert(rest[i] == n[i + 1]);
            }
        }
        lemma_name_round_trip(data, pos + 1 + first.len(), rest, hops);
        assert(seq![first] + rest =~= n);
    }
}

proof fn lemma_question_round_trip(data: Seq<u8>, pos: int, q: QuestionModel)
    requires
        name_ok(q.qname),
        holds_at(data, pos, question_bytes(q)),
    ensures
        question_at(data, pos) == Some((q, pos + question_bytes(q).len())),
{
    let nb = name_bytes(q.qname);
    lemma_split(data, pos, nb + be16(q.qtype), be16(q.qclass));
    lemma_split(data, pos, nb, be16(q.qtype));
    lemma_name_round_trip(data, pos, q.qname, MAX_POINTER_HOPS as nat);
    lemma_u16(data, pos + nb.len(), q.qtype);
    lemma_u16(data, pos + nb.len() + 2, q.qclass);
}

proof fn lemma_record_round_trip(data: Seq<u8>, pos: int, r: RecordModel)
    requires
        record_ok(r),
        holds_at(data, pos, record_bytes(r)),
    ensures
        record_at(data, pos) == Some((r, pos + record_bytes(r).len())),
{
    let nb = name_bytes(r.aname);
    let rd = rdata_bytes(r.rdata);
    let a = nb + be16(r.atype);
    let b = a + be16(r.aclass);
    let c = b + be32(r.ttl);
    let d = c + be16(rd.len() as u16);
    assert(record_bytes(r) == d + rd);
    lemma_split(data, pos, d, rd);
    lemma_split(data, pos, c, be16(rd.len() as u16));
    lemma_split(data, pos, b, be32(r.ttl));
    lemma_split(data, pos, a, be16(r.aclass));
    lemma_split(data, pos, nb, be16(r.atype));
    lemma_name_round_trip(data, pos, r.aname, MAX_POINTER_HOPS as nat);
    lemma_u16(data, pos + nb.len(), r.atype);
    lemma_u16(data, pos + nb.len() + 2, r.aclass);
    lemma_u32(data, pos + nb.len() + 4, r.ttl);
    lemma_u16(data, pos + nb.len() + 8, rd.len() as u16);
    let p5 = pos + nb.len() + 10;
    assert(p5 == pos + d.len());
    match r.rdata {
        RDataModel::Cname(n) => {
            lemma_name_round_trip(data, p5, n, MAX_POINTER_HOPS as nat);
        },
        _ => {},
    }
    assert(rdata_at(data, p5, r.atype, rd.len() as u16) == Some((r.rdata, p5 + rd.len())));
}

proof fn lemma_questions_round_trip(data: Seq<u8>, pos: int, qs: Seq<QuestionModel>)
    requires
        forall|i: int| 0 <= i < qs.len() ==> #[trigger] name_ok(qs[i].qname),
        holds_at(data, pos, questions_bytes(qs)),
    ensures
        questions_at(data, pos, qs.len()) == Some((qs, pos + questions_bytes(qs).len())),
    decreases qs.len(),
{
    if qs.len() == 0 {
        assert(qs =~= Seq::<QuestionModel>::empty());
    } else {
        let init = qs.drop_last();
        let last = qs.last();
        let f = |q: QuestionModel| question_bytes(q);
        assert(qs.map_values(f) =~= init.map_values(f).push(f(last)));
        init.map_values(f).lemma_flatten_push(f(last));
        assert(questions_bytes(qs) == questions_bytes(init) + question_bytes(last));
        lemma_split(data, pos, questions_bytes(init), question_bytes(last));
        assert forall|i: int| 0 <= i < init.len() implies #[trigger] name_ok(init[i].qname) by {
            assert(init[i] == qs[i]);
        }
        lemma_questions_round_trip(data, pos, init);
        assert(name_ok(qs[qs.len() - 1].qname));
        lemma_question_round_trip(data, pos + questions_bytes(init).len(), last);
        assert(init.push(last) =~= qs);
    }
}

proof fn lemma_records_round_trip(data: Seq<u8>, pos: int, rs: Seq<RecordModel>)
    requires
        forall|i: int| 0 <= i < rs.len() ==> #[trigger] record_ok(rs[i]),
        holds_at(data, pos, records_bytes(rs)),
    ensures
        records_at(data, pos, rs.len()) == Some((rs, pos + records_bytes(rs).len())),
    decreases rs.len(),
{
    if rs.len() == 0 {
        assert(rs =~= Seq::<RecordModel>::empty());
    } else {
        let init = rs.drop_last();
        let last = rs.last();
        let f = |r: RecordModel| record_bytes(r);
        assert(rs.map_values(f) =~= init.map_values(f).push(f(last)));
        init.map_values(f).lemma_flatten_push(f(last));
        assert(records_bytes(rs) == records_bytes(init) + record_bytes(last));
        lemma_split(data, pos, records_bytes(init), record_bytes(last));
        assert forall|i: int| 0 <= i < init.len() implies #[trigger] record_ok(init[i]) by {
            assert(init[i] == rs[i]);
        }
        lemma_records_round_trip(data, pos, init);
        assert(record_ok(rs[rs.len() - 1]));
        lemma_record_round_trip(data, pos + records_bytes(init).len(), last);
        assert(init.push(last) =~= rs);
    }
}

proof fn lemma_sections_round_trip(data: Seq<u8>, pos: int, m: MessageModel)
    requires
        message_ok(m),
        holds_at(
            data,
            pos,
            questions_bytes(m.questions) + records_bytes(m.answers) + records_bytes(m.authority)
                + records_bytes(m.additional),
        ),
    ensures
        crate::parser::sections_at(
            data,
            pos,
            m.id,
            m.head,
            m.questions.len() as u16,
            m.answers.len() as u16,
            m.authority.len() as u16,
            m.additional.len() as u16,
        ) == Some(
            (
                m,
                pos + questions_bytes(m.questions).len() + records_bytes(m.answers).len()
                    + records_bytes(m.authority).len() + records_bytes(m.additional).len(),
            ),
        ),
{
    let q = questions_bytes(m.questions);
    let a = records_bytes(m.answers);
    let n = records_bytes(m.authority);
    let r = records_bytes(m.additional);
    lemma_split(data, pos, q + a + n, r);
    lemma_split(data, pos, q + a, n);
    lemma_split(data, pos, q, a);
    lemma_questions_round_trip(data, pos, m.questions);
    lemma_records_round_trip(data, pos + q.len(), m.answers);
    lemma_records_round_trip(data, pos + q.len() + a.len(), m.authority);
    lemma_records_round_trip(data, pos + q.len() + a.len() + n.len(), m.additional);
}

/// The twelve header bytes of a message: id, flags and the four section counts.
pub open spec fn header_bytes(m: MessageModel) -> Seq<u8> {
    be16(m.id) + be16(m.head) + be16(m.questions.len() as u16) + be16(m.answers.len() as u16)
        + be16(m.authority.len() as u16) + be16(m.additional.len() as u16)
}

proof fn lemma_header(data: Seq<u8>, m: MessageModel)
    requires
        holds_at(data, 0, header_bytes(m)),
    ensures
        u16_at(data, 0) == Some((m.id, 2int)),
        u16_at(data, 2) == Some((m.head, 4int)),
        u16_at(data, 4) == Some((m.questions.len() as u16, 6int)),
        u16_at(data, 6) == Some((m.answers.len() as u16, 8int)),
        u16_at(data, 8) == Some((m.authority.len() as u16, 10int)),
        u16_at(data, 10) == Some((m.additional.len() as u16, 12int)),
{
    let h1 = be16(m.id);
    let h2 = h1 + be16(m.head);
    let h3 = h2 + be16(m.questions.len() as u16);
    let h4 = h3 + be16(m.answers.len() as u16);
    let h5 = h4 + be16(m.authority.len() as u16);
    lemma_split(data, 0, h5, be16(m.additional.len() as u16));
    lemma_split(data, 0, h4, be16(m.authority.len() as u16));
    lemma_split(data, 0, h3, be16(m.answers.len() as u16));
    lemma_split(data, 0, h2, be16(m.questions.len() as u16));
    lemma_split(data, 0, h1, be16(m.head));
    lemma_u16(data, 0, m.id);
    lemma_u16(data, 2, m.head);
    lemma_u16(data, 4, m.questions.len() as u16);
    lemma_u16(data, 6, m.answers.len() as u16);
    lemma_u16(data, 8, m.authority.len() as u16);
    lemma_u16(data, 10, m.additional.len() as u16);
}

/// Encoding a well-formed message and decoding the bytes gives the message back,
/// and the decoder stops exactly at the end of the bytes.
pub proof fn lemma_round_trip(m: MessageModel)
    requires
        message_ok(m),
    ensures
        names_fit(m),
        sizes_fit(m),
        message_at(message_bytes(m), 0) == Some((m, message_bytes(m).len() as int)),
        decode(message_bytes(m)) == Some(m),
{
    lemma_message_round_trip(m);
    lemma_ok_fits(m);
}

#[verifier::rlimit(40)]
proof fn lemma_message_round_trip(m: MessageModel)
    requires
        message_ok(m),
    ensures
        message_at(message_bytes(m), 0) == Some((m, message_bytes(m).len() as int)),
{
    let data = message_bytes(m);
    let body = questions_bytes(m.questions) + records_bytes(m.answers) + records_bytes(m.authority)
        + records_bytes(m.additional);
    assert(data =~= header_bytes(m) + body);
    assert(holds_at(data, 0, data)) by {
        assert(data.subrange(0, data.len() as int) =~= data);
    }
    lemma_split(data, 0, header_bytes(m), body);
    lemma_header(data, m);
    lemma_sections_round_trip(data, 12, m);
}

proof fn lemma_name_ok_fits(n: Seq<Seq<u8>>)
    requires
        name_ok(n),
    ensures
        labels_fit(n),
{
    assert forall|i: int| 0 <= i < n.len() implies #[trigger] n[i].len() <= 255 by {
        assert(label_ok(n[i]));
    }
}

proof fn lemma_ok_fits(m: MessageModel)
    requires
        message_ok(m),
    ensures
        names_fit(m),
        sizes_fit(m),
{
    assert forall|i: int| 0 <= i < m.questions.len() implies #[trigger] labels_fit(
        m.questions[i].qname,
    ) by {
        lemma_name_ok_fits(m.questions[i].qname);
    }
    lemma_records_ok_fit(m.answers);
    lemma_records_ok_fit(m.authority);
    lemma_records_ok_fit(m.additional);
}

proof fn lemma_records_ok_fit(rs: Seq<RecordModel>)
    requires
        records_ok(rs),
    ensures
        crate::serializer::records_names_fit(rs),
        crate::serializer::records_sizes_fit(rs),
{
    assert forall|i: int| 0 <= i < rs.len() implies #[trigger] crate::serializer::record_names_fit(
        rs[i],
    ) by {
        assert(record_ok(rs[i]));
        lemma_name_ok_fits(rs[i].aname);
        match rs[i].rdata {
            RDataModel::Cname(n) => lemma_name_ok_fits(n),
            _ => {},
        }
    }
    assert forall|i: int| 0 <= i < rs.len() implies #[trigger] rdata_bytes(rs[i].rdata).len()
        <= 65535 by {
        assert(record_ok(rs[i]));
    }
}

/// The counts in an encoded header are the lengths of the message's sections,
/// whatever the message held before it was encoded.
pub proof fn lemma_header_counts(m: MessageModel)
    requires
        sizes_fit(m),
    ensures
        u16_at(message_bytes(m), 4) == Some((m.questions.len() as u16, 6int)),
        u16_at(message_bytes(m), 6) == Some((m.answers.len() as u16, 8int)),
        u16_at(message_bytes(m), 8) == Some((m.authority.len() as u16, 10int)),
        u16_at(message_bytes(m), 10) == Some((m.additional.len() as u16, 12int)),
        m.questions.len() as u16 == m.questions.len(),
        m.answers.len() as u16 == m.answers.len(),
        m.authority.len() as u16 == m.authority.len(),
        m.additional.len() as u16 == m.additional.len(),
{
    let data = message_bytes(m);
    let body = questions_bytes(m.questions) + records_bytes(m.answers) + records_bytes(m.authority)
        + records_bytes(m.additional);
    assert(data =~= header_bytes(m) + body);
    assert(holds_at(data, 0, data)) by {
        assert(data.subrange(0, data.len() as int) =~= data);
    }
    lemma_split(data, 0, header_bytes(m), body);
    lemma_header(data, m);
}

/// The labels of a name without its terminator.
pub open spec fn labels_bytes(n: Seq<Seq<u8>>) -> Seq<u8> {
    n.map_values(|l: Seq<u8>| label_bytes(l)).flatten()
}

proof fn lemma_labels_bytes_first(n: Seq<Seq<u8>>)
    requires
        n.len() > 0,
    ensures
        labels_bytes(n) == label_bytes(n[0]) + labels_bytes(n.drop_first()),
{
    let f = |l: Seq<u8>| label_bytes(l);
    assert(n.map_values(f).drop_first() =~= n.drop_first().map_values(f));
}

proof fn lemma_name_ok_split(a: Seq<Seq<u8>>, b: Seq<Seq<u8>>)
    requires
        name_ok(a + b),
    ensures
        name_ok(a),
        name_ok(b),
{
    assert forall|i: int| 0 <= i < a.len() implies #[trigger] label_ok(a[i]) by {
        assert((a + b)[i] == a[i]);
    }
    assert forall|i: int| 0 <= i < b.len() implies #[trigger] label_ok(b[i]) by {
        assert((a + b)[a.len() + i] == b[i]);
    }
}

/// Labels spelled out at `pos`, then a pointer to a name spelled out at `target`,
/// decode to the labels followed by the pointed-to name.
pub proof fn lemma_pointer_name(
    data: Seq<u8>,
    pos: int,
    pre: Seq<Seq<u8>>,
    target: int,
    suf: Seq<Seq<u8>>,
    hops: nat,
)
    requires
        name_ok(pre),
        name_ok(suf),
        hops >= 1,
        holds_at(data, pos, labels_bytes(pre)),
        0 <= pos + labels_bytes(pre).len(),
        pos + labels_bytes(pre).len() + 2 <= data.len(),
        is_pointer(data[pos + labels_bytes(pre).len()]),
        pointer_target(data, pos + labels_bytes(pre).len()) == target,
        holds_at(data, target, name_bytes(suf)),
    ensures
        name_at(data, pos, hops) == Some((pre + suf, pos + labels_bytes(pre).len() + 2)),
    decreases pre.len(),
{
    if pre.len() == 0 {
        assert(labels_bytes(pre) =~= Seq::<u8>::empty());
        let tag = data[pos];
        assert(tag != 0) by {
            assert(is_pointer(tag));
            assert(tag & 0xC0u8 == 0xC0u8 ==> tag != 0) by (bit_vector);
        }
        lemma_name_round_trip(data, target, suf, (hops - 1) as nat);
        assert(pre + suf =~= suf);
    } else {
        lemma_labels_bytes_first(pre);
        let rest = pre.drop_first();
        let first = pre[0];
        assert(label_ok(first));
        assert(label_bytes(first) == seq![first.len() as u8] + first);
        lemma_split(data, pos, label_bytes(first), labels_bytes(rest));
        lemma_split(data, pos, seq![first.len() as u8], first);
        assert(data[pos] == data.subrange(pos, pos + 1)[0]);
        lemma_label_tag(data[pos]);
        assert(name_ok(rest)) by {
            assert forall|i: int| 0 <= i < rest.len() implies #[trigger] label_ok(rest[i]) by {
                assert(rest[i] == pre[i + 1]);
            }
        }
        lemma_pointer_name(data, pos + 1 + first.len(), rest, target, suf, hops);
        assert(seq![first] + (rest + suf) =~= pre + suf);
    }
}

/// A name read through a compression pointer and the same name spelled out in
/// full decode to the same labels.
pub proof fn lemma_compression_transparent(
    data: Seq<u8>,
    spelled: int,
    pos: int,
    pre: Seq<Seq<u8>>,
    target: int,
    suf: Seq<Seq<u8>>,
)
    requires
        name_ok(pre + suf),
        holds_at(data, spelled, name_bytes(pre + suf)),
        holds_at(data, pos, labels_bytes(pre)),
        pos + labels_bytes(pre).len() + 2 <= data.len(),
        is_pointer(data[pos + labels_bytes(pre).len()]),
        pointer_target(data, pos + labels_bytes(pre).len()) == target,
        holds_at(data, target, name_bytes(suf)),
    ensures
        field_name_at(data, spelled) is Some,
        field_name_at(data, pos) is Some,
        field_name_at(data, spelled).unwrap().0 == field_name_at(data, pos).unwrap().0,
{
    lemma_name_ok_split(pre, suf);
    lemma_name_round_trip(data, spelled, pre + suf, MAX_POINTER_HOPS as nat);
    lemma_pointer_name(data, pos, pre, target, suf, MAX_POINTER_HOPS as nat);
}

/// Every position of `cycle` holds a pointer to a position of `cycle`.
pub open spec fn pointer_cycle(data: Seq<u8>, cycle: Set<int>) -> bool {
    forall|x: int|
        #[trigger] cycle.contains(x) ==> 0 <= x && x + 2 <= data.len() && is_pointer(data[x])
            && cycle.contains(pointer_target(data, x))
}

/// A name that starts on a cycle of compression pointers, a pointer to itself
/// included, is rejected, whatever the pointer budget.
pub proof fn lemma_pointer_cycle_rejected(data: Seq<u8>, cycle: Set<int>, pos: int, hops: nat)
    requires
        pointer_cycle(data, cycle),
        cycle.contains(pos),
    ensures
        name_at(data, pos, hops) is None,
    decreases hops,
{
    let tag = data[pos];
    assert(tag != 0) by {
        assert(is_pointer(tag));
        assert(tag & 0xC0u8 == 0xC0u8 ==> tag != 0) by (bit_vector);
    }
    if hops > 0 {
        lemma_pointer_cycle_rejected(data, cycle, pointer_target(data, pos), (hops - 1) as nat);
    }
}

proof fn lemma_u16_prefix(d: Seq<u8>, k: int, pos: int)
    requires
        0 <= k <= d.len(),
        u16_at(d.take(k), pos) is Some,
    ensures
        u16_at(d, pos) == u16_at(d.take(k), pos),
        u16_at(d.take(k), pos).unwrap().1 <= k,
{
    assert(d.take(k)[pos] == d[pos]);
    assert(d.take(k)[pos + 1] == d[pos + 1]);
}

proof fn lemma_u32_prefix(d: Seq<u8>, k: int, pos: int)
    requires
        0 <= k <= d.len(),
        u32_at(d.take(k), pos) is Some,
    ensures
        u32_at(d, pos) == u32_at(d.take(k), pos),
        u32_at(d.take(k), pos).unwrap().1 <= k,
{
    assert(d.take(k)[pos] == d[pos]);
    assert(d.take(k)[pos + 1] == d[pos + 1]);
    assert(d.take(k)[pos + 2] == d[pos + 2]);
    assert(d.take(k)[pos + 3] == d[pos + 3]);
}

proof fn lemma_name_prefix(d: Seq<u8>, k: int, pos: int, hops: nat)
    requires
        0 <= k <= d.len(),
        name_at(d.take(k), pos, hops) is Some,
    ensures
        name_at(d, pos, hops) == name_at(d.take(k), pos, hops),
        name_at(d.take(k), pos, hops).unwrap().1 <= k,
    decreases hops, k - pos,
{
    let t = d.take(k);
    assert(t[pos] == d[pos]);
    if t[pos] == 0 {
    } else if is_pointer(t[pos]) {
        assert(t[pos + 1] == d[pos + 1]);
        assert(pointer_target(t, pos) == pointer_target(d, pos));
        lemma_name_prefix(d, k, pointer_target(t, pos), (hops - 1) as nat);
    } else {
        let len = t[pos] as int;
        assert(t.subrange(pos + 1, pos + 1 + len) =~= d.subrange(pos + 1, pos + 1 + len));
        lemma_name_prefix(d, k, pos + 1 + len, hops);
    }
}

proof fn lemma_question_prefix(d: Seq<u8>, k: int, pos: int)
    requires
        0 <= k <= d.len(),
        question_at(d.take(k), pos) is Some,
    ensures
        question_at(d, pos) == question_at(d.take(k), pos),
        question_at(d.take(k), pos).unwrap().1 <= k,
{
    let t = d.take(k);
    lemma_name_prefix(d, k, pos, MAX_POINTER_HOPS as nat);
    let p1 = field_name_at(t, pos).unwrap().1;
    lemma_u16_prefix(d, k, p1);
    lemma_u16_prefix(d, k, p1 + 2);
}

proof fn lemma_record_prefix(d: Seq<u8>, k: int, pos: int)
    requires
        0 <= k <= d.len(),
        record_at(d.take(k), pos) is Some,
    ensures
        record_at(d, pos) == record_at(d.take(k), pos),
        record_at(d.take(k), pos).unwrap().1 <= k,
{
    let t = d.take(k);
    lemma_name_prefix(d, k, pos, MAX_POINTER_HOPS as nat);
    let p1 = field_name_at(t, pos).unwrap().1;
    lemma_u16_prefix(d, k, p1);
    lemma_u16_prefix(d, k, p1 + 2);
    lemma_u32_prefix(d, k, p1 + 4);
    lemma_u16_prefix(d, k, p1 + 8);
    let rtype = u16_at(t, p1).unwrap().0;
    let len = u16_at(t, p1 + 8).unwrap().0;
    let p5 = p1 + 10;
    if rtype == 5 {
        lemma_name_prefix(d, k, p5, MAX_POINTER_HOPS as nat);
    } else {
        assert(t.subrange(p5, p5 + len) =~= d.subrange(p5, p5 + len));
    }
    assert(rdata_at(d, p5, rtype, len) == rdata_at(t, p5, rtype, len));
}

proof fn lemma_questions_prefix(d: Seq<u8>, k: int, pos: int, count: nat)
    requires
        0 <= k <= d.len(),
        pos <= k,
        questions_at(d.take(k), pos, count) is Some,
    ensures
        questions_at(d, pos, count) == questions_at(d.take(k), pos, count),
        questions_at(d.take(k), pos, count).unwrap().1 <= k,
    decreases count,
{
    if count > 0 {
        lemma_questions_prefix(d, k, pos, (count - 1) as nat);
        lemma_question_prefix(d, k, questions_at(d.take(k), pos, (count - 1) as nat).unwrap().1);
    }
}

proof fn lemma_records_prefix(d: Seq<u8>, k: int, pos: int, count: nat)
    requires
        0 <= k <= d.len(),
        pos <= k,
        records_at(d.take(k), pos, count) is Some,
    ensures
        records_at(d, pos, count) == records_at(d.take(k), pos, count),
        records_at(d.take(k), pos, count).unwrap().1 <= k,
    decreases count,
{
    if count > 0 {
        lemma_records_prefix(d, k, pos, (count - 1) as nat);
        lemma_record_prefix(d, k, records_at(d.take(k), pos, (count - 1) as nat).unwrap().1);
    }
}

proof fn lemma_message_prefix(d: Seq<u8>, k: int)
    requires
        0 <= k <= d.len(),
        message_at(d.take(k), 0) is Some,
    ensures
        message_at(d, 0) == message_at(d.take(k), 0),
        message_at(d.take(k), 0).unwrap().1 <= k,
{
    let t = d.take(k);
    lemma_u16_prefix(d, k, 0);
    lemma_u16_prefix(d, k, 2);
    lemma_u16_prefix(d, k, 4);
    lemma_u16_prefix(d, k, 6);
    lemma_u16_prefix(d, k, 8);
    lemma_u16_prefix(d, k, 10);
    let qd = u16_at(t, 4).unwrap().0;
    let an = u16_at(t, 6).unwrap().0;
    let ns = u16_at(t, 8).unwrap().0;
    let ar = u16_at(t, 10).unwrap().0;
    lemma_questions_prefix(d, k, 12, qd as nat);
    let p1 = questions_at(t, 12, qd as nat).unwrap().1;
    lemma_records_prefix(d, k, p1, an as nat);
    let p2 = records_at(t, p1, an as nat).unwrap().1;
    lemma_records_prefix(d, k, p2, ns as nat);
    let p3 = records_at(t, p2, ns as nat).unwrap().1;
    lemma_records_prefix(d, k, p3, ar as nat);
}

/// Every proper prefix of a well-formed message's encoding is rejected.
pub proof fn lemma_truncation_rejected(m: MessageModel, k: int)
    requires
        message_ok(m),
        0 <= k < message_bytes(m).len(),
    ensures
        message_at(message_bytes(m).take(k), 0) is None,
{
    let d = message_bytes(m);
    lemma_round_trip(m);
    if message_at(d.take(k), 0) is Some {
        lemma_message_prefix(d, k);
    }
}

} // verus!
