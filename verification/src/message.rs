use vstd::prelude::*;

verus! {

/// The parts of a DNS question record the proxy reads: the owner name
/// in textual form and the 16-bit wire codes of record type and class.
pub struct Question {
    pub name: String,
    pub qtype: u16,
    pub qclass: u16,
}

/// Mathematical model of a question record.
pub ghost struct QuestionView {
    pub name: Seq<char>,
    pub qtype: u16,
    pub qclass: u16,
}

impl View for Question {
    type V = QuestionView;

    open spec fn view(&self) -> QuestionView {
        QuestionView { name: self.name@, qtype: self.qtype, qclass: self.qclass }
    }
}

/// The parts of a decoded DNS message the proxy reads: the transaction
/// id, the ordered question records, and the TTL of each answer record.
pub struct DnsMessage {
    pub id: u16,
    pub questions: Vec<Question>,
    pub answer_ttls: Vec<u32>,
}

/// Mathematical model of a decoded DNS message.
pub ghost struct MessageView {
    pub id: u16,
    pub questions: Seq<QuestionView>,
    pub answer_ttls: Seq<u32>,
}

impl View for DnsMessage {
    type V = MessageView;

    open spec fn view(&self) -> MessageView {
        MessageView {
            id: self.id,
            questions: self.questions@.map_values(|q: Question| q@),
            answer_ttls: self.answer_ttls@,
        }
    }
}

/// What trust_dns_proto's decoder yields on a raw payload, reduced to
/// the fields the proxy reads; `None` where the payload is malformed.
pub uninterp spec fn parsed(b: Seq<u8>) -> Option<MessageView>;

/// Decodes a raw DNS packet into the model the proxy works on.
///
/// Relies on trust_dns_proto's `Message::from_vec`, and on the
/// accessors `Message::id`, `Message::queries` (each query's name
/// rendered to text with `Name::to_string`, its type and class taken
/// as their 16-bit wire codes) and `Message::answers` with
/// `Record::ttl`. All of these depend on the payload bytes alone.
#[verifier::external_body]
pub(crate) fn parse_message(buf: &[u8]) -> (r: Option<DnsMessage>)
    ensures
        r is Some <==> parsed(buf@) is Some,
        r matches Some(m) ==> m@ == parsed(buf@)->0,
{
    match trust_dns_proto::op::Message::from_vec(buf) {
        Ok(m) => Some(DnsMessage {
            id: m.id(),
            questions: m.queries().iter().map(|q| Question {
                name: q.name().to_string(),
                qtype: u16::from(q.query_type()),
                qclass: u16::from(q.query_class()),
            }).collect(),
            answer_ttls: m.answers().iter().map(|a| a.ttl()).collect(),
        }),
        Err(_) => None,
    }
}

/// What trust_dns_proto emits when a well-formed reply is decoded,
/// each answer record's TTL is overwritten with the matching element
/// of `ttls` (extra answers keep their TTL, extra elements are
/// ignored), and the message is re-encoded; `None` where decoding or
/// re-encoding fails.
pub uninterp spec fn with_ttls(b: Seq<u8>, ttls: Seq<u32>) -> Option<Seq<u8>>;

/// Overwrites the answer TTLs of an encoded reply.
///
/// Relies on trust_dns_proto's `Message::from_vec` to decode the
/// reply, `Record::set_ttl` on each answer record, and
/// `BinEncodable::to_bytes` to re-encode; the result depends on the
/// reply bytes and the new TTLs alone.
#[verifier::external_body]
pub(crate) fn set_response_ttls(buf: &Vec<u8>, ttls: &Vec<u32>) -> (r: Option<Vec<u8>>)
    ensures
        r is Some <==> with_ttls(buf@, ttls@) is Some,
        r matches Some(v) ==> v@ == with_ttls(buf@, ttls@)->0,
{
    match trust_dns_proto::op::Message::from_vec(buf.as_slice()) {
        Ok(mut m) => {
            for (a, t) in m.answers_mut().iter_mut().zip(ttls.iter()) {
                a.set_ttl(*t);
            }
            trust_dns_proto::serialize::binary::BinEncodable::to_bytes(&m).ok()
        }
        Err(_) => None,
    }
}

/// The bytes of a reply with the transaction id overwritten: the DNS
/// header carries the id big-endian in its first two bytes.
pub open spec fn with_id(b: Seq<u8>, id: u16) -> Seq<u8> {
    b.update(0, (id / 256) as u8).update(1, (id % 256) as u8)
}

/// The transaction id an encoded DNS message carries.
pub open spec fn wire_id(b: Seq<u8>) -> int {
    b[0] * 256 + b[1]
}

/// Overwrites the transaction id of an encoded DNS message in place.
pub fn set_wire_id(bytes: &mut Vec<u8>, id: u16)
    requires
        old(bytes)@.len() >= 2,
    ensures
        final(bytes)@ == with_id(old(bytes)@, id),
{
    let hi: u8 = (id / 256) as u8;
    let lo: u8 = (id % 256) as u8;
    bytes.set(0, hi);
    bytes.set(1, lo);
}

/// The decimal digit character for a value below ten.
pub open spec fn dec_digit(d: int) -> char {
    if d == 0 { '0' }
    else if d == 1 { '1' }
    else if d == 2 { '2' }
    else if d == 3 { '3' }
    else if d == 4 { '4' }
    else if d == 5 { '5' }
    else if d == 6 { '6' }
    else if d == 7 { '7' }
    else if d == 8 { '8' }
    else { '9' }
}

/// The decimal representation of a non-negative number, most
/// significant digit first, with no leading zeroes.
pub open spec fn dec_rep(n: int) -> Seq<char>
    decreases n,
{
    if n < 10 {
        seq![dec_digit(n)]
    } else {
        dec_rep(n / 10).push(dec_digit(n % 10))
    }
}

/// The textual form of a question record: its name, type code and
/// class code, separated by single spaces.
pub open spec fn question_text(q: QuestionView) -> Seq<char> {
    q.name + seq![' '] + dec_rep(q.qtype as int) + seq![' '] + dec_rep(q.qclass as int)
}

/// The cache key of an ordered question list: the textual form of
/// every question in order, each followed by a newline delimiter.
pub open spec fn key_of(qs: Seq<QuestionView>) -> Seq<char>
    decreases qs.len(),
{
    if qs.len() == 0 {
        Seq::empty()
    } else {
        question_text(qs[0]) + seq!['\n'] + key_of(qs.drop_first())
    }
}

/// Identical ordered question records always give identical keys: the
/// key is a function of the question views alone.
pub proof fn lemma_key_deterministic(q1: Seq<QuestionView>, q2: Seq<QuestionView>)
    requires
        q1 == q2,
    ensures
        key_of(q1) == key_of(q2),
{
}

fn digit_str(d: u16) -> (r: &'static str)
    requires
        d < 10,
    ensures
        r@ == seq![dec_digit(d as int)],
{
    let r: &'static str = if d == 0 { "0" }
        else if d == 1 { "1" }
        else if d == 2 { "2" }
        else if d == 3 { "3" }
        else if d == 4 { "4" }
        else if d == 5 { "5" }
        else if d == 6 { "6" }
        else if d == 7 { "7" }
        else if d == 8 { "8" }
        else { "9" };
    proof {
        reveal_strlit("0");
        reveal_strlit("1");
        reveal_strlit("2");
        reveal_strlit("3");
        reveal_strlit("4");
        reveal_strlit("5");
        reveal_strlit("6");
        reveal_strlit("7");
        reveal_strlit("8");
        reveal_strlit("9");
        assert(r@ =~= seq![dec_digit(d as int)]);
    }
    r
}

/// Renders a 16-bit value in decimal.
pub fn u16_dec(n: u16) -> (r: String)
    ensures
        r@ == dec_rep(n as int),
    decreases n,
{
    if n < 10 {
        String::from_str(digit_str(n))
    } else {
        let mut s = u16_dec(n / 10);
        s.append(digit_str(n % 10));
        proof {
            assert(s@ =~= dec_rep(n as int / 10).push(dec_digit(n as int % 10)));
        }
        s
    }
}

/// Renders one question record in its textual form.
pub fn question_line(q: &Question) -> (r: String)
    ensures
        r@ == question_text(q@),
{
    let mut s = String::new();
    s.append(q.name.as_str());
    s.append(" ");
    let t = u16_dec(q.qtype);
    s.append(t.as_str());
    s.append(" ");
    let c = u16_dec(q.qclass);
    s.append(c.as_str());
    proof {
        reveal_strlit(" ");
        assert(" "@ =~= seq![' ']);
        assert(s@ =~= question_text(q@));
    }
    s
}

proof fn lemma_key_of_snoc(qs: Seq<QuestionView>, q: QuestionView)
    ensures
        key_of(qs.push(q)) == key_of(qs) + question_text(q) + seq!['\n'],
    decreases qs.len(),
{
    if qs.len() == 0 {
        assert(qs.push(q).drop_first() =~= Seq::<QuestionView>::empty());
        assert(qs.push(q)[0] == q);
        assert(key_of(qs.push(q)) == question_text(q) + seq!['\n'] + key_of(
            Seq::<QuestionView>::empty(),
        ));
        assert(key_of(Seq::<QuestionView>::empty()) == Seq::<char>::empty());
        assert(key_of(qs) == Seq::<char>::empty());
        assert(key_of(qs.push(q)) =~= key_of(qs) + question_text(q) + seq!['\n']);
    } else {
        lemma_key_of_snoc(qs.drop_first(), q);
        assert(qs.push(q).drop_first() =~= qs.drop_first().push(q));
        assert(qs.push(q)[0] == qs[0]);
        assert(key_of(qs.push(q)) == question_text(qs[0]) + seq!['\n'] + key_of(
            qs.drop_first().push(q),
        ));
        assert(key_of(qs) == question_text(qs[0]) + seq!['\n'] + key_of(qs.drop_first()));
        let a = question_text(qs[0]) + seq!['\n'];
        let d = key_of(qs.drop_first());
        let e = question_text(q);
        let f = seq!['\n'];
        vstd::seq_lib::lemma_concat_associative(a, d, e);
        vstd::seq_lib::lemma_concat_associative(a, d + e, f);
        assert(key_of(qs.push(q)) == a + (d + e + f));
        assert(a + (d + e + f) =~= a + (d + e) + f);
        assert(key_of(qs.push(q)) =~= key_of(qs) + question_text(q) + seq!['\n']);
    }
}

/// Builds the cache key of an ordered question list.
pub fn get_key(questions: &Vec<Question>) -> (r: String)
    ensures
        r@ == key_of(questions@.map_values(|q: Question| q@)),
{
    let ghost qs = questions@.map_values(|q: Question| q@);
    let mut key = String::new();
    proof {
        assert(qs.take(0) =~= Seq::<QuestionView>::empty());
    }
    let mut i: usize = 0;
    while i < questions.len()
        invariant
            i <= questions.len(),
            qs == questions@.map_values(|q: Question| q@),
            key@ == key_of(qs.take(i as int)),
        decreases questions.len() - i,
    {
        let line = question_line(&questions[i]);
        key.append(line.as_str());
        key.append("\n");
        proof {
            reveal_strlit("\n");
            assert("\n"@ =~= seq!['\n']);
            lemma_key_of_snoc(qs.take(i as int), qs[i as int]);
            assert(qs.take(i as int).push(qs[i as int]) =~= qs.take(i as int + 1));
            assert(key@ =~= key_of(qs.take(i as int + 1)));
        }
        i = i + 1;
    }
    proof {
        assert(qs.take(questions.len() as int) =~= qs);
    }
    key
}

/// Rewrites a cached reply for replay: every answer TTL is replaced
/// with the matching element of `ttls`, and the transaction id is
/// overwritten with the new client's. `None` where the re-encoder
/// fails or yields fewer than the two header bytes the id needs.
pub fn adjust_resp(bytes: &Vec<u8>, ttls: &Vec<u32>, id: u16) -> (r: Option<Vec<u8>>)
    ensures
        match r {
            Some(out) => with_ttls(bytes@, ttls@) matches Some(w) && w.len() >= 2 && out@
                == with_id(w, id),
            None => !(with_ttls(bytes@, ttls@) matches Some(w) && w.len() >= 2),
        },
{
    match set_response_ttls(bytes, ttls) {
        Some(mut out) => {
            if out.len() >= 2 {
                set_wire_id(&mut out, id);
                Some(out)
            } else {
                None
            }
        },
        None => None,
    }
}

/// A message with its id overwritten carries exactly that id.
pub proof fn lemma_with_id_sets_id(b: Seq<u8>, id: u16)
    requires
        b.len() >= 2,
    ensures
        wire_id(with_id(b, id)) == id,
{
    vstd::arithmetic::div_mod::lemma_fundamental_div_mod(id as int, 256);
}

} // verus!
