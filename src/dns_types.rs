//! Record types and classes of the question entry, and their fixed 4-byte wire layout.
use vstd::prelude::*;

verus! {

/// Record types a query may ask for.
#[derive(Clone, Copy, Debug, PartialEq, Eq, Structural)]
pub enum QType {
    A,
    NS,
    CNAME,
    SOA,
    PTR,
    MX,
    TXT,
    AAAA,
}

/// Classes a query may ask in.
#[derive(Clone, Copy, Debug, PartialEq, Eq, Structural)]
pub enum QClass {
    In,
    Cs,
    Ch,
    Hs,
}

/// The 16-bit wire value of a record type.
pub open spec fn qtype_value(t: QType) -> u16 {
    match t {
        QType::A => 1,
        QType::NS => 2,
        QType::CNAME => 5,
        QType::SOA => 6,
        QType::PTR => 12,
        QType::MX => 15,
        QType::TXT => 16,
        QType::AAAA => 28,
    }
}

/// The 16-bit wire value of a class.
pub open spec fn qclass_value(c: QClass) -> u16 {
    match c {
        QClass::In => 1,
        QClass::Cs => 2,
        QClass::Ch => 3,
        QClass::Hs => 4,
    }
}

impl QType {
    pub fn get_value(self) -> (r: u16)
        ensures
            r == qtype_value(self),
    {
        match self {
            QType::A => 1,
            QType::NS => 2,
            QType::CNAME => 5,
            QType::SOA => 6,
            QType::PTR => 12,
            QType::MX => 15,
            QType::TXT => 16,
            QType::AAAA => 28,
        }
    }
}

impl QClass {
    pub fn get_value(self) -> (r: u16)
        ensures
            r == qclass_value(self),
    {
        match self {
            QClass::In => 1,
            QClass::Cs => 2,
            QClass::Ch => 3,
            QClass::Hs => 4,
        }
    }
}

/// Big-endian bytes of a 16-bit value.
pub open spec fn u16_be_bytes(v: u16) -> Seq<u8> {
    seq![(v / 256) as u8, (v % 256) as u8]
}

/// The 16-bit value of two big-endian bytes.
pub open spec fn u16_of_be(hi: u8, lo: u8) -> u16 {
    (hi as int * 256 + lo as int) as u16
}

/// Wire layout of the type and class codes: two bytes each, big-endian, type first.
pub open spec fn type_and_class_bytes(q_type: u16, q_class: u16) -> Seq<u8> {
    u16_be_bytes(q_type) + u16_be_bytes(q_class)
}

/// The type and class codes read from four bytes at `pos`, if the message holds them.
pub open spec fn type_and_class_at(msg: Seq<u8>, pos: int) -> Option<(u16, u16)> {
    if 0 <= pos && pos + 4 <= msg.len() {
        Some((u16_of_be(msg[pos], msg[pos + 1]), u16_of_be(msg[pos + 2], msg[pos + 3])))
    } else {
        None
    }
}

pub fn encode_type_and_class(q_type: u16, q_class: u16) -> (r: Vec<u8>)
    ensures
        r@ == type_and_class_bytes(q_type, q_class),
{
    let r = vec![(q_type / 256) as u8, (q_type % 256) as u8, (q_class / 256) as u8, (q_class % 256) as u8];
    assert(r@ =~= type_and_class_bytes(q_type, q_class));
    r
}

/// Reads the type and class codes at `pos`; `None` where fewer than four bytes remain.
/// On success the count of bytes read is always 4.
pub fn parse_type_and_class(msg: &[u8], pos: usize) -> (r: Option<(u16, u16, u16)>)
    ensures
        match r {
            Some((t, c, n)) => type_and_class_at(msg@, pos as int) == Some((t, c)) && n == 4,
            None => type_and_class_at(msg@, pos as int) is None,
        },
{
    if pos > msg.len() || msg.len() - pos < 4 {
        return None;
    }
    let t = (msg[pos] as u16) * 256 + msg[pos + 1] as u16;
    let c = (msg[pos + 2] as u16) * 256 + msg[pos + 3] as u16;
    Some((t, c, 4))
}

/// Writing two codes and reading them back gives the same codes.
pub proof fn lemma_type_and_class_round_trip(prefix: Seq<u8>, q_type: u16, q_class: u16, suffix: Seq<u8>)
    ensures
        type_and_class_at(prefix + type_and_class_bytes(q_type, q_class) + suffix, prefix.len() as int)
            == Some((q_type, q_class)),
{
    let msg = prefix + type_and_class_bytes(q_type, q_class) + suffix;
    let p = prefix.len() as int;
    assert(msg[p] == (q_type / 256) as u8);
    assert(msg[p + 1] == (q_type % 256) as u8);
    assert(msg[p + 2] == (q_class / 256) as u8);
    assert(msg[p + 3] == (q_class % 256) as u8);
}

} // verus!
