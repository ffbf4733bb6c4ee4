//! Domain names: built from dotted text, written as a sequence of length-prefixed
//! labels ended by a zero byte, and read back with compression pointers followed.
use vstd::prelude::*;
use vstd::string::StringSliceAdditionalSpecFns;

verus! {

/// The labels of a domain name, in order from the leftmost.
pub struct DomainName {
    labels: Vec<Vec<u8>>,
}

/// The bytes of each label.
pub open spec fn labels_view(ls: Seq<Vec<u8>>) -> Seq<Seq<u8>> {
    ls.map_values(|l: Vec<u8>| l@)
}

impl View for DomainName {
    type V = Seq<Seq<u8>>;

    closed spec fn view(&self) -> Seq<Seq<u8>> {
        labels_view(self.labels@)
    }
}

/// The pieces of `s` between dots, from the leftmost; `s` itself when it holds no dot.
pub open spec fn split_dots(s: Seq<u8>) -> Seq<Seq<u8>>
    decreases s.len(),
{
    if s.len() == 0 {
        seq![Seq::empty()]
    } else {
        let rest = split_dots(s.drop_last());
        if s.last() == 0x2e {
            rest.push(Seq::empty())
        } else {
            rest.update(rest.len() - 1, rest.last().push(s.last()))
        }
    }
}

/// The labels named by dotted text: none for the empty text (the root), else the pieces
/// between dots.
pub open spec fn labels_of_text(s: Seq<u8>) -> Seq<Seq<u8>> {
    if s.len() == 0 {
        Seq::empty()
    } else {
        split_dots(s)
    }
}

/// Every label can be written on the wire: 1 to 63 bytes.
pub open spec fn labels_valid(ls: Seq<Seq<u8>>) -> bool {
    forall|i: int| 0 <= i < ls.len() ==> 1 <= #[trigger] ls[i].len() <= 63
}

/// Wire form of labels: each one as its length byte then its bytes, then a zero byte.
pub open spec fn encode_labels(ls: Seq<Seq<u8>>) -> Seq<u8>
    decreases ls.len(),
{
    if ls.len() == 0 {
        seq![0u8]
    } else {
        seq![ls[0].len() as u8] + ls[0] + encode_labels(ls.drop_first())
    }
}

/// The name written at `pos` of `msg`: its labels and the count of bytes it occupies at
/// `pos`. A compression pointer counts as two bytes and must point before `limit`, the
/// start of the run of labels it ends; this makes every chain of pointers finite.
/// `None` where the name runs past the message, a pointer points too far, or a length
/// byte has the reserved form `01xxxxxx` or `10xxxxxx`.
pub open spec fn decode_name(msg: Seq<u8>, pos: nat, limit: nat) -> Option<(Seq<Seq<u8>>, nat)>
    decreases limit, msg.len() - pos,
{
    if pos >= msg.len() {
        None
    } else {
        let b = msg[pos as int];
        if b == 0 {
            Some((Seq::empty(), 1nat))
        } else if b >= 0xc0 {
            if pos + 1 >= msg.len() {
                None
            } else {
                let target = ((b - 0xc0) * 256 + msg[pos + 1 as int]) as nat;
                if target < limit {
                    match decode_name(msg, target, target) {
                        Some((ls, _)) => Some((ls, 2nat)),
                        None => None,
                    }
                } else {
                    None
                }
            }
        } else if b >= 0x40 {
            None
        } else {
            let end = pos + 1 + b;
            if end > msg.len() {
                None
            } else {
                match decode_name(msg, end as nat, limit) {
                    Some((ls, n)) => Some((
                        seq![msg.subrange(pos + 1 as int, end as int)] + ls,
                        (1 + b + n) as nat,
                    )),
                    None => None,
                }
            }
        }
    }
}

/// The name starting at `pos`, whose pointers must point before `pos`.
pub open spec fn name_at(msg: Seq<u8>, pos: nat) -> Option<(Seq<Seq<u8>>, nat)> {
    decode_name(msg, pos, pos)
}

/// Labels that can be written are read back from their wire form wherever it stands in a
/// message, with the count of bytes that the wire form occupies.
pub proof fn lemma_decode_encoded(msg: Seq<u8>, pos: nat, ls: Seq<Seq<u8>>, limit: nat)
    requires
        labels_valid(ls),
        pos + encode_labels(ls).len() <= msg.len(),
        msg.subrange(pos as int, pos + encode_labels(ls).len() as int) == encode_labels(ls),
    ensures
        decode_name(msg, pos, limit) == Some((ls, encode_labels(ls).len())),
    decreases ls.len(),
{
    let enc = encode_labels(ls);
    let p = pos as int;
    let whole = msg.subrange(p, p + enc.len());
    assert(msg[p] == whole[0]);
    if ls.len() > 0 {
        let b = ls[0].len() as int;
        let rest = ls.drop_first();
        let rest_enc = encode_labels(rest);
        let e = p + 1 + b;
        assert(labels_valid(rest)) by {
            assert forall|i: int| 0 <= i < rest.len() implies 1 <= #[trigger] rest[i].len() <= 63 by {
                assert(rest[i] == ls[i + 1]);
            }
        }
        assert(1 <= ls[0].len() <= 63);
        assert(enc =~= seq![b as u8] + ls[0] + rest_enc);
        assert(msg.subrange(p + 1, e) =~= ls[0]) by {
            assert forall|k: int| 0 <= k < b implies msg.subrange(p + 1, e)[k] == ls[0][k] by {
                assert(whole[1 + k] == enc[1 + k]);
            }
        }
        assert(msg.subrange(e, e + rest_enc.len()) =~= rest_enc) by {
            assert forall|k: int| 0 <= k < rest_enc.len() implies msg.subrange(e, e + rest_enc.len())[k]
                == rest_enc[k] by {
                assert(whole[1 + b + k] == enc[1 + b + k]);
            }
        }
        lemma_decode_encoded(msg, e as nat, rest, limit);
        assert(seq![ls[0]] + rest =~= ls);
    }
}

/// Every label read from the wire is 1 to 63 bytes long.
pub proof fn lemma_decoded_labels_valid(msg: Seq<u8>, pos: nat, limit: nat)
    ensures
        decode_name(msg, pos, limit) matches Some((ls, _)) ==> labels_valid(ls),
    decreases limit, msg.len() - pos,
{
    if pos < msg.len() {
        let b = msg[pos as int];
        if b >= 0xc0 {
            if pos + 1 < msg.len() {
                let target = ((b - 0xc0) * 256 + msg[pos + 1 as int]) as nat;
                if target < limit {
                    lemma_decoded_labels_valid(msg, target, target);
                }
            }
        } else if 0 < b < 0x40 && pos + 1 + b <= msg.len() {
            let end = (pos + 1 + b) as nat;
            lemma_decoded_labels_valid(msg, end, limit);
            if let Some((rest, _)) = decode_name(msg, end, limit) {
                let ls = seq![msg.subrange(pos + 1 as int, end as int)] + rest;
                assert forall|i: int| 0 <= i < ls.len() implies 1 <= #[trigger] ls[i].len() <= 63 by {
                    if i > 0 {
                        assert(ls[i] == rest[i - 1]);
                    }
                }
            }
        }
    }
}

/// Dotted text holds at most one more piece than it has bytes.
pub proof fn lemma_split_dots_len(s: Seq<u8>)
    ensures
        1 <= split_dots(s).len() <= s.len() + 1,
    decreases s.len(),
{
    if s.len() > 0 {
        lemma_split_dots_len(s.drop_last());
    }
}

/// Labels that can be written take at most 64 bytes each, and one more byte ends them.
pub proof fn lemma_encode_len_bound(ls: Seq<Seq<u8>>)
    requires
        labels_valid(ls),
    ensures
        encode_labels(ls).len() <= 1 + 64 * ls.len(),
    decreases ls.len(),
{
    if ls.len() > 0 {
        let rest = ls.drop_first();
        assert(labels_valid(rest)) by {
            assert forall|i: int| 0 <= i < rest.len() implies 1 <= #[trigger] rest[i].len() <= 63 by {
                assert(rest[i] == ls[i + 1]);
            }
        }
        assert(1 <= ls[0].len() <= 63);
        lemma_encode_len_bound(rest);
    }
}

impl DomainName {
    /// The name that dotted text stands for: the pieces between dots are its labels, and
    /// the empty text is the root. Nothing is checked here; `labels_valid` says when the
    /// result can be written and read back.
    pub fn new(text: &str) -> (r: DomainName)
        ensures
            r@ == labels_of_text(text.spec_bytes()),
    {
        let bytes = text.as_bytes();
        let ghost s = bytes@;
        let mut labels: Vec<Vec<u8>> = Vec::new();
        let mut cur: Vec<u8> = Vec::new();
        let mut i: usize = 0;
        while i < bytes.len()
            invariant
                bytes@ == s,
                i <= s.len(),
                labels_view(labels@).push(cur@) == split_dots(s.subrange(0, i as int)),
            decreases s.len() - i,
        {
            let ghost before = s.subrange(0, i as int);
            assert(s.subrange(0, i as int + 1).drop_last() =~= before);
            let b = bytes[i];
            if b == 0x2e {
                labels.push(cur);
                cur = Vec::new();
                assert(labels_view(labels@).push(cur@) =~= split_dots(before).push(Seq::empty()));
            } else {
                cur.push(b);
                assert(labels_view(labels@).push(cur@) =~= split_dots(before).update(
                    split_dots(before).len() - 1,
                    split_dots(before).last().push(b),
                ));
            }
            i = i + 1;
        }
        assert(s.subrange(0, s.len() as int) =~= s);
        if bytes.len() > 0 {
            labels.push(cur);
        } else {
            assert(labels_view(labels@) =~= Seq::<Seq<u8>>::empty());
        }
        DomainName { labels }
    }

    /// The wire form of the name, without compression.
    pub fn encode(&self) -> (r: Vec<u8>)
        ensures
            r@ == encode_labels(self@),
    {
        let mut r: Vec<u8> = Vec::new();
        let mut i: usize = 0;
        assert(self@.subrange(0, self@.len() as int) =~= self@);
        while i < self.labels.len()
            invariant
                i <= self.labels@.len(),
                self@.len() == self.labels@.len(),
                encode_labels(self@) == r@ + encode_labels(self@.subrange(i as int, self@.len() as int)),
            decreases self.labels@.len() - i,
        {
            let ghost rest = self@.subrange(i as int, self@.len() as int);
            assert(rest.drop_first() =~= self@.subrange(i as int + 1, self@.len() as int));
            let label = &self.labels[i];
            assert(label@ == self@[i as int]);
            r.push(#[verifier::truncate] (label.len() as u8));
            let mut j: usize = 0;
            let ghost r0 = r@;
            while j < label.len()
                invariant
                    j <= label@.len(),
                    r@ == r0 + label@.subrange(0, j as int),
                decreases label@.len() - j,
            {
                r.push(label[j]);
                assert(label@.subrange(0, j as int + 1) =~= label@.subrange(0, j as int).push(label@[j as int]));
                j = j + 1;
            }
            assert(label@.subrange(0, label@.len() as int) =~= label@);
            assert(r@ + encode_labels(self@.subrange(i as int + 1, self@.len() as int)) =~= r0.drop_last()
                + encode_labels(rest));
            i = i + 1;
        }
        assert(self@.subrange(i as int, self@.len() as int) =~= Seq::<Seq<u8>>::empty());
        r.push(0);
        assert(encode_labels(Seq::<Seq<u8>>::empty()) == seq![0u8]);
        assert(r@ =~= encode_labels(self@));
        r
    }

    /// Reads the name at `pos`, whose pointers must point before `pos`. On success also
    /// gives the count of bytes that the name occupies at `pos`.
    pub fn parse(msg: &[u8], pos: usize) -> (r: Option<(DomainName, usize)>)
        ensures
            match r {
                Some((d, n)) => name_at(msg@, pos as nat) == Some((d@, n as nat)) && pos + n <= msg@.len(),
                None => name_at(msg@, pos as nat) is None,
            },
    {
        match decode_at(msg, pos, pos) {
            Some((labels, n)) => Some((DomainName { labels }, n)),
            None => None,
        }
    }

    /// The labels of the name.
    pub fn labels(&self) -> (r: &Vec<Vec<u8>>)
        ensures
            labels_view(r@) == self@,
    {
        &self.labels
    }
}

fn decode_at(msg: &[u8], pos: usize, limit: usize) -> (r: Option<(Vec<Vec<u8>>, usize)>)
    ensures
        match r {
            Some((ls, n)) => decode_name(msg@, pos as nat, limit as nat) == Some((labels_view(ls@), n as nat))
                && pos + n <= msg@.len(),
            None => decode_name(msg@, pos as nat, limit as nat) is None,
        },
    decreases limit, msg@.len() - pos,
{
    if pos >= msg.len() {
        return None;
    }
    let b = msg[pos];
    if b == 0 {
        assert(labels_view(Seq::<Vec<u8>>::empty()) =~= Seq::<Seq<u8>>::empty());
        Some((Vec::new(), 1))
    } else if b >= 0xc0 {
        if pos + 1 >= msg.len() {
            return None;
        }
        let target = ((b - 0xc0) as usize) * 256 + msg[pos + 1] as usize;
        if target < limit {
            match decode_at(msg, target, target) {
                Some((ls, _)) => Some((ls, 2)),
                None => None,
            }
        } else {
            None
        }
    } else if b >= 0x40 {
        None
    } else {
        if b as usize > msg.len() - pos - 1 {
            return None;
        }
        let end = pos + 1 + b as usize;
        match decode_at(msg, end, limit) {
            Some((mut ls, n)) => {
                let ghost rest = ls@;
                let label = slice_range(msg, pos + 1, end);
                ls.insert(0, label);
                assert(labels_view(ls@) =~= seq![msg@.subrange(pos + 1, end as int)] + labels_view(rest));
                Some((ls, 1 + b as usize + n))
            },
            None => None,
        }
    }
}

/// The bytes of `msg` from `start` up to `end`.
fn slice_range(msg: &[u8], start: usize, end: usize) -> (r: Vec<u8>)
    requires
        start <= end <= msg@.len(),
    ensures
        r@ == msg@.subrange(start as int, end as int),
{
    let mut r: Vec<u8> = Vec::new();
    let mut i: usize = start;
    while i < end
        invariant
            start <= i <= end <= msg@.len(),
            r@ == msg@.subrange(start as int, i as int),
        decreases end - i,
    {
        r.push(msg[i]);
        assert(msg@.subrange(start as int, i as int + 1) =~= r@);
        i = i + 1;
    }
    r
}

} // verus!
