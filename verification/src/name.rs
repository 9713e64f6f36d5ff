use vstd::prelude::*;
use bytebuffer::ByteBuffer;
use crate::buffer::{
    bb_new, bb_write_u8, bb_write_bytes, buffer_bytes, buffer_clean, buffer_wpos,
};
use crate::error::DnsError;

verus! {

/// A domain name: an ordered sequence of labels, each a run of ASCII
/// bytes. The empty sequence is the root name.
pub struct Name {
    pub labels: Vec<Vec<u8>>,
}

impl View for Name {
    type V = Seq<Seq<u8>>;

    open spec fn view(&self) -> Seq<Seq<u8>> {
        Seq::new(self.labels@.len(), |i: int| self.labels@[i]@)
    }
}

/// A label's bytes are all ASCII.
pub open spec fn label_ascii(l: Seq<u8>) -> bool {
    forall|i: int| 0 <= i < l.len() ==> l[i] < 0x80
}

/// Every label of the name is 1 to 63 bytes of ASCII.
pub open spec fn name_labels_wf(ls: Seq<Seq<u8>>) -> bool {
    forall|i: int|
        0 <= i < ls.len() ==> 1 <= (#[trigger] ls[i]).len() <= 63 && label_ascii(ls[i])
}

/// The wire form of one label: its length byte followed by its bytes.
/// An empty label contributes nothing (the encoder skips it).
pub open spec fn spec_encode_one_label(l: Seq<u8>) -> Seq<u8> {
    if l.len() == 0 {
        Seq::<u8>::empty()
    } else {
        seq![l.len() as u8] + l
    }
}

/// The wire form of a label sequence, without the terminating zero byte.
pub open spec fn spec_encode_labels(ls: Seq<Seq<u8>>) -> Seq<u8>
    decreases ls.len(),
{
    if ls.len() == 0 {
        Seq::<u8>::empty()
    } else {
        spec_encode_one_label(ls[0]) + spec_encode_labels(ls.drop_first())
    }
}

/// The wire form of a whole name: its labels, then the zero terminator.
/// This encoder never emits compression pointers.
pub open spec fn spec_encode_name(ls: Seq<Seq<u8>>) -> Seq<u8> {
    spec_encode_labels(ls) + seq![0u8]
}

/// Appending a label to a sequence appends its wire form to the encoding.
pub proof fn lemma_encode_labels_snoc(ls: Seq<Seq<u8>>, l: Seq<u8>)
    ensures
        spec_encode_labels(ls.push(l)) == spec_encode_labels(ls) + spec_encode_one_label(l),
    decreases ls.len(),
{
    if ls.len() == 0 {
        assert(ls.push(l)[0] == l);
        assert(ls.push(l).drop_first() =~= Seq::<Seq<u8>>::empty());
        assert(spec_encode_labels(ls.push(l)) == spec_encode_one_label(l) + spec_encode_labels(
        Seq::<Seq<u8>>::empty()));
        assert(spec_encode_one_label(l) + Seq::<u8>::empty() =~= spec_encode_one_label(l));
        assert(spec_encode_labels(ls) + spec_encode_one_label(l) =~= spec_encode_one_label(l));
    } else {
        assert(ls.push(l)[0] == ls[0]);
        assert(ls.push(l).drop_first() =~= ls.drop_first().push(l));
        lemma_encode_labels_snoc(ls.drop_first(), l);
        assert(spec_encode_labels(ls.push(l)) =~= spec_encode_labels(ls) + spec_encode_one_label(
        l));
    }
}

/// The encoding of a prefix of a label sequence is no longer than the
/// encoding of the whole sequence.
pub proof fn lemma_encode_labels_take_le(ls: Seq<Seq<u8>>, i: int)
    requires
        0 <= i <= ls.len(),
    ensures
        spec_encode_labels(ls.take(i)).len() <= spec_encode_labels(ls).len(),
    decreases ls.len() - i,
{
    if i == ls.len() {
        assert(ls.take(i) =~= ls);
    } else {
        lemma_encode_labels_snoc(ls.take(i), ls[i]);
        assert(ls.take(i + 1) =~= ls.take(i).push(ls[i]));
        lemma_encode_labels_take_le(ls, i + 1);
    }
}

/// Encodes a name as length-prefixed labels followed by a zero byte,
/// skipping empty labels. Rejects a label longer than 63 bytes with
/// `LabelTooLong`, and a total encoded length over 255 bytes with
/// `NameTooLong`.
pub fn domain_to_byte_buffer(name: &Name) -> (r: Result<ByteBuffer, DnsError>)
    ensures
        match r {
            Ok(buf) => {
                &&& buffer_bytes(buf) == spec_encode_name(name@)
                &&& forall|i: int| 0 <= i < name@.len() ==> (#[trigger] name@[i]).len() <= 63
                &&& spec_encode_name(name@).len() <= 255
                &&& buffer_wpos(buf) == buffer_bytes(buf).len()
                &&& buffer_clean(buf)
            },
            Err(e) => {
                ||| {
                    &&& e == DnsError::LabelTooLong
                    &&& exists|i: int| 0 <= i < name@.len() && (#[trigger] name@[i]).len() > 63
                }
                ||| {
                    &&& e == DnsError::NameTooLong
                    &&& forall|i: int| 0 <= i < name@.len() ==> (#[trigger] name@[i]).len() <= 63
                    &&& spec_encode_name(name@).len() > 255
                }
            },
        },
{
    let n = name.labels.len();
    let mut i: usize = 0;
    while i < n
        invariant
            n == name@.len(),
            i <= n,
            forall|k: int| 0 <= k < i ==> (#[trigger] name@[k]).len() <= 63,
        decreases n - i,
    {
        if name.labels[i].len() > 63 {
            proof {
                assert(name@[i as int] == name.labels@[i as int]@);
                assert(name@[i as int].len() > 63);
            }
            return Err(DnsError::LabelTooLong);
        }
        i += 1;
    }

    let mut buf = bb_new();
    let mut total: usize = 0;
    let mut i: usize = 0;
    while i < n
        invariant
            n == name@.len(),
            i <= n,
            forall|k: int| 0 <= k < n ==> (#[trigger] name@[k]).len() <= 63,
            buffer_bytes(buf) == spec_encode_labels(name@.take(i as int)),
            total == buffer_bytes(buf).len(),
            total <= 255,
            buffer_wpos(buf) == buffer_bytes(buf).len(),
            buffer_clean(buf),
        decreases n - i,
    {
        let len = name.labels[i].len();
        proof {
            assert(name@[i as int] == name.labels@[i as int]@);
        }
        if len > 0 {
            bb_write_u8(&mut buf, len as u8);
            bb_write_bytes(&mut buf, name.labels[i].as_slice());
            total = total + 1 + len;
        }
        proof {
            lemma_encode_labels_snoc(name@.take(i as int), name@[i as int]);
            assert(name@.take(i + 1) =~= name@.take(i as int).push(name@[i as int]));
            assert(buffer_bytes(buf) =~= spec_encode_labels(name@.take(i + 1)));
        }
        if total > 255 {
            proof {
                lemma_encode_labels_take_le(name@, i + 1);
            }
            return Err(DnsError::NameTooLong);
        }
        i += 1;
    }
    proof {
        assert(name@.take(n as int) =~= name@);
    }
    if total + 1 > 255 {
        return Err(DnsError::NameTooLong);
    }
    bb_write_u8(&mut buf, 0);
    proof {
        assert(buffer_bytes(buf) =~= spec_encode_name(name@));
    }
    Ok(buf)
}

/// The encoder's result on a label sequence: the wire form, or the error
/// the sequence is rejected with.
pub open spec fn spec_encode_name_checked(ls: Seq<Seq<u8>>) -> Result<Seq<u8>, DnsError> {
    if exists|i: int| 0 <= i < ls.len() && (#[trigger] ls[i]).len() > 63 {
        Err(DnsError::LabelTooLong)
    } else if spec_encode_name(ls).len() > 255 {
        Err(DnsError::NameTooLong)
    } else {
        Ok(spec_encode_name(ls))
    }
}

/// Copies a byte vector.
pub fn copy_bytes(v: &Vec<u8>) -> (r: Vec<u8>)
    ensures
        r@ == v@,
{
    let mut r: Vec<u8> = Vec::new();
    let mut i: usize = 0;
    while i < v.len()
        invariant
            i <= v@.len(),
            r@ == v@.take(i as int),
        decreases v@.len() - i,
    {
        r.push(v[i]);
        i += 1;
        proof {
            assert(r@ =~= v@.take(i as int));
        }
    }
    proof {
        assert(v@.take(v@.len() as int) =~= v@);
    }
    r
}

impl Name {
    /// A deep copy of the name.
    pub fn duplicate(&self) -> (r: Name)
        ensures
            r@ == self@,
    {
        let mut labels: Vec<Vec<u8>> = Vec::new();
        let mut i: usize = 0;
        while i < self.labels.len()
            invariant
                i <= self.labels@.len(),
                labels@.len() == i,
                forall|k: int| 0 <= k < i ==> (#[trigger] labels@[k])@ == self.labels@[k]@,
            decreases self.labels@.len() - i,
        {
            labels.push(copy_bytes(&self.labels[i]));
            i += 1;
        }
        let r = Name { labels };
        proof {
            assert(r@ =~= self@);
        }
        r
    }
}

/// The sequence of label sequences a vector of label vectors stands for.
pub open spec fn labels_view(ls: Seq<Vec<u8>>) -> Seq<Seq<u8>> {
    Seq::new(ls.len(), |i: int| ls[i]@)
}

/// The name read from `raw` starting at `pos`, together with the number
/// of bytes the name occupies in the current segment; `seg_start` is the
/// offset at which the current segment began.
///
/// A zero byte ends the name. A byte with its top two bits set starts a
/// two-byte compression pointer, which must reference a strictly earlier
/// offset than the segment it appears in (`CompressionLoop` otherwise,
/// which also rules out every pointer cycle) and contributes exactly two
/// bytes to the consumer's cursor. A byte in `0x40..0xC0` is a reserved
/// pattern (`MalformedLabel`). Any other byte is a label length,
/// followed by that many bytes of ASCII label content.
pub open spec fn spec_decode_name(raw: Seq<u8>, pos: int, seg_start: int) -> Result<
    (Seq<Seq<u8>>, int),
    DnsError,
>
    decreases seg_start, raw.len() - pos,
{
    if pos < 0 || pos >= raw.len() {
        Err(DnsError::TruncatedInput)
    } else {
        let b = raw[pos];
        if b == 0 {
            Ok((Seq::<Seq<u8>>::empty(), 1))
        } else if b >= 0xC0 {
            if pos + 1 >= raw.len() {
                Err(DnsError::TruncatedInput)
            } else {
                let ptr = (b - 0xC0) * 256 + raw[pos + 1];
                if ptr >= seg_start {
                    Err(DnsError::CompressionLoop)
                } else {
                    match spec_decode_name(raw, ptr, ptr) {
                        Ok(pair) => Ok((pair.0, 2)),
                        Err(e) => Err(e),
                    }
                }
            }
        } else if b >= 0x40 {
            Err(DnsError::MalformedLabel)
        } else {
            if pos + 1 + b > raw.len() {
                Err(DnsError::TruncatedInput)
            } else {
                let content = raw.subrange(pos + 1, pos + 1 + b);
                if !label_ascii(content) {
                    Err(DnsError::MalformedLabel)
                } else {
                    match spec_decode_name(raw, pos + 1 + b, seg_start) {
                        Ok(pair) => Ok((seq![content] + pair.0, 1 + b + pair.1)),
                        Err(e) => Err(e),
                    }
                }
            }
        }
    }
}

/// What the whole decode from `offset` yields, given that decoding has
/// already accumulated the labels `acc`, stands at `pos` in the segment
/// that began at `seg_start`, and, if a pointer was already followed
/// (`fixed`), has settled the consumed-byte count at `consumed`.
pub open spec fn spec_decode_progress(
    raw: Seq<u8>,
    pos: int,
    seg_start: int,
    acc: Seq<Seq<u8>>,
    fixed: bool,
    consumed: int,
    offset: int,
) -> Result<(Seq<Seq<u8>>, int), DnsError> {
    match spec_decode_name(raw, pos, seg_start) {
        Ok(pair) => Ok((acc + pair.0, if fixed { consumed } else { pos - offset + pair.1 })),
        Err(e) => Err(e),
    }
}

/// Whether the vector holds the value.
fn vec_contains_usize(v: &Vec<usize>, x: usize) -> (r: bool)
    ensures
        r == v@.contains(x),
{
    let mut i: usize = 0;
    while i < v.len()
        invariant
            i <= v@.len(),
            forall|k: int| 0 <= k < i ==> v@[k] != x,
        decreases v@.len() - i,
    {
        if v[i] == x {
            proof {
                assert(v@[i as int] == x);
            }
            return true;
        }
        i += 1;
    }
    proof {
        assert(forall|k: int| 0 <= k < v@.len() ==> v@[k] != x);
    }
    false
}

/// Decodes the name starting at `offset` in the message buffer `raw`,
/// returning the name and how many bytes it occupies at `offset` (a
/// followed pointer counts as two bytes, wherever it leads).
///
/// Pointer chasing is bounded iteration over an explicit visited-offset
/// set: an offset already followed, like a pointer that does not lead
/// strictly backwards, fails with `CompressionLoop`, so decoding
/// terminates on every input.
pub fn u8_to_name(raw: &[u8], offset: usize) -> (r: Result<(Name, usize), DnsError>)
    ensures
        match r {
            Ok(pair) => spec_decode_name(raw@, offset as int, offset as int) == Ok::<
                (Seq<Seq<u8>>, int),
                DnsError,
            >((pair.0@, pair.1 as int)),
            Err(e) => spec_decode_name(raw@, offset as int, offset as int) == Err::<
                (Seq<Seq<u8>>, int),
                DnsError,
            >(e),
        },
{
    let ghost target = spec_decode_name(raw@, offset as int, offset as int);
    let mut labels: Vec<Vec<u8>> = Vec::new();
    let mut visited: Vec<usize> = Vec::new();
    let mut pos: usize = offset;
    let mut seg_start: usize = offset;
    let mut ptr_seen: bool = false;
    let mut consumed: usize = 0;

    proof {
        assert(labels_view(labels@) =~= Seq::<Seq<u8>>::empty());
        let s = spec_decode_name(raw@, offset as int, offset as int);
        if s is Ok {
            let pair = s->Ok_0;
            assert(labels_view(labels@) + pair.0 =~= pair.0);
            assert((pair.0, pair.1) =~= pair);
        }
    }

    loop
        invariant
            target == spec_decode_name(raw@, offset as int, offset as int),
            target == spec_decode_progress(
                raw@,
                pos as int,
                seg_start as int,
                labels_view(labels@),
                ptr_seen,
                consumed as int,
                offset as int,
            ),
            !ptr_seen ==> pos >= offset,
            forall|k: int| 0 <= k < visited@.len() ==> #[trigger] visited@[k] >= seg_start,
        decreases seg_start as int, raw@.len() - pos as int,
    {
        if pos >= raw.len() {
            return Err(DnsError::TruncatedInput);
        }
        let b = raw[pos];
        if b == 0 {
            let used = if ptr_seen {
                consumed
            } else {
                pos - offset + 1
            };
            proof {
                let s = spec_decode_name(raw@, pos as int, seg_start as int);
                assert(s == Ok::<(Seq<Seq<u8>>, int), DnsError>((Seq::<Seq<u8>>::empty(), 1)));
                assert(labels_view(labels@) + Seq::<Seq<u8>>::empty() =~= labels_view(labels@));
            }
            return Ok((Name { labels }, used));
        }
        if b >= 0xC0 {
            if pos + 1 >= raw.len() {
                return Err(DnsError::TruncatedInput);
            }
            let b2 = raw[pos + 1];
            let m = (b & 0x3F) as usize;
            let p = (m << 8) | (b2 as usize);
            proof {
                assert((b & 0x3F) as int == b - 0xC0) by (bit_vector)
                    requires
                        b >= 0xC0,
                ;
                assert((m << 8) | (b2 as usize) == m * 256 + (b2 as usize)) by (bit_vector)
                    requires
                        m <= 63,
                ;
                assert(p as int == (b - 0xC0) * 256 + b2);
            }
            if !ptr_seen {
                consumed = pos - offset + 2;
                ptr_seen = true;
                proof {
                    let s = spec_decode_name(raw@, pos as int, seg_start as int);
                    if s is Ok {
                        assert(s->Ok_0.1 == 2);
                    }
                }
            }
            if vec_contains_usize(&visited, p) {
                proof {
                    let k = choose|k: int|
                        0 <= k < visited@.len() && visited@[k] == p;
                    assert(visited@[k] >= seg_start);
                    assert(p >= seg_start);
                }
                return Err(DnsError::CompressionLoop);
            }
            if p >= seg_start {
                return Err(DnsError::CompressionLoop);
            }
            proof {
                let inner = spec_decode_name(raw@, p as int, p as int);
                if inner is Ok {
                    let pair = inner->Ok_0;
                    assert((pair.0, pair.1) =~= pair);
                }
            }
            visited.push(p);
            seg_start = p;
            pos = p;
        } else if b >= 0x40 {
            return Err(DnsError::MalformedLabel);
        } else {
            let len_b = b as usize;
            if len_b >= raw.len() - pos {
                proof {
                    assert(pos + 1 + (b as int) > raw@.len());
                }
                return Err(DnsError::TruncatedInput);
            }
            let ghost content = raw@.subrange(pos + 1, pos + 1 + b as int);
            let rl = raw.len();
            let mut lab: Vec<u8> = Vec::new();
            let mut k: usize = 0;
            let mut ascii_ok: bool = true;
            proof {
                assert(lab@ =~= content.take(0));
            }
            while k < len_b
                invariant
                    k <= len_b,
                    len_b == b as int,
                    rl == raw@.len(),
                    pos + 1 + len_b <= rl,
                    content == raw@.subrange(pos + 1, pos + 1 + b as int),
                    lab@ == content.take(k as int),
                    ascii_ok <==> (forall|j: int| 0 <= j < k ==> #[trigger] content[j] < 0x80),
                decreases len_b - k,
            {
                let c = raw[pos + 1 + k];
                proof {
                    assert(content[k as int] == c);
                }
                if c >= 0x80 {
                    ascii_ok = false;
                }
                lab.push(c);
                k += 1;
                proof {
                    assert(lab@ =~= content.take(k as int));
                }
            }
            proof {
                assert(content.take(len_b as int) =~= content);
            }
            if !ascii_ok {
                proof {
                    assert(!label_ascii(content));
                }
                return Err(DnsError::MalformedLabel);
            }
            proof {
                assert(label_ascii(content));
                assert(lab@ == content);
                let s = spec_decode_name(raw@, pos as int, seg_start as int);
                let inner = spec_decode_name(
                    raw@,
                    pos + 1 + b as int,
                    seg_start as int,
                );
                if inner is Ok {
                    let pair = inner->Ok_0;
                    assert(s == Ok::<(Seq<Seq<u8>>, int), DnsError>(
                        (seq![content] + pair.0, 1 + b + pair.1),
                    ));
                    assert(labels_view(labels@.push(lab)) =~= labels_view(labels@).push(content));
                    assert(labels_view(labels@) + (seq![content] + pair.0) =~= labels_view(
                    labels@).push(content) + pair.0);
                } else {
                    assert(s == Err::<(Seq<Seq<u8>>, int), DnsError>(inner->Err_0));
                    assert(labels_view(labels@.push(lab)) =~= labels_view(labels@).push(content));
                }
            }
            labels.push(lab);
            pos = pos + 1 + len_b;
        }
    }
}

/// A successfully decoded name occupies at least one byte and ends
/// within the buffer.
pub proof fn lemma_decode_consumed_bounds(raw: Seq<u8>, pos: int, seg_start: int)
    requires
        0 <= pos,
        spec_decode_name(raw, pos, seg_start) is Ok,
    ensures
        1 <= spec_decode_name(raw, pos, seg_start)->Ok_0.1,
        pos + spec_decode_name(raw, pos, seg_start)->Ok_0.1 <= raw.len(),
    decreases seg_start, raw.len() - pos,
{
    let b = raw[pos];
    if b == 0 {
    } else if b >= 0xC0 {
    } else if b >= 0x40 {
    } else {
        lemma_decode_consumed_bounds(raw, pos + 1 + b, seg_start);
    }
}

/// Decoding an encoded name embedded in a larger buffer yields the very
/// labels that were encoded, and consumes exactly the encoding's length.
/// The encoder emits no pointers, so the segment start is arbitrary.
pub proof fn lemma_decode_encoded_at(raw: Seq<u8>, pos: int, seg_start: int, ls: Seq<Seq<u8>>)
    requires
        name_labels_wf(ls),
        0 <= pos,
        pos + spec_encode_name(ls).len() <= raw.len(),
        raw.subrange(pos, pos + spec_encode_name(ls).len()) == spec_encode_name(ls),
    ensures
        spec_decode_name(raw, pos, seg_start) == Ok::<(Seq<Seq<u8>>, int), DnsError>(
            (ls, spec_encode_name(ls).len() as int),
        ),
    decreases ls.len(),
{
    let e = spec_encode_name(ls);
    assert forall|j: int| 0 <= j < e.len() implies raw[pos + j] == e[j] by {
        assert(e[j] == raw.subrange(pos, pos + e.len())[j]);
    }
    if ls.len() == 0 {
        assert(spec_encode_labels(ls) =~= Seq::<u8>::empty());
        assert(e =~= seq![0u8]);
        assert(raw[pos + 0] == e[0]);
        assert(raw[pos] == 0);
        assert(ls =~= Seq::<Seq<u8>>::empty());
    } else {
        let l = ls[0];
        let rest = ls.drop_first();
        let er = spec_encode_name(rest);
        assert(1 <= l.len() <= 63 && label_ascii(l));
        assert(spec_encode_labels(ls) == spec_encode_one_label(l) + spec_encode_labels(rest));
        assert(e =~= seq![l.len() as u8] + l + er);
        let b = raw[pos];
        assert(raw[pos + 0] == e[0]);
        assert(e[0] == l.len() as u8);
        assert(b == l.len() as u8);
        assert(b as int == l.len());
        assert(1 <= b < 0x40);
        assert(pos + 1 + b <= raw.len());
        let content = raw.subrange(pos + 1, pos + 1 + b);
        assert forall|j: int| 0 <= j < l.len() implies content[j] == l[j] by {
            assert(content[j] == raw[pos + 1 + j]);
            assert(e[1 + j] == (seq![l.len() as u8] + l + er)[1 + j]);
        }
        assert(content =~= l);
        assert(label_ascii(content));
        assert forall|i: int| 0 <= i < rest.len() implies 1 <= (#[trigger] rest[i]).len() <= 63
            && label_ascii(rest[i]) by {
            assert(rest[i] == ls[i + 1]);
        }
        let pos2 = pos + 1 + l.len();
        assert forall|j: int| 0 <= j < er.len() implies raw.subrange(pos2, pos2 + er.len())[j]
            == er[j] by {
            assert(raw.subrange(pos2, pos2 + er.len())[j] == raw[pos2 + j]);
            assert(e[1 + l.len() + j] == er[j]);
        }
        assert(raw.subrange(pos2, pos2 + er.len()) =~= er);
        lemma_decode_encoded_at(raw, pos2, seg_start, rest);
        assert(seq![content] + rest =~= ls);
        assert(1 + b + er.len() == e.len());
    }
}

/// Name round trip: decoding an encoding of any name whose labels are 1
/// to 63 bytes of ASCII and whose encoded form fits in 255 bytes yields
/// the same labels, consuming the whole encoding.
pub proof fn lemma_name_round_trip(ls: Seq<Seq<u8>>)
    requires
        name_labels_wf(ls),
        spec_encode_name(ls).len() <= 255,
    ensures
        spec_decode_name(spec_encode_name(ls), 0, 0) == Ok::<(Seq<Seq<u8>>, int), DnsError>(
            (ls, spec_encode_name(ls).len() as int),
        ),
{
    let e = spec_encode_name(ls);
    assert(e.subrange(0, e.len() as int) =~= e);
    lemma_decode_encoded_at(e, 0, 0, ls);
}

/// Compression decode: with a name spelled out at offset 0 and, later in
/// the buffer, a second name that is a single pointer back to offset 0,
/// decoding the second name yields the first name's labels and consumes
/// the pointer's two bytes.
pub proof fn lemma_pointer_decode(raw: Seq<u8>, ls: Seq<Seq<u8>>, at: int)
    requires
        name_labels_wf(ls),
        spec_encode_name(ls).len() <= raw.len(),
        raw.subrange(0, spec_encode_name(ls).len() as int) == spec_encode_name(ls),
        1 <= at,
        at + 2 <= raw.len(),
        raw[at] == 0xC0,
        raw[at + 1] == 0,
    ensures
        spec_decode_name(raw, at, at) == Ok::<(Seq<Seq<u8>>, int), DnsError>((ls, 2)),
{
    lemma_decode_encoded_at(raw, 0, 0, ls);
    assert((raw[at] - 0xC0) * 256 + raw[at + 1] == 0);
}

/// Loop safety: two names that are pointers referencing each other both
/// fail to decode with `CompressionLoop`; neither decode diverges, since
/// `spec_decode_name` is a total function.
pub proof fn lemma_mutual_pointers_loop(raw: Seq<u8>, first: int, second: int)
    requires
        0 <= first < second,
        first + 2 <= raw.len(),
        second + 2 <= raw.len(),
        raw[first] >= 0xC0,
        (raw[first] - 0xC0) * 256 + raw[first + 1] == second,
        raw[second] >= 0xC0,
        (raw[second] - 0xC0) * 256 + raw[second + 1] == first,
    ensures
        spec_decode_name(raw, first, first) == Err::<(Seq<Seq<u8>>, int), DnsError>(
            DnsError::CompressionLoop,
        ),
        spec_decode_name(raw, second, second) == Err::<(Seq<Seq<u8>>, int), DnsError>(
            DnsError::CompressionLoop,
        ),
{
    assert(spec_decode_name(raw, first, first) == Err::<(Seq<Seq<u8>>, int), DnsError>(
        DnsError::CompressionLoop,
    ));
}

} // verus!
