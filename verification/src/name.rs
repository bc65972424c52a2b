use vstd::prelude::*;

use crate::DnsError;
use crate::cursor::Cursor;

verus! {

/// Index of the first dot in `s`, or -1 if there is none.
pub open spec fn first_dot(s: Seq<u8>) -> int
    decreases s.len(),
{
    if s.len() == 0 {
        -1
    } else if s[0] == 46u8 {
        0
    } else if first_dot(s.subrange(1, s.len() as int)) < 0 {
        -1
    } else {
        1 + first_dot(s.subrange(1, s.len() as int))
    }
}

/// The labels of a dotted name: the pieces between dots, in order.  A name
/// with no dot is a single label; an empty name is a single empty label.
pub open spec fn split_dots(s: Seq<u8>) -> Seq<Seq<u8>>
    decreases s.len(),
{
    let i = first_dot(s);
    if 0 <= i && i < s.len() {
        seq![s.subrange(0, i)] + split_dots(s.subrange(i + 1, s.len() as int))
    } else {
        seq![s]
    }
}

/// The labels joined back into a dotted name: labels separated by single
/// dots, the first label unprefixed.
pub open spec fn dot_join(labels: Seq<Seq<u8>>) -> Seq<u8>
    decreases labels.len(),
{
    if labels.len() == 0 {
        Seq::<u8>::empty()
    } else if labels.len() == 1 {
        labels[0]
    } else {
        labels[0] + seq![46u8] + dot_join(labels.subrange(1, labels.len() as int))
    }
}

/// The wire form of a label sequence: each label preceded by its length
/// byte, the whole terminated by a single zero byte.
pub open spec fn wire_encode(labels: Seq<Seq<u8>>) -> Seq<u8>
    decreases labels.len(),
{
    if labels.len() == 0 {
        seq![0u8]
    } else {
        seq![labels[0].len() as u8] + labels[0] + wire_encode(
            labels.subrange(1, labels.len() as int),
        )
    }
}

/// The labels read from `buf` starting at `pos`, together with the position
/// just past the name, or nothing if the name is malformed.  A zero length
/// byte ends the name; a byte of 0xC0 or above starts a two-byte compression
/// pointer whose fourteen-bit target must lie strictly before `start`, the
/// position where the name being decoded began; any other byte introduces a
/// literal label of that many bytes.
pub open spec fn spec_decode_labels(buf: Seq<u8>, pos: int, start: int) -> Option<
    (Seq<Seq<u8>>, int),
>
    decreases start, buf.len() - pos,
{
    if pos < 0 || pos >= buf.len() || start < 0 {
        None
    } else {
        let len = buf[pos];
        if len == 0 {
            Some((Seq::<Seq<u8>>::empty(), pos + 1))
        } else if len >= 0xC0 {
            if pos + 1 >= buf.len() {
                None
            } else {
                let target = (len - 0xC0) * 256 + buf[pos + 1];
                if target < start {
                    match spec_decode_labels(buf, target, target) {
                        Some((labels, _e)) => Some((labels, pos + 2)),
                        None => None,
                    }
                } else {
                    None
                }
            }
        } else {
            if pos + 1 + len > buf.len() {
                None
            } else {
                match spec_decode_labels(buf, pos + 1 + len, start) {
                    Some((labels, end)) => Some(
                        (seq![buf.subrange(pos + 1, pos + 1 + len)] + labels, end),
                    ),
                    None => None,
                }
            }
        }
    }
}

/// Every label a successful decode yields is at least one byte long, and the
/// end position lies past the start and within the buffer.
pub proof fn lemma_decode_labels_wf(buf: Seq<u8>, pos: int, start: int)
    ensures
        match spec_decode_labels(buf, pos, start) {
            Some((labels, end)) => {
                &&& forall|t: int| 0 <= t < labels.len() ==> labels[t].len() >= 1
                &&& pos < end <= buf.len()
            },
            None => true,
        },
    decreases start, buf.len() - pos,
{
    if pos < 0 || pos >= buf.len() || start < 0 {
    } else {
        let len = buf[pos];
        if len == 0 {
        } else if len >= 0xC0 {
            if pos + 1 < buf.len() {
                let target = (len - 0xC0) * 256 + buf[pos + 1];
                if target < start {
                    lemma_decode_labels_wf(buf, target, target);
                }
            }
        } else {
            if pos + 1 + len <= buf.len() {
                lemma_decode_labels_wf(buf, pos + 1 + len, start);
            }
        }
    }
}

/// Joining a concatenation of label sequences joins each side, with a dot
/// between them when both are non-empty.
pub proof fn lemma_dot_join_concat(a: Seq<Seq<u8>>, b: Seq<Seq<u8>>)
    ensures
        dot_join(a + b) == if a.len() == 0 {
            dot_join(b)
        } else if b.len() == 0 {
            dot_join(a)
        } else {
            dot_join(a) + seq![46u8] + dot_join(b)
        },
    decreases a.len(),
{
    if a.len() == 0 {
        assert(a + b =~= b);
    } else if b.len() == 0 {
        assert(a + b =~= a);
    } else if a.len() == 1 {
        let ab = a + b;
        assert(ab.len() >= 2);
        assert(ab.subrange(1, ab.len() as int) =~= b);
        assert(ab[0] == a[0]);
        assert(dot_join(a) == a[0]);
    } else {
        let ab = a + b;
        let atail = a.subrange(1, a.len() as int);
        assert(ab.subrange(1, ab.len() as int) =~= atail + b);
        lemma_dot_join_concat(atail, b);
        assert(dot_join(a) == a[0] + seq![46u8] + dot_join(atail));
        assert(a[0] + seq![46u8] + (dot_join(atail) + seq![46u8] + dot_join(b)) =~= (a[0]
            + seq![46u8] + dot_join(atail)) + seq![46u8] + dot_join(b));
    }
}

/// A non-empty sequence of non-empty labels joins to a non-empty name.
pub proof fn lemma_dot_join_nonempty(labels: Seq<Seq<u8>>)
    requires
        labels.len() >= 1,
        forall|t: int| 0 <= t < labels.len() ==> labels[t].len() >= 1,
    ensures
        dot_join(labels).len() >= 1,
    decreases labels.len(),
{
    if labels.len() == 1 {
    } else {
        lemma_dot_join_nonempty(labels.subrange(1, labels.len() as int));
    }
}

/// `first_dot` finds exactly the position of the first dot: if no byte below
/// `k` is a dot and `k` is either the end or a dot, `first_dot` reports it.
pub proof fn lemma_first_dot_at(s: Seq<u8>, k: int)
    requires
        0 <= k <= s.len(),
        forall|j: int| 0 <= j < k ==> s[j] != 46u8,
        k == s.len() || s[k] == 46u8,
    ensures
        k == s.len() ==> first_dot(s) == -1,
        k < s.len() ==> first_dot(s) == k,
    decreases s.len(),
{
    if s.len() == 0 {
    } else if s[0] == 46u8 {
        assert(k == 0);
    } else {
        let tail = s.subrange(1, s.len() as int);
        assert(forall|j: int| 0 <= j < k - 1 ==> tail[j] != 46u8);
        lemma_first_dot_at(tail, k - 1);
    }
}

/// Encode the suffix of `name` beginning at `from`, appending to `out`.
fn encode_from(name: &Vec<u8>, from: usize, out: &mut Vec<u8>)
    requires
        from <= name@.len(),
    ensures
        final(out)@ == old(out)@ + wire_encode(
            split_dots(name@.subrange(from as int, name@.len() as int)),
        ),
    decreases name@.len() - from,
{
    let ghost s = name@.subrange(from as int, name@.len() as int);
    let ghost out0 = out@;

    let mut i: usize = from;
    while i < name.len() && name[i] != 46u8
        invariant
            from <= i <= name@.len(),
            forall|j: int| from <= j < i ==> name@[j] != 46u8,
        decreases name@.len() - i,
    {
        i = i + 1;
    }
    proof {
        assert(forall|j: int| 0 <= j < i - from ==> s[j] != 46u8);
        if i < name@.len() {
            assert(s[i - from] == 46u8);
        }
        lemma_first_dot_at(s, i - from);
    }

    out.push(#[verifier::truncate] ((i - from) as u8));
    let mut j: usize = from;
    while j < i
        invariant
            from <= j <= i <= name@.len(),
            out@ == out0 + seq![((i - from) as u8)] + name@.subrange(from as int, j as int),
        decreases i - j,
    {
        let b = name[j];
        out.push(b);
        j = j + 1;
        assert(out@ =~= out0 + seq![((i - from) as u8)] + name@.subrange(
            from as int,
            j as int,
        ));
    }
    let ghost label = s.subrange(0, i - from);
    proof {
        assert(name@.subrange(from as int, i as int) =~= label);
    }

    if i == name.len() {
        // No dot remains: `s` is a single label, then the terminator.
        out.push(0u8);
        proof {
            assert(first_dot(s) == -1);
            assert(split_dots(s) =~= seq![s]);
            assert(label =~= s);
            let ls = seq![s];
            assert(ls[0] == s);
            assert(ls.subrange(1, 1) =~= Seq::<Seq<u8>>::empty());
            assert(wire_encode(ls.subrange(1, 1)) == seq![0u8]);
            assert(wire_encode(ls) == seq![s.len() as u8] + s + wire_encode(ls.subrange(1, 1)));
            assert(s.len() == i - from);
            assert(out@ =~= out0 + wire_encode(split_dots(s)));
        }
    } else {
        // `name[i]` is the first dot of the suffix; continue past it.
        proof {
            assert(first_dot(s) == i - from);
        }
        encode_from(name, i + 1, out);
        proof {
            let rest = s.subrange(i - from + 1, s.len() as int);
            assert(name@.subrange(i + 1 as int, name@.len() as int) =~= rest);
            assert(split_dots(s) == seq![label] + split_dots(rest));
            let sd = seq![label] + split_dots(rest);
            assert(sd[0] == label);
            assert(sd.subrange(1, sd.len() as int) =~= split_dots(rest));
            assert(wire_encode(sd) == seq![label.len() as u8] + label + wire_encode(
                split_dots(rest),
            ));
            assert(label.len() == i - from);
            assert(out@ =~= out0 + wire_encode(split_dots(s)));
        }
    }
}

/// Encode a dotted name into its wire form: each dot-separated label as a
/// length byte followed by the label bytes, terminated by a zero byte.  As on
/// the wire side of the original protocol, no limit on label or name length
/// is enforced; a label longer than 255 bytes would have its length byte
/// truncated.
pub fn encode_dns_name(name: &Vec<u8>) -> (r: Vec<u8>)
    ensures
        r@ == wire_encode(split_dots(name@)),
{
    let mut out: Vec<u8> = Vec::new();
    encode_from(name, 0, &mut out);
    proof {
        assert(name@.subrange(0, name@.len() as int) =~= name@);
        assert(out@ =~= wire_encode(split_dots(name@)));
    }
    out
}

/// Decode the tail of a name referred to by a compression pointer whose
/// first byte, `length`, has already been read.  The next byte completes a
/// fourteen-bit target offset; the name there is decoded and the cursor is
/// restored to just past the pointer.  `name_start` is the position where
/// the name holding this pointer began: a target at or past it is rejected,
/// which is what bounds the recursion.
pub fn decode_compressed_name_bytes(cursor: &mut Cursor, length: u8, name_start: usize) -> (r:
    Result<Vec<u8>, DnsError>)
    requires
        0xC0 <= length,
    ensures
        final(cursor).buffer == old(cursor).buffer,
        ({
            let buf = old(cursor).buffer@;
            let q2 = old(cursor).position as int;
            if q2 < buf.len() {
                let target = (length - 0xC0) * 256 + buf[q2];
                if target < name_start {
                    match spec_decode_labels(buf, target, target) {
                        Some((labels, _e)) => {
                            &&& r matches Ok(nm) && nm@ == dot_join(labels)
                            &&& final(cursor).position == q2 + 1
                        },
                        None => r == Err::<Vec<u8>, DnsError>(DnsError::MalformedMessage),
                    }
                } else {
                    r == Err::<Vec<u8>, DnsError>(DnsError::MalformedMessage)
                }
            } else {
                r == Err::<Vec<u8>, DnsError>(DnsError::MalformedMessage)
            }
        }),
    decreases name_start as int, 0int, 0int,
{
    let second = match cursor.read_u8() {
        Ok(b) => b,
        Err(_) => { return Err(DnsError::MalformedMessage); },
    };
    let target: usize = ((length - 0xC0) as usize) * 256 + (second as usize);
    if target >= name_start {
        return Err(DnsError::MalformedMessage);
    }
    let saved = cursor.position;
    cursor.position = target;
    let result = decode_name_bytes(cursor);
    cursor.position = saved;
    result
}

/// Decode the labels of a name whose first length byte is next, where the
/// name began at `start`; one literal label per recursive step.
fn decode_labels_rec(cursor: &mut Cursor, start: usize) -> (r: Result<Vec<u8>, DnsError>)
    ensures
        final(cursor).buffer == old(cursor).buffer,
        ({
            let buf = old(cursor).buffer@;
            let p = old(cursor).position as int;
            match spec_decode_labels(buf, p, start as int) {
                Some((labels, end)) => {
                    &&& r matches Ok(nm) && nm@ == dot_join(labels)
                    &&& final(cursor).position == end
                },
                None => r == Err::<Vec<u8>, DnsError>(DnsError::MalformedMessage),
            }
        }),
    decreases start as int, old(cursor).buffer@.len() - old(cursor).position as int, 1int,
{
    let ghost buf = cursor.buffer@;
    let ghost p = cursor.position as int;
    let length = match cursor.read_u8() {
        Ok(b) => b,
        Err(_) => { return Err(DnsError::MalformedMessage); },
    };
    if length == 0 {
        Ok(Vec::new())
    } else if length >= 0xC0 {
        decode_compressed_name_bytes(cursor, length, start)
    } else {
        let mut name = match cursor.read_bytes(length as usize) {
            Ok(v) => v,
            Err(_) => { return Err(DnsError::MalformedMessage); },
        };
        let ghost lbl = name@;
        let mut rest = match decode_labels_rec(cursor, start) {
            Ok(v) => v,
            Err(e) => { return Err(e); },
        };
        proof {
            lemma_decode_labels_wf(buf, p + 1 + length, start as int);
            match spec_decode_labels(buf, p + 1 + length, start as int) {
                Some((labels, _end)) => {
                    lemma_dot_join_concat(seq![lbl], labels);
                    if labels.len() >= 1 {
                        lemma_dot_join_nonempty(labels);
                    }
                    assert(seq![lbl] + labels =~= spec_decode_labels(
                        buf,
                        p,
                        start as int,
                    )->Some_0.0);
                },
                None => {},
            }
        }
        if rest.len() > 0 {
            name.push(46u8);
            name.append(&mut rest);
        }
        Ok(name)
    }
}

/// Decode a (possibly compressed) name at the cursor: literal labels joined
/// by dots until a zero byte ends the name or a compression pointer supplies
/// its tail.  The cursor ends just past the name.  A truncated buffer, or a
/// pointer that does not lead strictly backwards, is a malformed message.
pub fn decode_name_bytes(cursor: &mut Cursor) -> (r: Result<Vec<u8>, DnsError>)
    ensures
        final(cursor).buffer == old(cursor).buffer,
        ({
            let buf = old(cursor).buffer@;
            let p = old(cursor).position as int;
            match spec_decode_labels(buf, p, p) {
                Some((labels, end)) => {
                    &&& r matches Ok(nm) && nm@ == dot_join(labels)
                    &&& final(cursor).position == end
                },
                None => r == Err::<Vec<u8>, DnsError>(DnsError::MalformedMessage),
            }
        }),
    decreases
        old(cursor).position as int,
        old(cursor).buffer@.len() - old(cursor).position as int,
        2int,
{
    let start = cursor.position;
    decode_labels_rec(cursor, start)
}

/// Splitting always yields at least one label.
pub proof fn lemma_split_dots_nonempty(s: Seq<u8>)
    ensures
        split_dots(s).len() >= 1,
{
}

/// `first_dot` stays within bounds and lands on a dot when non-negative.
pub proof fn lemma_first_dot_props(s: Seq<u8>)
    ensures
        -1 <= first_dot(s) < s.len(),
        first_dot(s) >= 0 ==> s[first_dot(s)] == 46u8,
    decreases s.len(),
{
    if s.len() == 0 {
    } else if s[0] == 46u8 {
    } else {
        lemma_first_dot_props(s.subrange(1, s.len() as int));
    }
}

/// Joining the labels a name was split into gives the name back.
pub proof fn lemma_split_join_inverse(s: Seq<u8>)
    ensures
        dot_join(split_dots(s)) == s,
    decreases s.len(),
{
    lemma_first_dot_props(s);
    let i = first_dot(s);
    if 0 <= i && i < s.len() {
        let head = s.subrange(0, i);
        let rest = s.subrange(i + 1, s.len() as int);
        lemma_split_join_inverse(rest);
        lemma_split_dots_nonempty(rest);
        let sd = seq![head] + split_dots(rest);
        assert(sd.len() >= 2);
        assert(sd[0] == head);
        assert(sd.subrange(1, sd.len() as int) =~= split_dots(rest));
        assert(head + seq![46u8] + rest =~= s);
    }
}

/// Decoding an uncompressed encoding embedded in a buffer yields exactly the
/// encoded labels, provided every label is 1 to 63 bytes long.
pub proof fn lemma_decode_of_encode(labels: Seq<Seq<u8>>, buf: Seq<u8>, pos: int, start: int)
    requires
        forall|t: int| 0 <= t < labels.len() ==> 1 <= #[trigger] labels[t].len() <= 63,
        0 <= pos,
        0 <= start,
        pos + wire_encode(labels).len() <= buf.len(),
        buf.subrange(pos, pos + wire_encode(labels).len() as int) == wire_encode(labels),
    ensures
        spec_decode_labels(buf, pos, start) == Some(
            (labels, pos + wire_encode(labels).len() as int),
        ),
    decreases labels.len(),
{
    let enc = wire_encode(labels);
    assert forall|j: int| 0 <= j < enc.len() implies buf[pos + j] == #[trigger] enc[j] by {
        assert(enc[j] == buf.subrange(pos, pos + enc.len() as int)[j]);
    }
    if labels.len() == 0 {
        assert(enc == seq![0u8]);
        assert(buf[pos + 0] == enc[0]);
        assert(buf[pos] == 0u8);
    } else {
        let l = labels[0];
        let tail = labels.subrange(1, labels.len() as int);
        let enc_rest = wire_encode(tail);
        assert(enc == seq![l.len() as u8] + l + enc_rest);
        assert(enc.len() == 1 + l.len() + enc_rest.len());
        assert(buf[pos + 0] == enc[0]);
        assert(enc[0] == l.len() as u8);
        assert(1 <= l.len() <= 63);
        assert(buf[pos] == l.len());
        let len = buf[pos];
        assert(len != 0 && len < 0xC0);
        assert(pos + 1 + len <= buf.len());
        assert forall|k: int|
            0 <= k < l.len() implies buf.subrange(pos + 1, pos + 1 + len)[k] == l[k] by {
            assert(buf[pos + (1 + k)] == enc[1 + k]);
            assert(enc[1 + k] == (seq![l.len() as u8] + l)[1 + k]);
            assert((seq![l.len() as u8] + l)[1 + k] == l[k]);
        }
        assert(buf.subrange(pos + 1, pos + 1 + len) =~= l);
        assert forall|k: int|
            0 <= k < enc_rest.len() implies buf.subrange(
            pos + 1 + len,
            pos + 1 + len + enc_rest.len() as int,
        )[k] == enc_rest[k] by {
            assert(buf[pos + (1 + l.len() + k)] == enc[1 + l.len() + k]);
            assert(enc[1 + l.len() + k] == enc_rest[k]);
        }
        assert(buf.subrange(pos + 1 + len, pos + 1 + len + enc_rest.len() as int) =~= enc_rest);
        lemma_decode_of_encode(tail, buf, pos + 1 + len, start);
        assert(seq![buf.subrange(pos + 1, pos + 1 + len)] + tail =~= labels);
    }
}

/// Round trip: a name whose labels are all 1 to 63 bytes long decodes, from
/// its own uncompressed wire encoding, back to exactly itself.
pub proof fn lemma_name_round_trip(name: Seq<u8>)
    requires
        forall|t: int|
            0 <= t < split_dots(name).len() ==> 1 <= #[trigger] split_dots(name)[t].len() <= 63,
    ensures
        ({
            let enc = wire_encode(split_dots(name));
            match spec_decode_labels(enc, 0, 0) {
                Some((labels, end)) => {
                    &&& dot_join(labels) == name
                    &&& end == enc.len()
                },
                None => false,
            }
        }),
{
    let enc = wire_encode(split_dots(name));
    assert(enc.subrange(0, enc.len() as int) =~= enc);
    lemma_decode_of_encode(split_dots(name), enc, 0, 0);
    lemma_split_join_inverse(name);
}

/// Compression: a two-byte pointer decodes to exactly the labels found at
/// its fourteen-bit target offset, and consumes exactly its two bytes.
pub proof fn lemma_pointer_decode(buf: Seq<u8>, p: int, q: int)
    requires
        0 <= p < q,
        q + 1 < buf.len(),
        p < 0x4000,
        buf[q] == (0xC0 + p / 256) as u8,
        buf[q + 1] == (p % 256) as u8,
    ensures
        match spec_decode_labels(buf, p, p) {
            Some((labels, _end)) => spec_decode_labels(buf, q, q) == Some((labels, q + 2)),
            None => spec_decode_labels(buf, q, q) == None::<(Seq<Seq<u8>>, int)>,
        },
{
    assert(0 <= p / 256 < 64);
    assert(buf[q] == 0xC0 + p / 256);
    assert(buf[q + 1] == p % 256);
    assert((buf[q] - 0xC0) * 256 + buf[q + 1] == (p / 256) * 256 + p % 256);
    assert((p / 256) * 256 + p % 256 == p);
}

} // verus!
