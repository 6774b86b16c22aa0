use vstd::bytes::*;
use vstd::prelude::*;
use vstd::slice::*;
use vstd::string::*;
use vstd::utf8::*;

use crate::todo::{strings_view, Priority, Todo, TodoView};

verus! {

/// The byte that stands for a priority.
pub open spec fn priority_byte(p: Priority) -> u8 {
    match p {
        Priority::Low => 0,
        Priority::Medium => 1,
        Priority::High => 2,
    }
}

/// The priority a byte stands for, if any.
pub open spec fn priority_from_byte(b: u8) -> Option<Priority> {
    if b == 0 {
        Some(Priority::Low)
    } else if b == 1 {
        Some(Priority::Medium)
    } else if b == 2 {
        Some(Priority::High)
    } else {
        None
    }
}

/// A text: its UTF-8 length as eight little-endian bytes, then its UTF-8 bytes.
pub open spec fn encode_text(s: Seq<char>) -> Seq<u8> {
    spec_u64_to_le_bytes(encode_utf8(s).len() as u64) + encode_utf8(s)
}

/// Texts one after the other, each encoded by `encode_text`.
pub open spec fn encode_texts(ts: Seq<Seq<char>>) -> Seq<u8>
    decreases ts.len(),
{
    if ts.len() == 0 {
        Seq::empty()
    } else {
        encode_texts(ts.drop_last()) + encode_text(ts.last())
    }
}

/// The encoding of a record: the id (four little-endian bytes), the
/// completion flag (0 or 1), the priority byte, the description, the number of
/// tags (eight little-endian bytes) and the tags.
pub open spec fn encode_spec(v: TodoView) -> Seq<u8> {
    spec_u32_to_le_bytes(v.id) + seq![
        if v.is_completed { 1u8 } else { 0u8 },
        priority_byte(v.priority),
    ] + encode_text(v.description) + spec_u64_to_le_bytes(v.tags.len() as u64) + encode_texts(
        v.tags,
    )
}

/// A record can be encoded when each length fits in eight bytes.
pub open spec fn encodable(v: TodoView) -> bool {
    &&& encode_utf8(v.description).len() <= u64::MAX
    &&& v.tags.len() <= u64::MAX
    &&& forall|i: int| 0 <= i < v.tags.len() ==> encode_utf8(#[trigger] v.tags[i]).len() <= u64::MAX
}

/// The text encoded at `pos`, and the position after it.
pub open spec fn parse_text(b: Seq<u8>, pos: int) -> Option<(Seq<char>, int)> {
    if pos < 0 || pos + 8 > b.len() {
        None
    } else {
        let n = spec_u64_from_le_bytes(b.subrange(pos, pos + 8)) as int;
        if pos + 8 + n > b.len() {
            None
        } else {
            let bs = b.subrange(pos + 8, pos + 8 + n);
            if valid_utf8(bs) {
                Some((decode_utf8(bs), pos + 8 + n))
            } else {
                None
            }
        }
    }
}

/// `count` texts encoded one after the other from `pos`, and the position after them.
pub open spec fn parse_texts(b: Seq<u8>, pos: int, count: nat) -> Option<(Seq<Seq<char>>, int)>
    decreases count,
{
    if count == 0 {
        Some((Seq::empty(), pos))
    } else {
        match parse_texts(b, pos, (count - 1) as nat) {
            Some((ts, p)) => match parse_text(b, p) {
                Some((s, q)) => Some((ts.push(s), q)),
                None => None,
            },
            None => None,
        }
    }
}

/// The record that `b` encodes, if `b` is exactly the encoding of one.
pub open spec fn parse_spec(b: Seq<u8>) -> Option<TodoView> {
    if b.len() < 6 || b[4] > 1 || priority_from_byte(b[5]) is None {
        None
    } else {
        match parse_text(b, 6) {
            None => None,
            Some((d, p)) => if p + 8 > b.len() {
                None
            } else {
                let count = spec_u64_from_le_bytes(b.subrange(p, p + 8));
                match parse_texts(b, p + 8, count as nat) {
                    Some((ts, q)) => if q == b.len() {
                        Some(
                            TodoView {
                                id: spec_u32_from_le_bytes(b.subrange(0, 4)),
                                description: d,
                                is_completed: b[4] == 1,
                                priority: priority_from_byte(b[5])->0,
                                tags: ts,
                            },
                        )
                    } else {
                        None
                    },
                    None => None,
                }
            },
        }
    }
}

/// Relies on `String::from_utf8`: it accepts exactly the valid UTF-8 byte
/// sequences and returns the string made of those bytes.
#[verifier::external_body]
fn string_from_utf8(bytes: Vec<u8>) -> (r: Option<String>)
    ensures
        r is Some <==> valid_utf8(bytes@),
        r matches Some(s) ==> s@ == decode_utf8(bytes@),
{
    String::from_utf8(bytes).ok()
}

fn append_text(out: &mut Vec<u8>, s: &String)
    ensures
        final(out)@ == old(out)@ + encode_text(s@),
        encode_utf8(s@).len() <= u64::MAX,
{
    let mut bytes = s.as_str().as_bytes_vec();
    let mut len = u64_to_le_bytes(bytes.len() as u64);
    let ghost start = out@;
    out.append(&mut len);
    out.append(&mut bytes);
    assert(out@ =~= start + encode_text(s@));
}

/// Encodes a record.
pub fn encode(t: &Todo) -> (r: Vec<u8>)
    ensures
        r@ == encode_spec(t@),
        encodable(t@),
{
    let mut out = u32_to_le_bytes(t.id);
    out.push(if t.is_completed { 1u8 } else { 0u8 });
    out.push(
        match t.priority {
            Priority::Low => 0u8,
            Priority::Medium => 1u8,
            Priority::High => 2u8,
        },
    );
    append_text(&mut out, &t.description);
    let mut count = u64_to_le_bytes(t.tags.len() as u64);
    out.append(&mut count);
    let ghost head = out@;
    let ghost tags = strings_view(t.tags@);
    let mut i: usize = 0;
    while i < t.tags.len()
        invariant
            i <= t.tags.len(),
            tags == strings_view(t.tags@),
            out@ == head + encode_texts(tags.subrange(0, i as int)),
            encode_utf8(t.description@).len() <= u64::MAX,
            forall|j: int| 0 <= j < i ==> encode_utf8(#[trigger] tags[j]).len() <= u64::MAX,
        decreases t.tags.len() - i,
    {
        append_text(&mut out, &t.tags[i]);
        assert(tags.subrange(0, i + 1).drop_last() =~= tags.subrange(0, i as int));
        assert(out@ =~= head + encode_texts(tags.subrange(0, i + 1)));
        i = i + 1;
    }
    assert(tags.subrange(0, i as int) =~= tags);
    assert(out@ =~= encode_spec(t@));
    out
}

fn decode_text(b: &Vec<u8>, pos: usize) -> (r: Option<(String, usize)>)
    ensures
        match parse_text(b@, pos as int) {
            Some((s, q)) => r matches Some((rs, rq)) && rs@ == s && rq == q,
            None => r is None,
        },
{
    if pos > b.len() || b.len() - pos < 8 {
        return None;
    }
    let n = u64_from_le_bytes(slice_subrange(b.as_slice(), pos, pos + 8));
    if n > (b.len() - pos - 8) as u64 {
        return None;
    }
    let end = pos + 8 + n as usize;
    let bytes = slice_to_vec(slice_subrange(b.as_slice(), pos + 8, end));
    match string_from_utf8(bytes) {
        Some(s) => Some((s, end)),
        None => None,
    }
}

proof fn lemma_parse_texts_fails_on(b: Seq<u8>, pos: int, k: nat, count: nat)
    requires
        k <= count,
        parse_texts(b, pos, k) is None,
    ensures
        parse_texts(b, pos, count) is None,
    decreases count - k,
{
    if k < count {
        lemma_parse_texts_fails_on(b, pos, k + 1, count);
    }
}

fn decode_priority(b: u8) -> (r: Option<Priority>)
    ensures
        r == priority_from_byte(b),
{
    if b == 0 {
        Some(Priority::Low)
    } else if b == 1 {
        Some(Priority::Medium)
    } else if b == 2 {
        Some(Priority::High)
    } else {
        None
    }
}

/// Decodes a record; `None` when `b` is not exactly the encoding of one.
pub fn decode(b: &Vec<u8>) -> (r: Option<Todo>)
    ensures
        match parse_spec(b@) {
            Some(v) => r matches Some(t) && t@ == v,
            None => r is None,
        },
{
    if b.len() < 6 || b[4] > 1 {
        return None;
    }
    let priority = match decode_priority(b[5]) {
        Some(p) => p,
        None => return None,
    };
    let (description, p) = match decode_text(b, 6) {
        Some(x) => x,
        None => return None,
    };
    if p > b.len() || b.len() - p < 8 {
        return None;
    }
    let count = u64_from_le_bytes(slice_subrange(b.as_slice(), p, p + 8));
    let mut pos = p + 8;
    let mut tags: Vec<String> = Vec::new();
    let mut i: u64 = 0;
    while i < count
        invariant
            i <= count,
            6 <= b@.len(),
            b@[4] <= 1,
            Some(priority) == priority_from_byte(b@[5]),
            p + 8 <= b@.len(),
            parse_text(b@, 6) == Some((description@, p as int)),
            count == spec_u64_from_le_bytes(b@.subrange(p as int, p + 8)),
            parse_texts(b@, p + 8, i as nat) == Some((strings_view(tags@), pos as int)),
        decreases count - i,
    {
        match decode_text(b, pos) {
            Some((s, q)) => {
                let ghost before = tags@;
                tags.push(s);
                pos = q;
                assert(strings_view(tags@) =~= strings_view(before).push(s@));
            },
            None => {
                proof {
                    assert(parse_texts(b@, p + 8, (i + 1) as nat) is None);
                    lemma_parse_texts_fails_on(b@, p + 8, (i + 1) as nat, count as nat);
                }
                return None;
            },
        }
        i = i + 1;
    }
    if pos != b.len() {
        return None;
    }
    let id = u32_from_le_bytes(slice_subrange(b.as_slice(), 0, 4));
    Some(Todo { id, description, is_completed: b[4] == 1, priority, tags })
}

proof fn lemma_parse_text_of(pre: Seq<u8>, s: Seq<char>, post: Seq<u8>)
    requires
        encode_utf8(s).len() <= u64::MAX,
    ensures
        parse_text(pre + encode_text(s) + post, pre.len() as int) == Some(
            (s, (pre.len() + encode_text(s).len()) as int),
        ),
{
    broadcast use encode_utf8_valid_utf8, encode_utf8_decode_utf8;

    lemma_auto_spec_u64_to_from_le_bytes();
    let b = pre + encode_text(s) + post;
    let n = encode_utf8(s).len();
    let pos = pre.len() as int;
    assert(b.subrange(pos, pos + 8) =~= spec_u64_to_le_bytes(n as u64));
    assert(b.subrange(pos + 8, pos + 8 + n) =~= encode_utf8(s));
}

proof fn lemma_parse_texts_of(pre: Seq<u8>, ts: Seq<Seq<char>>, post: Seq<u8>)
    requires
        forall|i: int| 0 <= i < ts.len() ==> encode_utf8(#[trigger] ts[i]).len() <= u64::MAX,
    ensures
        parse_texts(pre + encode_texts(ts) + post, pre.len() as int, ts.len()) == Some(
            (ts, (pre.len() + encode_texts(ts).len()) as int),
        ),
    decreases ts.len(),
{
    if ts.len() > 0 {
        let init = ts.drop_last();
        let last = ts.last();
        let rest = encode_text(last) + post;
        assert(pre + encode_texts(ts) + post =~= pre + encode_texts(init) + rest);
        lemma_parse_texts_of(pre, init, rest);
        assert(pre + encode_texts(ts) + post =~= (pre + encode_texts(init)) + encode_text(last)
            + post);
        lemma_parse_text_of(pre + encode_texts(init), last, post);
        assert(init.push(last) =~= ts);
    }
}

/// Decoding the encoding of a record gives the record back.
pub proof fn lemma_round_trip(t: Todo)
    requires
        encodable(t@),
    ensures
        parse_spec(encode_spec(t@)) == Some(t@),
{
    lemma_auto_spec_u32_to_from_le_bytes();
    lemma_auto_spec_u64_to_from_le_bytes();
    let v = t@;
    let a = spec_u32_to_le_bytes(v.id);
    let f = seq![if v.is_completed { 1u8 } else { 0u8 }, priority_byte(v.priority)];
    let c = encode_text(v.description);
    let d = spec_u64_to_le_bytes(v.tags.len() as u64);
    let e = encode_texts(v.tags);
    let b = encode_spec(v);
    assert(b =~= (a + f) + c + (d + e));
    lemma_parse_text_of(a + f, v.description, d + e);
    let p = 6 + c.len() as int;
    assert(b.subrange(0, 4) =~= a);
    assert(b.subrange(p, p + 8) =~= d);
    assert(b =~= ((a + f) + c + d) + e + Seq::<u8>::empty());
    lemma_parse_texts_of((a + f) + c + d, v.tags, Seq::<u8>::empty());
}

} // verus!
