//! Wire codec of the inter-process channel.
//!
//! A frame is a 4-byte little-endian length prefix followed by exactly that
//! many payload bytes. The payload is a schemaless sequence of tagged
//! fields: one tag byte, a 4-byte little-endian body length, then the body.
//! Strings travel as their characters' scalar values, four bytes each;
//! chains as little-endian 32-bit pids. Unknown tags are skipped, a later
//! field of a tag overrides an earlier one, missing optional fields take
//! their documented defaults, and a request without a pid or event field is
//! rejected. Decoding never panics on malformed or adversarial input.

use vstd::prelude::*;
use vstd::bytes::{
    spec_u32_to_le_bytes,
    spec_u32_from_le_bytes,
    lemma_auto_spec_u32_to_from_le_bytes,
    u32_from_le_bytes,
    u32_to_le_bytes,
};
use vstd::slice::slice_subrange;
use vstd::string::{StringExecFns, StrSliceExecFns};
use vstd::utf8::{is_scalar, char_is_scalar, char_u32_cast};
use crate::request::{NotifyRequest, NotifyRequestView};
use crate::text::push_char;

verus! {

/// Field tag of the source pid (body: 4 bytes, little-endian u32).
pub const TAG_PID: u8 = 1;

/// Field tag of the event key (body: a string).
pub const TAG_EVENT: u8 = 2;

/// Field tag of the optional message (body: a string).
pub const TAG_MESSAGE: u8 = 3;

/// Field tag of the optional title hint (body: a string).
pub const TAG_TITLE_HINT: u8 = 4;

/// Field tag of the optional pre-walked chain (body: little-endian u32s).
pub const TAG_PROCESS_TREE: u8 = 5;

/// Field tag of the origin tag (body: a string; defaults to the primary
/// trusted sender when absent).
pub const TAG_SOURCE: u8 = 6;

/// The bytes of a string body: each character's scalar value, four bytes
/// each, little-endian.
pub open spec fn spec_chars_bytes(s: Seq<char>) -> Seq<u8>
    decreases s.len(),
{
    if s.len() == 0 {
        Seq::empty()
    } else {
        spec_u32_to_le_bytes(s[0] as u32) + spec_chars_bytes(s.drop_first())
    }
}

/// The bytes of a chain body: each pid, four bytes, little-endian.
pub open spec fn spec_u32s_bytes(t: Seq<u32>) -> Seq<u8>
    decreases t.len(),
{
    if t.len() == 0 {
        Seq::empty()
    } else {
        spec_u32_to_le_bytes(t[0]) + spec_u32s_bytes(t.drop_first())
    }
}

/// A string body is four bytes per character.
pub proof fn lemma_chars_bytes_len(s: Seq<char>)
    ensures
        spec_chars_bytes(s).len() == 4 * s.len(),
    decreases s.len(),
{
    lemma_auto_spec_u32_to_from_le_bytes();
    if s.len() > 0 {
        lemma_chars_bytes_len(s.drop_first());
    }
}

/// A chain body is four bytes per pid.
pub proof fn lemma_u32s_bytes_len(t: Seq<u32>)
    ensures
        spec_u32s_bytes(t).len() == 4 * t.len(),
    decreases t.len(),
{
    lemma_auto_spec_u32_to_from_le_bytes();
    if t.len() > 0 {
        lemma_u32s_bytes_len(t.drop_first());
    }
}

/// One encoded field: the tag byte, the body length as a little-endian u32,
/// then the body.
pub open spec fn spec_field(tag: u8, body: Seq<u8>) -> Seq<u8> {
    seq![tag] + spec_u32_to_le_bytes(body.len() as u32) + body
}

/// Whether a request's parts are small enough for the wire format's 32-bit
/// body lengths.
pub open spec fn spec_encodable(v: NotifyRequestView) -> bool {
    &&& 4 * v.event.len() <= u32::MAX
    &&& (match v.message {
        Option::Some(m) => 4 * m.len() <= u32::MAX,
        Option::None => true,
    })
    &&& (match v.title_hint {
        Option::Some(t) => 4 * t.len() <= u32::MAX,
        Option::None => true,
    })
    &&& (match v.process_tree {
        Option::Some(t) => 4 * t.len() <= u32::MAX,
        Option::None => true,
    })
    &&& 4 * v.source.len() <= u32::MAX
}

/// The encoding of a request: pid, event, the optional fields that are
/// present, then the origin tag.
pub open spec fn spec_encode_request(v: NotifyRequestView) -> Seq<u8> {
    spec_field(TAG_PID, spec_u32_to_le_bytes(v.pid)) + spec_field(
        TAG_EVENT,
        spec_chars_bytes(v.event),
    ) + (match v.message {
        Option::Some(m) => spec_field(TAG_MESSAGE, spec_chars_bytes(m)),
        Option::None => Seq::empty(),
    }) + (match v.title_hint {
        Option::Some(t) => spec_field(TAG_TITLE_HINT, spec_chars_bytes(t)),
        Option::None => Seq::empty(),
    }) + (match v.process_tree {
        Option::Some(t) => spec_field(TAG_PROCESS_TREE, spec_u32s_bytes(t)),
        Option::None => Seq::empty(),
    }) + spec_field(TAG_SOURCE, spec_chars_bytes(v.source))
}

/// The characters a string body decodes to; nothing when the body is not a
/// whole number of four-byte groups or a group is not a Unicode scalar.
pub open spec fn spec_chars_of_bytes(b: Seq<u8>) -> Option<Seq<char>>
    decreases b.len(),
{
    if b.len() == 0 {
        Some(Seq::empty())
    } else if b.len() < 4 {
        None
    } else {
        let v = spec_u32_from_le_bytes(b.subrange(0, 4));
        if !is_scalar(v) {
            None
        } else {
            match spec_chars_of_bytes(b.skip(4)) {
                Option::None => None,
                Option::Some(rest) => Some(seq![v as char] + rest),
            }
        }
    }
}

/// The pids a chain body decodes to; nothing when the body is not a whole
/// number of four-byte groups.
pub open spec fn spec_u32s_of_bytes(b: Seq<u8>) -> Option<Seq<u32>>
    decreases b.len(),
{
    if b.len() == 0 {
        Some(Seq::empty())
    } else if b.len() < 4 {
        None
    } else {
        match spec_u32s_of_bytes(b.skip(4)) {
            Option::None => None,
            Option::Some(rest) => Some(seq![spec_u32_from_le_bytes(b.subrange(0, 4))] + rest),
        }
    }
}

/// Decoding a string body gives back the characters it encoded.
pub proof fn lemma_chars_bytes_roundtrip(s: Seq<char>)
    ensures
        spec_chars_of_bytes(spec_chars_bytes(s)) == Some(s),
    decreases s.len(),
{
    lemma_auto_spec_u32_to_from_le_bytes();
    if s.len() > 0 {
        lemma_chars_bytes_roundtrip(s.drop_first());
        lemma_chars_bytes_len(s.drop_first());
        let b = spec_chars_bytes(s);
        let head = spec_u32_to_le_bytes(s[0] as u32);
        assert(b.subrange(0, 4) =~= head);
        assert(b.skip(4) =~= spec_chars_bytes(s.drop_first()));
        char_is_scalar(s[0]);
        char_u32_cast(s[0], s[0] as u32);
        assert(seq![s[0]] + s.drop_first() =~= s);
    }
}

/// Decoding a chain body gives back the pids it encoded.
pub proof fn lemma_u32s_bytes_roundtrip(t: Seq<u32>)
    ensures
        spec_u32s_of_bytes(spec_u32s_bytes(t)) == Some(t),
    decreases t.len(),
{
    lemma_auto_spec_u32_to_from_le_bytes();
    if t.len() > 0 {
        lemma_u32s_bytes_roundtrip(t.drop_first());
        lemma_u32s_bytes_len(t.drop_first());
        let b = spec_u32s_bytes(t);
        assert(b.subrange(0, 4) =~= spec_u32_to_le_bytes(t[0]));
        assert(b.skip(4) =~= spec_u32s_bytes(t.drop_first()));
        assert(seq![t[0]] + t.drop_first() =~= t);
    }
}

/// The fields gathered while decoding a payload.
pub struct DecodeState {
    pub pid: Option<u32>,
    pub event: Option<Seq<char>>,
    pub message: Option<Seq<char>>,
    pub title_hint: Option<Seq<char>>,
    pub process_tree: Option<Seq<u32>>,
    pub source: Option<Seq<char>>,
}

/// The state before any field was read.
pub open spec fn spec_initial_state() -> DecodeState {
    DecodeState {
        pid: None,
        event: None,
        message: None,
        title_hint: None,
        process_tree: None,
        source: None,
    }
}

/// One field applied to the gathered state: a known tag parses its body and
/// overrides the field, an unknown tag is ignored, a malformed body rejects
/// the payload.
pub open spec fn spec_apply_field(st: DecodeState, tag: u8, body: Seq<u8>) -> Option<DecodeState> {
    if tag == TAG_PID {
        if body.len() == 4 {
            Some(DecodeState { pid: Some(spec_u32_from_le_bytes(body)), ..st })
        } else {
            None
        }
    } else if tag == TAG_EVENT {
        match spec_chars_of_bytes(body) {
            Option::Some(s) => Some(DecodeState { event: Some(s), ..st }),
            Option::None => None,
        }
    } else if tag == TAG_MESSAGE {
        match spec_chars_of_bytes(body) {
            Option::Some(s) => Some(DecodeState { message: Some(s), ..st }),
            Option::None => None,
        }
    } else if tag == TAG_TITLE_HINT {
        match spec_chars_of_bytes(body) {
            Option::Some(s) => Some(DecodeState { title_hint: Some(s), ..st }),
            Option::None => None,
        }
    } else if tag == TAG_PROCESS_TREE {
        match spec_u32s_of_bytes(body) {
            Option::Some(t) => Some(DecodeState { process_tree: Some(t), ..st }),
            Option::None => None,
        }
    } else if tag == TAG_SOURCE {
        match spec_chars_of_bytes(body) {
            Option::Some(s) => Some(DecodeState { source: Some(s), ..st }),
            Option::None => None,
        }
    } else {
        Some(st)
    }
}

/// All fields of a payload applied in order to the gathered state; nothing
/// when a field header or body is truncated or a body malformed.
pub open spec fn spec_decode_fields(b: Seq<u8>, st: DecodeState) -> Option<DecodeState>
    decreases b.len(),
{
    if b.len() == 0 {
        Some(st)
    } else if b.len() < 5 {
        None
    } else {
        let tag = b[0];
        let len = spec_u32_from_le_bytes(b.subrange(1, 5)) as int;
        if b.len() < 5 + len {
            None
        } else {
            match spec_apply_field(st, tag, b.subrange(5, 5 + len)) {
                Option::None => None,
                Option::Some(st2) => spec_decode_fields(b.skip(5 + len), st2),
            }
        }
    }
}

/// The request a fully gathered state yields: pid and event must have been
/// seen; the origin tag defaults to the primary trusted sender.
pub open spec fn spec_finish_decode(st: DecodeState) -> Option<NotifyRequestView> {
    match (st.pid, st.event) {
        (Option::Some(pid), Option::Some(event)) => Some(
            NotifyRequestView {
                pid,
                event,
                message: st.message,
                title_hint: st.title_hint,
                process_tree: st.process_tree,
                source: match st.source {
                    Option::Some(s) => s,
                    Option::None => "agent"@,
                },
            },
        ),
        _ => None,
    }
}

/// What a payload decodes to, if anything.
pub open spec fn spec_decode_request(b: Seq<u8>) -> Option<NotifyRequestView> {
    match spec_decode_fields(b, spec_initial_state()) {
        Option::None => None,
        Option::Some(st) => spec_finish_decode(st),
    }
}

/// Decoding one well-formed field at the front of a payload applies it and
/// continues with the rest.
pub proof fn lemma_decode_field_step(tag: u8, body: Seq<u8>, rest: Seq<u8>, st: DecodeState)
    requires
        body.len() <= u32::MAX,
    ensures
        spec_decode_fields(spec_field(tag, body) + rest, st) == (match spec_apply_field(
            st,
            tag,
            body,
        ) {
            Option::None => None::<DecodeState>,
            Option::Some(st2) => spec_decode_fields(rest, st2),
        }),
{
    lemma_auto_spec_u32_to_from_le_bytes();
    let b = spec_field(tag, body) + rest;
    assert(b.len() == 5 + body.len() + rest.len());
    assert(b[0] == tag);
    assert(b.subrange(1, 5) =~= spec_u32_to_le_bytes(body.len() as u32));
    let len = spec_u32_from_le_bytes(b.subrange(1, 5)) as int;
    assert(len == body.len());
    assert(b.subrange(5, 5 + len) =~= body);
    assert(b.skip(5 + len) =~= rest);
}

/// Encode-then-decode reproduces every field: for every encodable request,
/// decoding its encoding yields exactly the request back, empty strings,
/// long chains and multi-byte text included.
pub proof fn lemma_encode_decode_roundtrip(v: NotifyRequestView)
    requires
        spec_encodable(v),
    ensures
        spec_decode_request(spec_encode_request(v)) == Some(v),
{
    lemma_auto_spec_u32_to_from_le_bytes();
    lemma_chars_bytes_len(v.event);
    lemma_chars_bytes_len(v.source);
    lemma_chars_bytes_roundtrip(v.event);
    lemma_chars_bytes_roundtrip(v.source);
    let f_pid = spec_field(TAG_PID, spec_u32_to_le_bytes(v.pid));
    let f_event = spec_field(TAG_EVENT, spec_chars_bytes(v.event));
    let f_message = match v.message {
        Option::Some(m) => spec_field(TAG_MESSAGE, spec_chars_bytes(m)),
        Option::None => Seq::empty(),
    };
    let f_title = match v.title_hint {
        Option::Some(t) => spec_field(TAG_TITLE_HINT, spec_chars_bytes(t)),
        Option::None => Seq::empty(),
    };
    let f_tree = match v.process_tree {
        Option::Some(t) => spec_field(TAG_PROCESS_TREE, spec_u32s_bytes(t)),
        Option::None => Seq::empty(),
    };
    let f_source = spec_field(TAG_SOURCE, spec_chars_bytes(v.source));
    let whole = spec_encode_request(v);
    let st0 = spec_initial_state();
    assert(whole =~= f_pid + (f_event + (f_message + (f_title + (f_tree + f_source)))));
    lemma_decode_field_step(
        TAG_PID,
        spec_u32_to_le_bytes(v.pid),
        f_event + (f_message + (f_title + (f_tree + f_source))),
        st0,
    );
    let st1 = DecodeState { pid: Some(v.pid), ..st0 };
    lemma_decode_field_step(
        TAG_EVENT,
        spec_chars_bytes(v.event),
        f_message + (f_title + (f_tree + f_source)),
        st1,
    );
    let st2 = DecodeState { event: Some(v.event), ..st1 };
    let st3 = match v.message {
        Option::Some(m) => {
            lemma_chars_bytes_len(m);
            lemma_chars_bytes_roundtrip(m);
            lemma_decode_field_step(
                TAG_MESSAGE,
                spec_chars_bytes(m),
                f_title + (f_tree + f_source),
                st2,
            );
            DecodeState { message: Some(m), ..st2 }
        },
        Option::None => {
            assert(f_message + (f_title + (f_tree + f_source)) =~= f_title + (f_tree + f_source));
            st2
        },
    };
    assert(spec_decode_fields(f_title + (f_tree + f_source), st3) == spec_decode_fields(
        whole,
        st0,
    ));
    let st4 = match v.title_hint {
        Option::Some(t) => {
            lemma_chars_bytes_len(t);
            lemma_chars_bytes_roundtrip(t);
            lemma_decode_field_step(TAG_TITLE_HINT, spec_chars_bytes(t), f_tree + f_source, st3);
            DecodeState { title_hint: Some(t), ..st3 }
        },
        Option::None => {
            assert(f_title + (f_tree + f_source) =~= f_tree + f_source);
            st3
        },
    };
    assert(spec_decode_fields(f_tree + f_source, st4) == spec_decode_fields(whole, st0));
    let st5 = match v.process_tree {
        Option::Some(t) => {
            lemma_u32s_bytes_len(t);
            lemma_u32s_bytes_roundtrip(t);
            lemma_decode_field_step(TAG_PROCESS_TREE, spec_u32s_bytes(t), f_source, st4);
            DecodeState { process_tree: Some(t), ..st4 }
        },
        Option::None => {
            assert(f_tree + f_source =~= f_source);
            st4
        },
    };
    assert(spec_decode_fields(f_source, st5) == spec_decode_fields(whole, st0));
    assert(f_source =~= f_source + Seq::<u8>::empty());
    lemma_decode_field_step(TAG_SOURCE, spec_chars_bytes(v.source), Seq::empty(), st5);
    let st6 = DecodeState { source: Some(v.source), ..st5 };
    assert(spec_decode_fields(Seq::<u8>::empty(), st6) == Some(st6));
    assert(spec_decode_fields(whole, st0) == Some(st6));
    assert(spec_finish_decode(st6) == Some(v));
}

/// Append the little-endian bytes of a u32.
fn push_le32(out: &mut Vec<u8>, v: u32)
    ensures
        final(out)@ == old(out)@ + spec_u32_to_le_bytes(v),
{
    proof {
        lemma_auto_spec_u32_to_from_le_bytes();
    }
    let b = u32_to_le_bytes(v);
    out.push(b[0]);
    out.push(b[1]);
    out.push(b[2]);
    out.push(b[3]);
    proof {
        assert(out@ =~= old(out)@ + spec_u32_to_le_bytes(v));
    }
}

/// Append a string body: each character's scalar value, four bytes each.
fn push_chars(out: &mut Vec<u8>, s: &str)
    ensures
        final(out)@ == old(out)@ + spec_chars_bytes(s@),
{
    let n = s.unicode_len();
    let mut i: usize = 0;
    proof {
        assert(s@.skip(0) =~= s@);
        assert(out@ + spec_chars_bytes(s@.skip(0)) =~= old(out)@ + spec_chars_bytes(s@));
    }
    while i < n
        invariant
            i <= n,
            n == s@.len(),
            out@ + spec_chars_bytes(s@.skip(i as int)) == old(out)@ + spec_chars_bytes(s@),
        decreases n - i,
    {
        let ghost suffix = s@.skip(i as int);
        proof {
            assert(suffix[0] == s@[i as int]);
            assert(suffix.drop_first() =~= s@.skip(i + 1));
        }
        let c = s.get_char(i);
        push_le32(out, c as u32);
        i = i + 1;
        proof {
            assert(out@ + spec_chars_bytes(s@.skip(i as int)) =~= old(out)@ + spec_chars_bytes(
                s@,
            ));
        }
    }
    proof {
        assert(spec_chars_bytes(s@.skip(n as int)) =~= Seq::<u8>::empty());
        assert(out@ + Seq::<u8>::empty() =~= out@);
    }
}

/// Append a chain body: each pid, four bytes, little-endian.
fn push_u32s(out: &mut Vec<u8>, t: &Vec<u32>)
    ensures
        final(out)@ == old(out)@ + spec_u32s_bytes(t@),
{
    let n = t.len();
    let mut i: usize = 0;
    proof {
        assert(t@.skip(0) =~= t@);
        assert(out@ + spec_u32s_bytes(t@.skip(0)) =~= old(out)@ + spec_u32s_bytes(t@));
    }
    while i < n
        invariant
            i <= n,
            n == t@.len(),
            out@ + spec_u32s_bytes(t@.skip(i as int)) == old(out)@ + spec_u32s_bytes(t@),
        decreases n - i,
    {
        let ghost suffix = t@.skip(i as int);
        proof {
            assert(suffix[0] == t@[i as int]);
            assert(suffix.drop_first() =~= t@.skip(i + 1));
        }
        push_le32(out, t[i]);
        i = i + 1;
        proof {
            assert(out@ + spec_u32s_bytes(t@.skip(i as int)) =~= old(out)@ + spec_u32s_bytes(t@));
        }
    }
    proof {
        assert(spec_u32s_bytes(t@.skip(n as int)) =~= Seq::<u8>::empty());
        assert(out@ + Seq::<u8>::empty() =~= out@);
    }
}

/// Append one string field: tag, body length, body.
fn push_string_field(out: &mut Vec<u8>, tag: u8, s: &String)
    requires
        4 * s@.len() <= u32::MAX,
    ensures
        final(out)@ == old(out)@ + spec_field(tag, spec_chars_bytes(s@)),
{
    proof {
        lemma_chars_bytes_len(s@);
    }
    let n = s.as_str().unicode_len();
    out.push(tag);
    push_le32(out, (n as u32) * 4);
    push_chars(out, s.as_str());
    proof {
        assert(out@ =~= old(out)@ + spec_field(tag, spec_chars_bytes(s@)));
    }
}

/// Append the chain field: tag, body length, body.
fn push_tree_field(out: &mut Vec<u8>, t: &Vec<u32>)
    requires
        4 * t@.len() <= u32::MAX,
    ensures
        final(out)@ == old(out)@ + spec_field(TAG_PROCESS_TREE, spec_u32s_bytes(t@)),
{
    proof {
        lemma_u32s_bytes_len(t@);
    }
    let n = t.len();
    out.push(TAG_PROCESS_TREE);
    push_le32(out, (n as u32) * 4);
    push_u32s(out, t);
    proof {
        assert(out@ =~= old(out)@ + spec_field(TAG_PROCESS_TREE, spec_u32s_bytes(t@)));
    }
}

/// Encode a request into a payload.
pub fn encode_request(req: &NotifyRequest) -> (out: Vec<u8>)
    requires
        spec_encodable(req@),
    ensures
        out@ == spec_encode_request(req@),
{
    proof {
        lemma_auto_spec_u32_to_from_le_bytes();
    }
    let mut out: Vec<u8> = Vec::new();
    out.push(TAG_PID);
    push_le32(&mut out, 4);
    push_le32(&mut out, req.pid);
    proof {
        assert(out@ =~= spec_field(TAG_PID, spec_u32_to_le_bytes(req.pid)));
    }
    push_string_field(&mut out, TAG_EVENT, &req.event);
    match &req.message {
        Option::Some(m) => push_string_field(&mut out, TAG_MESSAGE, m),
        Option::None => {},
    }
    match &req.title_hint {
        Option::Some(t) => push_string_field(&mut out, TAG_TITLE_HINT, t),
        Option::None => {},
    }
    match &req.process_tree {
        Option::Some(t) => push_tree_field(&mut out, t),
        Option::None => {},
    }
    push_string_field(&mut out, TAG_SOURCE, &req.source);
    proof {
        assert(out@ =~= spec_encode_request(req@));
    }
    out
}

/// Whether a request's parts are small enough for the wire format's 32-bit
/// body lengths.
pub fn request_encodable(req: &NotifyRequest) -> (r: bool)
    ensures
        r == spec_encodable(req@),
{
    let limit: usize = 1073741823;
    if req.event.as_str().unicode_len() > limit {
        return false;
    }
    match &req.message {
        Option::Some(m) => {
            if m.as_str().unicode_len() > limit {
                return false;
            }
        },
        Option::None => {},
    }
    match &req.title_hint {
        Option::Some(t) => {
            if t.as_str().unicode_len() > limit {
                return false;
            }
        },
        Option::None => {},
    }
    match &req.process_tree {
        Option::Some(t) => {
            if t.len() > limit {
                return false;
            }
        },
        Option::None => {},
    }
    if req.source.as_str().unicode_len() > limit {
        return false;
    }
    true
}

/// Encode a request into a payload, unless one of its parts is too large
/// for the wire format's 32-bit body lengths.
pub fn try_encode_request(req: &NotifyRequest) -> (r: Option<Vec<u8>>)
    ensures
        match r {
            Option::Some(out) => spec_encodable(req@) && out@ == spec_encode_request(req@),
            Option::None => !spec_encodable(req@),
        },
{
    if request_encodable(req) {
        Some(encode_request(req))
    } else {
        None
    }
}

/// Frame a payload: its length as a 4-byte little-endian prefix, then the
/// payload itself.
pub fn encode_frame(payload: &Vec<u8>) -> (f: Vec<u8>)
    requires
        payload@.len() <= u32::MAX,
    ensures
        f@ == spec_u32_to_le_bytes(payload@.len() as u32) + payload@,
{
    let mut f: Vec<u8> = Vec::new();
    push_le32(&mut f, payload.len() as u32);
    let n = payload.len();
    let mut i: usize = 0;
    proof {
        assert(f@ + payload@.subrange(0, 0) =~= f@);
    }
    while i < n
        invariant
            i <= n,
            n == payload@.len(),
            f@ == spec_u32_to_le_bytes(payload@.len() as u32) + payload@.subrange(0, i as int),
        decreases n - i,
    {
        f.push(payload[i]);
        i = i + 1;
        proof {
            assert(f@ =~= spec_u32_to_le_bytes(payload@.len() as u32) + payload@.subrange(
                0,
                i as int,
            ));
        }
    }
    proof {
        assert(payload@.subrange(0, n as int) =~= payload@);
    }
    f
}

/// Read a frame's 4-byte little-endian length prefix.
pub fn frame_payload_len(prefix: &Vec<u8>) -> (n: u32)
    requires
        prefix@.len() == 4,
    ensures
        n == spec_u32_from_le_bytes(prefix@),
{
    u32_from_le_bytes(prefix.as_slice())
}

/// Why a payload was rejected: it was not a well-formed field sequence, or
/// it lacked the pid or event field.
#[derive(PartialEq, Eq, Structural, Debug, Clone, Copy)]
pub enum DecodeError {
    Malformed,
}

/// Decode a string body within `bytes[from..to]`.
fn decode_chars_range(bytes: &Vec<u8>, from: usize, to: usize) -> (r: Option<String>)
    requires
        from <= to <= bytes@.len(),
    ensures
        match r {
            Option::Some(s) => spec_chars_of_bytes(bytes@.subrange(from as int, to as int))
                == Some(s@),
            Option::None => spec_chars_of_bytes(bytes@.subrange(from as int, to as int)) is None,
        },
{
    let ghost body = bytes@.subrange(from as int, to as int);
    let mut s = String::new();
    let mut p: usize = from;
    proof {
        assert(bytes@.subrange(from as int, to as int) =~= body);
        assert(body.skip(0) =~= bytes@.subrange(from as int, to as int));
    }
    while p < to
        invariant
            from <= p <= to <= bytes@.len(),
            body == bytes@.subrange(from as int, to as int),
            (match spec_chars_of_bytes(bytes@.subrange(p as int, to as int)) {
                Option::None => spec_chars_of_bytes(body) is None,
                Option::Some(rest) => spec_chars_of_bytes(body) == Some(s@ + rest),
            }),
        decreases to - p,
    {
        let ghost suffix = bytes@.subrange(p as int, to as int);
        if to - p < 4 {
            return None;
        }
        let v = u32_from_le_bytes(slice_subrange(bytes.as_slice(), p, p + 4));
        proof {
            assert(suffix.subrange(0, 4) =~= bytes@.subrange(p as int, p + 4));
            assert(suffix.skip(4) =~= bytes@.subrange(p + 4, to as int));
        }
        match char::from_u32(v) {
            Option::None => {
                return None;
            },
            Option::Some(c) => {
                push_char(&mut s, c);
            },
        }
        p = p + 4;
        proof {
            match spec_chars_of_bytes(bytes@.subrange(p as int, to as int)) {
                Option::None => {},
                Option::Some(rest) => {
                    assert(spec_chars_of_bytes(suffix) == Some(seq![v as char] + rest));
                    assert(s@ + rest =~= s@.drop_last() + (seq![v as char] + rest));
                },
            }
        }
    }
    proof {
        assert(bytes@.subrange(to as int, to as int) =~= Seq::<u8>::empty());
        assert(s@ + Seq::<char>::empty() =~= s@);
    }
    Some(s)
}

/// Decode a chain body within `bytes[from..to]`.
fn decode_u32s_range(bytes: &Vec<u8>, from: usize, to: usize) -> (r: Option<Vec<u32>>)
    requires
        from <= to <= bytes@.len(),
    ensures
        match r {
            Option::Some(t) => spec_u32s_of_bytes(bytes@.subrange(from as int, to as int)) == Some(
                t@,
            ),
            Option::None => spec_u32s_of_bytes(bytes@.subrange(from as int, to as int)) is None,
        },
{
    let ghost body = bytes@.subrange(from as int, to as int);
    let mut t: Vec<u32> = Vec::new();
    let mut p: usize = from;
    proof {
        assert(body.skip(0) =~= bytes@.subrange(from as int, to as int));
    }
    while p < to
        invariant
            from <= p <= to <= bytes@.len(),
            body == bytes@.subrange(from as int, to as int),
            (match spec_u32s_of_bytes(bytes@.subrange(p as int, to as int)) {
                Option::None => spec_u32s_of_bytes(body) is None,
                Option::Some(rest) => spec_u32s_of_bytes(body) == Some(t@ + rest),
            }),
        decreases to - p,
    {
        let ghost suffix = bytes@.subrange(p as int, to as int);
        if to - p < 4 {
            return None;
        }
        let v = u32_from_le_bytes(slice_subrange(bytes.as_slice(), p, p + 4));
        proof {
            assert(suffix.subrange(0, 4) =~= bytes@.subrange(p as int, p + 4));
            assert(suffix.skip(4) =~= bytes@.subrange(p + 4, to as int));
        }
        t.push(v);
        p = p + 4;
        proof {
            match spec_u32s_of_bytes(bytes@.subrange(p as int, to as int)) {
                Option::None => {},
                Option::Some(rest) => {
                    assert(spec_u32s_of_bytes(suffix) == Some(seq![v] + rest));
                    assert(t@ + rest =~= t@.drop_last() + (seq![v] + rest));
                },
            }
        }
    }
    proof {
        assert(bytes@.subrange(to as int, to as int) =~= Seq::<u8>::empty());
        assert(t@ + Seq::<u32>::empty() =~= t@);
    }
    Some(t)
}

/// The value of an optional string.
pub open spec fn view_opt_string(o: Option<String>) -> Option<Seq<char>> {
    match o {
        Option::Some(s) => Some(s@),
        Option::None => None,
    }
}

/// The value of an optional chain.
pub open spec fn view_opt_u32s(o: Option<Vec<u32>>) -> Option<Seq<u32>> {
    match o {
        Option::Some(t) => Some(t@),
        Option::None => None,
    }
}

/// Decode a payload into a request. A malformed payload — a truncated field
/// header or body, a bad body length, a non-scalar character group, or a
/// missing pid or event field — is rejected and harms nothing.
pub fn decode_request(bytes: &Vec<u8>) -> (r: Result<NotifyRequest, DecodeError>)
    ensures
        match r {
            Result::Ok(req) => spec_decode_request(bytes@) == Some(req@),
            Result::Err(_) => spec_decode_request(bytes@) is None,
        },
{
    let n = bytes.len();
    let mut pid: Option<u32> = None;
    let mut event: Option<String> = None;
    let mut message: Option<String> = None;
    let mut title_hint: Option<String> = None;
    let mut process_tree: Option<Vec<u32>> = None;
    let mut source: Option<String> = None;
    let mut pos: usize = 0;
    proof {
        assert(bytes@.skip(0) =~= bytes@);
    }
    while pos < n
        invariant
            pos <= n,
            n == bytes@.len(),
            spec_decode_fields(bytes@, spec_initial_state()) == spec_decode_fields(
                bytes@.skip(pos as int),
                DecodeState {
                    pid: pid,
                    event: view_opt_string(event),
                    message: view_opt_string(message),
                    title_hint: view_opt_string(title_hint),
                    process_tree: view_opt_u32s(process_tree),
                    source: view_opt_string(source),
                },
            ),
        decreases n - pos,
    {
        let ghost suffix = bytes@.skip(pos as int);
        if n - pos < 5 {
            return Err(DecodeError::Malformed);
        }
        let tag = bytes[pos];
        let len32 = u32_from_le_bytes(slice_subrange(bytes.as_slice(), pos + 1, pos + 5));
        let len = len32 as usize;
        proof {
            assert(suffix[0] == bytes@[pos as int]);
            assert(suffix.subrange(1, 5) =~= bytes@.subrange(pos + 1, pos + 5));
        }
        if n - pos - 5 < len {
            return Err(DecodeError::Malformed);
        }
        let body_start = pos + 5;
        let body_end = body_start + len;
        let ghost body = bytes@.subrange(body_start as int, body_end as int);
        proof {
            assert(suffix.subrange(5, 5 + len as int) =~= body);
            assert(suffix.skip(5 + len as int) =~= bytes@.skip(body_end as int));
        }
        if tag == TAG_PID {
            if len != 4 {
                return Err(DecodeError::Malformed);
            }
            let v = u32_from_le_bytes(slice_subrange(bytes.as_slice(), body_start, body_end));
            proof {
                assert(bytes@.subrange(body_start as int, body_end as int) =~= body);
            }
            pid = Some(v);
        } else if tag == TAG_EVENT {
            match decode_chars_range(bytes, body_start, body_end) {
                Option::Some(s) => {
                    event = Some(s);
                },
                Option::None => {
                    return Err(DecodeError::Malformed);
                },
            }
        } else if tag == TAG_MESSAGE {
            match decode_chars_range(bytes, body_start, body_end) {
                Option::Some(s) => {
                    message = Some(s);
                },
                Option::None => {
                    return Err(DecodeError::Malformed);
                },
            }
        } else if tag == TAG_TITLE_HINT {
            match decode_chars_range(bytes, body_start, body_end) {
                Option::Some(s) => {
                    title_hint = Some(s);
                },
                Option::None => {
                    return Err(DecodeError::Malformed);
                },
            }
        } else if tag == TAG_PROCESS_TREE {
            match decode_u32s_range(bytes, body_start, body_end) {
                Option::Some(t) => {
                    process_tree = Some(t);
                },
                Option::None => {
                    return Err(DecodeError::Malformed);
                },
            }
        } else if tag == TAG_SOURCE {
            match decode_chars_range(bytes, body_start, body_end) {
                Option::Some(s) => {
                    source = Some(s);
                },
                Option::None => {
                    return Err(DecodeError::Malformed);
                },
            }
        }
        pos = body_end;
    }
    proof {
        assert(bytes@.skip(n as int) =~= Seq::<u8>::empty());
    }
    let pid_val: u32 = match pid {
        Option::Some(p) => p,
        Option::None => {
            return Err(DecodeError::Malformed);
        },
    };
    let event_val: String = match event {
        Option::Some(e) => e,
        Option::None => {
            return Err(DecodeError::Malformed);
        },
    };
    let source_val: String = match source {
        Option::Some(s) => s,
        Option::None => String::from_str("agent"),
    };
    let req = NotifyRequest {
        pid: pid_val,
        event: event_val,
        message,
        title_hint,
        process_tree,
        source: source_val,
    };
    Ok(req)
}

} // verus!
