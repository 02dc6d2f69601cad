//! The frame and message codec for the helper protocol: a 4-byte
//! big-endian length prefix frames each message, and a message is a tagged
//! payload carrying application entries with length-prefixed UTF-8
//! strings.

use vstd::prelude::*;
use vstd::utf8::{decode_utf8, encode_utf8, valid_utf8};

use crate::events::{App, AppView, SocketEvent, SocketEventView};

verus! {

broadcast use vstd::utf8::encode_utf8_valid_utf8, vstd::utf8::encode_utf8_decode_utf8;

/// The message tag of a full-list message.
pub const TAG_LIST: u8 = 1;

/// The message tag of a launch message.
pub const TAG_LAUNCH: u8 = 2;

/// The message tag of a close message.
pub const TAG_CLOSE: u8 = 3;

/// The message tag of an activate message.
pub const TAG_ACTIVATE: u8 = 4;

/// The four big-endian bytes of a 32-bit value.
pub open spec fn be_bytes(x: u32) -> Seq<u8> {
    seq![
        ((x >> 24) & 0xff) as u8,
        ((x >> 16) & 0xff) as u8,
        ((x >> 8) & 0xff) as u8,
        (x & 0xff) as u8,
    ]
}

/// The 32-bit value that four big-endian bytes carry.
pub open spec fn be_val(b0: u8, b1: u8, b2: u8, b3: u8) -> u32 {
    ((b0 as u32) << 24) | ((b1 as u32) << 16) | ((b2 as u32) << 8) | (b3 as u32)
}

/// Reading back the four big-endian bytes of a value gives the value.
pub proof fn lemma_be_roundtrip(x: u32)
    ensures
        be_val(
            ((x >> 24) & 0xff) as u8,
            ((x >> 16) & 0xff) as u8,
            ((x >> 8) & 0xff) as u8,
            (x & 0xff) as u8,
        ) == x,
{
    assert((((((x >> 24) & 0xff) as u8) as u32) << 24) | (((((x >> 16) & 0xff) as u8) as u32)
        << 16) | (((((x >> 8) & 0xff) as u8) as u32) << 8) | (((x & 0xff) as u8) as u32) == x)
        by (bit_vector);
}

/// Append the four big-endian bytes of `x`.
fn push_u32_be(out: &mut Vec<u8>, x: u32)
    ensures
        final(out)@ == old(out)@ + be_bytes(x),
{
    let ghost o0 = out@;
    out.push(((x >> 24) & 0xff) as u8);
    out.push(((x >> 16) & 0xff) as u8);
    out.push(((x >> 8) & 0xff) as u8);
    out.push((x & 0xff) as u8);
    proof {
        assert(out@ =~= o0 + be_bytes(x));
    }
}

/// Parse a big-endian 32-bit value at `i`: four bytes must be available.
pub open spec fn parse_u32(b: Seq<u8>, i: int) -> Option<(u32, int)> {
    if 0 <= i && i + 4 <= b.len() {
        Some((be_val(b[i], b[i + 1], b[i + 2], b[i + 3]), i + 4))
    } else {
        None
    }
}

/// Parse a length-prefixed UTF-8 string at `i`: the prefixed number of
/// bytes must be available and must decode.
pub open spec fn parse_str(b: Seq<u8>, i: int) -> Option<(Seq<char>, int)> {
    match parse_u32(b, i) {
        None => None,
        Some((n, j)) => if j + n <= b.len() && valid_utf8(b.subrange(j, j + n)) {
            Some((decode_utf8(b.subrange(j, j + n)), j + n))
        } else {
            None
        },
    }
}

/// Parse one entry at `i`: name, process id, path, icon.
pub open spec fn parse_app(b: Seq<u8>, i: int) -> Option<(AppView, int)> {
    match parse_str(b, i) {
        None => None,
        Some((name, i1)) => match parse_u32(b, i1) {
            None => None,
            Some((pid, i2)) => match parse_str(b, i2) {
                None => None,
                Some((path, i3)) => match parse_str(b, i3) {
                    None => None,
                    Some((icon, i4)) => Some((AppView { name, pid, path, icon }, i4)),
                },
            },
        },
    }
}

/// Parse exactly `count` entries at `i`.
pub open spec fn parse_apps(b: Seq<u8>, i: int, count: nat) -> Option<(Seq<AppView>, int)>
    decreases count,
{
    if count == 0 {
        Some((Seq::empty(), i))
    } else {
        match parse_app(b, i) {
            None => None,
            Some((a, j)) => match parse_apps(b, j, (count - 1) as nat) {
                None => None,
                Some((rest, k)) => Some((seq![a] + rest, k)),
            },
        }
    }
}

/// What a payload means, if anything: a tag byte, the tag's body, and
/// nothing left over. Anything else is a malformed message.
pub open spec fn spec_decode_event(b: Seq<u8>) -> Option<SocketEventView> {
    if b.len() < 1 {
        None
    } else {
        let tag = b[0];
        if tag == TAG_LIST {
            match parse_u32(b, 1) {
                None => None,
                Some((n, i)) => match parse_apps(b, i, n as nat) {
                    None => None,
                    Some((apps, j)) => if j == b.len() {
                        Some(SocketEventView::List(apps))
                    } else {
                        None
                    },
                },
            }
        } else if tag == TAG_LAUNCH || tag == TAG_CLOSE || tag == TAG_ACTIVATE {
            match parse_app(b, 1) {
                None => None,
                Some((a, j)) => if j == b.len() {
                    if tag == TAG_LAUNCH {
                        Some(SocketEventView::Launch(a))
                    } else if tag == TAG_CLOSE {
                        Some(SocketEventView::Close(a))
                    } else {
                        Some(SocketEventView::Activate(a))
                    }
                } else {
                    None
                },
            }
        } else {
            None
        }
    }
}

/// The encoding of a length-prefixed UTF-8 string.
pub open spec fn enc_str(s: Seq<char>) -> Seq<u8> {
    be_bytes(encode_utf8(s).len() as u32) + encode_utf8(s)
}

/// The encoding of one entry.
pub open spec fn enc_app(a: AppView) -> Seq<u8> {
    enc_str(a.name) + be_bytes(a.pid) + enc_str(a.path) + enc_str(a.icon)
}

/// The encoding of a run of entries.
pub open spec fn enc_apps(apps: Seq<AppView>) -> Seq<u8>
    decreases apps.len(),
{
    if apps.len() == 0 {
        Seq::empty()
    } else {
        enc_app(apps[0]) + enc_apps(apps.drop_first())
    }
}

/// The encoding of a whole message payload.
pub open spec fn spec_encode_event(e: SocketEventView) -> Seq<u8> {
    match e {
        SocketEventView::List(apps) => seq![TAG_LIST] + be_bytes(apps.len() as u32) + enc_apps(
            apps,
        ),
        SocketEventView::Launch(a) => seq![TAG_LAUNCH] + enc_app(a),
        SocketEventView::Close(a) => seq![TAG_CLOSE] + enc_app(a),
        SocketEventView::Activate(a) => seq![TAG_ACTIVATE] + enc_app(a),
    }
}

/// Relies on `String::from_utf8`: it succeeds exactly on valid UTF-8 and
/// returns the string those bytes encode.
#[verifier::external_body]
fn string_from_utf8(v: Vec<u8>) -> (r: Option<String>)
    ensures
        r is Some <==> valid_utf8(v@),
        r matches Some(s) ==> encode_utf8(s@) == v@,
{
    String::from_utf8(v).ok()
}

/// Read a big-endian 32-bit value at `i`, as [`parse_u32`] says.
fn read_u32(bytes: &Vec<u8>, i: usize) -> (r: Option<(u32, usize)>)
    ensures
        match r {
            Some((x, j)) => parse_u32(bytes@, i as int) == Some((x, j as int)),
            None => parse_u32(bytes@, i as int) is None,
        },
{
    if bytes.len() >= 4 && i <= bytes.len() - 4 {
        let b0 = bytes[i];
        let b1 = bytes[i + 1];
        let b2 = bytes[i + 2];
        let b3 = bytes[i + 3];
        let x = ((b0 as u32) << 24) | ((b1 as u32) << 16) | ((b2 as u32) << 8) | (b3 as u32);
        Some((x, i + 4))
    } else {
        None
    }
}

/// Read a length-prefixed UTF-8 string at `i`, as [`parse_str`] says.
fn read_string(bytes: &Vec<u8>, i: usize) -> (r: Option<(String, usize)>)
    ensures
        match r {
            Some((s, j)) => parse_str(bytes@, i as int) == Some((s@, j as int)),
            None => parse_str(bytes@, i as int) is None,
        },
{
    match read_u32(bytes, i) {
        None => None,
        Some((n, j)) => {
            let n_usize = n as usize;
            let blen = bytes.len();
            if n_usize <= blen - j {
                let ghost sub = bytes@.subrange(j as int, j as int + n as int);
                let mut buf: Vec<u8> = Vec::new();
                let mut k: usize = 0;
                while k < n_usize
                    invariant
                        0 <= k <= n_usize,
                        blen == bytes@.len(),
                        j + n_usize <= blen,
                        n_usize == n,
                        sub == bytes@.subrange(j as int, j as int + n as int),
                        buf@ == bytes@.subrange(j as int, j as int + k as int),
                    decreases n_usize - k,
                {
                    buf.push(bytes[j + k]);
                    proof {
                        assert(buf@ =~= bytes@.subrange(j as int, j as int + k as int + 1));
                    }
                    k += 1;
                }
                proof {
                    assert(buf@ == sub);
                }
                match string_from_utf8(buf) {
                    Some(s) => {
                        proof {
                            assert(valid_utf8(sub));
                            assert(decode_utf8(sub) == s@);
                        }
                        Some((s, j + n_usize))
                    },
                    None => None,
                }
            } else {
                None
            }
        },
    }
}

/// Read one entry at `i`, as [`parse_app`] says.
fn read_app(bytes: &Vec<u8>, i: usize) -> (r: Option<(App, usize)>)
    ensures
        match r {
            Some((a, j)) => parse_app(bytes@, i as int) == Some((a.deep_view(), j as int)),
            None => parse_app(bytes@, i as int) is None,
        },
{
    let (name, i1) = match read_string(bytes, i) {
        Some(v) => v,
        None => {
            return None;
        },
    };
    let (pid, i2) = match read_u32(bytes, i1) {
        Some(v) => v,
        None => {
            return None;
        },
    };
    let (path, i3) = match read_string(bytes, i2) {
        Some(v) => v,
        None => {
            return None;
        },
    };
    let (icon, i4) = match read_string(bytes, i3) {
        Some(v) => v,
        None => {
            return None;
        },
    };
    Some((App { name, pid, path, icon }, i4))
}

/// Read exactly `count` entries at `start`, as [`parse_apps`] says.
fn read_apps(bytes: &Vec<u8>, start: usize, count: u32) -> (r: Option<(Vec<App>, usize)>)
    ensures
        match r {
            Some((apps, j)) => parse_apps(bytes@, start as int, count as nat) == Some(
                (apps.deep_view(), j as int),
            ),
            None => parse_apps(bytes@, start as int, count as nat) is None,
        },
{
    let mut out: Vec<App> = Vec::new();
    let mut cur = start;
    let mut done: u32 = 0;
    proof {
        if let Some((rest, _end)) = parse_apps(bytes@, start as int, count as nat) {
            assert(out.deep_view() =~= Seq::<AppView>::empty());
            assert(Seq::<AppView>::empty() + rest =~= rest);
        }
    }
    while done < count
        invariant
            done <= count,
            match parse_apps(bytes@, cur as int, (count - done) as nat) {
                Some((rest, end)) => parse_apps(bytes@, start as int, count as nat) == Some(
                    (out.deep_view() + rest, end),
                ),
                None => parse_apps(bytes@, start as int, count as nat) is None,
            },
        decreases count - done,
    {
        match read_app(bytes, cur) {
            Some((a, j)) => {
                let ghost d0 = out.deep_view();
                let ghost av = a.deep_view();
                out.push(a);
                proof {
                    assert(out.deep_view() =~= d0.push(av));
                    if let Some((rest, _end)) = parse_apps(bytes@, j as int, (count - done
                        - 1) as nat) {
                        assert(d0.push(av) + rest =~= d0 + (seq![av] + rest));
                    }
                }
                cur = j;
                done += 1;
            },
            None => {
                return None;
            },
        }
    }
    proof {
        assert(out.deep_view() + Seq::<AppView>::empty() =~= out.deep_view());
    }
    Some((out, cur))
}

/// Decode one message payload, exactly as [`spec_decode_event`] says: a
/// malformed payload decodes to nothing.
pub fn decode_message(bytes: &Vec<u8>) -> (r: Option<SocketEvent>)
    ensures
        match r {
            Some(m) => spec_decode_event(bytes@) == Some(m.deep_view()),
            None => spec_decode_event(bytes@) is None,
        },
{
    if bytes.len() < 1 {
        return None;
    }
    let tag = bytes[0];
    if tag == TAG_LIST {
        match read_u32(bytes, 1) {
            Some((n, i)) => match read_apps(bytes, i, n) {
                Some((apps, j)) => if j == bytes.len() {
                    Some(SocketEvent::List(apps))
                } else {
                    None
                },
                None => None,
            },
            None => None,
        }
    } else if tag == TAG_LAUNCH || tag == TAG_CLOSE || tag == TAG_ACTIVATE {
        match read_app(bytes, 1) {
            Some((a, j)) => if j == bytes.len() {
                if tag == TAG_LAUNCH {
                    Some(SocketEvent::Launch(a))
                } else if tag == TAG_CLOSE {
                    Some(SocketEvent::Close(a))
                } else {
                    Some(SocketEvent::Activate(a))
                }
            } else {
                None
            },
            None => None,
        }
    } else {
        None
    }
}

/// Append a length-prefixed string; refuses one whose byte encoding the
/// length prefix cannot carry.
fn push_str(out: &mut Vec<u8>, s: &String) -> (ok: bool)
    ensures
        ok ==> final(out)@ == old(out)@ + enc_str(s@) && str_fits(s@),
        !ok ==> final(out)@ == old(out)@ && !str_fits(s@),
{
    let b = s.as_str().as_bytes();
    if (b.len() as u64) < 0x1_0000_0000u64 {
        let ghost o0 = out@;
        push_u32_be(out, b.len() as u32);
        out.extend_from_slice(b);
        proof {
            assert(out@ =~= o0 + enc_str(s@));
        }
        true
    } else {
        false
    }
}

/// Append one encoded entry; refuses an entry with an oversized string.
fn push_app(out: &mut Vec<u8>, a: &App) -> (ok: bool)
    ensures
        ok ==> final(out)@ == old(out)@ + enc_app(a.deep_view()) && app_fits(a.deep_view()),
        !ok ==> !app_fits(a.deep_view()),
{
    let ghost o0 = out@;
    if !push_str(out, &a.name) {
        return false;
    }
    push_u32_be(out, a.pid);
    if !push_str(out, &a.path) {
        return false;
    }
    if !push_str(out, &a.icon) {
        return false;
    }
    proof {
        assert(out@ =~= o0 + enc_app(a.deep_view()));
    }
    true
}

/// Encoding one more entry appends its encoding.
pub proof fn lemma_enc_apps_snoc(s: Seq<AppView>, a: AppView)
    ensures
        enc_apps(s.push(a)) == enc_apps(s) + enc_app(a),
    decreases s.len(),
{
    if s.len() == 0 {
        assert(s.push(a).drop_first() =~= Seq::<AppView>::empty());
        assert(s.push(a)[0] == a);
        assert(enc_apps(Seq::<AppView>::empty()) == Seq::<u8>::empty());
        assert(enc_apps(s.push(a)) == enc_app(a) + Seq::<u8>::empty());
        assert(enc_app(a) + Seq::<u8>::empty() =~= Seq::<u8>::empty() + enc_app(a));
    } else {
        assert(s.push(a).drop_first() =~= s.drop_first().push(a));
        lemma_enc_apps_snoc(s.drop_first(), a);
        assert(enc_app(s[0]) + (enc_apps(s.drop_first()) + enc_app(a)) =~= (enc_app(s[0])
            + enc_apps(s.drop_first())) + enc_app(a));
    }
}

/// Encode one message payload, exactly as [`spec_encode_event`] says;
/// refuses a message the wire format cannot carry.
pub fn encode_message(event: &SocketEvent) -> (r: Option<Vec<u8>>)
    ensures
        match r {
            Some(v) => v@ == spec_encode_event(event.deep_view()) && event_fits(
                event.deep_view(),
            ),
            None => !event_fits(event.deep_view()),
        },
{
    let mut out: Vec<u8> = Vec::new();
    match event {
        SocketEvent::List(apps) => {
            if (apps.len() as u64) >= 0x1_0000_0000u64 {
                proof {
                    assert(apps.deep_view().len() == apps@.len());
                }
                return None;
            }
            let n = apps.len() as u32;
            out.push(TAG_LIST);
            push_u32_be(&mut out, n);
            let ghost head = seq![TAG_LIST] + be_bytes(n);
            let ghost d = apps.deep_view();
            proof {
                assert(out@ =~= head);
                assert(d.take(0) =~= Seq::<AppView>::empty());
                assert(head + enc_apps(d.take(0)) =~= head);
            }
            let mut k: usize = 0;
            while k < apps.len()
                invariant
                    0 <= k <= apps@.len(),
                    d == apps.deep_view(),
                    d.len() == apps@.len(),
                    event.deep_view() == SocketEventView::List(d),
                    head == seq![TAG_LIST] + be_bytes(n),
                    out@ == head + enc_apps(d.take(k as int)),
                    forall|i: int| 0 <= i < k ==> app_fits(#[trigger] d[i]),
                decreases apps@.len() - k,
            {
                proof {
                    assert(d[k as int] == apps@[k as int]@);
                }
                let ghost o0 = out@;
                if !push_app(&mut out, &apps[k]) {
                    proof {
                        assert(!app_fits(d[k as int]));
                        assert((k as int) < d.len());
                        assert(!event_fits(SocketEventView::List(d)));
                    }
                    return None;
                }
                proof {
                    assert(d.take(k as int + 1) =~= d.take(k as int).push(d[k as int]));
                    lemma_enc_apps_snoc(d.take(k as int), d[k as int]);
                    assert(o0 + enc_app(d[k as int]) =~= head + (enc_apps(d.take(k as int))
                        + enc_app(d[k as int])));
                }
                k += 1;
            }
            proof {
                assert(d.take(apps@.len() as int) =~= d);
            }
            Some(out)
        },
        SocketEvent::Launch(a) => {
            out.push(TAG_LAUNCH);
            if !push_app(&mut out, a) {
                return None;
            }
            proof {
                assert(out@ =~= seq![TAG_LAUNCH] + enc_app(a.deep_view()));
            }
            Some(out)
        },
        SocketEvent::Close(a) => {
            out.push(TAG_CLOSE);
            if !push_app(&mut out, a) {
                return None;
            }
            proof {
                assert(out@ =~= seq![TAG_CLOSE] + enc_app(a.deep_view()));
            }
            Some(out)
        },
        SocketEvent::Activate(a) => {
            out.push(TAG_ACTIVATE);
            if !push_app(&mut out, a) {
                return None;
            }
            proof {
                assert(out@ =~= seq![TAG_ACTIVATE] + enc_app(a.deep_view()));
            }
            Some(out)
        },
    }
}

/// Frame a payload: the 4-byte big-endian length prefix, then the
/// payload; refuses a payload longer than the prefix can say.
pub fn encode_frame(payload: &Vec<u8>) -> (r: Option<Vec<u8>>)
    ensures
        match r {
            Some(v) => payload@.len() < 0x1_0000_0000 && v@ == be_bytes(payload@.len() as u32)
                + payload@,
            None => payload@.len() >= 0x1_0000_0000,
        },
{
    if (payload.len() as u64) >= 0x1_0000_0000u64 {
        return None;
    }
    let mut out: Vec<u8> = Vec::new();
    push_u32_be(&mut out, payload.len() as u32);
    out.extend_from_slice(payload.as_slice());
    proof {
        assert(out@ =~= be_bytes(payload@.len() as u32) + payload@);
    }
    Some(out)
}

/// The payload length a 4-byte frame header declares.
pub fn frame_length(header: &Vec<u8>) -> (r: Option<u32>)
    ensures
        header@.len() == 4 ==> r == Some(be_val(header@[0], header@[1], header@[2], header@[3])),
        header@.len() != 4 ==> r is None,
{
    if header.len() == 4 {
        match read_u32(header, 0) {
            Some((x, _)) => Some(x),
            None => None,
        }
    } else {
        None
    }
}

/// A region of `b` equal to a concatenation splits into two regions equal
/// to the parts.
proof fn lemma_region_split(b: Seq<u8>, i: int, x: Seq<u8>, y: Seq<u8>)
    requires
        0 <= i,
        i + x.len() + y.len() <= b.len(),
        b.subrange(i, i + x.len() + y.len()) == x + y,
    ensures
        b.subrange(i, i + x.len() as int) == x,
        b.subrange(i + x.len(), i + x.len() + y.len()) == y,
{
    let whole = b.subrange(i, i + x.len() + y.len());
    assert forall|t: int| 0 <= t < x.len() implies b.subrange(i, i + x.len() as int)[t] == x[t] by {
        assert(whole[t] == (x + y)[t]);
        assert(whole[t] == b[i + t]);
        assert(b.subrange(i, i + x.len() as int)[t] == b[i + t]);
    }
    assert(b.subrange(i, i + x.len() as int) =~= x);
    assert forall|t: int|
        0 <= t < y.len() implies b.subrange(i + x.len(), i + x.len() + y.len())[t] == y[t] by {
        assert(whole[x.len() + t] == (x + y)[x.len() + t]);
        assert(whole[x.len() + t] == b[i + x.len() + t]);
        assert(b.subrange(i + x.len(), i + x.len() + y.len())[t] == b[i + x.len() + t]);
    }
    assert(b.subrange(i + x.len(), i + x.len() + y.len()) =~= y);
}

/// A big-endian value is parsed back from where it was encoded.
proof fn lemma_parse_u32_at(b: Seq<u8>, i: int, x: u32)
    requires
        0 <= i,
        i + 4 <= b.len(),
        b.subrange(i, i + 4) == be_bytes(x),
    ensures
        parse_u32(b, i) == Some((x, i + 4)),
{
    assert(b[i] == b.subrange(i, i + 4)[0]);
    assert(b[i + 1] == b.subrange(i, i + 4)[1]);
    assert(b[i + 2] == b.subrange(i, i + 4)[2]);
    assert(b[i + 3] == b.subrange(i, i + 4)[3]);
    lemma_be_roundtrip(x);
}

/// A length-prefixed string is parsed back from where it was encoded,
/// whatever stands before or after it.
proof fn lemma_parse_str_at(b: Seq<u8>, i: int, s: Seq<char>)
    requires
        0 <= i,
        str_fits(s),
        i + enc_str(s).len() <= b.len(),
        b.subrange(i, i + enc_str(s).len() as int) == enc_str(s),
    ensures
        parse_str(b, i) == Some((s, i + enc_str(s).len())),
{
    let e = encode_utf8(s);
    let n = e.len() as u32;
    let r = enc_str(s);
    assert(r == be_bytes(n) + e);
    lemma_region_split(b, i, be_bytes(n), e);
    lemma_parse_u32_at(b, i, n);
    let j = i + 4;
    assert(b.subrange(j, j + n as int) == e);
    assert(valid_utf8(e));
    assert(decode_utf8(e) == s);
}

/// An entry is parsed back from where it was encoded.
proof fn lemma_parse_app_at(b: Seq<u8>, i: int, a: AppView)
    requires
        0 <= i,
        app_fits(a),
        i + enc_app(a).len() <= b.len(),
        b.subrange(i, i + enc_app(a).len() as int) == enc_app(a),
    ensures
        parse_app(b, i) == Some((a, i + enc_app(a).len())),
{
    let r = enc_app(a);
    let e1 = enc_str(a.name);
    let e2 = be_bytes(a.pid);
    let e3 = enc_str(a.path);
    let e4 = enc_str(a.icon);
    assert(r == ((e1 + e2) + e3) + e4);
    let i1 = i + e1.len();
    let i2 = i1 + 4;
    let i3 = i2 + e3.len();
    lemma_region_split(b, i, (e1 + e2) + e3, e4);
    lemma_region_split(b, i, e1 + e2, e3);
    lemma_region_split(b, i, e1, e2);
    lemma_parse_str_at(b, i, a.name);
    lemma_parse_u32_at(b, i1, a.pid);
    lemma_parse_str_at(b, i2, a.path);
    lemma_parse_str_at(b, i3, a.icon);
}

/// A run of entries is parsed back from where it was encoded.
proof fn lemma_parse_apps_at(b: Seq<u8>, i: int, apps: Seq<AppView>)
    requires
        0 <= i,
        forall|k: int| 0 <= k < apps.len() ==> app_fits(#[trigger] apps[k]),
        i + enc_apps(apps).len() <= b.len(),
        b.subrange(i, i + enc_apps(apps).len() as int) == enc_apps(apps),
    ensures
        parse_apps(b, i, apps.len() as nat) == Some((apps, i + enc_apps(apps).len())),
    decreases apps.len(),
{
    if apps.len() == 0 {
        assert(apps =~= Seq::<AppView>::empty());
    } else {
        let r = enc_apps(apps);
        let e0 = enc_app(apps[0]);
        let rest = enc_apps(apps.drop_first());
        assert(r == e0 + rest);
        let j = i + e0.len();
        lemma_region_split(b, i, e0, rest);
        lemma_parse_app_at(b, i, apps[0]);
        assert(forall|k: int|
            0 <= k < apps.drop_first().len() ==> apps.drop_first()[k] == apps[k + 1]);
        lemma_parse_apps_at(b, j, apps.drop_first());
        assert(seq![apps[0]] + apps.drop_first() =~= apps);
    }
}

/// Round trip: whatever the encoder can carry, the decoder hands back
/// unchanged.
pub proof fn lemma_codec_roundtrip(e: SocketEventView)
    requires
        event_fits(e),
    ensures
        spec_decode_event(spec_encode_event(e)) == Some(e),
{
    let b = spec_encode_event(e);
    match e {
        SocketEventView::List(apps) => {
            let n = apps.len() as u32;
            assert(b == (seq![TAG_LIST] + be_bytes(n)) + enc_apps(apps));
            assert(b[0] == TAG_LIST);
            assert(b.subrange(0, b.len() as int) =~= b);
            lemma_region_split(b, 0, seq![TAG_LIST] + be_bytes(n), enc_apps(apps));
            lemma_region_split(b, 0, seq![TAG_LIST], be_bytes(n));
            lemma_parse_u32_at(b, 1, n);
            lemma_parse_apps_at(b, 5, apps);
            assert(n as nat == apps.len());
            assert(5 + enc_apps(apps).len() == b.len());
        },
        SocketEventView::Launch(a) => {
            assert(b == seq![TAG_LAUNCH] + enc_app(a));
            assert(b[0] == TAG_LAUNCH);
            assert(b.subrange(0, b.len() as int) =~= b);
            lemma_region_split(b, 0, seq![TAG_LAUNCH], enc_app(a));
            lemma_parse_app_at(b, 1, a);
        },
        SocketEventView::Close(a) => {
            assert(b == seq![TAG_CLOSE] + enc_app(a));
            assert(b[0] == TAG_CLOSE);
            assert(b.subrange(0, b.len() as int) =~= b);
            lemma_region_split(b, 0, seq![TAG_CLOSE], enc_app(a));
            lemma_parse_app_at(b, 1, a);
        },
        SocketEventView::Activate(a) => {
            assert(b == seq![TAG_ACTIVATE] + enc_app(a));
            assert(b[0] == TAG_ACTIVATE);
            assert(b.subrange(0, b.len() as int) =~= b);
            lemma_region_split(b, 0, seq![TAG_ACTIVATE], enc_app(a));
            lemma_parse_app_at(b, 1, a);
        },
    }
}

/// A string whose byte encoding the length prefix can carry.
pub open spec fn str_fits(s: Seq<char>) -> bool {
    encode_utf8(s).len() < 0x1_0000_0000
}

/// An entry all of whose strings fit their length prefixes.
pub open spec fn app_fits(a: AppView) -> bool {
    str_fits(a.name) && str_fits(a.path) && str_fits(a.icon)
}

/// A message that the wire format can carry.
pub open spec fn event_fits(e: SocketEventView) -> bool {
    match e {
        SocketEventView::List(apps) => apps.len() < 0x1_0000_0000 && (forall|i: int|
            0 <= i < apps.len() ==> app_fits(#[trigger] apps[i])),
        SocketEventView::Launch(a) => app_fits(a),
        SocketEventView::Close(a) => app_fits(a),
        SocketEventView::Activate(a) => app_fits(a),
    }
}

} // verus!
