//! The framing of multipathd's socket protocol (as `libmpathcmd` does it): a
//! message is its length as 8 little-endian bytes, then its bytes, the last of
//! which is a NUL.
use vstd::prelude::*;
use vstd::string::StringSliceAdditionalSpecFns;
use crate::text::{concat, decimal, u64_to_decimal};

verus! {

/// The bound on reply lengths: a reply must be shorter than 32 MiB.
pub const MAX_REPLY_LEN: usize = 33554432;

/// `256^k`.
pub open spec fn pow256(k: nat) -> nat
    decreases k,
{
    if k == 0 {
        1
    } else {
        256 * pow256((k - 1) as nat)
    }
}

/// The number that little-endian bytes denote.
pub open spec fn le_value(b: Seq<u8>) -> nat
    decreases b.len(),
{
    if b.len() == 0 {
        0
    } else {
        b[0] as nat + 256 * le_value(b.drop_first())
    }
}

/// The `k` lowest bytes of `n`, least significant first.
pub open spec fn le_bytes(n: nat, k: nat) -> Seq<u8>
    decreases k,
{
    if k == 0 {
        Seq::empty()
    } else {
        seq![(n % 256) as u8] + le_bytes(n / 256, (k - 1) as nat)
    }
}

pub proof fn lemma_le_roundtrip(n: nat, k: nat)
    requires
        n < pow256(k),
    ensures
        le_bytes(n, k).len() == k,
        le_value(le_bytes(n, k)) == n,
    decreases k,
{
    if k > 0 {
        assert(n / 256 < pow256((k - 1) as nat)) by (nonlinear_arith)
            requires
                n < 256 * pow256((k - 1) as nat),
        ;
        lemma_le_roundtrip(n / 256, (k - 1) as nat);
        let b = le_bytes(n, k);
        assert(b.drop_first() =~= le_bytes(n / 256, (k - 1) as nat));
        assert(n == n % 256 + 256 * (n / 256)) by (nonlinear_arith);
    }
}

/// The 8 little-endian bytes of a number (`u64::to_le_bytes`).
pub fn u64_le_bytes(n: u64) -> (r: Vec<u8>)
    ensures
        r@ == le_bytes(n as nat, 8),
{
    let mut r: Vec<u8> = Vec::new();
    let mut v: u64 = n;
    let mut k: usize = 0;
    while k < 8
        invariant
            k <= 8,
            r@ + le_bytes(v as nat, (8 - k) as nat) == le_bytes(n as nat, 8),
        decreases 8 - k,
    {
        let ghost before = r@;
        let b = (v % 256) as u8;
        r.push(b);
        assert(le_bytes(v as nat, (8 - k) as nat) =~= seq![b] + le_bytes((v / 256) as nat, (8 - k - 1) as nat));
        assert(r@ + le_bytes((v / 256) as nat, (8 - k - 1) as nat) =~= before + le_bytes(v as nat, (8 - k) as nat));
        v = v / 256;
        k = k + 1;
    }
    assert(le_bytes(v as nat, 0) =~= Seq::<u8>::empty());
    assert(r@ =~= r@ + le_bytes(v as nat, 0));
    r
}

proof fn lemma_pow256_8()
    ensures
        pow256(8) == 0x1_0000_0000_0000_0000,
{
    reveal_with_fuel(pow256, 9);
}

proof fn lemma_le_value_bound(b: Seq<u8>)
    ensures
        le_value(b) < pow256(b.len()),
    decreases b.len(),
{
    if b.len() > 0 {
        lemma_le_value_bound(b.drop_first());
        assert(le_value(b) < pow256(b.len())) by (nonlinear_arith)
            requires
                le_value(b) == b[0] as nat + 256 * le_value(b.drop_first()),
                le_value(b.drop_first()) + 1 <= pow256(b.drop_first().len()),
                pow256(b.len()) == 256 * pow256(b.drop_first().len()),
                b[0] < 256,
        ;
    }
}

/// The number that 8 little-endian bytes denote (`u64::from_le_bytes`).
pub fn u64_from_le(b: &[u8]) -> (r: u64)
    requires
        b.len() == 8,
    ensures
        r as nat == le_value(b@),
{
    proof {
        lemma_le_value_bound(b@);
        lemma_pow256_8();
    }
    let mut acc: u64 = 0;
    let mut k: usize = 8;
    assert(b@.skip(8) =~= Seq::<u8>::empty());
    while k > 0
        invariant
            k <= 8,
            b.len() == 8,
            acc as nat == le_value(b@.skip(k as int)),
            le_value(b@.skip(k as int)) < pow256((8 - k) as nat),
        decreases k,
    {
        let ghost rest = b@.skip(k as int);
        let ghost next = b@.skip(k - 1);
        assert(next.drop_first() =~= rest);
        assert(next[0] == b@[k - 1]);
        proof {
            lemma_le_value_bound(next);
            reveal_with_fuel(pow256, 9);
        }
        assert(acc * 256 + b[k - 1] < pow256((8 - (k - 1)) as nat)) by (nonlinear_arith)
            requires
                acc < pow256((8 - k) as nat),
                pow256((8 - (k - 1)) as nat) == 256 * pow256((8 - k) as nat),
                b[k - 1] < 256,
        ;
        assert(pow256((8 - (k - 1)) as nat) <= 0x1_0000_0000_0000_0000) by {
            reveal_with_fuel(pow256, 9);
        };
        acc = acc * 256 + b[k - 1] as u64;
        k = k - 1;
    }
    assert(b@.skip(0) =~= b@);
    acc
}

/// A command the socket cannot carry: it holds a NUL byte (at that position).
pub struct NulInCommand {
    pub position: usize,
}

/// The frame of a message: its length (bytes plus the closing NUL) as 8
/// little-endian bytes, its bytes, and a NUL.
pub open spec fn frame(body: Seq<u8>) -> Seq<u8> {
    le_bytes((body.len() + 1) as nat, 8) + body + seq![0u8]
}

/// The position of the first NUL byte, if any.
pub open spec fn first_nul(b: Seq<u8>) -> Option<int>
    decreases b.len(),
{
    if b.len() == 0 {
        None
    } else if b[0] == 0 {
        Some(0)
    } else {
        match first_nul(b.drop_first()) {
            Some(i) => Some(i + 1),
            None => None,
        }
    }
}

/// The first NUL is the first byte that is 0.
pub proof fn lemma_first_nul(b: Seq<u8>, i: int)
    requires
        0 <= i < b.len(),
        b[i] == 0,
        forall|j: int| 0 <= j < i ==> b[j] != 0,
    ensures
        first_nul(b) == Some(i),
    decreases i,
{
    if i > 0 {
        lemma_first_nul(b.drop_first(), i - 1);
    }
}

/// Without a NUL byte there is no first one.
pub proof fn lemma_no_nul(b: Seq<u8>)
    requires
        forall|j: int| 0 <= j < b.len() ==> b[j] != 0,
    ensures
        first_nul(b) is None,
    decreases b.len(),
{
    if b.len() > 0 {
        lemma_no_nul(b.drop_first());
    }
}

/// Frames a command for multipathd; a command holding a NUL byte cannot be sent
/// (as `CString::new` refuses it), and the error tells where the first one is.
pub fn encode_command(command: &str) -> (r: Result<Vec<u8>, NulInCommand>)
    requires
        command.spec_bytes().len() + 1 <= u64::MAX,
    ensures
        match r {
            Ok(f) => (forall|i: int| 0 <= i < command.spec_bytes().len() ==> command.spec_bytes()[i] != 0) && f@ == frame(
                command.spec_bytes(),
            ),
            Err(e) => e.position < command.spec_bytes().len() && command.spec_bytes()[e.position as int] == 0
                && forall|j: int| 0 <= j < e.position ==> command.spec_bytes()[j] != 0,
        },
{
    let bytes = command.as_bytes();
    let mut i: usize = 0;
    while i < bytes.len()
        invariant
            i <= bytes.len(),
            bytes@ == command.spec_bytes(),
            forall|j: int| 0 <= j < i ==> bytes@[j] != 0,
        decreases bytes.len() - i,
    {
        if bytes[i] == 0 {
            return Err(NulInCommand { position: i });
        }
        i = i + 1;
    }
    let mut out = u64_le_bytes(bytes.len() as u64 + 1);
    let mut k: usize = 0;
    let ghost head = out@;
    while k < bytes.len()
        invariant
            k <= bytes.len(),
            out@ == head + bytes@.take(k as int),
        decreases bytes.len() - k,
    {
        out.push(bytes[k]);
        k = k + 1;
        assert(out@ =~= head + bytes@.take(k as int));
    }
    out.push(0u8);
    assert(bytes@.take(bytes.len() as int) =~= bytes@);
    assert(out@ =~= frame(command.spec_bytes()));
    Ok(out)
}

/// The reply length the 8 length bytes announce (read as a `usize`); it is
/// acceptable when it is not zero and below 32 MiB.
pub open spec fn announced_length(len_bytes: Seq<u8>) -> usize {
    (le_value(len_bytes) as u64) as usize
}

pub open spec fn reply_length(len_bytes: Seq<u8>) -> Option<usize> {
    let n = announced_length(len_bytes);
    if n == 0 || n >= MAX_REPLY_LEN {
        None
    } else {
        Some(n)
    }
}

/// Reads the announced reply length; an unacceptable one is an error with the
/// message "Invalid reply length: <n>".
pub fn parse_reply_length(len_bytes: &[u8]) -> (r: Result<usize, String>)
    requires
        len_bytes.len() == 8,
    ensures
        match reply_length(len_bytes@) {
            Some(n) => r == Ok::<usize, String>(n),
            None => r matches Err(m) && m@ == "Invalid reply length: "@ + decimal(announced_length(len_bytes@) as nat),
        },
{
    let n = u64_from_le(len_bytes);
    let reply_len = n as usize;
    if reply_len == 0 || reply_len >= MAX_REPLY_LEN {
        let m = concat("Invalid reply length: ", u64_to_decimal(reply_len as u64).as_str());
        return Err(m);
    }
    Ok(reply_len)
}

/// The bytes of a reply body that carry the text: the last byte is forced to NUL
/// and the text ends at the first NUL.
pub open spec fn reply_payload(body: Seq<u8>) -> Seq<u8> {
    let b = if body.len() > 0 {
        body.update(body.len() - 1, 0u8)
    } else {
        body
    };
    match first_nul(b) {
        Some(i) => b.take(i),
        None => b,
    }
}

/// Extracts the text bytes of a reply body (see `reply_payload`).
pub fn reply_payload_bytes(body: Vec<u8>) -> (r: Vec<u8>)
    ensures
        r@ == reply_payload(body@),
{
    let mut b = body;
    let ghost orig = b@;
    if b.len() > 0 {
        let last = b.len() - 1;
        b.set(last, 0u8);
    }
    let ghost fixed = b@;
    assert(fixed == if orig.len() > 0 {
        orig.update(orig.len() - 1, 0u8)
    } else {
        orig
    });
    let mut i: usize = 0;
    while i < b.len()
        invariant
            i <= b.len(),
            b@ == fixed,
            orig == body@,
            fixed == (if orig.len() > 0 {
                orig.update(orig.len() - 1, 0u8)
            } else {
                orig
            }),
            forall|j: int| 0 <= j < i ==> b@[j] != 0,
        decreases b.len() - i,
    {
        if b[i] == 0 {
            proof {
                lemma_first_nul(fixed, i as int);
            }
            b.truncate(i);
            assert(b@ =~= fixed.take(i as int));
            return b;
        }
        i = i + 1;
    }
    proof {
        lemma_no_nul(fixed);
    }
    b
}

/// The frame the mock daemon sends for a reply text: the text's bytes with a NUL.
pub fn encode_reply(response: &str) -> (r: Vec<u8>)
    requires
        response.spec_bytes().len() + 1 <= u64::MAX,
    ensures
        r@ == frame(response.spec_bytes()),
{
    let bytes = response.as_bytes();
    let mut out = u64_le_bytes(bytes.len() as u64 + 1);
    let ghost head = out@;
    let mut k: usize = 0;
    while k < bytes.len()
        invariant
            k <= bytes.len(),
            bytes@ == response.spec_bytes(),
            out@ == head + bytes@.take(k as int),
        decreases bytes.len() - k,
    {
        out.push(bytes[k]);
        k = k + 1;
        assert(out@ =~= head + bytes@.take(k as int));
    }
    out.push(0u8);
    assert(bytes@.take(bytes.len() as int) =~= bytes@);
    assert(out@ =~= frame(response.spec_bytes()));
    out
}

/// A framed message without NUL bytes is read back whole: its length bytes
/// announce an acceptable length (when it is shorter than 32 MiB) that is exactly the
/// size of the rest of the frame, and the text bytes of that rest are the message.
pub proof fn lemma_frame_roundtrip(body: Seq<u8>)
    requires
        forall|i: int| 0 <= i < body.len() ==> body[i] != 0,
        body.len() + 1 < MAX_REPLY_LEN,
    ensures
        frame(body).subrange(0, 8).len() == 8,
        reply_length(frame(body).subrange(0, 8)) == Some((body.len() + 1) as usize),
        frame(body).skip(8).len() == body.len() + 1,
        reply_payload(frame(body).skip(8)) == body,
{
    let n = (body.len() + 1) as nat;
    assert(n < pow256(8)) by {
        lemma_pow256_8();
    };
    lemma_le_roundtrip(n, 8);
    let f = frame(body);
    assert(f.subrange(0, 8) =~= le_bytes(n, 8));
    let rest = f.skip(8);
    assert(rest =~= body + seq![0u8]);
    let fixed = rest.update(rest.len() - 1, 0u8);
    assert(fixed =~= rest);
    assert(fixed[body.len() as int] == 0);
    assert forall|j: int| 0 <= j < body.len() implies fixed[j] != 0 by {
        assert(fixed[j] == body[j]);
    }
    lemma_first_nul(fixed, body.len() as int);
    assert(fixed.take(body.len() as int) =~= body);
}

/// What `String::from_utf8` makes of bytes: the text, or the message of its error.
pub uninterp spec fn spec_from_utf8(bytes: Seq<u8>) -> Result<Seq<char>, Seq<char>>;

/// Decodes UTF-8 with `String::from_utf8`; on failure the error is the message of
/// its error. The contract names the answer; it does not restate UTF-8.
#[verifier::external_body]
fn from_utf8(bytes: Vec<u8>) -> (r: Result<String, String>)
    ensures
        match r {
            Ok(s) => spec_from_utf8(bytes@) == Ok::<Seq<char>, Seq<char>>(s@),
            Err(e) => spec_from_utf8(bytes@) == Err::<Seq<char>, Seq<char>>(e@),
        },
{
    match String::from_utf8(bytes) {
        Ok(s) => Ok(s),
        Err(e) => Err(e.to_string()),
    }
}

/// The text of a reply body: its text bytes (see `reply_payload`) decoded as
/// UTF-8; invalid UTF-8 is an error "Invalid UTF-8: <reason>".
pub fn decode_reply(body: Vec<u8>) -> (r: Result<String, String>)
    ensures
        match spec_from_utf8(reply_payload(body@)) {
            Ok(t) => r matches Ok(s) && s@ == t,
            Err(e) => r matches Err(m) && m@ == "Invalid UTF-8: "@ + e,
        },
{
    let payload = reply_payload_bytes(body);
    match from_utf8(payload) {
        Ok(s) => Ok(s),
        Err(e) => Err(concat("Invalid UTF-8: ", e.as_str())),
    }
}

} // verus!
