//! Length-prefixed message framing: serialize a message body behind a
//! `Content-Length` header, and recognize a complete frame at the front of
//! a byte buffer read from a child's pipe.
use vstd::prelude::*;

verus! {

/// The header name and separator, as bytes: `Content-Length: `.
pub open spec fn cl_prefix() -> Seq<u8> {
    seq![67u8, 111u8, 110u8, 116u8, 101u8, 110u8, 116u8, 45u8, 76u8, 101u8, 110u8, 103u8, 116u8,
        104u8, 58u8, 32u8]
}

/// The empty line that terminates a header block.
pub open spec fn crlf2() -> Seq<u8> {
    seq![13u8, 10u8, 13u8, 10u8]
}

/// Decimal digits of `n` as bytes, most significant first.
pub open spec fn dec_bytes(n: nat) -> Seq<u8>
    decreases n,
{
    if n < 10 {
        seq![(48 + n) as u8]
    } else {
        dec_bytes(n / 10) + seq![(48 + n % 10) as u8]
    }
}

/// The numeric value of a digit-byte sequence, most significant first.
pub open spec fn dec_value_bytes(s: Seq<u8>) -> int
    decreases s.len(),
{
    if s.len() == 0 {
        0
    } else {
        dec_value_bytes(s.drop_last()) * 10 + (s[s.len() - 1] - 48)
    }
}

/// Whether `s` is a non-empty run of decimal digit bytes.
pub open spec fn all_digit_bytes(s: Seq<u8>) -> bool {
    s.len() > 0 && forall|i: int| 0 <= i < s.len() ==> 48 <= #[trigger] s[i] <= 57
}

/// The frame that carries `body`: header prefix, decimal byte count, the
/// empty line, then the body itself.
pub open spec fn spec_frame(body: Seq<u8>) -> Seq<u8> {
    cl_prefix() + dec_bytes(body.len()) + crlf2() + body
}

fn push_cl_prefix(out: &mut Vec<u8>)
    ensures
        final(out)@ == old(out)@ + cl_prefix(),
{
    out.push(67);
    out.push(111);
    out.push(110);
    out.push(116);
    out.push(101);
    out.push(110);
    out.push(116);
    out.push(45);
    out.push(76);
    out.push(101);
    out.push(110);
    out.push(103);
    out.push(116);
    out.push(104);
    out.push(58);
    out.push(32);
    proof {
        assert(out@ =~= old(out)@ + cl_prefix());
    }
}

fn push_dec(out: &mut Vec<u8>, n: usize)
    ensures
        final(out)@ == old(out)@ + dec_bytes(n as nat),
    decreases n,
{
    if n < 10 {
        out.push((48 + n) as u8);
        proof {
            assert(out@ =~= old(out)@ + dec_bytes(n as nat));
        }
    } else {
        push_dec(out, n / 10);
        out.push((48 + n % 10) as u8);
        proof {
            assert(out@ =~= old(out)@ + dec_bytes(n as nat));
        }
    }
}

/// Serialize a message body as one frame: the header block announcing its
/// byte count, then the body, as one contiguous byte sequence.
pub fn encode_frame(body: &Vec<u8>) -> (r: Vec<u8>)
    ensures
        r@ == spec_frame(body@),
{
    let mut r: Vec<u8> = Vec::new();
    push_cl_prefix(&mut r);
    push_dec(&mut r, body.len());
    r.push(13);
    r.push(10);
    r.push(13);
    r.push(10);
    let mut i: usize = 0;
    while i < body.len()
        invariant
            0 <= i <= body@.len(),
            r@ == cl_prefix() + dec_bytes(body@.len()) + crlf2() + body@.subrange(0, i as int),
        decreases body@.len() - i,
    {
        r.push(body[i]);
        proof {
            assert(body@.subrange(0, i + 1) =~= body@.subrange(0, i as int) + seq![body@[i as int]]);
            assert(r@ =~= cl_prefix() + dec_bytes(body@.len()) + crlf2() + body@.subrange(
                0,
                i + 1,
            ));
        }
        i = i + 1;
    }
    proof {
        assert(body@.subrange(0, body@.len() as int) =~= body@);
    }
    r
}

/// Index of the first `\r\n` pair in `s`, or -1 if absent.
pub open spec fn find2(s: Seq<u8>) -> int
    decreases s.len(),
{
    if s.len() < 2 {
        -1
    } else if s[0] == 13 && s[1] == 10 {
        0
    } else if find2(s.drop_first()) == -1 {
        -1
    } else {
        find2(s.drop_first()) + 1
    }
}

/// Index of the first `\r\n\r\n` run in `s`, or -1 if absent.
pub open spec fn find4(s: Seq<u8>) -> int
    decreases s.len(),
{
    if s.len() < 4 {
        -1
    } else if s[0] == 13 && s[1] == 10 && s[2] == 13 && s[3] == 10 {
        0
    } else if find4(s.drop_first()) == -1 {
        -1
    } else {
        find4(s.drop_first()) + 1
    }
}

/// The recursive `find2` agrees with an index-based first occurrence.
pub proof fn lemma_find2_at(s: Seq<u8>, k: int)
    requires
        0 <= k <= s.len(),
        k + 2 <= s.len() ==> (s[k] == 13 && s[k + 1] == 10),
        forall|j: int| 0 <= j < k ==> !(#[trigger] s[j] == 13 && j + 1 < s.len() && s[j + 1] == 10),
    ensures
        find2(s) == if k + 2 <= s.len() { k } else { -1int },
    decreases s.len(),
{
    if s.len() < 2 {
    } else if s[0] == 13 && s[1] == 10 {
        assert(k == 0);
    } else {
        assert(forall|j: int|
            0 <= j < k - 1 ==> !(#[trigger] s.drop_first()[j] == 13 && j + 1
                < s.drop_first().len() && s.drop_first()[j + 1] == 10)) by {
            assert(forall|j: int| 0 <= j < s.len() - 1 ==> #[trigger] s.drop_first()[j] == s[j + 1]);
        };
        if k == 0 {
            assert(false);
        }
        lemma_find2_at(s.drop_first(), k - 1);
    }
}

/// The recursive `find4` agrees with an index-based first occurrence.
pub proof fn lemma_find4_at(s: Seq<u8>, k: int)
    requires
        0 <= k,
        k + 4 <= s.len() ==> (s[k] == 13 && s[k + 1] == 10 && s[k + 2] == 13 && s[k + 3] == 10),
        k + 4 > s.len() ==> k <= s.len(),
        forall|j: int|
            0 <= j < k && j + 4 <= s.len() ==> !(#[trigger] s[j] == 13 && s[j + 1] == 10 && s[j
                + 2] == 13 && s[j + 3] == 10),
    ensures
        find4(s) == if k + 4 <= s.len() { k } else { -1int },
    decreases s.len(),
{
    if s.len() < 4 {
    } else if s[0] == 13 && s[1] == 10 && s[2] == 13 && s[3] == 10 {
        assert(k == 0);
    } else {
        assert(forall|j: int| 0 <= j < s.len() - 1 ==> #[trigger] s.drop_first()[j] == s[j + 1]);
        if k == 0 {
            assert(false);
        }
        lemma_find4_at(s.drop_first(), k - 1);
    }
}

/// The digit run of the first `Content-Length` header line in `h`, where
/// `h` is a run of `\r\n`-terminated lines. `Err` when no line carries the
/// header.
pub open spec fn spec_header_cl(h: Seq<u8>) -> Result<Seq<u8>, ()>
    decreases h.len(),
{
    let i = find2(h);
    if i < 0 || i + 2 > h.len() {
        Err(())
    } else {
        let line = h.subrange(0, i);
        if line.len() >= 16 && line.subrange(0, 16) == cl_prefix() {
            Ok(line.subrange(16, line.len() as int))
        } else {
            spec_header_cl(h.subrange(i + 2, h.len() as int))
        }
    }
}

/// A fatal framing error.
#[derive(Clone, Copy, Debug, PartialEq, Eq, Structural)]
pub enum FrameError {
    /// The header block carries no `Content-Length` line.
    MissingLength,
    /// The announced length is not a plain decimal number that fits.
    BadLength,
}

/// The outcome of inspecting the front of a read buffer.
#[derive(Clone, Copy, Debug, PartialEq, Eq, Structural)]
pub enum FrameParse {
    /// No complete frame yet: more bytes must be read.
    NeedMore,
    /// The header block is malformed; the transport must shut down.
    Bad(FrameError),
    /// A complete frame: the header occupies `header_len` bytes and the
    /// body the `body_len` bytes after it.
    Frame { header_len: usize, body_len: usize },
}

/// What the front of buffer `buf` holds: a complete frame, a need for more
/// bytes, or a fatal header error.
pub open spec fn spec_decode(buf: Seq<u8>) -> FrameParse {
    let e = find4(buf);
    if e < 0 {
        FrameParse::NeedMore
    } else {
        match spec_header_cl(buf.subrange(0, e + 2)) {
            Err(_) => FrameParse::Bad(FrameError::MissingLength),
            Ok(digits) => if !all_digit_bytes(digits) || dec_value_bytes(digits) > usize::MAX {
                FrameParse::Bad(FrameError::BadLength)
            } else if buf.len() >= e + 4 + dec_value_bytes(digits) {
                FrameParse::Frame {
                    header_len: (e + 4) as usize,
                    body_len: dec_value_bytes(digits) as usize,
                }
            } else {
                FrameParse::NeedMore
            },
        }
    }
}

/// Copy `v[a..b]`.
pub fn vec_range(v: &Vec<u8>, a: usize, b: usize) -> (r: Vec<u8>)
    requires
        a <= b <= v@.len(),
    ensures
        r@ == v@.subrange(a as int, b as int),
{
    let mut r: Vec<u8> = Vec::new();
    let mut i: usize = a;
    while i < b
        invariant
            a <= i <= b <= v@.len(),
            r@ == v@.subrange(a as int, i as int),
        decreases b - i,
    {
        r.push(v[i]);
        proof {
            assert(v@.subrange(a as int, i + 1) =~= v@.subrange(a as int, i as int) + seq![
                v@[i as int],
            ]);
        }
        i = i + 1;
    }
    r
}

fn find4_exec(buf: &Vec<u8>) -> (r: Option<usize>)
    ensures
        match r {
            Some(i) => find4(buf@) == i && i + 4 <= buf@.len(),
            None => find4(buf@) == -1,
        },
{
    let len = buf.len();
    if len < 4 {
        proof {
            lemma_find4_at(buf@, 0);
        }
        return None;
    }
    let mut i: usize = 0;
    while i <= len - 4
        invariant
            4 <= len,
            0 <= i <= len - 3,
            len == buf@.len(),
            forall|j: int|
                0 <= j < i && j + 4 <= buf@.len() ==> !(#[trigger] buf@[j] == 13 && buf@[j + 1]
                    == 10 && buf@[j + 2] == 13 && buf@[j + 3] == 10),
        decreases len - i,
    {
        if buf[i] == 13 && buf[i + 1] == 10 && buf[i + 2] == 13 && buf[i + 3] == 10 {
            proof {
                lemma_find4_at(buf@, i as int);
            }
            return Some(i);
        }
        i = i + 1;
    }
    proof {
        lemma_find4_at(buf@, i as int);
    }
    None
}

fn find2_exec(h: &Vec<u8>) -> (r: Option<usize>)
    ensures
        match r {
            Some(i) => find2(h@) == i && i + 2 <= h@.len(),
            None => find2(h@) == -1,
        },
{
    let len = h.len();
    if len < 2 {
        proof {
            lemma_find2_at(h@, 0);
        }
        return None;
    }
    let mut i: usize = 0;
    while i <= len - 2
        invariant
            2 <= len,
            0 <= i <= len - 1,
            len == h@.len(),
            forall|j: int|
                0 <= j < i ==> !(#[trigger] h@[j] == 13 && j + 1 < h@.len() && h@[j + 1] == 10),
        decreases len - i,
    {
        if h[i] == 13 && h[i + 1] == 10 {
            proof {
                lemma_find2_at(h@, i as int);
            }
            return Some(i);
        }
        i = i + 1;
    }
    proof {
        lemma_find2_at(h@, i as int);
    }
    None
}

fn starts_with_cl_prefix(line: &Vec<u8>) -> (r: bool)
    ensures
        r == (line@.len() >= 16 && line@.subrange(0, 16) == cl_prefix()),
{
    if line.len() < 16 {
        return false;
    }
    let ok = line[0] == 67 && line[1] == 111 && line[2] == 110 && line[3] == 116 && line[4] == 101
        && line[5] == 110 && line[6] == 116 && line[7] == 45 && line[8] == 76 && line[9] == 101
        && line[10] == 110 && line[11] == 103 && line[12] == 116 && line[13] == 104 && line[14]
        == 58 && line[15] == 32;
    proof {
        if ok {
            assert(line@.subrange(0, 16) =~= cl_prefix());
        } else {
            assert(line@.subrange(0, 16) != cl_prefix()) by {
                if line@.subrange(0, 16) == cl_prefix() {
                    assert(forall|k: int|
                        0 <= k < 16 ==> line@[k] == #[trigger] line@.subrange(0, 16)[k]);
                }
            };
        }
    }
    ok
}

fn header_cl(h: &Vec<u8>) -> (r: Result<Vec<u8>, ()>)
    ensures
        match r {
            Ok(d) => spec_header_cl(h@) == Ok::<Seq<u8>, ()>(d@),
            Err(_) => spec_header_cl(h@) is Err,
        },
    decreases h@.len(),
{
    match find2_exec(h) {
        None => Err(()),
        Some(i) => {
            let line = vec_range(h, 0, i);
            if starts_with_cl_prefix(&line) {
                let d = vec_range(&line, 16, line.len());
                Ok(d)
            } else {
                let hl = h.len();
                let rest = vec_range(h, i + 2, hl);
                header_cl(&rest)
            }
        },
    }
}

fn parse_len_bytes(d: &Vec<u8>) -> (r: Option<usize>)
    ensures
        match r {
            Some(v) => all_digit_bytes(d@) && v == dec_value_bytes(d@),
            None => !all_digit_bytes(d@) || dec_value_bytes(d@) > usize::MAX,
        },
{
    let len = d.len();
    if len == 0 {
        return None;
    }
    let mut acc: usize = 0;
    let mut i: usize = 0;
    while i < len
        invariant
            0 < len == d@.len(),
            0 <= i <= len,
            forall|k: int| 0 <= k < i ==> 48 <= #[trigger] d@[k] <= 57,
            acc == dec_value_bytes(d@.subrange(0, i as int)),
        decreases len - i,
    {
        let b = d[i];
        if b < 48 || b > 57 {
            return None;
        }
        let v: usize = (b - 48) as usize;
        if acc > (usize::MAX - v) / 10 {
            proof {
                assert(d@.subrange(0, i + 1).drop_last() =~= d@.subrange(0, i as int));
                assert(dec_value_bytes(d@.subrange(0, i + 1)) > usize::MAX);
                lemma_dec_value_bytes_overflow(d@, i + 1);
            }
            return None;
        }
        acc = acc * 10 + v;
        proof {
            assert(d@.subrange(0, i + 1).drop_last() =~= d@.subrange(0, i as int));
        }
        i = i + 1;
    }
    proof {
        assert(d@.subrange(0, len as int) =~= d@);
    }
    Some(acc)
}

proof fn lemma_dec_value_bytes_overflow(s: Seq<u8>, j: int)
    requires
        0 <= j <= s.len(),
        dec_value_bytes(s.subrange(0, j)) > usize::MAX,
    ensures
        dec_value_bytes(s) > usize::MAX,
    decreases s.len() - j,
{
    if j == s.len() {
        assert(s.subrange(0, j) =~= s);
    } else {
        assert(s.subrange(0, j + 1).drop_last() =~= s.subrange(0, j));
        assert(dec_value_bytes(s.subrange(0, j + 1)) == dec_value_bytes(s.subrange(0, j)) * 10 + (
        s.subrange(0, j + 1)[j] - 48));
        assert(dec_value_bytes(s.subrange(0, j + 1)) > usize::MAX);
        lemma_dec_value_bytes_overflow(s, j + 1);
    }
}

/// Inspect the front of a read buffer: report a complete frame, ask for
/// more bytes, or report a fatal header error.
pub fn decode_frame(buf: &Vec<u8>) -> (r: FrameParse)
    ensures
        r == spec_decode(buf@),
        r matches FrameParse::Frame { header_len, body_len } ==> header_len + body_len
            <= buf@.len(),
{
    match find4_exec(buf) {
        None => FrameParse::NeedMore,
        Some(e) => {
            let _bl = buf.len();
            let h = vec_range(buf, 0, e + 2);
            match header_cl(&h) {
                Err(_) => FrameParse::Bad(FrameError::MissingLength),
                Ok(digits) => match parse_len_bytes(&digits) {
                    None => FrameParse::Bad(FrameError::BadLength),
                    Some(n) => {
                        if buf.len() >= e + 4 && buf.len() - (e + 4) >= n {
                            FrameParse::Frame { header_len: e + 4, body_len: n }
                        } else {
                            FrameParse::NeedMore
                        }
                    },
                },
            }
        },
    }
}

/// The digits of a number are digits, and their value is the number.
pub proof fn lemma_dec_bytes_value(n: nat)
    ensures
        all_digit_bytes(dec_bytes(n)),
        dec_value_bytes(dec_bytes(n)) == n,
        dec_bytes(n).len() >= 1,
    decreases n,
{
    if n < 10 {
        assert(dec_bytes(n).drop_last() =~= Seq::<u8>::empty());
        assert(dec_bytes(n).last() == (48 + n) as u8);
        assert(((48 + n) as u8) as int == 48 + n);
        assert(dec_value_bytes(Seq::<u8>::empty()) == 0);
        assert(dec_value_bytes(dec_bytes(n)) == n);
    } else {
        lemma_dec_bytes_value(n / 10);
        assert(dec_bytes(n).drop_last() =~= dec_bytes(n / 10));
        assert(forall|i: int|
            0 <= i < dec_bytes(n).len() - 1 ==> dec_bytes(n)[i] == #[trigger] dec_bytes(
                n / 10,
            )[i]);
        assert(dec_bytes(n).last() == (48 + n % 10) as u8);
        assert(0 <= n % 10 < 10);
        assert(((48 + n % 10) as u8) as int == 48 + n % 10);
        assert(dec_value_bytes(dec_bytes(n)) == (n / 10) * 10 + n % 10);
        assert(n == (n / 10) * 10 + n % 10) by {
            vstd::arithmetic::div_mod::lemma_fundamental_div_mod(n as int, 10);
        };
    }
}

proof fn lemma_cl_prefix_no_cr()
    ensures
        forall|j: int| 0 <= j < 16 ==> #[trigger] cl_prefix()[j] != 13,
        cl_prefix().len() == 16,
{
    assert forall|j: int| 0 <= j < 16 implies #[trigger] cl_prefix()[j] != 13 by {
        assert(cl_prefix()[0] == 67);
        assert(cl_prefix()[1] == 111);
        assert(cl_prefix()[2] == 110);
        assert(cl_prefix()[3] == 116);
        assert(cl_prefix()[4] == 101);
        assert(cl_prefix()[5] == 110);
        assert(cl_prefix()[6] == 116);
        assert(cl_prefix()[7] == 45);
        assert(cl_prefix()[8] == 76);
        assert(cl_prefix()[9] == 101);
        assert(cl_prefix()[10] == 110);
        assert(cl_prefix()[11] == 103);
        assert(cl_prefix()[12] == 116);
        assert(cl_prefix()[13] == 104);
        assert(cl_prefix()[14] == 58);
        assert(cl_prefix()[15] == 32);
    };
}

/// Round trip of the framing: a buffer that begins with the frame of
/// `body` decodes to exactly that frame, whatever bytes follow it, and the
/// recognized body region is `body` itself.
pub proof fn lemma_frame_round_trip(body: Seq<u8>, rest: Seq<u8>)
    requires
        body.len() <= usize::MAX - 64,
    ensures
        ({
            let buf = spec_frame(body) + rest;
            let k = 16 + dec_bytes(body.len()).len();
            &&& spec_decode(buf) matches FrameParse::Frame { header_len, body_len }
                && header_len == k + 4 && body_len == body.len() && buf.subrange(
                header_len as int,
                header_len + body_len,
            ) == body
        }),
{
    let n = body.len();
    let d = dec_bytes(n);
    let f = spec_frame(body);
    let buf = f + rest;
    let k = 16 + d.len() as int;
    lemma_dec_bytes_value(n);
    lemma_cl_prefix_no_cr();
    assert(d.len() <= n + 1) by {
        lemma_dec_bytes_len(n);
    };
    // Byte layout of the frame.
    assert(forall|j: int| 0 <= j < 16 ==> buf[j] == #[trigger] cl_prefix()[j]);
    assert(forall|j: int| 16 <= j < k ==> buf[j] == #[trigger] d[j - 16]);
    assert(forall|j: int| 0 <= j < k ==> #[trigger] buf[j] != 13);
    assert(buf[k] == 13 && buf[k + 1] == 10 && buf[k + 2] == 13 && buf[k + 3] == 10);
    // The header terminator is first found at k.
    lemma_find4_at(buf, k);
    assert(find4(buf) == k);
    let h = buf.subrange(0, k + 2);
    assert(forall|j: int| 0 <= j < k ==> #[trigger] h[j] != 13);
    assert(h[k] == 13 && h[k + 1] == 10);
    lemma_find2_at(h, k);
    assert(find2(h) == k);
    let line = h.subrange(0, k);
    assert(line.len() >= 16);
    assert(line.subrange(0, 16) =~= cl_prefix());
    assert(line.subrange(16, line.len() as int) =~= d);
    assert(spec_header_cl(h) == Ok::<Seq<u8>, ()>(d));
    assert(buf.len() >= k + 4 + n);
    assert(buf.subrange(k + 4, k + 4 + n) =~= body);
}

/// A coarse bound on the digit count, enough to keep header arithmetic in
/// range.
proof fn lemma_dec_bytes_len(n: nat)
    ensures
        dec_bytes(n).len() <= n + 1,
    decreases n,
{
    if n >= 10 {
        lemma_dec_bytes_len(n / 10);
        let t = n / 10;
        assert(10 * t <= n);
        assert(t >= 1);
        assert(t <= n - 9);
    }
}

/// Copy the body of a recognized frame out of the buffer.
pub fn frame_body(buf: &Vec<u8>, header_len: usize, body_len: usize) -> (r: Vec<u8>)
    requires
        header_len + body_len <= buf@.len(),
    ensures
        r@ == buf@.subrange(header_len as int, header_len + body_len),
{
    let _bl = buf.len();
    vec_range(buf, header_len, header_len + body_len)
}

} // verus!
