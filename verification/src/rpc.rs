//! The editor RPC protocol: request and response frames as four-element
//! arrays in a compact binary encoding, scalar payloads, and the strict
//! decoder for response frames. The socket itself is the caller's concern:
//! this module only turns calls into bytes and bytes back into results.
use vstd::prelude::*;
use vstd::string::*;

verus! {

/// A payload value at the RPC boundary.
pub enum Scalar {
    Nil,
    Int(u64),
    Str(Vec<u8>),
}

/// `256^k`.
pub open spec fn pow256(k: nat) -> nat
    decreases k,
{
    if k == 0 {
        1
    } else {
        256 * pow256((k - 1) as nat)
    }
}

/// A number as `k` big-endian bytes.
pub open spec fn be(n: nat, k: nat) -> Seq<u8>
    decreases k,
{
    if k == 0 {
        Seq::empty()
    } else {
        be(n / 256, (k - 1) as nat) + seq![(n % 256) as u8]
    }
}

pub proof fn lemma_be_len(n: nat, k: nat)
    ensures
        be(n, k).len() == k,
    decreases k,
{
    if k > 0 {
        lemma_be_len(n / 256, (k - 1) as nat);
    }
}

/// The number a big-endian byte run denotes.
pub open spec fn dec_be(s: Seq<u8>) -> nat
    decreases s.len(),
{
    if s.len() == 0 {
        0
    } else {
        (dec_be(s.drop_last()) * 256 + s.last()) as nat
    }
}

/// Reading back the big-endian form restores the number.
pub proof fn lemma_dec_be_of_be(n: nat, k: nat)
    requires
        n < pow256(k),
    ensures
        dec_be(be(n, k)) == n,
    decreases k,
{
    if k == 0 {
    } else {
        lemma_be_len(n / 256, (k - 1) as nat);
        assert(be(n, k).drop_last() =~= be(n / 256, (k - 1) as nat));
        assert(be(n, k).last() == (n % 256) as u8);
        assert(n / 256 < pow256((k - 1) as nat)) by (nonlinear_arith)
            requires
                n < pow256(k),
                pow256(k) == 256 * pow256((k - 1) as nat),
        ;
        lemma_dec_be_of_be(n / 256, (k - 1) as nat);
        assert(n % 256 < 256);
        assert((n / 256) * 256 + n % 256 == n) by (nonlinear_arith)
            requires
                n >= 0,
        ;
    }
}

/// Big-endian bytes are injective at a fixed width.
pub proof fn lemma_be_injective(a: nat, b: nat, k: nat)
    requires
        a < pow256(k),
        b < pow256(k),
        be(a, k) == be(b, k),
    ensures
        a == b,
{
    lemma_dec_be_of_be(a, k);
    lemma_dec_be_of_be(b, k);
}

/// The encoding of one scalar: a tag byte, then a fixed-width integer or a
/// length-prefixed byte run.
pub open spec fn enc_scalar(s: Scalar) -> Seq<u8> {
    match s {
        Scalar::Nil => seq![0xc0u8],
        Scalar::Int(n) => seq![0xcfu8] + be(n as nat, 8),
        Scalar::Str(bs) => seq![0xdbu8] + be(bs@.len() as nat, 4) + bs@,
    }
}

/// The encoding of a run of scalars, in order.
pub open spec fn enc_list(args: Seq<Scalar>) -> Seq<u8>
    decreases args.len(),
{
    if args.len() == 0 {
        Seq::empty()
    } else {
        enc_list(args.drop_last()) + enc_scalar(args.last())
    }
}

/// A request frame: a four-element array of the request kind `0`, the
/// fixed request id, the method name, and the argument array.
pub open spec fn enc_request(id: u64, method: Seq<u8>, args: Seq<Scalar>) -> Seq<u8> {
    seq![0x94u8, 0x00u8] + enc_scalar(Scalar::Int(id)) + enc_scalar_bytes(method) + seq![0xddu8]
        + be(args.len(), 4) + enc_list(args)
}

/// The encoding of a byte run as a string scalar.
pub open spec fn enc_scalar_bytes(bs: Seq<u8>) -> Seq<u8> {
    seq![0xdbu8] + be(bs.len(), 4) + bs
}

/// A response frame: the response kind `1`, an id, the error field, and
/// the result field.
pub open spec fn enc_response(id: u64, err: Scalar, result: Scalar) -> Seq<u8> {
    seq![0x94u8, 0x01u8] + enc_scalar(Scalar::Int(id)) + enc_scalar(err) + enc_scalar(result)
}

/// The mathematical shape of a scalar.
pub enum ScalarV {
    Nil,
    Int(u64),
    Str(Seq<u8>),
}

pub open spec fn scalar_view(s: Scalar) -> ScalarV {
    match s {
        Scalar::Nil => ScalarV::Nil,
        Scalar::Int(n) => ScalarV::Int(n),
        Scalar::Str(bs) => ScalarV::Str(bs@),
    }
}

/// A scalar whose encoding can be written: byte runs carry a four-byte
/// length.
pub open spec fn scalar_fits(s: Scalar) -> bool {
    match s {
        Scalar::Str(bs) => bs@.len() < pow256(4),
        _ => true,
    }
}

fn be_vec(n: u64, k: usize) -> (r: Vec<u8>)
    ensures
        r@ == be(n as nat, k as nat),
    decreases k,
{
    if k == 0 {
        Vec::new()
    } else {
        let mut r = be_vec(n / 256, k - 1);
        r.push((n % 256) as u8);
        proof {
            assert(r@ =~= be(n as nat, k as nat));
        }
        r
    }
}

fn push_all(out: &mut Vec<u8>, src: &Vec<u8>)
    ensures
        final(out)@ == old(out)@ + src@,
{
    let mut i: usize = 0;
    proof {
        assert(old(out)@ + src@.take(0) =~= old(out)@);
    }
    while i < src.len()
        invariant
            i <= src@.len(),
            out@ == old(out)@ + src@.take(i as int),
        decreases src@.len() - i,
    {
        out.push(src[i]);
        proof {
            assert((old(out)@ + src@.take(i as int)).push(src@[i as int]) =~= old(out)@
                + src@.take(i + 1));
        }
        i = i + 1;
    }
    proof {
        assert(src@.take(src@.len() as int) =~= src@);
    }
}

/// Writes one scalar.
fn push_scalar(out: &mut Vec<u8>, s: &Scalar)
    requires
        scalar_fits(*s),
    ensures
        final(out)@ == old(out)@ + enc_scalar(*s),
{
    match s {
        Scalar::Nil => {
            out.push(0xc0);
            proof {
                assert(out@ =~= old(out)@ + enc_scalar(*s));
            }
        },
        Scalar::Int(n) => {
            out.push(0xcf);
            let b = be_vec(*n, 8);
            push_all(out, &b);
            proof {
                assert(out@ =~= old(out)@ + enc_scalar(*s));
            }
        },
        Scalar::Str(bs) => {
            out.push(0xdb);
            proof {
                lemma_pow256_4();
            }
            let b = be_vec(bs.len() as u64, 4);
            push_all(out, &b);
            push_all(out, bs);
            proof {
                assert(out@ =~= old(out)@ + enc_scalar(*s));
            }
        },
    }
}

proof fn lemma_pow256_4()
    ensures
        pow256(4) == 0x1_0000_0000,
        pow256(8) == 0x1_0000_0000_0000_0000,
{
    assert(pow256(0) == 1);
    assert(pow256(1) == 0x100);
    assert(pow256(2) == 0x1_0000);
    assert(pow256(3) == 0x100_0000);
    assert(pow256(4) == 0x1_0000_0000);
    assert(pow256(5) == 0x100_0000_0000);
    assert(pow256(6) == 0x1_0000_0000_0000);
    assert(pow256(7) == 0x100_0000_0000_0000);
    assert(pow256(8) == 0x1_0000_0000_0000_0000);
}

/// Appending one more argument extends the encoded run at its end.
proof fn lemma_enc_list_push(args: Seq<Scalar>, s: Scalar)
    ensures
        enc_list(args.push(s)) == enc_list(args) + enc_scalar(s),
{
    assert(args.push(s).drop_last() =~= args);
    assert(args.push(s).last() == s);
}

/// Builds a request frame for one call.
pub fn encode_request(id: u64, method: &Vec<u8>, args: &Vec<Scalar>) -> (r: Vec<u8>)
    requires
        method@.len() < 0x1_0000_0000,
        args@.len() < 0x1_0000_0000,
        forall|i: int| 0 <= i < args@.len() ==> scalar_fits(#[trigger] args@[i]),
    ensures
        r@ == enc_request(id, method@, args@),
{
    proof {
        lemma_pow256_4();
    }
    let mut out: Vec<u8> = Vec::new();
    out.push(0x94);
    out.push(0x00);
    push_scalar(&mut out, &Scalar::Int(id));
    out.push(0xdb);
    let mb = be_vec(method.len() as u64, 4);
    push_all(&mut out, &mb);
    push_all(&mut out, method);
    out.push(0xdd);
    let ab = be_vec(args.len() as u64, 4);
    push_all(&mut out, &ab);
    let ghost head = out@;
    let mut i: usize = 0;
    proof {
        assert(head + enc_list(args@.take(0)) =~= head);
    }
    while i < args.len()
        invariant
            i <= args@.len(),
            forall|k: int| 0 <= k < args@.len() ==> scalar_fits(#[trigger] args@[k]),
            out@ == head + enc_list(args@.take(i as int)),
        decreases args@.len() - i,
    {
        push_scalar(&mut out, &args[i]);
        proof {
            lemma_enc_list_push(args@.take(i as int), args@[i as int]);
            assert(args@.take(i as int).push(args@[i as int]) =~= args@.take(i + 1));
            assert(head + enc_list(args@.take(i as int)) + enc_scalar(args@[i as int]) =~= head
                + enc_list(args@.take(i + 1)));
        }
        i = i + 1;
    }
    proof {
        assert(args@.take(args@.len() as int) =~= args@);
        assert(out@ =~= enc_request(id, method@, args@));
    }
    out
}

/// Why a call failed.
pub enum RpcError {
    /// The reply was not a well-formed response frame.
    Protocol,
    /// The remote reported an error; the bytes of its message, when it sent
    /// one.
    Remote(Vec<u8>),
}

/// A scalar encoding starts at the position.
pub open spec fn enc_at(bytes: Seq<u8>, pos: int, s: Scalar) -> bool {
    &&& 0 <= pos
    &&& pos + enc_scalar(s).len() <= bytes.len()
    &&& bytes.subrange(pos, pos + enc_scalar(s).len() as int) == enc_scalar(s)
}

/// The length of a scalar encoding, by variant.
proof fn lemma_enc_len(s: Scalar)
    ensures
        enc_scalar(s).len() == match s {
            Scalar::Nil => 1int,
            Scalar::Int(_) => 9int,
            Scalar::Str(bs) => 5 + bs@.len() as int,
        },
        enc_scalar(s).len() >= 1,
{
    match s {
        Scalar::Nil => {},
        Scalar::Int(n) => {
            lemma_be_len(n as nat, 8);
        },
        Scalar::Str(bs) => {
            lemma_be_len(bs@.len(), 4);
        },
    }
}

/// An encoding at a position spells its bytes there, starting with its tag.
proof fn lemma_enc_at_bytes(bytes: Seq<u8>, pos: int, s: Scalar)
    requires
        enc_at(bytes, pos, s),
    ensures
        forall|k: int|
            0 <= k < enc_scalar(s).len() ==> #[trigger] enc_scalar(s)[k] == bytes[pos + k],
        enc_scalar(s)[0] == bytes[pos],
        enc_scalar(s).len() == match s {
            Scalar::Nil => 1int,
            Scalar::Int(_) => 9int,
            Scalar::Str(bs) => 5 + bs@.len() as int,
        },
{
    lemma_enc_len(s);
    let e = enc_scalar(s);
    assert forall|k: int| 0 <= k < e.len() implies #[trigger] e[k] == bytes[pos + k] by {
        assert(bytes.subrange(pos, pos + e.len() as int)[k] == bytes[pos + k]);
    }
}

/// At one position, at most one scalar's encoding can start.
proof fn lemma_enc_unambiguous(bytes: Seq<u8>, pos: int, s1: Scalar, s2: Scalar)
    requires
        enc_at(bytes, pos, s1),
        enc_at(bytes, pos, s2),
        scalar_fits(s1),
        scalar_fits(s2),
    ensures
        scalar_view(s1) == scalar_view(s2),
{
    lemma_pow256_4();
    lemma_enc_at_bytes(bytes, pos, s1);
    lemma_enc_at_bytes(bytes, pos, s2);
    let e1 = enc_scalar(s1);
    let e2 = enc_scalar(s2);
    assert(e1[0] == bytes[pos]);
    assert(e2[0] == bytes[pos]);
    match (s1, s2) {
        (Scalar::Nil, Scalar::Nil) => {},
        (Scalar::Int(a), Scalar::Int(b)) => {
            lemma_be_len(a as nat, 8);
            lemma_be_len(b as nat, 8);
            assert(be(a as nat, 8) =~= be(b as nat, 8)) by {
                assert(forall|k: int|
                    0 <= k < 8 ==> #[trigger] be(a as nat, 8)[k] == e1[k + 1] && be(b as nat, 8)[k]
                        == e2[k + 1]);
            }
            lemma_be_injective(a as nat, b as nat, 8);
        },
        (Scalar::Str(x), Scalar::Str(y)) => {
            lemma_be_len(x@.len(), 4);
            lemma_be_len(y@.len(), 4);
            assert(be(x@.len(), 4) =~= be(y@.len(), 4)) by {
                assert(forall|k: int|
                    0 <= k < 4 ==> #[trigger] be(x@.len(), 4)[k] == e1[k + 1] && be(y@.len(), 4)[k]
                        == e2[k + 1]);
            }
            lemma_be_injective(x@.len(), y@.len(), 4);
            assert(x@ =~= y@) by {
                assert(forall|k: int|
                    0 <= k < x@.len() ==> #[trigger] x@[k] == e1[k + 5] && y@[k] == e2[k + 5]);
            }
        },
        (Scalar::Nil, Scalar::Int(_)) => {},
        (Scalar::Nil, Scalar::Str(_)) => {},
        (Scalar::Int(_), Scalar::Nil) => {},
        (Scalar::Int(_), Scalar::Str(_)) => {},
        (Scalar::Str(_), Scalar::Nil) => {},
        (Scalar::Str(_), Scalar::Int(_)) => {},
    }
}

/// Reads one scalar. Returns the scalar and the position after it; `None`
/// when no scalar encoding starts at the position.
fn read_scalar(bytes: &Vec<u8>, pos: usize) -> (r: Option<(Scalar, usize)>)
    ensures
        match r {
            Some(p) => pos < p.1 <= bytes@.len() && scalar_fits(p.0) && enc_at(
                bytes@,
                pos as int,
                p.0,
            ) && p.1 == pos + enc_scalar(p.0).len(),
            None => forall|s: Scalar|
                scalar_fits(s) ==> !#[trigger] enc_at(bytes@, pos as int, s),
        },
{
    proof {
        lemma_pow256_4();
    }
    if pos >= bytes.len() {
        proof {
            assert forall|s: Scalar| scalar_fits(s) implies !enc_at(
                bytes@,
                pos as int,
                s,
            ) by {
                assert(enc_scalar(s).len() > 0);
            }
        }
        return None;
    }
    let tag = bytes[pos];
    if tag == 0xc0 {
        let s = Scalar::Nil;
        proof {
            assert(bytes@.subrange(pos as int, pos + 1) =~= enc_scalar(s));
        }
        Some((s, pos + 1))
    } else if tag == 0xcf {
        if bytes.len() - pos < 9 {
            proof {
                assert forall|s: Scalar| scalar_fits(s) implies !enc_at(
                    bytes@,
                    pos as int,
                    s,
                ) by {
                    if enc_at(bytes@, pos as int, s) {
                        lemma_enc_at_bytes(bytes@, pos as int, s);
                    }
                }
            }
            return None;
        }
        let mut n: u64 = 0;
        let mut i: usize = 0;
        let ghost target = bytes@.subrange(pos + 1, pos + 9);
        while i < 8
            invariant
                i <= 8,
                pos + 9 <= bytes@.len(),
                bytes@.len() <= usize::MAX,
                target == bytes@.subrange(pos + 1, pos + 9),
                n as nat == dec_be(target.take(i as int)),
                n < pow256(i as nat),
                pow256(8) == 0x1_0000_0000_0000_0000,
            decreases 8 - i,
        {
            proof {
                assert(pow256((i + 1) as nat) == 256 * pow256(i as nat)) by {
                    lemma_pow256_unfold((i + 1) as nat);
                }
                assert(256 * pow256(i as nat) <= pow256(8)) by {
                    lemma_pow256_mono((i + 1) as nat, 8);
                }
            }
            let b = bytes[pos + 1 + i];
            n = n * 256 + (b as u64);
            proof {
                assert(target.take(i + 1).drop_last() =~= target.take(i as int));
                assert(target.take(i + 1).last() == target[i as int]);
                assert(target[i as int] == bytes@[pos + 1 + i]);
            }
            i = i + 1;
        }
        let s = Scalar::Int(n);
        proof {
            assert(target.take(8) =~= target);
            lemma_be_len(n as nat, 8);
            lemma_be_at_dec(target);
            assert(bytes@.subrange(pos as int, pos + 9) =~= enc_scalar(s)) by {
                assert(be(n as nat, 8) =~= target);
                assert(forall|k: int|
                    0 <= k < 9 ==> #[trigger] bytes@.subrange(pos as int, pos + 9)[k] == bytes@[pos
                        + k]);
                assert(forall|k: int| 0 <= k < 8 ==> #[trigger] target[k] == bytes@[pos + 1 + k]);
            }
        }
        Some((s, pos + 9))
    } else if tag == 0xdb {
        if bytes.len() - pos < 5 {
            proof {
                assert forall|s: Scalar| scalar_fits(s) implies !enc_at(
                    bytes@,
                    pos as int,
                    s,
                ) by {
                    if enc_at(bytes@, pos as int, s) {
                        lemma_enc_at_bytes(bytes@, pos as int, s);
                    }
                }
            }
            return None;
        }
        let mut n: u64 = 0;
        let mut i: usize = 0;
        let ghost target = bytes@.subrange(pos + 1, pos + 5);
        while i < 4
            invariant
                i <= 4,
                pos + 5 <= bytes@.len(),
                bytes@.len() <= usize::MAX,
                target == bytes@.subrange(pos + 1, pos + 5),
                n as nat == dec_be(target.take(i as int)),
                n < pow256(i as nat),
                pow256(4) == 0x1_0000_0000,
            decreases 4 - i,
        {
            proof {
                assert(pow256((i + 1) as nat) == 256 * pow256(i as nat)) by {
                    lemma_pow256_unfold((i + 1) as nat);
                }
                assert(256 * pow256(i as nat) <= pow256(4)) by {
                    lemma_pow256_mono((i + 1) as nat, 4);
                }
            }
            let b = bytes[pos + 1 + i];
            n = n * 256 + (b as u64);
            proof {
                assert(target.take(i + 1).drop_last() =~= target.take(i as int));
                assert(target.take(i + 1).last() == target[i as int]);
                assert(target[i as int] == bytes@[pos + 1 + i]);
            }
            i = i + 1;
        }
        proof {
            assert(target.take(4) =~= target);
            lemma_be_at_dec4(target);
        }
        // length read; now the content must fit
        if n > (usize::MAX as u64) || bytes.len() - pos - 5 < (n as usize) {
            proof {
                assert forall|s: Scalar| scalar_fits(s) implies !enc_at(
                    bytes@,
                    pos as int,
                    s,
                ) by {
                    if enc_at(bytes@, pos as int, s) {
                        lemma_enc_at_bytes(bytes@, pos as int, s);
                        match s {
                            Scalar::Nil => {},
                            Scalar::Int(m) => {},
                            Scalar::Str(bs) => {
                                lemma_be_len(bs@.len(), 4);
                                assert(be(bs@.len(), 4) =~= target) by {
                                    assert(forall|k: int|
                                        0 <= k < 4 ==> #[trigger] be(bs@.len(), 4)[k]
                                            == enc_scalar(s)[k + 1]);
                                    assert(forall|k: int|
                                        0 <= k < 4 ==> #[trigger] target[k] == bytes@[pos + 1
                                            + k]);
                                }
                                lemma_dec_be_of_be(bs@.len(), 4);
                                assert(bs@.len() == n as nat);
                            },
                        }
                    }
                }
            }
            return None;
        }
        let len = n as usize;
        let mut content: Vec<u8> = Vec::new();
        let mut j: usize = 0;
        while j < len
            invariant
                j <= len,
                pos + 5 + len <= bytes@.len(),
                bytes@.len() <= usize::MAX,
                content@ == bytes@.subrange(pos + 5, pos + 5 + j),
            decreases len - j,
        {
            content.push(bytes[pos + 5 + j]);
            proof {
                assert(bytes@.subrange(pos + 5, pos + 5 + j).push(bytes@[pos + 5 + j]) =~= bytes@
                    .subrange(pos + 5, pos + 5 + j + 1));
            }
            j = j + 1;
        }
        let ghost s = Scalar::Str(content);
        let end = pos + 5 + len;
        proof {
            lemma_be_len(content@.len(), 4);
            lemma_be_at_dec4(target);
            lemma_dec_be_of_be(content@.len(), 4);
            assert(dec_be(be(content@.len(), 4)) == dec_be(target));
            lemma_be_injective_dec(target, content@.len());
            let e = enc_scalar(s);
            assert(e =~= seq![0xdbu8] + target + content@);
            assert(bytes@.subrange(pos as int, end as int) =~= e) by {
                assert(forall|k: int| 0 <= k < 4 ==> #[trigger] target[k] == bytes@[pos + 1 + k]);
                assert(forall|k: int|
                    0 <= k < len ==> #[trigger] content@[k] == bytes@[pos + 5 + k]);
                assert(forall|k: int|
                    0 <= k < end - pos ==> #[trigger] bytes@.subrange(pos as int, end as int)[k]
                        == bytes@[pos + k]);
            }
        }
        Some((Scalar::Str(content), end))
    } else {
        proof {
            assert forall|s: Scalar| scalar_fits(s) implies !enc_at(bytes@, pos as int, s) by {
                if enc_at(bytes@, pos as int, s) {
                    assert(enc_scalar(s)[0] == bytes@[pos as int]);
                }
            }
        }
        None
    }
}

proof fn lemma_pow256_unfold(k: nat)
    requires
        k > 0,
    ensures
        pow256(k) == 256 * pow256((k - 1) as nat),
{
}

proof fn lemma_pow256_mono(a: nat, b: nat)
    requires
        a <= b,
    ensures
        pow256(a) <= pow256(b),
    decreases b,
{
    if a < b {
        lemma_pow256_mono(a, (b - 1) as nat);
        assert(pow256(b) == 256 * pow256((b - 1) as nat));
        assert(pow256((b - 1) as nat) <= 256 * pow256((b - 1) as nat)) by (nonlinear_arith)
            requires
                pow256((b - 1) as nat) >= 0,
        ;
    }
}

/// A run of 8 bytes is the big-endian form of the number it denotes.
proof fn lemma_be_at_dec(s: Seq<u8>)
    requires
        s.len() == 8,
    ensures
        be(dec_be(s), 8) == s,
{
    lemma_be_of_dec_be(s);
}

/// A run of 4 bytes is the big-endian form of the number it denotes.
proof fn lemma_be_at_dec4(s: Seq<u8>)
    requires
        s.len() == 4,
    ensures
        be(dec_be(s), 4) == s,
        dec_be(s) < pow256(4),
{
    lemma_be_of_dec_be(s);
    lemma_dec_be_bound(s);
}

proof fn lemma_dec_be_bound(s: Seq<u8>)
    ensures
        dec_be(s) < pow256(s.len()),
    decreases s.len(),
{
    if s.len() > 0 {
        lemma_dec_be_bound(s.drop_last());
        assert(dec_be(s.drop_last()) * 256 + s.last() < pow256(s.len())) by (nonlinear_arith)
            requires
                dec_be(s.drop_last()) < pow256((s.len() - 1) as nat),
                s.last() < 256,
                pow256(s.len()) == 256 * pow256((s.len() - 1) as nat),
        ;
    }
}

proof fn lemma_be_of_dec_be(s: Seq<u8>)
    ensures
        be(dec_be(s), s.len()) == s,
    decreases s.len(),
{
    if s.len() > 0 {
        lemma_be_of_dec_be(s.drop_last());
        let n = dec_be(s);
        let m = dec_be(s.drop_last());
        assert(n == m * 256 + s.last());
        assert(n / 256 == m && n % 256 == s.last()) by (nonlinear_arith)
            requires
                n == m * 256 + s.last(),
                0 <= s.last() < 256,
                m >= 0,
        ;
        assert(be(n, s.len()) =~= s);
    }
}

proof fn lemma_be_injective_dec(target: Seq<u8>, n: nat)
    requires
        target.len() == 4,
        dec_be(be(n, 4)) == dec_be(target),
        n < pow256(4),
    ensures
        be(n, 4) == target,
{
    lemma_dec_be_of_be(n, 4);
    lemma_be_of_dec_be(target);
}

/// Decodes a response frame strictly: a four-element array of the response
/// kind `1`, an integer id, the error field and the result field, nothing
/// after it. A non-nil error fails the call with the remote's message;
/// anything else malformed is a protocol-format error. The result comes
/// back exactly when the bytes are a response frame with a nil error, and a
/// remote error exactly when they are one with a non-nil error.
pub fn decode_response(bytes: &Vec<u8>) -> (r: Result<Scalar, RpcError>)
    ensures
        forall|id: u64, err: Scalar, result: Scalar|
            (bytes@ == #[trigger] enc_response(id, err, result) && scalar_fits(err)
                && scalar_fits(result)) ==> (match r {
                Ok(res) => err is Nil && scalar_view(res) == scalar_view(result),
                Err(e) => !(err is Nil) && e is Remote,
            }),
        match r {
            Ok(res) => scalar_fits(res) && exists|id: u64|
                bytes@ == #[trigger] enc_response(id, Scalar::Nil, res),
            Err(RpcError::Remote(m)) => exists|id: u64, err: Scalar, result: Scalar|
                {
                    &&& bytes@ == #[trigger] enc_response(id, err, result)
                    &&& !(err is Nil)
                    &&& scalar_fits(err)
                    &&& scalar_fits(result)
                    &&& match err {
                        Scalar::Str(msg) => m@ == msg@,
                        _ => m@ == Seq::<u8>::empty(),
                    }
                },
            Err(RpcError::Protocol) => true,
        },
{
    if bytes.len() < 2 {
        proof {
            assert forall|id: u64, err: Scalar, result: Scalar|
                bytes@ == #[trigger] enc_response(id, err, result) implies false by {
                lemma_enc_len(Scalar::Int(id));
                lemma_enc_len(err);
                lemma_enc_len(result);
            }
        }
        return Err(RpcError::Protocol);
    }
    let b0 = bytes[0];
    let b1 = bytes[1];
    if b0 != 0x94 || b1 != 0x01 {
        proof {
            assert forall|id: u64, err: Scalar, result: Scalar|
                bytes@ == #[trigger] enc_response(id, err, result) implies false by {
                assert(bytes@[0] == 0x94u8 && bytes@[1] == 0x01u8);
            }
        }
        return Err(RpcError::Protocol);
    }
    let id_r = read_scalar(bytes, 2);
    let (id_s, p1) = match id_r {
        Some(p) => p,
        None => {
            proof {
                lemma_response_shape(bytes@);
            }
            return Err(RpcError::Protocol);
        },
    };
    let err_r = read_scalar(bytes, p1);
    let (err_s, p2) = match err_r {
        Some(p) => p,
        None => {
            proof {
                lemma_response_shape(bytes@);
                assert forall|id: u64, err: Scalar, result: Scalar|
                    (bytes@ == #[trigger] enc_response(id, err, result) && scalar_fits(err)
                        && scalar_fits(result)) implies false by {
                    lemma_enc_unambiguous(bytes@, 2, id_s, Scalar::Int(id));
                    lemma_enc_len(id_s);
                    lemma_enc_len(Scalar::Int(id));
                }
            }
            return Err(RpcError::Protocol);
        },
    };
    let res_r = read_scalar(bytes, p2);
    let (res_s, p3) = match res_r {
        Some(p) => p,
        None => {
            proof {
                lemma_response_shape(bytes@);
                assert forall|id: u64, err: Scalar, result: Scalar|
                    (bytes@ == #[trigger] enc_response(id, err, result) && scalar_fits(err)
                        && scalar_fits(result)) implies false by {
                    lemma_enc_unambiguous(bytes@, 2, id_s, Scalar::Int(id));
                    lemma_enc_len(id_s);
                    lemma_enc_len(Scalar::Int(id));
                    lemma_enc_unambiguous(bytes@, p1 as int, err_s, err);
                    lemma_enc_len(err_s);
                    lemma_enc_len(err);
                }
            }
            return Err(RpcError::Protocol);
        },
    };
    if p3 != bytes.len() {
        proof {
            lemma_response_shape(bytes@);
            assert forall|id: u64, err: Scalar, result: Scalar|
                (bytes@ == #[trigger] enc_response(id, err, result) && scalar_fits(err)
                    && scalar_fits(result)) implies false by {
                lemma_enc_unambiguous(bytes@, 2, id_s, Scalar::Int(id));
                lemma_enc_len(id_s);
                lemma_enc_len(Scalar::Int(id));
                lemma_enc_unambiguous(bytes@, p1 as int, err_s, err);
                lemma_enc_len(err_s);
                lemma_enc_len(err);
                lemma_enc_unambiguous(bytes@, p2 as int, res_s, result);
                lemma_enc_len(res_s);
                lemma_enc_len(result);
            }
        }
        return Err(RpcError::Protocol);
    }
    let idn: u64;
    match &id_s {
        Scalar::Int(n) => {
            idn = *n;
        },
        _ => {
            proof {
                lemma_response_shape(bytes@);
                assert forall|id: u64, err: Scalar, result: Scalar|
                    (bytes@ == #[trigger] enc_response(id, err, result) && scalar_fits(err)
                        && scalar_fits(result)) implies false by {
                    lemma_enc_unambiguous(bytes@, 2, id_s, Scalar::Int(id));
                }
            }
            return Err(RpcError::Protocol);
        },
    }
    proof {
        lemma_response_reads(bytes@, id_s, err_s, res_s, p1 as int, p2 as int, p3 as int);
        assert(id_s == Scalar::Int(idn));
        lemma_enc_at_bytes(bytes@, 2, id_s);
        lemma_enc_at_bytes(bytes@, p1 as int, err_s);
        lemma_enc_at_bytes(bytes@, p2 as int, res_s);
        assert(bytes@ =~= enc_response(idn, err_s, res_s));
    }
    let ghost gerr = err_s;
    let ghost gres = res_s;
    match err_s {
        Scalar::Nil => {
            proof {
                assert(bytes@ == enc_response(idn, Scalar::Nil, gres));
            }
            Ok(res_s)
        },
        Scalar::Int(_) => {
            let m: Vec<u8> = Vec::new();
            proof {
                assert(bytes@ == enc_response(idn, gerr, gres) && !(gerr is Nil) && scalar_fits(
                    gerr,
                ) && scalar_fits(gres));
            }
            Err(RpcError::Remote(m))
        },
        Scalar::Str(m) => {
            proof {
                assert(bytes@ == enc_response(idn, gerr, gres) && !(gerr is Nil) && scalar_fits(
                    gerr,
                ) && scalar_fits(gres));
            }
            Err(RpcError::Remote(m))
        },
    }
}

/// In a response frame, the three fields stand one after the other from
/// position 2 on.
proof fn lemma_response_shape(bytes: Seq<u8>)
    ensures
        forall|id: u64, err: Scalar, result: Scalar|
            (bytes == #[trigger] enc_response(id, err, result) && scalar_fits(err) && scalar_fits(
                result,
            )) ==> {
                let e0 = enc_scalar(Scalar::Int(id));
                let e1 = enc_scalar(err);
                let e2 = enc_scalar(result);
                &&& enc_at(bytes, 2, Scalar::Int(id))
                &&& enc_at(bytes, 2 + e0.len() as int, err)
                &&& enc_at(bytes, 2 + e0.len() as int + e1.len() as int, result)
                &&& bytes.len() == 2 + e0.len() + e1.len() + e2.len()
            },
{
    assert forall|id: u64, err: Scalar, result: Scalar|
        (bytes == #[trigger] enc_response(id, err, result) && scalar_fits(err) && scalar_fits(
            result,
        )) implies {
        let e0 = enc_scalar(Scalar::Int(id));
        let e1 = enc_scalar(err);
        let e2 = enc_scalar(result);
        &&& enc_at(bytes, 2, Scalar::Int(id))
        &&& enc_at(bytes, 2 + e0.len() as int, err)
        &&& enc_at(bytes, 2 + e0.len() as int + e1.len() as int, result)
        &&& bytes.len() == 2 + e0.len() + e1.len() + e2.len()
    } by {
        let e0 = enc_scalar(Scalar::Int(id));
        let e1 = enc_scalar(err);
        let e2 = enc_scalar(result);
        assert(bytes.subrange(2, 2 + e0.len() as int) =~= e0);
        assert(bytes.subrange(2 + e0.len() as int, 2 + e0.len() as int + e1.len() as int) =~= e1);
        assert(bytes.subrange(
            2 + e0.len() as int + e1.len() as int,
            2 + e0.len() as int + e1.len() as int + e2.len() as int,
        ) =~= e2);
    }
}

/// What three successful reads from a response frame must have returned.
proof fn lemma_response_reads(
    bytes: Seq<u8>,
    id_s: Scalar,
    err_s: Scalar,
    res_s: Scalar,
    p1: int,
    p2: int,
    p3: int,
)
    requires
        scalar_fits(id_s),
        scalar_fits(err_s),
        scalar_fits(res_s),
        enc_at(bytes, 2, id_s),
        p1 == 2 + enc_scalar(id_s).len(),
        enc_at(bytes, p1, err_s),
        p2 == p1 + enc_scalar(err_s).len(),
        enc_at(bytes, p2, res_s),
        p3 == p2 + enc_scalar(res_s).len(),
        p3 == bytes.len(),
    ensures
        forall|id: u64, err: Scalar, result: Scalar|
            (bytes == #[trigger] enc_response(id, err, result) && scalar_fits(err) && scalar_fits(
                result,
            )) ==> scalar_view(err) == scalar_view(err_s) && scalar_view(result) == scalar_view(
                res_s,
            ),
{
    lemma_response_shape(bytes);
    assert forall|id: u64, err: Scalar, result: Scalar|
        (bytes == #[trigger] enc_response(id, err, result) && scalar_fits(err) && scalar_fits(
            result,
        )) implies scalar_view(err) == scalar_view(err_s) && scalar_view(result) == scalar_view(
        res_s,
    ) by {
        lemma_enc_unambiguous(bytes, 2, id_s, Scalar::Int(id));
        lemma_enc_len(id_s);
        lemma_enc_len(Scalar::Int(id));
        lemma_enc_unambiguous(bytes, p1, err_s, err);
        lemma_enc_len(err_s);
        lemma_enc_len(err);
        lemma_enc_unambiguous(bytes, p2, res_s, result);
    }
}

/// The editor command that focuses one record's detail file.
pub open spec fn focus_command_text(path: Seq<char>) -> Seq<char> {
    ":e "@ + path + "<CR>"@
}

/// Builds the editor command that opens the given path.
pub fn build_focus_command(path: &str) -> (r: String)
    ensures
        r@ == focus_command_text(path@),
{
    let mut r = String::new();
    r.append(":e ");
    r.append(path);
    r.append("<CR>");
    r
}

} // verus!
