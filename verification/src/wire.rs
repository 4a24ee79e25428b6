//! The building blocks of the binary encodings: unsigned numbers of a fixed
//! width, most significant byte first, and lists of encoded items.
//!
//! A decoder takes bytes and gives the value that stands at their start
//! together with the bytes that follow it, or `None` where no value stands
//! there.

use vstd::prelude::*;

verus! {

/// The lowest `n` bytes of `v`, most significant first.
pub open spec fn be_bytes(v: nat, n: nat) -> Seq<u8>
    decreases n,
{
    if n == 0 {
        Seq::empty()
    } else {
        be_bytes(v / 256, (n - 1) as nat).push((v % 256) as u8)
    }
}

/// The number that bytes stand for, most significant first.
pub open spec fn be_value(b: Seq<u8>) -> nat
    decreases b.len(),
{
    if b.len() == 0 {
        0
    } else {
        be_value(b.drop_last()) * 256 + b.last() as nat
    }
}

/// 256 to the power of `n`.
pub open spec fn pow256(n: nat) -> nat
    decreases n,
{
    if n == 0 {
        1
    } else {
        256 * pow256((n - 1) as nat)
    }
}

/// The powers of 256 that bound the numbers of one, two, four, eight and
/// sixteen bytes.
pub proof fn lemma_pow256_values()
    ensures
        pow256(1) == 0x100,
        pow256(2) == 0x1_0000,
        pow256(4) == 0x1_0000_0000,
        pow256(8) == 0x1_0000_0000_0000_0000,
        pow256(16) == 0x1_0000_0000_0000_0000_0000_0000_0000_0000,
{
    reveal_with_fuel(pow256, 17);
}

/// The powers of 256 are positive and grow with the exponent.
pub proof fn lemma_pow256_grows(a: nat, b: nat)
    requires
        a <= b,
    ensures
        0 < pow256(a) <= pow256(b),
    decreases b,
{
    if b > 0 {
        if a < b {
            lemma_pow256_grows(a, (b - 1) as nat);
        } else {
            lemma_pow256_grows((a - 1) as nat, (b - 1) as nat);
        }
    }
}

/// As many bytes are written as were asked for.
pub proof fn lemma_be_bytes_len(v: nat, n: nat)
    ensures
        be_bytes(v, n).len() == n,
    decreases n,
{
    if n > 0 {
        lemma_be_bytes_len(v / 256, (n - 1) as nat);
    }
}

/// A number that fits into `n` bytes is what its `n` bytes stand for.
pub proof fn lemma_be_round_trip(v: nat, n: nat)
    requires
        v < pow256(n),
    ensures
        be_value(be_bytes(v, n)) == v,
    decreases n,
{
    if n > 0 {
        let b = be_bytes(v, n);
        assert(b.drop_last() =~= be_bytes(v / 256, (n - 1) as nat));
        lemma_be_round_trip(v / 256, (n - 1) as nat);
    }
}

/// What `n` bytes stand for fits into `n` bytes.
pub proof fn lemma_be_value_bound(b: Seq<u8>)
    ensures
        be_value(b) < pow256(b.len()),
    decreases b.len(),
{
    if b.len() > 0 {
        lemma_be_value_bound(b.drop_last());
    }
}

/// Bytes are the bytes of the number that they stand for.
pub proof fn lemma_be_bytes_of_value(b: Seq<u8>)
    ensures
        be_bytes(be_value(b), b.len()) == b,
    decreases b.len(),
{
    if b.len() > 0 {
        lemma_be_bytes_of_value(b.drop_last());
        assert(be_bytes(be_value(b), b.len()) =~= b);
    } else {
        assert(be_bytes(be_value(b), b.len()) =~= b);
    }
}

/// The number that stands in the first `n` bytes of `b`, with the bytes
/// after it.
pub open spec fn dec_int(b: Seq<u8>, n: nat) -> Option<(nat, Seq<u8>)> {
    if b.len() >= n {
        Some((be_value(b.subrange(0, n as int)), b.subrange(n as int, b.len() as int)))
    } else {
        None
    }
}

/// A number that fits into `n` bytes is read back from its `n` bytes,
/// whatever follows.
pub proof fn lemma_dec_int(v: nat, n: nat, rest: Seq<u8>)
    requires
        v < pow256(n),
    ensures
        dec_int(be_bytes(v, n) + rest, n) == Some((v, rest)),
{
    let b = be_bytes(v, n) + rest;
    lemma_be_bytes_len(v, n);
    lemma_be_round_trip(v, n);
    assert(b.subrange(0, n as int) =~= be_bytes(v, n));
    assert(b.subrange(n as int, b.len() as int) =~= rest);
}

/// Bytes from which a number was read start with the bytes of that number.
pub proof fn lemma_enc_int(b: Seq<u8>, n: nat)
    requires
        dec_int(b, n) is Some,
    ensures
        b == be_bytes(dec_int(b, n).unwrap().0, n) + dec_int(b, n).unwrap().1,
        dec_int(b, n).unwrap().0 < pow256(n),
{
    let head = b.subrange(0, n as int);
    lemma_be_bytes_of_value(head);
    lemma_be_value_bound(head);
    assert(b =~= head + b.subrange(n as int, b.len() as int));
}

/// The items of `xs` encoded one after the other.
pub open spec fn enc_list<T>(xs: Seq<T>, enc: spec_fn(T) -> Seq<u8>) -> Seq<u8>
    decreases xs.len(),
{
    if xs.len() == 0 {
        Seq::empty()
    } else {
        enc_list(xs.drop_last(), enc) + enc(xs.last())
    }
}

/// The `n` items that stand at the start of `b`, with the bytes after them.
pub open spec fn dec_list<T>(
    b: Seq<u8>,
    n: nat,
    dec: spec_fn(Seq<u8>) -> Option<(T, Seq<u8>)>,
) -> Option<(Seq<T>, Seq<u8>)>
    decreases n,
{
    if n == 0 {
        Some((Seq::empty(), b))
    } else {
        match dec_list(b, (n - 1) as nat, dec) {
            Some((xs, rest)) => match dec(rest) {
                Some((x, after)) => Some((xs.push(x), after)),
                None => None,
            },
            None => None,
        }
    }
}

/// Where each item is read back from its encoding, so is a list of them.
pub proof fn lemma_dec_list<T>(
    xs: Seq<T>,
    rest: Seq<u8>,
    enc: spec_fn(T) -> Seq<u8>,
    dec: spec_fn(Seq<u8>) -> Option<(T, Seq<u8>)>,
)
    requires
        forall|i: int, r: Seq<u8>|
            0 <= i < xs.len() ==> #[trigger] dec(enc(xs[i]) + r) == Some((xs[i], r)),
    ensures
        dec_list(enc_list(xs, enc) + rest, xs.len(), dec) == Some((xs, rest)),
    decreases xs.len(),
{
    if xs.len() == 0 {
        assert(enc_list(xs, enc) + rest =~= rest);
        assert(xs =~= Seq::<T>::empty());
    } else {
        let front = xs.drop_last();
        let last = xs.last();
        assert forall|i: int, r: Seq<u8>| 0 <= i < front.len() implies #[trigger] dec(
            enc(front[i]) + r,
        ) == Some((front[i], r)) by {
            assert(front[i] == xs[i]);
        }
        lemma_dec_list(front, enc(last) + rest, enc, dec);
        assert(enc_list(xs, enc) + rest =~= enc_list(front, enc) + (enc(last) + rest));
        assert(dec(enc(xs[xs.len() - 1]) + rest) == Some((last, rest)));
        assert(front.push(last) =~= xs);
    }
}

/// Where bytes from which an item was read start with the encoding of that
/// item, bytes from which a list was read start with the encoding of that
/// list.
pub proof fn lemma_enc_list<T>(
    b: Seq<u8>,
    n: nat,
    enc: spec_fn(T) -> Seq<u8>,
    dec: spec_fn(Seq<u8>) -> Option<(T, Seq<u8>)>,
)
    requires
        dec_list(b, n, dec) is Some,
        forall|c: Seq<u8>| #[trigger] dec(c) is Some ==> c == enc(dec(c).unwrap().0) + dec(c).unwrap().1,
    ensures
        b == enc_list(dec_list(b, n, dec).unwrap().0, enc) + dec_list(b, n, dec).unwrap().1,
        dec_list(b, n, dec).unwrap().0.len() == n,
    decreases n,
{
    if n == 0 {
        assert(enc_list(Seq::<T>::empty(), enc) + b =~= b);
    } else {
        let before = dec_list(b, (n - 1) as nat, dec)->0;
        lemma_enc_list(b, (n - 1) as nat, enc, dec);
        let item = dec(before.1)->0;
        let xs = before.0.push(item.0);
        assert(xs.drop_last() =~= before.0);
        assert(before.1 == enc(item.0) + item.1);
        assert(b =~= enc_list(xs, enc) + item.1);
    }
}

/// Appends the lowest `n` bytes of `v` to `out`, most significant first.
pub fn put_int(out: &mut Vec<u8>, v: u128, n: usize)
    ensures
        final(out)@ == old(out)@ + be_bytes(v as nat, n as nat),
    decreases n,
{
    if n > 0 {
        put_int(out, v / 256, n - 1);
        out.push((v % 256) as u8);
        assert(out@ =~= old(out)@ + be_bytes(v as nat, n as nat));
    } else {
        assert(out@ =~= old(out)@ + be_bytes(v as nat, n as nat));
    }
}

/// Reads the number that stands in the `n` bytes of `bytes` from `pos` on.
pub fn get_int(bytes: &[u8], pos: usize, n: usize) -> (r: Option<u128>)
    requires
        pos <= bytes.len(),
        n <= 16,
    ensures
        match r {
            Some(v) => dec_int(bytes@.subrange(pos as int, bytes.len() as int), n as nat) == Some(
                (v as nat, bytes@.subrange(pos + n, bytes.len() as int)),
            ) && v < pow256(n as nat),
            None => dec_int(bytes@.subrange(pos as int, bytes.len() as int), n as nat) is None,
        },
{
    if bytes.len() - pos < n {
        return None;
    }
    let ghost tail = bytes@.subrange(pos as int, bytes.len() as int);
    let ghost field = tail.subrange(0, n as int);
    let mut acc: u128 = 0;
    let mut i: usize = 0;
    while i < n
        invariant
            i <= n <= 16,
            pos + n <= bytes.len(),
            tail == bytes@.subrange(pos as int, bytes.len() as int),
            field == tail.subrange(0, n as int),
            acc == be_value(field.subrange(0, i as int)),
        decreases n - i,
    {
        proof {
            let next = field.subrange(0, i + 1);
            assert(next.drop_last() =~= field.subrange(0, i as int));
            assert(next.last() == bytes[pos + i]);
            lemma_be_value_bound(field.subrange(0, i as int));
            lemma_be_value_bound(next);
            lemma_pow256_grows((i + 1) as nat, 16);
            lemma_pow256_values();
        }
        acc = acc * 256 + bytes[pos + i] as u128;
        i += 1;
    }
    proof {
        assert(field.subrange(0, n as int) =~= field);
        assert(tail.subrange(n as int, tail.len() as int) =~= bytes@.subrange(
            pos + n,
            bytes.len() as int,
        ));
        lemma_be_value_bound(field);
    }
    Some(acc)
}

} // verus!
