use vstd::prelude::*;

use crate::dtype::bytes_eq;
use crate::error::MemError;

verus! {

/// Whitespace as the header tokenizer understands it.
pub open spec fn is_ws(b: u8) -> bool {
    b == 32 || b == 9 || b == 10 || b == 13
}

/// Punctuation stripped from shape tokens: `(`, `)` and `,`.
pub open spec fn is_punct(b: u8) -> bool {
    b == 40 || b == 41 || b == 44
}

/// One step of the whitespace tokenizer: finished tokens so far and the
/// token being collected.
pub open spec fn tok_step(st: (Seq<Seq<u8>>, Seq<u8>), b: u8) -> (Seq<Seq<u8>>, Seq<u8>) {
    if is_ws(b) {
        if st.1.len() > 0 {
            (st.0.push(st.1), Seq::empty())
        } else {
            st
        }
    } else {
        (st.0, st.1.push(b))
    }
}

/// The tokenizer state after the first `k` bytes of `s`, starting from `st`.
pub open spec fn tok_run(st: (Seq<Seq<u8>>, Seq<u8>), s: Seq<u8>, k: int) -> (Seq<Seq<u8>>, Seq<u8>)
    decreases k,
{
    if k <= 0 {
        st
    } else {
        tok_step(tok_run(st, s, k - 1), s[k - 1])
    }
}

/// The tokens of `s`: maximal runs of non-whitespace bytes, in order.
pub open spec fn spec_tokenize(s: Seq<u8>) -> Seq<Seq<u8>> {
    let st = tok_run((Seq::empty(), Seq::empty()), s, s.len() as int);
    if st.1.len() > 0 {
        st.0.push(st.1)
    } else {
        st.0
    }
}

/// Running the tokenizer over a concatenation runs it over each part in
/// turn.
pub proof fn lemma_tok_run_concat(st: (Seq<Seq<u8>>, Seq<u8>), s1: Seq<u8>, s2: Seq<u8>, j: int)
    requires
        0 <= j <= s2.len(),
    ensures
        tok_run(st, s1 + s2, s1.len() + j) == tok_run(tok_run(st, s1, s1.len() as int), s2, j),
    decreases j,
{
    if j == 0 {
        lemma_tok_run_prefix(st, s1, s2, s1.len() as int);
    } else {
        lemma_tok_run_concat(st, s1, s2, j - 1);
        assert((s1 + s2)[s1.len() + j - 1] == s2[j - 1]);
    }
}

/// On the first part of a concatenation the tokenizer ignores the rest.
pub proof fn lemma_tok_run_prefix(st: (Seq<Seq<u8>>, Seq<u8>), s1: Seq<u8>, s2: Seq<u8>, k: int)
    requires
        0 <= k <= s1.len(),
    ensures
        tok_run(st, s1 + s2, k) == tok_run(st, s1, k),
    decreases k,
{
    if k > 0 {
        lemma_tok_run_prefix(st, s1, s2, k - 1);
        assert((s1 + s2)[k - 1] == s1[k - 1]);
    }
}

/// A sequence of tokens, each followed by one space.
pub open spec fn spaced(ts: Seq<Seq<u8>>) -> Seq<u8>
    decreases ts.len(),
{
    if ts.len() == 0 {
        Seq::empty()
    } else {
        ts[0] + seq![32u8] + spaced(ts.drop_first())
    }
}

/// `n` spaces.
pub open spec fn spaces(n: nat) -> Seq<u8> {
    Seq::new(n, |i: int| 32u8)
}

/// A token contains no whitespace.
pub open spec fn token_ok(t: Seq<u8>) -> bool {
    t.len() > 0 && forall|i: int| 0 <= i < t.len() ==> !is_ws(#[trigger] t[i])
}

/// Running the tokenizer from a flushed state over one whitespace-free
/// token collects exactly that token.
pub proof fn lemma_tok_run_token(acc: Seq<Seq<u8>>, t: Seq<u8>, k: int)
    requires
        0 <= k <= t.len(),
        forall|i: int| 0 <= i < t.len() ==> !is_ws(#[trigger] t[i]),
    ensures
        tok_run((acc, Seq::empty()), t, k) == (acc, t.subrange(0, k)),
    decreases k,
{
    if k == 0 {
        assert(t.subrange(0, 0) =~= Seq::<u8>::empty());
    } else {
        lemma_tok_run_token(acc, t, k - 1);
        assert(t.subrange(0, k) =~= t.subrange(0, k - 1).push(t[k - 1]));
    }
}

/// Running the tokenizer from a flushed state over spaces changes nothing.
pub proof fn lemma_tok_run_spaces(acc: Seq<Seq<u8>>, n: nat, k: int)
    requires
        0 <= k <= n,
    ensures
        tok_run((acc, Seq::empty()), spaces(n), k) == (acc, Seq::<u8>::empty()),
    decreases k,
{
    if k > 0 {
        lemma_tok_run_spaces(acc, n, k - 1);
        assert(is_ws(spaces(n)[k - 1]));
    }
}

/// Running the tokenizer from a flushed state over spaced tokens collects
/// exactly those tokens, ending flushed.
pub proof fn lemma_tok_run_spaced(acc: Seq<Seq<u8>>, ts: Seq<Seq<u8>>)
    requires
        forall|i: int| 0 <= i < ts.len() ==> token_ok(#[trigger] ts[i]),
    ensures
        tok_run((acc, Seq::empty()), spaced(ts), spaced(ts).len() as int) == (
            acc + ts,
            Seq::<u8>::empty(),
        ),
    decreases ts.len(),
{
    if ts.len() == 0 {
        assert(acc + ts =~= acc);
    } else {
        let t = ts[0];
        let head = t + seq![32u8];
        let rest = spaced(ts.drop_first());
        assert(spaced(ts) == t + seq![32u8] + rest);
        assert(t + seq![32u8] + rest =~= head + rest);
        lemma_tok_run_concat((acc, Seq::empty()), head, rest, rest.len() as int);
        assert(tok_run((acc, Seq::empty()), head, head.len() as int) == (
            acc.push(t),
            Seq::<u8>::empty(),
        )) by {
            lemma_tok_run_prefix((acc, Seq::empty()), t, seq![32u8], t.len() as int);
            assert(head + Seq::<u8>::empty() =~= head);
            assert(tok_run((acc, Seq::empty()), head, t.len() as int) == tok_run(
                (acc, Seq::empty()),
                t,
                t.len() as int,
            )) by {
                assert(t + seq![32u8] =~= head);
            }
            lemma_tok_run_token(acc, t, t.len() as int);
            assert(t.subrange(0, t.len() as int) =~= t);
            assert(head[head.len() - 1] == 32u8);
            assert(tok_run((acc, Seq::empty()), head, head.len() as int) == tok_step(
                tok_run((acc, Seq::empty()), head, head.len() - 1),
                head[head.len() - 1],
            ));
        }
        assert(forall|i: int|
            0 <= i < ts.drop_first().len() ==> token_ok(#[trigger] ts.drop_first()[i]));
        lemma_tok_run_spaced(acc.push(t), ts.drop_first());
        assert(acc.push(t) + ts.drop_first() =~= acc + ts);
    }
}

/// Tokenizing spaced tokens followed by any padding spaces recovers
/// exactly those tokens.
pub proof fn lemma_tokenize_spaced(ts: Seq<Seq<u8>>, pad: nat)
    requires
        forall|i: int| 0 <= i < ts.len() ==> token_ok(#[trigger] ts[i]),
    ensures
        spec_tokenize(spaced(ts) + spaces(pad)) == ts,
{
    let text = spaced(ts) + spaces(pad);
    lemma_tok_run_concat(
        (Seq::empty(), Seq::empty()),
        spaced(ts),
        spaces(pad),
        pad as int,
    );
    lemma_tok_run_spaced(Seq::empty(), ts);
    lemma_tok_run_spaces(Seq::empty() + ts, pad, pad as int);
    assert(text.len() == spaced(ts).len() + pad);
    assert(Seq::empty() + ts =~= ts);
}

/// Splits a byte string into its whitespace-separated tokens.
pub fn tokenize(s: &[u8]) -> (r: Vec<Vec<u8>>)
    ensures
        r@.map_values(|t: Vec<u8>| t@) == spec_tokenize(s@),
{
    let n = s.len();
    let mut toks: Vec<Vec<u8>> = Vec::new();
    let mut cur: Vec<u8> = Vec::new();
    let mut i: usize = 0;
    while i < n
        invariant
            i <= n,
            n == s@.len(),
            (toks@.map_values(|t: Vec<u8>| t@), cur@) == tok_run(
                (Seq::<Seq<u8>>::empty(), Seq::<u8>::empty()),
                s@,
                i as int,
            ),
        decreases n - i,
    {
        let b = s[i];
        if b == 32 || b == 9 || b == 10 || b == 13 {
            if cur.len() > 0 {
                let done = cur;
                cur = Vec::new();
                toks.push(done);
                proof {
                    assert(toks@.map_values(|t: Vec<u8>| t@) =~= toks@.map_values(
                        |t: Vec<u8>| t@,
                    ));
                }
            }
        } else {
            cur.push(b);
        }
        proof {
            let st = tok_run((Seq::<Seq<u8>>::empty(), Seq::<u8>::empty()), s@, i as int);
            assert(tok_run((Seq::<Seq<u8>>::empty(), Seq::<u8>::empty()), s@, i + 1) == tok_step(
                st,
                s@[i as int],
            ));
            assert((toks@.map_values(|t: Vec<u8>| t@), cur@) =~= tok_step(st, s@[i as int]));
        }
        i = i + 1;
    }
    if cur.len() > 0 {
        toks.push(cur);
        proof {
            assert(toks@.map_values(|t: Vec<u8>| t@) =~= spec_tokenize(s@));
        }
    } else {
        proof {
            assert(toks@.map_values(|t: Vec<u8>| t@) =~= spec_tokenize(s@));
        }
    }
    toks
}

/// A decimal digit.
pub open spec fn is_digit(b: u8) -> bool {
    48 <= b <= 57
}

/// The value of the first `k` bytes of `s` read as a decimal numeral.
pub open spec fn dec_val(s: Seq<u8>, k: int) -> nat
    decreases k,
{
    if k <= 0 {
        0
    } else {
        dec_val(s, k - 1) * 10 + (s[k - 1] - 48) as nat
    }
}

/// The decimal numeral of `n`, most significant digit first.
pub open spec fn dec_digits(n: nat) -> Seq<u8>
    decreases n,
{
    if n < 10 {
        seq![(48 + n) as u8]
    } else {
        dec_digits(n / 10).push((48 + n % 10) as u8)
    }
}

/// Longer prefixes of a numeral never denote smaller values.
pub proof fn lemma_dec_val_mono(s: Seq<u8>, j: int, k: int)
    requires
        0 <= j <= k,
        forall|i: int| 0 <= i < k ==> is_digit(#[trigger] s[i]),
    ensures
        dec_val(s, j) <= dec_val(s, k),
    decreases k - j,
{
    if j < k {
        lemma_dec_val_mono(s, j, k - 1);
        assert(dec_val(s, k - 1) * 10 >= dec_val(s, k - 1)) by (nonlinear_arith);
    }
}

/// Reading back the decimal numeral of `n` yields `n`, and the numeral is
/// made of digits only.
pub proof fn lemma_dec_digits_val(n: nat)
    ensures
        dec_val(dec_digits(n), dec_digits(n).len() as int) == n,
        dec_digits(n).len() >= 1,
        forall|i: int| 0 <= i < dec_digits(n).len() ==> is_digit(#[trigger] dec_digits(n)[i]),
        forall|i: int| 0 <= i < dec_digits(n).len() ==> !is_ws(#[trigger] dec_digits(n)[i]),
        forall|i: int| 0 <= i < dec_digits(n).len() ==> !is_punct(#[trigger] dec_digits(n)[i]),
    decreases n,
{
    if n < 10 {
        let d = dec_digits(n);
        assert(d == seq![(48 + n) as u8]);
        assert(dec_val(d, 0) == 0);
        assert(dec_val(d, 1) == dec_val(d, 0) * 10 + (d[0] - 48) as nat);
    } else {
        lemma_dec_digits_val(n / 10);
        let d = dec_digits(n);
        let p = dec_digits(n / 10);
        assert(d == p.push((48 + n % 10) as u8));
        assert forall|i: int| 0 <= i < d.len() implies is_digit(#[trigger] d[i]) by {
            if i < p.len() {
                assert(d[i] == p[i]);
            }
        }
        assert(dec_val(d, d.len() as int) == dec_val(d, d.len() - 1) * 10 + (d[d.len() - 1] - 48)
            as nat);
        assert(dec_val(d, d.len() - 1) == dec_val(p, p.len() as int)) by {
            lemma_dec_val_prefix_push(p, (48 + n % 10) as u8, p.len() as int);
        }
        assert((n / 10) * 10 + n % 10 == n) by (nonlinear_arith);
        assert forall|i: int| 0 <= i < d.len() implies !is_ws(#[trigger] d[i]) by {
            assert(is_digit(d[i]));
        }
        assert forall|i: int| 0 <= i < d.len() implies !is_punct(#[trigger] d[i]) by {
            assert(is_digit(d[i]));
        }
    }
}

/// Pushing a byte does not change the value of earlier prefixes.
pub proof fn lemma_dec_val_prefix_push(s: Seq<u8>, b: u8, k: int)
    requires
        0 <= k <= s.len(),
    ensures
        dec_val(s.push(b), k) == dec_val(s, k),
    decreases k,
{
    if k > 0 {
        lemma_dec_val_prefix_push(s, b, k - 1);
        assert(s.push(b)[k - 1] == s[k - 1]);
    }
}

/// Parses a decimal numeral; `None` when `s` is empty, holds a non-digit,
/// or denotes a value above the machine word.
pub open spec fn spec_parse_usize(s: Seq<u8>) -> Option<usize> {
    if s.len() == 0 {
        None
    } else if !(forall|i: int| 0 <= i < s.len() ==> is_digit(#[trigger] s[i])) {
        None
    } else if dec_val(s, s.len() as int) > usize::MAX {
        None
    } else {
        Some(dec_val(s, s.len() as int) as usize)
    }
}

/// Parses a decimal numeral from bytes.
pub fn parse_usize(s: &Vec<u8>) -> (r: Option<usize>)
    ensures
        r == spec_parse_usize(s@),
{
    let n = s.len();
    if n == 0 {
        return None;
    }
    let mut acc: usize = 0;
    let mut i: usize = 0;
    while i < n
        invariant
            i <= n,
            n == s@.len(),
            n >= 1,
            forall|k: int| 0 <= k < i ==> is_digit(#[trigger] s@[k]),
            acc == dec_val(s@, i as int),
        decreases n - i,
    {
        let b = s[i];
        if b < 48 || b > 57 {
            return None;
        }
        let acc10 = match acc.checked_mul(10) {
            Some(v) => v,
            None => {
                proof {
                    assert(dec_val(s@, i + 1) == dec_val(s@, i as int) * 10 + (s@[i as int] - 48)
                        as nat);
                    if forall|k: int| 0 <= k < n ==> is_digit(#[trigger] s@[k]) {
                        lemma_dec_val_mono(s@, i + 1, n as int);
                    }
                }
                return None;
            },
        };
        let acc2 = match acc10.checked_add((b - 48) as usize) {
            Some(v) => v,
            None => {
                proof {
                    assert(dec_val(s@, i + 1) == dec_val(s@, i as int) * 10 + (s@[i as int] - 48)
                        as nat);
                    if forall|k: int| 0 <= k < n ==> is_digit(#[trigger] s@[k]) {
                        lemma_dec_val_mono(s@, i + 1, n as int);
                    }
                }
                return None;
            },
        };
        proof {
            assert(dec_val(s@, i + 1) == dec_val(s@, i as int) * 10 + (s@[i as int] - 48) as nat);
        }
        acc = acc2;
        i = i + 1;
    }
    Some(acc)
}

/// The shape token bytes with `(`, `)` and `,` removed, over the first `k`
/// bytes.
pub open spec fn strip_prefix(s: Seq<u8>, k: int) -> Seq<u8>
    decreases k,
{
    if k <= 0 {
        Seq::empty()
    } else {
        let r = strip_prefix(s, k - 1);
        if is_punct(s[k - 1]) {
            r
        } else {
            r.push(s[k - 1])
        }
    }
}

/// The token with tuple punctuation removed.
pub open spec fn spec_strip(s: Seq<u8>) -> Seq<u8> {
    strip_prefix(s, s.len() as int)
}

/// Removes `(`, `)` and `,` from a token.
pub fn strip_punct(s: &Vec<u8>) -> (r: Vec<u8>)
    ensures
        r@ == spec_strip(s@),
{
    let n = s.len();
    let mut out: Vec<u8> = Vec::new();
    let mut i: usize = 0;
    while i < n
        invariant
            i <= n,
            n == s@.len(),
            out@ == strip_prefix(s@, i as int),
        decreases n - i,
    {
        let b = s[i];
        if !(b == 40 || b == 41 || b == 44) {
            out.push(b);
        }
        i = i + 1;
    }
    out
}

/// Writes the decimal numeral of `n`.
pub fn format_usize(n: usize) -> (r: Vec<u8>)
    ensures
        r@ == dec_digits(n as nat),
    decreases n,
{
    if n < 10 {
        let mut v: Vec<u8> = Vec::new();
        v.push(48 + (n as u8));
        proof {
            assert(v@ =~= dec_digits(n as nat));
        }
        v
    } else {
        let mut v = format_usize(n / 10);
        v.push(48 + ((n % 10) as u8));
        v
    }
}

/// Appending punctuation around a numeral strips back to the numeral.
pub proof fn lemma_strip_concat(a: Seq<u8>, b: Seq<u8>, k: int)
    requires
        0 <= k <= b.len(),
    ensures
        strip_prefix(a + b, a.len() + k) == strip_prefix(a, a.len() as int) + strip_prefix(b, k),
    decreases k,
{
    if k == 0 {
        lemma_strip_prefix_front(a, b, a.len() as int);
        assert(strip_prefix(a, a.len() as int) + strip_prefix(b, 0) =~= strip_prefix(
            a,
            a.len() as int,
        ));
    } else {
        lemma_strip_concat(a, b, k - 1);
        assert((a + b)[a.len() + k - 1] == b[k - 1]);
        if !is_punct(b[k - 1]) {
            assert(strip_prefix(a, a.len() as int) + strip_prefix(b, k) =~= (strip_prefix(
                a,
                a.len() as int,
            ) + strip_prefix(b, k - 1)).push(b[k - 1]));
        }
    }
}

/// Stripping a prefix of a concatenation only sees the first part.
pub proof fn lemma_strip_prefix_front(a: Seq<u8>, b: Seq<u8>, k: int)
    requires
        0 <= k <= a.len(),
    ensures
        strip_prefix(a + b, k) == strip_prefix(a, k),
    decreases k,
{
    if k > 0 {
        lemma_strip_prefix_front(a, b, k - 1);
        assert((a + b)[k - 1] == a[k - 1]);
    }
}

/// Stripping a pure numeral changes nothing.
pub proof fn lemma_strip_digits(s: Seq<u8>, k: int)
    requires
        0 <= k <= s.len(),
        forall|i: int| 0 <= i < s.len() ==> !is_punct(#[trigger] s[i]),
    ensures
        strip_prefix(s, k) == s.subrange(0, k),
    decreases k,
{
    if k == 0 {
        assert(s.subrange(0, 0) =~= Seq::<u8>::empty());
    } else {
        lemma_strip_digits(s, k - 1);
        assert(s.subrange(0, k) =~= s.subrange(0, k - 1).push(s[k - 1]));
    }
}


/// The six magic bytes that open a single-array stream.
pub open spec fn magic_seq() -> Seq<u8> {
    seq![147u8, 78u8, 85u8, 77u8, 80u8, 89u8]
}

/// The fixed first header token: `{'descr':`.
pub open spec fn tok_descr() -> Seq<u8> {
    seq![123u8, 39u8, 100u8, 101u8, 115u8, 99u8, 114u8, 39u8, 58u8]
}

/// The fixed layout-order token: `'fortran_order':`.
pub open spec fn tok_order() -> Seq<u8> {
    seq![
        39u8,
        102u8,
        111u8,
        114u8,
        116u8,
        114u8,
        97u8,
        110u8,
        95u8,
        111u8,
        114u8,
        100u8,
        101u8,
        114u8,
        39u8,
        58u8,
    ]
}

/// The fixed shape token: `'shape':`.
pub open spec fn tok_shape() -> Seq<u8> {
    seq![39u8, 115u8, 104u8, 97u8, 112u8, 101u8, 39u8, 58u8]
}

/// The column-major flag token: `True,`.
pub open spec fn tok_true() -> Seq<u8> {
    seq![84u8, 114u8, 117u8, 101u8, 44u8]
}

/// The row-major flag token: `False,`.
pub open spec fn tok_false() -> Seq<u8> {
    seq![70u8, 97u8, 108u8, 115u8, 101u8, 44u8]
}

/// The closing brace token: `}`.
pub open spec fn tok_brace() -> Seq<u8> {
    seq![125u8]
}

/// The empty shape token of a rank-0 array: `()`.
pub open spec fn tok_unit() -> Seq<u8> {
    seq![40u8, 41u8]
}

/// Builds a byte vector equal to a short spec constant.
fn build_bytes(spec_target: Ghost<Seq<u8>>, src: &[u8]) -> (v: Vec<u8>)
    requires
        src@ == spec_target@,
    ensures
        v@ == spec_target@,
{
    let n = src.len();
    let mut v: Vec<u8> = Vec::new();
    let mut i: usize = 0;
    while i < n
        invariant
            i <= n,
            n == src@.len(),
            v@ == src@.subrange(0, i as int),
        decreases n - i,
    {
        v.push(src[i]);
        proof {
            assert(v@ =~= src@.subrange(0, i + 1));
        }
        i = i + 1;
    }
    proof {
        assert(v@ =~= src@);
    }
    v
}

/// The shape token of axis `i` of file-order dimensions `ds`: the numeral
/// with `(` before the first, and `,` after each but the last, which takes
/// `)`.
pub open spec fn shape_token(ds: Seq<usize>, i: int) -> Seq<u8> {
    let pre: Seq<u8> = if i == 0 {
        seq![40u8]
    } else {
        Seq::empty()
    };
    let post: Seq<u8> = if i == ds.len() - 1 {
        seq![41u8]
    } else {
        seq![44u8]
    };
    pre + dec_digits(ds[i] as nat) + post
}

/// The shape tuple's tokens; a rank-0 shape writes the single token `()`.
pub open spec fn shape_tokens(ds: Seq<usize>) -> Seq<Seq<u8>> {
    if ds.len() == 0 {
        seq![tok_unit()]
    } else {
        Seq::new(ds.len(), |i: int| shape_token(ds, i))
    }
}

/// All header tokens in order: descriptor, layout flag, shape, brace.
pub open spec fn header_tokens(desc_tok: Seq<u8>, col_major: bool, file_dims: Seq<usize>) -> Seq<
    Seq<u8>,
> {
    seq![
        tok_descr(),
        desc_tok,
        tok_order(),
        if col_major {
            tok_true()
        } else {
            tok_false()
        },
        tok_shape(),
    ] + shape_tokens(file_dims) + seq![tok_brace()]
}

/// The header text: every token followed by one space, padded with further
/// spaces until the data section starts on a 64-byte boundary.
pub open spec fn spec_header_text(toks: Seq<Seq<u8>>) -> Seq<u8> {
    let body = spaced(toks);
    let pad = ((64 - ((10 + body.len()) % 64)) % 64) as nat;
    body + spaces(pad)
}

/// The full header encoding: magic, version (1, 0), little-endian text
/// length, text.
pub open spec fn spec_encode_header(desc_tok: Seq<u8>, col_major: bool, file_dims: Seq<usize>) -> Seq<
    u8,
> {
    let text = spec_header_text(header_tokens(desc_tok, col_major, file_dims));
    magic_seq() + seq![1u8, 0u8] + vstd::bytes::spec_u16_to_le_bytes(text.len() as u16) + text
}

/// The shape stored in internal column-major order, as the file carries it:
/// unchanged when the file is column-major, reversed when row-major.
pub open spec fn spec_file_dims(col_major: bool, dims: Seq<usize>) -> Seq<usize> {
    if col_major {
        dims
    } else {
        dims.reverse()
    }
}

/// Powers of ten.
pub open spec fn pow10(k: nat) -> nat
    decreases k,
{
    if k == 0 {
        1
    } else {
        10 * pow10((k - 1) as nat)
    }
}

/// A numeral of a value below `10^k` has at most `k` digits.
pub proof fn lemma_dec_digits_len(n: nat, k: nat)
    requires
        n < pow10(k),
        k >= 1,
    ensures
        dec_digits(n).len() <= k,
    decreases n,
{
    if n < 10 {
    } else {
        assert(pow10(0) == 1);
        assert(pow10(1) == 10 * pow10(0));
        if k == 1 {
            assert(false);
        }
        assert(pow10(k) == 10 * pow10((k - 1) as nat));
        assert(n / 10 < pow10((k - 1) as nat)) by (nonlinear_arith)
            requires
                n < 10 * pow10((k - 1) as nat),
        ;
        lemma_dec_digits_len(n / 10, (k - 1) as nat);
    }
}

/// A machine word has at most twenty decimal digits.
pub proof fn lemma_usize_digits(n: usize)
    ensures
        dec_digits(n as nat).len() <= 20,
        dec_digits(n as nat).len() >= 1,
{
    assert(pow10(0) == 1);
    assert(pow10(1) == 10);
    assert(pow10(2) == 100);
    assert(pow10(3) == 1000);
    assert(pow10(4) == 10000);
    assert(pow10(5) == 100000);
    assert(pow10(6) == 1000000);
    assert(pow10(7) == 10000000);
    assert(pow10(8) == 100000000);
    assert(pow10(9) == 1000000000);
    assert(pow10(10) == 10000000000);
    assert(pow10(11) == 100000000000);
    assert(pow10(12) == 1000000000000);
    assert(pow10(13) == 10000000000000);
    assert(pow10(14) == 100000000000000);
    assert(pow10(15) == 1000000000000000);
    assert(pow10(16) == 10000000000000000);
    assert(pow10(17) == 100000000000000000);
    assert(pow10(18) == 1000000000000000000);
    assert(pow10(19) == 10000000000000000000);
    assert(pow10(20) == 100000000000000000000);
    lemma_dec_digits_len(n as nat, 20);
    lemma_dec_digits_val(n as nat);
}

/// Bound on the length of spaced tokens from a bound on each token.
pub proof fn lemma_spaced_len(ts: Seq<Seq<u8>>, b: nat)
    requires
        forall|i: int| 0 <= i < ts.len() ==> #[trigger] ts[i].len() <= b,
    ensures
        spaced(ts).len() <= ts.len() * (b + 1),
    decreases ts.len(),
{
    if ts.len() == 0 {
        assert(spaced(ts).len() == 0);
    } else {
        assert forall|i: int| 0 <= i < ts.drop_first().len() implies #[trigger] ts.drop_first()[i].len()
            <= b by {
            assert(ts.drop_first()[i] == ts[i + 1]);
        }
        lemma_spaced_len(ts.drop_first(), b);
        assert(ts[0].len() <= b);
        assert((ts.len() - 1) * (b + 1) + (b + 1) == ts.len() * (b + 1)) by (nonlinear_arith);
    }
}

/// Appending one token to spaced tokens appends the token and one space.
pub proof fn lemma_spaced_push(ts: Seq<Seq<u8>>, t: Seq<u8>)
    ensures
        spaced(ts.push(t)) == spaced(ts) + t + seq![32u8],
    decreases ts.len(),
{
    if ts.len() == 0 {
        assert(ts.push(t)[0] == t);
        assert(ts.push(t).drop_first() =~= Seq::<Seq<u8>>::empty());
        assert(spaced(ts.push(t)) == t + seq![32u8] + spaced(Seq::<Seq<u8>>::empty()));
        assert(spaced(ts.push(t)) =~= spaced(ts) + t + seq![32u8]);
    } else {
        assert(ts.push(t)[0] == ts[0]);
        assert(ts.push(t).drop_first() =~= ts.drop_first().push(t));
        lemma_spaced_push(ts.drop_first(), t);
        assert(spaced(ts.push(t)) == ts[0] + seq![32u8] + spaced(ts.drop_first().push(t)));
        assert(spaced(ts.push(t)) =~= spaced(ts) + t + seq![32u8]);
    }
}

/// An ephemeral descriptor of a single-array stream header: the element
/// descriptor, the file's layout order, the shape in internal column-major
/// order, and the byte offset at which the data section starts.
pub struct NpyHeader {
    pub dtype_desc: crate::dtype::NpyDtypeDesc,
    pub col_major: bool,
    pub nd_size: Vec<usize>,
    pub data_offset: usize,
}

/// Parses the shape tuple from the header tokens, starting at token `j`:
/// numerals stripped of tuple punctuation up to the closing brace.
pub open spec fn spec_parse_shape(toks: Seq<Seq<u8>>, j: int) -> Result<Seq<usize>, MemError>
    decreases toks.len() - j,
{
    if j < 0 || j >= toks.len() {
        Err(MemError::BadHeader)
    } else if toks[j] == tok_brace() {
        Ok(Seq::empty())
    } else {
        let st = spec_strip(toks[j]);
        if st.len() == 0 {
            spec_parse_shape(toks, j + 1)
        } else {
            match spec_parse_usize(st) {
                None => Err(MemError::BadHeader),
                Some(d) => match spec_parse_shape(toks, j + 1) {
                    Err(e) => Err(e),
                    Ok(rest) => Ok(seq![d] + rest),
                },
            }
        }
    }
}

/// The deterministic reading of a single-array header from the front of a
/// byte stream: the descriptor, the file's layout order, the shape in
/// internal column-major order, and the data offset — or the failure, with
/// magic, version, alignment, token and dtype checks in that order.
pub open spec fn spec_read_npy_header(b: Seq<u8>) -> Result<
    (crate::dtype::NpyDtypeDesc, bool, Seq<usize>, nat),
    MemError,
> {
    if b.len() < 6 {
        Err(MemError::Truncated)
    } else if b.subrange(0, 6) != magic_seq() {
        Err(MemError::BadMagic)
    } else if b.len() < 8 {
        Err(MemError::Truncated)
    } else if !(b[6] == 1 && b[7] == 0) {
        Err(MemError::BadVersion)
    } else if b.len() < 10 {
        Err(MemError::Truncated)
    } else {
        let h = vstd::bytes::spec_u16_from_le_bytes(b.subrange(8, 10)) as nat;
        let doff = 10 + h;
        if doff % 64 != 0 {
            Err(MemError::BadAlignment)
        } else if b.len() < doff {
            Err(MemError::Truncated)
        } else {
            let toks = spec_tokenize(b.subrange(10, doff as int));
            if toks.len() < 6 {
                Err(MemError::BadHeader)
            } else if !(toks[0] == tok_descr() && toks[2] == tok_order() && toks[4]
                == tok_shape()) {
                Err(MemError::BadHeader)
            } else {
                match crate::dtype::spec_parse_desc(toks[1]) {
                    None => Err(MemError::BadDtype),
                    Some(desc) => {
                        if !(toks[3] == tok_true() || toks[3] == tok_false()) {
                            Err(MemError::BadHeader)
                        } else {
                            let col = toks[3] == tok_true();
                            match spec_parse_shape(toks, 5) {
                                Err(e) => Err(e),
                                Ok(fds) => {
                                    if fds.len() > crate::idx::MAX_RANK {
                                        Err(MemError::RankMismatch)
                                    } else {
                                        Ok(
                                            (
                                                desc,
                                                col,
                                                if col {
                                                    fds
                                                } else {
                                                    fds.reverse()
                                                },
                                                doff,
                                            ),
                                        )
                                    }
                                },
                            }
                        }
                    },
                }
            }
        }
    }
}


/// The magic bytes as a vector.
pub fn magic_bytes() -> (v: Vec<u8>)
    ensures
        v@ == magic_seq(),
{
    let mut v: Vec<u8> = Vec::new();
    v.push(147);
    v.push(78);
    v.push(85);
    v.push(77);
    v.push(80);
    v.push(89);
    proof {
        assert(v@ =~= magic_seq());
    }
    v
}

/// The `{'descr':` token as a vector.
pub fn tok_descr_bytes() -> (v: Vec<u8>)
    ensures
        v@ == tok_descr(),
{
    let mut v: Vec<u8> = Vec::new();
    v.push(123);
    v.push(39);
    v.push(100);
    v.push(101);
    v.push(115);
    v.push(99);
    v.push(114);
    v.push(39);
    v.push(58);
    proof {
        assert(v@ =~= tok_descr());
    }
    v
}

/// The `'fortran_order':` token as a vector.
pub fn tok_order_bytes() -> (v: Vec<u8>)
    ensures
        v@ == tok_order(),
{
    let mut v: Vec<u8> = Vec::new();
    v.push(39);
    v.push(102);
    v.push(111);
    v.push(114);
    v.push(116);
    v.push(114);
    v.push(97);
    v.push(110);
    v.push(95);
    v.push(111);
    v.push(114);
    v.push(100);
    v.push(101);
    v.push(114);
    v.push(39);
    v.push(58);
    proof {
        assert(v@ =~= tok_order());
    }
    v
}

/// The `'shape':` token as a vector.
pub fn tok_shape_bytes() -> (v: Vec<u8>)
    ensures
        v@ == tok_shape(),
{
    let mut v: Vec<u8> = Vec::new();
    v.push(39);
    v.push(115);
    v.push(104);
    v.push(97);
    v.push(112);
    v.push(101);
    v.push(39);
    v.push(58);
    proof {
        assert(v@ =~= tok_shape());
    }
    v
}

/// The `True,` token as a vector.
pub fn tok_true_bytes() -> (v: Vec<u8>)
    ensures
        v@ == tok_true(),
{
    let mut v: Vec<u8> = Vec::new();
    v.push(84);
    v.push(114);
    v.push(117);
    v.push(101);
    v.push(44);
    proof {
        assert(v@ =~= tok_true());
    }
    v
}

/// The `False,` token as a vector.
pub fn tok_false_bytes() -> (v: Vec<u8>)
    ensures
        v@ == tok_false(),
{
    let mut v: Vec<u8> = Vec::new();
    v.push(70);
    v.push(97);
    v.push(108);
    v.push(115);
    v.push(101);
    v.push(44);
    proof {
        assert(v@ =~= tok_false());
    }
    v
}

/// The `}` token as a vector.
pub fn tok_brace_bytes() -> (v: Vec<u8>)
    ensures
        v@ == tok_brace(),
{
    let mut v: Vec<u8> = Vec::new();
    v.push(125);
    proof {
        assert(v@ =~= tok_brace());
    }
    v
}

/// The `()` token as a vector.
pub fn tok_unit_bytes() -> (v: Vec<u8>)
    ensures
        v@ == tok_unit(),
{
    let mut v: Vec<u8> = Vec::new();
    v.push(40);
    v.push(41);
    proof {
        assert(v@ =~= tok_unit());
    }
    v
}

/// Copies a dimension vector.
pub fn copy_vec_usize(v: &Vec<usize>) -> (r: Vec<usize>)
    ensures
        r@ == v@,
{
    let n = v.len();
    let mut r: Vec<usize> = Vec::new();
    let mut i: usize = 0;
    while i < n
        invariant
            i <= n,
            n == v@.len(),
            r@ == v@.subrange(0, i as int),
        decreases n - i,
    {
        r.push(v[i]);
        proof {
            assert(r@ =~= v@.subrange(0, i + 1));
        }
        i = i + 1;
    }
    proof {
        assert(r@ =~= v@);
    }
    r
}

/// Reverses a dimension vector.
pub fn rev_vec_usize(v: &Vec<usize>) -> (r: Vec<usize>)
    ensures
        r@ == v@.reverse(),
{
    let n = v.len();
    let mut r: Vec<usize> = Vec::new();
    let mut i: usize = 0;
    while i < n
        invariant
            i <= n,
            n == v@.len(),
            r@.len() == i,
            forall|k: int| 0 <= k < i ==> #[trigger] r@[k] == v@[n - 1 - k],
        decreases n - i,
    {
        r.push(v[n - 1 - i]);
        i = i + 1;
    }
    proof {
        assert(r@ =~= v@.reverse());
    }
    r
}

/// Writes a single-array stream header: magic, version (1, 0),
/// little-endian text length, then the dictionary-style text padded so the
/// data section starts on a 64-byte boundary. The shape tuple is written in
/// the file's layout order.
pub fn write_npy_header(header: &NpyHeader) -> (r: Result<Vec<u8>, MemError>)
    ensures
        match r {
            Ok(v) => {
                &&& crate::dtype::spec_desc_token(header.dtype_desc) is Some
                &&& header.nd_size@.len() <= crate::idx::MAX_RANK
                &&& v@ == spec_encode_header(
                    crate::dtype::spec_desc_token(header.dtype_desc).unwrap(),
                    header.col_major,
                    spec_file_dims(header.col_major, header.nd_size@),
                )
            },
            Err(e) => {
                ||| (e == MemError::BadDtype && crate::dtype::spec_desc_token(header.dtype_desc)
                    is None)
                ||| (e == MemError::RankMismatch && crate::dtype::spec_desc_token(
                    header.dtype_desc,
                ) is Some && header.nd_size@.len() > crate::idx::MAX_RANK)
            },
        },
{
    let desc_tok = match header.dtype_desc.token() {
        Ok(t) => t,
        Err(e) => {
            return Err(e);
        },
    };
    if header.nd_size.len() > crate::idx::MAX_RANK {
        return Err(MemError::RankMismatch);
    }
    let file_dims = if header.col_major {
        copy_vec_usize(&header.nd_size)
    } else {
        rev_vec_usize(&header.nd_size)
    };
    let ghost fdims = spec_file_dims(header.col_major, header.nd_size@);
    proof {
        assert(file_dims@ == fdims);
        assert(fdims.len() <= crate::idx::MAX_RANK);
    }
    let ghost all_toks = header_tokens(desc_tok@, header.col_major, fdims);

    let mut toks: Vec<Vec<u8>> = Vec::new();
    toks.push(tok_descr_bytes());
    toks.push(desc_tok);
    toks.push(tok_order_bytes());
    if header.col_major {
        toks.push(tok_true_bytes());
    } else {
        toks.push(tok_false_bytes());
    }
    toks.push(tok_shape_bytes());
    let m = file_dims.len();
    if m == 0 {
        toks.push(tok_unit_bytes());
    } else {
        let mut i: usize = 0;
        while i < m
            invariant
                i <= m,
                m == fdims.len(),
                file_dims@ == fdims,
                toks@.len() == 5 + i,
                forall|k: int| 0 <= k < 5 ==> #[trigger] toks@[k]@ == all_toks[k],
                forall|k: int|
                    0 <= k < i ==> #[trigger] toks@[5 + k]@ == shape_token(fdims, k),
            decreases m - i,
        {
            let mut t: Vec<u8> = Vec::new();
            if i == 0 {
                t.push(40);
            }
            let mut dg = format_usize(file_dims[i]);
            t.append(&mut dg);
            if i == m - 1 {
                t.push(41);
            } else {
                t.push(44);
            }
            proof {
                assert(t@ =~= shape_token(fdims, i as int));
            }
            toks.push(t);
            i = i + 1;
        }
    }
    toks.push(tok_brace_bytes());
    proof {
        let mv = toks@.map_values(|t: Vec<u8>| t@);
        assert(mv.len() == all_toks.len());
        assert forall|k: int| 0 <= k < all_toks.len() implies mv[k] == all_toks[k] by {
            assert(mv[k] == toks@[k]@);
            if k < 5 {
            } else if k < all_toks.len() - 1 {
                assert(all_toks[k] == shape_tokens(fdims)[k - 5]);
                if fdims.len() > 0 {
                    let k2 = k - 5;
                    assert(toks@[5 + k2]@ == shape_token(fdims, k2));
                    assert(shape_tokens(fdims)[k - 5] == shape_token(fdims, k - 5));
                } else {
                    assert(shape_tokens(fdims) == seq![tok_unit()]);
                    assert(shape_tokens(fdims)[0] == tok_unit());
                }
            } else {
                assert(all_toks[k] == tok_brace());
            }
        }
        assert(mv =~= all_toks);
    }

    let n = toks.len();
    let mut text: Vec<u8> = Vec::new();
    let mut i: usize = 0;
    while i < n
        invariant
            i <= n,
            n == toks@.len(),
            toks@.map_values(|t: Vec<u8>| t@) == all_toks,
            text@ == spaced(all_toks.subrange(0, i as int)),
        decreases n - i,
    {
        let ghost pref = all_toks.subrange(0, i as int);
        let tl = toks[i].len();
        let mut j: usize = 0;
        while j < tl
            invariant
                j <= tl,
                i < n,
                n == toks@.len(),
                toks@.map_values(|t: Vec<u8>| t@) == all_toks,
                tl == toks@[i as int]@.len(),
                text@ == spaced(all_toks.subrange(0, i as int)) + toks@[i as int]@.subrange(
                    0,
                    j as int,
                ),
            decreases tl - j,
        {
            text.push(toks[i][j]);
            proof {
                assert(text@ =~= spaced(all_toks.subrange(0, i as int)) + toks@[i as int]@.subrange(
                    0,
                    j + 1,
                ));
            }
            j = j + 1;
        }
        text.push(32);
        proof {
            lemma_spaced_push(pref, all_toks[i as int]);
            assert(toks@[i as int]@.subrange(0, tl as int) =~= all_toks[i as int]);
            assert(pref.push(all_toks[i as int]) =~= all_toks.subrange(0, i + 1));
            assert(text@ =~= spaced(pref) + all_toks[i as int] + seq![32u8]);
        }
        i = i + 1;
    }
    proof {
        assert(all_toks.subrange(0, n as int) =~= all_toks);
        assert forall|k: int| 0 <= k < all_toks.len() implies #[trigger] all_toks[k].len()
            <= 22 by {
            if 5 <= k < all_toks.len() - 1 && fdims.len() > 0 {
                assert(all_toks[k] == shape_token(fdims, k - 5));
                lemma_usize_digits(fdims[k - 5]);
            }
        }
        lemma_spaced_len(all_toks, 22);
        assert(all_toks.len() <= 11);
        assert(all_toks.len() * 23 <= 11 * 23) by (nonlinear_arith)
            requires
                all_toks.len() <= 11,
        ;
        assert(text@.len() <= 253);
    }
    let tl0 = text.len();
    let m0 = (10 + tl0) % 64;
    let pad = (64 - m0) % 64;
    let ghost body = spaced(all_toks);
    let mut k: usize = 0;
    while k < pad
        invariant
            k <= pad,
            pad < 64,
            text@ == body + spaces(k as nat),
            body.len() == tl0,
            tl0 <= 11 * 23,
        decreases pad - k,
    {
        text.push(32);
        proof {
            assert(text@ =~= body + spaces((k + 1) as nat));
        }
        k = k + 1;
    }
    proof {
        assert(text@ =~= spec_header_text(all_toks));
    }
    let hl = text.len();
    let mut out = magic_bytes();
    out.push(1);
    out.push(0);
    let mut lb = vstd::bytes::u16_to_le_bytes(hl as u16);
    out.append(&mut lb);
    let mut tx = text;
    out.append(&mut tx);
    proof {
        assert(out@ =~= spec_encode_header(desc_tok@, header.col_major, fdims));
    }
    Ok(out)
}

/// Parses the shape tuple from the header tokens, starting after the fixed
/// tokens.
fn parse_shape_tokens(toks: &Vec<Vec<u8>>) -> (r: Result<Vec<usize>, MemError>)
    requires
        toks@.len() >= 5,
    ensures
        match r {
            Ok(ds) => spec_parse_shape(toks@.map_values(|t: Vec<u8>| t@), 5) == Ok::<
                Seq<usize>,
                MemError,
            >(ds@),
            Err(e) => spec_parse_shape(toks@.map_values(|t: Vec<u8>| t@), 5) == Err::<
                Seq<usize>,
                MemError,
            >(e),
        },
{
    let ghost tseq = toks@.map_values(|t: Vec<u8>| t@);
    let brace = tok_brace_bytes();
    let n = toks.len();
    let mut ds: Vec<usize> = Vec::new();
    let mut j: usize = 5;
    while j < n
        invariant
            5 <= j <= n,
            n == tseq.len(),
            tseq == toks@.map_values(|t: Vec<u8>| t@),
            brace@ == tok_brace(),
            forall|rest: Seq<usize>|
                spec_parse_shape(tseq, j as int) == Ok::<Seq<usize>, MemError>(rest)
                    ==> spec_parse_shape(tseq, 5) == Ok::<Seq<usize>, MemError>(ds@ + rest),
            forall|e: MemError|
                spec_parse_shape(tseq, j as int) == Err::<Seq<usize>, MemError>(e)
                    ==> spec_parse_shape(tseq, 5) == Err::<Seq<usize>, MemError>(e),
        decreases n - j,
    {
        proof {
            assert(tseq[j as int] == toks@[j as int]@);
        }
        if bytes_eq(toks[j].as_slice(), brace.as_slice()) {
            proof {
                assert(spec_parse_shape(tseq, j as int) == Ok::<Seq<usize>, MemError>(
                    Seq::empty(),
                ));
                assert(ds@ + Seq::<usize>::empty() =~= ds@);
            }
            return Ok(ds);
        }
        let st = strip_punct(&toks[j]);
        if st.len() == 0 {
            proof {
                assert(spec_parse_shape(tseq, j as int) == spec_parse_shape(tseq, j + 1));
            }
            j = j + 1;
            continue ;
        }
        match parse_usize(&st) {
            None => {
                proof {
                    assert(spec_parse_shape(tseq, j as int) == Err::<Seq<usize>, MemError>(
                        MemError::BadHeader,
                    ));
                }
                return Err(MemError::BadHeader);
            },
            Some(d) => {
                let ghost old_ds = ds@;
                ds.push(d);
                proof {
                    assert forall|rest: Seq<usize>|
                        spec_parse_shape(tseq, j + 1) == Ok::<Seq<usize>, MemError>(
                            rest,
                        ) implies spec_parse_shape(tseq, 5) == Ok::<Seq<usize>, MemError>(
                        ds@ + rest,
                    ) by {
                        assert(spec_parse_shape(tseq, j as int) == Ok::<Seq<usize>, MemError>(
                            seq![d] + rest,
                        ));
                        assert(old_ds + (seq![d] + rest) =~= ds@ + rest);
                    }
                }
                j = j + 1;
            },
        }
    }
    proof {
        assert(spec_parse_shape(tseq, j as int) == Err::<Seq<usize>, MemError>(
            MemError::BadHeader,
        ));
    }
    Err(MemError::BadHeader)
}

/// Reads and validates a single-array stream header from the front of a
/// byte string; see [`spec_read_npy_header`] for the exact acceptance.
pub fn read_npy_header(b: &[u8]) -> (r: Result<NpyHeader, MemError>)
    ensures
        match r {
            Ok(h) => spec_read_npy_header(b@) == Ok::<
                (crate::dtype::NpyDtypeDesc, bool, Seq<usize>, nat),
                MemError,
            >((h.dtype_desc, h.col_major, h.nd_size@, h.data_offset as nat)),
            Err(e) => spec_read_npy_header(b@) == Err::<
                (crate::dtype::NpyDtypeDesc, bool, Seq<usize>, nat),
                MemError,
            >(e),
        },
{
    let n = b.len();
    if n < 6 {
        return Err(MemError::Truncated);
    }
    let magic = magic_bytes();
    if !bytes_eq(crate::array::slice_range(b, 0, 6), magic.as_slice()) {
        return Err(MemError::BadMagic);
    }
    if n < 8 {
        return Err(MemError::Truncated);
    }
    if !(b[6] == 1 && b[7] == 0) {
        return Err(MemError::BadVersion);
    }
    if n < 10 {
        return Err(MemError::Truncated);
    }
    let h = vstd::bytes::u16_from_le_bytes(crate::array::slice_range(b, 8, 10)) as usize;
    let doff = 10 + h;
    if doff % 64 != 0 {
        return Err(MemError::BadAlignment);
    }
    if n < doff {
        return Err(MemError::Truncated);
    }
    let text = crate::array::slice_range(b, 10, doff);
    let toks = tokenize(text);
    let ghost tseq = spec_tokenize(b@.subrange(10, doff as int));
    proof {
        assert(toks@.map_values(|t: Vec<u8>| t@) == tseq);
    }
    if toks.len() < 6 {
        return Err(MemError::BadHeader);
    }
    proof {
        assert(tseq[0] == toks@[0]@);
        assert(tseq[2] == toks@[2]@);
        assert(tseq[3] == toks@[3]@);
        assert(tseq[4] == toks@[4]@);
        assert(tseq[1] == toks@[1]@);
    }
    let t0ok = bytes_eq(toks[0].as_slice(), tok_descr_bytes().as_slice());
    let t2ok = bytes_eq(toks[2].as_slice(), tok_order_bytes().as_slice());
    let t4ok = bytes_eq(toks[4].as_slice(), tok_shape_bytes().as_slice());
    if !(t0ok && t2ok && t4ok) {
        return Err(MemError::BadHeader);
    }
    let desc = match crate::dtype::NpyDtypeDesc::parse(&toks[1]) {
        Ok(d) => d,
        Err(e) => {
            return Err(e);
        },
    };
    let is_true = bytes_eq(toks[3].as_slice(), tok_true_bytes().as_slice());
    let is_false = bytes_eq(toks[3].as_slice(), tok_false_bytes().as_slice());
    if !(is_true || is_false) {
        return Err(MemError::BadHeader);
    }
    let col = is_true;
    let fds = match parse_shape_tokens(&toks) {
        Ok(ds) => ds,
        Err(e) => {
            return Err(e);
        },
    };
    if fds.len() > crate::idx::MAX_RANK {
        return Err(MemError::RankMismatch);
    }
    let nd_size = if col {
        fds
    } else {
        rev_vec_usize(&fds)
    };
    Ok(NpyHeader { dtype_desc: desc, col_major: col, nd_size, data_offset: doff })
}


/// Copies `n` bytes of a slice starting at `a`.
pub fn slice_to_vec(s: &[u8], a: usize, n: usize) -> (r: Vec<u8>)
    requires
        a + n <= s@.len(),
    ensures
        r@ == s@.subrange(a as int, a as int + n as int),
{
    let limit = s.len();
    let mut v: Vec<u8> = Vec::new();
    let mut i: usize = 0;
    while i < n
        invariant
            i <= n,
            a + n <= limit,
            limit == s@.len(),
            v@ == s@.subrange(a as int, a as int + i as int),
        decreases n - i,
    {
        v.push(s[a + i]);
        proof {
            assert(v@ =~= s@.subrange(a as int, a as int + i + 1));
        }
        i = i + 1;
    }
    v
}

/// The serialized single-array stream of an array: its header (written
/// row-major, so the shape appears reversed from the internal column-major
/// order) followed by the packed element bytes.
pub open spec fn spec_serialize(dtype: crate::dtype::NpyDtype, dims: Seq<usize>, data: Seq<u8>) -> Seq<
    u8,
> {
    spec_encode_header(
        crate::dtype::spec_desc_token(crate::dtype::spec_native_desc(dtype)).unwrap(),
        false,
        dims.reverse(),
    ) + data
}

/// The deterministic reading of a whole single-array stream for an
/// expected element kind: the internal shape and the element bytes, or the
/// failure.
pub open spec fn spec_deserialize(b: Seq<u8>, dtype: crate::dtype::NpyDtype) -> Result<
    (Seq<usize>, Seq<u8>),
    MemError,
> {
    match spec_read_npy_header(b) {
        Err(e) => Err(e),
        Ok(hdr) => {
            let desc = hdr.0;
            let dims = hdr.2;
            let doff = hdr.3;
            if desc != crate::dtype::spec_native_desc(dtype) {
                Err(MemError::DtypeMismatch)
            } else {
                let flat = crate::idx::prod_prefix(dims, dims.len() as int);
                let esz = crate::dtype::spec_dtype_size(dtype);
                if !(crate::array::fits_seq(dims) && crate::idx::dot_prefix(
                    dims,
                    crate::idx::packed_seq(dims),
                    dims.len() as int,
                ) <= usize::MAX) {
                    Err(MemError::Overflow)
                } else if flat * esz > usize::MAX {
                    Err(MemError::Overflow)
                } else if b.len() < doff + flat * esz {
                    Err(MemError::Truncated)
                } else {
                    Ok((dims, b.subrange(doff as int, doff as int + (flat * esz) as int)))
                }
            }
        },
    }
}


impl crate::array::MemArray {
    /// Serializes the array to the single-array stream format: header and
    /// packed element bytes. Fails exactly when the element kind has no
    /// stream descriptor.
    pub fn serialize(&self) -> (r: Result<Vec<u8>, MemError>)
        requires
            self.wf(),
        ensures
            match r {
                Ok(v) => {
                    &&& crate::dtype::spec_desc_token(crate::dtype::spec_native_desc(self.dtype))
                        is Some
                    &&& v@ == spec_serialize(self.dtype, self.size.dims@, self.mem.bytes@)
                },
                Err(e) => {
                    &&& e == MemError::BadDtype
                    &&& crate::dtype::spec_desc_token(crate::dtype::spec_native_desc(self.dtype))
                        is None
                },
            },
    {
        let desc = crate::dtype::NpyDtypeDesc::native_of(self.dtype);
        proof {
            assert(desc == crate::dtype::spec_native_desc(self.dtype));
        }
        let nd_size = copy_vec_usize(&self.size.dims);
        let header = NpyHeader { dtype_desc: desc, col_major: false, nd_size, data_offset: 0 };
        let hb = match write_npy_header(&header) {
            Ok(v) => v,
            Err(e) => {
                proof {
                    assert(header.nd_size@.len() <= crate::idx::MAX_RANK);
                }
                return Err(e);
            },
        };
        let phsz = self.mem.phys_size();
        let data = self.mem.read_range(0, phsz);
        proof {
            assert(data@ =~= self.mem.bytes@);
        }
        let mut out = hb;
        let mut d2 = data;
        out.append(&mut d2);
        proof {
            assert(out@ =~= spec_serialize(self.dtype, self.size.dims@, self.mem.bytes@));
        }
        Ok(out)
    }

    /// Reads one array of the expected element kind from the front of a
    /// byte stream; see [`spec_deserialize`] for the exact acceptance. The
    /// array comes back packed, with the stream's shape in internal
    /// column-major order.
    pub fn deserialize(b: &[u8], dtype: crate::dtype::NpyDtype) -> (r: Result<
        crate::array::MemArray,
        MemError,
    >)
        ensures
            match r {
                Ok(a) => {
                    &&& a.wf()
                    &&& a.dtype == dtype
                    &&& spec_deserialize(b@, dtype) == Ok::<(Seq<usize>, Seq<u8>), MemError>(
                        (a.size.dims@, a.mem.bytes@),
                    )
                },
                Err(e) => spec_deserialize(b@, dtype) == Err::<(Seq<usize>, Seq<u8>), MemError>(e),
            },
    {
        let hdr = match read_npy_header(b) {
            Ok(h) => h,
            Err(e) => {
                return Err(e);
            },
        };
        let expect = crate::dtype::NpyDtypeDesc::native_of(dtype);
        proof {
            assert(expect == crate::dtype::spec_native_desc(dtype));
        }
        if !hdr.dtype_desc.matches(&expect) {
            return Err(MemError::DtypeMismatch);
        }
        let doff = hdr.data_offset;
        let size = crate::idx::IdxN { dims: hdr.nd_size };
        match size.try_span() {
            None => {
                return Err(MemError::Overflow);
            },
            Some(_) => {},
        }
        let flat = size.flat_len();
        let esz = dtype.size_of();
        let need = match flat.checked_mul(esz) {
            Some(v) => v,
            None => {
                return Err(MemError::Overflow);
            },
        };
        let blen = b.len();
        let end = match doff.checked_add(need) {
            Some(v) => v,
            None => {
                proof {
                    assert(b@.len() == blen);
                }
                return Err(MemError::Truncated);
            },
        };
        if blen < end {
            return Err(MemError::Truncated);
        }
        let data = slice_to_vec(b, doff, need);
        let mem = match crate::mem::HeapMem::with_bytes(flat, esz, data) {
            Ok(m) => m,
            Err(_) => {
                proof {
                    assert((flat as nat) * (esz as nat) == need as nat) by (nonlinear_arith)
                        requires
                            flat as nat * (esz as nat) == need as nat,
                    ;
                }
                vstd::pervasive::unreached()
            },
        };
        match crate::array::MemArray::with_memory(dtype, size, mem) {
            Ok(a) => {
                proof {
                    assert(spec_deserialize(b@, dtype) == Ok::<(Seq<usize>, Seq<u8>), MemError>(
                        (a.size.dims@, a.mem.bytes@),
                    ));
                }
                Ok(a)
            },
            Err(_) => vstd::pervasive::unreached(),
        }
    }
}


/// A shape token strips to its numeral, is at least two bytes long, and
/// holds no whitespace.
pub proof fn lemma_shape_token_strip(ds: Seq<usize>, i: int)
    requires
        0 <= i < ds.len(),
    ensures
        spec_strip(shape_token(ds, i)) == dec_digits(ds[i] as nat),
        shape_token(ds, i).len() >= 2,
        token_ok(shape_token(ds, i)),
{
    let dg = dec_digits(ds[i] as nat);
    lemma_dec_digits_val(ds[i] as nat);
    let pre: Seq<u8> = if i == 0 {
        seq![40u8]
    } else {
        Seq::empty()
    };
    let post: Seq<u8> = if i == ds.len() - 1 {
        seq![41u8]
    } else {
        seq![44u8]
    };
    let t = pre + dg + post;
    assert(shape_token(ds, i) == t);
    lemma_strip_concat(pre + dg, post, post.len() as int);
    lemma_strip_concat(pre, dg, dg.len() as int);
    assert(strip_prefix(pre, pre.len() as int) =~= Seq::<u8>::empty()) by {
        if i == 0 {
            assert(is_punct(pre[0]));
            assert(strip_prefix(pre, 1) == strip_prefix(pre, 0));
        }
    }
    lemma_strip_digits(dg, dg.len() as int);
    assert(dg.subrange(0, dg.len() as int) =~= dg);
    assert(strip_prefix(post, post.len() as int) =~= Seq::<u8>::empty()) by {
        assert(is_punct(post[0]));
        assert(strip_prefix(post, 1) == strip_prefix(post, 0));
    }
    assert(spec_strip(t) =~= dg);
    assert forall|k: int| 0 <= k < t.len() implies !is_ws(#[trigger] t[k]) by {
        if k < pre.len() {
            assert(t[k] == pre[0]);
        } else if k < pre.len() + dg.len() {
            assert(t[k] == dg[k - pre.len()]);
        } else {
            assert(t[k] == post[0]);
        }
    }
}

/// Tokens that strip to numerals followed by a closing brace parse back to
/// exactly those dimensions.
pub proof fn lemma_parse_shape_from(toks: Seq<Seq<u8>>, j: int, ds: Seq<usize>)
    requires
        0 <= j,
        j + ds.len() < toks.len(),
        forall|m: int|
            0 <= m < ds.len() ==> spec_strip(#[trigger] toks[j + m]) == dec_digits(ds[m] as nat),
        forall|m: int| 0 <= m < ds.len() ==> #[trigger] toks[j + m].len() >= 2,
        toks[j + ds.len()] == tok_brace(),
    ensures
        spec_parse_shape(toks, j) == Ok::<Seq<usize>, MemError>(ds),
    decreases ds.len(),
{
    if ds.len() == 0 {
        assert(toks[j] == tok_brace());
        assert(ds =~= Seq::<usize>::empty());
        assert(spec_parse_shape(toks, j) == Ok::<Seq<usize>, MemError>(Seq::empty()));
    } else {
        assert(spec_strip(toks[j + 0]) == dec_digits(ds[0] as nat));
        assert(toks[j + 0].len() >= 2);
        assert(toks[j] != tok_brace()) by {
            assert(toks[j + 0].len() >= 2);
            assert(tok_brace().len() == 1);
        }
        let st = spec_strip(toks[j]);
        lemma_dec_digits_val(ds[0] as nat);
        assert(spec_parse_usize(st) == Some(ds[0])) by {
            assert(st.len() >= 1);
            assert(dec_val(st, st.len() as int) == ds[0] as nat);
        }
        let tail = ds.drop_first();
        assert forall|m: int|
            0 <= m < tail.len() implies spec_strip(#[trigger] toks[j + 1 + m]) == dec_digits(
            tail[m] as nat,
        ) by {
            assert(toks[j + (m + 1)] == toks[j + 1 + m]);
            assert(spec_strip(toks[j + (m + 1)]) == dec_digits(ds[m + 1] as nat));
            assert(tail[m] == ds[m + 1]);
        }
        assert forall|m: int| 0 <= m < tail.len() implies #[trigger] toks[j + 1 + m].len() >= 2 by {
            assert(toks[j + (m + 1)].len() >= 2);
        }
        assert(toks[j + 1 + tail.len()] == tok_brace());
        lemma_parse_shape_from(toks, j + 1, tail);
        assert(seq![ds[0]] + tail =~= ds);
        assert(st.len() != 0);
        assert(spec_parse_shape(toks, j) == (match spec_parse_usize(st) {
            None => Err::<Seq<usize>, MemError>(MemError::BadHeader),
            Some(d) => match spec_parse_shape(toks, j + 1) {
                Err(e) => Err(e),
                Ok(rest) => Ok(seq![d] + rest),
            },
        }));
        assert(spec_parse_shape(toks, j) == Ok::<Seq<usize>, MemError>(seq![ds[0]] + tail));
    }
}

/// Padding to the next 64-byte boundary aligns the total.
pub proof fn lemma_pad_aligns(x: nat)
    ensures
        (x + ((64 - (x % 64)) % 64)) % 64 == 0,
{
    let m0 = x % 64;
    vstd::arithmetic::div_mod::lemma_mod_division_less_than_divisor(x as int, 64);
    if m0 == 0 {
        assert((64 - 0nat) % 64 == 0) by {
            vstd::arithmetic::div_mod::lemma_mod_self_0(64);
        }
    } else {
        let p = (64 - m0) as nat;
        vstd::arithmetic::div_mod::lemma_small_mod(p, 64);
        assert(((64 - (x % 64)) % 64) == p);
        vstd::arithmetic::div_mod::lemma_add_mod_noop(x as int, p as int, 64);
        assert((m0 + p) % 64 == 0) by {
            vstd::arithmetic::div_mod::lemma_mod_self_0(64);
        }
    }
}

/// Every fixed header token is whitespace-free.
pub proof fn lemma_fixed_tokens_ok()
    ensures
        token_ok(tok_descr()),
        token_ok(tok_order()),
        token_ok(tok_shape()),
        token_ok(tok_true()),
        token_ok(tok_false()),
        token_ok(tok_brace()),
        token_ok(tok_unit()),
{
    assert forall|i: int| 0 <= i < tok_descr().len() implies !is_ws(#[trigger] tok_descr()[i]) by {}
    assert forall|i: int| 0 <= i < tok_order().len() implies !is_ws(#[trigger] tok_order()[i]) by {}
    assert forall|i: int| 0 <= i < tok_shape().len() implies !is_ws(#[trigger] tok_shape()[i]) by {}
    assert forall|i: int| 0 <= i < tok_true().len() implies !is_ws(#[trigger] tok_true()[i]) by {}
    assert forall|i: int| 0 <= i < tok_false().len() implies !is_ws(#[trigger] tok_false()[i]) by {}
    assert forall|i: int| 0 <= i < tok_brace().len() implies !is_ws(#[trigger] tok_brace()[i]) by {}
    assert forall|i: int| 0 <= i < tok_unit().len() implies !is_ws(#[trigger] tok_unit()[i]) by {}
}


/// Law: serializing an array of any serializable element kind and reading
/// the stream back with the same kind recovers the internal shape, the
/// layout order and every element byte.
pub proof fn lemma_npy_round_trip(dtype: crate::dtype::NpyDtype, dims: Seq<usize>, data: Seq<u8>)
    requires
        crate::dtype::spec_desc_token(crate::dtype::spec_native_desc(dtype)) is Some,
        dims.len() <= crate::idx::MAX_RANK,
        crate::array::fits_seq(dims),
        crate::idx::dot_prefix(dims, crate::idx::packed_seq(dims), dims.len() as int)
            <= usize::MAX,
        data.len() == crate::idx::prod_prefix(dims, dims.len() as int)
            * crate::dtype::spec_dtype_size(dtype),
        data.len() <= usize::MAX,
    ensures
        spec_deserialize(spec_serialize(dtype, dims, data), dtype) == Ok::<
            (Seq<usize>, Seq<u8>),
            MemError,
        >((dims, data)),
{
    let desc = crate::dtype::spec_native_desc(dtype);
    let tok = crate::dtype::spec_desc_token(desc).unwrap();
    let fdims = dims.reverse();
    let toks = header_tokens(tok, false, fdims);
    let body = spaced(toks);
    let pad = ((64 - ((10 + body.len()) % 64)) % 64) as nat;
    let text = body + spaces(pad);
    let hl = text.len();
    let lenb = vstd::bytes::spec_u16_to_le_bytes(hl as u16);
    let hdrb = magic_seq() + seq![1u8, 0u8] + lenb + text;
    let enc = hdrb + data;
    assert(spec_serialize(dtype, dims, data) == enc);

    lemma_fixed_tokens_ok();
    crate::dtype::lemma_desc_token_round(desc);
    assert(token_ok(tok)) by {
        assert forall|i: int| 0 <= i < tok.len() implies !is_ws(#[trigger] tok[i]) by {
            assert(33 <= tok[i] < 127);
        }
    }
    assert(shape_tokens(fdims).len() == if fdims.len() == 0 {
        1int
    } else {
        fdims.len() as int
    });
    assert(toks.len() == 6 + shape_tokens(fdims).len());
    assert(toks[0] == tok_descr());
    assert(toks[1] == tok);
    assert(toks[2] == tok_order());
    assert(toks[3] == tok_false());
    assert(toks[4] == tok_shape());
    assert(toks[toks.len() - 1] == tok_brace());
    assert forall|i: int| 0 <= i < toks.len() implies token_ok(#[trigger] toks[i]) by {
        if 5 <= i < toks.len() - 1 {
            assert(toks[i] == shape_tokens(fdims)[i - 5]);
            if fdims.len() == 0 {
                assert(toks[i] == tok_unit());
            } else {
                assert(toks[i] == shape_token(fdims, i - 5));
                lemma_shape_token_strip(fdims, i - 5);
            }
        }
    }

    assert forall|k: int| 0 <= k < toks.len() implies #[trigger] toks[k].len() <= 22 by {
        if 5 <= k < toks.len() - 1 {
            assert(toks[k] == shape_tokens(fdims)[k - 5]);
            if fdims.len() > 0 {
                assert(toks[k] == shape_token(fdims, k - 5));
                lemma_usize_digits(fdims[k - 5]);
            }
        }
    }
    lemma_spaced_len(toks, 22);
    assert(toks.len() <= 11);
    assert(toks.len() * 23 <= 11 * 23) by (nonlinear_arith)
        requires
            toks.len() <= 11,
    ;
    assert(body.len() <= 253);
    assert(pad < 64) by {
        vstd::arithmetic::div_mod::lemma_mod_division_less_than_divisor(
            (10 + body.len()) as int,
            64,
        );
    }
    assert(hl <= 316);

    vstd::bytes::lemma_auto_spec_u16_to_from_le_bytes();
    assert(lenb.len() == 2);
    assert(vstd::bytes::spec_u16_from_le_bytes(lenb) == hl as u16);
    assert((hl as u16) as nat == hl);

    assert(hdrb.len() == 10 + hl);
    assert(enc.len() == 10 + hl + data.len());
    assert(enc.subrange(0, 6) =~= magic_seq()) by {
        assert forall|i: int| 0 <= i < 6 implies enc[i] == magic_seq()[i] by {}
    }
    assert(enc[6] == 1u8);
    assert(enc[7] == 0u8);
    assert(enc.subrange(8, 10) =~= lenb) by {
        assert(enc[8] == lenb[0]);
        assert(enc[9] == lenb[1]);
    }
    let h = vstd::bytes::spec_u16_from_le_bytes(enc.subrange(8, 10)) as nat;
    assert(h == hl);
    let doff = (10 + h) as nat;
    lemma_pad_aligns((10 + body.len()) as nat);
    assert(doff == (10 + body.len()) + pad);
    assert(doff % 64 == 0);
    assert(enc.len() >= doff);
    assert(enc.subrange(10, doff as int) =~= text) by {
        assert forall|i: int| 0 <= i < hl implies enc[10 + i] == text[i] by {}
    }
    lemma_tokenize_spaced(toks, pad);
    assert(spec_tokenize(enc.subrange(10, doff as int)) == toks);

    assert(crate::dtype::spec_parse_desc(toks[1]) == Some(desc));
    assert(tok_false() != tok_true()) by {
        assert(tok_false().len() == 6);
        assert(tok_true().len() == 5);
    }

    if fdims.len() == 0 {
        assert(toks[5] == shape_tokens(fdims)[0]);
        assert(toks[5] == tok_unit());
        assert(toks[5] != tok_brace()) by {
            assert(tok_unit().len() == 2);
            assert(tok_brace().len() == 1);
        }
        assert(spec_strip(tok_unit()) =~= Seq::<u8>::empty()) by {
            assert(is_punct(tok_unit()[0]));
            assert(is_punct(tok_unit()[1]));
            assert(strip_prefix(tok_unit(), 0) =~= Seq::<u8>::empty());
            assert(strip_prefix(tok_unit(), 1) =~= Seq::<u8>::empty());
            assert(strip_prefix(tok_unit(), 2) =~= Seq::<u8>::empty());
        }
        assert(toks[6] == tok_brace());
        assert(6 < toks.len());
        assert(spec_parse_shape(toks, 6) == Ok::<Seq<usize>, MemError>(Seq::empty()));
        assert(spec_parse_shape(toks, 5) == Ok::<Seq<usize>, MemError>(Seq::empty()));
        assert(fdims =~= Seq::<usize>::empty());
        assert(spec_parse_shape(toks, 5) == Ok::<Seq<usize>, MemError>(fdims));
    } else {
        assert forall|m: int|
            0 <= m < fdims.len() implies spec_strip(#[trigger] toks[5 + m]) == dec_digits(
            fdims[m] as nat,
        ) by {
            assert(toks[5 + m] == shape_tokens(fdims)[m]);
            assert(toks[5 + m] == shape_token(fdims, m));
            lemma_shape_token_strip(fdims, m);
        }
        assert forall|m: int| 0 <= m < fdims.len() implies #[trigger] toks[5 + m].len() >= 2 by {
            assert(toks[5 + m] == shape_token(fdims, m));
            lemma_shape_token_strip(fdims, m);
        }
        assert(toks[5 + fdims.len() as int] == tok_brace());
        lemma_parse_shape_from(toks, 5, fdims);
    }
    assert(fdims.len() <= crate::idx::MAX_RANK);
    assert(fdims.reverse() =~= dims) by {
        assert forall|i: int| 0 <= i < dims.len() implies fdims.reverse()[i] == dims[i] by {}
    }
    assert(spec_read_npy_header(enc) == Ok::<
        (crate::dtype::NpyDtypeDesc, bool, Seq<usize>, nat),
        MemError,
    >((desc, false, dims, doff)));

    let flat = crate::idx::prod_prefix(dims, dims.len() as int);
    let esz = crate::dtype::spec_dtype_size(dtype);
    assert(flat * esz == data.len());
    assert(enc.len() == doff + flat * esz);
    assert(enc.subrange(doff as int, doff as int + (flat * esz) as int) =~= data) by {
        assert forall|i: int| 0 <= i < data.len() implies enc[doff + i] == data[i] by {}
    }
}

/// Law: the single-array round trip at the level of whole arrays — the
/// serialized bytes of any well-formed array of a serializable element
/// kind deserialize to its exact shape and contents.
pub proof fn lemma_array_round_trip(a: crate::array::MemArray)
    requires
        a.wf(),
        crate::dtype::spec_desc_token(crate::dtype::spec_native_desc(a.dtype)) is Some,
    ensures
        spec_deserialize(spec_serialize(a.dtype, a.size.dims@, a.mem.bytes@), a.dtype) == Ok::<
            (Seq<usize>, Seq<u8>),
            MemError,
        >((a.size.dims@, a.mem.bytes@)),
{
    assert(a.mem.bytes@.len() == a.mem.len * a.mem.esz);
    assert(a.mem.len == crate::idx::prod_prefix(a.size.dims@, a.size.dims@.len() as int));
    lemma_npy_round_trip(a.dtype, a.size.dims@, a.mem.bytes@);
}

} // verus!
