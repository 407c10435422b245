//! Content digests and the length-prefixed framing that they are taken over.

use crate::text::is_lower_hex;
use vstd::prelude::*;

verus! {

/// The SHA-256 digest of `bytes`, written as lower-case hexadecimal digits.
pub uninterp spec fn sha256_hex(bytes: Seq<u8>) -> Seq<char>;

/// Calls `sha2::Sha256::digest` and writes the digest with `{:x}`. Claimed: the result is a
/// function of the bytes alone, and is the 32 bytes as 64 lower-case hexadecimal digits.
#[verifier::external_body]
pub(crate) fn sha256_hex_text(bytes: &[u8]) -> (r: String)
    ensures
        r@ == sha256_hex(bytes@),
        r@.len() == 64,
        forall|i: int| 0 <= i < 64 ==> is_lower_hex(#[trigger] r@[i]),
{
    format!("{:x}", <sha2::Sha256 as sha2::Digest>::digest(bytes))
}

/// The eight bytes of `n`, most significant first.
pub open spec fn be_bytes(n: u64) -> Seq<u8> {
    seq![
        (n / 0x100_0000_0000_0000 % 0x100) as u8,
        (n / 0x1_0000_0000_0000 % 0x100) as u8,
        (n / 0x100_0000_0000 % 0x100) as u8,
        (n / 0x1_0000_0000 % 0x100) as u8,
        (n / 0x100_0000 % 0x100) as u8,
        (n / 0x1_0000 % 0x100) as u8,
        (n / 0x100 % 0x100) as u8,
        (n % 0x100) as u8,
    ]
}

/// The framing of a list of fields: each field behind its length.
pub open spec fn framed(fields: Seq<Seq<u8>>) -> Seq<u8>
    decreases fields.len(),
{
    if fields.len() == 0 {
        Seq::empty()
    } else {
        be_bytes(fields[0].len() as u64) + fields[0] + framed(fields.drop_first())
    }
}

/// Whether every field is short enough for its length to be written down.
pub open spec fn frameable(fields: Seq<Seq<u8>>) -> bool {
    forall|i: int| 0 <= i < fields.len() ==> #[trigger] fields[i].len() <= u64::MAX
}

/// The bytes of each field.
pub open spec fn field_views(fields: Seq<Vec<u8>>) -> Seq<Seq<u8>> {
    Seq::new(fields.len(), |i: int| fields[i]@)
}

pub proof fn lemma_be_bytes_injective(a: u64, b: u64)
    requires
        be_bytes(a) == be_bytes(b),
    ensures
        a == b,
{
    let x = be_bytes(a);
    let y = be_bytes(b);
    assert(x[0] == y[0] && x[1] == y[1] && x[2] == y[2] && x[3] == y[3]);
    assert(x[4] == y[4] && x[5] == y[5] && x[6] == y[6] && x[7] == y[7]);
    lemma_from_bytes(a);
    lemma_from_bytes(b);
}

proof fn lemma_from_bytes(n: u64)
    ensures
        n == be_bytes(n)[0] * 0x100_0000_0000_0000 + be_bytes(n)[1] * 0x1_0000_0000_0000
            + be_bytes(n)[2] * 0x100_0000_0000 + be_bytes(n)[3] * 0x1_0000_0000 + be_bytes(n)[4]
            * 0x100_0000 + be_bytes(n)[5] * 0x1_0000 + be_bytes(n)[6] * 0x100 + be_bytes(n)[7],
{
    let q1 = n / 0x100;
    let q2 = n / 0x1_0000;
    let q3 = n / 0x100_0000;
    let q4 = n / 0x1_0000_0000;
    let q5 = n / 0x100_0000_0000;
    let q6 = n / 0x1_0000_0000_0000;
    let q7 = n / 0x100_0000_0000_0000;
    assert(q2 == q1 / 0x100 && q3 == q2 / 0x100 && q4 == q3 / 0x100 && q5 == q4 / 0x100 && q6 == q5
        / 0x100 && q7 == q6 / 0x100 && q7 < 0x100) by (bit_vector)
        requires
            q1 == n / 0x100,
            q2 == n / 0x1_0000,
            q3 == n / 0x100_0000,
            q4 == n / 0x1_0000_0000,
            q5 == n / 0x100_0000_0000,
            q6 == n / 0x1_0000_0000_0000,
            q7 == n / 0x100_0000_0000_0000,
    ;
    assert(be_bytes(n)[0] == q7 && be_bytes(n)[1] == q6 % 0x100 && be_bytes(n)[2] == q5 % 0x100);
    assert(be_bytes(n)[3] == q4 % 0x100 && be_bytes(n)[4] == q3 % 0x100 && be_bytes(n)[5] == q2
        % 0x100);
    assert(be_bytes(n)[6] == q1 % 0x100 && be_bytes(n)[7] == n % 0x100);
}

/// The framing is canonical: two lists of fields with one framing are one list.
pub proof fn law_framing_is_injective(a: Seq<Seq<u8>>, b: Seq<Seq<u8>>)
    requires
        frameable(a),
        frameable(b),
        framed(a) == framed(b),
    ensures
        a == b,
    decreases a.len(),
{
    if a.len() == 0 || b.len() == 0 {
        if a.len() > 0 {
            assert(framed(a).len() >= 8);
        }
        if b.len() > 0 {
            assert(framed(b).len() >= 8);
        }
        assert(a =~= b);
    } else {
        let fa = framed(a);
        let fb = framed(b);
        let ha = be_bytes(a[0].len() as u64);
        let hb = be_bytes(b[0].len() as u64);
        assert(fa.subrange(0, 8) =~= ha);
        assert(fb.subrange(0, 8) =~= hb);
        lemma_be_bytes_injective(a[0].len() as u64, b[0].len() as u64);
        let n = a[0].len() as int;
        assert(fa.subrange(8, 8 + n) =~= a[0]);
        assert(fb.subrange(8, 8 + n) =~= b[0]);
        assert(fa.skip(8 + n) =~= framed(a.drop_first()));
        assert(fb.skip(8 + n) =~= framed(b.drop_first()));
        law_framing_is_injective(a.drop_first(), b.drop_first());
        assert(a =~= seq![a[0]] + a.drop_first());
        assert(b =~= seq![b[0]] + b.drop_first());
    }
}

/// Appends `bytes` to `out`.
pub fn push_bytes(out: &mut Vec<u8>, bytes: &[u8])
    ensures
        final(out)@ == old(out)@ + bytes@,
{
    let ghost before = out@;
    let mut i: usize = 0;
    while i < bytes.len()
        invariant
            i <= bytes@.len(),
            out@ == before + bytes@.take(i as int),
        decreases bytes@.len() - i,
    {
        out.push(bytes[i]);
        proof {
            assert(bytes@.take(i + 1) =~= bytes@.take(i as int).push(bytes@[i as int]));
        }
        i += 1;
    }
    proof {
        assert(bytes@.take(bytes@.len() as int) =~= bytes@);
    }
}

/// The eight bytes of `n`, most significant first.
pub fn be_bytes_of(n: u64) -> (r: Vec<u8>)
    ensures
        r@ == be_bytes(n),
{
    let mut out: Vec<u8> = Vec::new();
    out.push((n / 0x100_0000_0000_0000 % 0x100) as u8);
    out.push((n / 0x1_0000_0000_0000 % 0x100) as u8);
    out.push((n / 0x100_0000_0000 % 0x100) as u8);
    out.push((n / 0x1_0000_0000 % 0x100) as u8);
    out.push((n / 0x100_0000 % 0x100) as u8);
    out.push((n / 0x1_0000 % 0x100) as u8);
    out.push((n / 0x100 % 0x100) as u8);
    out.push((n % 0x100) as u8);
    proof {
        assert(out@ =~= be_bytes(n));
    }
    out
}

/// The bytes of a text, owned.
pub fn bytes_of(s: &str) -> (r: Vec<u8>)
    ensures
        r@ == vstd::utf8::encode_utf8(s@),
{
    let mut out: Vec<u8> = Vec::new();
    push_bytes(&mut out, s.as_bytes());
    proof {
        assert(Seq::<u8>::empty() + vstd::utf8::encode_utf8(s@) =~= vstd::utf8::encode_utf8(s@));
    }
    out
}

/// The digest of a domain and a list of fields: `sha256:` and the hexadecimal digits of the
/// digest of the domain's bytes followed by the framed fields.
pub open spec fn fields_digest(domain: Seq<u8>, fields: Seq<Seq<u8>>) -> Seq<char> {
    "sha256:"@ + sha256_hex(domain + framed(fields))
}

/// Computes [`fields_digest`].
pub fn digest_of_fields(domain: &[u8], fields: &Vec<Vec<u8>>) -> (r: String)
    ensures
        r@ == fields_digest(domain@, field_views(fields@)),
{
    let mut out: Vec<u8> = Vec::new();
    push_bytes(&mut out, domain);
    let ghost all = field_views(fields@);
    let mut i: usize = 0;
    proof {
        assert(all.skip(0) =~= all);
        assert(out@ =~= domain@);
    }
    while i < fields.len()
        invariant
            i <= fields@.len(),
            all == field_views(fields@),
            out@ + framed(all.skip(i as int)) == domain@ + framed(all),
        decreases fields@.len() - i,
    {
        let size: Vec<u8> = be_bytes_of(fields[i].len() as u64);
        let ghost before = out@;
        push_bytes(&mut out, size.as_slice());
        push_bytes(&mut out, fields[i].as_slice());
        proof {
            let rest = all.skip(i as int);
            assert(rest[0] == all[i as int]);
            assert(rest.drop_first() =~= all.skip(i + 1));
            assert(out@ + framed(all.skip(i + 1)) =~= before + framed(rest));
        }
        i += 1;
    }
    proof {
        assert(out@ + framed(all.skip(all.len() as int)) =~= out@);
    }
    let hex = sha256_hex_text(out.as_slice());
    let mut r = "sha256:".to_owned();
    r.append(hex.as_str());
    r
}

/// The identity of some bytes in a domain: `sha256:` and the digest of both, one behind the other.
pub open spec fn domain_digest(domain: Seq<u8>, bytes: Seq<u8>) -> Seq<char> {
    "sha256:"@ + sha256_hex(domain + bytes)
}

/// Computes [`domain_digest`].
pub fn digest_in_domain(domain: &[u8], bytes: &[u8]) -> (r: String)
    ensures
        r@ == domain_digest(domain@, bytes@),
        r@.len() == 71,
        forall|i: int| 7 <= i < 71 ==> is_lower_hex(#[trigger] r@[i]),
{
    let mut out: Vec<u8> = Vec::new();
    push_bytes(&mut out, domain);
    push_bytes(&mut out, bytes);
    proof {
        assert(out@ =~= domain@ + bytes@);
        reveal_strlit("sha256:");
    }
    let hex = sha256_hex_text(out.as_slice());
    let mut r = "sha256:".to_owned();
    r.append(hex.as_str());
    proof {
        assert forall|i: int| 7 <= i < 71 implies is_lower_hex(#[trigger] r@[i]) by {
            assert(r@[i] == hex@[i - 7]);
        }
    }
    r
}

/// The encodings of texts.
pub open spec fn text_bytes(texts: Seq<Seq<char>>) -> Seq<Seq<u8>> {
    Seq::new(texts.len(), |i: int| vstd::utf8::encode_utf8(texts[i]))
}

/// What each text says.
pub open spec fn text_views(texts: Seq<String>) -> Seq<Seq<char>> {
    Seq::new(texts.len(), |i: int| texts[i]@)
}

/// The canonical encoding of a list of texts, each behind its length.
pub fn frame_texts(texts: &Vec<String>) -> (r: Vec<u8>)
    ensures
        r@ == framed(text_bytes(text_views(texts@))),
        texts_frameable(text_views(texts@)),
{
    let ghost all = text_bytes(text_views(texts@));
    let mut out: Vec<u8> = Vec::new();
    let mut i: usize = 0;
    proof {
        assert(all.skip(0) =~= all);
        assert(out@ + framed(all.skip(0)) =~= framed(all));
    }
    while i < texts.len()
        invariant
            i <= texts@.len(),
            all == text_bytes(text_views(texts@)),
            forall|j: int| 0 <= j < i ==> (#[trigger] all[j]).len() <= u64::MAX,
            out@ + framed(all.skip(i as int)) == framed(all),
        decreases texts@.len() - i,
    {
        let field = bytes_of(texts[i].as_str());
        let size: Vec<u8> = be_bytes_of(field.len() as u64);
        let ghost before = out@;
        push_bytes(&mut out, size.as_slice());
        push_bytes(&mut out, field.as_slice());
        proof {
            let rest = all.skip(i as int);
            assert(rest[0] == all[i as int]);
            assert(rest.drop_first() =~= all.skip(i + 1));
            assert(out@ + framed(all.skip(i + 1)) =~= before + framed(rest));
        }
        i += 1;
    }
    proof {
        assert(out@ + framed(all.skip(all.len() as int)) =~= out@);
    }
    out
}

/// Whether every text is short enough for its length to be written down.
pub open spec fn texts_frameable(texts: Seq<Seq<char>>) -> bool {
    frameable(text_bytes(texts))
}

/// Two lists of texts with one canonical encoding are one list.
pub proof fn law_text_framing_is_injective(a: Seq<Seq<char>>, b: Seq<Seq<char>>)
    requires
        texts_frameable(a),
        texts_frameable(b),
        framed(text_bytes(a)) == framed(text_bytes(b)),
    ensures
        a == b,
{
    law_framing_is_injective(text_bytes(a), text_bytes(b));
    assert(a.len() == text_bytes(a).len() && b.len() == text_bytes(b).len());
    assert forall|i: int| 0 <= i < a.len() implies a[i] == b[i] by {
        assert(text_bytes(a)[i] == text_bytes(b)[i]);
        crate::text::lemma_encoding_injective(a[i], b[i]);
    }
    assert(a =~= b);
}

} // verus!
