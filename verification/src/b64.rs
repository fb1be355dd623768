use vstd::prelude::*;

verus! {

// Base64 (standard alphabet, with `=` padding) as the document format
// uses it: no line wrapping. The encoding of a byte sequence is a pure
// function of the bytes, and decoding inverts it; both directions are
// stated below and proved against each other.

/// The character standing for a 6-bit value.
pub open spec fn b64_char_of(v: u8) -> char
    recommends
        v < 64,
{
    if v < 26 {
        (v + 65) as char  // 'A'..='Z'
    } else if v < 52 {
        (v + 71) as char  // 'a'..='z'
    } else if v < 62 {
        (v - 4) as char  // '0'..='9'
    } else if v == 62 {
        '+'
    } else {
        '/'
    }
}

/// The 6-bit value of an alphabet character, or `None` for any other
/// character (`=` included).
pub open spec fn b64_val_of(c: char) -> Option<u8> {
    let x = c as int;
    if 65 <= x < 91 {
        Some((x - 65) as u8)
    } else if 97 <= x < 123 {
        Some((x - 71) as u8)
    } else if 48 <= x < 58 {
        Some((x + 4) as u8)
    } else if x == 43 {
        Some(62u8)
    } else if x == 47 {
        Some(63u8)
    } else {
        None
    }
}

/// The four characters of one full three-byte group.
pub open spec fn b64_enc_group(b0: u8, b1: u8, b2: u8) -> Seq<char> {
    seq![
        b64_char_of(b0 >> 2),
        b64_char_of(((b0 & 3) << 4) | (b1 >> 4)),
        b64_char_of(((b1 & 15) << 2) | (b2 >> 6)),
        b64_char_of(b2 & 63),
    ]
}

/// The three bytes carried by one full group of 6-bit values.
pub open spec fn b64_dec_group(v0: u8, v1: u8, v2: u8, v3: u8) -> Seq<u8> {
    seq![(v0 << 2) | (v1 >> 4), ((v1 & 15) << 4) | (v2 >> 2), ((v2 & 3) << 6) | v3]
}

/// Base64 text of a byte sequence.
pub open spec fn b64_encode(b: Seq<u8>) -> Seq<char>
    decreases b.len(),
{
    if b.len() == 0 {
        Seq::<char>::empty()
    } else if b.len() == 1 {
        seq![b64_char_of(b[0] >> 2), b64_char_of((b[0] & 3) << 4), '=', '=']
    } else if b.len() == 2 {
        seq![
            b64_char_of(b[0] >> 2),
            b64_char_of(((b[0] & 3) << 4) | (b[1] >> 4)),
            b64_char_of((b[1] & 15) << 2),
            '=',
        ]
    } else {
        b64_enc_group(b[0], b[1], b[2]) + b64_encode(b.skip(3))
    }
}

/// The bytes of a final four-character block, which may carry padding.
pub open spec fn b64_decode_tail(s: Seq<char>) -> Option<Seq<u8>>
    recommends
        s.len() == 4,
{
    if s[2] == '=' && s[3] == '=' {
        match (b64_val_of(s[0]), b64_val_of(s[1])) {
            (Some(v0), Some(v1)) => Some(seq![(v0 << 2) | (v1 >> 4)]),
            _ => None,
        }
    } else if s[3] == '=' {
        match (b64_val_of(s[0]), b64_val_of(s[1]), b64_val_of(s[2])) {
            (Some(v0), Some(v1), Some(v2)) => Some(
                seq![(v0 << 2) | (v1 >> 4), ((v1 & 15) << 4) | (v2 >> 2)],
            ),
            _ => None,
        }
    } else {
        match (b64_val_of(s[0]), b64_val_of(s[1]), b64_val_of(s[2]), b64_val_of(s[3])) {
            (Some(v0), Some(v1), Some(v2), Some(v3)) => Some(b64_dec_group(v0, v1, v2, v3)),
            _ => None,
        }
    }
}

/// Bytes of Base64 text, or `None` where the text is not Base64.
pub open spec fn b64_decode(s: Seq<char>) -> Option<Seq<u8>>
    decreases s.len(),
{
    if s.len() == 0 {
        Some(Seq::<u8>::empty())
    } else if s.len() < 4 {
        None
    } else if s.len() == 4 {
        b64_decode_tail(s)
    } else {
        match (b64_val_of(s[0]), b64_val_of(s[1]), b64_val_of(s[2]), b64_val_of(s[3])) {
            (Some(v0), Some(v1), Some(v2), Some(v3)) => match b64_decode(s.skip(4)) {
                Some(rest) => Some(b64_dec_group(v0, v1, v2, v3) + rest),
                None => None,
            },
            _ => None,
        }
    }
}

/// The 6-bit values drawn from any bytes are below 64.
pub proof fn lemma_b64_vals_bounded(b0: u8, b1: u8, b2: u8)
    ensures
        b0 >> 2 < 64,
        ((b0 & 3) << 4) | (b1 >> 4) < 64,
        ((b1 & 15) << 2) | (b2 >> 6) < 64,
        b2 & 63 < 64,
        (b0 & 3) << 4 < 64,
        (b1 & 15) << 2 < 64,
{
    assert(b0 >> 2 < 64 && (((b0 & 3) << 4) | (b1 >> 4)) < 64 && (((b1 & 15) << 2) | (b2 >> 6))
        < 64 && b2 & 63 < 64 && (b0 & 3) << 4 < 64 && (b1 & 15) << 2 < 64) by (bit_vector);
}

/// Every alphabet character carries its value back, and none is `=`.
pub proof fn lemma_b64_char_inverts(v: u8)
    requires
        v < 64,
    ensures
        b64_val_of(b64_char_of(v)) == Some(v),
        b64_char_of(v) != '=',
{
}

/// The length of the encoding: four characters for each started group of
/// three bytes.
pub proof fn lemma_b64_encode_len(b: Seq<u8>)
    ensures
        b64_encode(b).len() == 4 * ((b.len() + 2) / 3),
    decreases b.len(),
{
    if b.len() >= 3 {
        lemma_b64_encode_len(b.skip(3));
    }
}

/// Decoding inverts encoding.
pub proof fn lemma_b64_roundtrip(b: Seq<u8>)
    ensures
        b64_decode(b64_encode(b)) == Some(b),
    decreases b.len(),
{
    let s = b64_encode(b);
    if b.len() == 0 {
        assert(b =~= Seq::<u8>::empty());
    } else if b.len() == 1 {
        let b0 = b[0];
        lemma_b64_vals_bounded(b0, 0, 0);
        lemma_b64_char_inverts(b0 >> 2);
        lemma_b64_char_inverts((b0 & 3) << 4);
        assert(((b0 >> 2) << 2) | ((((b0 & 3) << 4)) >> 4) == b0) by (bit_vector);
        assert(b64_decode(s) == Some(seq![b0]));
        assert(seq![b0] =~= b);
    } else if b.len() == 2 {
        let b0 = b[0];
        let b1 = b[1];
        let v0 = b0 >> 2;
        let v1 = ((b0 & 3) << 4) | (b1 >> 4);
        let v2 = (b1 & 15) << 2;
        lemma_b64_vals_bounded(b0, b1, 0);
        lemma_b64_char_inverts(v0);
        lemma_b64_char_inverts(v1);
        lemma_b64_char_inverts(v2);
        assert(((b0 >> 2) << 2) | ((((b0 & 3) << 4) | (b1 >> 4)) >> 4) == b0) by (bit_vector);
        assert(((((b0 & 3) << 4) | (b1 >> 4)) & 15) << 4 | (((b1 & 15) << 2) >> 2) == b1)
            by (bit_vector);
        assert(b64_decode(s) == Some(seq![b0, b1]));
        assert(seq![b0, b1] =~= b);
    } else {
        let b0 = b[0];
        let b1 = b[1];
        let b2 = b[2];
        let v0 = b0 >> 2;
        let v1 = ((b0 & 3) << 4) | (b1 >> 4);
        let v2 = ((b1 & 15) << 2) | (b2 >> 6);
        let v3 = b2 & 63;
        lemma_b64_vals_bounded(b0, b1, b2);
        lemma_b64_char_inverts(v0);
        lemma_b64_char_inverts(v1);
        lemma_b64_char_inverts(v2);
        lemma_b64_char_inverts(v3);
        assert((v0 << 2) | (v1 >> 4) == b0) by (bit_vector)
            requires
                v0 == b0 >> 2,
                v1 == ((b0 & 3) << 4) | (b1 >> 4),
        ;
        assert(((v1 & 15) << 4) | (v2 >> 2) == b1) by (bit_vector)
            requires
                v1 == ((b0 & 3) << 4) | (b1 >> 4),
                v2 == ((b1 & 15) << 2) | (b2 >> 6),
        ;
        assert(((v2 & 3) << 6) | v3 == b2) by (bit_vector)
            requires
                v2 == ((b1 & 15) << 2) | (b2 >> 6),
                v3 == b2 & 63,
        ;
        lemma_b64_roundtrip(b.skip(3));
        let rest = b.skip(3);
        if b.len() == 3 {
            assert(b64_encode(rest) =~= Seq::<char>::empty());
            assert(s =~= b64_enc_group(b0, b1, b2));
            assert(s.len() == 4);
            assert(b64_decode(s) == b64_decode_tail(s));
            assert(b64_decode_tail(s) == Some(b64_dec_group(v0, v1, v2, v3)));
            assert(b64_dec_group(v0, v1, v2, v3) =~= b);
        } else {
            lemma_b64_encode_len(rest);
            assert(s.len() > 4);
            assert(s.skip(4) =~= b64_encode(rest));
            assert(b64_dec_group(v0, v1, v2, v3) + rest =~= b);
        }
    }
}

/// The alphabet character of a 6-bit value.
pub fn b64_char(v: u8) -> (c: char)
    requires
        v < 64,
    ensures
        c == b64_char_of(v),
{
    if v < 26 {
        (v + 65) as char
    } else if v < 52 {
        (v + 71) as char
    } else if v < 62 {
        (v - 4) as char
    } else if v == 62 {
        '+'
    } else {
        '/'
    }
}

/// The 6-bit value of a character, or `None` outside the alphabet.
pub fn b64_val(c: char) -> (r: Option<u8>)
    ensures
        r == b64_val_of(c),
{
    let x = c as u32;
    if 65 <= x && x < 91 {
        Some((x - 65) as u8)
    } else if 97 <= x && x < 123 {
        Some((x - 71) as u8)
    } else if 48 <= x && x < 58 {
        Some((x + 4) as u8)
    } else if x == 43 {
        Some(62u8)
    } else if x == 47 {
        Some(63u8)
    } else {
        None
    }
}

/// Relies on String::push: appends one character.
#[verifier::external_body]
fn push_char(s: &mut String, c: char)
    ensures
        final(s)@ == old(s)@.push(c),
{
    s.push(c);
}

/// Base64 text of the given bytes.
pub fn b64_encode_bytes(b: &[u8]) -> (r: String)
    ensures
        r@ == b64_encode(b@),
{
    let mut out = String::new();
    let mut i: usize = 0;
    proof {
        assert(b@.skip(0) =~= b@);
        assert(out@ + b64_encode(b@.skip(0)) =~= b64_encode(b@));
    }
    while b.len() - i >= 3
        invariant
            i <= b.len(),
            b64_encode(b@) == out@ + b64_encode(b@.skip(i as int)),
        decreases b.len() - i,
    {
        let b0 = b[i];
        let b1 = b[i + 1];
        let b2 = b[i + 2];
        let ghost prev = out@;
        let ghost rest = b@.skip(i as int);
        proof {
            lemma_b64_vals_bounded(b0, b1, b2);
        }
        push_char(&mut out, b64_char(b0 >> 2));
        push_char(&mut out, b64_char(((b0 & 3) << 4) | (b1 >> 4)));
        push_char(&mut out, b64_char(((b1 & 15) << 2) | (b2 >> 6)));
        push_char(&mut out, b64_char(b2 & 63));
        proof {
            assert(rest[0] == b0 && rest[1] == b1 && rest[2] == b2);
            assert(rest.len() >= 3);
            assert(b64_encode(rest) == b64_enc_group(b0, b1, b2) + b64_encode(rest.skip(3)));
            assert(rest.skip(3) =~= b@.skip(i + 3));
            assert(out@ =~= prev + b64_enc_group(b0, b1, b2));
            assert(out@ + b64_encode(b@.skip(i + 3)) =~= prev + b64_encode(rest));
        }
        i = i + 3;
    }
    let ghost prev = out@;
    let ghost rest = b@.skip(i as int);
    if b.len() - i == 2 {
        let b0 = b[i];
        let b1 = b[i + 1];
        proof {
            lemma_b64_vals_bounded(b0, b1, 0);
        }
        push_char(&mut out, b64_char(b0 >> 2));
        push_char(&mut out, b64_char(((b0 & 3) << 4) | (b1 >> 4)));
        push_char(&mut out, b64_char((b1 & 15) << 2));
        push_char(&mut out, '=');
        proof {
            assert(rest.len() == 2 && rest[0] == b0 && rest[1] == b1);
            assert(out@ =~= prev + b64_encode(rest));
        }
    } else if b.len() - i == 1 {
        let b0 = b[i];
        proof {
            lemma_b64_vals_bounded(b0, 0, 0);
        }
        push_char(&mut out, b64_char(b0 >> 2));
        push_char(&mut out, b64_char((b0 & 3) << 4));
        push_char(&mut out, '=');
        push_char(&mut out, '=');
        proof {
            assert(rest.len() == 1 && rest[0] == b0);
            assert(out@ =~= prev + b64_encode(rest));
        }
    } else {
        proof {
            assert(rest.len() == 0);
            assert(b64_encode(rest) =~= Seq::<char>::empty());
            assert(out@ =~= prev + b64_encode(rest));
        }
    }
    out
}

/// Bytes of Base64 text, or `None` where the text is not Base64.
pub fn b64_decode_str(s: &str) -> (r: Option<Vec<u8>>)
    ensures
        match r {
            Some(v) => b64_decode(s@) == Some(v@),
            None => b64_decode(s@) is None,
        },
{
    let n = s.unicode_len();
    if n == 0 {
        let v: Vec<u8> = Vec::new();
        proof {
            assert(b64_decode(s@) == Some(Seq::<u8>::empty()));
            assert(v@ =~= Seq::<u8>::empty());
        }
        return Some(v);
    }
    if n % 4 != 0 {
        proof {
            lemma_b64_decode_len_multiple(s@);
        }
        return None;
    }
    let mut out: Vec<u8> = Vec::new();
    let mut i: usize = 0;
    proof {
        assert(s@.skip(0) =~= s@);
    }
    while n - i > 4
        invariant
            n == s@.len(),
            n % 4 == 0,
            i % 4 == 0,
            i + 4 <= n,
            forall|v: Seq<u8>|
                b64_decode(s@.skip(i as int)) == Some(v) ==> b64_decode(s@) == Some(out@ + v),
            b64_decode(s@.skip(i as int)) is None ==> b64_decode(s@) is None,
        decreases n - i,
    {
        let ghost rest = s@.skip(i as int);
        let c0 = s.get_char(i);
        let c1 = s.get_char(i + 1);
        let c2 = s.get_char(i + 2);
        let c3 = s.get_char(i + 3);
        proof {
            assert(rest.len() > 4);
            assert(rest[0] == c0 && rest[1] == c1 && rest[2] == c2 && rest[3] == c3);
        }
        let (v0, v1, v2, v3) = match (b64_val(c0), b64_val(c1), b64_val(c2), b64_val(c3)) {
            (Some(v0), Some(v1), Some(v2), Some(v3)) => (v0, v1, v2, v3),
            _ => {
                return None;
            },
        };
        let ghost prev = out@;
        out.push((v0 << 2) | (v1 >> 4));
        out.push(((v1 & 15) << 4) | (v2 >> 2));
        out.push(((v2 & 3) << 6) | v3);
        proof {
            assert(rest.skip(4) =~= s@.skip(i + 4));
            assert(out@ =~= prev + b64_dec_group(v0, v1, v2, v3));
            assert forall|v: Seq<u8>| b64_decode(s@.skip(i + 4)) == Some(v) implies b64_decode(
                s@,
            ) == Some(out@ + v) by {
                assert(b64_decode(rest) == Some(b64_dec_group(v0, v1, v2, v3) + v));
                assert(prev + (b64_dec_group(v0, v1, v2, v3) + v) =~= out@ + v);
            }
        }
        i = i + 4;
    }
    // exactly four characters remain
    let ghost rest = s@.skip(i as int);
    let c0 = s.get_char(i);
    let c1 = s.get_char(i + 1);
    let c2 = s.get_char(i + 2);
    let c3 = s.get_char(i + 3);
    proof {
        assert(rest.len() == 4);
        assert(rest[0] == c0 && rest[1] == c1 && rest[2] == c2 && rest[3] == c3);
    }
    let ghost prev = out@;
    if c2 == '=' && c3 == '=' {
        let (v0, v1) = match (b64_val(c0), b64_val(c1)) {
            (Some(v0), Some(v1)) => (v0, v1),
            _ => {
                return None;
            },
        };
        out.push((v0 << 2) | (v1 >> 4));
        proof {
            assert(b64_decode(rest) == Some(seq![(v0 << 2) | (v1 >> 4)]));
            assert(out@ =~= prev + seq![(v0 << 2) | (v1 >> 4)]);
        }
    } else if c3 == '=' {
        let (v0, v1, v2) = match (b64_val(c0), b64_val(c1), b64_val(c2)) {
            (Some(v0), Some(v1), Some(v2)) => (v0, v1, v2),
            _ => {
                return None;
            },
        };
        out.push((v0 << 2) | (v1 >> 4));
        out.push(((v1 & 15) << 4) | (v2 >> 2));
        proof {
            assert(b64_decode(rest) == Some(seq![(v0 << 2) | (v1 >> 4), ((v1 & 15) << 4) | (v2 >> 2)]));
            assert(out@ =~= prev + seq![(v0 << 2) | (v1 >> 4), ((v1 & 15) << 4) | (v2 >> 2)]);
        }
    } else {
        let (v0, v1, v2, v3) = match (b64_val(c0), b64_val(c1), b64_val(c2), b64_val(c3)) {
            (Some(v0), Some(v1), Some(v2), Some(v3)) => (v0, v1, v2, v3),
            _ => {
                return None;
            },
        };
        out.push((v0 << 2) | (v1 >> 4));
        out.push(((v1 & 15) << 4) | (v2 >> 2));
        out.push(((v2 & 3) << 6) | v3);
        proof {
            assert(b64_decode(rest) == Some(b64_dec_group(v0, v1, v2, v3)));
            assert(out@ =~= prev + b64_dec_group(v0, v1, v2, v3));
        }
    }
    Some(out)
}

/// Base64 text whose length is not a multiple of four decodes to nothing.
proof fn lemma_b64_decode_len_multiple(s: Seq<char>)
    requires
        s.len() % 4 != 0,
    ensures
        b64_decode(s) is None,
    decreases s.len(),
{
    if s.len() > 4 {
        if b64_decode(s) is Some {
            assert(s.skip(4).len() % 4 != 0);
            lemma_b64_decode_len_multiple(s.skip(4));
        }
    }
}

} // verus!
