//! Base64 (standard alphabet) for update bytes carried inside JSON
//! bodies, as ASCII text.
//!
//! The decoder accepts text of whole four-character groups with `=`
//! padding only in the last group; it is lenient about non-zero bits
//! under the padding. The encoder emits padded groups.

use vstd::prelude::*;

verus! {

/// The six-bit value of one standard-alphabet character.
pub open spec fn spec_b64_val(c: char) -> Option<int> {
    if 'A' <= c && c <= 'Z' {
        Some(c as int - 'A' as int)
    } else if 'a' <= c && c <= 'z' {
        Some(c as int - 'a' as int + 26)
    } else if '0' <= c && c <= '9' {
        Some(c as int - '0' as int + 52)
    } else if c == '+' {
        Some(62)
    } else if c == '/' {
        Some(63)
    } else {
        None
    }
}

/// The bytes the text decodes to from position `i` on: group by group,
/// with padding closing the text; `None` on a foreign character, a
/// ragged length, or padding before the last group.
pub open spec fn spec_b64_decode_at(s: Seq<char>, i: int) -> Option<Seq<u8>>
    decreases s.len() - i,
{
    if i >= s.len() {
        Some(Seq::empty())
    } else if s.len() - i < 4 {
        None
    } else {
        match (spec_b64_val(s[i]), spec_b64_val(s[i + 1])) {
            (Some(v0), Some(v1)) => if s[i + 2] == '=' {
                if s[i + 3] == '=' && i + 4 == s.len() {
                    Some(seq![(v0 * 4 + v1 / 16) as u8])
                } else {
                    None
                }
            } else {
                match spec_b64_val(s[i + 2]) {
                    Some(v2) => if s[i + 3] == '=' {
                        if i + 4 == s.len() {
                            Some(
                                seq![(v0 * 4 + v1 / 16) as u8, ((v1 % 16) * 16 + v2 / 4) as u8],
                            )
                        } else {
                            None
                        }
                    } else {
                        match spec_b64_val(s[i + 3]) {
                            Some(v3) => match spec_b64_decode_at(s, i + 4) {
                                Some(rest) => Some(
                                    seq![
                                        (v0 * 4 + v1 / 16) as u8,
                                        ((v1 % 16) * 16 + v2 / 4) as u8,
                                        ((v2 % 4) * 64 + v3) as u8,
                                    ] + rest,
                                ),
                                None => None,
                            },
                            None => None,
                        }
                    },
                    None => None,
                }
            },
            _ => None,
        }
    }
}

/// The bytes a base64 text decodes to, or `None` when it is not base64.
pub open spec fn spec_b64_decode(s: Seq<char>) -> Option<Seq<u8>> {
    spec_b64_decode_at(s, 0)
}

/// The six-bit value of one character.
fn b64_val(c: char) -> (r: Option<u8>)
    ensures
        match spec_b64_val(c) {
            Some(v) => r matches Some(b) && b == v && b < 64,
            None => r is None,
        },
{
    if 'A' <= c && c <= 'Z' {
        Some((c as u32 - 'A' as u32) as u8)
    } else if 'a' <= c && c <= 'z' {
        Some((c as u32 - 'a' as u32 + 26) as u8)
    } else if '0' <= c && c <= '9' {
        Some((c as u32 - '0' as u32 + 52) as u8)
    } else if c == '+' {
        Some(62)
    } else if c == '/' {
        Some(63)
    } else {
        None
    }
}

/// Decode a base64 text; `None` when it is not base64.
pub fn b64_decode(s: &str) -> (r: Option<Vec<u8>>)
    ensures
        match spec_b64_decode(s@) {
            Some(bs) => r matches Some(v) && v@ == bs,
            None => r is None,
        },
{
    let n = s.unicode_len();
    let mut out: Vec<u8> = Vec::new();
    let mut i: usize = 0;
    loop
        invariant
            n == s@.len(),
            i <= n,
            match spec_b64_decode_at(s@, i as int) {
                Some(rest) => spec_b64_decode(s@) == Some(out@ + rest),
                None => spec_b64_decode(s@) is None,
            },
        decreases n - i,
    {
        if i >= n {
            proof {
                assert(out@ + Seq::<u8>::empty() =~= out@);
            }
            return Some(out);
        }
        if n - i < 4 {
            return None;
        }
        let v0 = match b64_val(s.get_char(i)) {
            Some(v) => v,
            None => {
                return None;
            },
        };
        let v1 = match b64_val(s.get_char(i + 1)) {
            Some(v) => v,
            None => {
                return None;
            },
        };
        let c2 = s.get_char(i + 2);
        let c3 = s.get_char(i + 3);
        if c2 == '=' {
            if c3 == '=' && i + 4 == n {
                out.push(v0 * 4 + v1 / 16);
                proof {
                    assert(spec_b64_decode_at(s@, i as int + 4) == Some(Seq::<u8>::empty()));
                    assert(out@ =~= out@ + Seq::<u8>::empty());
                }
                return Some(out);
            }
            return None;
        }
        let v2 = match b64_val(c2) {
            Some(v) => v,
            None => {
                return None;
            },
        };
        if c3 == '=' {
            if i + 4 == n {
                out.push(v0 * 4 + v1 / 16);
                out.push((v1 % 16) * 16 + v2 / 4);
                proof {
                    assert(spec_b64_decode_at(s@, i as int + 4) == Some(Seq::<u8>::empty()));
                    assert(out@ =~= out@ + Seq::<u8>::empty());
                }
                return Some(out);
            }
            return None;
        }
        let v3 = match b64_val(c3) {
            Some(v) => v,
            None => {
                return None;
            },
        };
        let ghost before = out@;
        out.push(v0 * 4 + v1 / 16);
        out.push((v1 % 16) * 16 + v2 / 4);
        out.push((v2 % 4) * 64 + v3);
        proof {
            let group = seq![
                (v0 * 4 + v1 / 16) as u8,
                ((v1 % 16) * 16 + v2 / 4) as u8,
                ((v2 % 4) * 64 + v3) as u8,
            ];
            assert(out@ =~= before + group);
            match spec_b64_decode_at(s@, i as int + 4) {
                Some(rest) => {
                    assert(before + (group + rest) =~= out@ + rest);
                },
                None => {},
            }
        }
        i = i + 4;
    }
}


/// The ASCII code of the standard-alphabet character for a six-bit value.
pub open spec fn spec_b64_code(v: int) -> u8
    recommends
        0 <= v < 64,
{
    if v < 26 {
        ('A' as u8 + v) as u8
    } else if v < 52 {
        ('a' as u8 + (v - 26)) as u8
    } else if v < 62 {
        ('0' as u8 + (v - 52)) as u8
    } else if v == 62 {
        '+' as u8
    } else {
        '/' as u8
    }
}

/// The ASCII base64 text of a byte sequence: three bytes to four
/// characters, the trailing group padded with `=`.
pub open spec fn spec_b64_encode(b: Seq<u8>) -> Seq<u8>
    decreases b.len(),
{
    if b.len() == 0 {
        Seq::empty()
    } else if b.len() == 1 {
        seq![
            spec_b64_code(b[0] as int / 4),
            spec_b64_code((b[0] as int % 4) * 16),
            '=' as u8,
            '=' as u8,
        ]
    } else if b.len() == 2 {
        seq![
            spec_b64_code(b[0] as int / 4),
            spec_b64_code((b[0] as int % 4) * 16 + b[1] as int / 16),
            spec_b64_code((b[1] as int % 16) * 4),
            '=' as u8,
        ]
    } else {
        seq![
            spec_b64_code(b[0] as int / 4),
            spec_b64_code((b[0] as int % 4) * 16 + b[1] as int / 16),
            spec_b64_code((b[1] as int % 16) * 4 + b[2] as int / 64),
            spec_b64_code(b[2] as int % 64),
        ] + spec_b64_encode(b.skip(3))
    }
}

/// The character for a six-bit value.
fn b64_code(v: u8) -> (r: u8)
    requires
        v < 64,
    ensures
        r == spec_b64_code(v as int),
{
    if v < 26 {
        'A' as u8 + v
    } else if v < 52 {
        'a' as u8 + (v - 26)
    } else if v < 62 {
        '0' as u8 + (v - 52)
    } else if v == 62 {
        '+' as u8
    } else {
        '/' as u8
    }
}

/// Encode bytes as padded base64, in ASCII.
pub fn b64_encode(b: &[u8]) -> (r: Vec<u8>)
    ensures
        r@ == spec_b64_encode(b@),
{
    let mut out: Vec<u8> = Vec::new();
    let mut i: usize = 0;
    let n = b.len();
    proof {
        assert(b@.skip(0) =~= b@);
        assert(out@ + spec_b64_encode(b@) =~= spec_b64_encode(b@));
    }
    loop
        invariant
            n == b@.len(),
            i <= n,
            spec_b64_encode(b@) == out@ + spec_b64_encode(b@.skip(i as int)),
        decreases n - i,
    {
        let ghost tail = b@.skip(i as int);
        proof {
            assert(forall|j: int| 0 <= j < tail.len() ==> tail[j] == b@[j + i]);
        }
        if i >= n {
            proof {
                assert(out@ + Seq::<u8>::empty() =~= out@);
            }
            return out;
        }
        let b0 = *vstd::slice::slice_index_get(b, i);
        if n - i == 1 {
            out.push(b64_code(b0 / 4));
            out.push(b64_code((b0 % 4) * 16));
            out.push('=' as u8);
            out.push('=' as u8);
            proof {
                assert(out@ =~= spec_b64_encode(b@));
            }
            return out;
        }
        let b1 = *vstd::slice::slice_index_get(b, i + 1);
        if n - i == 2 {
            out.push(b64_code(b0 / 4));
            out.push(b64_code((b0 % 4) * 16 + b1 / 16));
            out.push(b64_code((b1 % 16) * 4));
            out.push('=' as u8);
            proof {
                assert(out@ =~= spec_b64_encode(b@));
            }
            return out;
        }
        let b2 = *vstd::slice::slice_index_get(b, i + 2);
        let ghost before = out@;
        out.push(b64_code(b0 / 4));
        out.push(b64_code((b0 % 4) * 16 + b1 / 16));
        out.push(b64_code((b1 % 16) * 4 + b2 / 64));
        out.push(b64_code(b2 % 64));
        proof {
            let group = seq![
                spec_b64_code(tail[0] as int / 4),
                spec_b64_code((tail[0] as int % 4) * 16 + tail[1] as int / 16),
                spec_b64_code((tail[1] as int % 16) * 4 + tail[2] as int / 64),
                spec_b64_code(tail[2] as int % 64),
            ];
            assert(out@ =~= before + group);
            assert(tail.skip(3) =~= b@.skip(i as int + 3));
            assert(before + (group + spec_b64_encode(tail.skip(3))) =~= out@ + spec_b64_encode(
                b@.skip(i as int + 3),
            ));
        }
        i = i + 3;
    }
}

}
