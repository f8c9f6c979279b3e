use vstd::prelude::*;
use vstd::string::*;

verus! {

/// The base64url alphabet, in value order.
pub open spec fn b64_alphabet() -> Seq<char> {
    "ABCDEFGHIJKLMNOPQRSTUVWXYZabcdefghijklmnopqrstuvwxyz0123456789-_"@
}

/// The character standing for a six-bit value.
pub open spec fn b64_char(v: int) -> char
    recommends
        0 <= v < 64,
{
    b64_alphabet()[v]
}

/// The first position of a character in a sequence, or -1.
pub open spec fn find_in(s: Seq<char>, c: char) -> int
    decreases s.len(),
{
    if s.len() == 0 {
        -1
    } else if s[0] == c {
        0
    } else {
        let r = find_in(s.drop_first(), c);
        if r < 0 {
            -1
        } else {
            r + 1
        }
    }
}

/// The six-bit value of a base64url character, or -1.
pub open spec fn b64_val(c: char) -> int {
    find_in(b64_alphabet(), c)
}

proof fn lemma_find_in_first(s: Seq<char>, c: char, j: int)
    requires
        0 <= j < s.len(),
        s[j] == c,
        forall|k: int| 0 <= k < j ==> s[k] != c,
    ensures
        find_in(s, c) == j,
    decreases j,
{
    if j > 0 {
        assert(s.drop_first()[j - 1] == c);
        assert(forall|k: int| 0 <= k < j - 1 ==> s.drop_first()[k] != c);
        lemma_find_in_first(s.drop_first(), c, j - 1);
    }
}

proof fn lemma_find_in_none(s: Seq<char>, c: char)
    requires
        forall|k: int| 0 <= k < s.len() ==> s[k] != c,
    ensures
        find_in(s, c) == -1,
    decreases s.len(),
{
    if s.len() != 0 {
        assert(forall|k: int| 0 <= k < s.len() - 1 ==> s.drop_first()[k] != c);
        lemma_find_in_none(s.drop_first(), c);
    }
}

/// The base64url encoding of a byte sequence, without padding.
pub open spec fn b64_encode_bytes(b: Seq<u8>) -> Seq<char>
    decreases b.len(),
{
    if b.len() == 0 {
        Seq::empty()
    } else if b.len() == 1 {
        seq![b64_char(b[0] as int / 4), b64_char((b[0] as int % 4) * 16)]
    } else if b.len() == 2 {
        seq![
            b64_char(b[0] as int / 4),
            b64_char((b[0] as int % 4) * 16 + b[1] as int / 16),
            b64_char((b[1] as int % 16) * 4),
        ]
    } else {
        seq![
            b64_char(b[0] as int / 4),
            b64_char((b[0] as int % 4) * 16 + b[1] as int / 16),
            b64_char((b[1] as int % 16) * 4 + b[2] as int / 64),
            b64_char(b[2] as int % 64),
        ] + b64_encode_bytes(b.skip(3))
    }
}

/// The bytes a base64url text stands for: `None` when a character is outside
/// the alphabet, the length leaves a lone trailing character, or unused
/// trailing bits are not zero.
pub open spec fn b64_decode_chars(t: Seq<char>) -> Option<Seq<u8>>
    decreases t.len(),
{
    if t.len() == 0 {
        Some(Seq::empty())
    } else if t.len() == 1 {
        None
    } else {
        let v0 = b64_val(t[0]);
        let v1 = b64_val(t[1]);
        if v0 < 0 || v1 < 0 {
            None
        } else if t.len() == 2 {
            if v1 % 16 == 0 {
                Some(seq![(v0 * 4 + v1 / 16) as u8])
            } else {
                None
            }
        } else {
            let v2 = b64_val(t[2]);
            if v2 < 0 {
                None
            } else if t.len() == 3 {
                if v2 % 4 == 0 {
                    Some(seq![(v0 * 4 + v1 / 16) as u8, ((v1 % 16) * 16 + v2 / 4) as u8])
                } else {
                    None
                }
            } else {
                let v3 = b64_val(t[3]);
                if v3 < 0 {
                    None
                } else {
                    match b64_decode_chars(t.skip(4)) {
                        None => None,
                        Some(rest) => Some(
                            seq![
                                (v0 * 4 + v1 / 16) as u8,
                                ((v1 % 16) * 16 + v2 / 4) as u8,
                                ((v2 % 4) * 64 + v3) as u8,
                            ] + rest,
                        ),
                    }
                }
            }
        }
    }
}

fn b64_encode_from(b: &Vec<u8>, i: usize) -> (r: String)
    requires
        i <= b.len(),
    ensures
        r@ == b64_encode_bytes(b@.skip(i as int)),
    decreases b.len() - i,
{
    let alph = "ABCDEFGHIJKLMNOPQRSTUVWXYZabcdefghijklmnopqrstuvwxyz0123456789-_";
    proof {
        reveal_strlit("ABCDEFGHIJKLMNOPQRSTUVWXYZabcdefghijklmnopqrstuvwxyz0123456789-_");
    }
    let n = b.len();
    if i == n {
        proof {
            assert(b@.skip(i as int) =~= Seq::<u8>::empty());
        }
        return String::new();
    }
    let b0 = b[i];
    let i0 = (b0 / 4) as usize;
    let c0 = alph.substring_char(i0, i0 + 1);
    proof {
        assert(c0@ =~= seq![b64_char(b0 as int / 4)]);
    }
    if n - i == 1 {
        let i1 = ((b0 % 4) * 16) as usize;
        let c1 = alph.substring_char(i1, i1 + 1);
        proof {
            assert(c1@ =~= seq![b64_char((b0 as int % 4) * 16)]);
            assert(b@.skip(i as int).len() == 1);
        }
        let r = String::from_str(c0).concat(c1);
        proof {
            assert(r@ =~= b64_encode_bytes(b@.skip(i as int)));
        }
        r
    } else {
        let b1 = b[i + 1];
        let i1 = ((b0 % 4) * 16 + b1 / 16) as usize;
        let c1 = alph.substring_char(i1, i1 + 1);
        proof {
            assert(c1@ =~= seq![b64_char((b0 as int % 4) * 16 + b1 as int / 16)]);
        }
        if n - i == 2 {
            let i2 = ((b1 % 16) * 4) as usize;
            let c2 = alph.substring_char(i2, i2 + 1);
            proof {
                assert(c2@ =~= seq![b64_char((b1 as int % 16) * 4)]);
                assert(b@.skip(i as int).len() == 2);
            }
            let r = String::from_str(c0).concat(c1).concat(c2);
            proof {
                assert(r@ =~= b64_encode_bytes(b@.skip(i as int)));
            }
            r
        } else {
            let b2 = b[i + 2];
            let i2 = ((b1 % 16) * 4 + b2 / 64) as usize;
            let c2 = alph.substring_char(i2, i2 + 1);
            let i3 = (b2 % 64) as usize;
            let c3 = alph.substring_char(i3, i3 + 1);
            let rest = b64_encode_from(b, i + 3);
            proof {
                assert(c2@ =~= seq![b64_char((b1 as int % 16) * 4 + b2 as int / 64)]);
                assert(c3@ =~= seq![b64_char(b2 as int % 64)]);
                assert(b@.skip(i as int).skip(3) =~= b@.skip(i as int + 3));
                assert(b@.skip(i as int).len() >= 3);
            }
            let r = String::from_str(c0).concat(c1).concat(c2).concat(c3).concat(rest.as_str());
            proof {
                assert(r@ =~= b64_encode_bytes(b@.skip(i as int)));
            }
            r
        }
    }
}

/// Encodes bytes as unpadded base64url text.
pub fn b64_encode(b: &Vec<u8>) -> (r: String)
    ensures
        r@ == b64_encode_bytes(b@),
{
    let r = b64_encode_from(b, 0);
    proof {
        assert(b@.skip(0) =~= b@);
    }
    r
}

/// Looks a character up in the base64url alphabet.
fn char_val(c: char) -> (r: Option<u8>)
    ensures
        r is None ==> b64_val(c) == -1,
        r matches Some(v) ==> v == b64_val(c) && v < 64,
{
    let alph = "ABCDEFGHIJKLMNOPQRSTUVWXYZabcdefghijklmnopqrstuvwxyz0123456789-_";
    proof {
        reveal_strlit("ABCDEFGHIJKLMNOPQRSTUVWXYZabcdefghijklmnopqrstuvwxyz0123456789-_");
    }
    let mut j: usize = 0;
    while j < 64
        invariant
            j <= 64,
            alph@ == b64_alphabet(),
            alph@.len() == 64,
            forall|k: int| 0 <= k < j ==> alph@[k] != c,
        decreases 64 - j,
    {
        if alph.get_char(j) == c {
            proof {
                lemma_find_in_first(b64_alphabet(), c, j as int);
            }
            return Some(j as u8);
        }
        j = j + 1;
    }
    proof {
        lemma_find_in_none(b64_alphabet(), c);
    }
    None
}

fn b64_decode_from(s: &str, i: usize, n: usize) -> (r: Option<Vec<u8>>)
    requires
        n == s@.len(),
        i <= n,
    ensures
        match b64_decode_chars(s@.skip(i as int)) {
            None => r is None,
            Some(bs) => r matches Some(v) && v@ == bs,
        },
    decreases n - i,
{
    let ghost t = s@.skip(i as int);
    if i == n {
        proof {
            assert(t =~= Seq::<char>::empty());
        }
        return Some(Vec::new());
    }
    if n - i == 1 {
        return None;
    }
    let v0 = match char_val(s.get_char(i)) {
        None => { return None; },
        Some(v) => v,
    };
    let v1 = match char_val(s.get_char(i + 1)) {
        None => { return None; },
        Some(v) => v,
    };
    if n - i == 2 {
        if v1 % 16 == 0 {
            let mut out: Vec<u8> = Vec::new();
            out.push(v0 * 4 + v1 / 16);
            proof {
                assert(t.len() == 2);
                assert(out@ =~= b64_decode_chars(t)->Some_0);
            }
            return Some(out);
        } else {
            return None;
        }
    }
    let v2 = match char_val(s.get_char(i + 2)) {
        None => { return None; },
        Some(v) => v,
    };
    if n - i == 3 {
        if v2 % 4 == 0 {
            let mut out: Vec<u8> = Vec::new();
            out.push(v0 * 4 + v1 / 16);
            out.push((v1 % 16) * 16 + v2 / 4);
            proof {
                assert(t.len() == 3);
                assert(out@ =~= b64_decode_chars(t)->Some_0);
            }
            return Some(out);
        } else {
            return None;
        }
    }
    let v3 = match char_val(s.get_char(i + 3)) {
        None => { return None; },
        Some(v) => v,
    };
    let mut rest = match b64_decode_from(s, i + 4, n) {
        None => {
            proof {
                assert(t.skip(4) =~= s@.skip(i as int + 4));
            }
            return None;
        },
        Some(v) => v,
    };
    let mut out: Vec<u8> = Vec::new();
    out.push(v0 * 4 + v1 / 16);
    out.push((v1 % 16) * 16 + v2 / 4);
    out.push((v2 % 4) * 64 + v3);
    out.append(&mut rest);
    proof {
        assert(t.skip(4) =~= s@.skip(i as int + 4));
        assert(t.len() >= 4);
        assert(out@ =~= b64_decode_chars(t)->Some_0);
    }
    Some(out)
}

/// Decodes unpadded base64url text back to bytes.
pub fn b64_decode(s: &str) -> (r: Option<Vec<u8>>)
    ensures
        match b64_decode_chars(s@) {
            None => r is None,
            Some(bs) => r matches Some(v) && v@ == bs,
        },
{
    let n = s.unicode_len();
    let r = b64_decode_from(s, 0, n);
    proof {
        assert(s@.skip(0) =~= s@);
    }
    r
}

/// Looking the character of a six-bit value up in the alphabet gives the
/// value back, and no value's character is a dot.
pub proof fn lemma_alphabet_facts()
    ensures
        forall|v: int| 0 <= v < 64 ==> #[trigger] b64_val(b64_char(v)) == v,
        forall|v: int| 0 <= v < 64 ==> #[trigger] b64_char(v) != '.',
{
    reveal_strlit("ABCDEFGHIJKLMNOPQRSTUVWXYZabcdefghijklmnopqrstuvwxyz0123456789-_");
    assert forall|v: int| 0 <= v < 64 implies #[trigger] b64_val(b64_char(v)) == v by {
        assert(forall|k: int| 0 <= k < v ==> b64_alphabet()[k] != b64_alphabet()[v]);
        lemma_find_in_first(b64_alphabet(), b64_alphabet()[v], v);
    }
}

/// Decoding what encoding produced gives the bytes back.
pub proof fn lemma_b64_roundtrip(b: Seq<u8>)
    ensures
        b64_decode_chars(b64_encode_bytes(b)) == Some(b),
    decreases b.len(),
{
    lemma_alphabet_facts();
    let t = b64_encode_bytes(b);
    if b.len() == 0 {
        assert(Seq::<u8>::empty() =~= b);
    } else if b.len() == 1 {
        let b0 = b[0] as int;
        assert(b64_val(t[0]) == b0 / 4);
        assert(b64_val(t[1]) == (b0 % 4) * 16);
        assert(((b0 % 4) * 16) % 16 == 0);
        assert((b0 / 4) * 4 + ((b0 % 4) * 16) / 16 == b0);
        assert(b64_decode_chars(t)->Some_0 =~= b);
    } else if b.len() == 2 {
        let b0 = b[0] as int;
        let b1 = b[1] as int;
        let v0 = b0 / 4;
        let v1 = (b0 % 4) * 16 + b1 / 16;
        let v2 = (b1 % 16) * 4;
        assert(b64_val(t[0]) == v0);
        assert(b64_val(t[1]) == v1);
        assert(b64_val(t[2]) == v2);
        assert(v2 % 4 == 0);
        assert(v1 / 16 == b0 % 4);
        assert(v1 % 16 == b1 / 16);
        assert(v0 * 4 + v1 / 16 == b0);
        assert((v1 % 16) * 16 + v2 / 4 == b1);
        assert(b64_decode_chars(t)->Some_0 =~= b);
    } else {
        let b0 = b[0] as int;
        let b1 = b[1] as int;
        let b2 = b[2] as int;
        let v0 = b0 / 4;
        let v1 = (b0 % 4) * 16 + b1 / 16;
        let v2 = (b1 % 16) * 4 + b2 / 64;
        let v3 = b2 % 64;
        assert(b64_val(t[0]) == v0);
        assert(b64_val(t[1]) == v1);
        assert(b64_val(t[2]) == v2);
        assert(b64_val(t[3]) == v3);
        assert(v1 / 16 == b0 % 4);
        assert(v1 % 16 == b1 / 16);
        assert(v2 / 4 == b1 % 16);
        assert(v2 % 4 == b2 / 64);
        assert(v0 * 4 + v1 / 16 == b0);
        assert((v1 % 16) * 16 + v2 / 4 == b1);
        assert((v2 % 4) * 64 + v3 == b2);
        lemma_b64_roundtrip(b.skip(3));
        assert(t.skip(4) =~= b64_encode_bytes(b.skip(3)));
        assert(t.len() >= 4);
        assert(b64_decode_chars(t)->Some_0 =~= b);
    }
}

/// Encoded text never holds a dot.
pub proof fn lemma_b64_no_dot(b: Seq<u8>)
    ensures
        forall|k: int|
            0 <= k < b64_encode_bytes(b).len() ==> #[trigger] b64_encode_bytes(b)[k] != '.',
    decreases b.len(),
{
    lemma_alphabet_facts();
    let t = b64_encode_bytes(b);
    if b.len() >= 3 {
        lemma_b64_no_dot(b.skip(3));
        assert forall|k: int| 0 <= k < t.len() implies #[trigger] t[k] != '.' by {
            if k >= 4 {
                assert(t[k] == b64_encode_bytes(b.skip(3))[k - 4]);
            }
        }
    }
}

} // verus!
