use vstd::prelude::*;
use vstd::string::*;

verus! {

/// Character-wise equality of two text slices.
pub fn str_eq(a: &str, b: &str) -> (r: bool)
    ensures
        r == (a@ == b@),
{
    let na = a.unicode_len();
    let nb = b.unicode_len();
    if na != nb {
        return false;
    }
    let mut i: usize = 0;
    while i < na
        invariant
            na == a@.len(),
            nb == b@.len(),
            na == nb,
            i <= na,
            forall|k: int| 0 <= k < i ==> a@[k] == b@[k],
        decreases na - i,
    {
        if a.get_char(i) != b.get_char(i) {
            return false;
        }
        i = i + 1;
    }
    proof {
        assert(a@ =~= b@);
    }
    true
}

/// The path ends in the key-file extension `.pem`.
pub open spec fn has_pem_ext(s: Seq<char>) -> bool {
    &&& s.len() >= 4
    &&& s[s.len() - 4] == '.'
    &&& s[s.len() - 3] == 'p'
    &&& s[s.len() - 2] == 'e'
    &&& s[s.len() - 1] == 'm'
}

/// Checks that the path ends in `.pem`.
pub fn ends_with_pem(s: &str) -> (r: bool)
    ensures
        r == has_pem_ext(s@),
{
    let n = s.unicode_len();
    if n < 4 {
        return false;
    }
    s.get_char(n - 4) == '.' && s.get_char(n - 3) == 'p' && s.get_char(n - 2) == 'e' && s.get_char(
        n - 1,
    ) == 'm'
}

/// The decimal digit characters, in value order.
pub open spec fn digit_char(d: int) -> char
    recommends
        0 <= d < 10,
{
    "0123456789"@[d]
}

/// The decimal rendering of a number, most significant digit first.
pub open spec fn dec_str(n: nat) -> Seq<char>
    decreases n,
{
    if n < 10 {
        seq![digit_char(n as int)]
    } else {
        dec_str(n / 10) + seq![digit_char((n % 10) as int)]
    }
}

/// Renders a number in decimal.
pub fn num_to_string(n: usize) -> (r: String)
    ensures
        r@ == dec_str(n as nat),
    decreases n,
{
    let digits = "0123456789";
    proof {
        reveal_strlit("0123456789");
    }
    let d = n % 10;
    let piece = digits.substring_char(d, d + 1);
    proof {
        assert(piece@ =~= seq![digit_char(d as int)]);
    }
    if n < 10 {
        String::from_str(piece)
    } else {
        let rest = num_to_string(n / 10);
        rest.concat(piece)
    }
}

/// A character as it stands inside a JSON string: quote and backslash are
/// preceded by a backslash, every other character stands as itself.
pub open spec fn esc_char(c: char) -> Seq<char> {
    if c == '"' {
        seq!['\\', '"']
    } else if c == '\\' {
        seq!['\\', '\\']
    } else {
        seq![c]
    }
}

/// The body of a JSON string holding the given text.
pub open spec fn escape_chars(s: Seq<char>) -> Seq<char>
    decreases s.len(),
{
    if s.len() == 0 {
        Seq::empty()
    } else {
        esc_char(s[0]) + escape_chars(s.drop_first())
    }
}

fn escape_str_from(s: &str, i: usize, n: usize) -> (r: String)
    requires
        n == s@.len(),
        i <= n,
    ensures
        r@ == escape_chars(s@.skip(i as int)),
    decreases n - i,
{
    if i == n {
        proof {
            assert(s@.skip(i as int) =~= Seq::<char>::empty());
        }
        String::new()
    } else {
        let c = s.get_char(i);
        let rest = escape_str_from(s, i + 1, n);
        let head: String = if c == '"' {
            let h = String::from_str("\\\"");
            proof {
                reveal_strlit("\\\"");
                assert(h@ =~= esc_char(c));
            }
            h
        } else if c == '\\' {
            let h = String::from_str("\\\\");
            proof {
                reveal_strlit("\\\\");
                assert(h@ =~= esc_char(c));
            }
            h
        } else {
            let h = String::from_str(s.substring_char(i, i + 1));
            proof {
                assert(h@ =~= esc_char(c));
            }
            h
        };
        proof {
            assert(s@.skip(i as int).drop_first() =~= s@.skip(i as int + 1));
            assert(s@.skip(i as int)[0] == s@[i as int]);
        }
        head.concat(rest.as_str())
    }
}

/// Renders text as the body of a JSON string.
pub fn escape_str(s: &str) -> (r: String)
    ensures
        r@ == escape_chars(s@),
{
    let n = s.unicode_len();
    let r = escape_str_from(s, 0, n);
    proof {
        assert(s@.skip(0) =~= s@);
    }
    r
}

/// The first position of a character at or after `from`, or -1.
pub open spec fn find_from(s: Seq<char>, c: char, from: int) -> int
    decreases s.len() - from,
{
    if from < 0 || from >= s.len() {
        -1
    } else if s[from] == c {
        from
    } else {
        find_from(s, c, from + 1)
    }
}

pub proof fn lemma_find_from_first(s: Seq<char>, c: char, from: int, i: int)
    requires
        0 <= from <= i < s.len(),
        s[i] == c,
        forall|j: int| from <= j < i ==> s[j] != c,
    ensures
        find_from(s, c, from) == i,
    decreases i - from,
{
    if from < i {
        lemma_find_from_first(s, c, from + 1, i);
    }
}

pub proof fn lemma_find_from_none(s: Seq<char>, c: char, from: int)
    requires
        0 <= from,
        forall|j: int| from <= j < s.len() ==> s[j] != c,
    ensures
        find_from(s, c, from) == -1,
    decreases s.len() - from,
{
    if from < s.len() {
        lemma_find_from_none(s, c, from + 1);
    }
}

/// Finds the first position of a character at or after `from`.
pub fn find_char_from(s: &str, c: char, from: usize, n: usize) -> (r: Option<usize>)
    requires
        n == s@.len(),
        from <= n,
    ensures
        match r {
            Some(i) => i == find_from(s@, c, from as int) && from <= i < n && s@[i as int] == c,
            None => find_from(s@, c, from as int) == -1,
        },
{
    let mut i: usize = from;
    while i < n
        invariant
            n == s@.len(),
            from <= i <= n,
            forall|j: int| from <= j < i ==> s@[j] != c,
        decreases n - i,
    {
        if s.get_char(i) == c {
            proof {
                lemma_find_from_first(s@, c, from as int, i as int);
            }
            return Some(i);
        }
        i = i + 1;
    }
    proof {
        lemma_find_from_none(s@, c, from as int);
    }
    None
}

} // verus!
