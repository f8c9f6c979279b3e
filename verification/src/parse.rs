use vstd::prelude::*;
use vstd::string::*;
use crate::text::{digit_char, dec_str, esc_char, escape_chars, str_eq};

verus! {

/// A decimal digit character.
pub open spec fn is_digit_char(c: char) -> bool {
    48 <= c as u32 <= 57
}

/// The value of a decimal digit character.
pub open spec fn digit_val(c: char) -> int {
    c as u32 - 48
}

/// The body of a JSON string starting at `pos`, read up to its closing
/// quote: the text it stands for and the position after the quote. A
/// backslash must be followed by a quote or a backslash.
pub open spec fn sp_string_body(s: Seq<char>, pos: int) -> Option<(Seq<char>, int)>
    decreases s.len() - pos,
{
    if pos < 0 || pos >= s.len() {
        None
    } else if s[pos] == '"' {
        Some((Seq::empty(), pos + 1))
    } else if s[pos] == '\\' {
        if pos + 1 < s.len() && (s[pos + 1] == '"' || s[pos + 1] == '\\') {
            match sp_string_body(s, pos + 2) {
                None => None,
                Some((t, p)) => Some((seq![s[pos + 1]] + t, p)),
            }
        } else {
            None
        }
    } else {
        match sp_string_body(s, pos + 1) {
            None => None,
            Some((t, p)) => Some((seq![s[pos]] + t, p)),
        }
    }
}

/// Reading a string body always moves forward and stays inside the text.
pub proof fn lemma_string_body_progress(s: Seq<char>, pos: int)
    ensures
        sp_string_body(s, pos) matches Some(x) ==> pos < x.1 <= s.len(),
    decreases s.len() - pos,
{
    if 0 <= pos < s.len() && s[pos] != '"' {
        if s[pos] == '\\' {
            if pos + 1 < s.len() {
                lemma_string_body_progress(s, pos + 2);
            }
        } else {
            lemma_string_body_progress(s, pos + 1);
        }
    }
}

/// A whole JSON string at `pos`: opening quote, body, closing quote.
pub open spec fn sp_json_string(s: Seq<char>, pos: int) -> Option<(Seq<char>, int)> {
    if 0 <= pos < s.len() && s[pos] == '"' {
        sp_string_body(s, pos + 1)
    } else {
        None
    }
}

/// Reading a whole JSON string moves forward and stays inside the text.
pub proof fn lemma_json_string_progress(s: Seq<char>, pos: int)
    ensures
        sp_json_string(s, pos) matches Some(x) ==> pos < x.1 <= s.len(),
{
    lemma_string_body_progress(s, pos + 1);
}

fn ep_string_body(s: &str, pos: usize, n: usize) -> (r: Option<(String, usize)>)
    requires
        n == s@.len(),
        pos <= n,
    ensures
        match sp_string_body(s@, pos as int) {
            None => r is None,
            Some(x) => r matches Some(y) && y.0@ == x.0 && y.1 == x.1 && y.1 <= n,
        },
    decreases n - pos,
{
    proof {
        lemma_string_body_progress(s@, pos as int);
    }
    if pos == n {
        return None;
    }
    let c = s.get_char(pos);
    if c == '"' {
        Some((String::new(), pos + 1))
    } else if c == '\\' {
        if pos + 1 == n {
            return None;
        }
        let c2 = s.get_char(pos + 1);
        if c2 == '"' || c2 == '\\' {
            match ep_string_body(s, pos + 2, n) {
                None => None,
                Some((t, p)) => {
                    let head = s.substring_char(pos + 1, pos + 2);
                    let piece = String::from_str(head).concat(t.as_str());
                    proof {
                        assert(piece@ =~= seq![s@[pos as int + 1]] + t@);
                    }
                    Some((piece, p))
                },
            }
        } else {
            None
        }
    } else {
        match ep_string_body(s, pos + 1, n) {
            None => None,
            Some((t, p)) => {
                let head = s.substring_char(pos, pos + 1);
                let piece = String::from_str(head).concat(t.as_str());
                proof {
                    assert(piece@ =~= seq![s@[pos as int]] + t@);
                }
                Some((piece, p))
            },
        }
    }
}

fn ep_json_string(s: &str, pos: usize, n: usize) -> (r: Option<(String, usize)>)
    requires
        n == s@.len(),
        pos <= n,
    ensures
        match sp_json_string(s@, pos as int) {
            None => r is None,
            Some(x) => r matches Some(y) && y.0@ == x.0 && y.1 == x.1 && y.1 <= n,
        },
{
    if pos == n {
        return None;
    }
    if s.get_char(pos) != '"' {
        return None;
    }
    ep_string_body(s, pos + 1, n)
}

/// Digits read from `pos` into an accumulated value: the value and the
/// position after the last digit.
pub open spec fn sp_digits(s: Seq<char>, pos: int, acc: int) -> (int, int)
    decreases s.len() - pos,
{
    if pos < 0 || pos >= s.len() || !is_digit_char(s[pos]) {
        (acc, pos)
    } else {
        sp_digits(s, pos + 1, acc * 10 + digit_val(s[pos]))
    }
}

/// Digit reading only grows the value and moves forward inside the text.
pub proof fn lemma_sp_digits_bounds(s: Seq<char>, pos: int, acc: int)
    requires
        acc >= 0,
    ensures
        sp_digits(s, pos, acc).0 >= acc,
        sp_digits(s, pos, acc).1 >= pos,
        pos <= s.len() ==> sp_digits(s, pos, acc).1 <= s.len(),
    decreases s.len() - pos,
{
    if 0 <= pos < s.len() && is_digit_char(s[pos]) {
        lemma_sp_digits_bounds(s, pos + 1, acc * 10 + digit_val(s[pos]));
    }
}

/// A decimal number at `pos`: its value and the position after its digits,
/// or nothing when no digit stands at `pos`.
pub open spec fn sp_number(s: Seq<char>, pos: int) -> Option<(int, int)> {
    if 0 <= pos < s.len() && is_digit_char(s[pos]) {
        Some(sp_digits(s, pos, 0))
    } else {
        None
    }
}

/// Reading a number moves forward and stays inside the text.
pub proof fn lemma_number_progress(s: Seq<char>, pos: int)
    ensures
        sp_number(s, pos) matches Some(x) ==> pos < x.1 <= s.len(),
{
    if 0 <= pos < s.len() && is_digit_char(s[pos]) {
        lemma_sp_digits_bounds(s, pos + 1, digit_val(s[pos]));
    }
}

fn ep_number(s: &str, pos: usize, n: usize) -> (r: Option<(usize, usize)>)
    requires
        n == s@.len(),
        pos <= n,
    ensures
        match sp_number(s@, pos as int) {
            None => r is None,
            Some(x) => if x.0 <= usize::MAX {
                r matches Some(y) && y.0 == x.0 && y.1 == x.1 && y.1 <= n
            } else {
                r is None
            },
        },
{
    proof {
        lemma_number_progress(s@, pos as int);
    }
    if pos == n {
        return None;
    }
    let c0 = s.get_char(pos) as u32;
    if !(48 <= c0 && c0 <= 57) {
        return None;
    }
    let mut i: usize = pos;
    let mut acc: usize = 0;
    loop
        invariant
            n == s@.len(),
            pos < n,
            is_digit_char(s@[pos as int]),
            pos <= i <= n,
            sp_digits(s@, pos as int, 0) == sp_digits(s@, i as int, acc as int),
        decreases n - i,
    {
        if i == n {
            proof {
                assert(sp_digits(s@, i as int, acc as int) == (acc as int, i as int));
                assert(sp_number(s@, pos as int) == Some((acc as int, i as int)));
            }
            return Some((acc, i));
        }
        let cu = s.get_char(i) as u32;
        if !(48 <= cu && cu <= 57) {
            proof {
                assert(!is_digit_char(s@[i as int]));
                assert(sp_digits(s@, i as int, acc as int) == (acc as int, i as int));
                assert(sp_number(s@, pos as int) == Some((acc as int, i as int)));
            }
            return Some((acc, i));
        }
        let d = (cu - 48) as usize;
        if acc > (usize::MAX - d) / 10 {
            proof {
                lemma_sp_digits_bounds(s@, i as int + 1, acc as int * 10 + d);
                assert(sp_digits(s@, i as int, acc as int).0 >= acc as int * 10 + d);
                assert(acc as int * 10 + d > usize::MAX);
            }
            return None;
        }
        acc = acc * 10 + d;
        i = i + 1;
    }
}

/// The members of the extra-information object, read from after its opening
/// brace to its closing brace: the entries in order and the position after
/// the brace.
pub open spec fn sp_inf_members(s: Seq<char>, pos: int) -> Option<(Seq<(Seq<char>, Seq<char>)>, int)>
    decreases s.len() - pos,
    via sp_inf_members_dec
{
    if pos < 0 || pos >= s.len() || s[pos] != '"' {
        None
    } else {
        match sp_string_body(s, pos + 1) {
            None => None,
            Some((k, p1)) => if p1 >= s.len() || s[p1] != ':' {
                None
            } else {
                match sp_json_string(s, p1 + 1) {
                    None => None,
                    Some((v, p2)) => if p2 >= s.len() {
                        None
                    } else if s[p2] == '}' {
                        Some((seq![(k, v)], p2 + 1))
                    } else if s[p2] == ',' {
                        match sp_inf_members(s, p2 + 1) {
                            None => None,
                            Some((rest, p3)) => Some((seq![(k, v)] + rest, p3)),
                        }
                    } else {
                        None
                    },
                }
            },
        }
    }
}

#[via_fn]
proof fn sp_inf_members_dec(s: Seq<char>, pos: int) {
    lemma_string_body_progress(s, pos + 1);
    match sp_string_body(s, pos + 1) {
        Some((k, p1)) => lemma_json_string_progress(s, p1 + 1),
        None => (),
    }
}

/// Reading the members of the extra-information object moves forward and
/// stays inside the text.
pub proof fn lemma_inf_members_progress(s: Seq<char>, pos: int)
    ensures
        sp_inf_members(s, pos) matches Some(x) ==> pos < x.1 <= s.len(),
    decreases s.len() - pos,
{
    if 0 <= pos < s.len() && s[pos] == '"' {
        lemma_string_body_progress(s, pos + 1);
        match sp_string_body(s, pos + 1) {
            Some((k, p1)) => {
                lemma_json_string_progress(s, p1 + 1);
                match sp_json_string(s, p1 + 1) {
                    Some((v, p2)) => {
                        if p1 < s.len() && s[p1] == ':' && p2 < s.len() && s[p2] == ',' {
                            lemma_inf_members_progress(s, p2 + 1);
                        }
                    },
                    None => (),
                }
            },
            None => (),
        }
    }
}

/// The extra-information object at `pos`: its entries and the position
/// after its closing brace.
pub open spec fn sp_inf_object(s: Seq<char>, pos: int) -> Option<(Seq<(Seq<char>, Seq<char>)>, int)> {
    if pos < 0 || pos >= s.len() || s[pos] != '{' {
        None
    } else if pos + 1 < s.len() && s[pos + 1] == '}' {
        Some((Seq::empty(), pos + 2))
    } else {
        sp_inf_members(s, pos + 1)
    }
}

fn ep_inf_members(s: &str, pos: usize, n: usize) -> (r: Option<(Vec<(String, String)>, usize)>)
    requires
        n == s@.len(),
        pos <= n,
    ensures
        match sp_inf_members(s@, pos as int) {
            None => r is None,
            Some(x) => r matches Some(y) && y.0.deep_view() == x.0 && y.1 == x.1 && y.1 <= n,
        },
    decreases n - pos,
{
    proof {
        lemma_inf_members_progress(s@, pos as int);
    }
    if pos == n {
        return None;
    }
    if s.get_char(pos) != '"' {
        return None;
    }
    let (k, p1) = match ep_string_body(s, pos + 1, n) {
        None => { return None; },
        Some(x) => x,
    };
    if p1 == n {
        return None;
    }
    if s.get_char(p1) != ':' {
        return None;
    }
    let (v, p2) = match ep_json_string(s, p1 + 1, n) {
        None => { return None; },
        Some(x) => x,
    };
    if p2 == n {
        return None;
    }
    let t = s.get_char(p2);
    if t == '}' {
        let mut out: Vec<(String, String)> = Vec::new();
        out.push((k, v));
        proof {
            assert(out.deep_view() =~= seq![(k@, v@)]);
        }
        return Some((out, p2 + 1));
    }
    if t == ',' {
        proof {
            lemma_string_body_progress(s@, pos as int + 1);
            lemma_json_string_progress(s@, p1 as int + 1);
        }
        let (mut rest, p3) = match ep_inf_members(s, p2 + 1, n) {
            None => { return None; },
            Some(x) => x,
        };
        let ghost rest_v = rest.deep_view();
        let mut out: Vec<(String, String)> = Vec::new();
        out.push((k, v));
        out.append(&mut rest);
        proof {
            assert(out.deep_view() =~= seq![(k@, v@)] + rest_v);
        }
        return Some((out, p3));
    }
    None
}

fn ep_inf_object(s: &str, pos: usize, n: usize) -> (r: Option<(Vec<(String, String)>, usize)>)
    requires
        n == s@.len(),
        pos <= n,
    ensures
        match sp_inf_object(s@, pos as int) {
            None => r is None,
            Some(x) => r matches Some(y) && y.0.deep_view() == x.0 && y.1 == x.1 && y.1 <= n,
        },
{
    if pos == n {
        return None;
    }
    if s.get_char(pos) != '{' {
        return None;
    }
    if pos + 1 < n && s.get_char(pos + 1) == '}' {
        let out: Vec<(String, String)> = Vec::new();
        proof {
            assert(out.deep_view() =~= Seq::<(Seq<char>, Seq<char>)>::empty());
        }
        return Some((out, pos + 2));
    }
    ep_inf_members(s, pos + 1, n)
}

/// The fields gathered while the members of a payload are read: each is
/// still unset or has been seen exactly once.
pub struct ClaimsAccV {
    pub aud: Option<Seq<char>>,
    pub exp: Option<usize>,
    pub iat: Option<usize>,
    pub iss: Option<Seq<char>>,
    pub nbf: Option<usize>,
    pub sub: Option<Seq<char>>,
    pub inf: Option<Seq<(Seq<char>, Seq<char>)>>,
}

/// How many fields are still unset.
pub open spec fn none_count(a: ClaimsAccV) -> nat {
    (if a.aud is None { 1nat } else { 0nat }) + (if a.exp is None { 1nat } else { 0nat }) + (
    if a.iat is None { 1nat } else { 0nat }) + (if a.iss is None { 1nat } else { 0nat }) + (
    if a.nbf is None { 1nat } else { 0nat }) + (if a.sub is None { 1nat } else { 0nat }) + (
    if a.inf is None { 1nat } else { 0nat })
}

/// An accumulator with every field unset.
pub open spec fn empty_acc() -> ClaimsAccV {
    ClaimsAccV { aud: None, exp: None, iat: None, iss: None, nbf: None, sub: None, inf: None }
}

/// One member's value read at `pos` under the given key: the accumulator
/// with that field set and the position after the value. A key that is
/// unknown, a key seen twice, and a number too large for the machine are
/// rejected.
pub open spec fn sp_member_step(s: Seq<char>, pos: int, key: Seq<char>, acc: ClaimsAccV) -> Option<
    (ClaimsAccV, int),
> {
    if key == "aud"@ {
        if acc.aud is Some {
            None
        } else {
            match sp_json_string(s, pos) {
                None => None,
                Some((v, p)) => Some((ClaimsAccV { aud: Some(v), ..acc }, p)),
            }
        }
    } else if key == "exp"@ {
        if acc.exp is Some {
            None
        } else {
            match sp_number(s, pos) {
                None => None,
                Some((v, p)) => if v <= usize::MAX {
                    Some((ClaimsAccV { exp: Some(v as usize), ..acc }, p))
                } else {
                    None
                },
            }
        }
    } else if key == "iat"@ {
        if acc.iat is Some {
            None
        } else {
            match sp_number(s, pos) {
                None => None,
                Some((v, p)) => if v <= usize::MAX {
                    Some((ClaimsAccV { iat: Some(v as usize), ..acc }, p))
                } else {
                    None
                },
            }
        }
    } else if key == "iss"@ {
        if acc.iss is Some {
            None
        } else {
            match sp_json_string(s, pos) {
                None => None,
                Some((v, p)) => Some((ClaimsAccV { iss: Some(v), ..acc }, p)),
            }
        }
    } else if key == "nbf"@ {
        if acc.nbf is Some {
            None
        } else {
            match sp_number(s, pos) {
                None => None,
                Some((v, p)) => if v <= usize::MAX {
                    Some((ClaimsAccV { nbf: Some(v as usize), ..acc }, p))
                } else {
                    None
                },
            }
        }
    } else if key == "sub"@ {
        if acc.sub is Some {
            None
        } else {
            match sp_json_string(s, pos) {
                None => None,
                Some((v, p)) => Some((ClaimsAccV { sub: Some(v), ..acc }, p)),
            }
        }
    } else if key == "inf"@ {
        if acc.inf is Some {
            None
        } else {
            match sp_inf_object(s, pos) {
                None => None,
                Some((m, p)) => Some((ClaimsAccV { inf: Some(m), ..acc }, p)),
            }
        }
    } else {
        None
    }
}

/// A member step always sets one more field.
pub proof fn lemma_member_step_shrinks(s: Seq<char>, pos: int, key: Seq<char>, acc: ClaimsAccV)
    ensures
        sp_member_step(s, pos, key, acc) matches Some(x) ==> none_count(x.0) < none_count(acc),
{
}

/// The members of a payload object, read from after the opening brace to
/// the closing brace: the gathered fields and the position after the brace.
pub open spec fn sp_members(s: Seq<char>, pos: int, acc: ClaimsAccV) -> Option<(ClaimsAccV, int)>
    decreases none_count(acc),
    via sp_members_dec
{
    if pos < 0 || pos >= s.len() || s[pos] != '"' {
        None
    } else {
        match sp_string_body(s, pos + 1) {
            None => None,
            Some((key, p1)) => if p1 >= s.len() || s[p1] != ':' {
                None
            } else {
                match sp_member_step(s, p1 + 1, key, acc) {
                    None => None,
                    Some((acc2, p2)) => if p2 >= s.len() {
                        None
                    } else if s[p2] == '}' {
                        Some((acc2, p2 + 1))
                    } else if s[p2] == ',' {
                        sp_members(s, p2 + 1, acc2)
                    } else {
                        None
                    },
                }
            },
        }
    }
}

#[via_fn]
proof fn sp_members_dec(s: Seq<char>, pos: int, acc: ClaimsAccV) {
    match sp_string_body(s, pos + 1) {
        Some((key, p1)) => lemma_member_step_shrinks(s, p1 + 1, key, acc),
        None => (),
    }
}

/// The whole payload object: every character consumed, the gathered fields
/// returned.
pub open spec fn sp_payload(t: Seq<char>) -> Option<ClaimsAccV> {
    if t.len() < 2 || t[0] != '{' {
        None
    } else if t[1] == '}' {
        if t.len() == 2 {
            Some(empty_acc())
        } else {
            None
        }
    } else {
        match sp_members(t, 1, empty_acc()) {
            None => None,
            Some((acc, p)) => if p == t.len() {
                Some(acc)
            } else {
                None
            },
        }
    }
}

/// The fields gathered while a payload is read, as runtime values.
pub struct ClaimsAcc {
    pub aud: Option<String>,
    pub exp: Option<usize>,
    pub iat: Option<usize>,
    pub iss: Option<String>,
    pub nbf: Option<usize>,
    pub sub: Option<String>,
    pub inf: Option<Vec<(String, String)>>,
}

impl View for ClaimsAcc {
    type V = ClaimsAccV;

    open spec fn view(&self) -> ClaimsAccV {
        ClaimsAccV {
            aud: self.aud.deep_view(),
            exp: self.exp,
            iat: self.iat,
            iss: self.iss.deep_view(),
            nbf: self.nbf,
            sub: self.sub.deep_view(),
            inf: self.inf.deep_view(),
        }
    }
}

fn ep_members(s: &str, pos: usize, n: usize, acc: ClaimsAcc) -> (r: Option<(ClaimsAcc, usize)>)
    requires
        n == s@.len(),
        pos <= n,
    ensures
        match sp_members(s@, pos as int, acc@) {
            None => r is None,
            Some(x) => r matches Some(y) && y.0@ == x.0 && y.1 == x.1 && y.1 <= n,
        },
    decreases none_count(acc@),
{
    if pos == n {
        return None;
    }
    if s.get_char(pos) != '"' {
        return None;
    }
    let (key, p1) = match ep_string_body(s, pos + 1, n) {
        None => { return None; },
        Some(x) => x,
    };
    if p1 == n {
        return None;
    }
    if s.get_char(p1) != ':' {
        return None;
    }
    let pv = p1 + 1;
    let acc2: ClaimsAcc;
    let p2: usize;
    if str_eq(key.as_str(), "aud") {
        if acc.aud.is_some() {
            return None;
        }
        match ep_json_string(s, pv, n) {
            None => { return None; },
            Some((v, p)) => {
                acc2 = ClaimsAcc { aud: Some(v), ..acc };
                p2 = p;
            },
        }
    } else if str_eq(key.as_str(), "exp") {
        if acc.exp.is_some() {
            return None;
        }
        match ep_number(s, pv, n) {
            None => { return None; },
            Some((v, p)) => {
                acc2 = ClaimsAcc { exp: Some(v), ..acc };
                p2 = p;
            },
        }
    } else if str_eq(key.as_str(), "iat") {
        if acc.iat.is_some() {
            return None;
        }
        match ep_number(s, pv, n) {
            None => { return None; },
            Some((v, p)) => {
                acc2 = ClaimsAcc { iat: Some(v), ..acc };
                p2 = p;
            },
        }
    } else if str_eq(key.as_str(), "iss") {
        if acc.iss.is_some() {
            return None;
        }
        match ep_json_string(s, pv, n) {
            None => { return None; },
            Some((v, p)) => {
                acc2 = ClaimsAcc { iss: Some(v), ..acc };
                p2 = p;
            },
        }
    } else if str_eq(key.as_str(), "nbf") {
        if acc.nbf.is_some() {
            return None;
        }
        match ep_number(s, pv, n) {
            None => { return None; },
            Some((v, p)) => {
                acc2 = ClaimsAcc { nbf: Some(v), ..acc };
                p2 = p;
            },
        }
    } else if str_eq(key.as_str(), "sub") {
        if acc.sub.is_some() {
            return None;
        }
        match ep_json_string(s, pv, n) {
            None => { return None; },
            Some((v, p)) => {
                acc2 = ClaimsAcc { sub: Some(v), ..acc };
                p2 = p;
            },
        }
    } else if str_eq(key.as_str(), "inf") {
        if acc.inf.is_some() {
            return None;
        }
        match ep_inf_object(s, pv, n) {
            None => { return None; },
            Some((m, p)) => {
                acc2 = ClaimsAcc { inf: Some(m), ..acc };
                p2 = p;
            },
        }
    } else {
        return None;
    }
    if p2 == n {
        return None;
    }
    let t = s.get_char(p2);
    if t == '}' {
        return Some((acc2, p2 + 1));
    }
    if t == ',' {
        proof {
            lemma_member_step_shrinks(s@, pv as int, key@, acc@);
        }
        return ep_members(s, p2 + 1, n, acc2);
    }
    None
}

/// Reads a whole payload object back into its fields. The result answers
/// exactly to the wire grammar: any other text is rejected.
pub fn parse_payload(s: &str) -> (r: Option<ClaimsAcc>)
    ensures
        match sp_payload(s@) {
            None => r is None,
            Some(a) => r matches Some(x) && x@ == a,
        },
{
    let n = s.unicode_len();
    if n < 2 {
        return None;
    }
    if s.get_char(0) != '{' {
        return None;
    }
    if s.get_char(1) == '}' {
        if n == 2 {
            let acc = ClaimsAcc {
                aud: None,
                exp: None,
                iat: None,
                iss: None,
                nbf: None,
                sub: None,
                inf: None,
            };
            return Some(acc);
        } else {
            return None;
        }
    }
    let acc0 = ClaimsAcc { aud: None, exp: None, iat: None, iss: None, nbf: None, sub: None, inf: None };
    match ep_members(s, 1, n, acc0) {
        None => None,
        Some((acc, p)) => if p == n {
            Some(acc)
        } else {
            None
        },
    }
}

/// The algorithm name carried by a token header in wire form: the header
/// must be exactly the canonical header and the name free of quotes.
pub open spec fn sp_header_alg(t: Seq<char>) -> Option<Seq<char>> {
    let prefix = "{\"typ\":\"JWT\",\"alg\":\""@;
    if t.len() >= prefix.len() + 2 && t.subrange(0, prefix.len() as int) == prefix && t[t.len()
        - 2] == '"' && t[t.len() - 1] == '}' && (forall|k: int|
        prefix.len() <= k < t.len() - 2 ==> t[k] != '"') {
        Some(t.subrange(prefix.len() as int, t.len() - 2))
    } else {
        None
    }
}

/// Reads the algorithm name out of a token header in wire form.
pub fn parse_header_alg(s: &str) -> (r: Option<String>)
    ensures
        match sp_header_alg(s@) {
            None => r is None,
            Some(a) => r matches Some(x) && x@ == a,
        },
{
    let prefix = "{\"typ\":\"JWT\",\"alg\":\"";
    let plen = prefix.unicode_len();
    let n = s.unicode_len();
    if n < 2 || n - 2 < plen {
        return None;
    }
    if !str_eq(s.substring_char(0, plen), prefix) {
        return None;
    }
    if s.get_char(n - 2) != '"' {
        return None;
    }
    if s.get_char(n - 1) != '}' {
        return None;
    }
    let mut k: usize = plen;
    while k < n - 2
        invariant
            n == s@.len(),
            plen == "{\"typ\":\"JWT\",\"alg\":\""@.len(),
            plen <= k <= n - 2,
            n >= plen + 2,
            forall|j: int| plen <= j < k ==> s@[j] != '"',
        decreases n - k,
    {
        if s.get_char(k) == '"' {
            return None;
        }
        k = k + 1;
    }
    Some(String::from_str(s.substring_char(plen, n - 2)))
}

/// Reading a string body inverts escaping: where the text holds the escaped
/// form of `s` followed by a closing quote, the body read back is `s`.
pub proof fn lemma_string_body_inverse(u: Seq<char>, pos: int, s: Seq<char>)
    requires
        0 <= pos,
        pos + escape_chars(s).len() + 1 <= u.len(),
        u.subrange(pos, pos + escape_chars(s).len()) == escape_chars(s),
        u[pos + escape_chars(s).len()] == '"',
    ensures
        sp_string_body(u, pos) == Some((s, pos + escape_chars(s).len() + 1)),
    decreases s.len(),
{
    let e = escape_chars(s);
    if s.len() == 0 {
        assert(e =~= Seq::<char>::empty());
        assert(u[pos] == '"');
        assert(sp_string_body(u, pos) == Some((Seq::<char>::empty(), pos + 1)));
        assert(s =~= Seq::<char>::empty());
    } else {
        let c = s[0];
        let rest = s.drop_first();
        let erest = escape_chars(rest);
        assert(e == esc_char(c) + erest);
        if c == '"' || c == '\\' {
            assert(e[0] == '\\');
            assert(e[1] == c);
            assert(u[pos] == e[0]);
            assert(u[pos + 1] == e[1]);
            assert forall|t: int| 0 <= t < erest.len() implies u.subrange(
                pos + 2,
                pos + 2 + erest.len(),
            )[t] == erest[t] by {
                assert(u.subrange(pos, pos + e.len())[2 + t] == e[2 + t]);
            }
            assert(u.subrange(pos + 2, pos + 2 + erest.len()) =~= erest);
            lemma_string_body_inverse(u, pos + 2, rest);
            assert(seq![u[pos + 1]] + rest =~= s);
        } else {
            assert(e[0] == c);
            assert(u[pos] == c);
            assert forall|t: int| 0 <= t < erest.len() implies u.subrange(
                pos + 1,
                pos + 1 + erest.len(),
            )[t] == erest[t] by {
                assert(u.subrange(pos, pos + e.len())[1 + t] == e[1 + t]);
            }
            assert(u.subrange(pos + 1, pos + 1 + erest.len()) =~= erest);
            lemma_string_body_inverse(u, pos + 1, rest);
            assert(seq![u[pos]] + rest =~= s);
        }
    }
}

/// Text free of quotes and backslashes escapes to itself.
pub proof fn lemma_escape_plain(w: Seq<char>)
    requires
        forall|k: int| 0 <= k < w.len() ==> w[k] != '"' && w[k] != '\\',
    ensures
        escape_chars(w) =~= w,
    decreases w.len(),
{
    if w.len() != 0 {
        assert(forall|k: int|
            0 <= k < w.len() - 1 ==> w.drop_first()[k] != '"' && w.drop_first()[k] != '\\');
        lemma_escape_plain(w.drop_first());
        assert(escape_chars(w) =~= w);
    }
}

/// Powers of ten.
pub open spec fn pow10(k: nat) -> int
    decreases k,
{
    if k == 0 {
        1
    } else {
        10 * pow10((k - 1) as nat)
    }
}

/// The value of a digit string, most significant digit first.
pub open spec fn digits_val_front(w: Seq<char>) -> int
    decreases w.len(),
{
    if w.len() == 0 {
        0
    } else {
        digit_val(w[0]) * pow10((w.len() - 1) as nat) + digits_val_front(w.drop_first())
    }
}

proof fn lemma_digit_char_facts()
    ensures
        forall|d: int|
            0 <= d < 10 ==> is_digit_char(#[trigger] digit_char(d)) && digit_val(digit_char(d))
                == d,
{
    reveal_strlit("0123456789");
}

proof fn lemma_dec_str_all_digits(n: nat)
    ensures
        forall|k: int| 0 <= k < dec_str(n).len() ==> is_digit_char(#[trigger] dec_str(n)[k]),
        dec_str(n).len() >= 1,
    decreases n,
{
    lemma_digit_char_facts();
    if n >= 10 {
        lemma_dec_str_all_digits(n / 10);
        assert forall|k: int| 0 <= k < dec_str(n).len() implies is_digit_char(
            #[trigger] dec_str(n)[k],
        ) by {
            if k < dec_str(n / 10).len() {
                assert(dec_str(n)[k] == dec_str(n / 10)[k]);
            }
        }
    }
}

proof fn lemma_val_front_append(w: Seq<char>, d: char)
    ensures
        digits_val_front(w.push(d)) == digits_val_front(w) * 10 + digit_val(d),
    decreases w.len(),
{
    if w.len() == 0 {
        assert(w.push(d)[0] == d);
        assert(w.push(d).len() == 1);
        assert(w.push(d).drop_first() =~= Seq::<char>::empty());
        assert(digits_val_front(w.push(d).drop_first()) == 0);
        assert(pow10(0nat) == 1);
        assert(digits_val_front(w.push(d)) == digit_val(d) * 1 + 0);
    } else {
        assert(w.push(d)[0] == w[0]);
        assert(w.push(d).drop_first() =~= w.drop_first().push(d));
        lemma_val_front_append(w.drop_first(), d);
        let a = digit_val(w[0]);
        let p = pow10((w.len() - 1) as nat);
        let rest = digits_val_front(w.drop_first());
        assert(pow10(w.len() as nat) == 10 * p);
        assert(digits_val_front(w.push(d)) == a * (10 * p) + (rest * 10 + digit_val(d)));
        assert(digits_val_front(w) == a * p + rest);
        assert(a * (10 * p) == (a * p) * 10) by (nonlinear_arith);
        assert((a * p + rest) * 10 == (a * p) * 10 + rest * 10) by (nonlinear_arith);
    }
}

proof fn lemma_dec_str_val(n: nat)
    ensures
        digits_val_front(dec_str(n)) == n,
    decreases n,
{
    lemma_digit_char_facts();
    if n < 10 {
        assert(dec_str(n)[0] == digit_char(n as int));
        assert(dec_str(n).drop_first() =~= Seq::<char>::empty());
        assert(digits_val_front(dec_str(n).drop_first()) == 0);
        assert(pow10(0nat) == 1);
    } else {
        lemma_dec_str_val(n / 10);
        assert(dec_str(n) =~= dec_str(n / 10).push(digit_char((n % 10) as int)));
        lemma_val_front_append(dec_str(n / 10), digit_char((n % 10) as int));
    }
}

proof fn lemma_sp_digits_consume(u: Seq<char>, pos: int, w: Seq<char>, acc: int)
    requires
        0 <= pos,
        pos + w.len() <= u.len(),
        u.subrange(pos, pos + w.len()) == w,
        forall|k: int| 0 <= k < w.len() ==> is_digit_char(#[trigger] w[k]),
        pos + w.len() == u.len() || !is_digit_char(u[pos + w.len()]),
    ensures
        sp_digits(u, pos, acc) == (acc * pow10(w.len() as nat) + digits_val_front(w), pos + w.len()),
    decreases w.len(),
{
    if w.len() == 0 {
        assert(sp_digits(u, pos, acc) == (acc, pos));
        assert(acc * 1 == acc) by (nonlinear_arith);
    } else {
        assert(u[pos] == w[0]);
        let wrest = w.drop_first();
        assert forall|t: int| 0 <= t < wrest.len() implies u.subrange(
            pos + 1,
            pos + 1 + wrest.len(),
        )[t] == wrest[t] by {
            assert(u.subrange(pos, pos + w.len())[1 + t] == w[1 + t]);
        }
        assert(u.subrange(pos + 1, pos + 1 + wrest.len()) =~= wrest);
        let d = digit_val(w[0]);
        lemma_sp_digits_consume(u, pos + 1, wrest, acc * 10 + d);
        let p = pow10((w.len() - 1) as nat);
        assert((acc * 10 + d) * p == acc * (10 * p) + d * p) by (nonlinear_arith);
        assert(sp_digits(u, pos, acc) == sp_digits(u, pos + 1, acc * 10 + d));
    }
}

/// Reading a number inverts decimal rendering: where the text holds the
/// decimal form of `n` followed by something other than a digit, the number
/// read back is `n`.
pub proof fn lemma_number_inverse(u: Seq<char>, pos: int, n: nat)
    requires
        0 <= pos,
        pos + dec_str(n).len() <= u.len(),
        u.subrange(pos, pos + dec_str(n).len()) == dec_str(n),
        pos + dec_str(n).len() == u.len() || !is_digit_char(u[pos + dec_str(n).len()]),
    ensures
        sp_number(u, pos) == Some((n as int, pos + dec_str(n).len())),
{
    lemma_dec_str_all_digits(n);
    assert(u[pos] == dec_str(n)[0]);
    lemma_sp_digits_consume(u, pos, dec_str(n), 0);
    lemma_dec_str_val(n);
    assert(0 * pow10(dec_str(n).len() as nat) == 0) by (nonlinear_arith);
}

/// Splits knowledge of a concatenation standing at `pos` into knowledge of
/// its two halves.
pub proof fn lemma_subrange_split(u: Seq<char>, pos: int, x: Seq<char>, y: Seq<char>)
    requires
        0 <= pos,
        pos + x.len() + y.len() <= u.len(),
        u.subrange(pos, pos + x.len() + y.len()) == x + y,
    ensures
        u.subrange(pos, pos + x.len()) =~= x,
        u.subrange(pos + x.len(), pos + x.len() + y.len()) =~= y,
{
    assert forall|t: int| 0 <= t < x.len() implies u.subrange(pos, pos + x.len())[t] == x[t] by {
        assert(u.subrange(pos, pos + x.len() + y.len())[t] == (x + y)[t]);
    }
    assert forall|t: int| 0 <= t < y.len() implies u.subrange(
        pos + x.len(),
        pos + x.len() + y.len(),
    )[t] == y[t] by {
        assert(u.subrange(pos + x.len(), pos + x.len() + y.len())[t] == u[pos + x.len() + t]);
        assert(u.subrange(pos, pos + x.len() + y.len())[x.len() + t] == u[pos + (x.len() + t)]);
        assert((x + y)[x.len() + t] == y[t]);
        assert(u.subrange(pos, pos + x.len() + y.len())[x.len() + t] == (x + y)[x.len() + t]);
        assert(u[pos + (x.len() + t)] == u[pos + x.len() + t]);
    }
}

/// Joins knowledge of two adjacent pieces standing at `pos` into knowledge
/// of their concatenation.
pub proof fn lemma_subrange_merge(u: Seq<char>, pos: int, x: Seq<char>, y: Seq<char>)
    requires
        0 <= pos,
        pos + x.len() + y.len() <= u.len(),
        u.subrange(pos, pos + x.len()) == x,
        u.subrange(pos + x.len(), pos + x.len() + y.len()) == y,
    ensures
        u.subrange(pos, pos + x.len() + y.len()) =~= x + y,
{
    assert forall|t: int| 0 <= t < x.len() + y.len() implies u.subrange(
        pos,
        pos + x.len() + y.len(),
    )[t] == (x + y)[t] by {
        assert(u.subrange(pos, pos + x.len() + y.len())[t] == u[pos + t]);
        if t < x.len() {
            assert(u.subrange(pos, pos + x.len())[t] == u[pos + t]);
        } else {
            assert(u.subrange(pos + x.len(), pos + x.len() + y.len())[t - x.len()] == u[pos + x.len()
                + (t - x.len())]);
            assert(u[pos + x.len() + (t - x.len())] == u[pos + t]);
        }
    }
}

} // verus!
