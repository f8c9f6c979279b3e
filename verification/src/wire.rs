use vstd::prelude::*;
use vstd::string::*;
use crate::claims::{ClaimsV, JwtClaims};
use crate::parse::{
    empty_acc, lemma_escape_plain, lemma_number_inverse, lemma_string_body_inverse,
    lemma_subrange_merge, lemma_subrange_split, sp_inf_members, sp_inf_object, sp_json_string,
    sp_member_step, sp_members, sp_payload, ClaimsAccV,
};
use crate::text::{dec_str, escape_chars, escape_str, num_to_string};

verus! {

/// A JSON string holding the given text.
pub open spec fn json_string(s: Seq<char>) -> Seq<char> {
    seq!['"'] + escape_chars(s) + seq!['"']
}

/// One extra-information entry as a JSON member.
pub open spec fn entry_json(p: (Seq<char>, Seq<char>)) -> Seq<char> {
    json_string(p.0) + seq![':'] + json_string(p.1)
}

/// The extra-information entries, comma-separated, in order.
pub open spec fn inf_entries_json(pairs: Seq<(Seq<char>, Seq<char>)>) -> Seq<char>
    decreases pairs.len(),
{
    if pairs.len() == 0 {
        Seq::empty()
    } else if pairs.len() == 1 {
        entry_json(pairs[0])
    } else {
        entry_json(pairs[0]) + seq![','] + inf_entries_json(pairs.drop_first())
    }
}

/// The extra-information mapping as a JSON object.
pub open spec fn inf_json(pairs: Seq<(Seq<char>, Seq<char>)>) -> Seq<char> {
    seq!['{'] + inf_entries_json(pairs) + seq!['}']
}

/// The audience field in wire form, with its separating comma, or nothing.
pub open spec fn aud_part(c: ClaimsV) -> Seq<char> {
    match c.aud {
        Some(a) => "\"aud\":"@ + json_string(a) + seq![','],
        None => Seq::empty(),
    }
}

/// The issued-at field in wire form, or nothing.
pub open spec fn iat_part(c: ClaimsV) -> Seq<char> {
    match c.iat {
        Some(i) => ",\"iat\":"@ + dec_str(i as nat),
        None => Seq::empty(),
    }
}

/// The issuer field in wire form, or nothing.
pub open spec fn iss_part(c: ClaimsV) -> Seq<char> {
    match c.iss {
        Some(s) => ",\"iss\":"@ + json_string(s),
        None => Seq::empty(),
    }
}

/// The not-before field in wire form, or nothing.
pub open spec fn nbf_part(c: ClaimsV) -> Seq<char> {
    match c.nbf {
        Some(n) => ",\"nbf\":"@ + dec_str(n as nat),
        None => Seq::empty(),
    }
}

/// The subject field in wire form, or nothing.
pub open spec fn sub_part(c: ClaimsV) -> Seq<char> {
    match c.sub {
        Some(s) => ",\"sub\":"@ + json_string(s),
        None => Seq::empty(),
    }
}

/// The extra-information field in wire form, or nothing.
pub open spec fn inf_part(c: ClaimsV) -> Seq<char> {
    match c.inf {
        Some(m) => ",\"inf\":"@ + inf_json(m),
        None => Seq::empty(),
    }
}

/// The wire form of a claim set: a JSON object holding the fields in a fixed
/// order, each optional field omitted entirely when unset.
pub open spec fn payload_json(c: ClaimsV) -> Seq<char> {
    seq!['{'] + aud_part(c) + "\"exp\":"@ + dec_str(c.exp as nat) + iat_part(c) + iss_part(c)
        + nbf_part(c) + sub_part(c) + inf_part(c) + seq!['}']
}

/// The wire form of a token header naming an algorithm.
pub open spec fn header_json(alg: Seq<char>) -> Seq<char> {
    "{\"typ\":\"JWT\",\"alg\":\""@ + alg + "\"}"@
}

/// Renders text as a JSON string.
pub fn json_string_of(s: &str) -> (r: String)
    ensures
        r@ == json_string(s@),
{
    proof {
        reveal_strlit("\"");
    }
    let r = String::from_str("\"").concat(escape_str(s).as_str()).concat("\"");
    proof {
        assert(r@ =~= json_string(s@));
    }
    r
}

fn inf_entries_to_json(v: &Vec<(String, String)>, i: usize) -> (r: String)
    requires
        i <= v.len(),
    ensures
        r@ == inf_entries_json(v.deep_view().skip(i as int)),
    decreases v.len() - i,
{
    proof {
        reveal_strlit(":");
        reveal_strlit(",");
    }
    if i == v.len() {
        proof {
            assert(v.deep_view().skip(i as int) =~= Seq::<(Seq<char>, Seq<char>)>::empty());
        }
        return String::new();
    }
    let key = json_string_of(v[i].0.as_str());
    let val = json_string_of(v[i].1.as_str());
    let ent = key.concat(":").concat(val.as_str());
    proof {
        assert(v.deep_view()[i as int] == (v[i as int].0@, v[i as int].1@));
        assert(ent@ =~= entry_json(v.deep_view().skip(i as int)[0]));
    }
    if i + 1 == v.len() {
        proof {
            assert(v.deep_view().skip(i as int).len() == 1);
        }
        ent
    } else {
        let rest = inf_entries_to_json(v, i + 1);
        let r = ent.concat(",").concat(rest.as_str());
        proof {
            assert(v.deep_view().skip(i as int).drop_first() =~= v.deep_view().skip(i as int + 1));
            assert(v.deep_view().skip(i as int).len() > 1);
            assert(r@ =~= inf_entries_json(v.deep_view().skip(i as int)));
        }
        r
    }
}

/// Renders the extra-information mapping as a JSON object.
pub fn inf_to_json(v: &Vec<(String, String)>) -> (r: String)
    ensures
        r@ == inf_json(v.deep_view()),
{
    proof {
        reveal_strlit("{");
        reveal_strlit("}");
    }
    let entries = inf_entries_to_json(v, 0);
    let r = String::from_str("{").concat(entries.as_str()).concat("}");
    proof {
        assert(v.deep_view().skip(0) =~= v.deep_view());
        assert(r@ =~= inf_json(v.deep_view()));
    }
    r
}

/// Renders a claim set in its wire form.
#[verifier::rlimit(80)]
pub fn claims_to_json(c: &JwtClaims) -> (r: String)
    ensures
        r@ == payload_json(c@),
{
    proof {
        reveal_strlit("{");
        reveal_strlit("}");
        reveal_strlit(",");
    }
    let mut out = String::from_str("{");
    if let Some(a) = &c.aud {
        out.append("\"aud\":");
        out.append(json_string_of(a.as_str()).as_str());
        out.append(",");
    }
    proof {
        assert(out@ =~= seq!['{'] + aud_part(c@));
    }
    out.append("\"exp\":");
    out.append(num_to_string(c.exp).as_str());
    if let Some(i) = &c.iat {
        out.append(",\"iat\":");
        out.append(num_to_string(*i).as_str());
    }
    proof {
        assert(out@ =~= seq!['{'] + aud_part(c@) + "\"exp\":"@ + dec_str(c.exp as nat) + iat_part(
            c@,
        ));
    }
    if let Some(s) = &c.iss {
        out.append(",\"iss\":");
        out.append(json_string_of(s.as_str()).as_str());
    }
    if let Some(n) = &c.nbf {
        out.append(",\"nbf\":");
        out.append(num_to_string(*n).as_str());
    }
    proof {
        assert(out@ =~= seq!['{'] + aud_part(c@) + "\"exp\":"@ + dec_str(c.exp as nat) + iat_part(
            c@,
        ) + iss_part(c@) + nbf_part(c@));
    }
    if let Some(s) = &c.sub {
        out.append(",\"sub\":");
        out.append(json_string_of(s.as_str()).as_str());
    }
    proof {
        assert(out@ =~= seq!['{'] + aud_part(c@) + "\"exp\":"@ + dec_str(c.exp as nat) + iat_part(
            c@,
        ) + iss_part(c@) + nbf_part(c@) + sub_part(c@));
    }
    if let Some(m) = &c.inf {
        out.append(",\"inf\":");
        out.append(inf_to_json(m).as_str());
    }
    proof {
        assert(out@ =~= seq!['{'] + aud_part(c@) + "\"exp\":"@ + dec_str(c.exp as nat) + iat_part(
            c@,
        ) + iss_part(c@) + nbf_part(c@) + sub_part(c@) + inf_part(c@));
    }
    out.append("}");
    proof {
        assert(out@ =~= payload_json(c@));
    }
    out
}

/// Renders the token header naming an algorithm.
pub fn header_to_json(alg: &str) -> (r: String)
    ensures
        r@ == header_json(alg@),
{
    let r = String::from_str("{\"typ\":\"JWT\",\"alg\":\"").concat(alg).concat("\"}");
    r
}

/// Reading a JSON string inverts rendering one: where the text holds the
/// JSON string for `sval`, the value read back is `sval`.
pub proof fn lemma_json_string_at(u: Seq<char>, pos: int, sval: Seq<char>)
    requires
        0 <= pos,
        pos + json_string(sval).len() <= u.len(),
        u.subrange(pos, pos + json_string(sval).len()) == json_string(sval),
    ensures
        sp_json_string(u, pos) == Some((sval, pos + json_string(sval).len())),
{
    let e = escape_chars(sval);
    assert(json_string(sval) == (seq!['"'] + e) + seq!['"']);
    lemma_subrange_split(u, pos, seq!['"'] + e, seq!['"']);
    lemma_subrange_split(u, pos, seq!['"'], e);
    assert(u.subrange(pos, pos + 1)[0] == u[pos]);
    assert(u[pos] == '"');
    assert(u.subrange(pos + 1 + e.len(), pos + 2 + e.len())[0] == u[pos + 1 + e.len()]);
    assert(u[pos + 1 + e.len()] == '"');
    assert(u.subrange(pos + 1, pos + 1 + e.len()) == e);
    lemma_string_body_inverse(u, pos + 1, sval);
}

/// Reading the members of the extra-information object inverts rendering
/// them: where the text holds the rendered entries followed by a closing
/// brace, the entries read back are the same, in the same order.
pub proof fn lemma_inf_members_inverse(u: Seq<char>, pos: int, pairs: Seq<(Seq<char>, Seq<char>)>)
    requires
        pairs.len() >= 1,
        0 <= pos,
        pos + inf_entries_json(pairs).len() + 1 <= u.len(),
        u.subrange(pos, pos + inf_entries_json(pairs).len()) == inf_entries_json(pairs),
        u[pos + inf_entries_json(pairs).len()] == '}',
    ensures
        sp_inf_members(u, pos) == Some((pairs, pos + inf_entries_json(pairs).len() + 1)),
    decreases pairs.len(),
{
    let e = inf_entries_json(pairs);
    let k0 = pairs[0].0;
    let v0 = pairs[0].1;
    let ej = entry_json(pairs[0]);
    assert(ej == (json_string(k0) + seq![':']) + json_string(v0));
    if pairs.len() == 1 {
        assert(e == ej);
        lemma_subrange_split(u, pos, json_string(k0) + seq![':'], json_string(v0));
        lemma_subrange_split(u, pos, json_string(k0), seq![':']);
        lemma_json_string_at(u, pos, k0);
        let p1 = pos + json_string(k0).len();
        assert(u.subrange(p1, p1 + 1)[0] == u[p1]);
        assert(u[p1] == ':');
        lemma_json_string_at(u, p1 + 1, v0);
        let p2 = p1 + 1 + json_string(v0).len();
        assert(p2 == pos + e.len());
        assert(u[pos] == '"');
        assert(seq![(k0, v0)] =~= pairs);
        assert(sp_inf_members(u, pos) == Some((seq![(k0, v0)], p2 + 1)));
    } else {
        let rest = inf_entries_json(pairs.drop_first());
        assert(e == (ej + seq![',']) + rest);
        lemma_subrange_split(u, pos, ej + seq![','], rest);
        lemma_subrange_split(u, pos, ej, seq![',']);
        assert(u.subrange(pos, pos + ej.len()) == ej);
        lemma_subrange_split(u, pos, json_string(k0) + seq![':'], json_string(v0));
        lemma_subrange_split(u, pos, json_string(k0), seq![':']);
        lemma_json_string_at(u, pos, k0);
        let p1 = pos + json_string(k0).len();
        assert(u.subrange(p1, p1 + 1)[0] == u[p1]);
        assert(u[p1] == ':');
        lemma_json_string_at(u, p1 + 1, v0);
        let p2 = p1 + 1 + json_string(v0).len();
        assert(p2 == pos + ej.len());
        assert(u.subrange(p2, p2 + 1)[0] == u[p2]);
        assert(u[p2] == ',');
        assert(u[pos] == '"');
        lemma_inf_members_inverse(u, p2 + 1, pairs.drop_first());
        assert(seq![(k0, v0)] + pairs.drop_first() =~= pairs);
        assert(pos + e.len() == p2 + 1 + rest.len());
        assert(sp_inf_members(u, p2 + 1) == Some((pairs.drop_first(), pos + e.len() + 1)));
    }
}

proof fn lemma_walk_key(u: Seq<char>, o: int, keylit: Seq<char>, keyfull: Seq<char>, vtext: Seq<
    char,
>)
    requires
        0 <= o,
        o + keyfull.len() + vtext.len() <= u.len(),
        keyfull == seq![','] + (json_string(keylit) + seq![':']),
        u.subrange(o, o + keyfull.len() + vtext.len()) == keyfull + vtext,
    ensures
        u[o] == ',',
        u[o + 1] == '"',
        sp_json_string(u, o + 1) == Some((keylit, o + 1 + json_string(keylit).len())),
        u[o + 1 + json_string(keylit).len()] == ':',
        u.subrange(o + keyfull.len(), o + keyfull.len() + vtext.len()) =~= vtext,
        o + keyfull.len() == o + 2 + json_string(keylit).len(),
{
    lemma_subrange_split(u, o, keyfull, vtext);
    lemma_subrange_split(u, o, seq![','], json_string(keylit) + seq![':']);
    lemma_subrange_split(u, o + 1, json_string(keylit), seq![':']);
    assert(u.subrange(o, o + 1)[0] == u[o]);
    lemma_json_string_at(u, o + 1, keylit);
    let p1 = o + 1 + json_string(keylit).len();
    assert(u.subrange(p1, p1 + 1)[0] == u[p1]);
}

proof fn lemma_walk_member_iat(u: Seq<char>, o: int, nv: usize, acc: ClaimsAccV, fin: ClaimsAccV)
    requires
        0 <= o,
        acc.iat is None,
        o + (",\"iat\":"@ + dec_str(nv as nat)).len() < u.len(),
        u.subrange(o, o + (",\"iat\":"@ + dec_str(nv as nat)).len()) == ",\"iat\":"@ + dec_str(
            nv as nat,
        ),
        ({
            let ve = o + (",\"iat\":"@ + dec_str(nv as nat)).len();
            ||| (u[ve] == '}' && ve + 1 == u.len() && ClaimsAccV { iat: Some(nv), ..acc } == fin)
            ||| (u[ve] == ',' && sp_members(u, ve + 1, ClaimsAccV { iat: Some(nv), ..acc })
                == Some((fin, u.len() as int)))
        }),
    ensures
        u[o] == ',',
        sp_members(u, o + 1, acc) == Some((fin, u.len() as int)),
{
    reveal_strlit("aud");
    reveal_strlit("exp");
    reveal_strlit("iat");
    reveal_strlit(",\"iat\":");
    lemma_escape_plain("iat"@);
    let jk = json_string("iat"@);
    let dv = dec_str(nv as nat);
    assert(",\"iat\":"@ + dv =~= (seq![','] + (jk + seq![':'])) + dv);
    lemma_walk_key(u, o, "iat"@, seq![','] + (jk + seq![':']), dv);
    let pv = o + 2 + jk.len();
    let ve = pv + dv.len();
    lemma_number_inverse(u, pv, nv as nat);
    assert(sp_member_step(u, pv, "iat"@, acc) == Some((ClaimsAccV { iat: Some(nv), ..acc }, ve)));
}

proof fn lemma_walk_member_nbf(u: Seq<char>, o: int, nv: usize, acc: ClaimsAccV, fin: ClaimsAccV)
    requires
        0 <= o,
        acc.nbf is None,
        o + (",\"nbf\":"@ + dec_str(nv as nat)).len() < u.len(),
        u.subrange(o, o + (",\"nbf\":"@ + dec_str(nv as nat)).len()) == ",\"nbf\":"@ + dec_str(
            nv as nat,
        ),
        ({
            let ve = o + (",\"nbf\":"@ + dec_str(nv as nat)).len();
            ||| (u[ve] == '}' && ve + 1 == u.len() && ClaimsAccV { nbf: Some(nv), ..acc } == fin)
            ||| (u[ve] == ',' && sp_members(u, ve + 1, ClaimsAccV { nbf: Some(nv), ..acc })
                == Some((fin, u.len() as int)))
        }),
    ensures
        u[o] == ',',
        sp_members(u, o + 1, acc) == Some((fin, u.len() as int)),
{
    reveal_strlit("aud");
    reveal_strlit("exp");
    reveal_strlit("iat");
    reveal_strlit("iss");
    reveal_strlit("nbf");
    reveal_strlit(",\"nbf\":");
    lemma_escape_plain("nbf"@);
    let jk = json_string("nbf"@);
    let dv = dec_str(nv as nat);
    assert(",\"nbf\":"@ + dv =~= (seq![','] + (jk + seq![':'])) + dv);
    lemma_walk_key(u, o, "nbf"@, seq![','] + (jk + seq![':']), dv);
    let pv = o + 2 + jk.len();
    let ve = pv + dv.len();
    lemma_number_inverse(u, pv, nv as nat);
    assert(sp_member_step(u, pv, "nbf"@, acc) == Some((ClaimsAccV { nbf: Some(nv), ..acc }, ve)));
}

proof fn lemma_walk_member_iss(u: Seq<char>, o: int, sv: Seq<char>, acc: ClaimsAccV, fin: ClaimsAccV)
    requires
        0 <= o,
        acc.iss is None,
        o + (",\"iss\":"@ + json_string(sv)).len() < u.len(),
        u.subrange(o, o + (",\"iss\":"@ + json_string(sv)).len()) == ",\"iss\":"@ + json_string(sv),
        ({
            let ve = o + (",\"iss\":"@ + json_string(sv)).len();
            ||| (u[ve] == '}' && ve + 1 == u.len() && ClaimsAccV { iss: Some(sv), ..acc } == fin)
            ||| (u[ve] == ',' && sp_members(u, ve + 1, ClaimsAccV { iss: Some(sv), ..acc })
                == Some((fin, u.len() as int)))
        }),
    ensures
        u[o] == ',',
        sp_members(u, o + 1, acc) == Some((fin, u.len() as int)),
{
    reveal_strlit("aud");
    reveal_strlit("exp");
    reveal_strlit("iat");
    reveal_strlit("iss");
    reveal_strlit(",\"iss\":");
    lemma_escape_plain("iss"@);
    let jk = json_string("iss"@);
    assert(",\"iss\":"@ + json_string(sv) =~= (seq![','] + (jk + seq![':'])) + json_string(sv));
    lemma_walk_key(u, o, "iss"@, seq![','] + (jk + seq![':']), json_string(sv));
    let pv = o + 2 + jk.len();
    lemma_json_string_at(u, pv, sv);
    let ve = pv + json_string(sv).len();
    assert("iss"@ != "aud"@) by {
        assert("iss"@[0] != "aud"@[0]);
    }
    assert("iss"@ != "exp"@) by {
        assert("iss"@[0] != "exp"@[0]);
    }
    assert("iss"@ != "iat"@) by {
        assert("iss"@[1] != "iat"@[1]);
    }
    assert(sp_member_step(u, pv, "iss"@, acc) == Some((ClaimsAccV { iss: Some(sv), ..acc }, ve)));
}

proof fn lemma_walk_member_sub(u: Seq<char>, o: int, sv: Seq<char>, acc: ClaimsAccV, fin: ClaimsAccV)
    requires
        0 <= o,
        acc.sub is None,
        o + (",\"sub\":"@ + json_string(sv)).len() < u.len(),
        u.subrange(o, o + (",\"sub\":"@ + json_string(sv)).len()) == ",\"sub\":"@ + json_string(sv),
        ({
            let ve = o + (",\"sub\":"@ + json_string(sv)).len();
            ||| (u[ve] == '}' && ve + 1 == u.len() && ClaimsAccV { sub: Some(sv), ..acc } == fin)
            ||| (u[ve] == ',' && sp_members(u, ve + 1, ClaimsAccV { sub: Some(sv), ..acc })
                == Some((fin, u.len() as int)))
        }),
    ensures
        u[o] == ',',
        sp_members(u, o + 1, acc) == Some((fin, u.len() as int)),
{
    reveal_strlit("aud");
    reveal_strlit("exp");
    reveal_strlit("iat");
    reveal_strlit("iss");
    reveal_strlit("nbf");
    reveal_strlit("sub");
    reveal_strlit(",\"sub\":");
    lemma_escape_plain("sub"@);
    let jk = json_string("sub"@);
    assert(",\"sub\":"@ + json_string(sv) =~= (seq![','] + (jk + seq![':'])) + json_string(sv));
    lemma_walk_key(u, o, "sub"@, seq![','] + (jk + seq![':']), json_string(sv));
    let pv = o + 2 + jk.len();
    lemma_json_string_at(u, pv, sv);
    let ve = pv + json_string(sv).len();
    assert("sub"@ != "aud"@ && "sub"@ != "exp"@ && "sub"@ != "iat"@ && "sub"@ != "iss"@ && "sub"@
        != "nbf"@) by {
        assert("sub"@[0] == 's' && "aud"@[0] == 'a' && "exp"@[0] == 'e' && "iat"@[0] == 'i'
            && "iss"@[0] == 'i' && "nbf"@[0] == 'n');
    }
    assert(sp_member_step(u, pv, "sub"@, acc) == Some((ClaimsAccV { sub: Some(sv), ..acc }, ve)));
}

proof fn lemma_walk_member_inf(
    u: Seq<char>,
    o: int,
    m: Seq<(Seq<char>, Seq<char>)>,
    acc: ClaimsAccV,
    fin: ClaimsAccV,
)
    requires
        0 <= o,
        acc.inf is None,
        o + (",\"inf\":"@ + inf_json(m)).len() < u.len(),
        u.subrange(o, o + (",\"inf\":"@ + inf_json(m)).len()) == ",\"inf\":"@ + inf_json(m),
        ({
            let ve = o + (",\"inf\":"@ + inf_json(m)).len();
            &&& u[ve] == '}'
            &&& ve + 1 == u.len()
            &&& ClaimsAccV { inf: Some(m), ..acc } == fin
        }),
    ensures
        u[o] == ',',
        sp_members(u, o + 1, acc) == Some((fin, u.len() as int)),
{
    reveal_strlit("aud");
    reveal_strlit("exp");
    reveal_strlit("iat");
    reveal_strlit("iss");
    reveal_strlit("nbf");
    reveal_strlit("sub");
    reveal_strlit("inf");
    reveal_strlit(",\"inf\":");
    lemma_escape_plain("inf"@);
    let jk = json_string("inf"@);
    assert(",\"inf\":"@ + inf_json(m) =~= (seq![','] + (jk + seq![':'])) + inf_json(m));
    lemma_walk_key(u, o, "inf"@, seq![','] + (jk + seq![':']), inf_json(m));
    let pv = o + 2 + jk.len();
    assert(u.subrange(pv, pv + inf_json(m).len()) == inf_json(m));
    assert(inf_json(m) == (seq!['{'] + inf_entries_json(m)) + seq!['}']);
    lemma_subrange_split(u, pv, seq!['{'] + inf_entries_json(m), seq!['}']);
    lemma_subrange_split(u, pv, seq!['{'], inf_entries_json(m));
    assert(u.subrange(pv, pv + 1)[0] == u[pv]);
    let ve = pv + inf_json(m).len();
    assert(u.subrange(ve - 1, ve)[0] == u[ve - 1]);
    if m.len() == 0 {
        assert(inf_entries_json(m) =~= Seq::<char>::empty());
        assert(u[pv + 1] == '}');
        assert(sp_inf_object(u, pv) == Some((Seq::<(Seq<char>, Seq<char>)>::empty(), pv + 2)));
        assert(m =~= Seq::<(Seq<char>, Seq<char>)>::empty());
    } else {
        assert(u[pv + 1] == '"') by {
            let ej0 = entry_json(m[0]);
            assert(inf_entries_json(m)[0] == ej0[0]);
            assert(ej0[0] == '"');
            assert(u.subrange(pv + 1, pv + 1 + inf_entries_json(m).len())[0] == u[pv + 1]);
        }
        lemma_inf_members_inverse(u, pv + 1, m);
        assert(sp_inf_object(u, pv) == Some((m, ve)));
    }
    assert("inf"@ != "aud"@ && "inf"@ != "exp"@ && "inf"@ != "nbf"@ && "inf"@ != "sub"@) by {
        assert("inf"@[0] == 'i' && "aud"@[0] == 'a' && "exp"@[0] == 'e' && "nbf"@[0] == 'n'
            && "sub"@[0] == 's');
    }
    assert("inf"@ != "iat"@ && "inf"@ != "iss"@) by {
        assert("inf"@[1] == 'n' && "iat"@[1] == 'a' && "iss"@[1] == 's');
    }
    assert(sp_member_step(u, pv, "inf"@, acc) == Some((ClaimsAccV { inf: Some(m), ..acc }, ve)));
}

proof fn lemma_walk_member_exp(u: Seq<char>, o: int, nv: usize, acc: ClaimsAccV, fin: ClaimsAccV)
    requires
        0 <= o,
        acc.exp is None,
        o + ("\"exp\":"@ + dec_str(nv as nat)).len() < u.len(),
        u.subrange(o, o + ("\"exp\":"@ + dec_str(nv as nat)).len()) == "\"exp\":"@ + dec_str(
            nv as nat,
        ),
        ({
            let ve = o + ("\"exp\":"@ + dec_str(nv as nat)).len();
            ||| (u[ve] == '}' && ve + 1 == u.len() && ClaimsAccV { exp: Some(nv), ..acc } == fin)
            ||| (u[ve] == ',' && sp_members(u, ve + 1, ClaimsAccV { exp: Some(nv), ..acc })
                == Some((fin, u.len() as int)))
        }),
    ensures
        u[o] == '"',
        sp_members(u, o, acc) == Some((fin, u.len() as int)),
{
    reveal_strlit("aud");
    reveal_strlit("exp");
    reveal_strlit("\"exp\":");
    lemma_escape_plain("exp"@);
    let jk = json_string("exp"@);
    let dv = dec_str(nv as nat);
    assert("\"exp\":"@ + dv =~= (jk + seq![':']) + dv);
    lemma_subrange_split(u, o, jk + seq![':'], dv);
    lemma_subrange_split(u, o, jk, seq![':']);
    lemma_json_string_at(u, o, "exp"@);
    let p1 = o + jk.len();
    assert(u.subrange(p1, p1 + 1)[0] == u[p1]);
    assert(u[p1] == ':');
    let pv = p1 + 1;
    let ve = pv + dv.len();
    lemma_number_inverse(u, pv, nv as nat);
    assert("exp"@ != "aud"@) by {
        assert("exp"@[0] != "aud"@[0]);
    }
    assert(sp_member_step(u, pv, "exp"@, acc) == Some((ClaimsAccV { exp: Some(nv), ..acc }, ve)));
}

proof fn lemma_walk_member_aud(u: Seq<char>, o: int, sv: Seq<char>, acc: ClaimsAccV, fin: ClaimsAccV)
    requires
        0 <= o,
        acc.aud is None,
        o + (("\"aud\":"@ + json_string(sv)) + seq![',']).len() < u.len(),
        u.subrange(o, o + (("\"aud\":"@ + json_string(sv)) + seq![',']).len()) == (("\"aud\":"@
            + json_string(sv)) + seq![',']),
        sp_members(
            u,
            o + (("\"aud\":"@ + json_string(sv)) + seq![',']).len(),
            ClaimsAccV { aud: Some(sv), ..acc },
        ) == Some((fin, u.len() as int)),
    ensures
        u[o] == '"',
        sp_members(u, o, acc) == Some((fin, u.len() as int)),
{
    reveal_strlit("aud");
    reveal_strlit("\"aud\":");
    lemma_escape_plain("aud"@);
    let jk = json_string("aud"@);
    let part = ("\"aud\":"@ + json_string(sv)) + seq![','];
    assert(part =~= ((jk + seq![':']) + json_string(sv)) + seq![',']);
    lemma_subrange_split(u, o, (jk + seq![':']) + json_string(sv), seq![',']);
    lemma_subrange_split(u, o, jk + seq![':'], json_string(sv));
    lemma_subrange_split(u, o, jk, seq![':']);
    lemma_json_string_at(u, o, "aud"@);
    let p1 = o + jk.len();
    assert(u.subrange(p1, p1 + 1)[0] == u[p1]);
    assert(u[p1] == ':');
    let pv = p1 + 1;
    lemma_json_string_at(u, pv, sv);
    let ve = pv + json_string(sv).len();
    assert(u.subrange(ve, ve + 1)[0] == u[ve]);
    assert(u[ve] == ',');
    assert(sp_member_step(u, pv, "aud"@, acc) == Some((ClaimsAccV { aud: Some(sv), ..acc }, ve)));
    assert(ve + 1 == o + part.len());
}

/// Where the audience member begins inside a rendered payload.
pub open spec fn off_aud(c: ClaimsV) -> int {
    1
}

/// Where the expiration member begins.
pub open spec fn off_exp(c: ClaimsV) -> int {
    1 + aud_part(c).len() as int
}

/// Where the expiration digits begin.
pub open spec fn off_ev(c: ClaimsV) -> int {
    off_exp(c) + "\"exp\":"@.len()
}

/// Where the issued-at field part begins.
pub open spec fn off_iat(c: ClaimsV) -> int {
    off_ev(c) + dec_str(c.exp as nat).len()
}

/// Where the issuer field part begins.
pub open spec fn off_iss(c: ClaimsV) -> int {
    off_iat(c) + iat_part(c).len()
}

/// Where the not-before field part begins.
pub open spec fn off_nbf(c: ClaimsV) -> int {
    off_iss(c) + iss_part(c).len()
}

/// Where the subject field part begins.
pub open spec fn off_sub(c: ClaimsV) -> int {
    off_nbf(c) + nbf_part(c).len()
}

/// Where the extra-information field part begins.
pub open spec fn off_inf(c: ClaimsV) -> int {
    off_sub(c) + sub_part(c).len()
}

/// Where the closing brace stands.
pub open spec fn off_end(c: ClaimsV) -> int {
    off_inf(c) + inf_part(c).len()
}

/// The fully-gathered accumulator a claim set parses back to.
pub open spec fn acc_of(c: ClaimsV) -> ClaimsAccV {
    ClaimsAccV {
        aud: c.aud,
        exp: Some(c.exp),
        iat: c.iat,
        iss: c.iss,
        nbf: c.nbf,
        sub: c.sub,
        inf: c.inf,
    }
}

proof fn lemma_payload_pieces(c: ClaimsV)
    ensures
        payload_json(c).len() == off_end(c) + 1,
        payload_json(c)[0] == '{',
        payload_json(c)[off_end(c)] == '}',
        payload_json(c).subrange(1, off_exp(c)) == aud_part(c),
        payload_json(c).subrange(off_exp(c), off_ev(c)) == "\"exp\":"@,
        payload_json(c).subrange(off_ev(c), off_iat(c)) == dec_str(c.exp as nat),
        payload_json(c).subrange(off_iat(c), off_iss(c)) == iat_part(c),
        payload_json(c).subrange(off_iss(c), off_nbf(c)) == iss_part(c),
        payload_json(c).subrange(off_nbf(c), off_sub(c)) == nbf_part(c),
        payload_json(c).subrange(off_sub(c), off_inf(c)) == sub_part(c),
        payload_json(c).subrange(off_inf(c), off_end(c)) == inf_part(c),
{
    let u = payload_json(c);
    let ev = dec_str(c.exp as nat);
    let pre1 = seq!['{'];
    let pre2 = pre1 + aud_part(c);
    let pre3 = pre2 + "\"exp\":"@;
    let pre4 = pre3 + ev;
    let pre5 = pre4 + iat_part(c);
    let pre6 = pre5 + iss_part(c);
    let pre7 = pre6 + nbf_part(c);
    let pre8 = pre7 + sub_part(c);
    let pre9 = pre8 + inf_part(c);
    assert(u == pre9 + seq!['}']);
    assert(u.subrange(0, u.len() as int) =~= u);
    lemma_subrange_split(u, 0, pre9, seq!['}']);
    lemma_subrange_split(u, 0, pre8, inf_part(c));
    lemma_subrange_split(u, 0, pre7, sub_part(c));
    lemma_subrange_split(u, 0, pre6, nbf_part(c));
    lemma_subrange_split(u, 0, pre5, iss_part(c));
    lemma_subrange_split(u, 0, pre4, iat_part(c));
    lemma_subrange_split(u, 0, pre3, ev);
    lemma_subrange_split(u, 0, pre2, "\"exp\":"@);
    lemma_subrange_split(u, 0, pre1, aud_part(c));
    assert(u.subrange(off_end(c), off_end(c) + 1)[0] == u[off_end(c)]);
    assert(u.subrange(0, 1)[0] == u[0]);
}

proof fn lemma_walk_upper(c: ClaimsV)
    ensures
        ({
            let u = payload_json(c);
            let acc3 = ClaimsAccV {
                aud: c.aud,
                exp: Some(c.exp),
                iat: c.iat,
                iss: None,
                nbf: None,
                sub: None,
                inf: None,
            };
            ||| (u[off_iss(c)] == '}' && off_iss(c) + 1 == u.len() && acc3 == acc_of(c))
            ||| (u[off_iss(c)] == ',' && sp_members(u, off_iss(c) + 1, acc3) == Some(
                (acc_of(c), u.len() as int),
            ))
        }),
{
    lemma_payload_pieces(c);
    let u = payload_json(c);
    let fin = acc_of(c);
    let acc3 = ClaimsAccV {
        aud: c.aud,
        exp: Some(c.exp),
        iat: c.iat,
        iss: None,
        nbf: None,
        sub: None,
        inf: None,
    };
    let acc4 = ClaimsAccV { iss: c.iss, ..acc3 };
    let acc5 = ClaimsAccV { nbf: c.nbf, ..acc4 };
    let acc6 = ClaimsAccV { sub: c.sub, ..acc5 };
    match c.inf {
        Some(m) => {
            lemma_walk_member_inf(u, off_inf(c), m, acc6, fin);
        },
        None => {
            assert(acc6 == fin);
            assert(off_inf(c) == off_end(c));
        },
    }
    match c.sub {
        Some(sv) => {
            lemma_walk_member_sub(u, off_sub(c), sv, acc5, fin);
        },
        None => {
            assert(acc5 == acc6);
            assert(off_sub(c) == off_inf(c));
        },
    }
    match c.nbf {
        Some(nv) => {
            lemma_walk_member_nbf(u, off_nbf(c), nv, acc4, fin);
        },
        None => {
            assert(acc4 == acc5);
            assert(off_nbf(c) == off_sub(c));
        },
    }
    match c.iss {
        Some(sv) => {
            lemma_walk_member_iss(u, off_iss(c), sv, acc3, fin);
        },
        None => {
            assert(acc3 == acc4);
            assert(off_iss(c) == off_nbf(c));
        },
    }
}

/// Reading a payload back inverts rendering one: the wire form of a claim
/// set parses to exactly its fields, each optional field still unset where
/// it was unset.
pub proof fn lemma_payload_inverse(c: ClaimsV)
    ensures
        sp_payload(payload_json(c)) == Some(acc_of(c)),
{
    lemma_payload_pieces(c);
    lemma_walk_upper(c);
    let u = payload_json(c);
    let fin = acc_of(c);
    let acc1 = ClaimsAccV {
        aud: c.aud,
        exp: None,
        iat: None,
        iss: None,
        nbf: None,
        sub: None,
        inf: None,
    };
    let acc2 = ClaimsAccV { exp: Some(c.exp), ..acc1 };
    let acc3 = ClaimsAccV { iat: c.iat, ..acc2 };
    match c.iat {
        Some(nv) => {
            lemma_walk_member_iat(u, off_iat(c), nv, acc2, fin);
        },
        None => {
            assert(acc2 == acc3);
            assert(off_iat(c) == off_iss(c));
        },
    }
    lemma_subrange_merge(u, off_exp(c), "\"exp\":"@, dec_str(c.exp as nat));
    lemma_walk_member_exp(u, off_exp(c), c.exp, acc1, fin);
    match c.aud {
        Some(sv) => {
            assert(aud_part(c) == ("\"aud\":"@ + json_string(sv)) + seq![',']);
            lemma_walk_member_aud(u, 1, sv, empty_acc(), fin);
            assert(u[1] == '"');
        },
        None => {
            assert(empty_acc() == acc1);
            assert(off_exp(c) == 1);
            assert(u[1] == '"');
        },
    }
    assert(u.len() >= 2);
    assert(u[1] != '}');
    assert(sp_members(u, 1, empty_acc()) == Some((fin, u.len() as int)));
}

} // verus!
