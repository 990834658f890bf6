use vstd::prelude::*;
use crate::json::{json_view, json_views, lemma_json_views, lemma_member_views, member_views, Json, JsonV};
use crate::number::number_text;
use crate::text::{chars_of, push_chars, push_str};

verus! {

broadcast use vstd::std_specs::vec::group_vec_axioms, vstd::seq::group_seq_axioms;

/// The hexadecimal digit of `d < 16`.
pub open spec fn hex_digit(d: nat) -> char {
    if d < 10 {
        ((48 + d) as u32) as char
    } else {
        ((87 + d) as u32) as char
    }
}

/// A character inside a JSON string: `"` and `\` escaped, the usual short escapes, other
/// control characters as `\u00XX`.
pub open spec fn escaped_char(c: char) -> Seq<char> {
    if c == '"' {
        seq!['\\', '"']
    } else if c == '\\' {
        seq!['\\', '\\']
    } else if c == '\n' {
        seq!['\\', 'n']
    } else if c == '\r' {
        seq!['\\', 'r']
    } else if c == '\t' {
        seq!['\\', 't']
    } else if (c as u32) < 32 {
        seq!['\\', 'u', '0', '0', hex_digit((c as u32 / 16) as nat), hex_digit((c as u32 % 16) as nat)]
    } else {
        seq![c]
    }
}

/// The characters of a string, escaped for JSON.
pub open spec fn escaped(s: Seq<char>) -> Seq<char>
    decreases s.len(),
{
    if s.len() == 0 {
        seq![]
    } else {
        escaped(s.drop_last()) + escaped_char(s.last())
    }
}

/// A JSON string literal.
pub open spec fn string_text(s: Seq<char>) -> Seq<char> {
    seq!['"'] + escaped(s) + seq!['"']
}

/// The texts of a sequence of JSON values.
pub open spec fn values_text(js: Seq<JsonV>) -> Seq<Seq<char>>
    decreases js,
{
    if js.len() == 0 {
        seq![]
    } else {
        values_text(js.subrange(0, js.len() - 1)).push(json_text(js[js.len() - 1]))
    }
}

/// The texts `"key":value` of the members of an object.
pub open spec fn members_text(ms: Seq<(Seq<char>, JsonV)>) -> Seq<Seq<char>>
    decreases ms,
{
    if ms.len() == 0 {
        seq![]
    } else {
        let last = ms[ms.len() - 1];
        members_text(ms.subrange(0, ms.len() - 1)).push(
            string_text(last.0) + seq![':'] + json_text(last.1),
        )
    }
}

/// Compact JSON text: no white space, members in their order.
pub open spec fn json_text(j: JsonV) -> Seq<char>
    decreases j,
{
    match j {
        JsonV::Null => "null"@,
        JsonV::Bool(b) => if b {
            "true"@
        } else {
            "false"@
        },
        JsonV::Number(n) => number_text(n),
        JsonV::Str(s) => string_text(s),
        JsonV::Array(vs) => seq!['['] + crate::expr::join(values_text(vs), seq![',']) + seq![']'],
        JsonV::Object(ms) => seq!['{'] + crate::expr::join(members_text(ms), seq![',']) + seq!['}'],
        JsonV::Raw(t) => t,
    }
}

fn hex_exec(d: u32) -> (c: char)
    requires
        d < 16,
    ensures
        c == hex_digit(d as nat),
{
    let digits = vec!['0', '1', '2', '3', '4', '5', '6', '7', '8', '9', 'a', 'b', 'c', 'd', 'e', 'f'];
    let c = digits[d as usize];
    assert(c == hex_digit(d as nat)) by {
        reveal_with_fuel(hex_digit, 1);
        if d == 0 { assert(c == '0'); } else if d == 1 { assert(c == '1'); } else if d == 2 { assert(c == '2'); }
        else if d == 3 { assert(c == '3'); } else if d == 4 { assert(c == '4'); } else if d == 5 { assert(c == '5'); }
        else if d == 6 { assert(c == '6'); } else if d == 7 { assert(c == '7'); } else if d == 8 { assert(c == '8'); }
        else if d == 9 { assert(c == '9'); } else if d == 10 { assert(c == 'a'); } else if d == 11 { assert(c == 'b'); }
        else if d == 12 { assert(c == 'c'); } else if d == 13 { assert(c == 'd'); } else if d == 14 { assert(c == 'e'); }
        else { assert(c == 'f'); }
    }
    c
}

/// Appends a string literal in JSON.
pub fn push_string(out: &mut Vec<char>, s: &str)
    ensures
        final(out)@ == old(out)@ + string_text(s@),
{
    let cs = chars_of(s);
    let ghost start = out@;
    out.push('"');
    let mut i: usize = 0;
    while i < cs.len()
        invariant
            i <= cs.len(),
            out@ == start + seq!['"'] + escaped(cs@.subrange(0, i as int)),
        decreases cs.len() - i,
    {
        let c = cs[i];
        let ghost before = out@;
        if c == '"' {
            out.push('\\');
            out.push('"');
        } else if c == '\\' {
            out.push('\\');
            out.push('\\');
        } else if c == '\n' {
            out.push('\\');
            out.push('n');
        } else if c == '\r' {
            out.push('\\');
            out.push('r');
        } else if c == '\t' {
            out.push('\\');
            out.push('t');
        } else if (c as u32) < 32 {
            out.push('\\');
            out.push('u');
            out.push('0');
            out.push('0');
            out.push(hex_exec(c as u32 / 16));
            out.push(hex_exec(c as u32 % 16));
        } else {
            out.push(c);
        }
        assert(out@ =~= before + escaped_char(c));
        proof {
            let sub = cs@.subrange(0, i + 1);
            assert(sub.drop_last() =~= cs@.subrange(0, i as int));
        }
        i = i + 1;
        assert(out@ =~= start + seq!['"'] + escaped(cs@.subrange(0, i as int)));
    }
    out.push('"');
    assert(cs@.subrange(0, cs.len() as int) =~= cs@);
    assert(out@ =~= start + string_text(s@));
}

/// Appends texts with commas between them.
fn push_joined(out: &mut Vec<char>, ts: &Vec<Vec<char>>)
    ensures
        final(out)@ == old(out)@ + crate::expr::join(ts@.map_values(|t: Vec<char>| t@), seq![',']),
{
    let j = crate::expr::join_chars(ts, ",");
    proof {
        reveal_strlit(",");
        assert(","@ =~= seq![',']);
    }
    push_chars(out, &j);
}

impl Json {
    /// The compact JSON text of this value.
    pub fn text_chars(&self) -> (r: Vec<char>)
        ensures
            r@ == json_text(self@),
        decreases *self, 1nat,
    {
        match self {
            Json::Null => chars_of("null"),
            Json::Bool(b) => chars_of(if *b { "true" } else { "false" }),
            Json::Number(n) => n.to_chars(),
            Json::Raw(t) => chars_of(t.as_str()),
            Json::Str(s) => {
                let mut out: Vec<char> = Vec::new();
                push_string(&mut out, s.as_str());
                assert(out@ =~= string_text(s@));
                out
            },
            Json::Array(vs) => {
                let ts = texts_of_values(vs);
                let mut out: Vec<char> = Vec::new();
                out.push('[');
                push_joined(&mut out, &ts);
                out.push(']');
                assert(out@ =~= json_text(self@));
                out
            },
            Json::Object(ms) => {
                let ts = texts_of_members(ms);
                let mut out: Vec<char> = Vec::new();
                out.push('{');
                push_joined(&mut out, &ts);
                out.push('}');
                assert(out@ =~= json_text(self@));
                out
            },
        }
    }
}

/// The texts of JSON values.
fn texts_of_values(vs: &Vec<Json>) -> (r: Vec<Vec<char>>)
    ensures
        r@.map_values(|t: Vec<char>| t@) == values_text(json_views(vs@)),
    decreases vs@, 0nat,
{
    let mut out: Vec<Vec<char>> = Vec::new();
    let mut i: usize = 0;
    while i < vs.len()
        invariant
            i <= vs.len(),
            out@.map_values(|t: Vec<char>| t@) == values_text(json_views(vs@.subrange(0, i as int))),
        decreases vs.len() - i,
    {
        proof {
            assert(decreases_to!(vs@ => vs@[i as int]));
        }
        let t = vs[i].text_chars();
        let ghost before = out@;
        out.push(t);
        proof {
            let sub = vs@.subrange(0, i + 1);
            assert(sub.subrange(0, i as int) =~= vs@.subrange(0, i as int));
            lemma_json_views(vs@.subrange(0, i as int));
            assert(json_views(sub).subrange(0, i as int) =~= json_views(vs@.subrange(0, i as int)));
            assert(out@.map_values(|t: Vec<char>| t@) =~= before.map_values(|t: Vec<char>| t@).push(t@));
        }
        i = i + 1;
    }
    assert(vs@.subrange(0, vs.len() as int) =~= vs@);
    out
}

/// The texts `"key":value` of object members.
fn texts_of_members(ms: &Vec<(String, Json)>) -> (r: Vec<Vec<char>>)
    ensures
        r@.map_values(|t: Vec<char>| t@) == members_text(member_views(ms@)),
    decreases ms@, 0nat,
{
    let mut out: Vec<Vec<char>> = Vec::new();
    let mut i: usize = 0;
    while i < ms.len()
        invariant
            i <= ms.len(),
            out@.map_values(|t: Vec<char>| t@) == members_text(member_views(ms@.subrange(0, i as int))),
        decreases ms.len() - i,
    {
        proof {
            assert(decreases_to!(ms@ => ms@[i as int]));
            assert(decreases_to!(ms@[i as int] => ms@[i as int].1));
        }
        let v = ms[i].1.text_chars();
        let mut t: Vec<char> = Vec::new();
        push_string(&mut t, ms[i].0.as_str());
        t.push(':');
        push_chars(&mut t, &v);
        let ghost before = out@;
        out.push(t);
        proof {
            let sub = ms@.subrange(0, i + 1);
            assert(sub.subrange(0, i as int) =~= ms@.subrange(0, i as int));
            lemma_member_views(ms@.subrange(0, i as int));
            assert(member_views(sub).subrange(0, i as int) =~= member_views(ms@.subrange(0, i as int)));
            assert(t@ =~= string_text(ms@[i as int].0@) + seq![':'] + json_text(ms@[i as int].1@));
            assert(out@.map_values(|t: Vec<char>| t@) =~= before.map_values(|t: Vec<char>| t@).push(t@));
        }
        i = i + 1;
    }
    assert(ms@.subrange(0, ms.len() as int) =~= ms@);
    out
}

} // verus!
