use vstd::prelude::*;

verus! {

/// Relies on std's `str::chars` collected into a `Vec`: the characters of `s`, in order.
#[verifier::external_body]
pub fn chars_of(s: &str) -> (r: Vec<char>)
    ensures
        r@ == s@,
{
    s.chars().collect()
}

/// Relies on std's `FromIterator<&char>` for `String`: the string made of the characters of `v`.
#[verifier::external_body]
pub fn string_of(v: &Vec<char>) -> (r: String)
    ensures
        r@ == v@,
{
    v.iter().collect()
}

/// Appends the characters of `s` to `out`.
pub fn push_str(out: &mut Vec<char>, s: &str)
    ensures
        final(out)@ == old(out)@ + s@,
{
    let cs = chars_of(s);
    push_chars(out, &cs);
}

/// Appends the characters of `cs` to `out`.
pub fn push_chars(out: &mut Vec<char>, cs: &Vec<char>)
    ensures
        final(out)@ == old(out)@ + cs@,
{
    let ghost start = out@;
    let mut i: usize = 0;
    while i < cs.len()
        invariant
            i <= cs.len(),
            out@ == start + cs@.subrange(0, i as int),
        decreases cs.len() - i,
    {
        out.push(cs[i]);
        i = i + 1;
        assert(out@ =~= start + cs@.subrange(0, i as int));
    }
    assert(cs@.subrange(0, cs.len() as int) =~= cs@);
}

/// Whether two character sequences are equal.
pub fn chars_eq(a: &Vec<char>, b: &Vec<char>) -> (r: bool)
    ensures
        r == (a@ == b@),
{
    if a.len() != b.len() {
        return false;
    }
    let mut i: usize = 0;
    while i < a.len()
        invariant
            a.len() == b.len(),
            i <= a.len(),
            a@.subrange(0, i as int) == b@.subrange(0, i as int),
        decreases a.len() - i,
    {
        if a[i] != b[i] {
            assert(a@[i as int] != b@[i as int]);
            return false;
        }
        assert(a@.subrange(0, i + 1) =~= a@.subrange(0, i as int).push(a@[i as int]));
        assert(b@.subrange(0, i + 1) =~= b@.subrange(0, i as int).push(b@[i as int]));
        i = i + 1;
    }
    assert(a@ =~= a@.subrange(0, i as int));
    assert(b@ =~= b@.subrange(0, i as int));
    true
}

/// Whether the string `s` has the characters `t`.
pub fn str_is(s: &str, t: &str) -> (r: bool)
    ensures
        r == (s@ == t@),
{
    let a = chars_of(s);
    let b = chars_of(t);
    chars_eq(&a, &b)
}

/// Lexicographic order on character sequences, by code point.
pub open spec fn seq_lt(a: Seq<char>, b: Seq<char>) -> bool
    decreases a.len(),
{
    if b.len() == 0 {
        false
    } else if a.len() == 0 {
        true
    } else if a[0] != b[0] {
        a[0] < b[0]
    } else {
        seq_lt(a.drop_first(), b.drop_first())
    }
}

/// The code-point order on character sequences is irreflexive, asymmetric and total.
pub proof fn lemma_seq_lt_order(a: Seq<char>, b: Seq<char>)
    ensures
        !seq_lt(a, a),
        seq_lt(a, b) ==> !seq_lt(b, a),
        a != b ==> seq_lt(a, b) || seq_lt(b, a),
    decreases a.len(),
{
    if a.len() > 0 {
        lemma_seq_lt_order(a.drop_first(), a.drop_first());
    }
    if a.len() > 0 && b.len() > 0 {
        lemma_seq_lt_order(a.drop_first(), b.drop_first());
        if a != b && a[0] == b[0] {
            assert(a.drop_first() != b.drop_first()) by {
                if a.drop_first() == b.drop_first() {
                    assert(a =~= seq![a[0]] + a.drop_first());
                    assert(b =~= seq![b[0]] + b.drop_first());
                }
            }
        }
    } else if a.len() == 0 && b.len() == 0 {
        assert(a =~= b);
    }
}

/// The code-point order on character sequences is transitive.
pub proof fn lemma_seq_lt_trans(a: Seq<char>, b: Seq<char>, c: Seq<char>)
    requires
        seq_lt(a, b),
        seq_lt(b, c),
    ensures
        seq_lt(a, c),
    decreases a.len(),
{
    if a.len() > 0 && b.len() > 0 && c.len() > 0 && a[0] == b[0] && b[0] == c[0] {
        lemma_seq_lt_trans(a.drop_first(), b.drop_first(), c.drop_first());
    }
}

/// Whether `a` comes strictly before `b` in code-point order.
pub fn chars_lt(a: &Vec<char>, b: &Vec<char>) -> (r: bool)
    ensures
        r == seq_lt(a@, b@),
{
    let mut i: usize = 0;
    assert(a@.skip(0) =~= a@);
    assert(b@.skip(0) =~= b@);
    while i < a.len() && i < b.len() && a[i] == b[i]
        invariant
            i <= a.len(),
            i <= b.len(),
            seq_lt(a@, b@) == seq_lt(a@.skip(i as int), b@.skip(i as int)),
        decreases a.len() - i,
    {
        proof {
            let sa = a@.skip(i as int);
            let sb = b@.skip(i as int);
            assert(sa.drop_first() =~= a@.skip(i + 1));
            assert(sb.drop_first() =~= b@.skip(i + 1));
        }
        i = i + 1;
    }
    proof {
        let sa = a@.skip(i as int);
        let sb = b@.skip(i as int);
        if i < a.len() && i < b.len() {
            assert(sa[0] == a@[i as int] && sb[0] == b@[i as int]);
        }
    }
    if i == b.len() {
        false
    } else if i == a.len() {
        true
    } else {
        a[i] < b[i]
    }
}

/// Lower-cases ASCII letters and leaves every other character as it is.
pub open spec fn ascii_lower(c: char) -> char {
    if 'A' <= c && c <= 'Z' {
        ((c as u32) + 32) as char
    } else {
        c
    }
}

/// Whether `c` is an ASCII letter.
pub open spec fn is_alpha(c: char) -> bool {
    ('a' <= c && c <= 'z') || ('A' <= c && c <= 'Z')
}

/// Whether `c` is an ASCII digit.
pub open spec fn is_digit(c: char) -> bool {
    '0' <= c && c <= '9'
}

/// The characters of `s` with `"` doubled.
pub open spec fn doubled_dquotes(s: Seq<char>) -> Seq<char>
    decreases s.len(),
{
    if s.len() == 0 {
        seq![]
    } else {
        let front = doubled_dquotes(s.drop_last());
        if s.last() == '"' {
            front + seq!['"', '"']
        } else {
            front.push(s.last())
        }
    }
}

/// Whether `c` may start a bare identifier.
pub open spec fn is_ident_start(c: char) -> bool {
    is_alpha(c) || c == '_'
}

/// Whether `c` may continue a bare identifier.
pub open spec fn is_ident_char(c: char) -> bool {
    is_alpha(c) || is_digit(c) || c == '_'
}

/// Whether `s` is written bare in cql2-text: a letter or `_`, then letters, digits or `_`.
pub open spec fn is_bare_ident(s: Seq<char>) -> bool {
    s.len() > 0 && is_ident_start(s[0]) && forall|i: int| 1 <= i < s.len() ==> is_ident_char(
        #[trigger] s[i],
    )
}

/// An identifier as cql2-text writes it: bare where it can be, else in double quotes.
pub open spec fn ident_text(s: Seq<char>) -> Seq<char> {
    if is_bare_ident(s) {
        s
    } else {
        dquoted(s)
    }
}

/// The identifier `s` as cql2-text writes it.
pub fn ident_chars(s: &str) -> (r: Vec<char>)
    ensures
        r@ == ident_text(s@),
{
    let cs = chars_of(s);
    let n = cs.len();
    let mut bare = n > 0 && (('a' <= cs[0] && cs[0] <= 'z') || ('A' <= cs[0] && cs[0] <= 'Z')
        || cs[0] == '_');
    let mut i: usize = 1;
    while bare && i < n
        invariant
            n == cs.len(),
            1 <= i,
            bare ==> n > 0 && is_ident_start(cs@[0]),
            bare ==> forall|j: int| 1 <= j < i && j < n ==> is_ident_char(#[trigger] cs@[j]),
            !bare ==> !is_bare_ident(cs@),
        decreases n - i,
    {
        let c = cs[i];
        if !(('a' <= c && c <= 'z') || ('A' <= c && c <= 'Z') || ('0' <= c && c <= '9') || c
            == '_') {
            assert(!is_ident_char(cs@[i as int]));
            bare = false;
        }
        i = i + 1;
    }
    if bare {
        assert(is_bare_ident(cs@));
        return cs;
    }
    let mut out: Vec<char> = Vec::new();
    out.push('"');
    let mut k: usize = 0;
    while k < n
        invariant
            n == cs.len(),
            k <= n,
            out@ == seq!['"'] + doubled_dquotes(cs@.subrange(0, k as int)),
        decreases n - k,
    {
        let c = cs[k];
        if c == '"' {
            out.push('"');
        }
        out.push(c);
        proof {
            let sub = cs@.subrange(0, k + 1);
            assert(sub.drop_last() =~= cs@.subrange(0, k as int));
        }
        k = k + 1;
        assert(out@ =~= seq!['"'] + doubled_dquotes(cs@.subrange(0, k as int)));
    }
    out.push('"');
    assert(cs@.subrange(0, n as int) =~= cs@);
    assert(out@ =~= dquoted(cs@));
    out
}

/// An identifier in double quotes, with inner double quotes doubled.
pub open spec fn dquoted(s: Seq<char>) -> Seq<char> {
    seq!['"'] + doubled_dquotes(s) + seq!['"']
}

/// Whether a character may stand in a bare identifier after the first.
pub open spec fn bare_ident_char(c: char) -> bool {
    ('a' <= c && c <= 'z') || ('0' <= c && c <= '9') || c == '_'
}

/// Whether PostgreSQL quoting leaves the identifier `s` bare.
pub uninterp spec fn ident_left_bare(s: Seq<char>) -> bool;

/// Relies on pg_escape::quote_identifier, which returns the identifier unchanged or in double
/// quotes with inner double quotes doubled. It quotes any identifier with a character outside
/// `a-z`, `0-9`, `_`, or that starts with a digit; whether a keyword is quoted is its own list.
#[verifier::external_body]
pub fn quote_identifier(s: &str) -> (r: String)
    ensures
        r@ == (if ident_left_bare(s@) {
            s@
        } else {
            dquoted(s@)
        }),
        (exists|i: int| 0 <= i < s@.len() && !bare_ident_char(#[trigger] s@[i])) ==> r@ == dquoted(
            s@,
        ),
        (s@.len() > 0 && is_digit(s@[0])) ==> r@ == dquoted(s@),
{
    pg_escape::quote_identifier(s).into_owned()
}

} // verus!
