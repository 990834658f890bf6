use vstd::prelude::*;
use crate::text::{chars_of, dquoted, ident_left_bare, push_str, quote_identifier, str_is, string_of};

verus! {

broadcast use vstd::std_specs::vec::group_vec_axioms, vstd::seq::group_seq_axioms;

/// How an operator's arguments are written: between its name (`a + b`) or in parentheses
/// after it (`s_intersects(a, b)`).
#[derive(Clone, Copy, Debug, PartialEq, Eq, Structural)]
pub enum OpType {
    Op,
    Func,
}

/// The type that an operator casts its arguments to.
#[derive(Clone, Copy, Debug, PartialEq, Eq, Structural)]
pub enum Cast {
    String,
    Float,
    Timestamptz,
    StringArray,
    Wkt,
    Bool,
    DtRange,
}

/// How one operator is written in a template.
#[derive(Debug)]
pub struct Op {
    pub name: String,
    pub args: Option<usize>,
    pub optype: OpType,
    pub template: Option<String>,
    pub cast: Option<Cast>,
}

/// Templating configuration for the known operators, one entry per name.
#[derive(Debug)]
pub struct Ops {
    pub ops: Vec<Op>,
}

/// The number of arguments an operator has unless it says otherwise.
pub fn default_args() -> (r: Option<usize>)
    ensures
        r == Some(2usize),
{
    Some(2)
}

/// `n` copies of `s` with `j` between each two.
pub open spec fn repeated(s: Seq<char>, j: Seq<char>, n: nat) -> Seq<char>
    decreases n,
{
    if n == 0 {
        seq![]
    } else if n == 1 {
        s
    } else {
        repeated(s, j, (n - 1) as nat) + j + s
    }
}

/// `n` copies of `s` joined by `j`.
pub fn repeat_join(s: &str, j: &str, n: usize) -> (r: String)
    ensures
        r@ == repeated(s@, j@, n as nat),
{
    let mut out: Vec<char> = Vec::new();
    let mut i: usize = 0;
    while i < n
        invariant
            i <= n,
            out@ == repeated(s@, j@, i as nat),
        decreases n - i,
    {
        if i > 0 {
            push_str(&mut out, j);
        }
        push_str(&mut out, s);
        i = i + 1;
        assert(out@ =~= repeated(s@, j@, i as nat));
    }
    string_of(&out)
}

/// `s` with a space on each side.
pub fn pad(s: &str) -> (r: String)
    ensures
        r@ == seq![' '] + s@ + seq![' '],
{
    let mut out = chars_of(" ");
    push_str(&mut out, s);
    push_str(&mut out, " ");
    proof {
        reveal_strlit(" ");
    }
    assert(out@ =~= seq![' '] + s@ + seq![' ']);
    string_of(&out)
}

/// Whether `s` starts with `(` and ends with `)`.
pub open spec fn in_parens(s: Seq<char>) -> bool {
    s.len() > 0 && s[0] == '(' && s.last() == ')'
}

fn parens_exec(s: &str) -> (r: bool)
    ensures
        r == in_parens(s@),
{
    let cs = chars_of(s);
    cs.len() > 0 && cs[0] == '(' && cs[cs.len() - 1] == ')'
}

/// `s` in parentheses, unless it starts with `(` and ends with `)` already.
pub fn add_parens(s: String) -> (r: String)
    ensures
        r@ == if in_parens(s@) {
            s@
        } else {
            seq!['('] + s@ + seq![')']
        },
{
    if parens_exec(s.as_str()) {
        s
    } else {
        let mut out: Vec<char> = Vec::new();
        out.push('(');
        push_str(&mut out, s.as_str());
        out.push(')');
        assert(out@ =~= seq!['('] + s@ + seq![')']);
        string_of(&out)
    }
}

/// `s` without its outer parentheses, where it starts with `(` and ends with `)`.
pub fn rm_parens(s: String) -> (r: String)
    ensures
        r@ == if s@.len() >= 2 && in_parens(s@) {
            s@.subrange(1, s@.len() - 1)
        } else {
            s@
        },
{
    let cs = chars_of(s.as_str());
    if cs.len() >= 2 && parens_exec(s.as_str()) {
        let inner = crate::decode::slice_chars(&cs, 1, cs.len() - 1);
        string_of(&inner)
    } else {
        s
    }
}

/// The name an operator has in a template: `AND` and `OR` upper-cased.
pub open spec fn template_name(name: Seq<char>) -> Seq<char> {
    if name == "and"@ {
        "AND"@
    } else if name == "or"@ {
        "OR"@
    } else {
        name
    }
}

/// The template of an operator: its own where it has one; else the placeholders joined by
/// the padded name in parentheses, or the quoted name with the placeholders as arguments.
pub open spec fn template_of(op: &Op, nargs: Option<usize>, placeholder: Option<Seq<char>>) -> Seq<char> {
    let p = match placeholder {
        Some(p) => p,
        None => "{}"@,
    };
    let n: nat = match op.args {
        Some(a) => a as nat,
        None => match nargs {
            Some(a) => a as nat,
            None => 2,
        },
    };
    let name = template_name(op.name@);
    match op.template {
        Some(t) => t@,
        None => match op.optype {
            OpType::Func => (if ident_left_bare(name) {
                name
            } else {
                dquoted(name)
            }) + "("@ + repeated(p, ", "@, n) + ")"@,
            OpType::Op => "("@ + repeated(p, seq![' '] + name + seq![' '], n) + ")"@,
        },
    }
}

impl Op {
    /// The template of this operator for `nargs` arguments, with `placeholder` (`{}` by
    /// default) where each argument goes.
    pub fn get_template(&self, nargs: Option<usize>, placeholder: Option<&str>) -> (r: String)
        ensures
            r@ == template_of(
                self,
                nargs,
                match placeholder {
                    Some(p) => Some(p@),
                    None => None,
                },
            ),
    {
        let p: &str = match placeholder {
            Some(p) => p,
            None => "{}",
        };
        let n: usize = match self.args {
            Some(a) => a,
            None => match nargs {
                Some(a) => a,
                None => 2,
            },
        };
        let name: String = if str_is(self.name.as_str(), "and") {
            "AND".to_owned()
        } else if str_is(self.name.as_str(), "or") {
            "OR".to_owned()
        } else {
            self.name.clone()
        };
        match &self.template {
            Some(t) => t.clone(),
            None => match self.optype {
                OpType::Func => {
                    let q = quote_identifier(name.as_str());
                    let mut out = chars_of(q.as_str());
                    push_str(&mut out, "(");
                    let body = repeat_join(p, ", ", n);
                    push_str(&mut out, body.as_str());
                    push_str(&mut out, ")");
                    string_of(&out)
                },
                OpType::Op => {
                    let sep = pad(name.as_str());
                    let mut out = chars_of("(");
                    let body = repeat_join(p, sep.as_str(), n);
                    push_str(&mut out, body.as_str());
                    push_str(&mut out, ")");
                    string_of(&out)
                },
            },
        }
    }
}

/// The operators that are written between their arguments.
pub open spec fn is_infix_name(n: Seq<char>) -> bool {
    n == "and"@ || n == "or"@ || n == "="@ || n == "<>"@ || n == "<"@ || n == "<="@ || n == ">"@
        || n == ">="@ || n == "+"@ || n == "-"@ || n == "*"@ || n == "/"@ || n == "%"@ || n
        == "^"@ || n == "like"@ || n == "in"@
}

/// The names of the operators that the library knows.
pub fn operator_names() -> (r: Vec<&'static str>)
    ensures
        r.len() == 48,
{
    vec![
    "and", "or", "not", "isnull", "=", "<>", "<", "<=", ">", ">=", "+", "-", "*", "/", "%", "^",
    "like", "casei", "accenti", "in", "between", "s_equals", "s_intersects", "s_disjoint",
    "s_touches", "s_within", "s_overlaps", "s_crosses", "s_contains", "t_before", "t_after",
    "t_meets", "t_metby", "t_overlaps", "t_overlappedby", "t_starts", "t_startedby", "t_during",
    "t_contains", "t_finishes", "t_finishedby", "t_equals", "t_disjoint", "t_intersects",
    "a_equals", "a_contains", "a_containedby", "a_overlaps",
    ]
}

impl Ops {
    /// The operators, one entry per name.
    pub fn inner(&self) -> (r: &Vec<Op>)
        ensures
            r@ == self.ops@,
    {
        &self.ops
    }

    /// The number of operators.
    pub fn len(&self) -> (r: usize)
        ensures
            r == self.ops@.len(),
    {
        self.inner().len()
    }

    /// The operator named `k`.
    pub fn get(&self, k: &str) -> (r: Option<&Op>)
        ensures
            r matches Some(op) ==> op.name@ == k@ && exists|i: int|
                0 <= i < self.ops@.len() && self.ops@[i] == *op,
            r is None ==> forall|i: int| 0 <= i < self.ops@.len() ==> #[trigger] self.ops@[i].name@ != k@,
    {
        let mut i: usize = 0;
        while i < self.ops.len()
            invariant
                i <= self.ops.len(),
                forall|j: int| 0 <= j < i ==> #[trigger] self.ops@[j].name@ != k@,
            decreases self.ops.len() - i,
        {
            if str_is(self.ops[i].name.as_str(), k) {
                return Some(&self.ops[i]);
            }
            i = i + 1;
        }
        None
    }

    /// The configuration of the operators that the library knows: the infix ones written
    /// between their arguments, the others as functions; `not`, `isnull`, `casei` and
    /// `accenti` take one argument and `between` three.
    pub fn new() -> (r: Ops)
        ensures
            r.ops@.len() == 48,
            forall|i: int| 0 <= i < r.ops@.len() ==> (#[trigger] r.ops@[i]).template is None
                && r.ops@[i].cast is None && (r.ops@[i].optype == OpType::Op <==> is_infix_name(
                r.ops@[i].name@,
            )),
    {
        let names = operator_names();
        let mut ops: Vec<Op> = Vec::new();
        let mut i: usize = 0;
        while i < 48
            invariant
                i <= 48,
                names.len() == 48,
                ops@.len() == i,
                forall|j: int| 0 <= j < ops@.len() ==> (#[trigger] ops@[j]).template is None
                    && ops@[j].cast is None && (ops@[j].optype == OpType::Op <==> is_infix_name(
                    ops@[j].name@,
                )),
            decreases 48 - i,
        {
            let name: &str = names[i];
            let infix = str_is(name, "and") || str_is(name, "or") || str_is(name, "=") || str_is(
                name,
                "<>",
            ) || str_is(name, "<") || str_is(name, "<=") || str_is(name, ">") || str_is(name, ">=")
                || str_is(name, "+") || str_is(name, "-") || str_is(name, "*") || str_is(name, "/")
                || str_is(name, "%") || str_is(name, "^") || str_is(name, "like") || str_is(
                name,
                "in",
            );
            let args: usize = if str_is(name, "not") || str_is(name, "isnull") || str_is(
                name,
                "casei",
            ) || str_is(name, "accenti") {
                1
            } else if str_is(name, "between") {
                3
            } else {
                2
            };
            ops.push(
                Op {
                    name: name.to_owned(),
                    args: Some(args),
                    optype: if infix {
                        OpType::Op
                    } else {
                        OpType::Func
                    },
                    template: None,
                    cast: None,
                },
            );
            i = i + 1;
        }
        Ops { ops }
    }
}

} // verus!
