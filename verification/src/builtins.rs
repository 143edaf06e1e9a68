use crate::associativity::{Associativity, Precedence};
use crate::environment::entries_view;
use crate::frontend::chars::string_from;
use vstd::prelude::*;

verus! {

// The operators and functions the language has built in. What they compute is up to the
// program that runs the lowered code; the compiler needs their names and the operators'
// precedences.

/// The built-in operators with their precedences, all grouping to the left.
pub open spec fn native_operator_table() -> Seq<(Seq<char>, Precedence)> {
    seq![
        ("+"@, Precedence { prec: 5, assoc: Associativity::Left }),
        ("-"@, Precedence { prec: 5, assoc: Associativity::Left }),
        ("*"@, Precedence { prec: 6, assoc: Associativity::Left }),
        ("/"@, Precedence { prec: 6, assoc: Associativity::Left }),
        ("%"@, Precedence { prec: 6, assoc: Associativity::Left }),
        ("=="@, Precedence { prec: 4, assoc: Associativity::Left }),
        ("!="@, Precedence { prec: 4, assoc: Associativity::Left }),
        (">="@, Precedence { prec: 4, assoc: Associativity::Left }),
        ("<="@, Precedence { prec: 4, assoc: Associativity::Left }),
        (">"@, Precedence { prec: 4, assoc: Associativity::Left }),
        ("<"@, Precedence { prec: 4, assoc: Associativity::Left }),
        ("||"@, Precedence { prec: 4, assoc: Associativity::Left }),
        ("&&"@, Precedence { prec: 4, assoc: Associativity::Left })
    ]
}

/// The names of everything built in: the operators, then the functions `print`, `time`, `len`
/// and the negations `$$not` and `$$neg` that unary operators become.
pub open spec fn builtin_name_list() -> Seq<Seq<char>> {
    seq![
        "+"@,
        "-"@,
        "*"@,
        "/"@,
        "%"@,
        "=="@,
        "!="@,
        ">="@,
        "<="@,
        ">"@,
        "<"@,
        "||"@,
        "&&"@,
        "print"@,
        "time"@,
        "len"@,
        "$$not"@,
        "$$neg"@
    ]
}

/// The built-in operators with their precedences.
pub fn native_operators() -> (r: Vec<(String, Precedence)>)
    ensures
        entries_view(r@) == native_operator_table(),
{
    let mut r: Vec<(String, Precedence)> = Vec::new();
    r.push((string_from("+"), Precedence { prec: 5, assoc: Associativity::Left }));
    r.push((string_from("-"), Precedence { prec: 5, assoc: Associativity::Left }));
    r.push((string_from("*"), Precedence { prec: 6, assoc: Associativity::Left }));
    r.push((string_from("/"), Precedence { prec: 6, assoc: Associativity::Left }));
    r.push((string_from("%"), Precedence { prec: 6, assoc: Associativity::Left }));
    r.push((string_from("=="), Precedence { prec: 4, assoc: Associativity::Left }));
    r.push((string_from("!="), Precedence { prec: 4, assoc: Associativity::Left }));
    r.push((string_from(">="), Precedence { prec: 4, assoc: Associativity::Left }));
    r.push((string_from("<="), Precedence { prec: 4, assoc: Associativity::Left }));
    r.push((string_from(">"), Precedence { prec: 4, assoc: Associativity::Left }));
    r.push((string_from("<"), Precedence { prec: 4, assoc: Associativity::Left }));
    r.push((string_from("||"), Precedence { prec: 4, assoc: Associativity::Left }));
    r.push((string_from("&&"), Precedence { prec: 4, assoc: Associativity::Left }));
    assert(entries_view(r@) =~= native_operator_table());
    r
}

/// The names of everything built in.
pub fn builtin_names() -> (r: Vec<String>)
    ensures
        r@.map_values(|s: String| s@) == builtin_name_list(),
{
    let mut r: Vec<String> = Vec::new();
    r.push(string_from("+"));
    r.push(string_from("-"));
    r.push(string_from("*"));
    r.push(string_from("/"));
    r.push(string_from("%"));
    r.push(string_from("=="));
    r.push(string_from("!="));
    r.push(string_from(">="));
    r.push(string_from("<="));
    r.push(string_from(">"));
    r.push(string_from("<"));
    r.push(string_from("||"));
    r.push(string_from("&&"));
    r.push(string_from("print"));
    r.push(string_from("time"));
    r.push(string_from("len"));
    r.push(string_from("$$not"));
    r.push(string_from("$$neg"));
    assert(r@.map_values(|s: String| s@) =~= builtin_name_list());
    r
}

} // verus!
