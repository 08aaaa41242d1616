//! Command classification: turning one raw text line into a typed command.
//!
//! The grammar has three shapes, tried in order; the first that matches wins:
//!
//! 1. `Add <word> to <word>` — add an employee to a department;
//! 2. `Show employees from <word>` — list one department;
//! 3. a line beginning with the literal `Show all employees` — list
//!    everything (arbitrary trailing content is permitted).
//!
//! Anything else is a classification failure.
//!
//! For shapes 1 and 2 the line is split on whitespace and must consist of
//! exactly four tokens, with the literal tokens in their fixed positions; the
//! variable words are the tokens at index 1 (employee) and index 3
//! (department).

use vstd::prelude::*;

verus! {

/// The characters that separate tokens: ASCII whitespace.
pub open spec fn is_space(c: char) -> bool {
    c == ' ' || c == '\t' || c == '\n' || c == '\r'
}

/// The whitespace-split tokens of `s`: the maximal runs of non-space
/// characters, in order. Defined by recursion on the last character: a space
/// ends (or stays outside) a token, a non-space character either starts a new
/// token or extends the token it is part of.
pub open spec fn spec_tokens(s: Seq<char>) -> Seq<Seq<char>>
    decreases s.len(),
{
    if s.len() == 0 {
        Seq::empty()
    } else {
        let prev = spec_tokens(s.drop_last());
        let c = s.last();
        if is_space(c) {
            prev
        } else if s.len() == 1 {
            prev.push(seq![c])
        } else if is_space(s[s.len() - 2]) {
            prev.push(seq![c])
        } else {
            prev.update(prev.len() - 1, prev.last().push(c))
        }
    }
}

/// Every token is a non-empty run of non-space characters; and a string
/// ending in a non-space character has at least one token.
pub proof fn lemma_tokens_well_formed(s: Seq<char>)
    ensures
        forall|k: int| 0 <= k < spec_tokens(s).len() ==> (#[trigger] spec_tokens(s)[k]).len() > 0,
        forall|k: int, c: int|
            0 <= k < spec_tokens(s).len() && 0 <= c < spec_tokens(s)[k].len() ==> !is_space(
                #[trigger] spec_tokens(s)[k][c],
            ),
        s.len() > 0 && !is_space(s.last()) ==> spec_tokens(s).len() > 0,
    decreases s.len(),
{
    if s.len() == 0 {
    } else {
        lemma_tokens_well_formed(s.drop_last());
        let prev = spec_tokens(s.drop_last());
        let c = s.last();
        if is_space(c) {
        } else if s.len() == 1 || is_space(s[s.len() - 2]) {
            assert(spec_tokens(s) == prev.push(seq![c]));
            assert(seq![c].len() == 1 && seq![c][0] == c);
        } else {
            assert(s.drop_last().last() == s[s.len() - 2]);
            assert(prev.len() > 0);
            assert(spec_tokens(s) == prev.update(prev.len() - 1, prev.last().push(c)));
        }
    }
}

/// The tokens named by a sequence of half-open character ranges into `s`.
spec fn ranges_tokens(s: Seq<char>, ranges: Seq<(usize, usize)>) -> Seq<Seq<char>> {
    ranges.map_values(|p: (usize, usize)| s.subrange(p.0 as int, p.1 as int))
}

/// Splits `s` on whitespace into its tokens, left to right.
pub fn tokenize(s: &str) -> (r: Vec<String>)
    ensures
        r.deep_view() == spec_tokens(s@),
{
    let n = s.unicode_len();
    let mut ranges: Vec<(usize, usize)> = Vec::new();
    let mut i: usize = 0;
    while i < n
        invariant
            n == s@.len(),
            i <= n,
            ranges_tokens(s@, ranges@) == spec_tokens(s@.subrange(0, i as int)),
            forall|k: int| 0 <= k < ranges@.len() ==> (#[trigger] ranges@[k]).0 < ranges@[k].1 <= i,
            (i > 0 && !is_space(s@[i - 1])) <==> (ranges@.len() > 0 && ranges@.last().1 == i),
        decreases n - i,
    {
        let ghost pre = s@.subrange(0, i as int);
        let ghost post = s@.subrange(0, i as int + 1);
        proof {
            assert(post.drop_last() =~= pre);
            assert(post.last() == s@[i as int]);
        }
        let c = s.get_char(i);
        if c == ' ' || c == '\t' || c == '\n' || c == '\r' {
            proof {
                assert(ranges_tokens(s@, ranges@) == spec_tokens(post));
            }
        } else if ranges.len() == 0 || ranges[ranges.len() - 1].1 < i {
            // `c` starts a new token: either nothing precedes it, or the
            // character before it is a space.
            ranges.push((i, i + 1));
            proof {
                let prev = spec_tokens(pre);
                assert(spec_tokens(post) == prev.push(seq![s@[i as int]]));
                assert(s@.subrange(i as int, i as int + 1) =~= seq![s@[i as int]]);
                assert(ranges_tokens(s@, ranges@) =~= spec_tokens(post));
            }
        } else {
            // `c` extends the open token that ends right before it.
            let last = ranges.pop().unwrap();
            ranges.push((last.0, i + 1));
            proof {
                let prev = spec_tokens(pre);
                assert(!is_space(s@[i - 1]));
                assert(spec_tokens(post) == prev.update(
                    prev.len() - 1,
                    prev.last().push(s@[i as int]),
                ));
                assert(s@.subrange(last.0 as int, i as int + 1) =~= s@.subrange(
                    last.0 as int,
                    i as int,
                ).push(s@[i as int]));
                assert(ranges_tokens(s@, ranges@) =~= spec_tokens(post));
            }
        }
        i += 1;
    }
    proof {
        assert(s@.subrange(0, n as int) =~= s@);
    }
    let mut out: Vec<String> = Vec::new();
    let mut j: usize = 0;
    while j < ranges.len()
        invariant
            ranges_tokens(s@, ranges@) == spec_tokens(s@),
            forall|k: int| 0 <= k < ranges@.len() ==> (#[trigger] ranges@[k]).0 < ranges@[k].1 <= s@.len(),
            j <= ranges@.len(),
            out@.len() == j,
            forall|k: int| 0 <= k < j ==> out@[k]@ == spec_tokens(s@)[k],
        decreases ranges@.len() - j,
    {
        let range = ranges[j];
        let piece = s.substring_char(range.0, range.1);
        out.push(piece.to_owned());
        j += 1;
    }
    proof {
        assert(out.deep_view() =~= spec_tokens(s@));
    }
    out
}

/// Character-wise string equality, proved against the string views.
pub fn str_eq(a: &str, b: &str) -> (r: bool)
    ensures
        r == (a@ == b@),
{
    let a_len = a.unicode_len();
    let b_len = b.unicode_len();
    if a_len != b_len {
        return false;
    }
    let mut i: usize = 0;
    while i < a_len
        invariant
            a_len == a@.len(),
            b_len == b@.len(),
            a_len == b_len,
            i <= a_len,
            forall|j: int| 0 <= j < i ==> a@[j] == b@[j],
        decreases a_len - i,
    {
        if a.get_char(i) != b.get_char(i) {
            return false;
        }
        i += 1;
    }
    proof {
        assert(a@ =~= b@);
    }
    true
}

/// One classified command, ready for dispatch to the registry.
///
/// Invariant of the grammar: the `employee` and `department` words are single
/// whitespace-delimited tokens, so they are non-empty and hold no whitespace
/// ([`lemma_tokens_well_formed`]).
#[derive(Debug, PartialEq)]
pub enum InputType {
    AddEmployee { employee: String, department: String },
    GetEmployeesByDepartment(String),
    GetAllEmployees,
}

/// Why a line failed to classify.
#[derive(Debug, PartialEq)]
pub enum ClassificationError {
    /// The line matches none of the recognized command shapes.
    InvalidCommand { message: String },
}

/// The message carried by every `InvalidCommand` error.
pub open spec fn invalid_command_message() -> Seq<char> {
    "invalid command"@
}

/// The literal prefix that selects the list-everything command.
pub open spec fn show_all_prefix() -> Seq<char> {
    "Show all employees"@
}

/// `Add <employee> to <department>`: exactly four tokens, with the literal
/// words in place; the department is the last token on the line.
pub open spec fn is_add_command(line: Seq<char>) -> bool {
    let t = spec_tokens(line);
    &&& t.len() == 4
    &&& t[0] == "Add"@
    &&& t[2] == "to"@
}

/// `Show employees from <department>`: exactly four tokens, with the literal
/// words in place; the department is the last token on the line.
pub open spec fn is_show_department_command(line: Seq<char>) -> bool {
    let t = spec_tokens(line);
    &&& t.len() == 4
    &&& t[0] == "Show"@
    &&& t[1] == "employees"@
    &&& t[2] == "from"@
}

/// A line that begins with the literal `Show all employees`; arbitrary
/// trailing content is permitted.
pub open spec fn is_show_all_command(line: Seq<char>) -> bool {
    &&& line.len() >= show_all_prefix().len()
    &&& line.subrange(0, show_all_prefix().len() as int) == show_all_prefix()
}

/// What classification returns for `line`: the first matching shape wins, the
/// variable words are the tokens at index 1 and index 3, and a line matching
/// no shape yields the error.
pub open spec fn classified(line: Seq<char>, r: Result<InputType, ClassificationError>) -> bool {
    let t = spec_tokens(line);
    match r {
        Ok(InputType::AddEmployee { employee, department }) => {
            &&& is_add_command(line)
            &&& employee@ == t[1]
            &&& department@ == t[3]
        },
        Ok(InputType::GetEmployeesByDepartment(department)) => {
            &&& !is_add_command(line)
            &&& is_show_department_command(line)
            &&& department@ == t[3]
        },
        Ok(InputType::GetAllEmployees) => {
            &&& !is_add_command(line)
            &&& !is_show_department_command(line)
            &&& is_show_all_command(line)
        },
        Err(ClassificationError::InvalidCommand { message }) => {
            &&& !is_add_command(line)
            &&& !is_show_department_command(line)
            &&& !is_show_all_command(line)
            &&& message@ == invalid_command_message()
        },
    }
}

/// Classifies one trimmed input line against the grammar.
pub fn get_input_type(input_string: &str) -> (r: Result<InputType, ClassificationError>)
    ensures
        classified(input_string@, r),
{
    let mut tokens = tokenize(input_string);
    if tokens.len() == 4 {
        let t3 = tokens.pop().unwrap();
        let t2 = tokens.pop().unwrap();
        let t1 = tokens.pop().unwrap();
        let t0 = tokens.pop().unwrap();
        if str_eq(t0.as_str(), "Add") && str_eq(t2.as_str(), "to") {
            return Ok(InputType::AddEmployee { employee: t1, department: t3 });
        }
        if str_eq(t0.as_str(), "Show") && str_eq(t1.as_str(), "employees") && str_eq(
            t2.as_str(),
            "from",
        ) {
            return Ok(InputType::GetEmployeesByDepartment(t3));
        }
    }
    proof {
        reveal_strlit("Show all employees");
    }
    if input_string.unicode_len() >= 18 {
        let prefix = input_string.substring_char(0, 18);
        if str_eq(prefix, "Show all employees") {
            return Ok(InputType::GetAllEmployees);
        }
    }
    Err(ClassificationError::InvalidCommand { message: "invalid command".to_owned() })
}

/// Two classification results agree: the same variant, carrying the same
/// words.
pub open spec fn same_classification(
    r1: Result<InputType, ClassificationError>,
    r2: Result<InputType, ClassificationError>,
) -> bool {
    match (r1, r2) {
        (
            Ok(InputType::AddEmployee { employee: e1, department: d1 }),
            Ok(InputType::AddEmployee { employee: e2, department: d2 }),
        ) => e1@ == e2@ && d1@ == d2@,
        (
            Ok(InputType::GetEmployeesByDepartment(d1)),
            Ok(InputType::GetEmployeesByDepartment(d2)),
        ) => d1@ == d2@,
        (Ok(InputType::GetAllEmployees), Ok(InputType::GetAllEmployees)) => true,
        (
            Err(ClassificationError::InvalidCommand { message: m1 }),
            Err(ClassificationError::InvalidCommand { message: m2 }),
        ) => m1@ == m2@,
        _ => false,
    }
}

/// Classification is a pure function of the line's characters: any two
/// results of classifying the same line are the same command (or the same
/// error), word for word.
pub proof fn lemma_classification_deterministic(
    line: Seq<char>,
    r1: Result<InputType, ClassificationError>,
    r2: Result<InputType, ClassificationError>,
)
    requires
        classified(line, r1),
        classified(line, r2),
    ensures
        same_classification(r1, r2),
{
}

} // verus!
