use vstd::prelude::*;
use crate::tokenizer::is_digit_char;

verus! {

/// The mathematical value of a `VarType`: the table / row / scalar-string /
/// number hierarchy, with strings abstracted to character sequences.
pub enum ValModel {
    Num { n: nat },
    Str { s: Seq<char> },
    RowVal { cells: Seq<Seq<char>> },
    TableVal { rows: Seq<Seq<Seq<char>>> },
}

/// A value bound in a scope: an unsigned number, a scalar string, one row of
/// a table, or a whole rectangular table of strings.
pub enum VarType {
    Number(Var<usize>),
    Value(Var<String>),
    Row(Var<Vec<String>>),
    Table(Var<Vec<Vec<String>>>),
}

/// Carrier for a bound value; `row` and `col` are bookkeeping slots that the
/// evaluation rules never read.
pub struct Var<T> {
    pub row: usize,
    pub col: usize,
    pub data: T,
}

impl<T> Var<T> {
    /// Wrap a payload with zeroed bookkeeping.
    pub fn new(data: T) -> (v: Var<T>)
        ensures
            v.row == 0,
            v.col == 0,
            v.data == data,
    {
        Var { row: 0, col: 0, data }
    }
}

impl View for VarType {
    type V = ValModel;

    open spec fn view(&self) -> ValModel {
        match self {
            VarType::Number(v) => ValModel::Num { n: v.data as nat },
            VarType::Value(v) => ValModel::Str { s: v.data@ },
            VarType::Row(v) => ValModel::RowVal { cells: v.data.deep_view() },
            VarType::Table(v) => ValModel::TableVal { rows: v.data.deep_view() },
        }
    }
}

/// Copy a vector of strings element by element.
pub fn clone_string_vec(v: &Vec<String>) -> (r: Vec<String>)
    ensures
        r.deep_view() == v.deep_view(),
{
    let mut r: Vec<String> = Vec::new();
    let mut i: usize = 0;
    while i < v.len()
        invariant
            i <= v.len(),
            r@.len() == i,
            forall|k: int| 0 <= k < i ==> #[trigger] r@[k]@ == v@[k]@,
        decreases v.len() - i,
    {
        r.push(v[i].clone());
        i = i + 1;
    }
    proof {
        assert(r.deep_view() =~= v.deep_view());
    }
    r
}

/// Copy a table of strings row by row.
pub fn clone_string_table(v: &Vec<Vec<String>>) -> (r: Vec<Vec<String>>)
    ensures
        r.deep_view() == v.deep_view(),
{
    let mut r: Vec<Vec<String>> = Vec::new();
    let mut i: usize = 0;
    while i < v.len()
        invariant
            i <= v.len(),
            r@.len() == i,
            forall|k: int| 0 <= k < i ==> #[trigger] r@[k].deep_view() == v@[k].deep_view(),
        decreases v.len() - i,
    {
        r.push(clone_string_vec(&v[i]));
        i = i + 1;
    }
    proof {
        assert(r.deep_view() =~= v.deep_view());
    }
    r
}

/// The numeric value of a decimal digit character.
pub open spec fn digit_value(c: char) -> nat {
    (c as int - 48) as nat
}

/// A non-empty run of decimal digits.
pub open spec fn is_digits(s: Seq<char>) -> bool {
    s.len() > 0 && forall|i: int| 0 <= i < s.len() ==> is_digit_char(#[trigger] s[i])
}

/// The value of a decimal digit run.
pub open spec fn digits_val(s: Seq<char>) -> nat
    decreases s.len(),
{
    if s.len() == 0 {
        0
    } else {
        digits_val(s.drop_last()) * 10 + digit_value(s.last())
    }
}

/// The character of a single decimal digit.
pub open spec fn digit_char(d: nat) -> char {
    ((d + 48) as u8) as char
}

/// The decimal rendering of a number, without sign or padding.
pub open spec fn dec_str(n: nat) -> Seq<char>
    decreases n,
{
    if n < 10 {
        seq![digit_char(n)]
    } else {
        dec_str(n / 10).push(digit_char(n % 10))
    }
}

fn digit_str(d: usize) -> (r: &'static str)
    requires
        d < 10,
    ensures
        r@ == seq![digit_char(d as nat)],
{
    proof {
        reveal_strlit("0");
        reveal_strlit("1");
        reveal_strlit("2");
        reveal_strlit("3");
        reveal_strlit("4");
        reveal_strlit("5");
        reveal_strlit("6");
        reveal_strlit("7");
        reveal_strlit("8");
        reveal_strlit("9");
    }
    let r = match d {
        0 => "0",
        1 => "1",
        2 => "2",
        3 => "3",
        4 => "4",
        5 => "5",
        6 => "6",
        7 => "7",
        8 => "8",
        _ => "9",
    };
    proof {
        assert(r@ =~= seq![digit_char(d as nat)]);
    }
    r
}

/// Render a number in decimal.
pub fn usize_to_string(n: usize) -> (r: String)
    ensures
        r@ == dec_str(n as nat),
{
    let mut digits: Vec<usize> = Vec::new();
    let mut m = n;
    proof {
        assert(dec_str(n as nat) =~= dec_str(n as nat) + digit_tail(digits@));
    }
    loop
        invariant_except_break
            forall|k: int| 0 <= k < digits@.len() ==> #[trigger] digits@[k] < 10,
            dec_str(n as nat) == dec_str(m as nat) + digit_tail(digits@),
        ensures
            forall|k: int| 0 <= k < digits@.len() ==> #[trigger] digits@[k] < 10,
            dec_str(n as nat) == digit_tail(digits@),
        decreases m,
    {
        let ghost pre = digits@;
        if m < 10 {
            digits.push(m);
            proof {
                lemma_digit_tail_push(pre, m);
                assert(dec_str(m as nat) == seq![digit_char(m as nat)]);
                assert(dec_str(n as nat) =~= digit_tail(digits@));
            }
            break ;
        }
        digits.push(m % 10);
        proof {
            lemma_digit_tail_push(pre, m % 10);
            assert(dec_str(m as nat) =~= dec_str((m / 10) as nat) + seq![
                digit_char((m % 10) as nat),
            ]);
            assert(dec_str(n as nat) =~= dec_str((m / 10) as nat) + digit_tail(digits@));
        }
        m = m / 10;
    }
    let mut r = String::new();
    let mut i = digits.len();
    proof {
        assert(digits@.skip(i as int) =~= Seq::<usize>::empty());
    }
    while i > 0
        invariant
            i <= digits@.len(),
            forall|k: int| 0 <= k < digits@.len() ==> #[trigger] digits@[k] < 10,
            dec_str(n as nat) == digit_tail(digits@),
            r@ == digit_tail(digits@.skip(i as int)),
        decreases i,
    {
        i = i - 1;
        let ghost pre = r@;
        r.append(digit_str(digits[i]));
        proof {
            assert(digit_tail(digits@.skip(i as int)) =~= pre + seq![
                digit_char(digits@[i as int] as nat),
            ]) by {
                assert(digits@.skip(i as int).drop_first() =~= digits@.skip(i + 1));
            }
        }
    }
    proof {
        assert(digits@.skip(0) =~= digits@);
    }
    r
}

/// The digit characters of a reversed digit list, most significant last in
/// the list, rendered most significant first.
pub open spec fn digit_tail(digits: Seq<usize>) -> Seq<char>
    decreases digits.len(),
{
    if digits.len() == 0 {
        Seq::empty()
    } else {
        digit_tail(digits.drop_first()).push(digit_char(digits.first() as nat))
    }
}

proof fn lemma_digit_tail_push(s: Seq<usize>, x: usize)
    ensures
        digit_tail(s.push(x)) == seq![digit_char(x as nat)] + digit_tail(s),
    decreases s.len(),
{
    if s.len() == 0 {
        assert(s.push(x).drop_first() =~= Seq::<usize>::empty());
        assert(s.push(x).len() == 1);
        assert(s.push(x).first() == x);
        assert(digit_tail(s.push(x)) == digit_tail(s.push(x).drop_first()).push(
            digit_char(x as nat),
        ));
        assert(digit_tail(s.push(x).drop_first()) == digit_tail(Seq::<usize>::empty()));
        assert(digit_tail(Seq::<usize>::empty()) == Seq::<char>::empty());
        assert(digit_tail(s) == Seq::<char>::empty());
        assert(digit_tail(s.push(x)) =~= seq![digit_char(x as nat)] + digit_tail(s));
    } else {
        assert(s.push(x).drop_first() =~= s.drop_first().push(x));
        lemma_digit_tail_push(s.drop_first(), x);
        assert(s.push(x).first() == s.first());
        assert(digit_tail(s.push(x)) =~= seq![digit_char(x as nat)] + digit_tail(s));
    }
}

impl VarType {
    /// Copy a value; the copy denotes the same mathematical value.
    pub fn duplicate(&self) -> (r: VarType)
        ensures
            r@ == self@,
    {
        match self {
            VarType::Number(v) => VarType::Number(Var { row: v.row, col: v.col, data: v.data }),
            VarType::Value(v) => VarType::Value(Var { row: v.row, col: v.col, data: v.data.clone() }),
            VarType::Row(v) => VarType::Row(Var { row: v.row, col: v.col, data: clone_string_vec(&v.data) }),
            VarType::Table(v) => VarType::Table(Var { row: v.row, col: v.col, data: clone_string_table(&v.data) }),
        }
    }
}

} // verus!
