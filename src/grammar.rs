//! The grammar as functions over the input's characters. Each production
//! starts at index `i` and yields either its model and the index just past
//! what it consumed, or the index at which it failed.

use vstd::prelude::*;

use crate::ast::{ArgModel, CallModel, StmtModel, ValueModel};
use crate::chars::{ascii_alpha, ascii_digit, in_class, lemma_run_end_bounds, run_end, CharClass};

verus! {

pub open spec fn text_true() -> Seq<char> {
    seq!['t', 'r', 'u', 'e']
}

pub open spec fn text_false() -> Seq<char> {
    seq!['f', 'a', 'l', 's', 'e']
}

/// Characters that can start an identifier (or a boolean).
pub open spec fn ident_first(c: char) -> bool {
    c == '_' || ascii_alpha(c)
}

/// Characters that can start a number.
pub open spec fn number_first(c: char) -> bool {
    c == '-' || ascii_digit(c)
}

/// Characters that can start a value.
pub open spec fn value_first(c: char) -> bool {
    ident_first(c) || number_first(c) || c == '"'
}

/// The index just past the whitespace that starts at `i`.
pub open spec fn skip_ws(s: Seq<char>, i: int) -> int {
    run_end(s, i, CharClass::White)
}

/// The value of a run of ASCII digits.
pub open spec fn digits_value(d: Seq<char>) -> int
    decreases d.len(),
{
    if d.len() == 0 {
        0
    } else {
        digits_value(d.drop_last()) * 10 + (d.last() as int - '0' as int)
    }
}

/// The integer that an optional `-` followed by digits denotes; `None` when
/// there is no digit.
pub open spec fn number_text_value(t: Seq<char>) -> Option<int> {
    if t.len() == 0 {
        None
    } else if t[0] == '-' {
        if t.len() > 1 {
            Some(-digits_value(t.drop_first()))
        } else {
            None
        }
    } else {
        Some(digits_value(t))
    }
}

pub open spec fn fits_i32(v: int) -> bool {
    i32::MIN <= v <= i32::MAX
}

pub proof fn lemma_digits_push(d: Seq<char>, c: char)
    ensures
        digits_value(d.push(c)) == digits_value(d) * 10 + (c as int - '0' as int),
{
    assert(d.push(c).drop_last() =~= d);
}

pub proof fn lemma_digits_nonneg(d: Seq<char>)
    requires
        forall|m: int| 0 <= m < d.len() ==> ascii_digit(#[trigger] d[m]),
    ensures
        digits_value(d) >= 0,
    decreases d.len(),
{
    if d.len() > 0 {
        lemma_digits_nonneg(d.drop_last());
    }
}

/// An identifier, or `true` / `false` when the text is exactly one of them.
pub open spec fn ident_or_bool_spec(s: Seq<char>, i: int) -> Result<(ValueModel, int), int> {
    if 0 <= i < s.len() && ident_first(s[i]) {
        let j = run_end(s, i + 1, CharClass::IdentRest);
        let t = s.subrange(i, j);
        if t == text_true() {
            Ok((ValueModel::Bool(true), j))
        } else if t == text_false() {
            Ok((ValueModel::Bool(false), j))
        } else {
            Ok((ValueModel::Ident(t), j))
        }
    } else {
        Err(i)
    }
}

/// The end of the text of a number that starts at `i`: the first character
/// and the digits after it.
pub open spec fn number_end(s: Seq<char>, i: int) -> int {
    run_end(s, i + 1, CharClass::Digit)
}

/// An optional `-` and then digits, as a signed 32-bit integer.
pub open spec fn number_spec(s: Seq<char>, i: int) -> Result<(ValueModel, int), int> {
    if 0 <= i < s.len() && number_first(s[i]) {
        let j = number_end(s, i);
        match number_text_value(s.subrange(i, j)) {
            Some(v) => if fits_i32(v) {
                Ok((ValueModel::Number(v), j))
            } else {
                Err(i)
            },
            None => Err(i),
        }
    } else {
        Err(i)
    }
}

/// A double-quoted string without escapes.
pub open spec fn string_spec(s: Seq<char>, i: int) -> Result<(ValueModel, int), int> {
    if 0 <= i < s.len() && s[i] == '"' {
        let j = run_end(s, i + 1, CharClass::NotQuote);
        if j < s.len() {
            Ok((ValueModel::Str(s.subrange(i + 1, j)), j + 1))
        } else {
            Err(j)
        }
    } else {
        Err(i)
    }
}

/// A value, chosen by its first character.
pub open spec fn value_spec(s: Seq<char>, i: int) -> Result<(ValueModel, int), int> {
    if !(0 <= i < s.len()) {
        Err(i)
    } else if number_first(s[i]) {
        number_spec(s, i)
    } else if ident_first(s[i]) {
        ident_or_bool_spec(s, i)
    } else if s[i] == '"' {
        string_spec(s, i)
    } else {
        Err(i)
    }
}

/// `=`, whitespace, then a value.
pub open spec fn arg_tail_spec(s: Seq<char>, i: int) -> Result<(ValueModel, int), int> {
    if 0 <= i < s.len() && s[i] == '=' {
        value_spec(s, skip_ws(s, i + 1))
    } else {
        Err(i)
    }
}

/// A value, or `name = value` when an `=` follows an identifier. Without a
/// tail the argument takes in the whitespace after its value.
pub open spec fn arg_spec(s: Seq<char>, i: int) -> Result<(ArgModel, int), int> {
    match value_spec(s, i) {
        Err(k) => Err(k),
        Ok((v, j)) => {
            let w = skip_ws(s, j);
            if w < s.len() && s[w] == '=' {
                match arg_tail_spec(s, w) {
                    Err(k) => Err(k),
                    Ok((tv, e)) => match v {
                        ValueModel::Ident(n) => Ok((ArgModel { value: tv, name: Some(n) }, e)),
                        _ => Err(i),
                    },
                }
            } else {
                Ok((ArgModel { value: v, name: None }, w))
            }
        },
    }
}

pub proof fn lemma_value_advances(s: Seq<char>, i: int)
    ensures
        value_spec(s, i) matches Ok((_, j)) ==> i < j <= s.len(),
        value_spec(s, i) matches Err(k) ==> (0 <= i <= s.len() ==> i <= k <= s.len()),
{
    if 0 <= i < s.len() {
        lemma_run_end_bounds(s, i + 1, CharClass::IdentRest);
        lemma_run_end_bounds(s, i + 1, CharClass::Digit);
        lemma_run_end_bounds(s, i + 1, CharClass::NotQuote);
    }
}

pub proof fn lemma_arg_advances(s: Seq<char>, i: int)
    ensures
        arg_spec(s, i) matches Ok((_, j)) ==> i < j <= s.len(),
{
    lemma_value_advances(s, i);
    if let Ok((v, j)) = value_spec(s, i) {
        lemma_run_end_bounds(s, j, CharClass::White);
        let w = skip_ws(s, j);
        if w < s.len() && s[w] == '=' {
            lemma_run_end_bounds(s, w + 1, CharClass::White);
            lemma_value_advances(s, skip_ws(s, w + 1));
        }
    }
}

/// Arguments separated by commas, with whitespace around each comma.
pub open spec fn args_spec(s: Seq<char>, i: int) -> Result<(Seq<ArgModel>, int), int>
    decreases s.len() - i,
{
    match arg_spec(s, i) {
        Err(k) => Err(k),
        Ok((a, j)) => {
            let w = skip_ws(s, j);
            if w < s.len() && s[w] == ',' {
                let n = skip_ws(s, w + 1);
                proof {
                    lemma_arg_advances(s, i);
                    lemma_run_end_bounds(s, j, CharClass::White);
                    lemma_run_end_bounds(s, w + 1, CharClass::White);
                }
                match args_spec(s, n) {
                    Err(k) => Err(k),
                    Ok((rest, e)) => Ok((seq![a] + rest, e)),
                }
            } else {
                Ok((seq![a], w))
            }
        },
    }
}

pub proof fn lemma_args_advances(s: Seq<char>, i: int)
    ensures
        args_spec(s, i) matches Ok((_, j)) ==> i < j <= s.len(),
    decreases s.len() - i,
{
    lemma_arg_advances(s, i);
    if let Ok((a, j)) = arg_spec(s, i) {
        lemma_run_end_bounds(s, j, CharClass::White);
        let w = skip_ws(s, j);
        if w < s.len() && s[w] == ',' {
            lemma_run_end_bounds(s, w + 1, CharClass::White);
            lemma_args_advances(s, skip_ws(s, w + 1));
        }
    }
}

/// `(`, then arguments (possibly none), then `)`.
pub open spec fn call_tail_spec(s: Seq<char>, i: int) -> Result<(Seq<ArgModel>, int), int> {
    if 0 <= i < s.len() && s[i] == '(' {
        let a = skip_ws(s, i + 1);
        if a < s.len() && s[a] == ')' {
            Ok((Seq::empty(), a + 1))
        } else {
            match args_spec(s, a) {
                Err(k) => Err(k),
                Ok((args, e)) => {
                    let w = skip_ws(s, e);
                    if w < s.len() && s[w] == ')' {
                        Ok((args, w + 1))
                    } else {
                        Err(w)
                    }
                },
            }
        }
    } else {
        Err(i)
    }
}

/// An identifier that is not a reserved word, then a call tail.
pub open spec fn call_spec(s: Seq<char>, i: int) -> Result<(CallModel, int), int> {
    match ident_or_bool_spec(s, i) {
        Ok((ValueModel::Ident(name), j)) => match call_tail_spec(s, skip_ws(s, j)) {
            Err(k) => Err(k),
            Ok((args, e)) => Ok((CallModel { name, args }, e)),
        },
        Ok(_) => Err(i),
        Err(k) => Err(k),
    }
}

/// `variable = call` or a bare call.
pub open spec fn stmt_spec(s: Seq<char>, i: int) -> Result<(StmtModel, int), int> {
    match ident_or_bool_spec(s, i) {
        Ok((ValueModel::Ident(name), j)) => {
            let w = skip_ws(s, j);
            if w < s.len() && s[w] == '=' {
                match call_spec(s, skip_ws(s, w + 1)) {
                    Err(k) => Err(k),
                    Ok((c, e)) => Ok((StmtModel::Assign(name, c), e)),
                }
            } else {
                match call_tail_spec(s, w) {
                    Err(k) => Err(k),
                    Ok((args, e)) => Ok((StmtModel::Call(CallModel { name, args }), e)),
                }
            }
        },
        Ok(_) => Err(i),
        Err(k) => Err(k),
    }
}

pub proof fn lemma_ident_advances(s: Seq<char>, i: int)
    ensures
        ident_or_bool_spec(s, i) matches Ok((_, j)) ==> i < j <= s.len(),
{
    if 0 <= i < s.len() {
        lemma_run_end_bounds(s, i + 1, CharClass::IdentRest);
    }
}

pub proof fn lemma_call_tail_advances(s: Seq<char>, i: int)
    ensures
        call_tail_spec(s, i) matches Ok((_, j)) ==> i < j <= s.len(),
{
    if 0 <= i < s.len() && s[i] == '(' {
        lemma_run_end_bounds(s, i + 1, CharClass::White);
        let a = skip_ws(s, i + 1);
        lemma_args_advances(s, a);
        if let Ok((_, e)) = args_spec(s, a) {
            lemma_run_end_bounds(s, e, CharClass::White);
        }
    }
}

pub proof fn lemma_stmt_advances(s: Seq<char>, i: int)
    ensures
        stmt_spec(s, i) matches Ok((_, j)) ==> i < j <= s.len(),
{
    lemma_ident_advances(s, i);
    if let Ok((_, j)) = ident_or_bool_spec(s, i) {
        lemma_run_end_bounds(s, j, CharClass::White);
        let w = skip_ws(s, j);
        lemma_call_tail_advances(s, w);
        if w < s.len() && s[w] == '=' {
            lemma_run_end_bounds(s, w + 1, CharClass::White);
            let c = skip_ws(s, w + 1);
            lemma_ident_advances(s, c);
            if let Ok((_, j2)) = ident_or_bool_spec(s, c) {
                lemma_run_end_bounds(s, j2, CharClass::White);
                lemma_call_tail_advances(s, skip_ws(s, j2));
            }
        }
    }
}

/// Statements separated by whitespace, up to the end of the input.
pub open spec fn program_spec(s: Seq<char>, i: int) -> Result<Seq<StmtModel>, int>
    decreases s.len() - i,
{
    let w = skip_ws(s, i);
    if w >= s.len() {
        Ok(Seq::empty())
    } else {
        match stmt_spec(s, w) {
            Err(k) => Err(k),
            Ok((st, e)) => {
                proof {
                    lemma_run_end_bounds(s, i, CharClass::White);
                    lemma_stmt_advances(s, w);
                }
                match program_spec(s, e) {
                    Err(k) => Err(k),
                    Ok(rest) => Ok(seq![st] + rest),
                }
            },
        }
    }
}

/// The ASCII digit for `d` in `0..10`.
pub open spec fn digit_char(d: int) -> char {
    (d + 48) as char
}

/// The shortest decimal text of a natural number.
pub open spec fn nat_text(n: nat) -> Seq<char>
    decreases n,
{
    if n < 10 {
        seq![digit_char(n as int)]
    } else {
        nat_text(n / 10).push(digit_char((n % 10) as int))
    }
}

/// The decimal text of an integer, with a leading `-` when negative.
pub open spec fn decimal_text(n: int) -> Seq<char> {
    if n < 0 {
        seq!['-'] + nat_text((-n) as nat)
    } else {
        nat_text(n as nat)
    }
}

proof fn lemma_nat_text(n: nat)
    ensures
        nat_text(n).len() >= 1,
        forall|m: int| 0 <= m < nat_text(n).len() ==> ascii_digit(#[trigger] nat_text(n)[m]),
        digits_value(nat_text(n)) == n,
    decreases n,
{
    if n >= 10 {
        lemma_nat_text(n / 10);
        let t = nat_text(n / 10);
        let c = digit_char((n % 10) as int);
        lemma_digits_push(t, c);
        assert(c as int == (n % 10) + 48);
        assert(n == (n / 10) * 10 + n % 10) by (nonlinear_arith);
        assert(nat_text(n) == t.push(c));
        assert forall|m: int| 0 <= m < nat_text(n).len() implies ascii_digit(#[trigger] nat_text(n)[m]) by {
            if m < t.len() {
                assert(nat_text(n)[m] == t[m]);
            }
        }
    } else {
        assert(nat_text(n).drop_last() =~= Seq::<char>::empty());
        assert(digit_char(n as int) as int == n + 48);
        assert(digits_value(Seq::<char>::empty()) == 0);
        assert(nat_text(n).last() == digit_char(n as int));
    }
}

proof fn lemma_run_end_all(s: Seq<char>, i: int, k: CharClass)
    requires
        0 <= i <= s.len(),
        forall|m: int| i <= m < s.len() ==> in_class(#[trigger] s[m], k),
    ensures
        run_end(s, i, k) == s.len(),
    decreases s.len() - i,
{
    if i < s.len() {
        lemma_run_end_all(s, i + 1, k);
    }
}

/// Parsing the decimal text of any 32-bit integer gives back that integer
/// and consumes the whole text.
pub proof fn number_round_trip(n: i32)
    ensures
        number_spec(decimal_text(n as int), 0) == Ok::<(ValueModel, int), int>(
            (ValueModel::Number(n as int), decimal_text(n as int).len() as int),
        ),
{
    let t = decimal_text(n as int);
    if n < 0 {
        let body = nat_text((-(n as int)) as nat);
        lemma_nat_text((-(n as int)) as nat);
        assert(t.drop_first() =~= body);
        assert forall|m: int| 1 <= m < t.len() implies in_class(#[trigger] t[m], CharClass::Digit) by {
            assert(t[m] == body[m - 1]);
        }
        lemma_run_end_all(t, 1, CharClass::Digit);
    } else {
        lemma_nat_text(n as nat);
        lemma_run_end_all(t, 1, CharClass::Digit);
        assert(ascii_digit(t[0]));
    }
    assert(t.subrange(0, t.len() as int) =~= t);
}

} // verus!
