//! Recursive-descent parser: one procedure per production, dispatching on
//! the first set of each candidate with one character of lookahead.

use vstd::prelude::*;

use crate::ast::{
    ArgModel, ArgNode, ArgsNode, CallNode, ProgramNode, StmtModel, StmtNode, ValueModel, ValueNode,
};
use crate::chars::{
    ascii_digit, is_ascii_alnum, is_ascii_alpha, is_ascii_digit, is_whitespace, lemma_run_end_bounds,
    push_char, run_end, CharClass,
};
use crate::error::Error;
use crate::grammar::{
    arg_spec, arg_tail_spec, args_spec, call_spec, call_tail_spec, digits_value, ident_first,
    ident_or_bool_spec, lemma_arg_advances, lemma_digits_nonneg, lemma_digits_push,
    lemma_ident_advances, lemma_stmt_advances, lemma_value_advances, number_end, number_first,
    number_spec, program_spec, skip_ws, stmt_spec, string_spec, text_false, text_true, value_first,
    value_spec,
};
use crate::reader::{fits_locations, lemma_loc_increasing, loc_at, peek_at, SpanningRead};
use crate::span::{Location, Span};
use vstd::string::StringExecFns;

verus! {

/// The characters that can start a production.
pub trait First {
    spec fn first(ch: char) -> bool;

    /// Whether `ch` can start the production.
    fn in_first_set(ch: char) -> (r: bool)
        ensures
            r == Self::first(ch);

    /// Every character that can start the production, each once.
    fn first_set() -> (r: Vec<char>)
        ensures
            forall|c: char| r@.contains(c) <==> Self::first(c),
            r@.no_duplicates();
}

/// The characters with codes `from..to`, appended to `v`.
fn push_range(v: &mut Vec<char>, from: u8, to: u8)
    requires
        from <= to,
    ensures
        final(v)@.len() == old(v)@.len() + (to - from),
        forall|k: int| 0 <= k < old(v)@.len() ==> final(v)@[k] == old(v)@[k],
        forall|k: int| old(v)@.len() <= k < final(v)@.len() ==> (#[trigger] final(v)@[k] as int) == from + (k - old(v)@.len()),
{
    let mut c: u8 = from;
    let ghost start = old(v)@;
    while c < to
        invariant
            from <= c <= to,
            v@.len() == start.len() + (c - from),
            forall|k: int| 0 <= k < start.len() ==> v@[k] == start[k],
            forall|k: int| start.len() <= k < v@.len() ==> (#[trigger] v@[k] as int) == from + (k - start.len()),
        decreases to - c,
    {
        v.push(c as char);
        c = c + 1;
    }
}

/// An identifier and where it stands.
#[derive(Debug)]
pub struct Ident {
    pub value: String,
    pub span: Span,
}

impl Ident {
    pub fn value(&self) -> (r: &String)
        ensures
            r == &self.value,
    {
        &self.value
    }

    pub fn span(&self) -> (r: &Span)
        ensures
            r == &self.span,
    {
        &self.span
    }
}

/// A boolean constant and where it stands.
#[derive(Debug)]
pub struct Bool {
    pub value: bool,
    pub span: Span,
}

impl Bool {
    pub fn value(&self) -> (r: &bool)
        ensures
            *r == self.value,
    {
        &self.value
    }

    pub fn span(&self) -> (r: &Span)
        ensures
            r == &self.span,
    {
        &self.span
    }
}

/// A signed 32-bit number and where it stands.
#[derive(Debug)]
pub struct NumberConstant {
    pub value: i32,
    pub span: Span,
}

impl NumberConstant {
    pub fn value(&self) -> (r: &i32)
        ensures
            *r == self.value,
    {
        &self.value
    }

    pub fn span(&self) -> (r: &Span)
        ensures
            r == &self.span,
    {
        &self.span
    }
}

/// The inside of a string constant and where the string stands.
#[derive(Debug)]
pub struct StringConstant {
    pub value: String,
    pub span: Span,
}

impl StringConstant {
    pub fn value(&self) -> (r: &String)
        ensures
            r == &self.value,
    {
        &self.value
    }

    pub fn span(&self) -> (r: &Span)
        ensures
            r == &self.span,
    {
        &self.span
    }
}

/// The kinds of value.
#[derive(Debug)]
pub enum ValueTypes {
    BoolValue(Bool),
    IdentValue(Ident),
    NumberValue(NumberConstant),
    StringValue(StringConstant),
}

impl ValueTypes {
    pub open spec fn model(&self) -> ValueModel {
        match self {
            ValueTypes::BoolValue(b) => ValueModel::Bool(b.value),
            ValueTypes::IdentValue(n) => ValueModel::Ident(n.value@),
            ValueTypes::NumberValue(n) => ValueModel::Number(n.value as int),
            ValueTypes::StringValue(t) => ValueModel::Str(t.value@),
        }
    }

    pub open spec fn inner_span(&self) -> Span {
        match self {
            ValueTypes::BoolValue(b) => b.span,
            ValueTypes::IdentValue(n) => n.span,
            ValueTypes::NumberValue(n) => n.span,
            ValueTypes::StringValue(t) => t.span,
        }
    }
}

/// A value and where it stands.
#[derive(Debug)]
pub struct Value {
    pub value: ValueTypes,
    pub span: Span,
}

impl Value {
    pub open spec fn model(&self) -> ValueModel {
        self.value.model()
    }

    pub fn value(&self) -> (r: &ValueTypes)
        ensures
            r == &self.value,
    {
        &self.value
    }

    pub fn span(&self) -> (r: &Span)
        ensures
            r == &self.span,
    {
        &self.span
    }

    /// The boolean constant that the value holds, if it is one.
    pub fn bool_value(&self) -> (r: Result<&Bool, Error>)
        ensures
            r is Ok <==> self.value is BoolValue,
            r matches Ok(b) ==> self.value == ValueTypes::BoolValue(*b),
            r matches Err(e) ==> e == Error::WrongValueType,
    {
        match &self.value {
            ValueTypes::BoolValue(b) => Ok(b),
            _ => Err(Error::WrongValueType),
        }
    }

    /// The identifier that the value holds, if it is one.
    pub fn ident_value(&self) -> (r: Result<&Ident, Error>)
        ensures
            r is Ok <==> self.value is IdentValue,
            r matches Ok(n) ==> self.value == ValueTypes::IdentValue(*n),
            r matches Err(e) ==> e == Error::WrongValueType,
    {
        match &self.value {
            ValueTypes::IdentValue(n) => Ok(n),
            _ => Err(Error::WrongValueType),
        }
    }

    /// The number constant that the value holds, if it is one.
    pub fn number_value(&self) -> (r: Result<&NumberConstant, Error>)
        ensures
            r is Ok <==> self.value is NumberValue,
            r matches Ok(n) ==> self.value == ValueTypes::NumberValue(*n),
            r matches Err(e) ==> e == Error::WrongValueType,
    {
        match &self.value {
            ValueTypes::NumberValue(n) => Ok(n),
            _ => Err(Error::WrongValueType),
        }
    }
}

impl First for Ident {
    open spec fn first(ch: char) -> bool {
        ident_first(ch)
    }

    fn in_first_set(ch: char) -> (r: bool) {
        ch == '_' || is_ascii_alpha(ch)
    }

    fn first_set() -> (r: Vec<char>) {
        let mut v: Vec<char> = vec!['_'];
        push_range(&mut v, 97, 123);
        push_range(&mut v, 65, 91);
        assert forall|c: char| v@.contains(c) <==> ident_first(c) by {
            if ident_first(c) {
                if c == '_' {
                    assert(v@[0] == c);
                } else if 97 <= (c as int) <= 122 {
                    let k = (c as int) - 96;
                    assert((v@[k] as int) == (c as int));
                    assert(v@[k] == c);
                } else {
                    let k = (c as int) - 65 + 27;
                    assert((v@[k] as int) == (c as int));
                    assert(v@[k] == c);
                }
            }
            if v@.contains(c) {
                let k = choose|k: int| 0 <= k < v@.len() && v@[k] == c;
                if k == 0 {
                } else if k < 27 {
                    assert((v@[k] as int) == 96 + k);
                } else {
                    assert((v@[k] as int) == 65 + k - 27);
                }
            }
        }
        assert forall|a: int, b: int| 0 <= a < b < v@.len() implies v@[a] != v@[b] by {
            if a > 0 {
                assert((v@[a] as int) != (v@[b] as int));
            } else {
                assert((v@[b] as int) != 95);
            }
        }
        v
    }
}

impl First for Bool {
    open spec fn first(ch: char) -> bool {
        ch == 't' || ch == 'f'
    }

    fn in_first_set(ch: char) -> (r: bool) {
        ch == 't' || ch == 'f'
    }

    fn first_set() -> (r: Vec<char>) {
        let v = vec!['t', 'f'];
        assert forall|c: char| v@.contains(c) <==> (c == 't' || c == 'f') by {
            if c == 't' {
                assert(v@[0] == c);
            }
            if c == 'f' {
                assert(v@[1] == c);
            }
        }
        v
    }
}

impl First for NumberConstant {
    open spec fn first(ch: char) -> bool {
        number_first(ch)
    }

    fn in_first_set(ch: char) -> (r: bool) {
        ch == '-' || is_ascii_digit(ch)
    }

    fn first_set() -> (r: Vec<char>) {
        let mut v: Vec<char> = vec!['-'];
        push_range(&mut v, 48, 58);
        assert forall|c: char| v@.contains(c) <==> number_first(c) by {
            if number_first(c) {
                if c == '-' {
                    assert(v@[0] == c);
                } else {
                    let k = (c as int) - 47;
                    assert((v@[k] as int) == (c as int));
                    assert(v@[k] == c);
                }
            }
            if v@.contains(c) {
                let k = choose|k: int| 0 <= k < v@.len() && v@[k] == c;
                if k > 0 {
                    assert((v@[k] as int) == 47 + k);
                }
            }
        }
        assert forall|a: int, b: int| 0 <= a < b < v@.len() implies v@[a] != v@[b] by {
            if a > 0 {
                assert((v@[a] as int) != (v@[b] as int));
            } else {
                assert((v@[b] as int) != 45);
            }
        }
        v
    }
}

impl First for StringConstant {
    open spec fn first(ch: char) -> bool {
        ch == '"'
    }

    fn in_first_set(ch: char) -> (r: bool) {
        ch == '"'
    }

    fn first_set() -> (r: Vec<char>) {
        let v = vec!['"'];
        assert forall|c: char| v@.contains(c) <==> c == '"' by {
            if c == '"' {
                assert(v@[0] == c);
            }
        }
        v
    }
}

impl First for Value {
    open spec fn first(ch: char) -> bool {
        value_first(ch)
    }

    fn in_first_set(ch: char) -> (r: bool) {
        Ident::in_first_set(ch) || NumberConstant::in_first_set(ch)
            || StringConstant::in_first_set(ch)
    }

    fn first_set() -> (r: Vec<char>) {
        let mut set = Ident::first_set();
        let mut numbers = NumberConstant::first_set();
        let mut strings = StringConstant::first_set();
        let ghost a = set@;
        let ghost b = numbers@;
        let ghost c = strings@;
        set.append(&mut numbers);
        set.append(&mut strings);
        assert(set@ =~= a + b + c);
        assert forall|x: char| #[trigger] a.contains(x) <==> ident_first(x) by {
            assert(<Ident as First>::first(x) == ident_first(x));
        }
        assert forall|x: char| #[trigger] b.contains(x) <==> number_first(x) by {
            assert(<NumberConstant as First>::first(x) == number_first(x));
        }
        assert forall|x: char| #[trigger] c.contains(x) <==> x == '"' by {
            assert(<StringConstant as First>::first(x) == (x == '"'));
        }
        assert forall|x: char| set@.contains(x) <==> value_first(x) by {
            if a.contains(x) {
                let k = choose|k: int| 0 <= k < a.len() && a[k] == x;
                assert(set@[k] == x);
            }
            if b.contains(x) {
                let k = choose|k: int| 0 <= k < b.len() && b[k] == x;
                assert(set@[a.len() + k] == x);
            }
            if c.contains(x) {
                let k = choose|k: int| 0 <= k < c.len() && c[k] == x;
                assert(set@[a.len() + b.len() + k] == x);
            }
            if set@.contains(x) {
                let k = choose|k: int| 0 <= k < set@.len() && set@[k] == x;
                if k < a.len() {
                    assert(a.contains(x));
                } else if k < a.len() + b.len() {
                    assert(b[k - a.len()] == x);
                    assert(b.contains(x));
                } else {
                    assert(c[k - a.len() - b.len()] == x);
                    assert(c.contains(x));
                }
            }
        }
        assert forall|z: char| #![auto] !(ident_first(z) && number_first(z)) && !(ident_first(z) && z == '"')
            && !(number_first(z) && z == '"') by {
            assert(('_' as int) == 95 && ('-' as int) == 45 && ('"' as int) == 34);
        }
        assert forall|i: int, j: int| 0 <= i < j < set@.len() implies set@[i] != set@[j] by {
            let x = set@[i];
            let y = set@[j];
            if i < a.len() {
                assert(a[i] == x);
                assert(a.contains(x));
                if j < a.len() {
                    assert(a[j] == y);
                    assert(a.no_duplicates());
                    assert(a[i] != a[j]);
                } else if j < a.len() + b.len() {
                    assert(b[j - a.len()] == y);
                    assert(b.contains(y));
                    assert(ident_first(x) && number_first(y));
                } else {
                    assert(c[j - a.len() - b.len()] == y);
                    assert(c.contains(y));
                    assert(ident_first(x) && y == '"');
                }
            } else if i < a.len() + b.len() {
                assert(b[i - a.len()] == x);
                assert(b.contains(x));
                if j < a.len() + b.len() {
                    assert(b[j - a.len()] == y);
                    assert(b.no_duplicates());
                    assert(b[i - a.len()] != b[j - a.len()]);
                } else {
                    assert(c[j - a.len() - b.len()] == y);
                    assert(c.contains(y));
                    assert(number_first(x) && y == '"');
                }
            } else {
                assert(c[i - a.len() - b.len()] == x);
                assert(c[j - a.len() - b.len()] == y);
                assert(c.no_duplicates());
            }
        }
        set
    }
}

/// `sp` runs from the location of index `i` to that of index `e`.
pub open spec fn covers(sp: Span, s: Seq<char>, i: int, e: int) -> bool {
    sp.spec_start() == loc_at(s, i) && sp.spec_end() == loc_at(s, e)
}

/// `r` is an error located where the grammar says the production fails.
pub open spec fn fails_at<T>(r: Result<T, Error>, s: Seq<char>, k: int) -> bool {
    r matches Err(err) && err.spec_location() == Some(loc_at(s, k))
}

/// What `parse_ident_or_bool` returns from index `i`, ending at `j`.
pub open spec fn ident_or_bool_result(
    s: Seq<char>,
    i: int,
    r: Result<(Option<Ident>, Option<Bool>), Error>,
    j: int,
) -> bool {
    match ident_or_bool_spec(s, i) {
        Ok((m, e)) => j == e && match r {
            Ok((Some(id), None)) => m == ValueModel::Ident(id.value@) && covers(id.span, s, i, e),
            Ok((None, Some(b))) => m == ValueModel::Bool(b.value) && covers(b.span, s, i, e),
            _ => false,
        },
        Err(k) => fails_at(r, s, k) && r matches Err(Error::ParseError { .. }),
    }
}

/// What `parse_value` (and the productions it dispatches to) returns.
pub open spec fn value_result(
    spec_r: Result<(ValueModel, int), int>,
    s: Seq<char>,
    i: int,
    r: Result<Value, Error>,
    j: int,
) -> bool {
    match spec_r {
        Ok((m, e)) => j == e && (r matches Ok(v) && v.model() == m && covers(v.span, s, i, e)
            && covers(v.value.inner_span(), s, i, e)),
        Err(k) => fails_at(r, s, k),
    }
}

/// What `parse_number_constant` returns from index `i`, ending at `j`.
pub open spec fn number_result(s: Seq<char>, i: int, r: Result<NumberConstant, Error>, j: int) -> bool {
    match number_spec(s, i) {
        Ok((m, e)) => j == e && (r matches Ok(n) && m == ValueModel::Number(n.value as int)
            && covers(n.span, s, i, e)),
        Err(k) => fails_at(r, s, k) && if 0 <= i < s.len() && number_first(s[i]) {
            r matches Err(Error::NumberFormat { text, .. }) && text@ == s.subrange(i, number_end(s, i))
        } else {
            r matches Err(Error::ParseError { .. })
        },
    }
}

/// What `parse_string_constant` returns from index `i`, ending at `j`.
pub open spec fn string_result(s: Seq<char>, i: int, r: Result<StringConstant, Error>, j: int) -> bool {
    match string_spec(s, i) {
        Ok((m, e)) => j == e && (r matches Ok(c) && m == ValueModel::Str(c.value@)
            && covers(c.span, s, i, e)),
        Err(k) => fails_at(r, s, k) && r matches Err(Error::ParseError { .. }),
    }
}

impl Value {
    /// The syntax-tree form of the value.
    pub fn into_node(self) -> (r: ValueNode)
        ensures
            r@ == self.model(),
    {
        match self.value {
            ValueTypes::BoolValue(b) => ValueNode::Bool(b.value),
            ValueTypes::IdentValue(n) => ValueNode::Ident(n.value),
            ValueTypes::NumberValue(n) => ValueNode::Number(n.value),
            ValueTypes::StringValue(t) => ValueNode::String(t.value),
        }
    }
}

/// The `= value` of a named argument.
#[derive(Debug)]
pub struct ArgTail {
    pub value: Value,
    pub span: Span,
}

impl ArgTail {
    pub fn value(&self) -> (r: &Value)
        ensures
            r == &self.value,
    {
        &self.value
    }
}

impl First for ArgTail {
    open spec fn first(ch: char) -> bool {
        ch == '='
    }

    fn in_first_set(ch: char) -> (r: bool) {
        ch == '='
    }

    fn first_set() -> (r: Vec<char>) {
        let v = vec!['='];
        assert forall|c: char| v@.contains(c) <==> c == '=' by {
            if c == '=' {
                assert(v@[0] == c);
            }
        }
        v
    }
}

/// A call argument: its value and, when named, the parameter's name.
#[derive(Debug)]
pub struct Arg {
    pub value: Value,
    pub ident: Option<Ident>,
    pub span: Span,
}

impl Arg {
    pub open spec fn model(&self) -> ArgModel {
        ArgModel {
            value: self.value.model(),
            name: match self.ident {
                Some(id) => Some(id.value@),
                None => None,
            },
        }
    }

    pub fn value(&self) -> (r: &Value)
        ensures
            r == &self.value,
    {
        &self.value
    }

    /// The syntax-tree form of the argument.
    pub fn into_node(self) -> (r: ArgNode)
        ensures
            r@ == self.model(),
    {
        let name = match self.ident {
            Some(id) => Some(id.value),
            None => None,
        };
        ArgNode(self.value.into_node(), name)
    }
}

impl First for Arg {
    open spec fn first(ch: char) -> bool {
        value_first(ch)
    }

    fn in_first_set(ch: char) -> (r: bool) {
        Value::in_first_set(ch)
    }

    fn first_set() -> (r: Vec<char>) {
        let r = Value::first_set();
        assert forall|c: char| r@.contains(c) <==> value_first(c) by {
            assert(<Value as First>::first(c) == value_first(c));
        }
        r
    }
}

pub open spec fn arg_models(v: Seq<Arg>) -> Seq<ArgModel> {
    v.map_values(|a: Arg| a.model())
}

/// The arguments of a call, in order.
#[derive(Debug)]
pub struct Args {
    pub args: Vec<Arg>,
    pub span: Span,
}

impl Args {
    /// The syntax-tree form of the arguments, in order.
    pub fn into_node(self) -> (r: ArgsNode)
        ensures
            r@ == arg_models(self.args@),
    {
        let mut out: Vec<ArgNode> = Vec::new();
        let mut rest = self.args;
        let ghost orig = rest@;
        while rest.len() > 0
            invariant
                rest@.len() + out@.len() == orig.len(),
                rest@ == orig.subrange(out@.len() as int, orig.len() as int),
                forall|k: int| 0 <= k < out@.len() ==> (#[trigger] out@[k])@ == orig[k].model(),
            decreases rest.len(),
        {
            let a = rest.remove(0);
            out.push(a.into_node());
            assert(rest@ =~= orig.subrange(out@.len() as int, orig.len() as int));
        }
        let r = ArgsNode(out);
        assert(r@ =~= arg_models(self.args@));
        r
    }
}

/// The variable an assignment stores into.
#[derive(Debug)]
pub struct Variable {
    pub ident: Ident,
    pub span: Span,
}

impl First for Variable {
    open spec fn first(ch: char) -> bool {
        ident_first(ch)
    }

    fn in_first_set(ch: char) -> (r: bool) {
        Ident::in_first_set(ch)
    }

    fn first_set() -> (r: Vec<char>) {
        let r = Ident::first_set();
        assert forall|c: char| r@.contains(c) <==> ident_first(c) by {
            assert(<Ident as First>::first(c) == ident_first(c));
        }
        r
    }
}

/// What `parse_arg_tail` returns from index `i`, ending at `j`.
pub open spec fn arg_tail_result(s: Seq<char>, i: int, r: Result<ArgTail, Error>, j: int) -> bool {
    match arg_tail_spec(s, i) {
        Ok((m, e)) => j == e && (r matches Ok(t) && t.value.model() == m && covers(t.span, s, i, e)),
        Err(k) => fails_at(r, s, k),
    }
}

/// What `parse_arg` returns from index `i`, ending at `j`.
pub open spec fn arg_result(s: Seq<char>, i: int, r: Result<Arg, Error>, j: int) -> bool {
    match arg_spec(s, i) {
        Ok((m, e)) => j == e && (r matches Ok(a) && a.model() == m && covers(a.span, s, i, e)),
        Err(k) => fails_at(r, s, k),
    }
}

/// What `parse_args` returns from index `i`, ending at `j`.
pub open spec fn args_result(s: Seq<char>, i: int, r: Result<Args, Error>, j: int) -> bool {
    match args_spec(s, i) {
        Ok((m, e)) => j == e && (r matches Ok(a) && arg_models(a.args@) == m && covers(a.span, s, i, e)),
        Err(k) => fails_at(r, s, k),
    }
}

/// What `parse_variable` returns from index `i`, ending at `j`: an
/// identifier that is not a reserved word.
pub open spec fn variable_result(s: Seq<char>, i: int, r: Result<Variable, Error>, j: int) -> bool {
    match ident_or_bool_spec(s, i) {
        Ok((ValueModel::Ident(n), e)) => j == e && (r matches Ok(v) && v.ident.value@ == n
            && covers(v.span, s, i, e) && covers(v.ident.span, s, i, e)),
        Ok(_) => fails_at(r, s, i),
        Err(k) => fails_at(r, s, k),
    }
}

/// The arguments already parsed, followed by what the rest parses to.
pub open spec fn prepend_args(
    done: Seq<ArgModel>,
    rest: Result<(Seq<ArgModel>, int), int>,
) -> Result<(Seq<ArgModel>, int), int> {
    match rest {
        Ok((more, e)) => Ok((done + more, e)),
        Err(k) => Err(k),
    }
}

/// The statements already parsed, followed by what the rest parses to.
pub open spec fn prepend_stmts(
    done: Seq<StmtModel>,
    rest: Result<Seq<StmtModel>, int>,
) -> Result<Seq<StmtModel>, int> {
    match rest {
        Ok(more) => Ok(done + more),
        Err(k) => Err(k),
    }
}

/// What `parse_call_tail` returns from index `i`, ending at `j`.
pub open spec fn call_tail_result(s: Seq<char>, i: int, r: Result<ArgsNode, Error>, j: int) -> bool {
    match call_tail_spec(s, i) {
        Ok((m, e)) => j == e && (r matches Ok(a) && a@ == m),
        Err(k) => fails_at(r, s, k),
    }
}

/// What `parse_call` returns from index `i`, ending at `j`.
pub open spec fn call_result(s: Seq<char>, i: int, r: Result<CallNode, Error>, j: int) -> bool {
    match call_spec(s, i) {
        Ok((m, e)) => j == e && (r matches Ok(c) && c@ == m),
        Err(k) => fails_at(r, s, k),
    }
}

/// What `parse_statement` returns from index `i`, ending at `j`.
pub open spec fn stmt_result(s: Seq<char>, i: int, r: Result<StmtNode, Error>, j: int) -> bool {
    match stmt_spec(s, i) {
        Ok((m, e)) => j == e && (r matches Ok(st) && st@ == m),
        Err(k) => fails_at(r, s, k),
    }
}

/// What `parse_program` returns for the input `s`.
pub open spec fn program_result(s: Seq<char>, r: Result<ProgramNode, Error>) -> bool {
    match program_spec(s, 0) {
        Ok(m) => r matches Ok(p) && p@ == m,
        Err(k) => fails_at(r, s, k),
    }
}

pub open spec fn stmt_models(v: Seq<StmtNode>) -> Seq<StmtModel> {
    v.map_values(|st: StmtNode| st@)
}

/// The source is consistent, its locations fit, and its position lies
/// within the input.
pub open spec fn reader_ok<SR: SpanningRead>(sr: &SR) -> bool {
    &&& sr.wf()
    &&& fits_locations(sr.chars())
    &&& 0 <= sr.pos() <= sr.chars().len()
}

/// A parser over a character source.
pub struct Parser<SR: SpanningRead> {
    pub sr: SR,
}

impl<SR: SpanningRead> Parser<SR> {
    pub open spec fn input(&self) -> Seq<char> {
        self.sr.chars()
    }

    pub open spec fn at(&self) -> int {
        self.sr.pos()
    }

    pub fn new(sr: SR) -> (r: Parser<SR>)
        ensures
            r.sr == sr,
    {
        Parser { sr }
    }

    /// Skips whitespace.
    pub fn skip_white(&mut self)
        requires
            reader_ok(&old(self).sr),
        ensures
            reader_ok(&final(self).sr),
            final(self).input() == old(self).input(),
            final(self).at() == skip_ws(old(self).input(), old(self).at()),
    {
        let ghost s = self.input();
        let ghost i = self.at();
        loop
            invariant
                reader_ok(&self.sr),
                self.input() == s,
                i <= self.at(),
                skip_ws(s, i) == skip_ws(s, self.at()),
            ensures
                skip_ws(s, self.at()) == self.at(),
            decreases s.len() - self.at(),
        {
            match self.sr.peek_char() {
                Some(ch) => {
                    if !is_whitespace(ch) {
                        break;
                    }
                    self.sr.eat_char();
                },
                None => break,
            }
        }
    }

    /// Fails unless the next character is `expected`; consumes nothing.
    pub fn expect_char(&self, expected: char) -> (r: Result<(), Error>)
        requires
            reader_ok(&self.sr),
        ensures
            r is Ok <==> peek_at(self.input(), self.at()) == Some(expected),
            r is Err ==> fails_at(r, self.input(), self.at()) && r matches Err(Error::ParseError { .. }),
    {
        if let Some(ch) = self.sr.peek_char() {
            if expected == ch {
                return Ok(());
            }
        }
        Err(Error::ParseError { msg: String::from_str("Expected another character."), location: self.sr.location() })
    }

    /// The span from `start` (the location of index `i`) to here.
    fn span_since(&self, start: Location, Ghost(i): Ghost<int>) -> (r: Span)
        requires
            reader_ok(&self.sr),
            0 <= i < self.at(),
            start == loc_at(self.input(), i),
        ensures
            covers(r, self.input(), i, self.at()),
    {
        proof {
            lemma_loc_increasing(self.input(), i, self.at());
        }
        Span::new(start, self.sr.location()).unwrap()
    }

    fn error_here(&self, msg: &str) -> (r: Error)
        requires
            reader_ok(&self.sr),
        ensures
            r matches Error::ParseError { location, .. } && location == loc_at(self.input(), self.at()),
    {
        Error::ParseError { msg: String::from_str(msg), location: self.sr.location() }
    }

    /// An identifier, or a boolean when the text is exactly `true` or `false`.
    pub fn parse_ident_or_bool(&mut self) -> (r: Result<(Option<Ident>, Option<Bool>), Error>)
        requires
            reader_ok(&old(self).sr),
        ensures
            reader_ok(&final(self).sr),
            final(self).input() == old(self).input(),
            ident_or_bool_result(old(self).input(), old(self).at(), r, final(self).at()),
    {
        let ghost s = self.input();
        let ghost i = self.at();
        let start = self.sr.location();
        let first = match self.sr.peek_char() {
            Some(c) => c,
            None => return Err(self.error_here("Unexpected EOF")),
        };
        if !Ident::in_first_set(first) {
            return Err(self.error_here("Expected '_' or alphabetic."));
        }
        self.sr.eat_char();
        let mut value = String::new();
        push_char(&mut value, first);
        assert(value@ =~= s.subrange(i, i + 1));
        loop
            invariant
                reader_ok(&self.sr),
                self.input() == s,
                0 <= i < self.at() <= s.len(),
                value@ == s.subrange(i, self.at()),
                run_end(s, i + 1, CharClass::IdentRest) == run_end(s, self.at(), CharClass::IdentRest),
            ensures
                run_end(s, self.at(), CharClass::IdentRest) == self.at(),
            decreases s.len() - self.at(),
        {
            match self.sr.peek_char() {
                Some(ch) => {
                    if ch != '_' && !is_ascii_alnum(ch) {
                        break;
                    }
                    let ghost p = self.at();
                    assert(s[p] == ch);
                    push_char(&mut value, ch);
                    self.sr.eat_char();
                    assert(value@ =~= s.subrange(i, p + 1));
                },
                None => break,
            }
        }
        let span = self.span_since(start, Ghost(i));
        let t = String::from_str("true");
        let f = String::from_str("false");
        proof {
            reveal_strlit("true");
            reveal_strlit("false");
            assert("true"@ =~= text_true());
            assert("false"@ =~= text_false());
        }
        if value == t {
            Ok((None, Some(Bool { value: true, span })))
        } else if value == f {
            Ok((None, Some(Bool { value: false, span })))
        } else {
            Ok((Some(Ident { value, span }), None))
        }
    }

    /// An optional `-` and then digits, as a signed 32-bit integer.
    pub fn parse_number_constant(&mut self) -> (r: Result<NumberConstant, Error>)
        requires
            reader_ok(&old(self).sr),
        ensures
            reader_ok(&final(self).sr),
            final(self).input() == old(self).input(),
            number_result(old(self).input(), old(self).at(), r, final(self).at()),
    {
        let ghost s = self.input();
        let ghost i = self.at();
        let start = self.sr.location();
        let first = match self.sr.peek_char() {
            Some(c) => c,
            None => return Err(self.error_here("Unexpected EOF")),
        };
        if !NumberConstant::in_first_set(first) {
            return Err(self.error_here("Expected 0-9"));
        }
        self.sr.eat_char();
        let mut text = String::new();
        push_char(&mut text, first);
        assert(text@ =~= s.subrange(i, i + 1));
        let negative = first == '-';
        let mut acc: u64 = if negative { 0 } else { (first as u32 - 48) as u64 };
        let mut over = false;
        let mut any_digit = false;
        let ghost dstart: int = if negative { i + 1 } else { i };
        proof {
            lemma_digits_push(Seq::<char>::empty(), first);
            assert(Seq::<char>::empty().push(first) =~= s.subrange(i, i + 1));
            assert(s.subrange(i + 1, i + 1) =~= Seq::<char>::empty());
        }
        loop
            invariant
                reader_ok(&self.sr),
                self.input() == s,
                0 <= i < self.at() <= s.len(),
                any_digit == (self.at() > i + 1),
                text@ == s.subrange(i, self.at()),
                negative == (s[i] == '-'),
                dstart == if negative { i + 1 } else { i },
                dstart <= self.at(),
                run_end(s, i + 1, CharClass::Digit) == run_end(s, self.at(), CharClass::Digit),
                forall|m: int| dstart <= m < self.at() ==> ascii_digit(#[trigger] s[m]),
                !over ==> acc == digits_value(s.subrange(dstart, self.at())) && acc <= 2147483648,
                over ==> digits_value(s.subrange(dstart, self.at())) > 2147483648,
            ensures
                run_end(s, self.at(), CharClass::Digit) == self.at(),
            decreases s.len() - self.at(),
        {
            match self.sr.peek_char() {
                Some(ch) => {
                    if !is_ascii_digit(ch) {
                        break;
                    }
                    let ghost p = self.at();
                    let d = (ch as u32 - 48) as u64;
                    proof {
                        let old_d = s.subrange(dstart, p);
                        lemma_digits_push(old_d, ch);
                        lemma_digits_nonneg(old_d);
                        assert(old_d.push(ch) =~= s.subrange(dstart, p + 1));
                    }
                    if !over {
                        if acc * 10 + d > 2147483648 {
                            over = true;
                        } else {
                            acc = acc * 10 + d;
                        }
                    }
                    push_char(&mut text, ch);
                    self.sr.eat_char();
                    any_digit = true;
                    assert(text@ =~= s.subrange(i, p + 1));
                },
                None => break,
            }
        }
        let ghost e = self.at();
        proof {
            let t = s.subrange(i, e);
            assert(t.drop_first() =~= s.subrange(i + 1, e));
            assert(s.subrange(dstart, e) == if negative { t.drop_first() } else { t });
        }
        if negative && !any_digit {
            return Err(Error::NumberFormat { text, location: start });
        }
        if over || (!negative && acc > 2147483647) {
            return Err(Error::NumberFormat { text, location: start });
        }
        let value: i32 = if negative { (0 - acc as i64) as i32 } else { acc as i32 };
        let span = self.span_since(start, Ghost(i));
        Ok(NumberConstant { value, span })
    }

    /// A double-quoted string; everything up to the next quote is its value.
    pub fn parse_string_constant(&mut self) -> (r: Result<StringConstant, Error>)
        requires
            reader_ok(&old(self).sr),
        ensures
            reader_ok(&final(self).sr),
            final(self).input() == old(self).input(),
            string_result(old(self).input(), old(self).at(), r, final(self).at()),
    {
        let ghost s = self.input();
        let ghost i = self.at();
        let start = self.sr.location();
        if let Err(e) = self.expect_char('"') {
            return Err(e);
        }
        self.sr.eat_char();
        let mut value = String::new();
        assert(value@ =~= s.subrange(i + 1, i + 1));
        loop
            invariant
                reader_ok(&self.sr),
                self.input() == s,
                0 <= i < self.at() <= s.len(),
                value@ == s.subrange(i + 1, self.at()),
                run_end(s, i + 1, CharClass::NotQuote) == run_end(s, self.at(), CharClass::NotQuote),
            ensures
                run_end(s, self.at(), CharClass::NotQuote) == self.at(),
                self.at() < s.len() ==> s[self.at()] == '"',
            decreases s.len() - self.at(),
        {
            match self.sr.peek_char() {
                Some(ch) => {
                    if ch == '"' {
                        break;
                    }
                    let ghost p = self.at();
                    push_char(&mut value, ch);
                    self.sr.eat_char();
                    assert(value@ =~= s.subrange(i + 1, p + 1));
                },
                None => break,
            }
        }
        if let Err(e) = self.expect_char('"') {
            return Err(e);
        }
        self.sr.next_char();
        let span = self.span_since(start, Ghost(i));
        Ok(StringConstant { value, span })
    }

    /// A number, an identifier or boolean, or a string, chosen by the next
    /// character.
    pub fn parse_value(&mut self) -> (r: Result<Value, Error>)
        requires
            reader_ok(&old(self).sr),
        ensures
            reader_ok(&final(self).sr),
            final(self).input() == old(self).input(),
            value_result(value_spec(old(self).input(), old(self).at()), old(self).input(), old(self).at(), r, final(self).at()),
    {
        let ghost s = self.input();
        let ghost i = self.at();
        proof {
            lemma_value_advances(s, i);
        }
        let start = self.sr.location();
        let first = match self.sr.peek_char() {
            Some(c) => c,
            None => return Err(self.error_here("Unexpected EOF")),
        };
        if NumberConstant::in_first_set(first) {
            let number_constant = match self.parse_number_constant() {
                Ok(n) => n,
                Err(e) => return Err(e),
            };
            let span = self.span_since(start, Ghost(i));
            Ok(Value { value: ValueTypes::NumberValue(number_constant), span })
        } else if Ident::in_first_set(first) {
            match self.parse_ident_or_bool() {
                Ok((Some(ident), None)) => {
                    let span = self.span_since(start, Ghost(i));
                    Ok(Value { value: ValueTypes::IdentValue(ident), span })
                },
                Ok((None, Some(b))) => {
                    let span = self.span_since(start, Ghost(i));
                    Ok(Value { value: ValueTypes::BoolValue(b), span })
                },
                Ok(_) => Err(Error::IdentFailed { location: start }),
                Err(e) => Err(e),
            }
        } else if StringConstant::in_first_set(first) {
            let string_constant = match self.parse_string_constant() {
                Ok(c) => c,
                Err(e) => return Err(e),
            };
            let span = self.span_since(start, Ghost(i));
            Ok(Value { value: ValueTypes::StringValue(string_constant), span })
        } else {
            Err(self.error_here("Unexpected character found."))
        }
    }

    /// `=`, whitespace, then a value.
    pub fn parse_arg_tail(&mut self) -> (r: Result<ArgTail, Error>)
        requires
            reader_ok(&old(self).sr),
        ensures
            reader_ok(&final(self).sr),
            final(self).input() == old(self).input(),
            arg_tail_result(old(self).input(), old(self).at(), r, final(self).at()),
    {
        let ghost s = self.input();
        let ghost i = self.at();
        let start = self.sr.location();
        if let Err(e) = self.expect_char('=') {
            return Err(e);
        }
        self.sr.eat_char();
        self.skip_white();
        proof {
            lemma_run_end_bounds(s, i + 1, CharClass::White);
            lemma_value_advances(s, self.at());
        }
        let value = match self.parse_value() {
            Ok(v) => v,
            Err(e) => return Err(e),
        };
        let span = self.span_since(start, Ghost(i));
        Ok(ArgTail { value, span })
    }

    /// A positional argument, or `name = value`.
    pub fn parse_arg(&mut self) -> (r: Result<Arg, Error>)
        requires
            reader_ok(&old(self).sr),
        ensures
            reader_ok(&final(self).sr),
            final(self).input() == old(self).input(),
            arg_result(old(self).input(), old(self).at(), r, final(self).at()),
    {
        let ghost s = self.input();
        let ghost i = self.at();
        proof {
            lemma_value_advances(s, i);
            lemma_arg_advances(s, i);
        }
        let start = self.sr.location();
        let ident_or_value = match self.parse_value() {
            Ok(v) => v,
            Err(e) => return Err(e),
        };
        self.skip_white();
        let has_tail = match self.sr.peek_char() {
            Some(c) => ArgTail::in_first_set(c),
            None => false,
        };
        if has_tail {
            let tail = match self.parse_arg_tail() {
                Ok(t) => t,
                Err(e) => return Err(e),
            };
            match ident_or_value.value {
                ValueTypes::IdentValue(ident) => {
                    let span = self.span_since(start, Ghost(i));
                    Ok(Arg { value: tail.value, ident: Some(ident), span })
                },
                _ => Err(Error::ParseError {
                    msg: String::from_str("Expected an identifier before '='."),
                    location: start,
                }),
            }
        } else {
            let span = self.span_since(start, Ghost(i));
            Ok(Arg { value: ident_or_value, ident: None, span })
        }
    }

    /// Arguments separated by commas.
    pub fn parse_args(&mut self) -> (r: Result<Args, Error>)
        requires
            reader_ok(&old(self).sr),
        ensures
            reader_ok(&final(self).sr),
            final(self).input() == old(self).input(),
            args_result(old(self).input(), old(self).at(), r, final(self).at()),
    {
        let ghost s = self.input();
        let ghost i = self.at();
        let start = self.sr.location();
        let mut args_vec: Vec<Arg> = Vec::new();
        assert(prepend_args(arg_models(args_vec@), args_spec(s, i)) =~= args_spec(s, i)) by {
            if let Ok((m, e)) = args_spec(s, i) {
                assert(arg_models(args_vec@) + m =~= m);
            }
        }
        loop
            invariant_except_break
                args_spec(s, i) == prepend_args(arg_models(args_vec@), args_spec(s, self.at())),
            invariant
                reader_ok(&self.sr),
                self.input() == s,
                0 <= i <= self.at() <= s.len(),
                s == old(self).input(),
                i == old(self).at(),
                args_vec@.len() > 0 ==> i < self.at(),
            ensures
                args_vec@.len() > 0,
                i < self.at(),
                args_spec(s, i) == Ok::<(Seq<ArgModel>, int), int>((arg_models(args_vec@), self.at())),
            decreases s.len() - self.at(),
        {
            let ghost p = self.at();
            proof {
                lemma_arg_advances(s, p);
            }
            let arg = match self.parse_arg() {
                Ok(a) => a,
                Err(e) => return Err(e),
            };
            let ghost j = self.at();
            let ghost before = arg_models(args_vec@);
            let ghost am = arg.model();
            args_vec.push(arg);
            assert(arg_models(args_vec@) =~= before.push(am));
            self.skip_white();
            proof {
                lemma_run_end_bounds(s, j, CharClass::White);
            }
            let comma = match self.sr.peek_char() {
                Some(c) => c == ',',
                None => false,
            };
            if comma {
                self.sr.eat_char();
                self.skip_white();
                proof {
                    let w = skip_ws(s, j);
                    lemma_run_end_bounds(s, w + 1, CharClass::White);
                    if let Ok((more, e)) = args_spec(s, self.at()) {
                        assert(before + (seq![am] + more) =~= before.push(am) + more);
                    }
                }
            } else {
                proof {
                    assert(before + seq![am] =~= before.push(am));
                }
                break;
            }
        }
        let span = self.span_since(start, Ghost(i));
        Ok(Args { args: args_vec, span })
    }

    /// An identifier that names a variable; reserved words are refused.
    pub fn parse_variable(&mut self) -> (r: Result<Variable, Error>)
        requires
            reader_ok(&old(self).sr),
        ensures
            reader_ok(&final(self).sr),
            final(self).input() == old(self).input(),
            variable_result(old(self).input(), old(self).at(), r, final(self).at()),
    {
        let ghost s = self.input();
        let ghost i = self.at();
        let start = self.sr.location();
        match self.parse_ident_or_bool() {
            Ok((Some(ident), _)) => {
                proof {
                    lemma_ident_advances(s, i);
                }
                let span = self.span_since(start, Ghost(i));
                Ok(Variable { ident, span })
            },
            Ok(_) => Err(Error::ParseError {
                msg: String::from_str("Expected ident for variable. Probably got a reserved word."),
                location: start,
            }),
            Err(e) => Err(e),
        }
    }

    /// `(`, then arguments (possibly none), then `)`.
    pub fn parse_call_tail(&mut self) -> (r: Result<ArgsNode, Error>)
        requires
            reader_ok(&old(self).sr),
        ensures
            reader_ok(&final(self).sr),
            final(self).input() == old(self).input(),
            call_tail_result(old(self).input(), old(self).at(), r, final(self).at()),
    {
        let ghost s = self.input();
        let ghost i = self.at();
        if let Err(e) = self.expect_char('(') {
            return Err(e);
        }
        self.sr.eat_char();
        self.skip_white();
        let close = match self.sr.peek_char() {
            Some(c) => c == ')',
            None => false,
        };
        if close {
            self.sr.eat_char();
            let r = ArgsNode(Vec::new());
            assert(r@ =~= Seq::<ArgModel>::empty());
            return Ok(r);
        }
        let args = match self.parse_args() {
            Ok(a) => a,
            Err(e) => return Err(e),
        };
        self.skip_white();
        if let Err(e) = self.expect_char(')') {
            return Err(e);
        }
        self.sr.eat_char();
        Ok(args.into_node())
    }

    /// A function name that is not a reserved word, then its arguments.
    pub fn parse_call(&mut self) -> (r: Result<CallNode, Error>)
        requires
            reader_ok(&old(self).sr),
        ensures
            reader_ok(&final(self).sr),
            final(self).input() == old(self).input(),
            call_result(old(self).input(), old(self).at(), r, final(self).at()),
    {
        let start = self.sr.location();
        match self.parse_ident_or_bool() {
            Ok((Some(ident), _)) => {
                self.skip_white();
                match self.parse_call_tail() {
                    Ok(args) => Ok(CallNode(ident.value, args)),
                    Err(e) => Err(e),
                }
            },
            Ok(_) => Err(Error::ParseError {
                msg: String::from_str("Expected a function name."),
                location: start,
            }),
            Err(e) => Err(e),
        }
    }

    /// `variable = call`, or a bare call.
    pub fn parse_statement(&mut self) -> (r: Result<StmtNode, Error>)
        requires
            reader_ok(&old(self).sr),
        ensures
            reader_ok(&final(self).sr),
            final(self).input() == old(self).input(),
            stmt_result(old(self).input(), old(self).at(), r, final(self).at()),
    {
        let start = self.sr.location();
        match self.parse_ident_or_bool() {
            Ok((Some(ident), _)) => {
                self.skip_white();
                let assign = match self.sr.peek_char() {
                    Some(c) => c == '=',
                    None => false,
                };
                if assign {
                    self.sr.eat_char();
                    self.skip_white();
                    match self.parse_call() {
                        Ok(call) => Ok(StmtNode::Assign(ident.value, call)),
                        Err(e) => Err(e),
                    }
                } else {
                    match self.parse_call_tail() {
                        Ok(args) => Ok(StmtNode::Call(CallNode(ident.value, args))),
                        Err(e) => Err(e),
                    }
                }
            },
            Ok(_) => Err(Error::ParseError {
                msg: String::from_str("Expected a variable or function name."),
                location: start,
            }),
            Err(e) => Err(e),
        }
    }

    /// Every statement up to the end of the input.
    pub fn parse_program(&mut self) -> (r: Result<ProgramNode, Error>)
        requires
            reader_ok(&old(self).sr),
            old(self).at() == 0,
        ensures
            program_result(old(self).input(), r),
    {
        let ghost s = self.input();
        let mut stmts: Vec<StmtNode> = Vec::new();
        assert(prepend_stmts(stmt_models(stmts@), program_spec(s, 0)) =~= program_spec(s, 0)) by {
            if let Ok(m) = program_spec(s, 0) {
                assert(stmt_models(stmts@) + m =~= m);
            }
        }
        loop
            invariant_except_break
                program_spec(s, 0) == prepend_stmts(stmt_models(stmts@), program_spec(s, self.at())),
            invariant
                reader_ok(&self.sr),
                self.input() == s,
                s == old(self).input(),
            ensures
                program_spec(s, 0) == Ok::<Seq<StmtModel>, int>(stmt_models(stmts@)),
            decreases s.len() - self.at(),
        {
            let ghost p = self.at();
            self.skip_white();
            proof {
                lemma_run_end_bounds(s, p, CharClass::White);
            }
            if self.sr.eof() {
                assert(stmt_models(stmts@) + Seq::<StmtModel>::empty() =~= stmt_models(stmts@));
                break;
            }
            let ghost w = self.at();
            proof {
                lemma_stmt_advances(s, w);
            }
            let st = match self.parse_statement() {
                Ok(st) => st,
                Err(e) => return Err(e),
            };
            let ghost before = stmt_models(stmts@);
            let ghost sm = st@;
            stmts.push(st);
            proof {
                assert(stmt_models(stmts@) =~= before.push(sm));
                if let Ok(more) = program_spec(s, self.at()) {
                    assert(before + (seq![sm] + more) =~= before.push(sm) + more);
                }
            }
        }
        let r = ProgramNode(stmts);
        assert(r@ =~= stmt_models(stmts@));
        Ok(r)
    }
}

} // verus!
