//! The filter expression language.
//!
//! A filter expression is a list of conditions joined by ` and `; an
//! entry passes the expression when every condition matches.  Conditions
//! speak about an entry's name, path, type, size, modification age and
//! extension.  The `like` operator uses `%` as a zero-or-more-characters
//! wildcard.
//!
//! Ages are compared in whole milliseconds against day counts written as
//! plain decimal literals (up to nine fractional digits), so every
//! comparison is exact rational arithmetic.

use vstd::prelude::*;

use crate::text;
use crate::text::{
    all_dec_digits, chars_eq, chars_to_string, contains_seq, contains_sub, count_char,
    count_char_in, digits_to_nat, ends_with, find_sub, is_dec_digit, is_prefix_of, is_suffix_of,
    lemma_spec_find, occurs_at, parse_u64_chars, pow10, slice_range, spec_find, spec_parse_u64,
    spec_trim, spec_trim_back, spec_trim_front, split_on, starts_with, string_to_chars, trim,
};

verus! {

/// A day count, as an exact decimal: `num / 10^pow10` days.
///
/// Day counts come from decimal literals such as `0.5`; at most nine
/// fractional digits are kept, so the denominator always fits a `u64`.
#[derive(Debug, Clone, Copy, PartialEq, Eq, Structural)]
pub struct DayValue {
    /// The numerator: the literal's digits with the point removed.
    pub num: u64,
    /// The power of ten dividing `num`: the number of fractional digits.
    pub pow10: u32,
}

/// A well-formed day count keeps at most nine fractional digits.
pub open spec fn day_value_wf(d: DayValue) -> bool {
    d.pow10 <= 9
}

/// One condition of a filter expression.
///
/// The operator is kept as the text that named it (`"=="`, `"like"`,
/// ...); an operator that a field does not support never matches.
#[derive(Debug, Clone)]
pub enum FilterCondition {
    /// Compares the entry's file name.
    Name { operator: String, value: String },
    /// Compares the entry's full path.
    Path { operator: String, value: String },
    /// Compares the entry's type (`"file"` or `"dir"`).
    Type { operator: String, value: String },
    /// Compares the entry's age against a day count.
    Modified { operator: String, value: DayValue },
    /// Compares the entry's size in bytes.
    Size { operator: String, value: u64 },
    /// Compares the entry's extension.
    Extension { operator: String, value: String },
}

/// The mathematical form of a condition.
pub enum CondView {
    Name { op: Seq<char>, val: Seq<char> },
    Path { op: Seq<char>, val: Seq<char> },
    Type { op: Seq<char>, val: Seq<char> },
    Modified { op: Seq<char>, num: nat, pow: nat },
    Size { op: Seq<char>, val: nat },
    Extension { op: Seq<char>, val: Seq<char> },
}

impl View for FilterCondition {
    type V = CondView;

    open spec fn view(&self) -> CondView {
        match self {
            FilterCondition::Name { operator, value } => CondView::Name {
                op: operator@,
                val: value@,
            },
            FilterCondition::Path { operator, value } => CondView::Path {
                op: operator@,
                val: value@,
            },
            FilterCondition::Type { operator, value } => CondView::Type {
                op: operator@,
                val: value@,
            },
            FilterCondition::Modified { operator, value } => CondView::Modified {
                op: operator@,
                num: value.num as nat,
                pow: value.pow10 as nat,
            },
            FilterCondition::Size { operator, value } => CondView::Size {
                op: operator@,
                val: *value as nat,
            },
            FilterCondition::Extension { operator, value } => CondView::Extension {
                op: operator@,
                val: value@,
            },
        }
    }
}

/// A condition is well formed when any day count in it is.
pub open spec fn cond_wf(c: FilterCondition) -> bool {
    match c {
        FilterCondition::Modified { operator, value } => day_value_wf(value),
        _ => true,
    }
}

/// The attributes of one entry, as the filter language sees them.
pub ghost struct EntryAttrs {
    /// The file name.
    pub name: Seq<char>,
    /// The full path.
    pub path: Seq<char>,
    /// `"file"` or `"dir"`.
    pub ftype: Seq<char>,
    /// Milliseconds since the entry was last modified.
    pub age_ms: int,
    /// Size in bytes.
    pub size: int,
    /// The lower-cased extension, empty when there is none.
    pub ext: Seq<char>,
}

/// `like` matching: `%` stands for zero or more characters.  A pattern
/// may have a leading `%`, a trailing `%`, both, or exactly one `%`
/// inside; a pattern with two or more interior `%` falls back to asking
/// whether the value holds a literal `%`, and a pattern without `%`
/// means equality.
pub open spec fn like_matches(v: Seq<char>, pat: Seq<char>) -> bool {
    if pat.len() >= 1 && pat[0] == '%' && pat.last() == '%' {
        if pat.len() == 1 {
            true
        } else {
            contains_seq(v, pat.subrange(1, pat.len() - 1))
        }
    } else if pat.len() >= 1 && pat[0] == '%' {
        is_suffix_of(pat.skip(1), v)
    } else if pat.len() >= 1 && pat.last() == '%' {
        is_prefix_of(pat.take(pat.len() - 1), v)
    } else if count_char(pat, '%') == 1 {
        match spec_find(pat, seq!['%']) {
            Some(i) => is_prefix_of(pat.take(i), v) && is_suffix_of(pat.skip(i + 1), v),
            None => false,
        }
    } else if count_char(pat, '%') >= 2 {
        contains_seq(v, seq!['%'])
    } else {
        v == pat
    }
}

/// What a string operator means, for name and path conditions.
pub open spec fn eval_str_op(op: Seq<char>, field: Seq<char>, val: Seq<char>) -> bool {
    if op == "=="@ {
        field == val
    } else if op == "!="@ {
        field != val
    } else if op == "contains"@ || op == "in"@ {
        contains_seq(field, val)
    } else if op == "starts_with"@ {
        is_prefix_of(val, field)
    } else if op == "ends_with"@ {
        is_suffix_of(val, field)
    } else if op == "like"@ {
        like_matches(field, val)
    } else {
        false
    }
}

/// What a string operator means for extension conditions, which accept
/// only equality, inequality, `contains` and `like`.
pub open spec fn eval_ext_op(op: Seq<char>, field: Seq<char>, val: Seq<char>) -> bool {
    if op == "=="@ {
        field == val
    } else if op == "!="@ {
        field != val
    } else if op == "contains"@ {
        contains_seq(field, val)
    } else if op == "like"@ {
        like_matches(field, val)
    } else {
        false
    }
}

/// What a numeric comparison operator means.
pub open spec fn eval_cmp(op: Seq<char>, lhs: int, rhs: int) -> bool {
    if op == "<"@ {
        lhs < rhs
    } else if op == ">"@ {
        lhs > rhs
    } else if op == "<="@ {
        lhs <= rhs
    } else if op == ">="@ {
        lhs >= rhs
    } else {
        false
    }
}

/// The number of milliseconds in one day.
pub const MS_PER_DAY: u64 = 86_400_000;

/// Does one condition match an entry?  A modified condition compares
/// the entry's age with the day count as exact rationals:
/// `age_ms / MS_PER_DAY  op  num / 10^pow`.
pub open spec fn cond_matches(c: CondView, e: EntryAttrs) -> bool {
    match c {
        CondView::Name { op, val } => eval_str_op(op, e.name, val),
        CondView::Path { op, val } => eval_str_op(op, e.path, val),
        CondView::Type { op, val } => op == "=="@ && e.ftype == val,
        CondView::Modified { op, num, pow } => eval_cmp(
            op,
            e.age_ms * pow10(pow),
            num * MS_PER_DAY,
        ),
        CondView::Size { op, val } => eval_cmp(op, e.size, val as int),
        CondView::Extension { op, val } => eval_ext_op(op, e.ext, val),
    }
}

/// Does every condition in the list match the entry?
pub open spec fn conds_match(cs: Seq<CondView>, e: EntryAttrs) -> bool {
    forall|i: int| 0 <= i < cs.len() ==> cond_matches(#[trigger] cs[i], e)
}

/// Evaluate the `like` wildcard pattern `pat` against `v`.
fn like_matches_exec(v: &[char], pat: &[char]) -> (r: bool)
    ensures
        r == like_matches(v@, pat@),
{
    let m = pat.len();
    if m >= 1 && pat[0] == '%' && pat[m - 1] == '%' {
        if m == 1 {
            return true;
        }
        let inner = slice_range(pat, 1, m - 1);
        proof {
            assert(inner@ =~= pat@.subrange(1, pat@.len() - 1));
            lemma_spec_find(v@, inner@);
        }
        return contains_sub(v, inner.as_slice());
    }
    if m >= 1 && pat[0] == '%' {
        let suf = slice_range(pat, 1, m);
        proof {
            assert(suf@ =~= pat@.skip(1));
        }
        return ends_with(v, suf.as_slice());
    }
    if m >= 1 && pat[m - 1] == '%' {
        let pre = slice_range(pat, 0, m - 1);
        proof {
            assert(pre@ =~= pat@.take(pat@.len() - 1));
        }
        return starts_with(v, pre.as_slice());
    }
    let pct = count_char_in(pat, '%');
    if pct == 1 {
        let mut percent: Vec<char> = Vec::new();
        percent.push('%');
        proof {
            assert(percent@ =~= seq!['%']);
        }
        match find_sub(pat, percent.as_slice()) {
            Some(i) => {
                proof {
                    lemma_spec_find(pat@, seq!['%']);
                }
                let pre = slice_range(pat, 0, i);
                let suf = slice_range(pat, i + 1, m);
                proof {
                    assert(pre@ =~= pat@.take(i as int));
                    assert(suf@ =~= pat@.skip(i + 1));
                }
                let a = starts_with(v, pre.as_slice());
                let b = ends_with(v, suf.as_slice());
                return a && b;
            },
            None => {
                proof {
                    // one '%' is counted, so one must be found
                    lemma_count_char_found(pat@, '%');
                    lemma_spec_find(pat@, seq!['%']);
                    let w = choose|w: int| 0 <= w < pat@.len() && pat@[w] == '%';
                    assert(occurs_at(pat@, seq!['%'], w)) by {
                        assert(pat@.subrange(w, w + 1) =~= seq![pat@[w]]);
                    }
                }
                return false;
            },
        }
    }
    if pct >= 2 {
        let mut percent: Vec<char> = Vec::new();
        percent.push('%');
        proof {
            assert(percent@ =~= seq!['%']);
        }
        return contains_sub(v, percent.as_slice());
    }
    chars_eq(v, pat)
}

/// A positive character count yields a witness index.
proof fn lemma_count_char_found(s: Seq<char>, c: char)
    requires
        count_char(s, c) >= 1,
    ensures
        exists|i: int| 0 <= i < s.len() && s[i] == c,
    decreases s.len(),
{
    if s.len() > 0 {
        if s.last() == c {
            assert(s[s.len() - 1] == c);
        } else {
            lemma_count_char_found(s.drop_last(), c);
            let i = choose|i: int| 0 <= i < s.drop_last().len() && s.drop_last()[i] == c;
            assert(s[i] == c);
        }
    }
}

} // verus!

verus! {

/// A parsed filter expression: the trimmed source text and its
/// conditions.
#[derive(Debug, Clone)]
pub struct FilterExpression {
    /// The raw expression text, trimmed.
    pub expression: String,
    /// The parsed conditions, in source order.
    pub conditions: Vec<FilterCondition>,
}

/// The mathematical form of a filter expression.
pub ghost struct ExprView {
    /// The trimmed source text.
    pub raw: Seq<char>,
    /// The conditions, in order.
    pub conds: Seq<CondView>,
}

impl View for FilterExpression {
    type V = ExprView;

    open spec fn view(&self) -> ExprView {
        ExprView {
            raw: self.expression@,
            conds: self.conditions@.map_values(|c: FilterCondition| c@),
        }
    }
}

/// Every condition of the expression is well formed.
pub open spec fn expr_wf(e: FilterExpression) -> bool {
    forall|i: int| 0 <= i < e.conditions@.len() ==> cond_wf(#[trigger] e.conditions@[i])
}

/// An entry passes an expression when every condition matches.
pub open spec fn expr_matches(ev: ExprView, e: EntryAttrs) -> bool {
    conds_match(ev.conds, e)
}

/// Is the view of `s` the same sequence as the view of `lit`?
fn str_is(s: &String, lit: &str) -> (r: bool)
    ensures
        r == (s@ == lit@),
{
    let a = string_to_chars(s.as_str());
    let b = string_to_chars(lit);
    chars_eq(a.as_slice(), b.as_slice())
}

/// Evaluate a string operator for name and path conditions.
fn eval_str_op_exec(op: &String, field: &[char], val: &[char]) -> (r: bool)
    ensures
        r == eval_str_op(op@, field@, val@),
{
    if str_is(op, "==") {
        chars_eq(field, val)
    } else if str_is(op, "!=") {
        let e = chars_eq(field, val);
        !e
    } else if str_is(op, "contains") || str_is(op, "in") {
        contains_sub(field, val)
    } else if str_is(op, "starts_with") {
        starts_with(field, val)
    } else if str_is(op, "ends_with") {
        ends_with(field, val)
    } else if str_is(op, "like") {
        like_matches_exec(field, val)
    } else {
        false
    }
}

/// Evaluate a string operator for extension conditions.
fn eval_ext_op_exec(op: &String, field: &[char], val: &[char]) -> (r: bool)
    ensures
        r == eval_ext_op(op@, field@, val@),
{
    if str_is(op, "==") {
        chars_eq(field, val)
    } else if str_is(op, "!=") {
        let e = chars_eq(field, val);
        !e
    } else if str_is(op, "contains") {
        contains_sub(field, val)
    } else if str_is(op, "like") {
        like_matches_exec(field, val)
    } else {
        false
    }
}

/// Evaluate a numeric comparison operator.
fn eval_cmp_exec(op: &String, lhs: u128, rhs: u128) -> (r: bool)
    ensures
        r == eval_cmp(op@, lhs as int, rhs as int),
{
    if str_is(op, "<") {
        lhs < rhs
    } else if str_is(op, ">") {
        lhs > rhs
    } else if str_is(op, "<=") {
        lhs <= rhs
    } else if str_is(op, ">=") {
        lhs >= rhs
    } else {
        false
    }
}

/// Ten to the `k`, for the small exponents of a day count.
fn pow10_u64(k: u32) -> (r: u64)
    requires
        k <= 9,
    ensures
        r == pow10(k as nat),
        1 <= r <= 1_000_000_000,
{
    proof {
        assert(pow10(0) == 1);
        assert(pow10(1) == 10);
        assert(pow10(2) == 100);
        assert(pow10(3) == 1000);
        assert(pow10(4) == 10000);
        assert(pow10(5) == 100000);
        assert(pow10(6) == 1000000);
        assert(pow10(7) == 10000000);
        assert(pow10(8) == 100000000);
        assert(pow10(9) == 1000000000);
    }
    if k == 0 {
        1
    } else if k == 1 {
        10
    } else if k == 2 {
        100
    } else if k == 3 {
        1_000
    } else if k == 4 {
        10_000
    } else if k == 5 {
        100_000
    } else if k == 6 {
        1_000_000
    } else if k == 7 {
        10_000_000
    } else if k == 8 {
        100_000_000
    } else {
        1_000_000_000
    }
}

/// Does one condition match the given entry attributes?
pub fn condition_matches(
    c: &FilterCondition,
    name: &[char],
    path: &[char],
    ftype: &[char],
    age_ms: u64,
    size: u64,
    ext: &[char],
) -> (r: bool)
    requires
        cond_wf(*c),
    ensures
        r == cond_matches(
            c@,
            (EntryAttrs {
                name: name@,
                path: path@,
                ftype: ftype@,
                age_ms: age_ms as int,
                size: size as int,
                ext: ext@,
            }),
        ),
{
    match c {
        FilterCondition::Name { operator, value } => {
            let v = string_to_chars(value.as_str());
            eval_str_op_exec(operator, name, v.as_slice())
        },
        FilterCondition::Path { operator, value } => {
            let v = string_to_chars(value.as_str());
            eval_str_op_exec(operator, path, v.as_slice())
        },
        FilterCondition::Type { operator, value } => {
            let v = string_to_chars(value.as_str());
            if str_is(operator, "==") {
                chars_eq(ftype, v.as_slice())
            } else {
                false
            }
        },
        FilterCondition::Modified { operator, value } => {
            let den = pow10_u64(value.pow10);
            proof {
                assert((age_ms as u128) * (den as u128) <= 0xFFFF_FFFF_FFFF_FFFFu128
                    * 1_000_000_000u128) by (nonlinear_arith)
                    requires
                        age_ms as u128 <= 0xFFFF_FFFF_FFFF_FFFFu128,
                        den as u128 <= 1_000_000_000u128,
                ;
                assert((value.num as u128) * (MS_PER_DAY as u128) <= 0xFFFF_FFFF_FFFF_FFFFu128
                    * 86_400_000u128) by (nonlinear_arith)
                    requires
                        value.num as u128 <= 0xFFFF_FFFF_FFFF_FFFFu128,
                        MS_PER_DAY as u128 <= 86_400_000u128,
                ;
            }
            let lhs: u128 = (age_ms as u128) * (den as u128);
            let rhs: u128 = (value.num as u128) * (MS_PER_DAY as u128);
            eval_cmp_exec(operator, lhs, rhs)
        },
        FilterCondition::Size { operator, value } => {
            eval_cmp_exec(operator, size as u128, *value as u128)
        },
        FilterCondition::Extension { operator, value } => {
            let v = string_to_chars(value.as_str());
            eval_ext_op_exec(operator, ext, v.as_slice())
        },
    }
}

/// Evaluate a filter expression against one entry's attributes.
///
/// The entry's age is given in whole milliseconds since its last
/// modification (zero when the modification time is unknown or lies in
/// the future).
pub fn evaluate_filter(
    expr: &FilterExpression,
    file_name: &str,
    file_path: &str,
    file_type: &str,
    modified_age_ms: u64,
    size: u64,
    extension: &str,
) -> (r: bool)
    requires
        expr_wf(*expr),
    ensures
        r == expr_matches(
            expr@,
            (EntryAttrs {
                name: file_name@,
                path: file_path@,
                ftype: file_type@,
                age_ms: modified_age_ms as int,
                size: size as int,
                ext: extension@,
            }),
        ),
{
    let ghost attrs = EntryAttrs {
        name: file_name@,
        path: file_path@,
        ftype: file_type@,
        age_ms: modified_age_ms as int,
        size: size as int,
        ext: extension@,
    };
    let name = string_to_chars(file_name);
    let path = string_to_chars(file_path);
    let ftype = string_to_chars(file_type);
    let ext = string_to_chars(extension);
    let n = expr.conditions.len();
    let mut i: usize = 0;
    while i < n
        invariant
            n == expr.conditions@.len(),
            i <= n,
            expr_wf(*expr),
            name@ == attrs.name,
            path@ == attrs.path,
            ftype@ == attrs.ftype,
            ext@ == attrs.ext,
            modified_age_ms as int == attrs.age_ms,
            size as int == attrs.size,
            attrs == (EntryAttrs {
                name: file_name@,
                path: file_path@,
                ftype: file_type@,
                age_ms: modified_age_ms as int,
                size: size as int,
                ext: extension@,
            }),
            forall|k: int| 0 <= k < i ==> cond_matches(#[trigger] expr@.conds[k], attrs),
        decreases n - i,
    {
        let ok = condition_matches(
            &expr.conditions[i],
            name.as_slice(),
            path.as_slice(),
            ftype.as_slice(),
            modified_age_ms,
            size,
            ext.as_slice(),
        );
        proof {
            assert(expr@.conds[i as int] == expr.conditions@[i as int]@);
        }
        if !ok {
            proof {
                assert(!cond_matches(expr@.conds[i as int], attrs));
            }
            return false;
        }
        i = i + 1;
    }
    true
}

} // verus!

verus! {

/// Why a condition failed to parse.
#[derive(Debug, Clone, Copy, PartialEq, Eq, Structural)]
pub enum FilterParseError {
    /// The text matches no condition form.
    UnrecognizedCondition,
    /// A `size` or `modified` value is not a valid number.
    InvalidNumber,
}

impl FilterParseError {
    /// A short description of the error.
    pub fn message(&self) -> (r: &'static str)
        ensures
            (*self is UnrecognizedCondition) ==> r@ == "unrecognized filter condition"@,
            (*self is InvalidNumber) ==> r@ == "invalid numeric value in filter condition"@,
    {
        match self {
            FilterParseError::UnrecognizedCondition => "unrecognized filter condition",
            FilterParseError::InvalidNumber => "invalid numeric value in filter condition",
        }
    }
}

/// The outcome of parsing one condition.
pub enum CondOutcome {
    /// A condition was recognized.
    Cond(CondView),
    /// A numeric value failed to parse.
    BadNumber,
    /// No condition form matched.
    Unrecognized,
}

/// The outcome of probing one comparison operator.
pub enum OpOutcome {
    /// The operator occurs and names a known field.
    Cond(CondView),
    /// The operator occurs on a numeric field whose value is bad.
    BadNumber,
    /// Probe the next operator.
    NextOp,
}

/// Length of the leading whitespace-free token of `s`.
pub open spec fn spec_token_len(s: Seq<char>) -> int
    decreases s.len(),
{
    if s.len() == 0 || text::is_space(s[0]) {
        0
    } else {
        1 + spec_token_len(s.drop_first())
    }
}

/// The text between the first pair of `q` quotes of `rest`, if both
/// quotes are present.
pub open spec fn spec_quoted_between(rest: Seq<char>, q: char) -> Option<Seq<char>> {
    match spec_find(rest, seq![q]) {
        Some(i) => match spec_find(rest.skip(i + 1), seq![q]) {
            Some(j) => Some(rest.skip(i + 1).take(j)),
            None => None,
        },
        None => None,
    }
}

/// A condition's value: the text between double quotes, else between
/// single quotes, else the first whitespace-delimited token.
pub open spec fn spec_extract_quoted(s: Seq<char>) -> Seq<char> {
    let rest = spec_trim_front(s);
    match spec_quoted_between(rest, '"') {
        Some(v) => v,
        None => match spec_quoted_between(rest, '\'') {
            Some(v) => v,
            None => rest.take(spec_token_len(rest)),
        },
    }
}

/// A day count read from a decimal literal: the digits with the point
/// removed, and the number of fractional digits kept (at most nine).
/// `None` when the text is not a plain decimal or the digits overflow
/// a `u64`.
pub open spec fn spec_parse_day(s: Seq<char>) -> Option<(nat, nat)> {
    let t = if s.len() > 0 && s[0] == '+' {
        s.drop_first()
    } else {
        s
    };
    match spec_find(t, seq!['.']) {
        None => if t.len() > 0 && all_dec_digits(t) && digits_to_nat(t) <= u64::MAX {
            Some((digits_to_nat(t), 0))
        } else {
            None
        },
        Some(i) => {
            let d1 = t.take(i);
            let d2 = t.skip(i + 1);
            if d1.len() + d2.len() > 0 && all_dec_digits(d1) && all_dec_digits(d2) {
                let k = if d2.len() <= 9 {
                    d2.len()
                } else {
                    9
                };
                let num = digits_to_nat(d1) * pow10(k as nat) + digits_to_nat(d2.take(k as int));
                if num <= u64::MAX {
                    Some((num, k as nat))
                } else {
                    None
                }
            } else {
                None
            }
        },
    }
}

/// The comparison operators, probed in this order.
pub open spec fn cmp_ops() -> Seq<Seq<char>> {
    seq!["=="@, "!="@, "<="@, ">="@, "<"@, ">"@]
}

/// What a comparison operator found at index `i` of `s` yields.
pub open spec fn spec_dispatch_cmp(s: Seq<char>, i: int, op: Seq<char>) -> OpOutcome {
    let field = spec_trim(s.take(i));
    let vs = spec_trim(s.skip(i + op.len()));
    if field == "name"@ {
        OpOutcome::Cond(CondView::Name { op, val: spec_extract_quoted(vs) })
    } else if field == "path"@ {
        OpOutcome::Cond(CondView::Path { op, val: spec_extract_quoted(vs) })
    } else if field == "type"@ {
        OpOutcome::Cond(CondView::Type { op, val: spec_extract_quoted(vs) })
    } else if field == "modified"@ {
        match spec_parse_day(vs) {
            Some((num, pow)) => OpOutcome::Cond(CondView::Modified { op, num, pow }),
            None => OpOutcome::BadNumber,
        }
    } else if field == "size"@ {
        match spec_parse_u64(vs) {
            Some(v) => OpOutcome::Cond(CondView::Size { op, val: v as nat }),
            None => OpOutcome::BadNumber,
        }
    } else if field == "extension"@ {
        OpOutcome::Cond(CondView::Extension { op, val: spec_extract_quoted(vs) })
    } else {
        OpOutcome::NextOp
    }
}

/// `ends with` conditions, the last form probed.
pub open spec fn spec_parse_endswith(s: Seq<char>) -> CondOutcome {
    match spec_find(s, " ends with "@) {
        Some(i) => {
            let field = spec_trim(s.take(i));
            let v = spec_extract_quoted(s.skip(i + 10));
            if field == "name"@ {
                CondOutcome::Cond(CondView::Name { op: "ends_with"@, val: v })
            } else if field == "path"@ {
                CondOutcome::Cond(CondView::Path { op: "ends_with"@, val: v })
            } else {
                CondOutcome::Unrecognized
            }
        },
        None => CondOutcome::Unrecognized,
    }
}

/// `starts with` conditions.
pub open spec fn spec_parse_startswith(s: Seq<char>) -> CondOutcome {
    match spec_find(s, " starts with "@) {
        Some(i) => {
            let field = spec_trim(s.take(i));
            let v = spec_extract_quoted(s.skip(i + 12));
            if field == "name"@ {
                CondOutcome::Cond(CondView::Name { op: "starts_with"@, val: v })
            } else if field == "path"@ {
                CondOutcome::Cond(CondView::Path { op: "starts_with"@, val: v })
            } else {
                spec_parse_endswith(s)
            }
        },
        None => spec_parse_endswith(s),
    }
}

/// `contains` conditions.
pub open spec fn spec_parse_contains(s: Seq<char>) -> CondOutcome {
    match spec_find(s, " contains "@) {
        Some(i) => {
            let field = spec_trim(s.take(i));
            let v = spec_extract_quoted(s.skip(i + 9));
            if field == "name"@ {
                CondOutcome::Cond(CondView::Name { op: "contains"@, val: v })
            } else if field == "path"@ {
                CondOutcome::Cond(CondView::Path { op: "contains"@, val: v })
            } else if field == "extension"@ {
                CondOutcome::Cond(CondView::Extension { op: "contains"@, val: v })
            } else {
                spec_parse_startswith(s)
            }
        },
        None => spec_parse_startswith(s),
    }
}

/// Probe the comparison operators of `ops` in order; an operator found
/// with an unknown field falls through to the next operator, and when
/// the operators are exhausted the keyword forms are probed.
pub open spec fn spec_parse_ops(s: Seq<char>, ops: Seq<Seq<char>>) -> CondOutcome
    decreases ops.len(),
{
    if ops.len() == 0 {
        spec_parse_contains(s)
    } else {
        match spec_find(s, ops[0]) {
            Some(i) => match spec_dispatch_cmp(s, i, ops[0]) {
                OpOutcome::Cond(c) => CondOutcome::Cond(c),
                OpOutcome::BadNumber => CondOutcome::BadNumber,
                OpOutcome::NextOp => spec_parse_ops(s, ops.drop_first()),
            },
            None => spec_parse_ops(s, ops.drop_first()),
        }
    }
}

/// `like` conditions, probed before the comparison operators.
pub open spec fn spec_parse_like(s: Seq<char>) -> CondOutcome {
    match spec_find(s, " like "@) {
        Some(i) => {
            let field = spec_trim(s.take(i));
            let v = spec_extract_quoted(s.skip(i + 6));
            if field == "name"@ {
                CondOutcome::Cond(CondView::Name { op: "like"@, val: v })
            } else if field == "path"@ {
                CondOutcome::Cond(CondView::Path { op: "like"@, val: v })
            } else if field == "extension"@ {
                CondOutcome::Cond(CondView::Extension { op: "like"@, val: v })
            } else {
                spec_parse_ops(s, cmp_ops())
            }
        },
        None => spec_parse_ops(s, cmp_ops()),
    }
}

/// Parse one condition: the `<value> in name` / `<value> in path`
/// forms are probed first, then `like`, then the comparison operators,
/// then the keyword forms.
pub open spec fn spec_parse_cond(raw: Seq<char>) -> CondOutcome {
    let s = spec_trim(raw);
    match spec_find(s, " in name"@) {
        Some(i) => CondOutcome::Cond(
            CondView::Name { op: "contains"@, val: spec_extract_quoted(s.take(i)) },
        ),
        None => match spec_find(s, " in path"@) {
            Some(i) => CondOutcome::Cond(
                CondView::Path { op: "contains"@, val: spec_extract_quoted(s.take(i)) },
            ),
            None => spec_parse_like(s),
        },
    }
}

/// The outcome of parsing a whole expression.
pub enum ExprOutcome {
    /// All parts parsed; the conditions in order.
    Conds(Seq<CondView>),
    /// Some part has a bad numeric value.
    BadNumber,
    /// Some part matches no condition form.
    Unrecognized,
}

/// Parse the parts of an expression in order; parts that are blank
/// after trimming are skipped, and the first failing part decides the
/// error.
pub open spec fn spec_parse_parts(parts: Seq<Seq<char>>) -> ExprOutcome
    decreases parts.len(),
{
    if parts.len() == 0 {
        ExprOutcome::Conds(Seq::empty())
    } else if spec_trim(parts[0]).len() == 0 {
        spec_parse_parts(parts.drop_first())
    } else {
        match spec_parse_cond(parts[0]) {
            CondOutcome::Cond(c) => match spec_parse_parts(parts.drop_first()) {
                ExprOutcome::Conds(cs) => ExprOutcome::Conds(seq![c] + cs),
                e => e,
            },
            CondOutcome::BadNumber => ExprOutcome::BadNumber,
            CondOutcome::Unrecognized => ExprOutcome::Unrecognized,
        }
    }
}

/// Parse a filter expression: trim it, split it on ` and `, and parse
/// each part as one condition.
pub open spec fn spec_parse_expr(raw: Seq<char>) -> ExprOutcome {
    spec_parse_parts(text::spec_split(spec_trim(raw), " and "@))
}

} // verus!

verus! {

/// Index of the first occurrence of the single character `c`.
fn find_one(s: &[char], c: char) -> (r: Option<usize>)
    ensures
        match r {
            Some(i) => spec_find(s@, seq![c]) == Some(i as int),
            None => spec_find(s@, seq![c]) is None,
        },
{
    let mut p: Vec<char> = Vec::new();
    p.push(c);
    proof {
        assert(p@ =~= seq![c]);
    }
    find_sub(s, p.as_slice())
}

/// The token of `s` ends at its first whitespace character.
proof fn lemma_token_len_at(s: Seq<char>, t: int)
    requires
        0 <= t <= s.len(),
        forall|k: int| 0 <= k < t ==> !text::is_space(s[k]),
        t < s.len() ==> text::is_space(s[t]),
    ensures
        spec_token_len(s) == t,
    decreases t,
{
    if t > 0 {
        lemma_token_len_at(s.drop_first(), t - 1);
    }
}

/// The text between the first pair of `q` quotes, when both are there.
fn try_quoted(rest: &[char], q: char) -> (r: Option<Vec<char>>)
    ensures
        match r {
            Some(v) => spec_quoted_between(rest@, q) == Some(v@),
            None => spec_quoted_between(rest@, q) is None,
        },
{
    match find_one(rest, q) {
        Some(i) => {
            proof {
                lemma_spec_find(rest@, seq![q]);
            }
            let rl = rest.len();
            let after = slice_range(rest, i + 1, rl);
            proof {
                assert(after@ =~= rest@.skip(i + 1));
            }
            match find_one(after.as_slice(), q) {
                Some(j) => {
                    proof {
                        lemma_spec_find(after@, seq![q]);
                    }
                    let v = slice_range(after.as_slice(), 0, j);
                    proof {
                        assert(v@ =~= after@.take(j as int));
                    }
                    Some(v)
                },
                None => None,
            }
        },
        None => None,
    }
}

/// A condition's value: the text between double quotes, else between
/// single quotes, else the first whitespace-delimited token.
pub fn extract_quoted_value(expr: &[char]) -> (r: Vec<char>)
    ensures
        r@ == spec_extract_quoted(expr@),
{
    let rest = text::trim_front(expr);
    match try_quoted(rest.as_slice(), '"') {
        Some(v) => v,
        None => {
            match try_quoted(rest.as_slice(), '\'') {
                Some(v) => v,
                None => {
                    let n = rest.len();
                    let mut t: usize = 0;
                    while t < n && !(rest[t] == ' ' || rest[t] == '\t' || rest[t] == '\n'
                        || rest[t] == '\r')
                        invariant
                            n == rest@.len(),
                            t <= n,
                            forall|k: int| 0 <= k < t ==> !text::is_space(rest@[k]),
                        decreases n - t,
                    {
                        t = t + 1;
                    }
                    proof {
                        lemma_token_len_at(rest@, t as int);
                    }
                    slice_range(rest.as_slice(), 0, t)
                },
            }
        },
    }
}

/// Is every character of `v` a decimal digit?
fn chars_all_digits(v: &[char]) -> (r: bool)
    ensures
        r == all_dec_digits(v@),
{
    let n = v.len();
    let mut i: usize = 0;
    while i < n
        invariant
            n == v@.len(),
            i <= n,
            forall|k: int| 0 <= k < i ==> is_dec_digit(v@[k]),
        decreases n - i,
    {
        let c = v[i];
        if !('0' <= c && c <= '9') {
            return false;
        }
        i = i + 1;
    }
    true
}

/// Read a day count from a decimal literal such as `7` or `0.5`.
pub fn parse_day_chars(s: &[char]) -> (r: Option<DayValue>)
    ensures
        match r {
            Some(d) => spec_parse_day(s@) == Some((d.num as nat, d.pow10 as nat)) && day_value_wf(
                d,
            ),
            None => spec_parse_day(s@) is None,
        },
{
    let n = s.len();
    let start: usize = if n > 0 && s[0] == '+' {
        1
    } else {
        0
    };
    let tv = slice_range(s, start, n);
    let ghost t = if s@.len() > 0 && s@[0] == '+' {
        s@.drop_first()
    } else {
        s@
    };
    proof {
        assert(s@.drop_first() =~= s@.skip(1));
        assert(s@.skip(0) =~= s@);
        assert(tv@ =~= t);
    }
    let m = tv.len();
    match find_one(tv.as_slice(), '.') {
        None => {
            if m == 0 {
                return None;
            }
            // all characters must be digits, and the first is then not '+'
            if !chars_all_digits(tv.as_slice()) {
                return None;
            }
            proof {
                assert(tv@[0] != '+');
            }
            match parse_u64_chars(tv.as_slice()) {
                Some(v) => Some(DayValue { num: v, pow10: 0 }),
                None => None,
            }
        },
        Some(dot) => {
            proof {
                lemma_spec_find(tv@, seq!['.']);
            }
            let d1 = slice_range(tv.as_slice(), 0, dot);
            let d2 = slice_range(tv.as_slice(), dot + 1, m);
            proof {
                assert(d1@ =~= t.take(dot as int));
                assert(d2@ =~= t.skip(dot + 1));
            }
            let l1 = d1.len();
            let l2 = d2.len();
            if l1 == 0 && l2 == 0 {
                return None;
            }
            if !chars_all_digits(d1.as_slice()) {
                return None;
            }
            if !chars_all_digits(d2.as_slice()) {
                return None;
            }
            let k: usize = if l2 <= 9 {
                l2
            } else {
                9
            };
            let kept = slice_range(d2.as_slice(), 0, k);
            proof {
                assert(kept@ =~= d2@.take(k as int));
            }
            let ghost num_spec = digits_to_nat(d1@) * pow10(k as nat) + digits_to_nat(kept@);
            proof {
                text::lemma_pow10_increases(0, k as nat);
            }
            let v1: u64;
            if l1 == 0 {
                v1 = 0;
                proof {
                    assert(digits_to_nat(d1@) == 0);
                }
            } else {
                proof {
                    assert(d1@[0] != '+');
                }
                match parse_u64_chars(d1.as_slice()) {
                    Some(v) => {
                        v1 = v;
                    },
                    None => {
                        proof {
                            assert(digits_to_nat(d1@) > u64::MAX);
                            assert(digits_to_nat(d1@) * pow10(k as nat) >= digits_to_nat(d1@)
                                * 1) by (nonlinear_arith)
                                requires
                                    pow10(k as nat) >= 1,
                                    digits_to_nat(d1@) >= 0,
                            ;
                            assert(num_spec > u64::MAX);
                        }
                        return None;
                    },
                }
            }
            let v2: u64;
            if k == 0 {
                v2 = 0;
                proof {
                    assert(kept@ =~= Seq::<char>::empty());
                    assert(digits_to_nat(kept@) == 0);
                }
            } else {
                proof {
                    assert(all_dec_digits(kept@));
                    assert(kept@[0] != '+');
                    text::lemma_digits_bound(kept@);
                    text::lemma_pow10_increases(kept@.len() as nat, 9);
                    text::lemma_pow10_vals();
                }
                match parse_u64_chars(kept.as_slice()) {
                    Some(v) => {
                        v2 = v;
                    },
                    None => {
                        proof {
                            assert(false);
                        }
                        return None;
                    },
                }
            }
            let p = pow10_u64(k as u32);
            proof {
                assert((v1 as u128) * (p as u128) <= 0xFFFF_FFFF_FFFF_FFFFu128
                    * 1_000_000_000u128) by (nonlinear_arith)
                    requires
                        v1 as u128 <= 0xFFFF_FFFF_FFFF_FFFFu128,
                        p as u128 <= 1_000_000_000u128,
                ;
            }
            let num128: u128 = (v1 as u128) * (p as u128) + (v2 as u128);
            proof {
                assert(num128 == num_spec);
            }
            if num128 <= u64::MAX as u128 {
                Some(DayValue { num: num128 as u64, pow10: k as u32 })
            } else {
                None
            }
        },
    }
}

} // verus!

verus! {

/// The outcome of probing one comparison operator, executable form.
enum CmpDispatch {
    Done(FilterCondition),
    Bad,
    Next,
}

/// Handle a comparison operator found at index `i` of `s`.
fn dispatch_cmp(s: &[char], i: usize, op: &[char]) -> (r: CmpDispatch)
    requires
        i + op@.len() <= s@.len(),
    ensures
        match r {
            CmpDispatch::Done(c) => spec_dispatch_cmp(s@, i as int, op@) == OpOutcome::Cond(c@)
                && cond_wf(c),
            CmpDispatch::Bad => spec_dispatch_cmp(s@, i as int, op@) is BadNumber,
            CmpDispatch::Next => spec_dispatch_cmp(s@, i as int, op@) is NextOp,
        },
{
    let sl = s.len();
    let field_raw = slice_range(s, 0, i);
    let field = trim(field_raw.as_slice());
    let vs_raw = slice_range(s, i + op.len(), sl);
    let vs = trim(vs_raw.as_slice());
    proof {
        assert(field_raw@ =~= s@.take(i as int));
        assert(vs_raw@ =~= s@.skip(i + op@.len()));
    }
    let operator = chars_to_string(slice_range(op, 0, op.len()));
    proof {
        assert(operator@ =~= op@);
    }
    let name_lit = string_to_chars("name");
    let path_lit = string_to_chars("path");
    let type_lit = string_to_chars("type");
    let modified_lit = string_to_chars("modified");
    let size_lit = string_to_chars("size");
    let ext_lit = string_to_chars("extension");
    if chars_eq(field.as_slice(), name_lit.as_slice()) {
        let val = extract_quoted_value(vs.as_slice());
        CmpDispatch::Done(FilterCondition::Name { operator, value: chars_to_string(val) })
    } else if chars_eq(field.as_slice(), path_lit.as_slice()) {
        let val = extract_quoted_value(vs.as_slice());
        CmpDispatch::Done(FilterCondition::Path { operator, value: chars_to_string(val) })
    } else if chars_eq(field.as_slice(), type_lit.as_slice()) {
        let val = extract_quoted_value(vs.as_slice());
        CmpDispatch::Done(FilterCondition::Type { operator, value: chars_to_string(val) })
    } else if chars_eq(field.as_slice(), modified_lit.as_slice()) {
        match parse_day_chars(vs.as_slice()) {
            Some(d) => CmpDispatch::Done(FilterCondition::Modified { operator, value: d }),
            None => CmpDispatch::Bad,
        }
    } else if chars_eq(field.as_slice(), size_lit.as_slice()) {
        match parse_u64_chars(vs.as_slice()) {
            Some(v) => CmpDispatch::Done(FilterCondition::Size { operator, value: v }),
            None => CmpDispatch::Bad,
        }
    } else if chars_eq(field.as_slice(), ext_lit.as_slice()) {
        let val = extract_quoted_value(vs.as_slice());
        CmpDispatch::Done(FilterCondition::Extension { operator, value: chars_to_string(val) })
    } else {
        CmpDispatch::Next
    }
}

/// Probe the comparison operators in order, then the keyword forms.
fn parse_ops_and_keywords(s: &[char]) -> (r: Result<FilterCondition, FilterParseError>)
    ensures
        match r {
            Ok(c) => spec_parse_ops(s@, cmp_ops()) == CondOutcome::Cond(c@) && cond_wf(c),
            Err(FilterParseError::InvalidNumber) => spec_parse_ops(s@, cmp_ops()) is BadNumber,
            Err(FilterParseError::UnrecognizedCondition) => spec_parse_ops(
                s@,
                cmp_ops(),
            ) is Unrecognized,
        },
{
    let sl = s.len();
    let mut ops: Vec<Vec<char>> = Vec::new();
    ops.push(string_to_chars("=="));
    ops.push(string_to_chars("!="));
    ops.push(string_to_chars("<="));
    ops.push(string_to_chars(">="));
    ops.push(string_to_chars("<"));
    ops.push(string_to_chars(">"));
    proof {
        assert(cmp_ops().len() == 6);
        assert(ops@[0]@ == cmp_ops()[0]);
        assert(ops@[1]@ == cmp_ops()[1]);
        assert(ops@[2]@ == cmp_ops()[2]);
        assert(ops@[3]@ == cmp_ops()[3]);
        assert(ops@[4]@ == cmp_ops()[4]);
        assert(ops@[5]@ == cmp_ops()[5]);
        assert(cmp_ops().skip(0) =~= cmp_ops());
    }
    let mut j: usize = 0;
    while j < 6
        invariant
            ops@.len() == 6,
            j <= 6,
            forall|k: int| 0 <= k < 6 ==> #[trigger] ops@[k]@ == cmp_ops()[k],
            spec_parse_ops(s@, cmp_ops().skip(j as int)) == spec_parse_ops(s@, cmp_ops()),
            sl == s@.len(),
        decreases 6 - j,
    {
        let ghost rest_ops = cmp_ops().skip(j as int);
        proof {
            assert(rest_ops.len() == 6 - j);
            assert(rest_ops[0] == cmp_ops()[j as int]);
            assert(rest_ops.drop_first() =~= cmp_ops().skip(j + 1));
        }
        match find_sub(s, ops[j].as_slice()) {
            Some(i) => {
                proof {
                    lemma_spec_find(s@, ops@[j as int]@);
                }
                match dispatch_cmp(s, i, ops[j].as_slice()) {
                    CmpDispatch::Done(c) => {
                        return Ok(c);
                    },
                    CmpDispatch::Bad => {
                        return Err(FilterParseError::InvalidNumber);
                    },
                    CmpDispatch::Next => {},
                }
            },
            None => {},
        }
        j = j + 1;
    }
    proof {
        assert(cmp_ops().skip(6) =~= Seq::<Seq<char>>::empty());
        assert(spec_parse_ops(s@, cmp_ops()) == spec_parse_contains(s@));
    }
    // keyword forms: contains, starts with, ends with
    let name_lit = string_to_chars("name");
    let path_lit = string_to_chars("path");
    let ext_lit = string_to_chars("extension");
    let contains_lit = string_to_chars(" contains ");
    proof {
        reveal_strlit(" contains ");
        assert(" contains "@.len() == 10);
    }
    match find_sub(s, contains_lit.as_slice()) {
        Some(i) => {
            proof {
                lemma_spec_find(s@, " contains "@);
            }
            let field = trim(slice_range(s, 0, i).as_slice());
            proof {
                assert(s@.subrange(0, i as int) =~= s@.take(i as int));
            }
            let val_raw = slice_range(s, i + 9, sl);
            proof {
                assert(val_raw@ =~= s@.skip(i + 9));
            }
            if chars_eq(field.as_slice(), name_lit.as_slice()) {
                let val = extract_quoted_value(val_raw.as_slice());
                return Ok(FilterCondition::Name {
                    operator: chars_to_string(string_to_chars("contains")),
                    value: chars_to_string(val),
                });
            }
            if chars_eq(field.as_slice(), path_lit.as_slice()) {
                let val = extract_quoted_value(val_raw.as_slice());
                return Ok(FilterCondition::Path {
                    operator: chars_to_string(string_to_chars("contains")),
                    value: chars_to_string(val),
                });
            }
            if chars_eq(field.as_slice(), ext_lit.as_slice()) {
                let val = extract_quoted_value(val_raw.as_slice());
                return Ok(FilterCondition::Extension {
                    operator: chars_to_string(string_to_chars("contains")),
                    value: chars_to_string(val),
                });
            }
        },
        None => {},
    }
    let starts_lit = string_to_chars(" starts with ");
    proof {
        reveal_strlit(" starts with ");
        assert(" starts with "@.len() == 13);
    }
    match find_sub(s, starts_lit.as_slice()) {
        Some(i) => {
            proof {
                lemma_spec_find(s@, " starts with "@);
            }
            let field = trim(slice_range(s, 0, i).as_slice());
            proof {
                assert(s@.subrange(0, i as int) =~= s@.take(i as int));
            }
            let val_raw = slice_range(s, i + 12, sl);
            proof {
                assert(val_raw@ =~= s@.skip(i + 12));
            }
            if chars_eq(field.as_slice(), name_lit.as_slice()) {
                let val = extract_quoted_value(val_raw.as_slice());
                return Ok(FilterCondition::Name {
                    operator: chars_to_string(string_to_chars("starts_with")),
                    value: chars_to_string(val),
                });
            }
            if chars_eq(field.as_slice(), path_lit.as_slice()) {
                let val = extract_quoted_value(val_raw.as_slice());
                return Ok(FilterCondition::Path {
                    operator: chars_to_string(string_to_chars("starts_with")),
                    value: chars_to_string(val),
                });
            }
        },
        None => {},
    }
    let ends_lit = string_to_chars(" ends with ");
    proof {
        reveal_strlit(" ends with ");
        assert(" ends with "@.len() == 11);
    }
    match find_sub(s, ends_lit.as_slice()) {
        Some(i) => {
            proof {
                lemma_spec_find(s@, " ends with "@);
            }
            let field = trim(slice_range(s, 0, i).as_slice());
            proof {
                assert(s@.subrange(0, i as int) =~= s@.take(i as int));
            }
            let val_raw = slice_range(s, i + 10, sl);
            proof {
                assert(val_raw@ =~= s@.skip(i + 10));
            }
            if chars_eq(field.as_slice(), name_lit.as_slice()) {
                let val = extract_quoted_value(val_raw.as_slice());
                return Ok(FilterCondition::Name {
                    operator: chars_to_string(string_to_chars("ends_with")),
                    value: chars_to_string(val),
                });
            }
            if chars_eq(field.as_slice(), path_lit.as_slice()) {
                let val = extract_quoted_value(val_raw.as_slice());
                return Ok(FilterCondition::Path {
                    operator: chars_to_string(string_to_chars("ends_with")),
                    value: chars_to_string(val),
                });
            }
        },
        None => {},
    }
    Err(FilterParseError::UnrecognizedCondition)
}

} // verus!

verus! {

/// Parse one condition of a filter expression.
pub fn parse_single_condition(part: &[char]) -> (r: Result<FilterCondition, FilterParseError>)
    ensures
        match r {
            Ok(c) => spec_parse_cond(part@) == CondOutcome::Cond(c@) && cond_wf(c),
            Err(FilterParseError::InvalidNumber) => spec_parse_cond(part@) is BadNumber,
            Err(FilterParseError::UnrecognizedCondition) => spec_parse_cond(
                part@,
            ) is Unrecognized,
        },
{
    let sv = trim(part);
    let s = sv.as_slice();
    let sl = s.len();
    let in_name_lit = string_to_chars(" in name");
    match find_sub(s, in_name_lit.as_slice()) {
        Some(i) => {
            proof {
                lemma_spec_find(s@, " in name"@);
            }
            let val_raw = slice_range(s, 0, i);
            proof {
                assert(val_raw@ =~= s@.take(i as int));
            }
            let val = extract_quoted_value(val_raw.as_slice());
            return Ok(FilterCondition::Name {
                operator: chars_to_string(string_to_chars("contains")),
                value: chars_to_string(val),
            });
        },
        None => {},
    }
    let in_path_lit = string_to_chars(" in path");
    match find_sub(s, in_path_lit.as_slice()) {
        Some(i) => {
            proof {
                lemma_spec_find(s@, " in path"@);
            }
            let val_raw = slice_range(s, 0, i);
            proof {
                assert(val_raw@ =~= s@.take(i as int));
            }
            let val = extract_quoted_value(val_raw.as_slice());
            return Ok(FilterCondition::Path {
                operator: chars_to_string(string_to_chars("contains")),
                value: chars_to_string(val),
            });
        },
        None => {},
    }
    let like_lit = string_to_chars(" like ");
    proof {
        reveal_strlit(" like ");
        assert(" like "@.len() == 6);
    }
    match find_sub(s, like_lit.as_slice()) {
        Some(i) => {
            proof {
                lemma_spec_find(s@, " like "@);
            }
            let field = trim(slice_range(s, 0, i).as_slice());
            proof {
                assert(s@.subrange(0, i as int) =~= s@.take(i as int));
            }
            let val_raw = slice_range(s, i + 6, sl);
            proof {
                assert(val_raw@ =~= s@.skip(i + 6));
            }
            let name_lit = string_to_chars("name");
            let path_lit = string_to_chars("path");
            let ext_lit = string_to_chars("extension");
            if chars_eq(field.as_slice(), name_lit.as_slice()) {
                let val = extract_quoted_value(val_raw.as_slice());
                return Ok(FilterCondition::Name {
                    operator: chars_to_string(string_to_chars("like")),
                    value: chars_to_string(val),
                });
            }
            if chars_eq(field.as_slice(), path_lit.as_slice()) {
                let val = extract_quoted_value(val_raw.as_slice());
                return Ok(FilterCondition::Path {
                    operator: chars_to_string(string_to_chars("like")),
                    value: chars_to_string(val),
                });
            }
            if chars_eq(field.as_slice(), ext_lit.as_slice()) {
                let val = extract_quoted_value(val_raw.as_slice());
                return Ok(FilterCondition::Extension {
                    operator: chars_to_string(string_to_chars("like")),
                    value: chars_to_string(val),
                });
            }
            parse_ops_and_keywords(s)
        },
        None => parse_ops_and_keywords(s),
    }
}

/// How a list of conditions already parsed combines with the outcome
/// of the remaining parts.
pub open spec fn combine_parts(acc: Seq<CondView>, rest: ExprOutcome) -> ExprOutcome {
    match rest {
        ExprOutcome::Conds(cs) => ExprOutcome::Conds(acc + cs),
        e => e,
    }
}

/// Parse a filter expression string into its conditions.
///
/// The expression is trimmed and split on ` and `; each part becomes
/// one condition, parts that are blank after trimming are skipped, and
/// the first part that parses to no condition decides the error.
pub fn parse_filter_expression(expr: &str) -> (r: Result<FilterExpression, FilterParseError>)
    ensures
        match r {
            Ok(fe) => spec_parse_expr(expr@) == ExprOutcome::Conds(fe@.conds) && fe@.raw
                == spec_trim(expr@) && expr_wf(fe),
            Err(FilterParseError::InvalidNumber) => spec_parse_expr(expr@) is BadNumber,
            Err(FilterParseError::UnrecognizedCondition) => spec_parse_expr(
                expr@,
            ) is Unrecognized,
        },
{
    let chars = string_to_chars(expr);
    let trimmed = trim(chars.as_slice());
    let sep = string_to_chars(" and ");
    proof {
        reveal_strlit(" and ");
        assert(" and "@.len() == 5);
    }
    let parts = split_on(trimmed.as_slice(), sep.as_slice());
    let ghost pviews = text::spec_split(spec_trim(expr@), " and "@);
    proof {
        assert(pviews.len() == parts@.len());
        assert(forall|k: int| 0 <= k < parts@.len() ==> #[trigger] parts@[k]@ == pviews[k]);
        assert(pviews.skip(0) =~= pviews);
        assert(combine_parts(Seq::empty(), spec_parse_parts(pviews)) == spec_parse_parts(pviews))
            by {
            match spec_parse_parts(pviews) {
                ExprOutcome::Conds(cs) => {
                    assert(Seq::<CondView>::empty() + cs =~= cs);
                },
                _ => {},
            }
        }
    }
    let mut conds: Vec<FilterCondition> = Vec::new();
    let n = parts.len();
    let mut i: usize = 0;
    while i < n
        invariant
            n == parts@.len(),
            i <= n,
            pviews == text::spec_split(spec_trim(expr@), " and "@),
            n == pviews.len(),
            forall|k: int| 0 <= k < n ==> #[trigger] parts@[k]@ == pviews[k],
            forall|k: int| 0 <= k < conds@.len() ==> cond_wf(#[trigger] conds@[k]),
            spec_parse_parts(pviews) == combine_parts(
                conds@.map_values(|c: FilterCondition| c@),
                spec_parse_parts(pviews.skip(i as int)),
            ),
        decreases n - i,
    {
        let ghost acc = conds@.map_values(|c: FilterCondition| c@);
        let ghost rest = pviews.skip(i as int);
        proof {
            assert(rest.len() == n - i);
            assert(rest[0] == pviews[i as int]);
            assert(rest.drop_first() =~= pviews.skip(i + 1));
        }
        let part = &parts[i];
        let tp = trim(part.as_slice());
        if tp.len() == 0 {
            proof {
                assert(spec_trim(pviews[i as int]).len() == 0);
                assert(spec_parse_parts(rest) == spec_parse_parts(pviews.skip(i + 1)));
            }
            i = i + 1;
            continue;
        }
        proof {
            assert(spec_trim(pviews[i as int]).len() != 0);
        }
        match parse_single_condition(part.as_slice()) {
            Ok(c) => {
                let ghost cv = c@;
                proof {
                    assert(spec_parse_cond(pviews[i as int]) == CondOutcome::Cond(cv));
                    assert(spec_parse_parts(rest) == match spec_parse_parts(pviews.skip(i + 1)) {
                        ExprOutcome::Conds(cs) => ExprOutcome::Conds(seq![cv] + cs),
                        e => e,
                    });
                }
                conds.push(c);
                proof {
                    assert(conds@.map_values(|c: FilterCondition| c@) =~= acc + seq![cv]);
                    match spec_parse_parts(pviews.skip(i + 1)) {
                        ExprOutcome::Conds(cs) => {
                            assert(acc + (seq![cv] + cs) =~= (acc + seq![cv]) + cs);
                        },
                        _ => {},
                    }
                }
                i = i + 1;
            },
            Err(e) => {
                proof {
                    match spec_parse_cond(pviews[i as int]) {
                        CondOutcome::Cond(_) => {
                            assert(false);
                        },
                        CondOutcome::BadNumber => {
                            assert(spec_parse_parts(rest) == ExprOutcome::BadNumber);
                            assert(spec_parse_parts(pviews) == ExprOutcome::BadNumber);
                        },
                        CondOutcome::Unrecognized => {
                            assert(spec_parse_parts(rest) == ExprOutcome::Unrecognized);
                            assert(spec_parse_parts(pviews) == ExprOutcome::Unrecognized);
                        },
                    }
                }
                return Err(e);
            },
        }
    }
    proof {
        assert(pviews.skip(n as int) =~= Seq::<Seq<char>>::empty());
        assert(spec_parse_parts(Seq::empty()) == ExprOutcome::Conds(Seq::empty()));
        let acc = conds@.map_values(|c: FilterCondition| c@);
        assert(acc + Seq::<CondView>::empty() =~= acc);
    }
    Ok(FilterExpression { expression: chars_to_string(trimmed), conditions: conds })
}

/// Parse a list of filter expression strings; the first failing
/// expression decides the error.
pub fn parse_expressions(expressions: &[String]) -> (r: Result<
    Vec<FilterExpression>,
    FilterParseError,
>)
    ensures
        match r {
            Ok(v) => v@.len() == expressions@.len() && forall|i: int|
                0 <= i < v@.len() ==> spec_parse_expr(#[trigger] expressions@[i]@)
                    == ExprOutcome::Conds(v@[i]@.conds) && v@[i]@.raw == spec_trim(
                    expressions@[i]@,
                ) && expr_wf(v@[i]),
            Err(e) => exists|i: int|
                0 <= i < expressions@.len() && !(spec_parse_expr(
                    #[trigger] expressions@[i]@,
                ) is Conds) && (e is InvalidNumber ==> spec_parse_expr(
                    expressions@[i]@,
                ) is BadNumber) && (e is UnrecognizedCondition ==> spec_parse_expr(
                    expressions@[i]@,
                ) is Unrecognized),
        },
{
    let n = expressions.len();
    let mut out: Vec<FilterExpression> = Vec::new();
    let mut i: usize = 0;
    while i < n
        invariant
            n == expressions@.len(),
            i <= n,
            out@.len() == i,
            forall|k: int|
                0 <= k < i ==> spec_parse_expr(#[trigger] expressions@[k]@)
                    == ExprOutcome::Conds(out@[k]@.conds) && out@[k]@.raw == spec_trim(
                    expressions@[k]@,
                ) && expr_wf(out@[k]),
        decreases n - i,
    {
        match parse_filter_expression(expressions[i].as_str()) {
            Ok(fe) => {
                out.push(fe);
            },
            Err(e) => {
                return Err(e);
            },
        }
        i = i + 1;
    }
    Ok(out)
}

} // verus!

verus! {

/// `s` left-padded with zeros to width `w`.
pub open spec fn spec_pad_zeros(s: Seq<char>, w: nat) -> Seq<char>
    decreases w,
{
    if s.len() >= w {
        s
    } else {
        seq!['0'] + spec_pad_zeros(s, (w - 1) as nat)
    }
}

/// The canonical text of a day count: the whole days, and — when
/// there are fractional digits — a point and the zero-padded fraction.
pub open spec fn spec_day_text(num: nat, pow: nat) -> Seq<char> {
    if pow == 0 {
        text::spec_dec_digits(num)
    } else {
        text::spec_dec_digits(num / pow10(pow)) + seq!['.'] + spec_pad_zeros(
            text::spec_dec_digits(num % pow10(pow)),
            pow,
        )
    }
}

/// Left-pad with zeros to width `w`.
fn pad_zeros(s: Vec<char>, w: usize) -> (r: Vec<char>)
    ensures
        r@ == spec_pad_zeros(s@, w as nat),
    decreases w,
{
    if s.len() >= w {
        s
    } else {
        let inner = pad_zeros(s, w - 1);
        let mut out: Vec<char> = Vec::new();
        out.push('0');
        crate::text::append_chars(&mut out, inner.as_slice());
        proof {
            assert(out@ =~= seq!['0'] + inner@);
        }
        out
    }
}

/// The canonical text of a day count.
pub fn day_value_text(d: &DayValue) -> (r: String)
    requires
        day_value_wf(*d),
    ensures
        r@ == spec_day_text(d.num as nat, d.pow10 as nat),
{
    if d.pow10 == 0 {
        chars_to_string(text::u64_to_dec_chars(d.num))
    } else {
        let den = pow10_u64(d.pow10);
        let mut out = text::u64_to_dec_chars(d.num / den);
        out.push('.');
        let frac = pad_zeros(text::u64_to_dec_chars(d.num % den), d.pow10 as usize);
        crate::text::append_chars(&mut out, frac.as_slice());
        proof {
            assert(out@ =~= spec_day_text(d.num as nat, d.pow10 as nat));
        }
        chars_to_string(out)
    }
}

/// The operator spellings are pairwise distinguishable.
proof fn lemma_op_distinct()
    ensures
        "in"@.len() == 2,
        "contains"@.len() == 8,
        "starts_with"@.len() == 11,
        "ends_with"@.len() == 9,
        "like"@.len() == 4,
        "=="@.len() == 2,
        "!="@.len() == 2,
        "<="@.len() == 2,
        ">="@.len() == 2,
        "<"@.len() == 1,
        ">"@.len() == 1,
        "in"@ != "=="@,
        "in"@ != "!="@,
        "in"@ != "<="@,
        "in"@ != ">="@,
{
    reveal_strlit("in");
    reveal_strlit("contains");
    reveal_strlit("starts_with");
    reveal_strlit("ends_with");
    reveal_strlit("like");
    reveal_strlit("==");
    reveal_strlit("!=");
    reveal_strlit("<=");
    reveal_strlit(">=");
    reveal_strlit("<");
    reveal_strlit(">");
    assert("in"@[0] != "=="@[0]);
    assert("in"@[0] != "!="@[0]);
    assert("in"@[0] != "<="@[0]);
    assert("in"@[0] != ">="@[0]);
}

/// Is the operator one the text form can carry, for this kind of
/// condition?
pub open spec fn cond_serializable(c: CondView) -> bool {
    match c {
        CondView::Name { op, val } => op == "=="@ || op == "!="@ || op == "<="@ || op == ">="@
            || op == "<"@ || op == ">"@ || op == "contains"@ || op == "in"@ || op
            == "starts_with"@ || op == "ends_with"@ || op == "like"@,
        CondView::Path { op, val } => op == "=="@ || op == "!="@ || op == "<="@ || op == ">="@
            || op == "<"@ || op == ">"@ || op == "contains"@ || op == "in"@ || op
            == "starts_with"@ || op == "ends_with"@ || op == "like"@,
        CondView::Type { op, val } => op == "=="@ || op == "!="@ || op == "<="@ || op == ">="@
            || op == "<"@ || op == ">"@,
        CondView::Modified { op, num, pow } => op == "<"@ || op == ">"@ || op == "<="@ || op
            == ">="@ || op == "=="@ || op == "!="@,
        CondView::Size { op, val } => op == "<"@ || op == ">"@ || op == "<="@ || op == ">="@
            || op == "=="@ || op == "!="@,
        CondView::Extension { op, val } => op == "=="@ || op == "!="@ || op == "<="@ || op
            == ">="@ || op == "<"@ || op == ">"@ || op == "contains"@ || op == "like"@,
    }
}

/// The canonical text of one condition.  An `in` operator is written
/// in its `"value" in field` form; `contains`, `starts_with` and
/// `ends_with` in their keyword forms; everything else as
/// `field op value`, with string values double-quoted.
pub open spec fn spec_cond_text(c: CondView) -> Seq<char> {
    match c {
        CondView::Name { op, val } => if op == "in"@ {
            seq!['"'] + val + seq!['"'] + " in name"@
        } else if op == "contains"@ {
            "name contains \""@ + val + seq!['"']
        } else if op == "starts_with"@ {
            "name starts with \""@ + val + seq!['"']
        } else if op == "ends_with"@ {
            "name ends with \""@ + val + seq!['"']
        } else {
            "name "@ + op + " \""@ + val + seq!['"']
        },
        CondView::Path { op, val } => if op == "in"@ {
            seq!['"'] + val + seq!['"'] + " in path"@
        } else if op == "contains"@ {
            "path contains \""@ + val + seq!['"']
        } else if op == "starts_with"@ {
            "path starts with \""@ + val + seq!['"']
        } else if op == "ends_with"@ {
            "path ends with \""@ + val + seq!['"']
        } else {
            "path "@ + op + " \""@ + val + seq!['"']
        },
        CondView::Type { op, val } => "type "@ + op + " \""@ + val + seq!['"'],
        CondView::Modified { op, num, pow } => "modified "@ + op + " "@ + spec_day_text(num, pow),
        CondView::Size { op, val } => "size "@ + op + " "@ + text::spec_dec_digits(val),
        CondView::Extension { op, val } => if op == "contains"@ {
            "extension contains \""@ + val + seq!['"']
        } else if op == "like"@ {
            "extension like \""@ + val + seq!['"']
        } else {
            "extension "@ + op + " \""@ + val + seq!['"']
        },
    }
}

/// Render one condition as text; `None` when the operator is not one
/// the text form can carry.
pub fn condition_text(c: &FilterCondition) -> (r: Option<String>)
    requires
        cond_wf(*c),
    ensures
        (r is Some) == cond_serializable(c@),
        r matches Some(t) ==> t@ == spec_cond_text(c@),
{
    let sym = |o: &String| -> (rr: bool)
        ensures
            rr == (o@ == "=="@ || o@ == "!="@ || o@ == "<="@ || o@ == ">="@ || o@ == "<"@ || o@
                == ">"@),
        {
            str_is(o, "==") || str_is(o, "!=") || str_is(o, "<=") || str_is(o, ">=") || str_is(
                o,
                "<",
            ) || str_is(o, ">")
        };
    match c {
        FilterCondition::Name { operator, value } => {
            if str_is(operator, "in") {
                let mut out = string_to_chars("\"");
                let v = string_to_chars(value.as_str());
                crate::text::append_chars(&mut out, v.as_slice());
                let tailtext = string_to_chars("\" in name");
                crate::text::append_chars(&mut out, tailtext.as_slice());
                proof {
                    lemma_op_distinct();
                    reveal_strlit("\"");
                    reveal_strlit("\" in name");
                    reveal_strlit(" in name");
                    assert("\""@ =~= seq!['"']);
                    assert("\" in name"@ =~= seq!['"'] + " in name"@);
                    assert(out@ =~= spec_cond_text(c@));
                }
                Some(chars_to_string(out))
            } else if str_is(operator, "contains") || str_is(operator, "starts_with") || str_is(
                operator,
                "ends_with",
            ) || str_is(operator, "like") {
                let head: &'static str = if str_is(operator, "contains") {
                    "name contains \""
                } else if str_is(operator, "starts_with") {
                    "name starts with \""
                } else if str_is(operator, "ends_with") {
                    "name ends with \""
                } else {
                    "name like \""
                };
                let mut out = string_to_chars(head);
                let v = string_to_chars(value.as_str());
                crate::text::append_chars(&mut out, v.as_slice());
                out.push('"');
                proof {
                    lemma_op_distinct();
                    if operator@ == "like"@ {
                        assert(spec_cond_text(c@) == "name "@ + operator@ + " \""@ + value@
                            + seq!['"']);
                        assert("name like \""@ =~= "name "@ + "like"@ + " \""@) by {
                            reveal_strlit("name like \"");
                            reveal_strlit("name ");
                            reveal_strlit("like");
                            reveal_strlit(" \"");
                        }
                    }
                    assert(out@ =~= spec_cond_text(c@));
                }
                Some(chars_to_string(out))
            } else if sym(operator) {
                let mut out = string_to_chars("name ");
                let o = string_to_chars(operator.as_str());
                crate::text::append_chars(&mut out, o.as_slice());
                let mid = string_to_chars(" \"");
                crate::text::append_chars(&mut out, mid.as_slice());
                let v = string_to_chars(value.as_str());
                crate::text::append_chars(&mut out, v.as_slice());
                out.push('"');
                proof {
                    lemma_op_distinct();
                    assert(out@ =~= spec_cond_text(c@));
                }
                Some(chars_to_string(out))
            } else {
                None
            }
        },
        FilterCondition::Path { operator, value } => {
            if str_is(operator, "in") {
                let mut out = string_to_chars("\"");
                let v = string_to_chars(value.as_str());
                crate::text::append_chars(&mut out, v.as_slice());
                let tailtext = string_to_chars("\" in path");
                crate::text::append_chars(&mut out, tailtext.as_slice());
                proof {
                    lemma_op_distinct();
                    reveal_strlit("\"");
                    reveal_strlit("\" in path");
                    reveal_strlit(" in path");
                    assert("\""@ =~= seq!['"']);
                    assert("\" in path"@ =~= seq!['"'] + " in path"@);
                    assert(out@ =~= spec_cond_text(c@));
                }
                Some(chars_to_string(out))
            } else if str_is(operator, "contains") || str_is(operator, "starts_with") || str_is(
                operator,
                "ends_with",
            ) || str_is(operator, "like") {
                let head: &'static str = if str_is(operator, "contains") {
                    "path contains \""
                } else if str_is(operator, "starts_with") {
                    "path starts with \""
                } else if str_is(operator, "ends_with") {
                    "path ends with \""
                } else {
                    "path like \""
                };
                let mut out = string_to_chars(head);
                let v = string_to_chars(value.as_str());
                crate::text::append_chars(&mut out, v.as_slice());
                out.push('"');
                proof {
                    lemma_op_distinct();
                    if operator@ == "like"@ {
                        assert(spec_cond_text(c@) == "path "@ + operator@ + " \""@ + value@
                            + seq!['"']);
                        assert("path like \""@ =~= "path "@ + "like"@ + " \""@) by {
                            reveal_strlit("path like \"");
                            reveal_strlit("path ");
                            reveal_strlit("like");
                            reveal_strlit(" \"");
                        }
                    }
                    assert(out@ =~= spec_cond_text(c@));
                }
                Some(chars_to_string(out))
            } else if sym(operator) {
                let mut out = string_to_chars("path ");
                let o = string_to_chars(operator.as_str());
                crate::text::append_chars(&mut out, o.as_slice());
                let mid = string_to_chars(" \"");
                crate::text::append_chars(&mut out, mid.as_slice());
                let v = string_to_chars(value.as_str());
                crate::text::append_chars(&mut out, v.as_slice());
                out.push('"');
                proof {
                    lemma_op_distinct();
                    assert(out@ =~= spec_cond_text(c@));
                }
                Some(chars_to_string(out))
            } else {
                None
            }
        },
        FilterCondition::Type { operator, value } => {
            if sym(operator) {
                let mut out = string_to_chars("type ");
                let o = string_to_chars(operator.as_str());
                crate::text::append_chars(&mut out, o.as_slice());
                let mid = string_to_chars(" \"");
                crate::text::append_chars(&mut out, mid.as_slice());
                let v = string_to_chars(value.as_str());
                crate::text::append_chars(&mut out, v.as_slice());
                out.push('"');
                proof {
                    lemma_op_distinct();
                    assert(out@ =~= spec_cond_text(c@));
                }
                Some(chars_to_string(out))
            } else {
                None
            }
        },
        FilterCondition::Modified { operator, value } => {
            if sym(operator) {
                let mut out = string_to_chars("modified ");
                let o = string_to_chars(operator.as_str());
                crate::text::append_chars(&mut out, o.as_slice());
                out.push(' ');
                let d = day_value_text(value);
                let dc = string_to_chars(d.as_str());
                crate::text::append_chars(&mut out, dc.as_slice());
                proof {
                    lemma_op_distinct();
                    reveal_strlit(" ");
                    assert(" "@ =~= seq![' ']);
                    assert(out@ =~= spec_cond_text(c@));
                }
                Some(chars_to_string(out))
            } else {
                None
            }
        },
        FilterCondition::Size { operator, value } => {
            if sym(operator) {
                let mut out = string_to_chars("size ");
                let o = string_to_chars(operator.as_str());
                crate::text::append_chars(&mut out, o.as_slice());
                out.push(' ');
                let dc = text::u64_to_dec_chars(*value);
                crate::text::append_chars(&mut out, dc.as_slice());
                proof {
                    lemma_op_distinct();
                    reveal_strlit(" ");
                    assert(" "@ =~= seq![' ']);
                    assert(out@ =~= spec_cond_text(c@));
                }
                Some(chars_to_string(out))
            } else {
                None
            }
        },
        FilterCondition::Extension { operator, value } => {
            if str_is(operator, "contains") || str_is(operator, "like") {
                let head: &'static str = if str_is(operator, "contains") {
                    "extension contains \""
                } else {
                    "extension like \""
                };
                let mut out = string_to_chars(head);
                let v = string_to_chars(value.as_str());
                crate::text::append_chars(&mut out, v.as_slice());
                out.push('"');
                proof {
                    lemma_op_distinct();
                    assert(out@ =~= spec_cond_text(c@));
                }
                Some(chars_to_string(out))
            } else if sym(operator) {
                let mut out = string_to_chars("extension ");
                let o = string_to_chars(operator.as_str());
                crate::text::append_chars(&mut out, o.as_slice());
                let mid = string_to_chars(" \"");
                crate::text::append_chars(&mut out, mid.as_slice());
                let v = string_to_chars(value.as_str());
                crate::text::append_chars(&mut out, v.as_slice());
                out.push('"');
                proof {
                    lemma_op_distinct();
                    assert(out@ =~= spec_cond_text(c@));
                }
                Some(chars_to_string(out))
            } else {
                None
            }
        },
    }
}

/// Render a whole expression: its conditions' texts joined with
/// ` and `; `None` when some condition cannot be rendered.
pub fn expression_text(conds: &Vec<FilterCondition>) -> (r: Option<String>)
    requires
        forall|i: int| 0 <= i < conds@.len() ==> cond_wf(#[trigger] conds@[i]),
    ensures
        (r is Some) == (forall|i: int|
            0 <= i < conds@.len() ==> cond_serializable(#[trigger] conds@[i]@)),
        r matches Some(t) ==> t@ == text::spec_join(
            conds@.map_values(|c: FilterCondition| spec_cond_text(c@)),
            " and "@,
        ),
{
    let ghost texts = conds@.map_values(|c: FilterCondition| spec_cond_text(c@));
    let n = conds.len();
    let mut parts: Vec<Vec<char>> = Vec::new();
    let mut i: usize = 0;
    while i < n
        invariant
            n == conds@.len(),
            i <= n,
            texts == conds@.map_values(|c: FilterCondition| spec_cond_text(c@)),
            forall|k: int| 0 <= k < n ==> cond_wf(#[trigger] conds@[k]),
            parts@.len() == i,
            forall|k: int| 0 <= k < i ==> #[trigger] parts@[k]@ == texts[k],
            forall|k: int| 0 <= k < i ==> cond_serializable(#[trigger] conds@[k]@),
        decreases n - i,
    {
        match condition_text(&conds[i]) {
            Some(t) => {
                parts.push(string_to_chars(t.as_str()));
            },
            None => {
                return None;
            },
        }
        i = i + 1;
    }
    let sep = string_to_chars(" and ");
    let joined = crate::text::join_chars(&parts, sep.as_slice());
    proof {
        assert(parts@.map_values(|p: Vec<char>| p@) =~= texts);
    }
    Some(chars_to_string(joined))
}

} // verus!

verus! {

/// On name and path conditions the `in` operator means exactly what
/// `contains` means, so rendering an `in` condition in its `contains`
/// form preserves what it matches.
pub proof fn lemma_in_means_contains(field: Seq<char>, val: Seq<char>)
    ensures
        eval_str_op("in"@, field, val) == eval_str_op("contains"@, field, val),
{
    lemma_op_distinct();
}

} // verus!

verus! {

/// An occurrence pins the text's characters at its position.
proof fn lemma_occurs_chars(s: Seq<char>, p: Seq<char>, j: int)
    requires
        text::occurs_at(s, p, j),
        p.len() >= 1,
    ensures
        s[j] == p[0],
        p.len() == 2 ==> s[j + 1] == p[1],
{
    assert(s.subrange(j, j + p.len() as int)[0] == s[j]);
    if p.len() == 2 {
        assert(s.subrange(j, j + p.len() as int)[1] == s[j + 1]);
    }
}

/// A pattern holding a character the text lacks never occurs.
proof fn lemma_find_none_by_char(s: Seq<char>, p: Seq<char>, k: int, c: char)
    requires
        0 <= k < p.len(),
        p[k] == c,
        forall|j: int| 0 <= j < s.len() ==> s[j] != c,
    ensures
        spec_find(s, p) is None,
{
    lemma_spec_find(s, p);
    match spec_find(s, p) {
        Some(i) => {
            assert(s.subrange(i, i + p.len() as int)[k] == s[i + k]);
            assert(false);
        },
        None => {},
    }
}

/// A text whose ends are not whitespace trims to itself.
proof fn lemma_trim_id(s: Seq<char>)
    requires
        s.len() > 0,
        !text::is_space(s[0]),
        !text::is_space(s[s.len() - 1]),
    ensures
        spec_trim(s) == s,
{
    assert(spec_trim_front(s) == s);
    assert(spec_trim_back(s) == s);
}

/// One leading space before a space-free-ended text trims away.
proof fn lemma_trim_space_then(d: Seq<char>)
    requires
        d.len() > 0,
        !text::is_space(d[0]),
        !text::is_space(d[d.len() - 1]),
    ensures
        spec_trim(seq![' '] + d) == d,
{
    let s = seq![' '] + d;
    assert(text::is_space(s[0]));
    assert(spec_trim_front(s) == spec_trim_front(s.drop_first()));
    assert(s.drop_first() =~= d);
    assert(spec_trim_front(d) == d);
    assert(spec_trim_back(d) == d);
}

/// Decimal digits are none of the parser's marker characters.
proof fn lemma_digit_char_apart(c: char)
    requires
        is_dec_digit(c),
    ensures
        c != '+' && c != ' ' && c != '=' && c != '!' && c != '<' && c != '>' && c != 'n' && c
            != 'p' && c != 'k' && c != 'a' && c != '.' && !text::is_space(c),
{
    assert(('0' as u32) == 48 && ('9' as u32) == 57);
    assert(48 <= c as u32 <= 57);
    assert(('+' as u32) == 43);
    assert((' ' as u32) == 32);
    assert(('=' as u32) == 61);
    assert(('!' as u32) == 33);
    assert(('<' as u32) == 60);
    assert(('>' as u32) == 62);
    assert(('n' as u32) == 110);
    assert(('p' as u32) == 112);
    assert(('k' as u32) == 107);
    assert(('a' as u32) == 97);
    assert(('.' as u32) == 46);
    assert(('\t' as u32) == 9);
    assert(('\n' as u32) == 10);
    assert(('\r' as u32) == 13);
}

} // verus!

verus! {

} // verus!

verus! {

/// The rendered text of a size condition, named for the proofs below.
pub open spec fn size_text(op: Seq<char>, val: u64) -> Seq<char> {
    spec_cond_text(CondView::Size { op, val: val as nat })
}

/// The shape of a size condition's text: where each character comes
/// from, that it trims to itself, and that none of the parser's early
/// probes occurs in it.
proof fn lemma_size_text_shape(op: Seq<char>, val: u64)
    requires
        op == "=="@ || op == "!="@ || op == "<="@ || op == ">="@ || op == "<"@ || op == ">"@,
    ensures
        size_text(op, val) == "size "@ + op + " "@ + text::spec_dec_digits(val as nat),
        size_text(op, val).len() == 6 + op.len() + text::spec_dec_digits(val as nat).len(),
        forall|j: int| 0 <= j < 5 ==> size_text(op, val)[j] == "size "@[j],
        forall|j: int|
            5 <= j < 5 + op.len() as int ==> size_text(op, val)[j] == op[j - 5],
        size_text(op, val)[5 + op.len() as int] == ' ',
        forall|j: int|
            5 + op.len() as int + 1 <= j < size_text(op, val).len() ==> is_dec_digit(
                #[trigger] size_text(op, val)[j],
            ),
        spec_trim(size_text(op, val)) == size_text(op, val),
        spec_find(size_text(op, val), " in name"@) is None,
        spec_find(size_text(op, val), " in path"@) is None,
        spec_find(size_text(op, val), " like "@) is None,
        spec_find(size_text(op, val), " and "@) is None,
        forall|j: int|
            0 <= j < size_text(op, val).len() && ((#[trigger] size_text(op, val)[j]) == '='
                || size_text(op, val)[j] == '!' || size_text(op, val)[j] == '<' || size_text(
                op,
                val,
            )[j] == '>') ==> 5 <= j < 5 + op.len() as int,
{
    lemma_op_distinct();
    reveal_strlit("size ");
    reveal_strlit(" ");
    reveal_strlit("==");
    reveal_strlit("!=");
    reveal_strlit("<=");
    reveal_strlit(">=");
    reveal_strlit("<");
    reveal_strlit(">");
    reveal_strlit(" in name");
    reveal_strlit(" in path");
    reveal_strlit(" like ");
    reveal_strlit(" and ");
    let d = text::spec_dec_digits(val as nat);
    text::lemma_dec_digits_value(val as nat);
    let s = size_text(op, val);
    assert(s == "size "@ + op + " "@ + d);
    let pre: Seq<char> = "size "@;
    assert(pre.len() == 5);
    let ol = op.len() as int;
    assert(ol == 1 || ol == 2);
    assert(forall|j: int| 0 <= j < 5 ==> s[j] == pre[j]);
    assert(forall|j: int| 5 <= j < 5 + ol ==> s[j] == op[j - 5]);
    assert(s[5 + ol] == ' ');
    assert(forall|j: int| 5 + ol + 1 <= j < s.len() ==> s[j] == d[j - (5 + ol + 1)]);
    assert(pre[0] == 's' && pre[1] == 'i' && pre[2] == 'z' && pre[3] == 'e' && pre[4] == ' ');
    assert(op[0] == '=' || op[0] == '!' || op[0] == '<' || op[0] == '>');
    assert forall|j: int| 5 + ol + 1 <= j < s.len() implies is_dec_digit(#[trigger] s[j]) by {
        assert(s[j] == d[j - (5 + ol + 1)]);
    }
    assert forall|j: int| 0 <= j < s.len() implies s[j] != 'n' && s[j] != 'p' && s[j] != 'k'
        && s[j] != 'a' by {
        if 5 + ol + 1 <= j {
            lemma_digit_char_apart(s[j]);
        }
    }
    assert(" in name"@[2] == 'n');
    lemma_find_none_by_char(s, " in name"@, 2, 'n');
    assert(" in path"@[4] == 'p');
    lemma_find_none_by_char(s, " in path"@, 4, 'p');
    assert(" like "@[3] == 'k');
    lemma_find_none_by_char(s, " like "@, 3, 'k');
    assert(" and "@[1] == 'a');
    lemma_find_none_by_char(s, " and "@, 1, 'a');
    assert(!text::is_space(s[0]));
    assert(s[s.len() - 1] == d[d.len() - 1]);
    assert(!text::is_space(s[s.len() - 1])) by {
        lemma_digit_char_apart(s[s.len() - 1]);
    }
    lemma_trim_id(s);
    assert forall|j: int|
        0 <= j < s.len() && ((#[trigger] s[j]) == '=' || s[j] == '!' || s[j] == '<' || s[j]
            == '>') implies 5 <= j < 5 + ol by {
        if j < 5 {
        } else if j == 5 + ol {
        } else if j > 5 + ol {
            lemma_digit_char_apart(s[j]);
        }
    }
}

/// The dispatch at the operator position of a size condition's text
/// yields the condition back.
proof fn lemma_size_dispatch(op: Seq<char>, val: u64)
    requires
        op == "=="@ || op == "!="@ || op == "<="@ || op == ">="@ || op == "<"@ || op == ">"@,
    ensures
        spec_dispatch_cmp(size_text(op, val), 5, op) == OpOutcome::Cond(
            CondView::Size { op, val: val as nat },
        ),
{
    lemma_op_distinct();
    reveal_strlit("size ");
    reveal_strlit("size");
    reveal_strlit(" ");
    reveal_strlit("name");
    reveal_strlit("path");
    reveal_strlit("type");
    reveal_strlit("modified");
    let d = text::spec_dec_digits(val as nat);
    text::lemma_dec_digits_value(val as nat);
    let s = size_text(op, val);
    assert(s == "size "@ + op + " "@ + d);
    let pre: Seq<char> = "size "@;
    assert(s.take(5) =~= pre);
    assert(pre.drop_last() =~= "size"@);
    assert(pre[0] == 's');
    assert(spec_trim_front(pre) == pre);
    assert(spec_trim_back(pre) == spec_trim_back("size"@));
    assert(spec_trim_back("size"@) == "size"@);
    assert(spec_trim(s.take(5)) == "size"@);
    assert("size"@ != "name"@ && "size"@ != "path"@ && "size"@ != "type"@ && "size"@
        != "modified"@) by {
        assert("size"@[0] == 's' && "name"@[0] == 'n' && "path"@[0] == 'p' && "type"@[0] == 't');
        assert("modified"@.len() == 8);
    }
    assert(s.skip(5 + op.len() as int) =~= seq![' '] + d);
    assert(!text::is_space(d[0]) && !text::is_space(d[d.len() - 1])) by {
        lemma_digit_char_apart(d[0]);
        lemma_digit_char_apart(d[d.len() - 1]);
    }
    lemma_trim_space_then(d);
    assert(spec_trim(s.skip(5 + op.len() as int)) == d);
    assert(d[0] != '+') by {
        lemma_digit_char_apart(d[0]);
    }
    assert(spec_parse_u64(d) == Some(val));
}

} // verus!

verus! {

} // verus!

verus! {

/// The probe outcomes on `size == N`.
#[verifier::rlimit(60)]
#[verifier::spinoff_prover]
proof fn lemma_size_finds_eq(op: Seq<char>, val: u64)
    requires
        op == "=="@,
    ensures
        spec_find(size_text(op, val), "=="@) == Some(5int),
    {
    lemma_op_distinct();
    reveal_strlit("size ");
    reveal_strlit("==");
    reveal_strlit("!=");
    reveal_strlit("<=");
    reveal_strlit(">=");
    reveal_strlit("<");
    reveal_strlit(">");
    lemma_size_text_shape(op, val);
    let s = size_text(op, val);
    let ol = op.len() as int;
    assert(text::occurs_at(s, op, 5)) by {
        assert(s.subrange(5, 5 + ol) =~= op);
    }
    assert forall|j: int| 0 <= j < 5 implies !text::occurs_at(s, "=="@, j) by {
        if text::occurs_at(s, "=="@, j) {
            lemma_occurs_chars(s, "=="@, j);
        }
    }
    text::lemma_spec_find(s, "=="@);
    assert(spec_find(s, "=="@) == Some(5int));
}

/// The probe outcomes on `size != N`.
#[verifier::rlimit(60)]
#[verifier::spinoff_prover]
proof fn lemma_size_finds_ne(op: Seq<char>, val: u64)
    requires
        op == "!="@,
    ensures
        spec_find(size_text(op, val), "=="@) is None,
        spec_find(size_text(op, val), "!="@) == Some(5int),
    {
    lemma_op_distinct();
    reveal_strlit("size ");
    reveal_strlit("==");
    reveal_strlit("!=");
    reveal_strlit("<=");
    reveal_strlit(">=");
    reveal_strlit("<");
    reveal_strlit(">");
    lemma_size_text_shape(op, val);
    let s = size_text(op, val);
    let ol = op.len() as int;
    assert(text::occurs_at(s, op, 5)) by {
        assert(s.subrange(5, 5 + ol) =~= op);
    }
    assert forall|j: int| !text::occurs_at(s, "=="@, j) by {
        if text::occurs_at(s, "=="@, j) {
            lemma_occurs_chars(s, "=="@, j);
            assert(s[j] == '=' && s[j + 1] == '=');
            assert(5 <= j < 5 + ol);
            assert(j == 6 && ol == 2);
            assert(s[7] == ' ');
            assert(false);
        }
    }
    text::lemma_spec_find(s, "=="@);
    assert(spec_find(s, "=="@) is None);
    assert forall|j: int| 0 <= j < 5 implies !text::occurs_at(s, "!="@, j) by {
        if text::occurs_at(s, "!="@, j) {
            lemma_occurs_chars(s, "!="@, j);
        }
    }
    text::lemma_spec_find(s, "!="@);
    assert(spec_find(s, "!="@) == Some(5int));
}

/// The probe outcomes on `size <= N`.
#[verifier::rlimit(60)]
#[verifier::spinoff_prover]
proof fn lemma_size_finds_le(op: Seq<char>, val: u64)
    requires
        op == "<="@,
    ensures
        spec_find(size_text(op, val), "=="@) is None,
        spec_find(size_text(op, val), "!="@) is None,
        spec_find(size_text(op, val), "<="@) == Some(5int),
    {
    lemma_op_distinct();
    reveal_strlit("size ");
    reveal_strlit("==");
    reveal_strlit("!=");
    reveal_strlit("<=");
    reveal_strlit(">=");
    reveal_strlit("<");
    reveal_strlit(">");
    lemma_size_text_shape(op, val);
    let s = size_text(op, val);
    let ol = op.len() as int;
    assert(text::occurs_at(s, op, 5)) by {
        assert(s.subrange(5, 5 + ol) =~= op);
    }
    assert forall|j: int| !text::occurs_at(s, "=="@, j) by {
        if text::occurs_at(s, "=="@, j) {
            lemma_occurs_chars(s, "=="@, j);
            assert(s[j] == '=' && s[j + 1] == '=');
            assert(5 <= j < 5 + ol);
            assert(j == 6 && ol == 2);
            assert(s[7] == ' ');
            assert(false);
        }
    }
    text::lemma_spec_find(s, "=="@);
    assert(spec_find(s, "=="@) is None);
    assert forall|j: int| 0 <= j < s.len() implies s[j] != '!' by {
        if s[j] == '!' {
            assert(5 <= j < 5 + ol);
        }
    }
    lemma_find_none_by_char(s, "!="@, 0, '!');
    assert forall|j: int| 0 <= j < 5 implies !text::occurs_at(s, "<="@, j) by {
        if text::occurs_at(s, "<="@, j) {
            lemma_occurs_chars(s, "<="@, j);
        }
    }
    text::lemma_spec_find(s, "<="@);
    assert(spec_find(s, "<="@) == Some(5int));
}

/// The probe outcomes on `size >= N`.
#[verifier::rlimit(60)]
#[verifier::spinoff_prover]
proof fn lemma_size_finds_ge(op: Seq<char>, val: u64)
    requires
        op == ">="@,
    ensures
        spec_find(size_text(op, val), "=="@) is None,
        spec_find(size_text(op, val), "!="@) is None,
        spec_find(size_text(op, val), "<="@) is None,
        spec_find(size_text(op, val), ">="@) == Some(5int),
    {
    lemma_op_distinct();
    reveal_strlit("size ");
    reveal_strlit("==");
    reveal_strlit("!=");
    reveal_strlit("<=");
    reveal_strlit(">=");
    reveal_strlit("<");
    reveal_strlit(">");
    lemma_size_text_shape(op, val);
    let s = size_text(op, val);
    let ol = op.len() as int;
    assert(text::occurs_at(s, op, 5)) by {
        assert(s.subrange(5, 5 + ol) =~= op);
    }
    assert forall|j: int| !text::occurs_at(s, "=="@, j) by {
        if text::occurs_at(s, "=="@, j) {
            lemma_occurs_chars(s, "=="@, j);
            assert(s[j] == '=' && s[j + 1] == '=');
            assert(5 <= j < 5 + ol);
            assert(j == 6 && ol == 2);
            assert(s[7] == ' ');
            assert(false);
        }
    }
    text::lemma_spec_find(s, "=="@);
    assert(spec_find(s, "=="@) is None);
    assert forall|j: int| 0 <= j < s.len() implies s[j] != '!' by {
        if s[j] == '!' {
            assert(5 <= j < 5 + ol);
        }
    }
    lemma_find_none_by_char(s, "!="@, 0, '!');
    assert forall|j: int| 0 <= j < s.len() implies s[j] != '<' by {
        if s[j] == '<' {
            assert(5 <= j < 5 + ol);
        }
    }
    lemma_find_none_by_char(s, "<="@, 0, '<');
    assert forall|j: int| 0 <= j < 5 implies !text::occurs_at(s, ">="@, j) by {
        if text::occurs_at(s, ">="@, j) {
            lemma_occurs_chars(s, ">="@, j);
        }
    }
    text::lemma_spec_find(s, ">="@);
    assert(spec_find(s, ">="@) == Some(5int));
}

/// The probe outcomes on `size < N`.
#[verifier::rlimit(60)]
#[verifier::spinoff_prover]
proof fn lemma_size_finds_lt(op: Seq<char>, val: u64)
    requires
        op == "<"@,
    ensures
        spec_find(size_text(op, val), "=="@) is None,
        spec_find(size_text(op, val), "!="@) is None,
        spec_find(size_text(op, val), "<="@) is None,
        spec_find(size_text(op, val), ">="@) is None,
        spec_find(size_text(op, val), "<"@) == Some(5int),
    {
    lemma_op_distinct();
    reveal_strlit("size ");
    reveal_strlit("==");
    reveal_strlit("!=");
    reveal_strlit("<=");
    reveal_strlit(">=");
    reveal_strlit("<");
    reveal_strlit(">");
    lemma_size_text_shape(op, val);
    let s = size_text(op, val);
    let ol = op.len() as int;
    assert(text::occurs_at(s, op, 5)) by {
        assert(s.subrange(5, 5 + ol) =~= op);
    }
    assert forall|j: int| 0 <= j < s.len() implies s[j] != '=' by {
        if s[j] == '=' {
            assert(5 <= j < 5 + ol);
        }
    }
    lemma_find_none_by_char(s, "=="@, 0, '=');
    assert forall|j: int| 0 <= j < s.len() implies s[j] != '!' by {
        if s[j] == '!' {
            assert(5 <= j < 5 + ol);
        }
    }
    lemma_find_none_by_char(s, "!="@, 0, '!');
    assert forall|j: int| !text::occurs_at(s, "<="@, j) by {
        if text::occurs_at(s, "<="@, j) {
            lemma_occurs_chars(s, "<="@, j);
            assert(s[j] == '<' && s[j + 1] == '=');
            assert(5 <= j < 5 + ol);
            assert(j == 5 && ol == 1);
            assert(s[6] == ' ');
            assert(false);
        }
    }
    text::lemma_spec_find(s, "<="@);
    assert(spec_find(s, "<="@) is None);
    assert forall|j: int| 0 <= j < s.len() implies s[j] != '>' by {
        if s[j] == '>' {
            assert(5 <= j < 5 + ol);
        }
    }
    lemma_find_none_by_char(s, ">="@, 0, '>');
    assert forall|j: int| 0 <= j < 5 implies !text::occurs_at(s, "<"@, j) by {
        if text::occurs_at(s, "<"@, j) {
            lemma_occurs_chars(s, "<"@, j);
        }
    }
    text::lemma_spec_find(s, "<"@);
    assert(spec_find(s, "<"@) == Some(5int));
}

/// The probe outcomes on `size > N`.
#[verifier::rlimit(60)]
#[verifier::spinoff_prover]
proof fn lemma_size_finds_gt(op: Seq<char>, val: u64)
    requires
        op == ">"@,
    ensures
        spec_find(size_text(op, val), "=="@) is None,
        spec_find(size_text(op, val), "!="@) is None,
        spec_find(size_text(op, val), "<="@) is None,
        spec_find(size_text(op, val), ">="@) is None,
        spec_find(size_text(op, val), "<"@) is None,
        spec_find(size_text(op, val), ">"@) == Some(5int),
    {
    lemma_op_distinct();
    reveal_strlit("size ");
    reveal_strlit("==");
    reveal_strlit("!=");
    reveal_strlit("<=");
    reveal_strlit(">=");
    reveal_strlit("<");
    reveal_strlit(">");
    lemma_size_text_shape(op, val);
    let s = size_text(op, val);
    let ol = op.len() as int;
    assert(text::occurs_at(s, op, 5)) by {
        assert(s.subrange(5, 5 + ol) =~= op);
    }
    assert forall|j: int| 0 <= j < s.len() implies s[j] != '=' by {
        if s[j] == '=' {
            assert(5 <= j < 5 + ol);
        }
    }
    lemma_find_none_by_char(s, "=="@, 0, '=');
    assert forall|j: int| 0 <= j < s.len() implies s[j] != '!' by {
        if s[j] == '!' {
            assert(5 <= j < 5 + ol);
        }
    }
    lemma_find_none_by_char(s, "!="@, 0, '!');
    assert forall|j: int| 0 <= j < s.len() implies s[j] != '<' by {
        if s[j] == '<' {
            assert(5 <= j < 5 + ol);
        }
    }
    lemma_find_none_by_char(s, "<="@, 0, '<');
    lemma_find_none_by_char(s, "<"@, 0, '<');
    assert forall|j: int| !text::occurs_at(s, ">="@, j) by {
        if text::occurs_at(s, ">="@, j) {
            lemma_occurs_chars(s, ">="@, j);
            assert(s[j] == '>' && s[j + 1] == '=');
            assert(5 <= j < 5 + ol);
            assert(j == 5 && ol == 1);
            assert(s[6] == ' ');
            assert(false);
        }
    }
    text::lemma_spec_find(s, ">="@);
    assert(spec_find(s, ">="@) is None);
    assert forall|j: int| 0 <= j < 5 implies !text::occurs_at(s, ">"@, j) by {
        if text::occurs_at(s, ">"@, j) {
            lemma_occurs_chars(s, ">"@, j);
        }
    }
    text::lemma_spec_find(s, ">"@);
    assert(spec_find(s, ">"@) == Some(5int));
}

} // verus!

verus! {

/// Parsing the rendered text of a size condition recovers exactly
/// that condition: on size conditions the serialize/parse round trip
/// is the identity, whichever comparison operator and value they
/// carry.
#[verifier::rlimit(60)]
#[verifier::spinoff_prover]
pub proof fn lemma_size_round_trip(op: Seq<char>, val: u64)
    requires
        op == "=="@ || op == "!="@ || op == "<="@ || op == ">="@ || op == "<"@ || op == ">"@,
    ensures
        spec_parse_expr(spec_cond_text(CondView::Size { op, val: val as nat }))
            == ExprOutcome::Conds(seq![CondView::Size { op, val: val as nat }]),
{
    lemma_op_distinct();
    lemma_size_text_shape(op, val);
    lemma_size_dispatch(op, val);
    let cv = CondView::Size { op, val: val as nat };
    let s = size_text(op, val);
    let ops = cmp_ops();
    assert(ops[0] == "=="@ && ops[1] == "!="@ && ops[2] == "<="@ && ops[3] == ">="@ && ops[4]
        == "<"@ && ops[5] == ">"@);
    assert(ops.drop_first() =~= ops.skip(1));
    assert(ops.skip(1).drop_first() =~= ops.skip(2));
    assert(ops.skip(2).drop_first() =~= ops.skip(3));
    assert(ops.skip(3).drop_first() =~= ops.skip(4));
    assert(ops.skip(4).drop_first() =~= ops.skip(5));
    assert(ops.skip(1)[0] == "!="@ && ops.skip(2)[0] == "<="@ && ops.skip(3)[0] == ">="@
        && ops.skip(4)[0] == "<"@ && ops.skip(5)[0] == ">"@);
    assert(ops.skip(1).len() == 5 && ops.skip(2).len() == 4 && ops.skip(3).len() == 3
        && ops.skip(4).len() == 2 && ops.skip(5).len() == 1);
    if op == "=="@ {
        lemma_size_finds_eq(op, val);
        assert(spec_parse_ops(s, ops) == CondOutcome::Cond(cv));
    } else if op == "!="@ {
        lemma_size_finds_ne(op, val);
        assert(spec_parse_ops(s, ops) == spec_parse_ops(s, ops.skip(1)));
        assert(spec_parse_ops(s, ops.skip(1)) == CondOutcome::Cond(cv));
    } else if op == "<="@ {
        lemma_size_finds_le(op, val);
        assert(spec_parse_ops(s, ops) == spec_parse_ops(s, ops.skip(1)));
        assert(spec_parse_ops(s, ops.skip(1)) == spec_parse_ops(s, ops.skip(2)));
        assert(spec_parse_ops(s, ops.skip(2)) == CondOutcome::Cond(cv));
    } else if op == ">="@ {
        lemma_size_finds_ge(op, val);
        assert(spec_parse_ops(s, ops) == spec_parse_ops(s, ops.skip(1)));
        assert(spec_parse_ops(s, ops.skip(1)) == spec_parse_ops(s, ops.skip(2)));
        assert(spec_parse_ops(s, ops.skip(2)) == spec_parse_ops(s, ops.skip(3)));
        assert(spec_parse_ops(s, ops.skip(3)) == CondOutcome::Cond(cv));
    } else if op == "<"@ {
        lemma_size_finds_lt(op, val);
        assert(spec_parse_ops(s, ops) == spec_parse_ops(s, ops.skip(1)));
        assert(spec_parse_ops(s, ops.skip(1)) == spec_parse_ops(s, ops.skip(2)));
        assert(spec_parse_ops(s, ops.skip(2)) == spec_parse_ops(s, ops.skip(3)));
        assert(spec_parse_ops(s, ops.skip(3)) == spec_parse_ops(s, ops.skip(4)));
        assert(spec_parse_ops(s, ops.skip(4)) == CondOutcome::Cond(cv));
    } else {
        lemma_size_finds_gt(op, val);
        assert(spec_parse_ops(s, ops) == spec_parse_ops(s, ops.skip(1)));
        assert(spec_parse_ops(s, ops.skip(1)) == spec_parse_ops(s, ops.skip(2)));
        assert(spec_parse_ops(s, ops.skip(2)) == spec_parse_ops(s, ops.skip(3)));
        assert(spec_parse_ops(s, ops.skip(3)) == spec_parse_ops(s, ops.skip(4)));
        assert(spec_parse_ops(s, ops.skip(4)) == spec_parse_ops(s, ops.skip(5)));
        assert(spec_parse_ops(s, ops.skip(5)) == CondOutcome::Cond(cv));
    }
    assert(spec_parse_ops(s, cmp_ops()) == CondOutcome::Cond(cv));
    assert(spec_parse_cond(s) == CondOutcome::Cond(cv)) by {
        assert(spec_trim(s) == s);
        assert(spec_parse_like(s) == spec_parse_ops(s, cmp_ops()));
    }
    assert(text::spec_split(s, " and "@) =~= seq![s]) by {
        reveal_strlit(" and ");
    }
    let parts = seq![s];
    assert(spec_parse_parts(parts) == ExprOutcome::Conds(seq![cv])) by {
        assert(parts[0] == s);
        assert(spec_trim(parts[0]).len() != 0) by {
            assert(s.len() > 0);
        }
        assert(parts.drop_first() =~= Seq::<Seq<char>>::empty());
        assert(spec_parse_parts(parts.drop_first()) == ExprOutcome::Conds(Seq::empty()));
        assert(seq![cv] + Seq::<CondView>::empty() =~= seq![cv]);
    }
    assert(spec_parse_expr(s) == ExprOutcome::Conds(seq![cv]));
}

} // verus!

verus! {

} // verus!
