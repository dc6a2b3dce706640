//! Plain-text forms of values: decimal numbers, quoting, joining, and the
//! short and full (budget-checked) single-line forms of a value.

use vstd::prelude::*;
use vstd::string::StrSliceExecFns;
use vstd::string::StringExecFns;

use crate::value::Value;

verus! {

/// The character for one decimal digit.
pub open spec fn digit_char(d: int) -> char {
    if d == 0 {
        '0'
    } else if d == 1 {
        '1'
    } else if d == 2 {
        '2'
    } else if d == 3 {
        '3'
    } else if d == 4 {
        '4'
    } else if d == 5 {
        '5'
    } else if d == 6 {
        '6'
    } else if d == 7 {
        '7'
    } else if d == 8 {
        '8'
    } else {
        '9'
    }
}

/// The decimal digit string of a natural number, most significant first.
pub open spec fn dec_digits(n: nat) -> Seq<char>
    decreases n,
{
    if n < 10 {
        seq![digit_char(n as int)]
    } else {
        dec_digits(n / 10).push(digit_char((n % 10) as int))
    }
}

/// The decimal form of an integer, with a leading minus sign when negative.
pub open spec fn int_text(n: int) -> Seq<char> {
    if n < 0 {
        seq!['-'] + dec_digits((-n) as nat)
    } else {
        dec_digits(n as nat)
    }
}

/// The text of a boolean.
pub open spec fn bool_text(b: bool) -> Seq<char> {
    if b {
        ("true")@
    } else {
        ("false")@
    }
}

/// A string wrapped in double quotes.
pub open spec fn quoted(s: Seq<char>) -> Seq<char> {
    seq!['"'] + s + seq!['"']
}

/// A run of spaces.
pub open spec fn spaces_text(n: nat) -> Seq<char>
    decreases n,
{
    if n == 0 {
        Seq::empty()
    } else {
        spaces_text((n - 1) as nat).push(' ')
    }
}

/// Addition capped at the machine word, as the saturating operations compute it.
pub open spec fn sat_add(a: nat, b: nat) -> nat {
    if a + b <= usize::MAX {
        (a + b) as nat
    } else {
        usize::MAX as nat
    }
}

/// The one-line string literal for a single decimal digit.
fn digit_literal(d: u64) -> (r: &'static str)
    requires
        d < 10,
    ensures
        r@ == seq![digit_char(d as int)],
{
    let r: &'static str = if d == 0 {
        "0"
    } else if d == 1 {
        "1"
    } else if d == 2 {
        "2"
    } else if d == 3 {
        "3"
    } else if d == 4 {
        "4"
    } else if d == 5 {
        "5"
    } else if d == 6 {
        "6"
    } else if d == 7 {
        "7"
    } else if d == 8 {
        "8"
    } else {
        "9"
    };
    proof {
        reveal_strlit("0");
        reveal_strlit("1");
        reveal_strlit("2");
        reveal_strlit("3");
        reveal_strlit("4");
        reveal_strlit("5");
        reveal_strlit("6");
        reveal_strlit("7");
        reveal_strlit("8");
        reveal_strlit("9");
        assert(r@ =~= seq![digit_char(d as int)]);
    }
    r
}

/// Appends the decimal digits of `n`.
fn append_u64(s: &mut String, n: u64)
    ensures
        final(s)@ == old(s)@ + dec_digits(n as nat),
    decreases n,
{
    if n >= 10 {
        append_u64(s, n / 10);
    }
    let d = digit_literal(n % 10);
    s.append(d);
    proof {
        if n >= 10 {
            assert(final(s)@ =~= old(s)@ + dec_digits(n as nat));
        } else {
            assert(final(s)@ =~= old(s)@ + dec_digits(n as nat));
        }
    }
}

/// A decimal digit string is non-empty, all digits, and free of a leading
/// zero except on zero itself.
pub proof fn lemma_dec_digits_canonical(n: nat)
    ensures
        dec_digits(n).len() >= 1,
        forall|i: int| 0 <= i < dec_digits(n).len() ==> '0' <= #[trigger] dec_digits(n)[i] <= '9',
        n > 0 ==> dec_digits(n)[0] != '0',
    decreases n,
{
    if n < 10 {
        assert('0' <= digit_char(n as int) <= '9');
        assert(n > 0 ==> digit_char(n as int) != '0');
    } else {
        lemma_dec_digits_canonical(n / 10);
        assert('0' <= digit_char((n % 10) as int) <= '9');
        assert forall|i: int|
            0 <= i < dec_digits(n).len() implies '0' <= #[trigger] dec_digits(n)[i] <= '9' by {
            if i < dec_digits(n / 10).len() {
                assert(dec_digits(n)[i] == dec_digits(n / 10)[i]);
            }
        }
    }
}

/// The decimal form of any integer is canonical.
pub proof fn lemma_int_text_canonical(n: int)
    ensures
        crate::value::canonical_int_text(int_text(n)),
{
    if n < 0 {
        lemma_dec_digits_canonical((-n) as nat);
        assert(int_text(n).drop_first() =~= dec_digits((-n) as nat));
    } else {
        lemma_dec_digits_canonical(n as nat);
        assert(int_text(n)[0] != '-');
    }
}

/// The decimal string of an unsigned machine integer.
pub fn u64_string(n: u64) -> (s: String)
    ensures
        s@ == dec_digits(n as nat),
        crate::value::canonical_int_text(s@),
{
    let mut s = String::new();
    append_u64(&mut s, n);
    proof {
        assert(s@ =~= dec_digits(n as nat));
        lemma_int_text_canonical(n as int);
    }
    s
}

/// The decimal string of a length or index.
pub fn usize_string(n: usize) -> (s: String)
    ensures
        s@ == dec_digits(n as nat),
{
    u64_string(n as u64)
}

/// The decimal string of a signed machine integer.
pub fn i64_string(n: i64) -> (s: String)
    ensures
        s@ == int_text(n as int),
        crate::value::canonical_int_text(s@),
{
    proof {
        lemma_int_text_canonical(n as int);
    }
    if n < 0 {
        let mut s = String::from_str("-");
        let m: u64 = (-(n as i128)) as u64;
        append_u64(&mut s, m);
        proof {
            reveal_strlit("-");
            assert(s@ =~= int_text(n as int));
        }
        s
    } else {
        let s = u64_string(n as u64);
        s
    }
}

/// A copy of `s` wrapped in double quotes.
pub fn quote_string(s: &String) -> (r: String)
    ensures
        r@ == quoted(s@),
{
    let mut r = String::from_str("\"");
    r.append(s.as_str());
    r.append("\"");
    proof {
        reveal_strlit("\"");
        assert(r@ =~= quoted(s@));
    }
    r
}

/// The display columns of one character: two for the wide East Asian
/// blocks (Hangul Jamo, CJK and kana ranges, Hangul syllables, compatibility
/// ideographs, wide and full-width forms), one for everything else.
pub open spec fn char_cols(c: char) -> nat {
    let u = c as u32;
    if (0x1100 <= u && u <= 0x115F) || (0x2E80 <= u && u <= 0x303E) || (0x3041 <= u && u
        <= 0x33FF) || (0x3400 <= u && u <= 0x4DBF) || (0x4E00 <= u && u <= 0x9FFF) || (0xA000
        <= u && u <= 0xA4CF) || (0xAC00 <= u && u <= 0xD7A3) || (0xF900 <= u && u <= 0xFAFF) || (
    0xFE30 <= u && u <= 0xFE4F) || (0xFF00 <= u && u <= 0xFF60) || (0xFFE0 <= u && u <= 0xFFE6)
        || (0x20000 <= u && u <= 0x2FFFD) || (0x30000 <= u && u <= 0x3FFFD) {
        2
    } else {
        1
    }
}

/// The display columns of a string: its characters' columns summed.
pub open spec fn text_cols(s: Seq<char>) -> nat
    decreases s.len(),
{
    if s.len() == 0 {
        0
    } else {
        text_cols(s.drop_last()) + char_cols(s.last())
    }
}

/// The display columns of one character.
fn char_columns(c: char) -> (w: usize)
    ensures
        w as nat == char_cols(c),
{
    let u = c as u32;
    if (0x1100 <= u && u <= 0x115F) || (0x2E80 <= u && u <= 0x303E) || (0x3041 <= u && u
        <= 0x33FF) || (0x3400 <= u && u <= 0x4DBF) || (0x4E00 <= u && u <= 0x9FFF) || (0xA000
        <= u && u <= 0xA4CF) || (0xAC00 <= u && u <= 0xD7A3) || (0xF900 <= u && u <= 0xFAFF) || (
    0xFE30 <= u && u <= 0xFE4F) || (0xFF00 <= u && u <= 0xFF60) || (0xFFE0 <= u && u <= 0xFFE6)
        || (0x20000 <= u && u <= 0x2FFFD) || (0x30000 <= u && u <= 0x3FFFD) {
        2
    } else {
        1
    }
}

/// The number of display columns of a string.
#[verifier::loop_isolation(false)]
pub fn text_width(s: &String) -> (w: u128)
    ensures
        w == text_cols(s@),
{
    let st = s.as_str();
    let n = st.unicode_len();
    let mut w: u128 = 0;
    let mut i: usize = 0;
    while i < n
        invariant
            n as nat == s@.len(),
            i <= n,
            w == text_cols(s@.take(i as int)),
            w <= 2 * (i as u128),
        decreases n - i,
    {
        let c = st.get_char(i);
        let cw = char_columns(c);
        proof {
            assert(s@.take(i + 1).drop_last() =~= s@.take(i as int));
            assert(s@.take(i + 1).last() == s@[i as int]);
        }
        w = w + cw as u128;
        i += 1;
    }
    proof {
        assert(s@.take(n as int) =~= s@);
    }
    w
}

/// The short placeholder form of a value: atoms in full, collections elided.
pub open spec fn short_text(v: Value) -> Seq<char> {
    match v {
        Value::Bool(b) => bool_text(b),
        Value::Number(n) => int_text(n as int),
        Value::BigInt(d) => d@,
        Value::Text(s) => quoted(s@),
        Value::Record(_) => ("{...}")@,
        Value::Mapping(_) => ("Map(...)")@,
        Value::SetOf(_) => ("{...}")@,
        Value::List(_) => ("[...]")@,
        Value::Tuple(_) => ("(...)")@,
        Value::Unserializable(_) => ("<?>")@,
    }
}

/// Builds the short placeholder form of a value.
pub fn format_value_short(value: &Value) -> (r: String)
    ensures
        r@ == short_text(*value),
{
    match value {
        Value::Bool(b) => {
            if *b {
                String::from_str("true")
            } else {
                String::from_str("false")
            }
        },
        Value::Number(n) => i64_string(*n),
        Value::BigInt(d) => crate::value::clone_string(d),
        Value::Text(s) => quote_string(s),
        Value::Record(_) => String::from_str("{...}"),
        Value::Mapping(_) => String::from_str("Map(...)"),
        Value::SetOf(_) => String::from_str("{...}"),
        Value::List(_) => String::from_str("[...]"),
        Value::Tuple(_) => String::from_str("(...)"),
        Value::Unserializable(_) => String::from_str("<?>"),
    }
}

/// Whether a value is atomic: renderable on one short line with no structure.
pub open spec fn is_simple(v: Value) -> bool {
    match v {
        Value::Bool(_) => true,
        Value::Number(_) => true,
        Value::BigInt(_) => true,
        Value::Text(_) => true,
        _ => false,
    }
}

/// Decides whether a value is atomic.
pub fn value_is_simple(value: &Value) -> (r: bool)
    ensures
        r == is_simple(*value),
{
    match value {
        Value::Bool(_) => true,
        Value::Number(_) => true,
        Value::BigInt(_) => true,
        Value::Text(_) => true,
        _ => false,
    }
}

/// Whether every element of a sequence is atomic.
pub open spec fn all_simple(items: Seq<Value>) -> bool {
    forall|i: int| 0 <= i < items.len() ==> is_simple(items[i])
}

/// Decides whether every element is atomic.
pub fn values_all_simple(items: &Vec<Value>) -> (r: bool)
    ensures
        r == all_simple(items@),
{
    let mut i: usize = 0;
    while i < items.len()
        invariant
            i <= items@.len(),
            forall|k: int| 0 <= k < i ==> is_simple(items@[k]),
        decreases items@.len() - i,
    {
        if !value_is_simple(&items[i]) {
            return false;
        }
        i += 1;
    }
    true
}

/// The first `count` short element forms, joined with a comma and a space.
pub open spec fn short_join_upto(items: Seq<Value>, count: int) -> Seq<char>
    decreases count,
{
    if count <= 0 {
        Seq::empty()
    } else if count == 1 {
        short_text(items[0])
    } else {
        short_join_upto(items, count - 1) + (", ")@ + short_text(items[count - 1])
    }
}

/// Joins the short forms of all elements, wrapped in the given brackets, when
/// the join fits the budget.
pub open spec fn inline_join(items: Seq<Value>, open_b: Seq<char>, close_b: Seq<char>, max: nat) -> Option<
    Seq<char>,
> {
    let joined = short_join_upto(items, items.len() as int);
    if text_cols(joined) <= max {
        Some(open_b + joined + close_b)
    } else {
        None
    }
}

/// Builds the joined short forms of a collection inside brackets, or nothing
/// when the join exceeds the budget.
pub fn format_collection_inline(
    items: &Vec<Value>,
    open_b: &str,
    close_b: &str,
    max_len: usize,
) -> (r: Option<String>)
    ensures
        (r is Some) == (inline_join(items@, open_b@, close_b@, max_len as nat) is Some),
        r matches Some(s) ==> inline_join(items@, open_b@, close_b@, max_len as nat) matches Some(
            t,
        ) && s@ == t,
{
    let mut joined = String::new();
    let mut i: usize = 0;
    while i < items.len()
        invariant
            i <= items@.len(),
            joined@ == short_join_upto(items@, i as int),
        decreases items@.len() - i,
    {
        if i > 0 {
            joined.append(", ");
            proof {
                reveal_strlit(", ");
            }
        }
        let part = format_value_short(&items[i]);
        joined.append(part.as_str());
        proof {
            if i == 0 {
                assert(joined@ =~= short_join_upto(items@, i + 1));
            } else {
                assert(joined@ =~= short_join_upto(items@, i + 1));
            }
        }
        i += 1;
    }
    if text_width(&joined) <= max_len as u128 {
        let mut r = String::from_str(open_b);
        r.append(joined.as_str());
        r.append(close_b);
        proof {
            assert(r@ =~= open_b@ + short_join_upto(items@, items@.len() as int) + close_b@);
        }
        Some(r)
    } else {
        None
    }
}

/// The budget check every full form passes through: the text itself when
/// its display columns fit, nothing otherwise.
pub open spec fn fit_opt(s: Seq<char>, max: nat) -> Option<Seq<char>> {
    if text_cols(s) <= max {
        Some(s)
    } else {
        None
    }
}

/// The full forms of the first `count` elements joined with a comma, or
/// nothing when any element has no full form.
pub open spec fn full_items_upto(items: Seq<Value>, count: int, max: nat) -> Option<Seq<char>>
    decreases items, count,
{
    if count <= 0 || count > items.len() {
        Some(Seq::empty())
    } else {
        match (full_items_upto(items, count - 1, max), full_text(items[count - 1], max)) {
            (Some(acc), Some(f)) => Some(
                if count == 1 {
                    f
                } else {
                    acc + (", ")@ + f
                },
            ),
            _ => None,
        }
    }
}

/// The `name: value` full forms of the first `count` record fields joined
/// with a comma, or nothing when any field value has no full form.
pub open spec fn full_fields_upto(fields: Seq<(String, Value)>, count: int, max: nat) -> Option<
    Seq<char>,
>
    decreases fields, count,
{
    if count <= 0 || count > fields.len() {
        Some(Seq::empty())
    } else {
        match (full_fields_upto(fields, count - 1, max), full_text(fields[count - 1].1, max)) {
            (Some(acc), Some(f)) => Some(
                {
                    let part = fields[count - 1].0@ + (": ")@ + f;
                    if count == 1 {
                        part
                    } else {
                        acc + (", ")@ + part
                    }
                },
            ),
            _ => None,
        }
    }
}

/// The `key -> value` full forms of the first `count` entries joined with a
/// comma, or nothing when any key or value has no full form.
pub open spec fn full_pairs_upto(pairs: Seq<(Value, Value)>, count: int, max: nat) -> Option<
    Seq<char>,
>
    decreases pairs, count,
{
    if count <= 0 || count > pairs.len() {
        Some(Seq::empty())
    } else {
        match (
            full_pairs_upto(pairs, count - 1, max),
            full_text(pairs[count - 1].0, max),
            full_text(pairs[count - 1].1, max),
        ) {
            (Some(acc), Some(fk), Some(fv)) => Some(
                {
                    let part = fk + (" -> ")@ + fv;
                    if count == 1 {
                        part
                    } else {
                        acc + (", ")@ + part
                    }
                },
            ),
            _ => None,
        }
    }
}

/// The full single-line form of a value within a column budget: every level
/// of the result observes the same budget, and a value with no such form
/// (too wide, or opaque) yields nothing.
pub open spec fn full_text(v: Value, max: nat) -> Option<Seq<char>>
    decreases v, 1int,
{
    match v {
        Value::Bool(b) => fit_opt(bool_text(b), max),
        Value::Number(n) => fit_opt(int_text(n as int), max),
        Value::BigInt(d) => fit_opt(d@, max),
        Value::Text(s) => fit_opt(quoted(s@), max),
        Value::Record(fs) => {
            if fs@.len() == 0 {
                fit_opt(("{}")@, max)
            } else {
                match full_fields_upto(fs@, fs@.len() as int, max) {
                    Some(j) => fit_opt(("{")@ + j + ("}")@, max),
                    None => None,
                }
            }
        },
        Value::Mapping(ps) => {
            if ps@.len() == 0 {
                fit_opt(("Map()")@, max)
            } else {
                match full_pairs_upto(ps@, ps@.len() as int, max) {
                    Some(j) => fit_opt(("Map(")@ + j + (")")@, max),
                    None => None,
                }
            }
        },
        Value::SetOf(items) => match full_items_upto(items@, items@.len() as int, max) {
            Some(j) => fit_opt(("{")@ + j + ("}")@, max),
            None => None,
        },
        Value::List(items) => match full_items_upto(items@, items@.len() as int, max) {
            Some(j) => fit_opt(("[")@ + j + ("]")@, max),
            None => None,
        },
        Value::Tuple(items) => match full_items_upto(items@, items@.len() as int, max) {
            Some(j) => fit_opt(("(")@ + j + (")")@, max),
            None => None,
        },
        Value::Unserializable(_) => None,
    }
}

/// One element without a full form denies the whole join.
proof fn lemma_full_items_none(items: Seq<Value>, j: int, count: int, max: nat)
    requires
        0 <= j < count <= items.len(),
        full_text(items[j], max) is None,
    ensures
        full_items_upto(items, count, max) is None,
    decreases count,
{
    if j < count - 1 {
        lemma_full_items_none(items, j, count - 1, max);
    }
}

/// One field value without a full form denies the whole join.
proof fn lemma_full_fields_none(fields: Seq<(String, Value)>, j: int, count: int, max: nat)
    requires
        0 <= j < count <= fields.len(),
        full_text(fields[j].1, max) is None,
    ensures
        full_fields_upto(fields, count, max) is None,
    decreases count,
{
    if j < count - 1 {
        lemma_full_fields_none(fields, j, count - 1, max);
    }
}

/// One key or value without a full form denies the whole join.
proof fn lemma_full_pairs_none(pairs: Seq<(Value, Value)>, j: int, count: int, max: nat)
    requires
        0 <= j < count <= pairs.len(),
        full_text(pairs[j].0, max) is None || full_text(pairs[j].1, max) is None,
    ensures
        full_pairs_upto(pairs, count, max) is None,
    decreases count,
{
    if j < count - 1 {
        lemma_full_pairs_none(pairs, j, count - 1, max);
    }
}

/// Returns the string when its display columns fit the budget.
fn fit(s: String, max_len: usize) -> (r: Option<String>)
    ensures
        (r is Some) == (text_cols(s@) <= max_len as nat),
        r matches Some(rs) ==> rs@ == s@,
{
    if text_width(&s) <= max_len as u128 {
        Some(s)
    } else {
        None
    }
}

/// Builds the comma-joined full forms of a value sequence, or nothing when
/// any element has no full form within the budget.
#[verifier::loop_isolation(false)]
fn format_items_joined(items: &Vec<Value>, max_len: usize) -> (r: Option<String>)
    ensures
        (r is Some) == (full_items_upto(items@, items@.len() as int, max_len as nat) is Some),
        r matches Some(s) ==> full_items_upto(items@, items@.len() as int, max_len as nat)
            matches Some(t) && s@ == t,
    decreases items@, 0int,
{
    let mut joined = String::new();
    let mut i: usize = 0;
    while i < items.len()
        invariant
            i <= items@.len(),
            full_items_upto(items@, i as int, max_len as nat) matches Some(t) && joined@ == t,
        decreases items@.len() - i,
    {
        proof {
            assert(decreases_to!(items@ => items@[i as int]));
        }
        match format_value_full(&items[i], max_len) {
            None => {
                proof {
                    lemma_full_items_none(
                        items@,
                        i as int,
                        items@.len() as int,
                        max_len as nat,
                    );
                }
                return None;
            },
            Some(f) => {
                if i > 0 {
                    joined.append(", ");
                }
                joined.append(f.as_str());
                proof {
                    assert(full_items_upto(items@, i + 1, max_len as nat) matches Some(t)
                        && joined@ =~= t);
                }
            },
        }
        i += 1;
    }
    Some(joined)
}

/// Builds the full single-line form of a value within a column budget, or
/// nothing when the value has no such form.
#[verifier::loop_isolation(false)]
pub fn format_value_full(value: &Value, max_len: usize) -> (r: Option<String>)
    ensures
        (r is Some) == (full_text(*value, max_len as nat) is Some),
        r matches Some(s) ==> full_text(*value, max_len as nat) matches Some(t) && s@ == t,
    decreases *value, 1int,
{
    match value {
        Value::Bool(b) => {
            let s = if *b {
                String::from_str("true")
            } else {
                String::from_str("false")
            };
            fit(s, max_len)
        },
        Value::Number(n) => fit(i64_string(*n), max_len),
        Value::BigInt(d) => fit(crate::value::clone_string(d), max_len),
        Value::Text(s) => fit(quote_string(s), max_len),
        Value::Record(fs) => {
            if fs.len() == 0 {
                fit(String::from_str("{}"), max_len)
            } else {
                let n = fs.len();
                let mut joined = String::new();
                let mut i: usize = 0;
                while i < n
                    invariant
                        i <= n,
                        full_fields_upto(fs@, i as int, max_len as nat) matches Some(t)
                            && joined@ == t,
                    decreases n - i,
                {
                    proof {
                        assert(decreases_to!(fs@ => fs@[i as int]));
                        assert(decreases_to!(fs@[i as int] => fs@[i as int].1));
                    }
                    match format_value_full(&fs[i].1, max_len) {
                        None => {
                            proof {
                                lemma_full_fields_none(
                                    fs@,
                                    i as int,
                                    fs@.len() as int,
                                    max_len as nat,
                                );
                            }
                            return None;
                        },
                        Some(f) => {
                            if i > 0 {
                                joined.append(", ");
                            }
                            joined.append(fs[i].0.as_str());
                            joined.append(": ");
                            joined.append(f.as_str());
                            proof {
                                assert(full_fields_upto(fs@, i + 1, max_len as nat)
                                    matches Some(t) && joined@ =~= t);
                            }
                        },
                    }
                    i += 1;
                }
                let mut raw = String::from_str("{");
                raw.append(joined.as_str());
                raw.append("}");
                proof {
                    assert(full_fields_upto(fs@, fs@.len() as int, max_len as nat)
                        matches Some(t) && raw@ =~= ("{")@ + t + ("}")@);
                }
                fit(raw, max_len)
            }
        },
        Value::Mapping(ps) => {
            if ps.len() == 0 {
                fit(String::from_str("Map()"), max_len)
            } else {
                let n = ps.len();
                let mut joined = String::new();
                let mut i: usize = 0;
                while i < n
                    invariant
                        i <= n,
                        full_pairs_upto(ps@, i as int, max_len as nat) matches Some(t)
                            && joined@ == t,
                    decreases n - i,
                {
                    proof {
                        assert(decreases_to!(ps@ => ps@[i as int]));
                        assert(decreases_to!(ps@[i as int] => ps@[i as int].0));
                        assert(decreases_to!(ps@[i as int] => ps@[i as int].1));
                    }
                    let fk = match format_value_full(&ps[i].0, max_len) {
                        None => {
                            proof {
                                lemma_full_pairs_none(
                                    ps@,
                                    i as int,
                                    ps@.len() as int,
                                    max_len as nat,
                                );
                            }
                            return None;
                        },
                        Some(fk) => fk,
                    };
                    let fv = match format_value_full(&ps[i].1, max_len) {
                        None => {
                            proof {
                                lemma_full_pairs_none(
                                    ps@,
                                    i as int,
                                    ps@.len() as int,
                                    max_len as nat,
                                );
                            }
                            return None;
                        },
                        Some(fv) => fv,
                    };
                    if i > 0 {
                        joined.append(", ");
                    }
                    joined.append(fk.as_str());
                    joined.append(" -> ");
                    joined.append(fv.as_str());
                    proof {
                        assert(full_pairs_upto(ps@, i + 1, max_len as nat) matches Some(t)
                            && joined@ =~= t);
                    }
                    i += 1;
                }
                let mut raw = String::from_str("Map(");
                raw.append(joined.as_str());
                raw.append(")");
                proof {
                    assert(full_pairs_upto(ps@, ps@.len() as int, max_len as nat)
                        matches Some(t) && raw@ =~= ("Map(")@ + t + (")")@);
                }
                fit(raw, max_len)
            }
        },
        Value::SetOf(items) => {
            proof {
                assert(decreases_to!(*value => items@));
            }
            match format_items_joined(items, max_len) {
                None => None,
                Some(joined) => {
                    let mut raw = String::from_str("{");
                    raw.append(joined.as_str());
                    raw.append("}");
                    proof {
                        assert(full_items_upto(items@, items@.len() as int, max_len as nat)
                            matches Some(t) && raw@ =~= ("{")@ + t + ("}")@);
                    }
                    fit(raw, max_len)
                },
            }
        },
        Value::List(items) => {
            proof {
                assert(decreases_to!(*value => items@));
            }
            match format_items_joined(items, max_len) {
                None => None,
                Some(joined) => {
                    let mut raw = String::from_str("[");
                    raw.append(joined.as_str());
                    raw.append("]");
                    proof {
                        assert(full_items_upto(items@, items@.len() as int, max_len as nat)
                            matches Some(t) && raw@ =~= ("[")@ + t + ("]")@);
                    }
                    fit(raw, max_len)
                },
            }
        },
        Value::Tuple(items) => {
            proof {
                assert(decreases_to!(*value => items@));
            }
            match format_items_joined(items, max_len) {
                None => None,
                Some(joined) => {
                    let mut raw = String::from_str("(");
                    raw.append(joined.as_str());
                    raw.append(")");
                    proof {
                        assert(full_items_upto(items@, items@.len() as int, max_len as nat)
                            matches Some(t) && raw@ =~= ("(")@ + t + (")")@);
                    }
                    fit(raw, max_len)
                },
            }
        },
        Value::Unserializable(_) => None,
    }
}

/// The greedy record preview: fields are taken in order while the running
/// width (capped machine addition, two columns of separator per part) stays
/// within the budget; once a part would overflow a non-empty preview, an
/// ellipsis ends it.
pub open spec fn preview_rec(
    fields: Seq<(String, Value)>,
    max: nat,
    i: int,
    total: nat,
    acc: Seq<char>,
    nonempty: bool,
) -> Seq<char>
    decreases fields.len() - i,
{
    if i < 0 || i >= fields.len() {
        acc
    } else {
        let part = fields[i].0@ + (": ")@ + short_text(fields[i].1);
        if sat_add(sat_add(total, text_cols(part)), 2) > max && nonempty {
            acc + (", ")@ + ("...")@
        } else {
            preview_rec(
                fields,
                max,
                i + 1,
                sat_add(sat_add(total, text_cols(part)), 2),
                if nonempty {
                    acc + (", ")@ + part
                } else {
                    part
                },
                true,
            )
        }
    }
}

/// The braced preview of a record, first fields in full and the rest elided.
pub open spec fn record_preview(fields: Seq<(String, Value)>, max: nat) -> Seq<char> {
    if fields.len() == 0 {
        ("{}")@
    } else {
        ("{")@ + preview_rec(fields, max, 0, 2, Seq::empty(), false) + ("}")@
    }
}

/// Builds the braced preview of a record within a column budget.
pub fn format_record_preview(fields: &Vec<(String, Value)>, max_len: usize) -> (r: String)
    ensures
        r@ == record_preview(fields@, max_len as nat),
{
    if fields.len() == 0 {
        return String::from_str("{}");
    }
    let n = fields.len();
    let mut acc = String::new();
    let mut total: usize = 2;
    let mut nonempty: bool = false;
    let mut i: usize = 0;
    while i < n
        invariant_except_break
            n == fields@.len(),
            i <= n,
            !nonempty ==> acc@ == Seq::<char>::empty(),
            preview_rec(fields@, max_len as nat, 0, 2, Seq::empty(), false) == preview_rec(
                fields@,
                max_len as nat,
                i as int,
                total as nat,
                acc@,
                nonempty,
            ),
        ensures
            acc@ == preview_rec(fields@, max_len as nat, 0, 2, Seq::empty(), false),
        decreases n - i,
    {
        let mut part = crate::value::clone_string(&fields[i].0);
        part.append(": ");
        let short = format_value_short(&fields[i].1);
        part.append(short.as_str());
        proof {
            assert(part@ =~= fields@[i as int].0@ + (": ")@ + short_text(fields@[i as int].1));
        }
        let pw128 = text_width(&part);
        let pw: usize = if pw128 > usize::MAX as u128 {
            usize::MAX
        } else {
            pw128 as usize
        };
        let t1 = if total > usize::MAX - pw {
            usize::MAX
        } else {
            total + pw
        };
        let newtotal = if t1 > usize::MAX - 2 {
            usize::MAX
        } else {
            t1 + 2
        };
        proof {
            assert(newtotal as nat == sat_add(sat_add(total as nat, text_cols(part@)), 2));
        }
        let ghost acc0 = acc@;
        if newtotal > max_len && nonempty {
            acc.append(", ");
            acc.append("...");
            proof {
                assert(acc@ =~= acc0 + (", ")@ + ("...")@);
                assert(acc@ == preview_rec(
                    fields@,
                    max_len as nat,
                    i as int,
                    total as nat,
                    acc0,
                    nonempty,
                ));
            }
            break;
        }
        if nonempty {
            acc.append(", ");
            acc.append(part.as_str());
            proof {
                assert(acc@ =~= acc0 + (", ")@ + part@);
            }
        } else {
            acc.append(part.as_str());
            proof {
                assert(acc@ =~= part@);
            }
        }
        total = newtotal;
        nonempty = true;
        i += 1;
    }
    let mut r = String::from_str("{");
    r.append(acc.as_str());
    r.append("}");
    proof {
        assert(r@ =~= record_preview(fields@, max_len as nat));
    }
    r
}

} // verus!
