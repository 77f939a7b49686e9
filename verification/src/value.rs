//! The value model: the tagged runtime representation of a JavaScript value
//! and the coercion rules between representations. This is the contract the
//! emitted target code must implement.
//!
//! Numbers are modeled on the exact-integer fragment of the double domain:
//! `NaN`, the two infinities, and the integers of magnitude at most 2^53,
//! every one of which a double holds exactly. An operation whose true
//! result lies outside that fragment (an inexact quotient, a product beyond
//! 2^53) is reported, never approximated, and the negative zero is folded
//! into zero. String order follows the UTF-16 code-unit sequences.

use vstd::prelude::*;
use vstd::math::abs;

verus! {

/// A number in the exact-integer fragment of the double domain.
#[derive(Clone, Copy, PartialEq, Eq, Structural, Debug)]
pub enum JsNum {
    Nan,
    PosInf,
    NegInf,
    Int(i64),
}

/// A JavaScript value: exactly one tag is active at a time. References
/// carry the identity of their referent, which is the basis of `===` on
/// the reference tags.
#[derive(Clone, PartialEq, Eq, Debug)]
pub enum JsValue {
    Undefined,
    Null,
    Bool(bool),
    Num(JsNum),
    Str(String),
    ObjRef(u64),
    FuncRef(u64),
    SymRef(u64),
}

/// The supported binary operators. Loose equality is deliberately absent:
/// it is outside the supported subset and rejected at lowering time.
#[derive(Clone, Copy, PartialEq, Eq, Structural, Debug)]
pub enum BinOp {
    Add,
    Sub,
    Mul,
    Div,
    Mod,
    StrictEq,
    StrictNe,
    Lt,
    Gt,
    Le,
    Ge,
}

/// Why the value model refused to produce a result.
#[derive(Clone, Copy, PartialEq, Eq, Structural, Debug)]
pub enum ValueError {
    /// The operator has no evaluation rule in the supported subset.
    UnsupportedOperator,
    /// The true result lies outside the exact-integer fragment.
    NotExactlyRepresentable,
}

/// The mathematical image of a `JsValue`: the same tags, with string
/// content abstracted to a sequence of characters. Contracts speak of
/// values through this view.
pub enum GhostValue {
    Undefined,
    Null,
    Bool(bool),
    Num(JsNum),
    Str(Seq<char>),
    ObjRef(u64),
    FuncRef(u64),
    SymRef(u64),
}

impl View for JsValue {
    type V = GhostValue;

    open spec fn view(&self) -> GhostValue {
        match self {
            JsValue::Undefined => GhostValue::Undefined,
            JsValue::Null => GhostValue::Null,
            JsValue::Bool(b) => GhostValue::Bool(*b),
            JsValue::Num(n) => GhostValue::Num(*n),
            JsValue::Str(s) => GhostValue::Str(s@),
            JsValue::ObjRef(i) => GhostValue::ObjRef(*i),
            JsValue::FuncRef(i) => GhostValue::FuncRef(*i),
            JsValue::SymRef(i) => GhostValue::SymRef(*i),
        }
    }
}

/// The decimal digit character for `d`.
pub open spec fn digit_char(d: nat) -> char {
    if d == 0 {
        '0'
    } else if d == 1 {
        '1'
    } else if d == 2 {
        '2'
    } else if d == 3 {
        '3'
    } else if d == 4 {
        '4'
    } else if d == 5 {
        '5'
    } else if d == 6 {
        '6'
    } else if d == 7 {
        '7'
    } else if d == 8 {
        '8'
    } else {
        '9'
    }
}

/// The decimal digits of `n`, most significant first.
pub open spec fn dec_digits(n: nat) -> Seq<char>
    decreases n,
{
    if n < 10 {
        seq![digit_char(n)]
    } else {
        dec_digits(n / 10).push(digit_char(n % 10))
    }
}

/// The decimal rendering of an integer, with a leading minus where negative.
pub open spec fn int_text(n: int) -> Seq<char> {
    if n < 0 {
        seq!['-'] + dec_digits((-n) as nat)
    } else {
        dec_digits(n as nat)
    }
}

/// Appends one decimal digit character to `s`.
fn push_digit(s: &mut String, d: u64)
    requires
        d < 10,
    ensures
        final(s)@ == old(s)@.push(digit_char(d as nat)),
{
    let t: &str = if d == 0 {
        "0"
    } else if d == 1 {
        "1"
    } else if d == 2 {
        "2"
    } else if d == 3 {
        "3"
    } else if d == 4 {
        "4"
    } else if d == 5 {
        "5"
    } else if d == 6 {
        "6"
    } else if d == 7 {
        "7"
    } else if d == 8 {
        "8"
    } else {
        "9"
    };
    proof {
        reveal_strlit("0");
        reveal_strlit("1");
        reveal_strlit("2");
        reveal_strlit("3");
        reveal_strlit("4");
        reveal_strlit("5");
        reveal_strlit("6");
        reveal_strlit("7");
        reveal_strlit("8");
        reveal_strlit("9");
    }
    let ghost pre = s@;
    s.append(t);
    assert(s@ =~= pre.push(digit_char(d as nat)));
}

/// Appends the decimal digits of `n` to `s`.
fn append_u64_dec(s: &mut String, n: u64)
    ensures
        final(s)@ == old(s)@ + dec_digits(n as nat),
    decreases n,
{
    let ghost pre = s@;
    if n < 10 {
        push_digit(s, n);
        assert(s@ =~= pre + dec_digits(n as nat));
    } else {
        append_u64_dec(s, n / 10);
        push_digit(s, n % 10);
        assert(s@ =~= pre + dec_digits(n as nat));
    }
}

/// The decimal rendering of `n` as an owned string.
pub fn u64_to_string(n: u64) -> (r: String)
    ensures
        r@ == dec_digits(n as nat),
{
    let mut s = String::new();
    append_u64_dec(&mut s, n);
    proof {
        assert(s@ =~= dec_digits(n as nat));
    }
    s
}

/// The decimal rendering of `n`: `int_text(n as int)` as an owned string.
pub fn i64_to_string(n: i64) -> (r: String)
    ensures
        r@ == int_text(n as int),
{
    let mut s = String::new();
    if n < 0 {
        s.append("-");
        proof {
            reveal_strlit("-");
        }
        let m: u64 = if n == i64::MIN {
            9223372036854775808u64
        } else {
            (-n) as u64
        };
        assert(m as nat == (-(n as int)) as nat);
        append_u64_dec(&mut s, m);
        assert(s@ =~= int_text(n as int));
    } else {
        append_u64_dec(&mut s, n as u64);
        assert(s@ =~= int_text(n as int));
    }
    s
}

/// The ToString coercion, total over every tag.
pub open spec fn spec_to_string(v: GhostValue) -> Seq<char> {
    match v {
        GhostValue::Undefined => "undefined"@,
        GhostValue::Null => "null"@,
        GhostValue::Bool(b) => if b {
            "true"@
        } else {
            "false"@
        },
        GhostValue::Num(n) => match n {
            JsNum::Nan => "NaN"@,
            JsNum::PosInf => "Infinity"@,
            JsNum::NegInf => "-Infinity"@,
            JsNum::Int(i) => int_text(i as int),
        },
        GhostValue::Str(s) => s,
        GhostValue::ObjRef(_) => "[object Object]"@,
        GhostValue::FuncRef(_) => "function"@,
        GhostValue::SymRef(_) => "Symbol()"@,
    }
}

/// ToString as executable code: the coercion is a total function.
pub fn to_js_string(v: &JsValue) -> (r: String)
    ensures
        r@ == spec_to_string(v@),
{
    match v {
        JsValue::Undefined => String::from_str("undefined"),
        JsValue::Null => String::from_str("null"),
        JsValue::Bool(b) => if *b {
            String::from_str("true")
        } else {
            String::from_str("false")
        },
        JsValue::Num(n) => match n {
            JsNum::Nan => String::from_str("NaN"),
            JsNum::PosInf => String::from_str("Infinity"),
            JsNum::NegInf => String::from_str("-Infinity"),
            JsNum::Int(i) => i64_to_string(*i),
        },
        JsValue::Str(s) => s.clone(),
        JsValue::ObjRef(_) => String::from_str("[object Object]"),
        JsValue::FuncRef(_) => String::from_str("function"),
        JsValue::SymRef(_) => String::from_str("Symbol()"),
    }
}

/// Whether `c` is a decimal digit character.
pub open spec fn is_digit(c: char) -> bool {
    '0' <= c && c <= '9'
}

/// The numeric value of a digit sequence, most significant first.
pub open spec fn digits_val(s: Seq<char>) -> nat
    decreases s.len(),
{
    if s.len() == 0 {
        0
    } else {
        digits_val(s.drop_last()) * 10 + (s.last() as int - '0' as int) as nat
    }
}

/// Whether `s` is one or more decimal digits.
pub open spec fn all_digits(s: Seq<char>) -> bool {
    s.len() > 0 && forall|i: int| 0 <= i < s.len() ==> is_digit(#[trigger] s[i])
}

/// The ToNumber coercion of a string, on the integer fragment: the empty
/// string is zero; an optional minus sign followed by decimal digits is
/// that integer when its magnitude is at most 2^53; everything else
/// (including numeric strings outside the fragment, which the target
/// rounds) is `NaN`.
pub open spec fn spec_str_to_num(s: Seq<char>) -> JsNum {
    if s.len() == 0 {
        JsNum::Int(0)
    } else if s[0] == '-' {
        if all_digits(s.skip(1)) && digits_val(s.skip(1)) <= 9007199254740992 {
            JsNum::Int((-(digits_val(s.skip(1)) as int)) as i64)
        } else {
            JsNum::Nan
        }
    } else {
        if all_digits(s) && digits_val(s) <= 9007199254740992 {
            JsNum::Int(digits_val(s) as i64)
        } else {
            JsNum::Nan
        }
    }
}

/// The ToNumber coercion, total over every tag.
pub open spec fn spec_to_number(v: GhostValue) -> JsNum {
    match v {
        GhostValue::Undefined => JsNum::Nan,
        GhostValue::Null => JsNum::Int(0),
        GhostValue::Bool(b) => if b {
            JsNum::Int(1)
        } else {
            JsNum::Int(0)
        },
        GhostValue::Num(n) => n,
        GhostValue::Str(s) => spec_str_to_num(s),
        GhostValue::ObjRef(_) => JsNum::Nan,
        GhostValue::FuncRef(_) => JsNum::Nan,
        GhostValue::SymRef(_) => JsNum::Nan,
    }
}

/// Reads the digit run `s[from..]` as a number, clamped at one above the
/// largest magnitude the integer fragment holds.
fn digits_value_clamped(s: &str, from: usize) -> (r: Option<u64>)
    requires
        from <= s@.len(),
        s@.len() <= usize::MAX,
    ensures
        match r {
            Some(v) => all_digits(s@.skip(from as int)) && v
                == if digits_val(s@.skip(from as int)) <= 9223372036854775808 {
                digits_val(s@.skip(from as int)) as u64
            } else {
                9223372036854775809u64
            },
            None => !all_digits(s@.skip(from as int)),
        },
{
    let n = s.unicode_len();
    if from == n {
        assert(s@.skip(from as int).len() == 0);
        return None;
    }
    let mut acc: u64 = 0;
    let mut i = from;
    while i < n
        invariant
            from <= i <= n,
            n == s@.len(),
            forall|j: int| from <= j < i ==> is_digit(#[trigger] s@[j]),
            acc == if digits_val(s@.subrange(from as int, i as int)) <= 9223372036854775808 {
                digits_val(s@.subrange(from as int, i as int))
            } else {
                9223372036854775809nat
            },
        decreases n - i,
    {
        let c = s.get_char(i);
        if c < '0' || c > '9' {
            assert(s@.skip(from as int)[i - from] == s@[i as int]);
            return None;
        }
        let d: u64 = (c as u32 as u64) - ('0' as u32 as u64);
        assert(d == s@[i as int] as nat - '0' as nat && d < 10);
        let ghost pre = s@.subrange(from as int, i as int);
        let ghost cur = s@.subrange(from as int, i + 1);
        proof {
            assert(cur.drop_last() =~= pre && cur.last() == s@[i as int]);
            assert(digits_val(cur) == digits_val(pre) * 10 + d);
        }
        let ghost vcur = digits_val(cur);
        if acc > 1844674407370955160u64 {
            proof {
                assert(digits_val(pre) >= acc);
                assert(digits_val(pre) * 10 >= 18446744073709551610);
                assert(vcur > 9223372036854775808);
            }
            acc = 9223372036854775809u64;
        } else {
            proof {
                assert(acc == digits_val(pre));
            }
            acc = acc * 10 + d;
            proof {
                assert(acc == vcur);
            }
            if acc > 9223372036854775808u64 {
                acc = 9223372036854775809u64;
            }
        }
        i = i + 1;
        proof {
            assert(cur =~= s@.subrange(from as int, i as int));
        }
    }
    assert(s@.subrange(from as int, n as int) =~= s@.skip(from as int));
    Some(acc)
}

/// ToNumber of a string as executable code, on the integer fragment.
pub fn str_to_num(s: &str) -> (r: JsNum)
    ensures
        r == spec_str_to_num(s@),
{
    let n = s.unicode_len();
    if n == 0 {
        return JsNum::Int(0);
    }
    let neg = s.get_char(0) == '-';
    let start: usize = if neg { 1 } else { 0 };
    match digits_value_clamped(s, start) {
        None => {
            if neg {
                JsNum::Nan
            } else {
                assert(s@.skip(0) =~= s@);
                JsNum::Nan
            }
        },
        Some(v) => {
            if neg {
                if v <= 9007199254740992u64 {
                    JsNum::Int(-(v as i64))
                } else {
                    JsNum::Nan
                }
            } else {
                assert(s@.skip(0) =~= s@);
                if v <= 9007199254740992u64 {
                    JsNum::Int(v as i64)
                } else {
                    JsNum::Nan
                }
            }
        },
    }
}

/// ToNumber as executable code: the coercion is a total function.
pub fn to_js_number(v: &JsValue) -> (r: JsNum)
    ensures
        r == spec_to_number(v@),
{
    match v {
        JsValue::Undefined => JsNum::Nan,
        JsValue::Null => JsNum::Int(0),
        JsValue::Bool(b) => if *b {
            JsNum::Int(1)
        } else {
            JsNum::Int(0)
        },
        JsValue::Num(n) => *n,
        JsValue::Str(s) => str_to_num(s.as_str()),
        JsValue::ObjRef(_) => JsNum::Nan,
        JsValue::FuncRef(_) => JsNum::Nan,
        JsValue::SymRef(_) => JsNum::Nan,
    }
}

/// Strict equality: tag first, then value, with no coercion. `NaN` is not
/// equal to itself; references compare by identity.
pub open spec fn spec_num_eq(x: JsNum, y: JsNum) -> bool {
    match x {
        JsNum::Nan => false,
        JsNum::PosInf => y is PosInf,
        JsNum::NegInf => y is NegInf,
        JsNum::Int(i) => y is Int && y->Int_0 == i,
    }
}

pub open spec fn spec_strict_eq(a: GhostValue, b: GhostValue) -> bool {
    match a {
        GhostValue::Undefined => b is Undefined,
        GhostValue::Null => b is Null,
        GhostValue::Bool(x) => b is Bool && b->Bool_0 == x,
        GhostValue::Num(x) => b is Num && spec_num_eq(x, b->Num_0),
        GhostValue::Str(x) => b is Str && b->Str_0 == x,
        GhostValue::ObjRef(x) => b is ObjRef && b->ObjRef_0 == x,
        GhostValue::FuncRef(x) => b is FuncRef && b->FuncRef_0 == x,
        GhostValue::SymRef(x) => b is SymRef && b->SymRef_0 == x,
    }
}

/// Strict equality on numbers as executable code.
fn num_strict_eq(x: JsNum, y: JsNum) -> (r: bool)
    ensures
        r == spec_num_eq(x, y),
{
    match x {
        JsNum::Nan => false,
        JsNum::PosInf => matches!(y, JsNum::PosInf),
        JsNum::NegInf => matches!(y, JsNum::NegInf),
        JsNum::Int(i) => match y {
            JsNum::Int(j) => i == j,
            _ => false,
        },
    }
}

/// Strict equality as executable code.
pub fn strict_eq(a: &JsValue, b: &JsValue) -> (r: bool)
    ensures
        r == spec_strict_eq(a@, b@),
{
    match a {
        JsValue::Undefined => matches!(b, JsValue::Undefined),
        JsValue::Null => matches!(b, JsValue::Null),
        JsValue::Bool(x) => match b {
            JsValue::Bool(y) => *x == *y,
            _ => false,
        },
        JsValue::Num(x) => match b {
            JsValue::Num(y) => num_strict_eq(*x, *y),
            _ => false,
        },
        JsValue::Str(x) => match b {
            JsValue::Str(y) => *x == *y,
            _ => false,
        },
        JsValue::ObjRef(x) => match b {
            JsValue::ObjRef(y) => *x == *y,
            _ => false,
        },
        JsValue::FuncRef(x) => match b {
            JsValue::FuncRef(y) => *x == *y,
            _ => false,
        },
        JsValue::SymRef(x) => match b {
            JsValue::SymRef(y) => *x == *y,
            _ => false,
        },
    }
}

/// The leading UTF-16 code unit of `c`: the character itself below
/// 0x10000, else its high surrogate.
pub open spec fn u16_lead(c: char) -> int {
    if (c as int) < 0x10000 {
        c as int
    } else {
        0xD800 + ((c as int) - 0x10000) / 1024
    }
}

/// Order on characters by their UTF-16 code-unit sequences: leading units
/// first, the trailing unit order coinciding with code-point order when
/// the leading units tie.
pub open spec fn char_lt(a: char, b: char) -> bool {
    u16_lead(a) < u16_lead(b) || (u16_lead(a) == u16_lead(b) && (a as int) < (b as int))
}

/// The character order is total: surrogates are not characters, so equal
/// leading units mean either equality or a shared high surrogate.
pub proof fn lemma_char_lt_total(a: char, b: char)
    ensures
        a == b || char_lt(a, b) || char_lt(b, a),
{
    if u16_lead(a) == u16_lead(b) && (a as int) == (b as int) {
        assert(a == b);
    }
}

/// Lexicographic order on character sequences by UTF-16 code units, the
/// order the comparison operators use when both operands are strings.
pub open spec fn lex_lt(a: Seq<char>, b: Seq<char>) -> bool
    decreases a.len(),
{
    if b.len() == 0 {
        false
    } else if a.len() == 0 {
        true
    } else if char_lt(a[0], b[0]) {
        true
    } else if char_lt(b[0], a[0]) {
        false
    } else {
        lex_lt(a.skip(1), b.skip(1))
    }
}

proof fn lemma_lex_skip(a: Seq<char>, b: Seq<char>, i: int)
    requires
        0 <= i <= a.len(),
        i <= b.len(),
        forall|j: int| 0 <= j < i ==> a[j] == b[j],
    ensures
        lex_lt(a, b) == lex_lt(a.skip(i), b.skip(i)),
    decreases i,
{
    if i == 0 {
        assert(a.skip(0) =~= a);
        assert(b.skip(0) =~= b);
    } else {
        assert(a.len() > 0 && b.len() > 0 && a[0] == b[0]);
        lemma_lex_skip(a.skip(1), b.skip(1), i - 1);
        assert(a.skip(1).skip(i - 1) =~= a.skip(i));
        assert(b.skip(1).skip(i - 1) =~= b.skip(i));
    }
}

/// The character order as executable code.
fn char_lt_exec(a: char, b: char) -> (r: bool)
    ensures
        r == char_lt(a, b),
{
    let la: u32 = if (a as u32) < 0x10000 {
        a as u32
    } else {
        0xD800 + ((a as u32) - 0x10000) / 1024
    };
    let lb: u32 = if (b as u32) < 0x10000 {
        b as u32
    } else {
        0xD800 + ((b as u32) - 0x10000) / 1024
    };
    la < lb || (la == lb && (a as u32) < (b as u32))
}

/// Lexicographic comparison as executable code.
pub fn str_lex_lt(a: &str, b: &str) -> (r: bool)
    ensures
        r == lex_lt(a@, b@),
{
    let la = a.unicode_len();
    let lb = b.unicode_len();
    let m = if la < lb { la } else { lb };
    let mut i: usize = 0;
    while i < m
        invariant
            0 <= i <= m,
            m == if la < lb { la as int } else { lb as int },
            la == a@.len() && lb == b@.len(),
            forall|j: int| 0 <= j < i ==> a@[j] == b@[j],
        decreases m - i,
    {
        let ca = a.get_char(i);
        let cb = b.get_char(i);
        if (ca as u32) != (cb as u32) {
            proof {
                lemma_lex_skip(a@, b@, i as int);
                lemma_char_lt_total(a@[i as int], b@[i as int]);
            }
            return char_lt_exec(ca, cb);
        }
        proof {
            assert(a@[i as int] as u32 == b@[i as int] as u32);
            assert(a@[i as int] == b@[i as int]);
        }
        i = i + 1;
    }
    proof {
        lemma_lex_skip(a@, b@, m as int);
    }
    la < lb
}

/// Numeric order on the integer fragment: false wherever `NaN` appears.
pub open spec fn spec_num_lt(x: JsNum, y: JsNum) -> bool {
    match (x, y) {
        (JsNum::Nan, _) => false,
        (_, JsNum::Nan) => false,
        (JsNum::NegInf, JsNum::NegInf) => false,
        (JsNum::NegInf, _) => true,
        (_, JsNum::NegInf) => false,
        (JsNum::PosInf, _) => false,
        (_, JsNum::PosInf) => true,
        (JsNum::Int(a), JsNum::Int(b)) => a < b,
    }
}

/// Numeric non-strict order: false wherever `NaN` appears.
pub open spec fn spec_num_le(x: JsNum, y: JsNum) -> bool {
    match (x, y) {
        (JsNum::Nan, _) => false,
        (_, JsNum::Nan) => false,
        _ => x == y || spec_num_lt(x, y),
    }
}

/// Whether `n` lies in the exact-integer fragment: magnitude at most 2^53.
pub open spec fn in_fragment(n: int) -> bool {
    -9007199254740992 <= n <= 9007199254740992
}

/// Addition on the integer fragment: `None` where the true sum is not
/// exactly representable.
pub open spec fn spec_num_add(x: JsNum, y: JsNum) -> Option<JsNum> {
    match (x, y) {
        (JsNum::Nan, _) => Some(JsNum::Nan),
        (_, JsNum::Nan) => Some(JsNum::Nan),
        (JsNum::PosInf, JsNum::NegInf) => Some(JsNum::Nan),
        (JsNum::NegInf, JsNum::PosInf) => Some(JsNum::Nan),
        (JsNum::PosInf, _) => Some(JsNum::PosInf),
        (_, JsNum::PosInf) => Some(JsNum::PosInf),
        (JsNum::NegInf, _) => Some(JsNum::NegInf),
        (_, JsNum::NegInf) => Some(JsNum::NegInf),
        (JsNum::Int(a), JsNum::Int(b)) => if in_fragment(a + b) {
            Some(JsNum::Int((a + b) as i64))
        } else {
            None
        },
    }
}

/// Subtraction on the integer fragment.
pub open spec fn spec_num_sub(x: JsNum, y: JsNum) -> Option<JsNum> {
    match (x, y) {
        (JsNum::Nan, _) => Some(JsNum::Nan),
        (_, JsNum::Nan) => Some(JsNum::Nan),
        (JsNum::PosInf, JsNum::PosInf) => Some(JsNum::Nan),
        (JsNum::NegInf, JsNum::NegInf) => Some(JsNum::Nan),
        (JsNum::PosInf, _) => Some(JsNum::PosInf),
        (JsNum::NegInf, _) => Some(JsNum::NegInf),
        (_, JsNum::PosInf) => Some(JsNum::NegInf),
        (_, JsNum::NegInf) => Some(JsNum::PosInf),
        (JsNum::Int(a), JsNum::Int(b)) => if in_fragment(a - b) {
            Some(JsNum::Int((a - b) as i64))
        } else {
            None
        },
    }
}

/// Multiplication on the integer fragment: an infinity times zero is `NaN`,
/// otherwise signs multiply.
pub open spec fn spec_num_mul(x: JsNum, y: JsNum) -> Option<JsNum> {
    match (x, y) {
        (JsNum::Nan, _) => Some(JsNum::Nan),
        (_, JsNum::Nan) => Some(JsNum::Nan),
        (JsNum::PosInf, JsNum::PosInf) => Some(JsNum::PosInf),
        (JsNum::NegInf, JsNum::NegInf) => Some(JsNum::PosInf),
        (JsNum::PosInf, JsNum::NegInf) => Some(JsNum::NegInf),
        (JsNum::NegInf, JsNum::PosInf) => Some(JsNum::NegInf),
        (JsNum::PosInf, JsNum::Int(b)) => if b == 0 {
            Some(JsNum::Nan)
        } else if b > 0 {
            Some(JsNum::PosInf)
        } else {
            Some(JsNum::NegInf)
        },
        (JsNum::Int(a), JsNum::PosInf) => if a == 0 {
            Some(JsNum::Nan)
        } else if a > 0 {
            Some(JsNum::PosInf)
        } else {
            Some(JsNum::NegInf)
        },
        (JsNum::NegInf, JsNum::Int(b)) => if b == 0 {
            Some(JsNum::Nan)
        } else if b > 0 {
            Some(JsNum::NegInf)
        } else {
            Some(JsNum::PosInf)
        },
        (JsNum::Int(a), JsNum::NegInf) => if a == 0 {
            Some(JsNum::Nan)
        } else if a > 0 {
            Some(JsNum::NegInf)
        } else {
            Some(JsNum::PosInf)
        },
        (JsNum::Int(a), JsNum::Int(b)) => if in_fragment(a * b) {
            Some(JsNum::Int((a * b) as i64))
        } else {
            None
        },
    }
}

/// Division on the integer fragment: a finite value over an infinity is
/// zero (the negative zero folded), a nonzero value over zero is the
/// correspondingly signed infinity, zero over zero is `NaN`, and an inexact
/// integer quotient is not representable.
pub open spec fn spec_num_div(x: JsNum, y: JsNum) -> Option<JsNum> {
    match (x, y) {
        (JsNum::Nan, _) => Some(JsNum::Nan),
        (_, JsNum::Nan) => Some(JsNum::Nan),
        (JsNum::PosInf, JsNum::PosInf) => Some(JsNum::Nan),
        (JsNum::PosInf, JsNum::NegInf) => Some(JsNum::Nan),
        (JsNum::NegInf, JsNum::PosInf) => Some(JsNum::Nan),
        (JsNum::NegInf, JsNum::NegInf) => Some(JsNum::Nan),
        (JsNum::PosInf, JsNum::Int(b)) => if b >= 0 {
            Some(JsNum::PosInf)
        } else {
            Some(JsNum::NegInf)
        },
        (JsNum::NegInf, JsNum::Int(b)) => if b >= 0 {
            Some(JsNum::NegInf)
        } else {
            Some(JsNum::PosInf)
        },
        (JsNum::Int(_), JsNum::PosInf) => Some(JsNum::Int(0)),
        (JsNum::Int(_), JsNum::NegInf) => Some(JsNum::Int(0)),
        (JsNum::Int(a), JsNum::Int(b)) => if b == 0 {
            if a == 0 {
                Some(JsNum::Nan)
            } else if a > 0 {
                Some(JsNum::PosInf)
            } else {
                Some(JsNum::NegInf)
            }
        } else {
            let q = abs(a as int) / abs(b as int);
            if abs(a as int) % abs(b as int) != 0 {
                None
            } else if q > 9007199254740992 {
                None
            } else if (a < 0) != (b < 0) {
                Some(JsNum::Int((-q) as i64))
            } else {
                Some(JsNum::Int(q as i64))
            }
        },
    }
}

/// The remainder with the dividend's sign, as the `%` of the language has
/// it on integers.
pub open spec fn js_rem(a: int, b: int) -> int {
    if a < 0 {
        -((abs(a) % abs(b)) as int)
    } else {
        (abs(a) % abs(b)) as int
    }
}

/// Remainder on the integer fragment: an infinite dividend or a zero
/// divisor is `NaN`; a finite dividend is returned unchanged over an
/// infinity; integer remainders carry the dividend's sign and are exact.
pub open spec fn spec_num_mod(x: JsNum, y: JsNum) -> Option<JsNum> {
    match (x, y) {
        (JsNum::Nan, _) => Some(JsNum::Nan),
        (_, JsNum::Nan) => Some(JsNum::Nan),
        (JsNum::PosInf, _) => Some(JsNum::Nan),
        (JsNum::NegInf, _) => Some(JsNum::Nan),
        (JsNum::Int(a), JsNum::PosInf) => Some(JsNum::Int(a)),
        (JsNum::Int(a), JsNum::NegInf) => Some(JsNum::Int(a)),
        (JsNum::Int(a), JsNum::Int(b)) => if b == 0 {
            Some(JsNum::Nan)
        } else if in_fragment(js_rem(a as int, b as int)) {
            Some(JsNum::Int(js_rem(a as int, b as int) as i64))
        } else {
            None
        },
    }
}

/// `Some(n)` exactly where `n` lies in the fragment.
fn in_fragment_exec(n: i64) -> (r: Option<JsNum>)
    ensures
        r == if in_fragment(n as int) {
            Some(JsNum::Int(n))
        } else {
            None::<JsNum>
        },
{
    if -9007199254740992i64 <= n && n <= 9007199254740992i64 {
        Some(JsNum::Int(n))
    } else {
        None
    }
}

/// The magnitude of `n` as an unsigned word.
fn abs_u64(n: i64) -> (r: u64)
    ensures
        r as nat == abs(n as int),
{
    if n == i64::MIN {
        9223372036854775808u64
    } else if n < 0 {
        (-n) as u64
    } else {
        n as u64
    }
}

/// Arithmetic on the integer fragment as executable code.
pub fn num_binop(op: BinOp, x: JsNum, y: JsNum) -> (r: Option<JsNum>)
    requires
        op == BinOp::Add || op == BinOp::Sub || op == BinOp::Mul || op == BinOp::Div || op
            == BinOp::Mod,
    ensures
        op == BinOp::Add ==> r == spec_num_add(x, y),
        op == BinOp::Sub ==> r == spec_num_sub(x, y),
        op == BinOp::Mul ==> r == spec_num_mul(x, y),
        op == BinOp::Div ==> r == spec_num_div(x, y),
        op == BinOp::Mod ==> r == spec_num_mod(x, y),
{
    match (x, y) {
        (JsNum::Int(a), JsNum::Int(b)) => match op {
            BinOp::Add => match a.checked_add(b) {
                Some(c) => in_fragment_exec(c),
                None => None,
            },
            BinOp::Sub => match a.checked_sub(b) {
                Some(c) => in_fragment_exec(c),
                None => None,
            },
            BinOp::Mul => match a.checked_mul(b) {
                Some(c) => in_fragment_exec(c),
                None => None,
            },
            BinOp::Div => {
                if b == 0 {
                    if a == 0 {
                        Some(JsNum::Nan)
                    } else if a > 0 {
                        Some(JsNum::PosInf)
                    } else {
                        Some(JsNum::NegInf)
                    }
                } else {
                    let au = abs_u64(a);
                    let bu = abs_u64(b);
                    proof {
                        assert(au as int == abs(a as int));
                        assert(bu as int == abs(b as int));
                        assert(bu > 0);
                    }
                    if au % bu != 0 {
                        proof {
                            assert(abs(a as int) % abs(b as int) != 0);
                            assert(spec_num_div(x, y) is None);
                        }
                        None
                    } else {
                        let q = au / bu;
                        proof {
                            assert(q as int == abs(a as int) / abs(b as int));
                            assert(abs(a as int) % abs(b as int) == 0);
                        }
                        if q > 9007199254740992u64 {
                            proof {
                                assert(spec_num_div(x, y) is None);
                            }
                            None
                        } else if (a < 0) != (b < 0) {
                            Some(JsNum::Int(-(q as i64)))
                        } else {
                            Some(JsNum::Int(q as i64))
                        }
                    }
                }
            },
            BinOp::Mod => {
                if b == 0 {
                    Some(JsNum::Nan)
                } else {
                    let au = abs_u64(a);
                    let bu = abs_u64(b);
                    let m = au % bu;
                    if m > 9007199254740992u64 {
                        None
                    } else if a < 0 {
                        if m == 0 {
                            Some(JsNum::Int(0))
                        } else {
                            Some(JsNum::Int(-(m as i64)))
                        }
                    } else {
                        Some(JsNum::Int(m as i64))
                    }
                }
            },
            _ => None,
        },
        _ => {
            match op {
                BinOp::Add => num_binop_noninteger_add(x, y),
                BinOp::Sub => num_binop_noninteger_sub(x, y),
                BinOp::Mul => num_binop_noninteger_mul(x, y),
                BinOp::Div => num_binop_noninteger_div(x, y),
                _ => num_binop_noninteger_mod(x, y),
            }
        },
    }
}

fn num_binop_noninteger_add(x: JsNum, y: JsNum) -> (r: Option<JsNum>)
    requires
        !(x is Int && y is Int),
    ensures
        r == spec_num_add(x, y),
{
    match (x, y) {
        (JsNum::Nan, _) => Some(JsNum::Nan),
        (_, JsNum::Nan) => Some(JsNum::Nan),
        (JsNum::PosInf, JsNum::NegInf) => Some(JsNum::Nan),
        (JsNum::NegInf, JsNum::PosInf) => Some(JsNum::Nan),
        (JsNum::PosInf, _) => Some(JsNum::PosInf),
        (_, JsNum::PosInf) => Some(JsNum::PosInf),
        _ => Some(JsNum::NegInf),
    }
}

fn num_binop_noninteger_sub(x: JsNum, y: JsNum) -> (r: Option<JsNum>)
    requires
        !(x is Int && y is Int),
    ensures
        r == spec_num_sub(x, y),
{
    match (x, y) {
        (JsNum::Nan, _) => Some(JsNum::Nan),
        (_, JsNum::Nan) => Some(JsNum::Nan),
        (JsNum::PosInf, JsNum::PosInf) => Some(JsNum::Nan),
        (JsNum::NegInf, JsNum::NegInf) => Some(JsNum::Nan),
        (JsNum::PosInf, _) => Some(JsNum::PosInf),
        (JsNum::NegInf, _) => Some(JsNum::NegInf),
        (_, JsNum::PosInf) => Some(JsNum::NegInf),
        _ => Some(JsNum::PosInf),
    }
}

fn num_binop_noninteger_mul(x: JsNum, y: JsNum) -> (r: Option<JsNum>)
    requires
        !(x is Int && y is Int),
    ensures
        r == spec_num_mul(x, y),
{
    match (x, y) {
        (JsNum::Nan, _) => Some(JsNum::Nan),
        (_, JsNum::Nan) => Some(JsNum::Nan),
        (JsNum::PosInf, JsNum::PosInf) => Some(JsNum::PosInf),
        (JsNum::NegInf, JsNum::NegInf) => Some(JsNum::PosInf),
        (JsNum::PosInf, JsNum::NegInf) => Some(JsNum::NegInf),
        (JsNum::NegInf, JsNum::PosInf) => Some(JsNum::NegInf),
        (JsNum::PosInf, JsNum::Int(b)) => if b == 0 {
            Some(JsNum::Nan)
        } else if b > 0 {
            Some(JsNum::PosInf)
        } else {
            Some(JsNum::NegInf)
        },
        (JsNum::Int(a), JsNum::PosInf) => if a == 0 {
            Some(JsNum::Nan)
        } else if a > 0 {
            Some(JsNum::PosInf)
        } else {
            Some(JsNum::NegInf)
        },
        (JsNum::NegInf, JsNum::Int(b)) => if b == 0 {
            Some(JsNum::Nan)
        } else if b > 0 {
            Some(JsNum::NegInf)
        } else {
            Some(JsNum::PosInf)
        },
        (JsNum::Int(a), JsNum::NegInf) => if a == 0 {
            Some(JsNum::Nan)
        } else if a > 0 {
            Some(JsNum::NegInf)
        } else {
            Some(JsNum::PosInf)
        },
        _ => None,
    }
}

fn num_binop_noninteger_div(x: JsNum, y: JsNum) -> (r: Option<JsNum>)
    requires
        !(x is Int && y is Int),
    ensures
        r == spec_num_div(x, y),
{
    match (x, y) {
        (JsNum::Nan, _) => Some(JsNum::Nan),
        (_, JsNum::Nan) => Some(JsNum::Nan),
        (JsNum::PosInf, JsNum::Int(b)) => if b >= 0 {
            Some(JsNum::PosInf)
        } else {
            Some(JsNum::NegInf)
        },
        (JsNum::NegInf, JsNum::Int(b)) => if b >= 0 {
            Some(JsNum::NegInf)
        } else {
            Some(JsNum::PosInf)
        },
        (JsNum::Int(_), _) => Some(JsNum::Int(0)),
        _ => Some(JsNum::Nan),
    }
}

fn num_binop_noninteger_mod(x: JsNum, y: JsNum) -> (r: Option<JsNum>)
    requires
        !(x is Int && y is Int),
    ensures
        r == spec_num_mod(x, y),
{
    match (x, y) {
        (JsNum::Nan, _) => Some(JsNum::Nan),
        (_, JsNum::Nan) => Some(JsNum::Nan),
        (JsNum::PosInf, _) => Some(JsNum::Nan),
        (JsNum::NegInf, _) => Some(JsNum::Nan),
        (JsNum::Int(a), _) => Some(JsNum::Int(a)),
    }
}

/// The result of one binary operator on two values, following the coercion
/// rules: `+` concatenates after ToString where either operand is a string
/// and otherwise adds numerically; the other arithmetic operators work on
/// ToNumber; `===`/`!==` compare without coercion; the order operators
/// compare lexicographically where both operands are strings and otherwise
/// numerically.
pub open spec fn spec_eval_binop(op: BinOp, a: GhostValue, b: GhostValue) -> Result<
    GhostValue,
    ValueError,
> {
    match op {
        BinOp::Add => if a is Str || b is Str {
            Ok(GhostValue::Str(spec_to_string(a) + spec_to_string(b)))
        } else {
            match spec_num_add(spec_to_number(a), spec_to_number(b)) {
                Some(n) => Ok(GhostValue::Num(n)),
                None => Err(ValueError::NotExactlyRepresentable),
            }
        },
        BinOp::Sub => match spec_num_sub(spec_to_number(a), spec_to_number(b)) {
            Some(n) => Ok(GhostValue::Num(n)),
            None => Err(ValueError::NotExactlyRepresentable),
        },
        BinOp::Mul => match spec_num_mul(spec_to_number(a), spec_to_number(b)) {
            Some(n) => Ok(GhostValue::Num(n)),
            None => Err(ValueError::NotExactlyRepresentable),
        },
        BinOp::Div => match spec_num_div(spec_to_number(a), spec_to_number(b)) {
            Some(n) => Ok(GhostValue::Num(n)),
            None => Err(ValueError::NotExactlyRepresentable),
        },
        BinOp::Mod => match spec_num_mod(spec_to_number(a), spec_to_number(b)) {
            Some(n) => Ok(GhostValue::Num(n)),
            None => Err(ValueError::NotExactlyRepresentable),
        },
        BinOp::StrictEq => Ok(GhostValue::Bool(spec_strict_eq(a, b))),
        BinOp::StrictNe => Ok(GhostValue::Bool(!spec_strict_eq(a, b))),
        BinOp::Lt => if a is Str && b is Str {
            Ok(GhostValue::Bool(lex_lt(a->Str_0, b->Str_0)))
        } else {
            Ok(GhostValue::Bool(spec_num_lt(spec_to_number(a), spec_to_number(b))))
        },
        BinOp::Gt => if a is Str && b is Str {
            Ok(GhostValue::Bool(lex_lt(b->Str_0, a->Str_0)))
        } else {
            Ok(GhostValue::Bool(spec_num_lt(spec_to_number(b), spec_to_number(a))))
        },
        BinOp::Le => if a is Str && b is Str {
            Ok(GhostValue::Bool(!lex_lt(b->Str_0, a->Str_0)))
        } else {
            Ok(GhostValue::Bool(spec_num_le(spec_to_number(a), spec_to_number(b))))
        },
        BinOp::Ge => if a is Str && b is Str {
            Ok(GhostValue::Bool(!lex_lt(a->Str_0, b->Str_0)))
        } else {
            Ok(GhostValue::Bool(spec_num_le(spec_to_number(b), spec_to_number(a))))
        },
    }
}

/// Evaluates one supported binary operator on two values, exactly as
/// `spec_eval_binop` states.
pub fn eval_binop(op: BinOp, a: &JsValue, b: &JsValue) -> (r: Result<JsValue, ValueError>)
    ensures
        match (r, spec_eval_binop(op, a@, b@)) {
            (Ok(v), Ok(g)) => v@ == g,
            (Err(e), Err(g)) => e == g,
            _ => false,
        },
{
    let a_is_str = matches!(a, JsValue::Str(_));
    let b_is_str = matches!(b, JsValue::Str(_));
    match op {
        BinOp::Add => {
            if a_is_str || b_is_str {
                let sa = to_js_string(a);
                let sb = to_js_string(b);
                Ok(JsValue::Str(sa.concat(sb.as_str())))
            } else {
                match num_binop(BinOp::Add, to_js_number(a), to_js_number(b)) {
                    Some(n) => Ok(JsValue::Num(n)),
                    None => Err(ValueError::NotExactlyRepresentable),
                }
            }
        },
        BinOp::Sub | BinOp::Mul | BinOp::Div | BinOp::Mod => {
            match num_binop(op, to_js_number(a), to_js_number(b)) {
                Some(n) => Ok(JsValue::Num(n)),
                None => Err(ValueError::NotExactlyRepresentable),
            }
        },
        BinOp::StrictEq => Ok(JsValue::Bool(strict_eq(a, b))),
        BinOp::StrictNe => Ok(JsValue::Bool(!strict_eq(a, b))),
        BinOp::Lt => match (a, b) {
            (JsValue::Str(x), JsValue::Str(y)) => Ok(
                JsValue::Bool(str_lex_lt(x.as_str(), y.as_str())),
            ),
            _ => Ok(JsValue::Bool(num_lt_exec(to_js_number(a), to_js_number(b)))),
        },
        BinOp::Gt => match (a, b) {
            (JsValue::Str(x), JsValue::Str(y)) => Ok(
                JsValue::Bool(str_lex_lt(y.as_str(), x.as_str())),
            ),
            _ => Ok(JsValue::Bool(num_lt_exec(to_js_number(b), to_js_number(a)))),
        },
        BinOp::Le => match (a, b) {
            (JsValue::Str(x), JsValue::Str(y)) => Ok(
                JsValue::Bool(!str_lex_lt(y.as_str(), x.as_str())),
            ),
            _ => Ok(JsValue::Bool(num_le_exec(to_js_number(a), to_js_number(b)))),
        },
        BinOp::Ge => match (a, b) {
            (JsValue::Str(x), JsValue::Str(y)) => Ok(
                JsValue::Bool(!str_lex_lt(x.as_str(), y.as_str())),
            ),
            _ => Ok(JsValue::Bool(num_le_exec(to_js_number(b), to_js_number(a)))),
        },
    }
}

fn num_lt_exec(x: JsNum, y: JsNum) -> (r: bool)
    ensures
        r == spec_num_lt(x, y),
{
    match (x, y) {
        (JsNum::Nan, _) => false,
        (_, JsNum::Nan) => false,
        (JsNum::NegInf, JsNum::NegInf) => false,
        (JsNum::NegInf, _) => true,
        (_, JsNum::NegInf) => false,
        (JsNum::PosInf, _) => false,
        (_, JsNum::PosInf) => true,
        (JsNum::Int(a), JsNum::Int(b)) => a < b,
    }
}

fn num_le_exec(x: JsNum, y: JsNum) -> (r: bool)
    ensures
        r == spec_num_le(x, y),
{
    match (x, y) {
        (JsNum::Nan, _) => false,
        (_, JsNum::Nan) => false,
        (JsNum::NegInf, _) => true,
        (JsNum::PosInf, JsNum::PosInf) => true,
        (JsNum::PosInf, _) => false,
        (JsNum::Int(_), JsNum::NegInf) => false,
        (JsNum::Int(_), JsNum::PosInf) => true,
        (JsNum::Int(a), JsNum::Int(b)) => a <= b,
    }
}

} // verus!
