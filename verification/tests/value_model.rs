use js2cpp::value::{eval_binop, strict_eq, to_js_number, to_js_string, BinOp, JsNum, JsValue, ValueError};

fn num(i: i64) -> JsValue {
    JsValue::Num(JsNum::Int(i))
}

fn st(s: &str) -> JsValue {
    JsValue::Str(String::from(s))
}

#[test]
fn to_string_totality() {
    assert_eq!(to_js_string(&JsValue::Undefined), "undefined");
    assert_eq!(to_js_string(&JsValue::Null), "null");
    assert_eq!(to_js_string(&JsValue::Bool(true)), "true");
    assert_eq!(to_js_string(&JsValue::Bool(false)), "false");
    assert_eq!(to_js_string(&num(12)), "12");
    assert_eq!(to_js_string(&num(-5)), "-5");
    assert_eq!(to_js_string(&num(0)), "0");
    assert_eq!(to_js_string(&num(i64::MIN)), "-9223372036854775808");
    assert_eq!(to_js_string(&JsValue::Num(JsNum::Nan)), "NaN");
    assert_eq!(to_js_string(&JsValue::Num(JsNum::PosInf)), "Infinity");
    assert_eq!(to_js_string(&JsValue::Num(JsNum::NegInf)), "-Infinity");
    assert_eq!(to_js_string(&st("hi")), "hi");
    assert_eq!(to_js_string(&JsValue::ObjRef(3)), "[object Object]");
}

#[test]
fn to_number_totality() {
    assert_eq!(to_js_number(&JsValue::Undefined), JsNum::Nan);
    assert_eq!(to_js_number(&JsValue::Null), JsNum::Int(0));
    assert_eq!(to_js_number(&JsValue::Bool(true)), JsNum::Int(1));
    assert_eq!(to_js_number(&st("")), JsNum::Int(0));
    assert_eq!(to_js_number(&st("42")), JsNum::Int(42));
    assert_eq!(to_js_number(&st("-7")), JsNum::Int(-7));
    assert_eq!(to_js_number(&st("010")), JsNum::Int(10));
    assert_eq!(to_js_number(&st("abc")), JsNum::Nan);
    assert_eq!(to_js_number(&st("-")), JsNum::Nan);
    assert_eq!(to_js_number(&st("9223372036854775808")), JsNum::Nan);
    assert_eq!(to_js_number(&st("99999999999999999999999")), JsNum::Nan);
    // the fragment boundary: 2^53 is the largest modeled magnitude
    assert_eq!(
        to_js_number(&st("9007199254740992")),
        JsNum::Int(9007199254740992)
    );
    assert_eq!(
        to_js_number(&st("-9007199254740992")),
        JsNum::Int(-9007199254740992)
    );
    assert_eq!(to_js_number(&st("9007199254740993")), JsNum::Nan);
}

#[test]
fn plus_coercion_left_to_right() {
    // "" + 1 + 2 evaluates to the string "12"
    let a = eval_binop(BinOp::Add, &st(""), &num(1)).unwrap();
    let b = eval_binop(BinOp::Add, &a, &num(2)).unwrap();
    assert_eq!(b, st("12"));
    // 1 + 2 + "" evaluates to the string "3"
    let c = eval_binop(BinOp::Add, &num(1), &num(2)).unwrap();
    let d = eval_binop(BinOp::Add, &c, &st("")).unwrap();
    assert_eq!(d, st("3"));
}

#[test]
fn arithmetic_on_integer_fragment() {
    assert_eq!(eval_binop(BinOp::Add, &num(2), &num(3)).unwrap(), num(5));
    assert_eq!(eval_binop(BinOp::Sub, &num(2), &num(3)).unwrap(), num(-1));
    assert_eq!(eval_binop(BinOp::Mul, &num(-4), &num(3)).unwrap(), num(-12));
    assert_eq!(eval_binop(BinOp::Div, &num(6), &num(2)).unwrap(), num(3));
    assert_eq!(
        eval_binop(BinOp::Div, &num(7), &num(2)),
        Err(ValueError::NotExactlyRepresentable)
    );
    assert_eq!(
        eval_binop(BinOp::Mul, &num(i64::MAX), &num(2)),
        Err(ValueError::NotExactlyRepresentable)
    );
    // results leaving the fragment are reported, never approximated
    assert_eq!(
        eval_binop(BinOp::Mul, &num(1 << 52), &num(4)),
        Err(ValueError::NotExactlyRepresentable)
    );
    assert_eq!(
        eval_binop(BinOp::Add, &num(1 << 52), &num(1 << 52)).unwrap(),
        num(9007199254740992)
    );
    assert_eq!(
        eval_binop(BinOp::Add, &num(9007199254740992), &num(1)),
        Err(ValueError::NotExactlyRepresentable)
    );
    assert_eq!(
        eval_binop(BinOp::Div, &num(1), &num(0)).unwrap(),
        JsValue::Num(JsNum::PosInf)
    );
    assert_eq!(
        eval_binop(BinOp::Div, &num(-1), &num(0)).unwrap(),
        JsValue::Num(JsNum::NegInf)
    );
    assert_eq!(
        eval_binop(BinOp::Div, &num(0), &num(0)).unwrap(),
        JsValue::Num(JsNum::Nan)
    );
    assert_eq!(eval_binop(BinOp::Mod, &num(-7), &num(3)).unwrap(), num(-1));
    assert_eq!(eval_binop(BinOp::Mod, &num(7), &num(-3)).unwrap(), num(1));
    assert_eq!(
        eval_binop(BinOp::Mod, &num(7), &num(0)).unwrap(),
        JsValue::Num(JsNum::Nan)
    );
    // NaN propagates through arithmetic
    assert_eq!(
        eval_binop(BinOp::Add, &JsValue::Undefined, &num(1)).unwrap(),
        JsValue::Num(JsNum::Nan)
    );
}

#[test]
fn strict_equality_compares_tag_then_value() {
    assert!(strict_eq(&num(3), &num(3)));
    assert!(!strict_eq(&num(3), &st("3")));
    assert!(!strict_eq(
        &JsValue::Num(JsNum::Nan),
        &JsValue::Num(JsNum::Nan)
    ));
    assert!(strict_eq(&JsValue::Undefined, &JsValue::Undefined));
    assert!(!strict_eq(&JsValue::Undefined, &JsValue::Null));
    assert!(strict_eq(&JsValue::ObjRef(7), &JsValue::ObjRef(7)));
    assert!(!strict_eq(&JsValue::ObjRef(7), &JsValue::ObjRef(8)));
    assert!(!strict_eq(&JsValue::ObjRef(7), &JsValue::FuncRef(7)));
    assert_eq!(
        eval_binop(BinOp::StrictEq, &st("a"), &st("a")).unwrap(),
        JsValue::Bool(true)
    );
    assert_eq!(
        eval_binop(BinOp::StrictNe, &st("a"), &st("b")).unwrap(),
        JsValue::Bool(true)
    );
}

#[test]
fn comparisons() {
    assert_eq!(
        eval_binop(BinOp::Lt, &num(2), &num(10)).unwrap(),
        JsValue::Bool(true)
    );
    // both strings: lexicographic, so "10" < "9"
    assert_eq!(
        eval_binop(BinOp::Lt, &st("10"), &st("9")).unwrap(),
        JsValue::Bool(true)
    );
    assert_eq!(
        eval_binop(BinOp::Le, &st("a"), &st("a")).unwrap(),
        JsValue::Bool(true)
    );
    assert_eq!(
        eval_binop(BinOp::Gt, &st("b"), &st("a")).unwrap(),
        JsValue::Bool(true)
    );
    // UTF-16 code-unit order: an astral character sorts below U+FFFF
    assert_eq!(
        eval_binop(BinOp::Lt, &st("\u{10000}"), &st("\u{ffff}")).unwrap(),
        JsValue::Bool(true)
    );
    // NaN comparisons are false
    assert_eq!(
        eval_binop(BinOp::Lt, &JsValue::Undefined, &num(1)).unwrap(),
        JsValue::Bool(false)
    );
    assert_eq!(
        eval_binop(BinOp::Ge, &JsValue::Undefined, &num(1)).unwrap(),
        JsValue::Bool(false)
    );
}
