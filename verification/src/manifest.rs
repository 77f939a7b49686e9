//! The property-slot manifest: a name-sorted set of distinct property-name
//! strings, and the generator for the fixed-layout slot storage and the
//! deterministic name-to-slot lookup source that compiled programs link in.
//!
//! Field names are mangled collision-free: a letter or digit stands for
//! itself, every other character (the underscore included) becomes an
//! underscore-delimited hexadecimal escape of its code point.

use vstd::prelude::*;
use crate::value::lex_lt;

verus! {

/// The views of a sequence of strings.
pub open spec fn views_of(v: Seq<String>) -> Seq<Seq<char>> {
    v.map_values(|s: String| s@)
}

/// Strictly increasing in the lexicographic order: sorted and duplicate-free.
pub open spec fn sorted_strict(s: Seq<Seq<char>>) -> bool {
    forall|i: int| 0 <= i < s.len() - 1 ==> lex_lt(#[trigger] s[i], s[i + 1])
}

proof fn lemma_lex_asym(a: Seq<char>, b: Seq<char>)
    requires
        lex_lt(a, b),
    ensures
        !lex_lt(b, a),
    decreases a.len(),
{
    if a.len() > 0 && b.len() > 0 && (a[0] as int) == (b[0] as int) {
        lemma_lex_asym(a.skip(1), b.skip(1));
    }
}

proof fn lemma_lex_total(a: Seq<char>, b: Seq<char>)
    ensures
        lex_lt(a, b) || lex_lt(b, a) || a == b,
    decreases a.len(),
{
    broadcast use vstd::seq_lib::group_seq_properties;

    if a.len() == 0 && b.len() == 0 {
        assert(a =~= b);
    } else if a.len() > 0 && b.len() > 0 {
        if (a[0] as int) == (b[0] as int) {
            lemma_lex_total(a.skip(1), b.skip(1));
            if a.skip(1) == b.skip(1) {
                assert(a.skip(1).len() == a.len() - 1);
                assert(b.skip(1).len() == b.len() - 1);
                assert(a.skip(1).len() == b.skip(1).len());
                assert(a.len() == b.len());
                assert(a[0] == b[0]);
                assert forall|i: int| 0 <= i < a.len() implies a[i] == b[i] by {
                    if i > 0 {
                        assert(a[i] == a.skip(1)[i - 1]);
                        assert(b[i] == b.skip(1)[i - 1]);
                    }
                }
                assert(a.len() == b.len());
                assert(a =~= b);
            }
        }
    }
}

proof fn lemma_lex_trans(a: Seq<char>, b: Seq<char>, c: Seq<char>)
    requires
        lex_lt(a, b),
        lex_lt(b, c),
    ensures
        lex_lt(a, c),
    decreases a.len(),
{
    if a.len() > 0 && b.len() > 0 && c.len() > 0 && (a[0] as int) == (b[0] as int) && (b[0] as int)
        == (c[0] as int) {
        lemma_lex_trans(a.skip(1), b.skip(1), c.skip(1));
    }
}

proof fn lemma_sorted_lt(s: Seq<Seq<char>>, i: int, j: int)
    requires
        sorted_strict(s),
        0 <= i < j < s.len(),
    ensures
        lex_lt(s[i], s[j]),
    decreases j - i,
{
    if j == i + 1 {
    } else {
        lemma_sorted_lt(s, i, j - 1);
        lemma_lex_trans(s[i], s[j - 1], s[j]);
    }
}

/// Two name-sorted, duplicate-free manifests over the same set of names are
/// the same sequence: the generated output is determined by the set alone.
pub proof fn lemma_sorted_distinct_unique(s: Seq<Seq<char>>, t: Seq<Seq<char>>)
    requires
        sorted_strict(s),
        sorted_strict(t),
        forall|n: Seq<char>| s.contains(n) <==> t.contains(n),
    ensures
        s == t,
    decreases s.len(),
{
    if s.len() == 0 {
        if t.len() > 0 {
            assert(t.contains(t[0]));
            let k = choose|k: int| 0 <= k < s.len() && s[k] == t[0];
            assert(false);
        }
        assert(s =~= t);
    } else if t.len() == 0 {
        assert(s.contains(s[0]));
        let k = choose|k: int| 0 <= k < t.len() && t[k] == s[0];
        assert(false);
    } else {
        // the heads are both the minimum of the same set
        assert(t.contains(s[0])) by {
            assert(s.contains(s[0]));
        }
        let k = choose|k: int| 0 <= k < t.len() && t[k] == s[0];
        assert(s.contains(t[0])) by {
            assert(t.contains(t[0]));
        }
        let m = choose|m: int| 0 <= m < s.len() && s[m] == t[0];
        if s[0] != t[0] {
            assert(k > 0);
            lemma_sorted_lt(t, 0, k);
            assert(m > 0);
            lemma_sorted_lt(s, 0, m);
            lemma_lex_trans(s[0], t[0], s[0]);
            lemma_lex_asym(s[0], s[0]);
            assert(false);
        }
        let s1 = s.skip(1);
        let t1 = t.skip(1);
        assert(sorted_strict(s1)) by {
            assert forall|i: int| 0 <= i < s1.len() - 1 implies lex_lt(
                #[trigger] s1[i],
                s1[i + 1],
            ) by {
                assert(s1[i] == s[i + 1]);
                assert(s1[i + 1] == s[i + 2]);
            }
        }
        assert(sorted_strict(t1)) by {
            assert forall|i: int| 0 <= i < t1.len() - 1 implies lex_lt(
                #[trigger] t1[i],
                t1[i + 1],
            ) by {
                assert(t1[i] == t[i + 1]);
                assert(t1[i + 1] == t[i + 2]);
            }
        }
        assert forall|n: Seq<char>| s1.contains(n) implies t1.contains(n) by {
            let j = choose|j: int| 0 <= j < s1.len() && s1[j] == n;
            assert(s[j + 1] == n);
            assert(s.contains(n));
            assert(t.contains(n));
            let kk = choose|kk: int| 0 <= kk < t.len() && t[kk] == n;
            if kk == 0 {
                lemma_sorted_lt(s, 0, j + 1);
                lemma_lex_asym(s[0], n);
                assert(false);
            }
            assert(t1[kk - 1] == n);
            assert(t1.contains(n));
        }
        assert forall|n: Seq<char>| t1.contains(n) implies s1.contains(n) by {
            let j = choose|j: int| 0 <= j < t1.len() && t1[j] == n;
            assert(t[j + 1] == n);
            assert(t.contains(n));
            assert(s.contains(n));
            let kk = choose|kk: int| 0 <= kk < s.len() && s[kk] == n;
            if kk == 0 {
                lemma_sorted_lt(t, 0, j + 1);
                lemma_lex_asym(t[0], n);
                assert(false);
            }
            assert(s1[kk - 1] == n);
            assert(s1.contains(n));
        }
        lemma_sorted_distinct_unique(s1, t1);
        assert forall|i: int| 0 <= i < s.len() implies s[i] == t[i] by {
            if i > 0 {
                assert(s[i] == s1[i - 1]);
                assert(t[i] == t1[i - 1]);
            }
        }
        assert(s.len() == t.len());
        assert(s =~= t);
    }
}

/// An ordered, duplicate-free set of property names.
pub struct PropertyManifest {
    names: Vec<String>,
}

impl PropertyManifest {
    /// The property names, in their generated order.
    pub closed spec fn names(&self) -> Seq<Seq<char>> {
        views_of(self.names@)
    }

    /// The names are strictly increasing: sorted, without duplicates.
    pub open spec fn wf(&self) -> bool {
        sorted_strict(self.names())
    }

    /// Whether `n` is a property name of this manifest.
    pub open spec fn has(&self, n: Seq<char>) -> bool {
        self.names().contains(n)
    }

    pub fn len(&self) -> (r: usize)
        ensures
            r == self.names().len(),
    {
        self.names.len()
    }

    /// Builds the manifest from a program's property-name description:
    /// the input is de-duplicated and name-sorted, so duplicates never
    /// produce duplicate slots.
    pub fn from_names(props: Vec<String>) -> (r: PropertyManifest)
        ensures
            r.wf(),
            forall|n: Seq<char>| r.has(n) <==> views_of(props@).contains(n),
    {
        let mut names: Vec<String> = Vec::new();
        let n = props.len();
        let mut k: usize = 0;
        while k < n
            invariant
                0 <= k <= n,
                n == props@.len(),
                sorted_strict(views_of(names@)),
                forall|nm: Seq<char>|
                    views_of(names@).contains(nm) <==> views_of(props@.take(k as int)).contains(nm),
            decreases n - k,
        {
            let p = props[k].clone();
            proof {
                assert(p@ == views_of(props@)[k as int]);
            }
            insert_sorted(&mut names, p);
            proof {
                let taken = views_of(props@.take(k + 1));
                let prev = views_of(props@.take(k as int));
                assert(taken.drop_last() =~= prev);
                assert(taken.last() == props@[k as int]@);
                assert forall|nm: Seq<char>| taken.contains(nm) implies (prev.contains(nm) || nm
                    == props@[k as int]@) by {
                    let j = choose|j: int| 0 <= j < taken.len() && taken[j] == nm;
                    if j < taken.len() - 1 {
                        assert(prev[j] == nm);
                    }
                }
                assert forall|nm: Seq<char>| prev.contains(nm) || nm == props@[k as int]@ implies
                    taken.contains(nm) by {
                    if prev.contains(nm) {
                        let j = choose|j: int| 0 <= j < prev.len() && prev[j] == nm;
                        assert(taken[j] == nm);
                    } else {
                        assert(taken[taken.len() - 1] == nm);
                    }
                }
            }
            k = k + 1;
        }
        proof {
            assert(props@.take(n as int) =~= props@);
        }
        PropertyManifest { names }
    }
}

/// The insertion point of `x` in the sorted `v`, and whether `x` is
/// already present there.
fn find_pos(v: &Vec<String>, x: &String) -> (r: (usize, bool))
    requires
        sorted_strict(views_of(v@)),
    ensures
        r.1 ==> r.0 < v@.len() && views_of(v@)[r.0 as int] == x@,
        !r.1 ==> r.0 <= v@.len() && (forall|j: int|
            0 <= j < r.0 ==> lex_lt(#[trigger] views_of(v@)[j], x@)) && (r.0 < v@.len()
            ==> lex_lt(x@, views_of(v@)[r.0 as int])),
{
    let n = v.len();
    let mut i: usize = 0;
    while i < n
        invariant
            0 <= i <= n,
            n == v@.len(),
            forall|j: int| 0 <= j < i ==> lex_lt(#[trigger] views_of(v@)[j], x@),
        decreases n - i,
    {
        if v[i] == *x {
            proof {
                assert(views_of(v@)[i as int] == x@);
            }
            return (i, true);
        }
        if !str_lex_lt_exec(&v[i], x) {
            proof {
                lemma_lex_total(views_of(v@)[i as int], x@);
            }
            return (i, false);
        }
        i = i + 1;
    }
    (n, false)
}

/// Inserts `x` into the sorted, duplicate-free `v`, keeping it so; a name
/// already present is left alone.
fn insert_sorted(v: &mut Vec<String>, x: String)
    requires
        sorted_strict(views_of(old(v)@)),
    ensures
        sorted_strict(views_of(final(v)@)),
        forall|n: Seq<char>|
            views_of(final(v)@).contains(n) <==> (views_of(old(v)@).contains(n) || n == x@),
{
    let (i, present) = find_pos(v, &x);
    if present {
        proof {
            assert(views_of(v@)[i as int] == x@);
            assert(views_of(v@).contains(x@));
        }
        return ;
    }
    let ghost pre = v@;
    v.insert(i, x);
    proof {
        let vs = views_of(v@);
        let ps = views_of(pre);
        assert(v@ == pre.insert(i as int, x));
        assert forall|j: int| 0 <= j < vs.len() implies vs[j] == (if j < i {
            ps[j]
        } else if j == i {
            x@
        } else {
            ps[j - 1]
        }) by {
            assert(v@[j] == (if j < i {
                pre[j]
            } else if j == i as int {
                x
            } else {
                pre[j - 1]
            }));
        }
        assert forall|j: int| 0 <= j < vs.len() - 1 implies lex_lt(#[trigger] vs[j], vs[j + 1]) by {
            if j + 1 < i {
                assert(lex_lt(ps[j], ps[j + 1]));
            } else if j + 1 == i {
                assert(lex_lt(ps[j], x@));
            } else if j == i {
                assert(lex_lt(x@, ps[j]));
            } else {
                assert(lex_lt(ps[j - 1], ps[j]));
            }
        }
        assert forall|nm: Seq<char>| vs.contains(nm) implies (ps.contains(nm) || nm == x@) by {
            let j = choose|j: int| 0 <= j < vs.len() && vs[j] == nm;
            if j < i {
                assert(ps[j] == nm);
            } else if j > i {
                assert(ps[j - 1] == nm);
            }
        }
        assert forall|nm: Seq<char>| ps.contains(nm) || nm == x@ implies vs.contains(nm) by {
            if ps.contains(nm) {
                let j = choose|j: int| 0 <= j < ps.len() && ps[j] == nm;
                if j < i {
                    assert(vs[j] == nm);
                } else {
                    assert(vs[j + 1] == nm);
                }
            } else {
                assert(vs[i as int] == x@);
            }
        }
    }
}

/// Lexicographic comparison on owned strings.
fn str_lex_lt_exec(a: &String, b: &String) -> (r: bool)
    ensures
        r == lex_lt(a@, b@),
{
    crate::value::str_lex_lt(a.as_str(), b.as_str())
}

/// Whether `c` passes into a field name unchanged.
pub open spec fn is_ident_char(c: char) -> bool {
    ('a' <= c && c <= 'z') || ('A' <= c && c <= 'Z') || ('0' <= c && c <= '9')
}

/// The lowercase hexadecimal digit character for `d`.
pub open spec fn hex_char(d: nat) -> char {
    if d == 0 {
        '0'
    } else if d == 1 {
        '1'
    } else if d == 2 {
        '2'
    } else if d == 3 {
        '3'
    } else if d == 4 {
        '4'
    } else if d == 5 {
        '5'
    } else if d == 6 {
        '6'
    } else if d == 7 {
        '7'
    } else if d == 8 {
        '8'
    } else if d == 9 {
        '9'
    } else if d == 10 {
        'a'
    } else if d == 11 {
        'b'
    } else if d == 12 {
        'c'
    } else if d == 13 {
        'd'
    } else if d == 14 {
        'e'
    } else {
        'f'
    }
}

/// The hexadecimal digits of `n`, most significant first.
pub open spec fn hex_digits(n: nat) -> Seq<char>
    decreases n,
{
    if n < 16 {
        seq![hex_char(n)]
    } else {
        hex_digits(n / 16).push(hex_char(n % 16))
    }
}

/// One character of a property name, mangled: a letter or digit stands for
/// itself, anything else becomes an underscore-delimited hexadecimal escape
/// of its code point.
pub open spec fn mangle_char(c: char) -> Seq<char> {
    if is_ident_char(c) {
        seq![c]
    } else {
        seq!['_'] + hex_digits(c as nat) + seq!['_']
    }
}

/// A property name mangled into a target-language identifier suffix.
pub open spec fn mangled(s: Seq<char>) -> Seq<char>
    decreases s.len(),
{
    if s.len() == 0 {
        Seq::empty()
    } else {
        mangled(s.drop_last()) + mangle_char(s.last())
    }
}

/// One character escaped for a target-language string literal.
pub open spec fn esc_char(c: char) -> Seq<char> {
    if c == '"' {
        seq!['\\', '"']
    } else if c == '\\' {
        seq!['\\', '\\']
    } else if c == '\n' {
        seq!['\\', 'n']
    } else if c == '\r' {
        seq!['\\', 'r']
    } else if c == '\t' {
        seq!['\\', 't']
    } else {
        seq![c]
    }
}

/// A property name escaped for a target-language string literal.
pub open spec fn escaped(s: Seq<char>) -> Seq<char>
    decreases s.len(),
{
    if s.len() == 0 {
        Seq::empty()
    } else {
        escaped(s.drop_last()) + esc_char(s.last())
    }
}

/// The storage slot declaration for one property name.
pub open spec fn storage_line(n: Seq<char>) -> Seq<char> {
    "optional<JSValue> prop_"@ + mangled(n) + ";"@
}

/// The slot storage declaration: one optional-value field per name, in
/// manifest order.
pub open spec fn spec_storage_decl(names: Seq<Seq<char>>) -> Seq<char>
    decreases names.len(),
{
    if names.len() == 0 {
        Seq::empty()
    } else {
        spec_storage_decl(names.drop_last()) + storage_line(names.last())
    }
}

/// One string-equality test of the generated lookup function.
pub open spec fn lookup_line(n: Seq<char>) -> Seq<char> {
    " if(key.coerce_to_string() == \""@ + escaped(n) + "\")return &out.prop_"@ + mangled(n) + ";"@
}

pub open spec fn spec_lookup_body(names: Seq<Seq<char>>) -> Seq<char>
    decreases names.len(),
{
    if names.len() == 0 {
        Seq::empty()
    } else {
        spec_lookup_body(names.drop_last()) + lookup_line(names.last())
    }
}

/// The lookup function source: a sequence of string-equality tests in
/// manifest order, ending in the not-found signal.
pub open spec fn spec_lookup_source(names: Seq<Seq<char>>) -> Seq<char> {
    "static optional<JSValue> *prop(JSValue key,JSBase &out){"@ + spec_lookup_body(names)
        + "return 0;};"@
}

/// Appends one lowercase hexadecimal digit character.
fn push_hex_digit(s: &mut String, d: u64)
    requires
        d < 16,
    ensures
        final(s)@ == old(s)@.push(hex_char(d as nat)),
{
    let c: char = if d == 0 {
        '0'
    } else if d == 1 {
        '1'
    } else if d == 2 {
        '2'
    } else if d == 3 {
        '3'
    } else if d == 4 {
        '4'
    } else if d == 5 {
        '5'
    } else if d == 6 {
        '6'
    } else if d == 7 {
        '7'
    } else if d == 8 {
        '8'
    } else if d == 9 {
        '9'
    } else if d == 10 {
        'a'
    } else if d == 11 {
        'b'
    } else if d == 12 {
        'c'
    } else if d == 13 {
        'd'
    } else if d == 14 {
        'e'
    } else {
        'f'
    };
    s.push(c);
}

/// Appends the hexadecimal digits of `n`.
fn append_hex(s: &mut String, n: u64)
    ensures
        final(s)@ == old(s)@ + hex_digits(n as nat),
    decreases n,
{
    let ghost pre = s@;
    if n < 16 {
        push_hex_digit(s, n);
        assert(s@ =~= pre + hex_digits(n as nat));
    } else {
        append_hex(s, n / 16);
        push_hex_digit(s, n % 16);
        assert(s@ =~= pre + hex_digits(n as nat));
    }
}

/// Whether `c` passes into a field name unchanged.
fn is_ident_char_exec(c: char) -> (r: bool)
    ensures
        r == is_ident_char(c),
{
    ('a' <= c && c <= 'z') || ('A' <= c && c <= 'Z') || ('0' <= c && c <= '9')
}

/// Appends the mangling of the property name `p`.
fn append_mangled(out: &mut String, p: &str)
    ensures
        final(out)@ == old(out)@ + mangled(p@),
{
    let n = p.unicode_len();
    let mut i: usize = 0;
    proof {
        assert(p@.take(0) =~= Seq::<char>::empty());
        assert(out@ =~= out@ + mangled(p@.take(0)));
    }
    while i < n
        invariant
            0 <= i <= n,
            n == p@.len(),
            out@ == old(out)@ + mangled(p@.take(i as int)),
        decreases n - i,
    {
        let c = p.get_char(i);
        let ghost pre = out@;
        if is_ident_char_exec(c) {
            out.push(c);
            assert(out@ =~= pre + mangle_char(c));
        } else {
            out.push('_');
            append_hex(out, c as u32 as u64);
            out.push('_');
            assert(out@ =~= pre + mangle_char(c));
        }
        proof {
            assert(p@.take(i + 1).drop_last() =~= p@.take(i as int));
            assert(p@.take(i + 1).last() == c);
            assert(out@ =~= old(out)@ + mangled(p@.take(i + 1)));
        }
        i = i + 1;
    }
    proof {
        assert(p@.take(n as int) =~= p@);
    }
}

/// Appends `p` escaped for a target-language string literal.
fn append_escaped(out: &mut String, p: &str)
    ensures
        final(out)@ == old(out)@ + escaped(p@),
{
    let n = p.unicode_len();
    let mut i: usize = 0;
    proof {
        assert(p@.take(0) =~= Seq::<char>::empty());
        assert(out@ =~= out@ + escaped(p@.take(0)));
    }
    while i < n
        invariant
            0 <= i <= n,
            n == p@.len(),
            out@ == old(out)@ + escaped(p@.take(i as int)),
        decreases n - i,
    {
        let c = p.get_char(i);
        let ghost pre = out@;
        if c == '"' {
            out.push('\\');
            out.push('"');
        } else if c == '\\' {
            out.push('\\');
            out.push('\\');
        } else if c == '\n' {
            out.push('\\');
            out.push('n');
        } else if c == '\r' {
            out.push('\\');
            out.push('r');
        } else if c == '\t' {
            out.push('\\');
            out.push('t');
        } else {
            out.push(c);
        }
        proof {
            assert(out@ =~= pre + esc_char(c));
            assert(p@.take(i + 1).drop_last() =~= p@.take(i as int));
            assert(p@.take(i + 1).last() == c);
            assert(out@ =~= old(out)@ + escaped(p@.take(i + 1)));
        }
        i = i + 1;
    }
    proof {
        assert(p@.take(n as int) =~= p@);
    }
}

/// The mangling of `p` as an owned string.
pub fn mangle_str(p: &str) -> (r: String)
    ensures
        r@ == mangled(p@),
{
    let mut out = String::new();
    append_mangled(&mut out, p);
    proof {
        assert(out@ =~= mangled(p@));
    }
    out
}

/// `p` escaped for a target-language string literal, as an owned string.
pub fn escape_str(p: &str) -> (r: String)
    ensures
        r@ == escaped(p@),
{
    let mut out = String::new();
    append_escaped(&mut out, p);
    proof {
        assert(out@ =~= escaped(p@));
    }
    out
}

impl PropertyManifest {
    /// The generated slot storage declaration: one field per name.
    pub fn storage_decl(&self) -> (r: String)
        ensures
            r@ == spec_storage_decl(self.names()),
    {
        let mut out = String::new();
        let n = self.names.len();
        let mut i: usize = 0;
        proof {
            assert(self.names().take(0) =~= Seq::<Seq<char>>::empty());
            assert(out@ =~= spec_storage_decl(self.names().take(0)));
        }
        while i < n
            invariant
                0 <= i <= n,
                n == self.names().len(),
                out@ == spec_storage_decl(self.names().take(i as int)),
            decreases n - i,
        {
            let ghost pre = out@;
            out.append("optional<JSValue> prop_");
            append_mangled(&mut out, self.names[i].as_str());
            out.append(";");
            proof {
                assert(self.names()[i as int] == self.names@[i as int]@);
                assert(out@ =~= pre + storage_line(self.names()[i as int]));
                assert(self.names().take(i + 1).drop_last() =~= self.names().take(i as int));
                assert(self.names().take(i + 1).last() == self.names()[i as int]);
                assert(out@ =~= spec_storage_decl(self.names().take(i + 1)));
            }
            i = i + 1;
        }
        proof {
            assert(self.names().take(n as int) =~= self.names());
        }
        out
    }

    /// The generated lookup function: string-equality tests in manifest
    /// order, `return 0;` as the not-found signal.
    pub fn lookup_source(&self) -> (r: String)
        ensures
            r@ == spec_lookup_source(self.names()),
    {
        let mut out = String::from_str("static optional<JSValue> *prop(JSValue key,JSBase &out){");
        let n = self.names.len();
        let mut i: usize = 0;
        proof {
            assert(self.names().take(0) =~= Seq::<Seq<char>>::empty());
            assert(out@ =~= "static optional<JSValue> *prop(JSValue key,JSBase &out){"@
                + spec_lookup_body(self.names().take(0)));
        }
        while i < n
            invariant
                0 <= i <= n,
                n == self.names().len(),
                out@ == "static optional<JSValue> *prop(JSValue key,JSBase &out){"@
                    + spec_lookup_body(self.names().take(i as int)),
            decreases n - i,
        {
            let ghost pre = out@;
            out.append(" if(key.coerce_to_string() == \"");
            append_escaped(&mut out, self.names[i].as_str());
            out.append("\")return &out.prop_");
            append_mangled(&mut out, self.names[i].as_str());
            out.append(";");
            proof {
                assert(self.names()[i as int] == self.names@[i as int]@);
                assert(out@ =~= pre + lookup_line(self.names()[i as int]));
                assert(self.names().take(i + 1).drop_last() =~= self.names().take(i as int));
                assert(self.names().take(i + 1).last() == self.names()[i as int]);
                assert(out@ =~= "static optional<JSValue> *prop(JSValue key,JSBase &out){"@
                    + spec_lookup_body(self.names().take(i + 1)));
            }
            i = i + 1;
        }
        proof {
            assert(self.names().take(n as int) =~= self.names());
        }
        out.append("return 0;};");
        proof {
            assert(out@ =~= spec_lookup_source(self.names()));
        }
        out
    }

    /// Both generated fragments: the storage declaration and the lookup
    /// function source.
    pub fn generate(&self) -> (r: (String, String))
        ensures
            r.0@ == spec_storage_decl(self.names()),
            r.1@ == spec_lookup_source(self.names()),
    {
        (self.storage_decl(), self.lookup_source())
    }

    /// The slot the generated lookup function resolves `key` to: the
    /// position of `key` among the names, or the not-found signal.
    pub fn slot_of(&self, key: &String) -> (r: Option<usize>)
        ensures
            match r {
                Some(i) => i < self.names().len() && self.names()[i as int] == key@,
                None => !self.has(key@),
            },
    {
        let n = self.names.len();
        let mut i: usize = 0;
        while i < n
            invariant
                0 <= i <= n,
                n == self.names().len(),
                forall|j: int| 0 <= j < i ==> self.names()[j] != key@,
            decreases n - i,
        {
            if self.names[i] == *key {
                proof {
                    assert(self.names()[i as int] == key@);
                }
                return Some(i);
            }
            i = i + 1;
        }
        proof {
            if self.has(key@) {
                let j = choose|j: int|
                    0 <= j < self.names().len() && self.names()[j] == key@;
            }
        }
        None
    }

    /// Generation is determined by the set of names alone: two well-formed
    /// manifests carrying the same names generate identical storage and
    /// lookup source, whatever order or duplication their inputs had.
    pub proof fn lemma_generation_deterministic(m1: &PropertyManifest, m2: &PropertyManifest)
        requires
            m1.wf(),
            m2.wf(),
            forall|n: Seq<char>| m1.has(n) <==> m2.has(n),
        ensures
            m1.names() == m2.names(),
            spec_storage_decl(m1.names()) == spec_storage_decl(m2.names()),
            spec_lookup_source(m1.names()) == spec_lookup_source(m2.names()),
    {
        assert forall|n: Seq<char>| m1.names().contains(n) <==> m2.names().contains(n) by {
            assert(m1.has(n) <==> m2.has(n));
        }
        lemma_sorted_distinct_unique(m1.names(), m2.names());
    }

    /// Distinct slots hold distinct names, so distinct present names
    /// resolve to distinct slots; the not-found signal is reserved for
    /// absent names by the contract of `slot_of`.
    pub proof fn lemma_slots_distinct(&self, i: int, j: int)
        requires
            self.wf(),
            0 <= i < j < self.names().len(),
        ensures
            self.names()[i] != self.names()[j],
    {
        lemma_sorted_lt(self.names(), i, j);
        lemma_lex_asym(self.names()[i], self.names()[j]);
    }
}

} // verus!
